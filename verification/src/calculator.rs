//! The aggregation engine: the per-record updates of the running counts and
//! the fold of a whole run of records into the report.

use vstd::prelude::*;
use crate::record::{
    postcodes_of, recipes_of, records_view, CustomPostcodeDeliveryTime, RecipeData, RecordView,
};
use crate::report::{
    getExpectedOutput, hour_label, is_busiest, lemma_texts_determined, recipe_pairs, single_keys,
    texts_ascending, texts_of, texts_strictly_ascending, ExpectedOutput, ReportView,
};
use crate::tally::{
    lemma_occurrences_bound, lemma_occurrences_positive, lemma_pair_count_at,
    lemma_pair_count_present, lemma_pairs_determined, occurrences, pair_count, pairs_ascending,
    CountTable,
};
use crate::text::{
    contains_ignoring_case, contains_text, lemma_text_lt_asymmetric, lowercase, lowercase_of,
    text_equal, text_le, text_lt,
};
use crate::decoder::{
    continue_with, decode_all, lemma_step_progress, records_from, steps_left, DecodeError,
    StatsLoader,
};
use crate::window::{delivery_hours, DeliveryPattern};

verus! {

/// The configuration of an aggregation: the delivery window to count in and
/// the texts by which recipe names are selected.
#[derive(Debug)]
pub struct StatsCalculator {
    pub customPostcodeDeliveryTime: CustomPostcodeDeliveryTime,
    pub customRecipeNames: Vec<String>,
}

/// `postcode` with `count` is the busiest of `postcodes`: it occurs `count`
/// times, no postcode occurs more often, and of those that occur as often it
/// is the last in ascending order. With no postcode at all, the busiest is
/// the empty text with count zero.
pub open spec fn busiest_among(postcodes: Seq<Seq<char>>, postcode: Seq<char>, count: nat) -> bool {
    if postcodes.len() == 0 {
        postcode == Seq::<char>::empty() && count == 0
    } else {
        &&& count > 0
        &&& occurrences(postcodes, postcode) == count
        &&& forall|k: Seq<char>| #[trigger] occurrences(postcodes, k) <= count
        &&& forall|k: Seq<char>| #[trigger] occurrences(postcodes, k) == count ==> text_le(k, postcode)
    }
}

/// The names that occur exactly once in `names`.
pub open spec fn once_named(names: Seq<Seq<char>>) -> Set<Seq<char>> {
    Set::new(|k: Seq<char>| occurrences(names, k) == 1)
}

impl StatsCalculator {
    /// A calculator with the given window and selecting texts.
    pub fn new(
        customPostcodeDeliveryTime: CustomPostcodeDeliveryTime,
        customRecipeNames: Vec<String>,
    ) -> (out: StatsCalculator)
        ensures
            out.customPostcodeDeliveryTime == customPostcodeDeliveryTime,
            out.customRecipeNames == customRecipeNames,
    {
        StatsCalculator { customPostcodeDeliveryTime, customRecipeNames }
    }

    /// The record goes to the configured postcode and its delivery text
    /// holds hours within the configured range.
    pub open spec fn in_window(&self, r: RecordView) -> bool {
        r.postcode == self.customPostcodeDeliveryTime.postcode@
            && self.customPostcodeDeliveryTime.admits_hours(delivery_hours(r.delivery))
    }

    /// The number of records that are in the window.
    pub open spec fn window_count(&self, records: Seq<RecordView>) -> nat
        decreases records.len(),
    {
        if records.len() == 0 {
            0
        } else {
            self.window_count(records.drop_last()) + if self.in_window(records.last()) {
                1nat
            } else {
                0nat
            }
        }
    }

    /// One of the configured texts occurs in the recipe name, compared
    /// without regard to case.
    pub open spec fn selects(&self, recipe: Seq<char>) -> bool {
        exists|i: int|
            0 <= i < self.customRecipeNames@.len() && contains_ignoring_case(
                recipe,
                #[trigger] self.customRecipeNames@[i]@,
            )
    }

    /// The names gathered so far, after a record with the given recipe name:
    /// a selected name joins at the end unless it is there already.
    pub open spec fn gather(&self, names: Seq<Seq<char>>, recipe: Seq<char>) -> Seq<Seq<char>> {
        if self.selects(recipe) && !names.contains(recipe) {
            names.push(recipe)
        } else {
            names
        }
    }

    /// The selected recipe names of a run of records, each once, in the
    /// order of their first occurrence.
    pub open spec fn selected_names(&self, records: Seq<RecordView>) -> Seq<Seq<char>>
        decreases records.len(),
    {
        if records.len() == 0 {
            Seq::empty()
        } else {
            self.gather(self.selected_names(records.drop_last()), records.last().recipe)
        }
    }

    /// The selected names hold no name twice, and hold exactly the selected
    /// recipe names of the records.
    pub proof fn lemma_selected_names(&self, records: Seq<RecordView>)
        ensures
            self.selected_names(records).no_duplicates(),
            forall|k: Seq<char>|
                #![trigger self.selected_names(records).contains(k)]
                self.selected_names(records).contains(k) <==> self.selects(k) && recipes_of(
                    records,
                ).contains(k),
        decreases records.len(),
    {
        let names = self.selected_names(records);
        if records.len() > 0 {
            let front = records.drop_last();
            let prev = self.selected_names(front);
            let recipe = records.last().recipe;
            self.lemma_selected_names(front);
            assert(recipes_of(records) =~= recipes_of(front).push(recipe));
            assert forall|k: Seq<char>|
                #![trigger names.contains(k)]
                names.contains(k) <==> self.selects(k) && recipes_of(records).contains(k) by {
                let all = recipes_of(records);
                let before = recipes_of(front);
                if all.contains(k) {
                    let i = choose|i: int| 0 <= i < all.len() && all[i] == k;
                    if i < before.len() {
                        assert(before[i] == k);
                    }
                }
                if before.contains(k) {
                    let i = choose|i: int| 0 <= i < before.len() && before[i] == k;
                    assert(all[i] == k);
                }
                assert(all[all.len() - 1] == recipe);
                assert(prev.contains(k) <==> self.selects(k) && before.contains(k));
                if names.contains(k) {
                    let i = choose|i: int| 0 <= i < names.len() && names[i] == k;
                    if i < prev.len() {
                        assert(prev[i] == k);
                    }
                }
                if prev.contains(k) {
                    let i = choose|i: int| 0 <= i < prev.len() && prev[i] == k;
                    assert(names[i] == k);
                }
                if names != prev {
                    assert(names[names.len() - 1] == recipe);
                }
            }
        }
    }

    /// Counts one more record for its recipe name.
    pub fn calculateCountPerRecipe(&self, recipe: &str, countPerRecipe: &mut CountTable)
        requires
            old(countPerRecipe).wf(),
            old(countPerRecipe).count_of(recipe@) < u64::MAX,
        ensures
            final(countPerRecipe).wf(),
            forall|k: Seq<char>|
                #![trigger final(countPerRecipe).count_of(k)]
                final(countPerRecipe).count_of(k) == old(countPerRecipe).count_of(k) + if k
                    == recipe@ {
                    1nat
                } else {
                    0nat
                },
    {
        countPerRecipe.increment(recipe);
    }

    /// Counts one more record for its postcode.
    pub fn calculateCountPerPostcode(&self, postcode: &str, countPerPostcode: &mut CountTable)
        requires
            old(countPerPostcode).wf(),
            old(countPerPostcode).count_of(postcode@) < u64::MAX,
        ensures
            final(countPerPostcode).wf(),
            forall|k: Seq<char>|
                #![trigger final(countPerPostcode).count_of(k)]
                final(countPerPostcode).count_of(k) == old(countPerPostcode).count_of(k) + if k
                    == postcode@ {
                    1nat
                } else {
                    0nat
                },
    {
        countPerPostcode.increment(postcode);
    }

    /// Whether a delivery text holds hours within the configured range. A
    /// text in which the window pattern finds no hours is within no range.
    pub fn isWithinDeliveryTime(&self, pattern: &DeliveryPattern, delivery: &str) -> (r: bool)
        ensures
            r == self.customPostcodeDeliveryTime.admits_hours(delivery_hours(delivery@)),
    {
        self.customPostcodeDeliveryTime.admits(pattern.find_hours(delivery))
    }

    /// Counts the record for its postcode where it is in the window, and
    /// leaves the counts as they are where it is not.
    pub fn calculateDeliveriesCountPerPostcode(
        &self,
        pattern: &DeliveryPattern,
        recipeData: &RecipeData,
        deliveriesCountPerPostcode: &mut CountTable,
    )
        requires
            old(deliveriesCountPerPostcode).wf(),
            self.in_window(recipeData@) ==> old(deliveriesCountPerPostcode).count_of(
                recipeData.postcode@,
            ) < u64::MAX,
        ensures
            final(deliveriesCountPerPostcode).wf(),
            forall|k: Seq<char>|
                #![trigger final(deliveriesCountPerPostcode).count_of(k)]
                final(deliveriesCountPerPostcode).count_of(k) == old(
                    deliveriesCountPerPostcode,
                ).count_of(k) + if self.in_window(recipeData@) && k == recipeData.postcode@ {
                    1nat
                } else {
                    0nat
                },
    {
        if text_equal(
            recipeData.postcode.as_str(),
            self.customPostcodeDeliveryTime.postcode.as_str(),
        ) && self.isWithinDeliveryTime(pattern, recipeData.delivery.as_str()) {
            deliveriesCountPerPostcode.increment(recipeData.postcode.as_str());
        }
    }

    /// Whether one of the configured texts occurs in the recipe name,
    /// compared without regard to case.
    pub fn is_selected(&self, recipe: &str) -> (r: bool)
        ensures
            r == self.selects(recipe@),
    {
        let folded = lowercase(recipe);
        let mut i: usize = 0;
        while i < self.customRecipeNames.len()
            invariant
                i <= self.customRecipeNames@.len(),
                folded@ == lowercase_of(recipe@),
                forall|j: int|
                    0 <= j < i ==> !contains_ignoring_case(
                        recipe@,
                        #[trigger] self.customRecipeNames@[j]@,
                    ),
            decreases self.customRecipeNames@.len() - i,
        {
            let wanted = lowercase(self.customRecipeNames[i].as_str());
            if contains_text(folded.as_str(), wanted.as_str()) {
                return true;
            }
            i += 1;
        }
        false
    }

    /// Adds the recipe name to the gathered names where one of the
    /// configured texts occurs in it and it is not among them yet.
    pub fn filterRecipeName(&self, recipe: &str, filteredRecipeNames: &mut Vec<String>)
        ensures
            texts_of(final(filteredRecipeNames)@) == self.gather(
                texts_of(old(filteredRecipeNames)@),
                recipe@,
            ),
    {
        if !self.is_selected(recipe) {
            return ;
        }
        let ghost held = texts_of(filteredRecipeNames@);
        let mut i: usize = 0;
        while i < filteredRecipeNames.len()
            invariant
                i <= filteredRecipeNames@.len(),
                held == texts_of(filteredRecipeNames@),
                filteredRecipeNames@ == old(filteredRecipeNames)@,
                forall|j: int| 0 <= j < i ==> #[trigger] held[j] != recipe@,
            decreases filteredRecipeNames@.len() - i,
        {
            if text_equal(filteredRecipeNames[i].as_str(), recipe) {
                assert(held[i as int] == recipe@);
                return ;
            }
            i += 1;
        }
        filteredRecipeNames.push(recipe.to_owned());
        assert(texts_of(filteredRecipeNames@) =~= held.push(recipe@));
    }

    /// `report` is the report on `records`: it counts the records; lists
    /// every recipe name that occurs, with the number of records that name
    /// it, in strictly ascending order of the names; counts the names that
    /// occur exactly once; names the busiest postcode; counts the records in
    /// the window, beside the window's postcode and rendered bounds; and
    /// lists the selected recipe names, each once, in strictly ascending
    /// order.
    pub open spec fn reports(&self, records: Seq<RecordView>, report: ReportView) -> bool {
        &&& report.total == records.len()
        &&& pairs_ascending(report.recipe_counts)
        &&& forall|i: int|
            0 <= i < report.recipe_counts.len() ==> (#[trigger] report.recipe_counts[i]).1 >= 1
        &&& forall|k: Seq<char>| #[trigger]
            pair_count(report.recipe_counts, k) == occurrences(recipes_of(records), k)
        &&& once_named(recipes_of(records)).finite()
        &&& report.unique_recipe_count == once_named(recipes_of(records)).len()
        &&& busiest_among(postcodes_of(records), report.busiest_postcode, report.busiest_count)
        &&& report.window_postcode == self.customPostcodeDeliveryTime.postcode@
        &&& report.window_from == hour_label(self.customPostcodeDeliveryTime.from as int, "AM"@)
        &&& report.window_to == hour_label(self.customPostcodeDeliveryTime.to as int, "PM"@)
        &&& report.window_count == self.window_count(records)
        &&& texts_strictly_ascending(report.recipe_names)
        &&& forall|k: Seq<char>|
            #![trigger report.recipe_names.contains(k)]
            report.recipe_names.contains(k) <==> self.selects(k) && recipes_of(records).contains(
                k,
            )
    }

    /// The state of an aggregation that has consumed nothing yet.
    pub fn begin(&self) -> (state: AggregationState)
        ensures
            state.follows(self),
            state.records() == Seq::<RecordView>::empty(),
    {
        let state = AggregationState {
            countPerRecipe: CountTable::new(),
            countPerPostcode: CountTable::new(),
            deliveriesCountPerPostcode: CountTable::new(),
            filteredRecipeNames: Vec::new(),
            totalObjects: 0,
            consumed: Ghost(Seq::empty()),
        };
        assert(texts_of(state.filteredRecipeNames@) =~= self.selected_names(Seq::empty()));
        state
    }

    /// Folds one record into the state: it is counted for its recipe name
    /// and for its postcode, counted for the window where it is in it, its
    /// recipe name is gathered where it is selected, and the total grows by
    /// one. No rule keeps another from applying.
    pub fn consume(
        &self,
        pattern: &DeliveryPattern,
        state: &mut AggregationState,
        recipeData: &RecipeData,
    )
        requires
            old(state).follows(self),
            old(state).records().len() < u64::MAX,
        ensures
            final(state).follows(self),
            final(state).records() == old(state).records().push(recipeData@),
    {
        let ghost seen = state.consumed@;
        let ghost next = seen.push(recipeData@);
        proof {
            assert(next.drop_last() =~= seen);
            assert(recipes_of(next).drop_last() =~= recipes_of(seen));
            assert(postcodes_of(next).drop_last() =~= postcodes_of(seen));
            lemma_occurrences_bound(recipes_of(seen), recipeData.recipe@);
            lemma_occurrences_bound(postcodes_of(seen), recipeData.postcode@);
            self.lemma_window_count_bound(seen);
            assert(state.countPerRecipe.count_of(recipeData.recipe@) <= seen.len());
            assert(state.countPerPostcode.count_of(recipeData.postcode@) <= seen.len());
            assert(state.deliveriesCountPerPostcode.count_of(recipeData.postcode@) <= seen.len());
        }
        self.calculateCountPerRecipe(recipeData.recipe.as_str(), &mut state.countPerRecipe);
        self.calculateCountPerPostcode(recipeData.postcode.as_str(), &mut state.countPerPostcode);
        self.calculateDeliveriesCountPerPostcode(
            pattern,
            recipeData,
            &mut state.deliveriesCountPerPostcode,
        );
        self.filterRecipeName(recipeData.recipe.as_str(), &mut state.filteredRecipeNames);
        state.totalObjects = state.totalObjects + 1;
        state.consumed = Ghost(next);
    }

    /// Derives the report from the state of an aggregation. A state that
    /// has consumed nothing gives a report with empty lists, zero counts and
    /// the empty text as busiest postcode.
    pub fn conclude(&self, state: AggregationState) -> (out: ExpectedOutput)
        requires
            state.follows(self),
        ensures
            self.reports(state.records(), out@),
    {
        let ghost all = state.consumed@;
        let mut state = state;
        let ghost gathered = texts_of(state.filteredRecipeNames@);
        let out = getExpectedOutput(
            &state.countPerRecipe,
            &state.countPerPostcode,
            &state.deliveriesCountPerPostcode,
            &self.customPostcodeDeliveryTime,
            &mut state.filteredRecipeNames,
            state.totalObjects,
        );
        proof {
            let pairs = recipe_pairs(out.sortedRecipesCount@);
            assert(state.deliveriesCountPerPostcode.count_of(
                self.customPostcodeDeliveryTime.postcode@,
            ) == self.window_count(all));
            assert forall|k: Seq<char>| #[trigger]
                pair_count(pairs, k) == occurrences(recipes_of(all), k) by {
                assert(state.countPerRecipe.count_of(k) == occurrences(recipes_of(all), k));
            }
            assert forall|k: Seq<char>| #[trigger]
                pair_count(state.countPerPostcode@, k) == occurrences(postcodes_of(all), k) by {
                assert(state.countPerPostcode.count_of(k) == occurrences(postcodes_of(all), k));
            }
            assert(single_keys(state.countPerRecipe@) =~= once_named(recipes_of(all))) by {
                assert forall|k: Seq<char>|
                    single_keys(state.countPerRecipe@).contains(k) <==> occurrences(
                        recipes_of(all),
                        k,
                    ) == 1 by {
                    assert(state.countPerRecipe.count_of(k) == occurrences(recipes_of(all), k));
                }
            }
            lemma_busiest_of_tally(
                state.countPerPostcode@,
                postcodes_of(all),
                out@.busiest_postcode,
                out@.busiest_count,
            );
            self.lemma_selected_names(all);
            lemma_sorted_selection(gathered, texts_of(out.sortedRecipeNames@));
        }
        out
    }

    /// No more records are in the window than there are records.
    pub proof fn lemma_window_count_bound(&self, records: Seq<RecordView>)
        ensures
            self.window_count(records) <= records.len(),
        decreases records.len(),
    {
        if records.len() > 0 {
            self.lemma_window_count_bound(records.drop_last());
        }
    }

    /// Folds a run of records into the report. A run without records gives
    /// a report with empty lists, zero counts and the empty text as busiest
    /// postcode.
    pub fn calculateStats(&self, pattern: &DeliveryPattern, records: &[RecipeData]) -> (out:
        ExpectedOutput)
        ensures
            self.reports(records_view(records@), out@),
    {
        let ghost all = records_view(records@);
        let mut state = self.begin();
        let mut i: usize = 0;
        assert(all.take(0) =~= Seq::<RecordView>::empty());
        while i < records.len()
            invariant
                i <= records@.len(),
                all == records_view(records@),
                state.follows(self),
                state.records() == all.take(i as int),
            decreases records@.len() - i,
        {
            assert(all.take(i + 1) =~= all.take(i as int).push(records@[i as int]@));
            self.consume(pattern, &mut state, &records[i]);
            i += 1;
        }
        assert(all.take(i as int) =~= all);
        self.conclude(state)
    }

    /// Decodes the array in `input` and folds its records into the report,
    /// one by one as the decoder hands them out. An error of the decoder
    /// ends the aggregation: there is no report on the records before it.
    pub fn calculate_from_bytes(&self, pattern: &DeliveryPattern, input: &[u8]) -> (out: Result<
        ExpectedOutput,
        DecodeError,
    >)
        ensures
            match out {
                Ok(report) => decode_all(input@) matches Ok(records) && self.reports(
                    records,
                    report@,
                ),
                Err(error) => decode_all(input@) == Err::<Seq<RecordView>, DecodeError>(error),
            },
    {
        let mut decoder = StatsLoader::iter_json_array(input);
        let mut state = self.begin();
        assert(input@.len() == input.len());
        loop
            invariant
                decoder.bytes() == input@,
                input@.len() <= usize::MAX,
                state.follows(self),
                state.records().len() <= decoder.state().pos,
                decode_all(input@) == continue_with(
                    state.records(),
                    records_from(input@, decoder.state()),
                ),
            decreases steps_left(input@, decoder.state()),
        {
            let ghost before = decoder.state();
            let ghost front = state.records();
            match decoder.next() {
                None => {
                    assert(front + Seq::<RecordView>::empty() =~= front);
                    return Ok(self.conclude(state));
                },
                Some(Err(error)) => {
                    return Err(error);
                },
                Some(Ok(record)) => {
                    proof {
                        lemma_step_progress(input@, before);
                    }
                    self.consume(pattern, &mut state, &record);
                    proof {
                        match records_from(input@, decoder.state()) {
                            Ok(rest) => {
                                assert(front + (seq![record@] + rest) =~= front.push(record@)
                                    + rest);
                            },
                            Err(_) => {},
                        }
                    }
                },
            }
        }
    }
}

/// The running state of an aggregation: the counts per recipe name and per
/// postcode, the count of deliveries in the window, the selected recipe
/// names and the number of records consumed. It starts empty, takes one
/// record at a time, and is given up for the report.
pub struct AggregationState {
    countPerRecipe: CountTable,
    countPerPostcode: CountTable,
    deliveriesCountPerPostcode: CountTable,
    filteredRecipeNames: Vec<String>,
    totalObjects: u64,
    consumed: Ghost<Seq<RecordView>>,
}

impl AggregationState {
    /// The records consumed so far, in order.
    pub closed spec fn records(&self) -> Seq<RecordView> {
        self.consumed@
    }

    /// The state is what consuming its records under `calculator` gives:
    /// each count is the count of its records, and the names gathered are
    /// the selected names of its records.
    pub closed spec fn follows(&self, calculator: &StatsCalculator) -> bool {
        &&& self.countPerRecipe.wf()
        &&& self.countPerPostcode.wf()
        &&& self.deliveriesCountPerPostcode.wf()
        &&& self.countPerRecipe.tallies(recipes_of(self.consumed@))
        &&& self.countPerPostcode.tallies(postcodes_of(self.consumed@))
        &&& forall|k: Seq<char>| #[trigger]
            self.deliveriesCountPerPostcode.count_of(k) == if k
                == calculator.customPostcodeDeliveryTime.postcode@ {
                calculator.window_count(self.consumed@)
            } else {
                0nat
            }
        &&& texts_of(self.filteredRecipeNames@) == calculator.selected_names(self.consumed@)
        &&& self.totalObjects == self.consumed@.len()
    }

    /// The number of records consumed so far.
    pub fn total(&self) -> (n: u64)
        ensures
            forall|calculator: &StatsCalculator| #[trigger]
                self.follows(calculator) ==> n == self.records().len(),
    {
        self.totalObjects
    }
}

/// The busiest entry of a table that tallies `postcodes` is the busiest
/// among `postcodes`.
pub proof fn lemma_busiest_of_tally(
    s: Seq<(Seq<char>, nat)>,
    postcodes: Seq<Seq<char>>,
    postcode: Seq<char>,
    count: nat,
)
    requires
        pairs_ascending(s),
        forall|i: int| 0 <= i < s.len() ==> 1 <= (#[trigger] s[i]).1,
        forall|k: Seq<char>| #[trigger] pair_count(s, k) == occurrences(postcodes, k),
        is_busiest(s, postcode, count),
    ensures
        busiest_among(postcodes, postcode, count),
{
    if s.len() == 0 {
        if postcodes.len() > 0 {
            lemma_occurrences_positive(postcodes, postcodes[0]);
            assert(pair_count(s, postcodes[0]) == occurrences(postcodes, postcodes[0]));
        }
    } else {
        lemma_pair_count_at(s, 0);
        assert(pair_count(s, s[0].0) == occurrences(postcodes, s[0].0));
        lemma_occurrences_positive(postcodes, s[0].0);
        assert forall|k: Seq<char>| #[trigger] occurrences(postcodes, k) <= count by {
            assert(pair_count(s, k) <= count);
        }
        assert forall|k: Seq<char>| #[trigger] occurrences(postcodes, k) == count implies text_le(
            k,
            postcode,
        ) by {
            assert(pair_count(s, k) == count);
        }
        assert(pair_count(s, postcode) == occurrences(postcodes, postcode));
    }
}

/// Of the postcodes of a run, only one with one count is the busiest.
pub proof fn lemma_busiest_determined(
    postcodes: Seq<Seq<char>>,
    first: Seq<char>,
    first_count: nat,
    second: Seq<char>,
    second_count: nat,
)
    requires
        busiest_among(postcodes, first, first_count),
        busiest_among(postcodes, second, second_count),
    ensures
        first == second,
        first_count == second_count,
{
    if postcodes.len() > 0 {
        assert(occurrences(postcodes, first) <= second_count);
        assert(occurrences(postcodes, second) <= first_count);
        assert(text_le(first, second));
        assert(text_le(second, first));
        if first != second {
            lemma_text_lt_asymmetric(first, second);
        }
    }
}

/// The report counts the records: for a run of any length, also of none,
/// its total is the length of the run.
pub proof fn law_total_is_number_of_records(
    calculator: StatsCalculator,
    records: Seq<RecordView>,
    report: ReportView,
)
    requires
        calculator.reports(records, report),
    ensures
        report.total == records.len(),
{
}

/// The list of recipe counts is in strictly ascending order of the names,
/// and a name stands in it with a count exactly when it occurs that many
/// times, and at least once, among the recipe names of the records.
pub proof fn law_recipe_counts_are_the_frequencies(
    calculator: StatsCalculator,
    records: Seq<RecordView>,
    report: ReportView,
)
    requires
        calculator.reports(records, report),
    ensures
        forall|i: int, j: int|
            #![trigger report.recipe_counts[i], report.recipe_counts[j]]
            0 <= i < j < report.recipe_counts.len() ==> text_lt(
                report.recipe_counts[i].0,
                report.recipe_counts[j].0,
            ),
        forall|name: Seq<char>, count: nat|
            #![trigger report.recipe_counts.contains((name, count))]
            report.recipe_counts.contains((name, count)) <==> count > 0 && occurrences(
                recipes_of(records),
                name,
            ) == count,
{
    let list = report.recipe_counts;
    assert forall|name: Seq<char>, count: nat|
        #![trigger list.contains((name, count))]
        list.contains((name, count)) <==> count > 0 && occurrences(recipes_of(records), name)
            == count by {
        assert(pair_count(list, name) == occurrences(recipes_of(records), name));
        if list.contains((name, count)) {
            let i = choose|i: int| 0 <= i < list.len() && list[i] == (name, count);
            lemma_pair_count_at(list, i);
        }
        if count > 0 && occurrences(recipes_of(records), name) == count {
            lemma_pair_count_present(list, name);
            let i = choose|i: int| 0 <= i < list.len() && (#[trigger] list[i]).0 == name;
            lemma_pair_count_at(list, i);
            assert(list[i] == (name, count));
        }
    }
}

/// The count of unique recipes is the number of recipe names that occur
/// exactly once among the records.
pub proof fn law_unique_count_is_number_of_names_seen_once(
    calculator: StatsCalculator,
    records: Seq<RecordView>,
    report: ReportView,
)
    requires
        calculator.reports(records, report),
    ensures
        once_named(recipes_of(records)).finite(),
        report.unique_recipe_count == once_named(recipes_of(records)).len(),
{
}

/// The count of the busiest postcode is the highest number of records that
/// any postcode has, and it is the count of the busiest postcode itself;
/// where one postcode has more records than every other, it is the busiest.
pub proof fn law_busiest_postcode_has_the_highest_count(
    calculator: StatsCalculator,
    records: Seq<RecordView>,
    report: ReportView,
    top: Seq<char>,
)
    requires
        calculator.reports(records, report),
    ensures
        forall|k: Seq<char>| #[trigger]
            occurrences(postcodes_of(records), k) <= report.busiest_count,
        occurrences(postcodes_of(records), report.busiest_postcode) == report.busiest_count,
        (occurrences(postcodes_of(records), top) > 0 && forall|k: Seq<char>|
            k != top ==> #[trigger] occurrences(postcodes_of(records), k) < occurrences(
                postcodes_of(records),
                top,
            )) ==> report.busiest_postcode == top,
{
    let postcodes = postcodes_of(records);
    if postcodes.len() == 0 {
        assert forall|k: Seq<char>| #[trigger] occurrences(postcodes, k) <= 0 by {
            lemma_occurrences_bound(postcodes, k);
        }
    } else if report.busiest_postcode != top {
        assert(occurrences(postcodes, top) <= report.busiest_count);
    }
}

/// A run of records has one report: two reports on the same run under the
/// same configuration are equal in every field.
pub proof fn law_report_is_determined(
    calculator: StatsCalculator,
    records: Seq<RecordView>,
    first: ReportView,
    second: ReportView,
)
    requires
        calculator.reports(records, first),
        calculator.reports(records, second),
    ensures
        first == second,
{
    assert forall|k: Seq<char>| #[trigger]
        pair_count(first.recipe_counts, k) == pair_count(second.recipe_counts, k) by {
        assert(pair_count(first.recipe_counts, k) == occurrences(recipes_of(records), k));
        assert(pair_count(second.recipe_counts, k) == occurrences(recipes_of(records), k));
    }
    lemma_pairs_determined(first.recipe_counts, second.recipe_counts);
    lemma_busiest_determined(
        postcodes_of(records),
        first.busiest_postcode,
        first.busiest_count,
        second.busiest_postcode,
        second.busiest_count,
    );
    lemma_texts_determined(first.recipe_names, second.recipe_names);
}

/// Names without a duplicate, put in ascending order, are in strictly
/// ascending order and hold the same names.
pub proof fn lemma_sorted_selection(gathered: Seq<Seq<char>>, sorted: Seq<Seq<char>>)
    requires
        gathered.no_duplicates(),
        texts_ascending(sorted),
        sorted.to_multiset() == gathered.to_multiset(),
    ensures
        texts_strictly_ascending(sorted),
        forall|k: Seq<char>|
            #![trigger sorted.contains(k)]
            sorted.contains(k) <==> gathered.contains(k),
{
    gathered.lemma_multiset_has_no_duplicates();
    sorted.lemma_multiset_has_no_duplicates_conv();
    assert forall|i: int, j: int|
        #![trigger sorted[i], sorted[j]]
        0 <= i < j < sorted.len() implies text_lt(sorted[i], sorted[j]) by {
        assert(sorted[i] != sorted[j]);
    }
    sorted.to_multiset_ensures();
    gathered.to_multiset_ensures();
    assert forall|k: Seq<char>|
        #![trigger sorted.contains(k)]
        sorted.contains(k) <==> gathered.contains(k) by {
        assert(sorted.to_multiset().count(k) == gathered.to_multiset().count(k));
        assert(sorted.contains(k) <==> sorted.to_multiset().count(k) > 0);
        assert(gathered.contains(k) <==> gathered.to_multiset().count(k) > 0);
    }
}

} // verus!
