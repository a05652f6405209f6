//! The report and how it is derived from the counts.

use vstd::prelude::*;
use vstd::string::StringExecFns;
use vstd::seq_lib::{to_multiset_build, to_multiset_insert};
use crate::record::CustomPostcodeDeliveryTime;
use crate::render::{decimal_of, decimal_text};
use crate::tally::{
    lemma_pair_count_absent, lemma_pair_count_at, lemma_pair_count_present, pair_count,
    pairs_ascending, CountTable,
};
use crate::text::{
    lemma_text_lt_irreflexive, lemma_text_lt_total, lemma_text_lt_transitive, text_le, text_less,
    text_lt,
};

verus! {

/// A recipe name with the number of records that name it.
#[derive(Clone, Debug, PartialEq, Eq)]
pub struct CountPerRecipe {
    pub recipe: String,
    pub count: u64,
}

/// The postcode with the most deliveries.
#[derive(Clone, Debug, PartialEq, Eq)]
pub struct BusiestPostcode {
    pub postcode: String,
    pub deliveryCount: u64,
}

/// The number of deliveries to one postcode within an hour range, with the
/// range rendered as `10AM` and `3PM` are.
#[derive(Clone, Debug, PartialEq, Eq)]
pub struct CountPerPostcodeAndTime {
    pub postcode: String,
    pub fromAM: String,
    pub toPM: String,
    pub deliveryCount: u64,
}

/// The report on a run of delivery records.
#[derive(Clone, Debug, PartialEq, Eq)]
pub struct ExpectedOutput {
    pub uniqueRecipeCount: u64,
    pub sortedRecipesCount: Vec<CountPerRecipe>,
    pub busiestPostcode: BusiestPostcode,
    pub countPerPostcodeAndTime: CountPerPostcodeAndTime,
    pub sortedRecipeNames: Vec<String>,
    pub totalObjects: u64,
}

/// A report as plain values.
pub struct ReportView {
    /// The number of recipe names that occur exactly once.
    pub unique_recipe_count: nat,
    /// Every recipe name with its count.
    pub recipe_counts: Seq<(Seq<char>, nat)>,
    /// The busiest postcode.
    pub busiest_postcode: Seq<char>,
    /// The number of deliveries to the busiest postcode.
    pub busiest_count: nat,
    /// The postcode of the delivery window.
    pub window_postcode: Seq<char>,
    /// The rendered lower bound of the window.
    pub window_from: Seq<char>,
    /// The rendered upper bound of the window.
    pub window_to: Seq<char>,
    /// The number of deliveries in the window.
    pub window_count: nat,
    /// The selected recipe names.
    pub recipe_names: Seq<Seq<char>>,
    /// The number of records.
    pub total: nat,
}

impl View for ExpectedOutput {
    type V = ReportView;

    open spec fn view(&self) -> ReportView {
        ReportView {
            unique_recipe_count: self.uniqueRecipeCount as nat,
            recipe_counts: recipe_pairs(self.sortedRecipesCount@),
            busiest_postcode: self.busiestPostcode.postcode@,
            busiest_count: self.busiestPostcode.deliveryCount as nat,
            window_postcode: self.countPerPostcodeAndTime.postcode@,
            window_from: self.countPerPostcodeAndTime.fromAM@,
            window_to: self.countPerPostcodeAndTime.toPM@,
            window_count: self.countPerPostcodeAndTime.deliveryCount as nat,
            recipe_names: texts_of(self.sortedRecipeNames@),
            total: self.totalObjects as nat,
        }
    }
}

/// A list of recipe counts as pairs of name and count.
pub open spec fn recipe_pairs(list: Seq<CountPerRecipe>) -> Seq<(Seq<char>, nat)> {
    list.map_values(|e: CountPerRecipe| (e.recipe@, e.count as nat))
}

/// The views of a list of texts.
pub open spec fn texts_of(names: Seq<String>) -> Seq<Seq<char>> {
    names.map_values(|s: String| s@)
}

/// The texts are in ascending order; equal neighbours are allowed.
pub open spec fn texts_ascending(s: Seq<Seq<char>>) -> bool {
    forall|i: int, j: int| #![trigger s[i], s[j]] 0 <= i < j < s.len() ==> text_le(s[i], s[j])
}

/// The texts are in strictly ascending order.
pub open spec fn texts_strictly_ascending(s: Seq<Seq<char>>) -> bool {
    forall|i: int, j: int| #![trigger s[i], s[j]] 0 <= i < j < s.len() ==> text_lt(s[i], s[j])
}

/// Two strictly ascending sequences of texts that hold the same texts are
/// the same sequence.
pub proof fn lemma_texts_determined(a: Seq<Seq<char>>, b: Seq<Seq<char>>)
    requires
        texts_strictly_ascending(a),
        texts_strictly_ascending(b),
        forall|k: Seq<char>| #![trigger a.contains(k)] a.contains(k) <==> b.contains(k),
    ensures
        a == b,
    decreases a.len(),
{
    if a.len() == 0 || b.len() == 0 {
        if a.len() > 0 {
            assert(a.contains(a[0]));
        }
        if b.len() > 0 {
            assert(b.contains(b[0]));
            assert(a.contains(b[0]));
        }
        assert(a =~= b);
    } else {
        let la = a[a.len() - 1];
        let lb = b[b.len() - 1];
        assert(a.contains(la));
        assert(b.contains(lb));
        assert(a.contains(lb));
        let j = choose|j: int| 0 <= j < b.len() && b[j] == la;
        let i = choose|i: int| 0 <= i < a.len() && a[i] == lb;
        if j < b.len() - 1 {
            assert(text_lt(b[j], b[b.len() - 1]));
        }
        if i < a.len() - 1 {
            assert(text_lt(a[i], a[a.len() - 1]));
        }
        if la != lb {
            lemma_text_lt_transitive(la, lb, la);
            lemma_text_lt_irreflexive(la);
        }
        let fa = a.drop_last();
        let fb = b.drop_last();
        assert forall|x: int, y: int|
            #![trigger fa[x], fa[y]]
            0 <= x < y < fa.len() implies text_lt(fa[x], fa[y]) by {
            assert(fa[x] == a[x] && fa[y] == a[y]);
        }
        assert forall|x: int, y: int|
            #![trigger fb[x], fb[y]]
            0 <= x < y < fb.len() implies text_lt(fb[x], fb[y]) by {
            assert(fb[x] == b[x] && fb[y] == b[y]);
        }
        assert forall|k: Seq<char>| #![trigger fa.contains(k)] fa.contains(k) <==> fb.contains(
            k,
        ) by {
            lemma_text_lt_irreflexive(la);
            if fa.contains(k) {
                let x = choose|x: int| 0 <= x < fa.len() && fa[x] == k;
                assert(a[x] == k);
                assert(text_lt(a[x], a[a.len() - 1]));
                assert(a.contains(k));
                let y = choose|y: int| 0 <= y < b.len() && b[y] == k;
                assert(fb[y] == k);
            }
            if fb.contains(k) {
                let y = choose|y: int| 0 <= y < fb.len() && fb[y] == k;
                assert(b[y] == k);
                assert(text_lt(b[y], b[b.len() - 1]));
                assert(b.contains(k));
                assert(a.contains(k));
                let x = choose|x: int| 0 <= x < a.len() && a[x] == k;
                assert(fa[x] == k);
            }
        }
        lemma_texts_determined(fa, fb);
        assert(a =~= fa.push(la));
        assert(b =~= fb.push(lb));
    }
}

/// The keys that are counted exactly once.
pub open spec fn single_keys(s: Seq<(Seq<char>, nat)>) -> Set<Seq<char>> {
    Set::new(|k: Seq<char>| pair_count(s, k) == 1)
}

/// The number of pairs whose count is one.
pub open spec fn single_count(s: Seq<(Seq<char>, nat)>) -> nat
    decreases s.len(),
{
    if s.len() == 0 {
        0
    } else {
        single_count(s.drop_last()) + if s.last().1 == 1 {
            1nat
        } else {
            0nat
        }
    }
}

/// With ascending keys, as many keys are counted once as there are pairs
/// with count one.
pub proof fn lemma_single_keys(s: Seq<(Seq<char>, nat)>)
    requires
        pairs_ascending(s),
    ensures
        single_keys(s).finite(),
        single_keys(s).len() == single_count(s),
    decreases s.len(),
{
    if s.len() == 0 {
        assert(single_keys(s) =~= Set::<Seq<char>>::empty());
    } else {
        let front = s.drop_last();
        let last = s.last();
        assert(last == s[s.len() - 1]);
        assert forall|a: int, b: int|
            #![trigger front[a], front[b]]
            0 <= a < b < front.len() implies text_lt(front[a].0, front[b].0) by {
            assert(front[a] == s[a] && front[b] == s[b]);
        }
        lemma_single_keys(front);
        assert forall|i: int| 0 <= i < front.len() implies (#[trigger] front[i]).0 != last.0 by {
            assert(front[i] == s[i]);
            assert(text_lt(s[i].0, s[s.len() - 1].0));
            lemma_text_lt_irreflexive(last.0);
        }
        lemma_pair_count_absent(front, last.0);
        if last.1 == 1 {
            assert(single_keys(s) =~= single_keys(front).insert(last.0));
        } else {
            assert(single_keys(s) =~= single_keys(front));
        }
    }
}

/// Counts the recipe names that occur exactly once.
pub fn getUniqueRecipeCount(countPerRecipe: &CountTable) -> (out: u64)
    requires
        countPerRecipe.wf(),
    ensures
        single_keys(countPerRecipe@).finite(),
        out == single_keys(countPerRecipe@).len(),
{
    let n = countPerRecipe.len();
    let mut unique: u64 = 0;
    let mut i: usize = 0;
    while i < n
        invariant
            i <= n,
            n == countPerRecipe@.len(),
            unique == single_count(countPerRecipe@.take(i as int)),
            unique <= i,
        decreases n - i,
    {
        let entry = countPerRecipe.entry(i);
        assert(countPerRecipe@.take(i + 1).drop_last() =~= countPerRecipe@.take(i as int));
        if entry.count == 1 {
            unique += 1;
        }
        i += 1;
    }
    proof {
        assert(countPerRecipe@.take(n as int) =~= countPerRecipe@);
        lemma_single_keys(countPerRecipe@);
    }
    unique
}

/// Lists every recipe name with its count, in ascending order of the names.
pub fn getSortedRecipeCount(countPerRecipe: &CountTable) -> (out: Vec<CountPerRecipe>)
    ensures
        recipe_pairs(out@) == countPerRecipe@,
{
    let n = countPerRecipe.len();
    let mut out: Vec<CountPerRecipe> = Vec::new();
    let mut i: usize = 0;
    while i < n
        invariant
            i <= n,
            n == countPerRecipe@.len(),
            recipe_pairs(out@) == countPerRecipe@.take(i as int),
        decreases n - i,
    {
        let entry = countPerRecipe.entry(i);
        let ghost before = out@;
        out.push(CountPerRecipe { recipe: entry.key.clone(), count: entry.count });
        assert(recipe_pairs(out@) =~= recipe_pairs(before).push(countPerRecipe@[i as int]));
        assert(countPerRecipe@.take(i + 1) =~= countPerRecipe@.take(i as int).push(
            countPerRecipe@[i as int],
        ));
        i += 1;
    }
    assert(countPerRecipe@.take(n as int) =~= countPerRecipe@);
    out
}

/// `postcode` with `count` is the busiest of the counted postcodes: no
/// postcode has a higher count, and among those with the highest count it is
/// the last in ascending order. Where nothing was counted, the busiest
/// postcode is the empty text with count zero.
pub open spec fn is_busiest(s: Seq<(Seq<char>, nat)>, postcode: Seq<char>, count: nat) -> bool {
    if s.len() == 0 {
        postcode == Seq::<char>::empty() && count == 0
    } else {
        &&& count > 0
        &&& pair_count(s, postcode) == count
        &&& forall|k: Seq<char>| #[trigger] pair_count(s, k) <= count
        &&& forall|k: Seq<char>| #[trigger] pair_count(s, k) == count ==> text_le(k, postcode)
    }
}

/// Finds the postcode with the most deliveries. Of several postcodes with
/// the same highest count, the one that is last in ascending order wins. For
/// an empty table the result is the empty postcode with count zero.
pub fn getBusiestPostcode(countPerPostcode: &CountTable) -> (out: BusiestPostcode)
    requires
        countPerPostcode.wf(),
    ensures
        is_busiest(countPerPostcode@, out.postcode@, out.deliveryCount as nat),
{
    let n = countPerPostcode.len();
    if n == 0 {
        return BusiestPostcode { postcode: String::new(), deliveryCount: 0 };
    }
    let ghost s = countPerPostcode@;
    let mut best: usize = 0;
    let mut best_count: u64 = countPerPostcode.entry(0).count;
    let mut i: usize = 1;
    while i < n
        invariant
            1 <= i <= n,
            n == s.len(),
            s == countPerPostcode@,
            best < i,
            best_count == s[best as int].1,
            forall|j: int| 0 <= j < i ==> (#[trigger] s[j]).1 <= best_count,
            forall|j: int| 0 <= j < i && (#[trigger] s[j]).1 == best_count ==> j <= best,
        decreases n - i,
    {
        let entry = countPerPostcode.entry(i);
        if entry.count >= best_count {
            best = i;
            best_count = entry.count;
        }
        i += 1;
    }
    let winner = countPerPostcode.entry(best);
    let out = BusiestPostcode { postcode: winner.key.clone(), deliveryCount: best_count };
    proof {
        lemma_pair_count_at(s, best as int);
        assert(s[best as int].1 >= 1);
        assert forall|k: Seq<char>| #[trigger] pair_count(s, k) <= best_count by {
            if pair_count(s, k) > 0 {
                lemma_pair_count_present(s, k);
                let j = choose|j: int| 0 <= j < s.len() && (#[trigger] s[j]).0 == k;
                lemma_pair_count_at(s, j);
            }
        }
        assert forall|k: Seq<char>| #[trigger] pair_count(s, k) == best_count implies text_le(
            k,
            out.postcode@,
        ) by {
            lemma_pair_count_present(s, k);
            let j = choose|j: int| 0 <= j < s.len() && (#[trigger] s[j]).0 == k;
            lemma_pair_count_at(s, j);
            if j < best {
                assert(text_lt(s[j].0, s[best as int].0));
            }
        }
    }
    out
}

/// With a single postcode whose count is above every other, that postcode is
/// the busiest, and the busiest count is the highest count.
pub proof fn lemma_busiest_single_maximum(
    s: Seq<(Seq<char>, nat)>,
    postcode: Seq<char>,
    count: nat,
    top: Seq<char>,
)
    requires
        is_busiest(s, postcode, count),
        pair_count(s, top) > 0,
        forall|k: Seq<char>| k != top ==> #[trigger] pair_count(s, k) < pair_count(s, top),
    ensures
        postcode == top,
        count == pair_count(s, top),
{
    if s.len() == 0 {
        assert(pair_count(s, top) == 0);
    } else {
        assert(pair_count(s, top) <= count);
        if postcode != top {
            assert(pair_count(s, postcode) < pair_count(s, top));
        }
    }
}

/// The label of an hour: its decimal form followed by `suffix`.
pub open spec fn hour_label(hour: int, suffix: Seq<char>) -> Seq<char> {
    decimal_of(hour) + suffix
}

/// Puts the count of deliveries within the configured range beside the
/// postcode and the rendered bounds of the range.
pub fn getDeliveriesCountForPostCode(
    customPostcodeDeliveryTime: &CustomPostcodeDeliveryTime,
    deliveryCount: u64,
) -> (out: CountPerPostcodeAndTime)
    ensures
        out.postcode@ == customPostcodeDeliveryTime.postcode@,
        out.fromAM@ == hour_label(customPostcodeDeliveryTime.from as int, "AM"@),
        out.toPM@ == hour_label(customPostcodeDeliveryTime.to as int, "PM"@),
        out.deliveryCount == deliveryCount,
{
    CountPerPostcodeAndTime {
        postcode: customPostcodeDeliveryTime.postcode.clone(),
        fromAM: decimal_text(customPostcodeDeliveryTime.from).concat("AM"),
        toPM: decimal_text(customPostcodeDeliveryTime.to).concat("PM"),
        deliveryCount,
    }
}

/// The names in ascending order.
pub fn sort_names(names: &Vec<String>) -> (out: Vec<String>)
    ensures
        texts_ascending(texts_of(out@)),
        texts_of(out@).to_multiset() == texts_of(names@).to_multiset(),
{
    let mut out: Vec<String> = Vec::new();
    let mut i: usize = 0;
    assert(texts_of(out@) =~= texts_of(names@.take(0)));
    while i < names.len()
        invariant
            i <= names.len(),
            texts_ascending(texts_of(out@)),
            texts_of(out@).to_multiset() == texts_of(names@.take(i as int)).to_multiset(),
        decreases names.len() - i,
    {
        let name = &names[i];
        let ghost held = texts_of(out@);
        let mut at: usize = 0;
        while at < out.len() && !text_less(name.as_str(), out[at].as_str())
            invariant
                at <= out.len(),
                held == texts_of(out@),
                forall|j: int| 0 <= j < at ==> text_le(#[trigger] held[j], name@),
            decreases out.len() - at,
        {
            proof {
                lemma_text_lt_total(name@, held[at as int]);
            }
            at += 1;
        }
        out.insert(at, name.clone());
        proof {
            let grown = texts_of(out@);
            assert(grown =~= held.insert(at as int, name@));
            assert forall|a: int, b: int|
                #![trigger grown[a], grown[b]]
                0 <= a < b < grown.len() implies text_le(grown[a], grown[b]) by {
                if b == at {
                    assert(text_le(held[a], name@));
                } else if a == at {
                    assert(text_lt(name@, held[at as int]));
                    if b - 1 > at {
                        assert(text_le(held[at as int], held[b - 1]));
                        if held[at as int] != held[b - 1] {
                            lemma_text_lt_transitive(name@, held[at as int], held[b - 1]);
                        }
                    }
                } else if b < at {
                    assert(text_le(held[a], held[b]));
                } else if a < at {
                    assert(text_le(held[a], held[b - 1]));
                } else {
                    assert(text_le(held[a - 1], held[b - 1]));
                }
            }
            to_multiset_insert(held, at as int, name@);
            let seen = texts_of(names@.take(i as int));
            assert(texts_of(names@.take(i + 1)) =~= seen.push(name@));
            to_multiset_build(seen, name@);
        }
        i += 1;
    }
    assert(names@.take(names.len() as int) =~= names@);
    out
}

/// A copy of the names.
pub fn copy_names(names: &Vec<String>) -> (out: Vec<String>)
    ensures
        texts_of(out@) == texts_of(names@),
{
    let mut out: Vec<String> = Vec::new();
    let mut i: usize = 0;
    while i < names.len()
        invariant
            i <= names.len(),
            texts_of(out@) =~= texts_of(names@.take(i as int)),
        decreases names.len() - i,
    {
        let name = &names[i];
        let ghost held = texts_of(out@);
        out.push(name.clone());
        assert(texts_of(out@) =~= held.push(name@));
        assert(texts_of(names@.take(i + 1)) =~= held.push(name@));
        i += 1;
    }
    assert(names@.take(names.len() as int) =~= names@);
    out
}

/// `report` is what the counts give: the number of keys counted once in
/// `recipes`; `recipes` itself as the list of recipe counts; the busiest of
/// `postcodes`; the window with its rendered bounds and the count that
/// `windowed` holds for its postcode; `names`; and `total`.
pub open spec fn report_of_counts(
    report: ReportView,
    recipes: Seq<(Seq<char>, nat)>,
    postcodes: Seq<(Seq<char>, nat)>,
    windowed: Seq<(Seq<char>, nat)>,
    window: CustomPostcodeDeliveryTime,
    names: Seq<Seq<char>>,
    total: nat,
) -> bool {
    &&& single_keys(recipes).finite()
    &&& report.unique_recipe_count == single_keys(recipes).len()
    &&& report.recipe_counts == recipes
    &&& is_busiest(postcodes, report.busiest_postcode, report.busiest_count)
    &&& report.window_postcode == window.postcode@
    &&& report.window_from == hour_label(window.from as int, "AM"@)
    &&& report.window_to == hour_label(window.to as int, "PM"@)
    &&& report.window_count == pair_count(windowed, window.postcode@)
    &&& report.recipe_names == names
    &&& report.total == total
}

/// Derives the report from the three tables of counts, the configured
/// delivery window, the recipe names that were selected and the number of
/// records. The selected names are put in ascending order where they are,
/// and the report gets a copy of them.
pub fn getExpectedOutput(
    countPerRecipe: &CountTable,
    countPerPostcode: &CountTable,
    deliveriesCountPerPostcode: &CountTable,
    customPostcodeDeliveryTime: &CustomPostcodeDeliveryTime,
    filteredRecipeNames: &mut Vec<String>,
    totalObjects: u64,
) -> (out: ExpectedOutput)
    requires
        countPerRecipe.wf(),
        countPerPostcode.wf(),
        deliveriesCountPerPostcode.wf(),
    ensures
        texts_ascending(texts_of(final(filteredRecipeNames)@)),
        texts_of(final(filteredRecipeNames)@).to_multiset() == texts_of(
            old(filteredRecipeNames)@,
        ).to_multiset(),
        report_of_counts(
            out@,
            countPerRecipe@,
            countPerPostcode@,
            deliveriesCountPerPostcode@,
            *customPostcodeDeliveryTime,
            texts_of(final(filteredRecipeNames)@),
            totalObjects as nat,
        ),
{
    let sorted = sort_names(filteredRecipeNames);
    let names = copy_names(&sorted);
    *filteredRecipeNames = sorted;
    let deliveryCount = deliveriesCountPerPostcode.get(customPostcodeDeliveryTime.postcode.as_str());
    ExpectedOutput {
        uniqueRecipeCount: getUniqueRecipeCount(countPerRecipe),
        sortedRecipesCount: getSortedRecipeCount(countPerRecipe),
        busiestPostcode: getBusiestPostcode(countPerPostcode),
        countPerPostcodeAndTime: getDeliveriesCountForPostCode(
            customPostcodeDeliveryTime,
            deliveryCount,
        ),
        sortedRecipeNames: names,
        totalObjects,
    }
}

} // verus!
