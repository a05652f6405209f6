//! Delivery records and the configuration that selects among them.

use vstd::prelude::*;

verus! {

/// One decoded delivery entry.
#[derive(Clone, Debug, PartialEq, Eq)]
pub struct RecipeData {
    pub postcode: String,
    pub recipe: String,
    pub delivery: String,
}

/// A delivery record as three texts.
pub struct RecordView {
    pub postcode: Seq<char>,
    pub recipe: Seq<char>,
    pub delivery: Seq<char>,
}

impl View for RecipeData {
    type V = RecordView;

    open spec fn view(&self) -> RecordView {
        RecordView { postcode: self.postcode@, recipe: self.recipe@, delivery: self.delivery@ }
    }
}

impl RecipeData {
    /// A record of the three given texts.
    pub fn new(postcode: String, recipe: String, delivery: String) -> (out: RecipeData)
        ensures
            out.postcode == postcode,
            out.recipe == recipe,
            out.delivery == delivery,
    {
        RecipeData { postcode, recipe, delivery }
    }
}

/// The views of a run of records, in order.
pub open spec fn records_view(records: Seq<RecipeData>) -> Seq<RecordView> {
    records.map_values(|r: RecipeData| r@)
}

/// The recipe names of a run of records, in order.
pub open spec fn recipes_of(records: Seq<RecordView>) -> Seq<Seq<char>> {
    records.map_values(|r: RecordView| r.recipe)
}

/// The postcodes of a run of records, in order.
pub open spec fn postcodes_of(records: Seq<RecordView>) -> Seq<Seq<char>> {
    records.map_values(|r: RecordView| r.postcode)
}

/// The single postcode and the hour range by which deliveries are counted:
/// a delivery counts when it goes to `postcode`, starts at `from` or later
/// and ends at `to` or earlier.
#[derive(Clone, Debug, PartialEq, Eq)]
pub struct CustomPostcodeDeliveryTime {
    pub postcode: String,
    pub from: i32,
    pub to: i32,
}

impl CustomPostcodeDeliveryTime {
    /// A pair of hours lies within the configured range.
    pub open spec fn admits_hours(&self, hours: Option<(int, int)>) -> bool {
        match hours {
            Some((from, to)) => from >= self.from && to <= self.to,
            None => false,
        }
    }

    /// Whether a pair of hours lies within the configured range. A delivery
    /// text without hours lies in no range.
    pub fn admits(&self, hours: Option<(i32, i32)>) -> (r: bool)
        ensures
            r == self.admits_hours(crate::window::hours_view(hours)),
    {
        match hours {
            Some((from, to)) => from >= self.from && to <= self.to,
            None => false,
        }
    }
}

} // verus!
