use recipe_stats::record::CustomPostcodeDeliveryTime;
use recipe_stats::report::{
    copy_names, getBusiestPostcode, getDeliveriesCountForPostCode, getExpectedOutput,
    getSortedRecipeCount, getUniqueRecipeCount, sort_names, BusiestPostcode, CountPerRecipe,
};
use recipe_stats::tally::CountTable;

fn table_of(keys: &[&str]) -> CountTable {
    let mut table = CountTable::new();
    for key in keys {
        table.increment(key);
    }
    table
}

fn names_of(names: &[&str]) -> Vec<String> {
    names.iter().map(|s| s.to_string()).collect()
}

#[test]
fn unique_count_counts_keys_seen_once() {
    assert_eq!(getUniqueRecipeCount(&table_of(&[])), 0);
    assert_eq!(getUniqueRecipeCount(&table_of(&["a"])), 1);
    assert_eq!(getUniqueRecipeCount(&table_of(&["a", "a"])), 0);
    assert_eq!(getUniqueRecipeCount(&table_of(&["a", "b", "a", "c", "d", "d", "d"])), 2);
}

#[test]
fn sorted_recipe_count_is_ascending_by_name() {
    let list = getSortedRecipeCount(&table_of(&["Veggie Bowl", "Potato Soup", "Potato Soup"]));
    assert_eq!(
        list,
        vec![
            CountPerRecipe { recipe: "Potato Soup".to_string(), count: 2 },
            CountPerRecipe { recipe: "Veggie Bowl".to_string(), count: 1 },
        ]
    );
    assert_eq!(getSortedRecipeCount(&table_of(&[])), vec![]);
}

#[test]
fn busiest_postcode_has_the_highest_count() {
    let busiest = getBusiestPostcode(&table_of(&["10120", "10224", "10224", "10300"]));
    assert_eq!(busiest, BusiestPostcode { postcode: "10224".to_string(), deliveryCount: 2 });
}

#[test]
fn busiest_postcode_tie_goes_to_the_last_in_order() {
    let busiest = getBusiestPostcode(&table_of(&["B", "A", "C", "A", "B"]));
    assert_eq!(busiest, BusiestPostcode { postcode: "B".to_string(), deliveryCount: 2 });
    let busiest = getBusiestPostcode(&table_of(&["x", "y", "z"]));
    assert_eq!(busiest, BusiestPostcode { postcode: "z".to_string(), deliveryCount: 1 });
}

#[test]
fn busiest_postcode_of_nothing_is_the_empty_postcode() {
    let busiest = getBusiestPostcode(&table_of(&[]));
    assert_eq!(busiest, BusiestPostcode { postcode: String::new(), deliveryCount: 0 });
}

#[test]
fn deliveries_count_renders_the_bounds() {
    let window = CustomPostcodeDeliveryTime { postcode: "10120".to_string(), from: 10, to: 3 };
    let out = getDeliveriesCountForPostCode(&window, 7);
    assert_eq!(out.postcode, "10120");
    assert_eq!(out.fromAM, "10AM");
    assert_eq!(out.toPM, "3PM");
    assert_eq!(out.deliveryCount, 7);
}

#[test]
fn sort_names_orders_and_keeps_all() {
    assert_eq!(sort_names(&names_of(&[])), names_of(&[]));
    assert_eq!(sort_names(&names_of(&["b", "a", "c"])), names_of(&["a", "b", "c"]));
    assert_eq!(sort_names(&names_of(&["b", "a", "b", ""])), names_of(&["", "a", "b", "b"]));
    assert_eq!(
        sort_names(&names_of(&["Veggie Bowl", "Mushroom Pie", "Potato Soup"])),
        names_of(&["Mushroom Pie", "Potato Soup", "Veggie Bowl"])
    );
}

#[test]
fn copy_names_copies() {
    assert_eq!(copy_names(&names_of(&["b", "a"])), names_of(&["b", "a"]));
}

#[test]
fn expected_output_puts_the_parts_together() {
    let recipes = table_of(&["Potato Soup", "Potato Soup", "Veggie Bowl"]);
    let postcodes = table_of(&["A", "A", "B"]);
    let windowed = table_of(&["A", "A"]);
    let window = CustomPostcodeDeliveryTime { postcode: "A".to_string(), from: 10, to: 3 };
    let mut names = names_of(&["Veggie Bowl", "Potato Soup"]);
    let out = getExpectedOutput(&recipes, &postcodes, &windowed, &window, &mut names, 3);
    assert_eq!(out.uniqueRecipeCount, 1);
    assert_eq!(out.sortedRecipesCount.len(), 2);
    assert_eq!(out.busiestPostcode.postcode, "A");
    assert_eq!(out.busiestPostcode.deliveryCount, 2);
    assert_eq!(out.countPerPostcodeAndTime.postcode, "A");
    assert_eq!(out.countPerPostcodeAndTime.fromAM, "10AM");
    assert_eq!(out.countPerPostcodeAndTime.toPM, "3PM");
    assert_eq!(out.countPerPostcodeAndTime.deliveryCount, 2);
    assert_eq!(out.sortedRecipeNames, names_of(&["Potato Soup", "Veggie Bowl"]));
    assert_eq!(names, names_of(&["Potato Soup", "Veggie Bowl"]));
    assert_eq!(out.totalObjects, 3);
}

#[test]
fn expected_output_without_windowed_deliveries() {
    let empty = CountTable::new();
    let window = CustomPostcodeDeliveryTime { postcode: "10120".to_string(), from: 10, to: 3 };
    let mut names = names_of(&[]);
    let out = getExpectedOutput(&empty, &empty, &empty, &window, &mut names, 0);
    assert_eq!(out.uniqueRecipeCount, 0);
    assert_eq!(out.sortedRecipesCount, vec![]);
    assert_eq!(out.busiestPostcode.postcode, "");
    assert_eq!(out.busiestPostcode.deliveryCount, 0);
    assert_eq!(out.countPerPostcodeAndTime.deliveryCount, 0);
    assert_eq!(out.sortedRecipeNames, names_of(&[]));
    assert_eq!(out.totalObjects, 0);
}
