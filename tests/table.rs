use table_filter::{
    Cell, ColumnFilterImpl, ColumnKind, FilterCommand, MenuEntry, ScalarValue, StringColumnFilter, TableFilter, U32ColumnFilter,
};

fn text(s: &str) -> ScalarValue {
    ScalarValue::Str(s.to_string())
}

fn flight(orig: &str, dest: &str, mileage: u32) -> Vec<Cell> {
    vec![
        Cell::new(text(orig), orig),
        Cell::of_value(text(dest)),
        Cell::of_value(ScalarValue::U32(mileage)),
    ]
}

fn flights() -> Vec<Vec<Cell>> {
    vec![
        flight("ABQ", "DAL", 642),
        flight("DAL", "HOU", 244),
        flight("SEA", "PHX", 1100),
        flight("ABQ", "SEA", 900),
    ]
}

fn table() -> TableFilter {
    let mut t = TableFilter::new();
    assert!(t.add(ColumnKind::Text(StringColumnFilter::new("orig"))));
    assert!(t.add(ColumnKind::Text(StringColumnFilter::new("dest"))));
    assert!(t.add(ColumnKind::Unsigned(U32ColumnFilter::new("mileage"))));
    t
}

fn visible(t: &TableFilter, data: &Vec<Vec<Cell>>) -> Vec<bool> {
    data.iter().map(|row| t.evaluate(row)).collect()
}

fn values(v: &[ScalarValue]) -> Vec<ScalarValue> {
    let mut v = v.to_vec();
    v.sort();
    v
}

#[test]
fn excluding_a_destination_hides_its_rows() {
    let data = flights();
    let mut t = table();
    t.toggle_value("dest", text("HOU"));
    assert_eq!(visible(&t, &data), vec![true, false, true, true]);
    assert!(t.is_active_for("dest"));
    assert!(!t.is_active_for("orig"));
}

#[test]
fn mileage_search_keeps_rows_between_bounds() {
    let data = flights();
    let mut t = table();
    t.set_search_text("mileage", ">500,<1000");
    assert_eq!(visible(&t, &data), vec![true, true, true, true]);
    t.apply_search("mileage", &data);
    assert_eq!(visible(&t, &data), vec![true, false, false, true]);
}

#[test]
fn origin_search_keeps_either_prefix() {
    let data = flights();
    let mut t = table();
    t.set_search_text("orig", "AB,SE");
    t.apply_search("orig", &data);
    assert_eq!(visible(&t, &data), vec![true, false, true, true]);
    assert!(!t.get_by_id("orig").contains(&text("DAL")));
    assert!(t.get_by_id("orig").contains(&text("ABQ")));
}

#[test]
fn facet_ignores_the_column_itself() {
    let data = flights();
    let mut t = table();
    t.toggle_value("dest", text("HOU"));
    let facet = t.achievable_values("orig", &data);
    assert_eq!(values(&facet), vec![text("ABQ"), text("SEA")]);
    t.toggle_value("orig", text("ABQ"));
    let again = t.achievable_values("orig", &data);
    assert_eq!(values(&again), vec![text("ABQ"), text("SEA")]);
    let dest_facet = t.achievable_values("dest", &data);
    assert_eq!(values(&dest_facet), vec![text("HOU"), text("PHX")]);
}

#[test]
fn reachable_rows_skip_only_the_named_column() {
    let data = flights();
    let mut t = table();
    t.toggle_value("dest", text("HOU"));
    t.toggle_value("orig", text("SEA"));
    assert_eq!(t.reachable("orig", &data), vec![true, false, true, true]);
    assert_eq!(t.reachable("dest", &data), vec![true, true, false, true]);
    assert_eq!(t.evaluate_array(&data, None), vec![true, false, false, true]);
    assert_eq!(t.evaluate_array(&data, Some(2)), vec![true, false, false, true]);
}

#[test]
fn empty_exclusion_set_keeps_every_row() {
    let data = flights();
    let t = table();
    for row in &data {
        assert!(t.get_by_id("orig").evaluate(row));
        assert!(t.evaluate(row));
    }
    assert!(!t.get_by_id("mileage").is_active());
}

#[test]
fn table_evaluates_as_conjunction_of_columns() {
    let data = flights();
    let mut t = table();
    t.toggle_value("orig", text("ABQ"));
    t.toggle_value("mileage", ScalarValue::U32(1100));
    for row in &data {
        let each = t.get_by_id("orig").evaluate(row)
            && t.get_by_id("dest").evaluate(row)
            && t.get_by_id("mileage").evaluate(row);
        assert_eq!(t.evaluate(row), each);
    }
    assert_eq!(visible(&t, &data), vec![false, true, false, false]);
}

#[test]
fn apply_with_empty_search_changes_nothing() {
    let data = flights();
    let mut t = table();
    t.toggle_value("orig", text("DAL"));
    t.apply_search("orig", &data);
    assert!(!t.get_by_id("orig").contains(&text("DAL")));
    assert!(t.get_by_id("orig").contains(&text("ABQ")));
    assert_eq!(visible(&t, &data), vec![true, false, true, true]);
}

#[test]
fn apply_search_rederives_from_scratch() {
    let data = flights();
    let mut t = table();
    t.set_search_text("orig", "AB");
    t.apply_search("orig", &data);
    assert_eq!(visible(&t, &data), vec![true, false, false, true]);
    t.set_search_text("orig", "SE,DA");
    t.apply_search("orig", &data);
    assert_eq!(visible(&t, &data), vec![false, true, true, false]);
}

#[test]
fn apply_search_keeps_values_outside_the_data() {
    let data = flights();
    let mut t = table();
    t.toggle_value("orig", text("LAX"));
    t.set_search_text("orig", "L");
    t.apply_search("orig", &data);
    assert!(!t.get_by_id("orig").contains(&text("LAX")));
    assert_eq!(visible(&t, &data), vec![false, false, false, false]);
}

#[test]
fn select_none_then_all_returns_to_inactive() {
    let data = flights();
    let mut t = table();
    t.toggle_value("orig", text("SEA"));
    t.select_none("orig", &data);
    assert!(t.is_active_for("orig"));
    assert_eq!(visible(&t, &data), vec![false, false, false, false]);
    t.select_all("orig", &data);
    assert!(!t.is_active_for("orig"));
    assert_eq!(visible(&t, &data), vec![true, true, true, true]);
}

#[test]
fn toggling_twice_restores_the_value() {
    let data = flights();
    let mut t = table();
    t.toggle_value("mileage", ScalarValue::U32(642));
    assert_eq!(visible(&t, &data), vec![false, true, true, true]);
    t.toggle_value("mileage", ScalarValue::U32(642));
    assert!(!t.is_active_for("mileage"));
}

#[test]
fn reset_all_clears_every_column() {
    let data = flights();
    let mut t = table();
    t.toggle_value("orig", text("ABQ"));
    t.toggle_value("dest", text("HOU"));
    t.set_search_text("mileage", ">1000");
    t.apply_search("mileage", &data);
    t.set_search_text("dest", "S");
    t.reset_all();
    for id in ["orig", "dest", "mileage"] {
        assert!(!t.is_active_for(id));
        assert_eq!(t.get_by_id(id).search_text(), "");
    }
    assert_eq!(visible(&t, &data), vec![true, true, true, true]);
}

#[test]
fn column_filter_commands_act_on_its_own_state() {
    let data = flights();
    let mut orig = ColumnFilterImpl::new(ColumnKind::Text(StringColumnFilter::new("orig")), 0);
    assert_eq!(orig.id(), "orig");
    assert_eq!(orig.column(), 0);
    orig.toggle_value(text("ABQ"));
    assert!(orig.is_active());
    assert!(!orig.contains(&text("ABQ")));
    assert_eq!(orig.get_eval_bool_array(&data), vec![false, true, true, false]);
    assert_eq!(orig.get_value(&data[2]), text("SEA"));
    assert_eq!(orig.get_string_value(&data[2]), "SEA");
    assert!(orig.search_pattern("S", "SEA"));
    orig.set_search_text("S");
    orig.reset();
    assert!(!orig.is_active());
    assert_eq!(orig.search_text(), "");
}

#[test]
fn duplicate_ids_are_refused() {
    let mut t = table();
    assert!(!t.add(ColumnKind::Text(StringColumnFilter::new("orig"))));
    assert_eq!(t.len(), 3);
    assert_eq!(t.position("mileage"), Some(2));
    assert_eq!(t.position("gate"), None);
}

#[test]
fn menu_lists_values_in_value_order() {
    let data = flights();
    let mut t = table();
    t.toggle_value("orig", text("ABQ"));
    t.toggle_value("mileage", ScalarValue::U32(244));
    let menu: Vec<MenuEntry> = t.menu_entries("mileage", &data);
    let shown: Vec<&str> = menu.iter().map(|e| e.display.as_str()).collect();
    assert_eq!(shown, vec!["244", "642", "900", "1100"]);
    let checked: Vec<bool> = menu.iter().map(|e| e.checked).collect();
    assert_eq!(checked, vec![false, true, true, true]);
    let reachable: Vec<bool> = menu.iter().map(|e| e.reachable).collect();
    assert_eq!(reachable, vec![true, false, false, true]);
}

#[test]
fn menu_follows_search_text_and_dedups() {
    let data = flights();
    let mut t = table();
    let all = t.menu_entries("orig", &data);
    let shown: Vec<&str> = all.iter().map(|e| e.display.as_str()).collect();
    assert_eq!(shown, vec!["ABQ", "DAL", "SEA"]);
    t.set_search_text("orig", "S,D");
    let some = t.menu_entries("orig", &data);
    let shown: Vec<&str> = some.iter().map(|e| e.display.as_str()).collect();
    assert_eq!(shown, vec!["DAL", "SEA"]);
}

#[test]
fn empty_dataset_gives_empty_answers() {
    let data: Vec<Vec<Cell>> = Vec::new();
    let mut t = table();
    t.select_none("orig", &data);
    assert!(!t.is_active_for("orig"));
    assert!(t.achievable_values("orig", &data).is_empty());
    assert!(t.menu_entries("orig", &data).is_empty());
    assert!(t.evaluate_array(&data, None).is_empty());
}

#[test]
fn commands_act_like_the_matching_calls() {
    let data = flights();
    let mut t = table();
    t.apply_command("dest", FilterCommand::ToggleValue(text("HOU")), &data);
    assert_eq!(visible(&t, &data), vec![true, false, true, true]);
    t.apply_command("mileage", FilterCommand::SetSearchText(">500,<1000".to_string()), &data);
    t.apply_command("mileage", FilterCommand::ApplySearch, &data);
    assert_eq!(visible(&t, &data), vec![true, false, false, true]);
    t.apply_command("orig", FilterCommand::SelectNone, &data);
    assert_eq!(visible(&t, &data), vec![false, false, false, false]);
    t.apply_command("orig", FilterCommand::SelectAll, &data);
    assert!(!t.is_active_for("orig"));
    t.apply_command("orig", FilterCommand::Reset, &data);
    assert!(!t.is_active_for("dest"));
    assert!(!t.is_active_for("mileage"));
    assert_eq!(t.get_by_id("mileage").search_text(), "");
    assert_eq!(visible(&t, &data), vec![true, true, true, true]);
}
