use luabridge::arena::TableArena;
use luabridge::arena::TableError;

#[test]
fn empty_table_renders_as_braces() {
    let mut arena = TableArena::new();
    let t = arena.create_table();
    assert_eq!(arena.debug_render(t).unwrap(), "{}");
}

#[test]
fn array_part_lists_values_in_insertion_order() {
    let mut arena = TableArena::new();
    let t = arena.create_table();
    assert_eq!(arena.append_boolean(t, true), Ok(()));
    assert_eq!(arena.append_nil(t), Ok(()));
    assert_eq!(arena.append_text(t, String::from("mid")), Ok(()));
    assert_eq!(arena.append_number(t, (7.0f64).to_bits()), Ok(()));
    assert_eq!(arena.debug_render(t).unwrap(), "{true, nil, mid, 7}");
}

#[test]
fn repeated_put_keeps_only_the_last_value() {
    let mut arena = TableArena::new();
    let t = arena.create_table();
    assert_eq!(arena.put_text_number(t, String::from("k"), (1.0f64).to_bits()), Ok(()));
    assert_eq!(arena.put_text_text(t, String::from("other"), String::from("kept")), Ok(()));
    assert_eq!(arena.put_text_number(t, String::from("k"), (2.0f64).to_bits()), Ok(()));
    assert_eq!(arena.put_text_boolean(t, String::from("k"), false), Ok(()));
    assert_eq!(arena.debug_render(t).unwrap(), "{k: false, other: kept}");
}

#[test]
fn numeric_array_round_trips() {
    let mut arena = TableArena::new();
    let t = arena.create_table();
    let sent: Vec<u64> = vec![
        (1.5f64).to_bits(),
        (-2.0f64).to_bits(),
        (3.0f64).to_bits(),
    ];
    assert_eq!(arena.import_numeric_array(t, &sent), Ok(()));
    let back = arena.export_numeric_array(t);
    assert_eq!(back, sent);
}

#[test]
fn import_replaces_the_array_part_wholesale() {
    let mut arena = TableArena::new();
    let t = arena.create_table();
    assert_eq!(arena.append_text(t, String::from("gone")), Ok(()));
    assert_eq!(arena.put_text_text(t, String::from("k"), String::from("stays")), Ok(()));
    assert_eq!(arena.import_numeric_array(t, &vec![(9.0f64).to_bits()]), Ok(()));
    assert_eq!(arena.debug_render(t).unwrap(), "{9, k: stays}");
}

#[test]
fn distinct_tables_are_never_identity_equal() {
    let mut arena = TableArena::new();
    let a = arena.create_table();
    let b = arena.create_table();
    assert!(a.identity_equals(&a));
    assert!(b.identity_equals(&b));
    assert!(!a.identity_equals(&b));
}

#[test]
fn a_reused_slot_is_a_new_identity() {
    let mut arena = TableArena::new();
    let a = arena.create_table();
    assert_eq!(arena.free_table(a), Ok(()));
    let b = arena.create_table();
    assert!(!a.identity_equals(&b));
    assert!(arena.debug_render(a).is_none());
    assert_eq!(arena.debug_render(b).unwrap(), "{}");
}

#[test]
fn adopted_child_is_reachable_from_the_parent() {
    let mut arena = TableArena::new();
    let parent = arena.create_table();
    let child = arena.create_table();
    assert_eq!(arena.append_text(child, String::from("deep")), Ok(()));
    let child_text = arena.debug_render(child).unwrap();
    assert_eq!(arena.append_number(parent, (1.0f64).to_bits()), Ok(()));
    assert_eq!(arena.append_table(parent, child), Ok(()));
    let parent_text = arena.debug_render(parent).unwrap();
    assert!(parent_text.contains(child_text.as_str()));
    assert_eq!(parent_text, "{1, {deep}}");
}

#[test]
fn an_adopted_handle_is_dead_and_reported_as_moved() {
    let mut arena = TableArena::new();
    let parent = arena.create_table();
    let child = arena.create_table();
    assert_eq!(arena.append_table(parent, child), Ok(()));
    assert!(arena.debug_render(child).is_none());
    assert_eq!(arena.append_nil(child), Err(TableError::MovedHandle));
    assert_eq!(arena.free_table(child), Err(TableError::MovedHandle));
}

#[test]
fn a_table_cannot_adopt_itself() {
    let mut arena = TableArena::new();
    let t = arena.create_table();
    assert_eq!(arena.append_table(t, t), Err(TableError::SelfAdoption));
    assert_eq!(arena.put_text_table(t, String::from("me"), t), Err(TableError::SelfAdoption));
    assert_eq!(arena.debug_render(t).unwrap(), "{}");
}

#[test]
fn adoption_under_a_key_renders_as_an_entry() {
    let mut arena = TableArena::new();
    let parent = arena.create_table();
    let child = arena.create_table();
    assert_eq!(arena.append_boolean(child, false), Ok(()));
    assert_eq!(arena.put_text_table(parent, String::from("inner"), child), Ok(()));
    assert_eq!(arena.debug_render(parent).unwrap(), "{inner: {false}}");
}

#[test]
fn double_free_is_reported_not_undefined() {
    let mut arena = TableArena::new();
    let t = arena.create_table();
    assert_eq!(arena.append_number(t, (3.0f64).to_bits()), Ok(()));
    assert_eq!(arena.free_table(t), Ok(()));
    assert_eq!(arena.free_table(t), Err(TableError::InvalidHandle));
    assert_eq!(arena.free_table(t), Err(TableError::InvalidHandle));
}

#[test]
fn freeing_a_parent_frees_the_whole_subtree() {
    let mut arena = TableArena::new();
    let parent = arena.create_table();
    let child = arena.create_table();
    let grandchild = arena.create_table();
    assert_eq!(arena.append_text(grandchild, String::from("leaf")), Ok(()));
    assert_eq!(arena.append_table(child, grandchild), Ok(()));
    assert_eq!(arena.append_table(parent, child), Ok(()));
    assert_eq!(arena.debug_render(parent).unwrap(), "{{{leaf}}}");
    assert_eq!(arena.free_table(parent), Ok(()));
    assert!(arena.debug_render(parent).is_none());
}

#[test]
fn mutators_report_stale_handles_and_change_nothing() {
    let mut arena = TableArena::new();
    let t = arena.create_table();
    let keep = arena.create_table();
    assert_eq!(arena.append_nil(keep), Ok(()));
    assert_eq!(arena.free_table(t), Ok(()));
    assert_eq!(arena.append_number(t, (1.0f64).to_bits()), Err(TableError::InvalidHandle));
    assert_eq!(arena.put_text_boolean(t, String::from("k"), true), Err(TableError::InvalidHandle));
    assert_eq!(arena.import_numeric_array(t, &vec![0]), Err(TableError::InvalidHandle));
    assert_eq!(arena.debug_render(keep).unwrap(), "{nil}");
}

#[test]
fn score_scenario_renders_array_then_hash() {
    let mut arena = TableArena::new();
    let t = arena.create_table();
    assert_eq!(arena.append_number(t, (1.0f64).to_bits()), Ok(()));
    assert_eq!(arena.append_number(t, (4.0f64).to_bits()), Ok(()));
    assert_eq!(arena.put_text_number(t, String::from("score"), (8.0f64).to_bits()), Ok(()));
    assert_eq!(arena.debug_render(t).unwrap(), "{1, 4, score: 8}");
}

#[test]
fn nested_text_scenario_renders_double_braces() {
    let mut arena = TableArena::new();
    let parent = arena.create_table();
    let child = arena.create_table();
    assert_eq!(arena.append_text(child, String::from("x")), Ok(()));
    assert_eq!(arena.append_table(parent, child), Ok(()));
    assert_eq!(arena.debug_render(parent).unwrap(), "{{x}}");
}
