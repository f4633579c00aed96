use luabridge::numbers::format_number;
use luabridge::numbers::format_u64;
use luabridge::tables::LuaKey;
use luabridge::tables::LuaValue;
use luabridge::tables::Table;
use luabridge::tables::dispose;
use luabridge::tables::key_eq;
use luabridge::tables::value_text;

#[test]
fn integral_doubles_render_without_a_point() {
    assert_eq!(format_number((0.0f64).to_bits()), "0");
    assert_eq!(format_number((1.0f64).to_bits()), "1");
    assert_eq!(format_number((4.0f64).to_bits()), "4");
    assert_eq!(format_number((8.0f64).to_bits()), "8");
    assert_eq!(format_number((-3.0f64).to_bits()), "-3");
    assert_eq!(format_number((144115188075855870.0f64).to_bits()), "144115188075855872");
}

#[test]
fn negative_zero_keeps_its_sign() {
    assert_eq!(format_number((-0.0f64).to_bits()), "-0");
}

#[test]
fn fractions_render_exactly() {
    assert_eq!(format_number((0.5f64).to_bits()), "0.5");
    assert_eq!(format_number((2.5f64).to_bits()), "2.5");
    assert_eq!(format_number((-2.5f64).to_bits()), "-2.5");
    assert_eq!(format_number((0.125f64).to_bits()), "0.125");
    assert_eq!(
        format_number((0.1f64).to_bits()),
        "0.1000000000000000055511151231257827021181583404541015625"
    );
}

#[test]
fn large_powers_of_two_render_all_digits() {
    let big: f64 = 1180591620717411303424.0; // exactly two to the seventieth
    assert_eq!(format_number(big.to_bits()), "1180591620717411303424");
}

#[test]
fn special_values_have_canonical_names() {
    assert_eq!(format_number(f64::NAN.to_bits()), "NaN");
    assert_eq!(format_number(f64::INFINITY.to_bits()), "inf");
    assert_eq!(format_number(f64::NEG_INFINITY.to_bits()), "-inf");
}

#[test]
fn smallest_subnormal_renders_exactly() {
    let tiny = f64::from_bits(1);
    let text = format_number(tiny.to_bits());
    assert!(text.starts_with("0.0000"));
    assert!(text.ends_with("5"));
    assert_eq!(text.len(), 2 + 1074);
}

#[test]
fn machine_words_render_in_decimal() {
    assert_eq!(format_u64(0), "0");
    assert_eq!(format_u64(7), "7");
    assert_eq!(format_u64(105), "105");
    assert_eq!(format_u64(u64::MAX), "18446744073709551615");
}

#[test]
fn values_render_by_kind() {
    assert_eq!(value_text(&LuaValue::Nil), "nil");
    assert_eq!(value_text(&LuaValue::Boolean(true)), "true");
    assert_eq!(value_text(&LuaValue::Boolean(false)), "false");
    assert_eq!(value_text(&LuaValue::Number((6.0f64).to_bits())), "6");
    assert_eq!(value_text(&LuaValue::Text(String::from("plain"))), "plain");
}

#[test]
fn a_table_renders_its_parts_in_order() {
    let mut t = Table::new();
    t.add_value(LuaValue::Number((1.0f64).to_bits()));
    t.add_value(LuaValue::Text(String::from("two")));
    t.put_key_value(LuaKey::Text(String::from("a")), LuaValue::Boolean(true));
    t.put_key_value(LuaKey::Text(String::from("b")), LuaValue::Nil);
    assert_eq!(t.render(), "{1, two, a: true, b: nil}");
}

#[test]
fn a_repeated_key_keeps_its_slot() {
    let mut t = Table::new();
    t.put_key_value(LuaKey::Text(String::from("first")), LuaValue::Number((1.0f64).to_bits()));
    t.put_key_value(LuaKey::Text(String::from("second")), LuaValue::Number((2.0f64).to_bits()));
    t.put_key_value(LuaKey::Text(String::from("first")), LuaValue::Number((9.0f64).to_bits()));
    assert_eq!(t.render(), "{first: 9, second: 2}");
}

#[test]
fn nested_tables_render_recursively() {
    let mut inner = Table::new();
    inner.add_value(LuaValue::Text(String::from("x")));
    let mut outer = Table::new();
    outer.add_value(LuaValue::Table(inner));
    assert_eq!(outer.render(), "{{x}}");
}

#[test]
fn keys_compare_by_their_text() {
    assert!(key_eq(&LuaKey::Text(String::from("k")), &LuaKey::Text(String::from("k"))));
    assert!(!key_eq(&LuaKey::Text(String::from("k")), &LuaKey::Text(String::from("K"))));
}

#[test]
fn the_numeric_projection_skips_other_kinds() {
    let mut t = Table::new();
    t.add_value(LuaValue::Number((1.0f64).to_bits()));
    t.add_value(LuaValue::Text(String::from("skip")));
    t.add_value(LuaValue::Number((2.0f64).to_bits()));
    assert_eq!(t.numeric_array(), vec![(1.0f64).to_bits(), (2.0f64).to_bits()]);
}

#[test]
fn setting_the_numeric_array_keeps_the_hash_part() {
    let mut t = Table::new();
    t.add_value(LuaValue::Nil);
    t.put_key_value(LuaKey::Text(String::from("k")), LuaValue::Boolean(true));
    t.set_numeric_array(&vec![(5.0f64).to_bits()]);
    assert_eq!(t.render(), "{5, k: true}");
    assert_eq!(t.numeric_array(), vec![(5.0f64).to_bits()]);
}

#[test]
fn disposal_consumes_a_deep_tree() {
    let mut t = Table::new();
    for _ in 0..2000 {
        let mut outer = Table::new();
        outer.add_value(LuaValue::Table(t));
        t = outer;
    }
    dispose(t);
}
