use bitview::Field;
use bitview::Structure;
use bitview::Value;

#[test]
fn range_worked_example() {
    let reg = Structure::new(
        "reg",
        &[Field::integer("lifetime", 4), Field::boolean("active")],
    );
    assert_eq!(reg.get_range("lifetime"), Some((4, 1)));
    assert_eq!(reg.get_range("active"), Some((0, 0)));
}

#[test]
fn get_field_worked_example() {
    let reg = Structure::new(
        "reg",
        &[
            Field::boolean("res_act"),
            Field::integer("rsm", 3),
            Field::boolean("dbgm"),
        ],
    );
    assert_eq!(reg.get_field("rsm"), Some(Field::integer("rsm", 3)));
    assert_eq!(reg.get_field("intm"), None);
}

#[test]
fn get_integer_worked_example() {
    let reg = Structure::new(
        "reg",
        &[
            Field::integer("high_byte_b", 8),
            Field::integer("high_nibble_a", 4),
            Field::integer("low_nibble_a", 4),
        ],
    );
    let value = Value::new(0xFFE5, reg);
    assert_eq!(value.get_integer("high_nibble_a"), Some(0xE));
    assert_eq!(value.get_integer("low_nibble_a"), Some(0x5));
    assert_eq!(value.get_integer("high_byte_b"), Some(0xFF));
}

#[test]
fn all_ones_sample_fills_field() {
    let reg = Structure::new(
        "reg",
        &[
            Field::reserved(8),
            Field::integer("mid", 5),
            Field::reserved(3),
        ],
    );
    let value = Value::new(usize::MAX, reg);
    assert_eq!(value.get_integer("mid"), Some(0x1F));
}

#[test]
fn zero_width_field_yields_zero() {
    let reg = Structure::new(
        "reg",
        &[Field::integer("empty", 0), Field::integer("pad", 6)],
    );
    let value = Value::new(usize::MAX, reg);
    assert_eq!(value.get_integer("empty"), Some(0));
}

#[test]
fn get_bool_is_strict_equality_with_one() {
    let reg = Structure::new(
        "reg",
        &[
            Field::integer("two_bits", 2),
            Field::boolean("set"),
            Field::boolean("clear"),
        ],
    );
    // two_bits = 0b10 (2), set = 1, clear = 0
    let value = Value::new(0b1010, reg);
    assert_eq!(value.get_bool("set"), Some(true));
    assert_eq!(value.get_bool("clear"), Some(false));
    // a nonzero value other than exactly 1 is false, not true
    assert_eq!(value.get_bool("two_bits"), Some(false));
}

#[test]
fn unknown_name_is_absent_everywhere() {
    let reg = Structure::new("reg", &[Field::boolean("known"), Field::reserved(4)]);
    assert_eq!(reg.get_field("unknown"), None);
    assert_eq!(reg.get_range("unknown"), None);
    let value = Value::new(0xFF, reg);
    assert_eq!(value.get_integer("unknown"), None);
    assert_eq!(value.get_bool("unknown"), None);
}

#[test]
fn reserved_fields_never_match() {
    let reg = Structure::new("reg", &[Field::reserved(8)]);
    assert_eq!(reg.get_field(""), None);
    assert_eq!(reg.get_range(""), None);
}

#[test]
fn duplicate_names_resolve_to_first_declared() {
    let reg = Structure::new(
        "reg",
        &[Field::integer("twin", 4), Field::integer("twin", 2)],
    );
    assert_eq!(reg.get_field("twin"), Some(Field::integer("twin", 4)));
    // the first declared (most significant) twin sits above the second
    assert_eq!(reg.get_range("twin"), Some((5, 2)));
}

#[test]
fn repeated_queries_are_identical() {
    let reg = Structure::new(
        "reg",
        &[Field::integer("lifetime", 4), Field::boolean("active")],
    );
    assert_eq!(reg.get_range("lifetime"), reg.get_range("lifetime"));
    assert_eq!(reg.get_field("lifetime"), reg.get_field("lifetime"));
    let value = Value::new(0x1F, reg);
    assert_eq!(value.get_integer("lifetime"), value.get_integer("lifetime"));
    assert_eq!(value.get_integer("lifetime"), Some(0xF));
    assert_eq!(value.get_bool("active"), value.get_bool("active"));
    assert_eq!(value.get_bool("active"), Some(true));
}

#[test]
fn widest_fields_span_the_whole_word() {
    let reg = Structure::new(
        "reg",
        &[Field::boolean("top"), Field::integer("rest", 63)],
    );
    assert_eq!(reg.size(), 64);
    assert_eq!(reg.get_range("top"), Some((63, 63)));
    assert_eq!(reg.get_range("rest"), Some((62, 0)));
    let value = Value::new(usize::MAX, reg);
    assert_eq!(value.get_bool("top"), Some(true));
    assert_eq!(value.get_integer("rest"), Some(usize::MAX >> 1));
}

#[test]
fn enumeration_fields_extract_raw_values() {
    let reg = Structure::new(
        "reg",
        &[
            Field::enumeration("mode", 2, vec![(0, "off".to_owned()), (1, "on".to_owned())]),
            Field::reserved(2),
        ],
    );
    let value = Value::new(0b1100, reg);
    // raw value 3 is valid even though the mapping leaves it unlabeled
    assert_eq!(value.get_integer("mode"), Some(3));
}
