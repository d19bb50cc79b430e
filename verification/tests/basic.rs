use bitview::Field;
use bitview::Structure;

#[test]
fn lib_it_works() {
    assert_eq!(2 + 2, 4);
}

#[test]
fn values_it_works() {
    assert_eq!(2 + 2, 4);
}

#[test]
fn fieldsize_reserved() {
    assert_eq!(Field::Reserved(4).size(), 4);
}

#[test]
fn fieldsize_bool() {
    assert_eq!(Field::Boolean("Any".into()).size(), 1);
}

#[test]
fn fieldsize_integer() {
    assert_eq!(Field::Integer("Any".into(), 14).size(), 14);
}

#[test]
fn fieldsize_enum() {
    assert_eq!(Field::Enum("Any".into(), 36, Vec::new()).size(), 36);
}

#[test]
fn structure_empty() {
    assert_eq!(Structure::new("Any", &[]).size(), 0);
}

#[test]
fn structure_with_fields() {
    assert_eq!(
        8,
        Structure::new(
            "Any",
            &[
                Field::boolean("bob"),
                Field::reserved(4),
                Field::integer("jim", 3)
            ],
        )
        .size()
    )
}

#[test]
fn field_names() {
    assert_eq!(Field::reserved(4).get_name(), None);
    assert_eq!(Field::boolean("res_act").get_name(), Some("res_act".to_owned()));
    assert_eq!(Field::integer("rsm", 3).get_name(), Some("rsm".to_owned()));
    assert_eq!(
        Field::enumeration("mode", 2, vec![(0, "off".to_owned()), (1, "on".to_owned())]).get_name(),
        Some("mode".to_owned())
    );
}

#[test]
fn constructors_match_variants() {
    assert_eq!(Field::reserved(7), Field::Reserved(7));
    assert_eq!(Field::boolean("b"), Field::Boolean("b".to_owned()));
    assert_eq!(Field::integer("i", 9), Field::Integer("i".to_owned(), 9));
    let map = vec![(3, "three".to_owned())];
    assert_eq!(
        Field::enumeration("e", 5, map.clone()),
        Field::Enum("e".to_owned(), 5, map)
    );
}

#[test]
fn enumeration_size_ignores_mapping() {
    let small = Field::enumeration("e", 2, Vec::new());
    let large = Field::enumeration("e", 2, vec![(0, "a".to_owned()), (1, "b".to_owned())]);
    assert_eq!(small.size(), large.size());
}

#[test]
fn size_ignores_order() {
    let a = Structure::new(
        "Any",
        &[
            Field::boolean("bob"),
            Field::reserved(4),
            Field::integer("jim", 3),
        ],
    );
    let b = Structure::new(
        "Any",
        &[
            Field::integer("jim", 3),
            Field::boolean("bob"),
            Field::reserved(4),
        ],
    );
    assert_eq!(a.size(), b.size());
}

#[test]
fn append_adds_least_significant() {
    let mut reg = Structure::new("reg", &[Field::integer("lifetime", 4)]);
    assert_eq!(reg.get_range("lifetime"), Some((3, 0)));
    reg.append(Field::boolean("active"));
    assert_eq!(reg.get_range("lifetime"), Some((4, 1)));
    assert_eq!(reg.get_range("active"), Some((0, 0)));
    assert_eq!(reg.size(), 5);
}
