use miniarrow_schema::{same_field, ArrowError, DataType, Field, FieldRef, UnionFields};
use std::mem::size_of;
use std::sync::Arc;

fn field_a() -> Field {
    Field::new("field_a", DataType::UInt8, false)
}

fn field_b() -> Field {
    Field::new("field_b", DataType::Utf8, false)
}

fn pairs_of(union: &UnionFields) -> Vec<(i8, Field)> {
    let mut pairs: Vec<(i8, Field)> = union
        .iter()
        .into_iter()
        .map(|(tag, field)| (tag, (**field).clone()))
        .collect();
    pairs.sort();
    pairs
}

#[test]
fn empty_union_has_no_variant() {
    let union = UnionFields::empty();
    assert_eq!(union.len(), 0);
    assert!(union.is_empty());
    assert!(union.iter().is_empty());
    assert_eq!(union.size(), 0);
}

#[test]
fn new_pairs_tags_with_fields() {
    let union = UnionFields::new(
        vec![1, 3],
        vec![
            Field::new("field1", DataType::UInt8, false),
            Field::new("field3", DataType::Utf8, false),
        ],
    );
    assert_eq!(union.len(), 2);
    assert!(!union.is_empty());
    assert_eq!(
        pairs_of(&union),
        vec![
            (1, Field::new("field1", DataType::UInt8, false)),
            (3, Field::new("field3", DataType::Utf8, false)),
        ]
    );
}

#[test]
fn new_stops_at_the_shorter_input() {
    let more_tags = UnionFields::new(vec![0, 127, 5], vec![field_a(), field_b()]);
    assert_eq!(pairs_of(&more_tags), vec![(0, field_a()), (127, field_b())]);
    let more_fields = UnionFields::new(vec![7], vec![field_a(), field_b()]);
    assert_eq!(pairs_of(&more_fields), vec![(7, field_a())]);
    assert!(UnionFields::new(vec![], vec![field_a()]).is_empty());
    assert!(UnionFields::new(vec![1], vec![]).is_empty());
}

#[test]
fn repeated_tags_are_not_valid() {
    assert!(!UnionFields::valid_type_ids(&[1, 1]));
    assert!(!UnionFields::valid_type_ids(&[0, 5, 9, 5]));
    assert!(!UnionFields::valid_type_ids(&[127, 0, 127]));
}

#[test]
fn tags_below_zero_are_not_valid() {
    assert!(!UnionFields::valid_type_ids(&[-1]));
    assert!(!UnionFields::valid_type_ids(&[3, -128]));
}

#[test]
fn distinct_tags_in_range_are_valid() {
    assert!(UnionFields::valid_type_ids(&[]));
    assert!(UnionFields::valid_type_ids(&[1, 3]));
    assert!(UnionFields::valid_type_ids(&[127, 0, 64, 63, 1]));
    let all: Vec<i8> = (0..=127).collect();
    assert!(UnionFields::valid_type_ids(&all));
}

#[test]
fn merge_with_the_same_variants_changes_nothing() {
    let mut union = UnionFields::new(vec![1, 2], vec![field_a(), field_b()]);
    let copy = UnionFields::new(vec![1, 2], vec![field_a(), field_b()]);
    assert!(union.try_merge(&copy).is_ok());
    assert_eq!(union.len(), 2);
    assert_eq!(pairs_of(&union), vec![(1, field_a()), (2, field_b())]);
    let handle = union.clone();
    assert!(union.try_merge(&handle).is_ok());
    assert_eq!(union, copy);
}

#[test]
fn merge_detects_a_tag_conflict() {
    let mut u1 = UnionFields::new(vec![1], vec![field_a()]);
    let u2 = UnionFields::new(vec![2], vec![field_a()]);
    match u1.try_merge(&u2) {
        Err(ArrowError::SchemaError(desc)) => assert_eq!(
            desc,
            "Fail to merge schema field 'field_a' because the self_type_id = 1 does not equal field_type_id = 2"
        ),
        other => panic!("expected a schema error, got {:?}", other),
    }
}

#[test]
fn merge_conflict_text_as_the_error_displays_it() {
    let mut u1 = UnionFields::new(vec![100], vec![field_a()]);
    let u2 = UnionFields::new(vec![27], vec![field_a()]);
    let error = u1.try_merge(&u2).unwrap_err();
    assert_eq!(
        error.to_string(),
        "Schema error: Fail to merge schema field 'field_a' because the self_type_id = 100 does not equal field_type_id = 27"
    );
}

#[test]
fn merge_conflict_text_writes_every_tag_in_decimal() {
    let handle: FieldRef = Arc::new(field_a());
    let cases: [(i8, i8, &str, &str); 5] = [
        (0, 9, "0", "9"),
        (10, 99, "10", "99"),
        (127, -128, "127", "-128"),
        (-1, -10, "-1", "-10"),
        (-100, 101, "-100", "101"),
    ];
    for (mine, theirs, mine_text, theirs_text) in cases {
        let mut u1 = UnionFields::from(vec![(mine, handle.clone())]);
        let u2 = UnionFields::from(vec![(theirs, handle.clone())]);
        match u1.try_merge(&u2) {
            Err(ArrowError::SchemaError(desc)) => assert_eq!(
                desc,
                format!(
                    "Fail to merge schema field 'field_a' because the self_type_id = {} does not equal field_type_id = {}",
                    mine_text, theirs_text
                )
            ),
            other => panic!("expected a schema error, got {:?}", other),
        }
    }
}

#[test]
fn failed_merge_leaves_the_receiver_as_it_was() {
    let mut u1 = UnionFields::new(vec![1], vec![field_a()]);
    let before = u1.clone();
    let u2 = UnionFields::new(vec![5, 2], vec![field_b(), field_a()]);
    assert!(u1.try_merge(&u2).is_err());
    assert_eq!(u1, before);
    assert_eq!(pairs_of(&u1), vec![(1, field_a())]);
}

#[test]
fn merge_adds_a_new_variant() {
    let mut u1 = UnionFields::new(vec![1], vec![field_a()]);
    let u2 = UnionFields::new(vec![2], vec![field_b()]);
    assert!(u1.try_merge(&u2).is_ok());
    assert_eq!(u1.len(), 2);
    assert_eq!(pairs_of(&u1), vec![(1, field_a()), (2, field_b())]);
}

#[test]
fn merge_into_empty_takes_every_variant() {
    let mut union = UnionFields::empty();
    let other = UnionFields::new(vec![4, 9], vec![field_b(), field_a()]);
    assert!(union.try_merge(&other).is_ok());
    assert_eq!(pairs_of(&union), vec![(4, field_b()), (9, field_a())]);
    assert!(union.try_merge(&UnionFields::empty()).is_ok());
    assert_eq!(union.len(), 2);
}

#[test]
fn merge_does_not_look_at_the_tag_of_a_new_field() {
    let mut u1 = UnionFields::new(vec![1], vec![field_a()]);
    let u2 = UnionFields::new(vec![1], vec![field_b()]);
    assert!(u1.try_merge(&u2).is_ok());
    assert_eq!(pairs_of(&u1), vec![(1, field_a()), (1, field_b())]);
}

#[test]
fn merge_compares_fields_by_value() {
    let mut u1 = UnionFields::new(vec![1], vec![field_a()]);
    let nullable_a = Field::new("field_a", DataType::UInt8, true);
    let u2 = UnionFields::new(vec![2], vec![nullable_a.clone()]);
    assert!(u1.try_merge(&u2).is_ok());
    assert_eq!(pairs_of(&u1), vec![(1, field_a()), (2, nullable_a)]);
}

#[test]
fn merge_compares_with_the_first_variant_that_holds_the_field() {
    let handle: FieldRef = Arc::new(field_a());
    let mut twice = UnionFields::from(vec![(1, handle.clone()), (2, handle.clone())]);
    let first = UnionFields::from(vec![(1, handle.clone())]);
    let second = UnionFields::from(vec![(2, handle.clone())]);
    assert!(twice.try_merge(&first).is_ok());
    assert_eq!(twice.len(), 2);
    assert!(twice.try_merge(&second).is_err());
    let same = twice.clone();
    assert!(twice.try_merge(&same).is_err());
}

#[test]
fn union_from_pairs_takes_them_as_they_come() {
    let handle: FieldRef = Arc::new(field_a());
    let union = UnionFields::from(vec![(3, handle.clone()), (3, handle.clone())]);
    assert_eq!(union.len(), 2);
    let pairs = union.iter();
    assert!(pairs.iter().all(|(tag, field)| *tag == 3 && Arc::ptr_eq(field, &handle)));
}

#[test]
fn union_size_adds_each_field_and_one_tagged_handle_per_variant() {
    let union = UnionFields::new(vec![1, 2], vec![field_a(), field_b()]);
    let expected = 2 * (size_of::<Field>() + 7 + size_of::<(i8, FieldRef)>());
    assert_eq!(union.size(), expected);
    let holder = Field::new("u", DataType::Union(union), false);
    assert_eq!(holder.size(), size_of::<Field>() + 1 + expected);
}

#[test]
fn union_contains_looks_for_the_same_tag() {
    let nullable = UnionFields::new(
        vec![1],
        vec![Field::new("field_a", DataType::UInt8, true)],
    );
    let required = UnionFields::new(vec![1], vec![field_a()]);
    let other_tag = UnionFields::new(vec![2], vec![field_a()]);
    assert!(nullable.contains(&required));
    assert!(!required.contains(&nullable));
    assert!(!required.contains(&other_tag));
    assert!(UnionFields::empty().contains(&required));
    assert!(!required.contains(&UnionFields::empty()));
    let wider = UnionFields::new(vec![2, 1], vec![field_b(), field_a()]);
    assert!(required.contains(&wider));
    assert!(!wider.contains(&required));
}

#[test]
fn handles_to_equal_fields_are_the_same_field() {
    let a: FieldRef = Arc::new(field_a());
    let same_value: FieldRef = Arc::new(field_a());
    let b: FieldRef = Arc::new(field_b());
    assert!(same_field(&a, &a.clone()));
    assert!(same_field(&a, &same_value));
    assert!(!same_field(&a, &b));
}

#[test]
fn merge_result_holds_every_variant_of_both() {
    let field_c = Field::new("field_c", DataType::Int64, true);
    let mut u1 = UnionFields::new(vec![1, 2], vec![field_a(), field_b()]);
    let u2 = UnionFields::new(vec![2, 3], vec![field_b(), field_c.clone()]);
    assert!(u1.try_merge(&u2).is_ok());
    assert_eq!(
        pairs_of(&u1),
        vec![(1, field_a()), (2, field_b()), (3, field_c)]
    );
    let tags: Vec<i8> = u1.iter().into_iter().map(|(tag, _)| tag).collect();
    assert!(UnionFields::valid_type_ids(&tags));
}

#[test]
fn merge_can_leave_one_tag_on_two_fields() {
    let mut u1 = UnionFields::new(vec![1], vec![field_a()]);
    let u2 = UnionFields::new(vec![1], vec![field_b()]);
    assert!(u1.try_merge(&u2).is_ok());
    let tags: Vec<i8> = u1.iter().into_iter().map(|(tag, _)| tag).collect();
    assert_eq!(tags.len(), 2);
    assert!(!UnionFields::valid_type_ids(&tags));
}
