use miniarrow_schema::{DataType, Field, FieldRef, Fields};
use std::mem::size_of;
use std::sync::Arc;

fn abc() -> Vec<Field> {
    vec![
        Field::new("a", DataType::Boolean, false),
        Field::new("b", DataType::Int32, true),
        Field::new("c", DataType::Utf8, false),
    ]
}

#[test]
fn field_accessors_return_what_was_given() {
    let field = Field::new("price", DataType::Int64, true);
    assert_eq!(field.name(), "price");
    assert_eq!(*field.data_type(), DataType::Int64);
    assert!(field.is_nullable());
    let other = Field::new("", DataType::Null, false);
    assert_eq!(other.name(), "");
    assert!(!other.is_nullable());
}

#[test]
fn field_equality_is_by_value() {
    let a = Field::new("a", DataType::Int32, false);
    assert_eq!(a, Field::new("a", DataType::Int32, false));
    assert_ne!(a, Field::new("b", DataType::Int32, false));
    assert_ne!(a, Field::new("a", DataType::Int64, false));
    assert_ne!(a, Field::new("a", DataType::Int32, true));
    assert_eq!(a.clone(), a);
}

#[test]
fn field_contains_is_directional_in_nullability() {
    let nullable = Field::new("a", DataType::Int32, true);
    let required = Field::new("a", DataType::Int32, false);
    assert!(nullable.contains(&required));
    assert!(!required.contains(&nullable));
    assert!(nullable.contains(&nullable));
    assert!(required.contains(&required));
}

#[test]
fn field_contains_needs_same_name_and_type() {
    let a = Field::new("a", DataType::Int32, true);
    assert!(!a.contains(&Field::new("b", DataType::Int32, true)));
    assert!(!a.contains(&Field::new("a", DataType::Int64, true)));
    assert!(!a.contains(&Field::new("A", DataType::Int32, true)));
}

#[test]
fn empty_fields_have_no_field() {
    let fields = Fields::empty();
    assert_eq!(fields.len(), 0);
    assert!(fields.find("a").is_none());
    assert_eq!(fields.size(), 0);
    assert_eq!(Fields::default(), fields);
}

#[test]
fn fields_keep_the_given_order() {
    let fields = Fields::from(abc());
    assert_eq!(fields.len(), 3);
    assert_eq!(fields[0].name(), "a");
    assert_eq!(fields[1].name(), "b");
    assert_eq!(fields[2].name(), "c");
    let names: Vec<&str> = (&fields).into_iter().map(|f| f.name().as_str()).collect();
    assert_eq!(names, vec!["a", "b", "c"]);
}

#[test]
fn find_returns_first_match_with_its_position() {
    let fields = Fields::from(vec![
        Field::new("a", DataType::Boolean, false),
        Field::new("b", DataType::Int32, true),
        Field::new("b", DataType::Utf8, false),
    ]);
    let (index, field) = fields.find("b").unwrap();
    assert_eq!(index, 1);
    assert_eq!(*field.data_type(), DataType::Int32);
    let (index, field) = fields.find("a").unwrap();
    assert_eq!(index, 0);
    assert_eq!(field.name(), "a");
}

#[test]
fn find_matches_names_exactly() {
    let fields = Fields::from(vec![
        Field::new("a.b", DataType::Boolean, false),
        Field::new("Name", DataType::Boolean, false),
    ]);
    assert!(fields.find("a").is_none());
    assert!(fields.find("b").is_none());
    assert!(fields.find("name").is_none());
    assert!(fields.find("").is_none());
    assert_eq!(fields.find("Name").unwrap().0, 1);
    assert_eq!(fields.find("a.b").unwrap().0, 0);
}

#[test]
fn fields_contains_is_reflexive() {
    let fields = Fields::from(abc());
    assert!(fields.contains(&fields));
    assert!(fields.contains(&fields.clone()));
    assert!(fields.contains(&Fields::from(abc())));
    assert!(Fields::empty().contains(&Fields::empty()));
}

#[test]
fn fields_contains_is_not_symmetric() {
    let f = Fields::from(vec![Field::new("a", DataType::Int32, true)]);
    let g = Fields::from(vec![Field::new("a", DataType::Int32, false)]);
    assert!(f.contains(&g));
    assert!(!g.contains(&f));
}

#[test]
fn fields_of_different_lengths_do_not_contain_each_other() {
    let three = Fields::from(abc());
    let two = Fields::from(abc()[..2].to_vec());
    assert!(!three.contains(&two));
    assert!(!two.contains(&three));
    assert!(!three.contains(&Fields::empty()));
    assert!(!Fields::empty().contains(&three));
}

#[test]
fn fields_contains_is_positional() {
    let ab = Fields::from(vec![
        Field::new("a", DataType::Int32, true),
        Field::new("b", DataType::Int32, true),
    ]);
    let ba = Fields::from(vec![
        Field::new("b", DataType::Int32, true),
        Field::new("a", DataType::Int32, true),
    ]);
    assert!(!ab.contains(&ba));
}

#[test]
fn fields_contains_accepts_shared_handles_at_a_position() {
    let shared: FieldRef = Arc::new(Field::new("a", DataType::Int32, false));
    let f = Fields::from(vec![
        shared.clone(),
        Arc::new(Field::new("b", DataType::Utf8, true)),
    ]);
    let g = Fields::from(vec![
        shared,
        Arc::new(Field::new("b", DataType::Utf8, false)),
    ]);
    assert!(f.contains(&g));
    assert!(!g.contains(&f));
}

#[test]
fn contains_descends_into_nested_types() {
    let inner_nullable = Fields::from(vec![Field::new("x", DataType::Int32, true)]);
    let inner_required = Fields::from(vec![Field::new("x", DataType::Int32, false)]);
    let f = Fields::from(vec![Field::new(
        "s",
        DataType::Struct(inner_nullable.clone()),
        false,
    )]);
    let g = Fields::from(vec![Field::new(
        "s",
        DataType::Struct(inner_required.clone()),
        false,
    )]);
    assert!(f.contains(&g));
    assert!(!g.contains(&f));

    let list_nullable = Field::new(
        "l",
        DataType::List(Arc::new(Field::new("item", DataType::Utf8, true))),
        false,
    );
    let list_required = Field::new(
        "l",
        DataType::List(Arc::new(Field::new("item", DataType::Utf8, false))),
        false,
    );
    assert!(list_nullable.contains(&list_required));
    assert!(!list_required.contains(&list_nullable));
    assert!(!list_nullable.contains(&Field::new("l", DataType::Struct(inner_nullable), false)));
}

#[test]
fn construction_from_owned_fields_and_from_handles_agree() {
    let owned = Fields::from(abc());
    let handles: Vec<FieldRef> = abc().into_iter().map(Arc::new).collect();
    let from_vec = Fields::from(handles.clone());
    let from_slice = Fields::from(handles.as_slice());
    let array: [FieldRef; 3] = [handles[0].clone(), handles[1].clone(), handles[2].clone()];
    let from_array = Fields::from(array);
    assert_eq!(owned, from_vec);
    assert_eq!(owned, from_slice);
    assert_eq!(owned, from_array);
    assert_eq!(from_vec.len(), 3);
    assert_ne!(owned, Fields::from(abc()[..2].to_vec()));
}

#[test]
fn fields_share_the_handles_they_are_given() {
    let handle: FieldRef = Arc::new(Field::new("a", DataType::Int32, false));
    let from_slice = Fields::from(std::slice::from_ref(&handle));
    assert!(Arc::ptr_eq(&from_slice[0], &handle));
    let from_array = Fields::from([handle.clone()]);
    assert!(Arc::ptr_eq(&from_array[0], &handle));
    let copy = from_slice.clone();
    assert!(Arc::ptr_eq(&copy[0], &handle));
    assert_eq!(copy, from_slice);
}

#[test]
fn size_adds_each_field_and_one_handle_per_slot() {
    let fields = Fields::from(vec![
        Field::new("a", DataType::Boolean, false),
        Field::new("bcd", DataType::Int32, true),
    ]);
    let expected = (size_of::<Field>() + 1 + size_of::<FieldRef>())
        + (size_of::<Field>() + 3 + size_of::<FieldRef>());
    assert_eq!(fields.size(), expected);
}

#[test]
fn size_counts_name_bytes_and_nested_fields() {
    let leaf = Field::new("é", DataType::Utf8, false);
    assert_eq!(leaf.size(), size_of::<Field>() + 2);
    let inner = Fields::from(vec![leaf.clone()]);
    let inner_size = size_of::<Field>() + 2 + size_of::<FieldRef>();
    assert_eq!(inner.size(), inner_size);
    let outer = Field::new("s", DataType::Struct(inner), true);
    assert_eq!(outer.size(), size_of::<Field>() + 1 + inner_size);
    assert_eq!(outer.data_type().nested_size(), inner_size);
    let list = Field::new("l", DataType::List(Arc::new(leaf)), true);
    assert_eq!(list.size(), size_of::<Field>() + 1 + size_of::<Field>() + 2);
    assert_eq!(DataType::Int8.nested_size(), 0);
}

#[test]
fn data_type_equality_is_by_shape() {
    let a = DataType::Struct(Fields::from(abc()));
    let b = DataType::Struct(Fields::from(abc()));
    assert_eq!(a, b);
    assert_eq!(a.clone(), a);
    assert_ne!(a, DataType::Struct(Fields::empty()));
    assert_ne!(DataType::Int8, DataType::UInt8);
    assert_ne!(DataType::Utf8, DataType::Binary);
    assert!(DataType::Int16.contains(&DataType::Int16));
    assert!(!DataType::Int16.contains(&DataType::UInt16));
    assert!(!DataType::Null.contains(&DataType::Boolean));
}

#[test]
fn fields_contains_is_transitive() {
    let inner = |nullable: bool| Fields::from(vec![Field::new("x", DataType::Int32, nullable)]);
    let a = Fields::from(vec![
        Field::new("k", DataType::Utf8, true),
        Field::new("s", DataType::Struct(inner(true)), true),
    ]);
    let b = Fields::from(vec![
        Field::new("k", DataType::Utf8, true),
        Field::new("s", DataType::Struct(inner(false)), true),
    ]);
    let c = Fields::from(vec![
        Field::new("k", DataType::Utf8, false),
        Field::new("s", DataType::Struct(inner(false)), false),
    ]);
    assert!(a.contains(&b));
    assert!(b.contains(&c));
    assert!(a.contains(&c));
    assert!(!c.contains(&a));
}

#[test]
fn find_compares_names_beyond_ascii() {
    let fields = Fields::from(vec![
        Field::new("prix", DataType::Int32, false),
        Field::new("prix €", DataType::Int32, false),
        Field::new("prix é", DataType::Int32, false),
    ]);
    assert_eq!(fields.find("prix é").unwrap().0, 2);
    assert_eq!(fields.find("prix €").unwrap().0, 1);
    assert_eq!(fields.find("prix").unwrap().0, 0);
    assert!(fields.find("prix e").is_none());
    assert!(fields.find("pri").is_none());
}
