use ownership::value::{classify, TypeDescriptor, ValueKind};

#[test]
fn scalars_are_copyable() {
    assert_eq!(classify(&TypeDescriptor::Integer), ValueKind::Copyable);
    assert_eq!(classify(&TypeDescriptor::Boolean), ValueKind::Copyable);
    assert_eq!(classify(&TypeDescriptor::Float), ValueKind::Copyable);
    assert_eq!(classify(&TypeDescriptor::Character), ValueKind::Copyable);
}

#[test]
fn text_is_move_only() {
    assert_eq!(classify(&TypeDescriptor::Text), ValueKind::MoveOnly);
}

#[test]
fn tuple_of_scalars_is_copyable() {
    let pair = TypeDescriptor::Tuple(vec![TypeDescriptor::Integer, TypeDescriptor::Integer]);
    assert_eq!(classify(&pair), ValueKind::Copyable);
}

#[test]
fn tuple_with_text_is_move_only() {
    let pair = TypeDescriptor::Tuple(vec![TypeDescriptor::Integer, TypeDescriptor::Text]);
    assert_eq!(classify(&pair), ValueKind::MoveOnly);
}

#[test]
fn empty_tuple_is_copyable() {
    assert_eq!(classify(&TypeDescriptor::Tuple(vec![])), ValueKind::Copyable);
}

#[test]
fn struct_with_release_action_is_move_only() {
    let handle = TypeDescriptor::Struct { releases: true, fields: vec![TypeDescriptor::Integer] };
    assert_eq!(classify(&handle), ValueKind::MoveOnly);
    let empty = TypeDescriptor::Struct { releases: true, fields: vec![] };
    assert_eq!(classify(&empty), ValueKind::MoveOnly);
}

#[test]
fn struct_without_release_action_goes_by_its_fields() {
    let point = TypeDescriptor::Struct {
        releases: false,
        fields: vec![TypeDescriptor::Float, TypeDescriptor::Float],
    };
    assert_eq!(classify(&point), ValueKind::Copyable);
    let named = TypeDescriptor::Struct {
        releases: false,
        fields: vec![TypeDescriptor::Text, TypeDescriptor::Integer],
    };
    assert_eq!(classify(&named), ValueKind::MoveOnly);
}

#[test]
fn move_only_component_deep_inside_makes_the_whole_move_only() {
    let inner = TypeDescriptor::Tuple(vec![
        TypeDescriptor::Boolean,
        TypeDescriptor::Struct { releases: false, fields: vec![TypeDescriptor::Text] },
    ]);
    let outer = TypeDescriptor::Tuple(vec![TypeDescriptor::Character, inner, TypeDescriptor::Integer]);
    assert_eq!(classify(&outer), ValueKind::MoveOnly);
    let releasing = TypeDescriptor::Tuple(vec![
        TypeDescriptor::Integer,
        TypeDescriptor::Tuple(vec![TypeDescriptor::Struct { releases: true, fields: vec![] }]),
    ]);
    assert_eq!(classify(&releasing), ValueKind::MoveOnly);
}

#[test]
fn nested_copyable_composite_is_copyable() {
    let inner = TypeDescriptor::Tuple(vec![TypeDescriptor::Boolean, TypeDescriptor::Float]);
    let outer = TypeDescriptor::Struct {
        releases: false,
        fields: vec![inner, TypeDescriptor::Tuple(vec![]), TypeDescriptor::Character],
    };
    assert_eq!(classify(&outer), ValueKind::Copyable);
}
