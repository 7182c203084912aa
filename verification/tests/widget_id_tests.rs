use guee::widget_id::hash_bytes;
use guee::widget_id::IdGen;
use guee::widget_id::WidgetId;
use guee::widget_id::HASH_SEED;

#[test]
fn the_hash_is_fnv_1a() {
    assert_eq!(hash_bytes(HASH_SEED, b""), 0xcbf2_9ce4_8422_2325);
    assert_eq!(hash_bytes(HASH_SEED, b"a"), 0xaf63_dc4c_8601_ec8c);
    assert_eq!(hash_bytes(HASH_SEED, b"foobar"), 0x8594_4171_f739_67e8);
    assert_eq!(WidgetId::new("a").value, 0xaf63_dc4c_8601_ec8c);
    assert_eq!(WidgetId::new("foobar"), WidgetId { value: 0x8594_4171_f739_67e8 });
}

#[test]
fn hashing_in_two_steps_is_hashing_at_once() {
    assert_eq!(hash_bytes(hash_bytes(HASH_SEED, b"foo"), b"bar"), hash_bytes(HASH_SEED, b"foobar"));
    assert_eq!(WidgetId::new("foo").with("bar"), WidgetId::new("foobar"));
}

#[test]
fn the_same_parent_and_key_give_the_same_identifier() {
    let parent = WidgetId::new("__ROOT__");
    assert_eq!(parent.with("button"), parent.with("button"));
    assert_eq!(IdGen::key("button").resolve(parent), parent.with("button"));
    assert_eq!(IdGen::key("button").resolve(parent), IdGen::key("button").resolve(parent));
}

#[test]
fn keys_and_parents_tell_widgets_apart() {
    let parent = WidgetId::new("__ROOT__");
    let other = WidgetId::new("other");
    assert_ne!(parent.with("ok"), parent.with("cancel"));
    assert_ne!(parent.with("ok"), other.with("ok"));
    assert_ne!(parent.with("ok"), parent);
    assert_ne!(IdGen::key("ok").resolve(parent), IdGen::key("ok").resolve(other));
}

#[test]
fn a_literal_identifier_does_not_depend_on_the_parent() {
    let parent = WidgetId::new("__ROOT__");
    let other = WidgetId::new("other");
    let field = IdGen::literal("text_input_field");
    assert_eq!(field.resolve(parent), field.resolve(other));
    assert_eq!(field.resolve(parent), WidgetId::new("text_input_field"));
    assert_eq!(IdGen::literal("x"), IdGen::Literal("x".to_string()));
    assert_eq!(IdGen::key("x"), IdGen::Key("x".to_string()));
}

#[test]
fn keys_are_hashed_as_utf8() {
    assert_eq!(WidgetId::new("é").value, hash_bytes(HASH_SEED, &[0xc3, 0xa9]));
}
