use kalgan_i18n::document::{decimal_text, Key, Node};
use kalgan_i18n::template::replace;
use kalgan_i18n::Messages;

fn text(s: &str) -> Node {
    Node::Text(s.to_string())
}

fn key(s: &str) -> Key {
    Key::Text(s.to_string())
}

fn mapping(pairs: Vec<(&str, Node)>) -> Node {
    Node::Mapping(pairs.into_iter().map(|(k, v)| (key(k), v)).collect())
}

/// The catalog of `tests/en/messages.yaml`:
/// hello: { world: "Hello World!", somebody: "Hello {user}!" }
fn hello_catalog() -> Messages {
    let doc = mapping(vec![(
        "hello",
        mapping(vec![("world", text("Hello World!")), ("somebody", text("Hello {user}!"))]),
    )]);
    Messages::new(vec![("en".to_string(), vec![doc])])
}

#[test]
fn trans_hello_world() {
    let messages = hello_catalog();
    assert_eq!(messages.trans("en", "hello.world", vec![]), "Hello World!");
}

#[test]
fn trans_hello_somebody() {
    let messages = hello_catalog();
    let parameters = vec![("user", "John".to_string())];
    assert_eq!(messages.trans("en", "hello.somebody", parameters), "Hello John!");
}

#[test]
fn trans_unknown_language_gives_identifier() {
    let messages = hello_catalog();
    assert_eq!(messages.trans("fr", "hello.world", vec![]), "hello.world");
}

#[test]
fn trans_missing_message_gives_identifier() {
    let messages = hello_catalog();
    assert_eq!(messages.trans("en", "missing.key", vec![]), "missing.key");
}

#[test]
fn sibling_after_nested_mapping_is_at_root() {
    let doc = mapping(vec![
        ("a", mapping(vec![("b", text("X")), ("c", text("Y"))])),
        ("d", text("Z")),
    ]);
    let messages = Messages::new(vec![("en".to_string(), vec![doc])]);
    assert_eq!(messages.trans("en", "a.b", vec![]), "X");
    assert_eq!(messages.trans("en", "a.c", vec![]), "Y");
    assert_eq!(messages.trans("en", "d", vec![]), "Z");
    assert_eq!(messages.trans("en", "a.d", vec![]), "a.d");
    assert_eq!(messages.trans("en", "a.c.d", vec![]), "a.c.d");
    assert_eq!(messages.message_count("en"), 3);
}

#[test]
fn deep_sibling_switches_keep_paths() {
    let doc = mapping(vec![
        ("a", mapping(vec![("b", mapping(vec![("c", text("1"))])), ("d", text("2"))])),
        ("e", mapping(vec![("f", text("3"))])),
        ("a2", mapping(vec![("a", mapping(vec![("x", text("4"))])), ("y", text("5"))])),
    ]);
    let messages = Messages::new(vec![("en".to_string(), vec![doc])]);
    assert_eq!(messages.trans("en", "a.b.c", vec![]), "1");
    assert_eq!(messages.trans("en", "a.d", vec![]), "2");
    assert_eq!(messages.trans("en", "e.f", vec![]), "3");
    assert_eq!(messages.trans("en", "a2.a.x", vec![]), "4");
    assert_eq!(messages.trans("en", "a2.y", vec![]), "5");
    assert_eq!(messages.message_count("en"), 5);
}

#[test]
fn dotted_keys_are_skipped_with_their_subtree() {
    let doc = mapping(vec![
        ("a.b", mapping(vec![("c", text("hidden"))])),
        ("x.y", text("hidden too")),
        ("e", text("shown")),
        ("g", mapping(vec![("h.i", text("no")), ("j", text("yes"))])),
    ]);
    let messages = Messages::new(vec![("en".to_string(), vec![doc])]);
    assert_eq!(messages.trans("en", "a.b.c", vec![]), "a.b.c");
    assert_eq!(messages.trans("en", "x.y", vec![]), "x.y");
    assert_eq!(messages.trans("en", "e", vec![]), "shown");
    assert_eq!(messages.trans("en", "g.h.i", vec![]), "g.h.i");
    assert_eq!(messages.trans("en", "g.j", vec![]), "yes");
    assert_eq!(messages.message_count("en"), 2);
}

#[test]
fn leaf_count_matches_entries() {
    let doc = mapping(vec![
        ("one", text("1")),
        ("two", mapping(vec![("three", Node::Bool(true)), ("four", Node::Int(4))])),
        ("empty", Node::Mapping(vec![])),
        ("list", Node::Unsupported),
    ]);
    let messages = Messages::new(vec![("en".to_string(), vec![doc])]);
    assert_eq!(messages.message_count("en"), 4);
}

#[test]
fn scalars_are_written_out() {
    let doc = mapping(vec![
        ("yes", Node::Bool(true)),
        ("no", Node::Bool(false)),
        ("neg", Node::Int(-42)),
        ("zero", Node::Int(0)),
        ("big", Node::Int(1234567890)),
        ("other", Node::Unsupported),
    ]);
    let messages = Messages::new(vec![("en".to_string(), vec![doc])]);
    assert_eq!(messages.trans("en", "yes", vec![]), "true");
    assert_eq!(messages.trans("en", "no", vec![]), "false");
    assert_eq!(messages.trans("en", "neg", vec![]), "-42");
    assert_eq!(messages.trans("en", "zero", vec![]), "0");
    assert_eq!(messages.trans("en", "big", vec![]), "1234567890");
    assert_eq!(messages.trans("en", "other", vec![]), "");
    assert_eq!(messages.message_count("en"), 6);
}

#[test]
fn integer_keys_are_written_out_and_others_skipped() {
    let doc = Node::Mapping(vec![
        (Key::Int(7), text("seven")),
        (Key::Int(-3), mapping(vec![("x", text("minus three"))])),
        (Key::Unsupported, text("skipped")),
        (key("after"), text("kept")),
    ]);
    let messages = Messages::new(vec![("en".to_string(), vec![doc])]);
    assert_eq!(messages.trans("en", "7", vec![]), "seven");
    assert_eq!(messages.trans("en", "-3.x", vec![]), "minus three");
    assert_eq!(messages.trans("en", "after", vec![]), "kept");
    assert_eq!(messages.message_count("en"), 3);
}

#[test]
fn later_document_overwrites_earlier() {
    let first = mapping(vec![("k", text("first")), ("only1", text("a"))]);
    let second = mapping(vec![("k", text("second")), ("only2", text("b"))]);
    let messages = Messages::new(vec![("en".to_string(), vec![first, second])]);
    assert_eq!(messages.trans("en", "k", vec![]), "second");
    assert_eq!(messages.trans("en", "only1", vec![]), "a");
    assert_eq!(messages.trans("en", "only2", vec![]), "b");
    assert_eq!(messages.message_count("en"), 3);
}

#[test]
fn languages_are_separate() {
    let en = mapping(vec![("hi", text("Hello"))]);
    let es = mapping(vec![("hi", text("Hola"))]);
    let messages = Messages::new(vec![
        ("en".to_string(), vec![en]),
        ("es".to_string(), vec![es]),
        ("de".to_string(), vec![]),
    ]);
    assert_eq!(messages.trans("en", "hi", vec![]), "Hello");
    assert_eq!(messages.trans("es", "hi", vec![]), "Hola");
    assert_eq!(messages.trans("de", "hi", vec![]), "hi");
    assert_eq!(messages.message_count("de"), 0);
    assert_eq!(messages.message_count("fr"), 0);
}

#[test]
fn empty_catalog_resolves_to_identifiers() {
    let messages = Messages::new(vec![]);
    assert_eq!(messages.trans("en", "hello.world", vec![]), "hello.world");
    assert_eq!(messages.message_count("en"), 0);
}

#[test]
fn rebuild_gives_equal_tables() {
    let build = || {
        let a = mapping(vec![("x", mapping(vec![("y", text("1"))]))]);
        let b = mapping(vec![("z", text("2"))]);
        Messages::new(vec![("en".to_string(), vec![a, b])])
    };
    let first = build();
    let second = build();
    for id in ["x.y", "z", "x", "missing"] {
        assert_eq!(first.trans("en", id, vec![]), second.trans("en", id, vec![]));
    }
    assert_eq!(first.message_count("en"), second.message_count("en"));
}

#[test]
fn disjoint_documents_in_either_order() {
    let a = || mapping(vec![("x", text("1"))]);
    let b = || mapping(vec![("y", text("2"))]);
    let ab = Messages::new(vec![("en".to_string(), vec![a(), b()])]);
    let ba = Messages::new(vec![("en".to_string(), vec![b(), a()])]);
    for id in ["x", "y"] {
        assert_eq!(ab.trans("en", id, vec![]), ba.trans("en", id, vec![]));
    }
}

#[test]
fn every_occurrence_and_every_parameter_is_replaced() {
    let doc = mapping(vec![("m", text("{a} and {b}, again {a}; {c} stays"))]);
    let messages = Messages::new(vec![("en".to_string(), vec![doc])]);
    let parameters = vec![("a", "A".to_string()), ("b", "B".to_string())];
    assert_eq!(messages.trans("en", "m", parameters), "A and B, again A; {c} stays");
}

#[test]
fn unused_parameter_changes_nothing() {
    let messages = hello_catalog();
    let parameters = vec![("nobody", "X".to_string())];
    assert_eq!(messages.trans("en", "hello.somebody", parameters), "Hello {user}!");
}

#[test]
fn parameter_name_without_braces_is_not_replaced() {
    let doc = mapping(vec![("m", text("user {user}"))]);
    let messages = Messages::new(vec![("en".to_string(), vec![doc])]);
    let parameters = vec![("user", "Ann".to_string())];
    assert_eq!(messages.trans("en", "m", parameters), "user Ann");
}

#[test]
fn replace_scans_left_to_right() {
    assert_eq!(replace("a{x}b{x}", "{x}", "1"), "a1b1");
    assert_eq!(replace("aaa", "aa", "b"), "ba");
    assert_eq!(replace("", "{x}", "1"), "");
    assert_eq!(replace("no match", "{x}", "1"), "no match");
    assert_eq!(replace("é{x}ü", "{x}", "ß"), "éßü");
}

#[test]
fn decimal_text_covers_extremes() {
    assert_eq!(decimal_text(i64::MIN), "-9223372036854775808");
    assert_eq!(decimal_text(i64::MAX), "9223372036854775807");
    assert_eq!(decimal_text(-1), "-1");
    assert_eq!(decimal_text(10), "10");
}
