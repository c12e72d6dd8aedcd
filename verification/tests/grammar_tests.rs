use mdbook_classy::grammar::attr;
use mdbook_classy::grammar::attr_list_def;
use mdbook_classy::grammar::attributes;
use mdbook_classy::grammar::any;
use mdbook_classy::grammar::class;
use mdbook_classy::grammar::id;
use mdbook_classy::grammar::identifier;
use mdbook_classy::grammar::string;
use mdbook_classy::grammar::wrapped;
use mdbook_classy::grammar::Attribute;
use mdbook_classy::grammar::Class;
use mdbook_classy::rewriter::render_wrapper_open;

fn chars(s: &str) -> Vec<char> {
    s.chars().collect()
}

#[test]
fn parse_class_is_ok() {
    let input = chars(".def");
    let parsed = class(&input, 0);
    println!("{:#?}", parsed);
    assert!(parsed.is_some());
}

#[test]
fn parse_attr_is_ok() {
    let input = chars(r#"key="value""#);
    let parsed = attr(&input, 0);
    println!("{:#?}", parsed);
    assert!(parsed.is_some());
}

#[test]
fn parse_definition_is_ok() {
    let input = chars(r#"{:.myclass .anotherclass #myid key="value" key2 = "two words"}"#);
    let parsed = attr_list_def(&input, 0);
    let rendered: String = render_wrapper_open(&parsed.as_ref().unwrap().1).iter().collect();
    println!("{}", rendered);
    assert!(parsed.is_some());
}

#[test]
fn parse_just_def() {
    let input = chars(r#"{:.def}"#);
    let parsed = attr_list_def(&input, 0);
    assert!(parsed.is_some());
}

#[test]
fn parse_full_annotation_fields() {
    let input = chars(r#"{:.a .b #id k="v"}"#);
    let (end, def) = attr_list_def(&input, 0).expect("parses");
    assert_eq!(end, input.len());
    assert_eq!(def.classes, vec![Class(chars("a")), Class(chars("b"))]);
    assert_eq!(def.id, Some(chars("id")));
    assert_eq!(
        def.attributes,
        vec![Attribute { key: chars("k"), value: chars("v") }]
    );
}

#[test]
fn missing_closing_brace_fails() {
    assert!(attr_list_def(&chars(r#"{:.a .b #id k="v""#), 0).is_none());
    assert!(attr_list_def(&chars("{:.a"), 0).is_none());
    assert!(attr_list_def(&chars("{:"), 0).is_none());
}

#[test]
fn whitespace_insensitive() {
    let spaced = attr_list_def(&chars("{: .a }"), 0).expect("parses").1;
    let tight = attr_list_def(&chars("{:.a}"), 0).expect("parses").1;
    assert_eq!(spaced, tight);
}

#[test]
fn duplicate_keys_preserved_in_order() {
    let input = chars(r#"{:.a #x key="v1" key="v1 v2"}"#);
    let def = attr_list_def(&input, 0).expect("parses").1;
    assert_eq!(
        def.attributes,
        vec![
            Attribute { key: chars("key"), value: chars("v1") },
            Attribute { key: chars("key"), value: chars("v1 v2") },
        ]
    );
}

#[test]
fn trailing_text_not_rejected() {
    let input = chars("{:.a} trailing text");
    let (end, def) = attr_list_def(&input, 0).expect("parses");
    assert_eq!(end, 5);
    assert_eq!(def.classes, vec![Class(chars("a"))]);
}

#[test]
fn order_violation_fails_whole_parse() {
    assert!(attr_list_def(&chars("{:#x .a}"), 0).is_none());
    assert!(attr_list_def(&chars(r#"{:k="v" .a}"#), 0).is_none());
}

#[test]
fn string_takes_until_first_quote() {
    let (end, value) = string(&chars(r#""two words" rest"#), 0).expect("parses");
    assert_eq!(end, 11);
    assert_eq!(value, chars("two words"));
    assert!(string(&chars(r#""never closed"#), 0).is_none());
}

#[test]
fn identifier_strips_whitespace() {
    let (end, value) = identifier(&chars("  abc  "), 0).expect("parses");
    assert_eq!(end, 7);
    assert_eq!(value, chars("abc"));
    assert!(identifier(&chars("  .x"), 0).is_none());
}

#[test]
fn id_token_needs_hash() {
    let (_, value) = id(&chars("#myid"), 0).expect("parses");
    assert_eq!(value, chars("myid"));
    assert!(id(&chars("myid"), 0).is_none());
}

#[test]
fn attributes_stop_before_non_attribute() {
    let input = chars(r#"a="1" b="2"}"#);
    let (end, ats) = attributes(&input, 0);
    assert_eq!(end, 11);
    assert_eq!(
        ats,
        vec![
            Attribute { key: chars("a"), value: chars("1") },
            Attribute { key: chars("b"), value: chars("2") },
        ]
    );
}

#[test]
fn wrapped_shorthand_single_class() {
    let (end, value) = wrapped(&chars("{:.note}"), 0).expect("parses");
    assert_eq!(end, 8);
    assert_eq!(value, chars("note"));
    assert!(wrapped(&chars("{:.a .b}"), 0).is_none());
}

#[test]
fn default_attr_list_is_empty() {
    let def = mdbook_classy::AttrListDef::default();
    assert!(def.classes.is_empty());
    assert_eq!(def.id, None);
    assert!(def.attributes.is_empty());
}

#[test]
fn any_consumes_everything() {
    let (end, value) = any(&chars("xyz"), 0);
    assert_eq!(end, 3);
    assert_eq!(value, chars("xyz"));
}
