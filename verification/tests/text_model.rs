use chatlog::text::{
    build_full_text, segments, text_has_link, text_is_empty, TextField, TextPart,
};

fn plain(s: &str) -> TextField {
    TextField::Plain(s.to_string())
}

fn parts(items: Vec<TextPart>) -> TextField {
    TextField::Parts(items)
}

#[test]
fn bare_string_is_one_segment() {
    let t = plain("hello world");
    assert_eq!(segments(&t), vec!["hello world"]);
}

#[test]
fn empty_bare_string_is_still_one_segment() {
    let t = plain("");
    assert_eq!(segments(&t), vec![""]);
    assert!(text_is_empty(&t));
}

#[test]
fn array_yields_strings_and_entities_in_order() {
    let t = parts(vec![
        TextPart::Plain("see ".to_string()),
        TextPart::Entity("https://x.co".to_string()),
        TextPart::Other,
        TextPart::Plain(" now".to_string()),
        TextPart::Entity(String::new()),
    ]);
    assert_eq!(segments(&t), vec!["see ", "https://x.co", " now", ""]);
}

#[test]
fn other_elements_contribute_nothing() {
    let t = parts(vec![TextPart::Other, TextPart::Other]);
    assert!(segments(&t).is_empty());
    assert!(text_is_empty(&t));
    assert_eq!(build_full_text(&t), "");
}

#[test]
fn empty_array_has_no_segments() {
    let t = parts(vec![]);
    assert!(segments(&t).is_empty());
    assert!(text_is_empty(&t));
}

#[test]
fn text_with_only_empty_segments_is_empty() {
    let t = parts(vec![TextPart::Plain(String::new()), TextPart::Entity(String::new())]);
    assert_eq!(segments(&t).len(), 2);
    assert!(text_is_empty(&t));
}

#[test]
fn text_with_one_non_empty_segment_is_not_empty() {
    let t = parts(vec![TextPart::Plain(String::new()), TextPart::Entity(" ".to_string())]);
    assert!(!text_is_empty(&t));
}

#[test]
fn segments_are_restartable() {
    let t = parts(vec![TextPart::Plain("a".to_string()), TextPart::Entity("b".to_string())]);
    assert_eq!(segments(&t), segments(&t));
}

#[test]
fn full_text_glues_segments_without_separator() {
    let t = parts(vec![
        TextPart::Plain("foo".to_string()),
        TextPart::Other,
        TextPart::Entity("bar".to_string()),
        TextPart::Plain(" baz".to_string()),
    ]);
    assert_eq!(build_full_text(&t), "foobar baz");
    assert_eq!(build_full_text(&plain("одно")), "одно");
}

#[test]
fn link_is_looked_for_in_every_segment() {
    assert!(text_has_link(&plain("go to http://x.co")));
    assert!(text_has_link(&parts(vec![
        TextPart::Plain("go to ".to_string()),
        TextPart::Entity("https://x.co".to_string()),
    ])));
    assert!(!text_has_link(&plain("no link")));
    assert!(!text_has_link(&plain("HTTPS://x.co")));
}

#[test]
fn link_split_over_two_segments_is_not_a_link() {
    let t = parts(vec![TextPart::Plain("http:".to_string()), TextPart::Plain("//x.co".to_string())]);
    assert!(!text_has_link(&t));
}
