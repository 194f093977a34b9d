use chatlog::document::{
    open_root, process, Document, Element, IngestError, MessagesField, Root,
};
use chatlog::message::{MediaTag, Message, Poll};
use chatlog::text::TextField;

fn entry(kind: &str, from: &str, id: &str, text: &str) -> Message {
    Message {
        kind: Some(kind.to_string()),
        from: Some(from.to_string()),
        from_id: Some(id.to_string()),
        forwarded_from: false,
        forwarded_from_id: false,
        date: None,
        text: Some(TextField::Plain(text.to_string())),
        photo: false,
        file: false,
        media_type: MediaTag::Missing,
        poll: None,
    }
}

#[test]
fn single_message_document() {
    let mut m = entry("message", "A", "u1", "hello world http://x.co");
    m.date = Some("2024-01-05T10:00:00".to_string());
    let doc = Document { name: Some("T".to_string()), messages: vec![Element::Record(m)] };
    let out = process(&doc, false);
    assert_eq!(out.transcript, "A(u1): hello world http://x.co\n");
    assert_eq!(out.stats.chat_name, "T");
    assert_eq!(out.stats.link_messages, 1);
    assert_eq!(out.stats.total_messages, 1);
    assert_eq!(out.stats.per_author.len(), 1);
    assert_eq!(out.stats.per_author.get("A").copied(), Some(1));
}

#[test]
fn single_message_document_with_extended_statistics() {
    let mut m = entry("message", "A", "u1", "hello world http://x.co");
    m.date = Some("2024-01-05T10:00:00".to_string());
    let doc = Document { name: Some("T".to_string()), messages: vec![Element::Record(m)] };
    let out = process(&doc, true);
    assert_eq!(out.transcript, "A(u1): hello world http://x.co\n");
    assert_eq!(out.stats.total_messages, 1);
    assert_eq!(out.stats.hour_hist[10], 1);
    assert_eq!(out.stats.day_hist[5], 1);
    assert_eq!(out.stats.word_freq.get("hello").copied(), Some(1));
    assert_eq!(out.stats.word_freq.get("world").copied(), Some(1));
    assert_eq!(out.stats.word_freq.len(), 2);
    assert_eq!(
        out.stats.spam_map.get("A").and_then(|t| t.get("hello world http://x.co")).copied(),
        Some(1)
    );
}

#[test]
fn elements_that_are_no_messages_are_passed_over() {
    let doc = Document {
        name: None,
        messages: vec![
            Element::Other,
            Element::Record(entry("service", "S", "s0", "joined")),
            Element::Record(entry("message", "A", "u1", "first")),
            Element::Other,
            Element::Record(entry("message", "B", "u2", "second")),
        ],
    };
    let out = process(&doc, false);
    assert_eq!(out.transcript, "A(u1): first\nB(u2): second\n");
    assert_eq!(out.stats.total_messages, 2);
    assert_eq!(out.stats.per_author.len(), 2);
    assert_eq!(out.stats.per_author.get("S"), None);
}

#[test]
fn record_without_kind_is_passed_over() {
    let mut m = entry("message", "A", "u1", "x");
    m.kind = None;
    let doc = Document { name: None, messages: vec![Element::Record(m)] };
    let out = process(&doc, true);
    assert_eq!(out.transcript, "");
    assert_eq!(out.stats.total_messages, 0);
}

#[test]
fn nameless_chat_gets_a_stand_in_name() {
    let doc = Document { name: None, messages: vec![] };
    let out = process(&doc, false);
    assert_eq!(out.stats.chat_name, "<без имени>");
    assert_eq!(out.transcript, "");
    assert_eq!(out.stats.total_messages, 0);
}

#[test]
fn transcript_keeps_document_order() {
    let mut poll = entry("message", "C", "u3", "");
    poll.poll = Some(Poll { question: Some("Q?".to_string()) });
    let doc = Document {
        name: Some("T".to_string()),
        messages: vec![
            Element::Record(entry("message", "B", "u2", "two")),
            Element::Record(entry("message", "A", "u1", "one")),
            Element::Record(poll),
            Element::Record(entry("message", "B", "u2", "two")),
        ],
    };
    let out = process(&doc, true);
    assert_eq!(out.transcript, "B(u2): two\nA(u1): one\nC(u3): [опрос: Q?]\nB(u2): two\n");
    assert_eq!(out.stats.per_author.get("B").copied(), Some(2));
    assert_eq!(out.stats.poll_messages, 1);
}

#[test]
fn root_that_is_no_object_is_refused() {
    assert_eq!(open_root(Root::NotObject).err(), Some(IngestError::RootNotObject));
}

#[test]
fn root_without_messages_is_refused() {
    let root = Root::Object { name: Some("T".to_string()), messages: MessagesField::Missing };
    assert_eq!(open_root(root).err(), Some(IngestError::MessagesMissing));
}

#[test]
fn messages_of_the_wrong_type_are_refused() {
    let root = Root::Object { name: None, messages: MessagesField::NotArray };
    assert_eq!(open_root(root).err(), Some(IngestError::MessagesNotArray));
}

#[test]
fn well_shaped_root_opens() {
    let root = Root::Object {
        name: Some("T".to_string()),
        messages: MessagesField::List(vec![Element::Other, Element::Other]),
    };
    let doc = open_root(root).ok().unwrap();
    assert_eq!(doc.name.as_deref(), Some("T"));
    assert_eq!(doc.messages.len(), 2);
}

#[test]
fn each_error_has_its_own_text() {
    assert_eq!(IngestError::RootNotObject.message(), "Корень JSON не объект");
    assert_eq!(IngestError::MessagesMissing.message(), "В корне нет поля \"messages\"");
    assert_eq!(IngestError::MessagesNotArray.message(), "\"messages\" не массив");
}
