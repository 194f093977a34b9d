use chatlog::message::{classify, same_text, Classification, MediaTag, Message, Poll};
use chatlog::text::{TextField, TextPart};

fn bare_record() -> Message {
    Message {
        kind: Some("message".to_string()),
        from: None,
        from_id: None,
        forwarded_from: false,
        forwarded_from_id: false,
        date: None,
        text: None,
        photo: false,
        file: false,
        media_type: MediaTag::Missing,
        poll: None,
    }
}

fn nothing() -> Classification {
    Classification {
        photo: false,
        voice: false,
        video: false,
        audio: false,
        animation: false,
        sticker: false,
        bare_file: false,
        poll: false,
        forwarded: false,
        has_link: false,
    }
}

#[test]
fn bare_record_has_no_flags() {
    let c = classify(&bare_record());
    assert_eq!(c, nothing());
    assert!(!c.has_any_media());
}

#[test]
fn each_media_tag_sets_its_own_flag() {
    let mut m = bare_record();
    m.media_type = MediaTag::Named("voice_message".to_string());
    assert_eq!(classify(&m), Classification { voice: true, ..nothing() });
    m.media_type = MediaTag::Named("video_file".to_string());
    assert_eq!(classify(&m), Classification { video: true, ..nothing() });
    m.media_type = MediaTag::Named("audio_file".to_string());
    assert_eq!(classify(&m), Classification { audio: true, ..nothing() });
    m.media_type = MediaTag::Named("animation".to_string());
    assert_eq!(classify(&m), Classification { animation: true, ..nothing() });
    m.media_type = MediaTag::Named("sticker".to_string());
    assert_eq!(classify(&m), Classification { sticker: true, ..nothing() });
}

#[test]
fn unknown_media_tag_sets_nothing() {
    let mut m = bare_record();
    m.media_type = MediaTag::Named("video_message".to_string());
    assert_eq!(classify(&m), nothing());
    m.media_type = MediaTag::Named("Sticker".to_string());
    assert_eq!(classify(&m), nothing());
}

#[test]
fn file_without_media_tag_is_a_bare_file() {
    let mut m = bare_record();
    m.file = true;
    let c = classify(&m);
    assert_eq!(c, Classification { bare_file: true, ..nothing() });
    assert!(c.has_any_media());
}

#[test]
fn any_media_tag_suppresses_bare_file() {
    let mut m = bare_record();
    m.file = true;
    m.media_type = MediaTag::Named("sticker".to_string());
    assert_eq!(classify(&m), Classification { sticker: true, ..nothing() });
    m.media_type = MediaTag::Named("something_else".to_string());
    assert_eq!(classify(&m), nothing());
    m.media_type = MediaTag::Unreadable;
    assert_eq!(classify(&m), nothing());
}

#[test]
fn several_flags_can_hold_at_once() {
    let mut m = bare_record();
    m.photo = true;
    m.media_type = MediaTag::Named("animation".to_string());
    m.poll = Some(Poll { question: None });
    m.forwarded_from_id = true;
    let c = classify(&m);
    assert_eq!(
        c,
        Classification { photo: true, animation: true, poll: true, forwarded: true, ..nothing() }
    );
    assert!(c.has_any_media());
}

#[test]
fn either_forward_marker_means_forwarded() {
    let mut m = bare_record();
    m.forwarded_from = true;
    assert!(classify(&m).forwarded);
    let mut m = bare_record();
    m.forwarded_from_id = true;
    assert!(classify(&m).forwarded);
    assert!(!classify(&m).has_any_media());
}

#[test]
fn link_flag_follows_the_text() {
    let mut m = bare_record();
    m.text = Some(TextField::Plain("hello http://x.co".to_string()));
    assert!(classify(&m).has_link);
    m.text = Some(TextField::Parts(vec![
        TextPart::Plain("hello ".to_string()),
        TextPart::Entity("https://x.co".to_string()),
    ]));
    assert!(classify(&m).has_link);
    m.text = Some(TextField::Plain("hello".to_string()));
    assert!(!classify(&m).has_link);
}

#[test]
fn classify_gives_the_same_answer_every_time() {
    let mut m = bare_record();
    m.photo = true;
    m.text = Some(TextField::Plain("x https://y".to_string()));
    assert_eq!(classify(&m), classify(&m));
}

#[test]
fn kind_tag_decides_what_is_a_message() {
    let mut m = bare_record();
    assert!(m.is_message());
    m.kind = Some("service".to_string());
    assert!(!m.is_message());
    m.kind = Some("Message".to_string());
    assert!(!m.is_message());
    m.kind = None;
    assert!(!m.is_message());
}

#[test]
fn missing_author_and_id_get_stand_ins() {
    let mut m = bare_record();
    assert_eq!(m.author(), "Unknown");
    assert_eq!(m.author_id(), "no_id");
    m.from = Some("Аня".to_string());
    m.from_id = Some("user7".to_string());
    assert_eq!(m.author(), "Аня");
    assert_eq!(m.author_id(), "user7");
}

#[test]
fn line_shows_author_id_and_text() {
    let mut m = bare_record();
    m.from = Some("A".to_string());
    m.from_id = Some("u1".to_string());
    m.text = Some(TextField::Plain("hello world http://x.co".to_string()));
    assert_eq!(m.render_line(), "A(u1): hello world http://x.co\n");
}

#[test]
fn line_glues_the_parts_of_an_array_text() {
    let mut m = bare_record();
    m.text = Some(TextField::Parts(vec![
        TextPart::Plain("see ".to_string()),
        TextPart::Entity("this".to_string()),
        TextPart::Other,
        TextPart::Plain("!".to_string()),
    ]));
    assert_eq!(m.render_line(), "Unknown(no_id): see this!\n");
}

#[test]
fn line_of_a_record_without_text_or_poll_is_just_the_header() {
    assert_eq!(bare_record().render_line(), "Unknown(no_id): \n");
}

#[test]
fn poll_question_stands_in_for_missing_text() {
    let mut m = bare_record();
    m.from = Some("A".to_string());
    m.from_id = Some("u1".to_string());
    m.poll = Some(Poll { question: Some("Q?".to_string()) });
    assert_eq!(m.render_line(), "A(u1): [опрос: Q?]\n");
}

#[test]
fn poll_question_stands_in_for_empty_text_too() {
    let mut m = bare_record();
    m.text = Some(TextField::Plain(String::new()));
    m.poll = Some(Poll { question: Some("Q?".to_string()) });
    assert_eq!(m.render_line(), "Unknown(no_id): [опрос: Q?]\n");
    assert!(!m.has_usable_text());
}

#[test]
fn text_wins_over_the_poll_question() {
    let mut m = bare_record();
    m.text = Some(TextField::Plain("vote!".to_string()));
    m.poll = Some(Poll { question: Some("Q?".to_string()) });
    assert_eq!(m.render_line(), "Unknown(no_id): vote!\n");
    assert!(m.has_usable_text());
}

#[test]
fn poll_without_question_shows_nothing() {
    let mut m = bare_record();
    m.poll = Some(Poll { question: None });
    assert_eq!(m.render_line(), "Unknown(no_id): \n");
}

#[test]
fn same_text_compares_whole_strings() {
    assert!(same_text("sticker", "sticker"));
    assert!(same_text("", ""));
    assert!(!same_text("sticker", "stickers"));
    assert!(!same_text("sticker", "sticke"));
    assert!(!same_text("да", "до"));
}
