//! Message records and their classification.

use crate::text::{
    all_empty, any_link, build_full_text, joined, segments_of, segments_of_opt, text_has_link,
    text_is_empty, TextField,
};
use vstd::prelude::*;
use vstd::utf8::encode_utf8;

verus! {

/// The media-type tag of a message.
#[derive(Clone, Debug)]
pub enum MediaTag {
    /// The record has no media-type field.
    Missing,
    /// The field is present but is not a string.
    Unreadable,
    /// The field is present and holds this string.
    Named(String),
}

/// A poll attached to a message.
#[derive(Clone, Debug)]
pub struct Poll {
    /// The question, when the poll carries one as a string.
    pub question: Option<String>,
}

/// One record of the export, with the fields that the statistics read.
#[derive(Clone, Debug)]
pub struct Message {
    /// The kind tag of the record, when it is a string.
    pub kind: Option<String>,
    pub from: Option<String>,
    pub from_id: Option<String>,
    /// Whether the forwarded-from name field is present, whatever it holds.
    pub forwarded_from: bool,
    /// Whether the forwarded-from identifier field is present, whatever it holds.
    pub forwarded_from_id: bool,
    pub date: Option<String>,
    pub text: Option<TextField>,
    /// Whether a photo marker is present.
    pub photo: bool,
    /// Whether a file marker is present.
    pub file: bool,
    pub media_type: MediaTag,
    pub poll: Option<Poll>,
}

/// What a message is, as far as the counters care.
#[derive(Clone, Copy, Debug, PartialEq, Eq, Structural)]
pub struct Classification {
    pub photo: bool,
    pub voice: bool,
    pub video: bool,
    pub audio: bool,
    pub animation: bool,
    pub sticker: bool,
    /// A file marker without any media-type field.
    pub bare_file: bool,
    pub poll: bool,
    pub forwarded: bool,
    pub has_link: bool,
}

impl Classification {
    /// Whether at least one media flag is set.
    pub open spec fn any_media(self) -> bool {
        self.photo || self.voice || self.video || self.audio || self.animation || self.sticker
            || self.bare_file || self.poll
    }

    /// Whether at least one media flag is set.
    pub fn has_any_media(&self) -> (r: bool)
        ensures
            r == self.any_media(),
    {
        self.photo || self.voice || self.video || self.audio || self.animation || self.sticker
            || self.bare_file || self.poll
    }
}

/// Whether the media-type tag is the string `name`.
pub open spec fn tag_is(tag: MediaTag, name: Seq<char>) -> bool {
    match tag {
        MediaTag::Named(s) => s@ == name,
        _ => false,
    }
}

/// The classification of a message.
pub open spec fn classification_of(msg: Message) -> Classification {
    Classification {
        photo: msg.photo,
        voice: tag_is(msg.media_type, "voice_message"@),
        video: tag_is(msg.media_type, "video_file"@),
        audio: tag_is(msg.media_type, "audio_file"@),
        animation: tag_is(msg.media_type, "animation"@),
        sticker: tag_is(msg.media_type, "sticker"@),
        bare_file: msg.file && msg.media_type is Missing,
        poll: msg.poll is Some,
        forwarded: msg.forwarded_from || msg.forwarded_from_id,
        has_link: any_link(segments_of_opt(msg.text)),
    }
}

/// Whether the record is a real message: its kind tag is `message`.
pub open spec fn qualifies(msg: Message) -> bool {
    msg.kind is Some && msg.kind.unwrap()@ == "message"@
}

/// The display name of the author, `Unknown` when the record has none.
pub open spec fn author_of(msg: Message) -> Seq<char> {
    match msg.from {
        Some(s) => s@,
        None => "Unknown"@,
    }
}

/// The identifier of the author, `no_id` when the record has none.
pub open spec fn author_id_of(msg: Message) -> Seq<char> {
    match msg.from_id {
        Some(s) => s@,
        None => "no_id"@,
    }
}

/// Whether the message has text with usable content.
pub open spec fn has_text(msg: Message) -> bool {
    msg.text is Some && !all_empty(segments_of(msg.text.unwrap()))
}

/// What the transcript shows after the author header: the text, or the poll
/// question in brackets when there is no text, or nothing.
pub open spec fn body_of(msg: Message) -> Seq<char> {
    if has_text(msg) {
        joined(segments_of(msg.text.unwrap()))
    } else if msg.poll is Some && msg.poll.unwrap().question is Some {
        "[опрос: "@ + msg.poll.unwrap().question.unwrap()@ + "]"@
    } else {
        Seq::empty()
    }
}

/// The transcript line of a message: `author(id): body` and a line feed.
pub open spec fn line_of(msg: Message) -> Seq<char> {
    author_of(msg) + "("@ + author_id_of(msg) + "): "@ + body_of(msg) + "\n"@
}

/// Whether two string slices hold the same text.
pub fn same_text(a: &str, b: &str) -> (r: bool)
    ensures
        r == (a@ == b@),
{
    let x = a.as_bytes();
    let y = b.as_bytes();
    proof {
        vstd::utf8::encode_utf8_decode_utf8(a@);
        vstd::utf8::encode_utf8_decode_utf8(b@);
    }
    if x.len() != y.len() {
        return false;
    }
    let mut i: usize = 0;
    while i < x.len()
        invariant
            i <= x@.len() == y@.len(),
            x@ == encode_utf8(a@),
            y@ == encode_utf8(b@),
            forall|j: int| 0 <= j < i ==> x@[j] == y@[j],
        decreases x@.len() - i,
    {
        if x[i] != y[i] {
            return false;
        }
        i += 1;
    }
    proof {
        assert(x@ =~= y@);
    }
    true
}

fn tag_named(tag: &MediaTag, name: &str) -> (r: bool)
    ensures
        r == tag_is(*tag, name@),
{
    match tag {
        MediaTag::Named(s) => same_text(s.as_str(), name),
        _ => false,
    }
}

impl Message {
    /// Whether the record is a real message: its kind tag is `message`.
    pub fn is_message(&self) -> (r: bool)
        ensures
            r == qualifies(*self),
    {
        match &self.kind {
            Some(k) => same_text(k.as_str(), "message"),
            None => false,
        }
    }

    /// The display name of the author, `Unknown` when the record has none.
    pub fn author(&self) -> (r: &str)
        ensures
            r@ == author_of(*self),
    {
        match &self.from {
            Some(s) => s.as_str(),
            None => "Unknown",
        }
    }

    /// The identifier of the author, `no_id` when the record has none.
    pub fn author_id(&self) -> (r: &str)
        ensures
            r@ == author_id_of(*self),
    {
        match &self.from_id {
            Some(s) => s.as_str(),
            None => "no_id",
        }
    }

    /// Whether the message has text with usable content.
    pub fn has_usable_text(&self) -> (r: bool)
        ensures
            r == has_text(*self),
    {
        match &self.text {
            Some(t) => !text_is_empty(t),
            None => false,
        }
    }

    /// The transcript line of the message.
    pub fn render_line(&self) -> (line: String)
        ensures
            line@ == line_of(*self),
    {
        let mut line = String::new();
        line.push_str(self.author());
        line.push_str("(");
        line.push_str(self.author_id());
        line.push_str("): ");
        let mut shown = false;
        match &self.text {
            Some(t) => {
                if !text_is_empty(t) {
                    let full = build_full_text(t);
                    line.push_str(full.as_str());
                    shown = true;
                }
            },
            None => {},
        }
        if !shown {
            match &self.poll {
                Some(p) => {
                    match &p.question {
                        Some(q) => {
                            line.push_str("[опрос: ");
                            line.push_str(q.as_str());
                            line.push_str("]");
                            proof {
                                assert(line@ =~= author_of(*self) + "("@ + author_id_of(*self)
                                    + "): "@ + ("[опрос: "@ + q@ + "]"@));
                            }
                        },
                        None => {},
                    }
                },
                None => {},
            }
        }
        proof {
            assert(line@ =~= Seq::<char>::empty() + author_of(*self) + "("@ + author_id_of(*self)
                + "): "@ + body_of(*self));
            assert(Seq::<char>::empty() + author_of(*self) =~= author_of(*self));
        }
        line.push_str("\n");
        line
    }
}

/// Classifies a message: its media flags, whether it is forwarded, and
/// whether its text holds a link.
pub fn classify(msg: &Message) -> (c: Classification)
    ensures
        c == classification_of(*msg),
{
    let has_link = match &msg.text {
        Some(t) => text_has_link(t),
        None => false,
    };
    proof {
        if msg.text is None {
            assert(!any_link(Seq::<Seq<char>>::empty()));
        }
    }
    let bare = match &msg.media_type {
        MediaTag::Missing => msg.file,
        _ => false,
    };
    Classification {
        photo: msg.photo,
        voice: tag_named(&msg.media_type, "voice_message"),
        video: tag_named(&msg.media_type, "video_file"),
        audio: tag_named(&msg.media_type, "audio_file"),
        animation: tag_named(&msg.media_type, "animation"),
        sticker: tag_named(&msg.media_type, "sticker"),
        bare_file: bare,
        poll: msg.poll.is_some(),
        forwarded: msg.forwarded_from || msg.forwarded_from_id,
        has_link,
    }
}

} // verus!
