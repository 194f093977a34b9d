//! A whole export: its shape, and the single pass that folds it.

use crate::message::{line_of, qualifies, Message};
use crate::stats::{folded, fresh, Stats, StatsView};
use vstd::prelude::*;

verus! {

/// One element of the message list.
#[derive(Clone, Debug)]
pub enum Element {
    /// An object, read as a message record.
    Record(Message),
    /// Anything that is not an object.
    Other,
}

/// The `messages` field of the root object.
#[derive(Clone, Debug)]
pub enum MessagesField {
    Missing,
    NotArray,
    List(Vec<Element>),
}

/// The root of a parsed export.
#[derive(Clone, Debug)]
pub enum Root {
    NotObject,
    Object { name: Option<String>, messages: MessagesField },
}

/// An export that has the shape the pass needs.
#[derive(Clone, Debug)]
pub struct Document {
    /// The display name of the chat, when the export carries one as a string.
    pub name: Option<String>,
    pub messages: Vec<Element>,
}

/// Why an export cannot be processed.
#[derive(Clone, Copy, Debug, PartialEq, Eq, Structural)]
pub enum IngestError {
    RootNotObject,
    MessagesMissing,
    MessagesNotArray,
}

/// What one pass over an export yields.
pub struct Outcome {
    pub stats: Stats,
    /// One line per message, each ending in a line feed.
    pub transcript: String,
}

/// The document inside a root, or the reason why there is none.
pub open spec fn opened(root: Root) -> Result<Document, IngestError> {
    match root {
        Root::NotObject => Err(IngestError::RootNotObject),
        Root::Object { name, messages } => match messages {
            MessagesField::Missing => Err(IngestError::MessagesMissing),
            MessagesField::NotArray => Err(IngestError::MessagesNotArray),
            MessagesField::List(list) => Ok(Document { name, messages: list }),
        },
    }
}

/// Checks the shape of a parsed export: the root must be an object with a
/// `messages` array.
pub fn open_root(root: Root) -> (r: Result<Document, IngestError>)
    ensures
        r == opened(root),
{
    match root {
        Root::NotObject => Err(IngestError::RootNotObject),
        Root::Object { name, messages } => match messages {
            MessagesField::Missing => Err(IngestError::MessagesMissing),
            MessagesField::NotArray => Err(IngestError::MessagesNotArray),
            MessagesField::List(list) => Ok(Document { name, messages: list }),
        },
    }
}

/// The text that tells a user what is wrong with the export.
pub open spec fn error_text(e: IngestError) -> Seq<char> {
    match e {
        IngestError::RootNotObject => "Корень JSON не объект"@,
        IngestError::MessagesMissing => "В корне нет поля \"messages\""@,
        IngestError::MessagesNotArray => "\"messages\" не массив"@,
    }
}

impl IngestError {
    /// The text that tells a user what is wrong with the export.
    pub fn message(&self) -> (r: &'static str)
        ensures
            r@ == error_text(*self),
    {
        match self {
            IngestError::RootNotObject => "Корень JSON не объект",
            IngestError::MessagesMissing => "В корне нет поля \"messages\"",
            IngestError::MessagesNotArray => "\"messages\" не массив",
        }
    }
}

/// The name under which a chat is reported; a chat without one gets a fixed
/// stand-in.
pub open spec fn chat_name_of(doc: Document) -> Seq<char> {
    match doc.name {
        Some(n) => n@,
        None => "<без имени>"@,
    }
}

/// The statistics after the elements were folded in, in order; elements
/// that are no real messages are passed over.
pub open spec fn stats_after(v: StatsView, elems: Seq<Element>, extended: bool) -> StatsView
    decreases elems.len(),
{
    if elems.len() == 0 {
        v
    } else {
        let before = stats_after(v, elems.drop_last(), extended);
        match elems.last() {
            Element::Record(m) => if qualifies(m) {
                folded(before, m, extended)
            } else {
                before
            },
            Element::Other => before,
        }
    }
}

/// The transcript of the elements: the line of every real message, in order.
pub open spec fn transcript_of(elems: Seq<Element>) -> Seq<char>
    decreases elems.len(),
{
    if elems.len() == 0 {
        Seq::empty()
    } else {
        let before = transcript_of(elems.drop_last());
        match elems.last() {
            Element::Record(m) => if qualifies(m) {
                before + line_of(m)
            } else {
                before
            },
            Element::Other => before,
        }
    }
}

/// Runs the pass: folds every real message of the document into fresh
/// statistics and renders its transcript line, in document order.
pub fn process(doc: &Document, extended: bool) -> (out: Outcome)
    ensures
        out.stats@ == stats_after(fresh(chat_name_of(*doc)), doc.messages@, extended),
        out.transcript@ == transcript_of(doc.messages@),
{
    let name = match &doc.name {
        Some(n) => n.clone(),
        None => "<без имени>".to_owned(),
    };
    let mut stats = Stats::new(name);
    let mut transcript = String::new();
    let mut i: usize = 0;
    proof {
        assert(doc.messages@.subrange(0, 0) =~= Seq::<Element>::empty());
    }
    while i < doc.messages.len()
        invariant
            i <= doc.messages@.len(),
            stats@ == stats_after(
                fresh(chat_name_of(*doc)),
                doc.messages@.subrange(0, i as int),
                extended,
            ),
            transcript@ == transcript_of(doc.messages@.subrange(0, i as int)),
        decreases doc.messages@.len() - i,
    {
        proof {
            let done = doc.messages@.subrange(0, i + 1);
            assert(done.drop_last() =~= doc.messages@.subrange(0, i as int));
            assert(done.last() == doc.messages@[i as int]);
        }
        match &doc.messages[i] {
            Element::Record(m) => {
                if m.is_message() {
                    stats.fold(m, extended);
                    let line = m.render_line();
                    transcript.push_str(line.as_str());
                }
            },
            Element::Other => {},
        }
        i += 1;
    }
    proof {
        assert(doc.messages@.subrange(0, doc.messages@.len() as int) =~= doc.messages@);
    }
    Outcome { stats, transcript }
}

} // verus!
