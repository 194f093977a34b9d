//! The text field of a message and its traversal into segments.

use crate::token::{contains_link, has_link_bytes, strs_view};
use vstd::prelude::*;
use vstd::utf8::encode_utf8;

verus! {

/// One element of an array-shaped text field.
#[derive(Clone, Debug)]
pub enum TextPart {
    /// A bare string.
    Plain(String),
    /// An annotated entity; only its text is kept.
    Entity(String),
    /// Any other element; it carries no text.
    Other,
}

/// The text field of a message: a single string, or an ordered list of parts.
#[derive(Clone, Debug)]
pub enum TextField {
    Plain(String),
    Parts(Vec<TextPart>),
}

/// The segment that one part contributes, if any.
pub open spec fn part_segment(p: TextPart) -> Option<Seq<char>> {
    match p {
        TextPart::Plain(s) => Some(s@),
        TextPart::Entity(s) => Some(s@),
        TextPart::Other => None,
    }
}

/// The segments of a list of parts, in the order of the parts.
pub open spec fn parts_segments(parts: Seq<TextPart>) -> Seq<Seq<char>>
    decreases parts.len(),
{
    if parts.len() == 0 {
        Seq::empty()
    } else {
        match part_segment(parts.last()) {
            Some(s) => parts_segments(parts.drop_last()).push(s),
            None => parts_segments(parts.drop_last()),
        }
    }
}

/// The segments of a text field, in document order.
pub open spec fn segments_of(field: TextField) -> Seq<Seq<char>> {
    match field {
        TextField::Plain(s) => seq![s@],
        TextField::Parts(v) => parts_segments(v@),
    }
}

/// The segments of an optional text field; an absent field has none.
pub open spec fn segments_of_opt(field: Option<TextField>) -> Seq<Seq<char>> {
    match field {
        Some(f) => segments_of(f),
        None => Seq::empty(),
    }
}

/// All segments glued together in order.
pub open spec fn joined(segs: Seq<Seq<char>>) -> Seq<char>
    decreases segs.len(),
{
    if segs.len() == 0 {
        Seq::empty()
    } else {
        joined(segs.drop_last()) + segs.last()
    }
}

/// A text has no usable content when it has no segment or only empty ones.
pub open spec fn all_empty(segs: Seq<Seq<char>>) -> bool {
    forall|k: int| 0 <= k < segs.len() ==> (#[trigger] segs[k]).len() == 0
}

/// Some segment holds `http://` or `https://`.
pub open spec fn any_link(segs: Seq<Seq<char>>) -> bool {
    exists|k: int| 0 <= k < segs.len() && contains_link(encode_utf8(#[trigger] segs[k]))
}

/// A bare string is exactly one segment, the string itself, also when it
/// is empty.
pub proof fn lemma_plain_is_one_segment(s: String)
    ensures
        segments_of(TextField::Plain(s)) == seq![s@],
        segments_of(TextField::Plain(s)).len() == 1,
{
}

/// The segments of an array are the texts of its string and entity parts,
/// as many and in the same order; every other part is passed over.
pub proof fn lemma_parts_segments_keep_number_and_order(parts: Seq<TextPart>)
    ensures
        parts_segments(parts) == parts.filter_map(|p: TextPart| part_segment(p)),
    decreases parts.len(),
{
    let f = |p: TextPart| part_segment(p);
    if parts.len() > 0 {
        lemma_parts_segments_keep_number_and_order(parts.drop_last());
        match part_segment(parts.last()) {
            Some(s) => {
                assert(parts.drop_last().filter_map(f).push(s) =~= parts.drop_last().filter_map(f)
                    + seq![s]);
            },
            None => {},
        }
    }
}

/// Segments follow the order of the parts: the segments of two lists put
/// together are the segments of the first followed by those of the second.
pub proof fn lemma_parts_segments_concat(a: Seq<TextPart>, b: Seq<TextPart>)
    ensures
        parts_segments(a + b) == parts_segments(a) + parts_segments(b),
    decreases b.len(),
{
    if b.len() == 0 {
        assert(a + b =~= a);
        assert(parts_segments(a) + parts_segments(b) =~= parts_segments(a));
    } else {
        lemma_parts_segments_concat(a, b.drop_last());
        assert((a + b).drop_last() =~= a + b.drop_last());
        assert((a + b).last() == b.last());
        match part_segment(b.last()) {
            Some(s) => {
                assert((parts_segments(a) + parts_segments(b.drop_last())).push(s)
                    =~= parts_segments(a) + parts_segments(b.drop_last()).push(s));
            },
            None => {},
        }
    }
}

/// A string or entity part contributes exactly its text, any other part nothing.
pub proof fn lemma_parts_segments_single(p: TextPart)
    ensures
        parts_segments(seq![p]) == match part_segment(p) {
            Some(s) => seq![s],
            None => Seq::<Seq<char>>::empty(),
        },
{
    assert(seq![p].drop_last() =~= Seq::<TextPart>::empty());
    assert(seq![p].last() == p);
    assert(parts_segments(Seq::<TextPart>::empty()) =~= Seq::<Seq<char>>::empty());
    match part_segment(p) {
        Some(s) => {
            assert(Seq::<Seq<char>>::empty().push(s) =~= seq![s]);
        },
        None => {},
    }
}

/// `String::push_str`: appends the given slice to the string.
pub assume_specification[ String::push_str ](s: &mut String, string: &str)
    ensures
        final(s)@ == old(s)@ + string@,
;

/// The segments of `field`, in document order.
pub fn segments<'a>(field: &'a TextField) -> (out: Vec<&'a str>)
    ensures
        strs_view(out@) == segments_of(*field),
{
    let mut out: Vec<&'a str> = Vec::new();
    match field {
        TextField::Plain(s) => {
            out.push(s.as_str());
            proof {
                assert(strs_view(out@) =~= seq![s@]);
            }
        },
        TextField::Parts(parts) => {
            let mut i: usize = 0;
            proof {
                assert(parts@.subrange(0, 0) =~= Seq::<TextPart>::empty());
                assert(strs_view(out@) =~= Seq::<Seq<char>>::empty());
            }
            while i < parts.len()
                invariant
                    i <= parts@.len(),
                    strs_view(out@) == parts_segments(parts@.subrange(0, i as int)),
                decreases parts@.len() - i,
            {
                proof {
                    let next = parts@.subrange(0, i + 1);
                    assert(next.drop_last() =~= parts@.subrange(0, i as int));
                    assert(next.last() == parts@[i as int]);
                }
                let ghost before = out@;
                match &parts[i] {
                    TextPart::Plain(s) => {
                        out.push(s.as_str());
                        proof {
                            assert(strs_view(out@) =~= strs_view(before).push(s@));
                        }
                    },
                    TextPart::Entity(s) => {
                        out.push(s.as_str());
                        proof {
                            assert(strs_view(out@) =~= strs_view(before).push(s@));
                        }
                    },
                    TextPart::Other => {},
                }
                i += 1;
            }
            proof {
                assert(parts@.subrange(0, parts@.len() as int) =~= parts@);
            }
        },
    }
    out
}

/// Whether the text has no usable content: no segment, or only empty ones.
pub fn text_is_empty(field: &TextField) -> (r: bool)
    ensures
        r == all_empty(segments_of(*field)),
{
    let segs = segments(field);
    let mut i: usize = 0;
    while i < segs.len()
        invariant
            i <= segs@.len(),
            strs_view(segs@) == segments_of(*field),
            forall|k: int| 0 <= k < i ==> (#[trigger] strs_view(segs@)[k]).len() == 0,
        decreases segs@.len() - i,
    {
        if !segs[i].is_empty() {
            proof {
                let all = strs_view(segs@);
                assert(all[i as int] == segs@[i as int]@);
                assert(all[i as int].len() != 0);
            }
            return false;
        }
        i += 1;
    }
    true
}

/// Whether some segment of the text holds `http://` or `https://`.
pub fn text_has_link(field: &TextField) -> (r: bool)
    ensures
        r == any_link(segments_of(*field)),
{
    let segs = segments(field);
    let mut i: usize = 0;
    while i < segs.len()
        invariant
            i <= segs@.len(),
            strs_view(segs@) == segments_of(*field),
            forall|k: int| 0 <= k < i ==> !contains_link(encode_utf8(#[trigger] strs_view(segs@)[k])),
        decreases segs@.len() - i,
    {
        if has_link_bytes(segs[i].as_bytes()) {
            proof {
                let all = strs_view(segs@);
                assert(all[i as int] == segs@[i as int]@);
                assert(contains_link(encode_utf8(all[i as int])));
            }
            return true;
        }
        i += 1;
    }
    false
}

/// All segments of the text glued together, in order.
pub fn build_full_text(field: &TextField) -> (out: String)
    ensures
        out@ == joined(segments_of(*field)),
{
    let segs = segments(field);
    let mut out = String::new();
    let mut i: usize = 0;
    proof {
        assert(strs_view(segs@).subrange(0, 0) =~= Seq::<Seq<char>>::empty());
    }
    while i < segs.len()
        invariant
            i <= segs@.len(),
            out@ == joined(strs_view(segs@).subrange(0, i as int)),
        decreases segs@.len() - i,
    {
        proof {
            let next = strs_view(segs@).subrange(0, i + 1);
            assert(next.drop_last() =~= strs_view(segs@).subrange(0, i as int));
            assert(next.last() == segs@[i as int]@);
        }
        out.push_str(segs[i]);
        i += 1;
    }
    proof {
        assert(strs_view(segs@).subrange(0, segs@.len() as int) =~= strs_view(segs@));
    }
    out
}

} // verus!
