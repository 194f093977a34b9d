//! The tokenizer: cutting a text at ASCII whitespace and trimming ASCII
//! punctuation from the ends of a token, both decided on the bytes of the text.

use vstd::prelude::*;
use vstd::utf8::{
    decode_utf8, encode_utf8, is_char_boundary, is_continuation_byte, length_of_first_scalar,
    pop_first_scalar, valid_first_scalar, valid_utf8,
};

verus! {

/// The four ASCII whitespace bytes that separate tokens.
pub open spec fn ws_byte(b: u8) -> bool {
    b == 0x20 || b == 0x0a || b == 0x09 || b == 0x0d
}

/// ASCII letters, digits and `#`, `@`, `_`.
pub open spec fn word_byte(b: u8) -> bool {
    (0x41 <= b && b <= 0x5a) || (0x61 <= b && b <= 0x7a) || (0x30 <= b && b <= 0x39) || b == 0x23
        || b == 0x40 || b == 0x5f
}

/// A byte that trimming never removes: a word byte or any byte with the high bit set.
pub open spec fn kept_byte(b: u8) -> bool {
    b >= 0x80 || word_byte(b)
}

pub fn is_ascii_ws(b: u8) -> (r: bool)
    ensures
        r == ws_byte(b),
{
    b == 0x20 || b == 0x0a || b == 0x09 || b == 0x0d
}

pub fn is_ascii_word_char(b: u8) -> (r: bool)
    ensures
        r == word_byte(b),
{
    (0x41 <= b && b <= 0x5a) || (0x61 <= b && b <= 0x7a) || (0x30 <= b && b <= 0x39) || b == 0x23
        || b == 0x40 || b == 0x5f
}

/// `s` without its leading bytes that are not kept.
pub open spec fn drop_left(s: Seq<u8>) -> Seq<u8>
    decreases s.len(),
{
    if s.len() > 0 && !kept_byte(s[0]) {
        drop_left(s.drop_first())
    } else {
        s
    }
}

/// `s` without its trailing bytes that are not kept.
pub open spec fn drop_right(s: Seq<u8>) -> Seq<u8>
    decreases s.len(),
{
    if s.len() > 0 && !kept_byte(s.last()) {
        drop_right(s.drop_last())
    } else {
        s
    }
}

/// A token with ASCII punctuation stripped from both ends.
pub open spec fn trimmed(s: Seq<u8>) -> Seq<u8> {
    drop_right(drop_left(s))
}

/// What `drop_left` leaves is a suffix of its input that is empty or starts
/// with a kept byte; the byte right before it, if there is one, is not kept.
pub proof fn lemma_drop_left_shape(s: Seq<u8>)
    ensures
        drop_left(s).len() <= s.len(),
        drop_left(s) == s.subrange(s.len() - drop_left(s).len(), s.len() as int),
        drop_left(s).len() == 0 || kept_byte(drop_left(s)[0]),
        drop_left(s).len() == s.len() || !kept_byte(s[s.len() - drop_left(s).len() - 1]),
    decreases s.len(),
{
    if s.len() > 0 && !kept_byte(s[0]) {
        let t = s.drop_first();
        lemma_drop_left_shape(t);
        let n = t.len() - drop_left(t).len();
        assert(t.subrange(n, t.len() as int) =~= s.subrange(n + 1, s.len() as int));
        if n > 0 {
            assert(t[n - 1] == s[n]);
        }
    } else {
        assert(s =~= s.subrange(0, s.len() as int));
    }
}

/// What `drop_right` leaves is a prefix of its input that is empty or ends
/// with a kept byte; the byte right after it, if there is one, is not kept,
/// and a kept first byte survives.
pub proof fn lemma_drop_right_shape(s: Seq<u8>)
    ensures
        drop_right(s).len() <= s.len(),
        drop_right(s) == s.subrange(0, drop_right(s).len() as int),
        drop_right(s).len() == 0 || kept_byte(drop_right(s).last()),
        drop_right(s).len() == s.len() || !kept_byte(s[drop_right(s).len() as int]),
        s.len() > 0 && kept_byte(s[0]) ==> drop_right(s).len() > 0,
    decreases s.len(),
{
    if s.len() > 0 && !kept_byte(s.last()) {
        let t = s.drop_last();
        lemma_drop_right_shape(t);
        let n = drop_right(t).len() as int;
        assert(t.subrange(0, n) =~= s.subrange(0, n));
        if n < t.len() {
            assert(t[n] == s[n]);
        }
    } else {
        assert(s =~= s.subrange(0, s.len() as int));
    }
}

/// Trimming a trimmed token changes nothing.
pub proof fn lemma_trim_idempotent(t: Seq<u8>)
    ensures
        trimmed(trimmed(t)) == trimmed(t),
{
    let l = drop_left(t);
    lemma_drop_left_shape(t);
    lemma_drop_right_shape(l);
    let r = drop_right(l);
    assert(r == trimmed(t));
    if r.len() > 0 {
        assert(r[0] == l[0]);
        assert(kept_byte(r[0]));
        assert(drop_left(r) == r);
        assert(drop_right(r) == r);
    } else {
        assert(drop_left(r) == r);
        assert(drop_right(r) == r);
    }
}

/// The offsets at which the trimmed form of `s` starts and ends.
pub fn trim_span(s: &[u8]) -> (r: (usize, usize))
    ensures
        r.0 <= r.1 <= s@.len(),
        r.0 == s@.len() - drop_left(s@).len(),
        s@.subrange(r.0 as int, r.1 as int) == trimmed(s@),
        r.0 == 0 || !kept_byte(s@[r.0 - 1]),
        r.1 == s@.len() || !kept_byte(s@[r.1 as int]),
{
    let mut start: usize = 0;
    let mut end: usize = s.len();
    proof {
        assert(s@.subrange(0, s@.len() as int) =~= s@);
    }
    while start < end && !(s[start] >= 0x80 || is_ascii_word_char(s[start]))
        invariant
            start <= end == s@.len(),
            drop_left(s@) == drop_left(s@.subrange(start as int, end as int)),
            start == 0 || !kept_byte(s@[start - 1]),
        decreases end - start,
    {
        proof {
            let cur = s@.subrange(start as int, end as int);
            assert(cur.drop_first() =~= s@.subrange(start as int + 1, end as int));
        }
        start += 1;
    }
    proof {
        let rest = s@.subrange(start as int, end as int);
        assert(drop_left(rest) == rest);
    }
    while end > start && !(s[end - 1] >= 0x80 || is_ascii_word_char(s[end - 1]))
        invariant
            start <= end <= s@.len(),
            start == s@.len() - drop_left(s@).len(),
            drop_right(drop_left(s@)) == drop_right(s@.subrange(start as int, end as int)),
            start == 0 || !kept_byte(s@[start - 1]),
            end == s@.len() || !kept_byte(s@[end as int]),
        decreases end - start,
    {
        proof {
            let cur = s@.subrange(start as int, end as int);
            assert(cur.drop_last() =~= s@.subrange(start as int, end as int - 1));
        }
        end -= 1;
    }
    (start, end)
}

/// End of the run of non-whitespace bytes that starts at `i`.
pub open spec fn run_end(s: Seq<u8>, i: int) -> int
    decreases s.len() - i,
{
    if i < 0 || i >= s.len() || ws_byte(s[i]) {
        i
    } else {
        run_end(s, i + 1)
    }
}

/// Whether a token starts at `i`: a non-whitespace byte at the start of the
/// text or right after a whitespace byte.
pub open spec fn token_start(s: Seq<u8>, i: int) -> bool {
    0 <= i < s.len() && !ws_byte(s[i]) && (i == 0 || ws_byte(s[i - 1]))
}

/// The tokens that start at `i` or later, each as a pair of byte offsets.
pub open spec fn spans_from(s: Seq<u8>, i: int) -> Seq<(int, int)>
    decreases s.len() - i,
{
    if i < 0 || i >= s.len() {
        Seq::empty()
    } else if token_start(s, i) {
        seq![(i, run_end(s, i))] + spans_from(s, i + 1)
    } else {
        spans_from(s, i + 1)
    }
}

/// The maximal runs of non-whitespace bytes of `s`, in order.
pub open spec fn token_spans(s: Seq<u8>) -> Seq<(int, int)> {
    spans_from(s, 0)
}

/// The offsets held in a vector of spans.
pub open spec fn span_view(v: Seq<(usize, usize)>) -> Seq<(int, int)> {
    Seq::new(v.len(), |k: int| (v[k].0 as int, v[k].1 as int))
}

/// How a search for the first of up to three bytes answers.
pub open spec fn first_hit(hay: Seq<u8>, a: u8, b: u8, c: u8, r: Option<usize>) -> bool {
    match r {
        Some(i) => i < hay.len() && (hay[i as int] == a || hay[i as int] == b || hay[i as int]
            == c) && forall|j: int|
            0 <= j < i ==> hay[j] != a && hay[j] != b && hay[j] != c,
        None => forall|j: int| 0 <= j < hay.len() ==> hay[j] != a && hay[j] != b && hay[j] != c,
    }
}

/// `memchr::memchr3`: the index of the first byte of `hay` that equals one
/// of the three needles, or `None` when no byte does.
#[verifier::external_body]
fn first_of_three(a: u8, b: u8, c: u8, hay: &[u8]) -> (r: Option<usize>)
    ensures
        first_hit(hay@, a, b, c, r),
{
    memchr::memchr3(a, b, c, hay)
}

/// `memchr::memchr`: the index of the first byte of `hay` that equals the
/// needle, or `None` when no byte does.
#[verifier::external_body]
fn first_of(a: u8, hay: &[u8]) -> (r: Option<usize>)
    ensures
        first_hit(hay@, a, a, a, r),
{
    memchr::memchr(a, hay)
}

proof fn lemma_run_end(s: Seq<u8>, i: int, e: int)
    requires
        0 <= i <= e <= s.len(),
        forall|j: int| i <= j < e ==> !ws_byte(s[j]),
        e == s.len() || ws_byte(s[e]),
    ensures
        run_end(s, i) == e,
    decreases e - i,
{
    if i < e {
        lemma_run_end(s, i + 1, e);
    }
}

proof fn lemma_spans_inside_run(s: Seq<u8>, a: int, e: int)
    requires
        1 <= a <= e <= s.len(),
        forall|j: int| a - 1 <= j < e ==> !ws_byte(s[j]),
    ensures
        spans_from(s, a) == spans_from(s, e),
    decreases e - a,
{
    if a < e {
        lemma_spans_inside_run(s, a + 1, e);
    }
}

/// Cuts `text` at ASCII whitespace and returns the byte offsets of every
/// non-empty piece, in order.
pub fn scan_spans(text: &[u8]) -> (out: Vec<(usize, usize)>)
    ensures
        span_view(out@) == token_spans(text@),
        forall|k: int| 0 <= k < out@.len() ==> (#[trigger] out@[k]).0 < out@[k].1 <= text@.len(),
{
    let len = text.len();
    let mut out: Vec<(usize, usize)> = Vec::new();
    let mut i: usize = 0;
    while i < len
        invariant
            i <= len == text@.len(),
            token_spans(text@) == span_view(out@) + spans_from(text@, i as int),
            i == 0 || i == len || ws_byte(text@[i as int]) || ws_byte(text@[i - 1]),
            forall|k: int| 0 <= k < out@.len() ==> (#[trigger] out@[k]).0 < out@[k].1 <= text@.len(),
        decreases len - i,
    {
        if is_ascii_ws(text[i]) {
            i += 1;
        } else {
            let rest = vstd::slice::slice_subrange(text, i, len);
            let cut = match first_of_three(0x20, 0x0a, 0x09, rest) {
                Some(k) => k,
                None => rest.len(),
            };
            let head = vstd::slice::slice_subrange(rest, 0, cut);
            let cut = match first_of(0x0d, head) {
                Some(k) => k,
                None => cut,
            };
            let end = i + cut;
            proof {
                assert forall|j: int| i <= j < end implies !ws_byte(text@[j]) by {
                    assert(text@[j] == rest@[j - i]);
                    assert(rest@[j - i] == head@[j - i]);
                }
                assert(end == len || ws_byte(text@[end as int])) by {
                    if end < len {
                        assert(text@[end as int] == rest@[end - i]);
                    }
                }
                assert(end > i) by {
                    if end == i {
                        assert(text@[i as int] == rest@[0]);
                    }
                }
                lemma_run_end(text@, i as int, end as int);
                lemma_spans_inside_run(text@, i + 1, end as int);
                let grown = out@.push((i, end));
                assert(span_view(grown) =~= span_view(out@) + seq![(i as int, end as int)]);
                assert(span_view(out@) + (seq![(i as int, end as int)] + spans_from(
                    text@,
                    end as int,
                )) =~= span_view(grown) + spans_from(text@, end as int));
            }
            out.push((i, end));
            i = end;
        }
    }
    proof {
        assert(span_view(out@) + Seq::<(int, int)>::empty() =~= span_view(out@));
    }
    out
}

/// The bytes of `http://`.
pub open spec fn http_prefix() -> Seq<u8> {
    seq![0x68u8, 0x74u8, 0x74u8, 0x70u8, 0x3au8, 0x2fu8, 0x2fu8]
}

/// The bytes of `https://`.
pub open spec fn https_prefix() -> Seq<u8> {
    seq![0x68u8, 0x74u8, 0x74u8, 0x70u8, 0x73u8, 0x3au8, 0x2fu8, 0x2fu8]
}

/// Whether `s` begins with the bytes `p`.
pub open spec fn begins_with(s: Seq<u8>, p: Seq<u8>) -> bool {
    p.len() <= s.len() && s.subrange(0, p.len() as int) == p
}

/// Whether `s` begins with `http://` or `https://`.
pub open spec fn link_prefixed(s: Seq<u8>) -> bool {
    begins_with(s, http_prefix()) || begins_with(s, https_prefix())
}

/// Whether `http://` or `https://` occurs anywhere in `s`.
pub open spec fn contains_link(s: Seq<u8>) -> bool {
    exists|i: int| 0 <= i <= s.len() && link_prefixed(#[trigger] s.subrange(i, s.len() as int))
}

/// Whether one of the two link prefixes stands at offset `at` of `s`.
pub fn link_at(s: &[u8], at: usize) -> (r: bool)
    requires
        at <= s@.len(),
    ensures
        r == link_prefixed(s@.subrange(at as int, s@.len() as int)),
{
    let n = s.len() - at;
    let http = n >= 7 && s[at] == 0x68 && s[at + 1] == 0x74 && s[at + 2] == 0x74 && s[at + 3]
        == 0x70 && s[at + 4] == 0x3a && s[at + 5] == 0x2f && s[at + 6] == 0x2f;
    let https = n >= 8 && s[at] == 0x68 && s[at + 1] == 0x74 && s[at + 2] == 0x74 && s[at + 3]
        == 0x70 && s[at + 4] == 0x73 && s[at + 5] == 0x3a && s[at + 6] == 0x2f && s[at + 7]
        == 0x2f;
    proof {
        let t = s@.subrange(at as int, s@.len() as int);
        if http {
            assert(t.subrange(0, 7) =~= http_prefix());
        }
        if https {
            assert(t.subrange(0, 8) =~= https_prefix());
        }
        if begins_with(t, http_prefix()) {
            let h = t.subrange(0, 7);
            assert(h[0] == 0x68 && h[1] == 0x74 && h[2] == 0x74 && h[3] == 0x70 && h[4] == 0x3a
                && h[5] == 0x2f && h[6] == 0x2f);
        }
        if begins_with(t, https_prefix()) {
            let h = t.subrange(0, 8);
            assert(h[0] == 0x68 && h[1] == 0x74 && h[2] == 0x74 && h[3] == 0x70 && h[4] == 0x73
                && h[5] == 0x3a && h[6] == 0x2f && h[7] == 0x2f);
        }
    }
    http || https
}

/// Whether `s` begins with `http://` or `https://`.
pub fn starts_with_link(s: &[u8]) -> (r: bool)
    ensures
        r == link_prefixed(s@),
{
    proof {
        assert(s@.subrange(0, s@.len() as int) =~= s@);
    }
    link_at(s, 0)
}

/// Whether `http://` or `https://` occurs anywhere in `s`.
pub fn has_link_bytes(s: &[u8]) -> (r: bool)
    ensures
        r == contains_link(s@),
{
    let mut i: usize = 0;
    while i < s.len()
        invariant
            i <= s@.len(),
            forall|j: int| 0 <= j < i ==> !link_prefixed(#[trigger] s@.subrange(j, s@.len() as int)),
        decreases s@.len() - i,
    {
        if link_at(s, i) {
            return true;
        }
        i += 1;
    }
    proof {
        assert(!link_prefixed(s@.subrange(s@.len() as int, s@.len() as int)));
    }
    false
}

proof fn lemma_run_end_shape(s: Seq<u8>, i: int)
    requires
        0 <= i <= s.len(),
    ensures
        i <= run_end(s, i) <= s.len(),
        run_end(s, i) == s.len() || ws_byte(s[run_end(s, i)]),
    decreases s.len() - i,
{
    if i < s.len() && !ws_byte(s[i]) {
        lemma_run_end_shape(s, i + 1);
    }
}

proof fn lemma_spans_shape(s: Seq<u8>, i: int, k: int)
    requires
        0 <= i,
        0 <= k < spans_from(s, i).len(),
    ensures
        token_start(s, spans_from(s, i)[k].0),
        spans_from(s, i)[k].1 == run_end(s, spans_from(s, i)[k].0),
    decreases s.len() - i,
{
    if i < s.len() {
        if token_start(s, i) {
            if k > 0 {
                lemma_spans_shape(s, i + 1, k - 1);
            }
        } else {
            lemma_spans_shape(s, i + 1, k);
        }
    }
}

/// In valid UTF-8 a character starts right after every ASCII byte.
proof fn lemma_boundary_after_ascii(b: Seq<u8>, i: int)
    requires
        valid_utf8(b),
        0 < i <= b.len(),
        b[i - 1] < 0x80,
    ensures
        is_char_boundary(b, i),
{
    if i == b.len() {
        vstd::utf8::is_char_boundary_start_end_of_seq(b);
    } else {
        vstd::utf8::is_char_boundary_iff_not_is_continuation_byte(b, i - 1);
        vstd::utf8::valid_utf8_split(b, i - 1);
        let tail = b.subrange(i - 1, b.len() as int);
        assert(valid_utf8(tail));
        assert(tail[0] == b[i - 1]);
        assert(length_of_first_scalar(tail) == 1);
        let rest = pop_first_scalar(tail);
        assert(rest =~= b.subrange(i, b.len() as int));
        assert(valid_utf8(rest));
        assert(rest.len() > 0);
        assert(valid_first_scalar(rest));
        assert(rest[0] == b[i]);
        assert(!is_continuation_byte(b[i]));
        vstd::utf8::is_char_boundary_iff_not_is_continuation_byte(b, i);
    }
}

/// In valid UTF-8 a character starts at every ASCII byte and at the end.
proof fn lemma_boundary_at_ascii(b: Seq<u8>, i: int)
    requires
        valid_utf8(b),
        0 <= i <= b.len(),
        i == b.len() || b[i] < 0x80,
    ensures
        is_char_boundary(b, i),
{
    if i == b.len() {
        vstd::utf8::is_char_boundary_start_end_of_seq(b);
    } else {
        vstd::utf8::is_char_boundary_iff_not_is_continuation_byte(b, i);
    }
}

/// A piece of valid UTF-8 that starts and ends where a byte that is not
/// kept, or nothing at all, stands next to it: both ends are character
/// boundaries.
proof fn lemma_piece_boundaries(b: Seq<u8>, a: int, e: int)
    requires
        valid_utf8(b),
        0 <= a <= e <= b.len(),
        a == 0 || b[a - 1] < 0x80,
        e == b.len() || b[e] < 0x80,
    ensures
        is_char_boundary(b, a),
        is_char_boundary(b, e),
{
    if a == 0 {
        vstd::utf8::is_char_boundary_start_end_of_seq(b);
    } else {
        lemma_boundary_after_ascii(b, a);
    }
    lemma_boundary_at_ascii(b, e);
}

/// A character boundary of valid UTF-8 is also one of every prefix that
/// reaches it, and the bytes between two boundaries are valid UTF-8.
proof fn lemma_piece_is_text(b: Seq<u8>, a: int, e: int)
    requires
        valid_utf8(b),
        0 <= a <= e <= b.len(),
        is_char_boundary(b, a),
        is_char_boundary(b, e),
    ensures
        valid_utf8(b.subrange(0, e)),
        is_char_boundary(b.subrange(0, e), a),
        valid_utf8(b.subrange(a, e)),
{
    vstd::utf8::valid_utf8_split(b, e);
    let p = b.subrange(0, e);
    if a == e || a == 0 {
        vstd::utf8::is_char_boundary_start_end_of_seq(p);
    } else {
        vstd::utf8::is_char_boundary_iff_not_is_continuation_byte(b, a);
        assert(p[a] == b[a]);
        vstd::utf8::is_char_boundary_iff_not_is_continuation_byte(p, a);
    }
    vstd::utf8::valid_utf8_split(p, a);
    assert(p.subrange(a, p.len() as int) =~= b.subrange(a, e));
}

/// The trimmed form of valid UTF-8 is valid UTF-8.
pub proof fn lemma_trimmed_is_text(b: Seq<u8>)
    requires
        valid_utf8(b),
    ensures
        valid_utf8(trimmed(b)),
{
    lemma_drop_left_shape(b);
    let l = drop_left(b);
    lemma_drop_right_shape(l);
    let n = b.len() - l.len();
    let m = n + drop_right(l).len();
    assert(l.subrange(0, m - n) =~= b.subrange(n, m));
    if m - n < l.len() {
        assert(l[m - n] == b[m]);
    }
    lemma_piece_boundaries(b, n, m);
    lemma_piece_is_text(b, n, m);
}

/// The raw tokens of a byte string: its maximal runs of non-whitespace bytes.
pub open spec fn raw_tokens(b: Seq<u8>) -> Seq<Seq<u8>> {
    Seq::new(token_spans(b).len(), |k: int| b.subrange(token_spans(b)[k].0, token_spans(b)[k].1))
}

/// The raw tokens of a text, in order.
pub open spec fn tokens_of(text: Seq<char>) -> Seq<Seq<char>> {
    Seq::new(
        raw_tokens(encode_utf8(text)).len(),
        |k: int| decode_utf8(raw_tokens(encode_utf8(text))[k]),
    )
}

/// A token without the ASCII punctuation at its two ends.
pub open spec fn trim_edges(t: Seq<char>) -> Seq<char> {
    decode_utf8(trimmed(encode_utf8(t)))
}

/// The views of a vector of string slices.
pub open spec fn strs_view(v: Seq<&str>) -> Seq<Seq<char>> {
    Seq::new(v.len(), |k: int| v[k]@)
}

/// Every raw token of a text is a non-empty piece of it between two
/// character boundaries, and so is text itself.
pub proof fn lemma_tokens_are_text(text: Seq<char>, k: int)
    requires
        0 <= k < token_spans(encode_utf8(text)).len(),
    ensures
        ({
            let b = encode_utf8(text);
            let span = token_spans(b)[k];
            &&& 0 <= span.0 < span.1 <= b.len()
            &&& is_char_boundary(b, span.0)
            &&& is_char_boundary(b, span.1)
            &&& valid_utf8(raw_tokens(b)[k])
            &&& encode_utf8(tokens_of(text)[k]) == raw_tokens(b)[k]
        }),
{
    let b = encode_utf8(text);
    vstd::utf8::encode_utf8_valid_utf8(text);
    let span = token_spans(b)[k];
    lemma_spans_shape(b, 0, k);
    lemma_run_end_shape(b, span.0);
    lemma_piece_boundaries(b, span.0, span.1);
    lemma_piece_is_text(b, span.0, span.1);
    vstd::utf8::decode_utf8_encode_utf8(raw_tokens(b)[k]);
}

/// The bytes of a trimmed token are the trimmed bytes of the token.
pub proof fn lemma_trim_edges_bytes(t: Seq<char>)
    ensures
        encode_utf8(trim_edges(t)) == trimmed(encode_utf8(t)),
{
    vstd::utf8::encode_utf8_valid_utf8(t);
    lemma_trimmed_is_text(encode_utf8(t));
    vstd::utf8::decode_utf8_encode_utf8(trimmed(encode_utf8(t)));
}

/// Trimming a trimmed token changes nothing.
pub proof fn lemma_trim_edges_idempotent(t: Seq<char>)
    ensures
        trim_edges(trim_edges(t)) == trim_edges(t),
{
    lemma_trim_edges_bytes(t);
    lemma_trim_idempotent(encode_utf8(t));
}

/// The piece of `s` between two character boundaries, given as byte offsets.
fn piece<'a>(s: &'a str, from: usize, to: usize) -> (r: &'a str)
    requires
        from <= to <= encode_utf8(s@).len(),
        is_char_boundary(encode_utf8(s@), from as int),
        is_char_boundary(encode_utf8(s@), to as int),
    ensures
        encode_utf8(r@) == encode_utf8(s@).subrange(from as int, to as int),
        r@ == decode_utf8(encode_utf8(s@).subrange(from as int, to as int)),
{
    proof {
        vstd::utf8::encode_utf8_valid_utf8(s@);
        lemma_piece_is_text(encode_utf8(s@), from as int, to as int);
    }
    let halves = s.split_at(to);
    let head = halves.0;
    proof {
        assert(encode_utf8(head@) =~= encode_utf8(s@).subrange(0, to as int));
    }
    let parts = head.split_at(from);
    let r = parts.1;
    proof {
        assert(encode_utf8(r@) =~= encode_utf8(s@).subrange(from as int, to as int));
        vstd::utf8::encode_utf8_decode_utf8(r@);
    }
    r
}

/// Strips ASCII punctuation from both ends of `s`; bytes with the high bit
/// set count as part of the word, so no character outside ASCII is ever cut.
pub fn trim_ascii_punct<'a>(s: &'a str) -> (r: &'a str)
    ensures
        r@ == trim_edges(s@),
        encode_utf8(r@) == trimmed(encode_utf8(s@)),
        trim_edges(r@) == r@,
{
    let bytes = s.as_bytes();
    let span = trim_span(bytes);
    proof {
        vstd::utf8::encode_utf8_valid_utf8(s@);
        lemma_piece_boundaries(encode_utf8(s@), span.0 as int, span.1 as int);
        lemma_trim_edges_idempotent(s@);
    }
    piece(s, span.0, span.1)
}

/// Cuts `text` at ASCII whitespace into its raw tokens, in order; no token
/// is empty.
pub fn fast_tokenize<'a>(text: &'a str) -> (out: Vec<&'a str>)
    ensures
        strs_view(out@) == tokens_of(text@),
        forall|k: int| 0 <= k < out@.len() ==> (#[trigger] out@[k])@.len() > 0,
{
    let bytes = text.as_bytes();
    let spans = scan_spans(bytes);
    let mut out: Vec<&'a str> = Vec::new();
    let mut k: usize = 0;
    while k < spans.len()
        invariant
            k <= spans@.len(),
            bytes@ == encode_utf8(text@),
            span_view(spans@) == token_spans(bytes@),
            out@.len() == k,
            forall|j: int| 0 <= j < k ==> (#[trigger] out@[j])@ == tokens_of(text@)[j],
            forall|j: int| 0 <= j < k ==> (#[trigger] out@[j])@.len() > 0,
        decreases spans@.len() - k,
    {
        let span = spans[k];
        proof {
            assert(span_view(spans@)[k as int] == (span.0 as int, span.1 as int));
            lemma_tokens_are_text(text@, k as int);
        }
        let token = piece(text, span.0, span.1);
        proof {
            assert(encode_utf8(token@).len() > 0);
            assert(token@.len() > 0) by {
                if token@.len() == 0 {
                    assert(token@ =~= Seq::<char>::empty());
                    assert(encode_utf8(Seq::<char>::empty()).len() == 0);
                }
            }
        }
        out.push(token);
        k += 1;
    }
    proof {
        assert(span_view(spans@).len() == spans@.len());
        assert(strs_view(out@) =~= tokens_of(text@));
    }
    out
}

} // verus!
