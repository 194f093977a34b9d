//! The running statistics and the fold of one message into them.

use crate::message::{
    author_of, classification_of, classify, has_text, Classification, Message,
};
use crate::tally::{
    bumped, bumped_in, empty_ledger, empty_table, ledger_bump, ledger_new, ledger_of, next_count,
    step, tally_bump, tally_new, tally_of,
};
use crate::text::{build_full_text, joined, segments, segments_of, TextField};
use crate::token::{
    fast_tokenize, link_prefixed, starts_with_link, strs_view, tokens_of, trim_ascii_punct,
    trim_edges,
};
use ahash::AHashMap;
use vstd::prelude::*;
use vstd::utf8::encode_utf8;

verus! {

/// The lower-case form that `str::to_lowercase` gives a text.
pub uninterp spec fn lowercased(s: Seq<char>) -> Seq<char>;

/// What `str::trim` leaves of a text.
pub uninterp spec fn trimmed_text(s: Seq<char>) -> Seq<char>;

/// The hour of day and the day of month of the date-time that `s` spells in
/// the format `fmt`, or `None` when `s` does not spell one.
pub uninterp spec fn hour_and_day(s: Seq<char>, fmt: Seq<char>) -> Option<(u32, u32)>;

/// `str::to_lowercase`: the lower-case form of the text, by Unicode's
/// default case mapping (not only ASCII letters).
pub assume_specification[ str::to_lowercase ](s: &str) -> (r: String)
    ensures
        r@ == lowercased(s@),
;

/// `str::trim`: the text without leading and trailing Unicode whitespace.
pub assume_specification[ str::trim ](s: &str) -> (r: &str)
    ensures
        r@ == trimmed_text(s@),
;

/// `chrono::NaiveDateTime::parse_from_str`, then `hour` and `day` of what it
/// read: both numbers when `s` parses in the format `fmt`, nothing otherwise.
#[verifier::external_body]
fn read_hour_day(s: &str, fmt: &str) -> (r: Option<(u32, u32)>)
    ensures
        r == hour_and_day(s@, fmt@),
{
    match chrono::NaiveDateTime::parse_from_str(s, fmt) {
        Ok(dt) => Some((chrono::Timelike::hour(&dt), chrono::Datelike::day(&dt))),
        Err(_) => None,
    }
}

/// The aggregate that one pass over a chat builds up.
pub struct Stats {
    pub chat_name: String,
    pub total_messages: usize,
    pub messages_with_any_media: usize,
    pub photo_messages: usize,
    pub video_messages: usize,
    pub voice_messages: usize,
    pub audio_messages: usize,
    pub gif_messages: usize,
    pub sticker_messages: usize,
    pub file_messages: usize,
    pub poll_messages: usize,
    pub forwarded_messages: usize,
    pub link_messages: usize,
    /// Messages per author.
    pub per_author: AHashMap<String, usize>,
    /// Occurrences per lower-cased word.
    pub word_freq: AHashMap<String, usize>,
    /// Occurrences per lower-cased word, for each author.
    pub word_freq_per_author: AHashMap<String, AHashMap<String, usize>>,
    /// Messages per hour of day.
    pub hour_hist: [usize; 24],
    /// Messages per day of month; bucket 0 stays unused.
    pub day_hist: [usize; 32],
    /// Repeats per normalized message text, for each author.
    pub spam_map: AHashMap<String, AHashMap<String, usize>>,
}

/// The two word tables, which always change together.
pub struct Words {
    pub all: Map<Seq<char>, usize>,
    pub by_author: Map<Seq<char>, Map<Seq<char>, usize>>,
}

/// The mathematical content of a [`Stats`].
#[verifier::ext_equal]
pub struct StatsView {
    pub chat_name: Seq<char>,
    pub total_messages: usize,
    pub messages_with_any_media: usize,
    pub photo_messages: usize,
    pub video_messages: usize,
    pub voice_messages: usize,
    pub audio_messages: usize,
    pub gif_messages: usize,
    pub sticker_messages: usize,
    pub file_messages: usize,
    pub poll_messages: usize,
    pub forwarded_messages: usize,
    pub link_messages: usize,
    pub per_author: Map<Seq<char>, usize>,
    pub word_freq: Map<Seq<char>, usize>,
    pub word_freq_per_author: Map<Seq<char>, Map<Seq<char>, usize>>,
    pub hour_hist: Seq<usize>,
    pub day_hist: Seq<usize>,
    pub spam_map: Map<Seq<char>, Map<Seq<char>, usize>>,
}

impl StatsView {
    pub open spec fn words(self) -> Words {
        Words { all: self.word_freq, by_author: self.word_freq_per_author }
    }

    pub open spec fn with_words(self, w: Words) -> StatsView {
        StatsView { word_freq: w.all, word_freq_per_author: w.by_author, ..self }
    }

    pub open spec fn with_spam(self, m: Map<Seq<char>, Map<Seq<char>, usize>>) -> StatsView {
        StatsView { spam_map: m, ..self }
    }
}

impl View for Stats {
    type V = StatsView;

    open spec fn view(&self) -> StatsView {
        StatsView {
            chat_name: self.chat_name@,
            total_messages: self.total_messages,
            messages_with_any_media: self.messages_with_any_media,
            photo_messages: self.photo_messages,
            video_messages: self.video_messages,
            voice_messages: self.voice_messages,
            audio_messages: self.audio_messages,
            gif_messages: self.gif_messages,
            sticker_messages: self.sticker_messages,
            file_messages: self.file_messages,
            poll_messages: self.poll_messages,
            forwarded_messages: self.forwarded_messages,
            link_messages: self.link_messages,
            per_author: tally_of(self.per_author),
            word_freq: tally_of(self.word_freq),
            word_freq_per_author: ledger_of(self.word_freq_per_author),
            hour_hist: self.hour_hist@,
            day_hist: self.day_hist@,
            spam_map: ledger_of(self.spam_map),
        }
    }
}

/// The statistics of a chat of which nothing was counted yet.
pub open spec fn fresh(chat_name: Seq<char>) -> StatsView {
    StatsView {
        chat_name,
        total_messages: 0,
        messages_with_any_media: 0,
        photo_messages: 0,
        video_messages: 0,
        voice_messages: 0,
        audio_messages: 0,
        gif_messages: 0,
        sticker_messages: 0,
        file_messages: 0,
        poll_messages: 0,
        forwarded_messages: 0,
        link_messages: 0,
        per_author: empty_table(),
        word_freq: empty_table(),
        word_freq_per_author: empty_ledger(),
        hour_hist: Seq::new(24, |i: int| 0usize),
        day_hist: Seq::new(32, |i: int| 0usize),
        spam_map: empty_ledger(),
    }
}

/// The key under which a trimmed token is counted: its lower-case form,
/// unless the token is shorter than three bytes, begins with a link prefix,
/// or has an empty lower-case form.
pub open spec fn word_key(tok: Seq<char>) -> Option<Seq<char>> {
    if encode_utf8(tok).len() >= 3 && !link_prefixed(encode_utf8(tok)) && lowercased(tok).len()
        > 0 {
        Some(lowercased(tok))
    } else {
        None
    }
}

/// The word tables with the key `k` counted once more for `author`.
pub open spec fn with_key(w: Words, author: Seq<char>, k: Seq<char>) -> Words {
    Words { all: bumped(w.all, k), by_author: bumped_in(w.by_author, author, k) }
}

/// The word tables after one trimmed token of `author` was looked at.
pub open spec fn count_word(w: Words, author: Seq<char>, tok: Seq<char>) -> Words {
    match word_key(tok) {
        Some(k) => with_key(w, author, k),
        None => w,
    }
}

/// The word tables after the raw tokens `toks` were trimmed and looked at,
/// in order.
pub open spec fn count_tokens(w: Words, author: Seq<char>, toks: Seq<Seq<char>>) -> Words
    decreases toks.len(),
{
    if toks.len() == 0 {
        w
    } else {
        count_word(count_tokens(w, author, toks.drop_last()), author, trim_edges(toks.last()))
    }
}

/// The word tables after every token of one segment was looked at.
pub open spec fn count_segment(w: Words, author: Seq<char>, seg: Seq<char>) -> Words {
    count_tokens(w, author, tokens_of(seg))
}

/// The word tables after every token of every segment was looked at, in order.
pub open spec fn count_segments(w: Words, author: Seq<char>, segs: Seq<Seq<char>>) -> Words
    decreases segs.len(),
{
    if segs.len() == 0 {
        w
    } else {
        count_segment(count_segments(w, author, segs.drop_last()), author, segs.last())
    }
}

/// The whole text of a message as the duplicate detector sees it: the
/// segments glued together, trimmed and lower-cased.
pub open spec fn normalized(segs: Seq<Seq<char>>) -> Seq<char> {
    lowercased(trimmed_text(joined(segs)))
}

/// The duplicate table after one message of `author` whose normalized
/// text is `norm`: a text under five bytes leaves it as it is.
pub open spec fn noted_text(
    m: Map<Seq<char>, Map<Seq<char>, usize>>,
    author: Seq<char>,
    norm: Seq<char>,
) -> Map<Seq<char>, Map<Seq<char>, usize>> {
    if encode_utf8(norm).len() >= 5 {
        bumped_in(m, author, norm)
    } else {
        m
    }
}

/// The duplicate table after one message of `author` with the segments `segs`.
pub open spec fn noted(
    m: Map<Seq<char>, Map<Seq<char>, usize>>,
    author: Seq<char>,
    segs: Seq<Seq<char>>,
) -> Map<Seq<char>, Map<Seq<char>, usize>> {
    noted_text(m, author, normalized(segs))
}

/// A counter one step on if `b` holds, unchanged otherwise.
pub open spec fn bump_if(b: bool, c: usize) -> usize {
    if b {
        next_count(c)
    } else {
        c
    }
}

/// The statistics after the hour and day of one message were recorded: the
/// hour counts when it is below 24, the day when it is from 1 to 31.
pub open spec fn with_activity(v: StatsView, when: Option<(u32, u32)>) -> StatsView {
    match when {
        Some((h, d)) => StatsView {
            hour_hist: if h < 24 {
                v.hour_hist.update(h as int, next_count(v.hour_hist[h as int]))
            } else {
                v.hour_hist
            },
            day_hist: if 1 <= d <= 31 {
                v.day_hist.update(d as int, next_count(v.day_hist[d as int]))
            } else {
                v.day_hist
            },
            ..v
        },
        None => v,
    }
}

/// The statistics after the media flags of one message were counted.
pub open spec fn with_media(v: StatsView, c: Classification) -> StatsView {
    StatsView {
        photo_messages: bump_if(c.photo, v.photo_messages),
        voice_messages: bump_if(c.voice, v.voice_messages),
        video_messages: bump_if(c.video, v.video_messages),
        audio_messages: bump_if(c.audio, v.audio_messages),
        gif_messages: bump_if(c.animation, v.gif_messages),
        sticker_messages: bump_if(c.sticker, v.sticker_messages),
        file_messages: bump_if(c.bare_file, v.file_messages),
        poll_messages: bump_if(c.poll, v.poll_messages),
        messages_with_any_media: bump_if(c.any_media(), v.messages_with_any_media),
        ..v
    }
}

/// The format in which the export writes its dates.
pub open spec fn date_format() -> Seq<char> {
    "%Y-%m-%dT%H:%M:%S"@
}

/// The hour and day that the date field of a message spells, if any.
pub open spec fn date_reading(msg: Message) -> Option<(u32, u32)> {
    match msg.date {
        Some(d) => hour_and_day(d@, date_format()),
        None => None,
    }
}

/// The statistics after the author, the forward mark and the link mark of
/// one message were counted.
pub open spec fn with_header(v: StatsView, msg: Message) -> StatsView {
    StatsView {
        total_messages: next_count(v.total_messages),
        per_author: bumped(v.per_author, author_of(msg)),
        forwarded_messages: bump_if(classification_of(msg).forwarded, v.forwarded_messages),
        link_messages: bump_if(
            has_text(msg) && classification_of(msg).has_link,
            v.link_messages,
        ),
        ..v
    }
}

/// The statistics after the words and the whole text of one message were
/// counted; a message without usable text changes nothing.
pub open spec fn with_text(v: StatsView, msg: Message) -> StatsView {
    if has_text(msg) {
        let segs = segments_of(msg.text.unwrap());
        v.with_words(count_segments(v.words(), author_of(msg), segs)).with_spam(
            noted(v.spam_map, author_of(msg), segs),
        )
    } else {
        v
    }
}

/// The statistics after one message was folded in.
pub open spec fn folded(v: StatsView, msg: Message, extended: bool) -> StatsView {
    let head = with_header(v, msg);
    let body = if extended {
        with_text(with_activity(head, date_reading(msg)), msg)
    } else {
        head
    };
    with_media(body, classification_of(msg))
}

/// A token that begins with `http://` or `https://` is never counted as a
/// word, in neither word table, however long it is.
pub proof fn lemma_links_never_counted(w: Words, author: Seq<char>, tok: Seq<char>)
    requires
        link_prefixed(encode_utf8(tok)),
    ensures
        count_word(w, author, tok) == w,
{
}

/// A message whose normalized text is shorter than five bytes leaves the
/// duplicate table as it is; any longer one adds one to its author's count
/// for that text.
pub proof fn lemma_short_text_not_noted(
    m: Map<Seq<char>, Map<Seq<char>, usize>>,
    author: Seq<char>,
    segs: Seq<Seq<char>>,
)
    ensures
        encode_utf8(normalized(segs)).len() < 5 ==> noted(m, author, segs) == m,
        encode_utf8(normalized(segs)).len() >= 5 ==> noted(m, author, segs) == bumped_in(
            m,
            author,
            normalized(segs),
        ),
        forall|a: Seq<char>| a != author ==> (noted(m, author, segs).contains_key(a) == m.contains_key(a)),
{
}

impl Default for Stats {
    /// Statistics of a chat without a name and with nothing counted.
    fn default() -> (s: Stats)
        ensures
            s@ == fresh(Seq::empty()),
    {
        Stats::new(String::new())
    }
}

impl Stats {
    /// Statistics of a chat with the given name and nothing counted.
    pub fn new(chat_name: String) -> (s: Stats)
        ensures
            s@ == fresh(chat_name@),
    {
        let s = Stats {
            chat_name,
            total_messages: 0,
            messages_with_any_media: 0,
            photo_messages: 0,
            video_messages: 0,
            voice_messages: 0,
            audio_messages: 0,
            gif_messages: 0,
            sticker_messages: 0,
            file_messages: 0,
            poll_messages: 0,
            forwarded_messages: 0,
            link_messages: 0,
            per_author: tally_new(),
            word_freq: tally_new(),
            word_freq_per_author: ledger_new(),
            hour_hist: [0usize; 24],
            day_hist: [0usize; 32],
            spam_map: ledger_new(),
        };
        proof {
            assert(s@.hour_hist =~= fresh(chat_name@).hour_hist);
            assert(s@.day_hist =~= fresh(chat_name@).day_hist);
            assert(s@ =~= fresh(chat_name@));
        }
        s
    }

    /// Looks at one raw token of `author`: trims it and, if it passes the
    /// filters, counts its lower-case form in both word tables. The
    /// lower-case form follows Unicode's case mapping, not only ASCII's.
    pub fn count_token(&mut self, author: &str, raw: &str)
        ensures
            final(self)@ == old(self)@.with_words(
                count_word(old(self)@.words(), author@, trim_edges(raw@)),
            ),
    {
        let token = trim_ascii_punct(raw);
        let bytes = token.as_bytes();
        if bytes.len() >= 3 && !starts_with_link(bytes) {
            let lower = token.to_lowercase();
            self.count_key(author, lower.as_str());
        }
        proof {
            assert(self@ =~= old(self)@.with_words(
                count_word(old(self)@.words(), author@, trim_edges(raw@)),
            ));
        }
    }

    /// Counts the lower-case form `key` of a token of `author` in both
    /// word tables; an empty key is passed over.
    pub fn count_key(&mut self, author: &str, key: &str)
        ensures
            final(self)@ == old(self)@.with_words(
                if key@.len() > 0 {
                    with_key(old(self)@.words(), author@, key@)
                } else {
                    old(self)@.words()
                },
            ),
    {
        if !key.is_empty() {
            tally_bump(&mut self.word_freq, key);
            ledger_bump(&mut self.word_freq_per_author, author, key);
        }
        proof {
            assert(self@ =~= old(self)@.with_words(
                if key@.len() > 0 {
                    with_key(old(self)@.words(), author@, key@)
                } else {
                    old(self)@.words()
                },
            ));
        }
    }

    /// Counts the words of every segment of `text` for `author`.
    pub fn update_word_stats(&mut self, author: &str, text: &TextField)
        ensures
            final(self)@ == old(self)@.with_words(
                count_segments(old(self)@.words(), author@, segments_of(*text)),
            ),
    {
        let ghost start = self@;
        let segs = segments(text);
        let mut i: usize = 0;
        proof {
            assert(strs_view(segs@).subrange(0, 0) =~= Seq::<Seq<char>>::empty());
            assert(self@ =~= start.with_words(start.words()));
        }
        while i < segs.len()
            invariant
                i <= segs@.len(),
                strs_view(segs@) == segments_of(*text),
                self@ == start.with_words(
                    count_segments(start.words(), author@, strs_view(segs@).subrange(0, i as int)),
                ),
            decreases segs@.len() - i,
        {
            let toks = fast_tokenize(segs[i]);
            let ghost base = self@;
            let mut j: usize = 0;
            proof {
                assert(strs_view(toks@).subrange(0, 0) =~= Seq::<Seq<char>>::empty());
                assert(self@ =~= base.with_words(base.words()));
            }
            while j < toks.len()
                invariant
                    j <= toks@.len(),
                    self@ == base.with_words(
                        count_tokens(
                            base.words(),
                            author@,
                            strs_view(toks@).subrange(0, j as int),
                        ),
                    ),
                decreases toks@.len() - j,
            {
                self.count_token(author, toks[j]);
                proof {
                    let done = strs_view(toks@).subrange(0, j + 1);
                    assert(done.drop_last() =~= strs_view(toks@).subrange(0, j as int));
                    assert(done.last() == toks@[j as int]@);
                    assert(self@ =~= base.with_words(
                        count_tokens(base.words(), author@, done),
                    ));
                }
                j += 1;
            }
            proof {
                assert(strs_view(toks@).subrange(0, toks@.len() as int) =~= strs_view(toks@));
                let done = strs_view(segs@).subrange(0, i + 1);
                assert(done.drop_last() =~= strs_view(segs@).subrange(0, i as int));
                assert(done.last() == segs@[i as int]@);
                assert(self@ =~= start.with_words(
                    count_segments(start.words(), author@, done),
                ));
            }
            i += 1;
        }
        proof {
            assert(strs_view(segs@).subrange(0, segs@.len() as int) =~= strs_view(segs@));
        }
    }

    /// Records the whole text of one message of `author` in the duplicate
    /// table, unless its normalized form is shorter than five bytes.
    pub fn track_spam(&mut self, author: &str, text: &TextField)
        ensures
            final(self)@ == old(self)@.with_spam(
                noted(old(self)@.spam_map, author@, segments_of(*text)),
            ),
    {
        let full = build_full_text(text);
        let norm = full.as_str().trim().to_lowercase();
        self.note_text(author, norm.as_str());
    }

    /// Records the normalized text `norm` of one message of `author` in the
    /// duplicate table, unless it is shorter than five bytes.
    pub fn note_text(&mut self, author: &str, norm: &str)
        ensures
            final(self)@ == old(self)@.with_spam(noted_text(old(self)@.spam_map, author@, norm@)),
    {
        if norm.as_bytes().len() >= 5 {
            ledger_bump(&mut self.spam_map, author, norm);
        }
        proof {
            assert(self@ =~= old(self)@.with_spam(
                noted_text(old(self)@.spam_map, author@, norm@),
            ));
        }
    }

    /// Records the hour of day and day of month that a date was read as.
    pub fn record_activity(&mut self, when: Option<(u32, u32)>)
        ensures
            final(self)@ == with_activity(old(self)@, when),
    {
        match when {
            Some((h, d)) => {
                if h < 24 {
                    let at = h as usize;
                    self.hour_hist[at] = step(self.hour_hist[at]);
                }
                if 1 <= d && d <= 31 {
                    let at = d as usize;
                    self.day_hist[at] = step(self.day_hist[at]);
                }
            },
            None => {},
        }
        proof {
            assert(self@ =~= with_activity(old(self)@, when));
        }
    }

    /// Counts the media flags of one message.
    pub fn apply_media(&mut self, c: &Classification)
        ensures
            final(self)@ == with_media(old(self)@, *c),
    {
        if c.photo {
            self.photo_messages = step(self.photo_messages);
        }
        if c.voice {
            self.voice_messages = step(self.voice_messages);
        }
        if c.video {
            self.video_messages = step(self.video_messages);
        }
        if c.audio {
            self.audio_messages = step(self.audio_messages);
        }
        if c.animation {
            self.gif_messages = step(self.gif_messages);
        }
        if c.sticker {
            self.sticker_messages = step(self.sticker_messages);
        }
        if c.bare_file {
            self.file_messages = step(self.file_messages);
        }
        if c.poll {
            self.poll_messages = step(self.poll_messages);
        }
        if c.has_any_media() {
            self.messages_with_any_media = step(self.messages_with_any_media);
        }
        proof {
            assert(self@ =~= with_media(old(self)@, *c));
        }
    }

    /// Folds one message into the statistics. With `extended` off, the
    /// histograms, the word tables and the duplicate table stay as they are.
    pub fn fold(&mut self, msg: &Message, extended: bool)
        ensures
            final(self)@ == folded(old(self)@, *msg, extended),
    {
        let c = classify(msg);
        let author = msg.author();
        let has_text = msg.has_usable_text();
        self.total_messages = step(self.total_messages);
        tally_bump(&mut self.per_author, author);
        if c.forwarded {
            self.forwarded_messages = step(self.forwarded_messages);
        }
        if has_text && c.has_link {
            self.link_messages = step(self.link_messages);
        }
        proof {
            assert(self@ =~= with_header(old(self)@, *msg));
        }
        if extended {
            let when = match &msg.date {
                Some(d) => read_hour_day(d.as_str(), "%Y-%m-%dT%H:%M:%S"),
                None => None,
            };
            self.record_activity(when);
            if has_text {
                match &msg.text {
                    Some(t) => {
                        self.update_word_stats(author, t);
                        self.track_spam(author, t);
                    },
                    None => {},
                }
            }
            proof {
                assert(self@ =~= with_text(
                    with_activity(with_header(old(self)@, *msg), date_reading(*msg)),
                    *msg,
                ));
            }
        }
        self.apply_media(&c);
    }
}

} // verus!
