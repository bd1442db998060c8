//! Turning recognition results into subtitle cues: which service a model
//! uses, the cues written to the partial subtitle file while recognition
//! runs, the timing of Qwen's items, Fun-ASR's final sentences, and the
//! states of a file transcription task.
use vstd::prelude::*;

use base64::Engine;

use crate::asr::{is_fun_asr_filetrans_model, is_fun_asr_realtime_model, is_qwen_asr_filetrans_model, is_qwen_asr_flash_model};
use crate::filetrans::{timed_tokens_from_filetrans_words, word_tokens_spec, FileTranscriptionWord};
use crate::reflow::{
    align_spec, align_timed_tokens_to_sentence_text, sentences_view, split_fits, split_sentence_checked,
    split_spec, tokens_view, RealtimeSentence, SentenceView,
    TimedSubtitleToken, TokenView,
};
use crate::text::{chars_eq, chars_of, is_blank, str_eq, string_from_chars, trim, trim_chars};

verus! {

/// The way a model's speech is recognised.
#[derive(Clone, Copy, Debug, PartialEq, Eq)]
pub enum AsrRoute {
    /// Fun-ASR over a realtime websocket.
    FunAsrRealtime,
    /// Qwen over a realtime websocket.
    QwenRealtime,
    /// A file transcription task of DashScope.
    Filetrans,
    /// An OpenAI-compatible transcription request.
    OpenAiTranscription,
}

/// The way a model is used, tested in this order: Fun-ASR realtime, Qwen
/// realtime, the file transcription models, else an OpenAI-compatible
/// request.
pub open spec fn asr_route_spec(model: Seq<char>) -> AsrRoute {
    if model == "fun-asr-realtime"@ {
        AsrRoute::FunAsrRealtime
    } else if model == "qwen3-asr-flash-realtime"@ || model == "qwen-asr-realtime"@ {
        AsrRoute::QwenRealtime
    } else if model == "fun-asr-filetrans"@ || model == "fun-asr"@ || model
        == "qwen3-asr-flash-filetrans"@ {
        AsrRoute::Filetrans
    } else {
        AsrRoute::OpenAiTranscription
    }
}

/// Chooses how a model's speech is recognised.
pub fn select_asr_route(model: &str) -> (r: AsrRoute)
    ensures
        r == asr_route_spec(model@),
{
    if is_fun_asr_realtime_model(model) {
        AsrRoute::FunAsrRealtime
    } else if is_qwen_asr_flash_model(model) {
        AsrRoute::QwenRealtime
    } else if is_fun_asr_filetrans_model(model) || is_qwen_asr_filetrans_model(model) {
        AsrRoute::Filetrans
    } else {
        AsrRoute::OpenAiTranscription
    }
}

/// `a + b` held within the range of `i64` (`i64::saturating_add`).
pub open spec fn sat_add(a: i64, b: i64) -> i64 {
    if a + b > i64::MAX {
        i64::MAX
    } else if a + b < i64::MIN {
        i64::MIN
    } else {
        (a + b) as i64
    }
}

/// `i64::saturating_add`.
pub fn saturating_add_i64(a: i64, b: i64) -> (r: i64)
    ensures
        r == sat_add(a, b),
{
    if a > 0 && b > i64::MAX - a {
        i64::MAX
    } else if a < 0 && b < i64::MIN - a {
        i64::MIN
    } else {
        a + b
    }
}

/// A cue of a subtitle file: its number, its span in milliseconds and its
/// text.
#[derive(Debug)]
pub struct SrtCue {
    pub index: usize,
    pub begin_ms: i64,
    pub end_ms: i64,
    pub text: String,
}

/// A sentence can be a cue: it has visible text and a positive span.
pub open spec fn cue_kept(text: Seq<char>, begin_ms: i64, end_ms: i64) -> bool {
    trim(text).len() > 0 && end_ms > begin_ms
}

/// Appends the cues of one recognition run to a partial subtitle file that
/// other runs may have started: cue numbers continue from `next_index`, and
/// times are shifted by where the run's audio starts.
#[derive(Debug)]
pub struct RealtimeSrtWriter {
    pub path: String,
    pub offset_ms: i64,
    pub next_index: usize,
}

impl RealtimeSrtWriter {
    /// A writer for `path` whose audio starts `offset_seconds` into the
    /// recording, numbering from `next_index`.
    pub fn new(path: &str, offset_seconds: u64, next_index: usize) -> (r: RealtimeSrtWriter)
        requires
            i64::MIN <= (offset_seconds as i64) * 1000 <= i64::MAX,
        ensures
            r.path@ == path@,
            r.offset_ms == (offset_seconds as i64) * 1000,
            r.next_index == next_index,
    {
        RealtimeSrtWriter {
            path: path.to_owned(),
            offset_ms: (offset_seconds as i64) * 1000,
            next_index,
        }
    }

    /// The cue to append for the run's sentence number `local_index` (from
    /// 0), if it can be one: numbered `next_index + local_index`, its times
    /// shifted by the offset (held within `i64`), its text trimmed.
    pub fn cue_for(&self, local_index: usize, begin_ms: i64, end_ms: i64, text: &str) -> (r: Option<SrtCue>)
        requires
            cue_kept(text@, begin_ms, end_ms) ==> self.next_index + local_index <= usize::MAX,
        ensures
            match r {
                Some(c) => {
                    &&& cue_kept(text@, begin_ms, end_ms)
                    &&& c.index == self.next_index + local_index
                    &&& c.begin_ms == sat_add(begin_ms, self.offset_ms)
                    &&& c.end_ms == sat_add(end_ms, self.offset_ms)
                    &&& c.text@ == trim(text@)
                },
                None => !cue_kept(text@, begin_ms, end_ms),
            },
    {
        let t = trim_chars(&chars_of(text));
        if t.len() == 0 || end_ms <= begin_ms {
            return None;
        }
        Some(
            SrtCue {
                index: self.next_index + local_index,
                begin_ms: saturating_add_i64(begin_ms, self.offset_ms),
                end_ms: saturating_add_i64(end_ms, self.offset_ms),
                text: string_from_chars(&t),
            },
        )
    }
}

/// The value of a cue: number, span, text.
pub open spec fn cue_view(c: SrtCue) -> (int, i64, i64, Seq<char>) {
    (c.index as int, c.begin_ms, c.end_ms, c.text@)
}

/// The cues of a whole run: each sentence that can be a cue, numbered by
/// its place among all the sentences (from 1), with its text trimmed.
pub open spec fn realtime_cues_spec(s: Seq<SentenceView>) -> Seq<(int, i64, i64, Seq<char>)>
    decreases s.len(),
{
    if s.len() == 0 {
        seq![]
    } else {
        let r = realtime_cues_spec(s.drop_last());
        let x = s.last();
        if cue_kept(x.text, x.begin_ms, x.end_ms) {
            r.push((s.len() as int, x.begin_ms, x.end_ms, trim(x.text)))
        } else {
            r
        }
    }
}

/// The number of sentences that can be cues.
pub open spec fn kept_count(s: Seq<SentenceView>) -> nat
    decreases s.len(),
{
    if s.len() == 0 {
        0
    } else {
        kept_count(s.drop_last()) + if cue_kept(s.last().text, s.last().begin_ms, s.last().end_ms) {
            1nat
        } else {
            0nat
        }
    }
}

/// There are as many cues as sentences that can be cues.
pub proof fn lemma_cue_count(s: Seq<SentenceView>)
    ensures
        realtime_cues_spec(s).len() == kept_count(s),
        kept_count(s) <= s.len(),
    decreases s.len(),
{
    if s.len() > 0 {
        lemma_cue_count(s.drop_last());
    }
}

/// The cues of a whole run (`qwen_realtime_sentences_to_srt` writes them
/// out).
pub fn realtime_srt_cues(sentences: &[RealtimeSentence]) -> (r: Vec<SrtCue>)
    requires
        sentences.len() < usize::MAX,
    ensures
        r@.map_values(|c: SrtCue| cue_view(c)) == realtime_cues_spec(sentences_view(sentences@)),
{
    let ghost sv = sentences_view(sentences@);
    let mut r: Vec<SrtCue> = Vec::new();
    let mut i: usize = 0;
    while i < sentences.len()
        invariant
            i <= sentences.len() < usize::MAX,
            sv == sentences_view(sentences@),
            r@.map_values(|c: SrtCue| cue_view(c)) == realtime_cues_spec(sv.take(i as int)),
        decreases sentences.len() - i,
    {
        assert(sv.take(i + 1).drop_last() =~= sv.take(i as int));
        assert(sv.take(i + 1).last() == sentences@[i as int]@);
        let s = &sentences[i];
        let t = trim_chars(&chars_of(s.text.as_str()));
        if t.len() > 0 && s.end_ms > s.begin_ms {
            r.push(
                SrtCue {
                    index: i + 1,
                    begin_ms: s.begin_ms,
                    end_ms: s.end_ms,
                    text: string_from_chars(&t),
                },
            );
            assert(r@.map_values(|c: SrtCue| cue_view(c)) =~= r@.drop_last().map_values(
                |c: SrtCue| cue_view(c),
            ).push(cue_view(r@.last())));
        }
        i = i + 1;
    }
    assert(sv.take(sentences.len() as int) =~= sv);
    r
}

/// How many of the sentences can be cues.
pub fn count_realtime_srt_sentences(sentences: &[RealtimeSentence]) -> (r: usize)
    ensures
        r == kept_count(sentences_view(sentences@)),
{
    let ghost sv = sentences_view(sentences@);
    let mut n: usize = 0;
    let mut i: usize = 0;
    while i < sentences.len()
        invariant
            i <= sentences.len(),
            sv == sentences_view(sentences@),
            n == kept_count(sv.take(i as int)),
            n <= i,
        decreases sentences.len() - i,
    {
        assert(sv.take(i + 1).drop_last() =~= sv.take(i as int));
        assert(sv.take(i + 1).last() == sentences@[i as int]@);
        let s = &sentences[i];
        if !is_blank(&chars_of(s.text.as_str())) && s.end_ms > s.begin_ms {
            n = n + 1;
        }
        i = i + 1;
    }
    assert(sv.take(sentences.len() as int) =~= sv);
    n
}

/// A copy of a token.
fn copy_token(t: &TimedSubtitleToken) -> (r: TimedSubtitleToken)
    ensures
        r@ == t@,
{
    TimedSubtitleToken { begin_ms: t.begin_ms, end_ms: t.end_ms, text: t.text.clone() }
}

/// A copy of a sentence.
pub fn copy_sentence(s: &RealtimeSentence) -> (r: RealtimeSentence)
    ensures
        r@ == s@,
{
    let mut tokens: Vec<TimedSubtitleToken> = Vec::new();
    let mut i: usize = 0;
    while i < s.tokens.len()
        invariant
            i <= s.tokens.len(),
            tokens_view(tokens@) == tokens_view(s.tokens@).take(i as int),
        decreases s.tokens.len() - i,
    {
        let ghost prev = tokens@;
        tokens.push(copy_token(&s.tokens[i]));
        assert(tokens_view(tokens@) =~= tokens_view(prev).push(s.tokens@[i as int]@));
        assert(tokens_view(s.tokens@).take(i + 1) =~= tokens_view(s.tokens@).take(i as int).push(
            s.tokens@[i as int]@,
        ));
        i = i + 1;
    }
    assert(tokens_view(s.tokens@).take(s.tokens.len() as int) =~= tokens_view(s.tokens@));
    RealtimeSentence { begin_ms: s.begin_ms, end_ms: s.end_ms, text: s.text.clone(), tokens }
}

/// The sentences of a realtime run so far, as reflowed cues.
#[derive(Debug)]
pub struct RealtimeTranscript {
    pub sentences: Vec<RealtimeSentence>,
}

impl RealtimeTranscript {
    /// A run with no sentence yet.
    pub fn new() -> (r: RealtimeTranscript)
        ensures
            r.sentences@.len() == 0,
    {
        RealtimeTranscript { sentences: Vec::new() }
    }

    /// Takes in a finished sentence: it is reflowed into cues, which are
    /// added to the run.  Returns the number the first of them has in the
    /// partial file (counting the earlier sentences that are cues, from 0)
    /// and the cues; `None`, with the run unchanged, where reflowing the
    /// sentence would overflow `i64` (see [`split_fits`]).
    pub fn add_sentence(&mut self, raw: &RealtimeSentence) -> (r: Option<(usize, Vec<RealtimeSentence>)>)
        ensures
            r is Some <==> split_fits(raw@),
            r matches Some(x) ==> {
                &&& x.0 == kept_count(sentences_view(old(self).sentences@))
                &&& sentences_view(x.1@) == split_spec(raw@)
                &&& sentences_view(final(self).sentences@) == sentences_view(old(self).sentences@) + split_spec(raw@)
            },
            r is None ==> sentences_view(final(self).sentences@) == sentences_view(old(self).sentences@),
    {
        let cues = match split_sentence_checked(raw) {
            Some(c) => c,
            None => return None,
        };
        let base = count_realtime_srt_sentences(&self.sentences);
        let ghost old_v = sentences_view(self.sentences@);
        let mut i: usize = 0;
        while i < cues.len()
            invariant
                i <= cues.len(),
                sentences_view(self.sentences@) == old_v + sentences_view(cues@).take(i as int),
            decreases cues.len() - i,
        {
            let c = copy_sentence(&cues[i]);
            let ghost prev = self.sentences@;
            self.sentences.push(c);
            assert(sentences_view(self.sentences@) =~= sentences_view(prev).push(cues@[i as int]@));
            assert(sentences_view(cues@).take(i + 1) =~= sentences_view(cues@).take(i as int).push(
                cues@[i as int]@,
            ));
            i = i + 1;
        }
        assert(sentences_view(cues@).take(cues.len() as int) =~= sentences_view(cues@));
        Some((base, cues))
    }
}

/// The value last recorded for `k` (records are pairs of a key and a time).
pub open spec fn lookup(v: Seq<(Seq<char>, i64)>, k: Seq<char>) -> Option<i64>
    decreases v.len(),
{
    if v.len() == 0 {
        None
    } else if v.last().0 == k {
        Some(v.last().1)
    } else {
        lookup(v.drop_last(), k)
    }
}

/// The records without those for `k`.
pub open spec fn forget(v: Seq<(Seq<char>, i64)>, k: Seq<char>) -> Seq<(Seq<char>, i64)>
    decreases v.len(),
{
    if v.len() == 0 {
        v
    } else if v.last().0 == k {
        forget(v.drop_last(), k)
    } else {
        forget(v.drop_last(), k).push(v.last())
    }
}

/// The value of a list of records.
pub open spec fn records_view(v: Seq<(String, i64)>) -> Seq<(Seq<char>, i64)> {
    v.map_values(|x: (String, i64)| (x.0@, x.1))
}

/// After forgetting an item nothing is found for it; other items keep their
/// times.
pub proof fn lemma_forget(v: Seq<(Seq<char>, i64)>, k: Seq<char>, j: Seq<char>)
    ensures
        lookup(forget(v, k), j) == (if j == k {
            None
        } else {
            lookup(v, j)
        }),
    decreases v.len(),
{
    if v.len() > 0 {
        lemma_forget(v.drop_last(), k, j);
        if v.last().0 != k {
            let f = forget(v, k);
            assert(f.drop_last() =~= forget(v.drop_last(), k));
            assert(f.last() == v.last());
        }
    }
}

/// The time last recorded for an item is the one looked up for it; a record
/// for another item leaves it as it was.
pub proof fn lemma_record_then_lookup(v: Seq<(Seq<char>, i64)>, k: Seq<char>, x: i64, j: Seq<char>)
    ensures
        lookup(v.push((k, x)), k) == Some(x),
        j != k ==> lookup(v.push((k, x)), j) == lookup(v, j),
{
    assert(v.push((k, x)).drop_last() =~= v);
}

/// Takes out the value last recorded for `k`, forgetting all records for it.
fn take_record(v: &mut Vec<(String, i64)>, k: &str) -> (r: Option<i64>)
    ensures
        r == lookup(records_view(old(v)@), k@),
        records_view(final(v)@) == forget(records_view(old(v)@), k@),
{
    let ghost ov = records_view(v@);
    let mut found: Option<i64> = None;
    let mut kept: Vec<(String, i64)> = Vec::new();
    let mut i: usize = 0;
    while i < v.len()
        invariant
            i <= v.len(),
            v@ == old(v)@,
            ov == records_view(v@),
            found == lookup(ov.take(i as int), k@),
            records_view(kept@) == forget(ov.take(i as int), k@),
        decreases v.len() - i,
    {
        assert(ov.take(i + 1).drop_last() =~= ov.take(i as int));
        assert(ov.take(i + 1).last() == (v@[i as int].0@, v@[i as int].1));
        if str_eq(v[i].0.as_str(), k) {
            found = Some(v[i].1);
        } else {
            kept.push((v[i].0.clone(), v[i].1));
            assert(records_view(kept@) =~= records_view(kept@.drop_last()).push(
                (v@[i as int].0@, v@[i as int].1),
            ));
        }
        i = i + 1;
    }
    assert(ov.take(v.len() as int) =~= ov);
    *v = kept;
    found
}

/// What Qwen's realtime events told of the items not yet transcribed: when
/// speech started and stopped, and where the last sentence ended.
#[derive(Debug)]
pub struct QwenItemTimes {
    pub starts: Vec<(String, i64)>,
    pub ends: Vec<(String, i64)>,
    pub last_end_ms: i64,
}

/// How long a sentence lasts when its end is not known.
pub const FALLBACK_SENTENCE_MS: i64 = 1000;

impl QwenItemTimes {
    /// Nothing known yet; the first sentence starts at 0 unless told.
    pub fn new() -> (r: QwenItemTimes)
        ensures
            r.starts@.len() == 0,
            r.ends@.len() == 0,
            r.last_end_ms == 0,
    {
        QwenItemTimes { starts: Vec::new(), ends: Vec::new(), last_end_ms: 0 }
    }

    /// Speech of an item started at `start_ms`.
    pub fn speech_started(&mut self, item_id: &str, start_ms: i64)
        ensures
            records_view(final(self).starts@) == records_view(old(self).starts@).push((item_id@, start_ms)),
            final(self).ends@ == old(self).ends@,
            final(self).last_end_ms == old(self).last_end_ms,
    {
        self.starts.push((item_id.to_owned(), start_ms));
        assert(records_view(self.starts@) =~= records_view(old(self).starts@).push((item_id@, start_ms)));
    }

    /// Speech of an item stopped at `end_ms`.
    pub fn speech_stopped(&mut self, item_id: &str, end_ms: i64)
        ensures
            records_view(final(self).ends@) == records_view(old(self).ends@).push((item_id@, end_ms)),
            final(self).starts@ == old(self).starts@,
            final(self).last_end_ms == old(self).last_end_ms,
    {
        self.ends.push((item_id.to_owned(), end_ms));
        assert(records_view(self.ends@) =~= records_view(old(self).ends@).push((item_id@, end_ms)));
    }

    /// An item's transcript is complete.  A blank transcript gives nothing.
    /// Else the sentence has the trimmed transcript, starts when the item's
    /// speech started (or where the last sentence ended), and ends when it
    /// stopped (or a second after its start); the item's times are then
    /// forgotten and the last end moves to the sentence's end if later.
    pub fn complete(&mut self, item_id: &str, transcript: &str) -> (r: Option<RealtimeSentence>)
        ensures
            ({
                let text = trim(transcript@);
                let begin = match lookup(records_view(old(self).starts@), item_id@) {
                    Some(b) => b,
                    None => old(self).last_end_ms,
                };
                let end = match lookup(records_view(old(self).ends@), item_id@) {
                    Some(e) => e,
                    None => sat_add(begin, FALLBACK_SENTENCE_MS),
                };
                if text.len() == 0 {
                    &&& r is None
                    &&& final(self).starts@ == old(self).starts@
                    &&& final(self).ends@ == old(self).ends@
                    &&& final(self).last_end_ms == old(self).last_end_ms
                } else {
                    &&& r matches Some(s) && s@ == (SentenceView {
                        begin_ms: begin,
                        end_ms: end,
                        text,
                        tokens: seq![],
                    })
                    &&& records_view(final(self).starts@) == forget(
                        records_view(old(self).starts@),
                        item_id@,
                    )
                    &&& records_view(final(self).ends@) == forget(
                        records_view(old(self).ends@),
                        item_id@,
                    )
                    &&& final(self).last_end_ms == (if old(self).last_end_ms >= end {
                        old(self).last_end_ms
                    } else {
                        end
                    })
                }
            }),
    {
        let t = trim_chars(&chars_of(transcript));
        if t.len() == 0 {
            return None;
        }
        let begin = match take_record(&mut self.starts, item_id) {
            Some(b) => b,
            None => self.last_end_ms,
        };
        let end = match take_record(&mut self.ends, item_id) {
            Some(e) => e,
            None => saturating_add_i64(begin, FALLBACK_SENTENCE_MS),
        };
        if end > self.last_end_ms {
            self.last_end_ms = end;
        }
        let tokens: Vec<TimedSubtitleToken> = Vec::new();
        assert(tokens_view(tokens@) =~= Seq::<TokenView>::empty());
        Some(RealtimeSentence { begin_ms: begin, end_ms: end, text: string_from_chars(&t), tokens })
    }
}

/// A Fun-ASR result: a sentence when it is final and not a heartbeat and
/// its text, trimmed, is not empty.  It starts at `begin_time` (0 when not
/// given) and ends at `end_time` (a second after the start when not given);
/// its tokens are its words aligned against the text.
pub open spec fn fun_asr_sentence_spec(
    heartbeat: Option<bool>,
    sentence_end: Option<bool>,
    text: Seq<char>,
    begin_time: Option<i64>,
    end_time: Option<i64>,
    words: Seq<FileTranscriptionWord>,
) -> Option<SentenceView> {
    let t = trim(text);
    if heartbeat == Some(true) || sentence_end != Some(true) || t.len() == 0 {
        None
    } else {
        let b = match begin_time {
            Some(b) => b,
            None => 0,
        };
        let e = match end_time {
            Some(e) => e,
            None => sat_add(b, FALLBACK_SENTENCE_MS),
        };
        Some(SentenceView { begin_ms: b, end_ms: e, text: t, tokens: align_spec(t, word_tokens_spec(words)) })
    }
}

/// The final sentence a Fun-ASR result gives, if any.
pub fn fun_asr_final_sentence(
    heartbeat: Option<bool>,
    sentence_end: Option<bool>,
    text: &str,
    begin_time: Option<i64>,
    end_time: Option<i64>,
    words: Vec<FileTranscriptionWord>,
) -> (r: Option<RealtimeSentence>)
    ensures
        match r {
            Some(s) => fun_asr_sentence_spec(heartbeat, sentence_end, text@, begin_time, end_time, words@)
                == Some(s@),
            None => fun_asr_sentence_spec(heartbeat, sentence_end, text@, begin_time, end_time, words@)
                is None,
        },
{
    let t = trim_chars(&chars_of(text));
    let is_heartbeat = match heartbeat {
        Some(h) => h,
        None => false,
    };
    let is_end = match sentence_end {
        Some(e) => e,
        None => false,
    };
    if is_heartbeat || !is_end || t.len() == 0 {
        return None;
    }
    let b = match begin_time {
        Some(b) => b,
        None => 0,
    };
    let e = match end_time {
        Some(e) => e,
        None => saturating_add_i64(b, FALLBACK_SENTENCE_MS),
    };
    let ts = string_from_chars(&t);
    let tokens = align_timed_tokens_to_sentence_text(ts.as_str(), timed_tokens_from_filetrans_words(Some(words)));
    Some(RealtimeSentence { begin_ms: b, end_ms: e, text: ts, tokens })
}

/// The options of a Fun-ASR task: the vocabulary (trimmed, when not empty)
/// and the language hint (when not blank and not `auto`).
pub fn fun_asr_task_options(hotword_vocabulary_id: Option<&str>, language_hint: &str) -> (r: (Option<String>, Option<String>))
    ensures
        match hotword_vocabulary_id {
            Some(v) if trim(v@).len() > 0 => r.0 matches Some(x) && x@ == trim(v@),
            _ => r.0 is None,
        },
        if trim(language_hint@).len() > 0 && language_hint@ != "auto"@ {
            r.1 matches Some(x) && x@ == language_hint@
        } else {
            r.1 is None
        },
{
    let vocabulary = match hotword_vocabulary_id {
        Some(v) => {
            let t = trim_chars(&chars_of(v));
            if t.len() > 0 {
                Some(string_from_chars(&t))
            } else {
                None
            }
        },
        None => None,
    };
    let hint = if !is_blank(&chars_of(language_hint)) && !str_eq(language_hint, "auto") {
        Some(language_hint.to_owned())
    } else {
        None
    };
    (vocabulary, hint)
}

/// A sentence of a file transcription: none when its text, trimmed, is
/// empty; else the trimmed text with its words aligned against it.
pub open spec fn filetrans_sentence_spec(
    begin_time: i64,
    end_time: i64,
    text: Seq<char>,
    words: Option<Seq<FileTranscriptionWord>>,
) -> Option<SentenceView> {
    let t = trim(text);
    if t.len() == 0 {
        None
    } else {
        Some(
            SentenceView {
                begin_ms: begin_time,
                end_ms: end_time,
                text: t,
                tokens: align_spec(
                    t,
                    match words {
                        Some(ws) => word_tokens_spec(ws),
                        None => seq![],
                    },
                ),
            },
        )
    }
}

/// The sentence a transcribed sentence gives, if any.
pub fn filetrans_sentence(
    begin_time: i64,
    end_time: i64,
    text: &str,
    words: Option<Vec<FileTranscriptionWord>>,
) -> (r: Option<RealtimeSentence>)
    ensures
        match r {
            Some(s) => filetrans_sentence_spec(
                begin_time,
                end_time,
                text@,
                match words {
                    Some(ws) => Some(ws@),
                    None => None,
                },
            ) == Some(s@),
            None => filetrans_sentence_spec(
                begin_time,
                end_time,
                text@,
                match words {
                    Some(ws) => Some(ws@),
                    None => None,
                },
            ) is None,
        },
{
    let t = trim_chars(&chars_of(text));
    if t.len() == 0 {
        return None;
    }
    let ts = string_from_chars(&t);
    let tokens = align_timed_tokens_to_sentence_text(ts.as_str(), timed_tokens_from_filetrans_words(words));
    Some(RealtimeSentence { begin_ms: begin_time, end_ms: end_time, text: ts, tokens })
}

/// One result of a Fun-ASR file task.
#[derive(Debug)]
pub struct FunTaskResult {
    pub transcription_url: Option<String>,
    pub subtask_status: String,
    pub code: Option<String>,
    pub message: Option<String>,
}

/// What a query of a file transcription task answered.
#[derive(Debug)]
pub struct TaskOutput {
    pub task_status: String,
    /// The transcription of a Qwen task.
    pub result_url: Option<String>,
    /// The first result of a Fun-ASR task.
    pub first_result: Option<FunTaskResult>,
    pub code: Option<String>,
    pub message: Option<String>,
}

/// What to do after a query of a file transcription task.
#[derive(Debug)]
pub enum FiletransPoll {
    /// The transcription is at this URL.
    Ready(String),
    /// The task is still pending or running: ask again later.
    Wait,
    /// The task cannot give a transcription.
    Fail(String),
}

/// An optional text, empty when absent.
pub open spec fn or_empty(s: Option<String>) -> Seq<char> {
    match s {
        Some(x) => x@,
        None => seq![],
    }
}

/// The value of a poll decision: `0` ready, `1` wait, `2` failed, with the
/// URL or message.
pub open spec fn poll_view(p: FiletransPoll) -> (int, Seq<char>) {
    match p {
        FiletransPoll::Ready(u) => (0, u@),
        FiletransPoll::Wait => (1, seq![]),
        FiletransPoll::Fail(m) => (2, m@),
    }
}

/// The decision after a query: a finished task gives its transcription URL
/// (for Fun-ASR from its first result, which must have succeeded too), a
/// failed one its code and message, a pending or running one a wait; any
/// other status is refused.
pub open spec fn filetrans_poll_spec(fun_model: bool, o: TaskOutput) -> (int, Seq<char>) {
    let status = o.task_status@;
    if status == "SUCCEEDED"@ {
        if fun_model {
            match o.first_result {
                None => (2, "Fun-ASR filetrans result missing results"@),
                Some(res) => if res.subtask_status@ != "SUCCEEDED"@ {
                    (
                        2,
                        "Fun-ASR filetrans subtask failed: "@ + or_empty(res.code) + " "@ + or_empty(
                            res.message,
                        ),
                    )
                } else {
                    match res.transcription_url {
                        Some(u) => (0, u@),
                        None => (2, "Fun-ASR filetrans result missing transcription_url"@),
                    }
                },
            }
        } else {
            match o.result_url {
                Some(u) => (0, u@),
                None => (2, "Qwen filetrans result missing transcription_url"@),
            }
        }
    } else if status == "FAILED"@ {
        (2, "Filetrans ASR task failed: "@ + or_empty(o.code) + " "@ + or_empty(o.message))
    } else if status == "PENDING"@ || status == "RUNNING"@ {
        (1, seq![])
    } else {
        (2, "Filetrans ASR task returned unknown status: "@ + status)
    }
}

fn opt_chars(s: &Option<String>) -> (r: Vec<char>)
    ensures
        r@ == or_empty(*s),
{
    match s {
        Some(x) => chars_of(x.as_str()),
        None => Vec::new(),
    }
}

fn message_of(prefix: &str, a: &Option<String>, b: &Option<String>) -> (r: String)
    ensures
        r@ == prefix@ + or_empty(*a) + " "@ + or_empty(*b),
{
    let mut v = chars_of(prefix);
    crate::text::extend_chars(&mut v, &opt_chars(a));
    v.push(' ');
    crate::text::extend_chars(&mut v, &opt_chars(b));
    proof {
        reveal_strlit(" ");
    }
    assert(v@ =~= prefix@ + or_empty(*a) + " "@ + or_empty(*b));
    string_from_chars(&v)
}

/// Decides what a query of a file transcription task means.
pub fn filetrans_poll_decision(fun_model: bool, output: TaskOutput) -> (r: FiletransPoll)
    ensures
        poll_view(r) == filetrans_poll_spec(fun_model, output),
{
    let status = output.task_status.as_str();
    if str_eq(status, "SUCCEEDED") {
        if fun_model {
            match output.first_result {
                None => FiletransPoll::Fail("Fun-ASR filetrans result missing results".to_owned()),
                Some(res) => if !str_eq(res.subtask_status.as_str(), "SUCCEEDED") {
                    FiletransPoll::Fail(
                        message_of("Fun-ASR filetrans subtask failed: ", &res.code, &res.message),
                    )
                } else {
                    match res.transcription_url {
                        Some(u) => FiletransPoll::Ready(u),
                        None => FiletransPoll::Fail(
                            "Fun-ASR filetrans result missing transcription_url".to_owned(),
                        ),
                    }
                },
            }
        } else {
            match output.result_url {
                Some(u) => FiletransPoll::Ready(u),
                None => FiletransPoll::Fail(
                    "Qwen filetrans result missing transcription_url".to_owned(),
                ),
            }
        }
    } else if str_eq(status, "FAILED") {
        FiletransPoll::Fail(message_of("Filetrans ASR task failed: ", &output.code, &output.message))
    } else if str_eq(status, "PENDING") || str_eq(status, "RUNNING") {
        FiletransPoll::Wait
    } else {
        let mut v = chars_of("Filetrans ASR task returned unknown status: ");
        crate::text::extend_chars(&mut v, &chars_of(status));
        FiletransPoll::Fail(string_from_chars(&v))
    }
}

/// How many times a file transcription task is queried before giving up.
pub const FILETRANS_MAX_POLLS: usize = 300;

/// Seconds between two queries of a file transcription task.
pub const FILETRANS_POLL_INTERVAL_SECS: u64 = 2;

/// Seconds of audio in each chunk given to local whisper or to a short
/// online request.
pub const LOCAL_AUDIO_CHUNK_DURATION_SECONDS: u64 = 30;

/// Seconds of audio in each chunk given to a realtime service.
pub const REALTIME_ASR_AUDIO_CHUNK_DURATION_SECONDS: u64 = 180;

/// How the subtitles of a video are made.
#[derive(Debug)]
pub enum SubtitlePlan {
    /// The local whisper model, over WAV chunks of 30 seconds.
    LocalWhisper,
    /// An online file transcription of the whole audio, written as it goes
    /// to the partial subtitle file, numbered from 1.
    OnlineWhole,
    /// An online service over MP3 chunks of `chunk_seconds`; the partial
    /// subtitle file is written as it goes when `partial`.
    OnlineChunks { chunk_seconds: u64, partial: bool },
    /// PowerLive, over the recording's Opus file.
    PowerLive,
    /// Refused with this message.
    Fail(String),
}

/// The value of a plan: `0` local, `1` whole, `2` chunks, `3` PowerLive,
/// `4` refused; the chunk length, whether a partial file is written, the
/// message.
pub open spec fn plan_view(p: SubtitlePlan) -> (int, u64, bool, Seq<char>) {
    match p {
        SubtitlePlan::LocalWhisper => (0, 0, false, seq![]),
        SubtitlePlan::OnlineWhole => (1, 0, false, seq![]),
        SubtitlePlan::OnlineChunks { chunk_seconds, partial } => (2, chunk_seconds, partial, seq![]),
        SubtitlePlan::PowerLive => (3, 0, false, seq![]),
        SubtitlePlan::Fail(m) => (4, 0, false, m@),
    }
}

/// How subtitles are made for a generator type: local whisper needs a
/// model; online recognition needs a key, takes the whole audio for the file
/// transcription models and chunks otherwise (long ones, written out as they
/// go, for the realtime models); PowerLive as it is; any other type is
/// refused.
pub open spec fn subtitle_plan_spec(
    generator_type: Seq<char>,
    whisper_model: Seq<char>,
    openai_api_key: Seq<char>,
    online_asr_model: Seq<char>,
) -> (int, u64, bool, Seq<char>) {
    if generator_type == "whisper"@ {
        if whisper_model.len() == 0 {
            (4, 0, false, "Whisper model not configured"@)
        } else {
            (0, 0, false, seq![])
        }
    } else if generator_type == "whisper_online"@ {
        if openai_api_key.len() == 0 {
            (4, 0, false, "API key not configured"@)
        } else if asr_route_spec(online_asr_model) == AsrRoute::Filetrans {
            (1, 0, false, seq![])
        } else {
            let realtime = asr_route_spec(online_asr_model) == AsrRoute::FunAsrRealtime
                || asr_route_spec(online_asr_model) == AsrRoute::QwenRealtime;
            (
                2,
                if realtime {
                    REALTIME_ASR_AUDIO_CHUNK_DURATION_SECONDS
                } else {
                    LOCAL_AUDIO_CHUNK_DURATION_SECONDS
                },
                realtime,
                seq![],
            )
        }
    } else if generator_type == "powerlive"@ {
        (3, 0, false, seq![])
    } else {
        (4, 0, false, "Unknown subtitle generator type: "@ + generator_type)
    }
}

/// Decides how the subtitles of a video are made.
pub fn plan_subtitle_generation(
    generator_type: &str,
    whisper_model: &str,
    openai_api_key: &str,
    online_asr_model: &str,
) -> (r: SubtitlePlan)
    ensures
        plan_view(r) == subtitle_plan_spec(generator_type@, whisper_model@, openai_api_key@, online_asr_model@),
{
    if str_eq(generator_type, "whisper") {
        if whisper_model.is_empty() {
            return SubtitlePlan::Fail("Whisper model not configured".to_owned());
        }
        SubtitlePlan::LocalWhisper
    } else if str_eq(generator_type, "whisper_online") {
        if openai_api_key.is_empty() {
            return SubtitlePlan::Fail("API key not configured".to_owned());
        }
        let route = select_asr_route(online_asr_model);
        match route {
            AsrRoute::Filetrans => SubtitlePlan::OnlineWhole,
            AsrRoute::FunAsrRealtime | AsrRoute::QwenRealtime => SubtitlePlan::OnlineChunks {
                chunk_seconds: REALTIME_ASR_AUDIO_CHUNK_DURATION_SECONDS,
                partial: true,
            },
            AsrRoute::OpenAiTranscription => SubtitlePlan::OnlineChunks {
                chunk_seconds: LOCAL_AUDIO_CHUNK_DURATION_SECONDS,
                partial: false,
            },
        }
    } else if str_eq(generator_type, "powerlive") {
        SubtitlePlan::PowerLive
    } else {
        let mut v = chars_of("Unknown subtitle generator type: ");
        crate::text::extend_chars(&mut v, &chars_of(generator_type));
        SubtitlePlan::Fail(string_from_chars(&v))
    }
}

/// What a failed recognition reports: the error behind the name of the
/// service that failed (the OpenAI-compatible request reports its own).
pub open spec fn asr_failure_spec(route: AsrRoute, error: Seq<char>) -> Seq<char> {
    match route {
        AsrRoute::FunAsrRealtime => "Fun-ASR realtime failed: "@ + error,
        AsrRoute::QwenRealtime => "Qwen realtime ASR failed: "@ + error,
        AsrRoute::Filetrans => "Filetrans ASR failed: "@ + error,
        AsrRoute::OpenAiTranscription => error,
    }
}

/// The message of a failed recognition.
pub fn asr_failure_message(route: AsrRoute, error: &str) -> (r: String)
    ensures
        r@ == asr_failure_spec(route, error@),
{
    let prefix = match route {
        AsrRoute::FunAsrRealtime => "Fun-ASR realtime failed: ",
        AsrRoute::QwenRealtime => "Qwen realtime ASR failed: ",
        AsrRoute::Filetrans => "Filetrans ASR failed: ",
        AsrRoute::OpenAiTranscription => {
            return error.to_owned();
        },
    };
    let mut v = chars_of(prefix);
    crate::text::extend_chars(&mut v, &chars_of(error));
    string_from_chars(&v)
}

/// The settings of an online recognition client.
#[derive(Debug)]
pub struct WhisperOnlineSettings {
    pub api_url: String,
    pub api_key: Option<String>,
    pub prompt: Option<String>,
    pub model: String,
    pub hotword_vocabulary_id: Option<String>,
}

/// What an online client keeps of its settings: the URL (the OpenAI one by
/// default) without trailing `/`, the key and prompt as given, the model
/// (`whisper-1` by default), and the vocabulary trimmed, when not empty.
pub fn whisper_online_settings(
    api_url: Option<&str>,
    api_key: Option<&str>,
    prompt: Option<&str>,
    model: Option<&str>,
    hotword_vocabulary_id: Option<&str>,
) -> (r: WhisperOnlineSettings)
    ensures
        r.api_url@ == crate::text::strip_trailing(
            match api_url {
                Some(u) => u@,
                None => "https://api.openai.com/v1"@,
            },
            '/',
        ),
        match api_key {
            Some(k) => r.api_key matches Some(x) && x@ == k@,
            None => r.api_key is None,
        },
        match prompt {
            Some(p) => r.prompt matches Some(x) && x@ == p@,
            None => r.prompt is None,
        },
        r.model@ == (match model {
            Some(m) => m@,
            None => "whisper-1"@,
        }),
        match hotword_vocabulary_id {
            Some(v) if trim(v@).len() > 0 => r.hotword_vocabulary_id matches Some(x) && x@ == trim(v@),
            _ => r.hotword_vocabulary_id is None,
        },
{
    let url = match api_url {
        Some(u) => u,
        None => "https://api.openai.com/v1",
    };
    let vocabulary = match hotword_vocabulary_id {
        Some(v) => {
            let t = trim_chars(&chars_of(v));
            if t.len() > 0 {
                Some(string_from_chars(&t))
            } else {
                None
            }
        },
        None => None,
    };
    WhisperOnlineSettings {
        api_url: string_from_chars(&crate::text::strip_trailing_chars(&chars_of(url), '/')),
        api_key: match api_key {
            Some(k) => Some(k.to_owned()),
            None => None,
        },
        prompt: match prompt {
            Some(p) => Some(p.to_owned()),
            None => None,
        },
        model: match model {
            Some(m) => m.to_owned(),
            None => "whisper-1".to_owned(),
        },
        hotword_vocabulary_id: vocabulary,
    }
}

/// The key of an online service, when one is set: a key that is missing or
/// blank is refused.
pub fn require_api_key(api_key: Option<&str>) -> (r: Result<String, String>)
    ensures
        match api_key {
            Some(k) if trim(k@).len() > 0 => r matches Ok(x) && x@ == k@,
            _ => r matches Err(e) && e@ == "API key not configured"@,
        },
{
    match api_key {
        Some(k) => if !is_blank(&chars_of(k)) {
            Ok(k.to_owned())
        } else {
            Err("API key not configured".to_owned())
        },
        None => Err("API key not configured".to_owned()),
    }
}

/// The events of a Qwen realtime session, by their `type`.
#[derive(Clone, Copy, Debug, PartialEq, Eq)]
pub enum QwenEventKind {
    SessionUpdated,
    SpeechStarted,
    SpeechStopped,
    TranscriptionCompleted,
    TranscriptionFailed,
    Error,
    SessionFinished,
    Other,
}

/// The kind of a Qwen realtime event with this `type` (or none).
pub open spec fn qwen_event_kind_spec(event_type: Option<Seq<char>>) -> QwenEventKind {
    match event_type {
        Some(t) => if t == "session.updated"@ {
            QwenEventKind::SessionUpdated
        } else if t == "input_audio_buffer.speech_started"@ {
            QwenEventKind::SpeechStarted
        } else if t == "input_audio_buffer.speech_stopped"@ {
            QwenEventKind::SpeechStopped
        } else if t == "conversation.item.input_audio_transcription.completed"@ {
            QwenEventKind::TranscriptionCompleted
        } else if t == "conversation.item.input_audio_transcription.failed"@ {
            QwenEventKind::TranscriptionFailed
        } else if t == "error"@ {
            QwenEventKind::Error
        } else if t == "session.finished"@ {
            QwenEventKind::SessionFinished
        } else {
            QwenEventKind::Other
        },
        None => QwenEventKind::Other,
    }
}

/// Tells a Qwen realtime event by its `type`.
pub fn qwen_event_kind(event_type: Option<&str>) -> (r: QwenEventKind)
    ensures
        r == qwen_event_kind_spec(
            match event_type {
                Some(t) => Some(t@),
                None => None,
            },
        ),
{
    match event_type {
        Some(t) => if str_eq(t, "session.updated") {
            QwenEventKind::SessionUpdated
        } else if str_eq(t, "input_audio_buffer.speech_started") {
            QwenEventKind::SpeechStarted
        } else if str_eq(t, "input_audio_buffer.speech_stopped") {
            QwenEventKind::SpeechStopped
        } else if str_eq(t, "conversation.item.input_audio_transcription.completed") {
            QwenEventKind::TranscriptionCompleted
        } else if str_eq(t, "conversation.item.input_audio_transcription.failed") {
            QwenEventKind::TranscriptionFailed
        } else if str_eq(t, "error") {
            QwenEventKind::Error
        } else if str_eq(t, "session.finished") {
            QwenEventKind::SessionFinished
        } else {
            QwenEventKind::Other
        },
        None => QwenEventKind::Other,
    }
}

/// The events of a Fun-ASR realtime task, by their `header.event`.
#[derive(Clone, Copy, Debug, PartialEq, Eq)]
pub enum FunAsrEventKind {
    TaskStarted,
    ResultGenerated,
    TaskFinished,
    TaskFailed,
    Other,
}

/// The kind of a Fun-ASR realtime event with this name (or none).
pub open spec fn fun_asr_event_kind_spec(event: Option<Seq<char>>) -> FunAsrEventKind {
    match event {
        Some(t) => if t == "task-started"@ {
            FunAsrEventKind::TaskStarted
        } else if t == "result-generated"@ {
            FunAsrEventKind::ResultGenerated
        } else if t == "task-finished"@ {
            FunAsrEventKind::TaskFinished
        } else if t == "task-failed"@ {
            FunAsrEventKind::TaskFailed
        } else {
            FunAsrEventKind::Other
        },
        None => FunAsrEventKind::Other,
    }
}

/// Tells a Fun-ASR realtime event by its name.
pub fn fun_asr_event_kind(event: Option<&str>) -> (r: FunAsrEventKind)
    ensures
        r == fun_asr_event_kind_spec(
            match event {
                Some(t) => Some(t@),
                None => None,
            },
        ),
{
    match event {
        Some(t) => if str_eq(t, "task-started") {
            FunAsrEventKind::TaskStarted
        } else if str_eq(t, "result-generated") {
            FunAsrEventKind::ResultGenerated
        } else if str_eq(t, "task-finished") {
            FunAsrEventKind::TaskFinished
        } else if str_eq(t, "task-failed") {
            FunAsrEventKind::TaskFailed
        } else {
            FunAsrEventKind::Other
        },
        None => FunAsrEventKind::Other,
    }
}

/// Bytes of audio sent in one realtime message.
pub const PCM_CHUNK_BYTES: usize = 16_000;

/// The standard base64 text (with padding) of some bytes.
pub uninterp spec fn base64_standard(data: Seq<u8>) -> Seq<char>;

/// `base64::engine::general_purpose::STANDARD.encode`: the padded
/// standard base64 text of the bytes, four characters for every three
/// bytes or part of three.  It panics where that length is beyond `usize`.
#[verifier::external_body]
fn base64_encode(data: &[u8]) -> (r: String)
    requires
        4 * ((data@.len() + 2) / 3) <= usize::MAX,
    ensures
        r@ == base64_standard(data@),
        r@.len() == 4 * ((data@.len() + 2) / 3),
{
    base64::engine::general_purpose::STANDARD.encode(data)
}

/// The bytes of audio chunk `i`: `PCM_CHUNK_BYTES` of them from
/// `PCM_CHUNK_BYTES * i`, fewer for the last.
pub open spec fn pcm_chunk(pcm: Seq<u8>, i: int) -> Seq<u8> {
    let start = PCM_CHUNK_BYTES * i;
    let end = if start + PCM_CHUNK_BYTES <= pcm.len() {
        start + PCM_CHUNK_BYTES
    } else {
        pcm.len() as int
    };
    pcm.subrange(start, end)
}

/// The audio messages of a Qwen realtime session: the audio in chunks of
/// `PCM_CHUNK_BYTES`, each as base64 text.
pub fn pcm_audio_payloads(pcm: &[u8]) -> (r: Vec<String>)
    ensures
        r@.len() == (pcm@.len() + PCM_CHUNK_BYTES - 1) / (PCM_CHUNK_BYTES as int),
        forall|i: int| 0 <= i < r@.len() ==> (#[trigger] r@[i])@ == base64_standard(pcm_chunk(pcm@, i)),
{
    let mut r: Vec<String> = Vec::new();
    let mut start: usize = 0;
    while start < pcm.len()
        invariant
            start <= pcm.len(),
            start == (if PCM_CHUNK_BYTES * r@.len() <= pcm.len() {
                PCM_CHUNK_BYTES * r@.len()
            } else {
                pcm.len() as int
            }),
            r@.len() > 0 ==> PCM_CHUNK_BYTES * (r@.len() - 1) < pcm.len(),
            forall|i: int| 0 <= i < r@.len() ==> (#[trigger] r@[i])@ == base64_standard(pcm_chunk(pcm@, i)),
        decreases pcm.len() - start,
    {
        let end = if pcm.len() - start >= PCM_CHUNK_BYTES {
            start + PCM_CHUNK_BYTES
        } else {
            pcm.len()
        };
        let chunk = vstd::slice::slice_subrange(pcm, start, end);
        assert(chunk@ == pcm_chunk(pcm@, r@.len() as int));
        let encoded = base64_encode(chunk);
        r.push(encoded);
        start = end;
    }
    assert(r@.len() == (pcm@.len() + PCM_CHUNK_BYTES - 1) / (PCM_CHUNK_BYTES as int)) by (nonlinear_arith)
        requires
            pcm@.len() <= PCM_CHUNK_BYTES * r@.len(),
            r@.len() == 0 || PCM_CHUNK_BYTES * (r@.len() - 1) < pcm@.len(),
    ;
    r
}

/// An event of a Qwen realtime session: the fields the session reads, and
/// the texts it reports when it fails.
#[derive(Debug)]
pub struct QwenEvent {
    pub event_type: Option<String>,
    pub item_id: Option<String>,
    pub audio_start_ms: Option<i64>,
    pub audio_end_ms: Option<i64>,
    pub transcript: Option<String>,
    /// The event's `error` field as text, or the whole event when it has none.
    pub error_text: String,
    /// The whole event as text.
    pub event_text: String,
}

/// What follows an event of a realtime recognition session.
#[derive(Debug)]
pub enum RealtimeAction {
    /// Read the next event.
    Continue,
    /// The session's settings were taken: the audio can be sent.
    Ready,
    /// The cues of a completed sentence; the first is numbered `.0` among
    /// the cues of the run (from 0).
    Cues(usize, Vec<RealtimeSentence>),
    /// The session has finished.
    Finished,
    /// The session fails with this message.
    Fail(String),
    /// A completed sentence whose splitting into cues would overflow `i64`
    /// (see [`split_fits`]).
    Overflow,
}

/// A Qwen realtime session: whether its settings were taken, what it was
/// told of the items, and the cues so far.
#[derive(Debug)]
pub struct QwenSession {
    pub ready: bool,
    pub times: QwenItemTimes,
    pub transcript: RealtimeTranscript,
}

/// The text of an optional string, empty when there is none.
pub open spec fn text_or_empty(o: Option<String>) -> Seq<char> {
    match o {
        Some(s) => s@,
        None => seq![],
    }
}

/// The sentence that a completed transcription of `item` gives (see
/// [`QwenItemTimes::complete`]).
pub open spec fn qwen_sentence_spec(t: QwenItemTimes, item: Seq<char>, transcript: Seq<char>) -> Option<SentenceView> {
    let text = trim(transcript);
    let begin = match lookup(records_view(t.starts@), item) {
        Some(b) => b,
        None => t.last_end_ms,
    };
    let end = match lookup(records_view(t.ends@), item) {
        Some(e) => e,
        None => sat_add(begin, FALLBACK_SENTENCE_MS),
    };
    if text.len() == 0 {
        None
    } else {
        Some(SentenceView { begin_ms: begin, end_ms: end, text, tokens: seq![] })
    }
}

/// The kind of an event (see [`qwen_event_kind_spec`]).
pub open spec fn qwen_kind_of(event: &QwenEvent) -> QwenEventKind {
    qwen_event_kind_spec(
        match event.event_type {
            Some(t) => Some(t@),
            None => None,
        },
    )
}

/// Two records of item times hold the same.
pub open spec fn same_times(a: QwenItemTimes, b: QwenItemTimes) -> bool {
    records_view(a.starts@) == records_view(b.starts@) && records_view(a.ends@) == records_view(b.ends@)
        && a.last_end_ms == b.last_end_ms
}

/// The session's state after an event that changes nothing.
pub open spec fn session_kept(a: QwenSession, b: QwenSession) -> bool {
    a.ready == b.ready && same_times(a.times, b.times) && sentences_view(a.transcript.sentences@)
        == sentences_view(b.transcript.sentences@)
}

impl QwenSession {
    /// A session whose settings were not yet taken.
    pub fn new() -> (r: QwenSession)
        ensures
            !r.ready,
            r.times.starts@.len() == 0,
            r.times.ends@.len() == 0,
            r.times.last_end_ms == 0,
            r.transcript.sentences@.len() == 0,
    {
        QwenSession { ready: false, times: QwenItemTimes::new(), transcript: RealtimeTranscript::new() }
    }

    /// Takes in one event.  Before the settings are taken only their
    /// confirmation (then the audio is sent) and an error count.  After,
    /// speech start and stop times are recorded for their item; a completed
    /// transcription becomes a sentence timed by its item (see
    /// [`qwen_sentence_spec`]), whose cues are added and returned, or which
    /// is reported when splitting it would overflow `i64`; a
    /// failed transcription or an error fails the session; its end finishes
    /// it.  Other events change nothing.
    pub fn step(&mut self, event: &QwenEvent) -> (r: RealtimeAction)
        ensures
            !old(self).ready ==> if qwen_kind_of(event) == QwenEventKind::SessionUpdated {
                &&& r is Ready
                &&& final(self).ready
                &&& same_times(final(self).times, old(self).times)
                &&& sentences_view(final(self).transcript.sentences@) == sentences_view(old(self).transcript.sentences@)
            } else if qwen_kind_of(event) == QwenEventKind::Error {
                &&& r matches RealtimeAction::Fail(m) && m@ == "Qwen realtime ASR error: "@ + event.error_text@
                &&& session_kept(*final(self), *old(self))
            } else {
                r is Continue && session_kept(*final(self), *old(self))
            },
            old(self).ready && qwen_kind_of(event) == QwenEventKind::SpeechStarted ==> {
                &&& r is Continue
                &&& final(self).ready
                &&& sentences_view(final(self).transcript.sentences@) == sentences_view(old(self).transcript.sentences@)
                &&& match (event.item_id, event.audio_start_ms) {
                    (Some(id), Some(ms)) => records_view(final(self).times.starts@) == records_view(
                        old(self).times.starts@,
                    ).push((id@, ms)) && records_view(final(self).times.ends@) == records_view(old(self).times.ends@)
                        && final(self).times.last_end_ms == old(self).times.last_end_ms,
                    _ => same_times(final(self).times, old(self).times),
                }
            },
            old(self).ready && qwen_kind_of(event) == QwenEventKind::SpeechStopped ==> {
                &&& r is Continue
                &&& final(self).ready
                &&& sentences_view(final(self).transcript.sentences@) == sentences_view(old(self).transcript.sentences@)
                &&& match (event.item_id, event.audio_end_ms) {
                    (Some(id), Some(ms)) => records_view(final(self).times.ends@) == records_view(
                        old(self).times.ends@,
                    ).push((id@, ms)) && records_view(final(self).times.starts@) == records_view(
                        old(self).times.starts@,
                    ) && final(self).times.last_end_ms == old(self).times.last_end_ms,
                    _ => same_times(final(self).times, old(self).times),
                }
            },
            old(self).ready && qwen_kind_of(event) == QwenEventKind::TranscriptionCompleted ==> match qwen_sentence_spec(
                old(self).times,
                text_or_empty(event.item_id),
                text_or_empty(event.transcript),
            ) {
                None => r is Continue && session_kept(*final(self), *old(self)),
                Some(sv) => {
                    &&& final(self).ready
                    &&& records_view(final(self).times.starts@) == forget(
                        records_view(old(self).times.starts@),
                        text_or_empty(event.item_id),
                    )
                    &&& records_view(final(self).times.ends@) == forget(
                        records_view(old(self).times.ends@),
                        text_or_empty(event.item_id),
                    )
                    &&& final(self).times.last_end_ms == (if old(self).times.last_end_ms >= sv.end_ms {
                        old(self).times.last_end_ms
                    } else {
                        sv.end_ms
                    })
                    &&& if split_fits(sv) {
                        &&& r matches RealtimeAction::Cues(base, cues) && base == kept_count(
                            sentences_view(old(self).transcript.sentences@),
                        ) && sentences_view(cues@) == split_spec(sv)
                        &&& sentences_view(final(self).transcript.sentences@) == sentences_view(
                            old(self).transcript.sentences@,
                        ) + split_spec(sv)
                    } else {
                        r is Overflow && sentences_view(final(self).transcript.sentences@) == sentences_view(
                            old(self).transcript.sentences@,
                        )
                    }
                },
            },
            old(self).ready && qwen_kind_of(event) == QwenEventKind::TranscriptionFailed ==> {
                &&& r matches RealtimeAction::Fail(m) && m@ == "Qwen realtime ASR transcription failed: "@ + event.event_text@
                &&& session_kept(*final(self), *old(self))
            },
            old(self).ready && qwen_kind_of(event) == QwenEventKind::Error ==> {
                &&& r matches RealtimeAction::Fail(m) && m@ == "Qwen realtime ASR error: "@ + event.error_text@
                &&& session_kept(*final(self), *old(self))
            },
            old(self).ready && qwen_kind_of(event) == QwenEventKind::SessionFinished ==> r is Finished
                && session_kept(*final(self), *old(self)),
            old(self).ready && (qwen_kind_of(event) == QwenEventKind::SessionUpdated || qwen_kind_of(event)
                == QwenEventKind::Other) ==> r is Continue && session_kept(*final(self), *old(self)),
    {
        let kind = qwen_event_kind(
            match &event.event_type {
                Some(t) => Some(t.as_str()),
                None => None,
            },
        );
        if !self.ready {
            return match kind {
                QwenEventKind::SessionUpdated => {
                    self.ready = true;
                    RealtimeAction::Ready
                },
                QwenEventKind::Error => RealtimeAction::Fail(prefixed("Qwen realtime ASR error: ", event.error_text.as_str())),
                _ => RealtimeAction::Continue,
            };
        }
        match kind {
            QwenEventKind::SpeechStarted => {
                if let (Some(id), Some(ms)) = (&event.item_id, event.audio_start_ms) {
                    self.times.speech_started(id.as_str(), ms);
                }
                RealtimeAction::Continue
            },
            QwenEventKind::SpeechStopped => {
                if let (Some(id), Some(ms)) = (&event.item_id, event.audio_end_ms) {
                    self.times.speech_stopped(id.as_str(), ms);
                }
                RealtimeAction::Continue
            },
            QwenEventKind::TranscriptionCompleted => {
                let item: &str = match &event.item_id {
                    Some(id) => id.as_str(),
                    None => "",
                };
                let text: &str = match &event.transcript {
                    Some(t) => t.as_str(),
                    None => "",
                };
                proof {
                    reveal_strlit("");
                    assert(item@ =~= text_or_empty(event.item_id));
                    assert(text@ =~= text_or_empty(event.transcript));
                }
                let ghost before = self.times;
                let ghost expected = qwen_sentence_spec(before, item@, text@);
                match self.times.complete(item, text) {
                    None => {
                        assert(expected is None);
                        RealtimeAction::Continue
                    },
                    Some(raw) => {
                        assert(expected == Some(raw@));
                        match self.transcript.add_sentence(&raw) {
                            Some((base, cues)) => RealtimeAction::Cues(base, cues),
                            None => RealtimeAction::Overflow,
                        }
                    },
                }
            },
            QwenEventKind::TranscriptionFailed => RealtimeAction::Fail(
                prefixed("Qwen realtime ASR transcription failed: ", event.event_text.as_str()),
            ),
            QwenEventKind::Error => RealtimeAction::Fail(prefixed("Qwen realtime ASR error: ", event.error_text.as_str())),
            QwenEventKind::SessionFinished => RealtimeAction::Finished,
            _ => RealtimeAction::Continue,
        }
    }
}

/// `prefix` followed by `text`.
fn prefixed(prefix: &str, text: &str) -> (r: String)
    ensures
        r@ == prefix@ + text@,
{
    let mut v = chars_of(prefix);
    crate::text::extend_chars(&mut v, &chars_of(text));
    string_from_chars(&v)
}

/// A result of a Fun-ASR realtime session: the fields of its `sentence`.
#[derive(Debug)]
pub struct FunAsrResult {
    pub heartbeat: Option<bool>,
    pub sentence_end: Option<bool>,
    /// The text, empty when there is none.
    pub text: String,
    pub begin_time: Option<i64>,
    pub end_time: Option<i64>,
    pub words: Vec<FileTranscriptionWord>,
}

/// An event of a Fun-ASR realtime session: its name, the sentence of a
/// result when it has one, and the whole event as text.
#[derive(Debug)]
pub struct FunAsrEvent {
    pub event: Option<String>,
    pub sentence: Option<FunAsrResult>,
    pub event_text: String,
}

/// A Fun-ASR realtime session: whether its task started, and the cues so
/// far.
#[derive(Debug)]
pub struct FunAsrSession {
    pub ready: bool,
    pub transcript: RealtimeTranscript,
}

/// The kind of an event (see [`fun_asr_event_kind_spec`]).
pub open spec fn fun_asr_kind_of(event: FunAsrEvent) -> FunAsrEventKind {
    fun_asr_event_kind_spec(
        match event.event {
            Some(t) => Some(t@),
            None => None,
        },
    )
}

/// The sentence that a result gives (see [`fun_asr_sentence_spec`]).
pub open spec fn fun_asr_result_sentence(x: FunAsrResult) -> Option<SentenceView> {
    fun_asr_sentence_spec(x.heartbeat, x.sentence_end, x.text@, x.begin_time, x.end_time, x.words@)
}

impl FunAsrSession {
    /// A session whose task has not started.
    pub fn new() -> (r: FunAsrSession)
        ensures
            !r.ready,
            r.transcript.sentences@.len() == 0,
    {
        FunAsrSession { ready: false, transcript: RealtimeTranscript::new() }
    }

    /// Takes in one event.  Before the task starts only its start (then the
    /// audio is sent) and its failure count.  After, a result whose
    /// sentence is final becomes cues that are added and returned (see
    /// [`fun_asr_sentence_spec`]), or a sentence whose splitting would
    /// overflow `i64` is reported; the task's failure fails the session
    /// and its end finishes it.  Other events change nothing.
    pub fn step(&mut self, event: FunAsrEvent) -> (r: RealtimeAction)
        ensures
            !old(self).ready ==> if fun_asr_kind_of(event) == FunAsrEventKind::TaskStarted {
                &&& r is Ready
                &&& final(self).ready
                &&& sentences_view(final(self).transcript.sentences@) == sentences_view(old(self).transcript.sentences@)
            } else if fun_asr_kind_of(event) == FunAsrEventKind::TaskFailed {
                &&& r matches RealtimeAction::Fail(m) && m@ == "Fun-ASR realtime task failed: "@ + event.event_text@
                &&& !final(self).ready
                &&& sentences_view(final(self).transcript.sentences@) == sentences_view(old(self).transcript.sentences@)
            } else {
                &&& r is Continue
                &&& !final(self).ready
                &&& sentences_view(final(self).transcript.sentences@) == sentences_view(old(self).transcript.sentences@)
            },
            old(self).ready ==> final(self).ready,
            old(self).ready && fun_asr_kind_of(event) == FunAsrEventKind::ResultGenerated ==> match event.sentence {
                Some(x) => match fun_asr_result_sentence(x) {
                    Some(sv) => if split_fits(sv) {
                        &&& r matches RealtimeAction::Cues(base, cues) && base == kept_count(
                            sentences_view(old(self).transcript.sentences@),
                        ) && sentences_view(cues@) == split_spec(sv)
                        &&& sentences_view(final(self).transcript.sentences@) == sentences_view(
                            old(self).transcript.sentences@,
                        ) + split_spec(sv)
                    } else {
                        r is Overflow && sentences_view(final(self).transcript.sentences@) == sentences_view(
                            old(self).transcript.sentences@,
                        )
                    },
                    None => r is Continue && sentences_view(final(self).transcript.sentences@) == sentences_view(
                        old(self).transcript.sentences@,
                    ),
                },
                None => r is Continue && sentences_view(final(self).transcript.sentences@) == sentences_view(
                    old(self).transcript.sentences@,
                ),
            },
            old(self).ready && fun_asr_kind_of(event) == FunAsrEventKind::TaskFailed ==> {
                &&& r matches RealtimeAction::Fail(m) && m@ == "Fun-ASR realtime task failed: "@ + event.event_text@
                &&& sentences_view(final(self).transcript.sentences@) == sentences_view(old(self).transcript.sentences@)
            },
            old(self).ready && fun_asr_kind_of(event) == FunAsrEventKind::TaskFinished ==> r is Finished
                && sentences_view(final(self).transcript.sentences@) == sentences_view(old(self).transcript.sentences@),
            old(self).ready && (fun_asr_kind_of(event) == FunAsrEventKind::TaskStarted || fun_asr_kind_of(event)
                == FunAsrEventKind::Other) ==> r is Continue && sentences_view(final(self).transcript.sentences@)
                == sentences_view(old(self).transcript.sentences@),
    {
        let kind = fun_asr_event_kind(
            match &event.event {
                Some(t) => Some(t.as_str()),
                None => None,
            },
        );
        if !self.ready {
            return match kind {
                FunAsrEventKind::TaskStarted => {
                    self.ready = true;
                    RealtimeAction::Ready
                },
                FunAsrEventKind::TaskFailed => RealtimeAction::Fail(
                    prefixed("Fun-ASR realtime task failed: ", event.event_text.as_str()),
                ),
                _ => RealtimeAction::Continue,
            };
        }
        match kind {
            FunAsrEventKind::ResultGenerated => match event.sentence {
                Some(x) => {
                    let ghost expected = fun_asr_result_sentence(x);
                    match fun_asr_final_sentence(x.heartbeat, x.sentence_end, x.text.as_str(), x.begin_time, x.end_time, x.words) {
                        Some(raw) => {
                            assert(expected == Some(raw@));
                            match self.transcript.add_sentence(&raw) {
                                Some((base, cues)) => RealtimeAction::Cues(base, cues),
                                None => RealtimeAction::Overflow,
                            }
                        },
                        None => RealtimeAction::Continue,
                    }
                },
                None => RealtimeAction::Continue,
            },
            FunAsrEventKind::TaskFailed => RealtimeAction::Fail(
                prefixed("Fun-ASR realtime task failed: ", event.event_text.as_str()),
            ),
            FunAsrEventKind::TaskFinished => RealtimeAction::Finished,
            _ => RealtimeAction::Continue,
        }
    }
}

} // verus!
