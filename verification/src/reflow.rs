//! Reflowing recognised speech into subtitle cues: text widths, break
//! priorities, one-line wrapping, and splitting a timed sentence into cues.
//!
//! Widths are counted in half columns: an ASCII whitespace character is 1, any
//! other ASCII character 2, any other character 4.  A line holds 72 half
//! columns (36 columns).
use vstd::prelude::*;

use crate::text::{
    chars_of, extend_chars, find, find_from_exec, is_blank, lemma_find_from, lemma_find_skip,
    is_ws, leading_ws, lemma_leading_ws, lemma_trailing_ws, lemma_trim_empty, occurs_at, trailing_ws, slice_chars, string_from_chars, trim,
    trim_chars, trim_end, trim_end_chars, trim_start, trim_start_chars,
};

verus! {

/// Width of a subtitle line, in half columns.
pub const SUBTITLE_REFLOW_LINE_UNITS: u64 = 72;

/// Longest cue, in milliseconds.
pub const SUBTITLE_REFLOW_MAX_DURATION_MS: i64 = 6000;

/// Shortest cue, in milliseconds.
pub const SUBTITLE_REFLOW_MIN_DURATION_MS: i64 = 700;

/// `char::is_ascii_whitespace`.
pub open spec fn is_ascii_ws(c: char) -> bool {
    c == ' ' || c == '\t' || c == '\n' || c == '\x0C' || c == '\r'
}

/// The width of one character, in half columns.
pub open spec fn char_width(c: char) -> int {
    if (c as u32) < 128 {
        if is_ascii_ws(c) {
            1
        } else {
            2
        }
    } else {
        4
    }
}

/// The width of a text, in half columns.
pub open spec fn text_width(s: Seq<char>) -> int
    decreases s.len(),
{
    if s.len() == 0 {
        0
    } else {
        text_width(s.drop_last()) + char_width(s.last())
    }
}

/// How good a place the end of `s` is for a line break: 3 after a sentence
/// end, 2 after a clause separator, 1 after a space or tab, else 0.  Trailing
/// whitespace is ignored.
pub open spec fn break_priority(s: Seq<char>) -> int {
    let t = trim_end(s);
    if t.len() == 0 {
        0
    } else {
        let c = t.last();
        if c == '。' || c == '！' || c == '？' || c == '!' || c == '?' {
            3
        } else if c == '，' || c == ',' || c == '、' || c == '；' || c == ';' || c == '：' || c
            == ':' {
            2
        } else if c == ' ' || c == '\t' {
            1
        } else {
            0
        }
    }
}

/// The width of one character, in half columns.
pub fn subtitle_char_width(c: char) -> (w: u64)
    ensures
        w == char_width(c),
{
    if (c as u32) < 128 {
        if c == ' ' || c == '\t' || c == '\n' || c == '\x0C' || c == '\r' {
            1
        } else {
            2
        }
    } else {
        4
    }
}

/// A text is at least as wide as it is long, and at most four times.
pub proof fn lemma_text_width_bounds(s: Seq<char>)
    ensures
        s.len() <= text_width(s) <= 4 * s.len(),
    decreases s.len(),
{
    if s.len() > 0 {
        lemma_text_width_bounds(s.drop_last());
    }
}

/// The width of two texts put together is the sum of their widths.
pub proof fn lemma_text_width_concat(a: Seq<char>, b: Seq<char>)
    ensures
        text_width(a + b) == text_width(a) + text_width(b),
    decreases b.len(),
{
    if b.len() == 0 {
        assert(a + b =~= a);
    } else {
        lemma_text_width_concat(a, b.drop_last());
        assert((a + b).drop_last() =~= a + b.drop_last());
    }
}

/// The width of a text, in half columns.
pub fn text_width_chars(v: &[char]) -> (w: u128)
    ensures
        w == text_width(v@),
        w <= 4 * v.len(),
{
    let mut w: u128 = 0;
    let mut i: usize = 0;
    while i < v.len()
        invariant
            i <= v.len(),
            w == text_width(v@.take(i as int)),
            w <= 4 * i,
        decreases v.len() - i,
    {
        assert(v@.take(i + 1).drop_last() =~= v@.take(i as int));
        w = w + subtitle_char_width(v[i]) as u128;
        i = i + 1;
    }
    assert(v@.take(v.len() as int) =~= v@);
    w
}

/// The break priority of the end of `text`.
pub fn break_priority_chars(text: &[char]) -> (p: u8)
    ensures
        p == break_priority(text@),
{
    let t = trim_end_chars(text);
    if t.len() == 0 {
        return 0;
    }
    let c = t[t.len() - 1];
    if c == '。' || c == '！' || c == '？' || c == '!' || c == '?' {
        3
    } else if c == '，' || c == ',' || c == '、' || c == '；' || c == ';' || c == '：' || c == ':' {
        2
    } else if c == ' ' || c == '\t' {
        1
    } else {
        0
    }
}

/// The width of a text, in half columns (a space or other ASCII blank is
/// one, another ASCII character two, any other character four).
pub fn subtitle_text_width(text: &str) -> (w: u128)
    ensures
        w == text_width(text@),
{
    text_width_chars(&chars_of(text))
}

/// The break priority of the end of a text.
pub fn subtitle_break_priority(text: &str) -> (p: u8)
    ensures
        p == break_priority(text@),
{
    break_priority_chars(&chars_of(text))
}

/// The state of the line wrapper after some characters.
pub struct WrapState {
    pub lines: Seq<Seq<char>>,
    pub current: Seq<char>,
    pub units: int,
    pub last_break: Option<int>,
    pub last_priority: int,
}

/// The wrapper before any character.
pub open spec fn wrap_init() -> WrapState {
    WrapState { lines: seq![], current: seq![], units: 0, last_break: None, last_priority: 0 }
}

/// The wrapper after one more character: when the character would overflow
/// a non-empty line, the line is cut at its best break (or where it stands
/// when it has none), then the character is added and the best break is
/// updated.
pub open spec fn wrap_step(st: WrapState, ch: char) -> WrapState {
    let w = char_width(ch);
    let st1 = if st.current.len() > 0 && st.units + w > SUBTITLE_REFLOW_LINE_UNITS {
        match st.last_break {
            Some(b) => {
                let line = trim(st.current.take(b));
                let rest = trim_start(st.current.skip(b));
                WrapState {
                    lines: if line.len() > 0 {
                        st.lines.push(line)
                    } else {
                        st.lines
                    },
                    current: rest,
                    units: text_width(rest),
                    last_break: None,
                    last_priority: 0,
                }
            },
            None => WrapState {
                lines: st.lines.push(trim(st.current)),
                current: seq![],
                units: 0,
                last_break: None,
                last_priority: 0,
            },
        }
    } else {
        st
    };
    let cur = st1.current.push(ch);
    let p = break_priority(cur);
    if p > 0 && p >= st1.last_priority {
        WrapState {
            lines: st1.lines,
            current: cur,
            units: st1.units + w,
            last_break: Some(cur.len() as int),
            last_priority: p,
        }
    } else {
        WrapState {
            lines: st1.lines,
            current: cur,
            units: st1.units + w,
            last_break: st1.last_break,
            last_priority: st1.last_priority,
        }
    }
}

/// The wrapper after all characters of `s`.
pub open spec fn wrap_fold(s: Seq<char>) -> WrapState
    decreases s.len(),
{
    if s.len() == 0 {
        wrap_init()
    } else {
        wrap_step(wrap_fold(s.drop_last()), s.last())
    }
}

/// The concatenation of a sequence of lines.
pub open spec fn concat_lines(ls: Seq<Seq<char>>) -> Seq<char>
    decreases ls.len(),
{
    if ls.len() == 0 {
        seq![]
    } else {
        concat_lines(ls.drop_last()) + ls.last()
    }
}

/// The lines of a wrapped text: the finished lines and the last one.
pub open spec fn wrap_lines(s: Seq<char>) -> Seq<Seq<char>> {
    let st = wrap_fold(s);
    if trim(st.current).len() > 0 {
        st.lines.push(trim(st.current))
    } else {
        st.lines
    }
}

/// A subtitle text reflowed to one line: the trimmed text when it fits;
/// else the lines that the wrapper cuts it into, joined (a cue keeps a
/// single line, so lines beyond the first are appended to it).
pub open spec fn wrap_spec(text: Seq<char>) -> Seq<char> {
    let t = trim(text);
    if text_width(t) <= SUBTITLE_REFLOW_LINE_UNITS {
        t
    } else {
        concat_lines(wrap_lines(t))
    }
}

/// The wrapper state in executable form.
struct WrapExec {
    lines: Vec<Vec<char>>,
    current: Vec<char>,
    units: u128,
    last_break: Option<usize>,
    last_priority: u8,
}

impl WrapExec {
    spec fn matches(&self, st: WrapState) -> bool {
        &&& self.lines@.map_values(|l: Vec<char>| l@) == st.lines
        &&& self.current@ == st.current
        &&& self.units == st.units
        &&& self.units == text_width(self.current@)
        &&& match self.last_break {
            Some(b) => st.last_break == Some(b as int) && b <= self.current@.len(),
            None => st.last_break is None,
        }
        &&& self.last_priority == st.last_priority
        &&& self.last_priority <= 3
    }
}

proof fn lemma_text_width_nonneg_suffix(s: Seq<char>, k: int)
    requires
        0 <= k <= s.len(),
    ensures
        text_width(s.skip(k)) <= text_width(s),
        text_width(s.take(k)) <= text_width(s),
{
    lemma_text_width_concat(s.take(k), s.skip(k));
    assert(s.take(k) + s.skip(k) =~= s);
    lemma_text_width_bounds(s.take(k));
    lemma_text_width_bounds(s.skip(k));
}

fn wrap_step_exec(st: &mut WrapExec, ch: char, Ghost(g): Ghost<WrapState>)
    requires
        old(st).matches(g),
        old(st).current@.len() < usize::MAX,
    ensures
        final(st).matches(wrap_step(g, ch)),
        final(st).current@.len() <= old(st).current@.len() + 1,
{
    proof {
        lemma_text_width_bounds(st.current@);
    }
    let w = subtitle_char_width(ch);
    if st.current.len() > 0 && st.units + w as u128 > SUBTITLE_REFLOW_LINE_UNITS as u128 {
        match st.last_break {
            Some(b) => {
                let head = slice_chars(&st.current, 0, b);
                let line = trim_chars(&head);
                let tail = slice_chars(&st.current, b, st.current.len());
                let rest = trim_start_chars(&tail);
                assert(head@ =~= g.current.take(b as int));
                assert(tail@ =~= g.current.skip(b as int));
                proof {
                    lemma_leading_ws(tail@);
                    lemma_text_width_nonneg_suffix(tail@, crate::text::leading_ws(tail@) as int);
                    lemma_text_width_nonneg_suffix(g.current, b as int);
                    lemma_text_width_bounds(rest@);
                }
                let ru = text_width_chars(&rest);
                if line.len() > 0 {
                    st.lines.push(line);
                }
                st.current = rest;
                st.units = ru;
                st.last_break = None;
                st.last_priority = 0;
            },
            None => {
                let line = trim_chars(&st.current);
                st.lines.push(line);
                st.current = Vec::new();
                st.units = 0;
                st.last_break = None;
                st.last_priority = 0;
            },
        }
    }
    let ghost g1 = if g.current.len() > 0 && g.units + char_width(ch) > SUBTITLE_REFLOW_LINE_UNITS {
        match g.last_break {
            Some(b) => {
                let line = trim(g.current.take(b));
                let rest = trim_start(g.current.skip(b));
                WrapState {
                    lines: if line.len() > 0 {
                        g.lines.push(line)
                    } else {
                        g.lines
                    },
                    current: rest,
                    units: text_width(rest),
                    last_break: None,
                    last_priority: 0,
                }
            },
            None => WrapState {
                lines: g.lines.push(trim(g.current)),
                current: seq![],
                units: 0,
                last_break: None,
                last_priority: 0,
            },
        }
    } else {
        g
    };
    assert(st.lines@.map_values(|l: Vec<char>| l@) =~= g1.lines);
    proof {
        lemma_text_width_bounds(st.current@);
    }
    st.current.push(ch);
    st.units = st.units + w as u128;
    proof {
        lemma_text_width_bounds(seq![ch]);
        assert(st.current@.drop_last() =~= g1.current);
    }
    let p = break_priority_chars(&st.current);
    if p > 0 && p >= st.last_priority {
        st.last_break = Some(st.current.len());
        st.last_priority = p;
    }
}

/// The lines that the wrapper cuts `v` into.
fn wrap_lines_exec(v: &[char]) -> (r: Vec<Vec<char>>)
    ensures
        r@.map_values(|l: Vec<char>| l@) == wrap_lines(v@),
{
    let mut st = WrapExec {
        lines: Vec::new(),
        current: Vec::new(),
        units: 0,
        last_break: None,
        last_priority: 0,
    };
    assert(st.lines@.map_values(|l: Vec<char>| l@) =~= Seq::<Seq<char>>::empty());
    assert(v@.take(0) =~= Seq::<char>::empty());
    let mut i: usize = 0;
    while i < v.len()
        invariant
            i <= v.len(),
            st.matches(wrap_fold(v@.take(i as int))),
            st.current@.len() <= i,
        decreases v.len() - i,
    {
        assert(v@.take(i + 1).drop_last() =~= v@.take(i as int));
        wrap_step_exec(&mut st, v[i], Ghost(wrap_fold(v@.take(i as int))));
        i = i + 1;
    }
    assert(v@.take(v.len() as int) =~= v@);
    let last = trim_chars(&st.current);
    let mut lines = st.lines;
    if last.len() > 0 {
        lines.push(last);
        assert(lines@.map_values(|l: Vec<char>| l@) =~= wrap_fold(v@).lines.push(trim(
            wrap_fold(v@).current,
        )));
    }
    lines
}

/// Reflows a subtitle text (see [`wrap_spec`]).
pub fn wrap_subtitle_text(text: &str) -> (r: String)
    ensures
        r@ == wrap_spec(text@),
{
    string_from_chars(&wrap_chars(&chars_of(text)))
}

/// Reflows a subtitle text given as characters (see [`wrap_spec`]).
pub fn wrap_chars(text: &[char]) -> (r: Vec<char>)
    ensures
        r@ == wrap_spec(text@),
{
    let t = trim_chars(text);
    proof {
        lemma_leading_ws(text@);
        lemma_trailing_ws(trim_start(text@));
    }
    if text_width_chars(&t) <= SUBTITLE_REFLOW_LINE_UNITS as u128 {
        return t;
    }
    let lines = wrap_lines_exec(&t);
    let ghost lv = lines@.map_values(|l: Vec<char>| l@);
    let mut out: Vec<char> = Vec::new();
    let mut i: usize = 0;
    while i < lines.len()
        invariant
            i <= lines.len(),
            lv == lines@.map_values(|l: Vec<char>| l@),
            out@ == concat_lines(lv.take(i as int)),
        decreases lines.len() - i,
    {
        assert(lv.take(i + 1).drop_last() =~= lv.take(i as int));
        extend_chars(&mut out, &lines[i]);
        i = i + 1;
    }
    assert(lv.take(lines.len() as int) =~= lv);
    out
}

/// A recognised word or character with its time span (milliseconds).
#[derive(Clone, Debug, PartialEq, Eq)]
pub struct TimedSubtitleToken {
    pub begin_ms: i64,
    pub end_ms: i64,
    pub text: String,
}

/// The value of a [`TimedSubtitleToken`].
pub struct TokenView {
    pub begin_ms: i64,
    pub end_ms: i64,
    pub text: Seq<char>,
}

impl View for TimedSubtitleToken {
    type V = TokenView;

    open spec fn view(&self) -> TokenView {
        TokenView { begin_ms: self.begin_ms, end_ms: self.end_ms, text: self.text@ }
    }
}

/// A recognised sentence with its time span and, when the recogniser gave
/// them, the timed tokens it is made of.
#[derive(Clone, Debug, PartialEq, Eq)]
pub struct RealtimeSentence {
    pub begin_ms: i64,
    pub end_ms: i64,
    pub text: String,
    pub tokens: Vec<TimedSubtitleToken>,
}

/// The value of a [`RealtimeSentence`].
pub struct SentenceView {
    pub begin_ms: i64,
    pub end_ms: i64,
    pub text: Seq<char>,
    pub tokens: Seq<TokenView>,
}

/// The values of a sequence of tokens.
pub open spec fn tokens_view(s: Seq<TimedSubtitleToken>) -> Seq<TokenView> {
    s.map_values(|t: TimedSubtitleToken| t@)
}

impl View for RealtimeSentence {
    type V = SentenceView;

    open spec fn view(&self) -> SentenceView {
        SentenceView {
            begin_ms: self.begin_ms,
            end_ms: self.end_ms,
            text: self.text@,
            tokens: tokens_view(self.tokens@),
        }
    }
}

/// The values of a sequence of sentences.
pub open spec fn sentences_view(s: Seq<RealtimeSentence>) -> Seq<SentenceView> {
    s.map_values(|x: RealtimeSentence| x@)
}

/// `a.saturating_mul(b)` for non-negative `a` and `b`.
pub open spec fn sat_mul(a: int, b: int) -> int {
    if a * b > i64::MAX {
        i64::MAX as int
    } else {
        a * b
    }
}

/// The duration that the characters of a sentence share when it has no
/// tokens: its span, but at least one millisecond per character.
pub open spec fn fallback_duration(s: SentenceView) -> int {
    if s.end_ms - s.begin_ms >= s.text.len() {
        s.end_ms - s.begin_ms
    } else {
        s.text.len() as int
    }
}

/// Character `i` of a sentence without tokens, given an even share of the
/// sentence's span (and at least one millisecond).
pub open spec fn fallback_token(s: SentenceView, i: int) -> TokenView {
    let n = s.text.len() as int;
    let d = fallback_duration(s);
    let b = s.begin_ms + sat_mul(d, i) / n;
    let e = s.begin_ms + sat_mul(d, i + 1) / n;
    TokenView {
        begin_ms: b as i64,
        end_ms: (if e >= b + 1 {
            e
        } else {
            b + 1
        }) as i64,
        text: seq![s.text[i]],
    }
}

/// The tokens that a sentence without tokens is given: one per character.
pub open spec fn fallback_tokens(s: SentenceView) -> Seq<TokenView> {
    Seq::new(s.text.len(), |i: int| fallback_token(s, i))
}

/// A token that can carry a cue: visible text and a positive span.
pub open spec fn keep_token(t: TokenView) -> bool {
    trim(t.text).len() > 0 && t.end_ms > t.begin_ms
}

/// The tokens of `ts` that can carry a cue, in order.
pub open spec fn filter_tokens(ts: Seq<TokenView>) -> Seq<TokenView>
    decreases ts.len(),
{
    if ts.len() == 0 {
        seq![]
    } else if keep_token(ts.last()) {
        filter_tokens(ts.drop_last()).push(ts.last())
    } else {
        filter_tokens(ts.drop_last())
    }
}

/// The tokens used to reflow a sentence: its own, or one per character when
/// it has none, keeping those that can carry a cue.
pub open spec fn normalize_tokens(s: SentenceView) -> Seq<TokenView> {
    if s.tokens.len() == 0 {
        filter_tokens(fallback_tokens(s))
    } else {
        filter_tokens(s.tokens)
    }
}

proof fn lemma_filter_tokens(ts: Seq<TokenView>)
    ensures
        filter_tokens(ts).len() <= ts.len(),
        forall|i: int| 0 <= i < filter_tokens(ts).len() ==> keep_token(#[trigger] filter_tokens(ts)[i]),
        forall|i: int|
            0 <= i < filter_tokens(ts).len() ==> exists|k: int|
                0 <= k < ts.len() && #[trigger] filter_tokens(ts)[i] == ts[k],
    decreases ts.len(),
{
    if ts.len() > 0 {
        let t = ts.drop_last();
        lemma_filter_tokens(t);
        let f = filter_tokens(ts);
        assert forall|i: int| 0 <= i < f.len() implies exists|k: int|
            0 <= k < ts.len() && #[trigger] f[i] == ts[k] by {
            if i < filter_tokens(t).len() {
                assert(f[i] == filter_tokens(t)[i]);
                let k = choose|k: int| 0 <= k < t.len() && filter_tokens(t)[i] == t[k];
                assert(ts[k] == t[k]);
            } else {
                assert(f[i] == ts[ts.len() - 1]);
            }
        }
        assert forall|i: int| 0 <= i < f.len() implies keep_token(#[trigger] f[i]) by {
            if i < filter_tokens(t).len() {
                assert(f[i] == filter_tokens(t)[i]);
            }
        }
    }
}

/// A copy of a token.
pub fn duplicate_token(t: &TimedSubtitleToken) -> (r: TimedSubtitleToken)
    ensures
        r@ == t@,
{
    TimedSubtitleToken { begin_ms: t.begin_ms, end_ms: t.end_ms, text: t.text.clone() }
}

/// `a.saturating_mul(b)` for non-negative `a` and `b`.
fn saturating_mul_nonneg(a: i64, b: i64) -> (r: i64)
    requires
        a >= 0,
        b >= 0,
    ensures
        r == sat_mul(a as int, b as int),
{
    match a.checked_mul(b) {
        Some(x) => x,
        None => i64::MAX,
    }
}

proof fn lemma_sat_mul_div(d: int, i: int, n: int)
    requires
        0 < n <= d,
        0 <= i <= n,
    ensures
        0 <= sat_mul(d, i) / n <= d,
{
    assert(0 <= d * i) by (nonlinear_arith)
        requires
            0 <= d,
            0 <= i,
    ;
    assert(d * i <= d * n) by (nonlinear_arith)
        requires
            0 <= d,
            i <= n,
    ;
    assert((d * n) / n == d) by (nonlinear_arith)
        requires
            0 < n,
    ;
    if d * i > i64::MAX {
        assert(i64::MAX as int / n <= i64::MAX as int / 1) by (nonlinear_arith)
            requires
                0 < n,
        ;
        assert(i64::MAX < d * n);
        assert((i64::MAX as int) / n <= (d * n) / n) by (nonlinear_arith)
            requires
                0 < n,
                i64::MAX < d * n,
        ;
    } else {
        assert((d * i) / n <= (d * n) / n) by (nonlinear_arith)
            requires
                0 < n,
                0 <= d * i <= d * n,
        ;
        assert(0 <= (d * i) / n) by (nonlinear_arith)
            requires
                0 < n,
                0 <= d * i,
        ;
    }
}

/// Whether `x` is a value of `i64`.
pub open spec fn fits_i64(x: int) -> bool {
    i64::MIN <= x <= i64::MAX
}

/// The times of character `i`'s token stay in `i64`: its start plus one
/// millisecond, and its end before it is held at least one past the start.
pub open spec fn fallback_step_fits(s: SentenceView, i: int) -> bool {
    let n = s.text.len() as int;
    let d = fallback_duration(s);
    fits_i64(s.begin_ms + sat_mul(d, i) / n + 1) && fits_i64(s.begin_ms + sat_mul(d, i + 1) / n)
}

/// Giving a sentence one token per character is done in `i64` without
/// overflow: its span, and every token's times, are values of `i64` (and
/// so is its character count, as the length of any string is).
pub open spec fn fallback_fits(s: SentenceView) -> bool {
    let n = s.text.len() as int;
    n == 0 || {
        &&& n <= i64::MAX
        &&& fits_i64(s.end_ms - s.begin_ms)
        &&& forall|i: int| 0 <= i < n ==> #[trigger] fallback_step_fits(s, i)
    }
}

/// One token per character of a sentence that has none, or `None` where
/// the `i64` arithmetic that shares out its span would overflow.
fn fallback_tokens_checked(sentence: &RealtimeSentence) -> (r: Option<Vec<TimedSubtitleToken>>)
    ensures
        r is Some <==> fallback_fits(sentence@),
        r matches Some(v) ==> tokens_view(v@) == fallback_tokens(sentence@),
{
    let chars = chars_of(sentence.text.as_str());
    if chars.len() == 0 {
        let r: Vec<TimedSubtitleToken> = Vec::new();
        assert(tokens_view(r@) =~= fallback_tokens(sentence@));
        return Some(r);
    }
    if chars.len() as u64 > 0x7fff_ffff_ffff_ffffu64 {
        return None;
    }
    let n = chars.len() as i64;
    let span_wide = sentence.end_ms as i128 - sentence.begin_ms as i128;
    if span_wide > 0x7fff_ffff_ffff_ffffi128 || span_wide < -0x8000_0000_0000_0000i128 {
        return None;
    }
    let span = sentence.end_ms - sentence.begin_ms;
    let duration = if span >= n {
        span
    } else {
        n
    };
    let mut r: Vec<TimedSubtitleToken> = Vec::new();
    let mut i: usize = 0;
    while i < chars.len()
        invariant
            i <= chars.len(),
            chars@ == sentence.text@,
            n == chars.len(),
            0 < n,
            duration == fallback_duration(sentence@),
            n <= duration,
            fits_i64(sentence@.end_ms - sentence@.begin_ms),
            forall|j: int| 0 <= j < i ==> #[trigger] fallback_step_fits(sentence@, j),
            tokens_view(r@) == fallback_tokens(sentence@).take(i as int),
        decreases chars.len() - i,
    {
        proof {
            lemma_sat_mul_div(duration as int, i as int, n as int);
            lemma_sat_mul_div(duration as int, i + 1, n as int);
        }
        let q0 = saturating_mul_nonneg(duration, i as i64) / n;
        let q1 = saturating_mul_nonneg(duration, i as i64 + 1) / n;
        let b1 = sentence.begin_ms as i128 + q0 as i128 + 1;
        let e = sentence.begin_ms as i128 + q1 as i128;
        if b1 > 0x7fff_ffff_ffff_ffffi128 || e > 0x7fff_ffff_ffff_ffffi128 {
            assert(!fallback_step_fits(sentence@, i as int));
            return None;
        }
        assert(fallback_step_fits(sentence@, i as int));
        let begin_ms = sentence.begin_ms + q0;
        let end_raw = sentence.begin_ms + q1;
        let end_ms = if end_raw >= begin_ms + 1 {
            end_raw
        } else {
            begin_ms + 1
        };
        let mut text = String::new();
        crate::text::push_char(&mut text, chars[i]);
        let ghost prev = r@;
        r.push(TimedSubtitleToken { begin_ms, end_ms, text });
        proof {
            assert(text@ =~= seq![chars@[i as int]]);
            assert(r@.last()@ == fallback_token(sentence@, i as int));
            assert(r@.drop_last() =~= prev);
            assert(tokens_view(r@) =~= tokens_view(prev).push(r@.last()@));
            assert(fallback_tokens(sentence@).take(i + 1) =~= fallback_tokens(sentence@).take(i as int).push(
                fallback_token(sentence@, i as int),
            ));
        }
        i = i + 1;
    }
    assert(fallback_tokens(sentence@).take(chars.len() as int) =~= fallback_tokens(sentence@));
    Some(r)
}

/// One token per character of a sentence that has none, sharing its span.
pub fn make_fallback_timed_tokens(sentence: &RealtimeSentence) -> (r: Vec<TimedSubtitleToken>)
    requires
        fallback_fits(sentence@),
    ensures
        tokens_view(r@) == fallback_tokens(sentence@),
{
    match fallback_tokens_checked(sentence) {
        Some(v) => v,
        None => Vec::new(),
    }
}

/// The tokens of `ts` that can carry a cue.
fn filter_tokens_exec(ts: &[TimedSubtitleToken]) -> (r: Vec<TimedSubtitleToken>)
    ensures
        tokens_view(r@) == filter_tokens(tokens_view(ts@)),
{
    let ghost tv = tokens_view(ts@);
    let mut r: Vec<TimedSubtitleToken> = Vec::new();
    let mut i: usize = 0;
    while i < ts.len()
        invariant
            i <= ts.len(),
            tv == tokens_view(ts@),
            tokens_view(r@) == filter_tokens(tv.take(i as int)),
        decreases ts.len() - i,
    {
        assert(tv.take(i + 1).drop_last() =~= tv.take(i as int));
        assert(tv.take(i + 1).last() == ts@[i as int]@);
        let v = chars_of(ts[i].text.as_str());
        let blank = is_blank(&v);
        if !blank && ts[i].end_ms > ts[i].begin_ms {
            r.push(duplicate_token(&ts[i]));
            assert(tokens_view(r@) =~= tokens_view(r@.drop_last()).push(r@.last()@));
        }
        i = i + 1;
    }
    assert(tv.take(ts.len() as int) =~= tv);
    r
}

/// The tokens used to reflow a sentence (see [`normalize_tokens`]).
pub fn normalize_timed_tokens(sentence: &RealtimeSentence) -> (r: Vec<TimedSubtitleToken>)
    requires
        sentence.tokens.len() == 0 ==> fallback_fits(sentence@),
    ensures
        tokens_view(r@) == normalize_tokens(sentence@),
{
    match normalize_checked(sentence) {
        Some(v) => v,
        None => Vec::new(),
    }
}

/// The tokens used to reflow a sentence, or `None` where a sentence without
/// tokens cannot be given one per character without `i64` overflow.
fn normalize_checked(sentence: &RealtimeSentence) -> (r: Option<Vec<TimedSubtitleToken>>)
    ensures
        r is Some <==> (sentence.tokens.len() == 0 ==> fallback_fits(sentence@)),
        r matches Some(v) ==> tokens_view(v@) == normalize_tokens(sentence@),
{
    if sentence.tokens.len() == 0 {
        match fallback_tokens_checked(sentence) {
            Some(f) => Some(filter_tokens_exec(&f)),
            None => None,
        }
    } else {
        Some(filter_tokens_exec(&sentence.tokens))
    }
}

/// One token aligned against the sentence text from `cursor`: when its
/// text (without leading whitespace) occurs in the rest of the sentence,
/// it takes the skipped characters in front and the cursor moves past it.
pub open spec fn align_step(source: Seq<char>, cursor: int, t: TokenView) -> (TokenView, int) {
    let tt = trim_start(t.text);
    if tt.len() > 0 && cursor < source.len() {
        match find(source.skip(cursor), tt) {
            Some(rel) => (
                TokenView {
                    begin_ms: t.begin_ms,
                    end_ms: t.end_ms,
                    text: source.subrange(cursor, cursor + rel) + tt,
                },
                cursor + rel + tt.len(),
            ),
            None => (t, cursor),
        }
    } else {
        (t, cursor)
    }
}

/// Tokens aligned one after the other against the sentence text.
pub open spec fn align_from(source: Seq<char>, cursor: int, ts: Seq<TokenView>) -> Seq<TokenView>
    decreases ts.len(),
{
    if ts.len() == 0 {
        seq![]
    } else {
        let (t, c) = align_step(source, cursor, ts[0]);
        seq![t] + align_from(source, c, ts.drop_first())
    }
}

/// Tokens aligned against the trimmed sentence text, so that they carry the
/// spaces and characters between them.
pub open spec fn align_spec(sentence_text: Seq<char>, ts: Seq<TokenView>) -> Seq<TokenView> {
    align_from(trim(sentence_text), 0, ts)
}

/// Aligns tokens against the sentence text (see [`align_spec`]).
pub fn align_timed_tokens_to_sentence_text(
    sentence_text: &str,
    tokens: Vec<TimedSubtitleToken>,
) -> (r: Vec<TimedSubtitleToken>)
    ensures
        tokens_view(r@) == align_spec(sentence_text@, tokens_view(tokens@)),
{
    let sv = chars_of(sentence_text);
    let source = trim_chars(&sv);
    let ghost tv = tokens_view(tokens@);
    let mut cursor: usize = 0;
    let mut r: Vec<TimedSubtitleToken> = Vec::new();
    let mut i: usize = 0;
    assert(tv.skip(0) =~= tv);
    assert(tokens_view(r@) =~= Seq::<TokenView>::empty());
    while i < tokens.len()
        invariant
            i <= tokens.len(),
            tv == tokens_view(tokens@),
            cursor <= source@.len(),
            source@ == trim(sentence_text@),
            align_spec(sentence_text@, tv) == tokens_view(r@) + align_from(source@, cursor as int, tv.skip(i as int)),
        decreases tokens.len() - i,
    {
        let t = &tokens[i];
        let ghost tg = tv[i as int];
        assert(tg == t@);
        assert(tv.skip(i as int)[0] == tg);
        assert(tv.skip(i as int).drop_first() =~= tv.skip(i + 1));
        let raw = chars_of(t.text.as_str());
        let tt = trim_start_chars(&raw);
        let mut next = duplicate_token(t);
        let mut next_cursor = cursor;
        if tt.len() > 0 && cursor < source.len() {
            proof {
                lemma_find_skip(source@, tt@, cursor as int);
                lemma_find_from(source@, tt@, cursor as int);
            }
            match find_from_exec(&source, &tt, cursor) {
                Some(k) => {
                    let mut text_chars = slice_chars(&source, cursor, k);
                    extend_chars(&mut text_chars, &tt);
                    next.text = string_from_chars(&text_chars);
                    next_cursor = k + tt.len();
                    assert(occurs_at(source@, tt@, k as int));
                },
                None => {},
            }
        }
        proof {
            let (t2, c2) = align_step(source@, cursor as int, tg);
            assert(next@ == t2);
            assert(next_cursor == c2);
            assert(align_from(source@, cursor as int, tv.skip(i as int)) =~= seq![t2] + align_from(source@, c2, tv.skip(i + 1)));
        }
        r.push(next);
        assert(tokens_view(r@) =~= tokens_view(r@.drop_last()).push(r@.last()@));
        cursor = next_cursor;
        i = i + 1;
    }
    assert(tv.skip(tokens.len() as int) =~= Seq::<TokenView>::empty());
    assert(align_from(source@, cursor as int, Seq::<TokenView>::empty()) =~= Seq::<TokenView>::empty());
    assert(tokens_view(r@) + Seq::<TokenView>::empty() =~= tokens_view(r@));
    r
}

/// The texts of a sequence of tokens, joined.
pub open spec fn concat_texts(ts: Seq<TokenView>) -> Seq<char>
    decreases ts.len(),
{
    if ts.len() == 0 {
        seq![]
    } else {
        concat_texts(ts.drop_last()) + ts.last().text
    }
}

/// The cue made of tokens `start..end`: from the first token's start to the
/// last one's end (at least the shortest cue length), with their texts
/// joined and reflowed.
pub open spec fn build_spec(ts: Seq<TokenView>, start: int, end: int) -> SentenceView {
    let b = ts[start].begin_ms;
    let e = ts[end - 1].end_ms;
    SentenceView {
        begin_ms: b,
        end_ms: (if e - b < SUBTITLE_REFLOW_MIN_DURATION_MS {
            b + SUBTITLE_REFLOW_MIN_DURATION_MS
        } else {
            e as int
        }) as i64,
        text: wrap_spec(concat_texts(ts.subrange(start, end))),
        tokens: seq![],
    }
}

/// The greedy scan for the cue that starts at token `start`: tokens are
/// taken while the line width and the cue length allow (the first one
/// always), remembering the best break seen so far (a later break of at least
/// the same priority wins).  The result is where the scan stopped and the
/// best break.
pub open spec fn scan(
    ts: Seq<TokenView>,
    start: int,
    end: int,
    units: int,
    best: Option<(int, int)>,
) -> (int, Option<(int, int)>)
    decreases ts.len() - end,
{
    if end < 0 || end >= ts.len() {
        (end, best)
    } else {
        let next_total = units + text_width(ts[end].text);
        let duration = ts[end].end_ms - ts[start].begin_ms;
        if end > start && (next_total > SUBTITLE_REFLOW_LINE_UNITS || duration
            > SUBTITLE_REFLOW_MAX_DURATION_MS) {
            (end, best)
        } else {
            let p = break_priority(ts[end].text);
            let best2 = if p > 0 && (match best {
                Some(bb) => p >= bb.1,
                None => true,
            }) {
                Some((end + 1, p))
            } else {
                best
            };
            scan(ts, start, end + 1, next_total, best2)
        }
    }
}

/// Where the cue that starts at token `start` ends: at the best break when
/// the scan stopped before the last token, else where the scan stopped.
pub open spec fn chunk_end(ts: Seq<TokenView>, start: int) -> int {
    let (end, best) = scan(ts, start, start, 0, None);
    if end == start {
        start + 1
    } else if end < ts.len() {
        match best {
            Some(bb) => if bb.0 > start {
                bb.0
            } else {
                end
            },
            None => end,
        }
    } else {
        end
    }
}

/// Where scanning tokens for a cue stops, and that it stops after its start.
pub proof fn lemma_scan(
    ts: Seq<TokenView>,
    start: int,
    end: int,
    units: int,
    best: Option<(int, int)>,
)
    requires
        0 <= start <= end <= ts.len(),
        best matches Some(bb) ==> start < bb.0 <= end,
    ensures
        end <= scan(ts, start, end, units, best).0 <= ts.len(),
        scan(ts, start, end, units, best).1 matches Some(bb) ==> start < bb.0 <= scan(
            ts,
            start,
            end,
            units,
            best,
        ).0,
        start == end && end < ts.len() ==> scan(ts, start, end, units, best).0 > end,
    decreases ts.len() - end,
{
    if end < ts.len() {
        let next_total = units + text_width(ts[end].text);
        let duration = ts[end].end_ms - ts[start].begin_ms;
        if end > start && (next_total > SUBTITLE_REFLOW_LINE_UNITS || duration
            > SUBTITLE_REFLOW_MAX_DURATION_MS) {
        } else {
            let p = break_priority(ts[end].text);
            let best2 = if p > 0 && (match best {
                Some(bb) => p >= bb.1,
                None => true,
            }) {
                Some((end + 1, p))
            } else {
                best
            };
            lemma_scan(ts, start, end + 1, next_total, best2);
        }
    }
}

/// A cue takes at least one token and no more than there are.
pub proof fn lemma_chunk_end(ts: Seq<TokenView>, start: int)
    requires
        0 <= start < ts.len(),
    ensures
        start < chunk_end(ts, start) <= ts.len(),
{
    lemma_scan(ts, start, start, 0, None);
}

/// The cues of tokens `start..`, one after the other.
pub open spec fn chunks(ts: Seq<TokenView>, start: int) -> Seq<SentenceView>
    decreases ts.len() - start,
{
    if start < 0 || start >= ts.len() {
        seq![]
    } else {
        let e = chunk_end(ts, start);
        proof {
            lemma_chunk_end(ts, start);
        }
        seq![build_spec(ts, start, e)] + chunks(ts, e)
    }
}

/// A sentence split into subtitle cues: none when it is blank or has no
/// positive span; one cue (at least the shortest cue length) when it has at
/// most one usable token; else the greedy cues over its tokens.
pub open spec fn split_spec(s: SentenceView) -> Seq<SentenceView> {
    if trim(s.text).len() == 0 || s.end_ms <= s.begin_ms {
        seq![]
    } else {
        let ts = normalize_tokens(s);
        if ts.len() <= 1 {
            seq![
                SentenceView {
                    begin_ms: s.begin_ms,
                    end_ms: (if s.end_ms >= s.begin_ms + SUBTITLE_REFLOW_MIN_DURATION_MS {
                        s.end_ms as int
                    } else {
                        s.begin_ms + SUBTITLE_REFLOW_MIN_DURATION_MS
                    }) as i64,
                    text: wrap_spec(s.text),
                    tokens: seq![],
                },
            ]
        } else {
            chunks(ts, 0)
        }
    }
}

/// The differences that the scan for the cue starting at token `start`
/// takes in `i64` (each token's end less the cue's start, up to where the
/// scan stops) are values of `i64`.
pub open spec fn scan_fits(ts: Seq<TokenView>, start: int, end: int, units: int) -> bool
    decreases ts.len() - end,
{
    if end < 0 || end >= ts.len() {
        true
    } else {
        let next_total = units + text_width(ts[end].text);
        let duration = ts[end].end_ms - ts[start].begin_ms;
        fits_i64(duration) && ((end > start && (next_total > SUBTITLE_REFLOW_LINE_UNITS || duration
            > SUBTITLE_REFLOW_MAX_DURATION_MS)) || scan_fits(ts, start, end + 1, next_total))
    }
}

/// The cue of tokens `start..end` is timed in `i64` without overflow: its
/// length, and its start plus the shortest cue length where it is shorter.
pub open spec fn cue_fits(ts: Seq<TokenView>, start: int, end: int) -> bool {
    let b = ts[start].begin_ms;
    let e = ts[end - 1].end_ms;
    fits_i64(e - b) && (e - b < SUBTITLE_REFLOW_MIN_DURATION_MS ==> fits_i64(b + SUBTITLE_REFLOW_MIN_DURATION_MS))
}

/// Cutting tokens `start..` into cues is done in `i64` without overflow.
pub open spec fn chunks_fit(ts: Seq<TokenView>, start: int) -> bool
    decreases ts.len() - start,
{
    if start < 0 || start >= ts.len() {
        true
    } else {
        let e = chunk_end(ts, start);
        proof {
            lemma_chunk_end(ts, start);
        }
        scan_fits(ts, start, start, 0) && cue_fits(ts, start, e) && chunks_fit(ts, e)
    }
}

/// Splitting a sentence into cues is done in `i64` without overflow: giving
/// it one token per character when it has none, lengthening a sentence of
/// at most one usable token to the shortest cue length, and cutting its
/// tokens into cues.  A blank sentence, or one without a positive span, is
/// not worked on.
pub open spec fn split_fits(s: SentenceView) -> bool {
    trim(s.text).len() == 0 || s.end_ms <= s.begin_ms || {
        &&& s.tokens.len() == 0 ==> fallback_fits(s)
        &&& normalize_tokens(s).len() <= 1 ==> fits_i64(s.begin_ms + SUBTITLE_REFLOW_MIN_DURATION_MS)
        &&& normalize_tokens(s).len() > 1 ==> chunks_fit(normalize_tokens(s), 0)
    }
}

/// The cue made of tokens `start..end` (see [`build_spec`]).
pub fn build_reflow_sentence(tokens: &[TimedSubtitleToken], start: usize, end: usize) -> (r: RealtimeSentence)
    requires
        start < end <= tokens.len(),
        cue_fits(tokens_view(tokens@), start as int, end as int),
    ensures
        r@ == build_spec(tokens_view(tokens@), start as int, end as int),
{
    let ghost tv = tokens_view(tokens@);
    assert(tv[start as int] == tokens@[start as int]@ && tv[end - 1] == tokens@[end - 1]@);
    let begin_ms = tokens[start].begin_ms;
    let last_end = tokens[end - 1].end_ms;
    let end_ms = if (last_end as i128) - (begin_ms as i128) < SUBTITLE_REFLOW_MIN_DURATION_MS as i128 {
        begin_ms + SUBTITLE_REFLOW_MIN_DURATION_MS
    } else {
        last_end
    };
    let mut raw: Vec<char> = Vec::new();
    let mut i: usize = start;
    assert(tv.subrange(start as int, start as int) =~= Seq::<TokenView>::empty());
    while i < end
        invariant
            start <= i <= end <= tokens.len(),
            tv == tokens_view(tokens@),
            raw@ == concat_texts(tv.subrange(start as int, i as int)),
        decreases end - i,
    {
        let c = chars_of(tokens[i].text.as_str());
        extend_chars(&mut raw, &c);
        assert(tv.subrange(start as int, i + 1).drop_last() =~= tv.subrange(start as int, i as int));
        assert(tv.subrange(start as int, i + 1).last() == tokens@[i as int]@);
        i = i + 1;
    }
    let text = wrap_chars(&raw);
    let r = RealtimeSentence { begin_ms, end_ms, text: string_from_chars(&text), tokens: Vec::new() };
    assert(r@.tokens =~= Seq::<TokenView>::empty());
    r
}

/// Whether the scan for the cue starting at token `start` stays in `i64`
/// (see [`scan_fits`]).
fn scan_fits_exec(tokens: &[TimedSubtitleToken], widths: &[u128], start: usize) -> (b: bool)
    requires
        start < tokens.len(),
        widths.len() == tokens.len(),
        forall|i: int| 0 <= i < tokens.len() ==> widths@[i] == text_width(#[trigger] tokens@[i].text@),
        forall|i: int| 0 <= i < tokens.len() ==> #[trigger] widths@[i] <= 4 * (usize::MAX as u128),
    ensures
        b == scan_fits(tokens_view(tokens@), start as int, start as int, 0),
{
    let ghost tv = tokens_view(tokens@);
    let mut end: usize = start;
    let mut units: u128 = 0;
    while end < tokens.len()
        invariant
            start <= end <= tokens.len(),
            tv == tokens_view(tokens@),
            widths.len() == tokens.len(),
            forall|i: int| 0 <= i < tokens.len() ==> widths@[i] == text_width(#[trigger] tokens@[i].text@),
            forall|i: int| 0 <= i < tokens.len() ==> #[trigger] widths@[i] <= 4 * (usize::MAX as u128),
            units <= 4 * (usize::MAX as u128),
            end == start ==> units == 0,
            scan_fits(tv, start as int, start as int, 0) == scan_fits(tv, start as int, end as int, units as int),
        decreases tokens.len() - end,
    {
        assert(tv[end as int] == tokens@[end as int]@);
        assert(tv[start as int] == tokens@[start as int]@);
        let w = widths[end];
        let next_total = units + w;
        let duration = (tokens[end].end_ms as i128) - (tokens[start].begin_ms as i128);
        if duration > 0x7fff_ffff_ffff_ffffi128 || duration < -0x8000_0000_0000_0000i128 {
            return false;
        }
        if end > start && (next_total > SUBTITLE_REFLOW_LINE_UNITS as u128 || duration
            > SUBTITLE_REFLOW_MAX_DURATION_MS as i128) {
            return true;
        }
        assert(end > start ==> next_total <= 72);
        units = next_total;
        end = end + 1;
    }
    true
}

/// Where the cue that starts at token `start` ends (see [`chunk_end`]).
fn chunk_end_exec(tokens: &[TimedSubtitleToken], widths: &[u128], start: usize) -> (e: usize)
    requires
        start < tokens.len(),
        widths.len() == tokens.len(),
        forall|i: int| 0 <= i < tokens.len() ==> widths@[i] == text_width(#[trigger] tokens@[i].text@),
        forall|i: int| 0 <= i < tokens.len() ==> #[trigger] widths@[i] <= 4 * (usize::MAX as u128),
    ensures
        e == chunk_end(tokens_view(tokens@), start as int),
{
    let ghost tv = tokens_view(tokens@);
    let mut end: usize = start;
    let mut units: u128 = 0;
    let mut best: Option<(usize, u8)> = None;
    let ghost gbest: Option<(int, int)> = None;
    while end < tokens.len()
        invariant_except_break
            start <= end <= tokens.len(),
            tv == tokens_view(tokens@),
            widths.len() == tokens.len(),
            forall|i: int| 0 <= i < tokens.len() ==> widths@[i] == text_width(#[trigger] tokens@[i].text@),
            forall|i: int| 0 <= i < tokens.len() ==> #[trigger] widths@[i] <= 4 * (usize::MAX as u128),
            units <= 4 * (usize::MAX as u128),
            end == start ==> units == 0,
            scan(tv, start as int, start as int, 0, None) == scan(tv, start as int, end as int, units as int, gbest),
            match best {
                Some(b) => gbest == Some((b.0 as int, b.1 as int)),
                None => gbest is None,
            },
        ensures
            start <= end <= tokens.len(),
            scan(tv, start as int, start as int, 0, None) == (end as int, gbest),
            match best {
                Some(b) => gbest == Some((b.0 as int, b.1 as int)),
                None => gbest is None,
            },
        decreases tokens.len() - end,
    {
        assert(tv[end as int] == tokens@[end as int]@);
        let w = widths[end];
        let next_total = units + w;
        let duration = (tokens[end].end_ms as i128) - (tokens[start].begin_ms as i128);
        if end > start && (next_total > SUBTITLE_REFLOW_LINE_UNITS as u128 || duration
            > SUBTITLE_REFLOW_MAX_DURATION_MS as i128) {
            break;
        }
        assert(end > start ==> next_total <= 72);
        let c = chars_of(tokens[end].text.as_str());
        let p = break_priority_chars(&c);
        let replace = p > 0 && match best {
            Some(b) => p >= b.1,
            None => true,
        };
        if replace {
            best = Some((end + 1, p));
            proof {
                gbest = Some((end + 1, p as int));
            }
        }
        units = next_total;
        end = end + 1;
    }
    proof {
        lemma_scan(tv, start as int, start as int, 0, None);
    }
    if end == start {
        start + 1
    } else if end < tokens.len() {
        match best {
            Some(b) => if b.0 > start {
                b.0
            } else {
                end
            },
            None => end,
        }
    } else {
        end
    }
}

/// Splits a sentence into subtitle cues (see [`split_spec`]), or gives
/// `None` where the `i64` arithmetic of splitting it would overflow (see
/// [`split_fits`]).
pub fn split_sentence_checked(sentence: &RealtimeSentence) -> (r: Option<Vec<RealtimeSentence>>)
    ensures
        r is Some <==> split_fits(sentence@),
        r matches Some(v) ==> sentences_view(v@) == split_spec(sentence@),
{
    let text = chars_of(sentence.text.as_str());
    if is_blank(&text) || sentence.end_ms <= sentence.begin_ms {
        let r: Vec<RealtimeSentence> = Vec::new();
        assert(sentences_view(r@) =~= Seq::<SentenceView>::empty());
        return Some(r);
    }
    let tokens = match normalize_checked(sentence) {
        Some(t) => t,
        None => return None,
    };
    let ghost tv = tokens_view(tokens@);
    if tokens.len() <= 1 {
        if sentence.begin_ms > i64::MAX - SUBTITLE_REFLOW_MIN_DURATION_MS {
            return None;
        }
        let end_ms = if sentence.end_ms >= sentence.begin_ms + SUBTITLE_REFLOW_MIN_DURATION_MS {
            sentence.end_ms
        } else {
            sentence.begin_ms + SUBTITLE_REFLOW_MIN_DURATION_MS
        };
        let wrapped = wrap_chars(&text);
        let mut r: Vec<RealtimeSentence> = Vec::new();
        r.push(
            RealtimeSentence {
                begin_ms: sentence.begin_ms,
                end_ms,
                text: string_from_chars(&wrapped),
                tokens: Vec::new(),
            },
        );
        assert(r@[0]@.tokens =~= Seq::<TokenView>::empty());
        assert(sentences_view(r@) =~= split_spec(sentence@));
        return Some(r);
    }
    let mut widths: Vec<u128> = Vec::new();
    let mut k: usize = 0;
    while k < tokens.len()
        invariant
            k <= tokens.len(),
            widths.len() == k,
            forall|i: int| 0 <= i < k ==> widths@[i] == text_width(#[trigger] tokens@[i].text@),
            forall|i: int| 0 <= i < k ==> #[trigger] widths@[i] <= 4 * (usize::MAX as u128),
        decreases tokens.len() - k,
    {
        let c = chars_of(tokens[k].text.as_str());
        widths.push(text_width_chars(&c));
        k = k + 1;
    }
    let mut r: Vec<RealtimeSentence> = Vec::new();
    let mut start: usize = 0;
    assert(sentences_view(r@) =~= Seq::<SentenceView>::empty());
    assert(sentences_view(r@) + chunks(tv, 0) =~= chunks(tv, 0));
    assert(split_fits(sentence@) == chunks_fit(tv, 0));
    while start < tokens.len()
        invariant
            start <= tokens.len(),
            tv == tokens_view(tokens@),
            widths.len() == tokens.len(),
            forall|i: int| 0 <= i < tokens.len() ==> widths@[i] == text_width(#[trigger] tokens@[i].text@),
            forall|i: int| 0 <= i < tokens.len() ==> #[trigger] widths@[i] <= 4 * (usize::MAX as u128),
            chunks(tv, 0) == sentences_view(r@) + chunks(tv, start as int),
            split_fits(sentence@) == chunks_fit(tv, start as int),
        decreases tokens.len() - start,
    {
        if !scan_fits_exec(&tokens, &widths, start) {
            assert(!chunks_fit(tv, start as int));
            return None;
        }
        let e = chunk_end_exec(&tokens, &widths, start);
        proof {
            lemma_chunk_end(tv, start as int);
            assert(tv[start as int] == tokens@[start as int]@);
            assert(tv[e - 1] == tokens@[e - 1]@);
        }
        let first = tokens[start].begin_ms as i128;
        let length = tokens[e - 1].end_ms as i128 - first;
        if length > 0x7fff_ffff_ffff_ffffi128 || length < -0x8000_0000_0000_0000i128 || (length
            < SUBTITLE_REFLOW_MIN_DURATION_MS as i128 && first + SUBTITLE_REFLOW_MIN_DURATION_MS as i128
            > 0x7fff_ffff_ffff_ffffi128) {
            assert(!cue_fits(tv, start as int, e as int));
            assert(!chunks_fit(tv, start as int));
            return None;
        }
        let cue = build_reflow_sentence(&tokens, start, e);
        r.push(cue);
        assert(sentences_view(r@) =~= sentences_view(r@.drop_last()).push(r@.last()@));
        assert(chunks(tv, start as int) =~= seq![build_spec(tv, start as int, e as int)] + chunks(tv, e as int));
        start = e;
    }
    assert(chunks(tv, start as int) =~= Seq::<SentenceView>::empty());
    assert(sentences_view(r@) + Seq::<SentenceView>::empty() =~= sentences_view(r@));
    Some(r)
}

/// Splits a sentence into subtitle cues (see [`split_spec`]).
pub fn split_sentence_for_subtitles(sentence: &RealtimeSentence) -> (r: Vec<RealtimeSentence>)
    requires
        split_fits(sentence@),
    ensures
        sentences_view(r@) == split_spec(sentence@),
{
    match split_sentence_checked(sentence) {
        Some(v) => v,
        None => Vec::new(),
    }
}

proof fn lemma_chunks_min_duration(ts: Seq<TokenView>, start: int)
    requires
        0 <= start,
        chunks_fit(ts, start),
    ensures
        forall|i: int| 0 <= i < chunks(ts, start).len() ==>
            #[trigger] chunks(ts, start)[i].end_ms - chunks(ts, start)[i].begin_ms
                >= SUBTITLE_REFLOW_MIN_DURATION_MS,
    decreases ts.len() - start,
{
    if start < ts.len() {
        let e = chunk_end(ts, start);
        lemma_chunk_end(ts, start);
        lemma_chunks_min_duration(ts, e);
        let c = chunks(ts, start);
        assert(c =~= seq![build_spec(ts, start, e)] + chunks(ts, e));
        assert(cue_fits(ts, start, e));
        assert forall|i: int| 0 <= i < c.len() implies #[trigger] c[i].end_ms - c[i].begin_ms
            >= SUBTITLE_REFLOW_MIN_DURATION_MS by {
            if i > 0 {
                assert(c[i] == chunks(ts, e)[i - 1]);
            }
        }
    }
}

/// Every cue that splitting a sentence gives lasts at least the shortest cue
/// length.
pub proof fn lemma_split_min_duration(s: SentenceView)
    requires
        split_fits(s),
    ensures
        forall|i: int| 0 <= i < split_spec(s).len() ==>
            #[trigger] split_spec(s)[i].end_ms - split_spec(s)[i].begin_ms
                >= SUBTITLE_REFLOW_MIN_DURATION_MS,
{
    if !(trim(s.text).len() == 0 || s.end_ms <= s.begin_ms) && normalize_tokens(s).len() > 1 {
        lemma_chunks_min_duration(normalize_tokens(s), 0);
    }
}

/// The characters of a text that are not whitespace, in order.
pub open spec fn visible_chars(s: Seq<char>) -> Seq<char>
    decreases s.len(),
{
    if s.len() == 0 {
        seq![]
    } else if is_ws(s.last()) {
        visible_chars(s.drop_last())
    } else {
        visible_chars(s.drop_last()).push(s.last())
    }
}

/// The texts of a list of cues, joined.
pub open spec fn cue_texts(cs: Seq<SentenceView>) -> Seq<char>
    decreases cs.len(),
{
    if cs.len() == 0 {
        seq![]
    } else {
        cue_texts(cs.drop_last()) + cs.last().text
    }
}

proof fn lemma_visible_add(a: Seq<char>, b: Seq<char>)
    ensures
        visible_chars(a + b) == visible_chars(a) + visible_chars(b),
    decreases b.len(),
{
    if b.len() == 0 {
        assert(a + b =~= a);
        assert(visible_chars(a) + visible_chars(b) =~= visible_chars(a));
    } else {
        lemma_visible_add(a, b.drop_last());
        assert((a + b).drop_last() =~= a + b.drop_last());
        assert((a + b).last() == b.last());
        if is_ws(b.last()) {
        } else {
            assert(visible_chars(a) + visible_chars(b.drop_last()).push(b.last()) =~= (visible_chars(a)
                + visible_chars(b.drop_last())).push(b.last()));
        }
    }
}

proof fn lemma_visible_all_ws(s: Seq<char>)
    requires
        forall|i: int| 0 <= i < s.len() ==> is_ws(#[trigger] s[i]),
    ensures
        visible_chars(s) == Seq::<char>::empty(),
    decreases s.len(),
{
    if s.len() > 0 {
        assert(is_ws(s[s.len() - 1]));
        lemma_visible_all_ws(s.drop_last());
    }
}

proof fn lemma_visible_trim(s: Seq<char>)
    ensures
        visible_chars(trim_start(s)) == visible_chars(s),
        visible_chars(trim(s)) == visible_chars(s),
{
    lemma_leading_ws(s);
    let l = leading_ws(s) as int;
    assert(s =~= s.take(l) + s.skip(l));
    lemma_visible_all_ws(s.take(l));
    lemma_visible_add(s.take(l), s.skip(l));
    assert(visible_chars(s.take(l)) + visible_chars(s.skip(l)) =~= visible_chars(s.skip(l)));
    let t = trim_start(s);
    lemma_trailing_ws(t);
    let k = t.len() - trailing_ws(t);
    assert(t =~= t.take(k) + t.skip(k));
    assert forall|i: int| 0 <= i < t.skip(k).len() implies is_ws(#[trigger] t.skip(k)[i]) by {
        assert(t.skip(k)[i] == t[k + i]);
    }
    lemma_visible_all_ws(t.skip(k));
    lemma_visible_add(t.take(k), t.skip(k));
    assert(visible_chars(t.take(k)) + visible_chars(t.skip(k)) =~= visible_chars(t.take(k)));
}

proof fn lemma_visible_concat_lines_push(ls: Seq<Seq<char>>, l: Seq<char>)
    ensures
        visible_chars(concat_lines(ls.push(l))) == visible_chars(concat_lines(ls)) + visible_chars(l),
{
    assert(ls.push(l).drop_last() =~= ls);
    lemma_visible_add(concat_lines(ls), l);
}

/// What the wrapper keeps: the visible characters of its finished lines and
/// of the line it builds are those of the text so far.
proof fn lemma_wrap_fold_visible(t: Seq<char>)
    ensures
        visible_chars(concat_lines(wrap_fold(t).lines)) + visible_chars(wrap_fold(t).current) == visible_chars(t),
        wrap_fold(t).last_break matches Some(b) ==> 0 <= b <= wrap_fold(t).current.len(),
    decreases t.len(),
{
    if t.len() == 0 {
        assert(visible_chars(concat_lines(Seq::<Seq<char>>::empty())) + visible_chars(Seq::<char>::empty())
            =~= Seq::<char>::empty());
    } else {
        let pre = t.drop_last();
        let ch = t.last();
        lemma_wrap_fold_visible(pre);
        let st = wrap_fold(pre);
        let w = char_width(ch);
        let st1 = if st.current.len() > 0 && st.units + w > SUBTITLE_REFLOW_LINE_UNITS {
            match st.last_break {
                Some(b) => {
                    let line = trim(st.current.take(b));
                    let rest = trim_start(st.current.skip(b));
                    WrapState {
                        lines: if line.len() > 0 {
                            st.lines.push(line)
                        } else {
                            st.lines
                        },
                        current: rest,
                        units: text_width(rest),
                        last_break: None,
                        last_priority: 0,
                    }
                },
                None => WrapState {
                    lines: st.lines.push(trim(st.current)),
                    current: seq![],
                    units: 0,
                    last_break: None,
                    last_priority: 0,
                },
            }
        } else {
            st
        };
        assert(visible_chars(concat_lines(st1.lines)) + visible_chars(st1.current) == visible_chars(
            concat_lines(st.lines),
        ) + visible_chars(st.current)) by {
            if st.current.len() > 0 && st.units + w > SUBTITLE_REFLOW_LINE_UNITS {
                match st.last_break {
                    Some(b) => {
                        let line = trim(st.current.take(b));
                        let rest = trim_start(st.current.skip(b));
                        lemma_visible_trim(st.current.take(b));
                        lemma_visible_trim(st.current.skip(b));
                        assert(st.current =~= st.current.take(b) + st.current.skip(b));
                        lemma_visible_add(st.current.take(b), st.current.skip(b));
                        if line.len() > 0 {
                            lemma_visible_concat_lines_push(st.lines, line);
                        } else {
                            assert(visible_chars(line) =~= Seq::<char>::empty());
                        }
                    },
                    None => {
                        lemma_visible_concat_lines_push(st.lines, trim(st.current));
                        lemma_visible_trim(st.current);
                        assert(visible_chars(Seq::<char>::empty()) =~= Seq::<char>::empty());
                    },
                }
            }
        }
        let cur = st1.current.push(ch);
        assert(cur.drop_last() =~= st1.current);
        assert(wrap_fold(t).current == cur);
        assert(wrap_fold(t).lines == st1.lines);
        assert(pre.push(ch).drop_last() =~= pre);
        assert(t =~= pre.push(ch));
        if is_ws(ch) {
            assert(visible_chars(pre.push(ch)) == visible_chars(pre));
            assert(visible_chars(cur) == visible_chars(st1.current));
        } else {
            assert(visible_chars(pre.push(ch)) == visible_chars(pre).push(ch));
            assert(visible_chars(cur) == visible_chars(st1.current).push(ch));
            assert(visible_chars(concat_lines(st1.lines)) + visible_chars(st1.current).push(ch) =~= (
            visible_chars(concat_lines(st1.lines)) + visible_chars(st1.current)).push(ch));
        }
    }
}

/// Reflowing a subtitle text keeps its visible characters, in order.
pub proof fn lemma_wrap_keeps_visible(text: Seq<char>)
    ensures
        visible_chars(wrap_spec(text)) == visible_chars(text),
{
    let t = trim(text);
    lemma_visible_trim(text);
    if text_width(t) > SUBTITLE_REFLOW_LINE_UNITS {
        lemma_wrap_fold_visible(t);
        let st = wrap_fold(t);
        if trim(st.current).len() > 0 {
            lemma_visible_concat_lines_push(st.lines, trim(st.current));
            lemma_visible_trim(st.current);
        } else {
            lemma_trim_empty(st.current);
            lemma_visible_all_ws(st.current);
        }
    }
}

proof fn lemma_concat_texts_add(a: Seq<TokenView>, b: Seq<TokenView>)
    ensures
        concat_texts(a + b) == concat_texts(a) + concat_texts(b),
    decreases b.len(),
{
    if b.len() == 0 {
        assert(a + b =~= a);
        assert(concat_texts(a) + concat_texts(b) =~= concat_texts(a));
    } else {
        lemma_concat_texts_add(a, b.drop_last());
        assert((a + b).drop_last() =~= a + b.drop_last());
        assert((a + b).last() == b.last());
        assert(concat_texts(a) + (concat_texts(b.drop_last()) + b.last().text) =~= (concat_texts(a)
            + concat_texts(b.drop_last())) + b.last().text);
    }
}

proof fn lemma_cue_texts_add(a: Seq<SentenceView>, b: Seq<SentenceView>)
    ensures
        cue_texts(a + b) == cue_texts(a) + cue_texts(b),
    decreases b.len(),
{
    if b.len() == 0 {
        assert(a + b =~= a);
        assert(cue_texts(a) + cue_texts(b) =~= cue_texts(a));
    } else {
        lemma_cue_texts_add(a, b.drop_last());
        assert((a + b).drop_last() =~= a + b.drop_last());
        assert((a + b).last() == b.last());
        assert(cue_texts(a) + (cue_texts(b.drop_last()) + b.last().text) =~= (cue_texts(a) + cue_texts(
            b.drop_last(),
        )) + b.last().text);
    }
}

proof fn lemma_cue_texts_one(x: SentenceView)
    ensures
        cue_texts(seq![x]) == x.text,
{
    let q = seq![x];
    assert(q.drop_last() =~= Seq::<SentenceView>::empty());
    assert(q.last() == x);
    assert(cue_texts(q.drop_last()) =~= Seq::<char>::empty());
    assert(Seq::<char>::empty() + x.text =~= x.text);
}

proof fn lemma_visible_one(c: char)
    requires
        !is_ws(c),
    ensures
        visible_chars(seq![c]) == seq![c],
{
    let q = seq![c];
    assert(q.drop_last() =~= Seq::<char>::empty());
    assert(q.last() == c);
    assert(visible_chars(q.drop_last()) =~= Seq::<char>::empty());
    assert(Seq::<char>::empty().push(c) =~= seq![c]);
}

proof fn lemma_chunks_visible(ts: Seq<TokenView>, start: int)
    requires
        0 <= start <= ts.len(),
    ensures
        visible_chars(cue_texts(chunks(ts, start))) == visible_chars(concat_texts(ts.subrange(start, ts.len() as int))),
    decreases ts.len() - start,
{
    if start == ts.len() {
        assert(ts.subrange(start, ts.len() as int) =~= Seq::<TokenView>::empty());
        assert(visible_chars(Seq::<char>::empty()) =~= Seq::<char>::empty());
    } else {
        let e = chunk_end(ts, start);
        lemma_chunk_end(ts, start);
        lemma_chunks_visible(ts, e);
        let first = build_spec(ts, start, e);
        assert(chunks(ts, start) == seq![first] + chunks(ts, e));
        lemma_cue_texts_add(seq![first], chunks(ts, e));
        lemma_cue_texts_one(first);
        lemma_wrap_keeps_visible(concat_texts(ts.subrange(start, e)));
        lemma_visible_add(first.text, cue_texts(chunks(ts, e)));
        assert(ts.subrange(start, ts.len() as int) =~= ts.subrange(start, e) + ts.subrange(e, ts.len() as int));
        lemma_concat_texts_add(ts.subrange(start, e), ts.subrange(e, ts.len() as int));
        lemma_visible_add(concat_texts(ts.subrange(start, e)), concat_texts(ts.subrange(e, ts.len() as int)));
    }
}

proof fn lemma_fallback_token_keeps(s: SentenceView, i: int)
    requires
        fallback_fits(s),
        0 <= i < s.text.len(),
    ensures
        fallback_token(s, i).end_ms > fallback_token(s, i).begin_ms,
        keep_token(fallback_token(s, i)) <==> !is_ws(s.text[i]),
{
    let n = s.text.len() as int;
    let d = fallback_duration(s);
    lemma_sat_mul_div(d, i, n);
    lemma_sat_mul_div(d, i + 1, n);
    assert(fallback_step_fits(s, i));
    let t = fallback_token(s, i);
    lemma_trim_empty(t.text);
    assert(t.text.len() == 1 && t.text[0] == s.text[i]);
}

proof fn lemma_fallback_visible(s: SentenceView, k: int)
    requires
        fallback_fits(s),
        0 <= k <= s.text.len(),
    ensures
        visible_chars(concat_texts(filter_tokens(fallback_tokens(s).take(k)))) == visible_chars(s.text.take(k)),
    decreases k,
{
    let ft = fallback_tokens(s);
    if k == 0 {
        assert(ft.take(0) =~= Seq::<TokenView>::empty());
        assert(s.text.take(0) =~= Seq::<char>::empty());
    } else {
        lemma_fallback_visible(s, k - 1);
        let c = s.text[k - 1];
        assert(ft.take(k).drop_last() =~= ft.take(k - 1));
        assert(ft.take(k).last() == fallback_token(s, k - 1));
        assert(s.text.take(k) =~= s.text.take(k - 1).push(c));
        assert(s.text.take(k).drop_last() =~= s.text.take(k - 1));
        lemma_fallback_token_keeps(s, k - 1);
        let f0 = filter_tokens(ft.take(k - 1));
        if !is_ws(c) {
            let tok = fallback_token(s, k - 1);
            assert(filter_tokens(ft.take(k)) == f0.push(tok));
            assert(f0.push(tok).drop_last() =~= f0);
            assert(tok.text =~= seq![c]);
            lemma_visible_add(concat_texts(f0), seq![c]);
            lemma_visible_one(c);
            assert(visible_chars(concat_texts(f0)) + seq![c] =~= visible_chars(concat_texts(f0)).push(c));
        } else {
            assert(filter_tokens(ft.take(k)) == f0);
        }
    }
}

/// Tokens whose spans are all positive and whose texts, joined, have the
/// sentence's visible characters.
pub open spec fn tokens_cover_text(s: SentenceView) -> bool {
    &&& forall|i: int| 0 <= i < s.tokens.len() ==> (#[trigger] s.tokens[i]).end_ms > s.tokens[i].begin_ms
    &&& visible_chars(concat_texts(s.tokens)) == visible_chars(s.text)
}

proof fn lemma_filter_visible(ts: Seq<TokenView>)
    requires
        forall|i: int| 0 <= i < ts.len() ==> (#[trigger] ts[i]).end_ms > ts[i].begin_ms,
    ensures
        visible_chars(concat_texts(filter_tokens(ts))) == visible_chars(concat_texts(ts)),
    decreases ts.len(),
{
    if ts.len() > 0 {
        let t = ts.drop_last();
        let last = ts.last();
        assert forall|i: int| 0 <= i < t.len() implies (#[trigger] t[i]).end_ms > t[i].begin_ms by {
            assert(t[i] == ts[i]);
        }
        lemma_filter_visible(t);
        lemma_visible_add(concat_texts(t), last.text);
        if keep_token(last) {
            let f0 = filter_tokens(t);
            assert(filter_tokens(ts) == f0.push(last));
            assert(f0.push(last).drop_last() =~= f0);
            lemma_visible_add(concat_texts(f0), last.text);
        } else {
            assert(ts[ts.len() - 1] == last);
            lemma_trim_empty(last.text);
            lemma_visible_all_ws(last.text);
            assert(visible_chars(concat_texts(t)) + visible_chars(last.text) =~= visible_chars(concat_texts(t)));
        }
    }
}

/// Splitting a sentence into cues keeps its visible text: the cues' texts,
/// joined, hold the sentence's characters other than whitespace, in order,
/// when the sentence has no tokens, or tokens that all have a positive span
/// and together carry its visible text.  Each cue has no tokens of its own.
pub proof fn lemma_split_keeps_text(s: SentenceView)
    requires
        split_fits(s),
        s.tokens.len() == 0 || tokens_cover_text(s),
        s.end_ms > s.begin_ms,
    ensures
        visible_chars(cue_texts(split_spec(s))) == visible_chars(s.text),
        forall|i: int| 0 <= i < split_spec(s).len() ==> (#[trigger] split_spec(s)[i]).tokens.len() == 0,
{
    if trim(s.text).len() == 0 {
        lemma_trim_empty(s.text);
        lemma_visible_all_ws(s.text);
        assert(visible_chars(Seq::<char>::empty()) =~= Seq::<char>::empty());
    } else {
        let ts = normalize_tokens(s);
        if ts.len() <= 1 {
            let cue = split_spec(s)[0];
            assert(split_spec(s) == seq![cue]);
            lemma_cue_texts_one(cue);
            lemma_wrap_keeps_visible(s.text);
        } else {
            lemma_chunks_visible(ts, 0);
            assert(ts.subrange(0, ts.len() as int) =~= ts);
            if s.tokens.len() == 0 {
                lemma_fallback_visible(s, s.text.len() as int);
                assert(fallback_tokens(s).take(s.text.len() as int) =~= fallback_tokens(s));
                assert(s.text.take(s.text.len() as int) =~= s.text);
            } else {
                lemma_filter_visible(s.tokens);
            }
            lemma_chunks_no_tokens(ts, 0);
        }
    }
}

proof fn lemma_chunks_no_tokens(ts: Seq<TokenView>, start: int)
    requires
        0 <= start <= ts.len(),
    ensures
        forall|i: int| 0 <= i < chunks(ts, start).len() ==> (#[trigger] chunks(ts, start)[i]).tokens.len() == 0,
    decreases ts.len() - start,
{
    if start < ts.len() {
        let e = chunk_end(ts, start);
        lemma_chunk_end(ts, start);
        lemma_chunks_no_tokens(ts, e);
        assert forall|i: int| 0 <= i < chunks(ts, start).len() implies (#[trigger] chunks(ts, start)[i]).tokens.len()
            == 0 by {
            if i > 0 {
                assert(chunks(ts, start)[i] == chunks(ts, e)[i - 1]);
            }
        }
    }
}

/// Tokens in time order: each ends no later than any later one begins.
pub open spec fn tokens_ordered(ts: Seq<TokenView>) -> bool {
    forall|i: int, j: int| #![trigger ts[i], ts[j]] 0 <= i < j < ts.len() ==> ts[i].end_ms <= ts[j].begin_ms
}

/// Consecutive cues do not overlap, except where a cue shorter than the
/// shortest cue length was lengthened to it.
pub open spec fn cues_apart(cs: Seq<SentenceView>) -> bool {
    forall|k: int|
        0 <= k < cs.len() - 1 ==> (#[trigger] cs[k]).end_ms <= cs[k + 1].begin_ms || cs[k].end_ms == cs[k].begin_ms
            + SUBTITLE_REFLOW_MIN_DURATION_MS
}

proof fn lemma_filter_ordered(ts: Seq<TokenView>)
    requires
        tokens_ordered(ts),
    ensures
        tokens_ordered(filter_tokens(ts)),
    decreases ts.len(),
{
    if ts.len() > 0 {
        let t = ts.drop_last();
        assert forall|i: int, j: int| 0 <= i < j < t.len() implies t[i].end_ms <= t[j].begin_ms by {
            assert(t[i] == ts[i] && t[j] == ts[j]);
        }
        lemma_filter_ordered(t);
        lemma_filter_tokens(t);
        if keep_token(ts.last()) {
            let f0 = filter_tokens(t);
            let f = f0.push(ts.last());
            assert(filter_tokens(ts) == f);
            assert forall|i: int, j: int| 0 <= i < j < f.len() implies f[i].end_ms <= f[j].begin_ms by {
                assert(f[i] == f0[i]);
                if j < f0.len() {
                    assert(f[j] == f0[j]);
                } else {
                    let k = choose|k: int| 0 <= k < t.len() && f0[i] == t[k];
                    assert(t[k] == ts[k]);
                    assert(f[j] == ts[ts.len() - 1]);
                }
            }
        }
    }
}

proof fn lemma_chunks_apart(ts: Seq<TokenView>, start: int)
    requires
        0 <= start <= ts.len(),
        tokens_ordered(ts),
        chunks_fit(ts, start),
    ensures
        cues_apart(chunks(ts, start)),
        start < ts.len() ==> chunks(ts, start).len() > 0 && chunks(ts, start)[0].begin_ms == ts[start].begin_ms,
    decreases ts.len() - start,
{
    if start < ts.len() {
        let e = chunk_end(ts, start);
        lemma_chunk_end(ts, start);
        lemma_chunks_apart(ts, e);
        let first = build_spec(ts, start, e);
        let rest = chunks(ts, e);
        let cs = chunks(ts, start);
        assert(cs == seq![first] + rest);
        assert(cs[0] == first);
        assert forall|k: int| 0 <= k < cs.len() - 1 implies (#[trigger] cs[k]).end_ms <= cs[k + 1].begin_ms
            || cs[k].end_ms == cs[k].begin_ms + SUBTITLE_REFLOW_MIN_DURATION_MS by {
            if k == 0 {
                assert(e < ts.len());
                assert(cs[1] == rest[0]);
                assert(cue_fits(ts, start, e));
                assert(ts[e - 1].end_ms <= ts[e].begin_ms);
            } else {
                assert(cs[k] == rest[k - 1]);
                assert(cs[k + 1] == rest[k]);
            }
        }
    }
}

proof fn lemma_fallback_ordered(s: SentenceView)
    requires
        fallback_fits(s),
        fallback_duration(s) * s.text.len() <= i64::MAX,
    ensures
        tokens_ordered(fallback_tokens(s)),
{
    let n = s.text.len() as int;
    let d = fallback_duration(s);
    let ft = fallback_tokens(s);
    assert forall|i: int, j: int| 0 <= i < j < ft.len() implies ft[i].end_ms <= ft[j].begin_ms by {
        lemma_sat_mul_div(d, i, n);
        lemma_sat_mul_div(d, i + 1, n);
        lemma_sat_mul_div(d, j, n);
        assert(fallback_step_fits(s, i) && fallback_step_fits(s, j));
        assert(0 <= d * i <= d * (i + 1) <= d * j <= d * n && d * (i + 1) == d * i + d) by (nonlinear_arith)
            requires
                0 <= i < j <= n,
                d >= 0,
        ;
        assert((d * (i + 1)) / n >= (d * i) / n + 1) by (nonlinear_arith)
            requires
                n > 0,
                d >= n,
                d * i >= 0,
                d * (i + 1) == d * i + d,
        ;
        assert((d * (i + 1)) / n <= (d * j) / n) by (nonlinear_arith)
            requires
                n > 0,
                0 <= d * (i + 1) <= d * j,
        ;
    }
}

/// Consecutive cues of a sentence do not overlap, except where a cue
/// shorter than the shortest cue length was lengthened to it: when its own
/// tokens are in time order, or, without tokens, when the shares of its
/// span that its characters get are not cut off at the largest `i64`.
pub proof fn lemma_split_cues_apart(s: SentenceView)
    requires
        split_fits(s),
        s.tokens.len() > 0 ==> tokens_ordered(s.tokens),
        s.tokens.len() == 0 ==> fallback_duration(s) * s.text.len() <= i64::MAX,
    ensures
        cues_apart(split_spec(s)),
{
    if !(trim(s.text).len() == 0 || s.end_ms <= s.begin_ms) && normalize_tokens(s).len() > 1 {
        if s.tokens.len() == 0 {
            lemma_fallback_ordered(s);
            lemma_filter_ordered(fallback_tokens(s));
        } else {
            lemma_filter_ordered(s.tokens);
        }
        lemma_chunks_apart(normalize_tokens(s), 0);
    }
}

} // verus!
