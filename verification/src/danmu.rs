//! Recorded danmaku ("danmu") entries and the text forms they are stored in.
//!
//! A stored entry is one line `ts:content`, where `content` carries a marker
//! prefix when emotes must not be rendered for it.
use vstd::prelude::*;

use crate::decimal::{int_decimal, is_digit, lemma_nat_digits, lemma_parse_int_decimal, nat_digits, parse_i64, parse_i64_spec, push_i64_decimal};
use crate::text::{
    chars_of, chars_view, find, find_from_exec, lemma_find_from, lemma_find_from_at, lines_spec,
    occurs_at, slice_chars, split_lines, starts_with, starts_with_exec, string_from_chars,
    strip_cr, extend_chars,
};

verus! {

/// The marker that stored content carries when emotes are not rendered.
pub const NO_EMOTE_PREFIX: &'static str = "__BSR_NO_EMOTE__";

/// The characters of [`NO_EMOTE_PREFIX`].
pub open spec fn no_emote_prefix() -> Seq<char> {
    seq!['_', '_', 'B', 'S', 'R', '_', 'N', 'O', '_', 'E', 'M', 'O', 'T', 'E', '_', '_']
}

/// One danmaku message: its time stamp (milliseconds), its text, and
/// whether emote tokens in the text are drawn as images.
#[derive(Clone, Debug, PartialEq, Eq)]
pub struct DanmuEntry {
    pub ts: i64,
    pub content: String,
    pub render_emotes: bool,
}

/// The mathematical value of a [`DanmuEntry`].
pub struct DanmuEntryView {
    pub ts: i64,
    pub content: Seq<char>,
    pub render_emotes: bool,
}

impl View for DanmuEntry {
    type V = DanmuEntryView;

    open spec fn view(&self) -> DanmuEntryView {
        DanmuEntryView { ts: self.ts, content: self.content@, render_emotes: self.render_emotes }
    }
}

/// The values of a sequence of entries.
pub open spec fn entries_view(s: Seq<DanmuEntry>) -> Seq<DanmuEntryView> {
    s.map_values(|e: DanmuEntry| e@)
}

impl DanmuEntry {
    /// A copy of this entry.
    pub fn duplicate(&self) -> (r: DanmuEntry)
        ensures
            r@ == self@,
    {
        DanmuEntry { ts: self.ts, content: self.content.clone(), render_emotes: self.render_emotes }
    }
}

/// The characters of the no-emote marker.
pub fn no_emote_prefix_chars() -> (v: Vec<char>)
    ensures
        v@ == no_emote_prefix(),
{
    let v = chars_of(NO_EMOTE_PREFIX);
    proof {
        reveal_strlit("__BSR_NO_EMOTE__");
    }
    assert(v@ =~= no_emote_prefix());
    v
}

/// What stored content means: the text, and whether emotes are rendered.
pub open spec fn decode_spec(content: Seq<char>) -> (Seq<char>, bool) {
    if starts_with(content, no_emote_prefix()) {
        (content.skip(no_emote_prefix().len() as int), false)
    } else {
        (content, true)
    }
}

/// How text is stored, given whether emotes are rendered.
pub open spec fn encode_spec(content: Seq<char>, render_emotes: bool) -> Seq<char> {
    if render_emotes {
        content
    } else {
        no_emote_prefix() + content
    }
}

/// [`decode_danmu_content`] on characters.
pub fn decode_chars(v: &[char]) -> (r: (Vec<char>, bool))
    ensures
        (r.0@, r.1) == decode_spec(v@),
{
    let p = no_emote_prefix_chars();
    if starts_with_exec(v, &p) {
        let rest = slice_chars(v, p.len(), v.len());
        assert(rest@ =~= v@.skip(p@.len() as int));
        (rest, false)
    } else {
        let all = slice_chars(v, 0, v.len());
        assert(all@ =~= v@);
        (all, true)
    }
}

/// Splits stored content into its text and whether emotes are rendered:
/// content that starts with the no-emote marker has it removed and does not
/// render emotes.
pub fn decode_danmu_content(content: &str) -> (r: (String, bool))
    ensures
        (r.0@, r.1) == decode_spec(content@),
{
    let v = chars_of(content);
    let (text, render) = decode_chars(&v);
    (string_from_chars(&text), render)
}

/// The stored form of a text: unchanged when emotes are rendered, else with
/// the no-emote marker in front.
pub fn encode_danmu_content(content: &str, render_emotes: bool) -> (r: String)
    ensures
        r@ == encode_spec(content@, render_emotes),
{
    if render_emotes {
        content.to_owned()
    } else {
        let mut r = NO_EMOTE_PREFIX.to_owned();
        proof {
            reveal_strlit("__BSR_NO_EMOTE__");
        }
        assert(r@ =~= no_emote_prefix());
        r.append(content);
        r
    }
}

/// Decoding what was encoded gives the text and the flag back, unless emotes
/// are rendered for a text that itself starts with the no-emote marker.
pub proof fn lemma_decode_encode(content: Seq<char>, render_emotes: bool)
    requires
        !(render_emotes && starts_with(content, no_emote_prefix())),
    ensures
        decode_spec(encode_spec(content, render_emotes)) == (content, render_emotes),
{
    if !render_emotes {
        let e = no_emote_prefix() + content;
        assert(e.take(no_emote_prefix().len() as int) =~= no_emote_prefix());
        assert(e.skip(no_emote_prefix().len() as int) =~= content);
    }
}

/// Encoding what was decoded gives the stored content back, for every content.
pub proof fn lemma_encode_decode(content: Seq<char>)
    ensures
        encode_spec(decode_spec(content).0, decode_spec(content).1) == content,
{
    if starts_with(content, no_emote_prefix()) {
        assert(no_emote_prefix() + content.skip(no_emote_prefix().len() as int) =~= content) by {
            assert(content.take(no_emote_prefix().len() as int) == no_emote_prefix());
        }
    }
}

/// The stored line of an entry, without its line break: `ts:content`.
pub open spec fn line_spec(e: DanmuEntryView) -> Seq<char> {
    int_decimal(e.ts as int) + seq![':'] + encode_spec(e.content, e.render_emotes)
}

/// What a stored line denotes: the time stamp before the first `:` and the
/// stored content after it; `None` when there is no `:` or no valid `i64`.
pub open spec fn parse_line_spec(line: Seq<char>) -> Option<DanmuEntryView> {
    match find(line, seq![':']) {
        None => None,
        Some(k) => match parse_i64_spec(line.take(k)) {
            None => None,
            Some(ts) => Some(
                DanmuEntryView {
                    ts,
                    content: decode_spec(line.skip(k + 1)).0,
                    render_emotes: decode_spec(line.skip(k + 1)).1,
                },
            ),
        },
    }
}

/// The entries that the well-formed lines denote, in order; other lines are
/// skipped.
pub open spec fn parse_lines_spec(lines: Seq<Seq<char>>) -> Seq<DanmuEntryView>
    decreases lines.len(),
{
    if lines.len() == 0 {
        seq![]
    } else {
        let rest = parse_lines_spec(lines.drop_last());
        match parse_line_spec(lines.last()) {
            Some(e) => rest.push(e),
            None => rest,
        }
    }
}

/// The stored text of a sequence of entries: one line each, in order.
pub open spec fn serialize_spec(es: Seq<DanmuEntryView>) -> Seq<char>
    decreases es.len(),
{
    if es.len() == 0 {
        seq![]
    } else {
        serialize_spec(es.drop_last()) + line_spec(es.last()) + seq!['\n']
    }
}

/// `e` is inserted after every entry whose time stamp is not later than its own.
pub open spec fn insert_by_ts(s: Seq<DanmuEntryView>, e: DanmuEntryView) -> Seq<DanmuEntryView>
    decreases s.len(),
{
    if s.len() == 0 {
        seq![e]
    } else if s.last().ts <= e.ts {
        s.push(e)
    } else {
        insert_by_ts(s.drop_last(), e).push(s.last())
    }
}

/// The stable sort of `s` by time stamp (`sort_by_key(|e| e.ts)`): entries with
/// equal time stamps keep their order.
pub open spec fn sort_by_ts(s: Seq<DanmuEntryView>) -> Seq<DanmuEntryView>
    decreases s.len(),
{
    if s.len() == 0 {
        s
    } else {
        insert_by_ts(sort_by_ts(s.drop_last()), s.last())
    }
}

/// Time stamps never decrease along `s`.
pub open spec fn sorted_by_ts(s: Seq<DanmuEntryView>) -> bool {
    forall|i: int, j: int| 0 <= i <= j < s.len() ==> s[i].ts <= s[j].ts
}

/// What a stored danmaku text holds (`DanmuStorage` loading): the
/// well-formed lines, in file order.
pub open spec fn parse_storage_spec(text: Seq<char>) -> Seq<DanmuEntryView> {
    parse_lines_spec(lines_spec(text))
}

/// What a danmaku sidecar holds, sorted by time stamp.
pub open spec fn parse_entries_spec(text: Seq<char>) -> Seq<DanmuEntryView> {
    sort_by_ts(parse_storage_spec(text))
}

/// An entry that its stored line represents faithfully: no line break in
/// the text, no `\r` at its end, and no marker in front of a text whose
/// emotes are rendered.
pub open spec fn storable(e: DanmuEntryView) -> bool {
    &&& forall|i: int| 0 <= i < e.content.len() ==> #[trigger] e.content[i] != '\n'
    &&& !(e.content.len() > 0 && e.content.last() == '\r')
    &&& !(e.render_emotes && starts_with(e.content, no_emote_prefix()))
}

proof fn lemma_insert_at(s: Seq<DanmuEntryView>, e: DanmuEntryView, j: int)
    requires
        0 <= j <= s.len(),
        forall|k: int| j <= k < s.len() ==> #[trigger] s[k].ts > e.ts,
        j > 0 ==> s[j - 1].ts <= e.ts,
    ensures
        insert_by_ts(s, e) == s.insert(j, e),
    decreases s.len(),
{
    if s.len() == 0 {
        assert(s.insert(j, e) =~= seq![e]);
    } else if s.last().ts <= e.ts {
        assert(j == s.len());
        assert(s.insert(j, e) =~= s.push(e));
    } else {
        assert(j < s.len());
        let t = s.drop_last();
        assert forall|k: int| j <= k < t.len() implies #[trigger] t[k].ts > e.ts by {
            assert(t[k] == s[k]);
        }
        lemma_insert_at(t, e, j);
        assert(t.insert(j, e).push(s.last()) =~= s.insert(j, e));
    }
}

/// Inserts `e` into `out` after every entry whose time stamp is not later.
pub fn insert_entry_by_ts(out: &mut Vec<DanmuEntry>, e: DanmuEntry)
    ensures
        entries_view(final(out)@) == insert_by_ts(entries_view(old(out)@), e@),
{
    let mut j: usize = out.len();
    while j > 0 && out[j - 1].ts > e.ts
        invariant
            j <= out.len(),
            out@ == old(out)@,
            forall|k: int| j <= k < out.len() ==> #[trigger] out@[k].ts > e.ts,
        decreases j,
    {
        j = j - 1;
    }
    let ghost ev = e@;
    proof {
        let s = entries_view(out@);
        assert forall|k: int| j <= k < s.len() implies #[trigger] s[k].ts > ev.ts by {
            assert(s[k] == out@[k]@);
        }
        if j > 0 {
            assert(s[j - 1] == out@[j - 1]@);
        }
        lemma_insert_at(s, ev, j as int);
    }
    out.insert(j, e);
    assert(entries_view(out@) =~= entries_view(old(out)@).insert(j as int, ev));
}

/// One stored line, parsed: the time stamp before the first `:` and the
/// stored content after it.
pub fn parse_danmu_line(line: &[char]) -> (r: Option<DanmuEntry>)
    ensures
        r matches Some(e) ==> parse_line_spec(line@) == Some(e@),
        r is None ==> parse_line_spec(line@) is None,
{
    let colon: Vec<char> = vec![':'];
    proof {
        lemma_find_from(line@, colon@, 0);
    }
    let k = match find_from_exec(line, &colon, 0) {
        Some(k) => k,
        None => {
            assert(colon@ =~= seq![':']);
            return None;
        },
    };
    assert(colon@ =~= seq![':']);
    assert(occurs_at(line@, colon@, k as int));
    assert(colon@.len() == 1);
    assert(k < line.len());
    let ts_chars = slice_chars(line, 0, k);
    assert(ts_chars@ =~= line@.take(k as int));
    let ts = match parse_i64(&ts_chars) {
        Some(ts) => ts,
        None => {
            return None;
        },
    };
    let rest = slice_chars(line, k + 1, line.len());
    assert(rest@ =~= line@.skip(k + 1));
    let (text, render) = decode_chars(&rest);
    Some(DanmuEntry { ts, content: string_from_chars(&text), render_emotes: render })
}

/// The stored line of an entry, with its line break: `ts:content\n`.
pub fn push_danmu_line(out: &mut Vec<char>, ts: i64, content: &[char], render_emotes: bool)
    ensures
        final(out)@ == old(out)@ + line_spec(
            DanmuEntryView { ts, content: content@, render_emotes },
        ) + seq!['\n'],
{
    push_i64_decimal(out, ts);
    out.push(':');
    if !render_emotes {
        let p = no_emote_prefix_chars();
        extend_chars(out, &p);
    }
    extend_chars(out, content);
    out.push('\n');
    assert(final(out)@ =~= old(out)@ + line_spec(DanmuEntryView { ts, content: content@, render_emotes })
        + seq!['\n']);
}

/// The line that storing `(ts, content)` appends to the danmaku file; emotes
/// are rendered for such an entry.
pub fn format_danmu_line(ts: i64, content: &str) -> (r: String)
    ensures
        r@ == line_spec(DanmuEntryView { ts, content: content@, render_emotes: true }) + seq!['\n'],
{
    let c = chars_of(content);
    let mut out: Vec<char> = Vec::new();
    push_danmu_line(&mut out, ts, &c, true);
    assert(out@ =~= line_spec(DanmuEntryView { ts, content: content@, render_emotes: true }) + seq!['\n']);
    string_from_chars(&out)
}

/// The stored text of `entries`: one `ts:content` line each, in order.
pub fn serialize_danmu_entries(entries: &[DanmuEntry]) -> (r: String)
    ensures
        r@ == serialize_spec(entries_view(entries@)),
{
    let mut out: Vec<char> = Vec::new();
    let mut i: usize = 0;
    while i < entries.len()
        invariant
            i <= entries.len(),
            out@ == serialize_spec(entries_view(entries@.take(i as int))),
        decreases entries.len() - i,
    {
        let c = chars_of(entries[i].content.as_str());
        push_danmu_line(&mut out, entries[i].ts, &c, entries[i].render_emotes);
        assert(entries_view(entries@.take(i + 1)).drop_last() =~= entries_view(entries@.take(i as int)));
        assert(entries_view(entries@.take(i + 1)).last() == entries@[i as int]@);
        i = i + 1;
    }
    assert(entries@.take(entries.len() as int) =~= entries@);
    string_from_chars(&out)
}

/// The entries of a stored danmaku text, in file order; lines without a `:`
/// or without a valid time stamp are skipped.
pub fn parse_danmu_storage(text: &str) -> (r: Vec<DanmuEntry>)
    ensures
        entries_view(r@) == parse_storage_spec(text@),
{
    let v = chars_of(text);
    let lines = split_lines(&v);
    let ghost lv = chars_view(lines@);
    let mut out: Vec<DanmuEntry> = Vec::new();
    let mut i: usize = 0;
    while i < lines.len()
        invariant
            i <= lines.len(),
            lv == chars_view(lines@),
            entries_view(out@) == parse_lines_spec(lv.take(i as int)),
        decreases lines.len() - i,
    {
        assert(lv.take(i + 1).drop_last() =~= lv.take(i as int));
        assert(lv.take(i + 1).last() == lines@[i as int]@);
        match parse_danmu_line(&lines[i]) {
            Some(e) => {
                out.push(e);
                assert(entries_view(out@) =~= entries_view(out@.drop_last()).push(out@.last()@));
            },
            None => {},
        }
        i = i + 1;
    }
    assert(lv.take(lines.len() as int) =~= lv);
    out
}

/// The entries of a danmaku sidecar text, sorted by time stamp (a stable
/// sort); lines without a `:` or without a valid time stamp are skipped.
pub fn parse_danmu_entries(content: &str) -> (r: Vec<DanmuEntry>)
    ensures
        entries_view(r@) == parse_entries_spec(content@),
        sorted_by_ts(entries_view(r@)),
{
    let parsed = parse_danmu_storage(content);
    let ghost pv = entries_view(parsed@);
    let mut out: Vec<DanmuEntry> = Vec::new();
    let mut i: usize = 0;
    while i < parsed.len()
        invariant
            i <= parsed.len(),
            pv == entries_view(parsed@),
            entries_view(out@) == sort_by_ts(pv.take(i as int)),
        decreases parsed.len() - i,
    {
        assert(pv.take(i + 1).drop_last() =~= pv.take(i as int));
        assert(pv.take(i + 1).last() == parsed@[i as int]@);
        let e = parsed[i].duplicate();
        insert_entry_by_ts(&mut out, e);
        i = i + 1;
    }
    assert(pv.take(parsed.len() as int) =~= pv);
    proof {
        lemma_sort_by_ts_sorted(pv);
    }
    out
}

proof fn lemma_insert_by_ts_sorted(s: Seq<DanmuEntryView>, e: DanmuEntryView)
    requires
        sorted_by_ts(s),
    ensures
        sorted_by_ts(insert_by_ts(s, e)),
        insert_by_ts(s, e).len() == s.len() + 1,
        forall|i: int| 0 <= i < insert_by_ts(s, e).len() ==> (#[trigger] insert_by_ts(s, e)[i] == e
            || exists|k: int| 0 <= k < s.len() && insert_by_ts(s, e)[i] == s[k]),
    decreases s.len(),
{
    if s.len() == 0 {
    } else if s.last().ts <= e.ts {
        let r = s.push(e);
        assert forall|i: int| 0 <= i < r.len() implies (#[trigger] r[i] == e || exists|k: int|
            0 <= k < s.len() && r[i] == s[k]) by {
            if i < s.len() {
                assert(r[i] == s[i]);
            }
        }
    } else {
        let t = s.drop_last();
        lemma_insert_by_ts_sorted(t, e);
        let u = insert_by_ts(t, e);
        let r = u.push(s.last());
        assert forall|i: int| 0 <= i < r.len() implies (#[trigger] r[i] == e || exists|k: int|
            0 <= k < s.len() && r[i] == s[k]) by {
            if i < u.len() {
                assert(r[i] == u[i]);
                if u[i] != e {
                    let k = choose|k: int| 0 <= k < t.len() && u[i] == t[k];
                    assert(s[k] == t[k]);
                }
            } else {
                assert(r[i] == s[s.len() - 1]);
            }
        }
        assert forall|i: int, j: int| 0 <= i <= j < r.len() implies r[i].ts <= r[j].ts by {
            if j == r.len() - 1 && i < j {
                assert(r[i] == u[i]);
                if u[i] == e {
                } else {
                    let k = choose|k: int| 0 <= k < t.len() && u[i] == t[k];
                    assert(s[k] == t[k]);
                }
            } else if j < r.len() - 1 {
                assert(r[i] == u[i]);
                assert(r[j] == u[j]);
            }
        }
    }
}

/// The sort gives time stamps that never decrease.
pub proof fn lemma_sort_by_ts_sorted(s: Seq<DanmuEntryView>)
    ensures
        sorted_by_ts(sort_by_ts(s)),
        sort_by_ts(s).len() == s.len(),
    decreases s.len(),
{
    if s.len() > 0 {
        lemma_sort_by_ts_sorted(s.drop_last());
        lemma_insert_by_ts_sorted(sort_by_ts(s.drop_last()), s.last());
    }
}

proof fn lemma_serialize_cons(e: DanmuEntryView, es: Seq<DanmuEntryView>)
    ensures
        serialize_spec(seq![e] + es) == line_spec(e) + seq!['\n'] + serialize_spec(es),
    decreases es.len(),
{
    if es.len() == 0 {
        assert(seq![e] + es =~= seq![e]);
        assert(seq![e].drop_last() =~= Seq::<DanmuEntryView>::empty());
        assert(serialize_spec(Seq::<DanmuEntryView>::empty()) =~= Seq::<char>::empty());
        assert(serialize_spec(seq![e]) =~= line_spec(e) + seq!['\n']);
    } else {
        lemma_serialize_cons(e, es.drop_last());
        assert((seq![e] + es).drop_last() =~= seq![e] + es.drop_last());
        assert(serialize_spec(seq![e] + es) =~= line_spec(e) + seq!['\n'] + serialize_spec(es));
    }
}

proof fn lemma_decimal_no_colon_no_newline(x: i64)
    ensures
        forall|i: int| 0 <= i < int_decimal(x as int).len() ==> {
            &&& #[trigger] int_decimal(x as int)[i] != ':'
            &&& int_decimal(x as int)[i] != '\n'
        },
{
    let d = int_decimal(x as int);
    if x < 0 {
        let n = (-(x as int)) as nat;
        lemma_nat_digits(n);
        assert forall|i: int| 0 <= i < d.len() implies (#[trigger] d[i] != ':' && d[i] != '\n') by {
            if i > 0 {
                assert(d[i] == nat_digits(n)[i - 1]);
                assert(is_digit(nat_digits(n)[i - 1]));
            }
        }
    } else {
        lemma_nat_digits(x as nat);
        assert forall|i: int| 0 <= i < d.len() implies (#[trigger] d[i] != ':' && d[i] != '\n') by {
            assert(is_digit(nat_digits(x as nat)[i]));
        }
    }
}

/// Parsing the stored line of an entry gives the entry back.
proof fn lemma_parse_line(e: DanmuEntryView)
    requires
        storable(e),
    ensures
        parse_line_spec(line_spec(e)) == Some(e),
{
    let d = int_decimal(e.ts as int);
    let enc = encode_spec(e.content, e.render_emotes);
    let l = line_spec(e);
    lemma_decimal_no_colon_no_newline(e.ts);
    assert forall|j: int| 0 <= j < d.len() implies !occurs_at(l, seq![':'], j) by {
        assert(l.subrange(j, j + 1)[0] == d[j]);
    }
    assert(l.subrange(d.len() as int, d.len() + 1 as int) =~= seq![':']);
    lemma_find_from_at(l, seq![':'], 0, d.len() as int);
    assert(l.take(d.len() as int) =~= d);
    assert(l.skip(d.len() + 1 as int) =~= enc);
    lemma_parse_int_decimal(e.ts);
    lemma_decode_encode(e.content, e.render_emotes);
}

/// The lines of a stored text are the stored lines of its entries.
proof fn lemma_lines_of_serialize(es: Seq<DanmuEntryView>)
    requires
        forall|i: int| 0 <= i < es.len() ==> storable(#[trigger] es[i]),
    ensures
        lines_spec(serialize_spec(es)) == es.map_values(|e: DanmuEntryView| line_spec(e)),
    decreases es.len(),
{
    if es.len() == 0 {
        assert(es.map_values(|e: DanmuEntryView| line_spec(e)) =~= Seq::<Seq<char>>::empty());
    } else {
        let e = es[0];
        let rest = es.drop_first();
        assert(es =~= seq![e] + rest);
        lemma_serialize_cons(e, rest);
        assert forall|i: int| 0 <= i < rest.len() implies storable(#[trigger] rest[i]) by {
            assert(rest[i] == es[i + 1]);
        }
        lemma_lines_of_serialize(rest);
        assert(storable(es[0]));
        let l = line_spec(e);
        let s = serialize_spec(es);
        let d = int_decimal(e.ts as int);
        let enc = encode_spec(e.content, e.render_emotes);
        lemma_decimal_no_colon_no_newline(e.ts);
        assert(s =~= l + seq!['\n'] + serialize_spec(rest));
        assert forall|j: int| 0 <= j < l.len() implies l[j] != '\n' by {
            if j < d.len() {
                assert(l[j] == d[j]);
            } else if j == d.len() {
            } else {
                assert(l[j] == enc[j - d.len() - 1]);
                if !e.render_emotes {
                    if j - d.len() - 1 >= no_emote_prefix().len() {
                        assert(enc[j - d.len() - 1] == e.content[j - d.len() - 1 - no_emote_prefix().len()]);
                    }
                }
            }
        }
        assert forall|j: int| 0 <= j < l.len() implies !occurs_at(s, seq!['\n'], j) by {
            assert(s.subrange(j, j + 1)[0] == s[j]);
            assert(s[j] == l[j]);
        }
        assert(s.subrange(l.len() as int, l.len() + 1 as int) =~= seq!['\n']);
        lemma_find_from_at(s, seq!['\n'], 0, l.len() as int);
        assert(s.take(l.len() as int) =~= l);
        assert(s.skip(l.len() + 1 as int) =~= serialize_spec(rest));
        assert(l.len() > 0);
        if enc.len() > 0 {
            if e.content.len() > 0 {
                assert(enc.last() == e.content.last());
            } else {
                assert(enc =~= no_emote_prefix());
            }
        }
        assert(strip_cr(l) == l);
        assert(es.map_values(|e: DanmuEntryView| line_spec(e)) =~= seq![l] + rest.map_values(
            |e: DanmuEntryView| line_spec(e),
        ));
    }
}

proof fn lemma_parse_lines_of_entries(es: Seq<DanmuEntryView>)
    requires
        forall|i: int| 0 <= i < es.len() ==> storable(#[trigger] es[i]),
    ensures
        parse_lines_spec(es.map_values(|e: DanmuEntryView| line_spec(e))) == es,
    decreases es.len(),
{
    let ls = es.map_values(|e: DanmuEntryView| line_spec(e));
    if es.len() == 0 {
        assert(ls.len() == 0);
        assert(parse_lines_spec(ls) =~= es);
    } else {
        let t = es.drop_last();
        assert forall|i: int| 0 <= i < t.len() implies storable(#[trigger] t[i]) by {
            assert(t[i] == es[i]);
        }
        lemma_parse_lines_of_entries(t);
        assert(ls.drop_last() =~= t.map_values(|e: DanmuEntryView| line_spec(e)));
        assert(storable(es[es.len() - 1]));
        lemma_parse_line(es.last());
        assert(parse_lines_spec(ls) =~= t.push(es.last()));
    }
}

/// Reading back a stored danmaku text gives the stored entries, in order,
/// when each entry is one that its line represents faithfully.
pub proof fn lemma_storage_roundtrip(es: Seq<DanmuEntryView>)
    requires
        forall|i: int| 0 <= i < es.len() ==> storable(#[trigger] es[i]),
    ensures
        parse_storage_spec(serialize_spec(es)) == es,
{
    lemma_lines_of_serialize(es);
    lemma_parse_lines_of_entries(es);
}

/// Parsing a serialized sidecar gives the entries sorted by time stamp.
pub proof fn lemma_sidecar_roundtrip(es: Seq<DanmuEntryView>)
    requires
        forall|i: int| 0 <= i < es.len() ==> storable(#[trigger] es[i]),
    ensures
        parse_entries_spec(serialize_spec(es)) == sort_by_ts(es),
{
    lemma_storage_roundtrip(es);
}

/// A stored danmaku that was just added survives a reload: the text of the
/// stored entries followed by the new line reads back as those entries and
/// the new one (when every entry is one its line represents faithfully).
pub proof fn lemma_add_line_persists(es: Seq<DanmuEntryView>, e: DanmuEntryView)
    requires
        forall|i: int| 0 <= i < es.len() ==> storable(#[trigger] es[i]),
        storable(e),
    ensures
        parse_storage_spec(serialize_spec(es) + line_spec(e) + seq!['\n']) == es.push(e),
{
    let all = es.push(e);
    assert(all.drop_last() =~= es);
    assert(serialize_spec(all) == serialize_spec(es) + line_spec(e) + seq!['\n']);
    assert forall|i: int| 0 <= i < all.len() implies storable(#[trigger] all[i]) by {
        if i < es.len() {
            assert(all[i] == es[i]);
        }
    }
    lemma_storage_roundtrip(all);
}

/// The entries that come at or after `live_start_ts`, with time stamps
/// made relative to it, in order.
pub open spec fn relative_entries_spec(es: Seq<DanmuEntryView>, live_start_ts: i64) -> Seq<DanmuEntryView>
    decreases es.len(),
{
    if es.len() == 0 {
        seq![]
    } else {
        let r = relative_entries_spec(es.drop_last(), live_start_ts);
        let e = es.last();
        if e.ts - live_start_ts >= 0 {
            r.push(
                DanmuEntryView {
                    ts: (e.ts - live_start_ts) as i64,
                    content: e.content,
                    render_emotes: e.render_emotes,
                },
            )
        } else {
            r
        }
    }
}

/// The danmaku of a recording held in memory beside their file
/// (`DanmuStorage` keeps one).
#[derive(Debug)]
pub struct DanmuCache {
    pub entries: Vec<DanmuEntry>,
}

impl DanmuCache {
    /// The cache of a stored danmaku text: its well-formed lines, in order.
    pub fn from_stored_text(text: &str) -> (r: DanmuCache)
        ensures
            entries_view(r.entries@) == parse_storage_spec(text@),
    {
        DanmuCache { entries: parse_danmu_storage(text) }
    }

    /// Adds a danmaku received live (its emotes are rendered) and returns
    /// the line to append to the file.
    pub fn add_line(&mut self, ts: i64, content: &str) -> (line: String)
        ensures
            entries_view(final(self).entries@) == entries_view(old(self).entries@).push(
                DanmuEntryView { ts, content: content@, render_emotes: true },
            ),
            line@ == line_spec(DanmuEntryView { ts, content: content@, render_emotes: true }) + seq![
                '\n',
            ],
    {
        self.entries.push(DanmuEntry { ts, content: content.to_owned(), render_emotes: true });
        assert(entries_view(self.entries@) =~= entries_view(old(self).entries@).push(
            DanmuEntryView { ts, content: content@, render_emotes: true },
        ));
        format_danmu_line(ts, content)
    }

    /// The entries with time stamps relative to the start of the live
    /// stream; those from before it are left out.
    pub fn get_entries(&self, live_start_ts: i64) -> (r: Vec<DanmuEntry>)
        requires
            forall|i: int|
                0 <= i < self.entries@.len() ==> i64::MIN <= #[trigger] self.entries@[i].ts
                    - live_start_ts <= i64::MAX,
        ensures
            entries_view(r@) == relative_entries_spec(entries_view(self.entries@), live_start_ts),
    {
        let ghost ev = entries_view(self.entries@);
        let mut r: Vec<DanmuEntry> = Vec::new();
        let mut i: usize = 0;
        while i < self.entries.len()
            invariant
                i <= self.entries.len(),
                ev == entries_view(self.entries@),
                forall|k: int|
                    0 <= k < self.entries@.len() ==> i64::MIN <= #[trigger] self.entries@[k].ts
                        - live_start_ts <= i64::MAX,
                entries_view(r@) == relative_entries_spec(ev.take(i as int), live_start_ts),
            decreases self.entries.len() - i,
        {
            assert(ev.take(i + 1).drop_last() =~= ev.take(i as int));
            assert(ev.take(i + 1).last() == self.entries@[i as int]@);
            let e = &self.entries[i];
            let ts = e.ts - live_start_ts;
            if ts >= 0 {
                r.push(DanmuEntry { ts, content: e.content.clone(), render_emotes: e.render_emotes });
                assert(entries_view(r@) =~= entries_view(r@.drop_last()).push(r@.last()@));
            }
            i = i + 1;
        }
        assert(ev.take(self.entries.len() as int) =~= ev);
        r
    }
}

} // verus!
