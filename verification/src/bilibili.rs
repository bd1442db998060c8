//! Danmaku of published Bilibili videos: BV numbers, the choice of a page,
//! retry pacing, the filtering of downloaded segments and the merge of what
//! was collected into one ordered list without repeats.
use vstd::prelude::*;

use crate::decimal::{int_decimal, nat_digits, push_i64_decimal, push_u64_digits};
use crate::text::{
    chars_of, contains, contains_exec, starts_with, str_eq, string_from_chars, trim, trim_chars,
    utf8_byte_len,
};

verus! {

/// A danmaku entry of a published video: milliseconds into the video and
/// the text.
#[derive(Debug)]
pub struct ImportedDanmuEntry {
    pub ts: i64,
    pub content: String,
}

impl View for ImportedDanmuEntry {
    type V = (i64, Seq<char>);

    open spec fn view(&self) -> (i64, Seq<char>) {
        (self.ts, self.content@)
    }
}

impl ImportedDanmuEntry {
    /// A copy of the entry.
    pub fn duplicate(&self) -> (r: ImportedDanmuEntry)
        ensures
            r@ == self@,
    {
        ImportedDanmuEntry { ts: self.ts, content: self.content.clone() }
    }
}

/// The views of a sequence of entries.
pub open spec fn entries_view(s: Seq<ImportedDanmuEntry>) -> Seq<(i64, Seq<char>)> {
    s.map_values(|e: ImportedDanmuEntry| e@)
}

/// `a` comes before `b` in the order of `str`'s `Ord`: the first differing
/// character decides (UTF-8 keeps the order of code points, so comparing the
/// bytes and comparing the characters agree); a proper prefix comes first.
pub open spec fn chars_lt(a: Seq<char>, b: Seq<char>) -> bool
    decreases a.len(),
{
    if a.len() == 0 {
        b.len() > 0
    } else if b.len() == 0 {
        false
    } else if a[0] != b[0] {
        (a[0] as u32) < (b[0] as u32)
    } else {
        chars_lt(a.drop_first(), b.drop_first())
    }
}

/// The order in which entries are kept: by time, then by text.
pub open spec fn entry_lt(x: (i64, Seq<char>), y: (i64, Seq<char>)) -> bool {
    x.0 < y.0 || (x.0 == y.0 && chars_lt(x.1, y.1))
}

/// Each entry strictly before the next: ordered, with no repeats.
pub open spec fn strictly_ordered(s: Seq<(i64, Seq<char>)>) -> bool {
    forall|i: int, j: int| 0 <= i < j < s.len() ==> entry_lt(#[trigger] s[i], #[trigger] s[j])
}

/// No text comes before itself.
pub proof fn lemma_chars_lt_irreflexive(a: Seq<char>)
    ensures
        !chars_lt(a, a),
    decreases a.len(),
{
    if a.len() > 0 {
        lemma_chars_lt_irreflexive(a.drop_first());
    }
}

/// The order of texts is transitive.
pub proof fn lemma_chars_lt_transitive(a: Seq<char>, b: Seq<char>, c: Seq<char>)
    requires
        chars_lt(a, b),
        chars_lt(b, c),
    ensures
        chars_lt(a, c),
    decreases a.len(),
{
    if a.len() > 0 && b.len() > 0 && c.len() > 0 {
        if a[0] == b[0] && b[0] == c[0] {
            lemma_chars_lt_transitive(a.drop_first(), b.drop_first(), c.drop_first());
        }
    }
}

/// Of two different texts, one comes before the other.
pub proof fn lemma_chars_lt_total(a: Seq<char>, b: Seq<char>)
    ensures
        a == b || chars_lt(a, b) || chars_lt(b, a),
    decreases a.len(),
{
    if a.len() > 0 && b.len() > 0 && a[0] == b[0] {
        lemma_chars_lt_total(a.drop_first(), b.drop_first());
        if a.drop_first() == b.drop_first() {
            assert(a =~= seq![a[0]] + a.drop_first());
            assert(b =~= seq![b[0]] + b.drop_first());
        }
    } else if a.len() > 0 && b.len() > 0 {
        vstd::utf8::char_u32_cast(a[0], a[0] as u32);
        vstd::utf8::char_u32_cast(b[0], b[0] as u32);
    } else if a.len() == 0 && b.len() == 0 {
        assert(a =~= b);
    }
}

/// Two texts are never each before the other.
pub proof fn lemma_chars_lt_asymmetric(a: Seq<char>, b: Seq<char>)
    requires
        chars_lt(a, b),
    ensures
        !chars_lt(b, a),
{
    if chars_lt(b, a) {
        lemma_chars_lt_transitive(a, b, a);
        lemma_chars_lt_irreflexive(a);
    }
}

/// The order of entries (by time, then text) is transitive.
pub proof fn lemma_entry_lt_transitive(x: (i64, Seq<char>), y: (i64, Seq<char>), z: (i64, Seq<char>))
    requires
        entry_lt(x, y),
        entry_lt(y, z),
    ensures
        entry_lt(x, z),
{
    if x.0 == y.0 && y.0 == z.0 {
        lemma_chars_lt_transitive(x.1, y.1, z.1);
    }
}

/// No entry comes before itself.
pub proof fn lemma_entry_lt_irreflexive(x: (i64, Seq<char>))
    ensures
        !entry_lt(x, x),
{
    lemma_chars_lt_irreflexive(x.1);
}

/// Of two different entries, one comes before the other.
pub proof fn lemma_entry_lt_total(x: (i64, Seq<char>), y: (i64, Seq<char>))
    ensures
        x == y || entry_lt(x, y) || entry_lt(y, x),
{
    lemma_chars_lt_total(x.1, y.1);
}

/// Whether `a` comes before `b` in the order of `str`.
pub fn chars_less(a: &[char], b: &[char]) -> (r: bool)
    ensures
        r == chars_lt(a@, b@),
{
    let mut i: usize = 0;
    assert(a@.skip(0) =~= a@);
    assert(b@.skip(0) =~= b@);
    while i < a.len() && i < b.len() && a[i] == b[i]
        invariant
            i <= a.len(),
            i <= b.len(),
            chars_lt(a@, b@) == chars_lt(a@.skip(i as int), b@.skip(i as int)),
        decreases a.len() - i,
    {
        assert(a@.skip(i as int).drop_first() =~= a@.skip(i + 1));
        assert(b@.skip(i as int).drop_first() =~= b@.skip(i + 1));
        i = i + 1;
    }
    if i == a.len() {
        i < b.len()
    } else if i == b.len() {
        false
    } else {
        (a[i] as u32) < (b[i] as u32)
    }
}

/// Whether entry `x` comes before entry `y`.
pub fn entry_less(x: &ImportedDanmuEntry, y: &ImportedDanmuEntry) -> (r: bool)
    ensures
        r == entry_lt(x@, y@),
{
    if x.ts != y.ts {
        x.ts < y.ts
    } else {
        chars_less(&chars_of(x.content.as_str()), &chars_of(y.content.as_str()))
    }
}

/// Puts `e` at its place in an ordered list without repeats; nothing is
/// added when an equal entry is there already.
pub fn insert_ordered_unique(list: &mut Vec<ImportedDanmuEntry>, e: ImportedDanmuEntry)
    requires
        strictly_ordered(entries_view(old(list)@)),
    ensures
        strictly_ordered(entries_view(final(list)@)),
        forall|x: (i64, Seq<char>)|
            entries_view(final(list)@).contains(x) <==> (entries_view(old(list)@).contains(x) || x
                == e@),
{
    let ghost old_v = entries_view(list@);
    let mut i: usize = 0;
    while i < list.len() && entry_less(&list[i], &e)
        invariant
            i <= list.len(),
            list@ == old(list)@,
            old_v == entries_view(list@),
            forall|k: int| 0 <= k < i ==> entry_lt(#[trigger] old_v[k], e@),
        decreases list.len() - i,
    {
        i = i + 1;
    }
    // every entry from `i` on is at or after `e`
    assert forall|k: int| i <= k < old_v.len() implies !entry_lt(#[trigger] old_v[k], e@) by {
        if i < old_v.len() {
            assert(!entry_lt(old_v[i as int], e@));
            if k > i {
                assert(entry_lt(old_v[i as int], old_v[k]));
                if entry_lt(old_v[k], e@) {
                    lemma_entry_lt_transitive(old_v[i as int], old_v[k], e@);
                }
            }
        }
    }
    if i < list.len() && list[i].ts == e.ts && str_eq(list[i].content.as_str(), e.content.as_str()) {
        assert(old_v[i as int] == e@);
        assert forall|x: (i64, Seq<char>)|
            entries_view(list@).contains(x) <==> (old_v.contains(x) || x == e@) by {
            if x == e@ {
                assert(old_v[i as int] == x);
            }
        }
        return;
    }
    proof {
        if i < old_v.len() {
            lemma_entry_lt_total(old_v[i as int], e@);
        }
    }
    list.insert(i, e);
    let ghost new_v = entries_view(list@);
    assert(new_v =~= old_v.take(i as int).push(e@) + old_v.skip(i as int));
    assert forall|a: int, b: int| 0 <= a < b < new_v.len() implies entry_lt(
        #[trigger] new_v[a],
        #[trigger] new_v[b],
    ) by {
        if b < i {
            assert(new_v[a] == old_v[a] && new_v[b] == old_v[b]);
        } else if b == i {
            assert(new_v[a] == old_v[a]);
        } else if a < i {
            assert(new_v[a] == old_v[a] && new_v[b] == old_v[b - 1]);
            assert(entry_lt(old_v[a], e@));
            if i < old_v.len() {
                assert(!entry_lt(old_v[i as int], e@));
                assert(entry_lt(e@, old_v[i as int]));
                if b - 1 > i {
                    assert(entry_lt(old_v[i as int], old_v[b - 1]));
                    lemma_entry_lt_transitive(e@, old_v[i as int], old_v[b - 1]);
                }
                lemma_entry_lt_transitive(old_v[a], e@, old_v[b - 1]);
            }
        } else if a == i {
            assert(new_v[b] == old_v[b - 1]);
            assert(entry_lt(e@, old_v[i as int]));
            if b - 1 > i {
                assert(entry_lt(old_v[i as int], old_v[b - 1]));
                lemma_entry_lt_transitive(e@, old_v[i as int], old_v[b - 1]);
            }
        } else {
            assert(new_v[a] == old_v[a - 1] && new_v[b] == old_v[b - 1]);
        }
    }
    assert forall|x: (i64, Seq<char>)| new_v.contains(x) <==> (old_v.contains(x) || x == e@) by {
        if new_v.contains(x) {
            let k = choose|k: int| 0 <= k < new_v.len() && new_v[k] == x;
            if k < i {
                assert(old_v[k] == x);
            } else if k > i {
                assert(old_v[k - 1] == x);
            }
        }
        if old_v.contains(x) {
            let k = choose|k: int| 0 <= k < old_v.len() && old_v[k] == x;
            if k < i {
                assert(new_v[k] == x);
            } else {
                assert(new_v[k + 1] == x);
            }
        }
        if x == e@ {
            assert(new_v[i as int] == x);
        }
    }
}

/// Two entries are never each before the other.
pub proof fn lemma_entry_lt_asymmetric(x: (i64, Seq<char>), y: (i64, Seq<char>))
    requires
        entry_lt(x, y),
    ensures
        !entry_lt(y, x),
{
    if entry_lt(y, x) {
        lemma_entry_lt_transitive(x, y, x);
        lemma_entry_lt_irreflexive(x);
    }
}

/// An ordered list without repeats is fixed by the entries it holds: two
/// such lists with the same entries are the same list.  So the merge below
/// gives exactly what sorting by time and text and then dropping adjacent
/// repeats gives.
pub proof fn lemma_ordered_unique_determined(a: Seq<(i64, Seq<char>)>, b: Seq<(i64, Seq<char>)>)
    requires
        strictly_ordered(a),
        strictly_ordered(b),
        forall|x: (i64, Seq<char>)| a.contains(x) <==> b.contains(x),
    ensures
        a == b,
    decreases a.len(),
{
    if a.len() == 0 {
        if b.len() > 0 {
            assert(b.contains(b[0]));
        }
        assert(a =~= b);
    } else {
        assert(a.contains(a[0]));
        assert(b.len() > 0);
        assert(b.contains(b[0]));
        let k = choose|k: int| 0 <= k < b.len() && b[k] == a[0];
        let m = choose|m: int| 0 <= m < a.len() && a[m] == b[0];
        if k > 0 {
            assert(entry_lt(b[0], b[k]));
            if m > 0 {
                assert(entry_lt(a[0], a[m]));
                lemma_entry_lt_asymmetric(a[0], a[m]);
            } else {
                lemma_entry_lt_irreflexive(b[0]);
            }
        }
        assert(a[0] == b[0]);
        let a1 = a.drop_first();
        let b1 = b.drop_first();
        assert forall|i: int, j: int| 0 <= i < j < a1.len() implies entry_lt(
            #[trigger] a1[i],
            #[trigger] a1[j],
        ) by {
            assert(entry_lt(a[i + 1], a[j + 1]));
        }
        assert forall|i: int, j: int| 0 <= i < j < b1.len() implies entry_lt(
            #[trigger] b1[i],
            #[trigger] b1[j],
        ) by {
            assert(entry_lt(b[i + 1], b[j + 1]));
        }
        assert forall|x: (i64, Seq<char>)| a1.contains(x) <==> b1.contains(x) by {
            if a1.contains(x) {
                let i = choose|i: int| 0 <= i < a1.len() && a1[i] == x;
                assert(a[i + 1] == x);
                assert(a.contains(x));
                let j = choose|j: int| 0 <= j < b.len() && b[j] == x;
                if j == 0 {
                    assert(entry_lt(a[0], a[i + 1]));
                    lemma_entry_lt_irreflexive(x);
                }
                assert(b1[j - 1] == x);
            }
            if b1.contains(x) {
                let i = choose|i: int| 0 <= i < b1.len() && b1[i] == x;
                assert(b[i + 1] == x);
                assert(b.contains(x));
                let j = choose|j: int| 0 <= j < a.len() && a[j] == x;
                if j == 0 {
                    assert(entry_lt(b[0], b[i + 1]));
                    lemma_entry_lt_irreflexive(x);
                }
                assert(a1[j - 1] == x);
            }
        }
        lemma_ordered_unique_determined(a1, b1);
        assert(a =~= seq![a[0]] + a1);
        assert(b =~= seq![b[0]] + b1);
    }
}

/// Orders the collected entries by time, then text, and drops repeats (the
/// same time and text).
pub fn merge_entries(entries: Vec<ImportedDanmuEntry>) -> (r: Vec<ImportedDanmuEntry>)
    ensures
        strictly_ordered(entries_view(r@)),
        forall|x: (i64, Seq<char>)|
            entries_view(r@).contains(x) <==> entries_view(entries@).contains(x),
{
    let ghost input = entries_view(entries@);
    let mut r: Vec<ImportedDanmuEntry> = Vec::new();
    let mut i: usize = 0;
    while i < entries.len()
        invariant
            i <= entries.len(),
            input == entries_view(entries@),
            strictly_ordered(entries_view(r@)),
            forall|x: (i64, Seq<char>)|
                entries_view(r@).contains(x) <==> input.take(i as int).contains(x),
        decreases entries.len() - i,
    {
        let e = entries[i].duplicate();
        insert_ordered_unique(&mut r, e);
        let ghost before = input.take(i as int);
        let ghost after = input.take(i + 1);
        assert(after =~= before.push(input[i as int]));
        assert forall|x: (i64, Seq<char>)| entries_view(r@).contains(x) <==> after.contains(x) by {
            if after.contains(x) {
                let k = choose|k: int| 0 <= k < after.len() && after[k] == x;
                if k < i {
                    assert(before[k] == x);
                }
            }
            if before.contains(x) {
                let k = choose|k: int| 0 <= k < before.len() && before[k] == x;
                assert(after[k] == x);
            }
            if x == input[i as int] {
                assert(after[i as int] == x);
            }
        }
        i = i + 1;
    }
    assert(input.take(entries.len() as int) =~= input);
    r
}

/// Length in seconds of one danmaku segment of a video.
pub const SEGMENT_DURATION_SECONDS: i64 = 360;

/// How many times a request is tried.
pub const MAX_RETRIES: usize = 4;

/// The pause after the first failed try, in milliseconds.
pub const BASE_BACKOFF_MILLIS: u64 = 1_200;

/// What a download of a video's danmaku reports.
#[derive(Debug)]
pub struct ImportedVideoDanmuDownload {
    pub bvid: String,
    pub aid: i64,
    pub cid: i64,
    pub page: i32,
    pub saved_count: usize,
    pub total_segments: usize,
    pub skipped_segments: usize,
}

/// The report of a download with the entries it kept.
#[derive(Debug)]
pub struct ImportedVideoDanmuData {
    pub download: ImportedVideoDanmuDownload,
    pub entries: Vec<ImportedDanmuEntry>,
}

/// One page (part) of a video as the view API lists it.
#[derive(Clone, Copy, Debug, PartialEq, Eq)]
pub struct VideoPage {
    pub cid: i64,
    pub page: i32,
    pub duration: i64,
}

/// The page number a listed page has when the API leaves it out.
pub fn default_page_number() -> (r: i32)
    ensures
        r == 1,
{
    1
}

/// `2` to the power `e`.
pub open spec fn doubling(e: nat) -> nat
    decreases e,
{
    if e == 0 {
        1
    } else {
        2 * doubling((e - 1) as nat)
    }
}

/// The pause after try number `attempt` (counted from 0) failed: the base
/// pause doubled once per earlier try, at most six times.
pub open spec fn backoff_spec(attempt: nat) -> nat {
    (BASE_BACKOFF_MILLIS as nat) * doubling(if attempt < 6 {
        attempt
    } else {
        6nat
    })
}

/// The pause after a failed try, in milliseconds.
pub fn backoff_millis(attempt: usize) -> (r: u64)
    ensures
        r == backoff_spec(attempt as nat),
{
    let e: usize = if attempt < 6 {
        attempt
    } else {
        6
    };
    let mut m: u64 = 1;
    let mut i: usize = 0;
    while i < e
        invariant
            i <= e <= 6,
            m == doubling(i as nat),
            m <= 64,
        decreases e - i,
    {
        assert(doubling((i + 1) as nat) == 2 * doubling(i as nat));
        assert(m * 2 <= 64) by {
            reveal_with_fuel(doubling, 7);
        }
        m = m * 2;
        i = i + 1;
    }
    BASE_BACKOFF_MILLIS * m
}

/// After try number `attempt` failed: the pause before the next try, or
/// `None` when no try is left.
pub fn retry_backoff(attempt: usize) -> (r: Option<u64>)
    ensures
        r == (if attempt + 1 < MAX_RETRIES {
            Some(backoff_spec(attempt as nat) as u64)
        } else {
            None
        }),
{
    if attempt < MAX_RETRIES - 1 {
        Some(backoff_millis(attempt))
    } else {
        None
    }
}

/// An answer of the API says the client is being limited: the code `-352`,
/// or a message that mentions `-352` or 频繁 ("too frequent").
pub open spec fn is_rate_limited_spec(code: i64, message: Seq<char>) -> bool {
    code == -352 || contains(message, "-352"@) || contains(message, "频繁"@)
}

/// Whether an answer of the API says the client is being limited.
pub fn is_rate_limited(code: i64, message: &str) -> (b: bool)
    ensures
        b == is_rate_limited_spec(code, message@),
{
    if code == -352 {
        return true;
    }
    let m = chars_of(message);
    contains_exec(&m, &chars_of("-352")) || contains_exec(&m, &chars_of("频繁"))
}

/// The byte offset 2 of the UTF-8 text `t` falls inside a character: the
/// first character takes three or four bytes, or an ASCII character is
/// followed by one that takes more than one.
pub open spec fn bvid_prefix_split_panics(t: Seq<char>) -> bool {
    t.len() >= 1 && ((t[0] as u32) >= 0x800 || ((t[0] as u32) < 0x80 && t.len() >= 2 && (t[1]
        as u32) >= 0x80))
}

/// `t` starts with `bv` in any case.
pub open spec fn has_bv_prefix(t: Seq<char>) -> bool {
    t.len() >= 2 && (t[0] == 'b' || t[0] == 'B') && (t[1] == 'v' || t[1] == 'V')
}

/// What the user typed as a BV number, checked and with its prefix written
/// `BV`: whitespace around it is dropped; empty input and anything that does
/// not then start with `BV` or is shorter than 12 bytes are refused.
pub open spec fn normalize_bvid_spec(raw: Seq<char>) -> Result<Seq<char>, Seq<char>> {
    let t = trim(raw);
    if t.len() == 0 {
        Err("BV 号不能为空"@)
    } else {
        let n = if has_bv_prefix(t) {
            "BV"@ + t.skip(2)
        } else {
            t
        };
        if !starts_with(n, "BV"@) || vstd::utf8::encode_utf8(n).len() < 12 {
            Err("请输入有效的 BV 号"@)
        } else {
            Ok(n)
        }
    }
}

/// Checks a BV number and writes its prefix as `BV`.
pub fn normalize_bvid(raw: &str) -> (r: Result<String, String>)
    requires
        !bvid_prefix_split_panics(trim(raw@)),
    ensures
        match r {
            Ok(s) => normalize_bvid_spec(raw@) == Ok::<Seq<char>, Seq<char>>(s@),
            Err(e) => normalize_bvid_spec(raw@) == Err::<Seq<char>, Seq<char>>(e@),
        },
{
    let t = trim_chars(&chars_of(raw));
    if t.len() == 0 {
        return Err("BV 号不能为空".to_owned());
    }
    let n: Vec<char> = if t.len() >= 2 && (t[0] == 'b' || t[0] == 'B') && (t[1] == 'v' || t[1]
        == 'V') {
        let mut n: Vec<char> = Vec::new();
        n.push('B');
        n.push('V');
        let mut i: usize = 2;
        while i < t.len()
            invariant
                2 <= i <= t.len(),
                n@ == seq!['B', 'V'] + t@.subrange(2, i as int),
            decreases t.len() - i,
        {
            n.push(t[i]);
            assert(t@.subrange(2, i + 1) =~= t@.subrange(2, i as int).push(t@[i as int]));
            i = i + 1;
        }
        proof {
            reveal_strlit("BV");
            assert(n@ =~= "BV"@ + t@.skip(2));
        }
        n
    } else {
        t
    };
    let s = string_from_chars(&n);
    proof {
        reveal_strlit("BV");
    }
    let prefixed = n.len() >= 2 && n[0] == 'B' && n[1] == 'V';
    assert(prefixed == starts_with(n@, "BV"@)) by {
        if n@.len() >= 2 {
            assert(prefixed ==> n@.take(2) =~= "BV"@);
            if starts_with(n@, "BV"@) {
                assert(n@.take(2)[0] == 'B' && n@.take(2)[1] == 'V');
            }
        }
    }
    proof {
        crate::text::lemma_utf8_len(n@);
    }
    if !prefixed || utf8_byte_len(&n) < 12 {
        return Err("请输入有效的 BV 号".to_owned());
    }
    Ok(s)
}

/// The page with the number asked for: refused when the video lists no page
/// or none with that number (the first such page is taken).
pub open spec fn select_page_spec(pages: Seq<VideoPage>, page_number: i32) -> Result<VideoPage, Seq<char>> {
    if pages.len() == 0 {
        Err("该 BV 没有可用分 P"@)
    } else if exists|i: int| 0 <= i < pages.len() && (#[trigger] pages[i]).page == page_number {
        let i = choose|i: int|
            0 <= i < pages.len() && (#[trigger] pages[i]).page == page_number && forall|j: int|
                0 <= j < i ==> (#[trigger] pages[j]).page != page_number;
        Ok(pages[i])
    } else {
        Err("BV 中不存在 P"@ + int_decimal(page_number as int))
    }
}

/// Picks the page to download.
pub fn select_page(pages: &[VideoPage], page_number: i32) -> (r: Result<VideoPage, String>)
    ensures
        match r {
            Ok(p) => select_page_spec(pages@, page_number) == Ok::<VideoPage, Seq<char>>(p),
            Err(e) => select_page_spec(pages@, page_number) == Err::<VideoPage, Seq<char>>(e@),
        },
{
    if pages.len() == 0 {
        return Err("该 BV 没有可用分 P".to_owned());
    }
    let mut i: usize = 0;
    while i < pages.len()
        invariant
            i <= pages.len(),
            forall|j: int| 0 <= j < i ==> (#[trigger] pages@[j]).page != page_number,
        decreases pages.len() - i,
    {
        if pages[i].page == page_number {
            let ghost k = choose|k: int|
                0 <= k < pages@.len() && (#[trigger] pages@[k]).page == page_number && forall|j: int|
                    0 <= j < k ==> (#[trigger] pages@[j]).page != page_number;
            assert(pages@[i as int].page == page_number);
            assert(k == i) by {
                if k < i {
                    assert(pages@[k].page != page_number);
                } else if k > i {
                    assert(pages@[i as int].page != page_number);
                }
            }
            return Ok(pages[i]);
        }
        i = i + 1;
    }
    let mut msg = chars_of("BV 中不存在 P");
    push_i64_decimal(&mut msg, page_number as i64);
    Err(string_from_chars(&msg))
}

/// How many segments of danmaku a page of `duration` seconds has: one per
/// started 360 seconds, at least one.
pub open spec fn total_segments_spec(duration: i64) -> int {
    let d = if duration < 0 {
        0
    } else {
        duration as int
    };
    let seg = SEGMENT_DURATION_SECONDS as int;
    let n = (d + seg - 1) / seg;
    if n < 1 {
        1
    } else {
        n
    }
}

/// The number of danmaku segments of a page.
pub fn total_segments(duration: i64) -> (r: usize)
    requires
        duration <= i64::MAX - SEGMENT_DURATION_SECONDS,
    ensures
        r == total_segments_spec(duration) as usize,
{
    let d: i64 = if duration < 0 {
        0
    } else {
        duration
    };
    let seg: i64 = SEGMENT_DURATION_SECONDS;
    assert(seg == 360);
    let n: i64 = (d + seg - 1) / seg;
    let n = if n < 1 {
        1
    } else {
        n
    };
    n as usize
}

/// One danmaku of a downloaded segment, as decoded.
#[derive(Debug)]
pub struct SegmentElem {
    pub progress: i32,
    pub mode: i32,
    pub content: String,
}

/// The text of a danmaku as it is kept: trimmed, with each `\r` and `\n`
/// made a space.
pub open spec fn clean_content(s: Seq<char>) -> Seq<char> {
    trim(s).map_values(|c: char| if c == '\r' || c == '\n' {
        ' '
    } else {
        c
    })
}

/// The entry a danmaku of a segment gives: only ordinary kinds (modes 1 to
/// 7), at a time that is not negative, with text left after cleaning.
pub open spec fn elem_entry(e: SegmentElem) -> Option<(i64, Seq<char>)> {
    let c = clean_content(e.content@);
    if 1 <= e.mode <= 7 && e.progress >= 0 && c.len() > 0 {
        Some((e.progress as i64, c))
    } else {
        None
    }
}

/// The entries that the danmaku of a segment give, in order.
pub open spec fn segment_entries_spec(elems: Seq<SegmentElem>) -> Seq<(i64, Seq<char>)>
    decreases elems.len(),
{
    if elems.len() == 0 {
        seq![]
    } else {
        let r = segment_entries_spec(elems.drop_last());
        match elem_entry(elems.last()) {
            Some(x) => r.push(x),
            None => r,
        }
    }
}

/// The entries kept from the danmaku of one segment.
pub fn segment_entries(elems: &Vec<SegmentElem>) -> (r: Vec<ImportedDanmuEntry>)
    ensures
        entries_view(r@) == segment_entries_spec(elems@),
{
    let mut r: Vec<ImportedDanmuEntry> = Vec::new();
    let mut i: usize = 0;
    while i < elems.len()
        invariant
            i <= elems.len(),
            entries_view(r@) == segment_entries_spec(elems@.take(i as int)),
        decreases elems.len() - i,
    {
        let e = &elems[i];
        assert(elems@.take(i + 1).drop_last() =~= elems@.take(i as int));
        assert(elems@.take(i + 1).last() == elems@[i as int]);
        if 1 <= e.mode && e.mode <= 7 && e.progress >= 0 {
            let t = trim_chars(&chars_of(e.content.as_str()));
            let mut c: Vec<char> = Vec::new();
            let mut k: usize = 0;
            while k < t.len()
                invariant
                    k <= t.len(),
                    c@ == t@.take(k as int).map_values(|c: char| if c == '\r' || c == '\n' {
                        ' '
                    } else {
                        c
                    }),
                decreases t.len() - k,
            {
                let ch = t[k];
                c.push(if ch == '\r' || ch == '\n' {
                    ' '
                } else {
                    ch
                });
                assert(t@.take(k + 1) =~= t@.take(k as int).push(ch));
                assert(c@ =~= t@.take(k + 1).map_values(|c: char| if c == '\r' || c == '\n' {
                    ' '
                } else {
                    c
                }));
                k = k + 1;
            }
            assert(t@.take(t.len() as int) =~= t@);
            assert(c@ == clean_content(e.content@));
            if c.len() > 0 {
                r.push(ImportedDanmuEntry { ts: e.progress as i64, content: string_from_chars(&c) });
                assert(entries_view(r@) =~= entries_view(r@.drop_last()).push(r@.last()@));
            }
        }
        i = i + 1;
    }
    assert(elems@.take(elems.len() as int) =~= elems@);
    r
}

/// What the body of a segment answer is: the two bytes `10 01` mean that
/// danmaku are closed for the video; a body starting with `{` is a JSON
/// error; anything else is the protobuf list of danmaku.
#[derive(Clone, Copy, Debug, PartialEq, Eq)]
pub enum SegmentBody {
    Closed,
    Json,
    Protobuf,
}

/// Tells the three kinds of segment body apart.
pub fn classify_segment_body(body: &[u8]) -> (r: SegmentBody)
    ensures
        r == (if body@ == seq![0x10u8, 0x01u8] {
            SegmentBody::Closed
        } else if body@.len() > 0 && body@[0] == 0x7bu8 {
            SegmentBody::Json
        } else {
            SegmentBody::Protobuf
        }),
{
    if body.len() == 2 && body[0] == 0x10 && body[1] == 0x01 {
        assert(body@ =~= seq![0x10u8, 0x01u8]);
        SegmentBody::Closed
    } else if body.len() > 0 && body[0] == 0x7b {
        proof {
            if body@ == seq![0x10u8, 0x01u8] {
                assert(body@[0] == 0x10u8);
            }
        }
        SegmentBody::Json
    } else {
        proof {
            if body@ == seq![0x10u8, 0x01u8] {
                assert(body@[0] == 0x10u8 && body@[1] == 0x01u8);
            }
        }
        SegmentBody::Protobuf
    }
}

/// What fetching one segment gave, when it did not fail for good.
#[derive(Debug)]
pub enum SegmentOutcome {
    /// Danmaku are closed for the video: no segment after this one is asked for.
    Closed,
    /// The entries kept from the segment.
    Entries(Vec<ImportedDanmuEntry>),
    /// Every try was limited: the segment is skipped.
    RateLimited,
}

/// A download of a page's danmaku, segment by segment (segments are
/// numbered from 1).
#[derive(Debug)]
pub struct DanmakuCollector {
    pub entries: Vec<ImportedDanmuEntry>,
    pub total_segments: usize,
    pub skipped_segments: usize,
    pub next_segment: usize,
    pub closed: bool,
}

impl DanmakuCollector {
    /// The counters agree: the next segment is at most one past the last, and
    /// only segments already asked for were skipped.
    pub open spec fn wf(&self) -> bool {
        &&& 1 <= self.next_segment <= self.total_segments + 1
        &&& self.skipped_segments < self.next_segment
    }

    /// A download of `total_segments` segments that has not started.
    pub fn new(total_segments: usize) -> (r: DanmakuCollector)
        requires
            1 <= total_segments < usize::MAX,
        ensures
            r.wf(),
            r.entries@.len() == 0,
            r.total_segments == total_segments,
            r.skipped_segments == 0,
            r.next_segment == 1,
            !r.closed,
    {
        DanmakuCollector {
            entries: Vec::new(),
            total_segments,
            skipped_segments: 0,
            next_segment: 1,
            closed: false,
        }
    }

    /// The segment to fetch next, or `None` when the download is over.
    pub fn next_segment_index(&self) -> (r: Option<usize>)
        ensures
            r == (if self.closed || self.next_segment > self.total_segments {
                None
            } else {
                Some(self.next_segment)
            }),
    {
        if self.closed || self.next_segment > self.total_segments {
            None
        } else {
            Some(self.next_segment)
        }
    }

    /// Takes in what fetching the next segment gave.
    pub fn record(&mut self, outcome: SegmentOutcome)
        requires
            old(self).wf(),
            !old(self).closed,
            old(self).next_segment <= old(self).total_segments,
            old(self).total_segments < usize::MAX,
        ensures
            final(self).wf(),
            final(self).total_segments == old(self).total_segments,
            final(self).next_segment == old(self).next_segment + 1,
            match outcome {
                SegmentOutcome::Closed => {
                    &&& final(self).closed
                    &&& entries_view(final(self).entries@) == entries_view(old(self).entries@)
                    &&& final(self).skipped_segments == old(self).skipped_segments
                },
                SegmentOutcome::Entries(es) => {
                    &&& !final(self).closed
                    &&& entries_view(final(self).entries@) == entries_view(old(self).entries@)
                        + entries_view(es@)
                    &&& final(self).skipped_segments == old(self).skipped_segments
                },
                SegmentOutcome::RateLimited => {
                    &&& !final(self).closed
                    &&& entries_view(final(self).entries@) == entries_view(old(self).entries@)
                    &&& final(self).skipped_segments == old(self).skipped_segments + 1
                },
            },
    {
        match outcome {
            SegmentOutcome::Closed => {
                self.closed = true;
            },
            SegmentOutcome::Entries(es) => {
                let ghost old_v = entries_view(self.entries@);
                let mut i: usize = 0;
                while i < es.len()
                    invariant
                        i <= es.len(),
                        entries_view(self.entries@) == old_v + entries_view(es@).take(i as int),
                        self.total_segments == old(self).total_segments,
                        self.skipped_segments == old(self).skipped_segments,
                        self.next_segment == old(self).next_segment,
                        self.closed == old(self).closed,
                    decreases es.len() - i,
                {
                    let e = es[i].duplicate();
                    let ghost prev = self.entries@;
                    self.entries.push(e);
                    assert(entries_view(self.entries@) =~= entries_view(prev).push(es@[i as int]@));
                    assert(entries_view(es@).take(i + 1) =~= entries_view(es@).take(i as int).push(
                        es@[i as int]@,
                    ));
                    assert(entries_view(self.entries@) =~= old_v + entries_view(es@).take(i + 1));
                    i = i + 1;
                }
                assert(entries_view(es@).take(es.len() as int) =~= entries_view(es@));
            },
            SegmentOutcome::RateLimited => {
                self.skipped_segments = self.skipped_segments + 1;
            },
        }
        self.next_segment = self.next_segment + 1;
    }

    /// The result of the download: the collected entries ordered by time
    /// and text without repeats, and the counts.
    pub fn finish(self, bvid: String, aid: i64, page: VideoPage) -> (r: ImportedVideoDanmuData)
        requires
            self.wf(),
        ensures
            r.download.bvid@ == bvid@,
            r.download.aid == aid,
            r.download.cid == page.cid,
            r.download.page == page.page,
            r.download.saved_count == r.entries.len(),
            r.download.total_segments == self.total_segments,
            r.download.skipped_segments == self.skipped_segments,
            r.download.skipped_segments <= r.download.total_segments,
            strictly_ordered(entries_view(r.entries@)),
            forall|x: (i64, Seq<char>)|
                entries_view(r.entries@).contains(x) <==> entries_view(self.entries@).contains(x),
    {
        let entries = merge_entries(self.entries);
        let saved_count = entries.len();
        ImportedVideoDanmuData {
            download: ImportedVideoDanmuDownload {
                bvid,
                aid,
                cid: page.cid,
                page: page.page,
                saved_count,
                total_segments: self.total_segments,
                skipped_segments: self.skipped_segments,
            },
            entries,
        }
    }
}

/// Whether the danmaku of a video can be downloaded: only an imported video,
/// and only with a Bilibili account (its cookies, when there is one) whose
/// cookies hold `SESSDATA=`.
pub fn check_danmu_download(platform: &str, account_cookies: Option<&str>) -> (r: Result<(), String>)
    ensures
        match r {
            Ok(()) => platform@ == "imported"@ && (account_cookies matches Some(c) && contains(c@, "SESSDATA="@)),
            Err(e) => if platform@ != "imported"@ {
                e@ == "只有导入视频支持下载弹幕"@
            } else if account_cookies is None {
                e@ == "请先添加一个带 SESSDATA 的 B 站账号"@
            } else {
                e@ == "当前 B 站账号 cookies 缺少 SESSDATA"@ && !contains(account_cookies->0@, "SESSDATA="@)
            },
        },
{
    if !str_eq(platform, "imported") {
        return Err("只有导入视频支持下载弹幕".to_owned());
    }
    match account_cookies {
        None => Err("请先添加一个带 SESSDATA 的 B 站账号".to_owned()),
        Some(c) => if contains_exec(&chars_of(c), &chars_of("SESSDATA=")) {
            Ok(())
        } else {
            Err("当前 B 站账号 cookies 缺少 SESSDATA".to_owned())
        },
    }
}

/// What one try at fetching a segment gave, once its body is decoded.
#[derive(Debug)]
pub enum SegmentResponse {
    /// The request could not be sent; the error.
    SendFailed(String),
    /// The body could not be read; the error.
    ReadFailed(String),
    /// The answer had this unsuccessful HTTP status.
    BadStatus(String),
    /// The body says danmaku are closed.
    Closed,
    /// A JSON answer with this code and message.
    JsonAnswer { code: i64, message: String },
    /// A JSON body that could not be decoded; the error.
    JsonUndecodable(String),
    /// The danmaku of a protobuf body.
    Elems(Vec<SegmentElem>),
    /// A protobuf body that could not be decoded; the error.
    ProtoUndecodable(String),
}

/// What to do after one try at fetching a segment.
#[derive(Debug)]
pub enum SegmentStep {
    /// Try again after this many milliseconds.
    Retry(u64),
    /// The segment is done with this outcome.
    Outcome(SegmentOutcome),
    /// Every try was limited; the message.
    RateLimited(String),
    /// The download fails with this message.
    Fatal(String),
}

/// The value of a step: `0` retry (with its pause), `1` closed, `2`
/// entries (with them), `3` limited, `4` fatal (with the message).
pub open spec fn segment_step_view(s: SegmentStep) -> (int, nat, Seq<(i64, Seq<char>)>, Seq<char>) {
    match s {
        SegmentStep::Retry(p) => (0, p as nat, seq![], seq![]),
        SegmentStep::Outcome(SegmentOutcome::Closed) => (1, 0, seq![], seq![]),
        SegmentStep::Outcome(SegmentOutcome::Entries(es)) => (2, 0, entries_view(es@), seq![]),
        SegmentStep::Outcome(SegmentOutcome::RateLimited) => (3, 0, seq![], seq![]),
        SegmentStep::RateLimited(m) => (3, 0, seq![], m@),
        SegmentStep::Fatal(m) => (4, 0, seq![], m@),
    }
}

/// A failure that is tried again while tries are left, else ends the
/// download (or, for `limited`, skips the segment) with `message`.
pub open spec fn retry_or(attempt: nat, limited: bool, message: Seq<char>) -> (int, nat, Seq<(i64, Seq<char>)>, Seq<char>) {
    if attempt + 1 < MAX_RETRIES {
        (0, backoff_spec(attempt), seq![], seq![])
    } else if limited {
        (3, 0, seq![], message)
    } else {
        (4, 0, seq![], message)
    }
}

/// The decision after try `attempt` (from 0) at segment `index`: failures
/// to send, to read, and unsuccessful statuses are tried again while tries
/// are left; a limited JSON answer too, and then skips the segment; any
/// other JSON answer, an undecodable body, or the last failed try ends the
/// download; a closed body or the danmaku of the segment end the segment.
pub open spec fn segment_step_spec(index: nat, attempt: nat, response: SegmentResponse) -> (int, nat, Seq<(i64, Seq<char>)>, Seq<char>) {
    let seg = nat_digits(index);
    match response {
        SegmentResponse::SendFailed(e) => retry_or(attempt, false, "下载弹幕分段 "@ + seg + " 失败: "@ + e@),
        SegmentResponse::ReadFailed(e) => retry_or(attempt, false, "读取弹幕分段 "@ + seg + " 失败: "@ + e@),
        SegmentResponse::BadStatus(st) => retry_or(attempt, false, "下载弹幕分段 "@ + seg + " 失败，HTTP "@ + st@),
        SegmentResponse::Closed => (1, 0, seq![], seq![]),
        SegmentResponse::JsonAnswer { code, message } => if is_rate_limited_spec(code, message@) {
            retry_or(attempt, true, "弹幕分段 "@ + seg + " 被限流: "@ + message@ + " ("@ + int_decimal(code as int) + ")"@)
        } else {
            (4, 0, seq![], "弹幕分段 "@ + seg + " 返回错误: "@ + message@ + " ("@ + int_decimal(code as int) + ")"@)
        },
        SegmentResponse::JsonUndecodable(e) => (4, 0, seq![], e@),
        SegmentResponse::Elems(v) => (2, 0, segment_entries_spec(v@), seq![]),
        SegmentResponse::ProtoUndecodable(e) => (4, 0, seq![], "解析弹幕分段 "@ + seg + " 失败: "@ + e@),
    }
}

fn segment_message(prefix: &str, index: usize, middle: &str, tail: &str) -> (r: String)
    ensures
        r@ == prefix@ + nat_digits(index as nat) + middle@ + tail@,
{
    let mut v = chars_of(prefix);
    push_u64_digits(&mut v, index as u64);
    crate::text::extend_chars(&mut v, &chars_of(middle));
    crate::text::extend_chars(&mut v, &chars_of(tail));
    string_from_chars(&v)
}

fn retry_step(attempt: usize, limited: bool, message: String) -> (r: SegmentStep)
    ensures
        segment_step_view(r) == retry_or(attempt as nat, limited, message@),
{
    proof {
        let k: nat = if attempt < 6 { attempt as nat } else { 6nat };
        assert(doubling(k) <= 64) by {
            reveal_with_fuel(doubling, 7);
        }
        assert(backoff_spec(attempt as nat) <= 1200 * 64) by (nonlinear_arith)
            requires
                backoff_spec(attempt as nat) == 1200 * doubling(k),
                doubling(k) <= 64,
        ;
    }
    match retry_backoff(attempt) {
        Some(p) => SegmentStep::Retry(p),
        None => if limited {
            SegmentStep::RateLimited(message)
        } else {
            SegmentStep::Fatal(message)
        },
    }
}

/// Decides what follows one try at fetching a segment.
pub fn segment_fetch_step(index: usize, attempt: usize, response: SegmentResponse) -> (r: SegmentStep)
    ensures
        segment_step_view(r) == segment_step_spec(index as nat, attempt as nat, response),
{
    match response {
        SegmentResponse::SendFailed(e) => retry_step(attempt, false, segment_message("下载弹幕分段 ", index, " 失败: ", e.as_str())),
        SegmentResponse::ReadFailed(e) => retry_step(attempt, false, segment_message("读取弹幕分段 ", index, " 失败: ", e.as_str())),
        SegmentResponse::BadStatus(st) => retry_step(attempt, false, segment_message("下载弹幕分段 ", index, " 失败，HTTP ", st.as_str())),
        SegmentResponse::Closed => SegmentStep::Outcome(SegmentOutcome::Closed),
        SegmentResponse::JsonAnswer { code, message } => {
            let limited = is_rate_limited(code, message.as_str());
            let mut v = chars_of(if limited { "弹幕分段 " } else { "弹幕分段 " });
            push_u64_digits(&mut v, index as u64);
            crate::text::extend_chars(&mut v, &chars_of(if limited { " 被限流: " } else { " 返回错误: " }));
            crate::text::extend_chars(&mut v, &chars_of(message.as_str()));
            crate::text::extend_chars(&mut v, &chars_of(" ("));
            push_i64_decimal(&mut v, code);
            crate::text::extend_chars(&mut v, &chars_of(")"));
            let m = string_from_chars(&v);
            if limited {
                retry_step(attempt, true, m)
            } else {
                SegmentStep::Fatal(m)
            }
        },
        SegmentResponse::JsonUndecodable(e) => SegmentStep::Fatal(e),
        SegmentResponse::Elems(v) => SegmentStep::Outcome(SegmentOutcome::Entries(segment_entries(&v))),
        SegmentResponse::ProtoUndecodable(e) => SegmentStep::Fatal(segment_message("解析弹幕分段 ", index, " 失败: ", e.as_str())),
    }
}

/// The pause before try `attempt + 1` (counted from 0): 1200 ms, doubled
/// once per earlier try.
pub proof fn lemma_backoff_doubles(attempt: nat)
    requires
        attempt + 1 < MAX_RETRIES,
    ensures
        backoff_spec(0) == 1200,
        attempt > 0 ==> backoff_spec(attempt) == 2 * backoff_spec((attempt - 1) as nat),
{
    reveal_with_fuel(doubling, 3);
}

/// What follows a try at a segment, for every step that
/// `segment_fetch_step` can give: a try that could not be sent or read,
/// that got an unsuccessful status, or whose answer says the client is
/// being limited, is tried again while tries are left, after 1200 ms
/// doubled once per earlier try (so the first limited try at a segment is
/// retried after 1200 ms); only on the last try does a limited answer skip
/// the segment, and do the other failures end the download.  Any other
/// answer in JSON ends the download at once, and a closed or decoded
/// segment ends the segment, on any try.
pub proof fn lemma_segment_retry(index: usize, attempt: usize, response: SegmentResponse, r: SegmentStep)
    requires
        segment_step_view(r) == segment_step_spec(index as nat, attempt as nat, response),
    ensures
        ({
            let failed = response is SendFailed || response is ReadFailed || response is BadStatus;
            let limited = response matches SegmentResponse::JsonAnswer { code, message } && is_rate_limited_spec(
                code,
                message@,
            );
            &&& (failed || limited) && attempt + 1 < MAX_RETRIES ==> r == SegmentStep::Retry(
                (1200 * doubling(attempt as nat)) as u64,
            )
            &&& attempt == 0 && (failed || limited) ==> r == SegmentStep::Retry(1200)
            &&& attempt == 1 && (failed || limited) ==> r == SegmentStep::Retry(2400)
            &&& attempt == 2 && (failed || limited) ==> r == SegmentStep::Retry(4800)
            &&& attempt >= 3 && (failed || limited) ==> !(r is Retry)
            &&& limited && attempt + 1 >= MAX_RETRIES ==> !(r is Retry) && segment_step_view(r).0 == 3
            &&& failed && attempt + 1 >= MAX_RETRIES ==> r is Fatal
            &&& (response is JsonAnswer && !limited) ==> r is Fatal
            &&& response is JsonUndecodable || response is ProtoUndecodable ==> r is Fatal
            &&& response is Closed ==> r == SegmentStep::Outcome(SegmentOutcome::Closed)
            &&& response is Elems ==> r matches SegmentStep::Outcome(SegmentOutcome::Entries(_))
        }),
{
    reveal_with_fuel(doubling, 3);
}

/// The page taken, for every result that `select_page` can give: the first
/// listed page with the number asked for; the download is refused exactly
/// when no listed page has that number.
pub proof fn lemma_select_page(pages: Seq<VideoPage>, page_number: i32, r: Result<VideoPage, Seq<char>>)
    requires
        r == select_page_spec(pages, page_number),
    ensures
        r is Ok <==> exists|i: int| 0 <= i < pages.len() && (#[trigger] pages[i]).page == page_number,
        r matches Ok(p) ==> exists|i: int|
            0 <= i < pages.len() && #[trigger] pages[i] == p && p.page == page_number && forall|j: int|
                0 <= j < i ==> (#[trigger] pages[j]).page != page_number,
{
    if pages.len() > 0 && exists|i: int| 0 <= i < pages.len() && (#[trigger] pages[i]).page == page_number {
        let i0 = choose|i: int| 0 <= i < pages.len() && (#[trigger] pages[i]).page == page_number;
        lemma_first_page(pages, page_number, i0);
    }
}

proof fn lemma_first_page(pages: Seq<VideoPage>, page_number: i32, i0: int)
    requires
        0 <= i0 < pages.len(),
        pages[i0].page == page_number,
    ensures
        exists|i: int|
            0 <= i < pages.len() && (#[trigger] pages[i]).page == page_number && forall|j: int|
                0 <= j < i ==> (#[trigger] pages[j]).page != page_number,
    decreases i0,
{
    if exists|j: int| 0 <= j < i0 && (#[trigger] pages[j]).page == page_number {
        let j = choose|j: int| 0 <= j < i0 && (#[trigger] pages[j]).page == page_number;
        lemma_first_page(pages, page_number, j);
    } else {
        assert(forall|j: int| 0 <= j < i0 ==> (#[trigger] pages[j]).page != page_number);
    }
}

/// The number of danmaku segments of a page, for every result that
/// `total_segments` can give: at least one, enough 360-second segments to
/// cover the page, and not one more than needed.
pub proof fn lemma_total_segments(duration: i64, r: int)
    requires
        r == total_segments_spec(duration),
    ensures
        r >= 1,
        r * 360 >= duration,
        r > 1 ==> (r - 1) * 360 < duration,
{
    let d: int = if duration < 0 {
        0
    } else {
        duration as int
    };
    let n = (d + 359) / 360;
    assert(n * 360 <= d + 359 && d + 359 < n * 360 + 360) by (nonlinear_arith)
        requires
            n == (d + 359) / 360,
            d >= 0,
    ;
}

/// The entries kept from the danmaku of a segment, for every result that
/// `segment_entries` can give: those danmaku, in order, of an ordinary kind
/// (modes 1 to 7) at a time that is not negative and with text left once
/// trimmed, each at its time with its trimmed text, line breaks made
/// spaces.
pub proof fn lemma_segment_entries(elems: Seq<SegmentElem>)
    ensures
        segment_entries_spec(elems) == elems.filter(
            |e: SegmentElem| 1 <= e.mode <= 7 && e.progress >= 0 && trim(e.content@).len() > 0,
        ).map_values(
            |e: SegmentElem|
                (
                    e.progress as i64,
                    trim(e.content@).map_values(
                        |c: char|
                            if c == '\r' || c == '\n' {
                                ' '
                            } else {
                                c
                            },
                    ),
                ),
        ),
    decreases elems.len(),
{
    let pred = |e: SegmentElem| 1 <= e.mode <= 7 && e.progress >= 0 && trim(e.content@).len() > 0;
    let f = |e: SegmentElem|
        (
            e.progress as i64,
            trim(e.content@).map_values(
                |c: char|
                    if c == '\r' || c == '\n' {
                        ' '
                    } else {
                        c
                    },
            ),
        );
    reveal(Seq::filter);
    if elems.len() == 0 {
        assert(elems.filter(pred).map_values(f) =~= Seq::<(i64, Seq<char>)>::empty());
    } else {
        let d = elems.drop_last();
        lemma_segment_entries(d);
        let sub = d.filter(pred);
        let e = elems.last();
        assert(clean_content(e.content@).len() == trim(e.content@).len());
        if pred(e) {
            assert(sub.push(e).map_values(f) =~= sub.map_values(f).push(f(e)));
            assert(elem_entry(e) == Some(f(e)));
        } else {
            assert(elem_entry(e) is None);
        }
    }
}

} // verus!
