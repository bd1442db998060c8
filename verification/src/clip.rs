//! Clipping a recording: the danmaku and subtitle cues that fall in the
//! chosen ranges, moved to the clip's own time line, and the names and
//! places of the files a clip produces.
use vstd::prelude::*;

use crate::danmu::{entries_view, DanmuEntry, DanmuEntryView};
use crate::decimal::{nat_digits, push_u64_digits, u64_zero_padded, zero_pad};
use crate::media::{lemma_srt_time_roundtrip, ms_to_srt_spec, ms_to_srt_time, srt_time_to_ms, srt_total_ms, SrtTime};
use crate::paths::{file_name_spec, join_spec, path_file_name, path_join, path_with_file_name, with_file_name_spec};
use crate::text::{chars_of, extend_chars, is_blank, string_from_chars, trim};

verus! {

/// A chosen range of the recording in milliseconds: where it starts and
/// ends, and how long it lasts in the clip.
#[derive(Clone, Copy, Debug, PartialEq, Eq)]
pub struct ClipWindow {
    pub start_ms: i64,
    pub end_ms: i64,
    pub duration_ms: i64,
}

/// Where a range starts on the clip's time line: the total length of the
/// ranges before it.
pub open spec fn anchor_of(ws: Seq<ClipWindow>) -> int
    decreases ws.len(),
{
    if ws.len() == 0 {
        0
    } else {
        anchor_of(ws.drop_last()) + ws.last().duration_ms
    }
}

/// The danmaku of one range: those from `lookback_ms` before its start up
/// to its end (so that danmaku still on screen at its start are kept),
/// moved to the clip's time line; emotes are rendered only when both the
/// entry and the clip ask for it.
pub open spec fn clip_danmu_window(
    es: Seq<DanmuEntryView>,
    w: ClipWindow,
    anchor: int,
    lookback_ms: i64,
    render_emotes: bool,
) -> Seq<DanmuEntryView>
    decreases es.len(),
{
    if es.len() == 0 {
        seq![]
    } else {
        let r = clip_danmu_window(es.drop_last(), w, anchor, lookback_ms, render_emotes);
        let e = es.last();
        if e.ts >= w.start_ms - lookback_ms && e.ts < w.end_ms {
            r.push(
                DanmuEntryView {
                    ts: (e.ts - w.start_ms + anchor) as i64,
                    content: e.content,
                    render_emotes: e.render_emotes && render_emotes,
                },
            )
        } else {
            r
        }
    }
}

/// The danmaku of a clip: those of each range in turn.
pub open spec fn clip_danmu_spec(
    es: Seq<DanmuEntryView>,
    ws: Seq<ClipWindow>,
    lookback_ms: i64,
    render_emotes: bool,
) -> Seq<DanmuEntryView>
    decreases ws.len(),
{
    if ws.len() == 0 {
        seq![]
    } else {
        clip_danmu_spec(es, ws.drop_last(), lookback_ms, render_emotes) + clip_danmu_window(
            es,
            ws.last(),
            anchor_of(ws.drop_last()),
            lookback_ms,
            render_emotes,
        )
    }
}

/// Whether `x` is a value of `i64`.
pub open spec fn fits_i64(x: int) -> bool {
    i64::MIN <= x <= i64::MAX
}

/// Taking the danmaku of one range is done in `i64` without overflow: the
/// start of the look-back (worked out once there is an entry to compare
/// with it), and each kept entry's time less the range's start, then plus
/// the anchor.
pub open spec fn danmu_window_fits(es: Seq<DanmuEntryView>, w: ClipWindow, anchor: int, lookback_ms: i64) -> bool
    decreases es.len(),
{
    if es.len() == 0 {
        true
    } else {
        let t = es.last().ts;
        &&& fits_i64(w.start_ms - lookback_ms)
        &&& danmu_window_fits(es.drop_last(), w, anchor, lookback_ms)
        &&& (t >= w.start_ms - lookback_ms && t < w.end_ms) ==> fits_i64(t - w.start_ms) && fits_i64(
            t - w.start_ms + anchor,
        )
    }
}

/// Clipping danmaku to the ranges `ws` is done in `i64` without overflow:
/// each range's danmaku, and the running total of the ranges' lengths.
pub open spec fn clip_danmu_fits(es: Seq<DanmuEntryView>, ws: Seq<ClipWindow>, lookback_ms: i64) -> bool
    decreases ws.len(),
{
    if ws.len() == 0 {
        true
    } else {
        &&& clip_danmu_fits(es, ws.drop_last(), lookback_ms)
        &&& danmu_window_fits(es, ws.last(), anchor_of(ws.drop_last()), lookback_ms)
        &&& fits_i64(anchor_of(ws))
    }
}

/// Entry `e` of the recording, taken into a clip at range `w` whose start
/// lies `anchor` into the clip, as `x`: moved by the range's start and the
/// anchor, with its content, rendering emotes only when it did and the clip
/// asks for it.
pub open spec fn taken_as(x: DanmuEntryView, e: DanmuEntryView, w: ClipWindow, anchor: int, render_emotes: bool) -> bool {
    &&& x.ts == e.ts - w.start_ms + anchor
    &&& x.content == e.content
    &&& x.render_emotes == (e.render_emotes && render_emotes)
}

/// Entry `e` falls in range `w` (from `lookback_ms` before its start).
pub open spec fn in_window(e: DanmuEntryView, w: ClipWindow, lookback_ms: i64) -> bool {
    e.ts >= w.start_ms - lookback_ms && e.ts < w.end_ms
}

proof fn lemma_window_source(
    es: Seq<DanmuEntryView>,
    w: ClipWindow,
    anchor: int,
    lookback_ms: i64,
    render_emotes: bool,
    k: int,
)
    requires
        danmu_window_fits(es, w, anchor, lookback_ms),
        0 <= k < clip_danmu_window(es, w, anchor, lookback_ms, render_emotes).len(),
    ensures
        exists|i: int|
            #![trigger es[i]]
            0 <= i < es.len() && in_window(es[i], w, lookback_ms) && taken_as(
                clip_danmu_window(es, w, anchor, lookback_ms, render_emotes)[k],
                es[i],
                w,
                anchor,
                render_emotes,
            ),
    decreases es.len(),
{
    let d = es.drop_last();
    let e = es.last();
    let o0 = clip_danmu_window(d, w, anchor, lookback_ms, render_emotes);
    let out = clip_danmu_window(es, w, anchor, lookback_ms, render_emotes);
    assert(es[es.len() - 1] == e);
    if k < o0.len() {
        lemma_window_source(d, w, anchor, lookback_ms, render_emotes, k);
        assert(out[k] == o0[k]);
        let i = choose|i: int|
            #![trigger d[i]]
            0 <= i < d.len() && in_window(d[i], w, lookback_ms) && taken_as(o0[k], d[i], w, anchor, render_emotes);
        assert(es[i] == d[i]);
    } else {
        assert(in_window(e, w, lookback_ms));
        assert(fits_i64(e.ts - w.start_ms + anchor));
        assert(out[k] == out.last());
        assert(taken_as(out[k], es[es.len() - 1], w, anchor, render_emotes));
    }
}

proof fn lemma_window_keeps(
    es: Seq<DanmuEntryView>,
    w: ClipWindow,
    anchor: int,
    lookback_ms: i64,
    render_emotes: bool,
    i: int,
)
    requires
        danmu_window_fits(es, w, anchor, lookback_ms),
        0 <= i < es.len(),
        in_window(es[i], w, lookback_ms),
    ensures
        exists|k: int|
            #![trigger clip_danmu_window(es, w, anchor, lookback_ms, render_emotes)[k]]
            0 <= k < clip_danmu_window(es, w, anchor, lookback_ms, render_emotes).len() && taken_as(
                clip_danmu_window(es, w, anchor, lookback_ms, render_emotes)[k],
                es[i],
                w,
                anchor,
                render_emotes,
            ),
    decreases es.len(),
{
    let d = es.drop_last();
    let e = es.last();
    let o0 = clip_danmu_window(d, w, anchor, lookback_ms, render_emotes);
    let out = clip_danmu_window(es, w, anchor, lookback_ms, render_emotes);
    if i < d.len() {
        assert(es[i] == d[i]);
        lemma_window_keeps(d, w, anchor, lookback_ms, render_emotes, i);
        let k = choose|k: int|
            #![trigger o0[k]]
            0 <= k < o0.len() && taken_as(o0[k], d[i], w, anchor, render_emotes);
        if in_window(e, w, lookback_ms) {
            assert(out[k] == o0[k]);
        } else {
            assert(out[k] == o0[k]);
        }
    } else {
        assert(es[i] == e);
        assert(fits_i64(e.ts - w.start_ms + anchor));
        assert(out[o0.len() as int] == out.last());
        assert(taken_as(out[o0.len() as int], es[i], w, anchor, render_emotes));
    }
}

/// Where each danmaku of a clip comes from, for every result that
/// `clip_danmu_entries` can give: from an entry of the recording that
/// falls in one of the ranges (from `lookback_ms` before its start up to
/// its end), moved to the clip's time line (less the range's start, plus
/// the lengths of the ranges before it), with its content, rendering emotes
/// only when that entry did and the clip asks for it.
pub proof fn lemma_clip_danmu_source(
    es: Seq<DanmuEntryView>,
    ws: Seq<ClipWindow>,
    lookback_ms: i64,
    render_emotes: bool,
    out: Seq<DanmuEntryView>,
    k: int,
)
    requires
        clip_danmu_fits(es, ws, lookback_ms),
        out == clip_danmu_spec(es, ws, lookback_ms, render_emotes),
        0 <= k < out.len(),
    ensures
        exists|j: int, i: int|
            #![trigger ws[j], es[i]]
            0 <= j < ws.len() && 0 <= i < es.len() && in_window(es[i], ws[j], lookback_ms) && taken_as(
                out[k],
                es[i],
                ws[j],
                anchor_of(ws.take(j)),
                render_emotes,
            ),
    decreases ws.len(),
{
    let p = ws.drop_last();
    let w = ws.last();
    let a = anchor_of(p);
    let o0 = clip_danmu_spec(es, p, lookback_ms, render_emotes);
    let o1 = clip_danmu_window(es, w, a, lookback_ms, render_emotes);
    assert(out == o0 + o1);
    assert(ws[ws.len() - 1] == w);
    if k < o0.len() {
        lemma_clip_danmu_source(es, p, lookback_ms, render_emotes, o0, k);
        assert(out[k] == o0[k]);
        let (j, i) = choose|j: int, i: int|
            #![trigger p[j], es[i]]
            0 <= j < p.len() && 0 <= i < es.len() && in_window(es[i], p[j], lookback_ms) && taken_as(
                o0[k],
                es[i],
                p[j],
                anchor_of(p.take(j)),
                render_emotes,
            );
        assert(ws[j] == p[j]);
        assert(ws.take(j) =~= p.take(j));
    } else {
        lemma_window_source(es, w, a, lookback_ms, render_emotes, k - o0.len());
        assert(out[k] == o1[k - o0.len()]);
        let i = choose|i: int|
            #![trigger es[i]]
            0 <= i < es.len() && in_window(es[i], w, lookback_ms) && taken_as(o1[k - o0.len()], es[i], w, a, render_emotes);
        assert(ws.take(ws.len() - 1) =~= p);
        assert(in_window(es[i], ws[ws.len() - 1], lookback_ms));
    }
}

/// Every entry of the recording that falls in a range of a clip (from
/// `lookback_ms` before its start up to its end) is among the clip's
/// danmaku, moved to the clip's time line, with its content, rendering
/// emotes only when it did and the clip asks for it; this holds for every
/// result that `clip_danmu_entries` can give.
pub proof fn lemma_clip_danmu_keeps(
    es: Seq<DanmuEntryView>,
    ws: Seq<ClipWindow>,
    lookback_ms: i64,
    render_emotes: bool,
    out: Seq<DanmuEntryView>,
    j: int,
    i: int,
)
    requires
        clip_danmu_fits(es, ws, lookback_ms),
        out == clip_danmu_spec(es, ws, lookback_ms, render_emotes),
        0 <= j < ws.len(),
        0 <= i < es.len(),
        in_window(es[i], ws[j], lookback_ms),
    ensures
        exists|k: int|
            #![trigger out[k]]
            0 <= k < out.len() && taken_as(out[k], es[i], ws[j], anchor_of(ws.take(j)), render_emotes),
    decreases ws.len(),
{
    let p = ws.drop_last();
    let w = ws.last();
    let a = anchor_of(p);
    let o0 = clip_danmu_spec(es, p, lookback_ms, render_emotes);
    let o1 = clip_danmu_window(es, w, a, lookback_ms, render_emotes);
    assert(out == o0 + o1);
    if j < p.len() {
        assert(ws[j] == p[j]);
        assert(ws.take(j) =~= p.take(j));
        lemma_clip_danmu_keeps(es, p, lookback_ms, render_emotes, o0, j, i);
        let k = choose|k: int|
            #![trigger o0[k]]
            0 <= k < o0.len() && taken_as(o0[k], es[i], p[j], anchor_of(p.take(j)), render_emotes);
        assert(out[k] == o0[k]);
    } else {
        assert(ws[j] == w);
        assert(ws.take(j) =~= p);
        lemma_window_keeps(es, w, a, lookback_ms, render_emotes, i);
        let k = choose|k: int|
            #![trigger o1[k]]
            0 <= k < o1.len() && taken_as(o1[k], es[i], w, a, render_emotes);
        assert(out[o0.len() + k] == o1[k]);
    }
}

/// The danmaku that a clip takes from one range `w`, whose start lies
/// `anchor` into the clip: the entries of the recording that fall in it
/// (from `lookback_ms` before its start up to its end), in their order,
/// each moved by the range's start and the anchor, with its content,
/// rendering emotes only when it did and the clip asks for it.
pub proof fn lemma_clip_danmu_window_is_filter(
    es: Seq<DanmuEntryView>,
    w: ClipWindow,
    anchor: int,
    lookback_ms: i64,
    render_emotes: bool,
)
    ensures
        clip_danmu_window(es, w, anchor, lookback_ms, render_emotes) == es.filter(
            |e: DanmuEntryView| in_window(e, w, lookback_ms),
        ).map_values(
            |e: DanmuEntryView|
                DanmuEntryView {
                    ts: (e.ts - w.start_ms + anchor) as i64,
                    content: e.content,
                    render_emotes: e.render_emotes && render_emotes,
                },
        ),
    decreases es.len(),
{
    let pred = |e: DanmuEntryView| in_window(e, w, lookback_ms);
    let f = |e: DanmuEntryView|
        DanmuEntryView {
            ts: (e.ts - w.start_ms + anchor) as i64,
            content: e.content,
            render_emotes: e.render_emotes && render_emotes,
        };
    reveal(Seq::filter);
    if es.len() == 0 {
        assert(es.filter(pred) =~= Seq::<DanmuEntryView>::empty());
        assert(es.filter(pred).map_values(f) =~= Seq::<DanmuEntryView>::empty());
    } else {
        let d = es.drop_last();
        lemma_clip_danmu_window_is_filter(d, w, anchor, lookback_ms, render_emotes);
        let sub = d.filter(pred);
        assert(es.filter(pred) == (if pred(es.last()) {
            sub.push(es.last())
        } else {
            sub
        }));
        if pred(es.last()) {
            assert(sub.push(es.last()).map_values(f) =~= sub.map_values(f).push(f(es.last())));
        }
    }
}

/// The danmaku of a clip, range after range: those of every range but the
/// last, then those the last range takes (see
/// [`lemma_clip_danmu_window_is_filter`]), whose start lies the total
/// length of the ranges before it into the clip; none without ranges.
pub proof fn lemma_clip_danmu_ranges_in_order(
    es: Seq<DanmuEntryView>,
    ws: Seq<ClipWindow>,
    lookback_ms: i64,
    render_emotes: bool,
)
    ensures
        ws.len() == 0 ==> clip_danmu_spec(es, ws, lookback_ms, render_emotes).len() == 0,
        ws.len() > 0 ==> clip_danmu_spec(es, ws, lookback_ms, render_emotes) == clip_danmu_spec(
            es,
            ws.drop_last(),
            lookback_ms,
            render_emotes,
        ) + es.filter(|e: DanmuEntryView| in_window(e, ws.last(), lookback_ms)).map_values(
            |e: DanmuEntryView|
                DanmuEntryView {
                    ts: (e.ts - ws.last().start_ms + anchor_of(ws.drop_last())) as i64,
                    content: e.content,
                    render_emotes: e.render_emotes && render_emotes,
                },
        ),
{
    if ws.len() > 0 {
        lemma_clip_danmu_window_is_filter(es, ws.last(), anchor_of(ws.drop_last()), lookback_ms, render_emotes);
    }
}

/// The danmaku of a clip made of the ranges `windows`, or `None` where
/// the `i64` arithmetic of clipping them would overflow.
pub fn clip_danmu_entries_checked(
    entries: &[DanmuEntry],
    windows: &[ClipWindow],
    lookback_ms: i64,
    render_emotes: bool,
) -> (r: Option<Vec<DanmuEntry>>)
    ensures
        r is Some <==> clip_danmu_fits(entries_view(entries@), windows@, lookback_ms),
        r matches Some(v) ==> entries_view(v@) == clip_danmu_spec(
            entries_view(entries@),
            windows@,
            lookback_ms,
            render_emotes,
        ),
{
    let ghost ev = entries_view(entries@);
    let mut r: Vec<DanmuEntry> = Vec::new();
    let mut anchor: i64 = 0;
    let mut w: usize = 0;
    while w < windows.len()
        invariant
            w <= windows.len(),
            ev == entries_view(entries@),
            anchor == anchor_of(windows@.take(w as int)),
            clip_danmu_fits(ev, windows@.take(w as int), lookback_ms),
            clip_danmu_fits(ev, windows@, lookback_ms) ==> clip_danmu_fits(ev, windows@.take(w as int), lookback_ms),
            entries_view(r@) == clip_danmu_spec(ev, windows@.take(w as int), lookback_ms, render_emotes),
        decreases windows.len() - w,
    {
        let win = windows[w];
        let ghost pre = windows@.take(w as int);
        let ghost next = windows@.take(w + 1);
        assert(next.drop_last() =~= pre);
        assert(next.last() == win);
        proof {
            lemma_clip_danmu_fits_prefix(ev, windows@, w + 1);
            assert(clip_danmu_fits(ev, windows@, lookback_ms) ==> clip_danmu_fits(ev, next, lookback_ms));
        }
        let lb_start = win.start_ms as i128 - lookback_ms as i128;
        let ghost r0 = entries_view(r@);
        let mut i: usize = 0;
        while i < entries.len()
            invariant
                i <= entries.len(),
                ev == entries_view(entries@),
                lb_start == win.start_ms - lookback_ms,
                anchor == anchor_of(pre),
                next.drop_last() == pre,
                next.last() == win,
                next.len() > 0,
                clip_danmu_fits(ev, windows@, lookback_ms) ==> clip_danmu_fits(ev, next, lookback_ms),
                entries_view(r@) == r0 + clip_danmu_window(ev.take(i as int), win, anchor as int, lookback_ms, render_emotes),
                danmu_window_fits(ev.take(i as int), win, anchor as int, lookback_ms),
            decreases entries.len() - i,
        {
            assert(ev.take(i + 1).drop_last() =~= ev.take(i as int));
            assert(ev.take(i + 1).last() == entries@[i as int]@);
            if lb_start < -0x8000_0000_0000_0000i128 || lb_start > 0x7fff_ffff_ffff_ffffi128 {
                assert(!danmu_window_fits(ev.take(i + 1), win, anchor as int, lookback_ms));
                proof {
                    if danmu_window_fits(ev, win, anchor as int, lookback_ms) {
                        lemma_danmu_window_fits_prefix(ev, win, anchor as int, lookback_ms, i + 1);
                    }
                    assert(!danmu_window_fits(ev, win, anchor as int, lookback_ms));
                    assert(anchor as int == anchor_of(next.drop_last()));
                    assert(!clip_danmu_fits(ev, next, lookback_ms));
                }
                return None;
            }
            let e = &entries[i];
            if (e.ts as i128) >= lb_start && e.ts < win.end_ms {
                let moved = e.ts as i128 - win.start_ms as i128 + anchor as i128;
                let off = e.ts as i128 - win.start_ms as i128;
                if off < -0x8000_0000_0000_0000i128 || off > 0x7fff_ffff_ffff_ffffi128 || moved
                    < -0x8000_0000_0000_0000i128 || moved > 0x7fff_ffff_ffff_ffffi128 {
                    assert(!danmu_window_fits(ev.take(i + 1), win, anchor as int, lookback_ms));
                    proof {
                        if danmu_window_fits(ev, win, anchor as int, lookback_ms) {
                            lemma_danmu_window_fits_prefix(ev, win, anchor as int, lookback_ms, i + 1);
                        }
                        assert(!clip_danmu_fits(ev, next, lookback_ms));
                    }
                    return None;
                }
                let ghost before = entries_view(r@);
                r.push(
                    DanmuEntry {
                        ts: e.ts - win.start_ms + anchor,
                        content: e.content.clone(),
                        render_emotes: e.render_emotes && render_emotes,
                    },
                );
                assert(entries_view(r@) =~= before.push(r@.last()@));
            }
            i = i + 1;
        }
        assert(ev.take(entries.len() as int) =~= ev);
        let total = anchor as i128 + win.duration_ms as i128;
        if total < -0x8000_0000_0000_0000i128 || total > 0x7fff_ffff_ffff_ffffi128 {
            assert(!clip_danmu_fits(ev, next, lookback_ms));
            return None;
        }
        anchor = anchor + win.duration_ms;
        assert(clip_danmu_fits(ev, next, lookback_ms));
        w = w + 1;
    }
    assert(windows@.take(windows.len() as int) =~= windows@);
    Some(r)
}

proof fn lemma_danmu_window_fits_prefix(es: Seq<DanmuEntryView>, w: ClipWindow, anchor: int, lookback_ms: i64, k: int)
    requires
        0 <= k <= es.len(),
        danmu_window_fits(es, w, anchor, lookback_ms),
    ensures
        danmu_window_fits(es.take(k), w, anchor, lookback_ms),
    decreases es.len(),
{
    if k < es.len() {
        assert(es.drop_last().take(k) =~= es.take(k));
        lemma_danmu_window_fits_prefix(es.drop_last(), w, anchor, lookback_ms, k);
    } else {
        assert(es.take(k) =~= es);
    }
}

proof fn lemma_clip_danmu_fits_prefix(es: Seq<DanmuEntryView>, ws: Seq<ClipWindow>, k: int)
    requires
        0 <= k <= ws.len(),
    ensures
        forall|lb: i64| clip_danmu_fits(es, ws, lb) ==> #[trigger] clip_danmu_fits(es, ws.take(k), lb),
    decreases ws.len(),
{
    if k < ws.len() {
        assert(ws.drop_last().take(k) =~= ws.take(k));
        lemma_clip_danmu_fits_prefix(es, ws.drop_last(), k);
    } else {
        assert(ws.take(k) =~= ws);
    }
}

/// The danmaku of a clip made of the ranges `windows`.
pub fn clip_danmu_entries(
    entries: &[DanmuEntry],
    windows: &[ClipWindow],
    lookback_ms: i64,
    render_emotes: bool,
) -> (r: Vec<DanmuEntry>)
    requires
        clip_danmu_fits(entries_view(entries@), windows@, lookback_ms),
    ensures
        entries_view(r@) == clip_danmu_spec(entries_view(entries@), windows@, lookback_ms, render_emotes),
{
    match clip_danmu_entries_checked(entries, windows, lookback_ms, render_emotes) {
        Some(v) => v,
        None => Vec::new(),
    }
}

/// A cue of a subtitle file.
#[derive(Debug)]
pub struct SubtitleItem {
    pub pos: usize,
    pub start_time: SrtTime,
    pub end_time: SrtTime,
    pub text: String,
}

/// The value of a cue: number, start, end, text.
pub open spec fn item_view(x: SubtitleItem) -> (int, SrtTime, SrtTime, Seq<char>) {
    (x.pos as int, x.start_time, x.end_time, x.text@)
}

/// The values of a list of cues.
pub open spec fn items_view(s: Seq<SubtitleItem>) -> Seq<(int, SrtTime, SrtTime, Seq<char>)> {
    s.map_values(|x: SubtitleItem| item_view(x))
}

/// A cue time as the clipping takes it: its milliseconds worked out in
/// `u64`, then taken as an `i64` the way `as` does.
pub open spec fn srt_ms_i64(t: SrtTime) -> int {
    (srt_total_ms(t) as i64) as int
}

/// Clipping cues to one range is done without overflow: each cue's times in
/// `u64`, and, for a cue that keeps a positive length in the range, its
/// start and end less the range's start, then plus the anchor, in `i64`.
pub open spec fn items_window_fits(
    items: Seq<(int, SrtTime, SrtTime, Seq<char>)>,
    w: ClipWindow,
    anchor: int,
) -> bool
    decreases items.len(),
{
    if items.len() == 0 {
        true
    } else {
        let x = items.last();
        let s = srt_ms_i64(x.1);
        let e = srt_ms_i64(x.2);
        let cs = if s >= w.start_ms {
            s
        } else {
            w.start_ms as int
        };
        let ce = if e <= w.end_ms {
            e
        } else {
            w.end_ms as int
        };
        &&& items_window_fits(items.drop_last(), w, anchor)
        &&& srt_total_ms(x.1) <= u64::MAX
        &&& srt_total_ms(x.2) <= u64::MAX
        &&& ce > cs ==> fits_i64(cs - w.start_ms) && fits_i64(cs - w.start_ms + anchor) && fits_i64(ce - w.start_ms)
            && fits_i64(ce - w.start_ms + anchor)
    }
}

/// Clipping cues to the ranges `ws` is done without overflow: each range's
/// cues, and the running total of the ranges' lengths.
pub open spec fn clip_items_fit(items: Seq<(int, SrtTime, SrtTime, Seq<char>)>, ws: Seq<ClipWindow>) -> bool
    decreases ws.len(),
{
    if ws.len() == 0 {
        true
    } else {
        &&& clip_items_fit(items, ws.drop_last())
        &&& items_window_fits(items, ws.last(), anchor_of(ws.drop_last()))
        &&& fits_i64(anchor_of(ws))
    }
}

/// The cues of one range, appended to `acc`: each cue cut to the range
/// (dropped when nothing is left), moved to the clip's time line and
/// numbered on from those before it.
pub open spec fn clip_items_window(
    items: Seq<(int, SrtTime, SrtTime, Seq<char>)>,
    w: ClipWindow,
    anchor: int,
    acc: Seq<(int, SrtTime, SrtTime, Seq<char>)>,
) -> Seq<(int, SrtTime, SrtTime, Seq<char>)>
    decreases items.len(),
{
    if items.len() == 0 {
        acc
    } else {
        let acc1 = clip_items_window(items.drop_last(), w, anchor, acc);
        let x = items.last();
        let s = srt_ms_i64(x.1);
        let e = srt_ms_i64(x.2);
        let cs = if s >= w.start_ms {
            s
        } else {
            w.start_ms as int
        };
        let ce = if e <= w.end_ms {
            e
        } else {
            w.end_ms as int
        };
        if ce <= cs {
            acc1
        } else {
            acc1.push(
                (
                    acc1.len() + 1int,
                    ms_to_srt_spec((cs - w.start_ms + anchor) as i64),
                    ms_to_srt_spec((ce - w.start_ms + anchor) as i64),
                    x.3,
                ),
            )
        }
    }
}

/// The cues of a clip: those of each range in turn, numbered from 1.
pub open spec fn clip_items_spec(
    items: Seq<(int, SrtTime, SrtTime, Seq<char>)>,
    ws: Seq<ClipWindow>,
) -> Seq<(int, SrtTime, SrtTime, Seq<char>)>
    decreases ws.len(),
{
    if ws.len() == 0 {
        seq![]
    } else {
        clip_items_window(
            items,
            ws.last(),
            anchor_of(ws.drop_last()),
            clip_items_spec(items, ws.drop_last()),
        )
    }
}

/// Clipping against one window adds at most one cue per cue given.
pub proof fn lemma_clip_items_window_len(
    items: Seq<(int, SrtTime, SrtTime, Seq<char>)>,
    w: ClipWindow,
    anchor: int,
    acc: Seq<(int, SrtTime, SrtTime, Seq<char>)>,
)
    ensures
        clip_items_window(items, w, anchor, acc).len() <= acc.len() + items.len(),
    decreases items.len(),
{
    if items.len() > 0 {
        lemma_clip_items_window_len(items.drop_last(), w, anchor, acc);
    }
}

/// Cue `x` of the source, clipped to range `w` whose start lies `anchor`
/// into the clip, as `y`: it keeps a positive length in the range, `y`
/// has its text, and starts and ends where its part in the range starts and
/// ends on the clip's time line (never before 0).
pub open spec fn cue_clipped_as(
    y: (int, SrtTime, SrtTime, Seq<char>),
    x: (int, SrtTime, SrtTime, Seq<char>),
    w: ClipWindow,
    anchor: int,
) -> bool {
    let s = srt_ms_i64(x.1);
    let e = srt_ms_i64(x.2);
    let cs = if s >= w.start_ms {
        s
    } else {
        w.start_ms as int
    };
    let ce = if e <= w.end_ms {
        e
    } else {
        w.end_ms as int
    };
    let b = cs - w.start_ms + anchor;
    let f = ce - w.start_ms + anchor;
    &&& ce > cs
    &&& y.3 == x.3
    &&& srt_total_ms(y.1) == (if b < 0 {
        0
    } else {
        b
    })
    &&& srt_total_ms(y.2) == (if f < 0 {
        0
    } else {
        f
    })
}

proof fn lemma_items_window_grows(
    items: Seq<(int, SrtTime, SrtTime, Seq<char>)>,
    w: ClipWindow,
    anchor: int,
    acc: Seq<(int, SrtTime, SrtTime, Seq<char>)>,
)
    ensures
        clip_items_window(items, w, anchor, acc).len() >= acc.len(),
    decreases items.len(),
{
    if items.len() > 0 {
        lemma_items_window_grows(items.drop_last(), w, anchor, acc);
    }
}

proof fn lemma_items_window_source(
    items: Seq<(int, SrtTime, SrtTime, Seq<char>)>,
    w: ClipWindow,
    anchor: int,
    acc: Seq<(int, SrtTime, SrtTime, Seq<char>)>,
    k: int,
)
    requires
        items_window_fits(items, w, anchor),
        0 <= k < clip_items_window(items, w, anchor, acc).len(),
    ensures
        k < acc.len() ==> clip_items_window(items, w, anchor, acc)[k] == acc[k],
        k >= acc.len() ==> exists|i: int|
            #![trigger items[i]]
            0 <= i < items.len() && cue_clipped_as(clip_items_window(items, w, anchor, acc)[k], items[i], w, anchor),
    decreases items.len(),
{
    if items.len() > 0 {
        let d = items.drop_last();
        let x = items.last();
        let o0 = clip_items_window(d, w, anchor, acc);
        let out = clip_items_window(items, w, anchor, acc);
        lemma_items_window_grows(d, w, anchor, acc);
        assert(items[items.len() - 1] == x);
        if k < o0.len() {
            lemma_items_window_source(d, w, anchor, acc, k);
            assert(out[k] == o0[k]);
            if k >= acc.len() {
                let i = choose|i: int| #![trigger d[i]] 0 <= i < d.len() && cue_clipped_as(o0[k], d[i], w, anchor);
                assert(items[i] == d[i]);
            }
        } else {
            let s = srt_ms_i64(x.1);
            let e = srt_ms_i64(x.2);
            let cs = if s >= w.start_ms {
                s
            } else {
                w.start_ms as int
            };
            let ce = if e <= w.end_ms {
                e
            } else {
                w.end_ms as int
            };
            assert(ce > cs);
            assert(out[k] == out.last());
            lemma_srt_time_roundtrip((cs - w.start_ms + anchor) as i64);
            lemma_srt_time_roundtrip((ce - w.start_ms + anchor) as i64);
            assert(cue_clipped_as(out[k], items[items.len() - 1], w, anchor));
        }
    } else {
        assert(clip_items_window(items, w, anchor, acc) == acc);
    }
}

proof fn lemma_items_window_numbered(
    items: Seq<(int, SrtTime, SrtTime, Seq<char>)>,
    w: ClipWindow,
    anchor: int,
    acc: Seq<(int, SrtTime, SrtTime, Seq<char>)>,
)
    requires
        forall|k: int| 0 <= k < acc.len() ==> (#[trigger] acc[k]).0 == k + 1,
    ensures
        forall|k: int|
            0 <= k < clip_items_window(items, w, anchor, acc).len() ==> (#[trigger] clip_items_window(
                items,
                w,
                anchor,
                acc,
            )[k]).0 == k + 1,
    decreases items.len(),
{
    if items.len() > 0 {
        let d = items.drop_last();
        lemma_items_window_numbered(d, w, anchor, acc);
        let o0 = clip_items_window(d, w, anchor, acc);
        let out = clip_items_window(items, w, anchor, acc);
        assert forall|k: int| 0 <= k < out.len() implies (#[trigger] out[k]).0 == k + 1 by {
            if k < o0.len() {
                assert(out[k] == o0[k]);
            }
        }
    }
}

/// The cues of a clip, for every result that `clip_subtitle_items` can
/// give, are numbered 1, 2, 3, ... in order.
pub proof fn lemma_clip_items_numbered(items: Seq<(int, SrtTime, SrtTime, Seq<char>)>, ws: Seq<ClipWindow>)
    ensures
        forall|k: int|
            0 <= k < clip_items_spec(items, ws).len() ==> (#[trigger] clip_items_spec(items, ws)[k]).0 == k + 1,
    decreases ws.len(),
{
    if ws.len() > 0 {
        lemma_clip_items_numbered(items, ws.drop_last());
        lemma_items_window_numbered(items, ws.last(), anchor_of(ws.drop_last()), clip_items_spec(items, ws.drop_last()));
    }
}

/// Where each cue of a clip comes from, for every result that
/// `clip_subtitle_items` can give: from a cue of the source that keeps a
/// positive length in one of the ranges; it has that cue's text, and
/// starts and ends where the cue's part in the range does on the clip's
/// time line (less the range's start, plus the lengths of the ranges
/// before it, never before 0).
pub proof fn lemma_clip_item_source(
    items: Seq<(int, SrtTime, SrtTime, Seq<char>)>,
    ws: Seq<ClipWindow>,
    out: Seq<(int, SrtTime, SrtTime, Seq<char>)>,
    k: int,
)
    requires
        clip_items_fit(items, ws),
        out == clip_items_spec(items, ws),
        0 <= k < out.len(),
    ensures
        exists|j: int, i: int|
            #![trigger ws[j], items[i]]
            0 <= j < ws.len() && 0 <= i < items.len() && cue_clipped_as(out[k], items[i], ws[j], anchor_of(ws.take(j))),
    decreases ws.len(),
{
    let p = ws.drop_last();
    let w = ws.last();
    let a = anchor_of(p);
    let o0 = clip_items_spec(items, p);
    assert(ws[ws.len() - 1] == w);
    lemma_items_window_source(items, w, a, o0, k);
    if k < o0.len() {
        lemma_clip_item_source(items, p, o0, k);
        let (j, i) = choose|j: int, i: int|
            #![trigger p[j], items[i]]
            0 <= j < p.len() && 0 <= i < items.len() && cue_clipped_as(o0[k], items[i], p[j], anchor_of(p.take(j)));
        assert(ws[j] == p[j]);
        assert(ws.take(j) =~= p.take(j));
    } else {
        let i = choose|i: int| #![trigger items[i]] 0 <= i < items.len() && cue_clipped_as(out[k], items[i], w, a);
        assert(ws.take(ws.len() - 1) =~= p);
    }
}

proof fn lemma_items_window_fits_prefix(
    items: Seq<(int, SrtTime, SrtTime, Seq<char>)>,
    w: ClipWindow,
    anchor: int,
    k: int,
)
    requires
        0 <= k <= items.len(),
        items_window_fits(items, w, anchor),
    ensures
        items_window_fits(items.take(k), w, anchor),
    decreases items.len(),
{
    if k < items.len() {
        assert(items.drop_last().take(k) =~= items.take(k));
        lemma_items_window_fits_prefix(items.drop_last(), w, anchor, k);
    } else {
        assert(items.take(k) =~= items);
    }
}

proof fn lemma_clip_items_fit_prefix(items: Seq<(int, SrtTime, SrtTime, Seq<char>)>, ws: Seq<ClipWindow>, k: int)
    requires
        0 <= k <= ws.len(),
        clip_items_fit(items, ws),
    ensures
        clip_items_fit(items, ws.take(k)),
    decreases ws.len(),
{
    if k < ws.len() {
        assert(ws.drop_last().take(k) =~= ws.take(k));
        lemma_clip_items_fit_prefix(items, ws.drop_last(), k);
    } else {
        assert(ws.take(k) =~= ws);
    }
}

/// Whether `x` lies in the range of `i64`.
fn wide_fits(x: i128) -> (b: bool)
    ensures
        b == fits_i64(x as int),
{
    -0x8000_0000_0000_0000i128 <= x && x <= 0x7fff_ffff_ffff_ffffi128
}

/// The subtitle cues of a clip made of the ranges `windows`, or `None`
/// where clipping them would overflow (see [`clip_items_fit`]).
pub fn clip_subtitle_items_checked(items: &[SubtitleItem], windows: &[ClipWindow]) -> (r: Option<Vec<SubtitleItem>>)
    requires
        items.len() * windows.len() < usize::MAX,
    ensures
        r is Some <==> clip_items_fit(items_view(items@), windows@),
        r matches Some(v) ==> items_view(v@) == clip_items_spec(items_view(items@), windows@),
{
    let ghost iv = items_view(items@);
    let mut r: Vec<SubtitleItem> = Vec::new();
    let mut anchor: i64 = 0;
    let mut w: usize = 0;
    while w < windows.len()
        invariant
            w <= windows.len(),
            iv == items_view(items@),
            items.len() * windows.len() < usize::MAX,
            anchor == anchor_of(windows@.take(w as int)),
            clip_items_fit(iv, windows@.take(w as int)),
            items_view(r@) == clip_items_spec(iv, windows@.take(w as int)),
            r@.len() <= w * items.len(),
        decreases windows.len() - w,
    {
        let win = windows[w];
        let ghost pre = windows@.take(w as int);
        let ghost next = windows@.take(w + 1);
        assert(next.drop_last() =~= pre);
        assert(next.last() == win);
        proof {
            assert(w * items.len() + items.len() <= items.len() * windows.len()) by (nonlinear_arith)
                requires
                    w < windows.len(),
            ;
        }
        let ghost r0 = items_view(r@);
        let mut i: usize = 0;
        while i < items.len()
            invariant
                i <= items.len(),
                iv == items_view(items@),
                anchor == anchor_of(pre),
                next.drop_last() == pre,
                next.last() == win,
                next.len() > 0,
                next == windows@.take(w + 1),
                w < windows.len(),
                r@.len() <= r0.len() + i,
                r0.len() + items.len() < usize::MAX,
                items_view(r@) == clip_items_window(iv.take(i as int), win, anchor as int, r0),
                items_window_fits(iv.take(i as int), win, anchor as int),
            decreases items.len() - i,
        {
            assert(iv.take(i + 1).drop_last() =~= iv.take(i as int));
            assert(iv.take(i + 1).last() == item_view(items@[i as int]));
            assert(iv[i as int] == item_view(items@[i as int]));
            let x = &items[i];
            if total_ms_wide(&x.start_time) > 0xffff_ffff_ffff_ffffu128 || total_ms_wide(&x.end_time)
                > 0xffff_ffff_ffff_ffffu128 {
                proof {
                    if items_window_fits(iv, win, anchor as int) {
                        lemma_items_window_fits_prefix(iv, win, anchor as int, i + 1);
                    }
                    if clip_items_fit(iv, windows@) {
                        lemma_clip_items_fit_prefix(iv, windows@, w + 1);
                    }
                }
                return None;
            }
            let s = srt_time_to_ms(&x.start_time);
            let e = srt_time_to_ms(&x.end_time);
            let cs = if s >= win.start_ms {
                s
            } else {
                win.start_ms
            };
            let ce = if e <= win.end_ms {
                e
            } else {
                win.end_ms
            };
            if ce > cs {
                let a = cs as i128 - win.start_ms as i128;
                let b = ce as i128 - win.start_ms as i128;
                if !wide_fits(a) || !wide_fits(a + anchor as i128) || !wide_fits(b) || !wide_fits(
                    b + anchor as i128,
                ) {
                    proof {
                        if items_window_fits(iv, win, anchor as int) {
                            lemma_items_window_fits_prefix(iv, win, anchor as int, i + 1);
                        }
                        if clip_items_fit(iv, windows@) {
                            lemma_clip_items_fit_prefix(iv, windows@, w + 1);
                        }
                    }
                    return None;
                }
                let ghost before = items_view(r@);
                let pos = r.len() + 1;
                r.push(
                    SubtitleItem {
                        pos,
                        start_time: ms_to_srt_time(cs - win.start_ms + anchor),
                        end_time: ms_to_srt_time(ce - win.start_ms + anchor),
                        text: x.text.clone(),
                    },
                );
                assert(items_view(r@) =~= before.push(item_view(r@.last())));
            }
            i = i + 1;
        }
        assert(iv.take(items.len() as int) =~= iv);
        assert((w + 1) * items.len() == w * items.len() + items.len()) by (nonlinear_arith);
        if !wide_fits(anchor as i128 + win.duration_ms as i128) {
            proof {
                if clip_items_fit(iv, windows@) {
                    lemma_clip_items_fit_prefix(iv, windows@, w + 1);
                }
            }
            return None;
        }
        anchor = anchor + win.duration_ms;
        w = w + 1;
    }
    assert(windows@.take(windows.len() as int) =~= windows@);
    Some(r)
}

/// The subtitle cues of a clip made of the ranges `windows`.
pub fn clip_subtitle_items(items: &[SubtitleItem], windows: &[ClipWindow]) -> (r: Vec<SubtitleItem>)
    requires
        clip_items_fit(items_view(items@), windows@),
        items.len() * windows.len() < usize::MAX,
    ensures
        items_view(r@) == clip_items_spec(items_view(items@), windows@),
{
    match clip_subtitle_items_checked(items, windows) {
        Some(v) => v,
        None => Vec::new(),
    }
}

/// How the ranges of a clip are cut: one file for all of them when they are
/// merged or there is only one, else one file per range.
pub fn clip_group_count(range_count: usize, merge_ranges: bool) -> (r: usize)
    requires
        range_count > 0,
    ensures
        r == (if merge_ranges || range_count == 1 {
            1
        } else {
            range_count as int
        }),
{
    if merge_ranges || range_count == 1 {
        1
    } else {
        range_count
    }
}

/// What tells the files of one clip apart: nothing when there is one file,
/// else `-` and its number from 1 with at least two digits.
pub fn clip_ordinal_suffix(group_count: usize, index: usize) -> (r: String)
    requires
        index < group_count,
    ensures
        r@ == (if group_count == 1 {
            Seq::<char>::empty()
        } else {
            seq!['-'] + zero_pad(nat_digits((index + 1) as nat), 2)
        }),
{
    if group_count == 1 {
        return String::new();
    }
    let mut v: Vec<char> = Vec::new();
    v.push('-');
    extend_chars(&mut v, &u64_zero_padded((index + 1) as u64, 2));
    string_from_chars(&v)
}

/// The title of a clip's file: the clip's title, followed by its number
/// when the clip makes several files.
pub fn clip_row_title(clip_title: &str, group_count: usize, index: usize) -> (r: String)
    requires
        index < group_count,
    ensures
        r@ == (if group_count == 1 {
            clip_title@
        } else {
            clip_title@ + seq![' '] + nat_digits((index + 1) as nat)
        }),
{
    if group_count == 1 {
        return clip_title.to_owned();
    }
    let mut v = chars_of(clip_title);
    v.push(' ');
    crate::decimal::push_u64_digits(&mut v, (index + 1) as u64);
    string_from_chars(&v)
}

/// What becomes of a clip: whether subtitles and danmaku are burnt in, the
/// prefix of the final file, and whether it goes to the directory of
/// encoded media.
pub struct ClipMediaPlan {
    pub burn_subtitle: bool,
    pub burn_danmu: bool,
    pub final_prefix: &'static str,
    pub in_encoded_dir: bool,
    /// When both are burnt in, the subtitles go first into their own file
    /// with the subtitle prefix.
    pub separate_subtitle_file: bool,
}

/// Plans a clip: subtitles are burnt in when asked for and the clip has
/// some; danmaku when the clip has some.
pub fn plan_clip_media(include_subtitle: bool, subtitle_available: bool, has_clipped_danmu: bool) -> (r: ClipMediaPlan)
    ensures
        r.burn_subtitle == (include_subtitle && subtitle_available),
        r.burn_danmu == has_clipped_danmu,
        r.in_encoded_dir == (r.burn_subtitle || r.burn_danmu),
        r.separate_subtitle_file == (r.burn_subtitle && r.burn_danmu),
        r.final_prefix@ == (if r.burn_subtitle && r.burn_danmu {
            "[subtitle-danmaku]"@
        } else if r.burn_subtitle {
            crate::media::PREFIX_SUBTITLE@
        } else if r.burn_danmu {
            crate::media::PREFIX_DANMAKU@
        } else {
            "[none]"@
        }),
{
    let burn_subtitle = include_subtitle && subtitle_available;
    ClipMediaPlan {
        burn_subtitle,
        burn_danmu: has_clipped_danmu,
        final_prefix: crate::media::clip_media_prefix(burn_subtitle, has_clipped_danmu),
        in_encoded_dir: burn_subtitle || has_clipped_danmu,
        separate_subtitle_file: burn_subtitle && has_clipped_danmu,
    }
}

/// The directories of a recording's clips under the output root:
/// `outputs/<name>/clip` for plain clips and `outputs/<name>/压制` for those
/// with something burnt in.
pub fn clip_output_dirs(output_root: &str, video_stem: &str) -> (r: (String, String))
    ensures
        r.0@ == join_spec(join_spec(join_spec(output_root@, "outputs"@), video_stem@), "clip"@),
        r.1@ == join_spec(join_spec(join_spec(output_root@, "outputs"@), video_stem@), "压制"@),
{
    let base = path_join(&path_join(&chars_of(output_root), &chars_of("outputs")), &chars_of(video_stem));
    (
        string_from_chars(&path_join(&base, &chars_of("clip"))),
        string_from_chars(&path_join(&base, &chars_of("压制"))),
    )
}

/// The suffix of the title of a video made by burning subtitles and/or
/// danmaku into another.
pub fn encoded_title_suffix(include_subtitle: bool, include_danmu: bool) -> (r: &'static str)
    ensures
        r@ == (if include_subtitle && include_danmu {
            " (压制字幕弹幕)"@
        } else if include_subtitle {
            " (压制字幕)"@
        } else if include_danmu {
            " (压制弹幕)"@
        } else {
            ""@
        }),
{
    if include_subtitle && include_danmu {
        " (压制字幕弹幕)"
    } else if include_subtitle {
        " (压制字幕)"
    } else if include_danmu {
        " (压制弹幕)"
    } else {
        ""
    }
}

/// The file a burning step writes: beside `path`, its file name (or
/// `video.mp4` when it has none) behind `prefix`.
pub open spec fn encoded_media_path_spec(path: Seq<char>, prefix: Seq<char>) -> Seq<char> {
    let name = match file_name_spec(path) {
        Some(n) => n,
        None => "video.mp4"@,
    };
    with_file_name_spec(path, prefix + name)
}

/// Where a burning step writes its video.
pub fn encoded_media_path(path: &str, prefix: &str) -> (r: String)
    ensures
        r@ == encoded_media_path_spec(path@, prefix@),
{
    let p = chars_of(path);
    let name = match path_file_name(&p) {
        Some(n) => n,
        None => chars_of("video.mp4"),
    };
    let mut file = chars_of(prefix);
    extend_chars(&mut file, &name);
    string_from_chars(&path_with_file_name(&p, &file))
}

/// Whether a video can be burnt as asked: the subtitle file must exist when
/// subtitles are burnt, and there must be danmaku when danmaku are burnt.
pub fn check_encode_request(
    include_subtitle: bool,
    subtitle_exists: bool,
    include_danmu: bool,
    danmu_count: usize,
) -> (r: Result<(), String>)
    ensures
        match r {
            Ok(()) => (!include_subtitle || subtitle_exists) && (!include_danmu || danmu_count > 0),
            Err(e) => if include_subtitle && !subtitle_exists {
                e@ == "字幕文件不存在"@
            } else {
                include_danmu && danmu_count == 0 && e@ == "弹幕文件不存在或为空"@
            },
        },
{
    if include_subtitle && !subtitle_exists {
        return Err("字幕文件不存在".to_owned());
    }
    if include_danmu && danmu_count == 0 {
        return Err("弹幕文件不存在或为空".to_owned());
    }
    Ok(())
}

/// A cue as plain values: number, start and end (hours, minutes, seconds,
/// milliseconds), text.
pub open spec fn item_plain(x: SubtitleItem) -> (usize, (u64, u64, u64, u64), (u64, u64, u64, u64), Seq<char>) {
    (
        x.pos,
        (x.start_time.hours, x.start_time.minutes, x.start_time.seconds, x.start_time.milliseconds),
        (x.end_time.hours, x.end_time.minutes, x.end_time.seconds, x.end_time.milliseconds),
        x.text@,
    )
}

/// Cues as plain values.
pub open spec fn items_plain(v: Seq<SubtitleItem>) -> Seq<(usize, (u64, u64, u64, u64), (u64, u64, u64, u64), Seq<char>)> {
    v.map_values(|x: SubtitleItem| item_plain(x))
}

/// The value of a cue given as plain values.
pub open spec fn plain_item_view(p: (usize, (u64, u64, u64, u64), (u64, u64, u64, u64), Seq<char>)) -> (
    int,
    SrtTime,
    SrtTime,
    Seq<char>,
) {
    (
        p.0 as int,
        SrtTime { hours: p.1.0, minutes: p.1.1, seconds: p.1.2, milliseconds: p.1.3 },
        SrtTime { hours: p.2.0, minutes: p.2.1, seconds: p.2.2, milliseconds: p.2.3 },
        p.3,
    )
}

/// What `srtparse::from_str` reads from a subtitle text: its cues, or
/// nothing when the text is not a well-formed subtitle file.
pub uninterp spec fn srt_parsed(text: Seq<char>) -> Option<
    Seq<(usize, (u64, u64, u64, u64), (u64, u64, u64, u64), Seq<char>)>,
>;

/// `srtparse::from_str`: the cues of a subtitle text, each copied field by
/// field, or the error it reports, written out.  The cues are those the
/// crate reads (named `srt_parsed`); the error text is not stated.
#[verifier::external_body]
pub(crate) fn parse_srt(text: &str) -> (r: Result<Vec<SubtitleItem>, String>)
    ensures
        match r {
            Ok(v) => srt_parsed(text@) == Some(items_plain(v@)),
            Err(_) => srt_parsed(text@) is None,
        },
{
    let t = |t: srtparse::Time| SrtTime { hours: t.hours, minutes: t.minutes, seconds: t.seconds, milliseconds: t.milliseconds };
    match srtparse::from_str(text) {
        Ok(items) => Ok(items.into_iter().map(|i| SubtitleItem {
            pos: i.pos, start_time: t(i.start_time), end_time: t(i.end_time), text: i.text,
        }).collect()),
        Err(e) => Err(format!("{e}")),
    }
}

/// The cues of a subtitle text, or `Failed to parse subtitle: ` followed by
/// the parser's error.
pub fn parse_subtitle_text(text: &str) -> (r: Result<Vec<SubtitleItem>, String>)
    ensures
        match r {
            Ok(v) => srt_parsed(text@) == Some(items_plain(v@)),
            Err(e) => srt_parsed(text@) is None && e@.len() >= "Failed to parse subtitle: "@.len() && e@.take(
                "Failed to parse subtitle: "@.len() as int,
            ) == "Failed to parse subtitle: "@,
        },
{
    match parse_srt(text) {
        Ok(v) => Ok(v),
        Err(e) => {
            let mut m = chars_of("Failed to parse subtitle: ");
            let ghost pre = m@;
            extend_chars(&mut m, &chars_of(e.as_str()));
            assert(m@.take(pre.len() as int) =~= pre);
            Err(string_from_chars(&m))
        },
    }
}

/// A subtitle time as written in an SRT file: `HH:MM:SS,mmm`, each part
/// padded with zeros.
pub open spec fn srt_clock(t: SrtTime) -> Seq<char> {
    zero_pad(nat_digits(t.hours as nat), 2) + ":"@ + zero_pad(nat_digits(t.minutes as nat), 2) + ":"@
        + zero_pad(nat_digits(t.seconds as nat), 2) + ","@ + zero_pad(nat_digits(t.milliseconds as nat), 3)
}

/// One cue as written in an SRT file: number, times, text, blank line.
pub open spec fn srt_item_text(x: (int, SrtTime, SrtTime, Seq<char>)) -> Seq<char> {
    nat_digits(x.0 as nat) + "\n"@ + srt_clock(x.1) + " --> "@ + srt_clock(x.2) + "\n"@ + x.3 + "\n\n"@
}

/// The SRT text of a list of cues: each cue written out, in order.
pub open spec fn srt_text(items: Seq<(int, SrtTime, SrtTime, Seq<char>)>) -> Seq<char>
    decreases items.len(),
{
    if items.len() == 0 {
        seq![]
    } else {
        srt_text(items.drop_last()) + srt_item_text(items.last())
    }
}

fn push_srt_clock(out: &mut Vec<char>, t: &SrtTime)
    ensures
        final(out)@ == old(out)@ + srt_clock(*t),
{
    extend_chars(out, &u64_zero_padded(t.hours, 2));
    extend_chars(out, &chars_of(":"));
    extend_chars(out, &u64_zero_padded(t.minutes, 2));
    extend_chars(out, &chars_of(":"));
    extend_chars(out, &u64_zero_padded(t.seconds, 2));
    extend_chars(out, &chars_of(","));
    extend_chars(out, &u64_zero_padded(t.milliseconds, 3));
}

/// Writes cues as an SRT text.
pub fn items_to_srt(items: &[SubtitleItem]) -> (r: String)
    ensures
        r@ == srt_text(items_view(items@)),
{
    let ghost iv = items_view(items@);
    let mut out: Vec<char> = Vec::new();
    let mut i: usize = 0;
    while i < items.len()
        invariant
            i <= items.len(),
            iv == items_view(items@),
            out@ == srt_text(iv.take(i as int)),
        decreases items.len() - i,
    {
        assert(iv.take(i + 1).drop_last() =~= iv.take(i as int));
        assert(iv.take(i + 1).last() == item_view(items@[i as int]));
        let x = &items[i];
        push_u64_digits(&mut out, x.pos as u64);
        extend_chars(&mut out, &chars_of("\n"));
        push_srt_clock(&mut out, &x.start_time);
        extend_chars(&mut out, &chars_of(" --> "));
        push_srt_clock(&mut out, &x.end_time);
        extend_chars(&mut out, &chars_of("\n"));
        extend_chars(&mut out, &chars_of(x.text.as_str()));
        extend_chars(&mut out, &chars_of("\n\n"));
        assert(out@ =~= srt_text(iv.take(i + 1)));
        i = i + 1;
    }
    assert(iv.take(items.len() as int) =~= iv);
    string_from_chars(&out)
}

fn total_ms_wide(t: &SrtTime) -> (r: u128)
    ensures
        r == srt_total_ms(*t),
{
    let h = t.hours as u128;
    let m = t.minutes as u128;
    let s = t.seconds as u128;
    let ms = t.milliseconds as u128;
    assert((h * 3600 + m * 60 + s) * 1000 + ms <= 0xffff_ffff_ffff_ffff * 3661 * 1000 + 0xffff_ffff_ffff_ffff)
        by (nonlinear_arith)
        requires
            h <= 0xffff_ffff_ffff_ffff,
            m <= 0xffff_ffff_ffff_ffff,
            s <= 0xffff_ffff_ffff_ffff,
            ms <= 0xffff_ffff_ffff_ffff,
    ;
    (h * 3600 + m * 60 + s) * 1000 + ms
}

/// What the subtitle sidecar of a clip becomes: `Ok(None)` when there is
/// none to write, `Ok(Some(text))` with the SRT text of the clipped cues,
/// or the error of a subtitle text that cannot be read.
pub open spec fn sidecar_cues(p: Seq<(usize, (u64, u64, u64, u64), (u64, u64, u64, u64), Seq<char>)>) -> Seq<
    (int, SrtTime, SrtTime, Seq<char>),
> {
    p.map_values(|x: (usize, (u64, u64, u64, u64), (u64, u64, u64, u64), Seq<char>)| plain_item_view(x))
}

/// The prefix of the error for a subtitle text that cannot be parsed.
pub open spec fn sidecar_parse_error_prefix() -> Seq<char> {
    "解析原字幕失败: "@
}

/// The subtitle sidecar of a clip made of `windows` from the subtitle text
/// `content`: a blank text gives `Ok(None)`; a text that is not a subtitle
/// file gives an error that starts with `解析原字幕失败: `; cues whose
/// clipping would overflow (see [`clip_items_fit`]), or more cues and ranges
/// together than a machine can count, give the error `字幕超出可处理范围`;
/// otherwise the cues are clipped, and `Ok(None)` comes when none is left,
/// else `Ok(Some(text))` with their SRT text.
pub fn clip_subtitle_sidecar(content: &str, windows: &[ClipWindow]) -> (r: Result<Option<String>, String>)
    ensures
        trim(content@).len() == 0 ==> r matches Ok(None),
        trim(content@).len() > 0 ==> match srt_parsed(content@) {
            None => r matches Err(e) && e@.len() >= sidecar_parse_error_prefix().len() && e@.take(
                sidecar_parse_error_prefix().len() as int,
            ) == sidecar_parse_error_prefix(),
            Some(p) => if p.len() * windows.len() >= usize::MAX || !clip_items_fit(sidecar_cues(p), windows@) {
                r matches Err(e) && e@ == "字幕超出可处理范围"@
            } else if clip_items_spec(sidecar_cues(p), windows@).len() == 0 {
                r matches Ok(None)
            } else {
                r matches Ok(Some(s)) && s@ == srt_text(clip_items_spec(sidecar_cues(p), windows@))
            },
        },
{
    if is_blank(&chars_of(content)) {
        return Ok(None);
    }
    let items = match parse_srt(content) {
        Ok(v) => v,
        Err(e) => {
            let mut m = chars_of("解析原字幕失败: ");
            let ghost pre = m@;
            extend_chars(&mut m, &chars_of(e.as_str()));
            assert(m@.take(pre.len() as int) =~= pre);
            return Err(string_from_chars(&m));
        },
    };
    proof {
        assert(items_view(items@) =~= sidecar_cues(items_plain(items@)));
    }
    let fits = match items.len().checked_mul(windows.len()) {
        Some(n) => n < usize::MAX,
        None => false,
    };
    if !fits {
        return Err("字幕超出可处理范围".to_owned());
    }
    let clipped = match clip_subtitle_items_checked(&items, windows) {
        Some(c) => c,
        None => return Err("字幕超出可处理范围".to_owned()),
    };
    if clipped.len() == 0 {
        return Ok(None);
    }
    Ok(Some(items_to_srt(&clipped)))
}

/// Burning needs something to burn: subtitles, danmaku or both.
pub fn check_encode_selection(include_subtitle: bool, include_danmu: bool) -> (r: Result<(), String>)
    ensures
        match r {
            Ok(()) => include_subtitle || include_danmu,
            Err(e) => !include_subtitle && !include_danmu && e@ == "请至少选择字幕或弹幕"@,
        },
{
    if !include_subtitle && !include_danmu {
        return Err("请至少选择字幕或弹幕".to_owned());
    }
    Ok(())
}

} // verus!
