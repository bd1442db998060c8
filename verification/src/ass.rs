//! The text side of rendering danmaku as ASS subtitles: splitting a danmaku
//! into text and emote images, escaping text for ASS, the font name, and
//! where text is anchored beside an emote.
use vstd::prelude::*;

use crate::filetrans::{eq_ascii_ci, eq_ascii_ci_exec};
use crate::paths::{extension_spec, file_stem_spec, path_extension, path_file_stem};
use crate::text::{
    chars_of, extend_chars, find, find_from_exec, is_blank, lemma_find_from, lemma_find_skip, slice_chars,
    str_eq, string_from_chars, strip_trailing, strip_trailing_chars, trim, trim_chars,
};

verus! {

/// The emote token and image of a file in the emote directory: `[stem]`
/// for a PNG file (its extension compared without case), none for any other
/// file.
pub open spec fn emote_entry_spec(path: Seq<char>) -> Option<(Seq<char>, Seq<char>)> {
    match (extension_spec(path), file_stem_spec(path)) {
        (Some(ext), Some(stem)) => if eq_ascii_ci(ext, "png"@) {
            Some(("["@ + stem + "]"@, path))
        } else {
            None
        },
        _ => None,
    }
}

/// The emote table entry of a file in the emote directory, if it is one.
pub fn emote_table_entry(path: &str) -> (r: Option<(String, String)>)
    ensures
        r matches Some(x) ==> emote_entry_spec(path@) == Some((x.0@, x.1@)),
        r is None ==> emote_entry_spec(path@) is None,
{
    let p = chars_of(path);
    match (path_extension(&p), path_file_stem(&p)) {
        (Some(ext), Some(stem)) => {
            if eq_ascii_ci_exec(&ext, "png") {
                let mut token = chars_of("[");
                extend_chars(&mut token, &stem);
                extend_chars(&mut token, &chars_of("]"));
                Some((string_from_chars(&token), path.to_owned()))
            } else {
                None
            }
        },
        _ => None,
    }
}

/// A piece of a danmaku as it is drawn: text, or an emote image.
#[derive(Debug)]
pub enum DanmuRenderSegment {
    Text(String),
    Emote { image_path: String },
}

/// The value of a piece: `Text` with its text, or `Emote` with its image.
pub enum SegmentView {
    Text(Seq<char>),
    Emote(Seq<char>),
}

impl View for DanmuRenderSegment {
    type V = SegmentView;

    open spec fn view(&self) -> SegmentView {
        match self {
            DanmuRenderSegment::Text(t) => SegmentView::Text(t@),
            DanmuRenderSegment::Emote { image_path } => SegmentView::Emote(image_path@),
        }
    }
}

/// The values of a list of pieces.
pub open spec fn segments_view(s: Seq<DanmuRenderSegment>) -> Seq<SegmentView> {
    s.map_values(|x: DanmuRenderSegment| x@)
}

/// The values of an emote table: each token (such as `[doge]`) with its
/// image file.
pub open spec fn table_view(t: Seq<(String, String)>) -> Seq<(Seq<char>, Seq<char>)> {
    t.map_values(|x: (String, String)| (x.0@, x.1@))
}

/// The image of the first entry of the table for `token`, if any.
pub open spec fn emote_lookup(table: Seq<(Seq<char>, Seq<char>)>, token: Seq<char>) -> Option<Seq<char>>
    decreases table.len(),
{
    if table.len() == 0 {
        None
    } else if table[0].0 == token {
        Some(table[0].1)
    } else {
        emote_lookup(table.drop_first(), token)
    }
}

/// A bracketed token drawn as its emote when the table has one, else as
/// text.
pub open spec fn token_segment(table: Seq<(Seq<char>, Seq<char>)>, token: Seq<char>) -> SegmentView {
    match emote_lookup(table, token) {
        Some(p) => SegmentView::Emote(p),
        None => SegmentView::Text(token),
    }
}

/// The pieces of a danmaku: the text before each `[`, then the token up to
/// the next `]` (an emote when the table knows it); a `[` without a `]`
/// after it starts a last piece of text.  No piece of text is empty.
pub open spec fn render_segments_spec(s: Seq<char>, table: Seq<(Seq<char>, Seq<char>)>) -> Seq<SegmentView>
    decreases s.len(),
{
    match find(s, seq!['[']) {
        None => if s.len() > 0 {
            seq![SegmentView::Text(s)]
        } else {
            seq![]
        },
        Some(i) => {
            proof {
                lemma_find_from(s, seq!['['], 0);
            }
            let pre = if i > 0 {
                seq![SegmentView::Text(s.take(i))]
            } else {
                seq![]
            };
            let rest = s.skip(i);
            match find(rest, seq![']']) {
                None => pre.push(SegmentView::Text(rest)),
                Some(j) => {
                    proof {
                        lemma_find_from(rest, seq![']'], 0);
                    }
                    pre.push(token_segment(table, rest.take(j + 1))) + render_segments_spec(
                        rest.skip(j + 1),
                        table,
                    )
                },
            }
        },
    }
}

fn lookup_emote(table: &Vec<(String, String)>, token: &[char]) -> (r: Option<String>)
    ensures
        match r {
            Some(p) => emote_lookup(table_view(table@), token@) == Some(p@),
            None => emote_lookup(table_view(table@), token@) is None,
        },
{
    let ghost tv = table_view(table@);
    let mut i: usize = 0;
    assert(tv.skip(0) =~= tv);
    while i < table.len()
        invariant
            i <= table.len(),
            tv == table_view(table@),
            emote_lookup(tv, token@) == emote_lookup(tv.skip(i as int), token@),
        decreases table.len() - i,
    {
        assert(tv.skip(i as int)[0] == (table@[i as int].0@, table@[i as int].1@));
        assert(tv.skip(i as int).drop_first() =~= tv.skip(i + 1));
        if crate::text::chars_eq(&chars_of(table[i].0.as_str()), token) {
            return Some(table[i].1.clone());
        }
        i = i + 1;
    }
    None
}

/// Splits a danmaku into its pieces, with emote tokens looked up in the
/// table.
pub fn parse_danmu_render_segments(content: &str, emote_files: &Vec<(String, String)>) -> (r: Vec<DanmuRenderSegment>)
    ensures
        segments_view(r@) == render_segments_spec(content@, table_view(emote_files@)),
{
    let ghost tv = table_view(emote_files@);
    let v = chars_of(content);
    let open: Vec<char> = vec!['['];
    let close: Vec<char> = vec![']'];
    let mut out: Vec<DanmuRenderSegment> = Vec::new();
    let mut cursor: usize = 0;
    assert(v@.skip(0) =~= v@);
    while cursor < v.len()
        invariant
            cursor <= v.len(),
            v@ == content@,
            tv == table_view(emote_files@),
            open@ == seq!['['],
            close@ == seq![']'],
            render_segments_spec(v@, tv) == segments_view(out@) + render_segments_spec(
                v@.skip(cursor as int),
                tv,
            ),
        decreases v.len() - cursor,
    {
        let ghost rest = v@.skip(cursor as int);
        let ghost out0 = segments_view(out@);
        proof {
            lemma_find_skip(v@, open@, cursor as int);
            lemma_find_from(v@, open@, cursor as int);
        }
        match find_from_exec(&v, &open, cursor) {
            None => {
                let t = slice_chars(&v, cursor, v.len());
                assert(t@ =~= rest);
                out.push(DanmuRenderSegment::Text(string_from_chars(&t)));
                assert(segments_view(out@) =~= out0.push(SegmentView::Text(rest)));
                assert(v@.skip(v.len() as int) =~= Seq::<char>::empty());
                cursor = v.len();
            },
            Some(start) => {
                let ghost i = start - cursor;
                assert(find(rest, seq!['[']) == Some(i));
                let ghost pre = if i > 0 {
                    seq![SegmentView::Text(rest.take(i))]
                } else {
                    seq![]
                };
                if start > cursor {
                    let t = slice_chars(&v, cursor, start);
                    assert(t@ =~= rest.take(i));
                    out.push(DanmuRenderSegment::Text(string_from_chars(&t)));
                }
                assert(segments_view(out@) =~= out0 + pre);
                assert(rest.skip(i) =~= v@.skip(start as int));
                proof {
                    lemma_find_skip(v@, close@, start as int);
                    lemma_find_from(v@, close@, start as int);
                }
                let ghost rest2 = v@.skip(start as int);
                match find_from_exec(&v, &close, start) {
                    None => {
                        let t = slice_chars(&v, start, v.len());
                        assert(t@ =~= rest2);
                        let ghost o1 = segments_view(out@);
                        out.push(DanmuRenderSegment::Text(string_from_chars(&t)));
                        assert(segments_view(out@) =~= o1.push(SegmentView::Text(rest2)));
                        assert(v@.skip(v.len() as int) =~= Seq::<char>::empty());
                        assert(segments_view(out@) + render_segments_spec(
                            v@.skip(v.len() as int),
                            tv,
                        ) =~= out0 + (pre.push(SegmentView::Text(rest2))));
                        cursor = v.len();
                    },
                    Some(k) => {
                        let ghost j = k - start;
                        assert(find(rest2, seq![']']) == Some(j));
                        let tok = slice_chars(&v, start, k + 1);
                        assert(tok@ =~= rest2.take(j + 1));
                        let ghost o1 = segments_view(out@);
                        match lookup_emote(emote_files, &tok) {
                            Some(p) => {
                                out.push(DanmuRenderSegment::Emote { image_path: p });
                            },
                            None => {
                                out.push(DanmuRenderSegment::Text(string_from_chars(&tok)));
                            },
                        }
                        assert(segments_view(out@) =~= o1.push(token_segment(tv, rest2.take(j + 1))));
                        assert(rest2.skip(j + 1) =~= v@.skip(k + 1));
                        assert(segments_view(out@) + render_segments_spec(v@.skip(k + 1), tv)
                            =~= out0 + (pre.push(token_segment(tv, rest2.take(j + 1)))
                            + render_segments_spec(rest2.skip(j + 1), tv)));
                        cursor = k + 1;
                    },
                }
            },
        }
    }
    assert(v@.skip(v.len() as int) =~= Seq::<char>::empty());
    assert(render_segments_spec(Seq::<char>::empty(), tv) =~= Seq::<SegmentView>::empty());
    assert(segments_view(out@) + Seq::<SegmentView>::empty() =~= segments_view(out@));
    out
}

/// The texts of the pieces, joined, with emotes drawn as nothing.
pub open spec fn joined_text(s: Seq<SegmentView>) -> Seq<char>
    decreases s.len(),
{
    if s.len() == 0 {
        seq![]
    } else {
        joined_text(s.drop_last()) + match s.last() {
            SegmentView::Text(t) => t,
            SegmentView::Emote(_) => seq![],
        }
    }
}

/// The text of two runs of pieces is the text of the first followed by that
/// of the second.
pub proof fn lemma_joined_text_add(a: Seq<SegmentView>, b: Seq<SegmentView>)
    ensures
        joined_text(a + b) == joined_text(a) + joined_text(b),
    decreases b.len(),
{
    if b.len() == 0 {
        assert(a + b =~= a);
    } else {
        lemma_joined_text_add(a, b.drop_last());
        assert((a + b).drop_last() =~= a + b.drop_last());
    }
}

/// A piece of text that is not empty.
pub open spec fn nonempty_text(x: SegmentView) -> bool {
    x matches SegmentView::Text(t) && t.len() > 0
}

/// With no emote known, splitting a danmaku loses nothing: its pieces,
/// joined, give it back, and none of them is empty.
pub proof fn lemma_segments_rejoin(s: Seq<char>)
    ensures
        joined_text(render_segments_spec(s, seq![])) == s,
        forall|k: int|
            0 <= k < render_segments_spec(s, seq![]).len() ==> nonempty_text(
                #[trigger] render_segments_spec(s, seq![])[k],
            ),
    decreases s.len(),
{
    let table = Seq::<(Seq<char>, Seq<char>)>::empty();
    let r = render_segments_spec(s, table);
    lemma_find_from(s, seq!['['], 0);
    match find(s, seq!['[']) {
        None => {
            if s.len() > 0 {
                assert(r.drop_last() =~= Seq::<SegmentView>::empty());
                assert(joined_text(r) =~= joined_text(Seq::<SegmentView>::empty()) + s);
            }
        },
        Some(i) => {
            let pre = if i > 0 {
                seq![SegmentView::Text(s.take(i))]
            } else {
                seq![]
            };
            let rest = s.skip(i);
            assert(rest[0] == '[') by {
                assert(s.subrange(i, i + 1) =~= seq!['[']);
            }
            assert(joined_text(pre) =~= s.take(i)) by {
                if i > 0 {
                    assert(pre.drop_last() =~= Seq::<SegmentView>::empty());
                    assert(joined_text(pre) =~= joined_text(Seq::<SegmentView>::empty()) + s.take(i));
                }
            }
            lemma_find_from(rest, seq![']'], 0);
            match find(rest, seq![']']) {
                None => {
                    assert(rest.len() > 0);
                    assert(pre.push(SegmentView::Text(rest)).drop_last() =~= pre);
                    assert(joined_text(pre.push(SegmentView::Text(rest))) =~= joined_text(pre) + rest);
                    assert(s =~= s.take(i) + rest);
                },
                Some(j) => {
                    let tok = rest.take(j + 1);
                    let tail = rest.skip(j + 1);
                    lemma_segments_rejoin(tail);
                    let head = pre.push(SegmentView::Text(tok));
                    assert(head.drop_last() =~= pre);
                    assert(joined_text(head) =~= joined_text(pre) + tok);
                    lemma_joined_text_add(head, render_segments_spec(tail, table));
                    assert(s =~= s.take(i) + tok + tail);
                    assert forall|k: int| 0 <= k < r.len() implies nonempty_text(#[trigger] r[k]) by {
                        if k >= head.len() {
                            assert(r[k] == render_segments_spec(tail, table)[k - head.len()]);
                        }
                    }
                },
            }
        },
    }
}

/// The characters used for CJK text and full-width forms, which are drawn
/// wider.
pub open spec fn is_cjk_or_fullwidth_spec(ch: char) -> bool {
    let x = ch as u32;
    (0x1100 <= x <= 0x11ff) || (0x2e80 <= x <= 0x9fff) || (0xf900 <= x <= 0xfaff) || (0xff00 <= x
        <= 0xffef)
}

/// Whether a character is CJK or full-width.
pub fn is_cjk_or_fullwidth(ch: char) -> (b: bool)
    ensures
        b == is_cjk_or_fullwidth_spec(ch),
{
    let x = ch as u32;
    (0x1100 <= x && x <= 0x11ff) || (0x2e80 <= x && x <= 0x9fff) || (0xf900 <= x && x <= 0xfaff)
        || (0xff00 <= x && x <= 0xffef)
}

/// One character of danmaku text as ASS needs it: a backslash doubled,
/// braces made full-width, carriage returns dropped, newlines made `\N`.
pub open spec fn ass_escape_char(c: char) -> Seq<char> {
    if c == '\\' {
        seq!['\\', '\\']
    } else if c == '{' {
        seq!['｛']
    } else if c == '}' {
        seq!['｝']
    } else if c == '\r' {
        seq![]
    } else if c == '\n' {
        seq!['\\', 'N']
    } else {
        seq![c]
    }
}

/// Danmaku text as ASS needs it.
pub open spec fn escape_text_spec(s: Seq<char>) -> Seq<char>
    decreases s.len(),
{
    if s.len() == 0 {
        seq![]
    } else {
        escape_text_spec(s.drop_last()) + ass_escape_char(s.last())
    }
}

/// Escapes danmaku text for ASS.
pub fn escape_text(text: &str) -> (r: String)
    ensures
        r@ == escape_text_spec(text@),
{
    let v = chars_of(text);
    let mut out: Vec<char> = Vec::new();
    let mut i: usize = 0;
    while i < v.len()
        invariant
            i <= v.len(),
            out@ == escape_text_spec(v@.take(i as int)),
        decreases v.len() - i,
    {
        let c = v[i];
        if c == '\\' {
            out.push('\\');
            out.push('\\');
        } else if c == '{' {
            out.push('｛');
        } else if c == '}' {
            out.push('｝');
        } else if c == '\r' {
        } else if c == '\n' {
            out.push('\\');
            out.push('N');
        } else {
            out.push(c);
        }
        assert(v@.take(i + 1).drop_last() =~= v@.take(i as int));
        assert(out@ =~= escape_text_spec(v@.take(i as int)) + ass_escape_char(c));
        i = i + 1;
    }
    assert(v@.take(v.len() as int) =~= v@);
    string_from_chars(&out)
}

/// `s.trim_start_matches(c)`: every leading `c` removed.
pub open spec fn strip_leading(s: Seq<char>, c: char) -> Seq<char>
    decreases s.len(),
{
    if s.len() > 0 && s[0] == c {
        strip_leading(s.drop_first(), c)
    } else {
        s
    }
}

/// `s.trim_matches(c)`.
pub open spec fn strip_both(s: Seq<char>, c: char) -> Seq<char> {
    strip_trailing(strip_leading(s, c), c)
}

fn strip_leading_chars(v: &[char], c: char) -> (r: Vec<char>)
    ensures
        r@ == strip_leading(v@, c),
{
    let mut k: usize = 0;
    assert(v@.skip(0) =~= v@);
    while k < v.len() && v[k] == c
        invariant
            k <= v.len(),
            strip_leading(v@, c) == strip_leading(v@.skip(k as int), c),
        decreases v.len() - k,
    {
        assert(v@.skip(k as int).drop_first() =~= v@.skip(k + 1));
        k = k + 1;
    }
    let r = slice_chars(v, k, v.len());
    assert(r@ =~= v@.skip(k as int));
    r
}

fn strip_both_chars(v: &[char], c: char) -> (r: Vec<char>)
    ensures
        r@ == strip_both(v@, c),
{
    strip_trailing_chars(&strip_leading_chars(v, c), c)
}

/// A font of a CSS-style font list as ASS names it: trimmed, without the
/// quotes around it.
pub open spec fn clean_font(part: Seq<char>) -> Seq<char> {
    trim(strip_both(strip_both(trim(part), '"'), '\''))
}

/// The first font of a comma-separated list whose name is not empty.
pub open spec fn first_font(s: Seq<char>) -> Option<Seq<char>>
    decreases s.len(),
{
    match find(s, seq![',']) {
        None => if clean_font(s).len() > 0 {
            Some(clean_font(s))
        } else {
            None
        },
        Some(i) => {
            proof {
                lemma_find_from(s, seq![','], 0);
            }
            if clean_font(s.take(i)).len() > 0 {
                Some(clean_font(s.take(i)))
            } else {
                first_font(s.skip(i + 1))
            }
        },
    }
}

/// The font ASS is told to use: the first named font of the list, else
/// `SimHei`.
pub open spec fn ass_font_name_spec(font_family: Seq<char>) -> Seq<char> {
    match first_font(font_family) {
        Some(f) => f,
        None => "SimHei"@,
    }
}

fn clean_font_chars(part: &[char]) -> (r: Vec<char>)
    ensures
        r@ == clean_font(part@),
{
    trim_chars(&strip_both_chars(&strip_both_chars(&trim_chars(part), '"'), '\''))
}

/// The font name for the ASS style.
pub fn ass_font_name(font_family: &str) -> (r: String)
    ensures
        r@ == ass_font_name_spec(font_family@),
{
    let v = chars_of(font_family);
    let comma: Vec<char> = vec![','];
    let mut pos: usize = 0;
    assert(v@.skip(0) =~= v@);
    loop
        invariant
            pos <= v.len(),
            v@ == font_family@,
            comma@ == seq![','],
            first_font(v@) == first_font(v@.skip(pos as int)),
        decreases v.len() - pos,
    {
        let ghost rest = v@.skip(pos as int);
        proof {
            lemma_find_skip(v@, comma@, pos as int);
            lemma_find_from(v@, comma@, pos as int);
        }
        match find_from_exec(&v, &comma, pos) {
            None => {
                assert(find(rest, seq![',']) is None);
                let part = clean_font_chars(&slice_chars(&v, pos, v.len()));
                assert(v@.subrange(pos as int, v.len() as int) =~= rest);
                if part.len() > 0 {
                    return string_from_chars(&part);
                }
                return "SimHei".to_owned();
            },
            Some(k) => {
                assert(find(rest, seq![',']) == Some(k - pos));
                let part = clean_font_chars(&slice_chars(&v, pos, k));
                assert(v@.subrange(pos as int, k as int) =~= rest.take(k - pos));
                if part.len() > 0 {
                    return string_from_chars(&part);
                }
                assert(rest.skip(k - pos + 1) =~= v@.skip(k + 1));
                pos = k + 1;
            },
        }
    }
}

/// The piece is text with something visible in it.
pub open spec fn has_visible_text_spec(segment: Option<SegmentView>) -> bool {
    segment matches Some(SegmentView::Text(t)) && trim(t).len() > 0
}

/// The piece is an emote.
pub open spec fn is_emote_spec(segment: Option<SegmentView>) -> bool {
    segment matches Some(SegmentView::Emote(_))
}

/// The value of an optional piece.
pub open spec fn opt_segment_view(segment: Option<&DanmuRenderSegment>) -> Option<SegmentView> {
    match segment {
        Some(s) => Some(s@),
        None => None,
    }
}

/// Whether a piece is text with something visible in it.
pub fn has_visible_text(segment: Option<&DanmuRenderSegment>) -> (b: bool)
    ensures
        b == has_visible_text_spec(opt_segment_view(segment)),
{
    match segment {
        Some(DanmuRenderSegment::Text(text)) => !is_blank(&chars_of(text.as_str())),
        _ => false,
    }
}

/// Whether a piece is an emote.
pub fn is_emote_segment(segment: Option<&DanmuRenderSegment>) -> (b: bool)
    ensures
        b == is_emote_spec(opt_segment_view(segment)),
{
    match segment {
        Some(DanmuRenderSegment::Emote { image_path: _ }) => true,
        _ => false,
    }
}

/// Where a piece of text is anchored as it scrolls.
#[derive(Clone, Copy, Debug, PartialEq, Eq)]
pub enum TextAnchor {
    Left,
    Center,
    Right,
}

/// The piece at `i`, if there is one.
pub open spec fn segment_at(s: Seq<SegmentView>, i: int) -> Option<SegmentView> {
    if 0 <= i < s.len() {
        Some(s[i])
    } else {
        None
    }
}

/// Text just before an emote is anchored on its right, text just after one
/// on its left, other text in its centre.
pub open spec fn text_anchor_spec(s: Seq<SegmentView>, index: int) -> TextAnchor {
    if is_emote_spec(segment_at(s, index + 1)) {
        TextAnchor::Right
    } else if index >= 1 && is_emote_spec(segment_at(s, index - 1)) {
        TextAnchor::Left
    } else {
        TextAnchor::Center
    }
}

/// The anchor of the piece at `index`.
pub fn text_anchor_for_segment(segments: &[DanmuRenderSegment], index: usize) -> (r: TextAnchor)
    requires
        index < usize::MAX,
    ensures
        r == text_anchor_spec(segments_view(segments@), index as int),
{
    let ghost sv = segments_view(segments@);
    let next = if index + 1 < segments.len() {
        Some(&segments[index + 1])
    } else {
        None
    };
    assert(opt_segment_view(next) == segment_at(sv, index + 1));
    if is_emote_segment(next) {
        return TextAnchor::Right;
    }
    if index >= 1 {
        let prev = if index - 1 < segments.len() {
            Some(&segments[index - 1])
        } else {
            None
        };
        assert(opt_segment_view(prev) == segment_at(sv, index - 1));
        if is_emote_segment(prev) {
            return TextAnchor::Left;
        }
    }
    TextAnchor::Center
}

/// The speed preset used: the setting held within 0 to 4.
pub fn speed_preset_index(speed_preset: i32) -> (r: usize)
    ensures
        r == (if speed_preset < 0 {
            0
        } else if speed_preset > 4 {
            4
        } else {
            speed_preset as int
        }),
{
    if speed_preset < 0 {
        0
    } else if speed_preset > 4 {
        4
    } else {
        speed_preset as usize
    }
}

/// Where text beside emotes is anchored: text with an emote right after it
/// is anchored on its right, whatever comes before it (so text between two
/// emotes is anchored on its right); text with an emote only right before
/// it is anchored on its left; text with no emote next to it, in its
/// centre.  This holds of every anchor that `text_anchor_for_segment` can
/// give.
pub proof fn lemma_text_anchor_beside_emotes(segments: Seq<SegmentView>, index: int, r: TextAnchor)
    requires
        0 <= index,
        r == text_anchor_spec(segments, index),
    ensures
        index + 1 < segments.len() && segments[index + 1] is Emote ==> r == TextAnchor::Right,
        index + 1 < segments.len() && segments[index + 1] is Emote && 1 <= index < segments.len() + 1 && segments[index
            - 1] is Emote ==> r == TextAnchor::Right,
        !(index + 1 < segments.len() && segments[index + 1] is Emote) && 1 <= index <= segments.len() && segments[index
            - 1] is Emote ==> r == TextAnchor::Left,
        !(index + 1 < segments.len() && segments[index + 1] is Emote) && !(1 <= index <= segments.len()
            && segments[index - 1] is Emote) ==> r == TextAnchor::Center,
        r == TextAnchor::Right <==> (index + 1 < segments.len() && segments[index + 1] is Emote),
{
}

/// Escaping danmaku text for ASS, for every result that `escape_text` can
/// give: it works character by character (the escape of two texts joined is
/// their escapes joined), leaves no brace and no carriage return, leaves
/// text without a backslash, brace or line break as it is, and makes a
/// backslash two and a newline `\N`.
pub proof fn lemma_escape_text(a: Seq<char>, b: Seq<char>)
    ensures
        escape_text_spec(a + b) == escape_text_spec(a) + escape_text_spec(b),
        forall|i: int|
            0 <= i < escape_text_spec(a).len() ==> #[trigger] escape_text_spec(a)[i] != '{' && escape_text_spec(a)[i]
                != '}' && escape_text_spec(a)[i] != '\r',
        (forall|i: int|
            0 <= i < a.len() ==> #[trigger] a[i] != '\\' && a[i] != '{' && a[i] != '}' && a[i] != '\r' && a[i]
                != '\n') ==> escape_text_spec(a) == a,
        escape_text_spec(seq!['\\']) == seq!['\\', '\\'],
        escape_text_spec(seq!['\n']) == seq!['\\', 'N'],
    decreases b.len(),
{
    if b.len() > 0 {
        lemma_escape_text(a, b.drop_last());
        assert((a + b).drop_last() =~= a + b.drop_last());
        assert((a + b).last() == b.last());
        assert(escape_text_spec(a) + escape_text_spec(b.drop_last()) + ass_escape_char(b.last()) =~= escape_text_spec(
            a,
        ) + (escape_text_spec(b.drop_last()) + ass_escape_char(b.last())));
    } else {
        assert(a + b =~= a);
        assert(escape_text_spec(a) + escape_text_spec(b) =~= escape_text_spec(a));
    }
    lemma_escape_clean(a);
    reveal_with_fuel(escape_text_spec, 2);
    assert(seq!['\\'].last() == '\\' && seq!['\n'].last() == '\n');
    assert(seq!['\\'].drop_last() =~= Seq::<char>::empty());
    assert(seq!['\n'].drop_last() =~= Seq::<char>::empty());
    assert(Seq::<char>::empty() + seq!['\\', '\\'] =~= seq!['\\', '\\']);
    assert(Seq::<char>::empty() + seq!['\\', 'N'] =~= seq!['\\', 'N']);
}

proof fn lemma_escape_clean(a: Seq<char>)
    ensures
        forall|i: int|
            0 <= i < escape_text_spec(a).len() ==> #[trigger] escape_text_spec(a)[i] != '{' && escape_text_spec(a)[i]
                != '}' && escape_text_spec(a)[i] != '\r',
        (forall|i: int|
            0 <= i < a.len() ==> #[trigger] a[i] != '\\' && a[i] != '{' && a[i] != '}' && a[i] != '\r' && a[i]
                != '\n') ==> escape_text_spec(a) == a,
    decreases a.len(),
{
    if a.len() > 0 {
        let d = a.drop_last();
        lemma_escape_clean(d);
        let x = ass_escape_char(a.last());
        let e = escape_text_spec(a);
        assert(e == escape_text_spec(d) + x);
        assert forall|i: int| 0 <= i < e.len() implies #[trigger] e[i] != '{' && e[i] != '}' && e[i] != '\r' by {
            if i < escape_text_spec(d).len() {
                assert(e[i] == escape_text_spec(d)[i]);
            } else {
                assert(e[i] == x[i - escape_text_spec(d).len()]);
            }
        }
        if forall|i: int|
            0 <= i < a.len() ==> #[trigger] a[i] != '\\' && a[i] != '{' && a[i] != '}' && a[i] != '\r' && a[i]
                != '\n' {
            assert forall|i: int|
                0 <= i < d.len() implies #[trigger] d[i] != '\\' && d[i] != '{' && d[i] != '}' && d[i] != '\r' && d[i]
                != '\n' by {
                assert(d[i] == a[i]);
            }
            assert(a[a.len() - 1] == a.last());
            assert(x =~= seq![a.last()]);
            assert(e =~= a);
        }
    }
}

} // verus!
