//! Media file naming and ffmpeg selection: executable paths, the choice of
//! an ffmpeg build, cache locations, filter-path escaping and clip names.
use vstd::prelude::*;

use crate::decimal::{nat_digits, push_u64_digits, u64_zero_padded, zero_pad};
use crate::paths::{
    extension_spec, file_stem_spec, join_spec, path_extension, parent_spec, path_file_stem, path_join, path_parent, path_with_extension,
    with_extension_spec,
};
use crate::text::{
    chars_of, chars_view, extend_chars, is_ws, is_whitespace, leading_ws, leading_ws_count,
    lines_spec, slice_chars, split_lines, starts_with, str_eq, string_from_chars,
};

verus! {

/// File-name prefix of media with burnt-in subtitles.
pub const PREFIX_SUBTITLE: &'static str = "[subtitle]";

/// File-name prefix of media with burnt-in danmaku.
pub const PREFIX_DANMAKU: &'static str = "[danmaku]";

/// `name` as an executable file name: with the extension `exe` on Windows.
pub open spec fn executable_path_spec(name: Seq<char>, windows: bool) -> Seq<char> {
    if windows {
        with_extension_spec(name, "exe"@)
    } else {
        name
    }
}

/// The path of an executable that is looked up by name.
pub fn executable_path(name: &str, windows: bool) -> (r: String)
    ensures
        r@ == executable_path_spec(name@, windows),
{
    if windows {
        string_from_chars(&path_with_extension(&chars_of(name), &chars_of("exe")))
    } else {
        name.to_owned()
    }
}

/// The places where ffmpeg is looked for, in order, without repeats: the
/// plain name, then on other systems than Windows four well-known
/// installation paths.
pub open spec fn ffmpeg_candidates_spec(windows: bool) -> Seq<Seq<char>> {
    let first = executable_path_spec("ffmpeg"@, windows);
    let all = if windows {
        seq![first]
    } else {
        seq![
            first,
            "/opt/anaconda3/bin/ffmpeg"@,
            "/opt/homebrew/bin/ffmpeg"@,
            "/usr/local/bin/ffmpeg"@,
            "/usr/bin/ffmpeg"@,
        ]
    };
    dedup_first(all)
}

/// Later repeats removed: each element kept only at its first occurrence.
pub open spec fn dedup_first(s: Seq<Seq<char>>) -> Seq<Seq<char>>
    decreases s.len(),
{
    if s.len() == 0 {
        s
    } else {
        let rest = dedup_first(s.drop_last());
        if s.drop_last().contains(s.last()) {
            rest
        } else {
            rest.push(s.last())
        }
    }
}

proof fn lemma_dedup_contains(s: Seq<Seq<char>>, x: Seq<char>)
    ensures
        dedup_first(s).contains(x) == s.contains(x),
    decreases s.len(),
{
    if s.len() > 0 {
        let d = s.drop_last();
        let l = s.last();
        lemma_dedup_contains(d, x);
        if s.contains(x) {
            let k = choose|k: int| 0 <= k < s.len() && s[k] == x;
            if k < s.len() - 1 {
                assert(d[k] == x);
            }
        }
        if d.contains(x) {
            let k = choose|k: int| 0 <= k < d.len() && d[k] == x;
            assert(s[k] == x);
        }
        if x == l {
            assert(s[s.len() - 1] == x);
        }
        if !d.contains(l) {
            let rest = dedup_first(d);
            let p = rest.push(l);
            if p.contains(x) {
                let k = choose|k: int| 0 <= k < p.len() && p[k] == x;
                if k < rest.len() {
                    assert(rest[k] == x);
                }
            }
            if rest.contains(x) {
                let k = choose|k: int| 0 <= k < rest.len() && rest[k] == x;
                assert(p[k] == x);
            }
            assert(p[rest.len() as int] == l);
        }
    }
}

fn contains_string(v: &Vec<String>, x: &String) -> (b: bool)
    ensures
        b == v@.map_values(|s: String| s@).contains(x@),
{
    let ghost vv = v@.map_values(|s: String| s@);
    let mut i: usize = 0;
    while i < v.len()
        invariant
            i <= v.len(),
            vv == v@.map_values(|s: String| s@),
            forall|k: int| 0 <= k < i ==> vv[k] != x@,
        decreases v.len() - i,
    {
        if crate::text::str_eq(v[i].as_str(), x.as_str()) {
            assert(vv[i as int] == x@);
            return true;
        }
        i = i + 1;
    }
    false
}

/// Each element kept at its first occurrence only.
pub fn dedup_strings(v: Vec<String>) -> (r: Vec<String>)
    ensures
        r@.map_values(|s: String| s@) == dedup_first(v@.map_values(|s: String| s@)),
{
    let ghost vv = v@.map_values(|s: String| s@);
    let mut r: Vec<String> = Vec::new();
    let mut i: usize = 0;
    while i < v.len()
        invariant
            i <= v.len(),
            vv == v@.map_values(|s: String| s@),
            r@.map_values(|s: String| s@) == dedup_first(vv.take(i as int)),
        decreases v.len() - i,
    {
        assert(vv.take(i + 1).drop_last() =~= vv.take(i as int));
        assert(vv.take(i + 1).last() == v@[i as int]@);
        proof {
            lemma_dedup_contains(vv.take(i as int), v@[i as int]@);
        }
        if !contains_string(&r, &v[i]) {
            r.push(v[i].clone());
            assert(r@.map_values(|s: String| s@) =~= dedup_first(vv.take(i as int)).push(v@[i as int]@));
        }
        i = i + 1;
    }
    assert(vv.take(v.len() as int) =~= vv);
    r
}

/// The places where ffmpeg is looked for, in order.
pub fn ffmpeg_candidate_paths(windows: bool) -> (r: Vec<String>)
    ensures
        r@.map_values(|s: String| s@) == ffmpeg_candidates_spec(windows),
{
    let mut all: Vec<String> = Vec::new();
    all.push(executable_path("ffmpeg", windows));
    if !windows {
        all.push("/opt/anaconda3/bin/ffmpeg".to_owned());
        all.push("/opt/homebrew/bin/ffmpeg".to_owned());
        all.push("/usr/local/bin/ffmpeg".to_owned());
        all.push("/usr/bin/ffmpeg".to_owned());
    }
    let ghost first = executable_path_spec("ffmpeg"@, windows);
    assert(all@.map_values(|s: String| s@) =~= (if windows {
        seq![first]
    } else {
        seq![
            first,
            "/opt/anaconda3/bin/ffmpeg"@,
            "/opt/homebrew/bin/ffmpeg"@,
            "/usr/local/bin/ffmpeg"@,
            "/usr/bin/ffmpeg"@,
        ]
    }));
    dedup_strings(all)
}

/// What probing one ffmpeg candidate found.
#[derive(Clone, Copy, Debug, PartialEq, Eq)]
pub struct FfmpegProbe {
    /// It has the `ass`, `subtitles`, `movie`, `overlay` and `scale` filters
    /// and the `libx264` encoder.
    pub supports_danmaku: bool,
    /// It runs and reports a version.
    pub available: bool,
}

/// The first index at which `pred` holds.
pub open spec fn first_probe(probes: Seq<FfmpegProbe>, full: bool) -> Option<int>
    decreases probes.len(),
{
    if probes.len() == 0 {
        None
    } else {
        match first_probe(probes.drop_last(), full) {
            Some(i) => Some(i),
            None => if (if full {
                probes.last().supports_danmaku
            } else {
                probes.last().available
            }) {
                Some(probes.len() - 1)
            } else {
                None
            },
        }
    }
}

/// The ffmpeg to use: the first candidate with everything that burning
/// danmaku needs; else the first that runs; else the plain name.
pub open spec fn select_ffmpeg_spec(
    candidates: Seq<Seq<char>>,
    probes: Seq<FfmpegProbe>,
    windows: bool,
) -> Seq<char> {
    match first_probe(probes, true) {
        Some(i) => candidates[i],
        None => match first_probe(probes, false) {
            Some(i) => candidates[i],
            None => executable_path_spec("ffmpeg"@, windows),
        },
    }
}

/// The first probe found is one of the probes.
pub proof fn lemma_first_probe(probes: Seq<FfmpegProbe>, full: bool)
    ensures
        first_probe(probes, full) matches Some(i) ==> 0 <= i < probes.len(),
    decreases probes.len(),
{
    if probes.len() > 0 {
        lemma_first_probe(probes.drop_last(), full);
    }
}

fn first_probe_exec(probes: &[FfmpegProbe], full: bool) -> (r: Option<usize>)
    ensures
        r matches Some(i) ==> first_probe(probes@, full) == Some(i as int),
        r is None ==> first_probe(probes@, full) is None,
{
    let mut i: usize = 0;
    while i < probes.len()
        invariant
            i <= probes.len(),
            first_probe(probes@.take(i as int), full) is None,
        decreases probes.len() - i,
    {
        assert(probes@.take(i + 1).drop_last() =~= probes@.take(i as int));
        let hit = if full {
            probes[i].supports_danmaku
        } else {
            probes[i].available
        };
        if hit {
            proof {
                lemma_first_probe_extend(probes@, full, i as int + 1, i as int);
            }
            return Some(i);
        }
        i = i + 1;
    }
    assert(probes@.take(probes.len() as int) =~= probes@);
    None
}

proof fn lemma_first_probe_extend(probes: Seq<FfmpegProbe>, full: bool, k: int, j: int)
    requires
        0 < k <= probes.len(),
        first_probe(probes.take(k), full) == Some(j),
    ensures
        first_probe(probes, full) == Some(j),
    decreases probes.len() - k,
{
    if k < probes.len() {
        assert(probes.take(k + 1).drop_last() =~= probes.take(k));
        lemma_first_probe_extend(probes, full, k + 1, j);
    } else {
        assert(probes.take(k) =~= probes);
    }
}

/// Picks the ffmpeg to use from the candidates and what probing them found.
pub fn select_ffmpeg_path(candidates: &Vec<String>, probes: &[FfmpegProbe], windows: bool) -> (r: String)
    requires
        candidates.len() == probes.len(),
    ensures
        r@ == select_ffmpeg_spec(candidates@.map_values(|s: String| s@), probes@, windows),
{
    proof {
        lemma_first_probe(probes@, true);
        lemma_first_probe(probes@, false);
    }
    match first_probe_exec(probes, true) {
        Some(i) => candidates[i].clone(),
        None => match first_probe_exec(probes, false) {
            Some(i) => candidates[i].clone(),
            None => executable_path("ffmpeg", windows),
        },
    }
}

/// The ffprobe beside an ffmpeg given by an absolute path, if any.
pub open spec fn ffprobe_sibling_spec(ffmpeg: Seq<char>, windows: bool) -> Option<Seq<char>> {
    if starts_with(ffmpeg, seq!['/']) {
        match parent_spec(ffmpeg) {
            Some(p) => Some(executable_path_spec(join_spec(p, "ffprobe"@), windows)),
            None => None,
        }
    } else {
        None
    }
}

/// The ffprobe beside the selected ffmpeg, worth probing when the ffmpeg
/// path is absolute.
pub fn ffprobe_sibling_candidate(ffmpeg: &str, windows: bool) -> (r: Option<String>)
    ensures
        r matches Some(x) ==> ffprobe_sibling_spec(ffmpeg@, windows) == Some(x@),
        r is None ==> ffprobe_sibling_spec(ffmpeg@, windows) is None,
{
    let v = chars_of(ffmpeg);
    if !(v.len() > 0 && v[0] == '/') {
        if v.len() > 0 {
            assert(v@.take(1)[0] == v@[0]);
        }
        return None;
    }
    assert(v@.take(1) =~= seq!['/']);
    match path_parent(&v) {
        Some(p) => {
            let j = path_join(&p, &chars_of("ffprobe"));
            let js = string_from_chars(&j);
            Some(executable_path(js.as_str(), windows))
        },
        None => None,
    }
}

/// The ffprobe to use: the sibling of the selected ffmpeg when it runs,
/// else the plain name.
pub fn choose_ffprobe_path(sibling: Option<String>, sibling_available: bool, windows: bool) -> (r: String)
    ensures
        r@ == (match sibling {
            Some(s) => if sibling_available {
                s@
            } else {
                executable_path_spec("ffprobe"@, windows)
            },
            None => executable_path_spec("ffprobe"@, windows),
        }),
{
    match sibling {
        Some(s) => if sibling_available {
            s
        } else {
            executable_path("ffprobe", windows)
        },
        None => executable_path("ffprobe", windows),
    }
}

/// How many waveform peaks to compute: four per second, between 4000 and
/// 48000.
pub fn recommend_waveform_peak_count(duration_seconds: usize) -> (r: usize)
    ensures
        r == (if 4 * duration_seconds <= 4000 {
            4000
        } else if 4 * duration_seconds >= 48000 {
            48000
        } else {
            4 * duration_seconds
        }),
{
    if duration_seconds >= 12000 {
        48000
    } else if duration_seconds <= 1000 {
        4000
    } else {
        duration_seconds * 4
    }
}

/// How many emote overlays one ffmpeg pass draws: all of them (at least one)
/// up to 500, else batches of 500.
pub fn danmu_image_overlay_batch_size(overlay_count: usize) -> (r: usize)
    ensures
        r == (if overlay_count <= 500 {
            if overlay_count >= 1 {
                overlay_count
            } else {
                1
            }
        } else {
            500
        }),
{
    if overlay_count <= 500 {
        if overlay_count >= 1 {
            overlay_count
        } else {
            1
        }
    } else {
        500
    }
}

/// One character of a path as it is written inside an ffmpeg filter graph.
pub open spec fn filter_escape_char(c: char) -> Seq<char> {
    if c == '\\' {
        seq!['\\', '\\']
    } else if c == '\'' {
        seq!['\\', '\'']
    } else if c == ':' {
        seq!['\\', ':']
    } else {
        seq![c]
    }
}

/// A path as it is written inside an ffmpeg filter graph: backslashes,
/// quotes and colons escaped with a backslash.
pub open spec fn escape_filter_path_spec(s: Seq<char>) -> Seq<char>
    decreases s.len(),
{
    if s.len() == 0 {
        seq![]
    } else {
        escape_filter_path_spec(s.drop_last()) + filter_escape_char(s.last())
    }
}

/// Escapes a path for an ffmpeg filter graph.
pub fn escape_ffmpeg_filter_path(path: &str) -> (r: String)
    ensures
        r@ == escape_filter_path_spec(path@),
{
    let v = chars_of(path);
    let mut out: Vec<char> = Vec::new();
    let mut i: usize = 0;
    while i < v.len()
        invariant
            i <= v.len(),
            out@ == escape_filter_path_spec(v@.take(i as int)),
        decreases v.len() - i,
    {
        let c = v[i];
        if c == '\\' {
            out.push('\\');
            out.push('\\');
        } else if c == '\'' {
            out.push('\\');
            out.push('\'');
        } else if c == ':' {
            out.push('\\');
            out.push(':');
        } else {
            out.push(c);
        }
        assert(v@.take(i + 1).drop_last() =~= v@.take(i as int));
        assert(out@ =~= escape_filter_path_spec(v@.take(i as int)) + filter_escape_char(c));
        i = i + 1;
    }
    assert(v@.take(v.len() as int) =~= v@);
    string_from_chars(&out)
}

/// The directory that holds the seek-bar thumbnails of a video: the video
/// path with the extension `seekbar-thumbs`.
pub fn seekbar_thumbnail_cache_dir(video_full_path: &str) -> (r: String)
    ensures
        r@ == with_extension_spec(video_full_path@, "seekbar-thumbs"@),
{
    string_from_chars(&path_with_extension(&chars_of(video_full_path), &chars_of("seekbar-thumbs")))
}

/// The manifest of a video's seek-bar thumbnails: `index.json` in its directory.
pub fn seekbar_thumbnail_cache_manifest_path(video_full_path: &str) -> (r: String)
    ensures
        r@ == join_spec(with_extension_spec(video_full_path@, "seekbar-thumbs"@), "index.json"@),
{
    let dir = path_with_extension(&chars_of(video_full_path), &chars_of("seekbar-thumbs"));
    string_from_chars(&path_join(&dir, &chars_of("index.json")))
}

/// Thumbnail `index` in a cache directory: its number with six digits, `.jpg`.
pub fn seekbar_thumbnail_cache_frame_path(cache_dir: &str, index: u64) -> (r: String)
    ensures
        r@ == join_spec(cache_dir@, zero_pad(nat_digits(index as nat), 6) + ".jpg"@),
{
    let mut name = u64_zero_padded(index, 6);
    extend_chars(&mut name, &chars_of(".jpg"));
    string_from_chars(&path_join(&chars_of(cache_dir), &name))
}

/// One way of decoding video for thumbnails: a label and the extra ffmpeg
/// arguments.
pub struct DecodeAttempt {
    pub label: String,
    pub args: Vec<String>,
}

/// The decoding attempts for seek-bar thumbnails, in order: VideoToolbox
/// (on macOS), automatic hardware decoding, software decoding.
pub fn seekbar_thumbnail_decode_attempts(macos: bool) -> (r: Vec<DecodeAttempt>)
    ensures
        r.len() == (if macos {
            3int
        } else {
            2int
        }),
        macos ==> r@[0].label@ == "videotoolbox"@ && r@[0].args@.map_values(|s: String| s@)
            == seq!["-hwaccel"@, "videotoolbox"@],
        r@[r.len() - 2].label@ == "auto"@,
        r@[r.len() - 2].args@.map_values(|s: String| s@) == seq!["-hwaccel"@, "auto"@],
        r@[r.len() - 1].label@ == "software"@,
        r@[r.len() - 1].args@.len() == 0,
{
    let mut r: Vec<DecodeAttempt> = Vec::new();
    if macos {
        let mut args: Vec<String> = Vec::new();
        args.push("-hwaccel".to_owned());
        args.push("videotoolbox".to_owned());
        assert(args@.map_values(|s: String| s@) =~= seq!["-hwaccel"@, "videotoolbox"@]);
        r.push(DecodeAttempt { label: "videotoolbox".to_owned(), args });
    }
    let mut args: Vec<String> = Vec::new();
    args.push("-hwaccel".to_owned());
    args.push("auto".to_owned());
    assert(args@.map_values(|s: String| s@) =~= seq!["-hwaccel"@, "auto"@]);
    r.push(DecodeAttempt { label: "auto".to_owned(), args });
    r.push(DecodeAttempt { label: "software".to_owned(), args: Vec::new() });
    r
}

/// Whether a path names a network location: it starts, ignoring ASCII case,
/// with one of the usual URL schemes.  (For these ASCII schemes, comparing
/// after Unicode lower-casing, as `to_lowercase` does, gives the same answer.)
pub open spec fn is_network_protocol_spec(s: Seq<char>) -> bool {
    exists|i: int| 0 <= i < network_protocols().len() && starts_with_ascii_ci(s, #[trigger] network_protocols()[i])
}

/// The URL schemes that mark a network path.
pub open spec fn network_protocols() -> Seq<Seq<char>> {
    seq![
        "ftp://"@,
        "sftp://"@,
        "ftps://"@,
        "http://"@,
        "https://"@,
        "smb://"@,
        "cifs://"@,
        "nfs://"@,
        "afp://"@,
        "ssh://"@,
        "scp://"@,
    ]
}

/// ASCII lower case of a character.
pub open spec fn ascii_lower(c: char) -> char {
    if 'A' <= c <= 'Z' {
        ((c as u32) + 32) as char
    } else {
        c
    }
}

/// `s` starts with the lower-case `p`, ignoring ASCII case.
pub open spec fn starts_with_ascii_ci(s: Seq<char>, p: Seq<char>) -> bool {
    p.len() <= s.len() && forall|i: int| 0 <= i < p.len() ==> ascii_lower(#[trigger] s[i]) == p[i]
}

/// `char::to_ascii_lowercase`.
pub fn ascii_lower_exec(c: char) -> (r: char)
    ensures
        r == ascii_lower(c),
{
    if 'A' <= c && c <= 'Z' {
        ((c as u32) + 32) as u8 as char
    } else {
        c
    }
}

/// Whether `v` starts with the lower-case `p`, ignoring ASCII case.
pub fn starts_with_ascii_ci_exec(v: &[char], p: &[char]) -> (b: bool)
    ensures
        b == starts_with_ascii_ci(v@, p@),
{
    if p.len() > v.len() {
        return false;
    }
    let mut i: usize = 0;
    while i < p.len()
        invariant
            p.len() <= v.len(),
            i <= p.len(),
            forall|k: int| 0 <= k < i ==> ascii_lower(#[trigger] v@[k]) == p@[k],
        decreases p.len() - i,
    {
        if ascii_lower_exec(v[i]) != p[i] {
            return false;
        }
        i = i + 1;
    }
    true
}

/// Whether a path names a network location.
pub fn is_network_protocol(path_str: &str) -> (b: bool)
    ensures
        b == is_network_protocol_spec(path_str@),
{
    let v = chars_of(path_str);
    let mut protocols: Vec<Vec<char>> = Vec::new();
    protocols.push(chars_of("ftp://"));
    protocols.push(chars_of("sftp://"));
    protocols.push(chars_of("ftps://"));
    protocols.push(chars_of("http://"));
    protocols.push(chars_of("https://"));
    protocols.push(chars_of("smb://"));
    protocols.push(chars_of("cifs://"));
    protocols.push(chars_of("nfs://"));
    protocols.push(chars_of("afp://"));
    protocols.push(chars_of("ssh://"));
    protocols.push(chars_of("scp://"));
    let ghost pv = protocols@.map_values(|p: Vec<char>| p@);
    assert(pv =~= network_protocols());
    let mut i: usize = 0;
    while i < protocols.len()
        invariant
            i <= protocols.len(),
            pv == protocols@.map_values(|p: Vec<char>| p@),
            pv == network_protocols(),
            v@ == path_str@,
            forall|k: int| 0 <= k < i ==> !starts_with_ascii_ci(v@, #[trigger] network_protocols()[k]),
        decreases protocols.len() - i,
    {
        if starts_with_ascii_ci_exec(&v, &protocols[i]) {
            assert(pv[i as int] == protocols@[i as int]@);
            assert(starts_with_ascii_ci(v@, network_protocols()[i as int]));
            return true;
        }
        assert(pv[i as int] == protocols@[i as int]@);
        i = i + 1;
    }
    false
}

/// Whether videos with this extension are converted to MP4 for playback:
/// `flv`, in any case.
pub fn should_convert_video_format(extension: &str) -> (b: bool)
    ensures
        b == (extension@.len() == 3 && starts_with_ascii_ci(extension@, "flv"@)),
{
    let v = chars_of(extension);
    v.len() == 3 && starts_with_ascii_ci_exec(&v, &chars_of("flv"))
}

/// The file-name prefix of a clip, by what is burnt into it.
pub fn clip_media_prefix(include_subtitle: bool, include_danmu: bool) -> (r: &'static str)
    ensures
        r@ == (if include_subtitle && include_danmu {
            "[subtitle-danmaku]"@
        } else if include_subtitle {
            PREFIX_SUBTITLE@
        } else if include_danmu {
            PREFIX_DANMAKU@
        } else {
            "[none]"@
        }),
{
    if include_subtitle && include_danmu {
        "[subtitle-danmaku]"
    } else if include_subtitle {
        PREFIX_SUBTITLE
    } else if include_danmu {
        PREFIX_DANMAKU
    } else {
        "[none]"
    }
}

/// The file name of a clip: `{prefix}[{timestamp}]{ordinal_suffix}.{extension}`.
pub fn clip_output_filename(prefix: &str, timestamp: &str, ordinal_suffix: &str, extension: &str) -> (r: String)
    ensures
        r@ == prefix@ + "["@ + timestamp@ + "]"@ + ordinal_suffix@ + "."@ + extension@,
{
    let mut r = prefix.to_owned();
    r.append("[");
    r.append(timestamp);
    r.append("]");
    r.append(ordinal_suffix);
    r.append(".");
    r.append(extension);
    r
}

/// A character of a file name made safe: path separators and characters
/// that file systems refuse become `_`.
pub open spec fn safe_filename_char(c: char) -> char {
    if c == '\\' || c == '/' || c == ':' || c == '*' || c == '?' || c == '"' || c == '<' || c == '>'
        || c == '|' {
        '_'
    } else {
        c
    }
}

/// A file name made safe and cut to at most 50 characters.
pub open spec fn sanitize_filename_spec(name: Seq<char>) -> Seq<char> {
    name.map_values(|c: char| safe_filename_char(c)).take(if name.len() < 50 {
        name.len() as int
    } else {
        50
    })
}

/// Makes a file name safe and at most 50 characters long.
pub fn sanitize_filename(name: &str) -> (r: String)
    ensures
        r@ == sanitize_filename_spec(name@),
{
    let v = chars_of(name);
    let n = if v.len() < 50 {
        v.len()
    } else {
        50
    };
    let mut out: Vec<char> = Vec::new();
    let mut i: usize = 0;
    while i < n
        invariant
            i <= n <= v.len(),
            out@ == v@.map_values(|c: char| safe_filename_char(c)).take(i as int),
        decreases n - i,
    {
        let c = v[i];
        let d = if c == '\\' || c == '/' || c == ':' || c == '*' || c == '?' || c == '"' || c == '<'
            || c == '>' || c == '|' {
            '_'
        } else {
            c
        };
        out.push(d);
        assert(out@ =~= v@.map_values(|c: char| safe_filename_char(c)).take(i + 1));
        i = i + 1;
    }
    string_from_chars(&out)
}

/// The hex MD5 digest of some bytes.
pub uninterp spec fn md5_hex(data: Seq<u8>) -> Seq<char>;

/// `md5::compute` printed with `{:x}`: the digest of `data`, 32 lower-case
/// hex digits.
#[verifier::external_body]
fn md5_hex_digest(data: &[u8]) -> (r: String)
    ensures
        r@ == md5_hex(data@),
        r@.len() == 32,
{
    format!("{:x}", md5::compute(data))
}

/// The text that identifies one scaled emote image: its path, size,
/// modification time (seconds and nanoseconds) and target size, separated by `|`.
pub open spec fn emote_fingerprint(
    path: Seq<char>,
    len: u64,
    modified_secs: u64,
    modified_nanos: u32,
    target_size: u32,
) -> Seq<char> {
    path + "|"@ + nat_digits(len as nat) + "|"@ + nat_digits(modified_secs as nat) + "|"@
        + nat_digits(modified_nanos as nat) + "|"@ + nat_digits(target_size as nat)
}

/// The cache key of a scaled emote image: the MD5 of its fingerprint.
pub fn danmu_emote_cache_key(path: &str, len: u64, modified_secs: u64, modified_nanos: u32, target_size: u32) -> (r: String)
    ensures
        r@ == md5_hex(vstd::utf8::encode_utf8(emote_fingerprint(path@, len, modified_secs, modified_nanos, target_size))),
        r@.len() == 32,
{
    let mut v = chars_of(path);
    v.push('|');
    push_u64_digits(&mut v, len);
    let ghost a = path@ + "|"@ + nat_digits(len as nat);
    assert(v@ =~= a) by {
        reveal_strlit("|");
    }
    v.push('|');
    push_u64_digits(&mut v, modified_secs);
    let ghost b = a + "|"@ + nat_digits(modified_secs as nat);
    assert(v@ =~= b) by {
        reveal_strlit("|");
    }
    v.push('|');
    push_u64_digits(&mut v, modified_nanos as u64);
    let ghost c = b + "|"@ + nat_digits(modified_nanos as nat);
    assert(v@ =~= c) by {
        reveal_strlit("|");
    }
    v.push('|');
    push_u64_digits(&mut v, target_size as u64);
    assert(v@ =~= c + "|"@ + nat_digits(target_size as nat)) by {
        reveal_strlit("|");
    }
    assert(v@ =~= emote_fingerprint(path@, len, modified_secs, modified_nanos, target_size));
    let s = string_from_chars(&v);
    let bytes = s.as_str().as_bytes();
    md5_hex_digest(bytes)
}

/// Time of day in a subtitle file.
#[derive(Clone, Copy, Debug, PartialEq, Eq)]
pub struct SrtTime {
    pub hours: u64,
    pub minutes: u64,
    pub seconds: u64,
    pub milliseconds: u64,
}

/// The milliseconds that a subtitle time denotes.
pub open spec fn srt_total_ms(t: SrtTime) -> int {
    (t.hours * 3600 + t.minutes * 60 + t.seconds) * 1000 + t.milliseconds
}

/// A subtitle time in milliseconds; the count is taken as an `i64` the way
/// `as` does.
pub fn srt_time_to_ms(time: &SrtTime) -> (r: i64)
    requires
        srt_total_ms(*time) <= u64::MAX,
    ensures
        r == srt_total_ms(*time) as i64,
{
    assert(time.hours * 3600 + time.minutes * 60 + time.seconds <= u64::MAX) by (nonlinear_arith)
        requires
            (time.hours * 3600 + time.minutes * 60 + time.seconds) * 1000 + time.milliseconds <= u64::MAX,
    ;
    assert(time.hours * 3600 <= u64::MAX);
    assert(time.minutes * 60 <= u64::MAX);
    ((time.hours * 3_600 + time.minutes * 60 + time.seconds) * 1_000 + time.milliseconds) as i64
}

/// A time in milliseconds (negative counts as zero) as a subtitle time.
pub open spec fn ms_to_srt_spec(ms: i64) -> SrtTime {
    let m = if ms < 0 {
        0
    } else {
        ms as int
    };
    SrtTime {
        hours: (m / 1000 / 3600) as u64,
        minutes: ((m / 1000) % 3600 / 60) as u64,
        seconds: (m / 1000 % 60) as u64,
        milliseconds: (m % 1000) as u64,
    }
}

/// A time in milliseconds (negative counts as zero) as a subtitle time.
pub fn ms_to_srt_time(ms: i64) -> (r: SrtTime)
    ensures
        r == ms_to_srt_spec(ms),
{
    let m: u64 = if ms < 0 {
        0
    } else {
        ms as u64
    };
    let total_seconds = m / 1_000;
    SrtTime {
        hours: total_seconds / 3_600,
        minutes: (total_seconds % 3_600) / 60,
        seconds: total_seconds % 60,
        milliseconds: m % 1_000,
    }
}

/// Converting milliseconds to a subtitle time and back gives the
/// milliseconds, with negative counts taken as zero.
pub proof fn lemma_srt_time_roundtrip(ms: i64)
    ensures
        srt_total_ms(ms_to_srt_spec(ms)) == (if ms < 0 {
            0
        } else {
            ms as int
        }),
{
    let m: int = if ms < 0 {
        0
    } else {
        ms as int
    };
    let t = m / 1000;
    assert(t == (t / 3600) * 3600 + (t % 3600) / 60 * 60 + t % 60) by (nonlinear_arith)
        requires
            t >= 0,
    ;
    assert(m == t * 1000 + m % 1000) by (nonlinear_arith)
        requires
            m >= 0,
            t == m / 1000,
    ;
}

/// Number of characters at the start of `s` that are not whitespace.
pub open spec fn leading_word(s: Seq<char>) -> nat
    decreases s.len(),
{
    if s.len() > 0 && !is_ws(s[0]) {
        1 + leading_word(s.drop_first())
    } else {
        0
    }
}

fn leading_word_count(v: &[char]) -> (n: usize)
    ensures
        n == leading_word(v@),
        n <= v.len(),
{
    let mut i: usize = 0;
    assert(v@.skip(0) =~= v@);
    while i < v.len() && !is_whitespace(v[i])
        invariant
            i <= v.len(),
            leading_word(v@) == i + leading_word(v@.skip(i as int)),
        decreases v.len() - i,
    {
        assert(v@.skip(i as int).drop_first() =~= v@.skip(i + 1));
        i = i + 1;
    }
    i
}

/// The second whitespace-separated word of a line, if it has two.
pub open spec fn second_word(line: Seq<char>) -> Option<Seq<char>> {
    let r1 = line.skip(leading_ws(line) as int);
    if r1.len() == 0 {
        None
    } else {
        let r2 = r1.skip(leading_word(r1) as int);
        let r3 = r2.skip(leading_ws(r2) as int);
        if r3.len() == 0 {
            None
        } else {
            Some(r3.take(leading_word(r3) as int))
        }
    }
}

/// The names in a listing of ffmpeg (`-filters`, `-encoders`): the second
/// word of each line that has one, in order.
pub open spec fn listing_names_spec(lines: Seq<Seq<char>>) -> Seq<Seq<char>>
    decreases lines.len(),
{
    if lines.len() == 0 {
        seq![]
    } else {
        let r = listing_names_spec(lines.drop_last());
        match second_word(lines.last()) {
            Some(w) => r.push(w),
            None => r,
        }
    }
}

fn second_word_exec(line: &[char]) -> (r: Option<Vec<char>>)
    ensures
        match r {
            Some(w) => second_word(line@) == Some(w@),
            None => second_word(line@) is None,
        },
{
    proof {
        crate::text::lemma_leading_ws(line@);
    }
    let a = leading_ws_count(line);
    let r1 = slice_chars(line, a, line.len());
    assert(r1@ =~= line@.skip(a as int));
    if r1.len() == 0 {
        return None;
    }
    let b = leading_word_count(&r1);
    let r2 = slice_chars(&r1, b, r1.len());
    assert(r2@ =~= r1@.skip(b as int));
    proof {
        crate::text::lemma_leading_ws(r2@);
    }
    let c = leading_ws_count(&r2);
    let r3 = slice_chars(&r2, c, r2.len());
    assert(r3@ =~= r2@.skip(c as int));
    if r3.len() == 0 {
        return None;
    }
    let d = leading_word_count(&r3);
    let w = slice_chars(&r3, 0, d);
    assert(w@ =~= r3@.take(d as int));
    Some(w)
}

/// The names listed in ffmpeg's output.
pub fn ffmpeg_listing_names(output: &str) -> (r: Vec<String>)
    ensures
        r@.map_values(|x: String| x@) == listing_names_spec(lines_spec(output@)),
{
    let lines = split_lines(&chars_of(output));
    let ghost lv = chars_view(lines@);
    let mut r: Vec<String> = Vec::new();
    let mut i: usize = 0;
    while i < lines.len()
        invariant
            i <= lines.len(),
            lv == chars_view(lines@),
            lv == lines_spec(output@),
            r@.map_values(|x: String| x@) == listing_names_spec(lv.take(i as int)),
        decreases lines.len() - i,
    {
        assert(lv.take(i + 1).drop_last() =~= lv.take(i as int));
        assert(lv.take(i + 1).last() == lines@[i as int]@);
        match second_word_exec(&lines[i]) {
            Some(w) => {
                r.push(string_from_chars(&w));
                assert(r@.map_values(|x: String| x@) =~= r@.drop_last().map_values(|x: String| x@).push(
                    w@,
                ));
            },
            None => {},
        }
        i = i + 1;
    }
    assert(lv.take(lines.len() as int) =~= lv);
    r
}

/// The filters that burning danmaku needs.
pub open spec fn danmaku_filters() -> Seq<Seq<char>> {
    seq!["ass"@, "subtitles"@, "movie"@, "overlay"@, "scale"@]
}

/// An ffmpeg can burn danmaku: it has the `ass`, `subtitles`, `movie`,
/// `overlay` and `scale` filters and the `libx264` encoder.
pub open spec fn supports_danmaku_spec(filters: Seq<Seq<char>>, encoders: Seq<Seq<char>>) -> bool {
    (forall|i: int| 0 <= i < danmaku_filters().len() ==> filters.contains(#[trigger] danmaku_filters()[i]))
        && encoders.contains("libx264"@)
}

fn strings_contain(v: &Vec<String>, x: &str) -> (b: bool)
    ensures
        b == v@.map_values(|s: String| s@).contains(x@),
{
    let ghost vv = v@.map_values(|s: String| s@);
    let mut i: usize = 0;
    while i < v.len()
        invariant
            i <= v.len(),
            vv == v@.map_values(|s: String| s@),
            forall|k: int| 0 <= k < i ==> vv[k] != x@,
        decreases v.len() - i,
    {
        if str_eq(v[i].as_str(), x) {
            assert(vv[i as int] == x@);
            return true;
        }
        i = i + 1;
    }
    false
}

/// Whether an ffmpeg with these filters and encoders can burn danmaku.
pub fn ffmpeg_supports_danmaku_encode(filters: &Vec<String>, encoders: &Vec<String>) -> (b: bool)
    ensures
        b == supports_danmaku_spec(
            filters@.map_values(|s: String| s@),
            encoders@.map_values(|s: String| s@),
        ),
{
    let ghost fv = filters@.map_values(|s: String| s@);
    let a = strings_contain(filters, "ass");
    let b = strings_contain(filters, "subtitles");
    let c = strings_contain(filters, "movie");
    let d = strings_contain(filters, "overlay");
    let e = strings_contain(filters, "scale");
    let x = strings_contain(encoders, "libx264");
    proof {
        let df = danmaku_filters();
        if a && b && c && d && e {
            assert forall|i: int| 0 <= i < df.len() implies fv.contains(#[trigger] df[i]) by {
                if i == 0 {
                } else if i == 1 {
                } else if i == 2 {
                } else if i == 3 {
                } else {
                }
            }
        } else {
            if !a {
                assert(!fv.contains(df[0]));
            } else if !b {
                assert(!fv.contains(df[1]));
            } else if !c {
                assert(!fv.contains(df[2]));
            } else if !d {
                assert(!fv.contains(df[3]));
            } else {
                assert(!fv.contains(df[4]));
            }
        }
    }
    a && b && c && d && e && x
}

/// The most chunks that are extracted at once.
pub const AUDIO_CHUNK_MAX_PARALLELISM: usize = 8;

/// One chunk of audio to extract: its number, where it starts and how long
/// it lasts, in seconds.
pub struct AudioChunk {
    pub index: usize,
    pub start_seconds: u64,
    pub duration_seconds: u64,
}

/// `duration.div_ceil(chunk)`: the number of chunks that cover the audio.
pub open spec fn chunk_count_spec(duration: nat, chunk: nat) -> nat {
    if duration % chunk == 0 {
        duration / chunk
    } else {
        duration / chunk + 1
    }
}

/// The length of chunk `i`: a whole chunk, or what is left of the audio.
pub open spec fn chunk_duration_spec(duration: int, chunk: int, i: int) -> int {
    if chunk <= duration - chunk * i {
        chunk
    } else {
        duration - chunk * i
    }
}

/// `n` chunks cover the audio exactly when the last one starts inside it
/// and they reach its end.
proof fn lemma_chunk_count(d: int, c: int, n: int)
    requires
        c > 0,
        n >= 1,
        c * (n - 1) < d,
        d <= c * n,
    ensures
        n == chunk_count_spec(d as nat, c as nat),
{
    vstd::arithmetic::div_mod::lemma_fundamental_div_mod(d, c);
    let q = d / c;
    let r = d % c;
    assert(0 <= r < c);
    vstd::arithmetic::mul::lemma_mul_is_commutative(c, n - 1);
    vstd::arithmetic::mul::lemma_mul_is_commutative(c, n);
    vstd::arithmetic::mul::lemma_mul_is_commutative(c, q);
    vstd::arithmetic::mul::lemma_mul_is_commutative(c, q + 1);
    vstd::arithmetic::mul::lemma_mul_is_distributive_add(c, q, 1);
    if r == 0 {
        vstd::arithmetic::mul::lemma_mul_strict_inequality_converse(n - 1, q, c);
        vstd::arithmetic::mul::lemma_mul_inequality_converse(q, n, c);
    } else {
        assert(c * (n - 1) < c * (q + 1));
        vstd::arithmetic::mul::lemma_mul_strict_inequality_converse(n - 1, q + 1, c);
        assert(c * q < c * n);
        vstd::arithmetic::mul::lemma_mul_strict_inequality_converse(q, n, c);
    }
}

/// The chunks tile the audio: every chunk but the last is whole, and the
/// last one ends where the audio does.
pub proof fn lemma_chunk_tiling(duration: nat, chunk: nat)
    requires
        chunk > 0,
        duration > 0,
    ensures
        chunk_count_spec(duration, chunk) >= 1,
        forall|i: int|
            0 <= i < chunk_count_spec(duration, chunk) - 1 ==> #[trigger] chunk_duration_spec(
                duration as int,
                chunk as int,
                i,
            ) == chunk,
        chunk * (chunk_count_spec(duration, chunk) - 1) + chunk_duration_spec(
            duration as int,
            chunk as int,
            chunk_count_spec(duration, chunk) - 1,
        ) == duration,
{
    let d = duration as int;
    let c = chunk as int;
    let n = chunk_count_spec(duration, chunk) as int;
    vstd::arithmetic::div_mod::lemma_fundamental_div_mod(d, c);
    let q = d / c;
    let r = d % c;
    assert(0 <= r < c);
    vstd::arithmetic::mul::lemma_mul_is_commutative(c, q);
    vstd::arithmetic::mul::lemma_mul_is_distributive_sub(c, q, 1);
    vstd::arithmetic::mul::lemma_mul_is_distributive_add(c, q, 1);
    if r == 0 {
        assert(q >= 1) by {
            if q <= 0 {
                vstd::arithmetic::mul::lemma_mul_inequality(q, 0, c);
            }
        }
        assert(n == q);
        assert(c * (n - 1) == d - c);
    } else {
        assert(q >= 0) by {
            if q < 0 {
                vstd::arithmetic::mul::lemma_mul_strict_inequality(q, 0, c);
            }
        }
        assert(n == q + 1);
        assert(c * (n - 1) == d - r);
    }
    assert forall|i: int| 0 <= i < n - 1 implies #[trigger] chunk_duration_spec(d, c, i) == c by {
        vstd::arithmetic::mul::lemma_mul_inequality(i, n - 2, c);
        vstd::arithmetic::mul::lemma_mul_is_commutative(i, c);
        vstd::arithmetic::mul::lemma_mul_is_commutative(n - 2, c);
        vstd::arithmetic::mul::lemma_mul_is_distributive_sub(c, n - 1, 1);
    }
}

/// The chunks that `extract_audio_chunks` cuts: `duration.div_ceil(chunk)`
/// of them, chunk `i` starting at `chunk * i` and lasting a whole chunk or
/// what is left.
pub fn audio_chunk_plan(duration: u64, chunk_seconds: u64) -> (r: Vec<AudioChunk>)
    requires
        chunk_seconds > 0,
    ensures
        r.len() == chunk_count_spec(duration as nat, chunk_seconds as nat),
        forall|i: int|
            0 <= i < r.len() ==> {
                &&& (#[trigger] r[i]).index == i
                &&& r[i].start_seconds == chunk_seconds * i
                &&& r[i].duration_seconds == chunk_duration_spec(duration as int, chunk_seconds as int, i)
            },
{
    let mut r: Vec<AudioChunk> = Vec::new();
    if duration == 0 {
        assert(0nat % (chunk_seconds as nat) == 0) by (nonlinear_arith)
            requires
                chunk_seconds > 0,
        ;
        assert(0nat / (chunk_seconds as nat) == 0) by (nonlinear_arith)
            requires
                chunk_seconds > 0,
        ;
        return r;
    }
    let mut start: u64 = 0;
    let mut i: usize = 0;
    loop
        invariant_except_break
            start < duration,
            start == chunk_seconds * i,
            r.len() == i,
        invariant
            chunk_seconds > 0,
            forall|j: int|
                0 <= j < r.len() ==> {
                    &&& (#[trigger] r[j]).index == j
                    &&& r[j].start_seconds == chunk_seconds * j
                    &&& r[j].duration_seconds == chunk_duration_spec(duration as int, chunk_seconds as int, j)
                },
        ensures
            r.len() == chunk_count_spec(duration as nat, chunk_seconds as nat),
        decreases duration - start,
    {
        let rem = duration - start;
        let dur = if chunk_seconds <= rem {
            chunk_seconds
        } else {
            rem
        };
        r.push(AudioChunk { index: i, start_seconds: start, duration_seconds: dur });
        if rem <= chunk_seconds {
            proof {
                vstd::arithmetic::mul::lemma_mul_is_distributive_add(chunk_seconds as int, i as int, 1);
                lemma_chunk_count(duration as int, chunk_seconds as int, i + 1);
            }
            break;
        }
        proof {
            vstd::arithmetic::mul::lemma_mul_is_distributive_add(chunk_seconds as int, i as int, 1);
        }
        start = start + chunk_seconds;
        i = r.len();
    }
    r
}

/// How many chunks are extracted at once: one fewer than the processors,
/// at least one, at most eight, and no more than there are chunks.
pub fn audio_chunk_parallelism(cpu_parallelism: usize, chunk_count: usize) -> (r: usize)
    ensures
        r == ({
            let a: int = if cpu_parallelism <= 1 { 1 } else { cpu_parallelism - 1 };
            let b: int = if a < AUDIO_CHUNK_MAX_PARALLELISM { a } else { AUDIO_CHUNK_MAX_PARALLELISM as int };
            let m: int = if chunk_count < 1 { 1 } else { chunk_count as int };
            if b < m { b } else { m }
        }),
{
    let a = if cpu_parallelism <= 1 { 1 } else { cpu_parallelism - 1 };
    let b = if a < AUDIO_CHUNK_MAX_PARALLELISM { a } else { AUDIO_CHUNK_MAX_PARALLELISM };
    let m = if chunk_count < 1 { 1 } else { chunk_count };
    if b < m { b } else { m }
}

/// The sample rate that audio is extracted at: `22050` for MP3, else `16000`.
pub fn audio_sample_rate(format: &str) -> (r: &'static str)
    ensures
        r@ == (if format@ == "mp3"@ { "22050"@ } else { "16000"@ }),
{
    if str_eq(format, "mp3") {
        "22050"
    } else {
        "16000"
    }
}

/// Where the chunks of an audio file go and what their names start with:
/// beside the file given the extension `format`, in `{stem}_chunks`; `None`
/// where that path has no parent or no stem.
pub open spec fn audio_chunk_layout_spec(file: Seq<char>, format: Seq<char>) -> Option<(Seq<char>, Seq<char>)> {
    let out = with_extension_spec(file, format);
    match (parent_spec(out), file_stem_spec(out)) {
        (Some(dir), Some(stem)) => Some((join_spec(dir, stem + "_chunks"@), stem)),
        _ => None,
    }
}

/// The chunk directory and the base name of the chunks of `file`.
pub fn audio_chunk_layout(file: &str, format: &str) -> (r: Option<(String, String)>)
    ensures
        r matches Some(x) ==> audio_chunk_layout_spec(file@, format@) == Some((x.0@, x.1@)),
        r is None ==> audio_chunk_layout_spec(file@, format@) is None,
{
    let out = path_with_extension(&chars_of(file), &chars_of(format));
    match (path_parent(&out), path_file_stem(&out)) {
        (Some(dir), Some(stem)) => {
            let mut name = stem.clone();
            extend_chars(&mut name, &chars_of("_chunks"));
            let d = path_join(&dir, &name);
            Some((string_from_chars(&d), string_from_chars(&stem)))
        },
        _ => None,
    }
}

/// Chunk `index` in a chunk directory: `{base}_{index:03}.{format}`.
pub fn audio_chunk_file(chunk_dir: &str, base_name: &str, index: u64, format: &str) -> (r: String)
    ensures
        r@ == join_spec(chunk_dir@, base_name@ + "_"@ + zero_pad(nat_digits(index as nat), 3) + "."@ + format@),
{
    let mut name = chars_of(base_name);
    extend_chars(&mut name, &chars_of("_"));
    extend_chars(&mut name, &u64_zero_padded(index, 3));
    extend_chars(&mut name, &chars_of("."));
    extend_chars(&mut name, &chars_of(format));
    string_from_chars(&path_join(&chars_of(chunk_dir), &name))
}

/// Frames per second of the rendered danmaku layer.
pub const DANMU_LAYER_FPS: u32 = 60;

/// The filter line that lays batch `i` over what the batches before it made.
pub open spec fn overlay_line(i: nat) -> Seq<char> {
    "[v"@ + nat_digits((i - 1) as nat) + "]["@ + nat_digits(i)
        + ":v]overlay=x=0:y=0:eof_action=pass:format=auto[v"@ + nat_digits(i) + "];\n"@
}

/// The overlay lines of batches `1..=k`.
pub open spec fn overlay_lines(k: nat) -> Seq<char>
    decreases k,
{
    if k == 0 {
        seq![]
    } else {
        overlay_lines((k - 1) as nat) + overlay_line(k)
    }
}

/// The filter script that stacks `n` transparent layer batches into one.
pub open spec fn compose_filter_spec(n: nat) -> Seq<char> {
    "[0:v]format=rgba[v0];\n"@ + overlay_lines((n - 1) as nat) + "[v"@ + nat_digits((n - 1) as nat)
        + "]format=argb[vout]\n"@
}

/// The filter script that stacks the rendered danmaku layer batches; refused
/// when there are none.
pub fn danmu_layer_compose_filter(batch_count: usize) -> (r: Result<String, String>)
    ensures
        match r {
            Ok(s) => batch_count > 0 && s@ == compose_filter_spec(batch_count as nat),
            Err(e) => batch_count == 0 && e@ == "No danmu layer batches to compose"@,
        },
{
    if batch_count == 0 {
        return Err("No danmu layer batches to compose".to_owned());
    }
    let mut out = chars_of("[0:v]format=rgba[v0];\n");
    let mut index: usize = 1;
    while index < batch_count
        invariant
            1 <= index <= batch_count,
            out@ == "[0:v]format=rgba[v0];\n"@ + overlay_lines((index - 1) as nat),
        decreases batch_count - index,
    {
        extend_chars(&mut out, &chars_of("[v"));
        push_u64_digits(&mut out, (index - 1) as u64);
        extend_chars(&mut out, &chars_of("]["));
        push_u64_digits(&mut out, index as u64);
        extend_chars(&mut out, &chars_of(":v]overlay=x=0:y=0:eof_action=pass:format=auto[v"));
        push_u64_digits(&mut out, index as u64);
        extend_chars(&mut out, &chars_of("];\n"));
        assert(out@ =~= "[0:v]format=rgba[v0];\n"@ + overlay_lines(index as nat));
        index = index + 1;
    }
    extend_chars(&mut out, &chars_of("[v"));
    push_u64_digits(&mut out, (batch_count - 1) as u64);
    extend_chars(&mut out, &chars_of("]format=argb[vout]\n"));
    assert(out@ =~= compose_filter_spec(batch_count as nat));
    Ok(string_from_chars(&out))
}

/// The filter script that draws the subtitles over the video at the layer
/// rate and lays the danmaku layer on top.
pub open spec fn danmu_compose_filter_spec(subtitle_path: Seq<char>) -> Seq<char> {
    "[0:v]fps="@ + nat_digits(DANMU_LAYER_FPS as nat) + ",ass='"@ + escape_filter_path_spec(subtitle_path)
        + "'[base];\n[base][1:v]overlay=x=0:y=0:eof_action=pass:format=auto,format=yuv420p[vout]\n"@
}

/// The filter script of the final danmaku composition.
pub fn danmu_compose_filter(subtitle_path: &str) -> (r: String)
    ensures
        r@ == danmu_compose_filter_spec(subtitle_path@),
{
    let mut out = chars_of("[0:v]fps=");
    push_u64_digits(&mut out, DANMU_LAYER_FPS as u64);
    extend_chars(&mut out, &chars_of(",ass='"));
    extend_chars(&mut out, &chars_of(escape_ffmpeg_filter_path(subtitle_path).as_str()));
    extend_chars(
        &mut out,
        &chars_of("'[base];\n[base][1:v]overlay=x=0:y=0:eof_action=pass:format=auto,format=yuv420p[vout]\n"),
    );
    string_from_chars(&out)
}

/// One character of a subtitle path on Windows, where backslashes and
/// colons are escaped.
pub open spec fn windows_subtitle_char(c: char) -> Seq<char> {
    if c == '\\' {
        seq!['\\', '\\']
    } else if c == ':' {
        seq!['\\', ':']
    } else {
        seq![c]
    }
}

/// A subtitle path with backslashes and colons escaped.
pub open spec fn windows_subtitle_escape(s: Seq<char>) -> Seq<char>
    decreases s.len(),
{
    if s.len() == 0 {
        seq![]
    } else {
        windows_subtitle_escape(s.drop_last()) + windows_subtitle_char(s.last())
    }
}

/// The subtitle path in the `subtitles=` filter: quoted, and escaped on
/// Windows.
pub fn subtitle_filter_path(path: &str, windows: bool) -> (r: String)
    ensures
        r@ == seq!['\''] + (if windows { windows_subtitle_escape(path@) } else { path@ }) + seq!['\''],
{
    let v = chars_of(path);
    let mut out: Vec<char> = Vec::new();
    out.push('\'');
    if windows {
        let mut i: usize = 0;
        while i < v.len()
            invariant
                i <= v.len(),
                v@ == path@,
                out@ == seq!['\''] + windows_subtitle_escape(v@.take(i as int)),
            decreases v.len() - i,
        {
            let c = v[i];
            if c == '\\' {
                out.push('\\');
                out.push('\\');
            } else if c == ':' {
                out.push('\\');
                out.push(':');
            } else {
                out.push(c);
            }
            assert(v@.take(i + 1).drop_last() =~= v@.take(i as int));
            assert(out@ =~= seq!['\''] + windows_subtitle_escape(v@.take(i as int)) + windows_subtitle_char(c));
            i = i + 1;
        }
        assert(v@.take(v.len() as int) =~= v@);
    } else {
        extend_chars(&mut out, &v);
    }
    out.push('\'');
    string_from_chars(&out)
}

/// What `check_videos` compares of a video: its video and audio codecs and
/// its size.
pub struct VideoStreamInfo {
    pub video_codec: String,
    pub audio_codec: String,
    pub width: u32,
    pub height: u32,
}

impl View for VideoStreamInfo {
    type V = (Seq<char>, Seq<char>, u32, u32);

    open spec fn view(&self) -> (Seq<char>, Seq<char>, u32, u32) {
        (self.video_codec@, self.audio_codec@, self.width, self.height)
    }
}

/// Whether videos can be joined: every one has the same video codec, audio
/// codec, width and height as the first.
pub open spec fn streams_compatible(ms: Seq<(Seq<char>, Seq<char>, u32, u32)>) -> bool {
    forall|i: int| 0 <= i < ms.len() ==> #[trigger] ms[i] == ms[0]
}

/// Whether the videos all have the same encoding and resolution.
pub fn videos_compatible(videos: &[VideoStreamInfo]) -> (b: bool)
    ensures
        b == streams_compatible(videos@.map_values(|v: VideoStreamInfo| v@)),
{
    let ghost ms = videos@.map_values(|v: VideoStreamInfo| v@);
    if videos.len() == 0 {
        return true;
    }
    let first = &videos[0];
    let mut i: usize = 1;
    while i < videos.len()
        invariant
            1 <= i <= videos.len(),
            ms == videos@.map_values(|v: VideoStreamInfo| v@),
            first@ == ms[0],
            forall|j: int| 0 <= j < i ==> #[trigger] ms[j] == ms[0],
        decreases videos.len() - i,
    {
        let next = &videos[i];
        assert(ms[i as int] == next@);
        if !str_eq(next.video_codec.as_str(), first.video_codec.as_str())
            || !str_eq(next.audio_codec.as_str(), first.audio_codec.as_str())
            || next.width != first.width || next.height != first.height {
            assert(ms[i as int] != ms[0]);
            return false;
        }
        assert(ms[i as int] == ms[0]);
        i = i + 1;
    }
    true
}

/// Where an imported video goes: the directory
/// `{output}/imported/{room}/{title or "untitled"}` and the target file
/// `{prefix}{title}{timestamp}.{extension}` in it (the extension of the
/// source, or `mp4`), with room and title made safe; a video that is
/// converted gets the extension `mp4`.
pub open spec fn import_paths_spec(
    output_root: Seq<char>,
    room_id: Seq<char>,
    title: Seq<char>,
    prefix: Seq<char>,
    timestamp: Seq<char>,
    source_path: Seq<char>,
) -> (Seq<char>, Seq<char>, bool) {
    let room = sanitize_filename_spec(room_id);
    let name = sanitize_filename_spec(title);
    let folder = if name.len() == 0 {
        "untitled"@
    } else {
        name
    };
    let dir = join_spec(join_spec(join_spec(output_root, "imported"@), room), folder);
    let ext = match extension_spec(source_path) {
        Some(e) => e,
        None => "mp4"@,
    };
    let target = join_spec(dir, prefix + name + timestamp + "."@ + ext);
    let convert = ext.len() == 3 && starts_with_ascii_ci(ext, "flv"@);
    (dir, if convert {
        with_extension_spec(target, "mp4"@)
    } else {
        target
    }, convert)
}

/// The directory and file of an imported video, and whether it is
/// converted to MP4.
pub fn import_paths(
    output_root: &str,
    room_id: &str,
    title: &str,
    prefix: &str,
    timestamp: &str,
    source_path: &str,
) -> (r: (String, String, bool))
    ensures
        (r.0@, r.1@, r.2) == import_paths_spec(output_root@, room_id@, title@, prefix@, timestamp@, source_path@),
{
    let room = sanitize_filename(room_id);
    let name = sanitize_filename(title);
    let folder = if name.as_str().is_empty() {
        "untitled".to_owned()
    } else {
        name.clone()
    };
    let dir = path_join(
        &path_join(&path_join(&chars_of(output_root), &chars_of("imported")), &chars_of(room.as_str())),
        &chars_of(folder.as_str()),
    );
    let ext = match path_extension(&chars_of(source_path)) {
        Some(e) => e,
        None => chars_of("mp4"),
    };
    let mut file = chars_of(prefix);
    extend_chars(&mut file, &chars_of(name.as_str()));
    extend_chars(&mut file, &chars_of(timestamp));
    extend_chars(&mut file, &chars_of("."));
    extend_chars(&mut file, &ext);
    let target = path_join(&dir, &file);
    let convert = ext.len() == 3 && starts_with_ascii_ci_exec(&ext, &chars_of("flv"));
    let final_target = if convert {
        path_with_extension(&target, &chars_of("mp4"))
    } else {
        target
    };
    (string_from_chars(&dir), string_from_chars(&final_target), convert)
}

} // verus!
