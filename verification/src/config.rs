//! Settings: the values a missing setting takes, the hot-word settings of
//! online speech recognition, and the file names given to clips.
use vstd::prelude::*;

use crate::paths::{comps_prefix, join_spec, path_join, path_starts_with, paths_equal, same_path};
use crate::text::{chars_of, contains, contains_exec, replace_all, replace_all_chars, string_from_chars, utf8_len};

verus! {

/// What is made on its own after a recording ends.
#[derive(Clone, Copy, Debug)]
pub struct AutoGenerateConfig {
    pub enabled: bool,
    pub encode_danmu: bool,
}

/// One hot word for speech recognition, with its weight (1 to 5 once
/// normalized) and language (empty for any).
#[derive(Clone, Debug, Default)]
pub struct AsrHotword {
    pub text: String,
    pub weight: u8,
    pub lang: String,
}

/// The hot-word vocabulary and what is known of its copy on the service.
#[derive(Clone, Debug, Default)]
pub struct AsrHotwordConfig {
    pub prefix: String,
    pub vocabulary_id: String,
    pub vocabulary_signature: String,
    pub target_model: String,
    pub words: Vec<AsrHotword>,
}

/// Subtitles are not generated on their own by default.
pub fn default_auto_subtitle() -> (r: bool)
    ensures
        !r,
{
    false
}

/// Subtitles come from the local whisper model by default.
pub fn default_subtitle_generator_type() -> (r: String)
    ensures
        r@ == "whisper"@,
{
    "whisper".to_owned()
}

/// The file of the local whisper model.
pub fn default_whisper_model() -> (r: String)
    ensures
        r@ == "whisper_model.bin"@,
{
    "whisper_model.bin".to_owned()
}

/// No prompt for whisper by default.
pub fn default_whisper_prompt() -> (r: String)
    ensures
        r@ == Seq::<char>::empty(),
{
    String::new()
}

/// The OpenAI API endpoint.
pub fn default_openai_api_endpoint() -> (r: String)
    ensures
        r@ == "https://api.openai.com/v1"@,
{
    "https://api.openai.com/v1".to_owned()
}

/// No API key by default.
pub fn default_openai_api_key() -> (r: String)
    ensures
        r@ == Seq::<char>::empty(),
{
    String::new()
}

/// The online speech-recognition model.
pub fn default_online_asr_model() -> (r: String)
    ensures
        r@ == "whisper-1"@,
{
    "whisper-1".to_owned()
}

/// The prefix of the hot-word vocabulary's name on the service.
pub fn default_asr_hotword_prefix() -> (r: String)
    ensures
        r@ == "bsrasr"@,
{
    "bsrasr".to_owned()
}

/// No hot words, with the usual prefix and nothing known of the service.
pub fn default_asr_hotwords() -> (r: AsrHotwordConfig)
    ensures
        r.prefix@ == "bsrasr"@,
        r.vocabulary_id@ == Seq::<char>::empty(),
        r.vocabulary_signature@ == Seq::<char>::empty(),
        r.target_model@ == Seq::<char>::empty(),
        r.words@.len() == 0,
{
    AsrHotwordConfig {
        prefix: default_asr_hotword_prefix(),
        vocabulary_id: String::new(),
        vocabulary_signature: String::new(),
        target_model: String::new(),
        words: Vec::new(),
    }
}

/// No OSS access key id by default.
pub fn default_oss_access_key_id() -> (r: String)
    ensures
        r@ == Seq::<char>::empty(),
{
    String::new()
}

/// No OSS secret by default.
pub fn default_oss_access_key_secret() -> (r: String)
    ensures
        r@ == Seq::<char>::empty(),
{
    String::new()
}

/// No OSS bucket by default.
pub fn default_oss_bucket() -> (r: String)
    ensures
        r@ == Seq::<char>::empty(),
{
    String::new()
}

/// The OSS endpoint.
pub fn default_oss_endpoint() -> (r: String)
    ensures
        r@ == "https://oss-cn-beijing.aliyuncs.com"@,
{
    "https://oss-cn-beijing.aliyuncs.com".to_owned()
}

/// Where uploaded audio goes in the bucket.
pub fn default_oss_object_prefix() -> (r: String)
    ensures
        r@ == "bili-shadowreplay/asr"@,
{
    "bili-shadowreplay/asr".to_owned()
}

/// The file-name format of clips.
pub fn default_clip_name_format() -> (r: String)
    ensures
        r@ == "[{room_id}][{note}][{live_id}][{title}][{created_at}].mp4"@,
{
    "[{room_id}][{note}][{live_id}][{title}][{created_at}].mp4".to_owned()
}

/// Nothing is made on its own by default.
pub fn default_auto_generate_config() -> (r: AutoGenerateConfig)
    ensures
        !r.enabled,
        !r.encode_danmu,
{
    AutoGenerateConfig { enabled: false, encode_danmu: false }
}

/// Seconds between two checks of a room's status.
pub fn default_status_check_interval() -> (r: u64)
    ensures
        r == 30,
{
    30
}

/// The language of speech is detected by default.
pub fn default_whisper_language() -> (r: String)
    ensures
        r@ == "auto"@,
{
    "auto".to_owned()
}

/// No webhook by default.
pub fn default_webhook_url() -> (r: String)
    ensures
        r@ == Seq::<char>::empty(),
{
    String::new()
}

/// No PowerLive key by default.
pub fn default_powerlive_key() -> (r: String)
    ensures
        r@ == Seq::<char>::empty(),
{
    String::new()
}

/// The native clip player is used by default.
pub fn default_use_native_clip_player() -> (r: bool)
    ensures
        r,
{
    true
}

/// Points the native clip player is moved down by in a window.
pub fn default_native_clip_player_windowed_offset() -> (r: i32)
    ensures
        r == 28,
{
    28
}

/// Seek-bar thumbnails are cached by default.
pub fn default_use_seekbar_thumbnail_cache() -> (r: bool)
    ensures
        r,
{
    true
}

/// Whether `char::is_alphanumeric` holds of a character.
pub uninterp spec fn unicode_alphanumeric(c: char) -> bool;

/// An ASCII letter or digit.
pub open spec fn is_ascii_alnum(c: char) -> bool {
    ('0' <= c <= '9') || ('a' <= c <= 'z') || ('A' <= c <= 'Z')
}

/// `char::is_alphanumeric`: the character is Unicode `Alphabetic` or
/// `Numeric`.  Of the ASCII characters, exactly the letters and digits are.
#[verifier::external_body]
fn is_alphanumeric(c: char) -> (b: bool)
    ensures
        b == unicode_alphanumeric(c),
        (c as u32) < 0x80 ==> (b <==> is_ascii_alnum(c)),
{
    c.is_alphanumeric()
}

/// The letters and digits of a text, in order.
pub open spec fn keep_alphanumeric(s: Seq<char>) -> Seq<char>
    decreases s.len(),
{
    if s.len() == 0 {
        s
    } else {
        let r = keep_alphanumeric(s.drop_last());
        if unicode_alphanumeric(s.last()) {
            r.push(s.last())
        } else {
            r
        }
    }
}

/// Keeps the letters and digits of a text.
pub fn keep_alphanumeric_chars(s: &str) -> (r: Vec<char>)
    ensures
        r@ == keep_alphanumeric(s@),
{
    let v = chars_of(s);
    let mut r: Vec<char> = Vec::new();
    let mut i: usize = 0;
    while i < v.len()
        invariant
            i <= v.len(),
            v@ == s@,
            r@ == keep_alphanumeric(v@.take(i as int)),
        decreases v.len() - i,
    {
        assert(v@.take(i + 1).drop_last() =~= v@.take(i as int));
        assert(v@.take(i + 1).last() == v@[i as int]);
        if is_alphanumeric(v[i]) {
            r.push(v[i]);
        }
        i = i + 1;
    }
    assert(v@.take(v.len() as int) =~= v@);
    r
}

/// The text with every `[]` removed, again and again until none is left.
pub open spec fn drop_empty_brackets(s: Seq<char>) -> Seq<char>
    decreases s.len(),
{
    if contains(s, seq!['[', ']']) {
        proof {
            crate::text::lemma_replace_all_len(s, seq!['[', ']'], seq![]);
        }
        drop_empty_brackets(replace_all(s, seq!['[', ']'], seq![]))
    } else {
        s
    }
}

/// Removes every `[]` until none is left.
pub fn drop_empty_brackets_chars(v: Vec<char>) -> (r: Vec<char>)
    ensures
        r@ == drop_empty_brackets(v@),
        !contains(r@, seq!['[', ']']),
{
    let pat: Vec<char> = vec!['[', ']'];
    let empty: Vec<char> = Vec::new();
    let mut v = v;
    let ghost orig = v@;
    assert(pat@ =~= seq!['[', ']']);
    while contains_exec(&v, &pat)
        invariant
            pat@ == seq!['[', ']'],
            empty@ == Seq::<char>::empty(),
            drop_empty_brackets(v@) == drop_empty_brackets(orig),
        decreases v.len(),
    {
        proof {
            crate::text::lemma_replace_all_len(v@, pat@, empty@);
        }
        v = replace_all_chars(&v, &pat, &empty);
    }
    v
}

/// What the placeholders of a clip-name format stand for.  `x` and `y` are
/// the first range's start and the last range's end, `created_at` the time
/// of making and `length` the total length, each already written out.
pub struct ClipNameFields {
    pub title: String,
    pub platform: String,
    pub room_id: String,
    pub live_id: String,
    pub note: String,
    pub x: String,
    pub y: String,
    pub created_at: String,
    pub length: String,
}

/// A clip-name format with its placeholders filled in, in this order:
/// `{title}` (the letters and digits of the title), `{platform}`,
/// `{room_id}`, `{live_id}`, `{note}`, `{x}`, `{y}`, `{created_at}`,
/// `{length}`; then every `[]` left by an empty value removed.
pub open spec fn fill_clip_name_spec(format: Seq<char>, f: ClipNameFields) -> Seq<char> {
    let s = replace_all(format, "{title}"@, keep_alphanumeric(f.title@));
    let s = replace_all(s, "{platform}"@, f.platform@);
    let s = replace_all(s, "{room_id}"@, f.room_id@);
    let s = replace_all(s, "{live_id}"@, f.live_id@);
    let s = replace_all(s, "{note}"@, f.note@);
    let s = replace_all(s, "{x}"@, f.x@);
    let s = replace_all(s, "{y}"@, f.y@);
    let s = replace_all(s, "{created_at}"@, f.created_at@);
    let s = replace_all(s, "{length}"@, f.length@);
    drop_empty_brackets(s)
}

fn replace_placeholder(v: &Vec<char>, placeholder: &str, value: &[char]) -> (r: Vec<char>)
    requires
        placeholder@.len() > 0,
    ensures
        r@ == replace_all(v@, placeholder@, value@),
{
    replace_all_chars(v, &chars_of(placeholder), value)
}

/// Fills in a clip-name format.
pub fn fill_clip_name(format: &str, fields: &ClipNameFields) -> (r: String)
    ensures
        r@ == fill_clip_name_spec(format@, *fields),
        !contains(r@, seq!['[', ']']),
{
    proof {
        reveal_strlit("{title}");
        reveal_strlit("{platform}");
        reveal_strlit("{room_id}");
        reveal_strlit("{live_id}");
        reveal_strlit("{note}");
        reveal_strlit("{x}");
        reveal_strlit("{y}");
        reveal_strlit("{created_at}");
        reveal_strlit("{length}");
    }
    let v = chars_of(format);
    let v = replace_placeholder(&v, "{title}", &keep_alphanumeric_chars(fields.title.as_str()));
    let v = replace_placeholder(&v, "{platform}", &chars_of(fields.platform.as_str()));
    let v = replace_placeholder(&v, "{room_id}", &chars_of(fields.room_id.as_str()));
    let v = replace_placeholder(&v, "{live_id}", &chars_of(fields.live_id.as_str()));
    let v = replace_placeholder(&v, "{note}", &chars_of(fields.note.as_str()));
    let v = replace_placeholder(&v, "{x}", &chars_of(fields.x.as_str()));
    let v = replace_placeholder(&v, "{y}", &chars_of(fields.y.as_str()));
    let v = replace_placeholder(&v, "{created_at}", &chars_of(fields.created_at.as_str()));
    let v = replace_placeholder(&v, "{length}", &chars_of(fields.length.as_str()));
    let v = drop_empty_brackets_chars(v);
    string_from_chars(&v)
}

/// A character that file names may not hold: a path separator, one of
/// `?<>:*|"`, or a control character (U+0000 to U+001F, U+0080 to U+009F).
pub open spec fn filename_forbidden(c: char) -> bool {
    let x = c as u32;
    ||| c == '/' || c == '?' || c == '<' || c == '>' || c == '\\' || c == ':' || c == '*' || c == '|'
        || c == '"'
    ||| x <= 0x1f
    ||| 0x80 <= x <= 0x9f
}

/// A name with every character that file names may not hold removed.
pub open spec fn drop_forbidden(s: Seq<char>) -> Seq<char>
    decreases s.len(),
{
    if s.len() == 0 {
        s
    } else if filename_forbidden(s.last()) {
        drop_forbidden(s.drop_last())
    } else {
        drop_forbidden(s.drop_last()).push(s.last())
    }
}

/// A name made only of dots (`.`, `..`, ...).
pub open spec fn all_dots(s: Seq<char>) -> bool {
    s.len() > 0 && forall|i: int| 0 <= i < s.len() ==> s[i] == '.'
}

/// `c` is the lower-case ASCII letter `l` in either case.
pub open spec fn ascii_ci(c: char, l: char) -> bool {
    c == l || (c as u32) + 32 == (l as u32)
}

/// A Windows device name (con, prn, aux, nul, com0-9, lpt0-9, in any case),
/// alone or followed by `.` and anything.
pub open spec fn windows_reserved(s: Seq<char>) -> bool {
    let three = s.len() >= 3 && (
        (ascii_ci(s[0], 'c') && ascii_ci(s[1], 'o') && ascii_ci(s[2], 'n'))
        || (ascii_ci(s[0], 'p') && ascii_ci(s[1], 'r') && ascii_ci(s[2], 'n'))
        || (ascii_ci(s[0], 'a') && ascii_ci(s[1], 'u') && ascii_ci(s[2], 'x'))
        || (ascii_ci(s[0], 'n') && ascii_ci(s[1], 'u') && ascii_ci(s[2], 'l')));
    let four = s.len() >= 4 && ('0' <= s[3] <= '9') && (
        (ascii_ci(s[0], 'c') && ascii_ci(s[1], 'o') && ascii_ci(s[2], 'm'))
        || (ascii_ci(s[0], 'l') && ascii_ci(s[1], 'p') && ascii_ci(s[2], 't')));
    (three && (s.len() == 3 || s[3] == '.')) || (four && (s.len() == 4 || s[4] == '.'))
}

/// A name without the dots and spaces at its end.
pub open spec fn strip_dots_spaces(s: Seq<char>) -> Seq<char>
    decreases s.len(),
{
    if s.len() > 0 && (s.last() == '.' || s.last() == ' ') {
        strip_dots_spaces(s.drop_last())
    } else {
        s
    }
}

/// The longest start of a name that takes at most 255 bytes in UTF-8.
pub open spec fn cut_to_255_bytes(s: Seq<char>) -> Seq<char>
    decreases s.len(),
{
    if utf8_len(s) <= 255 || s.len() == 0 {
        s
    } else {
        cut_to_255_bytes(s.drop_last())
    }
}

/// What `sanitize_filename` makes of a name with nothing put in place of
/// what it removes: the characters file names may not hold are removed; a
/// name made only of dots becomes empty; with the Windows rules a device
/// name becomes empty and the dots and spaces at the end are removed; the
/// name is then cut to 255 bytes, on a character boundary.
pub open spec fn sanitized_filename(name: Seq<char>, windows: bool) -> Seq<char> {
    let a = drop_forbidden(name);
    let b = if all_dots(a) {
        seq![]
    } else {
        a
    };
    let c = if windows {
        strip_dots_spaces(
            if windows_reserved(b) {
                seq![]
            } else {
                b
            },
        )
    } else {
        b
    };
    cut_to_255_bytes(c)
}

proof fn lemma_drop_forbidden(s: Seq<char>)
    ensures
        forall|i: int| 0 <= i < drop_forbidden(s).len() ==> !filename_forbidden(#[trigger] drop_forbidden(s)[i]),
    decreases s.len(),
{
    if s.len() > 0 {
        lemma_drop_forbidden(s.drop_last());
        let d = drop_forbidden(s.drop_last());
        if !filename_forbidden(s.last()) {
            assert forall|i: int| 0 <= i < d.push(s.last()).len() implies !filename_forbidden(
                #[trigger] d.push(s.last())[i],
            ) by {
                if i < d.len() {
                    assert(d.push(s.last())[i] == d[i]);
                }
            }
        }
    }
}

proof fn lemma_strip_dots_spaces(s: Seq<char>)
    ensures
        strip_dots_spaces(s) == s.take(strip_dots_spaces(s).len() as int),
        strip_dots_spaces(s).len() <= s.len(),
    decreases s.len(),
{
    if s.len() > 0 && (s.last() == '.' || s.last() == ' ') {
        lemma_strip_dots_spaces(s.drop_last());
        assert(s.drop_last().take(strip_dots_spaces(s).len() as int) =~= s.take(strip_dots_spaces(s).len() as int));
    } else {
        assert(s.take(s.len() as int) =~= s);
    }
}

proof fn lemma_cut_to_255_bytes(s: Seq<char>)
    ensures
        cut_to_255_bytes(s) == s.take(cut_to_255_bytes(s).len() as int),
        cut_to_255_bytes(s).len() <= s.len(),
        utf8_len(cut_to_255_bytes(s)) <= 255,
    decreases s.len(),
{
    if utf8_len(s) <= 255 || s.len() == 0 {
        assert(s.take(s.len() as int) =~= s);
    } else {
        lemma_cut_to_255_bytes(s.drop_last());
        assert(s.drop_last().take(cut_to_255_bytes(s).len() as int) =~= s.take(cut_to_255_bytes(s).len() as int));
    }
}

/// A sanitized name holds none of the characters that file names may not
/// hold and takes at most 255 bytes.
pub proof fn lemma_sanitized_filename_clean(name: Seq<char>, windows: bool)
    ensures
        forall|i: int|
            0 <= i < sanitized_filename(name, windows).len() ==> !filename_forbidden(
                #[trigger] sanitized_filename(name, windows)[i],
            ),
        utf8_len(sanitized_filename(name, windows)) <= 255,
{
    let a = drop_forbidden(name);
    lemma_drop_forbidden(name);
    let b = if all_dots(a) {
        seq![]
    } else {
        a
    };
    assert(forall|i: int| 0 <= i < b.len() ==> !filename_forbidden(#[trigger] b[i]));
    let c = if windows {
        let d = if windows_reserved(b) {
            seq![]
        } else {
            b
        };
        lemma_strip_dots_spaces(d);
        assert(forall|i: int| 0 <= i < strip_dots_spaces(d).len() ==> strip_dots_spaces(d)[i] == d[i]);
        strip_dots_spaces(d)
    } else {
        b
    };
    assert(forall|i: int| 0 <= i < c.len() ==> !filename_forbidden(#[trigger] c[i]));
    lemma_cut_to_255_bytes(c);
    assert(forall|i: int| 0 <= i < cut_to_255_bytes(c).len() ==> cut_to_255_bytes(c)[i] == c[i]);
}

/// `sanitize_filename::sanitize_with_options` with nothing put in place of
/// what is removed and names cut to 255 bytes (the options of `sanitize`,
/// whose `windows` is `cfg!(windows)`): the name as
/// [`sanitized_filename`] states it.
#[verifier::external_body]
fn sanitize_file_name(name: &str, windows: bool) -> (r: String)
    ensures
        r@ == sanitized_filename(name@, windows),
{
    sanitize_filename::sanitize_with_options(
        name,
        sanitize_filename::Options { windows, truncate: true, replacement: "" },
    )
}

/// The path of a new clip: under the output directory, in a directory for
/// the platform and one for the room, a file named by the filled-in format;
/// each of the three names made safe for the file system.
pub open spec fn clip_path_spec(output: Seq<char>, format: Seq<char>, f: ClipNameFields, windows: bool) -> Seq<char> {
    join_spec(
        join_spec(
            join_spec(output, sanitized_filename(f.platform@, windows)),
            sanitized_filename(f.room_id@, windows),
        ),
        sanitized_filename(fill_clip_name_spec(format, f), windows),
    )
}

/// The path of a new clip (`windows` chooses the file-name rules of
/// Windows).
pub fn generate_clip_name(output: &str, format: &str, fields: &ClipNameFields, windows: bool) -> (r: String)
    ensures
        r@ == clip_path_spec(output@, format@, *fields, windows),
{
    let name = fill_clip_name(format, fields);
    let file = sanitize_file_name(name.as_str(), windows);
    let platform = sanitize_file_name(fields.platform.as_str(), windows);
    let room = sanitize_file_name(fields.room_id.as_str(), windows);
    let dir = path_join(&path_join(&chars_of(output), &chars_of(platform.as_str())), &chars_of(room.as_str()));
    string_from_chars(&path_join(&dir, &chars_of(file.as_str())))
}

/// The shortest interval between two status checks, in seconds.
pub const MIN_STATUS_CHECK_INTERVAL: u64 = 10;

/// The status check interval that is kept: at least ten seconds.
pub fn effective_status_check_interval(interval: u64) -> (r: u64)
    ensures
        r == (if interval < MIN_STATUS_CHECK_INTERVAL {
            MIN_STATUS_CHECK_INTERVAL
        } else {
            interval
        }),
{
    if interval < MIN_STATUS_CHECK_INTERVAL {
        MIN_STATUS_CHECK_INTERVAL
    } else {
        interval
    }
}

/// The offset of the native clip player that is kept: within -200 to 200.
pub fn clamp_windowed_offset(offset: i32) -> (r: i32)
    ensures
        r == (if offset < -200 {
            -200i32
        } else if offset > 200 {
            200i32
        } else {
            offset
        }),
{
    if offset < -200 {
        -200
    } else if offset > 200 {
        200
    } else {
        offset
    }
}

/// Whether a directory setting changes from `old` to `new`: `Ok(false)` when
/// it is the same text, refused with `refusal` when the new directory lies
/// under the old one (`Path::starts_with`), else `Ok(true)`.
pub open spec fn directory_change_spec(old: Seq<char>, new: Seq<char>, refusal: Seq<char>) -> Result<bool, Seq<char>> {
    if old == new {
        Ok(false)
    } else if comps_prefix(new, old) {
        Err(refusal)
    } else {
        Ok(true)
    }
}

fn directory_change(old: &str, new: &str, refusal: &str) -> (r: Result<bool, String>)
    ensures
        match r {
            Ok(b) => directory_change_spec(old@, new@, refusal@) == Ok::<bool, Seq<char>>(b),
            Err(e) => directory_change_spec(old@, new@, refusal@) == Err::<bool, Seq<char>>(e@),
        },
{
    if crate::text::str_eq(old, new) {
        Ok(false)
    } else if path_starts_with(new, old) {
        Err(refusal.to_owned())
    } else {
        Ok(true)
    }
}

/// Whether the cache directory moves from `old` to `new`.
pub fn check_cache_path_change(old: &str, new: &str) -> (r: Result<bool, String>)
    ensures
        match r {
            Ok(b) => directory_change_spec(old@, new@, "New cache path cannot be under old cache path"@)
                == Ok::<bool, Seq<char>>(b),
            Err(e) => directory_change_spec(old@, new@, "New cache path cannot be under old cache path"@)
                == Err::<bool, Seq<char>>(e@),
        },
{
    directory_change(old, new, "New cache path cannot be under old cache path")
}

/// Whether the output directory moves from `old` to `new`.
pub fn check_output_path_change(old: &str, new: &str) -> (r: Result<bool, String>)
    ensures
        match r {
            Ok(b) => directory_change_spec(old@, new@, "New output path cannot be under old output path"@)
                == Ok::<bool, Seq<char>>(b),
            Err(e) => directory_change_spec(old@, new@, "New output path cannot be under old output path"@)
                == Err::<bool, Seq<char>>(e@),
        },
{
    directory_change(old, new, "New output path cannot be under old output path")
}

/// The entries of the old directory that move: all but the new directory
/// itself, in order.
pub open spec fn entries_to_move_spec(entries: Seq<Seq<char>>, new_dir: Seq<char>) -> Seq<Seq<char>>
    decreases entries.len(),
{
    if entries.len() == 0 {
        seq![]
    } else {
        let r = entries_to_move_spec(entries.drop_last(), new_dir);
        if same_path(entries.last(), new_dir) {
            r
        } else {
            r.push(entries.last())
        }
    }
}

/// Leaves the new directory out of the entries to move.
pub fn entries_to_move(entries: &Vec<String>, new_dir: &str) -> (r: Vec<String>)
    ensures
        r@.map_values(|x: String| x@) == entries_to_move_spec(entries@.map_values(|x: String| x@), new_dir@),
{
    let ghost ev = entries@.map_values(|x: String| x@);
    let mut r: Vec<String> = Vec::new();
    let mut i: usize = 0;
    while i < entries.len()
        invariant
            i <= entries.len(),
            ev == entries@.map_values(|x: String| x@),
            r@.map_values(|x: String| x@) == entries_to_move_spec(ev.take(i as int), new_dir@),
        decreases entries.len() - i,
    {
        assert(ev.take(i + 1).drop_last() =~= ev.take(i as int));
        assert(ev.take(i + 1).last() == entries@[i as int]@);
        if !paths_equal(entries[i].as_str(), new_dir) {
            r.push(entries[i].clone());
            assert(r@.map_values(|x: String| x@) =~= r@.drop_last().map_values(|x: String| x@).push(
                entries@[i as int]@,
            ));
        }
        i = i + 1;
    }
    assert(ev.take(entries.len() as int) =~= ev);
    r
}

} // verus!
