//! File transcription: the cache of submitted tasks kept beside the audio,
//! the file names around it, and the tokens that the service's word lists
//! give.
use vstd::prelude::*;

use crate::asr::{dashscope_api_base, dashscope_api_base_spec, filetrans_enable_words};
use crate::media::{starts_with_ascii_ci, starts_with_ascii_ci_exec};
use crate::paths::{extension_spec, file_name_spec, path_extension, path_file_name, path_with_file_name, with_file_name_spec};
use crate::reflow::{keep_token, tokens_view, TimedSubtitleToken, TokenView};
use crate::text::{
    chars_of, concat_chars, extend_chars, is_blank, str_eq, string_from_chars, strip_trailing, strip_trailing_chars, trim,
    trim_chars,
};

verus! {

/// A file transcription task that was submitted, and what it was for.
#[derive(Clone, Debug)]
pub struct FiletransTaskCacheEntry {
    pub model: String,
    pub language_hint: String,
    pub vocabulary_id: String,
    pub enable_words: bool,
    pub dashscope_base: String,
    pub oss_bucket: String,
    pub oss_object_key: String,
    pub audio_fingerprint: String,
    pub task_id: String,
    pub updated_at: i64,
}

/// The value of a cache entry.
pub struct CacheEntryView {
    pub model: Seq<char>,
    pub language_hint: Seq<char>,
    pub vocabulary_id: Seq<char>,
    pub enable_words: bool,
    pub dashscope_base: Seq<char>,
    pub oss_bucket: Seq<char>,
    pub oss_object_key: Seq<char>,
    pub audio_fingerprint: Seq<char>,
    pub task_id: Seq<char>,
    pub updated_at: i64,
}

impl FiletransTaskCacheEntry {
    /// A copy of the entry.
    pub fn duplicate(&self) -> (r: FiletransTaskCacheEntry)
        ensures
            r@ == self@,
    {
        FiletransTaskCacheEntry {
            model: self.model.clone(),
            language_hint: self.language_hint.clone(),
            vocabulary_id: self.vocabulary_id.clone(),
            enable_words: self.enable_words,
            dashscope_base: self.dashscope_base.clone(),
            oss_bucket: self.oss_bucket.clone(),
            oss_object_key: self.oss_object_key.clone(),
            audio_fingerprint: self.audio_fingerprint.clone(),
            task_id: self.task_id.clone(),
            updated_at: self.updated_at,
        }
    }
}

impl View for FiletransTaskCacheEntry {
    type V = CacheEntryView;

    open spec fn view(&self) -> CacheEntryView {
        CacheEntryView {
            model: self.model@,
            language_hint: self.language_hint@,
            vocabulary_id: self.vocabulary_id@,
            enable_words: self.enable_words,
            dashscope_base: self.dashscope_base@,
            oss_bucket: self.oss_bucket@,
            oss_object_key: self.oss_object_key@,
            audio_fingerprint: self.audio_fingerprint@,
            task_id: self.task_id@,
            updated_at: self.updated_at,
        }
    }
}

/// The values of a list of cache entries.
pub open spec fn cache_view(es: Seq<FiletransTaskCacheEntry>) -> Seq<CacheEntryView> {
    es.map_values(|e: FiletransTaskCacheEntry| e@)
}

/// What a cached task is looked up by.
pub struct CacheKey {
    pub model: Seq<char>,
    pub language_hint: Seq<char>,
    pub vocabulary_id: Seq<char>,
    pub enable_words: bool,
    pub dashscope_base: Seq<char>,
    pub audio_fingerprint: Seq<char>,
}

/// The key of a request: the vocabulary id trimmed (empty when there is
/// none), word timing as the model has it, the REST base of the endpoint.
pub open spec fn request_key(
    api_url: Seq<char>,
    model: Seq<char>,
    language_hint: Seq<char>,
    vocabulary_id: Option<Seq<char>>,
    audio_fingerprint: Seq<char>,
) -> CacheKey {
    CacheKey {
        model,
        language_hint,
        vocabulary_id: match vocabulary_id {
            Some(v) => trim(v),
            None => seq![],
        },
        enable_words: model == "qwen3-asr-flash-filetrans"@,
        dashscope_base: dashscope_api_base_spec(api_url),
        audio_fingerprint,
    }
}

/// The key of a cache entry.
pub open spec fn entry_key(e: CacheEntryView) -> CacheKey {
    CacheKey {
        model: e.model,
        language_hint: e.language_hint,
        vocabulary_id: e.vocabulary_id,
        enable_words: e.enable_words,
        dashscope_base: e.dashscope_base,
        audio_fingerprint: e.audio_fingerprint,
    }
}

/// The entry is one for the key.
pub open spec fn has_key(e: CacheEntryView, k: CacheKey) -> bool {
    &&& e.model == k.model
    &&& e.language_hint == k.language_hint
    &&& e.vocabulary_id == k.vocabulary_id
    &&& e.enable_words == k.enable_words
    &&& e.dashscope_base == k.dashscope_base
    &&& e.audio_fingerprint == k.audio_fingerprint
}

/// The first entry with the key, if any.
pub open spec fn find_entry_spec(es: Seq<CacheEntryView>, k: CacheKey) -> Option<int> {
    if exists|i: int| 0 <= i < es.len() && has_key(#[trigger] es[i], k) {
        Some(
            choose|i: int|
                0 <= i < es.len() && has_key(#[trigger] es[i], k) && forall|j: int|
                    0 <= j < i ==> !has_key(#[trigger] es[j], k),
        )
    } else {
        None
    }
}

fn key_matches(
    e: &FiletransTaskCacheEntry,
    model: &str,
    language_hint: &str,
    vocabulary_id: &str,
    enable_words: bool,
    dashscope_base: &str,
    audio_fingerprint: &str,
) -> (b: bool)
    ensures
        b == has_key(e@, CacheKey {
            model: model@,
            language_hint: language_hint@,
            vocabulary_id: vocabulary_id@,
            enable_words,
            dashscope_base: dashscope_base@,
            audio_fingerprint: audio_fingerprint@,
        }),
{
    str_eq(e.model.as_str(), model) && str_eq(e.language_hint.as_str(), language_hint) && str_eq(
        e.vocabulary_id.as_str(),
        vocabulary_id,
    ) && e.enable_words == enable_words && str_eq(e.dashscope_base.as_str(), dashscope_base)
        && str_eq(e.audio_fingerprint.as_str(), audio_fingerprint)
}

fn first_with_key(
    entries: &[FiletransTaskCacheEntry],
    model: &str,
    language_hint: &str,
    vocabulary_id: &str,
    enable_words: bool,
    dashscope_base: &str,
    audio_fingerprint: &str,
) -> (r: Option<usize>)
    ensures
        ({
            let k = CacheKey {
                model: model@,
                language_hint: language_hint@,
                vocabulary_id: vocabulary_id@,
                enable_words,
                dashscope_base: dashscope_base@,
                audio_fingerprint: audio_fingerprint@,
            };
            &&& r matches Some(i) ==> i < entries@.len() && find_entry_spec(cache_view(entries@), k)
                == Some(i as int)
            &&& r is None ==> find_entry_spec(cache_view(entries@), k) is None
        }),
{
    let ghost k = CacheKey {
        model: model@,
        language_hint: language_hint@,
        vocabulary_id: vocabulary_id@,
        enable_words,
        dashscope_base: dashscope_base@,
        audio_fingerprint: audio_fingerprint@,
    };
    let ghost cv = cache_view(entries@);
    let mut i: usize = 0;
    while i < entries.len()
        invariant
            i <= entries.len(),
            cv == cache_view(entries@),
            k == (CacheKey {
                model: model@,
                language_hint: language_hint@,
                vocabulary_id: vocabulary_id@,
                enable_words,
                dashscope_base: dashscope_base@,
                audio_fingerprint: audio_fingerprint@,
            }),
            forall|j: int| 0 <= j < i ==> !has_key(#[trigger] cv[j], k),
        decreases entries.len() - i,
    {
        assert(cv[i as int] == entries@[i as int]@);
        let m = key_matches(
            &entries[i],
            model,
            language_hint,
            vocabulary_id,
            enable_words,
            dashscope_base,
            audio_fingerprint,
        );
        assert(m == (has_key(entries@[i as int]@, k)));
        if m {
            assert(has_key(cv[i as int], k));
            let ghost c = choose|c: int|
                0 <= c < cv.len() && has_key(#[trigger] cv[c], k) && forall|j: int|
                    0 <= j < c ==> !has_key(#[trigger] cv[j], k);
            assert(c == i) by {
                if c < i {
                    assert(!has_key(cv[c], k));
                } else if c > i {
                    assert(!has_key(cv[i as int], k));
                }
            }
            return Some(i);
        }
        i = i + 1;
    }
    None
}

/// The task cached for a request, if any: the first entry with the same
/// model, language hint, vocabulary, word timing, REST base and audio.
pub fn find_cached_filetrans_task<'a>(
    entries: &'a [FiletransTaskCacheEntry],
    api_url: &str,
    model: &str,
    language_hint: &str,
    vocabulary_id: Option<&str>,
    audio_fingerprint: &str,
) -> (r: Option<&'a FiletransTaskCacheEntry>)
    ensures
        ({
            let k = request_key(
                api_url@,
                model@,
                language_hint@,
                match vocabulary_id {
                    Some(v) => Some(v@),
                    None => None,
                },
                audio_fingerprint@,
            );
            match find_entry_spec(cache_view(entries@), k) {
                Some(i) => r == Some(&entries@[i]),
                None => r is None,
            }
        }),
{
    let base = dashscope_api_base(api_url);
    let vocab = match vocabulary_id {
        Some(v) => string_from_chars(&trim_chars(&chars_of(v))),
        None => String::new(),
    };
    let enable = filetrans_enable_words(model);
    let ghost k = request_key(
        api_url@,
        model@,
        language_hint@,
        match vocabulary_id {
            Some(v) => Some(v@),
            None => None,
        },
        audio_fingerprint@,
    );
    assert(k == CacheKey {
        model: model@,
        language_hint: language_hint@,
        vocabulary_id: vocab@,
        enable_words: enable,
        dashscope_base: base@,
        audio_fingerprint: audio_fingerprint@,
    });
    let found = first_with_key(
        entries,
        model,
        language_hint,
        vocab.as_str(),
        enable,
        base.as_str(),
        audio_fingerprint,
    );
    match found {
        Some(i) => Some(&entries[i]),
        None => None,
    }
}

/// Where the uploaded audio of a task was put.
#[derive(Debug)]
pub struct OssUploadResult {
    pub file_url: String,
    pub object_key: String,
    pub audio_fingerprint: String,
}

/// Where an audio file goes in the service's temporary storage: the name it
/// is uploaded under (its file name, or `audio.mp3`), its object key in the
/// upload directory, and the `oss://` address of that key.
pub open spec fn oss_upload_target_spec(upload_dir: Seq<char>, audio_path: Seq<char>) -> (Seq<char>, Seq<char>, Seq<char>) {
    let name = match file_name_spec(audio_path) {
        Some(n) => n,
        None => "audio.mp3"@,
    };
    let key = strip_trailing(upload_dir, '/') + "/"@ + name;
    (name, key, "oss://"@ + key)
}

/// The upload name, object key and address of an audio file.
pub fn oss_upload_target(upload_dir: &str, audio_path: &str) -> (r: (String, String, String))
    ensures
        (r.0@, r.1@, r.2@) == oss_upload_target_spec(upload_dir@, audio_path@),
{
    let name = match path_file_name(&chars_of(audio_path)) {
        Some(n) => n,
        None => chars_of("audio.mp3"),
    };
    let mut key = strip_trailing_chars(&chars_of(upload_dir), '/');
    extend_chars(&mut key, &chars_of("/"));
    extend_chars(&mut key, &name);
    let mut url = chars_of("oss://");
    extend_chars(&mut url, &key);
    (string_from_chars(&name), string_from_chars(&key), string_from_chars(&url))
}

/// The cache entry of a task just submitted, made at `updated_at` (seconds
/// since the epoch): its key is that of the request, the bucket is the
/// service's temporary one.
pub fn filetrans_task_cache_entry(
    api_url: &str,
    model: &str,
    language_hint: &str,
    vocabulary_id: Option<&str>,
    upload: &OssUploadResult,
    task_id: String,
    updated_at: i64,
) -> (r: FiletransTaskCacheEntry)
    ensures
        entry_key(r@) == request_key(
            api_url@,
            model@,
            language_hint@,
            match vocabulary_id {
                Some(v) => Some(v@),
                None => None,
            },
            upload.audio_fingerprint@,
        ),
        r.oss_bucket@ == "dashscope-temporary"@,
        r.oss_object_key@ == upload.object_key@,
        r.task_id@ == task_id@,
        r.updated_at == updated_at,
{
    FiletransTaskCacheEntry {
        model: model.to_owned(),
        language_hint: language_hint.to_owned(),
        vocabulary_id: match vocabulary_id {
            Some(v) => string_from_chars(&trim_chars(&chars_of(v))),
            None => String::new(),
        },
        enable_words: filetrans_enable_words(model),
        dashscope_base: dashscope_api_base(api_url),
        oss_bucket: "dashscope-temporary".to_owned(),
        oss_object_key: upload.object_key.clone(),
        audio_fingerprint: upload.audio_fingerprint.clone(),
        task_id,
        updated_at,
    }
}

/// The entries whose key differs from `k`, in order.
pub open spec fn without_key(es: Seq<CacheEntryView>, k: CacheKey) -> Seq<CacheEntryView>
    decreases es.len(),
{
    if es.len() == 0 {
        seq![]
    } else if has_key(es.last(), k) {
        without_key(es.drop_last(), k)
    } else {
        without_key(es.drop_last(), k).push(es.last())
    }
}

/// The cache after remembering `e`: entries with the same key dropped, `e`
/// added at the end.
pub open spec fn remember_spec(es: Seq<CacheEntryView>, e: CacheEntryView) -> Seq<CacheEntryView> {
    without_key(es, entry_key(e)).push(e)
}

/// Remembers a submitted task, in place of any with the same key.
pub fn remember_filetrans_entry(entries: &mut Vec<FiletransTaskCacheEntry>, entry: FiletransTaskCacheEntry)
    ensures
        cache_view(final(entries)@) == remember_spec(cache_view(old(entries)@), entry@),
{
    let ghost ov = cache_view(entries@);
    let mut kept: Vec<FiletransTaskCacheEntry> = Vec::new();
    let mut i: usize = 0;
    while i < entries.len()
        invariant
            i <= entries.len(),
            entries@ == old(entries)@,
            ov == cache_view(entries@),
            cache_view(kept@) == without_key(ov.take(i as int), entry_key(entry@)),
        decreases entries.len() - i,
    {
        assert(ov.take(i + 1).drop_last() =~= ov.take(i as int));
        assert(ov.take(i + 1).last() == entries@[i as int]@);
        if !key_matches(
            &entries[i],
            entry.model.as_str(),
            entry.language_hint.as_str(),
            entry.vocabulary_id.as_str(),
            entry.enable_words,
            entry.dashscope_base.as_str(),
            entry.audio_fingerprint.as_str(),
        ) {
            kept.push(entries[i].duplicate());
            assert(cache_view(kept@) =~= cache_view(kept@.drop_last()).push(entries@[i as int]@));
        }
        i = i + 1;
    }
    assert(ov.take(entries.len() as int) =~= ov);
    kept.push(entry);
    assert(cache_view(kept@) =~= cache_view(kept@.drop_last()).push(entry@));
    *entries = kept;
}

/// No entry is left with the key that was taken out.
pub proof fn lemma_without_key(es: Seq<CacheEntryView>, k: CacheKey)
    ensures
        forall|i: int| 0 <= i < without_key(es, k).len() ==> !has_key(#[trigger] without_key(es, k)[i], k),
    decreases es.len(),
{
    if es.len() > 0 {
        lemma_without_key(es.drop_last(), k);
        let w = without_key(es, k);
        let w0 = without_key(es.drop_last(), k);
        if !has_key(es.last(), k) {
            assert(w == w0.push(es.last()));
            assert forall|i: int| 0 <= i < w.len() implies !has_key(#[trigger] w[i], k) by {
                if i < w0.len() {
                    assert(w[i] == w0[i]);
                }
            }
        }
    }
}

/// A task remembered for a request is what a later lookup for the same
/// request finds.
pub proof fn lemma_remember_then_find(es: Seq<CacheEntryView>, e: CacheEntryView)
    ensures
        find_entry_spec(remember_spec(es, e), entry_key(e)) == Some(
            (remember_spec(es, e).len() - 1) as int,
        ),
        remember_spec(es, e).last() == e,
{
    let r = remember_spec(es, e);
    let k = entry_key(e);
    lemma_without_key(es, k);
    let last = r.len() - 1;
    assert(has_key(r[last], k));
    let c = choose|c: int|
        0 <= c < r.len() && has_key(#[trigger] r[c], k) && forall|j: int|
            0 <= j < c ==> !has_key(#[trigger] r[j], k);
    if c < last {
        assert(r[c] == without_key(es, k)[c]);
    }
    assert(forall|j: int| 0 <= j < last ==> r[j] == without_key(es, k)[j]);
}

/// The file beside the audio that holds the task cache: the audio's file
/// name (or `audio`) followed by `.task-cache.json`.
pub open spec fn filetrans_task_cache_path_spec(audio_path: Seq<char>) -> Seq<char> {
    let name = match file_name_spec(audio_path) {
        Some(n) => n,
        None => "audio"@,
    };
    with_file_name_spec(audio_path, name + ".task-cache.json"@)
}

/// Where the task cache of an audio file is kept.
pub fn filetrans_task_cache_path(audio_path: &str) -> (r: String)
    ensures
        r@ == filetrans_task_cache_path_spec(audio_path@),
{
    let p = chars_of(audio_path);
    let name = match path_file_name(&p) {
        Some(n) => n,
        None => chars_of("audio"),
    };
    let file = concat_chars(&name, &chars_of(".task-cache.json"));
    string_from_chars(&path_with_file_name(&p, &file))
}

/// `s` equals the lower-case `t` when ASCII letters are lower-cased.  For the
/// extensions compared here this is also what comparing after Unicode
/// lower-casing (`to_lowercase`) gives: the only non-ASCII character that
/// lower-cases to an ASCII one is the Kelvin sign, to `k`.
pub open spec fn eq_ascii_ci(s: Seq<char>, t: Seq<char>) -> bool {
    s.len() == t.len() && starts_with_ascii_ci(s, t)
}

/// The MIME type of an audio file by its extension (`wav` when it has
/// none); unknown extensions count as `wav`.
pub open spec fn mime_type_spec(audio_path: Seq<char>) -> Seq<char> {
    let ext = match extension_spec(audio_path) {
        Some(e) => e,
        None => "wav"@,
    };
    if eq_ascii_ci(ext, "wav"@) {
        "audio/wav"@
    } else if eq_ascii_ci(ext, "mp3"@) {
        "audio/mpeg"@
    } else if eq_ascii_ci(ext, "m4a"@) {
        "audio/mp4"@
    } else if eq_ascii_ci(ext, "flac"@) {
        "audio/flac"@
    } else {
        "audio/wav"@
    }
}

pub(crate) fn eq_ascii_ci_exec(s: &[char], t: &str) -> (b: bool)
    ensures
        b == eq_ascii_ci(s@, t@),
{
    let tv = chars_of(t);
    s.len() == tv.len() && starts_with_ascii_ci_exec(s, &tv)
}

/// The MIME type to upload an audio file with.
pub fn mime_type_for_audio_path(audio_path: &str) -> (r: &'static str)
    ensures
        r@ == mime_type_spec(audio_path@),
{
    let ext = match path_extension(&chars_of(audio_path)) {
        Some(e) => e,
        None => chars_of("wav"),
    };
    if eq_ascii_ci_exec(&ext, "wav") {
        "audio/wav"
    } else if eq_ascii_ci_exec(&ext, "mp3") {
        "audio/mpeg"
    } else if eq_ascii_ci_exec(&ext, "m4a") {
        "audio/mp4"
    } else if eq_ascii_ci_exec(&ext, "flac") {
        "audio/flac"
    } else {
        "audio/wav"
    }
}

/// A word of a transcribed sentence, with its time span in milliseconds
/// and the punctuation that follows it.
#[derive(Debug)]
pub struct FileTranscriptionWord {
    pub begin_time: i64,
    pub end_time: i64,
    pub text: String,
    pub punctuation: Option<String>,
}

/// The token a word gives: its text followed by its punctuation.
pub open spec fn word_token(w: FileTranscriptionWord) -> TokenView {
    TokenView {
        begin_ms: w.begin_time,
        end_ms: w.end_time,
        text: w.text@ + match w.punctuation {
            Some(p) => p@,
            None => seq![],
        },
    }
}

/// The tokens that the words give, keeping those with visible text and a
/// positive span, in order.
pub open spec fn word_tokens_spec(ws: Seq<FileTranscriptionWord>) -> Seq<TokenView>
    decreases ws.len(),
{
    if ws.len() == 0 {
        seq![]
    } else {
        let r = word_tokens_spec(ws.drop_last());
        if keep_token(word_token(ws.last())) {
            r.push(word_token(ws.last()))
        } else {
            r
        }
    }
}

/// The timed tokens of a transcribed sentence's words (none without words).
pub fn timed_tokens_from_filetrans_words(words: Option<Vec<FileTranscriptionWord>>) -> (r: Vec<TimedSubtitleToken>)
    ensures
        tokens_view(r@) == match words {
            Some(ws) => word_tokens_spec(ws@),
            None => seq![],
        },
{
    let mut r: Vec<TimedSubtitleToken> = Vec::new();
    match words {
        None => {
            assert(tokens_view(r@) =~= Seq::<TokenView>::empty());
            r
        },
        Some(ws) => {
            let mut i: usize = 0;
            while i < ws.len()
                invariant
                    i <= ws.len(),
                    tokens_view(r@) == word_tokens_spec(ws@.take(i as int)),
                decreases ws.len() - i,
            {
                assert(ws@.take(i + 1).drop_last() =~= ws@.take(i as int));
                assert(ws@.take(i + 1).last() == ws@[i as int]);
                let w = &ws[i];
                let mut text = chars_of(w.text.as_str());
                match &w.punctuation {
                    Some(p) => extend_chars(&mut text, &chars_of(p.as_str())),
                    None => {},
                }
                assert(text@ =~= word_token(ws@[i as int]).text);
                if !is_blank(&text) && w.end_time > w.begin_time {
                    r.push(
                        TimedSubtitleToken {
                            begin_ms: w.begin_time,
                            end_ms: w.end_time,
                            text: string_from_chars(&text),
                        },
                    );
                    assert(tokens_view(r@) =~= tokens_view(r@.drop_last()).push(r@.last()@));
                }
                i = i + 1;
            }
            assert(ws@.take(ws.len() as int) =~= ws@);
            r
        },
    }
}

/// `std::hash::DefaultHasher` fed the path, then, when the file's metadata
/// could be read, its size, then, when its modification time could be
/// read as time since the epoch, the whole seconds and the nanoseconds,
/// printed as `{:016x}`.  Its documentation leaves the hash algorithm
/// unspecified (it may change between Rust releases), so nothing is stated
/// of the value but that it is 16 hex digits.
#[verifier::external_body]
fn default_hash_hex(path: &str, metadata: Option<(u64, Option<(u64, u32)>)>) -> (r: String)
    ensures
        r@.len() == 16,
{
    let mut hasher = std::hash::DefaultHasher::new();
    std::hash::Hash::hash(path, &mut hasher);
    if let Some((size, modified)) = metadata {
        std::hash::Hash::hash(&size, &mut hasher);
        if let Some((secs, nanos)) = modified {
            std::hash::Hash::hash(&secs, &mut hasher);
            std::hash::Hash::hash(&nanos, &mut hasher);
        }
    }
    format!("{:016x}", std::hash::Hasher::finish(&hasher))
}

/// The fingerprint that file transcription results are cached under: the
/// SHA-1 digest of the audio file's bytes as 40 lower-case hex digits when
/// they could be read (`bytes`), else a hash of its path and, as far as
/// they are known, its size and modification time, as 16 hex digits.
pub fn audio_file_fingerprint(
    bytes: Option<&[u8]>,
    path: &str,
    metadata: Option<(u64, Option<(u64, u32)>)>,
) -> (r: String)
    ensures
        match bytes {
            Some(b) => r@ == crate::hotwords::sha1_hex(b@) && r@.len() == 40,
            None => r@.len() == 16,
        },
{
    match bytes {
        Some(b) => crate::hotwords::sha1_hex_digest(b),
        None => default_hash_hex(path, metadata),
    }
}

} // verus!
