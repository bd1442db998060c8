//! Hot words of speech recognition: how the configured words and prefix are
//! normalized, the signature that tells whether the service's vocabulary is
//! current, and what a synchronisation asks of the service.
use vstd::prelude::*;

use sha1::Digest;

use crate::asr::{hotword_target_model, hotword_target_model_spec};
use crate::config::{is_ascii_alnum, AsrHotword, AsrHotwordConfig};
use crate::decimal::{nat_digits, u64_decimal};
use crate::media::{ascii_lower, ascii_lower_exec};
use crate::text::{chars_eq, chars_of, str_eq, string_from_chars, trim, trim_chars};

verus! {

/// The value of a hot word: text, weight, language.
pub open spec fn hotword_view(w: AsrHotword) -> (Seq<char>, u8, Seq<char>) {
    (w.text@, w.weight, w.lang@)
}

/// The values of a list of hot words.
pub open spec fn hotwords_view(ws: Seq<AsrHotword>) -> Seq<(Seq<char>, u8, Seq<char>)> {
    ws.map_values(|w: AsrHotword| hotword_view(w))
}

/// The value of the hot-word settings.
pub struct HotwordConfigView {
    pub prefix: Seq<char>,
    pub vocabulary_id: Seq<char>,
    pub vocabulary_signature: Seq<char>,
    pub target_model: Seq<char>,
    pub words: Seq<(Seq<char>, u8, Seq<char>)>,
}

impl View for AsrHotwordConfig {
    type V = HotwordConfigView;

    open spec fn view(&self) -> HotwordConfigView {
        HotwordConfigView {
            prefix: self.prefix@,
            vocabulary_id: self.vocabulary_id@,
            vocabulary_signature: self.vocabulary_signature@,
            target_model: self.target_model@,
            words: hotwords_view(self.words@),
        }
    }
}

/// The ASCII letters and digits of a text, lower-cased, in order.
pub open spec fn ascii_alnum_lower(s: Seq<char>) -> Seq<char>
    decreases s.len(),
{
    if s.len() == 0 {
        s
    } else {
        let r = ascii_alnum_lower(s.drop_last());
        if is_ascii_alnum(s.last()) {
            r.push(ascii_lower(s.last()))
        } else {
            r
        }
    }
}

/// The vocabulary prefix as the service takes it: at most ten lower-case
/// ASCII letters and digits of the configured one, or `bsrasr` when none is
/// left.
pub open spec fn normalize_hotword_prefix_spec(prefix: Seq<char>) -> Seq<char> {
    let n = ascii_alnum_lower(prefix);
    let n = if n.len() > 10 {
        n.take(10)
    } else {
        n
    };
    if n.len() == 0 {
        "bsrasr"@
    } else {
        n
    }
}

/// A normalized prefix is one to ten lower-case ASCII letters and digits.
pub proof fn lemma_normalized_prefix(prefix: Seq<char>)
    ensures
        1 <= normalize_hotword_prefix_spec(prefix).len() <= 10,
        forall|i: int|
            0 <= i < normalize_hotword_prefix_spec(prefix).len() ==> {
                let c = #[trigger] normalize_hotword_prefix_spec(prefix)[i];
                ('0' <= c <= '9') || ('a' <= c <= 'z')
            },
{
    lemma_ascii_alnum_lower(prefix);
    reveal_strlit("bsrasr");
}

proof fn lemma_ascii_alnum_lower(s: Seq<char>)
    ensures
        forall|i: int|
            0 <= i < ascii_alnum_lower(s).len() ==> {
                let c = #[trigger] ascii_alnum_lower(s)[i];
                ('0' <= c <= '9') || ('a' <= c <= 'z')
            },
    decreases s.len(),
{
    if s.len() > 0 {
        lemma_ascii_alnum_lower(s.drop_last());
        let r = ascii_alnum_lower(s.drop_last());
        if is_ascii_alnum(s.last()) {
            let c = s.last();
            assert(ascii_alnum_lower(s) == r.push(ascii_lower(c)));
            assert forall|i: int| 0 <= i < r.push(ascii_lower(c)).len() implies {
                let x = #[trigger] r.push(ascii_lower(c))[i];
                ('0' <= x <= '9') || ('a' <= x <= 'z')
            } by {
                if i < r.len() {
                    assert(r.push(ascii_lower(c))[i] == r[i]);
                } else if 'A' <= c <= 'Z' {
                    assert(65 <= (c as u32) <= 90);
                    assert('a' <= ascii_lower(c) <= 'z');
                }
            }
        }
    }
}

/// Normalizes a vocabulary prefix.
pub fn normalize_hotword_prefix(prefix: &str) -> (r: String)
    ensures
        r@ == normalize_hotword_prefix_spec(prefix@),
{
    let v = chars_of(prefix);
    let mut out: Vec<char> = Vec::new();
    let mut i: usize = 0;
    while i < v.len()
        invariant
            i <= v.len(),
            v@ == prefix@,
            out@ == ascii_alnum_lower(v@.take(i as int)),
        decreases v.len() - i,
    {
        assert(v@.take(i + 1).drop_last() =~= v@.take(i as int));
        assert(v@.take(i + 1).last() == v@[i as int]);
        let c = v[i];
        if ('0' <= c && c <= '9') || ('a' <= c && c <= 'z') || ('A' <= c && c <= 'Z') {
            out.push(ascii_lower_exec(c));
        }
        i = i + 1;
    }
    assert(v@.take(v.len() as int) =~= v@);
    if out.len() > 10 {
        out.truncate(10);
    }
    if out.len() == 0 {
        "bsrasr".to_owned()
    } else {
        string_from_chars(&out)
    }
}

/// A hot word as the service takes it: the text trimmed, the weight brought
/// into 1 to 5, the language trimmed and empty for `auto`; a word whose text
/// is blank is dropped.
pub open spec fn normalize_hotword_spec(w: (Seq<char>, u8, Seq<char>)) -> Option<(Seq<char>, u8, Seq<char>)> {
    let text = trim(w.0);
    let lang = trim(w.2);
    if text.len() == 0 {
        None
    } else {
        Some(
            (
                text,
                if w.1 < 1 {
                    1u8
                } else if w.1 > 5 {
                    5u8
                } else {
                    w.1
                },
                if lang.len() == 0 || lang == "auto"@ {
                    Seq::<char>::empty()
                } else {
                    lang
                },
            ),
        )
    }
}

/// The normalized hot words, in order.
pub open spec fn normalize_hotwords_spec(ws: Seq<(Seq<char>, u8, Seq<char>)>) -> Seq<(Seq<char>, u8, Seq<char>)>
    decreases ws.len(),
{
    if ws.len() == 0 {
        seq![]
    } else {
        let r = normalize_hotwords_spec(ws.drop_last());
        match normalize_hotword_spec(ws.last()) {
            Some(w) => r.push(w),
            None => r,
        }
    }
}

/// Every normalized hot word has visible text without whitespace around it,
/// a weight from 1 to 5, and a language that is neither blank nor `auto`
/// unless empty.
pub proof fn lemma_normalized_hotwords(ws: Seq<(Seq<char>, u8, Seq<char>)>)
    ensures
        forall|i: int|
            0 <= i < normalize_hotwords_spec(ws).len() ==> {
                let w = #[trigger] normalize_hotwords_spec(ws)[i];
                &&& w.0 == trim(w.0)
                &&& w.0.len() > 0
                &&& 1 <= w.1 <= 5
                &&& w.2 != "auto"@
                &&& w.2 == trim(w.2)
            },
    decreases ws.len(),
{
    if ws.len() > 0 {
        lemma_normalized_hotwords(ws.drop_last());
        let r = normalize_hotwords_spec(ws.drop_last());
        match normalize_hotword_spec(ws.last()) {
            Some(w) => {
                crate::text::lemma_trim_twice(ws.last().0);
                crate::text::lemma_trim_twice(ws.last().2);
                assert(normalize_hotwords_spec(ws) == r.push(w));
                assert forall|i: int| 0 <= i < r.push(w).len() implies {
                    let x = #[trigger] r.push(w)[i];
                    &&& x.0 == trim(x.0)
                    &&& x.0.len() > 0
                    &&& 1 <= x.1 <= 5
                    &&& x.2 != "auto"@
                    &&& x.2 == trim(x.2)
                } by {
                    if i < r.len() {
                        assert(r.push(w)[i] == r[i]);
                    } else {
                        if trim(ws.last().2).len() == 0 || trim(ws.last().2) == "auto"@ {
                            assert(w.2 =~= Seq::<char>::empty());
                            assert(trim(Seq::<char>::empty()) =~= Seq::<char>::empty());
                            assert("auto"@.len() == 4) by {
                                reveal_strlit("auto");
                            }
                        }
                    }
                }
            },
            None => {},
        }
    }
}

/// Normalizes the configured hot words.
pub fn normalize_asr_hotwords(words: &[AsrHotword]) -> (r: Vec<AsrHotword>)
    ensures
        hotwords_view(r@) == normalize_hotwords_spec(hotwords_view(words@)),
{
    let ghost wv = hotwords_view(words@);
    let auto = chars_of("auto");
    let mut r: Vec<AsrHotword> = Vec::new();
    let mut i: usize = 0;
    while i < words.len()
        invariant
            i <= words.len(),
            wv == hotwords_view(words@),
            auto@ == "auto"@,
            hotwords_view(r@) == normalize_hotwords_spec(wv.take(i as int)),
        decreases words.len() - i,
    {
        assert(wv.take(i + 1).drop_last() =~= wv.take(i as int));
        assert(wv.take(i + 1).last() == hotword_view(words@[i as int]));
        let w = &words[i];
        let text = trim_chars(&chars_of(w.text.as_str()));
        if text.len() > 0 {
            let lang = trim_chars(&chars_of(w.lang.as_str()));
            let lang_out = if lang.len() == 0 || chars_eq(&lang, &auto) {
                String::new()
            } else {
                string_from_chars(&lang)
            };
            let weight: u8 = if w.weight < 1 {
                1
            } else if w.weight > 5 {
                5
            } else {
                w.weight
            };
            r.push(AsrHotword { text: string_from_chars(&text), weight, lang: lang_out });
            assert(hotwords_view(r@) =~= hotwords_view(r@.drop_last()).push(hotword_view(r@.last())));
        }
        i = i + 1;
    }
    assert(wv.take(words.len() as int) =~= wv);
    r
}

/// The SHA-1 digest of some bytes, as 40 lower-case hex digits.
pub uninterp spec fn sha1_hex(data: Seq<u8>) -> Seq<char>;

/// `sha1::Sha1::digest` printed with `{:x}`: the digest of `data` as 40
/// lower-case hex digits.  Feeding the bytes in several `update` calls, as a
/// streaming hasher allows, gives the digest of their concatenation.
#[verifier::external_body]
pub(crate) fn sha1_hex_digest(data: &[u8]) -> (r: String)
    ensures
        r@ == sha1_hex(data@),
        r@.len() == 40,
{
    format!("{:x}", sha1::Sha1::digest(data))
}

/// The bytes a hot-word signature is the digest of: the prefix, a newline,
/// the target model, then for each word a newline, its text, a tab, its
/// weight in decimal, a tab and its language.
pub open spec fn hotword_signature_input(
    prefix: Seq<char>,
    target_model: Seq<char>,
    words: Seq<(Seq<char>, u8, Seq<char>)>,
) -> Seq<u8>
    decreases words.len(),
{
    if words.len() == 0 {
        vstd::utf8::encode_utf8(prefix) + seq![10u8] + vstd::utf8::encode_utf8(target_model)
    } else {
        let w = words.last();
        hotword_signature_input(prefix, target_model, words.drop_last()) + seq![10u8]
            + vstd::utf8::encode_utf8(w.0) + seq![9u8] + vstd::utf8::encode_utf8(
            nat_digits(w.1 as nat),
        ) + seq![9u8] + vstd::utf8::encode_utf8(w.2)
    }
}

/// Appends the UTF-8 bytes of `s`.
fn push_utf8(out: &mut Vec<u8>, s: &str)
    ensures
        final(out)@ == old(out)@ + vstd::utf8::encode_utf8(s@),
{
    let b = s.as_bytes();
    let mut i: usize = 0;
    while i < b.len()
        invariant
            i <= b.len(),
            b@ == vstd::utf8::encode_utf8(s@),
            out@ == old(out)@ + b@.take(i as int),
        decreases b.len() - i,
    {
        out.push(b[i]);
        assert(b@.take(i + 1) =~= b@.take(i as int).push(b@[i as int]));
        i = i + 1;
    }
    assert(b@.take(b.len() as int) =~= b@);
}

/// The signature of a vocabulary: the SHA-1 of the prefix, the target model
/// and the words.
pub fn asr_hotword_signature(prefix: &str, target_model: &str, words: &[AsrHotword]) -> (r: String)
    ensures
        r@ == sha1_hex(hotword_signature_input(prefix@, target_model@, hotwords_view(words@))),
{
    let ghost wv = hotwords_view(words@);
    let mut data: Vec<u8> = Vec::new();
    push_utf8(&mut data, prefix);
    data.push(10u8);
    push_utf8(&mut data, target_model);
    assert(data@ =~= hotword_signature_input(prefix@, target_model@, wv.take(0)));
    let mut i: usize = 0;
    while i < words.len()
        invariant
            i <= words.len(),
            wv == hotwords_view(words@),
            data@ == hotword_signature_input(prefix@, target_model@, wv.take(i as int)),
        decreases words.len() - i,
    {
        let ghost before = data@;
        assert(wv.take(i + 1).drop_last() =~= wv.take(i as int));
        assert(wv.take(i + 1).last() == hotword_view(words@[i as int]));
        data.push(10u8);
        push_utf8(&mut data, words[i].text.as_str());
        data.push(9u8);
        let weight = string_from_chars(&u64_decimal(words[i].weight as u64));
        push_utf8(&mut data, weight.as_str());
        data.push(9u8);
        push_utf8(&mut data, words[i].lang.as_str());
        assert(data@ =~= hotword_signature_input(prefix@, target_model@, wv.take(i + 1)));
        i = i + 1;
    }
    assert(wv.take(words.len() as int) =~= wv);
    sha1_hex_digest(&data)
}

/// What synchronising the hot words asks of the service, and the settings
/// that follow.
#[derive(Debug)]
pub enum HotwordSync {
    /// Nothing is asked; these are the settings.
    Keep(AsrHotwordConfig),
    /// The vocabulary is deleted on the service (a failure there is only
    /// logged); then these are the settings.
    DeleteThenKeep { vocabulary_id: String, next: AsrHotwordConfig },
    /// The vocabulary is updated with `next`'s words; when that works `next`
    /// is the result, else a vocabulary is created as for `Create`.
    Update { vocabulary_id: String, next: AsrHotwordConfig },
    /// A vocabulary is created for `next`'s target model, prefix and words;
    /// the result is `next` with the id the service gives.
    Create { next: AsrHotwordConfig },
    /// Synchronising is refused with this message.
    Fail(String),
}

/// The value of a [`HotwordSync`].
pub enum HotwordSyncView {
    Keep(HotwordConfigView),
    DeleteThenKeep { vocabulary_id: Seq<char>, next: HotwordConfigView },
    Update { vocabulary_id: Seq<char>, next: HotwordConfigView },
    Create { next: HotwordConfigView },
    Fail(Seq<char>),
}

impl View for HotwordSync {
    type V = HotwordSyncView;

    open spec fn view(&self) -> HotwordSyncView {
        match self {
            HotwordSync::Keep(c) => HotwordSyncView::Keep(c@),
            HotwordSync::DeleteThenKeep { vocabulary_id, next } => HotwordSyncView::DeleteThenKeep {
                vocabulary_id: vocabulary_id@,
                next: next@,
            },
            HotwordSync::Update { vocabulary_id, next } => HotwordSyncView::Update {
                vocabulary_id: vocabulary_id@,
                next: next@,
            },
            HotwordSync::Create { next } => HotwordSyncView::Create { next: next@ },
            HotwordSync::Fail(m) => HotwordSyncView::Fail(m@),
        }
    }
}

/// Hot-word settings from their parts.
pub open spec fn hotword_config(
    prefix: Seq<char>,
    vocabulary_id: Seq<char>,
    vocabulary_signature: Seq<char>,
    target_model: Seq<char>,
    words: Seq<(Seq<char>, u8, Seq<char>)>,
) -> HotwordConfigView {
    HotwordConfigView { prefix, vocabulary_id, vocabulary_signature, target_model, words }
}

/// What synchronising asks for: with no words left after normalizing, the
/// service's vocabulary is forgotten (and deleted there when there is one and
/// a key); a model without vocabularies forgets it too; without a key it is
/// refused; a vocabulary for the same model with the same signature is kept;
/// one for the same model is updated; else one is created.  The prefix and
/// words are always the normalized ones.
pub open spec fn plan_hotword_sync_spec(model: Seq<char>, api_key: Seq<char>, h: HotwordConfigView) -> HotwordSyncView {
    let prefix = normalize_hotword_prefix_spec(h.prefix);
    let words = normalize_hotwords_spec(h.words);
    let cleared = hotword_config(prefix, seq![], seq![], seq![], words);
    let id = trim(h.vocabulary_id);
    if words.len() == 0 {
        if id.len() > 0 && trim(api_key).len() > 0 {
            HotwordSyncView::DeleteThenKeep { vocabulary_id: h.vocabulary_id, next: cleared }
        } else {
            HotwordSyncView::Keep(cleared)
        }
    } else {
        match hotword_target_model_spec(model) {
            None => HotwordSyncView::Keep(cleared),
            Some(target) => if trim(api_key).len() == 0 {
                HotwordSyncView::Fail("API key not configured"@)
            } else {
                let signature = sha1_hex(hotword_signature_input(prefix, target, words));
                if h.target_model == target && h.vocabulary_signature == signature && id.len() > 0 {
                    HotwordSyncView::Keep(
                        hotword_config(prefix, h.vocabulary_id, h.vocabulary_signature, target, words),
                    )
                } else if id.len() > 0 && h.target_model == target {
                    HotwordSyncView::Update {
                        vocabulary_id: id,
                        next: hotword_config(prefix, id, signature, target, words),
                    }
                } else {
                    HotwordSyncView::Create {
                        next: hotword_config(prefix, seq![], signature, target, words),
                    }
                }
            },
        }
    }
}

/// Decides what synchronising the hot words asks of the service.
pub fn plan_hotword_sync(model: &str, api_key: &str, hotwords: &AsrHotwordConfig) -> (r: HotwordSync)
    ensures
        r@ == plan_hotword_sync_spec(model@, api_key@, hotwords@),
{
    let prefix = normalize_hotword_prefix(hotwords.prefix.as_str());
    let words = normalize_asr_hotwords(&hotwords.words);
    let key_blank = trim_chars(&chars_of(api_key)).len() == 0;
    let id = trim_chars(&chars_of(hotwords.vocabulary_id.as_str()));
    if words.len() == 0 {
        let next = AsrHotwordConfig {
            prefix,
            vocabulary_id: String::new(),
            vocabulary_signature: String::new(),
            target_model: String::new(),
            words,
        };
        if id.len() > 0 && !key_blank {
            return HotwordSync::DeleteThenKeep { vocabulary_id: hotwords.vocabulary_id.clone(), next };
        }
        return HotwordSync::Keep(next);
    }
    match hotword_target_model(model) {
        None => HotwordSync::Keep(
            AsrHotwordConfig {
                prefix,
                vocabulary_id: String::new(),
                vocabulary_signature: String::new(),
                target_model: String::new(),
                words,
            },
        ),
        Some(target) => {
            if key_blank {
                return HotwordSync::Fail("API key not configured".to_owned());
            }
            let signature = asr_hotword_signature(prefix.as_str(), target.as_str(), &words);
            let same_target = str_eq(hotwords.target_model.as_str(), target.as_str());
            if same_target && str_eq(hotwords.vocabulary_signature.as_str(), signature.as_str())
                && id.len() > 0 {
                HotwordSync::Keep(
                    AsrHotwordConfig {
                        prefix,
                        vocabulary_id: hotwords.vocabulary_id.clone(),
                        vocabulary_signature: hotwords.vocabulary_signature.clone(),
                        target_model: target,
                        words,
                    },
                )
            } else if id.len() > 0 && same_target {
                HotwordSync::Update {
                    vocabulary_id: string_from_chars(&id),
                    next: AsrHotwordConfig {
                        prefix,
                        vocabulary_id: string_from_chars(&id),
                        vocabulary_signature: signature,
                        target_model: target,
                        words,
                    },
                }
            } else {
                HotwordSync::Create {
                    next: AsrHotwordConfig {
                        prefix,
                        vocabulary_id: String::new(),
                        vocabulary_signature: signature,
                        target_model: target,
                        words,
                    },
                }
            }
        },
    }
}

/// The settings once the service created vocabulary `vocabulary_id`.
pub fn with_created_vocabulary(next: AsrHotwordConfig, vocabulary_id: String) -> (r: AsrHotwordConfig)
    ensures
        r@ == hotword_config(
            next@.prefix,
            vocabulary_id@,
            next@.vocabulary_signature,
            next@.target_model,
            next@.words,
        ),
{
    AsrHotwordConfig { vocabulary_id, ..next }
}

} // verus!
