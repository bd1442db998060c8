//! Online speech recognition: which service a model name selects, and the
//! endpoints that requests for it go to.
use vstd::prelude::*;

use crate::text::{
    chars_eq, chars_of, concat_chars, contains, contains_exec, find, find_from_exec, is_blank,
    lemma_find_from, slice_chars, starts_with, starts_with_exec, string_from_chars,
    strip_trailing, strip_trailing_chars, trim, trim_chars,
};

verus! {

/// The default OpenAI-compatible endpoint.
pub open spec fn openai_default_url() -> Seq<char> {
    "https://api.openai.com/v1"@
}

/// DashScope's OpenAI-compatible endpoint.
pub open spec fn dashscope_compat_url() -> Seq<char> {
    "https://dashscope.aliyuncs.com/compatible-mode/v1"@
}

/// Qwen realtime recognition (`qwen3-asr-flash-realtime`, `qwen-asr-realtime`).
pub fn is_qwen_asr_flash_model(model: &str) -> (b: bool)
    ensures
        b == (model@ == "qwen3-asr-flash-realtime"@ || model@ == "qwen-asr-realtime"@),
{
    let m = chars_of(model);
    chars_eq(&m, &chars_of("qwen3-asr-flash-realtime")) || chars_eq(&m, &chars_of("qwen-asr-realtime"))
}

/// Fun-ASR realtime recognition.
pub fn is_fun_asr_realtime_model(model: &str) -> (b: bool)
    ensures
        b == (model@ == "fun-asr-realtime"@),
{
    chars_eq(&chars_of(model), &chars_of("fun-asr-realtime"))
}

/// Fun-ASR file transcription (`fun-asr-filetrans`, `fun-asr`).
pub fn is_fun_asr_filetrans_model(model: &str) -> (b: bool)
    ensures
        b == (model@ == "fun-asr-filetrans"@ || model@ == "fun-asr"@),
{
    let m = chars_of(model);
    chars_eq(&m, &chars_of("fun-asr-filetrans")) || chars_eq(&m, &chars_of("fun-asr"))
}

/// Qwen file transcription.
pub fn is_qwen_asr_filetrans_model(model: &str) -> (b: bool)
    ensures
        b == (model@ == "qwen3-asr-flash-filetrans"@),
{
    chars_eq(&chars_of(model), &chars_of("qwen3-asr-flash-filetrans"))
}

/// The model name that file transcription requests carry.
pub open spec fn filetrans_api_model_spec(model: Seq<char>) -> Seq<char> {
    if model == "fun-asr-filetrans"@ || model == "fun-asr"@ {
        "fun-asr"@
    } else if model == "qwen3-asr-flash-filetrans"@ {
        "qwen3-asr-flash-filetrans"@
    } else {
        model
    }
}

/// The model name that file transcription requests carry: `fun-asr` for the
/// Fun-ASR file models, else the model itself.
pub fn filetrans_api_model(model: &str) -> (r: String)
    ensures
        r@ == filetrans_api_model_spec(model@),
{
    if is_fun_asr_filetrans_model(model) {
        "fun-asr".to_owned()
    } else if is_qwen_asr_filetrans_model(model) {
        "qwen3-asr-flash-filetrans".to_owned()
    } else {
        model.to_owned()
    }
}

/// Whether file transcription asks for word timings: only for Qwen.
pub fn filetrans_enable_words(model: &str) -> (b: bool)
    ensures
        b == (model@ == "qwen3-asr-flash-filetrans"@),
{
    is_qwen_asr_filetrans_model(model)
}

/// The model that a hot-word vocabulary is created for, if the model uses one.
pub open spec fn hotword_target_model_spec(model: Seq<char>) -> Option<Seq<char>> {
    if model == "fun-asr-realtime"@ {
        Some("fun-asr-realtime"@)
    } else if model == "fun-asr-filetrans"@ || model == "fun-asr"@ {
        Some("fun-asr"@)
    } else {
        None
    }
}

/// The model that a hot-word vocabulary is created for: the Fun-ASR models
/// only.
pub fn hotword_target_model(model: &str) -> (r: Option<String>)
    ensures
        r matches Some(t) ==> hotword_target_model_spec(model@) == Some(t@),
        r is None ==> hotword_target_model_spec(model@) is None,
{
    if is_fun_asr_realtime_model(model) {
        Some("fun-asr-realtime".to_owned())
    } else if is_fun_asr_filetrans_model(model) {
        Some("fun-asr".to_owned())
    } else {
        None
    }
}

/// The DashScope REST base for a configured endpoint: the default base for
/// an empty, OpenAI or compatible-mode endpoint or a websocket URL; the part
/// before the transcription path when the endpoint holds it; else the
/// endpoint, trimmed and without trailing `/`.
pub open spec fn dashscope_api_base_spec(api_url: Seq<char>) -> Seq<char> {
    let u = strip_trailing(trim(api_url), '/');
    if u.len() == 0 || u == openai_default_url() || u == dashscope_compat_url() || starts_with(
        u,
        "wss://"@,
    ) {
        "https://dashscope.aliyuncs.com/api/v1"@
    } else {
        match find(u, "/services/audio/asr/transcription"@) {
            Some(k) => u.take(k),
            None => u,
        }
    }
}

fn dashscope_api_base_chars(api_url: &str) -> (r: Vec<char>)
    ensures
        r@ == dashscope_api_base_spec(api_url@),
{
    let t = trim_chars(&chars_of(api_url));
    let u = strip_trailing_chars(&t, '/');
    if u.len() == 0 || chars_eq(&u, &chars_of("https://api.openai.com/v1")) || chars_eq(
        &u,
        &chars_of("https://dashscope.aliyuncs.com/compatible-mode/v1"),
    ) || starts_with_exec(&u, &chars_of("wss://")) {
        return chars_of("https://dashscope.aliyuncs.com/api/v1");
    }
    let pat = chars_of("/services/audio/asr/transcription");
    proof {
        lemma_find_from(u@, pat@, 0);
    }
    match find_from_exec(&u, &pat, 0) {
        Some(k) => slice_chars(&u, 0, k),
        None => u,
    }
}

/// The DashScope REST base for a configured endpoint.
pub fn dashscope_api_base(api_url: &str) -> (r: String)
    ensures
        r@ == dashscope_api_base_spec(api_url@),
{
    string_from_chars(&dashscope_api_base_chars(api_url))
}

/// The file transcription submit endpoint: the endpoint (trimmed, without
/// trailing `/`) itself when it holds the transcription path, else that path
/// under the REST base of it.
pub open spec fn dashscope_submit_endpoint_spec(api_url: Seq<char>) -> Seq<char> {
    let u = strip_trailing(trim(api_url), '/');
    if contains(u, "/services/audio/asr/transcription"@) {
        u
    } else {
        dashscope_api_base_spec(u) + "/services/audio/asr/transcription"@
    }
}

/// The file transcription submit endpoint.
pub fn dashscope_submit_endpoint(api_url: &str) -> (r: String)
    ensures
        r@ == dashscope_submit_endpoint_spec(api_url@),
{
    let t = trim_chars(&chars_of(api_url));
    let u = strip_trailing_chars(&t, '/');
    let pat = chars_of("/services/audio/asr/transcription");
    if contains_exec(&u, &pat) {
        string_from_chars(&u)
    } else {
        let us = string_from_chars(&u);
        let base = dashscope_api_base_chars(us.as_str());
        string_from_chars(&concat_chars(&base, &pat))
    }
}

/// The task query endpoint: `{base}/tasks/{task_id}`.
pub fn dashscope_task_endpoint(api_url: &str, task_id: &str) -> (r: String)
    ensures
        r@ == dashscope_api_base_spec(api_url@) + "/tasks/"@ + task_id@,
{
    let base = dashscope_api_base_chars(api_url);
    let a = concat_chars(&base, &chars_of("/tasks/"));
    string_from_chars(&concat_chars(&a, &chars_of(task_id)))
}

/// The hot-word customisation endpoint.
pub fn dashscope_customization_endpoint(api_url: &str) -> (r: String)
    ensures
        r@ == dashscope_api_base_spec(api_url@) + "/services/audio/asr/customization"@,
{
    let base = dashscope_api_base_chars(api_url);
    string_from_chars(&concat_chars(&base, &chars_of("/services/audio/asr/customization")))
}

/// The upload policy endpoint.
pub fn dashscope_uploads_endpoint(api_url: &str) -> (r: String)
    ensures
        r@ == dashscope_api_base_spec(api_url@) + "/uploads"@,
{
    let base = dashscope_api_base_chars(api_url);
    string_from_chars(&concat_chars(&base, &chars_of("/uploads")))
}

/// Whether a configured endpoint means "use the default realtime service":
/// blank, the OpenAI endpoint or the compatible-mode endpoint.
pub open spec fn is_default_endpoint(api_url: Seq<char>) -> bool {
    trim(api_url).len() == 0 || api_url == openai_default_url() || api_url == dashscope_compat_url()
}

fn is_default_endpoint_exec(api_url: &str) -> (b: bool)
    ensures
        b == is_default_endpoint(api_url@),
{
    let v = chars_of(api_url);
    is_blank(&v) || chars_eq(&v, &chars_of("https://api.openai.com/v1")) || chars_eq(
        &v,
        &chars_of("https://dashscope.aliyuncs.com/compatible-mode/v1"),
    )
}

/// The Qwen realtime websocket URL: the default realtime URL or the
/// configured one without trailing `/`, with `model=` added as a query
/// parameter unless it already carries one.
pub open spec fn qwen_realtime_endpoint_spec(api_url: Seq<char>, model: Seq<char>) -> Seq<char> {
    let base = if is_default_endpoint(api_url) {
        "wss://dashscope.aliyuncs.com/api-ws/v1/realtime"@
    } else {
        strip_trailing(api_url, '/')
    };
    if contains(base, "?model="@) || contains(base, "&model="@) {
        base
    } else {
        let sep = if contains(base, "?"@) {
            "&"@
        } else {
            "?"@
        };
        base + sep + "model="@ + model
    }
}

/// The Qwen realtime websocket URL.
pub fn qwen_realtime_endpoint(api_url: &str, model: &str) -> (r: String)
    ensures
        r@ == qwen_realtime_endpoint_spec(api_url@, model@),
{
    let base = if is_default_endpoint_exec(api_url) {
        chars_of("wss://dashscope.aliyuncs.com/api-ws/v1/realtime")
    } else {
        strip_trailing_chars(&chars_of(api_url), '/')
    };
    if contains_exec(&base, &chars_of("?model=")) || contains_exec(&base, &chars_of("&model=")) {
        return string_from_chars(&base);
    }
    let sep = if contains_exec(&base, &chars_of("?")) {
        chars_of("&")
    } else {
        chars_of("?")
    };
    let a = concat_chars(&base, &sep);
    let b = concat_chars(&a, &chars_of("model="));
    string_from_chars(&concat_chars(&b, &chars_of(model)))
}

/// The Fun-ASR realtime websocket URL: the default inference URL or the
/// configured one without trailing `/`.
pub open spec fn fun_asr_realtime_endpoint_spec(api_url: Seq<char>) -> Seq<char> {
    if is_default_endpoint(api_url) {
        "wss://dashscope.aliyuncs.com/api-ws/v1/inference"@
    } else {
        strip_trailing(api_url, '/')
    }
}

/// The Fun-ASR realtime websocket URL.
pub fn fun_asr_realtime_endpoint(api_url: &str) -> (r: String)
    ensures
        r@ == fun_asr_realtime_endpoint_spec(api_url@),
{
    if is_default_endpoint_exec(api_url) {
        "wss://dashscope.aliyuncs.com/api-ws/v1/inference".to_owned()
    } else {
        string_from_chars(&strip_trailing_chars(&chars_of(api_url), '/'))
    }
}

} // verus!
