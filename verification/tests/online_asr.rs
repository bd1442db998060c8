use bili_shadowreplay::asr::{
    dashscope_api_base, dashscope_customization_endpoint, dashscope_submit_endpoint,
    dashscope_task_endpoint, dashscope_uploads_endpoint, filetrans_api_model,
    filetrans_enable_words, fun_asr_realtime_endpoint, hotword_target_model,
    is_fun_asr_filetrans_model, is_fun_asr_realtime_model, is_qwen_asr_filetrans_model,
    is_qwen_asr_flash_model, qwen_realtime_endpoint,
};
use bili_shadowreplay::config::{AsrHotword, AsrHotwordConfig};
use bili_shadowreplay::filetrans::{
    audio_file_fingerprint, filetrans_task_cache_entry, filetrans_task_cache_path, find_cached_filetrans_task,
    mime_type_for_audio_path, remember_filetrans_entry, timed_tokens_from_filetrans_words,
    FileTranscriptionWord, OssUploadResult,
};
use bili_shadowreplay::hotwords::{
    asr_hotword_signature, normalize_asr_hotwords, normalize_hotword_prefix, plan_hotword_sync,
    with_created_vocabulary, HotwordSync,
};

#[test]
fn model_kinds() {
    assert!(is_qwen_asr_flash_model("qwen3-asr-flash-realtime"));
    assert!(is_qwen_asr_flash_model("qwen-asr-realtime"));
    assert!(!is_qwen_asr_flash_model("qwen3-asr-flash-filetrans"));
    assert!(is_fun_asr_realtime_model("fun-asr-realtime"));
    assert!(is_fun_asr_filetrans_model("fun-asr"));
    assert!(is_fun_asr_filetrans_model("fun-asr-filetrans"));
    assert!(is_qwen_asr_filetrans_model("qwen3-asr-flash-filetrans"));
    assert_eq!(filetrans_api_model("fun-asr-filetrans"), "fun-asr");
    assert_eq!(filetrans_api_model("whisper-1"), "whisper-1");
    assert!(filetrans_enable_words("qwen3-asr-flash-filetrans"));
    assert!(!filetrans_enable_words("fun-asr"));
    assert_eq!(hotword_target_model("fun-asr-realtime"), Some("fun-asr-realtime".to_string()));
    assert_eq!(hotword_target_model("fun-asr-filetrans"), Some("fun-asr".to_string()));
    assert_eq!(hotword_target_model("qwen-asr-realtime"), None);
}

#[test]
fn dashscope_endpoints() {
    let base = "https://dashscope.aliyuncs.com/api/v1";
    assert_eq!(dashscope_api_base(""), base);
    assert_eq!(dashscope_api_base("https://api.openai.com/v1/"), base);
    assert_eq!(dashscope_api_base("wss://x/y"), base);
    assert_eq!(
        dashscope_api_base(" https://h/api/v1/services/audio/asr/transcription/ "),
        "https://h/api/v1"
    );
    assert_eq!(dashscope_api_base("https://h/v2//"), "https://h/v2");
    assert_eq!(
        dashscope_submit_endpoint("https://h/api/v1/services/audio/asr/transcription"),
        "https://h/api/v1/services/audio/asr/transcription"
    );
    assert_eq!(
        dashscope_submit_endpoint(""),
        "https://dashscope.aliyuncs.com/api/v1/services/audio/asr/transcription"
    );
    assert_eq!(
        dashscope_submit_endpoint("https://h/a /"),
        "https://h/a/services/audio/asr/transcription"
    );
    assert_eq!(dashscope_task_endpoint("", "t1"), format!("{base}/tasks/t1"));
    assert_eq!(
        dashscope_customization_endpoint(""),
        format!("{base}/services/audio/asr/customization")
    );
    assert_eq!(dashscope_uploads_endpoint(""), format!("{base}/uploads"));
}

#[test]
fn realtime_endpoints() {
    assert_eq!(
        qwen_realtime_endpoint("", "qwen3-asr-flash-realtime"),
        "wss://dashscope.aliyuncs.com/api-ws/v1/realtime?model=qwen3-asr-flash-realtime"
    );
    assert_eq!(qwen_realtime_endpoint("wss://h/rt?x=1/", "m"), "wss://h/rt?x=1&model=m");
    assert_eq!(qwen_realtime_endpoint("wss://h/rt?model=a", "m"), "wss://h/rt?model=a");
    assert_eq!(
        fun_asr_realtime_endpoint("https://api.openai.com/v1"),
        "wss://dashscope.aliyuncs.com/api-ws/v1/inference"
    );
    assert_eq!(fun_asr_realtime_endpoint("wss://h/inf//"), "wss://h/inf");
}

fn word(text: &str, weight: u8, lang: &str) -> AsrHotword {
    AsrHotword {
        text: text.to_string(),
        weight,
        lang: lang.to_string(),
    }
}

fn words_view(ws: &[AsrHotword]) -> Vec<(String, u8, String)> {
    ws.iter()
        .map(|w| (w.text.clone(), w.weight, w.lang.clone()))
        .collect()
}

#[test]
fn hotword_prefix_and_words_normalized() {
    assert_eq!(normalize_hotword_prefix("My-Prefix_2024!!"), "myprefix20");
    assert_eq!(normalize_hotword_prefix("___"), "bsrasr");
    assert_eq!(normalize_hotword_prefix("ab"), "ab");
    let words = vec![word(" 你好 ", 0, " zh "), word("  ", 3, "en"), word("world", 9, "auto")];
    assert_eq!(
        words_view(&normalize_asr_hotwords(&words)),
        vec![
            ("你好".to_string(), 1, "zh".to_string()),
            ("world".to_string(), 5, String::new())
        ]
    );
}

#[test]
fn hotword_signature_is_sha1_of_settings() {
    let words = vec![word("你好", 3, "zh"), word("world", 5, "")];
    assert_eq!(
        asr_hotword_signature("bsrasr", "fun-asr", &words),
        "697a91bf6f151b90777d31ba0ee4984d8e81001c"
    );
    assert_eq!(
        asr_hotword_signature("abc", "fun-asr", &[]),
        "81a93ce1313f5a775b5da85955796a17bf985521"
    );
}

fn config(vocab: &str, signature: &str, target: &str, words: Vec<AsrHotword>) -> AsrHotwordConfig {
    AsrHotwordConfig {
        prefix: "bsrasr".to_string(),
        vocabulary_id: vocab.to_string(),
        vocabulary_signature: signature.to_string(),
        target_model: target.to_string(),
        words,
    }
}

#[test]
fn hotword_sync_plans() {
    let words = vec![word("你好", 3, "zh"), word("world", 5, "")];
    let sig = "697a91bf6f151b90777d31ba0ee4984d8e81001c";

    match plan_hotword_sync("whisper-1", "k", &config("v", "s", "t", words.clone())) {
        HotwordSync::Keep(next) => {
            assert!(next.vocabulary_id.is_empty() && next.target_model.is_empty());
            assert_eq!(next.words.len(), 2);
        }
        other => panic!("unexpected {other:?}"),
    }
    match plan_hotword_sync("fun-asr", " ", &config("", "", "", words.clone())) {
        HotwordSync::Fail(m) => assert_eq!(m, "API key not configured"),
        other => panic!("unexpected {other:?}"),
    }
    match plan_hotword_sync("fun-asr", "k", &config("v1", "s", "fun-asr", vec![word(" ", 1, "")])) {
        HotwordSync::DeleteThenKeep { vocabulary_id, next } => {
            assert_eq!(vocabulary_id, "v1");
            assert!(next.vocabulary_id.is_empty() && next.words.is_empty());
        }
        other => panic!("unexpected {other:?}"),
    }
    match plan_hotword_sync("fun-asr", "", &config("v1", "s", "fun-asr", Vec::new())) {
        HotwordSync::Keep(next) => assert!(next.vocabulary_id.is_empty()),
        other => panic!("unexpected {other:?}"),
    }
    match plan_hotword_sync("fun-asr-filetrans", "k", &config("vid", sig, "fun-asr", words.clone())) {
        HotwordSync::Keep(next) => {
            assert_eq!(next.vocabulary_id, "vid");
            assert_eq!(next.vocabulary_signature, sig);
            assert_eq!(next.target_model, "fun-asr");
        }
        other => panic!("unexpected {other:?}"),
    }
    match plan_hotword_sync("fun-asr", "k", &config(" vid ", "old", "fun-asr", words.clone())) {
        HotwordSync::Update { vocabulary_id, next } => {
            assert_eq!(vocabulary_id, "vid");
            assert_eq!(next.vocabulary_id, "vid");
            assert_eq!(next.vocabulary_signature, sig);
        }
        other => panic!("unexpected {other:?}"),
    }
    match plan_hotword_sync("fun-asr", "k", &config("vid", sig, "fun-asr-realtime", words)) {
        HotwordSync::Create { next } => {
            assert_eq!(next.target_model, "fun-asr");
            assert!(next.vocabulary_id.is_empty());
            let done = with_created_vocabulary(next, "new-id".to_string());
            assert_eq!(done.vocabulary_id, "new-id");
            assert_eq!(done.vocabulary_signature, sig);
        }
        other => panic!("unexpected {other:?}"),
    }
}

fn upload(fingerprint: &str) -> OssUploadResult {
    OssUploadResult {
        file_url: "oss://x".to_string(),
        object_key: "k/obj".to_string(),
        audio_fingerprint: fingerprint.to_string(),
    }
}

#[test]
fn task_cache_remembers_and_finds() {
    let mut cache = Vec::new();
    let e1 = filetrans_task_cache_entry("", "fun-asr", "zh", Some(" v1 "), &upload("fp"), "t1".to_string(), 100);
    assert_eq!(e1.vocabulary_id, "v1");
    assert_eq!(e1.oss_bucket, "dashscope-temporary");
    assert_eq!(e1.dashscope_base, "https://dashscope.aliyuncs.com/api/v1");
    assert!(!e1.enable_words);
    remember_filetrans_entry(&mut cache, e1);
    let other = filetrans_task_cache_entry("", "fun-asr", "en", None, &upload("fp"), "t2".to_string(), 101);
    remember_filetrans_entry(&mut cache, other);
    let again = filetrans_task_cache_entry("https://api.openai.com/v1", "fun-asr", "zh", Some("v1"), &upload("fp"), "t3".to_string(), 102);
    remember_filetrans_entry(&mut cache, again);
    assert_eq!(cache.len(), 2);
    let found = find_cached_filetrans_task(&cache, "", "fun-asr", "zh", Some("v1 "), "fp").unwrap();
    assert_eq!(found.task_id, "t3");
    let found = find_cached_filetrans_task(&cache, "", "fun-asr", "en", Some(" "), "fp").unwrap();
    assert_eq!(found.task_id, "t2");
    assert!(find_cached_filetrans_task(&cache, "", "fun-asr", "zh", None, "fp").is_none());
    assert!(find_cached_filetrans_task(&cache, "", "fun-asr", "zh", Some("v1"), "other").is_none());
}

#[test]
fn task_cache_beside_audio() {
    assert_eq!(filetrans_task_cache_path("/a/b/audio.wav"), "/a/b/audio.wav.task-cache.json");
    assert_eq!(filetrans_task_cache_path(""), "audio.task-cache.json");
}

#[test]
fn audio_mime_types() {
    assert_eq!(mime_type_for_audio_path("a.MP3"), "audio/mpeg");
    assert_eq!(mime_type_for_audio_path("a"), "audio/wav");
    assert_eq!(mime_type_for_audio_path("a.ogg"), "audio/wav");
    assert_eq!(mime_type_for_audio_path("/x/y.FLAC"), "audio/flac");
    assert_eq!(mime_type_for_audio_path("y.m4a"), "audio/mp4");
    assert_eq!(mime_type_for_audio_path("y.Wav"), "audio/wav");
}

fn w(text: &str, b: i64, e: i64, p: Option<&str>) -> FileTranscriptionWord {
    FileTranscriptionWord {
        begin_time: b,
        end_time: e,
        text: text.to_string(),
        punctuation: p.map(|s| s.to_string()),
    }
}

#[test]
fn tokens_from_words() {
    let tokens = timed_tokens_from_filetrans_words(Some(vec![
        w("你", 0, 100, Some("")),
        w("好", 100, 200, Some("。")),
        w(" ", 200, 300, None),
        w("x", 300, 300, None),
    ]));
    let v: Vec<(i64, i64, String)> = tokens
        .iter()
        .map(|t| (t.begin_ms, t.end_ms, t.text.clone()))
        .collect();
    assert_eq!(
        v,
        vec![(0, 100, "你".to_string()), (100, 200, "好。".to_string())]
    );
    assert!(timed_tokens_from_filetrans_words(None).is_empty());
}

#[test]
fn audio_fingerprints() {
    assert_eq!(
        audio_file_fingerprint(Some(b"abc".as_slice()), "a.mp3", None),
        "a9993e364706816aba3e25717850c26c9cd0d89d"
    );
    assert_eq!(
        audio_file_fingerprint(Some(b"".as_slice()), "a.mp3", Some((0, None))),
        "da39a3ee5e6b4b0d3255bfef95601890afd80709"
    );
    let fallback = audio_file_fingerprint(None, "a.mp3", Some((3, Some((1_700_000_000, 5)))));
    assert_eq!(fallback.len(), 16);
    assert!(fallback.chars().all(|c| c.is_ascii_hexdigit()));
    assert_eq!(
        fallback,
        audio_file_fingerprint(None, "a.mp3", Some((3, Some((1_700_000_000, 5)))))
    );
    assert_ne!(fallback, audio_file_fingerprint(None, "b.mp3", Some((3, Some((1_700_000_000, 5))))));
}
