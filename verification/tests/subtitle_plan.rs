use bili_shadowreplay::bilibili::check_danmu_download;
use bili_shadowreplay::clip::check_encode_selection;
use bili_shadowreplay::realtime::{asr_failure_message, whisper_online_settings, AsrRoute};
use bili_shadowreplay::config::{
    check_cache_path_change, check_output_path_change, clamp_windowed_offset,
    effective_status_check_interval, entries_to_move,
};
use bili_shadowreplay::paths::{path_starts_with, paths_equal};
use bili_shadowreplay::realtime::{plan_subtitle_generation, SubtitlePlan};

fn failure(plan: SubtitlePlan) -> String {
    match plan {
        SubtitlePlan::Fail(m) => m,
        other => panic!("expected a refusal, got {:?}", other),
    }
}

#[test]
fn test_generate_video_subtitle_errors() {
    let result = plan_subtitle_generation("whisper", "", "", "whisper-1");
    assert!(failure(result).contains("Whisper model not configured"));

    let result = plan_subtitle_generation("whisper_online", "", "", "whisper-1");
    assert!(failure(result).contains("API key not configured"));

    let result = plan_subtitle_generation("unknown_type", "", "", "whisper-1");
    assert!(failure(result).contains("Unknown subtitle generator type"));
}

#[test]
fn subtitle_plan_routes() {
    assert!(matches!(
        plan_subtitle_generation("whisper", "model.bin", "", ""),
        SubtitlePlan::LocalWhisper
    ));
    assert!(matches!(
        plan_subtitle_generation("whisper_online", "", "key", "whisper-1"),
        SubtitlePlan::OnlineChunks { chunk_seconds: 30, partial: false }
    ));
    assert!(matches!(
        plan_subtitle_generation("whisper_online", "", "key", "fun-asr-realtime"),
        SubtitlePlan::OnlineChunks { chunk_seconds: 180, partial: true }
    ));
    assert!(matches!(
        plan_subtitle_generation("whisper_online", "", "key", "qwen3-asr-flash-realtime"),
        SubtitlePlan::OnlineChunks { chunk_seconds: 180, partial: true }
    ));
    assert!(matches!(
        plan_subtitle_generation("whisper_online", "", "key", "fun-asr"),
        SubtitlePlan::OnlineWhole
    ));
    assert!(matches!(
        plan_subtitle_generation("powerlive", "", "", ""),
        SubtitlePlan::PowerLive
    ));
    assert_eq!(
        failure(plan_subtitle_generation("other", "", "", "")),
        "Unknown subtitle generator type: other"
    );
}

#[test]
fn status_interval_and_offset() {
    assert_eq!(effective_status_check_interval(3), 10);
    assert_eq!(effective_status_check_interval(10), 10);
    assert_eq!(effective_status_check_interval(45), 45);
    assert_eq!(clamp_windowed_offset(-500), -200);
    assert_eq!(clamp_windowed_offset(500), 200);
    assert_eq!(clamp_windowed_offset(-12), -12);
}

#[test]
fn path_prefixes() {
    assert!(path_starts_with("/data/cache/sub", "/data/cache"));
    assert!(path_starts_with("/data/cache", "/data/cache/"));
    assert!(!path_starts_with("/data/cachex", "/data/cache"));
    assert!(!path_starts_with("/data", "/data/cache"));
    assert!(paths_equal("/data//cache/", "/data/cache"));
    assert!(!paths_equal("/data/cache", "/data/cache2"));
}

#[test]
fn directory_changes() {
    assert_eq!(check_cache_path_change("/a/cache", "/a/cache"), Ok(false));
    assert_eq!(check_cache_path_change("/a/cache", "/b/cache"), Ok(true));
    assert_eq!(
        check_cache_path_change("/a/cache", "/a/cache/inner"),
        Err("New cache path cannot be under old cache path".to_string())
    );
    assert_eq!(
        check_output_path_change("/a/out", "/a/out/x"),
        Err("New output path cannot be under old output path".to_string())
    );
    assert_eq!(check_output_path_change("/a/out", "/a/output"), Ok(true));
}

#[test]
fn moved_entries_skip_new_dir() {
    let entries = vec![
        "/a/cache/x".to_string(),
        "/a/cache/new".to_string(),
        "/a/cache/y".to_string(),
    ];
    assert_eq!(
        entries_to_move(&entries, "/a/cache/new/"),
        vec!["/a/cache/x".to_string(), "/a/cache/y".to_string()]
    );
}

#[test]
fn encode_needs_a_selection() {
    assert_eq!(check_encode_selection(false, false), Err("请至少选择字幕或弹幕".to_string()));
    assert_eq!(check_encode_selection(true, false), Ok(()));
    assert_eq!(check_encode_selection(false, true), Ok(()));
}

#[test]
fn danmu_download_checks() {
    assert_eq!(
        check_danmu_download("bilibili", Some("SESSDATA=x")),
        Err("只有导入视频支持下载弹幕".to_string())
    );
    assert_eq!(
        check_danmu_download("imported", None),
        Err("请先添加一个带 SESSDATA 的 B 站账号".to_string())
    );
    assert_eq!(
        check_danmu_download("imported", Some("buvid3=1; bili_jct=2")),
        Err("当前 B 站账号 cookies 缺少 SESSDATA".to_string())
    );
    assert_eq!(check_danmu_download("imported", Some("a=1; SESSDATA=abc")), Ok(()));
}

#[test]
fn recognition_failures_name_the_service() {
    assert_eq!(
        asr_failure_message(AsrRoute::FunAsrRealtime, "boom"),
        "Fun-ASR realtime failed: boom"
    );
    assert_eq!(
        asr_failure_message(AsrRoute::QwenRealtime, "boom"),
        "Qwen realtime ASR failed: boom"
    );
    assert_eq!(asr_failure_message(AsrRoute::Filetrans, "x"), "Filetrans ASR failed: x");
    assert_eq!(asr_failure_message(AsrRoute::OpenAiTranscription, "x"), "x");
}

#[test]
fn online_client_settings() {
    let s = whisper_online_settings(Some("https://example.com/v1//"), Some("k"), None, None, Some("  vocab-1 "));
    assert_eq!(s.api_url, "https://example.com/v1");
    assert_eq!(s.api_key, Some("k".to_string()));
    assert_eq!(s.prompt, None);
    assert_eq!(s.model, "whisper-1");
    assert_eq!(s.hotword_vocabulary_id, Some("vocab-1".to_string()));
    let d = whisper_online_settings(None, None, Some("p"), Some("fun-asr"), Some("   "));
    assert_eq!(d.api_url, "https://api.openai.com/v1");
    assert_eq!(d.model, "fun-asr");
    assert_eq!(d.prompt, Some("p".to_string()));
    assert_eq!(d.hotword_vocabulary_id, None);
}
