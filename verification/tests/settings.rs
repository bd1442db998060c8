use bili_shadowreplay::config::{
    default_asr_hotword_prefix, default_asr_hotwords, default_auto_generate_config,
    default_auto_subtitle, default_clip_name_format, default_native_clip_player_windowed_offset,
    default_online_asr_model, default_openai_api_endpoint, default_openai_api_key,
    default_oss_access_key_id, default_oss_access_key_secret, default_oss_bucket,
    default_oss_endpoint, default_oss_object_prefix, default_powerlive_key,
    default_status_check_interval, default_subtitle_generator_type,
    default_use_native_clip_player, default_use_seekbar_thumbnail_cache, default_webhook_url,
    default_whisper_language, default_whisper_model, default_whisper_prompt,
    drop_empty_brackets_chars, fill_clip_name, generate_clip_name, ClipNameFields,
};

#[test]
fn defaults() {
    assert!(!default_auto_subtitle());
    assert_eq!(default_subtitle_generator_type(), "whisper");
    assert_eq!(default_whisper_model(), "whisper_model.bin");
    assert_eq!(default_whisper_prompt(), "");
    assert_eq!(default_openai_api_endpoint(), "https://api.openai.com/v1");
    assert_eq!(default_openai_api_key(), "");
    assert_eq!(default_online_asr_model(), "whisper-1");
    assert_eq!(default_asr_hotword_prefix(), "bsrasr");
    let h = default_asr_hotwords();
    assert_eq!(h.prefix, "bsrasr");
    assert!(h.vocabulary_id.is_empty() && h.vocabulary_signature.is_empty());
    assert!(h.target_model.is_empty() && h.words.is_empty());
    assert_eq!(default_oss_access_key_id(), "");
    assert_eq!(default_oss_access_key_secret(), "");
    assert_eq!(default_oss_bucket(), "");
    assert_eq!(default_oss_endpoint(), "https://oss-cn-beijing.aliyuncs.com");
    assert_eq!(default_oss_object_prefix(), "bili-shadowreplay/asr");
    assert_eq!(
        default_clip_name_format(),
        "[{room_id}][{note}][{live_id}][{title}][{created_at}].mp4"
    );
    let a = default_auto_generate_config();
    assert!(!a.enabled && !a.encode_danmu);
    assert_eq!(default_status_check_interval(), 30);
    assert_eq!(default_whisper_language(), "auto");
    assert_eq!(default_webhook_url(), "");
    assert_eq!(default_powerlive_key(), "");
    assert!(default_use_native_clip_player());
    assert_eq!(default_native_clip_player_windowed_offset(), 28);
    assert!(default_use_seekbar_thumbnail_cache());
}

fn fields() -> ClipNameFields {
    ClipNameFields {
        title: "My Live! 直播".to_string(),
        platform: "bilibili".to_string(),
        room_id: "123".to_string(),
        live_id: "L1".to_string(),
        note: String::new(),
        x: "1.5".to_string(),
        y: "20".to_string(),
        created_at: "2024-01-01_10-00-00".to_string(),
        length: "18.5".to_string(),
    }
}

#[test]
fn clip_name_filled_in() {
    assert_eq!(
        fill_clip_name(&default_clip_name_format(), &fields()),
        "[123][L1][MyLive直播][2024-01-01_10-00-00].mp4"
    );
    assert_eq!(
        fill_clip_name("{platform}-{x}-{y}-{length}{title}{title}", &fields()),
        "bilibili-1.5-20-18.5MyLive直播MyLive直播"
    );
}

#[test]
fn empty_brackets_removed_until_none() {
    let out: String = drop_empty_brackets_chars("a[[]]b[][c]".chars().collect())
        .into_iter()
        .collect();
    assert_eq!(out, "ab[c]");
}

#[test]
fn clip_path_grouped_by_platform_and_room() {
    assert_eq!(
        generate_clip_name("/out", &default_clip_name_format(), &fields(), false),
        "/out/bilibili/123/[123][L1][MyLive直播][2024-01-01_10-00-00].mp4"
    );
    let mut f = fields();
    f.created_at = "10:00".to_string();
    f.room_id = "1/2".to_string();
    assert_eq!(
        generate_clip_name("/out", "{created_at}", &f, false),
        "/out/bilibili/12/1000"
    );
}

#[test]
fn clip_names_made_safe() {
    let mut f = fields();
    f.room_id = "..".to_string();
    f.platform = "CON.txt".to_string();
    assert_eq!(generate_clip_name("/out", "{live_id}. ", &f, true), "/out/L1");
    assert_eq!(generate_clip_name("/out", "{live_id}. ", &f, false), "/out/CON.txt/L1. ");
    let long = "字".repeat(100);
    f.platform = "p".to_string();
    f.room_id = "r".to_string();
    let name = generate_clip_name("/out", &long, &f, false);
    assert_eq!(name, format!("/out/p/r/{}", "字".repeat(85)));
}
