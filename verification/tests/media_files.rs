use bili_shadowreplay::media::import_paths;
use bili_shadowreplay::media::{
    choose_ffprobe_path, clip_media_prefix, clip_output_filename, danmu_emote_cache_key,
    danmu_image_overlay_batch_size, escape_ffmpeg_filter_path, executable_path,
    ffmpeg_candidate_paths, ffmpeg_listing_names, ffmpeg_supports_danmaku_encode,
    ffprobe_sibling_candidate, is_network_protocol, ms_to_srt_time, recommend_waveform_peak_count,
    sanitize_filename, seekbar_thumbnail_cache_dir, seekbar_thumbnail_cache_frame_path,
    seekbar_thumbnail_cache_manifest_path, seekbar_thumbnail_decode_attempts,
    select_ffmpeg_path, should_convert_video_format, srt_time_to_ms, FfmpegProbe, SrtTime,
    PREFIX_DANMAKU, PREFIX_SUBTITLE,
};
use bili_shadowreplay::paths::{
    path_extension, path_file_name, path_file_stem, path_join, path_parent, path_with_extension,
    to_output_relative_path,
};

fn chars(s: &str) -> Vec<char> {
    s.chars().collect()
}

fn string(v: Vec<char>) -> String {
    v.into_iter().collect()
}

fn file_name(p: &str) -> String {
    string(path_file_name(&chars(p)).unwrap())
}

fn ffmpeg_and_ffprobe(windows: bool, probes_for: impl Fn(&str) -> FfmpegProbe) -> (String, String) {
    let candidates = ffmpeg_candidate_paths(windows);
    let probes: Vec<FfmpegProbe> = candidates.iter().map(|c| probes_for(c)).collect();
    let ffmpeg = select_ffmpeg_path(&candidates, &probes, windows);
    let sibling = ffprobe_sibling_candidate(&ffmpeg, windows);
    let ffprobe = choose_ffprobe_path(sibling, true, windows);
    (ffmpeg, ffprobe)
}

#[test]
fn test_ffmpeg_paths() {
    let nothing = |_: &str| FfmpegProbe {
        supports_danmaku: false,
        available: false,
    };
    let system = |c: &str| FfmpegProbe {
        supports_danmaku: false,
        available: c == "/usr/bin/ffmpeg",
    };

    // on Windows
    let (ffmpeg_path, ffprobe_path) = ffmpeg_and_ffprobe(true, nothing);
    assert_eq!(string(path_extension(&chars(&ffmpeg_path)).unwrap()), "exe");
    assert_eq!(string(path_extension(&chars(&ffprobe_path)).unwrap()), "exe");

    // elsewhere
    for probes in [&nothing as &dyn Fn(&str) -> FfmpegProbe, &system] {
        let (ffmpeg_path, ffprobe_path) = ffmpeg_and_ffprobe(false, probes);
        assert_eq!(file_name(&ffmpeg_path), "ffmpeg");
        assert_eq!(file_name(&ffprobe_path), "ffprobe");
    }
}

#[test]
fn test_filename_processing() {
    let test_file = chars("tests/video/test.mp4");
    let name = string(path_file_name(&test_file).unwrap());

    let subtitle_filename = format!("{}{}", PREFIX_SUBTITLE, name);
    assert!(subtitle_filename.starts_with(PREFIX_SUBTITLE));
    assert!(subtitle_filename.contains("test.mp4"));

    let danmu_filename = format!("{}{}", PREFIX_DANMAKU, name);
    assert!(danmu_filename.starts_with(PREFIX_DANMAKU));
    assert!(danmu_filename.contains("test.mp4"));
}

#[test]
fn test_audio_chunk_directory_structure() {
    let test_file = chars("tests/audio/test.wav");
    let output_path = path_with_extension(&test_file, &chars("wav"));
    let output_dir = path_parent(&output_path).unwrap();
    let base_name = string(path_file_stem(&output_path).unwrap());
    let chunk_dir = string(path_join(&output_dir, &chars(&format!("{base_name}_chunks"))));

    assert!(chunk_dir.contains("_chunks"));
    assert!(chunk_dir.contains("test"));
    assert_eq!(chunk_dir, "tests/audio/test_chunks");
}

#[test]
fn candidates_in_order_without_repeats() {
    assert_eq!(
        ffmpeg_candidate_paths(false),
        vec![
            "ffmpeg",
            "/opt/anaconda3/bin/ffmpeg",
            "/opt/homebrew/bin/ffmpeg",
            "/usr/local/bin/ffmpeg",
            "/usr/bin/ffmpeg"
        ]
    );
    assert_eq!(ffmpeg_candidate_paths(true), vec!["ffmpeg.exe"]);
    assert_eq!(executable_path("ffmpeg", true), "ffmpeg.exe");
    assert_eq!(executable_path("ffmpeg", false), "ffmpeg");
}

#[test]
fn ffmpeg_selection_prefers_full_support() {
    let candidates = ffmpeg_candidate_paths(false);
    let probes: Vec<FfmpegProbe> = candidates
        .iter()
        .map(|c| FfmpegProbe {
            supports_danmaku: c == "/usr/local/bin/ffmpeg",
            available: true,
        })
        .collect();
    assert_eq!(
        select_ffmpeg_path(&candidates, &probes, false),
        "/usr/local/bin/ffmpeg"
    );
    let probes: Vec<FfmpegProbe> = candidates
        .iter()
        .map(|c| FfmpegProbe {
            supports_danmaku: false,
            available: c.starts_with("/opt/homebrew"),
        })
        .collect();
    assert_eq!(
        select_ffmpeg_path(&candidates, &probes, false),
        "/opt/homebrew/bin/ffmpeg"
    );
}

#[test]
fn ffprobe_beside_absolute_ffmpeg() {
    assert_eq!(
        ffprobe_sibling_candidate("/usr/bin/ffmpeg", false),
        Some("/usr/bin/ffprobe".to_string())
    );
    assert_eq!(ffprobe_sibling_candidate("ffmpeg", false), None);
    assert_eq!(
        choose_ffprobe_path(Some("/usr/bin/ffprobe".to_string()), false, false),
        "ffprobe"
    );
}

#[test]
fn listing_names_take_second_word() {
    let output = " V..... ass   Render ASS subtitles\n ------\nFilters:\n T.. scale  x\r\n";
    assert_eq!(ffmpeg_listing_names(output), vec!["ass", "scale"]);
    let filters: Vec<String> = ["ass", "subtitles", "movie", "overlay", "scale", "fps"]
        .iter()
        .map(|s| s.to_string())
        .collect();
    let encoders = vec!["libx264".to_string()];
    assert!(ffmpeg_supports_danmaku_encode(&filters, &encoders));
    assert!(!ffmpeg_supports_danmaku_encode(&filters[1..].to_vec(), &encoders));
    assert!(!ffmpeg_supports_danmaku_encode(&filters, &vec!["libx265".to_string()]));
}

#[test]
fn emote_cache_key_is_md5_of_fingerprint() {
    assert_eq!(
        danmu_emote_cache_key("/tmp/emote.png", 1234, 1700000000, 5, 64),
        "1ee6108d4802f22c48aa453454bdbc55"
    );
}

#[test]
fn srt_time_round_trip() {
    let t = ms_to_srt_time(3_723_004);
    assert_eq!(
        t,
        SrtTime {
            hours: 1,
            minutes: 2,
            seconds: 3,
            milliseconds: 4
        }
    );
    assert_eq!(srt_time_to_ms(&t), 3_723_004);
    assert_eq!(
        ms_to_srt_time(-5),
        SrtTime {
            hours: 0,
            minutes: 0,
            seconds: 0,
            milliseconds: 0
        }
    );
}

#[test]
fn network_paths() {
    assert!(is_network_protocol("SMB://host/share/a.mp4"));
    assert!(is_network_protocol("https://example.com/v.flv"));
    assert!(!is_network_protocol("/local/a.mp4"));
    assert!(!is_network_protocol("http:/broken"));
}

#[test]
fn flv_is_converted() {
    assert!(should_convert_video_format("FLV"));
    assert!(should_convert_video_format("flv"));
    assert!(!should_convert_video_format("mp4"));
    assert!(!should_convert_video_format("flvx"));
}

#[test]
fn filenames_made_safe() {
    assert_eq!(sanitize_filename("a/b:c*?\"<>|d\\e"), "a_b_c______d_e");
    let long = "x".repeat(60);
    assert_eq!(sanitize_filename(&long), "x".repeat(50));
}

#[test]
fn filter_paths_escaped() {
    assert_eq!(escape_ffmpeg_filter_path("C:\\a's"), "C\\:\\\\a\\'s");
}

#[test]
fn seekbar_cache_locations() {
    assert_eq!(seekbar_thumbnail_cache_dir("/v/a.mp4"), "/v/a.seekbar-thumbs");
    assert_eq!(
        seekbar_thumbnail_cache_manifest_path("/v/a.mp4"),
        "/v/a.seekbar-thumbs/index.json"
    );
    assert_eq!(seekbar_thumbnail_cache_frame_path("/c", 7), "/c/000007.jpg");
    assert_eq!(seekbar_thumbnail_cache_frame_path("/c", 1234567), "/c/1234567.jpg");
    let mac = seekbar_thumbnail_decode_attempts(true);
    assert_eq!(mac.len(), 3);
    assert_eq!(mac[0].label, "videotoolbox");
    assert_eq!(mac[0].args, vec!["-hwaccel", "videotoolbox"]);
    let other = seekbar_thumbnail_decode_attempts(false);
    assert_eq!(other.len(), 2);
    assert_eq!(other[0].label, "auto");
    assert_eq!(other[1].label, "software");
    assert!(other[1].args.is_empty());
}

#[test]
fn waveform_and_overlay_counts() {
    assert_eq!(recommend_waveform_peak_count(100), 4000);
    assert_eq!(recommend_waveform_peak_count(5000), 20000);
    assert_eq!(recommend_waveform_peak_count(20000), 48000);
    assert_eq!(danmu_image_overlay_batch_size(0), 1);
    assert_eq!(danmu_image_overlay_batch_size(10), 10);
    assert_eq!(danmu_image_overlay_batch_size(900), 500);
}

#[test]
fn clip_file_names() {
    assert_eq!(clip_media_prefix(true, true), "[subtitle-danmaku]");
    assert_eq!(clip_media_prefix(true, false), PREFIX_SUBTITLE);
    assert_eq!(clip_media_prefix(false, true), PREFIX_DANMAKU);
    assert_eq!(clip_media_prefix(false, false), "[none]");
    assert_eq!(
        clip_output_filename("[none]", "202401011200", "-01", "mp4"),
        "[none][202401011200]-01.mp4"
    );
}

#[test]
fn output_relative_paths() {
    assert_eq!(to_output_relative_path("/out", "/out/a/b.mp4"), "a/b.mp4");
    assert_eq!(to_output_relative_path("/out/", "/out//a/./b.mp4"), "a/./b.mp4");
    assert_eq!(to_output_relative_path("/other", "/out/x.mp4"), "x.mp4");
    assert_eq!(to_output_relative_path("/out", "/out"), "");
    assert_eq!(to_output_relative_path("/out", "/output/x.mp4"), "x.mp4");
}

#[test]
fn imported_video_paths() {
    assert_eq!(
        import_paths("/out", "123", "a:b", "[imported]", "20240101_000000", "/x/v.FLV"),
        (
            "/out/imported/123/a_b".to_string(),
            "/out/imported/123/a_b/[imported]a_b20240101_000000.mp4".to_string(),
            true
        )
    );
    assert_eq!(
        import_paths("/out", "9", "", "[imported]", "t", "/x/clip.mkv"),
        (
            "/out/imported/9/untitled".to_string(),
            "/out/imported/9/untitled/[imported]t.mkv".to_string(),
            false
        )
    );
    assert_eq!(
        import_paths("/out", "9", "n", "", "t", "/x/noext"),
        (
            "/out/imported/9/n".to_string(),
            "/out/imported/9/n/nt.mp4".to_string(),
            false
        )
    );
}
