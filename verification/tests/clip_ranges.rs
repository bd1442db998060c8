use bili_shadowreplay::clip::{
    clip_danmu_entries_checked, clip_subtitle_items_checked, clip_subtitle_sidecar, items_to_srt,
};
use bili_shadowreplay::clip::{check_encode_request, encoded_media_path, encoded_title_suffix};
use bili_shadowreplay::clip::{
    clip_danmu_entries, clip_group_count, clip_ordinal_suffix, clip_output_dirs, clip_row_title,
    clip_subtitle_items, plan_clip_media, ClipWindow, SubtitleItem,
};
use bili_shadowreplay::danmu::DanmuEntry;
use bili_shadowreplay::media::SrtTime;

fn d(ts: i64, c: &str) -> DanmuEntry {
    DanmuEntry {
        ts,
        content: c.to_string(),
        render_emotes: true,
    }
}

fn t(ms: u64) -> SrtTime {
    SrtTime {
        hours: ms / 3_600_000,
        minutes: (ms / 60_000) % 60,
        seconds: (ms / 1000) % 60,
        milliseconds: ms % 1000,
    }
}

#[test]
fn danmaku_moved_to_clip_time_line() {
    let entries = vec![d(500, "a"), d(1500, "b"), d(2500, "c"), d(9000, "d"), d(300, "e")];
    let windows = vec![
        ClipWindow {
            start_ms: 1000,
            end_ms: 3000,
            duration_ms: 2000,
        },
        ClipWindow {
            start_ms: 8000,
            end_ms: 10000,
            duration_ms: 2000,
        },
    ];
    let clipped = clip_danmu_entries(&entries, &windows, 600, false);
    let v: Vec<(i64, String, bool)> = clipped
        .iter()
        .map(|e| (e.ts, e.content.clone(), e.render_emotes))
        .collect();
    assert_eq!(
        v,
        vec![
            (-500, "a".to_string(), false),
            (500, "b".to_string(), false),
            (1500, "c".to_string(), false),
            (3000, "d".to_string(), false)
        ]
    );
}

#[test]
fn subtitles_cut_to_ranges() {
    let items = vec![
        SubtitleItem {
            pos: 1,
            start_time: t(500),
            end_time: t(2000),
            text: "x".to_string(),
        },
        SubtitleItem {
            pos: 2,
            start_time: t(5000),
            end_time: t(6000),
            text: "y".to_string(),
        },
    ];
    let windows = vec![
        ClipWindow {
            start_ms: 1000,
            end_ms: 3000,
            duration_ms: 2000,
        },
        ClipWindow {
            start_ms: 5500,
            end_ms: 7000,
            duration_ms: 1500,
        },
    ];
    let clipped = clip_subtitle_items(&items, &windows);
    let v: Vec<(usize, SrtTime, SrtTime, String)> = clipped
        .iter()
        .map(|i| (i.pos, i.start_time, i.end_time, i.text.clone()))
        .collect();
    assert_eq!(
        v,
        vec![
            (1, t(0), t(1000), "x".to_string()),
            (2, t(2000), t(2500), "y".to_string())
        ]
    );
}

#[test]
fn clip_groups_and_names() {
    assert_eq!(clip_group_count(3, false), 3);
    assert_eq!(clip_group_count(3, true), 1);
    assert_eq!(clip_group_count(1, false), 1);
    assert_eq!(clip_ordinal_suffix(1, 0), "");
    assert_eq!(clip_ordinal_suffix(3, 0), "-01");
    assert_eq!(clip_ordinal_suffix(12, 11), "-12");
    assert_eq!(clip_ordinal_suffix(120, 99), "-100");
    assert_eq!(clip_row_title("t", 1, 0), "t");
    assert_eq!(clip_row_title("t", 3, 1), "t 2");
    assert_eq!(
        clip_output_dirs("/o", "v"),
        ("/o/outputs/v/clip".to_string(), "/o/outputs/v/压制".to_string())
    );
}

#[test]
fn clip_media_plans() {
    let p = plan_clip_media(true, true, true);
    assert!(p.burn_subtitle && p.burn_danmu && p.in_encoded_dir && p.separate_subtitle_file);
    assert_eq!(p.final_prefix, "[subtitle-danmaku]");
    let p = plan_clip_media(true, false, false);
    assert!(!p.burn_subtitle && !p.in_encoded_dir);
    assert_eq!(p.final_prefix, "[none]");
    let p = plan_clip_media(false, true, true);
    assert!(!p.burn_subtitle && p.burn_danmu && !p.separate_subtitle_file);
    assert_eq!(p.final_prefix, "[danmaku]");
}

#[test]
fn encoded_names_and_requests() {
    assert_eq!(encoded_title_suffix(true, true), " (压制字幕弹幕)");
    assert_eq!(encoded_title_suffix(true, false), " (压制字幕)");
    assert_eq!(encoded_title_suffix(false, true), " (压制弹幕)");
    assert_eq!(encoded_title_suffix(false, false), "");
    assert_eq!(
        encoded_media_path("/out/room/live.mp4", "[subtitle]"),
        "/out/room/[subtitle]live.mp4"
    );
    assert_eq!(encoded_media_path("/", "[danmaku]"), "/[danmaku]video.mp4");
    assert_eq!(check_encode_request(true, true, true, 3), Ok(()));
    assert_eq!(
        check_encode_request(true, false, true, 3),
        Err("字幕文件不存在".to_string())
    );
    assert_eq!(
        check_encode_request(false, false, true, 0),
        Err("弹幕文件不存在或为空".to_string())
    );
    assert_eq!(check_encode_request(false, false, false, 0), Ok(()));
}

#[test]
fn subtitle_sidecar_of_clip() {
    let content = "1\n00:00:01,000 --> 00:00:04,000\nhello\n\n2\n00:00:10,000 --> 00:00:12,500\nworld\n";
    let windows = [ClipWindow { start_ms: 2000, end_ms: 11000, duration_ms: 9000 }];
    assert_eq!(
        clip_subtitle_sidecar(content, &windows),
        Ok(Some(
            "1\n00:00:00,000 --> 00:00:02,000\nhello\n\n2\n00:00:08,000 --> 00:00:09,000\nworld\n\n"
                .to_string()
        ))
    );
    let far = [ClipWindow { start_ms: 60000, end_ms: 70000, duration_ms: 10000 }];
    assert_eq!(clip_subtitle_sidecar(content, &far), Ok(None));
    assert_eq!(clip_subtitle_sidecar("  \n", &windows), Ok(None));
    let err = clip_subtitle_sidecar("x\n00:00:01,000 --> 00:00:02,000\nhi\n", &windows).unwrap_err();
    assert!(err.starts_with("解析原字幕失败: "));
}

#[test]
fn subtitle_items_written_as_srt() {
    let items = vec![SubtitleItem {
        pos: 12,
        start_time: SrtTime { hours: 1, minutes: 2, seconds: 3, milliseconds: 45 },
        end_time: SrtTime { hours: 101, minutes: 0, seconds: 0, milliseconds: 1234 },
        text: "a\nb".to_string(),
    }];
    assert_eq!(items_to_srt(&items), "12\n01:02:03,045 --> 101:00:00,1234\na\nb\n\n");
}

fn win(start_ms: i64, end_ms: i64, duration_ms: i64) -> ClipWindow {
    ClipWindow { start_ms, end_ms, duration_ms }
}

#[test]
fn clipping_overflow_reported() {
    let entries = vec![d(5, "a")];
    assert!(clip_danmu_entries_checked(&entries, &[win(i64::MIN, 0, 10)], 1, true).is_none());
    assert_eq!(
        clip_danmu_entries_checked(&[], &[win(i64::MIN, 0, 10)], 1, true).map(|v| v.len()),
        Some(0)
    );
    let far = 1_i64 << 50;
    let kept = clip_danmu_entries_checked(&[d(far + 5, "x")], &[win(far, far + 100, 100)], 0, true)
        .expect("fits in i64");
    assert_eq!(kept.len(), 1);
    assert_eq!(kept[0].ts, 5);
    let long = [win(0, 10, i64::MAX), win(0, 10, i64::MAX)];
    assert!(clip_danmu_entries_checked(&entries, &long, 0, true).is_none());

    let item = |start: SrtTime, end: SrtTime| SubtitleItem { pos: 1, start_time: start, end_time: end, text: "hi".to_string() };
    let huge = SrtTime { hours: u64::MAX, minutes: 0, seconds: 0, milliseconds: 0 };
    assert!(clip_subtitle_items_checked(&[item(huge, t(1000))], &[win(0, 10_000, 10_000)]).is_none());
    assert!(clip_subtitle_items_checked(&[item(t(0), t(1000))], &[win(i64::MIN, i64::MAX, 10)]).is_none());
    let clipped = clip_subtitle_items_checked(&[item(t(0), t(1000))], &[win(500, 2_000, 1_500)])
        .expect("fits in i64");
    assert_eq!(clipped.len(), 1);
    assert_eq!((clipped[0].start_time.milliseconds, clipped[0].end_time.milliseconds), (0, 500));
}
