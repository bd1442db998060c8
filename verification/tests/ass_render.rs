use bili_shadowreplay::ass::{
    ass_font_name, escape_text, has_visible_text, is_cjk_or_fullwidth, is_emote_segment,
    parse_danmu_render_segments, speed_preset_index, text_anchor_for_segment, DanmuRenderSegment,
    TextAnchor,
};

#[test]
fn test_escape_text_backslash() {
    assert_eq!(escape_text("a\\b"), "a\\\\b");
}

#[test]
fn test_escape_text_braces() {
    assert_eq!(escape_text("{test}"), "｛test｝");
}

#[test]
fn test_escape_text_carriage_return() {
    // \r is removed, \n becomes \N (ASS line break)
    assert_eq!(escape_text("line\r\n"), "line\\N");
}

#[test]
fn test_escape_text_plain() {
    assert_eq!(escape_text("hello world"), "hello world");
}

#[test]
fn text_before_emote_uses_right_anchor() {
    let segments = vec![
        DanmuRenderSegment::Text("远远大于楚子航啊".to_string()),
        DanmuRenderSegment::Emote {
            image_path: "汤圆.png".to_string(),
        },
    ];

    assert!(matches!(
        text_anchor_for_segment(&segments, 0),
        TextAnchor::Right
    ));
}

#[test]
fn text_after_emote_uses_left_anchor() {
    let segments = vec![
        DanmuRenderSegment::Emote {
            image_path: "汤圆.png".to_string(),
        },
        DanmuRenderSegment::Text("远远大于楚子航啊".to_string()),
    ];

    assert!(matches!(
        text_anchor_for_segment(&segments, 1),
        TextAnchor::Left
    ));
}

#[test]
fn lone_text_is_centred() {
    let segments = vec![DanmuRenderSegment::Text("abc".to_string())];
    assert_eq!(text_anchor_for_segment(&segments, 0), TextAnchor::Center);
    // an index past the end has no neighbours
    assert_eq!(text_anchor_for_segment(&segments, 5), TextAnchor::Center);
}

fn texts(segments: &[DanmuRenderSegment]) -> Vec<String> {
    segments
        .iter()
        .map(|s| match s {
            DanmuRenderSegment::Text(t) => format!("T:{t}"),
            DanmuRenderSegment::Emote { image_path } => format!("E:{image_path}"),
        })
        .collect()
}

#[test]
fn render_segments_split_text_and_emotes() {
    let table = vec![("[doge]".to_string(), "doge.png".to_string())];
    let segments = parse_danmu_render_segments("hi[doge]there[x", &table);
    assert_eq!(
        texts(&segments),
        vec!["T:hi", "E:doge.png", "T:there", "T:[x"]
    );
    let segments = parse_danmu_render_segments("[a][doge]", &table);
    assert_eq!(texts(&segments), vec!["T:[a]", "E:doge.png"]);
    assert!(parse_danmu_render_segments("", &table).is_empty());
}

#[test]
fn render_segments_without_emotes_rejoin() {
    let content = "前[a]后[b";
    let segments = parse_danmu_render_segments(content, &Vec::new());
    let joined: String = segments
        .iter()
        .map(|s| match s {
            DanmuRenderSegment::Text(t) => t.clone(),
            DanmuRenderSegment::Emote { .. } => String::new(),
        })
        .collect();
    assert_eq!(joined, content);
    assert_eq!(texts(&segments), vec!["T:前", "T:[a]", "T:后", "T:[b"]);
}

#[test]
fn font_name_is_first_named_font() {
    assert_eq!(
        ass_font_name(r#"SimHei, "Microsoft JhengHei", Arial, Helvetica, sans-serif"#),
        "SimHei"
    );
    assert_eq!(ass_font_name(r#" "Microsoft JhengHei", Arial"#), "Microsoft JhengHei");
    assert_eq!(ass_font_name(" , 'Noto Sans' "), "Noto Sans");
    assert_eq!(ass_font_name(""), "SimHei");
    assert_eq!(ass_font_name(", ,\"\""), "SimHei");
}

#[test]
fn cjk_ranges() {
    assert!(is_cjk_or_fullwidth('中'));
    assert!(is_cjk_or_fullwidth('Ａ'));
    assert!(is_cjk_or_fullwidth('\u{1100}'));
    assert!(!is_cjk_or_fullwidth('a'));
    assert!(!is_cjk_or_fullwidth('\u{fff0}'));
}

#[test]
fn segment_kinds() {
    let t = DanmuRenderSegment::Text(" x ".to_string());
    let blank = DanmuRenderSegment::Text("  ".to_string());
    let e = DanmuRenderSegment::Emote {
        image_path: "a.png".to_string(),
    };
    assert!(has_visible_text(Some(&t)));
    assert!(!has_visible_text(Some(&blank)));
    assert!(!has_visible_text(Some(&e)));
    assert!(!has_visible_text(None));
    assert!(is_emote_segment(Some(&e)));
    assert!(!is_emote_segment(Some(&t)));
    assert!(!is_emote_segment(None));
}

#[test]
fn speed_preset_is_clamped() {
    assert_eq!(speed_preset_index(-3), 0);
    assert_eq!(speed_preset_index(2), 2);
    assert_eq!(speed_preset_index(9), 4);
}
