use bili_shadowreplay::danmu::{
    decode_danmu_content, encode_danmu_content, format_danmu_line, parse_danmu_entries,
    parse_danmu_storage, serialize_danmu_entries, DanmuCache, DanmuEntry,
};

fn view(es: &[DanmuEntry]) -> Vec<(i64, String, bool)> {
    es.iter()
        .map(|e| (e.ts, e.content.clone(), e.render_emotes))
        .collect()
}

#[test]
fn content_marker_round_trip() {
    assert_eq!(
        decode_danmu_content("__BSR_NO_EMOTE__abc"),
        ("abc".to_string(), false)
    );
    assert_eq!(decode_danmu_content("abc"), ("abc".to_string(), true));
    assert_eq!(encode_danmu_content("abc", false), "__BSR_NO_EMOTE__abc");
    assert_eq!(encode_danmu_content("abc", true), "abc");
    let (c, r) = decode_danmu_content(&encode_danmu_content("[doge]", false));
    assert_eq!((c.as_str(), r), ("[doge]", false));
}

#[test]
fn storage_lines_parsed_in_order() {
    let text = "10:a\nbad\n-5:__BSR_NO_EMOTE__b\r\nx:y\n20:c:d";
    assert_eq!(
        view(&parse_danmu_storage(text)),
        vec![
            (10, "a".to_string(), true),
            (-5, "b".to_string(), false),
            (20, "c:d".to_string(), true)
        ]
    );
}

#[test]
fn storage_written_then_read_back() {
    let entries = vec![
        DanmuEntry {
            ts: 10,
            content: "a".to_string(),
            render_emotes: true,
        },
        DanmuEntry {
            ts: -5,
            content: "b".to_string(),
            render_emotes: false,
        },
    ];
    let text = serialize_danmu_entries(&entries);
    assert_eq!(text, "10:a\n-5:__BSR_NO_EMOTE__b\n");
    assert_eq!(view(&parse_danmu_storage(&text)), view(&entries));
}

#[test]
fn sidecar_sorted_stably() {
    let text = "30:c\n10:a\n20:b\n10:z\n";
    assert_eq!(
        view(&parse_danmu_entries(text)),
        vec![
            (10, "a".to_string(), true),
            (10, "z".to_string(), true),
            (20, "b".to_string(), true),
            (30, "c".to_string(), true)
        ]
    );
}

#[test]
fn cache_add_and_relative_entries() {
    let mut cache = DanmuCache::from_stored_text("10:a\n20:__BSR_NO_EMOTE__b\n");
    let line = cache.add_line(40, "d");
    assert_eq!(line, "40:d\n");
    assert_eq!(format_danmu_line(7, "x"), "7:x\n");
    assert_eq!(
        view(&cache.get_entries(15)),
        vec![(5, "b".to_string(), false), (25, "d".to_string(), true)]
    );
    // what was added reads back after a reload
    let reloaded = DanmuCache::from_stored_text(&format!("10:a\n20:__BSR_NO_EMOTE__b\n{line}"));
    assert_eq!(view(&reloaded.entries), view(&cache.entries));
}
