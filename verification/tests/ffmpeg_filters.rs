use bili_shadowreplay::media::{danmu_compose_filter, danmu_layer_compose_filter, subtitle_filter_path};

#[test]
fn compose_filter_for_batches() {
    assert_eq!(
        danmu_layer_compose_filter(0),
        Err("No danmu layer batches to compose".to_string())
    );
    assert_eq!(
        danmu_layer_compose_filter(1).unwrap(),
        "[0:v]format=rgba[v0];\n[v0]format=argb[vout]\n"
    );
    assert_eq!(
        danmu_layer_compose_filter(3).unwrap(),
        "[0:v]format=rgba[v0];\n\
         [v0][1:v]overlay=x=0:y=0:eof_action=pass:format=auto[v1];\n\
         [v1][2:v]overlay=x=0:y=0:eof_action=pass:format=auto[v2];\n\
         [v2]format=argb[vout]\n"
    );
}

#[test]
fn compose_filter_with_subtitles() {
    assert_eq!(
        danmu_compose_filter("C:\\a's:b.ass"),
        "[0:v]fps=60,ass='C\\:\\\\a\\'s\\:b.ass'[base];\n\
         [base][1:v]overlay=x=0:y=0:eof_action=pass:format=auto,format=yuv420p[vout]\n"
    );
}

#[test]
fn subtitle_path_quoting() {
    assert_eq!(subtitle_filter_path("/v/a:b.srt", false), "'/v/a:b.srt'");
    assert_eq!(subtitle_filter_path("C:\\v\\a.srt", true), "'C\\:\\\\v\\\\a.srt'");
}
