use bili_shadowreplay::ass::emote_table_entry;
use bili_shadowreplay::filetrans::oss_upload_target;
use bili_shadowreplay::media::{videos_compatible, VideoStreamInfo};

#[test]
fn upload_target_names() {
    assert_eq!(
        oss_upload_target("dashscope-instant/abc//", "/tmp/a/clip.mp3"),
        (
            "clip.mp3".to_string(),
            "dashscope-instant/abc/clip.mp3".to_string(),
            "oss://dashscope-instant/abc/clip.mp3".to_string()
        )
    );
    assert_eq!(
        oss_upload_target("dir", "/"),
        (
            "audio.mp3".to_string(),
            "dir/audio.mp3".to_string(),
            "oss://dir/audio.mp3".to_string()
        )
    );
}

#[test]
fn emote_entries_from_png_files() {
    assert_eq!(
        emote_table_entry("/res/danmaku-emotes/doge.png"),
        Some(("[doge]".to_string(), "/res/danmaku-emotes/doge.png".to_string()))
    );
    assert_eq!(
        emote_table_entry("/res/danmaku-emotes/汤圆.PNG"),
        Some(("[汤圆]".to_string(), "/res/danmaku-emotes/汤圆.PNG".to_string()))
    );
    assert_eq!(emote_table_entry("/res/danmaku-emotes/readme.txt"), None);
    assert_eq!(emote_table_entry("/res/danmaku-emotes/noext"), None);
}

fn info(v: &str, a: &str, w: u32, h: u32) -> VideoStreamInfo {
    VideoStreamInfo {
        video_codec: v.to_string(),
        audio_codec: a.to_string(),
        width: w,
        height: h,
    }
}

#[test]
fn videos_compatibility() {
    assert!(videos_compatible(&[]));
    assert!(videos_compatible(&[info("h264", "aac", 1920, 1080)]));
    assert!(videos_compatible(&[
        info("h264", "aac", 1920, 1080),
        info("h264", "aac", 1920, 1080)
    ]));
    assert!(!videos_compatible(&[
        info("h264", "aac", 1920, 1080),
        info("hevc", "aac", 1920, 1080)
    ]));
    assert!(!videos_compatible(&[
        info("h264", "aac", 1920, 1080),
        info("h264", "aac", 1280, 720)
    ]));
    assert!(!videos_compatible(&[
        info("", "", 0, 0),
        info("h264", "aac", 1280, 720)
    ]));
    assert!(!videos_compatible(&[
        info("h264", "", 1920, 1080),
        info("h264", "aac", 1920, 1080)
    ]));
    assert!(!videos_compatible(&[
        info("h264", "aac", 1920, 1080),
        info("h264", "aac", 1920, 1080),
        info("h264", "aac", 1920, 720)
    ]));
    assert!(!videos_compatible(&[
        info("h264", "aac", 1280, 720),
        info("h264", "opus", 1280, 720)
    ]));
}
