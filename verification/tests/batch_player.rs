use bili_shadowreplay::batch::{
    batch_file_event_id, batch_import_title, batch_progress_message, BatchImportResult,
};
use bili_shadowreplay::player::{
    dock_fallback_identifier, ignore_missing_macos_native_player_error, player_window_identifier,
};

#[test]
fn batch_counts_and_messages() {
    let mut r = BatchImportResult::new();
    r.record_success(7);
    r.record_failure("/a.mp4", "bad");
    assert_eq!(r.successful_imports, 1);
    assert_eq!(r.failed_imports, 1);
    assert_eq!(r.imported_video_ids, vec![7]);
    assert_eq!(r.errors, vec!["导入失败 /a.mp4: bad".to_string()]);
    assert_eq!(r.summary(), "批量导入完成：成功1个，失败1个");
    let mut ok = BatchImportResult::new();
    ok.record_success(1);
    ok.record_success(2);
    assert_eq!(ok.summary(), "批量导入完成：成功导入2个文件");
    assert_eq!(BatchImportResult::new().summary(), "批量导入完成：成功导入0个文件");
}

#[test]
fn batch_titles_and_progress() {
    assert_eq!(batch_import_title("/x/y/video.final.mp4"), "video.final");
    assert_eq!(batch_import_title(""), "unknown");
    assert_eq!(batch_progress_message(1, 3), "正在导入第1个，共3个文件");
    assert_eq!(batch_file_event_id("e", 0), "e_file_0");
}

#[test]
fn player_identifiers() {
    assert_eq!(player_window_identifier("main", "p1"), "main::p1");
    assert_eq!(dock_fallback_identifier("main::p1"), "main::p1::dock-fallback");
    assert_eq!(
        ignore_missing_macos_native_player_error(Err(
            "macOS macOS native player is not mounted.".to_string()
        )),
        Ok(())
    );
    assert_eq!(
        ignore_missing_macos_native_player_error(Err("other".to_string())),
        Err("other".to_string())
    );
    assert_eq!(ignore_missing_macos_native_player_error(Ok(())), Ok(()));
}
