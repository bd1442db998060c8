use bili_shadowreplay::bilibili::{segment_fetch_step, SegmentResponse, SegmentStep};
use bili_shadowreplay::bilibili::{
    backoff_millis, classify_segment_body, default_page_number, is_rate_limited, merge_entries,
    normalize_bvid, retry_backoff, segment_entries, select_page, total_segments,
    DanmakuCollector, ImportedDanmuEntry, SegmentBody, SegmentElem, SegmentOutcome, VideoPage,
};

fn entry(ts: i64, content: &str) -> ImportedDanmuEntry {
    ImportedDanmuEntry {
        ts,
        content: content.to_string(),
    }
}

fn view(es: &[ImportedDanmuEntry]) -> Vec<(i64, String)> {
    es.iter().map(|e| (e.ts, e.content.clone())).collect()
}

#[test]
fn bvid_normalized() {
    assert_eq!(normalize_bvid("  bv1xx411c7mD "), Ok("BV1xx411c7mD".to_string()));
    assert_eq!(normalize_bvid("Bv1234567890"), Ok("BV1234567890".to_string()));
    assert_eq!(normalize_bvid(""), Err("BV 号不能为空".to_string()));
    assert_eq!(normalize_bvid("   "), Err("BV 号不能为空".to_string()));
    assert_eq!(normalize_bvid("BV123"), Err("请输入有效的 BV 号".to_string()));
    assert_eq!(normalize_bvid("av170001abcd"), Err("请输入有效的 BV 号".to_string()));
    // the length is counted in bytes
    assert_eq!(normalize_bvid("BV12345678é"), Ok("BV12345678é".to_string()));
    assert_eq!(normalize_bvid("BV1234567é"), Err("请输入有效的 BV 号".to_string()));
}

#[test]
fn pages_selected_by_number() {
    assert_eq!(default_page_number(), 1);
    let pages = [
        VideoPage {
            cid: 11,
            page: 1,
            duration: 100,
        },
        VideoPage {
            cid: 22,
            page: 2,
            duration: 800,
        },
    ];
    assert_eq!(select_page(&pages, 2).unwrap().cid, 22);
    assert_eq!(select_page(&pages, 3), Err("BV 中不存在 P3".to_string()));
    assert_eq!(select_page(&pages, -1), Err("BV 中不存在 P-1".to_string()));
    assert_eq!(select_page(&[], 1), Err("该 BV 没有可用分 P".to_string()));
}

#[test]
fn retries_back_off() {
    assert_eq!(backoff_millis(0), 1200);
    assert_eq!(backoff_millis(1), 2400);
    assert_eq!(backoff_millis(6), 76800);
    assert_eq!(backoff_millis(10), 76800);
    assert_eq!(retry_backoff(0), Some(1200));
    assert_eq!(retry_backoff(2), Some(4800));
    assert_eq!(retry_backoff(3), None);
}

#[test]
fn rate_limit_detected() {
    assert!(is_rate_limited(-352, ""));
    assert!(is_rate_limited(0, "请求过于频繁"));
    assert!(is_rate_limited(0, "code -352"));
    assert!(!is_rate_limited(-400, "ok"));
}

#[test]
fn segment_count() {
    assert_eq!(total_segments(0), 1);
    assert_eq!(total_segments(-5), 1);
    assert_eq!(total_segments(360), 1);
    assert_eq!(total_segments(361), 2);
    assert_eq!(total_segments(720), 2);
    assert_eq!(total_segments(721), 3);
}

#[test]
fn segment_danmaku_filtered() {
    let elems = vec![
        SegmentElem {
            progress: 1000,
            mode: 1,
            content: " hi\r\nthere ".to_string(),
        },
        SegmentElem {
            progress: 1,
            mode: 8,
            content: "code".to_string(),
        },
        SegmentElem {
            progress: -1,
            mode: 1,
            content: "early".to_string(),
        },
        SegmentElem {
            progress: 5,
            mode: 4,
            content: "   ".to_string(),
        },
        SegmentElem {
            progress: 7,
            mode: 7,
            content: "a\nb".to_string(),
        },
    ];
    assert_eq!(
        view(&segment_entries(&elems)),
        vec![(1000, "hi  there".to_string()), (7, "a b".to_string())]
    );
}

#[test]
fn segment_bodies() {
    assert_eq!(classify_segment_body(&[0x10, 0x01]), SegmentBody::Closed);
    assert_eq!(classify_segment_body(b"{\"code\":-352}"), SegmentBody::Json);
    assert_eq!(classify_segment_body(&[0x10]), SegmentBody::Protobuf);
    assert_eq!(classify_segment_body(&[]), SegmentBody::Protobuf);
    assert_eq!(classify_segment_body(&[0x10, 0x01, 0x00]), SegmentBody::Protobuf);
}

#[test]
fn merge_orders_and_drops_repeats() {
    let merged = merge_entries(vec![
        entry(20, "b"),
        entry(10, "z"),
        entry(10, "a"),
        entry(20, "b"),
        entry(10, "ab"),
    ]);
    assert_eq!(
        view(&merged),
        vec![
            (10, "a".to_string()),
            (10, "ab".to_string()),
            (10, "z".to_string()),
            (20, "b".to_string())
        ]
    );
}

#[test]
fn collector_runs_segments() {
    let mut c = DanmakuCollector::new(3);
    assert_eq!(c.next_segment_index(), Some(1));
    c.record(SegmentOutcome::Entries(vec![entry(5, "x")]));
    assert_eq!(c.next_segment_index(), Some(2));
    c.record(SegmentOutcome::RateLimited);
    assert_eq!(c.next_segment_index(), Some(3));
    c.record(SegmentOutcome::Entries(vec![entry(1, "y"), entry(5, "x")]));
    assert_eq!(c.next_segment_index(), None);
    let page = VideoPage {
        cid: 9,
        page: 2,
        duration: 1000,
    };
    let data = c.finish("BV1234567890".to_string(), 77, page);
    assert_eq!(view(&data.entries), vec![(1, "y".to_string()), (5, "x".to_string())]);
    assert_eq!(data.download.saved_count, 2);
    assert_eq!(data.download.skipped_segments, 1);
    assert_eq!(data.download.total_segments, 3);
    assert_eq!(data.download.cid, 9);
    assert_eq!(data.download.page, 2);
    assert_eq!(data.download.aid, 77);
}

#[test]
fn collector_stops_when_closed() {
    let mut c = DanmakuCollector::new(5);
    c.record(SegmentOutcome::Closed);
    assert_eq!(c.next_segment_index(), None);
}

#[test]
fn segment_fetch_decisions() {
    let step = segment_fetch_step(3, 0, SegmentResponse::SendFailed("timeout".to_string()));
    assert!(matches!(step, SegmentStep::Retry(1200)));
    let step = segment_fetch_step(3, 2, SegmentResponse::BadStatus("502".to_string()));
    assert!(matches!(step, SegmentStep::Retry(4800)));
    match segment_fetch_step(3, 3, SegmentResponse::SendFailed("timeout".to_string())) {
        SegmentStep::Fatal(m) => assert_eq!(m, "下载弹幕分段 3 失败: timeout"),
        other => panic!("unexpected {:?}", other),
    }
    match segment_fetch_step(7, 3, SegmentResponse::JsonAnswer { code: -352, message: "风控".to_string() }) {
        SegmentStep::RateLimited(m) => assert_eq!(m, "弹幕分段 7 被限流: 风控 (-352)"),
        other => panic!("unexpected {:?}", other),
    }
    match segment_fetch_step(7, 0, SegmentResponse::JsonAnswer { code: -400, message: "bad".to_string() }) {
        SegmentStep::Fatal(m) => assert_eq!(m, "弹幕分段 7 返回错误: bad (-400)"),
        other => panic!("unexpected {:?}", other),
    }
    assert!(matches!(
        segment_fetch_step(1, 0, SegmentResponse::Closed),
        SegmentStep::Outcome(SegmentOutcome::Closed)
    ));
    let elems = vec![
        SegmentElem { progress: 1500, mode: 1, content: " hi\n".to_string() },
        SegmentElem { progress: 10, mode: 9, content: "x".to_string() },
    ];
    match segment_fetch_step(1, 0, SegmentResponse::Elems(elems)) {
        SegmentStep::Outcome(SegmentOutcome::Entries(es)) => {
            assert_eq!(es.len(), 1);
            assert_eq!(es[0].ts, 1500);
            assert_eq!(es[0].content, "hi");
        }
        other => panic!("unexpected {:?}", other),
    }
}
