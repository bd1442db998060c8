use bili_shadowreplay::realtime::{
    fun_asr_event_kind, pcm_audio_payloads, qwen_event_kind, require_api_key, FunAsrEventKind,
    QwenEventKind,
};
use bili_shadowreplay::realtime::{
    count_realtime_srt_sentences, filetrans_poll_decision, filetrans_sentence,
    fun_asr_final_sentence, fun_asr_task_options, realtime_srt_cues, saturating_add_i64,
    select_asr_route, AsrRoute, FiletransPoll, FunTaskResult, QwenItemTimes, RealtimeSrtWriter,
    RealtimeTranscript, TaskOutput,
};
use bili_shadowreplay::realtime::{
    FunAsrEvent, FunAsrResult, FunAsrSession, QwenEvent, QwenSession, RealtimeAction,
};
use bili_shadowreplay::reflow::RealtimeSentence;

fn sentence(text: &str, b: i64, e: i64) -> RealtimeSentence {
    RealtimeSentence {
        begin_ms: b,
        end_ms: e,
        text: text.to_string(),
        tokens: Vec::new(),
    }
}

#[test]
fn routes_by_model() {
    assert_eq!(select_asr_route("fun-asr-realtime"), AsrRoute::FunAsrRealtime);
    assert_eq!(select_asr_route("qwen-asr-realtime"), AsrRoute::QwenRealtime);
    assert_eq!(select_asr_route("fun-asr"), AsrRoute::Filetrans);
    assert_eq!(select_asr_route("qwen3-asr-flash-filetrans"), AsrRoute::Filetrans);
    assert_eq!(select_asr_route("whisper-1"), AsrRoute::OpenAiTranscription);
}

#[test]
fn partial_writer_cues() {
    let writer = RealtimeSrtWriter::new("/p.srt", 10, 5);
    assert_eq!(writer.offset_ms, 10_000);
    let cue = writer.cue_for(0, 100, 900, " hi ").unwrap();
    assert_eq!((cue.index, cue.begin_ms, cue.end_ms, cue.text.as_str()), (5, 10_100, 10_900, "hi"));
    assert!(writer.cue_for(1, 900, 900, "x").is_none());
    assert!(writer.cue_for(0, 0, 100, "  ").is_none());
    let late = writer.cue_for(2, i64::MAX - 5, i64::MAX - 1, "x").unwrap();
    assert_eq!(late.begin_ms, i64::MAX);
    assert_eq!(saturating_add_i64(i64::MIN, -1), i64::MIN);
    assert_eq!(saturating_add_i64(3, 4), 7);
}

#[test]
fn run_cues_keep_their_place() {
    let sentences = vec![
        sentence("a", 0, 100),
        sentence("", 100, 200),
        sentence("b", 300, 200),
        sentence(" c ", 400, 500),
    ];
    let cues = realtime_srt_cues(&sentences);
    let v: Vec<(usize, i64, i64, String)> = cues
        .iter()
        .map(|c| (c.index, c.begin_ms, c.end_ms, c.text.clone()))
        .collect();
    assert_eq!(
        v,
        vec![(1, 0, 100, "a".to_string()), (4, 400, 500, "c".to_string())]
    );
    assert_eq!(count_realtime_srt_sentences(&sentences), 2);
}

#[test]
fn qwen_items_timed() {
    let mut t = QwenItemTimes::new();
    t.speech_started("i1", 100);
    t.speech_stopped("i1", 900);
    let s = t.complete("i1", " hello ").unwrap();
    assert_eq!((s.begin_ms, s.end_ms, s.text.as_str()), (100, 900, "hello"));
    assert_eq!(t.last_end_ms, 900);
    assert!(t.starts.is_empty() && t.ends.is_empty());
    let s = t.complete("i2", "next").unwrap();
    assert_eq!((s.begin_ms, s.end_ms), (900, 1900));
    assert_eq!(t.last_end_ms, 1900);
    t.speech_started("i3", 50);
    assert!(t.complete("i3", "  ").is_none());
    assert_eq!(t.starts.len(), 1);
}

#[test]
fn transcript_numbers_partial_cues() {
    let mut run = RealtimeTranscript::new();
    let (base, cues) = run.add_sentence(&sentence("hi", 0, 1000)).unwrap();
    assert_eq!(base, 0);
    assert_eq!(cues.len(), 1);
    assert_eq!(cues[0].text, "hi");
    let (base, cues) = run.add_sentence(&sentence("", 1000, 2000)).unwrap();
    assert_eq!(base, 1);
    assert!(cues.is_empty());
    let (base, _) = run.add_sentence(&sentence("yo", 2000, 3000)).unwrap();
    assert_eq!(base, 1);
    assert!(run.sentences.len() >= 2);
}

#[test]
fn fun_asr_final_sentences() {
    let s = fun_asr_final_sentence(Some(false), Some(true), " hello world ", Some(100), None, Vec::new())
        .unwrap();
    assert_eq!((s.begin_ms, s.end_ms, s.text.as_str()), (100, 1100, "hello world"));
    assert!(s.tokens.is_empty());
    assert!(fun_asr_final_sentence(Some(true), Some(true), "x", None, None, Vec::new()).is_none());
    assert!(fun_asr_final_sentence(None, None, "x", None, None, Vec::new()).is_none());
    assert!(fun_asr_final_sentence(None, Some(true), "  ", None, None, Vec::new()).is_none());
    let s = fun_asr_final_sentence(None, Some(true), "x", None, Some(5), Vec::new()).unwrap();
    assert_eq!((s.begin_ms, s.end_ms), (0, 5));
}

#[test]
fn fun_asr_options() {
    assert_eq!(
        fun_asr_task_options(Some(" v1 "), "zh"),
        (Some("v1".to_string()), Some("zh".to_string()))
    );
    assert_eq!(fun_asr_task_options(Some("  "), "auto"), (None, None));
    assert_eq!(fun_asr_task_options(None, " "), (None, None));
    assert_eq!(fun_asr_task_options(None, " en"), (None, Some(" en".to_string())));
}

#[test]
fn filetrans_sentences() {
    assert!(filetrans_sentence(0, 500, "  ", None).is_none());
    let s = filetrans_sentence(0, 500, " ok ", None).unwrap();
    assert_eq!(s.text, "ok");
    assert!(s.tokens.is_empty());
}

fn output(status: &str) -> TaskOutput {
    TaskOutput {
        task_status: status.to_string(),
        result_url: None,
        first_result: None,
        code: None,
        message: None,
    }
}

fn decision(d: FiletransPoll) -> (u8, String) {
    match d {
        FiletransPoll::Ready(u) => (0, u),
        FiletransPoll::Wait => (1, String::new()),
        FiletransPoll::Fail(m) => (2, m),
    }
}

#[test]
fn filetrans_poll_decisions() {
    assert_eq!(decision(filetrans_poll_decision(false, output("RUNNING"))), (1, String::new()));
    assert_eq!(decision(filetrans_poll_decision(true, output("PENDING"))), (1, String::new()));
    let mut failed = output("FAILED");
    failed.code = Some("E1".to_string());
    assert_eq!(
        decision(filetrans_poll_decision(false, failed)),
        (2, "Filetrans ASR task failed: E1 ".to_string())
    );
    let mut ok = output("SUCCEEDED");
    ok.result_url = Some("u".to_string());
    assert_eq!(decision(filetrans_poll_decision(false, ok)), (0, "u".to_string()));
    assert_eq!(
        decision(filetrans_poll_decision(false, output("SUCCEEDED"))),
        (2, "Qwen filetrans result missing transcription_url".to_string())
    );
    assert_eq!(
        decision(filetrans_poll_decision(true, output("SUCCEEDED"))),
        (2, "Fun-ASR filetrans result missing results".to_string())
    );
    let mut sub = output("SUCCEEDED");
    sub.first_result = Some(FunTaskResult {
        transcription_url: None,
        subtask_status: "FAILED".to_string(),
        code: Some("c".to_string()),
        message: Some("m".to_string()),
    });
    assert_eq!(
        decision(filetrans_poll_decision(true, sub)),
        (2, "Fun-ASR filetrans subtask failed: c m".to_string())
    );
    let mut good = output("SUCCEEDED");
    good.first_result = Some(FunTaskResult {
        transcription_url: Some("t".to_string()),
        subtask_status: "SUCCEEDED".to_string(),
        code: None,
        message: None,
    });
    assert_eq!(decision(filetrans_poll_decision(true, good)), (0, "t".to_string()));
    assert_eq!(
        decision(filetrans_poll_decision(true, output("WHAT"))),
        (2, "Filetrans ASR task returned unknown status: WHAT".to_string())
    );
}

#[test]
fn api_key_required() {
    assert_eq!(require_api_key(None), Err("API key not configured".to_string()));
    assert_eq!(require_api_key(Some("  ")), Err("API key not configured".to_string()));
    assert_eq!(require_api_key(Some("sk-1")), Ok("sk-1".to_string()));
}

#[test]
fn realtime_event_kinds() {
    assert_eq!(qwen_event_kind(Some("session.updated")), QwenEventKind::SessionUpdated);
    assert_eq!(
        qwen_event_kind(Some("conversation.item.input_audio_transcription.completed")),
        QwenEventKind::TranscriptionCompleted
    );
    assert_eq!(qwen_event_kind(Some("session.finished")), QwenEventKind::SessionFinished);
    assert_eq!(qwen_event_kind(Some("response.done")), QwenEventKind::Other);
    assert_eq!(qwen_event_kind(None), QwenEventKind::Other);
    assert_eq!(fun_asr_event_kind(Some("task-started")), FunAsrEventKind::TaskStarted);
    assert_eq!(fun_asr_event_kind(Some("result-generated")), FunAsrEventKind::ResultGenerated);
    assert_eq!(fun_asr_event_kind(Some("task-failed")), FunAsrEventKind::TaskFailed);
    assert_eq!(fun_asr_event_kind(None), FunAsrEventKind::Other);
}

#[test]
fn audio_payloads_in_chunks() {
    assert!(pcm_audio_payloads(&[]).is_empty());
    assert_eq!(pcm_audio_payloads(b"abc"), vec!["YWJj".to_string()]);
    let mut pcm = vec![0u8; 16_001];
    pcm[16_000] = 0xff;
    let payloads = pcm_audio_payloads(&pcm);
    assert_eq!(payloads.len(), 2);
    assert_eq!(payloads[0].len(), 21_336);
    assert_eq!(payloads[1], "/w==");
}

fn qwen(kind: &str, item: Option<&str>, start: Option<i64>, end: Option<i64>, text: Option<&str>) -> QwenEvent {
    QwenEvent {
        event_type: Some(kind.to_string()),
        item_id: item.map(str::to_string),
        audio_start_ms: start,
        audio_end_ms: end,
        transcript: text.map(str::to_string),
        error_text: "\"boom\"".to_string(),
        event_text: format!("{{\"type\":\"{kind}\"}}"),
    }
}

#[test]
fn qwen_session_steps() {
    let mut session = QwenSession::new();
    let started = qwen("input_audio_buffer.speech_started", Some("a"), Some(1000), None, None);
    assert!(matches!(session.step(&started), RealtimeAction::Continue));
    assert!(session.times.starts.is_empty());
    assert!(matches!(
        session.step(&qwen("session.updated", None, None, None, None)),
        RealtimeAction::Ready
    ));
    assert!(matches!(session.step(&started), RealtimeAction::Continue));
    let stopped = qwen("input_audio_buffer.speech_stopped", Some("a"), None, Some(2500), None);
    assert!(matches!(session.step(&stopped), RealtimeAction::Continue));
    let completed = qwen(
        "conversation.item.input_audio_transcription.completed",
        Some("a"),
        None,
        None,
        Some(" 你好。 "),
    );
    match session.step(&completed) {
        RealtimeAction::Cues(base, cues) => {
            assert_eq!(base, 0);
            assert_eq!(cues.len(), 1);
            assert_eq!((cues[0].begin_ms, cues[0].end_ms), (1000, 2500));
            assert_eq!(cues[0].text, "你好。");
        }
        other => panic!("unexpected {other:?}"),
    }
    assert_eq!(session.times.last_end_ms, 2500);
    assert_eq!(session.transcript.sentences.len(), 1);
    let blank = qwen("conversation.item.input_audio_transcription.completed", Some("b"), None, None, None);
    assert!(matches!(session.step(&blank), RealtimeAction::Continue));
    match session.step(&qwen("error", None, None, None, None)) {
        RealtimeAction::Fail(m) => assert_eq!(m, "Qwen realtime ASR error: \"boom\""),
        other => panic!("unexpected {other:?}"),
    }
    match session.step(&qwen("conversation.item.input_audio_transcription.failed", None, None, None, None)) {
        RealtimeAction::Fail(m) => assert_eq!(
            m,
            "Qwen realtime ASR transcription failed: {\"type\":\"conversation.item.input_audio_transcription.failed\"}"
        ),
        other => panic!("unexpected {other:?}"),
    }
    assert!(matches!(
        session.step(&qwen("session.finished", None, None, None, None)),
        RealtimeAction::Finished
    ));
}

fn fun_event(name: &str, sentence: Option<FunAsrResult>) -> FunAsrEvent {
    FunAsrEvent {
        event: Some(name.to_string()),
        sentence,
        event_text: format!("{{\"event\":\"{name}\"}}"),
    }
}

#[test]
fn fun_asr_session_steps() {
    let mut session = FunAsrSession::new();
    match session.step(fun_event("task-failed", None)) {
        RealtimeAction::Fail(m) => assert_eq!(m, "Fun-ASR realtime task failed: {\"event\":\"task-failed\"}"),
        other => panic!("unexpected {other:?}"),
    }
    assert!(matches!(session.step(fun_event("task-started", None)), RealtimeAction::Ready));
    let partial = FunAsrResult {
        heartbeat: None,
        sentence_end: Some(false),
        text: "你好".to_string(),
        begin_time: Some(0),
        end_time: Some(900),
        words: Vec::new(),
    };
    assert!(matches!(
        session.step(fun_event("result-generated", Some(partial))),
        RealtimeAction::Continue
    ));
    let last = FunAsrResult {
        heartbeat: None,
        sentence_end: Some(true),
        text: "你好。".to_string(),
        begin_time: Some(0),
        end_time: Some(900),
        words: Vec::new(),
    };
    match session.step(fun_event("result-generated", Some(last))) {
        RealtimeAction::Cues(base, cues) => {
            assert_eq!(base, 0);
            assert_eq!(cues.len(), 1);
            assert_eq!((cues[0].begin_ms, cues[0].end_ms), (0, 900));
        }
        other => panic!("unexpected {other:?}"),
    }
    assert!(matches!(session.step(fun_event("task-finished", None)), RealtimeAction::Finished));
}

#[test]
fn sessions_report_overflowing_sentences() {
    let mut session = QwenSession::new();
    assert!(matches!(
        session.step(&qwen("session.updated", None, None, None, None)),
        RealtimeAction::Ready
    ));
    let started = qwen("input_audio_buffer.speech_started", Some("z"), Some(i64::MAX - 10), None, None);
    session.step(&started);
    let stopped = qwen("input_audio_buffer.speech_stopped", Some("z"), None, Some(i64::MAX), None);
    session.step(&stopped);
    let completed = qwen(
        "conversation.item.input_audio_transcription.completed",
        Some("z"),
        None,
        None,
        Some("好"),
    );
    assert!(matches!(session.step(&completed), RealtimeAction::Overflow));
    assert!(session.transcript.sentences.is_empty());

    let mut fun = FunAsrSession::new();
    fun.step(fun_event("task-started", None));
    let last = FunAsrResult {
        heartbeat: None,
        sentence_end: Some(true),
        text: "好".to_string(),
        begin_time: Some(i64::MIN),
        end_time: Some(i64::MAX),
        words: Vec::new(),
    };
    assert!(matches!(fun.step(fun_event("result-generated", Some(last))), RealtimeAction::Overflow));
}
