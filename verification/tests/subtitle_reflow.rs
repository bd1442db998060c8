use bili_shadowreplay::reflow::{
    align_timed_tokens_to_sentence_text, make_fallback_timed_tokens, split_sentence_checked,
    split_sentence_for_subtitles,
    subtitle_break_priority, subtitle_text_width, wrap_subtitle_text, RealtimeSentence,
    TimedSubtitleToken,
};

#[test]
fn test_align_timed_tokens_preserves_english_spaces() {
    let tokens = vec![
        TimedSubtitleToken {
            begin_ms: 0,
            end_ms: 300,
            text: "hello".to_string(),
        },
        TimedSubtitleToken {
            begin_ms: 300,
            end_ms: 900,
            text: "world.".to_string(),
        },
    ];
    let aligned = align_timed_tokens_to_sentence_text("hello world.", tokens);
    let text = aligned
        .iter()
        .map(|token| token.text.as_str())
        .collect::<String>();
    assert_eq!(text, "hello world.");
}

#[test]
fn test_split_sentence_for_subtitles_uses_token_timing() {
    let text = "现在这句话非常非常长需要被拆成多条字幕否则单行显示会太挤而且阅读速度也不稳定。";
    let tokens = text
        .chars()
        .enumerate()
        .map(|(index, ch)| TimedSubtitleToken {
            begin_ms: index as i64 * 120,
            end_ms: index as i64 * 120 + 120,
            text: ch.to_string(),
        })
        .collect::<Vec<_>>();
    let sentence = RealtimeSentence {
        begin_ms: 0,
        end_ms: tokens.last().map(|token| token.end_ms).unwrap_or(0),
        text: text.to_string(),
        tokens,
    };

    let split = split_sentence_for_subtitles(&sentence);
    assert!(split.len() > 1);
    assert_eq!(
        split
            .iter()
            .map(|sentence| sentence.text.replace('\n', ""))
            .collect::<String>(),
        text
    );
    assert!(split
        .windows(2)
        .all(|window| window[0].end_ms <= window[1].begin_ms));
}

#[test]
fn widths_in_half_columns() {
    assert_eq!(subtitle_text_width("a b"), 5);
    assert_eq!(subtitle_text_width("中文"), 8);
    assert_eq!(subtitle_text_width(""), 0);
}

#[test]
fn break_priorities() {
    assert_eq!(subtitle_break_priority("好。"), 3);
    assert_eq!(subtitle_break_priority("a, "), 2);
    assert_eq!(subtitle_break_priority("a\t"), 0);
    assert_eq!(subtitle_break_priority("abc"), 0);
    assert_eq!(subtitle_break_priority(""), 0);
}

#[test]
fn short_text_is_only_trimmed() {
    assert_eq!(wrap_subtitle_text("  hello  "), "hello");
}

#[test]
fn short_sentence_lasts_at_least_the_minimum() {
    let sentence = RealtimeSentence {
        begin_ms: 1000,
        end_ms: 1200,
        text: "好".to_string(),
        tokens: Vec::new(),
    };
    let split = split_sentence_for_subtitles(&sentence);
    assert_eq!(split.len(), 1);
    assert_eq!(split[0].begin_ms, 1000);
    assert_eq!(split[0].end_ms, 1700);
    assert_eq!(split[0].text, "好");
}

#[test]
fn blank_or_empty_span_gives_no_cue() {
    let blank = RealtimeSentence {
        begin_ms: 0,
        end_ms: 1000,
        text: "  ".to_string(),
        tokens: Vec::new(),
    };
    assert!(split_sentence_for_subtitles(&blank).is_empty());
    let backwards = RealtimeSentence {
        begin_ms: 1000,
        end_ms: 1000,
        text: "x".to_string(),
        tokens: Vec::new(),
    };
    assert!(split_sentence_for_subtitles(&backwards).is_empty());
}

#[test]
fn fallback_tokens_share_the_span() {
    let sentence = RealtimeSentence {
        begin_ms: 0,
        end_ms: 300,
        text: "abc".to_string(),
        tokens: Vec::new(),
    };
    let tokens = make_fallback_timed_tokens(&sentence);
    let spans: Vec<(i64, i64, String)> = tokens
        .iter()
        .map(|t| (t.begin_ms, t.end_ms, t.text.clone()))
        .collect();
    assert_eq!(
        spans,
        vec![
            (0, 100, "a".to_string()),
            (100, 200, "b".to_string()),
            (200, 300, "c".to_string())
        ]
    );
}

#[test]
fn split_keeps_visible_text() {
    let text = "现在这句话非常非常长需要被拆成多条字幕, 否则单行显示会太挤 而且阅读速度也不稳定。";
    let sentence = RealtimeSentence {
        begin_ms: 1_000,
        end_ms: 9_000,
        text: text.to_string(),
        tokens: Vec::new(),
    };
    let cues = split_sentence_for_subtitles(&sentence);
    assert!(cues.len() > 1);
    let joined: String = cues.iter().flat_map(|c| c.text.chars()).filter(|c| !c.is_whitespace()).collect();
    let expected: String = text.chars().filter(|c| !c.is_whitespace()).collect();
    assert_eq!(joined, expected);
    assert!(cues.iter().all(|c| c.tokens.is_empty() && c.end_ms - c.begin_ms >= 700));
}

#[test]
fn short_cues_lengthened_may_overlap() {
    let first = "一二三四五六七八九十一二三四五六七八九十";
    let second = "十九八七六五四三二一十九八七六五四三二一";
    let sentence = RealtimeSentence {
        begin_ms: 0,
        end_ms: 200,
        text: format!("{first}{second}"),
        tokens: vec![
            TimedSubtitleToken { begin_ms: 0, end_ms: 100, text: first.to_string() },
            TimedSubtitleToken { begin_ms: 100, end_ms: 200, text: second.to_string() },
        ],
    };
    let cues = split_sentence_for_subtitles(&sentence);
    assert_eq!(cues.len(), 2);
    assert_eq!((cues[0].begin_ms, cues[0].end_ms), (0, 700));
    assert_eq!((cues[1].begin_ms, cues[1].end_ms), (100, 800));
    let joined: String = cues.iter().flat_map(|c| c.text.chars()).filter(|c| !c.is_whitespace()).collect();
    assert_eq!(joined, format!("{first}{second}"));
}

#[test]
fn fallback_cues_do_not_overlap() {
    let text = "现在这句话非常非常长需要被拆成多条字幕否则单行显示会太挤而且阅读速度也不稳定。";
    let sentence = RealtimeSentence {
        begin_ms: 0,
        end_ms: 20_000,
        text: text.to_string(),
        tokens: Vec::new(),
    };
    let cues = split_sentence_for_subtitles(&sentence);
    assert!(cues.len() > 1);
    assert!(cues
        .windows(2)
        .all(|w| w[0].end_ms <= w[1].begin_ms || w[0].end_ms == w[0].begin_ms + 700));
    assert!(cues.windows(2).all(|w| w[0].end_ms <= w[1].begin_ms));
}

#[test]
fn splitting_overflow_reported() {
    let far = RealtimeSentence {
        begin_ms: 4_000_000_000_000_000_000,
        end_ms: 4_000_000_000_000_001_000,
        text: "你好".to_string(),
        tokens: Vec::new(),
    };
    let cues = split_sentence_checked(&far).expect("fits in i64");
    assert_eq!(cues.len(), 1);
    assert_eq!((cues[0].begin_ms, cues[0].end_ms), (4_000_000_000_000_000_000, 4_000_000_000_000_001_000));
    assert_eq!(split_sentence_for_subtitles(&far).len(), 1);

    let whole_range = RealtimeSentence {
        begin_ms: i64::MIN,
        end_ms: i64::MAX,
        text: "好".to_string(),
        tokens: Vec::new(),
    };
    assert!(split_sentence_checked(&whole_range).is_none());

    let at_the_end = RealtimeSentence {
        begin_ms: i64::MAX - 100,
        end_ms: i64::MAX,
        text: "好".to_string(),
        tokens: Vec::new(),
    };
    assert!(split_sentence_checked(&at_the_end).is_none());

    let apart = RealtimeSentence {
        begin_ms: i64::MIN + 1,
        end_ms: i64::MAX - 1,
        text: "a b".to_string(),
        tokens: vec![
            TimedSubtitleToken { begin_ms: i64::MIN + 1, end_ms: i64::MIN + 10, text: "a".to_string() },
            TimedSubtitleToken { begin_ms: i64::MAX - 10, end_ms: i64::MAX - 1, text: " b".to_string() },
        ],
    };
    assert!(split_sentence_checked(&apart).is_none());

    let blank = RealtimeSentence { begin_ms: i64::MIN, end_ms: i64::MAX, text: "  ".to_string(), tokens: Vec::new() };
    assert_eq!(split_sentence_checked(&blank).map(|v| v.len()), Some(0));
}
