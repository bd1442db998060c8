use bili_shadowreplay::media::{
    audio_chunk_file, audio_chunk_layout, audio_chunk_parallelism, audio_chunk_plan,
    audio_sample_rate,
};

#[test]
fn chunk_plan_covers_audio() {
    let plan = audio_chunk_plan(65, 30);
    let got: Vec<(usize, u64, u64)> = plan
        .iter()
        .map(|c| (c.index, c.start_seconds, c.duration_seconds))
        .collect();
    assert_eq!(got, vec![(0, 0, 30), (1, 30, 30), (2, 60, 5)]);
    assert_eq!(audio_chunk_plan(60, 30).len(), 2);
    assert_eq!(audio_chunk_plan(1, 180).len(), 1);
    assert!(audio_chunk_plan(0, 30).is_empty());
}

#[test]
fn chunk_parallelism_bounds() {
    assert_eq!(audio_chunk_parallelism(16, 100), 8);
    assert_eq!(audio_chunk_parallelism(1, 5), 1);
    assert_eq!(audio_chunk_parallelism(4, 2), 2);
    assert_eq!(audio_chunk_parallelism(4, 0), 1);
    assert_eq!(audio_chunk_parallelism(5, 10), 4);
}

#[test]
fn chunk_sample_rate() {
    assert_eq!(audio_sample_rate("mp3"), "22050");
    assert_eq!(audio_sample_rate("wav"), "16000");
}

#[test]
fn chunk_layout_and_names() {
    assert_eq!(
        audio_chunk_layout("tests/audio/test.wav", "wav"),
        Some(("tests/audio/test_chunks".to_string(), "test".to_string()))
    );
    assert_eq!(
        audio_chunk_layout("clip.mp4", "mp3"),
        Some(("clip_chunks".to_string(), "clip".to_string()))
    );
    assert_eq!(audio_chunk_layout("", "wav"), None);
    assert_eq!(
        audio_chunk_file("tests/audio/test_chunks", "test", 7, "mp3"),
        "tests/audio/test_chunks/test_007.mp3"
    );
    assert_eq!(
        audio_chunk_file("d", "b", 1234, "wav"),
        "d/b_1234.wav"
    );
}
