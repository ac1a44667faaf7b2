use pipecat_audio_metrics::analysis::vad::{
    ChunkFramer, SpeechTrack, VadEvent, CHUNK, CONTEXT, SPEECH_KEEP_PROB, SPEECH_START_PROB,
};
use pipecat_audio_metrics::scalar::Scalar32;

fn key(x: f32) -> Scalar32 {
    Scalar32::from_bits(x.to_bits()).unwrap()
}

#[test]
fn speech_track_hysteresis() {
    let mut track = SpeechTrack::default();
    let mut evs = Vec::new();
    let ms = |m: u64| m * 1_000_000;
    // 10 chunks of speech (32ms each), then silence.
    for i in 0..10u64 {
        track.on_chunk(ms(i * 32), ms((i + 1) * 32), key(0.9), &mut evs);
    }
    assert_eq!(evs, vec![VadEvent::Open { t_ns: 0 }]);
    for i in 10..20u64 {
        track.on_chunk(ms(i * 32), ms((i + 1) * 32), key(0.1), &mut evs);
    }
    assert_eq!(evs.len(), 2);
    assert_eq!(evs[1], VadEvent::Close { t_ns: ms(320) });
}

#[test]
fn speech_track_cancels_blips() {
    let mut track = SpeechTrack::default();
    let mut evs = Vec::new();
    let ms = |m: u64| m * 1_000_000;
    // Single 32ms chunk over threshold: shorter than the minimum.
    track.on_chunk(0, ms(32), key(0.9), &mut evs);
    for i in 1..12u64 {
        track.on_chunk(ms(i * 32), ms((i + 1) * 32), key(0.05), &mut evs);
    }
    assert_eq!(evs, vec![VadEvent::Open { t_ns: 0 }, VadEvent::Cancel]);
}

/// The probabilities that open and keep a region.
#[test]
fn probability_levels() {
    assert_eq!(Scalar32 { rank: SPEECH_START_PROB }, key(0.60));
    assert_eq!(Scalar32 { rank: SPEECH_KEEP_PROB }, key(0.35));
    let mut track = SpeechTrack::default();
    let mut evs = Vec::new();
    track.on_chunk(0, 32_000_000, key(0.599), &mut evs);
    assert!(evs.is_empty());
    track.on_chunk(0, 32_000_000, key(0.60), &mut evs);
    assert_eq!(evs.len(), 1);
    track.on_chunk(32_000_000, 600_000_000, key(0.35), &mut evs);
    assert_eq!(track.last_speech_end_ns, 600_000_000);
}

#[test]
fn speech_track_finalizes_and_resets() {
    let mut track = SpeechTrack::default();
    let mut evs = Vec::new();
    track.on_chunk(0, 96_000_000, key(0.9), &mut evs);
    track.finalize(&mut evs);
    assert_eq!(evs, vec![VadEvent::Open { t_ns: 0 }, VadEvent::Close { t_ns: 96_000_000 }]);
    track.finalize(&mut evs);
    assert_eq!(evs.len(), 2);
    track.on_chunk(0, 1, key(0.9), &mut evs);
    track.reset();
    assert_eq!(track, SpeechTrack::default());
}

/// Chunks begin at the index of the first sample, follow each other without a
/// gap, and each brings the end of the one before as its context.
#[test]
fn chunks_are_framed() {
    let first = 5 * 60 * 16_000u64;
    let mut framer = ChunkFramer::new(first);
    assert!(framer.next_chunk().is_none());
    for i in 0..(2 * CHUNK + 10) {
        framer.push(Scalar32 { rank: i as i32 + 1 });
    }
    let a = framer.next_chunk().unwrap();
    let b = framer.next_chunk().unwrap();
    assert!(framer.next_chunk().is_none());
    assert_eq!((a.start_out, a.end_out), (first, first + 512));
    assert_eq!((b.start_out, b.end_out), (a.end_out, first + 1024));
    assert_eq!(a.input.len(), CONTEXT + CHUNK);
    assert!(a.input[..CONTEXT].iter().all(|s| s.rank == 0));
    assert_eq!(a.input[CONTEXT].rank, 1);
    assert_eq!(b.input[..CONTEXT], a.input[CHUNK..]);
    assert_eq!(b.input[CONTEXT].rank, CHUNK as i32 + 1);
}
