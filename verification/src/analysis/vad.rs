//! Speech classification of the mic lane, for display only.
//!
//! A classifier gives each 32 ms chunk of 16 kHz audio a speech probability.
//! This module frames the chunks and turns the probabilities into speech
//! intervals with hysteresis. The intervals tint the timeline; block edges,
//! turns and metrics never depend on them.

use vstd::prelude::*;
use crate::millis::{span_ns, Millis, NS_PER_MS};
use crate::scalar::Scalar32;

verus! {

/// Samples per chunk: 32 ms at 16 kHz.
pub const CHUNK: usize = 512;

/// Samples of the previous chunk that the classifier sees before each chunk.
pub const CONTEXT: usize = 64;

/// Rank of 0.60, the probability that opens a speech region.
pub const SPEECH_START_PROB: i32 = 0x3F19_999A;

/// Rank of 0.35, the probability that keeps a speech region open.
pub const SPEECH_KEEP_PROB: i32 = 0x3EB3_3333;

/// Silence (probability below the keep level) needed to close a speech region.
pub const SPEECH_HANGOVER_MS: u64 = 240;

/// Speech regions shorter than this are discarded.
pub const MIN_SPEECH_MS: u64 = 96;

/// A classified chunk: the span of stream samples it came from and its speech
/// probability.
#[derive(Clone, Copy, Debug, PartialEq, Eq, Structural)]
pub struct ChunkProb {
    pub start_sample: u64,
    pub end_sample: u64,
    pub prob: Scalar32,
}

/// One input of the classifier and the 16 kHz sample indices of its chunk.
#[derive(Clone, Debug)]
pub struct VadChunk {
    pub input: Vec<Scalar32>,
    pub start_out: u64,
    pub end_out: u64,
}

/// What a [`ChunkFramer`] holds.
#[verifier::ext_equal]
pub struct Framing {
    /// The end of the chunk before, silence at first.
    pub context: Seq<Scalar32>,
    /// Samples that wait for their chunk to fill.
    pub waiting: Seq<Scalar32>,
    /// 16 kHz index of the next sample to come.
    pub out_count: u64,
}

impl Framing {
    /// There is a context, and the waiting samples have been counted.
    pub open spec fn wf(self) -> bool {
        self.context.len() == CONTEXT && self.waiting.len() <= self.out_count
    }

    /// Whether a chunk is full.
    pub open spec fn full(self) -> bool {
        self.waiting.len() >= CHUNK
    }

    /// The classifier input for the next chunk.
    pub open spec fn input(self) -> Seq<Scalar32> {
        self.context + self.waiting.take(CHUNK as int)
    }

    /// 16 kHz index of the next chunk's first sample.
    pub open spec fn start_out(self) -> int {
        self.out_count - self.waiting.len()
    }

    /// What is left once the next chunk is taken.
    pub open spec fn rest(self) -> Framing {
        Framing {
            context: self.waiting.subrange(CHUNK - CONTEXT, CHUNK as int),
            waiting: self.waiting.skip(CHUNK as int),
            out_count: self.out_count,
        }
    }
}

/// Cuts 16 kHz samples into chunks. Chunk indices are absolute, so spans stay
/// right when classification begins in the middle of a stream.
pub struct ChunkFramer {
    context: Vec<Scalar32>,
    waiting: Vec<Scalar32>,
    out_count: u64,
}

impl View for ChunkFramer {
    type V = Framing;

    closed spec fn view(&self) -> Framing {
        Framing { context: self.context@, waiting: self.waiting@, out_count: self.out_count }
    }
}

impl ChunkFramer {
    /// A framer whose first sample will have 16 kHz index `first_out`.
    pub fn new(first_out: u64) -> (f: ChunkFramer)
        ensures
            f@.wf(),
            f@ == (Framing {
                context: Seq::new(CONTEXT as nat, |i: int| Scalar32 { rank: 0 }),
                waiting: Seq::empty(),
                out_count: first_out,
            }),
    {
        let mut context: Vec<Scalar32> = Vec::new();
        while context.len() < CONTEXT
            invariant
                context@.len() <= CONTEXT,
                forall|i: int| 0 <= i < context@.len() ==> context@[i] == (Scalar32 { rank: 0 }),
            decreases CONTEXT - context@.len(),
        {
            context.push(Scalar32 { rank: 0 });
        }
        let f = ChunkFramer { context, waiting: Vec::new(), out_count: first_out };
        assert(f@ =~= (Framing {
            context: Seq::new(CONTEXT as nat, |i: int| Scalar32 { rank: 0 }),
            waiting: Seq::empty(),
            out_count: first_out,
        }));
        f
    }

    /// Adds one 16 kHz sample.
    pub fn push(&mut self, sample: Scalar32)
        requires
            old(self)@.wf(),
            old(self)@.out_count < u64::MAX,
        ensures
            final(self)@.wf(),
            final(self)@ == (Framing {
                waiting: old(self)@.waiting.push(sample),
                out_count: (old(self)@.out_count + 1) as u64,
                ..old(self)@
            }),
    {
        self.waiting.push(sample);
        self.out_count = self.out_count + 1;
    }

    /// Takes the next chunk, if one is full.
    pub fn next_chunk(&mut self) -> (chunk: Option<VadChunk>)
        requires
            old(self)@.wf(),
        ensures
            final(self)@.wf(),
            match chunk {
                Some(c) => {
                    &&& old(self)@.full()
                    &&& c.input@ == old(self)@.input()
                    &&& c.start_out == old(self)@.start_out()
                    &&& c.end_out == c.start_out + CHUNK
                    &&& final(self)@ == old(self)@.rest()
                },
                None => !old(self)@.full() && final(self)@ == old(self)@,
            },
    {
        if self.waiting.len() < CHUNK {
            return None;
        }
        let start_out: u64 = self.out_count - self.waiting.len() as u64;
        let mut input: Vec<Scalar32> = Vec::new();
        let mut context: Vec<Scalar32> = Vec::new();
        let mut rest: Vec<Scalar32> = Vec::new();
        let ghost before = self@;
        let mut i: usize = 0;
        while i < CONTEXT
            invariant
                i <= CONTEXT,
                before == self@,
                before.context.len() == CONTEXT,
                input@ == before.context.take(i as int),
            decreases CONTEXT - i,
        {
            input.push(self.context[i]);
            assert(before.context.take(i + 1) =~= before.context.take(i as int).push(
                before.context[i as int],
            ));
            i = i + 1;
        }
        assert(before.context.take(CONTEXT as int) =~= before.context);
        let mut j: usize = 0;
        let len: usize = self.waiting.len();
        while j < len
            invariant
                j <= len,
                before == self@,
                len == before.waiting.len(),
                len >= CHUNK,
                input@ == before.context + before.waiting.take(if j < CHUNK {
                    j as int
                } else {
                    CHUNK as int
                }),
                context@ == before.waiting.subrange(
                    CHUNK - CONTEXT,
                    if j < CHUNK - CONTEXT {
                        CHUNK - CONTEXT
                    } else if j < CHUNK {
                        j as int
                    } else {
                        CHUNK as int
                    },
                ),
                rest@ == before.waiting.subrange(
                    CHUNK as int,
                    if j < CHUNK {
                        CHUNK as int
                    } else {
                        j as int
                    },
                ),
            decreases len - j,
        {
            let s = self.waiting[j];
            assert(s == before.waiting[j as int]);
            if j < CHUNK {
                input.push(s);
                assert(before.waiting.take(j + 1) =~= before.waiting.take(j as int).push(s));
                assert(input@ =~= before.context + before.waiting.take(j + 1));
                if j >= CHUNK - CONTEXT {
                    context.push(s);
                    assert(context@ =~= before.waiting.subrange(CHUNK - CONTEXT, j + 1));
                }
            } else {
                rest.push(s);
                assert(rest@ =~= before.waiting.subrange(CHUNK as int, j + 1));
            }
            j = j + 1;
        }
        self.context = context;
        self.waiting = rest;
        assert(self@ =~= before.rest());
        Some(VadChunk { input, start_out, end_out: start_out + CHUNK as u64 })
    }
}

/// Chunk spans are contiguous: each chunk begins where the one before ended,
/// and its context is that chunk's end.
pub proof fn law_chunks_are_contiguous(f: Framing)
    requires
        f.wf(),
        f.waiting.len() >= 2 * CHUNK,
    ensures
        f.rest().full(),
        f.rest().start_out() == f.start_out() + CHUNK,
        f.rest().input().take(CONTEXT as int) == f.input().skip(CHUNK as int),
{
    assert(f.rest().input().take(CONTEXT as int) =~= f.input().skip(CHUNK as int));
}

/// An edge of classified speech.
#[derive(Clone, Copy, Debug, PartialEq, Eq, Structural)]
pub enum VadEvent {
    Open { t_ns: u64 },
    Close { t_ns: u64 },
    Cancel,
}

/// Hysteresis over chunk probabilities: speech intervals, for display only.
#[derive(Clone, Copy, Debug, PartialEq, Eq, Structural)]
pub struct SpeechTrack {
    /// Start of the speech region in progress.
    pub open_ns: Option<u64>,
    /// End of the last chunk that kept the region open.
    pub last_speech_end_ns: u64,
}

/// How a speech region that began at `open_ns` ends.
pub open spec fn region_end(open_ns: u64, last_speech_end_ns: u64) -> VadEvent {
    if span_ns(open_ns, last_speech_end_ns) >= MIN_SPEECH_MS * NS_PER_MS {
        VadEvent::Close { t_ns: last_speech_end_ns }
    } else {
        VadEvent::Cancel
    }
}

/// The track after a chunk, and the edges that the chunk gives.
pub open spec fn track_step(
    track: SpeechTrack,
    start_ns: u64,
    end_ns: u64,
    prob: Scalar32,
) -> (SpeechTrack, Seq<VadEvent>) {
    match track.open_ns {
        None => if prob.rank >= SPEECH_START_PROB {
            (
                SpeechTrack { open_ns: Some(start_ns), last_speech_end_ns: end_ns },
                seq![VadEvent::Open { t_ns: start_ns }],
            )
        } else {
            (track, seq![])
        },
        Some(open_ns) => if prob.rank >= SPEECH_KEEP_PROB {
            (SpeechTrack { last_speech_end_ns: end_ns, ..track }, seq![])
        } else if span_ns(track.last_speech_end_ns, end_ns) >= SPEECH_HANGOVER_MS * NS_PER_MS {
            (
                SpeechTrack { open_ns: None, ..track },
                seq![region_end(open_ns, track.last_speech_end_ns)],
            )
        } else {
            (track, seq![])
        },
    }
}

impl Default for SpeechTrack {
    fn default() -> (track: SpeechTrack)
        ensures
            track == (SpeechTrack { open_ns: None, last_speech_end_ns: 0 }),
    {
        SpeechTrack { open_ns: None, last_speech_end_ns: 0 }
    }
}

impl SpeechTrack {
    pub fn reset(&mut self)
        ensures
            *final(self) == (SpeechTrack { open_ns: None, last_speech_end_ns: 0 }),
    {
        *self = SpeechTrack::default();
    }

    /// Takes in one classified chunk.
    pub fn on_chunk(&mut self, start_ns: u64, end_ns: u64, prob: Scalar32, out: &mut Vec<VadEvent>)
        ensures
            *final(self) == track_step(*old(self), start_ns, end_ns, prob).0,
            final(out)@ == old(out)@ + track_step(*old(self), start_ns, end_ns, prob).1,
    {
        match self.open_ns {
            None => {
                if prob.rank >= SPEECH_START_PROB {
                    self.open_ns = Some(start_ns);
                    self.last_speech_end_ns = end_ns;
                    out.push(VadEvent::Open { t_ns: start_ns });
                }
            },
            Some(open_ns) => {
                if prob.rank >= SPEECH_KEEP_PROB {
                    self.last_speech_end_ns = end_ns;
                } else if Millis::between(self.last_speech_end_ns, end_ns).at_least(
                    SPEECH_HANGOVER_MS,
                ) {
                    out.push(self.close_or_cancel(open_ns));
                    self.open_ns = None;
                }
            },
        }
        assert(out@ =~= old(out)@ + track_step(*old(self), start_ns, end_ns, prob).1);
    }

    /// Ends any region in progress.
    pub fn finalize(&mut self, out: &mut Vec<VadEvent>)
        ensures
            *final(self) == (SpeechTrack { open_ns: None, ..*old(self) }),
            final(out)@ == match old(self).open_ns {
                Some(open_ns) => old(out)@.push(region_end(open_ns, old(self).last_speech_end_ns)),
                None => old(out)@,
            },
    {
        if let Some(open_ns) = self.open_ns {
            self.open_ns = None;
            out.push(self.close_or_cancel(open_ns));
        }
    }

    /// Closes the region if it met the minimum length, otherwise cancels it.
    fn close_or_cancel(&self, open_ns: u64) -> (event: VadEvent)
        ensures
            event == region_end(open_ns, self.last_speech_end_ns),
    {
        if Millis::between(open_ns, self.last_speech_end_ns).at_least(MIN_SPEECH_MS) {
            VadEvent::Close { t_ns: self.last_speech_end_ns }
        } else {
            VadEvent::Cancel
        }
    }
}

/// The track after a run of chunks (start, end, probability), with all the
/// edges given.
pub open spec fn followed(
    track: SpeechTrack,
    chunks: Seq<(u64, u64, Scalar32)>,
) -> (SpeechTrack, Seq<VadEvent>)
    decreases chunks.len(),
{
    if chunks.len() == 0 {
        (track, seq![])
    } else {
        let (before, events) = followed(track, chunks.drop_last());
        let (start, end, prob) = chunks.last();
        let (after, more) = track_step(before, start, end, prob);
        (after, events + more)
    }
}

/// From silence, edges of speech alternate, beginning with an open; a region is
/// in progress exactly if the last edge opened one; and every closed region
/// lasted the minimum.
pub proof fn law_speech_edges_form_regions(track: SpeechTrack, chunks: Seq<(u64, u64, Scalar32)>)
    requires
        track.open_ns is None,
    ensures
        ({
            let (after, events) = followed(track, chunks);
            &&& forall|k: int|
                0 <= k < events.len() ==> (#[trigger] events[k] is Open <==> k % 2 == 0)
            &&& (after.open_ns is Some <==> events.len() % 2 == 1)
            &&& after.open_ns matches Some(t) ==> events.last() == (VadEvent::Open { t_ns: t })
            &&& forall|k: int|
                1 <= k < events.len() ==> (#[trigger] events[k] matches VadEvent::Close { t_ns }
                    ==> events[k - 1] is Open && span_ns(events[k - 1]->Open_t_ns, t_ns)
                    >= MIN_SPEECH_MS * NS_PER_MS)
        }),
    decreases chunks.len(),
{
    if chunks.len() > 0 {
        law_speech_edges_form_regions(track, chunks.drop_last());
        let (before, events) = followed(track, chunks.drop_last());
        let (start, end, prob) = chunks.last();
        let (after, more) = track_step(before, start, end, prob);
        assert(more.len() <= 1);
        if more.len() == 1 {
            assert(events + more =~= events.push(more[0]));
        } else {
            assert(events + more =~= events);
        }
    }
}

/// A chunk is full with 512 samples. The classifier sees the 64 samples before
/// it and the chunk itself, in order; what is left begins behind it.
pub proof fn law_chunk_and_its_context(f: Framing)
    requires
        f.context.len() == 64,
    ensures
        f.full() <==> f.waiting.len() >= 512,
        f.start_out() == f.out_count - f.waiting.len(),
        f.waiting.len() >= 512 ==> {
            &&& f.input().len() == 576
            &&& forall|i: int| 0 <= i < 64 ==> f.input()[i] == f.context[i]
            &&& forall|i: int| 64 <= i < 576 ==> f.input()[i] == f.waiting[i - 64]
            &&& f.rest().context.len() == 64
            &&& forall|i: int| 0 <= i < 64 ==> f.rest().context[i] == f.waiting[448 + i]
            &&& f.rest().waiting.len() == f.waiting.len() - 512
            &&& forall|i: int|
                0 <= i < f.waiting.len() - 512 ==> f.rest().waiting[i] == f.waiting[512 + i]
            &&& f.rest().out_count == f.out_count
        },
{
}

/// From silence, a chunk opens a region, at its own start, exactly if its
/// probability is at least 0.60; any other chunk changes nothing.
pub proof fn law_speech_opens_at_its_first_chunk(
    track: SpeechTrack,
    start_ns: u64,
    end_ns: u64,
    prob: Scalar32,
)
    requires
        track.open_ns is None,
    ensures
        prob.rank >= 0x3F19_999A ==> track_step(track, start_ns, end_ns, prob) == (
            SpeechTrack { open_ns: Some(start_ns), last_speech_end_ns: end_ns },
            seq![VadEvent::Open { t_ns: start_ns }],
        ),
        prob.rank < 0x3F19_999A ==> track_step(track, start_ns, end_ns, prob) == (
            track,
            Seq::<VadEvent>::empty(),
        ),
{
}

/// A region goes on with every chunk of probability 0.35 or more, and through
/// silence of less than 240 ms since the last such chunk.
pub proof fn law_speech_goes_on(
    track: SpeechTrack,
    start_ns: u64,
    end_ns: u64,
    prob: Scalar32,
)
    requires
        track.open_ns is Some,
    ensures
        prob.rank >= 0x3EB3_3333 ==> track_step(track, start_ns, end_ns, prob) == (
            SpeechTrack { open_ns: track.open_ns, last_speech_end_ns: end_ns },
            Seq::<VadEvent>::empty(),
        ),
        prob.rank < 0x3EB3_3333 && end_ns - track.last_speech_end_ns < 240_000_000 ==> track_step(
            track,
            start_ns,
            end_ns,
            prob,
        ) == (track, Seq::<VadEvent>::empty()),
{
}

/// After 240 ms of silence a region ends, where its last speech ended, if it
/// lasted 96 ms up to there; a shorter one is taken back.
pub proof fn law_speech_ends_after_silence(
    track: SpeechTrack,
    start_ns: u64,
    end_ns: u64,
    prob: Scalar32,
)
    requires
        track.open_ns is Some,
        prob.rank < 0x3EB3_3333,
        end_ns - track.last_speech_end_ns >= 240_000_000,
    ensures
        ({
            let (after, edges) = track_step(track, start_ns, end_ns, prob);
            let open_ns = track.open_ns->0;
            &&& after.open_ns is None
            &&& track.last_speech_end_ns - open_ns >= 96_000_000 ==> edges == seq![
                VadEvent::Close { t_ns: track.last_speech_end_ns },
            ]
            &&& track.last_speech_end_ns - open_ns < 96_000_000 ==> edges == seq![VadEvent::Cancel]
        }),
{
}

/// The end of a session ends a region by the same rule.
pub proof fn law_region_needs_the_minimum(open_ns: u64, last_speech_end_ns: u64)
    ensures
        last_speech_end_ns - open_ns >= 96_000_000 ==> region_end(open_ns, last_speech_end_ns) == (
        VadEvent::Close { t_ns: last_speech_end_ns }),
        last_speech_end_ns - open_ns < 96_000_000 ==> region_end(open_ns, last_speech_end_ns)
            == VadEvent::Cancel,
{
}

/// Chunks followed in runs give what they give one by one.
pub proof fn law_chunk_runs_join(
    track: SpeechTrack,
    first: Seq<(u64, u64, Scalar32)>,
    second: Seq<(u64, u64, Scalar32)>,
)
    ensures
        ({
            let (mid, edges) = followed(track, first);
            let (end, more) = followed(mid, second);
            followed(track, first + second) == (end, edges + more)
        }),
        forall|start: u64, end: u64, prob: Scalar32|
            followed(track, seq![(start, end, prob)]) == #[trigger] track_step(
                track,
                start,
                end,
                prob,
            ),
    decreases second.len(),
{
    let (mid, edges) = followed(track, first);
    let (end, more) = followed(mid, second);
    if second.len() == 0 {
        assert(first + second =~= first);
        assert(edges + more =~= edges);
    } else {
        law_chunk_runs_join(track, first, second.drop_last());
        assert((first + second).drop_last() =~= first + second.drop_last());
        assert((first + second).last() == second.last());
        assert(followed(track, first + second).1 =~= edges + more);
    }
    assert forall|start: u64, end: u64, prob: Scalar32|
        followed(track, seq![(start, end, prob)]) == #[trigger] track_step(
            track,
            start,
            end,
            prob,
        ) by {
        reveal_with_fuel(followed, 2);
        let one = seq![(start, end, prob)];
        assert(one.drop_last() =~= Seq::empty());
        assert(followed(track, one).1 =~= track_step(track, start, end, prob).1);
    }
}

} // verus!
