//! What is kept of each capture stream between one batch of samples and the
//! next.

use vstd::prelude::*;
use crate::analysis::bins::{placed, Bin, LaneBins, FINE_BIN_MS};
use crate::analysis::segmenter::{computes, Segmenter};
use crate::analysis::timemap::{Mapping, TimeMap};
use crate::millis::NS_PER_MS;
use crate::scalar::Scalar32;

verus! {

/// The waveform bin in progress.
#[derive(Clone, Copy, Debug, PartialEq, Eq, Structural)]
pub struct PartialBin {
    pub start_sample: u64,
    pub min: Scalar32,
    pub max: Scalar32,
    pub count: usize,
}

/// What a [`LaneProc`] holds.
#[verifier::ext_equal]
pub struct Lane {
    pub gen: u64,
    pub timemap: Mapping,
    pub segmenter: Segmenter,
    pub consumed: u64,
    pub bin: PartialBin,
    pub wav_pending: bool,
    pub seen_device_changes: u64,
}

/// Processing state of one lane.
pub struct LaneProc {
    pub gen: u64,
    pub timemap: TimeMap,
    pub segmenter: Segmenter,
    /// Absolute index of the next sample to process.
    pub consumed: u64,
    pub bin: PartialBin,
    /// Recording was asked for, but no file has been created yet.
    pub wav_pending: bool,
    pub seen_device_changes: u64,
}

impl View for LaneProc {
    type V = Lane;

    open spec fn view(&self) -> Lane {
        Lane {
            gen: self.gen,
            timemap: self.timemap@,
            segmenter: self.segmenter,
            consumed: self.consumed,
            bin: self.bin,
            wav_pending: self.wav_pending,
            seen_device_changes: self.seen_device_changes,
        }
    }
}

impl PartialBin {
    /// No sample yet; the next one is `start_sample`.
    pub open spec fn empty(start_sample: u64) -> PartialBin {
        PartialBin {
            start_sample,
            min: Scalar32 { rank: 0 },
            max: Scalar32 { rank: 0 },
            count: 0,
        }
    }

    /// The bin with one more sample.
    pub open spec fn with(self, s: Scalar32) -> PartialBin {
        PartialBin {
            min: if self.count == 0 || s.rank < self.min.rank {
                s
            } else {
                self.min
            },
            max: if self.count == 0 || s.rank > self.max.rank {
                s
            } else {
                self.max
            },
            count: (self.count + 1) as usize,
            ..self
        }
    }
}

/// The bin in progress and the bins of the timeline.
#[verifier::ext_equal]
pub struct Binning {
    pub bin: PartialBin,
    pub levels: Seq<Seq<Bin>>,
}

/// Position on the timeline, in fine bins, of a time in the session, as far as
/// the machine can index it.
pub open spec fn fine_index(t_ns: u64, session_start_ns: u64) -> usize {
    ((t_ns - session_start_ns) / (FINE_BIN_MS * NS_PER_MS) as int) as usize
}

/// Binning of a run of samples, the first of which has index `base`. A full bin
/// is placed by the time of its first sample; what was heard before the session
/// is left out.
pub open spec fn binned(
    b: Binning,
    samples: Seq<Scalar32>,
    base: u64,
    fine_samples: usize,
    session_start_ns: u64,
    time: spec_fn(u64) -> u64,
) -> Binning
    decreases samples.len(),
{
    if samples.len() == 0 {
        b
    } else {
        let before = binned(b, samples.drop_last(), base, fine_samples, session_start_ns, time);
        let bin = before.bin.with(samples.last());
        if bin.count >= fine_samples {
            let t_ns = time(bin.start_sample);
            Binning {
                bin: PartialBin {
                    start_sample: (base + samples.len()) as u64,
                    count: 0,
                    ..bin
                },
                levels: if t_ns >= session_start_ns {
                    placed(
                        before.levels,
                        fine_index(t_ns, session_start_ns) as nat,
                        Bin { min: bin.min, max: bin.max },
                    )
                } else {
                    before.levels
                },
            }
        } else {
            Binning { bin, ..before }
        }
    }
}

/// A bin that holds nothing starts no earlier than the next sample.
pub open spec fn caught_up(bin: PartialBin, consumed: u64) -> PartialBin {
    if bin.count == 0 && bin.start_sample < consumed {
        PartialBin { start_sample: consumed, ..bin }
    } else {
        bin
    }
}

impl Lane {
    /// No stream has been seen.
    pub open spec fn fresh() -> Lane {
        Lane {
            gen: 0,
            timemap: Mapping::empty(),
            segmenter: Segmenter::fresh(),
            consumed: 0,
            bin: PartialBin::empty(0),
            wav_pending: false,
            seen_device_changes: 0,
        }
    }

    pub open spec fn wf(self) -> bool {
        self.timemap.wf() && self.segmenter.wf() && self.bin.count < usize::MAX
    }

    /// The lane at the start of stream `gen`.
    pub open spec fn restarted(self, gen: u64) -> Lane {
        Lane {
            gen,
            wav_pending: self.wav_pending,
            seen_device_changes: self.seen_device_changes,
            ..Lane::fresh()
        }
    }

    /// The lane at the end of a session: the block in progress is over.
    pub open spec fn closed(self) -> Lane {
        Lane {
            segmenter: Segmenter { active: None, ..self.segmenter },
            wav_pending: false,
            ..self
        }
    }

    /// The lane at the start of a session: the threshold adapted while idle
    /// stays, the block in progress does not.
    pub open spec fn session_started(self) -> Lane {
        Lane {
            bin: PartialBin::empty(self.consumed),
            segmenter: Segmenter { active: None, ..self.segmenter },
            ..self
        }
    }
}

impl LaneProc {
    pub fn new() -> (p: LaneProc)
        ensures
            p@ == Lane::fresh(),
            p@.wf(),
    {
        LaneProc {
            gen: 0,
            timemap: TimeMap::new(),
            segmenter: Segmenter::new(),
            consumed: 0,
            bin: PartialBin {
                start_sample: 0,
                min: Scalar32::zero(),
                max: Scalar32::zero(),
                count: 0,
            },
            wav_pending: false,
            seen_device_changes: 0,
        }
    }

    /// A new stream: sample indexing starts over.
    pub fn reset_stream(&mut self, gen: u64)
        ensures
            final(self)@ == old(self)@.restarted(gen),
            final(self)@.wf(),
    {
        self.gen = gen;
        self.timemap.reset();
        self.segmenter.reset();
        self.consumed = 0;
        self.reset_session_accumulators();
    }

    /// A new session begins on the same stream.
    pub fn reset_session_accumulators(&mut self)
        ensures
            final(self)@ == old(self)@.session_started(),
            old(self)@.wf() ==> final(self)@.wf(),
    {
        self.bin = PartialBin {
            start_sample: self.consumed,
            min: Scalar32::zero(),
            max: Scalar32::zero(),
            count: 0,
        };
        self.segmenter.abort_block();
    }

    /// Draws samples into the waveform. `sample_ns` maps absolute sample indices
    /// to clock time.
    pub fn feed_bins(
        &mut self,
        bins: &mut LaneBins,
        samples: &[Scalar32],
        fine_samples: usize,
        session_start_ns: u64,
        sample_ns: &impl Fn(u64) -> u64,
    )
        requires
            old(self).consumed + samples@.len() <= u64::MAX,
            forall|x: u64| #[trigger] sample_ns.requires((x,)),
            old(self)@.wf(),
        ensures
            final(self)@.wf(),
            forall|time: spec_fn(u64) -> u64| #[trigger] computes(*sample_ns, time) ==> ({
                let end = binned(
                    Binning { bin: caught_up(old(self).bin, old(self).consumed), levels: old(bins)@ },
                    samples@,
                    old(self).consumed,
                    fine_samples,
                    session_start_ns,
                    time,
                );
                final(self)@ == (Lane { bin: end.bin, ..old(self)@ }) && final(bins)@ == end.levels
            }),
            final(self)@ == (Lane { bin: final(self).bin, ..old(self)@ }),
    {
        if self.bin.count == 0 && self.bin.start_sample < self.consumed {
            self.bin.start_sample = self.consumed;
        }
        let ghost start = self.bin;
        let mut i: usize = 0;
        while i < samples.len()
            invariant
                i <= samples@.len(),
                self.consumed + samples@.len() <= u64::MAX,
                forall|x: u64| #[trigger] sample_ns.requires((x,)),
                self@ == (Lane { bin: self.bin, ..old(self)@ }),
                self@.wf(),
                forall|time: spec_fn(u64) -> u64| #[trigger] computes(*sample_ns, time) ==> (Binning {
                    bin: self.bin,
                    levels: bins@,
                }) == binned(
                    Binning { bin: start, levels: old(bins)@ },
                    samples@.take(i as int),
                    old(self).consumed,
                    fine_samples,
                    session_start_ns,
                    time,
                ),
            decreases samples@.len() - i,
        {
            let s = samples[i];
            assert(samples@.take(i + 1).drop_last() =~= samples@.take(i as int));
            assert(samples@.take(i + 1).last() == s);
            if self.bin.count == 0 || s.rank < self.bin.min.rank {
                self.bin.min = s;
            }
            if self.bin.count == 0 || s.rank > self.bin.max.rank {
                self.bin.max = s;
            }
            self.bin.count = self.bin.count + 1;
            if self.bin.count >= fine_samples {
                let t_ns: u64 = sample_ns(self.bin.start_sample);
                if t_ns >= session_start_ns {
                    let idx: u64 = (t_ns - session_start_ns) / 2_000_000;
                    #[verifier::truncate]
                    let idx: usize = idx as usize;
                    bins.push_fine_at(idx, Bin { min: self.bin.min, max: self.bin.max });
                }
                self.bin.start_sample = self.consumed + i as u64 + 1;
                self.bin.count = 0;
            }
            i = i + 1;
        }
        assert(samples@.take(samples@.len() as int) =~= samples@);
    }
}

} // verus!
