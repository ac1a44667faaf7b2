//! The waveform shows the range of the samples, at every level of detail.

use vstd::prelude::*;
use crate::analysis::bins::{
    aligned, cascaded, envelope, law_levels_stay_aligned, law_placed_bin_is_aligned, padded, placed,
    Bin,
};
use crate::analysis::lane::{binned, caught_up, Binning, Lane, PartialBin};
use crate::analysis::segmenter::{sized, Segmenter};
use crate::scalar::Scalar32;

verus! {

/// `min` and `max` are the least and the greatest of the samples.
pub open spec fn is_range(min: Scalar32, max: Scalar32, samples: Seq<Scalar32>) -> bool {
    &&& samples.contains(min)
    &&& samples.contains(max)
    &&& forall|i: int|
        0 <= i < samples.len() ==> min.rank <= (#[trigger] samples[i]).rank <= max.rank
}

/// How a stream is cut into batches does not show in the waveform.
pub proof fn law_binning_joins(
    b: Binning,
    first: Seq<Scalar32>,
    second: Seq<Scalar32>,
    base: u64,
    fine_samples: usize,
    session_start_ns: u64,
    time: spec_fn(u64) -> u64,
)
    requires
        base + first.len() + second.len() <= u64::MAX,
    ensures
        binned(b, first + second, base, fine_samples, session_start_ns, time) == binned(
            binned(b, first, base, fine_samples, session_start_ns, time),
            second,
            (base + first.len()) as u64,
            fine_samples,
            session_start_ns,
            time,
        ),
    decreases second.len(),
{
    if second.len() == 0 {
        assert(first + second =~= first);
    } else {
        law_binning_joins(
            b,
            first,
            second.drop_last(),
            base,
            fine_samples,
            session_start_ns,
            time,
        );
        assert((first + second).drop_last() =~= first + second.drop_last());
        assert((first + second).last() == second.last());
    }
}

/// A bin in progress holds the range of the samples taken since it began, and
/// nothing is drawn before it is full.
pub proof fn law_bin_in_progress_covers_its_samples(
    b: Binning,
    samples: Seq<Scalar32>,
    base: u64,
    fine_samples: usize,
    session_start_ns: u64,
    time: spec_fn(u64) -> u64,
)
    requires
        b.bin.count == 0,
        0 < samples.len() < fine_samples,
    ensures
        ({
            let after = binned(b, samples, base, fine_samples, session_start_ns, time);
            &&& after.levels == b.levels
            &&& after.bin.count == samples.len()
            &&& after.bin.start_sample == b.bin.start_sample
            &&& is_range(after.bin.min, after.bin.max, samples)
        }),
    decreases samples.len(),
{
    let rest = samples.drop_last();
    let after = binned(b, samples, base, fine_samples, session_start_ns, time);
    assert(samples[samples.len() - 1] == samples.last());
    if rest.len() > 0 {
        law_bin_in_progress_covers_its_samples(
            b,
            rest,
            base,
            fine_samples,
            session_start_ns,
            time,
        );
        lemma_range_grows(b, samples, base, fine_samples, session_start_ns, time);
    } else {
        assert(binned(b, rest, base, fine_samples, session_start_ns, time) == b);
        assert(samples =~= seq![samples.last()]);
    }
}

proof fn lemma_range_grows(
    b: Binning,
    samples: Seq<Scalar32>,
    base: u64,
    fine_samples: usize,
    session_start_ns: u64,
    time: spec_fn(u64) -> u64,
)
    requires
        samples.len() > 1,
        ({
            let before = binned(
                b,
                samples.drop_last(),
                base,
                fine_samples,
                session_start_ns,
                time,
            );
            before.bin.count == samples.len() - 1 && is_range(
                before.bin.min,
                before.bin.max,
                samples.drop_last(),
            )
        }),
    ensures
        ({
            let before = binned(
                b,
                samples.drop_last(),
                base,
                fine_samples,
                session_start_ns,
                time,
            );
            let bin = before.bin.with(samples.last());
            is_range(bin.min, bin.max, samples)
        }),
{
    let rest = samples.drop_last();
    let before = binned(b, rest, base, fine_samples, session_start_ns, time);
    let bin = before.bin.with(samples.last());
    let n = samples.len() - 1;
    assert(samples[n] == samples.last());
    let i = choose|i: int| 0 <= i < rest.len() && rest[i] == before.bin.min;
    let j = choose|j: int| 0 <= j < rest.len() && rest[j] == before.bin.max;
    assert(samples[i] == before.bin.min && samples[j] == before.bin.max);
    assert forall|k: int| 0 <= k < samples.len() implies bin.min.rank <= (
    #[trigger] samples[k]).rank <= bin.max.rank by {
        if k < n {
            assert(rest[k] == samples[k]);
        }
    }
}

/// A full bin is drawn as the range of exactly its samples, at the place on the
/// timeline of its first sample: two milliseconds to a bin. What was heard
/// before the session is left out. The next bin starts with the next sample.
pub proof fn law_full_bin_is_drawn_as_its_range(
    b: Binning,
    samples: Seq<Scalar32>,
    base: u64,
    fine_samples: usize,
    session_start_ns: u64,
    time: spec_fn(u64) -> u64,
)
    requires
        b.bin.count == 0,
        samples.len() > 0,
        samples.len() == fine_samples || samples.len() == 1 && fine_samples == 0,
        base + samples.len() <= u64::MAX,
        (time(b.bin.start_sample) - session_start_ns) / 2_000_000 <= usize::MAX,
    ensures
        ({
            let after = binned(b, samples, base, fine_samples, session_start_ns, time);
            let t_ns = time(b.bin.start_sample);
            &&& after.bin.count == 0
            &&& after.bin.start_sample == base + samples.len()
            &&& t_ns < session_start_ns ==> after.levels == b.levels
            &&& t_ns >= session_start_ns ==> exists|bin: Bin|
                is_range(bin.min, bin.max, samples) && after.levels == #[trigger] placed(
                    b.levels,
                    ((t_ns - session_start_ns) / 2_000_000) as nat,
                    bin,
                )
        }),
{
    let rest = samples.drop_last();
    let before = binned(b, rest, base, fine_samples, session_start_ns, time);
    let bin = before.bin.with(samples.last());
    assert(samples[samples.len() - 1] == samples.last());
    if rest.len() > 0 {
        law_bin_in_progress_covers_its_samples(
            b,
            rest,
            base,
            fine_samples,
            session_start_ns,
            time,
        );
        lemma_range_grows(b, samples, base, fine_samples, session_start_ns, time);
    } else {
        assert(before == b);
        assert(samples =~= seq![samples.last()]);
    }
    let drawn = Bin { min: bin.min, max: bin.max };
    assert(is_range(drawn.min, drawn.max, samples));
    let after = binned(b, samples, base, fine_samples, session_start_ns, time);
    let t_ns = time(b.bin.start_sample);
    if t_ns >= session_start_ns {
        assert(after.levels == placed(
            b.levels,
            ((t_ns - session_start_ns) / 2_000_000) as nat,
            drawn,
        ));
    }
}

/// A bin that holds samples goes on as it is; an empty one starts no earlier
/// than the next sample to come.
pub proof fn law_empty_bin_catches_up(bin: PartialBin, consumed: u64)
    ensures
        bin.count > 0 ==> caught_up(bin, consumed) == bin,
        bin.count == 0 ==> caught_up(bin, consumed).count == 0,
        bin.count == 0 && bin.start_sample <= consumed ==> caught_up(bin, consumed).start_sample
            == consumed,
        bin.count == 0 && bin.start_sample > consumed ==> caught_up(bin, consumed).start_sample
            == bin.start_sample,
{
}

/// The range of a run of bins covers each of them, and is no wider than it must
/// be.
pub proof fn law_envelope_is_the_range(bins: Seq<Bin>)
    requires
        bins.len() > 0,
    ensures
        forall|i: int|
            0 <= i < bins.len() ==> envelope(bins).min.rank <= (#[trigger] bins[i]).min.rank
                && bins[i].max.rank <= envelope(bins).max.rank,
        exists|i: int| 0 <= i < bins.len() && (#[trigger] bins[i]).min == envelope(bins).min,
        exists|i: int| 0 <= i < bins.len() && (#[trigger] bins[i]).max == envelope(bins).max,
    decreases bins.len(),
{
    let n = bins.len() - 1;
    assert(bins[n] == bins.last());
    if bins.len() > 1 {
        let rest = bins.drop_last();
        law_envelope_is_the_range(rest);
        let i = choose|i: int| 0 <= i < rest.len() && (#[trigger] rest[i]).min == envelope(rest).min;
        let j = choose|j: int| 0 <= j < rest.len() && (#[trigger] rest[j]).max == envelope(rest).max;
        assert(bins[i] == rest[i] && bins[j] == rest[j]);
        assert forall|k: int| 0 <= k < bins.len() implies envelope(bins).min.rank <= (
        #[trigger] bins[k]).min.rank && bins[k].max.rank <= envelope(bins).max.rank by {
            if k < n {
                assert(rest[k] == bins[k]);
            }
        }
    }
}

proof fn lemma_cascade_keeps_finer(levels: Seq<Seq<Bin>>, level: nat, k: int)
    requires
        1 <= level,
        levels.len() == 4,
        0 <= k < level,
        k < 4,
    ensures
        cascaded(levels, level)[k] == levels[k],
        cascaded(levels, level).len() == 4,
    decreases 4 - level,
{
    if level < 4 {
        let finer = levels[level - 1];
        if finer.len() != 0 && finer.len() % 8 == 0 {
            let group = finer.skip(finer.len() - 8);
            let next = levels.update(level as int, levels[level as int].push(envelope(group)));
            lemma_cascade_keeps_finer(next, level + 1, k);
        }
    }
}

/// Whenever eight fine bins are complete, the first coarser level gets a bin with
/// exactly their range; otherwise it stays as it is.
pub proof fn law_eight_fine_bins_make_a_coarse_one(levels: Seq<Seq<Bin>>, bin: Bin)
    requires
        levels.len() == 4,
    ensures
        ({
            let after = placed(levels, levels[0].len(), bin);
            let n = levels[0].len() + 1;
            &&& after[0] == levels[0].push(bin)
            &&& n % 8 != 0 ==> after[1] == levels[1]
            &&& n % 8 == 0 ==> {
                let coarse = after[1].last();
                let group = after[0].subrange(n - 8, n as int);
                &&& after[1].drop_last() == levels[1]
                &&& forall|i: int|
                    0 <= i < 8 ==> coarse.min.rank <= (#[trigger] group[i]).min.rank
                        && group[i].max.rank <= coarse.max.rank
                &&& exists|i: int| 0 <= i < 8 && (#[trigger] group[i]).min == coarse.min
                &&& exists|i: int| 0 <= i < 8 && (#[trigger] group[i]).max == coarse.max
            }
        }),
{
    let n = levels[0].len() + 1;
    let fine = levels[0].push(bin);
    let next = levels.update(0, fine);
    let after = placed(levels, levels[0].len(), bin);
    assert(padded(levels, 0) == levels);
    assert(after == cascaded(next, 1));
    lemma_cascade_keeps_finer(next, 1, 0);
    if n % 8 == 0 {
        let group = fine.skip(n - 8);
        let summed = next.update(1, next[1].push(envelope(group)));
        assert(after == cascaded(summed, 2));
        lemma_cascade_keeps_finer(summed, 2, 1);
        law_envelope_is_the_range(group);
        assert(group =~= fine.subrange(n - 8, n as int));
        assert(after[1].drop_last() =~= levels[1]);
    }
}

/// The same one and two levels up: eight bins of a level make one of the next,
/// with exactly their range, at the moment the eighth is complete.
pub proof fn law_eight_coarse_bins_make_a_coarser_one(
    levels: Seq<Seq<Bin>>,
    bin: Bin,
    level: int,
)
    requires
        levels.len() == 4,
        2 <= level < 4,
    ensures
        ({
            let after = placed(levels, levels[0].len(), bin);
            let finer = after[level - 1];
            let n = finer.len() as int;
            &&& n == levels[level - 1].len() || n % 8 != 0 ==> after[level] == levels[level]
            &&& n == levels[level - 1].len() + 1 && n % 8 == 0 ==> {
                let coarse = after[level].last();
                let group = finer.subrange(n - 8, n);
                &&& after[level].drop_last() == levels[level]
                &&& forall|i: int|
                    0 <= i < 8 ==> coarse.min.rank <= (#[trigger] group[i]).min.rank
                        && group[i].max.rank <= coarse.max.rank
                &&& exists|i: int| 0 <= i < 8 && (#[trigger] group[i]).min == coarse.min
                &&& exists|i: int| 0 <= i < 8 && (#[trigger] group[i]).max == coarse.max
            }
        }),
{
    let next = levels.update(0, levels[0].push(bin));
    let after = placed(levels, levels[0].len(), bin);
    assert(padded(levels, 0) == levels);
    assert(after == cascaded(next, 1));
    lemma_cascade_step(next, 1, level);
    let finer = after[level - 1];
    let n = finer.len() as int;
    if n == levels[level - 1].len() + 1 && n % 8 == 0 {
        let group = finer.skip(n - 8);
        law_envelope_is_the_range(group);
        assert(group =~= finer.subrange(n - 8, n));
        assert(after[level].drop_last() =~= levels[level]);
    }
}

/// What a cascade from level `from` leaves at `level`.
proof fn lemma_cascade_step(levels: Seq<Seq<Bin>>, from: nat, level: int)
    requires
        levels.len() == 4,
        1 <= from <= level < 4,
    ensures
        ({
            let after = cascaded(levels, from);
            let finer = after[level - 1];
            let n = finer.len() as int;
            &&& (after[level - 1] == levels[level - 1] && from < level) || n % 8 != 0 || n == 0
                ==> after[level] == levels[level]
            &&& (after[level - 1] != levels[level - 1] || from == level) && n % 8 == 0 && n != 0
                ==> after[level] == levels[level].push(envelope(finer.skip(n - 8)))
            &&& from < level ==> after[level - 1] == levels[level - 1] || after[level - 1].len()
                == levels[level - 1].len() + 1
        }),
    decreases 4 - from,
{
    let finer = levels[from - 1];
    if finer.len() != 0 && finer.len() % 8 == 0 {
        let group = finer.skip(finer.len() - 8);
        let next = levels.update(from as int, levels[from as int].push(envelope(group)));
        assert(cascaded(levels, from) == cascaded(next, from + 1));
        if from == level {
            lemma_cascade_keeps_finer(next, from + 1, level);
            lemma_cascade_keeps_finer(next, from + 1, level - 1);
        } else {
            lemma_cascade_step(next, from + 1, level);
            lemma_cascade_keeps_finer(next, from + 1, from as int);
            assert(next[from as int].len() == levels[from as int].len() + 1);
        }
    } else {
        assert(cascaded(levels, from) == levels);
    }
}

/// The window length of a stream is the first one learned, and at least one
/// sample; the first window starts where the stream was first heard.
pub proof fn law_window_length_is_learned_once(seg: Segmenter, window: usize, base_sample: u64)
    ensures
        ({
            let after = sized(seg, window, base_sample);
            &&& seg.window_samples > 0 ==> after == seg
            &&& seg.window_samples == 0 ==> {
                &&& after.window_samples >= 1
                &&& window >= 1 ==> after.window_samples == window
                &&& after.window_start_sample == base_sample
                &&& after.active == seg.active
                &&& after.n_in_window == seg.n_in_window
                &&& after.first_above_in_window == seg.first_above_in_window
                &&& after.last_above_in_window == seg.last_above_in_window
                &&& after.effective_threshold_db == seg.effective_threshold_db
            }
        }),
{
}

/// What is placed past the end stands at its own index; the gap before it is
/// flat silence, and what was drawn stays.
pub proof fn law_gap_is_drawn_as_silence(levels: Seq<Seq<Bin>>, idx: nat, bin: Bin)
    requires
        aligned(levels),
        idx >= levels[0].len(),
    ensures
        ({
            let fine = placed(levels, idx, bin)[0];
            &&& fine.len() == idx + 1
            &&& fine[idx as int] == bin
            &&& forall|k: int| 0 <= k < levels[0].len() ==> fine[k] == levels[0][k]
            &&& forall|k: int|
                levels[0].len() <= k < idx ==> (#[trigger] fine[k]).min.rank == 0
                    && fine[k].max.rank == 0
        }),
{
    law_placed_bin_is_aligned(levels, idx, bin);
}

/// What is placed behind the end widens the latest bin by exactly as much as it
/// takes, and changes nothing else.
pub proof fn law_late_bin_widens_no_more_than_needed(levels: Seq<Seq<Bin>>, idx: nat, bin: Bin)
    requires
        levels.len() == 4,
        idx < levels[0].len(),
    ensures
        ({
            let after = placed(levels, idx, bin);
            let last = levels[0].len() - 1;
            let was = levels[0][last];
            let is = after[0][last];
            &&& after.len() == 4
            &&& after[0].len() == levels[0].len()
            &&& is.min.rank <= was.min.rank && is.min.rank <= bin.min.rank
            &&& is.max.rank >= was.max.rank && is.max.rank >= bin.max.rank
            &&& is.min == was.min || is.min == bin.min
            &&& is.max == was.max || is.max == bin.max
            &&& forall|k: int| 0 <= k < last ==> after[0][k] == levels[0][k]
            &&& forall|k: int| 1 <= k < 4 ==> after[k] == levels[k]
        }),
{
}

/// Every level has an eighth of the bins of the one below it, groups in progress
/// left out, and placing a bin anywhere keeps it so.
pub proof fn law_levels_are_eightfold(levels: Seq<Seq<Bin>>, idx: nat, bin: Bin)
    requires
        aligned(levels),
    ensures
        ({
            let after = placed(levels, idx, bin);
            &&& after.len() == 4
            &&& after[1].len() == after[0].len() / 8
            &&& after[2].len() == after[1].len() / 8
            &&& after[3].len() == after[2].len() / 8
        }),
{
    law_levels_stay_aligned(levels, idx, bin);
}

/// The empty bin is silence: zero to zero.
pub proof fn law_silent_bin_is_flat()
    ensures
        Bin::silent().min.rank == 0,
        Bin::silent().max.rank == 0,
{
}

/// A new stream starts with nothing in progress: no sample used, no bin begun, no
/// block open, no time known. What was asked of the lane stays asked.
pub proof fn law_new_stream_starts_from_nothing(lane: Lane, gen: u64)
    ensures
        ({
            let after = lane.restarted(gen);
            &&& after.gen == gen
            &&& after.consumed == 0
            &&& after.bin.start_sample == 0 && after.bin.count == 0
            &&& after.segmenter.active is None
            &&& after.segmenter.window_samples == 0 && after.segmenter.n_in_window == 0
            &&& after.wav_pending == lane.wav_pending
            &&& after.seen_device_changes == lane.seen_device_changes
        }),
{
}

/// A session that starts drops the block and the bin in progress, and begins its
/// first bin at the next sample; the stream goes on as it is.
pub proof fn law_session_starts_between_samples(lane: Lane)
    ensures
        ({
            let after = lane.session_started();
            &&& after.bin.start_sample == lane.consumed && after.bin.count == 0
            &&& after.segmenter.active is None
            &&& after.segmenter == (Segmenter { active: None, ..lane.segmenter })
            &&& after.gen == lane.gen
            &&& after.consumed == lane.consumed
            &&& after.timemap == lane.timemap
            &&& after.wav_pending == lane.wav_pending
            &&& after.seen_device_changes == lane.seen_device_changes
        }),
{
}

/// A session that ends leaves no block open and no recording asked for; the
/// stream goes on as it is.
pub proof fn law_session_end_closes_the_lane(lane: Lane)
    ensures
        ({
            let after = lane.closed();
            &&& after.segmenter.active is None
            &&& after.segmenter == (Segmenter { active: None, ..lane.segmenter })
            &&& !after.wav_pending
            &&& after.gen == lane.gen
            &&& after.consumed == lane.consumed
            &&& after.timemap == lane.timemap
            &&& after.bin == lane.bin
            &&& after.seen_device_changes == lane.seen_device_changes
        }),
{
}

} // verus!
