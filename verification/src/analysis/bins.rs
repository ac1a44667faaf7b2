//! Downsampled waveform storage: minimum and maximum per fixed time bin, with
//! coarser levels of detail so that long sessions render fast at any zoom.

use vstd::prelude::*;
use vstd::arithmetic::power::pow;
use vstd::arithmetic::power2::pow2;
use crate::scalar::{lemma_rank_order, ranked, Scalar32};

verus! {

/// Length of a bin at the finest level.
pub const FINE_BIN_MS: u64 = 2;

/// Each level is this much coarser than the one before it: 2, 16, 128 and
/// 1024 ms.
pub const LOD_FACTOR: usize = 8;

/// Number of levels of detail.
pub const NUM_LEVELS: usize = 4;

/// The range of the waveform over one bin.
#[derive(Clone, Copy, Debug, PartialEq, Eq, Structural)]
pub struct Bin {
    pub min: Scalar32,
    pub max: Scalar32,
}

impl Bin {
    /// A bin of silence.
    pub open spec fn silent() -> Bin {
        Bin { min: Scalar32 { rank: 0 }, max: Scalar32 { rank: 0 } }
    }

    /// The smallest range that covers both bins.
    pub open spec fn joined(self, other: Bin) -> Bin {
        Bin {
            min: if other.min.rank < self.min.rank {
                other.min
            } else {
                self.min
            },
            max: if other.max.rank > self.max.rank {
                other.max
            } else {
                self.max
            },
        }
    }

    /// Whether this bin's range lies within the other's.
    pub open spec fn within(self, other: Bin) -> bool {
        other.min.rank <= self.min.rank && self.max.rank <= other.max.rank
    }

    pub fn merge(&mut self, other: &Bin)
        ensures
            *final(self) == old(self).joined(*other),
    {
        if other.min.rank < self.min.rank {
            self.min = other.min;
        }
        if other.max.rank > self.max.rank {
            self.max = other.max;
        }
    }

    pub fn is_empty(&self) -> (empty: bool)
        ensures
            empty == (*self == Bin::silent()),
    {
        self.min.rank == 0 && self.max.rank == 0
    }
}

impl Default for Bin {
    fn default() -> (bin: Bin)
        ensures
            bin == Bin::silent(),
    {
        Bin { min: Scalar32 { rank: 0 }, max: Scalar32 { rank: 0 } }
    }
}

/// The range that a run of bins covers.
pub open spec fn envelope(bins: Seq<Bin>) -> Bin
    decreases bins.len(),
{
    if bins.len() <= 1 {
        bins[0]
    } else {
        envelope(bins.drop_last()).joined(bins.last())
    }
}

/// Completed groups of finer bins are summed up in the coarser levels, from
/// `level` on.
pub open spec fn cascaded(levels: Seq<Seq<Bin>>, level: nat) -> Seq<Seq<Bin>>
    decreases NUM_LEVELS - level,
{
    if level == 0 || level >= NUM_LEVELS {
        levels
    } else {
        let finer = levels[level - 1];
        if finer.len() == 0 || finer.len() % LOD_FACTOR as nat != 0 {
            levels
        } else {
            let group = finer.skip(finer.len() - LOD_FACTOR);
            cascaded(
                levels.update(level as int, levels[level as int].push(envelope(group))),
                level + 1,
            )
        }
    }
}

/// One more bin at the finest level.
pub open spec fn pushed(levels: Seq<Seq<Bin>>, bin: Bin) -> Seq<Seq<Bin>> {
    cascaded(levels.update(0, levels[0].push(bin)), 1)
}

/// `n` more silent bins.
pub open spec fn padded(levels: Seq<Seq<Bin>>, n: nat) -> Seq<Seq<Bin>>
    decreases n,
{
    if n == 0 {
        levels
    } else {
        pushed(padded(levels, (n - 1) as nat), Bin::silent())
    }
}

/// The bins after a bin is placed at fine index `idx`: behind a gap of silence
/// where the index lies ahead, merged into the latest bin where it lies behind.
pub open spec fn placed(levels: Seq<Seq<Bin>>, idx: nat, bin: Bin) -> Seq<Seq<Bin>> {
    let fine = levels[0];
    if idx < fine.len() {
        levels.update(0, fine.update(fine.len() - 1, fine.last().joined(bin)))
    } else {
        pushed(padded(levels, (idx - fine.len()) as nat), bin)
    }
}

/// Every coarser level holds one bin for each full group of the finer one.
pub open spec fn aligned(levels: Seq<Seq<Bin>>) -> bool {
    &&& levels.len() == NUM_LEVELS
    &&& forall|k: int|
        1 <= k < NUM_LEVELS ==> (#[trigger] levels[k]).len() == levels[k - 1].len()
            / LOD_FACTOR as nat
}

/// The waveform of one lane at all levels of detail.
pub struct LaneBins {
    levels: [Vec<Bin>; 4],
}

impl View for LaneBins {
    type V = Seq<Seq<Bin>>;

    closed spec fn view(&self) -> Seq<Seq<Bin>> {
        Seq::new(NUM_LEVELS as nat, |k: int| self.levels[k]@)
    }
}

impl Default for LaneBins {
    fn default() -> (bins: LaneBins)
        ensures
            bins@ == Seq::new(NUM_LEVELS as nat, |k: int| Seq::<Bin>::empty()),
    {
        let bins = LaneBins { levels: [Vec::new(), Vec::new(), Vec::new(), Vec::new()] };
        assert(bins@ =~= Seq::new(NUM_LEVELS as nat, |k: int| Seq::<Bin>::empty()));
        bins
    }
}

impl LaneBins {
    pub fn clear(&mut self)
        ensures
            final(self)@ == Seq::new(NUM_LEVELS as nat, |k: int| Seq::<Bin>::empty()),
    {
        self.levels[0].clear();
        self.levels[1].clear();
        self.levels[2].clear();
        self.levels[3].clear();
        assert(self@ =~= Seq::new(NUM_LEVELS as nat, |k: int| Seq::<Bin>::empty()));
    }

    /// Duration of one bin at `level`, in ms.
    pub fn bin_ms(level: usize) -> (ms: u64)
        requires
            FINE_BIN_MS * pow(LOD_FACTOR as int, level as nat) <= u64::MAX,
        ensures
            ms == FINE_BIN_MS * pow(LOD_FACTOR as int, level as nat),
    {
        let mut ms: u64 = FINE_BIN_MS;
        let mut k: usize = 0;
        assert(pow(LOD_FACTOR as int, 0) == 1) by {
            vstd::arithmetic::power::lemma_pow0(LOD_FACTOR as int);
        }
        while k < level
            invariant
                k <= level,
                ms == FINE_BIN_MS * pow(LOD_FACTOR as int, k as nat),
                FINE_BIN_MS * pow(LOD_FACTOR as int, level as nat) <= u64::MAX,
            decreases level - k,
        {
            proof {
                vstd::arithmetic::power::lemma_pow_increases(
                    LOD_FACTOR as nat,
                    (k + 1) as nat,
                    level as nat,
                );
                reveal(pow);
                assert(pow(8, (k + 1) as nat) == 8 * pow(8, k as nat));
            }
            ms = ms * 8;
            k = k + 1;
        }
        ms
    }

    /// The finest level whose bins are at least one pixel wide, at the given
    /// number of pixels per ms; the coarsest where there is none.
    pub fn level_for_zoom(px_per_ms: Scalar32) -> (level: usize)
        ensures
            level < NUM_LEVELS,
            forall|k: nat| k < level ==> !#[trigger] fills_pixel(k, px_per_ms),
            fills_pixel(level as nat, px_per_ms) || level == NUM_LEVELS - 1,
    {
        proof {
            lemma_fills_pixel(0, px_per_ms);
            lemma_fills_pixel(1, px_per_ms);
            lemma_fills_pixel(2, px_per_ms);
        }
        if px_per_ms.rank >= ZOOM_1_2 {
            0
        } else if px_per_ms.rank >= ZOOM_1_16 {
            1
        } else if px_per_ms.rank >= ZOOM_1_128 {
            2
        } else {
            3
        }
    }

    /// The bins of a level; levels beyond the coarsest mean the coarsest.
    pub fn level(&self, level: usize) -> (bins: &[Bin])
        ensures
            bins@ == self@[if level < NUM_LEVELS {
                level as int
            } else {
                NUM_LEVELS - 1
            }],
    {
        let k: usize = if level < NUM_LEVELS {
            level
        } else {
            NUM_LEVELS - 1
        };
        self.levels[k].as_slice()
    }

    /// Appends a fine bin at the given fine index (time since the session
    /// began, in fine bins). Pads gaps with silence and merges what comes late,
    /// so that the bins stay aligned with the timeline even across corrections
    /// of the clock.
    pub fn push_fine_at(&mut self, idx: usize, bin: Bin)
        ensures
            final(self)@ == placed(old(self)@, idx as nat, bin),
    {
        let len: usize = self.levels[0].len();
        if idx < len {
            self.levels[0][len - 1].merge(&bin);
            assert(self@ =~= placed(old(self)@, idx as nat, bin));
            return;
        }
        let ghost start = self@;
        let mut gap: usize = idx - len;
        let ghost mut done: nat = 0;
        assert(start[0].len() == len);
        while gap > 0
            invariant
                done + gap == idx - len,
                self@ == padded(start, done),
            decreases gap,
        {
            self.push_fine(Bin::default());
            gap = gap - 1;
            proof {
                done = done + 1;
            }
        }
        self.push_fine(bin);
    }

    fn push_fine(&mut self, bin: Bin)
        ensures
            final(self)@ == pushed(old(self)@, bin),
    {
        self.levels[0].push(bin);
        assert(self@ =~= old(self)@.update(0, old(self)@[0].push(bin)));
        let ghost goal = pushed(old(self)@, bin);
        let mut level: usize = 1;
        while level < NUM_LEVELS
            invariant_except_break
                1 <= level <= NUM_LEVELS,
                cascaded(self@, level as nat) == goal,
            ensures
                self@ == goal,
            decreases NUM_LEVELS - level,
        {
            let finer_len: usize = self.levels[level - 1].len();
            assert(self@[level - 1].len() == finer_len);
            if finer_len % LOD_FACTOR != 0 || finer_len == 0 {
                break ;
            }
            let start: usize = finer_len - LOD_FACTOR;
            let mut merged: Bin = self.levels[level - 1][start];
            let ghost before = self@;
            let ghost finer = self.levels[level - 1]@;
            let ghost group = finer.skip(start as int);
            let mut j: usize = start + 1;
            assert(group.take(1).len() == 1);
            assert(group.take(1)[0] == merged);
            while j < finer_len
                invariant
                    1 <= level < NUM_LEVELS,
                    start < j <= finer_len,
                    finer == self.levels[level - 1]@,
                    finer_len == finer.len(),
                    group == finer.skip(start as int),
                    merged == envelope(group.take(j - start)),
                    before == self@,
                decreases finer_len - j,
            {
                let b = self.levels[level - 1][j];
                merged.merge(&b);
                assert(group.take(j + 1 - start).drop_last() =~= group.take(j - start));
                assert(group.take(j + 1 - start).last() == b);
                j = j + 1;
            }
            assert(group.take(finer_len - start) =~= group);
            self.levels[level].push(merged);
            assert(self@ =~= before.update(level as int, before[level as int].push(
                envelope(group),
            )));
            level = level + 1;
        }
    }
}

/// Whether a bin of the level is at least one pixel wide. The number of pixels
/// per ms is in units of two to the power -149.
pub open spec fn fills_pixel(level: nat, px_per_ms: Scalar32) -> bool {
    FINE_BIN_MS * pow(LOD_FACTOR as int, level) * px_per_ms.value() >= pow2(149)
}

/// Rank of 1/2: at so many pixels per ms a bin of 2 ms is one pixel wide.
const ZOOM_1_2: i32 = 0x3F00_0000;

/// Rank of 1/16.
const ZOOM_1_16: i32 = 0x3D80_0000;

/// Rank of 1/128.
const ZOOM_1_128: i32 = 0x3C00_0000;

proof fn lemma_fills_pixel(level: nat, px_per_ms: Scalar32)
    requires
        level < 3,
    ensures
        fills_pixel(level, px_per_ms) <==> px_per_ms.rank >= (if level == 0 {
            ZOOM_1_2
        } else if level == 1 {
            ZOOM_1_16
        } else {
            ZOOM_1_128
        }),
{
    let rank: int = if level == 0 {
        0x3F00_0000
    } else if level == 1 {
        0x3D80_0000
    } else {
        0x3C00_0000
    };
    let shift: nat = (125 - 3 * level) as nat;
    lemma_rank_order(px_per_ms.rank as int, rank, 0x80_0000);
    assert(rank / 0x80_0000 == shift + 1 && rank % 0x80_0000 == 0);
    assert(ranked(rank, 0x80_0000) == 0x80_0000 * pow2(shift));
    reveal(pow);
    reveal_with_fuel(pow, 4);
    let width = FINE_BIN_MS * pow(LOD_FACTOR as int, level);
    let v = px_per_ms.value();
    // 2 * 8^level * 2^23 * 2^(125 - 3 * level) == 2^149
    vstd::arithmetic::power2::lemma_pow2_adds((1 + 3 * level) as nat, shift);
    vstd::arithmetic::power2::lemma_pow2_adds(23, 126);
    vstd::arithmetic::power2::lemma2_to64();
    assert(width == pow2((1 + 3 * level) as nat));
    assert(width * (0x80_0000 * pow2(shift)) == 0x80_0000 * (width * pow2(shift)))
        by (nonlinear_arith);
    assert(pow2(149) == width * (0x80_0000 * pow2(shift)));
    let bar = 0x80_0000 * pow2(shift);
    assert(width * v >= width * bar <==> v >= bar) by (nonlinear_arith)
        requires
            width > 0,
    ;
}

/// A bin of 2 ms fills a pixel from half a pixel per ms on, one of 16 ms from a
/// sixteenth and one of 128 ms from a hundred and twenty-eighth on.
pub proof fn law_zoom_at_which_bins_fill_a_pixel(px_per_ms: Scalar32)
    ensures
        fills_pixel(0, px_per_ms) <==> px_per_ms.rank >= 0x3F00_0000,
        fills_pixel(1, px_per_ms) <==> px_per_ms.rank >= 0x3D80_0000,
        fills_pixel(2, px_per_ms) <==> px_per_ms.rank >= 0x3C00_0000,
{
    lemma_fills_pixel(0, px_per_ms);
    lemma_fills_pixel(1, px_per_ms);
    lemma_fills_pixel(2, px_per_ms);
}

/// An empty waveform is aligned and summed up.
pub proof fn law_empty_waveform_is_aligned(levels: Seq<Seq<Bin>>)
    requires
        levels == Seq::new(NUM_LEVELS as nat, |k: int| Seq::<Bin>::empty()),
    ensures
        aligned(levels),
        summed_up(levels),
{
}

/// Placing a bin keeps every level aligned with the one below it.
pub proof fn law_levels_stay_aligned(levels: Seq<Seq<Bin>>, idx: nat, bin: Bin)
    requires
        aligned(levels),
    ensures
        aligned(placed(levels, idx, bin)),
{
    let fine = levels[0];
    if idx < fine.len() {
    } else {
        lemma_padded(levels, (idx - fine.len()) as nat);
        lemma_pushed(padded(levels, (idx - fine.len()) as nat), bin);
    }
}

/// The timeline stays aligned: a bin placed at or past the end stands at its own
/// index, with silence in the gap before it and all earlier bins unchanged.
pub proof fn law_placed_bin_is_aligned(levels: Seq<Seq<Bin>>, idx: nat, bin: Bin)
    requires
        aligned(levels),
        idx >= levels[0].len(),
    ensures
        ({
            let fine = placed(levels, idx, bin)[0];
            &&& fine.len() == idx + 1
            &&& fine[idx as int] == bin
            &&& forall|k: int| 0 <= k < levels[0].len() ==> fine[k] == levels[0][k]
            &&& forall|k: int| levels[0].len() <= k < idx ==> fine[k] == Bin::silent()
        }),
{
    lemma_padded(levels, (idx - levels[0].len()) as nat);
    lemma_pushed(padded(levels, (idx - levels[0].len()) as nat), bin);
}

/// A bin placed behind the end only widens the latest bin.
pub proof fn law_late_bin_widens_latest(levels: Seq<Seq<Bin>>, idx: nat, bin: Bin)
    requires
        aligned(levels),
        idx < levels[0].len(),
    ensures
        ({
            let after = placed(levels, idx, bin);
            let last = levels[0].len() - 1;
            &&& levels[0][last].within(after[0][last])
            &&& bin.within(after[0][last])
            &&& after[0].len() == levels[0].len()
            &&& forall|k: int| 0 <= k < last ==> after[0][k] == levels[0][k]
            &&& forall|k: int| 1 <= k < NUM_LEVELS ==> after[k] == levels[k]
        }),
{
}

/// Each coarser bin lies within the range of the finer bins it sums up; above
/// the first coarser level it is exactly their range.
pub open spec fn summed_up(levels: Seq<Seq<Bin>>) -> bool {
    forall|k: int, j: int|
        1 <= k < NUM_LEVELS && 0 <= j < levels[k].len() ==> ({
            let group = levels[k - 1].subrange(
                j * LOD_FACTOR as int,
                j * LOD_FACTOR as int + LOD_FACTOR,
            );
            &&& (#[trigger] levels[k][j]).within(envelope(group))
            &&& k > 1 ==> levels[k][j] == envelope(group)
        })
}

/// Placing a bin keeps the coarser levels summed up.
pub proof fn law_levels_stay_summed_up(levels: Seq<Seq<Bin>>, idx: nat, bin: Bin)
    requires
        aligned(levels),
        summed_up(levels),
    ensures
        summed_up(placed(levels, idx, bin)),
{
    let fine = levels[0];
    if idx < fine.len() {
        let after = placed(levels, idx, bin);
        assert forall|k: int, j: int|
            1 <= k < NUM_LEVELS && 0 <= j < after[k].len() implies ({
            let group = after[k - 1].subrange(
                j * LOD_FACTOR as int,
                j * LOD_FACTOR as int + LOD_FACTOR,
            );
            &&& (#[trigger] after[k][j]).within(envelope(group))
            &&& k > 1 ==> after[k][j] == envelope(group)
        }) by {
            assert(levels[k][j] == after[k][j]);
            assert(levels[k].len() == levels[k - 1].len() / 8);
            let old_group = levels[k - 1].subrange(j * 8, j * 8 + 8);
            let group = after[k - 1].subrange(j * 8, j * 8 + 8);
            assert(old_group.len() == group.len() == 8);
            assert forall|i: int| 0 <= i < 8 implies old_group[i].within(group[i]) by {}
            lemma_envelope_widens(old_group, group);
            if k > 1 {
                assert(old_group =~= group);
            }
        }
    } else {
        lemma_padded(levels, (idx - fine.len()) as nat);
        lemma_pushed(padded(levels, (idx - fine.len()) as nat), bin);
    }
}

proof fn lemma_envelope_widens(a: Seq<Bin>, b: Seq<Bin>)
    requires
        a.len() == b.len(),
        a.len() > 0,
        forall|i: int| 0 <= i < a.len() ==> (#[trigger] a[i]).within(b[i]),
    ensures
        envelope(a).within(envelope(b)),
    decreases a.len(),
{
    if a.len() > 1 {
        lemma_envelope_widens(a.drop_last(), b.drop_last());
    }
}

/// All levels below `level` are aligned and full, the ones from `level` on lack
/// at most the bin of the group just completed.
spec fn cascading(levels: Seq<Seq<Bin>>, level: int) -> bool {
    &&& levels.len() == NUM_LEVELS
    &&& forall|k: int|
        1 <= k < NUM_LEVELS && k != level ==> (#[trigger] levels[k]).len() == levels[k - 1].len()
            / LOD_FACTOR as nat
    &&& 1 <= level < NUM_LEVELS ==> levels[level].len() == (levels[level - 1].len() - 1) / 8
    &&& 1 <= level < NUM_LEVELS ==> levels[level - 1].len() > 0
}

proof fn lemma_cascaded(levels: Seq<Seq<Bin>>, level: nat)
    requires
        1 <= level <= NUM_LEVELS,
        cascading(levels, level as int),
    ensures
        aligned(cascaded(levels, level)),
        cascaded(levels, level)[0] == levels[0],
        summed_up(levels) ==> summed_up(cascaded(levels, level)),
    decreases NUM_LEVELS - level,
{
    if level < NUM_LEVELS {
        let l = level as int;
        let finer = levels[l - 1];
        if finer.len() % 8 != 0 {
            assert(levels[l].len() == finer.len() / 8);
        } else {
            let group = finer.skip(finer.len() - 8);
            let next = levels.update(l, levels[l].push(envelope(group)));
            assert(next[l].len() == finer.len() / 8);
            if l + 1 < NUM_LEVELS {
                assert(levels[l + 1].len() == levels[l].len() / 8);
                assert(next[l + 1] == levels[l + 1]);
            }
            assert(cascading(next, l + 1)) by {
                assert forall|k: int| 1 <= k < NUM_LEVELS && k != l + 1 implies (#[trigger] next[k]).len()
                    == next[k - 1].len() / 8 by {
                    if k != l {
                        assert(next[k] == levels[k]);
                    }
                }
            }
            lemma_cascaded(next, level + 1);
            if summed_up(levels) {
                assert forall|k: int, j: int|
                    1 <= k < NUM_LEVELS && 0 <= j < next[k].len() implies ({
                    let group = next[k - 1].subrange(j * 8, j * 8 + 8);
                    &&& (#[trigger] next[k][j]).within(envelope(group))
                    &&& k > 1 ==> next[k][j] == envelope(group)
                }) by {
                    let g = next[k - 1].subrange(j * 8, j * 8 + 8);
                    if k == l && j == levels[l].len() {
                        assert(g =~= group);
                    } else {
                        assert(next[k][j] == levels[k][j]);
                        assert(next[k - 1].len() >= levels[k - 1].len());
                        assert(g =~= levels[k - 1].subrange(j * 8, j * 8 + 8)) by {
                            assert(levels[k].len() <= levels[k - 1].len() / 8);
                        }
                    }
                }
            }
        }
    }
}

proof fn lemma_pushed(levels: Seq<Seq<Bin>>, bin: Bin)
    requires
        aligned(levels),
    ensures
        aligned(pushed(levels, bin)),
        pushed(levels, bin)[0] == levels[0].push(bin),
        summed_up(levels) ==> summed_up(pushed(levels, bin)),
{
    let next = levels.update(0, levels[0].push(bin));
    assert(levels[1].len() == levels[0].len() / 8);
    assert forall|k: int| 1 <= k < NUM_LEVELS && k != 1 implies (#[trigger] next[k]).len() == next[k
        - 1].len() / 8 by {
        assert(next[k] == levels[k]);
    }
    if summed_up(levels) {
        assert forall|k: int, j: int| 1 <= k < NUM_LEVELS && 0 <= j < next[k].len() implies ({
            let group = next[k - 1].subrange(j * 8, j * 8 + 8);
            &&& (#[trigger] next[k][j]).within(envelope(group))
            &&& k > 1 ==> next[k][j] == envelope(group)
        }) by {
            assert(next[k][j] == levels[k][j]);
            assert(levels[k].len() == levels[k - 1].len() / 8);
            assert(next[k - 1].subrange(j * 8, j * 8 + 8) =~= levels[k - 1].subrange(
                j * 8,
                j * 8 + 8,
            ));
        }
    }
    lemma_cascaded(next, 1);
}

proof fn lemma_padded(levels: Seq<Seq<Bin>>, n: nat)
    requires
        aligned(levels),
    ensures
        aligned(padded(levels, n)),
        padded(levels, n)[0].len() == levels[0].len() + n,
        forall|k: int| 0 <= k < levels[0].len() ==> padded(levels, n)[0][k] == levels[0][k],
        forall|k: int|
            levels[0].len() <= k < levels[0].len() + n ==> padded(levels, n)[0][k]
                == Bin::silent(),
        summed_up(levels) ==> summed_up(padded(levels, n)),
    decreases n,
{
    if n > 0 {
        lemma_padded(levels, (n - 1) as nat);
        lemma_pushed(padded(levels, (n - 1) as nat), Bin::silent());
    }
}

} // verus!
