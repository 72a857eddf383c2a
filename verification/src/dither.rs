use vstd::prelude::*;

verus! {

use crate::colour::Rgb;

// The LED driver only supports a few fixed pulse widths per sub-frame, so an
// 8-bit channel intensity is reproduced by emitting, across the `steps`
// sub-frames of one logical frame, a mix of two adjacent output levels whose
// time-average equals the gamma-corrected target.  The target is split by the
// caller into its integer part `floor` and the number `up_count` of sub-frames
// that must emit `floor + 1`; this module distributes those `up_count` raised
// sub-frames as evenly as possible over the `steps` slots (a Bresenham-style
// accumulator), which minimises visible flicker.

/// `v + 1`, saturating at the largest 8-bit level.
pub open spec fn sat_inc(v: u8) -> u8 {
    if v == 255 {
        255
    } else {
        (v + 1) as u8
    }
}

/// The levels emitted for the remaining `n` sub-frame slots, given the
/// accumulator state `(ups, downs)`.  A slot is raised to `floor + 1`
/// exactly when `ups * down_count < downs * up_count`, which keeps the
/// ratio of raised to unraised slots emitted so far as close as possible
/// to `up_count : down_count` at every prefix.
pub open spec fn spec_dither_seq(
    floor: u8,
    up_count: int,
    down_count: int,
    ups: int,
    downs: int,
    n: nat,
) -> Seq<u8>
    decreases n,
{
    if n == 0 {
        Seq::empty()
    } else if ups * down_count < downs * up_count {
        seq![sat_inc(floor)] + spec_dither_seq(
            floor,
            up_count,
            down_count,
            ups + 1,
            downs,
            (n - 1) as nat,
        )
    } else {
        seq![floor] + spec_dither_seq(floor, up_count, down_count, ups, downs + 1, (n - 1) as nat)
    }
}

/// The dither pattern of one intensity: `steps` slots, `up_count` of which
/// are raised to `floor + 1`, spread evenly.
pub open spec fn spec_dither_row(floor: u8, up_count: int, steps: nat) -> Seq<u8> {
    spec_dither_seq(floor, up_count, steps - up_count, 1, 1, steps)
}

/// Sum of a sequence of levels.
pub open spec fn seq_sum(s: Seq<u8>) -> int
    decreases s.len(),
{
    if s.len() == 0 {
        0
    } else {
        s[0] + seq_sum(s.drop_first())
    }
}

/// Builds the per-sub-frame level pattern for one intensity: all `steps`
/// slots hold `floor`, except that `up_count` of them, spread as evenly as
/// possible, hold `floor + 1` (saturating at 255).
pub fn dither_row(floor: u8, up_count: usize, steps: usize) -> (row: Vec<u8>)
    requires
        up_count <= steps,
        steps < 0x8000_0000,
    ensures
        row@ == spec_dither_row(floor, up_count as int, steps as nat),
        row@.len() == steps,
{
    let down_count = steps - up_count;
    let mut row: Vec<u8> = Vec::new();
    let mut ups: usize = 1;
    let mut downs: usize = 1;
    let mut i: usize = 0;
    proof {
        assert(spec_dither_row(floor, up_count as int, steps as nat) == row@ + spec_dither_seq(
            floor,
            up_count as int,
            down_count as int,
            1,
            1,
            steps as nat,
        ));
    }
    while i < steps
        invariant
            i <= steps,
            ups + downs == i + 2,
            1 <= ups,
            1 <= downs,
            down_count == steps - up_count,
            up_count <= steps,
            steps < 0x8000_0000,
            row@.len() == i,
            spec_dither_row(floor, up_count as int, steps as nat) == row@ + spec_dither_seq(
                floor,
                up_count as int,
                down_count as int,
                ups as int,
                downs as int,
                (steps - i) as nat,
            ),
        decreases steps - i,
    {
        proof {
            assert((ups as int) * (down_count as int) < 0x4000_0000_0000_0000 && (downs as int) * (
            up_count as int) < 0x4000_0000_0000_0000) by (nonlinear_arith)
                requires
                    1 <= ups <= steps + 1,
                    1 <= downs <= steps + 1,
                    down_count <= steps,
                    up_count <= steps,
                    steps < 0x8000_0000,
            ;
        }
        let lhs = (ups as u64) * (down_count as u64);
        let rhs = (downs as u64) * (up_count as u64);
        let ghost prev = row@;
        let ghost rest = spec_dither_seq(
            floor,
            up_count as int,
            down_count as int,
            ups as int,
            downs as int,
            (steps - i) as nat,
        );
        if lhs < rhs {
            ups = ups + 1;
            let lvl = if floor == 255 {
                255
            } else {
                floor + 1
            };
            row.push(lvl);
            proof {
                assert(rest == seq![sat_inc(floor)] + spec_dither_seq(
                    floor,
                    up_count as int,
                    down_count as int,
                    ups as int,
                    downs as int,
                    (steps - i - 1) as nat,
                ));
                assert(prev + rest == row@ + spec_dither_seq(
                    floor,
                    up_count as int,
                    down_count as int,
                    ups as int,
                    downs as int,
                    (steps - i - 1) as nat,
                ));
            }
        } else {
            downs = downs + 1;
            row.push(floor);
            proof {
                assert(rest == seq![floor] + spec_dither_seq(
                    floor,
                    up_count as int,
                    down_count as int,
                    ups as int,
                    downs as int,
                    (steps - i - 1) as nat,
                ));
                assert(prev + rest == row@ + spec_dither_seq(
                    floor,
                    up_count as int,
                    down_count as int,
                    ups as int,
                    downs as int,
                    (steps - i - 1) as nat,
                ));
            }
        }
        i = i + 1;
    }
    proof {
        assert(row@ + Seq::<u8>::empty() == row@);
        lemma_dither_seq_len(
            floor,
            up_count as int,
            down_count as int,
            1,
            1,
            steps as nat,
        );
    }
    row
}

/// Generalised sum argument over the accumulator state.  Writing `b` for the
/// raised slots emitted so far (`ups - 1`) and `s` for the unraised ones
/// (`downs - 1`), the accumulator keeps `b * down_count <= (s + 1) * up_count`
/// and `s * up_count <= (b + 1) * down_count` at every step; together with
/// `n == (up_count - b) + (down_count - s)` these force exactly
/// `up_count - b` further raised slots among the remaining `n`.
proof fn lemma_dither_seq_sum(
    floor: u8,
    up_count: int,
    down_count: int,
    ups: int,
    downs: int,
    n: nat,
)
    requires
        floor < 255,
        0 <= up_count,
        0 <= down_count,
        1 <= ups,
        1 <= downs,
        (ups - 1) * down_count <= downs * up_count,
        (downs - 1) * up_count <= ups * down_count,
        n == up_count + down_count - (ups - 1) - (downs - 1),
    ensures
        seq_sum(spec_dither_seq(floor, up_count, down_count, ups, downs, n)) == floor * n + (
        up_count - (ups - 1)),
    decreases n,
{
    let b = ups - 1;
    let s = downs - 1;
    if n == 0 {
        assert(b == up_count) by (nonlinear_arith)
            requires
                0 <= up_count,
                0 <= down_count,
                0 <= b,
                0 <= s,
                b * down_count <= (s + 1) * up_count,
                s * up_count <= (b + 1) * down_count,
                b + s == up_count + down_count,
        ;
    } else {
        let whole = spec_dither_seq(floor, up_count, down_count, ups, downs, n);
        if ups * down_count < downs * up_count {
            let rest = spec_dither_seq(floor, up_count, down_count, ups + 1, downs, (n - 1) as nat);
            assert((downs - 1) * up_count <= (ups + 1) * down_count) by (nonlinear_arith)
                requires
                    (downs - 1) * up_count <= ups * down_count,
                    0 <= down_count,
            ;
            lemma_dither_seq_sum(floor, up_count, down_count, ups + 1, downs, (n - 1) as nat);
            assert(whole.drop_first() =~= rest);
            assert(seq_sum(whole) == sat_inc(floor) + seq_sum(rest));
            assert(floor * n == floor + floor * (n - 1)) by (nonlinear_arith);
        } else {
            let rest = spec_dither_seq(floor, up_count, down_count, ups, downs + 1, (n - 1) as nat);
            assert((downs + 1 - 1) * up_count <= ups * down_count);
            assert((ups - 1) * down_count <= (downs + 1) * up_count) by (nonlinear_arith)
                requires
                    (ups - 1) * down_count <= downs * up_count,
                    0 <= up_count,
            ;
            lemma_dither_seq_sum(floor, up_count, down_count, ups, downs + 1, (n - 1) as nat);
            assert(whole.drop_first() =~= rest);
            assert(seq_sum(whole) == floor + seq_sum(rest));
            assert(floor * n == floor + floor * (n - 1)) by (nonlinear_arith);
        }
    }
}

/// Time-average law of the dither pattern: over the `steps` sub-frames of one
/// frame the emitted levels sum to exactly `floor * steps + up_count`, so
/// their mean differs from the ideal target `floor + up_count / steps` by
/// nothing at all, and from any target the caller rounded into
/// `(floor, up_count)` by less than one part in `steps`.
pub proof fn lemma_dither_row_sum(floor: u8, up_count: int, steps: nat)
    requires
        floor < 255,
        0 <= up_count <= steps,
    ensures
        seq_sum(spec_dither_row(floor, up_count, steps)) == floor * steps + up_count,
{
    lemma_dither_seq_sum(floor, up_count, steps - up_count, 1, 1, steps);
}

/// A row of `steps` zero levels: intensity 0 is never dithered.
pub open spec fn spec_zero_row(steps: nat) -> Seq<u8> {
    Seq::new(steps, |i: int| 0u8)
}

/// The whole table: one row per 8-bit intensity.  Row 0 is all zeros; the
/// row of intensity `i > 0` is the evenly spread pattern of the target
/// `(floor, up_count)` pair supplied for it.
pub open spec fn spec_table(targets: Seq<(u8, usize)>, steps: nat) -> Seq<Seq<u8>> {
    Seq::new(
        256,
        |i: int|
            if i == 0 {
                spec_zero_row(steps)
            } else {
                spec_dither_row(targets[i].0, targets[i].1 as int, steps)
            },
    )
}

/// The gamma dither table: for every 8-bit channel intensity and every
/// sub-frame index in `0..steps`, the discrete level to emit.
pub struct GammaDither {
    rows: Vec<Vec<u8>>,
    steps: usize,
}

impl GammaDither {
    /// The abstract table: 256 rows of `steps` levels each.
    pub closed spec fn table(&self) -> Seq<Seq<u8>> {
        self.rows@.map_values(|r: Vec<u8>| r@)
    }

    pub closed spec fn spec_steps(&self) -> nat {
        self.steps as nat
    }

    pub closed spec fn wf(&self) -> bool {
        &&& self.rows@.len() == 256
        &&& forall|i: int| 0 <= i < 256 ==> (#[trigger] self.rows@[i])@.len() == self.steps
    }

    /// The level emitted for `intensity` in sub-frame `step`.
    pub open spec fn spec_level(&self, intensity: u8, step: int) -> u8 {
        self.table()[intensity as int][step]
    }

    /// Builds the table from one `(floor, up_count)` target per intensity.
    /// The caller derives the targets from the gamma curve: for intensity
    /// `i > 0` the gamma-corrected value `255 * (i / 255)^gamma + 0.3` is
    /// split into its integer part `floor` and `up_count`, the fractional
    /// part scaled by `steps`.  Intensity 0 always maps to level 0.
    ///
    /// The result is pinned to `spec_table`, a function of the arguments
    /// alone, so two builds from the same parameters yield the same table.
    pub fn build(targets: &Vec<(u8, usize)>, steps: usize) -> (t: GammaDither)
        requires
            targets@.len() == 256,
            forall|i: int| 0 <= i < 256 ==> (#[trigger] targets@[i]).1 <= steps,
            steps < 0x8000_0000,
        ensures
            t.wf(),
            t.spec_steps() == steps,
            t.table() == spec_table(targets@, steps as nat),
    {
        let mut rows: Vec<Vec<u8>> = Vec::new();
        let mut zero_row: Vec<u8> = Vec::new();
        let mut j: usize = 0;
        while j < steps
            invariant
                j <= steps,
                zero_row@ =~= spec_zero_row(j as nat),
            decreases steps - j,
        {
            zero_row.push(0);
            j = j + 1;
        }
        rows.push(zero_row);
        let mut i: usize = 1;
        while i < 256
            invariant
                1 <= i <= 256,
                targets@.len() == 256,
                forall|k: int| 0 <= k < 256 ==> (#[trigger] targets@[k]).1 <= steps,
                steps < 0x8000_0000,
                rows@.len() == i,
                forall|k: int|
                    0 <= k < i ==> (#[trigger] rows@[k])@ == spec_table(
                        targets@,
                        steps as nat,
                    )[k],
                forall|k: int| 0 <= k < i ==> (#[trigger] rows@[k])@.len() == steps,
            decreases 256 - i,
        {
            let (floor, up_count) = targets[i];
            let row = dither_row(floor, up_count, steps);
            rows.push(row);
            i = i + 1;
        }
        let t = GammaDither { rows, steps };
        proof {
            assert(t.table() =~= spec_table(targets@, steps as nat));
        }
        t
    }

    /// The level to emit for one channel `intensity` in sub-frame `step`.
    pub fn level(&self, intensity: u8, step: usize) -> (lvl: u8)
        requires
            self.wf(),
            step < self.spec_steps(),
        ensures
            lvl == self.spec_level(intensity, step as int),
    {
        self.rows[intensity as usize][step]
    }

    /// The colour emitted in sub-frame `step` for a requested colour: each
    /// channel is mapped through the table independently.
    pub open spec fn spec_dither_colour(&self, step: int, c: Rgb) -> Rgb {
        Rgb {
            r: self.spec_level(c.r, step),
            g: self.spec_level(c.g, step),
            b: self.spec_level(c.b, step),
        }
    }

    /// Maps each colour of a frame through the table for sub-frame `step`.
    /// The transform is restartable: it reads only the table, the step and
    /// the input frame, so the same step may be requested again and again.
    pub fn dither(&self, step: usize, frame: &Vec<Rgb>) -> (out: Vec<Rgb>)
        requires
            self.wf(),
            step < self.spec_steps(),
        ensures
            out@.len() == frame@.len(),
            forall|i: int|
                0 <= i < frame@.len() ==> out@[i] == self.spec_dither_colour(
                    step as int,
                    #[trigger] frame@[i],
                ),
    {
        let mut out: Vec<Rgb> = Vec::new();
        let mut i: usize = 0;
        while i < frame.len()
            invariant
                i <= frame@.len(),
                out@.len() == i,
                self.wf(),
                step < self.spec_steps(),
                forall|k: int|
                    0 <= k < i ==> out@[k] == self.spec_dither_colour(
                        step as int,
                        #[trigger] frame@[k],
                    ),
            decreases frame@.len() - i,
        {
            let c = frame[i];
            out.push(
                Rgb {
                    r: self.level(c.r, step),
                    g: self.level(c.g, step),
                    b: self.level(c.b, step),
                },
            );
            i = i + 1;
        }
        out
    }
}

/// The time-average law at table level: for every intensity whose target
/// does not saturate the 8-bit range, the built table's row for it sums to
/// exactly `floor * steps + up_count`, so the emitted mean hits the target
/// the caller derived from the gamma curve to within one part in `steps`.
pub proof fn lemma_table_row_mean(targets: Seq<(u8, usize)>, steps: nat, i: int)
    requires
        targets.len() == 256,
        1 <= i < 256,
        targets[i].1 <= steps,
        targets[i].0 < 255,
    ensures
        seq_sum(spec_table(targets, steps)[i]) == targets[i].0 * steps + targets[i].1,
{
    lemma_dither_row_sum(targets[i].0, targets[i].1 as int, steps);
}

/// Determinism of the table build: any two tables built from the same
/// targets and step count are equal, because `build` pins its result to
/// `spec_table`, a function of the parameters alone.
pub proof fn lemma_build_deterministic(
    t1: GammaDither,
    t2: GammaDither,
    targets: Seq<(u8, usize)>,
    steps: nat,
)
    requires
        t1.table() == spec_table(targets, steps),
        t2.table() == spec_table(targets, steps),
    ensures
        t1.table() == t2.table(),
{
}

/// The length of a dither pattern equals the number of slots it was asked for.
pub proof fn lemma_dither_seq_len(
    floor: u8,
    up_count: int,
    down_count: int,
    ups: int,
    downs: int,
    n: nat,
)
    ensures
        spec_dither_seq(floor, up_count, down_count, ups, downs, n).len() == n,
    decreases n,
{
    if n > 0 {
        if ups * down_count < downs * up_count {
            lemma_dither_seq_len(floor, up_count, down_count, ups + 1, downs, (n - 1) as nat);
        } else {
            lemma_dither_seq_len(floor, up_count, down_count, ups, downs + 1, (n - 1) as nat);
        }
    }
}

} // verus!
