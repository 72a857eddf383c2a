use vstd::prelude::*;

verus! {

// The panel is a 5x5 LED matrix.  A glyph is one character cell of the
// matrix font: five rows of one byte each, whose low five bits are the
// columns.  The physical pixel order of the panel is the fixed row-major
// list of 25 `(x, y)` positions given by `spec_pos`.

/// One character cell: five rows, low five bits of each are the columns.
#[derive(Clone, Copy, Debug)]
pub struct Glyph {
    rows: [u8; 5],
}

impl Glyph {
    /// The bit row `y` of the glyph.
    pub closed spec fn row(&self, y: int) -> u8 {
        self.rows@[y]
    }

    pub fn new(a: u8, b: u8, c: u8, d: u8, e: u8) -> (g: Glyph)
        ensures
            g.row(0) == a,
            g.row(1) == b,
            g.row(2) == c,
            g.row(3) == d,
            g.row(4) == e,
    {
        Glyph { rows: [a, b, c, d, e] }
    }

    /// Whether the pixel at column `x` of row `y` is lit.
    pub open spec fn spec_bit_set_at(&self, x: u8, y: u8) -> bool {
        self.row(y as int) & (1u8 << x) != 0
    }

    pub fn bit_set_at(self, x: u8, y: u8) -> (r: bool)
        requires
            x < 8,
            y < 5,
        ensures
            r == self.spec_bit_set_at(x, y),
    {
        self.rows[y as usize] & (1u8 << x) != 0
    }

    /// Masks a positioned sequence of values by the inverse of the glyph:
    /// a value survives exactly where the glyph pixel is unlit.
    pub fn mask_inv<I>(self, items: Vec<((u8, u8), I)>) -> (out: Vec<((u8, u8), Option<I>)>)
        requires
            forall|i: int|
                0 <= i < items@.len() ==> (#[trigger] items@[i]).0.0 < 8 && items@[i].0.1 < 5,
        ensures
            out@.len() == items@.len(),
            forall|i: int|
                0 <= i < items@.len() ==> {
                    let ((x, y), v) = #[trigger] items@[i];
                    out@[i].0 == (x, y) && out@[i].1 == if self.spec_bit_set_at(x, y) {
                        Option::<I>::None
                    } else {
                        Some(v)
                    }
                },
    {
        let ghost orig = items@;
        let mut rev = reversed(items);
        let mut out: Vec<((u8, u8), Option<I>)> = Vec::new();
        while rev.len() > 0
            invariant
                out@.len() + rev@.len() == orig.len(),
                forall|k: int|
                    0 <= k < rev@.len() ==> #[trigger] rev@[k] == orig[orig.len() - 1 - k],
                forall|i: int|
                    0 <= i < orig.len() ==> (#[trigger] orig[i]).0.0 < 8 && orig[i].0.1 < 5,
                forall|i: int|
                    0 <= i < out@.len() ==> {
                        let ((x, y), v) = #[trigger] orig[i];
                        out@[i].0 == (x, y) && out@[i].1 == if self.spec_bit_set_at(x, y) {
                            Option::<I>::None
                        } else {
                            Some(v)
                        }
                    },
            decreases rev@.len(),
        {
            let ((x, y), v) = rev.pop().unwrap();
            let masked = if self.bit_set_at(x, y) {
                None
            } else {
                Some(v)
            };
            out.push(((x, y), masked));
        }
        out
    }

    /// Whether the pixel at panel position `(x, y)` survives a mask of this
    /// glyph shifted left by `offset` columns: positions that fall outside
    /// the glyph pass through; positions inside it survive exactly where the
    /// glyph pixel is lit.
    pub open spec fn spec_mask_at(&self, offset: int, x: u8, y: u8) -> bool {
        let gx = x + offset;
        if 0 <= gx < 5 {
            self.spec_bit_set_at(gx as u8, y)
        } else {
            true
        }
    }

    /// Masks a positioned sequence of values by the glyph shifted `offset`
    /// columns to the left: a value survives where `spec_mask_at` holds.
    pub fn mask_with_x_offset<I>(self, offset: i8, items: Vec<((u8, u8), I)>) -> (out: Vec<
        ((u8, u8), Option<I>),
    >)
        requires
            forall|i: int|
                0 <= i < items@.len() ==> (#[trigger] items@[i]).0.0 < 8 && items@[i].0.1 < 5,
        ensures
            out@.len() == items@.len(),
            forall|i: int|
                0 <= i < items@.len() ==> {
                    let ((x, y), v) = #[trigger] items@[i];
                    out@[i].0 == (x, y) && out@[i].1 == if self.spec_mask_at(offset as int, x, y) {
                        Some(v)
                    } else {
                        Option::<I>::None
                    }
                },
    {
        let ghost orig = items@;
        let mut rev = reversed(items);
        let mut out: Vec<((u8, u8), Option<I>)> = Vec::new();
        while rev.len() > 0
            invariant
                out@.len() + rev@.len() == orig.len(),
                forall|k: int|
                    0 <= k < rev@.len() ==> #[trigger] rev@[k] == orig[orig.len() - 1 - k],
                forall|i: int|
                    0 <= i < orig.len() ==> (#[trigger] orig[i]).0.0 < 8 && orig[i].0.1 < 5,
                forall|i: int|
                    0 <= i < out@.len() ==> {
                        let ((x, y), v) = #[trigger] orig[i];
                        out@[i].0 == (x, y) && out@[i].1 == if self.spec_mask_at(
                            offset as int,
                            x,
                            y,
                        ) {
                            Some(v)
                        } else {
                            Option::<I>::None
                        }
                    },
            decreases rev@.len(),
        {
            let ((x, y), v) = rev.pop().unwrap();
            let gx: i16 = x as i16 + offset as i16;
            let masked = if 0 <= gx && gx < 5 {
                if self.bit_set_at(gx as u8, y) {
                    Some(v)
                } else {
                    None
                }
            } else {
                Some(v)
            };
            out.push(((x, y), masked));
        }
        out
    }
}

/// The items of a vector in reverse order.  The masking functions consume
/// their input one value off the back, so they reverse it first to hand the
/// results out in the original order.
fn reversed<I>(items: Vec<I>) -> (out: Vec<I>)
    ensures
        out@.len() == items@.len(),
        forall|k: int| 0 <= k < items@.len() ==> out@[k] == items@[items@.len() - 1 - k],
{
    let ghost orig = items@;
    let mut items = items;
    let mut out: Vec<I> = Vec::new();
    while items.len() > 0
        invariant
            out@.len() + items@.len() == orig.len(),
            items@ == orig.take(items@.len() as int),
            forall|k: int| 0 <= k < out@.len() ==> #[trigger] out@[k] == orig[orig.len() - 1 - k],
        decreases items@.len(),
    {
        let p = items.pop().unwrap();
        out.push(p);
    }
    out
}

/// The all-zero glyph: a blank character cell, used as the inter-message
/// separator.
pub closed spec fn blank_glyph() -> Glyph {
    Glyph { rows: [0u8, 0u8, 0u8, 0u8, 0u8] }
}

/// No pixel of the blank glyph is lit, and all its rows are zero.
pub broadcast proof fn lemma_blank_glyph_rows(y: int)
    requires
        0 <= y < 5,
    ensures
        #[trigger] blank_glyph().row(y) == 0,
{
}

impl Glyph {
    /// The blank character cell.
    pub fn blank() -> (g: Glyph)
        ensures
            g == blank_glyph(),
    {
        Glyph { rows: [0, 0, 0, 0, 0] }
    }
}

/// The panel position of pixel `i` in the physical write order: row-major
/// over the 5x5 matrix.
pub open spec fn spec_pos(i: int) -> (u8, u8) {
    ((i % 5) as u8, (i / 5) as u8)
}

/// The frame of one fixed glyph (the secondary indicator mode): the given
/// colour where the glyph pixel is lit, black elsewhere.  This bypasses the
/// scroll state machine but feeds the same dither pipeline.
pub fn glyph_frame(g: &Glyph, colour: crate::colour::Rgb) -> (out: Vec<crate::colour::Rgb>)
    ensures
        out@.len() == 25,
        forall|i: int|
            0 <= i < 25 ==> out@[i] == if g.spec_bit_set_at(spec_pos(i).0, spec_pos(i).1) {
                colour
            } else {
                (crate::colour::Rgb { r: 0, g: 0, b: 0 })
            },
{
    let mut out: Vec<crate::colour::Rgb> = Vec::new();
    let mut i: usize = 0;
    while i < 25
        invariant
            i <= 25,
            out@.len() == i,
            forall|k: int|
                0 <= k < i ==> out@[k] == if g.spec_bit_set_at(spec_pos(k).0, spec_pos(k).1) {
                    colour
                } else {
                    (crate::colour::Rgb { r: 0, g: 0, b: 0 })
                },
        decreases 25 - i,
    {
        let x = (i % 5) as u8;
        let y = (i / 5) as u8;
        if g.bit_set_at(x, y) {
            out.push(colour);
        } else {
            out.push(crate::colour::Rgb { r: 0, g: 0, b: 0 });
        }
        i = i + 1;
    }
    out
}

/// Pairs 25 values with the physical panel positions, in write order.
pub fn with_positions<I>(values: Vec<I>) -> (out: Vec<((u8, u8), I)>)
    requires
        values@.len() == 25,
    ensures
        out@.len() == 25,
        forall|i: int|
            0 <= i < 25 ==> (#[trigger] out@[i]).0 == spec_pos(i) && out@[i].1 == values@[i],
{
    let ghost orig = values@;
    let mut rev = reversed(values);
    let mut out: Vec<((u8, u8), I)> = Vec::new();
    let mut i: usize = 0;
    while rev.len() > 0
        invariant
            orig.len() == 25,
            i == out@.len(),
            out@.len() + rev@.len() == orig.len(),
            forall|k: int| 0 <= k < rev@.len() ==> #[trigger] rev@[k] == orig[orig.len() - 1 - k],
            forall|k: int|
                0 <= k < out@.len() ==> (#[trigger] out@[k]).0 == spec_pos(k) && out@[k].1
                    == orig[k],
        decreases rev@.len(),
    {
        let v = rev.pop().unwrap();
        let x = (i % 5) as u8;
        let y = (i / 5) as u8;
        out.push(((x, y), v));
        i = i + 1;
    }
    out
}

} // verus!
