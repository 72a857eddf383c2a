use vstd::prelude::*;

verus! {

use crate::colour::Rgb;
use crate::glyph::Glyph;
use crate::glyph::blank_glyph;
use crate::glyph::spec_pos;

// The scrolling text renderer.  The message is a sequence of glyphs with two
// trailing blank glyphs as a separator; the render state is a sub-character
// pixel offset in `0..=5` (offset 5 overlaps into the next glyph, creating a
// one-pixel gap) and a whole-glyph scroll index.  `step` advances the state
// once per animation tick and reports when the whole message has scrolled
// past, which is the caller's cue to fetch possibly updated text.

/// The byte that the cp437 encoding of the `CP437_CONTROL` dialect assigns
/// to a character, or nothing where the character is not representable.
pub uninterp spec fn cp437_byte(c: char) -> Option<u8>;

/// Relies on codepage_437's `ToCp437` for `str` with the `CP437_CONTROL`
/// dialect: every character converts independently to one byte; the
/// conversion of the string succeeds exactly when every character is
/// representable, and otherwise reports how many leading characters were.
#[verifier::external_body]
fn to_cp437_bytes(s: &str) -> (r: Result<Vec<u8>, usize>)
    ensures
        r is Ok <==> (forall|i: int| 0 <= i < s@.len() ==> (#[trigger] cp437_byte(s@[i])) is Some),
        r matches Ok(bytes) ==> bytes@.len() == s@.len() && (forall|i: int|
            0 <= i < s@.len() ==> bytes@[i] == (#[trigger] cp437_byte(s@[i])).unwrap()),
        r matches Err(k) ==> k < s@.len() && cp437_byte(s@[k as int]) is None && (forall|j: int|
            0 <= j < k ==> (#[trigger] cp437_byte(s@[j])) is Some),
{
    match codepage_437::ToCp437::to_cp437(s, &codepage_437::CP437_CONTROL) {
        Ok(b) => Ok(b.into_owned()),
        Err(e) => Err(e.representable_up_to),
    }
}

/// A string whose characters are not all representable in cp437 cannot be
/// shown on the panel.
#[derive(Clone, Copy, PartialEq, Eq, Structural, Debug)]
pub struct TextError {
    /// Number of leading characters that were representable.
    pub representable_up_to: usize,
}

/// The glyph sequence of a string: each character's cp437 byte indexes the
/// font table.
pub open spec fn spec_glyphs_of(s: Seq<char>, font: Seq<Glyph>) -> Seq<Glyph> {
    s.map_values(|c: char| font[cp437_byte(c).unwrap() as int])
}

/// Looks each character of `s` up in the 256-entry `font` table through its
/// cp437 byte.  Fails, reporting how many leading characters were fine,
/// when some character has no cp437 encoding.
pub fn from_str(s: &str, font: &Vec<Glyph>) -> (r: Result<Vec<Glyph>, TextError>)
    requires
        font@.len() == 256,
    ensures
        r is Ok <==> (forall|i: int| 0 <= i < s@.len() ==> (#[trigger] cp437_byte(s@[i])) is Some),
        r matches Ok(glyphs) ==> glyphs@ == spec_glyphs_of(s@, font@),
        r matches Err(e) ==> e.representable_up_to < s@.len() && cp437_byte(
            s@[e.representable_up_to as int],
        ) is None,
{
    match to_cp437_bytes(s) {
        Err(k) => Err(TextError { representable_up_to: k }),
        Ok(bytes) => {
            let mut glyphs: Vec<Glyph> = Vec::new();
            let mut i: usize = 0;
            while i < bytes.len()
                invariant
                    i <= bytes@.len(),
                    font@.len() == 256,
                    glyphs@.len() == i,
                    bytes@.len() == s@.len(),
                    forall|k: int|
                        0 <= k < s@.len() ==> (#[trigger] cp437_byte(s@[k])) is Some && bytes@[k]
                            == cp437_byte(s@[k]).unwrap(),
                    forall|k: int|
                        0 <= k < i ==> #[trigger] glyphs@[k] == font@[cp437_byte(s@[k]).unwrap() as int],
                decreases bytes@.len() - i,
            {
                let b = bytes[i];
                glyphs.push(font[b as usize]);
                i = i + 1;
            }
            proof {
                assert(glyphs@ =~= spec_glyphs_of(s@, font@));
            }
            Ok(glyphs)
        },
    }
}

/// Mutable render state of the scrolling message.
pub struct ScrollingRender {
    message: Vec<Glyph>,
    char_offset: u8,
    scroll: u16,
}

/// One advance of the scroll state: the offset rolls over into the scroll
/// index at 6, and the scroll index wraps to 0 at the end of the message,
/// which completes the cycle.
pub open spec fn spec_step(offset: u8, scroll: u16, len: int) -> (u8, u16, bool) {
    let offset2: u8 = if offset >= 5 {
        0
    } else {
        (offset + 1) as u8
    };
    let scroll2: int = if offset >= 5 {
        scroll + 1
    } else {
        scroll as int
    };
    if scroll2 == len {
        (offset2, 0u16, true)
    } else {
        (offset2, scroll2 as u16, false)
    }
}

impl ScrollingRender {
    pub closed spec fn glyphs(&self) -> Seq<Glyph> {
        self.message@
    }

    pub closed spec fn offset(&self) -> u8 {
        self.char_offset
    }

    pub closed spec fn scroll_index(&self) -> u16 {
        self.scroll
    }

    pub open spec fn wf(&self) -> bool {
        &&& self.offset() <= 5
        &&& (self.scroll_index() as int) < self.glyphs().len()
        &&& 2 <= self.glyphs().len() <= 0xffff
    }

    /// The glyph currently at the left of the panel.
    pub open spec fn left_glyph(&self) -> Glyph {
        self.glyphs()[self.scroll_index() as int]
    }

    /// The glyph scrolling in after it.
    pub open spec fn right_glyph(&self) -> Glyph {
        self.glyphs()[(self.scroll_index() as int + 1) % self.glyphs().len() as int]
    }

    /// Builds the render state from a glyph sequence, appending two blank
    /// separator glyphs.
    pub fn from_glyphs(message: Vec<Glyph>) -> (r: ScrollingRender)
        requires
            message@.len() <= 0xfffd,
        ensures
            r.wf(),
            r.glyphs() == message@ + seq![blank_glyph(), blank_glyph()],
            r.offset() == 0,
            r.scroll_index() == 0,
    {
        let ghost orig = message@;
        let mut message = message;
        message.push(Glyph::blank());
        message.push(Glyph::blank());
        proof {
            assert(message@ =~= orig + seq![blank_glyph(), blank_glyph()]);
        }
        ScrollingRender { message, char_offset: 0, scroll: 0 }
    }

    /// Builds the render state from a string through the font table.
    pub fn from_str(s: &str, font: &Vec<Glyph>) -> (r: Result<ScrollingRender, TextError>)
        requires
            font@.len() == 256,
            s@.len() <= 0xfffd,
        ensures
            r is Ok <==> (forall|i: int|
                0 <= i < s@.len() ==> (#[trigger] cp437_byte(s@[i])) is Some),
            r matches Ok(sr) ==> sr.wf() && sr.glyphs() == spec_glyphs_of(s@, font@) + seq![
                blank_glyph(),
                blank_glyph(),
            ] && sr.offset() == 0 && sr.scroll_index() == 0,
    {
        let glyphs = from_str(s, font)?;
        Ok(Self::from_glyphs(glyphs))
    }

    /// Whether the panel pixel `(x, y)` shows the candidate colour at the
    /// current phase: the pixel must be lit in the left glyph shifted by the
    /// offset, must not be masked out by the incoming right glyph shifted by
    /// `offset - 6`, and must not sit in the one-pixel inter-character gap
    /// column `5 - offset`.
    pub open spec fn spec_visible(&self, x: u8, y: u8) -> bool {
        &&& self.left_glyph().spec_mask_at(self.offset() as int, x, y)
        &&& self.right_glyph().spec_mask_at(self.offset() as int - 6, x, y)
        &&& x as int != 5 - self.offset() as int
    }

    /// Renders one frame: for each of the 25 panel positions, the candidate
    /// colour survives exactly where `spec_visible` holds, and every other
    /// pixel is black.  `colours` holds the candidate colour of each position
    /// in physical write order.
    pub fn render(&self, colours: &Vec<Rgb>) -> (out: Vec<Rgb>)
        requires
            self.wf(),
            colours@.len() == 25,
        ensures
            out@.len() == 25,
            forall|i: int|
                0 <= i < 25 ==> out@[i] == if self.spec_visible(
                    spec_pos(i).0,
                    spec_pos(i).1,
                ) {
                    colours@[i]
                } else {
                    (Rgb { r: 0, g: 0, b: 0 })
                },
    {
        let left = self.message[self.scroll as usize];
        let next = self.scroll as usize + 1;
        let right = if next == self.message.len() {
            proof {
                let n = self.glyphs().len() as int;
                assert(n % n == 0) by (nonlinear_arith)
                    requires
                        n > 0,
                ;
            }
            self.message[0]
        } else {
            proof {
                let n = self.glyphs().len() as int;
                let v = self.scroll_index() as int + 1;
                assert(v % n == v) by (nonlinear_arith)
                    requires
                        0 <= v < n,
                ;
            }
            self.message[next]
        };
        let mut out: Vec<Rgb> = Vec::new();
        let mut i: usize = 0;
        while i < 25
            invariant
                self.wf(),
                colours@.len() == 25,
                i <= 25,
                out@.len() == i,
                left == self.left_glyph(),
                right == self.right_glyph(),
                forall|k: int|
                    0 <= k < i ==> out@[k] == if self.spec_visible(
                        spec_pos(k).0,
                        spec_pos(k).1,
                    ) {
                        colours@[k]
                    } else {
                        (Rgb { r: 0, g: 0, b: 0 })
                    },
            decreases 25 - i,
        {
            let x = (i % 5) as u8;
            let y = (i / 5) as u8;
            let off = self.char_offset;
            let left_ok = if x + off < 5 {
                left.bit_set_at(x + off, y)
            } else {
                true
            };
            let right_ok = if x + off >= 6 {
                right.bit_set_at(x + off - 6, y)
            } else {
                true
            };
            let gap = x == 5 - off;
            let visible = left_ok && right_ok && !gap;
            if visible {
                out.push(colours[i]);
            } else {
                out.push(Rgb { r: 0, g: 0, b: 0 });
            }
            i = i + 1;
        }
        out
    }

    /// Advances the scroll state one tick.  Returns true exactly when the
    /// scroll index wraps past the end of the message: the cycle is complete
    /// and the caller may swap in new text.
    pub fn step(&mut self) -> (done: bool)
        requires
            old(self).wf(),
        ensures
            final(self).wf(),
            final(self).glyphs() == old(self).glyphs(),
            ({
                let (o, s, d) = spec_step(
                    old(self).offset(),
                    old(self).scroll_index(),
                    old(self).glyphs().len() as int,
                );
                final(self).offset() == o && final(self).scroll_index() == s && done == d
            }),
    {
        self.char_offset = self.char_offset + 1;
        if self.char_offset > 5 {
            self.char_offset = 0;
            self.scroll = self.scroll + 1;
        }
        if self.scroll as usize == self.message.len() {
            self.scroll = 0;
            return true;
        }
        false
    }
}

/// One dithered sub-frame of the animation: the scroll renderer picks which
/// of the 25 candidate colours are visible at the current phase, and the
/// gamma dither table maps every channel to the discrete level of sub-frame
/// `step`.  The animation loop writes the result to the LED driver once per
/// sub-frame, `steps` times per tick, then calls `step` once.
pub fn render_subframe(
    sr: &ScrollingRender,
    table: &crate::dither::GammaDither,
    step: usize,
    colours: &Vec<Rgb>,
) -> (out: Vec<Rgb>)
    requires
        sr.wf(),
        table.wf(),
        step < table.spec_steps(),
        colours@.len() == 25,
    ensures
        out@.len() == 25,
        forall|i: int|
            0 <= i < 25 ==> out@[i] == table.spec_dither_colour(
                step as int,
                if sr.spec_visible(spec_pos(i).0, spec_pos(i).1) {
                    colours@[i]
                } else {
                    (Rgb { r: 0, g: 0, b: 0 })
                },
            ),
{
    let frame = sr.render(colours);
    let out = table.dither(step, &frame);
    proof {
        assert forall|i: int| 0 <= i < 25 implies out@[i] == table.spec_dither_colour(
            step as int,
            if sr.spec_visible(spec_pos(i).0, spec_pos(i).1) {
                colours@[i]
            } else {
                (Rgb { r: 0, g: 0, b: 0 })
            },
        ) by {
            assert(out@[i] == table.spec_dither_colour(step as int, frame@[i]));
        }
    }
    out
}

/// The scroll state after `k` ticks from `(offset, scroll)`.
pub open spec fn spec_run(offset: u8, scroll: u16, len: int, k: nat) -> (u8, u16)
    decreases k,
{
    if k == 0 {
        (offset, scroll)
    } else {
        let (o, s) = spec_run(offset, scroll, len, (k - 1) as nat);
        let (o2, s2, d) = spec_step(o, s, len);
        (o2, s2)
    }
}

/// What tick number `k` (counted from 1) reports from `(offset, scroll)`.
pub open spec fn spec_done_at(offset: u8, scroll: u16, len: int, k: nat) -> bool
    recommends
        k >= 1,
{
    let (o, s) = spec_run(offset, scroll, len, (k - 1) as nat);
    let (o2, s2, d) = spec_step(o, s, len);
    d
}

/// The full scroll cycle: starting from `(0, 0)` over a message of `len`
/// glyphs, tick `k` of the first `6 * len` reports completion exactly when
/// `k == 6 * len`, the state meanwhile walks `(k % 6, k / 6)`, and the last
/// tick returns the state to `(0, 0)`.
pub proof fn lemma_scroll_cycle(len: int, k: nat)
    requires
        1 <= len <= 0xffff,
        1 <= k <= 6 * len,
    ensures
        spec_done_at(0, 0, len, k) == (k == 6 * len),
        spec_run(0, 0, len, k) == if k == 6 * len {
            (0u8, 0u16)
        } else {
            (((k % 6) as u8, (k / 6) as u16))
        },
    decreases k,
{
    vstd::arithmetic::div_mod::lemma_fundamental_div_mod(k as int, 6);
    let j = (k - 1) as nat;
    if j == 0 {
        assert(spec_run(0, 0, len, 0) == (0u8, 0u16));
    } else {
        lemma_scroll_cycle(len, j);
        vstd::arithmetic::div_mod::lemma_fundamental_div_mod(j as int, 6);
    }
    let q = j as int / 6;
    let r = j as int % 6;
    assert(spec_run(0, 0, len, j) == (((r) as u8, (q) as u16)));
    let (o2, s2, d) = spec_step((r) as u8, (q) as u16, len);
    assert(spec_run(0, 0, len, k) == (o2, s2));
    if r < 5 {
        vstd::arithmetic::div_mod::lemma_fundamental_div_mod_converse(k as int, 6, q, r + 1);
        assert(q < len) by {
            assert(j < 6 * len);
            assert(6 * q + r < 6 * len);
            assert(q < len) by (nonlinear_arith)
                requires
                    6 * q + r < 6 * len,
                    0 <= r,
            ;
        }
    } else {
        vstd::arithmetic::div_mod::lemma_fundamental_div_mod_converse(k as int, 6, q + 1, 0);
        assert(k == 6 * (q + 1));
        if q + 1 == len {
            assert(k == 6 * len);
        } else {
            assert(q + 1 < len) by {
                assert(k <= 6 * len);
                assert(6 * (q + 1) != 6 * len) by (nonlinear_arith)
                    requires
                        q + 1 != len,
                ;
                assert(q + 1 <= len) by (nonlinear_arith)
                    requires
                        6 * (q + 1) <= 6 * len,
                ;
            }
        }
    }
}

} // verus!
