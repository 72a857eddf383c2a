use ledband::colour::Rgb;
use ledband::glyph::{glyph_frame, with_positions, Glyph};
use ledband::scroll::{from_str, render_subframe, ScrollingRender};

const WHITE: Rgb = Rgb { r: 255, g: 255, b: 255 };
const BLACK: Rgb = Rgb { r: 0, g: 0, b: 0 };

/// A font table for the tests: blank everywhere except the letters used,
/// with the bitmaps of the device's 5x5 matrix font, and a marker glyph at
/// the cp437 slot of 'é' to pin the encoding down.
fn test_font() -> Vec<Glyph> {
    let mut font = Vec::new();
    for _ in 0..256 {
        font.push(Glyph::new(0, 0, 0, 0, 0));
    }
    font[0x41] = Glyph::new(6, 9, 17, 31, 17); // 'A'
    font[0x42] = Glyph::new(7, 9, 15, 17, 15); // 'B'
    font[0x82] = Glyph::new(1, 2, 3, 4, 5); // 'é' in cp437
    font
}

fn bit(rows: [u8; 5], x: usize, y: usize) -> bool {
    rows[y] & (1 << x) != 0
}

#[test]
fn render_initial_phase_shows_first_glyph() {
    // At char_offset 0, scroll 0 for "AB", the panel shows glyph 'A' exactly:
    // the second glyph starts at column 6, beyond the 5-wide panel, and the
    // gap column 5 - offset = 5 is also off-panel.
    let font = test_font();
    let sr = ScrollingRender::from_str("AB", &font).unwrap();
    let colours = vec![WHITE; 25];
    let out = sr.render(&colours);
    assert_eq!(out.len(), 25);
    let a = [6u8, 9, 17, 31, 17];
    for i in 0..25 {
        let (x, y) = (i % 5, i / 5);
        let expected = if bit(a, x, y) { WHITE } else { BLACK };
        assert_eq!(out[i], expected, "pixel ({x},{y})");
    }
}

#[test]
fn render_mid_scroll_mixes_both_glyphs() {
    // After 4 steps the offset is 4: panel column x shows glyph column
    // x + 4 of 'A' for x = 0, the gap at x = 1, and nothing of 'B' yet
    // (its first column enters at x + 4 >= 6, i.e. x >= 2, columns 0..).
    let font = test_font();
    let mut sr = ScrollingRender::from_str("AB", &font).unwrap();
    for _ in 0..4 {
        assert!(!sr.step());
    }
    let colours = vec![WHITE; 25];
    let out = sr.render(&colours);
    let a = [6u8, 9, 17, 31, 17];
    let b = [7u8, 9, 15, 17, 15];
    for i in 0..25 {
        let (x, y) = (i % 5, i / 5);
        let mut on = true;
        if x + 4 < 5 {
            on = on && bit(a, x + 4, y);
        }
        if x + 4 >= 6 {
            on = on && bit(b, x + 4 - 6, y);
        }
        if x == 1 {
            on = false;
        }
        assert_eq!(out[i], if on { WHITE } else { BLACK }, "pixel ({x},{y})");
    }
}

#[test]
fn step_cycle_reports_done_exactly_once() {
    // "AB" plus two blank separators is 4 glyphs: 24 steps make one cycle;
    // only the 24th returns true, and the state is back at the start.
    let font = test_font();
    let mut sr = ScrollingRender::from_str("AB", &font).unwrap();
    let colours = vec![WHITE; 25];
    let initial = sr.render(&colours);
    for k in 1..=24 {
        let done = sr.step();
        assert_eq!(done, k == 24, "step {k}");
    }
    assert_eq!(sr.render(&colours), initial);
}

#[test]
fn step_cycle_over_three_cycles() {
    let font = test_font();
    let mut sr = ScrollingRender::from_str("A", &font).unwrap();
    // 1 glyph + 2 blanks = 3 glyphs: 18 steps per cycle.
    let mut dones = Vec::new();
    for _ in 0..54 {
        dones.push(sr.step());
    }
    for (i, d) in dones.iter().enumerate() {
        assert_eq!(*d, (i + 1) % 18 == 0, "step {}", i + 1);
    }
}

#[test]
fn from_str_maps_through_cp437() {
    // 'é' is byte 0x82 in cp437, not its Unicode scalar value: the glyph at
    // slot 0x82 must come back.
    let font = test_font();
    let glyphs = from_str("é", &font).unwrap();
    assert_eq!(glyphs.len(), 1);
    assert!(glyphs[0].bit_set_at(0, 0)); // row 0 of the marker glyph is 1
    assert!(glyphs[0].bit_set_at(1, 1)); // row 1 is 2
    assert!(!glyphs[0].bit_set_at(0, 1));
}

#[test]
fn from_str_rejects_unrepresentable_text() {
    let font = test_font();
    assert!(from_str("Żurek", &font).is_err());
    assert!(ScrollingRender::from_str("Żurek", &font).is_err());
    // The error reports how many leading characters were representable.
    let err = from_str("Eżektor", &font).unwrap_err();
    assert_eq!(err.representable_up_to, 1);
}

#[test]
fn glyph_masks() {
    let g = Glyph::new(1, 2, 4, 8, 16); // diagonal
    assert!(g.bit_set_at(0, 0));
    assert!(g.bit_set_at(2, 2));
    assert!(!g.bit_set_at(1, 0));

    let items = with_positions(vec![7u32; 25]);
    assert_eq!(items.len(), 25);
    assert_eq!(items[0].0, (0, 0));
    assert_eq!(items[7].0, (2, 1));
    assert_eq!(items[24].0, (4, 4));

    // mask_inv keeps values where the glyph is unlit.
    let masked = g.mask_inv(items.clone());
    assert_eq!(masked[0].1, None); // (0,0) lit on the diagonal
    assert_eq!(masked[1].1, Some(7)); // (1,0) unlit
    assert_eq!(masked[6].1, None); // (1,1) lit

    // mask_with_x_offset keeps values where the shifted glyph is lit, and
    // passes positions outside the glyph through.
    let shifted = g.mask_with_x_offset(2, with_positions(vec![7u32; 25]));
    // (0,0) looks at glyph column 2 of row 0: unlit.
    assert_eq!(shifted[0].1, None);
    // (0,2) looks at glyph column 2 of row 2: lit.
    assert_eq!(shifted[10].1, Some(7));
    // (4,0) looks at column 6: outside, passes through.
    assert_eq!(shifted[4].1, Some(7));
}

#[test]
fn glyph_frame_heart_mode() {
    // The secondary indicator substitutes one fixed glyph and colour.
    let heart = Glyph::new(10, 31, 31, 14, 4);
    let red = Rgb::new(255, 0, 0);
    let out = glyph_frame(&heart, red);
    assert_eq!(out.len(), 25);
    let rows = [10u8, 31, 31, 14, 4];
    for i in 0..25 {
        let (x, y) = (i % 5, i / 5);
        assert_eq!(out[i], if bit(rows, x, y) { red } else { BLACK });
    }
}

#[test]
fn subframe_pipeline_composes_render_and_dither() {
    let font = test_font();
    let sr = ScrollingRender::from_str("A", &font).unwrap();
    // A two-level table: every intensity maps to its own value for step 0.
    let mut targets = Vec::new();
    for i in 0..256usize {
        targets.push((i as u8, 0usize));
    }
    let table = ledband::dither::GammaDither::build(&targets, 1);
    let colours = vec![Rgb::new(200, 100, 50); 25];
    let out = render_subframe(&sr, &table, 0, &colours);
    let plain = sr.render(&colours);
    for i in 0..25 {
        assert_eq!(out[i].r, table.level(plain[i].r, 0));
        assert_eq!(out[i].g, table.level(plain[i].g, 0));
        assert_eq!(out[i].b, table.level(plain[i].b, 0));
    }
}
