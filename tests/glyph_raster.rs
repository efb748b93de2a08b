use tile_browser::glyph::{flatten_rows, sw_blit_to_buffer, sw_render_glyphs_to_buffer, ShapedGlyph, TextTextureData};

fn glyph(width: i32, rows: i32, top: i32, advance_px: i64, fill: u8) -> ShapedGlyph {
    ShapedGlyph {
        buffer: vec![fill; (width * rows) as usize],
        width,
        rows,
        top,
        advance_x: advance_px * 64,
    }
}

#[test]
fn empty_glyph_list_gives_empty_bitmap() {
    let mut data = TextTextureData::default();
    sw_render_glyphs_to_buffer(&Vec::new(), &mut data);
    assert_eq!(data.width, 0);
    assert_eq!(data.height, 0);
    assert!(data.data.is_empty());
}

#[test]
fn single_glyph_bitmap_is_copied() {
    let g = ShapedGlyph { buffer: vec![1, 2, 3, 4, 5, 6], width: 3, rows: 2, top: 2, advance_x: 4 * 64 };
    let mut data = TextTextureData::default();
    sw_render_glyphs_to_buffer(&vec![Some(g)], &mut data);
    assert_eq!(data.width, 3);
    assert_eq!(data.height, 2);
    assert_eq!(data.data, vec![1, 2, 3, 4, 5, 6]);
}

#[test]
fn glyphs_are_laid_out_by_advance_and_baseline() {
    // a 2x2 glyph sitting on the baseline, then a 1x3 glyph with one row below it
    let a = glyph(2, 2, 2, 3, 10);
    let b = glyph(1, 3, 2, 1, 20);
    let mut data = TextTextureData::default();
    sw_render_glyphs_to_buffer(&vec![Some(a), Some(b)], &mut data);
    assert_eq!(data.width, 4);
    assert_eq!(data.height, 3);
    assert_eq!(data.data.len(), data.width * data.height);
    assert_eq!(
        data.data,
        vec![10, 10, 0, 20, 10, 10, 0, 20, 0, 0, 0, 20]
    );
}

#[test]
fn overlapping_glyphs_saturate_at_255() {
    // second glyph starts one column into the first (advance of 1 px)
    let a = glyph(2, 1, 1, 1, 200);
    let b = glyph(2, 1, 1, 1, 100);
    let mut data = TextTextureData::default();
    sw_render_glyphs_to_buffer(&vec![Some(a), Some(b)], &mut data);
    assert_eq!(data.data, vec![200, 255, 100]);
}

#[test]
fn overlap_below_saturation_adds() {
    let a = glyph(2, 1, 1, 1, 30);
    let b = glyph(2, 1, 1, 1, 40);
    let mut data = TextTextureData::default();
    sw_render_glyphs_to_buffer(&vec![Some(a), Some(b)], &mut data);
    assert_eq!(data.data, vec![30, 70, 40]);
}

#[test]
fn failed_glyph_is_skipped_without_moving_the_pen() {
    let a = glyph(1, 1, 1, 2, 7);
    let b = glyph(1, 1, 1, 2, 9);
    let mut data = TextTextureData::default();
    sw_render_glyphs_to_buffer(&vec![Some(a), None, Some(b)], &mut data);
    assert_eq!(data.width, 3);
    assert_eq!(data.data, vec![7, 0, 9]);
}

#[test]
fn malformed_glyph_is_skipped() {
    let short = ShapedGlyph { buffer: vec![1, 2], width: 2, rows: 2, top: 0, advance_x: 128 };
    let negative = ShapedGlyph { buffer: vec![], width: -1, rows: 2, top: 0, advance_x: 128 };
    let mut data = TextTextureData::default();
    sw_render_glyphs_to_buffer(&vec![Some(short), Some(negative)], &mut data);
    assert_eq!(data.width, 0);
    assert_eq!(data.height, 0);
}

#[test]
fn zero_width_glyph_adds_no_rows_but_advances() {
    let space = glyph(0, 0, 0, 5, 0);
    let dot = glyph(1, 1, 1, 1, 50);
    let mut data = TextTextureData::default();
    sw_render_glyphs_to_buffer(&vec![Some(space), Some(dot)], &mut data);
    assert_eq!(data.width, 6);
    assert_eq!(data.height, 1);
    assert_eq!(data.data, vec![0, 0, 0, 0, 0, 50]);
}

#[test]
fn rows_not_covered_are_left_out() {
    // one glyph high above the baseline and one far below: the gap is not a row
    let high = glyph(1, 1, 10, 1, 1);
    let low = glyph(1, 1, -10, 1, 2);
    let mut data = TextTextureData::default();
    sw_render_glyphs_to_buffer(&vec![Some(high), Some(low)], &mut data);
    assert_eq!(data.height, 2);
    assert_eq!(data.width, 2);
    assert_eq!(data.data, vec![1, 0, 0, 2]);
}

#[test]
fn blit_grows_rows_and_clamps() {
    let mut data = TextTextureData::default();
    sw_blit_to_buffer(2, (2, 1), 0, &mut data, &[250, 1]);
    sw_blit_to_buffer(3, (1, 1), 0, &mut data, &[255]);
    sw_blit_to_buffer(0, (1, 1), 0, &mut data, &[9]);
    assert_eq!(data.row_keys, vec![0]);
    assert_eq!(data.row_pixels, vec![vec![9, 0, 250, 255]]);
}

#[test]
fn flatten_orders_rows_by_offset_and_pads() {
    let mut data = TextTextureData::default();
    // rows created at offsets 5, -3, 0 in that order
    sw_blit_to_buffer(0, (1, 1), -5, &mut data, &[1]);
    sw_blit_to_buffer(0, (3, 1), 3, &mut data, &[2, 2, 2]);
    sw_blit_to_buffer(1, (1, 1), 0, &mut data, &[3]);
    flatten_rows(&mut data);
    assert_eq!(data.height, 3);
    assert_eq!(data.width, 3);
    assert_eq!(data.data, vec![2, 2, 2, 0, 3, 0, 1, 0, 0]);
    assert!(data.row_keys.is_empty());
    assert!(data.row_pixels.is_empty());
}
