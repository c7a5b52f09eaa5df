use viprs::structural::embed::{Embed, EmbedBridge, ExtendMode};
use viprs::structural::extract_area::ExtractArea;
use viprs::structural::flip_horizontal::FlipHorizontal;
use viprs::structural::rotate180::Rotate180;
use viprs::structural::rotate90::{Rotate90, Rotate90Bridge};
use viprs::structural::subsample::{Subsample, SubsampleBridge};
use viprs::{BandFormatId, BuildError, DemandHint, DynOperation, NodeSpec, Region, U8};

// ── extract_area ────────────────────────────────────────────────────────────

#[test]
fn required_input_region_shifts_by_offset() {
    let op = ExtractArea::<U8>::new(10, 20, 5, 5);
    let output = Region::new(0, 0, 5, 5);
    let input = op.required_input_region(&output);
    assert_eq!(input.x, 10);
    assert_eq!(input.y, 20);
    assert_eq!(input.width, 5);
    assert_eq!(input.height, 5);
}

#[test]
fn required_input_region_preserves_tile_offset() {
    let op = ExtractArea::<U8>::new(100, 200, 50, 50);
    let output = Region::new(8, 16, 4, 4);
    let input = op.required_input_region(&output);
    assert_eq!(input.x, 108);
    assert_eq!(input.y, 216);
    assert_eq!(input.width, 4);
    assert_eq!(input.height, 4);
}

#[test]
fn required_input_region_clamps_offsets_above_i32_max() {
    let op = ExtractArea::<U8>::new(u32::MAX, u32::MAX, 1, 1);
    let output = Region::new(0, 0, 1, 1);
    let input = op.required_input_region(&output);
    assert_eq!(input.x, i32::MAX);
    assert_eq!(input.y, i32::MAX);
    assert_eq!(input.width, 1);
    assert_eq!(input.height, 1);
}

#[test]
fn output_dimensions_override_input() {
    let op = ExtractArea::<U8>::new(0, 0, 30, 20);
    assert_eq!(op.output_width(100), 30);
    assert_eq!(op.output_height(100), 20);
}

#[test]
fn extract_area_shift_is_exact_for_sampled_regions() {
    for (ox, oy, ow, oh, cx, cy) in [(0, 0, 1, 1, 0, 0), (99, 3, 32, 7, 50, 12), (17, 99, 5, 32, 1, 50)] {
        let op = ExtractArea::<U8>::new(cx, cy, ow, oh);
        let input = op.required_input_region(&Region::new(ox, oy, ow, oh));
        assert_eq!(input, Region::new(ox + cx as i32, oy + cy as i32, ow, oh));
    }
}

#[test]
fn extract_area_prefers_thin_strips() {
    assert_eq!(ExtractArea::<U8>::new(1, 2, 3, 4).demand_hint(), DemandHint::ThinStrip);
}

// ── flip_horizontal ─────────────────────────────────────────────────────────

fn flip(op: &FlipHorizontal<U8>, region: Region, bands: u32, input: &[u8]) -> Vec<u8> {
    let mut output = vec![0u8; input.len()];
    op.process_region(&region, bands, input, &mut output);
    output
}

#[test]
fn required_input_region_reflects_x() {
    let op = FlipHorizontal::<U8>::new(100);
    let output = Region::new(10, 0, 20, 1);
    let input = op.required_input_region(&output);
    assert_eq!(input.x, 70);
    assert_eq!(input.y, 0);
    assert_eq!(input.width, 20);
    assert_eq!(input.height, 1);
}

#[test]
fn required_input_region_y_unchanged() {
    let op = FlipHorizontal::<U8>::new(64);
    let output = Region::new(0, 5, 8, 4);
    let input = op.required_input_region(&output);
    assert_eq!(input.y, 5);
    assert_eq!(input.height, 4);
}

#[test]
fn required_input_region_clamps_large_image_width() {
    let op = FlipHorizontal::<U8>::new(u32::MAX);
    let output = Region::new(0, 0, 1, 1);
    let input = op.required_input_region(&output);
    assert_eq!(input.x, i32::MAX);
    assert_eq!(input.y, 0);
    assert_eq!(input.width, 1);
    assert_eq!(input.height, 1);
}

#[test]
fn process_region_reverses_single_row() {
    let op = FlipHorizontal::<U8>::new(4);
    let r = Region::new(0, 0, 4, 1);
    assert_eq!(flip(&op, r, 1, &[1u8, 2, 3, 4]), vec![4u8, 3, 2, 1]);
}

#[test]
fn process_region_reverses_two_rows() {
    let op = FlipHorizontal::<U8>::new(3);
    let r = Region::new(0, 0, 3, 2);
    assert_eq!(flip(&op, r, 1, &[1u8, 2, 3, 4, 5, 6]), vec![3u8, 2, 1, 6, 5, 4]);
}

#[test]
fn flip_keeps_band_order_within_pixels() {
    let op = FlipHorizontal::<U8>::new(2);
    let r = Region::new(0, 0, 2, 1);
    assert_eq!(flip(&op, r, 3, &[1u8, 2, 3, 4, 5, 6]), vec![4u8, 5, 6, 1, 2, 3]);
}

#[test]
fn flip_twice_restores_the_tile() {
    let pixels: Vec<u8> = (0u8..36).collect();
    let op = FlipHorizontal::<U8>::new(4);
    let r = Region::new(0, 0, 4, 3);
    let once = flip(&op, r, 3, &pixels);
    assert_ne!(once, pixels);
    assert_eq!(flip(&op, r, 3, &once), pixels);
}

#[test]
fn flip_leaves_samples_past_the_tile() {
    let op = FlipHorizontal::<U8>::new(2);
    let r = Region::new(0, 0, 2, 1);
    let mut output = vec![7u8; 4];
    op.process_region(&r, 1, &[1u8, 2], &mut output);
    assert_eq!(output, vec![2u8, 1, 7, 7]);
}

// ── rotate180 ───────────────────────────────────────────────────────────────

fn rotate_half_turn(op: &Rotate180<U8>, region: Region, bands: u32, input: &[u8]) -> Vec<u8> {
    let mut output = vec![0u8; input.len()];
    op.process_region(&region, bands, input, &mut output);
    output
}

#[test]
fn required_input_region_reflects_both_axes() {
    let op = Rotate180::<U8>::new(8, 6);
    let output = Region::new(1, 2, 3, 2);
    assert_eq!(op.required_input_region(&output), Region::new(4, 2, 3, 2));
}

#[test]
fn required_input_region_clamps_large_image_dimensions() {
    let op = Rotate180::<U8>::new(u32::MAX, u32::MAX);
    let output = Region::new(0, 0, 1, 1);
    assert_eq!(op.required_input_region(&output), Region::new(i32::MAX, i32::MAX, 1, 1));
}

#[test]
fn process_region_rotates_2x2() {
    let op = Rotate180::<U8>::new(2, 2);
    let region = Region::new(0, 0, 2, 2);
    assert_eq!(rotate_half_turn(&op, region, 1, &[1u8, 2, 3, 4]), vec![4u8, 3, 2, 1]);
}

#[test]
fn preferred_tile_geometry_is_fat_strip() {
    let op = Rotate180::<U8>::new(4, 3);
    assert_eq!(op.preferred_tile_geometry(), DemandHint::FatStrip);
}

#[test]
fn process_region_rotates_multiband_pixels_without_reordering_channels() {
    let op = Rotate180::<U8>::new(2, 2);
    let region = Region::new(0, 0, 2, 2);
    let input_data = vec![1u8, 2, 3, 10, 20, 30, 4, 5, 6, 40, 50, 60];
    assert_eq!(
        rotate_half_turn(&op, region, 3, &input_data),
        vec![40, 50, 60, 4, 5, 6, 10, 20, 30, 1, 2, 3]
    );
}

#[test]
fn rotate180_twice_restores_the_tile() {
    let pixels: Vec<u8> = (0u8..30).collect();
    let op = Rotate180::<U8>::new(5, 6);
    let region = Region::new(0, 0, 5, 6);
    let once = rotate_half_turn(&op, region, 1, &pixels);
    assert_eq!(once[0], 29);
    assert_eq!(rotate_half_turn(&op, region, 1, &once), pixels);
}

#[test]
fn rotate180_writes_only_whole_rows_that_fit() {
    let op = Rotate180::<U8>::new(2, 2);
    let region = Region::new(0, 0, 2, 2);
    let mut output = vec![9u8; 3];
    op.process_region(&region, 1, &[1u8, 2, 3, 4], &mut output);
    assert_eq!(output, vec![4u8, 3, 9]);
}

// ── rotate90 ────────────────────────────────────────────────────────────────

fn rotate_quarter(data: &[u8], w: u32, h: u32) -> Vec<u8> {
    let op = Rotate90::<U8>::new(w, h);
    let output_region = Region::new(0, 0, h, w);
    let mut result = vec![0u8; data.len()];
    op.process_region(1, data, &output_region, &mut result);
    result
}

#[test]
fn required_input_region_correct() {
    let op = Rotate90::<U8>::new(8, 6);
    let output = Region::new(0, 0, 4, 3);
    let input = op.required_input_region(&output);
    assert_eq!(input.x, 0);
    assert_eq!(input.y, 2);
    assert_eq!(input.width, 3);
    assert_eq!(input.height, 4);
}

#[test]
fn required_input_region_clamps_large_image_height() {
    let op = Rotate90::<U8>::new(1, u32::MAX);
    let output = Region::new(0, 0, 1, 1);
    let input = op.required_input_region(&output);
    assert_eq!(input.x, 0);
    assert_eq!(input.y, i32::MAX);
    assert_eq!(input.width, 1);
    assert_eq!(input.height, 1);
}

#[test]
fn node_spec_transposes_dimensions() {
    let op = Rotate90::<U8>::new(1024, 768);
    let spec = op.node_spec(512, 256);
    assert_eq!(spec.input_tile_w, 256);
    assert_eq!(spec.input_tile_h, 512);
    assert_eq!(spec.output_tile_w, 512);
    assert_eq!(spec.output_tile_h, 256);
}

#[test]
fn output_dimensions() {
    let bridge = Rotate90Bridge::<U8>::new(8, 6, 1);
    assert_eq!(bridge.output_width(8), 6);
    assert_eq!(bridge.output_height(6), 8);
}

#[test]
fn process_region_correct() {
    let op = Rotate90::<U8>::new(2, 2);
    let output_region = Region::new(0, 0, 2, 2);
    let input_region = op.required_input_region(&output_region);
    assert_eq!(input_region, Region::new(0, 0, 2, 2));
    let mut output_data = vec![0u8; 4];
    op.process_region(1, &[1u8, 2, 3, 4], &output_region, &mut output_data);
    assert_eq!(output_data, vec![3u8, 1, 4, 2]);
}

#[test]
fn rotate90_bridge_processes_bytes_and_reports_metadata() {
    let bridge = Rotate90Bridge::<U8>::new(2, 3, 1);
    let output_region = Region::new(0, 0, 3, 2);
    let input_region = bridge.required_input_region(&output_region);
    let input_data = [1u8, 2, 3, 4, 5, 6];
    let mut output_data = [0u8; 6];

    assert_eq!(bridge.input_format(), BandFormatId::U8);
    assert_eq!(bridge.output_format(), BandFormatId::U8);
    assert_eq!(bridge.demand_hint(), DemandHint::SmallTile);
    assert_eq!(
        bridge.node_spec(4, 2),
        NodeSpec { input_tile_w: 2, input_tile_h: 4, output_tile_w: 4, output_tile_h: 2 }
    );

    bridge.dyn_process_region(&input_data, &mut output_data, input_region, output_region);

    assert_eq!(bridge.output_width(2), 3);
    assert_eq!(bridge.output_height(3), 2);
    assert_eq!(output_data, [5u8, 3, 1, 6, 4, 2]);
}

#[test]
fn rotate90_four_times_restores_the_image() {
    let pixels: Vec<u8> = (0u8..12).collect();
    let once = rotate_quarter(&pixels, 4, 3);
    let twice = rotate_quarter(&once, 3, 4);
    let thrice = rotate_quarter(&twice, 4, 3);
    let four = rotate_quarter(&thrice, 3, 4);
    assert_ne!(once, pixels);
    assert_eq!(four, pixels);
}

#[test]
fn rotate90_twice_is_a_half_turn() {
    let pixels: Vec<u8> = (0u8..12).collect();
    let twice = rotate_quarter(&rotate_quarter(&pixels, 4, 3), 3, 4);
    let op = Rotate180::<U8>::new(4, 3);
    let mut half = vec![0u8; 12];
    op.process_region(&Region::new(0, 0, 4, 3), 1, &pixels, &mut half);
    assert_eq!(twice, half);
}

// ── subsample ───────────────────────────────────────────────────────────────

fn expected_subsample(
    input: &[u8],
    input_width: usize,
    bands: usize,
    output_width: usize,
    output_height: usize,
    xfac: usize,
    yfac: usize,
) -> Vec<u8> {
    let mut expected = vec![0u8; output_width * output_height * bands];
    for row in 0..output_height {
        let src_row = row * yfac;
        for col in 0..output_width {
            let src_col = col * xfac;
            let src = (src_row * input_width + src_col) * bands;
            let dst = (row * output_width + col) * bands;
            expected[dst..dst + bands].copy_from_slice(&input[src..src + bands]);
        }
    }
    expected
}

fn run_subsample(op: &Subsample<U8>, output_region: Region, bands: u32, input: &[u8]) -> Vec<u8> {
    let input_region = op.required_input_region(&output_region);
    let mut output = vec![0u8; output_region.pixel_count() * bands as usize];
    op.process_region(&input_region, bands, input, &output_region, &mut output);
    output
}

#[test]
fn required_input_region_expands_by_factor() {
    let op = Subsample::<U8>::new(2, 3).unwrap();
    let output = Region::new(1, 1, 2, 2);
    assert_eq!(op.required_input_region(&output), Region::new(2, 3, 3, 4));
}

#[test]
fn required_input_region_is_empty_for_zero_sized_output() {
    let op = Subsample::<U8>::new(2, 3).unwrap();
    let input = op.required_input_region(&Region::new(1, 1, 0, 2));
    assert_eq!(input, Region::new(2, 3, 0, 0));
}

#[test]
fn output_dimensions_round_down() {
    let bridge = SubsampleBridge::<U8>::new(2, 3, 1).unwrap();
    assert_eq!(bridge.output_width(7), 3);
    assert_eq!(bridge.output_height(8), 2);
}

#[test]
fn structural_subsample_builder_zero_x_factor_returns_error() {
    let result = Subsample::<U8>::new(0, 1);
    assert!(matches!(result, Err(BuildError::SourceHint { context: "subsample", .. })));
}

#[test]
fn subsample_rejects_zero_y_factor_with_message() {
    let result = SubsampleBridge::<U8>::new(1, 0, 1);
    assert!(matches!(
        result,
        Err(BuildError::SourceHint { context: "subsample", message })
            if message == "xfac and yfac must be >= 1"
    ));
}

#[test]
fn node_spec_expands_input_tile_by_sampling_factor() {
    let op = Subsample::<U8>::new(3, 4).unwrap();
    let spec = op.node_spec(5, 6);
    assert_eq!(spec.input_tile_w, 13);
    assert_eq!(spec.input_tile_h, 21);
    assert_eq!(spec.output_tile_w, 5);
    assert_eq!(spec.output_tile_h, 6);
}

#[test]
fn node_spec_uses_empty_input_tile_for_zero_sized_output() {
    let op = Subsample::<U8>::new(12, 5).unwrap();
    let spec = op.node_spec(0, 1);
    assert_eq!(spec.input_tile_w, 0);
    assert_eq!(spec.input_tile_h, 0);
    assert_eq!(spec.output_tile_w, 0);
    assert_eq!(spec.output_tile_h, 1);
}

#[test]
fn bridge_metadata_and_dyn_dispatch_cover_multiband_tiles() {
    let bridge = SubsampleBridge::<U8>::new(2, 3, 2).unwrap();
    assert_eq!(bridge.input_format(), BandFormatId::U8);
    assert_eq!(bridge.output_format(), BandFormatId::U8);
    assert_eq!(bridge.bands(), 2);
    assert_eq!(bridge.demand_hint(), DemandHint::ThinStrip);

    let output_region = Region::new(0, 0, 2, 2);
    let input_region = bridge.required_input_region(&output_region);
    let input: Vec<u8> = (0u8..24).collect();
    let mut output = vec![0u8; 8];
    bridge.dyn_process_region(&input, &mut output, input_region, output_region);

    assert_eq!(output, vec![0u8, 1, 4, 5, 18, 19, 22, 23]);
}

#[test]
fn process_region_decimates_integer_grid() {
    let op = Subsample::<U8>::new(2, 2).unwrap();
    let output = run_subsample(&op, Region::new(0, 0, 2, 2), 1, &[1u8, 2, 3, 4, 5, 6, 7, 8, 9]);
    assert_eq!(output, vec![1u8, 3, 7, 9]);
}

#[test]
fn one_pixel_wide_edge_case_uses_exact_required_rows() {
    let bands = 2usize;
    let op = Subsample::<U8>::new(1, 3).unwrap();
    let output_region = Region::new(0, 0, 1, 2);
    let input_region = op.required_input_region(&output_region);
    let pixels = (0..input_region.pixel_count() * bands)
        .map(|idx| (idx % 251) as u8)
        .collect::<Vec<_>>();
    let output = run_subsample(&op, output_region, bands as u32, &pixels);
    let expected = expected_subsample(
        &pixels,
        input_region.width as usize,
        bands,
        output_region.width as usize,
        output_region.height as usize,
        1,
        3,
    );
    assert_eq!(output, expected);
}

#[test]
fn one_pixel_tall_edge_case_uses_exact_required_columns() {
    let bands = 2usize;
    let op = Subsample::<U8>::new(3, 1).unwrap();
    let output_region = Region::new(0, 0, 2, 1);
    let input_region = op.required_input_region(&output_region);
    let pixels = (0..input_region.pixel_count() * bands)
        .map(|idx| (idx % 251) as u8)
        .collect::<Vec<_>>();
    let output = run_subsample(&op, output_region, bands as u32, &pixels);
    let expected = expected_subsample(
        &pixels,
        input_region.width as usize,
        bands,
        output_region.width as usize,
        output_region.height as usize,
        3,
        1,
    );
    assert_eq!(output, expected);
}

#[test]
fn subsample_by_unit_factors_keeps_every_pixel() {
    let pixels: Vec<u8> = (0u8..24).collect();
    let op = Subsample::<U8>::new(1, 1).unwrap();
    assert_eq!(run_subsample(&op, Region::new(0, 0, 4, 3), 2, &pixels), pixels);
}

#[test]
fn subsample_large_factors_pick_bottom_right_edge_samples_for_sampled_factors() {
    for (xfac, yfac, bands) in [(2u32, 2u32, 1usize), (3, 5, 2), (8, 8, 4)] {
        let input_width = (xfac + 1) as usize;
        let input_height = (yfac + 1) as usize;
        let pixels = (0..input_width * input_height * bands)
            .map(|idx| (idx % 251) as u8)
            .collect::<Vec<_>>();
        let op = Subsample::<U8>::new(xfac, yfac).unwrap();
        let output = run_subsample(&op, Region::new(0, 0, 2, 2), bands as u32, &pixels);
        let expected =
            expected_subsample(&pixels, input_width, bands, 2, 2, xfac as usize, yfac as usize);
        assert_eq!(output, expected);
    }
}

// ── embed ───────────────────────────────────────────────────────────────────

fn run_embed(op: &Embed<U8>, src_pixels: &[u8], output_region: Region, bands: u32) -> Vec<u8> {
    let n = output_region.pixel_count() * bands as usize;
    let mut out = vec![0u8; n];
    op.process_region(src_pixels, &output_region, bands, &mut out);
    out
}

#[test]
fn required_input_region_subtracts_offset() {
    let op = Embed::<U8>::new(4, 4, 1, 1, 2, 2, ExtendMode::Black);
    let in_region = op.required_input_region(&Region::new(1, 1, 2, 2));
    assert_eq!(in_region.x, 0);
    assert_eq!(in_region.y, 0);
    assert_eq!(in_region.width, 2);
    assert_eq!(in_region.height, 2);
}

#[test]
fn required_input_region_can_go_negative() {
    let op = Embed::<U8>::new(8, 8, 3, 3, 4, 4, ExtendMode::Black);
    let in_region = op.required_input_region(&Region::new(0, 0, 3, 3));
    assert_eq!(in_region.x, -3);
    assert_eq!(in_region.y, -3);
}

#[test]
fn required_input_region_clamps_large_offsets_to_i32_min() {
    let op = Embed::<U8>::new(10, 10, u32::MAX, u32::MAX, 1, 1, ExtendMode::Black);
    let in_region = op.required_input_region(&Region::new(0, 0, 1, 1));
    assert_eq!(in_region.x, i32::MIN);
    assert_eq!(in_region.y, i32::MIN);
    assert_eq!(in_region.width, 1);
    assert_eq!(in_region.height, 1);
}

#[test]
fn output_dimensions_are_dst_dimensions() {
    let bridge = EmbedBridge::<U8>::new(10, 20, 0, 0, 5, 5, ExtendMode::Black, 1);
    assert_eq!(bridge.output_width(5), 10);
    assert_eq!(bridge.output_height(5), 20);
}

#[test]
fn black_fill_outside_source() {
    let op = Embed::<U8>::new(4, 4, 1, 1, 2, 2, ExtendMode::Black);
    let src = vec![255u8; 4];
    let result = run_embed(&op, &src, Region::new(0, 0, 4, 1), 1);
    assert_eq!(result, vec![0u8, 0, 0, 0]);
}

#[test]
fn black_fill_treats_large_offsets_as_out_of_bounds() {
    let op = Embed::<U8>::new(1, 1, u32::MAX, 0, 2, 1, ExtendMode::Black);
    let result = run_embed(&op, &[255u8], Region::new(0, 0, 1, 1), 1);
    assert_eq!(result, vec![0u8]);
}

#[test]
fn source_pixel_appears_at_correct_canvas_position() {
    let op = Embed::<U8>::new(4, 4, 1, 1, 2, 2, ExtendMode::Black);
    let result = run_embed(&op, &[10u8, 20, 30, 40], Region::new(1, 1, 2, 2), 1);
    assert_eq!(result, vec![10u8, 20, 30, 40]);
}

#[test]
fn embed_with_zero_offset_and_same_size_is_identity() {
    let op = Embed::<U8>::new(4, 4, 0, 0, 4, 4, ExtendMode::Black);
    let src: Vec<u8> = (0..16).collect();
    let result = run_embed(&op, &src, Region::new(0, 0, 4, 4), 1);
    assert_eq!(result, src);
}

#[test]
fn edge_fill_copies_clamped_pixel() {
    let op = Embed::<U8>::new(6, 6, 2, 2, 2, 2, ExtendMode::Edge);
    let result = run_embed(&op, &[99u8; 4], Region::new(0, 0, 2, 2), 1);
    assert_eq!(result, vec![99u8; 4]);
}

#[test]
fn black_fill_multi_band() {
    let op = Embed::<U8>::new(2, 1, 1, 0, 1, 1, ExtendMode::Black);
    let src = vec![10u8, 20, 30, 10, 20, 30];
    let result = run_embed(&op, &src, Region::new(0, 0, 2, 1), 3);
    assert_eq!(result, vec![0u8, 0, 0, 10, 20, 30]);
}

#[test]
fn edge_extend_can_mix_clamped_and_in_bounds_pixels() {
    let op = Embed::<U8>::new(3, 1, 1, 0, 2, 1, ExtendMode::Edge);
    let result = run_embed(&op, &[10u8, 10, 20], Region::new(0, 0, 3, 1), 1);
    assert_eq!(result, vec![10, 10, 20]);
}

#[test]
fn black_fill_bottom_right_border_zeroes_all_bands() {
    let op = Embed::<U8>::new(2, 2, 0, 0, 1, 1, ExtendMode::Black);
    let src = vec![8u8, 9, 10, 8, 9, 10];
    let result = run_embed(&op, &src, Region::new(0, 1, 1, 2), 3);
    assert_eq!(result, vec![0, 0, 0, 0, 0, 0]);
}

#[test]
fn embed_bridge_delegates_dyn_contract_and_processing() {
    let bridge = EmbedBridge::<U8>::new(4, 3, 1, 1, 2, 1, ExtendMode::Black, 1);
    let output_region = Region::new(1, 1, 2, 1);
    let input_region = bridge.required_input_region(&output_region);
    let mut output = vec![0u8; 2];

    assert_eq!(bridge.input_format(), BandFormatId::U8);
    assert_eq!(bridge.output_format(), BandFormatId::U8);
    assert_eq!(bridge.bands(), 1);
    assert_eq!(bridge.demand_hint(), DemandHint::ThinStrip);
    assert_eq!(bridge.node_spec(2, 1), NodeSpec::identity(2, 1));

    bridge.dyn_process_region(&[12, 34], &mut output, input_region, output_region);

    assert_eq!(output, vec![12, 34]);
}

#[test]
fn black_left_border_is_zero_for_sampled_offsets() {
    for x_off in [1u32, 3, 8] {
        for fill_val in [0u8, 77, 255] {
            let op = Embed::<U8>::new(x_off + 1, 1, x_off, 0, 1, 1, ExtendMode::Black);
            let src = vec![fill_val; x_off as usize];
            let result = run_embed(&op, &src, Region::new(0, 0, x_off, 1), 1);
            assert!(result.iter().all(|&v| v == 0));
        }
    }
}

#[test]
fn black_fill_leaves_samples_past_the_tile() {
    let op = Embed::<U8>::new(2, 1, 1, 0, 1, 1, ExtendMode::Black);
    let mut out = vec![5u8; 3];
    op.process_region(&[10u8, 42], &Region::new(0, 0, 2, 1), 1, &mut out);
    assert_eq!(out, vec![0u8, 42, 5]);
}

#[test]
fn subsample_single_pixel_input_survives_sampled_factors() {
    for (xfac, yfac) in [(1u32, 1u32), (2, 7), (8, 8), (u32::MAX, 3)] {
        for pixel in [vec![7u8], vec![1u8, 2, 3, 4]] {
            let bands = pixel.len() as u32;
            let op = Subsample::<U8>::new(xfac, yfac).unwrap();
            let output_region = Region::new(0, 0, 1, 1);
            assert_eq!(op.required_input_region(&output_region), Region::new(0, 0, 1, 1));
            assert_eq!(run_subsample(&op, output_region, bands, &pixel), pixel);
        }
    }
}
