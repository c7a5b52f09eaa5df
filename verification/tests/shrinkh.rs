use viprs::resample::shrinkh::{
    shrink_h_u8, shrink_h_u8_factor5_scalar, shrink_h_u8_scalar, shrink_h_u8_sequential_3,
    shrink_h_u8_sequential_4, ShrinkH, ShrinkHBridge,
};
use viprs::{BandFormatId, BuildError, DemandHint, DynOperation, Region, U8};

fn run_shrinkh(factor: u32, ceil: bool, input_data: &[u8], in_w: u32, in_h: u32, bands: u32) -> Vec<u8> {
    let op = ShrinkH::<U8>::new_with_ceil(factor, ceil).unwrap();
    let out_w = op.output_width(in_w);
    let in_region = Region::new(0, 0, in_w, in_h);
    let out_region = Region::new(0, 0, out_w, in_h);
    let mut out_data = vec![0u8; out_w as usize * in_h as usize * bands as usize];
    op.process_region(&in_region, bands, input_data, &out_region, &mut out_data);
    out_data
}

#[test]
fn shrinkh_factor2_averages_pairs() {
    let input = vec![10u8, 20u8, 30u8, 40u8];
    let output = run_shrinkh(2, false, &input, 4, 1, 1);
    assert_eq!(output, vec![15u8, 35u8]);
}

#[test]
fn shrinkh_factor2_averages_rgb_pairs() {
    let input = vec![10u8, 20u8, 30u8, 20u8, 40u8, 60u8, 30u8, 60u8, 90u8, 40u8, 80u8, 120u8];
    let output = run_shrinkh(2, false, &input, 4, 1, 3);
    assert_eq!(output, vec![15u8, 30u8, 45u8, 35u8, 70u8, 105u8]);
}

#[test]
fn shrinkh_factor5_averages_rgb_groups() {
    let input = vec![
        10u8, 20u8, 30u8, 20u8, 30u8, 40u8, 30u8, 40u8, 50u8, 40u8, 50u8, 60u8, 50u8, 60u8, 70u8,
        100u8, 110u8, 120u8, 110u8, 120u8, 130u8, 120u8, 130u8, 140u8, 130u8, 140u8, 150u8, 140u8,
        150u8, 160u8,
    ];
    let output = run_shrinkh(5, false, &input, 10, 1, 3);
    assert_eq!(output, vec![30u8, 40u8, 50u8, 120u8, 130u8, 140u8]);
}

#[test]
fn shrinkh_generic_neon_matches_scalar_for_thumbnail_factor() {
    let factor = 19usize;
    let out_w = 7usize;
    let out_h = 3usize;

    for bands in [1usize, 3, 4] {
        let len = out_w * out_h * factor * bands;
        let input: Vec<u8> = (0..len).map(|idx| ((idx * 37 + 11) % 251) as u8).collect();
        let mut expected = vec![0u8; out_w * out_h * bands];
        let mut actual = vec![0u8; out_w * out_h * bands];

        let input_stride = out_w * factor;
        shrink_h_u8_scalar(factor, &input, bands, input_stride, out_w, out_h, &mut expected);
        shrink_h_u8(factor, &input, bands, input_stride, out_w, out_h, &mut actual);

        assert_eq!(actual, expected, "bands={bands}");
    }
}

#[test]
fn shrinkh_neon_generic_matches_scalar_for_all_thumbnail_factors() {
    let cases: &[(usize, usize, usize)] = &[
        (10, 819, 8192),
        (19, 431, 8192),
        (39, 210, 8192),
        (4, 512, 2048),
        (8, 256, 2048),
        (32, 256, 8192),
        (3, 100, 300),
    ];
    for &(factor, out_w, source_width) in cases {
        for bands in [3usize, 4] {
            let out_h = 2usize;
            let row_bytes = source_width * bands;
            let len = out_h * row_bytes;
            let input: Vec<u8> = (0..len).map(|i| ((i * 41 + 7) % 251) as u8).collect();
            let mut expected = vec![0u8; out_w * out_h * bands];
            let mut actual = vec![0u8; out_w * out_h * bands];

            shrink_h_u8_scalar(factor, &input, bands, source_width, out_w, out_h, &mut expected);
            shrink_h_u8(factor, &input, bands, source_width, out_w, out_h, &mut actual);

            assert_eq!(
                actual, expected,
                "factor={factor} out_w={out_w} source_w={source_width} bands={bands}"
            );
        }
    }
}

#[test]
fn shrinkh_factor1_is_identity() {
    let input = vec![7u8, 42u8, 100u8, 200u8];
    let output = run_shrinkh(1, false, &input, 4, 1, 1);
    assert_eq!(output, input);
}

#[test]
fn shrinkh_output_width() {
    let op = ShrinkH::<U8>::new(2).unwrap();
    assert_eq!(op.output_width(100), 50);
    assert_eq!(op.output_width(5), 2);
}

#[test]
fn shrinkh_output_width_with_ceil_matches_libvips() {
    let floor = ShrinkH::<U8>::new_with_ceil(3, false).unwrap();
    let ceil = ShrinkH::<U8>::new_with_ceil(3, true).unwrap();
    assert_eq!(floor.output_width(10), 3);
    assert_eq!(ceil.output_width(10), 4);
}

#[test]
fn shrinkh_output_height_unchanged() {
    let op = ShrinkH::<U8>::new(4).unwrap();
    assert_eq!(op.output_height(200), 200);
}

#[test]
fn shrinkh_required_input_region() {
    let op = ShrinkH::<U8>::new(2).unwrap();
    let out_region = Region::new(0, 0, 10, 1);
    let in_region = op.required_input_region(&out_region);
    assert_eq!(in_region.x, 0);
    assert_eq!(in_region.width, 20);
    assert_eq!(in_region.height, 1);
}

#[test]
fn shrinkh_required_input_region_uses_full_row_borrow_when_source_width_is_wider() {
    let op = ShrinkH::<U8>::new(19).unwrap().with_source_width(8192);
    let out_region = Region::new(0, 32, 431, 16);
    assert_eq!(op.required_input_region(&out_region), Region::new(0, 32, 8192, 16));
}

#[test]
fn shrinkh_required_input_region_falls_back_when_source_width_cannot_cover_request() {
    let op = ShrinkH::<U8>::new_with_ceil(3, true).unwrap().with_source_width(10);
    let out_region = Region::new(0, 0, 4, 1);
    assert_eq!(op.required_input_region(&out_region), Region::new(0, 0, 12, 1));
}

#[test]
fn shrinkh_required_input_region_saturates_huge_factor() {
    let op = ShrinkH::<U8>::new(u32::MAX).unwrap();
    assert_eq!(
        op.required_input_region(&Region::new(1, 0, 2, 1)),
        Region::new(i32::MAX, 0, u32::MAX, 1)
    );
}

#[test]
fn shrinkh_node_spec() {
    let op = ShrinkH::<U8>::new(3).unwrap();
    let spec = op.node_spec(9, 4);
    assert_eq!(spec.input_tile_w, 27);
    assert_eq!(spec.output_tile_w, 9);
    assert_eq!(spec.input_tile_h, 4);
    assert_eq!(spec.output_tile_h, 4);
}

#[test]
fn shrinkh_uniform_image_shrink2_shrink2_equals_shrink4() {
    let uniform = vec![128u8; 16];
    let direct = run_shrinkh(4, false, &uniform, 16, 1, 1);
    let step1 = run_shrinkh(2, false, &uniform, 16, 1, 1);
    let step2 = run_shrinkh(2, false, &step1, 8, 1, 1);
    assert_eq!(direct, step2, "shrink(4) must equal shrink(2) applied twice for a uniform image");
}

#[test]
fn shrinkh_bridge_exposes_dyn_operation_contract() {
    let bridge = ShrinkHBridge::<U8>::new(2, 1).unwrap();
    assert_eq!(bridge.input_format(), BandFormatId::U8);
    assert_eq!(bridge.output_format(), BandFormatId::U8);
    assert_eq!(bridge.bands(), 1);
    assert_eq!(bridge.demand_hint(), DemandHint::ThinStrip);
    assert_eq!(bridge.output_width(4), 2);
    assert_eq!(bridge.output_height(1), 1);
    assert_eq!(bridge.node_spec(2, 1), ShrinkH::<U8>::new(2).unwrap().node_spec(2, 1));

    let image = [0u8, 10, 20, 30];
    let out_region = Region::new(0, 0, 2, 1);
    let input_region = bridge.required_input_region(&out_region);
    assert_eq!(input_region, Region::new(0, 0, 4, 1));
    let input_bytes = image[..input_region.pixel_count()].to_vec();
    let mut output_bytes = vec![0u8; out_region.pixel_count()];
    bridge.dyn_process_region(&input_bytes, &mut output_bytes, input_region, out_region);
    assert_eq!(output_bytes, vec![5, 25]);
}

#[test]
fn shrinkh_bridge_with_ceil_exposes_dimension_round_up() {
    let bridge = ShrinkHBridge::<U8>::new_with_ceil(3, true, 1).unwrap();
    assert_eq!(bridge.output_width(10), 4);
}

#[test]
fn shrinkh_new_rejects_zero_factor() {
    let result = ShrinkH::<U8>::new(0);
    assert!(matches!(
        result,
        Err(BuildError::SourceHint { context: "shrink_h", message }) if message == "factor must be >= 1"
    ));
}

#[test]
fn shrinkh_bridge_new_rejects_zero_factor() {
    let result = ShrinkHBridge::<U8>::new(0, 1);
    assert!(matches!(
        result,
        Err(BuildError::SourceHint { context: "shrink_h", message }) if message == "factor must be >= 1"
    ));
}

#[test]
fn factor5_scalar_handles_odd_single_band_tail() {
    let input = vec![10u8, 20, 30, 40, 50, 60, 70, 80, 90, 100, 110, 120, 130, 140, 150];
    let mut output = vec![0u8; 3];
    shrink_h_u8_factor5_scalar(&input, 1, 15, 3, 1, &mut output);
    assert_eq!(output, vec![30, 80, 130]);
}

#[test]
fn factor5_scalar_handles_rgb_and_rgba_tails() {
    let rgb_input = vec![
        10u8, 20, 30, 20, 30, 40, 30, 40, 50, 40, 50, 60, 50, 60, 70, 100, 110, 120, 110, 120, 130,
        120, 130, 140, 130, 140, 150, 140, 150, 160, 200, 210, 220, 210, 220, 230, 220, 230, 240,
        230, 240, 250, 240, 250, 255,
    ];
    let mut rgb_output = vec![0u8; 9];
    shrink_h_u8_factor5_scalar(&rgb_input, 3, 15, 3, 1, &mut rgb_output);
    assert_eq!(rgb_output, vec![30, 40, 50, 120, 130, 140, 220, 230, 239]);

    let rgba_input: Vec<u8> = (1u8..=40).collect();
    let mut rgba_output = vec![0u8; 8];
    shrink_h_u8_factor5_scalar(&rgba_input, 4, 10, 2, 1, &mut rgba_output);
    assert_eq!(rgba_output, vec![9, 10, 11, 12, 29, 30, 31, 32]);
}

#[test]
fn factor5_scalar_handles_odd_rgba_tail() {
    let input: Vec<u8> = (1u8..=60).collect();
    let mut output = vec![0u8; 12];
    shrink_h_u8_factor5_scalar(&input, 4, 15, 3, 1, &mut output);
    assert_eq!(output, vec![9, 10, 11, 12, 29, 30, 31, 32, 49, 50, 51, 52]);
}

#[test]
fn shrinkh_dispatches_factor5_single_band_to_specialized_scalar_path() {
    let input = vec![10u8, 20, 30, 40, 50, 60, 70, 80, 90, 100, 110, 120, 130, 140, 150];
    let mut actual = vec![0u8; 3];
    let mut expected = vec![0u8; 3];

    shrink_h_u8(5, &input, 1, 15, 3, 1, &mut actual);
    shrink_h_u8_scalar(5, &input, 1, 15, 3, 1, &mut expected);

    assert_eq!(actual, expected);
}

#[test]
fn sequential_rgb_helpers_match_scalar_reference() {
    let factor = 19usize;
    let out_w = 3usize;
    let out_h = 2usize;

    let rgb_input: Vec<u8> =
        (0..out_w * out_h * factor * 3).map(|idx| ((idx * 17 + 5) % 251) as u8).collect();
    let mut rgb_expected = vec![0u8; out_w * out_h * 3];
    let mut rgb_actual = vec![0u8; out_w * out_h * 3];
    shrink_h_u8_scalar(factor, &rgb_input, 3, out_w * factor, out_w, out_h, &mut rgb_expected);
    shrink_h_u8_sequential_3(factor, &rgb_input, out_w * factor, out_w, out_h, &mut rgb_actual);
    assert_eq!(rgb_actual, rgb_expected);

    let rgba_input: Vec<u8> =
        (0..out_w * out_h * factor * 4).map(|idx| ((idx * 29 + 3) % 251) as u8).collect();
    let mut rgba_expected = vec![0u8; out_w * out_h * 4];
    let mut rgba_actual = vec![0u8; out_w * out_h * 4];
    shrink_h_u8_scalar(factor, &rgba_input, 4, out_w * factor, out_w, out_h, &mut rgba_expected);
    shrink_h_u8_sequential_4(factor, &rgba_input, out_w * factor, out_w, out_h, &mut rgba_actual);
    assert_eq!(rgba_actual, rgba_expected);
}

#[test]
fn generic_dispatch_covers_non_specialized_band_counts() {
    let input = vec![10u8, 100, 20, 110, 30, 120, 40, 130, 50, 140, 60, 150];
    let mut output = vec![0u8; 4];
    shrink_h_u8(3, &input, 2, 6, 2, 1, &mut output);
    assert_eq!(output, vec![20, 110, 50, 140]);
}

#[test]
fn shrinkh_neon_generic_handles_zero_width_without_touching_buffers() {
    let input = Vec::<u8>::new();
    let mut output = Vec::<u8>::new();
    shrink_h_u8(19, &input, 3, 0, 0, 1, &mut output);
    assert!(output.is_empty());
}

#[test]
fn shrinkh_process_region_honors_borrowed_full_row_stride() {
    let op = ShrinkH::<U8>::new(2).unwrap().with_source_width(6);
    let input_region = Region::new(0, 0, 6, 1);
    let output_region = Region::new(0, 0, 2, 1);
    let mut output_data = [0u8; 2];
    op.process_region(&input_region, 1, &[10, 20, 30, 40, 250, 251], &output_region, &mut output_data);
    assert_eq!(output_data, [15, 35]);
}

#[test]
fn with_ceil_builder_and_required_input_region_cover_non_zero_output_origin() {
    let op = ShrinkH::<U8>::new(2).unwrap().with_ceil(true);
    assert_eq!(op.output_width(5), 3);
    assert_eq!(op.required_input_region(&Region::new(3, 4, 2, 1)), Region::new(6, 4, 4, 1));
}

// ── further cases ───────────────────────────────────────────────────────────

#[test]
fn shrinkh_factor1_keeps_multiband_tiles() {
    let pixels: Vec<u8> = (0u8..24).collect();
    assert_eq!(run_shrinkh(1, false, &pixels, 4, 2, 3), pixels);
}

#[test]
fn shrinkh_uniform_tile_keeps_its_value_for_many_factors() {
    for factor in [2u32, 3, 4, 5, 7, 19, 255, 1000] {
        for value in [0u8, 1, 128, 254, 255] {
            for bands in [1u32, 2, 3, 4] {
                let width = factor * 2;
                let input = vec![value; (width * 2 * bands) as usize];
                let output = run_shrinkh(factor, false, &input, width, 2, bands);
                assert_eq!(output.len(), (2 * 2 * bands) as usize);
                assert!(output.iter().all(|&s| s == value), "factor={factor} value={value}");
            }
        }
    }
}

#[test]
fn shrinkh_ceil_width_is_floor_or_one_more() {
    for factor in [1u32, 2, 3, 7, 32] {
        for width in [0u32, 1, 5, 31, 1024] {
            let floor = ShrinkH::<U8>::new_with_ceil(factor, false).unwrap().output_width(width);
            let ceil = ShrinkH::<U8>::new_with_ceil(factor, true).unwrap().output_width(width);
            assert!(floor <= ceil && ceil <= floor + 1);
            assert_eq!(ceil == floor, width % factor == 0);
        }
    }
}

#[test]
fn shrinkh_fixed_point_mean_rounds_below_the_exact_mean() {
    // The generic kernel's reciprocal is truncated: a window whose rounded mean
    // is exactly 1 comes out as 0, while the exact factor-5 kernel gives 1.
    let window = [3u8, 0, 0, 0, 0];
    let mut exact = vec![0u8; 1];
    shrink_h_u8(5, &window, 1, 5, 1, 1, &mut exact);
    assert_eq!(exact, vec![1]);
    let mut generic = vec![0u8; 1];
    shrink_h_u8_scalar(5, &window, 1, 5, 1, 1, &mut generic);
    assert_eq!(generic, vec![0]);
}

#[test]
fn shrinkh_factor5_on_two_bands_uses_the_fixed_point_mean() {
    let input = [3u8, 3, 0, 0, 0, 0, 0, 0, 0, 0];
    let mut output = vec![0u8; 2];
    shrink_h_u8(5, &input, 2, 5, 1, 1, &mut output);
    assert_eq!(output, vec![0, 0]);
}

#[test]
fn shrinkh_node_spec_borrows_whole_source_rows() {
    let op = ShrinkH::<U8>::new(2).unwrap().with_source_width(100);
    assert_eq!(op.node_spec(8, 4).input_tile_w, 100);
    let wide = ShrinkH::<U8>::new(2).unwrap().with_source_width(10);
    assert_eq!(wide.node_spec(8, 4).input_tile_w, 16);
    let huge = ShrinkH::<U8>::new(u32::MAX).unwrap();
    assert_eq!(huge.node_spec(2, 1).input_tile_w, u32::MAX);
}

#[test]
fn shrinkh_bridge_with_source_width_borrows_rows() {
    let bridge = ShrinkHBridge::<U8>::new_with_ceil_and_source_width(19, false, 3, Some(8192)).unwrap();
    assert_eq!(
        bridge.required_input_region(&Region::new(0, 32, 431, 16)),
        Region::new(0, 32, 8192, 16)
    );
    assert_eq!(bridge.required_input_region_slot(&Region::new(1, 0, 2, 1), 0), Region::new(19, 0, 38, 1));
    assert_eq!(bridge.input_slot_count(), 1);
}

#[test]
fn shrinkh_reports_its_factor() {
    assert_eq!(ShrinkH::<U8>::new(7).unwrap().factor(), 7);
    assert_eq!(ShrinkH::<U8>::new(1).unwrap().demand_hint(), DemandHint::ThinStrip);
}
