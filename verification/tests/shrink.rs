use viprs::resample::shrink::{shrink_u8_2x2, Shrink, ShrinkBridge};
use viprs::{BandFormatId, BuildError, DemandHint, DynOperation, Region, ViprsError, U8};

/// Copies `region` (which lies inside the image) out of a packed image.
fn read_region(image: &[u8], image_width: u32, bands: u32, region: Region) -> Vec<u8> {
    let bands = bands as usize;
    let mut out = Vec::with_capacity(region.pixel_count() * bands);
    for row in 0..region.height as usize {
        let y = region.y as usize + row;
        let start = (y * image_width as usize + region.x as usize) * bands;
        out.extend_from_slice(&image[start..start + region.width as usize * bands]);
    }
    out
}

fn run_shrink(
    hshrink: usize,
    vshrink: usize,
    input_data: &[u8],
    in_w: u32,
    in_h: u32,
    bands: u32,
) -> (Region, Vec<u8>) {
    let op = Shrink::<U8>::new(hshrink, vshrink).unwrap();
    let out_region = Region::new(0, 0, op.output_width(in_w), op.output_height(in_h));
    let in_region = op.required_input_region(&out_region);
    let prepared_input = read_region(input_data, in_w, bands, in_region);
    let mut output_data = vec![0u8; out_region.pixel_count() * bands as usize];
    let mut state = op.start_with_tile_and_bands(out_region.width, out_region.height, bands);
    op.process_region(&mut state, &in_region, bands, &prepared_input, &out_region, &mut output_data);
    (out_region, output_data)
}

#[test]
fn shrink_sequences_horizontal_then_vertical() {
    let input = vec![1u8, 2, 3, 4, 5, 6, 7, 8, 9, 10, 11, 12, 13, 14, 15, 16];
    let (region, output) = run_shrink(2, 2, &input, 4, 4, 1);
    assert_eq!(region, Region::new(0, 0, 2, 2));
    assert_eq!(output, vec![4u8, 6, 12, 14]);
}

#[test]
fn shrink_factor_one_is_identity() {
    let input: Vec<u8> = (0u8..12).collect();
    let (region, output) = run_shrink(1, 1, &input, 4, 3, 1);
    assert_eq!(region, Region::new(0, 0, 4, 3));
    assert_eq!(output, input);
}

#[test]
fn shrink_output_dimensions_follow_floor_division() {
    let op = Shrink::<U8>::new(2, 3).unwrap();
    assert_eq!(op.output_size(5, 7), (2, 2));
}

#[test]
fn shrink_factor_3_matches_libvips_floor_geometry_for_odd_and_even_inputs() {
    let op = Shrink::<U8>::new(3, 3).unwrap();
    assert_eq!(op.output_size(61, 53), (20, 17));
    assert_eq!(op.output_size(60, 54), (20, 18));
}

#[test]
fn shrink_factor_5_matches_libvips_floor_geometry_for_odd_and_even_inputs() {
    let op = Shrink::<U8>::new(5, 5).unwrap();
    assert_eq!(op.output_size(27, 23), (5, 4));
    assert_eq!(op.output_size(28, 24), (5, 4));
}

#[test]
fn shrink_required_input_region_matches_combined_factors() {
    let op = Shrink::<U8>::new(3, 2).unwrap();
    assert_eq!(op.required_input_region(&Region::new(4, 5, 6, 7)), Region::new(12, 10, 18, 14));
}

#[test]
fn shrink_start_with_tile_and_bands_presizes_scratch_from_node_spec() {
    let op = Shrink::<U8>::new(2, 3).unwrap();
    let tile_w = 8;
    let tile_h = 5;
    let bands = 4;
    let expected = op.scratch_len_for_tile(tile_w, tile_h, bands);
    let state = op.start_with_tile_and_bands(tile_w, tile_h, bands);
    assert_eq!(state.scratch.len(), expected);
}

#[test]
fn shrink_node_spec_saturates_huge_factors() {
    let op = Shrink::<U8>::new(u32::MAX as usize, u32::MAX as usize).unwrap();
    let spec = op.node_spec(3, 2);
    assert_eq!(spec.input_tile_w, u32::MAX);
    assert_eq!(spec.input_tile_h, u32::MAX);
    assert_eq!(spec.output_tile_w, 3);
    assert_eq!(spec.output_tile_h, 2);
}

#[test]
fn shrink_2x2_u8_presizes_no_intermediate_scratch() {
    let state = Shrink::<U8>::new(2, 2).unwrap().start_with_tile_and_bands(8, 5, 3);
    assert!(state.scratch.is_empty());
    assert!(state.vertical_scratch.is_empty());
}

#[test]
fn shrink_2x2_u8_matches_separable_rounding() {
    let input = vec![1u8, 1, 1, 2];
    let (region, output) = run_shrink(2, 2, &input, 2, 2, 1);
    assert_eq!(region, Region::new(0, 0, 1, 1));
    assert_eq!(output, vec![2u8]);
}

#[test]
fn shrink_boundary_tile_drops_incomplete_trailing_rows_and_columns() {
    let input = vec![1u8, 2, 3, 4, 5, 6, 7, 8, 9];
    let (region, output) = run_shrink(2, 2, &input, 3, 3, 1);
    assert_eq!(region, Region::new(0, 0, 1, 1));
    assert_eq!(output, vec![4u8]);
}

#[test]
fn shrink_u8_2x2_covers_specialized_and_generic_band_counts() {
    let mut rgb_output = vec![0u8; 6];
    shrink_u8_2x2(
        &[
            10, 20, 30, 20, 30, 40, 30, 40, 50, 40, 50, 60, 100, 110, 120, 110, 120, 130, 120, 130,
            140, 130, 140, 150,
        ],
        3,
        2,
        1,
        &mut rgb_output,
    );
    assert_eq!(rgb_output, vec![60, 70, 80, 80, 90, 100]);

    let mut rgba_output = vec![0u8; 4];
    shrink_u8_2x2(&[1, 2, 3, 4, 5, 6, 7, 8, 9, 10, 11, 12, 13, 14, 15, 16], 4, 1, 1, &mut rgba_output);
    assert_eq!(rgba_output, vec![7, 8, 9, 10]);

    let mut generic_output = vec![0u8; 2];
    shrink_u8_2x2(&[1, 10, 3, 30, 5, 50, 7, 70], 2, 1, 1, &mut generic_output);
    assert_eq!(generic_output, vec![4, 40]);
}

#[test]
fn shrink_start_fast_path_keeps_scratch_empty() {
    let state = Shrink::<U8>::new(2, 2).unwrap().start();
    assert!(state.scratch.is_empty());
    assert!(state.vertical_scratch.is_empty());
}

#[test]
fn shrink_new_rejects_zero_horizontal_factor() {
    let result = Shrink::<U8>::new(0, 1);
    assert!(matches!(
        result,
        Err(BuildError::SourceHint { context: "shrink", message })
            if message == "hshrink must be in 1..=u32::MAX"
    ));
}

#[test]
fn shrink_validate_region_contract_rejects_overflowing_scratch() {
    let op = Shrink::<U8>::new(1, 1).unwrap();
    let huge = Region::new(0, 0, u32::MAX, u32::MAX);
    let err = op.validate_region_contract(huge, 2, huge, 2).unwrap_err();
    assert!(matches!(
        err,
        ViprsError::ImageTooLarge { width: u32::MAX, height: u32::MAX, bands: 2, .. }
    ));
}

#[test]
fn shrink_new_rejects_zero_vertical_factor() {
    let result = Shrink::<U8>::new(1, 0);
    assert!(matches!(
        result,
        Err(BuildError::SourceHint { context: "shrink", message })
            if message == "vshrink must be in 1..=u32::MAX"
    ));
}

#[test]
fn shrink_new_accepts_u32_max_factor() {
    let shrink = Shrink::<U8>::new(u32::MAX as usize, 1).unwrap();
    assert_eq!(shrink.hshrink(), u32::MAX);
    assert_eq!(shrink.vshrink(), 1);
}

#[test]
fn shrink_new_rejects_factor_above_u32_max() {
    let Some(overflow_factor) = (u32::MAX as usize).checked_add(1) else {
        return;
    };
    let result = Shrink::<U8>::new(overflow_factor, 1);
    assert!(matches!(
        result,
        Err(BuildError::SourceHint { context: "shrink", message })
            if message == "hshrink must be in 1..=u32::MAX"
    ));
}

#[test]
fn shrink_bridge_new_rejects_zero_horizontal_factor() {
    let result = ShrinkBridge::<U8>::new(0, 1, 1);
    assert!(matches!(
        result,
        Err(BuildError::SourceHint { context: "shrink", message })
            if message == "hshrink must be in 1..=u32::MAX"
    ));
}

#[test]
fn shrink_bridge_new_rejects_zero_vertical_factor() {
    let result = ShrinkBridge::<U8>::new(1, 0, 1);
    assert!(matches!(
        result,
        Err(BuildError::SourceHint { context: "shrink", message })
            if message == "vshrink must be in 1..=u32::MAX"
    ));
}

#[test]
fn shrink_bridge_new_accepts_u32_max_factor() {
    let bridge = ShrinkBridge::<U8>::new(u32::MAX as usize, 1, 3).unwrap();
    assert_eq!(bridge.output_width(u32::MAX), 1);
    assert_eq!(bridge.output_height(7), 7);
    assert_eq!(bridge.bands(), 3);
}

#[test]
fn shrink_bridge_new_rejects_factor_above_u32_max() {
    let Some(overflow_factor) = (u32::MAX as usize).checked_add(1) else {
        return;
    };
    let result = ShrinkBridge::<U8>::new(1, overflow_factor, 1);
    assert!(matches!(
        result,
        Err(BuildError::SourceHint { context: "shrink", message })
            if message == "vshrink must be in 1..=u32::MAX"
    ));
}

#[test]
fn shrink_bridge_exposes_dyn_operation_contract() {
    let bridge = ShrinkBridge::<U8>::new(2, 2, 1).unwrap();
    assert_eq!(bridge.input_format(), BandFormatId::U8);
    assert_eq!(bridge.output_format(), BandFormatId::U8);
    assert_eq!(bridge.bands(), 1);
    assert_eq!(bridge.demand_hint(), DemandHint::ThinStrip);
    assert_eq!(bridge.output_width(4), 2);
    assert_eq!(bridge.output_height(4), 2);
    assert_eq!(bridge.node_spec(2, 2), Shrink::<U8>::new(2, 2).unwrap().node_spec(2, 2));

    let image: Vec<u8> = (1u8..=16).collect();
    let out_region = Region::new(0, 0, 2, 2);
    let input_region = bridge.required_input_region(&out_region);
    let input_bytes = read_region(&image, 4, 1, input_region);
    let mut output_bytes = vec![0u8; out_region.pixel_count()];
    let mut state = bridge.dyn_start_with_tile_and_bands(out_region.width, out_region.height, 1);
    bridge.dyn_process_region(&mut state, &input_bytes, &mut output_bytes, input_region, out_region);
    assert_eq!(output_bytes, vec![4u8, 6, 12, 14]);
}

// ── further cases ───────────────────────────────────────────────────────────

#[test]
fn shrink_factor_one_is_identity_for_multiband_images() {
    let input: Vec<u8> = (0u8..60).collect();
    let (_, output) = run_shrink(1, 1, &input, 5, 4, 3);
    assert_eq!(output, input);
}

#[test]
fn shrink_two_pass_matches_direct_2x2_kernel() {
    let image: Vec<u8> = (0..6 * 4 * 3).map(|i| ((i * 37 + 11) % 251) as u8).collect();
    let (_, direct) = run_shrink(2, 2, &image, 6, 4, 3);
    let mut two_pass = vec![0u8; direct.len()];
    let op = Shrink::<U8>::new(2, 1).unwrap();
    let mid_region = Region::new(0, 0, 3, 4);
    let mut state = op.start_with_tile_and_bands(3, 4, 3);
    let mut mid = vec![0u8; 3 * 4 * 3];
    op.process_region(&mut state, &Region::new(0, 0, 6, 4), 3, &image, &mid_region, &mut mid);
    let vertical = Shrink::<U8>::new(1, 2).unwrap();
    let mut vstate = vertical.start_with_tile_and_bands(3, 2, 3);
    vertical.process_region(&mut vstate, &mid_region, 3, &mid, &Region::new(0, 0, 3, 2), &mut two_pass);
    assert_eq!(direct, two_pass);
}

#[test]
fn shrink_general_factors_average_both_directions() {
    // 6×3 image, shrink 3×3 → 2×1: means of 3×3 blocks with libvips rounding.
    let image = [
        10u8, 20, 30, 100, 100, 100, 40, 50, 60, 100, 100, 100, 70, 80, 90, 100, 100, 103,
    ];
    let (region, output) = run_shrink(3, 3, &image, 6, 3, 1);
    assert_eq!(region, Region::new(0, 0, 2, 1));
    assert_eq!(output, vec![50u8, 100]);
}

#[test]
fn shrink_validate_region_contract_accepts_small_regions_and_the_direct_kernel() {
    let op = Shrink::<U8>::new(1, 1).unwrap();
    let small = Region::new(0, 0, 8, 8);
    assert!(op.validate_region_contract(small, 3, small, 3).is_ok());
    let direct = Shrink::<U8>::new(2, 2).unwrap();
    let huge = Region::new(0, 0, u32::MAX, u32::MAX);
    assert!(direct.validate_region_contract(huge, 2, huge, 2).is_ok());
    assert!(direct.uses_direct_u8_2x2());
    assert!(!op.uses_direct_u8_2x2());
}

#[test]
fn shrink_overflowing_scratch_error_reports_sizes() {
    let op = ShrinkBridge::<U8>::new(1, 1, 2).unwrap();
    let huge = Region::new(0, 0, u32::MAX, u32::MAX);
    match op.validate_region_contract(huge, 2, huge, 2) {
        Err(ViprsError::ImageTooLarge { bytes, limit_bytes, details, .. }) => {
            assert_eq!(bytes, u128::from(u32::MAX) * u128::from(u32::MAX) * 2);
            assert_eq!(limit_bytes, usize::MAX as u128);
            assert_eq!(details, "shrink scratch exceeds addressable memory");
        }
        other => panic!("unexpected {other:?}"),
    }
}

#[test]
fn shrink_scratch_len_follows_vertical_factor() {
    let op = Shrink::<U8>::new(4, 3).unwrap();
    assert_eq!(op.scratch_len_for_tile(8, 5, 2), 8 * 15 * 2);
    let state = op.start_with_tile_and_bands(8, 5, 2);
    assert_eq!(state.scratch.len(), 240);
    assert_eq!(state.vertical_scratch.len(), 16);
    assert_eq!(op.demand_hint(), DemandHint::ThinStrip);
}
