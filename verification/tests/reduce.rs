use viprs::resample::reduce::{
    clamp_axis, reduce_h_u8_planned, reduce_h_u8_scalar_planned, reduce_v_u8,
    reduce_v_u8_scalar_planned, round_fixed_u8,
};
use viprs::Region;

fn reduce_h(
    coeffs: &Vec<Vec<i16>>,
    input_region: Region,
    input: &[u8],
    bands: u32,
    output_region: Region,
    starts: &[i64],
    phases: &[u8],
) -> Vec<u8> {
    let mut output = vec![0u8; output_region.pixel_count() * bands as usize];
    reduce_h_u8_planned(coeffs, &input_region, input, bands, &output_region, &mut output, starts, phases);
    let mut scalar = vec![0u8; output.len()];
    reduce_h_u8_scalar_planned(coeffs, &input_region, input, bands, &output_region, &mut scalar, starts, phases);
    assert_eq!(output, scalar);
    output
}

fn reduce_v(
    coeffs: &Vec<Vec<i16>>,
    input_region: Region,
    input: &[u8],
    bands: u32,
    output_region: Region,
    starts: &[i64],
    phases: &[u8],
) -> Vec<u8> {
    let mut output = vec![0u8; output_region.pixel_count() * bands as usize];
    reduce_v_u8(coeffs, &input_region, input, bands, &output_region, starts, phases, &mut output);
    let mut scalar = vec![0u8; output.len()];
    reduce_v_u8_scalar_planned(coeffs, &input_region, input, bands, &output_region, starts, phases, &mut scalar);
    assert_eq!(output, scalar);
    output
}

#[test]
fn clamp_axis_clamps_to_the_tile() {
    assert_eq!(clamp_axis(-5, 0, 3), 0);
    assert_eq!(clamp_axis(7, 2, 3), 2);
    assert_eq!(clamp_axis(3, 2, 3), 1);
    assert_eq!(clamp_axis(12, 10, 4), 2);
}

#[test]
fn round_fixed_u8_rounds_half_up_and_saturates() {
    assert_eq!(round_fixed_u8(2047), 0);
    assert_eq!(round_fixed_u8(2048), 1);
    assert_eq!(round_fixed_u8(4096 * 7), 7);
    assert_eq!(round_fixed_u8(-1_000_000), 0);
    assert_eq!(round_fixed_u8(1_000_000_000), 255);
}

#[test]
fn reduce_h_two_tap_box_averages_pairs() {
    let coeffs = vec![vec![2048i16, 2048]];
    let out = reduce_h(&coeffs, Region::new(0, 0, 4, 1), &[10, 20, 30, 40], 1, Region::new(0, 0, 2, 1), &[0, 2], &[0, 0]);
    assert_eq!(out, vec![15, 35]);
}

#[test]
fn reduce_h_clamps_taps_outside_the_tile() {
    let coeffs = vec![vec![1024i16, 1024, 1024, 1024]];
    let out = reduce_h(&coeffs, Region::new(0, 0, 4, 1), &[10, 20, 30, 40], 1, Region::new(0, 0, 2, 1), &[-2, 2], &[0, 0]);
    assert_eq!(out, vec![13, 38]);
}

#[test]
fn reduce_h_positions_are_absolute() {
    let coeffs = vec![vec![4096i16]];
    let out = reduce_h(&coeffs, Region::new(10, 0, 4, 1), &[10, 20, 30, 40], 1, Region::new(5, 0, 2, 1), &[10, 12], &[0, 0]);
    assert_eq!(out, vec![10, 30]);
}

#[test]
fn reduce_h_saturates_both_ways() {
    let coeffs = vec![vec![8192i16], vec![-4096i16]];
    let out = reduce_h(&coeffs, Region::new(0, 0, 2, 1), &[200, 100], 1, Region::new(0, 0, 2, 1), &[0, 1], &[0, 1]);
    assert_eq!(out, vec![255, 0]);
}

#[test]
fn reduce_h_keeps_bands_apart() {
    let coeffs = vec![vec![2048i16, 2048]];
    let out = reduce_h(&coeffs, Region::new(0, 0, 2, 2), &[1, 100, 3, 200, 5, 50, 7, 70], 2, Region::new(0, 0, 1, 2), &[0], &[0]);
    assert_eq!(out, vec![2, 150, 6, 60]);
}

#[test]
fn reduce_h_single_unit_tap_copies_columns() {
    let coeffs = vec![vec![4096i16]];
    let input: Vec<u8> = (0u8..12).collect();
    let out = reduce_h(&coeffs, Region::new(0, 0, 4, 3), &input, 1, Region::new(0, 0, 4, 3), &[0, 1, 2, 3], &[0, 0, 0, 0]);
    assert_eq!(out, input);
}

#[test]
fn reduce_h_normalized_tables_keep_a_uniform_tile() {
    let coeffs = vec![vec![-256i16, 2304, 2304, -256], vec![4096i16]];
    let input = vec![77u8; 8 * 2];
    let out = reduce_h(&coeffs, Region::new(0, 0, 8, 2), &input, 1, Region::new(0, 0, 3, 2), &[-1, 1, 7], &[0, 0, 1]);
    assert!(out.iter().all(|&s| s == 77));
}

#[test]
fn reduce_v_two_tap_box_averages_rows() {
    let coeffs = vec![vec![2048i16, 2048]];
    let out = reduce_v(&coeffs, Region::new(0, 0, 2, 3), &[10, 20, 30, 40, 50, 60], 1, Region::new(0, 0, 2, 2), &[0, 1], &[0, 0]);
    assert_eq!(out, vec![20, 30, 40, 50]);
}

#[test]
fn reduce_v_clamps_rows_below_the_tile() {
    let coeffs = vec![vec![2048i16, 2048]];
    let out = reduce_v(&coeffs, Region::new(0, 0, 2, 3), &[10, 20, 30, 40, 50, 60], 1, Region::new(0, 0, 2, 1), &[2], &[0]);
    assert_eq!(out, vec![50, 60]);
}

#[test]
fn reduce_v_rows_are_absolute_and_clamp_above() {
    let coeffs = vec![vec![4096i16]];
    let out = reduce_v(&coeffs, Region::new(0, 4, 2, 3), &[10, 20, 30, 40, 50, 60], 1, Region::new(0, 0, 2, 2), &[3, 5], &[0, 0]);
    assert_eq!(out, vec![10, 20, 30, 40]);
}

#[test]
fn reduce_v_normalized_tables_keep_a_uniform_tile() {
    let coeffs = vec![vec![-256i16, 2304, 2304, -256]];
    let input = vec![200u8; 3 * 5 * 2];
    let out = reduce_v(&coeffs, Region::new(0, 0, 3, 5), &input, 2, Region::new(0, 0, 3, 2), &[-1, 3], &[0, 0]);
    assert!(out.iter().all(|&s| s == 200));
}
