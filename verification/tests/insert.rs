use viprs::structural::insert::{intersect_and_translate, Insert};
use viprs::{BandFormatId, DemandHint, DynOperation, NodeSpec, Region};

fn run_insert(op: &Insert, main: &[u8], sub: &[u8], output_region: Region) -> Vec<u8> {
    let inputs: &[&[u8]] = &[main, sub];
    let input_regions = [
        op.required_input_region_slot(&output_region, 0),
        op.required_input_region_slot(&output_region, 1),
    ];
    let mut output = vec![0u8; output_region.pixel_count() * op.bands() as usize];
    op.dyn_process_region_multi(inputs, &mut output, &input_regions, output_region);
    output
}

#[test]
fn insert_overwrites_main_at_offset() {
    let op = Insert::new(3, 2, 2, 1, 1, 1, false, 1, BandFormatId::U8);
    let main = [1u8, 2, 3, 4, 5, 6];
    let sub = [9u8, 8];
    let output = run_insert(&op, &main, &sub, Region::new(0, 0, 3, 2));
    assert_eq!(output, vec![1u8, 2, 3, 4, 9, 8]);
}

#[test]
fn expand_true_grows_canvas_and_zero_fills_background() {
    let op = Insert::new(2, 1, 1, 1, 3, 0, true, 1, BandFormatId::U8);
    let output = run_insert(&op, &[1u8, 2], &[9u8], Region::new(0, 0, 4, 1));
    assert_eq!(output, vec![1u8, 2, 0, 9]);
}

#[test]
fn required_input_region_slot_clips_subimage_overlap() {
    let op = Insert::new(4, 4, 3, 3, 2, 1, false, 1, BandFormatId::U8);
    let output = Region::new(3, 2, 1, 2);
    assert_eq!(op.required_input_region_slot(&output, 0), Region::new(3, 2, 1, 2));
    assert_eq!(op.required_input_region_slot(&output, 1), Region::new(1, 1, 1, 2));
}

#[test]
fn insert_at_origin_overlays_top_left_pixels() {
    let op = Insert::new(3, 2, 2, 2, 0, 0, false, 1, BandFormatId::U8);
    let main = [1u8, 2, 3, 4, 5, 6];
    let sub = [9u8, 8, 7, 6];
    let output = run_insert(&op, &main, &sub, Region::new(0, 0, 3, 2));
    assert_eq!(output, vec![9u8, 8, 3, 7, 6, 6]);
}

#[test]
fn insert_out_of_bounds_is_a_no_op_without_expand() {
    let op = Insert::new(3, 2, 2, 2, 4, 3, false, 1, BandFormatId::U8);
    let main = [1u8, 2, 3, 4, 5, 6];
    let sub = [9u8, 8, 7, 6];
    assert_eq!(
        op.required_input_region_slot(&Region::new(0, 0, 3, 2), 1),
        Region::new(0, 0, 0, 0)
    );
    let output = run_insert(&op, &main, &sub, Region::new(0, 0, 3, 2));
    assert_eq!(output, main);
}

#[test]
fn expand_with_negative_offsets_keeps_main_extent() {
    let op = Insert::new(3, 2, 2, 2, -2, -1, true, 1, BandFormatId::U8);
    assert_eq!(op.output_width(), 3);
    assert_eq!(op.output_height(), 2);
}

#[test]
fn insert_dyn_metadata_matches_layout_configuration() {
    let op = Insert::new(3, 2, 1, 1, 1, 0, false, 2, BandFormatId::U16);
    let output = Region::new(0, 0, 3, 2);

    assert_eq!(op.input_format(), BandFormatId::U16);
    assert_eq!(op.output_format(), BandFormatId::U16);
    assert_eq!(op.bands(), 2);
    assert_eq!(op.demand_hint(), DemandHint::ThinStrip);
    assert_eq!(op.input_slot_count(), 2);
    assert_eq!(op.required_input_region(&output), output);
    assert_eq!(DynOperation::output_width(&op, 3), 3);
    assert_eq!(DynOperation::output_height(&op, 2), 2);
    assert_eq!(op.node_spec(64, 16), NodeSpec::identity(64, 16));
    assert_eq!(op.output_width(), 3);
    assert_eq!(op.output_height(), 2);
}

#[test]
fn insert_supports_multibyte_formats() {
    let op = Insert::new(2, 1, 1, 1, 1, 0, false, 1, BandFormatId::F32);
    let output_region = Region::new(0, 0, 2, 1);
    let main = [1.0f32, 2.0];
    let sub = [9.0f32];
    let inputs: &[&[u8]] = &[bytemuck::cast_slice(&main), bytemuck::cast_slice(&sub)];
    let input_regions = [
        op.required_input_region_slot(&output_region, 0),
        op.required_input_region_slot(&output_region, 1),
    ];
    let mut output = [0.0f32; 2];
    op.dyn_process_region_multi(
        inputs,
        bytemuck::cast_slice_mut(&mut output),
        &input_regions,
        output_region,
    );

    assert_eq!(output, [1.0f32, 9.0]);
}

#[test]
fn intersect_and_translate_clamps_large_right_and_bottom_edges() {
    let region = intersect_and_translate(
        Region::new(i32::MAX - 2, i32::MAX - 2, 10, 10),
        i32::MAX - 2,
        i32::MAX - 2,
        10,
        10,
    );

    assert_eq!(region, Region::new(0, 0, 2, 2));
}

#[test]
fn intersect_and_translate_is_empty_without_overlap() {
    let region = intersect_and_translate(Region::new(0, 0, 2, 2), 5, 5, 3, 3);
    assert_eq!(region, Region::new(0, 0, 0, 0));
}

#[test]
fn insert_expand_grows_height_and_saturates_width() {
    let op = Insert::new(2, 2, u32::MAX, 4, 1, 1, true, 1, BandFormatId::U8);
    assert_eq!(op.output_width(), u32::MAX);
    assert_eq!(op.output_height(), 5);
}

#[test]
fn insert_copies_whole_multiband_pixels_of_the_sub_image() {
    let op = Insert::new(2, 1, 1, 1, 1, 0, false, 3, BandFormatId::U8);
    let main = [1u8, 2, 3, 4, 5, 6];
    let sub = [7u8, 8, 9];
    let output = run_insert(&op, &main, &sub, Region::new(0, 0, 2, 1));
    assert_eq!(output, vec![1u8, 2, 3, 7, 8, 9]);
}

#[test]
fn insert_pastes_sub_image_inside_main_for_a_partial_tile() {
    let op = Insert::new(4, 1, 2, 1, 1, 0, false, 1, BandFormatId::U8);
    let output_region = Region::new(2, 0, 2, 1);
    let main_region = op.required_input_region_slot(&output_region, 0);
    let sub_region = op.required_input_region_slot(&output_region, 1);
    assert_eq!(main_region, Region::new(2, 0, 2, 1));
    assert_eq!(sub_region, Region::new(1, 0, 1, 1));
    let output = run_insert(&op, &[30u8, 40], &[99u8], output_region);
    assert_eq!(output, vec![99u8, 40]);
}

#[test]
fn insert_single_input_entry_copies_what_fits() {
    let op = Insert::new(2, 1, 1, 1, 0, 0, false, 1, BandFormatId::U8);
    let region = Region::new(0, 0, 2, 1);
    let mut short = vec![0u8; 2];
    op.dyn_process_region(&[5u8, 6, 7], &mut short, region, region);
    assert_eq!(short, vec![5u8, 6]);
    let mut long = vec![9u8; 4];
    op.dyn_process_region(&[5u8, 6], &mut long, region, region);
    assert_eq!(long, vec![5u8, 6, 9, 9]);
}

#[test]
fn insert_required_input_region_returns_any_region() {
    let op = Insert::new(3, 2, 1, 1, i32::MIN, i32::MAX, false, 1, BandFormatId::U8);
    let far = Region::new(i32::MAX, i32::MIN, u32::MAX, u32::MAX);
    assert_eq!(op.required_input_region(&far), far);
}
