use candle_core::Device;
use voice_gender::masks::{
    attention_mask_cells, frame_mask, frame_mask_cells, COUNT_CEILING, COUNT_FLOOR, HALF,
    INFINITY, MASKED, ONE, ZERO,
};

#[test]
fn bits_are_those_of_the_floats() {
    assert_eq!(ZERO, 0.0f32.to_bits());
    assert_eq!(ONE, 1.0f32.to_bits());
    assert_eq!(HALF, 0.5f32.to_bits());
    assert_eq!(INFINITY, f32::INFINITY.to_bits());
    assert_eq!(MASKED, (-1e9f32).to_bits());
    assert_eq!(COUNT_FLOOR, 1e-6f64.to_bits());
    assert_eq!(COUNT_CEILING, (f32::MAX as f64).to_bits());
}

#[test]
fn frames_are_marked_and_padding_is_not() {
    assert_eq!(
        frame_mask_cells(&[2, 0, 3], 3),
        vec![ONE, ONE, ZERO, ZERO, ZERO, ZERO, ONE, ONE, ONE]
    );
    assert_eq!(frame_mask_cells(&[5], 2), vec![ONE, ONE]);
    assert_eq!(frame_mask_cells(&[], 4), Vec::<u32>::new());
    assert_eq!(frame_mask_cells(&[1, 2], 0), Vec::<u32>::new());
}

#[test]
fn padding_is_masked_and_frames_are_not() {
    let marks = frame_mask_cells(&[1, 2], 2);
    assert_eq!(attention_mask_cells(&marks), vec![ZERO, MASKED, ZERO, ZERO]);
}

#[test]
fn marks_are_those_above_a_half() {
    for mark in [0.0, 0.49, 0.5, 0.500001, 1.0, 2.0, f32::INFINITY, f32::NAN, -0.0, -1.0, -2.0] {
        let expected = if mark > 0.5 { 0.0 } else { -1e9f32 };
        assert_eq!(attention_mask_cells(&vec![mark.to_bits()]), vec![expected.to_bits()]);
    }
}

#[test]
fn marks_make_a_tensor() {
    let marks = frame_mask(&[1, 2], 2, &Device::Cpu).unwrap();
    assert_eq!(marks.to_vec2::<f32>().unwrap(), vec![vec![1.0, 0.0], vec![1.0, 1.0]]);
}
