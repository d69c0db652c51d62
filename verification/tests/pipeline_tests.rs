//! Tests of the staged pipeline: output shapes under downscale
//! bounds, rotation, integer crop and fractional crop, on both
//! output depths and both execution paths.

use stretchrs::PipeError;
use stretchrs::ops::CfaPattern;
use stretchrs::ops::Rotation;
use stretchrs::pipeline::GenericRgb;
use stretchrs::pipeline::ImageSource;
use stretchrs::pipeline::Pipeline;
use stretchrs::pipeline::RawSensorData;
use stretchrs::pipeline::Settings;

fn create_pipeline() -> Pipeline {
    let source = ImageSource::Other(GenericRgb {
        width: 128,
        height: 64,
        max_value: 255,
        data: vec![0u16; 128 * 64 * 3],
    });
    Pipeline::new_from_source(source).unwrap()
}

fn assert_width(pipeline: &mut Pipeline, settings: &Settings, width: usize, height: usize) {
    let mut s = *settings;
    s.use_fastpath = true;
    let decoded = pipeline.output_8bit(&s).unwrap();
    assert_eq!(decoded.width, width);
    assert_eq!(decoded.height, height);

    s.use_fastpath = false;
    let decoded = pipeline.output_8bit(&s).unwrap();
    assert_eq!(decoded.width, width);
    assert_eq!(decoded.height, height);

    s.use_fastpath = true;
    let decoded = pipeline.output_16bit(&s).unwrap();
    assert_eq!(decoded.width, width);
    assert_eq!(decoded.height, height);

    s.use_fastpath = false;
    let decoded = pipeline.output_16bit(&s).unwrap();
    assert_eq!(decoded.width, width);
    assert_eq!(decoded.height, height);
}

#[test]
fn default_same_size() {
    let mut pipeline = create_pipeline();
    let settings = Settings::default();
    assert_width(&mut pipeline, &settings, 128, 64);
}

#[test]
fn no_upscaling() {
    let mut pipeline = create_pipeline();
    let mut settings = Settings::default();
    settings.max_width = 256;
    assert_width(&mut pipeline, &settings, 128, 64);
    settings.max_width = 128;
    assert_width(&mut pipeline, &settings, 128, 64);
}

#[test]
fn downscale_keeps_ratio() {
    let mut pipeline = create_pipeline();
    let mut settings = Settings::default();
    settings.max_width = 64;
    assert_width(&mut pipeline, &settings, 64, 32);
}

#[test]
fn rotation() {
    let mut pipeline = create_pipeline();
    let mut settings = Settings::default();
    settings.max_width = 64;
    settings.rotation = Rotation::Rotate90;
    assert_width(&mut pipeline, &settings, 64, 128);

    let mut pipeline = create_pipeline();
    let mut settings = Settings::default();
    settings.max_width = 32;
    settings.rotation = Rotation::Rotate90;
    assert_width(&mut pipeline, &settings, 32, 64);

    let mut pipeline = create_pipeline();
    let mut settings = Settings::default();
    settings.max_width = 256;
    settings.rotation = Rotation::Rotate90;
    assert_width(&mut pipeline, &settings, 64, 128);
}

#[test]
fn crops() {
    let mut pipeline = create_pipeline();
    let mut settings = Settings::default();
    settings.max_width = 64;
    settings.crop_top = 1;
    settings.crop_bottom = 1;
    settings.crop_left = 1;
    settings.crop_right = 1;
    assert_width(&mut pipeline, &settings, 64, 31);
}

#[test]
fn rotatecrop() {
    let mut pipeline = create_pipeline();
    let mut settings = Settings::default();
    settings.max_width = 64;
    settings.rotate_crop_top = 100;
    settings.rotate_crop_bottom = 100;
    settings.rotate_crop_left = 100;
    settings.rotate_crop_right = 100;
    assert_width(&mut pipeline, &settings, 64, 32);
}

#[test]
fn oversized_crop_is_rejected() {
    let mut pipeline = create_pipeline();
    let mut settings = Settings::default();
    settings.crop_left = 200;
    let r = pipeline.output_8bit(&settings);
    assert!(matches!(r, Err(PipeError::DimensionLimitExceeded)));
}

#[test]
fn full_fractional_crop_is_rejected() {
    let mut pipeline = create_pipeline();
    let mut settings = Settings::default();
    settings.rotate_crop_left = 500;
    settings.rotate_crop_right = 500;
    let r = pipeline.output_8bit(&settings);
    assert!(matches!(r, Err(PipeError::DimensionLimitExceeded)));
}

#[test]
fn bad_source_shape_is_rejected() {
    let source = ImageSource::Other(GenericRgb {
        width: 4,
        height: 4,
        max_value: 255,
        data: vec![0u16; 5],
    });
    assert!(matches!(
        Pipeline::new_from_source(source),
        Err(PipeError::DecodeFailure)
    ));
}

#[test]
fn zero_depth_source_is_rejected() {
    let source = ImageSource::Other(GenericRgb {
        width: 4,
        height: 4,
        max_value: 0,
        data: vec![0u16; 48],
    });
    assert!(matches!(
        Pipeline::new_from_source(source),
        Err(PipeError::UnsupportedColorDepth)
    ));
}

#[test]
fn inverted_calibration_is_rejected() {
    let source = ImageSource::Raw(RawSensorData {
        width: 4,
        height: 4,
        data: vec![0u16; 16],
        pattern: CfaPattern::Rggb,
        black_level: 100,
        white_level: 100,
        wb_red: 1000,
        wb_green: 1000,
        wb_blue: 1000,
        orientation: Rotation::Normal,
    });
    assert!(matches!(
        Pipeline::new_from_source(source),
        Err(PipeError::UnsupportedColorDepth)
    ));
}

#[test]
fn quantization_round_trips_full_depth() {
    let source = ImageSource::Other(GenericRgb {
        width: 1,
        height: 1,
        max_value: 255,
        data: vec![255, 0, 128],
    });
    let mut pipeline = Pipeline::new_from_source(source).unwrap();
    let settings = Settings::default();
    let out = pipeline.output_8bit(&settings).unwrap();
    // 128/255 normalizes to 501 thousandths, which rounds back to 128.
    assert_eq!(out.data, vec![255, 0, 128]);
    let out16 = pipeline.output_16bit(&settings).unwrap();
    assert_eq!(out16.data, vec![65535, 0, 32833]);
}

#[test]
fn raw_pipeline_produces_rgb() {
    let mut data = Vec::new();
    for i in 0..16u16 {
        data.push(i * 6);
    }
    let source = ImageSource::Raw(RawSensorData {
        width: 4,
        height: 4,
        data,
        pattern: CfaPattern::Rggb,
        black_level: 0,
        white_level: 96,
        wb_red: 1000,
        wb_green: 1000,
        wb_blue: 1000,
        orientation: Rotation::Normal,
    });
    let mut pipeline = Pipeline::new_from_source(source).unwrap();
    let settings = Settings::default();
    let out = pipeline.output_8bit(&settings).unwrap();
    assert_eq!(out.width, 4);
    assert_eq!(out.height, 4);
    assert_eq!(out.data.len(), 48);

    let mut rot = Settings::default();
    rot.rotation = Rotation::Rotate270;
    let turned = pipeline.output_8bit(&rot).unwrap();
    assert_eq!(turned.width, 4);
    assert_eq!(turned.height, 4);
}

#[test]
fn rotation_moves_pixels_clockwise() {
    // A 2x1 frame [A B]; a quarter turn clockwise puts A on top.
    let source = ImageSource::Other(GenericRgb {
        width: 2,
        height: 1,
        max_value: 255,
        data: vec![100, 0, 0, 200, 0, 0],
    });
    let mut pipeline = Pipeline::new_from_source(source).unwrap();
    let mut settings = Settings::default();
    settings.rotation = Rotation::Rotate90;
    let out = pipeline.output_8bit(&settings).unwrap();
    assert_eq!(out.width, 1);
    assert_eq!(out.height, 2);
    assert_eq!(out.data[0], 100);
    assert_eq!(out.data[3], 200);
}

#[test]
fn integer_crop_keeps_the_right_pixels() {
    let source = ImageSource::Other(GenericRgb {
        width: 2,
        height: 1,
        max_value: 255,
        data: vec![100, 0, 0, 200, 0, 0],
    });
    let mut pipeline = Pipeline::new_from_source(source).unwrap();
    let mut settings = Settings::default();
    settings.crop_left = 1;
    let out = pipeline.output_8bit(&settings).unwrap();
    assert_eq!(out.width, 1);
    assert_eq!(out.height, 1);
    assert_eq!(out.data, vec![200, 0, 0]);
}
