//! Tests of file formats, output parameters, and the exposure
//! pre-scale of the base curve.

use stretchrs::format::FileFormat;
use stretchrs::format::OutputParams;
use stretchrs::ops::scaled_curve_points;

#[test]
fn extensions_round_trip() {
    assert_eq!(FileFormat::JPEG.to_extension(), "jpg");
    assert_eq!(FileFormat::TIFF.to_extension(), "tif");
    assert_eq!(FileFormat::OpenEXR.to_extension(), "exr");
    assert_eq!(FileFormat::from_extension("jpg"), Some(FileFormat::JPEG));
    assert_eq!(FileFormat::from_extension("jpeg"), Some(FileFormat::JPEG));
    assert_eq!(FileFormat::from_extension("tif"), Some(FileFormat::TIFF));
    assert_eq!(FileFormat::from_extension("tiff"), Some(FileFormat::TIFF));
    assert_eq!(FileFormat::from_extension("exr"), Some(FileFormat::OpenEXR));
    assert_eq!(FileFormat::from_extension("png"), None);
    assert_eq!(FileFormat::from_extension(""), None);
}

#[test]
fn defaults_are_tiff() {
    let format = FileFormat::default();
    assert_eq!(format, FileFormat::TIFF);
    let params = OutputParams::default();
    assert_eq!(params.format, FileFormat::TIFF);
    assert_eq!(params.path, "");
    assert_eq!(params.file_name, "");
}

#[test]
fn exposure_scales_ordinates() {
    let points = vec![(500i64, 600i64)];
    let lifted = scaled_curve_points(&points, 1000);
    assert_eq!(lifted, vec![(500, 1200)]);
    let lowered = scaled_curve_points(&points, -1000);
    assert_eq!(lowered, vec![(500, 300)]);
    let unchanged = scaled_curve_points(&points, 0);
    assert_eq!(unchanged, vec![(500, 600)]);
}

#[test]
fn fractional_exposure_stays_between_stops() {
    let points = vec![(500i64, 600i64)];
    let half = scaled_curve_points(&points, 500);
    let y = half[0].1;
    assert!(y > 600 && y < 1200);
}
