use daidori_manager::constants::{MAX_IMAGE_DIMENSION, MAX_PIXEL_COUNT};
use daidori_manager::image_utils::{validate_dimensions, ValidationError};

#[test]
fn zero_width_is_rejected() {
    assert_eq!(validate_dimensions(0, 100), Err(ValidationError::ZeroDimension));
}

#[test]
fn zero_height_is_rejected() {
    assert_eq!(validate_dimensions(100, 0), Err(ValidationError::ZeroDimension));
}

#[test]
fn oversized_side_is_rejected() {
    assert_eq!(
        validate_dimensions(70000, 10),
        Err(ValidationError::DimensionTooLarge { width: 70000, height: 10 })
    );
    assert_eq!(
        validate_dimensions(10, 65536),
        Err(ValidationError::DimensionTooLarge { width: 10, height: 65536 })
    );
}

#[test]
fn too_many_pixels_are_rejected() {
    assert_eq!(
        validate_dimensions(20000, 20000),
        Err(ValidationError::TooManyPixels { pixel_count: 400_000_000 })
    );
}

#[test]
fn ordinary_size_is_accepted() {
    assert_eq!(validate_dimensions(1920, 1080), Ok(()));
}

#[test]
fn limits_themselves_are_accepted() {
    assert_eq!(MAX_IMAGE_DIMENSION, 65535);
    assert_eq!(MAX_PIXEL_COUNT, 100_000_000);
    assert_eq!(validate_dimensions(65535, 1), Ok(()));
    assert_eq!(validate_dimensions(1, 65535), Ok(()));
    assert_eq!(validate_dimensions(10000, 10000), Ok(()));
    assert_eq!(
        validate_dimensions(10001, 10000),
        Err(ValidationError::TooManyPixels { pixel_count: 100_010_000 })
    );
    assert_eq!(validate_dimensions(1, 1), Ok(()));
}

#[test]
fn zero_is_reported_before_size() {
    assert_eq!(validate_dimensions(0, 70000), Err(ValidationError::ZeroDimension));
    assert_eq!(validate_dimensions(70000, 0), Err(ValidationError::ZeroDimension));
}

#[test]
fn validation_messages_are_worded_for_the_user() {
    assert_eq!(ValidationError::ZeroDimension.message(), "無効な画像サイズ: 幅または高さが0");
    assert_eq!(
        ValidationError::DimensionTooLarge { width: 70000, height: 10 }.message(),
        "画像サイズが大きすぎます: 70000x10 (最大: 65535)"
    );
    assert_eq!(
        ValidationError::TooManyPixels { pixel_count: 400_000_000 }.message(),
        "ピクセル数が多すぎます: 400000000 (最大: 100000000)"
    );
}
