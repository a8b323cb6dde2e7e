use image_roll::{crop_area, CropArea, ImageOperation, ImageSize, Rotation};

fn size(width: u32, height: u32) -> ImageSize {
    ImageSize { width, height }
}

#[test]
fn test_apply_rotate_image_operation_on_pixbuf() {
    let buffer = size(64, 48);
    assert_eq!(
        buffer.apply_operation(&ImageOperation::Rotate(Rotation::Clockwise)),
        Some(size(48, 64))
    );
    assert_eq!(
        buffer.apply_operation(&ImageOperation::Rotate(Rotation::Counterclockwise)),
        Some(size(48, 64))
    );
}

#[test]
fn test_apply_crop_image_operation_on_pixbuf() {
    let buffer = size(64, 48);
    assert_eq!(
        crop_area(((10, 10), (20, 20))),
        CropArea { x: 10, y: 10, width: 10, height: 10 }
    );
    assert_eq!(
        buffer.apply_operation(&ImageOperation::Crop(((10, 10), (20, 20)))),
        Some(size(10, 10))
    );
}

#[test]
fn test_apply_resize_image_operation_on_pixbuf() {
    let buffer = size(64, 48);
    assert_eq!(
        buffer.apply_operation(&ImageOperation::Resize((10, 10))),
        Some(size(10, 10))
    );
}

#[test]
fn crop_gives_the_same_result_for_either_corner_order() {
    let buffer = size(100, 100);
    let forward = buffer.apply_operation(&ImageOperation::Crop(((20, 20), (40, 40))));
    let backward = buffer.apply_operation(&ImageOperation::Crop(((40, 40), (20, 20))));
    assert_eq!(forward, backward);
    assert_eq!(forward, Some(size(20, 20)));
    assert_eq!(crop_area(((40, 40), (20, 20))), crop_area(((20, 20), (40, 40))));
    assert_eq!(
        crop_area(((40, 10), (20, 30))),
        CropArea { x: 20, y: 10, width: 20, height: 20 }
    );
    assert_eq!(
        buffer.apply_operation(&ImageOperation::Crop(((70, 5), (10, 95)))),
        Some(size(60, 90))
    );
}

#[test]
fn degenerate_or_outside_crops_do_not_apply() {
    let buffer = size(100, 100);
    assert_eq!(buffer.apply_operation(&ImageOperation::Crop(((20, 20), (20, 40)))), None);
    assert_eq!(buffer.apply_operation(&ImageOperation::Crop(((20, 20), (40, 20)))), None);
    assert_eq!(buffer.apply_operation(&ImageOperation::Crop(((50, 50), (101, 60)))), None);
    assert_eq!(buffer.apply_operation(&ImageOperation::Crop(((50, 50), (60, 101)))), None);
    assert_eq!(
        buffer.apply_operation(&ImageOperation::Crop(((0, 0), (100, 100)))),
        Some(size(100, 100))
    );
}

#[test]
fn resize_to_no_pixel_does_not_apply() {
    let buffer = size(100, 100);
    assert_eq!(buffer.apply_operation(&ImageOperation::Resize((0, 10))), None);
    assert_eq!(buffer.apply_operation(&ImageOperation::Resize((10, 0))), None);
    assert_eq!(buffer.apply_operation(&ImageOperation::Resize((u32::MAX, 10))), None);
}
