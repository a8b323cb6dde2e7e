use image_roll::{FileType, Image, ImageError, ImageOperation, ImageSize, PreviewSize, Rotation};

fn size(width: u32, height: u32) -> ImageSize {
    ImageSize { width, height }
}

fn test_image() -> Image {
    Image::load(size(64, 48))
}

#[test]
fn test_load_image() {
    let image = test_image();
    assert_eq!(image.original_image_size(), Some(size(64, 48)));
    assert_eq!(image.current_image_size(), Some(size(64, 48)));
    assert!(image.operations().is_empty());
}

#[test]
fn save_image() {
    let image = test_image();
    assert_eq!(image.save_file_type("test/save_image/test2.png"), Ok(FileType::Png));
}

#[test]
fn test_save_image_without_clear_operations() {
    let mut image = test_image();
    image = image.apply_operation(&ImageOperation::Rotate(Rotation::Clockwise));
    assert!(image.has_operations());
    assert_eq!(image.save_file_type("test2.png"), Ok(FileType::Png));
    image.finish_save(false);
    assert!(image.has_operations());
    assert_ne!(image.original_image_size(), image.current_image_size());
}

#[test]
fn test_save_image_with_clear_operations() {
    let mut image = test_image();
    image = image.apply_operation(&ImageOperation::Rotate(Rotation::Clockwise));
    assert!(image.has_operations());
    assert_eq!(image.save_file_type("test2.png"), Ok(FileType::Png));
    image.finish_save(true);
    assert!(!image.has_operations());
    assert_eq!(image.original_image_size(), image.current_image_size());
    assert_eq!(image.current_image_size(), Some(size(48, 64)));
    assert!(!image.can_undo_operation());
    assert!(!image.can_redo_operation());
}

#[test]
fn save_image_uses_extensions_for_file_types_supported_by_pixbuf_save() {
    let image = test_image();
    let expected = vec![
        ("png", "png"),
        ("jpg", "jpeg"),
        ("tif", "tiff"),
        ("ico", "ico"),
        ("bmp", "bmp"),
    ];
    for (extension, name) in expected {
        let file_type = image.save_file_type(&format!("{}.{}", "test2", extension)).unwrap();
        assert_eq!(file_type.name(), name);
    }
}

#[test]
fn file_extensions_jpg_and_jpeg_are_supported() {
    let image = test_image();
    assert_eq!(image.save_file_type("test2.jpg"), Ok(FileType::Jpeg));
    assert_eq!(image.save_file_type("test2.jpeg"), Ok(FileType::Jpeg));
    assert_eq!(FileType::Jpeg.option(), Some(("quality", "100")));
    assert_eq!(FileType::Png.option(), Some(("compression", "9")));
    assert_eq!(FileType::Bmp.option(), None);
}

#[test]
fn extension_is_matched_in_any_case() {
    let image = test_image();
    assert_eq!(image.save_file_type("photo.JPG"), Ok(FileType::Jpeg));
    assert_eq!(image.save_file_type("scan.TiF"), Ok(FileType::Tiff));
    assert_eq!(image.save_file_type("icon.ICO"), Ok(FileType::Ico));
}

#[test]
fn unknown_extension_is_written_as_png() {
    let image = test_image();
    assert_eq!(image.save_file_type("picture.webp"), Ok(FileType::Png));
    assert_eq!(image.save_file_type("archive.tar.gz"), Ok(FileType::Png));
}

#[test]
fn missing_extension_is_an_error() {
    let image = test_image();
    assert_eq!(image.save_file_type("picture"), Err(ImageError::MissingFileExtension));
    assert_eq!(image.save_file_type("some.dir/picture"), Err(ImageError::MissingFileExtension));
    assert_eq!(
        ImageError::MissingFileExtension.message(),
        "File path doesn't have file extension"
    );
}

#[test]
fn save_without_buffer_is_an_error() {
    let mut image = test_image();
    image.remove_image_buffers();
    assert_eq!(image.save_file_type("picture.png"), Err(ImageError::MissingImageBuffer));
}

#[test]
fn test_image_reload() {
    let mut image = test_image();
    image = image.apply_operation(&ImageOperation::Rotate(Rotation::Clockwise));
    let original_image_size = image.original_image_size();
    let current_image_size = image.current_image_size();
    image.remove_image_buffers();
    assert!(image.original_image_size().is_none() && image.current_image_size().is_none());

    image = image.reload(size(64, 48));
    assert_eq!(original_image_size, image.original_image_size());
    assert_eq!(current_image_size, image.current_image_size());
    assert_eq!(image.operations().len(), 1);
    assert_eq!(image.current_operation_index(), Some(0));
}

#[test]
fn reload_replays_only_applied_operations() {
    let mut image = test_image();
    image = image.apply_operation(&ImageOperation::Resize((100, 50)));
    image = image.apply_operation(&ImageOperation::Rotate(Rotation::Clockwise));
    image.undo_operation();
    image.remove_image_buffers();
    image = image.reload(size(10, 20));
    assert_eq!(image.original_image_size(), Some(size(10, 20)));
    assert_eq!(image.current_image_size(), Some(size(100, 50)));
    assert_eq!(image.operations().len(), 2);
    assert_eq!(image.current_operation_index(), Some(0));
}

#[test]
fn create_preview_original_size() {
    let mut image = test_image();
    image.create_preview_image_buffer(PreviewSize::OriginalSize);
    assert_eq!(image.image_size(), image.preview_image_buffer_size());
}

#[test]
fn create_preview_scale_to_fit() {
    let mut image = test_image();
    image = image.apply_operation(&ImageOperation::Resize((1000, 500)));
    image.create_preview_image_buffer(PreviewSize::BestFit(500, 500));
    assert_eq!((500, 250), image.preview_image_buffer_size().unwrap());
}

#[test]
fn create_preview_resized() {
    let mut image = test_image();
    image = image.apply_operation(&ImageOperation::Resize((100, 100)));
    image.create_preview_image_buffer(PreviewSize::Resized(90));
    assert_eq!((90, 90), image.preview_image_buffer_size().unwrap());
}

#[test]
fn preview_to_fit_a_tall_viewport_and_an_empty_one() {
    let mut image = test_image();
    image = image.apply_operation(&ImageOperation::Resize((300, 600)));
    image.create_preview_image_buffer(PreviewSize::BestFit(400, 400));
    assert_eq!(image.preview_image_buffer_size(), Some((200, 400)));
    image.create_preview_image_buffer(PreviewSize::BestFit(0, 0));
    assert_eq!(image.preview_image_buffer_size(), None);
    image.create_preview_image_buffer(PreviewSize::Resized(1));
    assert_eq!(image.preview_image_buffer_size(), Some((3, 6)));
}

#[test]
fn preview_coords_to_image_coords() {
    let mut image = test_image();
    image = image.apply_operation(&ImageOperation::Resize((100, 100)));
    image.create_preview_image_buffer(PreviewSize::Resized(200));
    assert_eq!(
        ((10, 10), (20, 20)),
        image.preview_coords_to_image_coords(((20, 20), (40, 40))).unwrap()
    );
}

#[test]
fn preview_coords_scale_each_axis_on_its_own() {
    let mut image = test_image();
    image = image.apply_operation(&ImageOperation::Resize((100, 300)));
    image.create_preview_image_buffer(PreviewSize::BestFit(50, 50));
    assert_eq!(image.preview_image_buffer_size(), Some((16, 50)));
    assert_eq!(
        image.preview_coords_to_image_coords(((8, 10), (16, 50))),
        Some(((50, 60), (100, 300)))
    );
}

#[test]
fn preview_coords_need_both_buffers() {
    let image = test_image();
    assert_eq!(image.preview_coords_to_image_coords(((1, 1), (2, 2))), None);
}

#[test]
fn print_buffer_is_only_scaled_down() {
    let image = test_image();
    assert_eq!(image.create_print_image_buffer(100, 100), Some(size(64, 48)));
    assert_eq!(image.create_print_image_buffer(32, 100), Some(size(32, 24)));
    assert_eq!(image.create_print_image_buffer(64, 48), Some(size(64, 48)));
}

#[test]
fn undo_operation() {
    let mut image = test_image();
    image = image.apply_operation(&ImageOperation::Resize((100, 100)));
    image = image.apply_operation(&ImageOperation::Rotate(Rotation::Clockwise));

    assert!(image.can_undo_operation());
    image.undo_operation();
    assert!(
        image.can_redo_operation()
            && image.current_operation_index() == Some(0)
            && image.operations().len() == 2
    );
    image.undo_operation();
    assert!(
        image.can_redo_operation()
            && image.current_operation_index() == None
            && image.operations().len() == 2
    );
}

#[test]
fn redo_operation() {
    let mut image = test_image();
    image = image.apply_operation(&ImageOperation::Resize((100, 100)));
    image = image.apply_operation(&ImageOperation::Rotate(Rotation::Clockwise));

    assert!(!image.can_redo_operation());
    image.undo_operation();
    assert!(
        image.can_redo_operation()
            && image.current_operation_index() == Some(0)
            && image.operations().len() == 2
    );
    image.redo_operation();
    assert!(
        !image.can_redo_operation()
            && image.current_operation_index() == Some(1)
            && image.operations().len() == 2
    );
}

#[test]
fn apply_operation() {
    let mut image = test_image();

    assert!(image.operations().is_empty() && image.current_operation_index().is_none());
    image = image.apply_operation(&ImageOperation::Resize((100, 100)));
    assert!(image.operations().len() == 1 && image.current_operation_index() == Some(0));
    assert!(image.original_image_size() != image.current_image_size());
}

#[test]
fn failed_operation_leaves_no_trace() {
    let mut image = test_image();
    image = image.apply_operation(&ImageOperation::Crop(((10, 10), (10, 20))));
    assert!(image.operations().is_empty());
    assert_eq!(image.current_image_size(), Some(size(64, 48)));
    image = image.apply_operation(&ImageOperation::Resize((0, 0)));
    assert!(!image.has_operations());
}

#[test]
fn undo_all_then_redo_all_restores_the_edits() {
    let mut image = test_image();
    image = image.apply_operation(&ImageOperation::Resize((100, 80)));
    image = image.apply_operation(&ImageOperation::Crop(((10, 10), (50, 30))));
    image = image.apply_operation(&ImageOperation::Rotate(Rotation::Counterclockwise));
    let edited = image.current_image_size();
    assert_eq!(edited, Some(size(20, 40)));
    for _ in 0..3 {
        image.undo_operation();
    }
    assert_eq!(image.current_operation_index(), None);
    assert_eq!(image.current_image_size(), image.original_image_size());
    assert!(!image.can_undo_operation());
    for _ in 0..3 {
        image.redo_operation();
    }
    assert_eq!(image.current_operation_index(), Some(2));
    assert_eq!(image.current_image_size(), edited);
    assert!(!image.can_redo_operation());
}

#[test]
fn new_edit_after_undo_drops_the_undone_edits() {
    let mut image = test_image();
    image = image.apply_operation(&ImageOperation::Resize((100, 80)));
    image = image.apply_operation(&ImageOperation::Rotate(Rotation::Clockwise));
    image = image.apply_operation(&ImageOperation::Resize((30, 30)));
    image.undo_operation();
    image.undo_operation();
    assert_eq!(image.current_operation_index(), Some(0));
    image = image.apply_operation(&ImageOperation::Crop(((0, 0), (50, 50))));
    assert_eq!(image.operations().len(), 2);
    assert_eq!(image.current_operation_index(), Some(1));
    assert!(!image.can_redo_operation());
    assert_eq!(image.current_image_size(), Some(size(50, 50)));
}

#[test]
fn new_edit_after_undoing_everything_starts_a_new_history() {
    let mut image = test_image();
    image = image.apply_operation(&ImageOperation::Resize((100, 80)));
    image = image.apply_operation(&ImageOperation::Rotate(Rotation::Clockwise));
    image.undo_operation();
    image.undo_operation();
    image = image.apply_operation(&ImageOperation::Resize((10, 10)));
    assert_eq!(image.operations().len(), 1);
    assert_eq!(image.current_operation_index(), Some(0));
    assert_eq!(image.current_image_size(), Some(size(10, 10)));
}

#[test]
fn undo_and_redo_without_buffers_keep_the_history() {
    let mut image = test_image();
    image = image.apply_operation(&ImageOperation::Resize((100, 80)));
    image.remove_image_buffers();
    image.undo_operation();
    assert_eq!(image.current_operation_index(), None);
    assert_eq!(image.current_image_size(), None);
    image.redo_operation();
    assert_eq!(image.current_operation_index(), Some(0));
    assert_eq!(image.current_image_size(), None);
}

#[test]
fn save_right_after_load_keeps_the_image() {
    let mut image = test_image();
    image.finish_save(true);
    assert_eq!(image.original_image_size(), Some(size(64, 48)));
    assert_eq!(image.current_image_size(), Some(size(64, 48)));
    assert!(image.operations().is_empty());
}
