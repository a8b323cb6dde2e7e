use image_roll::{
    controls_state, DirectoryEntry, FileList, FileLocation, Image, ImageList, ImageOperation,
    ImageSize, PreviewSize, Rotation,
};

fn image_entry(name: &str) -> DirectoryEntry {
    DirectoryEntry {
        name: String::from(name),
        is_regular_file: true,
        content_type: Some(String::from("image/jpeg")),
    }
}

fn file_list(names: &[&str]) -> FileList {
    let location = FileLocation { folder: String::from("pictures"), name: String::from(names[0]) };
    FileList::new(Some(location), names.iter().map(|name| image_entry(name)).collect()).unwrap()
}

#[test]
fn nothing_to_do_without_an_image() {
    let files = FileList::new(None, Vec::new()).unwrap();
    let images = ImageList::new();
    let controls = controls_state(&files, &images, PreviewSize::BestFit(0, 0));
    assert!(!controls.navigation);
    assert!(!controls.image_actions);
    assert!(!controls.undo && !controls.redo && !controls.save);
    assert!(controls.zoom_in && controls.zoom_out);
}

#[test]
fn controls_follow_history_and_zoom() {
    let files = file_list(&["a.jpg", "b.jpg"]);
    let mut images = ImageList::new();
    let image = Image::load(ImageSize { width: 8, height: 4 })
        .apply_operation(&ImageOperation::Rotate(Rotation::Clockwise));
    images.insert(String::from("pictures/a.jpg"), image);
    images.set_current_image_path(Some(String::from("pictures/a.jpg")));

    let controls = controls_state(&files, &images, PreviewSize::Resized(500));
    assert!(controls.navigation);
    assert!(controls.image_actions);
    assert!(controls.undo && !controls.redo && controls.save);
    assert!(!controls.zoom_in && controls.zoom_out);

    let mut image = images.remove_current_image().unwrap();
    image.undo_operation();
    images.insert(String::from("pictures/a.jpg"), image);
    let controls = controls_state(&files, &images, PreviewSize::Resized(5));
    assert!(!controls.undo && controls.redo && !controls.save);
    assert!(controls.zoom_in && !controls.zoom_out);

    let single = file_list(&["a.jpg"]);
    assert!(!controls_state(&single, &images, PreviewSize::OriginalSize).navigation);
}
