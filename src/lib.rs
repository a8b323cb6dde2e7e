//! Image browsing and editing engine: reversible geometric edits with a linear
//! undo history, a discrete zoom ladder, a keyed cache of open images and
//! cyclic navigation through the images of a directory.
//!
//! Pixel buffers are represented by their sizes: the engine decides which
//! edits apply, what sizes previews and prints take and where a selection
//! lies, and the caller performs the pixel work with the decisions it hands
//! back.

pub mod controls;
pub mod decimal;
pub mod file_list;
pub mod file_type;
pub mod image;
pub mod image_list;
pub mod image_operation;
pub mod preview_size;

pub use controls::{controls_state, ControlsState};
pub use file_list::{DirectoryEntry, FileList, FileListError, FileLocation};
pub use file_type::FileType;
pub use image::{Image, ImageError, ImageState};
pub use image_list::{ImageList, ImageListError, SaveTarget};
pub use image_operation::{
    crop_area, Coordinates, CoordinatesPair, CropArea, ImageOperation, ImageSize, Rotation,
};
pub use preview_size::PreviewSize;
