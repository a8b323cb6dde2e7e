use vstd::prelude::*;

use crate::file_list::FileList;
use crate::image_list::ImageList;
use crate::preview_size::PreviewSize;

verus! {

/// Which controls can be used in the current state.
#[derive(Clone, Copy, Debug, PartialEq, Eq, Structural)]
pub struct ControlsState {
    /// Moving to the next or previous image.
    pub navigation: bool,
    pub undo: bool,
    pub redo: bool,
    /// Saving over the current file.
    pub save: bool,
    /// Editing, printing, saving as, deleting, copying and setting as
    /// wallpaper: all need an image on screen.
    pub image_actions: bool,
    pub zoom_out: bool,
    pub zoom_in: bool,
}

/// The controls that can be used: navigation where more than one image is
/// listed, the actions on an image where one is on screen, undo, redo and
/// save where its history allows, zooming where the ladder allows.
pub fn controls_state(file_list: &FileList, image_list: &ImageList, preview_size: PreviewSize) -> (r:
    ControlsState)
    requires
        image_list.wf(),
    ensures
        r.navigation == (file_list@.files.len() > 1),
        match image_list@.current_image() {
            Some(image) => {
                &&& r.image_actions
                &&& r.undo == image.can_undo()
                &&& r.redo == image.can_redo()
                &&& r.save == image.has_unsaved_edits()
            },
            None => !r.image_actions && !r.undo && !r.redo && !r.save,
        },
        r.zoom_out == preview_size.has_step_down(),
        r.zoom_in == preview_size.has_step_up(),
{
    let (image_actions, undo, redo, save) = match image_list.current_image() {
        Some(image) => (
            true,
            image.can_undo_operation(),
            image.can_redo_operation(),
            image.has_operations(),
        ),
        None => (false, false, false, false),
    };
    ControlsState {
        navigation: file_list.len() > 1,
        undo,
        redo,
        save,
        image_actions,
        zoom_out: preview_size.can_be_smaller(),
        zoom_in: preview_size.can_be_larger(),
    }
}

} // verus!
