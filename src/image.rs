use vstd::prelude::*;

use crate::image_operation::{
    fits_buffer, operation_result, replay, CoordinatesPair, ImageOperation, ImageSize,
    MAX_DIMENSION,
};
use crate::file_type::{file_type_for_path, file_type_of_path, FileType};
use crate::preview_size::PreviewSize;

verus! {

/// A size that a pixel buffer can have.
pub open spec fn size_fits(size: ImageSize) -> bool {
    fits_buffer(size.width as int, size.height as int)
}

/// The largest size of the aspect ratio of `size` that fits within a canvas,
/// or `None` where that size has no pixel.
pub open spec fn scaled_to_fit(size: ImageSize, canvas_width: int, canvas_height: int) -> Option<
    ImageSize,
> {
    let w = size.width as int;
    let h = size.height as int;
    let (width, height) = if canvas_width * h <= canvas_height * w {
        (canvas_width, h * canvas_width / w)
    } else {
        (w * canvas_height / h, canvas_height)
    };
    if fits_buffer(width, height) {
        Some(ImageSize { width: width as u32, height: height as u32 })
    } else {
        None
    }
}

/// `size` magnified by `percent`, or `None` where that size has no pixel or
/// is too large for a buffer.
pub open spec fn scaled_by_percent(size: ImageSize, percent: int) -> Option<ImageSize> {
    let width = size.width as int * percent / 100;
    let height = size.height as int * percent / 100;
    if fits_buffer(width, height) {
        Some(ImageSize { width: width as u32, height: height as u32 })
    } else {
        None
    }
}

/// The size of the preview of a buffer of size `current`.
pub open spec fn preview_of(current: Option<ImageSize>, preview_size: PreviewSize) -> Option<
    ImageSize,
> {
    match current {
        None => None,
        Some(size) => match preview_size {
            PreviewSize::BestFit(canvas_width, canvas_height) => scaled_to_fit(
                size,
                canvas_width as int,
                canvas_height as int,
            ),
            PreviewSize::OriginalSize => Some(size),
            PreviewSize::Resized(percent) => scaled_by_percent(size, percent as int),
        },
    }
}

/// The size of the print of a buffer of size `current` on a canvas: scaled
/// down to fit where it does not fit, never scaled up.
pub open spec fn print_size_of(current: Option<ImageSize>, canvas_width: int, canvas_height: int) -> Option<ImageSize> {
    match current {
        None => None,
        Some(size) => if size.width > canvas_width || size.height > canvas_height {
            scaled_to_fit(size, canvas_width, canvas_height)
        } else {
            Some(size)
        },
    }
}

/// A coordinate of the preview mapped to the full-size buffer, saturated at
/// the largest `u32`.
pub open spec fn scale_coordinate(value: int, image_side: int, preview_side: int) -> u32 {
    let scaled = value * image_side / preview_side;
    if scaled <= u32::MAX {
        scaled as u32
    } else {
        u32::MAX
    }
}

/// An image as a mathematical value: the sizes of its three buffers, its
/// history of edits, and the cursor into that history.
pub struct ImageState {
    /// The buffer as loaded, before any edit.
    pub original: Option<ImageSize>,
    /// The buffer with the applied edits.
    pub current: Option<ImageSize>,
    /// The buffer shown on screen.
    pub preview: Option<ImageSize>,
    /// Every edit, in the order applied.
    pub operations: Seq<ImageOperation>,
    /// Index of the last applied edit; `None` when no edit is applied.
    pub cursor: Option<int>,
}

impl ImageState {
    /// The edits that are applied: those up to and including the cursor.
    pub open spec fn applied(self) -> Seq<ImageOperation> {
        match self.cursor {
            Some(i) => self.operations.take(i + 1),
            None => Seq::empty(),
        }
    }

    /// The current buffer always is the original one with the applied edits.
    pub open spec fn wf(self) -> bool {
        &&& self.cursor matches Some(i) ==> 0 <= i < self.operations.len()
        &&& self.original is Some <==> self.current is Some
        &&& self.original matches Some(o) ==> size_fits(o) && self.current == Some(
            replay(o, self.applied()),
        )
        &&& self.current matches Some(c) ==> size_fits(c)
        &&& self.preview matches Some(p) ==> size_fits(p)
    }

    pub open spec fn has_unsaved_edits(self) -> bool {
        self.operations.len() > 0 && self.cursor is Some
    }

    pub open spec fn can_undo(self) -> bool {
        self.cursor is Some
    }

    pub open spec fn can_redo(self) -> bool {
        match self.cursor {
            Some(i) => i + 1 < self.operations.len(),
            None => self.operations.len() > 0,
        }
    }

    /// The state with the cursor moved to `cursor` and the current buffer
    /// rebuilt from the original one.
    pub open spec fn with_cursor(self, cursor: Option<int>) -> ImageState {
        let moved = ImageState { cursor, ..self };
        ImageState {
            current: match self.original {
                Some(o) => Some(replay(o, moved.applied())),
                None => None,
            },
            ..moved
        }
    }

    /// The state after one undo.
    pub open spec fn undone(self) -> ImageState {
        match self.cursor {
            None => self,
            Some(i) => self.with_cursor(
                if i == 0 {
                    None
                } else {
                    Some(i - 1)
                },
            ),
        }
    }

    /// The state after one redo.
    pub open spec fn redone(self) -> ImageState {
        if self.can_redo() {
            self.with_cursor(
                Some(
                    match self.cursor {
                        Some(i) => i + 1,
                        None => 0,
                    },
                ),
            )
        } else {
            self
        }
    }

    /// The state after applying `operation`: where it can be applied to the
    /// current buffer, the edits that were undone are dropped and it becomes
    /// the last edit; otherwise nothing changes.
    pub open spec fn applying(self, operation: ImageOperation) -> ImageState {
        match self.current {
            Some(c) => match operation_result(c, operation) {
                Some(after) => ImageState {
                    current: Some(after),
                    operations: self.applied().push(operation),
                    cursor: Some(self.applied().len() as int),
                    ..self
                },
                None => self,
            },
            None => self,
        }
    }

    /// The state after `n` undos.
    pub open spec fn undone_times(self, n: nat) -> ImageState
        decreases n,
    {
        if n == 0 {
            self
        } else {
            self.undone().undone_times((n - 1) as nat)
        }
    }

    /// The state after `n` redos.
    pub open spec fn redone_times(self, n: nat) -> ImageState
        decreases n,
    {
        if n == 0 {
            self
        } else {
            self.redone().redone_times((n - 1) as nat)
        }
    }

    /// The state after the current buffer was written to a file; with
    /// `clear_operations` it becomes the new original and the history is
    /// dropped.
    pub open spec fn after_save(self, clear_operations: bool) -> ImageState {
        if clear_operations {
            ImageState { original: self.current, operations: Seq::empty(), cursor: None, ..self }
        } else {
            self
        }
    }
}

/// Applying edits keeps a buffer size valid.
pub proof fn lemma_replay_fits(size: ImageSize, operations: Seq<ImageOperation>)
    requires
        size_fits(size),
    ensures
        size_fits(replay(size, operations)),
    decreases operations.len(),
{
    if operations.len() > 0 {
        lemma_replay_fits(size, operations.drop_last());
    }
}

proof fn lemma_replay_push(size: ImageSize, operations: Seq<ImageOperation>, operation: ImageOperation)
    ensures
        replay(size, operations.push(operation)) == match operation_result(
            replay(size, operations),
            operation,
        ) {
            Some(after) => after,
            None => replay(size, operations),
        },
{
    assert(operations.push(operation).drop_last() =~= operations);
}

/// Why an image cannot be saved.
#[derive(Clone, Copy, Debug, PartialEq, Eq, Structural)]
pub enum ImageError {
    /// The image has no current buffer.
    MissingImageBuffer,
    /// The path to save to has no file extension.
    MissingFileExtension,
}

impl ImageError {
    pub open spec fn message_text(self) -> Seq<char> {
        match self {
            ImageError::MissingImageBuffer => "Image buffer is missing!"@,
            ImageError::MissingFileExtension => "File path doesn't have file extension"@,
        }
    }

    /// A sentence for the user.
    pub fn message(&self) -> (r: &'static str)
        ensures
            r@ == self.message_text(),
    {
        match self {
            ImageError::MissingImageBuffer => "Image buffer is missing!",
            ImageError::MissingFileExtension => "File path doesn't have file extension",
        }
    }
}

/// A freshly decoded image of `size`, with no edits.
pub open spec fn loaded(size: ImageSize) -> ImageState {
    ImageState {
        original: Some(size),
        current: Some(size),
        preview: None,
        operations: Seq::empty(),
        cursor: None,
    }
}

/// The cursor under which the first `count` edits are applied.
pub open spec fn cursor_for(count: int) -> Option<int> {
    if count == 0 {
        None
    } else {
        Some(count - 1)
    }
}

proof fn lemma_cursor_twice(s: ImageState, a: Option<int>, b: Option<int>)
    ensures
        s.with_cursor(a).with_cursor(b) == s.with_cursor(b),
{
    let t = s.with_cursor(a);
    assert(t.with_cursor(b).applied() == s.with_cursor(b).applied());
}

proof fn lemma_undo_steps(s: ImageState, k: int, n: nat)
    requires
        0 <= k,
        n <= k + 1,
    ensures
        s.with_cursor(Some(k)).undone_times(n) == s.with_cursor(cursor_for(k + 1 - n)),
    decreases n,
{
    if n > 0 {
        let t = s.with_cursor(Some(k));
        lemma_cursor_twice(s, Some(k), cursor_for(k));
        assert(t.undone() == s.with_cursor(cursor_for(k)));
        if k > 0 {
            lemma_undo_steps(s, k - 1, (n - 1) as nat);
        }
    }
}

proof fn lemma_redo_steps(s: ImageState, count: int, m: nat)
    requires
        0 <= count,
        count + m <= s.operations.len(),
    ensures
        s.with_cursor(cursor_for(count)).redone_times(m) == s.with_cursor(cursor_for(count + m)),
    decreases m,
{
    if m > 0 {
        let t = s.with_cursor(cursor_for(count));
        lemma_cursor_twice(s, cursor_for(count), cursor_for(count + 1));
        assert(t.redone() == s.with_cursor(cursor_for(count + 1)));
        lemma_redo_steps(s, count + 1, (m - 1) as nat);
    }
}

/// Undoing every applied edit brings the current buffer back to the original
/// one, with no edit applied; redoing them all again restores the fully
/// edited image.
pub proof fn undo_all_then_redo_all(s: ImageState)
    requires
        s.wf(),
        s.operations.len() > 0,
        s.cursor == Some(s.operations.len() - 1),
    ensures
        s.undone_times(s.operations.len()).cursor is None,
        s.undone_times(s.operations.len()).current == s.original,
        s.undone_times(s.operations.len()).redone_times(s.operations.len()) == s,
{
    let n = s.operations.len();
    assert(s.operations.take(n as int) =~= s.operations);
    assert(s.with_cursor(Some(n - 1)) == s);
    lemma_undo_steps(s, n - 1, n);
    assert(s.with_cursor(None).applied() =~= Seq::<ImageOperation>::empty());
    lemma_redo_steps(s, 0, n);
}

/// A new edit after some undos drops the undone edits: the history becomes
/// the applied edits followed by the new one, the cursor points at it, and
/// nothing is left to redo.
pub proof fn edit_after_undo_drops_redo(s: ImageState, operation: ImageOperation)
    requires
        s.wf(),
        s.current matches Some(c) && operation_result(c, operation) is Some,
    ensures
        s.applying(operation).operations == s.applied().push(operation),
        s.applying(operation).cursor == Some(s.applied().len() as int),
        !s.applying(operation).can_redo(),
        s.applying(operation).wf(),
{
    let t = s.applying(operation);
    assert(t.applied() =~= s.applied().push(operation));
    lemma_replay_push(s.original->0, s.applied(), operation);
}

/// A point inside the preview maps into the current buffer exactly: each
/// coordinate is multiplied by the ratio of the current side to the preview
/// side on its axis, rounded down, and stays within the current side.
pub proof fn coords_inside_preview_map_exactly(value: u32, image_side: u32, preview_side: u32)
    requires
        0 < preview_side,
        value <= preview_side,
    ensures
        scale_coordinate(value as int, image_side as int, preview_side as int) == (value as int
            * image_side as int) / preview_side as int,
        (value as int * image_side as int) / preview_side as int <= image_side,
{
    let v = value as int;
    let i = image_side as int;
    let p = preview_side as int;
    assert(v * i <= p * i) by (nonlinear_arith)
        requires
            0 <= v <= p,
            0 <= i,
    ;
    assert((v * i) / p <= i) by (nonlinear_arith)
        requires
            v * i <= p * i,
            0 < p,
            0 <= i,
    ;
}

/// Mapping from a preview `k` times the size of the current buffer along an
/// axis divides each coordinate on that axis by `k`.
pub proof fn coords_scale_with_preview(value: u32, image_side: u32, k: u32)
    requires
        image_side > 0,
        k > 0,
    ensures
        scale_coordinate(value as int, image_side as int, k * image_side) == value / k,
{
    vstd::arithmetic::div_mod::lemma_div_multiples_vanish_quotient(
        image_side as int,
        value as int,
        k as int,
    );
    assert(value * image_side == image_side * value) by (nonlinear_arith);
    assert(k * image_side == image_side * k) by (nonlinear_arith);
}

/// Saving right after loading, with the history dropped, leaves the image as
/// it was loaded.
pub proof fn save_after_load_keeps_image(size: ImageSize)
    ensures
        loaded(size).after_save(true) == loaded(size),
{
}

/// An image being edited: the sizes of its buffers and its history of edits.
pub struct Image {
    original_image_buffer: Option<ImageSize>,
    current_image_buffer: Option<ImageSize>,
    preview_image_buffer: Option<ImageSize>,
    operations: Vec<ImageOperation>,
    current_operation_index: Option<usize>,
}

impl View for Image {
    type V = ImageState;

    closed spec fn view(&self) -> ImageState {
        ImageState {
            original: self.original_image_buffer,
            current: self.current_image_buffer,
            preview: self.preview_image_buffer,
            operations: self.operations@,
            cursor: match self.current_operation_index {
                Some(i) => Some(i as int),
                None => None,
            },
        }
    }
}

/// A history is held in a `Vec`, so its length fits in a `usize`.
proof fn lemma_history_fits(operations: &Vec<ImageOperation>)
    ensures
        operations@.len() <= usize::MAX,
{
    assert(operations@.len() == operations.len());
}

/// The size reached by applying the first `count` of `operations` to a
/// buffer of `size`.
fn replay_operations(size: ImageSize, operations: &Vec<ImageOperation>, count: usize) -> (r:
    ImageSize)
    requires
        count <= operations.len(),
    ensures
        r == replay(size, operations@.take(count as int)),
{
    let mut result = size;
    let mut i: usize = 0;
    assert(operations@.take(0) =~= Seq::<ImageOperation>::empty());
    while i < count
        invariant
            i <= count <= operations.len(),
            result == replay(size, operations@.take(i as int)),
        decreases count - i,
    {
        proof {
            assert(operations@.take(i + 1) =~= operations@.take(i as int).push(operations@[i as int]));
            lemma_replay_push(size, operations@.take(i as int), operations@[i as int]);
        }
        result = match result.apply_operation(&operations[i]) {
            Some(after) => after,
            None => result,
        };
        i = i + 1;
    }
    result
}

fn scale_to_fit(size: ImageSize, canvas_width: u32, canvas_height: u32) -> (r: Option<ImageSize>)
    requires
        size_fits(size),
    ensures
        r == scaled_to_fit(size, canvas_width as int, canvas_height as int),
{
    let w = size.width as u64;
    let h = size.height as u64;
    let cw = canvas_width as u64;
    let ch = canvas_height as u64;
    proof {
        assert(cw * h <= u32::MAX * u32::MAX) by (nonlinear_arith)
            requires
                cw <= u32::MAX,
                h <= u32::MAX,
        ;
        assert(ch * w <= u32::MAX * u32::MAX) by (nonlinear_arith)
            requires
                ch <= u32::MAX,
                w <= u32::MAX,
        ;
    }
    let (width, height) = if cw * h <= ch * w {
        proof {
            assert((h * cw) as int / w as int <= ch) by (nonlinear_arith)
                requires
                    cw * h <= ch * w,
                    w > 0,
            ;
        }
        (cw, h * cw / w)
    } else {
        proof {
            assert((w * ch) as int / h as int <= cw) by (nonlinear_arith)
                requires
                    cw * h > ch * w,
                    h > 0,
            ;
        }
        (w * ch / h, ch)
    };
    if 0 < width && width <= MAX_DIMENSION as u64 && 0 < height && height <= MAX_DIMENSION as u64 {
        Some(ImageSize { width: width as u32, height: height as u32 })
    } else {
        None
    }
}

fn scale_by_percent(size: ImageSize, percent: u32) -> (r: Option<ImageSize>)
    ensures
        r == scaled_by_percent(size, percent as int),
{
    let w = size.width as u64;
    let h = size.height as u64;
    let p = percent as u64;
    proof {
        assert(w * p <= u32::MAX * u32::MAX) by (nonlinear_arith)
            requires
                w <= u32::MAX,
                p <= u32::MAX,
        ;
        assert(h * p <= u32::MAX * u32::MAX) by (nonlinear_arith)
            requires
                h <= u32::MAX,
                p <= u32::MAX,
        ;
    }
    let width = w * p / 100;
    let height = h * p / 100;
    if 0 < width && width <= MAX_DIMENSION as u64 && 0 < height && height <= MAX_DIMENSION as u64 {
        Some(ImageSize { width: width as u32, height: height as u32 })
    } else {
        None
    }
}

fn map_coordinate(value: u32, image_side: u32, preview_side: u32) -> (r: u32)
    requires
        preview_side > 0,
    ensures
        r == scale_coordinate(value as int, image_side as int, preview_side as int),
{
    let v = value as u64;
    let i = image_side as u64;
    proof {
        assert(v * i <= u32::MAX * u32::MAX) by (nonlinear_arith)
            requires
                v <= u32::MAX,
                i <= u32::MAX,
        ;
    }
    let scaled = v * i / preview_side as u64;
    if scaled <= u32::MAX as u64 {
        scaled as u32
    } else {
        u32::MAX
    }
}

impl Image {
    pub open spec fn wf(&self) -> bool {
        self@.wf()
    }

    /// A freshly decoded image of the given size, with no edits.
    pub fn load(size: ImageSize) -> (r: Image)
        requires
            size_fits(size),
        ensures
            r.wf(),
            r@ == loaded(size),
    {
        let r = Image {
            original_image_buffer: Some(size),
            current_image_buffer: Some(size),
            preview_image_buffer: None,
            operations: Vec::new(),
            current_operation_index: None,
        };
        assert(r@.applied() =~= Seq::<ImageOperation>::empty());
        r
    }

    /// The image decoded afresh at the given size, with the applied edits
    /// replayed onto it; the history and the cursor are kept as they are.
    pub fn reload(self, size: ImageSize) -> (r: Image)
        requires
            self.wf(),
            size_fits(size),
        ensures
            r.wf(),
            r@ == (ImageState {
                original: Some(size),
                current: Some(replay(size, self@.applied())),
                preview: None,
                ..self@
            }),
    {
        let count: usize = match self.current_operation_index {
            Some(i) => i + 1,
            None => 0,
        };
        let current = replay_operations(size, &self.operations, count);
        proof {
            assert(self@.applied() =~= self.operations@.take(count as int));
            lemma_replay_fits(size, self@.applied());
        }
        Image {
            original_image_buffer: Some(size),
            current_image_buffer: Some(current),
            preview_image_buffer: None,
            operations: self.operations,
            current_operation_index: self.current_operation_index,
        }
    }

    /// Drops the three buffers, keeping the history and the cursor.
    pub fn remove_image_buffers(&mut self)
        requires
            old(self).wf(),
        ensures
            final(self).wf(),
            final(self)@ == (ImageState {
                original: None,
                current: None,
                preview: None,
                ..old(self)@
            }),
    {
        self.original_image_buffer = None;
        self.current_image_buffer = None;
        self.preview_image_buffer = None;
    }

    /// Derives the preview buffer from the current one.
    pub fn create_preview_image_buffer(&mut self, preview_size: PreviewSize)
        requires
            old(self).wf(),
        ensures
            final(self).wf(),
            final(self)@ == (ImageState {
                preview: preview_of(old(self)@.current, preview_size),
                ..old(self)@
            }),
    {
        self.preview_image_buffer = match self.current_image_buffer {
            None => None,
            Some(size) => match preview_size {
                PreviewSize::BestFit(canvas_width, canvas_height) => scale_to_fit(
                    size,
                    canvas_width,
                    canvas_height,
                ),
                PreviewSize::OriginalSize => Some(size),
                PreviewSize::Resized(percent) => scale_by_percent(size, percent),
            },
        };
    }

    /// The size of the buffer to print on a canvas: the current buffer,
    /// scaled down where it does not fit.
    pub fn create_print_image_buffer(&self, canvas_width: u32, canvas_height: u32) -> (r: Option<
        ImageSize,
    >)
        requires
            self.wf(),
        ensures
            r == print_size_of(self@.current, canvas_width as int, canvas_height as int),
    {
        match self.current_image_buffer {
            None => None,
            Some(size) => if size.width > canvas_width || size.height > canvas_height {
                scale_to_fit(size, canvas_width, canvas_height)
            } else {
                Some(size)
            },
        }
    }

    /// Width and height of the current buffer.
    pub fn image_size(&self) -> (r: Option<(u32, u32)>)
        ensures
            r == match self@.current {
                Some(c) => Some((c.width, c.height)),
                None => None,
            },
    {
        match self.current_image_buffer {
            Some(c) => Some((c.width, c.height)),
            None => None,
        }
    }

    /// Width and height of the preview buffer.
    pub fn preview_image_buffer_size(&self) -> (r: Option<(u32, u32)>)
        ensures
            r == match self@.preview {
                Some(p) => Some((p.width, p.height)),
                None => None,
            },
    {
        match self.preview_image_buffer {
            Some(p) => Some((p.width, p.height)),
            None => None,
        }
    }

    /// Maps two corners selected on the preview to the current buffer, each
    /// axis scaled by the ratio of the current side to the preview side.
    pub fn preview_coords_to_image_coords(&self, coords: CoordinatesPair) -> (r: Option<
        CoordinatesPair,
    >)
        requires
            self.wf(),
        ensures
            r == match (self@.current, self@.preview) {
                (Some(c), Some(p)) => Some(
                    (
                        (
                            scale_coordinate(coords.0.0 as int, c.width as int, p.width as int),
                            scale_coordinate(coords.0.1 as int, c.height as int, p.height as int),
                        ),
                        (
                            scale_coordinate(coords.1.0 as int, c.width as int, p.width as int),
                            scale_coordinate(coords.1.1 as int, c.height as int, p.height as int),
                        ),
                    ),
                ),
                _ => None,
            },
    {
        let ((start_x, start_y), (end_x, end_y)) = coords;
        match (self.current_image_buffer, self.preview_image_buffer) {
            (Some(c), Some(p)) => Some(
                (
                    (
                        map_coordinate(start_x, c.width, p.width),
                        map_coordinate(start_y, c.height, p.height),
                    ),
                    (
                        map_coordinate(end_x, c.width, p.width),
                        map_coordinate(end_y, c.height, p.height),
                    ),
                ),
            ),
            _ => None,
        }
    }

    /// Whether some edit is applied that no save has recorded.
    pub fn has_operations(&self) -> (r: bool)
        ensures
            r == self@.has_unsaved_edits(),
    {
        self.operations.len() > 0 && self.current_operation_index.is_some()
    }

    pub fn can_undo_operation(&self) -> (r: bool)
        ensures
            r == self@.can_undo(),
    {
        self.current_operation_index.is_some()
    }

    /// Steps the cursor back by one edit and rebuilds the current buffer.
    pub fn undo_operation(&mut self)
        requires
            old(self).wf(),
        ensures
            final(self).wf(),
            final(self)@ == old(self)@.undone(),
    {
        if let Some(index) = self.current_operation_index {
            let cursor = if index == 0 {
                None
            } else {
                Some(index - 1)
            };
            self.move_cursor(cursor);
        }
    }

    pub fn can_redo_operation(&self) -> (r: bool)
        requires
            self.wf(),
        ensures
            r == self@.can_redo(),
    {
        match self.current_operation_index {
            Some(index) => index < self.operations.len() - 1,
            None => self.operations.len() > 0,
        }
    }

    /// Steps the cursor forward by one edit and rebuilds the current buffer.
    pub fn redo_operation(&mut self)
        requires
            old(self).wf(),
        ensures
            final(self).wf(),
            final(self)@ == old(self)@.redone(),
    {
        if self.can_redo_operation() {
            proof {
                lemma_history_fits(&self.operations);
            }
            let cursor = match self.current_operation_index {
                Some(index) => index + 1,
                None => 0,
            };
            self.move_cursor(Some(cursor));
        }
    }

    fn move_cursor(&mut self, cursor: Option<usize>)
        requires
            old(self).wf(),
            cursor matches Some(i) ==> i < old(self).operations.len(),
        ensures
            final(self).wf(),
            final(self)@ == old(self)@.with_cursor(
                match cursor {
                    Some(i) => Some(i as int),
                    None => None,
                },
            ),
    {
        let count: usize = match cursor {
            Some(i) => i + 1,
            None => 0,
        };
        self.current_operation_index = cursor;
        self.current_image_buffer = match self.original_image_buffer {
            Some(original) => Some(replay_operations(original, &self.operations, count)),
            None => None,
        };
        proof {
            assert(self@.applied() =~= self.operations@.take(count as int));
            if let Some(o) = self.original_image_buffer {
                lemma_replay_fits(o, self@.applied());
            }
        }
    }

    /// Applies an edit to the current buffer. Where it applies, the edits
    /// that were undone are dropped and it becomes the last edit; where it
    /// does not, the image is left as it is.
    pub fn apply_operation(self, image_operation: &ImageOperation) -> (r: Image)
        requires
            self.wf(),
        ensures
            r.wf(),
            r@ == self@.applying(*image_operation),
    {
        let mut image = self;
        image.apply_in_place(image_operation);
        image
    }

    fn apply_in_place(&mut self, image_operation: &ImageOperation)
        requires
            old(self).wf(),
        ensures
            final(self).wf(),
            final(self)@ == old(self)@.applying(*image_operation),
    {
        if let Some(current) = self.current_image_buffer {
            if let Some(after) = current.apply_operation(image_operation) {
                proof {
                    lemma_history_fits(&self.operations);
                }
                let kept: usize = match self.current_operation_index {
                    Some(index) => index + 1,
                    None => 0,
                };
                let ghost before = self@;
                self.operations.truncate(kept);
                assert(self.operations@ =~= before.applied());
                self.operations.push(*image_operation);
                self.current_operation_index = Some(self.operations.len() - 1);
                self.current_image_buffer = Some(after);
                proof {
                    assert(self@.applied() =~= before.applied().push(*image_operation));
                    lemma_replay_push(self.original_image_buffer->0, before.applied(), *image_operation);
                }
            }
        }
    }

    /// The encoding to write the current buffer to `path` in, chosen by the
    /// path's extension in any case.
    pub fn save_file_type(&self, path: &str) -> (r: Result<FileType, ImageError>)
        ensures
            r == if self@.current is None {
                Err(ImageError::MissingImageBuffer)
            } else {
                match file_type_of_path(path@) {
                    Some(file_type) => Ok(file_type),
                    None => Err(ImageError::MissingFileExtension),
                }
            },
    {
        if self.current_image_buffer.is_none() {
            return Err(ImageError::MissingImageBuffer);
        }
        match file_type_for_path(path) {
            Some(file_type) => Ok(file_type),
            None => Err(ImageError::MissingFileExtension),
        }
    }

    /// Records that the current buffer was written to a file. With
    /// `clear_operations` the written buffer becomes the original one and the
    /// history is dropped; otherwise editing goes on as before.
    pub fn finish_save(&mut self, clear_operations: bool)
        requires
            old(self).wf(),
        ensures
            final(self).wf(),
            final(self)@ == old(self)@.after_save(clear_operations),
    {
        if clear_operations {
            self.original_image_buffer = self.current_image_buffer;
            self.current_operation_index = None;
            self.operations.clear();
            assert(self@.applied() =~= Seq::<ImageOperation>::empty());
        }
    }

    /// The edits in the order applied, including those undone.
    pub fn operations(&self) -> (r: &[ImageOperation])
        ensures
            r@ == self@.operations,
    {
        self.operations.as_slice()
    }

    /// The applied edits, in order: those to replay onto the original buffer
    /// to rebuild the current one.
    pub fn applied_operations(&self) -> (r: Vec<ImageOperation>)
        requires
            self.wf(),
        ensures
            r@ == self@.applied(),
    {
        proof {
            lemma_history_fits(&self.operations);
        }
        let count: usize = match self.current_operation_index {
            Some(i) => i + 1,
            None => 0,
        };
        let mut result: Vec<ImageOperation> = Vec::new();
        let mut i: usize = 0;
        while i < count
            invariant
                i <= count <= self.operations@.len(),
                result@ == self.operations@.take(i as int),
            decreases count - i,
        {
            result.push(self.operations[i]);
            assert(self.operations@.take(i + 1) =~= self.operations@.take(i as int).push(
                self.operations@[i as int],
            ));
            i = i + 1;
        }
        assert(self@.applied() =~= self.operations@.take(count as int));
        result
    }

    /// Index of the last applied edit.
    pub fn current_operation_index(&self) -> (r: Option<usize>)
        ensures
            r matches Some(i) ==> self@.cursor == Some(i as int),
            r is None ==> self@.cursor is None,
    {
        self.current_operation_index
    }

    /// Size of the buffer as loaded.
    pub fn original_image_size(&self) -> (r: Option<ImageSize>)
        ensures
            r == self@.original,
    {
        self.original_image_buffer
    }

    /// Size of the buffer with the applied edits.
    pub fn current_image_size(&self) -> (r: Option<ImageSize>)
        ensures
            r == self@.current,
    {
        self.current_image_buffer
    }
}

} // verus!
