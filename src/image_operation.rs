use vstd::prelude::*;

verus! {

/// A point in pixel space: `(x, y)`.
pub type Coordinates = (u32, u32);

/// Two corners of a rectangle, in any order.
pub type CoordinatesPair = (Coordinates, Coordinates);

/// Pixel buffers are addressed with signed 32-bit sizes: no side of a buffer
/// can exceed this.
pub const MAX_DIMENSION: u32 = 2147483647;

/// Width and height of a pixel buffer.
#[derive(Clone, Copy, Debug, PartialEq, Eq, Structural)]
pub struct ImageSize {
    pub width: u32,
    pub height: u32,
}

/// Direction of a quarter turn.
#[derive(Clone, Copy, Debug, PartialEq, Eq, Structural)]
pub enum Rotation {
    Clockwise,
    Counterclockwise,
}

/// An edit that can be applied to a pixel buffer.
#[derive(Clone, Copy, Debug, PartialEq, Eq)]
pub enum ImageOperation {
    /// A quarter turn.
    Rotate(Rotation),
    /// Keep the rectangle spanned by two corners given in any order.
    Crop(CoordinatesPair),
    /// Scale to an absolute width and height.
    Resize((u32, u32)),
}

/// A rectangle of a pixel buffer: its top-left corner and its extent.
#[derive(Clone, Copy, Debug, PartialEq, Eq, Structural)]
pub struct CropArea {
    pub x: u32,
    pub y: u32,
    pub width: u32,
    pub height: u32,
}

pub open spec fn min(a: int, b: int) -> int {
    if a <= b {
        a
    } else {
        b
    }
}

pub open spec fn abs_diff(a: int, b: int) -> int {
    if a <= b {
        b - a
    } else {
        a - b
    }
}

/// The rectangle spanned by two corners, whichever corner comes first.
pub open spec fn crop_area_of(corners: CoordinatesPair) -> CropArea {
    let ((sx, sy), (ex, ey)) = corners;
    CropArea {
        x: min(sx as int, ex as int) as u32,
        y: min(sy as int, ey as int) as u32,
        width: abs_diff(sx as int, ex as int) as u32,
        height: abs_diff(sy as int, ey as int) as u32,
    }
}

/// A size that a pixel buffer can have.
pub open spec fn fits_buffer(width: int, height: int) -> bool {
    0 < width <= MAX_DIMENSION && 0 < height <= MAX_DIMENSION
}

/// The size of the buffer that `operation` makes out of a buffer of `size`,
/// or `None` where the operation cannot be applied to it.
pub open spec fn operation_result(size: ImageSize, operation: ImageOperation) -> Option<ImageSize> {
    match operation {
        ImageOperation::Rotate(_) => Some(ImageSize { width: size.height, height: size.width }),
        ImageOperation::Crop(corners) => {
            let area = crop_area_of(corners);
            if 0 < area.width && 0 < area.height && area.x + area.width <= size.width && area.y
                + area.height <= size.height {
                Some(ImageSize { width: area.width, height: area.height })
            } else {
                None
            }
        },
        ImageOperation::Resize((width, height)) => {
            if fits_buffer(width as int, height as int) {
                Some(ImageSize { width, height })
            } else {
                None
            }
        },
    }
}

/// The size reached by applying `operations` in order to a buffer of `size`;
/// an operation that cannot be applied leaves the size as it is.
pub open spec fn replay(size: ImageSize, operations: Seq<ImageOperation>) -> ImageSize
    decreases operations.len(),
{
    if operations.len() == 0 {
        size
    } else {
        let before = replay(size, operations.drop_last());
        match operation_result(before, operations.last()) {
            Some(after) => after,
            None => before,
        }
    }
}

/// A crop does not depend on which corner is given first: both orders give
/// the same rectangle and the same result, whose sides are the distances
/// between the corners along each axis.
pub proof fn crop_ignores_corner_order(size: ImageSize, start: Coordinates, end: Coordinates)
    ensures
        crop_area_of((start, end)) == crop_area_of((end, start)),
        operation_result(size, ImageOperation::Crop((start, end))) == operation_result(
            size,
            ImageOperation::Crop((end, start)),
        ),
        operation_result(size, ImageOperation::Crop((start, end))) matches Some(r) ==> r.width
            == abs_diff(start.0 as int, end.0 as int) && r.height == abs_diff(
            start.1 as int,
            end.1 as int,
        ),
{
}

/// The rectangle spanned by two corners given in any order.
pub fn crop_area(corners: CoordinatesPair) -> (r: CropArea)
    ensures
        r == crop_area_of(corners),
{
    let ((start_x, start_y), (end_x, end_y)) = corners;
    let (x, width) = if start_x <= end_x {
        (start_x, end_x - start_x)
    } else {
        (end_x, start_x - end_x)
    };
    let (y, height) = if start_y <= end_y {
        (start_y, end_y - start_y)
    } else {
        (end_y, start_y - end_y)
    };
    CropArea { x, y, width, height }
}

impl ImageSize {
    /// The size of the buffer that `operation` makes out of a buffer of this
    /// size, or `None` where the operation cannot be applied.
    pub fn apply_operation(&self, operation: &ImageOperation) -> (r: Option<ImageSize>)
        ensures
            r == operation_result(*self, *operation),
    {
        match operation {
            ImageOperation::Rotate(_) => Some(ImageSize { width: self.height, height: self.width }),
            ImageOperation::Crop(corners) => {
                let area = crop_area(*corners);
                if 0 < area.width && 0 < area.height && area.x <= self.width && area.width
                    <= self.width - area.x && area.y <= self.height && area.height <= self.height
                    - area.y {
                    Some(ImageSize { width: area.width, height: area.height })
                } else {
                    None
                }
            },
            ImageOperation::Resize((width, height)) => {
                if 0 < *width && *width <= MAX_DIMENSION && 0 < *height && *height
                    <= MAX_DIMENSION {
                    Some(ImageSize { width: *width, height: *height })
                } else {
                    None
                }
            },
        }
    }
}

} // verus!
