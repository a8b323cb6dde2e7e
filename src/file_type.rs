use vstd::prelude::*;

verus! {

/// The extension of the last component of a path, as
/// `std::path::Path::extension` finds it.
pub uninterp spec fn extension_of(path: Seq<char>) -> Option<Seq<char>>;

/// The lowercase form of a string, as `str::to_lowercase` makes it.
pub uninterp spec fn lowercase_of(text: Seq<char>) -> Seq<char>;

/// Relies on `std::path::Path::extension`: the text after the last dot of
/// the file name; `None` where the file name has no dot, where its only dot
/// is its first character, or where the name is `..`.
#[verifier::external_body]
fn path_extension(path: &str) -> (r: Option<String>)
    ensures
        match r {
            Some(extension) => extension_of(path@) == Some(extension@),
            None => extension_of(path@) is None,
        },
{
    std::path::Path::new(path).extension().map(|extension| extension.to_string_lossy().into_owned())
}

/// Relies on `str::to_lowercase`: the result depends on the characters alone.
#[verifier::external_body]
fn lowercase(text: &str) -> (r: String)
    ensures
        r@ == lowercase_of(text@),
{
    text.to_lowercase()
}

/// An encoding that an image can be written in.
#[derive(Clone, Copy, Debug, PartialEq, Eq, Structural)]
pub enum FileType {
    Jpeg,
    Png,
    Tiff,
    Ico,
    Bmp,
}

/// The encoding chosen for a lowercase file extension; an unknown extension
/// is written as PNG.
pub open spec fn file_type_of(extension: Seq<char>) -> FileType {
    if extension == "jpeg"@ || extension == "jpg"@ {
        FileType::Jpeg
    } else if extension == "tiff"@ || extension == "tif"@ {
        FileType::Tiff
    } else if extension == "ico"@ {
        FileType::Ico
    } else if extension == "bmp"@ {
        FileType::Bmp
    } else {
        FileType::Png
    }
}

/// The encoding chosen for a path: `None` where it has no extension.
pub open spec fn file_type_of_path(path: Seq<char>) -> Option<FileType> {
    match extension_of(path) {
        Some(extension) => Some(file_type_of(lowercase_of(extension))),
        None => None,
    }
}

/// The encoding for a lowercase file extension.
pub fn file_type_for_extension(extension: &str) -> (r: FileType)
    ensures
        r == file_type_of(extension@),
{
    let extension = extension.to_owned();
    if extension == "jpeg".to_owned() || extension == "jpg".to_owned() {
        FileType::Jpeg
    } else if extension == "tiff".to_owned() || extension == "tif".to_owned() {
        FileType::Tiff
    } else if extension == "ico".to_owned() {
        FileType::Ico
    } else if extension == "bmp".to_owned() {
        FileType::Bmp
    } else {
        FileType::Png
    }
}

/// The encoding for a path, by its extension in any case; `None` where the
/// path has no extension.
pub fn file_type_for_path(path: &str) -> (r: Option<FileType>)
    ensures
        r == file_type_of_path(path@),
{
    match path_extension(path) {
        Some(extension) => {
            let lower = lowercase(extension.as_str());
            Some(file_type_for_extension(lower.as_str()))
        },
        None => None,
    }
}

impl FileType {
    /// The name the encoder knows this type by.
    pub fn name(&self) -> (r: &'static str)
        ensures
            r@ == match self {
                FileType::Jpeg => "jpeg"@,
                FileType::Png => "png"@,
                FileType::Tiff => "tiff"@,
                FileType::Ico => "ico"@,
                FileType::Bmp => "bmp"@,
            },
    {
        match self {
            FileType::Jpeg => "jpeg",
            FileType::Png => "png",
            FileType::Tiff => "tiff",
            FileType::Ico => "ico",
            FileType::Bmp => "bmp",
        }
    }

    /// The encoder option written with this type, as a key and a value:
    /// maximum quality for JPEG, strongest compression for PNG.
    pub fn option(&self) -> (r: Option<(&'static str, &'static str)>)
        ensures
            match self {
                FileType::Jpeg => r matches Some((key, value)) && key@ == "quality"@ && value@
                    == "100"@,
                FileType::Png => r matches Some((key, value)) && key@ == "compression"@ && value@
                    == "9"@,
                _ => r is None,
            },
    {
        match self {
            FileType::Jpeg => Some(("quality", "100")),
            FileType::Png => Some(("compression", "9")),
            _ => None,
        }
    }
}

} // verus!
