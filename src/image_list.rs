use vstd::prelude::*;

use crate::file_type::{file_type_of_path, FileType};
use crate::image::{Image, ImageError, ImageState};

verus! {

/// The last component of a path, as `std::path::Path::file_name` finds it.
pub uninterp spec fn file_name_of(path: Seq<char>) -> Option<Seq<char>>;

/// Relies on `std::path::Path::file_name`: the last component of the path,
/// `None` where the path ends in `..` or has no component.
#[verifier::external_body]
fn path_file_name(path: &str) -> (r: Option<String>)
    ensures
        match r {
            Some(name) => file_name_of(path@) == Some(name@),
            None => file_name_of(path@) is None,
        },
{
    std::path::Path::new(path).file_name().map(|name| name.to_string_lossy().into_owned())
}

/// The name shown for a file: the last component of its path, or nothing.
pub open spec fn display_name_of(path: Seq<char>) -> Seq<char> {
    match file_name_of(path) {
        Some(name) => name,
        None => Seq::empty(),
    }
}

/// Some entry of `entries` is stored under `key`.
pub open spec fn has_key(entries: Seq<(String, Image)>, key: Seq<char>) -> bool {
    exists|i: int| 0 <= i < entries.len() && entries[i].0@ == key
}

pub open spec fn unique_keys(entries: Seq<(String, Image)>) -> bool {
    forall|i: int, j: int|
        0 <= i < j < entries.len() ==> (#[trigger] entries[i]).0@ != (#[trigger] entries[j]).0@
}

/// The images of `entries` by path.
pub open spec fn image_map(entries: Seq<(String, Image)>) -> Map<Seq<char>, ImageState> {
    Map::new(
        |key: Seq<char>| has_key(entries, key),
        |key: Seq<char>|
            entries[choose|i: int| 0 <= i < entries.len() && entries[i].0@ == key].1@,
    )
}

proof fn lemma_entry(entries: Seq<(String, Image)>, i: int)
    requires
        unique_keys(entries),
        0 <= i < entries.len(),
    ensures
        image_map(entries).contains_key(entries[i].0@),
        image_map(entries)[entries[i].0@] == entries[i].1@,
{
    let key = entries[i].0@;
    assert(has_key(entries, key));
    let c = choose|c: int| 0 <= c < entries.len() && entries[c].0@ == key;
    assert(c == i) by {
        if c < i {
            assert(entries[c].0@ != entries[i].0@);
        } else if c > i {
            assert(entries[i].0@ != entries[c].0@);
        }
    }
}

proof fn lemma_update(entries: Seq<(String, Image)>, i: int, entry: (String, Image))
    requires
        unique_keys(entries),
        0 <= i < entries.len(),
        entry.0@ == entries[i].0@,
    ensures
        unique_keys(entries.update(i, entry)),
        image_map(entries.update(i, entry)) == image_map(entries).insert(entry.0@, entry.1@),
{
    let s2 = entries.update(i, entry);
    assert(unique_keys(s2)) by {
        assert forall|a: int, b: int| 0 <= a < b < s2.len() implies (#[trigger] s2[a]).0@ != (
        #[trigger] s2[b]).0@ by {
            assert(entries[a].0@ != entries[b].0@);
        }
    }
    let m = image_map(entries).insert(entry.0@, entry.1@);
    assert forall|key: Seq<char>| #[trigger] image_map(s2).contains_key(key) <==> m.contains_key(key) by {
        if has_key(s2, key) {
            let c = choose|c: int| 0 <= c < s2.len() && s2[c].0@ == key;
            if c != i {
                lemma_entry(entries, c);
            }
        }
        if has_key(entries, key) {
            let c = choose|c: int| 0 <= c < entries.len() && entries[c].0@ == key;
            assert(s2[c].0@ == key);
        }
        if key == entry.0@ {
            assert(s2[i].0@ == key);
        }
    }
    assert forall|key: Seq<char>| #[trigger] image_map(s2).contains_key(key) implies image_map(s2)[key]
        == m[key] by {
        let c = choose|c: int| 0 <= c < s2.len() && s2[c].0@ == key;
        lemma_entry(s2, c);
        if c != i {
            lemma_entry(entries, c);
        }
    }
    assert(image_map(s2) =~= m);
}

proof fn lemma_push(entries: Seq<(String, Image)>, entry: (String, Image))
    requires
        unique_keys(entries),
        !has_key(entries, entry.0@),
    ensures
        unique_keys(entries.push(entry)),
        image_map(entries.push(entry)) == image_map(entries).insert(entry.0@, entry.1@),
{
    let s2 = entries.push(entry);
    let n = entries.len() as int;
    assert(unique_keys(s2)) by {
        assert forall|a: int, b: int| 0 <= a < b < s2.len() implies (#[trigger] s2[a]).0@ != (
        #[trigger] s2[b]).0@ by {
            if b < n {
                assert(entries[a].0@ != entries[b].0@);
            } else {
                assert(entries[a].0@ != entry.0@);
            }
        }
    }
    let m = image_map(entries).insert(entry.0@, entry.1@);
    assert forall|key: Seq<char>| #[trigger] image_map(s2).contains_key(key) <==> m.contains_key(key) by {
        if has_key(s2, key) {
            let c = choose|c: int| 0 <= c < s2.len() && s2[c].0@ == key;
            if c < n {
                assert(entries[c].0@ == key);
            }
        }
        if has_key(entries, key) {
            let c = choose|c: int| 0 <= c < entries.len() && entries[c].0@ == key;
            assert(s2[c].0@ == key);
        }
        if key == entry.0@ {
            assert(s2[n].0@ == key);
        }
    }
    assert forall|key: Seq<char>| #[trigger] image_map(s2).contains_key(key) implies image_map(s2)[key]
        == m[key] by {
        let c = choose|c: int| 0 <= c < s2.len() && s2[c].0@ == key;
        lemma_entry(s2, c);
        if c < n {
            lemma_entry(entries, c);
        }
    }
    assert(image_map(s2) =~= m);
}

proof fn lemma_remove(entries: Seq<(String, Image)>, i: int)
    requires
        unique_keys(entries),
        0 <= i < entries.len(),
    ensures
        unique_keys(entries.remove(i)),
        image_map(entries.remove(i)) == image_map(entries).remove(entries[i].0@),
{
    let s2 = entries.remove(i);
    let k = entries[i].0@;
    assert(unique_keys(s2)) by {
        assert forall|a: int, b: int| 0 <= a < b < s2.len() implies (#[trigger] s2[a]).0@ != (
        #[trigger] s2[b]).0@ by {
            if b < i {
                assert(entries[a].0@ != entries[b].0@);
            } else if a < i {
                assert(entries[a].0@ != entries[b + 1].0@);
            } else {
                assert(entries[a + 1].0@ != entries[b + 1].0@);
            }
        }
    }
    let m = image_map(entries).remove(k);
    assert forall|key: Seq<char>| #[trigger] image_map(s2).contains_key(key) <==> m.contains_key(key) by {
        if has_key(s2, key) {
            let c = choose|c: int| 0 <= c < s2.len() && s2[c].0@ == key;
            if c < i {
                assert(entries[c].0@ == key);
                assert(entries[c].0@ != entries[i].0@);
            } else {
                assert(entries[c + 1].0@ == key);
                assert(entries[i].0@ != entries[c + 1].0@);
            }
        }
        if has_key(entries, key) && key != k {
            let c = choose|c: int| 0 <= c < entries.len() && entries[c].0@ == key;
            if c < i {
                assert(s2[c].0@ == key);
            } else {
                assert(c != i);
                assert(s2[c - 1].0@ == key);
            }
        }
    }
    assert forall|key: Seq<char>| #[trigger] image_map(s2).contains_key(key) implies image_map(s2)[key]
        == m[key] by {
        let c = choose|c: int| 0 <= c < s2.len() && s2[c].0@ == key;
        lemma_entry(s2, c);
        if c < i {
            lemma_entry(entries, c);
        } else {
            lemma_entry(entries, c + 1);
        }
    }
    assert(image_map(s2) =~= m);
}

/// An image list as a mathematical value.
pub struct ImageListState {
    /// The open images, by path.
    pub images: Map<Seq<char>, ImageState>,
    /// The path of the image on screen.
    pub current_path: Option<Seq<char>>,
}

impl ImageListState {
    /// The image at the current path, where there is one.
    pub open spec fn current_image(self) -> Option<ImageState> {
        match self.current_path {
            Some(p) => if self.images.contains_key(p) {
                Some(self.images[p])
            } else {
                None
            },
            None => None,
        }
    }
}

/// Where and how the current image is to be written.
#[derive(Debug)]
pub struct SaveTarget {
    pub path: String,
    pub file_type: FileType,
    /// Whether the history is dropped once the file is written.
    pub clear_operations: bool,
}

/// Why the current image cannot be saved.
#[derive(Clone, Copy, Debug, PartialEq, Eq, Structural)]
pub enum ImageListError {
    MissingCurrentImagePath,
    MissingCurrentImage,
    Image(ImageError),
}

impl ImageListError {
    /// A sentence for the user.
    pub fn message(&self) -> (r: &'static str)
        ensures
            r@ == match self {
                ImageListError::MissingCurrentImagePath => "Current image path is not set"@,
                ImageListError::MissingCurrentImage => "Couldn't load current image"@,
                ImageListError::Image(e) => e.message_text(),
            },
    {
        match self {
            ImageListError::MissingCurrentImagePath => "Current image path is not set",
            ImageListError::MissingCurrentImage => "Couldn't load current image",
            ImageListError::Image(e) => e.message(),
        }
    }
}

/// The open images by path, one of them current.
pub struct ImageList {
    images: Vec<(String, Image)>,
    current_image_path: Option<String>,
}

impl View for ImageList {
    type V = ImageListState;

    closed spec fn view(&self) -> ImageListState {
        ImageListState {
            images: image_map(self.images@),
            current_path: match self.current_image_path {
                Some(p) => Some(p@),
                None => None,
            },
        }
    }
}

impl ImageList {
    /// Paths are unique and every image is well formed.
    pub closed spec fn wf(&self) -> bool {
        &&& unique_keys(self.images@)
        &&& forall|i: int| 0 <= i < self.images@.len() ==> (#[trigger] self.images@[i]).1.wf()
    }

    pub fn new() -> (r: ImageList)
        ensures
            r.wf(),
            r@.images == Map::<Seq<char>, ImageState>::empty(),
            r@.current_path is None,
    {
        let r = ImageList { images: Vec::new(), current_image_path: None };
        assert(r@.images =~= Map::<Seq<char>, ImageState>::empty());
        r
    }

    fn position(&self, key: &String) -> (r: Option<usize>)
        requires
            self.wf(),
        ensures
            r matches Some(i) ==> i < self.images@.len() && self.images@[i as int].0@ == key@,
            r is None ==> !has_key(self.images@, key@),
    {
        let mut i: usize = 0;
        while i < self.images.len()
            invariant
                i <= self.images@.len(),
                forall|j: int| 0 <= j < i ==> self.images@[j].0@ != key@,
            decreases self.images@.len() - i,
        {
            if self.images[i].0 == *key {
                return Some(i);
            }
            i = i + 1;
        }
        None
    }

    /// Takes the image stored under `key` out of the list.
    pub fn remove(&mut self, key: &String) -> (r: Option<Image>)
        requires
            old(self).wf(),
        ensures
            final(self).wf(),
            final(self)@.images == old(self)@.images.remove(key@),
            final(self)@.current_path == old(self)@.current_path,
            match r {
                Some(image) => old(self)@.images.contains_key(key@) && image@ == old(
                    self,
                )@.images[key@] && image.wf(),
                None => !old(self)@.images.contains_key(key@),
            },
    {
        match self.position(key) {
            Some(i) => {
                let ghost before = self.images@;
                proof {
                    lemma_entry(before, i as int);
                    lemma_remove(before, i as int);
                }
                let (_, image) = self.images.remove(i);
                assert(self.images@ =~= before.remove(i as int));
                assert forall|j: int| 0 <= j < self.images@.len() implies (
                #[trigger] self.images@[j]).1.wf() by {
                    if j < i {
                        assert(before[j].1.wf());
                    } else {
                        assert(before[j + 1].1.wf());
                    }
                }
                Some(image)
            },
            None => {
                assert(self@.images.remove(key@) =~= self@.images);
                None
            },
        }
    }

    /// Stores `value` under `key`, in place of any image stored there.
    pub fn insert(&mut self, key: String, value: Image)
        requires
            old(self).wf(),
            value.wf(),
        ensures
            final(self).wf(),
            final(self)@.images == old(self)@.images.insert(key@, value@),
            final(self)@.current_path == old(self)@.current_path,
    {
        let ghost before = self.images@;
        match self.position(&key) {
            Some(i) => {
                proof {
                    lemma_update(before, i as int, (key, value));
                }
                self.images.set(i, (key, value));
                assert(self.images@ =~= before.update(i as int, (key, value)));
            },
            None => {
                proof {
                    lemma_push(before, (key, value));
                }
                self.images.push((key, value));
            },
        }
    }

    pub fn set_current_image_path(&mut self, current_image_path: Option<String>)
        requires
            old(self).wf(),
        ensures
            final(self).wf(),
            final(self)@.images == old(self)@.images,
            final(self)@.current_path == match current_image_path {
                Some(p) => Some(p@),
                None => None,
            },
    {
        self.current_image_path = current_image_path;
    }

    /// Takes the image at the current path out of the list.
    pub fn remove_current_image(&mut self) -> (r: Option<Image>)
        requires
            old(self).wf(),
        ensures
            final(self).wf(),
            final(self)@.current_path == old(self)@.current_path,
            match old(self)@.current_path {
                Some(p) => final(self)@.images == old(self)@.images.remove(p),
                None => final(self)@.images == old(self)@.images,
            },
            match r {
                Some(image) => old(self)@.current_image() == Some(image@) && image.wf(),
                None => old(self)@.current_image() is None,
            },
    {
        match self.current_image_path.clone() {
            Some(path) => self.remove(&path),
            None => None,
        }
    }

    /// Drops the current image from the list once its file was moved to the
    /// trash, and gives the name to show for it; `None` where there is no
    /// current image. The current path is left as it is.
    pub fn delete_current_image(&mut self) -> (r: Option<String>)
        requires
            old(self).wf(),
        ensures
            final(self).wf(),
            final(self)@.current_path == old(self)@.current_path,
            match old(self)@.current_path {
                Some(p) => final(self)@.images == old(self)@.images.remove(p),
                None => final(self)@.images == old(self)@.images,
            },
            match r {
                Some(name) => old(self)@.current_image() is Some && name@ == display_name_of(
                    old(self)@.current_path->0,
                ),
                None => old(self)@.current_image() is None,
            },
    {
        let path = match &self.current_image_path {
            Some(path) => path.clone(),
            None => return None,
        };
        match self.remove(&path) {
            Some(_) => match path_file_name(path.as_str()) {
                Some(name) => Some(name),
                None => Some(String::new()),
            },
            None => None,
        }
    }

    /// The image at the current path, lent for editing in place.
    pub fn current_image_mut(&mut self) -> (r: Option<&mut Image>)
        requires
            old(self).wf(),
        ensures
            final(self)@.current_path == old(self)@.current_path,
            match r {
                Some(image) => {
                    &&& old(self)@.current_image() == Some(image@)
                    &&& image.wf()
                    &&& final(self)@.images == old(self)@.images.insert(
                        old(self)@.current_path->0,
                        final(image)@,
                    )
                    &&& final(image).wf() ==> final(self).wf()
                },
                None => {
                    &&& old(self)@.current_image() is None
                    &&& final(self)@ == old(self)@
                    &&& final(self).wf()
                },
            },
    {
        let path = match &self.current_image_path {
            Some(path) => path.clone(),
            None => return None,
        };
        match self.position(&path) {
            Some(i) => {
                let ghost before = self.images@;
                proof {
                    lemma_entry(before, i as int);
                }
                let entry = &mut self.images[i];
                let image = &mut entry.1;
                proof {
                    lemma_update(before, i as int, (before[i as int].0, *final(image)));
                }
                Some(image)
            },
            None => None,
        }
    }

    /// The image at the current path, where there is one.
    pub fn current_image(&self) -> (r: Option<&Image>)
        requires
            self.wf(),
        ensures
            match r {
                Some(image) => self@.current_image() == Some(image@) && image.wf(),
                None => self@.current_image() is None,
            },
    {
        match &self.current_image_path {
            Some(path) => match self.position(path) {
                Some(i) => {
                    proof {
                        lemma_entry(self.images@, i as int);
                    }
                    Some(&self.images[i].1)
                },
                None => None,
            },
            None => None,
        }
    }

    pub fn current_image_path(&self) -> (r: Option<String>)
        ensures
            match r {
                Some(p) => self@.current_path == Some(p@),
                None => self@.current_path is None,
            },
    {
        self.current_image_path.clone()
    }

    /// Where and how to write the current image: to `filename` keeping the
    /// history, or, without one, over the file at the current path dropping
    /// the history. The current path is left as it is.
    pub fn save_current_image(&self, filename: Option<String>) -> (r: Result<
        SaveTarget,
        ImageListError,
    >)
        requires
            self.wf(),
        ensures
            filename is None && self@.current_path is None ==> r == Err::<
                SaveTarget,
                ImageListError,
            >(ImageListError::MissingCurrentImagePath),
            !(filename is None && self@.current_path is None) && self@.current_image() is None
                ==> r == Err::<SaveTarget, ImageListError>(
                ImageListError::MissingCurrentImage,
            ),
            self@.current_image() matches Some(image) ==> {
                let path = match filename {
                    Some(f) => f@,
                    None => self@.current_path->0,
                };
                match r {
                    Ok(target) => {
                        &&& image.current is Some
                        &&& file_type_of_path(path) == Some(target.file_type)
                        &&& target.path@ == path
                        &&& target.clear_operations == (filename is None)
                    },
                    Err(e) => if image.current is None {
                        e == ImageListError::Image(ImageError::MissingImageBuffer)
                    } else {
                        file_type_of_path(path) is None && e == ImageListError::Image(
                            ImageError::MissingFileExtension,
                        )
                    },
                }
            },
    {
        let (path, clear_operations) = match filename {
            Some(f) => (f, false),
            None => match &self.current_image_path {
                Some(p) => (p.clone(), true),
                None => return Err(ImageListError::MissingCurrentImagePath),
            },
        };
        let image = match self.current_image() {
            Some(image) => image,
            None => return Err(ImageListError::MissingCurrentImage),
        };
        match image.save_file_type(path.as_str()) {
            Ok(file_type) => Ok(SaveTarget { path, file_type, clear_operations }),
            Err(e) => Err(ImageListError::Image(e)),
        }
    }

    /// Records that the current image was written to a file, as
    /// `Image::finish_save` does.
    pub fn finish_current_save(&mut self, clear_operations: bool)
        requires
            old(self).wf(),
        ensures
            final(self).wf(),
            final(self)@.current_path == old(self)@.current_path,
            match old(self)@.current_image() {
                Some(image) => final(self)@.images == old(self)@.images.insert(
                    old(self)@.current_path->0,
                    image.after_save(clear_operations),
                ),
                None => final(self)@.images == old(self)@.images,
            },
    {
        let path = match &self.current_image_path {
            Some(p) => p.clone(),
            None => return,
        };
        if let Some(i) = self.position(&path) {
            let ghost before = self.images@;
            proof {
                lemma_entry(before, i as int);
            }
            let (key, mut image) = self.images.remove(i);
            assert(before[i as int].1.wf());
            image.finish_save(clear_operations);
            self.images.insert(i, (key, image));
            proof {
                assert(self.images@ =~= before.update(i as int, (key, image)));
                lemma_update(before, i as int, (key, image));
            }
        }
    }
}

} // verus!
