use vstd::prelude::*;
use vstd::utf8::encode_utf8;

verus! {

broadcast use vstd::seq_lib::group_to_multiset_ensures;

/// Byte-wise lexicographic order from position `i` on: `a` comes no later
/// than `b`.
pub open spec fn bytes_le_from(a: Seq<u8>, b: Seq<u8>, i: int) -> bool
    decreases a.len() - i,
{
    if i >= a.len() {
        true
    } else if i >= b.len() {
        false
    } else if a[i] != b[i] {
        a[i] < b[i]
    } else {
        bytes_le_from(a, b, i + 1)
    }
}

/// File names are ordered by the lexicographic order of their UTF-8 bytes,
/// the order of `str`.
pub open spec fn name_le(a: Seq<char>, b: Seq<char>) -> bool {
    bytes_le_from(encode_utf8(a), encode_utf8(b), 0)
}

pub open spec fn sorted_names(names: Seq<Seq<char>>) -> bool {
    forall|i: int, j: int| 0 <= i < j < names.len() ==> name_le(#[trigger] names[i], #[trigger] names[j])
}

/// The characters of each string.
pub open spec fn names(strings: Seq<String>) -> Seq<Seq<char>> {
    strings.map_values(|s: String| s@)
}

/// One entry of a directory listing.
#[derive(Debug)]
pub struct DirectoryEntry {
    /// The file name, without the directory.
    pub name: String,
    /// Whether the entry is a regular file.
    pub is_regular_file: bool,
    /// The guessed content type, such as `image/png`.
    pub content_type: Option<String>,
}

/// The content type begins with the bytes of "image" (105, 109, 97, 103,
/// 101).
pub open spec fn is_image_content_type(content_type: Seq<char>) -> bool {
    let b = encode_utf8(content_type);
    b.len() >= 5 && b[0] == 105 && b[1] == 109 && b[2] == 97 && b[3] == 103 && b[4] == 101
}

/// A regular file whose content type is an image type.
pub open spec fn is_image_entry(entry: DirectoryEntry) -> bool {
    entry.is_regular_file && (entry.content_type matches Some(t) && is_image_content_type(t@))
}

/// The names of the image files of a listing, in listing order.
pub open spec fn image_names(entries: Seq<DirectoryEntry>) -> Seq<Seq<char>>
    decreases entries.len(),
{
    if entries.len() == 0 {
        Seq::empty()
    } else {
        let rest = image_names(entries.drop_last());
        if is_image_entry(entries.last()) {
            rest.push(entries.last().name@)
        } else {
            rest
        }
    }
}

pub open spec fn is_first_index(s: Seq<Seq<char>>, x: Seq<char>, i: int) -> bool {
    0 <= i < s.len() && s[i] == x && forall|j: int| 0 <= j < i ==> s[j] != x
}

/// Where `x` first occurs in `s`.
pub open spec fn first_index(s: Seq<Seq<char>>, x: Seq<char>) -> Option<int> {
    if exists|i: int| is_first_index(s, x, i) {
        Some(choose|i: int| is_first_index(s, x, i))
    } else {
        None
    }
}

/// The selection after moving forward, wrapping from the last file to the
/// first.
pub open spec fn next_index(current: Option<int>, len: int) -> Option<int> {
    if len == 0 {
        None
    } else {
        match current {
            Some(i) => if i + 1 < len {
                Some(i + 1)
            } else {
                Some(0)
            },
            None => Some(0),
        }
    }
}

/// The selection after moving back, wrapping from the first file to the
/// last.
pub open spec fn previous_index(current: Option<int>, len: int) -> Option<int> {
    if len == 0 {
        None
    } else {
        match current {
            Some(i) => if i > 0 {
                Some(i - 1)
            } else {
                Some(len - 1)
            },
            None => Some(0),
        }
    }
}

/// The image files of one directory as a mathematical value.
pub struct FileListState {
    /// File names, sorted.
    pub files: Seq<Seq<char>>,
    /// Index of the selected file.
    pub current: Option<int>,
    /// The directory listed; `None` when the list is inert.
    pub folder: Option<Seq<char>>,
}

impl FileListState {
    /// The selection always is a file of the list, and there is one whenever
    /// the list is not empty.
    pub open spec fn wf(self) -> bool {
        &&& sorted_names(self.files)
        &&& self.current matches Some(i) ==> 0 <= i < self.files.len() && self.folder is Some
        &&& self.current is None <==> self.files.len() == 0
    }

    pub open spec fn moved_next(self) -> FileListState {
        if self.folder is Some {
            FileListState { current: next_index(self.current, self.files.len() as int), ..self }
        } else {
            self
        }
    }

    pub open spec fn moved_previous(self) -> FileListState {
        if self.folder is Some {
            FileListState { current: previous_index(self.current, self.files.len() as int), ..self }
        } else {
            self
        }
    }

    /// The selection in a new listing `files`: the same file where it is
    /// still there, else the one after its old place.
    pub open spec fn reselect(self, files: Seq<Seq<char>>) -> Option<int> {
        match self.current {
            Some(i) => match first_index(files, self.files[i]) {
                Some(j) => Some(j),
                None => next_index(Some(i), files.len() as int),
            },
            None => next_index(None, files.len() as int),
        }
    }
}

proof fn lemma_first_index_exists(s: Seq<Seq<char>>, x: Seq<char>, k: int)
    requires
        0 <= k < s.len(),
        s[k] == x,
    ensures
        first_index(s, x) matches Some(j) && is_first_index(s, x, j),
    decreases k,
{
    if exists|j: int| 0 <= j < k && s[j] == x {
        let j = choose|j: int| 0 <= j < k && s[j] == x;
        lemma_first_index_exists(s, x, j);
    } else {
        assert(is_first_index(s, x, k));
    }
}

/// Navigation is cyclic: forward from the last file selects the first, back
/// from the first selects the last, and a step forward followed by a step
/// back, or the reverse, returns to the same file.
pub proof fn navigation_is_cyclic(s: FileListState)
    requires
        s.wf(),
        s.folder is Some,
    ensures
        s.files.len() > 0 && s.current == Some(s.files.len() - 1) ==> s.moved_next().current == Some(
            0int,
        ),
        s.files.len() > 0 && s.current == Some(0int) ==> s.moved_previous().current == Some(
            s.files.len() - 1,
        ),
        s.moved_next().moved_previous() == s,
        s.moved_previous().moved_next() == s,
        s.moved_next().wf(),
        s.moved_previous().wf(),
{
}

/// A refresh keeps the selected file selected wherever the new listing still
/// holds it, though its index may change; where it is gone, some file of the
/// new listing is selected unless that listing holds no image.
pub proof fn refresh_keeps_selection(
    s: FileListState,
    entries: Seq<DirectoryEntry>,
    files: Seq<Seq<char>>,
)
    requires
        s.wf(),
        s.current is Some,
        files.to_multiset() == image_names(entries).to_multiset(),
    ensures
        image_names(entries).contains(s.files[s.current->0]) ==> (s.reselect(files) matches Some(
            j,
        ) && 0 <= j < files.len() && files[j] == s.files[s.current->0]),
        image_names(entries).len() > 0 ==> (s.reselect(files) matches Some(j) && 0 <= j
            < files.len()),
        image_names(entries).len() == 0 ==> s.reselect(files) is None,
{
    let name = s.files[s.current->0];
    vstd::seq_lib::to_multiset_len(files);
    vstd::seq_lib::to_multiset_len(image_names(entries));
    assert(files.len() == image_names(entries).len());
    if image_names(entries).contains(name) {
        assert(image_names(entries).to_multiset().count(name) > 0);
        assert(files.to_multiset().count(name) > 0);
        assert(files.contains(name));
        let k = choose|k: int| 0 <= k < files.len() && files[k] == name;
        lemma_first_index_exists(files, name, k);
    }
    if let Some(j) = first_index(files, name) {
        assert(exists|i: int| is_first_index(files, name, i));
    }
}

/// Where the file named `name` lies in the directory `folder`.
#[derive(Debug)]
pub struct FileLocation {
    pub folder: String,
    pub name: String,
}

/// The path of `name` inside `folder`, as `std::path::Path::join` makes it.
pub uninterp spec fn joined_path(folder: Seq<char>, name: Seq<char>) -> Seq<char>;

/// Relies on `std::path::Path::join`: the path of `name` inside `folder`.
#[verifier::external_body]
fn join_path(folder: &str, name: &str) -> (r: String)
    ensures
        r@ == joined_path(folder@, name@),
{
    std::path::Path::new(folder).join(name).to_string_lossy().into_owned()
}

proof fn lemma_le_total(a: Seq<u8>, b: Seq<u8>, i: int)
    requires
        0 <= i,
    ensures
        bytes_le_from(a, b, i) || bytes_le_from(b, a, i),
    decreases a.len() - i,
{
    if i < a.len() && i < b.len() && a[i] == b[i] {
        lemma_le_total(a, b, i + 1);
    }
}

proof fn lemma_le_trans(a: Seq<u8>, b: Seq<u8>, c: Seq<u8>, i: int)
    requires
        0 <= i,
        bytes_le_from(a, b, i),
        bytes_le_from(b, c, i),
    ensures
        bytes_le_from(a, c, i),
    decreases a.len() - i,
{
    if i < a.len() && i < b.len() && i < c.len() && a[i] == b[i] && b[i] == c[i] {
        lemma_le_trans(a, b, c, i + 1);
    }
}

/// Whether file name `a` comes no later than `b`.
fn name_precedes(a: &String, b: &String) -> (r: bool)
    ensures
        r == name_le(a@, b@),
{
    let x = a.as_str().as_bytes();
    let y = b.as_str().as_bytes();
    let mut i: usize = 0;
    while i < x.len() && i < y.len()
        invariant
            x@ == encode_utf8(a@),
            y@ == encode_utf8(b@),
            i <= x@.len(),
            i <= y@.len(),
            name_le(a@, b@) == bytes_le_from(x@, y@, i as int),
        decreases x@.len() - i,
    {
        if x[i] != y[i] {
            return x[i] < y[i];
        }
        i = i + 1;
    }
    i >= x.len()
}

fn is_image_content(content_type: &String) -> (r: bool)
    ensures
        r == is_image_content_type(content_type@),
{
    let b = content_type.as_str().as_bytes();
    b.len() >= 5 && b[0] == 105 && b[1] == 109 && b[2] == 97 && b[3] == 103 && b[4] == 101
}

fn is_image_file(entry: &DirectoryEntry) -> (r: bool)
    ensures
        r == is_image_entry(*entry),
{
    if !entry.is_regular_file {
        return false;
    }
    match &entry.content_type {
        Some(content_type) => is_image_content(content_type),
        None => false,
    }
}

/// The names of the image files of a listing, in listing order.
fn image_file_names(entries: &Vec<DirectoryEntry>) -> (r: Vec<String>)
    ensures
        names(r@) == image_names(entries@),
{
    let mut result: Vec<String> = Vec::new();
    let mut i: usize = 0;
    assert(entries@.take(0) =~= Seq::<DirectoryEntry>::empty());
    assert(names(result@) =~= Seq::<Seq<char>>::empty());
    while i < entries.len()
        invariant
            i <= entries.len(),
            names(result@) == image_names(entries@.take(i as int)),
        decreases entries.len() - i,
    {
        assert(entries@.take(i + 1).drop_last() =~= entries@.take(i as int));
        if is_image_file(&entries[i]) {
            let ghost before = result@;
            result.push(entries[i].name.clone());
            assert(names(result@) =~= names(before).push(entries@[i as int].name@));
        }
        i = i + 1;
    }
    assert(entries@.take(entries.len() as int) =~= entries@);
    result
}

/// The same names, sorted.
fn sort_names(v: Vec<String>) -> (r: Vec<String>)
    ensures
        sorted_names(names(r@)),
        names(r@).to_multiset() == names(v@).to_multiset(),
{
    let mut result: Vec<String> = Vec::new();
    let mut i: usize = 0;
    assert(names(v@.take(0)) =~= Seq::<Seq<char>>::empty());
    assert(names(result@) =~= Seq::<Seq<char>>::empty());
    while i < v.len()
        invariant
            i <= v.len(),
            sorted_names(names(result@)),
            names(result@).to_multiset() == names(v@.take(i as int)).to_multiset(),
        decreases v.len() - i,
    {
        let name = v[i].clone();
        let mut p: usize = 0;
        while p < result.len()
            invariant
                p <= result.len(),
                forall|j: int| 0 <= j < p ==> name_le(#[trigger] names(result@)[j], name@),
            ensures
                p <= result.len(),
                forall|j: int| 0 <= j < p ==> name_le(#[trigger] names(result@)[j], name@),
                p < result.len() ==> !name_le(names(result@)[p as int], name@),
            decreases result.len() - p,
        {
            if !name_precedes(&result[p], &name) {
                break;
            }
            p = p + 1;
        }
        let ghost s = names(result@);
        proof {
            if p < result.len() {
                lemma_le_total(encode_utf8(s[p as int]), encode_utf8(name@), 0);
            }
        }
        result.insert(p, name);
        proof {
            let s2 = names(result@);
            assert(s2 =~= s.insert(p as int, name@));
            assert forall|a: int, b: int| 0 <= a < b < s2.len() implies name_le(
                #[trigger] s2[a],
                #[trigger] s2[b],
            ) by {
                if a < p && b == p {
                } else if a < p && b > p {
                    assert(name_le(s[a], s[b - 1]));
                } else if a == p && b - 1 > p {
                    assert(name_le(s[p as int], s[b - 1]));
                    lemma_le_trans(
                        encode_utf8(name@),
                        encode_utf8(s[p as int]),
                        encode_utf8(s[b - 1]),
                        0,
                    );
                } else if a == p {
                } else if a > p {
                    assert(name_le(s[a - 1], s[b - 1]));
                } else {
                    assert(name_le(s[a], s[b]));
                }
            }
            assert(names(v@.take(i + 1)) =~= names(v@.take(i as int)).push(v@[i as int]@));
        }
        i = i + 1;
    }
    assert(v@.take(v.len() as int) =~= v@);
    result
}

/// Where `name` first occurs in `files`.
fn find_name(files: &Vec<String>, name: &String) -> (r: Option<usize>)
    ensures
        r matches Some(i) ==> first_index(names(files@), name@) == Some(i as int),
        r is None ==> first_index(names(files@), name@) is None,
        r is None ==> !names(files@).contains(name@),
{
    let ghost s = names(files@);
    let mut i: usize = 0;
    while i < files.len()
        invariant
            i <= files.len(),
            s == names(files@),
            forall|j: int| 0 <= j < i ==> s[j] != name@,
        decreases files.len() - i,
    {
        if files[i] == *name {
            proof {
                assert(is_first_index(s, name@, i as int));
                let c = choose|c: int| is_first_index(s, name@, c);
                assert(c == i) by {
                    if c < i {
                        assert(s[c] != name@);
                    } else if c > i {
                        assert(s[i as int] != name@);
                    }
                }
            }
            return Some(i);
        }
        i = i + 1;
    }
    None
}

/// Why a file list cannot be made.
#[derive(Clone, Copy, Debug, PartialEq, Eq, Structural)]
pub enum FileListError {
    /// The starting file is not among the image files of its directory.
    FileNotFound,
}

/// The image files of one directory, sorted by name, with a selected file.
pub struct FileList {
    file_list: Vec<String>,
    current_file: Option<usize>,
    current_folder: Option<String>,
}

impl View for FileList {
    type V = FileListState;

    closed spec fn view(&self) -> FileListState {
        FileListState {
            files: names(self.file_list@),
            current: match self.current_file {
                Some(i) => Some(i as int),
                None => None,
            },
            folder: match self.current_folder {
                Some(f) => Some(f@),
                None => None,
            },
        }
    }
}

impl FileList {
    pub open spec fn wf(&self) -> bool {
        self@.wf()
    }

    /// The list of the image files of the directory of `current_file`, with
    /// that file selected; `entries` is the directory's listing. Without a
    /// starting file the list is empty and inert.
    pub fn new(current_file: Option<FileLocation>, entries: Vec<DirectoryEntry>) -> (r: Result<
        FileList,
        FileListError,
    >)
        ensures
            current_file is None ==> (r matches Ok(l) && l@ == (FileListState {
                files: Seq::empty(),
                current: None,
                folder: None,
            })),
            current_file matches Some(location) ==> (r is Err <==> !image_names(entries@).contains(
                location.name@,
            )),
            current_file matches Some(location) ==> (r matches Ok(l) ==> {
                &&& sorted_names(l@.files)
                &&& l@.files.to_multiset() == image_names(entries@).to_multiset()
                &&& l@.current == first_index(l@.files, location.name@)
                &&& l@.folder == Some(location.folder@)
            }),
            r matches Err(e) ==> e == FileListError::FileNotFound,
            r matches Ok(l) ==> l.wf(),
    {
        match current_file {
            None => {
                let l = FileList { file_list: Vec::new(), current_file: None, current_folder: None };
                assert(l@.files =~= Seq::<Seq<char>>::empty());
                assert(l@ == (FileListState { files: Seq::empty(), current: None, folder: None }));
                Ok(l)
            },
            Some(location) => {
                let file_list = sort_names(image_file_names(&entries));
                match find_name(&file_list, &location.name) {
                    Some(index) => {
                        proof {
                            let s = names(file_list@);
                            assert(exists|i: int| is_first_index(s, location.name@, i));
                            assert(is_first_index(s, location.name@, index as int));
                            assert(s[index as int] == location.name@);
                            assert(s.contains(location.name@));
                            assert(s.to_multiset().count(location.name@) > 0);
                            assert(image_names(entries@).to_multiset().count(location.name@) > 0);
                            assert(image_names(entries@).contains(location.name@));
                        }
                        let l = FileList {
                            file_list,
                            current_file: Some(index),
                            current_folder: Some(location.folder),
                        };
                        Ok(l)
                    },
                    None => {
                        proof {
                            let s = names(file_list@);
                            if image_names(entries@).contains(location.name@) {
                                assert(image_names(entries@).to_multiset().count(location.name@) > 0);
                                assert(s.to_multiset().count(location.name@) > 0);
                                assert(s.contains(location.name@));

                            }
                        }
                        Err(FileListError::FileNotFound)
                    },
                }
            },
        }
    }

    /// Lists the directory again. `entries` is the new listing, `None` where
    /// the directory no longer exists: the list then becomes empty and inert.
    /// The selected file stays selected where it is still there; otherwise the
    /// selection moves on as `next` does from its old place.
    pub fn refresh(&mut self, entries: Option<Vec<DirectoryEntry>>)
        requires
            old(self).wf(),
        ensures
            final(self).wf(),
            old(self)@.folder is None ==> final(self)@ == old(self)@,
            old(self)@.folder is Some && entries is None ==> final(self)@ == (FileListState {
                files: Seq::empty(),
                current: None,
                folder: None,
            }),
            old(self)@.folder is Some ==> (entries matches Some(es) ==> {
                &&& sorted_names(final(self)@.files)
                &&& final(self)@.files.to_multiset() == image_names(es@).to_multiset()
                &&& final(self)@.folder == old(self)@.folder
                &&& final(self)@.current == old(self)@.reselect(final(self)@.files)
            }),
    {
        if self.current_folder.is_none() {
            return;
        }
        match entries {
            None => {
                self.file_list = Vec::new();
                self.current_file = None;
                self.current_folder = None;
                assert(self@.files =~= Seq::<Seq<char>>::empty());
            },
            Some(entries) => {
                let file_list = sort_names(image_file_names(&entries));
                let current = match self.current_file {
                    Some(index) => match find_name(&file_list, &self.file_list[index]) {
                        Some(found) => Some(found),
                        None => Self::next_position(Some(index), file_list.len()),
                    },
                    None => Self::next_position(None, file_list.len()),
                };
                self.file_list = file_list;
                self.current_file = current;
            },
        }
    }

    fn next_position(current: Option<usize>, len: usize) -> (r: Option<usize>)
        ensures
            r matches Some(i) ==> next_index(
                match current {
                    Some(c) => Some(c as int),
                    None => None,
                },
                len as int,
            ) == Some(i as int),
            r is None ==> next_index(
                match current {
                    Some(c) => Some(c as int),
                    None => None,
                },
                len as int,
            ) is None,
    {
        if len == 0 {
            return None;
        }
        match current {
            Some(index) => if index < len - 1 {
                Some(index + 1)
            } else {
                Some(0)
            },
            None => Some(0),
        }
    }

    /// Selects the next file, wrapping from the last to the first.
    pub fn next(&mut self)
        requires
            old(self).wf(),
        ensures
            final(self).wf(),
            final(self)@ == old(self)@.moved_next(),
    {
        if self.current_folder.is_some() {
            self.current_file = Self::next_position(self.current_file, self.file_list.len());
        }
    }

    /// Selects the previous file, wrapping from the first to the last.
    pub fn previous(&mut self)
        requires
            old(self).wf(),
        ensures
            final(self).wf(),
            final(self)@ == old(self)@.moved_previous(),
    {
        if self.current_folder.is_some() {
            let len = self.file_list.len();
            self.current_file = if len == 0 {
                None
            } else {
                match self.current_file {
                    Some(index) => if index > 0 {
                        Some(index - 1)
                    } else {
                        Some(len - 1)
                    },
                    None => Some(0),
                }
            };
        }
    }

    /// The name of the selected file.
    pub fn current_file(&self) -> (r: Option<&String>)
        requires
            self.wf(),
        ensures
            match self@.current {
                Some(i) => r matches Some(name) && name@ == self@.files[i],
                None => r is None,
            },
    {
        match self.current_file {
            Some(index) => Some(&self.file_list[index]),
            None => None,
        }
    }

    /// The path of the selected file.
    pub fn current_file_path(&self) -> (r: Option<String>)
        requires
            self.wf(),
        ensures
            match self@.current {
                Some(i) => r matches Some(path) && path@ == joined_path(
                    self@.folder->0,
                    self@.files[i],
                ),
                None => r is None,
            },
    {
        match (self.current_file, &self.current_folder) {
            (Some(index), Some(folder)) => Some(join_path(folder.as_str(), self.file_list[index].as_str())),
            _ => None,
        }
    }

    /// The number of image files listed.
    pub fn len(&self) -> (r: usize)
        ensures
            r == self@.files.len(),
    {
        self.file_list.len()
    }
}

} // verus!
