use image_roll::{DirectoryEntry, FileList, FileListError, FileLocation};

fn image(name: &str) -> DirectoryEntry {
    DirectoryEntry {
        name: String::from(name),
        is_regular_file: true,
        content_type: Some(String::from("image/png")),
    }
}

fn text(name: &str) -> DirectoryEntry {
    DirectoryEntry {
        name: String::from(name),
        is_regular_file: true,
        content_type: Some(String::from("text/plain")),
    }
}

fn location(name: &str) -> Option<FileLocation> {
    Some(FileLocation { folder: String::from("test/folder"), name: String::from(name) })
}

fn current_name(file_list: &FileList) -> Option<String> {
    file_list.current_file().cloned()
}

#[test]
fn file_list_contains_image_files() {
    let file_list = FileList::new(location("test.png"), vec![image("test.png"), image("tes2.png")])
        .unwrap();
    assert_eq!(2, file_list.len());
}

#[test]
fn file_list_does_not_contain_other_files() {
    let file_list = FileList::new(
        location("test.png"),
        vec![image("test.png"), image("test2.png"), text("test.txt")],
    )
    .unwrap();
    assert_eq!(2, file_list.len());
}

#[test]
fn file_list_contains_images_without_extension() {
    let file_list = FileList::new(location("test"), vec![image("test"), image("test2")]).unwrap();
    assert_eq!(2, file_list.len());
}

#[test]
fn file_list_does_not_contain_other_files_without_extension() {
    let file_list = FileList::new(
        location("test"),
        vec![image("test"), image("test2"), text("testtxt")],
    )
    .unwrap();
    assert_eq!(2, file_list.len());
}

#[test]
fn directories_and_untyped_files_are_left_out() {
    let directory = DirectoryEntry {
        name: String::from("folder"),
        is_regular_file: false,
        content_type: Some(String::from("image/png")),
    };
    let untyped = DirectoryEntry {
        name: String::from("blob"),
        is_regular_file: true,
        content_type: None,
    };
    let short = DirectoryEntry {
        name: String::from("short"),
        is_regular_file: true,
        content_type: Some(String::from("imag")),
    };
    let file_list =
        FileList::new(location("a.png"), vec![directory, untyped, short, image("a.png")]).unwrap();
    assert_eq!(1, file_list.len());
}

#[test]
fn file_list_is_in_alphabetical_order() {
    let alphabet: Vec<char> =
        "abcdefghijklmnopqrstuvwxyzABCDEFGHIJKLMNOPQRSTUVWXYZ0123456789".chars().collect();
    let mut seed: u64 = 12345;
    let mut random_file_names: Vec<String> = Vec::new();
    for _ in 0..100 {
        let mut name = String::new();
        for _ in 0..10 {
            seed = seed.wrapping_mul(6364136223846793005).wrapping_add(1442695040888963407);
            name.push(alphabet[((seed >> 33) % alphabet.len() as u64) as usize]);
        }
        random_file_names.push(format!("{}.{}", name, "png"));
    }
    let entries: Vec<DirectoryEntry> = random_file_names.iter().map(|name| image(name)).collect();
    random_file_names.sort();

    let mut file_list = FileList::new(location(&random_file_names[0]), entries).unwrap();

    assert_eq!(100, file_list.len());

    for file_name in random_file_names.iter() {
        assert_eq!(Some(file_name.clone()), current_name(&file_list));
        file_list.next();
    }
}

#[test]
fn refresh_file_list_loads_new_images() {
    let mut file_list = FileList::new(location("test.png"), vec![image("test.png")]).unwrap();
    assert_eq!(1, file_list.len());

    file_list.refresh(Some(vec![image("test.png"), image("test2.png")]));

    assert_eq!(2, file_list.len());
}

#[test]
fn refresh_file_list_removes_deleted_images() {
    let mut file_list =
        FileList::new(location("test.png"), vec![image("test.png"), image("test2.png")]).unwrap();
    assert_eq!(2, file_list.len());

    file_list.refresh(Some(vec![image("test.png")]));

    assert_eq!(1, file_list.len());
}

#[test]
fn test_change_to_next_image() {
    let mut empty_file_list = FileList::new(None, Vec::new()).unwrap();
    assert!(empty_file_list.current_file().is_none());
    empty_file_list.next();
    assert!(empty_file_list.current_file().is_none());

    let entries = vec![image("test1.png"), image("test2.png"), image("test3.png")];
    let mut file_list = FileList::new(location("test2.png"), entries).unwrap();

    file_list.next();
    assert_eq!(Some(String::from("test3.png")), current_name(&file_list));

    file_list.next();
    assert_eq!(Some(String::from("test1.png")), current_name(&file_list));
}

#[test]
fn test_change_to_previous_image() {
    let mut empty_file_list = FileList::new(None, Vec::new()).unwrap();
    assert!(empty_file_list.current_file().is_none());
    empty_file_list.previous();
    assert!(empty_file_list.current_file().is_none());

    let entries = vec![image("test1.png"), image("test2.png"), image("test3.png")];
    let mut file_list = FileList::new(location("test2.png"), entries).unwrap();

    file_list.previous();
    assert_eq!(Some(String::from("test1.png")), current_name(&file_list));

    file_list.previous();
    assert_eq!(Some(String::from("test3.png")), current_name(&file_list));
}

#[test]
fn refresh_keeps_the_selected_file() {
    let entries = vec![image("B.png"), image("C.png"), image("A.png")];
    let mut file_list = FileList::new(location("B.png"), entries).unwrap();
    assert_eq!(Some(String::from("B.png")), current_name(&file_list));

    file_list.refresh(Some(vec![image("D.png"), image("0.png"), image("B.png"), image("C.png")]));
    assert_eq!(Some(String::from("B.png")), current_name(&file_list));
    assert_eq!(4, file_list.len());

    file_list.refresh(Some(vec![image("D.png"), image("0.png"), image("C.png")]));
    assert_eq!(Some(String::from("D.png")), current_name(&file_list));
    assert_eq!(3, file_list.len());
}

#[test]
fn refresh_after_removing_the_last_file_wraps_around() {
    let entries = vec![image("A.png"), image("B.png"), image("C.png")];
    let mut file_list = FileList::new(location("C.png"), entries).unwrap();
    file_list.refresh(Some(vec![image("A.png"), image("B.png")]));
    assert_eq!(Some(String::from("A.png")), current_name(&file_list));
}

#[test]
fn refresh_of_a_vanished_folder_empties_the_list() {
    let entries = vec![image("A.png"), image("B.png")];
    let mut file_list = FileList::new(location("A.png"), entries).unwrap();
    file_list.refresh(None);
    assert_eq!(0, file_list.len());
    assert!(file_list.current_file().is_none());
    assert!(file_list.current_file_path().is_none());
    file_list.refresh(Some(vec![image("A.png")]));
    assert_eq!(0, file_list.len());
}

#[test]
fn refresh_of_an_emptied_folder_clears_the_selection() {
    let mut file_list = FileList::new(location("A.png"), vec![image("A.png")]).unwrap();
    file_list.refresh(Some(vec![text("notes.txt")]));
    assert_eq!(0, file_list.len());
    assert!(file_list.current_file().is_none());
    file_list.refresh(Some(vec![image("Z.png")]));
    assert_eq!(Some(String::from("Z.png")), current_name(&file_list));
}

#[test]
fn starting_file_must_be_an_image_of_the_folder() {
    let result = FileList::new(location("missing.png"), vec![image("A.png")]);
    assert_eq!(result.err(), Some(FileListError::FileNotFound));
    let result = FileList::new(location("notes.txt"), vec![text("notes.txt")]);
    assert_eq!(result.err(), Some(FileListError::FileNotFound));
}

#[test]
fn current_file_path_joins_folder_and_name() {
    let file_list = FileList::new(location("A.png"), vec![image("A.png")]).unwrap();
    assert_eq!(file_list.current_file_path(), Some(String::from("test/folder/A.png")));
}

#[test]
fn names_sort_by_byte_order() {
    let entries = vec![image("b.png"), image("B.png"), image("a.png"), image("ab.png"), image("a")];
    let mut file_list = FileList::new(location("B.png"), entries).unwrap();
    let mut order = Vec::new();
    for _ in 0..5 {
        order.push(current_name(&file_list).unwrap());
        file_list.next();
    }
    assert_eq!(order, vec!["B.png", "a", "a.png", "ab.png", "b.png"]);
}
