use thebook::paths::{
    book_path_from, book_path_of, dir_path_from, dir_path_of, get_book_path, get_dir_path,
    get_files, index_page, listing_file, pages_dir, verify_book, verify_dir, Repair,
};

#[test]
fn the_places_below_a_home_directory() {
    assert_eq!(dir_path_from("/home/alice"), "/home/alice/thebook/");
    assert_eq!(book_path_from("/home/alice"), "/home/alice/thebook/book/");
    assert_eq!(dir_path_from(""), "/thebook/");
    assert_eq!(book_path_from(""), "/thebook/book/");
}

#[test]
fn the_places_for_what_is_known_of_the_home_directory() {
    assert_eq!(dir_path_of(Some("/home/alice".to_string())), Some("/home/alice/thebook/".to_string()));
    assert_eq!(
        book_path_of(Some("/home/alice".to_string())),
        Some("/home/alice/thebook/book/".to_string())
    );
    assert_eq!(dir_path_of(Some(String::new())), Some("/thebook/".to_string()));
    assert_eq!(dir_path_of(None), None);
    assert_eq!(book_path_of(None), None);
}

#[test]
fn the_places_below_the_home_directory_of_the_user() {
    let dir = get_dir_path();
    let book = get_book_path();
    assert_eq!(dir.is_some(), book.is_some());
    if let (Some(dir), Some(book)) = (dir, book) {
        assert!(dir.ends_with("/thebook/"));
        assert_eq!(book, format!("{dir}book/"));
        let home = dir.strip_suffix("/thebook/").unwrap();
        assert_eq!(dir_path_from(home), dir);
        assert_eq!(book_path_from(home), book);
    }
}

#[test]
fn the_places_below_the_root_of_the_book() {
    let root = book_path_from("/home/alice");
    assert_eq!(pages_dir(&root), "/home/alice/thebook/book/src");
    assert_eq!(index_page(&root), "/home/alice/thebook/book/book/index.html");
    assert_eq!(
        listing_file(&root, "listings/ch01/hello.rs"),
        "/home/alice/thebook/book/listings/ch01/hello.rs"
    );
    assert_eq!(listing_file(&root, ""), root);
}

#[test]
fn a_missing_directory_is_to_be_created() {
    match verify_dir("/home/alice/thebook/".to_string(), false) {
        Repair::CreateDir(path) => assert_eq!(path, "/home/alice/thebook/"),
        other => panic!("{other:?}"),
    }
    assert!(matches!(verify_dir("/home/alice/thebook/".to_string(), true), Repair::Nothing));
}

#[test]
fn a_missing_book_is_to_be_fetched() {
    match verify_book("/home/alice/thebook/book/".to_string(), false) {
        Repair::FetchBook(path) => assert_eq!(path, "/home/alice/thebook/book/"),
        other => panic!("{other:?}"),
    }
    assert!(matches!(verify_book("/home/alice/thebook/book/".to_string(), true), Repair::Nothing));
}

#[test]
fn the_pages_are_the_entries_that_end_in_md() {
    let entries: Vec<String> = [
        "/b/src",
        "/b/src/SUMMARY.md",
        "/b/src/ch01.md",
        "/b/src/img",
        "/b/src/img/a.png",
        "/b/src/ch02.md.bak",
        "/b/src/notes.MD",
        "/b/src/.md",
        "/b/src/dir.md/file.rs",
        "/b/src/ch03.md",
        "md",
        "",
    ]
    .iter()
    .map(|e| e.to_string())
    .collect();
    assert_eq!(
        get_files(&entries),
        vec!["/b/src/SUMMARY.md", "/b/src/ch01.md", "/b/src/.md", "/b/src/ch03.md"]
    );
    assert!(get_files(&Vec::new()).is_empty());
}
