use thebook::link::{open_target, replace_source_dir, same_chars};

fn chars(s: &str) -> Vec<char> {
    s.chars().collect()
}

#[test]
fn a_built_page_is_opened_as_it_is() {
    assert_eq!(
        open_target("/home/u/thebook/book/book/index.html"),
        "/home/u/thebook/book/book/index.html"
    );
    assert_eq!(open_target("/home/u/src/page.html"), "/home/u/src/page.html");
    assert_eq!(open_target(".html"), ".html");
}

#[test]
fn a_source_file_is_opened_as_its_built_page() {
    assert_eq!(
        open_target("/home/u/thebook/book/src/ch04/ownership.md"),
        "/home/u/thebook/book/book/ch04/ownership.html"
    );
    assert_eq!(open_target("src/x.md"), "book/x.html");
}

#[test]
fn only_whole_segments_are_replaced() {
    assert_eq!(open_target("/a/srcs/x.md"), "/a/srcs/x.html");
    assert_eq!(open_target("/a/my_src/x.md"), "/a/my_src/x.html");
    assert_eq!(open_target("/a/src.d/src.md"), "/a/src.d/src.html");
    assert_eq!(open_target("/a/src/src/b.md"), "/a/book/book/b.html");
    assert_eq!(open_target("src"), "book");
    assert_eq!(open_target("/src/"), "/book/");
    assert_eq!(open_target("a.md/src"), "a.md/book");
    assert_eq!(open_target("SRC/x.md"), "SRC/x.html");
}

#[test]
fn only_a_final_md_is_replaced() {
    assert_eq!(open_target("/src/notes.md.bak"), "/book/notes.md.bak");
    assert_eq!(open_target("/src/a.md/b.md"), "/book/a.md/b.html");
    assert_eq!(open_target("x.html.md"), "x.html.html");
    assert_eq!(open_target("notes.MD"), "notes.MD");
    assert_eq!(open_target(".md"), ".html");
    assert_eq!(open_target("md"), "md");
}

#[test]
fn edge_paths() {
    assert_eq!(open_target(""), "");
    assert_eq!(open_target("/"), "/");
    assert_eq!(open_target("//"), "//");
    assert_eq!(open_target("src//src"), "book//book");
    assert_eq!(replace_source_dir(&chars("/src/é/src")), chars("/book/é/book"));
}

#[test]
fn same_chars_compares_whole_vectors() {
    assert!(same_chars(&chars("src"), &chars("src")));
    assert!(!same_chars(&chars("src"), &chars("srcs")));
    assert!(!same_chars(&chars("src"), &chars("srd")));
    assert!(same_chars(&chars(""), &chars("")));
}
