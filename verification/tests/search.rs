use thebook::listing::ListingError;
use thebook::search::{
    expand_sections, needed_listings, page_hits, search, search_book, search_hits,
};
use thebook::section::{Listing, Page, Section};

fn page(path: &str, text: &str) -> Page {
    Page { path: path.to_string(), text: text.to_string() }
}

fn listing(path: &str, text: &str) -> Listing {
    Listing { path: path.to_string(), text: text.to_string() }
}

fn words(terms: &[&str]) -> Vec<String> {
    terms.iter().map(|t| t.to_string()).collect()
}

fn book() -> Vec<Page> {
    vec![
        page(
            "/b/src/ch01.md",
            "# Getting Started\nInstall the tools.\n## Hello\nA first program.\n",
        ),
        page(
            "/b/src/ch04/ownership.md",
            "## Ownership Basics\nownership, ownership and ownership.\n",
        ),
        page(
            "/b/src/ch05.md",
            "# Structs\nA struct has ownership of its fields.\n## Methods\nNo mention here.\n## \
             More on ownership\nand borrowing\n",
        ),
    ]
}

fn shape(sections: &[Section]) -> Vec<(String, u128, String)> {
    sections.iter().map(|s| (s.content.clone(), s.mentions, s.link.clone())).collect()
}

#[test]
fn a_term_that_no_page_contains_finds_nothing() {
    let query = words(&["nonexistent_token_xyz"]);
    assert!(search_hits(&book(), &query).is_empty());
    assert_eq!(search_book(&book(), &Vec::new(), &query).map(|s| s.len()), Ok(0));
    assert_eq!(search(&book(), &Vec::new(), &query).map(|s| s.len()), Ok(0));
    assert_eq!(needed_listings(&search_hits(&book(), &query)), Ok(Vec::new()));
}

#[test]
fn an_empty_book_and_an_empty_query_find_nothing() {
    assert!(search_hits(&Vec::new(), &words(&["ownership"])).is_empty());
    assert!(search_hits(&book(), &words(&[])).is_empty());
    assert_eq!(search(&Vec::new(), &Vec::new(), &words(&["a"])).map(|s| s.len()), Ok(0));
}

#[test]
fn the_one_page_on_ownership() {
    let pages = vec![page(
        "/b/src/ch04/ownership.md",
        "## Ownership Basics\nownership, ownership and ownership.\n",
    )];
    let found = search(&pages, &Vec::new(), &words(&["ownership"])).unwrap();
    assert_eq!(
        shape(&found),
        vec![(
            "## Ownership Basics\nownership, ownership and ownership.\n".to_string(),
            45,
            "/b/src/ch04/ownership.md".to_string()
        )]
    );
}

#[test]
fn sections_that_only_share_the_page_do_not_surface() {
    let found = search_hits(&book(), &words(&["ownership"]));
    assert_eq!(
        shape(&found),
        vec![
            (
                "## Ownership Basics\nownership, ownership and ownership.\n".to_string(),
                45,
                "/b/src/ch04/ownership.md".to_string()
            ),
            (
                "# Structs\nA struct has ownership of its fields.".to_string(),
                5,
                "/b/src/ch05.md".to_string()
            ),
            (
                "\n## More on ownership\nand borrowing\n".to_string(),
                25,
                "/b/src/ch05.md".to_string()
            ),
        ]
    );
}

#[test]
fn every_section_that_surfaces_scores_above_one() {
    let queries = [
        words(&["ownership"]),
        words(&["the", "a"]),
        words(&["Hello", "Methods", "ch0"]),
        words(&[""]),
        words(&["#"]),
    ];
    for query in queries {
        let found = search(&book(), &Vec::new(), &query).unwrap();
        for section in &found {
            assert!(section.mentions > 1);
            assert!(section.content.len() > 5);
        }
        for pair in found.windows(2) {
            assert!(pair[0].mentions >= pair[1].mentions);
        }
    }
}

#[test]
fn page_hits_are_the_sections_of_one_page_that_surface() {
    let pages = book();
    let found = page_hits(&pages[2], &words(&["ownership"]));
    assert_eq!(found.len(), 2);
    assert_eq!(found[0].mentions, 5);
    assert_eq!(found[1].mentions, 25);
    assert!(page_hits(&pages[0], &words(&["ownership"])).is_empty());
}

#[test]
fn the_best_section_comes_first_and_ties_keep_the_order_of_the_pages() {
    let found = search(&book(), &Vec::new(), &words(&["ownership", "struct"])).unwrap();
    let scores: Vec<(u128, &str)> = found.iter().map(|s| (s.mentions, s.link.as_str())).collect();
    assert_eq!(
        scores,
        vec![
            (45, "/b/src/ch04/ownership.md"),
            (30, "/b/src/ch05.md"),
            (26, "/b/src/ch05.md"),
            (2, "/b/src/ch05.md"),
        ]
    );
    assert_eq!(found[1].content, "# Structs\nA struct has ownership of its fields.");
    assert_eq!(found[2].content, "\n## More on ownership\nand borrowing\n");
    assert_eq!(found[3].content, "\n## Methods\nNo mention here.");
}

#[test]
fn ties_across_pages_keep_the_order_of_the_pages() {
    let pages = vec![
        page("one.md", "first page on moves"),
        page("two.md", "second page on moves"),
        page("three.md", "third page on moves"),
    ];
    let found = search(&pages, &Vec::new(), &words(&["moves"])).unwrap();
    let links: Vec<&str> = found.iter().map(|s| s.link.as_str()).collect();
    assert_eq!(links, vec!["one.md", "two.md", "three.md"]);
    assert!(found.iter().all(|s| s.mentions == 5));
}

#[test]
fn searching_twice_gives_the_same() {
    let query = words(&["ownership", "struct", "the"]);
    let first = search(&book(), &Vec::new(), &query).unwrap();
    let second = search(&book(), &Vec::new(), &query).unwrap();
    assert_eq!(shape(&first), shape(&second));
}

#[test]
fn listings_are_put_into_the_sections_that_surface() {
    let pages = vec![
        page(
            "/b/src/ch01.md",
            "# Hello world\nThe program:\n{{#rustdoc_include ../listings/hello/src/main.rs:all}}\n\
             <span class=\"caption\">Listing 1</span>\n",
        ),
        page("/b/src/ch02.md", "# Other page\nwith a broken {{#include missing.rs}} directive\n"),
    ];
    let table = vec![listing("listings/hello/src/main.rs", "fn main() { println!(\"hello\"); }\n")];
    let query = words(&["program"]);
    let hits = search_hits(&pages, &query);
    assert_eq!(hits.len(), 1);
    assert_eq!(needed_listings(&hits), Ok(vec!["listings/hello/src/main.rs".to_string()]));
    let found = search(&pages, &table, &query).unwrap();
    assert_eq!(
        shape(&found),
        vec![(
            "# Hello world\nThe program:\n\nfn main() { println!(\"hello\"); }\n\nListing 1\n"
                .to_string(),
            5,
            "/b/src/ch01.md".to_string()
        )]
    );
}

#[test]
fn a_directive_that_fails_in_a_section_that_surfaces_fails_the_search() {
    let pages = vec![
        page("/b/src/ch01.md", "# Hello world\nThe program:\n{{#include a.rs}}\n"),
        page("/b/src/ch02.md", "# Other program\nwith a broken\n{{#includ b.rs}}\ndirective\n"),
    ];
    let table = vec![listing("a.rs", "A")];
    let query = words(&["program"]);
    assert_eq!(search(&pages, &table, &query).err(), Some(ListingError::MissingPrefix));
    assert_eq!(search_book(&pages, &table, &query).err(), Some(ListingError::MissingPrefix));
    assert_eq!(search(&pages, &Vec::new(), &query).err(), Some(ListingError::NotFound));
    assert_eq!(needed_listings(&search_hits(&pages, &query)), Err(ListingError::MissingPrefix));
    assert_eq!(search(&pages, &table, &words(&["Hello"])).map(|s| s.len()), Ok(1));
}

#[test]
fn closing_braces_that_nothing_opened_fail_the_search_and_the_requests_alike() {
    let pages = vec![page("/b/src/ch01.md", "# Hello world\nThe program: a}}b\n")];
    let query = words(&["program"]);
    let hits = search_hits(&pages, &query);
    assert_eq!(hits.len(), 1);
    assert_eq!(needed_listings(&hits), Err(ListingError::MissingPrefix));
    assert_eq!(search_book(&pages, &Vec::new(), &query).err(), Some(ListingError::MissingPrefix));
    assert_eq!(search(&pages, &Vec::new(), &query).err(), Some(ListingError::MissingPrefix));
}

#[test]
fn search_book_keeps_the_order_of_the_pages() {
    let found = search_book(&book(), &Vec::new(), &words(&["ownership", "struct"])).unwrap();
    let scores: Vec<u128> = found.iter().map(|s| s.mentions).collect();
    assert_eq!(scores, vec![45, 30, 2, 26]);
}

#[test]
fn expanding_keeps_scores_and_links() {
    let sections = vec![
        Section::new("a {{#include x}} b".to_string(), 7, "p.md".to_string()),
        Section::new("<i>c</i>".to_string(), 3, "q.md".to_string()),
    ];
    let table = vec![listing("x", "X")];
    let done = expand_sections(sections, &table).unwrap();
    assert_eq!(
        shape(&done),
        vec![
            ("a \nX b".to_string(), 7, "p.md".to_string()),
            ("c".to_string(), 3, "q.md".to_string())
        ]
    );
    let sections = vec![Section::new("a {{#include y}} b".to_string(), 7, "p.md".to_string())];
    assert_eq!(expand_sections(sections, &table).err(), Some(ListingError::NotFound));
}
