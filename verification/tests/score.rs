use thebook::score::{
    body_bias, count_hits, heading_bias, heading_of, long_enough, page_score, path_bias,
    score_chars, score_section, search_page, section_heading, BODY_WEIGHT, HEADING_WEIGHT,
    MIN_LENGTH, PATH_WEIGHT,
};

fn chars(s: &str) -> Vec<char> {
    s.chars().collect()
}

fn words(terms: &[&str]) -> Vec<String> {
    terms.iter().map(|t| t.to_string()).collect()
}

#[test]
fn the_weights() {
    assert_eq!(HEADING_WEIGHT, 20);
    assert_eq!(PATH_WEIGHT, 20);
    assert_eq!(BODY_WEIGHT, 4);
    assert_eq!(MIN_LENGTH, 5);
}

#[test]
fn ownership_basics_scores_45() {
    let path = "/home/u/thebook/book/src/ch04/ownership.md".to_string();
    let page = "## Ownership Basics\nownership is a set of rules. With ownership, memory is \
                safe. That is ownership.\n"
        .to_string();
    let sections = search_page(&path, &page, &words(&["ownership"]));
    assert_eq!(sections.len(), 1);
    assert_eq!(sections[0].mentions, 45);
    assert_eq!(sections[0].content, page);
    assert_eq!(sections[0].link, path);
}

#[test]
fn a_page_without_any_term_gives_no_section() {
    let path = "/book/src/ownership.md".to_string();
    let page = "## A long enough heading\nand a body\n".to_string();
    assert!(search_page(&path, &page, &words(&["ownership"])).is_empty());
    assert!(search_page(&path, &page, &words(&[])).is_empty());
}

#[test]
fn every_section_of_a_page_starts_from_the_score_of_the_page() {
    let path = "p.md".to_string();
    let page = "# Intro to the chapter\nalpha here\n## Second part\nnothing\n## Third part\nbeta"
        .to_string();
    let sections = search_page(&path, &page, &words(&["alpha", "beta", "gamma"]));
    assert_eq!(sections.len(), 3);
    assert_eq!(sections[0].content, "# Intro to the chapter\nalpha here");
    assert_eq!(sections[0].mentions, 2 + 4);
    assert_eq!(sections[1].content, "\n## Second part\nnothing");
    assert_eq!(sections[1].mentions, 2);
    assert_eq!(sections[2].content, "\n## Third part\nbeta");
    assert_eq!(sections[2].mentions, 2 + 4);
}

#[test]
fn the_heading_is_matched_in_lower_case_and_the_body_as_written() {
    let path = "p.md".to_string();
    let page = "# Borrowing And Moves\nNothing more.".to_string();
    let lower = search_page(&path, &page, &words(&["borrowing"]));
    assert!(lower.is_empty());
    let page = "# Borrowing And Moves\nAbout borrowing.".to_string();
    let lower = search_page(&path, &page, &words(&["borrowing"]));
    assert_eq!(lower.len(), 1);
    assert_eq!(lower[0].mentions, 1 + 20 + 4);
    let upper = search_page(&path, &page, &words(&["Borrowing"]));
    assert_eq!(upper.len(), 1);
    assert_eq!(upper[0].mentions, 1 + 4);
}

#[test]
fn the_heading_of_a_section_that_a_line_break_opens_counts() {
    let path = "p.md".to_string();
    let page = "front matter\n## moves explained\nmoves".to_string();
    let sections = search_page(&path, &page, &words(&["moves"]));
    assert_eq!(sections.len(), 2);
    assert_eq!(sections[0].content, "front matter");
    assert_eq!(sections[0].mentions, 1);
    assert_eq!(sections[1].content, "\n## moves explained\nmoves");
    assert_eq!(sections[1].mentions, 1 + 20 + 4);
}

#[test]
fn ownership_basics_scores_45_further_down_the_page() {
    let path = "/home/u/thebook/book/src/ch04/ownership.md".to_string();
    let page = "\n## Ownership Basics\nownership here, ownership there, ownership.\n"
        .to_string();
    let sections = search_page(&path, &page, &words(&["ownership"]));
    assert_eq!(sections.len(), 1);
    assert_eq!(sections[0].mentions, 45);
    assert_eq!(sections[0].content, page);
}

#[test]
fn a_term_can_earn_heading_path_and_body_at_once() {
    let path = "/src/traits.md".to_string();
    let page = "# traits\ntraits and generics".to_string();
    let sections = search_page(&path, &page, &words(&["traits", "generics", "macros"]));
    assert_eq!(sections.len(), 1);
    assert_eq!(sections[0].mentions, 2 + 20 + 20 + 2 * 4);
}

#[test]
fn a_term_listed_twice_counts_twice() {
    let path = "p.md".to_string();
    let page = "# move it\nmove".to_string();
    let sections = search_page(&path, &page, &words(&["move", "move"]));
    assert_eq!(sections.len(), 1);
    assert_eq!(sections[0].mentions, 2 + 2 * 20 + 2 * 4);
}

#[test]
fn short_pieces_are_dropped() {
    let path = "p.md".to_string();
    let page = "abcde\n## abcdefgh\n#### x".to_string();
    let sections = search_page(&path, &page, &words(&["abc"]));
    let contents: Vec<&str> = sections.iter().map(|s| s.content.as_str()).collect();
    assert_eq!(contents, vec!["\n## abcdefgh"]);
}

#[test]
fn length_is_measured_without_white_space_at_the_ends() {
    assert!(!long_enough(&chars("")));
    assert!(!long_enough(&chars("abcde")));
    assert!(long_enough(&chars("abcdef")));
    assert!(!long_enough(&chars("  abcde \n\n")));
    assert!(long_enough(&chars("\n## abc")));
    assert!(!long_enough(&chars("\n\n\n\n\n\n\n")));
    assert!(long_enough(&chars("a    b")));
    assert!(long_enough(&chars("éééééé")));
    assert!(!long_enough(&chars("ééééé")));
}

#[test]
fn every_section_is_longer_than_five() {
    let path = "p.md".to_string();
    let page = "x\n## a\n## abcd\n## abcdef\n##  \n\n\n\n\n\n## x y z w".to_string();
    let sections = search_page(&path, &page, &words(&["a", "x"]));
    assert!(!sections.is_empty());
    for section in &sections {
        assert!(section.content.len() > 5, "{:?}", section.content);
        assert!(section.content.chars().count() > 5);
        assert!(section.content.trim().chars().count() > 5);
        assert!(section.mentions >= 1);
        assert_eq!(section.link, path);
    }
}

#[test]
fn heading_lines() {
    assert_eq!(section_heading("## Ownership Basics\nbody"), "## Ownership Basics");
    assert_eq!(section_heading("\n## Ownership\nbody"), "## Ownership");
    assert_eq!(section_heading("\n\n  ## Ownership"), "## Ownership");
    assert_eq!(section_heading("intro # not a heading\nbody"), "# not a heading");
    assert_eq!(section_heading("no marker\n# later\nmore"), "# later");
    assert_eq!(section_heading("no marker\nat all"), "");
    assert_eq!(section_heading("# only line"), "# only line");
    assert_eq!(section_heading(""), "");
    assert_eq!(section_heading("#"), "#");
    assert_eq!(heading_of(&chars("x ### y #\nz")), chars("### y #"));
}

#[test]
fn the_passes_one_by_one() {
    let q = words(&["own", "borrow", "move"]);
    assert_eq!(page_score("we own and we move", &q), 2);
    assert_eq!(page_score("nothing", &q), 0);
    assert_eq!(heading_bias("## own and borrow", &q), 40);
    assert_eq!(heading_bias("", &q), 0);
    assert_eq!(path_bias("/src/move.md", &q), 20);
    assert_eq!(body_bias("own borrow move", &q), 12);
    assert_eq!(body_bias("own own own", &q), 4);
    assert_eq!(count_hits(&chars("own own"), &vec![chars("own"), chars("x"), chars("")]), 2);
}

#[test]
fn the_score_is_the_sum_of_the_passes() {
    let q = words(&["own", "borrow", "move"]);
    let heading = "## own and borrow";
    let path = "/src/move.md";
    let body = "own borrow move";
    let total = score_section(3, heading, path, body, &q);
    assert_eq!(total, 3 + 40 + 20 + 12);
    assert_eq!(
        total,
        3 + body_bias(body, &q) + path_bias(path, &q) + heading_bias(heading, &q)
    );
    assert_eq!(
        score_chars(
            3,
            &chars(heading),
            &chars(path),
            &chars(body),
            &vec![chars("own"), chars("borrow"), chars("move")]
        ),
        75
    );
}

#[test]
fn the_heading_given_to_the_scorer_is_taken_as_it_is() {
    let q = words(&["own"]);
    assert_eq!(score_section(1, "## OWN", "p", "", &q), 1);
    assert_eq!(score_section(1, "## own", "p", "", &q), 21);
}

#[test]
fn the_order_of_the_terms_does_not_change_the_sections() {
    let path = "/src/traits.md".to_string();
    let page = "# Traits and moves\nA trait is shared.\n## generics in depth\nmoves and traits\n"
        .to_string();
    let orders = [
        words(&["traits", "generics", "moves", "traits"]),
        words(&["moves", "traits", "traits", "generics"]),
        words(&["traits", "traits", "generics", "moves"]),
    ];
    let first = search_page(&path, &page, &orders[0]);
    assert_eq!(first.len(), 2);
    assert_eq!(first[0].mentions, 4 + 3 * 20 + 2 * 20 + 4);
    assert_eq!(first[1].mentions, 4 + 20 + 2 * 20 + 4 * 4);
    for order in &orders[1..] {
        let other = search_page(&path, &page, order);
        assert_eq!(other.len(), first.len());
        for (a, b) in first.iter().zip(other.iter()) {
            assert_eq!(a.content, b.content);
            assert_eq!(a.mentions, b.mentions);
            assert_eq!(a.link, b.link);
        }
    }
}

#[test]
fn every_section_begins_with_its_marker_and_holds_no_other() {
    let path = "p.md".to_string();
    let page = "# Title of it\nintro x\n## First x\nbody one\n### Deeper x\nbody two\n####\n## Last x"
        .to_string();
    let sections = search_page(&path, &page, &words(&["x"]));
    let contents: Vec<&str> = sections.iter().map(|s| s.content.as_str()).collect();
    assert_eq!(
        contents,
        vec![
            "# Title of it\nintro x",
            "\n## First x\nbody one",
            "### Deeper x\nbody two",
            "\n## Last x"
        ]
    );
    let mut from = 0;
    for (index, content) in contents.iter().enumerate() {
        let c: Vec<char> = content.chars().collect();
        if index == 0 {
            assert!(page.starts_with(content));
        } else {
            assert!(c[1] == '#' && c[2] == '#');
        }
        for at in 1..c.len() {
            assert!(!(at + 2 < c.len() && c[at + 1] == '#' && c[at + 2] == '#'));
        }
        let found = page[from..].find(content).unwrap();
        from += found + content.len();
    }
}

#[test]
fn the_sections_make_up_the_page_where_no_piece_is_dropped() {
    let path = "p.md".to_string();
    let page = "# Title of x\nintro\n## First part\nbody one\n## Second part\nbody x".to_string();
    let sections = search_page(&path, &page, &words(&["x"]));
    let joined: String = sections.iter().map(|s| s.content.as_str()).collect();
    assert_eq!(joined, page);
}

#[test]
fn a_query_of_any_length_can_be_scored() {
    let path = "p.md".to_string();
    let page = "# aaaa aaaa\naaaa".to_string();
    let many: Vec<String> = (0..200_000).map(|_| "a".to_string()).collect();
    let sections = search_page(&path, &page, &many);
    assert_eq!(sections.len(), 1);
    assert_eq!(sections[0].mentions, 200_000 * (1 + 20 + 4));
}

#[test]
fn lower_case_follows_unicode() {
    let path = "p.md".to_string();
    let page = "# ÉCOLE Straße\nmore text".to_string();
    let sections = search_page(&path, &page, &words(&["école", "more"]));
    assert_eq!(sections.len(), 1);
    assert_eq!(sections[0].mentions, 1 + 20 + 4);
}
