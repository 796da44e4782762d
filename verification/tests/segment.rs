use thebook::segment::{segment_page, split_pieces};

fn chars(s: &str) -> Vec<char> {
    s.chars().collect()
}

fn strings(pieces: &[&str]) -> Vec<String> {
    pieces.iter().map(|p| p.to_string()).collect()
}

#[test]
fn a_page_without_subheadings_is_one_piece() {
    assert_eq!(segment_page("# Title\n\nSome text.\n"), strings(&["# Title\n\nSome text.\n"]));
}

#[test]
fn an_empty_page_has_no_piece() {
    assert_eq!(segment_page(""), Vec::<String>::new());
    assert_eq!(split_pieces(&chars("")), Vec::<Vec<char>>::new());
}

#[test]
fn the_character_before_the_marker_opens_the_new_piece() {
    let page = "# Title\nintro\n## First\nbody one\n## Second\nbody two";
    assert_eq!(
        segment_page(page),
        strings(&["# Title\nintro", "\n## First\nbody one", "\n## Second\nbody two"])
    );
}

#[test]
fn front_matter_before_the_first_subheading_is_a_piece() {
    assert_eq!(segment_page("front\n## A\n"), strings(&["front", "\n## A\n"]));
}

#[test]
fn a_page_that_begins_at_a_boundary_has_an_empty_first_piece() {
    assert_eq!(segment_page("\n## A\ntext"), strings(&["", "\n## A\ntext"]));
}

#[test]
fn a_page_that_begins_with_the_marker_is_not_cut_there() {
    assert_eq!(segment_page("## A\ntext"), strings(&["## A\ntext"]));
}

#[test]
fn deeper_headings_are_cut_at_every_pair_of_markers() {
    assert_eq!(segment_page("\n#### T\n"), strings(&["", "\n", "#", "### T\n"]));
    assert_eq!(segment_page("a\n### T"), strings(&["a", "\n", "### T"]));
}

#[test]
fn a_marker_at_the_very_end_still_cuts() {
    assert_eq!(segment_page("ab##"), strings(&["a", "b##"]));
    assert_eq!(segment_page("a##"), strings(&["", "a##"]));
    assert_eq!(segment_page("##"), strings(&["##"]));
    assert_eq!(segment_page("#"), strings(&["#"]));
}

#[test]
fn the_last_piece_ends_with_the_page() {
    assert_eq!(segment_page("x\n## A"), strings(&["x", "\n## A"]));
}

#[test]
fn a_cut_never_splits_a_character() {
    assert_eq!(segment_page("caf\u{e9}## x"), strings(&["caf", "\u{e9}## x"]));
}

#[test]
fn the_pieces_make_up_the_page() {
    let pages = [
        "",
        "#",
        "##",
        "###",
        "\n##\n##\n##",
        "# T\nintro\n## A\na\n### B\nb\n## C\nc\n",
        "no heading at all",
        "é##é##é",
        "##########",
    ];
    for page in pages {
        let pieces = segment_page(page);
        assert_eq!(pieces.concat(), page, "{page:?}");
        let cut = split_pieces(&chars(page));
        assert_eq!(cut.concat(), chars(page));
        assert_eq!(cut.len(), pieces.len());
    }
}

#[test]
fn every_piece_but_the_first_begins_one_character_before_a_marker() {
    let page = "# T\nintro\n## A\na\n### B\nb\n## C\nc\n";
    let all = chars(page);
    let pieces = split_pieces(&all);
    assert_eq!(pieces.len(), 5);
    let mut start = pieces[0].len();
    for piece in &pieces[1..] {
        assert!(all[start + 1] == '#' && all[start + 2] == '#', "{piece:?}");
        for inner in start + 1..start + piece.len() {
            assert!(!(inner + 2 < all.len() && all[inner + 1] == '#' && all[inner + 2] == '#'));
        }
        start += piece.len();
    }
    assert_eq!(start, all.len());
}
