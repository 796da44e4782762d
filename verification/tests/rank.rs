use thebook::rank::rank;
use thebook::section::Section;

fn section(name: &str, score: u128) -> Section {
    Section::new(name.to_string(), score, format!("{name}.md"))
}

fn names(sections: &[Section]) -> Vec<String> {
    sections.iter().map(|s| format!("{}:{}", s.content, s.mentions)).collect()
}

#[test]
fn the_highest_score_comes_first() {
    let ranked = rank(vec![section("a", 5), section("b", 45), section("c", 25)]);
    assert_eq!(names(&ranked), vec!["b:45", "c:25", "a:5"]);
}

#[test]
fn ties_keep_the_order_in_which_they_were_found() {
    let ranked = rank(vec![
        section("a", 3),
        section("b", 5),
        section("c", 3),
        section("d", 5),
        section("e", 2),
        section("f", 5),
    ]);
    assert_eq!(names(&ranked), vec!["b:5", "d:5", "f:5", "a:3", "c:3", "e:2"]);
}

#[test]
fn ranking_keeps_every_section_whole() {
    let ranked = rank(vec![section("a", 2), section("b", 9)]);
    assert_eq!(ranked.len(), 2);
    assert_eq!(ranked[0].content, "b");
    assert_eq!(ranked[0].mentions, 9);
    assert_eq!(ranked[0].link, "b.md");
    assert_eq!(ranked[1].content, "a");
    assert_eq!(ranked[1].link, "a.md");
}

#[test]
fn ranking_nothing_gives_nothing() {
    assert!(rank(Vec::new()).is_empty());
    assert_eq!(names(&rank(vec![section("a", 0)])), vec!["a:0"]);
}

#[test]
fn ranking_twice_changes_nothing() {
    let once = rank(vec![
        section("a", 3),
        section("b", 5),
        section("c", 3),
        section("d", u128::MAX),
        section("e", 0),
        section("f", 5),
    ]);
    let first = names(&once);
    let twice = rank(once);
    assert_eq!(names(&twice), first);
}

#[test]
fn a_ranked_list_is_descending_and_stable() {
    let scores = [7u128, 2, 9, 7, 7, 2, 45, 9, 3, 3, 45, 2];
    let given: Vec<Section> =
        scores.iter().enumerate().map(|(i, s)| section(&format!("{i}"), *s)).collect();
    let ranked = rank(given);
    assert_eq!(ranked.len(), scores.len());
    for pair in ranked.windows(2) {
        assert!(pair[0].mentions >= pair[1].mentions);
        if pair[0].mentions == pair[1].mentions {
            let first: usize = pair[0].content.parse().unwrap();
            let second: usize = pair[1].content.parse().unwrap();
            assert!(first < second);
        }
    }
    let mut seen: Vec<usize> = ranked.iter().map(|s| s.content.parse().unwrap()).collect();
    seen.sort();
    assert_eq!(seen, (0..scores.len()).collect::<Vec<usize>>());
}
