//! Relevance of a section to a query.
//!
//! A query is a list of terms, and a term counts where it occurs literally, as
//! a contiguous part of the text looked at. Each place gives a fixed number of
//! points for every term found there: the page as a whole, the heading of the
//! section, the path of the page, and the body of the section. The score of a
//! section is the sum of the four.

use crate::section::{Section, SectionView, section_views};
use crate::segment::{lemma_segments_well_cut, segments, split_pieces, well_cut};
use crate::text::{
    chars_of, contains, contains_text, find_char, lemma_find_char, lemma_trimmed_len,
    lowercase_of, position_of, rows, slice_of, string_of, terms_of, texts, to_lowercase,
    trim_bounds, trimmed,
};
use vstd::prelude::*;

verus! {

/// Points for each term found in the heading of a section.
pub const HEADING_WEIGHT: u128 = 20;

/// Points for each term found in the path of the page.
pub const PATH_WEIGHT: u128 = 20;

/// Points for each term found in the body of a section.
pub const BODY_WEIGHT: u128 = 4;

/// A piece is kept as a section only if, without the white space at its ends,
/// it is longer than this.
pub const MIN_LENGTH: usize = 5;

/// The number of terms that `text` contains. A term that is listed twice counts
/// twice.
pub open spec fn hits(text: Seq<char>, terms: Seq<Seq<char>>) -> nat
    decreases terms.len(),
{
    if terms.len() == 0 {
        0
    } else {
        hits(text, terms.drop_last()) + if contains_text(text, terms.last()) {
            1nat
        } else {
            0nat
        }
    }
}

/// The heading of a section: what stands from its first `#` up to the end of
/// that line. Empty where the section has no `#`.
pub open spec fn heading_line(content: Seq<char>) -> Seq<char> {
    let rest = content.skip(find_char(content, '#'));
    rest.take(find_char(rest, '\n'))
}

/// What the heading adds to a score, given the heading in lower case.
pub open spec fn heading_gain(lowered_heading: Seq<char>, terms: Seq<Seq<char>>) -> nat {
    HEADING_WEIGHT as nat * hits(lowered_heading, terms)
}

/// What the path of the page adds to a score.
pub open spec fn path_gain(path: Seq<char>, terms: Seq<Seq<char>>) -> nat {
    PATH_WEIGHT as nat * hits(path, terms)
}

/// What the body of a section adds to a score.
pub open spec fn body_gain(content: Seq<char>, terms: Seq<Seq<char>>) -> nat {
    BODY_WEIGHT as nat * hits(content, terms)
}

/// The score of a section: the score of its page, and what its heading, the
/// path and its body add.
pub open spec fn section_score(
    base: nat,
    lowered_heading: Seq<char>,
    path: Seq<char>,
    content: Seq<char>,
    terms: Seq<Seq<char>>,
) -> nat {
    base + heading_gain(lowered_heading, terms) + path_gain(path, terms) + body_gain(
        content,
        terms,
    )
}

/// A piece is long enough to be a section.
pub open spec fn is_kept(piece: Seq<char>) -> bool {
    trimmed(piece).len() > MIN_LENGTH
}

/// The pieces that are long enough, in their order.
pub open spec fn kept_pieces(pieces: Seq<Seq<char>>) -> Seq<Seq<char>> {
    pieces.filter(|p: Seq<char>| is_kept(p))
}

/// The section made of one piece of a page with score `base`.
pub open spec fn scored(
    piece: Seq<char>,
    base: nat,
    path: Seq<char>,
    terms: Seq<Seq<char>>,
) -> SectionView {
    SectionView {
        content: piece,
        mentions: section_score(base, lowercase_of(heading_line(piece)), path, piece, terms),
        link: path,
    }
}

/// The sections made of the given pieces.
pub open spec fn scored_all(
    pieces: Seq<Seq<char>>,
    base: nat,
    path: Seq<char>,
    terms: Seq<Seq<char>>,
) -> Seq<SectionView> {
    pieces.map_values(|p: Seq<char>| scored(p, base, path, terms))
}

/// The sections of a page for a query: none if the page contains no term, else
/// one for each piece that is long enough, with its score.
pub open spec fn page_sections(
    path: Seq<char>,
    text: Seq<char>,
    terms: Seq<Seq<char>>,
) -> Seq<SectionView> {
    let base = hits(text, terms);
    if base == 0 {
        Seq::empty()
    } else {
        scored_all(kept_pieces(segments(text)), base, path, terms)
    }
}

/// The texts of a sequence of sections.
pub open spec fn contents(sections: Seq<SectionView>) -> Seq<Seq<char>> {
    sections.map_values(|s: SectionView| s.content)
}

/// Where every piece is long enough, every piece is kept.
pub proof fn lemma_all_kept(pieces: Seq<Seq<char>>)
    requires
        forall|k: int| 0 <= k < pieces.len() ==> is_kept(#[trigger] pieces[k]),
    ensures
        kept_pieces(pieces) == pieces,
    decreases pieces.len(),
{
    if pieces.len() > 0 {
        let rest = pieces.drop_last();
        assert forall|k: int| 0 <= k < rest.len() implies is_kept(#[trigger] rest[k]) by {
            assert(rest[k] == pieces[k]);
        }
        lemma_all_kept(rest);
        assert(pieces =~= rest.push(pieces.last()));
        lemma_kept_push(rest, pieces.last());
    } else {
        assert(kept_pieces(pieces) =~= pieces);
    }
}

/// The sections of a page are pieces of it, in the order of the page: their
/// texts are the pieces that are long enough. Where the page contains a term
/// and every piece is long enough, the texts of the sections, one after the
/// other, are the page, with nothing lost and nothing twice.
pub proof fn lemma_sections_partition(path: Seq<char>, text: Seq<char>, terms: Seq<Seq<char>>)
    requires
        hits(text, terms) > 0,
    ensures
        contents(page_sections(path, text, terms)) == kept_pieces(segments(text)),
        (forall|k: int| 0 <= k < segments(text).len() ==> is_kept(#[trigger] segments(text)[k]))
            ==> contents(page_sections(path, text, terms)).flatten() == text,
{
    let pieces = kept_pieces(segments(text));
    assert(contents(page_sections(path, text, terms)) =~= pieces);
    if forall|k: int| 0 <= k < segments(text).len() ==> is_kept(#[trigger] segments(text)[k]) {
        lemma_all_kept(segments(text));
        crate::segment::lemma_segments_partition(text);
    }
}

/// Taking one term out of a query takes its part out of the count.
pub proof fn lemma_hits_remove(text: Seq<char>, terms: Seq<Seq<char>>, at: int)
    requires
        0 <= at < terms.len(),
    ensures
        hits(text, terms) == hits(text, terms.remove(at)) + if contains_text(text, terms[at]) {
            1nat
        } else {
            0nat
        },
    decreases terms.len(),
{
    if at == terms.len() - 1 {
        assert(terms.remove(at) =~= terms.drop_last());
    } else {
        lemma_hits_remove(text, terms.drop_last(), at);
        assert(terms.remove(at).drop_last() =~= terms.drop_last().remove(at));
        assert(terms.remove(at).last() == terms.last());
    }
}

/// The order of the terms does not matter: two queries that hold the same
/// terms, each as often, find as many of them in any text.
pub proof fn lemma_hits_permuted(text: Seq<char>, first: Seq<Seq<char>>, second: Seq<Seq<char>>)
    requires
        first.to_multiset() == second.to_multiset(),
    ensures
        hits(text, first) == hits(text, second),
    decreases first.len(),
{
    vstd::seq_lib::to_multiset_len(first);
    vstd::seq_lib::to_multiset_len(second);
    if first.len() > 0 {
        let last = first.last();
        let end = first.len() - 1;
        vstd::seq_lib::to_multiset_contains(first, last);
        vstd::seq_lib::to_multiset_contains(second, last);
        assert(first[end] == last);
        assert(first.contains(last));
        let at = choose|at: int| 0 <= at < second.len() && second[at] == last;
        vstd::seq_lib::to_multiset_remove(first, end);
        vstd::seq_lib::to_multiset_remove(second, at);
        assert(first.remove(end) =~= first.drop_last());
        lemma_hits_permuted(text, first.drop_last(), second.remove(at));
        lemma_hits_remove(text, second, at);
    }
}

/// A page gives the same sections, with the same scores and in the same
/// order, for two queries that hold the same terms in another order.
pub proof fn lemma_page_sections_permuted(
    path: Seq<char>,
    text: Seq<char>,
    first: Seq<Seq<char>>,
    second: Seq<Seq<char>>,
)
    requires
        first.to_multiset() == second.to_multiset(),
    ensures
        page_sections(path, text, first) == page_sections(path, text, second),
{
    lemma_hits_permuted(text, first, second);
    lemma_hits_permuted(path, first, second);
    let pieces = kept_pieces(segments(text));
    let base = hits(text, first);
    assert forall|k: int| 0 <= k < pieces.len() implies scored(pieces[k], base, path, first)
        == scored(pieces[k], base, path, second) by {
        lemma_hits_permuted(lowercase_of(heading_line(pieces[k])), first, second);
        lemma_hits_permuted(pieces[k], first, second);
    }
    assert(scored_all(pieces, base, path, first) =~= scored_all(pieces, base, path, second));
}

/// The three passes over heading, path and body are independent of one another
/// and of their order: each adds its own points to the running score, and in
/// whichever order they are applied to the score of the page, the result is the
/// score of the section.
pub proof fn lemma_passes_commute(
    base: nat,
    lowered_heading: Seq<char>,
    path: Seq<char>,
    content: Seq<char>,
    terms: Seq<Seq<char>>,
)
    ensures
        ({
            let h = heading_gain(lowered_heading, terms);
            let p = path_gain(path, terms);
            let b = body_gain(content, terms);
            let total = section_score(base, lowered_heading, path, content, terms);
            &&& total == ((base + h) + p) + b
            &&& total == ((base + h) + b) + p
            &&& total == ((base + p) + h) + b
            &&& total == ((base + p) + b) + h
            &&& total == ((base + b) + h) + p
            &&& total == ((base + b) + p) + h
        }),
{
}

/// Adding one piece to a list of pieces adds it to the kept ones if and only if
/// it is long enough.
pub proof fn lemma_kept_push(pieces: Seq<Seq<char>>, piece: Seq<char>)
    ensures
        kept_pieces(pieces.push(piece)) == if is_kept(piece) {
            kept_pieces(pieces).push(piece)
        } else {
            kept_pieces(pieces)
        },
{
    pieces.lemma_filter_push(piece, |p: Seq<char>| is_kept(p));
}

/// The number of terms that `text` contains.
pub fn count_hits(text: &Vec<char>, terms: &Vec<Vec<char>>) -> (count: usize)
    ensures
        count == hits(text@, rows(terms@)),
        count <= terms.len(),
{
    let mut count: usize = 0;
    let mut at: usize = 0;
    while at < terms.len()
        invariant
            at <= terms.len(),
            count <= at,
            count == hits(text@, rows(terms@).take(at as int)),
        decreases terms.len() - at,
    {
        assert(rows(terms@).take(at + 1).drop_last() =~= rows(terms@).take(at as int));
        if contains(text, &terms[at]) {
            count += 1;
        }
        at += 1;
    }
    assert(rows(terms@).take(at as int) =~= rows(terms@));
    count
}

/// The heading of a section: what stands from its first `#` up to the end of
/// that line.
pub fn heading_of(content: &Vec<char>) -> (heading: Vec<char>)
    ensures
        heading@ == heading_line(content@),
{
    let start = position_of(content, '#');
    proof {
        lemma_find_char(content@, '#');
    }
    let rest = slice_of(content, start, content.len());
    let end = position_of(&rest, '\n');
    proof {
        lemma_find_char(rest@, '\n');
    }
    slice_of(&rest, 0, end)
}

/// Whether a piece is long enough to be a section.
pub fn long_enough(piece: &Vec<char>) -> (b: bool)
    ensures
        b == is_kept(piece@),
{
    let (from, to) = trim_bounds(piece);
    to - from > MIN_LENGTH
}

/// The score of a section of a page with score `base`, from its heading in
/// lower case, the path of the page and its own text.
pub fn score_chars(
    base: usize,
    lowered_heading: &Vec<char>,
    path: &Vec<char>,
    content: &Vec<char>,
    terms: &Vec<Vec<char>>,
) -> (score: u128)
    ensures
        score == section_score(base as nat, lowered_heading@, path@, content@, rows(terms@)),
{
    let in_heading = count_hits(lowered_heading, terms) as u128;
    let in_path = count_hits(path, terms) as u128;
    let in_body = count_hits(content, terms) as u128;
    base as u128 + HEADING_WEIGHT * in_heading + PATH_WEIGHT * in_path + BODY_WEIGHT * in_body
}

/// The score of a page: the number of terms of the query that its text
/// contains.
pub fn page_score(text: &str, words: &Vec<String>) -> (score: usize)
    ensures
        score == hits(text@, texts(words@)),
        score <= words.len(),
{
    let chars = chars_of(text);
    let terms = terms_of(words);
    count_hits(&chars, &terms)
}

/// What the heading of a section adds to its score. The heading is given in
/// lower case; the terms are taken as they are.
pub fn heading_bias(lowered_heading: &str, words: &Vec<String>) -> (gain: u128)
    ensures
        gain == heading_gain(lowered_heading@, texts(words@)),
{
    let chars = chars_of(lowered_heading);
    let terms = terms_of(words);
    HEADING_WEIGHT * (count_hits(&chars, &terms) as u128)
}

/// What the path of the page adds to the score of each of its sections.
pub fn path_bias(path: &str, words: &Vec<String>) -> (gain: u128)
    ensures
        gain == path_gain(path@, texts(words@)),
{
    let chars = chars_of(path);
    let terms = terms_of(words);
    PATH_WEIGHT * (count_hits(&chars, &terms) as u128)
}

/// What the body of a section adds to its score.
pub fn body_bias(content: &str, words: &Vec<String>) -> (gain: u128)
    ensures
        gain == body_gain(content@, texts(words@)),
{
    let chars = chars_of(content);
    let terms = terms_of(words);
    BODY_WEIGHT * (count_hits(&chars, &terms) as u128)
}

/// The score of a section of a page with score `base`: `base`, and what the
/// heading, the path and the body add. The heading is given in lower case.
pub fn score_section(
    base: usize,
    lowered_heading: &str,
    path: &str,
    content: &str,
    words: &Vec<String>,
) -> (score: u128)
    ensures
        score == section_score(base as nat, lowered_heading@, path@, content@, texts(words@)),
{
    let heading = chars_of(lowered_heading);
    let path = chars_of(path);
    let content = chars_of(content);
    let terms = terms_of(words);
    score_chars(base, &heading, &path, &content, &terms)
}

/// The heading of a section as it is written: what stands from its first `#`
/// up to the end of that line, and nothing where it has no `#`.
pub fn section_heading(content: &str) -> (heading: String)
    ensures
        heading@ == heading_line(content@),
{
    let chars = chars_of(content);
    let heading = heading_of(&chars);
    string_of(&heading)
}

/// Cuts one page into sections and scores each of them for the query.
///
/// A page that contains no term gives no section. Of any other page, every
/// piece that is long enough becomes a section, in the order of the page, with
/// the path of the page as its link. Every section begins with its marker,
/// unless it begins the page, and holds no other. Its score is the score of the page, 20
/// for each term in its heading taken in lower case, 20 for each term in the
/// path, and 4 for each term in its own text.
pub fn search_page(page_path: &String, page_content: &String, queries: &Vec<String>) -> (sections:
    Vec<Section>)
    ensures
        section_views(sections@) == page_sections(page_path@, page_content@, texts(queries@)),
        forall|k: int|
            0 <= k < sections.len() ==> {
                &&& (#[trigger] sections[k]).content@.len() > MIN_LENGTH
                &&& well_cut(page_content@, sections[k].content@)
                &&& sections[k].mentions >= 1
                &&& sections[k].link@ == page_path@
            },
{
    let text = chars_of(page_content.as_str());
    let path = chars_of(page_path.as_str());
    let terms = terms_of(queries);
    let mut sections: Vec<Section> = Vec::new();
    let base = count_hits(&text, &terms);
    if base == 0 {
        return sections;
    }
    let pieces = split_pieces(&text);
    let ghost words = rows(terms@);
    let mut at: usize = 0;
    while at < pieces.len()
        invariant
            at <= pieces.len(),
            1 <= base <= terms.len(),
            path@ == page_path@,
            rows(pieces@) == segments(page_content@),
            words == rows(terms@),
            section_views(sections@) == scored_all(
                kept_pieces(rows(pieces@).take(at as int)),
                base as nat,
                path@,
                words,
            ),
            forall|k: int|
                0 <= k < sections.len() ==> {
                    &&& (#[trigger] sections[k]).content@.len() > MIN_LENGTH
                    &&& well_cut(page_content@, sections[k].content@)
                    &&& sections[k].mentions >= 1
                    &&& sections[k].link@ == page_path@
                },
        decreases pieces.len() - at,
    {
        let piece = &pieces[at];
        let ghost seen = rows(pieces@).take(at as int);
        proof {
            assert(rows(pieces@).take(at + 1) =~= seen.push(piece@));
            lemma_kept_push(seen, piece@);
        }
        if long_enough(piece) {
            let heading = string_of(&heading_of(piece));
            let lowered = chars_of(to_lowercase(heading.as_str()).as_str());
            let score = score_chars(base, &lowered, &path, piece, &terms);
            sections.push(Section::new(string_of(piece), score, page_path.clone()));
            proof {
                lemma_trimmed_len(piece@);
                assert(rows(pieces@)[at as int] == piece@);
                lemma_segments_well_cut(page_content@, at as int);
                assert(scored_all(kept_pieces(seen).push(piece@), base as nat, path@, words)
                    =~= scored_all(kept_pieces(seen), base as nat, path@, words).push(
                    scored(piece@, base as nat, path@, words),
                ));
            }
        }
        at += 1;
    }
    assert(rows(pieces@).take(at as int) =~= rows(pieces@));
    sections
}

} // verus!
