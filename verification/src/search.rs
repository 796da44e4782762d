//! Searching the whole book.
//!
//! Every page is cut into sections and scored. A section surfaces if its score
//! is above one: being part of a page that mentions a term is not enough. The
//! sections that surface are collected in the order of the pages, their
//! listings are put in, and the result is ranked by score.

use crate::listing::{ListingError, expansion, listing_requests, parse_listings, requests};
use crate::rank::{descending, lemma_ranked_from, lemma_ranked_len, rank, ranked};
use crate::score::{MIN_LENGTH, hits, page_sections, search_page};
use crate::segment::well_cut;
use crate::section::{
    Listing, ListingView, Page, PageView, Section, SectionView, listing_views, page_views,
    section_views,
};
use crate::text::texts;
use vstd::prelude::*;

verus! {

/// A section is worth showing: its score is above one.
pub open spec fn surfaces(section: SectionView) -> bool {
    section.mentions > 1
}

/// The sections among `sections` that are worth showing, in their order.
pub open spec fn surfacing(sections: Seq<SectionView>) -> Seq<SectionView> {
    sections.filter(|s: SectionView| surfaces(s))
}

/// The sections of the book that are worth showing for a query, page after
/// page, as they are cut from the pages.
pub open spec fn book_hits(pages: Seq<PageView>, terms: Seq<Seq<char>>) -> Seq<SectionView>
    decreases pages.len(),
{
    if pages.len() == 0 {
        Seq::empty()
    } else {
        book_hits(pages.drop_last(), terms) + surfacing(
            page_sections(pages.last().path, pages.last().text, terms),
        )
    }
}

/// The sections with their listings put in, or the failure of the first
/// directive that fails in any of them.
pub open spec fn expand_all(sections: Seq<SectionView>, table: Seq<ListingView>) -> Result<
    Seq<SectionView>,
    ListingError,
>
    decreases sections.len(),
{
    if sections.len() == 0 {
        Ok(Seq::empty())
    } else {
        match expand_all(sections.drop_last(), table) {
            Err(e) => Err(e),
            Ok(done) => match expansion(sections.last().content, table) {
                Err(e) => Err(e),
                Ok(text) => Ok(
                    done.push(
                        SectionView {
                            content: text,
                            mentions: sections.last().mentions,
                            link: sections.last().link,
                        },
                    ),
                ),
            },
        }
    }
}

/// The paths of the listings that the sections need, section after section, or
/// the failure of the first directive that names no path.
pub open spec fn all_requests(sections: Seq<SectionView>) -> Result<Seq<Seq<char>>, ListingError>
    decreases sections.len(),
{
    if sections.len() == 0 {
        Ok(Seq::empty())
    } else {
        match all_requests(sections.drop_last()) {
            Err(e) => Err(e),
            Ok(paths) => match requests(sections.last().content) {
                Err(e) => Err(e),
                Ok(more) => Ok(paths + more),
            },
        }
    }
}

/// What a search of the book gives, before ranking.
pub open spec fn book_results(
    pages: Seq<PageView>,
    table: Seq<ListingView>,
    terms: Seq<Seq<char>>,
) -> Result<Seq<SectionView>, ListingError> {
    expand_all(book_hits(pages, terms), table)
}

/// What a search of the book gives: the sections worth showing, with their
/// listings put in, the best first.
pub open spec fn search_results(
    pages: Seq<PageView>,
    table: Seq<ListingView>,
    terms: Seq<Seq<char>>,
) -> Result<Seq<SectionView>, ListingError> {
    match book_results(pages, table, terms) {
        Ok(sections) => Ok(ranked(sections)),
        Err(e) => Err(e),
    }
}

/// The outcome of a search as a mathematical value.
pub open spec fn outcome_view(outcome: Result<Vec<Section>, ListingError>) -> Result<
    Seq<SectionView>,
    ListingError,
> {
    match outcome {
        Ok(sections) => Ok(section_views(sections@)),
        Err(e) => Err(e),
    }
}

/// A search can be repeated: two searches of the same book for the same query
/// end alike, with the same sections in the same order or with the same
/// failure.
pub proof fn lemma_search_repeatable(
    pages: Seq<PageView>,
    table: Seq<ListingView>,
    terms: Seq<Seq<char>>,
    first: Result<Vec<Section>, ListingError>,
    second: Result<Vec<Section>, ListingError>,
)
    requires
        outcome_view(first) == search_results(pages, table, terms),
        outcome_view(second) == search_results(pages, table, terms),
    ensures
        outcome_view(first) == outcome_view(second),
{
}

/// Expanding keeps the score of every section.
pub proof fn lemma_expand_keeps_scores(sections: Seq<SectionView>, table: Seq<ListingView>)
    requires
        expand_all(sections, table) is Ok,
    ensures
        expand_all(sections, table).unwrap().len() == sections.len(),
        forall|k: int|
            0 <= k < sections.len() ==> (#[trigger] expand_all(sections, table).unwrap()[k]).mentions
                == sections[k].mentions,
    decreases sections.len(),
{
    if sections.len() > 0 {
        lemma_expand_keeps_scores(sections.drop_last(), table);
    }
}

/// Every section that a search gives, with its listings put in and in its
/// rank, has a score above one.
pub proof fn lemma_results_surface(
    pages: Seq<PageView>,
    table: Seq<ListingView>,
    terms: Seq<Seq<char>>,
    k: int,
)
    requires
        search_results(pages, table, terms) is Ok,
        0 <= k < search_results(pages, table, terms).unwrap().len(),
    ensures
        search_results(pages, table, terms).unwrap()[k].mentions > 1,
{
    let found = book_hits(pages, terms);
    let filled = expand_all(found, table).unwrap();
    lemma_expand_keeps_scores(found, table);
    lemma_ranked_len(filled);
    lemma_ranked_from(filled, k);
    let i = choose|i: int| 0 <= i < filled.len() && filled[i] == ranked(filled)[k];
    lemma_hits_surface(pages, terms, i);
}

/// Adding one section to a list adds it to the ones worth showing if and only
/// if its score is above one.
pub proof fn lemma_surfacing_push(sections: Seq<SectionView>, section: SectionView)
    ensures
        surfacing(sections.push(section)) == if surfaces(section) {
            surfacing(sections).push(section)
        } else {
            surfacing(sections)
        },
{
    sections.lemma_filter_push(section, |s: SectionView| surfaces(s));
}

/// Every section that is collected from the pages has a score above one.
pub proof fn lemma_hits_surface(pages: Seq<PageView>, terms: Seq<Seq<char>>, k: int)
    requires
        0 <= k < book_hits(pages, terms).len(),
    ensures
        book_hits(pages, terms)[k].mentions > 1,
    decreases pages.len(),
{
    if pages.len() > 0 {
        let before = book_hits(pages.drop_last(), terms);
        let all = page_sections(pages.last().path, pages.last().text, terms);
        if k < before.len() {
            lemma_hits_surface(pages.drop_last(), terms, k);
        } else {
            let pred = |s: SectionView| surfaces(s);
            all.lemma_filter_pred(pred, k - before.len());
        }
    }
}

/// A query of which no page contains any term finds nothing.
pub proof fn lemma_no_match_no_hits(pages: Seq<PageView>, terms: Seq<Seq<char>>)
    requires
        forall|k: int| 0 <= k < pages.len() ==> hits(pages[k].text, terms) == 0,
    ensures
        book_hits(pages, terms).len() == 0,
    decreases pages.len(),
{
    if pages.len() > 0 {
        lemma_no_match_no_hits(pages.drop_last(), terms);
    }
}

/// A failure to expand one of the first sections is the failure of them all.
pub proof fn lemma_expand_error_stays(
    sections: Seq<SectionView>,
    table: Seq<ListingView>,
    upto: int,
    end: int,
)
    requires
        0 <= upto <= end <= sections.len(),
        expand_all(sections.take(upto), table) is Err,
    ensures
        expand_all(sections.take(end), table) == expand_all(sections.take(upto), table),
    decreases end - upto,
{
    if upto < end {
        lemma_expand_error_stays(sections, table, upto, end - 1);
        assert(sections.take(end).drop_last() =~= sections.take(end - 1));
    }
}

/// A directive without a path in one of the first sections fails the requests
/// of them all.
pub proof fn lemma_requests_error_stays(sections: Seq<SectionView>, upto: int, end: int)
    requires
        0 <= upto <= end <= sections.len(),
        all_requests(sections.take(upto)) is Err,
    ensures
        all_requests(sections.take(end)) == all_requests(sections.take(upto)),
    decreases end - upto,
{
    if upto < end {
        lemma_requests_error_stays(sections, upto, end - 1);
        assert(sections.take(end).drop_last() =~= sections.take(end - 1));
    }
}

/// The sections of one page that are worth showing for a query.
pub fn page_hits(page: &Page, words: &Vec<String>) -> (found: Vec<Section>)
    ensures
        section_views(found@) == surfacing(page_sections(page.path@, page.text@, texts(words@))),
        forall|k: int|
            0 <= k < found.len() ==> {
                &&& (#[trigger] found[k]).mentions > 1
                &&& found[k].content@.len() > MIN_LENGTH
                &&& well_cut(page.text@, found[k].content@)
                &&& found[k].link@ == page.path@
            },
{
    let sections = search_page(&page.path, &page.text, words);
    let ghost all = sections@;
    let mut found: Vec<Section> = Vec::new();
    let mut at: usize = 0;
    let n: usize = sections.len();
    while at < n
        invariant
            at <= n,
            n == all.len(),
            all == sections@,
            section_views(found@) == surfacing(section_views(all).take(at as int)),
            forall|k: int|
                0 <= k < all.len() ==> {
                    &&& (#[trigger] all[k]).content@.len() > MIN_LENGTH
                    &&& well_cut(page.text@, all[k].content@)
                    &&& all[k].link@ == page.path@
                },
            forall|k: int|
                0 <= k < found.len() ==> {
                    &&& (#[trigger] found[k]).mentions > 1
                    &&& found[k].content@.len() > MIN_LENGTH
                    &&& well_cut(page.text@, found[k].content@)
                    &&& found[k].link@ == page.path@
                },
        decreases n - at,
    {
        let ghost seen = section_views(all).take(at as int);
        proof {
            assert(section_views(all).take(at + 1) =~= seen.push(all[at as int]@));
            lemma_surfacing_push(seen, all[at as int]@);
        }
        if sections[at].mentions > 1 {
            found.push(sections[at].duplicate());
        }
        at += 1;
    }
    assert(section_views(all).take(at as int) =~= section_views(all));
    found
}

/// The sections of the book that are worth showing for a query, page after
/// page, as they are cut from the pages: no listing is put in yet.
pub fn search_hits(pages: &Vec<Page>, words: &Vec<String>) -> (found: Vec<Section>)
    ensures
        section_views(found@) == book_hits(page_views(pages@), texts(words@)),
        forall|k: int|
            0 <= k < found.len() ==> {
                &&& (#[trigger] found[k]).mentions > 1
                &&& found[k].content@.len() > MIN_LENGTH
            },
{
    let mut found: Vec<Section> = Vec::new();
    let mut at: usize = 0;
    while at < pages.len()
        invariant
            at <= pages.len(),
            section_views(found@) == book_hits(page_views(pages@).take(at as int), texts(words@)),
            forall|k: int|
                0 <= k < found.len() ==> {
                    &&& (#[trigger] found[k]).mentions > 1
                    &&& found[k].content@.len() > MIN_LENGTH
                },
        decreases pages.len() - at,
    {
        let mut more = page_hits(&pages[at], words);
        found.append(&mut more);
        assert(page_views(pages@).take(at + 1).drop_last() =~= page_views(pages@).take(at as int));
        at += 1;
    }
    assert(page_views(pages@).take(at as int) =~= page_views(pages@));
    found
}

/// The paths of the listings that the given sections need, relative to the
/// root of the book: section after section, each in the order of its
/// directives. Fails with the first directive that names no path.
pub fn needed_listings(sections: &Vec<Section>) -> (paths: Result<Vec<String>, ListingError>)
    ensures
        match all_requests(section_views(sections@)) {
            Ok(p) => paths matches Ok(v) && texts(v@) == p,
            Err(e) => paths == Err::<Vec<String>, ListingError>(e),
        },
{
    let mut paths: Vec<String> = Vec::new();
    let mut at: usize = 0;
    assert(texts(paths@) =~= Seq::<Seq<char>>::empty());
    while at < sections.len()
        invariant
            at <= sections.len(),
            all_requests(section_views(sections@).take(at as int)) == Ok::<
                Seq<Seq<char>>,
                ListingError,
            >(texts(paths@)),
        decreases sections.len() - at,
    {
        let ghost before = paths@;
        assert(section_views(sections@).take(at + 1).drop_last() =~= section_views(
            sections@,
        ).take(at as int));
        match listing_requests(sections[at].content.as_str()) {
            Err(e) => {
                proof {
                    lemma_requests_error_stays(
                        section_views(sections@),
                        at + 1,
                        sections.len() as int,
                    );
                    assert(section_views(sections@).take(sections.len() as int)
                        =~= section_views(sections@));
                }
                return Err(e);
            },
            Ok(mut more) => {
                let ghost added = more@;
                paths.append(&mut more);
                assert(texts(paths@) =~= texts(before) + texts(added));
            },
        }
        at += 1;
    }
    assert(section_views(sections@).take(at as int) =~= section_views(sections@));
    Ok(paths)
}

/// Puts the listings into every one of the given sections. Fails with the
/// first directive that fails.
pub fn expand_sections(sections: Vec<Section>, table: &Vec<Listing>) -> (done: Result<
    Vec<Section>,
    ListingError,
>)
    ensures
        match expand_all(section_views(sections@), listing_views(table@)) {
            Ok(s) => done matches Ok(v) && section_views(v@) == s,
            Err(e) => done == Err::<Vec<Section>, ListingError>(e),
        },
        done matches Ok(v) ==> {
            &&& v.len() == sections.len()
            &&& forall|k: int|
                0 <= k < v.len() ==> {
                    &&& (#[trigger] v[k]).mentions == sections[k].mentions
                    &&& v[k].link@ == sections[k].link@
                }
        },
{
    let ghost given = sections@;
    let ghost lists = listing_views(table@);
    let n: usize = sections.len();
    let mut done: Vec<Section> = Vec::new();
    let mut at: usize = 0;
    assert(section_views(done@) =~= Seq::<SectionView>::empty());
    while at < n
        invariant
            at <= n,
            n == given.len(),
            sections@ == given,
            lists == listing_views(table@),
            done.len() == at,
            expand_all(section_views(given).take(at as int), lists) == Ok::<
                Seq<SectionView>,
                ListingError,
            >(section_views(done@)),
            forall|k: int|
                0 <= k < done.len() ==> {
                    &&& (#[trigger] done[k]).mentions == given[k].mentions
                    &&& done[k].link@ == given[k].link@
                },
        decreases n - at,
    {
        let ghost before = done@;
        assert(section_views(given).take(at + 1).drop_last() =~= section_views(given).take(
            at as int,
        ));
        let mut section = sections[at].duplicate();
        match parse_listings(&mut section, table) {
            Err(e) => {
                proof {
                    lemma_expand_error_stays(section_views(given), lists, at + 1, n as int);
                    assert(section_views(given).take(n as int) =~= section_views(given));
                }
                return Err(e);
            },
            Ok(_) => {
                done.push(section);
                assert(section_views(done@) =~= section_views(before).push(section@));
            },
        }
        at += 1;
    }
    assert(section_views(given).take(at as int) =~= section_views(given));
    Ok(done)
}

/// Searches the book for a query: the sections worth showing, in the order of
/// the pages, with their listings put in. Fails with the first directive that
/// fails in a section worth showing.
pub fn search_book(pages: &Vec<Page>, table: &Vec<Listing>, words: &Vec<String>) -> (found: Result<
    Vec<Section>,
    ListingError,
>)
    ensures
        match book_results(page_views(pages@), listing_views(table@), texts(words@)) {
            Ok(s) => found matches Ok(v) && section_views(v@) == s,
            Err(e) => found == Err::<Vec<Section>, ListingError>(e),
        },
        found matches Ok(v) ==> forall|k: int| 0 <= k < v.len() ==> (#[trigger] v[k]).mentions > 1,
{
    let hits = search_hits(pages, words);
    expand_sections(hits, table)
}

/// Searches the book for a query and ranks what it finds: the sections worth
/// showing, with their listings put in, the highest score first and sections
/// of the same score in the order of the pages. Fails with the first
/// directive that fails in a section worth showing.
pub fn search(pages: &Vec<Page>, table: &Vec<Listing>, words: &Vec<String>) -> (found: Result<
    Vec<Section>,
    ListingError,
>)
    ensures
        outcome_view(found) == search_results(
            page_views(pages@),
            listing_views(table@),
            texts(words@),
        ),
        found matches Ok(v) ==> {
            &&& descending(section_views(v@))
            &&& forall|k: int| 0 <= k < v.len() ==> (#[trigger] v[k]).mentions > 1
        },
{
    match search_book(pages, table, words) {
        Err(e) => Err(e),
        Ok(sections) => {
            let ordered = rank(sections);
            proof {
                assert forall|k: int| 0 <= k < ordered.len() implies (#[trigger] ordered[
                    k
                ]).mentions > 1 by {
                    lemma_results_surface(
                        page_views(pages@),
                        listing_views(table@),
                        texts(words@),
                        k,
                    );
                }
            }
            Ok(ordered)
        },
    }
}

} // verus!
