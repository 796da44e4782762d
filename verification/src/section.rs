//! The data that a search works on: pages, listings and sections.

use vstd::prelude::*;

verus! {

/// One markdown file of the book: where it lies, and what it holds.
#[derive(Debug)]
pub struct Page {
    /// The path of the file.
    pub path: String,
    /// The text of the file.
    pub text: String,
}

/// One file of code that pages refer to: its path below the root of the book,
/// and what it holds.
#[derive(Debug)]
pub struct Listing {
    /// The path of the file, relative to the root of the book.
    pub path: String,
    /// The text of the file.
    pub text: String,
}

/// One region of a page, from one heading to the next: the unit that is
/// searched, ranked and shown.
#[derive(Debug)]
pub struct Section {
    /// The markdown text of the region.
    pub content: String,
    /// The relevance of the region to the query: the sum of the weights of all
    /// the places where a term of the query was found. The type is wide enough
    /// for a query of any length.
    pub mentions: u128,
    /// The path of the page that the region was cut from.
    pub link: String,
}

/// A page as a mathematical value.
pub struct PageView {
    pub path: Seq<char>,
    pub text: Seq<char>,
}

impl View for Page {
    type V = PageView;

    open spec fn view(&self) -> PageView {
        PageView { path: self.path@, text: self.text@ }
    }
}

/// The views of a sequence of pages.
pub open spec fn page_views(pages: Seq<Page>) -> Seq<PageView> {
    pages.map_values(|p: Page| p@)
}

/// A listing as a mathematical value.
pub struct ListingView {
    pub path: Seq<char>,
    pub text: Seq<char>,
}

impl View for Listing {
    type V = ListingView;

    open spec fn view(&self) -> ListingView {
        ListingView { path: self.path@, text: self.text@ }
    }
}

/// The views of a sequence of listings.
pub open spec fn listing_views(listings: Seq<Listing>) -> Seq<ListingView> {
    listings.map_values(|l: Listing| l@)
}

/// A section as a mathematical value.
pub struct SectionView {
    pub content: Seq<char>,
    pub mentions: nat,
    pub link: Seq<char>,
}

impl View for Section {
    type V = SectionView;

    open spec fn view(&self) -> SectionView {
        SectionView { content: self.content@, mentions: self.mentions as nat, link: self.link@ }
    }
}

/// The views of a sequence of sections.
pub open spec fn section_views(sections: Seq<Section>) -> Seq<SectionView> {
    sections.map_values(|s: Section| s@)
}

impl Section {
    /// A section with the given text, relevance and page.
    pub fn new(content: String, mentions: u128, link: String) -> (section: Section)
        ensures
            section.content == content,
            section.mentions == mentions,
            section.link == link,
    {
        Section { content, mentions, link }
    }

    /// A copy of this section.
    pub fn duplicate(&self) -> (copy: Section)
        ensures
            copy@ == self@,
    {
        Section {
            content: self.content.clone(),
            mentions: self.mentions,
            link: self.link.clone(),
        }
    }
}

} // verus!
