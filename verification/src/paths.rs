//! Where the book lies on disk, and what has to be there before a search.
//!
//! The library does not touch the disk. It names the places, says which files
//! of a directory listing are pages, and decides what has to be done when a
//! place turns out to be missing; the caller looks and acts.

use crate::text::{chars_of, ends_with, texts};
use vstd::prelude::*;
use vstd::string::StringExecFns;

verus! {

/// The directory of this program below a home directory.
pub open spec fn dir_path_in(home: Seq<char>) -> Seq<char> {
    home + "/thebook/"@
}

/// The root of the book below a home directory.
pub open spec fn book_path_in(home: Seq<char>) -> Seq<char> {
    dir_path_in(home) + "book/"@
}

/// The directory below the root of the book that holds the sources of the
/// pages.
pub open spec fn pages_dir_in(root: Seq<char>) -> Seq<char> {
    root + "src"@
}

/// The first page of the book as built, below the root of the book.
pub open spec fn index_page_in(root: Seq<char>) -> Seq<char> {
    root + "book/index.html"@
}

/// The file of a listing whose path is given relative to the root of the book.
pub open spec fn listing_file_in(root: Seq<char>, path: Seq<char>) -> Seq<char> {
    root + path
}

/// A path names a page of the book: it ends in `.md`.
pub open spec fn is_page_path(path: Seq<char>) -> bool {
    ".md"@.is_suffix_of(path)
}

/// The paths among `entries` that name pages, in their order.
pub open spec fn page_paths(entries: Seq<Seq<char>>) -> Seq<Seq<char>> {
    entries.filter(|p: Seq<char>| is_page_path(p))
}

/// What has to be done before the book can be read.
#[derive(Debug)]
pub enum Repair {
    /// Nothing: the place is there.
    Nothing,
    /// The directory of this program has to be created at the given path.
    CreateDir(String),
    /// The book has to be fetched and built at the given path.
    FetchBook(String),
}

/// `dirs::home_dir`: the home directory of the user, where the system knows
/// one and its path is valid Unicode. The result depends on the user and the
/// machine, so nothing is claimed of it.
#[verifier::external_body]
fn home_dir() -> (home: Option<String>) {
    match dirs::home_dir() {
        Some(path) => match path.into_os_string().into_string() {
            Ok(text) => Some(text),
            Err(_) => None,
        },
        None => None,
    }
}

/// The directory of this program below the home directory `home`.
pub fn dir_path_from(home: &str) -> (path: String)
    ensures
        path@ == dir_path_in(home@),
{
    String::from_str(home).concat("/thebook/")
}

/// The root of the book below the home directory `home`.
pub fn book_path_from(home: &str) -> (path: String)
    ensures
        path@ == book_path_in(home@),
{
    dir_path_from(home).concat("book/")
}

/// The directory of this program, below the home directory of the user; `None`
/// where no home directory is known.
pub fn get_dir_path() -> (path: Option<String>)
    ensures
        path matches Some(p) ==> exists|home: Seq<char>| p@ == dir_path_in(home),
{
    let home = home_dir();
    let ghost known = home;
    let path = dir_path_of(home);
    proof {
        assert(path matches Some(p) ==> p@ == dir_path_in(known->0@));
    }
    path
}

/// The root of the book, below the home directory of the user; `None` where no
/// home directory is known.
pub fn get_book_path() -> (path: Option<String>)
    ensures
        path matches Some(p) ==> exists|home: Seq<char>| p@ == book_path_in(home),
{
    let home = home_dir();
    let ghost known = home;
    let path = book_path_of(home);
    proof {
        assert(path matches Some(p) ==> p@ == book_path_in(known->0@));
    }
    path
}

/// The directory of this program for what is known of the home directory:
/// below it where one is known, and none where none is.
pub fn dir_path_of(home: Option<String>) -> (path: Option<String>)
    ensures
        match home {
            Some(h) => path matches Some(p) && p@ == dir_path_in(h@),
            None => path is None,
        },
{
    match home {
        Some(home) => Some(dir_path_from(home.as_str())),
        None => None,
    }
}

/// The root of the book for what is known of the home directory: below it
/// where one is known, and none where none is.
pub fn book_path_of(home: Option<String>) -> (path: Option<String>)
    ensures
        match home {
            Some(h) => path matches Some(p) && p@ == book_path_in(h@),
            None => path is None,
        },
{
    match home {
        Some(home) => Some(book_path_from(home.as_str())),
        None => None,
    }
}

/// The directory that holds the sources of the pages, below the root `root`
/// of the book.
pub fn pages_dir(root: &str) -> (path: String)
    ensures
        path@ == pages_dir_in(root@),
{
    String::from_str(root).concat("src")
}

/// The first page of the book as built, which is opened where nothing is
/// searched for.
pub fn index_page(root: &str) -> (path: String)
    ensures
        path@ == index_page_in(root@),
{
    String::from_str(root).concat("book/index.html")
}

/// The file that holds the listing at `path`, which is relative to the root
/// `root` of the book.
pub fn listing_file(root: &str, path: &str) -> (file: String)
    ensures
        file@ == listing_file_in(root@, path@),
{
    String::from_str(root).concat(path)
}

/// What to do about the directory of this program at `path`, given whether it
/// exists: create it if it does not.
pub fn verify_dir(path: String, exists: bool) -> (repair: Repair)
    ensures
        exists ==> repair == Repair::Nothing,
        !exists ==> repair == Repair::CreateDir(path),
{
    if exists {
        Repair::Nothing
    } else {
        Repair::CreateDir(path)
    }
}

/// What to do about the book at `path`, given whether it exists: fetch it if it
/// does not.
pub fn verify_book(path: String, exists: bool) -> (repair: Repair)
    ensures
        exists ==> repair == Repair::Nothing,
        !exists ==> repair == Repair::FetchBook(path),
{
    if exists {
        Repair::Nothing
    } else {
        Repair::FetchBook(path)
    }
}

/// Adding one entry to a directory listing adds it to the pages if and only if
/// it names one.
pub proof fn lemma_page_paths_push(entries: Seq<Seq<char>>, entry: Seq<char>)
    ensures
        page_paths(entries.push(entry)) == if is_page_path(entry) {
            page_paths(entries).push(entry)
        } else {
            page_paths(entries)
        },
{
    entries.lemma_filter_push(entry, |p: Seq<char>| is_page_path(p));
}

/// The pages among the entries of a directory listing: the paths that end in
/// `.md`, in the order of the listing.
pub fn get_files(entries: &Vec<String>) -> (files: Vec<String>)
    ensures
        texts(files@) == page_paths(texts(entries@)),
{
    let suffix = chars_of(".md");
    let mut files: Vec<String> = Vec::new();
    let mut at: usize = 0;
    while at < entries.len()
        invariant
            at <= entries.len(),
            suffix@ == ".md"@,
            texts(files@) == page_paths(texts(entries@).take(at as int)),
        decreases entries.len() - at,
    {
        let entry = &entries[at];
        let ghost seen = texts(entries@).take(at as int);
        proof {
            assert(texts(entries@).take(at + 1) =~= seen.push(entry@));
            lemma_page_paths_push(seen, entry@);
        }
        let chars = chars_of(entry.as_str());
        if ends_with(&chars, &suffix) {
            files.push(entry.clone());
        }
        at += 1;
    }
    assert(texts(entries@).take(at as int) =~= texts(entries@));
    files
}

} // verus!
