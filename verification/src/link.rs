//! From the link of a section to what is opened outside the terminal.
//!
//! A section links to the markdown file it was cut from. What a browser shows
//! is the page built from that file, which lies in the directory `book` where
//! the source lies in `src`, and ends in `.html` where the source ends in
//! `.md`.

use crate::text::{
    chars_of, ends_with, find_char, lemma_find_char, position_of, push_all, slice_of, string_of,
};
use vstd::prelude::*;

verus! {

/// The name of the directory that holds the sources of the pages.
pub open spec fn source_dir() -> Seq<char> {
    "src"@
}

/// The name of the directory that holds the pages as built.
pub open spec fn built_dir() -> Seq<char> {
    "book"@
}

/// How the name of a source file ends.
pub open spec fn source_suffix() -> Seq<char> {
    ".md"@
}

/// How the name of a built page ends.
pub open spec fn built_suffix() -> Seq<char> {
    ".html"@
}

/// One segment of a path as it appears in the path of the built page.
pub open spec fn built_segment(segment: Seq<char>) -> Seq<char> {
    if segment == source_dir() {
        built_dir()
    } else {
        segment
    }
}

/// The path with every segment `src` replaced by `book`. Segments are what
/// stands between slashes.
pub open spec fn built_segments(path: Seq<char>) -> Seq<char>
    decreases path.len(),
{
    let end = find_char(path, '/');
    if end < 0 || end >= path.len() {
        built_segment(path)
    } else {
        built_segment(path.take(end)) + seq!['/'] + built_segments(path.skip(end + 1))
    }
}

/// The path with a final `.md` replaced by `.html`.
pub open spec fn built_name(path: Seq<char>) -> Seq<char> {
    if source_suffix().is_suffix_of(path) {
        path.take(path.len() - source_suffix().len()) + built_suffix()
    } else {
        path
    }
}

/// What is opened for a link: the link itself if it ends in `.html`, else the
/// built page for the source file that it names.
pub open spec fn open_target_of(link: Seq<char>) -> Seq<char> {
    if built_suffix().is_suffix_of(link) {
        link
    } else {
        built_name(built_segments(link))
    }
}

/// The characters of a path with every segment `src` replaced by `book`.
pub fn replace_source_dir(path: &Vec<char>) -> (built: Vec<char>)
    ensures
        built@ == built_segments(path@),
{
    let source = chars_of("src");
    let target = chars_of("book");
    let n: usize = path.len();
    let mut built: Vec<char> = Vec::new();
    let mut start: usize = 0;
    assert(path@.skip(0) =~= path@);
    loop
        invariant
            n == path.len(),
            start <= n,
            source@ == source_dir(),
            target@ == built_dir(),
            built@ + built_segments(path@.skip(start as int)) == built_segments(path@),
        decreases n - start,
    {
        let rest = slice_of(path, start, n);
        let end = position_of(&rest, '/');
        proof {
            lemma_find_char(rest@, '/');
        }
        let segment = slice_of(&rest, 0, end);
        if same_chars(&segment, &source) {
            push_all(&mut built, &target);
        } else {
            push_all(&mut built, &segment);
        }
        if end >= rest.len() {
            assert(segment@ =~= rest@);
            return built;
        }
        built.push('/');
        assert(rest@.skip(end + 1) =~= path@.skip(start + end + 1));
        start = start + end + 1;
    }
}

/// Whether two vectors hold the same characters.
pub fn same_chars(a: &Vec<char>, b: &Vec<char>) -> (same: bool)
    ensures
        same == (a@ == b@),
{
    if a.len() != b.len() {
        return false;
    }
    let mut at: usize = 0;
    while at < a.len()
        invariant
            at <= a.len(),
            a.len() == b.len(),
            forall|k: int| 0 <= k < at ==> a@[k] == b@[k],
        decreases a.len() - at,
    {
        if a[at] != b[at] {
            return false;
        }
        at += 1;
    }
    assert(a@ =~= b@);
    true
}

/// What is opened for a link: the link itself if it ends in `.html`; else the
/// link with every segment `src` replaced by `book` and a final `.md` by
/// `.html`.
pub fn open_target(link: &str) -> (target: String)
    ensures
        target@ == open_target_of(link@),
{
    let chars = chars_of(link);
    let html = chars_of(".html");
    let md = chars_of(".md");
    if ends_with(&chars, &html) {
        return string_of(&chars);
    }
    let moved = replace_source_dir(&chars);
    if ends_with(&moved, &md) {
        let mut target = slice_of(&moved, 0, moved.len() - md.len());
        push_all(&mut target, &html);
        string_of(&target)
    } else {
        string_of(&moved)
    }
}

} // verus!
