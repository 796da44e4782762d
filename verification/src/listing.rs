//! Code listings that a section pulls in from other files.
//!
//! A section names a listing by a directive in double braces, such as
//! `{{#include listings/hello.rs}}` or, with an anchor that is ignored,
//! `{{#rustdoc_include ../listings/hello.rs:here}}`. The path is taken from
//! the root of the book; pages lie one directory below it, so the step up that
//! a path may begin with is dropped.
//!
//! Expanding a section puts a line break and the whole file in the place of
//! each directive, and leaves out every tag, from `<` to the next `>`, so that
//! no raw markup reaches the screen. The scan goes from left to right. A
//! directive is read wherever it stands, inside a tag too; what stands in a
//! directive is never read as a tag.
//!
//! The files themselves are handed in as a table of listings. Double braces
//! that hold no directive, opening braces that are never closed, closing
//! braces that nothing opened and that a character follows, and a directive
//! that names a file the table lacks fail the expansion.

use crate::section::{Listing, ListingView, Section, listing_views};
use crate::text::{
    chars_of, ends_with, find_char, lemma_find_char, position_of, push_all, rows, slice_of,
    starts_with, string_of, strings_of, texts, trim_bounds, trimmed,
};
use vstd::prelude::*;

verus! {

/// Why a section could not be expanded.
#[derive(Debug, Clone, Copy, PartialEq, Eq, Structural)]
pub enum ListingError {
    /// What stands in front of two closing braces does not begin with the
    /// name of a directive and a space, or nothing stands there at all.
    MissingPrefix,
    /// A directive does not end with two closing braces: opening braces are
    /// never closed.
    MissingSuffix,
    /// The table has no listing for the path that a directive names.
    NotFound,
}

/// How a directive begins that takes a listing with its hidden lines.
pub open spec fn rustdoc_prefix() -> Seq<char> {
    "{{#rustdoc_include "@
}

/// How a plain directive begins.
pub open spec fn include_prefix() -> Seq<char> {
    "{{#include "@
}

/// How every directive ends.
pub open spec fn directive_end() -> Seq<char> {
    "}}"@
}

/// The step from the directory of the pages up to the root of the book, which
/// a path in a directive may begin with.
pub open spec fn parent_prefix() -> Seq<char> {
    "../"@
}

/// What follows the name of the directive, if `text` begins with one.
pub open spec fn directive_body(text: Seq<char>) -> Option<Seq<char>> {
    if rustdoc_prefix().is_prefix_of(text) {
        Some(text.skip(rustdoc_prefix().len() as int))
    } else if include_prefix().is_prefix_of(text) {
        Some(text.skip(include_prefix().len() as int))
    } else {
        None
    }
}

/// The path that a directive names, relative to the root of the book: what
/// stands between the name of the directive and the closing braces, without a
/// leading `../` and without the anchor that may follow a colon. White space
/// around the directive is ignored.
pub open spec fn directive_path(directive: Seq<char>) -> Result<Seq<char>, ListingError> {
    match directive_body(trimmed(directive)) {
        None => Err(ListingError::MissingPrefix),
        Some(body) => if !directive_end().is_suffix_of(body) {
            Err(ListingError::MissingSuffix)
        } else {
            let inner = body.take(body.len() - directive_end().len());
            let path = if parent_prefix().is_prefix_of(inner) {
                inner.skip(parent_prefix().len() as int)
            } else {
                inner
            };
            Ok(path.take(find_char(path, ':')))
        },
    }
}

/// The text of the first listing in the table with the given path.
pub open spec fn lookup(table: Seq<ListingView>, path: Seq<char>) -> Option<Seq<char>>
    decreases table.len(),
{
    if table.len() == 0 {
        None
    } else if table[0].path == path {
        Some(table[0].text)
    } else {
        lookup(table.drop_first(), path)
    }
}

/// The text that a directive stands for.
pub open spec fn resolve(directive: Seq<char>, table: Seq<ListingView>) -> Result<
    Seq<char>,
    ListingError,
> {
    match directive_path(directive) {
        Err(e) => Err(e),
        Ok(path) => match lookup(table, path) {
            Some(text) => Ok(text),
            None => Err(ListingError::NotFound),
        },
    }
}

/// Two opening braces stand at position `at`: a directive begins there.
pub open spec fn starts_directive(content: Seq<char>, at: int) -> bool {
    &&& 0 <= at
    &&& at + 1 < content.len()
    &&& content[at] == '{'
    &&& content[at + 1] == '{'
}

/// The first position at or after `from` where two closing braces stand, or
/// the length of the text if they stand nowhere.
pub open spec fn closing_from(content: Seq<char>, from: int) -> int
    decreases content.len() - from,
{
    if from < 0 || from + 1 >= content.len() {
        content.len() as int
    } else if content[from] == '}' && content[from + 1] == '}' {
        from
    } else {
        closing_from(content, from + 1)
    }
}

/// The first position at or after `from` where a `>` stands, or the length of
/// the text if none does.
pub open spec fn angle_from(content: Seq<char>, from: int) -> int
    decreases content.len() - from,
{
    if from < 0 || from >= content.len() {
        content.len() as int
    } else if content[from] == '>' {
        from
    } else {
        angle_from(content, from + 1)
    }
}

/// Two closing braces stand at position `at`, outside any directive, and a
/// character follows them: they end a directive that never began.
pub open spec fn stray_at(content: Seq<char>, at: int) -> bool {
    &&& 0 <= at
    &&& at + 2 < content.len()
    &&& content[at] == '}'
    &&& content[at + 1] == '}'
}

/// A `<` stands at position `at` and some `>` follows it: a tag begins there.
pub open spec fn opens_tag(content: Seq<char>, at: int) -> bool {
    &&& 0 <= at < content.len()
    &&& content[at] == '<'
    &&& angle_from(content, at) < content.len()
}

/// What stands at a position of a text.
pub enum Item {
    /// A directive, from its opening braces up to `end`, just behind its
    /// closing braces.
    Directive { end: int },
    /// Opening braces that no closing braces follow.
    Unclosed,
    /// Closing braces that nothing opened and that a character follows.
    Stray,
    /// Any other character, closing braces at the very end among them.
    Plain,
}

/// What stands at position `at`, which lies in the text.
pub open spec fn item_at(content: Seq<char>, at: int) -> Item {
    if starts_directive(content, at) {
        let close = closing_from(content, at + 2);
        if close >= content.len() {
            Item::Unclosed
        } else {
            Item::Directive { end: close + 2 }
        }
    } else if stray_at(content, at) {
        Item::Stray
    } else {
        Item::Plain
    }
}

/// `text` in front of what an expansion gives, where it gives anything.
pub open spec fn prepend(text: Seq<char>, rest: Result<Seq<char>, ListingError>) -> Result<
    Seq<char>,
    ListingError,
> {
    match rest {
        Ok(more) => Ok(text + more),
        Err(e) => Err(e),
    }
}

/// The expansion of a text from position `from` on, which lies in a tag or
/// not. A directive gives a line break and the text that it stands for,
/// whether it stands in a tag or not. Of the other characters, those of a tag
/// give nothing: a tag begins at a `<` that some `>` follows, and ends behind
/// the next `>` outside a directive. Any other character gives itself.
///
/// The first failure is the failure of the whole: a directive that fails,
/// opening braces that are never closed, which fail for want of a suffix, or
/// closing braces that nothing opened and that a character follows, which
/// fail for want of a prefix.
pub open spec fn expand_from(
    content: Seq<char>,
    table: Seq<ListingView>,
    from: int,
    in_tag: bool,
) -> Result<Seq<char>, ListingError>
    decreases content.len() - from,
    via expand_from_decreases
{
    if from < 0 || from >= content.len() {
        Ok(Seq::empty())
    } else {
        match item_at(content, from) {
            Item::Directive { end } => match resolve(content.subrange(from, end), table) {
                Err(e) => Err(e),
                Ok(text) => prepend(seq!['\n'] + text, expand_from(content, table, end, in_tag)),
            },
            Item::Unclosed => Err(ListingError::MissingSuffix),
            Item::Stray => Err(ListingError::MissingPrefix),
            Item::Plain => if in_tag {
                expand_from(content, table, from + 1, content[from] != '>')
            } else if opens_tag(content, from) {
                expand_from(content, table, from + 1, true)
            } else {
                prepend(seq![content[from]], expand_from(content, table, from + 1, false))
            },
        }
    }
}

#[via_fn]
proof fn expand_from_decreases(
    content: Seq<char>,
    table: Seq<ListingView>,
    from: int,
    in_tag: bool,
) {
    if 0 <= from < content.len() {
        lemma_item_end(content, from);
    }
}

/// `paths` in front of the paths that follow, where there are any.
pub open spec fn prepend_paths(
    paths: Seq<Seq<char>>,
    rest: Result<Seq<Seq<char>>, ListingError>,
) -> Result<Seq<Seq<char>>, ListingError> {
    match rest {
        Ok(more) => Ok(paths + more),
        Err(e) => Err(e),
    }
}

/// The paths that the directives of a text name, from position `from` on and
/// in their order. The first failure is the failure of the whole: a directive
/// that names no path, opening braces that are never closed, or closing braces
/// that nothing opened and that a character follows.
pub open spec fn requests_from(content: Seq<char>, from: int) -> Result<
    Seq<Seq<char>>,
    ListingError,
>
    decreases content.len() - from,
    via requests_from_decreases
{
    if from < 0 || from >= content.len() {
        Ok(Seq::empty())
    } else {
        match item_at(content, from) {
            Item::Directive { end } => match directive_path(content.subrange(from, end)) {
                Err(e) => Err(e),
                Ok(path) => prepend_paths(seq![path], requests_from(content, end)),
            },
            Item::Unclosed => Err(ListingError::MissingSuffix),
            Item::Stray => Err(ListingError::MissingPrefix),
            Item::Plain => requests_from(content, from + 1),
        }
    }
}

#[via_fn]
proof fn requests_from_decreases(content: Seq<char>, from: int) {
    if 0 <= from < content.len() {
        lemma_item_end(content, from);
    }
}

/// The expansion of a section: its text with every directive replaced by a
/// line break and the listing that it names, and without its tags; or the
/// failure of its first directive that fails.
pub open spec fn expansion(content: Seq<char>, table: Seq<ListingView>) -> Result<
    Seq<char>,
    ListingError,
> {
    expand_from(content, table, 0, false)
}

/// The paths of the listings that a section needs, in the order of its
/// directives.
pub open spec fn requests(content: Seq<char>) -> Result<Seq<Seq<char>>, ListingError> {
    requests_from(content, 0)
}

/// Closing braces are found at or after the place where the search began, and
/// within the text.
pub proof fn lemma_closing_from(content: Seq<char>, from: int)
    requires
        0 <= from,
    ensures
        from <= closing_from(content, from) || closing_from(content, from) == content.len(),
        closing_from(content, from) <= content.len(),
        closing_from(content, from) < content.len() ==> {
            &&& closing_from(content, from) + 1 < content.len()
            &&& content[closing_from(content, from)] == '}'
            &&& content[closing_from(content, from) + 1] == '}'
        },
        forall|k: int|
            from <= k < closing_from(content, from) && k + 1 < content.len() ==> !(
            #[trigger] content[k] == '}' && content[k + 1] == '}'),
    decreases content.len() - from,
{
    if from + 1 < content.len() && !(content[from] == '}' && content[from + 1] == '}') {
        lemma_closing_from(content, from + 1);
    }
}

/// A directive ends behind the position where it begins, and within the
/// text.
pub proof fn lemma_item_end(content: Seq<char>, at: int)
    requires
        0 <= at < content.len(),
    ensures
        item_at(content, at) matches Item::Directive { end } ==> at + 4 <= end <= content.len(),
{
    lemma_closing_from(content, at + 2);
}

/// The path that a directive names.
pub fn path_of_directive(directive: &Vec<char>) -> (path: Result<Vec<char>, ListingError>)
    ensures
        match directive_path(directive@) {
            Ok(p) => path matches Ok(v) && v@ == p,
            Err(e) => path == Err::<Vec<char>, ListingError>(e),
        },
{
    let (from, to) = trim_bounds(directive);
    let text = slice_of(directive, from, to);
    let rustdoc = chars_of("{{#rustdoc_include ");
    let plain = chars_of("{{#include ");
    let end = chars_of("}}");
    let parent = chars_of("../");
    let start: usize = if starts_with(&text, &rustdoc) {
        rustdoc.len()
    } else if starts_with(&text, &plain) {
        plain.len()
    } else {
        return Err(ListingError::MissingPrefix);
    };
    let body = slice_of(&text, start, text.len());
    if !ends_with(&body, &end) {
        return Err(ListingError::MissingSuffix);
    }
    let inner = slice_of(&body, 0, body.len() - end.len());
    let skip: usize = if starts_with(&inner, &parent) {
        parent.len()
    } else {
        0
    };
    let rest = slice_of(&inner, skip, inner.len());
    assert(rest@ =~= if parent_prefix().is_prefix_of(inner@) {
        inner@.skip(parent_prefix().len() as int)
    } else {
        inner@
    });
    let cut = position_of(&rest, ':');
    proof {
        lemma_find_char(rest@, ':');
    }
    Ok(slice_of(&rest, 0, cut))
}

/// The path that a directive names, relative to the root of the book.
pub fn listing_path(directive: &str) -> (path: Result<String, ListingError>)
    ensures
        match directive_path(directive@) {
            Ok(p) => path matches Ok(s) && s@ == p,
            Err(e) => path == Err::<String, ListingError>(e),
        },
{
    let chars = chars_of(directive);
    match path_of_directive(&chars) {
        Ok(path) => Ok(string_of(&path)),
        Err(e) => Err(e),
    }
}

/// The text of the first listing in the table with the given path.
pub fn find_listing<'a>(table: &'a Vec<Listing>, path: &String) -> (found: Option<&'a String>)
    ensures
        match lookup(listing_views(table@), path@) {
            Some(text) => found matches Some(s) && s@ == text,
            None => found is None,
        },
{
    let mut at: usize = 0;
    assert(listing_views(table@).skip(0) =~= listing_views(table@));
    while at < table.len()
        invariant
            at <= table.len(),
            lookup(listing_views(table@), path@) == lookup(
                listing_views(table@).skip(at as int),
                path@,
            ),
        decreases table.len() - at,
    {
        let ghost rest = listing_views(table@).skip(at as int);
        assert(rest.drop_first() =~= listing_views(table@).skip(at + 1));
        if table[at].path == *path {
            return Some(&table[at].text);
        }
        at += 1;
    }
    None
}

/// The text that a directive stands for.
pub fn resolve_directive(directive: &Vec<char>, table: &Vec<Listing>) -> (text: Result<
    Vec<char>,
    ListingError,
>)
    ensures
        match resolve(directive@, listing_views(table@)) {
            Ok(t) => text matches Ok(v) && v@ == t,
            Err(e) => text == Err::<Vec<char>, ListingError>(e),
        },
{
    match path_of_directive(directive) {
        Err(e) => Err(e),
        Ok(path) => {
            let path = string_of(&path);
            match find_listing(table, &path) {
                Some(text) => Ok(chars_of(text.as_str())),
                None => Err(ListingError::NotFound),
            }
        },
    }
}

/// The first position at or after `from` where two closing braces stand.
pub fn closing_position(content: &Vec<char>, from: usize) -> (at: usize)
    ensures
        at == closing_from(content@, from as int),
{
    let n: usize = content.len();
    let mut at: usize = from;
    while at < n && n - at > 1 && !(content[at] == '}' && content[at + 1] == '}')
        invariant
            n == content.len(),
            from <= at,
            closing_from(content@, from as int) == closing_from(content@, at as int),
        decreases n - at,
    {
        at += 1;
    }
    if at < n && n - at > 1 {
        at
    } else {
        n
    }
}

/// The first position at or after `from` where a `>` stands.
pub fn angle_position(content: &Vec<char>, from: usize) -> (at: usize)
    ensures
        at == angle_from(content@, from as int),
{
    let n: usize = content.len();
    let mut at: usize = from;
    while at < n && content[at] != '>'
        invariant
            n == content.len(),
            from <= at,
            angle_from(content@, from as int) == angle_from(content@, at as int),
        decreases n - at,
    {
        at += 1;
    }
    if at < n {
        at
    } else {
        n
    }
}

/// What stands at a position of a text, as the scan finds it.
pub enum Found {
    /// A directive that ends just in front of the given position.
    Directive(usize),
    /// Opening braces that no closing braces follow.
    Unclosed,
    /// Closing braces that nothing opened and that a character follows.
    Stray,
    /// Any other character.
    Plain,
}

impl View for Found {
    type V = Item;

    open spec fn view(&self) -> Item {
        match *self {
            Found::Directive(end) => Item::Directive { end: end as int },
            Found::Unclosed => Item::Unclosed,
            Found::Stray => Item::Stray,
            Found::Plain => Item::Plain,
        }
    }
}

/// Whether two opening braces stand at position `at`.
pub fn directive_starts(content: &Vec<char>, at: usize) -> (b: bool)
    ensures
        b == starts_directive(content@, at as int),
{
    at < content.len() && content.len() - at > 1 && content[at] == '{' && content[at + 1] == '{'
}

/// Whether closing braces that nothing opened stand at position `at`, with a
/// character behind them.
pub fn stray_closing(content: &Vec<char>, at: usize) -> (b: bool)
    ensures
        b == stray_at(content@, at as int),
{
    at < content.len() && content.len() - at > 2 && content[at] == '}' && content[at + 1] == '}'
}

/// Whether a tag begins at position `at`.
pub fn tag_opens(content: &Vec<char>, at: usize) -> (b: bool)
    ensures
        b == opens_tag(content@, at as int),
{
    at < content.len() && content[at] == '<' && angle_position(content, at) < content.len()
}

/// What stands at position `at` of a text.
pub fn find_item(content: &Vec<char>, at: usize) -> (found: Found)
    requires
        at < content.len(),
    ensures
        found@ == item_at(content@, at as int),
        found matches Found::Directive(end) ==> at + 4 <= end <= content.len(),
{
    proof {
        lemma_item_end(content@, at as int);
    }
    if directive_starts(content, at) {
        let close = closing_position(content, at + 2);
        if close >= content.len() {
            Found::Unclosed
        } else {
            Found::Directive(close + 2)
        }
    } else if stray_closing(content, at) {
        Found::Stray
    } else {
        Found::Plain
    }
}

/// Expands the characters of a section.
pub fn expand_chars(content: &Vec<char>, table: &Vec<Listing>) -> (text: Result<
    Vec<char>,
    ListingError,
>)
    ensures
        match expansion(content@, listing_views(table@)) {
            Ok(t) => text matches Ok(v) && v@ == t,
            Err(e) => text == Err::<Vec<char>, ListingError>(e),
        },
{
    let n: usize = content.len();
    let ghost lists = listing_views(table@);
    let mut out: Vec<char> = Vec::new();
    let mut in_tag: bool = false;
    let mut at: usize = 0;
    assert(prepend(out@, expansion(content@, lists)) == expansion(content@, lists)) by {
        match expansion(content@, lists) {
            Ok(all) => assert(out@ + all =~= all),
            Err(_) => {},
        }
    }
    while at < n
        invariant
            n == content.len(),
            at <= n,
            lists == listing_views(table@),
            prepend(out@, expand_from(content@, lists, at as int, in_tag)) == expansion(
                content@,
                lists,
            ),
        decreases n - at,
    {
        let ghost before = out@;
        let ghost here = at as int;
        match find_item(content, at) {
            Found::Directive(end) => {
                let directive = slice_of(content, at, end);
                match resolve_directive(&directive, table) {
                    Err(e) => {
                        return Err(e);
                    },
                    Ok(listing) => {
                        out.push('\n');
                        push_all(&mut out, &listing);
                        at = end;
                        proof {
                            match expand_from(content@, lists, end as int, in_tag) {
                                Ok(rest) => assert(out@ + rest =~= before + ((seq!['\n']
                                    + listing@) + rest)),
                                Err(_) => {},
                            }
                        }
                    },
                }
            },
            Found::Unclosed => {
                return Err(ListingError::MissingSuffix);
            },
            Found::Stray => {
                return Err(ListingError::MissingPrefix);
            },
            Found::Plain => {
                if in_tag {
                    in_tag = content[at] != '>';
                } else if tag_opens(content, at) {
                    in_tag = true;
                } else {
                    out.push(content[at]);
                    proof {
                        match expand_from(content@, lists, here + 1, false) {
                            Ok(rest) => assert(out@ + rest =~= before + (seq![content@[here]]
                                + rest)),
                            Err(_) => {},
                        }
                    }
                }
                at += 1;
            },
        }
    }
    Ok(out)
}

/// The paths of the listings that the characters of a section ask for.
pub fn requests_of(content: &Vec<char>) -> (paths: Result<Vec<Vec<char>>, ListingError>)
    ensures
        match requests(content@) {
            Ok(p) => paths matches Ok(v) && rows(v@) == p,
            Err(e) => paths == Err::<Vec<Vec<char>>, ListingError>(e),
        },
{
    let n: usize = content.len();
    let mut paths: Vec<Vec<char>> = Vec::new();
    let mut at: usize = 0;
    assert(prepend_paths(rows(paths@), requests_from(content@, 0)) == requests_from(content@, 0))
        by {
        match requests_from(content@, 0) {
            Ok(all) => assert(rows(paths@) + all =~= all),
            Err(_) => {},
        }
    }
    while at < n
        invariant
            n == content.len(),
            at <= n,
            prepend_paths(rows(paths@), requests_from(content@, at as int)) == requests(content@),
        decreases n - at,
    {
        let ghost before = paths@;
        match find_item(content, at) {
            Found::Directive(end) => {
                let directive = slice_of(content, at, end);
                match path_of_directive(&directive) {
                    Err(e) => {
                        return Err(e);
                    },
                    Ok(path) => {
                        paths.push(path);
                        at = end;
                        proof {
                            match requests_from(content@, end as int) {
                                Ok(rest) => assert(rows(paths@) + rest =~= rows(before) + (
                                seq![path@] + rest)),
                                Err(_) => {},
                            }
                        }
                    },
                }
            },
            Found::Unclosed => {
                return Err(ListingError::MissingSuffix);
            },
            Found::Stray => {
                return Err(ListingError::MissingPrefix);
            },
            Found::Plain => {
                at += 1;
            },
        }
    }
    Ok(paths)
}

/// The paths of the listings that a section needs, relative to the root of the
/// book and in the order of its directives; or the failure of the first
/// directive that names no path.
pub fn listing_requests(content: &str) -> (paths: Result<Vec<String>, ListingError>)
    ensures
        match requests(content@) {
            Ok(p) => paths matches Ok(v) && texts(v@) == p,
            Err(e) => paths == Err::<Vec<String>, ListingError>(e),
        },
{
    let chars = chars_of(content);
    match requests_of(&chars) {
        Err(e) => Err(e),
        Ok(found) => Ok(strings_of(&found)),
    }
}

/// The text of a section with its listings put in and its tags left out; or
/// the failure of the first directive that fails.
pub fn expand_listings(content: &str, table: &Vec<Listing>) -> (text: Result<String, ListingError>)
    ensures
        match expansion(content@, listing_views(table@)) {
            Ok(t) => text matches Ok(s) && s@ == t,
            Err(e) => text == Err::<String, ListingError>(e),
        },
{
    let chars = chars_of(content);
    match expand_chars(&chars, table) {
        Ok(text) => Ok(string_of(&text)),
        Err(e) => Err(e),
    }
}

/// Puts the listings that a section names into its text, and leaves out its
/// tags. Where a directive fails, the section stays as it was. Score and link
/// are never touched.
pub fn parse_listings(section: &mut Section, table: &Vec<Listing>) -> (outcome: Result<
    (),
    ListingError,
>)
    ensures
        match expansion(old(section).content@, listing_views(table@)) {
            Ok(t) => outcome is Ok && final(section).content@ == t,
            Err(e) => outcome == Err::<(), ListingError>(e) && final(section).content == old(
                section,
            ).content,
        },
        final(section).mentions == old(section).mentions,
        final(section).link == old(section).link,
{
    match expand_listings(section.content.as_str(), table) {
        Ok(text) => {
            section.content = text;
            Ok(())
        },
        Err(e) => Err(e),
    }
}

} // verus!
