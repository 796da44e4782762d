//! What holds of the expansion of listings.
//!
//! The expansion of a text looks only ahead: from any position on it is the
//! expansion of the rest of the text. So a text can be expanded piece by piece.
//! A well-formed directive, in whichever form it is written, gives back after
//! a line break exactly the file that it names, and however many directives a
//! section holds, nothing of them is left. Closing braces that nothing opened
//! fail the expansion and the requests alike.

use crate::listing::{
    Item, ListingError, angle_from, closing_from, directive_body, directive_end, directive_path,
    expand_from, expansion, include_prefix, item_at, lemma_closing_from, lemma_item_end, lookup,
    opens_tag, parent_prefix, prepend, requests, requests_from, resolve, rustdoc_prefix,
    starts_directive, stray_at,
};
use crate::section::ListingView;
use crate::text::{find_char, is_space, lemma_find_char_is, trimmed};
use vstd::prelude::*;

verus! {

/// An item of a text as it is numbered in a longer text that has `by`
/// characters in front.
pub open spec fn shifted(item: Item, by: int) -> Item {
    match item {
        Item::Directive { end } => Item::Directive { end: end + by },
        other => other,
    }
}

/// A text without a `<` and without a brace: all of it is shown as it is.
pub open spec fn is_plain(text: Seq<char>) -> bool {
    forall|k: int| 0 <= k < text.len() ==> text[k] != '<' && text[k] != '{' && text[k] != '}'
}

/// A path that a directive can name as it is: it has no `}` and no `:`, and
/// does not begin with `../`.
pub open spec fn is_simple_path(path: Seq<char>) -> bool {
    &&& forall|k: int| 0 <= k < path.len() ==> path[k] != '}' && path[k] != ':'
    &&& !parent_prefix().is_prefix_of(path)
}

/// Closing braces are looked for ahead only.
pub proof fn lemma_closing_shift(content: Seq<char>, by: int, from: int)
    requires
        0 <= by <= content.len(),
        0 <= from,
    ensures
        closing_from(content, by + from) == by + closing_from(content.skip(by), from),
    decreases content.len() - by - from,
{
    if by + from + 1 < content.len() && !(content[by + from] == '}' && content[by + from + 1]
        == '}') {
        lemma_closing_shift(content, by, from + 1);
    }
}

/// A `>` is looked for ahead only.
pub proof fn lemma_angle_shift(content: Seq<char>, by: int, from: int)
    requires
        0 <= by <= content.len(),
        0 <= from,
    ensures
        angle_from(content, by + from) == by + angle_from(content.skip(by), from),
    decreases content.len() - by - from,
{
    if by + from < content.len() && content[by + from] != '>' {
        lemma_angle_shift(content, by, from + 1);
    }
}

/// What stands at a position depends on what follows only.
pub proof fn lemma_item_shift(content: Seq<char>, by: int, at: int)
    requires
        0 <= by,
        0 <= at,
        by + at < content.len(),
    ensures
        item_at(content, by + at) == shifted(item_at(content.skip(by), at), by),
{
    lemma_closing_shift(content, by, at + 2);
    assert(starts_directive(content, by + at) == starts_directive(content.skip(by), at));
    assert(stray_at(content, by + at) == stray_at(content.skip(by), at));
}

/// Whether a tag begins at a position depends on what follows only.
pub proof fn lemma_opens_tag_shift(content: Seq<char>, by: int, at: int)
    requires
        0 <= by,
        0 <= at,
        by + at < content.len(),
    ensures
        opens_tag(content, by + at) == opens_tag(content.skip(by), at),
{
    lemma_angle_shift(content, by, at);
}

/// The expansion from a position on is the expansion of the rest of the text.
pub proof fn lemma_expand_shift(
    content: Seq<char>,
    table: Seq<ListingView>,
    by: int,
    from: int,
    in_tag: bool,
)
    requires
        0 <= by <= content.len(),
        0 <= from,
    ensures
        expand_from(content, table, by + from, in_tag) == expand_from(
            content.skip(by),
            table,
            from,
            in_tag,
        ),
    decreases content.len() - by - from,
{
    let rest = content.skip(by);
    if by + from < content.len() {
        lemma_item_shift(content, by, from);
        lemma_opens_tag_shift(content, by, from);
        lemma_item_end(content, by + from);
        lemma_item_end(rest, from);
        match item_at(rest, from) {
            Item::Directive { end } => {
                assert(content.subrange(by + from, by + end) =~= rest.subrange(from, end));
                lemma_expand_shift(content, table, by, end, in_tag);
            },
            Item::Unclosed => {},
            Item::Stray => {},
            Item::Plain => {
                lemma_expand_shift(content, table, by, from + 1, true);
                lemma_expand_shift(content, table, by, from + 1, false);
            },
        }
    }
}

/// A run of characters that are neither braces nor `<`, outside a tag, is its
/// own expansion.
pub proof fn lemma_expand_plain_run(
    content: Seq<char>,
    table: Seq<ListingView>,
    from: int,
    to: int,
)
    requires
        0 <= from <= to <= content.len(),
        is_plain(content.subrange(from, to)),
    ensures
        expand_from(content, table, from, false) == prepend(
            content.subrange(from, to),
            expand_from(content, table, to, false),
        ),
    decreases to - from,
{
    if from == to {
        match expand_from(content, table, to, false) {
            Ok(rest) => assert(content.subrange(from, to) + rest =~= rest),
            Err(_) => {},
        }
    } else {
        assert(content[from] == content.subrange(from, to)[0]);
        assert forall|k: int| 0 <= k < to - from - 1 implies {
            let c = #[trigger] content.subrange(from + 1, to)[k];
            c != '<' && c != '{' && c != '}'
        } by {
            assert(content.subrange(from + 1, to)[k] == content.subrange(from, to)[k + 1]);
        }
        lemma_expand_plain_run(content, table, from + 1, to);
        assert(item_at(content, from) == Item::Plain);
        match expand_from(content, table, to, false) {
            Ok(rest) => assert(seq![content[from]] + (content.subrange(from + 1, to) + rest)
                =~= content.subrange(from, to) + rest),
            Err(_) => {},
        }
    }
}

/// Closing braces that nothing opened, with a character behind them, fail the
/// expansion for want of a prefix: where no opening brace stands in front of
/// them, nothing else can fail first, whether they stand in a tag or not.
pub proof fn lemma_stray_fails_from(
    content: Seq<char>,
    table: Seq<ListingView>,
    from: int,
    in_tag: bool,
    at: int,
)
    requires
        0 <= from <= at,
        stray_at(content, at),
        forall|k: int| from <= k < at ==> content[k] != '{',
    ensures
        expand_from(content, table, from, in_tag) == Err::<Seq<char>, ListingError>(
            ListingError::MissingPrefix,
        ),
        requests_from(content, from) == Err::<Seq<Seq<char>>, ListingError>(
            ListingError::MissingPrefix,
        ),
    decreases at - from,
{
    if !stray_at(content, from) {
        assert(from < at);
        lemma_stray_fails_from(content, table, from + 1, true, at);
        lemma_stray_fails_from(content, table, from + 1, false, at);
    }
}

/// Closing braces without opening ones in front of them, and with a character
/// behind them, fail the expansion of a section and the requests for its
/// listings alike.
pub proof fn lemma_stray_fails(content: Seq<char>, table: Seq<ListingView>, at: int)
    requires
        stray_at(content, at),
        forall|k: int| 0 <= k < at ==> content[k] != '{',
    ensures
        expansion(content, table) == Err::<Seq<char>, ListingError>(ListingError::MissingPrefix),
        requests(content) == Err::<Seq<Seq<char>>, ListingError>(ListingError::MissingPrefix),
{
    lemma_stray_fails_from(content, table, 0, false, at);
}

/// A text that neither begins nor ends with white space is trimmed already.
pub proof fn lemma_trimmed_is(text: Seq<char>)
    requires
        text.len() > 0,
        !is_space(text[0]),
        !is_space(text.last()),
    ensures
        trimmed(text) == text,
{
}

/// A text is one directive and nothing more: it begins with two opening
/// braces, and the first two closing braces in it are its end.
pub open spec fn is_one_directive(directive: Seq<char>) -> bool {
    &&& starts_directive(directive, 0)
    &&& closing_from(directive, 2) + 2 == directive.len()
}

/// A directive as it is written: the name of the directive, then the path,
/// with or without a step up in front of it, then an anchor or none, then the
/// closing braces.
pub open spec fn directive_of(
    rustdoc: bool,
    up: bool,
    path: Seq<char>,
    anchor: Option<Seq<char>>,
) -> Seq<char> {
    directive_head(rustdoc) + directive_middle(up, path, anchor) + directive_end()
}

/// The name of a directive, with its opening braces and the space behind it.
pub open spec fn directive_head(rustdoc: bool) -> Seq<char> {
    if rustdoc {
        rustdoc_prefix()
    } else {
        include_prefix()
    }
}

/// What stands between the name of a directive and its closing braces.
pub open spec fn directive_middle(up: bool, path: Seq<char>, anchor: Option<Seq<char>>) -> Seq<
    char,
> {
    (if up {
        parent_prefix()
    } else {
        Seq::empty()
    }) + path + match anchor {
        Some(a) => seq![':'] + a,
        None => Seq::empty(),
    }
}

/// An anchor that a directive can hold: it has no `}`.
pub open spec fn is_simple_anchor(anchor: Option<Seq<char>>) -> bool {
    match anchor {
        Some(a) => forall|k: int| 0 <= k < a.len() ==> a[k] != '}',
        None => true,
    }
}

/// Closing braces at a position that no `}` stands in front of, from where the
/// search begins, are the ones that are found.
pub proof fn lemma_closing_is(content: Seq<char>, from: int, at: int)
    requires
        0 <= from <= at,
        at + 1 < content.len(),
        content[at] == '}',
        content[at + 1] == '}',
        forall|k: int| from <= k < at ==> content[k] != '}',
    ensures
        closing_from(content, from) == at,
{
    lemma_closing_from(content, from);
}

/// The middle of a directive has no `}`.
pub proof fn lemma_middle_has_no_brace(up: bool, path: Seq<char>, anchor: Option<Seq<char>>)
    requires
        is_simple_path(path),
        is_simple_anchor(anchor),
    ensures
        forall|k: int|
            0 <= k < directive_middle(up, path, anchor).len() ==> directive_middle(
                up,
                path,
                anchor,
            )[k] != '}',
{
    reveal_strlit("../");
    let first = if up {
        parent_prefix()
    } else {
        Seq::empty()
    };
    let last = match anchor {
        Some(a) => seq![':'] + a,
        None => Seq::empty(),
    };
    let middle = directive_middle(up, path, anchor);
    assert forall|k: int| 0 <= k < middle.len() implies middle[k] != '}' by {
        if k < first.len() {
            assert(middle[k] == first[k]);
        } else if k < first.len() + path.len() {
            assert(middle[k] == path[k - first.len()]);
        } else {
            assert(middle[k] == last[k - first.len() - path.len()]);
            if k > first.len() + path.len() {
                assert(last[k - first.len() - path.len()] == anchor->0[k - first.len()
                    - path.len() - 1]);
            }
        }
    }
}

/// The middle of a directive gives the path, once the step up and the anchor
/// are taken off.
pub proof fn lemma_middle_gives_path(up: bool, path: Seq<char>, anchor: Option<Seq<char>>)
    requires
        is_simple_path(path),
    ensures
        ({
            let inner = directive_middle(up, path, anchor);
            let rest = if parent_prefix().is_prefix_of(inner) {
                inner.skip(parent_prefix().len() as int)
            } else {
                inner
            };
            rest.take(find_char(rest, ':')) == path
        }),
{
    reveal_strlit("../");
    let last = match anchor {
        Some(a) => seq![':'] + a,
        None => Seq::empty(),
    };
    let inner = directive_middle(up, path, anchor);
    let tail = path + last;
    if up {
        assert(inner =~= parent_prefix() + tail);
        assert(parent_prefix().is_prefix_of(inner));
        assert(inner.skip(parent_prefix().len() as int) =~= tail);
    } else {
        assert(inner =~= tail);
        if parent_prefix().is_prefix_of(tail) {
            if path.len() >= 3 {
                assert(parent_prefix() =~= path.subrange(0, 3));
            } else {
                assert(tail[path.len() as int] == parent_prefix()[path.len() as int]);
                assert(tail[path.len() as int] == last[0]);
            }
        }
    }
    assert forall|k: int| 0 <= k < path.len() implies tail[k] != ':' by {
        assert(tail[k] == path[k]);
    }
    if last.len() > 0 {
        assert(tail[path.len() as int] == last[0]);
    }
    lemma_find_char_is(tail, ':', path.len() as int);
    assert(tail.take(path.len() as int) =~= path);
}

/// The name of a directive begins with two opening braces, has no `}` and no
/// white space at its start, and the one name does not begin the other.
pub proof fn lemma_directive_head(rustdoc: bool)
    ensures
        directive_head(rustdoc).len() >= 2,
        directive_head(rustdoc)[0] == '{',
        directive_head(rustdoc)[1] == '{',
        forall|k: int| 0 <= k < directive_head(rustdoc).len() ==> directive_head(rustdoc)[k] != '}',
        directive_head(rustdoc)[3] == if rustdoc {
            'r'
        } else {
            'i'
        },
        rustdoc_prefix().len() > 3,
        include_prefix().len() > 3,
{
    reveal_strlit("{{#include ");
    reveal_strlit("{{#rustdoc_include ");
}

/// A directive as it is written is one directive, and names its path: the
/// step up in front of the path and the anchor behind it are left out.
pub proof fn lemma_directive_names_its_path(
    rustdoc: bool,
    up: bool,
    path: Seq<char>,
    anchor: Option<Seq<char>>,
)
    requires
        is_simple_path(path),
        is_simple_anchor(anchor),
    ensures
        is_one_directive(directive_of(rustdoc, up, path, anchor)),
        directive_path(directive_of(rustdoc, up, path, anchor)) == Ok::<Seq<char>, ListingError>(
            path,
        ),
{
    reveal_strlit("}}");
    lemma_directive_head(true);
    lemma_directive_head(false);
    lemma_middle_has_no_brace(up, path, anchor);
    lemma_middle_gives_path(up, path, anchor);
    let head = directive_head(rustdoc);
    let middle = directive_middle(up, path, anchor);
    let directive = directive_of(rustdoc, up, path, anchor);
    let close = (head.len() + middle.len()) as int;
    assert(directive[0] == head[0]);
    assert(directive[1] == head[1]);
    assert(directive[3] == head[3]);
    assert(directive[close] == '}' && directive[close + 1] == '}');
    assert forall|k: int| 2 <= k < close implies directive[k] != '}' by {
        if k < head.len() {
            assert(directive[k] == head[k]);
        } else {
            assert(directive[k] == middle[k - head.len()]);
        }
    }
    lemma_closing_is(directive, 2, close);
    lemma_trimmed_is(directive);
    if rustdoc {
        assert(rustdoc_prefix().is_prefix_of(directive)) by {
            assert(directive.subrange(0, head.len() as int) =~= head);
        }
    } else {
        assert(!rustdoc_prefix().is_prefix_of(directive)) by {
            if rustdoc_prefix().is_prefix_of(directive) {
                assert(rustdoc_prefix()[3] == directive[3]);
            }
        }
        assert(include_prefix().is_prefix_of(directive)) by {
            assert(directive.subrange(0, head.len() as int) =~= head);
        }
    }
    let body = directive.skip(head.len() as int);
    assert(body =~= middle + directive_end());
    assert(directive_body(directive) == Some(body));
    assert(directive_end().is_suffix_of(body)) by {
        assert(body.subrange(body.len() - directive_end().len(), body.len() as int)
            =~= directive_end());
    }
    assert(body.take(body.len() - directive_end().len()) =~= middle);
}

/// Closing braces that are found in a part of a text are found in the text.
pub proof fn lemma_closing_in_part(content: Seq<char>, start: int, len: int, from: int)
    requires
        0 <= start,
        0 <= from,
        0 <= len,
        start + len <= content.len(),
        closing_from(content.subrange(start, start + len), from) < len,
    ensures
        closing_from(content, start + from) == start + closing_from(
            content.subrange(start, start + len),
            from,
        ),
    decreases len - from,
{
    let part = content.subrange(start, start + len);
    if from + 1 < len {
        assert(part[from] == content[start + from]);
        assert(part[from + 1] == content[start + from + 1]);
        if !(part[from] == '}' && part[from + 1] == '}') {
            lemma_closing_in_part(content, start, len, from + 1);
        }
    }
}

/// Where one directive stands in a text, a directive is found there, and it
/// ends where that one ends.
pub proof fn lemma_directive_item(content: Seq<char>, start: int, directive: Seq<char>)
    requires
        0 <= start,
        start + directive.len() <= content.len(),
        content.subrange(start, start + directive.len()) == directive,
        is_one_directive(directive),
    ensures
        item_at(content, start) == (Item::Directive { end: start + directive.len() }),
{
    assert(directive[0] == content[start]);
    assert(directive[1] == content[start + 1]);
    lemma_closing_in_part(content, start, directive.len() as int, 2);
}

/// A plain text is shown as it is, whatever follows it.
pub proof fn lemma_plain_in_front(content: Seq<char>, table: Seq<ListingView>, start: int)
    requires
        0 <= start <= content.len(),
        is_plain(content.take(start)),
    ensures
        expansion(content, table) == prepend(
            content.take(start),
            expand_from(content, table, start, false),
        ),
{
    assert(content.subrange(0, start) =~= content.take(start));
    lemma_expand_plain_run(content, table, 0, start);
}

/// A text without braces and without `<` is its own expansion.
pub proof fn lemma_plain_stays(text: Seq<char>, table: Seq<ListingView>)
    requires
        is_plain(text),
    ensures
        expansion(text, table) == Ok::<Seq<char>, ListingError>(text),
{
    assert(text.take(text.len() as int) =~= text);
    lemma_plain_in_front(text, table, text.len() as int);
    assert(text + Seq::<char>::empty() =~= text);
}

/// A directive gives back the file that it names. Where one directive stands
/// between a plain text and any other text, and the table has a listing for
/// the path that it names, the expansion is the plain text, then a line break
/// and the text of the listing exactly, and then the expansion of what
/// follows. Nothing of the directive itself is left, and the listing is put in
/// as it is: it is neither stripped of tags nor read for directives.
pub proof fn lemma_round_trip(
    before: Seq<char>,
    directive: Seq<char>,
    after: Seq<char>,
    text: Seq<char>,
    table: Seq<ListingView>,
)
    requires
        is_plain(before),
        is_one_directive(directive),
        resolve(directive, table) == Ok::<Seq<char>, ListingError>(text),
    ensures
        expansion(before + directive + after, table) == prepend(
            before + seq!['\n'] + text,
            expansion(after, table),
        ),
{
    let content = before + directive + after;
    let start = before.len() as int;
    let end = start + directive.len();
    assert(content.subrange(start, end) =~= directive);
    assert(content.skip(end) =~= after);
    assert(content.take(start) =~= before);
    lemma_directive_item(content, start, directive);
    lemma_expand_shift(content, table, end, 0, false);
    lemma_plain_in_front(content, table, start);
    let rest = expansion(after, table);
    match rest {
        Ok(more) => assert(before + ((seq!['\n'] + text) + more) =~= (before + seq!['\n'] + text)
            + more),
        Err(_) => {},
    }
}

/// The round trip for a directive as it is written, in either form, with or
/// without a step up in front of its path, and with or without an anchor.
pub proof fn lemma_directive_round_trip(
    before: Seq<char>,
    rustdoc: bool,
    up: bool,
    path: Seq<char>,
    anchor: Option<Seq<char>>,
    after: Seq<char>,
    text: Seq<char>,
    table: Seq<ListingView>,
)
    requires
        is_plain(before),
        is_simple_path(path),
        is_simple_anchor(anchor),
        lookup(table, path) == Some(text),
    ensures
        expansion(before + directive_of(rustdoc, up, path, anchor) + after, table) == prepend(
            before + seq!['\n'] + text,
            expansion(after, table),
        ),
{
    lemma_directive_names_its_path(rustdoc, up, path, anchor);
    lemma_round_trip(before, directive_of(rustdoc, up, path, anchor), after, text, table);
}

/// A plain text and the directive that follows it.
pub struct Spliced {
    pub before: Seq<char>,
    pub directive: Seq<char>,
}

/// A section as it is written: plain texts, a directive behind each, and a
/// plain text at the end.
pub open spec fn written(parts: Seq<Spliced>, end: Seq<char>) -> Seq<char>
    decreases parts.len(),
{
    if parts.len() == 0 {
        end
    } else {
        parts[0].before + parts[0].directive + written(parts.drop_first(), end)
    }
}

/// The same section as it is shown: the plain texts as they are, and in the
/// place of each directive a line break and the listing that it stands for.
pub open spec fn shown(parts: Seq<Spliced>, end: Seq<char>, table: Seq<ListingView>) -> Seq<char>
    decreases parts.len(),
{
    if parts.len() == 0 {
        end
    } else {
        parts[0].before + seq!['\n'] + resolved(parts[0].directive, table) + shown(
            parts.drop_first(),
            end,
            table,
        )
    }
}

/// The listing that a directive stands for, and nothing where it fails.
pub open spec fn resolved(directive: Seq<char>, table: Seq<ListingView>) -> Seq<char> {
    match resolve(directive, table) {
        Ok(text) => text,
        Err(_) => Seq::empty(),
    }
}

/// Every part is a plain text and one directive that the table resolves.
pub open spec fn all_resolve(parts: Seq<Spliced>, table: Seq<ListingView>) -> bool {
    forall|k: int|
        0 <= k < parts.len() ==> {
            &&& is_plain((#[trigger] parts[k]).before)
            &&& is_one_directive(parts[k].directive)
            &&& resolve(parts[k].directive, table) is Ok
        }
}

/// However many directives a section holds, each gives back its file and
/// leaves nothing of itself: what is shown is made of the plain texts of the
/// section and of the listings, and of nothing else.
pub proof fn lemma_round_trips(parts: Seq<Spliced>, end: Seq<char>, table: Seq<ListingView>)
    requires
        all_resolve(parts, table),
        is_plain(end),
    ensures
        expansion(written(parts, end), table) == Ok::<Seq<char>, ListingError>(
            shown(parts, end, table),
        ),
    decreases parts.len(),
{
    if parts.len() == 0 {
        lemma_plain_stays(end, table);
    } else {
        let rest = parts.drop_first();
        assert forall|k: int| 0 <= k < rest.len() implies {
            &&& is_plain((#[trigger] rest[k]).before)
            &&& is_one_directive(rest[k].directive)
            &&& resolve(rest[k].directive, table) is Ok
        } by {
            assert(rest[k] == parts[k + 1]);
        }
        lemma_round_trips(rest, end, table);
        let first = parts[0];
        lemma_round_trip(
            first.before,
            first.directive,
            written(rest, end),
            resolved(first.directive, table),
            table,
        );
    }
}

} // verus!
