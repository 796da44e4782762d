//! Cutting a page into sections at its headings.
//!
//! A heading of level two or deeper shows as two `#` in a row. The cut falls
//! one character before them, so that this character, a line break in a
//! well-formed page, opens the new piece. The scan looks at characters only:
//! it knows nothing of markdown beyond the marker. A heading with more than
//! two `#` is cut before every pair of them, which leaves pieces of a single
//! character; they are too short to become sections.
//!
//! The pieces of a page are a partition of it: put together again, they are
//! the page.

use crate::text::{chars_of, rows, strings_of, texts};
use vstd::prelude::*;

verus! {

/// A new piece begins at position `at`: the two characters after it are `#`.
pub open spec fn is_boundary(text: Seq<char>, at: int) -> bool {
    &&& 0 <= at
    &&& at + 2 < text.len()
    &&& text[at + 1] == '#'
    &&& text[at + 2] == '#'
}

/// Where the piece begins that is still open after the first `upto`
/// characters: at the last boundary among them, or at the start of the text.
pub open spec fn piece_start(text: Seq<char>, upto: int) -> int
    decreases upto,
{
    if upto <= 0 {
        0
    } else if is_boundary(text, upto - 1) {
        upto - 1
    } else {
        piece_start(text, upto - 1)
    }
}

/// The pieces that are complete after the first `upto` characters: one for
/// each boundary among them, holding what came before that boundary.
pub open spec fn closed_pieces(text: Seq<char>, upto: int) -> Seq<Seq<char>>
    decreases upto,
{
    if upto <= 0 {
        Seq::empty()
    } else if is_boundary(text, upto - 1) {
        closed_pieces(text, upto - 1).push(text.subrange(piece_start(text, upto - 1), upto - 1))
    } else {
        closed_pieces(text, upto - 1)
    }
}

/// The pieces of a page, in order. An empty page has none. A page that begins
/// at a boundary has an empty first piece.
pub open spec fn segments(text: Seq<char>) -> Seq<Seq<char>> {
    if text.len() == 0 {
        Seq::empty()
    } else {
        closed_pieces(text, text.len() as int).push(
            text.subrange(piece_start(text, text.len() as int), text.len() as int),
        )
    }
}

/// The open piece begins within the part that was read.
pub proof fn lemma_piece_start_bounds(text: Seq<char>, upto: int)
    requires
        0 <= upto,
    ensures
        0 <= piece_start(text, upto) <= upto,
    decreases upto,
{
    if upto > 0 && !is_boundary(text, upto - 1) {
        lemma_piece_start_bounds(text, upto - 1);
    }
}

/// The open piece begins at the last boundary in the part that was read: it
/// begins at a boundary unless it begins the text, and no boundary lies
/// further on in it.
pub proof fn lemma_piece_start_is_last_boundary(text: Seq<char>, upto: int)
    requires
        0 <= upto,
    ensures
        piece_start(text, upto) == 0 || is_boundary(text, piece_start(text, upto)),
        forall|at: int| piece_start(text, upto) < at < upto ==> !is_boundary(text, at),
    decreases upto,
{
    if upto > 0 && !is_boundary(text, upto - 1) {
        lemma_piece_start_is_last_boundary(text, upto - 1);
    }
}

/// The complete pieces, one after the other, and then the open piece, are the
/// part of the text that was read.
pub proof fn lemma_pieces_cover_prefix(text: Seq<char>, upto: int)
    requires
        0 <= upto <= text.len(),
    ensures
        closed_pieces(text, upto).flatten() + text.subrange(piece_start(text, upto), upto)
            == text.subrange(0, upto),
    decreases upto,
{
    lemma_piece_start_bounds(text, upto);
    if upto > 0 {
        let before = upto - 1;
        lemma_pieces_cover_prefix(text, before);
        lemma_piece_start_bounds(text, before);
        let open = text.subrange(piece_start(text, before), before);
        if is_boundary(text, before) {
            closed_pieces(text, before).lemma_flatten_push(open);
        } else {
            let done = closed_pieces(text, before).flatten();
            assert(done + open.push(text[before]) =~= (done + open).push(text[before]));
        }
    }
}

/// Segmentation is a partition: the pieces of a page, one after the other, are
/// the page, with nothing lost and nothing twice.
pub proof fn lemma_segments_partition(text: Seq<char>)
    ensures
        segments(text).flatten() == text,
{
    if text.len() > 0 {
        let n = text.len() as int;
        lemma_pieces_cover_prefix(text, n);
        closed_pieces(text, n).lemma_flatten_push(text.subrange(piece_start(text, n), n));
    }
}

/// The complete pieces together are as long as the text in front of the open
/// piece.
pub proof fn lemma_closed_pieces_len(text: Seq<char>, upto: int)
    requires
        0 <= upto <= text.len(),
    ensures
        closed_pieces(text, upto).flatten().len() == piece_start(text, upto),
{
    lemma_pieces_cover_prefix(text, upto);
    lemma_piece_start_bounds(text, upto);
    let done = closed_pieces(text, upto).flatten();
    let open = text.subrange(piece_start(text, upto), upto);
    assert((done + open).len() == done.len() + open.len());
}

/// Every complete piece ends where a boundary is.
pub proof fn lemma_closed_pieces_end_at_boundaries(text: Seq<char>, upto: int, k: int)
    requires
        0 <= upto <= text.len(),
        1 <= k <= closed_pieces(text, upto).len(),
    ensures
        is_boundary(text, closed_pieces(text, upto).take(k).flatten().len() as int),
    decreases upto,
{
    if upto > 0 {
        let before = closed_pieces(text, upto - 1);
        if is_boundary(text, upto - 1) {
            let all = closed_pieces(text, upto);
            if k == all.len() {
                assert(all.take(k) =~= all);
                lemma_closed_pieces_len(text, upto);
            } else {
                assert(all.take(k) =~= before.take(k));
                lemma_closed_pieces_end_at_boundaries(text, upto - 1, k);
            }
        } else {
            lemma_closed_pieces_end_at_boundaries(text, upto - 1, k);
        }
    }
}

/// The marker goes with the piece that follows it: every piece but the first
/// begins at a boundary, one character before two `#`.
pub proof fn lemma_pieces_begin_at_boundaries(text: Seq<char>, k: int)
    requires
        1 <= k < segments(text).len(),
    ensures
        is_boundary(text, segments(text).take(k).flatten().len() as int),
{
    let n = text.len() as int;
    let closed = closed_pieces(text, n);
    assert(segments(text).take(k) =~= closed.take(k));
    lemma_closed_pieces_end_at_boundaries(text, n, k);
}

/// The piece begins with its marker: one character, then two `#`.
pub open spec fn begins_marked(piece: Seq<char>) -> bool {
    &&& piece.len() >= 3
    &&& piece[1] == '#'
    &&& piece[2] == '#'
}

/// The piece holds no marker but the one it may begin with: nowhere behind
/// its first character could it be cut again.
pub open spec fn holds_no_marker(piece: Seq<char>) -> bool {
    forall|at: int| 1 <= at ==> !is_boundary(piece, at)
}

/// A piece is cut as it should be out of a text: it holds no marker but the
/// one it may begin with, and it begins with its marker unless it begins the
/// text or is too short to show one.
pub open spec fn well_cut(text: Seq<char>, piece: Seq<char>) -> bool {
    &&& holds_no_marker(piece)
    &&& piece.is_prefix_of(text) || piece.len() < 3 || begins_marked(piece)
}

/// A part of a text that begins at a boundary or with the text, and that no
/// boundary lies in, is cut as it should be.
pub proof fn lemma_part_well_cut(text: Seq<char>, from: int, to: int)
    requires
        0 <= from <= to <= text.len(),
        from == 0 || is_boundary(text, from),
        forall|at: int| from < at < to ==> !is_boundary(text, at),
    ensures
        well_cut(text, text.subrange(from, to)),
{
    let piece = text.subrange(from, to);
    assert forall|at: int| 1 <= at implies !is_boundary(piece, at) by {
        if is_boundary(piece, at) {
            assert(piece[at + 1] == text[from + at + 1]);
            assert(piece[at + 2] == text[from + at + 2]);
            assert(is_boundary(text, from + at));
        }
    }
    if from == 0 {
        assert(piece =~= text.subrange(0, piece.len() as int));
    } else if piece.len() >= 3 {
        assert(piece[1] == text[from + 1]);
        assert(piece[2] == text[from + 2]);
    }
}

/// Every complete piece is cut as it should be.
pub proof fn lemma_closed_pieces_well_cut(text: Seq<char>, upto: int, k: int)
    requires
        0 <= upto <= text.len(),
        0 <= k < closed_pieces(text, upto).len(),
    ensures
        well_cut(text, closed_pieces(text, upto)[k]),
    decreases upto,
{
    if upto > 0 {
        let before = closed_pieces(text, upto - 1);
        if is_boundary(text, upto - 1) && k == before.len() {
            lemma_piece_start_bounds(text, upto - 1);
            lemma_piece_start_is_last_boundary(text, upto - 1);
            lemma_part_well_cut(text, piece_start(text, upto - 1), upto - 1);
        } else {
            lemma_closed_pieces_well_cut(text, upto - 1, k);
        }
    }
}

/// Every piece of a page is cut as it should be: the marker goes with the
/// piece that follows it, and no piece holds the marker of another.
pub proof fn lemma_segments_well_cut(text: Seq<char>, k: int)
    requires
        0 <= k < segments(text).len(),
    ensures
        well_cut(text, segments(text)[k]),
{
    let n = text.len() as int;
    if k < closed_pieces(text, n).len() {
        lemma_closed_pieces_well_cut(text, n, k);
    } else {
        lemma_piece_start_bounds(text, n);
        lemma_piece_start_is_last_boundary(text, n);
        lemma_part_well_cut(text, piece_start(text, n), n);
    }
}

/// Cuts the characters of a page into its pieces.
pub fn split_pieces(chars: &Vec<char>) -> (pieces: Vec<Vec<char>>)
    ensures
        rows(pieces@) == segments(chars@),
{
    let n: usize = chars.len();
    let mut pieces: Vec<Vec<char>> = Vec::new();
    let mut current: Vec<char> = Vec::new();
    let mut at: usize = 0;
    while at < n
        invariant
            n == chars.len(),
            at <= n,
            rows(pieces@) == closed_pieces(chars@, at as int),
            current@ == chars@.subrange(piece_start(chars@, at as int), at as int),
        decreases n - at,
    {
        proof {
            lemma_piece_start_bounds(chars@, at as int);
        }
        if n - at > 2 && chars[at + 1] == '#' && chars[at + 2] == '#' {
            pieces.push(current);
            current = Vec::new();
        }
        current.push(chars[at]);
        at += 1;
        proof {
            lemma_piece_start_bounds(chars@, at as int);
        }
    }
    if n > 0 {
        pieces.push(current);
    }
    pieces
}

/// Cuts the text of a page into its pieces, before any of them is dropped.
pub fn segment_page(text: &str) -> (pieces: Vec<String>)
    ensures
        texts(pieces@) == segments(text@),
        texts(pieces@).flatten() == text@,
{
    let chars = chars_of(text);
    let pieces = strings_of(&split_pieces(&chars));
    proof {
        lemma_segments_partition(text@);
    }
    pieces
}

} // verus!
