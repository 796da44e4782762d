//! Ranking the sections that a search found.
//!
//! The best section comes first. Sections with the same score stay in the
//! order in which they were found.

use crate::section::{Section, SectionView, section_views};
use vstd::prelude::*;

verus! {

/// Where a section with the given score goes in a ranked list: behind every
/// section that scores at least as much, and so in front of the first that
/// scores less.
pub open spec fn rank_position(ranked: Seq<SectionView>, score: nat) -> int
    decreases ranked.len(),
{
    if ranked.len() == 0 || ranked[0].mentions < score {
        0
    } else {
        1 + rank_position(ranked.drop_first(), score)
    }
}

/// The sections in ranked order: each in turn is put in its place among those
/// found before it.
pub open spec fn ranked(sections: Seq<SectionView>) -> Seq<SectionView>
    decreases sections.len(),
{
    if sections.len() == 0 {
        Seq::empty()
    } else {
        let before = ranked(sections.drop_last());
        before.insert(rank_position(before, sections.last().mentions), sections.last())
    }
}

/// No section scores less than one that comes after it.
pub open spec fn descending(sections: Seq<SectionView>) -> bool {
    forall|i: int, j: int|
        0 <= i < j < sections.len() ==> sections[i].mentions >= sections[j].mentions
}

/// The sections with exactly the given score, in their order.
pub open spec fn with_score(sections: Seq<SectionView>, score: nat) -> Seq<SectionView> {
    sections.filter(|s: SectionView| s.mentions == score)
}

/// The place that `rank_position` gives lies behind the sections that score at
/// least as much and at the first that scores less.
pub proof fn lemma_rank_position(ranked: Seq<SectionView>, score: nat)
    ensures
        0 <= rank_position(ranked, score) <= ranked.len(),
        forall|i: int| 0 <= i < rank_position(ranked, score) ==> ranked[i].mentions >= score,
        rank_position(ranked, score) < ranked.len() ==> ranked[rank_position(
            ranked,
            score,
        )].mentions < score,
    decreases ranked.len(),
{
    if ranked.len() > 0 && ranked[0].mentions >= score {
        let rest = ranked.drop_first();
        lemma_rank_position(rest, score);
        assert forall|i: int| 0 <= i < rank_position(ranked, score) implies ranked[i].mentions
            >= score by {
            if i > 0 {
                assert(ranked[i] == rest[i - 1]);
            }
        }
    }
}

/// A place behind sections that score at least as much, and at one that scores
/// less or at the end, is the place that `rank_position` gives.
pub proof fn lemma_rank_position_is(ranked: Seq<SectionView>, score: nat, place: int)
    requires
        0 <= place <= ranked.len(),
        forall|i: int| 0 <= i < place ==> ranked[i].mentions >= score,
        place < ranked.len() ==> ranked[place].mentions < score,
    ensures
        rank_position(ranked, score) == place,
{
    lemma_rank_position(ranked, score);
}

/// Ranking neither adds nor drops a section.
pub proof fn lemma_ranked_len(sections: Seq<SectionView>)
    ensures
        ranked(sections).len() == sections.len(),
    decreases sections.len(),
{
    if sections.len() > 0 {
        lemma_ranked_len(sections.drop_last());
        lemma_rank_position(ranked(sections.drop_last()), sections.last().mentions);
    }
}

/// A ranked list is in descending order of score.
pub proof fn lemma_ranked_descending(sections: Seq<SectionView>)
    ensures
        descending(ranked(sections)),
    decreases sections.len(),
{
    if sections.len() > 0 {
        let before = ranked(sections.drop_last());
        let last = sections.last();
        lemma_ranked_descending(sections.drop_last());
        lemma_rank_position(before, last.mentions);
        let place = rank_position(before, last.mentions);
        assert(descending(before.insert(place, last)));
    }
}

/// Ranking only moves sections: the ranked list holds the same sections, each
/// as often as the list it was made from.
pub proof fn lemma_ranked_permutes(sections: Seq<SectionView>)
    ensures
        ranked(sections).to_multiset() == sections.to_multiset(),
    decreases sections.len(),
{
    broadcast use vstd::seq_lib::group_to_multiset_ensures;

    if sections.len() > 0 {
        let rest = sections.drop_last();
        let before = ranked(rest);
        let last = sections.last();
        lemma_ranked_permutes(rest);
        lemma_rank_position(before, last.mentions);
        let place = rank_position(before, last.mentions);
        vstd::seq_lib::to_multiset_insert(before, place, last);
        assert(sections =~= rest.push(last));
        vstd::seq_lib::to_multiset_build(rest, last);
    }
}

/// Every section of a ranked list is one of the sections it was made from.
pub proof fn lemma_ranked_from(sections: Seq<SectionView>, k: int)
    requires
        0 <= k < ranked(sections).len(),
    ensures
        exists|i: int| 0 <= i < sections.len() && sections[i] == ranked(sections)[k],
    decreases sections.len(),
{
    if sections.len() > 0 {
        let rest = sections.drop_last();
        let before = ranked(rest);
        let last = sections.last();
        lemma_rank_position(before, last.mentions);
        let place = rank_position(before, last.mentions);
        if k != place {
            let from = if k < place {
                k
            } else {
                k - 1
            };
            lemma_ranked_from(rest, from);
        }
    }
}

/// A list without a section of the given score has none to select.
pub proof fn lemma_with_score_none(sections: Seq<SectionView>, score: nat)
    requires
        forall|i: int| 0 <= i < sections.len() ==> sections[i].mentions != score,
    ensures
        with_score(sections, score) == Seq::<SectionView>::empty(),
    decreases sections.len(),
{
    let pred = |s: SectionView| s.mentions == score;
    if sections.len() > 0 {
        let rest = sections.drop_last();
        lemma_with_score_none(rest, score);
        assert(sections =~= rest.push(sections.last()));
        rest.lemma_filter_push(sections.last(), pred);
    }
}

/// Selecting by score from a list of one section.
pub proof fn lemma_with_score_one(section: SectionView, score: nat)
    ensures
        with_score(seq![section], score) == if section.mentions == score {
            seq![section]
        } else {
            Seq::<SectionView>::empty()
        },
{
    let pred = |s: SectionView| s.mentions == score;
    let none = Seq::<SectionView>::empty();
    none.lemma_filter_push(section, pred);
}

/// Ranking is stable: the sections of any one score stand in a ranked list in
/// the order in which they were found.
pub proof fn lemma_ranked_stable(sections: Seq<SectionView>, score: nat)
    ensures
        with_score(ranked(sections), score) == with_score(sections, score),
    decreases sections.len(),
{
    let pred = |s: SectionView| s.mentions == score;
    if sections.len() > 0 {
        let rest = sections.drop_last();
        let before = ranked(rest);
        let last = sections.last();
        lemma_ranked_stable(rest, score);
        lemma_ranked_descending(rest);
        lemma_rank_position(before, last.mentions);
        let place = rank_position(before, last.mentions);
        let front = before.take(place);
        let back = before.skip(place);
        let one = seq![last];
        assert(before =~= front + back);
        assert(before.insert(place, last) =~= (front + one) + back);
        Seq::filter_distributes_over_add(front, back, pred);
        Seq::filter_distributes_over_add(front, one, pred);
        Seq::filter_distributes_over_add(front + one, back, pred);
        assert(sections =~= rest + one);
        Seq::filter_distributes_over_add(rest, one, pred);
        lemma_with_score_one(last, score);
        if last.mentions == score {
            lemma_with_score_none(back, score);
        }
    }
}

/// A list that is in descending order already is its own ranking.
pub proof fn lemma_ranked_of_descending(sections: Seq<SectionView>)
    requires
        descending(sections),
    ensures
        ranked(sections) == sections,
    decreases sections.len(),
{
    if sections.len() > 0 {
        let rest = sections.drop_last();
        let last = sections.last();
        lemma_ranked_of_descending(rest);
        lemma_rank_position_is(rest, last.mentions, rest.len() as int);
    }
}

/// Ranking is idempotent: to rank a ranked list changes nothing.
pub proof fn lemma_ranked_idempotent(sections: Seq<SectionView>)
    ensures
        ranked(ranked(sections)) == ranked(sections),
{
    lemma_ranked_descending(sections);
    lemma_ranked_of_descending(ranked(sections));
}

/// Ranks the sections: the highest score first, and sections of the same
/// score in the order in which they stand in `sections`.
pub fn rank(sections: Vec<Section>) -> (ordered: Vec<Section>)
    ensures
        section_views(ordered@) == ranked(section_views(sections@)),
        ordered.len() == sections.len(),
        descending(section_views(ordered@)),
{
    let ghost given = section_views(sections@);
    let mut ordered: Vec<Section> = Vec::new();
    let mut at: usize = 0;
    while at < sections.len()
        invariant
            at <= sections.len(),
            given == section_views(sections@),
            ordered.len() == at,
            section_views(ordered@) == ranked(given.take(at as int)),
        decreases sections.len() - at,
    {
        let section = sections[at].duplicate();
        let ghost before = ordered@;
        let mut place: usize = 0;
        while place < ordered.len() && ordered[place].mentions >= section.mentions
            invariant
                place <= ordered.len(),
                forall|i: int| 0 <= i < place ==> ordered[i].mentions >= section.mentions,
            decreases ordered.len() - place,
        {
            place += 1;
        }
        proof {
            let next = given.take(at + 1);
            assert(next.drop_last() =~= given.take(at as int));
            lemma_rank_position_is(section_views(before), section@.mentions, place as int);
        }
        ordered.insert(place, section);
        at += 1;
    }
    proof {
        assert(given.take(at as int) =~= given);
        lemma_ranked_descending(given);
    }
    ordered
}

} // verus!
