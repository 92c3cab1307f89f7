//! Ranking counted names by their counts.

use vstd::prelude::*;

use crate::tally::{ErrorFrequency, Tally};

verus! {

/// Whether the counts of a sequence of rows never rise from one row to the
/// next.
pub open spec fn descending(rows: Seq<Tally>) -> bool {
    forall|i: int, j: int| 0 <= i < j < rows.len() ==> rows[i].count >= rows[j].count
}

/// Whether `first` stands before `second` in `rows`.
pub open spec fn stands_before(rows: Seq<Tally>, first: Tally, second: Tally) -> bool {
    exists|i: int, j: int| 0 <= i < j < rows.len() && rows[i] == first && rows[j] == second
}

/// The place at which a row with `count` enters a ranking: behind the last
/// row whose count is at least `count`.
pub open spec fn rank_position(ranking: Seq<Tally>, count: nat) -> int
    decreases ranking.len(),
{
    if ranking.len() == 0 || ranking.last().count >= count {
        ranking.len() as int
    } else {
        rank_position(ranking.drop_last(), count)
    }
}

/// The rows of a tally in the order of their counts, highest first. Rows with
/// equal counts keep the order that they have in the tally.
pub open spec fn ranked(tally: Seq<Tally>) -> Seq<Tally>
    decreases tally.len(),
{
    if tally.len() == 0 {
        Seq::empty()
    } else {
        let earlier = ranked(tally.drop_last());
        earlier.insert(rank_position(earlier, tally.last().count), tally.last())
    }
}

/// The first `limit` rows of a ranking, or all of them where there are fewer.
pub open spec fn leading(ranking: Seq<Tally>, limit: nat) -> Seq<Tally> {
    if limit < ranking.len() {
        ranking.take(limit as int)
    } else {
        ranking
    }
}

/// In a ranking whose counts never rise, the rows before the place at which
/// a count enters are those with at least that count.
pub proof fn lemma_rank_position(ranking: Seq<Tally>, count: nat)
    requires
        descending(ranking),
    ensures
        0 <= rank_position(ranking, count) <= ranking.len(),
        forall|i: int| 0 <= i < rank_position(ranking, count) ==> ranking[i].count >= count,
        forall|i: int|
            rank_position(ranking, count) <= i < ranking.len() ==> ranking[i].count < count,
    decreases ranking.len(),
{
    let place = rank_position(ranking, count);
    if ranking.len() > 0 && ranking.last().count < count {
        let earlier = ranking.drop_last();
        lemma_rank_position(earlier, count);
        assert forall|i: int| 0 <= i < place implies ranking[i].count >= count by {
            assert(earlier[i] == ranking[i]);
        }
        assert forall|i: int| place <= i < ranking.len() implies ranking[i].count < count by {
            if i < earlier.len() {
                assert(earlier[i] == ranking[i]);
            }
        }
    }
}

/// A ranking holds the rows of its tally, each as often as the tally does,
/// and its counts never rise from one row to the next.
pub proof fn lemma_ranked_sorts(tally: Seq<Tally>)
    ensures
        ranked(tally).len() == tally.len(),
        ranked(tally).to_multiset() == tally.to_multiset(),
        descending(ranked(tally)),
    decreases tally.len(),
{
    broadcast use {vstd::seq_lib::to_multiset_build, vstd::seq_lib::to_multiset_insert};

    if tally.len() > 0 {
        let earlier = ranked(tally.drop_last());
        let place = rank_position(earlier, tally.last().count);
        lemma_ranked_sorts(tally.drop_last());
        lemma_rank_position(earlier, tally.last().count);
        assert(tally == tally.drop_last().push(tally.last()));
    } else {
        assert(ranked(tally) == tally);
    }
}

/// Every row of a tally stands in its ranking.
pub proof fn lemma_ranked_holds(tally: Seq<Tally>, at: int)
    requires
        0 <= at < tally.len(),
    ensures
        exists|i: int| 0 <= i < ranked(tally).len() && ranked(tally)[i] == tally[at],
    decreases tally.len(),
{
    let earlier = ranked(tally.drop_last());
    let place = rank_position(earlier, tally.last().count);
    let ranking = ranked(tally);
    lemma_ranked_sorts(tally.drop_last());
    lemma_rank_position(earlier, tally.last().count);
    if at < tally.len() - 1 {
        lemma_ranked_holds(tally.drop_last(), at);
        let i = choose|i: int| 0 <= i < earlier.len() && earlier[i] == tally[at];
        let moved = if i < place {
            i
        } else {
            i + 1
        };
        assert(ranking[moved] == tally[at]);
    } else {
        assert(ranking[place] == tally[at]);
    }
}

/// A ranking holds no row that its tally does not hold, and where the tally
/// holds no row twice, neither does the ranking.
pub proof fn lemma_ranked_rows(tally: Seq<Tally>)
    ensures
        forall|i: int| 0 <= i < ranked(tally).len() ==> tally.contains(#[trigger] ranked(tally)[i]),
        tally.no_duplicates() ==> ranked(tally).no_duplicates(),
{
    let ranking = ranked(tally);
    lemma_ranked_sorts(tally);
    assert forall|i: int| 0 <= i < ranking.len() implies tally.contains(#[trigger] ranking[i]) by {
        vstd::seq_lib::to_multiset_contains(ranking, ranking[i]);
        vstd::seq_lib::to_multiset_contains(tally, ranking[i]);
    }
    if tally.no_duplicates() {
        tally.lemma_multiset_has_no_duplicates();
        ranking.lemma_multiset_has_no_duplicates_conv();
    }
}

/// Ranking is stable: of two rows of a tally, the one with the higher count
/// stands first in the ranking, and of two rows with equal counts the one
/// that stands first in the tally.
pub proof fn lemma_ranked_order(tally: Seq<Tally>, first: int, second: int)
    requires
        0 <= first < second < tally.len(),
    ensures
        tally[first].count >= tally[second].count ==> stands_before(
            ranked(tally),
            tally[first],
            tally[second],
        ),
        tally[first].count < tally[second].count ==> stands_before(
            ranked(tally),
            tally[second],
            tally[first],
        ),
    decreases tally.len(),
{
    let earlier = ranked(tally.drop_last());
    let last = tally.last();
    let place = rank_position(earlier, last.count);
    let ranking = ranked(tally);
    lemma_ranked_sorts(tally.drop_last());
    lemma_rank_position(earlier, last.count);
    if second < tally.len() - 1 {
        lemma_ranked_order(tally.drop_last(), first, second);
        let (upper, lower) = if tally[first].count >= tally[second].count {
            (tally[first], tally[second])
        } else {
            (tally[second], tally[first])
        };
        let (i, j) = choose|i: int, j: int|
            0 <= i < j < earlier.len() && earlier[i] == upper && earlier[j] == lower;
        let moved_i = if i < place {
            i
        } else {
            i + 1
        };
        let moved_j = if j < place {
            j
        } else {
            j + 1
        };
        assert(ranking[moved_i] == upper && ranking[moved_j] == lower);
    } else {
        lemma_ranked_holds(tally.drop_last(), first);
        let i = choose|i: int| 0 <= i < earlier.len() && earlier[i] == tally[first];
        assert(ranking[place] == last);
        if tally[first].count >= last.count {
            assert(ranking[i] == tally[first]);
        } else {
            assert(ranking[i + 1] == tally[first]);
        }
    }
}

/// The leading rows of a ranking that a row has entered are found from the
/// leading rows of the ranking before: the row enters them at its place and
/// the row that is pushed beyond the limit leaves, or, where its place is
/// beyond the limit, they stay as they are.
proof fn lemma_leading_enter(ranking: Seq<Tally>, limit: nat, row: Tally)
    requires
        descending(ranking),
    ensures
        ({
            let kept = leading(ranking, limit);
            let place = rank_position(kept, row.count);
            let entered = ranking.insert(rank_position(ranking, row.count), row);
            &&& 0 <= place <= kept.len()
            &&& leading(entered, limit) == if place < limit {
                leading(kept.insert(place, row), limit)
            } else {
                kept
            }
        }),
{
    let kept = leading(ranking, limit);
    let place = rank_position(kept, row.count);
    let full_place = rank_position(ranking, row.count);
    lemma_rank_position(kept, row.count);
    lemma_rank_position(ranking, row.count);
    if place < kept.len() {
        assert(kept[place] == ranking[place]);
        assert(full_place == place) by {
            if full_place < place {
                assert(kept[full_place] == ranking[full_place]);
            }
        }
    } else if kept.len() < ranking.len() {
        assert(full_place >= place);
    }
}

/// The `limit` highest rows of a tally in the order of their counts, highest
/// first, or all rows where there are fewer. Rows with equal counts keep the
/// order that they have in the tally.
pub fn top_ranked(tally: Vec<ErrorFrequency>, limit: usize) -> (top: Vec<ErrorFrequency>)
    ensures
        top.deep_view() == leading(ranked(tally.deep_view()), limit as nat),
{
    let mut top: Vec<ErrorFrequency> = Vec::new();
    let ghost rows = tally.deep_view();
    for item in it: tally.into_iter()
        invariant
            it.seq().len() == rows.len(),
            forall|k: int| 0 <= k < rows.len() ==> (#[trigger] it.seq()[k])@ == rows[k],
            top.deep_view() == leading(ranked(rows.take(it.index() as int)), limit as nat),
    {
        let ghost kept = top.deep_view();
        let ghost count = item.count as nat;
        let mut place = top.len();
        assert(kept.take(place as int) == kept);
        while place > 0 && top[place - 1].count < item.count
            invariant
                place <= top.len(),
                kept == top.deep_view(),
                count == item.count,
                rank_position(kept, count) == rank_position(kept.take(place as int), count),
            decreases place,
        {
            assert(kept.take(place as int).drop_last() == kept.take(place - 1));
            place -= 1;
        }
        proof {
            let earlier = rows.take(it.index() as int);
            let next = rows.take(it.index() + 1);
            assert(next.drop_last() == earlier);
            lemma_ranked_sorts(earlier);
            lemma_leading_enter(ranked(earlier), limit as nat, item@);
        }
        if place < limit {
            top.insert(place, item);
            top.truncate(limit);
        }
    }
    assert(rows.take(rows.len() as int) == rows);
    top
}

} // verus!
