//! Editing a voter's ranked ballot.
//!
//! A voter sees every option of an election, each with its position in the
//! voter's ranking or none. The ranking itself is the sequence of the uuids of
//! the ranked options, best first. Clicking on an option moves it up or down
//! the ranking, removes it from the ranking, or appends it to the ranking; each
//! click yields the new ballot to save, or nothing.

use vstd::prelude::*;
use vstd::string::*;

verus! {

/// An option that voters can rank in an election.
pub struct Item {
    pub uuid: String,
    pub election_uuid: String,
    pub title: String,
    pub body: String,
    pub done: bool,
}

/// The ranking a voter submits for an election: option uuids, best first.
pub struct Ballot {
    pub election_uuid: String,
    pub votes: Vec<String>,
}

/// A sequence of strings by their characters.
pub open spec fn strings_view(v: Seq<String>) -> Seq<Seq<char>> {
    v.map_values(|s: String| s@)
}

impl Ballot {
    /// The ranked option uuids of the ballot.
    pub open spec fn votes_view(&self) -> Seq<Seq<char>> {
        strings_view(self.votes@)
    }
}

/// The uuids of the ranked options, in the order in which the options are listed.
pub open spec fn voted_uuids(items: Seq<(Item, Option<i32>)>) -> Seq<Seq<char>>
    decreases items.len(),
{
    if items.len() == 0 {
        seq![]
    } else {
        let rest = voted_uuids(items.drop_last());
        if items.last().1 is Some {
            rest.push(items.last().0.uuid@)
        } else {
            rest
        }
    }
}

/// The index of the first occurrence of `u` in `v`.
pub open spec fn first_index_of(v: Seq<Seq<char>>, u: Seq<char>) -> Option<int>
    decreases v.len(),
{
    if v.len() == 0 {
        None
    } else if v[0] == u {
        Some(0)
    } else {
        match first_index_of(v.drop_first(), u) {
            Some(i) => Some(i + 1),
            None => None,
        }
    }
}

/// `v` with the entries at `i` and `j` exchanged.
pub open spec fn swapped(v: Seq<Seq<char>>, i: int, j: int) -> Seq<Seq<char>> {
    v.update(i, v[j]).update(j, v[i])
}

/// The ranking with the first occurrence of `u` moved one place towards the
/// front, or `None` when `u` is absent or already first.
pub open spec fn moved_up(v: Seq<Seq<char>>, u: Seq<char>) -> Option<Seq<Seq<char>>> {
    match first_index_of(v, u) {
        Some(i) => if i > 0 { Some(swapped(v, i, i - 1)) } else { None },
        None => None,
    }
}

/// The ranking with the first occurrence of `u` moved one place towards the
/// back, or `None` when `u` is absent or already last.
pub open spec fn moved_down(v: Seq<Seq<char>>, u: Seq<char>) -> Option<Seq<Seq<char>>> {
    match first_index_of(v, u) {
        Some(i) => if i < v.len() - 1 { Some(swapped(v, i, i + 1)) } else { None },
        None => None,
    }
}

/// Whether a ranked uuid is other than `u`.
pub open spec fn differs_from(u: Seq<char>) -> spec_fn(Seq<char>) -> bool {
    |x: Seq<char>| x != u
}

/// The ranking without any occurrence of `u`, the others in their order.
pub open spec fn without(v: Seq<Seq<char>>, u: Seq<char>) -> Seq<Seq<char>>
    decreases v.len(),
{
    if v.len() == 0 {
        seq![]
    } else {
        let rest = without(v.drop_last(), u);
        if v.last() == u {
            rest
        } else {
            rest.push(v.last())
        }
    }
}

/// Lemma: `first_index_of` finds an index of `u`, before which `u` does not occur.
proof fn lemma_first_index_of(v: Seq<Seq<char>>, u: Seq<char>)
    ensures
        match first_index_of(v, u) {
            Some(i) => 0 <= i < v.len() && v[i] == u && forall|j: int| 0 <= j < i ==> v[j] != u,
            None => forall|j: int| 0 <= j < v.len() ==> v[j] != u,
        },
    decreases v.len(),
{
    if v.len() > 0 && v[0] != u {
        lemma_first_index_of(v.drop_first(), u);
        match first_index_of(v.drop_first(), u) {
            Some(i) => {
                assert forall|j: int| 0 <= j < i + 1 implies v[j] != u by {
                    if j > 0 {
                        assert(v[j] == v.drop_first()[j - 1]);
                    }
                }
            },
            None => {
                assert forall|j: int| 0 <= j < v.len() implies v[j] != u by {
                    if j > 0 {
                        assert(v[j] == v.drop_first()[j - 1]);
                    }
                }
            },
        }
    }
}

/// Lemma: the first index of `u` is the only index that has `u` before it and at it.
proof fn lemma_first_index_unique(v: Seq<Seq<char>>, u: Seq<char>, i: int)
    requires
        0 <= i < v.len(),
        v[i] == u,
        forall|j: int| 0 <= j < i ==> v[j] != u,
    ensures
        first_index_of(v, u) == Some(i),
{
    lemma_first_index_of(v, u);
}

/// The uuids of the ranked options among `ballot_items`, in their order.
pub fn voted_item_uuids(ballot_items: &Vec<(Item, Option<i32>)>) -> (r: Vec<String>)
    ensures
        strings_view(r@) == voted_uuids(ballot_items@),
        strings_view(r@) == ballot_items@.filter(|p: (Item, Option<i32>)| p.1 is Some).map_values(
            |p: (Item, Option<i32>)| p.0.uuid@,
        ),
{
    proof {
        lemma_voted_uuids_are_ranked_options(ballot_items@);
    }
    let mut r: Vec<String> = Vec::new();
    let mut i: usize = 0;
    while i < ballot_items.len()
        invariant
            i <= ballot_items@.len(),
            strings_view(r@) == voted_uuids(ballot_items@.take(i as int)),
        decreases ballot_items@.len() - i,
    {
        assert(ballot_items@.take(i + 1).drop_last() =~= ballot_items@.take(i as int));
        if ballot_items[i].1.is_some() {
            r.push(ballot_items[i].0.uuid.clone());
        }
        assert(strings_view(r@) =~= voted_uuids(ballot_items@.take(i + 1)));
        i = i + 1;
    }
    assert(ballot_items@.take(i as int) =~= ballot_items@);
    r
}

/// The position of the first entry of `votes` equal to `uuid`, as
/// `Iterator::position` finds it.
fn position_of(votes: &Vec<String>, uuid: &String) -> (r: Option<usize>)
    ensures
        match r {
            Some(i) => first_index_of(strings_view(votes@), uuid@) == Some(i as int),
            None => first_index_of(strings_view(votes@), uuid@) is None,
        },
        r matches Some(i) ==> i < votes@.len(),
{
    let ghost v = strings_view(votes@);
    proof {
        lemma_first_index_of(v, uuid@);
    }
    let mut i: usize = 0;
    while i < votes.len()
        invariant
            v == strings_view(votes@),
            i <= votes@.len(),
            forall|j: int| 0 <= j < i ==> v[j] != uuid@,
        decreases votes@.len() - i,
    {
        if votes[i] == *uuid {
            proof {
                lemma_first_index_unique(v, uuid@, i as int);
            }
            return Some(i);
        }
        i = i + 1;
    }
    None
}

/// Exchanges the entries of `votes` at `i - 1` and `i`.
fn swap_with_previous(votes: &mut Vec<String>, i: usize)
    requires
        0 < i < old(votes)@.len(),
    ensures
        strings_view(final(votes)@) == swapped(strings_view(old(votes)@), i as int, i - 1),
{
    let ghost v = strings_view(votes@);
    let moved = votes.remove(i);
    votes.insert(i - 1, moved);
    assert(strings_view(votes@) =~= swapped(v, i as int, i - 1));
}

/// Builds the ballot for `election_uuid` with the given ranking.
fn ballot_of(election_uuid: &str, votes: Vec<String>) -> (r: Ballot)
    ensures
        r.election_uuid@ == election_uuid@,
        r.votes@ == votes@,
{
    Ballot { election_uuid: String::from_str(election_uuid), votes }
}

/// The ballot after clicking "move up" on `item`: the ranked uuids with
/// `item` exchanged with the option ranked just before it. Nothing is saved
/// when `item` is not ranked (`voted` is false), or is not found in the
/// ranking, or is ranked first.
pub fn move_item_up(
    ballot_items: &Vec<(Item, Option<i32>)>,
    item: &Item,
    voted: bool,
    election_uuid: &str,
) -> (r: Option<Ballot>)
    ensures
        match (voted, moved_up(voted_uuids(ballot_items@), item.uuid@)) {
            (true, Some(v)) => r matches Some(b) && b.election_uuid@ == election_uuid@ && b.votes_view() == v,
            _ => r is None,
        },
{
    if !voted {
        return None;
    }
    let mut votes = voted_item_uuids(ballot_items);
    match position_of(&votes, &item.uuid) {
        Some(index) => {
            if index == 0 {
                return None;
            }
            swap_with_previous(&mut votes, index);
            Some(ballot_of(election_uuid, votes))
        },
        None => None,
    }
}

/// The ballot after clicking "move down" on `item`: the ranked uuids with
/// `item` exchanged with the option ranked just after it. Nothing is saved
/// when `item` is not ranked (`voted` is false), or is not found in the
/// ranking, or is ranked last.
pub fn move_item_down(
    ballot_items: &Vec<(Item, Option<i32>)>,
    item: &Item,
    voted: bool,
    election_uuid: &str,
) -> (r: Option<Ballot>)
    ensures
        match (voted, moved_down(voted_uuids(ballot_items@), item.uuid@)) {
            (true, Some(v)) => r matches Some(b) && b.election_uuid@ == election_uuid@ && b.votes_view() == v,
            _ => r is None,
        },
{
    if !voted {
        return None;
    }
    let mut votes = voted_item_uuids(ballot_items);
    match position_of(&votes, &item.uuid) {
        Some(index) => {
            if index == votes.len() - 1 {
                return None;
            }
            swap_with_previous(&mut votes, index + 1);
            proof {
                let v = voted_uuids(ballot_items@);
                assert(swapped(v, index + 1, index as int) =~= swapped(v, index as int, index + 1));
            }
            Some(ballot_of(election_uuid, votes))
        },
        None => None,
    }
}

/// The ballot after clicking "remove vote" on `item`: the ranked uuids
/// without `item`'s uuid. Nothing is saved when `item` is not ranked
/// (`voted` is false).
pub fn remove_item_vote(
    ballot_items: &Vec<(Item, Option<i32>)>,
    item: &Item,
    voted: bool,
    election_uuid: &str,
) -> (r: Option<Ballot>)
    ensures
        voted ==> (r matches Some(b) && b.election_uuid@ == election_uuid@
            && b.votes_view() == without(voted_uuids(ballot_items@), item.uuid@)
            && b.votes_view() == voted_uuids(ballot_items@).filter(differs_from(item.uuid@))),
        !voted ==> r is None,
{
    if !voted {
        return None;
    }
    let all = voted_item_uuids(ballot_items);
    let ghost v = strings_view(all@);
    let mut kept: Vec<String> = Vec::new();
    let mut i: usize = 0;
    while i < all.len()
        invariant
            v == strings_view(all@),
            i <= all@.len(),
            strings_view(kept@) == without(v.take(i as int), item.uuid@),
        decreases all@.len() - i,
    {
        assert(v.take(i + 1).drop_last() =~= v.take(i as int));
        if all[i] != item.uuid {
            kept.push(all[i].clone());
        }
        assert(strings_view(kept@) =~= without(v.take(i + 1), item.uuid@));
        i = i + 1;
    }
    assert(v.take(i as int) =~= v);
    proof {
        lemma_without_keeps_order(v, item.uuid@);
    }
    Some(ballot_of(election_uuid, kept))
}

/// The ballot after clicking on an option that is not ranked: the ranked
/// uuids with `item`'s uuid appended. Nothing is saved when `item` is
/// already ranked (`voted` is true).
pub fn add_item_vote(
    ballot_items: &Vec<(Item, Option<i32>)>,
    item: &Item,
    voted: bool,
    election_uuid: &str,
) -> (r: Option<Ballot>)
    ensures
        !voted ==> (r matches Some(b) && b.election_uuid@ == election_uuid@
            && b.votes_view() == voted_uuids(ballot_items@).push(item.uuid@)),
        voted ==> r is None,
{
    if voted {
        return None;
    }
    let mut votes = voted_item_uuids(ballot_items);
    votes.push(item.uuid.clone());
    proof {
        assert(strings_view(votes@) =~= voted_uuids(ballot_items@).push(item.uuid@));
    }
    Some(ballot_of(election_uuid, votes))
}

/// The indices, in order, of the options whose position satisfies `ranked`
/// (`true`: options with a position; `false`: options without one).
pub open spec fn section_indices(items: Seq<(Item, Option<i32>)>, ranked: bool) -> Seq<int>
    decreases items.len(),
{
    if items.len() == 0 {
        seq![]
    } else {
        let rest = section_indices(items.drop_last(), ranked);
        if (items.last().1 is Some) == ranked {
            rest.push(items.len() - 1)
        } else {
            rest
        }
    }
}

/// The two sections of the voting page: the indices of the ranked options
/// and of the unranked ones, each in the order listed. An empty list of
/// options is no valid election; the caller shows that instead.
pub fn ballot_sections(ballot_items: &Vec<(Item, Option<i32>)>) -> (r: (Vec<usize>, Vec<usize>))
    ensures
        r.0@.map_values(|i: usize| i as int) == section_indices(ballot_items@, true),
        r.1@.map_values(|i: usize| i as int) == section_indices(ballot_items@, false),
{
    let mut ranked: Vec<usize> = Vec::new();
    let mut unranked: Vec<usize> = Vec::new();
    let mut i: usize = 0;
    while i < ballot_items.len()
        invariant
            i <= ballot_items@.len(),
            ranked@.map_values(|k: usize| k as int) == section_indices(ballot_items@.take(i as int), true),
            unranked@.map_values(|k: usize| k as int) == section_indices(ballot_items@.take(i as int), false),
        decreases ballot_items@.len() - i,
    {
        assert(ballot_items@.take(i + 1).drop_last() =~= ballot_items@.take(i as int));
        if ballot_items[i].1.is_some() {
            ranked.push(i);
        } else {
            unranked.push(i);
        }
        assert(ranked@.map_values(|k: usize| k as int) =~= section_indices(ballot_items@.take(i + 1), true));
        assert(unranked@.map_values(|k: usize| k as int) =~= section_indices(ballot_items@.take(i + 1), false));
        i = i + 1;
    }
    assert(ballot_items@.take(i as int) =~= ballot_items@);
    (ranked, unranked)
}

/// Whether the "move up" arrow of an option is hidden: it is for the option
/// ranked first.
pub fn up_arrow_hidden(position: Option<i32>) -> (r: bool)
    ensures
        r == (position == Some(0i32)),
{
    position.unwrap_or(-1) == 0
}

/// Whether the "move down" arrow of an option is hidden: it is for the
/// option whose position (0 when unranked) equals the number of ranked
/// options, taken as an `i32`, less one.
pub fn down_arrow_hidden(position: Option<i32>, voted_count: usize) -> (r: bool)
    requires
        voted_count as i32 != i32::MIN,
    ensures
        r == (match position { Some(p) => p as int, None => 0 } == (voted_count as i32) - 1),
{
    let p = match position {
        Some(p) => p,
        None => 0,
    };
    p == (voted_count as i32) - 1
}

/// Lemma: exchanging two entries keeps the same entries.
proof fn lemma_swapped_multiset(v: Seq<Seq<char>>, i: int, j: int)
    requires
        0 <= i < v.len(),
        0 <= j < v.len(),
        i != j,
    ensures
        swapped(v, i, j).to_multiset() == v.to_multiset(),
{
    broadcast use {
        vstd::seq_lib::to_multiset_update,
        vstd::multiset::group_multiset_axioms,
    };

    broadcast use vstd::seq_lib::to_multiset_contains;

    let m = v.to_multiset();
    let s1 = v.update(i, v[j]);
    assert(s1[j] == v[j]);
    let m1 = s1.to_multiset();
    assert(m1 == m.insert(v[j]).remove(v[i]));
    let m2 = s1.update(j, v[i]).to_multiset();
    assert(m2 == m1.insert(v[i]).remove(v[j]));
    assert(v.contains(v[i]));
    assert(m.count(v[i]) > 0);
    assert(m2 =~= m);
}

/// Law: moving an option down right after moving it up gives back the
/// ranking before the two clicks.
pub proof fn lemma_move_down_undoes_move_up(v: Seq<Seq<char>>, u: Seq<char>)
    requires
        moved_up(v, u) is Some,
    ensures
        moved_down(moved_up(v, u)->0, u) == Some(v),
{
    lemma_first_index_of(v, u);
    let i = first_index_of(v, u)->0;
    let w = swapped(v, i, i - 1);
    lemma_first_index_unique(w, u, i - 1);
    assert(swapped(w, i - 1, i) =~= v);
}

/// Law: moving an option up right after moving it down gives back the
/// ranking before the two clicks, when no uuid is ranked twice.
pub proof fn lemma_move_up_undoes_move_down(v: Seq<Seq<char>>, u: Seq<char>)
    requires
        moved_down(v, u) is Some,
        v.no_duplicates(),
    ensures
        moved_up(moved_down(v, u)->0, u) == Some(v),
{
    lemma_first_index_of(v, u);
    let i = first_index_of(v, u)->0;
    let w = swapped(v, i, i + 1);
    assert(w[i] == v[i + 1]);
    lemma_first_index_unique(w, u, i + 1);
    assert(swapped(w, i + 1, i) =~= v);
}

/// Law: moving an option up or down only reorders the ranking.
pub proof fn lemma_moves_keep_votes(v: Seq<Seq<char>>, u: Seq<char>)
    ensures
        moved_up(v, u) matches Some(w) ==> w.to_multiset() == v.to_multiset(),
        moved_down(v, u) matches Some(w) ==> w.to_multiset() == v.to_multiset(),
{
    lemma_first_index_of(v, u);
    if let Some(i) = first_index_of(v, u) {
        if i > 0 {
            lemma_swapped_multiset(v, i, i - 1);
        }
        if i < v.len() - 1 {
            lemma_swapped_multiset(v, i, i + 1);
        }
    }
}

/// Law: after removing an option's vote the ranking holds no vote for it,
/// and a ranking without a vote for it is left as it was.
pub proof fn lemma_remove_vote(v: Seq<Seq<char>>, u: Seq<char>)
    ensures
        !without(v, u).contains(u),
        !v.contains(u) ==> without(v, u) == v,
    decreases v.len(),
{
    if v.len() > 0 {
        lemma_remove_vote(v.drop_last(), u);
        let r = without(v.drop_last(), u);
        if v.last() != u {
            assert forall|k: int| 0 <= k < r.push(v.last()).len() implies r.push(v.last())[k] != u by {
                if k < r.len() {
                    assert(r.push(v.last())[k] == r[k]);
                }
            }
        }
        if !v.contains(u) {
            assert(!v.drop_last().contains(u)) by {
                assert forall|k: int| 0 <= k < v.drop_last().len() implies v.drop_last()[k] != u by {
                    assert(v.drop_last()[k] == v[k]);
                }
            }
            assert(v.last() == v[v.len() - 1]);
            assert(v.drop_last().push(v.last()) =~= v);
        }
    } else {
        assert(v =~= seq![]);
    }
}

/// Law: removing the vote that was just added for an unranked option gives
/// back the ranking before the two clicks.
pub proof fn lemma_remove_undoes_add(v: Seq<Seq<char>>, u: Seq<char>)
    requires
        !v.contains(u),
    ensures
        without(v.push(u), u) == v,
{
    assert(v.push(u).drop_last() =~= v);
    lemma_remove_vote(v, u);
}

/// Law: the ranking of a voter is every listed option that has a position,
/// in the order in which the options are listed, whatever unranked options
/// stand between them.
pub proof fn lemma_voted_uuids_are_ranked_options(items: Seq<(Item, Option<i32>)>)
    ensures
        voted_uuids(items) == items.filter(|p: (Item, Option<i32>)| p.1 is Some).map_values(
            |p: (Item, Option<i32>)| p.0.uuid@,
        ),
    decreases items.len(),
{
    reveal_with_fuel(Seq::<_>::filter, 1);
    let ranked = |p: (Item, Option<i32>)| p.1 is Some;
    let uuid = |p: (Item, Option<i32>)| p.0.uuid@;
    if items.len() > 0 {
        lemma_voted_uuids_are_ranked_options(items.drop_last());
        let sub = items.drop_last().filter(ranked);
        assert(items.filter(ranked) == (if ranked(items.last()) { sub.push(items.last()) } else { sub }));
        assert(sub.push(items.last()).map_values(uuid) =~= sub.map_values(uuid).push(uuid(items.last())));
    } else {
        assert(items.filter(ranked).map_values(uuid) =~= seq![]);
    }
}

/// Law: removing an option's vote keeps every other ranked uuid, in its
/// relative order: the ranking filtered by `x != u`.
pub proof fn lemma_without_keeps_order(v: Seq<Seq<char>>, u: Seq<char>)
    ensures
        without(v, u) == v.filter(differs_from(u)),
    decreases v.len(),
{
    reveal_with_fuel(Seq::<_>::filter, 1);
    if v.len() > 0 {
        lemma_without_keeps_order(v.drop_last(), u);
    } else {
        assert(v.filter(differs_from(u)) =~= seq![]);
    }
}

} // verus!
