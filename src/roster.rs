//! The player collection: records keyed by their unique id.
use vstd::prelude::*;

use crate::player::{Id, Player, PlayerView};

verus! {

pub open spec fn ids_unique(s: Seq<Player>) -> bool {
    forall|i: int, j: int| 0 <= i < s.len() && 0 <= j < s.len() && i != j ==> s[i].id != s[j].id
}

/// The collection as a map from id to record.
pub open spec fn roster_map(s: Seq<Player>) -> Map<Id, PlayerView> {
    Map::new(
        |id: Id| exists|i: int| 0 <= i < s.len() && s[i].id == id,
        |id: Id| s[choose|i: int| 0 <= i < s.len() && s[i].id == id]@,
    )
}

pub proof fn lemma_roster_entry(s: Seq<Player>, i: int)
    requires
        ids_unique(s),
        0 <= i < s.len(),
    ensures
        roster_map(s).contains_key(s[i].id),
        roster_map(s)[s[i].id] == s[i]@,
{
    let id = s[i].id;
    assert(exists|k: int| 0 <= k < s.len() && s[k].id == id);
    let k = choose|k: int| 0 <= k < s.len() && s[k].id == id;
    assert(k == i);
}

/// Index of the record with id `id`, if there is one.
pub fn find_player(s: &Vec<Player>, id: Id) -> (r: Option<usize>)
    ensures
        r matches Some(i) ==> i < s@.len() && s@[i as int].id == id,
        r is None ==> forall|i: int| 0 <= i < s@.len() ==> s@[i].id != id,
        r is None <==> !roster_map(s@).contains_key(id),
{
    let mut i: usize = 0;
    while i < s.len()
        invariant
            i <= s@.len(),
            forall|k: int| 0 <= k < i ==> s@[k].id != id,
        decreases s@.len() - i,
    {
        if s[i].id == id {
            assert(roster_map(s@).contains_key(id));
            return Some(i);
        }
        i += 1;
    }
    None
}

/// Inserts `p`, or replaces the record with its id.
pub fn upsert_player(s: &mut Vec<Player>, p: Player)
    requires
        ids_unique(old(s)@),
    ensures
        ids_unique(final(s)@),
        roster_map(final(s)@) == roster_map(old(s)@).insert(p.id, p@),
{
    let ghost pv = p@;
    let ghost id = p.id;
    match find_player(s, p.id) {
        Some(i) => {
            s.set(i, p);
            proof {
                lemma_roster_entry(old(s)@, i as int);
                let u = s@;
                let t = old(s)@;
                assert forall|a: int, b: int| 0 <= a < u.len() && 0 <= b < u.len() && a != b implies u[a].id != u[b].id by {
                    assert(t[a].id != t[b].id);
                }
                let m = roster_map(t).insert(id, pv);
                assert forall|k: Id| #[trigger] roster_map(u).contains_key(k) <==> m.contains_key(k) by {
                    if m.contains_key(k) && k != id {
                        let j = choose|j: int| 0 <= j < t.len() && t[j].id == k;
                        assert(u[j].id == k);
                    }
                    if m.contains_key(k) && k == id {
                        assert(u[i as int].id == k);
                    }
                    if roster_map(u).contains_key(k) {
                        let j = choose|j: int| 0 <= j < u.len() && u[j].id == k;
                        if j != i {
                            assert(t[j].id == k);
                        }
                    }
                }
                assert forall|k: Id| #[trigger] roster_map(u).contains_key(k) implies roster_map(u)[k] == m[k] by {
                    let j = choose|j: int| 0 <= j < u.len() && u[j].id == k;
                    lemma_roster_entry(u, j);
                    if j != i {
                        lemma_roster_entry(t, j);
                    }
                }
                assert(roster_map(u) =~= m);
            }
        },
        None => {
            s.push(p);
            proof {
                let u = s@;
                let t = old(s)@;
                let n = t.len() as int;
                let m = roster_map(t).insert(id, pv);
                assert forall|k: Id| #[trigger] roster_map(u).contains_key(k) <==> m.contains_key(k) by {
                    if m.contains_key(k) && k != id {
                        let j = choose|j: int| 0 <= j < t.len() && t[j].id == k;
                        assert(u[j].id == k);
                    }
                    if m.contains_key(k) && k == id {
                        assert(u[n].id == k);
                    }
                    if roster_map(u).contains_key(k) {
                        let j = choose|j: int| 0 <= j < u.len() && u[j].id == k;
                        if j < n {
                            assert(t[j].id == k);
                        }
                    }
                }
                assert forall|k: Id| #[trigger] roster_map(u).contains_key(k) implies roster_map(u)[k] == m[k] by {
                    let j = choose|j: int| 0 <= j < u.len() && u[j].id == k;
                    lemma_roster_entry(u, j);
                    if j < n {
                        lemma_roster_entry(t, j);
                    }
                }
                assert(roster_map(u) =~= m);
            }
        },
    }
}

/// Removes the record with id `id`, if there is one; returns it.
pub fn remove_player(s: &mut Vec<Player>, id: Id) -> (r: Option<Player>)
    requires
        ids_unique(old(s)@),
    ensures
        ids_unique(final(s)@),
        roster_map(final(s)@) == roster_map(old(s)@).remove(id),
        r is Some <==> roster_map(old(s)@).contains_key(id),
        r matches Some(p) ==> p@ == roster_map(old(s)@)[id],
{
    match find_player(s, id) {
        Some(i) => {
            let p = s.remove(i);
            proof {
                lemma_roster_entry(old(s)@, i as int);
                let u = s@;
                let t = old(s)@;
                assert forall|a: int, b: int| 0 <= a < u.len() && 0 <= b < u.len() && a != b implies u[a].id != u[b].id by {
                    let aa = if a < i { a } else { a + 1 };
                    let bb = if b < i { b } else { b + 1 };
                    assert(t[aa].id != t[bb].id);
                }
                let m = roster_map(t).remove(id);
                assert forall|k: Id| #[trigger] roster_map(u).contains_key(k) <==> m.contains_key(k) by {
                    if m.contains_key(k) {
                        let j = choose|j: int| 0 <= j < t.len() && t[j].id == k;
                        assert(j != i);
                        if j < i {
                            assert(u[j].id == k);
                        } else {
                            assert(u[j - 1].id == k);
                        }
                    }
                    if roster_map(u).contains_key(k) {
                        let j = choose|j: int| 0 <= j < u.len() && u[j].id == k;
                        let jj = if j < i { j } else { j + 1 };
                        assert(t[jj].id == k);
                        assert(jj != i);
                    }
                }
                assert forall|k: Id| #[trigger] roster_map(u).contains_key(k) implies roster_map(u)[k] == m[k] by {
                    let j = choose|j: int| 0 <= j < u.len() && u[j].id == k;
                    lemma_roster_entry(u, j);
                    let jj = if j < i { j } else { j + 1 };
                    lemma_roster_entry(t, jj);
                }
                assert(roster_map(u) =~= m);
            }
            Some(p)
        },
        None => {
            assert(roster_map(s@).remove(id) =~= roster_map(s@));
            None
        },
    }
}

} // verus!
