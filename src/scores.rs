//! Score tables: a name and a score per entry, names unique.
use vstd::prelude::*;

verus! {

pub type Table = Vec<(String, i32)>;

pub open spec fn names_unique(t: Seq<(String, i32)>) -> bool {
    forall|i: int, j: int| 0 <= i < t.len() && 0 <= j < t.len() && i != j ==> t[i].0@ != t[j].0@
}

/// What a table says: the score recorded for each name.
pub open spec fn table_map(t: Seq<(String, i32)>) -> Map<Seq<char>, i32> {
    Map::new(
        |n: Seq<char>| exists|i: int| 0 <= i < t.len() && t[i].0@ == n,
        |n: Seq<char>| t[choose|i: int| 0 <= i < t.len() && t[i].0@ == n].1,
    )
}

/// The entries as plain values.
pub open spec fn table_view(t: Seq<(String, i32)>) -> Seq<(Seq<char>, i32)> {
    t.map_values(|e: (String, i32)| (e.0@, e.1))
}

/// The score recorded for `n`, or zero.
pub open spec fn score_or_zero(m: Map<Seq<char>, i32>, n: Seq<char>) -> int {
    if m.contains_key(n) {
        m[n] as int
    } else {
        0
    }
}

/// `m` after offering score `v` for `n`: kept when it beats what is
/// recorded (or zero).
pub open spec fn offer(m: Map<Seq<char>, i32>, n: Seq<char>, v: i32) -> Map<Seq<char>, i32> {
    if v > score_or_zero(m, n) {
        m.insert(n, v)
    } else {
        m
    }
}

/// `m` after offering every entry of `s`, in order.
pub open spec fn offer_all(m: Map<Seq<char>, i32>, s: Seq<(Seq<char>, i32)>) -> Map<Seq<char>, i32>
    decreases s.len(),
{
    if s.len() == 0 {
        m
    } else {
        offer(offer_all(m, s.drop_last()), s.last().0, s.last().1)
    }
}

/// Lemma: the entry at an index is what the table says for its name.
pub proof fn lemma_entry(t: Seq<(String, i32)>, i: int)
    requires
        names_unique(t),
        0 <= i < t.len(),
    ensures
        table_map(t).contains_key(t[i].0@),
        table_map(t)[t[i].0@] == t[i].1,
{
    let n = t[i].0@;
    assert(exists|k: int| 0 <= k < t.len() && t[k].0@ == n);
    let k = choose|k: int| 0 <= k < t.len() && t[k].0@ == n;
    assert(k == i);
}

/// Whether no name occurs twice.
pub fn names_are_unique(t: &Table) -> (r: bool)
    ensures
        r == names_unique(t@),
{
    let mut i: usize = 0;
    while i < t.len()
        invariant
            i <= t@.len(),
            forall|a: int, b: int| 0 <= a < i && 0 <= b < t@.len() && a != b ==> t@[a].0@ != t@[b].0@,
        decreases t@.len() - i,
    {
        let mut j: usize = 0;
        while j < t.len()
            invariant
                i < t@.len(),
                j <= t@.len(),
                forall|a: int, b: int| 0 <= a < i && 0 <= b < t@.len() && a != b ==> t@[a].0@ != t@[b].0@,
                forall|b: int| 0 <= b < j && b != i ==> t@[i as int].0@ != t@[b].0@,
            decreases t@.len() - j,
        {
            if j != i && t[i].0 == t[j].0 {
                return false;
            }
            j += 1;
        }
        i += 1;
    }
    true
}

/// Index of the entry for `name`, if there is one.
pub fn find_name(t: &Table, name: &String) -> (r: Option<usize>)
    ensures
        r matches Some(i) ==> i < t@.len() && t@[i as int].0@ == name@,
        r is None ==> forall|i: int| 0 <= i < t@.len() ==> t@[i].0@ != name@,
{
    let mut i: usize = 0;
    while i < t.len()
        invariant
            i <= t@.len(),
            forall|k: int| 0 <= k < i ==> t@[k].0@ != name@,
        decreases t@.len() - i,
    {
        if t[i].0 == *name {
            return Some(i);
        }
        i += 1;
    }
    None
}

/// The recorded score for `name`, or zero.
pub fn get_or_zero(t: &Table, name: &String) -> (r: i32)
    requires
        names_unique(t@),
    ensures
        r == score_or_zero(table_map(t@), name@),
{
    match find_name(t, name) {
        Some(i) => {
            proof {
                lemma_entry(t@, i as int);
            }
            t[i].1
        },
        None => {
            assert(!table_map(t@).contains_key(name@));
            0
        },
    }
}

/// Offers score `v` for `name`: it is recorded when it beats the recorded
/// score (or zero), and the table is left as it was otherwise.
pub fn record_best(t: &mut Table, name: &String, v: i32)
    requires
        names_unique(old(t)@),
    ensures
        names_unique(final(t)@),
        table_map(final(t)@) == offer(table_map(old(t)@), name@, v),
        v <= score_or_zero(table_map(old(t)@), name@) ==> final(t)@ == old(t)@,
{
    let ghost m = table_map(t@);
    match find_name(t, name) {
        Some(i) => {
            proof {
                lemma_entry(t@, i as int);
            }
            if v > t[i].1 {
                let entry = (t[i].0.clone(), v);
                t.set(i, entry);
                proof {
                    lemma_set_entry(old(t)@, i as int, v, t@);
                }
            }
        },
        None => {
            assert(!m.contains_key(name@));
            if v > 0 {
                t.push((name.clone(), v));
                proof {
                    lemma_push_entry(old(t)@, name@, v, t@);
                }
            }
        },
    }
}

proof fn lemma_set_entry(t: Seq<(String, i32)>, i: int, v: i32, u: Seq<(String, i32)>)
    requires
        names_unique(t),
        0 <= i < t.len(),
        u.len() == t.len(),
        u[i].0@ == t[i].0@,
        u[i].1 == v,
        forall|k: int| 0 <= k < t.len() && k != i ==> u[k] == t[k],
    ensures
        names_unique(u),
        table_map(u) == table_map(t).insert(t[i].0@, v),
{
    assert forall|a: int, b: int| 0 <= a < u.len() && 0 <= b < u.len() && a != b implies u[a].0@ != u[b].0@ by {
        assert(t[a].0@ != t[b].0@);
    }
    let m = table_map(t).insert(t[i].0@, v);
    assert forall|n: Seq<char>| #[trigger] table_map(u).contains_key(n) <==> m.contains_key(n) by {
        if m.contains_key(n) && n != t[i].0@ {
            let k = choose|k: int| 0 <= k < t.len() && t[k].0@ == n;
            assert(u[k].0@ == n);
        }
        if table_map(u).contains_key(n) {
            let k = choose|k: int| 0 <= k < u.len() && u[k].0@ == n;
            if k != i {
                assert(t[k].0@ == n);
            }
        }
    }
    assert forall|n: Seq<char>| #[trigger] table_map(u).contains_key(n) implies table_map(u)[n] == m[n] by {
        let k = choose|k: int| 0 <= k < u.len() && u[k].0@ == n;
        lemma_entry(u, k);
        if k != i {
            lemma_entry(t, k);
        }
    }
    assert(table_map(u) =~= m);
}

proof fn lemma_push_entry(t: Seq<(String, i32)>, n0: Seq<char>, v: i32, u: Seq<(String, i32)>)
    requires
        names_unique(t),
        forall|k: int| 0 <= k < t.len() ==> t[k].0@ != n0,
        u.len() == t.len() + 1,
        u[t.len() as int].0@ == n0,
        u[t.len() as int].1 == v,
        forall|k: int| 0 <= k < t.len() ==> u[k] == t[k],
    ensures
        names_unique(u),
        table_map(u) == table_map(t).insert(n0, v),
{
    let m = table_map(t).insert(n0, v);
    assert forall|n: Seq<char>| #[trigger] table_map(u).contains_key(n) <==> m.contains_key(n) by {
        if m.contains_key(n) && n != n0 {
            let k = choose|k: int| 0 <= k < t.len() && t[k].0@ == n;
            assert(u[k].0@ == n);
        }
        if m.contains_key(n) && n == n0 {
            assert(u[t.len() as int].0@ == n);
        }
        if table_map(u).contains_key(n) {
            let k = choose|k: int| 0 <= k < u.len() && u[k].0@ == n;
            if k < t.len() {
                assert(t[k].0@ == n);
            }
        }
    }
    assert forall|n: Seq<char>| #[trigger] table_map(u).contains_key(n) implies table_map(u)[n] == m[n] by {
        let k = choose|k: int| 0 <= k < u.len() && u[k].0@ == n;
        lemma_entry(u, k);
        if k < t.len() {
            lemma_entry(t, k);
        }
    }
    assert(table_map(u) =~= m);
}

/// Offers every entry of `s` to `t`, in order.
pub fn record_all(t: &mut Table, s: &Table)
    requires
        names_unique(old(t)@),
    ensures
        names_unique(final(t)@),
        table_map(final(t)@) == offer_all(table_map(old(t)@), table_view(s@)),
{
    let mut i: usize = 0;
    while i < s.len()
        invariant
            i <= s@.len(),
            names_unique(t@),
            table_map(t@) == offer_all(table_map(old(t)@), table_view(s@).subrange(0, i as int)),
        decreases s@.len() - i,
    {
        record_best(t, &s[i].0, s[i].1);
        proof {
            let v = table_view(s@);
            assert(v.subrange(0, i + 1).drop_last() =~= v.subrange(0, i as int));
        }
        i += 1;
    }
    assert(table_view(s@).subrange(0, s@.len() as int) =~= table_view(s@));
}

/// A copy of a table, entry for entry.
pub fn copy_table(t: &Table) -> (r: Table)
    ensures
        table_view(r@) == table_view(t@),
        r@.len() == t@.len(),
        forall|i: int| 0 <= i < t@.len() ==> (#[trigger] r@[i]).0@ == t@[i].0@ && r@[i].1 == t@[i].1,
{
    let mut r: Table = Vec::new();
    let mut i: usize = 0;
    while i < t.len()
        invariant
            i <= t@.len(),
            r@.len() == i,
            forall|k: int| 0 <= k < i ==> (#[trigger] r@[k]).0@ == t@[k].0@ && r@[k].1 == t@[k].1,
        decreases t@.len() - i,
    {
        r.push((t[i].0.clone(), t[i].1));
        i += 1;
    }
    assert(table_view(r@) =~= table_view(t@));
    r
}

/// Index of the first entry with the highest score.
pub fn best_entry(t: &Table) -> (r: usize)
    requires
        t@.len() > 0,
    ensures
        r < t@.len(),
        forall|i: int| 0 <= i < t@.len() ==> t@[i].1 <= t@[r as int].1,
        forall|i: int| 0 <= i < r ==> t@[i].1 < t@[r as int].1,
{
    let mut best: usize = 0;
    let mut i: usize = 1;
    while i < t.len()
        invariant
            1 <= i <= t@.len(),
            best < i,
            forall|k: int| 0 <= k < i ==> t@[k].1 <= t@[best as int].1,
            forall|k: int| 0 <= k < best ==> t@[k].1 < t@[best as int].1,
        decreases t@.len() - i,
    {
        if t[i].1 > t[best].1 {
            best = i;
        }
        i += 1;
    }
    best
}


/// A best score, once recorded, never goes down: offering a score lowers no
/// entry, and offering one that does not beat the recorded score changes
/// nothing.
pub proof fn offer_never_lowers(m: Map<Seq<char>, i32>, n: Seq<char>, v: i32)
    ensures
        forall|k: Seq<char>| #[trigger] score_or_zero(offer(m, n, v), k) >= score_or_zero(m, k),
        forall|k: Seq<char>| m.contains_key(k) ==> #[trigger] offer(m, n, v).contains_key(k),
        v <= score_or_zero(m, n) ==> offer(m, n, v) == m,
{
}

/// Offering a whole race's scores lowers no highscore.
pub proof fn offer_all_never_lowers(m: Map<Seq<char>, i32>, s: Seq<(Seq<char>, i32)>)
    ensures
        forall|k: Seq<char>| #[trigger] score_or_zero(offer_all(m, s), k) >= score_or_zero(m, k),
        forall|k: Seq<char>| m.contains_key(k) ==> #[trigger] offer_all(m, s).contains_key(k),
    decreases s.len(),
{
    if s.len() > 0 {
        offer_all_never_lowers(m, s.drop_last());
        offer_never_lowers(offer_all(m, s.drop_last()), s.last().0, s.last().1);
        assert forall|k: Seq<char>| #[trigger] score_or_zero(offer_all(m, s), k) >= score_or_zero(m, k) by {
            assert(score_or_zero(offer_all(m, s.drop_last()), k) >= score_or_zero(m, k));
        }
        assert forall|k: Seq<char>| m.contains_key(k) implies #[trigger] offer_all(m, s).contains_key(k) by {
            assert(offer_all(m, s.drop_last()).contains_key(k));
        }
    }
}

} // verus!
