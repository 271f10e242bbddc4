//! Replication by differences: the sender computes what changed between two
//! states, the receiver applies it to its copy.
use vstd::prelude::*;

use crate::model::{winner_view, Config, SharedModel};
use crate::player::{Id, Player, PlayerView};
use crate::roster::{find_player, ids_unique, remove_player, roster_map, upsert_player};
use crate::scores::{copy_table, table_view, Table};
use crate::track::{Obstacle, ShapePoint, Track};

verus! {

/// What a mirrored state holds, as plain values.
pub struct SharedView {
    pub tick: u64,
    pub next_id: Id,
    pub config: Config,
    pub avalanche_position: Option<i64>,
    pub avalanche_speed: i64,
    pub players: Map<Id, PlayerView>,
    pub obstacles: Seq<Obstacle>,
    pub shape: Seq<ShapePoint>,
    pub winner: Option<(Seq<char>, i32)>,
    pub highscores: Seq<(Seq<char>, i32)>,
    pub scores: Seq<(Seq<char>, i32)>,
    pub reset_timer: i64,
}

impl View for SharedModel {
    type V = SharedView;

    open spec fn view(&self) -> SharedView {
        SharedView {
            tick: self.tick,
            next_id: self.next_id,
            config: self.config,
            avalanche_position: self.avalanche_position,
            avalanche_speed: self.avalanche_speed,
            players: roster_map(self.players@),
            obstacles: self.track.obstacles@,
            shape: self.track.shape@,
            winner: winner_view(self.winner),
            highscores: table_view(self.highscores@),
            scores: table_view(self.scores@),
            reset_timer: self.reset_timer,
        }
    }
}

/// The changes to the player collection: ids that left, and records that
/// are new or differ.
#[derive(Clone, Debug, PartialEq)]
pub struct PlayersDelta {
    pub removed: Vec<Id>,
    pub upserted: Vec<Player>,
}

/// The difference between two states. A field is `None` where it did not
/// change; the track, the winner and the score tables travel whole when
/// they change at all.
#[derive(Clone, Debug, PartialEq)]
pub struct SharedModelDelta {
    pub tick: Option<u64>,
    pub next_id: Option<Id>,
    pub config: Option<Config>,
    pub avalanche_position: Option<Option<i64>>,
    pub avalanche_speed: Option<i64>,
    pub players: PlayersDelta,
    pub track: Option<Track>,
    pub winner: Option<Option<(String, i32)>>,
    pub highscores: Option<Table>,
    pub scores: Option<Table>,
    pub reset_timer: Option<i64>,
}

pub struct DeltaView {
    pub tick: Option<u64>,
    pub next_id: Option<Id>,
    pub config: Option<Config>,
    pub avalanche_position: Option<Option<i64>>,
    pub avalanche_speed: Option<i64>,
    pub removed: Seq<Id>,
    pub upserted: Seq<PlayerView>,
    pub track: Option<(Seq<Obstacle>, Seq<ShapePoint>)>,
    pub winner: Option<Option<(Seq<char>, i32)>>,
    pub highscores: Option<Seq<(Seq<char>, i32)>>,
    pub scores: Option<Seq<(Seq<char>, i32)>>,
    pub reset_timer: Option<i64>,
}

pub open spec fn opt_table_view(t: Option<Table>) -> Option<Seq<(Seq<char>, i32)>> {
    match t {
        Some(t) => Some(table_view(t@)),
        None => None,
    }
}

impl View for SharedModelDelta {
    type V = DeltaView;

    open spec fn view(&self) -> DeltaView {
        DeltaView {
            tick: self.tick,
            next_id: self.next_id,
            config: self.config,
            avalanche_position: self.avalanche_position,
            avalanche_speed: self.avalanche_speed,
            removed: self.players.removed@,
            upserted: self.players.upserted@.map_values(|p: Player| p@),
            track: match self.track {
                Some(t) => Some((t.obstacles@, t.shape@)),
                None => None,
            },
            winner: match self.winner {
                Some(w) => Some(winner_view(w)),
                None => None,
            },
            highscores: opt_table_view(self.highscores),
            scores: opt_table_view(self.scores),
            reset_timer: self.reset_timer,
        }
    }
}

/// `Some(new)` where the value changed, `None` where it did not.
pub open spec fn changed<T>(a: T, b: T, d: Option<T>) -> bool {
    d == if a == b { None } else { Some(b) }
}

/// `d` records `b` in place of `a` where it is `Some`.
pub open spec fn patched<T>(a: T, d: Option<T>) -> T {
    match d {
        Some(v) => v,
        None => a,
    }
}

/// Some record of `ups` has id `k`.
pub open spec fn has_id(ups: Seq<PlayerView>, k: Id) -> bool {
    exists|j: int| 0 <= j < ups.len() && ups[j].id == k
}

/// The player changes that lead from `a` to `b`: exactly the ids that
/// left, and records of `b` that are new or differ, each at least once.
pub open spec fn is_players_delta(a: Map<Id, PlayerView>, b: Map<Id, PlayerView>, removed: Seq<Id>, ups: Seq<PlayerView>) -> bool {
    &&& forall|k: Id| removed.contains(k) <==> (a.contains_key(k) && !b.contains_key(k))
    &&& forall|j: int| 0 <= j < ups.len() ==> b.contains_key(#[trigger] ups[j].id) && b[ups[j].id] == ups[j]
    &&& forall|j: int| 0 <= j < ups.len() ==> !a.contains_key(#[trigger] ups[j].id) || a[ups[j].id] != ups[j]
    &&& forall|k: Id| #[trigger] b.contains_key(k) && (!a.contains_key(k) || a[k] != b[k]) ==> has_id(ups, k)
}

/// `d` is the difference from `a` to `b`.
pub open spec fn is_delta(a: SharedView, b: SharedView, d: DeltaView) -> bool {
    &&& changed(a.tick, b.tick, d.tick)
    &&& changed(a.next_id, b.next_id, d.next_id)
    &&& changed(a.config, b.config, d.config)
    &&& changed(a.avalanche_position, b.avalanche_position, d.avalanche_position)
    &&& changed(a.avalanche_speed, b.avalanche_speed, d.avalanche_speed)
    &&& is_players_delta(a.players, b.players, d.removed, d.upserted)
    &&& changed((a.obstacles, a.shape), (b.obstacles, b.shape), d.track)
    &&& changed(a.winner, b.winner, d.winner)
    &&& changed(a.highscores, b.highscores, d.highscores)
    &&& changed(a.scores, b.scores, d.scores)
    &&& changed(a.reset_timer, b.reset_timer, d.reset_timer)
}

/// `m` with the ids of `ids` removed, one after another.
pub open spec fn remove_all(m: Map<Id, PlayerView>, ids: Seq<Id>) -> Map<Id, PlayerView>
    decreases ids.len(),
{
    if ids.len() == 0 {
        m
    } else {
        remove_all(m, ids.drop_last()).remove(ids.last())
    }
}

/// `m` with the records of `ups` inserted, one after another.
pub open spec fn insert_all(m: Map<Id, PlayerView>, ups: Seq<PlayerView>) -> Map<Id, PlayerView>
    decreases ups.len(),
{
    if ups.len() == 0 {
        m
    } else {
        insert_all(m, ups.drop_last()).insert(ups.last().id, ups.last())
    }
}

/// The state `a` with the difference `d` applied.
pub open spec fn applied(a: SharedView, d: DeltaView) -> SharedView {
    let track = patched((a.obstacles, a.shape), d.track);
    SharedView {
        tick: patched(a.tick, d.tick),
        next_id: patched(a.next_id, d.next_id),
        config: patched(a.config, d.config),
        avalanche_position: patched(a.avalanche_position, d.avalanche_position),
        avalanche_speed: patched(a.avalanche_speed, d.avalanche_speed),
        players: insert_all(remove_all(a.players, d.removed), d.upserted),
        obstacles: track.0,
        shape: track.1,
        winner: patched(a.winner, d.winner),
        highscores: patched(a.highscores, d.highscores),
        scores: patched(a.scores, d.scores),
        reset_timer: patched(a.reset_timer, d.reset_timer),
    }
}


proof fn lemma_remove_all(m: Map<Id, PlayerView>, ids: Seq<Id>)
    ensures
        forall|k: Id| #[trigger] remove_all(m, ids).contains_key(k) <==> (m.contains_key(k) && !ids.contains(k)),
        forall|k: Id| #[trigger] remove_all(m, ids).contains_key(k) ==> remove_all(m, ids)[k] == m[k],
    decreases ids.len(),
{
    if ids.len() > 0 {
        lemma_remove_all(m, ids.drop_last());
        assert forall|k: Id| #[trigger] ids.contains(k) <==> (ids.drop_last().contains(k) || ids.last() == k) by {
            if ids.contains(k) {
                let i = choose|i: int| 0 <= i < ids.len() && ids[i] == k;
                if i < ids.len() - 1 {
                    assert(ids.drop_last()[i] == k);
                }
            }
            if ids.drop_last().contains(k) {
                let i = choose|i: int| 0 <= i < ids.drop_last().len() && ids.drop_last()[i] == k;
                assert(ids[i] == k);
            }
            if ids.last() == k {
                assert(ids[ids.len() - 1] == k);
            }
        }
        let prev = remove_all(m, ids.drop_last());
        assert(remove_all(m, ids) == prev.remove(ids.last()));
        assert forall|k: Id| #[trigger] remove_all(m, ids).contains_key(k) <==> (m.contains_key(k) && !ids.contains(k)) by {
            assert(prev.contains_key(k) <==> (m.contains_key(k) && !ids.drop_last().contains(k)));
        }
        assert forall|k: Id| #[trigger] remove_all(m, ids).contains_key(k) implies remove_all(m, ids)[k] == m[k] by {
            assert(prev.contains_key(k));
        }
    } else {
        assert(remove_all(m, ids) == m);
    }
}

proof fn lemma_insert_all(m: Map<Id, PlayerView>, ups: Seq<PlayerView>, b: Map<Id, PlayerView>)
    requires
        forall|j: int| 0 <= j < ups.len() ==> b.contains_key(#[trigger] ups[j].id) && b[ups[j].id] == ups[j],
    ensures
        forall|k: Id| #[trigger] insert_all(m, ups).contains_key(k) <==> (m.contains_key(k) || has_id(ups, k)),
        forall|k: Id| has_id(ups, k) ==> #[trigger] insert_all(m, ups)[k] == b[k],
        forall|k: Id| m.contains_key(k) && !has_id(ups, k) ==> #[trigger] insert_all(m, ups)[k] == m[k],
    decreases ups.len(),
{
    if ups.len() > 0 {
        let init = ups.drop_last();
        assert forall|j: int| 0 <= j < init.len() implies b.contains_key(#[trigger] init[j].id) && b[init[j].id] == init[j] by {
            assert(init[j] == ups[j]);
        }
        lemma_insert_all(m, init, b);
        let last = ups.last();
        assert(ups[ups.len() - 1] == last);
        assert forall|k: Id| #[trigger] has_id(ups, k) <==> (has_id(init, k) || last.id == k) by {
            if has_id(ups, k) {
                let j = choose|j: int| 0 <= j < ups.len() && ups[j].id == k;
                if j < init.len() {
                    assert(init[j].id == k);
                }
            }
            if has_id(init, k) {
                let j = choose|j: int| 0 <= j < init.len() && init[j].id == k;
                assert(ups[j].id == k);
            }
            if last.id == k {
                assert(ups[ups.len() - 1].id == k);
            }
        }
        let prev = insert_all(m, init);
        assert(insert_all(m, ups) == prev.insert(last.id, last));
        assert(b.contains_key(last.id) && b[last.id] == last);
        assert forall|k: Id| #[trigger] insert_all(m, ups).contains_key(k) <==> (m.contains_key(k) || has_id(ups, k)) by {
            assert(prev.contains_key(k) <==> (m.contains_key(k) || has_id(init, k)));
        }
        assert forall|k: Id| has_id(ups, k) implies #[trigger] insert_all(m, ups)[k] == b[k] by {
            if k != last.id {
                assert(has_id(init, k));
                assert(prev[k] == b[k]);
            }
        }
        assert forall|k: Id| m.contains_key(k) && !has_id(ups, k) implies #[trigger] insert_all(m, ups)[k] == m[k] by {
            assert(!has_id(init, k));
            assert(prev[k] == m[k]);
        }
    } else {
        assert(insert_all(m, ups) == m);
        assert forall|k: Id| !has_id(ups, k) by {}
    }
}

/// Applying the difference from `a` to `b` to `a` gives `b`.
pub proof fn lemma_round_trip(a: SharedView, b: SharedView, d: DeltaView)
    requires
        is_delta(a, b, d),
    ensures
        applied(a, d) == b,
{
    lemma_remove_all(a.players, d.removed);
    lemma_insert_all(remove_all(a.players, d.removed), d.upserted, b.players);
    let r = applied(a, d).players;
    assert forall|k: Id| #[trigger] r.contains_key(k) <==> b.players.contains_key(k) by {
        if b.players.contains_key(k) && !(a.players.contains_key(k) && a.players[k] == b.players[k]) {
            assert(has_id(d.upserted, k));
        }
        if has_id(d.upserted, k) {
            let j = choose|j: int| 0 <= j < d.upserted.len() && d.upserted[j].id == k;
            assert(b.players.contains_key(d.upserted[j].id));
        }
    }
    assert forall|k: Id| #[trigger] r.contains_key(k) implies r[k] == b.players[k] by {
        if b.players.contains_key(k) && !(a.players.contains_key(k) && a.players[k] == b.players[k]) {
            assert(has_id(d.upserted, k));
        }
    }
    assert(r =~= b.players);
}

/// The difference of a state from itself changes nothing and, applied,
/// leaves the state as it was.
pub proof fn lemma_no_change(s: SharedView, d: DeltaView)
    requires
        is_delta(s, s, d),
    ensures
        applied(s, d) == s,
        d.removed.len() == 0,
        d.upserted.len() == 0,
        d.tick is None && d.next_id is None && d.config is None && d.avalanche_position is None,
        d.avalanche_speed is None && d.track is None && d.winner is None && d.highscores is None,
        d.scores is None && d.reset_timer is None,
{
    lemma_round_trip(s, s, d);
    if d.removed.len() > 0 {
        assert(d.removed.contains(d.removed[0]));
    }
    if d.upserted.len() > 0 {
        let u = d.upserted[0];
        assert(s.players[u.id] == u);
    }
}


fn same_obstacles(a: &Vec<Obstacle>, b: &Vec<Obstacle>) -> (r: bool)
    ensures
        r == (a@ == b@),
{
    if a.len() != b.len() {
        return false;
    }
    let mut i: usize = 0;
    while i < a.len()
        invariant
            i <= a@.len(),
            a@.len() == b@.len(),
            forall|k: int| 0 <= k < i ==> a@[k] == b@[k],
        decreases a@.len() - i,
    {
        if a[i] != b[i] {
            return false;
        }
        i += 1;
    }
    assert(a@ =~= b@);
    true
}

fn same_shape(a: &Vec<ShapePoint>, b: &Vec<ShapePoint>) -> (r: bool)
    ensures
        r == (a@ == b@),
{
    if a.len() != b.len() {
        return false;
    }
    let mut i: usize = 0;
    while i < a.len()
        invariant
            i <= a@.len(),
            a@.len() == b@.len(),
            forall|k: int| 0 <= k < i ==> a@[k] == b@[k],
        decreases a@.len() - i,
    {
        if a[i] != b[i] {
            return false;
        }
        i += 1;
    }
    assert(a@ =~= b@);
    true
}

/// A copy of a track, sample for sample.
pub fn copy_track(t: &Track) -> (r: Track)
    ensures
        r.obstacles@ == t.obstacles@,
        r.shape@ == t.shape@,
{
    let mut obstacles: Vec<Obstacle> = Vec::new();
    let mut i: usize = 0;
    while i < t.obstacles.len()
        invariant
            i <= t.obstacles@.len(),
            obstacles@ == t.obstacles@.subrange(0, i as int),
        decreases t.obstacles@.len() - i,
    {
        obstacles.push(t.obstacles[i]);
        i += 1;
        assert(obstacles@ =~= t.obstacles@.subrange(0, i as int));
    }
    let mut shape: Vec<ShapePoint> = Vec::new();
    let mut j: usize = 0;
    while j < t.shape.len()
        invariant
            j <= t.shape@.len(),
            shape@ == t.shape@.subrange(0, j as int),
        decreases t.shape@.len() - j,
    {
        shape.push(t.shape[j]);
        j += 1;
        assert(shape@ =~= t.shape@.subrange(0, j as int));
    }
    assert(obstacles@ =~= t.obstacles@);
    assert(shape@ =~= t.shape@);
    Track { obstacles, shape }
}

fn same_table(a: &Table, b: &Table) -> (r: bool)
    ensures
        r == (table_view(a@) == table_view(b@)),
{
    if a.len() != b.len() {
        return false;
    }
    let mut i: usize = 0;
    while i < a.len()
        invariant
            i <= a@.len(),
            a@.len() == b@.len(),
            forall|k: int| 0 <= k < i ==> table_view(a@)[k] == table_view(b@)[k],
        decreases a@.len() - i,
    {
        if !(a[i].0 == b[i].0 && a[i].1 == b[i].1) {
            assert(table_view(a@)[i as int] != table_view(b@)[i as int]);
            return false;
        }
        i += 1;
    }
    assert(table_view(a@) =~= table_view(b@));
    true
}

fn same_winner(a: &Option<(String, i32)>, b: &Option<(String, i32)>) -> (r: bool)
    ensures
        r == (winner_view(*a) == winner_view(*b)),
{
    match a {
        Some(x) => match b {
            Some(y) => x.0 == y.0 && x.1 == y.1,
            None => false,
        },
        None => b.is_none(),
    }
}

fn copy_winner(a: &Option<(String, i32)>) -> (r: Option<(String, i32)>)
    ensures
        winner_view(r) == winner_view(*a),
{
    match a {
        Some(x) => Some((x.0.clone(), x.1)),
        None => None,
    }
}

/// One of the first `n` records of `s` has id `k`.
pub open spec fn id_among(s: Seq<Player>, n: int, k: Id) -> bool {
    exists|j: int| 0 <= j < n && s[j].id == k
}

/// The difference that leads from `old` to `new`.
pub fn compute_delta(old: &SharedModel, new: &SharedModel) -> (d: SharedModelDelta)
    requires
        ids_unique(old.players@),
        ids_unique(new.players@),
    ensures
        is_delta(old@, new@, d@),
{
    let mut removed: Vec<Id> = Vec::new();
    let mut i: usize = 0;
    while i < old.players.len()
        invariant
            i <= old.players@.len(),
            ids_unique(old.players@),
            forall|k: Id| #[trigger] removed@.contains(k) <==> id_among(old.players@, i as int, k) && !roster_map(new.players@).contains_key(k),
        decreases old.players@.len() - i,
    {
        let id = old.players[i].id;
        let ghost before = removed@;
        if find_player(&new.players, id).is_none() {
            removed.push(id);
            proof {
                assert forall|k: Id| #[trigger] removed@.contains(k) <==> before.contains(k) || k == id by {
                    if removed@.contains(k) {
                        let j = choose|j: int| 0 <= j < removed@.len() && removed@[j] == k;
                        if j < before.len() {
                            assert(before[j] == k);
                        }
                    }
                    if before.contains(k) {
                        let j = choose|j: int| 0 <= j < before.len() && before[j] == k;
                        assert(removed@[j] == k);
                    }
                    if k == id {
                        assert(removed@[before.len() as int] == k);
                    }
                }
            }
        }
        proof {
            assert forall|k: Id| #[trigger] id_among(old.players@, i + 1, k) <==> (id_among(old.players@, i as int, k) || k == id) by {
                if k == id {
                    assert(old.players@[i as int].id == k);
                }
                if id_among(old.players@, i + 1, k) {
                    let j = choose|j: int| 0 <= j < i + 1 && old.players@[j].id == k;
                    if j < i {
                        assert(id_among(old.players@, i as int, k));
                    }
                }
            }
        }
        i += 1;
    }
    proof {
        assert forall|k: Id| #[trigger] id_among(old.players@, old.players@.len() as int, k) <==> roster_map(old.players@).contains_key(k) by {}
    }
    let mut upserted: Vec<Player> = Vec::new();
    let mut j: usize = 0;
    let ghost ma = roster_map(old.players@);
    let ghost mb = roster_map(new.players@);
    while j < new.players.len()
        invariant
            j <= new.players@.len(),
            ids_unique(old.players@),
            ids_unique(new.players@),
            ma == roster_map(old.players@),
            mb == roster_map(new.players@),
            forall|u: int| 0 <= u < upserted@.len() ==> mb.contains_key(#[trigger] upserted@[u].id) && mb[upserted@[u].id] == upserted@[u]@,
            forall|u: int| 0 <= u < upserted@.len() ==> !ma.contains_key(#[trigger] upserted@[u].id) || ma[upserted@[u].id] != upserted@[u]@,
            forall|q: int| 0 <= q < j ==> (!ma.contains_key(#[trigger] new.players@[q].id) || ma[new.players@[q].id] != new.players@[q]@)
                ==> has_id(upserted@.map_values(|p: Player| p@), new.players@[q].id),
        decreases new.players@.len() - j,
    {
        proof {
            crate::roster::lemma_roster_entry(new.players@, j as int);
        }
        let p = &new.players[j];
        let differs = match find_player(&old.players, p.id) {
            Some(k) => {
                proof {
                    crate::roster::lemma_roster_entry(old.players@, k as int);
                }
                !old.players[k].same(p)
            },
            None => true,
        };
        let ghost before = upserted@;
        if differs {
            upserted.push(p.duplicate());
            proof {
                let v = upserted@.map_values(|p: Player| p@);
                assert(v[before.len() as int].id == p.id);
                assert forall|q: int| 0 <= q < j && (!ma.contains_key(#[trigger] new.players@[q].id) || ma[new.players@[q].id] != new.players@[q]@)
                    implies has_id(v, new.players@[q].id) by {
                    let w = before.map_values(|p: Player| p@);
                    assert(has_id(w, new.players@[q].id));
                    let t = choose|t: int| 0 <= t < w.len() && w[t].id == new.players@[q].id;
                    assert(v[t].id == new.players@[q].id);
                }
            }
        }
        proof {
            let v = upserted@.map_values(|p: Player| p@);
            if differs {
                assert(v[upserted@.len() - 1].id == p.id);
            }
        }
        j += 1;
    }
    proof {
        let v = upserted@.map_values(|p: Player| p@);
        assert forall|k: Id| #[trigger] mb.contains_key(k) && (!ma.contains_key(k) || ma[k] != mb[k]) implies has_id(v, k) by {
            let q = choose|q: int| 0 <= q < new.players@.len() && new.players@[q].id == k;
            crate::roster::lemma_roster_entry(new.players@, q);
        }
        assert forall|u: int| 0 <= u < v.len() implies mb.contains_key(#[trigger] v[u].id) && mb[v[u].id] == v[u] by {
            assert(v[u] == upserted@[u]@);
        }
        assert forall|u: int| 0 <= u < v.len() implies !ma.contains_key(#[trigger] v[u].id) || ma[v[u].id] != v[u] by {
            assert(v[u] == upserted@[u]@);
        }
    }
    let same_track_now = same_obstacles(&old.track.obstacles, &new.track.obstacles) && same_shape(
        &old.track.shape,
        &new.track.shape,
    );
    SharedModelDelta {
        tick: if old.tick == new.tick { None } else { Some(new.tick) },
        next_id: if old.next_id == new.next_id { None } else { Some(new.next_id) },
        config: if old.config == new.config { None } else { Some(new.config) },
        avalanche_position: if old.avalanche_position == new.avalanche_position { None } else { Some(new.avalanche_position) },
        avalanche_speed: if old.avalanche_speed == new.avalanche_speed { None } else { Some(new.avalanche_speed) },
        players: PlayersDelta { removed, upserted },
        track: if same_track_now { None } else { Some(copy_track(&new.track)) },
        winner: if same_winner(&old.winner, &new.winner) { None } else { Some(copy_winner(&new.winner)) },
        highscores: if same_table(&old.highscores, &new.highscores) { None } else { Some(copy_table(&new.highscores)) },
        scores: if same_table(&old.scores, &new.scores) { None } else { Some(copy_table(&new.scores)) },
        reset_timer: if old.reset_timer == new.reset_timer { None } else { Some(new.reset_timer) },
    }
}

impl SharedModel {
    /// Applies a difference to this copy of the state.
    pub fn apply(&mut self, delta: &SharedModelDelta)
        requires
            ids_unique(old(self).players@),
        ensures
            ids_unique(final(self).players@),
            final(self)@ == applied(old(self)@, delta@),
    {
        if let Some(v) = delta.tick {
            self.tick = v;
        }
        if let Some(v) = delta.next_id {
            self.next_id = v;
        }
        if let Some(v) = delta.config {
            self.config = v;
        }
        if let Some(v) = delta.avalanche_position {
            self.avalanche_position = v;
        }
        if let Some(v) = delta.avalanche_speed {
            self.avalanche_speed = v;
        }
        let ghost m0 = roster_map(self.players@);
        let ghost s1 = *self;
        let mut i: usize = 0;
        while i < delta.players.removed.len()
            invariant
                *self == (SharedModel { players: self.players, ..s1 }),
                i <= delta.players.removed@.len(),
                ids_unique(self.players@),
                roster_map(self.players@) == remove_all(m0, delta.players.removed@.subrange(0, i as int)),
            decreases delta.players.removed@.len() - i,
        {
            let _ = remove_player(&mut self.players, delta.players.removed[i]);
            proof {
                let s = delta.players.removed@.subrange(0, i + 1);
                assert(s.drop_last() =~= delta.players.removed@.subrange(0, i as int));
            }
            i += 1;
        }
        assert(delta.players.removed@.subrange(0, delta.players.removed@.len() as int) =~= delta.players.removed@);
        let ghost m1 = roster_map(self.players@);
        let ghost ups = delta.players.upserted@.map_values(|p: Player| p@);
        let mut j: usize = 0;
        while j < delta.players.upserted.len()
            invariant
                *self == (SharedModel { players: self.players, ..s1 }),
                j <= delta.players.upserted@.len(),
                ids_unique(self.players@),
                ups == delta.players.upserted@.map_values(|p: Player| p@),
                roster_map(self.players@) == insert_all(m1, ups.subrange(0, j as int)),
            decreases delta.players.upserted@.len() - j,
        {
            upsert_player(&mut self.players, delta.players.upserted[j].duplicate());
            proof {
                let s = ups.subrange(0, j + 1);
                assert(s.drop_last() =~= ups.subrange(0, j as int));
                assert(s.last() == delta.players.upserted@[j as int]@);
            }
            j += 1;
        }
        assert(ups.subrange(0, ups.len() as int) =~= ups);
        if let Some(t) = &delta.track {
            self.track = copy_track(t);
        }
        if let Some(w) = &delta.winner {
            self.winner = copy_winner(w);
        }
        if let Some(t) = &delta.highscores {
            self.highscores = copy_table(t);
        }
        if let Some(t) = &delta.scores {
            self.scores = copy_table(t);
        }
        if let Some(v) = delta.reset_timer {
            self.reset_timer = v;
        }
    }
}

} // verus!
