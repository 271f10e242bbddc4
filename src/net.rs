//! The replication protocol: what the server sends, how it chooses between a
//! snapshot and a difference, and how a client keeps its mirror.
use vstd::prelude::*;

use crate::diff::{applied, compute_delta, copy_track, is_delta, lemma_round_trip, SharedModelDelta, SharedView};
use crate::model::{Event, SharedModel};
use crate::player::{Id, Player};
use crate::roster::{ids_unique, roster_map};
use crate::scores::{copy_table};

verus! {

/// A message from the server to one client.
#[derive(Clone, Debug, PartialEq)]
pub enum ServerMessage {
    PlayerId(Id),
    Delta(SharedModelDelta),
    Full(SharedModel),
    Events(Vec<Event>),
}

/// Whether no two records share an id.
pub fn ids_are_unique(players: &Vec<Player>) -> (r: bool)
    ensures
        r == ids_unique(players@),
{
    let mut i: usize = 0;
    while i < players.len()
        invariant
            i <= players@.len(),
            forall|a: int, b: int| 0 <= a < i && 0 <= b < players@.len() && a != b ==> players@[a].id != players@[b].id,
        decreases players@.len() - i,
    {
        let mut j: usize = 0;
        while j < players.len()
            invariant
                i < players@.len(),
                j <= players@.len(),
                forall|a: int, b: int| 0 <= a < i && 0 <= b < players@.len() && a != b ==> players@[a].id != players@[b].id,
                forall|b: int| 0 <= b < j && b != i ==> players@[i as int].id != players@[b].id,
            decreases players@.len() - j,
        {
            if j != i && players[i].id == players[j].id {
                return false;
            }
            j += 1;
        }
        i += 1;
    }
    true
}

impl SharedModel {
    /// A copy with the same view.
    pub fn duplicate(&self) -> (r: SharedModel)
        requires
            ids_unique(self.players@),
        ensures
            r@ == self@,
            ids_unique(r.players@),
    {
        let mut players: Vec<Player> = Vec::new();
        let mut i: usize = 0;
        while i < self.players.len()
            invariant
                i <= self.players@.len(),
                players@.len() == i,
                forall|k: int| 0 <= k < i ==> (#[trigger] players@[k])@ == self.players@[k]@,
            decreases self.players@.len() - i,
        {
            players.push(self.players[i].duplicate());
            i += 1;
        }
        proof {
            let u = players@;
            let t = self.players@;
            assert forall|a: int, b: int| 0 <= a < u.len() && 0 <= b < u.len() && a != b implies u[a].id != u[b].id by {
                assert(u[a]@.id == t[a]@.id);
                assert(u[b]@.id == t[b]@.id);
            }
            assert forall|id: Id| #[trigger] roster_map(u).contains_key(id) <==> roster_map(t).contains_key(id) by {
                if roster_map(u).contains_key(id) {
                    let j = choose|j: int| 0 <= j < u.len() && u[j].id == id;
                    assert(u[j]@.id == t[j]@.id);
                }
                if roster_map(t).contains_key(id) {
                    let j = choose|j: int| 0 <= j < t.len() && t[j].id == id;
                    assert(u[j]@.id == t[j]@.id);
                }
            }
            assert forall|id: Id| #[trigger] roster_map(u).contains_key(id) implies roster_map(u)[id] == roster_map(t)[id] by {
                let j = choose|j: int| 0 <= j < u.len() && u[j].id == id;
                assert(u[j]@.id == t[j]@.id);
                crate::roster::lemma_roster_entry(u, j);
                crate::roster::lemma_roster_entry(t, j);
            }
            assert(roster_map(u) =~= roster_map(t));
        }
        let winner = match &self.winner {
            Some(w) => Some((w.0.clone(), w.1)),
            None => None,
        };
        SharedModel {
            tick: self.tick,
            next_id: self.next_id,
            config: self.config,
            avalanche_position: self.avalanche_position,
            avalanche_speed: self.avalanche_speed,
            players,
            track: copy_track(&self.track),
            winner,
            highscores: copy_table(&self.highscores),
            scores: copy_table(&self.scores),
            reset_timer: self.reset_timer,
        }
    }
}

/// The server's side of one connection: the last state it sent.
pub struct Broadcaster {
    pub last: Option<SharedModel>,
}

impl Broadcaster {
    pub open spec fn wf(&self) -> bool {
        self.last matches Some(s) ==> ids_unique(s.players@)
    }

    pub fn new() -> (r: Broadcaster)
        ensures
            r.last is None,
            r.wf(),
    {
        Broadcaster { last: None }
    }

    /// The message that brings a client from what it was last sent to
    /// `current`: the whole state the first time, a difference after.
    pub fn outgoing(&mut self, current: &SharedModel) -> (m: ServerMessage)
        requires
            old(self).wf(),
            ids_unique(current.players@),
        ensures
            final(self).wf(),
            (final(self).last matches Some(s) && s@ == current@),
            old(self).last is None ==> (m matches ServerMessage::Full(s) && s@ == current@),
            old(self).last matches Some(prev) ==> (m matches ServerMessage::Delta(d) && is_delta(prev@, current@, d@)),
    {
        let m = match &self.last {
            None => ServerMessage::Full(current.duplicate()),
            Some(prev) => ServerMessage::Delta(compute_delta(prev, current)),
        };
        self.last = Some(current.duplicate());
        m
    }
}

/// A client's mirror of the server state and its own identity.
pub struct Remote {
    pub player_id: Option<Id>,
    pub state: Option<SharedModel>,
}

pub open spec fn mirror_view(m: Option<SharedModel>) -> Option<SharedView> {
    match m {
        Some(s) => Some(s@),
        None => None,
    }
}

/// The mirror after one message.
pub open spec fn received(state: Option<SharedView>, msg: ServerMessage) -> Option<SharedView> {
    match msg {
        ServerMessage::Full(s) => if ids_unique(s.players@) { Some(s@) } else { state },
        ServerMessage::Delta(d) => match state {
            Some(v) => Some(applied(v, d@)),
            None => None,
        },
        _ => state,
    }
}

/// The events a message carries.
pub open spec fn events_in(msg: ServerMessage) -> Seq<Event> {
    match msg {
        ServerMessage::Events(e) => e@,
        _ => Seq::empty(),
    }
}

/// The mirror after each message of `msgs`, in order.
pub open spec fn received_all(state: Option<SharedView>, msgs: Seq<ServerMessage>) -> Option<SharedView>
    decreases msgs.len(),
{
    if msgs.len() == 0 {
        state
    } else {
        received(received_all(state, msgs.drop_last()), msgs.last())
    }
}

/// The events of `msgs`, in order.
pub open spec fn events_all(msgs: Seq<ServerMessage>) -> Seq<Event>
    decreases msgs.len(),
{
    if msgs.len() == 0 {
        Seq::empty()
    } else {
        events_all(msgs.drop_last()) + events_in(msgs.last())
    }
}

impl Remote {
    pub open spec fn wf(&self) -> bool {
        self.state matches Some(s) ==> ids_unique(s.players@)
    }

    pub fn new() -> (r: Remote)
        ensures
            r.player_id is None,
            r.state is None,
            r.wf(),
    {
        Remote { player_id: None, state: None }
    }

    /// The mirrored state, once a snapshot has arrived.
    pub fn get(&self) -> (r: &Option<SharedModel>)
        ensures
            r == &self.state,
    {
        &self.state
    }

    /// Takes in one message and returns the events it carries. A snapshot
    /// replaces the mirror (one with a repeated player id is refused); a
    /// difference is applied to it; an identity is kept.
    pub fn receive(&mut self, msg: ServerMessage) -> (events: Vec<Event>)
        requires
            old(self).wf(),
        ensures
            final(self).wf(),
            mirror_view(final(self).state) == received(mirror_view(old(self).state), msg),
            final(self).player_id == (match msg {
                ServerMessage::PlayerId(id) => Some(id),
                _ => old(self).player_id,
            }),
            events@ == events_in(msg),
    {
        match msg {
            ServerMessage::PlayerId(id) => {
                self.player_id = Some(id);
                Vec::new()
            },
            ServerMessage::Full(state) => {
                if ids_are_unique(&state.players) {
                    self.state = Some(state);
                }
                Vec::new()
            },
            ServerMessage::Delta(delta) => {
                match &mut self.state {
                    Some(s) => {
                        s.apply(&delta);
                    },
                    None => {},
                }
                Vec::new()
            },
            ServerMessage::Events(e) => e,
        }
    }

    /// Takes in every message received since the last call, in order, and
    /// returns the events they carry.
    pub fn update(&mut self, messages: Vec<ServerMessage>) -> (events: Vec<Event>)
        requires
            old(self).wf(),
        ensures
            final(self).wf(),
            mirror_view(final(self).state) == received_all(mirror_view(old(self).state), messages@),
            final(self).player_id == old(self).player_id || exists|i: int|
                0 <= i < messages@.len() && messages@[i] == ServerMessage::PlayerId(final(self).player_id.unwrap()),
            events@ == events_all(messages@),
    {
        let ghost all = messages@;
        let mut events: Vec<Event> = Vec::new();
        let mut rest = messages;
        let n = rest.len();
        let mut k: usize = 0;
        while rest.len() > 0
            invariant
                self.wf(),
                all.len() == n,
                k + rest@.len() == all.len(),
                rest@ == all.subrange(k as int, all.len() as int),
                mirror_view(self.state) == received_all(mirror_view(old(self).state), all.subrange(0, k as int)),
                self.player_id == old(self).player_id || exists|i: int|
                    0 <= i < k && all[i] == ServerMessage::PlayerId(self.player_id.unwrap()),
                events@ == events_all(all.subrange(0, k as int)),
            decreases rest@.len(),
        {
            let msg = rest.remove(0);
            proof {
                assert(msg == all[k as int]);
                assert(all.subrange(0, k + 1).drop_last() =~= all.subrange(0, k as int));
                assert(all.subrange(0, k + 1).last() == msg);
            }
            let mut e = self.receive(msg);
            events.append(&mut e);
            k += 1;
            proof {
                assert(rest@ =~= all.subrange(k as int, all.len() as int));
            }
        }
        assert(all.subrange(0, k as int) =~= all);
        events
    }
}


/// A client whose mirror holds what the server last sent reaches the
/// server's current state on the next difference.
pub proof fn mirror_follows_broadcast(sent: SharedView, current: SharedView, d: SharedModelDelta)
    requires
        is_delta(sent, current, d@),
    ensures
        received(Some(sent), ServerMessage::Delta(d)) == Some(current),
{
    lemma_round_trip(sent, current, d@);
}

} // verus!
