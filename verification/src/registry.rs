//! The remote peers that this client knows of.
//!
//! The registry holds one record for each remote peer, found by the peer's
//! identity. The local participant is tracked apart from it and never gets a
//! record here.

use crate::message::PeerIdentity;
use crate::scalar::Scalar;
use vstd::prelude::*;

verus! {

/// What is known of one remote peer.
#[derive(Debug)]
pub struct RemotePlayer {
    /// The peer's identity.
    pub uuid: PeerIdentity,
    /// The name it shows to others.
    pub name: String,
    /// Its currency. Synchronised, but of no weight in any decision.
    pub golds: i32,
    /// The tick at which it was last heard from.
    pub last_update: u32,
    /// The shard that it last reported itself in, once it has reported one.
    pub level: Option<i32>,
    pub x: Scalar,
    pub y: Scalar,
    pub vx: Scalar,
    pub vy: Scalar,
    /// The angle it faces.
    pub angle: Scalar,
    /// How strongly it glows.
    pub intensity: Scalar,
    pub life: i32,
    pub max_life: i32,
}

/// A peer's record, with the display name as a sequence of characters.
pub struct PeerModel {
    pub uuid: PeerIdentity,
    pub name: Seq<char>,
    pub golds: i32,
    pub last_update: u32,
    pub level: Option<i32>,
    pub x: Scalar,
    pub y: Scalar,
    pub vx: Scalar,
    pub vy: Scalar,
    pub angle: Scalar,
    pub intensity: Scalar,
    pub life: i32,
    pub max_life: i32,
}

impl View for RemotePlayer {
    type V = PeerModel;

    open spec fn view(&self) -> PeerModel {
        PeerModel {
            uuid: self.uuid,
            name: self.name@,
            golds: self.golds,
            last_update: self.last_update,
            level: self.level,
            x: self.x,
            y: self.y,
            vx: self.vx,
            vy: self.vy,
            angle: self.angle,
            intensity: self.intensity,
            life: self.life,
            max_life: self.max_life,
        }
    }
}

impl PeerModel {
    /// The record after `damage` has been taken at `tick`. The life is
    /// reduced by the damage with no floor: it may go below zero, and beyond
    /// the least 32-bit number it wraps.
    pub open spec fn damaged(self, damage: i32, tick: u32) -> PeerModel {
        PeerModel { life: self.life.wrapping_sub(damage), ..self }.touched(tick)
    }

    /// The record with its contact tick moved to `tick`, unless that would
    /// move it backward.
    pub open spec fn touched(self, tick: u32) -> PeerModel {
        PeerModel {
            last_update: if tick > self.last_update {
                tick
            } else {
                self.last_update
            },
            ..self
        }
    }
}

/// Whether slot `i` of `peers` holds the record of `id`.
spec fn holds(peers: Seq<RemotePlayer>, i: int, id: PeerIdentity) -> bool {
    0 <= i < peers.len() && peers[i].uuid == id
}

/// No identity has two slots.
spec fn distinct(peers: Seq<RemotePlayer>) -> bool {
    forall|i: int, j: int| 0 <= i < j < peers.len() ==> peers[i].uuid != peers[j].uuid
}

/// The map from the identities that have a slot to their records.
spec fn map_of(peers: Seq<RemotePlayer>) -> Map<PeerIdentity, PeerModel> {
    Map::new(
        |id: PeerIdentity| exists|i: int| holds(peers, i, id),
        |id: PeerIdentity| peers[choose|i: int| holds(peers, i, id)]@,
    )
}

proof fn lemma_map_of_slot(peers: Seq<RemotePlayer>, i: int)
    requires
        distinct(peers),
        0 <= i < peers.len(),
    ensures
        map_of(peers).contains_key(peers[i].uuid),
        map_of(peers)[peers[i].uuid] == peers[i]@,
{
    let id = peers[i].uuid;
    assert(holds(peers, i, id));
    let k = choose|k: int| holds(peers, k, id);
    assert(k == i);
}

proof fn lemma_map_of_key(peers: Seq<RemotePlayer>, id: PeerIdentity) -> (k: int)
    requires
        distinct(peers),
        map_of(peers).contains_key(id),
    ensures
        holds(peers, k, id),
        map_of(peers)[id] == peers[k]@,
{
    choose|k: int| holds(peers, k, id)
}

proof fn lemma_map_of_update(peers: Seq<RemotePlayer>, i: int, rec: RemotePlayer)
    requires
        distinct(peers),
        0 <= i < peers.len(),
        rec.uuid == peers[i].uuid,
    ensures
        distinct(peers.update(i, rec)),
        map_of(peers.update(i, rec)) == map_of(peers).insert(rec.uuid, rec@),
{
    let after = peers.update(i, rec);
    let want = map_of(peers).insert(rec.uuid, rec@);
    assert forall|id: PeerIdentity| map_of(after).contains_key(id) <==> want.contains_key(
        id,
    ) by {
        if map_of(after).contains_key(id) {
            let k = lemma_map_of_key(after, id);
            assert(holds(peers, k, id));
        }
        if want.contains_key(id) {
            if id == rec.uuid {
                assert(holds(after, i, id));
            } else {
                let k = lemma_map_of_key(peers, id);
                assert(holds(after, k, id));
            }
        }
    }
    assert forall|id: PeerIdentity| map_of(after).contains_key(id) implies map_of(after)[id]
        == want[id] by {
        let k = lemma_map_of_key(after, id);
        if id != rec.uuid {
            lemma_map_of_slot(peers, k);
        }
    }
    assert(map_of(after) =~= want);
}

proof fn lemma_map_of_push(peers: Seq<RemotePlayer>, rec: RemotePlayer)
    requires
        distinct(peers),
        forall|i: int| !holds(peers, i, rec.uuid),
    ensures
        distinct(peers.push(rec)),
        map_of(peers.push(rec)) == map_of(peers).insert(rec.uuid, rec@),
{
    let after = peers.push(rec);
    let want = map_of(peers).insert(rec.uuid, rec@);
    assert forall|i: int, j: int| 0 <= i < j < after.len() implies after[i].uuid
        != after[j].uuid by {
        if j == peers.len() {
            assert(!holds(peers, i, rec.uuid));
        }
    }
    assert forall|id: PeerIdentity| map_of(after).contains_key(id) <==> want.contains_key(
        id,
    ) by {
        if map_of(after).contains_key(id) {
            let k = lemma_map_of_key(after, id);
            if k < peers.len() {
                assert(holds(peers, k, id));
            }
        }
        if want.contains_key(id) {
            if id == rec.uuid {
                assert(holds(after, peers.len() as int, id));
            } else {
                let k = lemma_map_of_key(peers, id);
                assert(holds(after, k, id));
            }
        }
    }
    assert forall|id: PeerIdentity| map_of(after).contains_key(id) implies map_of(after)[id]
        == want[id] by {
        let k = lemma_map_of_key(after, id);
        if k < peers.len() {
            assert(holds(peers, k, id));
            lemma_map_of_slot(peers, k);
        }
    }
    assert(map_of(after) =~= want);
}

proof fn lemma_map_of_remove(peers: Seq<RemotePlayer>, i: int)
    requires
        distinct(peers),
        0 <= i < peers.len(),
    ensures
        distinct(peers.remove(i)),
        map_of(peers.remove(i)) == map_of(peers).remove(peers[i].uuid),
{
    let after = peers.remove(i);
    let gone = peers[i].uuid;
    let want = map_of(peers).remove(gone);
    assert forall|a: int, b: int| 0 <= a < b < after.len() implies after[a].uuid
        != after[b].uuid by {
        let a0 = if a < i { a } else { a + 1 };
        let b0 = if b < i { b } else { b + 1 };
        assert(after[a] == peers[a0] && after[b] == peers[b0]);
    }
    assert forall|id: PeerIdentity| map_of(after).contains_key(id) <==> want.contains_key(
        id,
    ) by {
        if map_of(after).contains_key(id) {
            let k = lemma_map_of_key(after, id);
            let k0 = if k < i { k } else { k + 1 };
            assert(holds(peers, k0, id));
        }
        if want.contains_key(id) {
            let k = lemma_map_of_key(peers, id);
            let k1 = if k < i { k } else { k - 1 };
            assert(holds(after, k1, id));
        }
    }
    assert forall|id: PeerIdentity| map_of(after).contains_key(id) implies map_of(after)[id]
        == want[id] by {
        let k = lemma_map_of_key(after, id);
        let k0 = if k < i { k } else { k + 1 };
        assert(holds(peers, k0, id));
        lemma_map_of_slot(peers, k0);
    }
    assert(map_of(after) =~= want);
}

proof fn lemma_map_of_finite(peers: Seq<RemotePlayer>)
    requires
        distinct(peers),
    ensures
        map_of(peers).dom().finite(),
        map_of(peers).dom().len() == peers.len(),
    decreases peers.len(),
{
    if peers.len() == 0 {
        assert(map_of(peers).dom() =~= Set::<PeerIdentity>::empty());
    } else {
        let head = peers.drop_last();
        let last = peers.last();
        lemma_map_of_finite(head);
        assert forall|i: int| !holds(head, i, last.uuid) by {
            if holds(head, i, last.uuid) {
                assert(peers[i].uuid == peers[peers.len() - 1].uuid);
            }
        }
        lemma_map_of_push(head, last);
        assert(head.push(last) =~= peers);
        assert(!map_of(head).dom().contains(last.uuid));
    }
}

/// The records after `rec` has been filed. A record of the local participant
/// is not filed. A record that replaces an older one of the same identity
/// overwrites every field of it, but never moves the contact tick backward.
pub open spec fn upserted(
    before: Map<PeerIdentity, PeerModel>,
    local: PeerIdentity,
    rec: PeerModel,
) -> Map<PeerIdentity, PeerModel> {
    if rec.uuid == local {
        before
    } else if before.contains_key(rec.uuid) {
        before.insert(rec.uuid, rec.touched(before[rec.uuid].last_update))
    } else {
        before.insert(rec.uuid, rec)
    }
}

/// The records after `id` has taken `damage` at `tick`.
pub open spec fn damaged_at(
    before: Map<PeerIdentity, PeerModel>,
    id: PeerIdentity,
    damage: i32,
    tick: u32,
) -> Map<PeerIdentity, PeerModel> {
    if before.contains_key(id) {
        before.insert(id, before[id].damaged(damage, tick))
    } else {
        before
    }
}

/// The records after `id` has been heard from at `tick`.
pub open spec fn touched_at(
    before: Map<PeerIdentity, PeerModel>,
    id: PeerIdentity,
    tick: u32,
) -> Map<PeerIdentity, PeerModel> {
    if before.contains_key(id) {
        before.insert(id, before[id].touched(tick))
    } else {
        before
    }
}

/// The registry of remote peers. Its view is the map from the identities it
/// knows to their records.
pub struct PeerRegistry {
    local: PeerIdentity,
    peers: Vec<RemotePlayer>,
}

impl View for PeerRegistry {
    type V = Map<PeerIdentity, PeerModel>;

    closed spec fn view(&self) -> Map<PeerIdentity, PeerModel> {
        map_of(self.peers@)
    }
}

impl PeerRegistry {
    /// The identity of the local participant.
    pub closed spec fn local(&self) -> PeerIdentity {
        self.local
    }

    /// The records in the order in which `all` hands them out.
    pub closed spec fn entries(&self) -> Seq<PeerModel> {
        Seq::new(self.peers@.len(), |i: int| self.peers@[i]@)
    }

    /// No identity has two records, and the local participant has none.
    pub closed spec fn wf(&self) -> bool {
        &&& distinct(self.peers@)
        &&& forall|i: int| 0 <= i < self.peers@.len() ==> self.peers@[i].uuid != self.local
    }

    /// In a well-formed registry a record is filed under its own identity,
    /// the local participant has no record, and `entries` lists each record
    /// of the map once.
    pub proof fn lemma_wf(&self)
        requires
            self.wf(),
        ensures
            self@.dom().finite(),
            self@.dom().len() == self.entries().len(),
            !self@.contains_key(self.local()),
            forall|id: PeerIdentity| #[trigger]
                self@.contains_key(id) ==> self@[id].uuid == id,
            forall|i: int|
                0 <= i < self.entries().len() ==> self@.contains_key(
                    (#[trigger] self.entries()[i]).uuid,
                ) && self@[self.entries()[i].uuid] == self.entries()[i],
            forall|i: int, j: int|
                0 <= i < j < self.entries().len() ==> self.entries()[i].uuid
                    != self.entries()[j].uuid,
            forall|id: PeerIdentity| #[trigger]
                self@.contains_key(id) ==> exists|i: int|
                    0 <= i < self.entries().len() && self.entries()[i] == self@[id],
    {
        lemma_map_of_finite(self.peers@);
        assert forall|i: int| 0 <= i < self.entries().len() implies self@.contains_key(
            (#[trigger] self.entries()[i]).uuid,
        ) && self@[self.entries()[i].uuid] == self.entries()[i] by {
            let id = self.peers@[i].uuid;
            assert(holds(self.peers@, i, id));
            let k = choose|k: int| holds(self.peers@, k, id);
            assert(k == i);
        }
        assert forall|id: PeerIdentity| #[trigger] self@.contains_key(id) implies exists|i: int|
            0 <= i < self.entries().len() && self.entries()[i] == self@[id] by {
            let k = choose|k: int| holds(self.peers@, k, id);
            assert(self.entries()[k] == self@[id]);
        }
    }

    /// A registry without records, for the participant `local`.
    pub fn new(local: PeerIdentity) -> (r: PeerRegistry)
        ensures
            r.wf(),
            r.local() == local,
            r@ == Map::<PeerIdentity, PeerModel>::empty(),
    {
        let r = PeerRegistry { local, peers: Vec::new() };
        assert(r@ =~= Map::<PeerIdentity, PeerModel>::empty());
        r
    }

    /// The identity of the local participant.
    pub fn local_identity(&self) -> (id: PeerIdentity)
        ensures
            id == self.local(),
    {
        self.local
    }

    /// The slot that holds the record of `id`, if there is one.
    fn find(&self, id: PeerIdentity) -> (r: Option<usize>)
        ensures
            r matches Some(i) ==> holds(self.peers@, i as int, id),
            r is None ==> forall|i: int| !holds(self.peers@, i, id),
    {
        let mut i: usize = 0;
        while i < self.peers.len()
            invariant
                i <= self.peers@.len(),
                forall|k: int| 0 <= k < i ==> !holds(self.peers@, k, id),
            decreases self.peers@.len() - i,
        {
            if self.peers[i].uuid == id {
                return Some(i);
            }
            i += 1;
        }
        None
    }

    /// The record of `id`, if the registry has one.
    pub fn get(&self, id: PeerIdentity) -> (r: Option<&RemotePlayer>)
        requires
            self.wf(),
        ensures
            r is Some <==> self@.contains_key(id),
            r matches Some(p) ==> p@ == self@[id],
    {
        match self.find(id) {
            Some(i) => {
                proof {
                    let k = choose|k: int| holds(self.peers@, k, id);
                    assert(k == i);
                }
                Some(&self.peers[i])
            },
            None => None,
        }
    }

    /// Files `rec`: creates the record of a peer not known so far, or
    /// overwrites the one that is there. Returns whether a record was
    /// created.
    pub fn upsert(&mut self, rec: RemotePlayer) -> (created: bool)
        requires
            old(self).wf(),
        ensures
            final(self).wf(),
            final(self).local() == old(self).local(),
            final(self)@ == upserted(old(self)@, old(self).local(), rec@),
            created <==> rec.uuid != old(self).local() && !old(self)@.contains_key(rec.uuid),
    {
        if rec.uuid == self.local {
            return false;
        }
        match self.find(rec.uuid) {
            Some(i) => {
                let prior: u32 = self.peers[i].last_update;
                let mut rec = rec;
                if prior > rec.last_update {
                    rec.last_update = prior;
                }
                proof {
                    lemma_map_of_slot(self.peers@, i as int);
                    lemma_map_of_update(self.peers@, i as int, rec);
                }
                self.peers[i] = rec;
                false
            },
            None => {
                proof {
                    lemma_map_of_push(self.peers@, rec);
                }
                self.peers.push(rec);
                true
            },
        }
    }

    /// Takes the record of `id` out of the registry and returns it.
    pub fn remove(&mut self, id: PeerIdentity) -> (r: Option<RemotePlayer>)
        requires
            old(self).wf(),
        ensures
            final(self).wf(),
            final(self).local() == old(self).local(),
            final(self)@ == old(self)@.remove(id),
            r is Some <==> old(self)@.contains_key(id),
            r matches Some(p) ==> p@ == old(self)@[id],
    {
        match self.find(id) {
            Some(i) => {
                proof {
                    lemma_map_of_slot(self.peers@, i as int);
                    lemma_map_of_remove(self.peers@, i as int);
                }
                Some(self.peers.remove(i))
            },
            None => {
                assert(self@ =~= old(self)@.remove(id));
                None
            },
        }
    }

    /// Notes that `id` was heard from at `tick`. The contact tick of its
    /// record moves forward to `tick`, never backward. Returns whether the
    /// registry has a record of `id`.
    pub fn touch(&mut self, id: PeerIdentity, tick: u32) -> (known: bool)
        requires
            old(self).wf(),
        ensures
            final(self).wf(),
            final(self).local() == old(self).local(),
            final(self)@ == touched_at(old(self)@, id, tick),
            known <==> old(self)@.contains_key(id),
    {
        match self.find(id) {
            Some(i) => {
                proof {
                    lemma_map_of_slot(self.peers@, i as int);
                }
                if tick > self.peers[i].last_update {
                    self.peers[i].last_update = tick;
                }
                proof {
                    lemma_map_of_update(old(self).peers@, i as int, self.peers@[i as int]);
                    assert(self.peers@ =~= old(self).peers@.update(i as int, self.peers@[i as int]));
                }
                true
            },
            None => false,
        }
    }

    /// Reduces the life of `id` by `damage` and notes that it was heard of
    /// at `tick`. Returns whether the registry has a record of `id`.
    pub fn hit(&mut self, id: PeerIdentity, damage: i32, tick: u32) -> (known: bool)
        requires
            old(self).wf(),
        ensures
            final(self).wf(),
            final(self).local() == old(self).local(),
            final(self)@ == damaged_at(old(self)@, id, damage, tick),
            known <==> old(self)@.contains_key(id),
    {
        match self.find(id) {
            Some(i) => {
                proof {
                    lemma_map_of_slot(self.peers@, i as int);
                }
                let life: i32 = self.peers[i].life;
                self.peers[i].life = life.wrapping_sub(damage);
                if tick > self.peers[i].last_update {
                    self.peers[i].last_update = tick;
                }
                proof {
                    lemma_map_of_update(old(self).peers@, i as int, self.peers@[i as int]);
                    assert(self.peers@ =~= old(self).peers@.update(i as int, self.peers@[i as int]));
                }
                true
            },
            None => false,
        }
    }

    /// The number of records.
    pub fn len(&self) -> (n: usize)
        requires
            self.wf(),
        ensures
            n == self@.dom().len(),
    {
        proof {
            lemma_map_of_finite(self.peers@);
        }
        self.peers.len()
    }

    /// Forgets every record, as at the end of a session.
    pub fn clear(&mut self)
        ensures
            final(self).wf(),
            final(self).local() == old(self).local(),
            final(self)@ == Map::<PeerIdentity, PeerModel>::empty(),
    {
        self.peers.clear();
        assert(self@ =~= Map::<PeerIdentity, PeerModel>::empty());
    }

    /// All records.
    pub fn all(&self) -> (r: &Vec<RemotePlayer>)
        ensures
            r@.len() == self.entries().len(),
            forall|i: int| 0 <= i < r@.len() ==> (#[trigger] r@[i])@ == self.entries()[i],
    {
        &self.peers
    }
}

} // verus!
