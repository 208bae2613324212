//! Forgetting the peers that have gone silent.
//!
//! A peer that leaves without a word is noticed only by its silence. Once a
//! tick, every record whose last contact lies more than `CONTACT_TIMEOUT`
//! ticks back is removed.

use crate::message::PeerIdentity;
use crate::registry::{PeerModel, PeerRegistry, RemotePlayer};
use vstd::prelude::*;

verus! {

/// The number of ticks of silence that a record survives.
pub const CONTACT_TIMEOUT: u32 = 120;

/// Whether a record has been silent for too long at tick `now`.
pub open spec fn stale(p: PeerModel, now: u32) -> bool {
    now - p.last_update > CONTACT_TIMEOUT
}

/// The records that are not stale at tick `now`.
pub open spec fn survivors(peers: Map<PeerIdentity, PeerModel>, now: u32) -> Map<
    PeerIdentity,
    PeerModel,
> {
    Map::new(
        |id: PeerIdentity| peers.contains_key(id) && !stale(peers[id], now),
        |id: PeerIdentity| peers[id],
    )
}

/// Whether a record has been silent for too long at tick `now`.
pub fn is_stale(p: &RemotePlayer, now: u32) -> (r: bool)
    ensures
        r == stale(p@, now),
{
    now > p.last_update && now - p.last_update > CONTACT_TIMEOUT
}

/// Removes every stale record, and returns the identities removed, each
/// once, so that their representations can be removed too.
pub fn despawn_no_contact_remotes(registry: &mut PeerRegistry, frame_count: u32) -> (gone: Vec<
    PeerIdentity,
>)
    requires
        old(registry).wf(),
    ensures
        final(registry).wf(),
        final(registry).local() == old(registry).local(),
        final(registry)@ == survivors(old(registry)@, frame_count),
        forall|id: PeerIdentity|
            gone@.contains(id) <==> old(registry)@.contains_key(id) && stale(
                old(registry)@[id],
                frame_count,
            ),
        gone@.no_duplicates(),
{
    let mut gone: Vec<PeerIdentity> = Vec::new();
    let peers: &Vec<RemotePlayer> = registry.all();
    proof {
        registry.lemma_wf();
    }
    let mut i: usize = 0;
    while i < peers.len()
        invariant
            i <= peers@.len(),
            registry.wf(),
            peers@.len() == registry.entries().len(),
            forall|k: int| 0 <= k < peers@.len() ==> (#[trigger] peers@[k])@ == registry.entries()[k],
            forall|g: int|
                0 <= g < gone@.len() ==> registry@.contains_key(#[trigger] gone@[g]) && stale(
                    registry@[gone@[g]],
                    frame_count,
                ),
            forall|k: int|
                i <= k < peers@.len() ==> !gone@.contains(
                    (#[trigger] registry.entries()[k]).uuid,
                ),
            forall|k: int|
                0 <= k < i && stale(#[trigger] registry.entries()[k], frame_count)
                    ==> gone@.contains(registry.entries()[k].uuid),
            gone@.no_duplicates(),
        decreases peers@.len() - i,
    {
        proof {
            registry.lemma_wf();
        }
        let p: &RemotePlayer = &peers[i];
        assert(p@ == registry.entries()[i as int]);
        if is_stale(p, frame_count) {
            let ghost before = gone@;
            gone.push(p.uuid);
            assert(gone@[before.len() as int] == p.uuid);
            assert forall|k: int|
                0 <= k < i + 1 && stale(
                    #[trigger] registry.entries()[k],
                    frame_count,
                ) implies gone@.contains(registry.entries()[k].uuid) by {
                if k < i {
                    let g = choose|g: int|
                        0 <= g < before.len() && before[g] == registry.entries()[k].uuid;
                    assert(gone@[g] == registry.entries()[k].uuid);
                }
            }
            assert forall|k: int| i + 1 <= k < peers@.len() implies !gone@.contains(
                (#[trigger] registry.entries()[k]).uuid,
            ) by {
                let id = registry.entries()[k].uuid;
                assert(!before.contains(id));
                if gone@.contains(id) {
                    let g = choose|g: int| 0 <= g < gone@.len() && gone@[g] == id;
                    if g < before.len() {
                        assert(before[g] == id);
                    }
                }
            }
            assert(!before.contains(registry.entries()[i as int].uuid));
            assert forall|a: int, b: int|
                0 <= a < gone@.len() && 0 <= b < gone@.len() && a != b implies gone@[a]
                != gone@[b] by {
                if a < before.len() && b < before.len() {
                    assert(before[a] != before[b]);
                } else if a < before.len() {
                    assert(before[a] == gone@[a]);
                } else {
                    assert(before[b] == gone@[b]);
                }
            }
        }
        i += 1;
    }
    proof {
        registry.lemma_wf();
        assert forall|id: PeerIdentity|
            gone@.contains(id) <==> registry@.contains_key(id) && stale(
                registry@[id],
                frame_count,
            ) by {
            if gone@.contains(id) {
                let g = choose|g: int| 0 <= g < gone@.len() && gone@[g] == id;
                assert(registry@.contains_key(gone@[g]));
            }
            if registry@.contains_key(id) && stale(registry@[id], frame_count) {
                let k = choose|k: int|
                    0 <= k < registry.entries().len() && registry.entries()[k] == registry@[id];
                assert(stale(registry.entries()[k], frame_count));
            }
        }
    }
    let ghost before = registry@;
    let mut j: usize = 0;
    while j < gone.len()
        invariant
            j <= gone@.len(),
            registry.wf(),
            registry.local() == old(registry).local(),
            before == old(registry)@,
            forall|id: PeerIdentity|
                gone@.contains(id) <==> before.contains_key(id) && stale(before[id], frame_count),
            forall|id: PeerIdentity| #[trigger]
                registry@.contains_key(id) <==> before.contains_key(id) && !gone@.take(
                    j as int,
                ).contains(id),
            forall|id: PeerIdentity| #[trigger]
                registry@.contains_key(id) ==> registry@[id] == before[id],
        decreases gone@.len() - j,
    {
        let id: PeerIdentity = gone[j];
        let ghost prior = registry@;
        registry.remove(id);
        assert forall|other: PeerIdentity| #[trigger]
            registry@.contains_key(other) <==> before.contains_key(other) && !gone@.take(
                j + 1,
            ).contains(other) by {
            let head = gone@.take(j as int);
            let more = gone@.take(j + 1);
            assert(more =~= head.push(id));
            if head.contains(other) {
                let g = choose|g: int| 0 <= g < head.len() && head[g] == other;
                assert(more[g] == other);
            }
            if more.contains(other) && other != id {
                let g = choose|g: int| 0 <= g < more.len() && more[g] == other;
                assert(head[g] == other);
            }
            assert(more[j as int] == id);
        }
        j += 1;
    }
    assert(gone@.take(j as int) =~= gone@);
    assert(registry@ =~= survivors(before, frame_count));
    gone
}

/// A peer last heard from at tick `last`, and not since, is in the registry
/// after the eviction at every tick up to `last + CONTACT_TIMEOUT`, and is
/// gone after the eviction at the tick that follows.
pub proof fn lemma_eviction_bound(
    peers: Map<PeerIdentity, PeerModel>,
    id: PeerIdentity,
    last: u32,
    now: u32,
)
    requires
        peers.contains_key(id),
        peers[id].last_update == last,
    ensures
        survivors(peers, now).contains_key(id) <==> now - last <= CONTACT_TIMEOUT,
        now == last + CONTACT_TIMEOUT ==> survivors(peers, now).contains_key(id),
        now == last + CONTACT_TIMEOUT + 1 ==> !survivors(peers, now).contains_key(id),
        survivors(peers, now).contains_key(id) ==> survivors(peers, now)[id] == peers[id],
{
}

} // verus!
