//! The registry as a mathematical value: a sequence of entries, in the order
//! in which their keys were admitted, and the operations on it.

use crate::address::address_text;
use crate::admission::Admission;
use crate::record::{entry_of, PeerEntry, PeerKey};
use vstd::prelude::*;

verus! {

/// Whether some entry of `entries` has the key `key`.
pub open spec fn has_key(entries: Seq<PeerEntry>, key: PeerKey) -> bool {
    exists|i: int| 0 <= i < entries.len() && (#[trigger] entries[i]).key() == key
}

/// No two entries share a key.
pub open spec fn distinct_keys(entries: Seq<PeerEntry>) -> bool {
    forall|i: int, j: int|
        0 <= i < j < entries.len() ==> (#[trigger] entries[i]).key() != (#[trigger] entries[j]).key()
}

/// The position of an entry with the key `key`, where there is one.
pub open spec fn key_index(entries: Seq<PeerEntry>, key: PeerKey) -> int {
    choose|i: int| 0 <= i < entries.len() && (#[trigger] entries[i]).key() == key
}

/// When `key` last announced, if it is registered.
pub open spec fn last_seen_of(entries: Seq<PeerEntry>, key: PeerKey) -> Option<nat> {
    if has_key(entries, key) {
        Some(entries[key_index(entries, key)].last_seen)
    } else {
        None
    }
}

/// The registry after `key` announced at `now`: its entry is refreshed in
/// place, or added at the end when the key is new.
pub open spec fn upserted(entries: Seq<PeerEntry>, key: PeerKey, now: nat) -> Seq<PeerEntry> {
    if has_key(entries, key) {
        entries.update(key_index(entries, key), entry_of(key, now))
    } else {
        entries.push(entry_of(key, now))
    }
}

/// The registry after an announcement of `key` at `now` that was judged
/// `outcome`: only an accepted announcement changes it.
pub open spec fn announced(
    entries: Seq<PeerEntry>,
    key: PeerKey,
    outcome: Admission,
    now: nat,
) -> Seq<PeerEntry> {
    if outcome == Admission::Accept {
        upserted(entries, key, now)
    } else {
        entries
    }
}

/// Whether an entry last seen at `last_seen` is older at `now` than `ttl`
/// allows.
pub open spec fn is_expired(last_seen: nat, now: nat, ttl: nat) -> bool {
    now - last_seen > ttl
}

/// The registry without the entries that have expired at `now`.
pub open spec fn pruned(entries: Seq<PeerEntry>, now: nat, ttl: nat) -> Seq<PeerEntry> {
    entries.filter(|e: PeerEntry| !is_expired(e.last_seen, now, ttl))
}

/// The address of each entry, in the registry's order.
pub open spec fn addresses(entries: Seq<PeerEntry>) -> Seq<Seq<char>> {
    entries.map_values(|e: PeerEntry| address_text(e.host, e.port))
}

/// In a registry with distinct keys, the entry at a position is the one that
/// its key finds.
pub proof fn lemma_key_index_unique(entries: Seq<PeerEntry>, i: int)
    requires
        distinct_keys(entries),
        0 <= i < entries.len(),
    ensures
        has_key(entries, entries[i].key()),
        key_index(entries, entries[i].key()) == i,
{
    let key = entries[i].key();
    let j = key_index(entries, key);
    assert(0 <= j < entries.len() && entries[j].key() == key);
    if j < i {
        assert(entries[j].key() != entries[i].key());
    } else if i < j {
        assert(entries[i].key() != entries[j].key());
    }
}

/// An upsert keeps the keys distinct: it neither adds a second record for a
/// registered key nor disturbs the others.
pub proof fn lemma_upserted_distinct(entries: Seq<PeerEntry>, key: PeerKey, now: nat)
    requires
        distinct_keys(entries),
    ensures
        distinct_keys(upserted(entries, key, now)),
{
    let after = upserted(entries, key, now);
    if has_key(entries, key) {
        let at = key_index(entries, key);
        assert forall|i: int, j: int| 0 <= i < j < after.len() implies (#[trigger] after[i]).key()
            != (#[trigger] after[j]).key() by {
            assert(after[i].key() == entries[i].key());
            assert(after[j].key() == entries[j].key());
        }
    } else {
        assert forall|i: int, j: int| 0 <= i < j < after.len() implies (#[trigger] after[i]).key()
            != (#[trigger] after[j]).key() by {
            if j < entries.len() {
                assert(after[i].key() == entries[i].key());
                assert(after[j].key() == entries[j].key());
            } else {
                assert(after[i].key() == entries[i].key());
                assert(after[j].key() == key);
            }
        }
    }
}

/// Pruning looks at the entries one by one: the last entry stays exactly when
/// it has not expired.
pub proof fn lemma_pruned_push(entries: Seq<PeerEntry>, last: PeerEntry, now: nat, ttl: nat)
    ensures
        pruned(entries.push(last), now, ttl) == if is_expired(last.last_seen, now, ttl) {
            pruned(entries, now, ttl)
        } else {
            pruned(entries, now, ttl).push(last)
        },
{
    reveal(Seq::filter);
    assert(entries.push(last).drop_last() =~= entries);
}

/// Every entry that survives pruning was in the registry and has not expired.
pub proof fn lemma_pruned_subset(entries: Seq<PeerEntry>, now: nat, ttl: nat)
    ensures
        forall|i: int|
            0 <= i < pruned(entries, now, ttl).len() ==> {
                let e = #[trigger] pruned(entries, now, ttl)[i];
                entries.contains(e) && !is_expired(e.last_seen, now, ttl)
            },
    decreases entries.len(),
{
    let after = pruned(entries, now, ttl);
    if entries.len() == 0 {
        reveal(Seq::filter);
    } else {
        let front = entries.drop_last();
        let last = entries.last();
        assert(front.push(last) =~= entries);
        lemma_pruned_push(front, last, now, ttl);
        lemma_pruned_subset(front, now, ttl);
        assert forall|i: int| 0 <= i < after.len() implies {
            let e = #[trigger] after[i];
            entries.contains(e) && !is_expired(e.last_seen, now, ttl)
        } by {
            if i < pruned(front, now, ttl).len() {
                let e = pruned(front, now, ttl)[i];
                assert(front.contains(e));
                let k = choose|k: int| 0 <= k < front.len() && front[k] == e;
                assert(entries[k] == e);
            } else {
                assert(after[i] == last);
                assert(entries[entries.len() - 1] == last);
            }
        }
    }
}

/// Pruning keeps the keys distinct.
pub proof fn lemma_pruned_distinct(entries: Seq<PeerEntry>, now: nat, ttl: nat)
    requires
        distinct_keys(entries),
    ensures
        distinct_keys(pruned(entries, now, ttl)),
    decreases entries.len(),
{
    let after = pruned(entries, now, ttl);
    if entries.len() == 0 {
        reveal(Seq::filter);
    } else {
        let front = entries.drop_last();
        let last = entries.last();
        assert(front.push(last) =~= entries);
        lemma_pruned_push(front, last, now, ttl);
        lemma_pruned_subset(front, now, ttl);
        assert(distinct_keys(front)) by {
            assert forall|i: int, j: int| 0 <= i < j < front.len() implies (#[trigger] front[i]).key()
                != (#[trigger] front[j]).key() by {
                assert(entries[i].key() != entries[j].key());
            }
        }
        lemma_pruned_distinct(front, now, ttl);
        let kept = pruned(front, now, ttl);
        assert forall|i: int, j: int| 0 <= i < j < after.len() implies (#[trigger] after[i]).key()
            != (#[trigger] after[j]).key() by {
            if j < kept.len() {
                assert(kept[i].key() != kept[j].key());
            } else {
                let e = kept[i];
                assert(front.contains(e));
                let k = choose|k: int| 0 <= k < front.len() && front[k] == e;
                assert(entries[k].key() != entries[entries.len() - 1].key());
            }
        }
    }
}

} // verus!
