//! What holds of the registry whatever is announced and whenever it is
//! listed.

use crate::address::{address_text, lemma_address_text_injective};
use crate::admission::{admission_of, Admission};
use crate::model::{
    addresses, announced, distinct_keys, has_key, is_expired, key_index, last_seen_of,
    lemma_key_index_unique, lemma_pruned_distinct, lemma_pruned_push, lemma_pruned_subset,
    lemma_upserted_distinct, pruned, upserted,
};
use crate::record::{entry_of, PeerEntry, PeerKey};
use vstd::prelude::*;

verus! {

/// One change to the registry.
pub enum Step {
    /// The peer `key` announced at `now` and was admitted.
    Upsert { key: PeerKey, now: nat },
    /// The records older at `now` than `ttl` were dropped.
    Prune { now: nat, ttl: nat },
}

/// The registry after one step.
pub open spec fn stepped(entries: Seq<PeerEntry>, step: Step) -> Seq<PeerEntry> {
    match step {
        Step::Upsert { key, now } => upserted(entries, key, now),
        Step::Prune { now, ttl } => pruned(entries, now, ttl),
    }
}

/// The registry that starts empty and takes `steps` in order.
pub open spec fn history(steps: Seq<Step>) -> Seq<PeerEntry>
    decreases steps.len(),
{
    if steps.len() == 0 {
        Seq::empty()
    } else {
        stepped(history(steps.drop_last()), steps.last())
    }
}

/// Exactly one entry of `entries` has the key `key`.
pub open spec fn has_exactly_one(entries: Seq<PeerEntry>, key: PeerKey) -> bool {
    exists|i: int|
        0 <= i < entries.len() && (#[trigger] entries[i]).key() == key && forall|j: int|
            0 <= j < entries.len() && (#[trigger] entries[j]).key() == key ==> j == i
}

/// Uniqueness: whatever is announced and whenever records are pruned, the
/// registry never holds two records with the same host and port.
pub proof fn lemma_keys_stay_distinct(steps: Seq<Step>)
    ensures
        distinct_keys(history(steps)),
    decreases steps.len(),
{
    if steps.len() > 0 {
        lemma_keys_stay_distinct(steps.drop_last());
        let before = history(steps.drop_last());
        match steps.last() {
            Step::Upsert { key, now } => lemma_upserted_distinct(before, key, now),
            Step::Prune { now, ttl } => lemma_pruned_distinct(before, now, ttl),
        }
    }
}

/// Uniqueness, as a listing shows it: where the keys are distinct, no
/// address is listed twice.
pub proof fn lemma_addresses_are_distinct(entries: Seq<PeerEntry>)
    requires
        distinct_keys(entries),
    ensures
        addresses(entries).no_duplicates(),
{
    let listing = addresses(entries);
    assert forall|i: int, j: int| 0 <= i < listing.len() && 0 <= j < listing.len() && i != j implies listing[i]
        != listing[j] by {
        if listing[i] == listing[j] {
            lemma_address_text_injective(
                entries[i].host,
                entries[i].port,
                entries[j].host,
                entries[j].port,
            );
            if i < j {
                assert(entries[i].key() != entries[j].key());
            } else {
                assert(entries[j].key() != entries[i].key());
            }
        }
    }
}

/// After an upsert the key is registered exactly once, with the time of the
/// upsert; a new key makes the registry one longer, a registered key leaves
/// its length as it was.
pub proof fn lemma_upsert_registers_once(entries: Seq<PeerEntry>, key: PeerKey, now: nat)
    requires
        distinct_keys(entries),
    ensures
        has_exactly_one(upserted(entries, key, now), key),
        last_seen_of(upserted(entries, key, now), key) == Some(now),
        upserted(entries, key, now).len() == if has_key(entries, key) {
            entries.len()
        } else {
            entries.len() + 1
        },
{
    let after = upserted(entries, key, now);
    lemma_upserted_distinct(entries, key, now);
    let at = if has_key(entries, key) {
        key_index(entries, key)
    } else {
        entries.len() as int
    };
    assert(after[at] == entry_of(key, now));
    lemma_key_index_unique(after, at);
    assert forall|j: int| 0 <= j < after.len() && (#[trigger] after[j]).key() == key implies j
        == at by {
        lemma_key_index_unique(after, j);
    }
}

/// An upsert of one key leaves every other key as it was.
pub proof fn lemma_upsert_keeps_others(
    entries: Seq<PeerEntry>,
    key: PeerKey,
    now: nat,
    other: PeerKey,
)
    requires
        distinct_keys(entries),
        other != key,
    ensures
        has_key(upserted(entries, key, now), other) == has_key(entries, other),
        last_seen_of(upserted(entries, key, now), other) == last_seen_of(entries, other),
{
    let after = upserted(entries, key, now);
    lemma_upserted_distinct(entries, key, now);
    if has_key(entries, other) {
        let i = key_index(entries, other);
        assert(after[i] == entries[i]);
        lemma_key_index_unique(after, i);
    }
    if has_key(after, other) {
        let i = key_index(after, other);
        assert(i < entries.len());
        assert(entries[i] == after[i]);
        lemma_key_index_unique(entries, i);
    }
}

/// Refresh monotonicity: when a registered peer announces again, and the
/// clock has not gone back since it was last seen, its record is not seen
/// earlier than before, and no second record appears.
pub proof fn lemma_refresh_is_monotone(
    entries: Seq<PeerEntry>,
    key: PeerKey,
    seen_before: nat,
    now: nat,
)
    requires
        distinct_keys(entries),
        last_seen_of(entries, key) == Some(seen_before),
        seen_before <= now,
    ensures
        last_seen_of(upserted(entries, key, now), key) == Some(now),
        now >= seen_before,
        upserted(entries, key, now).len() == entries.len(),
        has_exactly_one(upserted(entries, key, now), key),
{
    lemma_upsert_registers_once(entries, key, now);
}

/// Expiry: a record that is older at `now` than `ttl` is gone after pruning,
/// and no address of the listing names it.
pub proof fn lemma_expired_is_absent(entries: Seq<PeerEntry>, i: int, now: nat, ttl: nat)
    requires
        distinct_keys(entries),
        0 <= i < entries.len(),
        is_expired(entries[i].last_seen, now, ttl),
    ensures
        !has_key(pruned(entries, now, ttl), entries[i].key()),
        !addresses(pruned(entries, now, ttl)).contains(
            address_text(entries[i].host, entries[i].port),
        ),
{
    let after = pruned(entries, now, ttl);
    let gone = entries[i];
    lemma_pruned_subset(entries, now, ttl);
    assert forall|j: int| 0 <= j < after.len() implies (#[trigger] after[j]).key()
        != gone.key() by {
        let e = after[j];
        assert(entries.contains(e));
        let k = choose|k: int| 0 <= k < entries.len() && entries[k] == e;
        if e.key() == gone.key() {
            lemma_key_index_unique(entries, k);
            lemma_key_index_unique(entries, i);
        }
    }
    let listing = addresses(after);
    assert forall|j: int| 0 <= j < listing.len() implies listing[j] != address_text(
        gone.host,
        gone.port,
    ) by {
        if listing[j] == address_text(gone.host, gone.port) {
            lemma_address_text_injective(after[j].host, after[j].port, gone.host, gone.port);
            assert(after[j].key() == gone.key());
        }
    }
}

/// Expiry, the other way: a record that is not older at `now` than `ttl`
/// stays, unchanged, and the listing holds its address.
pub proof fn lemma_fresh_is_present(entries: Seq<PeerEntry>, i: int, now: nat, ttl: nat)
    requires
        0 <= i < entries.len(),
        !is_expired(entries[i].last_seen, now, ttl),
    ensures
        pruned(entries, now, ttl).contains(entries[i]),
        has_key(pruned(entries, now, ttl), entries[i].key()),
        addresses(pruned(entries, now, ttl)).contains(
            address_text(entries[i].host, entries[i].port),
        ),
{
    let after = pruned(entries, now, ttl);
    let fresh = |e: PeerEntry| !is_expired(e.last_seen, now, ttl);
    assert(fresh(entries[i]));
    entries.lemma_filter_contains(fresh, i);
    let j = choose|j: int| 0 <= j < after.len() && after[j] == entries[i];
    assert(after[j].key() == entries[i].key());
    assert(addresses(after)[j] == address_text(entries[i].host, entries[i].port));
}

/// What is listed is what has not expired: every record left by pruning was
/// last seen no longer than `ttl` before `now`.
pub proof fn lemma_listed_is_fresh(entries: Seq<PeerEntry>, j: int, now: nat, ttl: nat)
    requires
        0 <= j < pruned(entries, now, ttl).len(),
    ensures
        now - pruned(entries, now, ttl)[j].last_seen <= ttl,
        entries.contains(pruned(entries, now, ttl)[j]),
{
    lemma_pruned_subset(entries, now, ttl);
}

/// Idempotent listing: pruning again at the same time drops nothing more, so
/// a second listing right after the first gives the same addresses.
pub proof fn lemma_pruning_is_idempotent(entries: Seq<PeerEntry>, now: nat, ttl: nat)
    ensures
        pruned(pruned(entries, now, ttl), now, ttl) == pruned(entries, now, ttl),
        addresses(pruned(pruned(entries, now, ttl), now, ttl)) == addresses(
            pruned(entries, now, ttl),
        ),
{
    lemma_pruned_subset(entries, now, ttl);
    lemma_pruned_keeps_fresh(pruned(entries, now, ttl), now, ttl);
}

/// Pruning changes nothing where nothing has expired.
pub proof fn lemma_pruned_keeps_fresh(entries: Seq<PeerEntry>, now: nat, ttl: nat)
    requires
        forall|i: int|
            0 <= i < entries.len() ==> !is_expired((#[trigger] entries[i]).last_seen, now, ttl),
    ensures
        pruned(entries, now, ttl) == entries,
    decreases entries.len(),
{
    if entries.len() == 0 {
        reveal(Seq::filter);
    } else {
        let front = entries.drop_last();
        let last = entries.last();
        assert(front.push(last) =~= entries);
        lemma_pruned_push(front, last, now, ttl);
        assert forall|i: int| 0 <= i < front.len() implies !is_expired(
            (#[trigger] front[i]).last_seen,
            now,
            ttl,
        ) by {
            assert(front[i] == entries[i]);
        }
        lemma_pruned_keeps_fresh(front, now, ttl);
    }
}

/// Admission gating, the one way: an announcement whose probe failed leaves
/// the registry as it was, whatever identity came with it.
pub proof fn lemma_unreachable_changes_nothing(
    entries: Seq<PeerEntry>,
    key: PeerKey,
    identity: Option<Seq<char>>,
    allowed: Seq<Seq<char>>,
    now: nat,
)
    ensures
        admission_of(false, identity, allowed) == Admission::Unreachable,
        announced(entries, key, admission_of(false, identity, allowed), now) == entries,
{
}

/// Admission gating, for the identity: a missing token, or one that is not
/// on the allow-list, leaves the registry as it was.
pub proof fn lemma_bad_identity_changes_nothing(
    entries: Seq<PeerEntry>,
    key: PeerKey,
    reachable: bool,
    identity: Option<Seq<char>>,
    allowed: Seq<Seq<char>>,
    now: nat,
)
    requires
        identity matches Some(token) ==> !allowed.contains(token),
    ensures
        admission_of(reachable, identity, allowed) != Admission::Accept,
        announced(entries, key, admission_of(reachable, identity, allowed), now) == entries,
{
}

/// Admission gating, the other way: an announcement from a reachable peer
/// with an allowed identity is accepted, and afterwards the registry holds
/// exactly one record for its key, seen at the time of the announcement.
pub proof fn lemma_admitted_has_one_record(
    entries: Seq<PeerEntry>,
    key: PeerKey,
    token: Seq<char>,
    allowed: Seq<Seq<char>>,
    now: nat,
)
    requires
        distinct_keys(entries),
        allowed.contains(token),
    ensures
        admission_of(true, Some(token), allowed) == Admission::Accept,
        has_exactly_one(
            announced(entries, key, admission_of(true, Some(token), allowed), now),
            key,
        ),
        last_seen_of(
            announced(entries, key, admission_of(true, Some(token), allowed), now),
            key,
        ) == Some(now),
{
    lemma_upsert_registers_once(entries, key, now);
}

} // verus!
