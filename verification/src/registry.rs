//! The store of live peers.

use crate::address::{address_text, format_address, same_text};
use crate::admission::{admission_of, token_text, validate, Admission};
use crate::config::DEFAULT_TTL_SECS;
use crate::laws::lemma_addresses_are_distinct;
use crate::model::{
    addresses, announced, distinct_keys, has_key, last_seen_of, lemma_key_index_unique,
    lemma_pruned_distinct, lemma_pruned_push, lemma_upserted_distinct, pruned, upserted,
};
use crate::record::{entries_of, entry_of, PeerEntry, PeerKey, PeerRecord};
use crate::response::{Response, CODE_OK, LIST_VERSION, MSG_OK};
use vstd::prelude::*;

verus! {

/// The set of peers that announced recently, one record for each key.
pub struct Registry {
    records: Vec<PeerRecord>,
    ttl: u64,
}

impl View for Registry {
    type V = Seq<PeerEntry>;

    closed spec fn view(&self) -> Seq<PeerEntry> {
        entries_of(self.records@)
    }
}

impl Registry {
    #[verifier::type_invariant]
    spec fn keys_are_distinct(&self) -> bool {
        distinct_keys(self@)
    }

    /// The age beyond which a listing drops a record.
    pub closed spec fn ttl(&self) -> nat {
        self.ttl as nat
    }

    /// An empty registry with the default time-to-live.
    pub fn new() -> (registry: Registry)
        ensures
            registry@ == Seq::<PeerEntry>::empty(),
            registry.ttl() == DEFAULT_TTL_SECS,
    {
        Registry::with_ttl(DEFAULT_TTL_SECS)
    }

    /// An empty registry whose listings drop records older than `ttl`.
    pub fn with_ttl(ttl: u64) -> (registry: Registry)
        ensures
            registry@ == Seq::<PeerEntry>::empty(),
            registry.ttl() == ttl,
    {
        let registry = Registry { records: Vec::new(), ttl };
        assert(registry@ =~= Seq::<PeerEntry>::empty());
        registry
    }

    /// The number of registered peers.
    pub fn len(&self) -> (n: usize)
        ensures
            n == self@.len(),
            distinct_keys(self@),
    {
        proof {
            use_type_invariant(self);
        }
        self.records.len()
    }

    /// Whether no peer is registered.
    pub fn is_empty(&self) -> (empty: bool)
        ensures
            empty == (self@.len() == 0),
    {
        self.records.len() == 0
    }

    /// The time-to-live that listings apply.
    pub fn ttl_secs(&self) -> (ttl: u64)
        ensures
            ttl == self.ttl(),
    {
        self.ttl
    }

    /// Whether the peer `host:port` is registered.
    pub fn contains(&self, host: &str, port: u16) -> (found: bool)
        ensures
            found == has_key(self@, PeerKey { host: host@, port }),
            distinct_keys(self@),
    {
        self.position(host, port).is_some()
    }

    /// When the peer `host:port` last announced, if it is registered.
    pub fn last_seen(&self, host: &str, port: u16) -> (seen: Option<u64>)
        ensures
            match seen {
                Some(at) => last_seen_of(self@, PeerKey { host: host@, port }) == Some(at as nat),
                None => last_seen_of(self@, PeerKey { host: host@, port }) is None,
            },
            distinct_keys(self@),
    {
        match self.position(host, port) {
            Some(i) => {
                proof {
                    lemma_key_index_unique(self@, i as int);
                }
                Some(self.records[i].last_seen)
            },
            None => None,
        }
    }

    /// A copy of every record, in the registry's order.
    pub fn records(&self) -> (copies: Vec<PeerRecord>)
        ensures
            entries_of(copies@) == self@,
            distinct_keys(self@),
    {
        proof {
            use_type_invariant(self);
        }
        let mut copies: Vec<PeerRecord> = Vec::new();
        let mut i: usize = 0;
        while i < self.records.len()
            invariant
                i <= self.records.len(),
                copies@.len() == i,
                forall|k: int| 0 <= k < i ==> (#[trigger] copies@[k])@ == self.records@[k]@,
            decreases self.records.len() - i,
        {
            copies.push(self.records[i].clone());
            i += 1;
        }
        assert(entries_of(copies@) =~= self@);
        copies
    }

    /// The address of every record, in the registry's order.
    pub fn addresses(&self) -> (listing: Vec<String>)
        ensures
            listing.deep_view() == addresses(self@),
            listing.deep_view().no_duplicates(),
    {
        proof {
            use_type_invariant(self);
            lemma_addresses_are_distinct(self@);
        }
        let mut listing: Vec<String> = Vec::new();
        let mut i: usize = 0;
        while i < self.records.len()
            invariant
                i <= self.records.len(),
                listing@.len() == i,
                forall|k: int|
                    0 <= k < i ==> (#[trigger] listing@[k])@ == address_text(
                        self.records@[k].host@,
                        self.records@[k].port,
                    ),
            decreases self.records.len() - i,
        {
            let record = &self.records[i];
            listing.push(format_address(record.host.as_str(), record.port));
            i += 1;
        }
        assert(listing.deep_view() =~= addresses(self@));
        listing
    }

    /// The position of the record with the given key, if there is one.
    fn position(&self, host: &str, port: u16) -> (found: Option<usize>)
        ensures
            distinct_keys(self@),
            match found {
                Some(i) => i < self@.len() && self@[i as int].key() == (PeerKey { host: host@, port }),
                None => !has_key(self@, PeerKey { host: host@, port }),
            },
    {
        proof {
            use_type_invariant(self);
        }
        let mut i: usize = 0;
        while i < self.records.len()
            invariant
                i <= self.records.len(),
                distinct_keys(self@),
                forall|k: int| 0 <= k < i ==> (#[trigger] self@[k]).key() != (PeerKey { host: host@, port }),
            decreases self.records.len() - i,
        {
            if self.records[i].port == port && same_text(self.records[i].host.as_str(), host) {
                return Some(i);
            }
            i += 1;
        }
        None
    }

    /// Moves the records out, leaving the registry empty until they are put
    /// back.
    fn take_records(&mut self) -> (records: Vec<PeerRecord>)
        ensures
            records == old(self).records,
            final(self).records@.len() == 0,
            final(self).ttl == old(self).ttl,
    {
        let mut records = Vec::new();
        core::mem::swap(&mut self.records, &mut records);
        records
    }

    /// Registers the peer `host:port` as seen at `now`, or refreshes its
    /// record when it is registered already.
    pub fn upsert(&mut self, host: &str, port: u16, now: u64)
        ensures
            final(self)@ == upserted(old(self)@, PeerKey { host: host@, port }, now as nat),
            final(self).ttl() == old(self).ttl(),
            distinct_keys(final(self)@),
    {
        let ghost key = PeerKey { host: host@, port };
        let found = self.position(host, port);
        proof {
            lemma_upserted_distinct(self@, key, now as nat);
        }
        let mut records = self.take_records();
        match found {
            Some(i) => {
                proof {
                    lemma_key_index_unique(old(self)@, i as int);
                }
                records[i].last_seen = now;
                assert(entries_of(records@) =~= old(self)@.update(
                    i as int,
                    entry_of(key, now as nat),
                ));
            },
            None => {
                records.push(PeerRecord { host: host.to_owned(), port, last_seen: now });
                assert(entries_of(records@) =~= old(self)@.push(entry_of(key, now as nat)));
            },
        }
        self.records = records;
    }

    /// Removes every record that is older at `now` than `ttl` allows. The
    /// records that stay keep their order.
    pub fn prune_expired(&mut self, now: u64, ttl: u64)
        ensures
            final(self)@ == pruned(old(self)@, now as nat, ttl as nat),
            final(self).ttl() == old(self).ttl(),
            distinct_keys(final(self)@),
    {
        proof {
            use_type_invariant(&*self);
            lemma_pruned_distinct(self@, now as nat, ttl as nat);
        }
        let records = self.take_records();
        let ghost before = records@;
        let mut kept: Vec<PeerRecord> = Vec::new();
        assert(entries_of(before.take(0)) =~= Seq::<PeerEntry>::empty());
        assert(pruned(Seq::<PeerEntry>::empty(), now as nat, ttl as nat) =~= Seq::<PeerEntry>::empty()) by {
            reveal(Seq::filter);
        }
        for record in it: records
            invariant
                it.seq() == before,
                entries_of(kept@) == pruned(
                    entries_of(before.take(it.index() as int)),
                    now as nat,
                    ttl as nat,
                ),
        {
            proof {
                let k = it.index() as int;
                assert(entries_of(before.take(k + 1)) =~= entries_of(before.take(k)).push(record@));
                lemma_pruned_push(entries_of(before.take(k)), record@, now as nat, ttl as nat);
            }
            if !record.is_expired(now, ttl) {
                let ghost prior = kept@;
                kept.push(record);
                assert(entries_of(kept@) =~= entries_of(prior).push(record@));
            }
        }
        assert(before.take(before.len() as int) =~= before);
        self.records = kept;
    }

    /// Drops the records that are older at `now` than the registry's
    /// time-to-live, and lists the address of each record that is left.
    pub fn snapshot(&mut self, now: u64) -> (listing: Vec<String>)
        ensures
            final(self)@ == pruned(old(self)@, now as nat, old(self).ttl()),
            final(self).ttl() == old(self).ttl(),
            distinct_keys(final(self)@),
            listing.deep_view() == addresses(final(self)@),
            listing.deep_view().no_duplicates(),
    {
        let ttl = self.ttl;
        self.prune_expired(now, ttl);
        self.addresses()
    }

    /// Handles one announcement: judges it, and registers or refreshes the
    /// peer when it is accepted. A rejected announcement leaves the registry
    /// as it was.
    pub fn announce(
        &mut self,
        host: &str,
        port: u16,
        reachable: bool,
        identity: Option<&str>,
        allowed: &Vec<String>,
        now: u64,
    ) -> (outcome: Admission)
        ensures
            outcome == admission_of(reachable, token_text(identity), allowed.deep_view()),
            final(self)@ == announced(old(self)@, PeerKey { host: host@, port }, outcome, now as nat),
            final(self).ttl() == old(self).ttl(),
            distinct_keys(final(self)@),
    {
        proof {
            use_type_invariant(&*self);
        }
        let outcome = validate(reachable, identity, allowed);
        if outcome.is_accepted() {
            self.upsert(host, port, now);
        }
        outcome
    }

    /// Answers a request for the list: drops the records that have expired
    /// at `now`, and wraps the addresses that are left.
    pub fn list(&mut self, now: u64) -> (response: Response)
        ensures
            final(self)@ == pruned(old(self)@, now as nat, old(self).ttl()),
            final(self).ttl() == old(self).ttl(),
            distinct_keys(final(self)@),
            response.result.list_version == LIST_VERSION,
            response.result.code == CODE_OK,
            response.result.servers.deep_view() == addresses(final(self)@),
            response.result.servers.deep_view().no_duplicates(),
            response.result.msg@ == MSG_OK@,
    {
        Response::listing(self.snapshot(now))
    }
}

} // verus!
