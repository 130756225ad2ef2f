//! One announced server, and the mathematical values that stand for it.

use crate::model::is_expired;
use vstd::prelude::*;

verus! {

/// What identifies a peer: the host it was seen at and the port it claims.
pub struct PeerKey {
    pub host: Seq<char>,
    pub port: u16,
}

/// A record as contracts see it.
pub struct PeerEntry {
    pub host: Seq<char>,
    pub port: u16,
    pub last_seen: nat,
}

impl PeerEntry {
    /// The identity key of this entry.
    pub open spec fn key(self) -> PeerKey {
        PeerKey { host: self.host, port: self.port }
    }
}

/// The entry that `key` has when it was last announced at `now`.
pub open spec fn entry_of(key: PeerKey, now: nat) -> PeerEntry {
    PeerEntry { host: key.host, port: key.port, last_seen: now }
}

/// One announced server: where it can be reached and when it last announced.
#[derive(Debug)]
pub struct PeerRecord {
    /// The address the announcement was seen to come from.
    pub host: String,
    /// The port the peer claims to serve on.
    pub port: u16,
    /// When the peer last announced, on the caller's clock.
    pub last_seen: u64,
}

impl View for PeerRecord {
    type V = PeerEntry;

    open spec fn view(&self) -> PeerEntry {
        PeerEntry { host: self.host@, port: self.port, last_seen: self.last_seen as nat }
    }
}

/// The entries that records stand for, in their order.
pub open spec fn entries_of(records: Seq<PeerRecord>) -> Seq<PeerEntry> {
    records.map_values(|r: PeerRecord| r@)
}

impl PeerRecord {
    /// Whether this record is older at `now` than `ttl` allows. A record
    /// stamped later than `now` has not expired.
    pub fn is_expired(&self, now: u64, ttl: u64) -> (expired: bool)
        ensures
            expired == is_expired(self@.last_seen, now as nat, ttl as nat),
    {
        now > self.last_seen && now - self.last_seen > ttl
    }
}

impl Clone for PeerRecord {
    fn clone(&self) -> (copy: Self)
        ensures
            copy@ == self@,
    {
        PeerRecord { host: self.host.clone(), port: self.port, last_seen: self.last_seen }
    }
}

} // verus!
