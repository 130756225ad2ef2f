//! The options that an operator of the registry can set, and their defaults.

use vstd::prelude::*;

verus! {

/// The address on which the listener binds by default: every interface.
pub const DEFAULT_BIND_HOST: &'static str = "0.0.0.0";

/// The port on which the listener binds by default.
pub const DEFAULT_BIND_PORT: u16 = 8080;

/// The age in seconds beyond which a record is dropped by default: five
/// minutes, so that a peer may miss several announcements before it
/// disappears from the list.
pub const DEFAULT_TTL_SECS: u64 = 300;

/// The seconds that the probe of an announcing peer may take by default.
pub const DEFAULT_PROBE_TIMEOUT_SECS: u64 = 3;

/// The identity of the current release of the game server.
pub const IDENTITY_CURRENT: &'static str = "ElDewrito/0.6.1.0";

/// The identity of the previous release of the game server, still accepted.
pub const IDENTITY_PREVIOUS: &'static str = "ElDewrito/0.5.1.1";

/// The identities that are accepted by default.
pub open spec fn default_identities() -> Seq<Seq<char>> {
    seq![IDENTITY_CURRENT@, IDENTITY_PREVIOUS@]
}

/// The options of one running registry.
#[derive(Debug)]
pub struct Config {
    /// The address on which the listener binds.
    pub bind_host: String,
    /// The port on which the listener binds.
    pub bind_port: u16,
    /// The age in seconds beyond which a listing drops a record.
    pub ttl_secs: u64,
    /// The seconds after which a probe that has not answered counts as
    /// failed.
    pub probe_timeout_secs: u64,
    /// The identity tokens that are accepted, each matched exactly.
    pub allowed_identities: Vec<String>,
}

impl Default for Config {
    fn default() -> (config: Config)
        ensures
            config.bind_host@ == DEFAULT_BIND_HOST@,
            config.bind_port == DEFAULT_BIND_PORT,
            config.ttl_secs == DEFAULT_TTL_SECS,
            config.probe_timeout_secs == DEFAULT_PROBE_TIMEOUT_SECS,
            config.allowed_identities.deep_view() == default_identities(),
    {
        let mut allowed_identities: Vec<String> = Vec::new();
        allowed_identities.push(IDENTITY_CURRENT.to_owned());
        allowed_identities.push(IDENTITY_PREVIOUS.to_owned());
        assert(allowed_identities.deep_view() =~= default_identities());
        Config {
            bind_host: DEFAULT_BIND_HOST.to_owned(),
            bind_port: DEFAULT_BIND_PORT,
            ttl_secs: DEFAULT_TTL_SECS,
            probe_timeout_secs: DEFAULT_PROBE_TIMEOUT_SECS,
            allowed_identities,
        }
    }
}

} // verus!
