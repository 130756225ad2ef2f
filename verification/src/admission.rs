//! Admission: whether an announcement is trusted enough to enter the
//! registry.
//!
//! The decision is a function of two observations that the caller makes: the
//! outcome of its probe of the claimed address, and the identity token that
//! the peer presented.

use crate::address::same_text;
use vstd::prelude::*;

verus! {

/// The outcome of judging one announcement.
#[derive(Clone, Copy, Debug, PartialEq, Eq, Structural)]
pub enum Admission {
    /// The peer answered the probe and named an accepted identity.
    Accept,
    /// The probe of the claimed address failed or timed out.
    Unreachable,
    /// The peer presented no identity token that could be read.
    MissingIdentity,
    /// The peer's identity token is not on the allow-list.
    UnknownIdentity,
}

/// The text of an optional token.
pub open spec fn token_text(identity: Option<&str>) -> Option<Seq<char>> {
    match identity {
        Some(token) => Some(token@),
        None => None,
    }
}

/// The decision on an announcement. The probe comes first: an unreachable
/// peer is turned away whatever it calls itself. A reachable peer must
/// present a token, and the token must equal an entry of `allowed`.
pub open spec fn admission_of(
    reachable: bool,
    identity: Option<Seq<char>>,
    allowed: Seq<Seq<char>>,
) -> Admission {
    if !reachable {
        Admission::Unreachable
    } else {
        match identity {
            None => Admission::MissingIdentity,
            Some(token) => if allowed.contains(token) {
                Admission::Accept
            } else {
                Admission::UnknownIdentity
            },
        }
    }
}

/// Whether `token` equals an entry of `allowed`.
pub fn is_allowed(token: &str, allowed: &Vec<String>) -> (found: bool)
    ensures
        found == allowed.deep_view().contains(token@),
{
    let mut i: usize = 0;
    while i < allowed.len()
        invariant
            i <= allowed.len(),
            forall|k: int| 0 <= k < i ==> allowed.deep_view()[k] != token@,
        decreases allowed.len() - i,
    {
        if same_text(allowed[i].as_str(), token) {
            assert(allowed.deep_view()[i as int] == token@);
            return true;
        }
        i += 1;
    }
    false
}

/// Judges an announcement from the outcome of the reachability probe and the
/// identity token that the peer presented.
pub fn validate(reachable: bool, identity: Option<&str>, allowed: &Vec<String>) -> (outcome:
    Admission)
    ensures
        outcome == admission_of(reachable, token_text(identity), allowed.deep_view()),
{
    if !reachable {
        return Admission::Unreachable;
    }
    match identity {
        None => Admission::MissingIdentity,
        Some(token) => {
            if is_allowed(token, allowed) {
                Admission::Accept
            } else {
                Admission::UnknownIdentity
            }
        },
    }
}

impl Admission {
    /// Whether the announcement is admitted to the registry.
    pub fn is_accepted(&self) -> (accepted: bool)
        ensures
            accepted == (*self == Admission::Accept),
    {
        match self {
            Admission::Accept => true,
            _ => false,
        }
    }

    /// The status that the announcing peer is told. A missing and an unknown
    /// identity read the same; an unreachable peer is told apart from both.
    pub open spec fn status_text(self) -> Seq<char> {
        match self {
            Admission::Accept => "success"@,
            Admission::Unreachable => "Bad Server"@,
            Admission::MissingIdentity => "Bad Headers"@,
            Admission::UnknownIdentity => "Bad Headers"@,
        }
    }

    /// The status that the announcing peer is told.
    pub fn status(&self) -> (text: &'static str)
        ensures
            text@ == self.status_text(),
    {
        match self {
            Admission::Accept => "success",
            Admission::Unreachable => "Bad Server",
            Admission::MissingIdentity => "Bad Headers",
            Admission::UnknownIdentity => "Bad Headers",
        }
    }
}

/// The statuses tell the outcomes apart as far as the announcing peer needs
/// them: admitted, unreachable, or turned away for its identity.
pub proof fn lemma_status_tells_apart()
    ensures
        Admission::Accept.status_text() != Admission::Unreachable.status_text(),
        Admission::Accept.status_text() != Admission::MissingIdentity.status_text(),
        Admission::Accept.status_text() != Admission::UnknownIdentity.status_text(),
        Admission::Unreachable.status_text() != Admission::MissingIdentity.status_text(),
        Admission::Unreachable.status_text() != Admission::UnknownIdentity.status_text(),
{
    reveal_strlit("success");
    reveal_strlit("Bad Server");
    reveal_strlit("Bad Headers");
    assert("success"@.len() == 7);
    assert("Bad Server"@.len() == 10);
    assert("Bad Headers"@.len() == 11);
}

} // verus!
