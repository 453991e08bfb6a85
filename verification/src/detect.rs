//! Change detection: compare each reference's upstream content
//! fingerprint against the last-observed one in status.
use vstd::prelude::*;

verus! {

/// The state of one upstream zone as fetched this pass: its stable
/// content fingerprint and its composed content.
#[derive(Clone, Debug)]
pub struct UpstreamZone {
    pub fingerprint: String,
    pub content: String,
}

/// The view of an optional upstream snapshot: fingerprint and content.
pub open spec fn up_view(u: Option<UpstreamZone>) -> Option<(Seq<char>, Seq<char>)> {
    match u {
        Some(z) => Some((z.fingerprint@, z.content@)),
        None => None,
    }
}

/// What the detector reports for one reference.
#[derive(Clone, Copy, Debug, PartialEq, Eq, Structural)]
pub enum Change {
    /// The upstream fingerprint equals the last-observed one.
    Unchanged,
    /// The upstream fingerprint differs from the last-observed one.
    Changed,
    /// No fingerprint was ever observed for this reference.
    New,
    /// The referenced zone does not exist or is unready; recoverable.
    MissingUpstream,
}

/// The detector's verdict from the prior fingerprint (absent when the
/// reference was never observed) and the upstream snapshot (absent
/// when the zone is missing or unready).
pub open spec fn spec_detect(prior: Option<Seq<char>>, up: Option<(Seq<char>, Seq<char>)>) -> Change {
    match up {
        None => Change::MissingUpstream,
        Some(u) => match prior {
            None => Change::New,
            Some(p) => if u.0 == p {
                Change::Unchanged
            } else {
                Change::Changed
            },
        },
    }
}

/// A reference is dirty when it must be re-fetched into the artifact
/// with a fresh serial: it is new or its content changed.
pub open spec fn spec_dirty(prior: Option<Seq<char>>, up: Option<(Seq<char>, Seq<char>)>) -> bool {
    spec_detect(prior, up) == Change::New || spec_detect(prior, up) == Change::Changed
}

/// Classify one reference.
pub fn detect(prior: Option<&String>, up: Option<&UpstreamZone>) -> (c: Change)
    ensures
        c == spec_detect(
            match prior {
                Some(p) => Some(p@),
                None => None,
            },
            match up {
                Some(u) => Some((u.fingerprint@, u.content@)),
                None => None,
            },
        ),
{
    match up {
        None => Change::MissingUpstream,
        Some(u) => match prior {
            None => Change::New,
            Some(p) => if u.fingerprint == *p {
                Change::Unchanged
            } else {
                Change::Changed
            },
        },
    }
}

} // verus!
