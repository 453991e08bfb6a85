//! The `ZoneFile` resource: its spec, its status, and namespace
//! defaulting of its zone references.
use vstd::prelude::*;
use vstd::string::StringExecFns;
use crate::refs::{ZoneRef, RefKey, opt_view, resolved_ns};
use crate::kvmap::{KvMap, lemma_map_of_contains, lemma_map_of_index};

verus! {

/// Label attached to upstream zones as a backreference to the
/// `ZoneFile` generated from them, so that an event on a zone can be
/// mapped back to the dependent resource without a full-cluster scan.
pub const TARGET_ZONEFILE_LABEL: &'static str = "kubi.zone/zonefile";

/// The declarative spec of a `ZoneFile`: an ordered list of zone
/// references (order determines render order) and an optional override
/// of the output artifact's name.
#[derive(Clone, Debug)]
pub struct ZoneFileSpec {
    pub zone_refs: Vec<ZoneRef>,
    pub config_map_name: Option<String>,
}

/// The controller-owned state: per reference key, the last-observed
/// content fingerprint and the last-assigned serial.
#[derive(Clone, Debug)]
pub struct ZoneFileStatus {
    pub hash: KvMap<String>,
    pub serial: KvMap<u32>,
}

impl ZoneFileStatus {
    /// The status invariant: both maps are well-formed and track the
    /// same key set.
    pub open spec fn wf(&self) -> bool {
        &&& self.hash.wf()
        &&& self.serial.wf()
        &&& self.hash@.dom() == self.serial@.dom()
    }

    /// The empty status, before any reconciliation.
    pub fn new() -> (r: Self)
        ensures
            r.wf(),
            r.hash@ == Map::<(Seq<char>, Seq<char>), Seq<char>>::empty(),
            r.serial@ == Map::<(Seq<char>, Seq<char>), u32>::empty(),
    {
        let r = ZoneFileStatus { hash: KvMap::new(), serial: KvMap::new() };
        proof {
            assert(r.hash@.dom() =~= r.serial@.dom());
        }
        r
    }

    /// Decide the status invariant at run time, for a status that
    /// arrives from outside the library.
    pub fn wf_check(&self) -> (r: bool)
        ensures
            r == self.wf(),
    {
        if !self.hash.wf_check() || !self.serial.wf_check() {
            return false;
        }
        let mut i: usize = 0;
        while i < self.hash.entries.len()
            invariant
                0 <= i <= self.hash.entries@.len(),
                self.hash.wf(),
                self.serial.wf(),
                forall|j: int|
                    0 <= j < i ==> self.serial@.contains_key(
                        (#[trigger] self.hash.entries@[j]).0@,
                    ),
            decreases self.hash.entries@.len() - i,
        {
            if !self.serial.contains_key(&self.hash.entries[i].0) {
                proof {
                    lemma_map_of_index(self.hash.entries@, i as int);
                    assert(self.hash@.dom().contains(self.hash.entries@[i as int].0@));
                }
                return false;
            }
            i += 1;
        }
        let mut j: usize = 0;
        while j < self.serial.entries.len()
            invariant
                0 <= j <= self.serial.entries@.len(),
                self.hash.wf(),
                self.serial.wf(),
                forall|q: int|
                    0 <= q < self.hash.entries@.len() ==> self.serial@.contains_key(
                        (#[trigger] self.hash.entries@[q]).0@,
                    ),
                forall|q: int|
                    0 <= q < j ==> self.hash@.contains_key(
                        (#[trigger] self.serial.entries@[q]).0@,
                    ),
            decreases self.serial.entries@.len() - j,
        {
            if !self.hash.contains_key(&self.serial.entries[j].0) {
                proof {
                    lemma_map_of_index(self.serial.entries@, j as int);
                    assert(self.serial@.dom().contains(self.serial.entries@[j as int].0@));
                }
                return false;
            }
            j += 1;
        }
        proof {
            assert forall|k: (Seq<char>, Seq<char>)| self.hash@.dom().contains(
                k,
            ) implies self.serial@.dom().contains(k) by {
                lemma_map_of_contains(self.hash.entries@, k);
                let q = choose|q: int|
                    0 <= q < self.hash.entries@.len() && (#[trigger] self.hash.entries@[q]).0@
                        == k;
            }
            assert forall|k: (Seq<char>, Seq<char>)| self.serial@.dom().contains(
                k,
            ) implies self.hash@.dom().contains(k) by {
                lemma_map_of_contains(self.serial.entries@, k);
                let q = choose|q: int|
                    0 <= q < self.serial.entries@.len() && (#[trigger] self.serial.entries@[q]).0@
                        == k;
            }
            assert(self.hash@.dom() =~= self.serial@.dom());
        }
        true
    }
}

/// A `ZoneFile` resource: its identity, its declarative spec, and the
/// status the controller has written so far.
#[derive(Clone, Debug)]
pub struct ZoneFile {
    pub name: String,
    pub namespace: Option<String>,
    pub spec: ZoneFileSpec,
    pub status: Option<ZoneFileStatus>,
}

impl ZoneFile {
    /// Retrieve the `ZoneFile`'s zone references, but populate the
    /// `namespace` variable, if not specified by the zoneref itself.
    pub fn zone_ref(&self) -> (r: Vec<ZoneRef>)
        ensures
            r@.len() == self.spec.zone_refs@.len(),
            forall|i: int|
                0 <= i < r@.len() ==> (#[trigger] r@[i]).name@ == self.spec.zone_refs@[i].name@
                    && opt_view(r@[i].namespace) == resolved_ns(
                    opt_view(self.spec.zone_refs@[i].namespace),
                    opt_view(self.namespace),
                ),
    {
        let mut out: Vec<ZoneRef> = Vec::new();
        let mut i: usize = 0;
        while i < self.spec.zone_refs.len()
            invariant
                0 <= i <= self.spec.zone_refs@.len(),
                out@.len() == i,
                forall|j: int|
                    0 <= j < i ==> (#[trigger] out@[j]).name@ == self.spec.zone_refs@[j].name@
                        && opt_view(out@[j].namespace) == resolved_ns(
                        opt_view(self.spec.zone_refs@[j].namespace),
                        opt_view(self.namespace),
                    ),
            decreases self.spec.zone_refs@.len() - i,
        {
            let r = &self.spec.zone_refs[i];
            let ns: Option<String> = match &r.namespace {
                Some(n) => Some(n.clone()),
                None => match &self.namespace {
                    Some(n) => Some(n.clone()),
                    None => None,
                },
            };
            out.push(ZoneRef { name: r.name.clone(), namespace: ns });
            i += 1;
        }
        out
    }
}

/// The canonical string form of a reference key, used only at the
/// persistence boundary: `namespace/name`.
pub fn canonical_key(k: &RefKey) -> (r: String)
    ensures
        r@ == k.namespace@ + "/"@ + k.name@,
{
    let mut s = k.namespace.clone();
    s.append("/");
    s.append(k.name.as_str());
    s
}

} // verus!
