//! One reconciliation pass, as a mathematical model and as an
//! executable function: detect changes per reference, keep or advance
//! serials, render the artifact when anything is no longer current,
//! prune stale status entries, and name the zones that should carry
//! the backreference label.
use vstd::prelude::*;
use crate::refs::{RefKey, ReconcileError, opt_view, spec_keys, keys_distinct,
    all_resolvable, resolve_refs, key_in_list};
use crate::detect::{UpstreamZone, Change, up_view, spec_detect, spec_dirty, detect};
use crate::serial::{spec_next_serial, next_serial};
use crate::kvmap::{KvMap, lemma_map_of_contains, lemma_map_of_index};
use crate::zonefile::{ZoneFile, ZoneFileStatus};
use crate::render::{Section, Artifact, spec_artifact_name, artifact_name};

verus! {

/// The fingerprint last observed for a key, if any.
pub open spec fn prior_fp(ph: Map<(Seq<char>, Seq<char>), Seq<char>>, k: (Seq<char>, Seq<char>)) -> Option<
    Seq<char>,
> {
    if ph.contains_key(k) {
        Some(ph[k])
    } else {
        None
    }
}

/// The serial last assigned to a key, with 0 standing for "no prior
/// value".
pub open spec fn prev_serial(ps: Map<(Seq<char>, Seq<char>), u32>, k: (Seq<char>, Seq<char>)) -> u32 {
    if ps.contains_key(k) {
        ps[k]
    } else {
        0
    }
}

/// What the detector reports for the reference at `i`.
pub open spec fn m_detect(
    keys: Seq<(Seq<char>, Seq<char>)>,
    ups: Seq<Option<(Seq<char>, Seq<char>)>>,
    ph: Map<(Seq<char>, Seq<char>), Seq<char>>,
    i: int,
) -> Change {
    spec_detect(prior_fp(ph, keys[i]), ups[i])
}

/// Whether the reference at `i` is dirty: new or changed.
pub open spec fn m_dirty(
    keys: Seq<(Seq<char>, Seq<char>)>,
    ups: Seq<Option<(Seq<char>, Seq<char>)>>,
    ph: Map<(Seq<char>, Seq<char>), Seq<char>>,
    i: int,
) -> bool {
    spec_dirty(prior_fp(ph, keys[i]), ups[i])
}

/// The serial the pass assigns to the (present) reference at `i`:
/// advanced when dirty, kept otherwise.
pub open spec fn m_serial_at(
    keys: Seq<(Seq<char>, Seq<char>)>,
    ups: Seq<Option<(Seq<char>, Seq<char>)>>,
    ph: Map<(Seq<char>, Seq<char>), Seq<char>>,
    ps: Map<(Seq<char>, Seq<char>), u32>,
    today: u32,
    i: int,
) -> u32 {
    if m_dirty(keys, ups, ph, i) {
        spec_next_serial(prev_serial(ps, keys[i]), today)
    } else {
        prev_serial(ps, keys[i])
    }
}

/// The fingerprint map after the pass has handled the first `n`
/// references: fetched fingerprints overwrite, missing upstreams keep
/// their prior entry, and nothing else survives (pruning).
pub open spec fn m_hash_upto(
    keys: Seq<(Seq<char>, Seq<char>)>,
    ups: Seq<Option<(Seq<char>, Seq<char>)>>,
    ph: Map<(Seq<char>, Seq<char>), Seq<char>>,
    n: int,
) -> Map<(Seq<char>, Seq<char>), Seq<char>>
    decreases n,
{
    if n <= 0 {
        Map::empty()
    } else {
        let m = m_hash_upto(keys, ups, ph, n - 1);
        match ups[n - 1] {
            Some(u) => m.insert(keys[n - 1], u.0),
            None => if ph.contains_key(keys[n - 1]) {
                m.insert(keys[n - 1], ph[keys[n - 1]])
            } else {
                m
            },
        }
    }
}

/// The serial map after the pass has handled the first `n` references.
pub open spec fn m_serial_upto(
    keys: Seq<(Seq<char>, Seq<char>)>,
    ups: Seq<Option<(Seq<char>, Seq<char>)>>,
    ph: Map<(Seq<char>, Seq<char>), Seq<char>>,
    ps: Map<(Seq<char>, Seq<char>), u32>,
    today: u32,
    n: int,
) -> Map<(Seq<char>, Seq<char>), u32>
    decreases n,
{
    if n <= 0 {
        Map::empty()
    } else {
        let m = m_serial_upto(keys, ups, ph, ps, today, n - 1);
        match ups[n - 1] {
            Some(u) => m.insert(keys[n - 1], m_serial_at(keys, ups, ph, ps, today, n - 1)),
            None => if ps.contains_key(keys[n - 1]) {
                m.insert(keys[n - 1], ps[keys[n - 1]])
            } else {
                m
            },
        }
    }
}

/// The artifact's sections for the first `n` references: one section
/// per present reference, in declaration order.
pub open spec fn m_sections_upto(
    keys: Seq<(Seq<char>, Seq<char>)>,
    ups: Seq<Option<(Seq<char>, Seq<char>)>>,
    ph: Map<(Seq<char>, Seq<char>), Seq<char>>,
    ps: Map<(Seq<char>, Seq<char>), u32>,
    today: u32,
    n: int,
) -> Seq<((Seq<char>, Seq<char>), u32, Seq<char>)>
    decreases n,
{
    if n <= 0 {
        Seq::empty()
    } else {
        let s = m_sections_upto(keys, ups, ph, ps, today, n - 1);
        match ups[n - 1] {
            Some(u) => s.push((keys[n - 1], m_serial_at(keys, ups, ph, ps, today, n - 1), u.1)),
            None => s,
        }
    }
}

/// The keys of the references that resolved and were found upstream in
/// the first `n`, in declaration order: the zones that should carry
/// the backreference label.
pub open spec fn m_present_upto(
    keys: Seq<(Seq<char>, Seq<char>)>,
    ups: Seq<Option<(Seq<char>, Seq<char>)>>,
    n: int,
) -> Seq<(Seq<char>, Seq<char>)>
    decreases n,
{
    if n <= 0 {
        Seq::empty()
    } else {
        let s = m_present_upto(keys, ups, n - 1);
        match ups[n - 1] {
            Some(u) => s.push(keys[n - 1]),
            None => s,
        }
    }
}

/// Whether any reference reports something other than `Unchanged`.
pub open spec fn m_any_change(
    keys: Seq<(Seq<char>, Seq<char>)>,
    ups: Seq<Option<(Seq<char>, Seq<char>)>>,
    ph: Map<(Seq<char>, Seq<char>), Seq<char>>,
) -> bool {
    exists|i: int| 0 <= i < keys.len() && m_detect(keys, ups, ph, i) != Change::Unchanged
}

/// Whether the prior status tracks a key that the spec no longer
/// references.
pub open spec fn m_prune_needed(
    keys: Seq<(Seq<char>, Seq<char>)>,
    ph: Map<(Seq<char>, Seq<char>), Seq<char>>,
) -> bool {
    exists|k: (Seq<char>, Seq<char>)| #[trigger] ph.contains_key(k) && !keys.contains(k)
}

/// Whether the artifact must be re-rendered: some reference is not
/// current (changed, new, or missing upstream) or a stale status entry
/// must be pruned. Rendering is all-or-nothing for the artifact.
pub open spec fn m_needs_render(
    keys: Seq<(Seq<char>, Seq<char>)>,
    ups: Seq<Option<(Seq<char>, Seq<char>)>>,
    ph: Map<(Seq<char>, Seq<char>), Seq<char>>,
) -> bool {
    m_any_change(keys, ups, ph) || m_prune_needed(keys, ph)
}

/// Whether some dirty reference sat at the top of the serial counter,
/// so its serial wrapped: a warning, never a failure.
pub open spec fn m_serial_wrapped(
    keys: Seq<(Seq<char>, Seq<char>)>,
    ups: Seq<Option<(Seq<char>, Seq<char>)>>,
    ph: Map<(Seq<char>, Seq<char>), Seq<char>>,
    ps: Map<(Seq<char>, Seq<char>), u32>,
) -> bool {
    exists|i: int|
        0 <= i < keys.len() && #[trigger] m_dirty(keys, ups, ph, i) && prev_serial(ps, keys[i])
            == u32::MAX
}

/// Every key the new fingerprint map holds comes from the first `n`
/// references.
pub proof fn lemma_m_hash_dom(
    keys: Seq<(Seq<char>, Seq<char>)>,
    ups: Seq<Option<(Seq<char>, Seq<char>)>>,
    ph: Map<(Seq<char>, Seq<char>), Seq<char>>,
    n: int,
)
    requires
        n <= keys.len(),
        ups.len() == keys.len(),
    ensures
        forall|k: (Seq<char>, Seq<char>)|
            #[trigger] m_hash_upto(keys, ups, ph, n).contains_key(k) ==> exists|j: int|
                0 <= j < n && keys[j] == k,
    decreases n,
{
    if n > 0 {
        lemma_m_hash_dom(keys, ups, ph, n - 1);
        assert forall|k: (Seq<char>, Seq<char>)|
            #[trigger] m_hash_upto(keys, ups, ph, n).contains_key(k) implies exists|j: int|
            0 <= j < n && keys[j] == k by {
            if m_hash_upto(keys, ups, ph, n - 1).contains_key(k) {
                let j = choose|j: int| 0 <= j < n - 1 && keys[j] == k;
                assert(keys[j] == k);
            } else {
                assert(keys[n - 1] == k);
            }
        }
    }
}

/// Every key the new serial map holds comes from the first `n`
/// references.
pub proof fn lemma_m_serial_dom(
    keys: Seq<(Seq<char>, Seq<char>)>,
    ups: Seq<Option<(Seq<char>, Seq<char>)>>,
    ph: Map<(Seq<char>, Seq<char>), Seq<char>>,
    ps: Map<(Seq<char>, Seq<char>), u32>,
    today: u32,
    n: int,
)
    requires
        n <= keys.len(),
        ups.len() == keys.len(),
    ensures
        forall|k: (Seq<char>, Seq<char>)|
            #[trigger] m_serial_upto(keys, ups, ph, ps, today, n).contains_key(k) ==> exists|j: int|
                0 <= j < n && keys[j] == k,
    decreases n,
{
    if n > 0 {
        lemma_m_serial_dom(keys, ups, ph, ps, today, n - 1);
        assert forall|k: (Seq<char>, Seq<char>)|
            #[trigger] m_serial_upto(keys, ups, ph, ps, today, n).contains_key(k) implies exists|
            j: int,
        | 0 <= j < n && keys[j] == k by {
            if m_serial_upto(keys, ups, ph, ps, today, n - 1).contains_key(k) {
                let j = choose|j: int| 0 <= j < n - 1 && keys[j] == k;
                assert(keys[j] == k);
            } else {
                assert(keys[n - 1] == k);
            }
        }
    }
}

/// What the new fingerprint map says at the `i`th reference's key:
/// the fetched fingerprint when the zone was present, the preserved
/// prior entry (or none) when it was missing.
pub proof fn lemma_m_hash_at(
    keys: Seq<(Seq<char>, Seq<char>)>,
    ups: Seq<Option<(Seq<char>, Seq<char>)>>,
    ph: Map<(Seq<char>, Seq<char>), Seq<char>>,
    n: int,
    i: int,
)
    requires
        0 <= i < n <= keys.len(),
        ups.len() == keys.len(),
        keys_distinct(keys),
    ensures
        match ups[i] {
            Some(u) => m_hash_upto(keys, ups, ph, n).contains_key(keys[i]) && m_hash_upto(
                keys,
                ups,
                ph,
                n,
            )[keys[i]] == u.0,
            None => (m_hash_upto(keys, ups, ph, n).contains_key(keys[i]) <==> ph.contains_key(
                keys[i],
            )) && (ph.contains_key(keys[i]) ==> m_hash_upto(keys, ups, ph, n)[keys[i]]
                == ph[keys[i]]),
        },
    decreases n,
{
    if i == n - 1 {
        if ups[i] is None && !ph.contains_key(keys[i]) {
            lemma_m_hash_dom(keys, ups, ph, n - 1);
            if m_hash_upto(keys, ups, ph, n - 1).contains_key(keys[i]) {
                let j = choose|j: int| 0 <= j < n - 1 && keys[j] == keys[i];
                assert(false);
            }
        }
    } else {
        lemma_m_hash_at(keys, ups, ph, n - 1, i);
        assert(keys[n - 1] != keys[i]);
    }
}

/// What the new serial map says at the `i`th reference's key.
pub proof fn lemma_m_serial_at(
    keys: Seq<(Seq<char>, Seq<char>)>,
    ups: Seq<Option<(Seq<char>, Seq<char>)>>,
    ph: Map<(Seq<char>, Seq<char>), Seq<char>>,
    ps: Map<(Seq<char>, Seq<char>), u32>,
    today: u32,
    n: int,
    i: int,
)
    requires
        0 <= i < n <= keys.len(),
        ups.len() == keys.len(),
        keys_distinct(keys),
    ensures
        match ups[i] {
            Some(u) => m_serial_upto(keys, ups, ph, ps, today, n).contains_key(keys[i])
                && m_serial_upto(keys, ups, ph, ps, today, n)[keys[i]] == m_serial_at(
                keys,
                ups,
                ph,
                ps,
                today,
                i,
            ),
            None => (m_serial_upto(keys, ups, ph, ps, today, n).contains_key(keys[i])
                <==> ps.contains_key(keys[i])) && (ps.contains_key(keys[i]) ==> m_serial_upto(
                keys,
                ups,
                ph,
                ps,
                today,
                n,
            )[keys[i]] == ps[keys[i]]),
        },
    decreases n,
{
    if i == n - 1 {
        if ups[i] is None && !ps.contains_key(keys[i]) {
            lemma_m_serial_dom(keys, ups, ph, ps, today, n - 1);
            if m_serial_upto(keys, ups, ph, ps, today, n - 1).contains_key(keys[i]) {
                let j = choose|j: int| 0 <= j < n - 1 && keys[j] == keys[i];
                assert(false);
            }
        }
    } else {
        lemma_m_serial_at(keys, ups, ph, ps, today, n - 1, i);
        assert(keys[n - 1] != keys[i]);
    }
}

/// When the prior maps track the same keys, so do the new ones: each
/// reference either enters both maps or neither.
pub proof fn lemma_m_doms_equal(
    keys: Seq<(Seq<char>, Seq<char>)>,
    ups: Seq<Option<(Seq<char>, Seq<char>)>>,
    ph: Map<(Seq<char>, Seq<char>), Seq<char>>,
    ps: Map<(Seq<char>, Seq<char>), u32>,
    today: u32,
    n: int,
)
    requires
        n <= keys.len(),
        ups.len() == keys.len(),
        ph.dom() == ps.dom(),
    ensures
        m_hash_upto(keys, ups, ph, n).dom() == m_serial_upto(keys, ups, ph, ps, today, n).dom(),
    decreases n,
{
    if n <= 0 {
        assert(m_hash_upto(keys, ups, ph, n).dom() =~= m_serial_upto(
            keys,
            ups,
            ph,
            ps,
            today,
            n,
        ).dom());
    } else {
        lemma_m_doms_equal(keys, ups, ph, ps, today, n - 1);
        assert(ph.contains_key(keys[n - 1]) <==> ps.contains_key(keys[n - 1]));
        assert(m_hash_upto(keys, ups, ph, n).dom() =~= m_serial_upto(
            keys,
            ups,
            ph,
            ps,
            today,
            n,
        ).dom());
    }
}

/// The fingerprint map the controller wrote so far: empty before any
/// successful reconciliation.
pub open spec fn prior_hash_view(file: ZoneFile) -> Map<(Seq<char>, Seq<char>), Seq<char>> {
    match file.status {
        Some(st) => st.hash@,
        None => Map::empty(),
    }
}

/// The serial map the controller wrote so far: empty before any
/// successful reconciliation.
pub open spec fn prior_serial_view(file: ZoneFile) -> Map<(Seq<char>, Seq<char>), u32> {
    match file.status {
        Some(st) => st.serial@,
        None => Map::empty(),
    }
}

/// Everything one pass decides: the status to write back, the artifact
/// to store (absent when nothing is stale), the zones that should
/// carry the backreference label, and the conditions to surface.
#[derive(Clone, Debug)]
pub struct ReconcileOutcome {
    pub status: ZoneFileStatus,
    pub artifact: Option<Artifact>,
    pub desired_labels: Vec<RefKey>,
    pub degraded: bool,
    pub serial_warning: bool,
}

/// One reconciliation pass over a `ZoneFile`, given the upstream
/// snapshot fetched for each declared reference (`None` for a zone
/// that is missing or unready) and the date-based serial candidate for
/// the current day.
pub fn reconcile(file: &ZoneFile, upstream: &Vec<Option<UpstreamZone>>, today: u32) -> (r: Result<
    ReconcileOutcome,
    ReconcileError,
>)
    requires
        upstream@.len() == file.spec.zone_refs@.len(),
        file.status matches Some(st) ==> st.wf(),
    ensures
        ({
            let owner = opt_view(file.namespace);
            let skeys = spec_keys(file.spec.zone_refs@, owner);
            let sups = upstream@.map(|q: int, u: Option<UpstreamZone>| up_view(u));
            let ph = prior_hash_view(*file);
            let ps = prior_serial_view(*file);
            let n = skeys.len() as int;
            &&& (r is Ok <==> all_resolvable(file.spec.zone_refs@, owner) && keys_distinct(skeys))
            &&& (r matches Ok(out) ==> {
                &&& out.status.wf()
                &&& out.status.hash@ == m_hash_upto(skeys, sups, ph, n)
                &&& out.status.serial@ == m_serial_upto(skeys, sups, ph, ps, today, n)
                &&& (out.artifact is Some <==> m_needs_render(skeys, sups, ph))
                &&& (out.artifact matches Some(a) ==> a.name@ == spec_artifact_name(
                    opt_view(file.spec.config_map_name),
                    file.name@,
                ) && a.sections@.map(|q: int, s: Section| s@) == m_sections_upto(
                    skeys,
                    sups,
                    ph,
                    ps,
                    today,
                    n,
                ))
                &&& out.desired_labels@.map(|q: int, k: RefKey| k@) == m_present_upto(
                    skeys,
                    sups,
                    n,
                )
                &&& out.degraded == (exists|q: int| 0 <= q < n && sups[q] is None)
                &&& out.serial_warning == m_serial_wrapped(skeys, sups, ph, ps)
            })
            &&& (r matches Err(ReconcileError::UnresolvableNamespace { index }) ==> index
                < file.spec.zone_refs@.len() && file.spec.zone_refs@[index as int].namespace is None
                && owner is None)
            &&& (r matches Err(ReconcileError::DuplicateReference { index }) ==> index
                < file.spec.zone_refs@.len() && exists|j: int|
                0 <= j < index && skeys[j] == skeys[index as int])
        }),
{
    let ghost owner = opt_view(file.namespace);
    let ghost skeys = spec_keys(file.spec.zone_refs@, owner);
    let ghost sups = upstream@.map(|q: int, u: Option<UpstreamZone>| up_view(u));
    let keys: Vec<RefKey> = match resolve_refs(&file.spec.zone_refs, &file.namespace) {
        Ok(k) => k,
        Err(e) => {
            return Err(e);
        },
    };
    let ghost kviews = keys@.map(|q: int, k: RefKey| k@);
    proof {
        assert(kviews =~= skeys);
    }
    let empty_status = ZoneFileStatus::new();
    let prior: &ZoneFileStatus = match &file.status {
        Some(st) => st,
        None => &empty_status,
    };
    let ghost ph = prior_hash_view(*file);
    let ghost ps = prior_serial_view(*file);
    proof {
        assert(prior.hash@ == ph);
        assert(prior.serial@ == ps);
        assert(ph.dom() == ps.dom());
    }
    let mut new_hash: KvMap<String> = KvMap::new();
    let mut new_serial: KvMap<u32> = KvMap::new();
    let mut sections: Vec<Section> = Vec::new();
    let mut labels: Vec<RefKey> = Vec::new();
    let mut any_change = false;
    let mut degraded = false;
    let mut warning = false;
    let mut i: usize = 0;
    while i < keys.len()
        invariant
            0 <= i <= keys@.len(),
            keys@.len() == skeys.len(),
            upstream@.len() == skeys.len(),
            sups == upstream@.map(|q: int, u: Option<UpstreamZone>| up_view(u)),
            kviews == keys@.map(|q: int, k: RefKey| k@),
            kviews == skeys,
            keys_distinct(skeys),
            prior.hash.wf(),
            prior.serial.wf(),
            prior.hash@ == ph,
            prior.serial@ == ps,
            new_hash.wf(),
            new_serial.wf(),
            new_hash@ == m_hash_upto(skeys, sups, ph, i as int),
            new_serial@ == m_serial_upto(skeys, sups, ph, ps, today, i as int),
            sections@.map(|q: int, s: Section| s@) == m_sections_upto(
                skeys,
                sups,
                ph,
                ps,
                today,
                i as int,
            ),
            labels@.map(|q: int, k: RefKey| k@) == m_present_upto(skeys, sups, i as int),
            any_change == (exists|j: int|
                0 <= j < i && m_detect(skeys, sups, ph, j) != Change::Unchanged),
            degraded == (exists|j: int| 0 <= j < i && sups[j] is None),
            warning == (exists|j: int|
                0 <= j < i && #[trigger] m_dirty(skeys, sups, ph, j) && prev_serial(ps, skeys[j])
                    == u32::MAX),
        decreases keys@.len() - i,
    {
        let key = &keys[i];
        assert(key@ == skeys[i as int]);
        let prior_hash_entry: Option<&String> = prior.hash.get(key);
        let up: Option<&UpstreamZone> = upstream[i].as_ref();
        let c = detect(prior_hash_entry, up);
        assert(c == m_detect(skeys, sups, ph, i as int));
        proof {
            lemma_m_hash_dom(skeys, sups, ph, i as int);
            if m_hash_upto(skeys, sups, ph, i as int).contains_key(skeys[i as int]) {
                let j = choose|j: int| 0 <= j < i && skeys[j] == skeys[i as int];
                assert(false);
            }
            lemma_m_serial_dom(skeys, sups, ph, ps, today, i as int);
            if m_serial_upto(skeys, sups, ph, ps, today, i as int).contains_key(skeys[i as int]) {
                let j = choose|j: int| 0 <= j < i && skeys[j] == skeys[i as int];
                assert(false);
            }
        }
        match up {
            Some(u) => {
                new_hash.insert_new(key.clone(), u.fingerprint.clone());
                let prev: u32 = match prior.serial.get(key) {
                    Some(sv) => *sv,
                    None => 0,
                };
                assert(prev == prev_serial(ps, skeys[i as int]));
                let dirty = match c {
                    Change::New | Change::Changed => true,
                    _ => false,
                };
                assert(dirty == m_dirty(skeys, sups, ph, i as int));
                let s: u32 = if dirty {
                    if prev == u32::MAX {
                        warning = true;
                    }
                    next_serial(prev, today)
                } else {
                    prev
                };
                assert(s == m_serial_at(skeys, sups, ph, ps, today, i as int));
                new_serial.insert_new(key.clone(), s);
                sections.push(Section { key: key.clone(), serial: s, content: u.content.clone() });
                labels.push(key.clone());
                if dirty {
                    any_change = true;
                }
                proof {
                    assert(sections@.map(|q: int, s2: Section| s2@) =~= m_sections_upto(
                        skeys,
                        sups,
                        ph,
                        ps,
                        today,
                        i + 1,
                    ));
                    assert(labels@.map(|q: int, k: RefKey| k@) =~= m_present_upto(
                        skeys,
                        sups,
                        i + 1,
                    ));
                }
            },
            None => {
                degraded = true;
                any_change = true;
                match prior_hash_entry {
                    Some(h) => {
                        new_hash.insert_new(key.clone(), h.clone());
                    },
                    None => {},
                }
                match prior.serial.get(key) {
                    Some(sv) => {
                        let sv2: u32 = *sv;
                        new_serial.insert_new(key.clone(), sv2);
                    },
                    None => {},
                }
                proof {
                    assert(sections@.map(|q: int, s2: Section| s2@) =~= m_sections_upto(
                        skeys,
                        sups,
                        ph,
                        ps,
                        today,
                        i + 1,
                    ));
                    assert(labels@.map(|q: int, k: RefKey| k@) =~= m_present_upto(
                        skeys,
                        sups,
                        i + 1,
                    ));
                }
            },
        }
        i += 1;
    }
    let mut prune = false;
    let mut p: usize = 0;
    while p < prior.hash.entries.len()
        invariant
            0 <= p <= prior.hash.entries@.len(),
            kviews == keys@.map(|q: int, k: RefKey| k@),
            kviews == skeys,
            prior.hash.wf(),
            prior.hash@ == ph,
            prune == (exists|q: int|
                0 <= q < p && !skeys.contains((#[trigger] prior.hash.entries@[q]).0@)),
        decreases prior.hash.entries@.len() - p,
    {
        if !key_in_list(&keys, &prior.hash.entries[p].0) {
            prune = true;
        }
        p += 1;
    }
    proof {
        if prune {
            let q = choose|q: int|
                0 <= q < prior.hash.entries@.len() && !skeys.contains(
                    (#[trigger] prior.hash.entries@[q]).0@,
                );
            lemma_map_of_index(prior.hash.entries@, q);
            assert(m_prune_needed(skeys, ph));
        } else {
            assert forall|k: (Seq<char>, Seq<char>)| #[trigger] ph.contains_key(
                k,
            ) implies skeys.contains(k) by {
                lemma_map_of_contains(prior.hash.entries@, k);
                let q = choose|q: int|
                    0 <= q < prior.hash.entries@.len() && (#[trigger] prior.hash.entries@[q]).0@
                        == k;
            }
            assert(!m_prune_needed(skeys, ph));
        }
    }
    let status = ZoneFileStatus { hash: new_hash, serial: new_serial };
    proof {
        lemma_m_doms_equal(skeys, sups, ph, ps, today, skeys.len() as int);
    }
    let artifact: Option<Artifact> = if any_change || prune {
        let name = artifact_name(&file.spec.config_map_name, &file.name);
        Some(Artifact { name, sections })
    } else {
        None
    };
    Ok(
        ReconcileOutcome {
            status,
            artifact,
            desired_labels: labels,
            degraded,
            serial_warning: warning,
        },
    )
}

/// Pruning: a key that the spec no longer references is absent from
/// both status maps after one pass, whatever the upstream state.
pub proof fn lemma_pruning(
    keys: Seq<(Seq<char>, Seq<char>)>,
    ups: Seq<Option<(Seq<char>, Seq<char>)>>,
    ph: Map<(Seq<char>, Seq<char>), Seq<char>>,
    ps: Map<(Seq<char>, Seq<char>), u32>,
    today: u32,
    k: (Seq<char>, Seq<char>),
)
    requires
        ups.len() == keys.len(),
        !keys.contains(k),
    ensures
        !m_hash_upto(keys, ups, ph, keys.len() as int).contains_key(k),
        !m_serial_upto(keys, ups, ph, ps, today, keys.len() as int).contains_key(k),
{
    let n = keys.len() as int;
    lemma_m_hash_dom(keys, ups, ph, n);
    if m_hash_upto(keys, ups, ph, n).contains_key(k) {
        let j = choose|j: int| 0 <= j < n && keys[j] == k;
        assert(keys.contains(k));
    }
    lemma_m_serial_dom(keys, ups, ph, ps, today, n);
    if m_serial_upto(keys, ups, ph, ps, today, n).contains_key(k) {
        let j = choose|j: int| 0 <= j < n && keys[j] == k;
        assert(keys.contains(k));
    }
}

/// Merge order: the rendered sections carry exactly the present
/// references' keys, in declaration order, whatever subset of them is
/// dirty.
pub proof fn lemma_merge_order(
    keys: Seq<(Seq<char>, Seq<char>)>,
    ups: Seq<Option<(Seq<char>, Seq<char>)>>,
    ph: Map<(Seq<char>, Seq<char>), Seq<char>>,
    ps: Map<(Seq<char>, Seq<char>), u32>,
    today: u32,
    n: int,
)
    ensures
        m_sections_upto(keys, ups, ph, ps, today, n).map(
            |q: int, s: ((Seq<char>, Seq<char>), u32, Seq<char>)| s.0,
        ) == m_present_upto(keys, ups, n),
    decreases n,
{
    if n <= 0 {
        assert(m_sections_upto(keys, ups, ph, ps, today, n).map(
            |q: int, s: ((Seq<char>, Seq<char>), u32, Seq<char>)| s.0,
        ) =~= m_present_upto(keys, ups, n));
    } else {
        lemma_merge_order(keys, ups, ph, ps, today, n - 1);
        assert(m_sections_upto(keys, ups, ph, ps, today, n).map(
            |q: int, s: ((Seq<char>, Seq<char>), u32, Seq<char>)| s.0,
        ) =~= m_present_upto(keys, ups, n));
    }
}

/// Monotonicity across a pass: a dirty reference leaves the pass with
/// a serial strictly above its previous one, short of the defined wrap
/// point of the counter.
pub proof fn lemma_serial_increases(
    keys: Seq<(Seq<char>, Seq<char>)>,
    ups: Seq<Option<(Seq<char>, Seq<char>)>>,
    ph: Map<(Seq<char>, Seq<char>), Seq<char>>,
    ps: Map<(Seq<char>, Seq<char>), u32>,
    today: u32,
    i: int,
)
    requires
        0 <= i < keys.len(),
        ups.len() == keys.len(),
        keys_distinct(keys),
        m_dirty(keys, ups, ph, i),
        prev_serial(ps, keys[i]) < u32::MAX,
    ensures
        m_serial_upto(keys, ups, ph, ps, today, keys.len() as int).contains_key(keys[i]),
        m_serial_upto(keys, ups, ph, ps, today, keys.len() as int)[keys[i]] > prev_serial(
            ps,
            keys[i],
        ),
{
    assert(ups[i] is Some);
    lemma_m_serial_at(keys, ups, ph, ps, today, keys.len() as int, i);
    crate::serial::lemma_serial_monotonic(prev_serial(ps, keys[i]), today);
}

/// An unchanged reference keeps its serial: the pass never lowers or
/// needlessly advances a serial.
pub proof fn lemma_serial_kept_when_clean(
    keys: Seq<(Seq<char>, Seq<char>)>,
    ups: Seq<Option<(Seq<char>, Seq<char>)>>,
    ph: Map<(Seq<char>, Seq<char>), Seq<char>>,
    ps: Map<(Seq<char>, Seq<char>), u32>,
    today: u32,
    i: int,
)
    requires
        0 <= i < keys.len(),
        ups.len() == keys.len(),
        keys_distinct(keys),
        ups[i] is Some,
        !m_dirty(keys, ups, ph, i),
    ensures
        m_serial_upto(keys, ups, ph, ps, today, keys.len() as int)[keys[i]] == prev_serial(
            ps,
            keys[i],
        ),
{
    lemma_m_serial_at(keys, ups, ph, ps, today, keys.len() as int, i);
}

/// Idempotence: after a successful pass whose upstream zones were all
/// present, a second pass over the written status with an unchanged
/// upstream snapshot reports nothing to render and recomputes the very
/// same status maps, whatever day it runs on.
pub proof fn lemma_idempotent(
    keys: Seq<(Seq<char>, Seq<char>)>,
    ups: Seq<Option<(Seq<char>, Seq<char>)>>,
    ph: Map<(Seq<char>, Seq<char>), Seq<char>>,
    ps: Map<(Seq<char>, Seq<char>), u32>,
    today: u32,
    today2: u32,
)
    requires
        ups.len() == keys.len(),
        keys_distinct(keys),
        forall|i: int| 0 <= i < ups.len() ==> (#[trigger] ups[i]) is Some,
    ensures
        ({
            let n = keys.len() as int;
            let h1 = m_hash_upto(keys, ups, ph, n);
            let s1 = m_serial_upto(keys, ups, ph, ps, today, n);
            &&& !m_needs_render(keys, ups, h1)
            &&& m_hash_upto(keys, ups, h1, n) == h1
            &&& m_serial_upto(keys, ups, h1, s1, today2, n) == s1
        }),
{
    let n = keys.len() as int;
    let h1 = m_hash_upto(keys, ups, ph, n);
    let s1 = m_serial_upto(keys, ups, ph, ps, today, n);
    assert forall|i: int| 0 <= i < n implies m_detect(keys, ups, h1, i)
        == Change::Unchanged && !m_dirty(keys, ups, h1, i) by {
        lemma_m_hash_at(keys, ups, ph, n, i);
    }
    assert(!m_any_change(keys, ups, h1));
    lemma_m_hash_dom(keys, ups, ph, n);
    assert(!m_prune_needed(keys, h1)) by {
        if m_prune_needed(keys, h1) {
            let k = choose|k: (Seq<char>, Seq<char>)|
                #[trigger] h1.contains_key(k) && !keys.contains(k);
            let j = choose|j: int| 0 <= j < n && keys[j] == k;
            assert(keys.contains(k));
        }
    }
    let h2 = m_hash_upto(keys, ups, h1, n);
    lemma_m_hash_dom(keys, ups, h1, n);
    assert forall|k: (Seq<char>, Seq<char>)| #[trigger] h2.contains_key(k) implies h1.contains_key(
        k,
    ) && h2[k] == h1[k] by {
        let j = choose|j: int| 0 <= j < n && keys[j] == k;
        lemma_m_hash_at(keys, ups, h1, n, j);
        lemma_m_hash_at(keys, ups, ph, n, j);
    }
    assert forall|k: (Seq<char>, Seq<char>)| #[trigger] h1.contains_key(k) implies h2.contains_key(
        k,
    ) by {
        let j = choose|j: int| 0 <= j < n && keys[j] == k;
        lemma_m_hash_at(keys, ups, h1, n, j);
    }
    assert(h2 =~= h1);
    let s2 = m_serial_upto(keys, ups, h1, s1, today2, n);
    lemma_m_serial_dom(keys, ups, h1, s1, today2, n);
    lemma_m_serial_dom(keys, ups, ph, ps, today, n);
    assert forall|k: (Seq<char>, Seq<char>)| #[trigger] s2.contains_key(k) implies s1.contains_key(
        k,
    ) && s2[k] == s1[k] by {
        let j = choose|j: int| 0 <= j < n && keys[j] == k;
        lemma_m_serial_at(keys, ups, h1, s1, today2, n, j);
        assert(!m_dirty(keys, ups, h1, j));
        lemma_m_serial_at(keys, ups, ph, ps, today, n, j);
    }
    assert forall|k: (Seq<char>, Seq<char>)| #[trigger] s1.contains_key(k) implies s2.contains_key(
        k,
    ) by {
        let j = choose|j: int| 0 <= j < n && keys[j] == k;
        lemma_m_serial_at(keys, ups, h1, s1, today2, n, j);
    }
    assert(s2 =~= s1);
}

} // verus!
