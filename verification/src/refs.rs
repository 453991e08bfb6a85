//! Zone references and their resolution against the owning resource's
//! namespace, producing fully qualified reference keys.
use vstd::prelude::*;

verus! {

/// A reference to an upstream `Zone`, optionally in a different
/// namespace than the resource holding the reference.
#[derive(Clone, Debug)]
pub struct ZoneRef {
    pub name: String,
    pub namespace: Option<String>,
}

/// A fully qualified reference key: the `(namespace, name)` identity
/// of an upstream zone after namespace defaulting.
#[derive(Debug)]
pub struct RefKey {
    pub namespace: String,
    pub name: String,
}

impl Clone for RefKey {
    fn clone(&self) -> (r: Self)
        ensures
            r == *self,
    {
        RefKey { namespace: self.namespace.clone(), name: self.name.clone() }
    }
}

impl View for RefKey {
    type V = (Seq<char>, Seq<char>);

    open spec fn view(&self) -> (Seq<char>, Seq<char>) {
        (self.namespace@, self.name@)
    }
}

/// The view of an optional string.
pub open spec fn opt_view(o: Option<String>) -> Option<Seq<char>> {
    match o {
        Some(s) => Some(s@),
        None => None,
    }
}

/// Namespace defaulting: a reference's own namespace wins; an absent
/// one falls back to the owner's.
pub open spec fn resolved_ns(ref_ns: Option<Seq<char>>, owner_ns: Option<Seq<char>>) -> Option<
    Seq<char>,
> {
    if ref_ns is Some {
        ref_ns
    } else {
        owner_ns
    }
}

/// Whether every reference in the sequence can be given a namespace:
/// either it carries one itself or the owner has one to fall back on.
pub open spec fn all_resolvable(refs: Seq<ZoneRef>, owner_ns: Option<Seq<char>>) -> bool {
    forall|i: int|
        0 <= i < refs.len() ==> (#[trigger] refs[i]).namespace is Some || owner_ns is Some
}

/// The key a reference resolves to, assuming it is resolvable.
pub open spec fn spec_key(r: ZoneRef, owner_ns: Option<Seq<char>>) -> (Seq<char>, Seq<char>) {
    (resolved_ns(opt_view(r.namespace), owner_ns)->0, r.name@)
}

/// The keys a reference sequence resolves to, in declaration order.
pub open spec fn spec_keys(refs: Seq<ZoneRef>, owner_ns: Option<Seq<char>>) -> Seq<
    (Seq<char>, Seq<char>),
> {
    refs.map(|i: int, r: ZoneRef| spec_key(r, owner_ns))
}

/// Pairwise distinctness of a key sequence.
pub open spec fn keys_distinct(keys: Seq<(Seq<char>, Seq<char>)>) -> bool {
    forall|i: int, j: int| 0 <= i < j < keys.len() ==> keys[i] != keys[j]
}

/// Compare two fully qualified keys.
pub fn key_eq(a: &RefKey, b: &RefKey) -> (r: bool)
    ensures
        r == (a@ == b@),
{
    a.namespace == b.namespace && a.name == b.name
}

/// Whether a key occurs in a list of resolved keys.
pub fn key_in_list(keys: &Vec<RefKey>, k: &RefKey) -> (r: bool)
    ensures
        r == keys@.map(|i: int, q: RefKey| q@).contains(k@),
{
    let ghost kseq = keys@.map(|i: int, q: RefKey| q@);
    let mut i: usize = 0;
    while i < keys.len()
        invariant
            0 <= i <= keys@.len(),
            kseq == keys@.map(|i: int, q: RefKey| q@),
            forall|j: int| 0 <= j < i ==> kseq[j] != k@,
        decreases keys@.len() - i,
    {
        if key_eq(&keys[i], k) {
            assert(kseq[i as int] == k@);
            return true;
        }
        i += 1;
    }
    assert(forall|j: int| 0 <= j < kseq.len() ==> kseq[j] != k@);
    false
}

/// A non-retryable configuration error found while resolving the
/// reference list.
#[derive(Clone, Copy, Debug, PartialEq, Eq, Structural)]
pub enum ReconcileError {
    /// The reference at `index` has no namespace and neither has the
    /// owning resource.
    UnresolvableNamespace { index: usize },
    /// The reference at `index` resolves to the same key as an earlier
    /// one.
    DuplicateReference { index: usize },
}

/// Resolve every reference against the owner's namespace, in
/// declaration order, rejecting unresolvable or duplicate references.
/// Errors report the first offense in scan order.
pub fn resolve_refs(refs: &Vec<ZoneRef>, owner_ns: &Option<String>) -> (r: Result<
    Vec<RefKey>,
    ReconcileError,
>)
    ensures
        r is Ok <==> all_resolvable(refs@, opt_view(*owner_ns)) && keys_distinct(
            spec_keys(refs@, opt_view(*owner_ns)),
        ),
        r matches Ok(keys) ==> keys@.len() == refs@.len() && forall|i: int|
            0 <= i < refs@.len() ==> (#[trigger] keys@[i])@ == spec_keys(
                refs@,
                opt_view(*owner_ns),
            )[i],
        r matches Err(ReconcileError::UnresolvableNamespace { index }) ==> index < refs@.len()
            && refs@[index as int].namespace is None && opt_view(*owner_ns) is None,
        r matches Err(ReconcileError::DuplicateReference { index }) ==> index < refs@.len()
            && exists|j: int|
            0 <= j < index && spec_keys(refs@, opt_view(*owner_ns))[j] == spec_keys(
                refs@,
                opt_view(*owner_ns),
            )[index as int],
{
    let ghost owner = opt_view(*owner_ns);
    let ghost skeys = spec_keys(refs@, owner);
    let mut keys: Vec<RefKey> = Vec::new();
    let mut i: usize = 0;
    while i < refs.len()
        invariant
            0 <= i <= refs@.len(),
            owner == opt_view(*owner_ns),
            skeys == spec_keys(refs@, owner),
            keys@.len() == i,
            forall|j: int| 0 <= j < i ==> (#[trigger] refs@[j]).namespace is Some || owner is Some,
            forall|j: int| 0 <= j < i ==> (#[trigger] keys@[j])@ == skeys[j],
            forall|j1: int, j2: int| 0 <= j1 < j2 < i ==> skeys[j1] != skeys[j2],
        decreases refs@.len() - i,
    {
        let ns: String = match &refs[i].namespace {
            Some(n) => n.clone(),
            None => match owner_ns {
                Some(n) => n.clone(),
                None => {
                    return Err(ReconcileError::UnresolvableNamespace { index: i });
                },
            },
        };
        let key = RefKey { namespace: ns, name: refs[i].name.clone() };
        assert(key@ == skeys[i as int]);
        let ghost kviews = keys@.map(|q: int, k: RefKey| k@);
        if key_in_list(&keys, &key) {
            assert(kviews.contains(key@));
            assert(exists|j: int| 0 <= j < i && skeys[j] == skeys[i as int]) by {
                let j = choose|j: int| 0 <= j < kviews.len() && kviews[j] == key@;
                assert(keys@[j]@ == skeys[j]);
            }
            return Err(ReconcileError::DuplicateReference { index: i });
        }
        assert forall|j: int| 0 <= j < i implies skeys[j] != skeys[i as int] by {
            if skeys[j] == skeys[i as int] {
                assert(kviews[j] == key@);
                assert(kviews.contains(key@));
            }
        }
        keys.push(key);
        i += 1;
    }
    Ok(keys)
}

} // verus!
