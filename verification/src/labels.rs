//! Backreference label reconciliation: which zones must gain the
//! label and which must lose it, and the symmetry this restores.
use vstd::prelude::*;
use crate::refs::RefKey;

verus! {

/// The keys among `desired` that are not in `current`, in order: the
/// zones the label must be added to.
pub open spec fn m_adds_upto(
    desired: Seq<(Seq<char>, Seq<char>)>,
    current: Seq<(Seq<char>, Seq<char>)>,
    n: int,
) -> Seq<(Seq<char>, Seq<char>)>
    decreases n,
{
    if n <= 0 {
        Seq::empty()
    } else {
        let s = m_adds_upto(desired, current, n - 1);
        if current.contains(desired[n - 1]) {
            s
        } else {
            s.push(desired[n - 1])
        }
    }
}

/// Membership in the computed additions: a key must be added exactly
/// when it is desired and not yet carried.
pub proof fn lemma_adds_membership(
    desired: Seq<(Seq<char>, Seq<char>)>,
    current: Seq<(Seq<char>, Seq<char>)>,
    n: int,
    k: (Seq<char>, Seq<char>),
)
    requires
        n <= desired.len(),
    ensures
        m_adds_upto(desired, current, n).contains(k) <==> ((exists|j: int|
            0 <= j < n && desired[j] == k) && !current.contains(k)),
    decreases n,
{
    if n > 0 {
        lemma_adds_membership(desired, current, n - 1, k);
        let s = m_adds_upto(desired, current, n - 1);
        if desired[n - 1] == k && !current.contains(k) {
            assert(s.push(k)[s.len() as int] == k);
            assert(s.push(k).contains(k));
        }
        if m_adds_upto(desired, current, n).contains(k) {
            if !current.contains(desired[n - 1]) {
                let sp = s.push(desired[n - 1]);
                let q = choose|q: int| 0 <= q < sp.len() && sp[q] == k;
                if q < s.len() {
                    assert(s[q] == k);
                    assert(s.contains(k));
                }
            }
        } else {
            if (exists|j: int| 0 <= j < n && desired[j] == k) && !current.contains(k) {
                let j = choose|j: int| 0 <= j < n && desired[j] == k;
                if j < n - 1 {
                    assert(s.contains(k));
                    let q = choose|q: int| 0 <= q < s.len() && s[q] == k;
                    if !current.contains(desired[n - 1]) {
                        assert(s.push(desired[n - 1])[q] == k);
                        assert(m_adds_upto(desired, current, n).contains(k));
                    }
                }
            }
        }
    }
}

/// Label symmetry: carrying out exactly the computed additions and
/// removals leaves the label on precisely the desired zones, whatever
/// set carried it before.
pub proof fn lemma_label_symmetry(
    desired: Seq<(Seq<char>, Seq<char>)>,
    current: Seq<(Seq<char>, Seq<char>)>,
    k: (Seq<char>, Seq<char>),
)
    ensures
        ((current.contains(k) || m_adds_upto(desired, current, desired.len() as int).contains(k))
            && !m_adds_upto(current, desired, current.len() as int).contains(k))
            <==> desired.contains(k),
{
    lemma_adds_membership(desired, current, desired.len() as int, k);
    lemma_adds_membership(current, desired, current.len() as int, k);
}

/// Compute the additions and removals that bring the labelled set to
/// the desired one: add where desired and missing, remove where
/// carried and no longer desired. The two patches commute with those
/// of other resources, so concurrent reconciliations never conflict.
pub fn label_ops(desired: &Vec<RefKey>, current: &Vec<RefKey>) -> (r: (Vec<RefKey>, Vec<RefKey>))
    ensures
        r.0@.map(|q: int, k: RefKey| k@) == m_adds_upto(
            desired@.map(|q: int, k: RefKey| k@),
            current@.map(|q: int, k: RefKey| k@),
            desired@.len() as int,
        ),
        r.1@.map(|q: int, k: RefKey| k@) == m_adds_upto(
            current@.map(|q: int, k: RefKey| k@),
            desired@.map(|q: int, k: RefKey| k@),
            current@.len() as int,
        ),
{
    let ghost dv = desired@.map(|q: int, k: RefKey| k@);
    let ghost cv = current@.map(|q: int, k: RefKey| k@);
    let mut adds: Vec<RefKey> = Vec::new();
    let mut i: usize = 0;
    while i < desired.len()
        invariant
            0 <= i <= desired@.len(),
            dv == desired@.map(|q: int, k: RefKey| k@),
            cv == current@.map(|q: int, k: RefKey| k@),
            adds@.map(|q: int, k: RefKey| k@) == m_adds_upto(dv, cv, i as int),
        decreases desired@.len() - i,
    {
        if !crate::refs::key_in_list(current, &desired[i]) {
            adds.push(desired[i].clone());
        }
        proof {
            assert(adds@.map(|q: int, k: RefKey| k@) =~= m_adds_upto(dv, cv, i + 1));
        }
        i += 1;
    }
    let mut removes: Vec<RefKey> = Vec::new();
    let mut j: usize = 0;
    while j < current.len()
        invariant
            0 <= j <= current@.len(),
            dv == desired@.map(|q: int, k: RefKey| k@),
            cv == current@.map(|q: int, k: RefKey| k@),
            removes@.map(|q: int, k: RefKey| k@) == m_adds_upto(cv, dv, j as int),
        decreases current@.len() - j,
    {
        if !crate::refs::key_in_list(desired, &current[j]) {
            removes.push(current[j].clone());
        }
        proof {
            assert(removes@.map(|q: int, k: RefKey| k@) =~= m_adds_upto(cv, dv, j + 1));
        }
        j += 1;
    }
    (adds, removes)
}

} // verus!
