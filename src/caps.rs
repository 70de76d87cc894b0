//! Per-thread capability lists. A cap-ref is issued once from a per-list
//! counter and never reused, so a removed capability's ref stays invalid.
use vstd::prelude::*;
use crate::abi::{self, Cap, CapListEntry, CapRef, Endpoint};
use crate::KernelError;

verus! {

/// Bound on cap-refs: every ref issued is below it, so it fits the pointer
/// field of a return word.
pub const CAP_REF_MAX: usize = 0xffff_ffff;

/// A list of capabilities in the order they were added.
#[derive(Debug)]
pub struct CapList {
    entries: Vec<CapListEntry>,
    next_ref: usize,
}

/// The capability that `r` names in `s`, if any.
pub open spec fn lookup(s: Seq<CapListEntry>, r: CapRef) -> Option<Cap> {
    if exists|k: int| 0 <= k < s.len() && (#[trigger] s[k]).cap_ref == r {
        let k = choose|k: int| 0 <= k < s.len() && (#[trigger] s[k]).cap_ref == r;
        Some(s[k].desc)
    } else {
        None
    }
}

pub open spec fn holds(s: Seq<CapListEntry>, r: CapRef) -> bool {
    exists|k: int| 0 <= k < s.len() && (#[trigger] s[k]).cap_ref == r
}

/// What using `r` as an endpoint does to a list: the endpoint it names, and
/// the list afterwards (a disposable endpoint is removed).
pub open spec fn use_endpoint(s: Seq<CapListEntry>, r: CapRef) -> Result<(Endpoint, Seq<CapListEntry>), abi::Error> {
    match lookup(s, r) {
        Some(Cap::Endpoint(e)) => {
            if e.disposable {
                Ok((e, s.filter(|c: CapListEntry| c.cap_ref != r)))
            } else {
                Ok((e, s))
            }
        },
        _ => Err(abi::Error::InvalidCap),
    }
}

impl CapList {
    pub closed spec fn view(&self) -> Seq<CapListEntry> {
        self.entries@
    }

    /// The ref the next added capability receives.
    pub closed spec fn next_ref_spec(&self) -> usize {
        self.next_ref
    }

    pub closed spec fn wf(&self) -> bool {
        &&& 1 <= self.next_ref <= CAP_REF_MAX
        &&& forall|k: int| 0 <= k < self.entries@.len() ==> 1 <= (#[trigger] self.entries@[k]).cap_ref.0 < self.next_ref
        &&& forall|k: int, l: int|
            0 <= k < l < self.entries@.len() ==> (#[trigger] self.entries@[k]).cap_ref.0 < (#[trigger] self.entries@[l]).cap_ref.0
    }

    /// Refs of a well-formed list are below the counter and appear once.
    pub proof fn lemma_wf(&self)
        requires
            self.wf(),
        ensures
            forall|k: int| 0 <= k < self@.len() ==> (#[trigger] self@[k]).cap_ref.0 < self.next_ref_spec(),
            forall|k: int, l: int| 0 <= k < self@.len() && 0 <= l < self@.len() && self@[k].cap_ref == self@[l].cap_ref ==> k == l,
            1 <= self.next_ref_spec(),
    {
        assert forall|k: int, l: int| 0 <= k < self@.len() && 0 <= l < self@.len() && self@[k].cap_ref == self@[l].cap_ref implies k == l by {
            if k < l {
                assert(self.entries@[k].cap_ref.0 < self.entries@[l].cap_ref.0);
            } else if l < k {
                assert(self.entries@[l].cap_ref.0 < self.entries@[k].cap_ref.0);
            }
        }
    }

    pub fn new() -> (r: CapList)
        ensures
            r.wf(),
            r@ == Seq::<CapListEntry>::empty(),
            r.next_ref_spec() == 1,
    {
        CapList { entries: Vec::new(), next_ref: 1 }
    }

    pub fn len(&self) -> (r: usize)
        ensures
            r == self@.len(),
    {
        self.entries.len()
    }

    /// Whether every ref has been issued.
    pub fn is_full(&self) -> (r: bool)
        ensures
            r == (self.next_ref_spec() >= CAP_REF_MAX),
    {
        self.next_ref >= CAP_REF_MAX
    }

    /// Appends `cap` under a fresh ref; `None`, with the list unchanged, once
    /// every ref that fits a return word has been issued.
    pub fn add(&mut self, cap: Cap) -> (r: Option<CapRef>)
        requires
            old(self).wf(),
        ensures
            final(self).wf(),
            old(self).next_ref_spec() >= CAP_REF_MAX ==> r is None && final(self)@ == old(self)@
                && final(self).next_ref_spec() == old(self).next_ref_spec(),
            old(self).next_ref_spec() < CAP_REF_MAX ==> r == Some(CapRef(old(self).next_ref_spec()))
                && final(self)@ == old(self)@.push(CapListEntry { cap_ref: CapRef(old(self).next_ref_spec()), desc: cap })
                && final(self).next_ref_spec() == old(self).next_ref_spec() + 1,
    {
        if self.next_ref >= CAP_REF_MAX {
            return None;
        }
        let r = CapRef(self.next_ref);
        self.entries.push(CapListEntry { cap_ref: r, desc: cap });
        self.next_ref = self.next_ref + 1;
        Some(r)
    }

    fn find(&self, r: CapRef) -> (i: Option<usize>)
        requires
            self.wf(),
        ensures
            match i {
                Some(k) => k < self@.len() && self@[k as int].cap_ref == r && lookup(self@, r) == Some(self@[k as int].desc),
                None => !holds(self@, r) && lookup(self@, r) is None,
            },
    {
        proof { self.lemma_wf(); }
        let mut i: usize = 0;
        while i < self.entries.len()
            invariant
                self.wf(),
                i <= self.entries@.len(),
                forall|k: int| 0 <= k < i ==> (#[trigger] self.entries@[k]).cap_ref != r,
            decreases self.entries@.len() - i,
        {
            if self.entries[i].cap_ref.0 == r.0 {
                proof {
                    assert(self@[i as int].cap_ref == r);
                    let k = choose|k: int| 0 <= k < self@.len() && (#[trigger] self@[k]).cap_ref == r;
                    if k > i {
                        assert(self.entries@[i as int].cap_ref.0 < self.entries@[k].cap_ref.0);
                    }
                    assert(k == i);
                }
                return Some(i);
            }
            i = i + 1;
        }
        None
    }

    /// The capability named by `r`; `InvalidCap` when the list holds none.
    pub fn cap(&self, r: CapRef) -> (res: Result<Cap, KernelError>)
        requires
            self.wf(),
        ensures
            match lookup(self@, r) {
                Some(c) => res == Ok::<Cap, KernelError>(c),
                None => res == Err::<Cap, KernelError>(KernelError::ABI(abi::Error::InvalidCap)),
            },
    {
        match self.find(r) {
            Some(i) => Ok(self.entries[i].desc),
            None => Err(KernelError::ABI(abi::Error::InvalidCap)),
        }
    }

    /// Uses `r` as an endpoint: a disposable endpoint is removed from the
    /// list; anything that is not an endpoint gives `InvalidCap`.
    pub fn endpoint(&mut self, r: CapRef) -> (res: Result<Endpoint, KernelError>)
        requires
            old(self).wf(),
        ensures
            final(self).wf(),
            final(self).next_ref_spec() == old(self).next_ref_spec(),
            match use_endpoint(old(self)@, r) {
                Ok((e, s)) => res == Ok::<Endpoint, KernelError>(e) && final(self)@ == s,
                Err(err) => res == Err::<Endpoint, KernelError>(KernelError::ABI(err)) && final(self)@ == old(self)@,
            },
    {
        let i = match self.find(r) {
            Some(i) => i,
            None => return Err(KernelError::ABI(abi::Error::InvalidCap)),
        };
        let e = match self.entries[i].desc {
            Cap::Endpoint(e) => e,
            _ => return Err(KernelError::ABI(abi::Error::InvalidCap)),
        };
        if e.disposable {
            let ghost s0 = self.entries@;
            self.entries.remove(i);
            proof {
                self.lemma_removed_is_filter(s0, i as int, r);
            }
        }
        Ok(e)
    }

    proof fn lemma_removed_is_filter(&self, s0: Seq<CapListEntry>, i: int, r: CapRef)
        requires
            0 <= i < s0.len(),
            s0[i].cap_ref == r,
            forall|k: int, l: int| 0 <= k < l < s0.len() ==> (#[trigger] s0[k]).cap_ref.0 < (#[trigger] s0[l]).cap_ref.0,
        ensures
            s0.remove(i) == s0.filter(|c: CapListEntry| c.cap_ref != r),
        decreases s0.len(),
    {
        let f = |c: CapListEntry| c.cap_ref != r;
        reveal(Seq::filter);
        if i == s0.len() - 1 {
            assert(s0.drop_last() =~= s0.remove(i));
            assert forall|k: int| 0 <= k < s0.drop_last().len() implies f(#[trigger] s0.drop_last()[k]) by {
                assert(s0[k].cap_ref.0 < s0[i].cap_ref.0);
            }
            assert(s0.drop_last().filter(f) =~= s0.drop_last()) by {
                lemma_filter_all(s0.drop_last(), f);
            }
        } else {
            let t = s0.drop_last();
            self.lemma_removed_is_filter(t, i, r);
            assert(s0.remove(i) =~= t.remove(i).push(s0.last()));
            assert(f(s0.last())) by {
                assert(s0[i].cap_ref.0 < s0[s0.len() - 1].cap_ref.0);
            }
        }
    }

    /// The first `max` entries (all of them when fewer).
    pub fn list(&self, max: usize) -> (r: Vec<CapListEntry>)
        ensures
            r@ == self@.take(if max < self@.len() { max as int } else { self@.len() as int }),
    {
        let n = if max < self.entries.len() { max } else { self.entries.len() };
        let mut out: Vec<CapListEntry> = Vec::new();
        let mut i: usize = 0;
        while i < n
            invariant
                n <= self.entries@.len(),
                i <= n,
                out@ == self.entries@.take(i as int),
            decreases n - i,
        {
            out.push(self.entries[i]);
            assert(self.entries@.take(i as int).push(self.entries@[i as int]) =~= self.entries@.take(i + 1));
            i = i + 1;
        }
        out
    }
}

proof fn lemma_filter_all(s: Seq<CapListEntry>, f: spec_fn(CapListEntry) -> bool)
    requires
        forall|k: int| 0 <= k < s.len() ==> f(#[trigger] s[k]),
    ensures
        s.filter(f) == s,
    decreases s.len(),
{
    reveal(Seq::filter);
    if s.len() > 0 {
        lemma_filter_all(s.drop_last(), f);
        assert(s.drop_last().push(s.last()) =~= s);
    } else {
        assert(s.filter(f) =~= s);
    }
}

/// Refs of `s` are distinct.
pub open spec fn refs_unique(s: Seq<CapListEntry>) -> bool {
    forall|k: int, l: int| 0 <= k < s.len() && 0 <= l < s.len() && (#[trigger] s[k]).cap_ref == (#[trigger] s[l]).cap_ref ==> k == l
}

proof fn lemma_lookup_at(s: Seq<CapListEntry>, k: int)
    requires
        refs_unique(s),
        0 <= k < s.len(),
    ensures
        lookup(s, s[k].cap_ref) == Some(s[k].desc),
{
    let r = s[k].cap_ref;
    assert(exists|i: int| 0 <= i < s.len() && (#[trigger] s[i]).cap_ref == r);
    let i = choose|i: int| 0 <= i < s.len() && (#[trigger] s[i]).cap_ref == r;
    assert(i == k);
}

/// A disposable endpoint serves exactly one use: once used, its ref no
/// longer names anything, and using it again fails with `InvalidCap`.
pub proof fn lemma_disposable_single_use(s: Seq<CapListEntry>, r: CapRef)
    requires
        refs_unique(s),
        use_endpoint(s, r) matches Ok((e, _)) && e.disposable,
    ensures
        use_endpoint(s, r) matches Ok((_, s2)) && !holds(s2, r) && lookup(s2, r) is None
            && use_endpoint(s2, r) == Err::<(Endpoint, Seq<CapListEntry>), abi::Error>(abi::Error::InvalidCap),
{
    let f = |c: CapListEntry| c.cap_ref != r;
    let s2 = s.filter(f);
    if holds(s2, r) {
        let k = choose|k: int| 0 <= k < s2.len() && (#[trigger] s2[k]).cap_ref == r;
        s.lemma_filter_pred(f, k);
    }
}

/// Using an endpoint that is not disposable leaves the list as it was, so
/// its ref keeps working.
pub proof fn lemma_lasting_endpoint_reusable(s: Seq<CapListEntry>, r: CapRef)
    requires
        use_endpoint(s, r) matches Ok((e, _)) && !e.disposable,
    ensures
        use_endpoint(s, r) matches Ok((_, s2)) && s2 == s && use_endpoint(s2, r) == use_endpoint(s, r),
{
}

/// A cap-ref stays valid, naming the same capability, while capabilities
/// are added; and a ref whose capability is gone is never valid again,
/// because added capabilities always get fresh refs.
pub proof fn lemma_cap_ref_validity(l: &CapList, r: CapRef, c: Cap)
    requires
        l.wf(),
        l.next_ref_spec() < CAP_REF_MAX,
    ensures
        ({
            let s2 = l@.push(CapListEntry { cap_ref: CapRef(l.next_ref_spec()), desc: c });
            &&& holds(l@, r) ==> lookup(s2, r) == lookup(l@, r)
            &&& !holds(l@, r) && r.0 < l.next_ref_spec() ==> !holds(s2, r) && lookup(s2, r) is None
        }),
{
    l.lemma_wf();
    let s = l@;
    let n = CapListEntry { cap_ref: CapRef(l.next_ref_spec()), desc: c };
    let s2 = s.push(n);
    assert(refs_unique(s2)) by {
        assert forall|k: int, m: int| 0 <= k < s2.len() && 0 <= m < s2.len() && (#[trigger] s2[k]).cap_ref == (#[trigger] s2[m]).cap_ref implies k == m by {
            if k < s.len() && m < s.len() {
                assert(s2[k] == s[k] && s2[m] == s[m]);
            } else if k < s.len() {
                assert(s[k].cap_ref.0 < l.next_ref_spec());
            } else if m < s.len() {
                assert(s[m].cap_ref.0 < l.next_ref_spec());
            }
        }
    }
    if holds(s, r) {
        let k = choose|k: int| 0 <= k < s.len() && (#[trigger] s[k]).cap_ref == r;
        assert(refs_unique(s));
        lemma_lookup_at(s, k);
        assert(s2[k] == s[k]);
        lemma_lookup_at(s2, k);
    }
    if !holds(s, r) && r.0 < l.next_ref_spec() {
        if holds(s2, r) {
            let k = choose|k: int| 0 <= k < s2.len() && (#[trigger] s2[k]).cap_ref == r;
            if k < s.len() {
                assert(s[k] == s2[k]);
            }
        }
    }
}

} // verus!
