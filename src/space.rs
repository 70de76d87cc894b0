//! A fixed-capacity slot arena. Slots are handed out from a stack of free
//! indices, so the most recently freed slot is the next one reused.
use vstd::prelude::*;

verus! {

#[derive(Debug)]
pub struct Space<T, const N: usize> {
    items: Vec<Option<T>>,
    free: Vec<usize>,
}

impl<T, const N: usize> Space<T, N> {
    /// The slot contents, one entry per index below `N`.
    pub closed spec fn view(&self) -> Seq<Option<T>> {
        self.items@
    }

    /// The stack of free indices; its last element is handed out next.
    pub closed spec fn free_stack(&self) -> Seq<usize> {
        self.free@
    }

    pub open spec fn occupied(&self, i: int) -> bool {
        0 <= i < self@.len() && self@[i] is Some
    }

    /// Number of occupied slots.
    pub open spec fn len_spec(&self) -> int {
        N - self.free_stack().len()
    }

    /// The slot that the next `push` fills.
    pub open spec fn next_slot(&self) -> int {
        self.free_stack().last() as int
    }

    pub closed spec fn wf(&self) -> bool {
        &&& self.items@.len() == N
        &&& self.free@.len() <= N
        &&& forall|k: int| 0 <= k < self.free@.len() ==> (#[trigger] self.free@[k]) < N
        &&& forall|k: int, l: int|
            0 <= k < l < self.free@.len() ==> self.free@[k] != self.free@[l]
        &&& forall|i: int|
            0 <= i < N ==> ((#[trigger] self.items@[i]) is None <==> self.free@.contains(
                i as usize,
            ))
    }

    /// Facts that hold of every well-formed arena.
    pub proof fn lemma_wf(&self)
        requires
            self.wf(),
        ensures
            self@.len() == N,
            0 <= self.len_spec() <= N,
            self.len_spec() < N ==> 0 <= self.next_slot() < N && self@[self.next_slot()] is None,
    {
        if self.free@.len() > 0 {
            let k = self.free@.len() - 1;
            assert(self.free@[k] < N);
            assert(self.free@.contains(self.free@[k]));
        }
    }

    /// An arena with every slot empty; slots are handed out from index zero up.
    pub fn new() -> (r: Self)
        ensures
            r.wf(),
            r@ == Seq::new(N as nat, |i: int| None::<T>),
            r.len_spec() == 0,
            r.next_slot() == 0 || N == 0,
            r.free_stack() == Seq::new(N as nat, |k: int| (N - 1 - k) as usize),
    {
        let mut items: Vec<Option<T>> = Vec::new();
        let mut free: Vec<usize> = Vec::new();
        let mut i: usize = 0;
        while i < N
            invariant
                i <= N,
                items@.len() == i,
                free@.len() == i,
                forall|k: int| 0 <= k < i ==> (#[trigger] items@[k]) is None,
                forall|k: int| 0 <= k < i ==> (#[trigger] free@[k]) == N - 1 - k,
            decreases N - i,
        {
            items.push(None);
            free.push(N - 1 - i);
            i = i + 1;
        }
        let r = Space { items, free };
        assert forall|k: int, l: int| 0 <= k < l < r.free@.len() implies r.free@[k] != r.free@[l] by {
            assert(r.free@[k] == N - 1 - k);
            assert(r.free@[l] == N - 1 - l);
        }
        assert forall|j: int| 0 <= j < N implies ((#[trigger] r.items@[j]) is None
            <==> r.free@.contains(j as usize)) by {
            let k = N - 1 - j;
            assert(r.free@[k] == j as usize);
        }
        assert(r@ =~= Seq::new(N as nat, |i: int| None::<T>));
        assert(r.free@ =~= Seq::new(N as nat, |k: int| (N - 1 - k) as usize));
        r
    }

    /// Places `item` in the next free slot and returns that slot's index, or
    /// returns `None` and changes nothing when every slot is taken.
    pub fn push(&mut self, item: T) -> (r: Option<usize>)
        requires
            old(self).wf(),
        ensures
            final(self).wf(),
            old(self).len_spec() >= N ==> r is None && final(self)@ == old(self)@
                && final(self).free_stack() == old(self).free_stack(),
            old(self).len_spec() < N ==> r == Some(old(self).next_slot() as usize)
                && old(self)@[old(self).next_slot()] is None
                && final(self)@ == old(self)@.update(old(self).next_slot(), Some(item))
                && final(self).free_stack() == old(self).free_stack().drop_last(),
    {
        proof {
            self.lemma_wf();
        }
        if self.free.len() == 0 {
            return None;
        }
        let i = self.free.pop().unwrap();
        self.items.set(i, Some(item));
        proof {
            let f0 = old(self).free@;
            assert forall|k: int, l: int| 0 <= k < l < self.free@.len() implies self.free@[k]
                != self.free@[l] by {
                assert(self.free@[k] == f0[k]);
                assert(self.free@[l] == f0[l]);
            }
            assert forall|k: int| 0 <= k < self.free@.len() implies (#[trigger] self.free@[k]) < N by {
                assert(self.free@[k] == f0[k]);
            }
            assert forall|j: int| 0 <= j < N implies ((#[trigger] self.items@[j]) is None
                <==> self.free@.contains(j as usize)) by {
                if j == i {
                    assert forall|k: int| 0 <= k < self.free@.len() implies self.free@[k] != j by {
                        assert(f0[k] != f0[f0.len() - 1]);
                    }
                } else {
                    assert(old(self).items@[j] == self.items@[j]);
                    if f0.contains(j as usize) {
                        let k = choose|k: int| 0 <= k < f0.len() && f0[k] == j as usize;
                        assert(k != f0.len() - 1);
                        assert(self.free@[k] == j as usize);
                    }
                    if self.free@.contains(j as usize) {
                        let k = choose|k: int| 0 <= k < self.free@.len() && self.free@[k] == j as usize;
                        assert(f0[k] == j as usize);
                    }
                }
            }
        }
        Some(i)
    }

    /// The item in slot `i`, if any.
    pub fn get(&self, i: usize) -> (r: Option<&T>)
        requires
            self.wf(),
        ensures
            match r {
                Some(x) => i < N && self@[i as int] == Some(*x),
                None => i >= N || self@[i as int] is None,
            },
    {
        if i >= self.items.len() {
            return None;
        }
        match &self.items[i] {
            Some(x) => Some(x),
            None => None,
        }
    }

    /// Empties slot `i` and returns its item; the slot is the next one reused.
    /// Returns `None` and changes nothing when the slot is empty.
    pub fn remove(&mut self, i: usize) -> (r: Option<T>)
        requires
            old(self).wf(),
        ensures
            final(self).wf(),
            match r {
                Some(x) => i < N && old(self)@[i as int] == Some(x) && final(self)@ == old(
                    self,
                )@.update(i as int, None) && final(self).free_stack() == old(
                    self,
                ).free_stack().push(i),
                None => (i >= N || old(self)@[i as int] is None) && final(self)@ == old(self)@
                    && final(self).free_stack() == old(self).free_stack(),
            },
    {
        if i >= self.items.len() {
            return None;
        }
        let slot = self.items.remove(i);
        self.items.insert(i, None);
        match slot {
            None => {
                assert(self.items@ =~= old(self).items@);
                None
            },
            Some(x) => {
                proof {
                    old(self).lemma_free_has_no_occupied(i);
                }
                self.free.push(i);
                proof {
                    let f0 = old(self).free@;
                    assert(self.items@ =~= old(self).items@.update(i as int, None));
                    assert forall|k: int, l: int| 0 <= k < l < self.free@.len() implies self.free@[k]
                        != self.free@[l] by {
                        if l == f0.len() {
                            assert(!f0.contains(i));
                            assert(self.free@[k] == f0[k]);
                        }
                    }
                    assert forall|k: int| 0 <= k < self.free@.len() implies (#[trigger] self.free@[k]) < N by {
                        if k < f0.len() {
                            assert(self.free@[k] == f0[k]);
                        }
                    }
                    assert forall|j: int| 0 <= j < N implies ((#[trigger] self.items@[j]) is None
                        <==> self.free@.contains(j as usize)) by {
                        if j == i {
                            assert(self.free@[f0.len() as int] == i);
                        } else {
                            assert(old(self).items@[j] == self.items@[j]);
                            if f0.contains(j as usize) {
                                let k = choose|k: int| 0 <= k < f0.len() && f0[k] == j as usize;
                                assert(self.free@[k] == j as usize);
                            }
                            if self.free@.contains(j as usize) {
                                let k = choose|k: int| 0 <= k < self.free@.len() && self.free@[k] == j as usize;
                                assert(k != f0.len());
                                assert(f0[k] == j as usize);
                            }
                        }
                    }
                }
                Some(x)
            },
        }
    }

    proof fn lemma_free_has_no_occupied(&self, i: usize)
        requires
            self.wf(),
            i < N,
            self@[i as int] is Some,
        ensures
            !self.free@.contains(i),
            self.free@.len() < N,
    {
        let occ = Set::new(|j: usize| j < N);
        let fs = self.free@.to_set();
        assert(fs.subset_of(occ.remove(i))) by {
            assert forall|j: usize| fs.contains(j) implies occ.remove(i).contains(j) by {
                let k = choose|k: int| 0 <= k < self.free@.len() && self.free@[k] == j;
                assert(self.free@[k] < N);
                if j == i {
                    assert(self.free@.contains(i));
                    assert(self.items@[i as int] is None);
                }
            }
        }
        vstd::set_lib::lemma_int_range(0, N as int);
        assert(occ =~= Set::new(|j: usize| 0 <= j < N));
        assert(occ.finite() && occ.len() == N) by {
            lemma_usize_range_len(N);
        }
        vstd::set_lib::lemma_len_subset(fs, occ.remove(i));
        self.free@.unique_seq_to_set();
    }

    /// Gives mutable access to the item in slot `i`, if any.
    pub fn get_mut(&mut self, i: usize) -> (r: Option<&mut T>)
        requires
            old(self).wf(),
        ensures
            match r {
                Some(x) => i < N && old(self)@[i as int] == Some(*x) && final(self)@ == old(
                    self,
                )@.update(i as int, Some(*final(x))) && final(self).free_stack() == old(
                    self,
                ).free_stack() && final(self).wf(),
                None => (i >= N || old(self)@[i as int] is None) && final(self)@ == old(self)@
                    && final(self).free_stack() == old(self).free_stack() && final(self).wf(),
            },
    {
        if i >= self.items.len() {
            return None;
        }
        self.items[i].as_mut()
    }

    /// The items of the occupied slots, in slot order.
    pub fn iter(&self) -> (r: Vec<&T>)
        requires
            self.wf(),
        ensures
            r@.len() == occupied_items(self@).len(),
            r@.len() == self.len_spec(),
            forall|k: int| 0 <= k < r@.len() ==> *r@[k] == occupied_items(self@)[k],
    {
        let mut out: Vec<&T> = Vec::new();
        let mut i: usize = 0;
        while i < self.items.len()
            invariant
                i <= self.items@.len(),
                out@.len() == occupied_items(self.items@.take(i as int)).len(),
                forall|k: int| 0 <= k < out@.len() ==> *out@[k] == occupied_items(self.items@.take(i as int))[k],
            decreases self.items@.len() - i,
        {
            proof {
                assert(self.items@.take(i + 1).drop_last() =~= self.items@.take(i as int));
            }
            match &self.items[i] {
                Some(x) => out.push(x),
                None => {},
            }
            i = i + 1;
        }
        proof {
            assert(self.items@.take(self.items@.len() as int) =~= self.items@);
            self.lemma_len_counts_occupied();
        }
        out
    }

    /// Number of occupied slots.
    pub fn len(&self) -> (r: usize)
        requires
            self.wf(),
        ensures
            r == self.len_spec(),
            r == occupied_items(self@).len(),
            r <= N,
    {
        proof { self.lemma_len_counts_occupied(); }
        N - self.free.len()
    }

    /// The number of occupied slots is `N` less the free ones.
    pub proof fn lemma_len_counts_occupied(&self)
        requires
            self.wf(),
        ensures
            self.len_spec() == occupied_items(self@).len(),
    {
        let s = self.items@;
        lemma_none_set(s, N as int);
        lemma_count_split(s);
        assert(s.take(N as int) =~= s);
        let ns = none_set(s, N as int);
        assert(self.free@.to_set() =~= ns) by {
            assert forall|x: usize| self.free@.to_set().contains(x) implies ns.contains(x) by {
                let k = choose|k: int| 0 <= k < self.free@.len() && self.free@[k] == x;
                assert(self.free@[k] < N);
                assert(self.free@.contains(x));
            }
            assert forall|x: usize| ns.contains(x) implies self.free@.to_set().contains(x) by {
                assert(s[x as int] is None);
            }
        }
        assert(self.free@.no_duplicates()) by {
            assert forall|i: int, j: int| 0 <= i < self.free@.len() && 0 <= j < self.free@.len() && i != j implies self.free@[i] != self.free@[j] by {
                if i < j { } else { }
            }
        }
        self.free@.unique_seq_to_set();
    }
}

/// The items of the occupied slots of `s`, in slot order.
pub open spec fn occupied_items<T>(s: Seq<Option<T>>) -> Seq<T>
    decreases s.len(),
{
    if s.len() == 0 {
        Seq::empty()
    } else {
        let rest = occupied_items(s.drop_last());
        match s.last() {
            Some(x) => rest.push(x),
            None => rest,
        }
    }
}

/// Number of empty slots of `s`.
pub open spec fn none_count<T>(s: Seq<Option<T>>) -> nat
    decreases s.len(),
{
    if s.len() == 0 {
        0
    } else {
        none_count(s.drop_last()) + if s.last() is None { 1nat } else { 0nat }
    }
}

/// Indices below `n` of empty slots of `s`.
pub open spec fn none_set<T>(s: Seq<Option<T>>, n: int) -> Set<usize> {
    Set::new(|i: usize| i < n && s[i as int] is None)
}

proof fn lemma_count_split<T>(s: Seq<Option<T>>)
    ensures
        occupied_items(s).len() + none_count(s) == s.len(),
    decreases s.len(),
{
    if s.len() > 0 {
        lemma_count_split(s.drop_last());
    }
}

proof fn lemma_none_set<T>(s: Seq<Option<T>>, n: int)
    requires
        0 <= n <= s.len(),
        n <= usize::MAX,
    ensures
        none_set(s, n).finite(),
        none_set(s, n).len() == none_count(s.take(n)),
    decreases n,
{
    if n == 0 {
        assert(none_set(s, n) =~= Set::empty());
        assert(s.take(0) =~= Seq::<Option<T>>::empty());
    } else {
        lemma_none_set(s, n - 1);
        assert(s.take(n).drop_last() =~= s.take(n - 1));
        if s[n - 1] is None {
            assert(none_set(s, n) =~= none_set(s, n - 1).insert((n - 1) as usize));
        } else {
            assert(none_set(s, n) =~= none_set(s, n - 1));
        }
    }
}

impl<T, const N: usize> Default for Space<T, N> {
    fn default() -> (r: Self)
        ensures
            r.wf(),
            r@ == Seq::new(N as nat, |i: int| None::<T>),
            r.len_spec() == 0,
            r.free_stack() == Seq::new(N as nat, |k: int| (N - 1 - k) as usize),
    {
        Self::new()
    }
}

/// The set of indices below `n` has `n` elements.
proof fn lemma_usize_range_len(n: usize)
    ensures
        Set::new(|j: usize| j < n).finite(),
        Set::new(|j: usize| j < n).len() == n,
    decreases n,
{
    if n == 0 {
        assert(Set::new(|j: usize| j < n) =~= Set::empty());
    } else {
        lemma_usize_range_len((n - 1) as usize);
        assert(Set::new(|j: usize| j < n) =~= Set::new(|j: usize| j < (n - 1) as usize).insert(
            (n - 1) as usize,
        ));
    }
}

} // verus!
