//! The keeper: the handle-to-index table of a run.
//!
//! Built once over the batch of compositions, it records for every
//! handle the position of the composition that introduced it, and
//! remembers separately which handles appeared more than once. A
//! colliding handle keeps its index but can never be resolved.

use vstd::prelude::*;

verus! {

/// Position `i` holds the first occurrence of its handle.
pub open spec fn first_occurrence(hs: Seq<Seq<char>>, i: int) -> bool {
    0 <= i < hs.len() && (forall|j: int| 0 <= j < i ==> hs[j] != hs[i])
}

/// `h` appears at least twice among the handles.
pub open spec fn handle_collides(hs: Seq<Seq<char>>, h: Seq<char>) -> bool {
    exists|i: int, j: int| 0 <= i < j < hs.len() && hs[i] == h && hs[j] == h
}

/// Index of the first entry with key `k` in an association list, or -1.
pub open spec fn assoc_key_index<V>(s: Seq<(Seq<char>, V)>, k: Seq<char>) -> int
    decreases s.len(),
{
    if s.len() == 0 {
        -1
    } else if s[0].0 == k {
        0
    } else {
        let r = assoc_key_index(s.drop_first(), k);
        if r < 0 {
            -1
        } else {
            r + 1
        }
    }
}

/// `assoc_key_index` finds exactly the first entry with the given key.
pub proof fn lemma_assoc_key_index<V>(s: Seq<(Seq<char>, V)>, k: Seq<char>)
    ensures
        assoc_key_index(s, k) == -1 ==> (forall|j: int|
            0 <= j < s.len() ==> (#[trigger] s[j]).0 != k),
        assoc_key_index(s, k) != -1 ==> {
            let i = assoc_key_index(s, k);
            &&& 0 <= i < s.len()
            &&& s[i].0 == k
            &&& forall|j: int| 0 <= j < i ==> (#[trigger] s[j]).0 != k
        },
    decreases s.len(),
{
    if s.len() > 0 && s[0].0 != k {
        let d = s.drop_first();
        lemma_assoc_key_index(d, k);
        let r = assoc_key_index(d, k);
        if r == -1 {
            assert forall|j: int| 0 <= j < s.len() implies (#[trigger] s[j]).0 != k by {
                if j > 0 {
                    assert(d[j - 1] == s[j]);
                }
            }
        } else {
            assert(s[r + 1] == d[r]);
            assert forall|j: int| 0 <= j < r + 1 implies (#[trigger] s[j]).0 != k by {
                if j > 0 {
                    assert(d[j - 1] == s[j]);
                }
            }
        }
    }
}

/// Appending an entry leaves earlier keys untouched and binds a fresh key
/// at the end.
pub proof fn lemma_assoc_key_index_push<V>(s: Seq<(Seq<char>, V)>, p: (Seq<char>, V), h: Seq<char>)
    ensures
        assoc_key_index(s, h) != -1 ==> assoc_key_index(s.push(p), h) == assoc_key_index(s, h),
        assoc_key_index(s, h) == -1 && p.0 == h ==> assoc_key_index(s.push(p), h) == s.len(),
        assoc_key_index(s, h) == -1 && p.0 != h ==> assoc_key_index(s.push(p), h) == -1,
    decreases s.len(),
{
    if s.len() == 0 {
        assert(s.push(p)[0] == p);
        if p.0 != h {
            assert(s.push(p).drop_first() =~= s);
        }
    } else if s[0].0 == h {
        assert(s.push(p)[0] == s[0]);
    } else {
        let d = s.drop_first();
        assert(s.push(p)[0] == s[0]);
        assert(s.push(p).drop_first() =~= d.push(p));
        lemma_assoc_key_index_push(d, p, h);
        if assoc_key_index(s, h) != -1 {
            assert(assoc_key_index(d, h) == assoc_key_index(s, h) - 1);
        } else {
            assert(assoc_key_index(d, h) == -1);
        }
    }
}

/// Two keepers with the same collision list agree on what collides.
proof fn lemma_collides_transfer(a: &Keeper, b: &Keeper, h: Seq<char>)
    requires
        a.lookup_collisions@.map_values(|s: String| s@)
            == b.lookup_collisions@.map_values(|s: String| s@),
    ensures
        a.spec_collides(h) == b.spec_collides(h),
{
    let av = a.lookup_collisions@.map_values(|s: String| s@);
    let bv = b.lookup_collisions@.map_values(|s: String| s@);
    assert(av.len() == a.lookup_collisions@.len());
    assert(bv.len() == b.lookup_collisions@.len());
    if a.spec_collides(h) {
        let idx = choose|idx: int|
            0 <= idx < a.lookup_collisions@.len() && (a.lookup_collisions@[idx])@ == h;
        assert(av[idx] == (a.lookup_collisions@[idx])@);
        assert(bv[idx] == (b.lookup_collisions@[idx])@);
        assert((b.lookup_collisions@[idx])@ == h);
    }
    if b.spec_collides(h) {
        let idx = choose|idx: int|
            0 <= idx < b.lookup_collisions@.len() && (b.lookup_collisions@[idx])@ == h;
        assert(bv[idx] == (b.lookup_collisions@[idx])@);
        assert(av[idx] == (a.lookup_collisions@[idx])@);
        assert((a.lookup_collisions@[idx])@ == h);
    }
}

/// Law: after the keeper is built over a batch of handles, resolving a
/// handle that occurs exactly once yields the index of the composition
/// that introduced it, and a handle that occurs more than once is
/// reported as a collision — it keeps an index, but stays unresolvable.
pub proof fn lemma_bootstrap_resolution(keeper: &Keeper, hs: Seq<Seq<char>>, i: int)
    requires
        keeper.models(hs),
        0 <= i < hs.len(),
    ensures
        keeper.spec_lookup(hs[i]) is Some,
        !handle_collides(hs, hs[i]) ==> keeper.spec_lookup(hs[i])->Some_0 == i,
        keeper.spec_collides(hs[i]) <==> handle_collides(hs, hs[i]),
{
    assert(hs[i] == hs[i]);
    assert(hs.contains(hs[i]));
    assert(keeper.spec_lookup(hs[i]) is Some);
    let idx = keeper.spec_lookup(hs[i])->Some_0 as int;
    assert(first_occurrence(hs, idx) && hs[idx] == hs[i]);
    if !handle_collides(hs, hs[i]) {
        if idx < i {
            assert(hs[idx] == hs[i] && hs[i] == hs[i]);
            assert(handle_collides(hs, hs[i]));
        } else if idx > i {
            assert(hs[i] != hs[idx]);
        }
    }
}

/// The handle-to-index table together with the set of colliding handles.
pub struct Keeper {
    lookup_collisions: Vec<String>,
    lookup_handlers: Vec<(String, usize)>,
}

impl Keeper {
    /// The entries of the handler table, as views.
    pub closed spec fn spec_entries(&self) -> Seq<(Seq<char>, usize)> {
        self.lookup_handlers@.map_values(|p: (String, usize)| (p.0@, p.1))
    }

    /// The index recorded for `h`, if any.
    pub closed spec fn spec_lookup(&self, h: Seq<char>) -> Option<usize> {
        let i = assoc_key_index(self.spec_entries(), h);
        if i < 0 {
            None
        } else {
            Some(self.spec_entries()[i].1)
        }
    }

    /// Whether `h` was recorded as colliding.
    pub closed spec fn spec_collides(&self, h: Seq<char>) -> bool {
        exists|i: int|
            0 <= i < self.lookup_collisions@.len() && (#[trigger] self.lookup_collisions@[i])@ == h
    }

    /// The keeper is exactly the table the build rule produces over the
    /// handle sequence `hs`: every handle maps to its first occurrence,
    /// no other handle is present, and the colliding handles are exactly
    /// those that occur at least twice.
    pub open spec fn models(&self, hs: Seq<Seq<char>>) -> bool {
        &&& forall|h: Seq<char>| #[trigger]
            self.spec_lookup(h) is Some <==> hs.contains(h)
        &&& forall|h: Seq<char>|
            self.spec_lookup(h) is Some ==> {
                let i = (#[trigger] self.spec_lookup(h))->Some_0 as int;
                &&& first_occurrence(hs, i)
                &&& hs[i] == h
            }
        &&& forall|h: Seq<char>| #[trigger] self.spec_collides(h) <==> handle_collides(hs, h)
    }

    /// Every recorded index lies below `n`.
    pub open spec fn bounded(&self, n: int) -> bool {
        forall|h: Seq<char>|
            (#[trigger] self.spec_lookup(h)) is Some ==> self.spec_lookup(h)->Some_0 < n
    }

    /// Builds the keeper over the given handles, in order: the first
    /// occurrence of a handle records its index; every later occurrence
    /// marks the handle as colliding.
    pub fn build(handles: &Vec<String>) -> (r: Keeper)
        ensures
            r.models(handles@.map_values(|s: String| s@)),
    {
        let ghost hs = handles@.map_values(|s: String| s@);
        let mut keeper = Keeper { lookup_collisions: Vec::new(), lookup_handlers: Vec::new() };
        proof {
            assert forall|h: Seq<char>| !(#[trigger] keeper.spec_lookup(h) is Some) by {
                lemma_assoc_key_index(keeper.spec_entries(), h);
            }
            assert(keeper.models(hs.take(0)));
        }
        let n = handles.len();
        let mut i: usize = 0;
        while i < n
            invariant
                n == handles@.len(),
                hs == handles@.map_values(|s: String| s@),
                i <= n,
                keeper.models(hs.take(i as int)),
                forall|h: Seq<char>|
                    (#[trigger] keeper.spec_lookup(h)) is Some
                        ==> keeper.spec_lookup(h)->Some_0 < i,
            decreases n - i,
        {
            let ghost prefix = hs.take(i as int);
            let ghost extended = hs.take(i as int + 1);
            proof {
                assert(extended =~= prefix.push(hs[i as int]));
                assert(hs[i as int] == handles@[i as int]@);
            }
            let h = &handles[i];
            match keeper.lookup(h) {
                Some(_) => {
                    let ghost old_keeper = keeper;
                    keeper.lookup_collisions.push(h.clone());
                    proof {
                        assert(keeper.spec_entries() == old_keeper.spec_entries());
                        assert forall|g: Seq<char>| #[trigger]
                            keeper.spec_collides(g)
                                <==> (old_keeper.spec_collides(g) || g == h@) by {
                            let cs = old_keeper.lookup_collisions@;
                            assert(keeper.lookup_collisions@ == cs.push(*h));
                            if keeper.spec_collides(g) {
                                let idx = choose|idx: int|
                                    0 <= idx < keeper.lookup_collisions@.len()
                                        && (keeper.lookup_collisions@[idx])@ == g;
                                if idx < cs.len() {
                                    assert(old_keeper.spec_collides(g));
                                }
                            }
                            if old_keeper.spec_collides(g) {
                                let idx = choose|idx: int|
                                    0 <= idx < cs.len() && (cs[idx])@ == g;
                                assert((keeper.lookup_collisions@[idx])@ == g);
                            }
                            if g == h@ {
                                assert((keeper.lookup_collisions@[cs.len() as int])@ == g);
                            }
                        }
                        let prev = old_keeper.spec_lookup(h@)->Some_0 as int;
                        assert(prefix[prev] == h@);
                        assert(extended[prev] == h@ && extended[i as int] == h@);
                        assert(handle_collides(extended, h@));
                        assert forall|g: Seq<char>| #[trigger]
                            keeper.spec_collides(g) <==> handle_collides(extended, g) by {
                            if g != h@ {
                                if handle_collides(extended, g) {
                                    let (a, b) = choose|a: int, b: int|
                                        0 <= a < b < extended.len() && extended[a] == g
                                            && extended[b] == g;
                                    assert(b < prefix.len());
                                    assert(handle_collides(prefix, g));
                                }
                                if handle_collides(prefix, g) {
                                    let (a, b) = choose|a: int, b: int|
                                        0 <= a < b < prefix.len() && prefix[a] == g
                                            && prefix[b] == g;
                                    assert(extended[a] == g && extended[b] == g);
                                    assert(handle_collides(extended, g));
                                }
                            }
                        }
                        assert forall|g: Seq<char>| #[trigger]
                            keeper.spec_lookup(g) is Some <==> extended.contains(g) by {
                            if keeper.spec_lookup(g) is Some {
                                assert(prefix.contains(g));
                                let a = choose|a: int| 0 <= a < prefix.len() && prefix[a] == g;
                                assert(extended[a] == g);
                                assert(extended.contains(g));
                            }
                            if extended.contains(g) {
                                let a = choose|a: int|
                                    0 <= a < extended.len() && extended[a] == g;
                                if a < prefix.len() {
                                    assert(prefix[a] == g);
                                    assert(prefix.contains(g));
                                } else {
                                    assert(g == h@);
                                    assert(old_keeper.spec_lookup(g) is Some);
                                }
                            }
                        }
                        assert forall|g: Seq<char>|
                            keeper.spec_lookup(g) is Some implies {
                            let idx = (#[trigger] keeper.spec_lookup(g))->Some_0 as int;
                            first_occurrence(extended, idx) && extended[idx] == g
                        } by {
                            assert(old_keeper.spec_lookup(g) is Some);
                            let idx = keeper.spec_lookup(g)->Some_0 as int;
                            assert(first_occurrence(prefix, idx) && prefix[idx] == g);
                            assert(extended[idx] == g);
                            assert forall|j: int| 0 <= j < idx implies extended[j] != extended[idx] by {
                                assert(extended[j] == prefix[j]);
                            }
                        }
                        assert(keeper.models(extended));
                    }
                }
                None => {
                    let ghost old_keeper = keeper;
                    keeper.lookup_handlers.push((h.clone(), i));
                    proof {
                        let entries = old_keeper.spec_entries();
                        assert(keeper.spec_entries() =~= entries.push((h@, i)));
                        assert(keeper.lookup_collisions@ == old_keeper.lookup_collisions@);
                        assert(assoc_key_index(entries, h@) == -1) by {
                            if assoc_key_index(entries, h@) != -1 {
                                assert(old_keeper.spec_lookup(h@) is Some);
                            }
                        }
                        assert forall|g: Seq<char>| #[trigger]
                            keeper.spec_lookup(g) == (if g == h@ { Some(i) } else {
                                old_keeper.spec_lookup(g)
                            }) by {
                            lemma_assoc_key_index_push(entries, (h@, i), g);
                            lemma_assoc_key_index(entries, g);
                            if g == h@ {
                                assert(keeper.spec_entries()[entries.len() as int] == (h@, i));
                            }
                        }
                        assert(!prefix.contains(h@)) by {
                            if prefix.contains(h@) {
                                assert(old_keeper.spec_lookup(h@) is Some);
                            }
                        }
                        assert forall|g: Seq<char>| #[trigger]
                            keeper.spec_lookup(g) is Some <==> extended.contains(g) by {
                            if keeper.spec_lookup(g) is Some {
                                if g == h@ {
                                    assert(extended[i as int] == g);
                                    assert(extended.contains(g));
                                } else {
                                    assert(prefix.contains(g));
                                    let a = choose|a: int|
                                        0 <= a < prefix.len() && prefix[a] == g;
                                    assert(extended[a] == g);
                                    assert(extended.contains(g));
                                }
                            }
                            if extended.contains(g) {
                                let a = choose|a: int|
                                    0 <= a < extended.len() && extended[a] == g;
                                if a < prefix.len() {
                                    assert(prefix[a] == g);
                                    assert(prefix.contains(g));
                                    assert(old_keeper.spec_lookup(g) is Some);
                                } else {
                                    assert(g == h@);
                                }
                            }
                        }
                        assert forall|g: Seq<char>|
                            keeper.spec_lookup(g) is Some implies {
                            let idx = (#[trigger] keeper.spec_lookup(g))->Some_0 as int;
                            first_occurrence(extended, idx) && extended[idx] == g
                        } by {
                            let idx = keeper.spec_lookup(g)->Some_0 as int;
                            if g == h@ {
                                assert(idx == i);
                                assert(extended[idx] == g);
                                assert forall|j: int| 0 <= j < idx implies extended[j]
                                    != extended[idx] by {
                                    assert(extended[j] == prefix[j]);
                                    assert(prefix.contains(prefix[j]));
                                }
                            } else {
                                assert(old_keeper.spec_lookup(g) is Some);
                                assert(first_occurrence(prefix, idx) && prefix[idx] == g);
                                assert(extended[idx] == g);
                                assert forall|j: int| 0 <= j < idx implies extended[j]
                                    != extended[idx] by {
                                    assert(extended[j] == prefix[j]);
                                }
                            }
                        }
                        assert forall|g: Seq<char>| #[trigger]
                            keeper.spec_collides(g) <==> handle_collides(extended, g) by {
                            lemma_collides_transfer(&keeper, &old_keeper, g);
                            if handle_collides(extended, g) {
                                let (a, b) = choose|a: int, b: int|
                                    0 <= a < b < extended.len() && extended[a] == g
                                        && extended[b] == g;
                                if b < prefix.len() {
                                    assert(handle_collides(prefix, g));
                                    assert(old_keeper.spec_collides(g));
                                } else {
                                    assert(g == h@);
                                    assert(extended[a] == prefix[a]);
                                    assert(prefix.contains(h@));
                                }
                            }
                            if keeper.spec_collides(g) {
                                assert(old_keeper.spec_collides(g));
                                assert(handle_collides(prefix, g));
                                let (a, b) = choose|a: int, b: int|
                                    0 <= a < b < prefix.len() && prefix[a] == g
                                        && prefix[b] == g;
                                assert(extended[a] == g && extended[b] == g);
                                assert(handle_collides(extended, g));
                            }
                        }
                        assert(keeper.models(extended));
                    }
                }
            }
            i = i + 1;
        }
        proof {
            assert(hs.take(n as int) =~= hs);
        }
        keeper
    }

    /// The index recorded for `handle`, if any.
    pub fn lookup(&self, handle: &String) -> (r: Option<usize>)
        ensures
            r == self.spec_lookup(handle@),
    {
        let n = self.lookup_handlers.len();
        let mut i: usize = 0;
        while i < n
            invariant
                n == self.lookup_handlers@.len(),
                i <= n,
                forall|j: int| 0 <= j < i ==> (#[trigger] self.spec_entries()[j]).0 != handle@,
            decreases n - i,
        {
            if crate::text::string_eq(&self.lookup_handlers[i].0, handle) {
                proof {
                    assert(self.spec_entries()[i as int].0 == handle@);
                    lemma_assoc_key_index(self.spec_entries(), handle@);
                    assert(assoc_key_index(self.spec_entries(), handle@) == i);
                }
                return Some(self.lookup_handlers[i].1);
            }
            i = i + 1;
        }
        proof {
            lemma_assoc_key_index(self.spec_entries(), handle@);
        }
        None
    }

    /// Whether `handle` was recorded as colliding.
    pub fn is_collision(&self, handle: &String) -> (r: bool)
        ensures
            r == self.spec_collides(handle@),
    {
        let n = self.lookup_collisions.len();
        let mut i: usize = 0;
        while i < n
            invariant
                n == self.lookup_collisions@.len(),
                i <= n,
                forall|j: int| 0 <= j < i ==> (#[trigger] self.lookup_collisions@[j])@ != handle@,
            decreases n - i,
        {
            if crate::text::string_eq(&self.lookup_collisions[i], handle) {
                return true;
            }
            i = i + 1;
        }
        false
    }
}

impl Clone for Keeper {
    fn clone(&self) -> (r: Self)
        ensures
            r.spec_entries() == self.spec_entries(),
            forall|h: Seq<char>| #[trigger] r.spec_collides(h) == self.spec_collides(h),
            forall|h: Seq<char>| #[trigger] r.spec_lookup(h) == self.spec_lookup(h),
    {
        let mut lookup_collisions: Vec<String> = Vec::new();
        let n = self.lookup_collisions.len();
        let mut i: usize = 0;
        while i < n
            invariant
                n == self.lookup_collisions@.len(),
                i <= n,
                lookup_collisions@.len() == i,
                forall|j: int| 0 <= j < i
                    ==> (#[trigger] lookup_collisions@[j])@ == (self.lookup_collisions@[j])@,
            decreases n - i,
        {
            lookup_collisions.push(self.lookup_collisions[i].clone());
            i = i + 1;
        }
        let mut lookup_handlers: Vec<(String, usize)> = Vec::new();
        let m = self.lookup_handlers.len();
        let mut k: usize = 0;
        while k < m
            invariant
                m == self.lookup_handlers@.len(),
                k <= m,
                lookup_handlers@.len() == k,
                forall|j: int| 0 <= j < k
                    ==> (#[trigger] lookup_handlers@[j]).0@ == (self.lookup_handlers@[j]).0@
                        && lookup_handlers@[j].1 == self.lookup_handlers@[j].1,
            decreases m - k,
        {
            let p = (self.lookup_handlers[k].0.clone(), self.lookup_handlers[k].1);
            lookup_handlers.push(p);
            k = k + 1;
        }
        let r = Keeper { lookup_collisions, lookup_handlers };
        proof {
            assert(r.spec_entries() =~= self.spec_entries());
            assert forall|h: Seq<char>| #[trigger] r.spec_collides(h) == self.spec_collides(h) by {
                if r.spec_collides(h) {
                    let idx = choose|idx: int|
                        0 <= idx < r.lookup_collisions@.len()
                            && (r.lookup_collisions@[idx])@ == h;
                    assert((self.lookup_collisions@[idx])@ == h);
                }
                if self.spec_collides(h) {
                    let idx = choose|idx: int|
                        0 <= idx < self.lookup_collisions@.len()
                            && (self.lookup_collisions@[idx])@ == h;
                    assert((r.lookup_collisions@[idx])@ == h);
                }
            }
        }
        r
    }
}

} // verus!
