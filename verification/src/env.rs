//! The environment mapping of a composition: an insertion-ordered list of
//! `name = value` pairs with unique names.

use vstd::prelude::*;

verus! {

/// Index of the entry whose key is `k`, or -1 when no entry has it.
pub open spec fn env_key_index(s: Seq<(Seq<char>, Seq<char>)>, k: Seq<char>) -> int
    decreases s.len(),
{
    if s.len() == 0 {
        -1
    } else if s[0].0 == k {
        0
    } else {
        let r = env_key_index(s.drop_first(), k);
        if r < 0 {
            -1
        } else {
            r + 1
        }
    }
}

/// The value bound to `k`, if any.
pub open spec fn env_lookup(s: Seq<(Seq<char>, Seq<char>)>, k: Seq<char>) -> Option<Seq<char>> {
    let i = env_key_index(s, k);
    if i < 0 {
        None
    } else {
        Some(s[i].1)
    }
}

/// Binds `k` to `v`: overwrites the existing entry in place, or appends
/// a new entry at the end.
pub open spec fn env_upsert(
    s: Seq<(Seq<char>, Seq<char>)>,
    k: Seq<char>,
    v: Seq<char>,
) -> Seq<(Seq<char>, Seq<char>)> {
    let i = env_key_index(s, k);
    if i < 0 {
        s.push((k, v))
    } else {
        s.update(i, (k, v))
    }
}

/// No two entries share a key.
pub open spec fn env_unique_keys(s: Seq<(Seq<char>, Seq<char>)>) -> bool {
    forall|i: int, j: int| 0 <= i < j < s.len() ==> (#[trigger] s[i]).0 != (#[trigger] s[j]).0
}

/// `env_key_index` finds exactly the first entry with the given key.
pub proof fn lemma_env_key_index(s: Seq<(Seq<char>, Seq<char>)>, k: Seq<char>)
    ensures
        env_key_index(s, k) == -1 ==> (forall|j: int| 0 <= j < s.len() ==> (#[trigger] s[j]).0 != k),
        env_key_index(s, k) != -1 ==> {
            let i = env_key_index(s, k);
            &&& 0 <= i < s.len()
            &&& s[i].0 == k
            &&& forall|j: int| 0 <= j < i ==> (#[trigger] s[j]).0 != k
        },
    decreases s.len(),
{
    if s.len() > 0 && s[0].0 != k {
        let d = s.drop_first();
        lemma_env_key_index(d, k);
        let r = env_key_index(d, k);
        if r == -1 {
            assert forall|j: int| 0 <= j < s.len() implies (#[trigger] s[j]).0 != k by {
                if j > 0 {
                    assert(d[j - 1] == s[j]);
                }
            }
        } else {
            assert(s[r + 1] == d[r]);
            assert forall|j: int| 0 <= j < r + 1 implies (#[trigger] s[j]).0 != k by {
                if j > 0 {
                    assert(d[j - 1] == s[j]);
                }
            }
        }
    }
}

/// Upserting preserves key uniqueness.
pub proof fn lemma_env_upsert_unique(s: Seq<(Seq<char>, Seq<char>)>, k: Seq<char>, v: Seq<char>)
    requires
        env_unique_keys(s),
    ensures
        env_unique_keys(env_upsert(s, k, v)),
{
    lemma_env_key_index(s, k);
}

/// Upserting binds `k` to `v` and touches no other key.
pub proof fn lemma_env_upsert_lookup(
    s: Seq<(Seq<char>, Seq<char>)>,
    k: Seq<char>,
    v: Seq<char>,
    other: Seq<char>,
)
    ensures
        env_lookup(env_upsert(s, k, v), k) == Some(v),
        other != k ==> env_lookup(env_upsert(s, k, v), other) == env_lookup(s, other),
{
    lemma_env_key_index(s, k);
    let s1 = env_upsert(s, k, v);
    lemma_env_key_index(s1, k);
    lemma_env_key_index(s1, other);
    lemma_env_key_index(s, other);
    let i = env_key_index(s, k);
    if i < 0 {
        assert(s1[s.len() as int].0 == k);
        assert(env_key_index(s1, k) == s.len());
        if other != k {
            let io = env_key_index(s, other);
            if io >= 0 {
                assert(s1[io].0 == other);
            } else {
                if env_key_index(s1, other) >= 0 {
                    let io1 = env_key_index(s1, other);
                    assert(s1[io1].0 == other);
                    assert(io1 != s.len());
                    assert(s[io1].0 == other);
                }
            }
        }
    } else {
        assert(s1[i].0 == k);
        assert(env_key_index(s1, k) == i);
        if other != k {
            let io = env_key_index(s, other);
            if io >= 0 {
                assert(s1[io].0 == other);
                assert(env_key_index(s1, other) == io);
                assert(s1[io].1 == s[io].1);
            } else {
                if env_key_index(s1, other) >= 0 {
                    let io1 = env_key_index(s1, other);
                    assert(s1[io1].0 == other);
                    assert(s[io1].0 == other);
                }
            }
        }
    }
}


/// Applies a list of bindings in order.
pub open spec fn env_upsert_all(
    env: Seq<(Seq<char>, Seq<char>)>,
    ps: Seq<(Seq<char>, Seq<char>)>,
) -> Seq<(Seq<char>, Seq<char>)>
    decreases ps.len(),
{
    if ps.len() == 0 {
        env
    } else {
        env_upsert(env_upsert_all(env, ps.drop_last()), ps.last().0, ps.last().1)
    }
}

/// The value a binding list leaves for `k`: that of its last pair with
/// key `k`, if it has one.
pub open spec fn pairs_lookup(ps: Seq<(Seq<char>, Seq<char>)>, k: Seq<char>) -> Option<Seq<char>>
    decreases ps.len(),
{
    if ps.len() == 0 {
        None
    } else if ps.last().0 == k {
        Some(ps.last().1)
    } else {
        pairs_lookup(ps.drop_last(), k)
    }
}

/// A key that appears in the list is bound by it.
pub proof fn lemma_pairs_lookup_member(ps: Seq<(Seq<char>, Seq<char>)>, j: int)
    requires
        0 <= j < ps.len(),
    ensures
        pairs_lookup(ps, ps[j].0) is Some,
    decreases ps.len(),
{
    if ps.last().0 != ps[j].0 {
        assert(j < ps.len() - 1);
        assert(ps.drop_last()[j] == ps[j]);
        lemma_pairs_lookup_member(ps.drop_last(), j);
    }
}

/// After applying a binding list, a key reads as the list's last value
/// for it, or as before when the list never binds it.
pub proof fn lemma_env_upsert_all_lookup(
    env: Seq<(Seq<char>, Seq<char>)>,
    ps: Seq<(Seq<char>, Seq<char>)>,
    k: Seq<char>,
)
    ensures
        env_lookup(env_upsert_all(env, ps), k) == (match pairs_lookup(ps, k) {
            Some(v) => Some(v),
            None => env_lookup(env, k),
        }),
    decreases ps.len(),
{
    if ps.len() > 0 {
        lemma_env_upsert_all_lookup(env, ps.drop_last(), k);
        lemma_env_upsert_lookup(
            env_upsert_all(env, ps.drop_last()),
            ps.last().0,
            ps.last().1,
            k,
        );
    }
}

/// Applying a binding list preserves key uniqueness.
pub proof fn lemma_env_upsert_all_unique(
    env: Seq<(Seq<char>, Seq<char>)>,
    ps: Seq<(Seq<char>, Seq<char>)>,
)
    requires
        env_unique_keys(env),
    ensures
        env_unique_keys(env_upsert_all(env, ps)),
    decreases ps.len(),
{
    if ps.len() > 0 {
        lemma_env_upsert_all_unique(env, ps.drop_last());
        lemma_env_upsert_unique(env_upsert_all(env, ps.drop_last()), ps.last().0, ps.last().1);
    }
}

/// With unique keys, each position is the first holding its key.
pub proof fn lemma_env_key_index_unique(s: Seq<(Seq<char>, Seq<char>)>, p: int)
    requires
        env_unique_keys(s),
        0 <= p < s.len(),
    ensures
        env_key_index(s, s[p].0) == p,
{
    lemma_env_key_index(s, s[p].0);
    let idx = env_key_index(s, s[p].0);
    if idx == -1 {
        assert(s[p].0 == s[p].0);
    } else if idx < p {
        assert(s[idx].0 != s[p].0);
    } else if idx > p {
        assert(s[p].0 != s[p].0);
    }
}

/// Applying bindings whose keys are all present only updates in place:
/// the length and the key at every position are untouched.
pub proof fn lemma_env_upsert_all_shape(
    env: Seq<(Seq<char>, Seq<char>)>,
    ps: Seq<(Seq<char>, Seq<char>)>,
)
    requires
        env_unique_keys(env),
        forall|j: int| 0 <= j < ps.len() ==> env_lookup(env, (#[trigger] ps[j]).0) is Some,
    ensures
        env_upsert_all(env, ps).len() == env.len(),
        forall|p: int|
            0 <= p < env.len() ==> (#[trigger] env_upsert_all(env, ps)[p]).0 == env[p].0,
    decreases ps.len(),
{
    if ps.len() > 0 {
        let qs = ps.drop_last();
        assert(forall|j: int| 0 <= j < qs.len() ==> #[trigger] qs[j] == ps[j]);
        lemma_env_upsert_all_shape(env, qs);
        let a = env_upsert_all(env, qs);
        let k = ps.last().0;
        lemma_env_upsert_all_lookup(env, qs, k);
        assert(env_lookup(env, k) is Some);
        lemma_env_key_index(a, k);
        assert(env_lookup(a, k) is Some);
        let idx = env_key_index(a, k);
        assert(0 <= idx < a.len() && a[idx].0 == k);
        assert(env_upsert_all(env, ps) == a.update(idx, (k, ps.last().1)));
    }
}

/// Applying the same binding list twice is the same as applying it
/// once.
pub proof fn lemma_env_upsert_all_idempotent(
    env: Seq<(Seq<char>, Seq<char>)>,
    ps: Seq<(Seq<char>, Seq<char>)>,
)
    requires
        env_unique_keys(env),
    ensures
        env_upsert_all(env_upsert_all(env, ps), ps) == env_upsert_all(env, ps),
{
    let f = env_upsert_all(env, ps);
    let g = env_upsert_all(f, ps);
    lemma_env_upsert_all_unique(env, ps);
    assert forall|j: int| 0 <= j < ps.len() implies env_lookup(f, (#[trigger] ps[j]).0)
        is Some by {
        lemma_pairs_lookup_member(ps, j);
        lemma_env_upsert_all_lookup(env, ps, ps[j].0);
    }
    lemma_env_upsert_all_shape(f, ps);
    lemma_env_upsert_all_unique(f, ps);
    assert forall|p: int| 0 <= p < f.len() implies #[trigger] g[p] == f[p] by {
        let k = f[p].0;
        assert(g[p].0 == k);
        lemma_env_key_index_unique(f, p);
        assert(env_lookup(f, k) == Some(f[p].1));
        lemma_env_key_index_unique(g, p);
        assert(env_lookup(g, k) == Some(g[p].1));
        lemma_env_upsert_all_lookup(f, ps, k);
        match pairs_lookup(ps, k) {
            Some(v) => {
                lemma_env_upsert_all_lookup(env, ps, k);
                assert(env_lookup(f, k) == Some(v));
                assert(env_lookup(g, k) == Some(v));
            },
            None => {
                assert(env_lookup(g, k) == env_lookup(f, k));
            },
        }
    }
    assert(g =~= f);
}

/// An insertion-ordered environment mapping with unique names.
pub struct EnvMap {
    entries: Vec<(String, String)>,
}

impl View for EnvMap {
    type V = Seq<(Seq<char>, Seq<char>)>;

    closed spec fn view(&self) -> Seq<(Seq<char>, Seq<char>)> {
        self.entries@.map_values(|p: (String, String)| (p.0@, p.1@))
    }
}

impl EnvMap {
    /// The names are unique.
    pub open spec fn wf(&self) -> bool {
        env_unique_keys(self@)
    }

    /// An empty mapping.
    pub fn new() -> (r: EnvMap)
        ensures
            r@ == Seq::<(Seq<char>, Seq<char>)>::empty(),
            r.wf(),
    {
        let r = EnvMap { entries: Vec::new() };
        proof {
            assert(r@ =~= Seq::<(Seq<char>, Seq<char>)>::empty());
        }
        r
    }

    /// Number of bindings.
    pub fn len(&self) -> (r: usize)
        ensures
            r == self@.len(),
    {
        self.entries.len()
    }

    /// The binding at position `i`, in insertion order.
    pub fn entry_at(&self, i: usize) -> (r: (&String, &String))
        requires
            i < self@.len(),
        ensures
            r.0@ == self@[i as int].0,
            r.1@ == self@[i as int].1,
    {
        let p = &self.entries[i];
        (&p.0, &p.1)
    }

    /// The value bound to `key`, if any.
    pub fn get(&self, key: &String) -> (r: Option<&String>)
        requires
            self.wf(),
        ensures
            match r {
                Some(v) => env_lookup(self@, key@) == Some(v@),
                None => env_lookup(self@, key@) is None,
            },
    {
        let n = self.entries.len();
        let mut i: usize = 0;
        while i < n
            invariant
                n == self@.len(),
                i <= n,
                forall|j: int| 0 <= j < i ==> (#[trigger] self@[j]).0 != key@,
            decreases n - i,
        {
            if crate::text::string_eq(&self.entries[i].0, key) {
                proof {
                    assert(self@[i as int].0 == self.entries@[i as int].0@);
                    lemma_env_key_index(self@, key@);
                    assert(env_key_index(self@, key@) == i);
                }
                return Some(&self.entries[i].1);
            }
            i = i + 1;
        }
        proof {
            lemma_env_key_index(self@, key@);
        }
        None
    }

    /// Binds `key` to `value`. Returns the value the key had before, if
    /// it was already bound (that binding is overwritten in place).
    pub fn insert(&mut self, key: String, value: String) -> (prev: Option<String>)
        requires
            old(self).wf(),
        ensures
            final(self).wf(),
            final(self)@ == env_upsert(old(self)@, key@, value@),
            match prev {
                Some(p) => env_lookup(old(self)@, key@) == Some(p@),
                None => env_lookup(old(self)@, key@) is None,
            },
    {
        let n = self.entries.len();
        let mut i: usize = 0;
        while i < n
            invariant
                self@ == old(self)@,
                old(self).wf(),
                n == self@.len(),
                i <= n,
                forall|j: int| 0 <= j < i ==> (#[trigger] self@[j]).0 != key@,
            decreases n - i,
        {
            if crate::text::string_eq(&self.entries[i].0, &key) {
                proof {
                    assert(self@[i as int].0 == self.entries@[i as int].0@);
                    lemma_env_key_index(self@, key@);
                    assert(env_key_index(self@, key@) == i);
                    lemma_env_upsert_unique(self@, key@, value@);
                }
                let ghost old_view = self@;
                let prev = self.entries[i].1.clone();
                self.entries[i] = (key, value);
                proof {
                    assert(self@ =~= env_upsert(old_view, key@, value@));
                }
                return Some(prev);
            }
            i = i + 1;
        }
        let ghost old_view = self@;
        proof {
            lemma_env_key_index(old_view, key@);
            lemma_env_upsert_unique(old_view, key@, value@);
        }
        self.entries.push((key, value));
        proof {
            assert(env_key_index(old_view, key@) == -1);
            assert(self@ =~= env_upsert(old_view, key@, value@));
        }
        None
    }
}

impl Clone for EnvMap {
    fn clone(&self) -> (r: Self)
        ensures
            r@ == self@,
            r.wf() == self.wf(),
    {
        let mut entries: Vec<(String, String)> = Vec::new();
        let n = self.entries.len();
        let mut i: usize = 0;
        while i < n
            invariant
                n == self@.len(),
                i <= n,
                entries@.len() == i,
                forall|j: int| 0 <= j < i
                    ==> (#[trigger] entries@[j]).0@ == self@[j].0 && entries@[j].1@ == self@[j].1,
            decreases n - i,
        {
            let k = self.entries[i].0.clone();
            let v = self.entries[i].1.clone();
            entries.push((k, v));
            i = i + 1;
        }
        let r = EnvMap { entries };
        proof {
            assert(r@ =~= self@);
        }
        r
    }
}

} // verus!
