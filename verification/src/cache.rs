//! The bounded per-user preference cache.
//!
//! A resident entry maps a user identity to the list of standard ids the user
//! enabled. At most [`MAX_USERS`] users are resident at once: setting an
//! entry for a new user when the cache is full first evicts one arbitrary
//! resident entry (a capacity cap, not an LRU). The durable store behind the
//! cache is an external collaborator: the surrounding program queries it on a
//! miss and hands the result to [`UserStdsCache::get`], and persists a list
//! before handing it to [`UserStdsCache::update`].
//!
//! Every operation takes the cache by exclusive reference: the surrounding
//! program keeps one handle and so serializes all cache reads, writes and
//! evictions, including the store round-trip between its two calls of a
//! miss — one critical section per operation, as the system intends.

use vstd::prelude::*;

use crate::assoc::{assoc_map, keys_unique, lemma_assoc_map_index, lemma_assoc_map_remove};
use crate::standard::Standard;

verus! {

/// The capacity cap of the cache.
pub const MAX_USERS: usize = 100;

/// A standard id is known when the registry defines it.
pub open spec fn known_id(reg: Seq<(String, Standard)>, x: Seq<char>) -> bool {
    exists|i: int| 0 <= i < reg.len() && (#[trigger] reg[i]).0@ == x
}

/// Does the registry define the id `x`?
pub fn registry_contains(registry: &Vec<(String, Standard)>, x: &String) -> (r: bool)
    ensures
        r == known_id(registry@, x@),
{
    let n = registry.len();
    let mut i: usize = 0;
    while i < n
        invariant
            n == registry.len(),
            i <= n,
            forall|j: int| 0 <= j < i ==> (#[trigger] registry@[j]).0@ != x@,
        decreases n - i,
    {
        if registry[i].0 == *x {
            assert(registry@[i as int].0@ == x@);
            return true;
        }
        i = i + 1;
    }
    false
}

/// Is `x` one of the ids listed in `v`?
pub fn ids_contain(v: &Vec<String>, x: &String) -> (r: bool)
    ensures
        r == v.deep_view().contains(x@),
{
    let n = v.len();
    let mut i: usize = 0;
    while i < n
        invariant
            n == v.len(),
            i <= n,
            forall|j: int| 0 <= j < i ==> v.deep_view()[j] != x@,
        decreases n - i,
    {
        if v[i] == *x {
            assert(v.deep_view()[i as int] == x@);
            return true;
        }
        i = i + 1;
    }
    false
}

fn clone_ids(v: &Vec<String>) -> (r: Vec<String>)
    ensures
        r.deep_view() == v.deep_view(),
{
    let r = v.clone();
    proof {
        assert forall|j: int|
            0 <= j < r.deep_view().len() implies r.deep_view()[j] == v.deep_view()[j] by {
            assert(cloned::<String>(v@[j], r@[j]));
            assert(r.deep_view()[j] == r@[j]@);
            assert(v.deep_view()[j] == v@[j]@);
        }
        assert(r.deep_view() =~= v.deep_view());
    }
    r
}

/// The stored ids that are still known, in stored order.
pub open spec fn filter_known(ids: Seq<Seq<char>>, reg: Seq<(String, Standard)>) -> Seq<Seq<char>>
    decreases ids.len(),
{
    if ids.len() == 0 {
        Seq::empty()
    } else {
        let r = filter_known(ids.drop_last(), reg);
        if known_id(reg, ids.last()) {
            r.push(ids.last())
        } else {
            r
        }
    }
}

/// Free-form input validated: unknown ids dropped, then deduplicated with the
/// first occurrence winning, order preserved.
pub open spec fn sel_spec(ids: Seq<Seq<char>>, reg: Seq<(String, Standard)>) -> Seq<Seq<char>>
    decreases ids.len(),
{
    if ids.len() == 0 {
        Seq::empty()
    } else {
        let r = sel_spec(ids.drop_last(), reg);
        if known_id(reg, ids.last()) && !r.contains(ids.last()) {
            r.push(ids.last())
        } else {
            r
        }
    }
}

/// Validate a user-given id list against the registry: drop unknown ids and
/// duplicates, keeping the caller's order (first occurrence wins).
pub fn select_stds(ids: &Vec<String>, registry: &Vec<(String, Standard)>) -> (r: Vec<String>)
    ensures
        r.deep_view() == sel_spec(ids.deep_view(), registry@),
{
    let n = ids.len();
    let mut r: Vec<String> = Vec::new();
    let mut i: usize = 0;
    while i < n
        invariant
            n == ids.len(),
            i <= n,
            r.deep_view() == sel_spec(ids.deep_view().take(i as int), registry@),
        decreases n - i,
    {
        proof {
            assert(ids.deep_view().take(i as int + 1).drop_last() =~= ids.deep_view().take(
                i as int,
            ));
            assert(ids.deep_view().take(i as int + 1).last() == ids.deep_view()[i as int]);
        }
        let x = &ids[i];
        if registry_contains(registry, x) && !ids_contain(&r, x) {
            r.push(x.clone());
            proof {
                assert(r.deep_view() =~= sel_spec(ids.deep_view().take(i as int), registry@).push(
                    ids.deep_view()[i as int],
                ));
            }
        }
        i = i + 1;
    }
    proof {
        assert(ids.deep_view().take(n as int) =~= ids.deep_view());
    }
    r
}

/// What `get` hands back on a cache miss: the default `["core"]` when the
/// store had no record, otherwise the stored list filtered to known ids.
pub open spec fn got_value(fetched: Option<Vec<String>>, reg: Seq<(String, Standard)>) -> Seq<
    Seq<char>,
> {
    match fetched {
        None => seq!["core"@],
        Some(f) => filter_known(f.deep_view(), reg),
    }
}

/// How setting the resident entry for `id` to `v` may change the cache: a
/// resident entry is replaced in place; a new entry fits while the cache is
/// under its cap; at the cap, one arbitrary other resident entry is evicted,
/// never the entry just inserted.
pub open spec fn cache_after_set(
    pre: Map<u64, Seq<Seq<char>>>,
    pre_len: nat,
    post: Map<u64, Seq<Seq<char>>>,
    post_len: nat,
    id: u64,
    v: Seq<Seq<char>>,
) -> bool {
    if pre.contains_key(id) {
        post == pre.insert(id, v) && post_len == pre_len
    } else if pre_len < MAX_USERS as nat {
        post == pre.insert(id, v) && post_len == pre_len + 1
    } else {
        exists|e: u64|
            e != id && pre.contains_key(e) && post == pre.remove(e).insert(id, v) && post_len
                == pre_len
    }
}

/// The bounded map from user identity to enabled standard ids.
pub struct UserStdsCache {
    entries: Vec<(u64, Vec<String>)>,
}

impl View for UserStdsCache {
    type V = Map<u64, Seq<Seq<char>>>;

    closed spec fn view(&self) -> Map<u64, Seq<Seq<char>>> {
        assoc_map(self.entries.deep_view())
    }
}

impl UserStdsCache {
    /// How many users are resident.
    pub closed spec fn len(&self) -> nat {
        self.entries@.len()
    }

    /// At most [`MAX_USERS`] resident entries, one per user.
    pub closed spec fn inv(&self) -> bool {
        keys_unique(self.entries.deep_view()) && self.entries@.len() <= MAX_USERS
    }

    pub fn new() -> (r: Self)
        ensures
            r.inv(),
            r@ == Map::<u64, Seq<Seq<char>>>::empty(),
            r.len() == 0,
    {
        let r = UserStdsCache { entries: Vec::new() };
        proof {
            assert(r.entries.deep_view() =~= Seq::<(u64, Seq<Seq<char>>)>::empty());
        }
        r
    }

    /// How many users are resident.
    pub fn resident_count(&self) -> (r: usize)
        ensures
            r as nat == self.len(),
    {
        self.entries.len()
    }

    /// Is this user resident?
    pub fn contains(&self, id: u64) -> (r: bool)
        requires
            self.inv(),
        ensures
            r == self@.contains_key(id),
    {
        let n = self.entries.len();
        let mut i: usize = 0;
        while i < n
            invariant
                n == self.entries.len(),
                i <= n,
                self.inv(),
                forall|j: int| 0 <= j < i ==> (#[trigger] self.entries.deep_view()[j]).0 != id,
            decreases n - i,
        {
            if self.entries[i].0 == id {
                proof {
                    lemma_assoc_map_index(self.entries.deep_view(), id);
                    assert(self.entries.deep_view()[i as int].0 == id);
                }
                return true;
            }
            i = i + 1;
        }
        proof {
            lemma_assoc_map_index(self.entries.deep_view(), id);
        }
        false
    }

    /// Set (or insert) the resident entry for `id`, evicting one other entry
    /// when a new user would exceed the cap.
    #[verifier::rlimit(60)]
    fn set_entry(&mut self, id: u64, ids: Vec<String>)
        requires
            old(self).inv(),
        ensures
            final(self).inv(),
            cache_after_set(
                old(self)@,
                old(self).len(),
                final(self)@,
                final(self).len(),
                id,
                ids.deep_view(),
            ),
    {
        let ghost ps0 = self.entries.deep_view();
        let n = self.entries.len();
        let mut i: usize = 0;
        while i < n
            invariant
                n == self.entries.len(),
                i <= n,
                self.inv(),
                *self == *old(self),
                ps0 == self.entries.deep_view(),
                forall|j: int| 0 <= j < i ==> (#[trigger] ps0[j]).0 != id,
            decreases n - i,
        {
            if self.entries[i].0 == id {
                proof {
                    assert(ps0[i as int].0 == id);
                    lemma_assoc_map_index(ps0, id);
                }
                let _ = self.entries.remove(i);
                self.entries.push((id, ids));
                proof {
                    lemma_assoc_map_remove(ps0, i as int);
                    let removed = ps0.remove(i as int);
                    assert(self.entries.deep_view().drop_last() =~= removed);
                    assert(self.entries.deep_view().last() == (id, ids.deep_view()));
                    assert(assoc_map(self.entries.deep_view()) == assoc_map(removed).insert(
                        id,
                        ids.deep_view(),
                    ));
                    assert(assoc_map(removed).insert(id, ids.deep_view()) =~= assoc_map(
                        ps0,
                    ).insert(id, ids.deep_view()));
                    lemma_unique_after_replace(ps0, removed, self.entries.deep_view(), i as int, id);
                }
                return ;
            }
            i = i + 1;
        }
        proof {
            lemma_assoc_map_index(ps0, id);
        }
        if self.entries.len() >= MAX_USERS {
            let ghost pre = assoc_map(ps0);
            let victim = self.entries.remove(0);
            let ghost e = ps0[0].0;
            proof {
                lemma_assoc_map_remove(ps0, 0);
                assert(ps0[0].0 != id);
                lemma_assoc_map_index(ps0, e);
                assert(pre.contains_key(e));
            }
            let ghost ps1 = self.entries.deep_view();
            proof {
                assert(ps1 =~~= ps0.remove(0));
            }
            self.entries.push((id, ids));
            proof {
                assert(self.entries.deep_view().drop_last() =~~= ps1);
                assert(self.entries.deep_view().last() == (id, ids.deep_view()));
                lemma_push_fresh(ps1, self.entries.deep_view(), id);
                assert forall|j: int| 0 <= j < ps1.len() implies (#[trigger] ps1[j]).0 != id by {
                    assert(ps1[j] == ps0[j + 1]);
                }
                assert(assoc_map(self.entries.deep_view()) == assoc_map(ps1).insert(
                    id,
                    ids.deep_view(),
                ));
                assert(assoc_map(ps1) == pre.remove(e));
                assert(e != id && pre.contains_key(e) && assoc_map(self.entries.deep_view())
                    == pre.remove(e).insert(id, ids.deep_view()));
            }
        } else {
            self.entries.push((id, ids));
            proof {
                assert(self.entries.deep_view().drop_last() =~= ps0);
                assert(self.entries.deep_view().last() == (id, ids.deep_view()));
                lemma_push_fresh(ps0, self.entries.deep_view(), id);
            }
        }
    }

    /// Look the user up; on a miss, admit what the store returned (validated
    /// against the registry, or the default `["core"]`), cache it, and return
    /// it. A resident user's list is returned as it is and the cache does not
    /// change, whatever `fetched` holds.
    pub fn get(
        &mut self,
        id: u64,
        fetched: Option<Vec<String>>,
        registry: &Vec<(String, Standard)>,
    ) -> (r: Vec<String>)
        requires
            old(self).inv(),
        ensures
            final(self).inv(),
            old(self)@.contains_key(id) ==> r.deep_view() == old(self)@[id] && final(self)@ == old(
                self,
            )@ && final(self).len() == old(self).len(),
            !old(self)@.contains_key(id) ==> r.deep_view() == got_value(fetched, registry@)
                && cache_after_set(
                old(self)@,
                old(self).len(),
                final(self)@,
                final(self).len(),
                id,
                r.deep_view(),
            ),
    {
        let ghost ps0 = self.entries.deep_view();
        let n = self.entries.len();
        let mut i: usize = 0;
        while i < n
            invariant
                n == self.entries.len(),
                i <= n,
                self.inv(),
                *self == *old(self),
                ps0 == self.entries.deep_view(),
                forall|j: int| 0 <= j < i ==> (#[trigger] ps0[j]).0 != id,
            decreases n - i,
        {
            if self.entries[i].0 == id {
                proof {
                    assert(ps0[i as int].0 == id);
                    lemma_assoc_map_index(ps0, id);
                }
                return clone_ids(&self.entries[i].1);
            }
            i = i + 1;
        }
        proof {
            lemma_assoc_map_index(ps0, id);
        }
        let value: Vec<String> = match fetched {
            None => {
                let mut v: Vec<String> = Vec::new();
                v.push(String::from_str("core"));
                proof {
                    assert(v.deep_view() =~= seq!["core"@]);
                }
                v
            },
            Some(f) => {
                let m = f.len();
                let mut v: Vec<String> = Vec::new();
                let mut k: usize = 0;
                while k < m
                    invariant
                        m == f.len(),
                        k <= m,
                        v.deep_view() == filter_known(f.deep_view().take(k as int), registry@),
                    decreases m - k,
                {
                    proof {
                        assert(f.deep_view().take(k as int + 1).drop_last() =~= f.deep_view().take(
                            k as int,
                        ));
                        assert(f.deep_view().take(k as int + 1).last() == f.deep_view()[k as int]);
                    }
                    if registry_contains(registry, &f[k]) {
                        v.push(f[k].clone());
                        proof {
                            assert(v.deep_view() =~= filter_known(
                                f.deep_view().take(k as int),
                                registry@,
                            ).push(f.deep_view()[k as int]));
                        }
                    }
                    k = k + 1;
                }
                proof {
                    assert(f.deep_view().take(m as int) =~= f.deep_view());
                }
                v
            },
        };
        let r = clone_ids(&value);
        self.set_entry(id, value);
        r
    }

    /// Replace the user's resident entry with a validated, deduplicated list
    /// that the caller has already persisted.
    pub fn update(&mut self, id: u64, to: Vec<String>)
        requires
            old(self).inv(),
        ensures
            final(self).inv(),
            cache_after_set(
                old(self)@,
                old(self).len(),
                final(self)@,
                final(self).len(),
                id,
                to.deep_view(),
            ),
    {
        self.set_entry(id, to);
    }

    /// Drop the user's resident entry, if any. Deleting an unknown user
    /// changes nothing; no other user's entry is touched either way.
    pub fn delete(&mut self, id: u64)
        requires
            old(self).inv(),
        ensures
            final(self).inv(),
            final(self)@ == old(self)@.remove(id),
            old(self)@.contains_key(id) ==> final(self).len() == old(self).len() - 1,
            !old(self)@.contains_key(id) ==> final(self)@ == old(self)@ && final(self).len() == old(
                self,
            ).len(),
    {
        let ghost ps0 = self.entries.deep_view();
        let n = self.entries.len();
        let mut i: usize = 0;
        while i < n
            invariant
                n == self.entries.len(),
                i <= n,
                self.inv(),
                *self == *old(self),
                ps0 == self.entries.deep_view(),
                forall|j: int| 0 <= j < i ==> (#[trigger] ps0[j]).0 != id,
            decreases n - i,
        {
            if self.entries[i].0 == id {
                proof {
                    assert(ps0[i as int].0 == id);
                    lemma_assoc_map_index(ps0, id);
                    lemma_assoc_map_remove(ps0, i as int);
                }
                let _ = self.entries.remove(i);
                proof {
                    assert(self.entries.deep_view() =~~= ps0.remove(i as int));
                }
                return ;
            }
            i = i + 1;
        }
        proof {
            lemma_assoc_map_index(ps0, id);
            assert(self@.remove(id) =~= self@);
        }
    }
}

impl Default for UserStdsCache {
    /// An empty cache.
    fn default() -> (r: Self)
        ensures
            r.inv(),
            r@ == Map::<u64, Seq<Seq<char>>>::empty(),
            r.len() == 0,
    {
        UserStdsCache::new()
    }
}

/// A set entry is visible at once: after any transition that
/// [`cache_after_set`] permits, the user is resident with exactly the given
/// list, so a lookup right after an update returns that list unchanged, with
/// no call to the store.
pub proof fn lemma_set_then_get(
    pre: Map<u64, Seq<Seq<char>>>,
    pre_len: nat,
    post: Map<u64, Seq<Seq<char>>>,
    post_len: nat,
    id: u64,
    v: Seq<Seq<char>>,
)
    requires
        cache_after_set(pre, pre_len, post, post_len, id, v),
    ensures
        post.contains_key(id),
        post[id] == v,
{
    if !pre.contains_key(id) && pre_len >= MAX_USERS as nat {
        let e = choose|e: u64|
            e != id && pre.contains_key(e) && post == pre.remove(e).insert(id, v) && post_len
                == pre_len;
        assert(post == pre.remove(e).insert(id, v));
    }
}

/// Entering a new user into a full cache keeps exactly the cap resident: one
/// other user leaves, and the one just inserted never does.
pub proof fn lemma_eviction_cap(
    pre: Map<u64, Seq<Seq<char>>>,
    pre_len: nat,
    post: Map<u64, Seq<Seq<char>>>,
    post_len: nat,
    id: u64,
    v: Seq<Seq<char>>,
)
    requires
        cache_after_set(pre, pre_len, post, post_len, id, v),
        !pre.contains_key(id),
        pre_len == MAX_USERS as nat,
    ensures
        post_len == MAX_USERS as nat,
        post.contains_key(id),
        post[id] == v,
        exists|e: u64| e != id && pre.contains_key(e) && !post.contains_key(e),
{
    let e = choose|e: u64|
        e != id && pre.contains_key(e) && post == pre.remove(e).insert(id, v) && post_len
            == pre_len;
    assert(post == pre.remove(e).insert(id, v));
    assert(e != id && pre.contains_key(e) && !post.contains_key(e));
}

/// Replacing the pair at `i` by one with the same key, moved to the end,
/// keeps the keys unique.
proof fn lemma_unique_after_replace(
    ps0: Seq<(u64, Seq<Seq<char>>)>,
    removed: Seq<(u64, Seq<Seq<char>>)>,
    ps1: Seq<(u64, Seq<Seq<char>>)>,
    i: int,
    id: u64,
)
    requires
        keys_unique(ps0),
        0 <= i < ps0.len(),
        ps0[i].0 == id,
        removed == ps0.remove(i),
        ps1.len() == removed.len() + 1,
        ps1.drop_last() == removed,
        ps1.last().0 == id,
    ensures
        keys_unique(ps1),
{
    assert forall|a: int, b: int| 0 <= a < b < ps1.len() implies (#[trigger] ps1[a]).0 != (
    #[trigger] ps1[b]).0 by {
        if b < ps1.len() - 1 {
            assert(ps1[a] == removed[a]);
            assert(ps1[b] == removed[b]);
            let a0 = if a < i {
                a
            } else {
                a + 1
            };
            let b0 = if b < i {
                b
            } else {
                b + 1
            };
            assert(removed[a] == ps0[a0]);
            assert(removed[b] == ps0[b0]);
        } else {
            assert(ps1[b] == ps1.last());
            assert(ps1[a] == removed[a]);
            let a0 = if a < i {
                a
            } else {
                a + 1
            };
            assert(removed[a] == ps0[a0]);
            if a0 != i {
                assert(ps0[a0].0 != ps0[i].0);
            }
        }
    }
}

/// Appending a pair whose key occurs nowhere keeps the keys unique.
proof fn lemma_push_fresh(
    ps: Seq<(u64, Seq<Seq<char>>)>,
    ps1: Seq<(u64, Seq<Seq<char>>)>,
    id: u64,
)
    requires
        keys_unique(ps),
        ps1.len() == ps.len() + 1,
        ps1.drop_last() == ps,
        ps1.last().0 == id,
        forall|j: int| 0 <= j < ps.len() ==> (#[trigger] ps[j]).0 != id,
    ensures
        keys_unique(ps1),
{
    assert forall|a: int, b: int| 0 <= a < b < ps1.len() implies (#[trigger] ps1[a]).0 != (
    #[trigger] ps1[b]).0 by {
        if b < ps1.len() - 1 {
            assert(ps1[a] == ps[a]);
            assert(ps1[b] == ps[b]);
        } else {
            assert(ps1[a] == ps[a]);
            assert(ps1[b] == ps1.last());
        }
    }
}

} // verus!

