use vstd::prelude::*;
use vstd::set_lib::lemma_len_subset;
use vstd::set_lib::lemma_int_range;
use vstd::set_lib::set_int_range;

verus! {

/// Bidirectional table between surrogate primary keys and natural keys,
/// backed by `bimap::BiMap<i32, String>`. Verus sees the table only as
/// the mapping `key_map_view` and through the trusted methods below,
/// each of which relies on the corresponding `bimap::BiHashMap` method.
#[verifier::external_body]
pub struct KeyMap {
    table: bimap::BiMap<i32, String>,
}

/// What a `KeyMap` holds: surrogate key on the left, natural key on the
/// right.
pub uninterp spec fn key_map_view(m: KeyMap) -> Map<int, Seq<char>>;

/// The mapping of a table that holds no pairs.
pub open spec fn empty_key_map() -> Map<int, Seq<char>> {
    Map::empty()
}

impl View for KeyMap {
    type V = Map<int, Seq<char>>;

    open spec fn view(&self) -> Map<int, Seq<char>> {
        key_map_view(*self)
    }
}

impl KeyMap {
    /// Relies on `bimap::BiHashMap::new`: a freshly created bimap holds
    /// no pairs.
    #[verifier::external_body]
    pub fn new() -> (m: KeyMap)
        ensures
            m@ == empty_key_map(),
    {
        KeyMap { table: bimap::BiMap::new() }
    }

    /// Relies on `bimap::BiHashMap::contains_left`: whether some pair
    /// holds the given left (surrogate) value.
    #[verifier::external_body]
    pub fn contains_key(&self, key: i32) -> (r: bool)
        ensures
            r == key_map_view(*self).dom().contains(key as int),
    {
        self.table.contains_left(&key)
    }

    /// Relies on `bimap::BiHashMap::get_by_right`: the left value of the
    /// pair holding the given right (natural) value, if there is one.
    #[verifier::external_body]
    pub fn get_by_right(&self, natural: &String) -> (r: Option<i32>)
        ensures
            match r {
                Some(k) => key_map_view(*self).dom().contains(k as int)
                    && key_map_view(*self)[k as int] == natural@,
                None => forall|j: int|
                    key_map_view(*self).dom().contains(j) ==> key_map_view(*self)[j] != natural@,
            },
    {
        self.table.get_by_right(natural).copied()
    }

    /// Relies on `bimap::BiHashMap::insert`: when neither side of the
    /// pair collides with an existing pair, nothing is overwritten and
    /// the pair is added.
    #[verifier::external_body]
    pub fn insert(&mut self, key: i32, natural: String)
        requires
            !key_map_view(*old(self)).dom().contains(key as int),
            forall|j: int|
                key_map_view(*old(self)).dom().contains(j)
                    ==> key_map_view(*old(self))[j] != natural@,
        ensures
            key_map_view(*final(self)) == key_map_view(*old(self)).insert(key as int, natural@),
    {
        self.table.insert(key, natural);
    }

    /// Relies on `bimap::BiHashMap::iter`: the iterator yields every pair
    /// exactly once, in no promised order.
    #[verifier::external_body]
    pub fn pairs(&self) -> (r: Vec<(i32, String)>)
        ensures
            r@.len() == key_map_view(*self).dom().len(),
            forall|i: int|
                0 <= i < r@.len()
                    ==> key_map_view(*self).dom().contains(#[trigger] r@[i].0 as int)
                    && key_map_view(*self)[r@[i].0 as int] == r@[i].1@,
            forall|k: int|
                key_map_view(*self).dom().contains(k)
                    ==> exists|i: int| 0 <= i < r@.len() && #[trigger] r@[i].0 as int == k,
    {
        self.table.iter().map(|(k, v)| (*k, v.clone())).collect()
    }
}

/// In-memory allocator of dense surrogate primary keys.
///
/// The table is a true bijection: no two surrogates name the same
/// natural key and no two natural keys share a surrogate. `next_key`
/// always points at the smallest non-negative surrogate not yet used,
/// so freshly allocated keys fill the gaps first and stay densely
/// packed.
pub struct KeyTracker {
    pub bimap: KeyMap,
    pub next_key: i32,
}

impl View for KeyTracker {
    type V = Map<int, Seq<char>>;

    open spec fn view(&self) -> Map<int, Seq<char>> {
        self.bimap@
    }
}

/// No two surrogates map to the same natural key.
pub open spec fn injective(m: Map<int, Seq<char>>) -> bool {
    forall|j: int, k: int|
        #![trigger m.dom().contains(j), m.dom().contains(k)]
        m.dom().contains(j) && m.dom().contains(k) && j != k ==> m[j] != m[k]
}

/// `next` is the smallest non-negative integer that is not a surrogate
/// of `m`.
pub open spec fn lowest_free_at(m: Map<int, Seq<char>>, next: int) -> bool {
    &&& forall|j: int| 0 <= j < next ==> m.dom().contains(j)
    &&& !m.dom().contains(next)
}

/// Whether some surrogate of `m` maps to the natural key `v`.
pub open spec fn map_has_value(m: Map<int, Seq<char>>, v: Seq<char>) -> bool {
    exists|k: int| m.dom().contains(k) && m[k] == v
}

/// The surrogate of `m` that maps to `v`; meaningful when `m` is
/// injective and holds `v`.
pub open spec fn key_of_value(m: Map<int, Seq<char>>, v: Seq<char>) -> int {
    choose|k: int| m.dom().contains(k) && m[k] == v
}

/// The smallest non-negative integer that is not a surrogate of `m`;
/// meaningful when such an integer exists (any finite `m`).
pub open spec fn lowest_free(m: Map<int, Seq<char>>) -> int {
    choose|k: int| 0 <= k && lowest_free_at(m, k)
}

/// The surrogate that resolving `v` against `m` hands back: the
/// existing one when `v` is already mapped, the lowest free one
/// otherwise.
pub open spec fn resolve_key(m: Map<int, Seq<char>>, v: Seq<char>) -> int {
    if map_has_value(m, v) {
        key_of_value(m, v)
    } else {
        lowest_free(m)
    }
}

/// The mapping after resolving `v` against `m`: unchanged when `v` is
/// already mapped, extended at the lowest free surrogate otherwise.
pub open spec fn resolve_map(m: Map<int, Seq<char>>, v: Seq<char>) -> Map<int, Seq<char>> {
    if map_has_value(m, v) {
        m
    } else {
        m.insert(lowest_free(m), v)
    }
}

/// Two lowest-free cursors of one mapping agree.
pub proof fn lemma_lowest_free_unique(m: Map<int, Seq<char>>, a: int, b: int)
    requires
        0 <= a,
        0 <= b,
        lowest_free_at(m, a),
        lowest_free_at(m, b),
    ensures
        a == b,
{
    if a < b {
        assert(m.dom().contains(a));
    }
    if b < a {
        assert(m.dom().contains(b));
    }
}

impl KeyTracker {
    /// The tracker's invariant: a finite bijective table whose cursor
    /// sits on the lowest free surrogate.
    pub open spec fn wf(self) -> bool {
        &&& self@.dom().finite()
        &&& injective(self@)
        &&& 0 <= self.next_key
        &&& lowest_free_at(self@, self.next_key as int)
    }

    /// Finds the lowest available key, starting from 0.
    pub fn calc_lowest_key(map: &KeyMap) -> (k: i32)
        requires
            key_map_view(*map).dom().finite(),
            key_map_view(*map).dom().len() < i32::MAX as nat,
        ensures
            0 <= k,
            lowest_free_at(key_map_view(*map), k as int),
    {
        let mut next: i32 = 0;
        while map.contains_key(next)
            invariant
                0 <= next,
                map@.dom().finite(),
                map@.dom().len() < i32::MAX as nat,
                forall|j: int| 0 <= j < next ==> map@.dom().contains(j),
                next <= map@.dom().len(),
            decreases map@.dom().len() - next,
        {
            proof {
                lemma_prefix_used_bounds(map@, next as int + 1);
            }
            next = next + 1;
        }
        next
    }

    /// Turn a loaded key table into a tracker whose cursor already sits
    /// on the lowest free surrogate.
    pub fn from(bimap: KeyMap) -> (t: KeyTracker)
        requires
            key_map_view(bimap).dom().finite(),
            injective(key_map_view(bimap)),
            key_map_view(bimap).dom().len() < i32::MAX as nat,
        ensures
            t@ == key_map_view(bimap),
            t.wf(),
    {
        let starting_key = Self::calc_lowest_key(&bimap);
        KeyTracker { bimap, next_key: starting_key }
    }

    /// Advance the cursor past every used surrogate.
    pub fn calc_next_key(&mut self)
        requires
            old(self)@.dom().finite(),
            old(self)@.dom().len() < i32::MAX as nat,
            0 <= old(self).next_key,
            forall|j: int| 0 <= j < old(self).next_key ==> old(self)@.dom().contains(j),
        ensures
            final(self).bimap == old(self).bimap,
            old(self).next_key <= final(self).next_key,
            lowest_free_at(final(self)@, final(self).next_key as int),
    {
        proof {
            lemma_prefix_used_bounds(old(self)@, old(self).next_key as int);
        }
        while self.bimap.contains_key(self.next_key)
            invariant
                0 <= self.next_key,
                self.bimap == old(self).bimap,
                old(self).next_key <= self.next_key,
                self@.dom().finite(),
                self@.dom().len() < i32::MAX as nat,
                forall|j: int| 0 <= j < self.next_key ==> self@.dom().contains(j),
                self.next_key <= self@.dom().len(),
            decreases self@.dom().len() - self.next_key,
        {
            proof {
                lemma_prefix_used_bounds(self@, self.next_key as int + 1);
            }
            self.next_key = self.next_key + 1;
        }
    }

    /// A borrow of the current lowest free surrogate.
    pub fn see_next_key(&self) -> (k: &i32)
        ensures
            *k == self.next_key,
    {
        &self.next_key
    }

    /// Resolve a natural key to its surrogate.
    ///
    /// If the natural key is already mapped, its surrogate is returned
    /// and nothing changes; otherwise the lowest free surrogate is
    /// assigned to it and the cursor moves past the next gap.
    pub fn transact(&mut self, value: String) -> (key: i32)
        requires
            old(self).wf(),
            old(self)@.dom().len() + 1 < i32::MAX as nat,
        ensures
            final(self).wf(),
            final(self)@.dom().contains(key as int) && final(self)@[key as int] == value@,
            key as int == resolve_key(old(self)@, value@),
            final(self)@ == resolve_map(old(self)@, value@),
            map_has_value(old(self)@, value@) ==> *final(self) == *old(self),
            !map_has_value(old(self)@, value@) ==> key == old(self).next_key,
    {
        match self.bimap.get_by_right(&value) {
            Some(key) => {
                proof {
                    assert(map_has_value(old(self)@, value@));
                    let k2 = key_of_value(old(self)@, value@);
                    assert(old(self)@.dom().contains(k2) && old(self)@[k2] == value@);
                }
                key
            },
            None => {
                let key = self.next_key;
                proof {
                    assert(!map_has_value(old(self)@, value@));
                    assert(lowest_free_at(old(self)@, key as int));
                    let lf = lowest_free(old(self)@);
                    assert(0 <= lf && lowest_free_at(old(self)@, lf));
                    lemma_lowest_free_unique(old(self)@, key as int, lf);
                }
                self.bimap.insert(key, value);
                proof {
                    vstd::set::axiom_set_insert_len(old(self)@.dom(), key as int);
                    assert(self@.dom() =~= old(self)@.dom().insert(key as int));
                }
                self.calc_next_key();
                key
            }
        }
    }

    /// Every surrogate-natural pair the tracker currently holds, for the
    /// end-of-run flush; the order of the pairs is not specified.
    pub fn snapshot(&self) -> (r: Vec<(i32, String)>)
        ensures
            r@.len() == self@.dom().len(),
            forall|i: int|
                0 <= i < r@.len() ==> self@.dom().contains(#[trigger] r@[i].0 as int)
                    && self@[r@[i].0 as int] == r@[i].1@,
            forall|k: int|
                self@.dom().contains(k) ==> exists|i: int| 0 <= i < r@.len() && #[trigger] r@[i].0 as int == k,
    {
        self.bimap.pairs()
    }
}

/// The mapping built by reading surrogate-natural pairs left to right,
/// skipping any pair either side of which is already mapped.
pub open spec fn loaded_map(pairs: Seq<(i32, String)>) -> Map<int, Seq<char>>
    decreases pairs.len(),
{
    if pairs.len() == 0 {
        Map::empty()
    } else {
        let m = loaded_map(pairs.drop_last());
        let p = pairs.last();
        if m.dom().contains(p.0 as int) || (exists|j: int| m.dom().contains(j) && m[j] == p.1@) {
            m
        } else {
            m.insert(p.0 as int, p.1@)
        }
    }
}

impl KeyTracker {
    /// Build a tracker from the surrogate-natural pairs read out of
    /// storage at the start of a run. Pairs that collide with an earlier
    /// pair on either side are skipped, so the table is always a
    /// bijection; storage's own uniqueness constraints make such
    /// collisions impossible in practice.
    pub fn load(pairs: Vec<(i32, String)>) -> (t: KeyTracker)
        requires
            pairs@.len() < i32::MAX as nat,
        ensures
            t@ == loaded_map(pairs@),
            t.wf(),
    {
        let mut map = KeyMap::new();
        let n = pairs.len();
        let mut i: usize = 0;
        while i < n
            invariant
                i <= n,
                n == pairs@.len(),
                n < i32::MAX as nat,
                key_map_view(map) == loaded_map(pairs@.take(i as int)),
                key_map_view(map).dom().finite(),
                injective(key_map_view(map)),
                key_map_view(map).dom().len() <= i,
            decreases n - i,
        {
            let key = pairs[i].0;
            let value = pairs[i].1.clone();
            proof {
                assert(pairs@.take(i + 1).drop_last() =~= pairs@.take(i as int));
                assert(pairs@.take(i + 1).last() == pairs@[i as int]);
            }
            if !map.contains_key(key) {
                if map.get_by_right(&value).is_none() {
                    proof {
                        vstd::set::axiom_set_insert_len(key_map_view(map).dom(), key as int);
                    }
                    map.insert(key, value);
                }
            }
            i = i + 1;
        }
        proof {
            assert(pairs@.take(n as int) =~= pairs@);
        }
        Self::from(map)
    }
}

/// If every integer in `[0, n)` is a surrogate of `m`, then `m` holds at
/// least `n` pairs.
proof fn lemma_prefix_used_bounds(m: Map<int, Seq<char>>, n: int)
    requires
        m.dom().finite(),
        0 <= n,
        forall|j: int| 0 <= j < n ==> m.dom().contains(j),
    ensures
        n <= m.dom().len(),
{
    let r = set_int_range(0, n);
    lemma_int_range(0, n);
    assert(r.subset_of(m.dom()));
    lemma_len_subset(r, m.dom());
}

/// Law of allocator bijectivity: two surrogates that resolve the same
/// natural key are the same surrogate, so resolving a natural key a
/// second time always hands back the key of the first resolution.
pub proof fn lemma_resolve_consistent(t: KeyTracker, k1: int, k2: int, v: Seq<char>)
    requires
        t.wf(),
        t@.dom().contains(k1),
        t@[k1] == v,
        t@.dom().contains(k2),
        t@[k2] == v,
    ensures
        k1 == k2,
{
}

} // verus!
