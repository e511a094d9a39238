//! Bounded cache of rendered PNG tiles with first-in-first-out eviction.
//!
//! Tiles are keyed by (document, page, width). The cache does not reorder on
//! access: when it is full, the tile that entered first leaves first.

use std::collections::HashMap;
use std::collections::VecDeque;
use vstd::prelude::*;

verus! {

broadcast use vstd::std_specs::hash::group_hash_axioms;

/// How many rendered tiles the cache keeps.
pub const TILE_CACHE_CAPACITY: usize = 48;

/// (document key, page index, width in pixels)
pub type TileKey = (u32, u16, i32);

/// Injective encoding of a tile key as a single integer.
pub open spec fn tile_code(k: TileKey) -> int {
    (k.0 as int) * 0x1_0000_0000_0000 + (k.1 as int) * 0x1_0000_0000 + (k.2 as int + 0x8000_0000)
}

/// Two tile keys with the same code are the same key.
pub proof fn lemma_tile_code_injective(a: TileKey, b: TileKey)
    requires
        tile_code(a) == tile_code(b),
    ensures
        a == b,
{
    let ca = a.2 as int + 0x8000_0000;
    let cb = b.2 as int + 0x8000_0000;
    assert(0 <= ca < 0x1_0000_0000 && 0 <= cb < 0x1_0000_0000);
    assert((a.0 as int) * 0x1_0000 + (a.1 as int) == (b.0 as int) * 0x1_0000 + (b.1 as int)
        && ca == cb) by (nonlinear_arith)
        requires
            (a.0 as int) * 0x1_0000_0000_0000 + (a.1 as int) * 0x1_0000_0000 + ca == (b.0 as int)
                * 0x1_0000_0000_0000 + (b.1 as int) * 0x1_0000_0000 + cb,
            0 <= ca < 0x1_0000_0000,
            0 <= cb < 0x1_0000_0000,
            0 <= a.1 < 0x1_0000,
            0 <= b.1 < 0x1_0000,
            0 <= a.0,
            0 <= b.0,
    ;
    assert(a.0 == b.0 && a.1 == b.1) by (nonlinear_arith)
        requires
            (a.0 as int) * 0x1_0000 + (a.1 as int) == (b.0 as int) * 0x1_0000 + (b.1 as int),
            0 <= a.1 < 0x1_0000,
            0 <= b.1 < 0x1_0000,
            0 <= a.0,
            0 <= b.0,
    ;
}

fn tile_code_exec(k: &TileKey) -> (c: u128)
    ensures
        c as int == tile_code(*k),
{
    let doc: u128 = k.0 as u128;
    let page: u128 = k.1 as u128;
    let width: u128 = (k.2 as i64 + 0x8000_0000i64) as u128;
    assert(doc * 0x1_0000_0000_0000 <= 0xffff_ffff * 0x1_0000_0000_0000) by (nonlinear_arith)
        requires
            doc <= 0xffff_ffff,
    ;
    assert(page * 0x1_0000_0000 <= 0xffff * 0x1_0000_0000) by (nonlinear_arith)
        requires
            page <= 0xffff,
    ;
    doc * 0x1_0000_0000_0000 + page * 0x1_0000_0000 + width
}

/// The order in which tiles leave the cache after `key` is stored.
pub open spec fn order_after_put(order: Seq<TileKey>, key: TileKey) -> Seq<TileKey> {
    if order.contains(key) {
        order
    } else if order.len() + 1 > TILE_CACHE_CAPACITY {
        order.push(key).drop_first()
    } else {
        order.push(key)
    }
}

/// The cached tiles after `value` is stored under `key`.
pub open spec fn tiles_after_put(
    tiles: Map<TileKey, Seq<u8>>,
    order: Seq<TileKey>,
    key: TileKey,
    value: Seq<u8>,
) -> Map<TileKey, Seq<u8>> {
    if !order.contains(key) && order.len() + 1 > TILE_CACHE_CAPACITY {
        tiles.remove(order[0]).insert(key, value)
    } else {
        tiles.insert(key, value)
    }
}

/// Keys that survive dropping every tile of document `doc`.
pub open spec fn other_doc(doc: u32) -> spec_fn(TileKey) -> bool {
    |k: TileKey| k.0 != doc
}

/// The keys of tiles of documents other than `doc`.
pub open spec fn other_doc_keys(doc: u32) -> Set<TileKey> {
    Set::new(|k: TileKey| k.0 != doc)
}

/// Bounded FIFO cache of PNG tiles.
pub struct TileCache {
    order: VecDeque<TileKey>,
    entries: HashMap<u128, Vec<u8>>,
}

impl TileCache {
    /// Keys in the order in which they were first stored (oldest first).
    pub closed spec fn order(&self) -> Seq<TileKey> {
        self.order@
    }

    /// The cached tile bytes by key.
    pub closed spec fn tiles(&self) -> Map<TileKey, Seq<u8>> {
        Map::new(
            |k: TileKey| self.order@.contains(k),
            |k: TileKey| self.entries@[tile_code(k) as u128]@,
        )
    }

    /// The cache's invariant: every key is listed once in the eviction order,
    /// the stored tiles are exactly those of the listed keys, and there are
    /// never more than `TILE_CACHE_CAPACITY` of them.
    pub closed spec fn well_formed(&self) -> bool {
        &&& self.order@.no_duplicates()
        &&& self.order@.len() <= TILE_CACHE_CAPACITY
        &&& forall|k: TileKey| #[trigger]
            self.order@.contains(k) ==> self.entries@.contains_key(tile_code(k) as u128)
        &&& forall|c: u128| #[trigger]
            self.entries@.contains_key(c) ==> exists|k: TileKey|
                self.order@.contains(k) && tile_code(k) == c
        &&& vstd::std_specs::hash::obeys_key_model::<u128>()
    }

    /// An empty cache.
    pub fn new() -> (cache: Self)
        ensures
            cache.well_formed(),
            cache.order() == Seq::<TileKey>::empty(),
            cache.tiles() == Map::<TileKey, Seq<u8>>::empty(),
    {
        let cache = TileCache { order: VecDeque::new(), entries: HashMap::new() };
        assert(cache.tiles() =~= Map::<TileKey, Seq<u8>>::empty());
        cache
    }

    /// The tile stored under `key`, if any.
    pub fn get(&self, key: &TileKey) -> (r: Option<&Vec<u8>>)
        requires
            self.well_formed(),
        ensures
            match r {
                Some(v) => self.tiles().contains_key(*key) && v@ == self.tiles()[*key],
                None => !self.tiles().contains_key(*key),
            },
    {
        let code = tile_code_exec(key);
        let r = self.entries.get(&code);
        proof {
            if self.entries@.contains_key(code) {
                let k = choose|k: TileKey| self.order@.contains(k) && tile_code(k) == code;
                lemma_tile_code_injective(k, *key);
            }
        }
        r
    }

    /// Stores `value` under `key`. A new key goes to the back of the
    /// eviction order; when that makes the cache exceed its capacity, the
    /// oldest key and its tile are dropped. A key already present keeps its
    /// place and gets the new value.
    pub fn put(&mut self, key: TileKey, value: Vec<u8>)
        requires
            old(self).well_formed(),
        ensures
            final(self).well_formed(),
            final(self).order() == order_after_put(old(self).order(), key),
            final(self).tiles() == tiles_after_put(
                old(self).tiles(),
                old(self).order(),
                key,
                value@,
            ),
    {
        let ghost old_order = self.order@;
        let ghost old_entries = self.entries@;
        let code = tile_code_exec(&key);
        assert(old_order.contains(key) == self.entries@.contains_key(code)) by {
            if self.entries@.contains_key(code) {
                let k = choose|k: TileKey| self.order@.contains(k) && tile_code(k) == code;
                lemma_tile_code_injective(k, key);
            }
        }
        if !self.entries.contains_key(&code) {
            self.order.push_back(key);
            if self.order.len() > TILE_CACHE_CAPACITY {
                let oldest = self.order.pop_front();
                match oldest {
                    Some(oldest) => {
                        let oldest_code = tile_code_exec(&oldest);
                        self.entries.remove(&oldest_code);
                    },
                    None => {},
                }
            }
        }
        self.entries.insert(code, value);
        proof {
            let new_order = self.order@;
            assert(new_order == order_after_put(old_order, key));
            if !old_order.contains(key) {
                assert(new_order.contains(key)) by {
                    if old_order.len() + 1 > TILE_CACHE_CAPACITY {
                        assert(new_order[new_order.len() - 1] == key);
                    } else {
                        assert(new_order[new_order.len() - 1] == key);
                    }
                }
            }
            assert(new_order.no_duplicates()) by {
                if !old_order.contains(key) {
                    let pushed = old_order.push(key);
                    assert forall|i: int, j: int|
                        0 <= i < pushed.len() && 0 <= j < pushed.len() && i != j implies pushed[i]
                        != pushed[j] by {
                        if i == pushed.len() - 1 {
                            assert(old_order[j] == pushed[j]);
                        } else if j == pushed.len() - 1 {
                            assert(old_order[i] == pushed[i]);
                        }
                    }
                }
            }
            // keys still listed have their tiles
            assert forall|k: TileKey| #[trigger] new_order.contains(k) implies self.entries@.contains_key(
                tile_code(k) as u128,
            ) by {
                if k != key {
                    let i = choose|i: int| 0 <= i < new_order.len() && new_order[i] == k;
                    if !old_order.contains(key) && old_order.len() + 1 > TILE_CACHE_CAPACITY {
                        assert(old_order.push(key)[i + 1] == k);
                        assert(old_order[i + 1] == k);
                        assert(old_order.contains(k));
                        if tile_code(k) == tile_code(old_order[0]) {
                            lemma_tile_code_injective(k, old_order[0]);
                            assert(old_order[0] == old_order[i + 1]);
                        }
                    } else if !old_order.contains(key) {
                        assert(old_order[i] == k);
                    }
                    assert(old_order.contains(k));
                    if tile_code(k) == tile_code(key) {
                        lemma_tile_code_injective(k, key);
                    }
                }
            }
            // stored tiles belong to listed keys
            assert forall|c: u128| #[trigger] self.entries@.contains_key(c) implies exists|k: TileKey|
                new_order.contains(k) && tile_code(k) == c by {
                if c != code {
                    assert(old_entries.contains_key(c));
                    let k = choose|k: TileKey| old_order.contains(k) && tile_code(k) == c;
                    let i = choose|i: int| 0 <= i < old_order.len() && old_order[i] == k;
                    if !old_order.contains(key) && old_order.len() + 1 > TILE_CACHE_CAPACITY {
                        if i == 0 {
                            assert(false);
                        } else {
                            assert(new_order[i - 1] == k);
                        }
                    } else if !old_order.contains(key) {
                        assert(new_order[i] == k);
                    }
                    assert(new_order.contains(k));
                } else {
                    assert(new_order.contains(key));
                }
            }
            let expected = tiles_after_put(old(self).tiles(), old_order, key, value@);
            assert forall|k: TileKey| #[trigger] self.tiles().contains_key(k) implies self.tiles()[k]
                == expected[k] by {
                if k != key {
                    if tile_code(k) == tile_code(key) {
                        lemma_tile_code_injective(k, key);
                    }
                    if !old_order.contains(key) && old_order.len() + 1 > TILE_CACHE_CAPACITY
                        && tile_code(k) == tile_code(old_order[0]) {
                        lemma_tile_code_injective(k, old_order[0]);
                    }
                }
            }
            assert forall|k: TileKey| #[trigger]
                expected.contains_key(k) implies self.tiles().contains_key(k) by {
                if k != key {
                    assert(old_order.contains(k));
                    let i = choose|i: int| 0 <= i < old_order.len() && old_order[i] == k;
                    if !old_order.contains(key) && old_order.len() + 1 > TILE_CACHE_CAPACITY {
                        assert(i != 0);
                        assert(new_order[i - 1] == k);
                    } else if !old_order.contains(key) {
                        assert(new_order[i] == k);
                    }
                }
            }
            assert(self.tiles() =~= expected);
        }
    }

    /// Drops every tile of document `doc`; the other tiles keep their values
    /// and their relative order.
    pub fn invalidate_doc(&mut self, doc: u32)
        requires
            old(self).well_formed(),
        ensures
            final(self).well_formed(),
            final(self).order() == old(self).order().filter(other_doc(doc)),
            final(self).tiles() == old(self).tiles().restrict(other_doc_keys(doc)),
    {
        let ghost old_order = self.order@;
        let ghost old_entries = self.entries@;
        let ghost keep = other_doc(doc);
        let mut kept: VecDeque<TileKey> = VecDeque::new();
        let n = self.order.len();
        let mut i: usize = 0;
        assert forall|j: int| #![trigger old_order[j]] 0 <= j < n implies self.entries@.contains_key(
            tile_code(old_order[j]) as u128,
        ) by {
            assert(old_order.contains(old_order[j]));
        }
        while i < n
            invariant
                0 <= i <= n,
                n == old_order.len(),
                self.order@ == old_order,
                old_order.no_duplicates(),
                keep == other_doc(doc),
                vstd::std_specs::hash::obeys_key_model::<u128>(),
                kept@ == old_order.take(i as int).filter(keep),
                kept@.no_duplicates(),
                forall|x: TileKey| #[trigger]
                    kept@.contains(x) ==> exists|j: int| 0 <= j < i && old_order[j] == x,
                forall|c: u128| #[trigger]
                    self.entries@.contains_key(c) ==> old_entries.contains_key(c)
                        && self.entries@[c] == old_entries[c],
                forall|j: int|
                    #![trigger old_order[j]]
                    0 <= j < n ==> (self.entries@.contains_key(tile_code(old_order[j]) as u128)
                        <==> (j >= i || old_order[j].0 != doc)),
                forall|c: u128| #[trigger]
                    old_entries.contains_key(c) ==> exists|k: TileKey|
                        old_order.contains(k) && tile_code(k) == c,
                forall|k: TileKey| #[trigger]
                    old_order.contains(k) ==> old_entries.contains_key(tile_code(k) as u128),
            decreases n - i,
        {
            let k = self.order[i];
            proof {
                assert(old_order.take(i + 1) == old_order.take(i as int).push(k));
                old_order.take(i as int).lemma_filter_push(k, keep);
            }
            if k.0 == doc {
                let code = tile_code_exec(&k);
                self.entries.remove(&code);
                proof {
                    assert forall|j: int|
                        #![trigger old_order[j]]
                        0 <= j < n && j != i implies tile_code(old_order[j]) != tile_code(k) by {
                        if tile_code(old_order[j]) == tile_code(k) {
                            lemma_tile_code_injective(old_order[j], k);
                        }
                    }
                }
            } else {
                let ghost before = kept@;
                assert(!before.contains(k)) by {
                    if before.contains(k) {
                        let j = choose|j: int| 0 <= j < i && old_order[j] == k;
                        assert(old_order[j] == old_order[i as int]);
                    }
                }
                kept.push_back(k);
                proof {
                    assert forall|a: int, b: int|
                        0 <= a < kept@.len() && 0 <= b < kept@.len() && a != b implies kept@[a]
                        != kept@[b] by {
                        if a == kept@.len() - 1 {
                            assert(before.contains(before[b]));
                        } else if b == kept@.len() - 1 {
                            assert(before.contains(before[a]));
                        } else {
                            assert(before[a] == kept@[a] && before[b] == kept@[b]);
                        }
                    }
                    assert forall|x: TileKey| #[trigger]
                        kept@.contains(x) implies exists|j: int| 0 <= j < i + 1 && old_order[j] == x by {
                        if x != k {
                            let a = choose|a: int| 0 <= a < kept@.len() && kept@[a] == x;
                            assert(before[a] == x);
                            assert(before.contains(x));
                        }
                    }
                }
            }
            i += 1;
        }
        self.order = kept;
        proof {
            assert(old_order.take(n as int) == old_order);
            let new_order = self.order@;
            assert forall|k: TileKey| new_order.contains(k) <==> (old_order.contains(k) && k.0
                != doc) by {
                if new_order.contains(k) {
                    old_order.lemma_filter_contains_rev(keep, k);
                }
                if old_order.contains(k) && k.0 != doc {
                    let j = choose|j: int| 0 <= j < old_order.len() && old_order[j] == k;
                    old_order.lemma_filter_contains(keep, j);
                }
            }
            broadcast use vstd::seq_lib::group_filter_ensures;
            assert forall|k: TileKey| #[trigger] new_order.contains(k) implies self.entries@.contains_key(
                tile_code(k) as u128,
            ) by {
                let j = choose|j: int| 0 <= j < old_order.len() && old_order[j] == k;
            }
            assert forall|c: u128| #[trigger] self.entries@.contains_key(c) implies exists|k: TileKey|
                new_order.contains(k) && tile_code(k) == c by {
                let k = choose|k: TileKey| old_order.contains(k) && tile_code(k) == c;
                let j = choose|j: int| 0 <= j < old_order.len() && old_order[j] == k;
                assert(self.entries@.contains_key(tile_code(old_order[j]) as u128));
            }
            let expected = old(self).tiles().restrict(other_doc_keys(doc));
            assert(self.tiles() =~= expected);
        }
    }
}

/// A tile read right after it was stored gives back the stored bytes.
pub proof fn law_put_then_get(
    tiles: Map<TileKey, Seq<u8>>,
    order: Seq<TileKey>,
    key: TileKey,
    value: Seq<u8>,
)
    ensures
        tiles_after_put(tiles, order, key, value).contains_key(key),
        tiles_after_put(tiles, order, key, value)[key] == value,
{
}

/// Storing a tile leaves every other tile as it was, except the oldest one,
/// which leaves when a new key would overflow the cache.
pub proof fn law_put_keeps_others(
    tiles: Map<TileKey, Seq<u8>>,
    order: Seq<TileKey>,
    key: TileKey,
    value: Seq<u8>,
    other: TileKey,
)
    requires
        other != key,
        !(!order.contains(key) && order.len() + 1 > TILE_CACHE_CAPACITY && other == order[0]),
    ensures
        tiles_after_put(tiles, order, key, value).contains_key(other) == tiles.contains_key(other),
        tiles.contains_key(other) ==> tiles_after_put(tiles, order, key, value)[other]
            == tiles[other],
{
}

/// Eviction is first in, first out: when the cache is full and a new key is
/// stored, the key stored first leaves and the new key becomes the newest;
/// storing a key already present does not reorder anything.
pub proof fn law_fifo_eviction(order: Seq<TileKey>, key: TileKey)
    requires
        order.len() == TILE_CACHE_CAPACITY,
    ensures
        !order.contains(key) ==> order_after_put(order, key) == order.drop_first().push(key),
        order.contains(key) ==> order_after_put(order, key) == order,
{
    if !order.contains(key) {
        assert(order.push(key).drop_first() =~= order.drop_first().push(key));
    }
}

/// A well-formed cache holds exactly the tiles of the keys in its eviction
/// order, and never more than `TILE_CACHE_CAPACITY` of them.
pub proof fn law_cache_bounded(cache: &TileCache)
    requires
        cache.well_formed(),
    ensures
        cache.tiles().dom() == cache.order().to_set(),
        cache.order().no_duplicates(),
        cache.tiles().len() == cache.order().len(),
        cache.tiles().len() <= TILE_CACHE_CAPACITY,
{
    assert(cache.tiles().dom() =~= cache.order().to_set());
    cache.order().unique_seq_to_set();
}

/// While the cache holds fewer than `TILE_CACHE_CAPACITY` keys, storing a
/// tile evicts nothing: the new key joins the back of the order and every
/// other tile stays as it was.
pub proof fn law_no_eviction_below_capacity(
    tiles: Map<TileKey, Seq<u8>>,
    order: Seq<TileKey>,
    key: TileKey,
    value: Seq<u8>,
)
    requires
        order.len() < TILE_CACHE_CAPACITY,
    ensures
        tiles_after_put(tiles, order, key, value) == tiles.insert(key, value),
        order_after_put(order, key) == if order.contains(key) {
            order
        } else {
            order.push(key)
        },
{
}

/// A change to the cache: storing bytes under a key, or dropping every
/// tile of a document (as closing it does).
pub enum CacheOp {
    Put(TileKey, Seq<u8>),
    Invalidate(u32),
}

/// The eviction order and the tiles after each of `ops` is applied in
/// turn, starting from `order` and `tiles`, as `put` and `invalidate_doc`
/// state each step.
pub open spec fn after_ops(
    order: Seq<TileKey>,
    tiles: Map<TileKey, Seq<u8>>,
    ops: Seq<CacheOp>,
) -> (Seq<TileKey>, Map<TileKey, Seq<u8>>)
    decreases ops.len(),
{
    if ops.len() == 0 {
        (order, tiles)
    } else {
        let prev = after_ops(order, tiles, ops.drop_last());
        match ops.last() {
            CacheOp::Put(k, v) => (order_after_put(prev.0, k), tiles_after_put(prev.1, prev.0, k, v)),
            CacheOp::Invalidate(d) => (prev.0.filter(other_doc(d)), prev.1.restrict(other_doc_keys(d))),
        }
    }
}

/// The keys stored by `ops`, in order, repeats included.
pub open spec fn put_key_seq(ops: Seq<CacheOp>) -> Seq<TileKey>
    decreases ops.len(),
{
    if ops.len() == 0 {
        Seq::empty()
    } else {
        match ops.last() {
            CacheOp::Put(k, _) => put_key_seq(ops.drop_last()).push(k),
            CacheOp::Invalidate(_) => put_key_seq(ops.drop_last()),
        }
    }
}

/// The keys stored by `ops`.
pub open spec fn put_keys(ops: Seq<CacheOp>) -> Set<TileKey> {
    put_key_seq(ops).to_set()
}

proof fn lemma_put_key_in(ops: Seq<CacheOp>, i: int)
    requires
        0 <= i < ops.len(),
        ops[i] is Put,
    ensures
        put_keys(ops).contains(ops[i]->Put_0),
    decreases ops.len(),
{
    if i < ops.len() - 1 {
        lemma_put_key_in(ops.drop_last(), i);
        let s = put_key_seq(ops.drop_last());
        let j = choose|j: int| 0 <= j < s.len() && s[j] == ops[i]->Put_0;
        assert(put_key_seq(ops)[j] == ops[i]->Put_0);
    } else {
        let s = put_key_seq(ops);
        assert(s[s.len() - 1] == ops[i]->Put_0);
    }
}

proof fn lemma_filter_no_duplicates(s: Seq<TileKey>, p: spec_fn(TileKey) -> bool)
    requires
        s.no_duplicates(),
    ensures
        s.filter(p).no_duplicates(),
    decreases s.len(),
{
    reveal(Seq::filter);
    if s.len() > 0 {
        let init = s.drop_last();
        assert(init.no_duplicates());
        lemma_filter_no_duplicates(init, p);
        let f = init.filter(p);
        if p(s.last()) {
            assert(!f.contains(s.last())) by {
                if f.contains(s.last()) {
                    init.lemma_filter_contains_rev(p, s.last());
                    let j = choose|j: int| 0 <= j < init.len() && init[j] == s.last();
                    assert(s[j] == s[s.len() - 1]);
                }
            }
            let g = f.push(s.last());
            assert forall|i: int, j: int| 0 <= i < g.len() && 0 <= j < g.len() && i != j implies g[i]
                != g[j] by {
                if i == g.len() - 1 {
                    assert(f.contains(g[j]) || j == g.len() - 1);
                } else if j == g.len() - 1 {
                    assert(f.contains(g[i]));
                }
            }
        }
    }
}

/// The cache order split around `key`: `pre`, then `key`, then `post`, with
/// every key in `post` one of those stored by `ops`.
spec fn stays_state(
    o: Seq<TileKey>,
    t: Map<TileKey, Seq<u8>>,
    key: TileKey,
    value: Seq<u8>,
    ops: Seq<CacheOp>,
    pre: Seq<TileKey>,
    post: Seq<TileKey>,
) -> bool {
    &&& o == pre + seq![key] + post
    &&& o.no_duplicates()
    &&& o.len() <= TILE_CACHE_CAPACITY
    &&& forall|j: int| 0 <= j < post.len() ==> put_keys(ops).contains(#[trigger] post[j])
    &&& t.contains_key(key)
    &&& t[key] == value
}

proof fn lemma_no_dup_push(o: Seq<TileKey>, k: TileKey)
    requires
        o.no_duplicates(),
        !o.contains(k),
    ensures
        o.push(k).no_duplicates(),
{
    let a = o.push(k);
    assert forall|i: int, j: int| 0 <= i < a.len() && 0 <= j < a.len() && i != j implies a[i] != a[j] by {
        if i == a.len() - 1 {
            assert(a[j] == o[j]);
        } else if j == a.len() - 1 {
            assert(a[i] == o[i]);
        }
    }
}

proof fn lemma_stays(
    o0: Seq<TileKey>,
    t0: Map<TileKey, Seq<u8>>,
    key: TileKey,
    value: Seq<u8>,
    ops: Seq<CacheOp>,
    n: int,
) -> (r: (Seq<TileKey>, Seq<TileKey>))
    requires
        0 <= n <= ops.len(),
        stays_state(o0, t0, key, value, ops, o0.drop_last(), Seq::empty()),
        forall|i: int|
            0 <= i < ops.len() ==> match #[trigger] ops[i] {
                CacheOp::Put(k, _) => k != key,
                CacheOp::Invalidate(d) => d != key.0,
            },
        put_keys(ops).len() < TILE_CACHE_CAPACITY,
    ensures
        stays_state(
            after_ops(o0, t0, ops.subrange(0, n)).0,
            after_ops(o0, t0, ops.subrange(0, n)).1,
            key,
            value,
            ops,
            r.0,
            r.1,
        ),
    decreases n,
{
    if n == 0 {
        assert(ops.subrange(0, 0) =~= Seq::<CacheOp>::empty());
        (o0.drop_last(), Seq::empty())
    } else {
        let p = ops.subrange(0, n);
        assert(p.drop_last() =~= ops.subrange(0, n - 1));
        assert(p.last() == ops[n - 1]);
        let (pre, post) = lemma_stays(o0, t0, key, value, ops, n - 1);
        let prev = after_ops(o0, t0, ops.subrange(0, n - 1));
        let o = prev.0;
        match ops[n - 1] {
            CacheOp::Put(k, v) => {
                assert(k != key);
                lemma_put_key_in(ops, n - 1);
                if o.contains(k) {
                    (pre, post)
                } else if o.len() + 1 > TILE_CACHE_CAPACITY {
                    let a = o.drop_first().push(k);
                    assert(o.drop_first().no_duplicates()) by {
                        assert forall|i: int, j: int|
                            0 <= i < o.len() - 1 && 0 <= j < o.len() - 1 && i != j implies o.drop_first()[i]
                            != o.drop_first()[j] by {
                            assert(o.drop_first()[i] == o[i + 1] && o.drop_first()[j] == o[j + 1]);
                        }
                    }
                    assert(!o.drop_first().contains(k)) by {
                        if o.drop_first().contains(k) {
                            let i = choose|i: int| 0 <= i < o.len() - 1 && o.drop_first()[i] == k;
                            assert(o[i + 1] == k);
                        }
                    }
                    lemma_no_dup_push(o.drop_first(), k);
                    if pre.len() == 0 {
                        assert(o.drop_first() =~= post);
                        assert(a.to_set().subset_of(put_keys(ops))) by {
                            assert forall|x: TileKey| a.to_set().contains(x) implies put_keys(ops).contains(x) by {
                                let i = choose|i: int| 0 <= i < a.len() && a[i] == x;
                                if i < a.len() - 1 {
                                    assert(a[i] == post[i]);
                                }
                            }
                        }
                        a.unique_seq_to_set();
                        vstd::seq_lib::seq_to_set_is_finite(put_key_seq(ops));
                        vstd::set_lib::lemma_len_subset(a.to_set(), put_keys(ops));
                        assert(false);
                    }
                    assert(o.push(k).drop_first() =~= a);
                    let npre = pre.drop_first();
                    let npost = post.push(k);
                    assert(a =~= npre + seq![key] + npost);
                    assert(o[0] == pre[0]);
                    assert(o[0] != key) by {
                        assert(o[pre.len() as int] == key);
                    }
                    assert forall|j: int| 0 <= j < npost.len() implies put_keys(ops).contains(#[trigger] npost[j]) by {
                        if j < post.len() {
                            assert(npost[j] == post[j]);
                        }
                    }
                    (npre, npost)
                } else {
                    lemma_no_dup_push(o, k);
                    let npost = post.push(k);
                    assert(o.push(k) =~= pre + seq![key] + npost);
                    assert forall|j: int| 0 <= j < npost.len() implies put_keys(ops).contains(#[trigger] npost[j]) by {
                        if j < post.len() {
                            assert(npost[j] == post[j]);
                        }
                    }
                    (pre, npost)
                }
            },
            CacheOp::Invalidate(d) => {
                assert(d != key.0);
                let f = other_doc(d);
                lemma_filter_no_duplicates(o, f);
                vstd::seq::Seq::filter_distributes_over_add(pre + seq![key], post, f);
                vstd::seq::Seq::filter_distributes_over_add(pre, seq![key], f);
                reveal(Seq::filter);
                assert(seq![key].filter(f) =~= seq![key]) by {
                    assert(seq![key].drop_last() =~= Seq::<TileKey>::empty());
                }
                let npost = post.filter(f);
                assert forall|j: int| 0 <= j < npost.len() implies put_keys(ops).contains(#[trigger] npost[j]) by {
                    post.lemma_filter_contains_rev(f, npost[j]);
                    let i = choose|i: int| 0 <= i < post.len() && post[i] == npost[j];
                }
                (pre.filter(f), npost)
            },
        }
    }
}

/// A tile stored under a key that was not cached stays cached with those
/// bytes while the keys stored after it, none of them that key, number
/// fewer than `TILE_CACHE_CAPACITY`, whatever other documents are dropped
/// (closed) in between.
pub proof fn law_tile_stays_cached(cache: &TileCache, key: TileKey, value: Seq<u8>, later: Seq<CacheOp>)
    requires
        cache.well_formed(),
        !cache.order().contains(key),
        forall|i: int|
            0 <= i < later.len() ==> match #[trigger] later[i] {
                CacheOp::Put(k, _) => k != key,
                CacheOp::Invalidate(d) => d != key.0,
            },
        put_keys(later).len() < TILE_CACHE_CAPACITY,
    ensures
        after_ops(
            order_after_put(cache.order(), key),
            tiles_after_put(cache.tiles(), cache.order(), key, value),
            later,
        ).1.contains_key(key),
        after_ops(
            order_after_put(cache.order(), key),
            tiles_after_put(cache.tiles(), cache.order(), key, value),
            later,
        ).1[key] == value,
{
    let order = cache.order();
    let o0 = order_after_put(order, key);
    let t0 = tiles_after_put(cache.tiles(), order, key, value);
    lemma_no_dup_push(order, key);
    if order.len() + 1 > TILE_CACHE_CAPACITY {
        let pushed = order.push(key);
        assert forall|i: int, j: int| 0 <= i < o0.len() && 0 <= j < o0.len() && i != j implies o0[i]
            != o0[j] by {
            assert(o0[i] == pushed[i + 1] && o0[j] == pushed[j + 1]);
        }
    }
    assert(o0 =~= o0.drop_last() + seq![key] + Seq::<TileKey>::empty());
    lemma_stays(o0, t0, key, value, later, later.len() as int);
    assert(later.subrange(0, later.len() as int) =~= later);
}

} // verus!
