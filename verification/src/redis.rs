//! Server state: configuration, the key-value store, and the replica
//! registry. The store is a keyed collection with a `Map` view; the
//! registry maps connection ids to acknowledged replication offsets and
//! supports the count that `WAIT` needs.

use vstd::prelude::*;
use vstd::utf8::encode_utf8;

use crate::command::{eq_bytes, parse_u64, spec_parse_u64};
use crate::value::{RedisValue, ValueModel};

verus! {

/// Server configuration: where to listen, and the master to follow when
/// this node is a replica (`replicaof` holds the master's host and port).
#[derive(Debug, Clone)]
pub struct RedisConfig {
    pub host: String,
    pub port: u32,
    pub replicaof: Option<Vec<String>>,
}

impl RedisConfig {
    /// A usable `replicaof` names exactly a host and a decimal port.
    pub open spec fn wf(&self) -> bool {
        match self.replicaof {
            Some(args) => {
                &&& args@.len() == 2
                &&& spec_parse_u64(encode_utf8(args@[1]@)) matches Some(p) && p
                    <= usize::MAX as u64
            },
            None => true,
        }
    }

    /// The master this node follows, if it is a replica.
    pub fn get_replica_of(&self) -> (r: Option<(String, usize)>)
        requires
            self.wf(),
        ensures
            match r {
                Some(hp) => {
                    &&& self.replicaof matches Some(args)
                    &&& hp.0@ == args@[0]@
                    &&& spec_parse_u64(encode_utf8(args@[1]@)) == Some(hp.1 as u64)
                },
                None => self.replicaof is None,
            },
    {
        match &self.replicaof {
            Some(args) => {
                let host = args[0].clone();
                let port_bytes = args[1].as_str().as_bytes();
                let port = match parse_u64(port_bytes) {
                    Some(p) => p,
                    None => {
                        proof {
                            assert(false);
                        }
                        0
                    },
                };
                Some((host, port as usize))
            },
            None => None,
        }
    }
}

/// One stored entry: a value and its expiry instant in milliseconds since
/// the epoch; zero means the entry never expires.
#[derive(Debug)]
pub struct StoreItem {
    pub value: RedisValue,
    pub expired_at: u64,
}

/// The model of a stored entry.
#[verifier::ext_equal]
pub ghost struct StoreItemModel {
    pub value: ValueModel,
    pub expired_at: u64,
}

impl View for StoreItem {
    type V = StoreItemModel;

    open spec fn view(&self) -> StoreItemModel {
        StoreItemModel { value: self.value@, expired_at: self.expired_at }
    }
}

impl StoreItem {
    /// A copy of the entry with the same model.
    pub fn duplicate(&self) -> (r: StoreItem)
        ensures
            r@ == self@,
    {
        StoreItem { value: self.value.duplicate(), expired_at: self.expired_at }
    }
}

/// The first entry for `k`, scanning from the front.
pub open spec fn spec_store_get(s: Seq<(Vec<u8>, StoreItem)>, k: Seq<u8>) -> Option<StoreItemModel>
    decreases s.len(),
{
    if s.len() == 0 {
        None
    } else if s[0].0@ == k {
        Some(s[0].1@)
    } else {
        spec_store_get(s.drop_first(), k)
    }
}

proof fn lemma_store_get_push(s: Seq<(Vec<u8>, StoreItem)>, p: (Vec<u8>, StoreItem), k: Seq<u8>)
    ensures
        spec_store_get(s.push(p), k) == match spec_store_get(s, k) {
            Some(it) => Some(it),
            None => if p.0@ == k {
                Some(p.1@)
            } else {
                None
            },
        },
    decreases s.len(),
{
    if s.len() == 0 {
        assert(s.push(p)[0] == p);
        assert(s.push(p).drop_first() =~= Seq::<(Vec<u8>, StoreItem)>::empty());
        assert(spec_store_get(Seq::<(Vec<u8>, StoreItem)>::empty(), k) is None);
        assert(spec_store_get(s, k) is None);
        if p.0@ == k {
            assert(spec_store_get(s.push(p), k) == Some(p.1@));
        } else {
            assert(spec_store_get(s.push(p), k) == spec_store_get(
                Seq::<(Vec<u8>, StoreItem)>::empty(),
                k,
            ));
        }
    } else {
        assert(s.push(p)[0] == s[0]);
        assert(s.push(p).drop_first() =~= s.drop_first().push(p));
        lemma_store_get_push(s.drop_first(), p, k);
        if s[0].0@ == k {
            assert(spec_store_get(s.push(p), k) == Some(s[0].1@));
            assert(spec_store_get(s, k) == Some(s[0].1@));
        } else {
            assert(spec_store_get(s.push(p), k) == spec_store_get(s.drop_first().push(p), k));
            assert(spec_store_get(s, k) == spec_store_get(s.drop_first(), k));
        }
    }
}

/// The key-value store, owned by the executor alone.
pub struct Store {
    items: Vec<(Vec<u8>, StoreItem)>,
}

impl View for Store {
    type V = Map<Seq<u8>, StoreItemModel>;

    closed spec fn view(&self) -> Map<Seq<u8>, StoreItemModel> {
        Map::new(
            |k: Seq<u8>| spec_store_get(self.items@, k) is Some,
            |k: Seq<u8>|
                match spec_store_get(self.items@, k) {
                    Some(it) => it,
                    None => vstd::pervasive::arbitrary(),
                },
        )
    }
}

impl Store {
    /// An empty store.
    pub fn new() -> (r: Store)
        ensures
            r@ == Map::<Seq<u8>, StoreItemModel>::empty(),
    {
        let r = Store { items: Vec::new() };
        proof {
            assert(r@ =~= Map::<Seq<u8>, StoreItemModel>::empty());
        }
        r
    }

    /// A copy of the entry under `k`, if there is one.
    pub fn lookup(&self, k: &[u8]) -> (r: Option<StoreItem>)
        ensures
            match r {
                Some(item) => self@.contains_key(k@) && self@[k@] == item@,
                None => !self@.contains_key(k@),
            },
    {
        let ghost whole: Seq<(Vec<u8>, StoreItem)> = self.items@;
        let mut i: usize = 0;
        proof {
            assert(whole.skip(0) =~= whole);
        }
        while i < self.items.len()
            invariant
                i <= whole.len(),
                whole == self.items@,
                spec_store_get(whole, k@) == spec_store_get(whole.skip(i as int), k@),
            decreases whole.len() - i,
        {
            let pair = &self.items[i];
            proof {
                assert(whole.skip(i as int)[0] == whole[i as int]);
                assert(whole.skip(i as int).drop_first() =~= whole.skip(i + 1));
            }
            if eq_bytes(pair.0.as_slice(), k) {
                let item = pair.1.duplicate();
                return Some(item);
            }
            i = i + 1;
        }
        proof {
            assert(whole.skip(whole.len() as int) =~= Seq::<(Vec<u8>, StoreItem)>::empty());
        }
        None
    }

    /// Removes the entry under `k`, if any.
    pub fn remove(&mut self, k: &[u8])
        ensures
            final(self)@ == old(self)@.remove(k@),
    {
        let ghost whole: Seq<(Vec<u8>, StoreItem)> = self.items@;
        let mut kept: Vec<(Vec<u8>, StoreItem)> = Vec::new();
        let mut i: usize = 0;
        proof {
            assert(whole.take(0) =~= Seq::<(Vec<u8>, StoreItem)>::empty());
        }
        while i < self.items.len()
            invariant
                i <= whole.len(),
                whole == self.items@,
                spec_store_get(kept@, k@) is None,
                forall|k2: Seq<u8>|
                    k2 != k@ ==> #[trigger] spec_store_get(kept@, k2) == spec_store_get(
                        whole.take(i as int),
                        k2,
                    ),
            decreases whole.len() - i,
        {
            let pair = &self.items[i];
            let ghost kept0 = kept@;
            let matches_key = eq_bytes(pair.0.as_slice(), k);
            if !matches_key {
                let key_copy: Vec<u8> = vstd::slice::slice_to_vec(pair.0.as_slice());
                let item_copy = pair.1.duplicate();
                kept.push((key_copy, item_copy));
            }
            proof {
                assert(whole.take(i + 1) =~= whole.take(i as int).push(whole[i as int]));
                assert forall|k2: Seq<u8>| k2 != k@ implies #[trigger] spec_store_get(kept@, k2)
                    == spec_store_get(whole.take(i + 1), k2) by {
                    lemma_store_get_push(whole.take(i as int), whole[i as int], k2);
                    if !matches_key {
                        lemma_store_get_push(kept0, kept@.last(), k2);
                        assert(kept0.push(kept@.last()) =~= kept@);
                    }
                }
                if !matches_key {
                    lemma_store_get_push(kept0, kept@.last(), k@);
                    assert(kept0.push(kept@.last()) =~= kept@);
                }
            }
            i = i + 1;
        }
        self.items = kept;
        proof {
            assert(whole.take(whole.len() as int) =~= whole);
            assert(self@ =~= old(self)@.remove(k@));
        }
    }

    /// Sets the entry under `k`, replacing any earlier one.
    pub fn insert(&mut self, k: Vec<u8>, item: StoreItem)
        ensures
            final(self)@ == old(self)@.insert(k@, item@),
    {
        self.remove(k.as_slice());
        let ghost mid = self@;
        let ghost mid_items = self.items@;
        self.items.push((k, item));
        proof {
            assert forall|k2: Seq<u8>| true implies #[trigger] spec_store_get(self.items@, k2)
                == match spec_store_get(mid_items, k2) {
                Some(it) => Some(it),
                None => if k@ == k2 {
                    Some(item@)
                } else {
                    None
                },
            } by {
                lemma_store_get_push(mid_items, (k, item), k2);
                assert(mid_items.push((k, item)) =~= self.items@);
            }
            let target = old(self)@.insert(k@, item@);
            assert forall|k2: Seq<u8>| true implies (#[trigger] self@.contains_key(k2)
                <==> target.contains_key(k2)) && (self@.contains_key(k2) ==> self@[k2]
                == target[k2]) by {
                if k2 == k@ {
                    assert(!mid.contains_key(k2));
                    assert(spec_store_get(mid_items, k2) is None);
                    assert(spec_store_get(self.items@, k2) == Some(item@));
                    assert(self@.contains_key(k2));
                    assert(self@[k2] == item@);
                } else {
                    assert(mid.contains_key(k2) == old(self)@.contains_key(k2));
                    assert(spec_store_get(self.items@, k2) == spec_store_get(mid_items, k2));
                    if old(self)@.contains_key(k2) {
                        assert(mid[k2] == old(self)@[k2]);
                        assert(spec_store_get(mid_items, k2) == Some(mid[k2]));
                        assert(self@[k2] == old(self)@[k2]);
                    }
                }
            }
            assert(self@ =~= old(self)@.insert(k@, item@));
        }
    }
}

/// The model of the registry: connection ids and their acknowledged
/// offsets, in registration order.
pub open spec fn reg_model(s: Seq<(Vec<u8>, u64)>) -> Seq<(Seq<u8>, u64)> {
    Seq::new(s.len(), |i: int| (s[i].0@, s[i].1))
}

/// The first entry for `id`, scanning from the front.
pub open spec fn spec_reg_lookup(r: Seq<(Seq<u8>, u64)>, id: Seq<u8>) -> Option<u64>
    decreases r.len(),
{
    if r.len() == 0 {
        None
    } else if r[0].0 == id {
        Some(r[0].1)
    } else {
        spec_reg_lookup(r.drop_first(), id)
    }
}

/// How many entries acknowledge at least `target`.
pub open spec fn spec_count_acked(r: Seq<(Seq<u8>, u64)>, target: u64) -> int
    decreases r.len(),
{
    if r.len() == 0 {
        0int
    } else {
        (if r[0].1 >= target {
            1int
        } else {
            0int
        }) + spec_count_acked(r.drop_first(), target)
    }
}

/// Entry ids are pairwise distinct, so counting entries counts replicas.
pub open spec fn reg_distinct(r: Seq<(Seq<u8>, u64)>) -> bool {
    forall|i: int, j: int| 0 <= i < j < r.len() ==> r[i].0 != r[j].0
}

/// The ids of the entries that acknowledge at least `target`.
pub open spec fn acked_ids(r: Seq<(Seq<u8>, u64)>, target: u64) -> Set<Seq<u8>> {
    Set::new(
        |id: Seq<u8>|
            exists|i: int| 0 <= i < r.len() && (#[trigger] r[i]).0 == id && r[i].1 >= target,
    )
}

/// With pairwise-distinct ids, the count that answers `WAIT` is the
/// cardinality of the set of replicas whose acknowledged offset has
/// reached the target.
pub proof fn lemma_count_is_cardinality(r: Seq<(Seq<u8>, u64)>, target: u64)
    requires
        reg_distinct(r),
    ensures
        acked_ids(r, target).finite(),
        spec_count_acked(r, target) == acked_ids(r, target).len(),
    decreases r.len(),
{
    if r.len() == 0 {
        assert(acked_ids(r, target) =~= Set::<Seq<u8>>::empty());
        assert(spec_count_acked(r, target) == 0);
    } else {
        let s = r.drop_last();
        let p = r.last();
        assert(reg_distinct(s)) by {
            assert forall|i: int, j: int| 0 <= i < j < s.len() implies s[i].0 != s[j].0 by {
                assert(s[i] == r[i]);
                assert(s[j] == r[j]);
            }
        }
        lemma_count_is_cardinality(s, target);
        assert(r =~= s.push(p));
        lemma_count_acked_push(s, p, target);
        if p.1 >= target {
            assert(acked_ids(r, target) =~= acked_ids(s, target).insert(p.0)) by {
                assert forall|id: Seq<u8>| acked_ids(r, target).contains(id) implies acked_ids(
                    s,
                    target,
                ).insert(p.0).contains(id) by {
                    let i = choose|i: int|
                        0 <= i < r.len() && (#[trigger] r[i]).0 == id && r[i].1 >= target;
                    if i < s.len() {
                        assert(s[i] == r[i]);
                        assert(acked_ids(s, target).contains(id));
                    } else {
                        assert(r[i] == p);
                    }
                }
                assert forall|id: Seq<u8>| acked_ids(s, target).insert(p.0).contains(
                    id,
                ) implies acked_ids(r, target).contains(id) by {
                    if id == p.0 {
                        assert(r[r.len() - 1] == p);
                        assert((r[r.len() - 1]).0 == id && r[r.len() - 1].1 >= target);
                    } else {
                        let i = choose|i: int|
                            0 <= i < s.len() && (#[trigger] s[i]).0 == id && s[i].1 >= target;
                        assert(r[i] == s[i]);
                        assert((r[i]).0 == id && r[i].1 >= target);
                    }
                }
            }
            assert(!acked_ids(s, target).contains(p.0)) by {
                if acked_ids(s, target).contains(p.0) {
                    let i = choose|i: int|
                        0 <= i < s.len() && (#[trigger] s[i]).0 == p.0 && s[i].1 >= target;
                    assert(r[i] == s[i]);
                    assert(r[i].0 == r[r.len() - 1].0);
                    assert(false);
                }
            }
            assert(acked_ids(s, target).insert(p.0).len() == acked_ids(s, target).len() + 1);
        } else {
            assert(acked_ids(r, target) =~= acked_ids(s, target)) by {
                assert forall|id: Seq<u8>| acked_ids(r, target).contains(id) implies acked_ids(
                    s,
                    target,
                ).contains(id) by {
                    let i = choose|i: int|
                        0 <= i < r.len() && (#[trigger] r[i]).0 == id && r[i].1 >= target;
                    assert(i < s.len());
                    assert(s[i] == r[i]);
                }
                assert forall|id: Seq<u8>| acked_ids(s, target).contains(id) implies acked_ids(
                    r,
                    target,
                ).contains(id) by {
                    let i = choose|i: int|
                        0 <= i < s.len() && (#[trigger] s[i]).0 == id && s[i].1 >= target;
                    assert(r[i] == s[i]);
                    assert((r[i]).0 == id && r[i].1 >= target);
                }
            }
        }
    }
}

proof fn lemma_reg_lookup_push(r: Seq<(Seq<u8>, u64)>, p: (Seq<u8>, u64), id: Seq<u8>)
    ensures
        spec_reg_lookup(r.push(p), id) == match spec_reg_lookup(r, id) {
            Some(off) => Some(off),
            None => if p.0 == id {
                Some(p.1)
            } else {
                None
            },
        },
    decreases r.len(),
{
    if r.len() == 0 {
        assert(r.push(p)[0] == p);
        assert(r.push(p).drop_first() =~= Seq::<(Seq<u8>, u64)>::empty());
        assert(spec_reg_lookup(Seq::<(Seq<u8>, u64)>::empty(), id) is None);
        if p.0 == id {
            assert(spec_reg_lookup(r.push(p), id) == Some(p.1));
        } else {
            assert(spec_reg_lookup(r.push(p), id) == spec_reg_lookup(
                Seq::<(Seq<u8>, u64)>::empty(),
                id,
            ));
        }
    } else {
        assert(r.push(p)[0] == r[0]);
        assert(r.push(p).drop_first() =~= r.drop_first().push(p));
        lemma_reg_lookup_push(r.drop_first(), p, id);
        if r[0].0 == id {
            assert(spec_reg_lookup(r.push(p), id) == Some(r[0].1));
        } else {
            assert(spec_reg_lookup(r.push(p), id) == spec_reg_lookup(r.drop_first().push(p), id));
        }
    }
}

proof fn lemma_count_acked_push(r: Seq<(Seq<u8>, u64)>, p: (Seq<u8>, u64), target: u64)
    ensures
        spec_count_acked(r.push(p), target) == spec_count_acked(r, target) + (if p.1 >= target {
            1int
        } else {
            0int
        }),
    decreases r.len(),
{
    if r.len() == 0 {
        assert(r.push(p)[0] == p);
        assert(r.push(p).drop_first() =~= Seq::<(Seq<u8>, u64)>::empty());
        assert(spec_count_acked(Seq::<(Seq<u8>, u64)>::empty(), target) == 0);
    } else {
        assert(r.push(p)[0] == r[0]);
        assert(r.push(p).drop_first() =~= r.drop_first().push(p));
        lemma_count_acked_push(r.drop_first(), p, target);
    }
}

/// The registry of attached replicas: connection id to acknowledged
/// offset. An entry is created on `PSYNC`, updated on `REPLCONF ACK`, and
/// removed on disconnect.
pub struct ReplicaRegistry {
    items: Vec<(Vec<u8>, u64)>,
}

impl View for ReplicaRegistry {
    type V = Seq<(Seq<u8>, u64)>;

    closed spec fn view(&self) -> Seq<(Seq<u8>, u64)> {
        reg_model(self.items@)
    }
}

impl ReplicaRegistry {
    /// An empty registry.
    pub fn new() -> (r: ReplicaRegistry)
        ensures
            r@ == Seq::<(Seq<u8>, u64)>::empty(),
            reg_distinct(r@),
    {
        let r = ReplicaRegistry { items: Vec::new() };
        proof {
            assert(r@ =~= Seq::<(Seq<u8>, u64)>::empty());
        }
        r
    }

    /// The acknowledged offset of `id`, if attached.
    pub fn lookup(&self, id: &[u8]) -> (r: Option<u64>)
        ensures
            r == spec_reg_lookup(self@, id@),
    {
        let ghost whole: Seq<(Seq<u8>, u64)> = self@;
        let mut i: usize = 0;
        proof {
            assert(whole.skip(0) =~= whole);
        }
        while i < self.items.len()
            invariant
                i <= whole.len(),
                whole == self@,
                whole == reg_model(self.items@),
                spec_reg_lookup(whole, id@) == spec_reg_lookup(whole.skip(i as int), id@),
            decreases whole.len() - i,
        {
            let pair = &self.items[i];
            proof {
                assert(whole.skip(i as int)[0] == whole[i as int]);
                assert(whole.skip(i as int).drop_first() =~= whole.skip(i + 1));
            }
            if eq_bytes(pair.0.as_slice(), id) {
                return Some(pair.1);
            }
            i = i + 1;
        }
        proof {
            assert(whole.skip(whole.len() as int) =~= Seq::<(Seq<u8>, u64)>::empty());
        }
        None
    }

    /// Is `id` attached?
    pub fn contains(&self, id: &[u8]) -> (r: bool)
        ensures
            r <==> spec_reg_lookup(self@, id@) is Some,
    {
        match self.lookup(id) {
            Some(_) => true,
            None => false,
        }
    }

    /// Attaches `id` or updates its acknowledged offset.
    pub fn insert(&mut self, id: Vec<u8>, offset: u64)
        requires
            reg_distinct(old(self)@),
        ensures
            reg_distinct(final(self)@),
            spec_reg_lookup(final(self)@, id@) == Some(offset),
            forall|id2: Seq<u8>|
                id2 != id@ ==> #[trigger] spec_reg_lookup(final(self)@, id2) == spec_reg_lookup(
                    old(self)@,
                    id2,
                ),
    {
        self.remove(id.as_slice());
        let ghost mid: Seq<(Seq<u8>, u64)> = self@;
        self.items.push((id, offset));
        proof {
            assert(self@ =~= mid.push((id@, offset)));
            assert forall|id2: Seq<u8>| true implies #[trigger] spec_reg_lookup(self@, id2)
                == match spec_reg_lookup(mid, id2) {
                Some(off) => Some(off),
                None => if id@ == id2 {
                    Some(offset)
                } else {
                    None
                },
            } by {
                lemma_reg_lookup_push(mid, (id@, offset), id2);
            }
            assert forall|i: int, j: int| 0 <= i < j < self@.len() implies self@[i].0
                != self@[j].0 by {
                if j < mid.len() {
                } else {
                    assert(self@[j].0 == id@);
                    assert(spec_reg_lookup(mid, self@[i].0) is Some) by {
                        lemma_reg_lookup_present(mid, i);
                    }
                }
            }
        }
    }

    /// Detaches `id`.
    pub fn remove(&mut self, id: &[u8])
        requires
            reg_distinct(old(self)@),
        ensures
            reg_distinct(final(self)@),
            spec_reg_lookup(final(self)@, id@) is None,
            forall|id2: Seq<u8>|
                id2 != id@ ==> #[trigger] spec_reg_lookup(final(self)@, id2) == spec_reg_lookup(
                    old(self)@,
                    id2,
                ),
    {
        let ghost whole: Seq<(Seq<u8>, u64)> = self@;
        let mut kept: Vec<(Vec<u8>, u64)> = Vec::new();
        let mut i: usize = 0;
        proof {
            assert(reg_model(kept@) =~= Seq::<(Seq<u8>, u64)>::empty());
            assert(whole.take(0) =~= Seq::<(Seq<u8>, u64)>::empty());
        }
        while i < self.items.len()
            invariant
                i <= whole.len(),
                whole == self@,
                whole == reg_model(self.items@),
                reg_distinct(whole),
                spec_reg_lookup(reg_model(kept@), id@) is None,
                forall|id2: Seq<u8>|
                    id2 != id@ ==> #[trigger] spec_reg_lookup(reg_model(kept@), id2)
                        == spec_reg_lookup(whole.take(i as int), id2),
                forall|a: int|
                    0 <= a < reg_model(kept@).len() ==> exists|j: int|
                        0 <= j < i && whole[j] == #[trigger] reg_model(kept@)[a],
                reg_distinct(reg_model(kept@)),
            decreases whole.len() - i,
        {
            let pair = &self.items[i];
            let ghost kept0: Seq<(Seq<u8>, u64)> = reg_model(kept@);
            let matches_id = eq_bytes(pair.0.as_slice(), id);
            if !matches_id {
                let id_copy: Vec<u8> = vstd::slice::slice_to_vec(pair.0.as_slice());
                kept.push((id_copy, pair.1));
            }
            proof {
                assert(whole.take(i + 1) =~= whole.take(i as int).push(whole[i as int]));
                if !matches_id {
                    assert(reg_model(kept@) =~= kept0.push(whole[i as int]));
                }
                assert forall|id2: Seq<u8>| id2 != id@ implies #[trigger] spec_reg_lookup(
                    reg_model(kept@),
                    id2,
                ) == spec_reg_lookup(whole.take(i + 1), id2) by {
                    lemma_reg_lookup_push(whole.take(i as int), whole[i as int], id2);
                    if !matches_id {
                        lemma_reg_lookup_push(kept0, whole[i as int], id2);
                    }
                }
                if !matches_id {
                    lemma_reg_lookup_push(kept0, whole[i as int], id@);
                    assert forall|a: int|
                        0 <= a < reg_model(kept@).len() implies exists|j: int|
                        0 <= j < i + 1 && whole[j] == #[trigger] reg_model(kept@)[a] by {
                        if a < kept0.len() {
                            assert(reg_model(kept@)[a] == kept0[a]);
                            let j0 = choose|j: int| 0 <= j < i && whole[j] == kept0[a];
                            assert(0 <= j0 < i + 1 && whole[j0] == reg_model(kept@)[a]);
                        } else {
                            assert(reg_model(kept@)[a] == whole[i as int]);
                            assert(0 <= i < i + 1 && whole[i as int] == reg_model(kept@)[a]);
                        }
                    }
                    assert forall|a: int, b: int|
                        0 <= a < b < reg_model(kept@).len() implies reg_model(kept@)[a].0
                        != reg_model(kept@)[b].0 by {
                        if b == reg_model(kept@).len() - 1 {
                            assert(reg_model(kept@)[b] == whole[i as int]);
                            assert(reg_model(kept@)[a] == kept0[a]);
                            let j0 = choose|j: int| 0 <= j < i && whole[j] == kept0[a];
                            assert(whole[j0].0 != whole[i as int].0);
                        } else {
                            assert(reg_model(kept@)[a] == kept0[a]);
                            assert(reg_model(kept@)[b] == kept0[b]);
                        }
                    }
                }
            }
            i = i + 1;
        }
        self.items = kept;
        proof {
            assert(whole.take(whole.len() as int) =~= whole);
        }
    }

    /// How many attached replicas have acknowledged at least `target`.
    pub fn count_acked(&self, target: u64) -> (r: u64)
        ensures
            r as int == spec_count_acked(self@, target),
            0 <= r as int <= self@.len(),
    {
        let ghost whole: Seq<(Seq<u8>, u64)> = self@;
        let mut count: u64 = 0;
        let mut i: usize = 0;
        proof {
            assert(whole.take(0) =~= Seq::<(Seq<u8>, u64)>::empty());
            lemma_count_acked_bounds(whole, target);
        }
        while i < self.items.len()
            invariant
                i <= whole.len(),
                whole == self@,
                whole == reg_model(self.items@),
                count as int == spec_count_acked(whole.take(i as int), target),
                count as int <= i,
            decreases whole.len() - i,
        {
            proof {
                assert(whole.take(i + 1) =~= whole.take(i as int).push(whole[i as int]));
                lemma_count_acked_push(whole.take(i as int), whole[i as int], target);
            }
            if self.items[i].1 >= target {
                count = count + 1;
            }
            i = i + 1;
        }
        proof {
            assert(whole.take(whole.len() as int) =~= whole);
        }
        count
    }

    /// The attached connection ids, in registration order.
    pub fn ids(&self) -> (r: Vec<Vec<u8>>)
        ensures
            r@.len() == self@.len(),
            forall|i: int| 0 <= i < r@.len() ==> (#[trigger] r@[i])@ == self@[i].0,
    {
        let mut out: Vec<Vec<u8>> = Vec::new();
        let mut i: usize = 0;
        while i < self.items.len()
            invariant
                i <= self.items@.len(),
                self@ == reg_model(self.items@),
                out@.len() == i,
                forall|j: int| 0 <= j < i ==> (#[trigger] out@[j])@ == self@[j].0,
            decreases self.items@.len() - i,
        {
            let id_copy: Vec<u8> = vstd::slice::slice_to_vec(self.items[i].0.as_slice());
            out.push(id_copy);
            i = i + 1;
        }
        out
    }

    /// How many replicas are attached.
    pub fn len(&self) -> (r: usize)
        ensures
            r == self@.len(),
    {
        self.items.len()
    }
}

/// A count never exceeds the number of entries.
proof fn lemma_count_acked_bounds(r: Seq<(Seq<u8>, u64)>, target: u64)
    ensures
        0 <= spec_count_acked(r, target) <= r.len(),
    decreases r.len(),
{
    if r.len() > 0 {
        lemma_count_acked_bounds(r.drop_first(), target);
    }
}

/// An entry of a sequence can be looked up.
proof fn lemma_reg_lookup_present(r: Seq<(Seq<u8>, u64)>, i: int)
    requires
        0 <= i < r.len(),
    ensures
        spec_reg_lookup(r, r[i].0) is Some,
    decreases r.len(),
{
    if r[0].0 != r[i].0 {
        assert(i > 0);
        assert(r.drop_first()[i - 1] == r[i]);
        lemma_reg_lookup_present(r.drop_first(), i - 1);
    }
}

/// A member of a prefix is a member with an index below the cut.
proof fn lemma_take_member_index(r: Seq<(Seq<u8>, u64)>, n: int, p: (Seq<u8>, u64))
    requires
        0 <= n <= r.len(),
        r.take(n).to_set().contains(p),
    ensures
        exists|j: int| 0 <= j < n && r[j] == p,
{
    let j = choose|j: int| 0 <= j < r.take(n).len() && r.take(n)[j] == p;
    assert(r[j] == p);
}

/// Prefix membership survives extending the prefix.
proof fn lemma_take_to_set_grows(r: Seq<(Seq<u8>, u64)>, n: int, p: (Seq<u8>, u64))
    requires
        0 <= n < r.len(),
        r.take(n).to_set().contains(p),
    ensures
        r.take(n + 1).to_set().contains(p),
{
    let j = choose|j: int| 0 <= j < r.take(n).len() && r.take(n)[j] == p;
    assert(r.take(n + 1)[j] == p);
}

/// The value a `GET` of `k` observes at time `now`: present and either
/// non-expiring or not yet past its expiry instant.
pub open spec fn spec_live_value(
    m: Map<Seq<u8>, StoreItemModel>,
    k: Seq<u8>,
    now: u64,
) -> Option<ValueModel> {
    if m.contains_key(k) && (m[k].expired_at == 0 || m[k].expired_at >= now) {
        Some(m[k].value)
    } else {
        None
    }
}

/// The whole server state owned by the executor: configuration, store,
/// replica registry, the master replication offset, and the advertised
/// replication id.
pub struct Redis {
    pub config: RedisConfig,
    pub store: Store,
    pub replicas: ReplicaRegistry,
    pub master_repl_offset: u64,
    pub replica_id: Vec<u8>,
}

impl Redis {
    /// A fresh server with an empty store and no replicas.
    pub fn new(config: RedisConfig, replica_id: Vec<u8>) -> (r: Redis)
        ensures
            r.config == config,
            r.store@ == Map::<Seq<u8>, StoreItemModel>::empty(),
            r.replicas@ == Seq::<(Seq<u8>, u64)>::empty(),
            reg_distinct(r.replicas@),
            r.master_repl_offset == 0,
            r.replica_id == replica_id,
    {
        Redis {
            config,
            store: Store::new(),
            replicas: ReplicaRegistry::new(),
            master_repl_offset: 0,
            replica_id,
        }
    }

    /// Is this node a master (not following anyone)?
    pub fn is_master(&self) -> (r: bool)
        ensures
            r <==> self.config.replicaof is None,
    {
        match &self.config.replicaof {
            None => true,
            Some(_) => false,
        }
    }
}

} // verus!
