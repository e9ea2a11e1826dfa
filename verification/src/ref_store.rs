//! Reference pictures for motion compensation.
use crate::picture::Picture;
use std::collections::HashMap;
use vstd::prelude::*;

verus! {

broadcast use vstd::std_specs::hash::group_hash_axioms;

/// What a provider of reference pictures knows.
///
/// `list` is 0 for RefPicList0 and 1 for RefPicList1, `idx` a position in that list.
pub struct RefsV {
    pub pic: spec_fn(u8, u32) -> Option<Picture>,
    pub list_0_pocs: Seq<i32>,
    pub list_0_longterm: Seq<bool>,
    pub list_1_longterm: Seq<bool>,
    pub field_parity: spec_fn(u8, u32) -> Option<u8>,
    pub list_0_keys: Seq<u32>,
    pub list_0_unit_keys: Seq<u32>,
    pub list_0_parities: Seq<Option<u8>>,
    pub entry_identity: spec_fn(u8, u32) -> Option<(u32, Option<u8>, u32)>,
    pub entry_unit_focs: spec_fn(u8, u32) -> Option<(i32, i32)>,
    pub pair_field: spec_fn(u8, u32, bool) -> Option<Picture>,
}

impl RefsV {
    /// A provider that serves pictures only.
    pub open spec fn plain(pic: spec_fn(u8, u32) -> Option<Picture>) -> RefsV {
        RefsV {
            pic,
            list_0_pocs: Seq::empty(),
            list_0_longterm: Seq::empty(),
            list_1_longterm: Seq::empty(),
            field_parity: |list: u8, idx: u32| None,
            list_0_keys: Seq::empty(),
            list_0_unit_keys: Seq::empty(),
            list_0_parities: Seq::empty(),
            entry_identity: |list: u8, idx: u32| None,
            entry_unit_focs: |list: u8, idx: u32| None,
            pair_field: |list: u8, idx: u32, bottom: bool| None,
        }
    }

    pub open spec fn poc(self, list: u8, idx: u32) -> Option<i32> {
        match (self.pic)(list, idx) {
            Some(p) => Some(p.pic_order_cnt),
            None => None,
        }
    }
}

/// The picture behind an optional reference.
pub open spec fn pic_of(r: Option<&Picture>) -> Option<Picture> {
    match r {
        Some(p) => Some(*p),
        None => None,
    }
}

/// Source of the reference pictures of a slice.
pub trait RefPicProvider {
    /// Everything this provider answers.
    spec fn refs(&self) -> RefsV;

    /// The picture at a place of a reference list.
    fn ref_pic(&self, list: u8, idx: u32) -> (r: Option<&Picture>)
        ensures
            pic_of(r) == (self.refs().pic)(list, idx),
    ;

    /// Picture order count of the picture at a place of a reference list.
    fn ref_pic_poc(&self, list: u8, idx: u32) -> (r: Option<i32>)
        ensures
            r == self.refs().poc(list, idx),
    {
        match self.ref_pic(list, idx) {
            Some(p) => Some(p.pic_order_cnt),
            None => None,
        }
    }

    /// Picture order counts of the entries of RefPicList0.
    fn ref_list_0_pocs(&self) -> (r: &[i32])
        ensures
            r@ == self.refs().list_0_pocs,
    ;

    /// Which entries of RefPicList0 are long-term references.
    fn ref_list_0_longterm(&self) -> (r: &[bool])
        ensures
            r@ == self.refs().list_0_longterm,
    ;

    /// Which entries of RefPicList1 are long-term references.
    fn ref_list_1_longterm(&self) -> (r: &[bool])
        ensures
            r@ == self.refs().list_1_longterm,
    ;

    /// Parity of the reference field at a place of a list of a field slice: 0 top, 1 bottom.
    fn ref_field_parity(&self, list: u8, idx: u32) -> (r: Option<u8>)
        ensures
            r == (self.refs().field_parity)(list, idx),
    ;

    /// Storage keys of the entries of RefPicList0.
    fn ref_list_0_keys(&self) -> (r: &[u32])
        ensures
            r@ == self.refs().list_0_keys,
    ;

    /// Keys of the frames that hold the entries of RefPicList0.
    fn ref_list_0_unit_keys(&self) -> (r: &[u32])
        ensures
            r@ == self.refs().list_0_unit_keys,
    ;

    /// Field parities of the entries of RefPicList0; `None` for frames and field pairs.
    fn ref_list_0_parities(&self) -> (r: &[Option<u8>])
        ensures
            r@ == self.refs().list_0_parities,
    ;

    /// Storage key, parity and frame key of the entry at a place of a list.
    fn ref_entry_identity(&self, list: u8, idx: u32) -> (r: Option<(u32, Option<u8>, u32)>)
        ensures
            r == (self.refs().entry_identity)(list, idx),
    ;

    /// Top and bottom field order counts of the frame at a place of a list of a frame slice.
    fn ref_entry_unit_focs(&self, list: u8, idx: u32) -> (r: Option<(i32, i32)>)
        ensures
            r == (self.refs().entry_unit_focs)(list, idx),
    ;

    /// The stored field of a complementary field pair at a place of a list of a frame slice.
    fn ref_pair_field(&self, list: u8, idx: u32, bottom: bool) -> (r: Option<&Picture>)
        ensures
            pic_of(r) == (self.refs().pair_field)(list, idx, bottom),
    ;
}

/// Pictures by key, with two lists of keys.
pub struct RefPicStore {
    pictures: HashMap<u32, Picture>,
    ref_pic_list_0: Vec<u32>,
    ref_pic_list_1: Vec<u32>,
}

impl Default for RefPicStore {
    fn default() -> (r: RefPicStore)
        ensures
            r.stored() == Map::<u32, Picture>::empty(),
            r.list(0) == Seq::<u32>::empty(),
            r.list(1) == Seq::<u32>::empty(),
    {
        RefPicStore::new()
    }
}

impl RefPicStore {
    /// The stored pictures by key.
    pub closed spec fn stored(&self) -> Map<u32, Picture> {
        self.pictures@
    }

    /// The keys of a reference list.
    pub closed spec fn list(&self, list: u8) -> Seq<u32> {
        if list == 0 {
            self.ref_pic_list_0@
        } else {
            self.ref_pic_list_1@
        }
    }

    /// An empty store with empty lists.
    pub fn new() -> (r: RefPicStore)
        ensures
            r.stored() == Map::<u32, Picture>::empty(),
            r.list(0) == Seq::<u32>::empty(),
            r.list(1) == Seq::<u32>::empty(),
    {
        RefPicStore {
            pictures: HashMap::new(),
            ref_pic_list_0: Vec::new(),
            ref_pic_list_1: Vec::new(),
        }
    }

    /// Stores `pic` at `key`, in place of any picture stored there before.
    pub fn insert(&mut self, key: u32, pic: Picture)
        ensures
            final(self).stored() == old(self).stored().insert(key, pic),
            final(self).list(0) == old(self).list(0),
            final(self).list(1) == old(self).list(1),
    {
        self.pictures.insert(key, pic);
    }

    /// Drops every picture whose key is not in `live`.
    pub fn retain_keys(&mut self, live: &[u32])
        ensures
            final(self).stored() == old(self).stored().restrict(live@.to_set()),
            final(self).list(0) == old(self).list(0),
            final(self).list(1) == old(self).list(1),
    {
        let mut kept: HashMap<u32, Picture> = HashMap::new();
        let ghost all = self.pictures@;
        let mut i: usize = 0;
        while i < live.len()
            invariant
                i <= live.len(),
                all == old(self).stored(),
                self.ref_pic_list_0@ == old(self).ref_pic_list_0@,
                self.ref_pic_list_1@ == old(self).ref_pic_list_1@,
                forall|k: u32|
                    kept@.dom().contains(k) == (all.dom().contains(k) && live@.take(
                        i as int,
                    ).contains(k)),
                forall|k: u32| kept@.dom().contains(k) ==> kept@[k] == all[k],
                forall|k: u32|
                    self.pictures@.dom().contains(k) == (all.dom().contains(k) && !live@.take(
                        i as int,
                    ).contains(k)),
                forall|k: u32| self.pictures@.dom().contains(k) ==> self.pictures@[k] == all[k],
            decreases live.len() - i,
        {
            let key: u32 = live[i];
            proof {
                assert(live@.take(i + 1) =~= live@.take(i as int).push(key));
                assert forall|k: u32| #[trigger]
                    live@.take(i + 1).contains(k) == (live@.take(i as int).contains(k) || k
                        == key) by {
                    let s = live@.take(i as int);
                    if s.contains(k) {
                        let j = choose|j: int| 0 <= j < s.len() && s[j] == k;
                        assert(s.push(key)[j] == k);
                    }
                    if k == key {
                        assert(s.push(key)[i as int] == k);
                    }
                    if s.push(key).contains(k) {
                        let j = choose|j: int| 0 <= j < s.push(key).len() && s.push(key)[j] == k;
                        if j < i {
                            assert(s[j] == k);
                        }
                    }
                }
            }
            let ghost rest = self.pictures@;
            let ghost had = kept@;
            assert forall|k: u32|
                #[trigger] rest.dom().contains(k) == (all.dom().contains(k) && !live@.take(
                    i as int,
                ).contains(k)) by {}
            assert forall|k: u32|
                #[trigger] had.dom().contains(k) == (all.dom().contains(k) && live@.take(
                    i as int,
                ).contains(k)) by {}
            let taken = self.pictures.remove(&key);
            assert(self.pictures@ =~= rest.remove(key));
            if let Some(p) = taken {
                kept.insert(key, p);
            }
            assert(taken is Some == rest.dom().contains(key));
            assert forall|k: u32|
                #[trigger] kept@.dom().contains(k) == (had.dom().contains(k) || (k == key
                    && rest.dom().contains(key))) by {}
            assert forall|k: u32|
                #[trigger] self.pictures@.dom().contains(k) == (rest.dom().contains(k) && k != key) by {}
            assert forall|k: u32|
                kept@.dom().contains(k) == (all.dom().contains(k) && live@.take(i + 1).contains(
                    k,
                )) by {
                assert(live@.take(i + 1).contains(k) == (live@.take(i as int).contains(k) || k
                    == key));
            }
            assert forall|k: u32|
                self.pictures@.dom().contains(k) == (all.dom().contains(k) && !live@.take(
                    i + 1,
                ).contains(k)) by {
                assert(live@.take(i + 1).contains(k) == (live@.take(i as int).contains(k) || k
                    == key));
            }
            i += 1;
        }
        assert(live@.take(live.len() as int) =~= live@);
        assert(kept@ =~= all.restrict(live@.to_set()));
        self.pictures = kept;
    }

    /// Number of stored pictures.
    pub fn stored_count(&self) -> (r: usize)
        ensures
            r == self.stored().len(),
            self.stored().dom().finite(),
    {
        self.pictures.len()
    }

    /// Replaces the keys of RefPicList0.
    pub fn set_list_0(&mut self, keys: Vec<u32>)
        ensures
            final(self).list(0) == keys@,
            final(self).list(1) == old(self).list(1),
            final(self).stored() == old(self).stored(),
    {
        self.ref_pic_list_0 = keys;
    }

    /// Replaces the keys of RefPicList1.
    pub fn set_list_1(&mut self, keys: Vec<u32>)
        ensures
            final(self).list(1) == keys@,
            final(self).list(0) == old(self).list(0),
            final(self).stored() == old(self).stored(),
    {
        self.ref_pic_list_1 = keys;
    }

    /// The picture stored at `key`.
    pub fn get_by_key(&self, key: u32) -> (r: Option<&Picture>)
        ensures
            pic_of(r) == (if self.stored().dom().contains(key) {
                Some(self.stored()[key])
            } else {
                None
            }),
    {
        self.pictures.get(&key)
    }

    /// The picture a reference list names at `idx`; lists other than 0 and 1 name none.
    pub open spec fn lookup(&self, list: u8, idx: u32) -> Option<Picture> {
        if list <= 1 && idx < self.list(list).len() && self.stored().dom().contains(
            self.list(list)[idx as int],
        ) {
            Some(self.stored()[self.list(list)[idx as int]])
        } else {
            None
        }
    }
}

impl RefPicProvider for RefPicStore {
    open spec fn refs(&self) -> RefsV {
        RefsV::plain(|list: u8, idx: u32| self.lookup(list, idx))
    }

    fn ref_pic(&self, list: u8, idx: u32) -> (r: Option<&Picture>) {
        let keys = match list {
            0 => &self.ref_pic_list_0,
            1 => &self.ref_pic_list_1,
            _ => return None,
        };
        if (idx as usize) < keys.len() {
            self.get_by_key(keys[idx as usize])
        } else {
            None
        }
    }

    fn ref_list_0_pocs(&self) -> (r: &[i32]) {
        &[]
    }

    fn ref_list_0_longterm(&self) -> (r: &[bool]) {
        &[]
    }

    fn ref_list_1_longterm(&self) -> (r: &[bool]) {
        &[]
    }

    fn ref_field_parity(&self, _list: u8, _idx: u32) -> (r: Option<u8>) {
        None
    }

    fn ref_list_0_keys(&self) -> (r: &[u32]) {
        &[]
    }

    fn ref_list_0_unit_keys(&self) -> (r: &[u32]) {
        &[]
    }

    fn ref_list_0_parities(&self) -> (r: &[Option<u8>]) {
        &[]
    }

    fn ref_entry_identity(&self, _list: u8, _idx: u32) -> (r: Option<(u32, Option<u8>, u32)>) {
        None
    }

    fn ref_entry_unit_focs(&self, _list: u8, _idx: u32) -> (r: Option<(i32, i32)>) {
        None
    }

    fn ref_pair_field(&self, _list: u8, _idx: u32, _bottom: bool) -> (r: Option<&Picture>) {
        None
    }
}

/// Provider for slices without inter prediction: it has no picture.
pub struct NoRefs;

impl RefPicProvider for NoRefs {
    open spec fn refs(&self) -> RefsV {
        RefsV::plain(|list: u8, idx: u32| None)
    }

    fn ref_pic(&self, _list: u8, _idx: u32) -> (r: Option<&Picture>) {
        None
    }

    fn ref_list_0_pocs(&self) -> (r: &[i32]) {
        &[]
    }

    fn ref_list_0_longterm(&self) -> (r: &[bool]) {
        &[]
    }

    fn ref_list_1_longterm(&self) -> (r: &[bool]) {
        &[]
    }

    fn ref_field_parity(&self, _list: u8, _idx: u32) -> (r: Option<u8>) {
        None
    }

    fn ref_list_0_keys(&self) -> (r: &[u32]) {
        &[]
    }

    fn ref_list_0_unit_keys(&self) -> (r: &[u32]) {
        &[]
    }

    fn ref_list_0_parities(&self) -> (r: &[Option<u8>]) {
        &[]
    }

    fn ref_entry_identity(&self, _list: u8, _idx: u32) -> (r: Option<(u32, Option<u8>, u32)>) {
        None
    }

    fn ref_entry_unit_focs(&self, _list: u8, _idx: u32) -> (r: Option<(i32, i32)>) {
        None
    }

    fn ref_pair_field(&self, _list: u8, _idx: u32, _bottom: bool) -> (r: Option<&Picture>) {
        None
    }
}

/// After a picture was stored, a list entry with its key finds it, and every other entry finds what
/// it found before.
pub proof fn law_lookup_after_insert(
    before: RefPicStore,
    after: RefPicStore,
    key: u32,
    pic: Picture,
    list: u8,
    idx: u32,
)
    requires
        after.stored() == before.stored().insert(key, pic),
        after.list(0) == before.list(0),
        after.list(1) == before.list(1),
    ensures
        after.lookup(list, idx) == if list <= 1 && idx < before.list(list).len() && before.list(
            list,
        )[idx as int] == key {
            Some(pic)
        } else {
            before.lookup(list, idx)
        },
{
    assert(list <= 1 ==> list == 0 || list == 1);
}

/// After pruning, a list entry finds its picture exactly when its key was kept.
pub proof fn law_lookup_after_retain(
    before: RefPicStore,
    after: RefPicStore,
    live: Seq<u32>,
    list: u8,
    idx: u32,
)
    requires
        after.stored() == before.stored().restrict(live.to_set()),
        after.list(0) == before.list(0),
        after.list(1) == before.list(1),
    ensures
        after.lookup(list, idx) == if list <= 1 && idx < before.list(list).len() && live.contains(
            before.list(list)[idx as int],
        ) {
            before.lookup(list, idx)
        } else {
            None
        },
{
    assert(list <= 1 ==> list == 0 || list == 1);
}

/// Pruning bounds the store by the number of keys that are kept.
pub proof fn law_pruned_store_is_bounded(stored: Map<u32, Picture>, live: Seq<u32>)
    ensures
        stored.restrict(live.to_set()).len() <= live.len(),
{
    let kept = stored.restrict(live.to_set());
    assert(kept.dom() =~= stored.dom().intersect(live.to_set()));
    live.lemma_cardinality_of_set();
    assert(kept.dom().subset_of(live.to_set()));
    vstd::set_lib::lemma_len_subset(kept.dom(), live.to_set());
}

/// Pruning twice with the same keys is pruning once.
pub proof fn law_pruning_is_idempotent(stored: Map<u32, Picture>, live: Seq<u32>)
    ensures
        stored.restrict(live.to_set()).restrict(live.to_set()) == stored.restrict(live.to_set()),
{
    let s = live.to_set();
    assert(stored.restrict(s).restrict(s) =~= stored.restrict(s));
}

/// The empty provider has no picture anywhere.
pub proof fn law_no_refs_has_none(list: u8, idx: u32)
    ensures
        (NoRefs.refs().pic)(list, idx) is None,
        NoRefs.refs().poc(list, idx) is None,
{
}

/// A store holds finitely many pictures.
pub proof fn law_store_is_finite(s: RefPicStore)
    ensures
        s.stored().dom().finite(),
{
}

/// Storing a picture at a key that holds none adds one to the count; replacing the picture of a key
/// adds none.
pub proof fn law_count_after_insert(
    before: RefPicStore,
    after: RefPicStore,
    key: u32,
    pic: Picture,
)
    requires
        after.stored() == before.stored().insert(key, pic),
    ensures
        after.stored().len() == before.stored().len() + if before.stored().dom().contains(key) {
            0int
        } else {
            1int
        },
{
    law_store_is_finite(before);
    let d = before.stored().dom();
    assert(after.stored().dom() =~= d.insert(key));
    if d.contains(key) {
        assert(d.insert(key) =~= d);
    }
}

/// The count is the number of keys at which a picture is found.
pub proof fn law_count_is_number_of_keys(s: RefPicStore)
    ensures
        s.stored().len() == Set::<u32>::new(|k: u32| s.stored().dom().contains(k)).len(),
{
    assert(Set::<u32>::new(|k: u32| s.stored().dom().contains(k)) =~= s.stored().dom());
}

} // verus!
