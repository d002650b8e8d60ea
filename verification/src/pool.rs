//! The reference frame pool: a capacity-bounded store of frame payloads with
//! a two-class (short-term / long-term) FIFO eviction policy.

use vstd::prelude::*;
use std::collections::HashMap;

verus! {

broadcast use vstd::std_specs::hash::group_hash_axioms;

/// The mathematical state of a pool: a map from frame id to payload, the two
/// class lists in insertion order, the fixed capacity, and the id counter.
#[verifier::ext_equal]
pub ghost struct PoolModel {
    pub capacity: nat,
    pub frames: Map<u32, Seq<u8>>,
    pub short: Seq<u32>,
    pub long: Seq<u32>,
    pub next_id: u32,
}

/// Structural invariant of a pool state: the class lists are duplicate-free
/// and disjoint, together they list exactly the stored frame ids, and every
/// stored id is below the id counter.
pub open spec fn pool_inv(s: PoolModel) -> bool {
    &&& s.frames.dom().finite()
    &&& s.short.no_duplicates()
    &&& s.long.no_duplicates()
    &&& forall|id: u32| !(#[trigger] s.short.contains(id) && #[trigger] s.long.contains(id))
    &&& forall|id: u32|
        #![trigger s.frames.contains_key(id)]
        #![trigger s.short.contains(id)]
        #![trigger s.long.contains(id)]
        s.frames.contains_key(id) <==> (s.short.contains(id) || s.long.contains(id))
    &&& forall|id: u32| #[trigger] s.frames.contains_key(id) ==> id < s.next_id
}

/// A well-formed pool state: the invariant holds and the number of stored
/// frames does not exceed the capacity.
pub open spec fn pool_wf(s: PoolModel) -> bool {
    pool_inv(s) && s.frames.dom().len() <= s.capacity
}

/// The state of a freshly constructed pool.
pub open spec fn empty_pool(capacity: nat) -> PoolModel {
    PoolModel {
        capacity: capacity,
        frames: Map::empty(),
        short: Seq::empty(),
        long: Seq::empty(),
        next_id: 0,
    }
}

/// One step of the eviction policy: the oldest short-term frame leaves the
/// pool; only when no short-term frame remains does the oldest long-term
/// frame leave. On a state with no frames at all the step does nothing.
pub open spec fn evict_step(s: PoolModel) -> PoolModel {
    if s.short.len() > 0 {
        PoolModel { frames: s.frames.remove(s.short[0]), short: s.short.drop_first(), ..s }
    } else if s.long.len() > 0 {
        PoolModel { frames: s.frames.remove(s.long[0]), long: s.long.drop_first(), ..s }
    } else {
        s
    }
}

/// The eviction policy run to completion: eviction steps are taken until the
/// number of stored frames no longer exceeds the capacity, or nothing is left
/// to evict.
pub open spec fn evict_all(s: PoolModel) -> PoolModel
    decreases s.short.len() + s.long.len(),
{
    if s.frames.dom().len() > s.capacity && (s.short.len() > 0 || s.long.len() > 0) {
        evict_all(evict_step(s))
    } else {
        s
    }
}

/// The state right after an insertion, before eviction runs: the payload is
/// stored under the id `s.next_id`, that id is appended to the chosen class
/// list, and the counter advances.
pub open spec fn add_inserted(s: PoolModel, data: Seq<u8>, is_long_term: bool) -> PoolModel {
    PoolModel {
        capacity: s.capacity,
        frames: s.frames.insert(s.next_id, data),
        short: if is_long_term { s.short } else { s.short.push(s.next_id) },
        long: if is_long_term { s.long.push(s.next_id) } else { s.long },
        next_id: (s.next_id + 1) as u32,
    }
}

/// The full effect of an addition: insertion followed by eviction.
pub open spec fn add_spec(s: PoolModel, data: Seq<u8>, is_long_term: bool) -> PoolModel {
    evict_all(add_inserted(s, data, is_long_term))
}

proof fn lemma_drop_first_props(s: Seq<u32>)
    requires
        s.len() > 0,
        s.no_duplicates(),
    ensures
        s.drop_first().no_duplicates(),
        forall|x: u32|
            #![trigger s.drop_first().contains(x)]
            s.drop_first().contains(x) <==> (s.contains(x) && x != s[0]),
{
    assert forall|x: u32| s.drop_first().contains(x) implies (s.contains(x) && x != s[0]) by {
        let i = choose|i: int| 0 <= i < s.drop_first().len() && s.drop_first()[i] == x;
        assert(s[i + 1] == x);
    };
    assert forall|x: u32| s.contains(x) && x != s[0] implies s.drop_first().contains(x) by {
        let i = choose|i: int| 0 <= i < s.len() && s[i] == x;
        assert(s.drop_first()[i - 1] == x);
    };
    assert forall|i: int, j: int|
        0 <= i < s.drop_first().len() && 0 <= j < s.drop_first().len() && i != j implies s.drop_first()[i]
        != s.drop_first()[j] by {
        assert(s.drop_first()[i] == s[i + 1]);
        assert(s.drop_first()[j] == s[j + 1]);
    };
}

/// One eviction step preserves the invariant, never touches the capacity or
/// the id counter, and removes exactly one frame when any frame remains.
pub proof fn lemma_evict_step(s: PoolModel)
    requires
        pool_inv(s),
    ensures
        pool_inv(evict_step(s)),
        evict_step(s).capacity == s.capacity,
        evict_step(s).next_id == s.next_id,
        (s.short.len() > 0 || s.long.len() > 0) ==> {
            &&& evict_step(s).frames.dom().len() == s.frames.dom().len() - 1
            &&& evict_step(s).short.len() + evict_step(s).long.len() == s.short.len()
                + s.long.len() - 1
        },
{
    if s.short.len() > 0 {
        let victim = s.short[0];
        assert(s.short.contains(victim));
        assert(s.frames.contains_key(victim));
        lemma_drop_first_props(s.short);
        let t = evict_step(s);
        assert forall|id: u32| t.frames.contains_key(id) implies (t.short.contains(id)
            || t.long.contains(id)) by {
            assert(s.frames.contains_key(id) && id != victim);
        };
        assert forall|id: u32| t.short.contains(id) || t.long.contains(id) implies t.frames.contains_key(
            id,
        ) by {
            if t.short.contains(id) {
                assert(s.short.contains(id) && id != victim);
            } else {
                assert(s.long.contains(id));
                assert(id != victim);
            }
        };
        assert(t.frames.dom() =~= s.frames.dom().remove(victim));
    } else if s.long.len() > 0 {
        let victim = s.long[0];
        assert(s.long.contains(victim));
        assert(s.frames.contains_key(victim));
        lemma_drop_first_props(s.long);
        let t = evict_step(s);
        assert forall|id: u32| t.frames.contains_key(id) implies (t.short.contains(id)
            || t.long.contains(id)) by {
            assert(s.frames.contains_key(id) && id != victim);
        };
        assert forall|id: u32| t.short.contains(id) || t.long.contains(id) implies t.frames.contains_key(
            id,
        ) by {
            if t.long.contains(id) {
                assert(s.long.contains(id) && id != victim);
            } else {
                assert(s.short.contains(id));
                assert(id != victim);
            }
        };
        assert(t.frames.dom() =~= s.frames.dom().remove(victim));
    }
}

/// The eviction policy run to completion preserves the invariant, never
/// touches the capacity or the id counter, and restores the capacity bound.
pub proof fn lemma_evict_all(s: PoolModel)
    requires
        pool_inv(s),
    ensures
        pool_wf(evict_all(s)),
        evict_all(s).capacity == s.capacity,
        evict_all(s).next_id == s.next_id,
    decreases s.short.len() + s.long.len(),
{
    if s.frames.dom().len() > s.capacity && (s.short.len() > 0 || s.long.len() > 0) {
        lemma_evict_step(s);
        lemma_evict_all(evict_step(s));
    } else {
        if s.frames.dom().len() > s.capacity {
            assert(s.frames.dom() =~= Set::<u32>::empty());
        }
    }
}

/// A promotion of `id` succeeds exactly when a frame with that id is stored
/// and is not already long-term.
pub open spec fn promote_allowed(s: PoolModel, id: u32) -> bool {
    s.frames.contains_key(id) && !s.long.contains(id)
}

/// The effect of a promotion: when allowed, the id leaves the short-term
/// list, the order of the remaining short-term ids is preserved, and the id
/// is appended to the end of the long-term list; otherwise the state is
/// unchanged. Promotion never changes the stored frames.
pub open spec fn promote_spec(s: PoolModel, id: u32) -> PoolModel {
    if promote_allowed(s, id) {
        PoolModel { short: s.short.remove_value(id), long: s.long.push(id), ..s }
    } else {
        s
    }
}

proof fn lemma_remove_first_occurrence(s: Seq<u32>, x: u32, pos: int)
    requires
        s.no_duplicates(),
        0 <= pos < s.len(),
        s[pos] == x,
        forall|j: int| 0 <= j < pos ==> s[j] != x,
    ensures
        s.remove_value(x) == s.remove(pos),
        s.remove(pos).no_duplicates(),
        forall|y: u32|
            #![trigger s.remove(pos).contains(y)]
            s.remove(pos).contains(y) <==> (s.contains(y) && y != x),
{
    assert(s.contains(x));
    s.index_of_first_ensures(x);
    let i = s.index_of_first(x).unwrap();
    assert(i == pos) by {
        if i < pos {
            assert(s[i] != x);
        } else if i > pos {
            assert(s[pos] != x);
        }
    };
    s.remove_ensures(pos);
    let t = s.remove(pos);
    assert forall|y: u32| t.contains(y) implies (s.contains(y) && y != x) by {
        let k = choose|k: int| 0 <= k < t.len() && t[k] == y;
        if k < pos {
            assert(s[k] == y);
            if y == x {
                assert(s[k] == s[pos]);
            }
        } else {
            assert(s[k + 1] == y);
            if y == x {
                assert(s[k + 1] == s[pos]);
            }
        }
    };
    assert forall|y: u32| s.contains(y) && y != x implies t.contains(y) by {
        let k = choose|k: int| 0 <= k < s.len() && s[k] == y;
        if k < pos {
            assert(t[k] == y);
        } else {
            assert(k > pos);
            assert(t[k - 1] == y);
        }
    };
    assert forall|k: int, l: int| 0 <= k < t.len() && 0 <= l < t.len() && k != l implies t[k]
        != t[l] by {
        let k0: int = if k < pos { k } else { k + 1 };
        let l0: int = if l < pos { l } else { l + 1 };
        assert(t[k] == s[k0] && t[l] == s[l0]);
    };
}

/// Promotion preserves the invariant, the stored frames, the capacity and
/// the id counter.
pub proof fn lemma_promote_inv(s: PoolModel, id: u32)
    requires
        pool_inv(s),
    ensures
        pool_inv(promote_spec(s, id)),
        promote_spec(s, id).frames == s.frames,
        promote_spec(s, id).capacity == s.capacity,
        promote_spec(s, id).next_id == s.next_id,
{
    if promote_allowed(s, id) {
        assert(s.short.contains(id));
        s.short.index_of_first_ensures(id);
        let pos = s.short.index_of_first(id).unwrap();
        lemma_remove_first_occurrence(s.short, id, pos);
        lemma_push_props(s.long, id);
        let t = promote_spec(s, id);
        assert forall|k: u32| t.frames.contains_key(k) implies (t.short.contains(k)
            || t.long.contains(k)) by {
            if k != id {
                assert(s.short.contains(k) || s.long.contains(k));
            }
        };
        assert forall|k: u32| t.short.contains(k) || t.long.contains(k) implies t.frames.contains_key(
            k,
        ) by {
            if t.short.contains(k) {
                assert(s.short.contains(k));
            } else if k != id {
                assert(s.long.contains(k));
            }
        };
        assert forall|k: u32| !(#[trigger] t.short.contains(k) && #[trigger] t.long.contains(k)) by {
            if t.short.contains(k) {
                assert(s.short.contains(k) && k != id);
            }
        };
    }
}

proof fn lemma_push_props(s: Seq<u32>, x: u32)
    requires
        s.no_duplicates(),
        !s.contains(x),
    ensures
        s.push(x).no_duplicates(),
        forall|y: u32|
            #![trigger s.push(x).contains(y)]
            s.push(x).contains(y) <==> (s.contains(y) || y == x),
{
    assert(s.push(x)[s.len() as int] == x);
    assert forall|y: u32| s.push(x).contains(y) implies (s.contains(y) || y == x) by {
        let i = choose|i: int| 0 <= i < s.push(x).len() && s.push(x)[i] == y;
        if i < s.len() {
            assert(s[i] == y);
        }
    };
    assert forall|y: u32| s.contains(y) || y == x implies s.push(x).contains(y) by {
        if s.contains(y) {
            let i = choose|i: int| 0 <= i < s.len() && s[i] == y;
            assert(s.push(x)[i] == y);
        }
    };
    assert forall|i: int, j: int|
        0 <= i < s.push(x).len() && 0 <= j < s.push(x).len() && i != j implies s.push(x)[i]
        != s.push(x)[j] by {
        if i < s.len() && j < s.len() {
            assert(s.push(x)[i] == s[i] && s.push(x)[j] == s[j]);
        } else if i == s.len() {
            assert(s.push(x)[j] == s[j]);
            if s[j] == x {
                assert(s.contains(x));
            }
        } else {
            assert(s.push(x)[i] == s[i]);
            if s[i] == x {
                assert(s.contains(x));
            }
        }
    };
}

/// Inserting a fresh frame preserves the invariant: the assigned id is new
/// to the pool, and the counter advances past it.
pub proof fn lemma_add_inserted_inv(s: PoolModel, data: Seq<u8>, is_long_term: bool)
    requires
        pool_inv(s),
        s.next_id < u32::MAX,
    ensures
        pool_inv(add_inserted(s, data, is_long_term)),
        !s.frames.contains_key(s.next_id),
{
    let nid = s.next_id;
    assert(!s.short.contains(nid) && !s.long.contains(nid)) by {
        if s.short.contains(nid) || s.long.contains(nid) {
            assert(s.frames.contains_key(nid));
        }
    };
    let t = add_inserted(s, data, is_long_term);
    if is_long_term {
        lemma_push_props(s.long, nid);
    } else {
        lemma_push_props(s.short, nid);
    }
    assert forall|id: u32| t.frames.contains_key(id) implies (t.short.contains(id)
        || t.long.contains(id)) by {
        if id != nid {
            assert(s.frames.contains_key(id));
        }
    };
    assert forall|id: u32| t.short.contains(id) || t.long.contains(id) implies t.frames.contains_key(
        id,
    ) by {
        if id != nid {
            assert(s.short.contains(id) || s.long.contains(id));
            assert(s.frames.contains_key(id));
        }
    };
    assert(t.frames.dom() =~= s.frames.dom().insert(nid));
}

/// A bounded pool of reference frames. Payloads are owned by the pool from
/// insertion until eviction; ids are assigned from a strictly increasing
/// counter and never reused.
pub struct ReferenceFrameBuffer {
    max_size: usize,
    frames: HashMap<u32, Vec<u8>>,
    short_term_ids: Vec<u32>,
    long_term_ids: Vec<u32>,
    next_id: u32,
}

/// Capacity invariant: an addition to a well-formed pool yields a
/// well-formed pool, so after every addition the number of stored frames is
/// at most the capacity.
pub proof fn lemma_add_respects_capacity(s: PoolModel, data: Seq<u8>, is_long_term: bool)
    requires
        pool_wf(s),
        s.next_id < u32::MAX,
    ensures
        pool_wf(add_spec(s, data, is_long_term)),
        add_spec(s, data, is_long_term).frames.dom().len() <= s.capacity,
{
    lemma_add_inserted_inv(s, data, is_long_term);
    lemma_evict_all(add_inserted(s, data, is_long_term));
}

/// Id uniqueness and monotonicity: an addition returns the pool's id
/// counter and leaves the counter exactly one higher, so the ids returned by
/// two successive additions strictly increase; and every id stored in a
/// well-formed pool lies below the counter, so an id, once assigned, is
/// never assigned again, even after the frame is evicted.
pub proof fn lemma_add_ids_strictly_increase(
    s: PoolModel,
    d1: Seq<u8>,
    lt1: bool,
    d2: Seq<u8>,
    lt2: bool,
)
    requires
        pool_wf(s),
        s.next_id + 2 <= u32::MAX,
    ensures
        add_spec(s, d1, lt1).next_id > s.next_id,
        add_spec(add_spec(s, d1, lt1), d2, lt2).next_id > add_spec(s, d1, lt1).next_id,
        forall|id: u32| #[trigger] s.frames.contains_key(id) ==> id < s.next_id,
        pool_wf(add_spec(s, d1, lt1)),
{
    lemma_add_inserted_inv(s, d1, lt1);
    lemma_evict_all(add_inserted(s, d1, lt1));
    let s1 = add_spec(s, d1, lt1);
    lemma_add_inserted_inv(s1, d2, lt2);
    lemma_evict_all(add_inserted(s1, d2, lt2));
}

/// A promotion succeeds at most once per id: after a successful promotion
/// the id is long-term, so promoting it again fails; and a promotion that
/// fails, on an unknown id or on an id already long-term, leaves the pool
/// unchanged.
pub proof fn lemma_promote_not_repeatable(s: PoolModel, id: u32)
    requires
        pool_inv(s),
    ensures
        promote_allowed(s, id) ==> !promote_allowed(promote_spec(s, id), id),
        !promote_allowed(s, id) ==> promote_spec(s, id) == s,
{
    if promote_allowed(s, id) {
        assert(s.long.push(id)[s.long.len() as int] == id);
        assert(promote_spec(s, id).long.contains(id));
    }
}

fn vec_contains(v: &Vec<u32>, x: u32) -> (r: bool)
    ensures
        r == v@.contains(x),
{
    let mut i: usize = 0;
    while i < v.len()
        invariant
            i <= v@.len(),
            forall|j: int| 0 <= j < i ==> v@[j] != x,
        decreases v@.len() - i,
    {
        if v[i] == x {
            proof {
                assert(v@[i as int] == x);
            }
            return true;
        }
        i = i + 1;
    }
    false
}

fn vec_index_of(v: &Vec<u32>, x: u32) -> (r: Option<usize>)
    ensures
        match r {
            Some(pos) => pos < v@.len() && v@[pos as int] == x && (forall|j: int|
                0 <= j < pos ==> v@[j] != x),
            None => !v@.contains(x),
        },
{
    let mut i: usize = 0;
    while i < v.len()
        invariant
            i <= v@.len(),
            forall|j: int| 0 <= j < i ==> v@[j] != x,
        decreases v@.len() - i,
    {
        if v[i] == x {
            return Some(i);
        }
        i = i + 1;
    }
    None
}

impl View for ReferenceFrameBuffer {
    type V = PoolModel;

    closed spec fn view(&self) -> PoolModel {
        PoolModel {
            capacity: self.max_size as nat,
            frames: self.frames@.map_values(|v: Vec<u8>| v@),
            short: self.short_term_ids@,
            long: self.long_term_ids@,
            next_id: self.next_id,
        }
    }
}

impl ReferenceFrameBuffer {
    /// Constructs an empty pool with the given fixed capacity. A capacity of
    /// zero is legal: every frame added afterwards is evicted immediately.
    pub fn new(max_size: usize) -> (r: Self)
        ensures
            r@ == empty_pool(max_size as nat),
            pool_wf(r@),
    {
        let r = ReferenceFrameBuffer {
            max_size,
            frames: HashMap::new(),
            short_term_ids: Vec::new(),
            long_term_ids: Vec::new(),
            next_id: 0,
        };
        proof {
            assert(r@.frames =~= empty_pool(max_size as nat).frames);
            assert(r@ =~= empty_pool(max_size as nat));
            assert(r@.frames.dom() =~= Set::<u32>::empty());
        }
        r
    }

    /// Promotes the frame with the given id from short-term to long-term
    /// retention. Fails, leaving the pool unchanged, when no frame with that
    /// id is stored or the frame is already long-term; otherwise the id moves
    /// to the end of the long-term list and the call reports success.
    /// Promotion never changes the stored frames and never evicts.
    pub fn promote_to_long_term(&mut self, frame_id: u32) -> (r: bool)
        requires
            pool_wf(old(self)@),
        ensures
            r == promote_allowed(old(self)@, frame_id),
            final(self)@ == promote_spec(old(self)@, frame_id),
            pool_wf(final(self)@),
            !promote_allowed(old(self)@, frame_id) ==> final(self)@ == old(self)@,
    {
        if !self.frames.contains_key(&frame_id) || vec_contains(&self.long_term_ids, frame_id) {
            return false;
        }
        proof {
            assert(self@.frames.contains_key(frame_id));
            assert(self@.short.contains(frame_id));
        }
        if let Some(pos) = vec_index_of(&self.short_term_ids, frame_id) {
            self.short_term_ids.remove(pos);
            self.long_term_ids.push(frame_id);
            proof {
                lemma_remove_first_occurrence(old(self)@.short, frame_id, pos as int);
                lemma_promote_inv(old(self)@, frame_id);
                assert(self@ =~= promote_spec(old(self)@, frame_id));
            }
            return true;
        }
        false
    }

    /// Returns a read-only view of the payload stored under `frame_id`, or
    /// `None` when no frame with that id is stored. Never mutates the pool.
    pub fn get_frame(&self, frame_id: u32) -> (r: Option<&Vec<u8>>)
        ensures
            match r {
                Some(v) => self@.frames.contains_key(frame_id) && v@ == self@.frames[frame_id],
                None => !self@.frames.contains_key(frame_id),
            },
    {
        self.frames.get(&frame_id)
    }

    /// Adds a frame, taking ownership of the payload. The frame is assigned
    /// the next id and classified short-term or long-term as requested; the
    /// eviction policy then runs, so the addition may evict older frames, or
    /// the new frame itself when the capacity is zero. Always returns the
    /// assigned id, and after the call the pool is again within capacity.
    pub fn add_frame(&mut self, frame_data: Vec<u8>, is_long_term: bool) -> (frame_id: u32)
        requires
            pool_wf(old(self)@),
            old(self)@.next_id < u32::MAX,
        ensures
            frame_id == old(self)@.next_id,
            final(self)@ == add_spec(old(self)@, frame_data@, is_long_term),
            pool_wf(final(self)@),
            final(self)@.frames.dom().len() <= old(self)@.capacity,
            final(self)@.next_id == old(self)@.next_id + 1,
            final(self)@.capacity == old(self)@.capacity,
    {
        let frame_id = self.next_id;
        self.next_id = self.next_id + 1;

        self.frames.insert(frame_id, frame_data);

        if is_long_term {
            self.long_term_ids.push(frame_id);
        } else {
            self.short_term_ids.push(frame_id);
        }

        proof {
            let ghost inserted = add_inserted(old(self)@, frame_data@, is_long_term);
            assert(self@.frames =~= inserted.frames);
            assert(self@ =~= inserted);
            lemma_add_inserted_inv(old(self)@, frame_data@, is_long_term);
            lemma_evict_all(inserted);
        }
        self.enforce_size_limit();
        frame_id
    }

    /// Runs the eviction policy: removes frames, oldest short-term frames
    /// first and long-term frames only when no short-term frame remains,
    /// until the pool is back within its capacity.
    pub fn enforce_size_limit(&mut self)
        requires
            pool_inv(old(self)@),
        ensures
            final(self)@ == evict_all(old(self)@),
            pool_wf(final(self)@),
    {
        let ghost orig = self@;
        while self.frames.len() > self.max_size
            invariant
                pool_inv(self@),
                evict_all(self@) == evict_all(orig),
            decreases self@.frames.dom().len(),
        {
            let ghost prev = self@;
            proof {
                assert(prev.frames.dom() =~= self.frames@.dom());
                assert(prev.frames.dom().len() > prev.capacity);
            }
            if !self.short_term_ids.is_empty() {
                let old_id = self.short_term_ids.remove(0);
                self.frames.remove(&old_id);
                proof {
                    lemma_evict_step(prev);
                    assert(self@.frames =~= evict_step(prev).frames);
                    assert(self@.short =~= evict_step(prev).short);
                    assert(self@ =~= evict_step(prev));
                    assert(evict_all(prev) == evict_all(evict_step(prev)));
                }
            } else if !self.long_term_ids.is_empty() {
                let old_id = self.long_term_ids.remove(0);
                self.frames.remove(&old_id);
                proof {
                    lemma_evict_step(prev);
                    assert(self@.frames =~= evict_step(prev).frames);
                    assert(self@.long =~= evict_step(prev).long);
                    assert(self@ =~= evict_step(prev));
                    assert(evict_all(prev) == evict_all(evict_step(prev)));
                }
            } else {
                proof {
                    assert(prev.frames.dom() =~= Set::<u32>::empty());
                    assert(false);
                }
            }
        }
        proof {
            assert(self@.frames.dom() =~= self.frames@.dom());
            assert(self@.frames.dom().len() <= self@.capacity);
            assert(evict_all(self@) == self@);
        }
    }

    /// The id that the next addition will assign.
    pub fn next_frame_id(&self) -> (r: u32)
        ensures
            r == self@.next_id,
    {
        self.next_id
    }

    /// The number of frames currently stored.
    pub fn len(&self) -> (n: usize)
        ensures
            n == self@.frames.dom().len(),
    {
        proof {
            assert(self@.frames.dom() =~= self.frames@.dom());
        }
        self.frames.len()
    }
}

/// An owning wrapper around one pool, the unit of ownership handed across
/// the foreign-function boundary by the surrounding application.
pub struct BufferHandle {
    pub buffer: ReferenceFrameBuffer,
}

} // verus!
