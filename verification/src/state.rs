//! Slot-indexed registry of established sessions.
//!
//! Sessions live in a sparse array indexed by their slot; lookups by
//! session id or node id scan that array. The registry maintains:
//! every occupied slot holds a record whose `info.slot` is its own
//! index, and no session id or node id appears twice.

use vstd::prelude::*;

use crate::limits::Limiter;
use crate::session::{NodeId, NodeSession, NodeSessionV, SessionId, NODE_ID_SIZE};
use vstd::multiset::Multiset;
use crate::error::{Error, InternalError, NotFound, ServerResult, Unauthorized};

verus! {

/// Hard cap on the slot array, far below the `u32::MAX` sentinel.
pub const MAX_SLOTS: usize = 0x7fff_ffff;

/// How many free slots a full array grows by at once.
pub const SLOT_CHUNK: usize = 1024;

/// Registry of live sessions, indexed by slot.
pub struct NodesState {
    pub slots: Vec<Option<NodeSession>>,
    pub limiters: Vec<Option<Limiter>>,
}

/// First unoccupied index of `s` at or after `i`; `s.len()` if none.
pub open spec fn first_free_from(s: Seq<Option<NodeSession>>, i: int) -> int
    decreases s.len() - i,
{
    if i < 0 || i >= s.len() {
        s.len() as int
    } else if s[i] is None {
        i
    } else {
        first_free_from(s, i + 1)
    }
}

/// Index of the first record at or after `i` whose session id is `sid`.
pub open spec fn find_session_from(s: Seq<Option<NodeSession>>, sid: Seq<u8>, i: int) -> Option<
    int,
>
    decreases s.len() - i,
{
    if i < 0 || i >= s.len() {
        None
    } else if s[i] is Some && s[i].unwrap()@.session == sid {
        Some(i)
    } else {
        find_session_from(s, sid, i + 1)
    }
}

/// Index of the first record at or after `i` whose node id is `nid`.
pub open spec fn find_node_from(s: Seq<Option<NodeSession>>, nid: Seq<u8>, i: int) -> Option<int>
    decreases s.len() - i,
{
    if i < 0 || i >= s.len() {
        None
    } else if s[i] is Some && s[i].unwrap()@.info.node_id == nid {
        Some(i)
    } else {
        find_node_from(s, nid, i + 1)
    }
}

/// Number of occupied slots of `s` at or after `i`.
pub open spec fn count_occupied_from(s: Seq<Option<NodeSession>>, i: int) -> int
    decreases s.len() - i,
{
    if i < 0 || i >= s.len() {
        0
    } else {
        (if s[i] is Some {
            1int
        } else {
            0int
        }) + count_occupied_from(s, i + 1)
    }
}

/// What one slot becomes under an expiry sweep at time `now`.
pub open spec fn sweep_one(e: Option<NodeSession>, now: i64, ttl: i64) -> Option<NodeSession> {
    match e {
        Some(ns) => if now - ns@.last_seen > ttl {
            None
        } else {
            Some(ns)
        },
        None => None,
    }
}

impl NodesState {
    /// The slot array, as the model every contract speaks of.
    pub open spec fn model(self) -> Seq<Option<NodeSession>> {
        self.slots@
    }

    pub open spec fn len(self) -> int {
        self.slots@.len() as int
    }

    /// Slot `i` holds a session.
    pub open spec fn occ(self, i: int) -> bool {
        0 <= i < self.len() && self.slots@[i] is Some
    }

    /// The record in slot `i`.
    pub open spec fn at(self, i: int) -> NodeSessionV {
        self.slots@[i].unwrap()@
    }

    pub open spec fn spec_find_session(self, sid: Seq<u8>) -> Option<int> {
        find_session_from(self.slots@, sid, 0)
    }

    pub open spec fn spec_find_node(self, nid: Seq<u8>) -> Option<int> {
        find_node_from(self.slots@, nid, 0)
    }

    pub open spec fn has_session(self, sid: Seq<u8>) -> bool {
        self.spec_find_session(sid) is Some
    }

    pub open spec fn has_node(self, nid: Seq<u8>) -> bool {
        self.spec_find_node(nid) is Some
    }

    /// Slot the next registration will take.
    pub open spec fn first_free(self) -> int {
        first_free_from(self.slots@, 0)
    }

    /// Number of live sessions.
    pub open spec fn live(self) -> int {
        count_occupied_from(self.slots@, 0)
    }

    /// Slots `i` of `self` and `other` agree.
    pub open spec fn same_slot(self, other: NodesState, i: int) -> bool {
        self.occ(i) == other.occ(i) && (self.occ(i) ==> self.at(i) == other.at(i))
    }

    /// The registry invariant.
    pub open spec fn wf(self) -> bool {
        &&& self.limiters@.len() == self.slots@.len()
        &&& self.slots@.len() <= MAX_SLOTS as int
        &&& forall|i: int|
            0 <= i < self.len() ==> (self.slots@[i] is Some <==> self.limiters@[i] is Some)
        &&& forall|i: int|
            #[trigger] self.occ(i) ==> self.slots@[i].unwrap().wf() && self.at(i).info.slot == i
        &&& forall|i: int, j: int|
            self.occ(i) && self.occ(j) && i != j ==> self.at(i).session != self.at(j).session
                && self.at(i).info.node_id != self.at(j).info.node_id
    }

    pub fn new() -> (r: NodesState)
        ensures
            r.wf(),
            r.len() == 0,
            r.live() == 0,
    {
        NodesState { slots: Vec::new(), limiters: Vec::new() }
    }

    /// First free slot index, or the array length if every slot is taken.
    fn empty_slot(&self) -> (r: usize)
        ensures
            r == self.first_free(),
    {
        let mut i: usize = 0;
        while i < self.slots.len()
            invariant
                0 <= i <= self.len(),
                first_free_from(self.slots@, 0) == first_free_from(self.slots@, i as int),
            decreases self.len() - i,
        {
            if self.slots[i].is_none() {
                return i;
            }
            i = i + 1;
        }
        i
    }

    /// Place a fresh session in the first free slot, growing the array
    /// in chunks when it is full. The stored record's `info.slot` is
    /// rewritten to the chosen slot. Fails only when the array has hit
    /// its hard cap with every slot taken.
    #[verifier::loop_isolation(false)]
    pub fn register(&mut self, node: NodeSession, limiter: Limiter) -> (r: ServerResult<u32>)
        requires
            old(self).wf(),
            node.wf(),
            !old(self).has_session(node@.session),
            !old(self).has_node(node@.info.node_id),
        ensures
            final(self).wf(),
            match r {
                Ok(slot) => {
                    &&& slot == old(self).first_free()
                    &&& final(self).len() == (if old(self).first_free() < old(self).len() {
                        old(self).len()
                    } else if old(self).len() + SLOT_CHUNK <= MAX_SLOTS {
                        old(self).len() + SLOT_CHUNK
                    } else {
                        MAX_SLOTS as int
                    })
                    &&& final(self).occ(slot as int)
                    &&& final(self).at(slot as int) == (NodeSessionV {
                        info: crate::session::NodeInfoV { slot, ..node@.info },
                        ..node@
                    })
                    &&& final(self).has_session(node@.session)
                    &&& final(self).has_node(node@.info.node_id)
                    &&& forall|i: int| i != slot ==> final(self).same_slot(*old(self), i)
                    &&& final(self).live() == old(self).live() + 1
                },
                Err(e) => {
                    &&& e == Error::TooManyRequests
                    &&& old(self).first_free() == MAX_SLOTS as int
                    &&& *final(self) == *old(self)
                },
            },
    {
        let slot = self.empty_slot();
        proof {
            lemma_first_free_from_props(self.slots@, 0);
        }
        if slot >= self.slots.len() {
            if self.slots.len() >= MAX_SLOTS {
                return Err(Error::TooManyRequests);
            }
            let ghost pre = self.slots@;
            let mut grow: usize = 0;
            let target = if self.slots.len() >= MAX_SLOTS - SLOT_CHUNK {
                MAX_SLOTS - self.slots.len()
            } else {
                SLOT_CHUNK
            };
            while grow < target
                invariant
                    grow <= target,
                    self.slots@.len() == pre.len() + grow,
                    self.limiters@.len() == self.slots@.len(),
                    self.slots@.subrange(0, pre.len() as int) == pre,
                    forall|k: int|
                        pre.len() <= k < self.slots@.len() ==> self.slots@[k] is None
                            && self.limiters@[k] is None,
                    forall|k: int|
                        0 <= k < pre.len() ==> self.slots@[k] == pre[k] && self.limiters@[k]
                            == old(self).limiters@[k],
                    pre.len() + target <= MAX_SLOTS,
                decreases target - grow,
            {
                self.slots.push(None);
                self.limiters.push(None);
                grow = grow + 1;
                proof {
                    assert(self.slots@.subrange(0, pre.len() as int) =~= pre);
                }
            }
        }
        let ghost grown = self.slots@;
        let slot_u32 = slot as u32;
        let mut node = node;
        node.info.slot = slot_u32;
        self.slots[slot] = Some(node);
        self.limiters[slot] = Some(limiter);
        proof {
            lemma_register_post(*old(self), *self, grown, slot as int);
        }
        Ok(slot_u32)
    }

    /// The session in slot `slot`, if any.
    pub fn get_by_slot(&self, slot: u32) -> (r: Option<NodeSession>)
        ensures
            match r {
                Some(ns) => self.occ(slot as int) && ns@ == self.at(slot as int),
                None => !self.occ(slot as int),
            },
    {
        if (slot as usize) < self.slots.len() {
            match &self.slots[slot as usize] {
                Some(ns) => Some(ns.clone()),
                None => None,
            }
        } else {
            None
        }
    }

    /// The session registered under session id `id`, if any.
    pub fn get_by_session(&self, id: &SessionId) -> (r: Option<NodeSession>)
        ensures
            match r {
                Some(ns) => {
                    &&& self.has_session(id@)
                    &&& ns@ == self.at(self.spec_find_session(id@).unwrap())
                    &&& ns@.session == id@
                },
                None => !self.has_session(id@),
            },
    {
        let mut i: usize = 0;
        while i < self.slots.len()
            invariant
                0 <= i <= self.len(),
                find_session_from(self.slots@, id@, 0) == find_session_from(
                    self.slots@,
                    id@,
                    i as int,
                ),
            decreases self.len() - i,
        {
            match &self.slots[i] {
                Some(ns) => {
                    if ns.session == *id {
                        return Some(ns.clone());
                    }
                },
                None => {},
            }
            i = i + 1;
        }
        None
    }

    /// The session registered under node id `id`, if any.
    pub fn get_by_node_id(&self, id: &NodeId) -> (r: Option<NodeSession>)
        ensures
            match r {
                Some(ns) => {
                    &&& self.has_node(id@)
                    &&& ns@ == self.at(self.spec_find_node(id@).unwrap())
                    &&& ns@.info.node_id == id@
                },
                None => !self.has_node(id@),
            },
    {
        let mut i: usize = 0;
        while i < self.slots.len()
            invariant
                0 <= i <= self.len(),
                find_node_from(self.slots@, id@, 0) == find_node_from(self.slots@, id@, i as int),
            decreases self.len() - i,
        {
            match &self.slots[i] {
                Some(ns) => {
                    if ns.info.node_id == *id {
                        return Some(ns.clone());
                    }
                },
                None => {},
            }
            i = i + 1;
        }
        None
    }

    /// The rate limiter of the session in slot `slot`: that slot's own
    /// bucket.
    pub fn limiter_at(&self, slot: u32) -> (r: &Limiter)
        requires
            self.wf(),
            self.occ(slot as int),
        ensures
            *r == self.limiters@[slot as int].unwrap(),
    {
        self.limiters[slot as usize].as_ref().unwrap()
    }

    /// Record that the session was just heard from. Fails with
    /// `SessionNotFound` when the id is not registered.
    #[verifier::loop_isolation(false)]
    pub fn update_seen(&mut self, id: &SessionId, now: i64) -> (r: ServerResult<()>)
        requires
            old(self).wf(),
        ensures
            final(self).wf(),
            final(self).len() == old(self).len(),
            final(self).limiters@ == old(self).limiters@,
            match r {
                Ok(()) => {
                    &&& old(self).has_session(id@)
                    &&& {
                        let i = old(self).spec_find_session(id@).unwrap();
                        &&& final(self).occ(i)
                        &&& final(self).at(i) == (NodeSessionV { last_seen: now, ..old(self).at(i) })
                        &&& forall|j: int| j != i ==> final(self).same_slot(*old(self), j)
                    }
                },
                Err(e) => {
                    &&& e == Error::Unauthorized(Unauthorized::SessionNotFound)
                    &&& !old(self).has_session(id@)
                    &&& *final(self) == *old(self)
                },
            },
    {
        let mut i: usize = 0;
        while i < self.slots.len()
            invariant
                *self == *old(self),
                0 <= i <= self.len(),
                find_session_from(self.slots@, id@, 0) == find_session_from(
                    self.slots@,
                    id@,
                    i as int,
                ),
            decreases self.len() - i,
        {
            let hit = match &self.slots[i] {
                Some(ns) => {
                    if ns.session == *id {
                        Some(ns.clone())
                    } else {
                        None
                    }
                },
                None => None,
            };
            if let Some(mut updated) = hit {
                updated.last_seen = now;
                self.slots[i] = Some(updated);
                proof {
                    let t = i as int;
                    assert(old(self).occ(t));
                    let nold = old(self).slots@[t].unwrap();
                    let nnew = self.slots@[t].unwrap();
                    assert(nold.wf());
                    assert(nnew.info.node_id@ == nold.info.node_id@);
                    assert(nnew.session@ == nold.session@);
                    assert(nnew.wf());
                    lemma_update_keeps_wf(*old(self), *self, t);
                }
                return Ok(());
            }
            i = i + 1;
        }
        Err(Error::Unauthorized(Unauthorized::SessionNotFound))
    }

    /// Drop every session not heard from for more than `ttl` seconds.
    /// Freed slots lose both their record and its limiter, and the ids
    /// of dropped sessions are no longer found by any lookup.
    #[verifier::loop_isolation(false)]
    pub fn check_timeouts(&mut self, now: i64, ttl: i64)
        requires
            old(self).wf(),
        ensures
            final(self).wf(),
            final(self).len() == old(self).len(),
            forall|i: int|
                #[trigger] final(self).occ(i) <==> (old(self).occ(i) && now - old(self).at(
                    i,
                ).last_seen <= ttl),
            forall|i: int| #[trigger] final(self).occ(i) ==> final(self).at(i) == old(self).at(i),
            forall|i: int|
                old(self).occ(i) && now - old(self).at(i).last_seen > ttl
                    ==> !final(self).has_session(old(self).at(i).session)
                    && !final(self).has_node(old(self).at(i).info.node_id),
    {
        let mut i: usize = 0;
        while i < self.slots.len()
            invariant
                self.len() == old(self).len(),
                self.limiters@.len() == self.slots@.len(),
                0 <= i <= self.len(),
                forall|j: int|
                    0 <= j < i ==> #[trigger] self.slots@[j] == sweep_one(
                        old(self).slots@[j],
                        now,
                        ttl,
                    ),
                forall|j: int|
                    0 <= j < i ==> (self.slots@[j] is Some ==> #[trigger] self.limiters@[j] == old(
                        self,
                    ).limiters@[j]) && (self.slots@[j] is None ==> self.limiters@[j] is None),
                forall|j: int|
                    i <= j < self.len() ==> #[trigger] self.slots@[j] == old(self).slots@[j]
                        && self.limiters@[j] == old(self).limiters@[j],
            decreases self.len() - i,
        {
            let expired = match &self.slots[i] {
                Some(ns) => (now as i128) - (ns.last_seen as i128) > (ttl as i128),
                None => false,
            };
            if expired {
                self.slots[i] = None;
                self.limiters[i] = None;
            }
            i = i + 1;
        }
        proof {
            lemma_sweep_post(*old(self), *self, now, ttl);
        }
    }
}

impl Default for NodesState {
    fn default() -> (r: Self)
        ensures
            r.wf(),
            r.len() == 0,
    {
        NodesState::new()
    }
}

/// Everything `first_free_from(s, i)` promises: it lands on the first
/// free index at or after `i`, or on `s.len()` when there is none.
pub proof fn lemma_first_free_from_props(s: Seq<Option<NodeSession>>, i: int)
    requires
        0 <= i <= s.len(),
    ensures
        i <= first_free_from(s, i) <= s.len(),
        first_free_from(s, i) < s.len() ==> s[first_free_from(s, i)] is None,
        forall|k: int| i <= k < first_free_from(s, i) ==> s[k] is Some,
    decreases s.len() - i,
{
    if i < s.len() && !(s[i] is None) {
        lemma_first_free_from_props(s, i + 1);
    }
}

/// Everything `find_session_from(s, sid, i)` promises.
pub proof fn lemma_find_session_from_props(s: Seq<Option<NodeSession>>, sid: Seq<u8>, i: int)
    requires
        0 <= i <= s.len(),
    ensures
        match find_session_from(s, sid, i) {
            Some(j) => i <= j < s.len() && s[j] is Some && s[j].unwrap()@.session == sid
                && forall|k: int|
                i <= k < j ==> !(s[k] is Some && s[k].unwrap()@.session == sid),
            None => forall|k: int| i <= k < s.len() ==> !(s[k] is Some && s[k].unwrap()@.session == sid),
        },
    decreases s.len() - i,
{
    if i < s.len() {
        if !(s[i] is Some && s[i].unwrap()@.session == sid) {
            lemma_find_session_from_props(s, sid, i + 1);
        }
    }
}

/// Everything `find_node_from(s, nid, i)` promises.
pub proof fn lemma_find_node_from_props(s: Seq<Option<NodeSession>>, nid: Seq<u8>, i: int)
    requires
        0 <= i <= s.len(),
    ensures
        match find_node_from(s, nid, i) {
            Some(j) => i <= j < s.len() && s[j] is Some && s[j].unwrap()@.info.node_id == nid
                && forall|k: int|
                i <= k < j ==> !(s[k] is Some && s[k].unwrap()@.info.node_id == nid),
            None => forall|k: int|
                i <= k < s.len() ==> !(s[k] is Some && s[k].unwrap()@.info.node_id == nid),
        },
    decreases s.len() - i,
{
    if i < s.len() {
        if !(s[i] is Some && s[i].unwrap()@.info.node_id == nid) {
            lemma_find_node_from_props(s, nid, i + 1);
        }
    }
}

/// Two slot arrays that agree pointwise have the same occupied count.
proof fn lemma_count_occupied_agree(
    a: Seq<Option<NodeSession>>,
    b: Seq<Option<NodeSession>>,
    i: int,
)
    requires
        a.len() == b.len(),
        forall|k: int| 0 <= k < a.len() ==> (a[k] is Some <==> b[k] is Some),
    ensures
        count_occupied_from(a, i) == count_occupied_from(b, i),
    decreases a.len() - i,
{
    if 0 <= i < a.len() {
        lemma_count_occupied_agree(a, b, i + 1);
    }
}

/// Updating one free slot to occupied raises the occupied count by one
/// for every prefix start at or before it.
proof fn lemma_count_occupied_update(
    a: Seq<Option<NodeSession>>,
    b: Seq<Option<NodeSession>>,
    slot: int,
    i: int,
)
    requires
        a.len() == b.len(),
        0 <= slot < a.len(),
        a[slot] is None,
        b[slot] is Some,
        forall|k: int| 0 <= k < a.len() && k != slot ==> a[k] == b[k],
        0 <= i <= slot,
    ensures
        count_occupied_from(b, i) == count_occupied_from(a, i) + 1,
    decreases a.len() - i,
{
    if i < slot {
        lemma_count_occupied_update(a, b, slot, i + 1);
    } else {
        lemma_count_occupied_tail_agree(a, b, slot + 1);
    }
}

/// Arrays that agree from `i` on count the same from `i` on.
proof fn lemma_count_occupied_tail_agree(
    a: Seq<Option<NodeSession>>,
    b: Seq<Option<NodeSession>>,
    i: int,
)
    requires
        a.len() == b.len(),
        0 <= i,
        forall|k: int| i <= k < a.len() ==> a[k] == b[k],
    ensures
        count_occupied_from(a, i) == count_occupied_from(b, i),
    decreases a.len() - i,
{
    if i < a.len() {
        lemma_count_occupied_tail_agree(a, b, i + 1);
    }
}

/// Growing the array with free slots leaves the occupied count alone.
proof fn lemma_count_occupied_extend(a: Seq<Option<NodeSession>>, b: Seq<Option<NodeSession>>, i: int)
    requires
        a.len() <= b.len(),
        forall|k: int| 0 <= k < a.len() ==> a[k] == b[k],
        forall|k: int| a.len() <= k < b.len() ==> b[k] is None,
        0 <= i <= a.len(),
    ensures
        count_occupied_from(a, i) == count_occupied_from(b, i),
    decreases b.len() - i,
{
    if i < a.len() {
        lemma_count_occupied_extend(a, b, i + 1);
    } else {
        lemma_count_all_none(b, i);
    }
}

proof fn lemma_count_all_none(b: Seq<Option<NodeSession>>, i: int)
    requires
        forall|k: int| i <= k < b.len() ==> b[k] is None,
        0 <= i,
    ensures
        count_occupied_from(b, i) == 0,
    decreases b.len() - i,
{
    if i < b.len() {
        lemma_count_all_none(b, i + 1);
    }
}

/// The whole postcondition of `register`, given the final state.
proof fn lemma_register_post(pre: NodesState, post: NodesState, grown: Seq<Option<NodeSession>>, slot: int)
    requires
        pre.wf(),
        post.slots@.len() == post.limiters@.len(),
        grown.len() == post.slots@.len(),
        pre.slots@.len() <= grown.len() <= MAX_SLOTS as int,
        forall|k: int| 0 <= k < pre.slots@.len() ==> grown[k] == pre.slots@[k],
        forall|k: int| pre.slots@.len() <= k < grown.len() ==> grown[k] is None,
        forall|k: int|
            0 <= k < grown.len() && k != slot ==> post.slots@[k] == grown[k],
        forall|k: int|
            0 <= k < pre.slots@.len() && k != slot ==> post.limiters@[k] == pre.limiters@[k],
        forall|k: int|
            pre.slots@.len() <= k < post.limiters@.len() && k != slot ==> post.limiters@[k]
                is None,
        slot == first_free_from(pre.slots@, 0),
        0 <= slot < post.slots@.len(),
        post.slots@[slot] is Some,
        post.limiters@[slot] is Some,
        post.slots@[slot].unwrap().wf(),
        post.at(slot).info.slot == slot,
        post.at(slot).session == post.slots@[slot].unwrap()@.session,
        !pre.has_session(post.at(slot).session),
        !pre.has_node(post.at(slot).info.node_id),
    ensures
        post.wf(),
        post.has_session(post.at(slot).session),
        post.has_node(post.at(slot).info.node_id),
        forall|i: int| i != slot ==> post.same_slot(pre, i),
        post.live() == pre.live() + 1,
{
    lemma_first_free_from_props(pre.slots@, 0);
    lemma_find_session_from_props(pre.slots@, post.at(slot).session, 0);
    lemma_find_node_from_props(pre.slots@, post.at(slot).info.node_id, 0);
    assert forall|i: int| i != slot && post.occ(i) implies pre.occ(i) && post.at(i) == pre.at(i)
        && post.slots@[i] == pre.slots@[i] by {
        assert(post.slots@[i] == grown[i]);
        assert(grown[i] is Some);
        assert(i < pre.slots@.len());
    }
    assert forall|i: int| i != slot implies post.same_slot(pre, i) by {
        if pre.occ(i) {
            assert(post.slots@[i] == grown[i] && grown[i] == pre.slots@[i]);
        }
    }
    assert forall|i: int| #[trigger] post.occ(i) implies post.slots@[i].unwrap().wf()
        && post.at(i).info.slot == i by {
        if i != slot {
            assert(pre.occ(i));
        }
    }
    assert forall|i: int|
        0 <= i < post.len() implies (post.slots@[i] is Some <==> post.limiters@[i] is Some) by {
        if i != slot {
            assert(post.slots@[i] == grown[i]);
            if i < pre.slots@.len() {
                assert(grown[i] == pre.slots@[i]);
                assert(post.limiters@[i] == pre.limiters@[i]);
            }
        }
    }
    assert forall|i: int, j: int|
        post.occ(i) && post.occ(j) && i != j implies post.at(i).session != post.at(j).session
        && post.at(i).info.node_id != post.at(j).info.node_id by {
        if i != slot && j != slot {
            assert(pre.occ(i) && pre.occ(j));
        } else if i == slot {
            assert(pre.occ(j) && post.at(j) == pre.at(j));
        } else {
            assert(pre.occ(i) && post.at(i) == pre.at(i));
        }
    }
    assert(post.has_session(post.at(slot).session)) by {
        lemma_find_session_from_props(post.slots@, post.at(slot).session, 0);
    }
    assert(post.has_node(post.at(slot).info.node_id)) by {
        lemma_find_node_from_props(post.slots@, post.at(slot).info.node_id, 0);
    }
    assert(post.live() == pre.live() + 1) by {
        lemma_count_occupied_extend(pre.slots@, grown, 0);
        lemma_count_occupied_update(grown, post.slots@, slot, 0);
    }
}

/// Replacing a record with one of equal identity keeps the invariant
/// and the lookup structure.
proof fn lemma_update_keeps_wf(pre: NodesState, post: NodesState, i: int)
    requires
        pre.wf(),
        post.slots@.len() == pre.slots@.len(),
        post.limiters@ == pre.limiters@,
        pre.occ(i),
        post.occ(i),
        post.slots@[i].unwrap().wf(),
        post.at(i).session == pre.at(i).session,
        post.at(i).info.node_id == pre.at(i).info.node_id,
        post.at(i).info.slot == pre.at(i).info.slot,
        forall|k: int| 0 <= k < pre.slots@.len() && k != i ==> post.slots@[k] == pre.slots@[k],
    ensures
        post.wf(),
        forall|j: int| j != i ==> post.same_slot(pre, j),
{
    assert forall|a: int, b: int|
        post.occ(a) && post.occ(b) && a != b implies post.at(a).session != post.at(b).session
        && post.at(a).info.node_id != post.at(b).info.node_id by {
        assert(pre.occ(a) && pre.occ(b));
        if a != i && b != i {
            assert(post.at(a) == pre.at(a) && post.at(b) == pre.at(b));
        }
    }
    assert forall|a: int| #[trigger] post.occ(a) implies post.slots@[a].unwrap().wf()
        && post.at(a).info.slot == a by {
        assert(pre.occ(a));
        if a != i {
            assert(post.slots@[a] == pre.slots@[a]);
        }
    }
    assert forall|a: int|
        0 <= a < post.len() implies (post.slots@[a] is Some <==> post.limiters@[a] is Some) by {
        assert(pre.occ(i));
        if a != i {
            assert(post.slots@[a] == pre.slots@[a]);
        }
    }
}

/// The full postcondition of the expiry sweep.
proof fn lemma_sweep_post(pre: NodesState, post: NodesState, now: i64, ttl: i64)
    requires
        pre.wf(),
        post.slots@.len() == pre.slots@.len(),
        post.limiters@.len() == post.slots@.len(),
        forall|j: int|
            0 <= j < post.len() ==> #[trigger] post.slots@[j] == sweep_one(
                pre.slots@[j],
                now,
                ttl,
            ),
        forall|j: int|
            0 <= j < post.len() ==> (post.slots@[j] is Some ==> #[trigger] post.limiters@[j]
                == pre.limiters@[j]) && (post.slots@[j] is None ==> post.limiters@[j] is None),
    ensures
        post.wf(),
        forall|i: int| #[trigger] post.occ(i) <==> (pre.occ(i) && now - pre.at(i).last_seen <= ttl),
        forall|i: int| #[trigger] post.occ(i) ==> post.at(i) == pre.at(i),
        forall|i: int|
            pre.occ(i) && now - pre.at(i).last_seen > ttl ==> !post.has_session(pre.at(i).session)
                && !post.has_node(pre.at(i).info.node_id),
{
    assert forall|j: int| #[trigger] post.occ(j) implies pre.occ(j) && post.slots@[j]
        == pre.slots@[j] && now - pre.at(j).last_seen <= ttl by {
        assert(post.slots@[j] == sweep_one(pre.slots@[j], now, ttl));
    }
    assert forall|j: int|
        pre.occ(j) && now - pre.at(j).last_seen <= ttl implies #[trigger] post.occ(j) by {
        assert(post.slots@[j] == sweep_one(pre.slots@[j], now, ttl));
    }
    assert forall|a: int, b: int|
        post.occ(a) && post.occ(b) && a != b implies post.at(a).session != post.at(b).session
        && post.at(a).info.node_id != post.at(b).info.node_id by {
        assert(pre.occ(a) && pre.occ(b));
    }
    assert forall|a: int| #[trigger] post.occ(a) implies post.slots@[a].unwrap().wf()
        && post.at(a).info.slot == a by {
        assert(pre.occ(a));
    }
    assert forall|i: int|
        pre.occ(i) && now - pre.at(i).last_seen > ttl implies !post.has_session(pre.at(i).session)
        && !post.has_node(pre.at(i).info.node_id) by {
        lemma_find_session_from_props(post.slots@, pre.at(i).session, 0);
        lemma_find_node_from_props(post.slots@, pre.at(i).info.node_id, 0);
        if post.has_session(pre.at(i).session) {
            let j = find_session_from(post.slots@, pre.at(i).session, 0).unwrap();
            assert(post.occ(j));
            assert(pre.occ(j) && post.at(j) == pre.at(j));
            assert(j != i);
        }
        if post.has_node(pre.at(i).info.node_id) {
            let j = find_node_from(post.slots@, pre.at(i).info.node_id, 0).unwrap();
            assert(post.occ(j));
            assert(pre.occ(j) && post.at(j) == pre.at(j));
            assert(j != i);
        }
    }
}

/// Number of set bits of `b` among bits `0 .. k`.
pub open spec fn ones_below(b: u8, k: int) -> int
    decreases k,
{
    if k <= 0 {
        0
    } else {
        ones_below(b, k - 1) + (if (b >> ((k - 1) as u8)) & 1 == 1 {
            1int
        } else {
            0int
        })
    }
}

/// Number of set bits of `b`.
pub open spec fn byte_ones(b: u8) -> int {
    ones_below(b, 8)
}

/// Hamming distance of the byte suffixes of `a` and `b` from `i` on.
pub open spec fn hamming_from(a: Seq<u8>, b: Seq<u8>, i: int) -> int
    decreases a.len() - i,
{
    if i < 0 || i >= a.len() || i >= b.len() {
        0
    } else {
        byte_ones(a[i] ^ b[i]) + hamming_from(a, b, i + 1)
    }
}

/// Hamming distance: number of differing bits of two ids.
pub open spec fn spec_hamming(a: Seq<u8>, b: Seq<u8>) -> int {
    hamming_from(a, b, 0)
}

fn byte_popcount(b: u8) -> (r: u32)
    ensures
        r == byte_ones(b),
        r <= 8,
{
    let mut c: u32 = 0;
    let mut k: usize = 0;
    while k < 8
        invariant
            k <= 8,
            c == ones_below(b, k as int),
            c <= k,
        decreases 8 - k,
    {
        if (b >> (k as u8)) & 1 == 1 {
            c = c + 1;
        }
        k = k + 1;
    }
    c
}

/// Number of differing bits between two node ids.
#[verifier::loop_isolation(false)]
pub fn hamming_distance(id1: &NodeId, id2: &NodeId) -> (r: u32)
    requires
        id1.wf(),
        id2.wf(),
    ensures
        r == spec_hamming(id1@, id2@),
{
    let mut total: u32 = 0;
    let mut i: usize = 0;
    while i < NODE_ID_SIZE
        invariant
            i <= NODE_ID_SIZE,
            total <= 8 * i,
            total + hamming_from(id1@, id2@, i as int) == spec_hamming(id1@, id2@),
        decreases NODE_ID_SIZE - i,
    {
        let x = id1.byte_at(i) ^ id2.byte_at(i);
        total = total + byte_popcount(x);
        i = i + 1;
    }
    total
}

/// A node id is at Hamming distance zero from itself.
pub proof fn lemma_hamming_self(x: Seq<u8>)
    ensures
        spec_hamming(x, x) == 0,
{
    lemma_hamming_self_from(x, 0);
}

proof fn lemma_hamming_self_from(x: Seq<u8>, i: int)
    requires
        0 <= i,
    ensures
        hamming_from(x, x, i) == 0,
    decreases x.len() - i,
{
    if i < x.len() {
        let b = x[i];
        assert(byte_ones(b ^ b) == 0) by (bit_vector);
        lemma_hamming_self_from(x, i + 1);
    }
}

/// Hamming distance is symmetric.
pub proof fn lemma_hamming_symmetric(x: Seq<u8>, y: Seq<u8>)
    ensures
        spec_hamming(x, y) == spec_hamming(y, x),
{
    lemma_hamming_symmetric_from(x, y, 0);
}

proof fn lemma_hamming_symmetric_from(x: Seq<u8>, y: Seq<u8>, i: int)
    requires
        0 <= i,
    ensures
        hamming_from(x, y, i) == hamming_from(y, x, i),
    decreases x.len() + y.len() - i,
{
    if i < x.len() && i < y.len() {
        let a = x[i];
        let b = y[i];
        assert(byte_ones(a ^ b) == byte_ones(b ^ a)) by (bit_vector);
        lemma_hamming_symmetric_from(x, y, i + 1);
    }
}

/// `(distance, slot)` pairs compare by distance first, slot second.
pub open spec fn lex_le(a: (u32, u32), b: (u32, u32)) -> bool {
    a.0 < b.0 || (a.0 == b.0 && a.1 <= b.1)
}

fn lex_le_exec(a: (u32, u32), b: (u32, u32)) -> (r: bool)
    ensures
        r == lex_le(a, b),
{
    a.0 < b.0 || (a.0 == b.0 && a.1 <= b.1)
}

/// Sort pairs by distance, breaking ties by ascending slot.
fn sort_pairs(v: Vec<(u32, u32)>) -> (r: Vec<(u32, u32)>)
    ensures
        r@.to_multiset() == v@.to_multiset(),
        r@.len() == v@.len(),
        forall|k1: int, k2: int| 0 <= k1 < k2 < r@.len() ==> lex_le(r@[k1], r@[k2]),
{
    broadcast use vstd::seq_lib::group_to_multiset_ensures;

    let ghost v0 = v@;
    let mut rem = v;
    let mut out: Vec<(u32, u32)> = Vec::new();
    while rem.len() > 0
        invariant
            out@.len() + rem@.len() == v0.len(),
            out@.to_multiset().add(rem@.to_multiset()) == v0.to_multiset(),
            forall|k1: int, k2: int| 0 <= k1 < k2 < out@.len() ==> lex_le(out@[k1], out@[k2]),
            forall|a: int, b: int|
                0 <= a < out@.len() && 0 <= b < rem@.len() ==> lex_le(out@[a], rem@[b]),
        decreases rem@.len(),
    {
        let mut m: usize = 0;
        let mut j: usize = 1;
        while j < rem.len()
            invariant
                m < j <= rem@.len(),
                rem@.len() > 0,
                forall|t: int| 0 <= t < j ==> lex_le(rem@[m as int], rem@[t]),
            decreases rem@.len() - j,
        {
            if !lex_le_exec(rem[m], rem[j]) {
                m = j;
            }
            j = j + 1;
        }
        let ghost rem_pre = rem@;
        let ghost out_pre = out@;
        let p = rem.remove(m);
        out.push(p);
        proof {
            broadcast use vstd::multiset::group_multiset_axioms;

            vstd::seq_lib::to_multiset_build(out_pre, p);
            vstd::seq_lib::to_multiset_remove(rem_pre, m as int);
            vstd::seq_lib::to_multiset_contains(rem_pre, p);
            assert(rem_pre.contains(rem_pre[m as int]));
            assert(rem_pre.to_multiset().count(p) > 0);
            assert(out@.to_multiset().add(rem@.to_multiset()) =~= v0.to_multiset());
        }
    }
    proof {
        broadcast use vstd::multiset::group_multiset_axioms;

        vstd::seq_lib::to_multiset_len(rem@);
        assert(out@.to_multiset() =~= v0.to_multiset());
    }
    out
}

/// Some entry of `v` sits in slot `j`.
pub open spec fn spec_has_slot(v: Seq<NodeSessionV>, j: int) -> bool {
    exists|k: int| 0 <= k < v.len() && (#[trigger] v[k]).info.slot == j
}

impl NodesState {
    /// What the neighbourhood answer for the caller in slot `caller`
    /// must look like: at most `count` entries and no more than the
    /// other live sessions, each a registered session other than the
    /// caller, closest distances first with ties broken by slot; and
    /// nothing closer was left out: every registered session missing
    /// from the answer is at least as far as everything in it.
    pub open spec fn neighbours_ok(self, caller: int, count: u32, v: Seq<NodeSessionV>) -> bool {
        &&& v.len() == vstd::math::min(count as int, self.live() - 1)
        &&& forall|k1: int, k2: int|
            0 <= k1 < k2 < v.len() ==> (#[trigger] v[k1]).info.slot != (#[trigger] v[k2]).info.slot
        &&& forall|k: int|
            0 <= k < v.len() ==> (#[trigger] v[k]) == self.at(v[k].info.slot as int) && self.occ(
                v[k].info.slot as int,
            ) && v[k].info.slot != caller
        &&& forall|k1: int, k2: int|
            0 <= k1 < k2 < v.len() ==> lex_le(
                (
                    spec_hamming(v[k1].info.node_id, self.at(caller).info.node_id) as u32,
                    v[k1].info.slot,
                ),
                (
                    spec_hamming(v[k2].info.node_id, self.at(caller).info.node_id) as u32,
                    v[k2].info.slot,
                ),
            )
        &&& forall|j: int, k: int|
            #[trigger] self.occ(j) && j != caller && !spec_has_slot(v, j) && 0 <= k < v.len()
                ==> lex_le(
                (
                    spec_hamming((#[trigger] v[k]).info.node_id, self.at(caller).info.node_id)
                        as u32,
                    v[k].info.slot,
                ),
                (
                    spec_hamming(self.at(j).info.node_id, self.at(caller).info.node_id) as u32,
                    j as u32,
                ),
            )
    }

    /// What must hold of a candidate pair for the caller in slot `caller`:
    /// an occupied slot other than the caller's, paired with its distance
    /// from the caller's node id.
    pub open spec fn neighbour_pair_ok(self, caller: int, p: (u32, u32)) -> bool {
        &&& self.occ(p.1 as int)
        &&& p.1 != caller
        &&& p.0 == spec_hamming(self.at(p.1 as int).info.node_id, self.at(caller).info.node_id)
    }

    fn find_session_slot(&self, id: &SessionId) -> (r: Option<usize>)
        ensures
            match r {
                Some(i) => self.spec_find_session(id@) == Some(i as int),
                None => !self.has_session(id@),
            },
    {
        let mut i: usize = 0;
        while i < self.slots.len()
            invariant
                0 <= i <= self.len(),
                find_session_from(self.slots@, id@, 0) == find_session_from(
                    self.slots@,
                    id@,
                    i as int,
                ),
            decreases self.len() - i,
        {
            let hit = match &self.slots[i] {
                Some(ns) => ns.session == *id,
                None => false,
            };
            if hit {
                return Some(i);
            }
            i = i + 1;
        }
        None
    }

    /// The `count` registered sessions closest to the caller's node id in
    /// Hamming distance, the caller itself excluded, closest first and
    /// ties broken by ascending slot.
    #[verifier::loop_isolation(false)]
    pub fn neighbours(&self, id: &SessionId, count: u32) -> (r: ServerResult<Vec<NodeSession>>)
        requires
            self.wf(),
        ensures
            match r {
                Ok(v) => {
                    &&& self.has_session(id@)
                    &&& self.neighbours_ok(
                        self.spec_find_session(id@).unwrap(),
                        count,
                        v@.map_values(|n: NodeSession| n@),
                    )
                },
                Err(e) => {
                    &&& e == Error::Unauthorized(Unauthorized::SessionNotFound)
                    &&& !self.has_session(id@)
                },
            },
    {
        broadcast use vstd::seq_lib::group_to_multiset_ensures;

        let caller = match self.find_session_slot(id) {
            Some(i) => i,
            None => {
                return Err(Error::Unauthorized(Unauthorized::SessionNotFound));
            },
        };
        proof {
            lemma_find_session_from_props(self.slots@, id@, 0);
        }
        let ref_node = match &self.slots[caller] {
            Some(ns) => ns.info.node_id.clone(),
            None => {
                proof {
                    assert(false);
                }
                return Err(Error::Internal(InternalError::GettingSessionInfo));
            },
        };
        let ghost caller_i = caller as int;
        let mut pairs: Vec<(u32, u32)> = Vec::new();
        let mut i: usize = 0;
        while i < self.slots.len()
            invariant
                i <= self.len(),
                pairs@.len() == self.live() - count_occupied_from(self.slots@, i as int) - (
                if caller_i < i {
                    1int
                } else {
                    0int
                }),
                forall|k: int|
                    0 <= k < pairs@.len() ==> self.neighbour_pair_ok(
                        caller_i,
                        #[trigger] pairs@[k],
                    ),
                forall|k: int| 0 <= k < pairs@.len() ==> (#[trigger] pairs@[k]).1 < i,
                forall|k1: int, k2: int|
                    0 <= k1 < k2 < pairs@.len() ==> (#[trigger] pairs@[k1]).1 < (
                    #[trigger] pairs@[k2]).1,
                forall|j: int|
                    0 <= j < i && #[trigger] self.occ(j) && j != caller_i ==> pairs@.contains(
                        (
                            (spec_hamming(
                                self.at(j).info.node_id,
                                self.at(caller_i).info.node_id,
                            ) as u32),
                            j as u32,
                        ),
                    ),
            decreases self.len() - i,
        {
            match &self.slots[i] {
                Some(ns) => {
                    if i != caller {
                        proof {
                            assert(self.occ(i as int));
                            assert(self.occ(caller_i));
                            assert(ref_node@ == self.at(caller_i).info.node_id);
                        }
                        let ghost pairs_pre = pairs@;
                        let d = hamming_distance(&ns.info.node_id, &ref_node);
                        pairs.push((d, i as u32));
                        proof {
                            assert(ns.info.node_id@ == self.at(i as int).info.node_id);
                            assert(d == spec_hamming(
                                self.at(i as int).info.node_id,
                                self.at(caller_i).info.node_id,
                            ));
                            assert(pairs@[pairs@.len() - 1] == (d, i as u32));
                            assert(pairs@.contains((d, i as u32)));
                            assert forall|x: (u32, u32)| pairs_pre.contains(x) implies pairs@.contains(
                                x,
                            ) by {
                                let ii = choose|ii: int|
                                    0 <= ii < pairs_pre.len() && pairs_pre[ii] == x;
                                assert(pairs@[ii] == x);
                            }
                        }
                    }
                },
                None => {},
            }
            i = i + 1;
        }
        let sorted = sort_pairs(pairs);
        proof {
            assert forall|k: int|
                0 <= k < sorted@.len() implies self.neighbour_pair_ok(
                caller_i,
                #[trigger] sorted@[k],
            ) by {
                assert(sorted@.contains(sorted@[k]));
                vstd::seq_lib::to_multiset_contains(sorted@, sorted@[k]);
                vstd::seq_lib::to_multiset_contains(pairs@, sorted@[k]);
                assert(pairs@.contains(sorted@[k]));
                let m = choose|m: int| 0 <= m < pairs@.len() && pairs@[m] == sorted@[k];
                assert(self.neighbour_pair_ok(caller_i, pairs@[m]));
            }
            // slots stay pairwise distinct through the sort
            assert(pairs@.no_duplicates()) by {
                assert forall|a: int, b: int|
                    0 <= a < pairs@.len() && 0 <= b < pairs@.len() && a != b implies pairs@[a]
                    != pairs@[b] by {
                    if a < b {
                        assert(pairs@[a].1 < pairs@[b].1);
                    } else {
                        assert(pairs@[b].1 < pairs@[a].1);
                    }
                }
            }
            pairs@.lemma_multiset_has_no_duplicates();
            assert forall|x: (u32, u32)|
                sorted@.to_multiset().contains(x) implies sorted@.to_multiset().count(x) == 1 by {
                assert(pairs@.to_multiset().contains(x));
            }
            sorted@.lemma_multiset_has_no_duplicates_conv();
            assert forall|k1: int, k2: int|
                0 <= k1 < k2 < sorted@.len() implies (#[trigger] sorted@[k1]).1 != (
            #[trigger] sorted@[k2]).1 by {
                if sorted@[k1].1 == sorted@[k2].1 {
                    assert(sorted@[k1] != sorted@[k2]);
                    assert(sorted@.contains(sorted@[k1]));
                    assert(sorted@.contains(sorted@[k2]));
                    vstd::seq_lib::to_multiset_contains(sorted@, sorted@[k1]);
                    vstd::seq_lib::to_multiset_contains(sorted@, sorted@[k2]);
                    vstd::seq_lib::to_multiset_contains(pairs@, sorted@[k1]);
                    vstd::seq_lib::to_multiset_contains(pairs@, sorted@[k2]);
                    assert(pairs@.contains(sorted@[k1]));
                    assert(pairs@.contains(sorted@[k2]));
                    let m1 = choose|m: int| 0 <= m < pairs@.len() && pairs@[m] == sorted@[k1];
                    let m2 = choose|m: int| 0 <= m < pairs@.len() && pairs@[m] == sorted@[k2];
                    assert(m1 != m2);
                    if m1 < m2 {
                        assert(pairs@[m1].1 < pairs@[m2].1);
                    } else {
                        assert(pairs@[m2].1 < pairs@[m1].1);
                    }
                }
            }
        }
        let take = if (count as usize) < sorted.len() {
            count as usize
        } else {
            sorted.len()
        };
        let mut out: Vec<NodeSession> = Vec::new();
        let mut k: usize = 0;
        while k < take
            invariant
                k <= take,
                out@.len() == k,
                forall|m: int|
                    0 <= m < k ==> (#[trigger] out@[m]@) == self.at(sorted@[m].1 as int)
                        && out@[m]@.info.slot == sorted@[m].1,
            decreases take - k,
        {
            let slot = sorted[k].1;
            match self.get_by_slot(slot) {
                Some(ns) => {
                    out.push(ns);
                },
                None => {
                    proof {
                        assert(false);
                    }
                },
            }
            k = k + 1;
        }
        proof {
            let outv = out@.map_values(|n: NodeSession| n@);
            let refid = self.at(caller_i).info.node_id;
            assert forall|j: int, k2: int|
                #[trigger] self.occ(j) && j != caller_i && !spec_has_slot(outv, j) && 0 <= k2
                    < outv.len() implies lex_le(
                (
                    spec_hamming((#[trigger] outv[k2]).info.node_id, refid) as u32,
                    outv[k2].info.slot,
                ),
                (spec_hamming(self.at(j).info.node_id, refid) as u32, j as u32),
            ) by {
                let pj = ((spec_hamming(self.at(j).info.node_id, refid) as u32), j as u32);
                assert(pairs@.contains(pj));
                vstd::seq_lib::to_multiset_contains(pairs@, pj);
                vstd::seq_lib::to_multiset_contains(sorted@, pj);
                assert(sorted@.contains(pj));
                let m = choose|m: int| 0 <= m < sorted@.len() && sorted@[m] == pj;
                if m < take {
                    assert(outv[m].info.slot == sorted@[m].1);
                    assert(outv[m].info.slot == j);
                    assert(spec_has_slot(outv, j));
                } else {
                    assert(outv[k2] == out@[k2]@);
                    assert(outv[k2] == self.at(sorted@[k2].1 as int));
                    assert(self.neighbour_pair_ok(caller_i, sorted@[k2]));
                    assert(sorted@[k2].0 == spec_hamming(outv[k2].info.node_id, refid));
                    assert(outv[k2].info.slot == sorted@[k2].1);
                    assert(lex_le(sorted@[k2], sorted@[m]));
                }
            }
        }
        Ok(out)
    }
}

/// Both indices are faithful: a registered record is found under its
/// own session id and its own node id, at its own slot, and the record
/// a session id finds carries exactly that id.
pub proof fn lemma_indices_point_home(s: NodesState, i: int)
    requires
        s.wf(),
        s.occ(i),
    ensures
        s.spec_find_session(s.at(i).session) == Some(i),
        s.spec_find_node(s.at(i).info.node_id) == Some(i),
        s.at(i).session == s.at(s.spec_find_session(s.at(i).session).unwrap()).session,
{
    lemma_find_session_from_props(s.slots@, s.at(i).session, 0);
    lemma_find_node_from_props(s.slots@, s.at(i).info.node_id, 0);
    match find_session_from(s.slots@, s.at(i).session, 0) {
        Some(j) => {
            assert(s.occ(j));
            if j != i {
                assert(s.at(j).session != s.at(i).session);
            }
        },
        None => {
            assert(!(s.slots@[i] is Some && s.slots@[i].unwrap()@.session == s.at(i).session));
        },
    }
    match find_node_from(s.slots@, s.at(i).info.node_id, 0) {
        Some(j) => {
            assert(s.occ(j));
            if j != i {
                assert(s.at(j).info.node_id != s.at(i).info.node_id);
            }
        },
        None => {
            assert(!(s.slots@[i] is Some && s.slots@[i].unwrap()@.info.node_id == s.at(
                i,
            ).info.node_id));
        },
    }
}

} // verus!
