//! Scopes: nested regions that each own a range of root slots.

use crate::error::JlrsError;
use crate::memory::stack::RootStack;
use crate::memory::tag::{DataTag, ScopeTag};
use crate::wrappers::ptr::value::Value;
use vstd::prelude::*;

verus! {

/// An open scope.
///
/// The scope owns a range of root slots from the moment it is opened until it is closed.
/// Closing takes the scope by value, so a closed scope cannot be named again.
#[derive(Debug)]
pub struct Scope {
    tag: ScopeTag,
}

impl Scope {
    /// The tag that handles rooted in this scope carry.
    pub closed spec fn tag_spec(&self) -> ScopeTag {
        self.tag
    }

    /// The tag that handles rooted in this scope carry.
    #[verifier::when_used_as_spec(tag_spec)]
    pub fn tag(&self) -> (tag: ScopeTag)
        ensures
            tag == self.tag_spec(),
    {
        self.tag
    }
}

/// What one open scope holds.
#[verifier::ext_equal]
pub ghost struct ScopeView {
    /// The tag of the scope.
    pub tag: ScopeTag,
    /// The index of the first slot of the scope's range.
    pub base: nat,
    /// The address promoted into the scope by a descendant, or zero.
    pub output: usize,
    /// The addresses rooted in the scope, oldest first.
    pub roots: Seq<usize>,
    /// The number of slots for roots that the scope has reserved.
    pub capacity: nat,
}

impl ScopeView {
    /// The index one past the last slot of the scope's range.
    pub open spec fn end(self) -> nat {
        self.base + 1 + self.capacity
    }

    /// Whether the collector finds `address` in the scope's range.
    pub open spec fn holds(self, address: usize) -> bool {
        address != 0 && (self.output == address || self.roots.contains(address))
    }

    /// The index of the slot that takes the scope's next root.
    pub open spec fn next_slot(self) -> nat {
        self.base + 1 + self.roots.len()
    }

    /// The scope after `address` was rooted in it. A full scope has grown by one slot.
    pub open spec fn rooted(self, address: usize) -> ScopeView {
        ScopeView {
            roots: self.roots.push(address),
            capacity: if self.roots.len() < self.capacity {
                self.capacity
            } else {
                self.capacity + 1
            },
            ..self
        }
    }

    /// The scope after `address` was promoted into it.
    pub open spec fn promoted(self, address: usize) -> ScopeView {
        ScopeView { output: address, ..self }
    }
}

#[derive(Clone, Copy)]
struct Frame {
    tag: u64,
    base: usize,
    capacity: usize,
    used: usize,
}

/// The open scopes of one runtime instance, innermost last, over the root stack they share.
///
/// The range of a scope starts with one slot that receives a value promoted by a descendant;
/// the slots for the scope's own roots follow.
pub struct ScopeStack {
    roots: RootStack,
    frames: Vec<Frame>,
    next_tag: u64,
}

impl View for ScopeStack {
    type V = Seq<ScopeView>;

    closed spec fn view(&self) -> Seq<ScopeView> {
        Seq::new(self.frames@.len(), |i: int| self.frame_view(i))
    }
}

impl ScopeStack {
    spec fn frame_view(&self, i: int) -> ScopeView {
        let frame = self.frames@[i];
        ScopeView {
            tag: ScopeTag(frame.tag),
            base: frame.base as nat,
            output: self.roots@[frame.base as int],
            roots: self.roots@.subrange(frame.base + 1, frame.base + 1 + frame.used),
            capacity: frame.capacity as nat,
        }
    }

    spec fn frame_end(&self, i: int) -> int {
        self.frames@[i].base + 1 + self.frames@[i].capacity
    }

    /// The root slots as the collector scans them.
    pub closed spec fn slots(&self) -> Seq<usize> {
        self.roots@
    }

    /// The largest number of root slots.
    pub closed spec fn limit(&self) -> nat {
        self.roots.limit()
    }

    /// The number of the tag that the next scope will get.
    pub closed spec fn next_tag(&self) -> nat {
        self.next_tag as nat
    }

    /// The position of the open scope with this tag, counted from the outermost.
    pub open spec fn position(&self, tag: ScopeTag) -> Option<int> {
        if exists|i: int| 0 <= i < self@.len() && self@[i].tag == tag {
            Some(choose|i: int| 0 <= i < self@.len() && self@[i].tag == tag)
        } else {
            None
        }
    }

    /// Whether a scope with this tag is open.
    pub open spec fn is_open_spec(&self, tag: ScopeTag) -> bool {
        self.position(tag) is Some
    }

    /// Whether handles may carry this tag: it names the permanent scope, or an open scope.
    pub open spec fn is_valid_spec(&self, tag: ScopeTag) -> bool {
        tag.is_permanent() || self.is_open_spec(tag)
    }

    /// Whether the scope that bounds the handle is open.
    pub open spec fn is_live_spec(&self, value: Value) -> bool {
        self.is_valid_spec(value.scope())
    }

    /// Whether the collector finds `address` in the range of the open scope with this tag.
    pub open spec fn protects(&self, tag: ScopeTag, address: usize) -> bool {
        exists|i: int| 0 <= i < self@.len() && self@[i].tag == tag && self@[i].holds(address)
    }

    /// The scope ranges tile the root stack, tags grow from the outermost scope inwards, and
    /// a slot is zero unless an address was rooted in it.
    pub closed spec fn wf(&self) -> bool {
        &&& self.roots.wf()
        &&& self.next_tag >= 1
        &&& self.frames@.len() == 0 ==> self.roots@.len() == 0
        &&& self.frames@.len() > 0 ==> self.frames@[0].base == 0 && self.frame_end(
            self.frames@.len() - 1,
        ) == self.roots@.len()
        &&& forall|i: int|
            0 <= i < self.frames@.len() ==> {
                &&& (#[trigger] self.frames@[i]).used <= self.frames@[i].capacity
                &&& self.frame_end(i) <= self.roots@.len()
                &&& 1 <= self.frames@[i].tag < self.next_tag
            }
        &&& forall|i: int|
            0 <= i && i + 1 < self.frames@.len() ==> self.frame_end(i) == (
            #[trigger] self.frames@[i + 1]).base
        &&& forall|i: int, j: int|
            0 <= i < j < self.frames@.len() ==> {
                &&& (#[trigger] self.frames@[i]).tag < (#[trigger] self.frames@[j]).tag
                &&& self.frame_end(i) <= self.frames@[j].base
            }
        &&& forall|i: int, k: int|
            #![trigger self.frames@[i], self.roots@[k]]
            0 <= i < self.frames@.len() && self.frames@[i].base < k <= self.frames@[i].base
                + self.frames@[i].used ==> self.roots@[k] != 0
        &&& forall|i: int, k: int|
            #![trigger self.frames@[i], self.roots@[k]]
            0 <= i < self.frames@.len() && self.frames@[i].base + self.frames@[i].used < k
                < self.frame_end(i) ==> self.roots@[k] == 0
    }

    /// Whether a scope with room for `capacity` roots can be opened.
    pub open spec fn can_open(&self, capacity: usize) -> bool {
        self.slots().len() + 1 + capacity <= self.limit() && self.next_tag() < u64::MAX
    }

    /// What a scope holds right after it was opened on this stack.
    pub open spec fn fresh_scope(&self, capacity: usize) -> ScopeView {
        ScopeView {
            tag: ScopeTag(self.next_tag() as u64),
            base: self.slots().len(),
            output: 0,
            roots: Seq::empty(),
            capacity: capacity as nat,
        }
    }

    /// Whether the scope with this tag is the innermost open scope.
    pub open spec fn is_innermost(&self, tag: ScopeTag) -> bool {
        self@.len() > 0 && self@.last().tag == tag
    }

    /// Whether the scope at position `i` can take another root: it has a free slot, or it is
    /// the innermost scope and the root stack can grow.
    pub open spec fn has_room(&self, i: int) -> bool {
        self@[i].roots.len() < self@[i].capacity || (i == self@.len() - 1 && self.slots().len()
            < self.limit())
    }

    /// The slots after `address` was written to slot `k`, which is at most one past the top.
    pub open spec fn written(slots: Seq<usize>, k: nat, address: usize) -> Seq<usize> {
        if k < slots.len() {
            slots.update(k as int, address)
        } else {
            slots.push(address)
        }
    }

    /// Opening a scope for `capacity` roots takes `self` to `post` and returns `scope`.
    pub open spec fn opens(
        self,
        post: Self,
        capacity: usize,
        scope: Result<Scope, JlrsError>,
    ) -> bool {
        &&& post.limit() == self.limit()
        &&& if self.can_open(capacity) {
            &&& scope is Ok
            &&& scope->Ok_0.tag() == self.fresh_scope(capacity).tag
            &&& post@ == self@.push(self.fresh_scope(capacity))
            &&& post.slots() == self.slots() + Seq::new((capacity + 1) as nat, |i: int| 0usize)
            &&& post.next_tag() == self.next_tag() + 1
            &&& forall|tag: ScopeTag| #[trigger]
                post.position(tag) == if tag == self.fresh_scope(capacity).tag {
                    Some(self@.len() as int)
                } else {
                    self.position(tag)
                }
        } else {
            &&& scope == Err::<Scope, JlrsError>(JlrsError::CapacityExceeded)
            &&& post == self
        }
    }

    /// Closing `scope` takes `self` to `post` and returns `rejected`.
    pub open spec fn closes(self, post: Self, scope: Scope, rejected: Result<(), Scope>) -> bool {
        &&& post.limit() == self.limit()
        &&& post.next_tag() == self.next_tag()
        &&& if self.is_innermost(scope.tag()) {
            &&& rejected is Ok
            &&& post@ == self@.drop_last()
            &&& post.slots() == self.slots().take(self@.last().base as int)
            &&& forall|tag: ScopeTag| #[trigger]
                post.position(tag) == if tag == scope.tag() {
                    None
                } else {
                    self.position(tag)
                }
        } else {
            &&& rejected == Err::<(), Scope>(scope)
            &&& post == self
        }
    }

    /// Unwinding to `scope` takes `self` to `post`.
    pub open spec fn unwinds(self, post: Self, scope: Scope) -> bool {
        &&& post.limit() == self.limit()
        &&& post.next_tag() == self.next_tag()
        &&& match self.position(scope.tag()) {
            Some(i) => {
                &&& post@ == self@.take(i)
                &&& post.slots() == self.slots().take(self@[i].base as int)
                &&& forall|tag: ScopeTag| #[trigger]
                    post.position(tag) == match self.position(tag) {
                        Some(j) => if j < i {
                            Some(j)
                        } else {
                            None
                        },
                        None => None,
                    }
            },
            None => post == self,
        }
    }

    /// Rooting `address` in the scope with this tag takes `self` to `post` and returns
    /// `value`.
    pub open spec fn roots_here(
        self,
        post: Self,
        tag: ScopeTag,
        address: usize,
        data: DataTag,
        value: Result<Value, JlrsError>,
    ) -> bool {
        &&& post.limit() == self.limit()
        &&& post.next_tag() == self.next_tag()
        &&& match self.position(tag) {
            None => value == Err::<Value, JlrsError>(JlrsError::ScopeClosed) && post == self,
            Some(i) => if self.has_room(i) {
                &&& value is Ok
                &&& value->Ok_0.denotes(address, tag, data)
                &&& post@ == self@.update(i, self@[i].rooted(address))
                &&& post.slots() == Self::written(self.slots(), self@[i].next_slot(), address)
                &&& forall|other: ScopeTag| #[trigger] post.position(other) == self.position(other)
            } else {
                value == Err::<Value, JlrsError>(JlrsError::CapacityExceeded) && post == self
            },
        }
    }

    /// Wrapping `address` in an unrooted handle bound to the scope with this tag returns
    /// `value`.
    pub open spec fn unroots(
        self,
        tag: ScopeTag,
        address: usize,
        data: DataTag,
        value: Result<Value, JlrsError>,
    ) -> bool {
        if self.is_valid_spec(tag) {
            value is Ok && value->Ok_0.denotes(address, tag, data)
        } else {
            value == Err::<Value, JlrsError>(JlrsError::ScopeClosed)
        }
    }

    /// Promoting `address` into the scope with this tag takes `self` to `post` and returns
    /// `value`.
    pub open spec fn promotes(
        self,
        post: Self,
        tag: ScopeTag,
        address: usize,
        data: DataTag,
        value: Result<Value, JlrsError>,
    ) -> bool {
        &&& post.limit() == self.limit()
        &&& post.next_tag() == self.next_tag()
        &&& match self.position(tag) {
            None => value == Err::<Value, JlrsError>(JlrsError::ScopeClosed) && post == self,
            Some(i) => if self@[i].output == 0 {
                &&& value is Ok
                &&& value->Ok_0.denotes(address, tag, data)
                &&& post@ == self@.update(i, self@[i].promoted(address))
                &&& post.slots() == self.slots().update(self@[i].base as int, address)
                &&& forall|other: ScopeTag| #[trigger] post.position(other) == self.position(other)
            } else {
                value == Err::<Value, JlrsError>(JlrsError::CapacityExceeded) && post == self
            },
        }
    }

    /// How the open scopes lie on the root stack: each scope's range is within the stack and
    /// ends where the next begins, the innermost ends at the top, and within a range the
    /// promoted value comes first, then the roots, none of them null, then zeroed slots.
    pub open spec fn laid_out(&self) -> bool {
        &&& self.slots().len() <= self.limit()
        &&& self@.len() == 0 ==> self.slots().len() == 0
        &&& self@.len() > 0 ==> self@[0].base == 0 && self@.last().end() == self.slots().len()
        &&& forall|i: int|
            0 <= i && i + 1 < self@.len() ==> (#[trigger] self@[i]).end() == self@[i + 1].base
        &&& forall|i: int|
            0 <= i < self@.len() ==> {
                &&& (#[trigger] self@[i]).roots.len() <= self@[i].capacity
                &&& self@[i].end() <= self.slots().len()
                &&& self@[i].output == self.slots()[self@[i].base as int]
                &&& self@[i].roots == self.slots().subrange(
                    self@[i].base as int + 1,
                    self@[i].next_slot() as int,
                )
            }
        &&& forall|i: int, k: int|
            #![trigger self@[i], self.slots()[k]]
            0 <= i < self@.len() && self@[i].base < k < self@[i].end() ==> (self.slots()[k] != 0
                <==> k < self@[i].next_slot())
    }

    /// A stack without scopes whose root stack holds at most `limit` slots.
    pub fn new(limit: usize) -> (stack: Self)
        ensures
            stack.wf(),
            stack@ == Seq::<ScopeView>::empty(),
            stack.slots() == Seq::<usize>::empty(),
            stack.limit() == limit,
            stack.next_tag() == 1,
    {
        ScopeStack { roots: RootStack::new(limit), frames: Vec::new(), next_tag: 1 }
    }

    /// Opens a scope inside the innermost open scope, or an outermost scope if none is open.
    ///
    /// The scope reserves one slot for a promoted value and `capacity_hint` slots for its own
    /// roots, all zeroed, on top of the root stack, and gets a tag that no scope had before.
    /// Fails with `CapacityExceeded`, changing nothing, when the root stack cannot take the
    /// slots or the tags are used up.
    pub fn open(&mut self, capacity_hint: usize) -> (scope: Result<Scope, JlrsError>)
        requires
            old(self).wf(),
        ensures
            final(self).wf(),
            old(self).opens(*final(self), capacity_hint, scope),
    {
        let base = self.roots.len();
        let limit = self.roots.capacity();
        if self.next_tag == u64::MAX || capacity_hint >= limit - base {
            return Err(JlrsError::CapacityExceeded);
        }
        let _ = self.roots.reserve_slots(capacity_hint + 1);
        let tag = self.next_tag;
        self.frames.push(Frame { tag, base, capacity: capacity_hint, used: 0 });
        self.next_tag = tag + 1;
        proof {
            assert forall|i: int| 0 <= i < old(self).frames@.len() implies self.frame_view(i)
                == old(self).frame_view(i) by {
                let frame = old(self).frames@[i];
                assert(self.frames@[i] == frame);
                assert(self.roots@.subrange(frame.base + 1, frame.base + 1 + frame.used)
                    == old(self).roots@.subrange(frame.base + 1, frame.base + 1 + frame.used));
            }
            assert(self.frame_view(old(self).frames@.len() as int) =~~= old(self).fresh_scope(
                capacity_hint,
            ));
            assert(self@ == old(self)@.push(old(self).fresh_scope(capacity_hint)));
            assert forall|other: ScopeTag| #[trigger]
                self.position(other) == if other == old(self).fresh_scope(capacity_hint).tag {
                    Some(old(self)@.len() as int)
                } else {
                    old(self).position(other)
                } by {
                let depth = old(self)@.len() as int;
                old(self).lemma_tags_ascend();
                if other == ScopeTag(tag) {
                    self.lemma_position(other, depth);
                } else if exists|i: int| 0 <= i < self@.len() && self@[i].tag == other {
                    let i = choose|i: int| 0 <= i < self@.len() && self@[i].tag == other;
                    assert(old(self)@[i].tag == other);
                    old(self).lemma_position(other, i);
                    self.lemma_position(other, i);
                } else {
                    match old(self).position(other) {
                        Some(j) => {
                            assert(self@[j].tag == other);
                        },
                        None => {},
                    }
                }
            }
        }
        Ok(Scope { tag: ScopeTag(tag) })
    }

    fn find(&self, tag: ScopeTag) -> (found: Option<usize>)
        requires
            self.wf(),
        ensures
            found matches Some(i) ==> i < self.frames@.len() && self.frames@[i as int].tag
                == tag.0,
            found matches Some(i) ==> self.position(tag) == Some(i as int),
            found is None ==> self.position(tag) is None,
            found is Some == self.is_open_spec(tag),
    {
        let mut i = self.frames.len();
        while i > 0
            invariant
                self.wf(),
                i <= self.frames@.len(),
                forall|j: int| i <= j < self.frames@.len() ==> self.frames@[j].tag != tag.0,
            decreases i,
        {
            i = i - 1;
            if self.frames[i].tag == tag.0 {
                proof {
                    assert(self@[i as int].tag == tag);
                    self.lemma_position(tag, i as int);
                }
                return Some(i);
            }
        }
        proof {
            assert forall|j: int| 0 <= j < self@.len() implies self@[j].tag != tag by {
                assert(self.frames@[j].tag != tag.0);
            }
        }
        None
    }

    /// Whether a scope with this tag is open.
    #[verifier::when_used_as_spec(is_open_spec)]
    pub fn is_open(&self, tag: ScopeTag) -> (open: bool)
        requires
            self.wf(),
        ensures
            open == self.is_open_spec(tag),
    {
        self.find(tag).is_some()
    }

    /// Whether handles may carry this tag: it names the permanent scope, or an open scope.
    #[verifier::when_used_as_spec(is_valid_spec)]
    pub fn is_valid(&self, tag: ScopeTag) -> (valid: bool)
        requires
            self.wf(),
        ensures
            valid == self.is_valid_spec(tag),
    {
        tag.0 == 0 || self.find(tag).is_some()
    }

    /// Whether the scope that bounds the handle is open.
    #[verifier::when_used_as_spec(is_live_spec)]
    pub fn is_live(&self, value: Value) -> (live: bool)
        requires
            self.wf(),
        ensures
            live == self.is_live_spec(value),
    {
        self.is_valid(value.scope())
    }

    /// Closes the innermost scope and releases its slots.
    ///
    /// A scope that is not the innermost open scope is handed back, and nothing changes: a
    /// scope cannot close while a scope opened inside it is open.
    pub fn close(&mut self, scope: Scope) -> (rejected: Result<(), Scope>)
        requires
            old(self).wf(),
        ensures
            final(self).wf(),
            old(self).closes(*final(self), scope, rejected),
    {
        let n = self.frames.len();
        if n == 0 {
            return Err(scope);
        }
        let top = self.frames[n - 1];
        if top.tag != scope.tag.0 {
            assert(self@.last().tag != scope.tag());
            return Err(scope);
        }
        assert(self@.last().tag == scope.tag());
        self.frames.pop();
        self.roots.release_slots(top.base);
        proof {
            assert forall|i: int| 0 <= i < self.frames@.len() implies self.frame_view(i)
                == old(self).frame_view(i) by {
                let frame = old(self).frames@[i];
                assert(self.frames@[i] == frame);
                assert(old(self).frame_end(i) <= old(self).frames@[n - 1].base);
                assert(self.roots@.subrange(frame.base + 1, frame.base + 1 + frame.used)
                    == old(self).roots@.subrange(frame.base + 1, frame.base + 1 + frame.used));
            }
            assert(self@ == old(self)@.drop_last());
            if self.frames@.len() > 0 {
                assert(old(self).frame_end(n - 2) == old(self).frames@[n - 2 + 1].base);
            }
            assert forall|other: ScopeTag| #[trigger]
                self.position(other) == if other == scope.tag() {
                    None
                } else {
                    old(self).position(other)
                } by {
                old(self).lemma_positions_kept(*self, other);
                old(self).lemma_position(scope.tag(), n - 1);
            }
        }
        Ok(())
    }

    /// Roots `address` in the open scope with this tag.
    ///
    /// The address goes to the next free slot of the scope's range. A scope whose range is
    /// used up grows by one slot if it is the innermost scope and the root stack has not
    /// reached its limit. Fails, changing nothing, with `ScopeClosed` when no scope with this
    /// tag is open, and with `CapacityExceeded` when the scope is full and cannot grow.
    pub fn root_here(&mut self, tag: ScopeTag, address: usize, data: DataTag) -> (value: Result<
        Value,
        JlrsError,
    >)
        requires
            old(self).wf(),
            address != 0,
        ensures
            final(self).wf(),
            old(self).roots_here(*final(self), tag, address, data, value),
    {
        let i = match self.find(tag) {
            None => {
                return Err(JlrsError::ScopeClosed);
            },
            Some(i) => i,
        };
        let mut frame = self.frames[i];
        let depth = self.frames.len();
        let top = self.roots.len();
        assert(self.frame_end(i as int) <= top);
        if frame.used == frame.capacity {
            if i + 1 != depth || top >= self.roots.capacity() {
                return Err(JlrsError::CapacityExceeded);
            }
            let _ = self.roots.reserve_slots(1);
            frame.capacity = frame.capacity + 1;
        }
        let k = frame.base + 1 + frame.used;
        *self.roots.slot(k) = address;
        frame.used = frame.used + 1;
        self.frames.set(i, frame);
        proof {
            assert forall|j: int| 0 <= j < self.frames@.len() && j != i implies self.frame_view(j)
                == old(self).frame_view(j) by {
                let other = old(self).frames@[j];
                assert(self.frames@[j] == other);
                if j < i {
                    assert(old(self).frame_end(j) <= old(self).frames@[i as int].base);
                } else {
                    assert(old(self).frame_end(i as int) <= old(self).frames@[j].base);
                }
                assert(self.roots@.subrange(other.base + 1, other.base + 1 + other.used)
                    == old(self).roots@.subrange(other.base + 1, other.base + 1 + other.used));
            }
            assert(self.frame_view(i as int) =~~= old(self)@[i as int].rooted(address));
            assert(self@ =~= old(self)@.update(i as int, old(self)@[i as int].rooted(address)));
            assert(self.slots() =~= Self::written(
                old(self).slots(),
                old(self)@[i as int].next_slot(),
                address,
            ));
            assert forall|other: ScopeTag| #[trigger]
                self.position(other) == old(self).position(other) by {
                old(self).lemma_positions_kept(*self, other);
            }
        }
        Ok(Value::wrap(address, tag, data))
    }

    /// Closes the scope together with every scope opened inside it that is still open, and
    /// releases their slots.
    ///
    /// This ends a scope on a path that left it early, without closing what it had opened. A
    /// scope that is not open is dropped, and nothing changes.
    pub fn unwind(&mut self, scope: Scope)
        requires
            old(self).wf(),
        ensures
            final(self).wf(),
            old(self).unwinds(*final(self), scope),
    {
        let i = match self.find(scope.tag()) {
            None => {
                return;
            },
            Some(i) => i,
        };
        let base = self.frames[i].base;
        let top = self.roots.len();
        assert(self.frame_end(i as int) <= top);
        self.frames.truncate(i);
        self.roots.release_slots(base);
        proof {
            assert forall|j: int| 0 <= j < self.frames@.len() implies self.frame_view(j)
                == old(self).frame_view(j) by {
                let frame = old(self).frames@[j];
                assert(self.frames@[j] == frame);
                assert(old(self).frame_end(j) <= old(self).frames@[i as int].base);
                assert(self.roots@.subrange(frame.base + 1, frame.base + 1 + frame.used)
                    == old(self).roots@.subrange(frame.base + 1, frame.base + 1 + frame.used));
            }
            assert(self@ =~= old(self)@.take(i as int));
            if i > 0 {
                assert(old(self).frame_end(i - 1) == old(self).frames@[i - 1 + 1].base);
            }
            assert forall|other: ScopeTag| #[trigger]
                self.position(other) == match old(self).position(other) {
                    Some(j) => if j < i {
                        Some(j)
                    } else {
                        None
                    },
                    None => None,
                } by {
                old(self).lemma_positions_kept(*self, other);
            }
        }
    }

    /// Roots `address` in the scope, as a value that aliases no host memory.
    pub fn root(&mut self, scope: &Scope, address: usize) -> (value: Result<Value, JlrsError>)
        requires
            old(self).wf(),
            address != 0,
        ensures
            final(self).wf(),
            old(self).roots_here(*final(self), scope.tag(), address, DataTag::Owned, value),
    {
        self.root_here(scope.tag(), address, DataTag::Owned)
    }

    /// Promotes `address` into the open scope with this tag.
    ///
    /// The address goes to the slot that the scope reserved for a promoted value when it was
    /// opened, and the handle is bound to that scope: it outlives the scopes opened inside.
    /// Fails, changing nothing, with `ScopeClosed` when no scope with this tag is open, and
    /// with `CapacityExceeded` when the slot already holds a promoted value.
    pub fn root_in_ancestor(&mut self, tag: ScopeTag, address: usize, data: DataTag) -> (value:
        Result<Value, JlrsError>)
        requires
            old(self).wf(),
            address != 0,
        ensures
            final(self).wf(),
            old(self).promotes(*final(self), tag, address, data, value),
    {
        let i = match self.find(tag) {
            None => {
                return Err(JlrsError::ScopeClosed);
            },
            Some(i) => i,
        };
        let frame = self.frames[i];
        let top = self.roots.len();
        assert(self.frame_end(i as int) <= top);
        if self.roots.get(frame.base) != 0 {
            return Err(JlrsError::CapacityExceeded);
        }
        *self.roots.slot(frame.base) = address;
        proof {
            assert forall|j: int| 0 <= j < self.frames@.len() && j != i implies self.frame_view(j)
                == old(self).frame_view(j) by {
                let other = old(self).frames@[j];
                if j < i {
                    assert(old(self).frame_end(j) <= old(self).frames@[i as int].base);
                } else {
                    assert(old(self).frame_end(i as int) <= old(self).frames@[j].base);
                }
                assert(self.roots@.subrange(other.base + 1, other.base + 1 + other.used)
                    == old(self).roots@.subrange(other.base + 1, other.base + 1 + other.used));
            }
            assert(self.frame_view(i as int) =~~= old(self)@[i as int].promoted(address));
            assert(self@ =~= old(self)@.update(i as int, old(self)@[i as int].promoted(address)));
            assert forall|other: ScopeTag| #[trigger]
                self.position(other) == old(self).position(other) by {
                old(self).lemma_positions_kept(*self, other);
            }
        }
        Ok(Value::wrap(address, tag, data))
    }

    /// A handle to `address` that no root slot protects, bound to the scope with this tag.
    ///
    /// Nothing is written, so the collector may reclaim the value at the next operation that
    /// can trigger a collection. The handle is for looking at a value right away; keeping it
    /// across a call into the runtime is the caller's error, and is not detected. Fails with
    /// `ScopeClosed` when the tag names a scope that is not open: no handle is made for a
    /// scope that has been closed.
    pub fn unrooted(&self, tag: ScopeTag, address: usize, data: DataTag) -> (value: Result<
        Value,
        JlrsError,
    >)
        requires
            self.wf(),
            address != 0,
        ensures
            self.unroots(tag, address, data, value),
    {
        if !self.is_valid(tag) {
            return Err(JlrsError::ScopeClosed);
        }
        Ok(Value::wrap(address, tag, data))
    }

    /// Opens a scope inside `parent`.
    ///
    /// The child lies above its parent on the stack, so it closes before the parent can. Fails
    /// with `ScopeClosed`, changing nothing, when the parent is not open; otherwise as
    /// [`ScopeStack::open`] does.
    pub fn nest(&mut self, parent: &Scope, capacity_hint: usize) -> (scope: Result<
        Scope,
        JlrsError,
    >)
        requires
            old(self).wf(),
        ensures
            final(self).wf(),
            old(self).is_open_spec(parent.tag()) ==> old(self).opens(
                *final(self),
                capacity_hint,
                scope,
            ),
            !old(self).is_open_spec(parent.tag()) ==> {
                &&& scope == Err::<Scope, JlrsError>(JlrsError::ScopeClosed)
                &&& *final(self) == *old(self)
            },
    {
        if !self.is_open(parent.tag()) {
            return Err(JlrsError::ScopeClosed);
        }
        self.open(capacity_hint)
    }

    /// Whether the collector finds `address` in the range of the open scope with this tag.
    #[verifier::loop_isolation(false)]
    pub fn is_protected(&self, tag: ScopeTag, address: usize) -> (protected: bool)
        requires
            self.wf(),
        ensures
            protected == self.protects(tag, address),
    {
        let i = match self.find(tag) {
            None => {
                return false;
            },
            Some(i) => i,
        };
        proof {
            self.lemma_tags_ascend();
            assert forall|j: int| 0 <= j < self@.len() && self@[j].tag == tag implies j == i by {
                self.lemma_position(tag, j);
            }
        }
        let frame = self.frames[i];
        let top = self.roots.len();
        assert(self.frame_end(i as int) <= top);
        if address == 0 {
            return false;
        }
        if self.roots.get(frame.base) == address {
            assert(self@[i as int].holds(address));
            return true;
        }
        let start = frame.base + 1;
        let end = start + frame.used;
        let mut k = start;
        while k < end
            invariant
                start <= k <= end <= top,
                top == self.roots@.len(),
                forall|j: int| start <= j < k ==> self.roots@[j] != address,
            decreases end - k,
        {
            if self.roots.get(k) == address {
                proof {
                    let roots = self.roots@.subrange(start as int, end as int);
                    assert(roots[k - start] == address);
                    assert(self@[i as int].roots == roots);
                    assert(self@[i as int].holds(address));
                }
                return true;
            }
            k = k + 1;
        }
        proof {
            let roots = self.roots@.subrange(start as int, end as int);
            assert(self@[i as int].roots == roots);
            assert(!roots.contains(address)) by {
                if roots.contains(address) {
                    let j = choose|j: int| 0 <= j < roots.len() && roots[j] == address;
                    assert(self.roots@[start + j] == address);
                }
            }
        }
        false
    }

    /// The number of root slots in use by the open scopes.
    pub fn slot_count(&self) -> (n: usize)
        ensures
            n == self.slots().len(),
    {
        self.roots.len()
    }

    /// The content of root slot `i`, or `None` above the top of the root stack.
    pub fn slot_at(&self, i: usize) -> (address: Option<usize>)
        ensures
            address == if i < self.slots().len() {
                Some(self.slots()[i as int])
            } else {
                None
            },
    {
        if i < self.roots.len() {
            Some(self.roots.get(i))
        } else {
            None
        }
    }

    /// The index of the first slot of the open scope with this tag.
    pub fn base_of(&self, tag: ScopeTag) -> (base: Option<usize>)
        requires
            self.wf(),
        ensures
            base == match self.position(tag) {
                Some(i) => Some(self@[i].base as usize),
                None => None,
            },
    {
        match self.find(tag) {
            Some(i) => Some(self.frames[i].base),
            None => None,
        }
    }

    /// The number of open scopes.
    pub fn depth(&self) -> (n: usize)
        ensures
            n == self@.len(),
    {
        self.frames.len()
    }

    /// The open scopes of a well-formed stack are laid out on the root stack.
    pub proof fn lemma_layout(&self)
        requires
            self.wf(),
        ensures
            self.laid_out(),
    {
        assert forall|i: int| 0 <= i && i + 1 < self@.len() implies (#[trigger] self@[i]).end()
            == self@[i + 1].base by {
            assert(self.frame_end(i) == self.frames@[i + 1].base);
        }
        assert forall|i: int| 0 <= i < self@.len() implies {
            &&& (#[trigger] self@[i]).roots.len() <= self@[i].capacity
            &&& self@[i].end() <= self.slots().len()
            &&& self@[i].output == self.slots()[self@[i].base as int]
            &&& self@[i].roots == self.slots().subrange(
                self@[i].base as int + 1,
                self@[i].next_slot() as int,
            )
        } by {
            assert(self.frames@[i].used <= self.frames@[i].capacity);
        }
        assert forall|i: int, k: int|
            #![trigger self@[i], self.slots()[k]]
            0 <= i < self@.len() && self@[i].base < k < self@[i].end() implies (self.slots()[k]
            != 0 <==> k < self@[i].next_slot()) by {
            assert(self.frames@[i].used <= self.frames@[i].capacity);
            if k <= self.frames@[i].base + self.frames@[i].used {
                assert(self.roots@[k] != 0);
            } else {
                assert(self.roots@[k] == 0);
            }
        }
    }

    /// Tags grow from the outermost scope inwards, so no two open scopes share a tag, and
    /// every tag was given out before.
    pub proof fn lemma_tags_ascend(&self)
        requires
            self.wf(),
        ensures
            forall|i: int, j: int|
                0 <= i < j < self@.len() ==> (#[trigger] self@[i]).tag.0 < (
                #[trigger] self@[j]).tag.0,
            forall|i: int|
                0 <= i < self@.len() ==> 1 <= (#[trigger] self@[i]).tag.0 < self.next_tag(),
    {
        assert forall|i: int, j: int| 0 <= i < j < self@.len() implies (
        #[trigger] self@[i]).tag.0 < (#[trigger] self@[j]).tag.0 by {
            assert(self.frames@[i].tag < self.frames@[j].tag);
        }
        assert forall|i: int| 0 <= i < self@.len() implies 1 <= (#[trigger] self@[i]).tag.0
            < self.next_tag() by {
            assert(1 <= self.frames@[i].tag < self.next_tag);
        }
    }

    /// Where the scopes of `post` are scopes of `self` at the same positions, a tag is found
    /// in `post` where it is found in `self`, if that position is one of `post`.
    proof fn lemma_positions_kept(self, post: Self, tag: ScopeTag)
        requires
            self.wf(),
            post.wf(),
            post@.len() <= self@.len(),
            forall|i: int| 0 <= i < post@.len() ==> (#[trigger] post@[i]).tag == self@[i].tag,
        ensures
            post.position(tag) == match self.position(tag) {
                Some(j) => if j < post@.len() {
                    Some(j)
                } else {
                    None
                },
                None => None,
            },
    {
        if exists|i: int| 0 <= i < post@.len() && post@[i].tag == tag {
            let i = choose|i: int| 0 <= i < post@.len() && post@[i].tag == tag;
            assert(self@[i].tag == tag);
            self.lemma_position(tag, i);
            post.lemma_position(tag, i);
        } else {
            match self.position(tag) {
                Some(j) => {
                    if j < post@.len() {
                        assert(post@[j].tag == tag);
                    }
                },
                None => {},
            }
        }
    }

    /// The scope with a given tag is found at one position only.
    pub proof fn lemma_position(&self, tag: ScopeTag, i: int)
        requires
            self.wf(),
            0 <= i < self@.len(),
            self@[i].tag == tag,
        ensures
            self.position(tag) == Some(i),
            self.is_open_spec(tag),
    {
        self.lemma_tags_ascend();
        let j = choose|j: int| 0 <= j < self@.len() && self@[j].tag == tag;
        if j < i {
            assert(self@[j].tag.0 < self@[i].tag.0);
        } else if i < j {
            assert(self@[i].tag.0 < self@[j].tag.0);
        }
    }
}

} // verus!
