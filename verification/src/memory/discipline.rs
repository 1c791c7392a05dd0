//! What holds of the scope stack across any run of operations.

use crate::error::JlrsError;
use crate::memory::scope::{Scope, ScopeStack};
use crate::memory::tag::{DataTag, ScopeTag};
use crate::memory::target::Target;
use crate::wrappers::ptr::value::Value;
use vstd::prelude::*;

verus! {

/// One operation on the scope stack took `pre` to `post`.
pub open spec fn step(pre: ScopeStack, post: ScopeStack) -> bool {
    &&& pre.wf()
    &&& post.wf()
    &&& {
        ||| exists|capacity: usize, scope: Result<Scope, JlrsError>|
            pre.opens(post, capacity, scope)
        ||| exists|scope: Scope, rejected: Result<(), Scope>| pre.closes(post, scope, rejected)
        ||| exists|scope: Scope| pre.unwinds(post, scope)
        ||| exists|tag: ScopeTag, address: usize, data: DataTag, value: Result<Value, JlrsError>|
            address != 0 && pre.roots_here(post, tag, address, data, value)
        ||| exists|tag: ScopeTag, address: usize, data: DataTag, value: Result<Value, JlrsError>|
            address != 0 && pre.promotes(post, tag, address, data, value)
    }
}

/// A run: each state follows from the one before by one operation.
pub open spec fn run(states: Seq<ScopeStack>) -> bool {
    &&& states.len() > 0
    &&& states[0].wf()
    &&& forall|k: int| 0 <= k && k + 1 < states.len() ==> step(states[k], #[trigger] states[k + 1])
}

/// The tags of the open scopes, outermost first.
pub open spec fn open_tags(stack: ScopeStack) -> Seq<ScopeTag> {
    Seq::new(stack@.len(), |i: int| stack@[i].tag)
}

/// At any one point the tags that handles may carry are exactly the tags of the open scopes,
/// and the permanent tag. A handle is usable when it carries one of them.
pub proof fn lemma_valid_tags(stack: ScopeStack, value: Value)
    ensures
        stack.is_open_spec(value.scope()) <==> open_tags(stack).contains(value.scope()),
        stack.is_valid_spec(value.scope()) <==> value.scope().is_permanent() || open_tags(
            stack,
        ).contains(value.scope()),
        stack.is_live_spec(value) <==> stack.is_valid_spec(value.scope()),
{
    let tags = open_tags(stack);
    if stack.is_open_spec(value.scope()) {
        let i = choose|i: int| 0 <= i < stack@.len() && stack@[i].tag == value.scope();
        assert(tags[i] == value.scope());
    }
    if tags.contains(value.scope()) {
        let i = choose|i: int| 0 <= i < tags.len() && tags[i] == value.scope();
        assert(stack@[i].tag == value.scope());
    }
}

/// The open scopes change at the innermost end only. An operation opens one scope under the
/// next tag, or it closes some of the innermost scopes and leaves the others, in their order.
pub proof fn lemma_step_open_tags(pre: ScopeStack, post: ScopeStack)
    requires
        step(pre, post),
    ensures
        ({
            ||| open_tags(post) == open_tags(pre).push(ScopeTag(pre.next_tag() as u64))
            ||| exists|n: int|
                0 <= n <= open_tags(pre).len() && open_tags(post) == #[trigger] open_tags(
                    pre,
                ).take(n)
        }),
{
    let tags = open_tags(pre);
    let depth = tags.len() as int;
    if exists|capacity: usize, scope: Result<Scope, JlrsError>| pre.opens(post, capacity, scope) {
        let (capacity, scope) = choose|capacity: usize, scope: Result<Scope, JlrsError>|
            pre.opens(post, capacity, scope);
        if pre.can_open(capacity) {
            assert(open_tags(post) =~= tags.push(ScopeTag(pre.next_tag() as u64)));
        } else {
            assert(open_tags(post) =~= tags.take(depth));
        }
    } else if exists|scope: Scope, rejected: Result<(), Scope>|
        pre.closes(post, scope, rejected) {
        let (scope, rejected) = choose|scope: Scope, rejected: Result<(), Scope>|
            pre.closes(post, scope, rejected);
        if pre.is_innermost(scope.tag()) {
            assert(open_tags(post) =~= tags.take(depth - 1));
        } else {
            assert(open_tags(post) =~= tags.take(depth));
        }
    } else if exists|scope: Scope| pre.unwinds(post, scope) {
        let scope = choose|scope: Scope| pre.unwinds(post, scope);
        match pre.position(scope.tag()) {
            Some(i) => {
                assert(open_tags(post) =~= tags.take(i));
            },
            None => {
                assert(open_tags(post) =~= tags.take(depth));
            },
        }
    } else {
        assert(open_tags(post) =~= tags.take(depth));
    }
}

/// An operation opens at most the scope with the next tag, and never gives a tag out again:
/// a scope that is open afterwards was open before or is the one just opened.
pub proof fn lemma_step_tags(pre: ScopeStack, post: ScopeStack, tag: ScopeTag)
    requires
        step(pre, post),
        post.is_open_spec(tag),
    ensures
        pre.is_open_spec(tag) || (tag.0 == pre.next_tag() && post.next_tag() == pre.next_tag()
            + 1),
        pre.next_tag() <= post.next_tag(),
{
    lemma_step_next_tag(pre, post);
    let i = choose|i: int| 0 <= i < post@.len() && post@[i].tag == tag;
    if exists|capacity: usize, scope: Result<Scope, JlrsError>| pre.opens(post, capacity, scope) {
        let (capacity, scope) = choose|capacity: usize, scope: Result<Scope, JlrsError>|
            pre.opens(post, capacity, scope);
        if pre.can_open(capacity) && i < pre@.len() {
            assert(pre@[i].tag == tag);
        }
    } else if exists|scope: Scope, rejected: Result<(), Scope>|
        pre.closes(post, scope, rejected) {
        let (scope, rejected) = choose|scope: Scope, rejected: Result<(), Scope>|
            pre.closes(post, scope, rejected);
        assert(pre@[i].tag == tag);
    } else if exists|scope: Scope| pre.unwinds(post, scope) {
        let scope = choose|scope: Scope| pre.unwinds(post, scope);
        assert(pre@[i].tag == tag);
    } else {
        assert(pre@[i].tag == tag);
    }
}

/// No operation lowers the number of the next tag.
pub proof fn lemma_step_next_tag(pre: ScopeStack, post: ScopeStack)
    requires
        step(pre, post),
    ensures
        pre.next_tag() <= post.next_tag(),
{
}

/// Along a run the number of the next tag never falls.
pub proof fn lemma_run_next_tag(states: Seq<ScopeStack>, i: int, j: int)
    requires
        run(states),
        0 <= i <= j < states.len(),
    ensures
        states[i].next_tag() <= states[j].next_tag(),
    decreases j - i,
{
    if i < j {
        lemma_run_next_tag(states, i, j - 1);
        assert(step(states[j - 1], states[j - 1 + 1]));
        lemma_step_next_tag(states[j - 1], states[j]);
    }
}

/// A scope that has been closed is never open again, whatever operations follow. So a handle
/// that has outlived its scope never becomes usable again.
pub proof fn lemma_closed_stays_closed(states: Seq<ScopeStack>, i: int, j: int, tag: ScopeTag)
    requires
        run(states),
        0 <= i <= j < states.len(),
        tag.0 < states[i].next_tag(),
        !states[i].is_open_spec(tag),
    ensures
        !states[j].is_open_spec(tag),
    decreases j - i,
{
    if i < j {
        lemma_closed_stays_closed(states, i, j - 1, tag);
        lemma_run_next_tag(states, i, j - 1);
        assert(step(states[j - 1], states[j - 1 + 1]));
        if states[j].is_open_spec(tag) {
            lemma_step_tags(states[j - 1], states[j], tag);
        }
    }
}

/// At every point of a run the open scopes stand in the order in which they were opened,
/// each under a tag of its own that was given out before.
pub proof fn lemma_open_order(states: Seq<ScopeStack>, k: int)
    requires
        run(states),
        0 <= k < states.len(),
    ensures
        states[k].wf(),
        forall|i: int, j: int|
            0 <= i < j < states[k]@.len() ==> (#[trigger] states[k]@[i]).tag.0 < (
            #[trigger] states[k]@[j]).tag.0,
        forall|i: int|
            0 <= i < states[k]@.len() ==> 1 <= (#[trigger] states[k]@[i]).tag.0
                < states[k].next_tag(),
{
    if k > 0 {
        assert(step(states[k - 1], states[k - 1 + 1]));
    }
    states[k].lemma_tags_ascend();
}

/// Scopes close innermost first: while a scope opened inside another is open the outer one
/// cannot be closed, and closing the inner scope gives back the stack as it was before the
/// inner scope was opened.
pub proof fn lemma_inner_closes_first(
    pre: ScopeStack,
    mid: ScopeStack,
    capacity: usize,
    inner: Scope,
    outer: Scope,
    post: ScopeStack,
    rejected: Result<(), Scope>,
)
    requires
        pre.wf(),
        mid.wf(),
        pre.is_open_spec(outer.tag()),
        pre.opens(mid, capacity, Ok(inner)),
    ensures
        mid.closes(post, outer, rejected) ==> rejected == Err::<(), Scope>(outer) && post == mid,
        mid.closes(post, inner, rejected) ==> rejected is Ok && post@ == pre@ && post.slots()
            == pre.slots() && post.next_tag() == pre.next_tag() + 1,
{
    pre.lemma_tags_ascend();
    let i = choose|i: int| 0 <= i < pre@.len() && pre@[i].tag == outer.tag();
    assert(pre@[i].tag.0 < pre.next_tag());
    assert(mid@.last() == pre.fresh_scope(capacity));
    assert(mid@.drop_last() =~= pre@);
    assert(mid.slots().take(pre.slots().len() as int) =~= pre.slots());
}

/// An address that the collector finds in the range of a scope is still found there after
/// any operation that leaves the scope open.
pub proof fn lemma_step_keeps_roots(
    pre: ScopeStack,
    post: ScopeStack,
    tag: ScopeTag,
    address: usize,
)
    requires
        step(pre, post),
        pre.protects(tag, address),
        post.is_open_spec(tag),
    ensures
        post.protects(tag, address),
{
    pre.lemma_tags_ascend();
    post.lemma_tags_ascend();
    let i = choose|i: int| 0 <= i < pre@.len() && pre@[i].tag == tag && pre@[i].holds(address);
    pre.lemma_position(tag, i);
    if exists|capacity: usize, scope: Result<Scope, JlrsError>| pre.opens(post, capacity, scope) {
        let (capacity, scope) = choose|capacity: usize, scope: Result<Scope, JlrsError>|
            pre.opens(post, capacity, scope);
        assert(post@[i] == pre@[i]);
    } else if exists|scope: Scope, rejected: Result<(), Scope>|
        pre.closes(post, scope, rejected) {
        let (scope, rejected) = choose|scope: Scope, rejected: Result<(), Scope>|
            pre.closes(post, scope, rejected);
        if pre.is_innermost(scope.tag()) {
            let j = choose|j: int| 0 <= j < post@.len() && post@[j].tag == tag;
            assert(pre@[j].tag == tag);
            pre.lemma_position(tag, j);
        }
        assert(post@[i] == pre@[i]);
    } else if exists|scope: Scope| pre.unwinds(post, scope) {
        let scope = choose|scope: Scope| pre.unwinds(post, scope);
        let j = choose|j: int| 0 <= j < post@.len() && post@[j].tag == tag;
        assert(pre@[j].tag == tag);
        pre.lemma_position(tag, j);
        assert(post@[i] == pre@[i]);
    } else if exists|t: ScopeTag, a: usize, data: DataTag, value: Result<Value, JlrsError>|
        a != 0 && pre.roots_here(post, t, a, data, value) {
        let (t, a, data, value) = choose|
            t: ScopeTag,
            a: usize,
            data: DataTag,
            value: Result<Value, JlrsError>,
        | a != 0 && pre.roots_here(post, t, a, data, value);
        match pre.position(t) {
            Some(p) => {
                if pre.has_room(p) && p == i {
                    if pre@[i].roots.contains(address) {
                        let r = choose|r: int|
                            0 <= r < pre@[i].roots.len() && pre@[i].roots[r] == address;
                        assert(post@[i].roots[r] == address);
                    }
                    assert(post@[i].holds(address));
                } else {
                    assert(post@[i] == pre@[i]);
                }
            },
            None => {},
        }
    } else {
        let (t, a, data, value) = choose|
            t: ScopeTag,
            a: usize,
            data: DataTag,
            value: Result<Value, JlrsError>,
        | a != 0 && pre.promotes(post, t, a, data, value);
        match pre.position(t) {
            Some(p) => {
                if pre@[p].output == 0 && p == i {
                    assert(post@[i].roots == pre@[i].roots);
                    assert(post@[i].holds(address));
                } else {
                    assert(post@[i] == pre@[i]);
                }
            },
            None => {},
        }
    }
    assert(post@[i].tag == tag && post@[i].holds(address));
}

/// Once an address is rooted in a scope, the collector finds it at every later point of a
/// run at which the scope is open.
pub proof fn lemma_rooted_while_open(
    states: Seq<ScopeStack>,
    i: int,
    j: int,
    tag: ScopeTag,
    address: usize,
)
    requires
        run(states),
        0 <= i <= j < states.len(),
        states[i].protects(tag, address),
        states[j].is_open_spec(tag),
    ensures
        states[j].protects(tag, address),
    decreases j - i,
{
    if i < j {
        assert(step(states[j - 1], states[j - 1 + 1]));
        lemma_open_order(states, i);
        if !states[j - 1].is_open_spec(tag) {
            lemma_run_next_tag(states, i, j - 1);
            let p = choose|p: int|
                0 <= p < states[i]@.len() && states[i]@[p].tag == tag && states[i]@[p].holds(
                    address,
                );
            assert(states[i]@[p].tag.0 < states[i].next_tag());
            lemma_closed_stays_closed(states, j - 1, j, tag);
        }
        lemma_rooted_while_open(states, i, j - 1, tag, address);
        lemma_step_keeps_roots(states[j - 1], states[j], tag, address);
    }
}

/// An address that has just been rooted or promoted into a scope is found by the collector
/// in that scope's range.
pub proof fn lemma_placed_is_protected(
    pre: ScopeStack,
    post: ScopeStack,
    tag: ScopeTag,
    address: usize,
    data: DataTag,
    value: Result<Value, JlrsError>,
)
    requires
        pre.wf(),
        address != 0,
        pre.roots_here(post, tag, address, data, value) || pre.promotes(
            post,
            tag,
            address,
            data,
            value,
        ),
        value is Ok,
    ensures
        post.protects(tag, address),
        value->Ok_0.address() == address,
        value->Ok_0.scope() == tag,
        post.is_live_spec(value->Ok_0),
{
    let i = pre.position(tag)->Some_0;
    if pre.roots_here(post, tag, address, data, value) {
        assert(post@[i].roots.last() == address);
    }
    assert(post@[i].tag == tag && post@[i].holds(address));
}

/// No handle is made for a closed scope: whatever a target has placed, the scope that bounds
/// the resulting handle is open.
pub proof fn lemma_placed_is_live(
    target: Target,
    pre: ScopeStack,
    post: ScopeStack,
    address: usize,
    data: DataTag,
    value: Result<Value, JlrsError>,
)
    requires
        pre.wf(),
        address != 0,
        target.places(pre, post, address, data, value),
        value is Ok,
    ensures
        value->Ok_0.denotes(address, target.scope(), data),
        post.is_live_spec(value->Ok_0),
{
    match target {
        Target::Local(tag) => {
            lemma_placed_is_protected(pre, post, tag, address, data, value);
        },
        Target::Ancestor(tag) => {
            lemma_placed_is_protected(pre, post, tag, address, data, value);
        },
        Target::Unrooted(tag) => {},
    }
}

/// Slots are reused clean: a scope opened right after the innermost scope was closed starts
/// at the slot where the closed scope started, and every slot of its range is zero.
pub proof fn lemma_reopened_range_is_zero(
    pre: ScopeStack,
    mid: ScopeStack,
    post: ScopeStack,
    closed: Scope,
    capacity: usize,
    opened: Scope,
)
    requires
        pre.wf(),
        pre.closes(mid, closed, Ok(())),
        mid.opens(post, capacity, Ok(opened)),
    ensures
        post@.last().base == pre@.last().base,
        post@.last().output == 0,
        post@.last().roots == Seq::<usize>::empty(),
        forall|k: int| post@.last().base <= k < post@.last().end() ==> post.slots()[k] == 0,
{
    pre.lemma_layout();
    assert(mid.can_open(capacity));
}

} // verus!
