//! Calling functions of the foreign runtime.
//!
//! A call is made in three steps. The library marshals the function and its arguments into a
//! [`PendingCall`]; the embedding program hands the marshaled addresses to the entry point of
//! the runtime that the call names, and reads the runtime's pending exception right after; and
//! [`PendingCall::complete`] turns what came back into a result that is placed through the
//! call's target.

pub mod buffer;
pub mod checked;
pub mod schedule;

use crate::call::buffer::{
    buffer_as_slice, buffer_push, buffer_with_capacity, ArgBuffer, MAX_LENGTH,
};
use crate::call::checked::{conflict, conflicting, lend, lent, values, Argument};
use crate::error::{JlrsError, JlrsResult};
use crate::memory::discipline::{
    lemma_placed_is_protected, lemma_step_keeps_roots, open_tags, step,
};
use crate::memory::ledger::Ledger;
use crate::memory::scope::ScopeStack;
use crate::memory::tag::{DataTag, ScopeTag};
use crate::memory::target::Target;
use crate::wrappers::ptr::value::Value;
use vstd::prelude::*;

verus! {

/// The outcome of a call: the value returned, or the exception raised.
///
/// An exception is no host error. It is a value like any other, placed through the target of
/// the call, and the caller decides what to make of it.
pub type CallResult = Result<Value, Value>;

/// The entry point of the foreign runtime that a call goes through.
#[derive(Clone, Copy, Debug, PartialEq, Eq, Structural)]
pub enum EntryPoint {
    /// Takes the function alone.
    Call0,
    /// Takes the function and one argument.
    Call1,
    /// Takes the function and two arguments.
    Call2,
    /// Takes the function and three arguments.
    Call3,
    /// Takes the function, and the arguments as an array of addresses with its length.
    CallN,
    /// Takes the keyword sorter of the function, and as an array of addresses the keyword
    /// bundle, the function and the arguments.
    Keywords,
    /// Applies type parameters: takes a type, and the parameters as an array of addresses
    /// with its length. Raises no exception.
    ApplyType,
    /// Evaluates a command given as text. Takes no addresses.
    EvalString,
}

/// A function and its keyword arguments.
#[derive(Clone, Copy, Debug)]
pub struct WithKeywords {
    func: Value,
    keywords: Value,
}

impl WithKeywords {
    /// The function.
    pub closed spec fn function_spec(&self) -> Value {
        self.func
    }

    /// The keyword bundle.
    pub closed spec fn keywords_spec(&self) -> Value {
        self.keywords
    }

    /// Pairs a function with a keyword bundle.
    pub fn new(func: Value, keywords: Value) -> (with_keywords: WithKeywords)
        ensures
            with_keywords.function_spec() == func,
            with_keywords.keywords_spec() == keywords,
    {
        WithKeywords { func, keywords }
    }

    /// Returns the function.
    #[verifier::when_used_as_spec(function_spec)]
    pub fn function(&self) -> (func: Value)
        ensures
            func == self.function_spec(),
    {
        self.func
    }

    /// Returns the keywords.
    #[verifier::when_used_as_spec(keywords_spec)]
    pub fn keywords(&self) -> (keywords: Value)
        ensures
            keywords == self.keywords_spec(),
    {
        self.keywords
    }
}

/// The addresses of the handles, in order.
pub open spec fn addresses(values: Seq<Value>) -> Seq<usize> {
    Seq::new(values.len(), |i: int| values[i].address())
}

/// The data tag of a value that may alias whatever a value tagged `tag` or any of `values`
/// may alias.
pub open spec fn joined(tag: DataTag, values: Seq<Value>) -> DataTag
    decreases values.len(),
{
    if values.len() == 0 {
        tag
    } else {
        joined(tag, values.drop_last()).join(values.last().data())
    }
}

/// Whether the scope of every one of the handles is open.
pub open spec fn all_live(stack: ScopeStack, values: Seq<Value>) -> bool {
    forall|i: int| 0 <= i < values.len() ==> stack.is_live_spec(#[trigger] values[i])
}

/// Whether the function, its keyword bundle and its arguments may be used: the scope of each
/// is open.
pub open spec fn usable(
    stack: ScopeStack,
    callee: Value,
    keywords: Option<Value>,
    args: Seq<Value>,
) -> bool {
    &&& stack.wf()
    &&& stack.is_live_spec(callee)
    &&& keywords matches Some(bundle) ==> stack.is_live_spec(bundle)
    &&& all_live(stack, args)
}

/// What a marshaled call holds.
pub ghost struct CallView {
    /// The entry point to go through.
    pub entry: EntryPoint,
    /// The address of the function to call.
    pub function: usize,
    /// The addresses handed to the entry point, in order.
    pub arguments: Seq<usize>,
    /// Where the result goes.
    pub target: Target,
    /// The data tag of the result.
    pub data: DataTag,
}

/// The entry point for a call of `arity` arguments that are passed one by one.
pub open spec fn fixed_entry(arity: nat) -> EntryPoint {
    if arity == 0 {
        EntryPoint::Call0
    } else if arity == 1 {
        EntryPoint::Call1
    } else if arity == 2 {
        EntryPoint::Call2
    } else {
        EntryPoint::Call3
    }
}

/// The call of `callee` with `args`, marshaled.
///
/// Without keywords the arguments are marshaled as they stand, and go through the entry point
/// for their number when they are `fixed`, at most three and passed one by one. With keywords
/// the bundle and the function come first, ahead of the arguments. The result may alias
/// whatever the function, the bundle or an argument may alias.
pub open spec fn marshaled(
    callee: Value,
    keywords: Option<Value>,
    args: Seq<Value>,
    fixed: bool,
    target: Target,
) -> CallView {
    match keywords {
        Some(bundle) => CallView {
            entry: EntryPoint::Keywords,
            function: callee.address(),
            arguments: seq![bundle.address(), callee.address()] + addresses(args),
            target,
            data: joined(callee.data().join(bundle.data()), args),
        },
        None => CallView {
            entry: if fixed {
                fixed_entry(args.len())
            } else {
                EntryPoint::CallN
            },
            function: callee.address(),
            arguments: addresses(args),
            target,
            data: joined(callee.data(), args),
        },
    }
}

/// A call that has been marshaled and waits for the runtime to make it.
#[derive(Debug)]
pub struct PendingCall {
    entry: EntryPoint,
    function: usize,
    arguments: ArgBuffer,
    target: Target,
    data: DataTag,
}

impl View for PendingCall {
    type V = CallView;

    closed spec fn view(&self) -> CallView {
        CallView {
            entry: self.entry,
            function: self.function,
            arguments: self.arguments@,
            target: self.target,
            data: self.data,
        }
    }
}

impl PendingCall {
    /// A call through `entry` of the function at `function` with these marshaled arguments.
    pub(crate) fn new(
        entry: EntryPoint,
        function: usize,
        arguments: ArgBuffer,
        target: Target,
        data: DataTag,
    ) -> (pending: PendingCall)
        ensures
            pending@ == (CallView { entry, function, arguments: arguments@, target, data }),
    {
        PendingCall { entry, function, arguments, target, data }
    }

    /// The handle that a result of a call stands for, or the host error.
    pub open spec fn placed(result: JlrsResult<CallResult>) -> Result<Value, JlrsError> {
        match result {
            Ok(Ok(value)) => Ok(value),
            Ok(Err(exception)) => Ok(exception),
            Err(error) => Err(error),
        }
    }

    /// Completing the call `view` with what the runtime returned and the exception it holds
    /// takes the scope stack from `pre` to `post` and gives `result`.
    ///
    /// A null `exception` says that none is pending. Then the returned address is placed
    /// through the target and the result is a success. Otherwise the address of the exception
    /// is placed, and the result is a failure that holds the exception.
    pub open spec fn completes(
        view: CallView,
        pre: ScopeStack,
        post: ScopeStack,
        returned: usize,
        exception: usize,
        result: JlrsResult<CallResult>,
    ) -> bool {
        &&& result is Ok ==> (result->Ok_0 is Err <==> exception != 0)
        &&& view.target.places(
            pre,
            post,
            if exception != 0 {
                exception
            } else {
                returned
            },
            view.data,
            Self::placed(result),
        )
    }

    /// The entry point to go through.
    pub fn entry(&self) -> (entry: EntryPoint)
        ensures
            entry == self@.entry,
    {
        self.entry
    }

    /// The address of the function to call.
    pub fn function(&self) -> (function: usize)
        ensures
            function == self@.function,
    {
        self.function
    }

    /// The addresses to hand to the entry point, in order.
    pub fn arguments(&self) -> (arguments: &[usize])
        ensures
            arguments@ == self@.arguments,
    {
        buffer_as_slice(&self.arguments)
    }

    /// Turns what the runtime gave back into the result of the call.
    ///
    /// `returned` is the address that the entry point returned, and `exception` the content of
    /// the runtime's pending exception read right after the call, before anything else is
    /// asked of the runtime. One of them is not null.
    pub fn complete(self, stack: &mut ScopeStack, returned: usize, exception: usize) -> (result:
        JlrsResult<CallResult>)
        requires
            old(stack).wf(),
            returned != 0 || exception != 0,
        ensures
            final(stack).wf(),
            Self::completes(self@, *old(stack), *final(stack), returned, exception, result),
    {
        if exception == 0 {
            match self.target.place(stack, returned, self.data) {
                Ok(value) => Ok(Ok(value)),
                Err(error) => Err(error),
            }
        } else {
            match self.target.place(stack, exception, self.data) {
                Ok(value) => Ok(Err(value)),
                Err(error) => Err(error),
            }
        }
    }
}

/// A call gives back either the value returned or the exception raised, never both: with a
/// pending exception the result is a failure whose handle holds the address of the exception,
/// and without one it is a success whose handle holds the address returned. A call through a
/// rooting target leaves that address where the collector finds it.
pub proof fn lemma_returned_or_raised(
    view: CallView,
    pre: ScopeStack,
    post: ScopeStack,
    returned: usize,
    exception: usize,
    result: JlrsResult<CallResult>,
)
    requires
        pre.wf(),
        returned != 0 || exception != 0,
        result is Ok,
        PendingCall::completes(view, pre, post, returned, exception, result),
    ensures
        exception != 0 ==> result->Ok_0 is Err && result->Ok_0->Err_0.address() == exception,
        exception == 0 ==> result->Ok_0 is Ok && result->Ok_0->Ok_0.address() == returned,
        PendingCall::placed(result)->Ok_0.scope() == view.target.scope(),
        PendingCall::placed(result)->Ok_0.data() == view.data,
        !(view.target is Unrooted) ==> post.protects(
            view.target.scope(),
            PendingCall::placed(result)->Ok_0.address(),
        ),
{
    let address = if exception != 0 {
        exception
    } else {
        returned
    };
    match view.target {
        Target::Local(tag) => {
            lemma_placed_is_protected(
                pre,
                post,
                tag,
                address,
                view.data,
                PendingCall::placed(result),
            );
        },
        Target::Ancestor(tag) => {
            lemma_placed_is_protected(
                pre,
                post,
                tag,
                address,
                view.data,
                PendingCall::placed(result),
            );
        },
        Target::Unrooted(tag) => {},
    }
}

/// Completing a call opens and closes no scope, and every address that the collector found in
/// the range of a scope before is found there after.
pub proof fn lemma_call_keeps_roots(
    view: CallView,
    pre: ScopeStack,
    post: ScopeStack,
    returned: usize,
    exception: usize,
    result: JlrsResult<CallResult>,
    tag: ScopeTag,
    address: usize,
)
    requires
        pre.wf(),
        post.wf(),
        returned != 0 || exception != 0,
        PendingCall::completes(view, pre, post, returned, exception, result),
        pre.protects(tag, address),
    ensures
        post.protects(tag, address),
        open_tags(post) == open_tags(pre),
{
    let placed = if exception != 0 {
        exception
    } else {
        returned
    };
    let value = PendingCall::placed(result);
    match view.target {
        Target::Local(scope) => {
            assert(pre.roots_here(post, scope, placed, view.data, value));
            assert(step(pre, post));
        },
        Target::Ancestor(scope) => {
            assert(pre.promotes(post, scope, placed, view.data, value));
            assert(step(pre, post));
        },
        Target::Unrooted(scope) => {},
    }
    if post != pre {
        assert(open_tags(post) =~= open_tags(pre));
        let i = choose|i: int|
            0 <= i < pre@.len() && pre@[i].tag == tag && pre@[i].holds(address);
        assert(open_tags(post)[i] == tag);
        assert(post@[i].tag == tag);
        lemma_step_keeps_roots(pre, post, tag, address);
    }
}

/// Whether the scope of every one of the handles is open.
pub fn are_live(stack: &ScopeStack, handles: &[Value]) -> (live: bool)
    requires
        stack.wf(),
    ensures
        live == all_live(*stack, handles@),
{
    let mut i: usize = 0;
    while i < handles.len()
        invariant
            stack.wf(),
            i <= handles@.len(),
            forall|j: int| 0 <= j < i ==> stack.is_live_spec(#[trigger] handles@[j]),
        decreases handles@.len() - i,
    {
        if !stack.is_live(handles[i]) {
            return false;
        }
        i = i + 1;
    }
    true
}

/// Whether `callable` may be called with `args`: the scope of the function, of its keyword
/// bundle and of every argument is open.
pub fn is_usable<C: Call>(callable: &C, stack: &ScopeStack, args: &[Value]) -> (ready: bool)
    requires
        stack.wf(),
    ensures
        ready == usable(*stack, callable.callee(), callable.bundle(), args@),
{
    let (callee, bundle) = callable.parts();
    if !stack.is_live(callee) {
        return false;
    }
    match bundle {
        Some(keywords) => {
            if !stack.is_live(keywords) {
                return false;
            }
        },
        None => {},
    }
    are_live(stack, args)
}

/// Joining the tags of a sequence of values extended by one joins the tag of the last value
/// to the join of those before it.
pub proof fn lemma_joined_push(tag: DataTag, values: Seq<Value>, value: Value)
    ensures
        joined(tag, values.push(value)) == joined(tag, values).join(value.data()),
{
    assert(values.push(value).drop_last() =~= values);
}

/// Joining the tags of values to a tag can start with the first value.
pub proof fn lemma_joined_first(tag: DataTag, first: Value, rest: Seq<Value>)
    ensures
        joined(tag, seq![first] + rest) == joined(tag.join(first.data()), rest),
    decreases rest.len(),
{
    let all = seq![first] + rest;
    if rest.len() == 0 {
        assert(all.drop_last() =~= Seq::<Value>::empty());
        assert(joined(tag, all.drop_last()) == tag);
        assert(all.last() == first);
    } else {
        assert(all.drop_last() =~= seq![first] + rest.drop_last());
        assert(all.last() == rest.last());
        lemma_joined_first(tag, first, rest.drop_last());
    }
}

/// Appends the addresses of `args` to the buffer and joins their tags to `data`.
pub(crate) fn append(buffer: &mut ArgBuffer, data: DataTag, args: &[Value]) -> (all: DataTag)
    requires
        old(buffer)@.len() + args@.len() <= MAX_LENGTH,
    ensures
        final(buffer)@ == old(buffer)@ + addresses(args@),
        all == joined(data, args@),
{
    let mut all = data;
    let mut i: usize = 0;
    while i < args.len()
        invariant
            i <= args@.len(),
            old(buffer)@.len() + args@.len() <= MAX_LENGTH,
            buffer@ == old(buffer)@ + addresses(args@.take(i as int)),
            all == joined(data, args@.take(i as int)),
        decreases args@.len() - i,
    {
        let arg = args[i];
        proof {
            lemma_joined_push(data, args@.take(i as int), arg);
            assert(args@.take(i as int).push(arg) =~= args@.take(i + 1));
            assert(addresses(args@.take(i as int)).push(arg.address()) =~= addresses(
                args@.take(i + 1),
            ));
        }
        buffer_push(buffer, arg.address());
        all = all.merge(arg.data());
        i = i + 1;
    }
    proof {
        assert(args@.take(i as int) =~= args@);
    }
    all
}

/// Seals [`Call`]: only the callable types of this library implement it.
pub trait CallPriv: Sized {

}

impl CallPriv for WithKeywords {

}

impl CallPriv for Value {

}

/// Call the implementor as a function of the foreign runtime.
///
/// Two types implement this trait: [`Value`], and [`WithKeywords`] for a call with keyword
/// arguments. Each method marshals a call; see [`PendingCall`] for how it is made.
pub trait Call: CallPriv {
    /// The function that is called.
    spec fn callee(&self) -> Value;

    /// The keyword bundle that is passed, if any.
    spec fn bundle(&self) -> Option<Value>;

    /// The function that is called, and the keyword bundle that is passed, if any.
    fn parts(&self) -> (parts: (Value, Option<Value>))
        ensures
            parts.0 == self.callee(),
            parts.1 == self.bundle(),
    ;

    /// Call a function with no arguments.
    fn call0(self, stack: &ScopeStack, target: Target) -> (pending: PendingCall)
        requires
            usable(*stack, self.callee(), self.bundle(), Seq::empty()),
        ensures
            pending@ == marshaled(self.callee(), self.bundle(), Seq::empty(), true, target),
    ;

    /// Call a function with one argument.
    ///
    /// This method doesn't check if the argument is an array whose data is currently borrowed.
    fn call1(self, stack: &ScopeStack, target: Target, arg0: Value) -> (pending: PendingCall)
        requires
            usable(*stack, self.callee(), self.bundle(), seq![arg0]),
        ensures
            pending@ == marshaled(self.callee(), self.bundle(), seq![arg0], true, target),
    ;

    /// Call a function with two arguments.
    ///
    /// This method doesn't check if any of the arguments is an array whose data is currently
    /// borrowed.
    fn call2(self, stack: &ScopeStack, target: Target, arg0: Value, arg1: Value) -> (pending:
        PendingCall)
        requires
            usable(*stack, self.callee(), self.bundle(), seq![arg0, arg1]),
        ensures
            pending@ == marshaled(self.callee(), self.bundle(), seq![arg0, arg1], true, target),
    ;

    /// Call a function with three arguments.
    ///
    /// This method doesn't check if any of the arguments is an array whose data is currently
    /// borrowed.
    fn call3(
        self,
        stack: &ScopeStack,
        target: Target,
        arg0: Value,
        arg1: Value,
        arg2: Value,
    ) -> (pending: PendingCall)
        requires
            usable(*stack, self.callee(), self.bundle(), seq![arg0, arg1, arg2]),
        ensures
            pending@ == marshaled(
                self.callee(),
                self.bundle(),
                seq![arg0, arg1, arg2],
                true,
                target,
            ),
    ;

    /// Call a function with an arbitrary number arguments.
    ///
    /// This method doesn't check if any of the arguments is an array whose data is currently
    /// borrowed.
    fn call(self, stack: &ScopeStack, target: Target, args: &[Value]) -> (pending: PendingCall)
        requires
            usable(*stack, self.callee(), self.bundle(), args@),
            args@.len() + 2 <= MAX_LENGTH,
        ensures
            pending@ == marshaled(self.callee(), self.bundle(), args@, false, target),
    ;

    /// Call a function with an arbitrary number arguments.
    ///
    /// Unlike the other methods of this trait, this method checks if any of the arguments is
    /// an array whose data is currently borrowed. If one is exclusively borrowed, the call
    /// fails with `BorrowConflict`: no call is marshaled and the ledger stays as it is.
    /// Otherwise every array among the arguments gets one more shared borrow, for the runtime
    /// that now reads it, and the call is marshaled.
    fn call_tracked(
        self,
        stack: &ScopeStack,
        ledger: &mut Ledger,
        target: Target,
        args: &[Argument],
    ) -> (pending: Result<PendingCall, JlrsError>)
        requires
            usable(*stack, self.callee(), self.bundle(), values(args@)),
            old(ledger).wf(),
            args@.len() + 2 <= MAX_LENGTH,
        ensures
            final(ledger).wf(),
            conflict(old(ledger)@, args@) ==> {
                &&& pending is Err
                &&& pending->Err_0 == JlrsError::BorrowConflict
                &&& final(ledger)@ == old(ledger)@
            },
            !conflict(old(ledger)@, args@) ==> {
                &&& pending is Ok
                &&& pending->Ok_0@ == marshaled(
                    self.callee(),
                    self.bundle(),
                    values(args@),
                    false,
                    target,
                )
                &&& final(ledger)@ == lent(old(ledger)@, args@)
            },
    {
        if conflicting(ledger, args) {
            return Err(JlrsError::BorrowConflict);
        }
        let handles = lend(ledger, args);
        Ok(self.call(stack, target, handles.as_slice()))
    }
}

/// Provide keyword arguments to a function of the foreign runtime.
pub trait ProvideKeywords: Call {
    /// Provide keyword arguments to the function. The keyword arguments must be a named
    /// tuple: `is_named_tuple` says whether the runtime found `keywords` to be one.
    fn provide_keywords(self, keywords: Value, is_named_tuple: bool) -> (with_keywords:
        JlrsResult<WithKeywords>)
        ensures
            is_named_tuple ==> {
                &&& with_keywords is Ok
                &&& with_keywords->Ok_0.function() == self.callee()
                &&& with_keywords->Ok_0.keywords() == keywords
            },
            !is_named_tuple ==> {
                &&& with_keywords is Err
                &&& with_keywords->Err_0 == JlrsError::NotANamedTuple
            },
    ;
}

impl Call for Value {
    open spec fn callee(&self) -> Value {
        *self
    }

    open spec fn bundle(&self) -> Option<Value> {
        None
    }

    fn parts(&self) -> (parts: (Value, Option<Value>)) {
        (*self, None)
    }

    fn call0(self, stack: &ScopeStack, target: Target) -> (pending: PendingCall) {
        let arguments = buffer_with_capacity(0);
        proof {
            assert(arguments@ =~= addresses(Seq::<Value>::empty()));
        }
        PendingCall {
            entry: EntryPoint::Call0,
            function: self.address(),
            arguments,
            target,
            data: self.data(),
        }
    }

    fn call1(self, stack: &ScopeStack, target: Target, arg0: Value) -> (pending: PendingCall) {
        let mut arguments = buffer_with_capacity(1);
        buffer_push(&mut arguments, arg0.address());
        let data = self.data().merge(arg0.data());
        proof {
            assert(arguments@ =~= addresses(seq![arg0]));
            lemma_joined_push(self.data(), Seq::empty(), arg0);
            assert(Seq::<Value>::empty().push(arg0) =~= seq![arg0]);
        }
        PendingCall { entry: EntryPoint::Call1, function: self.address(), arguments, target, data }
    }

    fn call2(self, stack: &ScopeStack, target: Target, arg0: Value, arg1: Value) -> (pending:
        PendingCall) {
        let mut arguments = buffer_with_capacity(2);
        buffer_push(&mut arguments, arg0.address());
        buffer_push(&mut arguments, arg1.address());
        let data = self.data().merge(arg0.data()).merge(arg1.data());
        proof {
            assert(arguments@ =~= addresses(seq![arg0, arg1]));
            lemma_joined_push(self.data(), Seq::empty(), arg0);
            lemma_joined_push(self.data(), seq![arg0], arg1);
            assert(Seq::<Value>::empty().push(arg0) =~= seq![arg0]);
            assert(seq![arg0].push(arg1) =~= seq![arg0, arg1]);
        }
        PendingCall { entry: EntryPoint::Call2, function: self.address(), arguments, target, data }
    }

    fn call3(
        self,
        stack: &ScopeStack,
        target: Target,
        arg0: Value,
        arg1: Value,
        arg2: Value,
    ) -> (pending: PendingCall) {
        let mut arguments = buffer_with_capacity(3);
        buffer_push(&mut arguments, arg0.address());
        buffer_push(&mut arguments, arg1.address());
        buffer_push(&mut arguments, arg2.address());
        let data = self.data().merge(arg0.data()).merge(arg1.data()).merge(arg2.data());
        proof {
            assert(arguments@ =~= addresses(seq![arg0, arg1, arg2]));
            lemma_joined_push(self.data(), Seq::empty(), arg0);
            lemma_joined_push(self.data(), seq![arg0], arg1);
            lemma_joined_push(self.data(), seq![arg0, arg1], arg2);
            assert(Seq::<Value>::empty().push(arg0) =~= seq![arg0]);
            assert(seq![arg0].push(arg1) =~= seq![arg0, arg1]);
            assert(seq![arg0, arg1].push(arg2) =~= seq![arg0, arg1, arg2]);
        }
        PendingCall { entry: EntryPoint::Call3, function: self.address(), arguments, target, data }
    }

    fn call(self, stack: &ScopeStack, target: Target, args: &[Value]) -> (pending: PendingCall) {
        let mut arguments = buffer_with_capacity(args.len());
        let data = append(&mut arguments, self.data(), args);
        proof {
            assert(arguments@ =~= addresses(args@));
        }
        PendingCall { entry: EntryPoint::CallN, function: self.address(), arguments, target, data }
    }
}

impl ProvideKeywords for Value {
    fn provide_keywords(self, keywords: Value, is_named_tuple: bool) -> (with_keywords:
        JlrsResult<WithKeywords>) {
        if !is_named_tuple {
            return Err(JlrsError::NotANamedTuple);
        }
        Ok(WithKeywords::new(self, keywords))
    }
}

impl WithKeywords {
    /// A buffer that holds the keyword bundle and the function, with room for `arity`
    /// arguments, and the tag of what the two may alias.
    fn lead(&self, arity: usize) -> (led: (ArgBuffer, DataTag))
        requires
            arity + 2 <= MAX_LENGTH,
        ensures
            led.0@ == seq![self.keywords().address(), self.function().address()],
            led.1 == self.function().data().join(self.keywords().data()),
    {
        let mut arguments = buffer_with_capacity(2 + arity);
        buffer_push(&mut arguments, self.keywords.address());
        buffer_push(&mut arguments, self.func.address());
        proof {
            assert(arguments@ =~= seq![self.keywords().address(), self.function().address()]);
        }
        (arguments, self.func.data().merge(self.keywords.data()))
    }
}

impl Call for WithKeywords {
    open spec fn callee(&self) -> Value {
        self.function()
    }

    open spec fn bundle(&self) -> Option<Value> {
        Some(self.keywords())
    }

    fn parts(&self) -> (parts: (Value, Option<Value>)) {
        (self.func, Some(self.keywords))
    }

    fn call0(self, stack: &ScopeStack, target: Target) -> (pending: PendingCall) {
        let (arguments, data) = self.lead(0);
        proof {
            assert(arguments@ =~= arguments@ + addresses(Seq::<Value>::empty()));
        }
        PendingCall {
            entry: EntryPoint::Keywords,
            function: self.func.address(),
            arguments,
            target,
            data,
        }
    }

    fn call1(self, stack: &ScopeStack, target: Target, arg0: Value) -> (pending: PendingCall) {
        let (mut arguments, data) = self.lead(1);
        let ghost led = arguments@;
        buffer_push(&mut arguments, arg0.address());
        let data = data.merge(arg0.data());
        proof {
            assert(arguments@ =~= led + addresses(seq![arg0]));
            lemma_joined_push(self.func.data().join(self.keywords.data()), Seq::empty(), arg0);
            assert(Seq::<Value>::empty().push(arg0) =~= seq![arg0]);
        }
        PendingCall {
            entry: EntryPoint::Keywords,
            function: self.func.address(),
            arguments,
            target,
            data,
        }
    }

    fn call2(self, stack: &ScopeStack, target: Target, arg0: Value, arg1: Value) -> (pending:
        PendingCall) {
        let (mut arguments, data) = self.lead(2);
        let ghost led = arguments@;
        let ghost own = data;
        buffer_push(&mut arguments, arg0.address());
        buffer_push(&mut arguments, arg1.address());
        let data = data.merge(arg0.data()).merge(arg1.data());
        proof {
            assert(arguments@ =~= led + addresses(seq![arg0, arg1]));
            lemma_joined_push(own, Seq::empty(), arg0);
            lemma_joined_push(own, seq![arg0], arg1);
            assert(Seq::<Value>::empty().push(arg0) =~= seq![arg0]);
            assert(seq![arg0].push(arg1) =~= seq![arg0, arg1]);
        }
        PendingCall {
            entry: EntryPoint::Keywords,
            function: self.func.address(),
            arguments,
            target,
            data,
        }
    }

    fn call3(
        self,
        stack: &ScopeStack,
        target: Target,
        arg0: Value,
        arg1: Value,
        arg2: Value,
    ) -> (pending: PendingCall) {
        let (mut arguments, data) = self.lead(3);
        let ghost led = arguments@;
        let ghost own = data;
        buffer_push(&mut arguments, arg0.address());
        buffer_push(&mut arguments, arg1.address());
        buffer_push(&mut arguments, arg2.address());
        let data = data.merge(arg0.data()).merge(arg1.data()).merge(arg2.data());
        proof {
            assert(arguments@ =~= led + addresses(seq![arg0, arg1, arg2]));
            lemma_joined_push(own, Seq::empty(), arg0);
            lemma_joined_push(own, seq![arg0], arg1);
            lemma_joined_push(own, seq![arg0, arg1], arg2);
            assert(Seq::<Value>::empty().push(arg0) =~= seq![arg0]);
            assert(seq![arg0].push(arg1) =~= seq![arg0, arg1]);
            assert(seq![arg0, arg1].push(arg2) =~= seq![arg0, arg1, arg2]);
        }
        PendingCall {
            entry: EntryPoint::Keywords,
            function: self.func.address(),
            arguments,
            target,
            data,
        }
    }

    fn call(self, stack: &ScopeStack, target: Target, args: &[Value]) -> (pending: PendingCall) {
        let (mut arguments, data) = self.lead(args.len());
        let data = append(&mut arguments, data, args);
        PendingCall {
            entry: EntryPoint::Keywords,
            function: self.func.address(),
            arguments,
            target,
            data,
        }
    }
}

} // verus!
