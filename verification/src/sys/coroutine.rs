//! The life of a coroutine, apart from the switching of stacks.

use vstd::prelude::*;

verus! {

/// The part of a coroutine's stack that is there for it to use, in bytes.
pub const STACK_SIZE: usize = 0x10_0000;

/// How much memory to map for a coroutine's stack.
pub fn stack_alloc(page_size: usize) -> (r: usize)
    requires
        STACK_SIZE + page_size <= usize::MAX,
    ensures
        r == STACK_SIZE + page_size,
        r == 0x10_0000 + page_size,
{
    STACK_SIZE + page_size
}

/// Where a coroutine stands. `F` is what it runs, `P` what a panic in it leaves behind.
pub enum CoroutineState<F, P> {
    NotStarted { entry: F },
    Running,
    Returned,
    Panicked { payload: P },
}

impl<F, P> CoroutineState<F, P> {
    /// Whether the coroutine has come to its end.
    pub open spec fn is_done(self) -> bool {
        self is Returned || self is Panicked
    }

    /// The state after the coroutine was started, and what it is to run.
    pub open spec fn started(self) -> (CoroutineState<F, P>, Option<F>) {
        match self {
            CoroutineState::NotStarted { entry } => (CoroutineState::Running, Some(entry)),
            _ => (self, None),
        }
    }

    /// The state after the coroutine gave up control, for good or for now.
    pub open spec fn left(self, ret: Option<Result<(), P>>) -> CoroutineState<F, P> {
        match ret {
            Some(Ok(_)) => CoroutineState::Returned,
            Some(Err(payload)) => CoroutineState::Panicked { payload },
            None => self,
        }
    }

    /// A coroutine that is to run `entry`.
    pub fn new(entry: F) -> (r: CoroutineState<F, P>)
        ensures
            r == (CoroutineState::<F, P>::NotStarted { entry }),
    {
        CoroutineState::NotStarted { entry }
    }

    /// Starts the coroutine: hands out what it is to run. Nothing is handed out to a coroutine
    /// that was started before.
    pub fn run(&mut self) -> (r: Option<F>)
        ensures
            (*final(self), r) == old(self).started(),
            *old(self) matches CoroutineState::NotStarted { entry } ==> r == Some(entry)
                && *final(self) is Running,
            !(*old(self) is NotStarted) ==> r is None && *final(self) == *old(self),
    {
        let mut state = CoroutineState::Running;
        core::mem::swap(self, &mut state);
        match state {
            CoroutineState::NotStarted { entry } => Some(entry),
            state => {
                *self = state;
                None
            },
        }
    }

    pub fn done(&self) -> (r: bool)
        ensures
            r == self.is_done(),
            r <==> *self is Returned || *self is Panicked,
    {
        match self {
            CoroutineState::NotStarted { .. } => false,
            CoroutineState::Running => false,
            CoroutineState::Returned => true,
            CoroutineState::Panicked { .. } => true,
        }
    }

    /// Whether control may be passed to the coroutine.
    pub fn enterable(&self) -> (r: bool)
        ensures
            r == !self.is_done(),
            r <==> *self is NotStarted || *self is Running,
    {
        match self {
            CoroutineState::Running => true,
            CoroutineState::NotStarted { .. } => true,
            _ => false,
        }
    }

    /// Control came back from the coroutine. `ret` is how it ended, if it did.
    pub fn leave(&mut self, ret: Option<Result<(), P>>)
        requires
            *old(self) is Running,
        ensures
            *final(self) == old(self).left(ret),
            ret is None ==> *final(self) is Running,
            ret matches Some(Ok(_)) ==> *final(self) is Returned,
            ret matches Some(Err(payload)) ==> *final(self) == (CoroutineState::<F, P>::Panicked {
                payload,
            }),
    {
        match ret {
            Some(Ok(())) => {
                *self = CoroutineState::Returned;
            },
            Some(Err(payload)) => {
                *self = CoroutineState::Panicked { payload };
            },
            None => {},
        }
    }
}

/// What a coroutine runs is handed out once, however often the coroutine is started.
pub proof fn law_runs_once<F, P>(state: CoroutineState<F, P>)
    ensures
        state.started().0.started().1 is None,
        state.started().1 is Some ==> state.started().0 is Running,
        state.started().1 is None ==> state.started().0 == state,
{
}

/// A coroutine that has come to its end stays there: starting it does nothing.
pub proof fn law_done_is_final<F, P>(state: CoroutineState<F, P>)
    requires
        state.is_done(),
    ensures
        state.started() == (state, None::<F>),
{
}

/// A coroutine that yields goes on running; one that returns or panics is done.
pub proof fn law_leaving<F, P>(state: CoroutineState<F, P>, ret: Option<Result<(), P>>)
    requires
        state is Running,
    ensures
        state.left(ret).is_done() <==> ret is Some,
        ret is None ==> state.left(ret) == state,
{
}

/// A coroutine hands out what it was made to run the first time it is started, and runs then.
/// Started in any other state, it hands out nothing and stays as it is.
pub proof fn law_starting<F, P>(state: CoroutineState<F, P>, entry: F)
    ensures
        (CoroutineState::<F, P>::NotStarted { entry }).started() == (
            CoroutineState::<F, P>::Running,
            Some(entry),
        ),
        !(state is NotStarted) ==> state.started() == (state, None::<F>),
{
}

/// How a coroutine ended is what its state says: returned, or panicked with what the panic
/// left behind.
pub proof fn law_ending<F, P>(state: CoroutineState<F, P>, payload: P)
    ensures
        state.left(Some(Ok(()))) == CoroutineState::<F, P>::Returned,
        state.left(Some(Err(payload))) == (CoroutineState::<F, P>::Panicked { payload }),
        state.left(None) == state,
        state.is_done() <==> !(state is NotStarted) && !(state is Running),
{
}

} // verus!
