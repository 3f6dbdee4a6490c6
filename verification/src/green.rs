//! The bookkeeping of a handful of cooperative threads that share one
//! processor: which one runs, which ones wait their turn, and where a fresh
//! stack gets its first frame.
//!
//! Switching stacks is the caller's business. Every operation here says
//! which switch to make and leaves the making to the caller.

use vstd::prelude::*;

verus! {

pub const DEFAULT_STACK_SIZE: usize = 1024 * 1024 * 2;

pub const MAX_THREADS: usize = 4;

/// What a thread is doing.
#[derive(Debug, Clone, Copy, PartialEq, Eq, Structural)]
pub enum State {
    /// Free to take a new function.
    Available,
    /// On the processor.
    Running,
    /// Waiting for its turn.
    Ready,
}

/// The registers that a thread keeps while it is off the processor.
#[derive(Debug, Clone, Copy, PartialEq, Eq, Structural)]
pub struct ThreadContext {
    pub rsp: u64,
    pub r15: u64,
    pub r14: u64,
    pub r13: u64,
    pub r12: u64,
    pub rbx: u64,
    pub rbp: u64,
}

pub struct Thread {
    pub id: usize,
    pub stack: Vec<u8>,
    pub ctx: ThreadContext,
    pub state: State,
}

/// Where the first frame of a fresh stack lies.
#[derive(Debug, Clone, Copy, PartialEq, Eq, Structural)]
pub struct Frame {
    /// The address for the function that the thread is to run. The stack
    /// pointer starts here.
    pub entry: u64,
    /// The address for the function that keeps the next slot aligned.
    pub skip: u64,
    /// The address for the function that runs when the thread's function
    /// returns.
    pub guard: u64,
}

/// The registers of a thread that has not run yet: all zero.
pub open spec fn blank() -> ThreadContext {
    ThreadContext { rsp: 0, r15: 0, r14: 0, r13: 0, r12: 0, rbx: 0, rbp: 0 }
}

/// The greatest multiple of 16 that is not above `address`.
pub open spec fn aligned_down(address: u64) -> u64 {
    (address - address % 16) as u64
}

/// The first frame of a stack of `size` bytes that begins at `base`: three
/// slots of eight bytes below the aligned top of the stack.
pub open spec fn frame_of(base: u64, size: u64) -> Frame {
    let top = aligned_down((base + size) as u64);
    Frame { entry: (top - 32) as u64, skip: (top - 24) as u64, guard: (top - 16) as u64 }
}

/// Lays out the first frame of a stack of `size` bytes that begins at
/// `base`. The frame lies inside the stack, and the slot for the thread's
/// function, where the stack pointer starts, is aligned to 16 bytes.
pub fn first_frame(base: u64, size: u64) -> (frame: Frame)
    requires
        base + size <= u64::MAX,
        size >= 48,
    ensures
        frame == frame_of(base, size),
        frame.entry % 16 == 0,
        base <= frame.entry,
        frame.entry + 8 == frame.skip,
        frame.skip + 8 == frame.guard,
        frame.guard + 8 <= base + size,
{
    let end: u64 = base + size;
    let top: u64 = end & !15u64;
    assert(top == end - end % 16 && top <= end && end - top < 16 && top % 16 == 0) by (bit_vector)
        requires
            top == end & !15u64,
    ;
    Frame { entry: top - 32, skip: top - 24, guard: top - 16 }
}

impl Thread {
    /// A thread with a zeroed stack of the default size that is free to
    /// take a function.
    pub fn new(id: usize) -> (t: Self)
        ensures
            t.id == id,
            t.stack@ == Seq::new(DEFAULT_STACK_SIZE as nat, |i: int| 0u8),
            t.ctx == blank(),
            t.state is Available,
    {
        let stack = vec![0_u8; DEFAULT_STACK_SIZE];
        assert(stack@ =~= Seq::new(DEFAULT_STACK_SIZE as nat, |i: int| 0u8));
        Thread {
            id,
            stack,
            ctx: ThreadContext { rsp: 0, r15: 0, r14: 0, r13: 0, r12: 0, rbx: 0, rbp: 0 },
            state: State::Available,
        }
    }
}

/// The place that lies `k` steps after `current` on a round of `len`
/// places.
pub open spec fn place(current: int, k: int, len: int) -> int {
    if current + k < len {
        current + k
    } else {
        current + k - len
    }
}

/// The first thread that is ready, looking from the place `k` steps after
/// `current` once round and no further than back to `current`.
pub open spec fn ready_from(states: Seq<State>, current: int, k: int) -> Option<int>
    decreases states.len() - k,
{
    if k >= states.len() {
        None
    } else if states[place(current, k, states.len() as int)] is Ready {
        Some(place(current, k, states.len() as int))
    } else {
        ready_from(states, current, k + 1)
    }
}

/// The first thread that is free, lowest index first.
pub open spec fn first_available(states: Seq<State>) -> Option<int>
    decreases states.len(),
{
    if states.len() == 0 {
        None
    } else {
        match first_available(states.drop_last()) {
            Some(i) => Some(i),
            None => if states.last() is Available {
                Some(states.len() - 1)
            } else {
                None
            },
        }
    }
}

/// The states of `threads`, thread by thread.
pub open spec fn states_of(threads: Seq<Thread>) -> Seq<State> {
    threads.map_values(|t: Thread| t.state)
}

/// What a yield makes of the states: the thread that ran waits for its next
/// turn, unless it has given itself up, and `next` is on the processor.
pub open spec fn yielded(states: Seq<State>, current: int, next: int) -> Seq<State> {
    let parked = if states[current] is Available {
        states
    } else {
        states.update(current, State::Ready)
    };
    parked.update(next, State::Running)
}

/// `b` holds the threads of `a`, each with its id, its stack and its
/// registers; only what the threads are doing may differ.
pub open spec fn same_threads(a: Seq<Thread>, b: Seq<Thread>) -> bool {
    &&& a.len() == b.len()
    &&& forall|i: int|
        0 <= i < a.len() ==> (#[trigger] a[i]).id == b[i].id && a[i].stack == b[i].stack && a[i].ctx
            == b[i].ctx
}

/// A small scheduler that switches between its threads in turn.
pub struct Runtime {
    threads: Vec<Thread>,
    current: usize,
}

impl Runtime {
    /// The threads.
    pub closed spec fn threads(&self) -> Seq<Thread> {
        self.threads@
    }

    /// The state of each thread.
    pub closed spec fn states(&self) -> Seq<State> {
        states_of(self.threads@)
    }

    /// The thread that is on the processor.
    pub closed spec fn current(&self) -> usize {
        self.current
    }

    /// The scheduler's invariant: there is a thread, and the current one is
    /// among them.
    pub open spec fn wf(&self) -> bool {
        self.current() < self.states().len()
    }

    /// A scheduler with its base thread on the processor and the others
    /// free.
    pub fn new() -> (rt: Self)
        ensures
            rt.wf(),
            rt.current() == 0,
            rt.states() == seq![State::Running, State::Available, State::Available, State::Available],
            forall|i: int|
                0 <= i < rt.threads().len() ==> {
                    &&& (#[trigger] rt.threads()[i]).id == i
                    &&& rt.threads()[i].stack@ == Seq::new(DEFAULT_STACK_SIZE as nat, |j: int| 0u8)
                    &&& rt.threads()[i].ctx == blank()
                },
    {
        let mut base = Thread::new(0);
        base.state = State::Running;
        let mut threads: Vec<Thread> = Vec::new();
        threads.push(base);
        let mut i: usize = 1;
        while i < MAX_THREADS
            invariant
                1 <= i <= MAX_THREADS,
                threads@.len() == i,
                threads@[0].state is Running,
                forall|j: int| 1 <= j < i ==> threads@[j].state is Available,
                forall|j: int|
                    0 <= j < i ==> {
                        &&& (#[trigger] threads@[j]).id == j
                        &&& threads@[j].stack@ == Seq::new(DEFAULT_STACK_SIZE as nat, |k: int| 0u8)
                        &&& threads@[j].ctx == blank()
                    },
            decreases MAX_THREADS - i,
        {
            threads.push(Thread::new(i));
            i += 1;
        }
        assert(states_of(threads@) =~= seq![
            State::Running,
            State::Available,
            State::Available,
            State::Available,
        ]);
        Runtime { threads, current: 0 }
    }

    /// The number of threads.
    pub fn len(&self) -> (n: usize)
        ensures
            n == self.states().len(),
    {
        self.threads.len()
    }

    /// The thread that is on the processor.
    pub fn running(&self) -> (i: usize)
        ensures
            i == self.current(),
    {
        self.current
    }

    /// The state of thread `i`.
    pub fn state(&self, i: usize) -> (s: State)
        requires
            i < self.states().len(),
        ensures
            s == self.states()[i as int],
    {
        self.threads[i].state
    }

    /// The thread whose turn is next: the first ready one in a round that
    /// begins with the current thread.
    pub fn next_ready(&self) -> (next: Option<usize>)
        requires
            self.wf(),
        ensures
            match next {
                Some(i) => ready_from(self.states(), self.current() as int, 0) == Some(i as int),
                None => ready_from(self.states(), self.current() as int, 0) is None,
            },
            next matches Some(i) ==> i < self.states().len() && self.states()[i as int] is Ready,
    {
        let len = self.threads.len();
        let mut pos = self.current;
        let mut k: usize = 0;
        while k < len
            invariant
                len == self.threads@.len(),
                self.current < len,
                k <= len,
                pos < len,
                k < len ==> pos == place(self.current as int, k as int, len as int),
                ready_from(self.states(), self.current as int, 0) == ready_from(
                    self.states(),
                    self.current as int,
                    k as int,
                ),
            decreases len - k,
        {
            match self.threads[pos].state {
                State::Ready => {
                    return Some(pos);
                },
                _ => {},
            }
            pos = if pos + 1 == len {
                0
            } else {
                pos + 1
            };
            k += 1;
        }
        None
    }

    /// Gives the processor to the thread whose turn is next. Returns the
    /// switch for the caller to make, from the thread that ran to the one
    /// that runs now, or `None` if no thread is ready, in which case nothing
    /// changes.
    pub fn t_yield(&mut self) -> (switch: Option<(usize, usize)>)
        requires
            old(self).wf(),
        ensures
            final(self).wf(),
            same_threads(old(self).threads(), final(self).threads()),
            match ready_from(old(self).states(), old(self).current() as int, 0) {
                Some(next) => {
                    &&& switch == Some((old(self).current(), next as usize))
                    &&& final(self).current() == next
                    &&& final(self).states() == yielded(
                        old(self).states(),
                        old(self).current() as int,
                        next,
                    )
                },
                None => {
                    &&& switch is None
                    &&& final(self).current() == old(self).current()
                    &&& final(self).states() == old(self).states()
                },
            },
    {
        match self.next_ready() {
            None => None,
            Some(pos) => {
                let old_pos = self.current;
                match self.threads[old_pos].state {
                    State::Available => {},
                    _ => {
                        self.set_state(old_pos, State::Ready);
                    },
                }
                self.set_state(pos, State::Running);
                self.current = pos;
                Some((old_pos, pos))
            },
        }
    }

    /// The running thread has finished its function. Any thread but the base
    /// thread gives itself up and yields; the base thread stays as it is.
    pub fn t_return(&mut self) -> (switch: Option<(usize, usize)>)
        requires
            old(self).wf(),
        ensures
            final(self).wf(),
            same_threads(old(self).threads(), final(self).threads()),
            old(self).current() == 0 ==> switch is None && final(self).states() == old(
                self,
            ).states() && final(self).current() == 0,
            old(self).current() != 0 ==> {
                let freed = old(self).states().update(
                    old(self).current() as int,
                    State::Available,
                );
                match ready_from(freed, old(self).current() as int, 0) {
                    Some(next) => {
                        &&& switch == Some((old(self).current(), next as usize))
                        &&& final(self).current() == next
                        &&& final(self).states() == freed.update(next, State::Running)
                    },
                    None => {
                        &&& switch is None
                        &&& final(self).current() == old(self).current()
                        &&& final(self).states() == freed
                    },
                }
            },
    {
        if self.current != 0 {
            let current = self.current;
            self.set_state(current, State::Available);
            self.t_yield()
        } else {
            None
        }
    }

    /// Makes the first free thread ready to run and returns its index, for
    /// the caller to lay out its stack. Returns `None`, and changes nothing,
    /// if no thread is free.
    pub fn spawn(&mut self) -> (spawned: Option<usize>)
        requires
            old(self).wf(),
        ensures
            final(self).wf(),
            same_threads(old(self).threads(), final(self).threads()),
            final(self).current() == old(self).current(),
            match first_available(old(self).states()) {
                Some(i) => spawned == Some(i as usize) && final(self).states() == old(
                    self,
                ).states().update(i, State::Ready),
                None => spawned is None && final(self).states() == old(self).states(),
            },
    {
        let len = self.threads.len();
        let mut i: usize = 0;
        while i < len
            invariant
                len == self.threads@.len(),
                i <= len,
                self.threads@ == old(self).threads@,
                self.current == old(self).current,
                self.current < len,
                first_available(self.states().take(i as int)) is None,
            decreases len - i,
        {
            proof {
                assert(self.states().take(i as int + 1).drop_last() =~= self.states().take(
                    i as int,
                ));
                lemma_first_available_prefix(self.states(), i as int + 1);
            }
            match self.threads[i].state {
                State::Available => {
                    self.set_state(i, State::Ready);
                    return Some(i);
                },
                _ => {},
            }
            i += 1;
        }
        proof {
            assert(self.states().take(len as int) =~= self.states());
        }
        None
    }

    /// Sets the stack pointer of thread `i`, where its first frame begins.
    pub fn set_stack_pointer(&mut self, i: usize, rsp: u64)
        requires
            old(self).wf(),
            i < old(self).states().len(),
        ensures
            final(self).wf(),
            final(self).states() == old(self).states(),
            final(self).current() == old(self).current(),
            final(self).threads().len() == old(self).threads().len(),
            final(self).threads()[i as int].ctx == (ThreadContext {
                rsp,
                ..old(self).threads()[i as int].ctx
            }),
            forall|j: int|
                0 <= j < final(self).threads().len() ==> {
                    &&& (#[trigger] final(self).threads()[j]).id == old(self).threads()[j].id
                    &&& final(self).threads()[j].stack == old(self).threads()[j].stack
                    &&& j != i ==> final(self).threads()[j].ctx == old(self).threads()[j].ctx
                },
    {
        let mut ctx = self.threads[i].ctx;
        ctx.rsp = rsp;
        let ghost before = self.threads@;
        self.threads[i].ctx = ctx;
        assert(states_of(self.threads@) =~= states_of(before));
    }

    /// The stack pointer that thread `i` keeps while it is off the
    /// processor.
    pub fn stack_pointer(&self, i: usize) -> (rsp: u64)
        requires
            i < self.threads().len(),
        ensures
            rsp == self.threads()[i as int].ctx.rsp,
    {
        self.threads[i].ctx.rsp
    }

    fn set_state(&mut self, i: usize, state: State)
        requires
            i < old(self).threads@.len(),
        ensures
            final(self).current == old(self).current,
            final(self).threads@.len() == old(self).threads@.len(),
            final(self).states() == old(self).states().update(i as int, state),
            same_threads(old(self).threads@, final(self).threads@),
    {
        let ghost before = self.threads@;
        self.threads[i].state = state;
        assert(states_of(self.threads@) =~= states_of(before).update(i as int, state));
    }
}

/// A free thread among the first `n` is the first free thread of all, if it
/// is the first among those.
proof fn lemma_first_available_prefix(states: Seq<State>, n: int)
    requires
        0 <= n <= states.len(),
    ensures
        first_available(states.take(n)) is Some ==> first_available(states) == first_available(
            states.take(n),
        ),
    decreases states.len() - n,
{
    if n < states.len() {
        assert(states.take(n + 1).drop_last() =~= states.take(n));
        lemma_first_available_prefix(states, n + 1);
    } else {
        assert(states.take(n) =~= states);
    }
}

} // verus!
