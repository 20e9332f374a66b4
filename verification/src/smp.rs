//! Secondary-core bring-up handshake.
//!
//! The primary core writes each secondary's entry point into its wake
//! mailbox and broadcasts a wake event; each secondary then busy-waits
//! on a shared monotonically increasing token until the token equals
//! its own identifier, registers by advancing the token, and — after
//! the primary releases the start barrier — declares itself ready.
//! The token guard forces registrations into the strict order
//! 1, 2, …, K: that is proved below over arbitrary interleavings of
//! registration attempts.
//!
//! The mailbox writes and the wait/wake instructions live with the
//! architecture layer; what is verified is the protocol state machine
//! the cores drive through it.

use vstd::prelude::*;

verus! {

/// The life of one secondary core during bring-up.
#[derive(Debug, Clone, Copy, PartialEq, Eq, Structural)]
pub enum CoreState {
    /// Parked in the firmware spin loop, waiting on its mailbox.
    ResetSpin,
    /// Woken and running, waiting for the token to reach its id.
    Woken,
    /// Counted in: the token has passed its id.
    Registered,
    /// Past the start barrier, folded into the idle loop.
    Ready,
}

/// A registration attempt succeeds exactly when the attempting core
/// holds the next identifier the token is waiting for.
pub open spec fn spec_register_ok(token: int, n_cores: int, cpuid: int) -> bool {
    1 <= cpuid < n_cores && cpuid == token
}

/// The token after a sequence of registration attempts, together with
/// the identifiers that actually registered, in order.
pub open spec fn run_registrations(token: int, n_cores: int, attempts: Seq<int>) -> (int, Seq<int>)
    decreases attempts.len(),
{
    if attempts.len() == 0 {
        (token, Seq::empty())
    } else if spec_register_ok(token, n_cores, attempts[0]) {
        let rest = run_registrations(token + 1, n_cores, attempts.drop_first());
        (rest.0, seq![attempts[0]] + rest.1)
    } else {
        run_registrations(token, n_cores, attempts.drop_first())
    }
}

/// The token only grows, never past the core count, and the cores that
/// registered are exactly `token, token + 1, …` in strictly increasing
/// order with no skips or repeats — whatever order the attempts came
/// in.
pub proof fn lemma_registration_order(token: int, n_cores: int, attempts: Seq<int>)
    requires
        1 <= token <= n_cores,
    ensures
        ({
            let (t1, ids) = run_registrations(token, n_cores, attempts);
            &&& token <= t1 <= n_cores
            &&& ids =~= Seq::new((t1 - token) as nat, |i: int| token + i)
        }),
    decreases attempts.len(),
{
    if attempts.len() > 0 {
        if spec_register_ok(token, n_cores, attempts[0]) {
            lemma_registration_order(token + 1, n_cores, attempts.drop_first());
        } else {
            lemma_registration_order(token, n_cores, attempts.drop_first());
        }
    }
}

/// Bring-up with simulated core count K that registers everyone visits
/// exactly 1, 2, …, K - 1 (the primary core is core 0 and does not
/// register).
pub proof fn lemma_full_bring_up_order(n_cores: int, attempts: Seq<int>)
    requires
        1 <= n_cores,
        run_registrations(1, n_cores, attempts).0 == n_cores,
    ensures
        run_registrations(1, n_cores, attempts).1 =~= Seq::new(
            (n_cores - 1) as nat,
            |i: int| i + 1,
        ),
{
    lemma_registration_order(1, n_cores, attempts);
}

/// The shared bring-up state the cores cooperate on.
pub struct SmpBringUp {
    n_cores: usize,
    token: usize,
    start_barrier_released: bool,
    cores: Vec<CoreState>,
}

impl SmpBringUp {
    pub closed spec fn spec_n_cores(self) -> int {
        self.n_cores as int
    }

    pub closed spec fn spec_token(self) -> int {
        self.token as int
    }

    pub closed spec fn spec_barrier_released(self) -> bool {
        self.start_barrier_released
    }

    pub closed spec fn core_states(self) -> Seq<CoreState> {
        self.cores@
    }

    /// Protocol invariant: the token counts the cores that are past
    /// registration — core `i` is registered or ready exactly when the
    /// token has passed it — and nobody is ready before the barrier
    /// opens.
    pub open spec fn wf(self) -> bool {
        &&& 1 <= self.spec_token() <= self.spec_n_cores()
        &&& self.core_states().len() == self.spec_n_cores()
        &&& forall|i: int|
            1 <= i < self.spec_n_cores() ==> ((#[trigger] self.core_states()[i]) is Registered
                || self.core_states()[i] is Ready) == (i < self.spec_token())
        &&& forall|i: int|
            0 <= i < self.spec_n_cores() ==> ((#[trigger] self.core_states()[i]) is Ready
                ==> self.spec_barrier_released())
    }

    /// Fresh bring-up state: the token waits for core 1, every
    /// secondary core is parked in its reset spin loop.
    pub fn new(n_cores: usize) -> (r: Self)
        requires
            1 <= n_cores,
        ensures
            r.wf(),
            r.spec_n_cores() == n_cores,
            r.spec_token() == 1,
            !r.spec_barrier_released(),
            forall|i: int| 1 <= i < n_cores ==> (#[trigger] r.core_states()[i]) is ResetSpin,
    {
        let mut cores: Vec<CoreState> = Vec::new();
        let mut i: usize = 0;
        while i < n_cores
            invariant
                cores@.len() == i,
                i <= n_cores,
                forall|j: int| 0 <= j < i ==> (#[trigger] cores@[j]) is ResetSpin,
            decreases n_cores - i,
        {
            cores.push(CoreState::ResetSpin);
            i = i + 1;
        }
        SmpBringUp { n_cores, token: 1, start_barrier_released: false, cores }
    }

    /// The primary core has written every secondary's entry point into
    /// its wake mailbox and broadcast the wake event: all parked cores
    /// are now running.
    pub fn wake_secondaries(&mut self)
        requires
            old(self).wf(),
        ensures
            final(self).wf(),
            final(self).spec_n_cores() == old(self).spec_n_cores(),
            final(self).spec_token() == old(self).spec_token(),
            final(self).spec_barrier_released() == old(self).spec_barrier_released(),
            forall|i: int|
                0 <= i < final(self).core_states().len() ==> (#[trigger] final(self).core_states()[i])
                    == (if old(self).core_states()[i] is ResetSpin {
                    CoreState::Woken
                } else {
                    old(self).core_states()[i]
                }),
    {
        let ghost cs0 = self.cores@;
        let n = self.cores.len();
        let mut i: usize = 0;
        while i < n
            invariant
                n == self.cores.len(),
                self.cores@.len() == cs0.len(),
                n == cs0.len(),
                0 <= i <= n,
                self.n_cores == old(self).n_cores,
                self.token == old(self).token,
                self.start_barrier_released == old(self).start_barrier_released,
                cs0 == old(self).core_states(),
                forall|j: int|
                    0 <= j < i ==> (#[trigger] self.cores@[j]) == (if cs0[j] is ResetSpin {
                        CoreState::Woken
                    } else {
                        cs0[j]
                    }),
                forall|j: int| i <= j < n ==> (#[trigger] self.cores@[j]) == cs0[j],
            decreases n - i,
        {
            if matches!(self.cores[i], CoreState::ResetSpin) {
                self.cores.set(i, CoreState::Woken);
            }
            i = i + 1;
        }
    }

    /// The guard a waiting secondary core polls: it may proceed only
    /// when the token equals its own identifier.
    pub fn can_register(&self, cpuid: usize) -> (r: bool)
        ensures
            r == (self.spec_token() == cpuid),
    {
        self.token == cpuid
    }

    /// One registration attempt by core `cpuid`: succeeds — advancing
    /// the token and marking the core registered — exactly when the
    /// token is waiting for this core; any core whose turn has not
    /// come keeps waiting, unchanged.
    pub fn try_register(&mut self, cpuid: usize) -> (r: bool)
        requires
            old(self).wf(),
        ensures
            final(self).wf(),
            final(self).spec_n_cores() == old(self).spec_n_cores(),
            final(self).spec_barrier_released() == old(self).spec_barrier_released(),
            r == spec_register_ok(old(self).spec_token(), old(self).spec_n_cores(), cpuid as int),
            r ==> final(self).spec_token() == old(self).spec_token() + 1
                && final(self).core_states() == old(self).core_states().update(
                cpuid as int,
                CoreState::Registered,
            ),
            !r ==> *final(self) == *old(self),
    {
        if 1 <= cpuid && cpuid < self.n_cores && self.token == cpuid {
            self.cores.set(cpuid, CoreState::Registered);
            self.token = self.token + 1;
            true
        } else {
            false
        }
    }

    /// Whether every secondary core has registered: the token has
    /// reached the core count.
    pub fn all_registered(&self) -> (r: bool)
        ensures
            r == (self.spec_token() == self.spec_n_cores()),
    {
        self.token == self.n_cores
    }

    /// The primary core, having seen every core register in order,
    /// releases the start barrier.
    pub fn release_start_barrier(&mut self)
        requires
            old(self).wf(),
            old(self).spec_token() == old(self).spec_n_cores(),
        ensures
            final(self).wf(),
            final(self).spec_n_cores() == old(self).spec_n_cores(),
            final(self).spec_token() == old(self).spec_token(),
            final(self).spec_barrier_released(),
            final(self).core_states() == old(self).core_states(),
    {
        self.start_barrier_released = true;
    }

    /// A registered core that has finished its own translation-table
    /// setup and passed the open barrier folds into the idle loop.
    pub fn mark_ready(&mut self, cpuid: usize)
        requires
            old(self).wf(),
            old(self).spec_barrier_released(),
            1 <= cpuid < old(self).spec_n_cores(),
            old(self).core_states()[cpuid as int] is Registered,
        ensures
            final(self).wf(),
            final(self).spec_n_cores() == old(self).spec_n_cores(),
            final(self).spec_token() == old(self).spec_token(),
            final(self).spec_barrier_released(),
            final(self).core_states() == old(self).core_states().update(
                cpuid as int,
                CoreState::Ready,
            ),
    {
        self.cores.set(cpuid, CoreState::Ready);
    }

    /// Whether every secondary core has declared itself ready.
    pub fn all_ready(&self) -> (r: bool)
        requires
            self.wf(),
        ensures
            r == forall|i: int|
                1 <= i < self.spec_n_cores() ==> (#[trigger] self.core_states()[i]) is Ready,
    {
        let mut i: usize = 1;
        while i < self.n_cores
            invariant
                self.wf(),
                1 <= i <= self.spec_n_cores() || (i == 1 && self.spec_n_cores() == 1),
                forall|j: int| 1 <= j < i ==> (#[trigger] self.core_states()[j]) is Ready,
            decreases self.n_cores - i,
        {
            if !matches!(self.cores[i], CoreState::Ready) {
                return false;
            }
            i = i + 1;
        }
        true
    }

    /// The number of cores brought online once bring-up has finished:
    /// the token stops at the core count.
    pub fn online_cores(&self) -> (r: usize)
        requires
            self.wf(),
        ensures
            r == self.spec_token(),
    {
        self.token
    }
}

} // verus!
