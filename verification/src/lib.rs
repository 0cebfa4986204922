//! A lazy asynchronous sequence built by repeatedly applying a step function
//! to the previously delivered value.
//!
//! This crate holds the verified core of the combinator: the pull state
//! machine that decides, on every pull, whether the sequence has terminated,
//! whether a fresh step computation must be started, or whether the step
//! already in flight must be resumed. The asynchronous shell that owns the
//! step closure and the pinned in-flight future drives this machine and
//! performs exactly the actions it asks for.

use vstd::prelude::*;

verus! {

/// The abstract state of one sequence, used by every contract.
///
/// Besides the two concrete cells (`slot`, `in_flight`) it records the full
/// history of the run: the seed, every element delivered so far, and every
/// completed step invocation as a pair of its input and its result.
pub ghost struct State<T> {
    /// The value the next successful pull will deliver, if any.
    pub slot: Option<T>,
    /// Whether a step computation is currently in flight.
    pub in_flight: bool,
    /// The optional seed the sequence was created with.
    pub seed: Option<T>,
    /// Every element delivered so far, in delivery order.
    pub delivered: Seq<T>,
    /// Every completed step invocation: (input, result), in completion order.
    pub completions: Seq<(T, Option<T>)>,
    /// How many step invocations have been started.
    pub started: nat,
}

/// What the driver must do next for one pull, decided from the state alone.
pub enum PollStep<T> {
    /// The sequence has terminated: report end of sequence.
    Finished,
    /// Invoke the step function on this value and keep the computation
    /// it returns as the new in-flight step.
    Invoke(T),
    /// Drive the step already in flight; do not construct a new one.
    Resume,
}

impl<T> State<T> {
    /// The state of a freshly created sequence: the seed sits in the slot,
    /// nothing is in flight, and no history has accumulated.
    pub open spec fn init(first: Option<T>) -> State<T> {
        State {
            slot: first,
            in_flight: false,
            seed: first,
            delivered: Seq::empty(),
            completions: Seq::empty(),
            started: 0,
        }
    }

    /// The decision a pull makes before any step computation is driven.
    pub open spec fn decision(self) -> PollStep<T> {
        if self.slot is None {
            PollStep::Finished
        } else if !self.in_flight {
            PollStep::Invoke(self.slot->0)
        } else {
            PollStep::Resume
        }
    }

    /// The state after a step invocation has been started on the slot value.
    pub open spec fn after_start(self) -> State<T> {
        State { in_flight: true, started: self.started + 1, ..self }
    }

    /// The state after the in-flight step completed with `result`: the old
    /// slot value has been delivered and `result` has become the new slot.
    pub open spec fn after_completion(self, result: Option<T>) -> State<T> {
        State {
            slot: result,
            in_flight: false,
            delivered: self.delivered.push(self.slot->0),
            completions: self.completions.push((self.slot->0, result)),
            ..self
        }
    }

    /// Well-formedness: holds of every reachable state.
    ///
    /// It ties the concrete cells to the history: a step is in flight only
    /// on behalf of an undelivered slot value; starts outrun completions by
    /// at most the one step in flight; each delivery consumed exactly one
    /// completed step; the slot always holds the latest step result (or the
    /// seed, before any step completed); the first delivered element is the
    /// seed; and the i-th completed step took the i-th delivered element as
    /// input and produced the (i+1)-th.
    pub open spec fn wf(self) -> bool {
        &&& self.in_flight ==> self.slot is Some
        &&& self.started == self.completions.len() + (if self.in_flight { 1int } else { 0int })
        &&& self.delivered.len() == self.completions.len()
        &&& if self.completions.len() == 0 {
                self.slot == self.seed
            } else {
                self.slot == self.completions.last().1
            }
        &&& self.delivered.len() > 0 ==> self.seed == Some(self.delivered[0])
        &&& forall|i: int| 0 <= i < self.completions.len() ==> self.completions[i].0 == self.delivered[i]
        &&& forall|i: int|
                0 <= i < self.completions.len() - 1 ==> self.completions[i].1 == Some(
                    self.delivered[i + 1],
                )
    }
}

/// The pull state machine of one sequence.
///
/// The driver owns the step function and the in-flight computation; this
/// type owns the decisions. Between pulls it is always well formed
/// ([`Successors::inv`]), and its ghost view records the whole history of
/// the run.
pub struct Successors<T> {
    slot: Option<T>,
    in_flight: bool,
    seed: Ghost<Option<T>>,
    delivered: Ghost<Seq<T>>,
    completions: Ghost<Seq<(T, Option<T>)>>,
    started: Ghost<nat>,
}

impl<T> View for Successors<T> {
    type V = State<T>;

    closed spec fn view(&self) -> State<T> {
        State {
            slot: self.slot,
            in_flight: self.in_flight,
            seed: self.seed@,
            delivered: self.delivered@,
            completions: self.completions@,
            started: self.started@,
        }
    }
}

impl<T> Successors<T> {
    /// The invariant every public operation requires and preserves.
    pub open spec fn inv(self) -> bool {
        self@.wf()
    }
}

impl<T: Copy> Successors<T> {
    /// The decision for the pull now being made: terminated, start a step
    /// on the returned slot value, or resume the step already in flight.
    ///
    /// Reads the state and changes nothing, so a pull made after
    /// termination is again answered with [`PollStep::Finished`].
    pub fn begin_poll(&self) -> (a: PollStep<T>)
        ensures
            a == self@.decision(),
    {
        if self.slot.is_none() {
            PollStep::Finished
        } else if !self.in_flight {
            PollStep::Invoke(self.slot.unwrap())
        } else {
            PollStep::Resume
        }
    }

    /// Records that the step function was invoked on `v` and that the
    /// computation it returned is now in flight. The slot is unchanged: `v`
    /// is still the value the current pull will deliver.
    ///
    /// To be called exactly once after [`Successors::begin_poll`] answered
    /// `Invoke(v)`, and only once the step function has actually returned a
    /// computation; if it faults instead, the state is left as it was and
    /// the pull may be retried.
    pub fn step_started(&mut self, v: T)
        requires
            old(self).inv(),
            old(self)@.decision() == PollStep::Invoke(v),
        ensures
            final(self).inv(),
            final(self)@ == old(self)@.after_start(),
    {
        self.in_flight = true;
        proof {
            self.started@ = self.started@ + 1;
            lemma_start_preserves_wf(old(self)@, v);
        }
    }

    /// Records that the in-flight step completed with `result`, and returns
    /// the element this pull delivers: the previous slot value, always
    /// present. `result` becomes the new slot, so a step that returned
    /// `None` terminates the sequence on the next pull.
    ///
    /// To be called once the driver has destroyed the completed computation:
    /// at most one step is ever in flight.
    pub fn step_completed(&mut self, result: Option<T>) -> (delivered: Option<T>)
        requires
            old(self).inv(),
            old(self)@.in_flight,
        ensures
            final(self).inv(),
            final(self)@ == old(self)@.after_completion(result),
            delivered == old(self)@.slot,
            delivered is Some,
    {
        let prev = self.slot;
        self.slot = result;
        self.in_flight = false;
        proof {
            self.delivered@ = self.delivered@.push(prev->0);
            self.completions@ = self.completions@.push((prev->0, result));
            lemma_completion_preserves_wf(old(self)@, result);
        }
        prev
    }
}

/// Starting a step preserves well-formedness, and touches neither the slot
/// nor the history of delivered elements.
pub proof fn lemma_start_preserves_wf<T>(m: State<T>, v: T)
    requires
        m.wf(),
        m.decision() == PollStep::Invoke(v),
    ensures
        m.after_start().wf(),
        m.after_start().slot == Some(v),
        m.after_start().delivered == m.delivered,
{
}

/// Completing the in-flight step preserves well-formedness; the element it
/// appends to the history is exactly the slot value, and the step's result
/// becomes the new slot.
pub proof fn lemma_completion_preserves_wf<T>(m: State<T>, result: Option<T>)
    requires
        m.wf(),
        m.in_flight,
    ensures
        m.after_completion(result).wf(),
        m.after_completion(result).delivered == m.delivered.push(m.slot->0),
        m.after_completion(result).slot == result,
{
    let n = m.after_completion(result);
    assert forall|i: int| 0 <= i < n.completions.len() implies n.completions[i].0
        == n.delivered[i] by {
        if i < m.completions.len() {
            assert(m.completions[i].0 == m.delivered[i]);
        }
    }
    assert forall|i: int| 0 <= i < n.completions.len() - 1 implies n.completions[i].1 == Some(
        n.delivered[i + 1],
    ) by {
        if i < m.completions.len() - 1 {
            assert(m.completions[i].1 == Some(m.delivered[i + 1]));
        } else {
            assert(m.completions[i].1 == m.slot);
        }
    }
}

/// Creates a new sequence that first delivers `first`, then the successive
/// results of the step function applied to the previously delivered value.
///
/// Pure construction: no step is invoked, no history exists yet.
pub fn successors<T: Copy>(first: Option<T>) -> (s: Successors<T>)
    ensures
        s.inv(),
        s@ == State::init(first),
{
    Successors {
        slot: first,
        in_flight: false,
        seed: Ghost(first),
        delivered: Ghost(Seq::empty()),
        completions: Ghost(Seq::empty()),
        started: Ghost(0nat),
    }
}

/// An absent seed terminates the sequence from the start: no element is
/// ever delivered, no step is ever started, and every pull decides
/// `Finished`.
pub proof fn lemma_empty_seed<T>(m: State<T>)
    requires
        m.wf(),
        m.seed is None,
    ensures
        m.slot is None,
        m.started == 0,
        m.delivered =~= Seq::<T>::empty(),
        m.decision() == PollStep::<T>::Finished,
{
    if m.delivered.len() > 0 {
        assert(m.seed == Some(m.delivered[0]));
    }
}

/// The first element a sequence delivers is always its seed.
pub proof fn lemma_seed_first<T>(m: State<T>)
    requires
        m.wf(),
        m.delivered.len() > 0,
    ensures
        m.seed == Some(m.delivered[0]),
{
}

/// The chain of successors: every delivered element beyond the first is the
/// payload of the step completion whose input was the element before it,
/// with no reordering, duplication, or skipping.
pub proof fn lemma_successor_chain<T>(m: State<T>, i: int)
    requires
        m.wf(),
        0 <= i,
        i + 1 < m.delivered.len(),
    ensures
        m.completions[i].0 == m.delivered[i],
        m.completions[i].1 == Some(m.delivered[i + 1]),
{
}

/// Termination is final. In a terminated state nothing is in flight, every
/// pull decides `Finished`, and neither transition is enabled: starting a
/// step needs an `Invoke` decision and completing one needs a step in
/// flight. Termination came either from an absent seed or from the last
/// completed step returning `None`.
pub proof fn lemma_terminated<T>(m: State<T>)
    requires
        m.wf(),
        m.slot is None,
    ensures
        m.decision() == PollStep::<T>::Finished,
        !m.in_flight,
        m.delivered.len() == 0 ==> m.seed is None,
        m.delivered.len() > 0 ==> m.completions.last().1 is None,
{
}

/// At most one step computation exists at a time: the number of starts
/// never outruns the number of completions by more than one, and does so
/// exactly while a step is in flight.
pub proof fn lemma_single_flight<T>(m: State<T>)
    requires
        m.wf(),
    ensures
        m.completions.len() <= m.started <= m.completions.len() + 1,
        m.in_flight <==> m.started == m.completions.len() + 1,
{
}

/// While a step is in flight every pull decides `Resume`: the same
/// computation is driven again and no new one is constructed.
pub proof fn lemma_resume_in_flight<T>(m: State<T>)
    requires
        m.wf(),
        m.in_flight,
    ensures
        m.decision() == PollStep::<T>::Resume,
{
}

/// The exact count of step invocations: one per delivered element, plus one
/// for a step still in flight. In particular delivering the seed already
/// costs one invocation, and observing termination costs none.
pub proof fn lemma_step_count<T>(m: State<T>)
    requires
        m.wf(),
    ensures
        m.started == m.delivered.len() + (if m.in_flight { 1int } else { 0int }),
{
}

} // verus!
