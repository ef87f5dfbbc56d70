use vstd::prelude::*;

use super::store::Store;
use vstd::std_specs::cmp::PartialEqSpec;

verus! {

/// Equality on `S` obeys its specification, which is equality of values.
pub open spec fn eq_is_equality<S: PartialEq>() -> bool {
    &&& S::obeys_eq_spec()
    &&& forall|a: S, b: S| #[trigger] a.eq_spec(&b) <==> a == b
}

/// A clone of an `S` equals the original.
pub open spec fn clone_is_copy<S: Clone>() -> bool {
    forall|a: S, b: S| #[trigger] cloned(a, b) ==> a == b
}

/// Mathematical view of a state: the current value, the one before the
/// last change, and whether it changed since the flag was last cleared.
pub struct StateView<S> {
    pub current: S,
    pub previous: Option<S>,
    pub changed: bool,
}

/// A call that changes a state.
pub enum StateOp<S> {
    /// `set` with this value.
    Assign(S),
    /// `clear_changed`.
    ClearChanged,
}

/// The state after one call: setting a value unequal to the current one
/// makes it current, keeps the old one as the previous and raises the flag;
/// setting an equal value changes nothing; clearing lowers the flag.
pub open spec fn state_step<S>(m: StateView<S>, op: StateOp<S>) -> StateView<S> {
    match op {
        StateOp::Assign(v) => if v == m.current {
            m
        } else {
            StateView { current: v, previous: Some(m.current), changed: true }
        },
        StateOp::ClearChanged => StateView { changed: false, ..m },
    }
}

/// The state after each call of `ops` in turn.
pub open spec fn run_state<S>(m: StateView<S>, ops: Seq<StateOp<S>>) -> StateView<S>
    decreases ops.len(),
{
    if ops.len() == 0 {
        m
    } else {
        state_step(run_state(m, ops.drop_last()), ops.last())
    }
}

/// The value last given to `set` among `ops`, or `v0` when there is none.
pub open spec fn last_given<S>(v0: S, ops: Seq<StateOp<S>>) -> S
    decreases ops.len(),
{
    if ops.len() == 0 {
        v0
    } else {
        match ops.last() {
            StateOp::Assign(v) => v,
            StateOp::ClearChanged => last_given(v0, ops.drop_last()),
        }
    }
}

/// Current application state of type `S`.
pub struct State<S: Clone + PartialEq> {
    current: S,
    previous: Option<S>,
    changed: bool,
}

impl<S: Clone + PartialEq> Store for State<S> {}

impl<S: Clone + PartialEq> State<S> {
    /// The current state.
    pub closed spec fn spec_current(&self) -> S {
        self.current
    }

    /// The state before the last change, if there was one.
    pub closed spec fn spec_previous(&self) -> Option<S> {
        self.previous
    }

    /// Whether the state changed since the flag was last cleared.
    pub closed spec fn spec_changed(&self) -> bool {
        self.changed
    }

    /// The state as a whole.
    pub open spec fn model(&self) -> StateView<S> {
        StateView { current: self.spec_current(), previous: self.spec_previous(), changed: self.spec_changed() }
    }

    /// A new state counts as changed, with no previous state.
    pub fn new(initial: S) -> (s: Self)
        ensures
            s.model() == (StateView { current: initial, previous: None::<S>, changed: true }),
            s.spec_current() == initial,
            s.spec_previous() is None,
            s.spec_changed(),
    {
        State { current: initial, previous: None, changed: true }
    }

    pub fn get(&self) -> (r: &S)
        ensures
            *r == self.spec_current(),
    {
        &self.current
    }

    /// Moves to `state` when it differs from the current one: the current one
    /// becomes the previous (as a clone) and the change flag is raised. An
    /// equal state changes nothing. Where `==` on `S` is equality of values
    /// and a clone equals its original, this is `state_step`.
    pub fn set(&mut self, state: S)
        ensures
            eq_is_equality::<S>() && clone_is_copy::<S>() ==> final(self).model() == state_step(
                old(self).model(),
                StateOp::Assign(state),
            ),
            exists|same: bool|
                {
                    &&& call_ensures(S::eq, (&old(self).spec_current(), &state), same)
                    &&& (S::obeys_eq_spec() ==> same == old(self).spec_current().eq_spec(&state))
                    &&& if same {
                        *final(self) == *old(self)
                    } else {
                        &&& final(self).spec_current() == state
                        &&& final(self).spec_changed()
                        &&& final(self).spec_previous() matches Some(p) && cloned(
                            old(self).spec_current(),
                            p,
                        )
                    }
                },
    {
        let same = self.current.eq(&state);
        proof {
            if eq_is_equality::<S>() {
                assert(self.current.eq_spec(&state) <==> self.current == state);
            }
        }
        if !same {
            let before = self.current.clone();
            proof {
                if clone_is_copy::<S>() {
                    assert(cloned(self.current, before));
                }
            }
            self.previous = Some(before);
            self.current = state;
            self.changed = true;
        }
    }

    pub fn changed(&self) -> (r: bool)
        ensures
            r == self.spec_changed(),
    {
        self.changed
    }

    pub fn previous(&self) -> (r: Option<&S>)
        ensures
            match self.spec_previous() {
                Some(p) => r matches Some(q) && *q == p,
                None => r is None,
            },
    {
        self.previous.as_ref()
    }

    pub fn clear_changed(&mut self)
        ensures
            final(self).model() == state_step(old(self).model(), StateOp::ClearChanged::<S>),
            final(self).spec_current() == old(self).spec_current(),
            final(self).spec_previous() == old(self).spec_previous(),
            !final(self).spec_changed(),
    {
        self.changed = false;
    }
}

/// Setting a value unequal to the current one makes it current, keeps the
/// old one as the previous and raises the changed flag; setting an equal
/// value leaves the state as it was.
pub proof fn law_set_records_change<S>(m: StateView<S>, v: S)
    ensures
        v != m.current ==> state_step(m, StateOp::Assign(v)) == (StateView {
            current: v,
            previous: Some(m.current),
            changed: true,
        }),
        v == m.current ==> state_step(m, StateOp::Assign(v)) == m,
{
}

/// Whatever calls of `set` and `clear_changed` follow, `get` returns the
/// value last given to `set`, or the first value when none was.
pub proof fn law_get_returns_last_given<S>(m: StateView<S>, ops: Seq<StateOp<S>>)
    ensures
        run_state(m, ops).current == last_given(m.current, ops),
    decreases ops.len(),
{
    if ops.len() > 0 {
        law_get_returns_last_given(m, ops.drop_last());
    }
}

/// For `u32`, `==` is equality of values and a clone equals its original,
/// so `set` follows `state_step`.
pub proof fn lemma_u32_exact()
    ensures
        eq_is_equality::<u32>(),
        clone_is_copy::<u32>(),
{
}

} // verus!
