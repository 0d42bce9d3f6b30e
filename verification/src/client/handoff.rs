//! Generation-fenced ownership for cross-machine interactive handoffs.
//!
//! The caller performs transport work, but this state machine is the sole
//! authority for when endpoint-bound messages may be routed. A candidate never
//! becomes routable before commit, and reconnect metadata can only invalidate a
//! pending handoff; it cannot change focus.

use vstd::prelude::*;

use crate::client::federation::{Generation, MachineId};

verus! {

#[derive(Clone, Copy, Debug, PartialEq, Eq, Structural)]
pub struct AttachmentKey {
    pub machine: MachineId,
    pub generation: Generation,
}

#[derive(Clone, Copy, Debug, PartialEq, Eq, Structural)]
pub enum Phase {
    Connecting,
    ValidatingView,
    ApplyingGeometry,
    Revalidating,
}

#[derive(Clone, Copy, Debug, PartialEq, Eq, Structural)]
pub enum State {
    Active(AttachmentKey),
    Preparing {
        source: AttachmentKey,
        target: AttachmentKey,
        phase: Phase,
        source_coherent: bool,
    },
    Frozen { source: AttachmentKey },
}

#[derive(Clone, Copy, Debug, PartialEq, Eq, Structural)]
pub struct Coordinator {
    state: State,
}

impl View for Coordinator {
    type V = State;

    closed spec fn view(&self) -> State {
        self.state
    }
}

impl State {
    /// The attachment that has the focus, routable or not.
    pub open spec fn focus(self) -> AttachmentKey {
        match self {
            State::Active(active) => active,
            State::Preparing { source, .. } => source,
            State::Frozen { source } => source,
        }
    }

    /// Messages of this attachment are routed.
    pub open spec fn routes(self, key: AttachmentKey) -> bool {
        self == State::Active(key)
    }

    /// The attachments between which a handoff can begin: another machine, with
    /// a connection that has started.
    pub open spec fn can_begin(self, target: AttachmentKey) -> bool {
        self matches State::Active(source) && source.machine != target.machine
            && target.generation.connection != 0
    }

    pub open spec fn begun(self, target: AttachmentKey) -> Self {
        if self.can_begin(target) {
            State::Preparing {
                source: self.focus(),
                target,
                phase: Phase::Connecting,
                source_coherent: true,
            }
        } else {
            self
        }
    }

    pub open spec fn in_phase(self, expected: Phase) -> bool {
        self matches State::Preparing { phase, .. } && phase == expected
    }

    pub open spec fn advanced(self, expected: Phase, next: Phase) -> Self {
        match self {
            State::Preparing { source, target, phase, source_coherent } if phase == expected =>
                State::Preparing { source, target, phase: next, source_coherent },
            _ => self,
        }
    }

    pub open spec fn source_lost(self) -> Self {
        match self {
            State::Preparing { source, target, phase, .. } => State::Preparing {
                source,
                target,
                phase,
                source_coherent: false,
            },
            _ => self,
        }
    }

    pub open spec fn failed(self) -> Self {
        match self {
            State::Preparing { source, source_coherent, .. } => if source_coherent {
                State::Active(source)
            } else {
                State::Frozen { source }
            },
            _ => self,
        }
    }

    /// A handoff is committed only in its last phase and to the very attachment
    /// that it was begun for.
    pub open spec fn can_commit(self, current: AttachmentKey) -> bool {
        self matches State::Preparing { target, phase: Phase::Revalidating, .. } && target
            == current
    }

    pub open spec fn committed(self, current: AttachmentKey) -> Self {
        if self.can_commit(current) {
            State::Active(current)
        } else if self.in_phase(Phase::Revalidating) {
            self.failed()
        } else {
            self
        }
    }
}

impl Coordinator {
    pub fn new(active: AttachmentKey) -> (r: Self)
        ensures
            r@ == State::Active(active),
    {
        Coordinator { state: State::Active(active) }
    }

    pub fn active(&self) -> (r: AttachmentKey)
        ensures
            r == self@.focus(),
    {
        match self.state {
            State::Active(active) => active,
            State::Preparing { source, target: _, phase: _, source_coherent: _ } => source,
            State::Frozen { source } => source,
        }
    }

    /// Input, resize, selection, close, copy mode, and acknowledgements all use
    /// this same gate. Preparing and frozen states route nothing.
    pub fn permits(&self, key: AttachmentKey) -> (r: bool)
        ensures
            r == self@.routes(key),
    {
        match self.state {
            State::Active(active) => active == key,
            _ => false,
        }
    }

    pub fn begin(&mut self, target: AttachmentKey) -> (r: bool)
        ensures
            r == old(self)@.can_begin(target),
            final(self)@ == old(self)@.begun(target),
    {
        match self.state {
            State::Active(source) => {
                if source.machine == target.machine || target.generation.connection == 0 {
                    return false;
                }
                self.state = State::Preparing {
                    source,
                    target,
                    phase: Phase::Connecting,
                    source_coherent: true,
                };
                true
            },
            _ => false,
        }
    }

    pub fn advance(&mut self, expected: Phase, next: Phase) -> (r: bool)
        ensures
            r == old(self)@.in_phase(expected),
            final(self)@ == old(self)@.advanced(expected, next),
    {
        match self.state {
            State::Preparing { source, target, phase, source_coherent } => {
                if phase != expected {
                    return false;
                }
                self.state = State::Preparing { source, target, phase: next, source_coherent };
                true
            },
            _ => false,
        }
    }

    pub fn source_disconnected(&mut self)
        ensures
            final(self)@ == old(self)@.source_lost(),
    {
        if let State::Preparing { source, target, phase, source_coherent: _ } = self.state {
            self.state = State::Preparing { source, target, phase, source_coherent: false };
        }
    }

    pub fn fail(&mut self)
        ensures
            final(self)@ == old(self)@.failed(),
    {
        if let State::Preparing { source, target: _, phase: _, source_coherent } = self.state {
            self.state = if source_coherent {
                State::Active(source)
            } else {
                State::Frozen { source }
            };
        }
    }

    pub fn commit(&mut self, current: AttachmentKey) -> (r: bool)
        ensures
            r == old(self)@.can_commit(current),
            final(self)@ == old(self)@.committed(current),
    {
        match self.state {
            State::Preparing { source: _, target, phase, source_coherent: _ } => {
                if phase != Phase::Revalidating {
                    return false;
                }
                if target != current {
                    self.fail();
                    return false;
                }
                self.state = State::Active(target);
                true
            },
            _ => false,
        }
    }
}

// ---------------------------------------------------------------------------
// Laws

/// What may happen to a handoff.
pub enum Operation {
    Begin(AttachmentKey),
    Advance { expected: Phase, next: Phase },
    SourceDisconnected,
    Fail,
    Commit(AttachmentKey),
}

pub open spec fn performed(state: State, operation: Operation) -> State {
    match operation {
        Operation::Begin(target) => state.begun(target),
        Operation::Advance { expected, next } => state.advanced(expected, next),
        Operation::SourceDisconnected => state.source_lost(),
        Operation::Fail => state.failed(),
        Operation::Commit(current) => state.committed(current),
    }
}

pub open spec fn performed_all(state: State, operations: Seq<Operation>) -> State
    decreases operations.len(),
{
    if operations.len() == 0 {
        state
    } else {
        performed(performed_all(state, operations.drop_last()), operations.last())
    }
}

/// At most one attachment is routed at any time, and it has the focus.
pub proof fn law_one_attachment_is_routed(state: State, a: AttachmentKey, b: AttachmentKey)
    requires
        state.routes(a),
        state.routes(b),
    ensures
        a == b,
        a == state.focus(),
{
}

/// Nothing is routed while a handoff is prepared, in whatever phase, nor once it
/// is frozen.
pub proof fn law_a_pending_handoff_routes_nothing(state: State, key: AttachmentKey)
    requires
        !(state is Active),
    ensures
        !state.routes(key),
{
}

/// A failed handoff gives routing back to the source, or to nobody where the
/// source was lost meanwhile. Its candidate is never routed.
pub proof fn law_failure_restores_the_source_or_freezes(
    source: AttachmentKey,
    target: AttachmentKey,
    phase: Phase,
    source_coherent: bool,
    key: AttachmentKey,
)
    ensures
        ({
            let failed = (State::Preparing { source, target, phase, source_coherent }).failed();
            &&& failed.focus() == source
            &&& failed.routes(key) <==> source_coherent && key == source
        }),
{
}

/// A frozen handoff stays frozen, whatever is tried.
pub proof fn law_frozen_is_final(state: State, operations: Seq<Operation>)
    requires
        state is Frozen,
    ensures
        performed_all(state, operations) == state,
    decreases operations.len(),
{
    if operations.len() > 0 {
        law_frozen_is_final(state, operations.drop_last());
    }
}

/// Only a commit moves the focus, and only to the attachment that it names.
pub proof fn law_only_a_commit_moves_the_focus(state: State, operation: Operation)
    ensures
        performed(state, operation).focus() != state.focus() ==> (
        operation matches Operation::Commit(current) && state.can_commit(current) && performed(
            state,
            operation,
        ) == State::Active(current)),
{
}

/// No operation of these is a commit that succeeds.
pub open spec fn uncommitted(state: State, operations: Seq<Operation>) -> bool
    decreases operations.len(),
{
    operations.len() == 0 || {
        &&& uncommitted(state, operations.drop_last())
        &&& operations.last() matches Operation::Commit(current) ==> !performed_all(
            state,
            operations.drop_last(),
        ).can_commit(current)
    }
}

/// Before a commit nothing but the attachment that had the focus is ever routed,
/// whatever else happens, and the focus stays.
pub proof fn law_a_candidate_is_not_routed_before_commit(
    state: State,
    operations: Seq<Operation>,
    key: AttachmentKey,
)
    requires
        uncommitted(state, operations),
        performed_all(state, operations).routes(key),
    ensures
        key == state.focus(),
        performed_all(state, operations).focus() == state.focus(),
    decreases operations.len(),
{
    lemma_focus_stays(state, operations);
}

proof fn lemma_focus_stays(state: State, operations: Seq<Operation>)
    requires
        uncommitted(state, operations),
    ensures
        performed_all(state, operations).focus() == state.focus(),
    decreases operations.len(),
{
    if operations.len() > 0 {
        lemma_focus_stays(state, operations.drop_last());
        law_only_a_commit_moves_the_focus(
            performed_all(state, operations.drop_last()),
            operations.last(),
        );
    }
}

/// A handoff that goes through its phases in order and is not disturbed commits,
/// and from then on routes its target alone. A candidate that reconnected
/// meanwhile, and so has another generation, is refused and the source restored.
pub proof fn law_an_undisturbed_handoff_commits(
    source: AttachmentKey,
    target: AttachmentKey,
    current: AttachmentKey,
)
    requires
        source.machine != target.machine,
        target.generation.connection != 0,
    ensures
        ({
            let ready = State::Active(source).begun(target).advanced(
                Phase::Connecting,
                Phase::ValidatingView,
            ).advanced(Phase::ValidatingView, Phase::ApplyingGeometry).advanced(
                Phase::ApplyingGeometry,
                Phase::Revalidating,
            );
            if current == target {
                ready.committed(current) == State::Active(target)
            } else {
                ready.committed(current) == State::Active(source)
            }
        }),
{
}

/// A handoff begins exactly from an active attachment, to another machine whose
/// connection has started; it then prepares that target from its first phase, with
/// the source in order. Otherwise nothing changes.
pub proof fn law_a_handoff_begins_to_another_started_machine(
    source: AttachmentKey,
    target: AttachmentKey,
    state: State,
)
    ensures
        State::Active(source).can_begin(target) <==> source.machine != target.machine
            && target.generation.connection > 0,
        State::Active(source).can_begin(target) ==> State::Active(source).begun(target) == (
        State::Preparing { source, target, phase: Phase::Connecting, source_coherent: true }),
        !(state is Active) ==> !state.can_begin(target),
        !state.can_begin(target) ==> state.begun(target) == state,
{
}

/// A step ahead changes the phase alone, and only from the phase that was expected.
/// Losing the source is remembered while a handoff is prepared, and changes nothing
/// else.
pub proof fn law_preparing_keeps_source_and_target(
    source: AttachmentKey,
    target: AttachmentKey,
    phase: Phase,
    source_coherent: bool,
    expected: Phase,
    next: Phase,
    state: State,
)
    ensures
        ({
            let preparing = State::Preparing { source, target, phase, source_coherent };
            &&& preparing.in_phase(expected) <==> phase == expected
            &&& phase == expected ==> preparing.advanced(expected, next) == (State::Preparing {
                source,
                target,
                phase: next,
                source_coherent,
            })
            &&& phase != expected ==> preparing.advanced(expected, next) == preparing
            &&& preparing.source_lost() == (State::Preparing {
                source,
                target,
                phase,
                source_coherent: false,
            })
            &&& preparing.source_lost().failed() == (State::Frozen { source })
        }),
        !(state is Preparing) ==> {
            &&& !state.in_phase(expected)
            &&& state.advanced(expected, next) == state
            &&& state.source_lost() == state
            &&& state.failed() == state
        },
{
}

/// A commit succeeds exactly in the last phase and to the very attachment that the
/// handoff was begun for, whether or not the source was lost. In the last phase any
/// other attachment makes the handoff fail; before it, nothing changes.
pub proof fn law_a_commit_is_for_the_prepared_target(
    source: AttachmentKey,
    target: AttachmentKey,
    phase: Phase,
    source_coherent: bool,
    current: AttachmentKey,
    state: State,
)
    ensures
        ({
            let preparing = State::Preparing { source, target, phase, source_coherent };
            &&& preparing.can_commit(current) <==> phase == Phase::Revalidating && current == target
            &&& preparing.committed(current) == (if phase != Phase::Revalidating {
                preparing
            } else if current == target {
                State::Active(target)
            } else if source_coherent {
                State::Active(source)
            } else {
                State::Frozen { source }
            })
        }),
        !(state is Preparing) ==> !state.can_commit(current) && state.committed(current) == state,
{
}

/// An active attachment is routed, and has the focus.
pub proof fn law_the_active_attachment_is_routed(active: AttachmentKey)
    ensures
        State::Active(active).routes(active),
        State::Active(active).focus() == active,
{
}

} // verus!
