//! Handoffs between machines.

use fut::client::federation::{Generation, MachineId};
use fut::client::handoff::{AttachmentKey, Coordinator, Phase};
use uuid::Uuid;

fn key(machine: MachineId, connection: u64) -> AttachmentKey {
    AttachmentKey { machine, generation: Generation { supervisor: 1, connection } }
}

fn remote() -> MachineId {
    MachineId::Ssh(Uuid::new_v4().as_u128())
}

#[test]
fn every_precommit_phase_freezes_all_routing_and_failure_restores_source() {
    let source = key(MachineId::Local, 1);
    let target = key(remote(), 2);
    for failed_phase in [
        Phase::Connecting,
        Phase::ValidatingView,
        Phase::ApplyingGeometry,
        Phase::Revalidating,
    ] {
        let mut handoff = Coordinator::new(source);
        assert!(handoff.begin(target));
        for (from, to) in [
            (Phase::Connecting, Phase::ValidatingView),
            (Phase::ValidatingView, Phase::ApplyingGeometry),
            (Phase::ApplyingGeometry, Phase::Revalidating),
        ] {
            if from == failed_phase {
                break;
            }
            assert!(handoff.advance(from, to));
        }
        assert!(!handoff.permits(source));
        assert!(!handoff.permits(target));
        handoff.fail();
        assert!(handoff.permits(source));
        assert!(!handoff.permits(target));
    }
}

#[test]
fn commit_is_atomic_and_rejects_reconnected_candidate_generation() {
    let source = key(MachineId::Local, 1);
    let target = key(remote(), 2);
    let mut handoff = Coordinator::new(source);
    assert!(handoff.begin(target));
    assert!(handoff.advance(Phase::Connecting, Phase::ValidatingView));
    assert!(handoff.advance(Phase::ValidatingView, Phase::ApplyingGeometry));
    assert!(handoff.advance(Phase::ApplyingGeometry, Phase::Revalidating));
    assert!(!handoff.commit(key(target.machine, 3)));
    assert!(handoff.permits(source));

    assert!(handoff.begin(target));
    assert!(handoff.advance(Phase::Connecting, Phase::ValidatingView));
    assert!(handoff.advance(Phase::ValidatingView, Phase::ApplyingGeometry));
    assert!(handoff.advance(Phase::ApplyingGeometry, Phase::Revalidating));
    assert!(handoff.commit(target));
    assert!(!handoff.permits(source));
    assert!(handoff.permits(target));
}

#[test]
fn losing_source_and_candidate_remains_visibly_frozen() {
    let source = key(MachineId::Local, 1);
    let target = key(remote(), 2);
    let mut handoff = Coordinator::new(source);
    assert!(handoff.begin(target));
    handoff.source_disconnected();
    handoff.fail();
    assert_eq!(handoff.active(), source);
    assert!(!handoff.permits(source));
    assert!(!handoff.permits(target));
}

#[test]
fn a_handoff_needs_another_machine_and_a_started_connection() {
    let source = key(MachineId::Local, 1);
    let mut handoff = Coordinator::new(source);
    assert!(!handoff.begin(key(MachineId::Local, 2)));
    assert!(!handoff.begin(key(MachineId::Ssh(5), 0)));
    assert!(handoff.permits(source));
    assert!(handoff.begin(key(MachineId::Ssh(5), 1)));
    assert!(!handoff.begin(key(MachineId::Ssh(6), 1)));
}

#[test]
fn a_commit_before_the_last_phase_changes_nothing() {
    let source = key(MachineId::Local, 1);
    let target = key(MachineId::Ssh(5), 2);
    let mut handoff = Coordinator::new(source);
    assert!(!handoff.commit(target));
    assert!(handoff.begin(target));
    assert!(!handoff.commit(target));
    assert!(!handoff.advance(Phase::ApplyingGeometry, Phase::Revalidating));
    assert!(handoff.advance(Phase::Connecting, Phase::Revalidating));
    assert!(handoff.commit(target));
    assert_eq!(handoff.active(), target);
}

#[test]
fn a_frozen_handoff_stays_frozen() {
    let source = key(MachineId::Local, 1);
    let target = key(MachineId::Ssh(5), 2);
    let mut handoff = Coordinator::new(source);
    assert!(handoff.begin(target));
    handoff.source_disconnected();
    handoff.fail();
    let frozen = handoff;
    assert!(!handoff.begin(target));
    assert!(!handoff.commit(target));
    handoff.fail();
    handoff.source_disconnected();
    assert_eq!(handoff, frozen);
}
