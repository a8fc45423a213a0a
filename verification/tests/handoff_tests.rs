use kernel_loader::LoadError;
use kernel_loader::handoff::{FirmwareEvent, HandoffAction, HandoffState, MAP_SLACK,
    MAX_EXIT_RETRIES, MAX_MAP_RETRIES, MapFirmware, handoff_start, handoff_step};

fn fresh_firmware(required: u64) -> MapFirmware {
    MapFirmware { required_size: required, map_key: 1, descriptor_size: 48, descriptor_version: 1 }
}

/// Drive the sequencer against the firmware model until it transfers
/// control or fails, performing each requested action. Allocating the map
/// buffer grows the map by `growth` bytes and invalidates the key, and the
/// first `stale_exits` exit calls report a stale key regardless.
fn run(
    fw: &mut MapFirmware,
    growth: u64,
    mut stale_exits: u32,
    max_steps: u32,
) -> (HandoffState, Vec<HandoffAction>) {
    let (mut state, first) = handoff_start();
    assert!(matches!(first, HandoffAction::QueryMapSize));
    let mut actions = Vec::new();
    let mut event = fw.query(0);
    for _ in 0..max_steps {
        let (next, action) = handoff_step(&state, &event);
        actions.push(action);
        state = next;
        event = match action {
            HandoffAction::QueryMapSize => fw.query(0),
            HandoffAction::QueryMap { buffer_size } => {
                fw.allocate(growth);
                fw.query(buffer_size)
            },
            HandoffAction::RefetchMap { buffer_size } => fw.query(buffer_size),
            HandoffAction::ExitBootServices { map_key } => {
                if stale_exits > 0 {
                    stale_exits -= 1;
                    FirmwareEvent::ExitStaleKey
                } else if map_key == fw.map_key {
                    FirmwareEvent::ExitOk
                } else {
                    FirmwareEvent::ExitStaleKey
                }
            },
            HandoffAction::TransferControl => return (state, actions),
            HandoffAction::Halt { .. } => return (state, actions),
        };
    }
    (state, actions)
}

#[test]
fn probe_allocate_fetch_succeeds_with_slack() {
    // The buffer allocation itself grows the map, by less than the slack;
    // the sequence must still settle in one fetch and exit.
    let mut fw = fresh_firmware(1000);
    let (state, actions) = run(&mut fw, 100, 0, 16);
    assert!(matches!(state, HandoffState::TransferredControl));
    let queries = actions
        .iter()
        .filter(|a| matches!(a, HandoffAction::QueryMap { .. }))
        .count();
    assert_eq!(queries, 1);
    assert!(matches!(actions[0], HandoffAction::QueryMap { buffer_size } if buffer_size == 1000 + MAP_SLACK));
}

#[test]
fn one_stale_key_causes_exactly_one_resnapshot() {
    let mut fw = fresh_firmware(1000);
    let (state, actions) = run(&mut fw, 0, 1, 16);
    assert!(matches!(state, HandoffState::TransferredControl));
    // One buffer allocation, one non-allocating refetch, two exit
    // attempts, one transfer — and never a second allocation.
    let allocations = actions
        .iter()
        .filter(|a| matches!(a, HandoffAction::QueryMap { .. }))
        .count();
    let refetches = actions
        .iter()
        .filter(|a| matches!(a, HandoffAction::RefetchMap { .. }))
        .count();
    let exits = actions
        .iter()
        .filter(|a| matches!(a, HandoffAction::ExitBootServices { .. }))
        .count();
    assert_eq!(allocations, 1);
    assert_eq!(refetches, 1);
    assert_eq!(exits, 2);
    assert!(matches!(actions[actions.len() - 1], HandoffAction::TransferControl));
}

#[test]
fn endless_stale_keys_fail_within_the_retry_bound() {
    let mut fw = fresh_firmware(1000);
    let (state, actions) = run(&mut fw, 0, u32::MAX, 64);
    assert!(matches!(
        state,
        HandoffState::Failed { error: LoadError::ExitServicesFailed }
    ));
    let refetches = actions
        .iter()
        .filter(|a| matches!(a, HandoffAction::RefetchMap { .. }))
        .count();
    assert_eq!(refetches as u32, MAX_EXIT_RETRIES);
}

#[test]
fn map_growing_faster_than_slack_fails_within_the_retry_bound() {
    // Every allocation grows the map by more than the slack, so no buffer
    // is ever large enough.
    let mut fw = fresh_firmware(1000);
    let (state, actions) = run(&mut fw, MAP_SLACK + 1, 0, 64);
    assert!(matches!(
        state,
        HandoffState::Failed { error: LoadError::MemoryMapUnavailable }
    ));
    let fetches = actions
        .iter()
        .filter(|a| matches!(a, HandoffAction::QueryMap { .. }))
        .count();
    assert!(fetches as u32 <= MAX_MAP_RETRIES + 1);
}

#[test]
fn probe_failure_is_fatal() {
    let (state, _) = handoff_start();
    let (next, action) = handoff_step(&state, &FirmwareEvent::MapQueryError);
    assert!(matches!(
        next,
        HandoffState::Failed { error: LoadError::MemoryMapUnavailable }
    ));
    assert!(matches!(
        action,
        HandoffAction::Halt { error: LoadError::MemoryMapUnavailable }
    ));
}

#[test]
fn exit_error_other_than_stale_key_is_fatal() {
    let mut fw = fresh_firmware(64);
    let probe = fw.query(0);
    let (s0, _) = handoff_start();
    let (s1, a1) = handoff_step(&s0, &probe);
    let buffer_size = match a1 {
        HandoffAction::QueryMap { buffer_size } => buffer_size,
        _ => panic!("expected a map fetch"),
    };
    fw.allocate(0);
    let (s2, a2) = handoff_step(&s1, &fw.query(buffer_size));
    assert!(matches!(a2, HandoffAction::ExitBootServices { .. }));
    let (s3, a3) = handoff_step(&s2, &FirmwareEvent::ExitError);
    assert!(matches!(
        s3,
        HandoffState::Failed { error: LoadError::ExitServicesFailed }
    ));
    assert!(matches!(
        a3,
        HandoffAction::Halt { error: LoadError::ExitServicesFailed }
    ));
}

#[test]
fn snapshot_phase_never_requests_an_allocation() {
    // From the snapshotted state onwards, no firmware answer may lead to a
    // buffer allocation: the only follow-ups are the exit, the
    // non-allocating refetch, the transfer, or a halt.
    let snap_state = {
        let mut fw = fresh_firmware(128);
        let (s0, _) = handoff_start();
        let (s1, a1) = handoff_step(&s0, &fw.query(0));
        let buffer_size = match a1 {
            HandoffAction::QueryMap { buffer_size } => buffer_size,
            _ => panic!("expected a map fetch"),
        };
        fw.allocate(0);
        let (s2, _) = handoff_step(&s1, &fw.query(buffer_size));
        s2
    };
    assert!(matches!(snap_state, HandoffState::Snapshotted { .. }));
    let events = [
        FirmwareEvent::ExitOk,
        FirmwareEvent::ExitStaleKey,
        FirmwareEvent::ExitError,
        FirmwareEvent::MapQueryError,
        FirmwareEvent::MapQueryTooSmall { required: 4096 },
    ];
    for ev in events.iter() {
        let (next, action) = handoff_step(&snap_state, ev);
        assert!(!matches!(action, HandoffAction::QueryMap { .. }));
        // The refetching state that a stale key leads to never allocates
        // either.
        let (_, follow_up) = handoff_step(&next, ev);
        assert!(!matches!(follow_up, HandoffAction::QueryMap { .. }));
    }
}

#[test]
fn map_outgrowing_its_buffer_during_retry_is_fatal() {
    // After a stale key the buffer cannot be regrown; if the map no longer
    // fits, the boot ends rather than allocating.
    let mut fw = fresh_firmware(1000);
    let (s0, _) = handoff_start();
    let (s1, a1) = handoff_step(&s0, &fw.query(0));
    let buffer_size = match a1 {
        HandoffAction::QueryMap { buffer_size } => buffer_size,
        _ => panic!("expected a map fetch"),
    };
    fw.allocate(0);
    let (s2, _) = handoff_step(&s1, &fw.query(buffer_size));
    let (s3, a3) = handoff_step(&s2, &FirmwareEvent::ExitStaleKey);
    assert!(matches!(a3, HandoffAction::RefetchMap { .. }));
    // The map meanwhile outgrew the held buffer.
    fw.allocate(2 * MAP_SLACK);
    let (s4, a4) = handoff_step(&s3, &fw.query(buffer_size));
    assert!(matches!(
        s4,
        HandoffState::Failed { error: LoadError::MemoryMapUnavailable }
    ));
    assert!(matches!(
        a4,
        HandoffAction::Halt { error: LoadError::MemoryMapUnavailable }
    ));
}
