//! The memory-map and exit-services hand-off sequencer.
//!
//! The last phase of the boot is a strict, non-retryable sequence: probe the
//! size of the firmware's memory map, allocate a buffer with slack, fetch
//! the map and its key, call the irreversible exit with that key, and
//! transfer control. The one legal recovery is a stale-key answer from the
//! exit call: the map is then fetched again — into the buffer already held,
//! since nothing may allocate once a snapshot is awaiting its exit — and
//! the exit retried, a bounded number of times. The buffer-grow loop before
//! the first snapshot is bounded as well.
//!
//! The sequencer is a pure transition function from state and firmware
//! response to next state and next firmware request; whatever runs the boot
//! performs the request and feeds the response back. The one load-bearing
//! ordering rule — nothing may allocate between taking the snapshot and the
//! exit call — is a proved law: no transition out of the snapshotted or
//! refetching states ever requests an allocation.

use vstd::prelude::*;

use crate::LoadError;

verus! {

/// Extra bytes allocated beyond the reported map size, absorbing the growth
/// the buffer allocation itself causes.
pub const MAP_SLACK: u64 = 512;

/// How many times a still-too-small buffer is regrown before giving up.
pub const MAX_MAP_RETRIES: u32 = 4;

/// How many stale-key refetch-and-retry rounds are attempted before giving
/// up.
pub const MAX_EXIT_RETRIES: u32 = 4;

/// A captured memory map: the buffer that was allocated for it, what the
/// firmware wrote into it, and the key that proves it is current.
#[derive(Clone, Copy, Debug, PartialEq, Eq, Structural)]
pub struct MemoryMapSnapshot {
    /// Size of the buffer the map was fetched into.
    pub buffer_size: u64,
    /// Bytes of the buffer the firmware filled.
    pub map_size: u64,
    /// The logical timestamp of the map; any allocation invalidates it.
    pub map_key: u64,
    /// Size of one descriptor entry in the buffer.
    pub descriptor_size: u64,
    /// Layout version of the descriptor entries.
    pub descriptor_version: u32,
}

/// Where the sequencer stands.
#[derive(Clone, Copy, Debug, PartialEq, Eq, Structural)]
pub enum HandoffState {
    /// Asking the firmware how large the map is, with an empty buffer.
    Probing,
    /// A buffer of the recorded size is to be allocated and the map fetched
    /// into it.
    Allocated { buffer_size: u64, grow_retries: u32 },
    /// The map and its key are captured; the exit call is next, and nothing
    /// may allocate until it settles.
    Snapshotted { snapshot: MemoryMapSnapshot, exit_retries: u32 },
    /// The key went stale at the exit call: the map is fetched again into
    /// the buffer already held — allocating is no longer permitted.
    Refetching { buffer_size: u64, exit_retries: u32 },
    /// The exit succeeded and control belongs to the kernel.
    TransferredControl,
    /// The boot is over; the machine halts with this error.
    Failed { error: LoadError },
}

/// What the firmware answered to the sequencer's last request.
#[derive(Clone, Copy, Debug, PartialEq, Eq, Structural)]
pub enum FirmwareEvent {
    /// The map was written into the buffer.
    MapQueryOk { size_used: u64, map_key: u64, descriptor_size: u64, descriptor_version: u32 },
    /// The buffer is too small; `required` bytes are needed now.
    MapQueryTooSmall { required: u64 },
    /// The map query failed outright.
    MapQueryError,
    /// Boot services ended; only runtime services remain.
    ExitOk,
    /// The map key no longer matches: something allocated since the
    /// snapshot.
    ExitStaleKey,
    /// The exit call failed for any other reason.
    ExitError,
}

/// What the sequencer asks its driver to do next.
#[derive(Clone, Copy, Debug, PartialEq, Eq, Structural)]
pub enum HandoffAction {
    /// Query the map size with an empty buffer; allocates nothing.
    QueryMapSize,
    /// Allocate a buffer of this size and query the map into it.
    QueryMap { buffer_size: u64 },
    /// Query the map again into the buffer already held; allocates nothing.
    RefetchMap { buffer_size: u64 },
    /// Call the irreversible exit with this key.
    ExitBootServices { map_key: u64 },
    /// Jump to the kernel; there is no way back.
    TransferControl,
    /// Report the error and halt forever.
    Halt { error: LoadError },
}

/// The request an action makes of the firmware's allocator, if any: only
/// fetching the map into a fresh buffer allocates.
pub open spec fn action_allocates(a: HandoffAction) -> bool {
    a is QueryMap
}

/// The failure state and its halt, together.
pub open spec fn failed(error: LoadError) -> (HandoffState, HandoffAction) {
    (HandoffState::Failed { error }, HandoffAction::Halt { error })
}

/// The sequencer's transition function.
pub open spec fn spec_step(state: HandoffState, event: FirmwareEvent) -> (
    HandoffState,
    HandoffAction,
) {
    match state {
        HandoffState::Probing => match event {
            FirmwareEvent::MapQueryTooSmall { required } => {
                if required <= u64::MAX - MAP_SLACK {
                    (
                        HandoffState::Allocated {
                            buffer_size: (required + MAP_SLACK) as u64,
                            grow_retries: 0,
                        },
                        HandoffAction::QueryMap { buffer_size: (required + MAP_SLACK) as u64 },
                    )
                } else {
                    failed(LoadError::MemoryMapUnavailable)
                }
            },
            _ => failed(LoadError::MemoryMapUnavailable),
        },
        HandoffState::Allocated { buffer_size, grow_retries } => match event {
            FirmwareEvent::MapQueryOk { size_used, map_key, descriptor_size, descriptor_version }
                => (
                HandoffState::Snapshotted {
                    snapshot: MemoryMapSnapshot {
                        buffer_size,
                        map_size: size_used,
                        map_key,
                        descriptor_size,
                        descriptor_version,
                    },
                    exit_retries: 0,
                },
                HandoffAction::ExitBootServices { map_key },
            ),
            FirmwareEvent::MapQueryTooSmall { required } => {
                if grow_retries < MAX_MAP_RETRIES && required <= u64::MAX - MAP_SLACK {
                    (
                        HandoffState::Allocated {
                            buffer_size: (required + MAP_SLACK) as u64,
                            grow_retries: (grow_retries + 1) as u32,
                        },
                        HandoffAction::QueryMap { buffer_size: (required + MAP_SLACK) as u64 },
                    )
                } else {
                    failed(LoadError::MemoryMapUnavailable)
                }
            },
            _ => failed(LoadError::MemoryMapUnavailable),
        },
        HandoffState::Snapshotted { snapshot, exit_retries } => match event {
            FirmwareEvent::ExitOk => (
                HandoffState::TransferredControl,
                HandoffAction::TransferControl,
            ),
            FirmwareEvent::ExitStaleKey => {
                if exit_retries < MAX_EXIT_RETRIES {
                    (
                        HandoffState::Refetching {
                            buffer_size: snapshot.buffer_size,
                            exit_retries: (exit_retries + 1) as u32,
                        },
                        HandoffAction::RefetchMap { buffer_size: snapshot.buffer_size },
                    )
                } else {
                    failed(LoadError::ExitServicesFailed)
                }
            },
            _ => failed(LoadError::ExitServicesFailed),
        },
        HandoffState::Refetching { buffer_size, exit_retries } => match event {
            FirmwareEvent::MapQueryOk { size_used, map_key, descriptor_size, descriptor_version }
                => (
                HandoffState::Snapshotted {
                    snapshot: MemoryMapSnapshot {
                        buffer_size,
                        map_size: size_used,
                        map_key,
                        descriptor_size,
                        descriptor_version,
                    },
                    exit_retries,
                },
                HandoffAction::ExitBootServices { map_key },
            ),
            // Growing the buffer would take an allocation, which is barred
            // once a snapshot has been taken: a map that no longer fits the
            // held buffer ends the boot.
            _ => failed(LoadError::MemoryMapUnavailable),
        },
        HandoffState::TransferredControl => (
            HandoffState::TransferredControl,
            HandoffAction::TransferControl,
        ),
        HandoffState::Failed { error } => (
            HandoffState::Failed { error },
            HandoffAction::Halt { error },
        ),
    }
}

/// Where a boot begins: the probing state, and the empty-buffer size probe
/// as the first request.
pub open spec fn spec_start() -> (HandoffState, HandoffAction) {
    (HandoffState::Probing, HandoffAction::QueryMapSize)
}

/// Begin the hand-off: the sequencer's initial state and its first
/// firmware request.
pub fn handoff_start() -> (r: (HandoffState, HandoffAction))
    ensures
        r == spec_start(),
{
    (HandoffState::Probing, HandoffAction::QueryMapSize)
}

/// Advance the sequencer by one firmware response.
pub fn handoff_step(state: &HandoffState, event: &FirmwareEvent) -> (r: (
    HandoffState,
    HandoffAction,
))
    ensures
        r == spec_step(*state, *event),
{
    match *state {
        HandoffState::Probing => match *event {
            FirmwareEvent::MapQueryTooSmall { required } => {
                if required <= u64::MAX - MAP_SLACK {
                    let buffer_size = required + MAP_SLACK;
                    (
                        HandoffState::Allocated { buffer_size, grow_retries: 0 },
                        HandoffAction::QueryMap { buffer_size },
                    )
                } else {
                    halt(LoadError::MemoryMapUnavailable)
                }
            },
            _ => halt(LoadError::MemoryMapUnavailable),
        },
        HandoffState::Allocated { buffer_size, grow_retries } => match *event {
            FirmwareEvent::MapQueryOk { size_used, map_key, descriptor_size, descriptor_version }
                => (
                HandoffState::Snapshotted {
                    snapshot: MemoryMapSnapshot {
                        buffer_size,
                        map_size: size_used,
                        map_key,
                        descriptor_size,
                        descriptor_version,
                    },
                    exit_retries: 0,
                },
                HandoffAction::ExitBootServices { map_key },
            ),
            FirmwareEvent::MapQueryTooSmall { required } => {
                if grow_retries < MAX_MAP_RETRIES && required <= u64::MAX - MAP_SLACK {
                    let new_size = required + MAP_SLACK;
                    (
                        HandoffState::Allocated {
                            buffer_size: new_size,
                            grow_retries: grow_retries + 1,
                        },
                        HandoffAction::QueryMap { buffer_size: new_size },
                    )
                } else {
                    halt(LoadError::MemoryMapUnavailable)
                }
            },
            _ => halt(LoadError::MemoryMapUnavailable),
        },
        HandoffState::Snapshotted { snapshot, exit_retries } => match *event {
            FirmwareEvent::ExitOk => (
                HandoffState::TransferredControl,
                HandoffAction::TransferControl,
            ),
            FirmwareEvent::ExitStaleKey => {
                if exit_retries < MAX_EXIT_RETRIES {
                    (
                        HandoffState::Refetching {
                            buffer_size: snapshot.buffer_size,
                            exit_retries: exit_retries + 1,
                        },
                        HandoffAction::RefetchMap { buffer_size: snapshot.buffer_size },
                    )
                } else {
                    halt(LoadError::ExitServicesFailed)
                }
            },
            _ => halt(LoadError::ExitServicesFailed),
        },
        HandoffState::Refetching { buffer_size, exit_retries } => match *event {
            FirmwareEvent::MapQueryOk { size_used, map_key, descriptor_size, descriptor_version }
                => (
                HandoffState::Snapshotted {
                    snapshot: MemoryMapSnapshot {
                        buffer_size,
                        map_size: size_used,
                        map_key,
                        descriptor_size,
                        descriptor_version,
                    },
                    exit_retries,
                },
                HandoffAction::ExitBootServices { map_key },
            ),
            _ => halt(LoadError::MemoryMapUnavailable),
        },
        HandoffState::TransferredControl => (
            HandoffState::TransferredControl,
            HandoffAction::TransferControl,
        ),
        HandoffState::Failed { error } => (
            HandoffState::Failed { error },
            HandoffAction::Halt { error },
        ),
    }
}

/// The failure state and its halt, together.
fn halt(error: LoadError) -> (r: (HandoffState, HandoffAction))
    ensures
        r == failed(error),
{
    (HandoffState::Failed { error }, HandoffAction::Halt { error })
}

/// The one load-bearing ordering rule of the hand-off: from the moment a
/// snapshot is taken until the exit call settles — through any stale-key
/// refetch — no transition requests an allocation.
pub proof fn lemma_no_allocation_after_snapshot(state: HandoffState, event: FirmwareEvent)
    requires
        state is Snapshotted || state is Refetching,
    ensures
        !action_allocates(spec_step(state, event).1),
        spec_step(state, event).0 is Snapshotted || spec_step(state, event).0 is Refetching
            || spec_step(state, event).0 is TransferredControl || spec_step(state, event).0
            is Failed,
{
}

/// One stale key, then success: from a fresh snapshot, a stale-key answer
/// causes exactly one re-snapshot — a single non-allocating refetch into
/// the buffer already held — and the following exit transfers control.
pub proof fn lemma_exit_retry_once(snapshot: MemoryMapSnapshot, ok: FirmwareEvent)
    requires
        ok is MapQueryOk,
    ensures
        ({
            let s0 = HandoffState::Snapshotted { snapshot, exit_retries: 0 };
            let (s1, a1) = spec_step(s0, FirmwareEvent::ExitStaleKey);
            let (s2, a2) = spec_step(s1, ok);
            let (s3, a3) = spec_step(s2, FirmwareEvent::ExitOk);
            &&& s1 == HandoffState::Refetching {
                buffer_size: snapshot.buffer_size,
                exit_retries: 1u32,
            }
            &&& a1 == HandoffAction::RefetchMap { buffer_size: snapshot.buffer_size }
            &&& !action_allocates(a1)
            &&& s2 is Snapshotted
            &&& a2 == HandoffAction::ExitBootServices { map_key: ok->MapQueryOk_map_key }
            &&& s3 == HandoffState::TransferredControl
            &&& a3 == HandoffAction::TransferControl
        }),
{
}

/// A model of the firmware's memory-map service, for driving the sequencer
/// without a machine: the map currently needs `required_size` bytes and is
/// stamped `map_key`; every allocation may grow the map and always advances
/// the key.
pub struct MapFirmware {
    /// Bytes the map needs right now.
    pub required_size: u64,
    /// The current logical timestamp of the map.
    pub map_key: u64,
    /// Descriptor entry size the firmware reports.
    pub descriptor_size: u64,
    /// Descriptor layout version the firmware reports.
    pub descriptor_version: u32,
}

/// What a map query with a buffer of `buffer_size` bytes answers.
pub open spec fn spec_query(fw: MapFirmware, buffer_size: u64) -> FirmwareEvent {
    if buffer_size < fw.required_size {
        FirmwareEvent::MapQueryTooSmall { required: fw.required_size }
    } else {
        FirmwareEvent::MapQueryOk {
            size_used: fw.required_size,
            map_key: fw.map_key,
            descriptor_size: fw.descriptor_size,
            descriptor_version: fw.descriptor_version,
        }
    }
}

impl MapFirmware {
    /// Query the memory map with a buffer of `buffer_size` bytes: too small
    /// a buffer is answered with the required size, a sufficient one with
    /// the map and its current key.
    pub fn query(&self, buffer_size: u64) -> (ev: FirmwareEvent)
        ensures
            ev == spec_query(*self, buffer_size),
    {
        if buffer_size < self.required_size {
            FirmwareEvent::MapQueryTooSmall { required: self.required_size }
        } else {
            FirmwareEvent::MapQueryOk {
                size_used: self.required_size,
                map_key: self.map_key,
                descriptor_size: self.descriptor_size,
                descriptor_version: self.descriptor_version,
            }
        }
    }

    /// Allocating anything — the map buffer included — may grow the map by
    /// `growth` bytes and always invalidates the current key.
    pub fn allocate(&mut self, growth: u64)
        requires
            old(self).required_size + growth <= u64::MAX,
            old(self).map_key < u64::MAX,
        ensures
            final(self).required_size == old(self).required_size + growth,
            final(self).map_key == old(self).map_key + 1,
            final(self).descriptor_size == old(self).descriptor_size,
            final(self).descriptor_version == old(self).descriptor_version,
    {
        self.required_size = self.required_size + growth;
        self.map_key = self.map_key + 1;
    }
}

/// The probe-allocate-fetch protocol is sound: when a probe reported that
/// `n` bytes are needed and the allocation of the buffer grew the map by at
/// most the slack, a query with any buffer of at least `n + MAP_SLACK`
/// bytes succeeds.
pub proof fn lemma_probe_then_query_succeeds(
    before: MapFirmware,
    after: MapFirmware,
    buffer_size: u64,
)
    requires
        spec_query(before, 0) is MapQueryTooSmall,
        spec_query(before, 0)->MapQueryTooSmall_required + MAP_SLACK <= u64::MAX,
        after.required_size <= before.required_size + MAP_SLACK,
        buffer_size >= spec_query(before, 0)->MapQueryTooSmall_required + MAP_SLACK,
    ensures
        spec_query(after, buffer_size) is MapQueryOk,
        spec_query(after, buffer_size)->MapQueryOk_size_used == after.required_size,
{
}

} // verus!
