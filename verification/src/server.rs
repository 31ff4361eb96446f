//! The event multiplexer and the processing turn.
//!
//! Datagram updates and timer ticks merge into one ordered stream.  On
//! every turn both sources are polled; if only one is ready its event is
//! processed, and if both are ready the update is applied first and the
//! eviction pass immediately after, within the same turn, so neither
//! event is dropped or delayed.  After every turn a snapshot of the
//! registry is produced for the downstream consumer; sending it, like all
//! I/O, is the embedding program's task.

use vstd::prelude::*;
use crate::interval::Dur;
use crate::registry::{
    Client, ClientData, ClientId, Clients, addrs_unique, expire_spec, snapshot, snapshot_spec,
    purge_old_clients, upsert, upsert_outcome,
};

verus! {

/// How often an eviction pass is due.
pub fn check_interval() -> (r: Dur)
    ensures
        r == (Dur { secs: 5, nanos: 0 }),
{
    Dur { secs: 5, nanos: 0 }
}

/// How long a silent client survives before eviction.
pub fn timeout() -> (r: Dur)
    ensures
        r == (Dur { secs: 30, nanos: 0 }),
{
    Dur { secs: 30, nanos: 0 }
}

/// The parsed but not yet numerically-interpreted payload of one
/// datagram: who sent it, and its ordered fields.
pub struct UpdateEvent {
    pub source: ClientId,
    pub fields: Vec<String>,
}

/// What one multiplexer turn found ready: an update alone, a tick alone,
/// or both at once.
pub enum TurnEvent {
    Ingest(UpdateEvent),
    Tick,
    Both(UpdateEvent),
}

/// Merges what the two sources reported on one turn.  Simultaneous
/// readiness yields a single turn carrying both events; a turn with
/// neither yields nothing and the loop suspends.
pub fn merge(update: Option<UpdateEvent>, tick: bool) -> (r: Option<TurnEvent>)
    ensures
        update is Some && tick ==> r == Some(TurnEvent::Both(update->0)),
        update is Some && !tick ==> r == Some(TurnEvent::Ingest(update->0)),
        update is None && tick ==> r == Some(TurnEvent::Tick),
        update is None && !tick ==> r is None,
{
    match update {
        Some(u) => if tick {
            Some(TurnEvent::Both(u))
        } else {
            Some(TurnEvent::Ingest(u))
        },
        None => if tick {
            Some(TurnEvent::Tick)
        } else {
            None
        },
    }
}

/// What the registry holds after one turn: the update applied for an
/// ingestion event, an eviction pass for a tick, and for simultaneous
/// events the update first and the eviction pass immediately after.
pub open spec fn turn_spec(
    s: Seq<Client>,
    event: TurnEvent,
    interpreted: Option<ClientData>,
    now: u64,
    timeout_ns: u64,
) -> Seq<Client> {
    match event {
        TurnEvent::Ingest(u) => upsert_outcome(s, u.source, u.fields@, interpreted, now),
        TurnEvent::Tick => expire_spec(s, now, timeout_ns),
        TurnEvent::Both(u) => expire_spec(
            upsert_outcome(s, u.source, u.fields@, interpreted, now),
            now,
            timeout_ns,
        ),
    }
}

/// Processes one merged event and produces the turn's snapshot.
/// `interpreted` is the embedding program's numeric reading of the
/// event's first two fields, absent where there are fewer than two or
/// where either failed to read as a number; it is ignored for a bare
/// tick.  Both simultaneous events take effect before the snapshot is
/// taken, so the snapshot reflects the new record and any evictions of
/// the same turn.
pub fn process_turn(
    clients: &mut Clients,
    event: TurnEvent,
    interpreted: Option<ClientData>,
    now: u64,
    timeout_ns: u64,
) -> (snap: Vec<ClientData>)
    requires
        addrs_unique(old(clients)@),
    ensures
        addrs_unique(final(clients)@),
        final(clients)@ == turn_spec(old(clients)@, event, interpreted, now, timeout_ns),
        snap@ == snapshot_spec(final(clients)@),
{
    match event {
        TurnEvent::Ingest(u) => {
            upsert(clients, u.source, &u.fields, interpreted, now);
        },
        TurnEvent::Tick => {
            purge_old_clients(clients, now, timeout_ns);
        },
        TurnEvent::Both(u) => {
            upsert(clients, u.source, &u.fields, interpreted, now);
            purge_old_clients(clients, now, timeout_ns);
        },
    }
    snapshot(clients)
}

} // verus!
