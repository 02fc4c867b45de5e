//! Events: what servicing a host reports to the application.

use vstd::prelude::*;
use crate::packet::ENetPacket;

verus! {

/// The kinds of event.
#[derive(Copy, Clone, Debug, PartialEq, Eq, Structural)]
pub enum ENetEventType {
    /// Nothing happened.
    ENET_EVENT_TYPE_NONE,
    /// A connection was completed.
    ENET_EVENT_TYPE_CONNECT,
    /// A peer disconnected or timed out.
    ENET_EVENT_TYPE_DISCONNECT,
    /// A packet was received.
    ENET_EVENT_TYPE_RECEIVE,
}

impl ENetEventType {
    /// The number of the kind.
    pub fn value(&self) -> (r: u32)
        ensures
            r == match *self {
                ENetEventType::ENET_EVENT_TYPE_NONE => 0u32,
                ENetEventType::ENET_EVENT_TYPE_CONNECT => 1u32,
                ENetEventType::ENET_EVENT_TYPE_DISCONNECT => 2u32,
                ENetEventType::ENET_EVENT_TYPE_RECEIVE => 3u32,
            },
    {
        match self {
            ENetEventType::ENET_EVENT_TYPE_NONE => 0,
            ENetEventType::ENET_EVENT_TYPE_CONNECT => 1,
            ENetEventType::ENET_EVENT_TYPE_DISCONNECT => 2,
            ENetEventType::ENET_EVENT_TYPE_RECEIVE => 3,
        }
    }
}

/// One event. Every kind names the peer it is about, a channel and a number
/// that the other side supplied with its request.
#[derive(Debug)]
pub enum ENetEvent {
    NONE { peer: u16, channelID: u8, data: u32 },
    CONNECT { peer: u16, channelID: u8, data: u32 },
    DISCONNECT { peer: u16, channelID: u8, data: u32 },
    RECEIVE { peer: u16, channelID: u8, data: u32, packet: ENetPacket },
}

/// The kind of an event.
pub open spec fn spec_event_type(event: ENetEvent) -> ENetEventType {
    match event {
        ENetEvent::NONE { .. } => ENetEventType::ENET_EVENT_TYPE_NONE,
        ENetEvent::CONNECT { .. } => ENetEventType::ENET_EVENT_TYPE_CONNECT,
        ENetEvent::DISCONNECT { .. } => ENetEventType::ENET_EVENT_TYPE_DISCONNECT,
        ENetEvent::RECEIVE { .. } => ENetEventType::ENET_EVENT_TYPE_RECEIVE,
    }
}

/// The peer an event is about.
pub open spec fn spec_event_peer(event: ENetEvent) -> u16 {
    match event {
        ENetEvent::NONE { peer, .. } => peer,
        ENetEvent::CONNECT { peer, .. } => peer,
        ENetEvent::DISCONNECT { peer, .. } => peer,
        ENetEvent::RECEIVE { peer, .. } => peer,
    }
}

impl ENetEvent {
    /// The event that says nothing happened.
    pub fn none() -> (event: ENetEvent)
        ensures
            event == (ENetEvent::NONE { peer: 0, channelID: 0, data: 0 }),
    {
        ENetEvent::NONE { peer: 0, channelID: 0, data: 0 }
    }

    /// The kind of the event.
    pub fn event_type(&self) -> (kind: ENetEventType)
        ensures
            kind == spec_event_type(*self),
    {
        match self {
            ENetEvent::NONE { .. } => ENetEventType::ENET_EVENT_TYPE_NONE,
            ENetEvent::CONNECT { .. } => ENetEventType::ENET_EVENT_TYPE_CONNECT,
            ENetEvent::DISCONNECT { .. } => ENetEventType::ENET_EVENT_TYPE_DISCONNECT,
            ENetEvent::RECEIVE { .. } => ENetEventType::ENET_EVENT_TYPE_RECEIVE,
        }
    }

    /// The peer the event is about.
    pub fn peer(&self) -> (peer: u16)
        ensures
            peer == spec_event_peer(*self),
    {
        match self {
            ENetEvent::NONE { peer, .. } => *peer,
            ENetEvent::CONNECT { peer, .. } => *peer,
            ENetEvent::DISCONNECT { peer, .. } => *peer,
            ENetEvent::RECEIVE { peer, .. } => *peer,
        }
    }
}

} // verus!
