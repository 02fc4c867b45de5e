//! What the application asks of a peer: to send a packet, to ping, to
//! change its settings.

use vstd::prelude::*;
use crate::constants::ENET_PEER_PING_INTERVAL;
use crate::constants::ENET_PEER_TIMEOUT_LIMIT;
use crate::constants::ENET_PEER_TIMEOUT_MAXIMUM;
use crate::constants::ENET_PEER_TIMEOUT_MINIMUM;
use crate::dispatch::spec_other_peers_same;
use crate::fragment::enet_fragment_count;
use crate::fragment::spec_fragment_count;
use crate::fragment::spec_fragment_data;
use crate::fragment::spec_fragment_offset;
use crate::host::ENetHost;
use crate::host::spec_host_wf;
use crate::incoming::lemma_channel_update_wf;
use crate::incoming::lemma_peer_update_wf;
use crate::ledger::enet_host_next_queue_time;
use crate::ledger::enet_peer_queue_control_command;
use crate::ledger::lemma_queue_push_wf;
use crate::ledger::spec_command_weight;
use crate::ledger::spec_control_command;
use crate::ledger::spec_ping_command;
use crate::packet::ENetPacket;
use crate::packet::ENET_PACKET_FLAG_RELIABLE;
use crate::packet::ENET_PACKET_FLAG_UNRELIABLE_FRAGMENT;
use crate::packet::ENET_PACKET_FLAG_UNSEQUENCED;
use crate::packet::spec_flag;
use crate::peer::ENetOutgoingCommand;
use crate::peer::ENetPeer;
use crate::peer::ENetPeerState;
use crate::peer::spec_peer_wf;
use crate::protocol::ENetProtocol;
use crate::protocol::ENetProtocolBody;
use crate::protocol::ENetProtocolCommandHeader;
use crate::protocol::ENetProtocolPing;
use crate::protocol::ENetProtocolSendFragment;
use crate::protocol::ENetProtocolSendReliable;
use crate::protocol::ENetProtocolSendUnreliable;
use crate::protocol::ENetProtocolSendUnsequenced;
use crate::protocol::ENetProtocolThrottleConfigure;
use crate::protocol::enet_protocol_command_size;
use crate::sequence::spec_seq_add;
use crate::window::enet_channel_reserve_fragments;
use crate::window::enet_channel_reserve_reliable;
use crate::window::spec_reserve;
use crate::window::spec_reserve_many;
use crate::window::enet_channel_can_reserve;
use crate::window::lemma_reserve_one;
use crate::channel::ChannelView;
use crate::fragment::lemma_fragment_bounds;
use crate::incoming::enet_copy_payload;

verus! {

/// Why a packet was not taken for sending.
#[derive(Copy, Clone, Debug, PartialEq, Eq, Structural)]
pub enum ENetSendError {
    /// The peer is not connected.
    NotConnected,
    /// The peer has no such channel.
    InvalidChannel,
    /// The packet is larger than the host allows.
    PacketTooLarge,
    /// The packet would take more fragments than the protocol can number.
    TooManyFragments,
    /// The channel's window is full: sending would run further ahead of the
    /// acknowledgements than the receiver looks.
    WindowFull,
}

/// How a packet goes out, by its size and its flags.
#[derive(Copy, Clone, Debug, PartialEq, Eq, Structural)]
pub enum ENetSendMode {
    Reliable,
    Unreliable,
    Unsequenced,
    ReliableFragments,
    UnreliableFragments,
}

/// The data one command can carry to a peer with the datagram size `mtu`:
/// what is left of a datagram after its header and a fragment command.
pub open spec fn spec_fragment_length(mtu: u32) -> int {
    mtu - 28
}

/// How a packet with the flags `flags` and `length` bytes goes out to a
/// peer with the datagram size `mtu`.
///
/// A packet that fits one command goes as one command: unsequenced where it
/// asks for that and not for reliability, reliable where it asks for that,
/// else unreliable. A larger packet goes as fragments, reliable ones unless
/// it asks for unreliable fragments and not for reliability.
pub open spec fn spec_send_mode(flags: u32, length: int, mtu: u32) -> ENetSendMode {
    let reliable = spec_flag(flags, ENET_PACKET_FLAG_RELIABLE);
    if length > spec_fragment_length(mtu) {
        if !reliable && spec_flag(flags, ENET_PACKET_FLAG_UNRELIABLE_FRAGMENT) {
            ENetSendMode::UnreliableFragments
        } else {
            ENetSendMode::ReliableFragments
        }
    } else if !reliable && spec_flag(flags, ENET_PACKET_FLAG_UNSEQUENCED) {
        ENetSendMode::Unsequenced
    } else if reliable {
        ENetSendMode::Reliable
    } else {
        ENetSendMode::Unreliable
    }
}

/// How a packet goes out.
pub fn enet_send_mode(flags: u32, length: usize, mtu: u32) -> (mode: ENetSendMode)
    requires
        576 <= mtu <= 4096,
    ensures
        mode == spec_send_mode(flags, length as int, mtu),
{
    let reliable: bool = flags & ENET_PACKET_FLAG_RELIABLE != 0;
    if length > (mtu - 28) as usize {
        if !reliable && flags & ENET_PACKET_FLAG_UNRELIABLE_FRAGMENT != 0 {
            ENetSendMode::UnreliableFragments
        } else {
            ENetSendMode::ReliableFragments
        }
    } else if !reliable && flags & ENET_PACKET_FLAG_UNSEQUENCED != 0 {
        ENetSendMode::Unsequenced
    } else if reliable {
        ENetSendMode::Reliable
    } else {
        ENetSendMode::Unreliable
    }
}

/// The command that carries a whole packet, by the way the packet goes out.
pub open spec fn spec_data_command(
    mode: ENetSendMode,
    channelID: u8,
    reliable: u16,
    unreliable: u16,
    group: u16,
    length: u16,
) -> ENetProtocol {
    ENetProtocol {
        header: ENetProtocolCommandHeader {
            acknowledge: mode is Reliable,
            unsequenced: mode is Unsequenced,
            channelID,
            reliableSequenceNumber: reliable,
        },
        body: match mode {
            ENetSendMode::Reliable => ENetProtocolBody::SendReliable(
                ENetProtocolSendReliable { dataLength: length },
            ),
            ENetSendMode::Unsequenced => ENetProtocolBody::SendUnsequenced(
                ENetProtocolSendUnsequenced { unsequencedGroup: group, dataLength: length },
            ),
            _ => ENetProtocolBody::SendUnreliable(
                ENetProtocolSendUnreliable {
                    unreliableSequenceNumber: unreliable,
                    dataLength: length,
                },
            ),
        },
    }
}

/// The command that carries fragment number `number` of a packet.
pub open spec fn spec_fragment_command(
    reliable: bool,
    channelID: u8,
    sequence: u16,
    start: u16,
    length: u16,
    count: u32,
    number: u32,
    total: u32,
    offset: u32,
) -> ENetProtocol {
    let body = ENetProtocolSendFragment {
        startSequenceNumber: start,
        dataLength: length,
        fragmentCount: count,
        fragmentNumber: number,
        totalLength: total,
        fragmentOffset: offset,
    };
    ENetProtocol {
        header: ENetProtocolCommandHeader {
            acknowledge: reliable,
            unsequenced: false,
            channelID,
            reliableSequenceNumber: sequence,
        },
        body: if reliable {
            ENetProtocolBody::SendFragment(body)
        } else {
            ENetProtocolBody::SendUnreliableFragment(body)
        },
    }
}

/// Queues one command that carries data. A reliable one waits in the queue
/// of reliable packets, any other one in the other queue.
pub fn enet_peer_queue_data_command(
    peer: &mut ENetPeer,
    command: ENetProtocol,
    unreliableSequenceNumber: u16,
    fragmentOffset: u32,
    packet: ENetPacket,
    queueTime: u32,
)
    requires
        spec_peer_wf(*old(peer)),
        !(command.body is Empty),
        crate::protocol::spec_body_data_length(command.body) == packet.data@.len(),
    ensures
        spec_peer_wf(*final(peer)),
        ({
            let c = ENetOutgoingCommand {
                reliableSequenceNumber: command.header.reliableSequenceNumber,
                unreliableSequenceNumber,
                sentTime: 0,
                roundTripTimeout: 0,
                queueTime,
                fragmentOffset,
                fragmentLength: packet.data@.len() as u16,
                sendAttempts: 0,
                command,
                packet: Some(packet),
            };
            &&& final(peer).outgoingSendReliableCommands@ == (if command.header.acknowledge {
                old(peer).outgoingSendReliableCommands@.push(c)
            } else {
                old(peer).outgoingSendReliableCommands@
            })
            &&& final(peer).outgoingCommands@ == (if command.header.acknowledge {
                old(peer).outgoingCommands@
            } else {
                old(peer).outgoingCommands@.push(c)
            })
        }),
        command.header.acknowledge ==> final(peer).outgoingCommands == old(peer).outgoingCommands,
        !command.header.acknowledge ==> final(peer).outgoingSendReliableCommands == old(peer).outgoingSendReliableCommands,
        *final(peer) == (ENetPeer {
            outgoingSendReliableCommands: final(peer).outgoingSendReliableCommands,
            outgoingCommands: final(peer).outgoingCommands,
            outgoingDataTotal: old(peer).outgoingDataTotal.wrapping_add(
                spec_command_weight(command.body, packet.data@.len() as int),
            ),
            ..*old(peer)
        }),
{
    let size: usize = enet_protocol_command_size(command.body.kind().number());
    let length: u16 = command.body.data_length();
    peer.outgoingDataTotal = peer.outgoingDataTotal.wrapping_add((size + length as usize) as u32);
    let c = ENetOutgoingCommand {
        reliableSequenceNumber: command.header.reliableSequenceNumber,
        unreliableSequenceNumber,
        sentTime: 0,
        roundTripTimeout: 0,
        queueTime,
        fragmentOffset,
        fragmentLength: length,
        sendAttempts: 0,
        command,
        packet: Some(packet),
    };
    if command.header.acknowledge {
        proof {
            lemma_queue_push_wf(peer.outgoingSendReliableCommands@, c);
        }
        peer.outgoingSendReliableCommands.push_back(c);
    } else {
        proof {
            lemma_queue_push_wf(peer.outgoingCommands@, c);
        }
        peer.outgoingCommands.push_back(c);
    }
}

/// Asks the other side to answer, so that the connection is seen to be
/// alive. Nothing is queued for a peer that is not connected.
pub fn enet_peer_ping(host: &mut ENetHost, incomingPeerID: u16)
    requires
        spec_host_wf(*old(host)),
        incomingPeerID < old(host).peers@.len(),
    ensures
        spec_host_wf(*final(host)),
        spec_other_peers_same(old(host).peers@, final(host).peers@, incomingPeerID as int),
        old(host).peers@[incomingPeerID as int].state
            != ENetPeerState::ENET_PEER_STATE_CONNECTED ==> *final(host) == *old(host),
        old(host).peers@[incomingPeerID as int].state
            == ENetPeerState::ENET_PEER_STATE_CONNECTED ==> {
            let p = old(host).peers@[incomingPeerID as int];
            let q = final(host).peers@[incomingPeerID as int];
            &&& q.outgoingCommands@ == p.outgoingCommands@.push(
                spec_control_command(
                    spec_ping_command(),
                    p.outgoingReliableSequenceNumber.wrapping_add(1),
                    old(host).totalQueued.wrapping_add(1),
                ),
            )
            &&& q == (ENetPeer {
                outgoingCommands: q.outgoingCommands,
                outgoingReliableSequenceNumber: p.outgoingReliableSequenceNumber.wrapping_add(1),
                outgoingDataTotal: p.outgoingDataTotal.wrapping_add(4),
                ..p
            })
            &&& *final(host) == (ENetHost {
                peers: final(host).peers,
                totalQueued: old(host).totalQueued.wrapping_add(1),
                ..*old(host)
            })
        },
{
    let connected: bool = match host.peers[incomingPeerID as usize].state {
        ENetPeerState::ENET_PEER_STATE_CONNECTED => true,
        _ => false,
    };
    if !connected {
        return ;
    }
    let queueTime: u32 = enet_host_next_queue_time(host);
    let ghost before = *host;
    let ping = ENetProtocol {
        header: ENetProtocolCommandHeader {
            acknowledge: true,
            unsequenced: false,
            channelID: 0xFF,
            reliableSequenceNumber: 0,
        },
        body: ENetProtocolBody::Ping(ENetProtocolPing {  }),
    };
    enet_peer_queue_control_command(&mut host.peers[incomingPeerID as usize], ping, queueTime);
    proof {
        lemma_peer_update_wf(before, *host, incomingPeerID as int);
    }
}

/// Sets how long a connection may be quiet before a ping is sent; zero
/// stands for the default.
pub fn enet_peer_ping_interval(peer: &mut ENetPeer, pingInterval: u32)
    ensures
        *final(peer) == (ENetPeer {
            pingInterval: if pingInterval == 0 {
                ENET_PEER_PING_INTERVAL
            } else {
                pingInterval
            },
            ..*old(peer)
        }),
{
    peer.pingInterval = if pingInterval == 0 {
        ENET_PEER_PING_INTERVAL
    } else {
        pingInterval
    };
}

/// Sets the timeout policy of a peer: the limit of attempts, and the
/// shortest and the longest silence after which the peer counts as gone.
/// Zero stands for the default of each.
pub fn enet_peer_timeout(
    peer: &mut ENetPeer,
    timeoutLimit: u32,
    timeoutMinimum: u32,
    timeoutMaximum: u32,
)
    ensures
        *final(peer) == (ENetPeer {
            timeoutLimit: if timeoutLimit == 0 {
                ENET_PEER_TIMEOUT_LIMIT
            } else {
                timeoutLimit
            },
            timeoutMinimum: if timeoutMinimum == 0 {
                ENET_PEER_TIMEOUT_MINIMUM
            } else {
                timeoutMinimum
            },
            timeoutMaximum: if timeoutMaximum == 0 {
                ENET_PEER_TIMEOUT_MAXIMUM
            } else {
                timeoutMaximum
            },
            ..*old(peer)
        }),
{
    peer.timeoutLimit = if timeoutLimit == 0 {
        ENET_PEER_TIMEOUT_LIMIT
    } else {
        timeoutLimit
    };
    peer.timeoutMinimum = if timeoutMinimum == 0 {
        ENET_PEER_TIMEOUT_MINIMUM
    } else {
        timeoutMinimum
    };
    peer.timeoutMaximum = if timeoutMaximum == 0 {
        ENET_PEER_TIMEOUT_MAXIMUM
    } else {
        timeoutMaximum
    };
}

/// The command that tells the other side the throttle settings.
pub open spec fn spec_throttle_command(interval: u32, acceleration: u32, deceleration: u32)
    -> ENetProtocol {
    ENetProtocol {
        header: ENetProtocolCommandHeader {
            acknowledge: true,
            unsequenced: false,
            channelID: 0xFF,
            reliableSequenceNumber: 0,
        },
        body: ENetProtocolBody::ThrottleConfigure(
            ENetProtocolThrottleConfigure {
                packetThrottleInterval: interval,
                packetThrottleAcceleration: acceleration,
                packetThrottleDeceleration: deceleration,
            },
        ),
    }
}

/// Sets how the peer's throttle moves, and tells the other side.
pub fn enet_peer_throttle_configure(
    host: &mut ENetHost,
    incomingPeerID: u16,
    interval: u32,
    acceleration: u32,
    deceleration: u32,
)
    requires
        spec_host_wf(*old(host)),
        incomingPeerID < old(host).peers@.len(),
    ensures
        spec_host_wf(*final(host)),
        spec_other_peers_same(old(host).peers@, final(host).peers@, incomingPeerID as int),
        ({
            let p = old(host).peers@[incomingPeerID as int];
            let q = final(host).peers@[incomingPeerID as int];
            &&& q.outgoingCommands@ == p.outgoingCommands@.push(
                spec_control_command(
                    spec_throttle_command(interval, acceleration, deceleration),
                    p.outgoingReliableSequenceNumber.wrapping_add(1),
                    old(host).totalQueued.wrapping_add(1),
                ),
            )
            &&& q == (ENetPeer {
                outgoingCommands: q.outgoingCommands,
                outgoingReliableSequenceNumber: p.outgoingReliableSequenceNumber.wrapping_add(1),
                outgoingDataTotal: p.outgoingDataTotal.wrapping_add(16),
                packetThrottleInterval: interval,
                packetThrottleAcceleration: acceleration,
                packetThrottleDeceleration: deceleration,
                ..p
            })
        }),
        *final(host) == (ENetHost {
            peers: final(host).peers,
            totalQueued: old(host).totalQueued.wrapping_add(1),
            ..*old(host)
        }),
{
    let queueTime: u32 = enet_host_next_queue_time(host);
    let ghost before = *host;
    let peer = &mut host.peers[incomingPeerID as usize];
    peer.packetThrottleInterval = interval;
    peer.packetThrottleAcceleration = acceleration;
    peer.packetThrottleDeceleration = deceleration;
    let command = ENetProtocol {
        header: ENetProtocolCommandHeader {
            acknowledge: true,
            unsequenced: false,
            channelID: 0xFF,
            reliableSequenceNumber: 0,
        },
        body: ENetProtocolBody::ThrottleConfigure(
            ENetProtocolThrottleConfigure {
                packetThrottleInterval: interval,
                packetThrottleAcceleration: acceleration,
                packetThrottleDeceleration: deceleration,
            },
        ),
    };
    enet_peer_queue_control_command(peer, command, queueTime);
    proof {
        lemma_peer_update_wf(before, *host, incomingPeerID as int);
    }
}

/// Whether `c` is the queued command for fragment number `number` of a
/// packet with the bytes `data` and the flags `flags`, cut into pieces of
/// `fragmentLength` bytes.
///
/// The command carries the bytes of its piece, states where the piece
/// starts and how long it is, and names the packet by the number the
/// packet's first fragment has. A reliable fragment has a number of its own,
/// the packet's first number and the fragment's number on; an unreliable one
/// carries the channel's present reliable number.
pub open spec fn spec_is_fragment(
    c: ENetOutgoingCommand,
    number: int,
    reliable: bool,
    channelID: u8,
    start: u16,
    standing: u16,
    data: Seq<u8>,
    fragmentLength: int,
    flags: u32,
    queueTime: u32,
) -> bool {
    let count = spec_fragment_count(data.len() as int, fragmentLength);
    let offset = spec_fragment_offset(fragmentLength, number);
    let piece = spec_fragment_data(data, fragmentLength, number);
    let sequence = if reliable {
        spec_seq_add(start, number)
    } else {
        standing
    };
    &&& c.packet matches Some(p) && p.flags == flags && p.data@ == piece
    &&& c == (ENetOutgoingCommand {
        reliableSequenceNumber: sequence,
        unreliableSequenceNumber: if reliable {
            0
        } else {
            start
        },
        sentTime: 0,
        roundTripTimeout: 0,
        queueTime: ((queueTime as int + number) % 0x1_0000_0000) as u32,
        fragmentOffset: offset as u32,
        fragmentLength: piece.len() as u16,
        sendAttempts: 0,
        command: spec_fragment_command(
            reliable,
            channelID,
            sequence,
            start,
            piece.len() as u16,
            count as u32,
            number as u32,
            data.len() as u32,
            offset as u32,
        ),
        packet: c.packet,
    })
}

/// Whether `added` are the queued commands for the fragments of a packet,
/// one for each fragment, in order.
pub open spec fn spec_are_fragments(
    added: Seq<ENetOutgoingCommand>,
    reliable: bool,
    channelID: u8,
    start: u16,
    standing: u16,
    data: Seq<u8>,
    fragmentLength: int,
    flags: u32,
    queueTime: u32,
) -> bool {
    &&& added.len() == spec_fragment_count(data.len() as int, fragmentLength)
    &&& forall|i: int|
        0 <= i < added.len() ==> spec_is_fragment(
            #[trigger] added[i],
            i,
            reliable,
            channelID,
            start,
            standing,
            data,
            fragmentLength,
            flags,
            queueTime,
        )
}

/// The count of the data queued for a peer in an interval, after a packet
/// of `total` bytes was queued as `count` fragments: each fragment counts
/// with its command and its data.
pub open spec fn spec_fragments_weight(base: u32, count: int, total: int) -> u32 {
    ((base as int + 24 * count + total) % 0x1_0000_0000) as u32
}

/// Queues the fragments of a packet, one command for each.
pub fn enet_peer_queue_fragments(
    peer: &mut ENetPeer,
    channelID: u8,
    data: &[u8],
    flags: u32,
    reliable: bool,
    start: u16,
    standing: u16,
    queueTime: u32,
)
    requires
        spec_peer_wf(*old(peer)),
        spec_fragment_length(old(peer).mtu) < data@.len() <= u32::MAX,
        spec_fragment_count(data@.len() as int, spec_fragment_length(old(peer).mtu))
            <= 0x10_0000,
    ensures
        spec_peer_wf(*final(peer)),
        ({
            let length = spec_fragment_length(old(peer).mtu);
            let count = spec_fragment_count(data@.len() as int, length);
            let before = if reliable {
                old(peer).outgoingSendReliableCommands@
            } else {
                old(peer).outgoingCommands@
            };
            let after = if reliable {
                final(peer).outgoingSendReliableCommands@
            } else {
                final(peer).outgoingCommands@
            };
            &&& after.len() == before.len() + count
            &&& after.take(before.len() as int) == before
            &&& spec_are_fragments(
                after.skip(before.len() as int),
                reliable,
                channelID,
                start,
                standing,
                data@,
                length,
                flags,
                queueTime,
            )
        }),
        reliable ==> final(peer).outgoingCommands == old(peer).outgoingCommands,
        !reliable ==> final(peer).outgoingSendReliableCommands == old(peer).outgoingSendReliableCommands,
        *final(peer) == (ENetPeer {
            outgoingSendReliableCommands: final(peer).outgoingSendReliableCommands,
            outgoingCommands: final(peer).outgoingCommands,
            outgoingDataTotal: spec_fragments_weight(
                old(peer).outgoingDataTotal,
                spec_fragment_count(data@.len() as int, spec_fragment_length(old(peer).mtu)),
                data@.len() as int,
            ),
            ..*old(peer)
        }),
{
    let length: usize = (peer.mtu - 28) as usize;
    let total: usize = data.len();
    let count: usize = enet_fragment_count(total, length);
    let ghost before = if reliable {
        peer.outgoingSendReliableCommands@
    } else {
        peer.outgoingCommands@
    };
    let ghost mut added: Seq<ENetOutgoingCommand> = Seq::empty();
    let mut number: usize = 0;
    let mut offset: usize = 0;
    let ghost mut bytes: int = 0;
    proof {
        assert(before + added =~= before);
    }
    while number < count
        invariant
            spec_peer_wf(*peer),
            0 <= bytes <= total,
            number < count ==> bytes == offset,
            number == count ==> bytes == total,
            peer.outgoingDataTotal == spec_fragments_weight(
                old(peer).outgoingDataTotal,
                number as int,
                bytes,
            ),
            length == spec_fragment_length(old(peer).mtu),
            length > 0,
            total == data@.len(),
            0 < total <= u32::MAX,
            count == spec_fragment_count(total as int, length as int),
            count <= 0x10_0000,
            0 <= number <= count,
            number < count ==> offset == spec_fragment_offset(length as int, number as int),
            before == (if reliable {
                old(peer).outgoingSendReliableCommands@
            } else {
                old(peer).outgoingCommands@
            }),
            reliable ==> peer.outgoingCommands == old(peer).outgoingCommands,
            !reliable ==> peer.outgoingSendReliableCommands == old(peer).outgoingSendReliableCommands,
            (if reliable {
                peer.outgoingSendReliableCommands@
            } else {
                peer.outgoingCommands@
            }) == before + added,
            added.len() == number,
            forall|i: int|
                0 <= i < number ==> spec_is_fragment(
                    #[trigger] added[i],
                    i,
                    reliable,
                    channelID,
                    start,
                    standing,
                    data@,
                    length as int,
                    flags,
                    queueTime,
                ),
            *peer == (ENetPeer {
                outgoingSendReliableCommands: peer.outgoingSendReliableCommands,
                outgoingCommands: peer.outgoingCommands,
                outgoingDataTotal: peer.outgoingDataTotal,
                ..*old(peer)
            }),
        decreases count - number,
    {
        proof {
            lemma_fragment_bounds(total as int, length as int, number as int);
        }
        let piece_length: usize = if total - offset < length {
            total - offset
        } else {
            length
        };
        let piece: Vec<u8> = enet_copy_payload(data, offset, piece_length);
        assert(piece@ =~= spec_fragment_data(data@, length as int, number as int));
        let sequence: u16 = if reliable {
            ((start as usize + number) % 0x1_0000) as u16
        } else {
            standing
        };
        let fragment = ENetProtocolSendFragment {
            startSequenceNumber: start,
            dataLength: piece_length as u16,
            fragmentCount: count as u32,
            fragmentNumber: number as u32,
            totalLength: total as u32,
            fragmentOffset: offset as u32,
        };
        let command = ENetProtocol {
            header: ENetProtocolCommandHeader {
                acknowledge: reliable,
                unsequenced: false,
                channelID,
                reliableSequenceNumber: sequence,
            },
            body: if reliable {
                ENetProtocolBody::SendFragment(fragment)
            } else {
                ENetProtocolBody::SendUnreliableFragment(fragment)
            },
        };
        let ghost earlier = added;
        enet_peer_queue_data_command(
            peer,
            command,
            if reliable {
                0
            } else {
                start
            },
            offset as u32,
            ENetPacket { flags, data: piece },
            queueTime.wrapping_add(number as u32),
        );
        proof {
            let after = if reliable {
                peer.outgoingSendReliableCommands@
            } else {
                peer.outgoingCommands@
            };
            let c = after[after.len() - 1];
            added = earlier.push(c);
            assert(after =~= before + added);
            assert(spec_is_fragment(
                c,
                number as int,
                reliable,
                channelID,
                start,
                standing,
                data@,
                length as int,
                flags,
                queueTime,
            ));
            assert forall|i: int| 0 <= i < number + 1 implies spec_is_fragment(
                #[trigger] added[i],
                i,
                reliable,
                channelID,
                start,
                standing,
                data@,
                length as int,
                flags,
                queueTime,
            ) by {
                if i < number {
                    assert(added[i] == earlier[i]);
                }
            }
        }
        proof {
            assert(spec_command_weight(command.body, piece_length as int) == 24 + piece_length);
            bytes = bytes + piece_length;
        }
        number = number + 1;
        if number < count {
            proof {
                lemma_fragment_bounds(total as int, length as int, number as int);
            }
            offset = offset + length;
        }
    }
    proof {
        let after = if reliable {
            peer.outgoingSendReliableCommands@
        } else {
            peer.outgoingCommands@
        };
        assert(after.skip(before.len() as int) =~= added);
        assert(after.take(before.len() as int) =~= before);
        assert(spec_are_fragments(
            added,
            reliable,
            channelID,
            start,
            standing,
            data@,
            length as int,
            flags,
            queueTime,
        ));
    }
}

/// Whether a packet is taken for sending, and if not, why.
///
/// The peer must be connected and have the channel; the packet must not be
/// larger than the host allows, nor take more fragments than can be
/// numbered; and the channel's window must have room for every reliable
/// command the packet needs.
pub open spec fn spec_send_verdict(
    h: ENetHost,
    id: int,
    channelID: u8,
    flags: u32,
    length: int,
) -> Result<(), ENetSendError> {
    let p = h.peers@[id];
    let mode = spec_send_mode(flags, length, p.mtu);
    let count = spec_fragment_count(length, spec_fragment_length(p.mtu));
    let fragmented = mode is ReliableFragments || mode is UnreliableFragments;
    if p.state != ENetPeerState::ENET_PEER_STATE_CONNECTED {
        Err(ENetSendError::NotConnected)
    } else if channelID >= p.channels@.len() {
        Err(ENetSendError::InvalidChannel)
    } else if length > h.maximumPacketSize || length > u32::MAX {
        Err(ENetSendError::PacketTooLarge)
    } else if fragmented && count > 0x10_0000 {
        Err(ENetSendError::TooManyFragments)
    } else if mode is Reliable && spec_reserve(p.channels@[channelID as int]@) is None {
        Err(ENetSendError::WindowFull)
    } else if mode is ReliableFragments && spec_reserve_many(
        p.channels@[channelID as int]@,
        count as nat,
    ) is None {
        Err(ENetSendError::WindowFull)
    } else {
        Ok(())
    }
}

/// The number of commands a packet is queued as.
pub open spec fn spec_send_commands(flags: u32, length: int, mtu: u32) -> int {
    let mode = spec_send_mode(flags, length, mtu);
    if mode is ReliableFragments || mode is UnreliableFragments {
        spec_fragment_count(length, spec_fragment_length(mtu))
    } else {
        1
    }
}

/// The channel after a packet has been queued on it.
///
/// A reliable packet takes the next reliable number, or as many as it has
/// fragments. An unreliable packet, whole or in fragments, takes the next
/// unreliable number. An unsequenced packet takes no number of the channel.
pub open spec fn spec_channel_after_send(ch: ChannelView, mode: ENetSendMode, count: int)
    -> ChannelView {
    match mode {
        ENetSendMode::Reliable => spec_reserve(ch)->0,
        ENetSendMode::ReliableFragments => spec_reserve_many(ch, count as nat)->0,
        ENetSendMode::Unsequenced => ch,
        _ => ChannelView {
            outgoingUnreliableSequenceNumber: ch.outgoingUnreliableSequenceNumber.wrapping_add(1),
            ..ch
        },
    }
}

/// The whole-packet command as it is queued.
pub open spec fn spec_queued_packet(
    p: ENetPeer,
    ch: ChannelView,
    mode: ENetSendMode,
    channelID: u8,
    packet: ENetPacket,
    queueTime: u32,
) -> ENetOutgoingCommand {
    let reliable: u16 = if mode is Reliable {
        spec_seq_add(ch.outgoingReliableSequenceNumber, 1)
    } else if mode is Unsequenced {
        0
    } else {
        ch.outgoingReliableSequenceNumber
    };
    let unreliable: u16 = if mode is Unreliable {
        ch.outgoingUnreliableSequenceNumber.wrapping_add(1)
    } else {
        0
    };
    ENetOutgoingCommand {
        reliableSequenceNumber: reliable,
        unreliableSequenceNumber: unreliable,
        sentTime: 0,
        roundTripTimeout: 0,
        queueTime,
        fragmentOffset: 0,
        fragmentLength: packet.data@.len() as u16,
        sendAttempts: 0,
        command: spec_data_command(
            mode,
            channelID,
            reliable,
            unreliable,
            p.outgoingUnsequencedGroup.wrapping_add(1),
            packet.data@.len() as u16,
        ),
        packet: Some(packet),
    }
}

/// What queuing a packet does to the peer.
pub open spec fn spec_packet_queued(
    before: ENetPeer,
    after: ENetPeer,
    channelID: u8,
    packet: ENetPacket,
    queueTime: u32,
) -> bool {
    let mode = spec_send_mode(packet.flags, packet.data@.len() as int, before.mtu);
    let length = spec_fragment_length(before.mtu);
    let count = spec_fragment_count(packet.data@.len() as int, length);
    let ch = before.channels@[channelID as int]@;
    let reliable = mode is Reliable || mode is ReliableFragments;
    let waiting = if reliable {
        before.outgoingSendReliableCommands@
    } else {
        before.outgoingCommands@
    };
    let grown = if reliable {
        after.outgoingSendReliableCommands@
    } else {
        after.outgoingCommands@
    };
    &&& after.channels@.len() == before.channels@.len()
    &&& forall|i: int|
        0 <= i < before.channels@.len() ==> (#[trigger] after.channels@[i])@ == (if i
            == channelID {
            spec_channel_after_send(ch, mode, count)
        } else {
            before.channels@[i]@
        })
    &&& reliable ==> after.outgoingCommands == before.outgoingCommands
    &&& !reliable ==> after.outgoingSendReliableCommands == before.outgoingSendReliableCommands
    &&& (mode is ReliableFragments || mode is UnreliableFragments) ==> {
        &&& grown.len() == waiting.len() + count
        &&& grown.take(waiting.len() as int) == waiting
        &&& spec_are_fragments(
            grown.skip(waiting.len() as int),
            mode is ReliableFragments,
            channelID,
            if mode is ReliableFragments {
                spec_seq_add(ch.outgoingReliableSequenceNumber, 1)
            } else {
                ch.outgoingUnreliableSequenceNumber.wrapping_add(1)
            },
            ch.outgoingReliableSequenceNumber,
            packet.data@,
            length,
            packet.flags,
            queueTime,
        )
    }
    &&& !(mode is ReliableFragments || mode is UnreliableFragments) ==> grown == waiting.push(
        spec_queued_packet(before, ch, mode, channelID, packet, queueTime),
    )
    &&& after == (ENetPeer {
        channels: after.channels,
        outgoingSendReliableCommands: after.outgoingSendReliableCommands,
        outgoingCommands: after.outgoingCommands,
        outgoingDataTotal: if mode is ReliableFragments || mode is UnreliableFragments {
            spec_fragments_weight(before.outgoingDataTotal, count, packet.data@.len() as int)
        } else {
            before.outgoingDataTotal.wrapping_add(
                spec_command_weight(
                    spec_queued_packet(before, ch, mode, channelID, packet, queueTime).command.body,
                    packet.data@.len() as int,
                ),
            )
        },
        outgoingUnsequencedGroup: if mode is Unsequenced {
            before.outgoingUnsequencedGroup.wrapping_add(1)
        } else {
            before.outgoingUnsequencedGroup
        },
        ..before
    })
}

/// Queues a packet for sending to a peer on one of its channels.
///
/// A packet that does not fit one datagram is split into fragments. A
/// packet that cannot be taken changes nothing.
pub fn enet_peer_send(
    host: &mut ENetHost,
    incomingPeerID: u16,
    channelID: u8,
    packet: ENetPacket,
) -> (sent: Result<(), ENetSendError>)
    requires
        spec_host_wf(*old(host)),
        incomingPeerID < old(host).peers@.len(),
    ensures
        spec_host_wf(*final(host)),
        sent == spec_send_verdict(
            *old(host),
            incomingPeerID as int,
            channelID,
            packet.flags,
            packet.data@.len() as int,
        ),
        sent is Err ==> *final(host) == *old(host),
        sent is Ok ==> {
            &&& spec_other_peers_same(old(host).peers@, final(host).peers@, incomingPeerID as int)
            &&& spec_packet_queued(
                old(host).peers@[incomingPeerID as int],
                final(host).peers@[incomingPeerID as int],
                channelID,
                packet,
                old(host).totalQueued.wrapping_add(1),
            )
            &&& *final(host) == (ENetHost {
                peers: final(host).peers,
                totalQueued: ((old(host).totalQueued as int + spec_send_commands(
                    packet.flags,
                    packet.data@.len() as int,
                    old(host).peers@[incomingPeerID as int].mtu,
                )) % 0x1_0000_0000) as u32,
                ..*old(host)
            })
        },
{
    let connected: bool = match host.peers[incomingPeerID as usize].state {
        ENetPeerState::ENET_PEER_STATE_CONNECTED => true,
        _ => false,
    };
    if !connected {
        return Err(ENetSendError::NotConnected);
    }
    if channelID as usize >= host.peers[incomingPeerID as usize].channels.len() {
        return Err(ENetSendError::InvalidChannel);
    }
    let total: usize = packet.data.len();
    if total > host.maximumPacketSize || total as u64 > u32::MAX as u64 {
        return Err(ENetSendError::PacketTooLarge);
    }
    let mtu: u32 = host.peers[incomingPeerID as usize].mtu;
    let mode = enet_send_mode(packet.flags, total, mtu);
    let length: usize = (mtu - 28) as usize;
    let fragmented: bool = match mode {
        ENetSendMode::ReliableFragments => true,
        ENetSendMode::UnreliableFragments => true,
        _ => false,
    };
    let mut count: usize = 1;
    if fragmented {
        count = enet_fragment_count(total, length);
        if count > 0x10_0000 {
            return Err(ENetSendError::TooManyFragments);
        }
    }
    let ghost ch = host.peers@[incomingPeerID as int].channels@[channelID as int]@;
    proof {
        lemma_reserve_one(ch);
    }
    let needs_window: bool = match mode {
        ENetSendMode::Reliable => true,
        ENetSendMode::ReliableFragments => true,
        _ => false,
    };
    if needs_window && !enet_channel_can_reserve(
        &host.peers[incomingPeerID as usize].channels[channelID as usize],
        count as u32,
    ) {
        return Err(ENetSendError::WindowFull);
    }
    let queueTime: u32 = host.totalQueued.wrapping_add(1);
    host.totalQueued = host.totalQueued.wrapping_add(count as u32);
    let ghost before = *host;
    let peer = &mut host.peers[incomingPeerID as usize];
    let ghost channels = peer.channels@;
    let ghost mut added: Seq<ENetOutgoingCommand> = Seq::empty();
    let ghost first: u16 = if mode is ReliableFragments {
        spec_seq_add(ch.outgoingReliableSequenceNumber, 1)
    } else {
        ch.outgoingUnreliableSequenceNumber.wrapping_add(1)
    };
    match mode {
        ENetSendMode::Reliable => {
            let reserved = enet_channel_reserve_reliable(&mut peer.channels[channelID as usize]);
            let sequence: u16 = reserved.unwrap();
            proof {
                lemma_channel_update_wf(channels, peer.channels@, channelID as int);
            }
            let command = ENetProtocol {
                header: ENetProtocolCommandHeader {
                    acknowledge: true,
                    unsequenced: false,
                    channelID,
                    reliableSequenceNumber: sequence,
                },
                body: ENetProtocolBody::SendReliable(
                    ENetProtocolSendReliable { dataLength: total as u16 },
                ),
            };
            enet_peer_queue_data_command(peer, command, 0, 0, packet, queueTime);
        },
        ENetSendMode::Unreliable => {
            let channel = &mut peer.channels[channelID as usize];
            channel.outgoingUnreliableSequenceNumber =
                channel.outgoingUnreliableSequenceNumber.wrapping_add(1);
            let unreliable: u16 = channel.outgoingUnreliableSequenceNumber;
            let standing: u16 = channel.outgoingReliableSequenceNumber;
            proof {
                lemma_channel_update_wf(channels, peer.channels@, channelID as int);
            }
            let command = ENetProtocol {
                header: ENetProtocolCommandHeader {
                    acknowledge: false,
                    unsequenced: false,
                    channelID,
                    reliableSequenceNumber: standing,
                },
                body: ENetProtocolBody::SendUnreliable(
                    ENetProtocolSendUnreliable {
                        unreliableSequenceNumber: unreliable,
                        dataLength: total as u16,
                    },
                ),
            };
            enet_peer_queue_data_command(peer, command, unreliable, 0, packet, queueTime);
        },
        ENetSendMode::Unsequenced => {
            peer.outgoingUnsequencedGroup = peer.outgoingUnsequencedGroup.wrapping_add(1);
            let command = ENetProtocol {
                header: ENetProtocolCommandHeader {
                    acknowledge: false,
                    unsequenced: true,
                    channelID,
                    reliableSequenceNumber: 0,
                },
                body: ENetProtocolBody::SendUnsequenced(
                    ENetProtocolSendUnsequenced {
                        unsequencedGroup: peer.outgoingUnsequencedGroup,
                        dataLength: total as u16,
                    },
                ),
            };
            enet_peer_queue_data_command(peer, command, 0, 0, packet, queueTime);
        },
        ENetSendMode::ReliableFragments => {
            let standing: u16 = peer.channels[channelID as usize].outgoingReliableSequenceNumber;
            let reserved = enet_channel_reserve_fragments(
                &mut peer.channels[channelID as usize],
                count as u32,
            );
            let start: u16 = reserved.unwrap();
            proof {
                crate::window::lemma_reserve_many_frame(ch, count as nat);
                lemma_channel_update_wf(channels, peer.channels@, channelID as int);
            }
            let ghost waiting = peer.outgoingSendReliableCommands@;
            enet_peer_queue_fragments(
                peer,
                channelID,
                packet.data.as_slice(),
                packet.flags,
                true,
                start,
                standing,
                queueTime,
            );
            proof {
                added = peer.outgoingSendReliableCommands@.skip(waiting.len() as int);
                assert(spec_are_fragments(
                    added,
                    true,
                    channelID,
                    first,
                    ch.outgoingReliableSequenceNumber,
                    packet.data@,
                    length as int,
                    packet.flags,
                    queueTime,
                ));
            }
        },
        ENetSendMode::UnreliableFragments => {
            let channel = &mut peer.channels[channelID as usize];
            channel.outgoingUnreliableSequenceNumber =
                channel.outgoingUnreliableSequenceNumber.wrapping_add(1);
            let unreliable: u16 = channel.outgoingUnreliableSequenceNumber;
            let standing: u16 = channel.outgoingReliableSequenceNumber;
            proof {
                lemma_channel_update_wf(channels, peer.channels@, channelID as int);
            }
            let ghost waiting = peer.outgoingCommands@;
            enet_peer_queue_fragments(
                peer,
                channelID,
                packet.data.as_slice(),
                packet.flags,
                false,
                unreliable,
                standing,
                queueTime,
            );
            proof {
                added = peer.outgoingCommands@.skip(waiting.len() as int);
                assert(spec_are_fragments(
                    added,
                    false,
                    channelID,
                    first,
                    ch.outgoingReliableSequenceNumber,
                    packet.data@,
                    length as int,
                    packet.flags,
                    queueTime,
                ));
            }
        },
    }
    proof {
        lemma_peer_update_wf(before, *host, incomingPeerID as int);
        let p = old(host).peers@[incomingPeerID as int];
        let q = host.peers@[incomingPeerID as int];
        let reliable = mode is Reliable || mode is ReliableFragments;
        let waiting = if reliable {
            p.outgoingSendReliableCommands@
        } else {
            p.outgoingCommands@
        };
        let grown = if reliable {
            q.outgoingSendReliableCommands@
        } else {
            q.outgoingCommands@
        };
        assert(p == before.peers@[incomingPeerID as int]);
        assert forall|i: int| 0 <= i < p.channels@.len() implies (#[trigger] q.channels@[i])@ == (
        if i == channelID {
            spec_channel_after_send(ch, mode, count as int)
        } else {
            p.channels@[i]@
        }) by {
            if i != channelID {
                assert(q.channels@[i] == channels[i]);
            }
        }
        if fragmented {
            assert(grown.skip(waiting.len() as int) == added);
        }
    }
    Ok(())
}

} // verus!
