//! What the engine decides about its datagram socket.
//!
//! The socket itself belongs to the embedding program. Here are the parts of
//! the socket operations that compute: which address to bind, what an option
//! means, how a list of buffers becomes one datagram and how one datagram is
//! spread over a list of buffers, and what a wait returns.

use vstd::prelude::*;
use crate::address::ENetAddress;
use crate::address::ENetSocketAddress;
use crate::address::spec_is_ipv4;
use crate::bytes::append_bytes;
use crate::bytes::copy_bytes;
use crate::bytes::spec_overwrite;

verus! {

/// What the system calls a socket that is none.
pub const INVALID_SOCKET: isize = -1;

/// The socket that is none.
pub const ENET_SOCKET_NULL: isize = -1;

/// What the system returns when a call on a socket failed.
pub const SOCKET_ERROR: i32 = -1;

/// The kinds of socket.
pub enum ENetSocketType {
    ENET_SOCKET_TYPE_STREAM,
    ENET_SOCKET_TYPE_DATAGRAM,
}

impl ENetSocketType {
    /// The number the socket interface knows the type by.
    pub fn value(&self) -> (r: u32)
        ensures
            r == match *self {
                ENetSocketType::ENET_SOCKET_TYPE_STREAM => 1u32,
                ENetSocketType::ENET_SOCKET_TYPE_DATAGRAM => 2u32,
            },
    {
        match self {
            ENetSocketType::ENET_SOCKET_TYPE_STREAM => 1,
            ENetSocketType::ENET_SOCKET_TYPE_DATAGRAM => 2,
        }
    }
}

/// The conditions a wait can ask for and report, one bit each.
pub enum ENetSocketWait {
    ENET_SOCKET_WAIT_NONE,
    ENET_SOCKET_WAIT_SEND,
    ENET_SOCKET_WAIT_RECEIVE,
    ENET_SOCKET_WAIT_INTERRUPT,
}

/// Waiting for nothing.
pub const ENET_SOCKET_WAIT_NONE: u32 = 0;

/// Waiting until the socket can send.
pub const ENET_SOCKET_WAIT_SEND: u32 = 1;

/// Waiting until the socket has something to receive.
pub const ENET_SOCKET_WAIT_RECEIVE: u32 = 2;

/// The wait was interrupted.
pub const ENET_SOCKET_WAIT_INTERRUPT: u32 = 4;

impl ENetSocketWait {
    /// The bit of the condition.
    pub fn value(&self) -> (r: u32)
        ensures
            r == match *self {
                ENetSocketWait::ENET_SOCKET_WAIT_NONE => 0u32,
                ENetSocketWait::ENET_SOCKET_WAIT_SEND => 1u32,
                ENetSocketWait::ENET_SOCKET_WAIT_RECEIVE => 2u32,
                ENetSocketWait::ENET_SOCKET_WAIT_INTERRUPT => 4u32,
            },
    {
        match self {
            ENetSocketWait::ENET_SOCKET_WAIT_NONE => 0,
            ENetSocketWait::ENET_SOCKET_WAIT_SEND => 1,
            ENetSocketWait::ENET_SOCKET_WAIT_RECEIVE => 2,
            ENetSocketWait::ENET_SOCKET_WAIT_INTERRUPT => 4,
        }
    }
}

/// The options of a socket that can be set.
pub enum ENetSocketOption {
    ENET_SOCKOPT_NONBLOCK,
    ENET_SOCKOPT_BROADCAST,
    ENET_SOCKOPT_RCVBUF,
    ENET_SOCKOPT_SNDBUF,
    ENET_SOCKOPT_REUSEADDR,
    ENET_SOCKOPT_RCVTIMEO,
    ENET_SOCKOPT_SNDTIMEO,
    ENET_SOCKOPT_ERROR,
    ENET_SOCKOPT_NODELAY,
    ENET_SOCKOPT_TTL,
    ENET_SOCKOPT_IPV6_ONLY,
}

impl ENetSocketOption {
    /// The number of the option, counted from one.
    pub fn value(&self) -> (r: u32)
        ensures
            r == match *self {
                ENetSocketOption::ENET_SOCKOPT_NONBLOCK => 1u32,
                ENetSocketOption::ENET_SOCKOPT_BROADCAST => 2u32,
                ENetSocketOption::ENET_SOCKOPT_RCVBUF => 3u32,
                ENetSocketOption::ENET_SOCKOPT_SNDBUF => 4u32,
                ENetSocketOption::ENET_SOCKOPT_REUSEADDR => 5u32,
                ENetSocketOption::ENET_SOCKOPT_RCVTIMEO => 6u32,
                ENetSocketOption::ENET_SOCKOPT_SNDTIMEO => 7u32,
                ENetSocketOption::ENET_SOCKOPT_ERROR => 8u32,
                ENetSocketOption::ENET_SOCKOPT_NODELAY => 9u32,
                ENetSocketOption::ENET_SOCKOPT_TTL => 10u32,
                ENetSocketOption::ENET_SOCKOPT_IPV6_ONLY => 11u32,
            },
    {
        match self {
            ENetSocketOption::ENET_SOCKOPT_NONBLOCK => 1,
            ENetSocketOption::ENET_SOCKOPT_BROADCAST => 2,
            ENetSocketOption::ENET_SOCKOPT_RCVBUF => 3,
            ENetSocketOption::ENET_SOCKOPT_SNDBUF => 4,
            ENetSocketOption::ENET_SOCKOPT_REUSEADDR => 5,
            ENetSocketOption::ENET_SOCKOPT_RCVTIMEO => 6,
            ENetSocketOption::ENET_SOCKOPT_SNDTIMEO => 7,
            ENetSocketOption::ENET_SOCKOPT_ERROR => 8,
            ENetSocketOption::ENET_SOCKOPT_NODELAY => 9,
            ENetSocketOption::ENET_SOCKOPT_TTL => 10,
            ENetSocketOption::ENET_SOCKOPT_IPV6_ONLY => 11,
        }
    }
}

/// The directions in which a socket can be shut down.
pub enum ENetSocketShutdown {
    ENET_SOCKET_SHUTDOWN_READ,
    ENET_SOCKET_SHUTDOWN_WRITE,
    ENET_SOCKET_SHUTDOWN_READ_WRITE,
}

impl ENetSocketShutdown {
    /// The number of the direction, counted from zero.
    pub fn value(&self) -> (r: u32)
        ensures
            r == match *self {
                ENetSocketShutdown::ENET_SOCKET_SHUTDOWN_READ => 0u32,
                ENetSocketShutdown::ENET_SOCKET_SHUTDOWN_WRITE => 1u32,
                ENetSocketShutdown::ENET_SOCKET_SHUTDOWN_READ_WRITE => 2u32,
            },
    {
        match self {
            ENetSocketShutdown::ENET_SOCKET_SHUTDOWN_READ => 0,
            ENetSocketShutdown::ENET_SOCKET_SHUTDOWN_WRITE => 1,
            ENetSocketShutdown::ENET_SOCKET_SHUTDOWN_READ_WRITE => 2,
        }
    }
}

/// The address families a host's socket may serve.
pub enum ENetHostOption {
    ENET_HOSTOPT_IPV4,
    ENET_HOSTOPT_IPV6_ONLY,
    ENET_HOSTOPT_IPV6_DUALMODE,
}

/// What setting an option asks of the socket.
#[derive(Debug, PartialEq, Eq, Structural)]
pub enum ENetSocketOptionAction {
    /// Switch non-blocking mode on or off.
    SetNonBlocking(bool),
    /// Allow or forbid broadcast.
    SetBroadcast(bool),
    /// The option is not passed on to the socket.
    Nothing,
}

/// One piece of a datagram: the first `dataLength` bytes of the byte string
/// numbered `dataID`.
#[derive(Copy, Clone, Debug)]
pub struct ENetBuffer {
    pub dataID: usize,
    pub dataLength: usize,
}

impl Default for ENetBuffer {
    fn default() -> (b: ENetBuffer)
        ensures
            b.dataID == 0,
            b.dataLength == 0,
    {
        ENetBuffer { dataID: 0, dataLength: 0 }
    }
}

/// The address to bind a socket of the given family to. An IPv4 socket can
/// only take an IPv4-mapped address.
pub fn enet_socket_bind_address(address: &ENetAddress, option: ENetHostOption) -> (r: Option<
    ENetSocketAddress,
>)
    ensures
        option is ENET_HOSTOPT_IPV4 && !spec_is_ipv4(address.host@) ==> r is None,
        option is ENET_HOSTOPT_IPV4 && spec_is_ipv4(address.host@) ==> (r matches Some(
            ENetSocketAddress::V4 { octets, port },
        ) && octets@ == address.host@.subrange(12, 16) && port == address.port),
        !(option is ENET_HOSTOPT_IPV4) ==> r == Some(
            ENetSocketAddress::V6 {
                bytes: address.host,
                port: address.port,
                scopeID: address.scopeID,
            },
        ),
{
    match option {
        ENetHostOption::ENET_HOSTOPT_IPV4 => address.try_into_ipv4(),
        _ => Some(address.into_ipv6()),
    }
}

/// What setting `option` to `value` asks of the socket: the two boolean
/// options are switched on by any value but zero, the others are left alone.
pub fn enet_socket_option_action(option: ENetSocketOption, value: i32) -> (r:
    ENetSocketOptionAction)
    ensures
        r == match option {
            ENetSocketOption::ENET_SOCKOPT_NONBLOCK => ENetSocketOptionAction::SetNonBlocking(
                value != 0,
            ),
            ENetSocketOption::ENET_SOCKOPT_BROADCAST => ENetSocketOptionAction::SetBroadcast(
                value != 0,
            ),
            _ => ENetSocketOptionAction::Nothing,
        },
{
    match option {
        ENetSocketOption::ENET_SOCKOPT_NONBLOCK => ENetSocketOptionAction::SetNonBlocking(
            value != 0,
        ),
        ENetSocketOption::ENET_SOCKOPT_BROADCAST => ENetSocketOptionAction::SetBroadcast(
            value != 0,
        ),
        _ => ENetSocketOptionAction::Nothing,
    }
}

/// The first `count` buffers all lie inside the byte strings they name.
pub open spec fn spec_buffers_valid(data: Seq<Vec<u8>>, buffers: Seq<ENetBuffer>, count: int)
    -> bool {
    &&& 0 <= count <= buffers.len()
    &&& forall|i: int|
        0 <= i < count ==> (#[trigger] buffers[i]).dataID < data.len() && buffers[i].dataLength
            <= data[buffers[i].dataID as int].len()
}

/// The bytes a buffer stands for.
pub open spec fn spec_buffer_bytes(data: Seq<Vec<u8>>, buffer: ENetBuffer) -> Seq<u8> {
    data[buffer.dataID as int]@.subrange(0, buffer.dataLength as int)
}

/// The bytes of the first `count` buffers, one after the other.
pub open spec fn spec_gather(data: Seq<Vec<u8>>, buffers: Seq<ENetBuffer>, count: int) -> Seq<u8>
    decreases count,
{
    if count <= 0 {
        Seq::empty()
    } else {
        spec_gather(data, buffers, count - 1) + spec_buffer_bytes(data, buffers[count - 1])
    }
}

/// Whether the first `bufferCount` buffers all lie inside the byte strings
/// they name.
pub fn enet_buffers_valid(data: &Vec<Vec<u8>>, buffers: &Vec<ENetBuffer>, bufferCount: usize)
    -> (r: bool)
    ensures
        r == spec_buffers_valid(data@, buffers@, bufferCount as int),
{
    if bufferCount > buffers.len() {
        return false;
    }
    let mut i: usize = 0;
    while i < bufferCount
        invariant
            i <= bufferCount <= buffers.len(),
            spec_buffers_valid(data@, buffers@, i as int),
        decreases bufferCount - i,
    {
        let b = buffers[i];
        if b.dataID >= data.len() {
            return false;
        }
        if b.dataLength > data[b.dataID].len() {
            return false;
        }
        i += 1;
    }
    true
}

/// The datagram that the first `bufferCount` buffers make up: their bytes in
/// order.
pub fn enet_buffers_gather(data: &Vec<Vec<u8>>, buffers: &Vec<ENetBuffer>, bufferCount: usize)
    -> (merged: Vec<u8>)
    requires
        spec_buffers_valid(data@, buffers@, bufferCount as int),
    ensures
        merged@ == spec_gather(data@, buffers@, bufferCount as int),
{
    let mut merged: Vec<u8> = Vec::new();
    let mut i: usize = 0;
    while i < bufferCount
        invariant
            i <= bufferCount,
            spec_buffers_valid(data@, buffers@, bufferCount as int),
            merged@ == spec_gather(data@, buffers@, i as int),
        decreases bufferCount - i,
    {
        let b = buffers[i];
        append_bytes(&mut merged, data[b.dataID].as_slice(), 0, b.dataLength);
        i += 1;
    }
    merged
}

/// The sum of the lengths of the first `count` buffers: the room they offer
/// to a datagram.
pub open spec fn spec_buffers_room(buffers: Seq<ENetBuffer>, count: int) -> int
    decreases count,
{
    if count <= 0 {
        0
    } else {
        spec_buffers_room(buffers, count - 1) + buffers[count - 1].dataLength
    }
}

/// The room the first `bufferCount` buffers offer, or `None` where the sum
/// does not fit the machine word.
pub fn enet_buffers_room(buffers: &Vec<ENetBuffer>, bufferCount: usize) -> (r: Option<usize>)
    requires
        bufferCount <= buffers.len(),
    ensures
        r matches Some(n) ==> n == spec_buffers_room(buffers@, bufferCount as int),
        r is None ==> spec_buffers_room(buffers@, bufferCount as int) > usize::MAX,
{
    let mut total: usize = 0;
    let mut i: usize = 0;
    while i < bufferCount
        invariant
            i <= bufferCount <= buffers.len(),
            total == spec_buffers_room(buffers@, i as int),
        decreases bufferCount - i,
    {
        match total.checked_add(buffers[i].dataLength) {
            Some(t) => {
                total = t;
            },
            None => {
                proof {
                    lemma_buffers_room_monotonic(buffers@, i + 1, bufferCount as int);
                }
                return None;
            },
        }
        i += 1;
    }
    Some(total)
}

/// More buffers never offer less room.
pub proof fn lemma_buffers_room_monotonic(buffers: Seq<ENetBuffer>, i: int, j: int)
    requires
        0 <= i <= j,
    ensures
        spec_buffers_room(buffers, i) <= spec_buffers_room(buffers, j),
    decreases j - i,
{
    if i < j {
        lemma_buffers_room_monotonic(buffers, i, j - 1);
    }
}

/// The byte strings after a received datagram has been spread over the
/// buffers from number `k` on, the datagram being read from `offset`.
///
/// Each buffer takes as many bytes as it is long while the datagram holds
/// that many; the first buffer that the rest of the datagram does not fill
/// takes the rest, and the buffers after it are left alone.
pub open spec fn spec_scatter(
    data: Seq<Seq<u8>>,
    buffers: Seq<ENetBuffer>,
    k: int,
    count: int,
    received: Seq<u8>,
    offset: int,
) -> Seq<Seq<u8>>
    decreases count - k,
{
    if k >= count {
        data
    } else {
        let b = buffers[k];
        let target = data[b.dataID as int];
        if offset + b.dataLength <= received.len() {
            spec_scatter(
                data.update(
                    b.dataID as int,
                    spec_overwrite(target, 0, received.subrange(offset, offset + b.dataLength)),
                ),
                buffers,
                k + 1,
                count,
                received,
                offset + b.dataLength,
            )
        } else {
            data.update(
                b.dataID as int,
                spec_overwrite(target, 0, received.subrange(offset, received.len() as int)),
            )
        }
    }
}

/// The byte strings as plain sequences.
pub open spec fn spec_contents(data: Seq<Vec<u8>>) -> Seq<Seq<u8>> {
    Seq::new(data.len(), |i: int| data[i]@)
}

/// Spreads a received datagram over the first `bufferCount` buffers.
pub fn enet_buffers_scatter(
    data: &mut Vec<Vec<u8>>,
    buffers: &Vec<ENetBuffer>,
    bufferCount: usize,
    received: &[u8],
)
    requires
        spec_buffers_valid(old(data)@, buffers@, bufferCount as int),
    ensures
        spec_contents(final(data)@) == spec_scatter(
            spec_contents(old(data)@),
            buffers@,
            0,
            bufferCount as int,
            received@,
            0,
        ),
{
    let mut k: usize = 0;
    let mut offset: usize = 0;
    let len: usize = received.len();
    while k < bufferCount
        invariant
            k <= bufferCount <= buffers.len(),
            offset <= len,
            len == received.len(),
            data.len() == old(data).len(),
            forall|i: int| 0 <= i < data.len() ==> (#[trigger] data@[i]).len() == old(data)@[i].len(),
            spec_buffers_valid(old(data)@, buffers@, bufferCount as int),
            spec_scatter(
                spec_contents(data@),
                buffers@,
                k as int,
                bufferCount as int,
                received@,
                offset as int,
            ) == spec_scatter(
                spec_contents(old(data)@),
                buffers@,
                0,
                bufferCount as int,
                received@,
                0,
            ),
        decreases bufferCount - k,
    {
        let b = buffers[k];
        let ghost before = spec_contents(data@);
        assert(b.dataID < data.len() && b.dataLength <= data@[b.dataID as int].len());
        if b.dataLength <= len - offset {
            copy_bytes(&mut data[b.dataID], 0, received, offset, b.dataLength);
            assert(spec_contents(data@) =~= before.update(
                b.dataID as int,
                spec_overwrite(
                    before[b.dataID as int],
                    0,
                    received@.subrange(offset as int, offset + b.dataLength),
                ),
            ));
            offset += b.dataLength;
            k += 1;
        } else {
            let remaining: usize = len - offset;
            copy_bytes(&mut data[b.dataID], 0, received, offset, remaining);
            assert(spec_contents(data@) =~= before.update(
                b.dataID as int,
                spec_overwrite(
                    before[b.dataID as int],
                    0,
                    received@.subrange(offset as int, len as int),
                ),
            ));
            return ;
        }
    }
}

/// Whether a wait for `condition` has to look at the socket: it has when it
/// asks for data to read and not for room to send.
pub open spec fn spec_wait_looks(condition: u32) -> bool {
    condition % 2 == 0 && (condition / 2) % 2 == 1
}

/// Whether a wait for `condition` has to look at the socket for waiting data.
pub fn enet_socket_wait_looks(condition: u32) -> (r: bool)
    ensures
        r == spec_wait_looks(condition),
{
    condition % 2 == 0 && (condition / 2) % 2 == 1
}

/// What a wait returns. `readable` says whether the socket had data waiting;
/// it is looked at only where `spec_wait_looks` holds.
///
/// A wait that asks for room to send is answered at once with "send". One that
/// asks for data is answered with "receive" where data waits, and fails, the
/// condition untouched, where none does. A wait for neither succeeds with the
/// condition untouched.
pub fn enet_socket_wait_result(condition: &mut u32, readable: bool) -> (r: bool)
    ensures
        old(condition) % 2 == 1 ==> r && *final(condition) == ENET_SOCKET_WAIT_SEND,
        spec_wait_looks(*old(condition)) && readable ==> r && *final(condition)
            == ENET_SOCKET_WAIT_RECEIVE,
        spec_wait_looks(*old(condition)) && !readable ==> !r && *final(condition) == *old(condition),
        old(condition) % 2 == 0 && !spec_wait_looks(*old(condition)) ==> r && *final(condition)
            == *old(condition),
{
    if *condition % 2 == 1 {
        *condition = ENET_SOCKET_WAIT_SEND;
        return true;
    }
    if (*condition / 2) % 2 == 1 {
        if readable {
            *condition = ENET_SOCKET_WAIT_RECEIVE;
            return true;
        }
        return false;
    }
    true
}

/// Copies a host's name into the caller's buffer, if it fits: the name then
/// stands at the start of the buffer and the rest of the buffer is as it was.
pub fn enet_address_copy_name(name: &[u8], out: &mut Vec<u8>) -> (r: bool)
    ensures
        r == (name.len() <= old(out).len()),
        r ==> final(out)@ == spec_overwrite(old(out)@, 0, name@),
        !r ==> final(out)@ == old(out)@,
{
    if name.len() > out.len() {
        return false;
    }
    copy_bytes(out, 0, name, 0, name.len());
    assert(name@.subrange(0, name.len() as int) =~= name@);
    true
}

} // verus!
