use enet::address::{ENetAddress, ENetSocketAddress, ENET_HOST_BROADCAST};
use enet::bytes::{append_bytes, copy_bytes, get_u16, get_u32, put_u16, put_u32, put_u8};
use enet::compress::{enet_range_coder_create, enet_range_coder_destroy, ENetSymbol};
use enet::net_order::{
    ENET_HOST_TO_NET_16, ENET_HOST_TO_NET_32, ENET_NET_TO_HOST_16, ENET_NET_TO_HOST_32,
};
use enet::socket::{
    enet_address_copy_name, enet_buffers_gather, enet_buffers_room, enet_buffers_scatter,
    enet_buffers_valid, enet_socket_bind_address, enet_socket_option_action,
    enet_socket_wait_looks, enet_socket_wait_result, ENetBuffer, ENetHostOption,
    ENetSocketOption, ENetSocketOptionAction, ENetSocketShutdown, ENetSocketType, ENetSocketWait,
    ENET_SOCKET_WAIT_RECEIVE, ENET_SOCKET_WAIT_SEND,
};
use enet::system::{
    enet_deinitialize, enet_host_random_seed, enet_initialize, enet_time_base, enet_time_epoch,
    enet_time_get, enet_time_offset, enet_time_set, enet_time_reading, enet_time_truncate, timeGetTime,
};
use enet::time::{
    ENET_TIME_DIFFERENCE, ENET_TIME_GREATER, ENET_TIME_GREATER_EQUAL, ENET_TIME_LESS,
    ENET_TIME_LESS_EQUAL, ENET_TIME_OVERFLOW,
};
use enet::version::{
    ENET_VERSION, ENET_VERSION_CREATE, ENET_VERSION_GET_MAJOR, ENET_VERSION_GET_MINOR,
    ENET_VERSION_GET_PATCH,
};

#[test]
fn version_packs_and_unpacks() {
    assert_eq!(ENET_VERSION_CREATE(1, 3, 18), 0x0001_0312);
    assert_eq!(ENET_VERSION, ENET_VERSION_CREATE(1, 3, 18));
    assert_eq!(ENET_VERSION_GET_MAJOR(ENET_VERSION), 1);
    assert_eq!(ENET_VERSION_GET_MINOR(ENET_VERSION), 3);
    assert_eq!(ENET_VERSION_GET_PATCH(ENET_VERSION), 18);
    assert_eq!(ENET_VERSION_GET_MAJOR(0xABCD_EF12), 0xCD);
    assert_eq!(ENET_VERSION_GET_MINOR(0xABCD_EF12), 0xEF);
    assert_eq!(ENET_VERSION_GET_PATCH(0xABCD_EF12), 0x12);
}

#[test]
fn time_order_is_wrap_aware() {
    assert_eq!(ENET_TIME_OVERFLOW, 86_400_000);
    assert!(ENET_TIME_LESS(1, 2));
    assert!(!ENET_TIME_LESS(2, 2));
    assert!(ENET_TIME_LESS_EQUAL(2, 2));
    assert!(ENET_TIME_GREATER_EQUAL(2, 2));
    assert!(!ENET_TIME_GREATER(2, 2));
    // just before the wrap is earlier than just after it
    assert!(ENET_TIME_LESS(u32::MAX, 3));
    assert!(ENET_TIME_GREATER(3, u32::MAX));
    assert_eq!(ENET_TIME_DIFFERENCE(3, u32::MAX), 4);
    assert_eq!(ENET_TIME_DIFFERENCE(u32::MAX, 3), 4);
    assert_eq!(ENET_TIME_DIFFERENCE(500, 200), 300);
    assert_eq!(ENET_TIME_DIFFERENCE(200, 500), 300);
    // a reading counts as earlier until it lies a day behind, the long way round
    assert!(ENET_TIME_LESS(0, ENET_TIME_OVERFLOW));
    assert!(ENET_TIME_LESS(0, u32::MAX - ENET_TIME_OVERFLOW + 1));
    assert!(!ENET_TIME_LESS(0, u32::MAX - ENET_TIME_OVERFLOW + 2));
    assert!(!ENET_TIME_LESS(ENET_TIME_OVERFLOW - 1, 0));
    assert!(ENET_TIME_LESS(ENET_TIME_OVERFLOW, 0));
}

#[test]
fn network_order_is_big_endian() {
    assert_eq!(ENET_HOST_TO_NET_16(0x1234).to_ne_bytes(), [0x12, 0x34]);
    assert_eq!(ENET_HOST_TO_NET_32(0x1234_5678).to_ne_bytes(), [0x12, 0x34, 0x56, 0x78]);
    assert_eq!(ENET_NET_TO_HOST_16(u16::from_ne_bytes([0x12, 0x34])), 0x1234);
    assert_eq!(ENET_NET_TO_HOST_32(u32::from_ne_bytes([0x12, 0x34, 0x56, 0x78])), 0x1234_5678);
    assert_eq!(ENET_NET_TO_HOST_16(ENET_HOST_TO_NET_16(0xBEEF)), 0xBEEF);
    assert_eq!(ENET_NET_TO_HOST_32(ENET_HOST_TO_NET_32(0xDEAD_BEEF)), 0xDEAD_BEEF);
}

#[test]
fn bytes_are_written_highest_first() {
    let mut out = vec![9u8];
    put_u8(&mut out, 1);
    put_u16(&mut out, 0x0203);
    put_u32(&mut out, 0x0405_0607);
    assert_eq!(out, vec![9, 1, 2, 3, 4, 5, 6, 7]);
    assert_eq!(get_u16(&out, 2), 0x0203);
    assert_eq!(get_u32(&out, 4), 0x0405_0607);
    let mut target = vec![0u8; 6];
    copy_bytes(&mut target, 2, &out, 4, 3);
    assert_eq!(target, vec![0, 0, 4, 5, 6, 0]);
    append_bytes(&mut target, &out, 0, 2);
    assert_eq!(target, vec![0, 0, 4, 5, 6, 0, 9, 1]);
}

#[test]
fn the_clock_counts_from_its_base() {
    enet_initialize();
    let epoch = enet_time_epoch();
    let first = timeGetTime(&epoch);
    assert!(first >= 0);
    let mut later = first;
    let mut spins: u64 = 0;
    while later == first && spins < 2_000_000_000 {
        later = timeGetTime(&epoch);
        spins += 1;
    }
    assert!(later > first, "the clock stands still");
    assert_eq!(enet_time_truncate(0x1_0000_0005), 5);
    assert_eq!(enet_time_reading(5), 5);
    assert_eq!(enet_time_reading((1u128 << 63) - 1), i64::MAX);
    assert_eq!(enet_time_reading(1u128 << 63), 0);
    assert_eq!(enet_time_reading((1u128 << 64) + 7), 7);
    assert_eq!(enet_time_reading(u128::MAX), i64::MAX);
    assert_eq!(enet_time_offset(100, 30), 70);
    assert_eq!(enet_time_offset(5, 10), u32::MAX - 4);
    let base = enet_time_base(1000, 250);
    assert_eq!(base, 750);
    assert_eq!(enet_time_offset(1000, base), 250);
    assert_eq!(enet_time_offset(1400, base), 650);
    let base = enet_time_set(&epoch, 5000);
    let now = enet_time_get(&epoch, base);
    assert!(now >= 5000 && now < 5000 + 60_000);
    let _seed: u32 = enet_host_random_seed(&epoch);
    enet_deinitialize();
}

#[test]
fn a_fresh_range_coder_is_all_zero() {
    let coder = enet_range_coder_create();
    assert_eq!(coder.symbols.len(), 4096);
    let zero = ENetSymbol::default();
    assert_eq!(zero.value, 0);
    assert_eq!(zero.parent, 0);
    assert!(coder.symbols.iter().all(|s| *s == zero));
    enet_range_coder_destroy(coder);
}

#[test]
fn addresses_know_their_family() {
    let any = ENetAddress::new();
    assert_eq!(any.host, [0u8; 16]);
    assert_eq!(any.port, 0);
    assert!(!any.is_ipv4());
    assert!(any.is_ipv6());

    let v4 = ENetAddress::from_socket_address(ENetSocketAddress::V4 {
        octets: [192, 168, 1, 7],
        port: 4242,
    });
    assert_eq!(v4.host, [0, 0, 0, 0, 0, 0, 0, 0, 0, 0, 255, 255, 192, 168, 1, 7]);
    assert_eq!(v4.port, 4242);
    assert_eq!(v4.scopeID, 0);
    assert!(v4.is_ipv4());
    assert!(!v4.is_ipv6());
    assert_eq!(v4.into_ipv4(), ENetSocketAddress::V4 { octets: [192, 168, 1, 7], port: 4242 });
    assert_eq!(v4.try_into_ipv4(), Some(ENetSocketAddress::V4 { octets: [192, 168, 1, 7], port: 4242 }));
    assert_eq!(v4.into_socket_address(), ENetSocketAddress::V4 { octets: [192, 168, 1, 7], port: 4242 });
    assert_eq!(
        v4.into_ipv6(),
        ENetSocketAddress::V6 { bytes: v4.host, port: 4242, scopeID: 0 }
    );
    assert_eq!(ENetAddress::try_into(&v4, None), None);
    assert_eq!(ENetAddress::try_into(&v4, Some(false)), Some(v4.into_ipv4()));
    assert_eq!(ENetAddress::try_into(&v4, Some(true)), Some(v4.into_ipv6()));

    let mut bytes = [0u8; 16];
    bytes[0] = 0xFE;
    bytes[1] = 0x80;
    bytes[15] = 1;
    let v6 = ENetAddress::from_socket_address(ENetSocketAddress::V6 { bytes, port: 9, scopeID: 3 });
    assert_eq!(v6.host, bytes);
    assert_eq!(v6.scopeID, 3);
    assert!(v6.is_ipv6());
    assert_eq!(v6.try_into_ipv4(), None);
    assert_eq!(ENetAddress::try_into(&v6, Some(false)), None);
    assert_eq!(v6.into_socket_address(), ENetSocketAddress::V6 { bytes, port: 9, scopeID: 3 });
    assert!(v6.same_host(&v6));
    assert!(!v6.same_host(&v4));

    let broadcast = ENetAddress { host: ENET_HOST_BROADCAST, port: 1, scopeID: 0 };
    assert!(broadcast.is_broadcast());
    assert!(broadcast.is_ipv4());
    assert!(!v4.is_broadcast());
}

#[test]
fn socket_numbers_are_those_of_the_interface() {
    assert_eq!(ENetSocketType::ENET_SOCKET_TYPE_STREAM.value(), 1);
    assert_eq!(ENetSocketType::ENET_SOCKET_TYPE_DATAGRAM.value(), 2);
    assert_eq!(ENetSocketWait::ENET_SOCKET_WAIT_NONE.value(), 0);
    assert_eq!(ENetSocketWait::ENET_SOCKET_WAIT_SEND.value(), 1);
    assert_eq!(ENetSocketWait::ENET_SOCKET_WAIT_RECEIVE.value(), 2);
    assert_eq!(ENetSocketWait::ENET_SOCKET_WAIT_INTERRUPT.value(), 4);
    assert_eq!(ENetSocketOption::ENET_SOCKOPT_NONBLOCK.value(), 1);
    assert_eq!(ENetSocketOption::ENET_SOCKOPT_IPV6_ONLY.value(), 11);
    assert_eq!(ENetSocketShutdown::ENET_SOCKET_SHUTDOWN_READ.value(), 0);
    assert_eq!(ENetSocketShutdown::ENET_SOCKET_SHUTDOWN_READ_WRITE.value(), 2);
}

#[test]
fn socket_decisions() {
    let v4 = ENetAddress::from_socket_address(ENetSocketAddress::V4 { octets: [10, 0, 0, 1], port: 7 });
    let v6 = ENetAddress { host: [1; 16], port: 7, scopeID: 2 };
    assert_eq!(
        enet_socket_bind_address(&v4, ENetHostOption::ENET_HOSTOPT_IPV4),
        Some(ENetSocketAddress::V4 { octets: [10, 0, 0, 1], port: 7 })
    );
    assert_eq!(enet_socket_bind_address(&v6, ENetHostOption::ENET_HOSTOPT_IPV4), None);
    assert_eq!(
        enet_socket_bind_address(&v6, ENetHostOption::ENET_HOSTOPT_IPV6_ONLY),
        Some(ENetSocketAddress::V6 { bytes: [1; 16], port: 7, scopeID: 2 })
    );
    assert_eq!(
        enet_socket_bind_address(&v4, ENetHostOption::ENET_HOSTOPT_IPV6_DUALMODE),
        Some(ENetSocketAddress::V6 { bytes: v4.host, port: 7, scopeID: 0 })
    );
    assert_eq!(
        enet_socket_option_action(ENetSocketOption::ENET_SOCKOPT_NONBLOCK, 1),
        ENetSocketOptionAction::SetNonBlocking(true)
    );
    assert_eq!(
        enet_socket_option_action(ENetSocketOption::ENET_SOCKOPT_BROADCAST, 0),
        ENetSocketOptionAction::SetBroadcast(false)
    );
    assert_eq!(
        enet_socket_option_action(ENetSocketOption::ENET_SOCKOPT_RCVBUF, 4096),
        ENetSocketOptionAction::Nothing
    );

    let mut condition = ENET_SOCKET_WAIT_SEND | ENET_SOCKET_WAIT_RECEIVE;
    assert!(!enet_socket_wait_looks(condition));
    assert!(enet_socket_wait_result(&mut condition, false));
    assert_eq!(condition, ENET_SOCKET_WAIT_SEND);

    let mut condition = ENET_SOCKET_WAIT_RECEIVE;
    assert!(enet_socket_wait_looks(condition));
    assert!(!enet_socket_wait_result(&mut condition, false));
    assert_eq!(condition, ENET_SOCKET_WAIT_RECEIVE);
    let mut condition = ENET_SOCKET_WAIT_RECEIVE | 4;
    assert!(enet_socket_wait_result(&mut condition, true));
    assert_eq!(condition, ENET_SOCKET_WAIT_RECEIVE);

    let mut condition = 4;
    assert!(!enet_socket_wait_looks(condition));
    assert!(enet_socket_wait_result(&mut condition, false));
    assert_eq!(condition, 4);
}

#[test]
fn buffers_are_gathered_and_scattered() {
    let data = vec![vec![1u8, 2, 3, 4], vec![5u8, 6], vec![7u8, 8, 9]];
    let buffers = vec![
        ENetBuffer { dataID: 1, dataLength: 2 },
        ENetBuffer { dataID: 0, dataLength: 3 },
        ENetBuffer { dataID: 2, dataLength: 1 },
    ];
    assert!(enet_buffers_valid(&data, &buffers, 3));
    assert!(!enet_buffers_valid(&data, &buffers, 4));
    assert!(!enet_buffers_valid(&data, &vec![ENetBuffer { dataID: 3, dataLength: 0 }], 1));
    assert!(!enet_buffers_valid(&data, &vec![ENetBuffer { dataID: 1, dataLength: 3 }], 1));
    assert_eq!(enet_buffers_gather(&data, &buffers, 3), vec![5, 6, 1, 2, 3, 7]);
    assert_eq!(enet_buffers_gather(&data, &buffers, 1), vec![5, 6]);
    assert_eq!(enet_buffers_gather(&data, &buffers, 0), Vec::<u8>::new());
    assert_eq!(enet_buffers_room(&buffers, 3), Some(6));
    assert_eq!(
        enet_buffers_room(
            &vec![
                ENetBuffer { dataID: 0, dataLength: usize::MAX },
                ENetBuffer { dataID: 0, dataLength: 1 }
            ],
            2
        ),
        None
    );

    // a datagram that fills every buffer
    let mut target = vec![vec![0u8; 4], vec![0u8; 2], vec![0u8; 3]];
    enet_buffers_scatter(&mut target, &buffers, 3, &[10, 11, 12, 13, 14, 15]);
    assert_eq!(target, vec![vec![12, 13, 14, 0], vec![10, 11], vec![15, 0, 0]]);

    // a short datagram ends in the middle of the second buffer
    let mut target = vec![vec![0u8; 4], vec![0u8; 2], vec![0u8; 3]];
    enet_buffers_scatter(&mut target, &buffers, 3, &[10, 11, 12]);
    assert_eq!(target, vec![vec![12, 0, 0, 0], vec![10, 11], vec![0, 0, 0]]);

    // nothing is written for an empty datagram
    let mut target = vec![vec![7u8; 4], vec![7u8; 2], vec![7u8; 3]];
    enet_buffers_scatter(&mut target, &buffers, 3, &[]);
    assert_eq!(target, vec![vec![7u8; 4], vec![7u8; 2], vec![7u8; 3]]);
}

#[test]
fn a_name_is_copied_if_it_fits() {
    let mut out = vec![b'.'; 8];
    assert!(enet_address_copy_name(b"1.2.3.4", &mut out));
    assert_eq!(out, b"1.2.3.4.".to_vec());
    let mut out = vec![b'.'; 3];
    assert!(!enet_address_copy_name(b"1.2.3.4", &mut out));
    assert_eq!(out, b"...".to_vec());
    let mut out = vec![b'.'; 7];
    assert!(enet_address_copy_name(b"1.2.3.4", &mut out));
    assert_eq!(out, b"1.2.3.4".to_vec());
}
