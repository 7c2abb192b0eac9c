use libax::udp::{bind_error, poll_step, send_error, BindFailure, IpAddr, PollStep, SendFailure, SocketAddr, SocketError, UdpSocket};
use smoltcp::iface::{Config, Interface, SocketSet};
use smoltcp::phy::{Loopback, Medium};
use smoltcp::time::Instant;
use smoltcp::wire::{IpAddress, IpCidr};
use smoltcp::socket::udp;

fn stack_socket() -> udp::Socket<'static> {
    let rx = udp::PacketBuffer::new(vec![udp::PacketMetadata::EMPTY; 4], vec![0u8; 256]);
    let tx = udp::PacketBuffer::new(vec![udp::PacketMetadata::EMPTY; 4], vec![0u8; 256]);
    udp::Socket::new(rx, tx)
}

fn handle() -> smoltcp::iface::SocketHandle {
    let mut set = SocketSet::new(Vec::new());
    set.add(stack_socket())
}

fn v4(a: [u8; 4], port: u16) -> SocketAddr {
    SocketAddr { addr: IpAddr::V4(a), port }
}

#[test]
fn new_socket_is_unbound() {
    let s = UdpSocket::new(handle());
    assert_eq!(s.local_addr(), Err(SocketError::NotConnected));
    assert!(s.handle().is_ok());
}

#[test]
fn bind_records_address() {
    let mut s = UdpSocket::new(handle());
    let mut sock = stack_socket();
    let a = v4([127, 0, 0, 1], 5555);
    assert_eq!(s.bind(&mut sock, a), Ok(()));
    assert_eq!(s.local_addr(), Ok(a));
    assert!(sock.is_open());
}

#[test]
fn bind_twice_is_invalid_input() {
    let mut s = UdpSocket::new(handle());
    let mut sock = stack_socket();
    assert_eq!(s.bind(&mut sock, v4([0, 0, 0, 0], 1000)), Ok(()));
    assert_eq!(s.bind(&mut sock, v4([0, 0, 0, 0], 2000)), Err(SocketError::InvalidInput));
    assert_eq!(s.local_addr(), Ok(v4([0, 0, 0, 0], 1000)));
    assert_eq!(sock.endpoint().port, 1000);
}

#[test]
fn bind_port_zero_is_invalid_input() {
    let mut s = UdpSocket::new(handle());
    let mut sock = stack_socket();
    assert_eq!(s.bind(&mut sock, v4([10, 0, 0, 1], 0)), Err(SocketError::InvalidInput));
    assert_eq!(s.local_addr(), Err(SocketError::NotConnected));
}

#[test]
fn bind_of_open_stack_socket_already_exists() {
    let mut sock = stack_socket();
    let mut first = UdpSocket::new(handle());
    assert_eq!(first.bind(&mut sock, v4([10, 0, 0, 1], 7)), Ok(()));
    let mut second = UdpSocket::new(handle());
    assert_eq!(second.bind(&mut sock, v4([10, 0, 0, 1], 8)), Err(SocketError::AlreadyExists));
    assert_eq!(second.local_addr(), Err(SocketError::NotConnected));
}

#[test]
fn send_on_unbound_socket_is_not_connected() {
    let mut sock = stack_socket();
    assert_eq!(UdpSocket::send_attempt(&mut sock, b"hi", v4([10, 0, 0, 2], 9)), Err(SocketError::NotConnected));
}

#[test]
fn send_queues_whole_buffer() {
    let mut s = UdpSocket::new(handle());
    let mut sock = stack_socket();
    s.bind(&mut sock, v4([10, 0, 0, 1], 4000)).unwrap();
    assert_eq!(UdpSocket::send_attempt(&mut sock, b"hello", v4([10, 0, 0, 2], 9)), Ok(5));
}

#[test]
fn send_to_unspecified_destination_is_refused() {
    let mut s = UdpSocket::new(handle());
    let mut sock = stack_socket();
    s.bind(&mut sock, v4([10, 0, 0, 1], 4000)).unwrap();
    assert_eq!(UdpSocket::send_attempt(&mut sock, b"x", v4([0, 0, 0, 0], 9)), Err(SocketError::ConnectionRefused));
    assert_eq!(UdpSocket::send_attempt(&mut sock, b"x", v4([10, 0, 0, 2], 0)), Err(SocketError::ConnectionRefused));
    let v6 = SocketAddr { addr: IpAddr::V6([0; 16]), port: 9 };
    assert_eq!(UdpSocket::send_attempt(&mut sock, b"x", v6), Err(SocketError::ConnectionRefused));
}

#[test]
fn send_with_full_buffer_is_again() {
    let mut s = UdpSocket::new(handle());
    let mut sock = stack_socket();
    s.bind(&mut sock, v4([10, 0, 0, 1], 4000)).unwrap();
    let dest = v4([10, 0, 0, 2], 9);
    for _ in 0..4 {
        assert_eq!(UdpSocket::send_attempt(&mut sock, b"abc", dest), Ok(3));
    }
    assert_eq!(UdpSocket::send_attempt(&mut sock, b"abc", dest), Err(SocketError::Again));
}

#[test]
fn receive_attempts() {
    let mut unbound = stack_socket();
    let mut buf = [0u8; 8];
    assert_eq!(UdpSocket::recv_attempt(&mut unbound, &mut buf), Err(SocketError::NotConnected));
    assert_eq!(UdpSocket::peek_attempt(&mut unbound, &mut buf), Err(SocketError::NotConnected));
    let mut s = UdpSocket::new(handle());
    let mut sock = stack_socket();
    s.bind(&mut sock, v4([10, 0, 0, 1], 4000)).unwrap();
    assert_eq!(UdpSocket::recv_attempt(&mut sock, &mut buf), Err(SocketError::Again));
    assert_eq!(UdpSocket::peek_attempt(&mut sock, &mut buf), Err(SocketError::Again));
}

#[test]
fn shutdown_unbinds_stack_socket() {
    let mut s = UdpSocket::new(handle());
    let mut sock = stack_socket();
    s.bind(&mut sock, v4([10, 0, 0, 1], 4000)).unwrap();
    UdpSocket::shutdown_socket(&mut sock);
    assert!(!sock.is_open());
    assert_eq!(UdpSocket::send_attempt(&mut sock, b"x", v4([10, 0, 0, 2], 9)), Err(SocketError::NotConnected));
}

#[test]
fn error_mappings() {
    assert_eq!(bind_error(BindFailure::InvalidState), SocketError::AlreadyExists);
    assert_eq!(bind_error(BindFailure::Unaddressable), SocketError::InvalidInput);
    assert_eq!(send_error(SendFailure::BufferFull), SocketError::Again);
    assert_eq!(send_error(SendFailure::Unaddressable), SocketError::ConnectionRefused);
}

#[test]
fn only_again_is_retried() {
    assert!(matches!(poll_step::<usize>(Err(SocketError::Again)), PollStep::Retry));
    assert!(matches!(poll_step::<usize>(Ok(3)), PollStep::Finish(Ok(3))));
    assert!(matches!(poll_step::<usize>(Err(SocketError::NotConnected)), PollStep::Finish(Err(SocketError::NotConnected))));
}

#[test]
fn datagram_over_loopback_fills_front_of_buffer() {
    let mut device = Loopback::new(Medium::Ip);
    let mut iface = Interface::new(Config::new(), &mut device);
    iface.update_ip_addrs(|addrs| {
        addrs.push(IpCidr::new(IpAddress::v4(127, 0, 0, 1), 8)).unwrap();
    });
    let mut set = SocketSet::new(Vec::new());
    let rh = set.add(stack_socket());
    let sh = set.add(stack_socket());
    let mut receiver = UdpSocket::new(rh);
    let mut sender = UdpSocket::new(sh);
    let local = [127, 0, 0, 1];
    receiver.bind(set.get_mut::<udp::Socket>(rh), v4(local, 7000)).unwrap();
    sender.bind(set.get_mut::<udp::Socket>(sh), v4(local, 7001)).unwrap();
    assert_eq!(UdpSocket::send_attempt(set.get_mut::<udp::Socket>(sh), b"abc", v4(local, 7000)), Ok(3));
    for _ in 0..4 {
        iface.poll(Instant::from_millis(0), &mut device, &mut set);
    }
    let mut buf = [9u8; 6];
    let peeked = UdpSocket::peek_attempt(set.get_mut::<udp::Socket>(rh), &mut buf);
    assert_eq!(peeked, Ok((3, v4(local, 7001))));
    assert_eq!(buf, [b'a', b'b', b'c', 9, 9, 9]);
    let mut buf = [7u8; 6];
    let got = UdpSocket::recv_attempt(set.get_mut::<udp::Socket>(rh), &mut buf);
    assert_eq!(got, Ok((3, v4(local, 7001))));
    assert_eq!(buf, [b'a', b'b', b'c', 7, 7, 7]);
    let mut buf = [5u8; 2];
    assert_eq!(UdpSocket::recv_attempt(set.get_mut::<udp::Socket>(rh), &mut buf), Err(SocketError::Again));
    assert_eq!(buf, [5, 5]);
}

#[test]
fn first_octet_zero_is_unaddressable() {
    let mut s = UdpSocket::new(handle());
    let mut sock = libax::udp::new_stack_socket(4, 256, 4, 256);
    s.bind(&mut sock, v4([10, 0, 0, 1], 4000)).unwrap();
    assert_eq!(UdpSocket::send_attempt(&mut sock, b"x", v4([0, 1, 2, 3], 9)), Err(SocketError::ConnectionRefused));
    assert_eq!(UdpSocket::send_attempt(&mut sock, b"x", v4([1, 0, 0, 0], 9)), Ok(1));
}

#[test]
fn fresh_stack_socket_is_unbound_and_binds() {
    let mut sock = libax::udp::new_stack_socket(2, 64, 2, 64);
    assert!(!sock.is_open());
    let mut buf = [3u8; 2];
    assert_eq!(UdpSocket::recv_attempt(&mut sock, &mut buf), Err(SocketError::NotConnected));
    assert_eq!(UdpSocket::send_attempt(&mut sock, b"x", v4([10, 0, 0, 2], 9)), Err(SocketError::NotConnected));
    let mut s = UdpSocket::new(handle());
    assert_eq!(s.bind(&mut sock, v4([10, 0, 0, 1], 53)), Ok(()));
    assert_eq!(sock.endpoint().port, 53);
}

#[test]
fn no_transmit_slot_is_again_and_oversized_is_again() {
    let mut s = UdpSocket::new(handle());
    let mut sock = libax::udp::new_stack_socket(2, 64, 0, 64);
    s.bind(&mut sock, v4([10, 0, 0, 1], 4000)).unwrap();
    assert_eq!(UdpSocket::send_attempt(&mut sock, b"x", v4([0, 0, 0, 0], 9)), Err(SocketError::Again));
    let mut s2 = UdpSocket::new(handle());
    let mut small = libax::udp::new_stack_socket(2, 64, 2, 4);
    s2.bind(&mut small, v4([10, 0, 0, 1], 4001)).unwrap();
    assert_eq!(UdpSocket::send_attempt(&mut small, b"hello", v4([10, 0, 0, 2], 9)), Err(SocketError::Again));
    assert_eq!(UdpSocket::send_attempt(&mut small, b"hell", v4([10, 0, 0, 2], 9)), Ok(4));
}

#[test]
fn after_shutdown_everything_is_not_connected() {
    let mut s = UdpSocket::new(handle());
    let mut sock = stack_socket();
    s.bind(&mut sock, v4([10, 0, 0, 1], 4000)).unwrap();
    UdpSocket::shutdown_socket(&mut sock);
    let mut buf = [1u8; 3];
    assert_eq!(UdpSocket::recv_attempt(&mut sock, &mut buf), Err(SocketError::NotConnected));
    assert_eq!(UdpSocket::peek_attempt(&mut sock, &mut buf), Err(SocketError::NotConnected));
    assert_eq!(buf, [1, 1, 1]);
    UdpSocket::shutdown_socket(&mut sock);
    assert!(!sock.is_open());
}
