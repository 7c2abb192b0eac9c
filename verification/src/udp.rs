//! UDP sockets over the `smoltcp` stack: the socket's own state (its handle in
//! the stack's socket set and the address it is bound to), what each operation
//! does on the `smoltcp` socket, and how the stack's errors are reported.
//!
//! The socket set, the polling of network interfaces and the yielding between
//! attempts belong to the caller: a send or receive is retried, after polling
//! and yielding, for as long as `poll_step` says `Retry`.

use smoltcp::iface::SocketHandle;
use smoltcp::socket::udp;
use smoltcp::wire::{IpAddress, IpEndpoint, Ipv4Address, Ipv6Address};
use vstd::prelude::*;

verus! {

#[verifier::external_type_specification]
#[verifier::external_body]
pub struct ExUdpSocket<'a>(udp::Socket<'a>);

#[verifier::external_type_specification]
#[verifier::external_body]
pub struct ExSocketHandle(SocketHandle);

/// An IP address.
#[derive(Clone, Copy, Debug, PartialEq, Eq)]
pub enum IpAddr {
    V4([u8; 4]),
    V6([u8; 16]),
}

/// An IP address and a port.
#[derive(Clone, Copy, Debug, PartialEq, Eq)]
pub struct SocketAddr {
    pub addr: IpAddr,
    pub port: u16,
}

/// Errors of UDP socket operations.
#[derive(Clone, Copy, Debug, PartialEq, Eq, Structural)]
pub enum SocketError {
    InvalidInput,
    AlreadyExists,
    NotConnected,
    Again,
    ConnectionRefused,
}

/// Why the stack refused to bind a socket.
#[derive(Clone, Copy, Debug, PartialEq, Eq, Structural)]
pub enum BindFailure {
    /// The socket is already bound.
    InvalidState,
    /// The port is zero.
    Unaddressable,
}

/// Why the stack refused to queue a datagram.
#[derive(Clone, Copy, Debug, PartialEq, Eq, Structural)]
pub enum SendFailure {
    /// The socket is unbound, or the destination address or port is zero.
    Unaddressable,
    /// The transmit buffer has no room for the datagram.
    BufferFull,
}

/// What the stack answers to a bind.
pub type BindOutcome = Result<(), BindFailure>;

/// What the stack answers to a send.
pub type SendOutcome = Result<(), SendFailure>;

/// The port a stack socket is bound to; 0 while it is unbound.
pub uninterp spec fn udp_bound_port(socket: udp::Socket<'static>) -> u16;

/// The datagrams a stack socket has queued for sending, oldest first, each
/// with its destination.
pub uninterp spec fn udp_tx_queue(socket: udp::Socket<'static>) -> Seq<(Seq<u8>, SocketAddr)>;

/// The datagrams a stack socket has received and not yet handed out, oldest
/// first, each with its sender.
pub uninterp spec fn udp_rx_queue(socket: udp::Socket<'static>) -> Seq<(Seq<u8>, SocketAddr)>;

/// Whether the transmit buffer of a stack socket takes a datagram of `size`
/// bytes now (a free packet slot, and `size` bytes of payload space in one
/// piece).
pub uninterp spec fn udp_tx_fits(socket: udp::Socket<'static>, size: nat) -> bool;

/// The stack refuses to send to `addr`: its port is 0, or its address is
/// unspecified (an IPv4 address whose first octet is 0, or the all-zero IPv6
/// address).
pub open spec fn unaddressable(addr: SocketAddr) -> bool {
    addr.port == 0 || match addr.addr {
        IpAddr::V4(b) => b@[0] == 0,
        IpAddr::V6(b) => forall|i: int| 0 <= i < 16 ==> #[trigger] b@[i] == 0,
    }
}

/// The first `n` bytes of `after` are those of `d`.
pub open spec fn front_copied(after: Seq<u8>, d: Seq<u8>, n: int) -> bool {
    forall|i: int| 0 <= i < n ==> after[i] == d[i]
}

/// Every byte of `after` from position `n` on is the byte of `before` there.
pub open spec fn tail_kept(before: Seq<u8>, after: Seq<u8>, n: int) -> bool {
    forall|i: int| n <= i < before.len() ==> after[i] == before[i]
}

/// The smaller of two lengths.
pub open spec fn min_len(a: int, b: int) -> int {
    if a <= b {
        a
    } else {
        b
    }
}

/// `udp::Socket::new` over fresh packet buffers: `rx_slots` packets and
/// `rx_bytes` payload bytes to receive into, `tx_slots` and `tx_bytes` to
/// send from. The socket is unbound, both queues are empty, and a datagram
/// fits exactly when there is a packet slot and it is at most `tx_bytes` long.
#[verifier::external_body]
fn udp_socket_new(rx_slots: usize, rx_bytes: usize, tx_slots: usize, tx_bytes: usize) -> (s: udp::Socket<'static>)
    ensures
        udp_bound_port(s) == 0,
        udp_tx_queue(s).len() == 0,
        udp_rx_queue(s).len() == 0,
        forall|n: nat| #[trigger] udp_tx_fits(s, n) == (tx_slots > 0 && n <= tx_bytes),
{
    let rx = udp::PacketBuffer::new(vec![udp::PacketMetadata::EMPTY; rx_slots], vec![0u8; rx_bytes]);
    let tx = udp::PacketBuffer::new(vec![udp::PacketMetadata::EMPTY; tx_slots], vec![0u8; tx_bytes]);
    udp::Socket::new(rx, tx)
}

/// `udp::Socket::bind` to `addr`. Port 0 is refused with `Unaddressable`, and
/// a socket bound already with `InvalidState`, both leaving the socket as it
/// was; otherwise the socket is bound to the port of `addr`, its queues and
/// buffer space untouched.
#[verifier::external_body]
fn udp_bind<'s>(socket: &mut udp::Socket<'s>, addr: SocketAddr) -> (r: BindOutcome)
    ensures
        addr.port == 0 ==> (r is Err && r->Err_0 == BindFailure::Unaddressable) && *final(socket) == *old(socket),
        addr.port != 0 && udp_bound_port(*old(socket)) != 0 ==> (r is Err && r->Err_0 == BindFailure::InvalidState)
            && *final(socket) == *old(socket),
        addr.port != 0 && udp_bound_port(*old(socket)) == 0 ==> r is Ok && udp_bound_port(*final(socket))
            == addr.port && udp_tx_queue(*final(socket)) == udp_tx_queue(*old(socket)) && udp_rx_queue(
            *final(socket),
        ) == udp_rx_queue(*old(socket)) && forall|n: nat| #[trigger] udp_tx_fits(*final(socket), n)
            == udp_tx_fits(*old(socket), n),
{
    let ip = match addr.addr {
        IpAddr::V4(b) => IpAddress::Ipv4(Ipv4Address(b)),
        IpAddr::V6(b) => IpAddress::Ipv6(Ipv6Address(b)),
    };
    match socket.bind(IpEndpoint::new(ip, addr.port)) {
        Ok(()) => Ok(()),
        Err(udp::BindError::InvalidState) => Err(BindFailure::InvalidState),
        Err(udp::BindError::Unaddressable) => Err(BindFailure::Unaddressable),
    }
}

/// `udp::Socket::is_open`: whether the socket is bound (its port is not 0).
#[verifier::external_body]
fn udp_is_open<'s>(socket: &udp::Socket<'s>) -> (b: bool)
    ensures
        b == (udp_bound_port(*socket) != 0),
{
    socket.is_open()
}

/// `udp::Socket::can_send`: whether the transmit buffer has a free packet
/// slot, which is whether an empty datagram fits; no datagram fits without.
#[verifier::external_body]
fn udp_can_send<'s>(socket: &udp::Socket<'s>) -> (b: bool)
    ensures
        b == udp_tx_fits(*socket, 0),
        forall|n: nat| #[trigger] udp_tx_fits(*socket, n) ==> b,
{
    socket.can_send()
}

/// `udp::Socket::can_recv`: whether the receive buffer holds anything; it
/// does whenever a datagram is waiting.
#[verifier::external_body]
fn udp_can_recv<'s>(socket: &udp::Socket<'s>) -> (b: bool)
    ensures
        udp_rx_queue(*socket).len() > 0 ==> b,
{
    socket.can_recv()
}

/// `udp::Socket::send_slice`: an unbound socket, or a destination whose port
/// is 0 or whose address is unspecified, is refused with `Unaddressable` and
/// nothing changes; a datagram that does not fit is refused with
/// `BufferFull`; otherwise `data` is queued for `addr`. The binding and the
/// receive queue are never touched.
#[verifier::external_body]
fn udp_send_slice<'s>(socket: &mut udp::Socket<'s>, data: &[u8], addr: SocketAddr) -> (r: SendOutcome)
    ensures
        (udp_bound_port(*old(socket)) == 0 || unaddressable(addr)) ==> (r is Err && r->Err_0 == SendFailure::Unaddressable)
            && *final(socket) == *old(socket),
        !(udp_bound_port(*old(socket)) == 0 || unaddressable(addr)) && udp_tx_fits(*old(socket), data@.len())
            ==> r is Ok && udp_tx_queue(*final(socket)) == udp_tx_queue(*old(socket)).push((data@, addr)),
        !(udp_bound_port(*old(socket)) == 0 || unaddressable(addr)) && !udp_tx_fits(*old(socket), data@.len())
            ==> (r is Err && r->Err_0 == SendFailure::BufferFull) && udp_tx_queue(*final(socket)) == udp_tx_queue(*old(socket)),
        udp_bound_port(*final(socket)) == udp_bound_port(*old(socket)),
        udp_rx_queue(*final(socket)) == udp_rx_queue(*old(socket)),
{
    let ip = match addr.addr {
        IpAddr::V4(b) => IpAddress::Ipv4(Ipv4Address(b)),
        IpAddr::V6(b) => IpAddress::Ipv6(Ipv6Address(b)),
    };
    match socket.send_slice(data, IpEndpoint::new(ip, addr.port)) {
        Ok(()) => Ok(()),
        Err(udp::SendError::Unaddressable) => Err(SendFailure::Unaddressable),
        Err(udp::SendError::BufferFull) => Err(SendFailure::BufferFull),
    }
}

/// `udp::Socket::recv_slice`: with no datagram waiting, returns `None`
/// (the stack's `Exhausted`) and leaves `data` and the queue as they were;
/// otherwise takes the oldest datagram off the queue, copies as much of it
/// as fits into the front of `data`, leaves the rest of `data`, and returns
/// the number of bytes copied and the sender. The binding and the transmit
/// side are never touched.
#[verifier::external_body]
fn udp_recv_slice<'s>(socket: &mut udp::Socket<'s>, data: &mut [u8]) -> (r: Option<(usize, SocketAddr)>)
    ensures
        final(data)@.len() == old(data)@.len(),
        udp_rx_queue(*old(socket)).len() == 0 ==> r is None && final(data)@ == old(data)@
            && udp_rx_queue(*final(socket)) == udp_rx_queue(*old(socket)),
        udp_rx_queue(*old(socket)).len() > 0 ==> r == Some((min_len(old(data)@.len() as int, udp_rx_queue(*old(socket))[0].0.len() as int) as usize, udp_rx_queue(*old(socket))[0].1))
            && udp_rx_queue(*final(socket)) == udp_rx_queue(*old(socket)).drop_first(),
        r matches Some((n, _)) ==> front_copied(final(data)@, udp_rx_queue(*old(socket))[0].0, n as int)
            && tail_kept(old(data)@, final(data)@, n as int),
        udp_bound_port(*final(socket)) == udp_bound_port(*old(socket)),
        udp_tx_queue(*final(socket)) == udp_tx_queue(*old(socket)),
        forall|n: nat| #[trigger] udp_tx_fits(*final(socket), n) == udp_tx_fits(*old(socket), n),
{
    match socket.recv_slice(data) {
        Ok((n, ep)) => Some((n, SocketAddr {
            addr: match ep.addr {
                IpAddress::Ipv4(a) => IpAddr::V4(a.0),
                IpAddress::Ipv6(a) => IpAddr::V6(a.0),
            },
            port: ep.port,
        })),
        Err(_) => None,
    }
}

/// `udp::Socket::peek_slice`: as `udp_recv_slice`, but the datagram stays
/// queued.
#[verifier::external_body]
fn udp_peek_slice<'s>(socket: &mut udp::Socket<'s>, data: &mut [u8]) -> (r: Option<(usize, SocketAddr)>)
    ensures
        final(data)@.len() == old(data)@.len(),
        udp_rx_queue(*old(socket)).len() == 0 ==> r is None && final(data)@ == old(data)@,
        udp_rx_queue(*old(socket)).len() > 0 ==> r == Some((min_len(old(data)@.len() as int, udp_rx_queue(*old(socket))[0].0.len() as int) as usize, udp_rx_queue(*old(socket))[0].1)),
        r matches Some((n, _)) ==> front_copied(final(data)@, udp_rx_queue(*old(socket))[0].0, n as int)
            && tail_kept(old(data)@, final(data)@, n as int),
        udp_rx_queue(*final(socket)) == udp_rx_queue(*old(socket)),
        udp_bound_port(*final(socket)) == udp_bound_port(*old(socket)),
        udp_tx_queue(*final(socket)) == udp_tx_queue(*old(socket)),
        forall|n: nat| #[trigger] udp_tx_fits(*final(socket), n) == udp_tx_fits(*old(socket), n),
{
    match socket.peek_slice(data) {
        Ok((n, ep)) => Some((n, SocketAddr {
            addr: match ep.addr {
                IpAddress::Ipv4(a) => IpAddr::V4(a.0),
                IpAddress::Ipv6(a) => IpAddr::V6(a.0),
            },
            port: ep.port,
        })),
        Err(_) => None,
    }
}

/// `udp::Socket::close`: unbinds the socket and empties both queues.
#[verifier::external_body]
fn udp_close<'s>(socket: &mut udp::Socket<'s>)
    ensures
        udp_bound_port(*final(socket)) == 0,
        udp_tx_queue(*final(socket)).len() == 0,
        udp_rx_queue(*final(socket)).len() == 0,
{
    socket.close()
}

/// How a refused bind is reported: a socket bound already gives
/// `AlreadyExists`, port 0 gives `InvalidInput`.
pub open spec fn spec_bind_error(e: BindFailure) -> SocketError {
    match e {
        BindFailure::InvalidState => SocketError::AlreadyExists,
        BindFailure::Unaddressable => SocketError::InvalidInput,
    }
}

/// How a refused send is reported: a full buffer gives `Again` (try later),
/// an unusable destination gives `ConnectionRefused`.
pub open spec fn spec_send_error(e: SendFailure) -> SocketError {
    match e {
        SendFailure::BufferFull => SocketError::Again,
        SendFailure::Unaddressable => SocketError::ConnectionRefused,
    }
}

/// The error a refused bind is reported as.
pub fn bind_error(e: BindFailure) -> (r: SocketError)
    ensures
        r == spec_bind_error(e),
{
    match e {
        BindFailure::InvalidState => SocketError::AlreadyExists,
        BindFailure::Unaddressable => SocketError::InvalidInput,
    }
}

/// The error a refused send is reported as.
pub fn send_error(e: SendFailure) -> (r: SocketError)
    ensures
        r == spec_send_error(e),
{
    match e {
        SendFailure::BufferFull => SocketError::Again,
        SendFailure::Unaddressable => SocketError::ConnectionRefused,
    }
}

/// What `local_addr` reports for a socket bound to `bound` (if any).
pub open spec fn spec_local_addr(bound: Option<SocketAddr>) -> Result<SocketAddr, SocketError> {
    match bound {
        Some(a) => Ok(a),
        None => Err(SocketError::NotConnected),
    }
}

/// What to do after an attempt that gave `r`.
pub enum PollStep<T> {
    /// Nothing could be done yet: poll the interfaces, yield, and try again.
    Retry,
    /// The operation is over, with this result.
    Finish(Result<T, SocketError>),
}

/// A send or receive attempt that failed with `Again` is retried; any other
/// outcome is final.
pub fn poll_step<T>(r: Result<T, SocketError>) -> (s: PollStep<T>)
    ensures
        (r matches Err(e) && e == SocketError::Again) ==> s is Retry,
        !(r matches Err(e) && e == SocketError::Again) ==> s == PollStep::Finish(r),
{
    match r {
        Err(SocketError::Again) => PollStep::Retry,
        _ => PollStep::Finish(r),
    }
}

/// A UDP socket: its handle in the stack's socket set and the address it was
/// bound to through it.
pub struct UdpSocket {
    handle: Option<SocketHandle>,
    local_addr: Option<SocketAddr>,
}

impl UdpSocket {
    /// The socket's handle in the stack's socket set, if it has one.
    pub closed spec fn handle_view(&self) -> Option<SocketHandle> {
        self.handle
    }

    /// The address the socket was bound to, if any.
    pub closed spec fn bound_view(&self) -> Option<SocketAddr> {
        self.local_addr
    }

    /// A socket for the freshly added stack socket `handle`, not bound yet.
    pub fn new(handle: SocketHandle) -> (s: Self)
        ensures
            s.handle_view() == Some(handle),
            s.bound_view() == None::<SocketAddr>,
    {
        UdpSocket { handle: Some(handle), local_addr: None }
    }

    /// The address the socket is bound to, or `NotConnected`.
    pub fn local_addr(&self) -> (r: Result<SocketAddr, SocketError>)
        ensures
            r == spec_local_addr(self.bound_view()),
    {
        match self.local_addr {
            Some(a) => Ok(a),
            None => Err(SocketError::NotConnected),
        }
    }

    /// The handle through which every operation reaches the stack socket, or
    /// `InvalidInput` for a socket without one.
    pub fn handle(&self) -> (r: Result<SocketHandle, SocketError>)
        ensures
            match self.handle_view() {
                Some(h) => r == Ok::<SocketHandle, SocketError>(h),
                None => r == Err::<SocketHandle, SocketError>(SocketError::InvalidInput),
            },
    {
        match self.handle {
            Some(h) => Ok(h),
            None => Err(SocketError::InvalidInput),
        }
    }

    /// Binds the socket, whose stack socket is `socket`, to `addr`. A socket
    /// bound already through this API fails with `InvalidInput` without the
    /// stack being asked. Otherwise port 0 gives `InvalidInput` and a stack
    /// socket that is bound already gives `AlreadyExists`, both leaving the
    /// stack socket as it was; else the stack socket is bound to the port of
    /// `addr`, its queues untouched, and the socket records `addr`.
    pub fn bind<'s>(&mut self, socket: &mut udp::Socket<'s>, addr: SocketAddr) -> (r: Result<(), SocketError>)
        ensures
            final(self).handle_view() == old(self).handle_view(),
            old(self).bound_view() is Some ==> r == Err::<(), SocketError>(SocketError::InvalidInput)
                && final(self).bound_view() == old(self).bound_view() && *final(socket) == *old(socket),
            old(self).bound_view() is None && addr.port == 0 ==> r == Err::<(), SocketError>(
                SocketError::InvalidInput,
            ) && final(self).bound_view() is None && *final(socket) == *old(socket),
            old(self).bound_view() is None && addr.port != 0 && udp_bound_port(*old(socket)) != 0
                ==> r == Err::<(), SocketError>(SocketError::AlreadyExists) && final(self).bound_view() is None
                && *final(socket) == *old(socket),
            old(self).bound_view() is None && addr.port != 0 && udp_bound_port(*old(socket)) == 0
                ==> r is Ok && final(self).bound_view() == Some(addr) && udp_bound_port(*final(socket))
                == addr.port && udp_tx_queue(*final(socket)) == udp_tx_queue(*old(socket))
                && udp_rx_queue(*final(socket)) == udp_rx_queue(*old(socket)),
    {
        if self.local_addr.is_some() {
            return Err(SocketError::InvalidInput);
        }
        match udp_bind(socket, addr) {
            Ok(()) => {},
            Err(e) => return Err(bind_error(e)),
        }
        self.local_addr = Some(addr);
        Ok(())
    }

    /// One attempt to send `buf` to `addr` through `socket`, with the outcome
    /// `spec_send` gives: `NotConnected` for an unbound socket, `Again` when
    /// the transmit buffer has no room, `ConnectionRefused` for a destination
    /// the stack refuses, and otherwise all of `buf` queued as one datagram
    /// for `addr`. A failed attempt queues nothing; the binding and the
    /// receive queue are never touched.
    pub fn send_attempt<'s>(socket: &mut udp::Socket<'s>, buf: &[u8], addr: SocketAddr) -> (r: Result<usize, SocketError>)
        ensures
            r == spec_send(
                udp_bound_port(*old(socket)),
                udp_tx_fits(*old(socket), 0),
                udp_tx_fits(*old(socket), buf@.len()),
                addr,
                buf@.len(),
            ),
            udp_bound_port(*old(socket)) != 0 && !unaddressable(addr) && udp_tx_fits(*old(socket), buf@.len())
                ==> r == Ok::<usize, SocketError>(buf@.len() as usize),
            r is Ok ==> udp_tx_queue(*final(socket)) == udp_tx_queue(*old(socket)).push((buf@, addr)),
            r is Err ==> udp_tx_queue(*final(socket)) == udp_tx_queue(*old(socket)),
            udp_bound_port(*final(socket)) == udp_bound_port(*old(socket)),
            udp_rx_queue(*final(socket)) == udp_rx_queue(*old(socket)),
    {
        if !udp_is_open(socket) {
            Err(SocketError::NotConnected)
        } else if udp_can_send(socket) {
            match udp_send_slice(socket, buf, addr) {
                Ok(()) => Ok(buf.len()),
                Err(e) => Err(send_error(e)),
            }
        } else {
            Err(SocketError::Again)
        }
    }

    /// One attempt to take a datagram from `socket` into `buf`, with the
    /// outcome `spec_recv` gives: `NotConnected` for an unbound socket and
    /// `Again` when no datagram is waiting, both with `buf` and the queue
    /// untouched; otherwise the oldest datagram is taken off the queue, as
    /// much of it as fits fills the front of `buf`, the rest of `buf` is kept,
    /// and the number of bytes copied and the sender are returned.
    pub fn recv_attempt<'s>(socket: &mut udp::Socket<'s>, buf: &mut [u8]) -> (r: Result<(usize, SocketAddr), SocketError>)
        ensures
            r == spec_recv(udp_bound_port(*old(socket)), udp_rx_queue(*old(socket)), old(buf)@.len()),
            r matches Ok((n, a)) ==> a == udp_rx_queue(*old(socket))[0].1 && n <= old(buf)@.len() && n
                <= udp_rx_queue(*old(socket))[0].0.len() && (n == old(buf)@.len() || n == udp_rx_queue(
                *old(socket),
            )[0].0.len()),
            final(buf)@.len() == old(buf)@.len(),
            r matches Ok((n, _)) ==> front_copied(final(buf)@, udp_rx_queue(*old(socket))[0].0, n as int)
                && tail_kept(old(buf)@, final(buf)@, n as int),
            r is Ok ==> udp_rx_queue(*final(socket)) == udp_rx_queue(*old(socket)).drop_first(),
            r is Err ==> final(buf)@ == old(buf)@ && udp_rx_queue(*final(socket)) == udp_rx_queue(*old(socket)),
            udp_bound_port(*final(socket)) == udp_bound_port(*old(socket)),
            udp_tx_queue(*final(socket)) == udp_tx_queue(*old(socket)),
    {
        let buf_len = buf.len();
        proof {
            if udp_bound_port(*socket) != 0 && udp_rx_queue(*socket).len() > 0 {
                lemma_recv_reports_oldest_sender(udp_bound_port(*socket), udp_rx_queue(*socket), buf_len as nat);
            }
        }
        if !udp_is_open(socket) {
            Err(SocketError::NotConnected)
        } else if udp_can_recv(socket) {
            match udp_recv_slice(socket, buf) {
                Some(x) => Ok(x),
                None => Err(SocketError::Again),
            }
        } else {
            Err(SocketError::Again)
        }
    }

    /// As `recv_attempt`, but the datagram stays queued: the receive queue is
    /// the same afterwards whatever the outcome.
    pub fn peek_attempt<'s>(socket: &mut udp::Socket<'s>, buf: &mut [u8]) -> (r: Result<(usize, SocketAddr), SocketError>)
        ensures
            r == spec_recv(udp_bound_port(*old(socket)), udp_rx_queue(*old(socket)), old(buf)@.len()),
            r matches Ok((n, a)) ==> a == udp_rx_queue(*old(socket))[0].1 && n <= old(buf)@.len() && n
                <= udp_rx_queue(*old(socket))[0].0.len() && (n == old(buf)@.len() || n == udp_rx_queue(
                *old(socket),
            )[0].0.len()),
            final(buf)@.len() == old(buf)@.len(),
            r matches Ok((n, _)) ==> front_copied(final(buf)@, udp_rx_queue(*old(socket))[0].0, n as int)
                && tail_kept(old(buf)@, final(buf)@, n as int),
            r is Err ==> final(buf)@ == old(buf)@,
            udp_rx_queue(*final(socket)) == udp_rx_queue(*old(socket)),
            udp_bound_port(*final(socket)) == udp_bound_port(*old(socket)),
            udp_tx_queue(*final(socket)) == udp_tx_queue(*old(socket)),
    {
        let buf_len = buf.len();
        proof {
            if udp_bound_port(*socket) != 0 && udp_rx_queue(*socket).len() > 0 {
                lemma_recv_reports_oldest_sender(udp_bound_port(*socket), udp_rx_queue(*socket), buf_len as nat);
            }
        }
        if !udp_is_open(socket) {
            Err(SocketError::NotConnected)
        } else if udp_can_recv(socket) {
            match udp_peek_slice(socket, buf) {
                Some(x) => Ok(x),
                None => Err(SocketError::Again),
            }
        } else {
            Err(SocketError::Again)
        }
    }

    /// Shuts the stack socket down: it is unbound and both its queues are
    /// emptied.
    pub fn shutdown_socket<'s>(socket: &mut udp::Socket<'s>)
        ensures
            udp_bound_port(*final(socket)) == 0,
            udp_tx_queue(*final(socket)).len() == 0,
            udp_rx_queue(*final(socket)).len() == 0,
    {
        udp_close(socket)
    }
}

/// A fresh stack socket over packet buffers of the given sizes (`rx_slots`
/// packets and `rx_bytes` payload bytes to receive into, `tx_slots` and
/// `tx_bytes` to send from): unbound, with both queues empty, taking any
/// datagram of at most `tx_bytes` bytes when `tx_slots` is not 0.
pub fn new_stack_socket(rx_slots: usize, rx_bytes: usize, tx_slots: usize, tx_bytes: usize) -> (s: udp::Socket<'static>)
    ensures
        udp_bound_port(s) == 0,
        udp_tx_queue(s).len() == 0,
        udp_rx_queue(s).len() == 0,
        forall|n: nat| #[trigger] udp_tx_fits(s, n) == (tx_slots > 0 && n <= tx_bytes),
{
    udp_socket_new(rx_slots, rx_bytes, tx_slots, tx_bytes)
}

/// What a send attempt gives, for a stack socket bound to `port`, with room
/// for a packet (`room`) and room for this datagram (`fits`), sending `len`
/// bytes to `addr`.
pub open spec fn spec_send(port: u16, room: bool, fits: bool, addr: SocketAddr, len: nat) -> Result<usize, SocketError> {
    if port == 0 {
        Err(SocketError::NotConnected)
    } else if !room {
        Err(SocketError::Again)
    } else if unaddressable(addr) {
        Err(SocketError::ConnectionRefused)
    } else if !fits {
        Err(SocketError::Again)
    } else {
        Ok(len as usize)
    }
}

/// What a receive or peek attempt gives, for a stack socket bound to `port`
/// whose receive queue is `rx`, into a buffer of `len` bytes.
pub open spec fn spec_recv(port: u16, rx: Seq<(Seq<u8>, SocketAddr)>, len: nat) -> Result<(usize, SocketAddr), SocketError> {
    if port == 0 {
        Err(SocketError::NotConnected)
    } else if rx.len() == 0 {
        Err(SocketError::Again)
    } else {
        Ok((min_len(len as int, rx[0].0.len() as int) as usize, rx[0].1))
    }
}

/// A send on a bound stack socket to an addressable destination, of a
/// datagram the transmit buffer takes, succeeds and counts every byte.
pub proof fn lemma_send_succeeds_when_it_fits(port: u16, room: bool, fits: bool, addr: SocketAddr, len: nat)
    requires
        port != 0,
        addr.port != 0,
        addr.addr matches IpAddr::V4(b) ==> b@[0] != 0,
        addr.addr matches IpAddr::V6(b) ==> exists|i: int| 0 <= i < 16 && b@[i] != 0,
        fits,
        fits ==> room,
        len <= usize::MAX,
    ensures
        spec_send(port, room, fits, addr, len) == Ok::<usize, SocketError>(len as usize),
{
}

/// A successful receive or peek on a bound socket with a datagram waiting
/// reports the sender recorded with the oldest datagram, and copies as many
/// bytes as the shorter of the buffer and the datagram.
pub proof fn lemma_recv_reports_oldest_sender(port: u16, rx: Seq<(Seq<u8>, SocketAddr)>, len: nat)
    requires
        port != 0,
        rx.len() > 0,
        len <= usize::MAX,
    ensures
        spec_recv(port, rx, len) matches Ok((n, a)) && a == rx[0].1 && n <= len && n <= rx[0].0.len()
            && (n == len || n == rx[0].0.len()),
{
}

/// Once bound, a socket reports the address it was bound to.
pub proof fn lemma_local_addr_after_bind(s: UdpSocket, addr: SocketAddr)
    requires
        s.bound_view() == Some(addr),
    ensures
        spec_local_addr(s.bound_view()) == Ok::<SocketAddr, SocketError>(addr),
{
}

/// `local_addr` succeeds only on a socket that recorded an address, which
/// only a successful `bind` does: a socket without one reports
/// `NotConnected`.
pub proof fn lemma_local_addr_needs_bind(s: UdpSocket)
    requires
        s.bound_view() is None,
    ensures
        spec_local_addr(s.bound_view()) == Err::<SocketAddr, SocketError>(SocketError::NotConnected),
{
}

/// Peeking does not consume: it leaves the binding and the receive queue as
/// they were, so a receive right after it gives the same result.
pub proof fn lemma_peek_does_not_consume(before: udp::Socket<'static>, after: udp::Socket<'static>, len: nat)
    requires
        udp_bound_port(after) == udp_bound_port(before),
        udp_rx_queue(after) == udp_rx_queue(before),
    ensures
        spec_recv(udp_bound_port(after), udp_rx_queue(after), len) == spec_recv(
            udp_bound_port(before),
            udp_rx_queue(before),
            len,
        ),
{
}

/// An unbound stack socket (a fresh one, or one shut down) refuses every
/// send, receive and peek with `NotConnected`.
pub proof fn lemma_unbound_refuses(s: udp::Socket<'static>, room: bool, fits: bool, addr: SocketAddr, len: nat)
    requires
        udp_bound_port(s) == 0,
    ensures
        spec_send(udp_bound_port(s), room, fits, addr, len) == Err::<usize, SocketError>(SocketError::NotConnected),
        spec_recv(udp_bound_port(s), udp_rx_queue(s), len) == Err::<(usize, SocketAddr), SocketError>(
            SocketError::NotConnected,
        ),
{
}

} // verus!
