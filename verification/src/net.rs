//! IPv4 socket addresses as user programs lay them out (`sockaddr_in`),
//! and the decisions of the socket calls on them.
use vstd::prelude::*;
use crate::consts::NetType;
use crate::errno::Errno;

verus! {

/// The address family of IPv4.
pub const AF_INET: u16 = 2;

/// The size of a `sockaddr_in`.
pub const SOCKADDR_IN_LEN: usize = 16;

/// An IPv4 address and port, in host order.
#[derive(Clone, Copy, Debug, PartialEq, Eq)]
pub struct SockAddrV4 {
    pub ip: [u8; 4],
    pub port: u16,
}

/// The plain values of an address.
pub open spec fn addr_view(a: SockAddrV4) -> (Seq<u8>, u16) {
    (a.ip@, a.port)
}

/// The family of a `sockaddr_in` (its first two bytes, little-endian).
pub open spec fn family_of(b: Seq<u8>) -> int {
    b[0] + b[1] * 256
}

/// The port of a `sockaddr_in`: bytes 2 and 3, in network order.
pub open spec fn port_of(b: Seq<u8>) -> int {
    b[2] * 256 + b[3]
}

/// The IPv4 address of a `sockaddr_in`: bytes 4 to 8.
pub open spec fn ip_of(b: Seq<u8>) -> Seq<u8> {
    b.subrange(4, 8)
}

/// The first eight bytes of the `sockaddr_in` of an address: family IPv4
/// (little-endian), the port in network order, the address.
pub open spec fn sockaddr_bytes(a: SockAddrV4) -> Seq<u8> {
    seq![2u8, 0u8, (a.port / 256) as u8, (a.port % 256) as u8] + a.ip@
}

/// Reads the address of a `sockaddr_in`: `EAFNOSUPPORT` unless its family
/// is IPv4.
pub fn read_sockaddr_in(b: &[u8]) -> (res: Result<SockAddrV4, Errno>)
    requires
        b@.len() >= SOCKADDR_IN_LEN,
    ensures
        family_of(b@) != AF_INET ==> res == Err::<SockAddrV4, Errno>(Errno::EAFNOSUPPORT),
        family_of(b@) == AF_INET ==> (res matches Ok(a) && a.ip@ == ip_of(b@) && a.port == port_of(b@)),
{
    let family: u16 = (b[0] as u16) + (b[1] as u16) * 256;
    if family != AF_INET {
        return Err(Errno::EAFNOSUPPORT);
    }
    let port: u16 = (b[2] as u16) * 256 + (b[3] as u16);
    let ip: [u8; 4] = [b[4], b[5], b[6], b[7]];
    proof {
        assert(ip@ =~= ip_of(b@));
    }
    Ok(SockAddrV4 { ip, port })
}

/// Writes `addr` as a `sockaddr_in` at the front of `b`: family IPv4, the
/// port in network order and the address; the rest of `b` is left as it
/// was.
pub fn write_sockaddr_in(b: &mut [u8], addr: SockAddrV4)
    requires
        old(b)@.len() >= SOCKADDR_IN_LEN,
    ensures
        final(b)@.len() == old(b)@.len(),
        final(b)@.subrange(0, 8) == sockaddr_bytes(addr),
        forall|k: int| 8 <= k < old(b)@.len() ==> #[trigger] final(b)@[k] == old(b)@[k],
{
    b[0] = 2;
    b[1] = 0;
    b[2] = (addr.port / 256) as u8;
    b[3] = (addr.port % 256) as u8;
    b[4] = addr.ip[0];
    b[5] = addr.ip[1];
    b[6] = addr.ip[2];
    b[7] = addr.ip[3];
    proof {
        assert(b@.subrange(0, 8) =~= sockaddr_bytes(addr));
    }
}

/// What `bind` does.
#[derive(Clone, Copy, Debug, PartialEq, Eq)]
pub enum BindStep {
    /// The port is taken by a socket of the same kind: share it.
    Reuse(u16),
    /// Bind the socket to the address.
    Bind(SockAddrV4),
}

/// `bind` with the `sockaddr_in` in `b` on the descriptor, whose socket
/// kind is `kind` (`None`: the descriptor is not open or not a socket),
/// where `port_used` says whether a socket of that kind already has the
/// port: `EINVAL` for a descriptor that is no socket, then `EAFNOSUPPORT`
/// for a family other than IPv4; a used port is shared (streams and
/// datagrams); else the socket is to be bound (see `bind_result`).
pub fn bind_step(b: &[u8], kind: Option<NetType>, port_used: bool) -> (res: Result<BindStep, Errno>)
    requires
        b@.len() >= SOCKADDR_IN_LEN,
    ensures
        kind is None ==> res == Err::<BindStep, Errno>(Errno::EINVAL),
        kind is Some && family_of(b@) != AF_INET ==> res == Err::<BindStep, Errno>(Errno::EAFNOSUPPORT),
        kind is Some && family_of(b@) == AF_INET ==> (if port_used && kind->0 != NetType::RAW {
            res == Ok::<BindStep, Errno>(BindStep::Reuse(port_of(b@) as u16))
        } else {
            res matches Ok(BindStep::Bind(a)) && a.ip@ == ip_of(b@) && a.port == port_of(b@)
        }),
{
    let kind = match kind {
        Some(k) => k,
        None => return Err(Errno::EINVAL),
    };
    let addr = match read_sockaddr_in(b) {
        Ok(a) => a,
        Err(e) => return Err(e),
    };
    match kind {
        NetType::STEAM | NetType::DGRAME => {
            if port_used {
                return Ok(BindStep::Reuse(addr.port));
            }
        },
        NetType::RAW => {},
    }
    Ok(BindStep::Bind(addr))
}

/// What `bind` answers once the socket was asked to bind: 0, or
/// `EALREADY` when the network stack refused the address.
pub fn bind_result(bound: bool) -> (res: Result<usize, Errno>)
    ensures
        res == (if bound {
            Ok::<usize, Errno>(0)
        } else {
            Err::<usize, Errno>(Errno::EALREADY)
        }),
{
    if bound {
        Ok(0)
    } else {
        Err(Errno::EALREADY)
    }
}

/// `recvfrom`: how many bytes of a datagram of `data_len` bytes reach a
/// buffer of `buf_len` bytes.
pub fn recv_len(data_len: usize, buf_len: usize) -> (res: usize)
    ensures
        res == (if data_len < buf_len {
            data_len
        } else {
            buf_len
        }),
{
    if data_len < buf_len {
        data_len
    } else {
        buf_len
    }
}

/// `socket`: the kind asked for, or `EINVAL` for an unknown one.
pub fn socket_kind(net_type: usize) -> (res: Result<NetType, Errno>)
    ensures
        net_type == 1 ==> res == Ok::<NetType, Errno>(NetType::STEAM),
        net_type == 2 ==> res == Ok::<NetType, Errno>(NetType::DGRAME),
        net_type != 1 && net_type != 2 ==> res == Err::<NetType, Errno>(Errno::EINVAL),
{
    match NetType::from_usize(net_type) {
        Some(t) => Ok(t),
        None => Err(Errno::EINVAL),
    }
}

/// One round of a loop that waits for a connection, a datagram or a peer:
/// go on with what came, give up with an error, or yield and try again.
#[derive(Clone, Copy, Debug, PartialEq, Eq, Structural)]
pub enum SocketStep {
    Ready,
    Fail(Errno),
    Wait,
}

/// A round of `accept`: a connection that came is taken; else a pending
/// signal interrupts the wait (`EINTR`); else the caller waits on.
pub fn accept_step(accepted: bool, signalled: bool) -> (res: SocketStep)
    ensures
        res == (if accepted {
            SocketStep::Ready
        } else if signalled {
            SocketStep::Fail(Errno::EINTR)
        } else {
            SocketStep::Wait
        }),
{
    if accepted {
        SocketStep::Ready
    } else if signalled {
        SocketStep::Fail(Errno::EINTR)
    } else {
        SocketStep::Wait
    }
}

/// A round of `accept4` or `recvfrom`: what came is taken; else a socket
/// opened with `O_NONBLOCK` answers `EAGAIN`; else the caller waits on.
pub fn nonblocking_step(arrived: bool, nonblocking: bool) -> (res: SocketStep)
    ensures
        res == (if arrived {
            SocketStep::Ready
        } else if nonblocking {
            SocketStep::Fail(Errno::EAGAIN)
        } else {
            SocketStep::Wait
        }),
{
    if arrived {
        SocketStep::Ready
    } else if nonblocking {
        SocketStep::Fail(Errno::EAGAIN)
    } else {
        SocketStep::Wait
    }
}

/// Socket option `SO_SNDBUF`.
pub const SO_SNDBUF: usize = 7;
/// Socket option `SO_RCVBUF`.
pub const SO_RCVBUF: usize = 8;
/// Socket option 2 (`SO_REUSEADDR`).
pub const SO_REUSEADDR: usize = 2;

/// The value `getsockopt` writes for option `optname`: 32000 for either
/// buffer size, 2000 for option 2, and nothing for the others.
pub fn sockopt_value(optname: usize) -> (res: Option<u32>)
    ensures
        res == (if optname == SO_SNDBUF || optname == SO_RCVBUF {
            Some(32000u32)
        } else if optname == SO_REUSEADDR {
            Some(2000u32)
        } else {
            None::<u32>
        }),
{
    if optname == SO_SNDBUF || optname == SO_RCVBUF {
        Some(32000)
    } else if optname == SO_REUSEADDR {
        Some(2000)
    } else {
        None
    }
}

} // verus!
