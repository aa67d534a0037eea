//! The PROXY protocol header (versions 1 and 2) that a load balancer puts
//! in front of a connection to say where the client really came from.
//!
//! The library reads the header from the bytes received so far: an
//! `UnexpectedEof` says that more bytes are needed.
use vstd::prelude::*;
use vstd::string::StringSliceAdditionalSpecFns;
use vstd::utf8::{
    decode_utf8, encode_utf8, encode_utf8_decode_utf8, encode_utf8_valid_utf8, is_ascii_chars, is_ascii_chars_encode_utf8,
    valid_utf8,
};

use crate::inet::{
    char_seqs, chars_of, ipv4_parse, ipv6_parse, lemma_split_on_len, parse_ipv4, parse_ipv6, parse_port, port_parse,
    split_chars, split_on,
};
use crate::util::{lemma_u16_be, lossy_text, u16_be, u16_of_be, utf8_lossy, write_u16_be, ByteReader, IoError};

verus! {

/// The first five bytes of a version 1 header: `PROXY`.
pub open spec fn v1_magic() -> Seq<u8> {
    seq![0x50u8, 0x52, 0x4F, 0x58, 0x59]
}

/// The twelve bytes a version 2 header starts with.
pub open spec fn v2_magic() -> Seq<u8> {
    seq![0x0Du8, 0x0A, 0x0D, 0x0A, 0x00, 0x0D, 0x0A, 0x51, 0x55, 0x49, 0x54, 0x0A]
}

/// The longest version 1 line after `PROXY `, CRLF included.
pub const V1_LINE_LIMIT: usize = 102;

/// What a version 2 header asks of the proxy.
#[derive(Debug, Clone, Copy, PartialEq, Eq, Structural)]
pub enum HAProxyCommand {
    Local,
    Proxy,
}

/// The address family of a version 2 header.
#[derive(Debug, Clone, Copy, PartialEq, Eq, Structural)]
pub enum HAPRoxyAddressFamily {
    Unspec,
    Inet,
    Inet6,
    Unix,
}

/// The transport protocol of a version 2 header.
#[derive(Debug, Clone, Copy, PartialEq, Eq, Structural)]
pub enum HAProxyTransportProtocol {
    Unspec,
    Stream,
    Dgram,
}

/// An IPv4 address with a port.
#[derive(Debug, Clone, Copy, PartialEq, Eq)]
pub struct SocketAddrV4 {
    pub ip: [u8; 4],
    pub port: u16,
}

/// An IPv6 address with a port.
#[derive(Debug, Clone, Copy, PartialEq, Eq)]
pub struct SocketAddrV6 {
    pub ip: [u8; 16],
    pub port: u16,
}

/// The addresses a version 2 header carries.
#[derive(Debug, Clone, PartialEq, Eq)]
pub enum HAProxyAdresses {
    Inet { src: SocketAddrV4, dst: SocketAddrV4 },
    Inet6 { src: SocketAddrV6, dst: SocketAddrV6 },
    Unix { src: String, dst: String },
    Unspec,
}

/// A version 2 header.
#[derive(Debug, Clone, PartialEq, Eq)]
pub struct HAProxyMessageV2 {
    pub command: HAProxyCommand,
    pub address_family: HAPRoxyAddressFamily,
    pub transport_protocol: HAProxyTransportProtocol,
    pub addresses: HAProxyAdresses,
}

/// A version 1 line: an unknown protocol, or the source and destination
/// addresses of a TCP connection over IPv4 or IPv6.
#[derive(Debug, Clone, Copy, PartialEq, Eq)]
pub enum HAProxyV1Line {
    Unknown,
    Tcp4 { src: SocketAddrV4, dst: SocketAddrV4 },
    Tcp6 { src: SocketAddrV6, dst: SocketAddrV6 },
}

/// A PROXY protocol header of either version.
#[derive(Debug, Clone, PartialEq, Eq)]
pub enum HAProxyFrame {
    V1(HAProxyV1Line),
    V2(HAProxyMessageV2),
}

/// The addresses of a version 2 header as spec values.
pub enum AddressesView {
    Inet { src: Seq<u8>, src_port: u16, dst: Seq<u8>, dst_port: u16 },
    Inet6 { src: Seq<u8>, src_port: u16, dst: Seq<u8>, dst_port: u16 },
    Unix { src: Seq<char>, dst: Seq<char> },
    Unspec,
}

/// A version 2 header as spec values.
pub struct V2View {
    pub command: HAProxyCommand,
    pub address_family: HAPRoxyAddressFamily,
    pub transport_protocol: HAProxyTransportProtocol,
    pub addresses: AddressesView,
}

/// A version 1 line as spec values: the protocol and the addresses.
pub enum V1View {
    Unknown,
    Tcp4 { src: Seq<u8>, src_port: u16, dst: Seq<u8>, dst_port: u16 },
    Tcp6 { src: Seq<u8>, src_port: u16, dst: Seq<u8>, dst_port: u16 },
}

/// A header as spec values.
pub enum FrameView {
    V1(V1View),
    V2(V2View),
}

impl HAProxyAdresses {
    pub open spec fn view(&self) -> AddressesView {
        match self {
            HAProxyAdresses::Inet { src, dst } => AddressesView::Inet {
                src: src.ip@,
                src_port: src.port,
                dst: dst.ip@,
                dst_port: dst.port,
            },
            HAProxyAdresses::Inet6 { src, dst } => AddressesView::Inet6 {
                src: src.ip@,
                src_port: src.port,
                dst: dst.ip@,
                dst_port: dst.port,
            },
            HAProxyAdresses::Unix { src, dst } => AddressesView::Unix { src: src@, dst: dst@ },
            HAProxyAdresses::Unspec => AddressesView::Unspec,
        }
    }
}

impl HAProxyMessageV2 {
    pub open spec fn view(&self) -> V2View {
        V2View {
            command: self.command,
            address_family: self.address_family,
            transport_protocol: self.transport_protocol,
            addresses: self.addresses.view(),
        }
    }
}

impl HAProxyV1Line {
    pub open spec fn view(&self) -> V1View {
        match self {
            HAProxyV1Line::Unknown => V1View::Unknown,
            HAProxyV1Line::Tcp4 { src, dst } => V1View::Tcp4 {
                src: src.ip@,
                src_port: src.port,
                dst: dst.ip@,
                dst_port: dst.port,
            },
            HAProxyV1Line::Tcp6 { src, dst } => V1View::Tcp6 {
                src: src.ip@,
                src_port: src.port,
                dst: dst.ip@,
                dst_port: dst.port,
            },
        }
    }
}

impl HAProxyFrame {
    pub open spec fn view(&self) -> FrameView {
        match self {
            HAProxyFrame::V1(l) => FrameView::V1(l.view()),
            HAProxyFrame::V2(m) => FrameView::V2(m.view()),
        }
    }
}

// ---------------------------------------------------------------------------
// Version 2
// ---------------------------------------------------------------------------

/// The command in the low nibble of the version byte.
pub open spec fn command_of(b: u8) -> Option<HAProxyCommand> {
    if b & 0x0f == 0 {
        Some(HAProxyCommand::Local)
    } else if b & 0x0f == 1 {
        Some(HAProxyCommand::Proxy)
    } else {
        None
    }
}

/// The address family in the high nibble of the family byte.
pub open spec fn family_of(b: u8) -> Option<HAPRoxyAddressFamily> {
    if b >> 4u8 == 0 {
        Some(HAPRoxyAddressFamily::Unspec)
    } else if b >> 4u8 == 1 {
        Some(HAPRoxyAddressFamily::Inet)
    } else if b >> 4u8 == 2 {
        Some(HAPRoxyAddressFamily::Inet6)
    } else if b >> 4u8 == 3 {
        Some(HAPRoxyAddressFamily::Unix)
    } else {
        None
    }
}

/// The transport protocol in the low nibble of the family byte.
pub open spec fn transport_of(b: u8) -> Option<HAProxyTransportProtocol> {
    if b & 0x0f == 0 {
        Some(HAProxyTransportProtocol::Unspec)
    } else if b & 0x0f == 1 {
        Some(HAProxyTransportProtocol::Stream)
    } else if b & 0x0f == 2 {
        Some(HAProxyTransportProtocol::Dgram)
    } else {
        None
    }
}

/// The bytes of `b` before its first zero byte (all of them if there is
/// none).
pub open spec fn until_nul(b: Seq<u8>) -> Seq<u8>
    decreases b.len(),
{
    if b.len() == 0 {
        b
    } else if b[0] == 0 {
        Seq::empty()
    } else {
        seq![b[0]] + until_nul(b.drop_first())
    }
}

/// The number of bytes the addresses of a family take.
pub open spec fn address_block_len(af: HAPRoxyAddressFamily) -> nat {
    match af {
        HAPRoxyAddressFamily::Inet => 12,
        HAPRoxyAddressFamily::Inet6 => 36,
        HAPRoxyAddressFamily::Unix => 216,
        HAPRoxyAddressFamily::Unspec => 0,
    }
}

/// The text of some bytes as `String::from_utf8_lossy` gives it: the text
/// they encode when they are UTF-8, else the lossy reading.
pub open spec fn utf8_text(b: Seq<u8>) -> Seq<char> {
    if valid_utf8(b) {
        decode_utf8(b)
    } else {
        lossy_text(b)
    }
}

/// The addresses read from the start of the address block `a`, whose
/// length field says `len`.
pub open spec fn addresses_decode(a: Seq<u8>, af: HAPRoxyAddressFamily, tp: HAProxyTransportProtocol, len: u16) -> Result<
    AddressesView,
    IoError,
> {
    if af != HAPRoxyAddressFamily::Unspec && af != HAPRoxyAddressFamily::Unix && tp == HAProxyTransportProtocol::Unspec {
        Err(IoError::InvalidData)
    } else if len < address_block_len(af) {
        Err(IoError::InvalidData)
    } else if a.len() < address_block_len(af) {
        Err(IoError::UnexpectedEof)
    } else {
        Ok(
            match af {
                HAPRoxyAddressFamily::Inet => AddressesView::Inet {
                    src: a.subrange(0, 4),
                    src_port: u16_of_be(a[8], a[9]),
                    dst: a.subrange(4, 8),
                    dst_port: u16_of_be(a[10], a[11]),
                },
                HAPRoxyAddressFamily::Inet6 => AddressesView::Inet6 {
                    src: a.subrange(0, 16),
                    src_port: u16_of_be(a[32], a[33]),
                    dst: a.subrange(16, 32),
                    dst_port: u16_of_be(a[34], a[35]),
                },
                HAPRoxyAddressFamily::Unix => AddressesView::Unix {
                    src: utf8_text(until_nul(a.subrange(0, 108))),
                    dst: utf8_text(until_nul(a.subrange(108, 216))),
                },
                HAPRoxyAddressFamily::Unspec => AddressesView::Unspec,
            },
        )
    }
}

/// Reading a version 2 header after its magic: version and command byte,
/// family byte, length, addresses, and the rest of the declared length.
pub open spec fn v2_decode(s: Seq<u8>) -> Result<(V2View, nat), IoError> {
    if s.len() < 1 {
        Err(IoError::UnexpectedEof)
    } else if s[0] >> 4u8 != 2 || command_of(s[0]) is None {
        Err(IoError::InvalidData)
    } else if s.len() < 2 {
        Err(IoError::UnexpectedEof)
    } else if family_of(s[1]) is None || transport_of(s[1]) is None {
        Err(IoError::InvalidData)
    } else if s.len() < 4 {
        Err(IoError::UnexpectedEof)
    } else {
        let af = family_of(s[1]).unwrap();
        let tp = transport_of(s[1]).unwrap();
        let len = u16_of_be(s[2], s[3]);
        match addresses_decode(s.skip(4), af, tp, len) {
            Err(e) => Err(e),
            Ok(addresses) => {
                let total = 4 + len;
                if s.len() < total {
                    Err(IoError::UnexpectedEof)
                } else {
                    Ok(
                        (
                            V2View {
                                command: command_of(s[0]).unwrap(),
                                address_family: af,
                                transport_protocol: tp,
                                addresses,
                            },
                            total as nat,
                        ),
                    )
                }
            },
        }
    }
}

fn command_from(b: u8) -> (r: Option<HAProxyCommand>)
    ensures
        r == command_of(b),
{
    let low = b & 0x0f;
    if low == 0 {
        Some(HAProxyCommand::Local)
    } else if low == 1 {
        Some(HAProxyCommand::Proxy)
    } else {
        None
    }
}

fn family_from(b: u8) -> (r: Option<HAPRoxyAddressFamily>)
    ensures
        r == family_of(b),
{
    let high = b >> 4u8;
    if high == 0 {
        Some(HAPRoxyAddressFamily::Unspec)
    } else if high == 1 {
        Some(HAPRoxyAddressFamily::Inet)
    } else if high == 2 {
        Some(HAPRoxyAddressFamily::Inet6)
    } else if high == 3 {
        Some(HAPRoxyAddressFamily::Unix)
    } else {
        None
    }
}

fn transport_from(b: u8) -> (r: Option<HAProxyTransportProtocol>)
    ensures
        r == transport_of(b),
{
    let low = b & 0x0f;
    if low == 0 {
        Some(HAProxyTransportProtocol::Unspec)
    } else if low == 1 {
        Some(HAProxyTransportProtocol::Stream)
    } else if low == 2 {
        Some(HAProxyTransportProtocol::Dgram)
    } else {
        None
    }
}

/// The bytes before the first zero byte.
fn take_until_nul(b: &[u8]) -> (r: Vec<u8>)
    ensures
        r@ == until_nul(b@),
{
    let mut i: usize = 0;
    while i < b.len() && b[i] != 0
        invariant
            i <= b@.len(),
            forall|j: int| 0 <= j < i ==> b@[j] != 0,
        decreases b.len() - i,
    {
        i = i + 1;
    }
    proof { lemma_until_nul(b@, i as int); }
    let mut r: Vec<u8> = Vec::new();
    let mut k: usize = 0;
    while k < i
        invariant
            i <= b@.len(),
            k <= i,
            r@ == b@.take(k as int),
        decreases i - k,
    {
        r.push(b[k]);
        k = k + 1;
        proof { assert(r@ =~= b@.take(k as int)); }
    }
    r
}

/// `until_nul` is the prefix up to the first zero byte.
proof fn lemma_until_nul(b: Seq<u8>, i: int)
    requires
        0 <= i <= b.len(),
        forall|j: int| 0 <= j < i ==> b[j] != 0,
        i == b.len() || b[i] == 0,
    ensures
        until_nul(b) == b.take(i),
    decreases b.len(),
{
    if b.len() == 0 {
        assert(b.take(i) =~= b);
    } else if b[0] == 0 {
        assert(b.take(i) =~= Seq::<u8>::empty());
    } else {
        lemma_until_nul(b.drop_first(), i - 1);
        assert(seq![b[0]] + b.drop_first().take(i - 1) =~= b.take(i));
    }
}

fn read_v4(src: &mut ByteReader) -> (r: Result<[u8; 4], IoError>)
    ensures
        old(src).rest().len() < 4 ==> r == Err::<[u8; 4], IoError>(IoError::UnexpectedEof),
        old(src).rest().len() >= 4 ==> r is Ok && r.unwrap()@ == old(src).rest().take(4) && final(src).rest()
            == old(src).rest().skip(4),
{
    let d = src.read_exact(4)?;
    let a: [u8; 4] = [d[0], d[1], d[2], d[3]];
    proof { assert(a@ =~= d@); }
    Ok(a)
}

fn read_v6(src: &mut ByteReader) -> (r: Result<[u8; 16], IoError>)
    ensures
        old(src).rest().len() < 16 ==> r == Err::<[u8; 16], IoError>(IoError::UnexpectedEof),
        old(src).rest().len() >= 16 ==> r is Ok && r.unwrap()@ == old(src).rest().take(16) && final(src).rest()
            == old(src).rest().skip(16),
{
    let d = src.read_exact(16)?;
    let a: [u8; 16] = [
        d[0], d[1], d[2], d[3], d[4], d[5], d[6], d[7], d[8], d[9], d[10], d[11], d[12], d[13], d[14], d[15],
    ];
    proof { assert(a@ =~= d@); }
    Ok(a)
}

impl HAProxyMessageV2 {
    fn decode_addresses(src: &mut ByteReader, af: HAPRoxyAddressFamily, tp: HAProxyTransportProtocol, len: u16) -> (r: Result<HAProxyAdresses, IoError>)
        ensures
            match addresses_decode(old(src).rest(), af, tp, len) {
                Ok(a) => r matches Ok(addr) && addr.view() == a && final(src).rest() == old(src).rest().skip(
                    address_block_len(af) as int,
                ),
                Err(e) => r == Err::<HAProxyAdresses, IoError>(e),
            },
    {
        let ghost s = src.rest();
        match af {
            HAPRoxyAddressFamily::Inet => {
                if let HAProxyTransportProtocol::Unspec = tp {
                    return Err(IoError::InvalidData);
                }
                if len < 12 {
                    return Err(IoError::InvalidData);
                }
                if src.remaining() < 12 {
                    return Err(IoError::UnexpectedEof);
                }
                let src_ip = read_v4(src)?;
                let dst_ip = read_v4(src)?;
                let src_port = src.read_u16_be()?;
                let dst_port = src.read_u16_be()?;
                proof {
                    assert(src_ip@ =~= s.subrange(0, 4));
                    assert(dst_ip@ =~= s.subrange(4, 8));
                    assert(src.rest() =~= s.skip(12));
                }
                Ok(HAProxyAdresses::Inet {
                    src: SocketAddrV4 { ip: src_ip, port: src_port },
                    dst: SocketAddrV4 { ip: dst_ip, port: dst_port },
                })
            },
            HAPRoxyAddressFamily::Inet6 => {
                if let HAProxyTransportProtocol::Unspec = tp {
                    return Err(IoError::InvalidData);
                }
                if len < 36 {
                    return Err(IoError::InvalidData);
                }
                if src.remaining() < 36 {
                    return Err(IoError::UnexpectedEof);
                }
                let src_ip = read_v6(src)?;
                let dst_ip = read_v6(src)?;
                let src_port = src.read_u16_be()?;
                let dst_port = src.read_u16_be()?;
                proof {
                    assert(src_ip@ =~= s.subrange(0, 16));
                    assert(dst_ip@ =~= s.subrange(16, 32));
                    assert(src.rest() =~= s.skip(36));
                }
                Ok(HAProxyAdresses::Inet6 {
                    src: SocketAddrV6 { ip: src_ip, port: src_port },
                    dst: SocketAddrV6 { ip: dst_ip, port: dst_port },
                })
            },
            HAPRoxyAddressFamily::Unix => {
                if len < 216 {
                    return Err(IoError::InvalidData);
                }
                if src.remaining() < 216 {
                    return Err(IoError::UnexpectedEof);
                }
                let a = src.read_exact(108)?;
                let b = src.read_exact(108)?;
                proof {
                    assert(a@ =~= s.subrange(0, 108));
                    assert(b@ =~= s.subrange(108, 216));
                    assert(src.rest() =~= s.skip(216));
                }
                let a_text = take_until_nul(a.as_slice());
                let b_text = take_until_nul(b.as_slice());
                let src_path = utf8_lossy(a_text.as_slice());
                let dst_path = utf8_lossy(b_text.as_slice());
                Ok(HAProxyAdresses::Unix { src: src_path, dst: dst_path })
            },
            HAPRoxyAddressFamily::Unspec => {
                proof { assert(s.skip(0) =~= s); }
                Ok(HAProxyAdresses::Unspec)
            },
        }
    }

    /// Reads a version 2 header after its magic.
    pub fn decode_after_magic(src: &mut ByteReader) -> (r: Result<HAProxyMessageV2, IoError>)
        ensures
            match v2_decode(old(src).rest()) {
                Ok((m, n)) => r matches Ok(msg) && msg.view() == m && final(src).rest() == old(src).rest().skip(n as int),
                Err(e) => r == Err::<HAProxyMessageV2, IoError>(e),
            },
    {
        let ghost s = src.rest();
        let ver = src.read_u8()?;
        if ver >> 4u8 != 2 {
            return Err(IoError::InvalidData);
        }
        let command = match command_from(ver) {
            Some(c) => c,
            None => return Err(IoError::InvalidData),
        };
        let fam = src.read_u8()?;
        let address_family = match family_from(fam) {
            Some(f) => f,
            None => return Err(IoError::InvalidData),
        };
        let transport_protocol = match transport_from(fam) {
            Some(t) => t,
            None => return Err(IoError::InvalidData),
        };
        let len = src.read_u16_be()?;
        proof { assert(src.rest() =~= s.skip(4)); }
        let addresses = Self::decode_addresses(src, address_family, transport_protocol, len)?;
        let used: u16 = match address_family {
            HAPRoxyAddressFamily::Inet => 12,
            HAPRoxyAddressFamily::Inet6 => 36,
            HAPRoxyAddressFamily::Unix => 216,
            HAPRoxyAddressFamily::Unspec => 0,
        };
        let rest_len = (len - used) as usize;
        let _ = src.read_exact(rest_len)?;
        proof { assert(src.rest() =~= s.skip((4 + len) as int)); }
        Ok(HAProxyMessageV2 { command, address_family, transport_protocol, addresses })
    }
}

// ---------------------------------------------------------------------------
// Version 1
// ---------------------------------------------------------------------------

/// The first place `i` (from `from` on, below `limit` and the length of
/// `b`) where `b[i - 1]` is CR and `b[i]` is LF.
pub open spec fn crlf_from(b: Seq<u8>, from: int, limit: int) -> Option<int>
    decreases limit - from,
{
    if from >= limit || from >= b.len() || from < 1 {
        None
    } else if b[from - 1] == 13 && b[from] == 10 {
        Some(from)
    } else {
        crlf_from(b, from + 1, limit)
    }
}

proof fn lemma_crlf_from(b: Seq<u8>, from: int, limit: int)
    ensures
        crlf_from(b, from, limit) matches Some(i) ==> 1 <= from <= i < b.len() && i < limit,
    decreases limit - from,
{
    if !(from >= limit || from >= b.len() || from < 1) && !(b[from - 1] == 13 && b[from] == 10) {
        lemma_crlf_from(b, from + 1, limit);
    }
}

/// `UNKNOWN`, `TCP4` and `TCP6` as characters.
pub open spec fn word_unknown() -> Seq<char> {
    seq!['U', 'N', 'K', 'N', 'O', 'W', 'N']
}

pub open spec fn word_tcp4() -> Seq<char> {
    seq!['T', 'C', 'P', '4']
}

pub open spec fn word_tcp6() -> Seq<char> {
    seq!['T', 'C', 'P', '6']
}

/// What the fields of a version 1 line say: `UNKNOWN`, or the protocol,
/// source address, destination address, source port and destination port.
/// Both addresses of a TCP4 line are read from its source fields, and both
/// addresses of a TCP6 line from its destination fields; an address or port
/// that does not parse refuses the line.
pub open spec fn v1_fields_view(parts: Seq<Seq<char>>) -> Result<V1View, IoError> {
    if parts[0] == word_unknown() {
        Ok(V1View::Unknown)
    } else if parts.len() != 5 {
        Err(IoError::InvalidData)
    } else if parts[0] == word_tcp4() {
        match (ipv4_parse(parts[1]), port_parse(parts[3])) {
            (Some(ip), Some(port)) => Ok(V1View::Tcp4 { src: ip, src_port: port, dst: ip, dst_port: port }),
            _ => Err(IoError::InvalidData),
        }
    } else if parts[0] == word_tcp6() {
        match (ipv6_parse(parts[2]), port_parse(parts[4])) {
            (Some(ip), Some(port)) => Ok(V1View::Tcp6 { src: ip, src_port: port, dst: ip, dst_port: port }),
            _ => Err(IoError::InvalidData),
        }
    } else {
        Err(IoError::InvalidData)
    }
}

/// Reading a version 1 line after `PROXY`: a space, then up to 102 bytes
/// ending in CRLF, whose text is split at spaces.
pub open spec fn v1_decode(t: Seq<u8>) -> Result<(V1View, nat), IoError> {
    if t.len() < 1 {
        Err(IoError::UnexpectedEof)
    } else if t[0] != 0x20 {
        Err(IoError::InvalidData)
    } else {
        let line = t.skip(1);
        match crlf_from(line, 1, V1_LINE_LIMIT as int) {
            None => if line.len() < V1_LINE_LIMIT {
                Err(IoError::UnexpectedEof)
            } else {
                Err(IoError::InvalidData)
            },
            Some(i) => match v1_fields_view(split_on(lossy_text(line.take(i - 1)), ' ')) {
                Err(e) => Err(e),
                Ok(v) => Ok((v, (i + 2) as nat)),
            },
        }
    }
}

/// Whether two character vectors hold the same characters.
fn same_chars(a: &Vec<char>, b: &Vec<char>) -> (r: bool)
    ensures
        r == (a@ == b@),
{
    if a.len() != b.len() {
        return false;
    }
    let mut i: usize = 0;
    while i < a.len()
        invariant
            a@.len() == b@.len(),
            i <= a@.len(),
            forall|j: int| 0 <= j < i ==> a@[j] == b@[j],
        decreases a.len() - i,
    {
        if a[i] != b[i] {
            return false;
        }
        i = i + 1;
    }
    proof { assert(a@ =~= b@); }
    true
}

impl HAProxyV1Line {
    fn from_parts(parts: Vec<Vec<char>>) -> (r: Result<HAProxyV1Line, IoError>)
        requires
            parts@.len() >= 1,
        ensures
            match v1_fields_view(char_seqs(parts@)) {
                Ok(v) => r matches Ok(l) && l.view() == v,
                Err(e) => r == Err::<HAProxyV1Line, IoError>(e),
            },
    {
        let unknown = chars_of("UNKNOWN");
        let tcp4 = chars_of("TCP4");
        let tcp6 = chars_of("TCP6");
        proof {
            reveal_strlit("UNKNOWN");
            reveal_strlit("TCP4");
            reveal_strlit("TCP6");
            assert(unknown@ =~= word_unknown());
            assert(tcp4@ =~= word_tcp4());
            assert(tcp6@ =~= word_tcp6());
            assert(char_seqs(parts@)[0] == parts@[0]@);
        }
        if same_chars(&parts[0], &unknown) {
            return Ok(HAProxyV1Line::Unknown);
        }
        if parts.len() != 5 {
            return Err(IoError::InvalidData);
        }
        proof {
            assert(char_seqs(parts@)[1] == parts@[1]@);
            assert(char_seqs(parts@)[2] == parts@[2]@);
            assert(char_seqs(parts@)[3] == parts@[3]@);
            assert(char_seqs(parts@)[4] == parts@[4]@);
        }
        if same_chars(&parts[0], &tcp4) {
            let ip = match parse_ipv4(&parts[1]) {
                Some(ip) => ip,
                None => return Err(IoError::InvalidData),
            };
            let port = match parse_port(&parts[3]) {
                Some(port) => port,
                None => return Err(IoError::InvalidData),
            };
            let addr = SocketAddrV4 { ip, port };
            Ok(HAProxyV1Line::Tcp4 { src: addr, dst: addr })
        } else if same_chars(&parts[0], &tcp6) {
            let ip = match parse_ipv6(&parts[2]) {
                Some(ip) => ip,
                None => return Err(IoError::InvalidData),
            };
            let port = match parse_port(&parts[4]) {
                Some(port) => port,
                None => return Err(IoError::InvalidData),
            };
            let addr = SocketAddrV6 { ip, port };
            Ok(HAProxyV1Line::Tcp6 { src: addr, dst: addr })
        } else {
            Err(IoError::InvalidData)
        }
    }

    /// Reads a version 1 line after `PROXY`.
    pub fn decode_after_magic(src: &mut ByteReader) -> (r: Result<HAProxyV1Line, IoError>)
        ensures
            match v1_decode(old(src).rest()) {
                Ok((l, n)) => r matches Ok(line) && line.view() == l && final(src).rest() == old(src).rest().skip(n as int),
                Err(e) => r == Err::<HAProxyV1Line, IoError>(e),
            },
    {
        let ghost t = src.rest();
        let sp = src.read_u8()?;
        if sp != 0x20 {
            return Err(IoError::InvalidData);
        }
        let ghost line = src.rest();
        proof { assert(line =~= t.skip(1)); }
        let mut i: usize = 1;
        let mut found = false;
        while i < V1_LINE_LIMIT && !found
            invariant
                t == old(src).rest(),
                t.len() >= 1 && t[0] == 0x20,
                line == t.skip(1),
                line == src.rest(),
                1 <= i <= V1_LINE_LIMIT,
                i >= 2 ==> i - 1 < line.len(),
                found ==> i < line.len() && line[i - 1 as int] == 13 && line[i as int] == 10 && crlf_from(line, 1, V1_LINE_LIMIT as int) == Some(i as int),
                !found ==> crlf_from(line, 1, V1_LINE_LIMIT as int) == crlf_from(line, i as int, V1_LINE_LIMIT as int),
            decreases V1_LINE_LIMIT - i + (if found { 0int } else { 1int }),
        {
            let a = src.peek_at(i - 1);
            let b = src.peek_at(i);
            match (a, b) {
                (Some(13), Some(10)) => {
                    found = true;
                },
                (_, None) => {
                    proof { assert(crlf_from(line, i as int, V1_LINE_LIMIT as int) is None); }
                    return Err(IoError::UnexpectedEof);
                },
                _ => {
                    i = i + 1;
                },
            }
        }
        if !found {
            proof { assert(crlf_from(line, i as int, V1_LINE_LIMIT as int) is None); }
            return Err(IoError::InvalidData);
        }
        let body = src.read_exact(i - 1)?;
        let _ = src.read_exact(2)?;
        proof {
            assert(body@ =~= line.take(i - 1 as int));
            assert(src.rest() =~= t.skip((i + 2) as int));
        }
        let text = utf8_lossy(body.as_slice());
        let chars = chars_of(text.as_str());
        let parts = split_chars(&chars, 0, chars.len(), ' ');
        proof {
            assert(chars@.subrange(0, chars@.len() as int) =~= text@);
            lemma_split_on_len(text@, ' ');
        }
        Self::from_parts(parts)
    }
}

impl HAProxyFrame {
    /// Reads a PROXY protocol header from the start of the received bytes:
    /// version 1 after `PROXY`, version 2 after its twelve-byte magic.
    pub fn decode(src: &mut ByteReader) -> (r: Result<HAProxyFrame, IoError>)
        ensures
            old(src).rest().len() < 5 ==> r == Err::<HAProxyFrame, IoError>(IoError::UnexpectedEof),
            old(src).rest().len() >= 5 && old(src).rest().take(5) == v1_magic() ==> match v1_decode(
                old(src).rest().skip(5),
            ) {
                Ok((l, n)) => r matches Ok(f) && f.view() == FrameView::V1(l) && final(src).rest() == old(
                    src,
                ).rest().skip((5 + n) as int),
                Err(e) => r == Err::<HAProxyFrame, IoError>(e),
            },
            old(src).rest().len() >= 5 && old(src).rest().take(5) != v1_magic() ==> {
                if old(src).rest().len() < 12 {
                    r == Err::<HAProxyFrame, IoError>(IoError::UnexpectedEof)
                } else if old(src).rest().take(12) != v2_magic() {
                    r == Err::<HAProxyFrame, IoError>(IoError::InvalidData)
                } else {
                    match v2_decode(old(src).rest().skip(12)) {
                        Ok((m, n)) => r matches Ok(f) && f.view() == FrameView::V2(m) && final(src).rest() == old(
                            src,
                        ).rest().skip((12 + n) as int),
                        Err(e) => r == Err::<HAProxyFrame, IoError>(e),
                    }
                }
            },
    {
        let ghost s = src.rest();
        let head = src.read_exact(5)?;
        let is_v1 = head[0] == 0x50 && head[1] == 0x52 && head[2] == 0x4F && head[3] == 0x58 && head[4] == 0x59;
        proof { assert(is_v1 == (s.take(5) =~= v1_magic())); }
        if is_v1 {
            let line = HAProxyV1Line::decode_after_magic(src)?;
            proof {
                lemma_crlf_from(s.skip(5).skip(1), 1, V1_LINE_LIMIT as int);
                let n = v1_decode(s.skip(5)).unwrap().1;
                assert(src.rest() =~= s.skip((5 + n) as int));
            }
            return Ok(HAProxyFrame::V1(line));
        }
        let tail = src.read_exact(7)?;
        let is_v2 = head[0] == 0x0D && head[1] == 0x0A && head[2] == 0x0D && head[3] == 0x0A && head[4] == 0x00
            && tail[0] == 0x0D && tail[1] == 0x0A && tail[2] == 0x51 && tail[3] == 0x55 && tail[4] == 0x49
            && tail[5] == 0x54 && tail[6] == 0x0A;
        proof {
            assert(s.take(12) =~= head@ + tail@);
            assert(is_v2 == (s.take(12) =~= v2_magic()));
        }
        if !is_v2 {
            return Err(IoError::InvalidData);
        }
        proof { assert(src.rest() =~= s.skip(12)); }
        let msg = HAProxyMessageV2::decode_after_magic(src)?;
        proof {
            let n = v2_decode(s.skip(12)).unwrap().1;
            assert(src.rest() =~= s.skip((12 + n) as int));
        }
        Ok(HAProxyFrame::V2(msg))
    }
}

// ---------------------------------------------------------------------------
// Writing version 2 headers
// ---------------------------------------------------------------------------

/// The number a command is written as.
pub open spec fn command_bits(c: HAProxyCommand) -> u8 {
    match c {
        HAProxyCommand::Local => 0,
        HAProxyCommand::Proxy => 1,
    }
}

/// The number an address family is written as.
pub open spec fn family_bits(f: HAPRoxyAddressFamily) -> u8 {
    match f {
        HAPRoxyAddressFamily::Unspec => 0,
        HAPRoxyAddressFamily::Inet => 1,
        HAPRoxyAddressFamily::Inet6 => 2,
        HAPRoxyAddressFamily::Unix => 3,
    }
}

/// The number a transport protocol is written as.
pub open spec fn transport_bits(t: HAProxyTransportProtocol) -> u8 {
    match t {
        HAProxyTransportProtocol::Unspec => 0,
        HAProxyTransportProtocol::Stream => 1,
        HAProxyTransportProtocol::Dgram => 2,
    }
}

/// A path written into a field of `width` bytes: as many characters as the
/// path has bytes (up to `width`), each cut to its low byte, then zeros to
/// fill `width` minus that byte count.
pub open spec fn padded_path(path: Seq<char>, byte_len: nat, width: nat) -> Seq<u8> {
    let n = if byte_len < width { byte_len } else { width };
    let k = if n < path.len() { n } else { path.len() };
    Seq::new(k, |j: int| (path[j] as u32) as u8) + Seq::new((width - n) as nat, |j: int| 0u8)
}

/// The bytes of a version 2 header.
pub open spec fn v2_bytes(m: HAProxyMessageV2) -> Seq<u8> {
    v2_magic() + seq![0x20u8 | command_bits(m.command), (family_bits(m.address_family) << 4u8) | transport_bits(m.transport_protocol)]
        + match m.addresses {
        HAProxyAdresses::Inet { src, dst } => u16_be(12) + src.ip@ + dst.ip@ + u16_be(src.port) + u16_be(dst.port),
        HAProxyAdresses::Inet6 { src, dst } => u16_be(36) + src.ip@ + dst.ip@ + u16_be(src.port) + u16_be(dst.port),
        HAProxyAdresses::Unix { src, dst } => u16_be(216) + padded_path(src@, encode_utf8(src@).len(), 108) + padded_path(
            dst@,
            encode_utf8(dst@).len(),
            108,
        ),
        HAProxyAdresses::Unspec => u16_be(0),
    }
}

fn write_padded_string(dest: &mut Vec<u8>, s: &str, len: usize)
    ensures
        final(dest)@ == old(dest)@ + padded_path(s@, s.spec_bytes().len(), len as nat),
{
    broadcast use vstd::string::axiom_spec_iter;
    let byte_len = s.as_bytes().len();
    let str_len = if byte_len < len { byte_len } else { len };
    let ghost d0 = dest@;
    let ghost k: nat = if str_len < s@.len() { str_len as nat } else { s@.len() };
    let mut written: usize = 0;
    for c in it: s.chars()
        invariant
            it.seq() == s@,
            written == if it.index() < str_len { it.index() } else { str_len as int },
            dest@ == d0 + Seq::new(written as nat, |j: int| (s@[j] as u32) as u8),
    {
        proof { assert(s@.take(it.index() + 1).last() == c); }
        if written < str_len {
            dest.push((c as u32) as u8);
            written = written + 1;
            proof { assert(dest@ =~= d0 + Seq::new(written as nat, |j: int| (s@[j] as u32) as u8)); }
        }
    }
    let ghost d1 = dest@;
    let mut pad: usize = 0;
    while pad < len - str_len
        invariant
            str_len <= len,
            dest@ == d1 + Seq::new(pad as nat, |j: int| 0u8),
            pad <= len - str_len,
        decreases len - str_len - pad,
    {
        dest.push(0);
        pad = pad + 1;
        proof { assert(dest@ =~= d1 + Seq::new(pad as nat, |j: int| 0u8)); }
    }
    proof {
        assert(written == k);
        let n: nat = if s.spec_bytes().len() < len { s.spec_bytes().len() } else { len as nat };
        assert(n == str_len);
        assert(pad == len - str_len);
        assert(final(dest)@ == d0 + Seq::new(k, |j: int| (s@[j] as u32) as u8) + Seq::new((len - n) as nat, |j: int| 0u8));
        assert(final(dest)@ =~= old(dest)@ + padded_path(s@, s.spec_bytes().len(), len as nat));
    }
}

impl HAProxyMessageV2 {
    fn command_byte(c: HAProxyCommand) -> (r: u8)
        ensures
            r == command_bits(c),
    {
        match c {
            HAProxyCommand::Local => 0,
            HAProxyCommand::Proxy => 1,
        }
    }

    fn family_byte(f: HAPRoxyAddressFamily, t: HAProxyTransportProtocol) -> (r: u8)
        ensures
            r == (family_bits(f) << 4u8) | transport_bits(t),
    {
        let fb: u8 = match f {
            HAPRoxyAddressFamily::Unspec => 0,
            HAPRoxyAddressFamily::Inet => 1,
            HAPRoxyAddressFamily::Inet6 => 2,
            HAPRoxyAddressFamily::Unix => 3,
        };
        let tb: u8 = match t {
            HAProxyTransportProtocol::Unspec => 0,
            HAProxyTransportProtocol::Stream => 1,
            HAProxyTransportProtocol::Dgram => 2,
        };
        (fb << 4u8) | tb
    }

    /// Writes the header (the magic, then the fields).
    pub fn encode(&self, dest: &mut Vec<u8>)
        ensures
            final(dest)@ == old(dest)@ + v2_bytes(*self),
    {
        let magic: [u8; 12] = [0x0D, 0x0A, 0x0D, 0x0A, 0x00, 0x0D, 0x0A, 0x51, 0x55, 0x49, 0x54, 0x0A];
        dest.extend_from_slice(magic.as_slice());
        dest.push(0x20u8 | Self::command_byte(self.command));
        dest.push(Self::family_byte(self.address_family, self.transport_protocol));
        let ghost d2 = dest@;
        proof { assert(d2 =~= old(dest)@ + v2_magic() + seq![0x20u8 | command_bits(self.command), (family_bits(self.address_family) << 4u8) | transport_bits(self.transport_protocol)]); }
        match &self.addresses {
            HAProxyAdresses::Inet { src, dst } => {
                write_u16_be(dest, 12);
                dest.extend_from_slice(src.ip.as_slice());
                dest.extend_from_slice(dst.ip.as_slice());
                write_u16_be(dest, src.port);
                write_u16_be(dest, dst.port);
            },
            HAProxyAdresses::Inet6 { src, dst } => {
                write_u16_be(dest, 36);
                dest.extend_from_slice(src.ip.as_slice());
                dest.extend_from_slice(dst.ip.as_slice());
                write_u16_be(dest, src.port);
                write_u16_be(dest, dst.port);
            },
            HAProxyAdresses::Unix { src, dst } => {
                write_u16_be(dest, 216);
                write_padded_string(dest, src.as_str(), 108);
                write_padded_string(dest, dst.as_str(), 108);
            },
            HAProxyAdresses::Unspec => {
                write_u16_be(dest, 0);
            },
        }
        proof { assert(final(dest)@ =~= old(dest)@ + v2_bytes(*self)); }
    }
}

/// Whether a Unix socket path reads back as written: ASCII without NUL, at
/// most 108 characters.
pub open spec fn unix_path_ok(p: Seq<char>) -> bool {
    p.len() <= 108 && forall|i: int| 0 <= i < p.len() ==> '\u{1}' <= #[trigger] p[i] && p[i] <= '\u{7f}'
}

/// Whether the address family, transport and addresses of a header agree:
/// IPv4 and IPv6 addresses under their own family with a transport named,
/// Unix paths that read back under the Unix family, or no addresses under
/// an unspecified family.
pub open spec fn v2_consistent(m: HAProxyMessageV2) -> bool {
    match m.addresses {
        HAProxyAdresses::Inet { .. } => m.address_family == HAPRoxyAddressFamily::Inet && m.transport_protocol
            != HAProxyTransportProtocol::Unspec,
        HAProxyAdresses::Inet6 { .. } => m.address_family == HAPRoxyAddressFamily::Inet6 && m.transport_protocol
            != HAProxyTransportProtocol::Unspec,
        HAProxyAdresses::Unspec => m.address_family == HAPRoxyAddressFamily::Unspec,
        HAProxyAdresses::Unix { src, dst } => m.address_family == HAPRoxyAddressFamily::Unix && unix_path_ok(src@)
            && unix_path_ok(dst@),
    }
}

proof fn lemma_until_nul_concat(x: Seq<u8>, y: Seq<u8>)
    requires
        forall|i: int| 0 <= i < x.len() ==> x[i] != 0,
        y.len() == 0 || y[0] == 0,
    ensures
        until_nul(x + y) == x,
    decreases x.len(),
{
    if x.len() == 0 {
        assert(x + y =~= y);
        assert(x =~= Seq::<u8>::empty());
    } else {
        assert((x + y).drop_first() =~= x.drop_first() + y);
        lemma_until_nul_concat(x.drop_first(), y);
        assert(seq![x[0]] + x.drop_first() =~= x);
    }
}

/// A Unix path reads back from the field it is written into.
proof fn lemma_unix_path_read_back(p: Seq<char>, rest: Seq<u8>)
    requires
        unix_path_ok(p),
    ensures
        encode_utf8(p).len() == p.len(),
        (padded_path(p, encode_utf8(p).len(), 108) + rest).len() == 108 + rest.len(),
        utf8_text(until_nul((padded_path(p, encode_utf8(p).len(), 108) + rest).subrange(0, 108))) == p,
{
    is_ascii_chars_encode_utf8(p);
    let n = p.len();
    let x = Seq::new(n, |j: int| (p[j] as u32) as u8);
    let z = Seq::new((108 - n) as nat, |j: int| 0u8);
    assert(padded_path(p, encode_utf8(p).len(), 108) =~= x + z);
    let field = (x + z + rest).subrange(0, 108);
    assert(field =~= x + z);
    assert forall|i: int| 0 <= i < x.len() implies x[i] != 0 && x[i] == encode_utf8(p)[i] by {
        let c = p[i];
        assert('\u{1}' <= c && c <= '\u{7f}');
        assert(0 < c as u32 && (c as u32) < 128);
        assert(c as u8 == encode_utf8(p)[i]);
        let w = c as u32;
        assert((w as u8) as u32 == w) by (bit_vector)
            requires
                w < 128,
        ;
    }
    lemma_until_nul_concat(x, z);
    assert(x =~= encode_utf8(p));
    encode_utf8_valid_utf8(p);
    encode_utf8_decode_utf8(p);
}

proof fn lemma_header_bytes(c: u8, f: u8, t: u8)
    requires
        c <= 1,
        f <= 3,
        t <= 2,
    ensures
        (0x20u8 | c) >> 4u8 == 2,
        (0x20u8 | c) & 0x0f == c,
        ((f << 4u8) | t) >> 4u8 == f,
        ((f << 4u8) | t) & 0x0f == t,
{
    assert((0x20u8 | c) >> 4u8 == 2) by (bit_vector)
        requires
            c <= 1,
    ;
    assert((0x20u8 | c) & 0x0f == c) by (bit_vector)
        requires
            c <= 1,
    ;
    assert(((f << 4u8) | t) >> 4u8 == f) by (bit_vector)
        requires
            f <= 3,
            t <= 2,
    ;
    assert(((f << 4u8) | t) & 0x0f == t) by (bit_vector)
        requires
            f <= 3,
            t <= 2,
    ;
}

/// Law: reading back a written version 2 header, whatever follows it, gives
/// the header and the number of bytes it took, when its parts agree (see
/// `v2_consistent`).
#[verifier::rlimit(60)]
pub proof fn law_v2_roundtrip(m: HAProxyMessageV2, rest: Seq<u8>)
    requires
        v2_consistent(m),
    ensures
        v2_decode(v2_bytes(m).skip(12) + rest) == Ok::<(V2View, nat), IoError>(
            (m.view(), (v2_bytes(m).len() - 12) as nat),
        ),
{
    let b = v2_bytes(m);
    let s = b.skip(12) + rest;
    let c = command_bits(m.command);
    let f = family_bits(m.address_family);
    let t = transport_bits(m.transport_protocol);
    lemma_header_bytes(c, f, t);
    assert(s[0] == 0x20u8 | c);
    assert(s[1] == (f << 4u8) | t);
    match m.addresses {
        HAProxyAdresses::Inet { src, dst } => {
            let body = src.ip@ + dst.ip@ + u16_be(src.port) + u16_be(dst.port);
            assert(b =~= v2_magic() + seq![0x20u8 | c, (f << 4u8) | t] + u16_be(12) + body);
            assert(s =~= seq![0x20u8 | c, (f << 4u8) | t] + u16_be(12) + body + rest);
            lemma_u16_be(12);
            lemma_u16_be(src.port);
            lemma_u16_be(dst.port);
            let a = s.skip(4);
            assert(a =~= body + rest);
            assert(a.subrange(0, 4) =~= src.ip@);
            assert(a.subrange(4, 8) =~= dst.ip@);
        },
        HAProxyAdresses::Inet6 { src, dst } => {
            let body = src.ip@ + dst.ip@ + u16_be(src.port) + u16_be(dst.port);
            assert(b =~= v2_magic() + seq![0x20u8 | c, (f << 4u8) | t] + u16_be(36) + body);
            assert(s =~= seq![0x20u8 | c, (f << 4u8) | t] + u16_be(36) + body + rest);
            lemma_u16_be(36);
            lemma_u16_be(src.port);
            lemma_u16_be(dst.port);
            let a = s.skip(4);
            assert(a =~= body + rest);
            assert(a.subrange(0, 16) =~= src.ip@);
            assert(a.subrange(16, 32) =~= dst.ip@);
        },
        HAProxyAdresses::Unspec => {
            assert(b =~= v2_magic() + seq![0x20u8 | c, (f << 4u8) | t] + u16_be(0));
            assert(s =~= seq![0x20u8 | c, (f << 4u8) | t] + u16_be(0) + rest);
            lemma_u16_be(0);
        },
        HAProxyAdresses::Unix { src, dst } => {
            let ps = padded_path(src@, encode_utf8(src@).len(), 108);
            let pd = padded_path(dst@, encode_utf8(dst@).len(), 108);
            assert(b =~= v2_magic() + seq![0x20u8 | c, (f << 4u8) | t] + u16_be(216) + ps + pd);
            assert(s =~= seq![0x20u8 | c, (f << 4u8) | t] + u16_be(216) + ps + pd + rest);
            lemma_u16_be(216);
            let a = s.skip(4);
            assert(a =~= ps + (pd + rest));
            lemma_unix_path_read_back(src@, pd + rest);
            lemma_unix_path_read_back(dst@, rest);
            assert(a.subrange(108, 216) =~= (pd + rest).subrange(0, 108));
        },
    }
}


/// Law: the address block of a version 2 header follows the PROXY protocol
/// layout.  After the magic, the bytes `0x21` (version 2, PROXY) and `0x11`
/// (IPv4 over a stream), the length 12, the source address, the
/// destination address, the source port and the destination port (ports
/// big-endian) read as a connection from that source to that destination;
/// with `0x21`, `0x21` (IPv6 over a stream) and the length 36, the same
/// holds of sixteen-byte addresses.  The rest is left for what follows.
pub proof fn law_v2_address_layout(
    src: Seq<u8>,
    dst: Seq<u8>,
    src6: Seq<u8>,
    dst6: Seq<u8>,
    src_port: u16,
    dst_port: u16,
    rest: Seq<u8>,
)
    requires
        src.len() == 4,
        dst.len() == 4,
        src6.len() == 16,
        dst6.len() == 16,
    ensures
        v2_decode(seq![0x21u8, 0x11u8] + u16_be(12) + src + dst + u16_be(src_port) + u16_be(dst_port) + rest)
            == Ok::<(V2View, nat), IoError>(
            (
                V2View {
                    command: HAProxyCommand::Proxy,
                    address_family: HAPRoxyAddressFamily::Inet,
                    transport_protocol: HAProxyTransportProtocol::Stream,
                    addresses: AddressesView::Inet { src, src_port, dst, dst_port },
                },
                16,
            ),
        ),
        v2_decode(seq![0x21u8, 0x21u8] + u16_be(36) + src6 + dst6 + u16_be(src_port) + u16_be(dst_port) + rest)
            == Ok::<(V2View, nat), IoError>(
            (
                V2View {
                    command: HAProxyCommand::Proxy,
                    address_family: HAPRoxyAddressFamily::Inet6,
                    transport_protocol: HAProxyTransportProtocol::Stream,
                    addresses: AddressesView::Inet6 { src: src6, src_port, dst: dst6, dst_port },
                },
                40,
            ),
        ),
{
    assert(0x21u8 >> 4u8 == 2 && 0x21u8 & 0x0f == 1 && 0x11u8 >> 4u8 == 1 && 0x11u8 & 0x0f == 1 && 0x21u8 >> 4u8
        == 2) by (bit_vector);
    lemma_u16_be(12);
    lemma_u16_be(36);
    lemma_u16_be(src_port);
    lemma_u16_be(dst_port);
    let s = seq![0x21u8, 0x11u8] + u16_be(12) + src + dst + u16_be(src_port) + u16_be(dst_port) + rest;
    let a = s.skip(4);
    assert(a =~= src + dst + u16_be(src_port) + u16_be(dst_port) + rest);
    assert(a.subrange(0, 4) =~= src);
    assert(a.subrange(4, 8) =~= dst);
    assert(a[8] == u16_be(src_port)[0] && a[9] == u16_be(src_port)[1]);
    assert(a[10] == u16_be(dst_port)[0] && a[11] == u16_be(dst_port)[1]);
    assert(s[2] == u16_be(12)[0] && s[3] == u16_be(12)[1]);
    let s6 = seq![0x21u8, 0x21u8] + u16_be(36) + src6 + dst6 + u16_be(src_port) + u16_be(dst_port) + rest;
    let a6 = s6.skip(4);
    assert(a6 =~= src6 + dst6 + u16_be(src_port) + u16_be(dst_port) + rest);
    assert(a6.subrange(0, 16) =~= src6);
    assert(a6.subrange(16, 32) =~= dst6);
    assert(a6[32] == u16_be(src_port)[0] && a6[33] == u16_be(src_port)[1]);
    assert(a6[34] == u16_be(dst_port)[0] && a6[35] == u16_be(dst_port)[1]);
    assert(s6[2] == u16_be(36)[0] && s6[3] == u16_be(36)[1]);
}

} // verus!
