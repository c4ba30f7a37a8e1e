//! Framed server-to-client protocol.
//!
//! Packets are length-prefixed and binary-safe. Each carries one of the streams
//! `out`, `err`, or `ctl`. The readable header is a convenience for text
//! payloads; framing integrity relies solely on the length field.
//!
//! ```text
//! packet := "# RePLstOKE/" + major "." minor + " " + length(5 digits) + " "
//!           + stream_name + "\n" + payload + "\n"
//! ```

use vstd::prelude::*;
use vstd::string::StringSliceAdditionalSpecFns;

use crate::bytes::{
    append_slice, bytes_equal_at, dec_bytes, decimal_bytes, find_byte, index_of, index_of_from,
    lemma_index_of_from, parse_bounded, parse_unsigned_upto, push_padded_decimal, slice_range,
    zero_pad_bytes,
};
use crate::text::{lossy_string, owned, utf8_lossy};
use vstd::string::StrSliceExecFns;
use vstd::utf8::{decode_utf8, encode_utf8, valid_utf8};

verus! {

pub const VERSION_MAJOR: u32 = 1;

pub const VERSION_MINOR: u32 = 0;

/// Width of the zero-padded decimal length field.
pub const LENGTH_DIGITS: usize = 5;

/// Largest possible whole packet, bounded by the fixed 5-digit length field.
pub const MAX_PACKET: usize = 99_999;

pub const STREAM_OUT: &'static str = "out";

pub const STREAM_ERR: &'static str = "err";

pub const STREAM_CTL: &'static str = "ctl";

/// `"# RePLstOKE/"`: the protocol identifier that starts every packet.
pub open spec fn protocol_id() -> Seq<u8> {
    seq![35u8, 32, 82, 101, 80, 76, 115, 116, 79, 75, 69, 47]
}

/// The version text `major.minor`.
pub open spec fn version_text() -> Seq<u8> {
    dec_bytes(VERSION_MAJOR as nat) + seq![46u8] + dec_bytes(VERSION_MINOR as nat)
}

/// Bytes of a packet other than the stream name and the payload.
pub open spec fn overhead(name_len: nat) -> nat {
    protocol_id().len() + version_text().len() + 1 + LENGTH_DIGITS as nat + 1 + name_len + 1 + 1
}

/// Maximum payload that fits in a single packet for a stream name of the given
/// length.
pub open spec fn spec_max_payload(name_len: nat) -> int {
    MAX_PACKET - overhead(name_len)
}

/// The whole packet carrying `payload` on stream `name`.
pub open spec fn packet_bytes(name: Seq<u8>, payload: Seq<u8>) -> Seq<u8> {
    protocol_id() + version_text() + seq![32u8] + zero_pad_bytes(
        dec_bytes(overhead(name.len()) + payload.len()),
        LENGTH_DIGITS as nat,
    ) + seq![32u8] + name + seq![10u8] + payload + seq![10u8]
}

/// Packets carrying `payload` in pieces of at most the per-packet maximum.
pub open spec fn packets_for(name: Seq<u8>, payload: Seq<u8>) -> Seq<u8>
    decreases payload.len(),
{
    let cap = spec_max_payload(name.len());
    if payload.len() == 0 || cap <= 0 {
        Seq::empty()
    } else if payload.len() <= cap {
        packet_bytes(name, payload)
    } else {
        packet_bytes(name, payload.subrange(0, cap)) + packets_for(
            name,
            payload.subrange(cap, payload.len() as int),
        )
    }
}

/// What [`encode`] appends: one empty packet for an empty payload, else the
/// payload split across as many packets as needed.
pub open spec fn encoded(name: Seq<u8>, payload: Seq<u8>) -> Seq<u8> {
    if payload.len() == 0 {
        packet_bytes(name, payload)
    } else {
        packets_for(name, payload)
    }
}

/// A stream name the framing can carry: short enough to leave room for payload.
pub open spec fn name_fits(name: Seq<u8>) -> bool {
    overhead(name.len()) < MAX_PACKET
}

proof fn lemma_version_text()
    ensures
        version_text() == seq![49u8, 46, 48],
        overhead(3) == 27,
{
    reveal_with_fuel(dec_bytes, 2);
    assert(dec_bytes(1) == seq![49u8]);
    assert(dec_bytes(0) == seq![48u8]);
    assert(version_text() =~= seq![49u8, 46, 48]);
}

fn push_protocol_id(out: &mut Vec<u8>)
    ensures
        final(out)@ == old(out)@ + protocol_id(),
{
    let ghost start = out@;
    out.push(35u8);
    out.push(32u8);
    out.push(82u8);
    out.push(101u8);
    out.push(80u8);
    out.push(76u8);
    out.push(115u8);
    out.push(116u8);
    out.push(79u8);
    out.push(75u8);
    out.push(69u8);
    out.push(47u8);
    assert(out@ =~= start + protocol_id());
}

fn push_version(out: &mut Vec<u8>)
    ensures
        final(out)@ == old(out)@ + version_text(),
{
    let ghost start = out@;
    let major = decimal_bytes(VERSION_MAJOR as u64);
    append_slice(out, major.as_slice());
    out.push(46u8);
    let minor = decimal_bytes(VERSION_MINOR as u64);
    append_slice(out, minor.as_slice());
    assert(out@ =~= start + version_text());
}

/// Fixed bytes of a packet besides the stream name.
fn overhead_exec(name_len: usize) -> (r: usize)
    requires
        name_len + 27 <= usize::MAX,
    ensures
        r == overhead(name_len as nat),
{
    proof {
        lemma_version_text();
    }
    let v = decimal_bytes(VERSION_MAJOR as u64);
    let w = decimal_bytes(VERSION_MINOR as u64);
    12 + (v.len() + 1 + w.len()) + 1 + LENGTH_DIGITS + 1 + name_len + 1 + 1
}

/// A short stream name leaves room for payload.
pub proof fn lemma_overhead_small(n: nat)
    requires
        n <= 3,
    ensures
        overhead(n) < MAX_PACKET,
{
    lemma_version_text();
}

/// Maximum payload that fits in a single packet for the given stream.
pub fn max_payload(stream_name: &str) -> (r: usize)
    requires
        name_fits(stream_name.spec_bytes()),
    ensures
        r == spec_max_payload(stream_name.spec_bytes().len()),
{
    let name = stream_name.as_bytes();
    MAX_PACKET - overhead_exec(name.len())
}

fn encode_one(out: &mut Vec<u8>, name: &[u8], payload: &[u8])
    requires
        overhead(name@.len()) + payload@.len() <= MAX_PACKET,
    ensures
        final(out)@ == old(out)@ + packet_bytes(name@, payload@),
{
    let ghost start = out@;
    let total: usize = overhead_exec(name.len()) + payload.len();
    push_protocol_id(out);
    push_version(out);
    out.push(32u8);
    push_padded_decimal(out, total as u64, LENGTH_DIGITS);
    out.push(32u8);
    append_slice(out, name);
    out.push(10u8);
    append_slice(out, payload);
    out.push(10u8);
    assert(out@ =~= start + packet_bytes(name@, payload@));
}

/// Append one or more packets carrying `payload` for `stream_name` to `out`,
/// splitting across packets when the payload exceeds the per-packet maximum.
pub fn encode(out: &mut Vec<u8>, stream_name: &str, payload: &[u8])
    requires
        name_fits(stream_name.spec_bytes()),
    ensures
        final(out)@ == old(out)@ + encoded(stream_name.spec_bytes(), payload@),
{
    let name = stream_name.as_bytes();
    let cap: usize = max_payload(stream_name);
    if payload.len() == 0 {
        encode_one(out, name, payload);
        return ;
    }
    let ghost start = out@;
    let n: usize = payload.len();
    let mut off: usize = 0;
    assert(payload@.subrange(0, n as int) =~= payload@);
    while off < n
        invariant
            n == payload@.len(),
            off <= n,
            cap == spec_max_payload(name@.len()),
            cap > 0,
            n > 0,
            name@ == stream_name.spec_bytes(),
            start + packets_for(name@, payload@) == out@ + packets_for(
                name@,
                payload@.subrange(off as int, n as int),
            ),
        decreases n - off,
    {
        let ghost rest = payload@.subrange(off as int, n as int);
        let end: usize = if n - off > cap { off + cap } else { n };
        let piece = slice_range(payload, off, end);
        encode_one(out, name, piece.as_slice());
        proof {
            assert(piece@ =~= rest.subrange(0, (end - off) as int));
            if n - off > cap {
                assert(payload@.subrange(end as int, n as int) =~= rest.subrange(
                    cap as int,
                    rest.len() as int,
                ));
            } else {
                assert(rest.subrange(0, rest.len() as int) =~= rest);
                assert(payload@.subrange(n as int, n as int) =~= Seq::<u8>::empty());
            }
        }
        off = end;
    }
    proof {
        assert(payload@.subrange(n as int, n as int) =~= Seq::<u8>::empty());
        assert(payload@.subrange(0, n as int) =~= payload@);
    }
}


// ---- decoding ----------------------------------------------------------------

/// Why a byte stream is not valid framing.
#[derive(Debug, Clone, Copy, PartialEq, Eq, Structural)]
pub enum FramingFault {
    MissingStartMarker,
    BadStartMarker,
    Truncated,
    VersionTooLong,
    BadVersion,
    BadLength,
    LengthTooSmall,
    MissingSeparator,
    MissingHeaderEnd,
    MissingPacketEnd,
}

/// The message that goes with a framing fault.
pub open spec fn fault_message(f: FramingFault) -> Seq<char> {
    match f {
        FramingFault::MissingStartMarker => "missing packet start marker"@,
        FramingFault::BadStartMarker => "bad packet start marker"@,
        FramingFault::Truncated => "truncated packet"@,
        FramingFault::VersionTooLong => "version field too long"@,
        FramingFault::BadVersion => "bad version"@,
        FramingFault::BadLength => "bad length"@,
        FramingFault::LengthTooSmall => "packet length too small"@,
        FramingFault::MissingSeparator => "missing separator before stream name"@,
        FramingFault::MissingHeaderEnd => "missing header terminator"@,
        FramingFault::MissingPacketEnd => "missing packet terminator"@,
    }
}

fn fault_text(f: FramingFault) -> (r: String)
    ensures
        r@ == fault_message(f),
{
    match f {
        FramingFault::MissingStartMarker => owned("missing packet start marker"),
        FramingFault::BadStartMarker => owned("bad packet start marker"),
        FramingFault::Truncated => owned("truncated packet"),
        FramingFault::VersionTooLong => owned("version field too long"),
        FramingFault::BadVersion => owned("bad version"),
        FramingFault::BadLength => owned("bad length"),
        FramingFault::LengthTooSmall => owned("packet length too small"),
        FramingFault::MissingSeparator => owned("missing separator before stream name"),
        FramingFault::MissingHeaderEnd => owned("missing header terminator"),
        FramingFault::MissingPacketEnd => owned("missing packet terminator"),
    }
}

/// What the front of a byte stream holds, read as the protocol reads it.
pub enum Frame {
    /// The bytes so far do not decide the next packet; more are needed.
    Incomplete,
    /// No bytes at all: a clean end of stream at a packet boundary.
    End,
    /// A complete packet of `len` bytes.
    Packet { stream: Seq<u8>, payload: Seq<u8>, len: nat },
    /// Not valid framing.
    Fault(FramingFault),
    /// The server speaks a newer major version.
    Unsupported { major: u32, minor: u32 },
}

/// Result of looking for the space that ends the version field.
pub enum VersionScan {
    /// The version is the `k` bytes before the space.
    Found(nat),
    TooLong,
    Short,
}

/// Read the version field starting at `from`: up to 16 bytes before a space.
pub open spec fn scan_version(s: Seq<u8>, from: nat, k: nat) -> VersionScan
    decreases 16 - k,
{
    if from + k >= s.len() {
        VersionScan::Short
    } else if s[(from + k) as int] == 32 {
        VersionScan::Found(k)
    } else if k + 1 > 16 {
        VersionScan::TooLong
    } else {
        scan_version(s, from, k + 1)
    }
}

/// `major.minor`, each an unsigned 32-bit decimal number, split at the first
/// dot.
pub open spec fn parse_version(v: Seq<u8>) -> Option<(u32, u32)> {
    match index_of(v, 46) {
        Some(i) => match (
            parse_bounded(v.subrange(0, i as int), u32::MAX as nat),
            parse_bounded(v.subrange((i + 1) as int, v.len() as int), u32::MAX as nat),
        ) {
            (Some(a), Some(b)) => Some((a as u32, b as u32)),
            _ => None,
        },
        None => None,
    }
}

/// Decode the packet at the front of `s`, reading exactly as a sequential
/// reader does: each check needs only the bytes before it, and running out of
/// bytes anywhere before a decision is `Incomplete`.
#[verifier::opaque]
pub open spec fn decode(s: Seq<u8>) -> Frame {
    if s.len() == 0 {
        Frame::End
    } else if s[0] != 35 {
        Frame::Fault(FramingFault::MissingStartMarker)
    } else if s.len() < 12 {
        Frame::Incomplete
    } else if s.subrange(0, 12) != protocol_id() {
        Frame::Fault(FramingFault::BadStartMarker)
    } else {
        match scan_version(s, 12, 0) {
            VersionScan::Short => Frame::Incomplete,
            VersionScan::TooLong => Frame::Fault(FramingFault::VersionTooLong),
            VersionScan::Found(k) => match parse_version(s.subrange(12, (12 + k) as int)) {
                None => Frame::Fault(FramingFault::BadVersion),
                Some((major, minor)) => if major > VERSION_MAJOR {
                    Frame::Unsupported { major, minor }
                } else {
                    let lp: int = (12 + k + 1) as int;
                    if s.len() < lp + 5 {
                        Frame::Incomplete
                    } else {
                        match parse_bounded(s.subrange(lp, lp + 5), usize::MAX as nat) {
                            None => Frame::Fault(FramingFault::BadLength),
                            Some(total) => {
                                let consumed: int = lp + 5;
                                if total < consumed + 3 {
                                    Frame::Fault(FramingFault::LengthTooSmall)
                                } else if s.len() < total {
                                    Frame::Incomplete
                                } else {
                                    let buf = s.subrange(consumed, total as int);
                                    if buf[0] != 32 {
                                        Frame::Fault(FramingFault::MissingSeparator)
                                    } else {
                                        match index_of(buf, 10) {
                                            None => Frame::Fault(FramingFault::MissingHeaderEnd),
                                            Some(he) => if buf.last() != 10 || he + 1 >= buf.len() {
                                                Frame::Fault(FramingFault::MissingPacketEnd)
                                            } else {
                                                Frame::Packet {
                                                    stream: buf.subrange(1, he as int),
                                                    payload: buf.subrange((he + 1) as int, buf.len() - 1),
                                                    len: total,
                                                }
                                            },
                                        }
                                    }
                                }
                            },
                        }
                    }
                },
            },
        }
    }
}

/// A decoded packet: the stream it belongs to and its payload.
#[derive(Debug)]
pub struct Packet {
    pub stream: String,
    pub payload: Vec<u8>,
}

/// `std::io::Error`, carried as an opaque value in [`ProtocolError::Io`].
#[verifier::external_type_specification]
#[verifier::external_body]
pub struct ExIoError(std::io::Error);

#[derive(Debug)]
pub enum ProtocolError {
    Io(std::io::Error),
    /// Stream is not valid framing (truncated, garbage, version mismatch by raw peer).
    BadFraming(String),
    /// Server speaks a major version this client does not understand.
    UnsupportedVersion { major: u32, minor: u32 },
}

fn parse_version_exec(v: &[u8]) -> (r: Option<(u32, u32)>)
    ensures
        r == parse_version(v@),
{
    match find_byte(v, 46, 0) {
        None => None,
        Some(i) => {
            proof {
                lemma_index_of_from(v@, 46, 0);
            }
            let major = slice_range(v, 0, i);
            let vn: usize = v.len();
            let minor = slice_range(v, i + 1, vn);
            let a = parse_unsigned_upto(major.as_slice(), u32::MAX as u64);
            let b = parse_unsigned_upto(minor.as_slice(), u32::MAX as u64);
            match (a, b) {
                (Some(a), Some(b)) => Some((a as u32, b as u32)),
                _ => None,
            }
        },
    }
}

/// The exec form of a decoded frame.
enum Decoded {
    Incomplete,
    End,
    Packet { stream: Vec<u8>, payload: Vec<u8>, len: usize },
    Fault(FramingFault),
    Unsupported { major: u32, minor: u32 },
}

spec fn decoded_is(d: Decoded, f: Frame) -> bool {
    match d {
        Decoded::Incomplete => f is Incomplete,
        Decoded::End => f is End,
        Decoded::Packet { stream, payload, len } => f == Frame::Packet {
            stream: stream@,
            payload: payload@,
            len: len as nat,
        },
        Decoded::Fault(k) => f == Frame::Fault(k),
        Decoded::Unsupported { major, minor } => f == Frame::Unsupported { major, minor },
    }
}

fn decode_exec(s: &[u8]) -> (r: Decoded)
    ensures
        decoded_is(r, decode(s@)),
{
    reveal(decode);
    let n: usize = s.len();
    if n == 0 {
        return Decoded::End;
    }
    if s[0] != 35 {
        return Decoded::Fault(FramingFault::MissingStartMarker);
    }
    if n < 12 {
        return Decoded::Incomplete;
    }
    let mut id: Vec<u8> = Vec::new();
    push_protocol_id(&mut id);
    if !bytes_equal_at(s, 0, id.as_slice()) {
        return Decoded::Fault(FramingFault::BadStartMarker);
    }
    // version: up to 16 bytes before a space
    let mut k: usize = 0;
    loop
        invariant
            n == s@.len(),
            12 <= n,
            k <= 16,
            s@[0] == 35,
            s@.subrange(0, 12) == protocol_id(),
            scan_version(s@, 12, 0) == scan_version(s@, 12, k as nat),
        ensures
            k <= 16,
            12 + k < n,
            s@[12 + k] == 32,
            scan_version(s@, 12, 0) == VersionScan::Found(k as nat),
        decreases 16 - k,
    {
        reveal(decode);
        if 12 + k >= n {
            return Decoded::Incomplete;
        }
        if s[12 + k] == 32 {
            break ;
        }
        if k + 1 > 16 {
            return Decoded::Fault(FramingFault::VersionTooLong);
        }
        k = k + 1;
    }
    assert(scan_version(s@, 12, 0) == VersionScan::Found(k as nat));
    let version = slice_range(s, 12, 12 + k);
    let (major, minor) = match parse_version_exec(version.as_slice()) {
        None => {
            return Decoded::Fault(FramingFault::BadVersion);
        },
        Some(v) => v,
    };
    if major > VERSION_MAJOR {
        return Decoded::Unsupported { major, minor };
    }
    let lp: usize = 12 + k + 1;
    if n < lp + 5 {
        return Decoded::Incomplete;
    }
    let len_field = slice_range(s, lp, lp + 5);
    let total: usize = match parse_unsigned_upto(len_field.as_slice(), usize::MAX as u64) {
        None => {
            return Decoded::Fault(FramingFault::BadLength);
        },
        Some(t) => t as usize,
    };
    let consumed: usize = lp + 5;
    if total < consumed + 3 {
        return Decoded::Fault(FramingFault::LengthTooSmall);
    }
    if n < total {
        return Decoded::Incomplete;
    }
    let buf = slice_range(s, consumed, total);
    assert(buf@ == s@.subrange(consumed as int, total as int));
    if buf[0] != 32 {
        return Decoded::Fault(FramingFault::MissingSeparator);
    }
    let he: usize = match find_byte(buf.as_slice(), 10, 0) {
        None => {
            return Decoded::Fault(FramingFault::MissingHeaderEnd);
        },
        Some(i) => i,
    };
    proof {
        lemma_index_of_from(buf@, 10, 0);
    }
    let blen: usize = buf.len();
    if buf[blen - 1] != 10 || he + 1 >= blen {
        return Decoded::Fault(FramingFault::MissingPacketEnd);
    }
    let stream = slice_range(buf.as_slice(), 1, he);
    let payload = slice_range(buf.as_slice(), he + 1, blen - 1);
    Decoded::Packet { stream, payload, len: total }
}


/// Reads framed packets from a byte stream that arrives in pieces. Bytes are
/// pushed as they arrive; `close` marks the end of the stream.
pub struct PacketReader {
    buf: Vec<u8>,
    closed: bool,
}

impl PacketReader {
    /// Bytes received but not yet consumed by a packet.
    pub closed spec fn pending(&self) -> Seq<u8> {
        self.buf@
    }

    /// Whether the end of the stream has been reached.
    pub closed spec fn is_closed(&self) -> bool {
        self.closed
    }

    /// A reader for a stream that has delivered nothing yet.
    pub fn new() -> (r: PacketReader)
        ensures
            r.pending() == Seq::<u8>::empty(),
            !r.is_closed(),
    {
        PacketReader { buf: Vec::new(), closed: false }
    }

    /// A reader over a complete stream consisting of exactly `bytes`.
    pub fn from_bytes(bytes: &[u8]) -> (r: PacketReader)
        ensures
            r.pending() == bytes@,
            r.is_closed(),
    {
        PacketReader { buf: slice_range(bytes, 0, bytes.len()), closed: true }
    }

    /// More bytes arrived.
    pub fn push(&mut self, bytes: &[u8])
        ensures
            final(self).pending() == old(self).pending() + bytes@,
            final(self).is_closed() == old(self).is_closed(),
    {
        append_slice(&mut self.buf, bytes);
    }

    /// The stream ended.
    pub fn close(&mut self)
        ensures
            final(self).pending() == old(self).pending(),
            final(self).is_closed(),
    {
        self.closed = true;
    }

    /// Read the next packet. `None` means the bytes received so far do not yet
    /// decide it (more must be pushed, or the stream closed); `Some(Ok(None))`
    /// means a clean end of stream at a packet boundary.
    pub fn read_packet(&mut self) -> (r: Option<Result<Option<Packet>, ProtocolError>>)
        ensures
            final(self).is_closed() == old(self).is_closed(),
            match decode(old(self).pending()) {
                Frame::Incomplete => final(self).pending() == old(self).pending() && (if old(
                    self,
                ).is_closed() {
                    r matches Some(Err(ProtocolError::BadFraming(m))) && m@ == fault_message(
                        FramingFault::Truncated,
                    )
                } else {
                    r is None
                }),
                Frame::End => final(self).pending() == old(self).pending() && (if old(
                    self,
                ).is_closed() {
                    r matches Some(Ok(None))
                } else {
                    r is None
                }),
                Frame::Packet { stream, payload, len } => final(self).pending() == old(
                    self,
                ).pending().subrange(len as int, old(self).pending().len() as int) && (r matches Some(
                    Ok(Some(p)),
                ) && p.stream@ == utf8_lossy(stream) && p.payload@ == payload),
                Frame::Fault(k) => final(self).pending() == old(self).pending() && (r matches Some(
                    Err(ProtocolError::BadFraming(m)),
                ) && m@ == fault_message(k)),
                Frame::Unsupported { major, minor } => final(self).pending() == old(
                    self,
                ).pending() && (r matches Some(
                    Err(ProtocolError::UnsupportedVersion { major: a, minor: b }),
                ) && a == major && b == minor),
            },
    {
        proof {
            lemma_decode_packet_len(self.buf@);
        }
        match decode_exec(self.buf.as_slice()) {
            Decoded::Incomplete => {
                if self.closed {
                    Some(Err(ProtocolError::BadFraming(fault_text(FramingFault::Truncated))))
                } else {
                    None
                }
            },
            Decoded::End => {
                if self.closed {
                    Some(Ok(None))
                } else {
                    None
                }
            },
            Decoded::Packet { stream, payload, len } => {
                self.buf = slice_range(self.buf.as_slice(), len, self.buf.len());
                let stream = lossy_string(stream.as_slice());
                Some(Ok(Some(Packet { stream, payload })))
            },
            Decoded::Fault(k) => Some(Err(ProtocolError::BadFraming(fault_text(k)))),
            Decoded::Unsupported { major, minor } => Some(
                Err(ProtocolError::UnsupportedVersion { major, minor }),
            ),
        }
    }
}

// ---- laws of the framing -------------------------------------------------------

proof fn lemma_scan_version_stable(s: Seq<u8>, t: Seq<u8>, from: nat, k: nat)
    requires
        !(scan_version(s, from, k) is Short),
    ensures
        scan_version(s + t, from, k) == scan_version(s, from, k),
    decreases 16 - k,
{
    if from + k < s.len() && s[(from + k) as int] != 32 && k + 1 <= 16 {
        lemma_scan_version_stable(s, t, from, k + 1);
    }
}

proof fn lemma_scan_version_found(s: Seq<u8>, from: nat, k: nat)
    ensures
        scan_version(s, from, k) matches VersionScan::Found(j) ==> k <= j && from + j < s.len()
            && s[(from + j) as int] == 32,
    decreases 16 - k,
{
    if from + k < s.len() && s[(from + k) as int] != 32 && k + 1 <= 16 {
        lemma_scan_version_found(s, from, k + 1);
    }
}

/// Reading is decided by a prefix: once the bytes received decide the next
/// packet (or fault), more bytes arriving later never change that decision.
pub proof fn law_decode_prefix_stable(s: Seq<u8>, t: Seq<u8>)
    requires
        s.len() > 0,
        !(decode(s) is Incomplete),
    ensures
        decode(s + t) == decode(s),
{
    reveal(decode);
    let u = s + t;
    assert(u[0] == s[0]);
    if s[0] == 35 && s.len() >= 12 {
        assert(u.subrange(0, 12) =~= s.subrange(0, 12));
        if s.subrange(0, 12) == protocol_id() {
            lemma_scan_version_stable(s, t, 12, 0);
            lemma_scan_version_found(s, 12, 0);
            match scan_version(s, 12, 0) {
                VersionScan::Found(k) => {
                    assert(u.subrange(12, (12 + k) as int) =~= s.subrange(12, (12 + k) as int));
                    let lp: int = (12 + k + 1) as int;
                    if s.len() >= lp + 5 {
                        assert(u.subrange(lp, lp + 5) =~= s.subrange(lp, lp + 5));
                        match parse_bounded(s.subrange(lp, lp + 5), usize::MAX as nat) {
                            Some(total) => {
                                if s.len() >= total && total >= lp + 5 + 3 {
                                    assert(u.subrange(lp + 5, total as int) =~= s.subrange(
                                        lp + 5,
                                        total as int,
                                    ));
                                }
                            },
                            None => {},
                        }
                    }
                },
                _ => {},
            }
        }
    }
}

proof fn lemma_index_of_is(s: Seq<u8>, b: u8, i: nat)
    requires
        i < s.len(),
        s[i as int] == b,
        forall|j: int| 0 <= j < i ==> s[j] != b,
    ensures
        index_of(s, b) == Some(i),
{
    lemma_index_of_from(s, b, 0);
}

/// A packet reads back as exactly the stream name and payload it was built
/// from, whatever follows it, provided the stream name holds no newline.
pub proof fn law_packet_roundtrip(name: Seq<u8>, payload: Seq<u8>, rest: Seq<u8>)
    requires
        overhead(name.len()) + payload.len() <= MAX_PACKET,
        index_of(name, 10) is None,
    ensures
        packet_bytes(name, payload).len() == overhead(name.len()) + payload.len(),
        decode(packet_bytes(name, payload) + rest) == (Frame::Packet {
            stream: name,
            payload,
            len: overhead(name.len()) + payload.len(),
        }),
{
    reveal(decode);
    lemma_version_text();
    let total: nat = overhead(name.len()) + payload.len();
    crate::bytes::lemma_dec_bytes(total);
    crate::bytes::lemma_padded_parses(total, 5);
    crate::bytes::lemma_padded_parses(1, 0);
    crate::bytes::lemma_padded_parses(0, 0);
    let digits = zero_pad_bytes(dec_bytes(total), 5);
    assert(digits.len() == 5);
    let p = packet_bytes(name, payload);
    let s = p + rest;
    assert(p.len() == total);
    assert(s.subrange(0, 12) =~= protocol_id());
    assert(s[12] == 49 && s[13] == 46 && s[14] == 48 && s[15] == 32);
    reveal_with_fuel(scan_version, 5);
    assert(scan_version(s, 12, 0) == VersionScan::Found(3));
    let v = s.subrange(12, 15);
    assert(v =~= seq![49u8, 46, 48]);
    assert(v.subrange(0, 1) =~= dec_bytes(1));
    assert(v.subrange(2, 3) =~= dec_bytes(0));
    lemma_index_of_is(v, 46, 1);
    assert(parse_version(v) == Some((1u32, 0u32)));
    assert(s.subrange(16, 21) =~= digits);
    let buf = s.subrange(21, total as int);
    assert(buf =~= seq![32u8] + name + seq![10u8] + payload + seq![10u8]);
    lemma_index_of_from(name, 10, 0);
    lemma_index_of_is(buf, 10, name.len() + 1);
    assert(buf.subrange(1, (name.len() + 1) as int) =~= name);
    assert(buf.subrange((name.len() + 2) as int, buf.len() - 1) =~= payload);
}

/// An empty stream is a clean end.
pub proof fn lemma_decode_empty()
    ensures
        decode(Seq::<u8>::empty()) is End,
{
    reveal(decode);
}

/// A decoded packet is a non-empty prefix of the stream.
pub proof fn lemma_decode_packet_len(s: Seq<u8>)
    ensures
        decode(s) matches Frame::Packet { len, .. } ==> 0 < len <= s.len(),
        decode(s) is End ==> s.len() == 0,
{
    reveal(decode);
}

/// Reassemble the payloads of the packets of `name` that make up all of `s`;
/// `None` when `s` is not exactly a sequence of such packets.
pub open spec fn reassemble(s: Seq<u8>, name: Seq<u8>) -> Option<Seq<u8>>
    decreases s.len(),
{
    match decode(s) {
        Frame::End => Some(Seq::empty()),
        Frame::Packet { stream, payload, len } => if stream == name && 0 < len <= s.len() {
            match reassemble(s.subrange(len as int, s.len() as int), name) {
                Some(more) => Some(payload + more),
                None => None,
            }
        } else {
            None
        },
        _ => None,
    }
}

proof fn lemma_reassemble_packets(name: Seq<u8>, payload: Seq<u8>)
    requires
        name_fits(name),
        index_of(name, 10) is None,
    ensures
        reassemble(packets_for(name, payload), name) == Some(payload),
    decreases payload.len(),
{
    let cap = spec_max_payload(name.len());
    lemma_decode_empty();
    assert(reassemble(Seq::<u8>::empty(), name) == Some(Seq::<u8>::empty()));
    if payload.len() == 0 {
        assert(payload =~= Seq::<u8>::empty());
    } else if payload.len() <= cap {
        law_packet_roundtrip(name, payload, Seq::empty());
        let p = packet_bytes(name, payload);
        assert(p + Seq::<u8>::empty() =~= p);
        assert(p.subrange(p.len() as int, p.len() as int) =~= Seq::<u8>::empty());
        assert(payload + Seq::<u8>::empty() =~= payload);
    } else {
        let first = payload.subrange(0, cap);
        let later = payload.subrange(cap, payload.len() as int);
        law_packet_roundtrip(name, first, packets_for(name, later));
        lemma_reassemble_packets(name, later);
        let p = packet_bytes(name, first);
        let s = p + packets_for(name, later);
        assert(s.subrange(p.len() as int, s.len() as int) =~= packets_for(name, later));
        assert(first + later =~= payload);
    }
}

/// Stream reassembly is byte-exact: concatenating the payloads of the packets
/// that `encode` produces gives back exactly the payload, however it was split.
pub proof fn law_encode_reassembles(name: Seq<u8>, payload: Seq<u8>)
    requires
        name_fits(name),
        index_of(name, 10) is None,
    ensures
        reassemble(encoded(name, payload), name) == Some(payload),
{
    lemma_decode_empty();
    assert(reassemble(Seq::<u8>::empty(), name) == Some(Seq::<u8>::empty()));
    if payload.len() == 0 {
        law_packet_roundtrip(name, payload, Seq::empty());
        let p = packet_bytes(name, payload);
        assert(p + Seq::<u8>::empty() =~= p);
        assert(p.subrange(p.len() as int, p.len() as int) =~= Seq::<u8>::empty());
        assert(payload + Seq::<u8>::empty() =~= payload);
    } else {
        lemma_reassemble_packets(name, payload);
    }
}


/// How many packets make up all of `s`, taken one after another as a reader
/// takes them; `None` when `s` is not exactly a sequence of packets.
pub open spec fn packet_count(s: Seq<u8>) -> Option<nat>
    decreases s.len(),
{
    match decode(s) {
        Frame::End => Some(0),
        Frame::Packet { len, .. } => if 0 < len <= s.len() {
            match packet_count(s.subrange(len as int, s.len() as int)) {
                Some(k) => Some(k + 1),
                None => None,
            }
        } else {
            None
        },
        _ => None,
    }
}

/// Packets of a payload split at the per-packet maximum `cap`: the payload
/// length divided by `cap`, rounded up.
proof fn lemma_packets_for_count(name: Seq<u8>, payload: Seq<u8>)
    requires
        name_fits(name),
        index_of(name, 10) is None,
    ensures
        packet_count(packets_for(name, payload)) == Some(
            ((payload.len() + spec_max_payload(name.len()) - 1) / spec_max_payload(name.len())) as nat,
        ),
    decreases payload.len(),
{
    let cap = spec_max_payload(name.len());
    let n = payload.len() as int;
    lemma_decode_empty();
    assert(packet_count(Seq::<u8>::empty()) == Some(0nat));
    if n == 0 {
        vstd::arithmetic::div_mod::lemma_basic_div(cap - 1, cap);
    } else if n <= cap {
        law_packet_roundtrip(name, payload, Seq::empty());
        let p = packet_bytes(name, payload);
        assert(p + Seq::<u8>::empty() =~= p);
        lemma_decode_packet_len(p);
        assert(p.subrange(p.len() as int, p.len() as int) =~= Seq::<u8>::empty());
        vstd::arithmetic::div_mod::lemma_basic_div(n - 1, cap);
        vstd::arithmetic::div_mod::lemma_div_plus_one(n - 1, cap);
    } else {
        let first = payload.subrange(0, cap);
        let later = payload.subrange(cap, n);
        law_packet_roundtrip(name, first, packets_for(name, later));
        lemma_packets_for_count(name, later);
        let p = packet_bytes(name, first);
        let s = p + packets_for(name, later);
        lemma_decode_packet_len(s);
        assert(s.subrange(p.len() as int, s.len() as int) =~= packets_for(name, later));
        assert(later.len() + cap - 1 == n - 1);
        vstd::arithmetic::div_mod::lemma_div_plus_one(n - 1, cap);
    }
}

/// `encode` writes one packet for an empty payload, and otherwise the payload
/// length divided by the per-packet maximum, rounded up: every packet but the
/// last is full.
pub proof fn law_encode_packet_count(name: Seq<u8>, payload: Seq<u8>)
    requires
        name_fits(name),
        index_of(name, 10) is None,
    ensures
        packet_count(encoded(name, payload)) == Some(
            if payload.len() == 0 {
                1nat
            } else {
                ((payload.len() + spec_max_payload(name.len()) - 1) / spec_max_payload(
                    name.len(),
                )) as nat
            },
        ),
{
    lemma_decode_empty();
    assert(packet_count(Seq::<u8>::empty()) == Some(0nat));
    if payload.len() == 0 {
        law_packet_roundtrip(name, payload, Seq::empty());
        let p = packet_bytes(name, payload);
        assert(p + Seq::<u8>::empty() =~= p);
        lemma_decode_packet_len(p);
        assert(p.subrange(p.len() as int, p.len() as int) =~= Seq::<u8>::empty());
    } else {
        lemma_packets_for_count(name, payload);
    }
}


// ---- control messages ------------------------------------------------------------

/// The text of a control payload `kind [message]`.
fn ctl_payload(kind: &str, text: &str) -> (r: Vec<u8>)
    ensures
        r@ == encode_utf8(kind@ + " "@ + text@),
{
    let mut t = owned(kind);
    t.append(" ");
    t.append(text);
    let b = t.as_str().as_bytes();
    slice_range(b, 0, b.len())
}

/// Build a `ctl` status payload from a key=value field string.
pub fn ctl_status(fields: &str) -> (r: Vec<u8>)
    ensures
        r@ == encode_utf8("status"@ + " "@ + fields@),
{
    ctl_payload("status", fields)
}

/// Build a terminal `ctl` error payload.
pub fn ctl_error(message: &str) -> (r: Vec<u8>)
    ensures
        r@ == encode_utf8("error"@ + " "@ + message@),
{
    ctl_payload("error", message)
}

/// Parsed control message.
#[derive(Debug, PartialEq, Eq)]
pub enum Ctl {
    Status(String),
    Error(String),
    /// Unknown control type; treated as informational.
    Other(String),
}

/// The abstract value of a control message.
pub enum CtlText {
    Status(Seq<char>),
    Error(Seq<char>),
    Other(Seq<char>),
}

/// First index of `c` in `s` at or after `p`.
pub open spec fn char_index_from(s: Seq<char>, c: char, p: nat) -> Option<nat>
    decreases s.len() - p,
{
    if p >= s.len() {
        None
    } else if s[p as int] == c {
        Some(p)
    } else {
        char_index_from(s, c, p + 1)
    }
}

/// A control payload's text read as `type [message]`: split at the first
/// space; `status` and `error` are known types, anything else is kept whole.
pub open spec fn ctl_of_text(s: Seq<char>) -> CtlText {
    let (kind, rest) = match char_index_from(s, ' ', 0) {
        Some(i) => (s.subrange(0, i as int), s.subrange((i + 1) as int, s.len() as int)),
        None => (s, Seq::empty()),
    };
    if kind == "status"@ {
        CtlText::Status(rest)
    } else if kind == "error"@ {
        CtlText::Error(rest)
    } else {
        CtlText::Other(s)
    }
}

/// Whether an exec control message has the given abstract value.
pub open spec fn ctl_is(c: Ctl, t: CtlText) -> bool {
    match c {
        Ctl::Status(m) => t == CtlText::Status(m@),
        Ctl::Error(m) => t == CtlText::Error(m@),
        Ctl::Other(m) => t == CtlText::Other(m@),
    }
}

proof fn lemma_char_index_from(s: Seq<char>, c: char, p: nat)
    ensures
        match char_index_from(s, c, p) {
            Some(i) => p <= i < s.len() && s[i as int] == c && forall|j: int|
                p <= j < i ==> s[j] != c,
            None => forall|j: int| p <= j < s.len() ==> s[j] != c,
        },
    decreases s.len() - p,
{
    if p < s.len() && s[p as int] != c {
        lemma_char_index_from(s, c, p + 1);
    }
}

/// Parse a control payload (lossily decoded as UTF-8).
pub fn parse_ctl(payload: &[u8]) -> (r: Ctl)
    ensures
        ctl_is(r, ctl_of_text(utf8_lossy(payload@))),
        valid_utf8(payload@) ==> ctl_is(r, ctl_of_text(decode_utf8(payload@))),
{
    let s = lossy_string(payload);
    let n: usize = s.as_str().unicode_len();
    let mut i: usize = 0;
    while i < n
        invariant
            i <= n,
            n == s@.len(),
            char_index_from(s@, ' ', 0) == char_index_from(s@, ' ', i as nat),
        ensures
            i <= n,
            char_index_from(s@, ' ', 0) == (if i < n { Some(i as nat) } else { None }),
        decreases n - i,
    {
        if s.as_str().get_char(i) == ' ' {
            break ;
        }
        i = i + 1;
    }
    let (kind, rest) = if i < n {
        (s.as_str().substring_char(0, i).to_owned(), s.as_str().substring_char(i + 1, n).to_owned())
    } else {
        (s.clone(), String::new())
    };
    if kind == owned("status") {
        Ctl::Status(rest)
    } else if kind == owned("error") {
        Ctl::Error(rest)
    } else {
        Ctl::Other(s)
    }
}

proof fn lemma_kind_roundtrip(kind: Seq<char>, text: Seq<char>)
    requires
        char_index_from(kind, ' ', 0) is None,
    ensures
        char_index_from(kind + " "@ + text, ' ', 0) == Some(kind.len()),
{
    reveal_strlit(" ");
    lemma_char_index_from(kind, ' ', 0);
    let s = kind + " "@ + text;
    lemma_char_index_from(s, ' ', 0);
    assert(s[kind.len() as int] == ' ');
    match char_index_from(s, ' ', 0) {
        Some(i) => {
            if i < kind.len() {
                assert(s[i as int] == kind[i as int]);
            }
        },
        None => {},
    }
}

/// A status message reads back as that status: parsing the payload that
/// `ctl_status(fields)` builds gives `Status(fields)`.
pub proof fn law_ctl_status_roundtrip(fields: Seq<char>)
    ensures
        valid_utf8(encode_utf8("status"@ + " "@ + fields)),
        ctl_of_text(decode_utf8(encode_utf8("status"@ + " "@ + fields))) == CtlText::Status(fields),
{
    let t = "status"@ + " "@ + fields;
    vstd::utf8::encode_utf8_valid_utf8(t);
    vstd::utf8::encode_utf8_decode_utf8(t);
    reveal_strlit("status");
    reveal_strlit(" ");
    assert(char_index_from("status"@, ' ', 0) is None) by {
        reveal_with_fuel(char_index_from, 7);
    }
    lemma_kind_roundtrip("status"@, fields);
    assert(t.subrange(0, 6) =~= "status"@);
    assert(t.subrange(7, t.len() as int) =~= fields);
}

/// An error message reads back as that error: parsing the payload that
/// `ctl_error(message)` builds gives `Error(message)`.
pub proof fn law_ctl_error_roundtrip(message: Seq<char>)
    ensures
        valid_utf8(encode_utf8("error"@ + " "@ + message)),
        ctl_of_text(decode_utf8(encode_utf8("error"@ + " "@ + message))) == CtlText::Error(message),
{
    let t = "error"@ + " "@ + message;
    vstd::utf8::encode_utf8_valid_utf8(t);
    vstd::utf8::encode_utf8_decode_utf8(t);
    reveal_strlit("error");
    reveal_strlit("status");
    reveal_strlit(" ");
    assert(char_index_from("error"@, ' ', 0) is None) by {
        reveal_with_fuel(char_index_from, 6);
    }
    lemma_kind_roundtrip("error"@, message);
    assert(t.subrange(0, 5) =~= "error"@);
    assert("error"@ != "status"@) by {
        assert("error"@.len() != "status"@.len());
    }
    assert(t.subrange(6, t.len() as int) =~= message);
}

} // verus!
