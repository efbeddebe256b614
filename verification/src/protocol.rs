//! Wire format for mesh chat packets.
//!
//! ```text
//! [0..16)                 msg_id       : 16 bytes, random UUID, used for de-dup
//! [16]                    ttl          : u8, decremented on every hop, dropped at 0
//! [17]                    sender_len   : u8
//! [18..18+sender_len)     sender name, UTF-8
//! next 2 bytes            payload_len  : u16, little-endian
//! next payload_len bytes  payload, UTF-8
//! ```
//!
//! There is no encryption and no compression. A packet is capped at
//! [`MAX_PACKET_SIZE`] so that it fits in a single BLE notification and never
//! needs fragmentation.
use uuid::Uuid;
use vstd::prelude::*;
use vstd::slice::slice_subrange;
use vstd::utf8::*;

verus! {

/// Hard cap on an encoded packet, chosen to fit inside one GATT notification
/// even at a conservative negotiated ATT MTU.
pub const MAX_PACKET_SIZE: usize = 400;

/// Time-to-live of a freshly authored message: the number of hops over which
/// it may be re-flooded before nodes stop forwarding it.
pub const DEFAULT_TTL: u8 = 7;

/// Bytes in front of the sender name: message id, ttl and sender length.
pub const HEADER_SIZE: usize = 18;

/// One chat message on its way through the mesh.
#[derive(Debug, PartialEq, Eq)]
pub struct Packet {
    pub msg_id: [u8; 16],
    pub ttl: u8,
    pub sender: String,
    pub payload: String,
}

/// Why a buffer is not a packet.
#[derive(Debug, Clone, Copy, PartialEq, Eq, Structural)]
pub enum DecodeError {
    TooShort,
    BadSenderLen,
    BadPayloadLen,
    Utf8,
}

/// The mathematical content of a [`Packet`].
#[verifier::ext_equal]
pub struct PacketView {
    pub msg_id: Seq<u8>,
    pub ttl: u8,
    pub sender: Seq<char>,
    pub payload: Seq<char>,
}

impl View for Packet {
    type V = PacketView;

    open spec fn view(&self) -> PacketView {
        PacketView {
            msg_id: self.msg_id@,
            ttl: self.ttl,
            sender: self.sender@,
            payload: self.payload@,
        }
    }
}

// ---------------------------------------------------------------------------
// The format
// ---------------------------------------------------------------------------

/// The two little-endian bytes of `n`.
pub open spec fn le16(n: int) -> Seq<u8> {
    seq![(n % 256) as u8, (n / 256) as u8]
}

/// The number that two little-endian bytes stand for.
pub open spec fn from_le16(low: u8, high: u8) -> int {
    low + 256 * high
}

/// The bytes of a packet on the wire, regardless of any size limit.
pub open spec fn wire(p: PacketView) -> Seq<u8> {
    let sender = encode_utf8(p.sender);
    let payload = encode_utf8(p.payload);
    p.msg_id + seq![p.ttl, sender.len() as u8] + sender + le16(payload.len() as int) + payload
}

/// What encoding a packet yields: its bytes, or the reason for its refusal.
pub open spec fn encoded(p: PacketView) -> Result<Seq<u8>, Seq<char>> {
    let sender = encode_utf8(p.sender);
    let payload = encode_utf8(p.payload);
    if sender.len() > 255 {
        Err("sender name too long"@)
    } else if payload.len() > 65535 {
        Err("payload too long"@)
    } else if HEADER_SIZE + sender.len() + 2 + payload.len() > MAX_PACKET_SIZE {
        Err("encoded packet exceeds MAX_PACKET_SIZE"@)
    } else {
        Ok(wire(p))
    }
}

/// Index one past the sender name of `buf`.
pub open spec fn sender_end(buf: Seq<u8>) -> int {
    HEADER_SIZE + buf[17]
}

/// Index one past the payload of `buf`.
pub open spec fn payload_end(buf: Seq<u8>) -> int {
    sender_end(buf) + 2 + from_le16(buf[sender_end(buf)], buf[sender_end(buf) + 1])
}

/// What decoding a buffer yields. Bytes behind the payload are ignored.
pub open spec fn decoded(buf: Seq<u8>) -> Result<PacketView, DecodeError> {
    if buf.len() < HEADER_SIZE {
        Err(DecodeError::TooShort)
    } else if buf.len() < sender_end(buf) + 2 {
        Err(DecodeError::BadSenderLen)
    } else {
        let sender = buf.subrange(HEADER_SIZE as int, sender_end(buf));
        let payload = buf.subrange(sender_end(buf) + 2, payload_end(buf));
        if !valid_utf8(sender) {
            Err(DecodeError::Utf8)
        } else if buf.len() < payload_end(buf) {
            Err(DecodeError::BadPayloadLen)
        } else if !valid_utf8(payload) {
            Err(DecodeError::Utf8)
        } else {
            Ok(
                PacketView {
                    msg_id: buf.subrange(0, 16),
                    ttl: buf[16],
                    sender: decode_utf8(sender),
                    payload: decode_utf8(payload),
                },
            )
        }
    }
}

/// The packet one hop further on; a packet without hops left has none.
pub open spec fn next_hop(p: PacketView) -> Option<PacketView> {
    if p.ttl == 0 {
        None
    } else {
        Some(PacketView { ttl: (p.ttl - 1) as u8, ..p })
    }
}

/// The lower-case hexadecimal digit of `n`, for `n` below 16.
pub open spec fn hex_digit(n: int) -> char {
    if n < 10 {
        ('0' as int + n) as char
    } else {
        ('a' as int + n - 10) as char
    }
}

/// Two lower-case hexadecimal digits per byte, high nibble first.
pub open spec fn hex(bytes: Seq<u8>) -> Seq<char> {
    Seq::new(
        2 * bytes.len(),
        |i: int|
            if i % 2 == 0 {
                hex_digit(bytes[i / 2] as int / 16)
            } else {
                hex_digit(bytes[i / 2] as int % 16)
            },
    )
}

/// The bits that every random (version 4) UUID has in common: the version
/// number in byte 6 and the variant in byte 8.
pub open spec fn is_random_uuid(id: Seq<u8>) -> bool {
    &&& id.len() == 16
    &&& id[6] / 16 == 4
    &&& id[8] / 64 == 2
}

// ---------------------------------------------------------------------------
// Calls out of the crate
// ---------------------------------------------------------------------------

/// The error of `std::str::from_utf8`.
#[verifier::external_type_specification]
#[verifier::external_body]
pub struct ExUtf8Error(std::str::Utf8Error);

/// `std::str::from_utf8` accepts exactly the byte sequences that are valid
/// UTF-8, and hands back the characters that they encode.
pub assume_specification[ std::str::from_utf8 ](v: &[u8]) -> (r: Result<
    &str,
    std::str::Utf8Error,
>)
    ensures
        r is Ok <==> valid_utf8(v@),
        r matches Ok(s) ==> s@ == decode_utf8(v@),
;

/// `String::push` appends one character.
pub assume_specification[ String::push ](s: &mut String, c: char)
    ensures
        final(s)@ == old(s)@.push(c),
;

/// The bytes of `uuid::Uuid::new_v4`. They are random but for the version and
/// variant bits, which are all that can be said of every outcome. That an id
/// is the outcome of such a call is what [`drawn`] tells.
#[verifier::external_body]
fn random_uuid() -> (id: [u8; 16])
    ensures
        is_random_uuid(id@),
{
    *Uuid::new_v4().as_bytes()
}

/// Whether an id, in all its bytes, was drawn from the random source. Nothing
/// but a call of it tells so of an id.
pub closed spec fn drawn(id: Seq<u8>) -> bool {
    exists|bytes: [u8; 16]| #[trigger] call_ensures(random_uuid, (), bytes) && bytes@ == id
}

// ---------------------------------------------------------------------------
// Packets
// ---------------------------------------------------------------------------

impl Clone for Packet {
    fn clone(&self) -> (p: Packet)
        ensures
            p == *self,
    {
        Packet {
            msg_id: self.msg_id,
            ttl: self.ttl,
            sender: self.sender.clone(),
            payload: self.payload.clone(),
        }
    }
}

impl Packet {
    /// A fresh message with the default time-to-live. Its id is drawn from the
    /// random source for this very message, whoever sends it and whatever it
    /// says.
    pub fn new(sender: &str, payload: &str) -> (p: Packet)
        ensures
            drawn(p@.msg_id),
            is_random_uuid(p@.msg_id),
            p@ == (PacketView {
                msg_id: p@.msg_id,
                ttl: DEFAULT_TTL,
                sender: sender@,
                payload: payload@,
            }),
    {
        Packet::with_id(random_uuid(), sender, payload)
    }

    /// A message with a given id and the default time-to-live.
    pub fn with_id(msg_id: [u8; 16], sender: &str, payload: &str) -> (p: Packet)
        ensures
            p@ == (PacketView {
                msg_id: msg_id@,
                ttl: DEFAULT_TTL,
                sender: sender@,
                payload: payload@,
            }),
            p.msg_id == msg_id,
    {
        Packet { msg_id, ttl: DEFAULT_TTL, sender: sender.to_owned(), payload: payload.to_owned() }
    }

    /// The message id in lower-case hexadecimal.
    pub fn msg_id_hex(&self) -> (s: String)
        ensures
            s@ == hex(self@.msg_id),
    {
        hex_encode(&self.msg_id)
    }

    /// A copy of this packet with the ttl decremented by one, or `None` when
    /// it has no hops left.
    pub fn with_decremented_ttl(&self) -> (r: Option<Packet>)
        ensures
            r is Some <==> self.ttl > 0,
            r matches Some(p) ==> next_hop(self@) == Some(p@) && p.msg_id == self.msg_id,
            r is None ==> next_hop(self@) is None,
    {
        if self.ttl == 0 {
            None
        } else {
            let mut p = self.clone();
            p.ttl = p.ttl - 1;
            Some(p)
        }
    }

    /// The bytes of this packet on the wire.
    pub fn encode(&self) -> (r: Result<Vec<u8>, &'static str>)
        ensures
            match r {
                Ok(bytes) => encoded(self@) == Ok::<Seq<u8>, Seq<char>>(bytes@),
                Err(reason) => encoded(self@) == Err::<Seq<u8>, Seq<char>>(reason@),
            },
    {
        let sender_bytes = self.sender.as_str().as_bytes();
        let payload_bytes = self.payload.as_str().as_bytes();
        if sender_bytes.len() > 255 {
            return Err("sender name too long");
        }
        if payload_bytes.len() > 65535 {
            return Err("payload too long");
        }
        let mut buf: Vec<u8> = Vec::with_capacity(
            HEADER_SIZE + sender_bytes.len() + 2 + payload_bytes.len(),
        );
        buf.extend_from_slice(&self.msg_id);
        buf.push(self.ttl);
        buf.push(sender_bytes.len() as u8);
        buf.extend_from_slice(sender_bytes);
        buf.push((payload_bytes.len() % 256) as u8);
        buf.push((payload_bytes.len() / 256) as u8);
        buf.extend_from_slice(payload_bytes);
        assert(buf@ =~= wire(self@));
        if buf.len() > MAX_PACKET_SIZE {
            return Err("encoded packet exceeds MAX_PACKET_SIZE");
        }
        Ok(buf)
    }

    /// The packet at the start of `buf`.
    pub fn decode(buf: &[u8]) -> (r: Result<Packet, DecodeError>)
        ensures
            match r {
                Ok(p) => decoded(buf@) == Ok::<PacketView, DecodeError>(p@),
                Err(e) => decoded(buf@) == Err::<PacketView, DecodeError>(e),
            },
    {
        if buf.len() < HEADER_SIZE {
            return Err(DecodeError::TooShort);
        }
        let msg_id = [
            buf[0],
            buf[1],
            buf[2],
            buf[3],
            buf[4],
            buf[5],
            buf[6],
            buf[7],
            buf[8],
            buf[9],
            buf[10],
            buf[11],
            buf[12],
            buf[13],
            buf[14],
            buf[15],
        ];
        assert(msg_id@ =~= buf@.subrange(0, 16));
        let ttl = buf[16];
        let sender_end: usize = HEADER_SIZE + buf[17] as usize;
        if buf.len() < sender_end + 2 {
            return Err(DecodeError::BadSenderLen);
        }
        let sender = match std::str::from_utf8(slice_subrange(buf, HEADER_SIZE, sender_end)) {
            Ok(s) => s.to_owned(),
            Err(_) => return Err(DecodeError::Utf8),
        };
        let payload_start: usize = sender_end + 2;
        let payload_len: usize = buf[sender_end] as usize + 256 * buf[sender_end + 1] as usize;
        let payload_end: usize = payload_start + payload_len;
        if buf.len() < payload_end {
            return Err(DecodeError::BadPayloadLen);
        }
        let payload = match std::str::from_utf8(slice_subrange(buf, payload_start, payload_end)) {
            Ok(s) => s.to_owned(),
            Err(_) => return Err(DecodeError::Utf8),
        };
        Ok(Packet { msg_id, ttl, sender, payload })
    }
}

/// One hexadecimal digit.
fn hex_char(n: u8) -> (c: char)
    requires
        n < 16,
    ensures
        c == hex_digit(n as int),
{
    if n < 10 {
        (48 + n) as char
    } else {
        (97 + (n - 10)) as char
    }
}

/// Lower-case hexadecimal, two digits per byte.
pub fn hex_encode(bytes: &[u8]) -> (s: String)
    ensures
        s@ == hex(bytes@),
{
    let mut s = String::new();
    let mut i: usize = 0;
    while i < bytes.len()
        invariant
            i <= bytes.len(),
            s@ =~= hex(bytes@.take(i as int)),
        decreases bytes.len() - i,
    {
        let b = bytes[i];
        s.push(hex_char(b / 16));
        s.push(hex_char(b % 16));
        i += 1;
    }
    assert(bytes@.take(i as int) =~= bytes@);
    s
}

// ---------------------------------------------------------------------------
// Laws
// ---------------------------------------------------------------------------

/// The packet after `n` hops, if it gets that far.
pub open spec fn after_hops(p: PacketView, n: nat) -> Option<PacketView>
    decreases n,
{
    if n == 0 {
        Some(p)
    } else {
        match after_hops(p, (n - 1) as nat) {
            Some(q) => next_hop(q),
            None => None,
        }
    }
}

/// An id that counts as drawn is the outcome of a call of the random source.
proof fn drawn_ids_come_from_the_source(id: Seq<u8>) -> (bytes: [u8; 16])
    requires
        drawn(id),
    ensures
        call_ensures(random_uuid, (), bytes),
        bytes@ == id,
{
    choose|bytes: [u8; 16]| #[trigger] call_ensures(random_uuid, (), bytes) && bytes@ == id
}

/// Every drawn id is a random UUID.
pub proof fn drawn_id_is_a_random_uuid(id: Seq<u8>)
    requires
        drawn(id),
    ensures
        id.len() == 16,
        id[6] / 16 == 4,
        id[8] / 64 == 2,
{
    let bytes = drawn_ids_come_from_the_source(id);
    assert(is_random_uuid(bytes@));
}

/// Byte by byte, an encoded packet is the message id, the ttl, the length of
/// the sender name and the name, the length of the text, low byte first, and
/// the text. It exists exactly if both lengths can be written down and the
/// whole is no longer than 400 bytes.
pub proof fn encoding_has_the_layout(p: PacketView)
    requires
        p.msg_id.len() == 16,
    ensures
        ({
            let sender = encode_utf8(p.sender);
            let text = encode_utf8(p.payload);
            let s = sender.len() as int;
            let t = text.len() as int;
            &&& encoded(p) is Ok <==> s <= 255 && t <= 65535 && 20 + s + t <= 400
            &&& encoded(p) matches Ok(bytes) ==> {
                &&& bytes.len() == 20 + s + t
                &&& forall|i: int| 0 <= i < 16 ==> #[trigger] bytes[i] == p.msg_id[i]
                &&& bytes[16] == p.ttl
                &&& bytes[17] == s
                &&& bytes.subrange(18, 18 + s) == sender
                &&& bytes[18 + s] == t % 256
                &&& bytes[19 + s] == t / 256
                &&& bytes.subrange(20 + s, 20 + s + t) == text
            }
            &&& encoded(p) matches Err(reason) ==> reason == if s > 255 {
                "sender name too long"@
            } else if t > 65535 {
                "payload too long"@
            } else {
                "encoded packet exceeds MAX_PACKET_SIZE"@
            }
        }),
{
    if let Ok(bytes) = encoded(p) {
        let sender = encode_utf8(p.sender);
        let text = encode_utf8(p.payload);
        let s = sender.len() as int;
        let t = text.len() as int;
        assert(bytes.subrange(18, 18 + s) =~= sender);
        assert(bytes.subrange(20 + s, 20 + s + t) =~= text);
    }
}

/// A buffer is read as a packet exactly if it holds one in the layout of the
/// format: every field of the packet is found at its place, and whatever
/// follows the text does not matter. A buffer that is refused is too short for
/// the header, for the sender name or for the text, or one of the two is not
/// UTF-8; the first of these in the order of reading is reported.
pub proof fn decoding_reads_the_layout(buf: Seq<u8>)
    ensures
        ({
            let s = buf[17] as int;
            let t = buf[18 + s] + 256 * buf[19 + s];
            let name = buf.subrange(18, 18 + s);
            let text = buf.subrange(20 + s, 20 + s + t);
            match decoded(buf) {
                Ok(p) => {
                    &&& buf.len() >= 20 + s + t
                    &&& p.msg_id.len() == 16
                    &&& forall|i: int| 0 <= i < 16 ==> #[trigger] p.msg_id[i] == buf[i]
                    &&& p.ttl == buf[16]
                    &&& valid_utf8(name) && encode_utf8(p.sender) == name
                    &&& valid_utf8(text) && encode_utf8(p.payload) == text
                },
                Err(DecodeError::TooShort) => buf.len() < 18,
                Err(DecodeError::BadSenderLen) => 18 <= buf.len() < 20 + s,
                Err(DecodeError::BadPayloadLen) => 20 + s <= buf.len() < 20 + s + t && valid_utf8(
                    name,
                ),
                Err(DecodeError::Utf8) => buf.len() >= 20 + s && (!valid_utf8(name) || (buf.len()
                    >= 20 + s + t && !valid_utf8(text))),
            }
        }),
{
    if decoded(buf) is Ok {
        let end = sender_end(buf);
        decode_utf8_encode_utf8(buf.subrange(HEADER_SIZE as int, end));
        decode_utf8_encode_utf8(buf.subrange(end + 2, payload_end(buf)));
    }
}

/// Hexadecimal can be read back: every byte is two of the characters 0 to 9
/// and a to f, the first worth sixteen times the second.
pub proof fn hex_can_be_read_back(bytes: Seq<u8>, i: int)
    requires
        0 <= i < bytes.len(),
    ensures
        hex(bytes).len() == 2 * bytes.len(),
        ({
            let worth = |c: char|
                if '0' <= c <= '9' {
                    c as int - '0' as int
                } else if 'a' <= c <= 'f' {
                    c as int - 'a' as int + 10
                } else {
                    -1
                };
            let high = worth(hex(bytes)[2 * i]);
            let low = worth(hex(bytes)[2 * i + 1]);
            0 <= high < 16 && 0 <= low < 16 && 16 * high + low == bytes[i]
        }),
{
    assert((2 * i) / 2 == i && (2 * i) % 2 == 0);
    assert((2 * i + 1) / 2 == i && (2 * i + 1) % 2 == 1);
}

/// A packet that can be encoded is read back unchanged from its bytes, also
/// when other bytes follow.
pub proof fn decode_inverts_encode(p: PacketView, rest: Seq<u8>)
    requires
        p.msg_id.len() == 16,
        encoded(p) is Ok,
    ensures
        decoded(encoded(p)->Ok_0) == Ok::<PacketView, DecodeError>(p),
        decoded(encoded(p)->Ok_0 + rest) == Ok::<PacketView, DecodeError>(p),
{
    lemma_decode_wire(p, rest);
    lemma_decode_wire(p, seq![]);
    assert(wire(p) + Seq::<u8>::empty() =~= wire(p));
}

proof fn lemma_decode_wire(p: PacketView, rest: Seq<u8>)
    requires
        p.msg_id.len() == 16,
        encode_utf8(p.sender).len() <= 255,
        encode_utf8(p.payload).len() <= 65535,
    ensures
        decoded(wire(p) + rest) == Ok::<PacketView, DecodeError>(p),
{
    let sender = encode_utf8(p.sender);
    let payload = encode_utf8(p.payload);
    let buf = wire(p) + rest;
    assert(buf[17] == sender.len());
    let end = sender_end(buf);
    assert(buf.subrange(HEADER_SIZE as int, end) =~= sender);
    assert(buf[end] == payload.len() % 256);
    assert(buf[end + 1] == payload.len() / 256);
    assert(payload_end(buf) == end + 2 + payload.len());
    assert(buf.subrange(end + 2, payload_end(buf)) =~= payload);
    assert(buf.subrange(0, 16) =~= p.msg_id);
    encode_utf8_valid_utf8(p.sender);
    encode_utf8_valid_utf8(p.payload);
    encode_utf8_decode_utf8(p.sender);
    encode_utf8_decode_utf8(p.payload);
}

/// Encoding a packet that was read from a buffer reproduces the bytes it was
/// read from, or fails because they exceed the size cap.
pub proof fn encode_inverts_decode(buf: Seq<u8>)
    requires
        decoded(buf) is Ok,
    ensures
        HEADER_SIZE + 2 <= payload_end(buf) <= buf.len(),
        encoded(decoded(buf)->Ok_0) == if payload_end(buf) <= MAX_PACKET_SIZE {
            Ok::<Seq<u8>, Seq<char>>(buf.take(payload_end(buf)))
        } else {
            Err("encoded packet exceeds MAX_PACKET_SIZE"@)
        },
{
    let p = decoded(buf)->Ok_0;
    let end = sender_end(buf);
    let sender = buf.subrange(HEADER_SIZE as int, end);
    let payload = buf.subrange(end + 2, payload_end(buf));
    decode_utf8_encode_utf8(sender);
    decode_utf8_encode_utf8(payload);
    assert(encode_utf8(p.sender) == sender);
    assert(encode_utf8(p.payload) == payload);
    assert(le16(payload.len() as int) =~= buf.subrange(end, end + 2));
    assert(wire(p) =~= buf.take(payload_end(buf)));
}

/// An encoded packet never exceeds the size cap.
pub proof fn encoded_packet_fits(p: PacketView)
    requires
        p.msg_id.len() == 16,
        encoded(p) is Ok,
    ensures
        encoded(p)->Ok_0.len() == HEADER_SIZE + encode_utf8(p.sender).len() + 2 + encode_utf8(
            p.payload,
        ).len(),
        encoded(p)->Ok_0.len() <= MAX_PACKET_SIZE,
{
}

/// Forwarding keeps a packet encodable: whether it fits, and why not if it
/// does not, is the same for the packet one hop further on.
pub proof fn forwarding_keeps_encodable(p: PacketView)
    requires
        p.ttl > 0,
    ensures
        encoded(next_hop(p)->Some_0) is Ok <==> encoded(p) is Ok,
        encoded(p) is Err ==> encoded(next_hop(p)->Some_0) == encoded(p),
{
}

/// A packet survives exactly as many hops as its ttl, and hopping changes
/// nothing but the ttl, which drops by one each time.
pub proof fn ttl_bounds_hops(p: PacketView, n: nat)
    ensures
        after_hops(p, n) == if n <= p.ttl {
            Some(PacketView { ttl: (p.ttl - n) as u8, ..p })
        } else {
            None
        },
    decreases n,
{
    if n > 0 {
        ttl_bounds_hops(p, (n - 1) as nat);
    }
}

} // verus!
