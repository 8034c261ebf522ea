//! Packets: the header fields, the payload, and the record kept for a packet
//! that waits for its acknowledgement.

use vstd::prelude::*;
use crate::error::ErrorKind;
use crate::util::{random_u32, same_bytes};
use crate::version::version;

verus! {

/// How the payload is encoded.
#[derive(Clone, Copy, Debug, PartialEq, Eq, Structural)]
pub enum EncType {
    Raw,
    ZIP,
    LZO,
}

/// How the payload is encrypted.
#[derive(Clone, Copy, Debug, PartialEq, Eq, Structural)]
pub enum CryptType {
    /// The payload is not encrypted.
    Plain,
    Asymm,
    Symm,
}

/// What a packet asks of its receiver.
#[derive(Clone, Copy, Debug, PartialEq, Eq, Structural)]
pub enum MethodType {
    Connect,
    Disconnect,
    Ack,
    AsymmKey,
    SymmKey,
    Data,
    DataSeq,
    Ping,
    PingResponse,
}

impl EncType {
    /// The byte that stands for this encoding on the wire.
    pub open spec fn code(self) -> u8 {
        match self {
            EncType::Raw => 0,
            EncType::ZIP => 1,
            EncType::LZO => 2,
        }
    }

    /// The encoding that a wire byte stands for, if any.
    pub open spec fn of_code(code: u8) -> Option<EncType> {
        if code == 0 {
            Some(EncType::Raw)
        } else if code == 1 {
            Some(EncType::ZIP)
        } else if code == 2 {
            Some(EncType::LZO)
        } else {
            None
        }
    }

    /// Reads an encoding from its wire byte; an unknown byte gives `None`.
    pub fn from(byte: &u8) -> (r: Option<EncType>)
        ensures
            r == EncType::of_code(*byte),
    {
        match *byte {
            0 => Some(EncType::Raw),
            1 => Some(EncType::ZIP),
            2 => Some(EncType::LZO),
            _ => None,
        }
    }

    /// The wire byte of this encoding.
    pub fn into(self) -> (r: u8)
        ensures
            r == self.code(),
    {
        match self {
            EncType::Raw => 0,
            EncType::ZIP => 1,
            EncType::LZO => 2,
        }
    }
}

impl CryptType {
    /// The byte that stands for this kind of encryption on the wire.
    pub open spec fn code(self) -> u8 {
        match self {
            CryptType::Plain => 0,
            CryptType::Asymm => 1,
            CryptType::Symm => 2,
        }
    }

    /// The kind of encryption that a wire byte stands for, if any.
    pub open spec fn of_code(code: u8) -> Option<CryptType> {
        if code == 0 {
            Some(CryptType::Plain)
        } else if code == 1 {
            Some(CryptType::Asymm)
        } else if code == 2 {
            Some(CryptType::Symm)
        } else {
            None
        }
    }

    /// Reads a kind of encryption from its wire byte; an unknown byte gives
    /// `None`.
    pub fn from(byte: &u8) -> (r: Option<CryptType>)
        ensures
            r == CryptType::of_code(*byte),
    {
        match *byte {
            0 => Some(CryptType::Plain),
            1 => Some(CryptType::Asymm),
            2 => Some(CryptType::Symm),
            _ => None,
        }
    }

    /// The wire byte of this kind of encryption.
    pub fn into(self) -> (r: u8)
        ensures
            r == self.code(),
    {
        match self {
            CryptType::Plain => 0,
            CryptType::Asymm => 1,
            CryptType::Symm => 2,
        }
    }
}

impl MethodType {
    /// The byte that stands for this method on the wire. The values are
    /// stable: peers of every version agree on them.
    pub open spec fn code(self) -> u8 {
        match self {
            MethodType::Connect => 0,
            MethodType::Disconnect => 1,
            MethodType::Ack => 2,
            MethodType::AsymmKey => 3,
            MethodType::SymmKey => 4,
            MethodType::Data => 5,
            MethodType::DataSeq => 6,
            MethodType::Ping => 7,
            MethodType::PingResponse => 8,
        }
    }

    /// The method that a wire byte stands for, if any.
    pub open spec fn of_code(code: u8) -> Option<MethodType> {
        if code == 0 {
            Some(MethodType::Connect)
        } else if code == 1 {
            Some(MethodType::Disconnect)
        } else if code == 2 {
            Some(MethodType::Ack)
        } else if code == 3 {
            Some(MethodType::AsymmKey)
        } else if code == 4 {
            Some(MethodType::SymmKey)
        } else if code == 5 {
            Some(MethodType::Data)
        } else if code == 6 {
            Some(MethodType::DataSeq)
        } else if code == 7 {
            Some(MethodType::Ping)
        } else if code == 8 {
            Some(MethodType::PingResponse)
        } else {
            None
        }
    }

    /// Reads a method from its wire byte; an unknown byte gives `None`.
    pub fn from(byte: &u8) -> (r: Option<MethodType>)
        ensures
            r == MethodType::of_code(*byte),
    {
        match *byte {
            0 => {
                return Some(MethodType::Connect);
            },
            1 => {
                return Some(MethodType::Disconnect);
            },
            2 => {
                return Some(MethodType::Ack);
            },
            3 => {
                return Some(MethodType::AsymmKey);
            },
            4 => {
                return Some(MethodType::SymmKey);
            },
            5 => {
                return Some(MethodType::Data);
            },
            6 => {
                return Some(MethodType::DataSeq);
            },
            7 => {
                return Some(MethodType::Ping);
            },
            8 => {
                return Some(MethodType::PingResponse);
            },
            _ => {
                return None;
            },
        }
    }

    /// The wire byte of this method.
    pub fn into(self) -> (r: u8)
        ensures
            r == self.code(),
    {
        match self {
            MethodType::Connect => {
                return 0;
            },
            MethodType::Disconnect => {
                return 1;
            },
            MethodType::Ack => {
                return 2;
            },
            MethodType::AsymmKey => {
                return 3;
            },
            MethodType::SymmKey => {
                return 4;
            },
            MethodType::Data => {
                return 5;
            },
            MethodType::DataSeq => {
                return 6;
            },
            MethodType::Ping => {
                return 7;
            },
            MethodType::PingResponse => {
                return 8;
            },
        }
    }
}

/// A method survives the way to its wire byte and back, and no two methods
/// share a byte.
pub proof fn lemma_method_codes(method: MethodType, code: u8)
    ensures
        MethodType::of_code(method.code()) == Some(method),
        MethodType::of_code(code) == Some(method) ==> method.code() == code,
        MethodType::of_code(code) is Some <==> code <= 8,
{
}

/// The header of a packet.
#[derive(Clone, Copy, Debug, PartialEq, Eq)]
pub struct Header {
    /// Major, minor and patch version of the sender.
    pub version: [u8; 3],
    pub enc_type: EncType,
    pub crypt_type: CryptType,
    pub method_type: MethodType,
    /// Chosen by the side that opened the connection; both peers use it.
    pub connection_id: u32,
    /// Tells the packets of one connection apart.
    pub package_id: u32,
    /// Whether the sender wants the packet acknowledged.
    pub ack: bool,
    /// The length of the sequence this packet belongs to; only a `DataSeq`
    /// packet has one.
    pub sequence_len: Option<u32>,
    /// The place of this packet in its sequence; only a `DataSeq` packet has
    /// one.
    pub sequence_ind: Option<u32>,
}

/// A packet: a header and an opaque payload.
#[derive(Debug, PartialEq, Eq)]
pub struct Package {
    pub header: Header,
    pub data: Vec<u8>,
}

/// A packet as a mathematical value.
#[verifier::ext_equal]
pub struct PackageView {
    pub header: Header,
    pub data: Seq<u8>,
}

impl View for Package {
    type V = PackageView;

    open spec fn view(&self) -> PackageView {
        PackageView { header: self.header, data: self.data@ }
    }
}

impl Clone for Package {
    fn clone(&self) -> (r: Self)
        ensures
            r@ == self@,
    {
        Package { header: self.header, data: self.data.clone() }
    }
}

/// The error of `rmp_serde::to_vec`. Nothing is read from it.
#[verifier::external_type_specification]
#[verifier::external_body]
pub struct ExEncodeError(rmp_serde::encode::Error);

/// The error of `rmp_serde::from_slice`. Nothing is read from it.
#[verifier::external_type_specification]
#[verifier::external_body]
pub struct ExDecodeError(rmp_serde::decode::Error);

/// A reading of the monotonic clock. Nothing is read from it.
#[verifier::external_type_specification]
#[verifier::external_body]
pub struct ExInstant(std::time::Instant);

/// The MessagePack envelope that `rmp_serde::to_vec` writes for a pair of
/// byte vectors, the header's wire form and the payload; `None` where it
/// reports an error.
pub uninterp spec fn msgpack_envelope(header: Seq<u8>, payload: Seq<u8>) -> Option<Seq<u8>>;

/// The pair of byte vectors that `rmp_serde::from_slice` reads from the start
/// of `bytes`; `None` where it reports an error.
pub uninterp spec fn msgpack_envelope_parts(bytes: Seq<u8>) -> Option<(Seq<u8>, Seq<u8>)>;

/// The longest byte vector that goes into an envelope: the format counts
/// the bytes of a vector in 32 bits.
pub const MAX_ENVELOPE_PART_LEN: usize = 0xffff_ffff;

/// Calls `rmp_serde::to_vec` on the pair of `header` and `payload`. Neither
/// may be longer than the format can count. The contract gives the outcome
/// its name and claims nothing else of it.
#[verifier::external_body]
fn write_envelope(header: &Vec<u8>, payload: &Vec<u8>) -> (r: Result<
    Vec<u8>,
    rmp_serde::encode::Error,
>)
    requires
        header@.len() <= MAX_ENVELOPE_PART_LEN,
        payload@.len() <= MAX_ENVELOPE_PART_LEN,
    ensures
        match r {
            Ok(bytes) => msgpack_envelope(header@, payload@) == Some(bytes@),
            Err(_) => msgpack_envelope(header@, payload@) is None,
        },
{
    rmp_serde::to_vec(&(header, payload))
}

/// Calls `rmp_serde::from_slice` for a pair of byte vectors. The contract
/// gives the outcome its name and claims nothing else of it.
#[verifier::external_body]
fn read_envelope(bytes: &[u8]) -> (r: Result<(Vec<u8>, Vec<u8>), rmp_serde::decode::Error>)
    ensures
        match r {
            Ok(parts) => msgpack_envelope_parts(bytes@) == Some((parts.0@, parts.1@)),
            Err(_) => msgpack_envelope_parts(bytes@) is None,
        },
{
    rmp_serde::from_slice::<(Vec<u8>, Vec<u8>)>(bytes)
}

/// Reads the monotonic clock with `std::time::Instant::now`.
#[verifier::external_body]
fn instant_now() -> std::time::Instant {
    std::time::Instant::now()
}

impl Package {
    /// The packet that `new_default` makes once both ids are drawn: raw,
    /// unencrypted data of this library's version, with no payload and no
    /// request for an acknowledgement.
    pub open spec fn fresh(connection_id: u32, package_id: u32) -> PackageView {
        PackageView {
            header: Header {
                version: [
                    crate::version::VERSION_MAJOR,
                    crate::version::VERSION_MINOR,
                    crate::version::VERSION_PATCH,
                ],
                enc_type: EncType::Raw,
                crypt_type: CryptType::Plain,
                method_type: MethodType::Data,
                connection_id,
                package_id,
                ack: false,
                sequence_len: None,
                sequence_ind: None,
            },
            data: Seq::empty(),
        }
    }

    /// Whether `bytes` are read back as the envelope of `header` and
    /// `payload`.
    pub open spec fn reads_back(bytes: Seq<u8>, header: Seq<u8>, payload: Seq<u8>) -> bool {
        msgpack_envelope_parts(bytes) == Some((header, payload))
    }

    /// The datagram of a packet: the envelope of the header's wire form and
    /// the payload. A packet whose header is not well formed has none, and
    /// neither has one whose payload is longer than `MAX_ENVELOPE_PART_LEN`
    /// or whose envelope is not read back as it was written.
    pub open spec fn encoding(package: PackageView) -> Option<Seq<u8>> {
        if package.header.well_formed() && package.data.len() <= MAX_ENVELOPE_PART_LEN {
            match msgpack_envelope(package.header.wire(), package.data) {
                Some(bytes) => if Package::reads_back(
                    bytes,
                    package.header.wire(),
                    package.data,
                ) {
                    Some(bytes)
                } else {
                    None
                },
                None => None,
            }
        } else {
            None
        }
    }

    /// The packet made of the two parts of an envelope, if the first holds a
    /// header.
    pub open spec fn of_parts(header: Seq<u8>, payload: Seq<u8>) -> Option<PackageView> {
        match Header::parse(header) {
            Some(header) => Some(PackageView { header, data: payload }),
            None => None,
        }
    }

    /// The packet that a datagram holds, if it holds one.
    pub open spec fn decoding(bytes: Seq<u8>) -> Option<PackageView> {
        match msgpack_envelope_parts(bytes) {
            Some(parts) => Package::of_parts(parts.0, parts.1),
            None => None,
        }
    }

    /// A packet with default settings for the given ids.
    pub fn with_ids(connection_id: u32, package_id: u32) -> (r: Package)
        ensures
            r@ == Package::fresh(connection_id, package_id),
            r@.header.well_formed(),
    {
        let r = Package {
            header: Header {
                version: version(),
                enc_type: EncType::Raw,
                crypt_type: CryptType::Plain,
                method_type: MethodType::Data,
                connection_id,
                package_id,
                ack: false,
                sequence_ind: None,
                sequence_len: None,
            },
            data: Vec::new(),
        };
        assert(r.header.version =~= Package::fresh(connection_id, package_id).header.version);
        r
    }

    /// Creates a new package with default settings and random ids.
    pub fn new_default() -> (r: Package)
        ensures
            r@ == Package::fresh(r@.header.connection_id, r@.header.package_id),
    {
        let connection_id = random_u32();
        let package_id = random_u32();
        Package::with_ids(connection_id, package_id)
    }

    /// Builds the packet from the two parts of an envelope.
    pub fn from_parts(header: &[u8], payload: Vec<u8>) -> (r: Result<Package, ErrorKind>)
        ensures
            match Package::of_parts(header@, payload@) {
                Some(package) => r is Ok && r->Ok_0@ == package,
                None => r == Err::<Package, ErrorKind>(ErrorKind::MalformedPacket),
            },
    {
        match Header::try_from(header) {
            Ok(header) => Ok(Package { header, data: payload }),
            Err(e) => Err(e),
        }
    }

    /// Try decoding from binary (a MessagePack envelope).
    pub fn try_from(data: Vec<u8>) -> (r: Result<Package, ErrorKind>)
        ensures
            match Package::decoding(data@) {
                Some(package) => r is Ok && r->Ok_0@ == package,
                None => r == Err::<Package, ErrorKind>(ErrorKind::MalformedPacket),
            },
    {
        let parts = read_envelope(data.as_slice());
        match parts {
            Ok(parts) => Package::from_parts(parts.0.as_slice(), parts.1),
            Err(_) => Err(ErrorKind::MalformedPacket),
        }
    }

    /// Encodes the packet into binary (a MessagePack envelope). The envelope
    /// is written by code that is not verified, so it is read back before it
    /// is handed out: what this function returns is a datagram that `try_from`
    /// reads as this packet.
    pub fn encode(&self) -> (r: Result<Vec<u8>, ErrorKind>)
        ensures
            match Package::encoding(self@) {
                Some(bytes) => r is Ok && r->Ok_0@ == bytes,
                None => r == Err::<Vec<u8>, ErrorKind>(ErrorKind::MalformedPacket),
            },
            r matches Ok(bytes) ==> Package::decoding(bytes@) == Some(self@),
    {
        let header = match self.header.try_into() {
            Ok(header) => header,
            Err(e) => {
                return Err(e);
            },
        };
        if self.data.len() > MAX_ENVELOPE_PART_LEN {
            return Err(ErrorKind::MalformedPacket);
        }
        let bytes = match write_envelope(&header, &self.data) {
            Ok(bytes) => bytes,
            Err(_) => {
                return Err(ErrorKind::MalformedPacket);
            },
        };
        let read_back = match read_envelope(bytes.as_slice()) {
            Ok(parts) => same_bytes(parts.0.as_slice(), header.as_slice()) && same_bytes(
                parts.1.as_slice(),
                self.data.as_slice(),
            ),
            Err(_) => false,
        };
        if !read_back {
            return Err(ErrorKind::MalformedPacket);
        }
        proof {
            lemma_codec_round_trip(self@);
        }
        Ok(bytes)
    }

    /// Try encoding into binary (a MessagePack envelope).
    pub fn try_into(self) -> (r: Result<Vec<u8>, ErrorKind>)
        ensures
            match Package::encoding(self@) {
                Some(bytes) => r is Ok && r->Ok_0@ == bytes,
                None => r == Err::<Vec<u8>, ErrorKind>(ErrorKind::MalformedPacket),
            },
            r matches Ok(bytes) ==> Package::decoding(bytes@) == Some(self@),
    {
        self.encode()
    }
}

/// The parts that a well formed packet hands to the envelope are read back
/// as the packet.
pub proof fn lemma_package_parts_round_trip(package: PackageView)
    requires
        package.header.well_formed(),
    ensures
        Package::of_parts(package.header.wire(), package.data) == Some(package),
{
    crate::header::lemma_header_round_trip(package.header, Seq::empty());
    assert(package.header.wire() + Seq::<u8>::empty() =~= package.header.wire());
}

/// Codec round trip: the datagram of a packet is decoded as that packet.
pub proof fn lemma_codec_round_trip(package: PackageView)
    ensures
        Package::encoding(package) matches Some(bytes) ==> Package::decoding(bytes) == Some(
            package,
        ),
        Package::encoding(package) is Some ==> package.header.well_formed(),
{
    if Package::encoding(package) is Some {
        lemma_package_parts_round_trip(package);
    }
}

/// No two packets share a datagram.
pub proof fn lemma_encoding_is_injective(a: PackageView, b: PackageView)
    requires
        Package::encoding(a) is Some,
        Package::encoding(a) == Package::encoding(b),
    ensures
        a == b,
{
    lemma_codec_round_trip(a);
    lemma_codec_round_trip(b);
}

/// The bookkeeping for a sent packet that waits for its acknowledgement.
#[derive(Debug)]
pub struct PackageAck {
    /// The packet as it was sent, kept for retransmission.
    pub cached_package: Package,
    /// When the packet was first sent.
    pub first_sent_at: std::time::Instant,
    /// When the packet was last sent.
    pub last_sent_at: std::time::Instant,
    /// How often the packet has been sent.
    pub attempts: u8,
}

/// A pending acknowledgement as a mathematical value. The clock readings
/// are left out: nothing is decided by them.
#[verifier::ext_equal]
pub struct PackageAckView {
    pub cached_package: PackageView,
    pub attempts: u8,
}

impl View for PackageAck {
    type V = PackageAckView;

    open spec fn view(&self) -> PackageAckView {
        PackageAckView { cached_package: self.cached_package@, attempts: self.attempts }
    }
}

impl PackageAckView {
    /// The record after one more transmission of its packet.
    pub open spec fn retried(self) -> PackageAckView {
        PackageAckView {
            attempts: if self.attempts < u8::MAX {
                (self.attempts + 1) as u8
            } else {
                self.attempts
            },
            ..self
        }
    }
}

impl PackageAck {
    /// The record after its packet was sent once more, just now.
    pub fn retried(self) -> (r: Self)
        ensures
            r@ == self@.retried(),
            r.first_sent_at == self.first_sent_at,
    {
        let mut r = self;
        if r.attempts < u8::MAX {
            r.attempts = r.attempts + 1;
        }
        r.last_sent_at = instant_now();
        r
    }

    /// Creates the record of a packet that has just been sent for the first
    /// time.
    pub fn new(package: &Package) -> (r: Self)
        ensures
            r@ == (PackageAckView { cached_package: package@, attempts: 1 }),
            r.first_sent_at == r.last_sent_at,
    {
        let instant = instant_now();
        Self {
            cached_package: package.clone(),
            first_sent_at: instant,
            last_sent_at: instant,
            attempts: 1,
        }
    }
}

} // verus!
