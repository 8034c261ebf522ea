//! The fixed-width wire form of a packet header.
//!
//! | bytes   | field                                   |
//! |---------|-----------------------------------------|
//! | 0..3    | version: major, minor, patch            |
//! | 3       | payload encoding                        |
//! | 4       | encryption                              |
//! | 5       | method                                  |
//! | 6..10   | connection id, little-endian            |
//! | 10..14  | packet id, little-endian                |
//! | 14      | acknowledgement requested: 0 or 1       |
//! | 15..19  | sequence length, `DataSeq` only         |
//! | 19..23  | sequence index, `DataSeq` only          |

use vstd::prelude::*;
use crate::error::ErrorKind;
use crate::package::{CryptType, EncType, MethodType};
use crate::util::{conv_slice_to_u32, conv_u32_to_bytes, le_bytes, le_value, random_u32};
use crate::util::{lemma_le_bytes_of_value, lemma_le_value_of_bytes};
use crate::version::version;

pub use crate::package::Header;

verus! {

/// The method of a packet, under the name the wire format gives it.
pub type Method = MethodType;

/// The length of a header without sequence fields.
pub const HEADER_LEN: u8 = 15;

/// The length of the header of a `DataSeq` packet.
pub const HEADER_LEN_SEQ: u8 = 23;

/// Reads the first four bytes of `slice` as a little-endian `u32`, if there
/// are four.
pub fn get_u32(slice: &[u8]) -> (r: Option<u32>)
    ensures
        slice@.len() < 4 ==> r is None,
        slice@.len() >= 4 ==> r is Some && r->0 == le_value(slice@),
{
    if slice.len() < 4 {
        return None;
    }
    return Some(conv_slice_to_u32(slice));
}

impl Header {
    /// A `DataSeq` header has both sequence fields, and no other header has
    /// either.
    pub open spec fn well_formed(self) -> bool {
        &&& (self.method_type is DataSeq) == (self.sequence_len is Some)
        &&& (self.method_type is DataSeq) == (self.sequence_ind is Some)
    }

    /// The number of bytes the header takes on the wire.
    pub open spec fn wire_len(self) -> nat {
        if self.method_type is DataSeq {
            HEADER_LEN_SEQ as nat
        } else {
            HEADER_LEN as nat
        }
    }

    /// The bytes of the header on the wire.
    pub open spec fn wire(self) -> Seq<u8> {
        let fixed = self.version@ + seq![
            self.enc_type.code(),
            self.crypt_type.code(),
            self.method_type.code(),
        ] + le_bytes(self.connection_id) + le_bytes(self.package_id) + seq![
            if self.ack {
                1u8
            } else {
                0u8
            },
        ];
        if self.method_type is DataSeq {
            fixed + le_bytes(self.sequence_len.unwrap()) + le_bytes(self.sequence_ind.unwrap())
        } else {
            fixed
        }
    }

    /// The header that `bytes` start with. There is none where the bytes end
    /// before the header does, where the encoding, the encryption or the
    /// method is unknown, or where a `DataSeq` header lacks its sequence
    /// fields. The version is taken as it stands, and what follows the header
    /// is not looked at.
    pub open spec fn parse(bytes: Seq<u8>) -> Option<Header> {
        if bytes.len() < HEADER_LEN {
            None
        } else if EncType::of_code(bytes[3]) is None || CryptType::of_code(bytes[4]) is None
            || MethodType::of_code(bytes[5]) is None {
            None
        } else if MethodType::of_code(bytes[5]).unwrap() is DataSeq && bytes.len()
            < HEADER_LEN_SEQ {
            None
        } else {
            let sequenced = MethodType::of_code(bytes[5]).unwrap() is DataSeq;
            Some(
                Header {
                    version: [bytes[0], bytes[1], bytes[2]],
                    enc_type: EncType::of_code(bytes[3]).unwrap(),
                    crypt_type: CryptType::of_code(bytes[4]).unwrap(),
                    method_type: MethodType::of_code(bytes[5]).unwrap(),
                    connection_id: le_value(bytes.subrange(6, 10)) as u32,
                    package_id: le_value(bytes.subrange(10, 14)) as u32,
                    ack: bytes[14] != 0,
                    sequence_len: if sequenced {
                        Some(le_value(bytes.subrange(15, 19)) as u32)
                    } else {
                        None
                    },
                    sequence_ind: if sequenced {
                        Some(le_value(bytes.subrange(19, 23)) as u32)
                    } else {
                        None
                    },
                },
            )
        }
    }

    /// The header that `new` makes for a connection once the packet id is
    /// drawn: a ping of this library's version that asks for an
    /// acknowledgement.
    pub open spec fn fresh(connection_id: u32, package_id: u32) -> Header {
        Header {
            version: [
                crate::version::VERSION_MAJOR,
                crate::version::VERSION_MINOR,
                crate::version::VERSION_PATCH,
            ],
            enc_type: EncType::Raw,
            crypt_type: CryptType::Plain,
            method_type: MethodType::Ping,
            connection_id,
            package_id,
            ack: true,
            sequence_len: None,
            sequence_ind: None,
        }
    }

    /// A ping header for the connection `connection_id` with the packet id
    /// `package_id`.
    pub fn with_ids(connection_id: u32, package_id: u32) -> (r: Header)
        ensures
            r == Header::fresh(connection_id, package_id),
            r.well_formed(),
    {
        let r = Header {
            version: version(),
            enc_type: EncType::Raw,
            crypt_type: CryptType::Plain,
            method_type: MethodType::Ping,
            connection_id,
            package_id,
            ack: true,
            sequence_len: None,
            sequence_ind: None,
        };
        assert(r.version =~= Header::fresh(connection_id, package_id).version);
        r
    }

    /// A ping header for the connection `conn_id` with a random packet id.
    pub fn new(conn_id: &u32) -> (r: Header)
        ensures
            r == Header::fresh(*conn_id, r.package_id),
    {
        Header::with_ids(*conn_id, random_u32())
    }

    /// The number of bytes the header takes on the wire.
    pub fn byte_len(&self) -> (r: u8)
        ensures
            r == self.wire_len(),
    {
        match self.method_type {
            MethodType::DataSeq => {
                return HEADER_LEN_SEQ;
            },
            _ => {
                return HEADER_LEN;
            },
        }
    }

    /// Writes the header in its wire form. A header that is not well formed
    /// has none and is refused.
    pub fn try_into(self) -> (r: Result<Vec<u8>, ErrorKind>)
        ensures
            match r {
                Ok(bytes) => self.well_formed() && bytes@ == self.wire(),
                Err(e) => !self.well_formed() && e == ErrorKind::MalformedPacket,
            },
    {
        let sequenced = match self.method_type {
            MethodType::DataSeq => true,
            _ => false,
        };
        if self.sequence_len.is_some() != sequenced || self.sequence_ind.is_some() != sequenced {
            return Err(ErrorKind::MalformedPacket);
        }
        let mut ret: Vec<u8> = Vec::new();
        ret.push(self.version[0]);
        ret.push(self.version[1]);
        ret.push(self.version[2]);
        ret.push(self.enc_type.into());
        ret.push(self.crypt_type.into());
        ret.push(self.method_type.into());
        push_u32(&mut ret, self.connection_id);
        push_u32(&mut ret, self.package_id);
        ret.push(if self.ack { 1 } else { 0 });
        if sequenced {
            push_u32(&mut ret, self.sequence_len.unwrap());
            push_u32(&mut ret, self.sequence_ind.unwrap());
        }
        assert(ret@ =~= self.wire());
        Ok(ret)
    }

    /// Reads the header that `data` starts with.
    pub fn try_from(data: &[u8]) -> (r: Result<Header, ErrorKind>)
        ensures
            match Header::parse(data@) {
                Some(header) => r == Ok::<Header, ErrorKind>(header),
                None => r == Err::<Header, ErrorKind>(ErrorKind::MalformedPacket),
            },
    {
        if data.len() < HEADER_LEN as usize {
            return Err(ErrorKind::MalformedPacket);
        }
        let version_raw: [u8; 3] = [data[0], data[1], data[2]];
        let enc_type = match EncType::from(&data[3]) {
            Some(enc_type) => enc_type,
            None => {
                return Err(ErrorKind::MalformedPacket);
            },
        };
        let crypt_type = match CryptType::from(&data[4]) {
            Some(crypt_type) => crypt_type,
            None => {
                return Err(ErrorKind::MalformedPacket);
            },
        };
        let method = match MethodType::from(&data[5]) {
            Some(method) => method,
            None => {
                return Err(ErrorKind::MalformedPacket);
            },
        };
        let conn_id = conv_slice_to_u32(slice_subrange(data, 6, 10));
        let pack_id = conv_slice_to_u32(slice_subrange(data, 10, 14));
        let ack = data[14] != 0;

        let mut sequence_len: Option<u32> = None;
        let mut sequence_ind: Option<u32> = None;

        match method {
            MethodType::DataSeq => {
                if data.len() < HEADER_LEN_SEQ as usize {
                    return Err(ErrorKind::MalformedPacket);
                }
                sequence_len = get_u32(slice_subrange(data, 15, 19));
                sequence_ind = get_u32(slice_subrange(data, 19, 23));
            },
            _ => {},
        }

        let header = Header {
            version: version_raw,
            enc_type: enc_type,
            crypt_type: crypt_type,
            method_type: method,
            connection_id: conn_id,
            package_id: pack_id,
            ack: ack,
            sequence_len: sequence_len,
            sequence_ind: sequence_ind,
        };
        assert(header.version =~= Header::parse(data@).unwrap().version);
        Ok(header)
    }
}

/// Appends the four bytes of `value`, least significant first.
fn push_u32(bytes: &mut Vec<u8>, value: u32)
    ensures
        final(bytes)@ == old(bytes)@ + le_bytes(value),
{
    let b = conv_u32_to_bytes(&value);
    bytes.push(b[0]);
    bytes.push(b[1]);
    bytes.push(b[2]);
    bytes.push(b[3]);
    assert(bytes@ =~= old(bytes)@ + le_bytes(value));
}

/// The part of `data` from `from` up to `to`.
fn slice_subrange(data: &[u8], from: usize, to: usize) -> (r: &[u8])
    requires
        from <= to <= data@.len(),
    ensures
        r@ == data@.subrange(from as int, to as int),
{
    vstd::slice::slice_subrange(data, from, to)
}

/// Codec round trip for headers: reading what was written gives the header
/// back, whatever follows it.
pub proof fn lemma_header_round_trip(header: Header, rest: Seq<u8>)
    requires
        header.well_formed(),
    ensures
        header.wire().len() == header.wire_len(),
        Header::parse(header.wire() + rest) == Some(header),
{
    let bytes = header.wire() + rest;
    lemma_le_value_of_bytes(header.connection_id);
    lemma_le_value_of_bytes(header.package_id);
    assert(bytes.subrange(6, 10) =~= le_bytes(header.connection_id));
    assert(bytes.subrange(10, 14) =~= le_bytes(header.package_id));
    if header.method_type is DataSeq {
        lemma_le_value_of_bytes(header.sequence_len.unwrap());
        lemma_le_value_of_bytes(header.sequence_ind.unwrap());
        assert(bytes.subrange(15, 19) =~= le_bytes(header.sequence_len.unwrap()));
        assert(bytes.subrange(19, 23) =~= le_bytes(header.sequence_ind.unwrap()));
    }
    let parsed = Header::parse(bytes).unwrap();
    assert(parsed.version =~= header.version);
}

/// What a header is read from is what the header would be written as, up to
/// the byte of the acknowledgement flag, which is read as set whenever it is
/// not zero.
pub proof fn lemma_header_parse_is_wire(bytes: Seq<u8>)
    requires
        Header::parse(bytes) is Some,
        bytes[14] <= 1,
    ensures
        Header::parse(bytes).unwrap().well_formed(),
        Header::parse(bytes).unwrap().wire() == bytes.subrange(
            0,
            Header::parse(bytes).unwrap().wire_len() as int,
        ),
{
    let header = Header::parse(bytes).unwrap();
    lemma_le_bytes_of_value(bytes.subrange(6, 10));
    lemma_le_bytes_of_value(bytes.subrange(10, 14));
    if header.method_type is DataSeq {
        lemma_le_bytes_of_value(bytes.subrange(15, 19));
        lemma_le_bytes_of_value(bytes.subrange(19, 23));
    }
    assert(header.wire() =~= bytes.subrange(0, header.wire_len() as int));
}

} // verus!
