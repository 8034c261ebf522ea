use udps::error::ErrorKind;
use udps::header::{get_u32, Method, HEADER_LEN, HEADER_LEN_SEQ};
use udps::package::{CryptType, EncType, Header, MethodType};

fn data_header() -> Header {
    Header {
        version: [0, 4, 1],
        enc_type: EncType::ZIP,
        crypt_type: CryptType::Symm,
        method_type: MethodType::Data,
        connection_id: 0x0403_0201,
        package_id: 0x0807_0605,
        ack: true,
        sequence_len: None,
        sequence_ind: None,
    }
}

fn sequence_header() -> Header {
    Header {
        version: [9, 8, 7],
        enc_type: EncType::LZO,
        crypt_type: CryptType::Asymm,
        method_type: MethodType::DataSeq,
        connection_id: 1,
        package_id: u32::MAX,
        ack: false,
        sequence_len: Some(3),
        sequence_ind: Some(0x0100),
    }
}

#[test]
fn get_u32_needs_four_bytes() {
    assert_eq!(get_u32(&[]), None);
    assert_eq!(get_u32(&[1, 2, 3]), None);
    assert_eq!(get_u32(&[1, 2, 3, 4]), Some(0x0403_0201));
    assert_eq!(get_u32(&[1, 0, 0, 0, 9]), Some(1));
}

#[test]
fn method_wire_values_are_stable() {
    assert_eq!(MethodType::Connect.into(), 0);
    assert_eq!(MethodType::Disconnect.into(), 1);
    assert_eq!(MethodType::Ack.into(), 2);
    assert_eq!(MethodType::AsymmKey.into(), 3);
    assert_eq!(MethodType::SymmKey.into(), 4);
    assert_eq!(MethodType::Data.into(), 5);
    assert_eq!(MethodType::DataSeq.into(), 6);
    assert_eq!(MethodType::Ping.into(), 7);
    assert_eq!(MethodType::PingResponse.into(), 8);
}

#[test]
fn method_is_read_from_its_wire_value() {
    assert_eq!(Method::from(&0), Some(MethodType::Connect));
    assert_eq!(Method::from(&1), Some(MethodType::Disconnect));
    assert_eq!(Method::from(&2), Some(MethodType::Ack));
    assert_eq!(Method::from(&3), Some(MethodType::AsymmKey));
    assert_eq!(Method::from(&4), Some(MethodType::SymmKey));
    assert_eq!(Method::from(&5), Some(MethodType::Data));
    assert_eq!(Method::from(&6), Some(MethodType::DataSeq));
    assert_eq!(Method::from(&7), Some(MethodType::Ping));
    assert_eq!(Method::from(&8), Some(MethodType::PingResponse));
}

#[test]
fn unknown_method_is_refused() {
    assert_eq!(Method::from(&9), None);
    assert_eq!(Method::from(&255), None);
}

#[test]
fn method_round_trips() {
    for byte in 0u8..=8 {
        assert_eq!(Method::from(&byte).unwrap().into(), byte);
    }
}

#[test]
fn encoding_and_encryption_wire_values() {
    assert_eq!(EncType::Raw.into(), 0);
    assert_eq!(EncType::ZIP.into(), 1);
    assert_eq!(EncType::LZO.into(), 2);
    assert_eq!(EncType::from(&2), Some(EncType::LZO));
    assert_eq!(EncType::from(&3), None);
    assert_eq!(CryptType::Plain.into(), 0);
    assert_eq!(CryptType::Asymm.into(), 1);
    assert_eq!(CryptType::Symm.into(), 2);
    assert_eq!(CryptType::from(&1), Some(CryptType::Asymm));
    assert_eq!(CryptType::from(&3), None);
}

#[test]
fn new_header_is_a_ping_of_this_version() {
    let header = Header::new(&42);
    assert_eq!(header.version, [0, 4, 1]);
    assert_eq!(header.enc_type, EncType::Raw);
    assert_eq!(header.crypt_type, CryptType::Plain);
    assert_eq!(header.method_type, MethodType::Ping);
    assert_eq!(header.connection_id, 42);
    assert!(header.ack);
    assert_eq!(header.sequence_len, None);
    assert_eq!(header.sequence_ind, None);
}

#[test]
fn header_with_ids_takes_both_ids() {
    let header = Header::with_ids(3, 4);
    assert_eq!(header.connection_id, 3);
    assert_eq!(header.package_id, 4);
    assert_eq!(header.method_type, MethodType::Ping);
}

#[test]
fn byte_len_depends_on_the_method() {
    assert_eq!(HEADER_LEN, 15);
    assert_eq!(HEADER_LEN_SEQ, 23);
    assert_eq!(data_header().byte_len(), 15);
    assert_eq!(sequence_header().byte_len(), 23);
    assert_eq!(Header::new(&1).byte_len(), 15);
}

#[test]
fn header_is_written_field_by_field() {
    assert_eq!(
        data_header().try_into(),
        Ok(vec![0, 4, 1, 1, 2, 5, 1, 2, 3, 4, 5, 6, 7, 8, 1])
    );
}

#[test]
fn sequence_header_is_written_with_its_sequence_fields() {
    assert_eq!(
        sequence_header().try_into(),
        Ok(vec![
            9, 8, 7, 2, 1, 6, 1, 0, 0, 0, 0xff, 0xff, 0xff, 0xff, 0, 3, 0, 0, 0, 0, 1, 0, 0
        ])
    );
}

#[test]
fn header_length_on_the_wire_is_byte_len() {
    for header in [data_header(), sequence_header()] {
        assert_eq!(header.try_into().unwrap().len(), header.byte_len() as usize);
    }
}

#[test]
fn header_is_read_field_by_field() {
    let bytes = [0, 4, 1, 1, 2, 5, 1, 2, 3, 4, 5, 6, 7, 8, 1];
    assert_eq!(Header::try_from(&bytes), Ok(data_header()));
}

#[test]
fn header_round_trips() {
    for header in [data_header(), sequence_header(), Header::new(&7)] {
        let bytes = header.try_into().unwrap();
        assert_eq!(Header::try_from(&bytes), Ok(header));
    }
}

#[test]
fn header_ignores_what_follows_it() {
    let mut bytes = data_header().try_into().unwrap();
    bytes.extend_from_slice(&[0xaa, 0xbb, 0xcc]);
    assert_eq!(Header::try_from(&bytes), Ok(data_header()));
}

#[test]
fn version_is_copied_verbatim() {
    let mut header = data_header();
    header.version = [255, 0, 77];
    let bytes = header.try_into().unwrap();
    assert_eq!(&bytes[0..3], &[255, 0, 77]);
    assert_eq!(Header::try_from(&bytes).unwrap().version, [255, 0, 77]);
}

#[test]
fn truncated_header_is_refused() {
    let bytes = data_header().try_into().unwrap();
    for len in 0..bytes.len() {
        assert_eq!(Header::try_from(&bytes[..len]), Err(ErrorKind::MalformedPacket));
    }
}

#[test]
fn unknown_method_in_a_header_is_refused() {
    let mut bytes = data_header().try_into().unwrap();
    bytes[5] = 9;
    assert_eq!(Header::try_from(&bytes), Err(ErrorKind::MalformedPacket));
}

#[test]
fn unknown_encoding_or_encryption_is_refused() {
    let mut bytes = data_header().try_into().unwrap();
    bytes[3] = 3;
    assert_eq!(Header::try_from(&bytes), Err(ErrorKind::MalformedPacket));
    let mut bytes = data_header().try_into().unwrap();
    bytes[4] = 200;
    assert_eq!(Header::try_from(&bytes), Err(ErrorKind::MalformedPacket));
}

#[test]
fn sequence_header_without_sequence_fields_is_refused() {
    let bytes = sequence_header().try_into().unwrap();
    assert_eq!(Header::try_from(&bytes[..15]), Err(ErrorKind::MalformedPacket));
    assert_eq!(Header::try_from(&bytes[..22]), Err(ErrorKind::MalformedPacket));
    assert_eq!(Header::try_from(&bytes[..23]), Ok(sequence_header()));
}

#[test]
fn any_byte_but_zero_sets_the_ack_flag() {
    let mut bytes = data_header().try_into().unwrap();
    bytes[14] = 0;
    assert!(!Header::try_from(&bytes).unwrap().ack);
    bytes[14] = 2;
    assert!(Header::try_from(&bytes).unwrap().ack);
}

#[test]
fn header_that_is_not_well_formed_is_not_written() {
    let mut header = data_header();
    header.sequence_len = Some(1);
    assert_eq!(header.try_into(), Err(ErrorKind::MalformedPacket));
    let mut header = sequence_header();
    header.sequence_ind = None;
    assert_eq!(header.try_into(), Err(ErrorKind::MalformedPacket));
    let mut header = sequence_header();
    header.method_type = MethodType::Data;
    assert_eq!(header.try_into(), Err(ErrorKind::MalformedPacket));
}
