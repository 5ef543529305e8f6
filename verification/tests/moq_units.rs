use moq::moq_protocol::codec::{write_prefixed_bytes, write_varint, Cursor, Decode, Encode};
use moq::moq_protocol::error::Error;
use moq::moq_protocol::params::{
    Parameters, PARAM_DELIVERY_TIMEOUT, PARAM_FORWARD, PARAM_SUBSCRIBER_PRIORITY,
};
use moq::moq_protocol::types::{
    decode_key_value_pairs, encode_key_value_pairs, KeyValuePair, KvValue, Location, ReasonPhrase,
    SubscriptionFilter, TrackNamespace, TrackNamespacePrefix,
};
use moq::moq_protocol::varint::{decode_varint, encode_varint, varint_len, MAX_VARINT};

#[test]
fn cursor_read_basics() {
    let data = [0x01, 0x02, 0x03, 0x04, 0x05];
    let mut c = Cursor::new(&data);

    assert_eq!(c.remaining(), 5);
    assert_eq!(c.read_u8().unwrap(), 0x01);
    assert_eq!(c.remaining(), 4);
    assert_eq!(c.read_u16().unwrap(), 0x0203);
    assert_eq!(c.remaining(), 2);
    assert_eq!(c.read_bytes(2).unwrap(), &[0x04, 0x05]);
    assert_eq!(c.remaining(), 0);
    assert!(c.read_u8().is_err());
}

#[test]
fn cursor_read_varint() {
    let mut buf = Vec::new();
    write_varint(&mut buf, 42).unwrap();
    write_varint(&mut buf, 16384).unwrap();

    let mut c = Cursor::new(&buf);
    assert_eq!(c.read_varint().unwrap(), 42);
    assert_eq!(c.read_varint().unwrap(), 16384);
    assert_eq!(c.remaining(), 0);
}

#[test]
fn prefixed_bytes_roundtrip() {
    let mut buf = Vec::new();
    write_prefixed_bytes(&mut buf, b"hello").unwrap();

    let mut c = Cursor::new(&buf);
    assert_eq!(c.read_prefixed_bytes().unwrap(), b"hello");
    assert_eq!(c.remaining(), 0);
}

#[test]
fn cursor_split() {
    let data = [0x01, 0x02, 0x03, 0x04];
    let mut c = Cursor::new(&data);
    let mut sub = c.split(2).unwrap();
    assert_eq!(sub.read_u8().unwrap(), 0x01);
    assert_eq!(sub.read_u8().unwrap(), 0x02);
    assert_eq!(c.read_u8().unwrap(), 0x03);
}

#[test]
fn parameters_roundtrip() {
    let mut params = Parameters::new();
    params.add_varint(PARAM_DELIVERY_TIMEOUT, 5000);
    params.add_varint(PARAM_FORWARD, 1);
    params.add_varint(PARAM_SUBSCRIBER_PRIORITY, 128);

    let buf = params.encode_to_vec().unwrap();
    let mut c = Cursor::new(&buf);
    let decoded = Parameters::decode(&mut c).unwrap();
    assert_eq!(c.remaining(), 0);

    assert_eq!(decoded.get_varint(PARAM_DELIVERY_TIMEOUT), Some(5000));
    assert_eq!(decoded.get_varint(PARAM_FORWARD), Some(1));
    assert_eq!(decoded.get_varint(PARAM_SUBSCRIBER_PRIORITY), Some(128));
}

#[test]
fn parameters_with_filter() {
    let mut params = Parameters::new();
    let filter = SubscriptionFilter::AbsoluteStart {
        start: Location {
            group: 5,
            object: 0,
        },
    };
    params.set_subscription_filter(&filter).unwrap();

    let buf = params.encode_to_vec().unwrap();
    let mut c = Cursor::new(&buf);
    let decoded = Parameters::decode(&mut c).unwrap();
    assert_eq!(decoded.get_subscription_filter().unwrap(), Some(filter));
}

#[test]
fn parameters_empty() {
    let params = Parameters::new();
    let buf = params.encode_to_vec().unwrap();
    let mut c = Cursor::new(&buf);
    let decoded = Parameters::decode(&mut c).unwrap();
    assert!(decoded.is_empty());
}

#[test]
fn location_roundtrip() {
    let loc = Location {
        group: 42,
        object: 7,
    };
    let buf = loc.encode_to_vec().unwrap();
    let mut c = Cursor::new(&buf);
    let decoded = Location::decode(&mut c).unwrap();
    assert_eq!(loc, decoded);
    assert_eq!(c.remaining(), 0);
}

#[test]
fn track_namespace_roundtrip() {
    let ns = TrackNamespace::from_strings(&["example.com", "meeting", "room1"]).unwrap();
    let buf = ns.encode_to_vec().unwrap();
    let mut c = Cursor::new(&buf);
    let decoded = TrackNamespace::decode(&mut c).unwrap();
    assert_eq!(ns, decoded);
    assert_eq!(c.remaining(), 0);
}

#[test]
fn track_namespace_prefix_empty() {
    let prefix = TrackNamespacePrefix { fields: vec![] };
    let buf = prefix.encode_to_vec().unwrap();
    let mut c = Cursor::new(&buf);
    let decoded = TrackNamespacePrefix::decode(&mut c).unwrap();
    assert_eq!(prefix, decoded);
}

#[test]
fn reason_phrase_roundtrip() {
    let rp = ReasonPhrase("something went wrong".into());
    let buf = rp.encode_to_vec().unwrap();
    let mut c = Cursor::new(&buf);
    let decoded = ReasonPhrase::decode(&mut c).unwrap();
    assert_eq!(rp, decoded);
}

#[test]
fn subscription_filter_roundtrip() {
    let filters = vec![
        SubscriptionFilter::NextGroupStart,
        SubscriptionFilter::LargestObject,
        SubscriptionFilter::AbsoluteStart {
            start: Location {
                group: 10,
                object: 5,
            },
        },
        SubscriptionFilter::AbsoluteRange {
            start: Location {
                group: 1,
                object: 0,
            },
            end_group: 100,
        },
    ];
    for filter in filters {
        let buf = filter.encode_to_vec().unwrap();
        let mut c = Cursor::new(&buf);
        let decoded = SubscriptionFilter::decode(&mut c).unwrap();
        assert_eq!(filter, decoded);
        assert_eq!(c.remaining(), 0);
    }
}

#[test]
fn key_value_pairs_roundtrip() {
    let pairs = vec![
        KeyValuePair {
            key: 2,
            value: KvValue::Varint(42),
        },
        KeyValuePair {
            key: 3,
            value: KvValue::Bytes(b"hello".to_vec()),
        },
        KeyValuePair {
            key: 8,
            value: KvValue::Varint(999),
        },
    ];
    let mut buf = Vec::new();
    encode_key_value_pairs(&mut buf, &pairs).unwrap();
    let mut c = Cursor::new(&buf);
    let decoded = decode_key_value_pairs(&mut c, 3).unwrap();
    assert_eq!(pairs, decoded);
    assert_eq!(c.remaining(), 0);
}

#[test]
fn namespace_prefix_match() {
    let ns = TrackNamespace::from_strings(&["example.com", "meeting", "room1"]).unwrap();
    let prefix = TrackNamespace::from_strings(&["example.com", "meeting"]).unwrap();
    assert!(prefix.is_prefix_of(&ns));
    assert!(!ns.is_prefix_of(&prefix));
}

#[test]
fn roundtrip_all_sizes() {
    let test_values: &[u64] = &[
        0,
        1,
        63,
        64,
        100,
        16383,
        16384,
        1_073_741_823,
        1_073_741_824,
        MAX_VARINT,
    ];
    for &v in test_values {
        let mut buf = Vec::new();
        encode_varint(&mut buf, v).unwrap();
        let expected_len = varint_len(v);
        assert_eq!(buf.len(), expected_len, "encoding length for {v}");
        let (decoded, consumed) = decode_varint(&buf).unwrap();
        assert_eq!(decoded, v, "roundtrip for {v}");
        assert_eq!(consumed, expected_len);
    }
}

#[test]
fn varint_overflow_rejected() {
    let mut buf = Vec::new();
    assert!(matches!(
        encode_varint(&mut buf, MAX_VARINT + 1),
        Err(Error::VarintOverflow)
    ));
}

#[test]
fn varint_short_buffer() {
    assert!(matches!(decode_varint(&[]), Err(Error::BufferTooShort)));
    assert!(matches!(decode_varint(&[0x40]), Err(Error::BufferTooShort)));
}

#[test]
fn varint_rfc_test_vectors() {
    let (v, n) = decode_varint(&[0xc2, 0x19, 0x7c, 0x5e, 0xff, 0x14, 0xe8, 0x8c]).unwrap();
    assert_eq!(v, 151_288_809_941_952_652);
    assert_eq!(n, 8);

    let (v, n) = decode_varint(&[0x9d, 0x7f, 0x3e, 0x7d]).unwrap();
    assert_eq!(v, 494_878_333);
    assert_eq!(n, 4);

    let (v, n) = decode_varint(&[0x7b, 0xbd]).unwrap();
    assert_eq!(v, 15293);
    assert_eq!(n, 2);

    let (v, n) = decode_varint(&[0x25]).unwrap();
    assert_eq!(v, 37);
    assert_eq!(n, 1);
}
