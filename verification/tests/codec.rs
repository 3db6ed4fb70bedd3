use edunode::{decode, encode, Certificate, CodecError};

const SAMPLE: [u8; 45] = [
    0x06, 0x66, 0x6f, 0x6f, 0x5f, 0x69, 0x64, 0x08, 0x4a, 0x6f, 0x68, 0x6e, 0x20, 0x44, 0x6f, 0x65,
    0x09, 0x41, 0x43, 0x4d, 0x45, 0x20, 0x43, 0x6f, 0x72, 0x70, 0x0d, 0x45, 0x64, 0x75, 0x6e, 0x6f,
    0x64, 0x65, 0x43, 0x6f, 0x75, 0x72, 0x73, 0x65, 0x7a, 0xfa, 0xce, 0x89, 0x1e,
];

fn sample() -> Certificate<'static> {
    Certificate {
        cert_id: "foo_id",
        recipient_name: "John Doe",
        issuing_institution: "ACME Corp",
        course_name: "EdunodeCourse",
        issue_date: 61,
        expiry_date: 31_536_061,
    }
}

fn unusual() -> Certificate<'static> {
    Certificate {
        cert_id: "",
        recipient_name: "é",
        issuing_institution: "日本語",
        course_name: "𝄞",
        issue_date: -1,
        expiry_date: i64::MIN,
    }
}

#[test]
fn encode_gives_the_exact_record() {
    assert_eq!(encode(&sample()), Ok(SAMPLE.to_vec()));
}

#[test]
fn encode_handles_empty_text_wide_characters_and_negative_dates() {
    let expected: Vec<u8> = vec![
        0x00, 0x02, 0xc3, 0xa9, 0x09, 0xe6, 0x97, 0xa5, 0xe6, 0x9c, 0xac, 0xe8, 0xaa, 0x9e, 0x04,
        0xf0, 0x9d, 0x84, 0x9e, 0x01, 0xff, 0xff, 0xff, 0xff, 0xff, 0xff, 0xff, 0xff, 0xff, 0x01,
    ];
    assert_eq!(encode(&unusual()), Ok(expected));
}

#[test]
fn encode_writes_the_largest_date_in_ten_bytes() {
    let cert = Certificate { expiry_date: i64::MAX, ..sample() };
    let bytes = encode(&cert).unwrap();
    assert_eq!(
        &bytes[41..],
        &[0xfe, 0xff, 0xff, 0xff, 0xff, 0xff, 0xff, 0xff, 0xff, 0x01]
    );
}

#[test]
fn encode_measures_text_in_bytes_with_a_two_byte_length() {
    let long = "ß".repeat(150);
    let cert = Certificate { course_name: &long, ..sample() };
    let bytes = encode(&cert).unwrap();
    assert_eq!(&bytes[26..28], &[0xac, 0x02]);
    assert_eq!(bytes.len(), 26 + 2 + 300 + 1 + 4);
}

#[test]
fn encode_twice_gives_the_same_bytes() {
    let first = encode(&unusual()).unwrap();
    let second = encode(&unusual()).unwrap();
    assert_eq!(first, second);
    let id = String::from("foo_id");
    let copy = Certificate { cert_id: &id, ..sample() };
    assert_eq!(encode(&copy), encode(&sample()));
}

#[test]
fn decode_reads_the_exact_record() {
    assert_eq!(decode(&SAMPLE), Ok(sample()));
}

#[test]
fn decode_inverts_encode() {
    let long = "x".repeat(20_000);
    let certs = [
        sample(),
        unusual(),
        Certificate { expiry_date: i64::MAX, ..sample() },
        Certificate { issue_date: i64::MIN, expiry_date: i64::MAX, ..unusual() },
        Certificate { issue_date: 0, expiry_date: 0, ..sample() },
        Certificate { issue_date: 63, expiry_date: 64, ..sample() },
        Certificate { issue_date: -64, expiry_date: -65, ..sample() },
        Certificate { recipient_name: &long, ..sample() },
    ];
    for cert in certs.iter() {
        let bytes = encode(cert).unwrap();
        assert_eq!(decode(&bytes), Ok(*cert));
    }
}

#[test]
fn decode_agrees_with_postcard_on_records() {
    for cert in [sample(), unusual()].iter() {
        let bytes = encode(cert).unwrap();
        let fields: (&str, &str, &str, &str, i64, i64) = postcard::from_bytes(&bytes).unwrap();
        let ours = decode(&bytes).unwrap();
        assert_eq!(
            fields,
            (
                ours.cert_id,
                ours.recipient_name,
                ours.issuing_institution,
                ours.course_name,
                ours.issue_date,
                ours.expiry_date
            )
        );
    }
}

#[test]
fn decode_refuses_every_truncation() {
    for cert in [sample(), unusual()].iter() {
        let bytes = encode(cert).unwrap();
        for len in 0..bytes.len() {
            assert_eq!(decode(&bytes[..len]), Err(CodecError::Malformed));
        }
    }
}

#[test]
fn decode_refuses_empty_input() {
    assert_eq!(decode(&[]), Err(CodecError::Malformed));
}

#[test]
fn decode_refuses_trailing_bytes() {
    let mut bytes = SAMPLE.to_vec();
    bytes.push(0x00);
    assert_eq!(decode(&bytes), Err(CodecError::Malformed));
}

#[test]
fn decode_refuses_a_length_not_in_shortest_form() {
    // the first length, 6, written in two bytes
    let mut bytes = vec![0x86, 0x00];
    bytes.extend_from_slice(&SAMPLE[1..]);
    assert_eq!(decode(&bytes), Err(CodecError::Malformed));
}

#[test]
fn decode_refuses_a_date_not_in_shortest_form() {
    // the last date ends in a zero byte that adds nothing
    let mut bytes = SAMPLE[..44].to_vec();
    bytes.extend_from_slice(&[0x9e, 0x00]);
    assert_eq!(decode(&bytes), Err(CodecError::Malformed));
}

#[test]
fn decode_refuses_text_that_is_not_utf8() {
    let mut bytes = SAMPLE.to_vec();
    bytes[1] = 0xff;
    assert_eq!(decode(&bytes), Err(CodecError::Malformed));
    // a two-byte character cut off by the end of its field
    let mut bytes = SAMPLE.to_vec();
    bytes[6] = 0xc3;
    assert_eq!(decode(&bytes), Err(CodecError::Malformed));
    // an overlong form of '/'
    let mut bytes = SAMPLE.to_vec();
    bytes[5] = 0xc0;
    bytes[6] = 0xaf;
    assert_eq!(decode(&bytes), Err(CodecError::Malformed));
}

#[test]
fn decode_refuses_a_length_beyond_the_input() {
    let mut bytes = SAMPLE.to_vec();
    bytes[26] = 0x7f;
    assert_eq!(decode(&bytes), Err(CodecError::Malformed));
    let bytes = [0xff, 0xff, 0xff, 0xff, 0xff, 0xff, 0xff, 0xff, 0xff, 0x01];
    assert_eq!(decode(&bytes), Err(CodecError::Malformed));
}

#[test]
fn decode_refuses_a_date_wider_than_64_bits() {
    let head = &SAMPLE[..41];
    // tenth byte holds more than the one bit that is left
    let mut bytes = head.to_vec();
    bytes.extend_from_slice(&[0xff, 0xff, 0xff, 0xff, 0xff, 0xff, 0xff, 0xff, 0xff, 0x02]);
    assert_eq!(decode(&bytes), Err(CodecError::Malformed));
    // eleven bytes
    let mut bytes = head.to_vec();
    bytes.extend_from_slice(&[0x80, 0x80, 0x80, 0x80, 0x80, 0x80, 0x80, 0x80, 0x80, 0x80, 0x01]);
    assert_eq!(decode(&bytes), Err(CodecError::Malformed));
    // ten bytes are fine
    let mut bytes = head.to_vec();
    bytes.extend_from_slice(&[0xff, 0xff, 0xff, 0xff, 0xff, 0xff, 0xff, 0xff, 0xff, 0x01]);
    assert_eq!(decode(&bytes), Ok(Certificate { expiry_date: i64::MIN, ..sample() }));
}

#[test]
fn decode_borrows_its_text_from_the_input() {
    let bytes = SAMPLE.to_vec();
    let cert = decode(&bytes).unwrap();
    assert_eq!(cert.cert_id.as_ptr(), bytes[1..].as_ptr());
}
