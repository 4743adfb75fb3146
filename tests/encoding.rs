use dns_query::{
    build_query, encode_dns_name, DNSError, DNSHeader, DNSQuestion, EncodeDNSNameError, CLASS_IN,
    TYPE_A, TYPE_NS,
};

#[test]
fn test_encode_dns_name() {
    let domain_name = "google.com";
    let encoded = encode_dns_name(domain_name).unwrap();
    assert_eq!(b"\x06google\x03com\x00", encoded.as_slice());
    let domain_name = "buenosd\u{221a}\u{2260}as.com"; // Non ascii domain_name
    let encoded = encode_dns_name(domain_name);
    assert_eq!(EncodeDNSNameError::NonASCIIName, encoded.unwrap_err());
}

#[test]
fn test_encode_dns_header() {
    let header = DNSHeader::new(1, 0, 1);
    let encoded = header.encode();
    assert_eq!(
        b"\x00\x01\x00\x00\x00\x01\x00\x00\x00\x00\x00\x00",
        encoded.as_slice()
    );
}

#[test]
fn test_encode_dns_question() {
    let mut encoded_name = vec![];
    encoded_name.extend(b"\x06google\x03com\x00");
    let question = DNSQuestion {
        name: encoded_name,
        type_: TYPE_A,
        class: CLASS_IN,
    };
    let encoded_q = question.encode();
    assert_eq!(
        b"\x06google\x03com\x00\x00\x01\x00\x01",
        encoded_q.as_slice()
    )
}

#[test]
fn test_build_query() {
    assert_eq!(
        b"09\x00\x00\x00\x01\x00\x00\x00\x00\x00\x00\x08facebook\x03com\x00\x00\x01\x00\x01",
        build_query("facebook.com").as_slice()
    );
}

#[test]
fn empty_name_is_one_empty_label() {
    assert_eq!(vec![0u8, 0u8], encode_dns_name("").unwrap());
}

#[test]
fn single_label_name() {
    assert_eq!(b"\x09localhost\x00".to_vec(), encode_dns_name("localhost").unwrap());
}

#[test]
fn trailing_dot_gives_empty_last_label() {
    assert_eq!(b"\x03com\x00\x00".to_vec(), encode_dns_name("com.").unwrap());
}

#[test]
fn consecutive_dots_give_empty_label() {
    assert_eq!(b"\x01a\x00\x01b\x00".to_vec(), encode_dns_name("a..b").unwrap());
}

#[test]
fn longest_label_gets_length_255() {
    let label = "x".repeat(255);
    let name = format!("{}.io", label);
    let encoded = encode_dns_name(&name).unwrap();
    assert_eq!(1 + 255 + 1 + 2 + 1, encoded.len());
    assert_eq!(255u8, encoded[0]);
    assert!(encoded[1..256].iter().all(|b| *b == b'x'));
    assert_eq!(b"\x02io\x00", &encoded[256..]);
}

#[test]
fn realistic_name_ends_in_single_terminator() {
    let encoded = encode_dns_name("mail.example.org").unwrap();
    assert_eq!(Some(&0u8), encoded.last());
    let mut pos = 0usize;
    let mut labels: Vec<Vec<u8>> = Vec::new();
    while encoded[pos] != 0 {
        let len = encoded[pos] as usize;
        assert!(len <= 63);
        labels.push(encoded[pos + 1..pos + 1 + len].to_vec());
        pos += 1 + len;
    }
    assert_eq!(encoded.len() - 1, pos);
    assert_eq!(
        vec![b"mail".to_vec(), b"example".to_vec(), b"org".to_vec()],
        labels
    );
}

#[test]
fn non_ascii_anywhere_is_refused() {
    assert_eq!(
        Err(EncodeDNSNameError::NonASCIIName),
        encode_dns_name("\u{e9}.com")
    );
    assert_eq!(
        Err(EncodeDNSNameError::NonASCIIName),
        encode_dns_name("example.c\u{f6}m")
    );
}

#[test]
fn header_fields_in_network_order() {
    let header = DNSHeader {
        id: 0x1234,
        flags: 0x8180,
        num_questions: 1,
        num_answers: 2,
        num_authorities: 0x0300,
        num_additionals: 0xffff,
    };
    assert_eq!(
        vec![0x12, 0x34, 0x81, 0x80, 0, 1, 0, 2, 3, 0, 0xff, 0xff],
        header.encode()
    );
}

#[test]
fn new_header_zeroes_other_counts() {
    let header = DNSHeader::new(7, 0x0100, 3);
    assert_eq!(7, header.id);
    assert_eq!(0x0100, header.flags);
    assert_eq!(3, header.num_questions);
    assert_eq!(0, header.num_answers);
    assert_eq!(0, header.num_authorities);
    assert_eq!(0, header.num_additionals);
    assert_eq!(12, header.encode().len());
}

#[test]
fn question_with_name_server_type() {
    let question = DNSQuestion {
        name: vec![0],
        type_: TYPE_NS,
        class: CLASS_IN,
    };
    assert_eq!(vec![0, 0, 2, 0, 1], question.encode());
}

#[test]
fn build_query_google() {
    let mut expected = vec![0x30, 0x39, 0, 0, 0, 1, 0, 0, 0, 0, 0, 0];
    expected.extend_from_slice(b"\x06google\x03com\x00\x00\x01\x00\x01");
    assert_eq!(expected, build_query("google.com"));
}

#[test]
fn build_query_twice_is_identical() {
    assert_eq!(build_query("example.net"), build_query("example.net"));
}

#[test]
fn round_trip_of_built_query() {
    let q = build_query("www.rust-lang.org");
    let header = [q[0], q[1], q[2], q[3], q[4], q[5], q[6], q[7], q[8], q[9], q[10], q[11]];
    assert_eq!(
        DNSHeader { id: 12345, flags: 0, num_questions: 1, num_answers: 0, num_authorities: 0, num_additionals: 0 },
        DNSHeader {
            id: u16::from_be_bytes([header[0], header[1]]),
            flags: u16::from_be_bytes([header[2], header[3]]),
            num_questions: u16::from_be_bytes([header[4], header[5]]),
            num_answers: u16::from_be_bytes([header[6], header[7]]),
            num_authorities: u16::from_be_bytes([header[8], header[9]]),
            num_additionals: u16::from_be_bytes([header[10], header[11]]),
        }
    );
    let mut pos = 12usize;
    let mut parts: Vec<String> = Vec::new();
    while q[pos] != 0 {
        let len = q[pos] as usize;
        parts.push(String::from_utf8(q[pos + 1..pos + 1 + len].to_vec()).unwrap());
        pos += 1 + len;
    }
    assert_eq!("www.rust-lang.org", parts.join("."));
    assert_eq!(TYPE_A, u16::from_be_bytes([q[pos + 1], q[pos + 2]]));
    assert_eq!(CLASS_IN, u16::from_be_bytes([q[pos + 3], q[pos + 4]]));
    assert_eq!(pos + 5, q.len());
}

#[test]
fn error_messages() {
    assert_eq!(
        "Domain name contains non-ascii characters",
        EncodeDNSNameError::NonASCIIName.message()
    );
    assert_eq!("Domain name is too long", EncodeDNSNameError::NameTooLong.message());
}

#[test]
fn dns_error_wraps_encoding_error() {
    let e = DNSError::EncodeDNSNameError(EncodeDNSNameError::NonASCIIName);
    assert!(matches!(
        e,
        DNSError::EncodeDNSNameError(EncodeDNSNameError::NonASCIIName)
    ));
}
