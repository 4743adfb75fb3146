use vstd::prelude::*;
use vstd::string::{is_ascii, StringSliceAdditionalSpecFns};
use crate::message::{
    be16, from_be16, header_bytes, lemma_be16_round_trip, lemma_header_round_trip, parse_header,
    question_bytes, DNSHeader, DNSQuestion, CLASS_IN, TYPE_A,
};
use crate::name::{
    encode_dns_name, encode_labels, encoded_name, labels_decodable, labels_fit,
    lemma_parse_encoded_labels, parse_labels, split_labels,
};

verus! {

/// The transaction id of every query that `build_query` makes.
pub const QUERY_ID: u16 = 12345;

/// The header of a built query: the fixed id, no flags, one question.
pub open spec fn query_header() -> DNSHeader {
    DNSHeader {
        id: QUERY_ID,
        flags: 0,
        num_questions: 1,
        num_answers: 0,
        num_authorities: 0,
        num_additionals: 0,
    }
}

/// The query for the dotted name `name`: the header, then one question for
/// an address record in the Internet class.
pub open spec fn query_message(name: Seq<u8>) -> Seq<u8> {
    header_bytes(query_header()) + question_bytes(encoded_name(name), TYPE_A, CLASS_IN)
}

/// Reads a query with one question back from `e`: the header, the labels of
/// the name, the query type and the query class. `None` where `e` is not
/// exactly such a message.
pub open spec fn parse_query(e: Seq<u8>) -> Option<(DNSHeader, Seq<Seq<u8>>, u16, u16)> {
    if e.len() < 12 {
        None
    } else {
        match parse_labels(e.skip(12)) {
            Some(r) => {
                let k = 12 + r.1 as int;
                if e.len() == k + 4 {
                    Some(
                        (
                            parse_header(e),
                            r.0,
                            from_be16(e[k], e[k + 1]),
                            from_be16(e[k + 2], e[k + 3]),
                        ),
                    )
                } else {
                    None
                }
            },
            None => None,
        }
    }
}

/// Builds the complete query message for an address record of
/// `domain_name` in the Internet class, with the fixed transaction id.
pub fn build_query(domain_name: &str) -> (r: Vec<u8>)
    requires
        is_ascii(domain_name),
        labels_fit(domain_name.spec_bytes()),
    ensures
        r@ == query_message(domain_name.spec_bytes()),
{
    let name = encode_dns_name(domain_name).unwrap();
    let header = DNSHeader::new(QUERY_ID, 0, 1);
    let question = DNSQuestion { name, type_: TYPE_A, class: CLASS_IN };
    let mut query = header.encode();
    let mut encoded_question = question.encode();
    query.append(&mut encoded_question);
    query
}

/// Building a query has no hidden input: two names with the same characters
/// give byte-identical queries.
pub proof fn lemma_build_query_deterministic(a: &str, b: &str)
    requires
        a@ == b@,
    ensures
        query_message(a.spec_bytes()) == query_message(b.spec_bytes()),
{
}

/// Reading back a built query gives the header it was built with, the parts
/// of the name, the address-record type and the Internet class, where every
/// part of the name is a non-empty label that fits its length byte.
pub proof fn lemma_query_round_trip(domain_name: &str)
    requires
        is_ascii(domain_name),
        labels_decodable(domain_name.spec_bytes()),
    ensures
        parse_query(query_message(domain_name.spec_bytes())) == Some(
            (query_header(), split_labels(domain_name.spec_bytes()), TYPE_A, CLASS_IN),
        ),
{
    let s = domain_name.spec_bytes();
    let ls = split_labels(s);
    let e = query_message(s);
    let tail = be16(TYPE_A) + be16(CLASS_IN);
    let n = encode_labels(ls).len() + 1int;
    assert forall|k: int| 0 <= k < ls.len() implies 1 <= #[trigger] ls[k].len() <= 255 by {}
    lemma_parse_encoded_labels(ls, tail);
    assert(e.skip(12) =~= encode_labels(ls) + seq![0u8] + tail);
    lemma_header_round_trip(query_header());
    assert(parse_header(e) == parse_header(header_bytes(query_header())));
    lemma_be16_round_trip(TYPE_A);
    lemma_be16_round_trip(CLASS_IN);
    assert(e[12 + n] == be16(TYPE_A)[0] && e[12 + n + 1] == be16(TYPE_A)[1]);
    assert(e[12 + n + 2] == be16(CLASS_IN)[0] && e[12 + n + 3] == be16(CLASS_IN)[1]);
}

} // verus!
