use vstd::prelude::*;
use vstd::string::{is_ascii, StringSliceAdditionalSpecFns};
use crate::error::EncodeDNSNameError;

verus! {

/// The byte that separates the labels of a dotted name (`.`).
pub const LABEL_SEPARATOR: u8 = 46;

/// The parts of `s` between separators, in order. There is always at least
/// one part: a name without a separator is a single part, and the empty name
/// is one empty part.
pub open spec fn split_labels(s: Seq<u8>) -> Seq<Seq<u8>>
    decreases s.len(),
{
    if s.len() == 0 {
        seq![Seq::empty()]
    } else {
        let prev = split_labels(s.drop_last());
        if s.last() == LABEL_SEPARATOR {
            prev.push(Seq::empty())
        } else {
            prev.update(prev.len() - 1, prev.last().push(s.last()))
        }
    }
}

/// Every part of `s` has a length that fits in its single length byte.
pub open spec fn labels_fit(s: Seq<u8>) -> bool {
    forall|k: int| 0 <= k < split_labels(s).len() ==> #[trigger] split_labels(s)[k].len() <= 255
}

/// One label in wire format: its length byte, then its bytes.
pub open spec fn encode_label(l: Seq<u8>) -> Seq<u8> {
    seq![l.len() as u8] + l
}

/// The labels in wire format, one after another, without the terminator.
pub open spec fn encode_labels(ls: Seq<Seq<u8>>) -> Seq<u8>
    decreases ls.len(),
{
    if ls.len() == 0 {
        Seq::empty()
    } else {
        encode_label(ls[0]) + encode_labels(ls.drop_first())
    }
}

/// The wire form of the dotted name `s`: each part as a label, then one zero byte.
pub open spec fn encoded_name(s: Seq<u8>) -> Seq<u8> {
    encode_labels(split_labels(s)) + seq![0u8]
}

/// Reads a label sequence from the front of `e`, up to and including the
/// zero length byte that ends it: the labels and the number of bytes read.
pub open spec fn parse_labels(e: Seq<u8>) -> Option<(Seq<Seq<u8>>, nat)>
    decreases e.len(),
{
    if e.len() == 0 {
        None
    } else if e[0] == 0 {
        Some((Seq::empty(), 1))
    } else if e.len() < 1 + e[0] {
        None
    } else {
        match parse_labels(e.subrange(1 + e[0], e.len() as int)) {
            Some(r) => Some((seq![e.subrange(1, 1 + e[0])] + r.0, (1 + e[0] + r.1) as nat)),
            None => None,
        }
    }
}

proof fn lemma_split_nonempty(s: Seq<u8>)
    ensures
        split_labels(s).len() >= 1,
    decreases s.len(),
{
    if s.len() > 0 {
        lemma_split_nonempty(s.drop_last());
    }
}

/// A part of a prefix of `s` is never longer than the part of `s` at the same place.
proof fn lemma_split_prefix(s: Seq<u8>, i: int, j: int)
    requires
        0 <= i <= j <= s.len(),
    ensures
        split_labels(s.take(i)).len() <= split_labels(s.take(j)).len(),
        split_labels(s.take(i)).last().len() <= split_labels(s.take(j))[split_labels(
            s.take(i),
        ).len() - 1].len(),
    decreases j - i,
{
    lemma_split_nonempty(s.take(i));
    lemma_split_nonempty(s.take(j));
    if i < j {
        lemma_split_prefix(s, i, j - 1);
        lemma_split_nonempty(s.take(j - 1));
        assert(s.take(j).drop_last() =~= s.take(j - 1));
    }
}

proof fn lemma_encode_labels_push(ls: Seq<Seq<u8>>, l: Seq<u8>)
    ensures
        encode_labels(ls.push(l)) == encode_labels(ls) + encode_label(l),
    decreases ls.len(),
{
    if ls.len() == 0 {
        assert(ls.push(l).drop_first() =~= Seq::<Seq<u8>>::empty());
        assert(ls.push(l)[0] == l);
        assert(encode_labels(ls.push(l).drop_first()) == Seq::<u8>::empty());
        assert(encode_labels(ls.push(l)) =~= encode_labels(ls) + encode_label(l));
    } else {
        lemma_encode_labels_push(ls.drop_first(), l);
        assert(ls.push(l).drop_first() =~= ls.drop_first().push(l));
        assert(encode_labels(ls.push(l)) =~= encode_labels(ls) + encode_label(l));
    }
}

/// No part of a name is longer than the name, so every part of a name of at
/// most 255 bytes fits its length byte.
pub proof fn lemma_short_name_fits(s: Seq<u8>)
    ensures
        forall|k: int|
            0 <= k < split_labels(s).len() ==> #[trigger] split_labels(s)[k].len() <= s.len(),
        s.len() <= 255 ==> labels_fit(s),
    decreases s.len(),
{
    if s.len() > 0 {
        lemma_short_name_fits(s.drop_last());
        lemma_split_nonempty(s.drop_last());
    }
}

/// Every part of `s` can be read back from its encoding: it is not empty
/// (an empty part would read as the terminator) and its length fits in a byte.
pub open spec fn labels_decodable(s: Seq<u8>) -> bool {
    forall|k: int|
        0 <= k < split_labels(s).len() ==> 1 <= #[trigger] split_labels(s)[k].len() <= 255
}

/// Every part of `s` is a label as the protocol bounds it: 1 to 63 bytes.
pub open spec fn labels_realistic(s: Seq<u8>) -> bool {
    forall|k: int|
        0 <= k < split_labels(s).len() ==> 1 <= #[trigger] split_labels(s)[k].len() <= 63
}

/// Labels that are not empty and fit their length byte are read back from
/// their encoding, whatever follows the terminator.
pub proof fn lemma_parse_encoded_labels(ls: Seq<Seq<u8>>, rest: Seq<u8>)
    requires
        forall|k: int| 0 <= k < ls.len() ==> 1 <= #[trigger] ls[k].len() <= 255,
    ensures
        parse_labels(encode_labels(ls) + seq![0u8] + rest) == Some(
            (ls, (encode_labels(ls).len() + 1) as nat),
        ),
    decreases ls.len(),
{
    let e = encode_labels(ls) + seq![0u8] + rest;
    if ls.len() == 0 {
        assert(encode_labels(ls) =~= Seq::<u8>::empty());
        assert(e[0] == 0);
    } else {
        let l = ls[0];
        let t = ls.drop_first();
        assert forall|k: int| 0 <= k < t.len() implies 1 <= #[trigger] t[k].len() <= 255 by {
            assert(t[k] == ls[k + 1]);
        }
        lemma_parse_encoded_labels(t, rest);
        assert(e[0] == l.len() as u8);
        assert(e.subrange(1 + l.len() as int, e.len() as int) =~= encode_labels(t) + seq![0u8] + rest);
        assert(e.subrange(1, 1 + l.len() as int) =~= l);
        assert(seq![l] + t =~= ls);
    }
}

/// An ASCII name whose parts are labels of 1 to 63 bytes encodes into a
/// sequence that ends in a single zero byte: read back label by label, it
/// gives the name's parts, each after a length byte of at most 63, and the
/// zero byte that ends the reading is the last byte of the encoding.
pub proof fn lemma_encoded_name_framing(domain_name: &str)
    requires
        is_ascii(domain_name),
        labels_realistic(domain_name.spec_bytes()),
    ensures
        encoded_name(domain_name.spec_bytes()).last() == 0,
        parse_labels(encoded_name(domain_name.spec_bytes())) == Some(
            (
                split_labels(domain_name.spec_bytes()),
                encoded_name(domain_name.spec_bytes()).len(),
            ),
        ),
        forall|k: int|
            0 <= k < split_labels(domain_name.spec_bytes()).len() ==> #[trigger] split_labels(
                domain_name.spec_bytes(),
            )[k].len() <= 63,
{
    let ls = split_labels(domain_name.spec_bytes());
    lemma_parse_encoded_labels(ls, Seq::empty());
    assert(encoded_name(domain_name.spec_bytes()) + Seq::<u8>::empty() =~= encoded_name(
        domain_name.spec_bytes(),
    ));
}

/// Puts a dotted domain name into wire format: for each part between dots,
/// a length byte and the part's bytes, then a zero byte. A name with a
/// non-ASCII character is refused.
pub fn encode_dns_name(domain_name: &str) -> (r: Result<Vec<u8>, EncodeDNSNameError>)
    requires
        is_ascii(domain_name) ==> labels_fit(domain_name.spec_bytes()),
    ensures
        !is_ascii(domain_name) ==> r == Err::<Vec<u8>, EncodeDNSNameError>(
            EncodeDNSNameError::NonASCIIName,
        ),
        is_ascii(domain_name) ==> r is Ok && r->Ok_0@ == encoded_name(domain_name.spec_bytes()),
{
    if !domain_name.is_ascii() {
        return Err(EncodeDNSNameError::NonASCIIName);
    }
    let bytes = domain_name.as_bytes();
    let ghost s = bytes@;
    let mut encoded: Vec<u8> = Vec::new();
    let mut label: Vec<u8> = Vec::new();
    let mut i: usize = 0;
    proof {
        assert(s.take(0) =~= Seq::<u8>::empty());
        assert(split_labels(s.take(0)).drop_last() =~= Seq::<Seq<u8>>::empty());
        assert(label@ =~= split_labels(s.take(0)).last());
    }
    while i < bytes.len()
        invariant
            s == bytes@,
            s == domain_name.spec_bytes(),
            labels_fit(s),
            0 <= i <= s.len(),
            encoded@ == encode_labels(split_labels(s.take(i as int)).drop_last()),
            label@ == split_labels(s.take(i as int)).last(),
        decreases s.len() - i,
    {
        let b = bytes[i];
        let ghost prev = split_labels(s.take(i as int));
        proof {
            lemma_split_nonempty(s.take(i as int));
            assert(s.take(i + 1).drop_last() =~= s.take(i as int));
            assert(s.take(i + 1).last() == b);
        }
        if b == LABEL_SEPARATOR {
            proof {
                lemma_split_prefix(s, i as int, s.len() as int);
                assert(s.take(s.len() as int) =~= s);
                lemma_encode_labels_push(prev.drop_last(), prev.last());
                assert(prev.drop_last().push(prev.last()) =~= prev);
                assert(split_labels(s.take(i + 1)).drop_last() =~= prev);
            }
            encoded.push(label.len() as u8);
            encoded.append(&mut label);
            assert(encoded@ =~= encode_labels(prev.drop_last()) + encode_label(prev.last()));
        } else {
            label.push(b);
            assert(split_labels(s.take(i + 1)).drop_last() =~= prev.drop_last());
        }
        i = i + 1;
    }
    let ghost parts = split_labels(s);
    proof {
        assert(s.take(s.len() as int) =~= s);
        lemma_split_nonempty(s);
        lemma_encode_labels_push(parts.drop_last(), parts.last());
        assert(parts.drop_last().push(parts.last()) =~= parts);
    }
    encoded.push(label.len() as u8);
    encoded.append(&mut label);
    encoded.push(0);
    assert(encoded@ =~= encoded_name(s));
    Ok(encoded)
}

} // verus!
