use vstd::prelude::*;

verus! {

/// The two bytes of `x` in network byte order (most significant first).
pub open spec fn be16(x: u16) -> Seq<u8> {
    seq![(x / 256) as u8, (x % 256) as u8]
}

/// The `u16` whose network-order bytes are `hi` and `lo`.
pub open spec fn from_be16(hi: u8, lo: u8) -> u16 {
    (hi * 256 + lo) as u16
}

/// Appends `x` to `out` in network byte order.
fn push_be16(out: &mut Vec<u8>, x: u16)
    ensures
        final(out)@ == old(out)@ + be16(x),
{
    out.push((x / 256) as u8);
    out.push((x % 256) as u8);
    assert(out@ =~= old(out)@ + be16(x));
}


/// Query type: a host address record.
pub const TYPE_A: u16 = 1;

/// Query type: an authoritative name server record.
pub const TYPE_NS: u16 = 2;

/// Query class: the Internet.
pub const CLASS_IN: u16 = 1;

/// The fixed 12-byte header that starts every DNS message.
#[derive(Debug, Clone, Copy, PartialEq, Eq, Structural)]
pub struct DNSHeader {
    pub id: u16,
    pub flags: u16,
    pub num_questions: u16,
    pub num_answers: u16,
    pub num_authorities: u16,
    pub num_additionals: u16,
}

/// The wire form of a header: its six fields in order, each in network byte order.
pub open spec fn header_bytes(h: DNSHeader) -> Seq<u8> {
    be16(h.id) + be16(h.flags) + be16(h.num_questions) + be16(h.num_answers) + be16(
        h.num_authorities,
    ) + be16(h.num_additionals)
}

/// Reads a header back from the first twelve bytes of `e`.
pub open spec fn parse_header(e: Seq<u8>) -> DNSHeader
    recommends
        e.len() >= 12,
{
    DNSHeader {
        id: from_be16(e[0], e[1]),
        flags: from_be16(e[2], e[3]),
        num_questions: from_be16(e[4], e[5]),
        num_answers: from_be16(e[6], e[7]),
        num_authorities: from_be16(e[8], e[9]),
        num_additionals: from_be16(e[10], e[11]),
    }
}

impl DNSHeader {
    /// A query header: the answer, authority and additional counts are zero.
    pub fn new(id: u16, flags: u16, num_questions: u16) -> (r: Self)
        ensures
            r == (DNSHeader {
                id,
                flags,
                num_questions,
                num_answers: 0,
                num_authorities: 0,
                num_additionals: 0,
            }),
    {
        DNSHeader {
            id,
            flags,
            num_questions,
            num_answers: 0,
            num_authorities: 0,
            num_additionals: 0,
        }
    }

    /// The header in wire format: always twelve bytes.
    pub fn encode(&self) -> (r: Vec<u8>)
        ensures
            r@ == header_bytes(*self),
            r@.len() == 12,
    {
        let mut encoded: Vec<u8> = Vec::new();
        push_be16(&mut encoded, self.id);
        push_be16(&mut encoded, self.flags);
        push_be16(&mut encoded, self.num_questions);
        push_be16(&mut encoded, self.num_answers);
        push_be16(&mut encoded, self.num_authorities);
        push_be16(&mut encoded, self.num_additionals);
        assert(encoded@ =~= header_bytes(*self));
        encoded
    }
}

/// Two bytes in network byte order read back give the value they were written from.
pub proof fn lemma_be16_round_trip(x: u16)
    ensures
        from_be16(be16(x)[0], be16(x)[1]) == x,
{
    assert((x / 256) * 256 + x % 256 == x) by (nonlinear_arith);
}

/// Reading back an encoded header gives the header that was encoded.
pub proof fn lemma_header_round_trip(h: DNSHeader)
    ensures
        parse_header(header_bytes(h)) == h,
{
    let e = header_bytes(h);
    lemma_be16_round_trip(h.id);
    lemma_be16_round_trip(h.flags);
    lemma_be16_round_trip(h.num_questions);
    lemma_be16_round_trip(h.num_answers);
    lemma_be16_round_trip(h.num_authorities);
    lemma_be16_round_trip(h.num_additionals);
    assert(e[0] == be16(h.id)[0] && e[1] == be16(h.id)[1]);
    assert(e[2] == be16(h.flags)[0] && e[3] == be16(h.flags)[1]);
    assert(e[4] == be16(h.num_questions)[0] && e[5] == be16(h.num_questions)[1]);
    assert(e[6] == be16(h.num_answers)[0] && e[7] == be16(h.num_answers)[1]);
    assert(e[8] == be16(h.num_authorities)[0] && e[9] == be16(h.num_authorities)[1]);
    assert(e[10] == be16(h.num_additionals)[0] && e[11] == be16(h.num_additionals)[1]);
}


/// A question: a name already in wire format, a query type and a query class.
/// The name is taken as it is; framing it is the name encoder's work.
#[derive(Debug, PartialEq, Eq)]
pub struct DNSQuestion {
    pub name: Vec<u8>,
    pub type_: u16,
    pub class: u16,
}

/// The wire form of a question: the name bytes, then type and class in network byte order.
pub open spec fn question_bytes(name: Seq<u8>, type_: u16, class: u16) -> Seq<u8> {
    name + be16(type_) + be16(class)
}

impl DNSQuestion {
    /// The question in wire format.
    pub fn encode(&self) -> (r: Vec<u8>)
        ensures
            r@ == question_bytes(self.name@, self.type_, self.class),
    {
        let mut encoded: Vec<u8> = Vec::new();
        let mut i: usize = 0;
        while i < self.name.len()
            invariant
                0 <= i <= self.name@.len(),
                encoded@ == self.name@.take(i as int),
            decreases self.name@.len() - i,
        {
            encoded.push(self.name[i]);
            i = i + 1;
            assert(encoded@ =~= self.name@.take(i as int));
        }
        assert(encoded@ =~= self.name@);
        push_be16(&mut encoded, self.type_);
        push_be16(&mut encoded, self.class);
        encoded
    }
}

} // verus!
