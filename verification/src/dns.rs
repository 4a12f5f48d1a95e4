//! DNS wire-message codec.
//!
//! A message is parsed into a header, exactly one question and a flat list
//! of resource records (answer, authority and additional sections in
//! order). Record owner names are kept as their raw wire regions, so a
//! name may end in a compression pointer; since re-encoding reproduces
//! every region at its original offset, pointers stay valid. The question
//! name must be a plain label sequence (it is the first name in the
//! message, and a pointer can only refer backwards).

use vstd::prelude::*;

use crate::bytes::{
    be16, be32, read_u16, read_u32, sub_bytes, u16_of, u32_of, clone_bytes, extend_bytes,
    push_u16, push_u32, lemma_be16_roundtrip, lemma_be32_roundtrip,
};
use crate::errors::DapError;

verus! {

/// Largest wire size a DNS message can have (16-bit length framing).
pub const MAX_WIRE_LEN: usize = 65535;

// ---------------------------------------------------------------------
// Views
// ---------------------------------------------------------------------

/// Mathematical model of one resource record.
pub struct RecordView {
    /// Raw wire region of the owner name (labels, ending in a zero label
    /// or in a two-byte compression pointer).
    pub name: Seq<u8>,
    pub rtype: u16,
    pub rclass: u16,
    pub ttl: u32,
    pub rdata: Seq<u8>,
}

/// Mathematical model of one message with a single question.
pub struct MsgView {
    pub id: u16,
    pub flags: u16,
    /// Raw wire region of the question name: a plain label sequence
    /// ending in the zero label.
    pub qname: Seq<u8>,
    pub qtype: u16,
    pub qclass: u16,
    pub ancount: u16,
    pub nscount: u16,
    pub arcount: u16,
    /// All records, answers first, then authority, then additional.
    pub records: Seq<RecordView>,
}

/// QR bit of the flags word: 0 for a query, 1 for a response.
pub open spec fn qr_of(flags: u16) -> int {
    flags as int / 0x8000
}

/// Operation code of the flags word (0 is a standard query).
pub open spec fn opcode_of(flags: u16) -> int {
    (flags as int / 0x0800) % 16
}

/// Response code of the flags word (0 is no error).
pub open spec fn rcode_of(flags: u16) -> int {
    flags as int % 16
}

// ---------------------------------------------------------------------
// Specification-level parser
// ---------------------------------------------------------------------

/// End position (exclusive) of a plain label sequence starting at `i`:
/// length-prefixed labels of 1 to 63 bytes, terminated by a zero label.
pub open spec fn qname_end(b: Seq<u8>, i: int) -> Option<int>
    decreases b.len() - i,
{
    if i < 0 || i >= b.len() {
        None
    } else {
        let l = b[i];
        if l == 0 {
            Some(i + 1)
        } else if l < 64 && i + 1 + l <= b.len() {
            qname_end(b, i + 1 + l)
        } else {
            None
        }
    }
}

/// End position (exclusive) of a wire name starting at `i`: labels as in
/// [`qname_end`], but the name may also end in a two-byte compression
/// pointer (first byte at least 192).
pub open spec fn skip_name(b: Seq<u8>, i: int) -> Option<int>
    decreases b.len() - i,
{
    if i < 0 || i >= b.len() {
        None
    } else {
        let l = b[i];
        if l == 0 {
            Some(i + 1)
        } else if l >= 192 {
            if i + 2 <= b.len() {
                Some(i + 2)
            } else {
                None
            }
        } else if l < 64 && i + 1 + l <= b.len() {
            skip_name(b, i + 1 + l)
        } else {
            None
        }
    }
}

/// One resource record at offset `i`, with the offset just past it.
pub open spec fn parse_record(b: Seq<u8>, i: int) -> Option<(RecordView, int)> {
    match skip_name(b, i) {
        None => None,
        Some(e) => if e + 10 <= b.len() {
            let rdlen = u16_of(b[e + 8], b[e + 9]);
            if e + 10 + rdlen <= b.len() {
                Some(
                    (
                        RecordView {
                            name: b.subrange(i, e),
                            rtype: u16_of(b[e], b[e + 1]) as u16,
                            rclass: u16_of(b[e + 2], b[e + 3]) as u16,
                            ttl: u32_of(b[e + 4], b[e + 5], b[e + 6], b[e + 7]) as u32,
                            rdata: b.subrange(e + 10, e + 10 + rdlen),
                        },
                        e + 10 + rdlen,
                    ),
                )
            } else {
                None
            }
        } else {
            None
        },
    }
}

/// `n` consecutive resource records from offset `i`.
pub open spec fn parse_records(b: Seq<u8>, i: int, n: nat) -> Option<(Seq<RecordView>, int)>
    decreases n,
{
    if n == 0 {
        Some((Seq::empty(), i))
    } else {
        match parse_record(b, i) {
            None => None,
            Some((r, j)) => match parse_records(b, j, (n - 1) as nat) {
                None => None,
                Some((rs, e)) => Some((seq![r] + rs, e)),
            },
        }
    }
}

/// The whole message: header, one question, all records, nothing after.
pub open spec fn parse_msg(b: Seq<u8>) -> Option<MsgView> {
    if b.len() < 12 || b.len() > MAX_WIRE_LEN {
        None
    } else if u16_of(b[4], b[5]) != 1 {
        None
    } else {
        match qname_end(b, 12) {
            None => None,
            Some(qe) => if qe + 4 <= b.len() {
                let an = u16_of(b[6], b[7]);
                let ns = u16_of(b[8], b[9]);
                let ar = u16_of(b[10], b[11]);
                match parse_records(b, qe + 4, (an + ns + ar) as nat) {
                    None => None,
                    Some((rs, e)) => if e == b.len() {
                        Some(
                            MsgView {
                                id: u16_of(b[0], b[1]) as u16,
                                flags: u16_of(b[2], b[3]) as u16,
                                qname: b.subrange(12, qe),
                                qtype: u16_of(b[qe], b[qe + 1]) as u16,
                                qclass: u16_of(b[qe + 2], b[qe + 3]) as u16,
                                ancount: an as u16,
                                nscount: ns as u16,
                                arcount: ar as u16,
                                records: rs,
                            },
                        )
                    } else {
                        None
                    },
                }
            } else {
                None
            },
        }
    }
}

/// A well-formed DNS query: parses, QR is 0, opcode is QUERY.
pub open spec fn valid_query(b: Seq<u8>) -> bool {
    match parse_msg(b) {
        None => false,
        Some(v) => qr_of(v.flags) == 0 && opcode_of(v.flags) == 0,
    }
}

/// A well-formed DNS response: parses and QR is 1.
pub open spec fn valid_response(b: Seq<u8>) -> bool {
    match parse_msg(b) {
        None => false,
        Some(v) => qr_of(v.flags) == 1,
    }
}

// ---------------------------------------------------------------------
// Well-formedness of views (self-delimiting name regions)
// ---------------------------------------------------------------------

/// A plain label sequence that ends exactly at its own end.
pub open spec fn wf_qname(n: Seq<u8>) -> bool {
    qname_end(n, 0) == Some(n.len() as int)
}

/// A wire name region that ends exactly at its own end.
pub open spec fn wf_name(n: Seq<u8>) -> bool {
    skip_name(n, 0) == Some(n.len() as int)
}

pub open spec fn wf_record(r: RecordView) -> bool {
    wf_name(r.name) && r.rdata.len() <= 0xFFFF
}

/// Structurally well-formed message view: names are self-delimiting and
/// the section counts match the record list.
pub open spec fn wf_msg(v: MsgView) -> bool {
    &&& wf_qname(v.qname)
    &&& v.records.len() == v.ancount + v.nscount + v.arcount
    &&& forall|k: int| 0 <= k < v.records.len() ==> wf_record(#[trigger] v.records[k])
}

// ---------------------------------------------------------------------
// Specification-level encoder
// ---------------------------------------------------------------------

pub open spec fn enc_record(r: RecordView) -> Seq<u8> {
    r.name + be16(r.rtype) + be16(r.rclass) + be32(r.ttl) + be16(r.rdata.len() as u16) + r.rdata
}

pub open spec fn enc_records(rs: Seq<RecordView>) -> Seq<u8>
    decreases rs.len(),
{
    if rs.len() == 0 {
        Seq::empty()
    } else {
        enc_record(rs[0]) + enc_records(rs.subrange(1, rs.len() as int))
    }
}

pub open spec fn enc_msg(v: MsgView) -> Seq<u8> {
    be16(v.id) + be16(v.flags) + be16(1) + be16(v.ancount) + be16(v.nscount) + be16(v.arcount)
        + v.qname + be16(v.qtype) + be16(v.qclass) + enc_records(v.records)
}

// ---------------------------------------------------------------------
// Executable structures
// ---------------------------------------------------------------------

/// One resource record, owned.
#[derive(Debug)]
pub struct DnsRecord {
    pub name: Vec<u8>,
    pub rtype: u16,
    pub rclass: u16,
    pub ttl: u32,
    pub rdata: Vec<u8>,
}

impl View for DnsRecord {
    type V = RecordView;

    open spec fn view(&self) -> RecordView {
        RecordView {
            name: self.name@,
            rtype: self.rtype,
            rclass: self.rclass,
            ttl: self.ttl,
            rdata: self.rdata@,
        }
    }
}

/// One decoded message, owned.
#[derive(Debug)]
pub struct DnsMessage {
    pub id: u16,
    pub flags: u16,
    pub qname: Vec<u8>,
    pub qtype: u16,
    pub qclass: u16,
    pub ancount: u16,
    pub nscount: u16,
    pub arcount: u16,
    pub records: Vec<DnsRecord>,
}

/// Views of a record list.
pub open spec fn recs_view(s: Seq<DnsRecord>) -> Seq<RecordView> {
    s.map_values(|r: DnsRecord| r@)
}

impl View for DnsMessage {
    type V = MsgView;

    open spec fn view(&self) -> MsgView {
        MsgView {
            id: self.id,
            flags: self.flags,
            qname: self.qname@,
            qtype: self.qtype,
            qclass: self.qclass,
            ancount: self.ancount,
            nscount: self.nscount,
            arcount: self.arcount,
            records: recs_view(self.records@),
        }
    }
}

impl DnsRecord {
    /// Field-for-field copy.
    pub fn duplicate(&self) -> (r: DnsRecord)
        ensures
            r@ == self@,
    {
        DnsRecord {
            name: clone_bytes(&self.name),
            rtype: self.rtype,
            rclass: self.rclass,
            ttl: self.ttl,
            rdata: clone_bytes(&self.rdata),
        }
    }
}

impl DnsMessage {
    /// Field-for-field copy.
    pub fn duplicate(&self) -> (r: DnsMessage)
        ensures
            r@ == self@,
    {
        let mut records: Vec<DnsRecord> = Vec::new();
        let mut i: usize = 0;
        while i < self.records.len()
            invariant
                i <= self.records@.len(),
                records@.len() == i,
                forall|j: int| 0 <= j < i ==> records@[j]@ == self.records@[j]@,
            decreases self.records@.len() - i,
        {
            records.push(self.records[i].duplicate());
            i = i + 1;
        }
        assert(recs_view(records@) =~= recs_view(self.records@));
        DnsMessage {
            id: self.id,
            flags: self.flags,
            qname: clone_bytes(&self.qname),
            qtype: self.qtype,
            qclass: self.qclass,
            ancount: self.ancount,
            nscount: self.nscount,
            arcount: self.arcount,
            records,
        }
    }
}

// ---------------------------------------------------------------------
// Executable parser
// ---------------------------------------------------------------------

/// End of the plain label sequence starting at `i`, as [`qname_end`].
fn qname_end_x(b: &[u8], i0: usize) -> (r: Option<usize>)
    requires
        b@.len() <= MAX_WIRE_LEN,
        i0 <= usize::MAX - 65,
    ensures
        match r {
            Some(e) => qname_end(b@, i0 as int) == Some(e as int),
            None => qname_end(b@, i0 as int) is None,
        },
{
    let mut i: usize = i0;
    loop
        invariant
            b@.len() <= MAX_WIRE_LEN,
            i <= usize::MAX - 65,
            qname_end(b@, i0 as int) == qname_end(b@, i as int),
        decreases b@.len() - i,
    {
        if i >= b.len() {
            return None;
        }
        let l = b[i];
        if l == 0 {
            return Some(i + 1);
        } else if l < 64 && i + 1 + (l as usize) <= b.len() {
            i = i + 1 + (l as usize);
        } else {
            return None;
        }
    }
}

/// End of the wire name starting at `i`, as [`skip_name`].
fn skip_name_x(b: &[u8], i0: usize) -> (r: Option<usize>)
    requires
        b@.len() <= MAX_WIRE_LEN,
        i0 <= usize::MAX - 65,
    ensures
        match r {
            Some(e) => skip_name(b@, i0 as int) == Some(e as int),
            None => skip_name(b@, i0 as int) is None,
        },
{
    let mut i: usize = i0;
    loop
        invariant
            b@.len() <= MAX_WIRE_LEN,
            i <= usize::MAX - 65,
            skip_name(b@, i0 as int) == skip_name(b@, i as int),
        decreases b@.len() - i,
    {
        if i >= b.len() {
            return None;
        }
        let l = b[i];
        if l == 0 {
            return Some(i + 1);
        } else if l >= 192 {
            if i + 2 <= b.len() {
                return Some(i + 2);
            } else {
                return None;
            }
        } else if l < 64 && i + 1 + (l as usize) <= b.len() {
            i = i + 1 + (l as usize);
        } else {
            return None;
        }
    }
}

/// One record at offset `i`, as [`parse_record`].
fn parse_record_x(b: &[u8], i: usize) -> (r: Option<(DnsRecord, usize)>)
    requires
        b@.len() <= MAX_WIRE_LEN,
        i <= b@.len(),
    ensures
        match r {
            Some(p) => parse_record(b@, i as int) == Some((p.0@, p.1 as int)) && p.1 <= b@.len(),
            None => parse_record(b@, i as int) is None,
        },
{
    let e = match skip_name_x(b, i) {
        Some(e) => e,
        None => {
            return None;
        },
    };
    proof {
        lemma_skip_name_bounds(b@, i as int);
    }
    if e + 10 > b.len() {
        return None;
    }
    let rdlen = read_u16(b, e + 8) as usize;
    if e + 10 + rdlen > b.len() {
        return None;
    }
    let rec = DnsRecord {
        name: sub_bytes(b, i, e),
        rtype: read_u16(b, e),
        rclass: read_u16(b, e + 2),
        ttl: read_u32(b, e + 4),
        rdata: sub_bytes(b, e + 10, e + 10 + rdlen),
    };
    Some((rec, e + 10 + rdlen))
}

/// `n` records from offset `i`, as [`parse_records`].
fn parse_records_x(b: &[u8], i: usize, n: usize) -> (r: Option<(Vec<DnsRecord>, usize)>)
    requires
        b@.len() <= MAX_WIRE_LEN,
        i <= b@.len(),
    ensures
        match r {
            Some(p) => parse_records(b@, i as int, n as nat) == Some(
                (recs_view(p.0@), p.1 as int),
            ) && p.1 <= b@.len(),
            None => parse_records(b@, i as int, n as nat) is None,
        },
    decreases n,
{
    if n == 0 {
        let empty: Vec<DnsRecord> = Vec::new();
        assert(recs_view(empty@) =~= Seq::<RecordView>::empty());
        return Some((empty, i));
    }
    let (rec, j) = match parse_record_x(b, i) {
        Some(p) => p,
        None => {
            return None;
        },
    };
    let (mut rs, e) = match parse_records_x(b, j, n - 1) {
        Some(p) => p,
        None => {
            return None;
        },
    };
    rs.insert(0, rec);
    proof {
        assert(recs_view(rs@) =~= seq![rec@] + recs_view(rs@.subrange(1, rs@.len() as int)));
    }
    Some((rs, e))
}

/// Decode a whole message, as [`parse_msg`].
pub fn decode(b: &[u8]) -> (r: Option<DnsMessage>)
    ensures
        match r {
            Some(m) => parse_msg(b@) == Some(m@),
            None => parse_msg(b@) is None,
        },
{
    if b.len() < 12 || b.len() > MAX_WIRE_LEN {
        return None;
    }
    if read_u16(b, 4) != 1 {
        return None;
    }
    let qe = match qname_end_x(b, 12) {
        Some(e) => e,
        None => {
            return None;
        },
    };
    proof {
        lemma_qname_end_bounds(b@, 12);
    }
    if qe + 4 > b.len() {
        return None;
    }
    let an = read_u16(b, 6);
    let ns = read_u16(b, 8);
    let ar = read_u16(b, 10);
    let n = (an as usize) + (ns as usize) + (ar as usize);
    let (records, e) = match parse_records_x(b, qe + 4, n) {
        Some(p) => p,
        None => {
            return None;
        },
    };
    if e != b.len() {
        return None;
    }
    let m = DnsMessage {
        id: read_u16(b, 0),
        flags: read_u16(b, 2),
        qname: sub_bytes(b, 12, qe),
        qtype: read_u16(b, qe),
        qclass: read_u16(b, qe + 2),
        ancount: an,
        nscount: ns,
        arcount: ar,
        records,
    };
    Some(m)
}

// ---------------------------------------------------------------------
// Bounds lemmas for the specification parser
// ---------------------------------------------------------------------

/// A successful label-sequence parse ends inside the buffer, after `i`.
pub proof fn lemma_qname_end_bounds(b: Seq<u8>, i: int)
    requires
        qname_end(b, i) is Some,
    ensures
        i < qname_end(b, i).unwrap() <= b.len(),
    decreases b.len() - i,
{
    let l = b[i];
    if l == 0 {
    } else {
        lemma_qname_end_bounds(b, i + 1 + l);
    }
}

/// A successful name skip ends inside the buffer, after `i`.
pub proof fn lemma_skip_name_bounds(b: Seq<u8>, i: int)
    requires
        skip_name(b, i) is Some,
    ensures
        i < skip_name(b, i).unwrap() <= b.len(),
    decreases b.len() - i,
{
    let l = b[i];
    if l == 0 {
    } else if l >= 192 {
    } else {
        lemma_skip_name_bounds(b, i + 1 + l);
    }
}


// ---------------------------------------------------------------------
// Frame lemmas: a self-delimiting name region parses the same wherever
// it is embedded.
// ---------------------------------------------------------------------

/// Inside `pre + c + suf`, a label-sequence parse that ends at the end of
/// `c` ends at the corresponding embedded position.
pub proof fn lemma_qname_end_frame(pre: Seq<u8>, c: Seq<u8>, suf: Seq<u8>, j: int)
    requires
        0 <= j,
        qname_end(c, j) == Some(c.len() as int),
    ensures
        qname_end(pre + c + suf, pre.len() + j) == Some(pre.len() + c.len() as int),
    decreases c.len() - j,
{
    let full = pre + c + suf;
    lemma_qname_end_bounds(c, j);
    assert(full[pre.len() + j] == c[j]);
    let l = c[j];
    if l == 0 {
    } else {
        assert(l < 64 && j + 1 + l <= c.len());
        lemma_qname_end_frame(pre, c, suf, j + 1 + l);
    }
}

/// Inside `pre + c + suf`, a name skip that ends at the end of `c` ends
/// at the corresponding embedded position.
pub proof fn lemma_skip_name_frame(pre: Seq<u8>, c: Seq<u8>, suf: Seq<u8>, j: int)
    requires
        0 <= j,
        skip_name(c, j) == Some(c.len() as int),
    ensures
        skip_name(pre + c + suf, pre.len() + j) == Some(pre.len() + c.len() as int),
    decreases c.len() - j,
{
    let full = pre + c + suf;
    lemma_skip_name_bounds(c, j);
    assert(full[pre.len() + j] == c[j]);
    let l = c[j];
    if l == 0 {
    } else if l >= 192 {
        assert(j + 2 <= c.len());
    } else {
        assert(l < 64 && j + 1 + l <= c.len());
        lemma_skip_name_frame(pre, c, suf, j + 1 + l);
    }
}

// ---------------------------------------------------------------------
// Extraction lemmas: a successful parse yields self-delimiting regions.
// ---------------------------------------------------------------------

/// The label-sequence region found inside a buffer is itself
/// self-delimiting.
pub proof fn lemma_qname_end_sub(b: Seq<u8>, i: int, j: int)
    requires
        0 <= i <= j,
        qname_end(b, j) is Some,
    ensures
        qname_end(
            b.subrange(i, qname_end(b, j).unwrap()),
            j - i,
        ) == Some(qname_end(b, j).unwrap() - i),
    decreases b.len() - j,
{
    let e = qname_end(b, j).unwrap();
    lemma_qname_end_bounds(b, j);
    let sub = b.subrange(i, e);
    assert(sub[j - i] == b[j]);
    let l = b[j];
    if l == 0 {
    } else {
        assert(l < 64 && j + 1 + l <= b.len());
        lemma_qname_end_bounds(b, j + 1 + l);
        lemma_qname_end_sub(b, i, j + 1 + l);
    }
}

/// The name region found inside a buffer is itself self-delimiting.
pub proof fn lemma_skip_name_sub(b: Seq<u8>, i: int, j: int)
    requires
        0 <= i <= j,
        skip_name(b, j) is Some,
    ensures
        skip_name(
            b.subrange(i, skip_name(b, j).unwrap()),
            j - i,
        ) == Some(skip_name(b, j).unwrap() - i),
    decreases b.len() - j,
{
    let e = skip_name(b, j).unwrap();
    lemma_skip_name_bounds(b, j);
    let sub = b.subrange(i, e);
    assert(sub[j - i] == b[j]);
    let l = b[j];
    if l == 0 {
    } else if l >= 192 {
        assert(j + 2 <= b.len());
        assert(sub.len() == e - i);
    } else {
        assert(l < 64 && j + 1 + l <= b.len());
        lemma_skip_name_bounds(b, j + 1 + l);
        lemma_skip_name_sub(b, i, j + 1 + l);
    }
}

// ---------------------------------------------------------------------
// Record-level encode/parse agreement
// ---------------------------------------------------------------------

/// Splitting a 16-bit big-endian pair recovers its bytes.
proof fn lemma_be16_of_pair(x: u8, y: u8)
    ensures
        be16(u16_of(x, y) as u16) == seq![x, y],
{
    assert((x as int * 256 + y as int) / 256 == x as int) by (nonlinear_arith);
    assert((x as int * 256 + y as int) % 256 == y as int) by (nonlinear_arith);
    assert(be16(u16_of(x, y) as u16) =~= seq![x, y]);
}

/// Splitting a 32-bit big-endian quad recovers its bytes.
proof fn lemma_be32_of_quad(x: u8, y: u8, z: u8, w: u8)
    ensures
        be32(u32_of(x, y, z, w) as u32) == seq![x, y, z, w],
{
    let v = x as int * 0x1000000 + y as int * 0x10000 + z as int * 0x100 + w as int;
    assert(v / 0x1000000 == x as int && (v / 0x10000) % 256 == y as int && (v / 0x100) % 256
        == z as int && v % 256 == w as int) by (nonlinear_arith)
        requires
            v == x as int * 0x1000000 + y as int * 0x10000 + z as int * 0x100 + w as int,
            0 <= (x as int),
            (x as int) < 256,
            0 <= (y as int),
            (y as int) < 256,
            0 <= (z as int),
            (z as int) < 256,
            0 <= (w as int),
            (w as int) < 256,
    ;
    assert(be32(u32_of(x, y, z, w) as u32) =~= seq![x, y, z, w]);
}

/// An encoded record embedded in a buffer parses back to itself.
pub proof fn lemma_parse_record_of_enc(pre: Seq<u8>, r: RecordView, suf: Seq<u8>)
    requires
        wf_record(r),
    ensures
        parse_record(pre + enc_record(r) + suf, pre.len() as int) == Some(
            (r, pre.len() + enc_record(r).len() as int),
        ),
{
    let full = pre + enc_record(r) + suf;
    let fields = be16(r.rtype) + be16(r.rclass) + be32(r.ttl) + be16(r.rdata.len() as u16)
        + r.rdata;
    assert(full =~= pre + r.name + (fields + suf));
    lemma_skip_name_frame(pre, r.name, fields + suf, 0);
    let e: int = pre.len() + r.name.len() as int;
    assert(skip_name(full, pre.len() as int) == Some(e));
    assert(enc_record(r).len() == r.name.len() + 10 + r.rdata.len());
    assert(full.len() == pre.len() + enc_record(r).len() + suf.len());
    assert forall|k: int| 0 <= k < 10 + r.rdata.len() implies full[e + k] == fields[k] by {
        assert(full[e + k] == (fields + suf)[k]);
    }
    lemma_be16_roundtrip(r.rtype);
    lemma_be16_roundtrip(r.rclass);
    lemma_be32_roundtrip(r.ttl);
    lemma_be16_roundtrip(r.rdata.len() as u16);
    assert(u16_of(full[e], full[e + 1]) == r.rtype as int);
    assert(u16_of(full[e + 2], full[e + 3]) == r.rclass as int);
    assert(u32_of(full[e + 4], full[e + 5], full[e + 6], full[e + 7]) == r.ttl as int);
    assert(u16_of(full[e + 8], full[e + 9]) == r.rdata.len());
    assert(full.subrange(pre.len() as int, e as int) =~= r.name);
    assert(full.subrange(e + 10, e + 10 + r.rdata.len()) =~= r.rdata);
    let parsed = parse_record(full, pre.len() as int).unwrap().0;
    assert(parsed =~= r) by {
        assert(parsed.name =~= r.name);
        assert(parsed.rdata =~= r.rdata);
    }
}

/// An encoded record list embedded in a buffer parses back to itself.
pub proof fn lemma_parse_records_of_enc(pre: Seq<u8>, rs: Seq<RecordView>, suf: Seq<u8>)
    requires
        forall|k: int| 0 <= k < rs.len() ==> wf_record(#[trigger] rs[k]),
    ensures
        parse_records(pre + enc_records(rs) + suf, pre.len() as int, rs.len()) == Some(
            (rs, pre.len() + enc_records(rs).len() as int),
        ),
    decreases rs.len(),
{
    let full = pre + enc_records(rs) + suf;
    if rs.len() == 0 {
        assert(enc_records(rs) =~= Seq::<u8>::empty());
        assert(parse_records(full, pre.len() as int, 0) == Some(
            (Seq::<RecordView>::empty(), pre.len() as int),
        ));
        assert(rs =~= Seq::<RecordView>::empty());
    } else {
        let head = rs[0];
        let tail = rs.subrange(1, rs.len() as int);
        assert(enc_records(rs) == enc_record(head) + enc_records(tail));
        assert(full =~= pre + enc_record(head) + (enc_records(tail) + suf));
        lemma_parse_record_of_enc(pre, head, enc_records(tail) + suf);
        let j: int = pre.len() + enc_record(head).len() as int;
        assert(parse_record(full, pre.len() as int) == Some((head, j)));
        let pre2 = pre + enc_record(head);
        assert(full =~= pre2 + enc_records(tail) + suf);
        assert(forall|k: int| 0 <= k < tail.len() ==> wf_record(#[trigger] tail[k]));
        lemma_parse_records_of_enc(pre2, tail, suf);
        assert(parse_records(full, j, tail.len()) == Some(
            (tail, pre2.len() + enc_records(tail).len() as int),
        ));
        assert(seq![head] + tail =~= rs);
        assert(pre2.len() + enc_records(tail).len() == pre.len() + enc_records(rs).len());
    }
}

// ---------------------------------------------------------------------
// Round trip: encoding a well-formed view parses back to the same view.
// ---------------------------------------------------------------------

/// The twelve header bytes of an encoded message.
proof fn lemma_enc_msg_header(v: MsgView)
    ensures
        enc_msg(v).len() == 12 + v.qname.len() + 4 + enc_records(v.records).len(),
        enc_msg(v)[0] == be16(v.id)[0],
        enc_msg(v)[1] == be16(v.id)[1],
        enc_msg(v)[2] == be16(v.flags)[0],
        enc_msg(v)[3] == be16(v.flags)[1],
        enc_msg(v)[4] == be16(1)[0],
        enc_msg(v)[5] == be16(1)[1],
        enc_msg(v)[6] == be16(v.ancount)[0],
        enc_msg(v)[7] == be16(v.ancount)[1],
        enc_msg(v)[8] == be16(v.nscount)[0],
        enc_msg(v)[9] == be16(v.nscount)[1],
        enc_msg(v)[10] == be16(v.arcount)[0],
        enc_msg(v)[11] == be16(v.arcount)[1],
        forall|k: int|
            0 <= k < v.qname.len() ==> enc_msg(v)[12 + k] == v.qname[k],
        enc_msg(v)[12 + v.qname.len() as int] == be16(v.qtype)[0],
        enc_msg(v)[12 + v.qname.len() as int + 1] == be16(v.qtype)[1],
        enc_msg(v)[12 + v.qname.len() as int + 2] == be16(v.qclass)[0],
        enc_msg(v)[12 + v.qname.len() as int + 3] == be16(v.qclass)[1],
        forall|k: int|
            0 <= k < enc_records(v.records).len() ==> enc_msg(v)[12 + v.qname.len() as int + 4 + k]
                == enc_records(v.records)[k],
{
}

/// Parsing the encoding of a structurally well-formed message gives the
/// message back.
pub proof fn lemma_parse_enc(v: MsgView)
    requires
        wf_msg(v),
        enc_msg(v).len() <= MAX_WIRE_LEN,
    ensures
        parse_msg(enc_msg(v)) == Some(v),
{
    let b = enc_msg(v);
    lemma_enc_msg_header(v);
    lemma_be16_roundtrip(v.id);
    lemma_be16_roundtrip(v.flags);
    lemma_be16_roundtrip(1);
    lemma_be16_roundtrip(v.ancount);
    lemma_be16_roundtrip(v.nscount);
    lemma_be16_roundtrip(v.arcount);
    lemma_be16_roundtrip(v.qtype);
    lemma_be16_roundtrip(v.qclass);
    assert(u16_of(b[4], b[5]) == 1);
    // question name
    let pre = b.subrange(0, 12);
    let qe: int = 12 + v.qname.len() as int;
    let suf = b.subrange(qe, b.len() as int);
    assert(b =~= pre + v.qname + suf);
    lemma_qname_end_frame(pre, v.qname, suf, 0);
    lemma_qname_end_bounds(v.qname, 0);
    assert(qname_end(b, 12) == Some(qe));
    assert(qe + 4 <= b.len());
    // records
    let pre2 = b.subrange(0, qe + 4);
    assert(b =~= pre2 + enc_records(v.records) + Seq::<u8>::empty());
    lemma_parse_records_of_enc(pre2, v.records, Seq::<u8>::empty());
    assert(parse_records(b, qe + 4, v.records.len()) == Some(
        (v.records, qe + 4 + enc_records(v.records).len() as int),
    ));
    assert(qe + 4 + enc_records(v.records).len() == b.len());
    assert((u16_of(b[6], b[7]) + u16_of(b[8], b[9]) + u16_of(b[10], b[11])) as nat
        == v.records.len());
    assert(b.subrange(12, qe) =~= v.qname);
    let parsed = parse_msg(b).unwrap();
    assert(parsed =~= v) by {
        assert(parsed.qname =~= v.qname);
    }
}


// ---------------------------------------------------------------------
// Inverse direction: a successful parse re-encodes to the same bytes.
// ---------------------------------------------------------------------

/// A parsed record is well-formed and re-encodes to its wire region.
pub proof fn lemma_parse_record_inv(b: Seq<u8>, i: int)
    requires
        0 <= i,
        parse_record(b, i) is Some,
    ensures
        ({
            let (r, j) = parse_record(b, i).unwrap();
            &&& wf_record(r)
            &&& i < j <= b.len()
            &&& enc_record(r) == b.subrange(i, j)
        }),
{
    let (r, j) = parse_record(b, i).unwrap();
    let e = skip_name(b, i).unwrap();
    lemma_skip_name_bounds(b, i);
    lemma_skip_name_sub(b, i, i);
    assert(wf_name(r.name));
    let rdlen = u16_of(b[e + 8], b[e + 9]);
    assert(r.rdata.len() == rdlen);
    lemma_be16_of_pair(b[e], b[e + 1]);
    lemma_be16_of_pair(b[e + 2], b[e + 3]);
    lemma_be32_of_quad(b[e + 4], b[e + 5], b[e + 6], b[e + 7]);
    lemma_be16_of_pair(b[e + 8], b[e + 9]);
    assert(r.rdata.len() as u16 == u16_of(b[e + 8], b[e + 9]) as u16);
    assert(enc_record(r) =~= b.subrange(i, j));
}

/// A parsed record list is well-formed and re-encodes to its wire region.
pub proof fn lemma_parse_records_inv(b: Seq<u8>, i: int, n: nat)
    requires
        0 <= i <= b.len(),
        parse_records(b, i, n) is Some,
    ensures
        ({
            let (rs, e) = parse_records(b, i, n).unwrap();
            &&& rs.len() == n
            &&& i <= e <= b.len()
            &&& forall|k: int| 0 <= k < rs.len() ==> wf_record(#[trigger] rs[k])
            &&& enc_records(rs) == b.subrange(i, e)
        }),
    decreases n,
{
    let (rs, e) = parse_records(b, i, n).unwrap();
    if n == 0 {
        assert(enc_records(rs) =~= b.subrange(i, i));
    } else {
        let (r0, j) = parse_record(b, i).unwrap();
        lemma_parse_record_inv(b, i);
        lemma_parse_records_inv(b, j, (n - 1) as nat);
        let (tail, e2) = parse_records(b, j, (n - 1) as nat).unwrap();
        assert(rs == seq![r0] + tail);
        assert(rs[0] == r0);
        assert(rs.subrange(1, rs.len() as int) =~= tail);
        assert(enc_records(rs) == enc_record(r0) + enc_records(tail));
        assert(enc_records(rs) =~= b.subrange(i, e));
    }
}

/// A parsed message is well-formed and re-encodes to the buffer it was
/// parsed from.
pub proof fn lemma_parse_msg_inv(b: Seq<u8>)
    requires
        parse_msg(b) is Some,
    ensures
        wf_msg(parse_msg(b).unwrap()),
        enc_msg(parse_msg(b).unwrap()) == b,
{
    let v = parse_msg(b).unwrap();
    let qe = qname_end(b, 12).unwrap();
    lemma_qname_end_bounds(b, 12);
    lemma_qname_end_sub(b, 12, 12);
    assert(wf_qname(v.qname));
    let n = (u16_of(b[6], b[7]) + u16_of(b[8], b[9]) + u16_of(b[10], b[11])) as nat;
    lemma_parse_records_inv(b, qe + 4, n);
    let (rs, e) = parse_records(b, qe + 4, n).unwrap();
    assert(e == b.len());
    assert(v.records.len() == v.ancount + v.nscount + v.arcount);
    assert(wf_msg(v));
    lemma_be16_of_pair(b[0], b[1]);
    lemma_be16_of_pair(b[2], b[3]);
    lemma_be16_of_pair(b[4], b[5]);
    lemma_be16_of_pair(b[6], b[7]);
    lemma_be16_of_pair(b[8], b[9]);
    lemma_be16_of_pair(b[10], b[11]);
    lemma_be16_of_pair(b[qe], b[qe + 1]);
    lemma_be16_of_pair(b[qe + 2], b[qe + 3]);
    assert(u16_of(b[4], b[5]) == 1);
    assert(be16(1) == seq![b[4], b[5]]);
    assert(enc_records(v.records) == b.subrange(qe + 4, b.len() as int));
    assert(enc_msg(v) =~= b);
}

// ---------------------------------------------------------------------
// Restamping and TTL decay
// ---------------------------------------------------------------------

/// A record with its TTL decreased by `elapsed`.
pub open spec fn adjust_record(r: RecordView, elapsed: u32) -> RecordView {
    RecordView {
        name: r.name,
        rtype: r.rtype,
        rclass: r.rclass,
        ttl: (r.ttl - elapsed) as u32,
        rdata: r.rdata,
    }
}

/// The message restamped with a new id, every record TTL decreased by
/// `elapsed`.
pub open spec fn adjust_msg(v: MsgView, new_id: u16, elapsed: u32) -> MsgView {
    MsgView {
        id: new_id,
        flags: v.flags,
        qname: v.qname,
        qtype: v.qtype,
        qclass: v.qclass,
        ancount: v.ancount,
        nscount: v.nscount,
        arcount: v.arcount,
        records: v.records.map_values(|r: RecordView| adjust_record(r, elapsed)),
    }
}

/// Adjusting keeps record lists the same encoded length.
proof fn lemma_adjust_records_len(rs: Seq<RecordView>, elapsed: u32)
    ensures
        enc_records(rs.map_values(|r: RecordView| adjust_record(r, elapsed))).len()
            == enc_records(rs).len(),
    decreases rs.len(),
{
    let mapped = rs.map_values(|r: RecordView| adjust_record(r, elapsed));
    if rs.len() == 0 {
    } else {
        let tail = rs.subrange(1, rs.len() as int);
        assert(mapped.subrange(1, mapped.len() as int) =~= tail.map_values(
            |r: RecordView| adjust_record(r, elapsed),
        ));
        lemma_adjust_records_len(tail, elapsed);
        assert(enc_record(mapped[0]).len() == enc_record(rs[0]).len());
    }
}

/// Adjusting preserves structural well-formedness and encoded length.
pub proof fn lemma_adjust_msg_wf(v: MsgView, new_id: u16, elapsed: u32)
    requires
        wf_msg(v),
    ensures
        wf_msg(adjust_msg(v, new_id, elapsed)),
        enc_msg(adjust_msg(v, new_id, elapsed)).len() == enc_msg(v).len(),
{
    let w = adjust_msg(v, new_id, elapsed);
    assert(forall|k: int| 0 <= k < w.records.len() ==> wf_record(#[trigger] w.records[k])) by {
        assert(forall|k: int|
            0 <= k < w.records.len() ==> w.records[k] == adjust_record(
                v.records[k],
                elapsed,
            ));
    }
    lemma_adjust_records_len(v.records, elapsed);
}

// ---------------------------------------------------------------------
// Executable encoder
// ---------------------------------------------------------------------

/// Appending one record extends an encoded record list.
proof fn lemma_enc_records_snoc(rs: Seq<RecordView>, k: int)
    requires
        0 <= k < rs.len(),
    ensures
        enc_records(rs.take(k + 1)) == enc_records(rs.take(k)) + enc_record(rs[k]),
    decreases k,
{
    if k == 0 {
        assert(rs.take(1) =~= seq![rs[0]]);
        assert(rs.take(1).subrange(1, 1) =~= Seq::<RecordView>::empty());
        assert(rs.take(0) =~= Seq::<RecordView>::empty());
        assert(enc_records(rs.take(1)) =~= enc_records(rs.take(0)) + enc_record(rs[0]));
    } else {
        let t = rs.subrange(1, rs.len() as int);
        assert(rs.take(k + 1)[0] == rs[0]);
        assert(rs.take(k + 1).subrange(1, k + 1) =~= t.take(k));
        assert(rs.take(k).subrange(1, k) =~= t.take(k - 1));
        assert(rs.take(k)[0] == rs[0]);
        lemma_enc_records_snoc(t, k - 1);
        assert(t[k - 1] == rs[k]);
        assert(enc_records(rs.take(k + 1)) == enc_record(rs[0]) + enc_records(t.take(k)));
        assert(enc_records(rs.take(k)) == enc_record(rs[0]) + enc_records(t.take(k - 1)));
        assert(enc_record(rs[0]) + (enc_records(t.take(k - 1)) + enc_record(rs[k])) =~= (
        enc_record(rs[0]) + enc_records(t.take(k - 1))) + enc_record(rs[k]));
    }
}

/// Append the encoding of one record.
fn encode_record(out: &mut Vec<u8>, rec: &DnsRecord)
    requires
        wf_record(rec@),
    ensures
        final(out)@ == old(out)@ + enc_record(rec@),
{
    extend_bytes(out, &rec.name);
    push_u16(out, rec.rtype);
    push_u16(out, rec.rclass);
    push_u32(out, rec.ttl);
    push_u16(out, rec.rdata.len() as u16);
    extend_bytes(out, &rec.rdata);
    assert(out@ =~= old(out)@ + enc_record(rec@));
}

/// Encode a whole message, as [`enc_msg`].
pub fn encode(m: &DnsMessage) -> (r: Vec<u8>)
    requires
        wf_msg(m@),
    ensures
        r@ == enc_msg(m@),
{
    let mut out: Vec<u8> = Vec::new();
    push_u16(&mut out, m.id);
    push_u16(&mut out, m.flags);
    push_u16(&mut out, 1);
    push_u16(&mut out, m.ancount);
    push_u16(&mut out, m.nscount);
    push_u16(&mut out, m.arcount);
    extend_bytes(&mut out, &m.qname);
    push_u16(&mut out, m.qtype);
    push_u16(&mut out, m.qclass);
    let ghost prefix = out@;
    let mut i: usize = 0;
    while i < m.records.len()
        invariant
            i <= m.records@.len(),
            wf_msg(m@),
            out@ == prefix + enc_records(m@.records.take(i as int)),
        decreases m.records@.len() - i,
    {
        proof {
            assert(wf_record(m@.records[i as int]));
            lemma_enc_records_snoc(m@.records, i as int);
        }
        encode_record(&mut out, &m.records[i]);
        i = i + 1;
        assert(out@ =~= prefix + enc_records(m@.records.take(i as int)));
    }
    proof {
        assert(m@.records.take(m.records@.len() as int) =~= m@.records);
        assert(out@ =~= enc_msg(m@));
    }
    out
}


// ---------------------------------------------------------------------
// Validation entry points
// ---------------------------------------------------------------------

impl DnsMessage {
    /// Transaction id.
    pub fn id(&self) -> (r: u16)
        ensures
            r == self@.id,
    {
        self.id
    }

    /// Response code of the flags word.
    pub fn response_code(&self) -> (r: u16)
        ensures
            r as int == rcode_of(self@.flags),
    {
        self.flags % 16
    }
}

/// Accept the buffer as a DNS query: it parses, QR is 0 and the opcode
/// is QUERY.
pub fn is_query(b: &[u8]) -> (r: Result<DnsMessage, DapError>)
    ensures
        match r {
            Ok(m) => valid_query(b@) && parse_msg(b@) == Some(m@),
            Err(e) => !valid_query(b@) && e == DapError::InvalidDnsQuery,
        },
{
    match decode(b) {
        None => Err(DapError::InvalidDnsQuery),
        Some(m) => {
            if m.flags < 0x8000 && (m.flags / 0x0800) % 16 == 0 {
                Ok(m)
            } else {
                Err(DapError::InvalidDnsQuery)
            }
        },
    }
}

/// Accept the buffer as a DNS response: it parses and QR is 1.
pub fn is_response(b: &[u8]) -> (r: Result<DnsMessage, DapError>)
    ensures
        match r {
            Ok(m) => valid_response(b@) && parse_msg(b@) == Some(m@),
            Err(e) => !valid_response(b@) && e == DapError::InvalidDnsResponse,
        },
{
    match decode(b) {
        None => Err(DapError::InvalidDnsResponse),
        Some(m) => {
            if m.flags >= 0x8000 {
                Ok(m)
            } else {
                Err(DapError::InvalidDnsResponse)
            }
        },
    }
}

// ---------------------------------------------------------------------
// TTL inspection and decay
// ---------------------------------------------------------------------

/// Smallest TTL among all records, `None` when there is no record.
pub fn min_ttl(m: &DnsMessage) -> (r: Option<u32>)
    ensures
        (r is None) <==> m@.records.len() == 0,
        match r {
            Some(t) => (exists|k: int|
                0 <= k < m@.records.len() && m@.records[k].ttl == t) && (forall|k: int|
                0 <= k < m@.records.len() ==> #[trigger] m@.records[k].ttl >= t),
            None => true,
        },
{
    if m.records.len() == 0 {
        return None;
    }
    let mut t: u32 = m.records[0].ttl;
    let mut i: usize = 1;
    let ghost mut min_idx: int = 0;
    while i < m.records.len()
        invariant
            1 <= i <= m.records@.len(),
            0 <= min_idx < i,
            m@.records[min_idx].ttl == t,
            forall|k: int| 0 <= k < i ==> #[trigger] m@.records[k].ttl >= t,
        decreases m.records@.len() - i,
    {
        if m.records[i].ttl < t {
            t = m.records[i].ttl;
            proof {
                min_idx = i as int;
            }
        }
        i = i + 1;
    }
    assert(m@.records[min_idx].ttl == t);
    Some(t)
}

/// Restamp the id and decrease every record TTL by `elapsed`.
pub fn adjusted(m: &DnsMessage, new_id: u16, elapsed: u32) -> (r: DnsMessage)
    requires
        forall|k: int| 0 <= k < m@.records.len() ==> #[trigger] m@.records[k].ttl >= elapsed,
    ensures
        r@ == adjust_msg(m@, new_id, elapsed),
{
    let mut records: Vec<DnsRecord> = Vec::new();
    let mut i: usize = 0;
    while i < m.records.len()
        invariant
            i <= m.records@.len(),
            records@.len() == i,
            forall|k: int| 0 <= k < m@.records.len() ==> #[trigger] m@.records[k].ttl >= elapsed,
            forall|j: int|
                0 <= j < i ==> records@[j]@ == adjust_record(m@.records[j], elapsed),
        decreases m.records@.len() - i,
    {
        let rec = &m.records[i];
        assert(m@.records[i as int].ttl >= elapsed);
        records.push(
            DnsRecord {
                name: clone_bytes(&rec.name),
                rtype: rec.rtype,
                rclass: rec.rclass,
                ttl: rec.ttl - elapsed,
                rdata: clone_bytes(&rec.rdata),
            },
        );
        i = i + 1;
    }
    let r = DnsMessage {
        id: new_id,
        flags: m.flags,
        qname: clone_bytes(&m.qname),
        qtype: m.qtype,
        qclass: m.qclass,
        ancount: m.ancount,
        nscount: m.nscount,
        arcount: m.arcount,
        records,
    };
    assert(r@.records =~= adjust_msg(m@, new_id, elapsed).records);
    r
}

// ---------------------------------------------------------------------
// Question-name normalization (cache fingerprint)
// ---------------------------------------------------------------------

/// ASCII lowercase of one byte.
pub open spec fn lower_byte(b: u8) -> u8 {
    if 65 <= b && b <= 90 {
        (b + 32) as u8
    } else {
        b
    }
}

/// ASCII lowercase of a byte string.
pub open spec fn lower(s: Seq<u8>) -> Seq<u8> {
    s.map_values(|b: u8| lower_byte(b))
}

/// ASCII-lowercased copy of a byte vector.
pub fn lower_bytes(v: &Vec<u8>) -> (r: Vec<u8>)
    ensures
        r@ == lower(v@),
{
    let mut r: Vec<u8> = Vec::new();
    let mut i: usize = 0;
    while i < v.len()
        invariant
            i <= v@.len(),
            r@.len() == i,
            forall|j: int| 0 <= j < i ==> r@[j] == lower_byte(v@[j]),
        decreases v@.len() - i,
    {
        let b = v[i];
        if 65 <= b && b <= 90 {
            r.push(b + 32);
        } else {
            r.push(b);
        }
        i = i + 1;
    }
    assert(r@ =~= lower(v@));
    r
}

// ---------------------------------------------------------------------
// A-record extraction (self-resolution)
// ---------------------------------------------------------------------

/// One IPv4 address, as the four bytes of an A record.
#[derive(Clone, Copy, Debug, PartialEq, Eq, Structural)]
pub struct Ipv4Quad {
    pub a: u8,
    pub b: u8,
    pub c: u8,
    pub d: u8,
}

/// An A record of the IN class with a four-byte address.
pub open spec fn is_a_record(r: RecordView) -> bool {
    r.rtype == 1 && r.rclass == 1 && r.rdata.len() == 4
}

pub open spec fn quad_of(r: RecordView) -> Ipv4Quad {
    Ipv4Quad { a: r.rdata[0], b: r.rdata[1], c: r.rdata[2], d: r.rdata[3] }
}

/// Addresses of the A records in a record list, in order.
pub open spec fn a_addrs(rs: Seq<RecordView>) -> Seq<Ipv4Quad>
    decreases rs.len(),
{
    if rs.len() == 0 {
        Seq::empty()
    } else {
        (if is_a_record(rs[0]) {
            seq![quad_of(rs[0])]
        } else {
            Seq::empty()
        }) + a_addrs(rs.subrange(1, rs.len() as int))
    }
}

/// Extending a record list extends its A-record addresses.
proof fn lemma_a_addrs_snoc(rs: Seq<RecordView>, k: int)
    requires
        0 <= k < rs.len(),
    ensures
        a_addrs(rs.take(k + 1)) == a_addrs(rs.take(k)) + (if is_a_record(rs[k]) {
            seq![quad_of(rs[k])]
        } else {
            Seq::<Ipv4Quad>::empty()
        }),
    decreases k,
{
    let add = if is_a_record(rs[k]) {
        seq![quad_of(rs[k])]
    } else {
        Seq::<Ipv4Quad>::empty()
    };
    if k == 0 {
        assert(rs.take(1) =~= seq![rs[0]]);
        assert(rs.take(1).subrange(1, 1) =~= Seq::<RecordView>::empty());
        assert(rs.take(0) =~= Seq::<RecordView>::empty());
        assert(a_addrs(rs.take(1)) =~= a_addrs(rs.take(0)) + add);
    } else {
        let t = rs.subrange(1, rs.len() as int);
        assert(rs.take(k + 1)[0] == rs[0]);
        assert(rs.take(k + 1).subrange(1, k + 1) =~= t.take(k));
        assert(rs.take(k)[0] == rs[0]);
        assert(rs.take(k).subrange(1, k) =~= t.take(k - 1));
        lemma_a_addrs_snoc(t, k - 1);
        assert(t[k - 1] == rs[k]);
        let h = if is_a_record(rs[0]) {
            seq![quad_of(rs[0])]
        } else {
            Seq::<Ipv4Quad>::empty()
        };
        assert(a_addrs(rs.take(k + 1)) == h + a_addrs(t.take(k)));
        assert(a_addrs(rs.take(k)) == h + a_addrs(t.take(k - 1)));
        assert(h + (a_addrs(t.take(k - 1)) + add) =~= (h + a_addrs(t.take(k - 1))) + add);
    }
}

/// Addresses of the A records among the answers (the first `ancount`
/// records) of a response.
pub fn answer_a_records(m: &DnsMessage) -> (r: Vec<Ipv4Quad>)
    requires
        m@.ancount <= m@.records.len(),
    ensures
        r@ == a_addrs(m@.records.take(m@.ancount as int)),
{
    let mut r: Vec<Ipv4Quad> = Vec::new();
    let mut i: usize = 0;
    let n = m.ancount as usize;
    while i < n
        invariant
            i <= n,
            n == m@.ancount,
            n <= m.records@.len(),
            r@ == a_addrs(m@.records.take(i as int)),
        decreases n - i,
    {
        proof {
            lemma_a_addrs_snoc(m@.records, i as int);
        }
        let rec = &m.records[i];
        if rec.rtype == 1 && rec.rclass == 1 && rec.rdata.len() == 4 {
            r.push(Ipv4Quad { a: rec.rdata[0], b: rec.rdata[1], c: rec.rdata[2], d: rec.rdata[3] });
            assert(r@ =~= a_addrs(m@.records.take(i + 1)));
        } else {
            assert(r@ =~= a_addrs(m@.records.take(i + 1)));
        }
        i = i + 1;
    }
    r
}

// ---------------------------------------------------------------------
// Building a minimal A query (self-resolution)
// ---------------------------------------------------------------------

/// First dot at or after `i`.
pub open spec fn dot_pos(s: Seq<u8>, i: int) -> Option<int>
    decreases s.len() - i,
{
    if i < 0 || i >= s.len() {
        None
    } else if s[i] == 46 {
        Some(i)
    } else {
        dot_pos(s, i + 1)
    }
}

/// Wire label sequence of the dotted name from `i` on: every label is 1
/// to 63 bytes, the name ends with a trailing dot, labels keep their
/// bytes. `None` when the text is not such a name.
pub open spec fn dotted_to_wire(s: Seq<u8>, i: int) -> Option<Seq<u8>>
    decreases s.len() - i,
{
    if i < 0 {
        None
    } else if i == s.len() {
        Some(seq![0u8])
    } else {
        match dot_pos(s, i) {
            None => None,
            Some(p) => if i < p && p < s.len() && p - i <= 63 {
                match dotted_to_wire(s, p + 1) {
                    None => None,
                    Some(rest) => Some(seq![(p - i) as u8] + s.subrange(i, p) + rest),
                }
            } else {
                None
            },
        }
    }
}

/// A wire name built from a dotted name is self-delimiting.
pub proof fn lemma_dotted_wf(s: Seq<u8>, i: int)
    requires
        dotted_to_wire(s, i) is Some,
    ensures
        wf_qname(dotted_to_wire(s, i).unwrap()),
        1 <= dotted_to_wire(s, i).unwrap().len(),
    decreases s.len() - i,
{
    let q = dotted_to_wire(s, i).unwrap();
    if i == s.len() {
        assert(qname_end(q, 0) == Some(1int));
    } else {
        let p = dot_pos(s, i).unwrap();
        let rest = dotted_to_wire(s, p + 1).unwrap();
        lemma_dotted_wf(s, p + 1);
        let l = p - i;
        let pre = seq![l as u8] + s.subrange(i, p);
        assert(q =~= pre + rest + Seq::<u8>::empty());
        lemma_qname_end_frame(pre, rest, Seq::<u8>::empty(), 0);
        assert(q[0] == l as u8);
        assert(qname_end(q, 0) == qname_end(q, 1 + l));
        assert(qname_end(q, 0) == Some(q.len() as int));
    }
}

/// First dot at or after `i0`, as [`dot_pos`].
fn dot_pos_x(s: &Vec<u8>, i0: usize) -> (r: Option<usize>)
    ensures
        match r {
            Some(p) => dot_pos(s@, i0 as int) == Some(p as int),
            None => dot_pos(s@, i0 as int) is None,
        },
{
    let mut i: usize = i0;
    loop
        invariant
            dot_pos(s@, i0 as int) == dot_pos(s@, i as int),
            i0 <= i,
        decreases s@.len() - i,
    {
        if i >= s.len() {
            return None;
        }
        if s[i] == 46 {
            return Some(i);
        }
        i = i + 1;
    }
}

/// Wire label sequence of a dotted name, as [`dotted_to_wire`].
fn dotted_to_wire_x(s: &Vec<u8>, i: usize) -> (r: Option<Vec<u8>>)
    requires
        i <= s@.len(),
    ensures
        match r {
            Some(q) => dotted_to_wire(s@, i as int) == Some(q@),
            None => dotted_to_wire(s@, i as int) is None,
        },
    decreases s@.len() - i,
{
    if i == s.len() {
        let mut q: Vec<u8> = Vec::new();
        q.push(0);
        assert(q@ =~= seq![0u8]);
        return Some(q);
    }
    let p = match dot_pos_x(s, i) {
        Some(p) => p,
        None => {
            return None;
        },
    };
    proof {
        lemma_dot_pos_bounds(s@, i as int);
    }
    if i < p && p - i <= 63 {
        match dotted_to_wire_x(s, p + 1) {
            None => None,
            Some(rest) => {
                let mut q: Vec<u8> = Vec::new();
                q.push((p - i) as u8);
                let mut k: usize = i;
                while k < p
                    invariant
                        i <= k <= p <= s@.len(),
                        q@ == seq![(p - i) as u8] + s@.subrange(i as int, k as int),
                    decreases p - k,
                {
                    q.push(s[k]);
                    k = k + 1;
                    assert(q@ =~= seq![(p - i) as u8] + s@.subrange(i as int, k as int));
                }
                extend_bytes(&mut q, &rest);
                assert(q@ =~= seq![(p - i) as u8] + s@.subrange(i as int, p as int) + rest@);
                Some(q)
            },
        }
    } else {
        None
    }
}

/// A successful dot search lands inside the buffer, at or after `i`.
proof fn lemma_dot_pos_bounds(s: Seq<u8>, i: int)
    requires
        dot_pos(s, i) is Some,
    ensures
        i <= dot_pos(s, i).unwrap() < s.len(),
    decreases s.len() - i,
{
    if s[i] == 46 {
    } else {
        lemma_dot_pos_bounds(s, i + 1);
    }
}

/// Build a minimal A-record query (recursion desired, one question, no
/// records) for a dotted fully-qualified name with a trailing dot.
pub fn build_query_a(fqdn: &Vec<u8>, id: u16) -> (r: Result<DnsMessage, DapError>)
    ensures
        match r {
            Ok(m) => {
                &&& dotted_to_wire(fqdn@, 0) == Some(m@.qname)
                &&& fqdn@.len() <= 255
                &&& wf_msg(m@)
                &&& m@.id == id
                &&& m@.qtype == 1
                &&& m@.qclass == 1
                &&& m@.records.len() == 0
                &&& qr_of(m@.flags) == 0
                &&& opcode_of(m@.flags) == 0
                &&& enc_msg(m@).len() <= MAX_WIRE_LEN
            },
            Err(e) => (dotted_to_wire(fqdn@, 0) is None || fqdn@.len() > 255) && e
                == DapError::InvalidDnsQuery,
        },
{
    if fqdn.len() > 255 {
        return Err(DapError::InvalidDnsQuery);
    }
    let qname = match dotted_to_wire_x(fqdn, 0) {
        Some(q) => q,
        None => {
            return Err(DapError::InvalidDnsQuery);
        },
    };
    proof {
        lemma_dotted_wf(fqdn@, 0);
        lemma_dotted_len(fqdn@, 0);
    }
    let m = DnsMessage {
        id,
        flags: 0x0100,
        qname,
        qtype: 1,
        qclass: 1,
        ancount: 0,
        nscount: 0,
        arcount: 0,
        records: Vec::new(),
    };
    assert(m@.records =~= Seq::<RecordView>::empty());
    assert(enc_msg(m@).len() == 12 + m@.qname.len() + 4 + enc_records(m@.records).len());
    Ok(m)
}

/// The wire form of a dotted name is at most two bytes longer than the
/// text.
proof fn lemma_dotted_len(s: Seq<u8>, i: int)
    requires
        dotted_to_wire(s, i) is Some,
    ensures
        dotted_to_wire(s, i).unwrap().len() <= s.len() - i + 2,
    decreases s.len() - i,
{
    if i == s.len() {
    } else {
        let p = dot_pos(s, i).unwrap();
        lemma_dotted_len(s, p + 1);
    }
}


/// Round trip of a stored response: restamping the caller's id and
/// decaying the TTLs yields wire bytes that decode to a response with
/// that id, the original question, and the original answers.
pub proof fn lemma_restamped_response_decodes(v: MsgView, new_id: u16, elapsed: u32)
    requires
        wf_msg(v),
        enc_msg(v).len() <= MAX_WIRE_LEN,
    ensures
        parse_msg(enc_msg(adjust_msg(v, new_id, elapsed))) == Some(adjust_msg(v, new_id, elapsed)),
        adjust_msg(v, new_id, elapsed).id == new_id,
        adjust_msg(v, new_id, elapsed).qname == v.qname,
        adjust_msg(v, new_id, elapsed).qtype == v.qtype,
        adjust_msg(v, new_id, elapsed).qclass == v.qclass,
        adjust_msg(v, new_id, elapsed).flags == v.flags,
        adjust_msg(v, new_id, elapsed).records.len() == v.records.len(),
        forall|k: int|
            0 <= k < v.records.len() ==> (#[trigger] adjust_msg(v, new_id, elapsed).records[k])
                == adjust_record(v.records[k], elapsed),
{
    lemma_adjust_msg_wf(v, new_id, elapsed);
    lemma_parse_enc(adjust_msg(v, new_id, elapsed));
}

} // verus!
