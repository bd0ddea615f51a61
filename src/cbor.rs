//! Content-addressed units: the DAG-CBOR encoding of a proof fragment or of a
//! list of links, and the content identifier derived from that encoding.
use libipld::cbor::DagCborCodec;
use libipld::codec::Codec;
use libipld::multihash::Code;
use libipld::{Block, Cid, DefaultParams, Ipld, IpldCodec};
use vstd::prelude::*;

verus! {

/// Largest encoding, in bytes, that the block store's parameters admit.
pub const MAX_UNIT_SIZE: usize = 1_048_576;

/// The last `k` bytes of `n` in big-endian order.
pub open spec fn be_bytes(n: nat, k: nat) -> Seq<u8>
    decreases k,
{
    if k == 0 {
        Seq::empty()
    } else {
        be_bytes(n / 256, (k - 1) as nat).push((n % 256) as u8)
    }
}

/// CBOR head for major type `major` and argument `n`, in its shortest form.
pub open spec fn cbor_head(major: u8, n: nat) -> Seq<u8> {
    let m = (major as nat) * 32;
    if n <= 23 {
        seq![(m + n) as u8]
    } else if n < 0x100 {
        seq![(m + 24) as u8] + be_bytes(n, 1)
    } else if n < 0x1_0000 {
        seq![(m + 25) as u8] + be_bytes(n, 2)
    } else if n < 0x1_0000_0000 {
        seq![(m + 26) as u8] + be_bytes(n, 4)
    } else {
        seq![(m + 27) as u8] + be_bytes(n, 8)
    }
}

/// A byte string.
pub open spec fn cbor_bytes(p: Seq<u8>) -> Seq<u8> {
    cbor_head(2, p.len()) + p
}

/// A link: tag 42 over the identifier's bytes behind a zero prefix.
pub open spec fn cbor_link(cid: Seq<u8>) -> Seq<u8> {
    cbor_head(6, 42) + cbor_head(2, cid.len() + 1) + seq![0u8] + cid
}

/// The links of `ls`, one after the other, in order.
pub open spec fn cbor_link_items(ls: Seq<Seq<u8>>) -> Seq<u8>
    decreases ls.len(),
{
    if ls.len() == 0 {
        Seq::empty()
    } else {
        cbor_link_items(ls.drop_last()) + cbor_link(ls.last())
    }
}

/// A list of links.
pub open spec fn cbor_links(ls: Seq<Seq<u8>>) -> Seq<u8> {
    cbor_head(4, ls.len()) + cbor_link_items(ls)
}

/// The BLAKE3-256 digest that the block encoder computes over an encoding.
pub uninterp spec fn blake3_digest(data: Seq<u8>) -> Seq<u8>;

/// Version-1 identifier of a DAG-CBOR unit (codec 0x71) whose multihash is
/// BLAKE3-256 (code 0x1e, 32 bytes) of the encoding.
pub open spec fn cid_for(data: Seq<u8>) -> Seq<u8> {
    seq![0x01u8, 0x71u8, 0x1eu8, 0x20u8] + blake3_digest(data)
}

/// A value to be stored as one content-addressed unit.
pub enum Unit {
    /// Raw proof bytes.
    Bytes(Vec<u8>),
    /// An ordered list of links, each given by an identifier's bytes.
    Links(Vec<Vec<u8>>),
}

pub open spec fn link_views(ls: Seq<Vec<u8>>) -> Seq<Seq<u8>> {
    ls.map_values(|l: Vec<u8>| l@)
}

/// The encoding of a unit.
pub open spec fn unit_encoding(u: Unit) -> Seq<u8> {
    match u {
        Unit::Bytes(b) => cbor_bytes(b@),
        Unit::Links(ls) => cbor_links(link_views(ls@)),
    }
}

/// An encoded unit: its identifier's bytes and its encoding.
pub struct Encoded {
    pub cid: Vec<u8>,
    pub data: Vec<u8>,
}

/// The block encoder refused the unit.
pub struct EncodeError;

/// Identifier bytes of the shape this library produces: version 1, DAG-CBOR
/// codec, BLAKE3-256 multihash, then a 32-byte digest.
pub open spec fn well_formed_link(l: Seq<u8>) -> bool {
    &&& l.len() == 36
    &&& l.take(4) == seq![0x01u8, 0x71u8, 0x1eu8, 0x20u8]
}

/// A unit whose encoding is determined: proof bytes, or links that are all
/// well formed.
pub open spec fn unit_well_formed(u: Unit) -> bool {
    match u {
        Unit::Bytes(_) => true,
        Unit::Links(ls) => forall|i: int| 0 <= i < ls@.len() ==> well_formed_link(#[trigger] ls@[i]@),
    }
}

/// An identifier derived from a 32-byte digest is a well-formed link.
pub proof fn lemma_cid_well_formed(data: Seq<u8>)
    requires
        blake3_digest(data).len() == 32,
    ensures
        well_formed_link(cid_for(data)),
{
    assert(cid_for(data).take(4) =~= seq![0x01u8, 0x71u8, 0x1eu8, 0x20u8]);
}

/// Relies on libipld's `Block::encode` with DAG-CBOR and BLAKE3-256: the
/// encoding is the shortest-form CBOR above, the identifier is CIDv1 over the
/// digest of the encoding, and only an encoding over the size limit is
/// refused. Links are read with `Cid::try_from`, which reads back a
/// well-formed link as the same identifier.
#[verifier::external_body]
pub(crate) fn encode_unit(u: Unit) -> (r: Result<Encoded, EncodeError>)
    ensures
        unit_well_formed(u) && r is Ok ==> r->Ok_0.data@ == unit_encoding(u),
        unit_well_formed(u) && r is Ok ==> r->Ok_0.cid@ == cid_for(r->Ok_0.data@),
        unit_well_formed(u) && r is Ok ==> blake3_digest(r->Ok_0.data@).len() == 32,
        unit_well_formed(u) ==> (r is Ok <==> unit_encoding(u).len() <= MAX_UNIT_SIZE),
{
    let ipld = match u {
        Unit::Bytes(b) => Ipld::Bytes(b),
        Unit::Links(ls) => match ls.iter().map(|l| Cid::try_from(&l[..]).map(Ipld::Link)).collect() {
            Ok(links) => Ipld::List(links),
            Err(_) => return Err(EncodeError),
        },
    };
    match Block::<DefaultParams>::encode(IpldCodec::DagCbor, Code::Blake3_256, &ipld) {
        Ok(b) => Ok(Encoded { cid: b.cid().to_bytes(), data: b.into_inner().1 }),
        Err(_) => Err(EncodeError),
    }
}

/// Relies on libipld's DAG-CBOR decoder: a byte string in shortest form
/// decodes to its bytes. Only such input is handed to it, so the length it
/// reads never exceeds the bytes at hand.
#[verifier::external_body]
pub(crate) fn decode_bytes(data: &Vec<u8>) -> (r: Option<Vec<u8>>)
    requires
        exists|p: Seq<u8>| #[trigger] cbor_bytes(p) == data@,
    ensures
        forall|p: Seq<u8>| #[trigger] cbor_bytes(p) == data@ ==> r is Some && r->Some_0@ == p,
{
    match DagCborCodec.decode::<Ipld>(data) {
        Ok(Ipld::Bytes(b)) => Some(b),
        _ => None,
    }
}

/// The last `k` bytes of `n`, big-endian.
fn be_bytes_exec(n: u64, k: u64) -> (r: Vec<u8>)
    ensures
        r@ == be_bytes(n as nat, k as nat),
    decreases k,
{
    if k == 0 {
        Vec::new()
    } else {
        let mut v = be_bytes_exec(n / 256, k - 1);
        v.push((n % 256) as u8);
        v
    }
}

proof fn lemma_be_bytes_len(n: nat, k: nat)
    ensures
        be_bytes(n, k).len() == k,
    decreases k,
{
    if k > 0 {
        lemma_be_bytes_len(n / 256, (k - 1) as nat);
    }
}

/// The head of a byte string of length `n`.
fn byte_string_head(n: u64) -> (r: Vec<u8>)
    ensures
        r@ == cbor_head(2, n as nat),
{
    let (first, k): (u8, u64) = if n <= 23 {
        (0x40 + n as u8, 0)
    } else if n < 0x100 {
        (0x58, 1)
    } else if n < 0x1_0000 {
        (0x59, 2)
    } else if n < 0x1_0000_0000 {
        (0x5a, 4)
    } else {
        (0x5b, 8)
    };
    let mut head = vec![first];
    let mut tail = be_bytes_exec(n, k);
    head.append(&mut tail);
    proof {
        if n <= 23 {
            assert(head@ =~= cbor_head(2, n as nat));
        } else {
            assert(head@ =~= cbor_head(2, n as nat));
        }
    }
    head
}

/// Whether `data` starts with the `hl`-byte head of a byte string holding
/// exactly the rest of `data`.
fn head_fits(data: &Vec<u8>, hl: usize) -> (r: bool)
    ensures
        r == (hl <= data@.len() && cbor_head(2, (data@.len() - hl) as nat) == data@.take(hl as int)),
{
    if hl > data.len() {
        return false;
    }
    let n: u64 = (data.len() - hl) as u64;
    assert(n as nat == (data@.len() - hl) as nat);
    let head = byte_string_head(n);
    if head.len() != hl {
        assert(head@.len() != data@.take(hl as int).len());
        return false;
    }
    let mut i: usize = 0;
    while i < hl
        invariant
            hl <= data@.len(),
            head@.len() == hl,
            head@ == cbor_head(2, (data@.len() - hl) as nat),
            i <= hl,
            forall|j: int| 0 <= j < i ==> head@[j] == data@[j],
        decreases hl - i,
    {
        if head[i] != data[i] {
            assert(head@[i as int] != data@.take(hl as int)[i as int]);
            assert(head@ != data@.take(hl as int));
            return false;
        }
        i = i + 1;
    }
    assert(head@ =~= data@.take(hl as int));
    true
}

/// Decodes a byte string from its shortest-form encoding; `None` for any
/// other input.
pub(crate) fn decode_byte_string(data: &Vec<u8>) -> (r: Option<Vec<u8>>)
    ensures
        r is Some <==> exists|p: Seq<u8>| #[trigger] cbor_bytes(p) == data@,
        r is Some ==> cbor_bytes(r->Some_0@) == data@,
        forall|p: Seq<u8>| #[trigger] cbor_bytes(p) == data@ ==> r is Some && r->Some_0@ == p,
{
    proof {
        assert forall|p: Seq<u8>| #[trigger] cbor_bytes(p) == data@ implies ({
            let hl = cbor_head(2, p.len()).len();
            &&& (hl == 1 || hl == 2 || hl == 3 || hl == 5 || hl == 9)
            &&& hl <= data@.len()
            &&& cbor_head(2, (data@.len() - hl) as nat) == data@.take(hl as int)
        }) by {
            let n = p.len();
            lemma_be_bytes_len(n, 1);
            lemma_be_bytes_len(n, 2);
            lemma_be_bytes_len(n, 4);
            lemma_be_bytes_len(n, 8);
            let h = cbor_head(2, n);
            assert(data@.len() - h.len() == n);
            assert(data@.take(h.len() as int) =~= h);
        }
    }
    let f1 = head_fits(data, 1);
    let f2 = head_fits(data, 2);
    let f3 = head_fits(data, 3);
    let f5 = head_fits(data, 5);
    let f9 = head_fits(data, 9);
    if f1 || f2 || f3 || f5 || f9 {
        let ghost hl: int = if f1 {
            1
        } else if f2 {
            2
        } else if f3 {
            3
        } else if f5 {
            5
        } else {
            9
        };
        proof {
            let p = data@.skip(hl);
            assert(cbor_bytes(p) =~= data@);
        }
        decode_bytes(data)
    } else {
        None
    }
}

} // verus!
