use vstd::prelude::*;

use crate::types::{GatewayError, Message, MessageView};

verus! {

/// The big-endian bytes of a 64-bit integer.
pub open spec fn u64_be(x: u64) -> Seq<u8> {
    seq![
        (x >> 56) as u8,
        (x >> 48) as u8,
        (x >> 40) as u8,
        (x >> 32) as u8,
        (x >> 24) as u8,
        (x >> 16) as u8,
        (x >> 8) as u8,
        x as u8,
    ]
}

/// The integer read back from eight big-endian bytes.
pub open spec fn u64_of_be(
    b0: u8,
    b1: u8,
    b2: u8,
    b3: u8,
    b4: u8,
    b5: u8,
    b6: u8,
    b7: u8,
) -> u64 {
    ((b0 as u64) << 56) | ((b1 as u64) << 48) | ((b2 as u64) << 40) | ((b3 as u64) << 32) | (
    (b4 as u64) << 24) | ((b5 as u64) << 16) | ((b6 as u64) << 8) | (b7 as u64)
}

/// Reading back the bytes of an integer yields the integer.
pub proof fn lemma_u64_be_round(x: u64)
    ensures
        u64_of_be(
            (x >> 56) as u8,
            (x >> 48) as u8,
            (x >> 40) as u8,
            (x >> 32) as u8,
            (x >> 24) as u8,
            (x >> 16) as u8,
            (x >> 8) as u8,
            x as u8,
        ) == x,
{
    assert((((x >> 56) as u8 as u64) << 56) | (((x >> 48) as u8 as u64) << 48) | (((x
        >> 40) as u8 as u64) << 40) | (((x >> 32) as u8 as u64) << 32) | (((x
        >> 24) as u8 as u64) << 24) | (((x >> 16) as u8 as u64) << 16) | (((x >> 8) as u8 as u64)
        << 8) | ((x as u8) as u64) == x) by (bit_vector);
}

/// Writing the integer read from eight bytes yields the same eight bytes.
pub proof fn lemma_be_of_u64_of_be(b0: u8, b1: u8, b2: u8, b3: u8, b4: u8, b5: u8, b6: u8, b7: u8)
    ensures
        u64_be(u64_of_be(b0, b1, b2, b3, b4, b5, b6, b7)) == seq![b0, b1, b2, b3, b4, b5, b6, b7],
{
    let x = u64_of_be(b0, b1, b2, b3, b4, b5, b6, b7);
    assert((((b0 as u64) << 56) | ((b1 as u64) << 48) | ((b2 as u64) << 40) | ((b3 as u64) << 32)
        | ((b4 as u64) << 24) | ((b5 as u64) << 16) | ((b6 as u64) << 8) | (b7 as u64)) >> 56
        == b0 as u64) by (bit_vector);
    assert((((b0 as u64) << 56) | ((b1 as u64) << 48) | ((b2 as u64) << 40) | ((b3 as u64) << 32)
        | ((b4 as u64) << 24) | ((b5 as u64) << 16) | ((b6 as u64) << 8) | (b7 as u64)) >> 48
        == ((b0 as u64) << 8) | (b1 as u64)) by (bit_vector);
    assert(((((b0 as u64) << 8) | (b1 as u64)) as u8) == b1) by (bit_vector);
    assert((((b0 as u64) << 56) | ((b1 as u64) << 48) | ((b2 as u64) << 40) | ((b3 as u64) << 32)
        | ((b4 as u64) << 24) | ((b5 as u64) << 16) | ((b6 as u64) << 8) | (b7 as u64)) >> 40
        == ((b0 as u64) << 16) | ((b1 as u64) << 8) | (b2 as u64)) by (bit_vector);
    assert(((((b0 as u64) << 16) | ((b1 as u64) << 8) | (b2 as u64)) as u8) == b2) by (bit_vector);
    assert(((((b0 as u64) << 56) | ((b1 as u64) << 48) | ((b2 as u64) << 40) | ((b3 as u64) << 32)
        | ((b4 as u64) << 24) | ((b5 as u64) << 16) | ((b6 as u64) << 8) | (b7 as u64)) >> 32
        ) as u8 == b3) by (bit_vector);
    assert(((((b0 as u64) << 56) | ((b1 as u64) << 48) | ((b2 as u64) << 40) | ((b3 as u64) << 32)
        | ((b4 as u64) << 24) | ((b5 as u64) << 16) | ((b6 as u64) << 8) | (b7 as u64)) >> 24
        ) as u8 == b4) by (bit_vector);
    assert(((((b0 as u64) << 56) | ((b1 as u64) << 48) | ((b2 as u64) << 40) | ((b3 as u64) << 32)
        | ((b4 as u64) << 24) | ((b5 as u64) << 16) | ((b6 as u64) << 8) | (b7 as u64)) >> 16
        ) as u8 == b5) by (bit_vector);
    assert(((((b0 as u64) << 56) | ((b1 as u64) << 48) | ((b2 as u64) << 40) | ((b3 as u64) << 32)
        | ((b4 as u64) << 24) | ((b5 as u64) << 16) | ((b6 as u64) << 8) | (b7 as u64)) >> 8
        ) as u8 == b6) by (bit_vector);
    assert(((((b0 as u64) << 56) | ((b1 as u64) << 48) | ((b2 as u64) << 40) | ((b3 as u64) << 32)
        | ((b4 as u64) << 24) | ((b5 as u64) << 16) | ((b6 as u64) << 8) | (b7 as u64)) as u8)
        == b7) by (bit_vector);
    assert(u64_be(x) =~= seq![b0, b1, b2, b3, b4, b5, b6, b7]);
}

/// The wire encoding of a routed message: the three identifiers and the
/// payload length as big-endian 64-bit fields, then the payload bytes.
pub open spec fn spec_encode(m: MessageView) -> Seq<u8> {
    u64_be(m.cc_id) + u64_be(m.source_nid) + u64_be(m.dest_nid) + u64_be(m.payload.len() as u64)
        + m.payload
}

/// Equal byte encodings come from equal integers.
pub proof fn lemma_u64_be_injective(x: u64, y: u64)
    requires
        u64_be(x) == u64_be(y),
    ensures
        x == y,
{
    lemma_u64_be_round(x);
    lemma_u64_be_round(y);
    assert(u64_be(x)[0] == u64_be(y)[0]);
    assert(u64_be(x)[1] == u64_be(y)[1]);
    assert(u64_be(x)[2] == u64_be(y)[2]);
    assert(u64_be(x)[3] == u64_be(y)[3]);
    assert(u64_be(x)[4] == u64_be(y)[4]);
    assert(u64_be(x)[5] == u64_be(y)[5]);
    assert(u64_be(x)[6] == u64_be(y)[6]);
    assert(u64_be(x)[7] == u64_be(y)[7]);
}

/// The wire encoding determines the message: equal encodings come from
/// equal message values.
pub proof fn lemma_encode_injective(m1: MessageView, m2: MessageView)
    requires
        spec_encode(m1) == spec_encode(m2),
    ensures
        m1 == m2,
{
    let e1 = spec_encode(m1);
    let e2 = spec_encode(m2);
    assert(e1.len() == 32 + m1.payload.len());
    assert(e2.len() == 32 + m2.payload.len());
    assert(m1.payload.len() == m2.payload.len());
    assert(u64_be(m1.cc_id) =~= e1.subrange(0, 8));
    assert(u64_be(m2.cc_id) =~= e2.subrange(0, 8));
    lemma_u64_be_injective(m1.cc_id, m2.cc_id);
    assert(u64_be(m1.source_nid) =~= e1.subrange(8, 16));
    assert(u64_be(m2.source_nid) =~= e2.subrange(8, 16));
    lemma_u64_be_injective(m1.source_nid, m2.source_nid);
    assert(u64_be(m1.dest_nid) =~= e1.subrange(16, 24));
    assert(u64_be(m2.dest_nid) =~= e2.subrange(16, 24));
    lemma_u64_be_injective(m1.dest_nid, m2.dest_nid);
    assert(m1.payload =~= e1.subrange(32, e1.len() as int));
    assert(m2.payload =~= e2.subrange(32, e2.len() as int));
}

/// Append the big-endian bytes of an integer to a buffer.
fn write_u64_be(out: &mut Vec<u8>, x: u64)
    ensures
        final(out)@ == old(out)@ + u64_be(x),
{
    out.push((x >> 56) as u8);
    out.push((x >> 48) as u8);
    out.push((x >> 40) as u8);
    out.push((x >> 32) as u8);
    out.push((x >> 24) as u8);
    out.push((x >> 16) as u8);
    out.push((x >> 8) as u8);
    out.push(x as u8);
    proof {
        assert(out@ =~= old(out)@ + u64_be(x));
    }
}

/// Read a big-endian integer from eight bytes of a buffer.
fn read_u64_be(bytes: &Vec<u8>, off: usize) -> (r: u64)
    requires
        off + 8 <= bytes@.len(),
    ensures
        r == u64_of_be(
            bytes@[off as int],
            bytes@[off + 1],
            bytes@[off + 2],
            bytes@[off + 3],
            bytes@[off + 4],
            bytes@[off + 5],
            bytes@[off + 6],
            bytes@[off + 7],
        ),
{
    let n = bytes.len();
    proof {
        assert(off + 8 <= n);
    }
    ((bytes[off] as u64) << 56) | ((bytes[off + 1] as u64) << 48) | ((bytes[off + 2] as u64) << 40)
        | ((bytes[off + 3] as u64) << 32) | ((bytes[off + 4] as u64) << 24) | ((bytes[off
        + 5] as u64) << 16) | ((bytes[off + 6] as u64) << 8) | (bytes[off + 7] as u64)
}

/// Serialize a message into its wire encoding.
pub fn encode_message(m: &Message) -> (r: Vec<u8>)
    ensures
        r@ == spec_encode(m@),
{
    let mut out: Vec<u8> = Vec::new();
    write_u64_be(&mut out, m.cc_id);
    write_u64_be(&mut out, m.source_nid);
    write_u64_be(&mut out, m.dest_nid);
    write_u64_be(&mut out, m.payload.len() as u64);
    let mut i: usize = 0;
    let ghost header = out@;
    while i < m.payload.len()
        invariant
            i <= m.payload.len(),
            out@ == header + m.payload@.subrange(0, i as int),
        decreases m.payload.len() - i,
    {
        out.push(m.payload[i]);
        i = i + 1;
        proof {
            assert(out@ =~= header + m.payload@.subrange(0, i as int));
        }
    }
    proof {
        assert(out@ =~= spec_encode(m@));
    }
    out
}

/// Decode a wire payload into a routed message. Malformed bytes — anything
/// that is not exactly the encoding of some message — are rejected with
/// `DecodeError`, never silently defaulted.
pub fn decode_message(bytes: &Vec<u8>) -> (r: Result<Message, GatewayError>)
    ensures
        match r {
            Ok(m) => bytes@ == spec_encode(m@),
            Err(e) => e == GatewayError::DecodeError && forall|m: MessageView|
                bytes@ != spec_encode(m),
        },
{
    if bytes.len() < 32 {
        proof {
            assert forall|m: MessageView| bytes@ != spec_encode(m) by {
                assert(spec_encode(m).len() >= 32);
            }
        }
        return Err(GatewayError::DecodeError);
    }
    let cc_id = read_u64_be(bytes, 0);
    let source_nid = read_u64_be(bytes, 8);
    let dest_nid = read_u64_be(bytes, 16);
    let plen = read_u64_be(bytes, 24);
    if (bytes.len() - 32) as u64 != plen {
        proof {
            assert forall|m: MessageView| bytes@ != spec_encode(m) by {
                if bytes@ == spec_encode(m) {
                    assert(bytes@.len() == 32 + m.payload.len());
                    let pl = (m.payload.len() as u64);
                    assert(bytes@[24] == u64_be(pl)[0] && bytes@[25] == u64_be(pl)[1] && bytes@[26]
                        == u64_be(pl)[2] && bytes@[27] == u64_be(pl)[3] && bytes@[28] == u64_be(
                        pl,
                    )[4] && bytes@[29] == u64_be(pl)[5] && bytes@[30] == u64_be(pl)[6] && bytes@[31]
                        == u64_be(pl)[7]);
                    lemma_u64_be_round(pl);
                    assert(plen == pl);
                }
            }
        }
        return Err(GatewayError::DecodeError);
    }
    let mut payload: Vec<u8> = Vec::new();
    let mut i: usize = 32;
    while i < bytes.len()
        invariant
            32 <= i <= bytes@.len(),
            payload@ == bytes@.subrange(32, i as int),
        decreases bytes@.len() - i,
    {
        payload.push(bytes[i]);
        i = i + 1;
        proof {
            assert(payload@ =~= bytes@.subrange(32, i as int));
        }
    }
    let m = Message { cc_id, source_nid, dest_nid, payload };
    proof {
        lemma_be_of_u64_of_be(
            bytes@[0],
            bytes@[1],
            bytes@[2],
            bytes@[3],
            bytes@[4],
            bytes@[5],
            bytes@[6],
            bytes@[7],
        );
        lemma_be_of_u64_of_be(
            bytes@[8],
            bytes@[9],
            bytes@[10],
            bytes@[11],
            bytes@[12],
            bytes@[13],
            bytes@[14],
            bytes@[15],
        );
        lemma_be_of_u64_of_be(
            bytes@[16],
            bytes@[17],
            bytes@[18],
            bytes@[19],
            bytes@[20],
            bytes@[21],
            bytes@[22],
            bytes@[23],
        );
        lemma_be_of_u64_of_be(
            bytes@[24],
            bytes@[25],
            bytes@[26],
            bytes@[27],
            bytes@[28],
            bytes@[29],
            bytes@[30],
            bytes@[31],
        );
        assert(u64_be(m@.cc_id) =~= bytes@.subrange(0, 8));
        assert(u64_be(m@.source_nid) =~= bytes@.subrange(8, 16));
        assert(u64_be(m@.dest_nid) =~= bytes@.subrange(16, 24));
        assert(u64_be(m@.payload.len() as u64) =~= bytes@.subrange(24, 32));
        assert(m@.payload =~= bytes@.subrange(32, bytes@.len() as int));
        assert(bytes@ =~= spec_encode(m@));
    }
    Ok(m)
}

} // verus!
