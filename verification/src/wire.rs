//! The wire format the memory manager writes into guest memory: one record
//! per dataset, the payload length as decimal ASCII digits followed directly
//! by the payload bytes, with no separator. A decoder must know out of band
//! how many leading bytes are the digit field.

use vstd::prelude::*;

verus! {

/// The decimal ASCII digits of `n`, most significant first, without leading
/// zeros (zero itself is the single digit `0`).
pub open spec fn dec_digits(n: nat) -> Seq<u8>
    decreases n,
{
    if n < 10 {
        seq![(48 + n) as u8]
    } else {
        dec_digits(n / 10) + seq![(48 + n % 10) as u8]
    }
}

/// The encoded record for one payload: digit prefix, then the payload.
pub open spec fn wire_record(payload: Seq<u8>) -> Seq<u8> {
    dec_digits(payload.len()) + payload
}

/// A record is its digit prefix followed by the payload: the payload sits at
/// the end, after `dec_digits(payload.len()).len()` prefix bytes.
pub proof fn lemma_wire_record_parts(payload: Seq<u8>)
    ensures
        wire_record(payload).len() == dec_digits(payload.len()).len() + payload.len(),
        wire_record(payload).subrange(
            dec_digits(payload.len()).len() as int,
            wire_record(payload).len() as int,
        ) =~= payload,
        wire_record(payload).len() >= payload.len() + 1,
{
}

/// Appends the decimal digits of `n` to `out`.
fn push_dec_digits(n: usize, out: &mut Vec<u8>)
    ensures
        final(out)@ == old(out)@ + dec_digits(n as nat),
    decreases n,
{
    if n < 10 {
        out.push(48 + n as u8);
        proof {
            assert(out@ =~= old(out)@ + dec_digits(n as nat));
        }
    } else {
        push_dec_digits(n / 10, out);
        out.push(48 + (n % 10) as u8);
        proof {
            assert(out@ =~= old(out)@ + dec_digits(n as nat));
        }
    }
}

/// Encodes one payload as a wire record.
pub fn encode_record(payload: &[u8]) -> (r: Vec<u8>)
    ensures
        r@ == wire_record(payload@),
{
    let mut r: Vec<u8> = Vec::new();
    push_dec_digits(payload.len(), &mut r);
    let mut i: usize = 0;
    while i < payload.len()
        invariant
            i <= payload@.len(),
            r@ == dec_digits(payload@.len()) + payload@.subrange(0, i as int),
        decreases payload@.len() - i,
    {
        let b = payload[i];
        r.push(b);
        i = i + 1;
        proof {
            assert(r@ =~= dec_digits(payload@.len()) + payload@.subrange(0, i as int));
        }
    }
    proof {
        assert(payload@.subrange(0, payload@.len() as int) =~= payload@);
    }
    r
}

} // verus!
