//! The response encoder: the output wire schema `{"id": ..., "result": ...}`
//! and its serializer.  Encoding is pure and total; the exact bytes produced
//! are pinned down by `spec_encode_response`, so the published payload for a
//! given id and result value is a single, fixed byte string.

use vstd::prelude::*;

use crate::request::NumberText;

verus! {

/// The rendered result carried by a response.  The wire format is JSON,
/// whose number grammar has no spelling for IEEE NaN or the infinities; a
/// result the format cannot carry as a number is published as `null`.  That
/// canonical fallback is this crate's explicit decision — the same one
/// general-purpose JSON serializers apply silently.
pub enum ResultValue {
    /// A finite result, as the number token to place in the payload.
    Number(NumberText),
    /// The fallback for NaN and the infinities.
    Null,
}

/// The bytes of the literal `null`.
pub open spec fn null_bytes() -> Seq<u8> {
    seq![110u8, 117u8, 108u8, 108u8]
}

/// The bytes a result value contributes to the payload.
pub open spec fn spec_result_bytes(v: ResultValue) -> Seq<u8> {
    match v {
        ResultValue::Number(t) => t@,
        ResultValue::Null => null_bytes(),
    }
}

/// The decimal digits of `n`, most significant first, no sign and no
/// leading zero except for `0` itself.
pub open spec fn spec_digits(n: int) -> Seq<u8>
    decreases n,
    when n >= 0
{
    if n < 10 {
        seq![(n + 48) as u8]
    } else {
        spec_digits(n / 10) + seq![(n % 10 + 48) as u8]
    }
}

/// The full output payload for a given id and result:
/// `{"id":<digits>,"result":<number or null>}`.
pub open spec fn spec_encode_response(id: u128, result: ResultValue) -> Seq<u8> {
    seq![123u8, 34u8, 105u8, 100u8, 34u8, 58u8] + spec_digits(id as int) + seq![
        44u8,
        34u8,
        114u8,
        101u8,
        115u8,
        117u8,
        108u8,
        116u8,
        34u8,
        58u8,
    ] + spec_result_bytes(result) + seq![125u8]
}

/// Renders `n` in decimal, computing exactly `spec_digits`.
pub fn u128_digits(n: u128) -> (r: Vec<u8>)
    ensures
        r@ == spec_digits(n as int),
{
    let mut rev: Vec<u8> = Vec::new();
    if n == 0 {
        rev.push(48u8);
        proof {
            assert(rev@ =~= spec_digits(0));
        }
        return rev;
    }
    let mut x: u128 = n;
    while x > 0
        invariant
            x > 0 ==> spec_digits(n as int) == spec_digits(x as int) + rev@.reverse(),
            x == 0 ==> spec_digits(n as int) == rev@.reverse(),
        decreases x,
    {
        let d: u8 = (x % 10) as u8 + 48;
        let ghost oldrev = rev@;
        rev.push(d);
        proof {
            assert(rev@.reverse() =~= seq![d] + oldrev.reverse());
        }
        let x2: u128 = x / 10;
        proof {
            if x2 > 0 {
                assert(spec_digits(x as int) == spec_digits(x as int / 10) + seq![
                    (x as int % 10 + 48) as u8,
                ]);
                assert(spec_digits(x2 as int) + rev@.reverse() =~= spec_digits(x as int)
                    + oldrev.reverse());
            } else {
                assert(x < 10);
                assert(spec_digits(x as int) == seq![(x as int + 48) as u8]);
                assert(rev@.reverse() =~= spec_digits(x as int) + oldrev.reverse());
            }
        }
        x = x2;
    }
    let mut out: Vec<u8> = Vec::new();
    let mut i: usize = 0;
    while i < rev.len()
        invariant
            0 <= i <= rev@.len(),
            out@ =~= rev@.reverse().take(i as int),
        decreases rev@.len() - i,
    {
        out.push(rev[rev.len() - 1 - i]);
        i = i + 1;
        proof {
            assert(out@ =~= rev@.reverse().take(i as int));
        }
    }
    proof {
        assert(out@ =~= rev@.reverse());
    }
    out
}

/// One output payload: the request's id, propagated unchanged, and the
/// evaluated result as the wire will carry it.
pub struct PayloadResponse {
    pub id: u128,
    pub result: ResultValue,
}

impl PayloadResponse {
    /// Pairs an id with its result.  The id is the one decoded from the
    /// input payload; nothing here may alter it.
    pub fn new(id: u128, result: ResultValue) -> (r: Self)
        ensures
            r.id == id,
            r.result == result,
    {
        Self { id, result }
    }

    /// Serializes the payload, producing exactly `spec_encode_response`.
    /// Total: every id and every result value, `null` included, has an
    /// encoding, so a successfully evaluated request always has bytes to
    /// publish.
    pub fn encode(&self) -> (r: Vec<u8>)
        ensures
            r@ == spec_encode_response(self.id, self.result),
    {
        let mut out: Vec<u8> = Vec::new();
        out.push(123u8);
        out.push(34u8);
        out.push(105u8);
        out.push(100u8);
        out.push(34u8);
        out.push(58u8);
        let mut digits = u128_digits(self.id);
        out.append(&mut digits);
        out.push(44u8);
        out.push(34u8);
        out.push(114u8);
        out.push(101u8);
        out.push(115u8);
        out.push(117u8);
        out.push(108u8);
        out.push(116u8);
        out.push(34u8);
        out.push(58u8);
        match &self.result {
            ResultValue::Number(t) => {
                let mut i: usize = 0;
                let ghost base = out@;
                while i < t.bytes.len()
                    invariant
                        0 <= i <= t.bytes@.len(),
                        out@ == base + t.bytes@.take(i as int),
                    decreases t.bytes@.len() - i,
                {
                    out.push(t.bytes[i]);
                    i = i + 1;
                    proof {
                        assert(out@ =~= base + t.bytes@.take(i as int));
                    }
                }
                proof {
                    assert(t.bytes@.take(t.bytes@.len() as int) =~= t.bytes@);
                }
            },
            ResultValue::Null => {
                out.push(110u8);
                out.push(117u8);
                out.push(108u8);
                out.push(108u8);
            },
        }
        out.push(125u8);
        proof {
            assert(out@ =~= spec_encode_response(self.id, self.result));
        }
        out
    }
}

} // verus!
