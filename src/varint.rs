use vstd::prelude::*;

verus! {

/// Unsigned little-endian base-128 encoding: seven bits per byte, low group
/// first, the high bit set on every byte but the last.
pub open spec fn varint_spec(n: nat) -> Seq<u8>
    decreases n,
{
    if n < 128 {
        seq![n as u8]
    } else {
        seq![((n % 128) + 128) as u8] + varint_spec(n / 128)
    }
}

/// Decodes one canonical varint at the start of `b`: the value and the number
/// of bytes it takes. Overlong encodings and values of 64 bits or more are
/// rejected.
pub open spec fn varint_decode_spec(b: Seq<u8>) -> Option<(nat, nat)>
    decreases b.len(),
{
    if b.len() == 0 {
        None
    } else if b[0] < 128 {
        Some((b[0] as nat, 1))
    } else {
        match varint_decode_spec(b.drop_first()) {
            Some((v, k)) => {
                if v == 0 || (b[0] - 128) + 128 * v >= 0x1_0000_0000_0000_0000 {
                    None
                } else {
                    Some((((b[0] - 128) + 128 * v) as nat, k + 1))
                }
            },
            None => None,
        }
    }
}

/// An encoding takes one byte per started group of seven bits, at most ten
/// for a 64-bit value.
pub proof fn lemma_varint_len(n: nat)
    ensures
        1 <= varint_spec(n).len() <= 10 || n >= 0x1_0000_0000_0000_0000,
        varint_spec(n).len() >= 1,
        n < 128 ==> varint_spec(n).len() == 1,
        n >= 128 ==> varint_spec(n).len() == 1 + varint_spec(n / 128).len(),
    decreases n,
{
    if n >= 128 {
        lemma_varint_len(n / 128);
        if n < 0x1_0000_0000_0000_0000 {
            assert(n / 128 < 0x1_0000_0000_0000_0000);
            assert(varint_spec(n / 128).len() <= 9) by {
                reveal_with_fuel(pow128, 10);
                assert(pow128(9) == 0x8000_0000_0000_0000);
                lemma_varint_len_bound(n / 128, 9);
            }
        }
    }
}

proof fn lemma_varint_len_bound(n: nat, k: nat)
    requires
        k >= 1,
        n < pow128(k),
    ensures
        varint_spec(n).len() <= k,
    decreases k,
{
    if n >= 128 {
        assert(k >= 2) by {
            if k == 1 {
                assert(pow128(1) == 128 * pow128(0));
            }
        }
        assert(pow128(k) == 128 * pow128((k - 1) as nat));
        assert(n / 128 < pow128((k - 1) as nat)) by (nonlinear_arith)
            requires
                n < 128 * pow128((k - 1) as nat),
        ;
        lemma_varint_len_bound(n / 128, (k - 1) as nat);
    }
}

/// 128 to the power `k`.
pub open spec fn pow128(k: nat) -> nat
    decreases k,
{
    if k == 0 {
        1
    } else {
        128 * pow128((k - 1) as nat)
    }
}

/// Decoding the encoding of `n` with anything after it gives back `n` and the
/// length of the encoding.
pub proof fn lemma_varint_decode_encode(n: nat, rest: Seq<u8>)
    requires
        n < 0x1_0000_0000_0000_0000,
    ensures
        varint_decode_spec(varint_spec(n) + rest) == Some((n, varint_spec(n).len())),
    decreases n,
{
    let b = varint_spec(n) + rest;
    if n >= 128 {
        lemma_varint_decode_encode(n / 128, rest);
        assert(b.drop_first() =~= varint_spec(n / 128) + rest);
        lemma_varint_len(n);
    }
}

/// A decoded varint is exactly the encoding of its value.
pub proof fn lemma_varint_encode_decode(b: Seq<u8>)
    requires
        varint_decode_spec(b) is Some,
    ensures
        ({
            let (v, k) = varint_decode_spec(b)->0;
            k <= b.len() && b.take(k as int) =~= varint_spec(v) && v < 0x1_0000_0000_0000_0000
        }),
    decreases b.len(),
{
    if b[0] >= 128 {
        let t = b.drop_first();
        lemma_varint_encode_decode(t);
        let (v, k) = varint_decode_spec(t)->0;
        let w = (b[0] - 128) + 128 * v;
        assert(w / 128 == v);
        assert(w % 128 == b[0] - 128);
        assert(b.take((k + 1) as int) =~= seq![b[0]] + t.take(k as int));
    }
}

/// Where `b` holds the encoding of `n` at `pos`, decoding there gives `n`.
pub proof fn lemma_varint_decode_at(b: Seq<u8>, pos: int, n: nat)
    requires
        n < 0x1_0000_0000_0000_0000,
        crate::bytes::prefix_at(b, pos, varint_spec(n)),
    ensures
        varint_decode_spec(b.skip(pos)) == Some((n, varint_spec(n).len())),
{
    let l = varint_spec(n).len() as int;
    assert(b.skip(pos) =~= varint_spec(n) + b.skip(pos + l));
    lemma_varint_decode_encode(n, b.skip(pos + l));
}

/// The encoding of `n`.
pub fn encode_varint(n: u64) -> (r: Vec<u8>)
    ensures
        r@ == varint_spec(n as nat),
{
    let mut out: Vec<u8> = Vec::new();
    let mut m: u64 = n;
    while m >= 128
        invariant
            out@ + varint_spec(m as nat) == varint_spec(n as nat),
        decreases m,
    {
        proof {
            assert(varint_spec(m as nat) == seq![((m % 128) + 128) as u8] + varint_spec(
                (m / 128) as nat,
            ));
        }
        out.push(((m % 128) + 128) as u8);
        proof {
            assert(out@ + varint_spec((m / 128) as nat) =~= varint_spec(n as nat));
        }
        m = m / 128;
    }
    out.push(m as u8);
    proof {
        assert(out@ =~= varint_spec(n as nat));
    }
    out
}

/// Number of bytes in the encoding of `n`.
pub fn varint_len(n: u64) -> (r: u64)
    ensures
        r == varint_spec(n as nat).len(),
        1 <= r <= 10,
{
    let mut k: u64 = 1;
    let mut m: u64 = n;
    proof {
        lemma_varint_len(n as nat);
    }
    while m >= 128
        invariant
            k + varint_spec(m as nat).len() - 1 == varint_spec(n as nat).len(),
            varint_spec(n as nat).len() <= 10,
            varint_spec(m as nat).len() >= 1,
        decreases m,
    {
        proof {
            lemma_varint_len(m as nat);
            lemma_varint_len((m / 128) as nat);
        }
        k = k + 1;
        m = m / 128;
    }
    proof {
        lemma_varint_len(m as nat);
    }
    k
}

/// Reads one canonical varint of `b` starting at `pos`: the value and the
/// position just after it.
pub fn decode_varint(b: &Vec<u8>, pos: usize) -> (r: Option<(u64, usize)>)
    requires
        pos <= b@.len(),
    ensures
        match varint_decode_spec(b@.skip(pos as int)) {
            Some((v, k)) => r == Some((v as u64, (pos + k) as usize)),
            None => r is None,
        },
        r matches Some((_, next)) ==> pos < next <= b@.len(),
        b@.len() <= usize::MAX,
    decreases b@.len() - pos,
{
    if pos >= b.len() {
        return None;
    }
    let c = b[pos];
    proof {
        assert(b@.skip(pos as int)[0] == c);
    }
    if c < 128 {
        return Some((c as u64, pos + 1));
    }
    proof {
        assert(b@.skip(pos as int).drop_first() =~= b@.skip(pos + 1));
    }
    match decode_varint(b, pos + 1) {
        Some((v, next)) => {
            proof {
                lemma_varint_encode_decode(b@.skip(pos + 1));
            }
            let low: u64 = (c - 128) as u64;
            if v == 0 || v > (u64::MAX - low) / 128 {
                proof {
                    if v > 0 {
                        assert((c - 128) + 128 * v >= 0x1_0000_0000_0000_0000) by (nonlinear_arith)
                            requires
                                v > (0xffff_ffff_ffff_ffff - low) / 128,
                                low == c - 128,
                                low < 128,
                        ;
                    }
                }
                None
            } else {
                proof {
                    assert(low + 128 * v <= 0xffff_ffff_ffff_ffff) by (nonlinear_arith)
                        requires
                            v <= (0xffff_ffff_ffff_ffff - low) / 128,
                    ;
                }
                Some((low + 128 * v, next))
            }
        },
        None => None,
    }
}

} // verus!
