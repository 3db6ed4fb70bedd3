//! Variable-length integers: seven bits to a byte, low bits first, the top bit
//! of a byte set while more bytes follow.

use vstd::prelude::*;

verus! {

/// The bytes of `n`, as few as can hold it.
pub open spec fn varint(n: nat) -> Seq<u8>
    decreases n,
{
    if n < 128 {
        seq![n as u8]
    } else {
        seq![(128 + n % 128) as u8] + varint(n / 128)
    }
}

/// The natural number that stands for a signed one: 0, -1, 1, -2, 2, ... are
/// numbered 0, 1, 2, 3, 4, ...
pub open spec fn zigzag(i: int) -> nat {
    if i >= 0 {
        (2 * i) as nat
    } else {
        (-2 * i - 1) as nat
    }
}

/// The number whose shortest form starts `bytes`, and the length of that form.
pub open spec fn leading_varint(bytes: Seq<u8>) -> Option<(nat, int)>
    decreases bytes.len(),
{
    if bytes.len() == 0 {
        None
    } else if bytes[0] < 128 {
        Some((bytes[0] as nat, 1int))
    } else {
        match leading_varint(bytes.skip(1)) {
            Some((high, used)) => if high == 0 {
                None
            } else {
                Some(((bytes[0] - 128 + 128 * high) as nat, used + 1))
            },
            None => None,
        }
    }
}

/// A number's bytes are read back as that number, whatever follows them.
pub proof fn lemma_varint_is_read_back(n: nat, rest: Seq<u8>)
    ensures
        leading_varint(varint(n) + rest) == Some((n, varint(n).len() as int)),
    decreases n,
{
    let bytes = varint(n) + rest;
    if n < 128 {
        assert(bytes[0] == n as u8);
    } else {
        lemma_varint_is_read_back(n / 128, rest);
        assert(bytes[0] == (128 + n % 128) as u8);
        assert(bytes.skip(1) =~= varint(n / 128) + rest);
    }
}

/// What is read is the shortest form of the number read.
pub proof fn lemma_leading_varint_is_shortest(bytes: Seq<u8>)
    ensures
        leading_varint(bytes) matches Some((n, used)) ==> 1 <= used <= bytes.len()
            && bytes.subrange(0, used) == varint(n),
    decreases bytes.len(),
{
    if bytes.len() == 0 {
    } else if bytes[0] < 128 {
        assert(bytes.subrange(0, 1) =~= seq![bytes[0]]);
    } else {
        lemma_leading_varint_is_shortest(bytes.skip(1));
        if let Some((high, used)) = leading_varint(bytes.skip(1)) {
            if high != 0 {
                let n = (bytes[0] - 128 + 128 * high) as nat;
                assert(n % 128 == bytes[0] - 128 && n / 128 == high);
                assert(bytes.subrange(0, used + 1) =~= seq![bytes[0]] + bytes.skip(1).subrange(
                    0,
                    used,
                ));
            }
        }
    }
}

/// The value of one unit in byte `i` of a varint: 128 to the power `i`.
spec fn weight(i: nat) -> nat
    decreases i,
{
    if i == 0 {
        1
    } else {
        128 * weight((i - 1) as nat)
    }
}

proof fn lemma_weights()
    ensures
        weight(0) == 1,
        weight(1) == 0x80,
        weight(2) == 0x4000,
        weight(3) == 0x20_0000,
        weight(4) == 0x1000_0000,
        weight(5) == 0x8_0000_0000,
        weight(6) == 0x400_0000_0000,
        weight(7) == 0x2_0000_0000_0000,
        weight(8) == 0x100_0000_0000_0000,
        weight(9) == 0x8000_0000_0000_0000,
{
    reveal_with_fuel(weight, 10);
}

/// The number read from the start, given that `seen` bytes of it came to `low`
/// and the rest of it reads as `rest`.
spec fn joined(low: nat, unit: nat, seen: int, rest: Option<(nat, int)>) -> Option<(nat, int)> {
    match rest {
        Some((high, used)) => if seen > 0 && high == 0 {
            None
        } else {
            Some((low + unit * high, seen + used))
        },
        None => None,
    }
}

/// Reads the varint that starts at `start`, if it is in shortest form and
/// fits in 64 bits, and says where the next field starts.
pub(crate) fn read_varint(bytes: &[u8], start: usize) -> (r: Option<(u64, usize)>)
    requires
        start <= bytes.len(),
    ensures
        match r {
            Some((value, next)) => start < next <= bytes.len() && leading_varint(
                bytes@.skip(start as int),
            ) == Some((value as nat, next - start)),
            None => leading_varint(bytes@.skip(start as int)) matches Some((n, _)) ==> n
                > u64::MAX,
        },
{
    let mut low: u64 = 0;
    let mut unit: u64 = 1;
    let mut seen: usize = 0;
    proof {
        lemma_weights();
    }
    while seen < 10
        invariant
            seen <= 9,
            start + seen <= bytes.len(),
            unit == weight(seen as nat),
            low < unit,
            leading_varint(bytes@.skip(start as int)) == joined(
                low as nat,
                unit as nat,
                seen as int,
                leading_varint(bytes@.skip(start + seen)),
            ),
        decreases 10 - seen,
    {
        let at = start + seen;
        if at >= bytes.len() {
            return None;
        }
        let byte = bytes[at];
        proof {
            lemma_weights();
            assert(bytes@.skip(at as int)[0] == byte);
            assert(bytes@.skip(at as int).skip(1) =~= bytes@.skip(at + 1));
        }
        if byte < 128 {
            if seen > 0 && byte == 0 {
                return None;
            }
            if seen == 9 && byte > 1 {
                assert(low + unit * byte > u64::MAX) by (nonlinear_arith)
                    requires
                        unit == 0x8000_0000_0000_0000,
                        byte >= 2,
                        low >= 0,
                ;
                return None;
            }
            assert(low + unit * byte <= u64::MAX && unit * byte <= u64::MAX) by (nonlinear_arith)
                requires
                    0 <= low < unit,
                    0 <= byte < 128,
                    unit <= 0x100_0000_0000_0000 || (unit == 0x8000_0000_0000_0000 && byte <= 1),
            ;
            return Some((low + unit * (byte as u64), at + 1));
        }
        if seen == 9 {
            proof {
                if let Some((high, used)) = leading_varint(bytes@.skip(at + 1)) {
                    if high != 0 {
                        let n = (byte - 128 + 128 * high) as nat;
                        assert(low + unit * n > u64::MAX) by (nonlinear_arith)
                            requires
                                unit == 0x8000_0000_0000_0000,
                                n >= 128,
                                low >= 0,
                        ;
                    }
                }
            }
            return None;
        }
        let digit = (byte - 128) as u64;
        proof {
            assert(unit * digit + low < unit * 128 && unit * 128 <= u64::MAX) by (nonlinear_arith)
                requires
                    0 <= low < unit,
                    0 <= digit < 128,
                    unit <= 0x100_0000_0000_0000,
            ;
            assert(weight((seen + 1) as nat) == 128 * weight(seen as nat));
            if let Some((high, used)) = leading_varint(bytes@.skip(at + 1)) {
                if high != 0 {
                    assert(low + unit * (digit + 128 * high) == (low + unit * digit) + (unit
                        * 128) * high) by (nonlinear_arith);
                }
            }
        }
        low = low + unit * digit;
        unit = unit * 128;
        seen = seen + 1;
    }
    None
}

} // verus!
