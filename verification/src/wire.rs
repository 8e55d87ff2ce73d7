//! Big-endian integer packing: the mathematical byte-level model and the
//! executable readers and writers proved against it.

use crate::ParseError;
use vstd::prelude::*;

verus! {

/// `256^n`: the number of values an `n`-byte field can hold.
pub open spec fn p256(n: nat) -> int
    decreases n,
{
    if n == 0 {
        1
    } else {
        256 * p256((n - 1) as nat)
    }
}

/// The values of `p256` for the widths that occur on the wire.
pub proof fn lemma_p256_values()
    ensures
        p256(0) == 1,
        p256(1) == 0x100,
        p256(2) == 0x1_0000,
        p256(3) == 0x100_0000,
        p256(4) == 0x1_0000_0000,
{
    reveal_with_fuel(p256, 5);
}

/// The `n`-byte big-endian encoding of `v % 256^n`, most significant byte
/// first.
pub open spec fn be_bytes(v: int, n: nat) -> Seq<u8>
    decreases n,
{
    if n == 0 {
        Seq::empty()
    } else {
        be_bytes(v / 256, (n - 1) as nat).push((v % 256) as u8)
    }
}

/// The unsigned integer that a big-endian byte sequence denotes.
pub open spec fn be_uint(s: Seq<u8>) -> int
    decreases s.len(),
{
    if s.len() == 0 {
        0
    } else {
        256 * be_uint(s.drop_last()) + s.last()
    }
}

/// The two's complement signed integer that a big-endian byte sequence
/// denotes.
pub open spec fn be_sint(s: Seq<u8>) -> int {
    if be_uint(s) < p256(s.len()) / 2 {
        be_uint(s)
    } else {
        be_uint(s) - p256(s.len())
    }
}

/// The unsigned number that stands for `v` in an `n`-byte two's complement
/// field.
pub open spec fn signed_repr(v: i32, n: nat) -> int {
    if v >= 0 {
        v as int
    } else {
        v + p256(n)
    }
}

pub proof fn lemma_be_bytes_len(v: int, n: nat)
    ensures
        be_bytes(v, n).len() == n,
    decreases n,
{
    if n > 0 {
        lemma_be_bytes_len(v / 256, (n - 1) as nat);
    }
}

pub proof fn lemma_be_uint_bound(s: Seq<u8>)
    ensures
        0 <= be_uint(s) < p256(s.len()),
    decreases s.len(),
{
    if s.len() > 0 {
        lemma_be_uint_bound(s.drop_last());
    }
}

/// Reading back an `n`-byte big-endian encoding recovers the value.
pub proof fn lemma_be_uint_of_bytes(v: int, n: nat)
    requires
        0 <= v < p256(n),
    ensures
        be_uint(be_bytes(v, n)) == v,
    decreases n,
{
    if n > 0 {
        let rest = be_bytes(v / 256, (n - 1) as nat);
        lemma_be_bytes_len(v / 256, (n - 1) as nat);
        assert(rest.push((v % 256) as u8).drop_last() =~= rest);
        lemma_be_uint_of_bytes(v / 256, (n - 1) as nat);
    }
}

/// Reading back the two's complement encoding of a signed value in range
/// recovers the value.
pub proof fn lemma_be_sint_of_bytes(v: i32, n: nat)
    requires
        -(p256(n) / 2) <= v < p256(n) / 2,
    ensures
        be_sint(be_bytes(signed_repr(v, n), n)) == v,
{
    lemma_be_bytes_len(signed_repr(v, n), n);
    lemma_be_uint_of_bytes(signed_repr(v, n), n);
}

/// Append the `n`-byte big-endian encoding of `v` to `w`.
pub(crate) fn write_be(w: &mut Vec<u8>, v: u32, n: usize)
    ensures
        final(w)@ == old(w)@ + be_bytes(v as int, n as nat),
    decreases n,
{
    if n == 0 {
        assert(old(w)@ + be_bytes(v as int, 0) =~= old(w)@);
    } else {
        write_be(w, v / 256, n - 1);
        w.push((v % 256) as u8);
        assert(final(w)@ =~= old(w)@ + be_bytes(v as int, n as nat));
    }
}

/// Append the `n`-byte two's complement big-endian encoding of `v` to `w`.
pub(crate) fn write_sbe(w: &mut Vec<u8>, v: i32, n: usize)
    requires
        1 <= n <= 4,
        -(p256(n as nat) / 2) <= v < p256(n as nat) / 2,
    ensures
        final(w)@ == old(w)@ + be_bytes(signed_repr(v, n as nat), n as nat),
{
    proof {
        lemma_p256_values();
    }
    let modulus: i64 = if n == 1 {
        0x100
    } else if n == 2 {
        0x1_0000
    } else if n == 3 {
        0x100_0000
    } else {
        0x1_0000_0000
    };
    let wide: i64 = v as i64;
    let repr: i64 = if wide < 0 {
        wide + modulus
    } else {
        wide
    };
    write_be(w, repr as u32, n);
}

/// Append every byte of `data` to `w`.
pub(crate) fn write_bytes(w: &mut Vec<u8>, data: &[u8])
    ensures
        final(w)@ == old(w)@ + data@,
{
    let mut j: usize = 0;
    while j < data.len()
        invariant
            j <= data@.len(),
            w@ == old(w)@ + data@.subrange(0, j as int),
        decreases data@.len() - j,
    {
        w.push(data[j]);
        assert(w@ =~= old(w)@ + data@.subrange(0, j + 1));
        j = j + 1;
    }
    assert(data@.subrange(0, data@.len() as int) =~= data@);
}

/// Read the `n`-byte big-endian unsigned integer at `pos`, reporting
/// `NeedMoreData` if the input ends before the field does.
pub(crate) fn read_be(i: &[u8], pos: usize, n: usize) -> (r: Result<(u32, usize), ParseError>)
    requires
        pos <= i@.len(),
        1 <= n <= 4,
    ensures
        pos + n <= i@.len() ==> r == Ok::<(u32, usize), ParseError>(
            ((be_uint(i@.subrange(pos as int, pos + n)) as u32), (pos + n) as usize),
        ),
        pos + n > i@.len() ==> r == Err::<(u32, usize), ParseError>(ParseError::NeedMoreData),
{
    proof {
        lemma_p256_values();
    }
    if n > i.len() - pos {
        return Err(ParseError::NeedMoreData);
    }
    let mut acc: u32 = 0;
    let mut j: usize = 0;
    while j < n
        invariant
            j <= n,
            n <= 4,
            pos + n <= i@.len(),
            i@.len() <= usize::MAX,
            acc == be_uint(i@.subrange(pos as int, pos + j)),
            0 <= acc < p256(j as nat),
            p256(0) == 1 && p256(1) == 0x100 && p256(2) == 0x1_0000 && p256(3) == 0x100_0000
                && p256(4) == 0x1_0000_0000,
        decreases n - j,
    {
        let ghost prefix = i@.subrange(pos as int, pos + j);
        let b = i[pos + j];
        proof {
            assert(i@.subrange(pos as int, pos + j + 1).drop_last() =~= prefix);
            assert(i@.subrange(pos as int, pos + j + 1).last() == b);
        }
        acc = acc * 256 + (b as u32);
        j = j + 1;
    }
    Ok((acc, pos + n))
}

/// Read the `n`-byte big-endian two's complement integer at `pos`,
/// reporting `NeedMoreData` if the input ends before the field does.
pub(crate) fn read_sbe(i: &[u8], pos: usize, n: usize) -> (r: Result<(i32, usize), ParseError>)
    requires
        pos <= i@.len(),
        1 <= n <= 4,
    ensures
        pos + n <= i@.len() ==> r == Ok::<(i32, usize), ParseError>(
            ((be_sint(i@.subrange(pos as int, pos + n)) as i32), (pos + n) as usize),
        ),
        pos + n > i@.len() ==> r == Err::<(i32, usize), ParseError>(ParseError::NeedMoreData),
{
    proof {
        lemma_p256_values();
    }
    match read_be(i, pos, n) {
        Ok((u, at)) => {
            proof {
                lemma_be_uint_bound(i@.subrange(pos as int, pos + n));
            }
            let modulus: i64 = if n == 1 {
                0x100
            } else if n == 2 {
                0x1_0000
            } else if n == 3 {
                0x100_0000
            } else {
                0x1_0000_0000
            };
            let wide: i64 = u as i64;
            let v: i64 = if wide >= modulus / 2 {
                wide - modulus
            } else {
                wide
            };
            Ok((v as i32, at))
        },
        Err(e) => Err(e),
    }
}

} // verus!
