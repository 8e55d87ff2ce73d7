//! Width selection for variable-width integer operands, and the scanner for
//! the trailing sentinel run.

use vstd::prelude::*;

verus! {

/// The sentinel byte used as trailing padding at the end of a document.
pub const SENTINEL: u8 = 223;

/// The smallest number of bytes (1 to 4) that holds `val` as an unsigned
/// big-endian integer.
pub open spec fn unsigned_width(val: u32) -> u8 {
    if val <= 0xff {
        1
    } else if val <= 0xffff {
        2
    } else if val <= 0xff_ffff {
        3
    } else {
        4
    }
}

/// The smallest number of bytes (1 to 4) that holds `val` as a two's
/// complement signed big-endian integer.
pub open spec fn signed_width(val: i32) -> u8 {
    if -0x80 <= val && val <= 0x7f {
        1
    } else if -0x8000 <= val && val <= 0x7fff {
        2
    } else if -0x80_0000 <= val && val <= 0x7f_ffff {
        3
    } else {
        4
    }
}

/// Get the number of bytes required to store a u32.
pub fn byte_width(val: u32) -> (r: u8)
    ensures
        r == unsigned_width(val),
{
    if val <= 0xff {
        1
    } else if val <= 0xffff {
        2
    } else if val <= 0xff_ffff {
        3
    } else {
        4
    }
}

/// Get the number of bytes required to store an i32.
pub fn byte_width_signed(val: i32) -> (r: u8)
    ensures
        r == signed_width(val),
{
    if -0x80 <= val && val <= 0x7f {
        1
    } else if -0x8000 <= val && val <= 0x7fff {
        2
    } else if -0x80_0000 <= val && val <= 0x7f_ffff {
        3
    } else {
        4
    }
}

/// The length of the run of sentinel bytes in `s` starting at `pos`.
pub open spec fn sentinel_run(s: Seq<u8>, pos: int) -> int
    decreases s.len() - pos,
{
    if pos < 0 || pos >= s.len() || s[pos] != SENTINEL {
        0
    } else {
        1 + sentinel_run(s, pos + 1)
    }
}

pub proof fn lemma_sentinel_run_nonneg(s: Seq<u8>, pos: int)
    ensures
        sentinel_run(s, pos) >= 0,
    decreases s.len() - pos,
{
    if !(pos < 0 || pos >= s.len() || s[pos] != SENTINEL) {
        lemma_sentinel_run_nonneg(s, pos + 1);
    }
}

/// Count the sentinel bytes at `pos` and following, stopping at the first
/// other byte or at the end of input; running out of input is a normal stop,
/// not a failure. Returns the count and the position after the run. The
/// count saturates at `u32::MAX`, the largest value its field can carry.
pub(crate) fn parse_223(i: &[u8], pos: usize) -> (r: (u32, usize))
    requires
        pos <= i@.len(),
    ensures
        r.0 == if sentinel_run(i@, pos as int) <= u32::MAX {
            sentinel_run(i@, pos as int)
        } else {
            u32::MAX as int
        },
        r.1 == pos + r.0,
{
    let ghost total = sentinel_run(i@, pos as int);
    proof {
        lemma_sentinel_run_nonneg(i@, pos as int);
    }
    let mut count: u32 = 0;
    let mut at: usize = pos;
    while at < i.len() && i[at] == SENTINEL && count < u32::MAX
        invariant
            pos <= at <= i@.len(),
            count == at - pos,
            total == count + sentinel_run(i@, at as int),
            total == sentinel_run(i@, pos as int),
        decreases i@.len() - at,
    {
        proof {
            lemma_sentinel_run_nonneg(i@, at as int + 1);
        }
        count = count + 1;
        at = at + 1;
    }
    proof {
        lemma_sentinel_run_nonneg(i@, at as int);
        if at == i@.len() || i@[at as int] != SENTINEL {
            assert(sentinel_run(i@, at as int) == 0);
        }
    }
    (count, at)
}

} // verus!
