//! Little-endian base-128 numbers: seven bits a byte, the high bit set on every
//! byte but the last.

use vstd::prelude::*;

verus! {

/// The most bytes that a 16-bit number takes.
pub const U16_BYTES: usize = 3;

/// The most that the third byte of a 16-bit number holds.
pub const U16_TOP: u8 = 3;

/// The most bytes that a 32-bit number takes.
pub const U32_BYTES: usize = 5;

/// The most that the fifth byte of a 32-bit number holds.
pub const U32_TOP: u8 = 15;

/// The number at the front of `s` and the count of bytes it takes, read with at
/// most `limit` bytes. The byte in the last permitted position may hold at most
/// `top`. `None` where `s` ends early, the number runs past `limit` bytes, or
/// that last byte is too large.
pub open spec fn varint_at(s: Seq<u8>, limit: nat, top: u8) -> Option<(nat, nat)>
    decreases limit,
{
    if limit == 0 || s.len() == 0 {
        None
    } else if s[0] < 128 {
        if limit == 1 && s[0] > top {
            None
        } else {
            Some((s[0] as nat, 1nat))
        }
    } else {
        match varint_at(s.skip(1), (limit - 1) as nat, top) {
            Some((v, n)) => Some(((s[0] - 128) as nat + 128 * v, n + 1)),
            None => None,
        }
    }
}

/// The 16-bit number at the front of `s` and the count of bytes it takes.
pub open spec fn u16_at(s: Seq<u8>) -> Option<(nat, nat)> {
    varint_at(s, U16_BYTES as nat, U16_TOP)
}

/// The 32-bit number at the front of `s` and the count of bytes it takes.
pub open spec fn u32_at(s: Seq<u8>) -> Option<(nat, nat)> {
    varint_at(s, U32_BYTES as nat, U32_TOP)
}

/// The shortest encoding of `v`.
pub open spec fn varint_of(v: nat) -> Seq<u8>
    decreases v,
{
    if v < 128 {
        seq![v as u8]
    } else {
        seq![(128 + v % 128) as u8] + varint_of(v / 128)
    }
}

/// One more than the largest number that `limit` bytes can hold when the last
/// of them holds at most `top`.
pub open spec fn varint_bound(limit: nat, top: u8) -> nat
    decreases limit,
{
    if limit <= 1 {
        top as nat + 1
    } else {
        128 * varint_bound((limit - 1) as nat, top)
    }
}

/// Whatever `varint_at` reads is below `varint_bound` and takes at most `limit`
/// bytes, none of them past the end of `s`.
pub proof fn lemma_varint_at_bounds(s: Seq<u8>, limit: nat, top: u8)
    ensures
        varint_at(s, limit, top) matches Some((v, n)) ==> {
            &&& v < varint_bound(limit, top)
            &&& 1 <= n <= limit
            &&& n <= s.len()
        },
    decreases limit,
{
    if limit == 0 || s.len() == 0 {
    } else if s[0] < 128 {
        if limit > 1 {
            lemma_varint_bound_positive((limit - 1) as nat, top);
        }
    } else {
        lemma_varint_at_bounds(s.skip(1), (limit - 1) as nat, top);
        if limit == 1 {
            assert(varint_at(s.skip(1), 0, top) is None);
        }
    }
}

/// `varint_bound` is never zero.
pub proof fn lemma_varint_bound_positive(limit: nat, top: u8)
    ensures
        varint_bound(limit, top) >= 1,
    decreases limit,
{
    if limit > 1 {
        lemma_varint_bound_positive((limit - 1) as nat, top);
    }
}

/// Reading back what `varint_of` wrote gives the number and its length,
/// whatever follows it, as long as the number fits the limits of the read and
/// the last permitted byte needs no continuation bit.
pub proof fn lemma_varint_round_trip(v: nat, rest: Seq<u8>, limit: nat, top: u8)
    requires
        limit >= 1,
        top < 128,
        v < varint_bound(limit, top),
    ensures
        varint_at(varint_of(v) + rest, limit, top) == Some((v, varint_of(v).len())),
    decreases v,
{
    let s = varint_of(v) + rest;
    if v < 128 {
        assert(s[0] == v as u8);
        if limit == 1 {
            assert(v <= top);
        }
    } else {
        assert(s[0] == (128 + v % 128) as u8);
        assert(s.skip(1) =~= varint_of(v / 128) + rest);
        lemma_varint_round_trip(v / 128, rest, (limit - 1) as nat, top);
    }
}

/// Reads the number at `s[at..]` as `varint_at` defines it.
fn read_varint(s: &[u8], at: usize, limit: usize, top: u8) -> (r: Option<(u64, usize)>)
    requires
        at <= s.len(),
        limit <= 5,
    ensures
        match varint_at(s@.skip(at as int), limit as nat, top) {
            Some((v, n)) => {
                &&& r matches Some((found, used))
                &&& found == v
                &&& used == n
                &&& at + n <= s.len()
            },
            None => r is None,
        },
    decreases limit,
{
    proof {
        lemma_varint_at_bounds(s@.skip(at as int), limit as nat, top);
        reveal_with_fuel(varint_bound, 6);
    }
    if limit == 0 || at >= s.len() {
        return None;
    }
    let b: u8 = s[at];
    assert(s@.skip(at as int)[0] == b);
    if b < 128 {
        if limit == 1 && b > top {
            None
        } else {
            Some((b as u64, 1))
        }
    } else {
        assert(s@.skip(at as int).skip(1) =~= s@.skip(at + 1));
        proof {
            lemma_varint_at_bounds(s@.skip(at + 1), (limit - 1) as nat, top);
        }
        match read_varint(s, at + 1, limit - 1, top) {
            Some((v, n)) => Some(((b - 128) as u64 + 128 * v, n + 1)),
            None => None,
        }
    }
}

/// Reads a 16-bit number at `s[at..]`: the number and the count of bytes it
/// takes. `None` where `at` is past the end or no such number stands there.
pub fn read_u16(s: &[u8], at: usize) -> (r: Option<(u16, usize)>)
    ensures
        r == if at <= s.len() {
            match u16_at(s@.skip(at as int)) {
                Some((v, n)) => Some((v as u16, n as usize)),
                None => None,
            }
        } else {
            None
        },
        r matches Some((v, n)) ==> u16_at(s@.skip(at as int)) == Some((v as nat, n as nat)) && at
            + n <= s.len(),
{
    if at > s.len() {
        return None;
    }
    proof {
        lemma_varint_at_bounds(s@.skip(at as int), U16_BYTES as nat, U16_TOP);
        reveal_with_fuel(varint_bound, 4);
    }
    match read_varint(s, at, U16_BYTES, U16_TOP) {
        Some((v, n)) => Some((v as u16, n)),
        None => None,
    }
}

/// Reads a 32-bit number at `s[at..]`: the number and the count of bytes it
/// takes. `None` where `at` is past the end or no such number stands there.
pub fn read_u32(s: &[u8], at: usize) -> (r: Option<(u32, usize)>)
    ensures
        r == if at <= s.len() {
            match u32_at(s@.skip(at as int)) {
                Some((v, n)) => Some((v as u32, n as usize)),
                None => None,
            }
        } else {
            None
        },
        r matches Some((v, n)) ==> u32_at(s@.skip(at as int)) == Some((v as nat, n as nat)) && at
            + n <= s.len(),
{
    if at > s.len() {
        return None;
    }
    proof {
        lemma_varint_at_bounds(s@.skip(at as int), U32_BYTES as nat, U32_TOP);
        reveal_with_fuel(varint_bound, 6);
    }
    match read_varint(s, at, U32_BYTES, U32_TOP) {
        Some((v, n)) => Some((v as u32, n)),
        None => None,
    }
}

/// Appends the shortest encoding of `v` to `out`.
pub fn write_varint(v: u32, out: &mut Vec<u8>)
    ensures
        final(out)@ == old(out)@ + varint_of(v as nat),
{
    let ghost start = out@;
    let mut rest: u32 = v;
    while rest >= 128
        invariant
            start + varint_of(v as nat) == out@ + varint_of(rest as nat),
        decreases rest,
    {
        let ghost before = out@;
        let b: u8 = (128 + rest % 128) as u8;
        out.push(b);
        assert(out@ + varint_of((rest / 128) as nat) =~= before + varint_of(rest as nat));
        rest = rest / 128;
    }
    let ghost before = out@;
    out.push(rest as u8);
    assert(out@ =~= before + varint_of(rest as nat));
}

} // verus!
