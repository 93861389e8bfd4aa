//! Consistent Overhead Byte Stuffing: a payload is rewritten so that it holds
//! no zero byte, which leaves zero free to mark the end of a frame.
//!
//! The stuffed form is a chain of blocks. Each block opens with a code byte
//! `n + 1` and carries `n` payload bytes, none of them zero. A code below 255
//! stands for a zero after its bytes, unless the block is the last one; code
//! 255 carries 254 bytes and stands for no zero.

use vstd::prelude::*;
use vstd::slice::slice_subrange;

verus! {

/// The longest run of payload bytes that one block can carry.
pub const MAX_RUN: usize = 254;

/// How many bytes at the front of `s` are not zero, counted up to `cap`.
pub open spec fn run_length(s: Seq<u8>, cap: nat) -> nat
    decreases cap,
{
    if cap == 0 || s.len() == 0 || s[0] == 0 {
        0
    } else {
        1 + run_length(s.skip(1), (cap - 1) as nat)
    }
}

/// The stuffed form of `data`. With `after_zero` the bytes follow a zero of the
/// payload, which an empty `data` must still close with a block of its own.
pub open spec fn stuffed_from(data: Seq<u8>, after_zero: bool) -> Seq<u8>
    decreases data.len(),
{
    if data.len() == 0 {
        if after_zero {
            seq![1u8]
        } else {
            Seq::empty()
        }
    } else {
        let n = run_length(data, MAX_RUN as nat) as int;
        let block = seq![(n + 1) as u8] + data.take(n as int);
        if n >= data.len() {
            block
        } else if n == MAX_RUN {
            block + stuffed_from(data.skip(n as int), false)
        } else {
            block + stuffed_from(data.skip(n + 1), true)
        }
    }
}

/// The stuffed form of a whole payload, without the closing zero.
pub open spec fn stuffed(data: Seq<u8>) -> Seq<u8> {
    stuffed_from(data, false)
}

/// The payload that a chain of blocks stands for, or `None` where a code byte
/// is zero or promises more bytes than are left.
pub open spec fn unstuffed(enc: Seq<u8>) -> Option<Seq<u8>>
    decreases enc.len(),
{
    if enc.len() == 0 {
        Some(Seq::empty())
    } else {
        let code = enc[0] as int;
        if code == 0 || code > enc.len() {
            None
        } else {
            let data = enc.subrange(1, code);
            let rest = enc.skip(code);
            if rest.len() == 0 {
                Some(data)
            } else {
                match unstuffed(rest) {
                    None => None,
                    Some(tail) => Some(
                        if code == 255 {
                            data + tail
                        } else {
                            data.push(0u8) + tail
                        },
                    ),
                }
            }
        }
    }
}

/// The part of a received buffer that is looked at: what stands before its
/// first zero, or all of it where it holds none.
pub open spec fn body_of(frame: Seq<u8>) -> Seq<u8> {
    frame.take(run_length(frame, frame.len()) as int)
}

/// `run_length` counts exactly the non-zero bytes at the front: it stops at the
/// cap, at the end, or at a zero.
pub proof fn lemma_run_length(s: Seq<u8>, cap: nat)
    ensures
        run_length(s, cap) <= cap,
        run_length(s, cap) <= s.len(),
        forall|i: int| 0 <= i < run_length(s, cap) ==> s[i] != 0,
        run_length(s, cap) < cap && run_length(s, cap) < s.len() ==> s[run_length(s, cap) as int]
            == 0,
    decreases cap,
{
    if cap == 0 || s.len() == 0 || s[0] == 0 {
    } else {
        let t = s.skip(1);
        lemma_run_length(t, (cap - 1) as nat);
        let n = run_length(t, (cap - 1) as nat) as int;
        assert forall|i: int| 0 <= i < n + 1 implies s[i] != 0 by {
            if i > 0 {
                assert(s[i] == t[i - 1]);
            }
        }
        if n + 1 < cap && n + 1 < s.len() {
            assert(s[n + 1] == t[n as int]);
        }
    }
}

/// The stuffed form holds no zero, and after a zero of the payload it is never
/// empty.
pub proof fn lemma_stuffed_has_no_zero(data: Seq<u8>, after_zero: bool)
    ensures
        forall|i: int| 0 <= i < stuffed_from(data, after_zero).len() ==> stuffed_from(
            data,
            after_zero,
        )[i] != 0,
        after_zero ==> stuffed_from(data, after_zero).len() > 0,
        data.len() > 0 ==> stuffed_from(data, after_zero).len() > 0,
    decreases data.len(),
{
    if data.len() > 0 {
        lemma_run_length(data, MAX_RUN as nat);
        let n = run_length(data, MAX_RUN as nat) as int;
        let block = seq![(n + 1) as u8] + data.take(n as int);
        assert forall|i: int| 0 <= i < block.len() implies block[i] != 0 by {
            if i > 0 {
                assert(block[i] == data[i - 1]);
            }
        }
        if n >= data.len() {
        } else if n == MAX_RUN {
            lemma_stuffed_has_no_zero(data.skip(n as int), false);
        } else {
            lemma_stuffed_has_no_zero(data.skip(n + 1), true);
        }
    }
}

/// The length of the stuffed form: one code byte for every 254 payload bytes
/// begun, so at most `len + len / 254 + 1`.
pub proof fn lemma_stuffed_len(data: Seq<u8>, after_zero: bool)
    ensures
        stuffed_from(data, after_zero).len() <= data.len() + data.len() / 254 + 1,
        data.len() < 254 ==> stuffed_from(data, after_zero).len() == data.len() + 1 || (
        data.len() == 0 && !after_zero && stuffed_from(data, after_zero).len() == 0),
    decreases data.len(),
{
    if data.len() > 0 {
        lemma_run_length(data, MAX_RUN as nat);
        let n = run_length(data, MAX_RUN as nat) as int;
        if n >= data.len() {
        } else if n == MAX_RUN {
            lemma_stuffed_len(data.skip(n as int), false);
        } else {
            lemma_stuffed_len(data.skip(n + 1), true);
        }
    }
}

/// Unstuffing the stuffed form of a payload gives the payload back.
pub proof fn lemma_unstuff_stuffed(data: Seq<u8>, after_zero: bool)
    ensures
        unstuffed(stuffed_from(data, after_zero)) == Some(data),
    decreases data.len(),
{
    let e = stuffed_from(data, after_zero);
    if data.len() == 0 {
        if after_zero {
            assert(e.subrange(1, 1) =~= data);
        } else {
            assert(data =~= Seq::empty());
        }
    } else {
        lemma_run_length(data, MAX_RUN as nat);
        let n = run_length(data, MAX_RUN as nat) as int;
        let block = seq![(n + 1) as u8] + data.take(n as int);
        assert(e[0] == (n + 1) as u8);
        if n >= data.len() {
            assert(e.subrange(1, n + 1) =~= data);
        } else if n == MAX_RUN {
            let rest = data.skip(n as int);
            let s = stuffed_from(rest, false);
            lemma_unstuff_stuffed(rest, false);
            lemma_stuffed_has_no_zero(rest, false);
            assert(e.subrange(1, n + 1) =~= data.take(n as int));
            assert(e.skip(n + 1) =~= s);
            assert(data.take(n as int) + rest =~= data);
        } else {
            let rest = data.skip(n + 1);
            let s = stuffed_from(rest, true);
            lemma_unstuff_stuffed(rest, true);
            lemma_stuffed_has_no_zero(rest, true);
            assert(e.subrange(1, n + 1) =~= data.take(n as int));
            assert(e.skip(n + 1) =~= s);
            assert(data.take(n as int).push(0u8) + rest =~= data);
        }
    }
}

/// A stuffed payload closed by a zero has that payload's stuffed form as its
/// body.
pub proof fn lemma_body_of_closed(data: Seq<u8>)
    ensures
        body_of(stuffed(data).push(0u8)) == stuffed(data),
{
    let e = stuffed(data);
    let f = e.push(0u8);
    lemma_stuffed_has_no_zero(data, false);
    lemma_run_length(f, f.len());
    let n = run_length(f, f.len()) as int;
    if n < e.len() {
        assert(f[n as int] == e[n as int]);
    }
    if n > e.len() {
        assert(f[e.len() as int] == 0);
    }
    assert(f.take(n as int) =~= e);
}

/// Counts the non-zero bytes at the front of `s[at..]`, up to `cap`.
fn count_run(s: &[u8], at: usize, cap: usize) -> (n: usize)
    requires
        at <= s.len(),
    ensures
        n == run_length(s@.skip(at as int), cap as nat),
        at + n <= s.len(),
        n <= cap,
{
    let mut n: usize = 0;
    proof {
        lemma_run_length(s@.skip(at as int), cap as nat);
    }
    while n < cap && at + n < s.len() && s[at + n] != 0
        invariant
            at <= s.len(),
            at + n <= s.len(),
            n <= cap,
            run_length(s@.skip(at as int), cap as nat) == n + run_length(
                s@.skip(at + n),
                (cap - n) as nat,
            ),
        decreases cap - n,
    {
        let ghost t = s@.skip(at + n);
        assert(t[0] == s[at + n]);
        assert(t.skip(1) =~= s@.skip(at + n + 1));
        n = n + 1;
    }
    proof {
        let t = s@.skip(at + n);
        if n < cap && at + n < s.len() {
            assert(t[0] == s[at + n]);
        }
    }
    n
}

/// Stuffs a payload. The closing zero is not written.
pub fn stuff(data: &[u8]) -> (r: Vec<u8>)
    ensures
        r@ == stuffed(data@),
{
    let mut out: Vec<u8> = Vec::new();
    let mut at: usize = 0;
    let mut after_zero = false;
    assert(data@.skip(0) =~= data@);
    while at < data.len()
        invariant
            at <= data.len(),
            stuffed(data@) == out@ + stuffed_from(data@.skip(at as int), after_zero),
        decreases data.len() - at,
    {
        let ghost here = data@.skip(at as int);
        let ghost before = out@;
        let n = count_run(data, at, MAX_RUN);
        out.push((n + 1) as u8);
        let mut k: usize = 0;
        while k < n
            invariant
                k <= n,
                at + n <= data.len(),
                here == data@.skip(at as int),
                out@ == before.push((n + 1) as u8) + here.take(k as int),
            decreases n - k,
        {
            out.push(data[at + k]);
            assert(here[k as int] == data[at + k]);
            assert(here.take(k + 1) =~= here.take(k as int).push(here[k as int]));
            assert(out@ =~= before.push((n + 1) as u8) + here.take(k + 1));
            k = k + 1;
        }
        assert(out@ =~= before + (seq![(n + 1) as u8] + here.take(n as int)));
        if at + n >= data.len() {
            assert(stuffed_from(data@.skip(data.len() as int), false) =~= Seq::<u8>::empty());
            at = data.len();
            after_zero = false;
        } else if n == MAX_RUN {
            assert(here.skip(n as int) =~= data@.skip(at + n));
            at = at + n;
            after_zero = false;
        } else {
            assert(here.skip(n + 1) =~= data@.skip(at + n + 1));
            at = at + n + 1;
            after_zero = true;
        }
    }
    if after_zero {
        out.push(1);
    }
    assert(out@ =~= stuffed(data@));
    out
}

/// Unstuffs a chain of blocks.
pub fn unstuff(enc: &[u8]) -> (r: Option<Vec<u8>>)
    ensures
        match unstuffed(enc@) {
            Some(data) => r matches Some(v) && v@ == data,
            None => r is None,
        },
{
    let mut out: Vec<u8> = Vec::new();
    let mut at: usize = 0;
    assert(enc@.skip(0) =~= enc@);
    while at < enc.len()
        invariant
            at <= enc.len(),
            unstuffed(enc@) == match unstuffed(enc@.skip(at as int)) {
                Some(tail) => Some(out@ + tail),
                None => None,
            },
        decreases enc.len() - at,
    {
        let ghost here = enc@.skip(at as int);
        let ghost before = out@;
        let code: usize = enc[at] as usize;
        assert(here[0] == enc[at as int]);
        if code == 0 || code > enc.len() - at {
            return None;
        }
        let mut k: usize = 1;
        while k < code
            invariant
                1 <= k <= code,
                at + code <= enc.len(),
                here == enc@.skip(at as int),
                out@ == before + here.subrange(1, k as int),
            decreases code - k,
        {
            out.push(enc[at + k]);
            assert(here[k as int] == enc[at + k]);
            assert(out@ =~= before + here.subrange(1, k + 1));
            k = k + 1;
        }
        assert(here.skip(code as int) =~= enc@.skip(at + code));
        at = at + code;
        if code != 255 && at < enc.len() {
            out.push(0);
        }
        proof {
            let rest = enc@.skip(at as int);
            let data = here.subrange(1, code as int);
            if rest.len() == 0 {
                assert(out@ + Seq::<u8>::empty() =~= before + data);
            } else {
                match unstuffed(rest) {
                    Some(tail) => {
                        if code == 255 {
                            assert(out@ + tail =~= before + (data + tail));
                        } else {
                            assert(out@ + tail =~= before + (data.push(0u8) + tail));
                        }
                    },
                    None => {},
                }
            }
        }
    }
    assert(out@ + Seq::<u8>::empty() =~= out@);
    Some(out)
}

/// The part of a received buffer before its first zero.
pub fn body(frame: &[u8]) -> (r: &[u8])
    ensures
        r@ == body_of(frame@),
{
    assert(frame@.skip(0) =~= frame@);
    let n = count_run(frame, 0, frame.len());
    slice_subrange(frame, 0, n)
}

} // verus!
