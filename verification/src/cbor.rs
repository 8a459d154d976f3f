//! Wire codec: a compact, canonical, map-free binary item layer.
//!
//! Every protocol message is one definite-length array of items; an item is
//! an unsigned integer, a text string, a byte string, a nested array header,
//! or the explicit null marker.  An item starts with a header byte whose
//! high three bits give the major type and whose low five bits give either a
//! small value directly or the width of the big-endian value that follows.
//! The encoder always emits the shortest header that fits, so equal values
//! always produce identical bytes.

use vstd::prelude::*;
use vstd::arithmetic::div_mod::{lemma_fundamental_div_mod, lemma_fundamental_div_mod_converse};

verus! {

/// Number of distinct values a big-endian integer of `k` bytes can take.
pub open spec fn pow256(k: nat) -> nat
    decreases k,
{
    if k == 0 {
        1
    } else {
        256 * pow256((k - 1) as nat)
    }
}

/// The `k`-byte big-endian encoding of `n`.
pub open spec fn be_bytes(n: nat, k: nat) -> Seq<u8>
    decreases k,
{
    if k == 0 {
        Seq::empty()
    } else {
        be_bytes(n / 256, (k - 1) as nat) + seq![(n % 256) as u8]
    }
}

/// The value a big-endian byte string denotes.
pub open spec fn be_val(s: Seq<u8>) -> nat
    decreases s.len(),
{
    if s.len() == 0 {
        0
    } else {
        be_val(s.drop_last()) * 256 + s.last() as nat
    }
}

pub proof fn lemma_pow256_unfold()
    ensures
        pow256(1) == 0x100,
        pow256(2) == 0x10000,
        pow256(4) == 0x1_0000_0000,
        pow256(8) == 0x1_0000_0000_0000_0000,
{
    assert(pow256(0) == 1);
    assert(pow256(1) == 0x100);
    assert(pow256(2) == 0x10000);
    assert(pow256(3) == 0x100_0000);
    assert(pow256(4) == 0x1_0000_0000);
    assert(pow256(5) == 0x100_0000_0000);
    assert(pow256(6) == 0x1_0000_0000_0000);
    assert(pow256(7) == 0x100_0000_0000_0000);
    assert(pow256(8) == 0x1_0000_0000_0000_0000);
}

pub proof fn lemma_pow256_pos(k: nat)
    ensures
        pow256(k) >= 1,
    decreases k,
{
    if k > 0 {
        lemma_pow256_pos((k - 1) as nat);
    }
}

/// `pow256` grows with its argument.
pub proof fn lemma_pow256_increases(a: nat, b: nat)
    requires
        a <= b,
    ensures
        pow256(a) <= pow256(b),
    decreases b,
{
    if a < b {
        lemma_pow256_increases(a, (b - 1) as nat);
        lemma_pow256_pos((b - 1) as nat);
        assert(256 * pow256((b - 1) as nat) >= pow256((b - 1) as nat)) by (nonlinear_arith)
            requires
                pow256((b - 1) as nat) >= 1,
        ;
    }
}

pub proof fn lemma_be_bytes_len(n: nat, k: nat)
    ensures
        be_bytes(n, k).len() == k,
    decreases k,
{
    if k > 0 {
        lemma_be_bytes_len(n / 256, (k - 1) as nat);
    }
}

/// Decoding undoes encoding for fixed-width big-endian integers.
pub proof fn lemma_be_bytes_val(n: nat, k: nat)
    requires
        n < pow256(k),
    ensures
        be_val(be_bytes(n, k)) == n,
    decreases k,
{
    if k > 0 {
        assert(n / 256 < pow256((k - 1) as nat)) by (nonlinear_arith)
            requires
                n < 256 * pow256((k - 1) as nat),
        ;
        lemma_be_bytes_val(n / 256, (k - 1) as nat);
        lemma_be_bytes_len(n / 256, (k - 1) as nat);
        assert(be_bytes(n, k).drop_last() =~= be_bytes(n / 256, (k - 1) as nat));
        assert(be_bytes(n, k).last() == (n % 256) as u8);
        lemma_fundamental_div_mod(n as int, 256);
    }
}

/// A big-endian byte string of length `k` denotes a value below `pow256(k)`.
pub proof fn lemma_be_val_bound(s: Seq<u8>)
    ensures
        be_val(s) < pow256(s.len()),
    decreases s.len(),
{
    if s.len() > 0 {
        lemma_be_val_bound(s.drop_last());
        assert(be_val(s.drop_last()) * 256 + (s.last() as nat) < 256 * pow256((s.len() - 1) as nat))
            by (nonlinear_arith)
            requires
                be_val(s.drop_last()) < pow256((s.len() - 1) as nat),
                s.last() < 256,
        ;
    }
}

/// The item header carrying major type `major` and value `val`.
pub open spec fn spec_header(major: u8, val: nat) -> Seq<u8>
    recommends
        major < 8,
        val < pow256(8),
{
    if val < 24 {
        seq![((major as nat) * 32 + val) as u8]
    } else if val < pow256(1) {
        seq![((major as nat) * 32 + 24) as u8] + be_bytes(val, 1)
    } else if val < pow256(2) {
        seq![((major as nat) * 32 + 25) as u8] + be_bytes(val, 2)
    } else if val < pow256(4) {
        seq![((major as nat) * 32 + 26) as u8] + be_bytes(val, 4)
    } else {
        seq![((major as nat) * 32 + 27) as u8] + be_bytes(val, 8)
    }
}

/// Reads one item header: the major type, its value, and the rest of the
/// input.  `None` means the input is malformed or truncated here.
pub open spec fn spec_read_header(s: Seq<u8>) -> Option<(u8, nat, Seq<u8>)> {
    if s.len() == 0 {
        None
    } else {
        let major = s[0] / 32;
        let info = s[0] % 32;
        if info < 24 {
            Some((major, info as nat, s.skip(1)))
        } else if info == 24 {
            if s.len() >= 2 {
                Some((major, s[1] as nat, s.skip(2)))
            } else {
                None
            }
        } else if info == 25 {
            if s.len() >= 3 {
                Some((major, be_val(s.subrange(1, 3)), s.skip(3)))
            } else {
                None
            }
        } else if info == 26 {
            if s.len() >= 5 {
                Some((major, be_val(s.subrange(1, 5)), s.skip(5)))
            } else {
                None
            }
        } else if info == 27 {
            if s.len() >= 9 {
                Some((major, be_val(s.subrange(1, 9)), s.skip(9)))
            } else {
                None
            }
        } else {
            None
        }
    }
}

/// Reading undoes writing for item headers, whatever follows them.
pub proof fn lemma_header_round_trip(major: u8, val: nat, rest: Seq<u8>)
    requires
        major < 8,
        val < pow256(8),
    ensures
        spec_read_header(spec_header(major, val) + rest) == Some((major, val, rest)),
{
    lemma_pow256_unfold();
    let s = spec_header(major, val) + rest;
    if val < 24 {
        let b = ((major as nat) * 32 + val) as u8;
        assert(s[0] == b);
        lemma_fundamental_div_mod_converse(b as int, 32, major as int, val as int);
        assert(s.skip(1) =~= rest);
    } else {
        let info: nat = if val < pow256(1) {
            24
        } else if val < pow256(2) {
            25
        } else if val < pow256(4) {
            26
        } else {
            27
        };
        let k: nat = if val < pow256(1) {
            1
        } else if val < pow256(2) {
            2
        } else if val < pow256(4) {
            4
        } else {
            8
        };
        let b = ((major as nat) * 32 + info) as u8;
        lemma_be_bytes_len(val, k);
        assert(s[0] == b);
        lemma_fundamental_div_mod_converse(b as int, 32, major as int, info as int);
        assert(s.subrange(1, 1 + k as int) =~= be_bytes(val, k));
        lemma_be_bytes_val(val, k);
        assert(s.skip(1 + k as int) =~= rest);
    }
}

/// Appends the `k`-byte big-endian form of `val`.
pub fn push_be(out: &mut Vec<u8>, val: u64, k: usize)
    requires
        k <= 8,
        (val as nat) < pow256(k as nat),
    ensures
        final(out)@ == old(out)@ + be_bytes(val as nat, k as nat),
    decreases k,
{
    if k == 0 {
        assert(out@ =~= old(out)@ + be_bytes(val as nat, 0));
    } else {
        assert(((val / 256) as nat) < pow256((k - 1) as nat)) by (nonlinear_arith)
            requires
                (val as nat) < 256 * pow256((k - 1) as nat),
        ;
        push_be(out, val / 256, k - 1);
        out.push((val % 256) as u8);
        assert(out@ =~= old(out)@ + be_bytes(val as nat, k as nat));
    }
}

/// Appends the shortest header carrying `major` and `val`.
pub fn push_header(out: &mut Vec<u8>, major: u8, val: u64)
    requires
        major < 8,
    ensures
        final(out)@ == old(out)@ + spec_header(major, val as nat),
{
    proof {
        lemma_pow256_unfold();
    }
    if val < 24 {
        out.push(major * 32 + val as u8);
        assert(out@ =~= old(out)@ + spec_header(major, val as nat));
    } else if val < 0x100 {
        out.push(major * 32 + 24);
        push_be(out, val, 1);
        assert(out@ =~= old(out)@ + spec_header(major, val as nat));
    } else if val < 0x10000 {
        out.push(major * 32 + 25);
        push_be(out, val, 2);
        assert(out@ =~= old(out)@ + spec_header(major, val as nat));
    } else if val < 0x1_0000_0000 {
        out.push(major * 32 + 26);
        push_be(out, val, 4);
        assert(out@ =~= old(out)@ + spec_header(major, val as nat));
    } else {
        out.push(major * 32 + 27);
        push_be(out, val, 8);
        assert(out@ =~= old(out)@ + spec_header(major, val as nat));
    }
}

/// Reads `k` big-endian bytes starting at `pos`.
pub fn read_be(buf: &Vec<u8>, pos: usize, k: usize) -> (val: u64)
    requires
        k <= 8,
        pos + k <= buf@.len(),
    ensures
        val as nat == be_val(buf@.subrange(pos as int, pos + k)),
{
    let len: usize = buf.len();
    let mut val: u64 = 0;
    let mut i: usize = 0;
    assert(buf@.subrange(pos as int, pos as int) =~= Seq::empty());
    while i < k
        invariant
            i <= k,
            k <= 8,
            len == buf@.len(),
            pos + k <= len,
            val as nat == be_val(buf@.subrange(pos as int, pos + i)),
            (val as nat) < pow256(i as nat),
        decreases k - i,
    {
        proof {
            lemma_pow256_unfold();
            lemma_pow256_increases((i + 1) as nat, 8);
            assert((val as nat) * 256 + 255 < pow256((i + 1) as nat)) by (nonlinear_arith)
                requires
                    (val as nat) < pow256(i as nat),
                    pow256((i + 1) as nat) == 256 * pow256(i as nat),
            ;
        }
        let b: u8 = buf[pos + i];
        let new_val: u64 = val * 256 + b as u64;
        proof {
            assert(buf@.subrange(pos as int, pos + i + 1).drop_last() =~= buf@.subrange(
                pos as int,
                pos + i,
            ));
            assert(buf@.subrange(pos as int, pos + i + 1).last() == b);
        }
        val = new_val;
        i = i + 1;
    }
    val
}

/// Reads one item header at `pos`; gives the major type, the value, and the
/// position just past the header.
pub fn read_header(buf: &Vec<u8>, pos: usize) -> (r: Option<(u8, u64, usize)>)
    requires
        pos <= buf@.len(),
    ensures
        match r {
            Some((major, val, end)) => {
                &&& spec_read_header(buf@.skip(pos as int)) == Some(
                    (major, val as nat, buf@.skip(end as int)),
                )
                &&& pos < end <= buf@.len()
                &&& major < 8
            },
            None => spec_read_header(buf@.skip(pos as int)) is None,
        },
{
    let ghost s = buf@.skip(pos as int);
    if pos >= buf.len() {
        return None;
    }
    let b: u8 = buf[pos];
    let major: u8 = b / 32;
    let info: u8 = b % 32;
    assert(s[0] == b);
    if info < 24 {
        assert(s.skip(1) =~= buf@.skip(pos + 1));
        Some((major, info as u64, pos + 1))
    } else if info == 24 {
        if buf.len() - pos >= 2 {
            assert(s.skip(2) =~= buf@.skip(pos + 2));
            assert(s[1] == buf@[pos + 1]);
            Some((major, buf[pos + 1] as u64, pos + 2))
        } else {
            None
        }
    } else if info == 25 {
        if buf.len() - pos >= 3 {
            let val: u64 = read_be(buf, pos + 1, 2);
            assert(s.skip(3) =~= buf@.skip(pos + 3));
            assert(s.subrange(1, 3) =~= buf@.subrange(pos + 1, pos + 3));
            Some((major, val, pos + 3))
        } else {
            None
        }
    } else if info == 26 {
        if buf.len() - pos >= 5 {
            let val: u64 = read_be(buf, pos + 1, 4);
            assert(s.skip(5) =~= buf@.skip(pos + 5));
            assert(s.subrange(1, 5) =~= buf@.subrange(pos + 1, pos + 5));
            Some((major, val, pos + 5))
        } else {
            None
        }
    } else if info == 27 {
        if buf.len() - pos >= 9 {
            let val: u64 = read_be(buf, pos + 1, 8);
            assert(s.skip(9) =~= buf@.skip(pos + 9));
            assert(s.subrange(1, 9) =~= buf@.subrange(pos + 1, pos + 9));
            proof {
                lemma_be_val_bound(s.subrange(1, 9));
                lemma_pow256_unfold();
            }
            Some((major, val, pos + 9))
        } else {
            None
        }
    } else {
        None
    }
}

} // verus!
