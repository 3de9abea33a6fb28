//! Little-endian integers in byte sequences.
use vstd::prelude::*;

verus! {

/// The bytes of a number, least significant first.
pub open spec fn le_bytes(v: nat, n: nat) -> Seq<u8>
    decreases n,
{
    if n == 0 {
        Seq::empty()
    } else {
        seq![(v % 256) as u8] + le_bytes(v / 256, (n - 1) as nat)
    }
}

/// The number that bytes stand for, least significant first.
pub open spec fn le_value(s: Seq<u8>) -> nat
    decreases s.len(),
{
    if s.len() == 0 {
        0
    } else {
        s[0] as nat + 256 * le_value(s.subrange(1, s.len() as int))
    }
}

/// The number at a position of a buffer.
pub open spec fn le_at(s: Seq<u8>, at: int, n: int) -> nat {
    le_value(s.subrange(at, at + n))
}

/// 256 to the power `n`: one more than the largest number of `n` bytes.
pub open spec fn le_limit(n: nat) -> nat
    decreases n,
{
    if n == 0 {
        1
    } else {
        256 * le_limit((n - 1) as nat)
    }
}

pub proof fn lemma_le_bytes_len(v: nat, n: nat)
    ensures
        le_bytes(v, n).len() == n,
    decreases n,
{
    if n > 0 {
        lemma_le_bytes_len(v / 256, (n - 1) as nat);
    }
}

/// A number that fits comes back from its bytes.
pub proof fn lemma_le_round_trip(v: nat, n: nat)
    requires
        v < le_limit(n),
    ensures
        le_value(le_bytes(v, n)) == v,
        le_bytes(v, n).len() == n,
    decreases n,
{
    if n > 0 {
        let m = (n - 1) as nat;
        assert(v / 256 < le_limit(m)) by (nonlinear_arith)
            requires
                v < 256 * le_limit(m),
        ;
        lemma_le_round_trip(v / 256, m);
        let s = le_bytes(v, n);
        assert(s.subrange(1, s.len() as int) =~= le_bytes(v / 256, m));
    }
}

/// Bytes stand for a number below the limit of their count.
pub proof fn lemma_le_value_bound(s: Seq<u8>)
    ensures
        le_value(s) < le_limit(s.len()),
    decreases s.len(),
{
    if s.len() > 0 {
        lemma_le_value_bound(s.subrange(1, s.len() as int));
    }
}

pub proof fn lemma_le_limits()
    ensures
        le_limit(1) == 0x100,
        le_limit(2) == 0x1_0000,
        le_limit(4) == 0x1_0000_0000,
        le_limit(8) == 0x1_0000_0000_0000_0000,
{
    reveal_with_fuel(le_limit, 9);
}

/// A signed word comes back from the unsigned word with the same bits.
pub proof fn lemma_signed_round_trip(x: i64)
    ensures
        (x as u64) as i64 == x,
{
    assert((x as u64) as i64 == x) by (bit_vector);
}

/// Appends a number in `n` bytes.
pub fn append_le(out: &mut Vec<u8>, v: u64, n: usize)
    ensures
        final(out)@ == old(out)@ + le_bytes(v as nat, n as nat),
    decreases n,
{
    if n > 0 {
        let low: u8 = (v % 256) as u8;
        out.push(low);
        append_le(out, v / 256, n - 1);
        assert(out@ =~= old(out)@ + le_bytes(v as nat, n as nat));
    } else {
        assert(out@ =~= old(out)@ + le_bytes(v as nat, 0));
    }
}

/// Reads a number of at most eight bytes at a position.
pub fn read_le(s: &[u8], at: usize, n: usize) -> (r: u64)
    requires
        at + n <= s@.len(),
        n <= 8,
    ensures
        r == le_at(s@, at as int, n as int),
        r < le_limit(n as nat),
    decreases n,
{
    proof {
        lemma_le_value_bound(s@.subrange(at as int, at + n));
        reveal_with_fuel(le_limit, 9);
    }
    if n == 0 {
        0
    } else {
        let len: usize = s.len();
        assert(at + n <= len);
        let rest: u64 = read_le(s, at + 1, n - 1);
        proof {
            assert(s@.subrange(at as int, at + n).subrange(1, n as int) =~= s@.subrange(
                at + 1,
                at + n,
            ));
        }
        s[at] as u64 + 256 * rest
    }
}

/// Appends zero bytes.
pub fn append_zeros(out: &mut Vec<u8>, n: usize)
    ensures
        final(out)@ == old(out)@ + Seq::new(n as nat, |i: int| 0u8),
{
    let ghost before = out@;
    let mut i: usize = 0;
    while i < n
        invariant
            i <= n,
            out@ == before + Seq::new(i as nat, |k: int| 0u8),
        decreases n - i,
    {
        out.push(0);
        i = i + 1;
        assert(out@ =~= before + Seq::new(i as nat, |k: int| 0u8));
    }
    assert(out@ =~= before + Seq::new(n as nat, |k: int| 0u8));
}

/// The number of two rows of bytes is that of the first plus that of the second
/// in units of one more than the largest number of the first; a single byte is
/// its own number.
pub proof fn law_number_of_bytes(s: Seq<u8>, t: Seq<u8>, x: u8)
    ensures
        le_value(s + t) == le_value(s) + le_limit(s.len()) * le_value(t),
        le_value(seq![x]) == x,
        le_value(Seq::<u8>::empty()) == 0,
        le_limit(0) == 1,
        le_limit(s.len() + 1) == 256 * le_limit(s.len()),
    decreases s.len(),
{
    assert(seq![x].subrange(1, 1) =~= Seq::<u8>::empty());
    reveal_with_fuel(le_value, 2);
    if s.len() == 0 {
        assert(s + t =~= t);
        let v = le_value(t) as int;
        assert(1 * v == v) by (nonlinear_arith);
    } else {
        let r = s.subrange(1, s.len() as int);
        law_number_of_bytes(r, t, x);
        let all = s + t;
        assert(all.subrange(1, all.len() as int) =~= r + t);
        let (a, b, c) = (le_value(r) as int, le_limit(r.len()) as int, le_value(t) as int);
        assert(256 * (a + b * c) == 256 * a + (256 * b) * c) by (nonlinear_arith);
        assert(all[0] == s[0]);
        assert(le_limit(s.len()) == 256 * b);
        assert(le_value(all) == s[0] + 256 * (a + b * c));
    }
}

/// The bytes of a number are its digits to the base of two hundred and
/// fifty-six, the lowest first.
pub proof fn law_bytes_are_digits(v: nat, n: nat)
    requires
        n > 0,
    ensures
        le_bytes(v, n)[0] == v % 256,
        le_bytes(v, n).subrange(1, n as int) == le_bytes(v / 256, (n - 1) as nat),
        le_bytes(v, n).len() == n,
{
    lemma_le_bytes_len(v, n);
    lemma_le_bytes_len(v / 256, (n - 1) as nat);
    assert(le_bytes(v, n).subrange(1, n as int) =~= le_bytes(v / 256, (n - 1) as nat));
}

/// A number in a buffer is that of the bytes from its place on.
pub proof fn law_number_in_buffer(s: Seq<u8>, at: int, n: int)
    requires
        0 <= at && 0 <= n && at + n <= s.len(),
    ensures
        le_at(s, at, n) == le_value(s.subrange(at, at + n)),
        n > 0 ==> le_at(s, at, n) == s[at] + 256 * le_at(s, at + 1, n - 1),
{
    if n > 0 {
        let t = s.subrange(at, at + n);
        assert(t.subrange(1, n) =~= s.subrange(at + 1, at + n));
    }
}

} // verus!
