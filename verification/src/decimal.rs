//! Decimal text of integers, as `{}` and `{:N}` print them.
use vstd::prelude::*;

verus! {

/// The decimal digits of `n`, without leading zeros ("0" for zero).
pub open spec fn digits(n: nat) -> Seq<u8>
    decreases n,
{
    if n < 10 {
        seq![(0x30 + n) as u8]
    } else {
        digits(n / 10).push((0x30 + n % 10) as u8)
    }
}

/// The decimal text of `n`, with a leading `-` when it is negative.
pub open spec fn signed_digits(n: int) -> Seq<u8> {
    if n < 0 {
        seq![0x2du8] + digits((-n) as nat)
    } else {
        digits(n as nat)
    }
}

/// `s` right-aligned in a field of `width` bytes: spaces in front when it
/// is shorter.
pub open spec fn pad_left(s: Seq<u8>, width: nat) -> Seq<u8> {
    if s.len() >= width {
        s
    } else {
        Seq::new((width - s.len()) as nat, |i: int| 0x20u8) + s
    }
}

/// `s` left-aligned in a field of `width` bytes: spaces after it when it
/// is shorter.
pub open spec fn pad_right(s: Seq<u8>, width: nat) -> Seq<u8> {
    if s.len() >= width {
        s
    } else {
        s + Seq::new((width - s.len()) as nat, |i: int| 0x20u8)
    }
}

/// `n` in decimal.
pub fn fmt_u64(n: u64) -> (r: Vec<u8>)
    ensures
        r@ == digits(n as nat),
    decreases n,
{
    if n < 10 {
        let d: u8 = (0x30 + n) as u8;
        vec![d]
    } else {
        let mut r = fmt_u64(n / 10);
        let d: u8 = (0x30 + n % 10) as u8;
        r.push(d);
        r
    }
}

/// `n` in decimal, signed.
pub fn fmt_i64(n: i64) -> (r: Vec<u8>)
    ensures
        r@ == signed_digits(n as int),
{
    if n < 0 {
        let m: i128 = n as i128;
        let neg: u64 = (-m) as u64;
        let mut r: Vec<u8> = vec![0x2d];
        let d = fmt_u64(neg);
        crate::bytes::push_all(&mut r, d.as_slice());
        r
    } else {
        fmt_u64(n as u64)
    }
}

/// Spaces in front of `s` up to `width` bytes.
pub fn pad_left_to(s: &[u8], width: usize) -> (r: Vec<u8>)
    ensures
        r@ == pad_left(s@, width as nat),
{
    let mut r: Vec<u8> = Vec::new();
    if s.len() < width {
        let fill = width - s.len();
        let mut i: usize = 0;
        while i < fill
            invariant
                i <= fill,
                r@ == Seq::new(i as nat, |k: int| 0x20u8),
            decreases fill - i,
        {
            r.push(0x20);
            i = i + 1;
            assert(r@ =~= Seq::new(i as nat, |k: int| 0x20u8));
        }
    }
    crate::bytes::push_all(&mut r, s);
    proof {
        if s@.len() >= width {
            assert(r@ =~= s@);
        }
    }
    r
}

/// Spaces after `s` up to `width` bytes.
pub fn pad_right_to(s: &[u8], width: usize) -> (r: Vec<u8>)
    ensures
        r@ == pad_right(s@, width as nat),
{
    let mut r = crate::bytes::copy_bytes(s);
    let mut i: usize = s.len();
    while i < width
        invariant
            s@.len() <= i <= width || (i == s@.len() && i >= width),
            r@ == s@ + Seq::new((i - s@.len()) as nat, |k: int| 0x20u8),
        decreases width - i,
    {
        r.push(0x20);
        i = i + 1;
        assert(r@ =~= s@ + Seq::new((i - s@.len()) as nat, |k: int| 0x20u8));
    }
    assert(s@.len() >= width ==> r@ =~= s@);
    r
}

} // verus!
