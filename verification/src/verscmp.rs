//! glibc's `strverscmp` state machine, used for version ordering.
use vstd::prelude::*;
use crate::decimal::digits;

verus! {

/// States of the scanner: normal, integral part, fractional part, leading zeros.
pub const S_N: usize = 0x0;
pub const S_I: usize = 0x4;
pub const S_F: usize = 0x8;
pub const S_Z: usize = 0xC;

/// Result kinds: compare the differing bytes, or compare digit-run lengths.
pub const BY_BYTE: i32 = 2;
pub const BY_LENGTH: i32 = 3;

/// The byte at `i`, or NUL past the end (C string semantics).
pub open spec fn byte_at(s: Seq<u8>, i: int) -> u8 {
    if 0 <= i < s.len() { s[i] } else { 0 }
}

pub open spec fn is_digit(c: u8) -> bool {
    0x30 <= c <= 0x39
}

/// Character class: 0 for a non-digit, 1 for `1`..`9`, 2 for `0`.
pub open spec fn class_of(c: u8) -> int {
    (if c == 0x30 { 1int } else { 0int }) + (if is_digit(c) { 1int } else { 0int })
}

/// The transition table, indexed by state plus class.
pub open spec fn next_state(state: int) -> int {
    if state == 1 || state == 5 || state == 6 || state == 7 {
        S_I as int
    } else if state == 2 || state == 14 || state == 15 {
        S_Z as int
    } else if state == 9 || state == 10 || state == 11 || state == 13 {
        S_F as int
    } else {
        S_N as int
    }
}

/// The result table, indexed by `state * 4 + class(c2)`.
pub open spec fn result_type(idx: int) -> int {
    if idx == 5 || idx == 21 || idx == 22 || idx == 25 || idx == 26 || idx == 37 {
        BY_LENGTH as int
    } else if idx == 17 || idx == 18 || idx == 52 || idx == 56 {
        -1
    } else if idx == 20 || idx == 24 || idx == 49 || idx == 50 {
        1
    } else {
        BY_BYTE as int
    }
}

/// Walk the common prefix: returns the index of the first differing byte
/// (or of the terminating NUL) and the state reached there.
pub open spec fn scan(s1: Seq<u8>, s2: Seq<u8>, k: nat, state: int) -> (nat, int)
    decreases s1.len() - k,
{
    let c1 = byte_at(s1, k as int);
    if c1 == byte_at(s2, k as int) && c1 != 0 {
        scan(s1, s2, k + 1, next_state(state) + class_of(byte_at(s1, k + 1int)))
    } else {
        (k, state)
    }
}

/// Compare the lengths of the digit runs starting at `i` in both strings.
pub open spec fn digit_runs(s1: Seq<u8>, s2: Seq<u8>, i: nat, diff: int) -> int
    decreases s1.len() - i,
{
    if is_digit(byte_at(s1, i as int)) {
        if !is_digit(byte_at(s2, i as int)) {
            1
        } else {
            digit_runs(s1, s2, i + 1, diff)
        }
    } else if is_digit(byte_at(s2, i as int)) {
        -1
    } else {
        diff
    }
}

/// What `strverscmp(s1, s2)` returns.
pub open spec fn version_order(s1: Seq<u8>, s2: Seq<u8>) -> int {
    let (k, state) = scan(s1, s2, 0, class_of(byte_at(s1, 0)));
    let diff = byte_at(s1, k as int) - byte_at(s2, k as int);
    let rt = result_type(state * 4 + class_of(byte_at(s2, k as int)));
    if rt == BY_BYTE as int {
        diff
    } else if rt == BY_LENGTH as int {
        digit_runs(s1, s2, k + 1, diff)
    } else {
        rt
    }
}

fn at(s: &[u8], i: usize) -> (c: u8)
    ensures
        c == byte_at(s@, i as int),
{
    if i < s.len() {
        s[i]
    } else {
        0
    }
}

fn digit(c: u8) -> (r: bool)
    ensures
        r == is_digit(c),
{
    0x30 <= c && c <= 0x39
}

fn class(c: u8) -> (r: usize)
    ensures
        r == class_of(c),
{
    (if c == 0x30 { 1 } else { 0 }) + (if digit(c) { 1 } else { 0 })
}

fn next(state: usize) -> (r: usize)
    ensures
        r == next_state(state as int),
{
    if state == 1 || state == 5 || state == 6 || state == 7 {
        S_I
    } else if state == 2 || state == 14 || state == 15 {
        S_Z
    } else if state == 9 || state == 10 || state == 11 || state == 13 {
        S_F
    } else {
        S_N
    }
}

fn result_of(idx: usize) -> (r: i32)
    ensures
        r == result_type(idx as int),
{
    if idx == 5 || idx == 21 || idx == 22 || idx == 25 || idx == 26 || idx == 37 {
        BY_LENGTH
    } else if idx == 17 || idx == 18 || idx == 52 || idx == 56 {
        -1
    } else if idx == 20 || idx == 24 || idx == 49 || idx == 50 {
        1
    } else {
        BY_BYTE
    }
}

/// Version-aware comparison: negative, zero or positive as `s1` sorts
/// before, with or after `s2`; runs of digits compare by value, and runs
/// with leading zeros as fractional parts.
pub fn strverscmp(s1: &[u8], s2: &[u8]) -> (r: i32)
    ensures
        r == version_order(s1@, s2@),
{
    order_versions(s1, s2)
}

fn byte_diff(c1: u8, c2: u8) -> (d: i32)
    ensures
        d == c1 - c2,
{
    c1 as i32 - c2 as i32
}

fn order_versions(s1: &[u8], s2: &[u8]) -> (r: i32)
    ensures
        r == version_order(s1@, s2@),
{
    let n1 = s1.len();
    let mut k: usize = 0;
    let mut c1 = at(s1, 0);
    let mut c2 = at(s2, 0);
    let mut state = class(c1);
    let mut diff: i32 = byte_diff(c1, c2);
    let ghost start = scan(s1@, s2@, 0, class_of(byte_at(s1@, 0)));
    while diff == 0 && c1 != 0
        invariant
            n1 == s1@.len(),
            k <= s1@.len(),
            c1 == byte_at(s1@, k as int),
            c2 == byte_at(s2@, k as int),
            diff == c1 - c2,
            state < 16,
            state % 4 == class_of(c1),
            scan(s1@, s2@, k as nat, state as int) == start,
        decreases s1@.len() - k,
    {
        assert(k < s1@.len());
        state = next(state) + class(at(s1, k + 1));
        k = k + 1;
        c1 = at(s1, k);
        c2 = at(s2, k);
        diff = byte_diff(c1, c2);
    }
    assert(scan(s1@, s2@, k as nat, state as int) == (k as nat, state as int));
    let rt = result_of(state * 4 + class(c2));
    if rt == BY_BYTE {
        diff
    } else if rt == BY_LENGTH {
        assert(state % 4 != 0);
        assert(k < s1@.len());
        assert(version_order(s1@, s2@) == digit_runs(s1@, s2@, (k + 1) as nat, diff as int));
        let mut i: usize = k + 1;
        while digit(at(s1, i))
            invariant
                n1 == s1@.len(),
                k < s1@.len(),
                version_order(s1@, s2@) == digit_runs(s1@, s2@, (k + 1) as nat, diff as int),
                k + 1 <= i <= s1@.len(),
                digit_runs(s1@, s2@, i as nat, diff as int) == digit_runs(
                    s1@,
                    s2@,
                    (k + 1) as nat,
                    diff as int,
                ),
            decreases s1@.len() - i,
        {
            if !digit(at(s2, i)) {
                assert(digit_runs(s1@, s2@, i as nat, diff as int) == 1);
                return 1;
            }
            i = i + 1;
        }
        if digit(at(s2, i)) {
            -1
        } else {
            diff
        }
    } else {
        rt
    }
}

/// Every string compares equal to itself.
pub proof fn version_order_reflexive(s: Seq<u8>)
    ensures
        version_order(s, s) == 0,
{
    lemma_scan_same(s, 0, class_of(byte_at(s, 0)));
}

proof fn lemma_scan_same(s: Seq<u8>, k: nat, state: int)
    requires
        state % 4 == class_of(byte_at(s, k as int)),
        0 <= state < 16,
    ensures
        ({
            let (e, st) = scan(s, s, k, state);
            byte_at(s, e as int) == 0 && st % 4 == 0 && 0 <= st < 16
        }),
    decreases s.len() - k,
{
    if byte_at(s, k as int) != 0 {
        lemma_scan_same(s, k + 1, next_state(state) + class_of(byte_at(s, k + 1int)));
    }
}

/// One of the four scanner states.
pub open spec fn is_base(b: int) -> bool {
    b == S_N as int || b == S_I as int || b == S_F as int || b == S_Z as int
}

proof fn lemma_next_state_base(state: int)
    ensures
        is_base(next_state(state)),
{
}

proof fn lemma_scan_swap(s1: Seq<u8>, s2: Seq<u8>, k: nat, b: int)
    requires
        is_base(b),
    ensures
        ({
            let (k1, st1) = scan(s1, s2, k, b + class_of(byte_at(s1, k as int)));
            let (k2, st2) = scan(s2, s1, k, b + class_of(byte_at(s2, k as int)));
            &&& k1 == k2
            &&& is_base(st1 - class_of(byte_at(s1, k1 as int)))
            &&& st1 - class_of(byte_at(s1, k1 as int)) == st2 - class_of(byte_at(s2, k1 as int))
        }),
    decreases s1.len() - k,
{
    let c1 = byte_at(s1, k as int);
    if c1 == byte_at(s2, k as int) && c1 != 0 {
        let nb = next_state(b + class_of(c1));
        lemma_next_state_base(b + class_of(c1));
        lemma_scan_swap(s1, s2, k + 1, nb);
    }
}

proof fn lemma_digit_runs_swap(s1: Seq<u8>, s2: Seq<u8>, i: nat, diff: int)
    ensures
        digit_runs(s1, s2, i, diff) == -digit_runs(s2, s1, i, -diff),
    decreases s1.len() - i,
{
    if is_digit(byte_at(s1, i as int)) && is_digit(byte_at(s2, i as int)) {
        lemma_digit_runs_swap(s1, s2, i + 1, diff);
    }
}

/// Swapping the arguments negates the answer: `strverscmp` orders the
/// two strings the same way whichever comes first.
pub proof fn law_version_order_antisymmetric(s1: Seq<u8>, s2: Seq<u8>)
    ensures
        version_order(s1, s2) == -version_order(s2, s1),
{
    lemma_scan_swap(s1, s2, 0, S_N as int);
    let (k, st1) = scan(s1, s2, 0, class_of(byte_at(s1, 0)));
    let (k2, st2) = scan(s2, s1, 0, class_of(byte_at(s2, 0)));
    let c1 = byte_at(s1, k as int);
    let c2 = byte_at(s2, k as int);
    let b = st1 - class_of(c1);
    assert(st2 == b + class_of(c2));
    let diff = c1 - c2;
    lemma_digit_runs_swap(s1, s2, k + 1, diff);
    assert(0 <= class_of(c1) <= 2 && 0 <= class_of(c2) <= 2);
    if c1 == c2 {
        assert(result_type(st1 * 4 + class_of(c2)) == result_type(st2 * 4 + class_of(c1)));
    }
}

/// Every byte of `s` is an ASCII digit.
pub open spec fn all_digits(s: Seq<u8>) -> bool {
    forall|i: int| 0 <= i < s.len() ==> is_digit(s[i])
}

/// A number as it is written: at least one digit, and no leading zero.
pub open spec fn plain_number(s: Seq<u8>) -> bool {
    s.len() > 0 && all_digits(s) && s[0] != 0x30
}

/// Text after which a run of digits starts afresh: no NUL byte in it, and
/// empty or ending in a non-digit.
pub open spec fn number_prefix(p: Seq<u8>) -> bool {
    (forall|i: int| 0 <= i < p.len() ==> p[i] != 0) && (p.len() == 0 || !is_digit(p.last()))
}

proof fn lemma_byte_at_concat(p: Seq<u8>, a: Seq<u8>, i: int)
    ensures
        0 <= i < p.len() ==> byte_at(p + a, i) == p[i],
        p.len() <= i < p.len() + a.len() ==> byte_at(p + a, i) == a[i - p.len()],
        i >= p.len() + a.len() ==> byte_at(p + a, i) == 0,
{
}

/// Scanning the common prefix `p` ends in the normal state at its end.
proof fn lemma_scan_prefix(p: Seq<u8>, a: Seq<u8>, b: Seq<u8>, k: nat, base: int)
    requires
        number_prefix(p),
        k < p.len(),
        is_base(base),
    ensures
        scan(p + a, p + b, k, base + class_of(byte_at(p + a, k as int)))
            == scan(p + a, p + b, p.len(), S_N as int + class_of(byte_at(p + a, p.len() as int))),
    decreases p.len() - k,
{
    lemma_byte_at_concat(p, a, k as int);
    lemma_byte_at_concat(p, b, k as int);
    let c = p[k as int];
    let nb = next_state(base + class_of(c));
    lemma_next_state_base(base + class_of(c));
    if k + 1 < p.len() {
        lemma_scan_prefix(p, a, b, k + 1, nb);
    } else {
        assert(c == p.last());
        assert(nb == S_N as int);
    }
}

/// Inside a common run of digits that started a number, the scanner
/// stays in the integral state.
proof fn lemma_scan_number(p: Seq<u8>, a: Seq<u8>, b: Seq<u8>, m: nat, j: nat)
    requires
        all_digits(a),
        1 <= m <= j,
        j <= a.len(),
        j <= b.len(),
        a.take(j as int) == b.take(j as int),
    ensures
        scan(p + a, p + b, p.len() + m, S_I as int + class_of(byte_at(p + a, (p.len() + m) as int)))
            == scan(p + a, p + b, p.len() + j, S_I as int + class_of(byte_at(p + a, (p.len() + j) as int))),
    decreases j - m,
{
    if m < j {
        let k = p.len() + m;
        lemma_byte_at_concat(p, a, k as int);
        lemma_byte_at_concat(p, b, k as int);
        assert(a.take(j as int)[m as int] == a[m as int]);
        assert(b.take(j as int)[m as int] == b[m as int]);
        assert(is_digit(a[m as int]));
        lemma_scan_number(p, a, b, m + 1, j);
    }
}

proof fn lemma_digit_runs_lengths(s1: Seq<u8>, s2: Seq<u8>, i: nat, diff: int)
    requires
        i <= s1.len(),
        i <= s2.len(),
        forall|t: int| i <= t < s1.len() ==> is_digit(s1[t]),
        forall|t: int| i <= t < s2.len() ==> is_digit(s2[t]),
    ensures
        digit_runs(s1, s2, i, diff) == (if s1.len() < s2.len() {
            -1
        } else if s1.len() > s2.len() {
            1
        } else {
            diff
        }),
    decreases s1.len() - i,
{
    if i < s1.len() && i < s2.len() {
        lemma_digit_runs_lengths(s1, s2, i + 1, diff);
    }
}

/// Digit runs compare as numbers: after a common prefix that ends in a
/// non-digit, two numbers written without leading zeros compare by length
/// first, a longer one sorting after a shorter one whatever their digits;
/// of equal lengths, by their first differing digit `j`.
pub proof fn law_version_order_numbers(p: Seq<u8>, a: Seq<u8>, b: Seq<u8>, j: nat)
    requires
        number_prefix(p),
        plain_number(a),
        plain_number(b),
        j <= a.len(),
        j <= b.len(),
        a.take(j as int) == b.take(j as int),
        j < a.len() && j < b.len() ==> a[j as int] != b[j as int],
        !(j == a.len() && j == b.len()),
    ensures
        version_order(p + a, p + b) == (if a.len() < b.len() {
            -1
        } else if a.len() > b.len() {
            1
        } else {
            a[j as int] - b[j as int]
        }),
{
    let s1 = p + a;
    let s2 = p + b;
    let n = p.len();
    lemma_byte_at_concat(p, a, n as int);
    lemma_byte_at_concat(p, b, n as int);
    lemma_byte_at_concat(p, a, 0);
    assert(class_of(a[0]) == 1);
    assert(class_of(b[0]) == 1);
    let start = scan(s1, s2, 0, class_of(byte_at(s1, 0)));
    if n > 0 {
        lemma_scan_prefix(p, a, b, 0, S_N as int);
    } else {
        assert(s1 =~= a);
    }
    assert(start == scan(s1, s2, n, 1));
    let k = n + j;
    lemma_byte_at_concat(p, a, k as int);
    lemma_byte_at_concat(p, b, k as int);
    if j == 0 {
        assert(a[0] != b[0]);
        assert(start == (n, 1int));
        assert(result_type(1 * 4 + class_of(b[0])) == BY_LENGTH as int);
    } else {
        assert(a.take(j as int)[0] == a[0]);
        assert(b.take(j as int)[0] == b[0]);
        assert(scan(s1, s2, n, 1) == scan(s1, s2, n + 1, S_I as int + class_of(byte_at(s1, (n + 1) as int))));
        lemma_scan_number(p, a, b, 1, j);
        let st = S_I as int + class_of(byte_at(s1, k as int));
        if j < a.len() && j < b.len() {
            assert(is_digit(a[j as int]) && is_digit(b[j as int]));
            assert(start == (k, st));
            assert(result_type(st * 4 + class_of(b[j as int])) == BY_LENGTH as int);
        } else if j == a.len() {
            assert(is_digit(b[j as int]));
            assert(start == (k, S_I as int));
            assert(result_type(S_I as int * 4 + class_of(b[j as int])) == -1);
        } else {
            assert(is_digit(a[j as int]));
            assert(start == (k, st));
            assert(result_type(st * 4) == 1);
        }
    }
    if j < a.len() && j < b.len() {
        assert forall|t: int| k + 1 <= t < s1.len() implies is_digit(s1[t]) by {
            lemma_byte_at_concat(p, a, t);
        }
        assert forall|t: int| k + 1 <= t < s2.len() implies is_digit(s2[t]) by {
            lemma_byte_at_concat(p, b, t);
        }
        lemma_digit_runs_lengths(s1, s2, k + 1, a[j as int] - b[j as int]);
    }
}

pub proof fn lemma_digits_plain(n: nat)
    requires
        n >= 1,
    ensures
        plain_number(digits(n)),
        n >= 10 ==> digits(n).len() >= 2,
    decreases n,
{
    if n >= 10 {
        lemma_digits_plain(n / 10);
        let d = digits(n / 10);
        let c = (0x30 + n % 10) as u8;
        assert(digits(n) == d.push(c));
        assert(is_digit(c));
        assert forall|i: int| 0 <= i < d.push(c).len() implies is_digit(d.push(c)[i]) by {
            if i < d.len() {
                assert(d.push(c)[i] == d[i]);
            }
        }
        assert(d.push(c)[0] == d[0]);
    }
}

proof fn lemma_digits_len_mono(a: nat, b: nat)
    requires
        1 <= a <= b,
    ensures
        digits(a).len() <= digits(b).len(),
    decreases b,
{
    if b >= 10 {
        if a >= 10 {
            assert(a / 10 <= b / 10) by (nonlinear_arith)
                requires
                    a <= b,
            ;
            lemma_digits_len_mono(a / 10, b / 10);
        } else {
            lemma_digits_plain(b);
        }
    }
}

/// Of two numbers of the same length, the smaller has the smaller digit
/// where they first differ.
proof fn lemma_digits_first_diff(a: nat, b: nat) -> (j: int)
    requires
        1 <= a < b,
        digits(a).len() == digits(b).len(),
    ensures
        0 <= j < digits(a).len(),
        digits(a).take(j) == digits(b).take(j),
        digits(a)[j] < digits(b)[j],
    decreases b,
{
    if b < 10 {
        assert(digits(a).take(0) =~= digits(b).take(0));
        0
    } else {
        lemma_digits_plain(b);
        if a < 10 {
            assert(digits(a).len() == 1);
            assert(false);
            0
        } else {
            let qa = a / 10;
            let qb = b / 10;
            let ra = a % 10;
            let rb = b % 10;
            assert(a == qa * 10 + ra && b == qb * 10 + rb && ra < 10 && rb < 10) by (nonlinear_arith)
                requires
                    a >= 0,
                    b >= 0,
                    qa == a / 10,
                    qb == b / 10,
                    ra == a % 10,
                    rb == b % 10,
            ;
            assert(qa <= qb) by (nonlinear_arith)
                requires
                    a < b,
                    qa == a / 10,
                    qb == b / 10,
            ;
            assert(qa >= 1);
            let da = digits(qa);
            let db = digits(qb);
            assert(digits(a) == da.push((0x30 + ra) as u8));
            assert(digits(b) == db.push((0x30 + rb) as u8));
            if qa == qb {
                assert(ra < rb);
                let j = da.len() as int;
                assert(digits(a).take(j) =~= da);
                assert(digits(b).take(j) =~= db);
                j
            } else {
                let j = lemma_digits_first_diff(qa, qb);
                assert(digits(a).take(j) =~= da.take(j));
                assert(digits(b).take(j) =~= db.take(j));
                assert(digits(a)[j] == da[j]);
                assert(digits(b)[j] == db[j]);
                j
            }
        }
    }
}

/// The first place where `a` and `b` differ, or where the shorter ends.
proof fn lemma_common_prefix(a: Seq<u8>, b: Seq<u8>, i: int) -> (j: int)
    requires
        0 <= i <= a.len(),
        i <= b.len(),
        a.take(i) == b.take(i),
    ensures
        i <= j <= a.len(),
        j <= b.len(),
        a.take(j) == b.take(j),
        j < a.len() && j < b.len() ==> a[j] != b[j],
    decreases a.len() - i,
{
    if i < a.len() && i < b.len() && a[i] == b[i] {
        assert(a.take(i + 1) =~= a.take(i).push(a[i]));
        assert(b.take(i + 1) =~= b.take(i).push(b[i]));
        lemma_common_prefix(a, b, i + 1)
    } else {
        i
    }
}

/// Digit runs compare by value: after any common prefix that ends in a
/// non-digit (or is empty) and holds no NUL, the decimal text of a smaller
/// positive number sorts before that of a larger one, so `file15` comes
/// before `file120`.
pub proof fn law_version_order_by_value(p: Seq<u8>, a: nat, b: nat)
    requires
        number_prefix(p),
        1 <= a < b,
    ensures
        version_order(p + digits(a), p + digits(b)) < 0,
        version_order(p + digits(b), p + digits(a)) > 0,
{
    let da = digits(a);
    let db = digits(b);
    lemma_digits_plain(a);
    lemma_digits_plain(b);
    lemma_digits_len_mono(a, b);
    if da.len() < db.len() {
        assert(da.take(0) =~= db.take(0));
        let j = lemma_common_prefix(da, db, 0);
        law_version_order_numbers(p, da, db, j as nat);
    } else {
        let j = lemma_digits_first_diff(a, b);
        law_version_order_numbers(p, da, db, j as nat);
    }
    law_version_order_antisymmetric(p + digits(a), p + digits(b));
}

/// Inside a common run of zeros that started a number, the scanner stays
/// in the leading-zeros state.
proof fn lemma_scan_zeros(p: Seq<u8>, a: Seq<u8>, b: Seq<u8>, m: nat, n: nat)
    requires
        1 <= m <= n,
        n <= a.len(),
        n <= b.len(),
        forall|i: int| 0 <= i < n ==> a[i] == 0x30 && b[i] == 0x30,
    ensures
        scan(p + a, p + b, p.len() + m, S_Z as int + class_of(byte_at(p + a, (p.len() + m) as int)))
            == scan(p + a, p + b, p.len() + n, S_Z as int + class_of(byte_at(p + a, (p.len() + n) as int))),
    decreases n - m,
{
    if m < n {
        let k = p.len() + m;
        lemma_byte_at_concat(p, a, k as int);
        lemma_byte_at_concat(p, b, k as int);
        assert(a[m as int] == 0x30 && b[m as int] == 0x30);
        lemma_scan_zeros(p, a, b, m + 1, n);
    }
}

/// Leading zeros mark a fraction: after a common prefix that ends in a
/// non-digit (or is empty) and holds no NUL, a run of zeros that goes on
/// with another digit sorts before the same run of zeros alone, so `00`
/// comes before `0` and `01` before `0`, as glibc documents.
pub proof fn law_version_order_more_zeros_first(p: Seq<u8>, a: Seq<u8>, b: Seq<u8>, n: nat)
    requires
        number_prefix(p),
        1 <= n,
        b.len() == n,
        n < a.len(),
        forall|i: int| 0 <= i < n ==> a[i] == 0x30 && b[i] == 0x30,
        is_digit(a[n as int]),
    ensures
        version_order(p + a, p + b) == -1,
        version_order(p + b, p + a) == 1,
{
    let s1 = p + a;
    let s2 = p + b;
    let l = p.len();
    lemma_byte_at_concat(p, a, l as int);
    lemma_byte_at_concat(p, b, l as int);
    lemma_byte_at_concat(p, a, 0);
    let start = scan(s1, s2, 0, class_of(byte_at(s1, 0)));
    if l > 0 {
        lemma_scan_prefix(p, a, b, 0, S_N as int);
    } else {
        assert(s1 =~= a);
    }
    assert(a[0] == 0x30 && b[0] == 0x30);
    assert(start == scan(s1, s2, l, 2));
    assert(scan(s1, s2, l, 2) == scan(s1, s2, l + 1, S_Z as int + class_of(byte_at(s1, (l + 1) as int))));
    lemma_scan_zeros(p, a, b, 1, n);
    let k = l + n;
    lemma_byte_at_concat(p, a, k as int);
    lemma_byte_at_concat(p, b, k as int);
    let st = S_Z as int + class_of(a[n as int]);
    assert(start == (k, st));
    assert(result_type(st * 4 + class_of(0u8)) == -1);
    law_version_order_antisymmetric(s1, s2);
}

} // verus!
