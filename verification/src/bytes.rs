//! Small verified helpers on byte strings.
use vstd::prelude::*;
use vstd::string::StringSliceAdditionalSpecFns;

verus! {

/// A copy of `s`.
pub fn copy_bytes(s: &[u8]) -> (r: Vec<u8>)
    ensures
        r@ == s@,
{
    let mut r: Vec<u8> = Vec::new();
    let mut i: usize = 0;
    while i < s.len()
        invariant
            i <= s@.len(),
            r@ == s@.take(i as int),
        decreases s@.len() - i,
    {
        r.push(s[i]);
        i = i + 1;
        assert(r@ =~= s@.take(i as int));
    }
    assert(s@.take(i as int) =~= s@);
    r
}

/// A copy of `s` without its first `n` bytes.
pub fn copy_from(s: &[u8], n: usize) -> (r: Vec<u8>)
    requires
        n <= s@.len(),
    ensures
        r@ == s@.skip(n as int),
{
    let mut r: Vec<u8> = Vec::new();
    let mut i: usize = n;
    while i < s.len()
        invariant
            n <= i <= s@.len(),
            r@ == s@.subrange(n as int, i as int),
        decreases s@.len() - i,
    {
        r.push(s[i]);
        i = i + 1;
        assert(r@ =~= s@.subrange(n as int, i as int));
    }
    assert(s@.subrange(n as int, i as int) =~= s@.skip(n as int));
    r
}

/// A copy of the first `n` bytes of `s`.
pub fn copy_prefix(s: &[u8], n: usize) -> (r: Vec<u8>)
    requires
        n <= s@.len(),
    ensures
        r@ == s@.take(n as int),
{
    let mut r: Vec<u8> = Vec::new();
    let mut i: usize = 0;
    while i < n
        invariant
            i <= n <= s@.len(),
            r@ == s@.take(i as int),
        decreases n - i,
    {
        r.push(s[i]);
        i = i + 1;
        assert(r@ =~= s@.take(i as int));
    }
    r
}

/// Whether two byte strings are equal.
pub fn bytes_eq(a: &[u8], b: &[u8]) -> (r: bool)
    ensures
        r == (a@ == b@),
{
    if a.len() != b.len() {
        return false;
    }
    let mut i: usize = 0;
    while i < a.len()
        invariant
            a@.len() == b@.len(),
            i <= a@.len(),
            forall|j: int| 0 <= j < i ==> a@[j] == b@[j],
        decreases a@.len() - i,
    {
        if a[i] != b[i] {
            return false;
        }
        i = i + 1;
    }
    assert(a@ =~= b@);
    true
}

/// The UTF-8 bytes of a string literal.
pub open spec fn lit(s: &str) -> Seq<u8> {
    s.spec_bytes()
}

/// Whether `a` holds exactly the bytes of `s`.
pub fn is_lit(a: &[u8], s: &str) -> (r: bool)
    ensures
        r == (a@ == lit(s)),
{
    bytes_eq(a, s.as_bytes())
}

/// ASCII upper-case letters mapped to lower case, other bytes kept.
pub open spec fn ascii_lower(s: Seq<u8>) -> Seq<u8> {
    s.map_values(|c: u8| if 0x41 <= c <= 0x5a { (c + 0x20) as u8 } else { c })
}

/// `to_ascii_lowercase`.
pub fn to_ascii_lower(s: &[u8]) -> (r: Vec<u8>)
    ensures
        r@ == ascii_lower(s@),
{
    let mut r: Vec<u8> = Vec::new();
    let mut i: usize = 0;
    while i < s.len()
        invariant
            i <= s@.len(),
            r@ == ascii_lower(s@.take(i as int)),
        decreases s@.len() - i,
    {
        let c = s[i];
        r.push(if 0x41 <= c && c <= 0x5a { c + 0x20 } else { c });
        i = i + 1;
        assert(r@ =~= ascii_lower(s@.take(i as int)));
    }
    assert(s@.take(i as int) =~= s@);
    r
}

/// Append all of `s` to `out`.
pub fn push_all(out: &mut Vec<u8>, s: &[u8])
    ensures
        final(out)@ == old(out)@ + s@,
{
    let ghost start = out@;
    let mut i: usize = 0;
    while i < s.len()
        invariant
            i <= s@.len(),
            out@ == start + s@.take(i as int),
        decreases s@.len() - i,
    {
        out.push(s[i]);
        i = i + 1;
        assert(out@ =~= start + s@.take(i as int));
    }
    assert(s@.take(i as int) =~= s@);
}

/// `base`, a slash, then `name`: the path of `name` inside `base`.
pub open spec fn spec_join_path(base: Seq<u8>, name: Seq<u8>) -> Seq<u8> {
    base + seq![0x2fu8] + name
}

/// Join a directory path and an entry name with a slash.
pub fn join_path(base: &[u8], name: &[u8]) -> (r: Vec<u8>)
    ensures
        r@ == spec_join_path(base@, name@),
{
    let mut r = copy_bytes(base);
    r.push(0x2f);
    push_all(&mut r, name);
    r
}

/// The byte strings held in a vector of vectors.
pub open spec fn lines_view(v: Seq<Vec<u8>>) -> Seq<Seq<u8>> {
    v.map_values(|l: Vec<u8>| l@)
}

/// The same sequences of bytes, copied.
pub fn copy_lines(v: &Vec<Vec<u8>>) -> (r: Vec<Vec<u8>>)
    ensures
        lines_view(r@) == lines_view(v@),
{
    let mut r: Vec<Vec<u8>> = Vec::new();
    let mut i: usize = 0;
    while i < v.len()
        invariant
            i <= v@.len(),
            r@.len() == i,
            forall|j: int| 0 <= j < i ==> #[trigger] r@[j]@ == v@[j]@,
        decreases v@.len() - i,
    {
        r.push(copy_bytes(v[i].as_slice()));
        i = i + 1;
    }
    assert(lines_view(r@) =~= lines_view(v@));
    r
}

/// The pieces of `s` between the bytes equal to `c`, as `split` yields
/// them: a trailing `c` leaves a final empty piece, and empty input is
/// one empty piece.
pub open spec fn split_on(s: Seq<u8>, c: u8) -> Seq<Seq<u8>>
    decreases s.len(),
{
    if s.len() == 0 {
        seq![Seq::<u8>::empty()]
    } else {
        let prev = split_on(s.drop_last(), c);
        if s.last() == c {
            prev.push(Seq::<u8>::empty())
        } else {
            prev.update(prev.len() - 1, prev.last().push(s.last()))
        }
    }
}

/// There is always at least one piece.
pub proof fn lemma_split_on_len(s: Seq<u8>, c: u8)
    ensures
        split_on(s, c).len() >= 1,
    decreases s.len(),
{
    if s.len() > 0 {
        lemma_split_on_len(s.drop_last(), c);
    }
}

/// Reading one more byte either ends the current piece or extends it.
pub proof fn lemma_split_on_step(s: Seq<u8>, c: u8, i: int)
    requires
        0 <= i < s.len(),
    ensures
        split_on(s.take(i), c).len() >= 1,
        s[i] == c ==> split_on(s.take(i + 1), c) == split_on(s.take(i), c).push(Seq::<u8>::empty()),
        s[i] != c ==> split_on(s.take(i + 1), c) == split_on(s.take(i), c).drop_last().push(
            split_on(s.take(i), c).last().push(s[i]),
        ),
{
    lemma_split_on_len(s.take(i), c);
    assert(s.take(i + 1).drop_last() =~= s.take(i));
    let prev = split_on(s.take(i), c);
    if s[i] != c {
        assert(prev.update(prev.len() - 1, prev.last().push(s[i])) =~= prev.drop_last().push(
            prev.last().push(s[i]),
        ));
    }
}

/// The newline-separated lines of `s`, as `split` on `\n` yields them:
/// a trailing newline leaves a final empty line, and empty input is one
/// empty line.
pub open spec fn split_lines(s: Seq<u8>) -> Seq<Seq<u8>> {
    split_on(s, 0x0a)
}

/// Reading one more byte either ends the current line or extends it.
pub proof fn lemma_split_lines_step(s: Seq<u8>, i: int)
    requires
        0 <= i < s.len(),
    ensures
        split_lines(s.take(i)).len() >= 1,
        s[i] == 0x0a ==> split_lines(s.take(i + 1)) == split_lines(s.take(i)).push(
            Seq::<u8>::empty(),
        ),
        s[i] != 0x0a ==> split_lines(s.take(i + 1)) == split_lines(s.take(i)).drop_last().push(
            split_lines(s.take(i)).last().push(s[i]),
        ),
{
    lemma_split_on_step(s, 0x0a, i);
}

/// The index of the first `c` in `s` at or after `from`, else `s.len()`.
pub open spec fn find_byte(s: Seq<u8>, c: u8, from: int) -> int
    decreases s.len() - from,
{
    if from < 0 || from >= s.len() {
        s.len() as int
    } else if s[from] == c {
        from
    } else {
        find_byte(s, c, from + 1)
    }
}

/// Where the first `c` at or after `from` stands in `s`, else `s.len()`.
pub fn find_from(s: &[u8], c: u8, from: usize) -> (r: usize)
    ensures
        r as int == find_byte(s@, c, from as int),
        from <= r <= s@.len() || (from > s@.len() && r == s@.len()),
{
    if from >= s.len() {
        return s.len();
    }
    let mut i: usize = from;
    while i < s.len()
        invariant
            from <= i <= s@.len(),
            find_byte(s@, c, i as int) == find_byte(s@, c, from as int),
        decreases s@.len() - i,
    {
        if s[i] == c {
            return i;
        }
        i = i + 1;
    }
    s.len()
}

/// ASCII lower-case letters mapped to upper case, other bytes kept.
pub open spec fn ascii_upper(s: Seq<u8>) -> Seq<u8> {
    s.map_values(|c: u8| if 0x61 <= c <= 0x7a { (c - 0x20) as u8 } else { c })
}

/// `to_ascii_uppercase`.
pub fn to_ascii_upper(s: &[u8]) -> (r: Vec<u8>)
    ensures
        r@ == ascii_upper(s@),
{
    let mut r: Vec<u8> = Vec::new();
    let mut i: usize = 0;
    while i < s.len()
        invariant
            i <= s@.len(),
            r@ == ascii_upper(s@.take(i as int)),
        decreases s@.len() - i,
    {
        let c = s[i];
        r.push(if 0x61 <= c && c <= 0x7a { c - 0x20 } else { c });
        i = i + 1;
        assert(r@ =~= ascii_upper(s@.take(i as int)));
    }
    assert(s@.take(i as int) =~= s@);
    r
}

/// `w` occurs in `s` as a run of consecutive bytes.
pub open spec fn has_window(s: Seq<u8>, w: Seq<u8>) -> bool {
    exists|i: int| 0 <= i && i + w.len() <= s.len() && #[trigger] s.subrange(i, i + w.len()) == w
}

fn matches_at(s: &[u8], i: usize, w: &[u8]) -> (r: bool)
    requires
        i + w@.len() <= s@.len(),
    ensures
        r == (s@.subrange(i as int, i + w@.len()) == w@),
{
    let mut k: usize = 0;
    while k < w.len()
        invariant
            k <= w@.len(),
            i + w@.len() <= s@.len(),
            s@.len() == s.len(),
            forall|j: int| 0 <= j < k ==> s@[i + j] == w@[j],
        decreases w@.len() - k,
    {
        if s[i + k] != w[k] {
            assert(s@.subrange(i as int, i + w@.len())[k as int] != w@[k as int]);
            return false;
        }
        k = k + 1;
    }
    assert(s@.subrange(i as int, i + w@.len()) =~= w@);
    true
}

/// Whether `w` occurs in `s` (`s.windows(w.len()).any(|x| x == w)`).
pub fn find_window(s: &[u8], w: &[u8]) -> (r: bool)
    requires
        w@.len() > 0,
    ensures
        r == has_window(s@, w@),
{
    if w.len() > s.len() {
        return false;
    }
    let last: usize = s.len() - w.len();
    let mut i: usize = 0;
    while i <= last
        invariant
            0 < w@.len() <= s@.len(),
            s@.len() == s.len(),
            last == s@.len() - w@.len(),
            i <= last + 1,
            forall|j: int| 0 <= j < i && j + w@.len() <= s@.len() ==> #[trigger] s@.subrange(j, j + w@.len()) != w@,
        decreases s@.len() - i,
    {
        if matches_at(s, i, w) {
            return true;
        }
        i = i + 1;
    }
    false
}

} // verus!
