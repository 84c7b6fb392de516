//! `--gitignore` support: ignore files parsed into pattern lists, kept on
//! a stack as the walk descends, and the check of an entry against them.
use vstd::prelude::*;
use crate::bytes::{copy_bytes, copy_from, join_path, spec_join_path, split_lines, split_on, lemma_split_lines_step};
use crate::pattern::{hits, misses, total_matcher, ask, deterministic_matcher, lemma_hit_excludes_miss};

verus! {

/// A pattern as the library reasons about it.
pub struct PatternSpec {
    pub pattern: Seq<u8>,
    /// A bare-name pattern (no inner slash), as opposed to one anchored
    /// at the directory of its ignore file.
    pub relative: bool,
}

/// An ignore file as the library reasons about it.
pub struct IgnoreSpec {
    pub base: Seq<u8>,
    pub remove: Seq<PatternSpec>,
    pub reverse: Seq<PatternSpec>,
}

struct GitPattern {
    pattern: Vec<u8>,
    relative: bool,
}

impl View for GitPattern {
    type V = PatternSpec;

    closed spec fn view(&self) -> PatternSpec {
        PatternSpec { pattern: self.pattern@, relative: self.relative }
    }
}

struct IgnoreFile {
    base: Vec<u8>,
    remove: Vec<GitPattern>,
    reverse: Vec<GitPattern>,
}

spec fn patterns_view(v: Seq<GitPattern>) -> Seq<PatternSpec> {
    v.map_values(|p: GitPattern| p@)
}

impl View for IgnoreFile {
    type V = IgnoreSpec;

    closed spec fn view(&self) -> IgnoreSpec {
        IgnoreSpec {
            base: self.base@,
            remove: patterns_view(self.remove@),
            reverse: patterns_view(self.reverse@),
        }
    }
}

/// The ignore files in force, outermost first.
pub struct FilterStack {
    stack: Vec<IgnoreFile>,
}

impl View for FilterStack {
    type V = Seq<IgnoreSpec>;

    closed spec fn view(&self) -> Seq<IgnoreSpec> {
        self.stack@.map_values(|f: IgnoreFile| f@)
    }
}

/// End of `s[..e]` once line terminators are dropped; a lone first byte stays.
pub open spec fn eol_end(s: Seq<u8>, e: int) -> int
    decreases e,
{
    if 1 < e <= s.len() && (s[e - 1] == 0x0a || s[e - 1] == 0x0d) {
        eol_end(s, e - 1)
    } else {
        e
    }
}

/// End of `s[..e]` once unescaped trailing spaces are dropped.
pub open spec fn space_end(s: Seq<u8>, e: int) -> int
    decreases e,
{
    if 1 < e <= s.len() && s[e - 1] == 0x20 && s[e - 2] != 0x5c {
        space_end(s, e - 1)
    } else {
        e
    }
}

/// Drop each backslash and keep the byte it escapes; a final lone
/// backslash is dropped.
pub open spec fn unescape(t: Seq<u8>) -> Seq<u8>
    decreases t.len(),
{
    if t.len() == 0 {
        t
    } else if t[0] == 0x5c {
        if t.len() == 1 {
            Seq::<u8>::empty()
        } else {
            seq![t[1]] + unescape(t.skip(2))
        }
    } else {
        seq![t[0]] + unescape(t.skip(1))
    }
}

/// What `gittrim` makes of a line.
pub open spec fn spec_gittrim(s: Seq<u8>) -> Seq<u8> {
    unescape(s.take(space_end(s, eol_end(s, s.len() as int))))
}

/// tree's gittrim(): drop line terminators and unescaped trailing spaces,
/// then resolve backslash escapes.
pub fn gittrim(s: &[u8]) -> (r: Vec<u8>)
    ensures
        r@ == spec_gittrim(s@),
{
    let n = s.len();
    let mut e = n;
    while e > 1 && (s[e - 1] == 0x0a || s[e - 1] == 0x0d)
        invariant
            n == s@.len(),
            0 <= e <= n,
            eol_end(s@, e as int) == eol_end(s@, n as int),
        decreases e,
    {
        e = e - 1;
    }
    let ghost e1 = e;
    while e > 1 && s[e - 1] == 0x20 && s[e - 2] != 0x5c
        invariant
            n == s@.len(),
            0 <= e <= n,
            e1 as int == eol_end(s@, n as int),
            space_end(s@, e as int) == space_end(s@, e1 as int),
        decreases e,
    {
        e = e - 1;
    }
    let ghost t = s@.take(e as int);
    let mut out: Vec<u8> = Vec::new();
    let mut i: usize = 0;
    assert(t.skip(0) =~= t);
    while i < e
        invariant
            n == s@.len(),
            i <= e <= n,
            t == s@.take(e as int),
            out@ + unescape(t.skip(i as int)) == unescape(t),
        decreases e - i,
    {
        let ghost rest = t.skip(i as int);
        if s[i] == 0x5c {
            if i + 1 >= e {
                assert(rest.len() == 1);
                assert(t.skip(e as int) =~= Seq::<u8>::empty());
                i = e;
            } else {
                assert(rest.skip(2) =~= t.skip(i + 2));
                out.push(s[i + 1]);
                i = i + 2;
                assert(out@ + unescape(t.skip(i as int)) =~= unescape(t));
            }
        } else {
            assert(rest.skip(1) =~= t.skip(i + 1));
            out.push(s[i]);
            i = i + 1;
            assert(out@ + unescape(t.skip(i as int)) =~= unescape(t));
        }
    }
    assert(t.skip(i as int) =~= Seq::<u8>::empty());
    assert(out@ =~= unescape(t));
    out
}

/// A pattern line: a leading slash is dropped; the pattern is bare-name
/// unless a slash stands before its last byte.
pub open spec fn spec_new_pattern(p: Seq<u8>) -> PatternSpec {
    PatternSpec {
        pattern: if p.len() > 0 && p[0] == 0x2f { p.skip(1) } else { p },
        relative: forall|i: int| 0 <= i < p.len() - 1 ==> p[i] != 0x2f,
    }
}

fn new_pattern(pattern: &[u8]) -> (r: GitPattern)
    ensures
        r@ == spec_new_pattern(pattern@),
{
    let stripped = if pattern.len() > 0 && pattern[0] == 0x2f {
        copy_from(pattern, 1)
    } else {
        copy_bytes(pattern)
    };
    let mut i: usize = 0;
    while i < pattern.len() && pattern[i] != 0x2f
        invariant
            i <= pattern@.len(),
            forall|j: int| 0 <= j < i ==> pattern@[j] != 0x2f,
        decreases pattern@.len() - i,
    {
        i = i + 1;
    }
    let relative = i == pattern.len() || i + 1 == pattern.len();
    GitPattern { pattern: stripped, relative }
}

/// What one line of an ignore file contributes: nothing for a comment or
/// a blank line, else a pattern, negated (`!`) or not.
pub open spec fn ignore_entry(line: Seq<u8>) -> Option<(bool, PatternSpec)> {
    if line.len() > 0 && line[0] == 0x23 {
        None
    } else {
        let rev = line.len() > 0 && line[0] == 0x21;
        let t = spec_gittrim(if rev { line.skip(1) } else { line });
        if t.len() == 0 {
            None
        } else {
            Some((rev, spec_new_pattern(t)))
        }
    }
}

/// The negated (`rev`) or plain patterns of `lines`, in order.
pub open spec fn ignore_patterns(lines: Seq<Seq<u8>>, rev: bool) -> Seq<PatternSpec>
    decreases lines.len(),
{
    if lines.len() == 0 {
        Seq::<PatternSpec>::empty()
    } else {
        let prev = ignore_patterns(lines.drop_last(), rev);
        match ignore_entry(lines.last()) {
            Some((r, p)) => if r == rev { prev.push(p) } else { prev },
            None => prev,
        }
    }
}

/// The ignore file read from `content`, anchored at `base`.
pub open spec fn spec_ignore_file(base: Seq<u8>, content: Seq<u8>) -> IgnoreSpec {
    IgnoreSpec {
        base,
        remove: ignore_patterns(split_lines(content), false),
        reverse: ignore_patterns(split_lines(content), true),
    }
}

fn add_entry(line: &[u8], remove: &mut Vec<GitPattern>, reverse: &mut Vec<GitPattern>)
    ensures
        match ignore_entry(line@) {
            Some((r, p)) => if r {
                patterns_view(final(reverse)@) == patterns_view(old(reverse)@).push(p)
                    && final(remove)@ == old(remove)@
            } else {
                patterns_view(final(remove)@) == patterns_view(old(remove)@).push(p)
                    && final(reverse)@ == old(reverse)@
            },
            None => final(remove)@ == old(remove)@ && final(reverse)@ == old(reverse)@,
        },
{
    if line.len() > 0 && line[0] == 0x23 {
        return;
    }
    let rev = line.len() > 0 && line[0] == 0x21;
    let trimmed = if rev {
        let rest = copy_from(line, 1);
        gittrim(rest.as_slice())
    } else {
        gittrim(line)
    };
    if trimmed.len() == 0 {
        return;
    }
    let p = new_pattern(trimmed.as_slice());
    if rev {
        let ghost before = reverse@;
        reverse.push(p);
        assert(patterns_view(reverse@) =~= patterns_view(before).push(p@));
    } else {
        let ghost before = remove@;
        remove.push(p);
        assert(patterns_view(remove@) =~= patterns_view(before).push(p@));
    }
}

fn parse_ignore(base: &[u8], content: &[u8]) -> (r: IgnoreFile)
    ensures
        r@ == spec_ignore_file(base@, content@),
{
    let mut remove: Vec<GitPattern> = Vec::new();
    let mut reverse: Vec<GitPattern> = Vec::new();
    let mut line: Vec<u8> = Vec::new();
    let mut i: usize = 0;
    assert(content@.take(0) =~= Seq::<u8>::empty());
    assert(split_lines(content@.take(0)).drop_last() =~= Seq::<Seq<u8>>::empty());
    assert(patterns_view(remove@) =~= Seq::<PatternSpec>::empty());
    assert(patterns_view(reverse@) =~= Seq::<PatternSpec>::empty());
    while i < content.len()
        invariant
            i <= content@.len(),
            split_lines(content@.take(i as int)).len() >= 1,
            line@ == split_lines(content@.take(i as int)).last(),
            patterns_view(remove@) == ignore_patterns(split_lines(content@.take(i as int)).drop_last(), false),
            patterns_view(reverse@) == ignore_patterns(split_lines(content@.take(i as int)).drop_last(), true),
        decreases content@.len() - i,
    {
        proof {
            lemma_split_lines_step(content@, i as int);
        }
        let ghost lines = split_lines(content@.take(i as int));
        if content[i] == 0x0a {
            add_entry(line.as_slice(), &mut remove, &mut reverse);
            line = Vec::new();
            assert(lines.push(Seq::<u8>::empty()).drop_last() =~= lines);
        } else {
            line.push(content[i]);
            assert(lines.drop_last().push(lines.last().push(content@[i as int])).drop_last() =~= lines.drop_last());
        }
        i = i + 1;
    }
    let ghost lines = split_lines(content@.take(i as int));
    add_entry(line.as_slice(), &mut remove, &mut reverse);
    assert(content@.take(i as int) =~= content@);
    IgnoreFile { base: copy_bytes(base), remove, reverse }
}

/// Where a pattern is matched: a bare-name pattern against the entry's
/// name, an anchored one, joined to its file's directory, against the path.
pub open spec fn target(ig: IgnoreSpec, p: PatternSpec, path: Seq<u8>, name: Seq<u8>) -> (Seq<u8>, Seq<u8>) {
    if p.relative {
        (name, p.pattern)
    } else {
        (path, spec_join_path(ig.base, p.pattern))
    }
}

/// The plain (`rev == false`) or negated patterns of an ignore file.
pub open spec fn pattern_list(ig: IgnoreSpec, rev: bool) -> Seq<PatternSpec> {
    if rev { ig.reverse } else { ig.remove }
}

/// Pattern `j` of list `rev` of file `i` matched the entry.
pub open spec fn pattern_hit<M: Fn(&[u8], &[u8], bool) -> i32>(
    m: M, stack: Seq<IgnoreSpec>, i: int, j: int, rev: bool, path: Seq<u8>, name: Seq<u8>, isdir: bool,
) -> bool {
    let t = target(stack[i], pattern_list(stack[i], rev)[j], path, name);
    hits(m, t.0, t.1, isdir)
}

/// Pattern `j` of list `rev` of file `i` did not match the entry.
pub open spec fn pattern_miss<M: Fn(&[u8], &[u8], bool) -> i32>(
    m: M, stack: Seq<IgnoreSpec>, i: int, j: int, rev: bool, path: Seq<u8>, name: Seq<u8>, isdir: bool,
) -> bool {
    let t = target(stack[i], pattern_list(stack[i], rev)[j], path, name);
    misses(m, t.0, t.1, isdir)
}

/// Some pattern of list `rev`, in some file of the stack, matched.
pub open spec fn some_hit<M: Fn(&[u8], &[u8], bool) -> i32>(
    m: M, stack: Seq<IgnoreSpec>, rev: bool, path: Seq<u8>, name: Seq<u8>, isdir: bool,
) -> bool {
    exists|i: int, j: int|
        0 <= i < stack.len() && 0 <= j < pattern_list(stack[i], rev).len()
            && #[trigger] pattern_hit(m, stack, i, j, rev, path, name, isdir)
}

/// Every pattern of list `rev`, in every file of the stack, missed.
pub open spec fn all_miss<M: Fn(&[u8], &[u8], bool) -> i32>(
    m: M, stack: Seq<IgnoreSpec>, rev: bool, path: Seq<u8>, name: Seq<u8>, isdir: bool,
) -> bool {
    forall|i: int, j: int|
        0 <= i < stack.len() && 0 <= j < pattern_list(stack[i], rev).len()
            ==> #[trigger] pattern_miss(m, stack, i, j, rev, path, name, isdir)
}

/// What the check answers with a deterministic matcher: some plain
/// pattern matches the entry and no negated one does.
pub open spec fn filter_answer<M: Fn(&[u8], &[u8], bool) -> i32>(
    m: M, stack: Seq<IgnoreSpec>, path: Seq<u8>, name: Seq<u8>, isdir: bool,
) -> bool {
    some_hit(m, stack, false, path, name, isdir) && all_miss(m, stack, true, path, name, isdir)
}

impl FilterStack {
    /// An empty stack.
    pub fn new() -> (r: FilterStack)
        ensures
            r@ == Seq::<IgnoreSpec>::empty(),
    {
        let r = FilterStack { stack: Vec::new() };
        assert(r@ =~= Seq::<IgnoreSpec>::empty());
        r
    }

    /// The current depth of the stack, to return to later.
    pub fn mark(&self) -> (r: usize)
        ensures
            r == self@.len(),
    {
        self.stack.len()
    }

    /// Drop every ignore file pushed after `mark` was taken.
    pub fn truncate(&mut self, mark: usize)
        ensures
            mark <= old(self)@.len() ==> final(self)@ == old(self)@.take(mark as int),
            mark > old(self)@.len() ==> final(self)@ == old(self)@,
    {
        self.stack.truncate(mark);
        assert(mark <= old(self)@.len() ==> self@ =~= old(self)@.take(mark as int));
        assert(mark > old(self)@.len() ==> self@ =~= old(self)@);
    }

    /// Push the ignore file read from `content`, anchored at `base`, when
    /// the file could be read (`content` is `Some`). Says whether it was.
    pub fn push_file(&mut self, base: &[u8], content: Option<&[u8]>) -> (pushed: bool)
        ensures
            pushed == content.is_some(),
            match content {
                Some(c) => final(self)@ == old(self)@.push(spec_ignore_file(base@, c@)),
                None => final(self)@ == old(self)@,
            },
    {
        match content {
            Some(c) => {
                let ig = parse_ignore(base, c);
                let ghost before = self@;
                self.stack.push(ig);
                assert(self@ =~= before.push(spec_ignore_file(base@, c@)));
                true
            },
            None => false,
        }
    }

    /// --gitfile: the named file itself, anchored at its own path. `content`
    /// is the file's contents when it is a regular file that could be read.
    pub fn push_explicit(&mut self, file: &[u8], content: Option<&[u8]>) -> (pushed: bool)
        ensures
            pushed == content.is_some(),
            match content {
                Some(c) => final(self)@ == old(self)@.push(spec_ignore_file(file@, c@)),
                None => final(self)@ == old(self)@,
            },
    {
        self.push_file(file, content)
    }

    /// Push `dir/.gitignore`; `content` is its contents when it is a
    /// regular file that could be read.
    pub fn push_dir(&mut self, dir: &[u8], content: Option<&[u8]>)
        ensures
            match content {
                Some(c) => final(self)@ == old(self)@.push(spec_ignore_file(dir@, c@)),
                None => final(self)@ == old(self)@,
            },
    {
        self.push_file(dir, content);
    }

    /// Drop everything, an explicit --gitfile entry included.
    pub fn flush(&mut self)
        ensures
            final(self)@ == Seq::<IgnoreSpec>::empty(),
    {
        self.stack.clear();
        assert(self@ =~= Seq::<IgnoreSpec>::empty());
    }

    fn probe<M: Fn(&[u8], &[u8], bool) -> i32>(
        &self, i: usize, j: usize, rev: bool, path: &[u8], name: &[u8], isdir: bool, patmatch: &M,
    ) -> (r: bool)
        requires
            total_matcher(*patmatch),
            i < self@.len(),
            j < pattern_list(self@[i as int], rev).len(),
        ensures
            r ==> pattern_hit(*patmatch, self@, i as int, j as int, rev, path@, name@, isdir),
            !r ==> pattern_miss(*patmatch, self@, i as int, j as int, rev, path@, name@, isdir),
    {
        let ig = &self.stack[i];
        let p = if rev { &ig.reverse[j] } else { &ig.remove[j] };
        assert(p@ == pattern_list(self@[i as int], rev)[j as int]);
        if p.relative {
            ask(patmatch, name, p.pattern.as_slice(), isdir)
        } else {
            let full = join_path(ig.base.as_slice(), p.pattern.as_slice());
            ask(patmatch, path, full.as_slice(), isdir)
        }
    }

    fn any_hit<M: Fn(&[u8], &[u8], bool) -> i32>(
        &self, rev: bool, path: &[u8], name: &[u8], isdir: bool, patmatch: &M,
    ) -> (r: bool)
        requires
            total_matcher(*patmatch),
        ensures
            r ==> some_hit(*patmatch, self@, rev, path@, name@, isdir),
            !r ==> all_miss(*patmatch, self@, rev, path@, name@, isdir),
    {
        let mut i: usize = 0;
        while i < self.stack.len()
            invariant
                total_matcher(*patmatch),
                i <= self@.len(),
                self@.len() == self.stack@.len(),
                forall|a: int, b: int|
                    0 <= a < i && 0 <= b < pattern_list(self@[a], rev).len()
                        ==> #[trigger] pattern_miss(*patmatch, self@, a, b, rev, path@, name@, isdir),
            decreases self.stack@.len() - i,
        {
            let ig = &self.stack[i];
            let len = if rev { ig.reverse.len() } else { ig.remove.len() };
            assert(len == pattern_list(self@[i as int], rev).len());
            let mut j: usize = 0;
            while j < len
                invariant
                    total_matcher(*patmatch),
                    i < self@.len(),
                    len == pattern_list(self@[i as int], rev).len(),
                    j <= len,
                    forall|a: int, b: int|
                        0 <= a < i && 0 <= b < pattern_list(self@[a], rev).len()
                            ==> #[trigger] pattern_miss(*patmatch, self@, a, b, rev, path@, name@, isdir),
                    forall|b: int|
                        0 <= b < j ==> #[trigger] pattern_miss(*patmatch, self@, i as int, b, rev, path@, name@, isdir),
                decreases len - j,
            {
                if self.probe(i, j, rev, path, name, isdir, patmatch) {
                    return true;
                }
                j = j + 1;
            }
            i = i + 1;
        }
        false
    }

    /// tree's filtercheck: some plain pattern matches the entry and no
    /// negated (`!`) pattern does. `patmatch` is the glob matcher; only an
    /// answer of 1 counts, so a pattern with a syntax error never matches.
    pub fn check<M: Fn(&[u8], &[u8], bool) -> i32>(
        &self, path: &[u8], name: &[u8], isdir: bool, patmatch: &M,
    ) -> (r: bool)
        requires
            total_matcher(*patmatch),
        ensures
            r ==> some_hit(*patmatch, self@, false, path@, name@, isdir),
            r ==> all_miss(*patmatch, self@, true, path@, name@, isdir),
            !r ==> all_miss(*patmatch, self@, false, path@, name@, isdir)
                || some_hit(*patmatch, self@, true, path@, name@, isdir),
            deterministic_matcher(*patmatch) ==> r == filter_answer(*patmatch, self@, path@, name@, isdir),
    {
        proof {
            if deterministic_matcher(*patmatch) {
                lemma_hit_excludes_all_miss(*patmatch, self@, false, path@, name@, isdir);
                lemma_hit_excludes_all_miss(*patmatch, self@, true, path@, name@, isdir);
            }
        }
        if !self.any_hit(false, path, name, isdir, patmatch) {
            return false;
        }
        !self.any_hit(true, path, name, isdir, patmatch)
    }
}

impl Default for FilterStack {
    fn default() -> (r: FilterStack)
        ensures
            r@ == Seq::<IgnoreSpec>::empty(),
    {
        FilterStack::new()
    }
}

/// Taking a mark, pushing ignore files, then truncating to the mark
/// gives back the stack as it was at the mark.
pub proof fn law_filter_truncate_restores(at_mark: Seq<IgnoreSpec>, pushed: Seq<IgnoreSpec>)
    ensures
        (at_mark + pushed).take(at_mark.len() as int) == at_mark,
{
    assert((at_mark + pushed).take(at_mark.len() as int) =~= at_mark);
}

/// Truncating to a mark restores what the check answers: on the stack
/// left after pushes and a truncate to the mark, each pattern list has a
/// match, or misses everywhere, exactly as on the stack at the mark, so
/// with a deterministic matcher the check gives the same answer for every
/// entry.
pub proof fn law_filter_truncate_restores_check<M: Fn(&[u8], &[u8], bool) -> i32>(
    m: M, at_mark: Seq<IgnoreSpec>, pushed: Seq<IgnoreSpec>, rev: bool, path: Seq<u8>, name: Seq<u8>, isdir: bool,
)
    ensures
        some_hit(m, (at_mark + pushed).take(at_mark.len() as int), rev, path, name, isdir)
            == some_hit(m, at_mark, rev, path, name, isdir),
        all_miss(m, (at_mark + pushed).take(at_mark.len() as int), rev, path, name, isdir)
            == all_miss(m, at_mark, rev, path, name, isdir),
        filter_answer(m, (at_mark + pushed).take(at_mark.len() as int), path, name, isdir)
            == filter_answer(m, at_mark, path, name, isdir),
{
    law_filter_truncate_restores(at_mark, pushed);
}

/// With no ignore file in force, no pattern matches, so the check keeps
/// every entry out of the filtered set.
pub proof fn law_filter_empty_matches_nothing<M: Fn(&[u8], &[u8], bool) -> i32>(
    m: M, path: Seq<u8>, name: Seq<u8>, isdir: bool,
)
    ensures
        !some_hit(m, Seq::<IgnoreSpec>::empty(), false, path, name, isdir),
{
}

/// With a deterministic matcher, no pattern list both has a match and
/// misses everywhere.
pub proof fn lemma_hit_excludes_all_miss<M: Fn(&[u8], &[u8], bool) -> i32>(
    m: M, stack: Seq<IgnoreSpec>, rev: bool, path: Seq<u8>, name: Seq<u8>, isdir: bool,
)
    requires
        deterministic_matcher(m),
    ensures
        !(some_hit(m, stack, rev, path, name, isdir) && all_miss(m, stack, rev, path, name, isdir)),
{
    if some_hit(m, stack, rev, path, name, isdir) {
        let (i, j) = choose|i: int, j: int|
            0 <= i < stack.len() && 0 <= j < pattern_list(stack[i], rev).len()
                && #[trigger] pattern_hit(m, stack, i, j, rev, path, name, isdir);
        let t = target(stack[i], pattern_list(stack[i], rev)[j], path, name);
        lemma_hit_excludes_miss(m, t.0, t.1, isdir);
        assert(!pattern_miss(m, stack, i, j, rev, path, name, isdir));
    }
}

/// A negated pattern that matches wins: with a deterministic matcher the
/// check cannot answer true once some `!` pattern matched the entry.
pub proof fn law_filter_negation_wins<M: Fn(&[u8], &[u8], bool) -> i32>(
    m: M, stack: Seq<IgnoreSpec>, path: Seq<u8>, name: Seq<u8>, isdir: bool,
)
    requires
        deterministic_matcher(m),
        some_hit(m, stack, true, path, name, isdir),
    ensures
        !all_miss(m, stack, true, path, name, isdir),
{
    lemma_hit_excludes_all_miss(m, stack, true, path, name, isdir);
}

/// With a deterministic matcher the check's answer is fixed: the two
/// outcomes its contract allows never hold together, so it answers true
/// exactly when a plain pattern matches and no negated one does.
pub proof fn law_filter_check_exact<M: Fn(&[u8], &[u8], bool) -> i32>(
    m: M, stack: Seq<IgnoreSpec>, path: Seq<u8>, name: Seq<u8>, isdir: bool,
)
    requires
        deterministic_matcher(m),
    ensures
        !((some_hit(m, stack, false, path, name, isdir) && all_miss(m, stack, true, path, name, isdir))
            && (all_miss(m, stack, false, path, name, isdir) || some_hit(m, stack, true, path, name, isdir))),
{
    lemma_hit_excludes_all_miss(m, stack, false, path, name, isdir);
    lemma_hit_excludes_all_miss(m, stack, true, path, name, isdir);
}

/// What the search for ignore files does at one directory, before
/// taking its own .gitignore.
#[derive(Clone, Copy, PartialEq, Eq, Structural, Debug)]
pub enum UpStep {
    /// A repository root (it has a .git directory): take its
    /// .git/info/exclude and go no higher.
    Repository,
    /// Search the parent directory first.
    Parent,
    /// Go no higher.
    Stop,
}

/// tree's gitignore_search at one directory: a .git directory marks the
/// repository root; otherwise the search goes up until the file system
/// root (or a directory that cannot be resolved) or a depth of 2048.
pub open spec fn spec_upward_step(has_git: bool, at_top: bool, depth: u32) -> UpStep {
    if has_git {
        UpStep::Repository
    } else if !at_top && depth < 2048 {
        UpStep::Parent
    } else {
        UpStep::Stop
    }
}

/// The step of the upward search at a directory: `has_git` when it holds
/// a .git directory, `at_top` when its canonical path is `/` or cannot be
/// found, `depth` how many levels up the search already is.
pub fn upward_step(has_git: bool, at_top: bool, depth: u32) -> (r: UpStep)
    ensures
        r == spec_upward_step(has_git, at_top, depth),
{
    if has_git {
        UpStep::Repository
    } else if !at_top && depth < 2048 {
        UpStep::Parent
    } else {
        UpStep::Stop
    }
}

/// The ignore files among `files` that could be read, in order.
pub open spec fn readable_files(files: Seq<(Seq<u8>, Option<Seq<u8>>)>) -> Seq<IgnoreSpec>
    decreases files.len(),
{
    if files.len() == 0 {
        Seq::empty()
    } else {
        let prev = readable_files(files.drop_last());
        match files.last().1 {
            Some(c) => prev.push(spec_ignore_file(files.last().0, c)),
            None => prev,
        }
    }
}

/// The files of a search as plain values: each base and, when the file
/// exists and could be read, its contents.
pub open spec fn files_view(files: Seq<(Vec<u8>, Option<Vec<u8>>)>) -> Seq<(Seq<u8>, Option<Seq<u8>>)> {
    files.map_values(|f: (Vec<u8>, Option<Vec<u8>>)| (f.0@, match f.1 { Some(c) => Some(c@), None => None }))
}

impl FilterStack {
    /// tree's gitignore_search: push, in order, every ignore file found
    /// ($GIT_DIR/info/exclude, the repository's .git/info/exclude, then
    /// each .gitignore from the repository root down to the walk root),
    /// each anchored at its base. Returns whether any was pushed, which
    /// decides the flush after the root.
    pub fn push_search(&mut self, files: &[(Vec<u8>, Option<Vec<u8>>)]) -> (found: bool)
        ensures
            final(self)@ == old(self)@ + readable_files(files_view(files@)),
            found == (readable_files(files_view(files@)).len() > 0),
    {
        let ghost fv = files_view(files@);
        let mut found = false;
        let mut i: usize = 0;
        assert(fv.take(0) =~= Seq::<(Seq<u8>, Option<Seq<u8>>)>::empty());
        assert(old(self)@ + readable_files(fv.take(0)) =~= old(self)@);
        while i < files.len()
            invariant
                i <= files@.len(),
                fv == files_view(files@),
                self@ == old(self)@ + readable_files(fv.take(i as int)),
                found == (readable_files(fv.take(i as int)).len() > 0),
            decreases files@.len() - i,
        {
            let (base, content) = &files[i];
            assert(fv.take(i + 1).drop_last() =~= fv.take(i as int));
            assert(fv.take(i + 1).last() == fv[i as int]);
            let pushed = match content {
                Some(c) => self.push_file(base.as_slice(), Some(c.as_slice())),
                None => self.push_file(base.as_slice(), None),
            };
            found = found || pushed;
            i = i + 1;
            assert(self@ =~= old(self)@ + readable_files(fv.take(i as int)));
        }
        assert(fv.take(i as int) =~= fv);
        found
    }
}

proof fn lemma_unescape_plain(t: Seq<u8>)
    requires
        forall|i: int| 0 <= i < t.len() ==> t[i] != 0x5c,
    ensures
        unescape(t) == t,
    decreases t.len(),
{
    if t.len() > 0 {
        assert(forall|i: int| 0 <= i < t.skip(1).len() ==> t.skip(1)[i] == t[i + 1]);
        lemma_unescape_plain(t.skip(1));
        assert(seq![t[0]] + t.skip(1) =~= t);
    }
}

pub proof fn lemma_split_on_single(s: Seq<u8>, c: u8)
    requires
        forall|i: int| 0 <= i < s.len() ==> s[i] != c,
    ensures
        split_on(s, c) == seq![s],
    decreases s.len(),
{
    if s.len() > 0 {
        let d = s.drop_last();
        assert(forall|i: int| 0 <= i < d.len() ==> d[i] == s[i]);
        lemma_split_on_single(d, c);
        assert(s.last() != c);
        assert(d.push(s.last()) =~= s);
        let prev = split_on(d, c);
        assert(prev.len() == 1 && prev.last() == d);
        assert(split_on(s, c) == prev.update(prev.len() - 1, prev.last().push(s.last())));
        assert(seq![d].update(0, d.push(s.last())) =~= seq![s]);
    } else {
        assert(s =~= Seq::<u8>::empty());
    }
}

/// The one line of an ignore file that holds `/x` and a newline.
proof fn lemma_anchored_line(b: Seq<u8>, x: Seq<u8>)
    requires
        x.len() > 0,
        forall|i: int| 0 <= i < x.len() ==> x[i] != 0x2f && x[i] != 0x0a && x[i] != 0x5c,
        x.last() != 0x20 && x.last() != 0x0d,
    ensures
        split_lines(seq![0x2fu8] + x + seq![0x0au8]) == seq![seq![0x2fu8] + x, Seq::<u8>::empty()],
        ignore_entry(seq![0x2fu8] + x) == Some((false, PatternSpec { pattern: x, relative: false })),
        ignore_entry(Seq::<u8>::empty()) is None,
{
    let line = seq![0x2fu8] + x;
    let content = line + seq![0x0au8];
    assert forall|i: int| 0 <= i < line.len() implies line[i] != 0x0a && line[i] != 0x5c by {
        if i > 0 {
            assert(line[i] == x[i - 1]);
        }
    }
    lemma_split_on_single(line, 0x0a);
    assert(content.drop_last() =~= line);
    assert(split_lines(content) =~= seq![line, Seq::<u8>::empty()]);
    let n = line.len() as int;
    assert(line[n - 1] == x.last());
    assert(eol_end(line, n) == n);
    assert(space_end(line, n) == n);
    assert(line.take(n) =~= line);
    lemma_unescape_plain(line);
    assert(spec_gittrim(line) == line);
    assert(line.skip(1) =~= x);
    assert(line[0] == 0x2f);
    assert(!(forall|i: int| 0 <= i < line.len() - 1 ==> line[i] != 0x2f));
    assert(spec_new_pattern(line) == PatternSpec { pattern: x, relative: false });
    let e = Seq::<u8>::empty();
    assert(e.take(0) =~= e);
    assert(unescape(e) == e);
}

/// A leading slash anchors a pattern at its ignore file's directory and is
/// dropped: the file holding the single line `/x` (no slash, newline or
/// backslash in `x`, which ends in neither a space nor a carriage return)
/// read at base `b` gives the one plain pattern `x`, not bare-name, and no
/// negated pattern; that pattern is matched against an entry's path as
/// `b/x`.
pub proof fn law_anchored_line_drops_slash(b: Seq<u8>, x: Seq<u8>, path: Seq<u8>, name: Seq<u8>)
    requires
        x.len() > 0,
        forall|i: int| 0 <= i < x.len() ==> x[i] != 0x2f && x[i] != 0x0a && x[i] != 0x5c,
        x.last() != 0x20 && x.last() != 0x0d,
    ensures
        spec_ignore_file(b, seq![0x2fu8] + x + seq![0x0au8]).remove
            == seq![PatternSpec { pattern: x, relative: false }],
        spec_ignore_file(b, seq![0x2fu8] + x + seq![0x0au8]).reverse.len() == 0,
        target(spec_ignore_file(b, seq![0x2fu8] + x + seq![0x0au8]), PatternSpec { pattern: x, relative: false }, path, name)
            == (path, spec_join_path(b, x)),
{
    lemma_anchored_line(b, x);
    let line = seq![0x2fu8] + x;
    let lines = seq![line, Seq::<u8>::empty()];
    assert(lines.drop_last() =~= seq![line]);
    assert(seq![line].drop_last() =~= Seq::<Seq<u8>>::empty());
    assert(ignore_patterns(Seq::<Seq<u8>>::empty(), false) == Seq::<PatternSpec>::empty());
    assert(ignore_patterns(Seq::<Seq<u8>>::empty(), true) == Seq::<PatternSpec>::empty());
    assert(seq![line].last() == line);
    assert(lines.last() == Seq::<u8>::empty());
    assert(ignore_patterns(seq![line], false) =~= seq![PatternSpec { pattern: x, relative: false }]);
    assert(ignore_patterns(seq![line], true) =~= Seq::<PatternSpec>::empty());
    assert(ignore_patterns(lines, false) == ignore_patterns(seq![line], false));
    assert(ignore_patterns(lines, true) == ignore_patterns(seq![line], true));
}

/// So the entry at `b/x` is filtered by that file: whenever the matcher
/// matches `b/x` against the joined pattern `b/x`, a plain pattern of the
/// stack holding just that file hits and no negated one can, which is what
/// `check` answers with a deterministic matcher.
pub proof fn law_anchored_line_filters_its_path<M: Fn(&[u8], &[u8], bool) -> i32>(
    m: M, b: Seq<u8>, x: Seq<u8>, name: Seq<u8>, isdir: bool,
)
    requires
        x.len() > 0,
        forall|i: int| 0 <= i < x.len() ==> x[i] != 0x2f && x[i] != 0x0a && x[i] != 0x5c,
        x.last() != 0x20 && x.last() != 0x0d,
        hits(m, spec_join_path(b, x), spec_join_path(b, x), isdir),
    ensures
        filter_answer(
            m, seq![spec_ignore_file(b, seq![0x2fu8] + x + seq![0x0au8])], spec_join_path(b, x), name, isdir,
        ),
{
    let ig = spec_ignore_file(b, seq![0x2fu8] + x + seq![0x0au8]);
    let path = spec_join_path(b, x);
    law_anchored_line_drops_slash(b, x, path, name);
    let stack = seq![ig];
    assert(pattern_hit(m, stack, 0, 0, false, path, name, isdir));
}

/// Bytes after a separator open a new piece: `s`, `c`, then `t` (no `c`
/// in it) splits as `s` does, with `t` after.
pub proof fn lemma_split_on_extend(s: Seq<u8>, c: u8, t: Seq<u8>)
    requires
        forall|i: int| 0 <= i < t.len() ==> t[i] != c,
    ensures
        split_on(s.push(c) + t, c) == split_on(s, c).push(t),
    decreases t.len(),
{
    if t.len() == 0 {
        assert(s.push(c) + t =~= s.push(c));
        assert((s.push(c)).drop_last() =~= s);
        assert(split_on(s.push(c), c) == split_on(s, c).push(Seq::<u8>::empty()));
        assert(t =~= Seq::<u8>::empty());
    } else {
        let u = s.push(c) + t.drop_last();
        let b = t.last();
        assert(forall|i: int| 0 <= i < t.drop_last().len() ==> t.drop_last()[i] == t[i]);
        lemma_split_on_extend(s, c, t.drop_last());
        assert(s.push(c) + t =~= u.push(b));
        assert(u.push(b).drop_last() =~= u);
        let prev = split_on(u, c);
        assert(prev == split_on(s, c).push(t.drop_last()));
        assert(b != c);
        assert(split_on(u.push(b), c) == prev.update(prev.len() - 1, prev.last().push(b)));
        assert(t.drop_last().push(b) =~= t);
        assert(prev.update(prev.len() - 1, prev.last().push(b)) =~= split_on(s, c).push(t));
    }
}

/// A line with no backslash that ends in neither a space nor a line
/// terminator is kept as it is by `gittrim`.
pub proof fn lemma_gittrim_plain(line: Seq<u8>)
    requires
        line.len() > 0,
        forall|i: int| 0 <= i < line.len() ==> line[i] != 0x5c,
        line.last() != 0x20 && line.last() != 0x0d && line.last() != 0x0a,
    ensures
        spec_gittrim(line) == line,
{
    let n = line.len() as int;
    assert(line[n - 1] == line.last());
    assert(eol_end(line, n) == n);
    assert(space_end(line, n) == n);
    assert(line.take(n) =~= line);
    lemma_unescape_plain(line);
}

proof fn lemma_one_line_file(line: Seq<u8>)
    requires
        forall|i: int| 0 <= i < line.len() ==> line[i] != 0x0a,
    ensures
        split_lines(line.push(0x0a)) == seq![line, Seq::<u8>::empty()],
        ignore_patterns(seq![line, Seq::<u8>::empty()], false) == (match ignore_entry(line) {
            Some((r, p)) => if !r { seq![p] } else { Seq::<PatternSpec>::empty() },
            None => Seq::<PatternSpec>::empty(),
        }),
        ignore_patterns(seq![line, Seq::<u8>::empty()], true) == (match ignore_entry(line) {
            Some((r, p)) => if r { seq![p] } else { Seq::<PatternSpec>::empty() },
            None => Seq::<PatternSpec>::empty(),
        }),
{
    lemma_split_on_single(line, 0x0a);
    assert(line.push(0x0a).drop_last() =~= line);
    let lines = seq![line, Seq::<u8>::empty()];
    assert(lines.drop_last() =~= seq![line]);
    assert(seq![line].drop_last() =~= Seq::<Seq<u8>>::empty());
    let e = Seq::<u8>::empty();
    assert(e.take(0) =~= e);
    assert(unescape(e) == e);
    assert(ignore_entry(e) is None);
    assert(ignore_patterns(Seq::<Seq<u8>>::empty(), false) == Seq::<PatternSpec>::empty());
    assert(ignore_patterns(Seq::<Seq<u8>>::empty(), true) == Seq::<PatternSpec>::empty());
    assert(seq![line].last() == line);
    assert(lines.last() == e);
    assert(ignore_patterns(seq![line], false) =~= ignore_patterns(lines, false));
    assert(ignore_patterns(seq![line], true) =~= ignore_patterns(lines, true));
    match ignore_entry(line) {
        Some((r, p)) => {
            assert(ignore_patterns(seq![line], r) =~= seq![p]);
            assert(ignore_patterns(seq![line], !r) =~= Seq::<PatternSpec>::empty());
        },
        None => {},
    }
}

/// The kinds of line in an ignore file, each read from a file holding just
/// that line: a line starting with `#` is a comment and gives no pattern; a
/// bare name `x` (no slash, newline or backslash, not starting with `#` or
/// `!`, not ending in a space or carriage return) gives the plain bare-name
/// pattern `x`, matched against entry names; `!x` gives the same pattern as
/// a negated one instead.
pub proof fn law_ignore_line_kinds(b: Seq<u8>, x: Seq<u8>, rest: Seq<u8>)
    requires
        x.len() > 0,
        forall|i: int| 0 <= i < x.len() ==> x[i] != 0x2f && x[i] != 0x0a && x[i] != 0x5c,
        x[0] != 0x23 && x[0] != 0x21,
        x.last() != 0x20 && x.last() != 0x0d,
        forall|i: int| 0 <= i < rest.len() ==> rest[i] != 0x0a,
    ensures
        spec_ignore_file(b, (seq![0x23u8] + rest).push(0x0a)).remove.len() == 0,
        spec_ignore_file(b, (seq![0x23u8] + rest).push(0x0a)).reverse.len() == 0,
        spec_ignore_file(b, x.push(0x0a)).remove == seq![PatternSpec { pattern: x, relative: true }],
        spec_ignore_file(b, x.push(0x0a)).reverse.len() == 0,
        spec_ignore_file(b, (seq![0x21u8] + x).push(0x0a)).reverse == seq![PatternSpec { pattern: x, relative: true }],
        spec_ignore_file(b, (seq![0x21u8] + x).push(0x0a)).remove.len() == 0,
{
    let c = seq![0x23u8] + rest;
    assert forall|i: int| 0 <= i < c.len() implies c[i] != 0x0a by {
        if i > 0 {
            assert(c[i] == rest[i - 1]);
        }
    }
    lemma_one_line_file(c);
    assert(ignore_entry(c) is None);
    lemma_one_line_file(x);
    lemma_gittrim_plain(x);
    assert(spec_new_pattern(x) == PatternSpec { pattern: x, relative: true });
    assert(ignore_entry(x) == Some((false, PatternSpec { pattern: x, relative: true })));
    let n = seq![0x21u8] + x;
    assert forall|i: int| 0 <= i < n.len() implies n[i] != 0x0a by {
        if i > 0 {
            assert(n[i] == x[i - 1]);
        }
    }
    lemma_one_line_file(n);
    assert(n.skip(1) =~= x);
    assert(ignore_entry(n) == Some((true, PatternSpec { pattern: x, relative: true })));
}

} // verus!
