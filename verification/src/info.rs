//! `--info` / `--infofile` support: `.info` files hold pattern lines,
//! each group followed by tab-indented description lines.
use vstd::prelude::*;
use crate::bytes::{copy_bytes, copy_from, copy_lines, join_path, lines_view, spec_join_path, split_lines, split_on, lemma_split_lines_step};
use crate::filter::{gittrim, spec_gittrim, lemma_gittrim_plain, lemma_split_on_single, lemma_split_on_extend};
use crate::pattern::{hits, misses, total_matcher, ask, deterministic_matcher, lemma_hit_excludes_miss};

verus! {

/// A group of patterns and the description they share.
pub struct CommentSpec {
    pub patterns: Seq<Seq<u8>>,
    pub desc: Seq<Seq<u8>>,
}

/// An info file: the directory its anchored patterns are relative to,
/// and its comments in file order.
pub struct InfoSpec {
    pub base: Seq<u8>,
    pub comments: Seq<CommentSpec>,
}

struct InfoComment {
    patterns: Vec<Vec<u8>>,
    desc: Vec<Vec<u8>>,
}

impl View for InfoComment {
    type V = CommentSpec;

    closed spec fn view(&self) -> CommentSpec {
        CommentSpec { patterns: lines_view(self.patterns@), desc: lines_view(self.desc@) }
    }
}

struct InfoFile {
    base: Vec<u8>,
    comments: Vec<InfoComment>,
}

spec fn comments_view(v: Seq<InfoComment>) -> Seq<CommentSpec> {
    v.map_values(|c: InfoComment| c@)
}

impl View for InfoFile {
    type V = InfoSpec;

    closed spec fn view(&self) -> InfoSpec {
        InfoSpec { base: self.base@, comments: comments_view(self.comments@) }
    }
}

/// The info files in force, outermost first.
pub struct InfoStack {
    stack: Vec<InfoFile>,
}

impl View for InfoStack {
    type V = Seq<InfoSpec>;

    closed spec fn view(&self) -> Seq<InfoSpec> {
        self.stack@.map_values(|f: InfoFile| f@)
    }
}

/// The state of the reader between lines: finished comments, the
/// patterns of the group being read and the description lines seen.
pub struct InfoParse {
    pub comments: Seq<CommentSpec>,
    pub patterns: Seq<Seq<u8>>,
    pub desc: Seq<Seq<u8>>,
}

/// One line of an info file. Comments (`#`) and blank lines are skipped;
/// a tab-indented line adds a description line; any other line is a
/// pattern (a leading slash dropped) that, after a description, starts a
/// new group. A description with no pattern before it is dropped.
pub open spec fn info_step(st: InfoParse, line: Seq<u8>) -> InfoParse {
    if line.len() > 0 && line[0] == 0x23 {
        st
    } else {
        let t = spec_gittrim(line);
        if t.len() == 0 {
            st
        } else if t[0] == 0x09 {
            InfoParse { comments: st.comments, patterns: st.patterns, desc: st.desc.push(t.skip(1)) }
        } else {
            let pat = if t[0] == 0x2f { t.skip(1) } else { t };
            if st.desc.len() > 0 && st.patterns.len() > 0 {
                InfoParse {
                    comments: st.comments.push(CommentSpec { patterns: st.patterns, desc: st.desc }),
                    patterns: seq![pat],
                    desc: Seq::<Seq<u8>>::empty(),
                }
            } else if st.desc.len() > 0 {
                InfoParse { comments: st.comments, patterns: st.patterns.push(pat), desc: Seq::<Seq<u8>>::empty() }
            } else {
                InfoParse { comments: st.comments, patterns: st.patterns.push(pat), desc: st.desc }
            }
        }
    }
}

/// The reader's state after `lines`.
pub open spec fn info_fold(lines: Seq<Seq<u8>>) -> InfoParse
    decreases lines.len(),
{
    if lines.len() == 0 {
        InfoParse {
            comments: Seq::<CommentSpec>::empty(),
            patterns: Seq::<Seq<u8>>::empty(),
            desc: Seq::<Seq<u8>>::empty(),
        }
    } else {
        info_step(info_fold(lines.drop_last()), lines.last())
    }
}

/// The comments of an info file with contents `content`: a last group
/// with patterns is kept even without description.
pub open spec fn spec_info_comments(content: Seq<u8>) -> Seq<CommentSpec> {
    let st = info_fold(split_lines(content));
    if st.patterns.len() > 0 {
        st.comments.push(CommentSpec { patterns: st.patterns, desc: st.desc })
    } else {
        st.comments
    }
}

fn info_line(
    line: &[u8],
    comments: &mut Vec<InfoComment>,
    patterns: &mut Vec<Vec<u8>>,
    desc: &mut Vec<Vec<u8>>,
)
    ensures
        ({
            let st = info_step(
                InfoParse {
                    comments: comments_view(old(comments)@),
                    patterns: lines_view(old(patterns)@),
                    desc: lines_view(old(desc)@),
                },
                line@,
            );
            &&& comments_view(final(comments)@) == st.comments
            &&& lines_view(final(patterns)@) == st.patterns
            &&& lines_view(final(desc)@) == st.desc
        }),
{
    if line.len() > 0 && line[0] == 0x23 {
        return;
    }
    let t = gittrim(line);
    if t.len() == 0 {
        return;
    }
    if t[0] == 0x09 {
        let ghost before = desc@;
        desc.push(copy_from(t.as_slice(), 1));
        assert(lines_view(desc@) =~= lines_view(before).push(t@.skip(1)));
        return;
    }
    let pat = if t[0] == 0x2f { copy_from(t.as_slice(), 1) } else { t };
    if desc.len() > 0 {
        if patterns.len() > 0 {
            let mut ps: Vec<Vec<u8>> = Vec::new();
            let mut ds: Vec<Vec<u8>> = Vec::new();
            std::mem::swap(&mut ps, patterns);
            std::mem::swap(&mut ds, desc);
            let ghost before = comments@;
            let c = InfoComment { patterns: ps, desc: ds };
            comments.push(c);
            assert(comments_view(comments@) =~= comments_view(before).push(c@));
            patterns.push(pat);
            assert(lines_view(patterns@) =~= seq![pat@]);
            assert(lines_view(desc@) =~= Seq::<Seq<u8>>::empty());
        } else {
            desc.clear();
            let ghost before = patterns@;
            patterns.push(pat);
            assert(lines_view(patterns@) =~= lines_view(before).push(pat@));
            assert(lines_view(desc@) =~= Seq::<Seq<u8>>::empty());
        }
    } else {
        let ghost before = patterns@;
        patterns.push(pat);
        assert(lines_view(patterns@) =~= lines_view(before).push(pat@));
    }
}

fn parse_info(content: &[u8]) -> (r: Vec<InfoComment>)
    ensures
        comments_view(r@) == spec_info_comments(content@),
{
    let mut comments: Vec<InfoComment> = Vec::new();
    let mut patterns: Vec<Vec<u8>> = Vec::new();
    let mut desc: Vec<Vec<u8>> = Vec::new();
    let mut line: Vec<u8> = Vec::new();
    let mut i: usize = 0;
    assert(content@.take(0) =~= Seq::<u8>::empty());
    assert(split_lines(content@.take(0)).drop_last() =~= Seq::<Seq<u8>>::empty());
    assert(comments_view(comments@) =~= Seq::<CommentSpec>::empty());
    assert(lines_view(patterns@) =~= Seq::<Seq<u8>>::empty());
    assert(lines_view(desc@) =~= Seq::<Seq<u8>>::empty());
    while i < content.len()
        invariant
            i <= content@.len(),
            split_lines(content@.take(i as int)).len() >= 1,
            line@ == split_lines(content@.take(i as int)).last(),
            ({
                let st = info_fold(split_lines(content@.take(i as int)).drop_last());
                &&& comments_view(comments@) == st.comments
                &&& lines_view(patterns@) == st.patterns
                &&& lines_view(desc@) == st.desc
            }),
        decreases content@.len() - i,
    {
        proof {
            lemma_split_lines_step(content@, i as int);
        }
        let ghost lines = split_lines(content@.take(i as int));
        if content[i] == 0x0a {
            info_line(line.as_slice(), &mut comments, &mut patterns, &mut desc);
            line = Vec::new();
            assert(lines.push(Seq::<u8>::empty()).drop_last() =~= lines);
        } else {
            line.push(content[i]);
            assert(lines.drop_last().push(lines.last().push(content@[i as int])).drop_last() =~= lines.drop_last());
        }
        i = i + 1;
    }
    info_line(line.as_slice(), &mut comments, &mut patterns, &mut desc);
    assert(content@.take(i as int) =~= content@);
    if patterns.len() > 0 {
        let ghost before = comments@;
        let c = InfoComment { patterns, desc };
        comments.push(c);
        assert(comments_view(comments@) =~= comments_view(before).push(c@));
    }
    comments
}

/// One call the check makes: the matcher is asked about `buf` and `pat`,
/// and a match answers `desc`.
pub struct Probe {
    pub buf: Seq<u8>,
    pub pat: Seq<u8>,
    pub desc: Seq<Seq<u8>>,
}

/// The calls made for one pattern: against the path, against the name
/// (only while `top` holds), and, joined to the file's directory, against
/// the path.
pub open spec fn pattern_probes(
    base: Seq<u8>, pat: Seq<u8>, desc: Seq<Seq<u8>>, path: Seq<u8>, name: Seq<u8>, top: bool,
) -> Seq<Probe> {
    seq![Probe { buf: path, pat, desc }]
        + (if top { seq![Probe { buf: name, pat, desc }] } else { Seq::<Probe>::empty() })
        + seq![Probe { buf: path, pat: spec_join_path(base, pat), desc }]
}

/// The calls made for one comment, pattern by pattern.
pub open spec fn comment_probes(base: Seq<u8>, c: CommentSpec, path: Seq<u8>, name: Seq<u8>, top: bool) -> Seq<Probe> {
    c.patterns.map_values(|p: Seq<u8>| pattern_probes(base, p, c.desc, path, name, top)).flatten()
}

/// The calls made for one info file, comment by comment.
pub open spec fn file_probes(f: InfoSpec, path: Seq<u8>, name: Seq<u8>, top: bool) -> Seq<Probe> {
    f.comments.map_values(|c: CommentSpec| comment_probes(f.base, c, path, name, top)).flatten()
}

/// The calls made for each file, innermost first; `top` holds only for
/// the innermost one.
pub open spec fn stack_probe_groups(stack: Seq<InfoSpec>, path: Seq<u8>, name: Seq<u8>, top: bool) -> Seq<Seq<Probe>> {
    Seq::new(stack.len(), |k: int| file_probes(stack[stack.len() - 1 - k], path, name, top && k == 0))
}

/// Every call the check may make, in order.
pub open spec fn stack_probes(stack: Seq<InfoSpec>, path: Seq<u8>, name: Seq<u8>, top: bool) -> Seq<Probe> {
    stack_probe_groups(stack, path, name, top).flatten()
}

/// The matcher matched probe `q`.
pub open spec fn probe_hit<M: Fn(&[u8], &[u8], bool) -> i32>(m: M, q: Probe, isdir: bool) -> bool {
    hits(m, q.buf, q.pat, isdir)
}

/// The matcher did not match probe `q`.
pub open spec fn probe_miss<M: Fn(&[u8], &[u8], bool) -> i32>(m: M, q: Probe, isdir: bool) -> bool {
    misses(m, q.buf, q.pat, isdir)
}

/// Probe `k` is the first of `ps` that matched.
pub open spec fn first_hit<M: Fn(&[u8], &[u8], bool) -> i32>(m: M, ps: Seq<Probe>, k: int, isdir: bool) -> bool {
    &&& 0 <= k < ps.len()
    &&& probe_hit(m, ps[k], isdir)
    &&& forall|j: int| 0 <= j < k ==> #[trigger] probe_miss(m, ps[j], isdir)
}

/// No probe of `ps` matched.
pub open spec fn none_hit<M: Fn(&[u8], &[u8], bool) -> i32>(m: M, ps: Seq<Probe>, isdir: bool) -> bool {
    forall|j: int| 0 <= j < ps.len() ==> #[trigger] probe_miss(m, ps[j], isdir)
}

/// The outcome of asking the probes of `ps` in order.
pub open spec fn probes_answer<M: Fn(&[u8], &[u8], bool) -> i32>(
    m: M, ps: Seq<Probe>, isdir: bool, r: Option<Seq<Seq<u8>>>,
) -> bool {
    match r {
        Some(d) => exists|k: int| #[trigger] first_hit(m, ps, k, isdir) && ps[k].desc == d,
        None => none_hit(m, ps, isdir),
    }
}

proof fn lemma_none_concat<M: Fn(&[u8], &[u8], bool) -> i32>(m: M, a: Seq<Probe>, b: Seq<Probe>, isdir: bool)
    requires
        none_hit(m, a, isdir),
        none_hit(m, b, isdir),
    ensures
        none_hit(m, a + b, isdir),
{
    assert forall|j: int| 0 <= j < (a + b).len() implies #[trigger] probe_miss(m, (a + b)[j], isdir) by {
        if j < a.len() {
            assert((a + b)[j] == a[j]);
        } else {
            assert((a + b)[j] == b[j - a.len()]);
        }
    }
}

proof fn lemma_first_after<M: Fn(&[u8], &[u8], bool) -> i32>(m: M, a: Seq<Probe>, b: Seq<Probe>, k: int, isdir: bool)
    requires
        none_hit(m, a, isdir),
        first_hit(m, b, k, isdir),
    ensures
        first_hit(m, a + b, a.len() + k, isdir),
        (a + b)[a.len() + k] == b[k],
{
    assert forall|j: int| 0 <= j < a.len() + k implies #[trigger] probe_miss(m, (a + b)[j], isdir) by {
        if j < a.len() {
            assert((a + b)[j] == a[j]);
        } else {
            assert((a + b)[j] == b[j - a.len()]);
        }
    }
}

proof fn lemma_first_before<M: Fn(&[u8], &[u8], bool) -> i32>(m: M, a: Seq<Probe>, b: Seq<Probe>, k: int, isdir: bool)
    requires
        first_hit(m, a, k, isdir),
    ensures
        first_hit(m, a + b, k, isdir),
        (a + b)[k] == a[k],
{
    assert forall|j: int| 0 <= j < k implies #[trigger] probe_miss(m, (a + b)[j], isdir) by {
        assert((a + b)[j] == a[j]);
    }
}

/// Group `c` being the first with a match, at its probe `k`, places the
/// first match of the whole flattened list.
proof fn lemma_group_hit<M: Fn(&[u8], &[u8], bool) -> i32>(m: M, groups: Seq<Seq<Probe>>, c: int, k: int, isdir: bool)
    requires
        0 <= c < groups.len(),
        none_hit(m, groups.take(c).flatten(), isdir),
        first_hit(m, groups[c], k, isdir),
    ensures
        first_hit(m, groups.flatten(), groups.take(c).flatten().len() + k, isdir),
        groups.flatten()[groups.take(c).flatten().len() + k] == groups[c][k],
{
    broadcast use Seq::lemma_flatten_push;
    let a = groups.take(c).flatten();
    assert(groups.take(c + 1) =~= groups.take(c).push(groups[c]));
    lemma_first_after(m, a, groups[c], k, isdir);
    lemma_first_before(m, a + groups[c], groups.skip(c + 1).flatten(), a.len() + k, isdir);
    vstd::seq_lib::lemma_flatten_concat(groups.take(c + 1), groups.skip(c + 1));
    assert(groups.take(c + 1) + groups.skip(c + 1) =~= groups);
}

/// One more group with no match extends the matchless prefix.
proof fn lemma_group_miss<M: Fn(&[u8], &[u8], bool) -> i32>(m: M, groups: Seq<Seq<Probe>>, c: int, isdir: bool)
    requires
        0 <= c < groups.len(),
        none_hit(m, groups.take(c).flatten(), isdir),
        none_hit(m, groups[c], isdir),
    ensures
        none_hit(m, groups.take(c + 1).flatten(), isdir),
{
    broadcast use Seq::lemma_flatten_push;
    assert(groups.take(c + 1) =~= groups.take(c).push(groups[c]));
    lemma_none_concat(m, groups.take(c).flatten(), groups[c], isdir);
}

proof fn lemma_no_groups<M: Fn(&[u8], &[u8], bool) -> i32>(m: M, groups: Seq<Seq<Probe>>, isdir: bool)
    ensures
        none_hit(m, groups.take(0).flatten(), isdir),
{
    assert(groups.take(0) =~= Seq::<Seq<Probe>>::empty());
    assert(groups.take(0).flatten() =~= Seq::<Probe>::empty());
}

/// The description lines of a result, as byte strings.
pub open spec fn desc_view(r: Option<Vec<Vec<u8>>>) -> Option<Seq<Seq<u8>>> {
    match r {
        Some(v) => Some(lines_view(v@)),
        None => None,
    }
}

fn check_pattern<M: Fn(&[u8], &[u8], bool) -> i32>(
    base: &[u8], pat: &[u8], Ghost(desc): Ghost<Seq<Seq<u8>>>, path: &[u8], name: &[u8], top: bool, isdir: bool, m: &M,
) -> (r: bool)
    requires
        total_matcher(*m),
    ensures
        r ==> exists|k: int| #[trigger] first_hit(*m, pattern_probes(base@, pat@, desc, path@, name@, top), k, isdir),
        !r ==> none_hit(*m, pattern_probes(base@, pat@, desc, path@, name@, top), isdir),
{
    let ghost ps = pattern_probes(base@, pat@, desc, path@, name@, top);
    let ghost q0 = Probe { buf: path@, pat: pat@, desc };
    let ghost q1 = Probe { buf: name@, pat: pat@, desc };
    let ghost q2 = Probe { buf: path@, pat: spec_join_path(base@, pat@), desc };
    proof {
        if top {
            assert(ps =~= seq![q0, q1, q2]);
        } else {
            assert(ps =~= seq![q0, q2]);
        }
    }
    if ask(m, path, pat, isdir) {
        assert(first_hit(*m, ps, 0, isdir));
        return true;
    }
    if top {
        if ask(m, name, pat, isdir) {
            assert(first_hit(*m, ps, 1, isdir));
            return true;
        }
    }
    let full = join_path(base, pat);
    let r = ask(m, path, full.as_slice(), isdir);
    proof {
        let last = ps.len() - 1;
        if r {
            assert(first_hit(*m, ps, last, isdir));
        }
    }
    r
}

fn check_comment<M: Fn(&[u8], &[u8], bool) -> i32>(
    base: &[u8], c: &InfoComment, path: &[u8], name: &[u8], top: bool, isdir: bool, m: &M,
) -> (r: bool)
    requires
        total_matcher(*m),
    ensures
        r ==> exists|k: int| #[trigger] first_hit(*m, comment_probes(base@, c@, path@, name@, top), k, isdir)
            && comment_probes(base@, c@, path@, name@, top)[k].desc == c@.desc,
        !r ==> none_hit(*m, comment_probes(base@, c@, path@, name@, top), isdir),
{
    let ghost cv = c@;
    let ghost groups = cv.patterns.map_values(|p: Seq<u8>| pattern_probes(base@, p, cv.desc, path@, name@, top));
    proof {
        lemma_no_groups(*m, groups, isdir);
    }
    let mut j: usize = 0;
    while j < c.patterns.len()
        invariant
            total_matcher(*m),
            cv == c@,
            groups == cv.patterns.map_values(|p: Seq<u8>| pattern_probes(base@, p, cv.desc, path@, name@, top)),
            j <= c.patterns@.len(),
            cv.patterns.len() == c.patterns@.len(),
            none_hit(*m, groups.take(j as int).flatten(), isdir),
        decreases c.patterns@.len() - j,
    {
        assert(cv.patterns[j as int] == c.patterns@[j as int]@);
        let hit = check_pattern(base, c.patterns[j].as_slice(), Ghost(cv.desc), path, name, top, isdir, m);
        if hit {
            proof {
                let k = choose|k: int| #[trigger] first_hit(*m, groups[j as int], k, isdir);
                lemma_group_hit(*m, groups, j as int, k, isdir);
                let idx = groups.take(j as int).flatten().len() + k;
                assert(groups.flatten()[idx].desc == cv.desc);
                assert(first_hit(*m, comment_probes(base@, c@, path@, name@, top), idx, isdir));
            }
            return true;
        }
        proof {
            lemma_group_miss(*m, groups, j as int, isdir);
        }
        j = j + 1;
    }
    assert(groups.take(j as int) =~= groups);
    false
}

fn check_file<M: Fn(&[u8], &[u8], bool) -> i32>(
    f: &InfoFile, path: &[u8], name: &[u8], top: bool, isdir: bool, m: &M,
) -> (r: Option<usize>)
    requires
        total_matcher(*m),
    ensures
        match r {
            Some(ci) => ci < f@.comments.len() && exists|k: int| #[trigger] first_hit(*m, file_probes(f@, path@, name@, top), k, isdir)
                && file_probes(f@, path@, name@, top)[k].desc == f@.comments[ci as int].desc,
            None => none_hit(*m, file_probes(f@, path@, name@, top), isdir),
        },
{
    let ghost fv = f@;
    let ghost groups = fv.comments.map_values(|c: CommentSpec| comment_probes(fv.base, c, path@, name@, top));
    proof {
        lemma_no_groups(*m, groups, isdir);
    }
    let mut ci: usize = 0;
    while ci < f.comments.len()
        invariant
            total_matcher(*m),
            fv == f@,
            groups == fv.comments.map_values(|c: CommentSpec| comment_probes(fv.base, c, path@, name@, top)),
            ci <= f.comments@.len(),
            fv.comments.len() == f.comments@.len(),
            none_hit(*m, groups.take(ci as int).flatten(), isdir),
        decreases f.comments@.len() - ci,
    {
        assert(fv.comments[ci as int] == f.comments@[ci as int]@);
        let hit = check_comment(f.base.as_slice(), &f.comments[ci], path, name, top, isdir, m);
        if hit {
            proof {
                let k = choose|k: int| #[trigger] first_hit(*m, groups[ci as int], k, isdir)
                    && groups[ci as int][k].desc == fv.comments[ci as int].desc;
                lemma_group_hit(*m, groups, ci as int, k, isdir);
                let idx = groups.take(ci as int).flatten().len() + k;
                assert(first_hit(*m, file_probes(f@, path@, name@, top), idx, isdir));
            }
            return Some(ci);
        }
        proof {
            lemma_group_miss(*m, groups, ci as int, isdir);
        }
        ci = ci + 1;
    }
    assert(groups.take(ci as int) =~= groups);
    None
}

impl InfoStack {
    /// An empty stack.
    pub fn new() -> (r: InfoStack)
        ensures
            r@ == Seq::<InfoSpec>::empty(),
    {
        let r = InfoStack { stack: Vec::new() };
        assert(r@ =~= Seq::<InfoSpec>::empty());
        r
    }

    /// The current depth of the stack, to return to later.
    pub fn mark(&self) -> (r: usize)
        ensures
            r == self@.len(),
    {
        self.stack.len()
    }

    /// Drop every info file pushed after `mark` was taken.
    pub fn truncate(&mut self, mark: usize)
        ensures
            mark <= old(self)@.len() ==> final(self)@ == old(self)@.take(mark as int),
            mark > old(self)@.len() ==> final(self)@ == old(self)@,
    {
        self.stack.truncate(mark);
        assert(mark <= old(self)@.len() ==> self@ =~= old(self)@.take(mark as int));
        assert(mark > old(self)@.len() ==> self@ =~= old(self)@);
    }

    fn push_parsed(&mut self, base: &[u8], content: &[u8])
        ensures
            final(self)@ == old(self)@.push(InfoSpec { base: base@, comments: spec_info_comments(content@) }),
    {
        let comments = parse_info(content);
        let f = InfoFile { base: copy_bytes(base), comments };
        let ghost before = self@;
        self.stack.push(f);
        assert(self@ =~= before.push(f@));
    }

    /// --infofile: push an explicit info file, anchored at its own path;
    /// `content` is its contents when it could be read.
    pub fn push_file(&mut self, file: &[u8], content: Option<&[u8]>)
        ensures
            match content {
                Some(c) => final(self)@ == old(self)@.push(InfoSpec { base: file@, comments: spec_info_comments(c@) }),
                None => final(self)@ == old(self)@,
            },
    {
        if let Some(c) = content {
            self.push_parsed(file, c);
        }
    }

    /// Push the info file found for `dir` (its own `.info`, or for the
    /// walk root one in a parent directory), anchored at `dir` either way;
    /// `content` is its contents when one was found and could be read.
    /// Returns whether a file was pushed: the check's `top` flag.
    pub fn push_dir(&mut self, dir: &[u8], content: Option<&[u8]>) -> (pushed: bool)
        ensures
            pushed == content.is_some(),
            match content {
                Some(c) => final(self)@ == old(self)@.push(InfoSpec { base: dir@, comments: spec_info_comments(c@) }),
                None => final(self)@ == old(self)@,
            },
    {
        match content {
            Some(c) => {
                self.push_parsed(dir, c);
                true
            },
            None => false,
        }
    }

    /// tree's infocheck: the description of the first comment with a
    /// pattern matching the entry, innermost file first. Each pattern is
    /// tried against the path, against the bare name while `top` holds
    /// (the innermost file only), then joined to its file's directory
    /// against the path. `patmatch` is the glob matcher; only an answer of
    /// 1 counts.
    pub fn check<M: Fn(&[u8], &[u8], bool) -> i32>(
        &self, path: &[u8], name: &[u8], top: bool, isdir: bool, patmatch: &M,
    ) -> (r: Option<Vec<Vec<u8>>>)
        requires
            total_matcher(*patmatch),
        ensures
            probes_answer(*patmatch, stack_probes(self@, path@, name@, top), isdir, desc_view(r)),
    {
        let ghost sv = self@;
        let ghost groups = stack_probe_groups(sv, path@, name@, top);
        proof {
            lemma_no_groups(*patmatch, groups, isdir);
        }
        let n = self.stack.len();
        let mut f: usize = 0;
        while f < n
            invariant
                total_matcher(*patmatch),
                sv == self@,
                n == self.stack@.len(),
                sv.len() == n,
                groups == stack_probe_groups(sv, path@, name@, top),
                f <= n,
                none_hit(*patmatch, groups.take(f as int).flatten(), isdir),
            decreases n - f,
        {
            let file = &self.stack[n - 1 - f];
            let top_now = top && f == 0;
            assert(sv[n - 1 - f] == file@);
            assert(groups[f as int] == file_probes(file@, path@, name@, top_now));
            match check_file(file, path, name, top_now, isdir, patmatch) {
                Some(ci) => {
                    let d = copy_lines(&file.comments[ci].desc);
                    proof {
                        let k = choose|k: int| #[trigger] first_hit(*patmatch, groups[f as int], k, isdir)
                            && groups[f as int][k].desc == file@.comments[ci as int].desc;
                        lemma_group_hit(*patmatch, groups, f as int, k, isdir);
                        let idx = groups.take(f as int).flatten().len() + k;
                        assert(file@.comments[ci as int] == file.comments@[ci as int]@);
                        assert(first_hit(*patmatch, stack_probes(self@, path@, name@, top), idx, isdir));
                    }
                    return Some(d);
                },
                None => {
                    proof {
                        lemma_group_miss(*patmatch, groups, f as int, isdir);
                    }
                },
            }
            f = f + 1;
        }
        assert(groups.take(f as int) =~= groups);
        None
    }
}

impl Default for InfoStack {
    fn default() -> (r: InfoStack)
        ensures
            r@ == Seq::<InfoSpec>::empty(),
    {
        InfoStack::new()
    }
}

/// Taking a mark, pushing info files, then truncating to the mark gives
/// back the stack as it was at the mark.
pub proof fn law_info_truncate_restores(at_mark: Seq<InfoSpec>, pushed: Seq<InfoSpec>)
    ensures
        (at_mark + pushed).take(at_mark.len() as int) == at_mark,
{
    assert((at_mark + pushed).take(at_mark.len() as int) =~= at_mark);
}

/// Truncating to a mark restores what the check asks, and so what it
/// answers: the same probes, in the same order, as at the mark.
pub proof fn law_info_truncate_restores_check(
    at_mark: Seq<InfoSpec>, pushed: Seq<InfoSpec>, path: Seq<u8>, name: Seq<u8>, top: bool,
)
    ensures
        stack_probes((at_mark + pushed).take(at_mark.len() as int), path, name, top)
            == stack_probes(at_mark, path, name, top),
{
    law_info_truncate_restores(at_mark, pushed);
}

/// With no info file in force the check asks nothing and answers `None`.
pub proof fn law_info_empty_answers_none<M: Fn(&[u8], &[u8], bool) -> i32>(
    m: M, path: Seq<u8>, name: Seq<u8>, top: bool, isdir: bool, r: Option<Seq<Seq<u8>>>,
)
    ensures
        stack_probes(Seq::<InfoSpec>::empty(), path, name, top).len() == 0,
        probes_answer(m, stack_probes(Seq::<InfoSpec>::empty(), path, name, top), isdir, r) <==> r is None,
{
    let groups = stack_probe_groups(Seq::<InfoSpec>::empty(), path, name, top);
    assert(groups =~= Seq::<Seq<Probe>>::empty());
    assert(groups.flatten() =~= Seq::<Probe>::empty());
}

/// With a deterministic matcher the check's answer is fixed by the stack
/// and the entry: two answers its contract allows are equal.
pub proof fn law_info_answer_unique<M: Fn(&[u8], &[u8], bool) -> i32>(
    m: M, ps: Seq<Probe>, isdir: bool, r1: Option<Seq<Seq<u8>>>, r2: Option<Seq<Seq<u8>>>,
)
    requires
        deterministic_matcher(m),
        probes_answer(m, ps, isdir, r1),
        probes_answer(m, ps, isdir, r2),
    ensures
        r1 == r2,
{
    match (r1, r2) {
        (Some(d1), Some(d2)) => {
            let k1 = choose|k: int| #[trigger] first_hit(m, ps, k, isdir) && ps[k].desc == d1;
            let k2 = choose|k: int| #[trigger] first_hit(m, ps, k, isdir) && ps[k].desc == d2;
            if k1 < k2 {
                assert(probe_miss(m, ps[k1], isdir));
                lemma_hit_excludes_miss(m, ps[k1].buf, ps[k1].pat, isdir);
            } else if k2 < k1 {
                assert(probe_miss(m, ps[k2], isdir));
                lemma_hit_excludes_miss(m, ps[k2].buf, ps[k2].pat, isdir);
            }
        },
        (Some(d1), None) => {
            let k1 = choose|k: int| #[trigger] first_hit(m, ps, k, isdir) && ps[k].desc == d1;
            assert(probe_miss(m, ps[k1], isdir));
            lemma_hit_excludes_miss(m, ps[k1].buf, ps[k1].pat, isdir);
        },
        (None, Some(d2)) => {
            let k2 = choose|k: int| #[trigger] first_hit(m, ps, k, isdir) && ps[k].desc == d2;
            assert(probe_miss(m, ps[k2], isdir));
            lemma_hit_excludes_miss(m, ps[k2].buf, ps[k2].pat, isdir);
        },
        (None, None) => {},
    }
}

/// What the search for an info file does at one directory.
#[derive(Clone, Copy, PartialEq, Eq, Structural, Debug)]
pub enum SearchStep {
    /// An info file is here: it decides the search.
    Found,
    /// Look in the parent directory next.
    Parent,
    /// Stop: there is no info file.
    Stop,
}

/// The search for an info file at one directory: a file here ends it;
/// otherwise the walk root's search goes on to the parent, until the
/// directory is `/` or its parent cannot be resolved.
pub open spec fn spec_search_step(found: bool, check_parents: bool, at_top: bool) -> SearchStep {
    if found {
        SearchStep::Found
    } else if check_parents && !at_top {
        SearchStep::Parent
    } else {
        SearchStep::Stop
    }
}

/// The step of the search at a directory: `found` when it holds a `.info`
/// file, `check_parents` for the walk root's search, `at_top` when the
/// directory is `/` or its parent cannot be resolved.
pub fn search_step(found: bool, check_parents: bool, at_top: bool) -> (r: SearchStep)
    ensures
        r == spec_search_step(found, check_parents, at_top),
{
    if found {
        SearchStep::Found
    } else if check_parents && !at_top {
        SearchStep::Parent
    } else {
        SearchStep::Stop
    }
}

/// What a search for an info file saw at one place: nothing, a file
/// that could not be read, or a file's contents.
pub open spec fn candidate_view(c: Option<Option<Vec<u8>>>) -> Option<Option<Seq<u8>>> {
    match c {
        Some(Some(v)) => Some(Some(v@)),
        Some(None) => Some(None),
        None => None,
    }
}

/// The first place, in order, where an info file was found.
pub open spec fn first_found(cs: Seq<Option<Option<Seq<u8>>>>) -> Option<Option<Seq<u8>>>
    decreases cs.len(),
{
    if cs.len() == 0 {
        None
    } else if cs[0] is Some {
        cs[0]
    } else {
        first_found(cs.skip(1))
    }
}

impl InfoStack {
    /// Push the info file found for `dir` by a search: `candidates` holds
    /// what was seen at `dir` and then, for the walk root, at each parent
    /// in turn. The first file found decides: its contents are pushed,
    /// anchored at `dir`, or, when it could not be read, nothing is.
    /// Returns whether a file was pushed: the check's `top` flag.
    pub fn push_search(&mut self, dir: &[u8], candidates: &[Option<Option<Vec<u8>>>]) -> (pushed: bool)
        ensures
            match first_found(candidates@.map_values(|c: Option<Option<Vec<u8>>>| candidate_view(c))) {
                Some(Some(c)) => pushed && final(self)@ == old(self)@.push(InfoSpec { base: dir@, comments: spec_info_comments(c) }),
                _ => !pushed && final(self)@ == old(self)@,
            },
    {
        let ghost cs = candidates@.map_values(|c: Option<Option<Vec<u8>>>| candidate_view(c));
        let mut i: usize = 0;
        assert(cs.skip(0) =~= cs);
        while i < candidates.len()
            invariant
                i <= candidates@.len(),
                cs == candidates@.map_values(|c: Option<Option<Vec<u8>>>| candidate_view(c)),
                first_found(cs) == first_found(cs.skip(i as int)),
                self@ == old(self)@,
            decreases candidates@.len() - i,
        {
            assert(cs.skip(i as int)[0] == candidate_view(candidates@[i as int]));
            match &candidates[i] {
                Some(Some(content)) => {
                    self.push_parsed(dir, content.as_slice());
                    return true;
                },
                Some(None) => {
                    return false;
                },
                None => {},
            }
            assert(cs.skip(i as int).skip(1) =~= cs.skip(i + 1));
            i = i + 1;
        }
        false
    }
}

/// An info file holding a pattern line and one tab-indented description
/// line gives one comment: the pattern (its leading slash, if any, dropped)
/// with that description, the tab dropped. Here the pattern `x` holds no
/// newline or backslash, starts with none of `/`, `#` or a tab, and neither
/// it nor the description (no newline or backslash in it) ends in a space
/// or a carriage return.
pub proof fn law_info_pattern_and_description(x: Seq<u8>, d: Seq<u8>, anchored: bool)
    requires
        x.len() > 0,
        forall|i: int| 0 <= i < x.len() ==> x[i] != 0x0a && x[i] != 0x5c,
        x[0] != 0x2f && x[0] != 0x23 && x[0] != 0x09,
        x.last() != 0x20 && x.last() != 0x0d,
        forall|i: int| 0 <= i < d.len() ==> d[i] != 0x0a && d[i] != 0x5c,
        d.len() == 0 || (d.last() != 0x20 && d.last() != 0x0d),
    ensures
        spec_info_comments(
            ((if anchored { seq![0x2fu8] + x } else { x }).push(0x0a) + (seq![0x09u8] + d)).push(0x0a),
        ) == seq![CommentSpec { patterns: seq![x], desc: seq![d] }],
{
    let line = if anchored { seq![0x2fu8] + x } else { x };
    let tabd = seq![0x09u8] + d;
    assert forall|i: int| 0 <= i < line.len() implies line[i] != 0x0a && line[i] != 0x5c by {
        if anchored && i > 0 {
            assert(line[i] == x[i - 1]);
        }
    }
    assert forall|i: int| 0 <= i < tabd.len() implies tabd[i] != 0x0a && tabd[i] != 0x5c by {
        if i > 0 {
            assert(tabd[i] == d[i - 1]);
        }
    }
    assert(line.last() == x.last());
    assert(tabd.last() == (if d.len() == 0 { 0x09u8 } else { d.last() }));
    lemma_split_on_single(line, 0x0a);
    lemma_split_on_extend(line, 0x0a, tabd);
    let body = line.push(0x0a) + tabd;
    let content = body.push(0x0a);
    assert(content.drop_last() =~= body);
    assert(split_lines(content) =~= seq![line, tabd, Seq::<u8>::empty()]);
    let lines = seq![line, tabd, Seq::<u8>::empty()];
    assert(lines.drop_last() =~= seq![line, tabd]);
    assert(seq![line, tabd].drop_last() =~= seq![line]);
    assert(seq![line].drop_last() =~= Seq::<Seq<u8>>::empty());
    lemma_gittrim_plain(line);
    lemma_gittrim_plain(tabd);
    let e = Seq::<u8>::empty();
    assert(e.take(0) =~= e);
    assert(spec_gittrim(e) =~= e);
    assert(line[0] == (if anchored { 0x2fu8 } else { x[0] }));
    let pat = if line[0] == 0x2f { line.skip(1) } else { line };
    assert(pat =~= x);
    assert(tabd.skip(1) =~= d);
    let s0 = info_fold(Seq::<Seq<u8>>::empty());
    let s1 = info_fold(seq![line]);
    assert(s1 == info_step(s0, line));
    assert(s1.patterns =~= seq![x] && s1.desc.len() == 0 && s1.comments.len() == 0);
    let s2 = info_fold(seq![line, tabd]);
    assert(s2 == info_step(s1, tabd));
    assert(s2.patterns =~= seq![x] && s2.desc =~= seq![d] && s2.comments.len() == 0);
    let s3 = info_fold(lines);
    assert(s3 == info_step(s2, e));
    assert(s3 == s2);
    assert(spec_info_comments(content) =~= seq![CommentSpec { patterns: seq![x], desc: seq![d] }]);
}

} // verus!
