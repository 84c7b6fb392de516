//! -X: the XML backend (tree's xml.c). Each piece appends its bytes to
//! an output buffer.
use vstd::prelude::*;
use std::collections::HashMap;
use crate::bytes::{copy_bytes, join_path, lit, push_all, spec_join_path};
use crate::decimal::{digits, fmt_i64, fmt_u64, signed_digits};
use crate::options::Options;
use crate::output::Totals;
use crate::output::linedraw::{LocaleEnv, charset_name, spec_charset_name};
use crate::output::meta::{Ids, IdsView, date_claim, do_date, name_of, spec_prot, prot, shown_if};
use crate::options::opt_bytes;
use crate::text::text;
use crate::walk::{Meta, Node, Root, RootKind};

verus! {

broadcast use vstd::std_specs::hash::group_hash_axioms;

/// The element name for an entry's type.
pub open spec fn spec_tag(mode: u32) -> &'static str {
    let t = mode & 0o170000u32;
    if t == 0o100000 {
        "file"
    } else if t == 0o040000 {
        "directory"
    } else if t == 0o120000 {
        "link"
    } else if t == 0o020000 {
        "char"
    } else if t == 0o060000 {
        "block"
    } else if t == 0o140000 {
        "socket"
    } else if t == 0o010000 {
        "fifo"
    } else {
        "unknown"
    }
}

fn tag_of(mode: u32) -> (r: &'static str)
    ensures
        r == spec_tag(mode),
{
    let t = mode & 0o170000u32;
    if t == 0o100000 {
        "file"
    } else if t == 0o040000 {
        "directory"
    } else if t == 0o120000 {
        "link"
    } else if t == 0o020000 {
        "char"
    } else if t == 0o060000 {
        "block"
    } else if t == 0o140000 {
        "socket"
    } else if t == 0o010000 {
        "fifo"
    } else {
        "unknown"
    }
}

/// How html_encode writes one byte: `<`, `>`, `&` and `"` as entities,
/// anything else as it is.
pub open spec fn encode_byte(c: u8) -> Seq<u8> {
    if c == 0x3c {
        lit("&lt;")
    } else if c == 0x3e {
        lit("&gt;")
    } else if c == 0x26 {
        lit("&amp;")
    } else if c == 0x22 {
        lit("&quot;")
    } else {
        seq![c]
    }
}

/// html_encode of a byte string.
pub open spec fn spec_html_encode(s: Seq<u8>) -> Seq<u8>
    decreases s.len(),
{
    if s.len() == 0 {
        Seq::empty()
    } else {
        spec_html_encode(s.drop_last()) + encode_byte(s.last())
    }
}

/// html_encode(), which xml.c reuses for attribute values: append `s`
/// with `<`, `>`, `&` and `"` written as entities.
pub fn html_encode(out: &mut Vec<u8>, s: &[u8])
    ensures
        final(out)@ == old(out)@ + spec_html_encode(s@),
{
    let ghost start = out@;
    let mut i: usize = 0;
    while i < s.len()
        invariant
            i <= s@.len(),
            out@ == start + spec_html_encode(s@.take(i as int)),
        decreases s@.len() - i,
    {
        let c = s[i];
        if c == 0x3c {
            push_all(out, "&lt;".as_bytes());
        } else if c == 0x3e {
            push_all(out, "&gt;".as_bytes());
        } else if c == 0x26 {
            push_all(out, "&amp;".as_bytes());
        } else if c == 0x22 {
            push_all(out, "&quot;".as_bytes());
        } else {
            out.push(c);
        }
        assert(s@.take(i + 1).drop_last() =~= s@.take(i as int));
        i = i + 1;
        assert(out@ =~= start + spec_html_encode(s@.take(i as int)));
    }
    assert(s@.take(i as int) =~= s@);
}

/// A newline, or nothing with -i.
pub open spec fn nl(o: Options) -> Seq<u8> {
    if o.noindent { Seq::empty() } else { seq![0x0au8] }
}

/// `n` runs of four spaces.
pub open spec fn spaces(n: nat) -> Seq<u8>
    decreases n,
{
    if n == 0 { Seq::empty() } else { spaces((n - 1) as nat) + seq![0x20u8, 0x20, 0x20, 0x20] }
}

/// The indentation of a tag at `level`: level + 1 runs of four spaces,
/// nothing with -i or a negative level.
pub open spec fn indent(level: int, o: Options) -> Seq<u8> {
    if o.noindent || level < 0 { Seq::empty() } else { spaces((level + 1) as nat) }
}

/// The four octal digits of a permission mode.
pub open spec fn octal4(v: u32) -> Seq<u8> {
    seq![
        (0x30 + v / 512 % 8) as u8,
        (0x30 + v / 64 % 8) as u8,
        (0x30 + v / 8 % 8) as u8,
        (0x30 + v % 8) as u8,
    ]
}

/// The time an entry shows: its ctime with -c, else its mtime.
pub open spec fn node_time(m: Meta, o: Options) -> i64 {
    if o.use_ctime { m.ctime } else { m.mtime }
}

/// An attribute `name="value"` with its leading space.
pub open spec fn attr(name: &'static str, value: Seq<u8>) -> Seq<u8> {
    seq![0x20u8] + lit(name) + seq![0x3du8, 0x22] + value + seq![0x22u8]
}

/// xml.c's fillinfo(): the metadata attributes the flags ask for; `date`
/// is the text of the entry's time.
pub open spec fn fill_attrs(m: Meta, o: Options, ids: IdsView, date: Seq<u8>) -> Seq<u8> {
    shown_if(o.show_inode, attr("inode", digits(m.fino as nat)))
        + shown_if(o.show_device, attr("dev", signed_digits((m.fdev as i32) as int)))
        + shown_if(o.show_perms, attr("mode", octal4(m.mode & 0o7777u32)) + attr("prot", spec_prot(m.mode)))
        + shown_if(o.show_uid, attr("user", name_of(ids.users, m.uid)))
        + shown_if(o.show_gid, attr("group", name_of(ids.groups, m.gid)))
        + shown_if(o.show_size, attr("size", signed_digits(m.size as int)))
        + shown_if(o.show_date, attr("time", date))
}

/// The date text a table gives for an entry (nothing without -D).
pub open spec fn date_of(d: Map<i64, Seq<u8>>, m: Meta, o: Options) -> Seq<u8> {
    if o.show_date { d[node_time(m, o)] } else { Seq::empty() }
}

/// --info comment lines, html-encoded and joined by newlines.
pub open spec fn info_lines(c: Seq<Seq<u8>>, o: Options) -> Seq<u8>
    decreases c.len(),
{
    if c.len() == 0 {
        Seq::empty()
    } else if c.len() == 1 {
        spec_html_encode(c[0])
    } else {
        info_lines(c.drop_last(), o) + nl(o) + spec_html_encode(c.last())
    }
}

/// The byte strings of an optional list.
pub open spec fn opt_lines(c: Option<Vec<Vec<u8>>>) -> Option<Seq<Seq<u8>>> {
    match c {
        Some(v) => Some(v@.map_values(|l: Vec<u8>| l@)),
        None => None,
    }
}

/// An opening tag: indentation, `<tag name="...">` with the comment, the
/// link target and the metadata attributes that apply.
pub open spec fn open_tag(
    tag: &'static str,
    name: Seq<u8>,
    comment: Option<Seq<Seq<u8>>>,
    link: Option<Seq<u8>>,
    meta: Option<Meta>,
    level: int,
    o: Options,
    ids: IdsView,
    date: Seq<u8>,
) -> Seq<u8> {
    indent(level, o) + seq![0x3cu8] + lit(tag) + attr("name", spec_html_encode(name))
        + (match comment {
            Some(c) => attr("info", info_lines(c, o)),
            None => Seq::empty(),
        })
        + (match link {
            Some(t) => attr("target", spec_html_encode(t)),
            None => Seq::empty(),
        })
        + (match meta {
            Some(m) => fill_attrs(m, o, ids, date),
            None => Seq::empty(),
        })
        + seq![0x3eu8]
}

/// A closing tag and a newline.
pub open spec fn close_tag(tag: &'static str, level: int, o: Options) -> Seq<u8> {
    indent(level, o) + seq![0x3cu8, 0x2f] + lit(tag) + seq![0x3eu8] + nl(o)
}

/// The error element of an entry, if it has an error.
pub open spec fn error_element(err: Option<String>) -> Seq<u8> {
    match err {
        Some(e) => lit("<error>") + vstd::utf8::encode_utf8(e@) + lit("</error>"),
        None => Seq::empty(),
    }
}

/// A leaf whose error says it is a recursive link that was not followed
/// keeps its indentation on the closing tag (unless the whole tree is
/// kept for --prune, --matchdirs or --du).
pub open spec fn recursive_leaf(err: Option<String>, o: Options) -> bool {
    &&& err matches Some(e) && e@ == "recursive, not followed"@
    &&& !(o.prune || o.matchdirs || o.du)
}

/// The XML of an entry at `level` under directory path `parent`.
pub open spec fn xml_node(n: Node, parent: Seq<u8>, level: int, o: Options, ids: IdsView, d: Map<i64, Seq<u8>>) -> Seq<u8>
    decreases n, 0int,
{
    let tag = spec_tag(n.meta.mode);
    let display = if o.full_path { spec_join_path(parent, n.name@) } else { n.name@ };
    let open = open_tag(tag, display, opt_lines(n.comment), opt_bytes(n.link), Some(n.meta), level, o, ids, date_of(d, n.meta, o));
    match n.children {
        Some(ch) => open + error_element(n.err) + nl(o)
            + xml_children(ch@, spec_join_path(parent, n.name@), level + 1, o, ids, d)
            + close_tag(tag, level, o),
        None => open + error_element(n.err) + close_tag(tag, if recursive_leaf(n.err, o) { level } else { -1 }, o),
    }
}

/// The XML of a run of entries, in order.
pub open spec fn xml_children(ch: Seq<Node>, parent: Seq<u8>, level: int, o: Options, ids: IdsView, d: Map<i64, Seq<u8>>) -> Seq<u8>
    decreases ch, 1int,
{
    if ch.len() == 0 {
        Seq::empty()
    } else {
        xml_children(ch.drop_last(), parent, level, o, ids, d) + xml_node(ch.last(), parent, level, o, ids, d)
    }
}

/// The tree under `n` is less than `limit` levels deep.
pub open spec fn depth_below(n: Node, limit: int) -> bool
    decreases n,
{
    &&& limit > 0
    &&& match n.children {
        Some(ch) => forall|i: int| 0 <= i < ch@.len() ==> depth_below(#[trigger] ch@[i], limit - 1),
        None => true,
    }
}

/// The table has a date for every entry of the tree under `n`.
pub open spec fn dates_cover(n: Node, o: Options, d: Map<i64, Seq<u8>>) -> bool
    decreases n,
{
    &&& d.contains_key(node_time(n.meta, o))
    &&& match n.children {
        Some(ch) => forall|i: int| 0 <= i < ch@.len() ==> dates_cover(#[trigger] ch@[i], o, d),
        None => true,
    }
}

/// Every date in the table is what do_date may give for its time.
pub open spec fn dates_valid(d: Map<i64, Seq<u8>>, o: Options, now: i64) -> bool {
    forall|t: i64| #[trigger] d.contains_key(t) ==> date_claim(d[t], t, opt_bytes(o.timefmt), now)
}

/// The dates held in a table.
pub open spec fn dates_view(h: HashMap<i64, Vec<u8>>) -> Map<i64, Seq<u8>> {
    h@.map_values(|v: Vec<u8>| v@)
}

proof fn lemma_cover_grows(n: Node, o: Options, d1: Map<i64, Seq<u8>>, d2: Map<i64, Seq<u8>>)
    requires
        dates_cover(n, o, d1),
        forall|t: i64| d1.contains_key(t) ==> #[trigger] d2.contains_key(t),
    ensures
        dates_cover(n, o, d2),
    decreases n,
{
    if let Some(ch) = n.children {
        assert forall|i: int| 0 <= i < ch@.len() implies dates_cover(#[trigger] ch@[i], o, d2) by {
            lemma_cover_grows(ch@[i], o, d1, d2);
        }
    }
}

/// Add the date of every entry under `n` that the table lacks.
fn collect_dates(n: &Node, opts: &Options, now: i64, table: &mut HashMap<i64, Vec<u8>>)
    requires
        dates_valid(dates_view(*old(table)), *opts, now),
    ensures
        dates_valid(dates_view(*final(table)), *opts, now),
        dates_cover(*n, *opts, dates_view(*final(table))),
        forall|t: i64| dates_view(*old(table)).contains_key(t) ==> #[trigger] dates_view(*final(table)).contains_key(t),
    decreases n,
{
    let t = if opts.use_ctime { n.meta.ctime } else { n.meta.mtime };
    if !table.contains_key(&t) {
        let text = do_date(t, opts, now);
        let ghost before = dates_view(*table);
        let ghost tv = text@;
        table.insert(t, text);
        assert(dates_view(*table) =~= before.insert(t, tv));
    }
    let ghost first = dates_view(*table);
    if let Some(children) = &n.children {
        let mut i: usize = 0;
        while i < children.len()
            invariant
                i <= children@.len(),
                n.children == Some(*children),
                dates_valid(dates_view(*table), *opts, now),
                first.contains_key(node_time(n.meta, *opts)),
                forall|u: i64| dates_view(*old(table)).contains_key(u) ==> #[trigger] dates_view(*table).contains_key(u),
                forall|u: i64| first.contains_key(u) ==> #[trigger] dates_view(*table).contains_key(u),
                forall|k: int| 0 <= k < i ==> dates_cover(#[trigger] children@[k], *opts, dates_view(*table)),
            decreases children@.len() - i,
        {
            let ghost mid = dates_view(*table);
            proof {
                let c = n.children;
                let v = c->0;
                assert(decreases_to!(*n => c));
                assert(decreases_to!(c => v));
                assert(decreases_to!(v => v@));
                assert(decreases_to!(v@ => v@[i as int]));
                assert(decreases_to!(*n => children@[i as int]));
            }
            collect_dates(&children[i], opts, now, table);
            proof {
                assert forall|k: int| 0 <= k < i + 1 implies dates_cover(#[trigger] children@[k], *opts, dates_view(*table)) by {
                    if k < i {
                        lemma_cover_grows(children@[k], *opts, mid, dates_view(*table));
                    }
                }
            }
            i = i + 1;
        }
    }
}

fn push_str(out: &mut Vec<u8>, s: &str)
    ensures
        final(out)@ == old(out)@ + lit(s),
{
    push_all(out, s.as_bytes());
}

fn push_nl(out: &mut Vec<u8>, opts: &Options)
    ensures
        final(out)@ == old(out)@ + nl(*opts),
{
    if !opts.noindent {
        out.push(0x0a);
    } else {
        assert(old(out)@ + nl(*opts) =~= old(out)@);
    }
}

fn push_indent(out: &mut Vec<u8>, level: i32, opts: &Options)
    ensures
        final(out)@ == old(out)@ + indent(level as int, *opts),
{
    if opts.noindent || level < 0 {
        assert(old(out)@ + indent(level as int, *opts) =~= old(out)@);
        return;
    }
    let ghost start = out@;
    let n: u32 = (level as u32) + 1;
    let mut k: u32 = 0;
    assert(start + spaces(0) =~= start);
    while k < n
        invariant
            k <= n,
            out@ == start + spaces(k as nat),
        decreases n - k,
    {
        out.push(0x20);
        out.push(0x20);
        out.push(0x20);
        out.push(0x20);
        k = k + 1;
        assert(out@ =~= start + spaces(k as nat));
    }
}

/// Append ` name="`.
fn push_attr_start(out: &mut Vec<u8>, name: &str)
    ensures
        final(out)@ == old(out)@ + seq![0x20u8] + lit(name) + seq![0x3du8, 0x22],
{
    out.push(0x20);
    push_str(out, name);
    out.push(0x3d);
    out.push(0x22);
}

fn push_attr(out: &mut Vec<u8>, name: &str, value: &[u8])
    ensures
        final(out)@ == old(out)@ + attr(name, value@),
{
    let ghost start = out@;
    push_attr_start(out, name);
    push_all(out, value);
    out.push(0x22);
    assert(out@ =~= start + attr(name, value@));
}

fn push_attr_when(out: &mut Vec<u8>, on: bool, name: &str, value: &[u8])
    ensures
        final(out)@ == old(out)@ + shown_if(on, attr(name, value@)),
{
    if on {
        push_attr(out, name, value);
    } else {
        assert(old(out)@ + shown_if(on, attr(name, value@)) =~= old(out)@);
    }
}

fn octal_mode(mode: u32) -> (r: Vec<u8>)
    ensures
        r@ == octal4(mode & 0o7777u32),
{
    let v: u32 = mode & 0o7777u32;
    let r: Vec<u8> = vec![
        (0x30 + v / 512 % 8) as u8,
        (0x30 + v / 64 % 8) as u8,
        (0x30 + v / 8 % 8) as u8,
        (0x30 + v % 8) as u8,
    ];
    assert(r@ =~= octal4(v));
    r
}

/// Appending `p` after `s + x` is appending `x + p` after `s`.
proof fn lemma_append(s: Seq<u8>, x: Seq<u8>, p: Seq<u8>)
    ensures
        s + x + p == s + (x + p),
{
    assert(s + x + p =~= s + (x + p));
}

/// xml.c's fillinfo(): append the metadata attributes the flags ask for,
/// with `date` as the time.
fn fill(out: &mut Vec<u8>, m: &Meta, opts: &Options, ids: &Ids, date: &[u8])
    ensures
        final(out)@ == old(out)@ + fill_attrs(*m, *opts, ids@, date@),
{
    let ghost start = out@;
    let ino = if opts.show_inode { fmt_u64(m.fino) } else { Vec::new() };
    push_attr_when(out, opts.show_inode, "inode", ino.as_slice());
    let ghost a1 = shown_if(opts.show_inode, attr("inode", digits(m.fino as nat)));
    assert(out@ == start + a1);
    let dev = if opts.show_device {
        let d: i32 = m.fdev as i32;
        fmt_i64(d as i64)
    } else {
        Vec::new()
    };
    push_attr_when(out, opts.show_device, "dev", dev.as_slice());
    let ghost p2 = shown_if(opts.show_device, attr("dev", signed_digits((m.fdev as i32) as int)));
    proof { lemma_append(start, a1, p2); }
    let ghost a2 = a1 + p2;
    let ghost before3 = out@;
    if opts.show_perms {
        let oct = octal_mode(m.mode);
        push_attr(out, "mode", oct.as_slice());
        let pr = prot(m.mode);
        push_attr(out, "prot", &pr);
    }
    let ghost p3 = shown_if(opts.show_perms, attr("mode", octal4(m.mode & 0o7777u32)) + attr("prot", spec_prot(m.mode)));
    assert(out@ =~= before3 + p3);
    proof { lemma_append(start, a2, p3); }
    let ghost a3 = a2 + p3;
    let user = if opts.show_uid { ids.user(m.uid) } else { Vec::new() };
    push_attr_when(out, opts.show_uid, "user", user.as_slice());
    let ghost p4 = shown_if(opts.show_uid, attr("user", name_of(ids@.users, m.uid)));
    proof { lemma_append(start, a3, p4); }
    let ghost a4 = a3 + p4;
    let group = if opts.show_gid { ids.group(m.gid) } else { Vec::new() };
    push_attr_when(out, opts.show_gid, "group", group.as_slice());
    let ghost p5 = shown_if(opts.show_gid, attr("group", name_of(ids@.groups, m.gid)));
    proof { lemma_append(start, a4, p5); }
    let ghost a5 = a4 + p5;
    let size = if opts.show_size { fmt_i64(m.size) } else { Vec::new() };
    push_attr_when(out, opts.show_size, "size", size.as_slice());
    let ghost p6 = shown_if(opts.show_size, attr("size", signed_digits(m.size as int)));
    proof { lemma_append(start, a5, p6); }
    let ghost a6 = a5 + p6;
    push_attr_when(out, opts.show_date, "time", date);
    let ghost p7 = shown_if(opts.show_date, attr("time", date@));
    proof { lemma_append(start, a6, p7); }
    assert(a6 + p7 == fill_attrs(*m, *opts, ids@, date@));
}

fn push_info(out: &mut Vec<u8>, c: &Vec<Vec<u8>>, opts: &Options)
    ensures
        final(out)@ == old(out)@ + info_lines(c@.map_values(|l: Vec<u8>| l@), *opts),
{
    let ghost start = out@;
    let ghost lines = c@.map_values(|l: Vec<u8>| l@);
    let mut i: usize = 0;
    assert(lines.take(0) =~= Seq::<Seq<u8>>::empty());
    while i < c.len()
        invariant
            i <= c@.len(),
            lines == c@.map_values(|l: Vec<u8>| l@),
            out@ == start + info_lines(lines.take(i as int), *opts),
        decreases c@.len() - i,
    {
        let ghost before = out@;
        if i > 0 {
            push_nl(out, opts);
        }
        html_encode(out, c[i].as_slice());
        assert(lines.take(i + 1).drop_last() =~= lines.take(i as int));
        assert(lines.take(i + 1).last() == c@[i as int]@);
        if i == 0 {
            assert(lines.take(1)[0] == c@[0]@);
        }
        i = i + 1;
        assert(out@ =~= start + info_lines(lines.take(i as int), *opts));
    }
    assert(lines.take(i as int) =~= lines);
}

fn push_encoded_attr(out: &mut Vec<u8>, name: &str, value: &[u8])
    ensures
        final(out)@ == old(out)@ + attr(name, spec_html_encode(value@)),
{
    let ghost start = out@;
    push_attr_start(out, name);
    html_encode(out, value);
    out.push(0x22);
    assert(out@ =~= start + attr(name, spec_html_encode(value@)));
}

/// The comment lines of an entry as plain values.
pub open spec fn comment_view(comment: Option<&Vec<Vec<u8>>>) -> Option<Seq<Seq<u8>>> {
    match comment {
        Some(c) => Some(c@.map_values(|l: Vec<u8>| l@)),
        None => None,
    }
}

/// The info attribute of an entry, if it has a comment.
pub open spec fn info_attr(comment: Option<Seq<Seq<u8>>>, o: Options) -> Seq<u8> {
    match comment {
        Some(c) => attr("info", info_lines(c, o)),
        None => Seq::empty(),
    }
}

/// The target attribute of a link.
pub open spec fn target_attr(link: Option<Seq<u8>>) -> Seq<u8> {
    match link {
        Some(t) => attr("target", spec_html_encode(t)),
        None => Seq::empty(),
    }
}

/// The metadata attributes, when there is metadata.
pub open spec fn meta_attrs(meta: Option<Meta>, o: Options, ids: IdsView, date: Seq<u8>) -> Seq<u8> {
    match meta {
        Some(m) => fill_attrs(m, o, ids, date),
        None => Seq::empty(),
    }
}

proof fn lemma_open_tag_parts(
    tag: &'static str,
    name: Seq<u8>,
    comment: Option<Seq<Seq<u8>>>,
    link: Option<Seq<u8>>,
    meta: Option<Meta>,
    level: int,
    o: Options,
    ids: IdsView,
    date: Seq<u8>,
)
    ensures
        open_tag(tag, name, comment, link, meta, level, o, ids, date) == indent(level, o) + seq![0x3cu8] + lit(tag)
            + attr("name", spec_html_encode(name)) + info_attr(comment, o) + target_attr(link) + meta_attrs(
            meta,
            o,
            ids,
            date,
        ) + seq![0x3eu8],
{
}

fn push_comment(out: &mut Vec<u8>, comment: Option<&Vec<Vec<u8>>>, opts: &Options)
    ensures
        final(out)@ == old(out)@ + info_attr(comment_view(comment), *opts),
{
    let ghost start = out@;
    match comment {
        Some(c) => {
            push_attr_start(out, "info");
            push_info(out, c, opts);
            out.push(0x22);
            assert(out@ =~= start + info_attr(comment_view(comment), *opts));
        },
        None => {
            assert(out@ =~= start + info_attr(comment_view(comment), *opts));
        },
    }
}

fn push_link(out: &mut Vec<u8>, link: Option<&Vec<u8>>)
    ensures
        final(out)@ == old(out)@ + target_attr(match link { Some(t) => Some(t@), None => None }),
{
    let ghost start = out@;
    match link {
        Some(t) => {
            push_encoded_attr(out, "target", t.as_slice());
        },
        None => {
            assert(out@ =~= start + target_attr(None));
        },
    }
}

fn push_meta(out: &mut Vec<u8>, meta: Option<&Meta>, opts: &Options, ids: &Ids, date: &[u8])
    ensures
        final(out)@ == old(out)@ + meta_attrs(match meta { Some(m) => Some(*m), None => None }, *opts, ids@, date@),
{
    let ghost start = out@;
    match meta {
        Some(m) => {
            fill(out, m, opts, ids, date);
        },
        None => {
            assert(out@ =~= start + meta_attrs(None, *opts, ids@, date@));
        },
    }
}

fn push_open(
    out: &mut Vec<u8>,
    tag: &'static str,
    name: &[u8],
    comment: Option<&Vec<Vec<u8>>>,
    link: Option<&Vec<u8>>,
    meta: Option<&Meta>,
    level: i32,
    opts: &Options,
    ids: &Ids,
    date: &[u8],
)
    ensures
        final(out)@ == old(out)@ + open_tag(
            tag,
            name@,
            comment_view(comment),
            match link { Some(t) => Some(t@), None => None },
            match meta { Some(m) => Some(*m), None => None },
            level as int,
            *opts,
            ids@,
            date@,
        ),
{
    let ghost start = out@;
    let ghost lv = match link { Some(t) => Some(t@), None => None };
    let ghost mv = match meta { Some(m) => Some(*m), None => None };
    push_indent(out, level, opts);
    let ghost a1 = indent(level as int, *opts);
    out.push(0x3c);
    proof { lemma_append(start, a1, seq![0x3cu8]); }
    let ghost a2 = a1 + seq![0x3cu8];
    push_str(out, tag);
    proof { lemma_append(start, a2, lit(tag)); }
    let ghost a3 = a2 + lit(tag);
    push_encoded_attr(out, "name", name);
    proof { lemma_append(start, a3, attr("name", spec_html_encode(name@))); }
    let ghost a4 = a3 + attr("name", spec_html_encode(name@));
    push_comment(out, comment, opts);
    proof { lemma_append(start, a4, info_attr(comment_view(comment), *opts)); }
    let ghost a5 = a4 + info_attr(comment_view(comment), *opts);
    push_link(out, link);
    proof { lemma_append(start, a5, target_attr(lv)); }
    let ghost a6 = a5 + target_attr(lv);
    push_meta(out, meta, opts, ids, date);
    proof { lemma_append(start, a6, meta_attrs(mv, *opts, ids@, date@)); }
    let ghost a7 = a6 + meta_attrs(mv, *opts, ids@, date@);
    out.push(0x3e);
    proof {
        lemma_append(start, a7, seq![0x3eu8]);
        lemma_open_tag_parts(tag, name@, comment_view(comment), lv, mv, level as int, *opts, ids@, date@);
    }
}

fn push_close(out: &mut Vec<u8>, tag: &'static str, level: i32, opts: &Options)
    ensures
        final(out)@ == old(out)@ + close_tag(tag, level as int, *opts),
{
    let ghost start = out@;
    push_indent(out, level, opts);
    out.push(0x3c);
    out.push(0x2f);
    push_str(out, tag);
    out.push(0x3e);
    push_nl(out, opts);
    assert(out@ =~= start + close_tag(tag, level as int, *opts));
}

fn push_error(out: &mut Vec<u8>, err: &Option<String>)
    ensures
        final(out)@ == old(out)@ + error_element(*err),
{
    let ghost start = out@;
    match err {
        Some(e) => {
            push_str(out, "<error>");
            push_all(out, e.as_str().as_bytes());
            push_str(out, "</error>");
            assert(out@ =~= start + error_element(*err));
        },
        None => {
            assert(out@ =~= start + error_element(*err));
        },
    }
}

fn is_recursive_leaf(err: &Option<String>, opts: &Options) -> (r: bool)
    ensures
        r == recursive_leaf(*err, *opts),
{
    let marked = match err {
        Some(e) => {
            let note = text("recursive, not followed");
            e.eq(&note)
        },
        None => false,
    };
    marked && !(opts.prune || opts.matchdirs || opts.du)
}

fn date_for(m: &Meta, opts: &Options, dates: &HashMap<i64, Vec<u8>>) -> (r: Vec<u8>)
    requires
        opts.show_date ==> dates_view(*dates).contains_key(node_time(*m, *opts)),
    ensures
        r@ == date_of(dates_view(*dates), *m, *opts),
{
    if !opts.show_date {
        return Vec::new();
    }
    let t = if opts.use_ctime { m.ctime } else { m.mtime };
    match dates.get(&t) {
        Some(v) => copy_bytes(v.as_slice()),
        None => Vec::new(),
    }
}

/// The opening tag and error element of an entry.
pub open spec fn node_head(n: Node, parent: Seq<u8>, level: int, o: Options, ids: IdsView, d: Map<i64, Seq<u8>>) -> Seq<u8> {
    let tag = spec_tag(n.meta.mode);
    let display = if o.full_path { spec_join_path(parent, n.name@) } else { n.name@ };
    open_tag(tag, display, opt_lines(n.comment), opt_bytes(n.link), Some(n.meta), level, o, ids, date_of(d, n.meta, o))
        + error_element(n.err)
}

proof fn lemma_xml_node_parts(n: Node, parent: Seq<u8>, level: int, o: Options, ids: IdsView, d: Map<i64, Seq<u8>>)
    ensures
        xml_node(n, parent, level, o, ids, d) == (match n.children {
            Some(ch) => node_head(n, parent, level, o, ids, d) + nl(o)
                + xml_children(ch@, spec_join_path(parent, n.name@), level + 1, o, ids, d)
                + close_tag(spec_tag(n.meta.mode), level, o),
            None => node_head(n, parent, level, o, ids, d)
                + close_tag(spec_tag(n.meta.mode), if recursive_leaf(n.err, o) { level } else { -1 }, o),
        }),
{
}

fn emit_head(
    out: &mut Vec<u8>,
    node: &Node,
    parent: &[u8],
    level: i32,
    opts: &Options,
    ids: &Ids,
    dates: &HashMap<i64, Vec<u8>>,
)
    requires
        opts.show_date ==> dates_view(*dates).contains_key(node_time(node.meta, *opts)),
    ensures
        final(out)@ == old(out)@ + node_head(*node, parent@, level as int, *opts, ids@, dates_view(*dates)),
{
    let ghost start = out@;
    let tag = tag_of(node.meta.mode);
    let full = join_path(parent, node.name.as_slice());
    let display: &[u8] = if opts.full_path { full.as_slice() } else { node.name.as_slice() };
    let date = date_for(&node.meta, opts, dates);
    let cref = node.comment.as_ref();
    let lref = node.link.as_ref();
    proof {
        assert(comment_view(cref) == opt_lines(node.comment));
        assert((match lref { Some(t) => Some(t@), None => None }) == opt_bytes(node.link));
    }
    push_open(out, tag, display, cref, lref, Some(&node.meta), level, opts, ids, date.as_slice());
    push_error(out, &node.err);
    proof {
        let open = open_tag(tag, display@, opt_lines(node.comment), opt_bytes(node.link), Some(node.meta), level as int, *opts, ids@, date@);
        lemma_append(start, open, error_element(node.err));
    }
}

/// Append the XML of entry `node` at `level` under directory `parent`.
fn emit_node(
    out: &mut Vec<u8>,
    node: &Node,
    parent: &[u8],
    level: i32,
    opts: &Options,
    ids: &Ids,
    dates: &HashMap<i64, Vec<u8>>,
)
    requires
        0 <= level,
        depth_below(*node, i32::MAX - level),
        opts.show_date ==> dates_cover(*node, *opts, dates_view(*dates)),
    ensures
        final(out)@ == old(out)@ + xml_node(*node, parent@, level as int, *opts, ids@, dates_view(*dates)),
    decreases node, 0int,
{
    let ghost start = out@;
    let ghost d = dates_view(*dates);
    let tag = tag_of(node.meta.mode);
    emit_head(out, node, parent, level, opts, ids, dates);
    let ghost head = node_head(*node, parent@, level as int, *opts, ids@, d);
    proof {
        lemma_xml_node_parts(*node, parent@, level as int, *opts, ids@, d);
    }
    match &node.children {
        Some(children) => {
            push_nl(out, opts);
            proof { lemma_append(start, head, nl(*opts)); }
            let full = join_path(parent, node.name.as_slice());
            proof {
                let c = node.children;
                assert(decreases_to!(*node => c));
                assert(decreases_to!(c => c->0));
            }
            emit_children(out, children, full.as_slice(), level + 1, opts, ids, dates);
            let ghost kids = xml_children(children@, full@, level + 1, *opts, ids@, d);
            proof { lemma_append(start, head + nl(*opts), kids); }
            push_close(out, tag, level, opts);
            proof { lemma_append(start, head + nl(*opts) + kids, close_tag(tag, level as int, *opts)); }
        },
        None => {
            let rec = is_recursive_leaf(&node.err, opts);
            let close_level: i32 = if rec { level } else { -1 };
            push_close(out, tag, close_level, opts);
            proof { lemma_append(start, head, close_tag(tag, close_level as int, *opts)); }
        },
    }
}

/// Append the XML of a run of entries at `level` under `parent`.
fn emit_children(
    out: &mut Vec<u8>,
    children: &Vec<Node>,
    parent: &[u8],
    level: i32,
    opts: &Options,
    ids: &Ids,
    dates: &HashMap<i64, Vec<u8>>,
)
    requires
        0 <= level,
        forall|k: int| 0 <= k < children@.len() ==> depth_below(#[trigger] children@[k], i32::MAX - level),
        opts.show_date ==> forall|k: int| 0 <= k < children@.len() ==> dates_cover(#[trigger] children@[k], *opts, dates_view(*dates)),
    ensures
        final(out)@ == old(out)@ + xml_children(children@, parent@, level as int, *opts, ids@, dates_view(*dates)),
    decreases children, 1int,
{
    let ghost start = out@;
    let ghost d = dates_view(*dates);
    let mut i: usize = 0;
    assert(children@.take(0) =~= Seq::<Node>::empty());
    assert(start + xml_children(children@.take(0), parent@, level as int, *opts, ids@, d) =~= start);
    while i < children.len()
        invariant
            i <= children@.len(),
            0 <= level,
            forall|k: int| 0 <= k < children@.len() ==> depth_below(#[trigger] children@[k], i32::MAX - level),
            opts.show_date ==> forall|k: int| 0 <= k < children@.len() ==> dates_cover(#[trigger] children@[k], *opts, d),
            d == dates_view(*dates),
            out@ == start + xml_children(children@.take(i as int), parent@, level as int, *opts, ids@, d),
        decreases children@.len() - i,
    {
        proof {
            assert(decreases_to!(*children => children@));
            assert(decreases_to!(children@ => children@[i as int]));
        }
        let ghost before = xml_children(children@.take(i as int), parent@, level as int, *opts, ids@, d);
        emit_node(out, &children[i], parent, level, opts, ids, dates);
        proof {
            let one = xml_node(children@[i as int], parent@, level as int, *opts, ids@, d);
            lemma_append(start, before, one);
            assert(children@.take(i + 1).drop_last() =~= children@.take(i as int));
            assert(children@.take(i + 1).last() == children@[i as int]);
        }
        i = i + 1;
    }
    assert(children@.take(i as int) =~= children@);
}

/// The dates of the root entry and of every entry under it are in the
/// table.
pub open spec fn root_dates_cover(r: Root, o: Options, d: Map<i64, Seq<u8>>) -> bool {
    &&& (r.meta matches Some(m) ==> d.contains_key(node_time(m, o)))
    &&& (r.kind matches RootKind::Opened(ch) ==> forall|k: int| 0 <= k < ch@.len() ==> dates_cover(#[trigger] ch@[k], o, d))
}

/// The entries under a root are less than i32::MAX - 1 levels deep.
pub open spec fn root_depth_ok(r: Root) -> bool {
    r.kind matches RootKind::Opened(ch) ==> forall|k: int| 0 <= k < ch@.len() ==> depth_below(#[trigger] ch@[k], i32::MAX - 1)
}

/// The element name of a root.
pub open spec fn root_tag(r: Root) -> &'static str {
    match r.meta {
        Some(m) => spec_tag(m.mode),
        None => "unknown",
    }
}

/// What follows a root's opening tag: an error, or its entries; then the
/// closing tag.
pub open spec fn root_rest(r: Root, o: Options, ids: IdsView, d: Map<i64, Seq<u8>>) -> Seq<u8> {
    let tag = root_tag(r);
    match r.kind {
        RootKind::Missing => lit("<error>error opening dir</error>") + nl(o) + close_tag(tag, 0, o),
        RootKind::Unreadable => lit("<error>error opening dir</error>") + nl(o) + close_tag(tag, 0, o),
        RootKind::OverLimit(n) => lit("<error>") + digits(n as nat)
            + lit(" entries exceeds filelimit, not opening dir</error>") + nl(o) + close_tag(tag, 0, o),
        RootKind::Opened(ch) => nl(o) + xml_children(ch@, r.name@, 1, o, ids, d) + close_tag(tag, 0, o),
    }
}

/// The XML of a root: its element, holding an error or its entries.
pub open spec fn xml_root(r: Root, o: Options, ids: IdsView, d: Map<i64, Seq<u8>>) -> Seq<u8> {
    let date = match r.meta {
        Some(m) => date_of(d, m, o),
        None => Seq::empty(),
    };
    open_tag(root_tag(r), r.name@, None, None, r.meta, 0, o, ids, date) + root_rest(r, o, ids, d)
}

/// A line of the report: indentation, the text, a newline.
pub open spec fn report_line(level: int, text: Seq<u8>, o: Options) -> Seq<u8> {
    indent(level, o) + text + nl(o)
}

/// The report element: --du's size, the directory count, and, without
/// -d, the file count.
pub open spec fn xml_report(t: Totals, o: Options) -> Seq<u8> {
    report_line(0, lit("<report>"), o)
        + shown_if(o.du, report_line(1, lit("<size>") + signed_digits(t.size as int) + lit("</size>"), o))
        + report_line(1, lit("<directories>") + digits(t.dirs as nat) + lit("</directories>"), o)
        + shown_if(!o.dirs_only, report_line(1, lit("<files>") + digits(t.files as nat) + lit("</files>"), o))
        + report_line(0, lit("</report>"), o)
}

fn push_report_line(out: &mut Vec<u8>, level: i32, text: &[u8], opts: &Options)
    ensures
        final(out)@ == old(out)@ + report_line(level as int, text@, *opts),
{
    let ghost start = out@;
    push_indent(out, level, opts);
    push_all(out, text);
    push_nl(out, opts);
    assert(out@ =~= start + report_line(level as int, text@, *opts));
}

fn wrapped(open: &str, value: &[u8], close: &str) -> (r: Vec<u8>)
    ensures
        r@ == lit(open) + value@ + lit(close),
{
    let mut r: Vec<u8> = Vec::new();
    push_all(&mut r, open.as_bytes());
    push_all(&mut r, value);
    push_all(&mut r, close.as_bytes());
    assert(r@ =~= lit(open) + value@ + lit(close));
    r
}

fn push_report_line_when(out: &mut Vec<u8>, on: bool, level: i32, text: &[u8], opts: &Options)
    ensures
        final(out)@ == old(out)@ + shown_if(on, report_line(level as int, text@, *opts)),
{
    if on {
        push_report_line(out, level, text, opts);
    } else {
        assert(old(out)@ + shown_if(on, report_line(level as int, text@, *opts)) =~= old(out)@);
    }
}

/// The XML declaration, with the encoding when a charset is known, and
/// the opening of the tree element.
pub open spec fn xml_intro(charset: Option<Seq<u8>>, o: Options) -> Seq<u8> {
    lit("<?xml version=\"1.0\"") + (match charset {
        Some(c) => lit(" encoding=\"") + c + lit("\""),
        None => Seq::empty(),
    }) + lit("?>") + nl(o) + lit("<tree>") + nl(o)
}

/// The closing of the tree element.
pub open spec fn xml_outro(o: Options) -> Seq<u8> {
    lit("</tree>") + nl(o)
}

/// The XML formatter: the uid and gid tables it has loaded, and the time
/// that dates are judged recent against.
pub struct XmlFormatter {
    ids: Ids,
    now: i64,
}

/// The formatter's state as plain values.
pub struct XmlView {
    pub ids: IdsView,
    pub now: i64,
}

impl View for XmlFormatter {
    type V = XmlView;

    closed spec fn view(&self) -> XmlView {
        XmlView { ids: self.ids@, now: self.now }
    }
}

impl XmlFormatter {
    /// A formatter with no tables loaded, judging dates against `now`
    /// (seconds since the epoch).
    pub fn new(now: i64) -> (r: XmlFormatter)
        ensures
            r@.ids.users is None,
            r@.ids.groups is None,
            r@.now == now,
    {
        XmlFormatter { ids: Ids::new(), now }
    }

    /// Whether the user table still has to be loaded for `opts`.
    pub fn needs_users(&self, opts: &Options) -> (r: bool)
        ensures
            r == (opts.show_uid && self@.ids.users is None),
    {
        opts.show_uid && !self.ids.users_loaded()
    }

    /// Whether the group table still has to be loaded for `opts`.
    pub fn needs_groups(&self, opts: &Options) -> (r: bool)
        ensures
            r == (opts.show_gid && self@.ids.groups is None),
    {
        opts.show_gid && !self.ids.groups_loaded()
    }

    /// Load the user table from the contents of /etc/passwd, unless one is
    /// loaded already.
    pub fn load_users(&mut self, content: Option<&[u8]>)
        ensures
            final(self)@.ids.users == crate::output::meta::kept_or_loaded(
                old(self)@.ids.users,
                match content { Some(c) => Some(c@), None => None },
            ),
            final(self)@.ids.groups == old(self)@.ids.groups,
            final(self)@.now == old(self)@.now,
    {
        self.ids.load_users(content);
    }

    /// Load the group table from the contents of /etc/group, unless one is
    /// loaded already.
    pub fn load_groups(&mut self, content: Option<&[u8]>)
        ensures
            final(self)@.ids.groups == crate::output::meta::kept_or_loaded(
                old(self)@.ids.groups,
                match content { Some(c) => Some(c@), None => None },
            ),
            final(self)@.ids.users == old(self)@.ids.users,
            final(self)@.now == old(self)@.now,
    {
        self.ids.load_groups(content);
    }

    /// The XML declaration and `<tree>`; the encoding is the charset name
    /// of the options and the environment.
    pub fn intro(&self, out: &mut Vec<u8>, opts: &Options, env: &LocaleEnv)
        ensures
            final(out)@ == old(out)@ + xml_intro(spec_charset_name(opt_bytes(opts.charset), *env), *opts),
    {
        let ghost start = out@;
        push_str(out, "<?xml version=\"1.0\"");
        let charset = charset_name(opts, env);
        let ghost mid = out@;
        match &charset {
            Some(c) => {
                push_str(out, " encoding=\"");
                push_all(out, c.as_slice());
                push_str(out, "\"");
            },
            None => {},
        }
        push_str(out, "?>");
        push_nl(out, opts);
        push_str(out, "<tree>");
        push_nl(out, opts);
        assert(out@ =~= start + xml_intro(spec_charset_name(opt_bytes(opts.charset), *env), *opts));
    }

    /// `</tree>`.
    pub fn outro(&self, out: &mut Vec<u8>, opts: &Options)
        ensures
            final(out)@ == old(out)@ + xml_outro(*opts),
    {
        let ghost start = out@;
        push_str(out, "</tree>");
        push_nl(out, opts);
        assert(out@ =~= start + xml_outro(*opts));
    }

    /// The report element.
    pub fn emit_report(&self, out: &mut Vec<u8>, totals: &Totals, opts: &Options)
        ensures
            final(out)@ == old(out)@ + xml_report(*totals, *opts),
    {
        let ghost start = out@;
        let open = "<report>".as_bytes();
        push_report_line(out, 0, open, opts);
        let ghost a1 = report_line(0, lit("<report>"), *opts);
        let sz = fmt_i64(totals.size);
        let size_text = wrapped("<size>", sz.as_slice(), "</size>");
        push_report_line_when(out, opts.du, 1, size_text.as_slice(), opts);
        let ghost p2 = shown_if(opts.du, report_line(1, size_text@, *opts));
        proof { lemma_append(start, a1, p2); }
        let ghost a2 = a1 + p2;
        let dirs = fmt_u64(totals.dirs);
        let dirs_text = wrapped("<directories>", dirs.as_slice(), "</directories>");
        push_report_line(out, 1, dirs_text.as_slice(), opts);
        let ghost p3 = report_line(1, dirs_text@, *opts);
        proof { lemma_append(start, a2, p3); }
        let ghost a3 = a2 + p3;
        let files = fmt_u64(totals.files);
        let files_text = wrapped("<files>", files.as_slice(), "</files>");
        push_report_line_when(out, !opts.dirs_only, 1, files_text.as_slice(), opts);
        let ghost p4 = shown_if(!opts.dirs_only, report_line(1, files_text@, *opts));
        proof { lemma_append(start, a3, p4); }
        let ghost a4 = a3 + p4;
        let close = "</report>".as_bytes();
        push_report_line(out, 0, close, opts);
        let ghost p5 = report_line(0, lit("</report>"), *opts);
        proof { lemma_append(start, a4, p5); }
    }

    /// The dates of a root and the entries under it.
    fn root_dates(&self, root: &Root, opts: &Options) -> (r: HashMap<i64, Vec<u8>>)
        ensures
            dates_valid(dates_view(r), *opts, self@.now),
            opts.show_date ==> root_dates_cover(*root, *opts, dates_view(r)),
    {
        let mut table: HashMap<i64, Vec<u8>> = HashMap::new();
        assert(dates_view(table) =~= Map::<i64, Seq<u8>>::empty());
        if !opts.show_date {
            return table;
        }
        if let Some(m) = &root.meta {
            let t = if opts.use_ctime { m.ctime } else { m.mtime };
            let text = do_date(t, opts, self.now);
            let ghost before = dates_view(table);
            let ghost tv = text@;
            table.insert(t, text);
            assert(dates_view(table) =~= before.insert(t, tv));
        }
        let ghost first = dates_view(table);
        if let RootKind::Opened(children) = &root.kind {
            let mut i: usize = 0;
            while i < children.len()
                invariant
                    i <= children@.len(),
                    root.kind == RootKind::Opened(*children),
                    dates_valid(dates_view(table), *opts, self@.now),
                    forall|u: i64| first.contains_key(u) ==> #[trigger] dates_view(table).contains_key(u),
                    root.meta matches Some(m) ==> first.contains_key(node_time(m, *opts)),
                    forall|k: int| 0 <= k < i ==> dates_cover(#[trigger] children@[k], *opts, dates_view(table)),
                decreases children@.len() - i,
            {
                let ghost mid = dates_view(table);
                collect_dates(&children[i], opts, self.now, &mut table);
                proof {
                    assert forall|k: int| 0 <= k < i + 1 implies dates_cover(#[trigger] children@[k], *opts, dates_view(table)) by {
                        if k < i {
                            lemma_cover_grows(children@[k], *opts, mid, dates_view(table));
                        }
                    }
                }
                i = i + 1;
            }
        }
        table
    }

    fn emit_root_rest(&self, out: &mut Vec<u8>, root: &Root, opts: &Options, dates: &HashMap<i64, Vec<u8>>)
        requires
            root_depth_ok(*root),
            opts.show_date ==> root_dates_cover(*root, *opts, dates_view(*dates)),
        ensures
            final(out)@ == old(out)@ + root_rest(*root, *opts, self@.ids, dates_view(*dates)),
    {
        let ghost start = out@;
        let ghost d = dates_view(*dates);
        let tag: &'static str = match &root.meta {
            Some(m) => tag_of(m.mode),
            None => "unknown",
        };
        match &root.kind {
            RootKind::Missing | RootKind::Unreadable => {
                push_str(out, "<error>error opening dir</error>");
                push_nl(out, opts);
                push_close(out, tag, 0, opts);
                assert(out@ =~= start + root_rest(*root, *opts, self@.ids, d));
            },
            RootKind::OverLimit(entries) => {
                push_str(out, "<error>");
                let n = fmt_u64(*entries);
                push_all(out, n.as_slice());
                push_str(out, " entries exceeds filelimit, not opening dir</error>");
                push_nl(out, opts);
                push_close(out, tag, 0, opts);
                assert(out@ =~= start + root_rest(*root, *opts, self@.ids, d));
            },
            RootKind::Opened(children) => {
                push_nl(out, opts);
                emit_children(out, children, root.name.as_slice(), 1, opts, &self.ids, dates);
                let ghost kids = xml_children(children@, root.name@, 1, *opts, self@.ids, d);
                push_close(out, tag, 0, opts);
                proof {
                    lemma_append(start, nl(*opts), kids);
                    lemma_append(start, nl(*opts) + kids, close_tag(tag, 0, *opts));
                }
            },
        }
    }

    /// The XML of a root path. The dates come from do_date against the
    /// formatter's `now`: the output is the root's XML with, for each
    /// time shown, a text do_date may give for it.
    pub fn emit_root(&self, out: &mut Vec<u8>, root: &Root, opts: &Options)
        requires
            root_depth_ok(*root),
        ensures
            exists|d: Map<i64, Seq<u8>>|
                #[trigger] dates_valid(d, *opts, self@.now) && final(out)@ == old(out)@ + xml_root(*root, *opts, self@.ids, d),
    {
        let dates = self.root_dates(root, opts);
        let ghost d = dates_view(dates);
        let ghost start = out@;
        let tag: &'static str = match &root.meta {
            Some(m) => tag_of(m.mode),
            None => "unknown",
        };
        let date: Vec<u8> = match &root.meta {
            Some(m) => date_for(m, opts, &dates),
            None => Vec::new(),
        };
        push_open(out, tag, root.name.as_slice(), None, None, root.meta.as_ref(), 0, opts, &self.ids, date.as_slice());
        let ghost open = open_tag(tag, root.name@, None, None, root.meta, 0, *opts, self@.ids, date@);
        self.emit_root_rest(out, root, opts, &dates);
        proof {
            lemma_append(start, open, root_rest(*root, *opts, self@.ids, d));
            assert(dates_valid(d, *opts, self@.now));
        }
    }
}

proof fn lemma_entities()
    ensures
        lit("&lt;") == seq![0x26u8, 0x6c, 0x74, 0x3b],
        lit("&gt;") == seq![0x26u8, 0x67, 0x74, 0x3b],
        lit("&amp;") == seq![0x26u8, 0x61, 0x6d, 0x70, 0x3b],
        lit("&quot;") == seq![0x26u8, 0x71, 0x75, 0x6f, 0x74, 0x3b],
{
    reveal_strlit("&lt;");
    reveal_strlit("&gt;");
    reveal_strlit("&amp;");
    reveal_strlit("&quot;");
    vstd::string::is_ascii_spec_bytes("&lt;");
    vstd::string::is_ascii_spec_bytes("&gt;");
    vstd::string::is_ascii_spec_bytes("&amp;");
    vstd::string::is_ascii_spec_bytes("&quot;");
    assert(lit("&lt;") =~= seq![0x26u8, 0x6c, 0x74, 0x3b]);
    assert(lit("&gt;") =~= seq![0x26u8, 0x67, 0x74, 0x3b]);
    assert(lit("&amp;") =~= seq![0x26u8, 0x61, 0x6d, 0x70, 0x3b]);
    assert(lit("&quot;") =~= seq![0x26u8, 0x71, 0x75, 0x6f, 0x74, 0x3b]);
}

/// Markup is always escaped: html_encode's output holds no `<`, `>` or
/// `"`, whatever the input.
pub proof fn law_html_encode_escapes(s: Seq<u8>)
    ensures
        forall|i: int| 0 <= i < spec_html_encode(s).len() ==> {
            let c = #[trigger] spec_html_encode(s)[i];
            c != 0x3c && c != 0x3e && c != 0x22
        },
    decreases s.len(),
{
    if s.len() > 0 {
        law_html_encode_escapes(s.drop_last());
        lemma_entities();
        let prev = spec_html_encode(s.drop_last());
        let last = encode_byte(s.last());
        assert forall|i: int| 0 <= i < spec_html_encode(s).len() implies {
            let c = #[trigger] spec_html_encode(s)[i];
            c != 0x3c && c != 0x3e && c != 0x22
        } by {
            if i >= prev.len() {
                assert(spec_html_encode(s)[i] == last[i - prev.len()]);
            } else {
                assert(spec_html_encode(s)[i] == prev[i]);
            }
        }
    }
}

/// Text without markup characters is left as it is.
pub proof fn law_html_encode_plain(s: Seq<u8>)
    requires
        forall|i: int| 0 <= i < s.len() ==> {
            let c = #[trigger] s[i];
            c != 0x3c && c != 0x3e && c != 0x26 && c != 0x22
        },
    ensures
        spec_html_encode(s) == s,
    decreases s.len(),
{
    if s.len() > 0 {
        law_html_encode_plain(s.drop_last());
        assert(s.drop_last().push(s.last()) =~= s);
        assert(spec_html_encode(s) =~= s.drop_last() + seq![s.last()]);
    }
}

/// The mode attribute is the permission bits in octal: four digits `0` to
/// `7` that, read as a base-8 number, give `v mod 0o10000`.
pub proof fn law_octal4_reads_back(v: u32)
    ensures
        forall|i: int| 0 <= i < 4 ==> 0x30 <= #[trigger] octal4(v)[i] <= 0x37,
        (octal4(v)[0] - 0x30) * 512 + (octal4(v)[1] - 0x30) * 64 + (octal4(v)[2] - 0x30) * 8 + (octal4(v)[3] - 0x30)
            == v % 4096,
{
    assert(v % 4096 == (v / 512 % 8) * 512 + (v / 64 % 8) * 64 + (v / 8 % 8) * 8 + v % 8) by (bit_vector);
    assert(v / 512 % 8 < 8 && v / 64 % 8 < 8 && v / 8 % 8 < 8 && v % 8 < 8) by (bit_vector);
}

/// The element names of the entry types: `directory` for a directory,
/// `file` for a regular file, `link` for a symbolic link, `fifo`,
/// `socket`, `char` and `block` for the special files.
pub proof fn law_tag_names(mode: u32)
    ensures
        mode & 0o170000u32 == 0o040000u32 ==> spec_tag(mode) == "directory",
        mode & 0o170000u32 == 0o100000u32 ==> spec_tag(mode) == "file",
        mode & 0o170000u32 == 0o120000u32 ==> spec_tag(mode) == "link",
        mode & 0o170000u32 == 0o010000u32 ==> spec_tag(mode) == "fifo",
        mode & 0o170000u32 == 0o140000u32 ==> spec_tag(mode) == "socket",
        mode & 0o170000u32 == 0o020000u32 ==> spec_tag(mode) == "char",
        mode & 0o170000u32 == 0o060000u32 ==> spec_tag(mode) == "block",
{
}

} // verus!
