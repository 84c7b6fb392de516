//! The bracketed metadata column (tree's fillinfo, prot, psize and
//! do_date) and the -F classification characters.
use vstd::prelude::*;
use std::collections::HashMap;
use chrono::TimeZone;
use std::fmt::Write;
use crate::bytes::{copy_bytes, copy_prefix, find_byte, find_from, push_all, split_lines, lemma_split_lines_step};
use crate::decimal::{digits, fmt_i64, fmt_u64, pad_left, pad_left_to, pad_right, pad_right_to, signed_digits};
use crate::options::{Options, opt_bytes};
use crate::walk::Meta;
use crate::text::{lossy, text, utf8_lossy};

verus! {

broadcast use vstd::std_specs::hash::group_hash_axioms;

/// The file-type bits of a mode.
pub open spec fn file_type(mode: u32) -> u32 {
    mode & 0o170000u32
}

/// The first column of `ls -l`: the file type.
pub open spec fn type_char(mode: u32) -> u8 {
    let t = file_type(mode);
    if t == 0o100000 {
        0x2d
    } else if t == 0o040000 {
        0x64
    } else if t == 0o120000 {
        0x6c
    } else if t == 0o020000 {
        0x63
    } else if t == 0o060000 {
        0x62
    } else if t == 0o140000 {
        0x73
    } else if t == 0o010000 {
        0x70
    } else {
        0x3f
    }
}

/// `c` when permission `bit` is set, else `-`.
pub open spec fn perm_char(mode: u32, bit: u32, c: u8) -> u8 {
    if mode & bit != 0 { c } else { 0x2d }
}

/// An execute column, which also shows the set-id or sticky bit: `lower`
/// with both set, `upper` with only the special bit.
pub open spec fn exec_char(mode: u32, exec_bit: u32, special_bit: u32, lower: u8, upper: u8) -> u8 {
    let x = perm_char(mode, exec_bit, 0x78);
    if mode & special_bit != 0 {
        if x == 0x2d { upper } else { lower }
    } else {
        x
    }
}

/// tree's prot(): "drwxr-xr-x" style, with the set-id and sticky bits.
pub open spec fn spec_prot(mode: u32) -> Seq<u8> {
    seq![
        type_char(mode),
        perm_char(mode, 0o400, 0x72),
        perm_char(mode, 0o200, 0x77),
        exec_char(mode, 0o100, 0o4000, 0x73, 0x53),
        perm_char(mode, 0o040, 0x72),
        perm_char(mode, 0o020, 0x77),
        exec_char(mode, 0o010, 0o2000, 0x73, 0x53),
        perm_char(mode, 0o004, 0x72),
        perm_char(mode, 0o002, 0x77),
        exec_char(mode, 0o001, 0o1000, 0x74, 0x54),
    ]
}

fn type_of(mode: u32) -> (r: u8)
    ensures
        r == type_char(mode),
{
    let t = mode & 0o170000u32;
    if t == 0o100000 {
        0x2d
    } else if t == 0o040000 {
        0x64
    } else if t == 0o120000 {
        0x6c
    } else if t == 0o020000 {
        0x63
    } else if t == 0o060000 {
        0x62
    } else if t == 0o140000 {
        0x73
    } else if t == 0o010000 {
        0x70
    } else {
        0x3f
    }
}

fn perm_of(mode: u32, bit: u32, c: u8) -> (r: u8)
    ensures
        r == perm_char(mode, bit, c),
{
    if mode & bit != 0 { c } else { 0x2d }
}

fn exec_of(mode: u32, exec_bit: u32, special_bit: u32, lower: u8, upper: u8) -> (r: u8)
    ensures
        r == exec_char(mode, exec_bit, special_bit, lower, upper),
{
    let x = perm_of(mode, exec_bit, 0x78);
    if mode & special_bit != 0 {
        if x == 0x2d { upper } else { lower }
    } else {
        x
    }
}

/// tree's prot(): "drwxr-xr-x" style, with suid/sgid/sticky.
pub fn prot(mode: u32) -> (r: [u8; 10])
    ensures
        r@ == spec_prot(mode),
{
    let r = [
        type_of(mode),
        perm_of(mode, 0o400, 0x72),
        perm_of(mode, 0o200, 0x77),
        exec_of(mode, 0o100, 0o4000, 0x73, 0x53),
        perm_of(mode, 0o040, 0x72),
        perm_of(mode, 0o020, 0x77),
        exec_of(mode, 0o010, 0o2000, 0x73, 0x53),
        perm_of(mode, 0o004, 0x72),
        perm_of(mode, 0o002, 0x77),
        exec_of(mode, 0o001, 0o1000, 0x74, 0x54),
    ];
    assert(r@ =~= spec_prot(mode));
    r
}

/// The value of a run of decimal digits.
pub open spec fn digits_value(d: Seq<u8>) -> nat
    decreases d.len(),
{
    if d.len() == 0 {
        0
    } else {
        digits_value(d.drop_last()) * 10 + (d.last() - 0x30) as nat
    }
}

/// Every byte is an ASCII digit.
pub open spec fn all_digits(d: Seq<u8>) -> bool {
    forall|i: int| 0 <= i < d.len() ==> 0x30 <= #[trigger] d[i] <= 0x39
}

/// `str::parse::<u32>` on these bytes: an optional `+`, then at least one
/// digit and nothing else, with a value that fits.
pub open spec fn parse_id(s: Seq<u8>) -> Option<u32> {
    let d = if s.len() > 0 && s[0] == 0x2b { s.skip(1) } else { s };
    if d.len() > 0 && all_digits(d) && digits_value(d) <= u32::MAX {
        Some(digits_value(d) as u32)
    } else {
        None
    }
}

proof fn lemma_digits_value_grows(d: Seq<u8>, i: int, j: int)
    requires
        0 <= i <= j <= d.len(),
        all_digits(d),
    ensures
        digits_value(d.take(i)) <= digits_value(d.take(j)),
    decreases j - i,
{
    if i < j {
        lemma_digits_value_grows(d, i, j - 1);
        assert(d.take(j).drop_last() =~= d.take(j - 1));
    }
}

fn parse_id_bytes(s: &[u8]) -> (r: Option<u32>)
    ensures
        r == parse_id(s@),
{
    let start: usize = if s.len() > 0 && s[0] == 0x2b { 1 } else { 0 };
    let ghost d = if s@.len() > 0 && s@[0] == 0x2b { s@.skip(1) } else { s@ };
    assert(d =~= s@.skip(start as int));
    if start >= s.len() {
        return None;
    }
    let mut acc: u64 = 0;
    let mut i: usize = start;
    while i < s.len()
        invariant
            start <= i <= s@.len(),
            start < s@.len(),
            d == s@.skip(start as int),
            d == (if s@.len() > 0 && s@[0] == 0x2b { s@.skip(1) } else { s@ }),
            acc == digits_value(d.take(i - start)),
            acc <= u32::MAX,
            all_digits(d.take(i - start)),
        decreases s@.len() - i,
    {
        let c = s[i];
        if c < 0x30 || c > 0x39 {
            assert(d[i - start] == c);
            return None;
        }
        assert(d.take(i - start + 1).drop_last() =~= d.take(i - start));
        assert(d.take(i - start + 1).last() == c);
        acc = acc * 10 + (c - 0x30) as u64;
        i = i + 1;
        assert(all_digits(d.take(i - start))) by {
            assert forall|k: int| 0 <= k < d.take(i - start).len() implies 0x30 <= #[trigger] d.take(i - start)[k] <= 0x39 by {
                if k < i - 1 - start {
                    assert(d.take(i - start)[k] == d.take(i - 1 - start)[k]);
                }
            }
        }
        if acc > 0xffff_ffff {
            proof {
                if all_digits(d) {
                    lemma_digits_value_grows(d, i - start, d.len() as int);
                    assert(d.take(d.len() as int) =~= d);
                }
            }
            return None;
        }
    }
    assert(d.take(i - start) =~= d);
    Some(acc as u32)
}

/// One line of /etc/passwd or /etc/group: the name (first field) and the
/// id (third field), when there is a third field and it parses.
pub open spec fn id_entry(line: Seq<u8>) -> Option<(u32, Seq<u8>)> {
    let c1 = find_byte(line, 0x3a, 0);
    let c2 = find_byte(line, 0x3a, c1 + 1);
    let c3 = find_byte(line, 0x3a, c2 + 1);
    if c1 >= line.len() || c2 >= line.len() {
        None
    } else {
        match parse_id(line.subrange(c2 + 1, c3)) {
            Some(id) => Some((id, line.take(c1))),
            None => None,
        }
    }
}

/// The names read from the lines, the first line for each id winning.
pub open spec fn id_map(lines: Seq<Seq<u8>>) -> Map<u32, Seq<u8>>
    decreases lines.len(),
{
    if lines.len() == 0 {
        Map::empty()
    } else {
        let m = id_map(lines.drop_last());
        match id_entry(lines.last()) {
            Some((id, name)) => if m.contains_key(id) { m } else { m.insert(id, name) },
            None => m,
        }
    }
}

/// The names a passwd or group file gives.
pub open spec fn id_table(content: Seq<u8>) -> Map<u32, Seq<u8>> {
    id_map(split_lines(content))
}

proof fn lemma_find_byte_bounds(s: Seq<u8>, c: u8, from: int)
    ensures
        0 <= from ==> from <= find_byte(s, c, from) <= s.len() || (from > s.len() && find_byte(s, c, from) == s.len()),
        find_byte(s, c, from) < s.len() ==> s[find_byte(s, c, from)] == c,
        0 <= find_byte(s, c, from) <= s.len(),
    decreases s.len() - from,
{
    if 0 <= from < s.len() && s[from] != c {
        lemma_find_byte_bounds(s, c, from + 1);
    }
}

fn line_entry(line: &[u8]) -> (r: Option<(u32, Vec<u8>)>)
    ensures
        match r {
            Some((id, name)) => id_entry(line@) == Some((id, name@)),
            None => id_entry(line@) is None,
        },
{
    let c1 = find_from(line, 0x3a, 0);
    if c1 >= line.len() {
        return None;
    }
    let c2 = find_from(line, 0x3a, c1 + 1);
    if c2 >= line.len() {
        return None;
    }
    let c3 = find_from(line, 0x3a, c2 + 1);
    proof {
        lemma_find_byte_bounds(line@, 0x3a, c2 + 1);
    }
    let field = slice_range(line, c2 + 1, c3);
    match parse_id_bytes(field.as_slice()) {
        Some(id) => Some((id, copy_prefix(line, c1))),
        None => None,
    }
}

/// A copy of `s[from..to]`.
fn slice_range(s: &[u8], from: usize, to: usize) -> (r: Vec<u8>)
    requires
        from <= to <= s@.len(),
    ensures
        r@ == s@.subrange(from as int, to as int),
{
    let mut r: Vec<u8> = Vec::new();
    let mut i: usize = from;
    while i < to
        invariant
            from <= i <= to <= s@.len(),
            r@ == s@.subrange(from as int, i as int),
        decreases to - i,
    {
        r.push(s[i]);
        i = i + 1;
        assert(r@ =~= s@.subrange(from as int, i as int));
    }
    r
}

/// The names held in a table.
pub open spec fn names(h: HashMap<u32, Vec<u8>>) -> Map<u32, Seq<u8>> {
    h@.map_values(|v: Vec<u8>| v@)
}

fn add_line(table: &mut HashMap<u32, Vec<u8>>, line: &[u8])
    ensures
        names(*final(table)) == (match id_entry(line@) {
            Some((id, name)) => if names(*old(table)).contains_key(id) {
                names(*old(table))
            } else {
                names(*old(table)).insert(id, name)
            },
            None => names(*old(table)),
        }),
{
    match line_entry(line) {
        Some((id, name)) => {
            if !table.contains_key(&id) {
                let ghost before = names(*table);
                let ghost nv = name@;
                table.insert(id, name);
                assert(names(*table) =~= before.insert(id, nv));
            }
        },
        None => {},
    }
}

fn parse_id_file(content: &[u8]) -> (r: HashMap<u32, Vec<u8>>)
    ensures
        names(r) == id_table(content@),
{
    let mut table: HashMap<u32, Vec<u8>> = HashMap::new();
    let mut line: Vec<u8> = Vec::new();
    let mut i: usize = 0;
    assert(content@.take(0) =~= Seq::<u8>::empty());
    assert(split_lines(content@.take(0)).drop_last() =~= Seq::<Seq<u8>>::empty());
    assert(names(table) =~= Map::<u32, Seq<u8>>::empty());
    while i < content.len()
        invariant
            i <= content@.len(),
            split_lines(content@.take(i as int)).len() >= 1,
            line@ == split_lines(content@.take(i as int)).last(),
            names(table) == id_map(split_lines(content@.take(i as int)).drop_last()),
        decreases content@.len() - i,
    {
        proof {
            lemma_split_lines_step(content@, i as int);
        }
        let ghost lines = split_lines(content@.take(i as int));
        if content[i] == 0x0a {
            add_line(&mut table, line.as_slice());
            line = Vec::new();
            assert(lines.push(Seq::<u8>::empty()).drop_last() =~= lines);
            assert(lines.drop_last().push(lines.last()) =~= lines);
        } else {
            line.push(content[i]);
            assert(lines.drop_last().push(lines.last().push(content@[i as int])).drop_last() =~= lines.drop_last());
        }
        i = i + 1;
    }
    let ghost lines = split_lines(content@.take(i as int));
    add_line(&mut table, line.as_slice());
    assert(lines.drop_last().push(lines.last()) =~= lines);
    assert(content@.take(i as int) =~= content@);
    table
}

/// uid and gid to name, with a numeric fallback. tree asks getpwuid and
/// getgrgid; here the tables come from the contents of /etc/passwd and
/// /etc/group, which the caller loads once, when first needed.
pub struct Ids {
    users: Option<HashMap<u32, Vec<u8>>>,
    groups: Option<HashMap<u32, Vec<u8>>>,
}

/// The tables loaded so far.
pub struct IdsView {
    pub users: Option<Map<u32, Seq<u8>>>,
    pub groups: Option<Map<u32, Seq<u8>>>,
}

/// The names of a table, if it was loaded.
pub open spec fn loaded_names(t: Option<HashMap<u32, Vec<u8>>>) -> Option<Map<u32, Seq<u8>>> {
    match t {
        Some(h) => Some(names(h)),
        None => None,
    }
}

impl View for Ids {
    type V = IdsView;

    closed spec fn view(&self) -> IdsView {
        IdsView { users: loaded_names(self.users), groups: loaded_names(self.groups) }
    }
}

/// The table read from a file: what it names, or nothing when it could
/// not be read.
pub open spec fn table_of(content: Option<Seq<u8>>) -> Map<u32, Seq<u8>> {
    match content {
        Some(c) => id_table(c),
        None => Map::empty(),
    }
}

/// A table after a load: the one already loaded, else the one read from
/// `content`.
pub open spec fn kept_or_loaded(table: Option<Map<u32, Seq<u8>>>, content: Option<Seq<u8>>) -> Option<Map<u32, Seq<u8>>> {
    if table is Some { table } else { Some(table_of(content)) }
}

/// The name for `id`: the table's, else `id` in decimal.
pub open spec fn name_of(table: Option<Map<u32, Seq<u8>>>, id: u32) -> Seq<u8> {
    match table {
        Some(m) => if m.contains_key(id) { m[id] } else { digits(id as nat) },
        None => digits(id as nat),
    }
}

fn lookup(table: &Option<HashMap<u32, Vec<u8>>>, id: u32) -> (r: Vec<u8>)
    ensures
        r@ == name_of(loaded_names(*table), id),
{
    match table {
        Some(h) => match h.get(&id) {
            Some(name) => copy_bytes(name.as_slice()),
            None => fmt_u64(id as u64),
        },
        None => fmt_u64(id as u64),
    }
}

impl Ids {
    /// Nothing loaded yet.
    pub fn new() -> (r: Ids)
        ensures
            r@.users is None,
            r@.groups is None,
    {
        Ids { users: None, groups: None }
    }

    /// Whether the user table was loaded.
    pub fn users_loaded(&self) -> (r: bool)
        ensures
            r == self@.users is Some,
    {
        self.users.is_some()
    }

    /// Whether the group table was loaded.
    pub fn groups_loaded(&self) -> (r: bool)
        ensures
            r == self@.groups is Some,
    {
        self.groups.is_some()
    }

    /// Load the user table from the contents of /etc/passwd (`None` when
    /// it could not be read: every uid then shows as a number). A table
    /// already loaded is kept, so the file is taken at most once.
    pub fn load_users(&mut self, content: Option<&[u8]>)
        ensures
            final(self)@.users == kept_or_loaded(old(self)@.users, match content { Some(c) => Some(c@), None => None }),
            final(self)@.groups == old(self)@.groups,
    {
        if self.users.is_some() {
            return;
        }
        let table = match content {
            Some(c) => parse_id_file(c),
            None => {
                let h: HashMap<u32, Vec<u8>> = HashMap::new();
                assert(names(h) =~= Map::<u32, Seq<u8>>::empty());
                h
            },
        };
        self.users = Some(table);
    }

    /// Load the group table from the contents of /etc/group (`None` when
    /// it could not be read). A table already loaded is kept.
    pub fn load_groups(&mut self, content: Option<&[u8]>)
        ensures
            final(self)@.groups == kept_or_loaded(old(self)@.groups, match content { Some(c) => Some(c@), None => None }),
            final(self)@.users == old(self)@.users,
    {
        if self.groups.is_some() {
            return;
        }
        let table = match content {
            Some(c) => parse_id_file(c),
            None => {
                let h: HashMap<u32, Vec<u8>> = HashMap::new();
                assert(names(h) =~= Map::<u32, Seq<u8>>::empty());
                h
            },
        };
        self.groups = Some(table);
    }

    /// The user name for `uid`, else `uid` in decimal.
    pub fn user(&self, uid: u32) -> (r: Vec<u8>)
        ensures
            r@ == name_of(self@.users, uid),
    {
        lookup(&self.users, uid)
    }

    /// The group name for `gid`, else `gid` in decimal.
    pub fn group(&self, gid: u32) -> (r: Vec<u8>)
        ensures
            r@ == name_of(self@.groups, gid),
    {
        lookup(&self.groups, gid)
    }
}

impl Default for Ids {
    fn default() -> (r: Ids)
        ensures
            r@.users is None,
            r@.groups is None,
    {
        Ids::new()
    }
}

/// " %-8.32s": a space, then the name cut at 32 bytes and left-justified
/// to at least 8.
pub open spec fn spec_pad_name(name: Seq<u8>) -> Seq<u8> {
    seq![0x20u8] + pad_right(name.take(if name.len() < 32 { name.len() as int } else { 32 }), 8)
}

fn pad_name(name: &[u8]) -> (r: Vec<u8>)
    ensures
        r@ == spec_pad_name(name@),
{
    let n: usize = if name.len() < 32 { name.len() } else { 32 };
    let cut = copy_prefix(name, n);
    let padded = pad_right_to(cut.as_slice(), 8);
    let mut r: Vec<u8> = vec![0x20];
    push_all(&mut r, padded.as_slice());
    r
}

/// Some flag asks for the metadata column.
pub open spec fn spec_wants_info(o: Options) -> bool {
    o.show_inode || o.show_device || o.show_perms || o.show_uid || o.show_gid || o.show_size || o.show_date
}

/// Whether any of --inodes, --device, -p, -u, -g, -s and -D is on.
pub fn wants_info(opts: &Options) -> (r: bool)
    ensures
        r == spec_wants_info(*opts),
{
    opts.show_inode || opts.show_device || opts.show_perms || opts.show_uid || opts.show_gid || opts.show_size
        || opts.show_date
}

/// tree's Ftype() for -F: the character appended to an entry's name.
pub open spec fn spec_ftype(mode: u32, dirs_only: bool) -> Option<u8> {
    let t = file_type(mode);
    if t == 0o040000 && !dirs_only {
        Some(0x2fu8)
    } else if t == 0o140000 {
        Some(0x3du8)
    } else if t == 0o010000 {
        Some(0x7cu8)
    } else if t == 0o120000 {
        Some(0x40u8)
    } else if t == 0o100000 && mode & 0o111u32 != 0 {
        Some(0x2au8)
    } else {
        None
    }
}

/// tree's Ftype() for -F.
pub fn ftype(mode: u32, opts: &Options) -> (r: Option<u8>)
    ensures
        r == spec_ftype(mode, opts.dirs_only),
{
    let t = mode & 0o170000u32;
    if t == 0o040000 && !opts.dirs_only {
        Some(0x2f)
    } else if t == 0o140000 {
        Some(0x3d)
    } else if t == 0o010000 {
        Some(0x7c)
    } else if t == 0o120000 {
        Some(0x40)
    } else if t == 0o100000 && mode & 0o111u32 != 0 {
        Some(0x2a)
    } else {
        None
    }
}

/// A size to print as a fraction of its unit: `size / base`, with no
/// decimal when `whole` holds and one otherwise, followed by `unit`.
#[derive(Clone, Copy)]
pub struct ScaledSize {
    pub size: i64,
    pub base: i64,
    pub unit: u8,
    pub whole: bool,
}

/// The size column: finished text, or a size to print as a fraction.
pub enum SizeColumn {
    Text(Vec<u8>),
    Scaled(ScaledSize),
}

/// Divide by `base` while the value stays at least `base * base`: the
/// value left and how many divisions were made.
pub open spec fn scale_down(size: int, base: int) -> (int, nat)
    decreases size,
{
    if base >= 2 && size >= base * base {
        proof {
            lemma_div_below(size, base);
        }
        let (s, k) = scale_down(size / base, base);
        (s, k + 1)
    } else {
        (size, 0)
    }
}

pub proof fn lemma_div_below(size: int, base: int)
    requires
        base >= 2,
        size >= base * base,
    ensures
        0 <= size / base < size,
{
    assert(base * base >= 2 * base) by (nonlinear_arith)
        requires
            base >= 2,
    ;
    assert(0 <= size / base < size) by (nonlinear_arith)
        requires
            base >= 2,
            size >= 2 * base,
    ;
}

/// The unit letters: decimal (--si) or binary (-h).
pub open spec fn units(si: bool) -> Seq<u8> {
    if si {
        seq![0x64u8, 0x6b, 0x4d, 0x47, 0x54, 0x50, 0x45, 0x5a, 0x59]
    } else {
        seq![0x42u8, 0x4b, 0x4d, 0x47, 0x54, 0x50, 0x45, 0x5a, 0x59]
    }
}

/// What the size column shows, as plain values.
pub enum SizeSpec {
    Text(Seq<u8>),
    Scaled(ScaledSize),
}

/// tree's psize(): with -h or --si the size scaled to a unit (plain when
/// below one unit), else the byte count right-aligned in 11 columns.
pub open spec fn spec_size_column(size: i64, human: bool, si: bool) -> SizeSpec {
    if human || si {
        let base: int = if si { 1000 } else { 1024 };
        let first: nat = if size >= base { 1 } else { 0 };
        let (s, k) = scale_down(size as int, base);
        let idx = first + k;
        if idx == 0 {
            SizeSpec::Text(seq![0x20u8] + pad_left(signed_digits(size as int), 4))
        } else {
            SizeSpec::Scaled(ScaledSize {
                size: s as i64,
                base: base as i64,
                unit: units(si)[idx as int],
                whole: (s + 52) / base >= 10,
            })
        }
    } else {
        SizeSpec::Text(seq![0x20u8] + pad_left(signed_digits(size as int), 11))
    }
}

/// The view of a size column.
pub open spec fn size_view(c: SizeColumn) -> SizeSpec {
    match c {
        SizeColumn::Text(t) => SizeSpec::Text(t@),
        SizeColumn::Scaled(s) => SizeSpec::Scaled(s),
    }
}

/// An upper bound on what is left after `k` divisions by at least 1000.
spec fn scaled_limit(k: nat) -> int {
    if k == 0 {
        9_223_372_036_854_775_807
    } else if k == 1 {
        9_223_372_036_854_775
    } else if k == 2 {
        9_223_372_036_854
    } else if k == 3 {
        9_223_372_036
    } else if k == 4 {
        9_223_372
    } else {
        9_223
    }
}

/// The size column for `size`, as tree's psize() lays it out; a scaled
/// size is left for the caller to print as a fraction.
pub fn size_column(size: i64, human: bool, si: bool) -> (r: SizeColumn)
    ensures
        size_view(r) == spec_size_column(size, human, si),
{
    if human || si {
        let base: i64 = if si { 1000 } else { 1024 };
        let mut idx: usize = if size >= base { 1 } else { 0 };
        let mut cur: i64 = size;
        let mut k: usize = 0;
        let square: i64 = if si { 1_000_000 } else { 1_048_576 };
        while cur >= square
            invariant
                base == 1000 || base == 1024,
                square == base * base,
                k <= 5,
                cur <= scaled_limit(k as nat),
                size >= base ==> cur >= base,
                size < base ==> cur == size,
                idx == (if size >= base { 1nat } else { 0nat }) + k,
                scale_down(size as int, base as int).0 == scale_down(cur as int, base as int).0,
                scale_down(size as int, base as int).1 == scale_down(cur as int, base as int).1 + k,
            decreases cur,
        {
            proof {
                lemma_div_below(cur as int, base as int);
                assert(cur / base <= scaled_limit(k as nat) / 1000) by (nonlinear_arith)
                    requires
                        cur <= scaled_limit(k as nat),
                        base >= 1000,
                        cur >= 0,
                ;
            }
            proof {
                assert(cur / base >= base) by (nonlinear_arith)
                    requires
                        cur >= base * base,
                        base >= 1000,
                ;
            }
            cur = cur / base;
            k = k + 1;
            idx = idx + 1;
        }
        assert(scale_down(cur as int, base as int) == (cur as int, 0nat));
        if idx == 0 {
            let d = fmt_i64(size);
            let padded = pad_left_to(d.as_slice(), 4);
            let mut t: Vec<u8> = vec![0x20];
            push_all(&mut t, padded.as_slice());
            assert(t@ =~= seq![0x20u8] + pad_left(signed_digits(size as int), 4));
            SizeColumn::Text(t)
        } else {
            let unit_table: Vec<u8> = if si {
                vec![0x64u8, 0x6b, 0x4d, 0x47, 0x54, 0x50, 0x45, 0x5a, 0x59]
            } else {
                vec![0x42u8, 0x4b, 0x4d, 0x47, 0x54, 0x50, 0x45, 0x5a, 0x59]
            };
            assert(unit_table@ == units(si));
            let whole = (cur + 52) / base >= 10;
            assert(whole == ((cur as int + 52) / (base as int) >= 10));
            let r = SizeColumn::Scaled(ScaledSize { size: cur, base, unit: unit_table[idx], whole });
            assert(scale_down(size as int, base as int).0 == cur);
            assert(size_view(r) == spec_size_column(size, human, si));
            r
        }
    } else {
        let d = fmt_i64(size);
        let padded = pad_left_to(d.as_slice(), 11);
        let mut t: Vec<u8> = vec![0x20];
        push_all(&mut t, padded.as_slice());
        assert(t@ =~= seq![0x20u8] + pad_left(signed_digits(size as int), 11));
        SizeColumn::Text(t)
    }
}

/// The seconds since the epoch that chrono can represent: from the start
/// of its first day (January 1, 262144 BCE) to the end of its last
/// (December 31, 262142 CE), in UTC.
pub open spec fn in_chrono_range(t: i64) -> bool {
    -8_334_601_228_800 <= t <= 8_210_266_876_799
}

/// What chrono prints for the instant `t` seconds after the epoch, seen
/// at a fixed offset of `offset` seconds east of UTC, with the strftime
/// format `fmt` (`format_with_items(StrftimeItems::new(fmt))`); `None`
/// when chrono refuses to print the format (an invalid specifier, or
/// `%#z`).
pub uninterp spec fn fixed_strftime(t: i64, offset: i32, fmt: Seq<char>) -> Option<Seq<char>>;

/// The text of an optional string.
pub open spec fn opt_text(p: Option<String>) -> Option<Seq<char>> {
    match p {
        Some(s) => Some(s@),
        None => None,
    }
}

/// `chrono::Local.timestamp_opt(t, 0).single()`, printed into a `String`
/// with `format_with_items(StrftimeItems::new(fmt))`. `None` when `t` has
/// no local time; `Some(None)` when chrono refuses to print the format.
/// Claims that there is a local time exactly when `t` is in chrono's
/// range (`timestamp_opt` gives a single time whenever
/// `DateTime::from_timestamp(t, 0)` does, whatever the time zone), and
/// that the outcome is what chrono prints for `t` at the local offset,
/// which is less than a day; which offset that is, the machine's time
/// zone decides.
#[verifier::external_body]
fn local_strftime(t: i64, fmt: &str) -> (r: Option<Option<String>>)
    ensures
        r is Some == in_chrono_range(t),
        r matches Some(p) ==> exists|off: i32|
            -86400 < off < 86400 && #[trigger] fixed_strftime(t, off, fmt@) == opt_text(p),
{
    let dt = chrono::Local.timestamp_opt(t, 0).single()?;
    let mut s = String::new();
    match write!(s, "{}", dt.format_with_items(chrono::format::StrftimeItems::new(fmt))) {
        Ok(()) => Some(Some(s)),
        Err(_) => Some(None),
    }
}

/// Six months of 31 days, in seconds: older (or future) times show the
/// year instead of the time of day.
pub const SIXMONTHS: i64 = 6 * 31 * 24 * 60 * 60;

/// The date format: --timefmt (read as UTF-8, invalid bytes replaced),
/// else "%b %e  %Y" for future times and times more than six months
/// old, and "%b %e %R" otherwise.
pub open spec fn date_format(t: i64, timefmt: Option<Seq<u8>>, now: i64) -> Seq<char> {
    match timefmt {
        Some(f) => utf8_lossy(f),
        None => if t > now || t + SIXMONTHS < now { "%b %e  %Y"@ } else { "%b %e %R"@ },
    }
}

/// The date text `d` chrono's printing at offset `off` gives: the
/// printed text, or, when chrono refuses the format, the format itself.
pub open spec fn printed_as(d: Seq<u8>, t: i64, off: i32, f: Seq<char>) -> bool {
    match fixed_strftime(t, off, f) {
        Some(s) => d == vstd::utf8::encode_utf8(s),
        None => d == vstd::utf8::encode_utf8(f),
    }
}

/// What do_date gives for `t`: nothing outside chrono's range; otherwise
/// the time printed with the format at the local offset (less than a day
/// from UTC), or the format itself when chrono cannot print it.
pub open spec fn date_claim(d: Seq<u8>, t: i64, timefmt: Option<Seq<u8>>, now: i64) -> bool {
    let f = date_format(t, timefmt, now);
    &&& !in_chrono_range(t) ==> d.len() == 0
    &&& in_chrono_range(t) ==> exists|off: i32| -86400 < off < 86400 && #[trigger] printed_as(d, t, off, f)
}

/// The format do_date hands to chrono: --timefmt read as UTF-8 (invalid
/// bytes replaced), else "%b %e  %Y" for future times and times more than
/// six months before `now`, and "%b %e %R" otherwise.
pub fn date_format_text(t: i64, opts: &Options, now: i64) -> (r: String)
    ensures
        r@ == date_format(t, opt_bytes(opts.timefmt), now),
{
    match &opts.timefmt {
        Some(f) => lossy(f.as_slice()),
        None => {
            let ti: i128 = t as i128;
            let ni: i128 = now as i128;
            if t > now || ti + 16070400 < ni {
                text("%b %e  %Y")
            } else {
                text("%b %e %R")
            }
        },
    }
}

/// tree's do_date(): `t` formatted with --timefmt, else "%b %e  %Y" for
/// old or future files and "%b %e %R" for recent ones, in local time. A
/// format chrono cannot print (an invalid specifier) is printed as it
/// stands; a time outside chrono's range prints nothing.
pub fn do_date(t: i64, opts: &Options, now: i64) -> (r: Vec<u8>)
    ensures
        !in_chrono_range(t) ==> r@.len() == 0,
        in_chrono_range(t) ==> exists|off: i32|
            -86400 < off < 86400 && #[trigger] printed_as(r@, t, off, date_format(t, opt_bytes(opts.timefmt), now)),
        date_claim(r@, t, opt_bytes(opts.timefmt), now),
{
    let fmt = date_format_text(t, opts, now);
    let ghost f = fmt@;
    let printed = local_strftime(t, fmt.as_str());
    let r = match printed {
        Some(Some(out)) => copy_bytes(out.as_str().as_bytes()),
        Some(None) => copy_bytes(fmt.as_str().as_bytes()),
        None => Vec::new(),
    };
    proof {
        if in_chrono_range(t) {
            let off = choose|off: i32| -86400 < off < 86400 && #[trigger] fixed_strftime(t, off, f) == opt_text(printed->0);
            assert(printed_as(r@, t, off, f));
        }
    }
    r
}

/// Which metadata fields the flags ask for.
#[derive(Clone, Copy)]
pub struct InfoFlags {
    pub inode: bool,
    pub device: bool,
    pub perms: bool,
    pub uid: bool,
    pub gid: bool,
    pub size: bool,
    pub date: bool,
}

/// The fields --inodes, --device, -p, -u, -g, -s and -D ask for.
pub open spec fn info_flags(o: Options) -> InfoFlags {
    InfoFlags {
        inode: o.show_inode,
        device: o.show_device,
        perms: o.show_perms,
        uid: o.show_uid,
        gid: o.show_gid,
        size: o.show_size,
        date: o.show_date,
    }
}

fn flags_of(opts: &Options) -> (r: InfoFlags)
    ensures
        r == info_flags(*opts),
{
    InfoFlags {
        inode: opts.show_inode,
        device: opts.show_device,
        perms: opts.show_perms,
        uid: opts.show_uid,
        gid: opts.show_gid,
        size: opts.show_size,
        date: opts.show_date,
    }
}

/// `s` when `on`, else nothing.
pub open spec fn shown_if(on: bool, s: Seq<u8>) -> Seq<u8> {
    if on { s } else { Seq::empty() }
}

/// The metadata fields, each with its leading space, as tree prints them:
/// inode (7 wide), device (3 wide, as a signed 32-bit number), mode,
/// user and group names, the size column and the date.
pub open spec fn info_body(m: Meta, f: InfoFlags, user: Seq<u8>, group: Seq<u8>, size_text: Seq<u8>, date_text: Seq<u8>) -> Seq<u8> {
    shown_if(f.inode, seq![0x20u8] + pad_left(digits(m.ino as nat), 7))
        + shown_if(f.device, seq![0x20u8] + pad_left(signed_digits((m.dev as i32) as int), 3))
        + shown_if(f.perms, seq![0x20u8] + spec_prot(m.mode))
        + shown_if(f.uid, spec_pad_name(user))
        + shown_if(f.gid, spec_pad_name(group))
        + shown_if(f.size, size_text)
        + shown_if(f.date, seq![0x20u8] + date_text)
}

/// The fields in brackets: a leading space becomes `[` and `]` closes.
pub open spec fn bracketed(b: Seq<u8>) -> Seq<u8> {
    if b.len() > 0 && b[0] == 0x20 {
        seq![0x5bu8] + b.skip(1) + seq![0x5du8]
    } else {
        b
    }
}

/// tree's fillinfo(), given the size column and the date text: the
/// bracketed block, or nothing when no flag asks for it or the entry has
/// no metadata.
pub open spec fn spec_fillinfo(meta: Option<Meta>, o: Options, ids: IdsView, size_text: Seq<u8>, date_text: Seq<u8>) -> Option<Seq<u8>> {
    if !spec_wants_info(o) {
        None
    } else {
        match meta {
            Some(m) => Some(bracketed(info_body(
                m,
                info_flags(o),
                name_of(ids.users, m.uid),
                name_of(ids.groups, m.gid),
                size_text,
                date_text,
            ))),
            None => None,
        }
    }
}

/// The view of an optional byte string.
pub open spec fn opt_view(r: Option<Vec<u8>>) -> Option<Seq<u8>> {
    match r {
        Some(v) => Some(v@),
        None => None,
    }
}

fn inode_field(m: &Meta) -> (r: Vec<u8>)
    ensures
        r@ == seq![0x20u8] + pad_left(digits(m.ino as nat), 7),
{
    let mut r: Vec<u8> = vec![0x20];
    let d = fmt_u64(m.ino);
    let p = pad_left_to(d.as_slice(), 7);
    push_all(&mut r, p.as_slice());
    r
}

fn device_field(m: &Meta) -> (r: Vec<u8>)
    ensures
        r@ == seq![0x20u8] + pad_left(signed_digits((m.dev as i32) as int), 3),
{
    let mut r: Vec<u8> = vec![0x20];
    let dev: i32 = m.dev as i32;
    let d = fmt_i64(dev as i64);
    let p = pad_left_to(d.as_slice(), 3);
    push_all(&mut r, p.as_slice());
    r
}

fn perms_field(m: &Meta) -> (r: Vec<u8>)
    ensures
        r@ == seq![0x20u8] + spec_prot(m.mode),
{
    let mut r: Vec<u8> = vec![0x20];
    let pr = prot(m.mode);
    push_all(&mut r, &pr);
    r
}

fn push_when(buf: &mut Vec<u8>, on: bool, s: &[u8])
    ensures
        final(buf)@ == old(buf)@ + shown_if(on, s@),
{
    if on {
        push_all(buf, s);
    } else {
        assert(old(buf)@ + shown_if(on, s@) =~= old(buf)@);
    }
}

fn build_body(m: &Meta, f: InfoFlags, user: &[u8], group: &[u8], size_text: &[u8], date_text: &[u8]) -> (r: Vec<u8>)
    ensures
        r@ == info_body(*m, f, user@, group@, size_text@, date_text@),
{
    let mut buf: Vec<u8> = Vec::new();
    let a = if f.inode { inode_field(m) } else { Vec::new() };
    push_when(&mut buf, f.inode, a.as_slice());
    let b = if f.device { device_field(m) } else { Vec::new() };
    push_when(&mut buf, f.device, b.as_slice());
    let c = if f.perms { perms_field(m) } else { Vec::new() };
    push_when(&mut buf, f.perms, c.as_slice());
    let u = if f.uid { pad_name(user) } else { Vec::new() };
    push_when(&mut buf, f.uid, u.as_slice());
    let g = if f.gid { pad_name(group) } else { Vec::new() };
    push_when(&mut buf, f.gid, g.as_slice());
    push_when(&mut buf, f.size, size_text);
    let mut d: Vec<u8> = vec![0x20];
    push_all(&mut d, date_text);
    push_when(&mut buf, f.date, d.as_slice());
    assert(buf@ =~= info_body(*m, f, user@, group@, size_text@, date_text@));
    buf
}

fn bracket(body: Vec<u8>) -> (r: Vec<u8>)
    ensures
        r@ == bracketed(body@),
{
    if body.len() > 0 && body[0] == 0x20 {
        let mut out: Vec<u8> = vec![0x5b];
        let rest = crate::bytes::copy_from(body.as_slice(), 1);
        push_all(&mut out, rest.as_slice());
        out.push(0x5d);
        assert(out@ =~= bracketed(body@));
        out
    } else {
        body
    }
}

/// The metadata block with the size column and date text already made
/// (the size column holds a fraction when scaled, which the caller
/// prints).
pub fn fillinfo_with(
    meta: Option<&Meta>,
    opts: &Options,
    ids: &Ids,
    size_text: &[u8],
    date_text: &[u8],
) -> (r: Option<Vec<u8>>)
    ensures
        opt_view(r) == spec_fillinfo(
            match meta { Some(m) => Some(*m), None => None },
            *opts,
            ids@,
            size_text@,
            date_text@,
        ),
{
    if !wants_info(opts) {
        return None;
    }
    let m = match meta {
        Some(m) => m,
        None => return None,
    };
    let f = flags_of(opts);
    let user = if f.uid { ids.user(m.uid) } else { Vec::new() };
    let group = if f.gid { ids.group(m.gid) } else { Vec::new() };
    let body = build_body(m, f, user.as_slice(), group.as_slice(), size_text, date_text);
    proof {
        let full = info_body(*m, f, name_of(ids@.users, m.uid), name_of(ids@.groups, m.gid), size_text@, date_text@);
        assert(body@ =~= full);
    }
    Some(bracket(body))
}

/// What fillinfo promises of its result: the block made with a date text
/// that do_date may have given for the entry's time (with -D).
pub open spec fn fillinfo_claim(
    r: Option<Seq<u8>>,
    meta: Option<Meta>,
    o: Options,
    ids: IdsView,
    size_text: Seq<u8>,
    now: i64,
) -> bool {
    exists|d: Seq<u8>|
        #[trigger] spec_fillinfo(meta, o, ids, size_text, d) == r && (o.show_date ==> (meta matches Some(m) ==> date_claim(
            d,
            if o.use_ctime { m.ctime } else { m.mtime },
            opt_bytes(o.timefmt),
            now,
        )))
}

/// tree's fillinfo(): the "[...]" block, or `None` when no flag asks for
/// it or the entry has no metadata. `size_text` is the size column, which
/// the caller makes (a scaled size is printed with a fraction); the date
/// is made here, against `now`.
pub fn fillinfo(meta: Option<&Meta>, opts: &Options, ids: &Ids, now: i64, size_text: &[u8]) -> (r: Option<Vec<u8>>)
    ensures
        fillinfo_claim(opt_view(r), match meta { Some(m) => Some(*m), None => None }, *opts, ids@, size_text@, now),
{
    let date: Vec<u8> = match meta {
        Some(m) => if opts.show_date && wants_info(opts) {
            let t = if opts.use_ctime { m.ctime } else { m.mtime };
            do_date(t, opts, now)
        } else {
            Vec::new()
        },
        None => Vec::new(),
    };
    let r = fillinfo_with(meta, opts, ids, size_text, date.as_slice());
    proof {
        let mv = match meta { Some(m) => Some(*m), None => None };
        if let Some(m) = mv {
            if !(opts.show_date && spec_wants_info(*opts)) {
                assert(date@.len() == 0);
            }
        }
        assert(spec_fillinfo(mv, *opts, ids@, size_text@, date@) == opt_view(r));
    }
    r
}

/// The line names `id`.
pub open spec fn gives_id(line: Seq<u8>, id: u32) -> bool {
    match id_entry(line) {
        Some((k, _)) => k == id,
        None => false,
    }
}

/// Some line before `end` gives `id`.
pub open spec fn has_id_before(lines: Seq<Seq<u8>>, end: int, id: u32) -> bool {
    exists|j: int| 0 <= j < end && #[trigger] gives_id(lines[j], id)
}

proof fn lemma_id_map_keys(lines: Seq<Seq<u8>>, id: u32)
    ensures
        id_map(lines).contains_key(id) ==> has_id_before(lines, lines.len() as int, id),
    decreases lines.len(),
{
    if lines.len() > 0 {
        let prev = lines.drop_last();
        lemma_id_map_keys(prev, id);
        if id_map(prev).contains_key(id) {
            let j = choose|j: int| 0 <= j < prev.len() && #[trigger] gives_id(prev[j], id);
            assert(prev[j] == lines[j]);
        } else if id_map(lines).contains_key(id) {
            assert(gives_id(lines[lines.len() - 1], id));
        }
    }
}

/// The first line naming an id wins: later lines with the same id do
/// not replace its name (like /etc/passwd lookups).
pub proof fn law_first_id_entry_wins(lines: Seq<Seq<u8>>, i: int, id: u32, name: Seq<u8>)
    requires
        0 <= i < lines.len(),
        id_entry(lines[i]) == Some((id, name)),
        !has_id_before(lines, i, id),
    ensures
        id_map(lines).contains_key(id),
        id_map(lines)[id] == name,
    decreases lines.len(),
{
    let prev = lines.drop_last();
    if i == lines.len() - 1 {
        lemma_id_map_keys(prev, id);
        if id_map(prev).contains_key(id) {
            let j = choose|j: int| 0 <= j < prev.len() && #[trigger] gives_id(prev[j], id);
            assert(prev[j] == lines[j]);
        }
    } else {
        assert(prev[i] == lines[i]);
        assert(!has_id_before(prev, i, id)) by {
            if has_id_before(prev, i, id) {
                let j = choose|j: int| 0 <= j < i && #[trigger] gives_id(prev[j], id);
                assert(prev[j] == lines[j]);
            }
        }
        law_first_id_entry_wins(prev, i, id, name);
    }
}

/// The first contents loaded are the ones every later lookup uses: once
/// a table is loaded from `first`, loading again from `later` changes
/// nothing, and each id names what `first` gives it.
pub proof fn law_ids_first_load_kept(first: Option<Seq<u8>>, later: Option<Seq<u8>>, id: u32)
    ensures
        kept_or_loaded(kept_or_loaded(None, first), later) == Some(table_of(first)),
        name_of(kept_or_loaded(kept_or_loaded(None, first), later), id) == (if table_of(first).contains_key(id) {
            table_of(first)[id]
        } else {
            digits(id as nat)
        }),
{
}

/// The nine permission columns of `prot`: column `i` (1 to 9) answers the
/// mode bit `0o400 >> (i - 1)`. A read or write column shows its letter of
/// "rwxrwxrwx" exactly when that bit is set and `-` otherwise; an execute
/// column shows `x` or `s`/`t` exactly when its execute bit is set, and
/// `s`/`S` (or `t`/`T`) exactly when its set-id (sticky) bit is set.
pub proof fn law_prot_columns(mode: u32)
    ensures
        spec_prot(mode).len() == 10,
        spec_prot(mode)[1] == (if mode & 0o400u32 != 0 { 0x72u8 } else { 0x2du8 }),
        spec_prot(mode)[2] == (if mode & 0o200u32 != 0 { 0x77u8 } else { 0x2du8 }),
        spec_prot(mode)[4] == (if mode & 0o040u32 != 0 { 0x72u8 } else { 0x2du8 }),
        spec_prot(mode)[5] == (if mode & 0o020u32 != 0 { 0x77u8 } else { 0x2du8 }),
        spec_prot(mode)[7] == (if mode & 0o004u32 != 0 { 0x72u8 } else { 0x2du8 }),
        spec_prot(mode)[8] == (if mode & 0o002u32 != 0 { 0x77u8 } else { 0x2du8 }),
        (mode & 0o100u32 != 0) == (spec_prot(mode)[3] == 0x78u8 || spec_prot(mode)[3] == 0x73u8),
        (mode & 0o4000u32 != 0) == (spec_prot(mode)[3] == 0x73u8 || spec_prot(mode)[3] == 0x53u8),
        (mode & 0o010u32 != 0) == (spec_prot(mode)[6] == 0x78u8 || spec_prot(mode)[6] == 0x73u8),
        (mode & 0o2000u32 != 0) == (spec_prot(mode)[6] == 0x73u8 || spec_prot(mode)[6] == 0x53u8),
        (mode & 0o001u32 != 0) == (spec_prot(mode)[9] == 0x78u8 || spec_prot(mode)[9] == 0x74u8),
        (mode & 0o1000u32 != 0) == (spec_prot(mode)[9] == 0x74u8 || spec_prot(mode)[9] == 0x54u8),
        spec_prot(mode)[3] == 0x78u8 || spec_prot(mode)[3] == 0x73u8 || spec_prot(mode)[3] == 0x53u8
            || spec_prot(mode)[3] == 0x2du8,
        spec_prot(mode)[6] == 0x78u8 || spec_prot(mode)[6] == 0x73u8 || spec_prot(mode)[6] == 0x53u8
            || spec_prot(mode)[6] == 0x2du8,
        spec_prot(mode)[9] == 0x78u8 || spec_prot(mode)[9] == 0x74u8 || spec_prot(mode)[9] == 0x54u8
            || spec_prot(mode)[9] == 0x2du8,
{
}

/// The type column of `prot`: `d` for a directory, `-` for a regular
/// file, `l` for a symbolic link.
pub proof fn law_prot_type_column(mode: u32)
    ensures
        file_type(mode) == 0o040000u32 ==> spec_prot(mode)[0] == 0x64u8,
        file_type(mode) == 0o100000u32 ==> spec_prot(mode)[0] == 0x2du8,
        file_type(mode) == 0o120000u32 ==> spec_prot(mode)[0] == 0x6cu8,
{
}

/// What -F appends: `/` to a directory (not with -d), `=` to a socket,
/// `|` to a FIFO, `@` to a symbolic link, `*` to a regular file with any
/// execute bit (owner, group or other), and nothing to a regular file
/// without one.
pub proof fn law_ftype_marks(mode: u32, dirs_only: bool)
    ensures
        file_type(mode) == 0o040000u32 ==> spec_ftype(mode, dirs_only) == (if dirs_only { None } else { Some(0x2fu8) }),
        file_type(mode) == 0o140000u32 ==> spec_ftype(mode, dirs_only) == Some(0x3du8),
        file_type(mode) == 0o010000u32 ==> spec_ftype(mode, dirs_only) == Some(0x7cu8),
        file_type(mode) == 0o120000u32 ==> spec_ftype(mode, dirs_only) == Some(0x40u8),
        file_type(mode) == 0o100000u32 ==> (spec_ftype(mode, dirs_only) == Some(0x2au8) <==> (mode & 0o100u32 != 0
            || mode & 0o010u32 != 0 || mode & 0o001u32 != 0)),
        file_type(mode) == 0o100000u32 ==> (spec_ftype(mode, dirs_only) is None <==> (mode & 0o100u32 == 0
            && mode & 0o010u32 == 0 && mode & 0o001u32 == 0)),
{
    assert((mode & 0o100u32 != 0 || mode & 0o010u32 != 0 || mode & 0o001u32 != 0) <==> mode & 0o111u32 != 0)
        by (bit_vector);
}

/// -h scales by 1024 with units B K M G ..., --si by 1000 with d k M G ...:
/// a size below the base is printed plainly in four columns; one from one
/// base up to below base² keeps its byte count and takes the first unit
/// (K, or k with --si); one from base² up to below base³ is divided once
/// by the base and takes M. Without either, the byte count fills eleven
/// columns.
pub proof fn law_size_units(size: i64)
    ensures
        size < 1024 ==> spec_size_column(size, true, false) == SizeSpec::Text(
            seq![0x20u8] + pad_left(signed_digits(size as int), 4),
        ),
        1024 <= size < 1048576 ==> (spec_size_column(size, true, false) matches SizeSpec::Scaled(ss)
            && ss.size == size && ss.base == 1024 && ss.unit == 0x4bu8),
        1048576 <= size < 1073741824 ==> (spec_size_column(size, true, false) matches SizeSpec::Scaled(ss)
            && ss.size == size / 1024 && ss.base == 1024 && ss.unit == 0x4du8),
        size < 1000 ==> spec_size_column(size, false, true) == SizeSpec::Text(
            seq![0x20u8] + pad_left(signed_digits(size as int), 4),
        ),
        1000 <= size < 1000000 ==> (spec_size_column(size, false, true) matches SizeSpec::Scaled(ss)
            && ss.size == size && ss.base == 1000 && ss.unit == 0x6bu8),
        1000000 <= size < 1000000000 ==> (spec_size_column(size, false, true) matches SizeSpec::Scaled(ss)
            && ss.size == size / 1000 && ss.base == 1000 && ss.unit == 0x4du8),
        spec_size_column(size, false, false) == SizeSpec::Text(
            seq![0x20u8] + pad_left(signed_digits(size as int), 11),
        ),
{
    let x = size as int;
    if 1048576 <= x < 1073741824 {
        assert(1024 <= x / 1024 < 1048576);
        lemma_div_below(x, 1024);
        assert(scale_down(x / 1024, 1024) == (x / 1024, 0nat));
        assert(scale_down(x, 1024) == (x / 1024, 1nat));
    }
    if 1000000 <= x < 1000000000 {
        assert(1000 <= x / 1000 < 1000000);
        lemma_div_below(x, 1000);
        assert(scale_down(x / 1000, 1000) == (x / 1000, 0nat));
        assert(scale_down(x, 1000) == (x / 1000, 1nat));
    }
}

/// Without --timefmt, a time from six 31-day months (16070400 seconds)
/// before `now` up to `now` shows the time of day, and any other time (in
/// the future, or older) shows the year.
pub proof fn law_recent_times_show_time_of_day(t: i64, now: i64)
    ensures
        now - 16070400 <= t <= now ==> date_format(t, None, now) == "%b %e %R"@,
        t > now || t < now - 16070400 ==> date_format(t, None, now) == "%b %e  %Y"@,
{
    assert(SIXMONTHS == 16070400);
}

} // verus!
