//! Command-line parsing: combinable short flags, `--opt=value` and
//! `--opt value`, as tree takes them.
use vstd::prelude::*;
use crate::bytes::{copy_bytes, copy_from, copy_prefix, lines_view, lit, is_lit, ascii_lower, to_ascii_lower, find_byte};
use crate::text::{utf8_lossy, lossy, char_string, text};

verus! {

#[derive(Debug, Clone, Copy, PartialEq, Eq, Structural)]
pub enum SortKey {
    Name,
    Version,
    Size,
    Mtime,
    Ctime,
    /// -U / --sort=none: keep directory order.
    Unsorted,
}

#[derive(Debug, Clone, Copy, PartialEq, Eq, Structural)]
pub enum TopSort {
    /// Directories and files mixed.
    Neither,
    DirsFirst,
    FilesFirst,
}

#[derive(Debug, Clone, Copy, PartialEq, Eq, Structural)]
pub enum OutputFormat {
    Text,
    /// -J
    Json,
    /// -X
    Xml,
    /// -H
    Html,
}

impl Default for SortKey {
    fn default() -> (r: SortKey)
        ensures
            r == SortKey::Name,
    {
        SortKey::Name
    }
}

impl Default for TopSort {
    fn default() -> (r: TopSort)
        ensures
            r == TopSort::Neither,
    {
        TopSort::Neither
    }
}

impl Default for OutputFormat {
    fn default() -> (r: OutputFormat)
        ensures
            r == OutputFormat::Text,
    {
        OutputFormat::Text
    }
}

/// Everything the command line selects. Paths and file names are raw
/// bytes.
pub struct Options {
    pub paths: Vec<Vec<u8>>,
    /// -a
    pub all_files: bool,
    /// -d
    pub dirs_only: bool,
    /// -f
    pub full_path: bool,
    /// -l
    pub follow_links: bool,
    /// -x
    pub xdev: bool,
    /// -L
    pub level: Option<usize>,
    /// --filelimit
    pub file_limit: Option<i64>,
    /// --noreport
    pub no_report: bool,
    /// -o
    pub output_file: Option<Vec<u8>>,
    /// -P
    pub patterns: Vec<Vec<u8>>,
    /// -I
    pub ipatterns: Vec<Vec<u8>>,
    pub sort: SortKey,
    pub top: TopSort,
    /// -r
    pub reverse: bool,
    /// -c: sort by ctime and make -D show ctime.
    pub use_ctime: bool,
    /// -p
    pub show_perms: bool,
    /// -u
    pub show_uid: bool,
    /// -g
    pub show_gid: bool,
    /// -s
    pub show_size: bool,
    /// -h
    pub human: bool,
    /// --si
    pub si: bool,
    /// -D
    pub show_date: bool,
    pub timefmt: Option<Vec<u8>>,
    /// -F
    pub classify: bool,
    /// -q
    pub qmark: bool,
    /// -N
    pub no_escape: bool,
    /// -Q
    pub quote: bool,
    /// --inodes
    pub show_inode: bool,
    /// --device
    pub show_device: bool,
    /// --du
    pub du: bool,
    /// -C
    pub force_color: bool,
    /// -n
    pub no_color: bool,
    /// -i
    pub noindent: bool,
    /// -A
    pub ansilines: bool,
    pub output: OutputFormat,
    /// -H's baseHREF; a leading '-' strips the local path prefix.
    pub host: Option<Vec<u8>>,
    pub htmloffset: bool,
    /// -T
    pub title: Option<Vec<u8>>,
    /// --nolinks
    pub nolinks: bool,
    /// --hintro
    pub hintro: Option<Vec<u8>>,
    /// --houtro
    pub houtro: Option<Vec<u8>>,
    /// -R
    pub rerun: bool,
    pub ignore_case: bool,
    pub prune: bool,
    pub matchdirs: bool,
    pub gitignore: bool,
    /// --gitfile: an explicit file in .gitignore syntax (implies --gitignore).
    pub gitfile: Option<Vec<u8>>,
    pub info: bool,
    pub infofile: Option<Vec<u8>>,
    pub charset: Option<Vec<u8>>,
}

/// The options as the library reasons about them.
pub struct OptionsView {
    pub paths: Seq<Seq<u8>>,
    pub all_files: bool,
    pub dirs_only: bool,
    pub full_path: bool,
    pub follow_links: bool,
    pub xdev: bool,
    pub level: Option<usize>,
    pub file_limit: Option<i64>,
    pub no_report: bool,
    pub output_file: Option<Seq<u8>>,
    pub patterns: Seq<Seq<u8>>,
    pub ipatterns: Seq<Seq<u8>>,
    pub sort: SortKey,
    pub top: TopSort,
    pub reverse: bool,
    pub use_ctime: bool,
    pub show_perms: bool,
    pub show_uid: bool,
    pub show_gid: bool,
    pub show_size: bool,
    pub human: bool,
    pub si: bool,
    pub show_date: bool,
    pub timefmt: Option<Seq<u8>>,
    pub classify: bool,
    pub qmark: bool,
    pub no_escape: bool,
    pub quote: bool,
    pub show_inode: bool,
    pub show_device: bool,
    pub du: bool,
    pub force_color: bool,
    pub no_color: bool,
    pub noindent: bool,
    pub ansilines: bool,
    pub output: OutputFormat,
    pub host: Option<Seq<u8>>,
    pub htmloffset: bool,
    pub title: Option<Seq<u8>>,
    pub nolinks: bool,
    pub hintro: Option<Seq<u8>>,
    pub houtro: Option<Seq<u8>>,
    pub rerun: bool,
    pub ignore_case: bool,
    pub prune: bool,
    pub matchdirs: bool,
    pub gitignore: bool,
    pub gitfile: Option<Seq<u8>>,
    pub info: bool,
    pub infofile: Option<Seq<u8>>,
    pub charset: Option<Seq<u8>>,
}

/// The bytes of an optional byte string.
pub open spec fn opt_bytes(o: Option<Vec<u8>>) -> Option<Seq<u8>> {
    match o {
        Some(v) => Some(v@),
        None => None,
    }
}

impl View for Options {
    type V = OptionsView;

    open spec fn view(&self) -> OptionsView {
        OptionsView {
            paths: lines_view(self.paths@),
            all_files: self.all_files,
            dirs_only: self.dirs_only,
            full_path: self.full_path,
            follow_links: self.follow_links,
            xdev: self.xdev,
            level: self.level,
            file_limit: self.file_limit,
            no_report: self.no_report,
            output_file: opt_bytes(self.output_file),
            patterns: lines_view(self.patterns@),
            ipatterns: lines_view(self.ipatterns@),
            sort: self.sort,
            top: self.top,
            reverse: self.reverse,
            use_ctime: self.use_ctime,
            show_perms: self.show_perms,
            show_uid: self.show_uid,
            show_gid: self.show_gid,
            show_size: self.show_size,
            human: self.human,
            si: self.si,
            show_date: self.show_date,
            timefmt: opt_bytes(self.timefmt),
            classify: self.classify,
            qmark: self.qmark,
            no_escape: self.no_escape,
            quote: self.quote,
            show_inode: self.show_inode,
            show_device: self.show_device,
            du: self.du,
            force_color: self.force_color,
            no_color: self.no_color,
            noindent: self.noindent,
            ansilines: self.ansilines,
            output: self.output,
            host: opt_bytes(self.host),
            htmloffset: self.htmloffset,
            title: opt_bytes(self.title),
            nolinks: self.nolinks,
            hintro: opt_bytes(self.hintro),
            houtro: opt_bytes(self.houtro),
            rerun: self.rerun,
            ignore_case: self.ignore_case,
            prune: self.prune,
            matchdirs: self.matchdirs,
            gitignore: self.gitignore,
            gitfile: opt_bytes(self.gitfile),
            info: self.info,
            infofile: opt_bytes(self.infofile),
            charset: opt_bytes(self.charset),
        }
    }
}

/// The options before any argument is read.
pub open spec fn default_options() -> OptionsView {
    OptionsView {
        paths: Seq::<Seq<u8>>::empty(),
        all_files: false,
        dirs_only: false,
        full_path: false,
        follow_links: false,
        xdev: false,
        level: None,
        file_limit: None,
        no_report: false,
        output_file: None,
        patterns: Seq::<Seq<u8>>::empty(),
        ipatterns: Seq::<Seq<u8>>::empty(),
        sort: SortKey::Name,
        top: TopSort::Neither,
        reverse: false,
        use_ctime: false,
        show_perms: false,
        show_uid: false,
        show_gid: false,
        show_size: false,
        human: false,
        si: false,
        show_date: false,
        timefmt: None,
        classify: false,
        qmark: false,
        no_escape: false,
        quote: false,
        show_inode: false,
        show_device: false,
        du: false,
        force_color: false,
        no_color: false,
        noindent: false,
        ansilines: false,
        output: OutputFormat::Text,
        host: None,
        htmloffset: false,
        title: None,
        nolinks: false,
        hintro: None,
        houtro: None,
        rerun: false,
        ignore_case: false,
        prune: false,
        matchdirs: false,
        gitignore: false,
        gitfile: None,
        info: false,
        infofile: None,
        charset: None,
    }
}

impl Default for Options {
    fn default() -> (r: Options)
        ensures
            r@ == default_options(),
    {
        let r = Options {
            paths: Vec::new(),
            all_files: false,
            dirs_only: false,
            full_path: false,
            follow_links: false,
            xdev: false,
            level: None,
            file_limit: None,
            no_report: false,
            output_file: None,
            patterns: Vec::new(),
            ipatterns: Vec::new(),
            sort: SortKey::Name,
            top: TopSort::Neither,
            reverse: false,
            use_ctime: false,
            show_perms: false,
            show_uid: false,
            show_gid: false,
            show_size: false,
            human: false,
            si: false,
            show_date: false,
            timefmt: None,
            classify: false,
            qmark: false,
            no_escape: false,
            quote: false,
            show_inode: false,
            show_device: false,
            du: false,
            force_color: false,
            no_color: false,
            noindent: false,
            ansilines: false,
            output: OutputFormat::Text,
            host: None,
            htmloffset: false,
            title: None,
            nolinks: false,
            hintro: None,
            houtro: None,
            rerun: false,
            ignore_case: false,
            prune: false,
            matchdirs: false,
            gitignore: false,
            gitfile: None,
            info: false,
            infofile: None,
            charset: None,
        };
        assert(r@.paths =~= Seq::<Seq<u8>>::empty());
        assert(r@.patterns =~= Seq::<Seq<u8>>::empty());
        assert(r@.ipatterns =~= Seq::<Seq<u8>>::empty());
        r
    }
}

/// Why parsing stopped.
pub enum CliError {
    /// Message for stderr; exit status 1.
    Usage(String),
    /// Message for stdout; exit status 0 (--help, --version).
    Help(String),
}

/// A parse error as the library reasons about it.
pub enum CliMessage {
    Usage(Seq<char>),
    Help(Seq<char>),
}

impl View for CliError {
    type V = CliMessage;

    open spec fn view(&self) -> CliMessage {
        match self {
            CliError::Usage(s) => CliMessage::Usage(s@),
            CliError::Help(s) => CliMessage::Help(s@),
        }
    }
}

pub const VERSION_TEXT: &'static str = "utree v0.1.0 - a Rust reimplementation of tree";

pub const USAGE_TEXT: &'static str = "usage: utree [-acdfghilnpqrstuvxACDFJNQRSUX] [-L level] [-P pattern]\n\
             \t[-I pattern] [-o filename] [-H baseHREF] [-T title] [--noreport]\n\
             \t[--charset[=]X] [--filelimit[=]#] [--ignore-case] [--matchdirs]\n\
             \t[--gitignore] [--info] [--infofile[=]file] [--prune] [--inodes]\n\
             \t[--device] [--du] [--si] [--timefmt[=]fmt] [--sort[=]X]\n\
             \t[--dirsfirst] [--filesfirst] [--nolinks] [--hintro[=]file]\n\
             \t[--houtro[=]file] [--help] [--version] [--] [directory ...]";

/// "utree: Missing argument to OPTION option."
pub open spec fn missing_argument_text(option: Seq<char>) -> Seq<char> {
    "utree: Missing argument to "@ + option + " option."@
}

/// "utree: tree option OPTION is not supported yet (see COMPATIBILITY.md)."
pub open spec fn not_supported_text(option: Seq<char>) -> Seq<char> {
    "utree: tree option "@ + option + " is not supported yet (see COMPATIBILITY.md)."@
}

/// The message for an empty `--opt=`.
pub open spec fn missing_eq_text(name: Seq<char>) -> Seq<char> {
    "utree: Missing argument to "@ + name + "="@
}

/// The message for an unknown long option.
pub open spec fn invalid_long_text(name: Seq<char>) -> Seq<char> {
    "utree: Invalid argument `"@ + name + "'.\n"@ + USAGE_TEXT@
}

/// The message for an unknown short flag.
pub open spec fn invalid_short_text(flag: u8) -> Seq<char> {
    "utree: Invalid argument -`"@ + seq![flag as char] + "'.\n"@ + USAGE_TEXT@
}

/// The message for an unknown sort type.
pub open spec fn bad_sort_text(v: Seq<u8>) -> Seq<char> {
    "utree: Sort type '"@ + utf8_lossy(v) + "' not valid, should be one of: name,version,size,mtime,ctime,none"@
}

/// The message for a level of zero.
pub open spec fn bad_level_text() -> Seq<char> {
    "utree: Invalid level, must be greater than 0."@
}

/// What --help prints.
pub open spec fn help_text() -> Seq<char> {
    VERSION_TEXT@ + "\n"@ + USAGE_TEXT@
}

fn missing_argument(option: &str) -> (e: CliError)
    ensures
        e@ == CliMessage::Usage(missing_argument_text(option@)),
{
    let mut s = text("utree: Missing argument to ");
    s.append(option);
    s.append(" option.");
    CliError::Usage(s)
}

fn not_supported(option: &str) -> (e: CliError)
    ensures
        e@ == CliMessage::Usage(not_supported_text(option@)),
{
    let mut s = text("utree: tree option ");
    s.append(option);
    s.append(" is not supported yet (see COMPATIBILITY.md).");
    CliError::Usage(s)
}

/// C isspace as Rust's `is_ascii_whitespace`: space, tab, newline, form
/// feed, carriage return.
pub open spec fn is_space(c: u8) -> bool {
    c == 0x20 || c == 0x09 || c == 0x0a || c == 0x0c || c == 0x0d
}

/// The number of leading whitespace bytes.
pub open spec fn leading_spaces(s: Seq<u8>) -> int
    decreases s.len(),
{
    if s.len() > 0 && is_space(s[0]) {
        1 + leading_spaces(s.skip(1))
    } else {
        0
    }
}

/// The value of `c` as a digit in `radix` (up to 36), if it is one.
pub open spec fn digit_value(c: u8, radix: u64) -> Option<u64> {
    let v: int = if 0x30 <= c <= 0x39 {
        c - 0x30
    } else if 0x61 <= c <= 0x7a {
        c - 0x61 + 10
    } else if 0x41 <= c <= 0x5a {
        c - 0x41 + 10
    } else {
        36
    };
    if v < radix { Some(v as u64) } else { None }
}

/// `acc * radix + d`, or `u64::MAX` when that does not fit: C `strtoul`
/// saturates at the largest value.
pub open spec fn saturating_step(acc: u64, radix: u64, d: u64) -> u64 {
    if acc * radix + d > u64::MAX { u64::MAX } else { (acc * radix + d) as u64 }
}

/// Accumulate the leading digits of `ds` onto `acc`, saturating at
/// `u64::MAX`.
pub open spec fn fold_radix(ds: Seq<u8>, radix: u64, acc: u64) -> u64
    decreases ds.len(),
{
    if ds.len() > 0 && digit_value(ds[0], radix) is Some {
        fold_radix(ds.skip(1), radix, saturating_step(acc, radix, digit_value(ds[0], radix)->0))
    } else {
        acc
    }
}

/// C `strtoul(s, NULL, 0)`: optional whitespace, then `0x`/`0X` for hex,
/// a leading `0` for octal, else decimal; 0 when nothing parses.
pub open spec fn spec_strtoul0(s: Seq<u8>) -> u64 {
    let t = s.skip(leading_spaces(s));
    if t.len() >= 2 && t[0] == 0x30 && (t[1] == 0x78 || t[1] == 0x58) {
        fold_radix(t.skip(2), 16, 0)
    } else if t.len() > 1 && t[0] == 0x30 {
        fold_radix(t.skip(1), 8, 0)
    } else {
        fold_radix(t, 10, 0)
    }
}

fn skip_spaces(s: &[u8]) -> (n: usize)
    ensures
        n == leading_spaces(s@),
        n <= s@.len(),
{
    let mut n: usize = 0;
    assert(s@.skip(0) =~= s@);
    while n < s.len() && (s[n] == 0x20 || s[n] == 0x09 || s[n] == 0x0a || s[n] == 0x0c || s[n] == 0x0d)
        invariant
            n <= s@.len(),
            leading_spaces(s@.skip(n as int)) + n == leading_spaces(s@),
        decreases s@.len() - n,
    {
        assert(s@.skip(n as int).skip(1) =~= s@.skip(n + 1));
        n = n + 1;
    }
    n
}

fn digit_of(c: u8, radix: u64) -> (r: Option<u64>)
    requires
        radix <= 36,
    ensures
        r == digit_value(c, radix),
{
    let v: u64 = if 0x30 <= c && c <= 0x39 {
        (c - 0x30) as u64
    } else if 0x61 <= c && c <= 0x7a {
        (c - 0x61 + 10) as u64
    } else if 0x41 <= c && c <= 0x5a {
        (c - 0x41 + 10) as u64
    } else {
        36
    };
    if v < radix { Some(v) } else { None }
}

fn fold_digits(s: &[u8], start: usize, radix: u64) -> (r: u64)
    requires
        start <= s@.len(),
        radix <= 36,
    ensures
        r == fold_radix(s@.skip(start as int), radix, 0),
{
    let mut value: u64 = 0;
    let mut i: usize = start;
    while i < s.len()
        invariant
            start <= i <= s@.len(),
            radix <= 36,
            fold_radix(s@.skip(i as int), radix, value) == fold_radix(s@.skip(start as int), radix, 0),
        decreases s@.len() - i,
    {
        assert(s@.skip(i as int).skip(1) =~= s@.skip(i + 1));
        match digit_of(s[i], radix) {
            Some(d) => {
                assert((value as int) * (radix as int) <= 0xffff_ffff_ffff_ffff * 36) by (nonlinear_arith)
                    requires
                        value <= 0xffff_ffff_ffff_ffffu64,
                        radix <= 36,
                ;
                let next: u128 = (value as u128) * (radix as u128) + (d as u128);
                value = if next > 0xffff_ffff_ffff_ffffu128 { u64::MAX } else { next as u64 };
            },
            None => {
                return value;
            },
        }
        i = i + 1;
    }
    value
}

/// C `strtoul(s, NULL, 0)`.
fn strtoul0(s: &[u8]) -> (r: u64)
    ensures
        r == spec_strtoul0(s@),
{
    let ws = skip_spaces(s);
    let n = s.len();
    if n - ws >= 2 && s[ws] == 0x30 && (s[ws + 1] == 0x78 || s[ws + 1] == 0x58) {
        assert(s@.skip(ws as int).skip(2) =~= s@.skip(ws + 2));
        fold_digits(s, ws + 2, 16)
    } else if n - ws > 1 && s[ws] == 0x30 {
        assert(s@.skip(ws as int).skip(1) =~= s@.skip(ws + 1));
        fold_digits(s, ws + 1, 8)
    } else {
        fold_digits(s, ws, 10)
    }
}

/// Accumulate leading decimal digits onto `acc`, with wrapping arithmetic.
pub open spec fn fold_decimal(ds: Seq<u8>, acc: i64) -> i64
    decreases ds.len(),
{
    if ds.len() > 0 && 0x30 <= ds[0] <= 0x39 {
        fold_decimal(ds.skip(1), acc.wrapping_mul(10).wrapping_add((ds[0] - 0x30) as i64))
    } else {
        acc
    }
}

/// C `atoi`: optional whitespace and sign, then decimal digits, else 0.
/// `None` where negating the accumulated value overflows, on which the
/// negation panics.
pub open spec fn spec_atoi(s: Seq<u8>) -> Option<i64> {
    let t = s.skip(leading_spaces(s));
    let neg = t.len() > 0 && t[0] == 0x2d;
    let digits = if t.len() > 0 && (t[0] == 0x2d || t[0] == 0x2b) { t.skip(1) } else { t };
    let v = fold_decimal(digits, 0);
    if neg {
        if v == i64::MIN { None } else { Some(-v as i64) }
    } else {
        Some(v)
    }
}

fn atoi(s: &[u8]) -> (r: Option<i64>)
    ensures
        r == spec_atoi(s@),
{
    let ws = skip_spaces(s);
    let mut i = ws;
    let neg = i < s.len() && s[i] == 0x2d;
    if i < s.len() && (s[i] == 0x2d || s[i] == 0x2b) {
        assert(s@.skip(ws as int).skip(1) =~= s@.skip(ws + 1));
        i = i + 1;
    }
    let ghost start = i;
    let mut value: i64 = 0;
    while i < s.len() && 0x30 <= s[i] && s[i] <= 0x39
        invariant
            start <= i <= s@.len(),
            fold_decimal(s@.skip(i as int), value) == fold_decimal(s@.skip(start as int), 0),
        decreases s@.len() - i,
    {
        assert(s@.skip(i as int).skip(1) =~= s@.skip(i + 1));
        value = value.wrapping_mul(10).wrapping_add((s[i] - 0x30) as i64);
        i = i + 1;
    }
    if neg {
        if value == i64::MIN {
            None
        } else {
            Some(-value)
        }
    } else {
        Some(value)
    }
}

/// -L's argument: `strtoul(text, NULL, 0)`, which must not be 0.
pub open spec fn spec_parse_level(t: Seq<u8>) -> Result<usize, CliMessage> {
    let v = spec_strtoul0(t);
    if v == 0 {
        Err(CliMessage::Usage(bad_level_text()))
    } else {
        Ok(v as usize)
    }
}

fn parse_level(t: &[u8]) -> (r: Result<usize, CliError>)
    ensures
        match r {
            Ok(l) => spec_parse_level(t@) == Ok::<usize, CliMessage>(l),
            Err(e) => spec_parse_level(t@) == Err::<usize, CliMessage>(e@),
        },
{
    let level = strtoul0(t);
    if level == 0 {
        return Err(CliError::Usage(text("utree: Invalid level, must be greater than 0.")));
    }
    Ok(level as usize)
}

/// What reading one option does: go on with new options from argument
/// `next`, stop with an error, or panic.
pub enum StepSpec {
    Next(OptionsView, int),
    Fail(CliMessage),
    Aborts,
}

/// The option name of a long argument: everything before the first `=`.
pub open spec fn long_name(arg: Seq<u8>) -> Seq<u8> {
    arg.take(find_byte(arg, 0x3d, 0))
}

/// The value written after the first `=`, if there is one.
pub open spec fn long_inline(arg: Seq<u8>) -> Option<Seq<u8>> {
    let e = find_byte(arg, 0x3d, 0);
    if e < arg.len() { Some(arg.skip(e + 1)) } else { None }
}

/// The value of long option `args[i]`: written after `=` (an empty one is
/// an error), else the next argument.
pub open spec fn long_value(args: Seq<Seq<u8>>, i: int) -> Result<(Seq<u8>, int), CliMessage> {
    let name = long_name(args[i]);
    match long_inline(args[i]) {
        Some(v) => if v.len() == 0 {
            Err(CliMessage::Usage(missing_eq_text(utf8_lossy(name))))
        } else {
            Ok((v, i + 1))
        },
        None => if i + 1 < args.len() {
            Ok((args[i + 1], i + 2))
        } else {
            Err(CliMessage::Usage(missing_argument_text(utf8_lossy(name))))
        },
    }
}

/// The sort key a (lower-cased) --sort value names.
pub open spec fn sort_key_named(v: Seq<u8>) -> Option<SortKey> {
    if v == lit("name") {
        Some(SortKey::Name)
    } else if v == lit("version") {
        Some(SortKey::Version)
    } else if v == lit("size") {
        Some(SortKey::Size)
    } else if v == lit("mtime") {
        Some(SortKey::Mtime)
    } else if v == lit("ctime") {
        Some(SortKey::Ctime)
    } else if v == lit("none") {
        Some(SortKey::Unsorted)
    } else {
        None
    }
}

/// tree options that are refused with an explicit error.
pub open spec fn unsupported_long(display: Seq<char>) -> bool {
    ||| display == "--fromfile"@
    ||| display == "--fromtabfile"@
    ||| display == "--metafirst"@
    ||| display == "--condense"@
    ||| display == "--compress"@
    ||| display == "--hyperlink"@
    ||| display == "--scheme"@
    ||| display == "--authority"@
    ||| display == "--acl"@
    ||| display == "--selinux"@
    ||| display == "--fflinks"@
    ||| display == "--opt-toggle"@
}

/// The options that only switch something on, short or long.
#[derive(Clone, Copy)]
pub enum Switch {
    AllFiles,
    DirsOnly,
    ShowPerms,
    ShowUid,
    ShowGid,
    ShowSize,
    Human,
    ShowDate,
    ForceColor,
    Json,
    Xml,
    Rerun,
    NoColor,
    NoIndent,
    AnsiLines,
    Ibm437,
    Classify,
    Qmark,
    NoEscape,
    Quote,
    SortVersion,
    SortMtime,
    SortCtime,
    Unsorted,
    Reverse,
    FullPath,
    FollowLinks,
    Xdev,
    NoReport,
    Inodes,
    Device,
    Si,
    Du,
    NoLinks,
    DirsFirst,
    FilesFirst,
    Prune,
    MatchDirs,
    GitIgnore,
    Info,
    IgnoreCase,
}

/// What a switch sets.
pub open spec fn apply_switch(sw: Switch, o: OptionsView) -> OptionsView {
    match sw {
        Switch::AllFiles => OptionsView { all_files: true, ..o },
        Switch::DirsOnly => OptionsView { dirs_only: true, ..o },
        Switch::ShowPerms => OptionsView { show_perms: true, ..o },
        Switch::ShowUid => OptionsView { show_uid: true, ..o },
        Switch::ShowGid => OptionsView { show_gid: true, ..o },
        Switch::ShowSize => OptionsView { show_size: true, ..o },
        Switch::Human => OptionsView { human: true, show_size: true, ..o },
        Switch::ShowDate => OptionsView { show_date: true, ..o },
        Switch::ForceColor => OptionsView { force_color: true, ..o },
        Switch::Json => OptionsView { output: OutputFormat::Json, ..o },
        Switch::Xml => OptionsView { output: OutputFormat::Xml, ..o },
        Switch::Rerun => OptionsView { rerun: true, ..o },
        Switch::NoColor => OptionsView { no_color: true, ..o },
        Switch::NoIndent => OptionsView { noindent: true, ..o },
        Switch::AnsiLines => OptionsView { ansilines: true, ..o },
        Switch::Ibm437 => OptionsView { charset: Some(lit("IBM437")), ..o },
        Switch::Classify => OptionsView { classify: true, ..o },
        Switch::Qmark => OptionsView { qmark: true, ..o },
        Switch::NoEscape => OptionsView { no_escape: true, ..o },
        Switch::Quote => OptionsView { quote: true, ..o },
        Switch::SortVersion => OptionsView { sort: SortKey::Version, ..o },
        Switch::SortMtime => OptionsView { sort: SortKey::Mtime, ..o },
        Switch::SortCtime => OptionsView { sort: SortKey::Ctime, use_ctime: true, ..o },
        Switch::Unsorted => OptionsView { sort: SortKey::Unsorted, ..o },
        Switch::Reverse => OptionsView { reverse: true, ..o },
        Switch::FullPath => OptionsView { full_path: true, ..o },
        Switch::FollowLinks => OptionsView { follow_links: true, ..o },
        Switch::Xdev => OptionsView { xdev: true, ..o },
        Switch::NoReport => OptionsView { no_report: true, ..o },
        Switch::Inodes => OptionsView { show_inode: true, ..o },
        Switch::Device => OptionsView { show_device: true, ..o },
        Switch::Si => OptionsView { si: true, human: true, show_size: true, ..o },
        Switch::Du => OptionsView { du: true, show_size: true, ..o },
        Switch::NoLinks => OptionsView { nolinks: true, ..o },
        Switch::DirsFirst => OptionsView { top: TopSort::DirsFirst, ..o },
        Switch::FilesFirst => OptionsView { top: TopSort::FilesFirst, ..o },
        Switch::Prune => OptionsView { prune: true, ..o },
        Switch::MatchDirs => OptionsView { matchdirs: true, ..o },
        Switch::GitIgnore => OptionsView { gitignore: true, ..o },
        Switch::Info => OptionsView { info: true, ..o },
        Switch::IgnoreCase => OptionsView { ignore_case: true, ..o },
    }
}

/// The options that store the value that follows them.
#[derive(Clone, Copy)]
pub enum Valued {
    Timefmt,
    Hintro,
    Houtro,
    GitFile,
    InfoFile,
    Charset,
    Title,
    OutputFile,
    Pattern,
    IPattern,
}

/// What a value-taking option sets.
pub open spec fn apply_valued(k: Valued, v: Seq<u8>, o: OptionsView) -> OptionsView {
    match k {
        Valued::Timefmt => OptionsView { timefmt: Some(v), show_date: true, ..o },
        Valued::Hintro => OptionsView { hintro: Some(v), ..o },
        Valued::Houtro => OptionsView { houtro: Some(v), ..o },
        Valued::GitFile => OptionsView { gitignore: true, gitfile: Some(v), ..o },
        Valued::InfoFile => OptionsView { infofile: Some(v), ..o },
        Valued::Charset => OptionsView { charset: Some(v), ..o },
        Valued::Title => OptionsView { title: Some(v), ..o },
        Valued::OutputFile => OptionsView { output_file: Some(v), ..o },
        Valued::Pattern => OptionsView { patterns: o.patterns.push(v), ..o },
        Valued::IPattern => OptionsView { ipatterns: o.ipatterns.push(v), ..o },
    }
}

/// -H: HTML output with the given base HREF; a leading '-' is dropped and
/// asks for the local path prefix to be stripped.
pub open spec fn apply_host(v: Seq<u8>, o: OptionsView) -> OptionsView {
    if v.len() > 0 && v[0] == 0x2d {
        OptionsView { output: OutputFormat::Html, htmloffset: true, host: Some(v.skip(1)), ..o }
    } else {
        OptionsView { output: OutputFormat::Html, host: Some(v), ..o }
    }
}

/// -L: the level.
pub open spec fn apply_level(l: usize, o: OptionsView) -> OptionsView {
    OptionsView { level: Some(l), ..o }
}

/// --sort: the sort key.
pub open spec fn apply_sort(k: SortKey, o: OptionsView) -> OptionsView {
    OptionsView { sort: k, ..o }
}

/// --filelimit: a limit that is not positive disables the check.
pub open spec fn apply_file_limit(l: i64, o: OptionsView) -> OptionsView {
    OptionsView { file_limit: if l > 0 { Some(l) } else { None }, ..o }
}

/// A directory to list.
pub open spec fn apply_path(p: Seq<u8>, o: OptionsView) -> OptionsView {
    OptionsView { paths: o.paths.push(p), ..o }
}

/// What a long option name selects.
pub enum LongKind {
    Help,
    Version,
    Switch(Switch),
    Valued(Valued),
    Sort,
    FileLimit,
    Other,
}

/// The long option a name selects.
pub open spec fn long_kind(name: Seq<u8>) -> LongKind {
    if name == lit("--help") {
        LongKind::Help
    }     else if name == lit("--version") {
        LongKind::Version
    }     else if name == lit("--noreport") {
        LongKind::Switch(Switch::NoReport)
    }     else if name == lit("--inodes") {
        LongKind::Switch(Switch::Inodes)
    }     else if name == lit("--device") {
        LongKind::Switch(Switch::Device)
    }     else if name == lit("--si") {
        LongKind::Switch(Switch::Si)
    }     else if name == lit("--du") {
        LongKind::Switch(Switch::Du)
    }     else if name == lit("--timefmt") {
        LongKind::Valued(Valued::Timefmt)
    }     else if name == lit("--nolinks") {
        LongKind::Switch(Switch::NoLinks)
    }     else if name == lit("--hintro") {
        LongKind::Valued(Valued::Hintro)
    }     else if name == lit("--houtro") {
        LongKind::Valued(Valued::Houtro)
    }     else if name == lit("--dirsfirst") {
        LongKind::Switch(Switch::DirsFirst)
    }     else if name == lit("--filesfirst") {
        LongKind::Switch(Switch::FilesFirst)
    }     else if name == lit("--sort") {
        LongKind::Sort
    }     else if name == lit("--prune") {
        LongKind::Switch(Switch::Prune)
    }     else if name == lit("--matchdirs") {
        LongKind::Switch(Switch::MatchDirs)
    }     else if name == lit("--gitignore") {
        LongKind::Switch(Switch::GitIgnore)
    }     else if name == lit("--gitfile") {
        LongKind::Valued(Valued::GitFile)
    }     else if name == lit("--info") {
        LongKind::Switch(Switch::Info)
    }     else if name == lit("--infofile") {
        LongKind::Valued(Valued::InfoFile)
    }     else if name == lit("--ignore-case") {
        LongKind::Switch(Switch::IgnoreCase)
    }     else if name == lit("--filelimit") {
        LongKind::FileLimit
    }     else if name == lit("--charset") {
        LongKind::Valued(Valued::Charset)
    } else {
        LongKind::Other
    }
}

/// What the long option `args[i]` does to `o`.
pub open spec fn long_step(args: Seq<Seq<u8>>, i: int, o: OptionsView) -> StepSpec {
    let name = long_name(args[i]);
    match long_kind(name) {
        LongKind::Help => StepSpec::Fail(CliMessage::Help(help_text())),
        LongKind::Version => StepSpec::Fail(CliMessage::Help(VERSION_TEXT@)),
        LongKind::Switch(sw) => StepSpec::Next(apply_switch(sw, o), i + 1),
        LongKind::Valued(k) => match long_value(args, i) {
            Ok((v, nx)) => StepSpec::Next(apply_valued(k, v, o), nx),
            Err(e) => StepSpec::Fail(e),
        },
        LongKind::Sort => match long_value(args, i) {
            Ok((v, nx)) => match sort_key_named(ascii_lower(v)) {
                Some(k) => StepSpec::Next(apply_sort(k, o), nx),
                None => StepSpec::Fail(CliMessage::Usage(bad_sort_text(v))),
            },
            Err(e) => StepSpec::Fail(e),
        },
        LongKind::FileLimit => match long_value(args, i) {
            Ok((v, nx)) => match spec_atoi(v) {
                Some(l) => StepSpec::Next(apply_file_limit(l, o), nx),
                None => StepSpec::Aborts,
            },
            Err(e) => StepSpec::Fail(e),
        },
        LongKind::Other => if unsupported_long(utf8_lossy(name)) {
            StepSpec::Fail(CliMessage::Usage(not_supported_text(utf8_lossy(name))))
        } else {
            StepSpec::Fail(CliMessage::Usage(invalid_long_text(utf8_lossy(name))))
        },
    }
}

/// What a short flag selects.
pub enum ShortKind {
    Switch(Switch),
    Valued(Valued),
    Host,
    Level,
    Invalid,
}

/// The short flag a byte selects.
pub open spec fn short_kind(flag: u8) -> ShortKind {
    if flag == 0x61 {
        ShortKind::Switch(Switch::AllFiles)
    }     else if flag == 0x64 {
        ShortKind::Switch(Switch::DirsOnly)
    }     else if flag == 0x70 {
        ShortKind::Switch(Switch::ShowPerms)
    }     else if flag == 0x75 {
        ShortKind::Switch(Switch::ShowUid)
    }     else if flag == 0x67 {
        ShortKind::Switch(Switch::ShowGid)
    }     else if flag == 0x73 {
        ShortKind::Switch(Switch::ShowSize)
    }     else if flag == 0x68 {
        ShortKind::Switch(Switch::Human)
    }     else if flag == 0x44 {
        ShortKind::Switch(Switch::ShowDate)
    }     else if flag == 0x43 {
        ShortKind::Switch(Switch::ForceColor)
    }     else if flag == 0x4a {
        ShortKind::Switch(Switch::Json)
    }     else if flag == 0x58 {
        ShortKind::Switch(Switch::Xml)
    }     else if flag == 0x48 {
        ShortKind::Host
    }     else if flag == 0x54 {
        ShortKind::Valued(Valued::Title)
    }     else if flag == 0x52 {
        ShortKind::Switch(Switch::Rerun)
    }     else if flag == 0x6e {
        ShortKind::Switch(Switch::NoColor)
    }     else if flag == 0x69 {
        ShortKind::Switch(Switch::NoIndent)
    }     else if flag == 0x41 {
        ShortKind::Switch(Switch::AnsiLines)
    }     else if flag == 0x53 {
        ShortKind::Switch(Switch::Ibm437)
    }     else if flag == 0x46 {
        ShortKind::Switch(Switch::Classify)
    }     else if flag == 0x71 {
        ShortKind::Switch(Switch::Qmark)
    }     else if flag == 0x4e {
        ShortKind::Switch(Switch::NoEscape)
    }     else if flag == 0x51 {
        ShortKind::Switch(Switch::Quote)
    }     else if flag == 0x76 {
        ShortKind::Switch(Switch::SortVersion)
    }     else if flag == 0x74 {
        ShortKind::Switch(Switch::SortMtime)
    }     else if flag == 0x63 {
        ShortKind::Switch(Switch::SortCtime)
    }     else if flag == 0x55 {
        ShortKind::Switch(Switch::Unsorted)
    }     else if flag == 0x72 {
        ShortKind::Switch(Switch::Reverse)
    }     else if flag == 0x66 {
        ShortKind::Switch(Switch::FullPath)
    }     else if flag == 0x6c {
        ShortKind::Switch(Switch::FollowLinks)
    }     else if flag == 0x78 {
        ShortKind::Switch(Switch::Xdev)
    }     else if flag == 0x4c {
        ShortKind::Level
    }     else if flag == 0x50 {
        ShortKind::Valued(Valued::Pattern)
    }     else if flag == 0x49 {
        ShortKind::Valued(Valued::IPattern)
    }     else if flag == 0x6f {
        ShortKind::Valued(Valued::OutputFile)
    } else {
        ShortKind::Invalid
    }
}

/// The number of ASCII digits in `s` from `from` on.
pub open spec fn digit_run(s: Seq<u8>, from: int) -> int
    decreases s.len() - from,
{
    if from < 0 || from >= s.len() || !(0x30 <= s[from] <= 0x39) {
        0
    } else {
        1 + digit_run(s, from + 1)
    }
}

pub proof fn lemma_digit_run(s: Seq<u8>, from: int)
    requires
        0 <= from,
    ensures
        0 <= digit_run(s, from),
        from < s.len() ==> from + digit_run(s, from) <= s.len(),
        from >= s.len() ==> digit_run(s, from) == 0,
    decreases s.len() - from,
{
    if from < s.len() && 0x30 <= s[from] <= 0x39 {
        lemma_digit_run(s, from + 1);
    }
}

/// The name under which a short flag is reported: `-` and the flag.
pub open spec fn short_name(flag: u8) -> Seq<char> {
    "-"@ + seq![flag as char]
}

/// The value of a short flag: the next unread argument.
pub open spec fn short_value(args: Seq<Seq<u8>>, next: int, flag: u8) -> Result<(Seq<u8>, int), CliMessage> {
    if 0 <= next < args.len() {
        Ok((args[next], next + 1))
    } else {
        Err(CliMessage::Usage(missing_argument_text(short_name(flag))))
    }
}

/// The options a cluster of short flags has built when it stops: the
/// flags before a failing one have taken effect, as tree applies them one
/// by one.
pub open spec fn short_stop_options(args: Seq<Seq<u8>>, arg: Seq<u8>, j: int, next: int, o: OptionsView) -> OptionsView
    decreases arg.len() - j,
{
    if j < 0 || j >= arg.len() {
        o
    } else {
        let flag = arg[j];
        match short_kind(flag) {
            ShortKind::Switch(sw) => short_stop_options(args, arg, j + 1, next, apply_switch(sw, o)),
            ShortKind::Valued(k) => match short_value(args, next, flag) {
                Ok((v, nx)) => short_stop_options(args, arg, j + 1, nx, apply_valued(k, v, o)),
                Err(e) => o,
            },
            ShortKind::Host => match short_value(args, next, flag) {
                Ok((v, nx)) => short_stop_options(args, arg, j + 1, nx, apply_host(v, o)),
                Err(e) => o,
            },
            ShortKind::Level => {
                let d = digit_run(arg, j + 1);
                proof {
                    lemma_digit_run(arg, j + 1);
                }
                if d > 0 {
                    match spec_parse_level(arg.subrange(j + 1, j + 1 + d)) {
                        Ok(l) => short_stop_options(args, arg, j + 1 + d, next, apply_level(l, o)),
                        Err(e) => o,
                    }
                } else {
                    match short_value(args, next, flag) {
                        Ok((v, nx)) => match spec_parse_level(v) {
                            Ok(l) => short_stop_options(args, arg, j + 1, nx, apply_level(l, o)),
                            Err(e) => o,
                        },
                        Err(e) => o,
                    }
                }
            },
            ShortKind::Invalid => o,
        }
    }
}

/// Read the flags of `arg` from byte `j` on; `next` is the next unread
/// argument, where flags that take a value find it. -L takes digits
/// written right after it in place.
pub open spec fn short_steps(args: Seq<Seq<u8>>, arg: Seq<u8>, j: int, next: int, o: OptionsView) -> StepSpec
    decreases arg.len() - j,
{
    if j < 0 || j >= arg.len() {
        StepSpec::Next(o, next)
    } else {
        let flag = arg[j];
        match short_kind(flag) {
            ShortKind::Switch(sw) => short_steps(args, arg, j + 1, next, apply_switch(sw, o)),
            ShortKind::Valued(k) => match short_value(args, next, flag) {
                Ok((v, nx)) => short_steps(args, arg, j + 1, nx, apply_valued(k, v, o)),
                Err(e) => StepSpec::Fail(e),
            },
            ShortKind::Host => match short_value(args, next, flag) {
                Ok((v, nx)) => short_steps(args, arg, j + 1, nx, apply_host(v, o)),
                Err(e) => StepSpec::Fail(e),
            },
            ShortKind::Level => {
                let d = digit_run(arg, j + 1);
                proof {
                    lemma_digit_run(arg, j + 1);
                }
                if d > 0 {
                    match spec_parse_level(arg.subrange(j + 1, j + 1 + d)) {
                        Ok(l) => short_steps(args, arg, j + 1 + d, next, apply_level(l, o)),
                        Err(e) => StepSpec::Fail(e),
                    }
                } else {
                    match short_value(args, next, flag) {
                        Ok((v, nx)) => match spec_parse_level(v) {
                            Ok(l) => short_steps(args, arg, j + 1, nx, apply_level(l, o)),
                            Err(e) => StepSpec::Fail(e),
                        },
                        Err(e) => StepSpec::Fail(e),
                    }
                }
            },
            ShortKind::Invalid => StepSpec::Fail(CliMessage::Usage(invalid_short_text(flag))),
        }
    }
}

pub proof fn lemma_short_steps_next(args: Seq<Seq<u8>>, arg: Seq<u8>, j: int, next: int, o: OptionsView)
    requires
        0 <= j,
        0 <= next <= args.len(),
    ensures
        short_steps(args, arg, j, next, o) matches StepSpec::Next(_, nx) ==> next <= nx <= args.len(),
    decreases arg.len() - j,
{
    if j < arg.len() {
        let flag = arg[j];
        match short_kind(flag) {
            ShortKind::Switch(sw) => lemma_short_steps_next(args, arg, j + 1, next, apply_switch(sw, o)),
            ShortKind::Valued(k) => {
                if 0 <= next < args.len() {
                    lemma_short_steps_next(args, arg, j + 1, next + 1, apply_valued(k, args[next], o));
                }
            },
            ShortKind::Host => {
                if 0 <= next < args.len() {
                    lemma_short_steps_next(args, arg, j + 1, next + 1, apply_host(args[next], o));
                }
            },
            ShortKind::Level => {
                lemma_digit_run(arg, j + 1);
                let d = digit_run(arg, j + 1);
                if d > 0 {
                    if let Ok(l) = spec_parse_level(arg.subrange(j + 1, j + 1 + d)) {
                        lemma_short_steps_next(args, arg, j + 1 + d, next, apply_level(l, o));
                    }
                } else if 0 <= next < args.len() {
                    if let Ok(l) = spec_parse_level(args[next]) {
                        lemma_short_steps_next(args, arg, j + 1, next + 1, apply_level(l, o));
                    }
                }
            },
            ShortKind::Invalid => {},
        }
    }
}

pub proof fn lemma_long_step_next(args: Seq<Seq<u8>>, i: int, o: OptionsView)
    requires
        0 <= i < args.len(),
    ensures
        long_step(args, i, o) matches StepSpec::Next(_, nx) ==> i < nx <= args.len(),
{
}

/// The step option argument `i` takes: a long option when it starts with
/// `--`, else a cluster of short flags.
pub closed spec fn option_step(args: Seq<Seq<u8>>, i: int, o: OptionsView) -> StepSpec {
    let arg = args[i];
    if arg.len() > 1 && arg[1] == 0x2d {
        long_step(args, i, o)
    } else {
        short_steps(args, arg, 1, i + 1, o)
    }
}

/// What option_step does, spelled out.
pub proof fn lemma_option_step_unfold(args: Seq<Seq<u8>>, i: int, o: OptionsView)
    ensures
        option_step(args, i, o) == (if args[i].len() > 1 && args[i][1] == 0x2d {
            long_step(args, i, o)
        } else {
            short_steps(args, args[i], 1, i + 1, o)
        }),
{
}

/// An option step moves past its own argument and stays within the list.
pub proof fn lemma_option_step_next(args: Seq<Seq<u8>>, i: int, o: OptionsView)
    requires
        0 <= i < args.len(),
    ensures
        option_step(args, i, o) matches StepSpec::Next(_, nx) ==> i < nx <= args.len(),
{
    lemma_long_step_next(args, i, o);
    lemma_short_steps_next(args, args[i], 1, i + 1, o);
}

/// The outcome of parsing: options, an error, or a panic (a --filelimit
/// value whose negation overflows).
pub enum ParseSpec {
    Parsed(OptionsView),
    Failed(CliMessage),
    Aborts,
}

/// With no path, list the current directory.
pub open spec fn default_path(o: OptionsView) -> OptionsView {
    if o.paths.len() == 0 { apply_path(lit("."), o) } else { o }
}

/// -d turns --prune off.
pub open spec fn dirs_unprune(o: OptionsView) -> OptionsView {
    if o.dirs_only { OptionsView { prune: false, ..o } } else { o }
}

/// -U turns --dirsfirst / --filesfirst off.
pub open spec fn unsorted_untop(o: OptionsView) -> OptionsView {
    if o.sort == SortKey::Unsorted { OptionsView { top: TopSort::Neither, ..o } } else { o }
}

/// -R needs -L.
pub open spec fn rerun_needs_level(o: OptionsView) -> OptionsView {
    if o.level is None { OptionsView { rerun: false, ..o } } else { o }
}

/// The adjustments made once every argument is read.
pub closed spec fn finish_options(o: OptionsView) -> OptionsView {
    rerun_needs_level(unsorted_untop(dirs_unprune(default_path(o))))
}

/// Parse `args` from index `i` on: options until `--`, anything not
/// starting with `-` (and a lone `-`) a path, everything after `--` a path.
pub open spec fn parse_from(args: Seq<Seq<u8>>, i: int, only_paths: bool, o: OptionsView) -> ParseSpec
    decreases args.len() - i,
{
    if i < 0 || i >= args.len() {
        ParseSpec::Parsed(finish_options(o))
    } else {
        let arg = args[i];
        if only_paths || !(arg.len() > 0 && arg[0] == 0x2d) || arg == lit("-") {
            parse_from(args, i + 1, only_paths, apply_path(arg, o))
        } else if arg == lit("--") {
            parse_from(args, i + 1, true, o)
        } else {
            let step = option_step(args, i, o);
            proof {
                lemma_option_step_next(args, i, o);
            }
            match step {
                StepSpec::Next(o2, nx) => parse_from(args, nx, only_paths, o2),
                StepSpec::Fail(m) => ParseSpec::Failed(m),
                StepSpec::Aborts => ParseSpec::Aborts,
            }
        }
    }
}

/// What parsing the arguments gives.
pub open spec fn spec_parse(args: Seq<Seq<u8>>) -> ParseSpec {
    parse_from(args, 0, false, default_options())
}

/// What always holds of parsed options: there is a path to list, -d
/// leaves --prune off, -U leaves no --dirsfirst / --filesfirst, and -R
/// is on only together with -L.
pub open spec fn finished(o: OptionsView) -> bool {
    &&& o.paths.len() >= 1
    &&& o.dirs_only ==> !o.prune
    &&& o.sort == SortKey::Unsorted ==> o.top == TopSort::Neither
    &&& o.rerun ==> o.level is Some
}

proof fn lemma_default_path_nonempty(o: OptionsView)
    ensures
        default_path(o).paths.len() >= 1,
{
}

proof fn lemma_dirs_unprune(o: OptionsView)
    ensures
        dirs_unprune(o).paths == o.paths,
        dirs_unprune(o).dirs_only ==> !dirs_unprune(o).prune,
{
}

proof fn lemma_unsorted_untop_top(o: OptionsView)
    ensures
        unsorted_untop(o).sort == SortKey::Unsorted ==> unsorted_untop(o).top == TopSort::Neither,
{
}

proof fn lemma_unsorted_untop_keeps(o: OptionsView)
    ensures
        unsorted_untop(o).paths == o.paths,
{
}

proof fn lemma_unsorted_untop_keeps_prune(o: OptionsView)
    requires
        o.dirs_only ==> !o.prune,
    ensures
        unsorted_untop(o).dirs_only ==> !unsorted_untop(o).prune,
{
}

proof fn lemma_rerun_needs_level(o: OptionsView)
    ensures
        rerun_needs_level(o).paths == o.paths,
        rerun_needs_level(o).dirs_only == o.dirs_only,
        rerun_needs_level(o).prune == o.prune,
        rerun_needs_level(o).sort == o.sort,
        rerun_needs_level(o).top == o.top,
        rerun_needs_level(o).rerun ==> rerun_needs_level(o).level is Some,
{
}

/// What finish_options does, spelled out.
pub proof fn lemma_finish_options_unfold(o: OptionsView)
    ensures
        finish_options(o) == rerun_needs_level(unsorted_untop(dirs_unprune(default_path(o)))),
{
}

pub proof fn lemma_finish_options_finished(o: OptionsView)
    ensures
        finished(finish_options(o)),
{
    let a = default_path(o);
    lemma_default_path_nonempty(o);
    let b = dirs_unprune(a);
    lemma_dirs_unprune(a);
    let c = unsorted_untop(b);
    lemma_unsorted_untop_top(b);
    lemma_unsorted_untop_keeps(b);
    lemma_unsorted_untop_keeps_prune(b);
    lemma_rerun_needs_level(c);
}

/// What a step did, in exec form.
enum Stepped {
    Next(usize),
    Fail(CliError),
    Aborted,
}

/// `r` and the options `o` it left are what `s` says.
spec fn stepped_as(r: Stepped, o: OptionsView, s: StepSpec) -> bool {
    match s {
        StepSpec::Next(o2, nx) => r matches Stepped::Next(n) && n == nx && o == o2,
        StepSpec::Fail(m) => r matches Stepped::Fail(e) && e@ == m,
        StepSpec::Aborts => r is Aborted,
    }
}

fn is_unsupported_long(display: &String) -> (r: bool)
    ensures
        r == unsupported_long(display@),
{
    let names: [&str; 12] = [
        "--fromfile",
        "--fromtabfile",
        "--metafirst",
        "--condense",
        "--compress",
        "--hyperlink",
        "--scheme",
        "--authority",
        "--acl",
        "--selinux",
        "--fflinks",
        "--opt-toggle",
    ];
    let mut k: usize = 0;
    while k < 12
        invariant
            k <= 12,
            names@ == seq![
                "--fromfile",
                "--fromtabfile",
                "--metafirst",
                "--condense",
                "--compress",
                "--hyperlink",
                "--scheme",
                "--authority",
                "--acl",
                "--selinux",
                "--fflinks",
                "--opt-toggle",
            ],
            forall|j: int| 0 <= j < k ==> display@ != (#[trigger] names@[j])@,
        decreases 12 - k,
    {
        if text(names[k]) == *display {
            return true;
        }
        k = k + 1;
    }
    false
}

fn long_value_of(args: &[Vec<u8>], i: usize, name: &[u8], inline: &Option<Vec<u8>>) -> (r: Result<(Vec<u8>, usize), CliError>)
    requires
        i < args@.len(),
        name@ == long_name(args@[i as int]@),
        opt_bytes(*inline) == long_inline(args@[i as int]@),
    ensures
        match r {
            Ok((v, nx)) => long_value(lines_view(args@), i as int) == Ok::<(Seq<u8>, int), CliMessage>((v@, nx as int)),
            Err(e) => long_value(lines_view(args@), i as int) == Err::<(Seq<u8>, int), CliMessage>(e@),
        },
{
    let n = args.len();
    match inline {
        Some(v) => {
            if v.len() == 0 {
                let mut s = text("utree: Missing argument to ");
                let d = lossy(name);
                s.append(d.as_str());
                s.append("=");
                Err(CliError::Usage(s))
            } else {
                Ok((copy_bytes(v.as_slice()), i + 1))
            }
        },
        None => {
            if i + 1 < n {
                Ok((copy_bytes(args[i + 1].as_slice()), i + 2))
            } else {
                let d = lossy(name);
                Err(missing_argument(d.as_str()))
            }
        },
    }
}

fn split_long(arg: &[u8]) -> (r: (Vec<u8>, Option<Vec<u8>>))
    ensures
        r.0@ == long_name(arg@),
        opt_bytes(r.1) == long_inline(arg@),
{
    let mut e: usize = 0;
    while e < arg.len() && arg[e] != 0x3d
        invariant
            e <= arg@.len(),
            find_byte(arg@, 0x3d, e as int) == find_byte(arg@, 0x3d, 0),
        decreases arg@.len() - e,
    {
        e = e + 1;
    }
    let name = copy_prefix(arg, e);
    if e < arg.len() {
        (name, Some(copy_from(arg, e + 1)))
    } else {
        (name, None)
    }
}

fn sort_key_of(v: &[u8]) -> (r: Option<SortKey>)
    ensures
        r == sort_key_named(ascii_lower(v@)),
{
    let lower = to_ascii_lower(v);
    let l = lower.as_slice();
    if is_lit(l, "name") {
        Some(SortKey::Name)
    } else if is_lit(l, "version") {
        Some(SortKey::Version)
    } else if is_lit(l, "size") {
        Some(SortKey::Size)
    } else if is_lit(l, "mtime") {
        Some(SortKey::Mtime)
    } else if is_lit(l, "ctime") {
        Some(SortKey::Ctime)
    } else if is_lit(l, "none") {
        Some(SortKey::Unsorted)
    } else {
        None
    }
}

#[verifier::rlimit(100)]
/// The options while arguments are read; the same fields as `Options`.
struct ParseState {
    paths: Vec<Vec<u8>>,
    all_files: bool,
    dirs_only: bool,
    full_path: bool,
    follow_links: bool,
    xdev: bool,
    level: Option<usize>,
    file_limit: Option<i64>,
    no_report: bool,
    output_file: Option<Vec<u8>>,
    patterns: Vec<Vec<u8>>,
    ipatterns: Vec<Vec<u8>>,
    sort: (SortKey,),
    top: (TopSort,),
    reverse: bool,
    use_ctime: bool,
    show_perms: bool,
    show_uid: bool,
    show_gid: bool,
    show_size: bool,
    human: bool,
    si: bool,
    show_date: bool,
    timefmt: Option<Vec<u8>>,
    classify: bool,
    qmark: bool,
    no_escape: bool,
    quote: bool,
    show_inode: bool,
    show_device: bool,
    du: bool,
    force_color: bool,
    no_color: bool,
    noindent: bool,
    ansilines: bool,
    output: (OutputFormat,),
    host: Option<Vec<u8>>,
    htmloffset: bool,
    title: Option<Vec<u8>>,
    nolinks: bool,
    hintro: Option<Vec<u8>>,
    houtro: Option<Vec<u8>>,
    rerun: bool,
    ignore_case: bool,
    prune: bool,
    matchdirs: bool,
    gitignore: bool,
    gitfile: Option<Vec<u8>>,
    info: bool,
    infofile: Option<Vec<u8>>,
    charset: Option<Vec<u8>>,
}


impl View for ParseState {
    type V = OptionsView;

    closed spec fn view(&self) -> OptionsView {
        OptionsView {
            paths: lines_view(self.paths@),
            all_files: self.all_files,
            dirs_only: self.dirs_only,
            full_path: self.full_path,
            follow_links: self.follow_links,
            xdev: self.xdev,
            level: self.level,
            file_limit: self.file_limit,
            no_report: self.no_report,
            output_file: opt_bytes(self.output_file),
            patterns: lines_view(self.patterns@),
            ipatterns: lines_view(self.ipatterns@),
            sort: self.sort.0,
            top: self.top.0,
            reverse: self.reverse,
            use_ctime: self.use_ctime,
            show_perms: self.show_perms,
            show_uid: self.show_uid,
            show_gid: self.show_gid,
            show_size: self.show_size,
            human: self.human,
            si: self.si,
            show_date: self.show_date,
            timefmt: opt_bytes(self.timefmt),
            classify: self.classify,
            qmark: self.qmark,
            no_escape: self.no_escape,
            quote: self.quote,
            show_inode: self.show_inode,
            show_device: self.show_device,
            du: self.du,
            force_color: self.force_color,
            no_color: self.no_color,
            noindent: self.noindent,
            ansilines: self.ansilines,
            output: self.output.0,
            host: opt_bytes(self.host),
            htmloffset: self.htmloffset,
            title: opt_bytes(self.title),
            nolinks: self.nolinks,
            hintro: opt_bytes(self.hintro),
            houtro: opt_bytes(self.houtro),
            rerun: self.rerun,
            ignore_case: self.ignore_case,
            prune: self.prune,
            matchdirs: self.matchdirs,
            gitignore: self.gitignore,
            gitfile: opt_bytes(self.gitfile),
            info: self.info,
            infofile: opt_bytes(self.infofile),
            charset: opt_bytes(self.charset),
        }
    }
}

fn new_state() -> (r: ParseState)
    ensures
        r@ == default_options(),
{
    let r = ParseState {
        paths: Vec::new(),
        all_files: false,
        dirs_only: false,
        full_path: false,
        follow_links: false,
        xdev: false,
        level: None,
        file_limit: None,
        no_report: false,
        output_file: None,
        patterns: Vec::new(),
        ipatterns: Vec::new(),
        sort: (SortKey::Name,),
        top: (TopSort::Neither,),
        reverse: false,
        use_ctime: false,
        show_perms: false,
        show_uid: false,
        show_gid: false,
        show_size: false,
        human: false,
        si: false,
        show_date: false,
        timefmt: None,
        classify: false,
        qmark: false,
        no_escape: false,
        quote: false,
        show_inode: false,
        show_device: false,
        du: false,
        force_color: false,
        no_color: false,
        noindent: false,
        ansilines: false,
        output: (OutputFormat::Text,),
        host: None,
        htmloffset: false,
        title: None,
        nolinks: false,
        hintro: None,
        houtro: None,
        rerun: false,
        ignore_case: false,
        prune: false,
        matchdirs: false,
        gitignore: false,
        gitfile: None,
        info: false,
        infofile: None,
        charset: None,
    };
    assert(r@.paths =~= Seq::<Seq<u8>>::empty());
    assert(r@.patterns =~= Seq::<Seq<u8>>::empty());
    assert(r@.ipatterns =~= Seq::<Seq<u8>>::empty());
    r
}


/// `o` holds the options `v`, field by field.
pub open spec fn options_match(o: Options, v: OptionsView) -> bool {
    &&& lines_view(o.paths@) == v.paths
    &&& lines_view(o.patterns@) == v.patterns
    &&& lines_view(o.ipatterns@) == v.ipatterns
    &&& o.level == v.level
    &&& o.file_limit == v.file_limit
    &&& o.sort == v.sort
    &&& o.top == v.top
    &&& o.output == v.output
    &&& opt_bytes(o.output_file) == v.output_file
    &&& opt_bytes(o.timefmt) == v.timefmt
    &&& opt_bytes(o.host) == v.host
    &&& opt_bytes(o.title) == v.title
    &&& opt_bytes(o.hintro) == v.hintro
    &&& opt_bytes(o.houtro) == v.houtro
    &&& opt_bytes(o.gitfile) == v.gitfile
    &&& opt_bytes(o.infofile) == v.infofile
    &&& opt_bytes(o.charset) == v.charset
    &&& o.all_files == v.all_files
    &&& o.dirs_only == v.dirs_only
    &&& o.full_path == v.full_path
    &&& o.follow_links == v.follow_links
    &&& o.xdev == v.xdev
    &&& o.no_report == v.no_report
    &&& o.reverse == v.reverse
    &&& o.use_ctime == v.use_ctime
    &&& o.show_perms == v.show_perms
    &&& o.show_uid == v.show_uid
    &&& o.show_gid == v.show_gid
    &&& o.show_size == v.show_size
    &&& o.human == v.human
    &&& o.si == v.si
    &&& o.show_date == v.show_date
    &&& o.classify == v.classify
    &&& o.qmark == v.qmark
    &&& o.no_escape == v.no_escape
    &&& o.quote == v.quote
    &&& o.show_inode == v.show_inode
    &&& o.show_device == v.show_device
    &&& o.du == v.du
    &&& o.force_color == v.force_color
    &&& o.no_color == v.no_color
    &&& o.noindent == v.noindent
    &&& o.ansilines == v.ansilines
    &&& o.htmloffset == v.htmloffset
    &&& o.nolinks == v.nolinks
    &&& o.rerun == v.rerun
    &&& o.ignore_case == v.ignore_case
    &&& o.prune == v.prune
    &&& o.matchdirs == v.matchdirs
    &&& o.gitignore == v.gitignore
    &&& o.info == v.info
}

fn into_options(st: ParseState) -> (r: Options)
    ensures
        options_match(r, st@),
{
    let ghost s0 = st;
    let ParseState {
        paths,
        all_files,
        dirs_only,
        full_path,
        follow_links,
        xdev,
        level,
        file_limit,
        no_report,
        output_file,
        patterns,
        ipatterns,
        sort,
        top,
        reverse,
        use_ctime,
        show_perms,
        show_uid,
        show_gid,
        show_size,
        human,
        si,
        show_date,
        timefmt,
        classify,
        qmark,
        no_escape,
        quote,
        show_inode,
        show_device,
        du,
        force_color,
        no_color,
        noindent,
        ansilines,
        output,
        host,
        htmloffset,
        title,
        nolinks,
        hintro,
        houtro,
        rerun,
        ignore_case,
        prune,
        matchdirs,
        gitignore,
        gitfile,
        info,
        infofile,
        charset,
    } = st;
    let r = Options {
        paths,
        all_files,
        dirs_only,
        full_path,
        follow_links,
        xdev,
        level,
        file_limit,
        no_report,
        output_file,
        patterns,
        ipatterns,
        sort: sort.0,
        top: top.0,
        reverse,
        use_ctime,
        show_perms,
        show_uid,
        show_gid,
        show_size,
        human,
        si,
        show_date,
        timefmt,
        classify,
        qmark,
        no_escape,
        quote,
        show_inode,
        show_device,
        du,
        force_color,
        no_color,
        noindent,
        ansilines,
        output: output.0,
        host,
        htmloffset,
        title,
        nolinks,
        hintro,
        houtro,
        rerun,
        ignore_case,
        prune,
        matchdirs,
        gitignore,
        gitfile,
        info,
        infofile,
        charset,
    };
    r
}

fn switch_on(sw: Switch, st: ParseState) -> (r: ParseState)
    ensures
        r@ == apply_switch(sw, st@),
{
    match sw {
        Switch::AllFiles => set_all_files(st),
        Switch::DirsOnly => set_dirs_only(st),
        Switch::ShowPerms => set_show_perms(st),
        Switch::ShowUid => set_show_uid(st),
        Switch::ShowGid => set_show_gid(st),
        Switch::ShowSize => set_show_size(st),
        Switch::Human => set_human(st),
        Switch::ShowDate => set_show_date(st),
        Switch::ForceColor => set_force_color(st),
        Switch::Json => set_json(st),
        Switch::Xml => set_xml(st),
        Switch::Rerun => set_rerun(st),
        Switch::NoColor => set_no_color(st),
        Switch::NoIndent => set_no_indent(st),
        Switch::AnsiLines => set_ansi_lines(st),
        Switch::Ibm437 => set_ibm437(st),
        Switch::Classify => set_classify(st),
        Switch::Qmark => set_qmark(st),
        Switch::NoEscape => set_no_escape(st),
        Switch::Quote => set_quote(st),
        Switch::SortVersion => set_sort_version(st),
        Switch::SortMtime => set_sort_mtime(st),
        Switch::SortCtime => set_sort_ctime(st),
        Switch::Unsorted => set_unsorted(st),
        Switch::Reverse => set_reverse(st),
        Switch::FullPath => set_full_path(st),
        Switch::FollowLinks => set_follow_links(st),
        Switch::Xdev => set_xdev(st),
        Switch::NoReport => set_no_report(st),
        Switch::Inodes => set_inodes(st),
        Switch::Device => set_device(st),
        Switch::Si => set_si(st),
        Switch::Du => set_du(st),
        Switch::NoLinks => set_no_links(st),
        Switch::DirsFirst => set_dirs_first(st),
        Switch::FilesFirst => set_files_first(st),
        Switch::Prune => set_prune(st),
        Switch::MatchDirs => set_match_dirs(st),
        Switch::GitIgnore => set_git_ignore(st),
        Switch::Info => set_info(st),
        Switch::IgnoreCase => set_ignore_case(st),
    }
}

fn set_all_files(st: ParseState) -> (r: ParseState)
    ensures
        r@ == apply_switch(Switch::AllFiles, st@),
{
    let mut st = st;
    st.all_files = true;
    st
}

fn set_dirs_only(st: ParseState) -> (r: ParseState)
    ensures
        r@ == apply_switch(Switch::DirsOnly, st@),
{
    let mut st = st;
    st.dirs_only = true;
    st
}

fn set_show_perms(st: ParseState) -> (r: ParseState)
    ensures
        r@ == apply_switch(Switch::ShowPerms, st@),
{
    let mut st = st;
    st.show_perms = true;
    st
}

fn set_show_uid(st: ParseState) -> (r: ParseState)
    ensures
        r@ == apply_switch(Switch::ShowUid, st@),
{
    let mut st = st;
    st.show_uid = true;
    st
}

fn set_show_gid(st: ParseState) -> (r: ParseState)
    ensures
        r@ == apply_switch(Switch::ShowGid, st@),
{
    let mut st = st;
    st.show_gid = true;
    st
}

fn set_show_size(st: ParseState) -> (r: ParseState)
    ensures
        r@ == apply_switch(Switch::ShowSize, st@),
{
    let mut st = st;
    st.show_size = true;
    st
}

fn set_human(st: ParseState) -> (r: ParseState)
    ensures
        r@ == apply_switch(Switch::Human, st@),
{
    let mut st = st;
    st.human = true;
    st.show_size = true;
    st
}

fn set_show_date(st: ParseState) -> (r: ParseState)
    ensures
        r@ == apply_switch(Switch::ShowDate, st@),
{
    let mut st = st;
    st.show_date = true;
    st
}

fn set_force_color(st: ParseState) -> (r: ParseState)
    ensures
        r@ == apply_switch(Switch::ForceColor, st@),
{
    let mut st = st;
    st.force_color = true;
    st
}

fn set_json(st: ParseState) -> (r: ParseState)
    ensures
        r@ == apply_switch(Switch::Json, st@),
{
    let mut st = st;
    st.output = (OutputFormat::Json,);
    st
}

fn set_xml(st: ParseState) -> (r: ParseState)
    ensures
        r@ == apply_switch(Switch::Xml, st@),
{
    let mut st = st;
    st.output = (OutputFormat::Xml,);
    st
}

fn set_rerun(st: ParseState) -> (r: ParseState)
    ensures
        r@ == apply_switch(Switch::Rerun, st@),
{
    let mut st = st;
    st.rerun = true;
    st
}

fn set_no_color(st: ParseState) -> (r: ParseState)
    ensures
        r@ == apply_switch(Switch::NoColor, st@),
{
    let mut st = st;
    st.no_color = true;
    st
}

fn set_no_indent(st: ParseState) -> (r: ParseState)
    ensures
        r@ == apply_switch(Switch::NoIndent, st@),
{
    let mut st = st;
    st.noindent = true;
    st
}

fn set_ansi_lines(st: ParseState) -> (r: ParseState)
    ensures
        r@ == apply_switch(Switch::AnsiLines, st@),
{
    let mut st = st;
    st.ansilines = true;
    st
}

fn set_ibm437(st: ParseState) -> (r: ParseState)
    ensures
        r@ == apply_switch(Switch::Ibm437, st@),
{
    let name = copy_bytes("IBM437".as_bytes());
    let mut st = st;
    st.charset = Some(name);
    st
}

fn set_classify(st: ParseState) -> (r: ParseState)
    ensures
        r@ == apply_switch(Switch::Classify, st@),
{
    let mut st = st;
    st.classify = true;
    st
}

fn set_qmark(st: ParseState) -> (r: ParseState)
    ensures
        r@ == apply_switch(Switch::Qmark, st@),
{
    let mut st = st;
    st.qmark = true;
    st
}

fn set_no_escape(st: ParseState) -> (r: ParseState)
    ensures
        r@ == apply_switch(Switch::NoEscape, st@),
{
    let mut st = st;
    st.no_escape = true;
    st
}

fn set_quote(st: ParseState) -> (r: ParseState)
    ensures
        r@ == apply_switch(Switch::Quote, st@),
{
    let mut st = st;
    st.quote = true;
    st
}

fn set_sort_version(st: ParseState) -> (r: ParseState)
    ensures
        r@ == apply_switch(Switch::SortVersion, st@),
{
    let mut st = st;
    st.sort = (SortKey::Version,);
    st
}

fn set_sort_mtime(st: ParseState) -> (r: ParseState)
    ensures
        r@ == apply_switch(Switch::SortMtime, st@),
{
    let mut st = st;
    st.sort = (SortKey::Mtime,);
    st
}

fn set_sort_ctime(st: ParseState) -> (r: ParseState)
    ensures
        r@ == apply_switch(Switch::SortCtime, st@),
{
    let mut st = st;
    st.sort = (SortKey::Ctime,);
    st.use_ctime = true;
    st
}

fn set_unsorted(st: ParseState) -> (r: ParseState)
    ensures
        r@ == apply_switch(Switch::Unsorted, st@),
{
    let mut st = st;
    st.sort = (SortKey::Unsorted,);
    st
}

fn set_reverse(st: ParseState) -> (r: ParseState)
    ensures
        r@ == apply_switch(Switch::Reverse, st@),
{
    let mut st = st;
    st.reverse = true;
    st
}

fn set_full_path(st: ParseState) -> (r: ParseState)
    ensures
        r@ == apply_switch(Switch::FullPath, st@),
{
    let mut st = st;
    st.full_path = true;
    st
}

fn set_follow_links(st: ParseState) -> (r: ParseState)
    ensures
        r@ == apply_switch(Switch::FollowLinks, st@),
{
    let mut st = st;
    st.follow_links = true;
    st
}

fn set_xdev(st: ParseState) -> (r: ParseState)
    ensures
        r@ == apply_switch(Switch::Xdev, st@),
{
    let mut st = st;
    st.xdev = true;
    st
}

fn set_no_report(st: ParseState) -> (r: ParseState)
    ensures
        r@ == apply_switch(Switch::NoReport, st@),
{
    let mut st = st;
    st.no_report = true;
    st
}

fn set_inodes(st: ParseState) -> (r: ParseState)
    ensures
        r@ == apply_switch(Switch::Inodes, st@),
{
    let mut st = st;
    st.show_inode = true;
    st
}

fn set_device(st: ParseState) -> (r: ParseState)
    ensures
        r@ == apply_switch(Switch::Device, st@),
{
    let mut st = st;
    st.show_device = true;
    st
}

fn set_si(st: ParseState) -> (r: ParseState)
    ensures
        r@ == apply_switch(Switch::Si, st@),
{
    let mut st = st;
    st.si = true;
    st.human = true;
    st.show_size = true;
    st
}

fn set_du(st: ParseState) -> (r: ParseState)
    ensures
        r@ == apply_switch(Switch::Du, st@),
{
    let mut st = st;
    st.du = true;
    st.show_size = true;
    st
}

fn set_no_links(st: ParseState) -> (r: ParseState)
    ensures
        r@ == apply_switch(Switch::NoLinks, st@),
{
    let mut st = st;
    st.nolinks = true;
    st
}

fn set_dirs_first(st: ParseState) -> (r: ParseState)
    ensures
        r@ == apply_switch(Switch::DirsFirst, st@),
{
    let mut st = st;
    st.top = (TopSort::DirsFirst,);
    st
}

fn set_files_first(st: ParseState) -> (r: ParseState)
    ensures
        r@ == apply_switch(Switch::FilesFirst, st@),
{
    let mut st = st;
    st.top = (TopSort::FilesFirst,);
    st
}

fn set_prune(st: ParseState) -> (r: ParseState)
    ensures
        r@ == apply_switch(Switch::Prune, st@),
{
    let mut st = st;
    st.prune = true;
    st
}

fn set_match_dirs(st: ParseState) -> (r: ParseState)
    ensures
        r@ == apply_switch(Switch::MatchDirs, st@),
{
    let mut st = st;
    st.matchdirs = true;
    st
}

fn set_git_ignore(st: ParseState) -> (r: ParseState)
    ensures
        r@ == apply_switch(Switch::GitIgnore, st@),
{
    let mut st = st;
    st.gitignore = true;
    st
}

fn set_info(st: ParseState) -> (r: ParseState)
    ensures
        r@ == apply_switch(Switch::Info, st@),
{
    let mut st = st;
    st.info = true;
    st
}

fn set_ignore_case(st: ParseState) -> (r: ParseState)
    ensures
        r@ == apply_switch(Switch::IgnoreCase, st@),
{
    let mut st = st;
    st.ignore_case = true;
    st
}

fn store_value(k: Valued, v: Vec<u8>, st: ParseState) -> (r: ParseState)
    ensures
        r@ == apply_valued(k, v@, st@),
{
    match k {
        Valued::Timefmt => set_timefmt(v, st),
        Valued::Hintro => set_hintro(v, st),
        Valued::Houtro => set_houtro(v, st),
        Valued::GitFile => set_git_file(v, st),
        Valued::InfoFile => set_info_file(v, st),
        Valued::Charset => set_charset(v, st),
        Valued::Title => set_title(v, st),
        Valued::OutputFile => set_output_file(v, st),
        Valued::Pattern => set_pattern(v, st),
        Valued::IPattern => set_i_pattern(v, st),
    }
}

fn set_timefmt(v: Vec<u8>, st: ParseState) -> (r: ParseState)
    ensures
        r@ == apply_valued(Valued::Timefmt, v@, st@),
{
    let mut st = st;
    st.timefmt = Some(v);
    st.show_date = true;
    st
}

fn set_hintro(v: Vec<u8>, st: ParseState) -> (r: ParseState)
    ensures
        r@ == apply_valued(Valued::Hintro, v@, st@),
{
    let mut st = st;
    st.hintro = Some(v);
    st
}

fn set_houtro(v: Vec<u8>, st: ParseState) -> (r: ParseState)
    ensures
        r@ == apply_valued(Valued::Houtro, v@, st@),
{
    let mut st = st;
    st.houtro = Some(v);
    st
}

fn set_git_file(v: Vec<u8>, st: ParseState) -> (r: ParseState)
    ensures
        r@ == apply_valued(Valued::GitFile, v@, st@),
{
    let mut st = st;
    st.gitignore = true;
    st.gitfile = Some(v);
    st
}

fn set_info_file(v: Vec<u8>, st: ParseState) -> (r: ParseState)
    ensures
        r@ == apply_valued(Valued::InfoFile, v@, st@),
{
    let mut st = st;
    st.infofile = Some(v);
    st
}

fn set_charset(v: Vec<u8>, st: ParseState) -> (r: ParseState)
    ensures
        r@ == apply_valued(Valued::Charset, v@, st@),
{
    let mut st = st;
    st.charset = Some(v);
    st
}

fn set_title(v: Vec<u8>, st: ParseState) -> (r: ParseState)
    ensures
        r@ == apply_valued(Valued::Title, v@, st@),
{
    let mut st = st;
    st.title = Some(v);
    st
}

fn set_output_file(v: Vec<u8>, st: ParseState) -> (r: ParseState)
    ensures
        r@ == apply_valued(Valued::OutputFile, v@, st@),
{
    let mut st = st;
    st.output_file = Some(v);
    st
}

fn set_pattern(v: Vec<u8>, st: ParseState) -> (r: ParseState)
    ensures
        r@ == apply_valued(Valued::Pattern, v@, st@),
{
    let mut st = st;
    let mut list = st.patterns;
    let ghost before = list@;
    list.push(v);
    assert(lines_view(list@) =~= lines_view(before).push(v@));
    st.patterns = list;
    st
}

fn set_i_pattern(v: Vec<u8>, st: ParseState) -> (r: ParseState)
    ensures
        r@ == apply_valued(Valued::IPattern, v@, st@),
{
    let mut st = st;
    let mut list = st.ipatterns;
    let ghost before = list@;
    list.push(v);
    assert(lines_view(list@) =~= lines_view(before).push(v@));
    st.ipatterns = list;
    st
}

fn set_host(v: Vec<u8>, st: ParseState) -> (r: ParseState)
    ensures
        r@ == apply_host(v@, st@),
{
    if v.len() > 0 && v[0] == 0x2d {
        let rest = copy_from(v.as_slice(), 1);
        set_host_offset(rest, st)
    } else {
        set_host_plain(v, st)
    }
}

fn set_host_offset(rest: Vec<u8>, st: ParseState) -> (r: ParseState)
    ensures
        r@ == (OptionsView { output: OutputFormat::Html, htmloffset: true, host: Some(rest@), ..st@ }),
{
    let st = set_host_plain(rest, st);
    mark_htmloffset(st)
}

fn mark_htmloffset(st: ParseState) -> (r: ParseState)
    ensures
        r@ == (OptionsView { htmloffset: true, ..st@ }),
{
    let mut st = st;
    st.htmloffset = true;
    st
}

fn set_host_plain(v: Vec<u8>, st: ParseState) -> (r: ParseState)
    ensures
        r@ == (OptionsView { output: OutputFormat::Html, host: Some(v@), ..st@ }),
{
    let mut st = st;
    st.output = (OutputFormat::Html,);
    st.host = Some(v);
    st
}

fn set_level(l: usize, st: ParseState) -> (r: ParseState)
    ensures
        r@ == apply_level(l, st@),
{
    let mut st = st;
    st.level = Some(l);
    st
}

fn set_sort(k: SortKey, st: ParseState) -> (r: ParseState)
    ensures
        r@ == apply_sort(k, st@),
{
    let mut st = st;
    st.sort = (k,);
    st
}

fn set_file_limit(l: i64, st: ParseState) -> (r: ParseState)
    ensures
        r@ == apply_file_limit(l, st@),
{
    let mut st = st;
    st.file_limit = if l > 0 { Some(l) } else { None };
    st
}

fn add_path(p: Vec<u8>, st: ParseState) -> (r: ParseState)
    ensures
        r@ == apply_path(p@, st@),
{
    let mut st = st;
    let mut list = st.paths;
    let ghost before = list@;
    list.push(p);
    assert(lines_view(list@) =~= lines_view(before).push(p@));
    st.paths = list;
    st
}

fn long_kind_of(name: &[u8]) -> (r: LongKind)
    ensures
        r == long_kind(name@),
{
    if is_lit(name, "--help") {
        LongKind::Help
    }     else if is_lit(name, "--version") {
        LongKind::Version
    }     else if is_lit(name, "--noreport") {
        LongKind::Switch(Switch::NoReport)
    }     else if is_lit(name, "--inodes") {
        LongKind::Switch(Switch::Inodes)
    }     else if is_lit(name, "--device") {
        LongKind::Switch(Switch::Device)
    }     else if is_lit(name, "--si") {
        LongKind::Switch(Switch::Si)
    }     else if is_lit(name, "--du") {
        LongKind::Switch(Switch::Du)
    }     else if is_lit(name, "--timefmt") {
        LongKind::Valued(Valued::Timefmt)
    }     else if is_lit(name, "--nolinks") {
        LongKind::Switch(Switch::NoLinks)
    }     else if is_lit(name, "--hintro") {
        LongKind::Valued(Valued::Hintro)
    }     else if is_lit(name, "--houtro") {
        LongKind::Valued(Valued::Houtro)
    }     else if is_lit(name, "--dirsfirst") {
        LongKind::Switch(Switch::DirsFirst)
    }     else if is_lit(name, "--filesfirst") {
        LongKind::Switch(Switch::FilesFirst)
    }     else if is_lit(name, "--sort") {
        LongKind::Sort
    }     else if is_lit(name, "--prune") {
        LongKind::Switch(Switch::Prune)
    }     else if is_lit(name, "--matchdirs") {
        LongKind::Switch(Switch::MatchDirs)
    }     else if is_lit(name, "--gitignore") {
        LongKind::Switch(Switch::GitIgnore)
    }     else if is_lit(name, "--gitfile") {
        LongKind::Valued(Valued::GitFile)
    }     else if is_lit(name, "--info") {
        LongKind::Switch(Switch::Info)
    }     else if is_lit(name, "--infofile") {
        LongKind::Valued(Valued::InfoFile)
    }     else if is_lit(name, "--ignore-case") {
        LongKind::Switch(Switch::IgnoreCase)
    }     else if is_lit(name, "--filelimit") {
        LongKind::FileLimit
    }     else if is_lit(name, "--charset") {
        LongKind::Valued(Valued::Charset)
    } else {
        LongKind::Other
    }
}

fn short_kind_of(flag: u8) -> (r: ShortKind)
    ensures
        r == short_kind(flag),
{
    if flag == 0x61 {
        ShortKind::Switch(Switch::AllFiles)
    }     else if flag == 0x64 {
        ShortKind::Switch(Switch::DirsOnly)
    }     else if flag == 0x70 {
        ShortKind::Switch(Switch::ShowPerms)
    }     else if flag == 0x75 {
        ShortKind::Switch(Switch::ShowUid)
    }     else if flag == 0x67 {
        ShortKind::Switch(Switch::ShowGid)
    }     else if flag == 0x73 {
        ShortKind::Switch(Switch::ShowSize)
    }     else if flag == 0x68 {
        ShortKind::Switch(Switch::Human)
    }     else if flag == 0x44 {
        ShortKind::Switch(Switch::ShowDate)
    }     else if flag == 0x43 {
        ShortKind::Switch(Switch::ForceColor)
    }     else if flag == 0x4a {
        ShortKind::Switch(Switch::Json)
    }     else if flag == 0x58 {
        ShortKind::Switch(Switch::Xml)
    }     else if flag == 0x48 {
        ShortKind::Host
    }     else if flag == 0x54 {
        ShortKind::Valued(Valued::Title)
    }     else if flag == 0x52 {
        ShortKind::Switch(Switch::Rerun)
    }     else if flag == 0x6e {
        ShortKind::Switch(Switch::NoColor)
    }     else if flag == 0x69 {
        ShortKind::Switch(Switch::NoIndent)
    }     else if flag == 0x41 {
        ShortKind::Switch(Switch::AnsiLines)
    }     else if flag == 0x53 {
        ShortKind::Switch(Switch::Ibm437)
    }     else if flag == 0x46 {
        ShortKind::Switch(Switch::Classify)
    }     else if flag == 0x71 {
        ShortKind::Switch(Switch::Qmark)
    }     else if flag == 0x4e {
        ShortKind::Switch(Switch::NoEscape)
    }     else if flag == 0x51 {
        ShortKind::Switch(Switch::Quote)
    }     else if flag == 0x76 {
        ShortKind::Switch(Switch::SortVersion)
    }     else if flag == 0x74 {
        ShortKind::Switch(Switch::SortMtime)
    }     else if flag == 0x63 {
        ShortKind::Switch(Switch::SortCtime)
    }     else if flag == 0x55 {
        ShortKind::Switch(Switch::Unsorted)
    }     else if flag == 0x72 {
        ShortKind::Switch(Switch::Reverse)
    }     else if flag == 0x66 {
        ShortKind::Switch(Switch::FullPath)
    }     else if flag == 0x6c {
        ShortKind::Switch(Switch::FollowLinks)
    }     else if flag == 0x78 {
        ShortKind::Switch(Switch::Xdev)
    }     else if flag == 0x4c {
        ShortKind::Level
    }     else if flag == 0x50 {
        ShortKind::Valued(Valued::Pattern)
    }     else if flag == 0x49 {
        ShortKind::Valued(Valued::IPattern)
    }     else if flag == 0x6f {
        ShortKind::Valued(Valued::OutputFile)
    } else {
        ShortKind::Invalid
    }
}

fn parse_long(args: &[Vec<u8>], i: usize, st: ParseState) -> (r: (ParseState, Stepped))
    requires
        i < args@.len(),
    ensures
        stepped_as(r.1, r.0@, long_step(lines_view(args@), i as int, st@)),
        r.1 matches Stepped::Next(n) ==> i < n <= args@.len(),
        !(r.1 is Next) ==> r.0@ == st@,
{
    let ghost a = lines_view(args@);
    let (name_v, inline) = split_long(args[i].as_slice());
    let name = name_v.as_slice();
    assert(a[i as int] == args@[i as int]@);
    match long_kind_of(name) {
        LongKind::Help => {
            let mut s = text(VERSION_TEXT);
            s.append("\n");
            s.append(USAGE_TEXT);
            (st, Stepped::Fail(CliError::Help(s)))
        },
        LongKind::Version => (st, Stepped::Fail(CliError::Help(text(VERSION_TEXT)))),
        LongKind::Switch(sw) => (switch_on(sw, st), Stepped::Next(i + 1)),
        LongKind::Valued(k) => match long_value_of(args, i, name, &inline) {
            Ok((v, nx)) => (store_value(k, v, st), Stepped::Next(nx)),
            Err(e) => (st, Stepped::Fail(e)),
        },
        LongKind::Sort => match long_value_of(args, i, name, &inline) {
            Ok((v, nx)) => match sort_key_of(v.as_slice()) {
                Some(k) => (set_sort(k, st), Stepped::Next(nx)),
                None => {
                    let mut s = text("utree: Sort type '");
                    let d = lossy(v.as_slice());
                    s.append(d.as_str());
                    s.append("' not valid, should be one of: name,version,size,mtime,ctime,none");
                    (st, Stepped::Fail(CliError::Usage(s)))
                },
            },
            Err(e) => (st, Stepped::Fail(e)),
        },
        LongKind::FileLimit => match long_value_of(args, i, name, &inline) {
            Ok((v, nx)) => match atoi(v.as_slice()) {
                Some(limit) => (set_file_limit(limit, st), Stepped::Next(nx)),
                None => (st, Stepped::Aborted),
            },
            Err(e) => (st, Stepped::Fail(e)),
        },
        LongKind::Other => {
            let display = lossy(name);
            if is_unsupported_long(&display) {
                return (st, Stepped::Fail(not_supported(display.as_str())));
            }
            let mut s = text("utree: Invalid argument `");
            s.append(display.as_str());
            s.append("'.\n");
            s.append(USAGE_TEXT);
            (st, Stepped::Fail(CliError::Usage(s)))
        },
    }
}

fn short_value_of(args: &[Vec<u8>], next: usize, flag: u8) -> (r: Result<(Vec<u8>, usize), CliError>)
    requires
        next <= args@.len(),
    ensures
        match r {
            Ok((v, nx)) => short_value(lines_view(args@), next as int, flag) == Ok::<(Seq<u8>, int), CliMessage>((v@, nx as int)),
            Err(e) => short_value(lines_view(args@), next as int, flag) == Err::<(Seq<u8>, int), CliMessage>(e@),
        },
{
    if next < args.len() {
        Ok((copy_bytes(args[next].as_slice()), next + 1))
    } else {
        let mut name = text("-");
        let c = char_string(flag as char);
        name.append(c.as_str());
        Err(missing_argument(name.as_str()))
    }
}

fn count_digits(s: &[u8], from: usize) -> (d: usize)
    requires
        from <= s@.len(),
    ensures
        d == digit_run(s@, from as int),
        from + d <= s@.len(),
{
    let mut k: usize = from;
    while k < s.len() && 0x30 <= s[k] && s[k] <= 0x39
        invariant
            from <= k <= s@.len(),
            digit_run(s@, from as int) == (k - from) + digit_run(s@, k as int),
        decreases s@.len() - k,
    {
        k = k + 1;
    }
    k - from
}

fn parse_short(args: &[Vec<u8>], i: usize, start: ParseState) -> (r: (ParseState, Stepped))
    requires
        i < args@.len(),
    ensures
        stepped_as(r.1, r.0@, short_steps(lines_view(args@), args@[i as int]@, 1, i + 1, start@)),
        r.1 matches Stepped::Next(n) ==> i < n <= args@.len(),
        r.1 is Fail ==> r.0@ == short_stop_options(lines_view(args@), args@[i as int]@, 1, i + 1, start@),
{
    let ghost a = lines_view(args@);
    let ghost target = short_steps(a, args@[i as int]@, 1, i + 1, start@);
    let ghost stop = short_stop_options(a, args@[i as int]@, 1, i + 1, start@);
    let arg = args[i].as_slice();
    let mut st = start;
    let mut j: usize = 1;
    let mut next: usize = i + 1;
    while j < arg.len()
        invariant
            a == lines_view(args@),
            arg@ == args@[i as int]@,
            1 <= j,
            i < next <= args@.len(),
            short_steps(a, arg@, j as int, next as int, st@) == target,
            target == short_steps(lines_view(args@), args@[i as int]@, 1, i + 1, start@),
            short_stop_options(a, arg@, j as int, next as int, st@) == stop,
            stop == short_stop_options(lines_view(args@), args@[i as int]@, 1, i + 1, start@),
        decreases arg@.len() - j,
    {
        let flag = arg[j];
        assert(arg@[j as int] == flag);
        let ghost here = short_steps(a, arg@, j as int, next as int, st@);
        match short_kind_of(flag) {
            ShortKind::Switch(sw) => {
                st = switch_on(sw, st);
                j = j + 1;
            },
            ShortKind::Valued(k) => match short_value_of(args, next, flag) {
                Ok((v, nx)) => {
                    st = store_value(k, v, st);
                    next = nx;
                    j = j + 1;
                },
                Err(e) => {
                    assert(here == StepSpec::Fail(e@));
                    return (st, Stepped::Fail(e));
                },
            },
            ShortKind::Host => match short_value_of(args, next, flag) {
                Ok((v, nx)) => {
                    st = set_host(v, st);
                    next = nx;
                    j = j + 1;
                },
                Err(e) => {
                    assert(here == StepSpec::Fail(e@));
                    return (st, Stepped::Fail(e));
                },
            },
            ShortKind::Level => {
                let d = count_digits(arg, j + 1);
                if d > 0 {
                    let text_v = copy_from(copy_prefix(arg, j + 1 + d).as_slice(), j + 1);
                    assert(text_v@ =~= arg@.subrange(j + 1, j + 1 + d));
                    match parse_level(text_v.as_slice()) {
                        Ok(l) => {
                            st = set_level(l, st);
                            j = j + 1 + d;
                        },
                        Err(e) => {
                            assert(here == StepSpec::Fail(e@));
                            return (st, Stepped::Fail(e));
                        },
                    }
                } else {
                    match short_value_of(args, next, flag) {
                        Ok((v, nx)) => match parse_level(v.as_slice()) {
                            Ok(l) => {
                                st = set_level(l, st);
                                next = nx;
                                j = j + 1;
                            },
                            Err(e) => return (st, Stepped::Fail(e)),
                        },
                        Err(e) => {
                            assert(here == StepSpec::Fail(e@));
                            return (st, Stepped::Fail(e));
                        },
                    }
                }
            },
            ShortKind::Invalid => {
                let mut s = text("utree: Invalid argument -`");
                let c = char_string(flag as char);
                s.append(c.as_str());
                s.append("'.\n");
                s.append(USAGE_TEXT);
                return (st, Stepped::Fail(CliError::Usage(s)));
            },
        }
    }
    (st, Stepped::Next(next))
}

fn finish_state(st: ParseState) -> (r: ParseState)
    ensures
        r@ == finish_options(st@),
{
    let st = default_path_state(st);
    let st = dirs_unprune_state(st);
    let st = unsorted_untop_state(st);
    rerun_needs_level_state(st)
}

fn default_path_state(st: ParseState) -> (r: ParseState)
    ensures
        r@ == default_path(st@),
{
    if st.paths.len() == 0 {
        add_path(copy_bytes(".".as_bytes()), st)
    } else {
        st
    }
}

fn dirs_unprune_state(st: ParseState) -> (r: ParseState)
    ensures
        r@ == dirs_unprune(st@),
{
    let mut st = st;
    if st.dirs_only {
        st.prune = false;
    }
    st
}

fn unsorted_untop_state(st: ParseState) -> (r: ParseState)
    ensures
        r@ == unsorted_untop(st@),
{
    let mut st = st;
    if st.sort.0 == SortKey::Unsorted {
        st.top = (TopSort::Neither,);
    }
    st
}

fn rerun_needs_level_state(st: ParseState) -> (r: ParseState)
    ensures
        r@ == rerun_needs_level(st@),
{
    let mut st = st;
    if st.level.is_none() {
        st.rerun = false;
    }
    st
}

/// Parse the command line (without the program name), or say where
/// parsing would panic: `None` when a --filelimit value's negation
/// overflows.
pub fn try_parse(args: &[Vec<u8>]) -> (r: Option<Result<Options, CliError>>)
    ensures
        match r {
            Some(Ok(o)) => spec_parse(lines_view(args@)) matches ParseSpec::Parsed(v) && options_match(o, v),
            Some(Err(e)) => spec_parse(lines_view(args@)) == ParseSpec::Failed(e@),
            None => spec_parse(lines_view(args@)) is Aborts,
        },
{
    let ghost a = lines_view(args@);
    let mut st = new_state();
    let mut only_paths = false;
    let mut i: usize = 0;
    while i < args.len()
        invariant
            a == lines_view(args@),
            i <= args@.len(),
            parse_from(a, i as int, only_paths, st@) == spec_parse(a),
        decreases args@.len() - i,
    {
        let arg = args[i].as_slice();
        assert(a[i as int] == arg@);
        if only_paths || !(arg.len() > 0 && arg[0] == 0x2d) || is_lit(arg, "-") {
            st = add_path(copy_bytes(arg), st);
            i = i + 1;
        } else if is_lit(arg, "--") {
            only_paths = true;
            i = i + 1;
        } else {
            let (st2, step) = if arg.len() > 1 && arg[1] == 0x2d {
                parse_long(args, i, st)
            } else {
                parse_short(args, i, st)
            };
            st = st2;
            match step {
                Stepped::Next(nx) => {
                    i = nx;
                },
                Stepped::Fail(e) => return Some(Err(e)),
                Stepped::Aborted => return None,
            }
        }
    }
    Some(Ok(into_options(finish_state(st))))
}

/// Parse the command line (without the program name): the options, or
/// the usage error or help text to print.
pub fn parse(args: &[Vec<u8>]) -> (r: Result<Options, CliError>)
    requires
        !(spec_parse(lines_view(args@)) is Aborts),
    ensures
        match r {
            Ok(o) => spec_parse(lines_view(args@)) matches ParseSpec::Parsed(v) && options_match(o, v),
            Err(e) => spec_parse(lines_view(args@)) == ParseSpec::Failed(e@),
        },
{
    match try_parse(args) {
        Some(r) => r,
        None => Err(CliError::Help(String::new())),
    }
}

} // verus!
