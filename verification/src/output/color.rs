//! -C/-n colorization: tree's parse_dir_colors() and color().
use vstd::prelude::*;
use crate::bytes::{lit, ascii_lower, bytes_eq, copy_bytes, copy_from, copy_prefix, find_byte, find_from, push_all, split_on, lemma_split_on_step, to_ascii_lower};
use crate::options::{Options, opt_bytes};

verus! {

/// The color slots, in tree's order.
#[derive(Clone, Copy, PartialEq, Eq, Structural)]
pub enum Slot {
    Reset,
    Normal,
    File,
    Dir,
    Link,
    Fifo,
    Blk,
    Chr,
    Orphan,
    Sock,
    Setuid,
    Setgid,
    StickyOtherWritable,
    OtherWritable,
    Sticky,
    Exec,
    Missing,
    LeftCode,
    RightCode,
    EndCode,
}

/// Where a slot's code is kept.
pub open spec fn slot_index(s: Slot) -> int {
    match s {
        Slot::Reset => 0,
        Slot::Normal => 1,
        Slot::File => 2,
        Slot::Dir => 3,
        Slot::Link => 4,
        Slot::Fifo => 5,
        Slot::Blk => 6,
        Slot::Chr => 7,
        Slot::Orphan => 8,
        Slot::Sock => 9,
        Slot::Setuid => 10,
        Slot::Setgid => 11,
        Slot::StickyOtherWritable => 12,
        Slot::OtherWritable => 13,
        Slot::Sticky => 14,
        Slot::Exec => 15,
        Slot::Missing => 16,
        Slot::LeftCode => 17,
        Slot::RightCode => 18,
        Slot::EndCode => 19,
    }
}

fn slot_idx(s: Slot) -> (r: usize)
    ensures
        r == slot_index(s),
{
    match s {
        Slot::Reset => 0,
        Slot::Normal => 1,
        Slot::File => 2,
        Slot::Dir => 3,
        Slot::Link => 4,
        Slot::Fifo => 5,
        Slot::Blk => 6,
        Slot::Chr => 7,
        Slot::Orphan => 8,
        Slot::Sock => 9,
        Slot::Setuid => 10,
        Slot::Setgid => 11,
        Slot::StickyOtherWritable => 12,
        Slot::OtherWritable => 13,
        Slot::Sticky => 14,
        Slot::Exec => 15,
        Slot::Missing => 16,
        Slot::LeftCode => 17,
        Slot::RightCode => 18,
        Slot::EndCode => 19,
    }
}

/// The slot a two-letter key names ("do", doors, is absent: there are
/// none on Linux, so such entries are ignored).
pub open spec fn pair_slot(a: u8, b: u8) -> Option<Slot> {
    if a == 0x72 && b == 0x73 {
        Some(Slot::Reset)
    } else if a == 0x6e && b == 0x6f {
        Some(Slot::Normal)
    } else if a == 0x66 && b == 0x69 {
        Some(Slot::File)
    } else if a == 0x64 && b == 0x69 {
        Some(Slot::Dir)
    } else if a == 0x6c && b == 0x6e {
        Some(Slot::Link)
    } else if a == 0x70 && b == 0x69 {
        Some(Slot::Fifo)
    } else if a == 0x62 && b == 0x64 {
        Some(Slot::Blk)
    } else if a == 0x63 && b == 0x64 {
        Some(Slot::Chr)
    } else if a == 0x6f && b == 0x72 {
        Some(Slot::Orphan)
    } else if a == 0x73 && b == 0x6f {
        Some(Slot::Sock)
    } else if a == 0x73 && b == 0x75 {
        Some(Slot::Setuid)
    } else if a == 0x73 && b == 0x67 {
        Some(Slot::Setgid)
    } else if a == 0x74 && b == 0x77 {
        Some(Slot::StickyOtherWritable)
    } else if a == 0x6f && b == 0x77 {
        Some(Slot::OtherWritable)
    } else if a == 0x73 && b == 0x74 {
        Some(Slot::Sticky)
    } else if a == 0x65 && b == 0x78 {
        Some(Slot::Exec)
    } else if a == 0x6d && b == 0x69 {
        Some(Slot::Missing)
    } else if a == 0x6c && b == 0x63 {
        Some(Slot::LeftCode)
    } else if a == 0x72 && b == 0x63 {
        Some(Slot::RightCode)
    } else {
        None
    }
}

/// The slot a key of the color string names.
pub open spec fn slot_named(key: Seq<u8>) -> Option<Slot> {
    if key.len() == 2 { pair_slot(key[0], key[1]) } else { None }
}

fn slot_of(key: &[u8]) -> (r: Option<Slot>)
    ensures
        r == slot_named(key@),
{
    if key.len() != 2 {
        return None;
    }
    let a = key[0];
    let b = key[1];
    if a == 0x72 && b == 0x73 {
        Some(Slot::Reset)
    } else if a == 0x6e && b == 0x6f {
        Some(Slot::Normal)
    } else if a == 0x66 && b == 0x69 {
        Some(Slot::File)
    } else if a == 0x64 && b == 0x69 {
        Some(Slot::Dir)
    } else if a == 0x6c && b == 0x6e {
        Some(Slot::Link)
    } else if a == 0x70 && b == 0x69 {
        Some(Slot::Fifo)
    } else if a == 0x62 && b == 0x64 {
        Some(Slot::Blk)
    } else if a == 0x63 && b == 0x64 {
        Some(Slot::Chr)
    } else if a == 0x6f && b == 0x72 {
        Some(Slot::Orphan)
    } else if a == 0x73 && b == 0x6f {
        Some(Slot::Sock)
    } else if a == 0x73 && b == 0x75 {
        Some(Slot::Setuid)
    } else if a == 0x73 && b == 0x67 {
        Some(Slot::Setgid)
    } else if a == 0x74 && b == 0x77 {
        Some(Slot::StickyOtherWritable)
    } else if a == 0x6f && b == 0x77 {
        Some(Slot::OtherWritable)
    } else if a == 0x73 && b == 0x74 {
        Some(Slot::Sticky)
    } else if a == 0x65 && b == 0x78 {
        Some(Slot::Exec)
    } else if a == 0x6d && b == 0x69 {
        Some(Slot::Missing)
    } else if a == 0x6c && b == 0x63 {
        Some(Slot::LeftCode)
    } else if a == 0x72 && b == 0x63 {
        Some(Slot::RightCode)
    } else {
        None
    }
}

/// tree's builtin colors, used with CLICOLOR or CLICOLOR_FORCE and no
/// LS_COLORS.
pub open spec fn default_colors() -> Seq<u8> {
    lit(":no=00:rs=0:fi=00:di=01;34:ln=01;36:pi=40;33:so=01;35:bd=40;33;01:cd=40;33;01:or=40;31;01:ex=01;32:*.bat=01;32:*.BAT=01;32:*.btm=01;32:*.BTM=01;32:*.cmd=01;32:*.CMD=01;32:*.com=01;32:*.COM=01;32:*.dll=01;32:*.DLL=01;32:*.exe=01;32:*.EXE=01;32:*.arj=01;31:*.bz2=01;31:*.deb=01;31:*.gz=01;31:*.lzh=01;31:*.rpm=01;31:*.tar=01;31:*.taz=01;31:*.tb2=01;31:*.tbz2=01;31:*.tbz=01;31:*.tgz=01;31:*.tz2=01;31:*.z=01;31:*.Z=01;31:*.zip=01;31:*.ZIP=01;31:*.zoo=01;31:*.asf=01;35:*.ASF=01;35:*.avi=01;35:*.AVI=01;35:*.bmp=01;35:*.BMP=01;35:*.flac=01;35:*.FLAC=01;35:*.gif=01;35:*.GIF=01;35:*.jpg=01;35:*.JPG=01;35:*.jpeg=01;35:*.JPEG=01;35:*.m2a=01;35:*.M2a=01;35:*.m2v=01;35:*.M2V=01;35:*.mov=01;35:*.MOV=01;35:*.mp3=01;35:*.MP3=01;35:*.mpeg=01;35:*.MPEG=01;35:*.mpg=01;35:*.MPG=01;35:*.ogg=01;35:*.OGG=01;35:*.ppm=01;35:*.rm=01;35:*.RM=01;35:*.tga=01;35:*.TGA=01;35:*.tif=01;35:*.TIF=01;35:*.wav=01;35:*.WAV=01;35:*.wmv=01;35:*.WMV=01;35:*.xbm=01;35:*.xpm=01;35:")
}

fn default_colors_bytes() -> (r: &'static [u8])
    ensures
        r@ == default_colors(),
{
    ":no=00:rs=0:fi=00:di=01;34:ln=01;36:pi=40;33:so=01;35:bd=40;33;01:cd=40;33;01:or=40;31;01:ex=01;32:*.bat=01;32:*.BAT=01;32:*.btm=01;32:*.BTM=01;32:*.cmd=01;32:*.CMD=01;32:*.com=01;32:*.COM=01;32:*.dll=01;32:*.DLL=01;32:*.exe=01;32:*.EXE=01;32:*.arj=01;31:*.bz2=01;31:*.deb=01;31:*.gz=01;31:*.lzh=01;31:*.rpm=01;31:*.tar=01;31:*.taz=01;31:*.tb2=01;31:*.tbz2=01;31:*.tbz=01;31:*.tgz=01;31:*.tz2=01;31:*.z=01;31:*.Z=01;31:*.zip=01;31:*.ZIP=01;31:*.zoo=01;31:*.asf=01;35:*.ASF=01;35:*.avi=01;35:*.AVI=01;35:*.bmp=01;35:*.BMP=01;35:*.flac=01;35:*.FLAC=01;35:*.gif=01;35:*.GIF=01;35:*.jpg=01;35:*.JPG=01;35:*.jpeg=01;35:*.JPEG=01;35:*.m2a=01;35:*.M2a=01;35:*.m2v=01;35:*.M2V=01;35:*.mov=01;35:*.MOV=01;35:*.mp3=01;35:*.MP3=01;35:*.mpeg=01;35:*.MPEG=01;35:*.mpg=01;35:*.MPG=01;35:*.ogg=01;35:*.OGG=01;35:*.ppm=01;35:*.rm=01;35:*.RM=01;35:*.tga=01;35:*.TGA=01;35:*.tif=01;35:*.TIF=01;35:*.wav=01;35:*.WAV=01;35:*.wmv=01;35:*.WMV=01;35:*.xbm=01;35:*.xpm=01;35:".as_bytes()
}

/// What the environment says about colors, as plain values.
pub struct ColorEnv {
    /// NO_COLOR is set and not empty.
    pub no_color: bool,
    /// TERM is set.
    pub term: bool,
    /// CLICOLOR is set.
    pub clicolor: bool,
    /// CLICOLOR_FORCE is set.
    pub clicolor_force: bool,
    /// TREE_COLORS, else LS_COLORS.
    pub colors: Option<Vec<u8>>,
    /// Standard output is a terminal.
    pub stdout_tty: bool,
}

/// Color settings.
pub struct Colors {
    pub enabled: bool,
    /// ln=target: color link names like their targets.
    pub link_target: bool,
    codes: Vec<Option<Vec<u8>>>,
    /// Suffix rules in match order (the last in the color string first).
    exts: Vec<(Vec<u8>, Vec<u8>)>,
}

/// Color settings as plain values: a code per slot and the suffix rules
/// in match order.
pub struct ColorsView {
    pub enabled: bool,
    pub link_target: bool,
    pub codes: Seq<Option<Seq<u8>>>,
    pub exts: Seq<(Seq<u8>, Seq<u8>)>,
}

/// The suffix rules as plain values.
pub open spec fn exts_view(e: Seq<(Vec<u8>, Vec<u8>)>) -> Seq<(Seq<u8>, Seq<u8>)> {
    e.map_values(|p: (Vec<u8>, Vec<u8>)| (p.0@, p.1@))
}

/// The codes as plain values.
pub open spec fn codes_view(c: Seq<Option<Vec<u8>>>) -> Seq<Option<Seq<u8>>> {
    c.map_values(|o: Option<Vec<u8>>| opt_bytes(o))
}

impl View for Colors {
    type V = ColorsView;

    closed spec fn view(&self) -> ColorsView {
        ColorsView {
            enabled: self.enabled,
            link_target: self.link_target,
            codes: codes_view(self.codes@),
            exts: exts_view(self.exts@),
        }
    }
}

/// Colors off: no codes, no suffix rules.
pub open spec fn no_colors() -> ColorsView {
    ColorsView {
        enabled: false,
        link_target: false,
        codes: Seq::new(20, |i: int| None::<Seq<u8>>),
        exts: Seq::empty(),
    }
}

/// The key of an entry `key=value`: everything before the first `=`.
pub open spec fn entry_key(e: Seq<u8>) -> Seq<u8> {
    e.take(find_byte(e, 0x3d, 0))
}

/// The value of an entry, when it has an `=`.
pub open spec fn entry_value(e: Seq<u8>) -> Option<Seq<u8>> {
    let k = find_byte(e, 0x3d, 0);
    if k < e.len() { Some(e.skip(k + 1)) } else { None }
}

/// "target", the value that colors links like what they point to.
pub open spec fn target_word() -> Seq<u8> {
    seq![0x74u8, 0x61, 0x72, 0x67, 0x65, 0x74]
}

/// "01;36", the link color with ln=target.
pub open spec fn link_code() -> Seq<u8> {
    seq![0x30u8, 0x31, 0x3b, 0x33, 0x36]
}

/// One entry of the color string: `*suffix=code` adds a suffix rule in
/// front, `ln=target` (any case) colors links like their targets, a known
/// two-letter key with a value sets its slot; anything else is ignored.
pub open spec fn color_step(st: ColorsView, e: Seq<u8>) -> ColorsView {
    let key = entry_key(e);
    let value = entry_value(e);
    if key.len() == 0 {
        st
    } else if key[0] == 0x2a {
        match value {
            Some(v) => ColorsView { exts: seq![(key.skip(1), v)] + st.exts, ..st },
            None => st,
        }
    } else if key == seq![0x6cu8, 0x6e] && value is Some && ascii_lower(value.unwrap()) == target_word() {
        ColorsView { link_target: true, codes: st.codes.update(4, Some(link_code())), ..st }
    } else {
        match (slot_named(key), value) {
            (Some(slot), Some(v)) => ColorsView { codes: st.codes.update(slot_index(slot), Some(v)), ..st },
            _ => st,
        }
    }
}

/// The entries read in order.
pub open spec fn color_fold(entries: Seq<Seq<u8>>, st: ColorsView) -> ColorsView
    decreases entries.len(),
{
    if entries.len() == 0 {
        st
    } else {
        color_step(color_fold(entries.drop_last(), st), entries.last())
    }
}

/// The code, or `d` when there is none.
pub open spec fn or_default(c: Option<Seq<u8>>, d: Seq<u8>) -> Seq<u8> {
    match c {
        Some(x) => x,
        None => d,
    }
}

/// The guaranteed codes, assuming ANSI/vt100: left "\e[", right "m",
/// reset "0", and an end code made of the three.
pub open spec fn with_defaults(st: ColorsView) -> ColorsView {
    let left = or_default(st.codes[17], seq![0x1bu8, 0x5b]);
    let right = or_default(st.codes[18], seq![0x6du8]);
    let reset = or_default(st.codes[0], seq![0x30u8]);
    let end = or_default(st.codes[19], left + reset + right);
    ColorsView {
        codes: st.codes.update(17, Some(left)).update(18, Some(right)).update(0, Some(reset)).update(19, Some(end)),
        ..st
    }
}

/// tree's parse_dir_colors(): colors stay off without TERM, without a
/// color string (TREE_COLORS, else LS_COLORS, else the builtin one when
/// CLICOLOR or a forced color asks for it), and, unless forced (-C, or
/// CLICOLOR_FORCE without -n or NO_COLOR), with -n, NO_COLOR or output
/// that is not a terminal.
pub open spec fn spec_colors(no_color: bool, force_color: bool, env: ColorEnv) -> ColorsView {
    let nocolor = no_color || env.no_color;
    let force = force_color || (env.clicolor_force && !nocolor);
    let given = opt_bytes(env.colors);
    let source = if (given is None || given.unwrap().len() == 0) && (force || env.clicolor) {
        Some(default_colors())
    } else {
        given
    };
    if !env.term {
        no_colors()
    } else {
        match source {
            None => no_colors(),
            Some(s) => if !force && (nocolor || !env.stdout_tty) {
                no_colors()
            } else {
                with_defaults(color_fold(split_on(s, 0x3a), ColorsView { enabled: true, ..no_colors() }))
            },
        }
    }
}

fn empty_colors() -> (r: Colors)
    ensures
        r@ == no_colors(),
{
    let mut codes: Vec<Option<Vec<u8>>> = Vec::new();
    let mut i: usize = 0;
    while i < 20
        invariant
            i <= 20,
            codes@.len() == i,
            forall|k: int| 0 <= k < i ==> (#[trigger] codes@[k]) is None,
        decreases 20 - i,
    {
        codes.push(None);
        i = i + 1;
    }
    assert(codes_view(codes@) =~= Seq::new(20, |k: int| None::<Seq<u8>>));
    let r = Colors { enabled: false, link_target: false, codes, exts: Vec::new() };
    assert(exts_view(r.exts@) =~= Seq::<(Seq<u8>, Seq<u8>)>::empty());
    r
}

impl Colors {
    /// Whether colors are on: the `enabled` field, as the view has it.
    pub fn is_enabled(&self) -> (r: bool)
        ensures
            r == self@.enabled,
    {
        self.enabled
    }

    /// Whether links are colored like their targets: the `link_target`
    /// field, as the view has it.
    pub fn links_like_targets(&self) -> (r: bool)
        ensures
            r == self@.link_target,
    {
        self.link_target
    }

    fn set_code(&mut self, i: usize, code: Vec<u8>)
        requires
            i < old(self)@.codes.len(),
        ensures
            final(self)@ == (ColorsView { codes: old(self)@.codes.update(i as int, Some(code@)), ..old(self)@ }),
    {
        let ghost before = self.codes@;
        self.codes.set(i, Some(code));
        assert(codes_view(self.codes@) =~= codes_view(before).update(i as int, Some(code@)));
    }

    fn apply_entry(&mut self, e: &[u8])
        requires
            old(self)@.codes.len() == 20,
        ensures
            final(self)@ == color_step(old(self)@, e@),
            final(self)@.codes.len() == 20,
    {
        let k = find_from(e, 0x3d, 0);
        let key = copy_prefix(e, k);
        let value: Option<Vec<u8>> = if k < e.len() { Some(copy_from(e, k + 1)) } else { None };
        assert(key@ == entry_key(e@));
        if key.len() == 0 {
            return;
        }
        if key[0] == 0x2a {
            match value {
                Some(v) => {
                    let suffix = copy_from(key.as_slice(), 1);
                    let ghost before = self.exts@;
                    let ghost item = (suffix@, v@);
                    self.exts.insert(0, (suffix, v));
                    assert(exts_view(self.exts@) =~= seq![item] + exts_view(before));
                },
                None => {},
            }
            return;
        }
        let ln: Vec<u8> = vec![0x6c, 0x6e];
        if bytes_eq(key.as_slice(), ln.as_slice()) {
            if let Some(v) = &value {
                let low = to_ascii_lower(v.as_slice());
                let target: Vec<u8> = vec![0x74, 0x61, 0x72, 0x67, 0x65, 0x74];
                if bytes_eq(low.as_slice(), target.as_slice()) {
                    self.link_target = true;
                    let code: Vec<u8> = vec![0x30, 0x31, 0x3b, 0x33, 0x36];
                    self.set_code(4, code);
                    return;
                }
            }
        }
        match (slot_of(key.as_slice()), value) {
            (Some(slot), Some(v)) => {
                let i = slot_idx(slot);
                self.set_code(i, v);
            },
            _ => {},
        }
    }

    fn fill_default(&mut self, i: usize, d: Vec<u8>) -> (r: Vec<u8>)
        requires
            i < old(self)@.codes.len(),
        ensures
            r@ == or_default(old(self)@.codes[i as int], d@),
            final(self)@ == (ColorsView { codes: old(self)@.codes.update(i as int, Some(r@)), ..old(self)@ }),
    {
        let code = match &self.codes[i] {
            Some(c) => copy_bytes(c.as_slice()),
            None => d,
        };
        assert(codes_view(self.codes@)[i as int] == opt_bytes(self.codes@[i as int]));
        let r = copy_bytes(code.as_slice());
        self.set_code(i, code);
        r
    }

    /// tree's parse_dir_colors(), on the options and what the environment
    /// says.
    pub fn parse(opts: &Options, env: &ColorEnv) -> (r: Colors)
        ensures
            r@ == spec_colors(opts.no_color, opts.force_color, *env),
            r@.codes.len() == 20,
    {
        let mut colors = empty_colors();
        let nocolor = opts.no_color || env.no_color;
        if !env.term {
            return colors;
        }
        let force = opts.force_color || (env.clicolor_force && !nocolor);
        let use_default = match &env.colors {
            Some(s) => s.len() == 0,
            None => true,
        } && (force || env.clicolor);
        let source: &[u8] = if use_default {
            default_colors_bytes()
        } else {
            match &env.colors {
                Some(s) => s.as_slice(),
                None => return colors,
            }
        };
        if !force && (nocolor || !env.stdout_tty) {
            return colors;
        }
        colors.enabled = true;
        let ghost start = colors@;
        let mut entry: Vec<u8> = Vec::new();
        let mut i: usize = 0;
        assert(source@.take(0) =~= Seq::<u8>::empty());
        assert(split_on(source@.take(0), 0x3a).drop_last() =~= Seq::<Seq<u8>>::empty());
        while i < source.len()
            invariant
                i <= source@.len(),
                colors@.codes.len() == 20,
                split_on(source@.take(i as int), 0x3a).len() >= 1,
                entry@ == split_on(source@.take(i as int), 0x3a).last(),
                colors@ == color_fold(split_on(source@.take(i as int), 0x3a).drop_last(), start),
            decreases source@.len() - i,
        {
            proof {
                lemma_split_on_step(source@, 0x3a, i as int);
            }
            let ghost parts = split_on(source@.take(i as int), 0x3a);
            if source[i] == 0x3a {
                colors.apply_entry(entry.as_slice());
                entry = Vec::new();
                assert(parts.push(Seq::<u8>::empty()).drop_last() =~= parts);
                assert(parts.drop_last().push(parts.last()) =~= parts);
            } else {
                entry.push(source[i]);
                assert(parts.drop_last().push(parts.last().push(source@[i as int])).drop_last() =~= parts.drop_last());
            }
            i = i + 1;
        }
        let ghost parts = split_on(source@.take(i as int), 0x3a);
        colors.apply_entry(entry.as_slice());
        assert(parts.drop_last().push(parts.last()) =~= parts);
        assert(source@.take(i as int) =~= source@);
        let ghost folded = colors@;
        let ghost dl = or_default(folded.codes[17], seq![0x1bu8, 0x5b]);
        let ghost dr = or_default(folded.codes[18], seq![0x6du8]);
        let ghost dz = or_default(folded.codes[0], seq![0x30u8]);
        let d1: Vec<u8> = vec![0x1b, 0x5b];
        assert(d1@ == seq![0x1bu8, 0x5b]);
        let left = colors.fill_default(17, d1);
        assert(left@ == dl);
        let d2: Vec<u8> = vec![0x6d];
        assert(d2@ == seq![0x6du8]);
        let right = colors.fill_default(18, d2);
        assert(right@ == dr);
        let d3: Vec<u8> = vec![0x30];
        assert(d3@ == seq![0x30u8]);
        let reset = colors.fill_default(0, d3);
        assert(reset@ == dz);
        let mut end: Vec<u8> = copy_bytes(left.as_slice());
        push_all(&mut end, reset.as_slice());
        push_all(&mut end, right.as_slice());
        assert(end@ == dl + dz + dr);
        let _ = colors.fill_default(19, end);
        assert(colors@.codes =~= with_defaults(folded).codes);
        colors
    }
}

/// The escape sequence of a slot: left code, the slot's code, right code;
/// nothing when the slot has no code.
pub open spec fn slot_seq(c: ColorsView, slot: Slot) -> Option<Seq<u8>> {
    match c.codes[slot_index(slot)] {
        Some(code) => Some(wrap(c, code)),
        None => None,
    }
}

/// A code between the left and right codes.
pub open spec fn wrap(c: ColorsView, code: Seq<u8>) -> Seq<u8> {
    or_default(c.codes[17], Seq::empty()) + code + or_default(c.codes[18], Seq::empty())
}

/// The code of the first suffix rule whose suffix ends the name (a name
/// no longer than the suffix must equal it).
pub open spec fn ext_match(exts: Seq<(Seq<u8>, Seq<u8>)>, name: Seq<u8>) -> Option<Seq<u8>>
    decreases exts.len(),
{
    if exts.len() == 0 {
        None
    } else {
        let ext = exts[0].0;
        let tail = if name.len() > ext.len() { name.skip(name.len() - ext.len()) } else { name };
        if tail == ext {
            Some(exts[0].1)
        } else {
            ext_match(exts.skip(1), name)
        }
    }
}

/// `first` when it is some sequence, else `second`.
pub open spec fn or_else(first: Option<Seq<u8>>, second: Option<Seq<u8>>) -> Option<Seq<u8>> {
    if first is Some { first } else { second }
}

/// A directory: sticky and other-writable, sticky, other-writable, then
/// plain, each only when its slot has a code.
pub open spec fn dir_color(c: ColorsView, mode: u32) -> Option<Seq<u8>> {
    let sticky = mode & 0o1000u32 != 0;
    let ow = mode & 0o002u32 != 0;
    or_else(
        if sticky && ow { slot_seq(c, Slot::StickyOtherWritable) } else { None },
        or_else(
            if sticky && !ow { slot_seq(c, Slot::Sticky) } else { None },
            or_else(if ow { slot_seq(c, Slot::OtherWritable) } else { None }, slot_seq(c, Slot::Dir)),
        ),
    )
}

/// A regular file: setuid, setgid, executable, then the suffix rules,
/// then plain.
pub open spec fn file_color(c: ColorsView, mode: u32, name: Seq<u8>) -> Option<Seq<u8>> {
    or_else(
        if mode & 0o4000u32 != 0 { slot_seq(c, Slot::Setuid) } else { None },
        or_else(
            if mode & 0o2000u32 != 0 { slot_seq(c, Slot::Setgid) } else { None },
            or_else(
                if mode & 0o111u32 != 0 { slot_seq(c, Slot::Exec) } else { None },
                match ext_match(c.exts, name) {
                    Some(code) => Some(wrap(c, code)),
                    None => slot_seq(c, Slot::File),
                },
            ),
        ),
    )
}

/// tree's color(): the escape sequence for an entry, or nothing when it
/// stays uncolored. Orphans (and missing link targets) first; unknown
/// types take the normal color.
pub open spec fn spec_for_entry(c: ColorsView, mode: u32, name: Seq<u8>, orphan: bool, islink: bool) -> Option<Seq<u8>> {
    let t = mode & 0o170000u32;
    or_else(
        if orphan { slot_seq(c, if islink { Slot::Missing } else { Slot::Orphan }) } else { None },
        if t == 0o010000 {
            slot_seq(c, Slot::Fifo)
        } else if t == 0o020000 {
            slot_seq(c, Slot::Chr)
        } else if t == 0o040000 {
            dir_color(c, mode)
        } else if t == 0o060000 {
            slot_seq(c, Slot::Blk)
        } else if t == 0o120000 {
            slot_seq(c, Slot::Link)
        } else if t == 0o140000 {
            slot_seq(c, Slot::Sock)
        } else if t == 0o100000 {
            file_color(c, mode, name)
        } else {
            slot_seq(c, Slot::Normal)
        },
    )
}

/// The view of an optional byte string.
pub open spec fn opt_seq(r: Option<Vec<u8>>) -> Option<Seq<u8>> {
    match r {
        Some(v) => Some(v@),
        None => None,
    }
}

impl Colors {
    fn code_or_empty(&self, i: usize) -> (r: Vec<u8>)
        requires
            i < self@.codes.len(),
        ensures
            r@ == or_default(self@.codes[i as int], Seq::empty()),
    {
        assert(self@.codes[i as int] == opt_bytes(self.codes@[i as int]));
        match &self.codes[i] {
            Some(c) => copy_bytes(c.as_slice()),
            None => Vec::new(),
        }
    }

    fn wrap_code(&self, code: &[u8]) -> (r: Vec<u8>)
        requires
            self@.codes.len() == 20,
        ensures
            r@ == wrap(self@, code@),
    {
        let mut r = self.code_or_empty(17);
        push_all(&mut r, code);
        let right = self.code_or_empty(18);
        push_all(&mut r, right.as_slice());
        r
    }

    fn seq(&self, slot: Slot) -> (r: Option<Vec<u8>>)
        requires
            self@.codes.len() == 20,
        ensures
            opt_seq(r) == slot_seq(self@, slot),
    {
        let i = slot_idx(slot);
        assert(self@.codes[i as int] == opt_bytes(self.codes@[i as int]));
        match &self.codes[i] {
            Some(code) => Some(self.wrap_code(code.as_slice())),
            None => None,
        }
    }

    /// The end code, which closes a colored name.
    pub fn end(&self) -> (r: &[u8])
        requires
            self@.codes.len() == 20,
        ensures
            r@ == or_default(self@.codes[19], Seq::empty()),
    {
        assert(self@.codes[19] == opt_bytes(self.codes@[19]));
        match &self.codes[19] {
            Some(c) => c.as_slice(),
            None => {
                let e: &[u8] = &[];
                assert(e@ =~= Seq::<u8>::empty());
                e
            },
        }
    }

    fn ext_code(&self, name: &[u8]) -> (r: Option<Vec<u8>>)
        ensures
            opt_seq(r) == ext_match(self@.exts, name@),
    {
        let mut i: usize = 0;
        assert(self@.exts.skip(0) =~= self@.exts);
        while i < self.exts.len()
            invariant
                i <= self.exts@.len(),
                self@.exts.len() == self.exts@.len(),
                ext_match(self@.exts, name@) == ext_match(self@.exts.skip(i as int), name@),
            decreases self.exts@.len() - i,
        {
            let ext = self.exts[i].0.as_slice();
            let ghost rest = self@.exts.skip(i as int);
            assert(rest[0] == (ext@, self.exts@[i as int].1@));
            let tail: Vec<u8> = if name.len() > ext.len() {
                copy_from(name, name.len() - ext.len())
            } else {
                copy_bytes(name)
            };
            if bytes_eq(tail.as_slice(), ext) {
                return Some(copy_bytes(self.exts[i].1.as_slice()));
            }
            assert(rest.skip(1) =~= self@.exts.skip(i + 1));
            i = i + 1;
        }
        None
    }

    fn dir_seq(&self, mode: u32) -> (r: Option<Vec<u8>>)
        requires
            self@.codes.len() == 20,
        ensures
            opt_seq(r) == dir_color(self@, mode),
    {
        if mode & 0o1000u32 != 0 {
            if mode & 0o002u32 != 0 {
                if let Some(s) = self.seq(Slot::StickyOtherWritable) {
                    return Some(s);
                }
            }
            if mode & 0o002u32 == 0 {
                if let Some(s) = self.seq(Slot::Sticky) {
                    return Some(s);
                }
            }
        }
        if mode & 0o002u32 != 0 {
            if let Some(s) = self.seq(Slot::OtherWritable) {
                return Some(s);
            }
        }
        self.seq(Slot::Dir)
    }

    fn file_seq(&self, mode: u32, name: &[u8]) -> (r: Option<Vec<u8>>)
        requires
            self@.codes.len() == 20,
        ensures
            opt_seq(r) == file_color(self@, mode, name@),
    {
        if mode & 0o4000u32 != 0 {
            if let Some(s) = self.seq(Slot::Setuid) {
                return Some(s);
            }
        }
        if mode & 0o2000u32 != 0 {
            if let Some(s) = self.seq(Slot::Setgid) {
                return Some(s);
            }
        }
        if mode & 0o111u32 != 0 {
            if let Some(s) = self.seq(Slot::Exec) {
                return Some(s);
            }
        }
        match self.ext_code(name) {
            Some(code) => Some(self.wrap_code(code.as_slice())),
            None => self.seq(Slot::File),
        }
    }

    /// tree's color(): the escape sequence for an entry, or `None` when
    /// it stays uncolored.
    pub fn for_entry(&self, mode: u32, name: &[u8], orphan: bool, islink: bool) -> (r: Option<Vec<u8>>)
        requires
            self@.codes.len() == 20,
        ensures
            opt_seq(r) == spec_for_entry(self@, mode, name@, orphan, islink),
    {
        if orphan {
            let slot = if islink { Slot::Missing } else { Slot::Orphan };
            if let Some(s) = self.seq(slot) {
                return Some(s);
            }
        }
        let t = mode & 0o170000u32;
        if t == 0o010000 {
            self.seq(Slot::Fifo)
        } else if t == 0o020000 {
            self.seq(Slot::Chr)
        } else if t == 0o040000 {
            self.dir_seq(mode)
        } else if t == 0o060000 {
            self.seq(Slot::Blk)
        } else if t == 0o120000 {
            self.seq(Slot::Link)
        } else if t == 0o140000 {
            self.seq(Slot::Sock)
        } else if t == 0o100000 {
            self.file_seq(mode, name)
        } else {
            self.seq(Slot::Normal)
        }
    }
}

/// With colors off, nothing is colored.
pub proof fn law_no_colors_color_nothing(mode: u32, name: Seq<u8>, orphan: bool, islink: bool)
    ensures
        spec_for_entry(no_colors(), mode, name, orphan, islink) is None,
{
    assert(ext_match(no_colors().exts, name) is None);
}

proof fn lemma_find_eq(key: Seq<u8>, rest: Seq<u8>, from: int)
    requires
        0 <= from <= key.len(),
        forall|i: int| 0 <= i < key.len() ==> key[i] != 0x3d,
    ensures
        find_byte(key + seq![0x3du8] + rest, 0x3d, from) == key.len(),
    decreases key.len() - from,
{
    let e = key + seq![0x3du8] + rest;
    if from < key.len() {
        assert(e[from] == key[from]);
        lemma_find_eq(key, rest, from + 1);
    } else {
        assert(e[from] == 0x3d);
    }
}

/// Suffix rules are read front to back and matched back to front: a rule
/// `*suffix=code` read after the others wins for every name it fits.
pub proof fn law_latest_suffix_rule_wins(st: ColorsView, suffix: Seq<u8>, code: Seq<u8>, name: Seq<u8>)
    requires
        forall|i: int| 0 <= i < suffix.len() ==> suffix[i] != 0x3d,
        (if name.len() > suffix.len() { name.skip(name.len() - suffix.len()) } else { name }) == suffix,
    ensures
        ext_match(color_step(st, seq![0x2au8] + suffix + seq![0x3du8] + code).exts, name) == Some(code),
{
    let key = seq![0x2au8] + suffix;
    let e = seq![0x2au8] + suffix + seq![0x3du8] + code;
    assert(forall|i: int| 0 <= i < key.len() ==> key[i] != 0x3d) by {
        assert forall|i: int| 0 <= i < key.len() implies key[i] != 0x3d by {
            if i > 0 {
                assert(key[i] == suffix[i - 1]);
            }
        }
    }
    lemma_find_eq(key, code, 0);
    assert(e == key + seq![0x3du8] + code);
    assert(entry_key(e) =~= key);
    assert(entry_value(e) == Some(code)) by {
        assert(e.skip(key.len() + 1int) =~= code);
    }
    assert(key.skip(1) =~= suffix);
    let exts = color_step(st, e).exts;
    assert(exts[0] == (suffix, code));
}

/// A directory without the sticky bit and without the other-write bit is
/// colored with the `di` code, whatever its owner and group bits; an
/// orphan flag aside, that is also what `for_entry` gives it.
pub proof fn law_plain_directory_takes_di(c: ColorsView, mode: u32, name: Seq<u8>, islink: bool)
    requires
        mode & 0o170000u32 == 0o040000u32,
        mode & 0o1002u32 == 0,
    ensures
        dir_color(c, mode) == slot_seq(c, Slot::Dir),
        spec_for_entry(c, mode, name, false, islink) == slot_seq(c, Slot::Dir),
{
    assert(mode & 0o1002u32 == 0 ==> mode & 0o1000u32 == 0 && mode & 0o002u32 == 0) by (bit_vector);
}

/// A directory that others may write, without the sticky bit, takes the
/// `ow` code when there is one and the `di` code otherwise, whatever its
/// owner and group bits.
pub proof fn law_other_writable_directory_takes_ow(c: ColorsView, mode: u32, name: Seq<u8>, islink: bool)
    requires
        mode & 0o170000u32 == 0o040000u32,
        mode & 0o1000u32 == 0,
        mode & 0o002u32 != 0,
    ensures
        dir_color(c, mode) == or_else(slot_seq(c, Slot::OtherWritable), slot_seq(c, Slot::Dir)),
        spec_for_entry(c, mode, name, false, islink) == dir_color(c, mode),
{
}

/// A sticky directory takes the `tw` code when others may write it, then
/// `ow`, then `di`; without the other-write bit it takes `st`, then `di`.
pub proof fn law_sticky_directory_colors(c: ColorsView, mode: u32, name: Seq<u8>, islink: bool)
    requires
        mode & 0o170000u32 == 0o040000u32,
        mode & 0o1000u32 != 0,
    ensures
        mode & 0o002u32 != 0 ==> spec_for_entry(c, mode, name, false, islink) == or_else(
            slot_seq(c, Slot::StickyOtherWritable),
            or_else(slot_seq(c, Slot::OtherWritable), slot_seq(c, Slot::Dir)),
        ),
        mode & 0o002u32 == 0 ==> spec_for_entry(c, mode, name, false, islink) == or_else(
            slot_seq(c, Slot::Sticky),
            slot_seq(c, Slot::Dir),
        ),
{
}

/// A regular file with any execute bit (owner, group or other) and no
/// set-id bit takes the `ex` code when there is one; with no execute and
/// no set-id bit it takes its suffix rule's code, else `fi`. A set-user-id
/// file takes `su` first, a set-group-id one `sg`.
pub proof fn law_regular_file_colors(c: ColorsView, mode: u32, name: Seq<u8>, islink: bool)
    requires
        mode & 0o170000u32 == 0o100000u32,
    ensures
        ({
            let rest = match ext_match(c.exts, name) {
                Some(code) => Some(wrap(c, code)),
                None => slot_seq(c, Slot::File),
            };
            &&& spec_for_entry(c, mode, name, false, islink) == file_color(c, mode, name)
            &&& mode & 0o6000u32 == 0 && (mode & 0o100u32 != 0 || mode & 0o010u32 != 0 || mode & 0o001u32 != 0)
                ==> file_color(c, mode, name) == or_else(slot_seq(c, Slot::Exec), rest)
            &&& mode & 0o6000u32 == 0 && mode & 0o100u32 == 0 && mode & 0o010u32 == 0 && mode & 0o001u32 == 0
                ==> file_color(c, mode, name) == rest
            &&& mode & 0o4000u32 != 0 && slot_seq(c, Slot::Setuid) is Some
                ==> file_color(c, mode, name) == slot_seq(c, Slot::Setuid)
            &&& mode & 0o4000u32 == 0 && mode & 0o2000u32 != 0 && slot_seq(c, Slot::Setgid) is Some
                ==> file_color(c, mode, name) == slot_seq(c, Slot::Setgid)
        }),
{
    assert(mode & 0o6000u32 == 0 ==> mode & 0o4000u32 == 0 && mode & 0o2000u32 == 0) by (bit_vector);
    assert((mode & 0o100u32 != 0 || mode & 0o010u32 != 0 || mode & 0o001u32 != 0) <==> mode & 0o111u32 != 0)
        by (bit_vector);
}

proof fn lemma_fold_keeps_enabled(entries: Seq<Seq<u8>>, st: ColorsView)
    ensures
        color_fold(entries, st).enabled == st.enabled,
    decreases entries.len(),
{
    if entries.len() > 0 {
        lemma_fold_keeps_enabled(entries.drop_last(), st);
    }
}

/// When colors are on: never without TERM; never with -n or NO_COLOR
/// unless -C forces them (CLICOLOR_FORCE does not override those); never
/// on output that is not a terminal unless -C or CLICOLOR_FORCE forces
/// them; always with -C and TERM; and on a terminal without -n or
/// NO_COLOR whenever there is a color string (or CLICOLOR asks for the
/// builtin one).
pub proof fn law_when_colors_are_on(no_color: bool, force_color: bool, env: ColorEnv)
    ensures
        !env.term ==> !spec_colors(no_color, force_color, env).enabled,
        (no_color || env.no_color) && !force_color ==> !spec_colors(no_color, force_color, env).enabled,
        !env.stdout_tty && !force_color && !env.clicolor_force ==> !spec_colors(no_color, force_color, env).enabled,
        env.term && force_color ==> spec_colors(no_color, force_color, env).enabled,
        env.term && env.stdout_tty && !no_color && !env.no_color
            && ((opt_bytes(env.colors) is Some && opt_bytes(env.colors).unwrap().len() > 0) || env.clicolor)
            ==> spec_colors(no_color, force_color, env).enabled,
{
    lemma_fold_keeps_enabled(split_on(default_colors(), 0x3a), ColorsView { enabled: true, ..no_colors() });
    if opt_bytes(env.colors) is Some {
        lemma_fold_keeps_enabled(
            split_on(opt_bytes(env.colors).unwrap(), 0x3a),
            ColorsView { enabled: true, ..no_colors() },
        );
    }
}

} // verus!
