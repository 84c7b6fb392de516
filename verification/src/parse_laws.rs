//! What holds of every command line that parses.
use vstd::prelude::*;
use crate::bytes::lit;
use crate::decimal::digits;
use crate::verscmp::{is_digit, lemma_digits_plain};
use crate::options::{
    LongKind, OptionsView, ParseSpec, ShortKind, StepSpec, Switch, Valued, apply_file_limit, apply_host,
    apply_level, apply_path, apply_sort, apply_switch, apply_valued, default_options, default_path,
    digit_run, dirs_unprune, finish_options, finished, lemma_digit_run, lemma_finish_options_finished,
    lemma_finish_options_unfold, lemma_option_step_next, lemma_option_step_unfold, long_kind, long_name,
    long_step, long_value, option_step, parse_from, rerun_needs_level, short_kind, short_steps,
    spec_parse, spec_parse_level, unsorted_untop, fold_radix, spec_strtoul0, digit_value, saturating_step,
    leading_spaces,
};

verus! {

proof fn lemma_parse_from_finished(args: Seq<Seq<u8>>, i: int, only_paths: bool, o: OptionsView)
    ensures
        parse_from(args, i, only_paths, o) matches ParseSpec::Parsed(v) ==> finished(v),
    decreases args.len() - i,
{
    if i < 0 || i >= args.len() {
        lemma_finish_options_finished(o);
    } else {
        let arg = args[i];
        if only_paths || !(arg.len() > 0 && arg[0] == 0x2d) || arg == lit("-") {
            lemma_parse_from_finished(args, i + 1, only_paths, apply_path(arg, o));
        } else if arg == lit("--") {
            lemma_parse_from_finished(args, i + 1, true, o);
        } else {
            lemma_option_step_next(args, i, o);
            if let StepSpec::Next(o2, nx) = option_step(args, i, o) {
                lemma_parse_from_finished(args, nx, only_paths, o2);
            }
        }
    }
}

/// Whatever the arguments, options that parse successfully are
/// finished: a path to list, no --prune with -d, no --dirsfirst or
/// --filesfirst with -U, and no -R without -L.
pub proof fn law_parsed_options_finished(args: Seq<Seq<u8>>)
    ensures
        spec_parse(args) matches ParseSpec::Parsed(v) ==> finished(v),
{
    lemma_parse_from_finished(args, 0, false, default_options());
}

proof fn lemma_digit_run_digits(s: Seq<u8>, from: int, m: int)
    requires
        0 <= from <= m < from + digit_run(s, from),
    ensures
        0x30 <= s[m] <= 0x39,
    decreases s.len() - from,
{
    if m > from {
        lemma_digit_run_digits(s, from + 1, m);
    }
}

proof fn lemma_dash_lits()
    ensures
        lit("-") == seq![0x2du8],
        lit("--") == seq![0x2du8, 0x2du8],
{
    reveal_strlit("-");
    reveal_strlit("--");
    vstd::string::is_ascii_spec_bytes("-");
    vstd::string::is_ascii_spec_bytes("--");
    assert(lit("-") =~= seq![0x2du8]);
    assert(lit("--") =~= seq![0x2du8, 0x2du8]);
}

/// `-h` asks for human-readable sizes and so also shows the size column:
/// when an argument is a cluster of short flags holding `h` (such as `-h`
/// or `-ah`), read as options because every argument before it is read on
/// its own (a path, a cluster of switches or a long switch), and the
/// arguments parse, the options have both `human` and `show_size` on,
/// whatever follows.
pub proof fn law_h_flag_shows_human_sizes(args: Seq<Seq<u8>>, p: int, k: int)
    requires
        0 <= p < args.len(),
        forall|j: int| 0 <= j < p ==> #[trigger] self_contained(args[j]),
        args[p].len() > 1,
        args[p][0] == 0x2d,
        args[p][1] != 0x2d,
        1 <= k < args[p].len(),
        args[p][k] == 0x68,
    ensures
        spec_parse(args) matches ParseSpec::Parsed(v) ==> v.human && v.show_size,
{
    assert(short_kind(0x68) == ShortKind::Switch(Switch::Human));
    law_switch_lasts_after_plain_arguments(args, p, k, Switch::Human);
}

/// Every on/off option that `o` has on, `v` has on too (for the switches
/// that nothing turns off again once given).
#[verifier::opaque]
pub open spec fn lasting_kept(o: OptionsView, v: OptionsView) -> bool {
    &&& o.all_files ==> v.all_files
    &&& o.dirs_only ==> v.dirs_only
    &&& o.full_path ==> v.full_path
    &&& o.follow_links ==> v.follow_links
    &&& o.xdev ==> v.xdev
    &&& o.no_report ==> v.no_report
    &&& o.reverse ==> v.reverse
    &&& o.use_ctime ==> v.use_ctime
    &&& o.show_perms ==> v.show_perms
    &&& o.show_uid ==> v.show_uid
    &&& o.show_gid ==> v.show_gid
    &&& o.show_size ==> v.show_size
    &&& o.human ==> v.human
    &&& o.si ==> v.si
    &&& o.show_date ==> v.show_date
    &&& o.classify ==> v.classify
    &&& o.qmark ==> v.qmark
    &&& o.no_escape ==> v.no_escape
    &&& o.quote ==> v.quote
    &&& o.show_inode ==> v.show_inode
    &&& o.show_device ==> v.show_device
    &&& o.du ==> v.du
    &&& o.force_color ==> v.force_color
    &&& o.no_color ==> v.no_color
    &&& o.noindent ==> v.noindent
    &&& o.ansilines ==> v.ansilines
    &&& o.nolinks ==> v.nolinks
    &&& o.ignore_case ==> v.ignore_case
    &&& o.matchdirs ==> v.matchdirs
    &&& o.gitignore ==> v.gitignore
    &&& o.info ==> v.info
}

/// What a switch leaves on for good: the on/off options it turns on (`-h`
/// and `--si` also turn on the size column, `--du` too, and `-c` asks for
/// change times). Switches that pick among several values, which a later
/// option may change again, promise nothing here.
pub open spec fn switch_sets(sw: Switch, v: OptionsView) -> bool {
    match sw {
        Switch::AllFiles => v.all_files,
        Switch::DirsOnly => v.dirs_only,
        Switch::ShowPerms => v.show_perms,
        Switch::ShowUid => v.show_uid,
        Switch::ShowGid => v.show_gid,
        Switch::ShowSize => v.show_size,
        Switch::Human => v.human && v.show_size,
        Switch::ShowDate => v.show_date,
        Switch::ForceColor => v.force_color,
        Switch::NoColor => v.no_color,
        Switch::NoIndent => v.noindent,
        Switch::AnsiLines => v.ansilines,
        Switch::Classify => v.classify,
        Switch::Qmark => v.qmark,
        Switch::NoEscape => v.no_escape,
        Switch::Quote => v.quote,
        Switch::SortCtime => v.use_ctime,
        Switch::Reverse => v.reverse,
        Switch::FullPath => v.full_path,
        Switch::FollowLinks => v.follow_links,
        Switch::Xdev => v.xdev,
        Switch::NoReport => v.no_report,
        Switch::Inodes => v.show_inode,
        Switch::Device => v.show_device,
        Switch::Si => v.si && v.human && v.show_size,
        Switch::Du => v.du && v.show_size,
        Switch::NoLinks => v.nolinks,
        Switch::MatchDirs => v.matchdirs,
        Switch::GitIgnore => v.gitignore,
        Switch::Info => v.info,
        Switch::IgnoreCase => v.ignore_case,
        _ => true,
    }
}

proof fn lemma_switch_sets_itself_0(sw: Switch, o: OptionsView)
    requires
        sw is AllFiles || sw is DirsOnly || sw is ShowPerms || sw is ShowUid || sw is ShowGid || sw is ShowSize,
    ensures
        switch_sets(sw, apply_switch(sw, o)),
{
    match sw {
        Switch::AllFiles => {},
        Switch::DirsOnly => {},
        Switch::ShowPerms => {},
        Switch::ShowUid => {},
        Switch::ShowGid => {},
        Switch::ShowSize => {},
        _ => {},
    }
}

proof fn lemma_switch_sets_itself_1(sw: Switch, o: OptionsView)
    requires
        sw is Human || sw is ShowDate || sw is ForceColor || sw is Json || sw is Xml || sw is Rerun,
    ensures
        switch_sets(sw, apply_switch(sw, o)),
{
    match sw {
        Switch::Human => {},
        Switch::ShowDate => {},
        Switch::ForceColor => {},
        Switch::Json => {},
        Switch::Xml => {},
        Switch::Rerun => {},
        _ => {},
    }
}

proof fn lemma_switch_sets_itself_2(sw: Switch, o: OptionsView)
    requires
        sw is NoColor || sw is NoIndent || sw is AnsiLines || sw is Ibm437 || sw is Classify || sw is Qmark,
    ensures
        switch_sets(sw, apply_switch(sw, o)),
{
    match sw {
        Switch::NoColor => {},
        Switch::NoIndent => {},
        Switch::AnsiLines => {},
        Switch::Ibm437 => {},
        Switch::Classify => {},
        Switch::Qmark => {},
        _ => {},
    }
}

proof fn lemma_switch_sets_itself_3(sw: Switch, o: OptionsView)
    requires
        sw is NoEscape || sw is Quote || sw is SortVersion || sw is SortMtime || sw is SortCtime || sw is Unsorted,
    ensures
        switch_sets(sw, apply_switch(sw, o)),
{
    match sw {
        Switch::NoEscape => {},
        Switch::Quote => {},
        Switch::SortVersion => {},
        Switch::SortMtime => {},
        Switch::SortCtime => {},
        Switch::Unsorted => {},
        _ => {},
    }
}

proof fn lemma_switch_sets_itself_4(sw: Switch, o: OptionsView)
    requires
        sw is Reverse || sw is FullPath || sw is FollowLinks || sw is Xdev || sw is NoReport || sw is Inodes,
    ensures
        switch_sets(sw, apply_switch(sw, o)),
{
    match sw {
        Switch::Reverse => {},
        Switch::FullPath => {},
        Switch::FollowLinks => {},
        Switch::Xdev => {},
        Switch::NoReport => {},
        Switch::Inodes => {},
        _ => {},
    }
}

proof fn lemma_switch_sets_itself_5(sw: Switch, o: OptionsView)
    requires
        sw is Device || sw is Si || sw is Du || sw is NoLinks || sw is DirsFirst || sw is FilesFirst,
    ensures
        switch_sets(sw, apply_switch(sw, o)),
{
    match sw {
        Switch::Device => {},
        Switch::Si => {},
        Switch::Du => {},
        Switch::NoLinks => {},
        Switch::DirsFirst => {},
        Switch::FilesFirst => {},
        _ => {},
    }
}

proof fn lemma_switch_sets_itself_6(sw: Switch, o: OptionsView)
    requires
        sw is Prune || sw is MatchDirs || sw is GitIgnore || sw is Info || sw is IgnoreCase,
    ensures
        switch_sets(sw, apply_switch(sw, o)),
{
    match sw {
        Switch::Prune => {},
        Switch::MatchDirs => {},
        Switch::GitIgnore => {},
        Switch::Info => {},
        Switch::IgnoreCase => {},
        _ => {},
    }
}

proof fn lemma_switch_sets_itself(sw: Switch, o: OptionsView)
    ensures
        switch_sets(sw, apply_switch(sw, o)),
{
    if sw is AllFiles || sw is DirsOnly || sw is ShowPerms || sw is ShowUid || sw is ShowGid || sw is ShowSize {
        lemma_switch_sets_itself_0(sw, o);
    } else if sw is Human || sw is ShowDate || sw is ForceColor || sw is Json || sw is Xml || sw is Rerun {
        lemma_switch_sets_itself_1(sw, o);
    } else if sw is NoColor || sw is NoIndent || sw is AnsiLines || sw is Ibm437 || sw is Classify || sw is Qmark {
        lemma_switch_sets_itself_2(sw, o);
    } else if sw is NoEscape || sw is Quote || sw is SortVersion || sw is SortMtime || sw is SortCtime || sw is Unsorted {
        lemma_switch_sets_itself_3(sw, o);
    } else if sw is Reverse || sw is FullPath || sw is FollowLinks || sw is Xdev || sw is NoReport || sw is Inodes {
        lemma_switch_sets_itself_4(sw, o);
    } else if sw is Device || sw is Si || sw is Du || sw is NoLinks || sw is DirsFirst || sw is FilesFirst {
        lemma_switch_sets_itself_5(sw, o);
    } else {
        lemma_switch_sets_itself_6(sw, o);
    }
}

#[verifier::rlimit(100)]
proof fn lemma_switch_sets_kept(sw: Switch, o: OptionsView, v: OptionsView)
    requires
        switch_sets(sw, o),
        lasting_kept(o, v),
    ensures
        switch_sets(sw, v),
{
    reveal(lasting_kept);
}

proof fn lemma_lasting_refl(o: OptionsView)
    ensures
        lasting_kept(o, o),
{
    reveal(lasting_kept);
}

proof fn lemma_lasting_trans(a: OptionsView, b: OptionsView, c: OptionsView)
    requires
        lasting_kept(a, b),
        lasting_kept(b, c),
    ensures
        lasting_kept(a, c),
{
    reveal(lasting_kept);
}

#[verifier::rlimit(50)]
proof fn lemma_switch_lasting(sw: Switch, o: OptionsView)
    ensures
        lasting_kept(o, apply_switch(sw, o)),
{
    reveal(lasting_kept);
}

proof fn lemma_valued_lasting(k: Valued, v: Seq<u8>, o: OptionsView)
    ensures
        lasting_kept(o, apply_valued(k, v, o)),
{
    reveal(lasting_kept);
}

proof fn lemma_host_lasting(v: Seq<u8>, o: OptionsView)
    ensures
        lasting_kept(o, apply_host(v, o)),
{
    reveal(lasting_kept);
}

proof fn lemma_level_lasting(l: usize, o: OptionsView)
    ensures
        lasting_kept(o, apply_level(l, o)),
{
    reveal(lasting_kept);
}

proof fn lemma_path_lasting(p: Seq<u8>, o: OptionsView)
    ensures
        lasting_kept(o, apply_path(p, o)),
{
    reveal(lasting_kept);
}

proof fn lemma_default_path_lasting(o: OptionsView)
    ensures
        lasting_kept(o, default_path(o)),
{
    reveal(lasting_kept);
}

proof fn lemma_lasting_from_same(o: OptionsView, v: OptionsView)
    requires
        v.all_files == o.all_files,
        v.dirs_only == o.dirs_only,
        v.full_path == o.full_path,
        v.follow_links == o.follow_links,
        v.xdev == o.xdev,
        v.no_report == o.no_report,
        v.reverse == o.reverse,
        v.use_ctime == o.use_ctime,
        v.show_perms == o.show_perms,
        v.show_uid == o.show_uid,
        v.show_gid == o.show_gid,
        v.show_size == o.show_size,
        v.human == o.human,
        v.si == o.si,
        v.show_date == o.show_date,
        v.classify == o.classify,
        v.qmark == o.qmark,
        v.no_escape == o.no_escape,
        v.quote == o.quote,
        v.show_inode == o.show_inode,
        v.show_device == o.show_device,
        v.du == o.du,
        v.force_color == o.force_color,
        v.no_color == o.no_color,
        v.noindent == o.noindent,
        v.ansilines == o.ansilines,
        v.nolinks == o.nolinks,
        v.ignore_case == o.ignore_case,
        v.matchdirs == o.matchdirs,
        v.gitignore == o.gitignore,
        v.info == o.info,
    ensures
        lasting_kept(o, v),
{
    reveal(lasting_kept);
}

proof fn lemma_dirs_unprune_same_0a(o: OptionsView)
    ensures
        dirs_unprune(o).all_files == o.all_files,
{
}

proof fn lemma_dirs_unprune_same_0b(o: OptionsView)
    ensures
        dirs_unprune(o).dirs_only == o.dirs_only,
{
}

proof fn lemma_dirs_unprune_same_0c(o: OptionsView)
    ensures
        dirs_unprune(o).full_path == o.full_path,
{
}

proof fn lemma_dirs_unprune_same_0d(o: OptionsView)
    ensures
        dirs_unprune(o).follow_links == o.follow_links,
{
}

proof fn lemma_dirs_unprune_same_0e(o: OptionsView)
    ensures
        dirs_unprune(o).xdev == o.xdev,
{
}

proof fn lemma_dirs_unprune_same_0f(o: OptionsView)
    ensures
        dirs_unprune(o).no_report == o.no_report,
{
}

proof fn lemma_dirs_unprune_same_0g(o: OptionsView)
    ensures
        dirs_unprune(o).reverse == o.reverse,
{
}

proof fn lemma_dirs_unprune_same_0h(o: OptionsView)
    ensures
        dirs_unprune(o).use_ctime == o.use_ctime,
{
}

proof fn lemma_dirs_unprune_same_1(o: OptionsView)
    ensures
        dirs_unprune(o).show_perms == o.show_perms,
        dirs_unprune(o).show_uid == o.show_uid,
        dirs_unprune(o).show_gid == o.show_gid,
        dirs_unprune(o).show_size == o.show_size,
        dirs_unprune(o).human == o.human,
        dirs_unprune(o).si == o.si,
        dirs_unprune(o).show_date == o.show_date,
        dirs_unprune(o).classify == o.classify,
{
}

proof fn lemma_dirs_unprune_same_2(o: OptionsView)
    ensures
        dirs_unprune(o).qmark == o.qmark,
        dirs_unprune(o).no_escape == o.no_escape,
        dirs_unprune(o).quote == o.quote,
        dirs_unprune(o).show_inode == o.show_inode,
        dirs_unprune(o).show_device == o.show_device,
        dirs_unprune(o).du == o.du,
        dirs_unprune(o).force_color == o.force_color,
        dirs_unprune(o).no_color == o.no_color,
{
}

proof fn lemma_dirs_unprune_same_3(o: OptionsView)
    ensures
        dirs_unprune(o).noindent == o.noindent,
        dirs_unprune(o).ansilines == o.ansilines,
        dirs_unprune(o).nolinks == o.nolinks,
        dirs_unprune(o).ignore_case == o.ignore_case,
        dirs_unprune(o).matchdirs == o.matchdirs,
        dirs_unprune(o).gitignore == o.gitignore,
        dirs_unprune(o).info == o.info,
{
}

proof fn lemma_dirs_unprune_lasting(o: OptionsView)
    ensures
        lasting_kept(o, dirs_unprune(o)),
{
    lemma_dirs_unprune_same_0a(o);
    lemma_dirs_unprune_same_0b(o);
    lemma_dirs_unprune_same_0c(o);
    lemma_dirs_unprune_same_0d(o);
    lemma_dirs_unprune_same_0e(o);
    lemma_dirs_unprune_same_0f(o);
    lemma_dirs_unprune_same_0g(o);
    lemma_dirs_unprune_same_0h(o);
    lemma_dirs_unprune_same_1(o);
    lemma_dirs_unprune_same_2(o);
    lemma_dirs_unprune_same_3(o);
    lemma_lasting_from_same(o, dirs_unprune(o));
}

proof fn lemma_unsorted_untop_lasting(o: OptionsView)
    ensures
        lasting_kept(o, unsorted_untop(o)),
{
    reveal(lasting_kept);
}

proof fn lemma_rerun_needs_level_same_0a(o: OptionsView)
    ensures
        rerun_needs_level(o).all_files == o.all_files,
{
}

proof fn lemma_rerun_needs_level_same_0b(o: OptionsView)
    ensures
        rerun_needs_level(o).dirs_only == o.dirs_only,
{
}

proof fn lemma_rerun_needs_level_same_0c(o: OptionsView)
    ensures
        rerun_needs_level(o).full_path == o.full_path,
{
}

proof fn lemma_rerun_needs_level_same_0d(o: OptionsView)
    ensures
        rerun_needs_level(o).follow_links == o.follow_links,
{
}

proof fn lemma_rerun_needs_level_same_0e(o: OptionsView)
    ensures
        rerun_needs_level(o).xdev == o.xdev,
{
}

proof fn lemma_rerun_needs_level_same_0f(o: OptionsView)
    ensures
        rerun_needs_level(o).no_report == o.no_report,
{
}

proof fn lemma_rerun_needs_level_same_0g(o: OptionsView)
    ensures
        rerun_needs_level(o).reverse == o.reverse,
{
}

proof fn lemma_rerun_needs_level_same_0h(o: OptionsView)
    ensures
        rerun_needs_level(o).use_ctime == o.use_ctime,
{
}

proof fn lemma_rerun_needs_level_same_1(o: OptionsView)
    ensures
        rerun_needs_level(o).show_perms == o.show_perms,
        rerun_needs_level(o).show_uid == o.show_uid,
        rerun_needs_level(o).show_gid == o.show_gid,
        rerun_needs_level(o).show_size == o.show_size,
        rerun_needs_level(o).human == o.human,
        rerun_needs_level(o).si == o.si,
        rerun_needs_level(o).show_date == o.show_date,
        rerun_needs_level(o).classify == o.classify,
{
}

proof fn lemma_rerun_needs_level_same_2(o: OptionsView)
    ensures
        rerun_needs_level(o).qmark == o.qmark,
        rerun_needs_level(o).no_escape == o.no_escape,
        rerun_needs_level(o).quote == o.quote,
        rerun_needs_level(o).show_inode == o.show_inode,
        rerun_needs_level(o).show_device == o.show_device,
        rerun_needs_level(o).du == o.du,
        rerun_needs_level(o).force_color == o.force_color,
        rerun_needs_level(o).no_color == o.no_color,
{
}

proof fn lemma_rerun_needs_level_same_3(o: OptionsView)
    ensures
        rerun_needs_level(o).noindent == o.noindent,
        rerun_needs_level(o).ansilines == o.ansilines,
        rerun_needs_level(o).nolinks == o.nolinks,
        rerun_needs_level(o).ignore_case == o.ignore_case,
        rerun_needs_level(o).matchdirs == o.matchdirs,
        rerun_needs_level(o).gitignore == o.gitignore,
        rerun_needs_level(o).info == o.info,
{
}

proof fn lemma_rerun_needs_level_lasting(o: OptionsView)
    ensures
        lasting_kept(o, rerun_needs_level(o)),
{
    lemma_rerun_needs_level_same_0a(o);
    lemma_rerun_needs_level_same_0b(o);
    lemma_rerun_needs_level_same_0c(o);
    lemma_rerun_needs_level_same_0d(o);
    lemma_rerun_needs_level_same_0e(o);
    lemma_rerun_needs_level_same_0f(o);
    lemma_rerun_needs_level_same_0g(o);
    lemma_rerun_needs_level_same_0h(o);
    lemma_rerun_needs_level_same_1(o);
    lemma_rerun_needs_level_same_2(o);
    lemma_rerun_needs_level_same_3(o);
    lemma_lasting_from_same(o, rerun_needs_level(o));
}

proof fn lemma_finish_lasting(o: OptionsView)
    ensures
        lasting_kept(o, finish_options(o)),
{
    lemma_finish_options_unfold(o);
    let a = default_path(o);
    let b = dirs_unprune(a);
    let c = unsorted_untop(b);
    lemma_default_path_lasting(o);
    lemma_dirs_unprune_lasting(a);
    lemma_unsorted_untop_lasting(b);
    lemma_rerun_needs_level_lasting(c);
    lemma_lasting_trans(o, a, b);
    lemma_lasting_trans(o, b, c);
    lemma_lasting_trans(o, c, rerun_needs_level(c));
}

proof fn lemma_short_steps_lasting(args: Seq<Seq<u8>>, arg: Seq<u8>, j: int, next: int, o: OptionsView)
    ensures
        short_steps(args, arg, j, next, o) matches StepSpec::Next(v, _) ==> lasting_kept(o, v),
    decreases arg.len() - j,
{
    if 0 <= j < arg.len() {
        let flag = arg[j];
        match short_kind(flag) {
            ShortKind::Switch(sw) => {
                let o1 = apply_switch(sw, o);
                lemma_switch_lasting(sw, o);
                lemma_short_steps_lasting(args, arg, j + 1, next, o1);
                if let StepSpec::Next(v, _) = short_steps(args, arg, j + 1, next, o1) {
                    lemma_lasting_trans(o, o1, v);
                }
            },
            ShortKind::Valued(k) => {
                if 0 <= next < args.len() {
                    let o1 = apply_valued(k, args[next], o);
                    lemma_valued_lasting(k, args[next], o);
                    lemma_short_steps_lasting(args, arg, j + 1, next + 1, o1);
                    if let StepSpec::Next(v, _) = short_steps(args, arg, j + 1, next + 1, o1) {
                        lemma_lasting_trans(o, o1, v);
                    }
                }
            },
            ShortKind::Host => {
                if 0 <= next < args.len() {
                    let o1 = apply_host(args[next], o);
                    lemma_host_lasting(args[next], o);
                    lemma_short_steps_lasting(args, arg, j + 1, next + 1, o1);
                    if let StepSpec::Next(v, _) = short_steps(args, arg, j + 1, next + 1, o1) {
                        lemma_lasting_trans(o, o1, v);
                    }
                }
            },
            ShortKind::Level => {
                lemma_digit_run(arg, j + 1);
                let d = digit_run(arg, j + 1);
                if d > 0 {
                    if let Ok(l) = spec_parse_level(arg.subrange(j + 1, j + 1 + d)) {
                        let o1 = apply_level(l, o);
                        lemma_level_lasting(l, o);
                        lemma_short_steps_lasting(args, arg, j + 1 + d, next, o1);
                        if let StepSpec::Next(v, _) = short_steps(args, arg, j + 1 + d, next, o1) {
                            lemma_lasting_trans(o, o1, v);
                        }
                    }
                } else if 0 <= next < args.len() {
                    if let Ok(l) = spec_parse_level(args[next]) {
                        let o1 = apply_level(l, o);
                        lemma_level_lasting(l, o);
                        lemma_short_steps_lasting(args, arg, j + 1, next + 1, o1);
                        if let StepSpec::Next(v, _) = short_steps(args, arg, j + 1, next + 1, o1) {
                            lemma_lasting_trans(o, o1, v);
                        }
                    }
                }
            },
            ShortKind::Invalid => {},
        }
    } else {
        lemma_lasting_refl(o);
    }
}

proof fn lemma_long_step_lasting(args: Seq<Seq<u8>>, i: int, o: OptionsView)
    ensures
        long_step(args, i, o) matches StepSpec::Next(v, _) ==> lasting_kept(o, v),
{
    match long_kind(long_name(args[i])) {
        LongKind::Switch(sw) => lemma_switch_lasting(sw, o),
        LongKind::Valued(k) => {
            if let Ok((v, nx)) = long_value(args, i) {
                lemma_valued_lasting(k, v, o);
            }
        },
        LongKind::Sort => {
            reveal(lasting_kept);
        },
        LongKind::FileLimit => {
            reveal(lasting_kept);
        },
        _ => {},
    }
}

proof fn lemma_parse_from_lasting(args: Seq<Seq<u8>>, i: int, only_paths: bool, o: OptionsView)
    ensures
        parse_from(args, i, only_paths, o) matches ParseSpec::Parsed(v) ==> lasting_kept(o, v),
    decreases args.len() - i,
{
    if i < 0 || i >= args.len() {
        lemma_finish_lasting(o);
    } else {
        let arg = args[i];
        if only_paths || !(arg.len() > 0 && arg[0] == 0x2d) || arg == lit("-") {
            let o2 = apply_path(arg, o);
            lemma_path_lasting(arg, o);
            lemma_parse_from_lasting(args, i + 1, only_paths, o2);
            if let ParseSpec::Parsed(v) = parse_from(args, i + 1, only_paths, o2) {
                lemma_lasting_trans(o, o2, v);
            }
        } else if arg == lit("--") {
            lemma_parse_from_lasting(args, i + 1, true, o);
        } else {
            lemma_option_step_next(args, i, o);
            lemma_option_step_unfold(args, i, o);
            lemma_long_step_lasting(args, i, o);
            lemma_short_steps_lasting(args, arg, 1, i + 1, o);
            if let StepSpec::Next(o2, nx) = option_step(args, i, o) {
                lemma_parse_from_lasting(args, nx, only_paths, o2);
                if let ParseSpec::Parsed(v) = parse_from(args, nx, only_paths, o2) {
                    lemma_lasting_trans(o, o2, v);
                }
            }
        }
    }
}

/// A switch flag at byte `k` of a cluster read from byte `j` on leaves
/// what it turns on in the options the cluster builds.
proof fn lemma_short_steps_switch(
    args: Seq<Seq<u8>>, arg: Seq<u8>, j: int, k: int, sw: Switch, next: int, o: OptionsView,
)
    requires
        0 <= j <= k < arg.len(),
        short_kind(arg[k]) == ShortKind::Switch(sw),
    ensures
        short_steps(args, arg, j, next, o) matches StepSpec::Next(v, _) ==> switch_sets(sw, v),
    decreases arg.len() - j,
{
    let flag = arg[j];
    if j == k {
        let h = apply_switch(sw, o);
        lemma_switch_sets_itself(sw, o);
        lemma_short_steps_lasting(args, arg, j + 1, next, h);
        if let StepSpec::Next(v, _) = short_steps(args, arg, j + 1, next, h) {
            lemma_switch_sets_kept(sw, h, v);
        }
    } else {
        match short_kind(flag) {
            ShortKind::Switch(s2) => {
                lemma_short_steps_switch(args, arg, j + 1, k, sw, next, apply_switch(s2, o));
            },
            ShortKind::Valued(kd) => {
                if 0 <= next < args.len() {
                    lemma_short_steps_switch(args, arg, j + 1, k, sw, next + 1, apply_valued(kd, args[next], o));
                }
            },
            ShortKind::Host => {
                if 0 <= next < args.len() {
                    lemma_short_steps_switch(args, arg, j + 1, k, sw, next + 1, apply_host(args[next], o));
                }
            },
            ShortKind::Level => {
                lemma_digit_run(arg, j + 1);
                let d = digit_run(arg, j + 1);
                if d > 0 {
                    if k < j + 1 + d {
                        lemma_digit_run_digits(arg, j + 1, k);
                    }
                    if let Ok(l) = spec_parse_level(arg.subrange(j + 1, j + 1 + d)) {
                        lemma_short_steps_switch(args, arg, j + 1 + d, k, sw, next, apply_level(l, o));
                    }
                } else if 0 <= next < args.len() {
                    if let Ok(l) = spec_parse_level(args[next]) {
                        lemma_short_steps_switch(args, arg, j + 1, k, sw, next + 1, apply_level(l, o));
                    }
                }
            },
            ShortKind::Invalid => {},
        }
    }
}

/// On/off switches last: when the first argument is a cluster of short
/// flags holding a switch (`-a`, `-s`, `-h`, `-c`, ...) and the arguments
/// parse, the options have on what that switch turns on, whatever else
/// the command line says.
pub proof fn law_short_switch_lasts(args: Seq<Seq<u8>>, k: int, sw: Switch)
    requires
        args.len() > 0,
        args[0].len() > 1,
        args[0][0] == 0x2d,
        args[0][1] != 0x2d,
        1 <= k < args[0].len(),
        short_kind(args[0][k]) == ShortKind::Switch(sw),
    ensures
        spec_parse(args) matches ParseSpec::Parsed(v) ==> switch_sets(sw, v),
{
    let arg = args[0];
    let o = default_options();
    lemma_dash_lits();
    lemma_option_step_next(args, 0, o);
    lemma_option_step_unfold(args, 0, o);
    lemma_short_steps_switch(args, arg, 1, k, sw, 1, o);
    if let StepSpec::Next(o2, nx) = option_step(args, 0, o) {
        lemma_parse_from_lasting(args, nx, false, o2);
        if let ParseSpec::Parsed(v) = parse_from(args, nx, false, o2) {
            lemma_switch_sets_kept(sw, o2, v);
        }
    }
}

/// The same for a long switch given first (`--si`, `--du`, `--prune`, ...):
/// what it turns on stays on in the parsed options.
pub proof fn law_long_switch_lasts(args: Seq<Seq<u8>>, sw: Switch)
    requires
        args.len() > 0,
        args[0].len() > 2,
        args[0][0] == 0x2d,
        args[0][1] == 0x2d,
        long_kind(long_name(args[0])) == LongKind::Switch(sw),
    ensures
        spec_parse(args) matches ParseSpec::Parsed(v) ==> switch_sets(sw, v),
{
    let arg = args[0];
    let o = default_options();
    lemma_dash_lits();
    lemma_option_step_next(args, 0, o);
    lemma_option_step_unfold(args, 0, o);
    let o2 = apply_switch(sw, o);
    lemma_switch_sets_itself(sw, o);
    assert(option_step(args, 0, o) == StepSpec::Next(o2, 1));
    lemma_parse_from_lasting(args, 1, false, o2);
    if let ParseSpec::Parsed(v) = parse_from(args, 1, false, o2) {
        lemma_switch_sets_kept(sw, o2, v);
    }
}

/// What a value-taking option leaves on for good: --timefmt turns on the
/// date column and --gitfile the .gitignore filter.
pub open spec fn valued_sets(k: Valued, v: OptionsView) -> bool {
    match k {
        Valued::Timefmt => v.show_date,
        Valued::GitFile => v.gitignore,
        _ => true,
    }
}

proof fn lemma_valued_sets_itself(k: Valued, x: Seq<u8>, o: OptionsView)
    ensures
        valued_sets(k, apply_valued(k, x, o)),
{
    match k {
        Valued::Timefmt => {},
        Valued::GitFile => {},
        _ => {},
    }
}

proof fn lemma_valued_sets_kept(k: Valued, o: OptionsView, v: OptionsView)
    requires
        valued_sets(k, o),
        lasting_kept(o, v),
    ensures
        valued_sets(k, v),
{
    reveal(lasting_kept);
}

/// The same for a long value-taking option given first (`--timefmt=...`,
/// `--gitfile FILE`): what it turns on stays on in the parsed options.
pub proof fn law_long_valued_lasts(args: Seq<Seq<u8>>, k: Valued)
    requires
        args.len() > 0,
        args[0].len() > 2,
        args[0][0] == 0x2d,
        args[0][1] == 0x2d,
        long_kind(long_name(args[0])) == LongKind::Valued(k),
    ensures
        spec_parse(args) matches ParseSpec::Parsed(v) ==> valued_sets(k, v),
{
    let o = default_options();
    lemma_dash_lits();
    lemma_option_step_next(args, 0, o);
    lemma_option_step_unfold(args, 0, o);
    if let Ok((x, nx)) = long_value(args, 0) {
        let o2 = apply_valued(k, x, o);
        lemma_valued_sets_itself(k, x, o);
        assert(option_step(args, 0, o) == StepSpec::Next(o2, nx));
        lemma_parse_from_lasting(args, nx, false, o2);
        if let ParseSpec::Parsed(v) = parse_from(args, nx, false, o2) {
            lemma_valued_sets_kept(k, o2, v);
        }
    }
}

proof fn lemma_fold_radix_push(s: Seq<u8>, radix: u64, acc: u64, c: u8)
    requires
        forall|i: int| 0 <= i < s.len() ==> digit_value(#[trigger] s[i], radix) is Some,
    ensures
        fold_radix(s.push(c), radix, acc) == (if digit_value(c, radix) is Some {
            saturating_step(fold_radix(s, radix, acc), radix, digit_value(c, radix)->0)
        } else {
            fold_radix(s, radix, acc)
        }),
    decreases s.len(),
{
    if s.len() == 0 {
        let one = s.push(c);
        assert(one.skip(1) =~= Seq::<u8>::empty());
        assert(one[0] == c);
        if digit_value(c, radix) is Some {
            let st = saturating_step(acc, radix, digit_value(c, radix)->0);
            assert(fold_radix(Seq::<u8>::empty(), radix, st) == st);
        }
        assert(fold_radix(s, radix, acc) == acc);
    } else {
        let acc2 = saturating_step(acc, radix, digit_value(s[0], radix)->0);
        assert(s.push(c)[0] == s[0]);
        assert(s.push(c).skip(1) =~= s.skip(1).push(c));
        assert(forall|i: int| 0 <= i < s.skip(1).len() ==> s.skip(1)[i] == s[i + 1]);
        assert(digit_value(s[0], radix) is Some);
        lemma_fold_radix_push(s.skip(1), radix, acc2, c);
    }
}

proof fn lemma_fold_decimal_digits(n: nat)
    requires
        1 <= n <= u64::MAX,
    ensures
        fold_radix(digits(n), 10, 0) == n,
    decreases n,
{
    if n < 10 {
        let one = digits(n);
        assert(one.skip(1) =~= Seq::<u8>::empty());
        assert(one[0] == (0x30 + n) as u8);
        assert(digit_value((0x30 + n) as u8, 10) == Some(n as u64));
        assert(saturating_step(0, 10, n as u64) == n as u64);
        assert(fold_radix(Seq::<u8>::empty(), 10, n as u64) == n as u64);
    } else {
        let q = n / 10;
        let r = n % 10;
        assert(n == q * 10 + r && 1 <= q < n && r < 10) by (nonlinear_arith)
            requires
                n >= 10,
                q == n / 10,
                r == n % 10,
        ;
        lemma_fold_decimal_digits(q);
        lemma_digits_plain(q);
        let d = digits(q);
        assert(forall|i: int| 0 <= i < d.len() ==> is_digit(d[i]));
        assert(forall|i: int| 0 <= i < d.len() ==> digit_value(#[trigger] d[i], 10) is Some);
        lemma_fold_radix_push(d, 10, 0, (0x30 + r) as u8);
        assert(digits(n) == d.push((0x30 + r) as u8));
        assert(digit_value((0x30 + r) as u8, 10) == Some(r as u64));
        assert(fold_radix(d, 10, 0) == q as u64);
        assert(saturating_step(q as u64, 10, r as u64) == n as u64);
    }
}

/// -L reads its level as C's strtoul does, so a level written in decimal
/// without leading zeros is read back as that number: `-L 12` is level
/// twelve, not a hexadecimal or octal reading of it.
pub proof fn law_level_reads_decimal(n: u64)
    requires
        n >= 1,
    ensures
        spec_strtoul0(digits(n as nat)) == n,
        spec_parse_level(digits(n as nat)) == Ok::<usize, crate::options::CliMessage>(n as usize),
{
    let d = digits(n as nat);
    lemma_digits_plain(n as nat);
    assert(is_digit(d[0]));
    assert(leading_spaces(d) == 0);
    assert(d.skip(0) =~= d);
    lemma_fold_decimal_digits(n as nat);
    if n >= 10 {
        assert(d[0] != 0x30);
    }
}

/// An argument that is read on its own, taking no value from the next
/// one: a path (not starting with `-`, or `-` itself), a cluster of short
/// switches only, or a long switch.
pub open spec fn self_contained(a: Seq<u8>) -> bool {
    ||| !(a.len() > 0 && a[0] == 0x2d)
    ||| a == seq![0x2du8]
    ||| (a.len() > 1 && a[0] == 0x2d && a[1] != 0x2d
        && forall|m: int| 1 <= m < a.len() ==> #[trigger] short_kind(a[m]) is Switch)
    ||| (a.len() > 2 && a[0] == 0x2d && a[1] == 0x2d && long_kind(long_name(a)) is Switch)
}

proof fn lemma_short_switches_only(args: Seq<Seq<u8>>, arg: Seq<u8>, j: int, next: int, o: OptionsView)
    requires
        1 <= j,
        forall|m: int| 1 <= m < arg.len() ==> #[trigger] short_kind(arg[m]) is Switch,
    ensures
        short_steps(args, arg, j, next, o) matches StepSpec::Next(_, nx) && nx == next,
    decreases arg.len() - j,
{
    if j < arg.len() {
        assert(short_kind(arg[j]) is Switch);
        if let ShortKind::Switch(sw) = short_kind(arg[j]) {
            lemma_short_switches_only(args, arg, j + 1, next, apply_switch(sw, o));
        }
    }
}

proof fn lemma_switch_lasts_from(args: Seq<Seq<u8>>, i: int, p: int, k: int, sw: Switch, o: OptionsView)
    requires
        0 <= i <= p < args.len(),
        forall|j: int| i <= j < p ==> #[trigger] self_contained(args[j]),
        args[p].len() > 1,
        args[p][0] == 0x2d,
        args[p][1] != 0x2d,
        1 <= k < args[p].len(),
        short_kind(args[p][k]) == ShortKind::Switch(sw),
    ensures
        parse_from(args, i, false, o) matches ParseSpec::Parsed(v) ==> switch_sets(sw, v),
    decreases p - i,
{
    lemma_dash_lits();
    let arg = args[i];
    if i == p {
        lemma_option_step_next(args, i, o);
        lemma_option_step_unfold(args, i, o);
        lemma_short_steps_switch(args, arg, 1, k, sw, i + 1, o);
        if let StepSpec::Next(o2, nx) = option_step(args, i, o) {
            lemma_parse_from_lasting(args, nx, false, o2);
            if let ParseSpec::Parsed(v) = parse_from(args, nx, false, o2) {
                lemma_switch_sets_kept(sw, o2, v);
            }
        }
    } else {
        assert(self_contained(arg));
        if !(arg.len() > 0 && arg[0] == 0x2d) || arg == lit("-") {
            lemma_switch_lasts_from(args, i + 1, p, k, sw, apply_path(arg, o));
        } else {
            lemma_option_step_unfold(args, i, o);
            if arg.len() > 1 && arg[1] != 0x2d {
                lemma_short_switches_only(args, arg, 1, i + 1, o);
            } else {
                assert(arg.len() > 2 && long_kind(long_name(arg)) is Switch);
            }
            if let StepSpec::Next(o2, nx) = option_step(args, i, o) {
                assert(nx == i + 1);
                lemma_switch_lasts_from(args, i + 1, p, k, sw, o2);
            }
        }
    }
}

/// On/off switches last wherever their cluster stands, as long as every
/// argument before it is read on its own (a path, a cluster of switches or
/// a long switch), so that the cluster is read as options: `-h`, `-ah`,
/// `dir -h` and `-a --si -sh` all parse, when they parse, to options with
/// what each switch turns on.
pub proof fn law_switch_lasts_after_plain_arguments(args: Seq<Seq<u8>>, p: int, k: int, sw: Switch)
    requires
        0 <= p < args.len(),
        forall|j: int| 0 <= j < p ==> #[trigger] self_contained(args[j]),
        args[p].len() > 1,
        args[p][0] == 0x2d,
        args[p][1] != 0x2d,
        1 <= k < args[p].len(),
        short_kind(args[p][k]) == ShortKind::Switch(sw),
    ensures
        spec_parse(args) matches ParseSpec::Parsed(v) ==> switch_sets(sw, v),
{
    lemma_switch_lasts_from(args, 0, p, k, sw, default_options());
}

} // verus!
