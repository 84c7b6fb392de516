use utree::options::Options;
use utree::output::color::{ColorEnv, Colors};

fn env(colors: Option<&str>) -> ColorEnv {
    ColorEnv {
        no_color: false,
        term: true,
        clicolor: false,
        clicolor_force: false,
        colors: colors.map(|c| c.as_bytes().to_vec()),
        stdout_tty: true,
    }
}

#[test]
fn colors_off_without_term_or_string() {
    let opts = Options::default();
    let mut e = env(Some("di=01;34"));
    e.term = false;
    assert!(!Colors::parse(&opts, &e).enabled);
    assert!(!Colors::parse(&opts, &env(None)).enabled);
}

#[test]
fn colors_off_when_not_a_terminal_unless_forced() {
    let mut opts = Options::default();
    let mut e = env(Some("di=01;34"));
    e.stdout_tty = false;
    assert!(!Colors::parse(&opts, &e).enabled);
    opts.force_color = true;
    assert!(Colors::parse(&opts, &e).enabled);
    let mut e2 = env(Some("di=01;34"));
    e2.no_color = true;
    let plain = Options::default();
    assert!(!Colors::parse(&plain, &e2).enabled);
}

#[test]
fn entries_color_by_type_and_suffix() {
    let opts = Options::default();
    let c = Colors::parse(&opts, &env(Some("di=01;34:ex=01;32:*.tar=01;31:*.gz=00;31:ln=target")));
    assert!(c.enabled);
    assert!(c.link_target);
    assert_eq!(c.for_entry(0o040755, b"dir", false, false), Some(b"\x1b[01;34m".to_vec()));
    assert_eq!(c.for_entry(0o100755, b"run", false, false), Some(b"\x1b[01;32m".to_vec()));
    assert_eq!(c.for_entry(0o100644, b"a.tar", false, false), Some(b"\x1b[01;31m".to_vec()));
    assert_eq!(c.for_entry(0o100644, b"a.gz", false, false), Some(b"\x1b[00;31m".to_vec()));
    assert_eq!(c.for_entry(0o100644, b"plain", false, false), None);
    assert_eq!(c.for_entry(0o120777, b"l", false, false), Some(b"\x1b[01;36m".to_vec()));
    assert_eq!(c.end(), b"\x1b[0m");
}

#[test]
fn later_suffix_rules_win() {
    let opts = Options::default();
    let c = Colors::parse(&opts, &env(Some("*.c=01:*.c=02")));
    assert_eq!(c.for_entry(0o100644, b"x.c", false, false), Some(b"\x1b[02m".to_vec()));
}

#[test]
fn builtin_colors_with_clicolor() {
    let opts = Options::default();
    let mut e = env(None);
    e.clicolor = true;
    let c = Colors::parse(&opts, &e);
    assert!(c.enabled);
    assert_eq!(c.for_entry(0o040755, b"d", false, false), Some(b"\x1b[01;34m".to_vec()));
    assert_eq!(c.for_entry(0o100644, b"x.zip", false, false), Some(b"\x1b[01;31m".to_vec()));
    assert_eq!(c.for_entry(0o120777, b"l", true, false), Some(b"\x1b[40;31;01m".to_vec()));
}

#[test]
fn custom_left_right_and_reset_codes() {
    let opts = Options::default();
    let c = Colors::parse(&opts, &env(Some("lc=<:rc=>:rs=R:fi=F")));
    assert_eq!(c.for_entry(0o100644, b"f", false, false), Some(b"<F>".to_vec()));
    assert_eq!(c.end(), b"<R>");
}

#[test]
fn disabled_colors_color_nothing() {
    let opts = Options::default();
    let mut e = env(Some("di=01;34:fi=00"));
    e.term = false;
    let c = Colors::parse(&opts, &e);
    assert_eq!(c.for_entry(0o040755, b"d", false, false), None);
    assert_eq!(c.for_entry(0o100644, b"f", true, true), None);
    assert_eq!(c.end(), b"");
}

#[test]
fn flag_getters_follow_the_fields() {
    let opts = Options::default();
    let c = Colors::parse(&opts, &env(Some("ln=TARGET")));
    assert!(c.is_enabled() && c.enabled);
    assert!(c.links_like_targets() && c.link_target);
}
