use utree::filter::{gittrim, upward_step, FilterStack, UpStep};

/// A small glob matcher with `*` and `?`, in the shape of tree's patmatch.
fn glob(buf: &[u8], pat: &[u8], _isdir: bool) -> i32 {
    fn go(b: &[u8], p: &[u8]) -> bool {
        match p.first() {
            None => b.is_empty(),
            Some(b'*') => (0..=b.len()).any(|k| go(&b[k..], &p[1..])),
            Some(b'?') => !b.is_empty() && go(&b[1..], &p[1..]),
            Some(&c) => b.first() == Some(&c) && go(&b[1..], &p[1..]),
        }
    }
    if go(buf, pat) { 1 } else { 0 }
}

#[test]
fn gittrim_strips_terminators_and_trailing_spaces() {
    assert_eq!(gittrim(b"foo\n"), b"foo");
    assert_eq!(gittrim(b"foo\r\n"), b"foo");
    assert_eq!(gittrim(b"foo   \n"), b"foo");
    // An escaped trailing space survives, unescaped.
    assert_eq!(gittrim(b"foo\\ \n"), b"foo ");
    assert_eq!(gittrim(b"a\\#b"), b"a#b");
}

#[test]
fn gittrim_keeps_plain_text_and_empties() {
    assert_eq!(gittrim(b"plain"), b"plain");
    assert_eq!(gittrim(b""), b"");
    // A lone first byte stays, as in tree's index arithmetic.
    assert_eq!(gittrim(b"   "), b" ");
    assert_eq!(gittrim(b"\n"), b"\n");
}

#[test]
fn empty_filter_matches_nothing() {
    let stack = FilterStack::new();
    assert!(!stack.check(b"./a.o", b"a.o", false, &glob));
}

#[test]
fn ignore_patterns_match_and_negation_wins() {
    let mut stack = FilterStack::new();
    assert!(stack.push_file(b".", Some(b"# objects\n*.o\n!keep.o\n")));
    assert!(stack.check(b"./a.o", b"a.o", false, &glob));
    assert!(!stack.check(b"./keep.o", b"keep.o", false, &glob));
    assert!(!stack.check(b"./a.c", b"a.c", false, &glob));
}

#[test]
fn anchored_pattern_matches_the_joined_path() {
    let mut stack = FilterStack::new();
    stack.push_dir(b"./src", Some(b"gen/out\n"));
    assert!(stack.check(b"./src/gen/out", b"out", false, &glob));
    assert!(!stack.check(b"./other/gen/out", b"out", false, &glob));
}

#[test]
fn unreadable_file_pushes_nothing() {
    let mut stack = FilterStack::new();
    assert!(!stack.push_file(b".", None));
    assert_eq!(stack.mark(), 0);
    assert!(!stack.push_explicit(b"./.gitignore", None));
    assert_eq!(stack.mark(), 0);
}

#[test]
fn truncate_to_mark_restores_the_stack() {
    let mut stack = FilterStack::new();
    stack.push_dir(b".", Some(b"*.o\n"));
    let mark = stack.mark();
    stack.push_dir(b"./sub", Some(b"*.c\n"));
    assert!(stack.check(b"./sub/x.c", b"x.c", false, &glob));
    stack.truncate(mark);
    assert_eq!(stack.mark(), 1);
    assert!(!stack.check(b"./sub/x.c", b"x.c", false, &glob));
    assert!(stack.check(b"./sub/x.o", b"x.o", false, &glob));
    stack.flush();
    assert_eq!(stack.mark(), 0);
}

fn broken(_buf: &[u8], _pat: &[u8], _isdir: bool) -> i32 {
    -1
}

#[test]
fn syntax_errors_never_match() {
    let mut stack = FilterStack::new();
    stack.push_dir(b".", Some(b"[\n"));
    assert!(!stack.check(b"./[", b"[", false, &broken));
}

#[test]
fn search_pushes_readable_files_in_order() {
    let mut stack = FilterStack::new();
    let files = vec![
        (b"/repo".to_vec(), Some(b"*.log\n".to_vec())),
        (b"/repo/sub".to_vec(), None),
        (b"/repo/sub/dir".to_vec(), Some(b"!keep.log\n".to_vec())),
    ];
    assert!(stack.push_search(&files));
    assert_eq!(stack.mark(), 2);
    assert!(stack.check(b"/repo/sub/dir/x.log", b"x.log", false, &glob));
    assert!(!stack.check(b"/repo/sub/dir/keep.log", b"keep.log", false, &glob));
    let mut empty = FilterStack::new();
    assert!(!empty.push_search(&[(b"/x".to_vec(), None)]));
    assert_eq!(empty.mark(), 0);
}

#[test]
fn upward_search_steps() {
    assert_eq!(upward_step(true, true, 5000), UpStep::Repository);
    assert_eq!(upward_step(false, false, 0), UpStep::Parent);
    assert_eq!(upward_step(false, true, 0), UpStep::Stop);
    assert_eq!(upward_step(false, false, 2048), UpStep::Stop);
}
