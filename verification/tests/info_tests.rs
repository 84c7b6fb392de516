use utree::info::InfoStack;

fn glob(buf: &[u8], pat: &[u8], _isdir: bool) -> i32 {
    fn go(b: &[u8], p: &[u8]) -> bool {
        match p.first() {
            None => b.is_empty(),
            Some(b'*') => (0..=b.len()).any(|k| go(&b[k..], &p[1..])),
            Some(b'?') => !b.is_empty() && go(&b[1..], &p[1..]),
            Some(&c) => b.first() == Some(&c) && go(&b[1..], &p[1..]),
        }
    }
    if go(buf, pat) { 1 } else { 0 }
}

#[test]
fn empty_info_stack_answers_none() {
    let stack = InfoStack::new();
    assert_eq!(stack.check(b"./a", b"a", true, false, &glob), None);
}

#[test]
fn comment_lines_describe_matching_entries() {
    let mut stack = InfoStack::new();
    assert!(stack.push_dir(b".", Some(b"# notes\nREADME\n*.md\n\tDocumentation\n\tsecond line\nsrc\n\tThe sources\n")));
    assert_eq!(
        stack.check(b"./README", b"README", true, false, &glob),
        Some(vec![b"Documentation".to_vec(), b"second line".to_vec()])
    );
    assert_eq!(stack.check(b"./x.md", b"x.md", true, false, &glob), Some(vec![b"Documentation".to_vec(), b"second line".to_vec()]));
    assert_eq!(stack.check(b"./src", b"src", true, true, &glob), Some(vec![b"The sources".to_vec()]));
    assert_eq!(stack.check(b"./other", b"other", true, false, &glob), None);
}

#[test]
fn missing_info_file_pushes_nothing() {
    let mut stack = InfoStack::new();
    assert!(!stack.push_dir(b".", None));
    stack.push_file(b"./x.info", None);
    assert_eq!(stack.mark(), 0);
}

#[test]
fn info_truncate_restores() {
    let mut stack = InfoStack::new();
    let mark = stack.mark();
    stack.push_file(b"./notes", Some(b"a\n\tletter a\n"));
    assert_eq!(stack.check(b"./notes/a", b"a", false, false, &glob), Some(vec![b"letter a".to_vec()]));
    stack.truncate(mark);
    assert_eq!(stack.check(b"./notes/a", b"a", false, false, &glob), None);
}

#[test]
fn search_takes_the_first_file_found() {
    let mut stack = InfoStack::new();
    let candidates = vec![None, Some(Some(b"a\n\tfrom a parent\n".to_vec())), Some(Some(b"a\n\tfarther up\n".to_vec()))];
    assert!(stack.push_search(b"./dir", &candidates));
    assert_eq!(stack.check(b"./dir/a", b"a", true, false, &glob), Some(vec![b"from a parent".to_vec()]));
    let mut other = InfoStack::new();
    assert!(!other.push_search(b"./dir", &[Some(None), Some(Some(b"a\n\tx\n".to_vec()))]));
    assert_eq!(other.mark(), 0);
    assert!(!other.push_search(b"./dir", &[]));
}

#[test]
fn search_steps() {
    assert_eq!(utree::info::search_step(true, false, true), utree::info::SearchStep::Found);
    assert_eq!(utree::info::search_step(false, true, false), utree::info::SearchStep::Parent);
    assert_eq!(utree::info::search_step(false, true, true), utree::info::SearchStep::Stop);
    assert_eq!(utree::info::search_step(false, false, false), utree::info::SearchStep::Stop);
}
