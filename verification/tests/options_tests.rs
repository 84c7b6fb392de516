use utree::options::{parse, try_parse, CliError, Options, OutputFormat, SortKey, TopSort};

fn args(list: &[&str]) -> Vec<Vec<u8>> {
    list.iter().map(|a| a.as_bytes().to_vec()).collect()
}

fn parsed(list: &[&str]) -> Options {
    match parse(&args(list)) {
        Ok(o) => o,
        Err(CliError::Usage(m)) => panic!("usage error: {m}"),
        Err(CliError::Help(m)) => panic!("help: {m}"),
    }
}

fn usage(list: &[&str]) -> String {
    match parse(&args(list)) {
        Err(CliError::Usage(m)) => m,
        _ => panic!("expected a usage error"),
    }
}

#[test]
fn no_arguments_list_the_current_directory() {
    let o = parsed(&[]);
    assert_eq!(o.paths, vec![b".".to_vec()]);
    assert_eq!(o.sort, SortKey::Name);
    assert_eq!(o.top, TopSort::Neither);
    assert_eq!(o.output, OutputFormat::Text);
    assert_eq!(o.level, None);
}

#[test]
fn short_flags_combine_and_take_values() {
    let o = parsed(&["-adL", "2", "dir", "-", "--", "-x"]);
    assert!(o.all_files);
    assert!(o.dirs_only);
    assert_eq!(o.level, Some(2));
    assert_eq!(o.paths, vec![b"dir".to_vec(), b"-".to_vec(), b"-x".to_vec()]);
    assert!(!o.xdev);
}

#[test]
fn long_options_with_inline_and_separate_values() {
    let o = parsed(&["--sort=size", "--charset", "UTF-8", "--filelimit=10", "--si"]);
    assert_eq!(o.sort, SortKey::Size);
    assert_eq!(o.charset, Some(b"UTF-8".to_vec()));
    assert_eq!(o.file_limit, Some(10));
    assert!(o.si && o.human && o.show_size);
    assert_eq!(parsed(&["--filelimit", "-3"]).file_limit, None);
    assert_eq!(parsed(&["--sort", "NONE"]).sort, SortKey::Unsorted);
}

#[test]
fn parsed_options_are_finished() {
    let o = parsed(&["-d", "--prune"]);
    assert!(o.dirs_only && !o.prune);
    let o = parsed(&["-U", "--dirsfirst"]);
    assert_eq!(o.top, TopSort::Neither);
    assert!(!parsed(&["-R"]).rerun);
    assert!(parsed(&["-R", "-L", "1"]).rerun);
}

#[test]
fn bad_sort_is_a_usage_error() {
    assert_eq!(
        usage(&["--sort=bogus"]),
        "utree: Sort type 'bogus' not valid, should be one of: name,version,size,mtime,ctime,none"
    );
}

#[test]
fn missing_values_are_usage_errors() {
    assert_eq!(usage(&["-L"]), "utree: Missing argument to -L option.");
    assert_eq!(usage(&["--charset="]), "utree: Missing argument to --charset=");
}

#[test]
fn unknown_options_are_usage_errors() {
    assert!(usage(&["--bogus"]).starts_with("utree: Invalid argument `--bogus'."));
    assert!(usage(&["--hyperlink"]).contains("--hyperlink"));
}

#[test]
fn help_and_version_are_help() {
    match parse(&args(&["--version"])) {
        Err(CliError::Help(m)) => assert!(m.starts_with("utree v")),
        _ => panic!("--version prints help text"),
    }
    match parse(&args(&["--help"])) {
        Err(CliError::Help(m)) => assert!(m.contains("usage: utree")),
        _ => panic!("--help prints help text"),
    }
}

#[test]
fn try_parse_agrees_with_parse() {
    match try_parse(&args(&["-s", "x"])) {
        Some(Ok(o)) => {
            assert!(o.show_size);
            assert_eq!(o.paths, vec![b"x".to_vec()]);
        }
        _ => panic!("expected options"),
    }
}

#[test]
fn invalid_short_flag_and_level() {
    assert!(usage(&["-Z"]).starts_with("utree: Invalid argument -`Z'.\nusage: utree"));
    assert_eq!(usage(&["-L", "0"]), "utree: Invalid level, must be greater than 0.");
    let o = parsed(&["-L2d"]);
    assert_eq!(o.level, Some(2));
    assert!(o.dirs_only);
    assert_eq!(parsed(&["-L", "0x10"]).level, Some(16));
    assert_eq!(parsed(&["-L", "010"]).level, Some(8));
}

#[test]
fn overflowing_filelimit_is_reported_as_a_panic() {
    assert!(try_parse(&args(&["--filelimit", "-9223372036854775808"])).is_none());
    assert!(try_parse(&args(&["--filelimit", "9223372036854775807"])).is_some());
}

#[test]
fn huge_levels_saturate() {
    assert_eq!(parsed(&["-L", "18446744073709551616"]).level, Some(usize::MAX));
    assert_eq!(parsed(&["-L", "0xffffffffffffffffff"]).level, Some(usize::MAX));
}
