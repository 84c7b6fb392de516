use utree::options::Options;
use utree::output::meta::{
    do_date, fillinfo, fillinfo_with, ftype, prot, size_column, wants_info, Ids, SizeColumn,
};
use utree::walk::Meta;

fn meta(mode: u32) -> Meta {
    Meta {
        ino: 1234,
        dev: 66306,
        fino: 1234,
        fdev: 66306,
        mode,
        uid: 0,
        gid: 5,
        size: 4096,
        mtime: 0,
        ctime: 0,
    }
}

#[test]
fn prot_formats_modes() {
    assert_eq!(&prot(0o100644), b"-rw-r--r--");
    assert_eq!(&prot(0o040755), b"drwxr-xr-x");
    assert_eq!(&prot(0o104755), b"-rwsr-xr-x");
    assert_eq!(&prot(0o120777), b"lrwxrwxrwx");
    assert_eq!(&prot(0o041777), b"drwxrwxrwt");
}

#[test]
fn prot_capital_letters_without_execute() {
    assert_eq!(&prot(0o106644), b"-rwSr-Sr--");
    assert_eq!(&prot(0o041776), b"drwxrwxrwT");
    assert_eq!(&prot(0o010600), b"prw-------");
    assert_eq!(&prot(0o000000), b"?---------");
}

#[test]
fn size_column_plain_and_scaled() {
    match size_column(4096, false, false) {
        SizeColumn::Text(t) => assert_eq!(t, b"        4096"),
        SizeColumn::Scaled(_) => panic!("plain sizes are text"),
    }
    match size_column(-5, false, false) {
        SizeColumn::Text(t) => assert_eq!(t, b"          -5"),
        SizeColumn::Scaled(_) => panic!("plain sizes are text"),
    }
    match size_column(512, true, false) {
        SizeColumn::Text(t) => assert_eq!(t, b"  512"),
        SizeColumn::Scaled(_) => panic!("below one unit stays text"),
    }
    match size_column(4096, true, false) {
        SizeColumn::Scaled(s) => {
            assert_eq!((s.size, s.base, s.unit, s.whole), (4096, 1024, b'K', false));
        }
        SizeColumn::Text(_) => panic!("4096 bytes scale to K"),
    }
    match size_column(5_000_000, false, true) {
        SizeColumn::Scaled(s) => {
            assert_eq!((s.size, s.base, s.unit, s.whole), (5000, 1000, b'M', false));
        }
        SizeColumn::Text(_) => panic!("5 MB scales to M"),
    }
    match size_column(20_000, false, true) {
        SizeColumn::Scaled(s) => assert_eq!((s.size, s.unit, s.whole), (20_000, b'k', true)),
        SizeColumn::Text(_) => panic!("20 kB scales to k"),
    }
}

#[test]
fn ftype_classifies() {
    let mut opts = Options::default();
    assert_eq!(ftype(0o040755, &opts), Some(b'/'));
    assert_eq!(ftype(0o140755, &opts), Some(b'='));
    assert_eq!(ftype(0o010644, &opts), Some(b'|'));
    assert_eq!(ftype(0o120777, &opts), Some(b'@'));
    assert_eq!(ftype(0o100755, &opts), Some(b'*'));
    assert_eq!(ftype(0o100644, &opts), None);
    opts.dirs_only = true;
    assert_eq!(ftype(0o040755, &opts), None);
}

#[test]
fn ids_parse_tables_first_entry_wins() {
    let mut ids = Ids::new();
    assert!(!ids.users_loaded());
    ids.load_users(Some(b"root:x:0:0:root:/root:/bin/sh\nbad line\nalias:x:0:0::/:/bin/sh\nuser:x:+1000:1000::/home/user:/bin/sh\nbig:x:4294967296:1::/:\n"));
    assert!(ids.users_loaded());
    assert_eq!(ids.user(0), b"root");
    assert_eq!(ids.user(1000), b"user");
    assert_eq!(ids.user(42), b"42");
    ids.load_groups(None);
    assert_eq!(ids.group(5), b"5");
}

#[test]
fn fillinfo_brackets_the_fields() {
    let mut opts = Options::default();
    assert!(!wants_info(&opts));
    let mut ids = Ids::new();
    ids.load_users(Some(b"root:x:0:0::/:\n"));
    ids.load_groups(Some(b"tty:x:5:\n"));
    let m = meta(0o100644);
    assert_eq!(fillinfo_with(Some(&m), &opts, &ids, b"", b""), None);
    opts.show_perms = true;
    opts.show_uid = true;
    opts.show_gid = true;
    assert!(wants_info(&opts));
    assert_eq!(
        fillinfo_with(Some(&m), &opts, &ids, b"", b"").unwrap(),
        b"[-rw-r--r-- root     tty     ]".to_vec()
    );
    opts.show_inode = true;
    opts.show_device = true;
    opts.show_uid = false;
    opts.show_gid = false;
    opts.show_perms = false;
    opts.show_size = true;
    assert_eq!(
        fillinfo_with(Some(&m), &opts, &ids, b"        4096", b"").unwrap(),
        b"[   1234 66306        4096]".to_vec()
    );
    assert_eq!(fillinfo_with(None, &opts, &ids, b"", b""), None);
    assert_eq!(fillinfo(Some(&m), &opts, &ids, 0, b"        4096").unwrap(), b"[   1234 66306        4096]".to_vec());
}

#[test]
fn invalid_time_format_prints_as_it_stands() {
    let mut opts = Options::default();
    opts.timefmt = Some(b"%Q!".to_vec());
    assert_eq!(do_date(0, &opts, 0), b"%Q!");
    opts.timefmt = Some(b"%Q\xff".to_vec());
    assert_eq!(do_date(0, &opts, 0), b"%Q\xef\xbf\xbd");
}

#[test]
fn valid_time_format_gives_text() {
    let mut opts = Options::default();
    opts.timefmt = Some(b"%Y".to_vec());
    let year = do_date(86_400 * 400, &opts, 0);
    assert!(year == b"1971" || year == b"1970");
}

#[test]
fn out_of_range_times_print_nothing() {
    let mut opts = Options::default();
    assert_eq!(do_date(i64::MAX, &opts, 0), b"");
    assert_eq!(do_date(-8_334_601_228_801, &opts, 0), b"");
    assert!(!do_date(8_210_266_876_799, &opts, 0).is_empty());
    opts.timefmt = Some(b"%Q".to_vec());
    assert_eq!(do_date(i64::MIN, &opts, 0), b"");
    assert_eq!(do_date(-8_334_601_228_800, &opts, 0), b"%Q");
}

#[test]
fn default_date_formats() {
    let opts = Options::default();
    let now = 100_000_000;
    assert_eq!(utree::output::meta::date_format_text(now - 10, &opts, now), "%b %e %R");
    assert_eq!(utree::output::meta::date_format_text(now + 10, &opts, now), "%b %e  %Y");
    assert_eq!(utree::output::meta::date_format_text(now - 16_070_401, &opts, now), "%b %e  %Y");
    assert_eq!(utree::output::meta::date_format_text(now - 16_070_400, &opts, now), "%b %e %R");
}

#[test]
fn tables_load_once() {
    let mut ids = Ids::new();
    ids.load_users(Some(b"first:x:7:7::/:\n"));
    ids.load_users(Some(b"second:x:7:7::/:\n"));
    assert_eq!(ids.user(7), b"first");
    ids.load_groups(None);
    ids.load_groups(Some(b"g:x:7:\n"));
    assert_eq!(ids.group(7), b"7");
}

#[test]
fn unprintable_formats_print_as_they_stand() {
    let mut opts = Options::default();
    opts.timefmt = Some(b"%#z".to_vec());
    assert_eq!(do_date(0, &opts, 0), b"%#z");
    opts.timefmt = Some(b"[%Y]".to_vec());
    let text = do_date(86_400 * 400, &opts, 0);
    assert!(text == b"[1971]" || text == b"[1970]");
}
