use utree::bytes::join_path;
use utree::decimal::{fmt_i64, fmt_u64, pad_left_to, pad_right_to};
use utree::output::Totals;

#[test]
fn decimal_text() {
    assert_eq!(fmt_u64(0), b"0");
    assert_eq!(fmt_u64(1234567890), b"1234567890");
    assert_eq!(fmt_u64(u64::MAX), u64::MAX.to_string().as_bytes());
    assert_eq!(fmt_i64(-42), b"-42");
    assert_eq!(fmt_i64(i64::MIN), i64::MIN.to_string().as_bytes());
    assert_eq!(pad_left_to(b"12", 5), b"   12");
    assert_eq!(pad_left_to(b"123456", 5), b"123456");
    assert_eq!(pad_right_to(b"ab", 4), b"ab  ");
}

#[test]
fn totals_add_up() {
    let mut t = Totals::default();
    t.add(&Totals { dirs: 1, files: 2, size: 30 });
    t.add(&Totals { dirs: 4, files: 5, size: -6 });
    assert_eq!((t.dirs, t.files, t.size), (5, 7, 24));
}

#[test]
fn paths_join_with_a_slash() {
    assert_eq!(join_path(b"a/b", b"c"), b"a/b/c");
    assert_eq!(join_path(b"", b"c"), b"/c");
}
