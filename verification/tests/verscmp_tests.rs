use utree::verscmp::strverscmp;

#[test]
fn glibc_documented_cases() {
    assert_eq!(strverscmp(b"no digit", b"no digit"), 0);
    assert!(strverscmp(b"item#99", b"item#100") < 0);
    assert!(strverscmp(b"alpha1", b"alpha001") > 0);
    assert!(strverscmp(b"part1_f012", b"part1_f01") > 0);
    assert!(strverscmp(b"foo.009", b"foo.0") < 0);
    assert!(strverscmp(b"z2", b"z10") < 0);
}

#[test]
fn equal_strings_compare_equal() {
    assert_eq!(strverscmp(b"", b""), 0);
    assert_eq!(strverscmp(b"file10.txt", b"file10.txt"), 0);
}

#[test]
fn plain_text_orders_by_bytes() {
    assert!(strverscmp(b"abc", b"abd") < 0);
    assert!(strverscmp(b"b", b"a") > 0);
    assert!(strverscmp(b"ab", b"abc") < 0);
}

#[test]
fn swapping_arguments_negates() {
    let pairs: [(&[u8], &[u8]); 5] = [
        (b"item#99", b"item#100"),
        (b"alpha1", b"alpha001"),
        (b"foo.009", b"foo.0"),
        (b"a", b""),
        (b"x10y", b"x9y"),
    ];
    for (a, b) in pairs {
        assert_eq!(strverscmp(a, b), -strverscmp(b, a));
    }
}
