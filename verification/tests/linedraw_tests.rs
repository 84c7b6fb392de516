use utree::options::Options;
use utree::output::linedraw::{by_name, charset_name, select, Glyphs, LineDraw, LocaleEnv};

fn env(charset: Option<&str>, lang: Option<&str>) -> LocaleEnv {
    LocaleEnv {
        tree_charset: charset.map(|c| c.as_bytes().to_vec()),
        lc_all: None,
        lc_ctype: Some(Vec::new()),
        lang: lang.map(|c| c.as_bytes().to_vec()),
    }
}

#[test]
fn names_match_without_case() {
    assert_eq!(by_name(b"utf-8"), Glyphs::Utf8);
    assert_eq!(by_name(b"LATIN1"), Glyphs::Latin13);
    assert_eq!(by_name(b"cp437"), Glyphs::Ibm437);
    assert_eq!(by_name(b"koi8-u"), Glyphs::Koi8);
    assert_eq!(by_name(b"nothing-known"), Glyphs::Ascii);
}

#[test]
fn ansi_lines_win() {
    let mut opts = Options::default();
    opts.ansilines = true;
    opts.charset = Some(b"UTF-8".to_vec());
    assert_eq!(select(&opts, &env(None, None)).tee, LineDraw::of(Glyphs::Ansi).tee);
}

#[test]
fn locale_decides_without_a_charset() {
    let opts = Options::default();
    let utf = select(&opts, &env(None, Some("en_US.utf8")));
    assert_eq!(utf.tee, "\u{251c}\u{2500}\u{2500}".as_bytes());
    assert_eq!(utf.ctop, " \u{23a7}".as_bytes());
    let plain = select(&opts, &env(None, Some("C")));
    assert_eq!(plain.tee, b"|--");
    assert_eq!(plain.corner, b"`--");
    assert_eq!(plain.csingle, b" [");
    assert_eq!(select(&opts, &env(Some("IBM437"), Some("en_US.UTF-8"))).vert, b"\xb3  ");
}

#[test]
fn charset_names() {
    let mut opts = Options::default();
    assert_eq!(charset_name(&opts, &env(None, Some("de_DE.UTF-8"))), Some(b"UTF-8".to_vec()));
    assert_eq!(charset_name(&opts, &env(None, Some("C"))), None);
    assert_eq!(charset_name(&opts, &env(Some("latin1"), None)), Some(b"latin1".to_vec()));
    opts.charset = Some(b"koi8-r".to_vec());
    assert_eq!(charset_name(&opts, &env(Some("latin1"), None)), Some(b"koi8-r".to_vec()));
}
