use utree::options::Options;
use utree::output::linedraw::LocaleEnv;
use utree::output::xml::{html_encode, XmlFormatter};
use utree::output::Totals;
use utree::walk::{Meta, Node, Root, RootKind};

fn meta(mode: u32) -> Meta {
    Meta { ino: 7, dev: 1, fino: 7, fdev: 1, mode, uid: 0, gid: 0, size: 10, mtime: 0, ctime: 0 }
}

fn leaf(name: &str, mode: u32) -> Node {
    Node { name: name.as_bytes().to_vec(), meta: meta(mode), comment: None, link: None, err: None, children: None }
}

#[test]
fn html_encode_escapes_markup() {
    let mut out = Vec::new();
    html_encode(&mut out, b"a<b>&\"c'");
    assert_eq!(out, b"a&lt;b&gt;&amp;&quot;c'");
}

#[test]
fn report_counts() {
    let f = XmlFormatter::new(0);
    let mut out = Vec::new();
    let mut opts = Options::default();
    let t = Totals { dirs: 2, files: 3, size: 0 };
    f.emit_report(&mut out, &t, &opts);
    assert_eq!(
        String::from_utf8(out).unwrap(),
        "    <report>\n        <directories>2</directories>\n        <files>3</files>\n    </report>\n"
    );
    opts.dirs_only = true;
    opts.noindent = true;
    let mut out = Vec::new();
    f.emit_report(&mut out, &t, &opts);
    assert_eq!(String::from_utf8(out).unwrap(), "<report><directories>2</directories></report>");
}

#[test]
fn root_with_entries() {
    let f = XmlFormatter::new(0);
    let opts = Options::default();
    let mut sub = leaf("sub", 0o040755);
    sub.children = Some(vec![leaf("a<b", 0o100644)]);
    let mut link = leaf("l", 0o120777);
    link.link = Some(b"target".to_vec());
    let root = Root { name: b".".to_vec(), meta: Some(meta(0o040755)), kind: RootKind::Opened(vec![sub, link]) };
    let mut out = Vec::new();
    f.emit_root(&mut out, &root, &opts);
    assert_eq!(
        String::from_utf8(out).unwrap(),
        "    <directory name=\".\">\n        <directory name=\"sub\">\n            <file name=\"a&lt;b\"></file>\n        </directory>\n        <link name=\"l\" target=\"target\"></link>\n    </directory>\n"
    );
}

#[test]
fn unopened_roots_report_errors() {
    let f = XmlFormatter::new(0);
    let opts = Options::default();
    let root = Root { name: b"nope".to_vec(), meta: None, kind: RootKind::Missing };
    let mut out = Vec::new();
    f.emit_root(&mut out, &root, &opts);
    assert_eq!(
        String::from_utf8(out).unwrap(),
        "    <unknown name=\"nope\"><error>error opening dir</error>\n    </unknown>\n"
    );
    let root = Root { name: b"big".to_vec(), meta: Some(meta(0o040755)), kind: RootKind::OverLimit(12) };
    let mut out = Vec::new();
    f.emit_root(&mut out, &root, &opts);
    assert_eq!(
        String::from_utf8(out).unwrap(),
        "    <directory name=\"big\"><error>12 entries exceeds filelimit, not opening dir</error>\n    </directory>\n"
    );
}

#[test]
fn metadata_attributes() {
    let mut f = XmlFormatter::new(0);
    let mut opts = Options::default();
    opts.show_perms = true;
    opts.show_uid = true;
    opts.show_size = true;
    assert!(f.needs_users(&opts));
    f.load_users(Some(b"root:x:0:0::/:\n"));
    assert!(!f.needs_users(&opts));
    let root = Root { name: b"f".to_vec(), meta: Some(meta(0o100644)), kind: RootKind::Opened(Vec::new()) };
    let mut out = Vec::new();
    f.emit_root(&mut out, &root, &opts);
    assert_eq!(
        String::from_utf8(out).unwrap(),
        "    <file name=\"f\" mode=\"0644\" prot=\"-rw-r--r--\" user=\"root\" size=\"10\">\n    </file>\n"
    );
}

#[test]
fn intro_and_outro() {
    let f = XmlFormatter::new(0);
    let opts = Options::default();
    let env = LocaleEnv { tree_charset: None, lc_all: Some(b"en_US.UTF-8".to_vec()), lc_ctype: None, lang: None };
    let mut out = Vec::new();
    f.intro(&mut out, &opts, &env);
    f.outro(&mut out, &opts);
    assert_eq!(
        String::from_utf8(out).unwrap(),
        "<?xml version=\"1.0\" encoding=\"UTF-8\"?>\n<tree>\n</tree>\n"
    );
}

#[test]
fn plain_text_encodes_to_itself() {
    let mut out = Vec::new();
    html_encode(&mut out, b"plain name.txt");
    assert_eq!(out, b"plain name.txt");
}
