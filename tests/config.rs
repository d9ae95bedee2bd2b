use shim::shims::{get_shim_file_path, parse_shim_file, split_args, Shim, ShimError, ShimErrorKind};

fn load(content: &str) -> Result<Shim, ShimError> {
    Shim::init("C:\\tools\\app.shim", content)
}

#[test]
fn path_without_args_leaves_args_unset() {
    let shim = load("path = \"C:\\bin\\echo.exe\"\n").ok().unwrap();
    assert_eq!(shim.target_path, "C:\\bin\\echo.exe");
    assert!(shim.args.is_none());
}

#[test]
fn args_are_split_on_whitespace() {
    let shim = load("path = C:\\x.exe\r\nargs = \"--flag1   --flag2\t-v\"\r\n").ok().unwrap();
    assert_eq!(shim.target_path, "C:\\x.exe");
    assert_eq!(shim.args.unwrap(), vec!["--flag1", "--flag2", "-v"]);
}

#[test]
fn empty_args_value_gives_no_words() {
    let shim = load("path=a.exe\nargs=\n").ok().unwrap();
    assert_eq!(shim.args.unwrap(), Vec::<String>::new());
}

#[test]
fn later_key_replaces_earlier() {
    let shim = load("path = first.exe\n\n   \npath = second.exe\nother = 1").ok().unwrap();
    assert_eq!(shim.target_path, "second.exe");
}

#[test]
fn value_keeps_text_after_first_equals() {
    let kvs = parse_shim_file("path = a=b=c\n").ok().unwrap();
    assert_eq!(kvs.get("path").unwrap(), "a=b=c");
    assert!(kvs.get("args").is_none());
}

#[test]
fn missing_path_is_not_found() {
    let err = load("args = -x\nname = tool\n").err().unwrap();
    assert!(matches!(err.reason, ShimErrorKind::NotFound));
    assert_eq!(err.to_string(), "no path key in C:\\tools\\app.shim");
}

#[test]
fn empty_file_is_not_found() {
    let err = load("").err().unwrap();
    assert!(matches!(err.reason, ShimErrorKind::NotFound));
}

#[test]
fn line_without_equals_is_invalid_data() {
    let err = load("path = a.exe\nthis line is broken\r\nargs = x\n").err().unwrap();
    assert!(matches!(err.reason, ShimErrorKind::InvalidData));
    assert_eq!(err.description, "invalid line in shim file: this line is broken");
}

#[test]
fn malformed_line_wins_over_missing_path() {
    let err = load("broken\n").err().unwrap();
    assert!(matches!(err.reason, ShimErrorKind::InvalidData));
}

#[test]
fn quoted_value_is_unwrapped() {
    assert_eq!(load("path = \"abc\"").ok().unwrap().target_path, "abc");
}

#[test]
fn unquoted_value_is_unchanged() {
    assert_eq!(load("path = abc").ok().unwrap().target_path, "abc");
}

#[test]
fn lone_leading_quote_is_removed() {
    assert_eq!(load("path = \"abc").ok().unwrap().target_path, "abc");
}

#[test]
fn lone_trailing_quote_is_removed() {
    assert_eq!(load("path = abc\"").ok().unwrap().target_path, "abc");
}

#[test]
fn only_one_quote_layer_is_removed() {
    assert_eq!(load("path = \"\"abc\"\"").ok().unwrap().target_path, "\"abc\"");
    assert_eq!(load("path = a\"b").ok().unwrap().target_path, "a\"b");
}

#[test]
fn keys_are_unquoted_too() {
    assert_eq!(load("\"path\" = x.exe").ok().unwrap().target_path, "x.exe");
}

#[test]
fn utf8_mark_is_skipped() {
    let plain = "path = C:\\a.exe\nargs = -q\n";
    let marked = "\u{FEFF}path = C:\\a.exe\nargs = -q\n";
    let a = load(plain).ok().unwrap();
    let b = load(marked).ok().unwrap();
    assert_eq!(a.target_path, b.target_path);
    assert_eq!(a.args, b.args);
    assert_eq!(b.target_path, "C:\\a.exe");
}

#[test]
fn utf7_mark_is_skipped() {
    let shim = load("+/v8path = b.exe").ok().unwrap();
    assert_eq!(shim.target_path, "b.exe");
}

#[test]
fn mark_inside_text_is_kept() {
    let kvs = parse_shim_file("path = x\n\u{FEFF}k = v\n").ok().unwrap();
    assert_eq!(kvs.get("\u{FEFF}k").unwrap(), "v");
}

#[test]
fn unicode_whitespace_is_trimmed() {
    let shim = load("\u{3000}path\u{A0}= x.exe\u{2003}\nargs = a\u{2028}b").ok().unwrap();
    assert_eq!(shim.target_path, "x.exe");
    assert_eq!(shim.args.unwrap(), vec!["a", "b"]);
}

#[test]
fn split_args_words() {
    assert_eq!(split_args("  a  bb\tc \n"), vec!["a", "bb", "c"]);
    assert_eq!(split_args("   "), Vec::<String>::new());
}

#[test]
fn shim_path_replaces_extension() {
    assert_eq!(get_shim_file_path("C:\\tools\\foo.exe").ok().unwrap(), "C:\\tools\\foo.shim");
    assert_eq!(get_shim_file_path("C:\\tools\\foo.tar.exe").ok().unwrap(), "C:\\tools\\foo.tar.shim");
}

#[test]
fn shim_path_without_extension_fails() {
    let err = get_shim_file_path("C:\\tools.d\\foo").err().unwrap();
    assert!(matches!(err.reason, ShimErrorKind::Other));
    assert_eq!(err.description, "C:\\tools.d\\foo has no extension");
}

#[test]
fn io_failures_describe_the_path() {
    let e = ShimError::unreadable("a.shim", "denied");
    assert!(matches!(e.reason, ShimErrorKind::Other));
    assert_eq!(e.description, "reading a.shim: denied");
    assert_eq!(ShimError::not_a_file("a.shim").description, "a.shim is not a file");
}

#[test]
fn empty_path_value_is_rejected() {
    for text in ["path =", "path = \"\"", "path=  \r\nargs = x"] {
        let err = load(text).err().unwrap();
        assert!(matches!(err.reason, ShimErrorKind::NotFound));
        assert_eq!(err.description, "empty path in C:\\tools\\app.shim");
    }
}
