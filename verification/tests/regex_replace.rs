use wirefilter::regex_replace::{regex_replace_impl, FunctionArg, LhsValue, Type};

fn bytes_arg(b: &[u8]) -> FunctionArg {
    Ok(LhsValue::Bytes(b.to_vec()))
}

fn owned_bytes(b: &[u8]) -> LhsValue {
    LhsValue::Bytes(b.to_vec())
}

#[test]
fn test_regex_replace_literal() {
    let args = vec![bytes_arg(b"/foo/bar"), bytes_arg(b"/bar$"), bytes_arg(b"/baz")];
    assert_eq!(regex_replace_impl(&args), Ok(Some(owned_bytes(b"/foo/baz"))));
}

#[test]
fn test_regex_replace_no_match() {
    let args = vec![bytes_arg(b"/x"), bytes_arg(b"^/y$"), bytes_arg(b"/mumble")];
    assert_eq!(regex_replace_impl(&args), Ok(Some(owned_bytes(b"/x"))));
}

#[test]
fn test_regex_replace_case_sensitive() {
    let args = vec![bytes_arg(b"/foo"), bytes_arg(b"^/FOO$"), bytes_arg(b"/x")];
    assert_eq!(regex_replace_impl(&args), Ok(Some(owned_bytes(b"/foo"))));
}

#[test]
fn test_regex_replace_first_only() {
    let args = vec![bytes_arg(b"/a/a"), bytes_arg(b"/a"), bytes_arg(b"/b")];
    assert_eq!(regex_replace_impl(&args), Ok(Some(owned_bytes(b"/b/a"))));
}

#[test]
fn test_regex_replace_escape_dollar() {
    let args = vec![bytes_arg(b"/b"), bytes_arg(b"^/b$"), bytes_arg(b"/b$$")];
    assert_eq!(regex_replace_impl(&args), Ok(Some(owned_bytes(b"/b$"))));
}

#[test]
fn test_regex_replace_capture_groups() {
    let args = vec![bytes_arg(b"/foo/a/path"), bytes_arg(b"^/foo/([^/]*)/(.*)$"), bytes_arg(b"/bar/${2}/${1}")];
    assert_eq!(regex_replace_impl(&args), Ok(Some(owned_bytes(b"/bar/path/a"))));
}

#[test]
fn test_regex_replace_empty_replacement_deletes_match() {
    let args = vec![bytes_arg(b"/foo/bar/baz"), bytes_arg(b"/bar"), bytes_arg(b"")];
    assert_eq!(regex_replace_impl(&args), Ok(Some(owned_bytes(b"/foo/baz"))));
}

#[test]
fn test_regex_replace_preserves_prefix_and_suffix() {
    let args = vec![bytes_arg(b"abXXcd"), bytes_arg(b"X+"), bytes_arg(b"-")];
    assert_eq!(regex_replace_impl(&args), Ok(Some(owned_bytes(b"ab-cd"))));
}

#[test]
fn test_regex_replace_dollar_without_braces_is_literal() {
    let args = vec![bytes_arg(b"foo"), bytes_arg(b"(foo)"), bytes_arg(b"$1")];
    assert_eq!(regex_replace_impl(&args), Ok(Some(owned_bytes(b"$1"))));
}

#[test]
fn test_regex_replace_group_out_of_range_is_literal() {
    let args = vec![bytes_arg(b"foo"), bytes_arg(b"(foo)"), bytes_arg(b"${9}")];
    assert_eq!(regex_replace_impl(&args), Ok(Some(owned_bytes(b"${9}"))));
}

#[test]
fn test_regex_replace_trailing_dollar_is_literal() {
    let args = vec![bytes_arg(b"foo"), bytes_arg(b"(foo)"), bytes_arg(b"${1}$")];
    assert_eq!(regex_replace_impl(&args), Ok(Some(owned_bytes(b"foo$"))));
}

#[test]
fn test_regex_replace_multiple_groups_subset_referenced() {
    let args = vec![bytes_arg(b"a=1;b=2"), bytes_arg(b"^(\\w)=(\\d);(\\w)=(\\d)$"), bytes_arg(b"${3}${1}")];
    assert_eq!(regex_replace_impl(&args), Ok(Some(owned_bytes(b"ba"))));
}

#[test]
fn test_regex_replace_non_utf8_source_preserved() {
    let args = vec![bytes_arg(b"\xff\xfeXX\xfd"), bytes_arg(b"X+"), bytes_arg(b"_")];
    assert_eq!(regex_replace_impl(&args), Ok(Some(owned_bytes(b"\xff\xfe_\xfd"))));
}

#[test]
fn test_regex_replace_source_type_error_returns_none() {
    let args = vec![Err(Type::Bytes), bytes_arg(b"x"), bytes_arg(b"y")];
    assert_eq!(regex_replace_impl(&args), Ok(None));
}

#[test]
fn test_regex_replace_pattern_type_error_returns_none() {
    let args = vec![bytes_arg(b"x"), Err(Type::Bytes), bytes_arg(b"y")];
    assert_eq!(regex_replace_impl(&args), Ok(None));
}

#[test]
fn test_regex_replace_replacement_type_error_returns_none() {
    let args = vec![bytes_arg(b"x"), bytes_arg(b"x"), Err(Type::Bytes)];
    assert_eq!(regex_replace_impl(&args), Ok(None));
}
