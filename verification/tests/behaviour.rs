use wirefilter::regex_replace::{
    regex_replace_impl, replace_first_match, splice_first_match, try_regex_replace,
    FunctionArg, FunctionArgKind, FunctionParam, FunctionParamError, LhsValue,
    RegexReplaceError, RegexReplaceFunction, Type,
};
use wirefilter::template::{append_range, build_replacement, find_byte, parse_group_index};

fn bytes_arg(b: &[u8]) -> FunctionArg {
    Ok(LhsValue::Bytes(b.to_vec()))
}

fn replaced(source: &[u8], pattern: &[u8], replacement: &[u8]) -> Vec<u8> {
    replace_first_match(source, pattern, replacement).unwrap()
}

#[test]
fn group_reference_is_digits_only_and_may_have_leading_zeros() {
    assert_eq!(replaced(b"abc", b"(b)", b"[${+1}]"), b"a[${+1}]c".to_vec());
    assert_eq!(replaced(b"abc", b"(b)", b"[${01}]"), b"a[b]c".to_vec());
}

#[test]
fn group_zero_and_empty_braces_stay_literal() {
    assert_eq!(replaced(b"abc", b"(b)", b"${0}"), b"a${0}c".to_vec());
    assert_eq!(replaced(b"abc", b"(b)", b"${}"), b"a${}c".to_vec());
    assert_eq!(replaced(b"abc", b"(b)", b"${-1}"), b"a${-1}c".to_vec());
}

#[test]
fn unclosed_reference_stays_literal() {
    assert_eq!(replaced(b"abc", b"(b)", b"${1"), b"a${1c".to_vec());
    assert_eq!(replaced(b"abc", b"(b)", b"${"), b"a${c".to_vec());
}

#[test]
fn nested_reference_reads_up_to_the_first_close_brace() {
    assert_eq!(replaced(b"abc", b"(b)", b"${${1}}"), b"a${b}c".to_vec());
}

#[test]
fn group_without_part_in_the_match_inserts_nothing() {
    assert_eq!(replaced(b"b", b"(a)|(b)", b"[${1}|${2}]"), b"[|b]".to_vec());
}

#[test]
fn group_that_does_not_exist_inserts_nothing() {
    assert_eq!(replaced(b"abc", b"(b)", b"[${5}]"), b"a[]c".to_vec());
    assert_eq!(replaced(b"abc", b"(b)", b"[${8}]"), b"a[]c".to_vec());
}

#[test]
fn empty_match_inserts_at_the_start() {
    assert_eq!(replaced(b"abc", b"", b"X"), b"Xabc".to_vec());
}

#[test]
fn escaped_dollars_expand_to_the_bytes() {
    assert_eq!(replaced(b"x", b"x", b"$$$${1}$$"), b"$${1}$".to_vec());
}

#[test]
fn lone_dollar_before_other_bytes_is_literal() {
    assert_eq!(replaced(b"x", b"x", b"$a$"), b"$a$".to_vec());
}

#[test]
fn no_match_returns_the_source() {
    assert_eq!(replaced(b"\xffabc", b"z", b"${1}"), b"\xffabc".to_vec());
}

#[test]
fn try_counts_the_arguments() {
    let none: Vec<FunctionArg> = vec![];
    assert_eq!(try_regex_replace(&none), Err(RegexReplaceError::ArgumentCount { got: 0 }));
    let four = vec![bytes_arg(b"x"), bytes_arg(b"x"), bytes_arg(b"y"), bytes_arg(b"z")];
    assert_eq!(try_regex_replace(&four), Err(RegexReplaceError::ArgumentCount { got: 4 }));
}

#[test]
fn try_reports_text_that_is_not_utf8() {
    let args = vec![bytes_arg(b"x"), bytes_arg(b"\xff"), bytes_arg(b"y")];
    assert_eq!(try_regex_replace(&args), Err(RegexReplaceError::PatternNotUtf8));
    let args = vec![bytes_arg(b"x"), bytes_arg(b"x"), bytes_arg(b"\xc3")];
    assert_eq!(try_regex_replace(&args), Err(RegexReplaceError::ReplacementNotUtf8));
}

#[test]
fn try_reports_an_invalid_pattern() {
    let args = vec![bytes_arg(b"x"), bytes_arg(b"foo(bar"), bytes_arg(b"y")];
    assert_eq!(try_regex_replace(&args), Err(RegexReplaceError::InvalidPattern));
    assert_eq!(regex_replace_impl(&args), Err(RegexReplaceError::InvalidPattern));
    assert_eq!(replace_first_match(b"x", b"foo(bar", b"y"), None);
}

#[test]
fn try_reports_arguments_without_a_case() {
    let args = vec![Ok(LhsValue::Int(1)), bytes_arg(b"x"), bytes_arg(b"y")];
    assert_eq!(try_regex_replace(&args), Err(RegexReplaceError::UnexpectedArgument));
}

#[test]
fn try_runs_the_replacement() {
    let args = vec![bytes_arg(b"/foo/bar"), bytes_arg(b"/bar$"), bytes_arg(b"/baz")];
    assert_eq!(try_regex_replace(&args), Ok(Some(LhsValue::Bytes(b"/foo/baz".to_vec()))));
    let args = vec![Ok(LhsValue::Int(1)), Err(Type::Bytes), bytes_arg(b"y")];
    assert_eq!(try_regex_replace(&args), Ok(None));
    assert_eq!(regex_replace_impl(&args), Ok(None));
}

#[test]
fn parameters_are_a_field_then_two_literals_of_bytes() {
    let f = RegexReplaceFunction::default();
    let field = FunctionParam { arg_kind: FunctionArgKind::Field, val_type: Type::Bytes };
    let literal = FunctionParam { arg_kind: FunctionArgKind::Literal, val_type: Type::Bytes };
    let int_literal = FunctionParam { arg_kind: FunctionArgKind::Literal, val_type: Type::Int };
    assert_eq!(f.check_param(0, &field), Ok(()));
    assert_eq!(f.check_param(1, &literal), Ok(()));
    assert_eq!(f.check_param(2, &literal), Ok(()));
    assert_eq!(
        f.check_param(0, &literal),
        Err(FunctionParamError::KindMismatch {
            expected: FunctionArgKind::Field,
            actual: FunctionArgKind::Literal
        })
    );
    assert_eq!(
        f.check_param(1, &field),
        Err(FunctionParamError::KindMismatch {
            expected: FunctionArgKind::Literal,
            actual: FunctionArgKind::Field
        })
    );
    assert_eq!(
        f.check_param(2, &int_literal),
        Err(FunctionParamError::TypeMismatch { expected: Type::Bytes, actual: Type::Int })
    );
}

#[test]
fn signature_is_three_byte_strings_to_bytes() {
    let f = RegexReplaceFunction::default();
    assert_eq!(f.return_type(), Type::Bytes);
    assert_eq!(f.arg_count(), (3, Some(0)));
    let args = vec![bytes_arg(b"abXXcd"), bytes_arg(b"X+"), bytes_arg(b"-")];
    assert_eq!(f.compile().call(&args), Ok(Some(LhsValue::Bytes(b"ab-cd".to_vec()))));
}

#[test]
fn template_expansion_on_given_groups() {
    let src = b"hello world";
    let groups = vec![Some((0usize, 11usize)), Some((6, 11)), None];
    assert_eq!(build_replacement(b"<${1}|${2}|$$>", &groups, src), b"<world||$>".to_vec());
    assert_eq!(build_replacement(b"", &groups, src), Vec::<u8>::new());
}

#[test]
fn splice_on_given_groups() {
    let src = b"hello world";
    let groups = Some(vec![Some((6usize, 11usize))]);
    assert_eq!(splice_first_match(src, &groups, b"there"), b"hello there".to_vec());
    assert_eq!(splice_first_match(src, &None, b"there"), b"hello world".to_vec());
}

#[test]
fn byte_search_and_group_numbers() {
    assert_eq!(find_byte(b"a}b}", 0, b'}'), Some(1));
    assert_eq!(find_byte(b"a}b}", 2, b'}'), Some(3));
    assert_eq!(find_byte(b"a}b}", 4, b'}'), None);
    assert_eq!(parse_group_index(b"x7y", 1, 2), Some(7));
    assert_eq!(parse_group_index(b"+8", 0, 2), None);
    assert_eq!(parse_group_index(b"08", 0, 2), Some(8));
    assert_eq!(parse_group_index(b"9", 0, 1), None);
    assert_eq!(parse_group_index(b"99999999999999999999999", 0, 23), None);
    assert_eq!(parse_group_index(b"+", 0, 1), None);
    assert_eq!(parse_group_index(b"1a", 0, 2), None);
}

#[test]
fn appending_a_range() {
    let mut out = b"ab".to_vec();
    append_range(&mut out, b"xyz", 1, 3);
    assert_eq!(out, b"abyz".to_vec());
}
