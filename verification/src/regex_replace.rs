//! `regex_replace(source, pattern, replacement)`: replaces the first match of
//! the regular expression `pattern` in the bytes `source` with the expansion of
//! the template `replacement` (see the `template` module).

use vstd::prelude::*;
use vstd::string::StringSliceAdditionalSpecFns;
use vstd::utf8::{decode_utf8, encode_utf8_decode_utf8, valid_utf8};

use crate::regex_engine::{
    CompiledPattern, captures_well_formed, compile_pattern, leftmost_captures, regex_captures,
};
use crate::template::{append_range, build_replacement, expand, has_no_dollar, lemma_literal_template};

verus! {

/// The type of a value in a filter expression.
#[derive(Debug, Clone, Copy, PartialEq, Eq, Structural)]
pub enum Type {
    Bytes,
    Int,
    Bool,
}

/// A value that a function receives from, or hands back to, a filter.
#[derive(Debug, Clone, PartialEq, Eq)]
pub enum LhsValue {
    Bytes(Vec<u8>),
    Int(i64),
    Bool(bool),
}

/// One argument of a function call: the value, or the type of a value that
/// is missing at run time.
pub type FunctionArg = Result<LhsValue, Type>;

/// The bytes of `arg` where it is a byte string, and nothing otherwise.
pub open spec fn arg_bytes(arg: FunctionArg) -> Seq<u8> {
    match arg {
        Ok(LhsValue::Bytes(b)) => b@,
        _ => Seq::empty(),
    }
}

/// Whether `arg` is a byte string.
pub open spec fn is_bytes_arg(arg: FunctionArg) -> bool {
    arg matches Ok(LhsValue::Bytes(_))
}

/// Whether `arg` is a byte string that is missing at run time.
pub open spec fn is_missing_bytes(arg: FunctionArg) -> bool {
    arg matches Err(Type::Bytes)
}

/// Whether all three arguments are byte strings.
pub open spec fn all_bytes(args: Seq<FunctionArg>) -> bool {
    is_bytes_arg(args[0]) && is_bytes_arg(args[1]) && is_bytes_arg(args[2])
}

/// Whether the three arguments are all byte strings, or one of them is a
/// missing byte string: the cases that `regex_replace` handles.
pub open spec fn args_have_a_case(args: Seq<FunctionArg>) -> bool {
    ||| all_bytes(args)
    ||| is_missing_bytes(args[0])
    ||| is_missing_bytes(args[1])
    ||| is_missing_bytes(args[2])
}

/// The view of the capture groups that a search hands back.
pub open spec fn captures_view(captures: Option<Vec<Option<(usize, usize)>>>) -> Option<
    Seq<Option<(usize, usize)>>,
> {
    match captures {
        Some(groups) => Some(groups@),
        None => None,
    }
}

/// `src` with the whole match of `captures` (its group 0) replaced by the
/// expansion of `template`, or `src` itself where there is no match.
pub open spec fn replace_first(
    src: Seq<u8>,
    captures: Option<Seq<Option<(usize, usize)>>>,
    template: Seq<u8>,
) -> Seq<u8> {
    match captures {
        Some(groups) => match groups[0] {
            Some(whole) => src.subrange(0, whole.0 as int) + expand(template, groups, src)
                + src.subrange(whole.1 as int, src.len() as int),
            None => src,
        },
        None => src,
    }
}

/// The result of `regex_replace` on byte strings: `source` with the leftmost
/// match of `pattern` replaced by the expansion of `replacement`.
pub open spec fn regex_replace_spec(source: Seq<u8>, pattern: Seq<u8>, replacement: Seq<u8>) -> Seq<
    u8,
> {
    replace_first(source, regex_captures(decode_utf8(pattern), source), replacement)
}

/// Reads `bytes` as UTF-8 text with `std::str::from_utf8`. Trusted: as std
/// documents, it succeeds exactly on valid UTF-8, and the text it gives is
/// made of the same bytes.
#[verifier::external_body]
fn str_from_utf8(bytes: &[u8]) -> (r: Option<&str>)
    ensures
        r is Some <==> valid_utf8(bytes@),
        r matches Some(s) ==> s.spec_bytes() == bytes@,
{
    match std::str::from_utf8(bytes) {
        Ok(s) => Some(s),
        Err(_) => None,
    }
}

/// Replaces the whole match of `captures` in `src` with the expansion of
/// `replacement`, or copies `src` where there is no match.
pub fn splice_first_match(
    src: &[u8],
    captures: &Option<Vec<Option<(usize, usize)>>>,
    replacement: &[u8],
) -> (out: Vec<u8>)
    requires
        captures matches Some(groups) ==> captures_well_formed(groups@, src@.len()),
    ensures
        out@ == replace_first(src@, captures_view(*captures), replacement@),
{
    let mut out: Vec<u8> = Vec::with_capacity(src.len());
    match captures {
        Some(groups) => {
            assert(groups@[0] matches Some(span) ==> span.0 <= span.1 <= src@.len());
            if let Some((start, end)) = groups[0] {
                append_range(&mut out, src, 0, start);
                let repl = build_replacement(replacement, groups.as_slice(), src);
                append_range(&mut out, repl.as_slice(), 0, repl.len());
                assert(repl@.subrange(0, repl@.len() as int) =~= repl@);
                append_range(&mut out, src, end, src.len());
            }
        },
        None => {
            append_range(&mut out, src, 0, src.len());
            assert(src@.subrange(0, src@.len() as int) =~= src@);
        },
    }
    out
}

/// Replaces the leftmost match of the compiled `pattern` in `source` with the
/// expansion of `replacement`.
pub fn replace_with_pattern(pattern: &CompiledPattern, source: &[u8], replacement: &[u8]) -> (out:
    Vec<u8>)
    ensures
        out@ == replace_first(source@, regex_captures(pattern@, source@), replacement@),
{
    let captures = leftmost_captures(pattern, source);
    splice_first_match(source, &captures, replacement)
}

/// Replaces the leftmost match of `pattern` in `source` with the expansion
/// of `replacement`; `None` where the `regex` crate does not compile the
/// pattern, which it may refuse for its size on some machines.
pub fn replace_first_match(source: &[u8], pattern: &[u8], replacement: &[u8]) -> (r: Option<
    Vec<u8>,
>)
    requires
        valid_utf8(pattern@),
    ensures
        r matches Some(out) ==> out@ == regex_replace_spec(source@, pattern@, replacement@),
{
    let pattern_str = str_from_utf8(pattern).unwrap();
    proof {
        encode_utf8_decode_utf8(pattern_str@);
    }
    match compile_pattern(pattern_str) {
        Ok(compiled) => Some(replace_with_pattern(&compiled, source, replacement)),
        Err(_) => None,
    }
}

/// What `regex_replace` gives for three arguments it has a case for: nothing
/// where one is a missing byte string; for three byte strings, the source
/// with its first match replaced, or `InvalidPattern` where the `regex`
/// crate did not compile the pattern.
pub open spec fn regex_replace_outcome(
    args: Seq<FunctionArg>,
    r: Result<Option<LhsValue>, RegexReplaceError>,
) -> bool {
    if all_bytes(args) {
        ||| r == Err::<Option<LhsValue>, _>(RegexReplaceError::InvalidPattern)
        ||| (r matches Ok(Some(LhsValue::Bytes(out))) && out@ == regex_replace_spec(
            arg_bytes(args[0]),
            arg_bytes(args[1]),
            arg_bytes(args[2]),
        ))
    } else {
        r == Ok::<_, RegexReplaceError>(None::<LhsValue>)
    }
}

/// Runs `regex_replace` on its three arguments: `source`, a byte string
/// field; `pattern`, a regular expression; `replacement`, a template. Where
/// one of them is a byte string missing at run time, there is no result.
/// The pattern is compiled here; where the `regex` crate refuses it, the
/// result is `InvalidPattern`.
pub fn regex_replace_impl(args: &[FunctionArg]) -> (r: Result<Option<LhsValue>, RegexReplaceError>)
    requires
        args@.len() == 3,
        args_have_a_case(args@),
        all_bytes(args@) ==> valid_utf8(arg_bytes(args@[1])) && valid_utf8(arg_bytes(args@[2])),
    ensures
        regex_replace_outcome(args@, r),
        (args@[0] == Err::<LhsValue, Type>(Type::Bytes) || args@[1] == Err::<LhsValue, Type>(
            Type::Bytes,
        ) || args@[2] == Err::<LhsValue, Type>(Type::Bytes)) ==> r == Ok::<_, RegexReplaceError>(
            None::<LhsValue>,
        ),
{
    match (&args[0], &args[1], &args[2]) {
        (Ok(LhsValue::Bytes(source)), Ok(LhsValue::Bytes(pattern)), Ok(LhsValue::Bytes(replacement))) => {
            match replace_first_match(source.as_slice(), pattern.as_slice(), replacement.as_slice()) {
                Some(out) => Ok(Some(LhsValue::Bytes(out))),
                None => Err(RegexReplaceError::InvalidPattern),
            }
        },
        _ => Ok(None),
    }
}

/// Why `try_regex_replace` did not run `regex_replace`.
#[derive(Debug, Clone, Copy, PartialEq, Eq, Structural)]
pub enum RegexReplaceError {
    /// The call did not have exactly three arguments; `got` is how many it had.
    ArgumentCount { got: usize },
    /// The arguments were neither three byte strings nor held a missing one.
    UnexpectedArgument,
    /// The pattern is not valid UTF-8.
    PatternNotUtf8,
    /// The replacement is not valid UTF-8.
    ReplacementNotUtf8,
    /// The `regex` crate does not accept the pattern.
    InvalidPattern,
}

/// Checks the arguments that `regex_replace_impl` needs, then runs it; says
/// which check failed otherwise. The pattern handed to the `regex` crate is
/// the text that the pattern's bytes spell as UTF-8.
pub fn try_regex_replace(args: &[FunctionArg]) -> (r: Result<Option<LhsValue>, RegexReplaceError>)
    ensures
        args@.len() == 3 && (args@[0] == Err::<LhsValue, Type>(Type::Bytes) || args@[1] == Err::<LhsValue, Type>(
            Type::Bytes,
        ) || args@[2] == Err::<LhsValue, Type>(Type::Bytes)) ==> r == Ok::<
            _,
            RegexReplaceError,
        >(None::<LhsValue>),
        args@.len() != 3 ==> r == Err::<Option<LhsValue>, _>(
            RegexReplaceError::ArgumentCount { got: args@.len() as usize },
        ),
        args@.len() == 3 && !args_have_a_case(args@) ==> r == Err::<Option<LhsValue>, _>(
            RegexReplaceError::UnexpectedArgument,
        ),
        args@.len() == 3 && args_have_a_case(args@) && !all_bytes(args@) ==> r == Ok::<
            _,
            RegexReplaceError,
        >(None::<LhsValue>),
        args@.len() == 3 && all_bytes(args@) ==> {
            let source = arg_bytes(args@[0]);
            let pattern = arg_bytes(args@[1]);
            let replacement = arg_bytes(args@[2]);
            if !valid_utf8(pattern) {
                r == Err::<Option<LhsValue>, _>(RegexReplaceError::PatternNotUtf8)
            } else if !valid_utf8(replacement) {
                r == Err::<Option<LhsValue>, _>(RegexReplaceError::ReplacementNotUtf8)
            } else {
                regex_replace_outcome(args@, r)
            }
        },
{
    if args.len() != 3 {
        return Err(RegexReplaceError::ArgumentCount { got: args.len() });
    }
    match (&args[0], &args[1], &args[2]) {
        (Ok(LhsValue::Bytes(_)), Ok(LhsValue::Bytes(pattern)), Ok(LhsValue::Bytes(replacement))) => {
            if str_from_utf8(pattern.as_slice()).is_none() {
                return Err(RegexReplaceError::PatternNotUtf8);
            }
            if str_from_utf8(replacement.as_slice()).is_none() {
                return Err(RegexReplaceError::ReplacementNotUtf8);
            }
            regex_replace_impl(args)
        },
        (Err(Type::Bytes), _, _) => Ok(None),
        (_, Err(Type::Bytes), _) => Ok(None),
        (_, _, Err(Type::Bytes)) => Ok(None),
        _ => Err(RegexReplaceError::UnexpectedArgument),
    }
}

/// How an argument is written in a filter: a constant, a field, or an
/// expression over fields.
#[derive(Debug, Clone, Copy, PartialEq, Eq, Structural)]
pub enum FunctionArgKind {
    Literal,
    Field,
    Complex,
}

/// A parameter of a function call as the parser sees it: how it is written
/// and the type of its value.
#[derive(Debug, Clone, Copy, PartialEq, Eq, Structural)]
pub struct FunctionParam {
    pub arg_kind: FunctionArgKind,
    pub val_type: Type,
}

/// Why a parameter does not fit the function it is passed to.
#[derive(Debug, Clone, Copy, PartialEq, Eq, Structural)]
pub enum FunctionParamError {
    /// The parameter is written in the wrong way.
    KindMismatch { expected: FunctionArgKind, actual: FunctionArgKind },
    /// The parameter's value has the wrong type.
    TypeMismatch { expected: Type, actual: Type },
}

/// How the parameter at `index` of `regex_replace` must be written: the
/// source is a field, the pattern and the replacement are literals.
pub open spec fn expected_arg_kind(index: nat) -> FunctionArgKind {
    if index == 0 {
        FunctionArgKind::Field
    } else {
        FunctionArgKind::Literal
    }
}

/// What checking `param` at `index` of `regex_replace` gives: its kind is
/// checked first, then that its value is a byte string.
pub open spec fn param_check(index: nat, param: FunctionParam) -> Result<(), FunctionParamError> {
    if param.arg_kind != expected_arg_kind(index) {
        Err(
            FunctionParamError::KindMismatch {
                expected: expected_arg_kind(index),
                actual: param.arg_kind,
            },
        )
    } else if param.val_type != Type::Bytes {
        Err(FunctionParamError::TypeMismatch { expected: Type::Bytes, actual: param.val_type })
    } else {
        Ok(())
    }
}

/// The filter function `regex_replace(source, pattern, replacement)`:
/// replaces the first occurrence of a regular expression match in `source`
/// with `replacement`. The replacement can refer to capture groups with
/// `${1}`..`${8}` and write a literal `$` as `$$`.
#[derive(Debug, Default, Clone, Copy)]
pub struct RegexReplaceFunction {}

/// The function that `RegexReplaceFunction::compile` hands out.
#[derive(Debug, Default, Clone, Copy)]
pub struct RegexReplaceEvaluator {}

impl RegexReplaceFunction {
    /// Checks the parameter that follows the `params_len` parameters already
    /// checked.
    pub fn check_param(&self, params_len: usize, next_param: &FunctionParam) -> (r: Result<
        (),
        FunctionParamError,
    >)
        requires
            params_len < 3,
        ensures
            r == param_check(params_len as nat, *next_param),
            r is Ok <==> next_param.val_type == Type::Bytes && next_param.arg_kind == (if params_len
                == 0 {
                FunctionArgKind::Field
            } else {
                FunctionArgKind::Literal
            }),
    {
        let expected = if params_len == 0 {
            FunctionArgKind::Field
        } else {
            FunctionArgKind::Literal
        };
        if next_param.arg_kind != expected {
            return Err(
                FunctionParamError::KindMismatch { expected, actual: next_param.arg_kind },
            );
        }
        if next_param.val_type != Type::Bytes {
            return Err(
                FunctionParamError::TypeMismatch {
                    expected: Type::Bytes,
                    actual: next_param.val_type,
                },
            );
        }
        Ok(())
    }

    /// The type of the result: a byte string.
    pub fn return_type(&self) -> (t: Type)
        ensures
            t == Type::Bytes,
    {
        Type::Bytes
    }

    /// The number of mandatory and of optional arguments.
    pub fn arg_count(&self) -> (r: (usize, Option<usize>))
        ensures
            r == (3usize, Some(0usize)),
    {
        (3, Some(0))
    }

    /// The function that evaluates calls of `regex_replace`: its `call` runs
    /// `regex_replace_impl`.
    pub fn compile(&self) -> (f: RegexReplaceEvaluator)
        ensures
            f == (RegexReplaceEvaluator {  }),
    {
        RegexReplaceEvaluator {  }
    }
}

impl RegexReplaceEvaluator {
    /// Evaluates one call; see `regex_replace_impl`.
    pub fn call(&self, args: &[FunctionArg]) -> (r: Result<Option<LhsValue>, RegexReplaceError>)
        requires
            args@.len() == 3,
            args_have_a_case(args@),
            all_bytes(args@) ==> valid_utf8(arg_bytes(args@[1])) && valid_utf8(arg_bytes(args@[2])),
        ensures
            regex_replace_outcome(args@, r),
    {
        regex_replace_impl(args)
    }
}

/// Where the whole match (group 0) starts.
pub open spec fn match_start(groups: Seq<Option<(usize, usize)>>) -> int {
    match groups[0] {
        Some(span) => span.0 as int,
        None => 0,
    }
}

/// Where the whole match (group 0) ends.
pub open spec fn match_end(groups: Seq<Option<(usize, usize)>>) -> int {
    match groups[0] {
        Some(span) => span.1 as int,
        None => 0,
    }
}

/// Law: where the pattern does not match, the source comes back unchanged.
pub proof fn lemma_no_match_keeps_source(source: Seq<u8>, pattern: Seq<u8>, replacement: Seq<u8>)
    requires
        regex_captures(decode_utf8(pattern), source) is None,
    ensures
        regex_replace_spec(source, pattern, replacement) == source,
{
}

/// Law: only the first match is replaced: the bytes before it and the bytes
/// after it are kept as they are, whatever they hold (UTF-8 or not), and the
/// expansion of the template stands in between.
pub proof fn lemma_outside_of_match_kept(
    src: Seq<u8>,
    groups: Seq<Option<(usize, usize)>>,
    template: Seq<u8>,
)
    requires
        captures_well_formed(groups, src.len()),
    ensures
        ({
            let out = replace_first(src, Some(groups), template);
            let start = match_start(groups);
            let end = match_end(groups);
            let mid = expand(template, groups, src);
            &&& out.len() == src.len() - (end - start) + mid.len()
            &&& out.subrange(0, start) == src.subrange(0, start)
            &&& out.subrange(start, start + mid.len()) == mid
            &&& out.subrange(start + mid.len(), out.len() as int) == src.subrange(
                end,
                src.len() as int,
            )
        }),
{
    assert(groups[0] matches Some(span) ==> span.0 <= span.1 <= src.len());
    let out = replace_first(src, Some(groups), template);
    let start = match_start(groups);
    let end = match_end(groups);
    let mid = expand(template, groups, src);
    assert(out.subrange(0, start) =~= src.subrange(0, start));
    assert(out.subrange(start, start + mid.len()) =~= mid);
    assert(out.subrange(start + mid.len(), out.len() as int) =~= src.subrange(
        end,
        src.len() as int,
    ));
}

/// Law: an empty replacement deletes the match.
pub proof fn lemma_empty_replacement_deletes_match(
    src: Seq<u8>,
    groups: Seq<Option<(usize, usize)>>,
)
    requires
        captures_well_formed(groups, src.len()),
    ensures
        replace_first(src, Some(groups), Seq::empty()) == src.subrange(0, match_start(groups))
            + src.subrange(match_end(groups), src.len() as int),
{
    let start = match_start(groups);
    assert(src.subrange(0, start) + Seq::<u8>::empty() =~= src.subrange(0, start));
}

/// Law: a replacement without `$` is put in place of the match as it is.
pub proof fn lemma_literal_replacement(
    src: Seq<u8>,
    groups: Seq<Option<(usize, usize)>>,
    template: Seq<u8>,
)
    requires
        captures_well_formed(groups, src.len()),
        has_no_dollar(template),
    ensures
        replace_first(src, Some(groups), template) == src.subrange(0, match_start(groups))
            + template + src.subrange(match_end(groups), src.len() as int),
{
    lemma_literal_template(template, groups, src);
}

/// Law: a call in which one of the three arguments is a byte string missing
/// at run time has a case, and gives no result, whatever the other two are.
pub proof fn lemma_missing_argument_gives_nothing(
    args: Seq<FunctionArg>,
    r: Result<Option<LhsValue>, RegexReplaceError>,
)
    requires
        args.len() == 3,
        args[0] == Err::<LhsValue, Type>(Type::Bytes) || args[1] == Err::<LhsValue, Type>(
            Type::Bytes,
        ) || args[2] == Err::<LhsValue, Type>(Type::Bytes),
    ensures
        args_have_a_case(args),
        !all_bytes(args),
        regex_replace_outcome(args, r) <==> r == Ok::<_, RegexReplaceError>(None::<LhsValue>),
{
}

/// Law: three byte strings always have a case, and their result is the
/// source with its first match replaced, unless compiling the pattern failed.
pub proof fn lemma_three_byte_strings(
    args: Seq<FunctionArg>,
    r: Result<Option<LhsValue>, RegexReplaceError>,
)
    requires
        args.len() == 3,
        is_bytes_arg(args[0]),
        is_bytes_arg(args[1]),
        is_bytes_arg(args[2]),
        regex_replace_outcome(args, r),
        r != Err::<Option<LhsValue>, _>(RegexReplaceError::InvalidPattern),
    ensures
        args_have_a_case(args),
        r matches Ok(Some(LhsValue::Bytes(out))) && out@ == replace_first(
            arg_bytes(args[0]),
            regex_captures(decode_utf8(arg_bytes(args[1])), arg_bytes(args[0])),
            arg_bytes(args[2]),
        ),
{
}

/// Law: a parameter is accepted exactly when its value is a byte string and
/// it is written as the function asks: the source as a field, the pattern
/// and the replacement as literals. Where the way it is written is right but
/// its type is not, the error names both types.
pub proof fn lemma_param_check(index: nat, param: FunctionParam)
    requires
        index < 3,
    ensures
        param_check(index, param) is Ok <==> param.val_type == Type::Bytes && (if index == 0 {
            param.arg_kind == FunctionArgKind::Field
        } else {
            param.arg_kind == FunctionArgKind::Literal
        }),
        (if index == 0 {
            param.arg_kind == FunctionArgKind::Field
        } else {
            param.arg_kind == FunctionArgKind::Literal
        }) && param.val_type != Type::Bytes ==> param_check(index, param) == Err::<(), _>(
            FunctionParamError::TypeMismatch { expected: Type::Bytes, actual: param.val_type },
        ),
{
}

} // verus!

