//! Replacement templates: `${1}`..`${8}` insert a capture group, `$$` stands
//! for a literal `$`, and every other byte is copied as it is.

use vstd::prelude::*;

verus! {

/// The byte `$`.
pub const DOLLAR: u8 = 0x24;

/// The byte `{`.
pub const OPEN_BRACE: u8 = 0x7b;

/// The byte `}`.
pub const CLOSE_BRACE: u8 = 0x7d;

/// The highest capture group a template can refer to.
pub const MAX_GROUP: usize = 8;

/// The position of the first `b` in `s`, if there is one.
pub open spec fn first_index_of(s: Seq<u8>, b: u8) -> Option<int>
    decreases s.len(),
{
    if s.len() == 0 {
        None
    } else if s[0] == b {
        Some(0)
    } else {
        match first_index_of(s.drop_first(), b) {
            Some(k) => Some(k + 1),
            None => None,
        }
    }
}

/// What `first_index_of` gives, by the positions of `b` in `s`.
pub proof fn lemma_first_index_of(s: Seq<u8>, b: u8)
    ensures
        first_index_of(s, b) matches Some(k) ==> {
            &&& 0 <= k < s.len()
            &&& s[k] == b
            &&& forall|j: int| 0 <= j < k ==> s[j] != b
        },
        first_index_of(s, b) is None ==> forall|j: int| 0 <= j < s.len() ==> s[j] != b,
    decreases s.len(),
{
    if s.len() > 0 && s[0] != b {
        lemma_first_index_of(s.drop_first(), b);
        assert forall|j: int| 1 <= j < s.len() implies s[j] == s.drop_first()[j - 1] by {}
    }
}

/// The position of the first `b` at or after `from` in `s`.
pub fn find_byte(s: &[u8], from: usize, b: u8) -> (r: Option<usize>)
    requires
        from <= s@.len(),
    ensures
        match r {
            Some(j) => from <= j < s@.len() && first_index_of(s@.skip(from as int), b) == Some(
                j - from,
            ),
            None => first_index_of(s@.skip(from as int), b) is None,
        },
{
    let ghost rest = s@.skip(from as int);
    proof {
        lemma_first_index_of(rest, b);
    }
    let mut j = from;
    while j < s.len()
        invariant
            from <= j <= s@.len(),
            rest == s@.skip(from as int),
            forall|k: int| from <= k < j ==> s@[k] != b,
            first_index_of(rest, b) matches Some(k) ==> {
                &&& 0 <= k < rest.len()
                &&& rest[k] == b
                &&& forall|i: int| 0 <= i < k ==> rest[i] != b
            },
            first_index_of(rest, b) is None ==> forall|i: int| 0 <= i < rest.len() ==> rest[i] != b,
        decreases s@.len() - j,
    {
        if s[j] == b {
            assert(rest[j - from] == b);
            assert forall|i: int| 0 <= i < j - from implies rest[i] != b by {
                assert(rest[i] == s@[from + i]);
            }
            return Some(j);
        }
        j = j + 1;
    }
    assert forall|i: int| 0 <= i < rest.len() implies rest[i] != b by {
        assert(rest[i] == s@[from + i]);
    }
    None
}

/// Whether `b` is one of the ASCII digits `0`..`9`.
pub open spec fn is_ascii_digit(b: u8) -> bool {
    0x30 <= b <= 0x39
}

/// The value of a string of decimal digits, most significant first.
pub open spec fn decimal_value(digits: Seq<u8>) -> nat
    decreases digits.len(),
{
    if digits.len() == 0 {
        0
    } else {
        decimal_value(digits.drop_last()) * 10 + (digits.last() - 0x30) as nat
    }
}

/// Whether `digits` is a non-empty string of ASCII digits.
pub open spec fn is_digit_string(digits: Seq<u8>) -> bool {
    digits.len() > 0 && forall|i: int| 0 <= i < digits.len() ==> is_ascii_digit(#[trigger] digits[i])
}

/// The number that `text` spells, where it is one or more ASCII digits.
pub open spec fn decimal_number(text: Seq<u8>) -> Option<nat> {
    if is_digit_string(text) {
        Some(decimal_value(text))
    } else {
        None
    }
}

/// The capture group that the text between the braces of `${...}` names:
/// a number from 1 to `MAX_GROUP`.
pub open spec fn group_index(text: Seq<u8>) -> Option<nat> {
    match decimal_number(text) {
        Some(n) => if 1 <= n <= MAX_GROUP {
            Some(n)
        } else {
            None
        },
        None => None,
    }
}

/// The group that `text[lo..hi]` names, read as `group_index` says.
pub fn parse_group_index(text: &[u8], lo: usize, hi: usize) -> (r: Option<usize>)
    requires
        lo <= hi <= text@.len(),
    ensures
        match group_index(text@.subrange(lo as int, hi as int)) {
            Some(n) => r == Some(n as usize),
            None => r is None,
        },
{
    let ghost digits = text@.subrange(lo as int, hi as int);
    if lo == hi {
        return None;
    }
    // `value` is the value of the digits read so far, or 9 once that exceeds 8.
    let mut value: usize = 0;
    let mut j = lo;
    while j < hi
        invariant
            lo < hi <= text@.len(),
            lo <= j <= hi,
            digits == text@.subrange(lo as int, hi as int),
            forall|i: int| lo <= i < j ==> is_ascii_digit(text@[i]),
            value <= 9,
            value == (if decimal_value(text@.subrange(lo as int, j as int)) <= 8 {
                decimal_value(text@.subrange(lo as int, j as int))
            } else {
                9
            }),
        decreases hi - j,
    {
        let c = text[j];
        if c < 0x30 || c > 0x39 {
            assert(digits[j - lo] == c);
            assert(!is_ascii_digit(digits[j - lo]));
            return None;
        }
        let ghost before = text@.subrange(lo as int, j as int);
        let ghost after = text@.subrange(lo as int, j + 1);
        assert(after.drop_last() =~= before);
        assert(decimal_value(after) == decimal_value(before) * 10 + (c - 0x30) as nat);
        if value <= 8 {
            let next = value * 10 + (c - 0x30) as usize;
            value = if next <= 8 {
                next
            } else {
                9
            };
        }
        j = j + 1;
    }
    assert(text@.subrange(lo as int, hi as int) =~= digits);
    assert forall|i: int| 0 <= i < digits.len() implies is_ascii_digit(digits[i]) by {
        assert(digits[i] == text@[lo + i]);
    }
    if 1 <= value && value <= MAX_GROUP {
        Some(value)
    } else {
        None
    }
}

/// Whether every group span lies inside a haystack of `len` bytes, with its
/// start at or before its end.
pub open spec fn spans_within(groups: Seq<Option<(usize, usize)>>, len: nat) -> bool {
    forall|i: int|
        0 <= i < groups.len() ==> (#[trigger] groups[i] matches Some(span) ==> span.0 <= span.1
            <= len)
}

/// The bytes of `src` that group `n` matched: empty where the group does not
/// exist or took no part in the match.
pub open spec fn group_text(groups: Seq<Option<(usize, usize)>>, n: int, src: Seq<u8>) -> Seq<u8> {
    if 0 <= n < groups.len() {
        match groups[n] {
            Some(span) => src.subrange(span.0 as int, span.1 as int),
            None => Seq::empty(),
        }
    } else {
        Seq::empty()
    }
}

/// The group reference `${n}` that `t` starts with, as the group and the
/// length of the reference in bytes.
pub open spec fn group_reference(t: Seq<u8>) -> Option<(nat, nat)> {
    if t.len() >= 2 && t[0] == DOLLAR && t[1] == OPEN_BRACE {
        match first_index_of(t.skip(2), CLOSE_BRACE) {
            Some(k) => match group_index(t.subrange(2, 2 + k)) {
                Some(n) => Some((n, (k + 3) as nat)),
                None => None,
            },
            None => None,
        }
    } else {
        None
    }
}

/// A group reference at the start of `t` lies inside `t`.
pub proof fn lemma_group_reference_len(t: Seq<u8>)
    ensures
        group_reference(t) matches Some(r) ==> 3 <= r.1 <= t.len(),
{
    if t.len() >= 2 {
        lemma_first_index_of(t.skip(2), CLOSE_BRACE);
    }
}

/// The expansion of the replacement template `t` for a match whose capture
/// group spans are `groups` in the haystack `src`.
pub open spec fn expand(t: Seq<u8>, groups: Seq<Option<(usize, usize)>>, src: Seq<u8>) -> Seq<u8>
    decreases t.len(),
{
    if t.len() == 0 {
        Seq::empty()
    } else if t[0] != DOLLAR {
        seq![t[0]] + expand(t.drop_first(), groups, src)
    } else if t.len() >= 2 && t[1] == DOLLAR {
        seq![DOLLAR] + expand(t.skip(2), groups, src)
    } else {
        proof {
            lemma_group_reference_len(t);
        }
        match group_reference(t) {
            Some(r) => group_text(groups, r.0 as int, src) + expand(t.skip(r.1 as int), groups, src),
            None => seq![DOLLAR] + expand(t.drop_first(), groups, src),
        }
    }
}

/// Appends `src[start..end]` to `out`.
pub fn append_range(out: &mut Vec<u8>, src: &[u8], start: usize, end: usize)
    requires
        start <= end <= src@.len(),
    ensures
        final(out)@ == old(out)@ + src@.subrange(start as int, end as int),
{
    let ghost initial = out@;
    let mut j = start;
    while j < end
        invariant
            start <= j <= end <= src@.len(),
            out@ == initial + src@.subrange(start as int, j as int),
        decreases end - j,
    {
        out.push(src[j]);
        j = j + 1;
        assert(out@ =~= initial + src@.subrange(start as int, j as int));
    }
}

/// Expands the replacement template `replacement` for a match whose capture
/// group spans are `groups` in `src`.
pub fn build_replacement(
    replacement: &[u8],
    groups: &[Option<(usize, usize)>],
    src: &[u8],
) -> (out: Vec<u8>)
    requires
        spans_within(groups@, src@.len()),
    ensures
        out@ == expand(replacement@, groups@, src@),
{
    let ghost t = replacement@;
    let len = replacement.len();
    let mut out: Vec<u8> = Vec::with_capacity(len);
    let mut i: usize = 0;
    assert(t.skip(0) =~= t);
    while i < len
        invariant
            len == t.len(),
            t == replacement@,
            i <= len,
            spans_within(groups@, src@.len()),
            expand(t, groups@, src@) == out@ + expand(t.skip(i as int), groups@, src@),
        decreases len - i,
    {
        let ghost rest = t.skip(i as int);
        let ghost before = out@;
        assert(rest[0] == t[i as int]);
        assert(rest.drop_first() =~= t.skip(i + 1));
        if replacement[i] != DOLLAR {
            out.push(replacement[i]);
            i = i + 1;
            assert(out@ =~= before + seq![rest[0]]);
        } else if i + 1 < len && replacement[i + 1] == DOLLAR {
            assert(rest[1] == t[i + 1]);
            assert(rest.skip(2) =~= t.skip(i + 2));
            out.push(DOLLAR);
            i = i + 2;
            assert(out@ =~= before + seq![DOLLAR]);
        } else {
            let mut reference: Option<(usize, usize)> = None;
            if i + 1 < len && replacement[i + 1] == OPEN_BRACE {
                assert(rest[1] == t[i + 1]);
                assert(rest.skip(2) =~= t.skip(i + 2));
                if let Some(close) = find_byte(replacement, i + 2, CLOSE_BRACE) {
                    assert(rest.subrange(2, 2 + (close - (i + 2))) =~= t.subrange(
                        i + 2,
                        close as int,
                    ));
                    if let Some(n) = parse_group_index(replacement, i + 2, close) {
                        reference = Some((n, close + 1));
                    }
                }
            }
            match reference {
                Some((n, next)) => {
                    assert(rest.skip(next - i) =~= t.skip(next as int));
                    if n < groups.len() {
                        if let Some((s, e)) = groups[n] {
                            assert(groups@[n as int] matches Some(span) ==> span.0 <= span.1
                                <= src@.len());
                            append_range(&mut out, src, s, e);
                        }
                    }
                    assert(out@ =~= before + group_text(groups@, n as int, src@));
                    i = next;
                },
                None => {
                    out.push(DOLLAR);
                    i = i + 1;
                    assert(out@ =~= before + seq![DOLLAR]);
                },
            }
        }
    }
    assert(t.skip(len as int) =~= Seq::<u8>::empty());
    out
}

/// `first_index_of` finds the first position that holds `b`.
pub proof fn lemma_first_index_of_is(s: Seq<u8>, b: u8, k: int)
    requires
        0 <= k < s.len(),
        s[k] == b,
        forall|j: int| 0 <= j < k ==> s[j] != b,
    ensures
        first_index_of(s, b) == Some(k),
{
    lemma_first_index_of(s, b);
    match first_index_of(s, b) {
        Some(k2) => {
            if k2 < k {
                assert(s[k2] != b);
            } else if k < k2 {
                assert(s[k] != b);
            }
        },
        None => {
            assert(s[k] != b);
        },
    }
}

/// Whether `t` holds no `$`.
pub open spec fn has_no_dollar(t: Seq<u8>) -> bool {
    forall|i: int| 0 <= i < t.len() ==> t[i] != DOLLAR
}

/// Law: bytes other than `$` are copied as they are: a template that starts
/// with such bytes expands to them followed by the expansion of the rest.
pub proof fn lemma_literal_prefix(
    lit: Seq<u8>,
    rest: Seq<u8>,
    groups: Seq<Option<(usize, usize)>>,
    src: Seq<u8>,
)
    requires
        has_no_dollar(lit),
    ensures
        expand(lit + rest, groups, src) == lit + expand(rest, groups, src),
    decreases lit.len(),
{
    if lit.len() == 0 {
        assert(lit + rest =~= rest);
        assert(lit + expand(rest, groups, src) =~= expand(rest, groups, src));
    } else {
        let t = lit + rest;
        assert(t[0] == lit[0]);
        assert(t.drop_first() =~= lit.drop_first() + rest);
        lemma_literal_prefix(lit.drop_first(), rest, groups, src);
        assert(seq![lit[0]] + (lit.drop_first() + expand(rest, groups, src)) =~= lit + expand(
            rest,
            groups,
            src,
        ));
    }
}

/// Law: a template without `$` expands to itself.
pub proof fn lemma_literal_template(
    t: Seq<u8>,
    groups: Seq<Option<(usize, usize)>>,
    src: Seq<u8>,
)
    requires
        has_no_dollar(t),
    ensures
        expand(t, groups, src) == t,
{
    lemma_literal_prefix(t, Seq::empty(), groups, src);
    assert(t + Seq::<u8>::empty() =~= t);
    assert(t + expand(Seq::<u8>::empty(), groups, src) =~= t);
}

/// `t` with every `$` written twice.
pub open spec fn escape_dollars(t: Seq<u8>) -> Seq<u8>
    decreases t.len(),
{
    if t.len() == 0 {
        Seq::empty()
    } else if t[0] == DOLLAR {
        seq![DOLLAR, DOLLAR] + escape_dollars(t.drop_first())
    } else {
        seq![t[0]] + escape_dollars(t.drop_first())
    }
}

/// Law: `$$` stands for a literal `$`, so any bytes with every `$` written
/// twice expand back to those bytes, whatever the match.
pub proof fn lemma_escaped_template(
    t: Seq<u8>,
    groups: Seq<Option<(usize, usize)>>,
    src: Seq<u8>,
)
    ensures
        expand(escape_dollars(t), groups, src) == t,
    decreases t.len(),
{
    if t.len() > 0 {
        let e = escape_dollars(t);
        lemma_escaped_template(t.drop_first(), groups, src);
        if t[0] == DOLLAR {
            assert(e.skip(2) =~= escape_dollars(t.drop_first()));
        } else {
            assert(e.drop_first() =~= escape_dollars(t.drop_first()));
        }
        assert(seq![t[0]] + t.drop_first() =~= t);
    }
}

/// Law: `${n}`, where the text `n` between the braces names a group from 1 to
/// 8 (ASCII digits), inserts the bytes that group matched,
/// nothing where the group took no part or does not exist.
pub proof fn lemma_group_reference(
    text: Seq<u8>,
    rest: Seq<u8>,
    groups: Seq<Option<(usize, usize)>>,
    src: Seq<u8>,
)
    requires
        group_index(text) is Some,
    ensures
        expand(seq![DOLLAR, OPEN_BRACE] + text + seq![CLOSE_BRACE] + rest, groups, src)
            == group_text(groups, group_index(text)->0 as int, src) + expand(rest, groups, src),
{
    let t = seq![DOLLAR, OPEN_BRACE] + text + seq![CLOSE_BRACE] + rest;
    let k = text.len() as int;
    assert forall|j: int| 0 <= j < k implies text[j] != CLOSE_BRACE by {
        assert(is_ascii_digit(text[j]));
    }
    assert(t.skip(2) =~= text + seq![CLOSE_BRACE] + rest);
    lemma_first_index_of_is(t.skip(2), CLOSE_BRACE, k);
    assert(t.subrange(2, 2 + k) =~= text);
    assert(t.skip(k + 3) =~= rest);
    assert(t[1] == OPEN_BRACE);
}

/// Law: `${...}` whose text names no group from 1 to 8 is copied as it is.
pub proof fn lemma_unknown_group_reference(
    text: Seq<u8>,
    rest: Seq<u8>,
    groups: Seq<Option<(usize, usize)>>,
    src: Seq<u8>,
)
    requires
        group_index(text) is None,
        has_no_dollar(text),
        forall|j: int| 0 <= j < text.len() ==> text[j] != CLOSE_BRACE,
    ensures
        expand(seq![DOLLAR, OPEN_BRACE] + text + seq![CLOSE_BRACE] + rest, groups, src)
            == seq![DOLLAR, OPEN_BRACE] + text + seq![CLOSE_BRACE] + expand(rest, groups, src),
{
    let t = seq![DOLLAR, OPEN_BRACE] + text + seq![CLOSE_BRACE] + rest;
    let k = text.len() as int;
    assert(t.skip(2) =~= text + seq![CLOSE_BRACE] + rest);
    lemma_first_index_of_is(t.skip(2), CLOSE_BRACE, k);
    assert(t.subrange(2, 2 + k) =~= text);
    assert(t[1] == OPEN_BRACE);
    let lit = seq![OPEN_BRACE] + text + seq![CLOSE_BRACE];
    assert(t.drop_first() =~= lit + rest);
    lemma_literal_prefix(lit, rest, groups, src);
    assert(seq![DOLLAR] + (lit + expand(rest, groups, src)) =~= seq![DOLLAR, OPEN_BRACE] + text
        + seq![CLOSE_BRACE] + expand(rest, groups, src));
}

/// Law: a `$` followed by neither `$` nor `{`, or by nothing, is copied as it
/// is; only `${n}` refers to a group, so `$1` stays `$1`.
pub proof fn lemma_lone_dollar(rest: Seq<u8>, groups: Seq<Option<(usize, usize)>>, src: Seq<u8>)
    requires
        rest.len() > 0 ==> rest[0] != DOLLAR && rest[0] != OPEN_BRACE,
    ensures
        expand(seq![DOLLAR] + rest, groups, src) == seq![DOLLAR] + expand(rest, groups, src),
{
    let t = seq![DOLLAR] + rest;
    assert(t.drop_first() =~= rest);
    if rest.len() > 0 {
        assert(t[1] == rest[0]);
    }
}

/// Law: `$$` writes one `$` and ends there: whatever follows is expanded on
/// its own, so a group reference right after `$$` is still expanded.
pub proof fn lemma_double_dollar(rest: Seq<u8>, groups: Seq<Option<(usize, usize)>>, src: Seq<u8>)
    ensures
        expand(seq![DOLLAR, DOLLAR] + rest, groups, src) == seq![DOLLAR] + expand(
            rest,
            groups,
            src,
        ),
{
    let t = seq![DOLLAR, DOLLAR] + rest;
    assert(t[0] == DOLLAR);
    assert(t[1] == DOLLAR);
    assert(t.skip(2) =~= rest);
}

/// Law: every number from 1 to 8 read from digits names that group, with or
/// without leading zeros.
pub proof fn lemma_group_index_in_range(text: Seq<u8>)
    requires
        decimal_number(text) matches Some(n) && 1 <= n <= MAX_GROUP,
    ensures
        group_index(text) == decimal_number(text),
{
}

/// Law: each of `${1}`..`${8}` inserts the bytes of its own group.
pub proof fn lemma_single_digit_reference(
    d: nat,
    rest: Seq<u8>,
    groups: Seq<Option<(usize, usize)>>,
    src: Seq<u8>,
)
    requires
        1 <= d <= MAX_GROUP,
    ensures
        group_index(seq![(0x30 + d) as u8]) == Some(d),
        expand(
            seq![DOLLAR, OPEN_BRACE, (0x30 + d) as u8, CLOSE_BRACE] + rest,
            groups,
            src,
        ) == group_text(groups, d as int, src) + expand(rest, groups, src),
{
    let text = seq![(0x30 + d) as u8];
    let c = (0x30 + d) as u8;
    assert(c == 0x30 + d);
    assert(text.last() == c);
    assert(text.drop_last() =~= Seq::<u8>::empty());
    assert(decimal_value(text.drop_last()) == 0);
    assert(decimal_value(text) == d);
    assert(is_digit_string(text));
    lemma_group_reference(text, rest, groups, src);
    assert(seq![DOLLAR, OPEN_BRACE] + text + seq![CLOSE_BRACE] + rest =~= seq![
        DOLLAR,
        OPEN_BRACE,
        (0x30 + d) as u8,
        CLOSE_BRACE,
    ] + rest);
}

} // verus!
