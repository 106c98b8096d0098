//! Text helpers shared by the parsers of this crate: splitting on a separator
//! and reading numbers and booleans out of annotation values.

use std::str::FromStr;
use vstd::prelude::*;

verus! {

/// `str`'s `==` from the standard library: two string slices are equal exactly
/// when they hold the same characters.
pub assume_specification[ <str as PartialEq>::eq ](a: &str, b: &str) -> (same: bool)
    ensures
        same == (a@ == b@),
;

/// The error of the standard library's integer parser. Its contents stay
/// opaque to the proofs; it is only carried to the caller.
#[verifier::external_type_specification]
#[verifier::external_body]
pub struct ExParseIntError(std::num::ParseIntError);

/// The error of the standard library's boolean parser, carried like the
/// integer one.
#[verifier::external_type_specification]
#[verifier::external_body]
pub struct ExParseBoolError(std::str::ParseBoolError);

/// The pieces of `s` between the occurrences of `sep`, in order. A text
/// without `sep` is its own single piece; `n` separators give `n + 1` pieces,
/// some of which may be empty.
pub open spec fn split(s: Seq<char>, sep: char) -> Seq<Seq<char>>
    decreases s.len(),
{
    if s.len() == 0 {
        seq![Seq::<char>::empty()]
    } else {
        let before = split(s.drop_last(), sep);
        if s.last() == sep {
            before.push(Seq::<char>::empty())
        } else {
            before.drop_last().push(before.last().push(s.last()))
        }
    }
}

/// Splitting always yields at least one piece.
pub proof fn split_is_never_empty(s: Seq<char>, sep: char)
    ensures
        split(s, sep).len() >= 1,
    decreases s.len(),
{
    if s.len() > 0 {
        split_is_never_empty(s.drop_last(), sep);
    }
}

/// Whether `c` is one of the ten decimal digits.
pub open spec fn is_digit(c: char) -> bool {
    '0' as u32 <= c as u32 <= '9' as u32
}

/// The number that a run of decimal digits writes.
pub open spec fn digits_value(s: Seq<char>) -> int
    decreases s.len(),
{
    if s.len() == 0 {
        0
    } else {
        digits_value(s.drop_last()) * 10 + (s.last() as u32 - '0' as u32)
    }
}

/// `s` without its leading sign, if it has one.
pub open spec fn without_sign(s: Seq<char>) -> Seq<char> {
    if s.len() > 0 && (s[0] == '+' || s[0] == '-') {
        s.drop_first()
    } else {
        s
    }
}

/// The number that a signed decimal text writes.
pub open spec fn decimal_value(s: Seq<char>) -> int {
    if s.len() > 0 && s[0] == '-' {
        -digits_value(without_sign(s))
    } else {
        digits_value(without_sign(s))
    }
}

/// Whether `s` is an optional sign followed by at least one decimal digit and
/// nothing else.
pub open spec fn is_decimal(s: Seq<char>) -> bool {
    let digits = without_sign(s);
    digits.len() > 0 && forall|i: int| 0 <= i < digits.len() ==> is_digit(#[trigger] digits[i])
}

/// Whether `s` writes a number that an `i32` can hold.
pub open spec fn is_decimal_i32(s: Seq<char>) -> bool {
    is_decimal(s) && i32::MIN <= decimal_value(s) <= i32::MAX
}

/// Calls `i32::from_str` of the standard library. The text is accepted exactly
/// when it is an optional `+` or `-` followed by decimal digits only and the
/// number fits an `i32`; the result is then that number.
#[verifier::external_body]
pub(crate) fn parse_i32(s: &str) -> (parsed: Result<i32, std::num::ParseIntError>)
    ensures
        parsed is Ok <==> is_decimal_i32(s@),
        parsed matches Ok(v) ==> v == decimal_value(s@),
{
    i32::from_str(s)
}

/// Calls `bool::from_str` of the standard library, which accepts the two texts
/// `true` and `false` and nothing else.
#[verifier::external_body]
pub(crate) fn parse_bool(s: &str) -> (parsed: Result<bool, std::str::ParseBoolError>)
    ensures
        parsed is Ok <==> (s@ == "true"@ || s@ == "false"@),
        parsed matches Ok(b) ==> b == (s@ == "true"@),
{
    bool::from_str(s)
}

/// Whether two optional texts are both absent or both present and equal.
pub fn same_optional_text(a: &Option<String>, b: &Option<String>) -> (same: bool)
    ensures
        same == (a.deep_view() == b.deep_view()),
{
    match a {
        Some(x) => match b {
            Some(y) => x.as_str().eq(y.as_str()),
            None => false,
        },
        None => b.is_none(),
    }
}

/// Whether `texts` holds `wanted`.
pub fn holds_text(texts: &Vec<String>, wanted: &str) -> (found: bool)
    ensures
        found == texts.deep_view().contains(wanted@),
{
    let mut i: usize = 0;
    while i < texts.len()
        invariant
            i <= texts.len(),
            forall|k: int| 0 <= k < i ==> texts.deep_view()[k] != wanted@,
        decreases texts.len() - i,
    {
        if texts[i].as_str().eq(wanted) {
            assert(texts.deep_view()[i as int] == wanted@);
            return true;
        }
        i = i + 1;
    }
    false
}

/// A copy of an optional text.
pub fn copy_optional_text(text: &Option<String>) -> (copy: Option<String>)
    ensures
        copy.deep_view() == text.deep_view(),
{
    match text {
        Some(t) => Some(t.clone()),
        None => None,
    }
}

/// The characters of `s`, one by one.
pub fn chars_of(s: &str) -> (chars: Vec<char>)
    ensures
        chars@ == s@,
{
    let mut chars: Vec<char> = Vec::new();
    for c in it: s.chars()
        invariant
            chars@ == it.seq().take(it.index() as int),
    {
        chars.push(c);
    }
    chars
}

/// Splits `s` at every `sep`.
pub fn split_text(s: &str, sep: char) -> (parts: Vec<String>)
    ensures
        parts.deep_view() == split(s@, sep),
{
    let chars = chars_of(s);
    let n = chars.len();
    let mut parts: Vec<String> = Vec::new();
    let mut start: usize = 0;
    let mut i: usize = 0;
    proof {
        assert(s@.take(0) =~= Seq::<char>::empty());
        assert(parts.deep_view() =~= split(s@.take(0), sep).drop_last());
        assert(s@.subrange(0, 0) =~= split(s@.take(0), sep).last());
    }
    while i < n
        invariant
            chars@ == s@,
            n == chars@.len(),
            start <= i <= n,
            split(s@.take(i as int), sep).len() >= 1,
            parts.deep_view() == split(s@.take(i as int), sep).drop_last(),
            s@.subrange(start as int, i as int) == split(s@.take(i as int), sep).last(),
        decreases n - i,
    {
        let ghost before = split(s@.take(i as int), sep);
        let ghost grown = s@.take(i as int + 1);
        proof {
            assert(grown.drop_last() =~= s@.take(i as int));
            assert(grown.last() == s@[i as int]);
        }
        if chars[i] == sep {
            let piece = s.substring_char(start, i).to_owned();
            let ghost old_parts = parts.deep_view();
            parts.push(piece);
            start = i + 1;
            proof {
                assert(parts.deep_view() =~= old_parts.push(before.last()));
                assert(old_parts.push(before.last()) =~= before);
                assert(split(grown, sep) == before.push(Seq::<char>::empty()));
                assert(before.push(Seq::<char>::empty()).drop_last() =~= before);
                assert(s@.subrange(i as int + 1, i as int + 1) =~= Seq::<char>::empty());
            }
        } else {
            proof {
                assert(split(grown, sep) == before.drop_last().push(
                    before.last().push(s@[i as int]),
                ));
                assert(before.drop_last().push(before.last().push(s@[i as int])).drop_last()
                    =~= before.drop_last());
                assert(s@.subrange(start as int, i as int + 1) =~= before.last().push(
                    s@[i as int],
                ));
            }
        }
        i = i + 1;
    }
    let piece = s.substring_char(start, n).to_owned();
    let ghost old_parts = parts.deep_view();
    parts.push(piece);
    proof {
        assert(s@.take(n as int) =~= s@);
        assert(parts.deep_view() =~= old_parts.push(split(s@, sep).last()));
        assert(old_parts.push(split(s@, sep).last()) =~= split(s@, sep));
    }
    parts
}

} // verus!
