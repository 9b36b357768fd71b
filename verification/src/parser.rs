//! The argument parser of the control commands: `key=value` words separated
//! by spaces, checked against the names that are required and those that
//! are allowed.

use vstd::prelude::*;

use crate::text::{
    chars_eq, chars_of, char_is_whitespace, find_char, is_whitespace, lemma_find_char_bounds,
    lemma_find_char_none, lemma_find_char_some, leading_whitespace, string_from_chars, trailing_whitespace, trim,
};

verus! {

/// Why a command was refused.
#[derive(Debug, Clone, PartialEq, Eq)]
pub enum ParseCommandError {
    EmptyString,
    NoSubcommand,
    UnknownCategory(String),
    UnknownSubcommand(String),
    InvalidArgument(String),
    DuplicateArgument(String),
    UnexpectedArgument(String),
    MissingArgument(String),
}

/// A [`ParseCommandError`] with its texts as character sequences.
pub enum CommandError {
    EmptyString,
    NoSubcommand,
    UnknownCategory(Seq<char>),
    UnknownSubcommand(Seq<char>),
    InvalidArgument(Seq<char>),
    DuplicateArgument(Seq<char>),
    UnexpectedArgument(Seq<char>),
    MissingArgument(Seq<char>),
}

impl View for ParseCommandError {
    type V = CommandError;

    open spec fn view(&self) -> CommandError {
        match self {
            ParseCommandError::EmptyString => CommandError::EmptyString,
            ParseCommandError::NoSubcommand => CommandError::NoSubcommand,
            ParseCommandError::UnknownCategory(s) => CommandError::UnknownCategory(s@),
            ParseCommandError::UnknownSubcommand(s) => CommandError::UnknownSubcommand(s@),
            ParseCommandError::InvalidArgument(s) => CommandError::InvalidArgument(s@),
            ParseCommandError::DuplicateArgument(s) => CommandError::DuplicateArgument(s@),
            ParseCommandError::UnexpectedArgument(s) => CommandError::UnexpectedArgument(s@),
            ParseCommandError::MissingArgument(s) => CommandError::MissingArgument(s@),
        }
    }
}

// ---------------------------------------------------------------------------
// Words and pairs

/// The words of `s`: the non-empty pieces between spaces, in order.
pub open spec fn words(s: Seq<char>) -> Seq<Seq<char>>
    decreases s.len(),
{
    if s.len() == 0 {
        Seq::empty()
    } else if s[0] == ' ' {
        words(s.drop_first())
    } else {
        let k = match find_char(s, ' ') {
            Some(i) => i,
            None => s.len() as int,
        };
        proof {
            lemma_find_char_bounds(s, ' ');
        }
        seq![s.subrange(0, k)] + words(s.subrange(k, s.len() as int))
    }
}

/// The keys of a list of pairs.
pub open spec fn keys_of(ps: Seq<(Seq<char>, Seq<char>)>) -> Seq<Seq<char>> {
    ps.map_values(|p: (Seq<char>, Seq<char>)| p.0)
}

/// The `key=value` pairs of the words, in order; a word without `=` or a key
/// given twice is the error, the first one from the left.
pub open spec fn collect_pairs(ws: Seq<Seq<char>>) -> Result<Seq<(Seq<char>, Seq<char>)>, CommandError>
    decreases ws.len(),
{
    if ws.len() == 0 {
        Ok(Seq::empty())
    } else {
        match collect_pairs(ws.drop_last()) {
            Err(e) => Err(e),
            Ok(ps) => {
                let w = ws.last();
                match find_char(w, '=') {
                    None => Err(CommandError::InvalidArgument(w)),
                    Some(i) => {
                        let key = w.subrange(0, i);
                        if keys_of(ps).contains(key) {
                            Err(CommandError::DuplicateArgument(key))
                        } else {
                            Ok(ps.push((key, w.subrange(i + 1, w.len() as int))))
                        }
                    },
                }
            },
        }
    }
}

/// The first name of `required` that is not among `keys`.
pub open spec fn first_missing(required: Seq<Seq<char>>, keys: Seq<Seq<char>>) -> Option<Seq<char>>
    decreases required.len(),
{
    if required.len() == 0 {
        None
    } else if !keys.contains(required[0]) {
        Some(required[0])
    } else {
        first_missing(required.drop_first(), keys)
    }
}

/// The first of `keys` that is neither required nor optional.
pub open spec fn first_unexpected(
    keys: Seq<Seq<char>>,
    required: Seq<Seq<char>>,
    optional: Seq<Seq<char>>,
) -> Option<Seq<char>>
    decreases keys.len(),
{
    if keys.len() == 0 {
        None
    } else if !required.contains(keys[0]) && !optional.contains(keys[0]) {
        Some(keys[0])
    } else {
        first_unexpected(keys.drop_first(), required, optional)
    }
}

/// The arguments in `s` (see [`collect_pairs`]) once surrounding white space
/// is cut off; then the first missing required name, then the first name that
/// is neither required nor optional, is the error.
pub open spec fn spec_parse_arguments(
    required: Seq<Seq<char>>,
    optional: Seq<Seq<char>>,
    s: Seq<char>,
) -> Result<Seq<(Seq<char>, Seq<char>)>, CommandError> {
    match collect_pairs(words(trim(s))) {
        Err(e) => Err(e),
        Ok(ps) => match first_missing(required, keys_of(ps)) {
            Some(name) => Err(CommandError::MissingArgument(name)),
            None => match first_unexpected(keys_of(ps), required, optional) {
                Some(key) => Err(CommandError::UnexpectedArgument(key)),
                None => Ok(ps),
            },
        },
    }
}

/// The texts of a list of names.
pub open spec fn names_view(names: Seq<&str>) -> Seq<Seq<char>> {
    names.map_values(|n: &str| n@)
}

/// `s` without surrounding white space.
pub fn trim_chars(s: &[char]) -> (r: Vec<char>)
    ensures
        r@ == trim(s@),
{
    let n = s.len();
    let mut start: usize = 0;
    assert(s@.subrange(0, n as int) =~= s@);
    while start < n && char_is_whitespace(s[start])
        invariant
            start <= n == s@.len(),
            leading_whitespace(s@) == start + leading_whitespace(s@.subrange(start as int, n as int)),
        decreases n - start,
    {
        assert(s@.subrange(start as int, n as int).drop_first() =~= s@.subrange(start + 1, n as int));
        start += 1;
    }
    proof {
        assert(s@.subrange(0, n as int) =~= s@);
        let rest0 = s@.subrange(start as int, n as int);
        if start < n {
            assert(rest0[0] == s@[start as int]);
        }
    }
    let mut end: usize = n;
    let ghost rest = s@.subrange(start as int, n as int);
    while end > start && char_is_whitespace(s[end - 1])
        invariant
            start <= end <= n == s@.len(),
            rest == s@.subrange(start as int, n as int),
            trailing_whitespace(rest) == (n - end) + trailing_whitespace(s@.subrange(start as int, end as int)),
        decreases end - start,
    {
        assert(s@.subrange(start as int, end as int).drop_last() =~= s@.subrange(start as int, end - 1));
        end -= 1;
    }
    proof {
        assert(s@.subrange(start as int, n as int) =~= rest);
        let t = s@.subrange(start as int, end as int);
        if end > start {
            assert(t.last() == s@[end - 1]);
        }
        assert(rest.subrange(0, rest.len() - trailing_whitespace(rest)) =~= t);
    }
    let mut r: Vec<char> = Vec::new();
    let mut i: usize = start;
    while i < end
        invariant
            start <= i <= end <= n == s@.len(),
            r@ == s@.subrange(start as int, i as int),
        decreases end - i,
    {
        r.push(s[i]);
        i += 1;
        assert(s@.subrange(start as int, i as int) =~= s@.subrange(start as int, i - 1).push(s@[i - 1]));
    }
    r
}

/// The `key=value` pairs of an argument list, keys distinct.
#[derive(Debug)]
pub struct Arguments {
    values: Vec<(String, String)>,
}

/// A value that an argument's text can be read as.
pub trait ArgumentValue: Sized {
    /// Whether the text denotes a value.
    spec fn spec_readable(s: Seq<char>) -> bool;

    /// Whether `v` is the value the text denotes.
    spec fn spec_reads_as(s: Seq<char>, v: Self) -> bool;

    /// The value the text denotes, if any.
    fn from_argument(s: &str) -> (r: Option<Self>)
        ensures
            r is Some <==> Self::spec_readable(s@),
            r matches Some(v) ==> Self::spec_reads_as(s@, v),
    ;
}

/// Value of a sequence of decimal digits.
pub open spec fn digits_value(s: Seq<char>) -> int
    decreases s.len(),
{
    if s.len() == 0 {
        0
    } else {
        digits_value(s.drop_last()) * 10 + ((s.last() as u32) - 48)
    }
}

/// Whether every character is a decimal digit.
pub open spec fn all_digits(s: Seq<char>) -> bool {
    forall|i: int| 0 <= i < s.len() ==> '0' <= #[trigger] s[i] && s[i] <= '9'
}

/// Whether the text starts with a `-` that counts as a sign: only where
/// negative values are read.
pub open spec fn negative_sign(s: Seq<char>, signed: bool) -> bool {
    signed && s.len() > 0 && s[0] == '-'
}

/// The digits of an integer's text, after its sign if it has one.
pub open spec fn integer_digits(s: Seq<char>, signed: bool) -> Seq<char> {
    if s.len() > 0 && (s[0] == '+' || negative_sign(s, signed)) {
        s.drop_first()
    } else {
        s
    }
}

/// The integer that the text denotes, as the integer types' `from_str`
/// reads it: an optional `+` (or `-`, where `signed`), then one or more
/// decimal digits, with the value in `min..=max`.
pub open spec fn integer_text_value(s: Seq<char>, signed: bool, min: int, max: int) -> Option<int> {
    let d = integer_digits(s, signed);
    if d.len() > 0 && all_digits(d) {
        let v = if negative_sign(s, signed) {
            -digits_value(d)
        } else {
            digits_value(d)
        };
        if min <= v && v <= max {
            Some(v)
        } else {
            None
        }
    } else {
        None
    }
}

/// The `usize` that the text denotes, if any.
pub open spec fn usize_from_text(s: Seq<char>) -> Option<usize> {
    match integer_text_value(s, false, 0, usize::MAX as int) {
        Some(v) => Some(v as usize),
        None => None,
    }
}

/// Reads an integer's text (see [`integer_text_value`]) as its sign and its
/// magnitude; the magnitude may be at most `neg_bound` after a `-` and at
/// most `pos_bound` otherwise.
fn read_integer(s: &str, signed: bool, pos_bound: u128, neg_bound: u128) -> (r: Option<(bool, u128)>)
    ensures
        match r {
            Some((neg, m)) => {
                &&& neg == negative_sign(s@, signed)
                &&& (if neg {
                    m <= neg_bound
                } else {
                    m <= pos_bound
                })
                &&& integer_text_value(s@, signed, -neg_bound, pos_bound as int) == Some(
                    if neg {
                        -m
                    } else {
                        m as int
                    },
                )
            },
            None => integer_text_value(s@, signed, -neg_bound, pos_bound as int) is None,
        },
{
    let t = chars_of(s);
    let neg = signed && t.len() > 0 && t[0] == '-';
    let mut i: usize = 0;
    if t.len() > 0 && (t[0] == '+' || neg) {
        i = 1;
    }
    let bound = if neg {
        neg_bound
    } else {
        pos_bound
    };
    let ghost digits = t@.subrange(i as int, t@.len() as int);
    proof {
        assert(t@ == s@);
        if i == 1 {
            assert(digits =~= t@.drop_first());
        } else {
            assert(digits =~= t@);
        }
        assert(digits == integer_digits(s@, signed));
    }
    if i >= t.len() {
        return None;
    }
    let start = i;
    let mut value: u128 = 0;
    while i < t.len()
        invariant
            start <= i <= t@.len(),
            start < t@.len(),
            digits == t@.subrange(start as int, t@.len() as int),
            all_digits(t@.subrange(start as int, i as int)),
            value == digits_value(t@.subrange(start as int, i as int)),
            value <= bound,
            t@ == s@,
            digits == integer_digits(s@, signed),
            neg == negative_sign(s@, signed),
            bound == (if neg {
                neg_bound
            } else {
                pos_bound
            }),
        decreases t.len() - i,
    {
        let c = t[i];
        proof {
            assert(t@.subrange(start as int, i + 1).drop_last() =~= t@.subrange(start as int, i as int));
        }
        if c < '0' || c > '9' {
            proof {
                assert(digits[i - start] == c);
                assert(!all_digits(digits));
            }
            return None;
        }
        let d = (c as u32 - 48) as u128;
        if d > bound || value > (bound - d) / 10 {
            proof {
                assert(digits_value(t@.subrange(start as int, i + 1)) == value * 10 + d);
                if d <= bound {
                    assert(value * 10 + d > bound) by (nonlinear_arith)
                        requires
                            value > (bound - d) / 10,
                            d <= bound,
                    ;
                }
                if all_digits(digits) {
                    lemma_digits_value_grows(digits, i + 1 - start);
                    assert(digits.subrange(0, i + 1 - start) =~= t@.subrange(start as int, i + 1));
                }
            }
            return None;
        }
        proof {
            assert(value * 10 + d <= bound) by (nonlinear_arith)
                requires
                    value <= (bound - d) / 10,
                    d <= bound,
            ;
        }
        value = value * 10 + d;
        i += 1;
    }
    assert(t@.subrange(start as int, t@.len() as int) =~= digits);
    Some((neg, value))
}

impl ArgumentValue for String {
    /// Any text.
    open spec fn spec_readable(s: Seq<char>) -> bool {
        true
    }

    /// The text itself.
    open spec fn spec_reads_as(s: Seq<char>, v: String) -> bool {
        v@ == s
    }

    fn from_argument(s: &str) -> (r: Option<String>) {
        Some(s.to_owned())
    }
}

impl ArgumentValue for u8 {
    /// Decimal digits after an optional `+`, with the value in range.
    open spec fn spec_readable(s: Seq<char>) -> bool {
        integer_text_value(s, false, 0, u8::MAX as int) is Some
    }

    /// The value of the digits.
    open spec fn spec_reads_as(s: Seq<char>, v: u8) -> bool {
        integer_text_value(s, false, 0, u8::MAX as int) == Some(v as int)
    }

    fn from_argument(s: &str) -> (r: Option<u8>) {
        match read_integer(s, false, u8::MAX as u128, 0) {
            Some((_, m)) => Some(m as u8),
            None => None,
        }
    }
}

impl ArgumentValue for u16 {
    /// Decimal digits after an optional `+`, with the value in range.
    open spec fn spec_readable(s: Seq<char>) -> bool {
        integer_text_value(s, false, 0, u16::MAX as int) is Some
    }

    /// The value of the digits.
    open spec fn spec_reads_as(s: Seq<char>, v: u16) -> bool {
        integer_text_value(s, false, 0, u16::MAX as int) == Some(v as int)
    }

    fn from_argument(s: &str) -> (r: Option<u16>) {
        match read_integer(s, false, u16::MAX as u128, 0) {
            Some((_, m)) => Some(m as u16),
            None => None,
        }
    }
}

impl ArgumentValue for u32 {
    /// Decimal digits after an optional `+`, with the value in range.
    open spec fn spec_readable(s: Seq<char>) -> bool {
        integer_text_value(s, false, 0, u32::MAX as int) is Some
    }

    /// The value of the digits.
    open spec fn spec_reads_as(s: Seq<char>, v: u32) -> bool {
        integer_text_value(s, false, 0, u32::MAX as int) == Some(v as int)
    }

    fn from_argument(s: &str) -> (r: Option<u32>) {
        match read_integer(s, false, u32::MAX as u128, 0) {
            Some((_, m)) => Some(m as u32),
            None => None,
        }
    }
}

impl ArgumentValue for u64 {
    /// Decimal digits after an optional `+`, with the value in range.
    open spec fn spec_readable(s: Seq<char>) -> bool {
        integer_text_value(s, false, 0, u64::MAX as int) is Some
    }

    /// The value of the digits.
    open spec fn spec_reads_as(s: Seq<char>, v: u64) -> bool {
        integer_text_value(s, false, 0, u64::MAX as int) == Some(v as int)
    }

    fn from_argument(s: &str) -> (r: Option<u64>) {
        match read_integer(s, false, u64::MAX as u128, 0) {
            Some((_, m)) => Some(m as u64),
            None => None,
        }
    }
}

impl ArgumentValue for u128 {
    /// Decimal digits after an optional `+`, with the value in range.
    open spec fn spec_readable(s: Seq<char>) -> bool {
        integer_text_value(s, false, 0, u128::MAX as int) is Some
    }

    /// The value of the digits.
    open spec fn spec_reads_as(s: Seq<char>, v: u128) -> bool {
        integer_text_value(s, false, 0, u128::MAX as int) == Some(v as int)
    }

    fn from_argument(s: &str) -> (r: Option<u128>) {
        match read_integer(s, false, u128::MAX as u128, 0) {
            Some((_, m)) => Some(m as u128),
            None => None,
        }
    }
}

impl ArgumentValue for usize {
    /// Decimal digits after an optional `+`, with the value in range.
    open spec fn spec_readable(s: Seq<char>) -> bool {
        integer_text_value(s, false, 0, usize::MAX as int) is Some
    }

    /// The value of the digits.
    open spec fn spec_reads_as(s: Seq<char>, v: usize) -> bool {
        integer_text_value(s, false, 0, usize::MAX as int) == Some(v as int)
    }

    fn from_argument(s: &str) -> (r: Option<usize>) {
        match read_integer(s, false, usize::MAX as u128, 0) {
            Some((_, m)) => Some(m as usize),
            None => None,
        }
    }
}

impl ArgumentValue for i8 {
    /// Decimal digits after an optional `+` or `-`, with the value in range.
    open spec fn spec_readable(s: Seq<char>) -> bool {
        integer_text_value(s, true, i8::MIN as int, i8::MAX as int) is Some
    }

    /// The value of the digits.
    open spec fn spec_reads_as(s: Seq<char>, v: i8) -> bool {
        integer_text_value(s, true, i8::MIN as int, i8::MAX as int) == Some(v as int)
    }

    fn from_argument(s: &str) -> (r: Option<i8>) {
        match read_integer(s, true, i8::MAX as u128, (i8::MAX as u128) + 1) {
            Some((neg, m)) => if neg {
                if m == (i8::MAX as u128) + 1 {
                    Some(i8::MIN)
                } else {
                    Some(-(m as i8))
                }
            } else {
                Some(m as i8)
            },
            None => None,
        }
    }
}

impl ArgumentValue for i16 {
    /// Decimal digits after an optional `+` or `-`, with the value in range.
    open spec fn spec_readable(s: Seq<char>) -> bool {
        integer_text_value(s, true, i16::MIN as int, i16::MAX as int) is Some
    }

    /// The value of the digits.
    open spec fn spec_reads_as(s: Seq<char>, v: i16) -> bool {
        integer_text_value(s, true, i16::MIN as int, i16::MAX as int) == Some(v as int)
    }

    fn from_argument(s: &str) -> (r: Option<i16>) {
        match read_integer(s, true, i16::MAX as u128, (i16::MAX as u128) + 1) {
            Some((neg, m)) => if neg {
                if m == (i16::MAX as u128) + 1 {
                    Some(i16::MIN)
                } else {
                    Some(-(m as i16))
                }
            } else {
                Some(m as i16)
            },
            None => None,
        }
    }
}

impl ArgumentValue for i32 {
    /// Decimal digits after an optional `+` or `-`, with the value in range.
    open spec fn spec_readable(s: Seq<char>) -> bool {
        integer_text_value(s, true, i32::MIN as int, i32::MAX as int) is Some
    }

    /// The value of the digits.
    open spec fn spec_reads_as(s: Seq<char>, v: i32) -> bool {
        integer_text_value(s, true, i32::MIN as int, i32::MAX as int) == Some(v as int)
    }

    fn from_argument(s: &str) -> (r: Option<i32>) {
        match read_integer(s, true, i32::MAX as u128, (i32::MAX as u128) + 1) {
            Some((neg, m)) => if neg {
                if m == (i32::MAX as u128) + 1 {
                    Some(i32::MIN)
                } else {
                    Some(-(m as i32))
                }
            } else {
                Some(m as i32)
            },
            None => None,
        }
    }
}

impl ArgumentValue for i64 {
    /// Decimal digits after an optional `+` or `-`, with the value in range.
    open spec fn spec_readable(s: Seq<char>) -> bool {
        integer_text_value(s, true, i64::MIN as int, i64::MAX as int) is Some
    }

    /// The value of the digits.
    open spec fn spec_reads_as(s: Seq<char>, v: i64) -> bool {
        integer_text_value(s, true, i64::MIN as int, i64::MAX as int) == Some(v as int)
    }

    fn from_argument(s: &str) -> (r: Option<i64>) {
        match read_integer(s, true, i64::MAX as u128, (i64::MAX as u128) + 1) {
            Some((neg, m)) => if neg {
                if m == (i64::MAX as u128) + 1 {
                    Some(i64::MIN)
                } else {
                    Some(-(m as i64))
                }
            } else {
                Some(m as i64)
            },
            None => None,
        }
    }
}

impl ArgumentValue for i128 {
    /// Decimal digits after an optional `+` or `-`, with the value in range.
    open spec fn spec_readable(s: Seq<char>) -> bool {
        integer_text_value(s, true, i128::MIN as int, i128::MAX as int) is Some
    }

    /// The value of the digits.
    open spec fn spec_reads_as(s: Seq<char>, v: i128) -> bool {
        integer_text_value(s, true, i128::MIN as int, i128::MAX as int) == Some(v as int)
    }

    fn from_argument(s: &str) -> (r: Option<i128>) {
        match read_integer(s, true, i128::MAX as u128, (i128::MAX as u128) + 1) {
            Some((neg, m)) => if neg {
                if m == (i128::MAX as u128) + 1 {
                    Some(i128::MIN)
                } else {
                    Some(-(m as i128))
                }
            } else {
                Some(m as i128)
            },
            None => None,
        }
    }
}

impl ArgumentValue for isize {
    /// Decimal digits after an optional `+` or `-`, with the value in range.
    open spec fn spec_readable(s: Seq<char>) -> bool {
        integer_text_value(s, true, isize::MIN as int, isize::MAX as int) is Some
    }

    /// The value of the digits.
    open spec fn spec_reads_as(s: Seq<char>, v: isize) -> bool {
        integer_text_value(s, true, isize::MIN as int, isize::MAX as int) == Some(v as int)
    }

    fn from_argument(s: &str) -> (r: Option<isize>) {
        match read_integer(s, true, isize::MAX as u128, (isize::MAX as u128) + 1) {
            Some((neg, m)) => if neg {
                if m == (isize::MAX as u128) + 1 {
                    Some(isize::MIN)
                } else {
                    Some(-(m as isize))
                }
            } else {
                Some(m as isize)
            },
            None => None,
        }
    }
}

/// A digit sequence's value is at least that of any of its prefixes.
proof fn lemma_digits_value_grows(s: Seq<char>, k: int)
    requires
        0 <= k <= s.len(),
        all_digits(s),
    ensures
        digits_value(s.subrange(0, k)) <= digits_value(s),
    decreases s.len() - k,
{
    if k < s.len() {
        lemma_digits_value_grows(s, k + 1);
        assert(s.subrange(0, k + 1).drop_last() =~= s.subrange(0, k));
        assert(s.subrange(0, k + 1).last() == s[k]);
        assert(digits_value(s.subrange(0, k)) >= 0) by {
            lemma_digits_value_nonneg(s.subrange(0, k));
        }
    } else {
        assert(s.subrange(0, k) =~= s);
    }
}

proof fn lemma_digits_value_nonneg(s: Seq<char>)
    requires
        all_digits(s),
    ensures
        digits_value(s) >= 0,
    decreases s.len(),
{
    if s.len() > 0 {
        assert(all_digits(s.drop_last())) by {
            assert forall|i: int| 0 <= i < s.drop_last().len() implies '0' <= #[trigger] s.drop_last()[i]
                && s.drop_last()[i] <= '9' by {
                assert(s.drop_last()[i] == s[i]);
            }
        }
        lemma_digits_value_nonneg(s.drop_last());
        assert('0' <= s.last());
    }
}

// ---------------------------------------------------------------------------
// Argument lists

/// Errors stay errors when more words follow.
proof fn lemma_collect_pairs_error(a: Seq<Seq<char>>, b: Seq<Seq<char>>)
    requires
        collect_pairs(a) is Err,
    ensures
        collect_pairs(a + b) == collect_pairs(a),
    decreases b.len(),
{
    if b.len() == 0 {
        assert(a + b =~= a);
    } else {
        lemma_collect_pairs_error(a, b.drop_last());
        assert((a + b).drop_last() =~= a + b.drop_last());
    }
}

/// The words of `t[i..]` when `t[i]` starts a word ending at `k`.
proof fn lemma_words_step(t: Seq<char>, i: int, k: int)
    requires
        0 <= i < k <= t.len(),
        t[i] != ' ',
        forall|j: int| i <= j < k ==> t[j] != ' ',
        k == t.len() || t[k] == ' ',
    ensures
        words(t.subrange(i, t.len() as int)) == seq![t.subrange(i, k)] + words(
            t.subrange(k, t.len() as int),
        ),
{
    let rest = t.subrange(i, t.len() as int);
    if k < t.len() {
        lemma_find_char_some(rest, ' ', k - i);
    } else {
        lemma_find_char_none(rest, ' ');
    }
    assert(rest.subrange(0, k - i) =~= t.subrange(i, k));
    assert(rest.subrange(k - i, rest.len() as int) =~= t.subrange(k, t.len() as int));
}

/// The texts of a list of character vectors.
pub open spec fn chars_view(v: Seq<Vec<char>>) -> Seq<Seq<char>> {
    v.map_values(|c: Vec<char>| c@)
}

/// Whether `x` is among `names`.
fn contains_name(names: &Vec<Vec<char>>, x: &[char]) -> (r: bool)
    ensures
        r == chars_view(names@).contains(x@),
{
    let mut i: usize = 0;
    while i < names.len()
        invariant
            i <= names@.len(),
            forall|j: int| 0 <= j < i ==> names@[j]@ != x@,
        decreases names.len() - i,
    {
        if chars_eq(names[i].as_slice(), x) {
            assert(chars_view(names@)[i as int] == x@);
            return true;
        }
        i += 1;
    }
    proof {
        if chars_view(names@).contains(x@) {
            let j = choose|j: int| 0 <= j < chars_view(names@).len() && chars_view(names@)[j] == x@;
            assert(names@[j]@ == x@);
        }
    }
    false
}

/// The characters of each name.
fn names_chars(names: &[&str]) -> (r: Vec<Vec<char>>)
    ensures
        chars_view(r@) == names_view(names@),
{
    let mut r: Vec<Vec<char>> = Vec::new();
    let mut i: usize = 0;
    while i < names.len()
        invariant
            i <= names@.len(),
            chars_view(r@) == names_view(names@.subrange(0, i as int)),
        decreases names.len() - i,
    {
        let ghost before = r@;
        r.push(chars_of(names[i]));
        proof {
            assert(chars_view(r@) =~= chars_view(before).push(names@[i as int]@));
            assert(names_view(names@.subrange(0, i + 1)) =~= names_view(
                names@.subrange(0, i as int),
            ).push(names@[i as int]@));
        }
        i += 1;
    }
    assert(names@.subrange(0, names@.len() as int) =~= names@);
    r
}

/// The names an argument list must and may hold.
#[derive(Debug, Clone)]
pub struct ArgumentParser {
    required: &'static [&'static str],
    optional: &'static [&'static str],
}

impl Arguments {
    /// The pairs, in the order of the argument list.
    pub closed spec fn pairs(&self) -> Seq<(Seq<char>, Seq<char>)> {
        self.values@.map_values(|p: (String, String)| (p.0@, p.1@))
    }

    /// No key occurs twice.
    #[verifier::type_invariant]
    spec fn keys_distinct(&self) -> bool {
        keys_of(self.pairs()).no_duplicates()
    }
}

impl Clone for Arguments {
    /// The same pairs, in the same order.
    fn clone(&self) -> (r: Arguments)
        ensures
            r.pairs() == self.pairs(),
    {
        proof {
            use_type_invariant(self);
        }
        let mut values: Vec<(String, String)> = Vec::new();
        let mut i: usize = 0;
        while i < self.values.len()
            invariant
                i <= self.values@.len(),
                values@.map_values(|p: (String, String)| (p.0@, p.1@)) == self.pairs().subrange(
                    0,
                    i as int,
                ),
            decreases self.values.len() - i,
        {
            let ghost before = values@;
            let pair = (self.values[i].0.clone(), self.values[i].1.clone());
            values.push(pair);
            proof {
                assert(values@.map_values(|p: (String, String)| (p.0@, p.1@)) =~= before.map_values(
                    |p: (String, String)| (p.0@, p.1@),
                ).push((pair.0@, pair.1@)));
                assert(self.pairs().subrange(0, i + 1) =~= self.pairs().subrange(0, i as int).push(
                    self.pairs()[i as int],
                ));
            }
            i += 1;
        }
        assert(self.pairs().subrange(0, self.values@.len() as int) =~= self.pairs());
        Arguments { values }
    }
}

/// The value of the first pair with `key`.
pub open spec fn lookup(ps: Seq<(Seq<char>, Seq<char>)>, key: Seq<char>) -> Option<Seq<char>>
    decreases ps.len(),
{
    if ps.len() == 0 {
        None
    } else if ps[0].0 == key {
        Some(ps[0].1)
    } else {
        lookup(ps.drop_first(), key)
    }
}

impl Arguments {
    /// The value of the argument `name`, read as a `T`: missing if there is
    /// no such argument, invalid if its text is not a `T`.
    pub fn get<T: ArgumentValue>(&self, name: &str) -> (r: Result<T, ParseCommandError>)
        ensures
            match lookup(self.pairs(), name@) {
                None => r matches Err(e) && e@ == CommandError::MissingArgument(name@),
                Some(v) => if T::spec_readable(v) {
                    r matches Ok(x) && T::spec_reads_as(v, x)
                } else {
                    r matches Err(e) && e@ == CommandError::InvalidArgument(name@)
                },
            },
    {
        let key = name.to_owned();
        let mut i: usize = 0;
        assert(self.pairs().subrange(0, self.pairs().len() as int) =~= self.pairs());
        while i < self.values.len()
            invariant
                i <= self.values@.len(),
                key@ == name@,
                lookup(self.pairs(), name@) == lookup(self.pairs().subrange(i as int, self.pairs().len() as int), name@),
            decreases self.values.len() - i,
        {
            let ghost rest = self.pairs().subrange(i as int, self.pairs().len() as int);
            assert(rest[0] == (self.values@[i as int].0@, self.values@[i as int].1@));
            if self.values[i].0 == key {
                return match T::from_argument(self.values[i].1.as_str()) {
                    Some(x) => Ok(x),
                    None => Err(ParseCommandError::InvalidArgument(name.to_owned())),
                };
            }
            assert(rest.drop_first() =~= self.pairs().subrange(i + 1, self.pairs().len() as int));
            i += 1;
        }
        Err(ParseCommandError::MissingArgument(name.to_owned()))
    }
}

impl ArgumentParser {
    /// The names that must be given.
    pub closed spec fn required_names(&self) -> Seq<Seq<char>> {
        names_view(self.required@)
    }

    /// The names that may be given besides the required ones.
    pub closed spec fn optional_names(&self) -> Seq<Seq<char>> {
        names_view(self.optional@)
    }

    /// A parser that requires and allows no name.
    pub fn new() -> (r: ArgumentParser)
        ensures
            r.required_names() == Seq::<Seq<char>>::empty(),
            r.optional_names() == Seq::<Seq<char>>::empty(),
    {
        let none: &'static [&'static str] = &[];
        let r = ArgumentParser { required: none, optional: none };
        assert(r.required_names() =~= Seq::<Seq<char>>::empty());
        r
    }

    /// The same parser with `values` as the required names.
    pub fn required(self, values: &'static [&'static str]) -> (r: ArgumentParser)
        ensures
            r.required_names() == names_view(values@),
            r.optional_names() == self.optional_names(),
    {
        ArgumentParser { required: values, optional: self.optional }
    }

    /// The same parser with `values` as the optional names.
    pub fn optional(self, values: &'static [&'static str]) -> (r: ArgumentParser)
        ensures
            r.optional_names() == names_view(values@),
            r.required_names() == self.required_names(),
    {
        ArgumentParser { required: self.required, optional: values }
    }

    /// Reads the `key=value` arguments of `string` (see [`spec_parse_arguments`]).
    pub fn parse(self, string: &str) -> (r: Result<Arguments, ParseCommandError>)
        ensures
            match r {
                Ok(args) => spec_parse_arguments(
                    self.required_names(),
                    self.optional_names(),
                    string@,
                ) == Ok::<Seq<(Seq<char>, Seq<char>)>, CommandError>(args.pairs()),
                Err(e) => spec_parse_arguments(
                    self.required_names(),
                    self.optional_names(),
                    string@,
                ) == Err::<Seq<(Seq<char>, Seq<char>)>, CommandError>(e@),
            },
    {
        let all = chars_of(string);
        let t = trim_chars(all.as_slice());
        let n = t.len();
        let ghost tt = t@;
        assert(tt == trim(string@));
        let mut values: Vec<(String, String)> = Vec::new();
        let mut keys: Vec<Vec<char>> = Vec::new();
        let ghost mut done: Seq<Seq<char>> = Seq::empty();
        let mut i: usize = 0;
        assert(tt.subrange(0, n as int) =~= tt);
        assert(values@.map_values(|p: (String, String)| (p.0@, p.1@)) =~= Seq::<
            (Seq<char>, Seq<char>),
        >::empty());
        assert(chars_view(keys@) =~= Seq::<Seq<char>>::empty());
        while i < n
            invariant
                i <= n == tt.len(),
                t@ == tt,
                tt == trim(string@),
                words(tt) == done + words(tt.subrange(i as int, n as int)),
                collect_pairs(done) == Ok::<Seq<(Seq<char>, Seq<char>)>, CommandError>(
                    values@.map_values(|p: (String, String)| (p.0@, p.1@)),
                ),
                chars_view(keys@) == keys_of(values@.map_values(|p: (String, String)| (p.0@, p.1@))),
            decreases n - i,
        {
            if t[i] == ' ' {
                assert(tt.subrange(i as int, n as int).drop_first() =~= tt.subrange(i + 1, n as int));
                i += 1;
            } else {
                let mut k: usize = i;
                while k < n && t[k] != ' '
                    invariant
                        i <= k <= n == t@.len(),
                        forall|j: int| i <= j < k ==> t@[j] != ' ',
                    decreases n - k,
                {
                    k += 1;
                }
                proof {
                    lemma_words_step(tt, i as int, k as int);
                }
                let ghost w = tt.subrange(i as int, k as int);
                let ghost ps = values@.map_values(|p: (String, String)| (p.0@, p.1@));
                proof {
                    assert(done.push(w).drop_last() =~= done);
                    assert(words(tt) =~= done.push(w) + words(tt.subrange(k as int, n as int)));
                }
                let mut eq: usize = i;
                while eq < k && t[eq] != '='
                    invariant
                        i <= eq <= k <= n == t@.len(),
                        forall|j: int| i <= j < eq ==> t@[j] != '=',
                    decreases k - eq,
                {
                    eq += 1;
                }
                if eq == k {
                    let text = string_from_chars(&t[i..k]);
                    proof {
                        lemma_find_char_none(w, '=');
                        assert(collect_pairs(done.push(w)) == Err::<Seq<(Seq<char>, Seq<char>)>, CommandError>(CommandError::InvalidArgument(w)));
                        lemma_collect_pairs_error(done.push(w), words(tt.subrange(k as int, n as int)));
                        assert(collect_pairs(words(tt)) == Err::<Seq<(Seq<char>, Seq<char>)>, CommandError>(CommandError::InvalidArgument(w)));
                        assert(text@ == w);
                    }
                    return Err(ParseCommandError::InvalidArgument(text));
                }
                proof {
                    lemma_find_char_some(w, '=', eq - i);
                    assert(w.subrange(0, eq - i) =~= tt.subrange(i as int, eq as int));
                    assert(w.subrange(eq - i + 1, w.len() as int) =~= tt.subrange(eq + 1, k as int));
                }
                let key = &t[i..eq];
                if contains_name(&keys, key) {
                    proof {
                        lemma_collect_pairs_error(done.push(w), words(tt.subrange(k as int, n as int)));
                    }
                    return Err(ParseCommandError::DuplicateArgument(string_from_chars(key)));
                }
                let key_vec = vstd::slice::slice_to_vec(key);
                let pair = (string_from_chars(key), string_from_chars(&t[eq + 1..k]));
                let ghost before_values = values@;
                let ghost before_keys = keys@;
                values.push(pair);
                keys.push(key_vec);
                proof {
                    assert(values@.map_values(|p: (String, String)| (p.0@, p.1@)) =~= before_values.map_values(
                        |p: (String, String)| (p.0@, p.1@),
                    ).push((pair.0@, pair.1@)));
                    assert(chars_view(keys@) =~= chars_view(before_keys).push(key_vec@));
                    assert(keys_of(values@.map_values(|p: (String, String)| (p.0@, p.1@))) =~= keys_of(
                        ps,
                    ).push(pair.0@));
                    done = done.push(w);
                }
                i = k;
            }
        }
        let ghost ps = values@.map_values(|p: (String, String)| (p.0@, p.1@));
        proof {
            assert(tt.subrange(n as int, n as int) =~= Seq::<char>::empty());
            assert(done + Seq::<Seq<char>>::empty() =~= done);
            assert(collect_pairs(words(trim(string@))) == Ok::<Seq<(Seq<char>, Seq<char>)>, CommandError>(ps));
        }
        let required = names_chars(self.required);
        let mut j: usize = 0;
        assert(chars_view(required@).subrange(0, required@.len() as int) =~= chars_view(required@));
        while j < required.len()
            invariant
                j <= required@.len(),
                first_missing(self.required_names(), keys_of(ps)) == first_missing(
                    chars_view(required@).subrange(j as int, required@.len() as int),
                    keys_of(ps),
                ),
                chars_view(required@) == self.required_names(),
                chars_view(keys@) == keys_of(ps),
                collect_pairs(words(trim(string@))) == Ok::<Seq<(Seq<char>, Seq<char>)>, CommandError>(ps),
                ps == values@.map_values(|p: (String, String)| (p.0@, p.1@)),
            decreases required.len() - j,
        {
            let ghost rest = chars_view(required@).subrange(j as int, required@.len() as int);
            assert(rest[0] == required@[j as int]@);
            if !contains_name(&keys, required[j].as_slice()) {
                return Err(ParseCommandError::MissingArgument(string_from_chars(required[j].as_slice())));
            }
            assert(rest.drop_first() =~= chars_view(required@).subrange(j + 1, required@.len() as int));
            j += 1;
        }
        assert(chars_view(required@).subrange(required@.len() as int, required@.len() as int)
            =~= Seq::<Seq<char>>::empty());
        let optional = names_chars(self.optional);
        let mut m: usize = 0;
        assert(keys_of(ps).subrange(0, keys@.len() as int) =~= keys_of(ps));
        while m < keys.len()
            invariant
                m <= keys@.len(),
                chars_view(keys@) == keys_of(ps),
                chars_view(required@) == self.required_names(),
                chars_view(optional@) == self.optional_names(),
                collect_pairs(words(trim(string@))) == Ok::<Seq<(Seq<char>, Seq<char>)>, CommandError>(ps),
                ps == values@.map_values(|p: (String, String)| (p.0@, p.1@)),
                first_missing(self.required_names(), keys_of(ps)) is None,
                first_unexpected(keys_of(ps), self.required_names(), self.optional_names())
                    == first_unexpected(
                    keys_of(ps).subrange(m as int, keys@.len() as int),
                    self.required_names(),
                    self.optional_names(),
                ),
            decreases keys.len() - m,
        {
            let ghost rest = keys_of(ps).subrange(m as int, keys@.len() as int);
            assert(rest[0] == keys@[m as int]@);
            if !contains_name(&required, keys[m].as_slice()) && !contains_name(
                &optional,
                keys[m].as_slice(),
            ) {
                return Err(ParseCommandError::UnexpectedArgument(string_from_chars(keys[m].as_slice())));
            }
            assert(rest.drop_first() =~= keys_of(ps).subrange(m + 1, keys@.len() as int));
            m += 1;
        }
        assert(keys_of(ps).subrange(keys@.len() as int, keys@.len() as int) =~= Seq::<Seq<char>>::empty());
        proof {
            lemma_collect_pairs_distinct(words(trim(string@)));
        }
        Ok(Arguments { values })
    }
}


// ---------------------------------------------------------------------------
// What a parsed argument list holds

proof fn lemma_first_missing_none(required: Seq<Seq<char>>, keys: Seq<Seq<char>>)
    requires
        first_missing(required, keys) is None,
    ensures
        forall|n: Seq<char>| required.contains(n) ==> keys.contains(n),
    decreases required.len(),
{
    if required.len() > 0 {
        lemma_first_missing_none(required.drop_first(), keys);
        assert forall|n: Seq<char>| required.contains(n) implies keys.contains(n) by {
            let i = choose|i: int| 0 <= i < required.len() && required[i] == n;
            if i > 0 {
                assert(required.drop_first()[i - 1] == n);
            }
        }
    }
}

proof fn lemma_first_unexpected_none(
    keys: Seq<Seq<char>>,
    required: Seq<Seq<char>>,
    optional: Seq<Seq<char>>,
)
    requires
        first_unexpected(keys, required, optional) is None,
    ensures
        forall|i: int|
            0 <= i < keys.len() ==> required.contains(#[trigger] keys[i]) || optional.contains(
                keys[i],
            ),
    decreases keys.len(),
{
    if keys.len() > 0 {
        lemma_first_unexpected_none(keys.drop_first(), required, optional);
        assert forall|i: int| 0 <= i < keys.len() implies required.contains(#[trigger] keys[i])
            || optional.contains(keys[i]) by {
            if i > 0 {
                assert(keys.drop_first()[i - 1] == keys[i]);
            }
        }
    }
}

proof fn lemma_collect_pairs_distinct(ws: Seq<Seq<char>>)
    requires
        collect_pairs(ws) is Ok,
    ensures
        keys_of(collect_pairs(ws)->Ok_0).no_duplicates(),
    decreases ws.len(),
{
    if ws.len() > 0 {
        lemma_collect_pairs_distinct(ws.drop_last());
        let ps = collect_pairs(ws.drop_last())->Ok_0;
        let w = ws.last();
        let i = find_char(w, '=')->0;
        let key = w.subrange(0, i);
        let qs = ps.push((key, w.subrange(i + 1, w.len() as int)));
        assert(keys_of(qs) =~= keys_of(ps).push(key));
        assert forall|a: int, b: int|
            0 <= a < keys_of(qs).len() && 0 <= b < keys_of(qs).len() && a != b implies keys_of(
            qs,
        )[a] != keys_of(qs)[b] by {
            if a < ps.len() && b < ps.len() {
            } else if a == ps.len() {
                assert(keys_of(ps)[b] == keys_of(qs)[b]);
            } else {
                assert(keys_of(ps)[a] == keys_of(qs)[a]);
            }
        }
    }
}

proof fn lemma_lookup_finds(ps: Seq<(Seq<char>, Seq<char>)>, key: Seq<char>)
    requires
        keys_of(ps).contains(key),
    ensures
        lookup(ps, key) is Some,
    decreases ps.len(),
{
    let i = choose|i: int| 0 <= i < keys_of(ps).len() && keys_of(ps)[i] == key;
    if ps[0].0 != key {
        assert(keys_of(ps.drop_first())[i - 1] == key);
        lemma_lookup_finds(ps.drop_first(), key);
    }
}

/// An argument list that parses holds every required name, holds no name
/// that is neither required nor optional, and holds each name once.
pub proof fn lemma_parsed_arguments(required: Seq<Seq<char>>, optional: Seq<Seq<char>>, s: Seq<char>)
    requires
        spec_parse_arguments(required, optional, s) is Ok,
    ensures
        forall|n: Seq<char>|
            required.contains(n) ==> lookup(spec_parse_arguments(required, optional, s)->Ok_0, n) is Some,
        forall|i: int|
            0 <= i < spec_parse_arguments(required, optional, s)->Ok_0.len() ==> required.contains(
                (#[trigger] spec_parse_arguments(required, optional, s)->Ok_0[i]).0,
            ) || optional.contains(spec_parse_arguments(required, optional, s)->Ok_0[i].0),
        keys_of(spec_parse_arguments(required, optional, s)->Ok_0).no_duplicates(),
{
    let ps = collect_pairs(words(trim(s)))->Ok_0;
    lemma_collect_pairs_distinct(words(trim(s)));
    lemma_first_missing_none(required, keys_of(ps));
    lemma_first_unexpected_none(keys_of(ps), required, optional);
    assert forall|n: Seq<char>| required.contains(n) implies lookup(ps, n) is Some by {
        lemma_lookup_finds(ps, n);
    }
    assert forall|i: int| 0 <= i < ps.len() implies required.contains((#[trigger] ps[i]).0)
        || optional.contains(ps[i].0) by {
        assert(keys_of(ps)[i] == ps[i].0);
    }
}


// ---------------------------------------------------------------------------
// When an argument list parses

/// Whether the word holds a `=`.
pub open spec fn word_has_pair(w: Seq<char>) -> bool {
    find_char(w, '=') is Some
}

/// The key and value of a word: the text before its first `=` and the text
/// after it.
pub open spec fn word_pair(w: Seq<char>) -> (Seq<char>, Seq<char>) {
    let i = find_char(w, '=')->0;
    (w.subrange(0, i), w.subrange(i + 1, w.len() as int))
}

/// The key and value of each word, in order.
pub open spec fn word_pairs(ws: Seq<Seq<char>>) -> Seq<(Seq<char>, Seq<char>)> {
    ws.map_values(|w: Seq<char>| word_pair(w))
}

/// Whether the words make an argument list for the names: every word holds
/// a `=`, no key is given twice, every required name is a key, and every key
/// is required or optional.
pub open spec fn arguments_fit(
    required: Seq<Seq<char>>,
    optional: Seq<Seq<char>>,
    ws: Seq<Seq<char>>,
) -> bool {
    &&& forall|i: int| 0 <= i < ws.len() ==> word_has_pair(#[trigger] ws[i])
    &&& keys_of(word_pairs(ws)).no_duplicates()
    &&& forall|n: Seq<char>| required.contains(n) ==> keys_of(word_pairs(ws)).contains(n)
    &&& forall|i: int|
        0 <= i < ws.len() ==> required.contains(#[trigger] word_pairs(ws)[i].0)
            || optional.contains(word_pairs(ws)[i].0)
}

proof fn lemma_collect_pairs_ok(ws: Seq<Seq<char>>)
    ensures
        collect_pairs(ws) is Ok <==> (forall|i: int| 0 <= i < ws.len() ==> word_has_pair(#[trigger] ws[i]))
            && keys_of(word_pairs(ws)).no_duplicates(),
        collect_pairs(ws) is Ok ==> collect_pairs(ws)->Ok_0 == word_pairs(ws),
    decreases ws.len(),
{
    if ws.len() > 0 {
        let ws0 = ws.drop_last();
        lemma_collect_pairs_ok(ws0);
        let w = ws.last();
        assert(word_pairs(ws) =~= word_pairs(ws0).push(word_pair(w)));
        assert(keys_of(word_pairs(ws)) =~= keys_of(word_pairs(ws0)).push(word_pair(w).0));
        assert forall|i: int| 0 <= i < ws0.len() implies ws0[i] == ws[i] by {}
        if !(keys_of(word_pairs(ws0)).no_duplicates()) {
            let (a, b) = choose|a: int, b: int|
                0 <= a < keys_of(word_pairs(ws0)).len() && 0 <= b < keys_of(word_pairs(ws0)).len()
                    && a != b && keys_of(word_pairs(ws0))[a] == keys_of(word_pairs(ws0))[b];
            assert(keys_of(word_pairs(ws))[a] == keys_of(word_pairs(ws))[b]);
        }
        if !(forall|i: int| 0 <= i < ws0.len() ==> word_has_pair(#[trigger] ws0[i])) {
            let i = choose|i: int| 0 <= i < ws0.len() && !word_has_pair(#[trigger] ws0[i]);
            assert(!word_has_pair(ws[i]));
        }
        if collect_pairs(ws0) is Ok {
            let ps = word_pairs(ws0);
            if find_char(w, '=') is None {
                assert(!word_has_pair(ws[ws.len() - 1]));
            } else {
                let key = word_pair(w).0;
                if keys_of(ps).contains(key) {
                    let a = choose|a: int| 0 <= a < keys_of(ps).len() && keys_of(ps)[a] == key;
                    assert(keys_of(word_pairs(ws))[a] == keys_of(word_pairs(ws))[ps.len() as int]);
                } else {
                    assert forall|a: int, b: int|
                        0 <= a < keys_of(word_pairs(ws)).len() && 0 <= b < keys_of(
                            word_pairs(ws),
                        ).len() && a != b implies keys_of(word_pairs(ws))[a] != keys_of(
                        word_pairs(ws),
                    )[b] by {
                        if a == ps.len() {
                            assert(keys_of(ps)[b] == keys_of(word_pairs(ws))[b]);
                        } else if b == ps.len() {
                            assert(keys_of(ps)[a] == keys_of(word_pairs(ws))[a]);
                        } else {
                            assert(keys_of(ps)[a] == keys_of(word_pairs(ws))[a]);
                            assert(keys_of(ps)[b] == keys_of(word_pairs(ws))[b]);
                        }
                    }
                }
            }
        }
    } else {
        assert(word_pairs(ws) =~= Seq::<(Seq<char>, Seq<char>)>::empty());
        assert(keys_of(word_pairs(ws)) =~= Seq::<Seq<char>>::empty());
    }
}

proof fn lemma_first_missing_some(required: Seq<Seq<char>>, keys: Seq<Seq<char>>)
    requires
        forall|n: Seq<char>| required.contains(n) ==> keys.contains(n),
    ensures
        first_missing(required, keys) is None,
    decreases required.len(),
{
    if required.len() > 0 {
        assert(required.contains(required[0]));
        assert forall|n: Seq<char>| required.drop_first().contains(n) implies keys.contains(n) by {
            let i = choose|i: int| 0 <= i < required.drop_first().len() && required.drop_first()[i] == n;
            assert(required[i + 1] == n);
        }
        lemma_first_missing_some(required.drop_first(), keys);
    }
}

proof fn lemma_first_unexpected_some(
    keys: Seq<Seq<char>>,
    required: Seq<Seq<char>>,
    optional: Seq<Seq<char>>,
)
    requires
        forall|i: int|
            0 <= i < keys.len() ==> required.contains(#[trigger] keys[i]) || optional.contains(
                keys[i],
            ),
    ensures
        first_unexpected(keys, required, optional) is None,
    decreases keys.len(),
{
    if keys.len() > 0 {
        assert(required.contains(keys[0]) || optional.contains(keys[0]));
        assert forall|i: int| 0 <= i < keys.drop_first().len() implies required.contains(
            #[trigger] keys.drop_first()[i],
        ) || optional.contains(keys.drop_first()[i]) by {
            assert(keys.drop_first()[i] == keys[i + 1]);
        }
        lemma_first_unexpected_some(keys.drop_first(), required, optional);
    }
}

proof fn lemma_lookup_distinct(ps: Seq<(Seq<char>, Seq<char>)>, j: int)
    requires
        0 <= j < ps.len(),
        keys_of(ps).no_duplicates(),
    ensures
        lookup(ps, ps[j].0) == Some(ps[j].1),
    decreases ps.len(),
{
    if j > 0 {
        assert(keys_of(ps)[0] != keys_of(ps)[j]);
        let rest = ps.drop_first();
        assert(rest[j - 1] == ps[j]);
        assert forall|a: int, b: int|
            0 <= a < keys_of(rest).len() && 0 <= b < keys_of(rest).len() && a != b implies keys_of(
            rest,
        )[a] != keys_of(rest)[b] by {
            assert(keys_of(rest)[a] == keys_of(ps)[a + 1]);
            assert(keys_of(rest)[b] == keys_of(ps)[b + 1]);
        }
        lemma_lookup_distinct(rest, j - 1);
    }
}

proof fn lemma_lookup_absent(ps: Seq<(Seq<char>, Seq<char>)>, key: Seq<char>)
    requires
        !keys_of(ps).contains(key),
    ensures
        lookup(ps, key) is None,
    decreases ps.len(),
{
    if ps.len() > 0 {
        assert(keys_of(ps)[0] == ps[0].0);
        assert(!keys_of(ps.drop_first()).contains(key)) by {
            if keys_of(ps.drop_first()).contains(key) {
                let i = choose|i: int| 0 <= i < keys_of(ps.drop_first()).len() && keys_of(ps.drop_first())[i] == key;
                assert(keys_of(ps)[i + 1] == key);
            }
        }
        lemma_lookup_absent(ps.drop_first(), key);
    }
}

/// An argument list parses exactly when its words (see [`words`]) make an
/// argument list for the names (see [`arguments_fit`]); then it holds the
/// key and value of each word, in order, each key gives back its value, and
/// a name that is no key gives nothing.
pub proof fn lemma_parse_arguments_ok(required: Seq<Seq<char>>, optional: Seq<Seq<char>>, s: Seq<char>)
    ensures
        spec_parse_arguments(required, optional, s) is Ok <==> arguments_fit(
            required,
            optional,
            words(trim(s)),
        ),
        spec_parse_arguments(required, optional, s) is Ok ==> {
            let ps = word_pairs(words(trim(s)));
            &&& spec_parse_arguments(required, optional, s)->Ok_0 == ps
            &&& forall|i: int| 0 <= i < ps.len() ==> lookup(ps, #[trigger] ps[i].0) == Some(ps[i].1)
            &&& forall|n: Seq<char>| !keys_of(ps).contains(n) ==> lookup(ps, n) is None
        },
{
    let ws = words(trim(s));
    let ps = word_pairs(ws);
    lemma_collect_pairs_ok(ws);
    assert forall|i: int| 0 <= i < ps.len() implies keys_of(ps)[i] == ps[i].0 by {}
    if collect_pairs(ws) is Ok {
        if first_missing(required, keys_of(ps)) is None {
            lemma_first_missing_none(required, keys_of(ps));
        }
        if forall|n: Seq<char>| required.contains(n) ==> keys_of(ps).contains(n) {
            lemma_first_missing_some(required, keys_of(ps));
        }
        if first_unexpected(keys_of(ps), required, optional) is None {
            lemma_first_unexpected_none(keys_of(ps), required, optional);
            assert forall|i: int| 0 <= i < ws.len() implies required.contains(
                #[trigger] word_pairs(ws)[i].0,
            ) || optional.contains(word_pairs(ws)[i].0) by {
                assert(keys_of(ps)[i] == ps[i].0);
            }
        }
        if forall|i: int|
            0 <= i < ws.len() ==> required.contains(#[trigger] word_pairs(ws)[i].0)
                || optional.contains(word_pairs(ws)[i].0) {
            assert forall|i: int| 0 <= i < keys_of(ps).len() implies required.contains(
                #[trigger] keys_of(ps)[i],
            ) || optional.contains(keys_of(ps)[i]) by {
                assert(keys_of(ps)[i] == word_pairs(ws)[i].0);
            }
            lemma_first_unexpected_some(keys_of(ps), required, optional);
        }
        if keys_of(ps).no_duplicates() {
            assert forall|i: int| 0 <= i < ps.len() implies lookup(ps, #[trigger] ps[i].0) == Some(ps[i].1) by {
                lemma_lookup_distinct(ps, i);
            }
        }
        assert forall|n: Seq<char>| !keys_of(ps).contains(n) implies lookup(ps, n) is None by {
            lemma_lookup_absent(ps, n);
        }
        assert(collect_pairs(ws)->Ok_0 == ps);
        let all_required = forall|n: Seq<char>| required.contains(n) ==> keys_of(ps).contains(n);
        let all_known = forall|i: int|
            0 <= i < ws.len() ==> required.contains(#[trigger] word_pairs(ws)[i].0)
                || optional.contains(word_pairs(ws)[i].0);
        assert(all_required <==> first_missing(required, keys_of(ps)) is None);
        assert(all_known <==> first_unexpected(keys_of(ps), required, optional) is None);
        assert(spec_parse_arguments(required, optional, s) is Ok <==> (all_required && all_known));
    } else {
        assert(!arguments_fit(required, optional, ws));
    }
}


/// A parser that requires and allows no name accepts exactly the texts
/// without words: any word is refused, as invalid or as unexpected.
pub proof fn lemma_parse_without_names(s: Seq<char>)
    ensures
        spec_parse_arguments(Seq::empty(), Seq::empty(), s) is Ok <==> words(trim(s)).len() == 0,
{
    let ws = words(trim(s));
    lemma_parse_arguments_ok(Seq::empty(), Seq::empty(), s);
    if ws.len() == 0 {
        assert(word_pairs(ws) =~= Seq::<(Seq<char>, Seq<char>)>::empty());
        assert(keys_of(word_pairs(ws)) =~= Seq::<Seq<char>>::empty());
        assert(arguments_fit(Seq::empty(), Seq::empty(), ws));
    } else {
        let k = word_pairs(ws)[0].0;
        assert(!Seq::<Seq<char>>::empty().contains(k));
        assert(!arguments_fit(Seq::empty(), Seq::empty(), ws));
    }
}

} // verus!
