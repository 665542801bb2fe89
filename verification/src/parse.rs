//! The text form of a pattern, and the errors of a search's configuration.

use vstd::prelude::*;
use vstd::string::StringSliceAdditionalSpecFns;
use vstd::utf8::*;
use crate::pattern::{occurs_at, VanityPattern};

verus! {

/// What can be wrong with the configuration of a search.
#[derive(Clone, Copy, Debug, PartialEq, Eq, Structural)]
pub enum ConfigError {
    /// A run has no target that asks for a key.
    NoTargets,
    /// A target asks for no key at all.
    ZeroTargetCount,
    /// What follows `at:` is not an offset, one colon and a pattern.
    MalformedAt,
    /// The offset after `at:` is no number that fits.
    InvalidOffset,
    /// `contains:` is followed by nothing.
    EmptyPattern,
}

/// Which predicate a pattern is.
pub enum PatternKind {
    Prefix,
    Suffix,
    Contains,
    AtPosition(usize),
}

/// A pattern as matching sees it: its kind and the bytes it looks for.
pub struct PatternShape {
    pub kind: PatternKind,
    pub bytes: Seq<u8>,
}

impl VanityPattern {
    /// The kind and the bytes of the pattern.
    pub open spec fn shape(&self) -> PatternShape {
        PatternShape {
            kind: match self {
                VanityPattern::Prefix(_) => PatternKind::Prefix,
                VanityPattern::Suffix(_) => PatternKind::Suffix,
                VanityPattern::Contains(_) => PatternKind::Contains,
                VanityPattern::AtPosition(_, offset) => PatternKind::AtPosition(*offset),
            },
            bytes: self.bytes(),
        }
    }
}

impl ConfigError {
    /// The message that names what is wrong and what is expected.
    pub open spec fn message_text(&self) -> Seq<char> {
        match self {
            ConfigError::NoTargets => "No target to search for"@,
            ConfigError::ZeroTargetCount => "Count must be at least 1"@,
            ConfigError::MalformedAt => "Invalid at: format. Use at:position:pattern"@,
            ConfigError::InvalidOffset => "Invalid position number"@,
            ConfigError::EmptyPattern => "Invalid contains: format. The pattern must not be empty"@,
        }
    }

    /// The message that names what is wrong and what is expected.
    pub fn message(&self) -> (s: String)
        ensures
            s@ == self.message_text(),
    {
        match self {
            ConfigError::NoTargets => "No target to search for".to_owned(),
            ConfigError::ZeroTargetCount => "Count must be at least 1".to_owned(),
            ConfigError::MalformedAt => "Invalid at: format. Use at:position:pattern".to_owned(),
            ConfigError::InvalidOffset => "Invalid position number".to_owned(),
            ConfigError::EmptyPattern => "Invalid contains: format. The pattern must not be empty".to_owned(),
        }
    }
}

/// The bytes of `prefix:`.
pub open spec fn prefix_tag() -> Seq<u8> {
    seq!['p' as u8, 'r' as u8, 'e' as u8, 'f' as u8, 'i' as u8, 'x' as u8, ':' as u8]
}

/// The bytes of `suffix:`.
pub open spec fn suffix_tag() -> Seq<u8> {
    seq!['s' as u8, 'u' as u8, 'f' as u8, 'f' as u8, 'i' as u8, 'x' as u8, ':' as u8]
}

/// The bytes of `contains:`.
pub open spec fn contains_tag() -> Seq<u8> {
    seq![
        'c' as u8,
        'o' as u8,
        'n' as u8,
        't' as u8,
        'a' as u8,
        'i' as u8,
        'n' as u8,
        's' as u8,
        ':' as u8,
    ]
}

/// The bytes of `at:`.
pub open spec fn at_tag() -> Seq<u8> {
    seq!['a' as u8, 't' as u8, ':' as u8]
}

/// The byte of a colon.
pub open spec fn colon() -> u8 {
    ':' as u8
}

/// `i` is the place of the one colon in `rest`.
pub open spec fn is_sole_colon(rest: Seq<u8>, i: int) -> bool {
    &&& 0 <= i < rest.len()
    &&& rest[i] == colon()
    &&& forall|j: int| 0 <= j < rest.len() && rest[j] == colon() ==> j == i
}

/// The place of the colon in `rest`, where `rest` holds exactly one.
pub open spec fn sole_colon(rest: Seq<u8>) -> Option<int> {
    if exists|i: int| is_sole_colon(rest, i) {
        Some(choose|i: int| is_sole_colon(rest, i))
    } else {
        None
    }
}

/// A decimal digit.
pub open spec fn is_digit(b: u8) -> bool {
    '0' as u8 <= b <= '9' as u8
}

/// Every byte is a decimal digit.
pub open spec fn all_digits(d: Seq<u8>) -> bool {
    forall|i: int| 0 <= i < d.len() ==> is_digit(#[trigger] d[i])
}

/// The number that a run of decimal digits denotes.
pub open spec fn digits_number(d: Seq<u8>) -> nat
    decreases d.len(),
{
    if d.len() == 0 {
        0
    } else {
        digits_number(d.drop_last()) * 10 + (d.last() - '0' as u8) as nat
    }
}

/// The field without the `+` that may stand in front of the digits.
pub open spec fn unsigned_part(field: Seq<u8>) -> Seq<u8> {
    if field.len() > 0 && field[0] == '+' as u8 {
        field.skip(1)
    } else {
        field
    }
}

/// The offset that a field denotes: one or more decimal digits, a `+` in
/// front of them or not, whose number fits `usize`.
pub open spec fn offset_spec(field: Seq<u8>) -> Option<usize> {
    let d = unsigned_part(field);
    if d.len() > 0 && all_digits(d) && digits_number(d) <= usize::MAX {
        Some(digits_number(d) as usize)
    } else {
        None
    }
}

/// What follows `at:`: an offset, one colon, the pattern.
pub open spec fn parse_at_spec(rest: Seq<u8>) -> Result<PatternShape, ConfigError> {
    match sole_colon(rest) {
        None => Err(ConfigError::MalformedAt),
        Some(i) => match offset_spec(rest.take(i)) {
            None => Err(ConfigError::InvalidOffset),
            Some(offset) => Ok(
                PatternShape { kind: PatternKind::AtPosition(offset), bytes: rest.skip(i + 1) },
            ),
        },
    }
}

/// The pattern that a text and an explicit position denote. A position
/// always gives `AtPosition` with the whole text. Without one, a tag in
/// front of the text selects the kind, and a text without a tag is a prefix.
pub open spec fn parse_spec(text: Seq<u8>, position: Option<usize>) -> Result<
    PatternShape,
    ConfigError,
> {
    if let Some(offset) = position {
        Ok(PatternShape { kind: PatternKind::AtPosition(offset), bytes: text })
    } else if occurs_at(text, 0, prefix_tag()) {
        Ok(PatternShape { kind: PatternKind::Prefix, bytes: text.skip(7) })
    } else if occurs_at(text, 0, suffix_tag()) {
        Ok(PatternShape { kind: PatternKind::Suffix, bytes: text.skip(7) })
    } else if occurs_at(text, 0, contains_tag()) {
        if text.len() == 9 {
            Err(ConfigError::EmptyPattern)
        } else {
            Ok(PatternShape { kind: PatternKind::Contains, bytes: text.skip(9) })
        }
    } else if occurs_at(text, 0, at_tag()) {
        parse_at_spec(text.skip(3))
    } else {
        Ok(PatternShape { kind: PatternKind::Prefix, bytes: text })
    }
}

/// In valid UTF-8 a character starts after every ASCII byte.
proof fn lemma_boundary_after_ascii(bytes: Seq<u8>, i: int)
    requires
        valid_utf8(bytes),
        0 <= i < bytes.len(),
        bytes[i] < 0x80,
    ensures
        is_char_boundary(bytes, i + 1),
    decreases bytes.len(),
{
    is_char_boundary_iff_not_is_continuation_byte(bytes, i);
    let first = length_of_first_scalar(bytes);
    let rest = pop_first_scalar(bytes);
    if i == 0 {
        assert(first == 1);
        assert(is_char_boundary(rest, 0));
    } else {
        assert(is_char_boundary(rest, i - first));
        assert(i - first >= 0);
        lemma_boundary_after_ascii(rest, i - first);
    }
}

/// A prefix of a run of digits denotes no more than the run.
proof fn lemma_digits_prefix(d: Seq<u8>, k: int)
    requires
        all_digits(d),
        0 <= k <= d.len(),
    ensures
        digits_number(d.take(k)) <= digits_number(d),
    decreases d.len() - k,
{
    if k == d.len() {
        assert(d.take(k) =~= d);
    } else {
        lemma_digits_prefix(d.drop_last(), k);
        assert(d.drop_last().take(k) =~= d.take(k));
        assert(is_digit(d[d.len() - 1]));
    }
}

/// The text from byte `mid` on, where the byte before `mid` is ASCII.
fn tail_from<'a>(s: &'a str, mid: usize) -> (r: &'a str)
    requires
        0 < mid <= encode_utf8(s@).len(),
        encode_utf8(s@)[mid - 1] < 0x80,
    ensures
        encode_utf8(r@) == encode_utf8(s@).skip(mid as int),
{
    proof {
        encode_utf8_valid_utf8(s@);
        lemma_boundary_after_ascii(encode_utf8(s@), mid - 1);
    }
    let halves = s.split_at(mid);
    halves.1
}

/// Whether `bytes` starts with `tag`.
fn has_tag(bytes: &[u8], tag: &[u8]) -> (r: bool)
    ensures
        r == occurs_at(bytes@, 0, tag@),
{
    let n: usize = tag.len();
    if bytes.len() < n {
        return false;
    }
    let mut i: usize = 0;
    while i < n
        invariant
            n == tag@.len(),
            n <= bytes@.len(),
            i <= n,
            forall|j: int| 0 <= j < i ==> bytes@[j] == tag@[j],
        decreases n - i,
    {
        if bytes[i] != tag[i] {
            assert(bytes@.subrange(0, n as int)[i as int] != tag@[i as int]);
            return false;
        }
        i += 1;
    }
    assert(bytes@.subrange(0, n as int) =~= tag@);
    true
}

/// Looks for the one colon of `bytes` from `start` on.
fn find_sole_colon(bytes: &[u8], start: usize) -> (r: Option<usize>)
    requires
        start <= bytes@.len(),
    ensures
        match r {
            Some(i) => start <= i < bytes@.len() && sole_colon(bytes@.skip(start as int)) == Some(
                i - start,
            ),
            None => sole_colon(bytes@.skip(start as int)).is_none(),
        },
{
    let ghost rest = bytes@.skip(start as int);
    let n: usize = bytes.len();
    let mut first: usize = start;
    while first < n && bytes[first] != ':' as u8
        invariant
            n == bytes@.len(),
            start <= first <= n,
            forall|j: int| start <= j < first ==> bytes@[j] != colon(),
        decreases n - first,
    {
        first += 1;
    }
    if first == n {
        assert forall|i: int| !is_sole_colon(rest, i) by {
            if 0 <= i < rest.len() {
                assert(rest[i] == bytes@[start + i]);
            }
        }
        return None;
    }
    let mut next: usize = first + 1;
    while next < n
        invariant
            n == bytes@.len(),
            rest == bytes@.skip(start as int),
            start <= first < next <= n,
            bytes@[first as int] == colon(),
            forall|j: int| start <= j < first ==> bytes@[j] != colon(),
            forall|j: int| first < j < next ==> bytes@[j] != colon(),
        decreases n - next,
    {
        if bytes[next] == ':' as u8 {
            assert forall|i: int| !is_sole_colon(rest, i) by {
                if is_sole_colon(rest, i) {
                    assert(rest[first - start] == colon());
                    assert(rest[next - start] == colon());
                }
            }
            return None;
        }
        next += 1;
    }
    assert(is_sole_colon(rest, first - start)) by {
        assert forall|j: int| 0 <= j < rest.len() && rest[j] == colon() implies j == first
            - start by {
            assert(rest[j] == bytes@[start + j]);
        }
    }
    Some(first)
}

/// Reads the offset that stands in `bytes` from `start` to `end`.
fn parse_offset(bytes: &[u8], start: usize, end: usize) -> (r: Option<usize>)
    requires
        start <= end <= bytes@.len(),
    ensures
        r == offset_spec(bytes@.subrange(start as int, end as int)),
{
    let ghost field = bytes@.subrange(start as int, end as int);
    let from: usize = if start < end && bytes[start] == '+' as u8 {
        start + 1
    } else {
        start
    };
    let ghost d = unsigned_part(field);
    assert(d =~= bytes@.subrange(from as int, end as int));
    if from == end {
        return None;
    }
    let mut value: usize = 0;
    let mut i: usize = from;
    while i < end
        invariant
            start <= from <= i <= end <= bytes@.len(),
            field == bytes@.subrange(start as int, end as int),
            d == unsigned_part(field),
            d == bytes@.subrange(from as int, end as int),
            all_digits(d.take(i - from)),
            value == digits_number(d.take(i - from)),
        decreases end - i,
    {
        let b: u8 = bytes[i];
        if b < '0' as u8 || b > '9' as u8 {
            assert(!is_digit(d[i - from]));
            return None;
        }
        let ghost longer = d.take(i - from + 1);
        assert(longer.drop_last() =~= d.take(i - from));
        assert(all_digits(longer)) by {
            assert forall|j: int| 0 <= j < longer.len() implies is_digit(#[trigger] longer[j]) by {
                if j < i - from {
                    assert(d.take(i - from)[j] == longer[j]);
                }
            }
        }
        let digit: usize = (b - '0' as u8) as usize;
        let next = match value.checked_mul(10) {
            Some(tens) => tens.checked_add(digit),
            None => None,
        };
        match next {
            Some(v) => {
                value = v;
            },
            None => {
                proof {
                    if all_digits(d) {
                        lemma_digits_prefix(d, i - from + 1);
                    }
                }
                return None;
            },
        }
        i += 1;
    }
    assert(d.take(i - from) =~= d);
    Some(value)
}

/// Reads a pattern from its text form. An explicit position always gives
/// `AtPosition` with the whole text as the pattern.
pub fn parse_pattern(pattern_str: &str, position: Option<usize>) -> (r: Result<
    VanityPattern,
    ConfigError,
>)
    ensures
        match r {
            Ok(pattern) => parse_spec(encode_utf8(pattern_str@), position) == Ok::<
                PatternShape,
                ConfigError,
            >(pattern.shape()),
            Err(e) => parse_spec(encode_utf8(pattern_str@), position) == Err::<
                PatternShape,
                ConfigError,
            >(e),
        },
{
    let bytes = pattern_str.as_bytes();
    let len: usize = bytes.len();
    proof {
        reveal_strlit("prefix:");
        reveal_strlit("suffix:");
        reveal_strlit("contains:");
        reveal_strlit("at:");
        is_ascii_chars_encode_utf8("prefix:"@);
        is_ascii_chars_encode_utf8("suffix:"@);
        is_ascii_chars_encode_utf8("contains:"@);
        is_ascii_chars_encode_utf8("at:"@);
    }
    assert("prefix:".spec_bytes() =~= prefix_tag());
    assert("suffix:".spec_bytes() =~= suffix_tag());
    assert("contains:".spec_bytes() =~= contains_tag());
    assert("at:".spec_bytes() =~= at_tag());
    if let Some(offset) = position {
        Ok(VanityPattern::AtPosition(pattern_str.to_owned(), offset))
    } else if has_tag(bytes, "prefix:".as_bytes()) {
        assert(bytes@.subrange(0, 7)[6] == colon());
        Ok(VanityPattern::Prefix(tail_from(pattern_str, 7).to_owned()))
    } else if has_tag(bytes, "suffix:".as_bytes()) {
        assert(bytes@.subrange(0, 7)[6] == colon());
        Ok(VanityPattern::Suffix(tail_from(pattern_str, 7).to_owned()))
    } else if has_tag(bytes, "contains:".as_bytes()) {
        assert(bytes@.subrange(0, 9)[8] == colon());
        if len == 9 {
            Err(ConfigError::EmptyPattern)
        } else {
            Ok(VanityPattern::Contains(tail_from(pattern_str, 9).to_owned()))
        }
    } else if has_tag(bytes, "at:".as_bytes()) {
        let ghost rest = bytes@.skip(3);
        match find_sole_colon(bytes, 3) {
            None => Err(ConfigError::MalformedAt),
            Some(i) => {
                assert(rest.take(i - 3) =~= bytes@.subrange(3, i as int));
                assert(rest.skip(i - 3 + 1) =~= bytes@.skip(i + 1));
                assert(bytes@[i as int] == rest[i - 3]);
                match parse_offset(bytes, 3, i) {
                    None => Err(ConfigError::InvalidOffset),
                    Some(offset) => Ok(
                        VanityPattern::AtPosition(
                            tail_from(pattern_str, i + 1).to_owned(),
                            offset,
                        ),
                    ),
                }
            },
        }
    } else {
        Ok(VanityPattern::Prefix(pattern_str.to_owned()))
    }
}

/// Reads a pattern from its text form; an error comes as its message.
pub fn parse_vanity_pattern(pattern_str: &str, position: Option<usize>) -> (r: Result<
    VanityPattern,
    String,
>)
    ensures
        match r {
            Ok(pattern) => parse_spec(encode_utf8(pattern_str@), position) == Ok::<
                PatternShape,
                ConfigError,
            >(pattern.shape()),
            Err(message) => match parse_spec(encode_utf8(pattern_str@), position) {
                Ok(_) => false,
                Err(e) => message@ == e.message_text(),
            },
        },
{
    match parse_pattern(pattern_str, position) {
        Ok(pattern) => Ok(pattern),
        Err(e) => Err(e.message()),
    }
}

} // verus!
