//! Addresses in their several spellings, brought to one `u32`.
//!
//! An address is accepted as a `u32`, as its four octets, as dotted decimal
//! text (`"1.2.3.4"`) or as the decimal text of the number. The first octet
//! is the most significant byte of the number.

use crate::error::SearchError;
use vstd::prelude::*;
use vstd::string::StrSliceExecFns;

verus! {

/// Whether `c` is one of `'0'..='9'`.
pub open spec fn is_digit(c: char) -> bool {
    '0' <= c <= '9'
}

/// The number that the digit `c` stands for; 0 for any other character.
pub open spec fn digit_value(c: char) -> nat {
    if is_digit(c) {
        (c as u32 - '0' as u32) as nat
    } else {
        0
    }
}

/// Whether `s` holds digits only.
pub open spec fn all_digits(s: Seq<char>) -> bool {
    forall|i: int| 0 <= i < s.len() ==> is_digit(#[trigger] s[i])
}

/// The number that the digits of `s` spell in base ten.
pub open spec fn decimal_value(s: Seq<char>) -> nat
    decreases s.len(),
{
    if s.len() == 0 {
        0
    } else {
        10 * decimal_value(s.drop_last()) + digit_value(s.last())
    }
}

/// The number whose four bytes, most significant first, are `a`, `b`, `c`
/// and `d`.
pub open spec fn from_octets(a: nat, b: nat, c: nat, d: nat) -> nat {
    ((a * 256 + b) * 256 + c) * 256 + d
}

/// Whether `s` spells one octet of a dotted address: one to three digits,
/// no leading zero in front of another digit, and at most 255.
pub open spec fn is_octet(s: Seq<char>) -> bool {
    &&& 1 <= s.len() <= 3
    &&& all_digits(s)
    &&& s.len() > 1 ==> s[0] != '0'
    &&& decimal_value(s) <= 255
}

/// Whether `s` is a dotted address whose three dots stand at `first`, `second`
/// and `third`.
pub open spec fn is_dotted_at(s: Seq<char>, first: int, second: int, third: int) -> bool {
    &&& 0 <= first < second < third < s.len()
    &&& s[first] == '.'
    &&& s[second] == '.'
    &&& s[third] == '.'
    &&& is_octet(s.subrange(0, first))
    &&& is_octet(s.subrange(first + 1, second))
    &&& is_octet(s.subrange(second + 1, third))
    &&& is_octet(s.subrange(third + 1, s.len() as int))
}

/// The number that the four octets around the dots at `first`, `second` and `third`
/// spell.
pub open spec fn dotted_value_at(s: Seq<char>, first: int, second: int, third: int) -> nat {
    from_octets(
        decimal_value(s.subrange(0, first)),
        decimal_value(s.subrange(first + 1, second)),
        decimal_value(s.subrange(second + 1, third)),
        decimal_value(s.subrange(third + 1, s.len() as int)),
    )
}

/// The address that `s` spells in dotted decimal, if it spells one.
pub open spec fn parse_dotted(s: Seq<char>) -> Option<u32> {
    if exists|first: int, second: int, third: int| is_dotted_at(s, first, second, third) {
        let (first, second, third) = choose|first: int, second: int, third: int|
            is_dotted_at(s, first, second, third);
        Some(dotted_value_at(s, first, second, third) as u32)
    } else {
        None
    }
}

/// The address that `s` spells as a decimal integer, if it spells one: an
/// optional `+`, then at least one digit, and a value that fits 32 bits.
pub open spec fn parse_decimal(s: Seq<char>) -> Option<u32> {
    let digits = if s.len() > 0 && s[0] == '+' {
        s.drop_first()
    } else {
        s
    };
    if digits.len() > 0 && all_digits(digits) && decimal_value(digits) <= u32::MAX {
        Some(decimal_value(digits) as u32)
    } else {
        None
    }
}

/// The address that the text `s` spells: dotted decimal first, a decimal
/// integer otherwise.
pub open spec fn parse_ip(s: Seq<char>) -> Option<u32> {
    match parse_dotted(s) {
        Some(ip) => Some(ip),
        None => parse_decimal(s),
    }
}

/// A value that stands for an IPv4 address.
pub trait ToUIntIP {
    /// The address that the value stands for, if it stands for one.
    spec fn ip_value(&self) -> Option<u32>;

    /// The address as a `u32`, or `InvalidIpFormat` where the value stands
    /// for none.
    fn to_u32_ip(&self) -> (r: Result<u32, SearchError>)
        ensures
            match self.ip_value() {
                Some(ip) => r matches Ok(found) && found == ip,
                None => r matches Err(e) && e == SearchError::InvalidIpFormat,
            },
    ;
}

/// A number is the address itself.
impl ToUIntIP for u32 {
    open spec fn ip_value(&self) -> Option<u32> {
        Some(*self)
    }

    fn to_u32_ip(&self) -> (r: Result<u32, SearchError>) {
        Ok(*self)
    }
}

/// Four octets are an address, the most significant octet first.
impl ToUIntIP for [u8; 4] {
    open spec fn ip_value(&self) -> Option<u32> {
        Some(from_octets(self[0] as nat, self[1] as nat, self[2] as nat, self[3] as nat) as u32)
    }

    fn to_u32_ip(&self) -> (r: Result<u32, SearchError>) {
        let a: u32 = self[0] as u32;
        let b: u32 = self[1] as u32;
        let c: u32 = self[2] as u32;
        let d: u32 = self[3] as u32;
        Ok(((a * 256 + b) * 256 + c) * 256 + d)
    }
}

/// Text is an address where it spells one, dotted or decimal.
impl ToUIntIP for &str {
    open spec fn ip_value(&self) -> Option<u32> {
        parse_ip(self@)
    }

    fn to_u32_ip(&self) -> (r: Result<u32, SearchError>) {
        match parse_ip_text(self) {
            Some(ip) => Ok(ip),
            None => Err(SearchError::InvalidIpFormat),
        }
    }
}

/// Reads `s` as an address, dotted or decimal.
pub fn parse_ip_text(s: &str) -> (r: Option<u32>)
    ensures
        r == parse_ip(s@),
{
    if !s.is_ascii() {
        proof {
            if parse_ip(s@) is Some {
                lemma_parsed_is_ascii(s@);
            }
        }
        return None;
    }
    let n: usize = s.unicode_len();
    match parse_dotted_text(s, n) {
        Some(ip) => Some(ip),
        None => parse_decimal_text(s, n),
    }
}

/// Reads `s` as a dotted address.
fn parse_dotted_text(s: &str, n: usize) -> (r: Option<u32>)
    requires
        s.is_ascii(),
        n == s@.len(),
    ensures
        r == parse_dotted(s@),
{
    proof {
        assert forall|dot1: int, dot2: int, dot3: int|
            is_dotted_at(s@, dot1, dot2, dot3) implies is_first_dot(s@, 0, dot1) && is_first_dot(
            s@,
            dot1 + 1,
            dot2,
        ) && is_first_dot(s@, dot2 + 1, dot3) by {
            lemma_dotted_dots(s@, dot1, dot2, dot3);
        }
    }
    let first: usize = match find_dot(s, 0, n) {
        Some(p) => p,
        None => {
            return None;
        },
    };
    let second: usize = match find_dot(s, first + 1, n) {
        Some(p) => p,
        None => {
            return None;
        },
    };
    let third: usize = match find_dot(s, second + 1, n) {
        Some(p) => p,
        None => {
            return None;
        },
    };
    let a: u32 = match read_octet(s, 0, first) {
        Some(v) => v,
        None => {
            return None;
        },
    };
    let b: u32 = match read_octet(s, first + 1, second) {
        Some(v) => v,
        None => {
            return None;
        },
    };
    let c: u32 = match read_octet(s, second + 1, third) {
        Some(v) => v,
        None => {
            return None;
        },
    };
    let d: u32 = match read_octet(s, third + 1, n) {
        Some(v) => v,
        None => {
            return None;
        },
    };
    assert(is_dotted_at(s@, first as int, second as int, third as int));
    Some(((a * 256 + b) * 256 + c) * 256 + d)
}

/// Reads `s` as a decimal integer.
fn parse_decimal_text(s: &str, n: usize) -> (r: Option<u32>)
    requires
        s.is_ascii(),
        n == s@.len(),
    ensures
        r == parse_decimal(s@),
{
    let mut start: usize = 0;
    if n > 0 {
        let first: u8 = s.get_ascii(0);
        if first == 43 {
            start = 1;
        }
    }
    assert(s@.subrange(start as int, n as int) =~= if s@.len() > 0 && s@[0] == '+' {
        s@.drop_first()
    } else {
        s@
    });
    if start == n {
        return None;
    }
    read_number(s, start, n, u32::MAX)
}

/// Reads the characters `from..to` of `s` as one octet of a dotted address.
fn read_octet(s: &str, from: usize, to: usize) -> (r: Option<u32>)
    requires
        s.is_ascii(),
        from <= to <= s@.len(),
    ensures
        r is Some <==> is_octet(s@.subrange(from as int, to as int)),
        r matches Some(v) ==> v == decimal_value(s@.subrange(from as int, to as int)),
{
    let length: usize = to - from;
    if length < 1 || length > 3 {
        return None;
    }
    if length > 1 {
        let first: u8 = s.get_ascii(from);
        assert(s@.subrange(from as int, to as int)[0] == s@[from as int]);
        if first == 48 {
            return None;
        }
    }
    read_number(s, from, to, 255)
}

/// Reads the characters `from..to` of `s` as a run of digits that spells a
/// number of at most `max`.
fn read_number(s: &str, from: usize, to: usize, max: u32) -> (r: Option<u32>)
    requires
        s.is_ascii(),
        from <= to <= s@.len(),
    ensures
        r is Some <==> all_digits(s@.subrange(from as int, to as int)) && decimal_value(
            s@.subrange(from as int, to as int),
        ) <= max,
        r matches Some(v) ==> v == decimal_value(s@.subrange(from as int, to as int)),
{
    let ghost run = s@.subrange(from as int, to as int);
    let mut value: u64 = 0;
    let mut i: usize = from;
    while i < to
        invariant
            s.is_ascii(),
            from <= i <= to <= s@.len(),
            run == s@.subrange(from as int, to as int),
            all_digits(run.subrange(0, i - from)),
            value == decimal_value(run.subrange(0, i - from)),
            value <= max,
        decreases to - i,
    {
        let byte: u8 = s.get_ascii(i);
        let ghost seen = run.subrange(0, i - from);
        let ghost next = run.subrange(0, i + 1 - from);
        proof {
            assert(next.drop_last() =~= seen);
            assert(next.last() == s@[i as int]);
            assert(run[i - from] == s@[i as int]);
        }
        if byte < 48 || byte > 57 {
            assert(!is_digit(s@[i as int]));
            return None;
        }
        assert(is_digit(s@[i as int]));
        value = value * 10 + (byte - 48) as u64;
        assert(value == decimal_value(next));
        if value > max as u64 {
            proof {
                lemma_decimal_value_grows(run, i + 1 - from);
            }
            return None;
        }
        i = i + 1;
    }
    assert(run.subrange(0, to - from) =~= run);
    Some(value as u32)
}

/// The first dot of `s` at or behind `from`, if there is one.
fn find_dot(s: &str, from: usize, n: usize) -> (r: Option<usize>)
    requires
        s.is_ascii(),
        n == s@.len(),
        from <= n,
    ensures
        match r {
            Some(p) => is_first_dot(s@, from as int, p as int),
            None => forall|i: int| from <= i < s@.len() ==> #[trigger] s@[i] != '.',
        },
{
    let mut i: usize = from;
    while i < n
        invariant
            s.is_ascii(),
            n == s@.len(),
            from <= i <= n,
            forall|j: int| from <= j < i ==> #[trigger] s@[j] != '.',
        decreases n - i,
    {
        let byte: u8 = s.get_ascii(i);
        if byte == 46 {
            return Some(i);
        }
        i = i + 1;
    }
    None
}

/// The character that spells the digit `d`.
pub open spec fn digit_char(d: nat) -> char {
    (('0' as u32 + d) as u8) as char
}

/// The digits that spell `v` in base ten, without leading zeros.
pub open spec fn decimal_text(v: nat) -> Seq<char>
    decreases v,
{
    if v < 10 {
        seq![digit_char(v)]
    } else {
        decimal_text(v / 10).push(digit_char(v % 10))
    }
}

/// The dotted decimal text of the address with the octets `a`, `b`, `c`
/// and `d`, most significant first.
pub open spec fn dotted_text(a: u8, b: u8, c: u8, d: u8) -> Seq<char> {
    decimal_text(a as nat) + seq!['.'] + decimal_text(b as nat) + seq!['.'] + decimal_text(c as nat)
        + seq!['.'] + decimal_text(d as nat)
}

/// Whether `p` is the first dot of `s` at or behind `from`.
pub open spec fn is_first_dot(s: Seq<char>, from: int, p: int) -> bool {
    &&& from <= p < s.len()
    &&& s[p] == '.'
    &&& forall|i: int| from <= i < p ==> #[trigger] s[i] != '.'
}

/// A number never shrinks when digits are appended.
pub proof fn lemma_decimal_value_grows(s: Seq<char>, n: int)
    requires
        0 <= n <= s.len(),
    ensures
        decimal_value(s.subrange(0, n)) <= decimal_value(s),
    decreases s.len() - n,
{
    if n == s.len() {
        assert(s.subrange(0, n) =~= s);
    } else {
        lemma_decimal_value_grows(s.drop_last(), n);
        assert(s.drop_last().subrange(0, n) =~= s.subrange(0, n));
    }
}

/// The dots of a dotted address are the first three dots of the text, and
/// no dot follows them.
pub proof fn lemma_dotted_dots(s: Seq<char>, first: int, second: int, third: int)
    requires
        is_dotted_at(s, first, second, third),
    ensures
        is_first_dot(s, 0, first),
        is_first_dot(s, first + 1, second),
        is_first_dot(s, second + 1, third),
        forall|i: int| third < i < s.len() ==> #[trigger] s[i] != '.',
{
    let o1 = s.subrange(0, first);
    let o2 = s.subrange(first + 1, second);
    let o3 = s.subrange(second + 1, third);
    let o4 = s.subrange(third + 1, s.len() as int);
    assert forall|i: int| 0 <= i < first implies #[trigger] s[i] != '.' by {
        assert(is_digit(o1[i]));
    }
    assert forall|i: int| first + 1 <= i < second implies #[trigger] s[i] != '.' by {
        assert(is_digit(o2[i - (first + 1)]));
    }
    assert forall|i: int| second + 1 <= i < third implies #[trigger] s[i] != '.' by {
        assert(is_digit(o3[i - (second + 1)]));
    }
    assert forall|i: int| third < i < s.len() implies #[trigger] s[i] != '.' by {
        assert(is_digit(o4[i - (third + 1)]));
    }
}

/// A text is a dotted address in at most one way.
pub proof fn lemma_dotted_unique(
    s: Seq<char>,
    first: int,
    second: int,
    third: int,
    alt_first: int,
    alt_second: int,
    alt_third: int,
)
    requires
        is_dotted_at(s, first, second, third),
        is_dotted_at(s, alt_first, alt_second, alt_third),
    ensures
        first == alt_first,
        second == alt_second,
        third == alt_third,
{
    lemma_dotted_dots(s, first, second, third);
    lemma_dotted_dots(s, alt_first, alt_second, alt_third);
}

/// Text that spells an address holds ASCII only.
pub proof fn lemma_parsed_is_ascii(s: Seq<char>)
    requires
        parse_ip(s) is Some,
    ensures
        vstd::utf8::is_ascii_chars(s),
{
    if parse_dotted(s) is Some {
        let (first, second, third) = choose|first: int, second: int, third: int|
            is_dotted_at(s, first, second, third);
        let o1 = s.subrange(0, first);
        let o2 = s.subrange(first + 1, second);
        let o3 = s.subrange(second + 1, third);
        let o4 = s.subrange(third + 1, s.len() as int);
        assert forall|i: int| 0 <= i < s.len() implies '\0' <= #[trigger] s[i] <= '\u{7f}' by {
            if i < first {
                assert(is_digit(o1[i]));
            } else if first < i < second {
                assert(is_digit(o2[i - (first + 1)]));
            } else if second < i < third {
                assert(is_digit(o3[i - (second + 1)]));
            } else if third < i {
                assert(is_digit(o4[i - (third + 1)]));
            }
        }
    } else {
        let digits = if s.len() > 0 && s[0] == '+' {
            s.drop_first()
        } else {
            s
        };
        assert forall|i: int| 0 <= i < s.len() implies '\0' <= #[trigger] s[i] <= '\u{7f}' by {
            if s.len() > 0 && s[0] == '+' {
                if i > 0 {
                    assert(is_digit(digits[i - 1]));
                }
            } else {
                assert(is_digit(digits[i]));
            }
        }
    }
}

/// The canonical digits of a number spell that number, start with no zero
/// unless the number is below ten, and are as few as the number needs.
pub proof fn lemma_decimal_text(v: nat)
    ensures
        decimal_text(v).len() >= 1,
        all_digits(decimal_text(v)),
        decimal_value(decimal_text(v)) == v,
        v >= 10 ==> decimal_text(v)[0] != '0',
        v < 10 ==> decimal_text(v).len() == 1,
        v < 100 ==> decimal_text(v).len() <= 2,
        v < 1000 ==> decimal_text(v).len() <= 3,
    decreases v,
{
    let text = decimal_text(v);
    if v < 10 {
        assert(is_digit(digit_char(v)));
        assert(text.drop_last() =~= Seq::<char>::empty());
        assert(decimal_value(text.drop_last()) == 0);
    } else {
        lemma_decimal_text(v / 10);
        assert(is_digit(digit_char(v % 10)));
        assert(text.drop_last() =~= decimal_text(v / 10));
        assert(text[0] == decimal_text(v / 10)[0]);
        if v / 10 < 10 {
            assert(decimal_text(v / 10)[0] == digit_char(v / 10));
        }
    }
}

/// The canonical dotted text and the canonical decimal text of an address
/// both spell the number that its four octets make.
pub proof fn lemma_texts_spell_address(a: u8, b: u8, c: u8, d: u8)
    ensures
        from_octets(a as nat, b as nat, c as nat, d as nat) <= u32::MAX,
        parse_ip(dotted_text(a, b, c, d)) == Some(
            from_octets(a as nat, b as nat, c as nat, d as nat) as u32,
        ),
        parse_ip(decimal_text(from_octets(a as nat, b as nat, c as nat, d as nat))) == Some(
            from_octets(a as nat, b as nat, c as nat, d as nat) as u32,
        ),
{
    let ip = from_octets(a as nat, b as nat, c as nat, d as nat);
    let ta = decimal_text(a as nat);
    let tb = decimal_text(b as nat);
    let tc = decimal_text(c as nat);
    let td = decimal_text(d as nat);
    lemma_decimal_text(a as nat);
    lemma_decimal_text(b as nat);
    lemma_decimal_text(c as nat);
    lemma_decimal_text(d as nat);
    let text = dotted_text(a, b, c, d);
    let first = ta.len() as int;
    let second = first + 1 + tb.len();
    let third = second + 1 + tc.len();
    assert(text.subrange(0, first) =~= ta);
    assert(text.subrange(first + 1, second) =~= tb);
    assert(text.subrange(second + 1, third) =~= tc);
    assert(text.subrange(third + 1, text.len() as int) =~= td);
    assert(is_dotted_at(text, first, second, third));
    let (alt_first, alt_second, alt_third) = choose|dot1: int, dot2: int, dot3: int|
        is_dotted_at(text, dot1, dot2, dot3);
    lemma_dotted_unique(text, first, second, third, alt_first, alt_second, alt_third);

    let number = decimal_text(ip);
    lemma_decimal_text(ip);
    assert forall|alt_first: int, alt_second: int, alt_third: int|
        !is_dotted_at(number, alt_first, alt_second, alt_third) by {
        if is_dotted_at(number, alt_first, alt_second, alt_third) {
            assert(is_digit(number[alt_first]));
        }
    }
    assert(is_digit(number[0]));
}

} // verus!
