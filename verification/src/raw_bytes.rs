//! Raw bytes written in hexadecimal, as taken from XCP/CCP traces or memory
//! dumps: "0xffe6", "ffe6", "ff e6" or "FF E6".
//!
//! The text is trimmed, an optional "0x" / "0X" prefix is removed, all
//! remaining white space is dropped, and the digits are read two bytes of
//! UTF-8 at a time, each pair as a base-16 number.
use vstd::prelude::*;
use vstd::string::StrSliceExecFns;
use crate::text::digit_char;

verus! {

/// Unicode White_Space characters, those `char::is_whitespace` accepts.
pub open spec fn is_white_space(c: char) -> bool {
    let u = c as u32;
    ||| 0x9 <= u <= 0xD
    ||| u == 0x20
    ||| u == 0x85
    ||| u == 0xA0
    ||| u == 0x1680
    ||| 0x2000 <= u <= 0x200A
    ||| u == 0x2028
    ||| u == 0x2029
    ||| u == 0x202F
    ||| u == 0x205F
    ||| u == 0x3000
}

/// Number of leading white-space characters.
pub open spec fn leading_ws(s: Seq<char>) -> nat
    decreases s.len(),
{
    if s.len() == 0 || !is_white_space(s[0]) {
        0
    } else {
        1 + leading_ws(s.drop_first())
    }
}

/// Length of `s` without its trailing white-space characters.
pub open spec fn without_trailing_ws(s: Seq<char>) -> nat
    decreases s.len(),
{
    if s.len() == 0 || !is_white_space(s.last()) {
        s.len()
    } else {
        without_trailing_ws(s.drop_last())
    }
}

/// `s` without leading and trailing white space.
pub open spec fn trimmed(s: Seq<char>) -> Seq<char> {
    let t = s.take(without_trailing_ws(s) as int);
    t.skip(leading_ws(t) as int)
}

/// `s` without a leading "0x" or "0X".
pub open spec fn strip_hex_prefix(s: Seq<char>) -> Seq<char> {
    if s.len() >= 2 && s[0] == '0' && (s[1] == 'x' || s[1] == 'X') {
        s.skip(2)
    } else {
        s
    }
}

/// `s` without any white-space character.
pub open spec fn without_ws(s: Seq<char>) -> Seq<char>
    decreases s.len(),
{
    if s.len() == 0 {
        s
    } else if is_white_space(s.last()) {
        without_ws(s.drop_last())
    } else {
        without_ws(s.drop_last()).push(s.last())
    }
}

/// The hexadecimal digits of a text.
pub open spec fn hex_digits_of(s: Seq<char>) -> Seq<char> {
    without_ws(strip_hex_prefix(trimmed(s)))
}

/// Number of bytes of the UTF-8 encoding of a character.
pub open spec fn utf8_len(c: char) -> nat {
    let u = c as u32;
    if u < 0x80 {
        1
    } else if u < 0x800 {
        2
    } else if u < 0x10000 {
        3
    } else {
        4
    }
}

/// Number of bytes of the UTF-8 encoding of a text.
pub open spec fn utf8_total(s: Seq<char>) -> nat
    decreases s.len(),
{
    if s.len() == 0 {
        0
    } else {
        utf8_total(s.drop_last()) + utf8_len(s.last())
    }
}

/// Value of a hexadecimal digit (either case).
pub open spec fn hex_val(c: char) -> Option<u8> {
    let u = c as u32;
    if 0x30 <= u <= 0x39 {
        Some((u - 0x30) as u8)
    } else if 0x61 <= u <= 0x66 {
        Some((u - 0x61 + 10) as u8)
    } else if 0x41 <= u <= 0x46 {
        Some((u - 0x41 + 10) as u8)
    } else {
        None
    }
}

/// Value of a two-character base-16 number, as `u8::from_str_radix` reads
/// it: two digits, or a '+' sign and one digit.
pub open spec fn pair_value(a: char, b: char) -> Option<u8> {
    if a == '+' {
        hex_val(b)
    } else {
        match (hex_val(a), hex_val(b)) {
            (Some(x), Some(y)) => Some((16 * x + y) as u8),
            _ => None,
        }
    }
}

/// What reading a digit text two bytes at a time gives.
pub enum PairsOutcome {
    /// The bytes of all pairs.
    Bytes(Seq<u8>),
    /// The text of the first pair that is no base-16 number.
    Invalid(Seq<char>),
    /// A two-byte chunk of the first such chunk is not UTF-8 (it splits a
    /// character).
    Splits,
}

/// Reading a digit text two bytes at a time.
pub open spec fn parse_pairs(d: Seq<char>) -> PairsOutcome
    decreases d.len(),
{
    if d.len() == 0 {
        PairsOutcome::Bytes(Seq::empty())
    } else if utf8_len(d[0]) == 1 {
        if d.len() >= 2 && utf8_len(d[1]) == 1 {
            match pair_value(d[0], d[1]) {
                None => PairsOutcome::Invalid(d.take(2)),
                Some(b) => match parse_pairs(d.skip(2)) {
                    PairsOutcome::Bytes(r) => PairsOutcome::Bytes(seq![b] + r),
                    other => other,
                },
            }
        } else {
            PairsOutcome::Splits
        }
    } else if utf8_len(d[0]) == 2 {
        PairsOutcome::Invalid(d.take(1))
    } else {
        PairsOutcome::Splits
    }
}

/// Errors of reading hexadecimal bytes.
#[derive(Debug, Clone, PartialEq)]
pub enum HexBytesError {
    /// The digits (white space removed) have an odd number of bytes.
    OddLength { digits: String },
    /// A two-byte chunk is no base-16 number.
    InvalidByte { chunk: String },
    /// A two-byte chunk splits a multi-byte character.
    SplitCharacter,
}

/// The model of a [`HexBytesError`].
pub enum HexBytesErrorView {
    OddLength { digits: Seq<char> },
    InvalidByte { chunk: Seq<char> },
    SplitCharacter,
}

impl View for HexBytesError {
    type V = HexBytesErrorView;

    open spec fn view(&self) -> HexBytesErrorView {
        match self {
            HexBytesError::OddLength { digits } => HexBytesErrorView::OddLength { digits: digits@ },
            HexBytesError::InvalidByte { chunk } => HexBytesErrorView::InvalidByte { chunk: chunk@ },
            HexBytesError::SplitCharacter => HexBytesErrorView::SplitCharacter,
        }
    }
}

/// Reading hexadecimal bytes from a text.
pub open spec fn spec_parse_hex_bytes(s: Seq<char>) -> Result<Seq<u8>, HexBytesErrorView> {
    let d = hex_digits_of(s);
    if utf8_total(d) % 2 == 1 {
        Err(HexBytesErrorView::OddLength { digits: d })
    } else {
        match parse_pairs(d) {
            PairsOutcome::Bytes(b) => Ok(b),
            PairsOutcome::Invalid(c) => Err(HexBytesErrorView::InvalidByte { chunk: c }),
            PairsOutcome::Splits => Err(HexBytesErrorView::SplitCharacter),
        }
    }
}

fn is_white_space_char(c: char) -> (r: bool)
    ensures
        r == is_white_space(c),
{
    let u = c as u32;
    (0x9 <= u && u <= 0xD) || u == 0x20 || u == 0x85 || u == 0xA0 || u == 0x1680 || (0x2000 <= u && u <= 0x200A)
        || u == 0x2028 || u == 0x2029 || u == 0x202F || u == 0x205F || u == 0x3000
}

fn utf8_len_of(c: char) -> (r: usize)
    ensures
        r == utf8_len(c),
{
    let u = c as u32;
    if u < 0x80 {
        1
    } else if u < 0x800 {
        2
    } else if u < 0x10000 {
        3
    } else {
        4
    }
}

fn hex_val_of(c: char) -> (r: Option<u8>)
    ensures
        r == hex_val(c),
{
    let u = c as u32;
    if 0x30 <= u && u <= 0x39 {
        Some((u - 0x30) as u8)
    } else if 0x61 <= u && u <= 0x66 {
        Some((u - 0x61 + 10) as u8)
    } else if 0x41 <= u && u <= 0x46 {
        Some((u - 0x41 + 10) as u8)
    } else {
        None
    }
}

fn pair_value_of(a: char, b: char) -> (r: Option<u8>)
    ensures
        r == pair_value(a, b),
{
    if a == '+' {
        hex_val_of(b)
    } else {
        match (hex_val_of(a), hex_val_of(b)) {
            (Some(x), Some(y)) => Some(16 * x + y),
            _ => None,
        }
    }
}

/// A string of the given characters.
fn string_of(cs: &[char]) -> (r: String)
    ensures
        r@ == cs@,
{
    let mut s = String::new();
    let mut i: usize = 0;
    while i < cs.len()
        invariant
            i <= cs@.len(),
            s@ == cs@.take(i as int),
        decreases cs@.len() - i,
    {
        assert(cs@.take(i + 1) == cs@.take(i as int).push(cs@[i as int]));
        s.push(cs[i]);
        i = i + 1;
    }
    assert(cs@.take(cs@.len() as int) =~= cs@);
    s
}

/// Index of the first non-white-space character of `cs[from..]`.
fn skip_leading_ws(cs: &Vec<char>, from: usize, to: usize) -> (r: usize)
    requires
        from <= to <= cs@.len(),
    ensures
        from <= r <= to,
        r - from == leading_ws(cs@.subrange(from as int, to as int)),
    decreases to - from,
{
    if from < to && is_white_space_char(cs[from]) {
        assert(cs@.subrange(from as int, to as int).drop_first() =~= cs@.subrange(from + 1, to as int));
        skip_leading_ws(cs, from + 1, to)
    } else {
        from
    }
}

/// Length of `cs[..to]` without its trailing white space.
fn strip_trailing_ws(cs: &Vec<char>, to: usize) -> (r: usize)
    requires
        to <= cs@.len(),
    ensures
        r <= to,
        r == without_trailing_ws(cs@.take(to as int)),
    decreases to,
{
    if to > 0 && is_white_space_char(cs[to - 1]) {
        assert(cs@.take(to as int).drop_last() =~= cs@.take(to - 1));
        strip_trailing_ws(cs, to - 1)
    } else {
        to
    }
}

proof fn lemma_utf8_total_take(s: Seq<char>, i: int)
    requires
        0 <= i < s.len(),
    ensures
        utf8_total(s.take(i + 1)) == utf8_total(s.take(i)) + utf8_len(s[i]),
{
    assert(s.take(i + 1).drop_last() =~= s.take(i));
}

proof fn lemma_without_ws_take(s: Seq<char>, i: int)
    requires
        0 <= i < s.len(),
    ensures
        without_ws(s.take(i + 1)) == if is_white_space(s[i]) {
            without_ws(s.take(i))
        } else {
            without_ws(s.take(i)).push(s[i])
        },
{
    assert(s.take(i + 1).drop_last() =~= s.take(i));
}

/// Parse a hex string like "0xffe6", "ffe6", "ff e6", or "FF E6" into bytes.
pub fn parse_hex_bytes(s: &str) -> (r: Result<Vec<u8>, HexBytesError>)
    ensures
        match r {
            Ok(b) => spec_parse_hex_bytes(s@) == Ok::<Seq<u8>, HexBytesErrorView>(b@),
            Err(e) => spec_parse_hex_bytes(s@) == Err::<Seq<u8>, HexBytesErrorView>(e@),
        },
{
    // The characters of the text.
    let n = s.unicode_len();
    let mut cs: Vec<char> = Vec::new();
    let mut i: usize = 0;
    while i < n
        invariant
            n == s@.len(),
            i <= n,
            cs@ == s@.take(i as int),
        decreases n - i,
    {
        assert(s@.take(i + 1) == s@.take(i as int).push(s@[i as int]));
        cs.push(s.get_char(i));
        i = i + 1;
    }
    assert(s@.take(n as int) =~= s@);
    // Trim, then remove the prefix.
    let end = strip_trailing_ws(&cs, cs.len());
    let start = skip_leading_ws(&cs, 0, end);
    let ghost t = cs@.take(end as int);
    assert(cs@.subrange(0, end as int) =~= t);
    let mut from = start;
    if end - start >= 2 && cs[start] == '0' && (cs[start + 1] == 'x' || cs[start + 1] == 'X') {
        from = start + 2;
    }
    let ghost p = strip_hex_prefix(trimmed(s@));
    assert(trimmed(s@) =~= cs@.subrange(start as int, end as int));
    assert(p =~= cs@.subrange(from as int, end as int));
    // Drop white space.
    let mut digits: Vec<char> = Vec::new();
    let mut odd = false;
    let mut k: usize = from;
    while k < end
        invariant
            from <= k <= end <= cs@.len(),
            p == cs@.subrange(from as int, end as int),
            digits@ == without_ws(p.take(k - from)),
            odd == (utf8_total(digits@) % 2 == 1),
            end <= n,
            n == s@.len(),
            s@.len() <= usize::MAX,
        decreases end - k,
    {
        proof {
            lemma_without_ws_take(p, k - from);
            assert(p[k - from] == cs@[k as int]);
        }
        let c = cs[k];
        if !is_white_space_char(c) {
            proof {
                lemma_utf8_total_take(digits@.push(c), digits@.len() as int);
                assert(digits@.push(c).take(digits@.len() as int) =~= digits@);
                assert(digits@.push(c).take(digits@.len() as int + 1) =~= digits@.push(c));
            }
            digits.push(c);
            let l = utf8_len_of(c);
            odd = odd != (l % 2 == 1);
        }
        k = k + 1;
    }
    assert(p.take(end - from) =~= p);
    let ghost d = digits@;
    assert(d == hex_digits_of(s@));
    if odd {
        return Err(HexBytesError::OddLength { digits: string_of(digits.as_slice()) });
    }
    // Read the pairs.
    let mut out: Vec<u8> = Vec::new();
    let mut j: usize = 0;
    proof {
        assert(d.skip(0) =~= d);
        if let PairsOutcome::Bytes(r) = parse_pairs(d) {
            assert(out@ + r =~= r);
        }
    }
    while j < digits.len()
        invariant
            j <= digits@.len(),
            d == digits@,
            d == hex_digits_of(s@),
            utf8_total(d) % 2 == 0,
            parse_pairs(d) == match parse_pairs(d.skip(j as int)) {
                PairsOutcome::Bytes(r) => PairsOutcome::Bytes(out@ + r),
                other => other,
            },
        decreases digits@.len() - j,
    {
        let ghost rest = d.skip(j as int);
        assert(rest[0] == d[j as int]);
        let c0 = digits[j];
        let l0 = utf8_len_of(c0);
        if l0 == 1 {
            if j + 1 < digits.len() && utf8_len_of(digits[j + 1]) == 1 {
                assert(rest[1] == d[j + 1]);
                match pair_value_of(c0, digits[j + 1]) {
                    None => {
                        let chunk = string_of(&digits.as_slice()[j..j + 2]);
                        assert(chunk@ =~= rest.take(2));
                        return Err(HexBytesError::InvalidByte { chunk });
                    },
                    Some(b) => {
                        assert(rest.skip(2) =~= d.skip(j + 2));
                        assert(out@.push(b) =~= out@ + seq![b]);
                        proof {
                            assert forall|r: Seq<u8>| (out@ + (seq![b] + r)) =~= (out@.push(b) + r) by {}
                        }
                        out.push(b);
                        j = j + 2;
                    },
                }
            } else {
                return Err(HexBytesError::SplitCharacter);
            }
        } else if l0 == 2 {
            let chunk = string_of(&digits.as_slice()[j..j + 1]);
            assert(chunk@ =~= rest.take(1));
            return Err(HexBytesError::InvalidByte { chunk });
        } else {
            return Err(HexBytesError::SplitCharacter);
        }
    }
    assert(d.skip(j as int) =~= Seq::<char>::empty());
    assert(out@ + Seq::<u8>::empty() =~= out@);
    Ok(out)
}

// ========================================================================
// Laws
// ========================================================================

/// Bytes written as upper-case hexadecimal, two digits per byte, without
/// separators.
pub open spec fn hex_text_of(b: Seq<u8>) -> Seq<char>
    decreases b.len(),
{
    if b.len() == 0 {
        Seq::empty()
    } else {
        seq![digit_char((b[0] / 16) as nat), digit_char((b[0] % 16) as nat)] + hex_text_of(b.drop_first())
    }
}

/// An upper-case hexadecimal digit character.
pub open spec fn is_hex_digit_char(c: char) -> bool {
    (0x30 <= c as u32 <= 0x39) || (0x41 <= c as u32 <= 0x46)
}

/// The hexadecimal digit of a value below 16, in lower case ('0'..'9',
/// 'a'..'f') or upper case ('0'..'9', 'A'..'F').
pub open spec fn cased_digit_char(d: nat, lower: bool) -> char {
    if lower && d >= 10 {
        ((87 + d) as u8) as char
    } else {
        digit_char(d)
    }
}

/// Bytes written as hexadecimal in the given case, two digits per byte,
/// without separators.
pub open spec fn cased_hex_text(b: Seq<u8>, lower: bool) -> Seq<char>
    decreases b.len(),
{
    if b.len() == 0 {
        Seq::empty()
    } else {
        seq![cased_digit_char((b[0] / 16) as nat, lower), cased_digit_char((b[0] % 16) as nat, lower)]
            + cased_hex_text(b.drop_first(), lower)
    }
}

/// A hexadecimal digit character of either case.
pub open spec fn is_any_case_hex_digit(c: char) -> bool {
    is_hex_digit_char(c) || (0x61 <= c as u32 <= 0x66)
}

/// Every digit, written in either case, reads back as its value: '0'..'9'
/// are 0..9, and both 'a'..'f' and 'A'..'F' are 10..15.
pub proof fn lemma_hex_digit_values(d: nat, lower: bool)
    requires
        d < 16,
    ensures
        hex_val(cased_digit_char(d, lower)) == Some(d as u8),
        lower && d >= 10 ==> cased_digit_char(d, lower) as u32 == 0x61 + (d - 10),
        !lower && d >= 10 ==> cased_digit_char(d, lower) as u32 == 0x41 + (d - 10),
        d < 10 ==> cased_digit_char(d, lower) as u32 == 0x30 + d,
{
}

proof fn lemma_digit_char(d: nat, lower: bool)
    requires
        d < 16,
    ensures
        is_any_case_hex_digit(cased_digit_char(d, lower)),
        !lower ==> is_hex_digit_char(cased_digit_char(d, lower)),
        hex_val(cased_digit_char(d, lower)) == Some(d as u8),
        cased_digit_char(d, lower) != '+',
        cased_digit_char(d, lower) != 'x',
        cased_digit_char(d, lower) != 'X',
{
}

proof fn lemma_upper_text_is_cased(b: Seq<u8>)
    ensures
        hex_text_of(b) == cased_hex_text(b, false),
    decreases b.len(),
{
    if b.len() > 0 {
        lemma_upper_text_is_cased(b.drop_first());
    }
}

proof fn lemma_hex_text_digits(b: Seq<u8>, lower: bool)
    ensures
        cased_hex_text(b, lower).len() == 2 * b.len(),
        forall|i: int| 0 <= i < cased_hex_text(b, lower).len() ==> is_any_case_hex_digit(#[trigger] cased_hex_text(b, lower)[i]),
    decreases b.len(),
{
    if b.len() > 0 {
        let t = cased_hex_text(b.drop_first(), lower);
        lemma_hex_text_digits(b.drop_first(), lower);
        lemma_digit_char((b[0] / 16) as nat, lower);
        lemma_digit_char((b[0] % 16) as nat, lower);
        let h = seq![cased_digit_char((b[0] / 16) as nat, lower), cased_digit_char((b[0] % 16) as nat, lower)];
        assert forall|i: int| 0 <= i < cased_hex_text(b, lower).len() implies is_any_case_hex_digit(#[trigger] cased_hex_text(b, lower)[i]) by {
            if i >= 2 {
                assert(cased_hex_text(b, lower)[i] == t[i - 2]);
            } else {
                assert(cased_hex_text(b, lower)[i] == h[i]);
            }
        }
    }
}

proof fn lemma_digits_unchanged_by_ws_removal(t: Seq<char>)
    requires
        forall|i: int| 0 <= i < t.len() ==> is_any_case_hex_digit(#[trigger] t[i]),
    ensures
        without_ws(t) == t,
        utf8_total(t) == t.len(),
    decreases t.len(),
{
    if t.len() > 0 {
        let u = t.drop_last();
        assert forall|i: int| 0 <= i < u.len() implies is_any_case_hex_digit(#[trigger] u[i]) by {
            assert(u[i] == t[i]);
        }
        lemma_digits_unchanged_by_ws_removal(u);
        assert(is_any_case_hex_digit(t[t.len() - 1]));
        assert(u.push(t.last()) =~= t);
    }
}

proof fn lemma_parse_hex_text(b: Seq<u8>, lower: bool)
    ensures
        parse_pairs(cased_hex_text(b, lower)) == PairsOutcome::Bytes(b),
    decreases b.len(),
{
    if b.len() > 0 {
        let d = cased_hex_text(b, lower);
        lemma_digit_char((b[0] / 16) as nat, lower);
        lemma_digit_char((b[0] % 16) as nat, lower);
        lemma_parse_hex_text(b.drop_first(), lower);
        assert(d.skip(2) =~= cased_hex_text(b.drop_first(), lower));
        assert(d[0] == cased_digit_char((b[0] / 16) as nat, lower));
        assert(d[1] == cased_digit_char((b[0] % 16) as nat, lower));
        assert(16 * (b[0] / 16) + b[0] % 16 == b[0]);
        assert(utf8_len(d[0]) == 1);
        assert(utf8_len(d[1]) == 1);
        assert(pair_value(d[0], d[1]) == Some(b[0]));
        assert(seq![b[0]] + b.drop_first() =~= b);
    } else {
        assert(b =~= Seq::<u8>::empty());
    }
}

/// A text of hexadecimal digits is taken as it stands, with or without a
/// "0x" prefix.
#[verifier::spinoff_prover]
proof fn lemma_digit_text_is_taken_whole(t: Seq<char>)
    requires
        forall|i: int| 0 <= i < t.len() ==> is_any_case_hex_digit(#[trigger] t[i]),
    ensures
        hex_digits_of(t) == t,
        hex_digits_of(seq!['0', 'x'] + t) == t,
{
    lemma_digits_unchanged_by_ws_removal(t);
    // Without a prefix: nothing to trim, no prefix, no white space.
    assert(without_trailing_ws(t) == t.len()) by {
        if t.len() > 0 {
            assert(is_any_case_hex_digit(t[t.len() - 1]));
        }
    }
    assert(t.take(t.len() as int) =~= t);
    assert(leading_ws(t) == 0) by {
        if t.len() > 0 {
            assert(is_any_case_hex_digit(t[0]));
        }
    }
    assert(t.skip(0) =~= t);
    assert(trimmed(t) == t);
    assert(strip_hex_prefix(t) == t) by {
        if t.len() >= 2 {
            assert(is_any_case_hex_digit(t[1]));
        }
    }
    // With the prefix: trimming keeps the text, the prefix goes.
    let p = seq!['0', 'x'] + t;
    assert(without_trailing_ws(p) == p.len()) by {
        if t.len() > 0 {
            assert(p[p.len() - 1] == t[t.len() - 1]);
            assert(is_any_case_hex_digit(t[t.len() - 1]));
        } else {
            assert(p.last() == 'x');
        }
    }
    assert(p.take(p.len() as int) =~= p);
    assert(leading_ws(p) == 0);
    assert(p.skip(0) =~= p);
    assert(trimmed(p) == p);
    assert(p.skip(2) =~= t);
}

/// Any bytes written as hexadecimal in either case, two digits per byte,
/// read back as the same bytes, with or without a "0x" prefix.
pub proof fn lemma_cased_hex_text_round_trip(b: Seq<u8>, lower: bool)
    ensures
        spec_parse_hex_bytes(cased_hex_text(b, lower)) == Ok::<Seq<u8>, HexBytesErrorView>(b),
        spec_parse_hex_bytes(seq!['0', 'x'] + cased_hex_text(b, lower)) == Ok::<Seq<u8>, HexBytesErrorView>(b),
{
    let t = cased_hex_text(b, lower);
    lemma_hex_text_digits(b, lower);
    lemma_digits_unchanged_by_ws_removal(t);
    lemma_parse_hex_text(b, lower);
    lemma_digit_text_is_taken_whole(t);
}

/// Any bytes written as upper-case hexadecimal, two digits per byte, read
/// back as the same bytes, with or without a "0x" prefix.
pub proof fn lemma_hex_text_round_trip(b: Seq<u8>)
    ensures
        spec_parse_hex_bytes(hex_text_of(b)) == Ok::<Seq<u8>, HexBytesErrorView>(b),
        spec_parse_hex_bytes(seq!['0', 'x'] + hex_text_of(b)) == Ok::<Seq<u8>, HexBytesErrorView>(b),
{
    lemma_upper_text_is_cased(b);
    lemma_cased_hex_text_round_trip(b, false);
}

/// Lower-case and upper-case hexadecimal text of the same bytes read as the
/// same bytes.
pub proof fn lemma_hex_case_does_not_matter(b: Seq<u8>)
    ensures
        spec_parse_hex_bytes(cased_hex_text(b, true)) == spec_parse_hex_bytes(cased_hex_text(b, false)),
        spec_parse_hex_bytes(cased_hex_text(b, true)) == Ok::<Seq<u8>, HexBytesErrorView>(b),
{
    lemma_cased_hex_text_round_trip(b, true);
    lemma_cased_hex_text_round_trip(b, false);
}

} // verus!
