//! The two kinds of number that an attribute can hold: identifiers, which
//! are decimal integers, and coordinates, which are decimal fractions kept
//! as the text they were written in.

use vstd::prelude::*;
use vstd::string::*;

verus! {

/// The identifier of a node, a way or a relation.
pub type Id = i64;

/// `std::num::ParseIntError`, what the standard library fails with where a
/// text spells no integer. Nothing is known of it.
#[verifier::external_type_specification]
#[verifier::external_body]
pub struct ExParseIntError(std::num::ParseIntError);

/// `c` is one of the ten decimal digits.
pub open spec fn is_digit(c: char) -> bool {
    '0' <= c && c <= '9'
}

/// `c` is a plus or a minus.
pub open spec fn is_sign(c: char) -> bool {
    c == '+' || c == '-'
}

/// Every character of `s` from `from` up to `to` is a decimal digit.
pub open spec fn digits(s: Seq<char>, from: int, to: int) -> bool {
    forall|i: int| from <= i < to ==> is_digit(#[trigger] s[i])
}

/// The number that the digit `c` stands for.
pub open spec fn digit_value(c: char) -> int {
    c as int - '0' as int
}

/// The number that the digits of `s` before `to` and from `from` on spell.
pub open spec fn decimal(s: Seq<char>, from: int, to: int) -> int
    decreases to - from,
{
    if from < to {
        decimal(s, from, to - 1) * 10 + digit_value(s[to - 1])
    } else {
        0
    }
}

/// The integer that `text` spells: an optional sign, then one or more
/// decimal digits and nothing else.
pub open spec fn integer_of(text: Seq<char>) -> Option<int> {
    let from: int = if text.len() > 0 && is_sign(text[0]) { 1 } else { 0 };
    if from < text.len() && digits(text, from, text.len() as int) {
        let magnitude = decimal(text, from, text.len() as int);
        Some(if from == 1 && text[0] == '-' { -magnitude } else { magnitude })
    } else {
        None
    }
}

/// The identifier that `text` spells, if it spells an integer of 64 bits.
pub open spec fn id_of(text: Seq<char>) -> Option<Id> {
    match integer_of(text) {
        Some(value) => if i64::MIN <= value <= i64::MAX {
            Some(value as i64)
        } else {
            None
        },
        None => None,
    }
}

/// `str::parse::<i64>`: succeeds exactly on an optional sign followed by
/// one or more decimal digits whose value fits in 64 bits, and then gives
/// that value. Which error it gives otherwise is left open.
#[verifier::external_body]
pub(crate) fn parse_id(text: &str) -> (parsed: Result<Id, std::num::ParseIntError>)
    ensures
        match id_of(text@) {
            Some(id) => parsed == Ok::<Id, std::num::ParseIntError>(id),
            None => parsed is Err,
        },
{
    text.parse::<i64>()
}

/// A mantissa: digits, with at most one point among them and at least one
/// digit on one side of it.
pub open spec fn is_mantissa(s: Seq<char>, from: int, to: int) -> bool {
    &&& from < to
    &&& (digits(s, from, to) || exists|dot: int|
        from <= dot < to && #[trigger] s[dot] == '.' && digits(s, from, dot) && digits(
            s,
            dot + 1,
            to,
        ) && to - from > 1)
}

/// An exponent: the letter e, an optional sign, and one or more digits.
pub open spec fn is_exponent(s: Seq<char>, from: int, to: int) -> bool {
    &&& from < to
    &&& (s[from] == 'e' || s[from] == 'E')
    &&& {
        let first: int = if from + 1 < to && is_sign(s[from + 1]) { from + 2 } else { from + 1 };
        first < to && digits(s, first, to)
    }
}

/// A mantissa, and an exponent after it or none.
pub open spec fn is_number(s: Seq<char>, from: int, to: int) -> bool {
    is_mantissa(s, from, to) || exists|cut: int|
        from < cut < to && #[trigger] is_mantissa(s, from, cut) && is_exponent(s, cut, to)
}

/// `c` is the lower-case letter `letter`, or the upper-case one that goes with it.
pub open spec fn is_letter(c: char, letter: char) -> bool {
    c == letter || c as int + 32 == letter as int
}

/// The characters of `s` from `from` on spell `word`, in whatever case.
pub open spec fn spells(s: Seq<char>, from: int, word: Seq<char>) -> bool {
    &&& s.len() - from == word.len()
    &&& forall|i: int| 0 <= i < word.len() ==> is_letter(#[trigger] s[from + i], word[i])
}

/// One of the values that have a name: infinity and not-a-number.
pub open spec fn is_named_value(s: Seq<char>, from: int) -> bool {
    ||| spells(s, from, seq!['i', 'n', 'f'])
    ||| spells(s, from, seq!['n', 'a', 'n'])
    ||| spells(s, from, seq!['i', 'n', 'f', 'i', 'n', 'i', 't', 'y'])
}

/// `text` is a decimal fraction as the standard library reads one: an
/// optional sign, then a named value or a number. No blanks around it.
pub open spec fn is_float_text(text: Seq<char>) -> bool {
    let from: int = if text.len() > 0 && is_sign(text[0]) { 1 } else { 0 };
    is_named_value(text, from) || is_number(text, from, text.len() as int)
}

/// A latitude or a longitude in degrees, kept as the text that the document
/// gives for it. The text is always one that reads as a decimal fraction.
#[derive(Debug, PartialEq)]
pub struct Coordinate {
    text: String,
}

impl View for Coordinate {
    type V = Seq<char>;

    closed spec fn view(&self) -> Seq<char> {
        self.text@
    }
}

impl Clone for Coordinate {
    fn clone(&self) -> (copy: Self)
        ensures
            copy@ == self@,
    {
        proof {
            use_type_invariant(self);
        }
        Coordinate { text: self.text.clone() }
    }
}

impl Coordinate {
    #[verifier::type_invariant]
    spec fn well_formed(&self) -> bool {
        is_float_text(self.text@)
    }

    /// The coordinate that `text` spells, or nothing where it spells none.
    pub fn parse(text: &str) -> (parsed: Option<Coordinate>)
        ensures
            match parsed {
                Some(coordinate) => is_float_text(text@) && coordinate@ == text@,
                None => !is_float_text(text@),
            },
    {
        if is_float(text) {
            Some(Coordinate { text: text.to_owned() })
        } else {
            None
        }
    }

    /// The text of the coordinate.
    pub fn as_str(&self) -> (text: &str)
        ensures
            text@ == self@,
            is_float_text(text@),
    {
        proof {
            use_type_invariant(self);
        }
        self.text.as_str()
    }
}

/// The number of characters of a text that holds ASCII characters only.
fn ascii_len(text: &str) -> (n: usize)
    requires
        text.is_ascii(),
    ensures
        n == text@.len(),
{
    proof {
        is_ascii_spec_bytes(text);
    }
    text.as_bytes().len()
}

/// The character at `i` of a text that holds ASCII characters only.
fn ascii_at(text: &str, i: usize) -> (c: u8)
    requires
        text.is_ascii(),
        i < text@.len(),
    ensures
        c as char == text@[i as int],
        c < 128,
{
    let c = text.get_ascii(i);
    c
}

/// The end of the digits of `text` that start at `from`.
fn skip_digits(text: &str, from: usize) -> (end: usize)
    requires
        text.is_ascii(),
        from <= text@.len(),
    ensures
        from <= end <= text@.len(),
        digits(text@, from as int, end as int),
        end < text@.len() ==> !is_digit(text@[end as int]),
{
    let n = ascii_len(text);
    let mut end = from;
    while end < n
        invariant
            text.is_ascii(),
            n == text@.len(),
            from <= end <= n,
            digits(text@, from as int, end as int),
        decreases n - end,
    {
        let c = ascii_at(text, end);
        if c < 48 || c > 57 {
            return end;
        }
        end += 1;
    }
    end
}

/// Whether the characters of `text` from `from` on spell `word`, which is
/// written in lower case.
fn spells_word(text: &str, from: usize, word: &str) -> (r: bool)
    requires
        text.is_ascii(),
        word.is_ascii(),
        from <= text@.len(),
        forall|i: int| 0 <= i < word@.len() ==> 'a' <= #[trigger] word@[i] <= 'z',
    ensures
        r == spells(text@, from as int, word@),
{
    let n = ascii_len(text);
    let m = ascii_len(word);
    if n - from != m {
        return false;
    }
    let mut i: usize = 0;
    while i < m
        invariant
            text.is_ascii(),
            word.is_ascii(),
            n == text@.len(),
            m == word@.len(),
            from + m == n,
            i <= m,
            forall|j: int| 0 <= j < i ==> is_letter(#[trigger] text@[from + j], word@[j]),
            forall|j: int| 0 <= j < word@.len() ==> 'a' <= #[trigger] word@[j] <= 'z',
        decreases m - i,
    {
        let c = ascii_at(text, from + i);
        let w = ascii_at(word, i);
        if c != w && !(c < 128 - 32 && c + 32 == w) {
            return false;
        }
        i += 1;
    }
    true
}

/// What a scan from `from` finds: the digits end at `a`; where a point
/// stands there, the digits after it end at `b`, and else `b` is `a`.
spec fn scanned(text: Seq<char>, from: int, a: int, b: int) -> bool {
    &&& 0 <= from <= a <= b <= text.len()
    &&& digits(text, from, a)
    &&& (a == text.len() || !is_digit(text[a]))
    &&& if a < text.len() && text[a] == '.' {
        &&& a < b
        &&& digits(text, a + 1, b)
        &&& (b == text.len() || !is_digit(text[b]))
    } else {
        b == a
    }
}

/// Whether the scan found a digit.
spec fn scanned_digit(text: Seq<char>, from: int, a: int, b: int) -> bool {
    if a < text.len() && text[a] == '.' {
        b - from >= 2
    } else {
        a > from
    }
}

/// A scan that found no digit leaves no mantissa to start at `from`.
proof fn lemma_no_mantissa(text: Seq<char>, from: int, a: int, b: int, cut: int)
    requires
        scanned(text, from, a, b),
        !scanned_digit(text, from, a, b),
        from < cut <= text.len(),
    ensures
        !is_mantissa(text, from, cut),
{
}

/// The mantissa that the scan found is the only one that an exponent can follow.
proof fn lemma_mantissa_before_exponent(text: Seq<char>, from: int, a: int, b: int, cut: int)
    requires
        scanned(text, from, a, b),
        from < cut < text.len(),
        is_mantissa(text, from, cut),
        text[cut] == 'e' || text[cut] == 'E',
    ensures
        cut == b,
{
}

/// Where the scan stops before the end, no mantissa reaches the end.
proof fn lemma_mantissa_stops(text: Seq<char>, from: int, a: int, b: int)
    requires
        scanned(text, from, a, b),
        b < text.len(),
    ensures
        !is_mantissa(text, from, text.len() as int),
{
}

/// Whether `text` reads as a decimal fraction.
pub fn is_float(text: &str) -> (r: bool)
    ensures
        r == is_float_text(text@),
{
    if !text.is_ascii() {
        proof {
            if is_float_text(text@) {
                lemma_float_text_is_ascii(text@);
            }
        }
        return false;
    }
    let n = ascii_len(text);
    let from: usize = if n > 0 && (ascii_at(text, 0) == 43 || ascii_at(text, 0) == 45) {
        1
    } else {
        0
    };
    proof {
        reveal_strlit("inf");
        reveal_strlit("nan");
        reveal_strlit("infinity");
    }
    if spells_word(text, from, "inf") || spells_word(text, from, "nan") || spells_word(
        text,
        from,
        "infinity",
    ) {
        return true;
    }
    let a = skip_digits(text, from);
    let dotted = a < n && ascii_at(text, a) == 46;
    let b = if dotted { skip_digits(text, a + 1) } else { a };
    let found = if dotted { b - from >= 2 } else { a > from };
    if !found {
        proof {
            assert forall|cut: int| from < cut <= n implies !#[trigger] is_mantissa(
                text@,
                from as int,
                cut,
            ) by {
                lemma_no_mantissa(text@, from as int, a as int, b as int, cut);
            }
        }
        return false;
    }
    assert(is_mantissa(text@, from as int, b as int));
    if b == n {
        return true;
    }
    proof {
        lemma_mantissa_stops(text@, from as int, a as int, b as int);
        assert forall|cut: int|
            from < cut < n && #[trigger] is_mantissa(text@, from as int, cut) && is_exponent(
                text@,
                cut,
                n as int,
            ) implies cut == b by {
            lemma_mantissa_before_exponent(text@, from as int, a as int, b as int, cut);
        }
    }
    let c = ascii_at(text, b);
    if c != 101 && c != 69 {
        return false;
    }
    let first: usize = if b + 1 < n && (ascii_at(text, b + 1) == 43 || ascii_at(text, b + 1)
        == 45) {
        b + 2
    } else {
        b + 1
    };
    if first >= n {
        return false;
    }
    let end = skip_digits(text, first);
    end == n
}

/// A text that reads as a decimal fraction holds ASCII characters only.
pub proof fn lemma_float_text_is_ascii(text: Seq<char>)
    requires
        is_float_text(text),
    ensures
        vstd::utf8::is_ascii_chars(text),
{
    let from: int = if text.len() > 0 && is_sign(text[0]) { 1 } else { 0 };
    let n = text.len() as int;
    assert forall|i: int| 0 <= i < n implies '\0' <= #[trigger] text[i] <= '\u{7f}' by {
        if i >= from && is_named_value(text, from) {
            let k = i - from;
            if spells(text, from, seq!['i', 'n', 'f']) {
                assert(is_letter(text[from + k], seq!['i', 'n', 'f'][k]));
            } else if spells(text, from, seq!['n', 'a', 'n']) {
                assert(is_letter(text[from + k], seq!['n', 'a', 'n'][k]));
            } else {
                assert(is_letter(
                    text[from + k],
                    seq!['i', 'n', 'f', 'i', 'n', 'i', 't', 'y'][k],
                ));
            }
        }
    }
}

} // verus!
