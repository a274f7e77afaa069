//! Character-level building blocks for the line protocol: the character
//! classes the frames use, the JSON number grammar, the hyphenated UUID
//! shape, literal matching and scanning over `&str`, and decimal printing
//! of unsigned counters.

use vstd::prelude::*;
use vstd::string::*;

verus! {

/// A character that may stand unescaped inside a JSON string of the
/// protocol: printable ASCII except the quote and the backslash.
pub open spec fn plain_char(c: char) -> bool {
    0x20 <= (c as u32) && (c as u32) < 0x7f && c != '"' && c != '\\'
}

/// Every character of the sequence is plain.
pub open spec fn is_plain(s: Seq<char>) -> bool {
    forall|i: int| 0 <= i < s.len() ==> plain_char(#[trigger] s[i])
}

pub open spec fn digit_char_p(c: char) -> bool {
    0x30 <= (c as u32) && (c as u32) <= 0x39
}

pub open spec fn hex_char_p(c: char) -> bool {
    digit_char_p(c) || ('a' <= c && c <= 'f') || ('A' <= c && c <= 'F')
}

/// The alphabet a JSON number token is drawn from.
pub open spec fn number_char_p(c: char) -> bool {
    digit_char_p(c) || c == '-' || c == '+' || c == '.' || c == 'e' || c == 'E'
}

/// States of the JSON number grammar, read left to right.
#[derive(Clone, Copy, PartialEq, Eq, Structural)]
pub enum NumState {
    Begin,
    AfterSign,
    ZeroLead,
    Digits,
    AfterDot,
    FracDigits,
    AfterExpMark,
    AfterExpSign,
    ExpoDigits,
}

/// States in which a number token may end.
pub open spec fn num_accepting(st: NumState) -> bool {
    st == NumState::ZeroLead || st == NumState::Digits || st == NumState::FracDigits || st
        == NumState::ExpoDigits
}

/// One transition of the JSON number grammar.
pub open spec fn num_step(st: NumState, c: char) -> Option<NumState> {
    match st {
        NumState::Begin => if c == '-' {
            Some(NumState::AfterSign)
        } else if c == '0' {
            Some(NumState::ZeroLead)
        } else if digit_char_p(c) {
            Some(NumState::Digits)
        } else {
            None
        },
        NumState::AfterSign => if c == '0' {
            Some(NumState::ZeroLead)
        } else if digit_char_p(c) {
            Some(NumState::Digits)
        } else {
            None
        },
        NumState::ZeroLead => if c == '.' {
            Some(NumState::AfterDot)
        } else if c == 'e' || c == 'E' {
            Some(NumState::AfterExpMark)
        } else {
            None
        },
        NumState::Digits => if digit_char_p(c) {
            Some(NumState::Digits)
        } else if c == '.' {
            Some(NumState::AfterDot)
        } else if c == 'e' || c == 'E' {
            Some(NumState::AfterExpMark)
        } else {
            None
        },
        NumState::AfterDot => if digit_char_p(c) {
            Some(NumState::FracDigits)
        } else {
            None
        },
        NumState::FracDigits => if digit_char_p(c) {
            Some(NumState::FracDigits)
        } else if c == 'e' || c == 'E' {
            Some(NumState::AfterExpMark)
        } else {
            None
        },
        NumState::AfterExpMark => if c == '+' || c == '-' {
            Some(NumState::AfterExpSign)
        } else if digit_char_p(c) {
            Some(NumState::ExpoDigits)
        } else {
            None
        },
        NumState::AfterExpSign => if digit_char_p(c) {
            Some(NumState::ExpoDigits)
        } else {
            None
        },
        NumState::ExpoDigits => if digit_char_p(c) {
            Some(NumState::ExpoDigits)
        } else {
            None
        },
    }
}

/// The suffix of `s` from `i` completes a number read in state `st`.
pub open spec fn num_ok_from(s: Seq<char>, i: int, st: NumState) -> bool
    decreases s.len() - i,
    when 0 <= i <= s.len()
{
    if i == s.len() {
        num_accepting(st)
    } else {
        match num_step(st, s[i]) {
            Some(st2) => num_ok_from(s, i + 1, st2),
            None => false,
        }
    }
}

/// `s` is a well-formed JSON number token.
pub open spec fn is_number_token(s: Seq<char>) -> bool {
    num_ok_from(s, 0, NumState::Begin)
}

/// Every character a number token consumes lies in the number alphabet.
pub proof fn lemma_number_token_chars(s: Seq<char>, i: int, st: NumState)
    requires
        0 <= i <= s.len(),
        num_ok_from(s, i, st),
    ensures
        forall|k: int| i <= k < s.len() ==> number_char_p(#[trigger] s[k]),
    decreases s.len() - i,
{
    if i < s.len() {
        let st2 = num_step(st, s[i]).unwrap();
        lemma_number_token_chars(s, i + 1, st2);
    }
}

/// A number token is never empty and all its characters are plain.
pub proof fn lemma_number_token_plain(s: Seq<char>)
    requires
        is_number_token(s),
    ensures
        s.len() > 0,
        is_plain(s),
        forall|k: int| 0 <= k < s.len() ==> number_char_p(#[trigger] s[k]),
{
    lemma_number_token_chars(s, 0, NumState::Begin);
}

/// Checks the number grammar on `s`.
pub fn is_number_str(s: &str) -> (r: bool)
    ensures
        r == is_number_token(s@),
{
    let n = s.unicode_len();
    let mut st = NumState::Begin;
    let mut i: usize = 0;
    while i < n
        invariant
            0 <= i <= n,
            n == s@.len(),
            num_ok_from(s@, i as int, st) == is_number_token(s@),
        decreases n - i,
    {
        let c = s.get_char(i);
        match num_step_exec(st, c) {
            Some(st2) => {
                st = st2;
                i = i + 1;
            },
            None => {
                return false;
            },
        }
    }
    num_accepting_exec(st)
}

/// Executable mirror of `num_step`.
fn num_step_exec(st: NumState, c: char) -> (r: Option<NumState>)
    ensures
        r == num_step(st, c),
{
    let d = c as u32;
    let is_digit = 0x30 <= d && d <= 0x39;
    match st {
        NumState::Begin => if c == '-' {
            Some(NumState::AfterSign)
        } else if c == '0' {
            Some(NumState::ZeroLead)
        } else if is_digit {
            Some(NumState::Digits)
        } else {
            None
        },
        NumState::AfterSign => if c == '0' {
            Some(NumState::ZeroLead)
        } else if is_digit {
            Some(NumState::Digits)
        } else {
            None
        },
        NumState::ZeroLead => if c == '.' {
            Some(NumState::AfterDot)
        } else if c == 'e' || c == 'E' {
            Some(NumState::AfterExpMark)
        } else {
            None
        },
        NumState::Digits => if is_digit {
            Some(NumState::Digits)
        } else if c == '.' {
            Some(NumState::AfterDot)
        } else if c == 'e' || c == 'E' {
            Some(NumState::AfterExpMark)
        } else {
            None
        },
        NumState::AfterDot => if is_digit {
            Some(NumState::FracDigits)
        } else {
            None
        },
        NumState::FracDigits => if is_digit {
            Some(NumState::FracDigits)
        } else if c == 'e' || c == 'E' {
            Some(NumState::AfterExpMark)
        } else {
            None
        },
        NumState::AfterExpMark => if c == '+' || c == '-' {
            Some(NumState::AfterExpSign)
        } else if is_digit {
            Some(NumState::ExpoDigits)
        } else {
            None
        },
        NumState::AfterExpSign => if is_digit {
            Some(NumState::ExpoDigits)
        } else {
            None
        },
        NumState::ExpoDigits => if is_digit {
            Some(NumState::ExpoDigits)
        } else {
            None
        },
    }
}

fn num_accepting_exec(st: NumState) -> (r: bool)
    ensures
        r == num_accepting(st),
{
    match st {
        NumState::ZeroLead | NumState::Digits | NumState::FracDigits | NumState::ExpoDigits => true,
        _ => false,
    }
}

/// `s` has the hyphenated UUID shape: 36 characters, hexadecimal digits
/// with hyphens at positions 8, 13, 18 and 23.
pub open spec fn is_uuid_token(s: Seq<char>) -> bool {
    s.len() == 36 && forall|i: int|
        0 <= i < 36 ==> if i == 8 || i == 13 || i == 18 || i == 23 {
            s[i] == '-'
        } else {
            hex_char_p(#[trigger] s[i])
        }
}

/// A UUID token contains only plain characters.
pub proof fn lemma_uuid_token_plain(s: Seq<char>)
    requires
        is_uuid_token(s),
    ensures
        is_plain(s),
{
}

/// Checks the hyphenated UUID shape on `s`.
pub fn is_uuid_str(s: &str) -> (r: bool)
    ensures
        r == is_uuid_token(s@),
{
    let n = s.unicode_len();
    if n != 36 {
        return false;
    }
    let mut i: usize = 0;
    while i < 36
        invariant
            0 <= i <= 36,
            s@.len() == 36,
            forall|k: int|
                0 <= k < i ==> if k == 8 || k == 13 || k == 18 || k == 23 {
                    s@[k] == '-'
                } else {
                    hex_char_p(#[trigger] s@[k])
                },
        decreases 36 - i,
    {
        let c = s.get_char(i);
        if i == 8 || i == 13 || i == 18 || i == 23 {
            if c != '-' {
                return false;
            }
        } else {
            let d = c as u32;
            let ok = (0x30 <= d && d <= 0x39) || ('a' <= c && c <= 'f') || ('A' <= c && c <= 'F');
            if !ok {
                return false;
            }
        }
        i = i + 1;
    }
    true
}

/// The pattern `pat` stands in `s` at position `i`.
pub open spec fn matches_at(s: Seq<char>, i: int, pat: Seq<char>) -> bool {
    i + pat.len() <= s.len() && s.subrange(i, i + pat.len()) == pat
}

/// Compares `s` at position `i` against `pat`, character by character.
pub fn match_at(s: &str, i: usize, pat: &str) -> (r: bool)
    requires
        i <= s@.len(),
    ensures
        r == matches_at(s@, i as int, pat@),
{
    let n = s.unicode_len();
    let m = pat.unicode_len();
    if m > n - i {
        return false;
    }
    let mut j: usize = 0;
    while j < m
        invariant
            0 <= j <= m,
            m == pat@.len(),
            n == s@.len(),
            i + m <= n,
            forall|k: int| 0 <= k < j ==> s@[i + k] == pat@[k],
        decreases m - j,
    {
        if s.get_char(i + j) != pat.get_char(j) {
            proof {
                assert(s@.subrange(i as int, i + pat@.len())[j as int] == s@[i + j]);
            }
            return false;
        }
        j = j + 1;
    }
    proof {
        assert(s@.subrange(i as int, i + pat@.len()) =~= pat@);
    }
    true
}

/// Returns the first position at or after `i` whose character is not plain,
/// or the end of `s`.
pub fn scan_plain(s: &str, i: usize) -> (j: usize)
    requires
        i <= s@.len(),
    ensures
        i <= j <= s@.len(),
        forall|k: int| i <= k < j ==> plain_char(#[trigger] s@[k]),
        j < s@.len() ==> !plain_char(s@[j as int]),
{
    let n = s.unicode_len();
    let mut j: usize = i;
    while j < n
        invariant
            i <= j <= n,
            n == s@.len(),
            forall|k: int| i <= k < j ==> plain_char(#[trigger] s@[k]),
        decreases n - j,
    {
        let c = s.get_char(j);
        let d = c as u32;
        if !(0x20 <= d && d < 0x7f && c != '"' && c != '\\') {
            return j;
        }
        j = j + 1;
    }
    j
}

/// Returns the first position at or after `i` whose character is outside
/// the number alphabet, or the end of `s`.
pub fn scan_number(s: &str, i: usize) -> (j: usize)
    requires
        i <= s@.len(),
    ensures
        i <= j <= s@.len(),
        forall|k: int| i <= k < j ==> number_char_p(#[trigger] s@[k]),
        j < s@.len() ==> !number_char_p(s@[j as int]),
{
    let n = s.unicode_len();
    let mut j: usize = i;
    while j < n
        invariant
            i <= j <= n,
            n == s@.len(),
            forall|k: int| i <= k < j ==> number_char_p(#[trigger] s@[k]),
        decreases n - j,
    {
        let c = s.get_char(j);
        let d = c as u32;
        let ok = (0x30 <= d && d <= 0x39) || c == '-' || c == '+' || c == '.' || c == 'e' || c
            == 'E';
        if !ok {
            return j;
        }
        j = j + 1;
    }
    j
}

/// The decimal digit character for `n < 10`.
pub open spec fn digit_char_of(n: u64) -> char {
    if n == 0 {
        '0'
    } else if n == 1 {
        '1'
    } else if n == 2 {
        '2'
    } else if n == 3 {
        '3'
    } else if n == 4 {
        '4'
    } else if n == 5 {
        '5'
    } else if n == 6 {
        '6'
    } else if n == 7 {
        '7'
    } else if n == 8 {
        '8'
    } else {
        '9'
    }
}

/// The decimal text of `n`, most significant digit first, no leading zeros.
pub open spec fn spec_u64_digits(n: u64) -> Seq<char>
    decreases n,
{
    if n < 10 {
        seq![digit_char_of(n)]
    } else {
        spec_u64_digits(n / 10) + seq![digit_char_of(n % 10)]
    }
}

fn digit_str(d: u64) -> (r: &'static str)
    requires
        d < 10,
    ensures
        r@ == seq![digit_char_of(d)],
{
    if d == 0 {
        let r = "0";
        proof {
            reveal_strlit("0");
            assert(r@ =~= seq![digit_char_of(d)]);
        }
        r
    } else if d == 1 {
        let r = "1";
        proof {
            reveal_strlit("1");
            assert(r@ =~= seq![digit_char_of(d)]);
        }
        r
    } else if d == 2 {
        let r = "2";
        proof {
            reveal_strlit("2");
            assert(r@ =~= seq![digit_char_of(d)]);
        }
        r
    } else if d == 3 {
        let r = "3";
        proof {
            reveal_strlit("3");
            assert(r@ =~= seq![digit_char_of(d)]);
        }
        r
    } else if d == 4 {
        let r = "4";
        proof {
            reveal_strlit("4");
            assert(r@ =~= seq![digit_char_of(d)]);
        }
        r
    } else if d == 5 {
        let r = "5";
        proof {
            reveal_strlit("5");
            assert(r@ =~= seq![digit_char_of(d)]);
        }
        r
    } else if d == 6 {
        let r = "6";
        proof {
            reveal_strlit("6");
            assert(r@ =~= seq![digit_char_of(d)]);
        }
        r
    } else if d == 7 {
        let r = "7";
        proof {
            reveal_strlit("7");
            assert(r@ =~= seq![digit_char_of(d)]);
        }
        r
    } else if d == 8 {
        let r = "8";
        proof {
            reveal_strlit("8");
            assert(r@ =~= seq![digit_char_of(d)]);
        }
        r
    } else {
        let r = "9";
        proof {
            reveal_strlit("9");
            assert(r@ =~= seq![digit_char_of(d)]);
        }
        r
    }
}

/// The literal `0.0` is a well-formed number token.
pub proof fn lemma_zero_amount_token()
    ensures
        is_number_token("0.0"@),
{
    reveal_strlit("0.0");
    let s = "0.0"@;
    reveal_with_fuel(num_ok_from, 5);
    assert(s.len() == 3);
    assert(num_step(NumState::Begin, s[0]) == Some(NumState::ZeroLead));
    assert(num_step(NumState::ZeroLead, s[1]) == Some(NumState::AfterDot));
    assert(num_step(NumState::AfterDot, s[2]) == Some(NumState::FracDigits));
}

/// Prints `n` in decimal.
pub fn u64_to_string(n: u64) -> (r: String)
    ensures
        r@ == spec_u64_digits(n),
    decreases n,
{
    if n < 10 {
        String::from_str(digit_str(n))
    } else {
        let mut s = u64_to_string(n / 10);
        s.append(digit_str(n % 10));
        s
    }
}

} // verus!
