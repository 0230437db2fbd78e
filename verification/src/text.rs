//! Small text routines: decimal numbers in and out, and the part of a label
//! that precedes its first dot.

use vstd::prelude::*;
use vstd::string::StrSliceExecFns;
use vstd::string::StringExecFns;

verus! {

/// Trusted: `==` on `str` (std's `PartialEq::eq` for `str`) holds exactly
/// when both sides are the same sequence of characters.
pub assume_specification[ <str as PartialEq>::eq ](a: &str, b: &str) -> (r: bool)
    ensures
        r == (a@ == b@),
;

/// Whether a character is one of `0` to `9`.
pub open spec fn is_digit(c: char) -> bool {
    '0' <= c <= '9'
}

/// The number a decimal digit stands for; 0 for any other character.
pub open spec fn digit_value(c: char) -> nat {
    if is_digit(c) {
        (c as int - '0' as int) as nat
    } else {
        0
    }
}

/// The character that writes a number below ten.
pub open spec fn digit_char(d: nat) -> char {
    if d == 0 {
        '0'
    } else if d == 1 {
        '1'
    } else if d == 2 {
        '2'
    } else if d == 3 {
        '3'
    } else if d == 4 {
        '4'
    } else if d == 5 {
        '5'
    } else if d == 6 {
        '6'
    } else if d == 7 {
        '7'
    } else if d == 8 {
        '8'
    } else {
        '9'
    }
}

/// Whether every character of a text is a decimal digit.
pub open spec fn all_digits(s: Seq<char>) -> bool {
    forall|i: int| 0 <= i < s.len() ==> is_digit(#[trigger] s[i])
}

/// The number that a run of decimal digits writes, most significant first.
pub open spec fn digits_value(s: Seq<char>) -> nat
    decreases s.len(),
{
    if s.len() == 0 {
        0
    } else {
        digits_value(s.drop_last()) * 10 + digit_value(s.last())
    }
}

/// The decimal writing of a number, without leading zeros.
pub open spec fn decimal_digits(n: nat) -> Seq<char>
    decreases n,
{
    if n < 10 {
        seq![digit_char(n)]
    } else {
        decimal_digits(n / 10).push(digit_char(n % 10))
    }
}

/// Whether a text starts with a sign: `+`, or `-` where that is allowed.
pub open spec fn has_sign(s: Seq<char>, allow_minus: bool) -> bool {
    s.len() > 0 && (s[0] == '+' || (allow_minus && s[0] == '-'))
}

/// The digits of a number text: what follows the sign, if there is one.
pub open spec fn number_body(s: Seq<char>, allow_minus: bool) -> Seq<char> {
    if has_sign(s, allow_minus) {
        s.skip(1)
    } else {
        s
    }
}

/// What a number text denotes: whether it is negative, and its magnitude.
/// A text denotes a number when it is an optional sign followed by one or
/// more decimal digits whose value does not exceed `limit`.
pub open spec fn number_text(s: Seq<char>, allow_minus: bool, limit: nat) -> Option<(bool, nat)> {
    let body = number_body(s, allow_minus);
    if body.len() > 0 && all_digits(body) && digits_value(body) <= limit {
        Some((has_sign(s, allow_minus) && s[0] == '-', digits_value(body)))
    } else {
        None
    }
}

/// The value of a text as a `u32`, if it denotes one.
pub open spec fn u32_text(s: Seq<char>) -> Option<u32> {
    match number_text(s, false, u32::MAX as nat) {
        Some((_, v)) => Some(v as u32),
        None => None,
    }
}

/// The value of a text as a `u64`, if it denotes one.
pub open spec fn u64_text(s: Seq<char>) -> Option<u64> {
    match number_text(s, false, u64::MAX as nat) {
        Some((_, v)) => Some(v as u64),
        None => None,
    }
}

/// What a text that writes a whole number denotes, whatever its size:
/// whether it is negative, and its magnitude. A text writes a whole number
/// when it is an optional sign followed by one or more decimal digits.
pub open spec fn whole_text(s: Seq<char>, allow_minus: bool) -> Option<(bool, nat)> {
    let body = number_body(s, allow_minus);
    if body.len() > 0 && all_digits(body) {
        Some((has_sign(s, allow_minus) && s[0] == '-', digits_value(body)))
    } else {
        None
    }
}

/// The whole number that a text writes, if it writes one.
pub open spec fn whole_value(s: Seq<char>) -> Option<int> {
    match whole_text(s, true) {
        Some((negative, v)) => Some(
            if negative {
                -(v as int)
            } else {
                v as int
            },
        ),
        None => None,
    }
}

/// Position of the first dot of a text, or its length if it has none.
pub open spec fn dot_index(s: Seq<char>) -> int
    decreases s.len(),
{
    if s.len() == 0 || s[0] == '.' {
        0
    } else {
        1 + dot_index(s.drop_first())
    }
}

/// The part of a text before its first dot; the whole text if it has none.
pub open spec fn before_dot(s: Seq<char>) -> Seq<char> {
    s.take(dot_index(s))
}

/// Two texts joined by a hyphen.
pub open spec fn hyphenated(a: Seq<char>, b: Seq<char>) -> Seq<char> {
    a + seq!['-'] + b
}

/// Appending a character to a run of digits shifts its value by one place.
pub proof fn lemma_digits_push(s: Seq<char>, c: char)
    ensures
        digits_value(s.push(c)) == digits_value(s) * 10 + digit_value(c),
{
    assert(s.push(c).drop_last() =~= s);
}

/// The first dot of a text: nothing before it is a dot, and it is one.
pub proof fn lemma_dot_index(s: Seq<char>)
    ensures
        0 <= dot_index(s) <= s.len(),
        forall|j: int| 0 <= j < dot_index(s) ==> s[j] != '.',
        dot_index(s) < s.len() ==> s[dot_index(s)] == '.',
    decreases s.len(),
{
    if s.len() == 0 || s[0] == '.' {
    } else {
        let t = s.drop_first();
        lemma_dot_index(t);
        assert forall|j: int| 0 <= j < dot_index(s) implies s[j] != '.' by {
            if j > 0 {
                assert(s[j] == t[j - 1]);
            }
        }
        if dot_index(s) < s.len() {
            assert(s[dot_index(s)] == t[dot_index(t)]);
        }
    }
}

/// A position is the first dot of a text if nothing before it is a dot and
/// it is the end of the text or a dot.
pub proof fn lemma_dot_index_unique(s: Seq<char>, n: int)
    requires
        0 <= n <= s.len(),
        forall|j: int| 0 <= j < n ==> s[j] != '.',
        n < s.len() ==> s[n] == '.',
    ensures
        dot_index(s) == n,
{
    lemma_dot_index(s);
    let d = dot_index(s);
    if d < n {
        assert(s[d] != '.');
    } else if n < d {
        assert(s[n] != '.');
    }
}

/// The part of a text before its first dot holds no dot.
pub proof fn lemma_before_dot_has_no_dot(s: Seq<char>)
    ensures
        forall|j: int| 0 <= j < before_dot(s).len() ==> before_dot(s)[j] != '.',
        before_dot(before_dot(s)) == before_dot(s),
{
    lemma_dot_index(s);
    let p = before_dot(s);
    lemma_dot_index_unique(p, p.len() as int);
    assert(p.take(p.len() as int) =~= p);
}

/// The text of one decimal digit.
fn digit_str(d: u128) -> (r: &'static str)
    requires
        d < 10,
    ensures
        r@ == seq![digit_char(d as nat)],
{
    proof {
        reveal_strlit("0");
        reveal_strlit("1");
        reveal_strlit("2");
        reveal_strlit("3");
        reveal_strlit("4");
        reveal_strlit("5");
        reveal_strlit("6");
        reveal_strlit("7");
        reveal_strlit("8");
        reveal_strlit("9");
    }
    let r = if d == 0 {
        "0"
    } else if d == 1 {
        "1"
    } else if d == 2 {
        "2"
    } else if d == 3 {
        "3"
    } else if d == 4 {
        "4"
    } else if d == 5 {
        "5"
    } else if d == 6 {
        "6"
    } else if d == 7 {
        "7"
    } else if d == 8 {
        "8"
    } else {
        "9"
    };
    assert(r@ =~= seq![digit_char(d as nat)]);
    r
}

/// Writes a number in decimal, without leading zeros.
pub fn decimal(n: u128) -> (r: String)
    ensures
        r@ == decimal_digits(n as nat),
    decreases n,
{
    if n < 10 {
        String::from_str(digit_str(n))
    } else {
        let mut r = decimal(n / 10);
        r.append(digit_str(n % 10));
        assert(r@ =~= decimal_digits(n as nat));
        r
    }
}

/// Joins two texts with a hyphen between them.
pub fn join_hyphen(a: &str, b: &str) -> (r: String)
    ensures
        r@ == hyphenated(a@, b@),
{
    proof {
        reveal_strlit("-");
    }
    let mut r = String::from_str(a);
    r.append("-");
    r.append(b);
    assert(r@ =~= hyphenated(a@, b@));
    r
}

/// The part of a text before its first dot; the whole text if it has none.
pub fn prefix_before_dot(s: &str) -> (r: &str)
    ensures
        r@ == before_dot(s@),
{
    let len = s.unicode_len();
    let mut n: usize = 0;
    let mut found = false;
    for c in it: s.chars()
        invariant
            it.seq() == s@,
            s@.len() == len,
            found ==> n < len && s@[n as int] == '.',
            !found ==> n == it.index(),
            n <= it.index(),
            forall|j: int| 0 <= j < n ==> s@[j] != '.',
    {
        if !found {
            if c == '.' {
                found = true;
            } else {
                n += 1;
            }
        }
    }
    proof {
        lemma_dot_index_unique(s@, n as int);
    }
    s.substring_char(0, n)
}

/// Reads a text that writes a whole number: an optional sign, then one or
/// more decimal digits, however many. Gives whether the sign was `-`, and
/// the value of the digits where it is at most `limit`; where it is larger,
/// only that it is.
pub fn scan_whole(s: &str, allow_minus: bool, limit: u64) -> (r: Option<(bool, Option<u64>)>)
    ensures
        match r {
            Some((negative, Some(v))) => v <= limit && whole_text(s@, allow_minus) == Some(
                (negative, v as nat),
            ),
            Some((negative, None)) => match whole_text(s@, allow_minus) {
                Some((sign, magnitude)) => sign == negative && magnitude > limit,
                None => false,
            },
            None => whole_text(s@, allow_minus) is None,
        },
{
    let mut acc: u128 = 0;
    let mut over = false;
    let mut negative = false;
    let mut signed = false;
    let mut started = false;
    let mut any = false;
    for c in it: s.chars()
        invariant
            it.seq() == s@,
            started == (it.index() > 0),
            signed == (started && has_sign(s@, allow_minus)),
            negative == (signed && s@[0] == '-'),
            acc <= limit,
            started ==> {
                let body = s@.subrange(if signed { 1int } else { 0int }, it.index() as int);
                &&& all_digits(body)
                &&& !over ==> acc == digits_value(body)
                &&& over ==> digits_value(body) > limit
                &&& any == (body.len() > 0)
            },
            !started ==> acc == 0 && !any && !over,
    {
        let ghost k = it.index() as int;
        let ghost from = if signed { 1int } else { 0int };
        let ghost whole = number_body(s@, allow_minus);
        if !started && (c == '+' || (allow_minus && c == '-')) {
            signed = true;
            negative = c == '-';
            assert(s@.subrange(1, 1) =~= Seq::<char>::empty());
        } else if c >= '0' && c <= '9' {
            let d: u128 = (c as u32 - '0' as u32) as u128;
            let ghost body = s@.subrange(from, k);
            proof {
                if !started {
                    assert(body =~= Seq::<char>::empty());
                }
                lemma_digits_push(body, c);
                assert(s@.subrange(from, k + 1) =~= body.push(c));
            }
            if !over {
                let next = acc * 10 + d;
                if next > limit as u128 {
                    over = true;
                } else {
                    acc = next;
                }
            }
            any = true;
        } else {
            assert(!is_digit(whole[k - from]));
            return None;
        }
        started = true;
    }
    proof {
        let from = if signed { 1int } else { 0int };
        assert(number_body(s@, allow_minus) =~= s@.subrange(from, s@.len() as int));
    }
    if !any {
        None
    } else if over {
        Some((negative, None))
    } else {
        Some((negative, Some(acc as u64)))
    }
}

/// Reads a number text: an optional sign, then one or more decimal digits
/// whose value is at most `limit`. Gives whether the sign was `-`, and the
/// value of the digits.
pub fn scan_number(s: &str, allow_minus: bool, limit: u64) -> (r: Option<(bool, u64)>)
    ensures
        match r {
            Some((negative, v)) => number_text(s@, allow_minus, limit as nat) == Some(
                (negative, v as nat),
            ),
            None => number_text(s@, allow_minus, limit as nat) is None,
        },
{
    match scan_whole(s, allow_minus, limit) {
        Some((negative, Some(v))) => Some((negative, v)),
        _ => None,
    }
}

/// Whether the whole number that a text writes is above a limit; nothing
/// where the text writes no whole number.
pub fn exceeds(s: &str, limit: u64) -> (r: Option<bool>)
    ensures
        match r {
            Some(above) => whole_value(s@) is Some && above == (whole_value(s@)->0 > limit),
            None => whole_value(s@) is None,
        },
{
    match scan_whole(s, true, limit) {
        Some((negative, Some(_))) => Some(false),
        Some((negative, None)) => Some(!negative),
        None => None,
    }
}

/// Reads a `u32` written in decimal, with an optional leading `+`.
pub fn parse_u32(s: &str) -> (r: Option<u32>)
    ensures
        r == u32_text(s@),
{
    match scan_number(s, false, 0xFFFF_FFFF) {
        Some((_, v)) => Some(v as u32),
        None => None,
    }
}

/// Reads a `u64` written in decimal, with an optional leading `+`.
pub fn parse_u64(s: &str) -> (r: Option<u64>)
    ensures
        r == u64_text(s@),
{
    match scan_number(s, false, 0xFFFF_FFFF_FFFF_FFFF) {
        Some((_, v)) => Some(v),
        None => None,
    }
}

} // verus!
