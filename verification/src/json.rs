//! The JSON subset spoken on the client channel: flat objects whose values
//! are strings, unsigned numbers, booleans and null. Parsing and rendering
//! are defined character by character; the renderer escapes exactly what the
//! parser unescapes.
//!
//! Escapes cover the standard single-character forms and `\uXXXX` for code
//! points below 0x80; numbers are unsigned integers without a leading zero,
//! rejected above the 32-bit range.

use vstd::prelude::*;
use crate::text::{
    all_digits,
    chars_of,
    digit_char,
    digits_val,
    digits_value,
    is_digit,
    lemma_pow10_le,
    pow10,
    push_char,
    range_matches,
};

verus! {

/// One parsed JSON value.
#[derive(Debug)]
pub enum JsonValue {
    Null,
    Bool(bool),
    Num(u32),
    Str(String),
}

/// The mathematical form of a parsed JSON value.
pub ghost enum JsonValueV {
    Null,
    Bool(bool),
    Num(u32),
    Str(Seq<char>),
}

/// The mathematical form of an exec value.
pub open spec fn jv_view(v: JsonValue) -> JsonValueV {
    match v {
        JsonValue::Null => JsonValueV::Null,
        JsonValue::Bool(b) => JsonValueV::Bool(b),
        JsonValue::Num(n) => JsonValueV::Num(n),
        JsonValue::Str(s) => JsonValueV::Str(s@),
    }
}

/// The mathematical form of a member list.
pub open spec fn members_view(ms: Seq<(String, JsonValue)>) -> Seq<(Seq<char>, JsonValueV)> {
    Seq::new(ms.len(), |i: int| (ms[i].0@, jv_view(ms[i].1)))
}

/// JSON whitespace.
pub open spec fn is_ws(c: char) -> bool {
    c == ' ' || c == '\t' || c == '\n' || c == '\r'
}

/// The first non-whitespace position at or after `i`.
pub open spec fn skip_ws(s: Seq<char>, i: int) -> int
    decreases s.len() - i,
{
    if i < 0 || i >= s.len() {
        i
    } else if is_ws(s[i]) {
        skip_ws(s, i + 1)
    } else {
        i
    }
}

/// Skipping whitespace stays inside the string and lands on something that
/// is not whitespace.
pub proof fn lemma_skip_ws(s: Seq<char>, i: int)
    requires
        0 <= i <= s.len(),
    ensures
        i <= skip_ws(s, i) <= s.len(),
        skip_ws(s, i) < s.len() ==> !is_ws(s[skip_ws(s, i)]),
        forall|k: int| i <= k < skip_ws(s, i) ==> is_ws(s[k]),
    decreases s.len() - i,
{
    if i < s.len() && is_ws(s[i]) {
        lemma_skip_ws(s, i + 1);
    }
}

/// Finds the first non-whitespace position at or after `i`.
pub fn skip_ws_exec(v: &Vec<char>, i: usize) -> (r: usize)
    requires
        i <= v@.len(),
    ensures
        r == skip_ws(v@, i as int),
        i <= r <= v@.len(),
{
    proof {
        lemma_skip_ws(v@, i as int);
    }
    let n = v.len();
    let mut k: usize = i;
    while k < n
        invariant
            i <= k <= n,
            n == v@.len(),
            skip_ws(v@, i as int) == skip_ws(v@, k as int),
        decreases n - k,
    {
        let c = v[k];
        if !(c == ' ' || c == '\t' || c == '\n' || c == '\r') {
            return k;
        }
        k += 1;
    }
    k
}

/// The character an escape letter stands for, if it is a legal escape.
pub open spec fn unescaped(e: char) -> Option<char> {
    if e == '"' {
        Some('"')
    } else if e == '\\' {
        Some('\\')
    } else if e == '/' {
        Some('/')
    } else if e == 'n' {
        Some('\n')
    } else if e == 't' {
        Some('\t')
    } else if e == 'r' {
        Some('\r')
    } else if e == 'b' {
        Some((8u8) as char)
    } else if e == 'f' {
        Some((12u8) as char)
    } else {
        None
    }
}

/// The value of a hexadecimal digit, if it is one.
pub open spec fn hex_val(c: char) -> Option<nat> {
    if 48 <= c as u32 <= 57 {
        Some((c as u32 - 48) as nat)
    } else if 97 <= c as u32 <= 102 {
        Some((c as u32 - 87) as nat)
    } else if 65 <= c as u32 <= 70 {
        Some((c as u32 - 55) as nat)
    } else {
        None
    }
}

/// The code point of four hexadecimal digits starting at `i`, if all four
/// are hexadecimal.
pub open spec fn hex4_val(s: Seq<char>, i: int) -> Option<nat> {
    if hex_val(s[i]) is Some && hex_val(s[i + 1]) is Some && hex_val(s[i + 2]) is Some && hex_val(
        s[i + 3],
    ) is Some {
        Some(
            hex_val(s[i]).unwrap() * 4096 + hex_val(s[i + 1]).unwrap() * 256 + hex_val(
                s[i + 2],
            ).unwrap() * 16 + hex_val(s[i + 3]).unwrap(),
        )
    } else {
        None
    }
}

/// The body of a string literal read from position `i` (just past the
/// opening quote) to its closing quote: the unescaped characters and the
/// position just past the closing quote. Unescaped control characters, bad
/// escapes, `\u` escapes at or above 0x80 and a missing closing quote are
/// errors.
pub open spec fn parse_string_body(s: Seq<char>, i: int) -> Option<(Seq<char>, int)>
    decreases s.len() - i,
{
    if i < 0 || i >= s.len() {
        None
    } else if s[i] == '"' {
        Some((Seq::empty(), i + 1))
    } else if s[i] == '\\' {
        if i + 2 > s.len() {
            None
        } else if s[i + 1] == 'u' {
            if i + 6 > s.len() {
                None
            } else {
                match hex4_val(s, i + 2) {
                    Some(code) => if code < 128 {
                        match parse_string_body(s, i + 6) {
                            Some(rest) => Some(
                                (seq![(code as u8) as char] + rest.0, rest.1),
                            ),
                            None => None,
                        }
                    } else {
                        None
                    },
                    None => None,
                }
            }
        } else {
            match unescaped(s[i + 1]) {
                Some(u) => match parse_string_body(s, i + 2) {
                    Some(rest) => Some((seq![u] + rest.0, rest.1)),
                    None => None,
                },
                None => None,
            }
        }
    } else if (s[i] as u32) < 32 {
        None
    } else {
        match parse_string_body(s, i + 1) {
            Some(rest) => Some((seq![s[i]] + rest.0, rest.1)),
            None => None,
        }
    }
}

/// A parsed string body ends past its opening position and inside the
/// string.
pub proof fn lemma_string_body_bounds(s: Seq<char>, i: int)
    requires
        0 <= i,
    ensures
        parse_string_body(s, i) matches Some(p) ==> i + 1 <= p.1 <= s.len(),
    decreases s.len() - i,
{
    if 0 <= i < s.len() {
        if s[i] == '\\' {
            if i + 2 <= s.len() && s[i + 1] == 'u' && i + 6 <= s.len() {
                lemma_string_body_bounds(s, i + 6);
            } else if i + 2 <= s.len() {
                lemma_string_body_bounds(s, i + 2);
            }
        } else {
            lemma_string_body_bounds(s, i + 1);
        }
    }
}

/// The value of a hexadecimal digit, if it is one.
pub fn hex_digit(c: char) -> (r: Option<u32>)
    ensures
        match r {
            Some(v) => hex_val(c) == Some(v as nat) && v < 16,
            None => hex_val(c) is None,
        },
{
    let u = c as u32;
    if 48 <= u && u <= 57 {
        Some(u - 48)
    } else if 97 <= u && u <= 102 {
        Some(u - 87)
    } else if 65 <= u && u <= 70 {
        Some(u - 55)
    } else {
        None
    }
}

/// Reads a string literal's body: the unescaped text and the position just
/// past the closing quote.
pub fn parse_string_body_exec(v: &Vec<char>, i: usize) -> (r: Option<(String, usize)>)
    requires
        i <= v@.len(),
    ensures
        r is Some <==> parse_string_body(v@, i as int) is Some,
        r matches Some(p) ==> (parse_string_body(v@, i as int) matches Some(q) && p.0@ == q.0
            && p.1 == q.1 && p.1 <= v@.len()),
    decreases v@.len() - i,
{
    proof {
        lemma_string_body_bounds(v@, i as int);
    }
    if i >= v.len() {
        return None;
    }
    let c = v[i];
    if c == '"' {
        let s = String::new();
        proof {
            assert(s@ =~= Seq::<char>::empty());
        }
        return Some((s, i + 1));
    }
    if c == '\\' {
        if v.len() - i < 2 {
            return None;
        }
        let e = v[i + 1];
        if e == 'u' {
            if v.len() - i < 6 {
                return None;
            }
            let h0 = hex_digit(v[i + 2]);
            let h1 = hex_digit(v[i + 3]);
            let h2 = hex_digit(v[i + 4]);
            let h3 = hex_digit(v[i + 5]);
            match (h0, h1, h2, h3) {
                (Some(a), Some(b), Some(cc), Some(d)) => {
                    let code = a * 4096 + b * 256 + cc * 16 + d;
                    if code < 128 {
                        match parse_string_body_exec(v, i + 6) {
                            Some((rest, j)) => {
                                let mut out = String::new();
                                push_char(&mut out, (code as u8) as char);
                                out.append(rest.as_str());
                                proof {
                                    assert(out@ =~= seq![(code as u8) as char] + rest@);
                                }
                                Some((out, j))
                            },
                            None => None,
                        }
                    } else {
                        None
                    }
                },
                _ => None,
            }
        } else {
            let u = if e == '"' {
                Some('"')
            } else if e == '\\' {
                Some('\\')
            } else if e == '/' {
                Some('/')
            } else if e == 'n' {
                Some('\n')
            } else if e == 't' {
                Some('\t')
            } else if e == 'r' {
                Some('\r')
            } else if e == 'b' {
                Some((8u8) as char)
            } else if e == 'f' {
                Some((12u8) as char)
            } else {
                None
            };
            match u {
                Some(u) => match parse_string_body_exec(v, i + 2) {
                    Some((rest, j)) => {
                        let mut out = String::new();
                        push_char(&mut out, u);
                        out.append(rest.as_str());
                        proof {
                            assert(out@ =~= seq![u] + rest@);
                        }
                        Some((out, j))
                    },
                    None => None,
                },
                None => None,
            }
        }
    } else if (c as u32) < 32 {
        None
    } else {
        match parse_string_body_exec(v, i + 1) {
            Some((rest, j)) => {
                let mut out = String::new();
                push_char(&mut out, c);
                out.append(rest.as_str());
                proof {
                    assert(out@ =~= seq![c] + rest@);
                }
                Some((out, j))
            },
            None => None,
        }
    }
}

/// The first non-digit position at or after `i`.
pub open spec fn digits_end(s: Seq<char>, i: int) -> int
    decreases s.len() - i,
{
    if i < 0 || i >= s.len() {
        i
    } else if is_digit(s[i]) {
        digits_end(s, i + 1)
    } else {
        i
    }
}

/// The digit run's defining facts.
pub proof fn lemma_digits_end(s: Seq<char>, i: int)
    requires
        0 <= i <= s.len(),
    ensures
        i <= digits_end(s, i) <= s.len(),
        digits_end(s, i) < s.len() ==> !is_digit(s[digits_end(s, i)]),
        forall|k: int| i <= k < digits_end(s, i) ==> is_digit(s[k]),
    decreases s.len() - i,
{
    if i < s.len() && is_digit(s[i]) {
        lemma_digits_end(s, i + 1);
    }
}

/// A nonempty digit string whose first digit is not zero is at least ten to
/// the power of its remaining length.
pub proof fn lemma_digits_val_lower(s: Seq<char>)
    requires
        all_digits(s),
        s.len() > 0,
        s[0] as u32 != 48,
    ensures
        digits_val(s) >= pow10((s.len() - 1) as nat),
    decreases s.len(),
{
    if s.len() == 1 {
        assert(digits_val(s) == digits_val(s.drop_last()) * 10 + crate::text::digit_val(s.last()));
        assert(48 <= s[0] as u32 <= 57);
        assert(crate::text::digit_val(s[0]) >= 1);
    } else {
        assert(all_digits(s.drop_last()));
        assert(s.drop_last()[0] == s[0]);
        lemma_digits_val_lower(s.drop_last());
    }
}

/// Finds the first non-digit position at or after `i`.
pub fn digits_end_exec(v: &Vec<char>, i: usize) -> (r: usize)
    requires
        i <= v@.len(),
    ensures
        r == digits_end(v@, i as int),
        i <= r <= v@.len(),
{
    proof {
        lemma_digits_end(v@, i as int);
    }
    let n = v.len();
    let mut k: usize = i;
    while k < n
        invariant
            i <= k <= n,
            n == v@.len(),
            digits_end(v@, i as int) == digits_end(v@, k as int),
        decreases n - k,
    {
        let c = v[k];
        if (c as u32) < 48 || (c as u32) > 57 {
            return k;
        }
        k += 1;
    }
    k
}

/// The unsigned number read from position `i`: digits without a leading
/// zero, valued within the 32-bit range, and the position just past them.
pub open spec fn parse_number_at(s: Seq<char>, i: int) -> Option<(u32, int)> {
    let end = digits_end(s, i);
    if end == i {
        None
    } else if s[i] as u32 == 48 && end > i + 1 {
        None
    } else if digits_val(s.subrange(i, end)) > u32::MAX {
        None
    } else {
        Some((digits_val(s.subrange(i, end)) as u32, end))
    }
}

/// Reads an unsigned number.
pub fn parse_number_exec(v: &Vec<char>, i: usize) -> (r: Option<(u32, usize)>)
    requires
        i <= v@.len(),
    ensures
        r is Some <==> parse_number_at(v@, i as int) is Some,
        r matches Some(p) ==> (parse_number_at(v@, i as int) matches Some(q) && p.0 == q.0 && p.1
            == q.1 && i < p.1 <= v@.len()),
{
    proof {
        lemma_digits_end(v@, i as int);
    }
    let end = digits_end_exec(v, i);
    if end == i {
        return None;
    }
    let ghost digits = v@.subrange(i as int, end as int);
    proof {
        assert(all_digits(digits));
        assert(digits[0] == v@[i as int]);
    }
    if (v[i] as u32) == 48 && end > i + 1 {
        return None;
    }
    if end - i > 10 {
        proof {
            lemma_digits_val_lower(digits);
            lemma_pow10_le(10, (digits.len() - 1) as nat);
            assert(pow10(10) == 10000000000) by {
                reveal_with_fuel(pow10, 11);
            }
        }
        return None;
    }
    let value = digits_value(v, i, end);
    if value > 0xffff_ffff {
        return None;
    }
    Some((value as u32, end))
}

/// The value read from position `i`: a string, a number, `true`, `false`
/// or `null`, and the position just past it.
pub open spec fn parse_value_at(s: Seq<char>, i: int) -> Option<(JsonValueV, int)> {
    if i < 0 || i >= s.len() {
        None
    } else if s[i] == '"' {
        match parse_string_body(s, i + 1) {
            Some(p) => Some((JsonValueV::Str(p.0), p.1)),
            None => None,
        }
    } else if is_digit(s[i]) {
        match parse_number_at(s, i) {
            Some(p) => Some((JsonValueV::Num(p.0), p.1)),
            None => None,
        }
    } else if i + 4 <= s.len() && s.subrange(i, i + 4) == "true"@ {
        Some((JsonValueV::Bool(true), i + 4))
    } else if i + 5 <= s.len() && s.subrange(i, i + 5) == "false"@ {
        Some((JsonValueV::Bool(false), i + 5))
    } else if i + 4 <= s.len() && s.subrange(i, i + 4) == "null"@ {
        Some((JsonValueV::Null, i + 4))
    } else {
        None
    }
}

/// A parsed value ends past its start and inside the string.
pub proof fn lemma_value_bounds(s: Seq<char>, i: int)
    requires
        0 <= i,
    ensures
        parse_value_at(s, i) matches Some(p) ==> i < p.1 <= s.len(),
{
    if 0 <= i < s.len() {
        if s[i] == '"' {
            lemma_string_body_bounds(s, i + 1);
        } else if is_digit(s[i]) {
            lemma_digits_end(s, i);
        }
    }
}

/// Reads one value.
pub fn parse_value_exec(v: &Vec<char>, i: usize) -> (r: Option<(JsonValue, usize)>)
    requires
        i <= v@.len(),
    ensures
        r is Some <==> parse_value_at(v@, i as int) is Some,
        r matches Some(p) ==> (parse_value_at(v@, i as int) matches Some(q) && jv_view(p.0) == q.0
            && p.1 == q.1 && i < p.1 <= v@.len()),
{
    proof {
        lemma_value_bounds(v@, i as int);
    }
    if i >= v.len() {
        return None;
    }
    let c = v[i];
    if c == '"' {
        match parse_string_body_exec(v, i + 1) {
            Some((text, j)) => Some((JsonValue::Str(text), j)),
            None => None,
        }
    } else if 48 <= (c as u32) && (c as u32) <= 57 {
        match parse_number_exec(v, i) {
            Some((num, j)) => Some((JsonValue::Num(num), j)),
            None => None,
        }
    } else if v.len() - i >= 4 && range_matches(v, i, i + 4, "true") {
        Some((JsonValue::Bool(true), i + 4))
    } else if v.len() - i >= 5 && range_matches(v, i, i + 5, "false") {
        Some((JsonValue::Bool(false), i + 5))
    } else if v.len() - i >= 4 && range_matches(v, i, i + 4, "null") {
        Some((JsonValue::Null, i + 4))
    } else {
        proof {
            if i + 4 <= v@.len() {
                assert(v@.subrange(i as int, i + 4 as int) != "true"@);
                assert(v@.subrange(i as int, i + 4 as int) != "null"@);
            }
            if i + 5 <= v@.len() {
                assert(v@.subrange(i as int, i + 5 as int) != "false"@);
            }
        }
        None
    }
}

/// The member list read from position `i` (at the first key, whitespace
/// already skipped) to the object's closing brace: the key-value pairs in
/// order, and the position just past the brace.
pub open spec fn parse_members(s: Seq<char>, i: int) -> Option<
    (Seq<(Seq<char>, JsonValueV)>, int),
>
    decreases s.len() - i,
{
    if i < 0 || i >= s.len() {
        None
    } else if s[i] != '"' {
        None
    } else {
        match parse_string_body(s, i + 1) {
            None => None,
            Some(key) => {
                let k = skip_ws(s, key.1);
                if k >= s.len() || s[k] != ':' {
                    None
                } else {
                    let v = skip_ws(s, k + 1);
                    match parse_value_at(s, v) {
                        None => None,
                        Some(value) => {
                            let p = skip_ws(s, value.1);
                            if p < s.len() && s[p] == ',' {
                                let q = skip_ws(s, p + 1);
                                proof {
                                    lemma_string_body_bounds(s, i + 1);
                                    lemma_skip_ws(s, key.1);
                                    lemma_skip_ws(s, k + 1);
                                    lemma_value_bounds(s, v);
                                    lemma_skip_ws(s, value.1);
                                    lemma_skip_ws(s, p + 1);
                                }
                                match parse_members(s, q) {
                                    None => None,
                                    Some(rest) => Some(
                                        (seq![(key.0, value.0)] + rest.0, rest.1),
                                    ),
                                }
                            } else if p < s.len() && s[p] == '}' {
                                Some((seq![(key.0, value.0)], p + 1))
                            } else {
                                None
                            }
                        },
                    }
                }
            },
        }
    }
}

/// A parsed member list ends past its start and inside the string.
pub proof fn lemma_members_bounds(s: Seq<char>, i: int)
    requires
        0 <= i,
    ensures
        parse_members(s, i) matches Some(p) ==> i < p.1 <= s.len(),
    decreases s.len() - i,
{
    if 0 <= i < s.len() && s[i] == '"' {
        match parse_string_body(s, i + 1) {
            None => {},
            Some(key) => {
                lemma_string_body_bounds(s, i + 1);
                let k = skip_ws(s, key.1);
                lemma_skip_ws(s, key.1);
                if k < s.len() && s[k] == ':' {
                    let v = skip_ws(s, k + 1);
                    lemma_skip_ws(s, k + 1);
                    match parse_value_at(s, v) {
                        None => {},
                        Some(value) => {
                            lemma_value_bounds(s, v);
                            let p = skip_ws(s, value.1);
                            lemma_skip_ws(s, value.1);
                            if p < s.len() && s[p] == ',' {
                                let q = skip_ws(s, p + 1);
                                lemma_skip_ws(s, p + 1);
                                lemma_members_bounds(s, q);
                            }
                        },
                    }
                }
            },
        }
    }
}

/// Reads the member list from the first key to the closing brace.
pub fn parse_members_exec(v: &Vec<char>, i: usize) -> (r: Option<
    (Vec<(String, JsonValue)>, usize),
>)
    requires
        i <= v@.len(),
    ensures
        r is Some <==> parse_members(v@, i as int) is Some,
        r matches Some(p) ==> (parse_members(v@, i as int) matches Some(q) && members_view(p.0@)
            == q.0 && p.1 == q.1 && p.1 <= v@.len()),
    decreases v@.len() - i,
{
    proof {
        lemma_members_bounds(v@, i as int);
    }
    if i >= v.len() {
        return None;
    }
    if v[i] != '"' {
        return None;
    }
    let (key, j) = match parse_string_body_exec(v, i + 1) {
        None => {
            return None;
        },
        Some(p) => p,
    };
    let k = skip_ws_exec(v, j);
    if k >= v.len() || v[k] != ':' {
        return None;
    }
    let vpos = skip_ws_exec(v, k + 1);
    let (value, m) = match parse_value_exec(v, vpos) {
        None => {
            return None;
        },
        Some(p) => p,
    };
    let p = skip_ws_exec(v, m);
    if p < v.len() && v[p] == ',' {
        let q = skip_ws_exec(v, p + 1);
        proof {
            lemma_string_body_bounds(v@, i + 1 as int);
        }
        match parse_members_exec(v, q) {
            None => None,
            Some((rest, end)) => {
                let mut out: Vec<(String, JsonValue)> = Vec::new();
                out.push((key, value));
                let mut rest = rest;
                let ghost rest0 = rest@;
                let ghost head = out@[0];
                while rest.len() > 0
                    invariant
                        out@ + rest@ == seq![head] + rest0,
                    decreases rest@.len(),
                {
                    let item = rest.remove(0);
                    out.push(item);
                    proof {
                        assert(out@ + rest@ =~= seq![head] + rest0);
                    }
                }
                proof {
                    assert(out@ =~= seq![head] + rest0);
                    assert(members_view(out@) =~= seq![(head.0@, jv_view(head.1))] + members_view(
                        rest0,
                    )) by {
                        assert forall|x: int| 0 <= x < out@.len() implies members_view(out@)[x] == (
                        seq![(head.0@, jv_view(head.1))] + members_view(rest0))[x] by {
                            if x > 0 {
                                assert(out@[x] == rest0[x - 1]);
                                assert(members_view(rest0)[x - 1] == (
                                rest0[x - 1].0@,
                                jv_view(rest0[x - 1].1),
                                ));
                            }
                        }
                    }
                }
                Some((out, end))
            },
        }
    } else if p < v.len() && v[p] == '}' {
        let mut out: Vec<(String, JsonValue)> = Vec::new();
        out.push((key, value));
        proof {
            let ghost spec_r = parse_members(v@, i as int);
            assert(members_view(out@) =~= spec_r.unwrap().0);
        }
        Some((out, p + 1))
    } else {
        None
    }
}

/// The flat object a whole string parses to: its members, when the string
/// is one object with nothing but whitespace around it.
pub open spec fn parse_object(s: Seq<char>) -> Option<Seq<(Seq<char>, JsonValueV)>> {
    let i = skip_ws(s, 0);
    if i >= s.len() || s[i] != '{' {
        None
    } else {
        let j = skip_ws(s, i + 1);
        if j < s.len() && s[j] == '}' {
            if skip_ws(s, j + 1) == s.len() {
                Some(Seq::empty())
            } else {
                None
            }
        } else {
            match parse_members(s, j) {
                None => None,
                Some(ms) => if skip_ws(s, ms.1) == s.len() {
                    Some(ms.0)
                } else {
                    None
                },
            }
        }
    }
}

/// Parses a whole string as one flat object.
pub fn parse_object_exec(input: &str) -> (r: Option<Vec<(String, JsonValue)>>)
    ensures
        r is Some <==> parse_object(input@) is Some,
        r matches Some(ms) ==> (parse_object(input@) matches Some(q) && members_view(ms@) == q),
{
    let v = chars_of(input);
    let i = skip_ws_exec(&v, 0);
    if i >= v.len() || v[i] != '{' {
        return None;
    }
    let j = skip_ws_exec(&v, i + 1);
    if j < v.len() && v[j] == '}' {
        if skip_ws_exec(&v, j + 1) == v.len() {
            let out: Vec<(String, JsonValue)> = Vec::new();
            proof {
                assert(members_view(out@) =~= Seq::<(Seq<char>, JsonValueV)>::empty());
            }
            return Some(out);
        }
        return None;
    }
    match parse_members_exec(&v, j) {
        None => None,
        Some((ms, end)) => {
            if skip_ws_exec(&v, end) == v.len() {
                Some(ms)
            } else {
                None
            }
        },
    }
}

/// The first value held under a key at or after position `i`, if any.
pub open spec fn lookup_from(
    ms: Seq<(Seq<char>, JsonValueV)>,
    key: Seq<char>,
    i: int,
) -> Option<JsonValueV>
    decreases ms.len() - i,
{
    if i < 0 || i >= ms.len() {
        None
    } else if ms[i].0 == key {
        Some(ms[i].1)
    } else {
        lookup_from(ms, key, i + 1)
    }
}

/// The first value held under a key, if any.
pub open spec fn lookup_member(ms: Seq<(Seq<char>, JsonValueV)>, key: Seq<char>) -> Option<
    JsonValueV,
> {
    lookup_from(ms, key, 0)
}

/// Looks a key up in a parsed member list.
pub fn lookup_exec<'a>(ms: &'a Vec<(String, JsonValue)>, key: &str) -> (r: Option<&'a JsonValue>)
    ensures
        match r {
            Some(value) => lookup_member(members_view(ms@), key@) == Some(jv_view(*value)),
            None => lookup_member(members_view(ms@), key@) is None,
        },
{
    let n = ms.len();
    let mut i: usize = 0;
    while i < n
        invariant
            i <= n,
            n == ms@.len(),
            lookup_member(members_view(ms@), key@) == lookup_from(
                members_view(ms@),
                key@,
                i as int,
            ),
        decreases n - i,
    {
        if crate::text::str_eq(ms[i].0.as_str(), key) {
            proof {
                assert(members_view(ms@)[i as int].0 == key@);
            }
            return Some(&ms[i].1);
        }
        proof {
            assert(members_view(ms@)[i as int].0 == ms@[i as int].0@);
        }
        i += 1;
    }
    None
}

/// The lowercase hexadecimal digit of a value below sixteen.
pub open spec fn hex_char(v: nat) -> char {
    if v < 10 {
        digit_char(v)
    } else {
        ((87 + v) as u8) as char
    }
}

/// How one character is written inside a JSON string: quotes, backslashes,
/// the named control escapes, a `\u00XX` escape for other control
/// characters, and everything else as itself.
pub open spec fn escape_seq(c: char) -> Seq<char> {
    if c == '"' {
        seq!['\\', '"']
    } else if c == '\\' {
        seq!['\\', '\\']
    } else if c == '\n' {
        seq!['\\', 'n']
    } else if c == '\r' {
        seq!['\\', 'r']
    } else if c == '\t' {
        seq!['\\', 't']
    } else if (c as u32) < 32 {
        seq!['\\', 'u', '0', '0', hex_char((c as u32 / 16) as nat), hex_char((c as u32 % 16) as nat)]
    } else {
        seq![c]
    }
}

/// A whole string escaped for JSON, character by character.
pub open spec fn json_escaped(s: Seq<char>) -> Seq<char>
    decreases s.len(),
{
    if s.len() == 0 {
        Seq::empty()
    } else {
        json_escaped(s.drop_last()) + escape_seq(s.last())
    }
}

/// The lowercase hexadecimal digit of a value below sixteen.
fn hex_of(v: u32) -> (r: char)
    requires
        v < 16,
    ensures
        r == hex_char(v as nat),
{
    if v < 10 {
        crate::text::digit_of(v)
    } else {
        ((87 + v) as u8) as char
    }
}

/// Appends a string as a quoted, escaped JSON string literal.
pub fn append_json_quoted(out: &mut String, s: &str)
    ensures
        final(out)@ == old(out)@ + seq!['"'] + json_escaped(s@) + seq!['"'],
{
    push_char(out, '"');
    let v = chars_of(s);
    let n = v.len();
    let mut i: usize = 0;
    while i < n
        invariant
            i <= n,
            n == v@.len(),
            v@ == s@,
            out@ == old(out)@ + seq!['"'] + json_escaped(s@.subrange(0, i as int)),
        decreases n - i,
    {
        let c = v[i];
        proof {
            assert(s@.subrange(0, i + 1 as int).drop_last() =~= s@.subrange(0, i as int));
            assert(s@.subrange(0, i + 1 as int).last() == c);
        }
        if c == '"' {
            push_char(out, '\\');
            push_char(out, '"');
        } else if c == '\\' {
            push_char(out, '\\');
            push_char(out, '\\');
        } else if c == '\n' {
            push_char(out, '\\');
            push_char(out, 'n');
        } else if c == '\r' {
            push_char(out, '\\');
            push_char(out, 'r');
        } else if c == '\t' {
            push_char(out, '\\');
            push_char(out, 't');
        } else if (c as u32) < 32 {
            push_char(out, '\\');
            push_char(out, 'u');
            push_char(out, '0');
            push_char(out, '0');
            push_char(out, hex_of((c as u32) / 16));
            push_char(out, hex_of((c as u32) % 16));
        } else {
            push_char(out, c);
        }
        proof {
            assert(out@ =~= old(out)@ + seq!['"'] + json_escaped(s@.subrange(0, i + 1 as int)));
        }
        i += 1;
    }
    proof {
        assert(s@.subrange(0, n as int) =~= s@);
    }
    push_char(out, '"');
}

} // verus!
