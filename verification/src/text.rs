//! Character-level utilities shared by the wire-protocol parsers and the
//! JSON rendering: string equality, digit handling, and decimal rendering.

use vstd::prelude::*;

verus! {

/// Compares two string slices by their character sequences.
pub fn str_eq(a: &str, b: &str) -> (r: bool)
    ensures
        r == (a@ == b@),
{
    let alen = a.unicode_len();
    let blen = b.unicode_len();
    if alen != blen {
        proof {
            assert(a@ != b@) by {
                assert(a@.len() != b@.len());
            }
        }
        return false;
    }
    let mut i: usize = 0;
    while i < alen
        invariant
            alen == a@.len(),
            alen == b@.len(),
            i <= alen,
            forall|j: int| 0 <= j < i ==> a@[j] == b@[j],
        decreases alen - i,
    {
        if a.get_char(i) != b.get_char(i) {
            return false;
        }
        i += 1;
    }
    proof {
        assert(a@ =~= b@);
    }
    true
}

/// Copies the characters of a string slice into a vector, so that parsers
/// can index it directly.
pub fn chars_of(s: &str) -> (r: Vec<char>)
    ensures
        r@ == s@,
{
    let len = s.unicode_len();
    let mut out: Vec<char> = Vec::new();
    let mut i: usize = 0;
    while i < len
        invariant
            len == s@.len(),
            i <= len,
            out@ == s@.subrange(0, i as int),
        decreases len - i,
    {
        out.push(s.get_char(i));
        proof {
            assert(out@ =~= s@.subrange(0, i + 1 as int));
        }
        i += 1;
    }
    proof {
        assert(out@ =~= s@);
    }
    out
}

/// Relies on String::push: appends exactly one character at the end.
#[verifier::external_body]
pub fn push_char(s: &mut String, c: char)
    ensures
        final(s)@ == old(s)@.push(c),
{
    s.push(c);
}

/// Whether a character is a decimal digit.
pub open spec fn is_digit(c: char) -> bool {
    48 <= c as u32 <= 57
}

/// The numeric value of a digit character.
pub open spec fn digit_val(c: char) -> nat {
    (c as u32 - 48) as nat
}

/// The digit character for a value below ten.
pub open spec fn digit_char(v: nat) -> char {
    ((48 + v) as u8) as char
}

/// The value of a digit string, most significant digit first.
pub open spec fn digits_val(s: Seq<char>) -> nat
    decreases s.len(),
{
    if s.len() == 0 {
        0
    } else {
        digits_val(s.drop_last()) * 10 + digit_val(s.last())
    }
}

/// Whether every character of a string is a decimal digit.
pub open spec fn all_digits(s: Seq<char>) -> bool {
    forall|i: int| 0 <= i < s.len() ==> is_digit(#[trigger] s[i])
}

/// The canonical decimal rendering of a number: no sign, no leading zero
/// except for the number zero itself.
pub open spec fn dec_digits(n: nat) -> Seq<char>
    decreases n,
{
    if n < 10 {
        seq![digit_char(n)]
    } else {
        dec_digits(n / 10).push(digit_char(n % 10))
    }
}

/// Appends the decimal rendering of a number to a string.
pub fn append_u32(out: &mut String, n: u32)
    ensures
        final(out)@ == old(out)@ + dec_digits(n as nat),
    decreases n,
{
    if n < 10 {
        push_char(out, digit_of(n));
    } else {
        append_u32(out, n / 10);
        push_char(out, digit_of(n % 10));
    }
}

/// The digit character of a value below ten.
pub fn digit_of(n: u32) -> (r: char)
    requires
        n < 10,
    ensures
        r == digit_char(n as nat),
{
    (48 + n as u8) as char
}

/// Compares a slice of the character vector with a literal.
pub fn range_matches(v: &Vec<char>, lo: usize, hi: usize, lit: &str) -> (r: bool)
    requires
        lo <= hi <= v@.len(),
    ensures
        r == (v@.subrange(lo as int, hi as int) == lit@),
{
    let n = lit.unicode_len();
    if hi - lo != n {
        proof {
            assert(v@.subrange(lo as int, hi as int).len() == hi - lo);
        }
        return false;
    }
    let mut i: usize = 0;
    while i < n
        invariant
            lo <= hi <= v@.len(),
            n == lit@.len(),
            n == hi - lo,
            i <= n,
            forall|j: int| 0 <= j < i ==> v@[lo + j] == lit@[j],
        decreases n - i,
    {
        if v[lo + i] != lit.get_char(i) {
            proof {
                assert(v@.subrange(lo as int, hi as int)[i as int] == v@[lo + i]);
            }
            return false;
        }
        i += 1;
    }
    proof {
        assert(v@.subrange(lo as int, hi as int) =~= lit@);
    }
    true
}

/// The least index in `[from, end)` holding the character, or `end` when
/// none does.
pub open spec fn find_in(s: Seq<char>, c: char, from: int, end: int) -> int
    decreases end - from,
{
    if from >= end {
        end
    } else if s[from] == c {
        from
    } else {
        find_in(s, c, from + 1, end)
    }
}

/// The search's defining facts: the result is the least match, and every
/// earlier position differs from the character.
pub proof fn lemma_find_in(s: Seq<char>, c: char, from: int, end: int)
    requires
        0 <= from <= end,
        end <= s.len(),
    ensures
        from <= find_in(s, c, from, end) <= end,
        find_in(s, c, from, end) < end ==> s[find_in(s, c, from, end)] == c,
        forall|k: int| from <= k < find_in(s, c, from, end) ==> s[k] != c,
    decreases end - from,
{
    if from < end && s[from] != c {
        lemma_find_in(s, c, from + 1, end);
    }
}

/// Finds the least index of a character in a slice of the vector.
pub fn find_char(v: &Vec<char>, c: char, from: usize, end: usize) -> (r: usize)
    requires
        from <= end,
        end <= v@.len(),
    ensures
        r == find_in(v@, c, from as int, end as int),
{
    let mut i: usize = from;
    while i < end
        invariant
            from <= i <= end,
            end <= v@.len(),
            forall|k: int| from <= k < i ==> v@[k] != c,
            find_in(v@, c, from as int, end as int) == find_in(v@, c, i as int, end as int),
        decreases end - i,
    {
        if v[i] == c {
            return i;
        }
        i += 1;
    }
    i
}

/// Searching inside a subrange finds the same position, shifted by the
/// subrange's start.
pub proof fn lemma_find_in_offset(s: Seq<char>, c: char, lo: int, hi: int, from: int, end: int)
    requires
        0 <= lo <= from <= end <= hi <= s.len(),
    ensures
        find_in(s.subrange(lo, hi), c, from - lo, end - lo) == find_in(s, c, from, end) - lo,
    decreases end - from,
{
    if from < end {
        assert(s.subrange(lo, hi)[from - lo] == s[from]);
        if s[from] != c {
            lemma_find_in_offset(s, c, lo, hi, from + 1, end);
        }
    }
}

/// Ten to the given power.
pub open spec fn pow10(n: nat) -> nat
    decreases n,
{
    if n == 0 {
        1
    } else {
        10 * pow10((n - 1) as nat)
    }
}

/// A digit string's value is below ten to its length.
pub proof fn lemma_digits_val_bound(s: Seq<char>)
    requires
        all_digits(s),
    ensures
        digits_val(s) < pow10(s.len()),
    decreases s.len(),
{
    if s.len() > 0 {
        assert(all_digits(s.drop_last()));
        lemma_digits_val_bound(s.drop_last());
        assert(digit_val(s.last()) <= 9);
    }
}

/// Ten to a smaller power is no larger.
pub proof fn lemma_pow10_le(a: nat, b: nat)
    requires
        a <= b,
    ensures
        pow10(a) <= pow10(b),
    decreases b,
{
    if a < b {
        lemma_pow10_le(a, (b - 1) as nat);
    }
}

/// Reads the value of a slice of digit characters, at most twelve of them.
pub fn digits_value(v: &Vec<char>, from: usize, end: usize) -> (r: u64)
    requires
        from <= end,
        end <= v@.len(),
        end - from <= 12,
        all_digits(v@.subrange(from as int, end as int)),
    ensures
        r == digits_val(v@.subrange(from as int, end as int)),
{
    let mut m: u64 = 0;
    let mut i: usize = from;
    while i < end
        invariant
            from <= i <= end,
            end <= v@.len(),
            end - from <= 12,
            all_digits(v@.subrange(from as int, end as int)),
            m == digits_val(v@.subrange(from as int, i as int)),
            m < pow10((i - from) as nat),
        decreases end - i,
    {
        proof {
            assert(v@.subrange(from as int, end as int)[i - from] == v@[i as int]);
            lemma_pow10_le((i - from) as nat, 12);
            assert(pow10(12) == 1000000000000) by {
                reveal_with_fuel(pow10, 13);
            }
            assert(v@.subrange(from as int, i + 1 as int).drop_last() =~= v@.subrange(
                from as int,
                i as int,
            ));
            assert(v@.subrange(from as int, i + 1 as int).last() == v@[i as int]);
        }
        let c = v[i];
        let d = (c as u32 - 48) as u64;
        m = m * 10 + d;
        i += 1;
        proof {
            assert(all_digits(v@.subrange(from as int, i as int)));
            lemma_digits_val_bound(v@.subrange(from as int, i as int));
        }
    }
    proof {
        assert(v@.subrange(from as int, i as int) =~= v@.subrange(from as int, end as int));
    }
    m
}

/// Whether every character in the slice of the vector is a digit.
pub fn check_all_digits(v: &Vec<char>, from: usize, end: usize) -> (r: bool)
    requires
        from <= end,
        end <= v@.len(),
    ensures
        r == all_digits(v@.subrange(from as int, end as int)),
{
    let mut i: usize = from;
    while i < end
        invariant
            from <= i <= end,
            end <= v@.len(),
            forall|k: int| from <= k < i ==> is_digit(#[trigger] v@[k]),
        decreases end - i,
    {
        let c = v[i];
        if (c as u32) < 48 || (c as u32) > 57 {
            proof {
                assert(v@.subrange(from as int, end as int)[i - from] == v@[i as int]);
            }
            return false;
        }
        i += 1;
    }
    proof {
        assert forall|k: int| 0 <= k < end - from implies is_digit(
            #[trigger] v@.subrange(from as int, end as int)[k],
        ) by {
            assert(v@.subrange(from as int, end as int)[k] == v@[from + k]);
        }
    }
    true
}

/// The least index in `[from, end)` holding the byte, or `end` when none
/// does.
pub open spec fn find_u8_in(s: Seq<u8>, b: u8, from: int, end: int) -> int
    decreases end - from,
{
    if from >= end {
        end
    } else if s[from] == b {
        from
    } else {
        find_u8_in(s, b, from + 1, end)
    }
}

/// The byte search's defining facts: the result is the least match, and
/// every earlier position differs from the byte.
pub proof fn lemma_find_u8_in(s: Seq<u8>, b: u8, from: int, end: int)
    requires
        0 <= from <= end,
        end <= s.len(),
    ensures
        from <= find_u8_in(s, b, from, end) <= end,
        find_u8_in(s, b, from, end) < end ==> s[find_u8_in(s, b, from, end)] == b,
        forall|k: int| from <= k < find_u8_in(s, b, from, end) ==> s[k] != b,
    decreases end - from,
{
    if from < end && s[from] != b {
        lemma_find_u8_in(s, b, from + 1, end);
    }
}

/// Finds the least index of a byte in a slice.
pub fn find_u8(data: &[u8], b: u8, from: usize, end: usize) -> (r: usize)
    requires
        from <= end,
        end <= data@.len(),
    ensures
        r == find_u8_in(data@, b, from as int, end as int),
{
    let mut i: usize = from;
    while i < end
        invariant
            from <= i <= end,
            end <= data@.len(),
            forall|k: int| from <= k < i ==> data@[k] != b,
            find_u8_in(data@, b, from as int, end as int) == find_u8_in(
                data@,
                b,
                i as int,
                end as int,
            ),
        decreases end - i,
    {
        if data[i] == b {
            return i;
        }
        i += 1;
    }
    i
}

} // verus!
