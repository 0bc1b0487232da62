//! Decimal notation: what text denotes an integer, which integer, and how an
//! integer is written; and which text has the shape of a floating-point
//! number.

use vstd::prelude::*;
use crate::text::chars_of;

verus! {

/// Whether `c` is one of the ten ASCII decimal digits.
pub open spec fn is_digit(c: char) -> bool {
    '0' <= c && c <= '9'
}

/// The number that the digit `c` stands for.
pub open spec fn digit_of(c: char) -> int {
    c as int - 48
}

/// The character that writes the number `d`, which is below ten.
pub open spec fn digit_char(d: int) -> char {
    (d + 48) as char
}

/// Whether `s` holds digits only.
pub open spec fn all_digits(s: Seq<char>) -> bool {
    forall|i: int| 0 <= i < s.len() ==> is_digit(#[trigger] s[i])
}

/// The number that a run of digits denotes, most significant digit first.
pub open spec fn digits_value(s: Seq<char>) -> nat
    decreases s.len(),
{
    if s.len() == 0 {
        0
    } else {
        (digits_value(s.drop_last()) * 10 + digit_of(s.last())) as nat
    }
}

/// The number that `s` denotes as an unsigned decimal: an optional `+`, then
/// one digit or more and nothing else. `None` where `s` has another shape.
pub open spec fn unsigned_text(s: Seq<char>) -> Option<nat> {
    let body = if s.len() > 0 && s[0] == '+' {
        s.skip(1)
    } else {
        s
    };
    if body.len() > 0 && all_digits(body) {
        Some(digits_value(body))
    } else {
        None
    }
}

/// The number that `s` denotes as a signed decimal: an optional `+` or `-`,
/// then one digit or more and nothing else.
pub open spec fn signed_text(s: Seq<char>) -> Option<int> {
    if s.len() > 0 && s[0] == '-' {
        let body = s.skip(1);
        if body.len() > 0 && all_digits(body) {
            Some(-(digits_value(body) as int))
        } else {
            None
        }
    } else {
        match unsigned_text(s) {
            Some(v) => Some(v as int),
            None => None,
        }
    }
}

/// What `s` parses to as a `u8`.
pub open spec fn text_to_u8(s: Seq<char>) -> Option<u8> {
    match unsigned_text(s) {
        Some(v) => if v <= u8::MAX {
            Some(v as u8)
        } else {
            None
        },
        None => None,
    }
}

/// What `s` parses to as a `u64`.
pub open spec fn text_to_u64(s: Seq<char>) -> Option<u64> {
    match unsigned_text(s) {
        Some(v) => if v <= u64::MAX {
            Some(v as u64)
        } else {
            None
        },
        None => None,
    }
}

/// What `s` parses to as an `i64`.
pub open spec fn text_to_i64(s: Seq<char>) -> Option<i64> {
    match signed_text(s) {
        Some(v) => if i64::MIN <= v <= i64::MAX {
            Some(v as i64)
        } else {
            None
        },
        None => None,
    }
}

/// The decimal notation of `n`: no sign, no leading zero but for zero itself.
pub open spec fn decimal_text(n: nat) -> Seq<char>
    decreases n,
{
    if n < 10 {
        seq![digit_char(n as int)]
    } else {
        decimal_text(n / 10).push(digit_char((n % 10) as int))
    }
}

/// The decimal notation of `n`, with a leading `-` where `n` is negative.
pub open spec fn signed_decimal_text(n: int) -> Seq<char> {
    if n < 0 {
        seq!['-'] + decimal_text((-n) as nat)
    } else {
        decimal_text(n as nat)
    }
}

/// A longer run of digits denotes no smaller a number than its beginning.
pub proof fn lemma_digits_value_grows(s: Seq<char>, k: int)
    requires
        all_digits(s),
        0 <= k <= s.len(),
    ensures
        digits_value(s.take(k)) <= digits_value(s),
    decreases s.len() - k,
{
    if k == s.len() {
        assert(s.take(k) =~= s);
    } else {
        lemma_digits_value_grows(s, k + 1);
        let t = s.take(k + 1);
        assert(t.drop_last() =~= s.take(k));
        assert(is_digit(t.last()));
    }
}

/// Reading the decimal notation of a number gives the number back.
pub proof fn lemma_decimal_text_reads_back(n: nat)
    ensures
        decimal_text(n).len() > 0,
        all_digits(decimal_text(n)),
        digits_value(decimal_text(n)) == n,
        unsigned_text(decimal_text(n)) == Some(n),
        signed_text(decimal_text(n)) == Some(n as int),
    decreases n,
{
    let t = decimal_text(n);
    if n < 10 {
        assert(t.len() == 1);
        assert(t[0] == digit_char(n as int));
        assert(is_digit(t[0]));
        assert(t.drop_last() =~= Seq::<char>::empty());
        assert(digits_value(t.drop_last()) == 0);
        assert(digits_value(t) == n);
    } else {
        lemma_decimal_text_reads_back(n / 10);
        let h = decimal_text(n / 10);
        assert(t == h.push(digit_char((n % 10) as int)));
        assert(t.drop_last() =~= h);
        assert(is_digit(t.last()));
        assert forall|i: int| 0 <= i < t.len() implies is_digit(#[trigger] t[i]) by {
            if i < h.len() {
                assert(t[i] == h[i]);
            }
        }
        assert(digits_value(t) == n);
    }
    assert(is_digit(t[0]));
}

/// Reading the signed decimal notation of a number gives the number back, and
/// that of a negative number does not read as an unsigned one.
pub proof fn lemma_signed_decimal_text_reads_back(n: int)
    ensures
        signed_text(signed_decimal_text(n)) == Some(n),
        n < 0 ==> unsigned_text(signed_decimal_text(n)) is None,
        n >= 0 ==> unsigned_text(signed_decimal_text(n)) == Some(n as nat),
{
    if n < 0 {
        let m = (-n) as nat;
        lemma_decimal_text_reads_back(m);
        let t = signed_decimal_text(n);
        assert(t[0] == '-');
        assert(t.skip(1) =~= decimal_text(m));
        assert(!is_digit(t[0]));
    } else {
        lemma_decimal_text_reads_back(n as nat);
    }
}


/// Reads `chars[from..to]` as a run of digits that denotes at most `max`.
fn read_digits(chars: &Vec<char>, from: usize, to: usize, max: u64) -> (r: Option<u64>)
    requires
        from <= to <= chars.len(),
    ensures
        r == (if from < to && all_digits(chars@.subrange(from as int, to as int))
            && digits_value(chars@.subrange(from as int, to as int)) <= max {
            Some(digits_value(chars@.subrange(from as int, to as int)) as u64)
        } else {
            None
        }),
{
    if from >= to {
        return None;
    }
    let ghost body = chars@.subrange(from as int, to as int);
    let mut acc: u64 = 0;
    let mut i: usize = from;
    while i < to
        invariant
            from <= i <= to <= chars.len(),
            body == chars@.subrange(from as int, to as int),
            all_digits(body.take(i - from)),
            acc == digits_value(body.take(i - from)),
            acc <= max,
        decreases to - i,
    {
        let c = chars[i];
        let ghost next = body.take(i - from + 1);
        proof {
            assert(next.drop_last() =~= body.take(i - from));
            assert(next.last() == c);
        }
        if !('0' <= c && c <= '9') {
            proof {
                assert(!is_digit(body[i - from]));
            }
            return None;
        }
        let d: u64 = (c as u32 - '0' as u32) as u64;
        if d > max || acc > (max - d) / 10 {
            proof {
                assert(digits_value(next) > max);
                if all_digits(body) {
                    lemma_digits_value_grows(body, i - from + 1);
                }
            }
            return None;
        }
        acc = acc * 10 + d;
        proof {
            assert forall|j: int| 0 <= j < next.len() implies is_digit(#[trigger] next[j]) by {
                if j < next.len() - 1 {
                    assert(next[j] == body.take(i - from)[j]);
                }
            }
        }
        i += 1;
    }
    proof {
        assert(body.take(to - from) =~= body);
    }
    Some(acc)
}

/// Reads `chars` as an unsigned decimal that is at most `max`.
pub fn parse_unsigned(chars: &Vec<char>, max: u64) -> (r: Option<u64>)
    ensures
        r == (match unsigned_text(chars@) {
            Some(v) => if v <= max {
                Some(v as u64)
            } else {
                None
            },
            None => None,
        }),
{
    let n = chars.len();
    let from: usize = if n > 0 && chars[0] == '+' {
        1
    } else {
        0
    };
    proof {
        assert(chars@.subrange(from as int, n as int) =~= (if from == 1 {
            chars@.skip(1)
        } else {
            chars@
        }));
    }
    read_digits(chars, from, n, max)
}

/// Reads `chars` as a signed decimal within the range of `i64`.
pub fn parse_signed(chars: &Vec<char>) -> (r: Option<i64>)
    ensures
        r == text_to_i64(chars@),
{
    let n = chars.len();
    if n > 0 && chars[0] == '-' {
        proof {
            assert(chars@.subrange(1, n as int) =~= chars@.skip(1));
        }
        match read_digits(chars, 1, n, 0x8000_0000_0000_0000) {
            Some(m) => {
                if m == 0x8000_0000_0000_0000 {
                    Some(i64::MIN)
                } else {
                    Some(0 - (m as i64))
                }
            },
            None => None,
        }
    } else {
        match parse_unsigned(chars, 0x7fff_ffff_ffff_ffff) {
            Some(m) => Some(m as i64),
            None => None,
        }
    }
}

/// Appends the decimal notation of `n` to `out`.
pub fn push_decimal(out: &mut String, n: u64)
    ensures
        final(out)@ == old(out)@ + decimal_text(n as nat),
    decreases n,
{
    if n >= 10 {
        push_decimal(out, n / 10);
    }
    let d: u8 = (n % 10) as u8;
    out.push((48u8 + d) as char);
    proof {
        assert(out@ =~= old(out)@ + decimal_text(n as nat));
    }
}

/// Appends the decimal notation of `n` to `out`, with a leading `-` where `n`
/// is negative.
pub fn push_signed_decimal(out: &mut String, n: i64)
    ensures
        final(out)@ == old(out)@ + signed_decimal_text(n as int),
{
    if n < 0 {
        out.push('-');
        let m: u64 = if n == i64::MIN {
            0x8000_0000_0000_0000
        } else {
            (0 - n) as u64
        };
        push_decimal(out, m);
        proof {
            assert(out@ =~= old(out)@ + signed_decimal_text(n as int));
        }
    } else {
        push_decimal(out, n as u64);
    }
}


/// The index at which the run of digits that begins at `from` ends.
pub open spec fn digits_end(s: Seq<char>, from: int) -> int
    decreases s.len() - from,
{
    if 0 <= from < s.len() && is_digit(s[from]) {
        digits_end(s, from + 1)
    } else {
        from
    }
}

/// Whether `c` is `+` or `-`.
pub open spec fn is_sign(c: char) -> bool {
    c == '+' || c == '-'
}

/// The lower-case form of an ASCII capital letter; any other character as it
/// is.
pub open spec fn ascii_lower(c: char) -> char {
    if 'A' <= c && c <= 'Z' {
        ((c as int) + 32) as char
    } else {
        c
    }
}

/// Whether `s` is `word`, whatever the case of its ASCII letters. `word` is
/// in lower case.
pub open spec fn spells(s: Seq<char>, word: Seq<char>) -> bool {
    s.len() == word.len() && forall|i: int| 0 <= i < s.len() ==> ascii_lower(#[trigger] s[i]) == word[i]
}

/// Whether `s[from..]` is an exponent: `e` or `E`, an optional sign, then one
/// digit or more up to the end.
pub open spec fn exponent_text(s: Seq<char>, from: int) -> bool {
    let start = if from + 1 < s.len() && is_sign(s[from + 1]) {
        from + 2
    } else {
        from + 1
    };
    0 <= from < s.len() && (s[from] == 'e' || s[from] == 'E') && start < digits_end(s, start)
        && digits_end(s, start) == s.len()
}

/// Whether `s[from..]` is a number: digits with at most one point before,
/// among or after them, one digit at least, and possibly an exponent.
pub open spec fn number_text(s: Seq<char>, from: int) -> bool {
    let whole_end = digits_end(s, from);
    let part_start = if whole_end < s.len() && s[whole_end] == '.' {
        whole_end + 1
    } else {
        whole_end
    };
    let part_end = digits_end(s, part_start);
    (whole_end - from) + (part_end - part_start) > 0 && (part_end == s.len() || exponent_text(
        s,
        part_end,
    ))
}

/// Whether `s` is one of the words `inf`, `infinity` and `nan`, in any case.
pub open spec fn special_text(s: Seq<char>) -> bool {
    spells(s, "inf"@) || spells(s, "infinity"@) || spells(s, "nan"@)
}

/// Whether `s` has the shape of a floating-point number:
///
/// ```text
/// Float  ::= Sign? ( 'inf' | 'infinity' | 'nan' | Number )
/// Number ::= ( Digit+ | Digit+ '.' Digit* | Digit* '.' Digit+ ) Exp?
/// Exp    ::= 'e' Sign? Digit+
/// ```
///
/// with letters in either case.
pub open spec fn float_text(s: Seq<char>) -> bool {
    let from: int = if s.len() > 0 && is_sign(s[0]) {
        1
    } else {
        0
    };
    from < s.len() && (number_text(s, from) || special_text(s.skip(from)))
}

/// Finds where the run of digits that begins at `from` ends.
fn scan_digits(chars: &Vec<char>, from: usize) -> (end: usize)
    requires
        from <= chars.len(),
    ensures
        end == digits_end(chars@, from as int),
        from <= end <= chars.len(),
{
    let mut i: usize = from;
    while i < chars.len() && '0' <= chars[i] && chars[i] <= '9'
        invariant
            from <= i <= chars.len(),
            digits_end(chars@, from as int) == digits_end(chars@, i as int),
        decreases chars.len() - i,
    {
        i += 1;
    }
    i
}

/// Tells whether `chars[from..]` is `word`, whatever the case of its letters.
fn spells_word(chars: &Vec<char>, from: usize, word: &str) -> (r: bool)
    requires
        from <= chars.len(),
    ensures
        r == spells(chars@.skip(from as int), word@),
{
    let w = chars_of(word);
    let ghost tail = chars@.skip(from as int);
    if chars.len() - from != w.len() {
        return false;
    }
    let mut i: usize = 0;
    while i < w.len()
        invariant
            i <= w.len(),
            w@ == word@,
            from + w.len() == chars.len(),
            tail == chars@.skip(from as int),
            forall|j: int| 0 <= j < i ==> ascii_lower(#[trigger] tail[j]) == w[j],
        decreases w.len() - i,
    {
        let c = chars[from + i];
        let low: char = if 'A' <= c && c <= 'Z' {
            ((c as u8) + 32) as char
        } else {
            c
        };
        assert(low == ascii_lower(tail[i as int]));
        if low != w[i] {
            return false;
        }
        i += 1;
    }
    true
}

/// Tells whether `chars` has the shape of a floating-point number.
pub fn is_float_text(chars: &Vec<char>) -> (r: bool)
    ensures
        r == float_text(chars@),
{
    let n = chars.len();
    let from: usize = if n > 0 && (chars[0] == '+' || chars[0] == '-') {
        1
    } else {
        0
    };
    if from >= n {
        return false;
    }
    if spells_word(chars, from, "inf") || spells_word(chars, from, "infinity") || spells_word(
        chars,
        from,
        "nan",
    ) {
        return true;
    }
    let whole_end = scan_digits(chars, from);
    let part_start: usize = if whole_end < n && chars[whole_end] == '.' {
        whole_end + 1
    } else {
        whole_end
    };
    let part_end = scan_digits(chars, part_start);
    if (whole_end - from) + (part_end - part_start) == 0 {
        return false;
    }
    if part_end == n {
        return true;
    }
    if !(chars[part_end] == 'e' || chars[part_end] == 'E') {
        return false;
    }
    let start: usize = if part_end + 1 < n && (chars[part_end + 1] == '+' || chars[part_end + 1]
        == '-') {
        part_end + 2
    } else {
        part_end + 1
    };
    if start > n {
        return false;
    }
    let end = scan_digits(chars, start);
    start < end && end == n
}

} // verus!
