//! Byte-level utilities shared by the wire codec: ASCII decimal numbers and
//! searching for delimiters in a byte sequence.

use vstd::prelude::*;

verus! {

/// Errors from reading an ASCII decimal number.
#[derive(Debug, Clone, Copy, PartialEq, Eq, Structural)]
pub enum ParseIntError {
    Empty,
    InvalidDigit,
    Overflow,
}

pub open spec fn is_digit(b: u8) -> bool {
    0x30 <= b <= 0x39
}

pub open spec fn all_digits(s: Seq<u8>) -> bool {
    forall|i: int| 0 <= i < s.len() ==> is_digit(#[trigger] s[i])
}

/// The value of a sequence of ASCII digits, most significant first.
pub open spec fn dec_value(s: Seq<u8>) -> nat
    decreases s.len(),
{
    if s.len() == 0 {
        0
    } else {
        (dec_value(s.drop_last()) * 10 + (s.last() - 0x30)) as nat
    }
}

/// The canonical decimal form of `n`: no leading zero except for zero itself.
pub open spec fn dec_repr(n: nat) -> Seq<u8>
    decreases n,
{
    if n < 10 {
        seq![(0x30 + n) as u8]
    } else {
        dec_repr(n / 10).push((0x30 + n % 10) as u8)
    }
}

proof fn lemma_dec_value_step(s: Seq<u8>, i: int)
    requires
        0 <= i < s.len(),
        is_digit(s[i]),
    ensures
        dec_value(s.subrange(0, i + 1)) == dec_value(s.subrange(0, i)) * 10 + (s[i] - 0x30),
    decreases s.len(),
{
    let t = s.subrange(0, i + 1);
    assert(t.drop_last() =~= s.subrange(0, i));
    assert(t.last() == s[i]);
}

proof fn lemma_dec_value_prefix_le(s: Seq<u8>, i: int, j: int)
    requires
        0 <= i <= j <= s.len(),
        forall|k: int| i <= k < j ==> is_digit(#[trigger] s[k]),
    ensures
        dec_value(s.subrange(0, i)) <= dec_value(s.subrange(0, j)),
    decreases j - i,
{
    if i < j {
        lemma_dec_value_prefix_le(s, i, j - 1);
        lemma_dec_value_step(s, j - 1);
        assert(dec_value(s.subrange(0, j - 1)) * 10 >= dec_value(s.subrange(0, j - 1))) by (nonlinear_arith);
    }
}

/// The bytes before position `j` are all digits.
pub open spec fn digits_before(s: Seq<u8>, j: int) -> bool {
    forall|k: int| 0 <= k < j ==> is_digit(#[trigger] s[k])
}

/// A left-to-right read of `s` meets a non-digit before the accumulated
/// value has exceeded `max`.
pub open spec fn stops_at_nondigit(s: Seq<u8>, max: nat) -> bool {
    exists|j: int|
        0 <= j < s.len() && #[trigger] digits_before(s, j) && !is_digit(s[j]) && dec_value(
            s.subrange(0, j),
        ) <= max
}

/// What reading a decimal `u32` from `s` yields: an empty slice is `Empty`;
/// a slice of digits whose value fits is that value; a non-digit met before
/// the accumulated value exceeds `u32::MAX` is `InvalidDigit`; anything else
/// is `Overflow`.
pub open spec fn parse_u32_spec(s: Seq<u8>) -> Result<u32, ParseIntError> {
    if s.len() == 0 {
        Err(ParseIntError::Empty)
    } else if all_digits(s) && dec_value(s) <= u32::MAX {
        Ok(dec_value(s) as u32)
    } else if stops_at_nondigit(s, u32::MAX as nat) {
        Err(ParseIntError::InvalidDigit)
    } else {
        Err(ParseIntError::Overflow)
    }
}

/// As `parse_u32_spec`, with the value also required to fit in `u8`.
pub open spec fn parse_u8_spec(s: Seq<u8>) -> Result<u8, ParseIntError> {
    if s.len() == 0 {
        Err(ParseIntError::Empty)
    } else if all_digits(s) && dec_value(s) <= u8::MAX {
        Ok(dec_value(s) as u8)
    } else if stops_at_nondigit(s, u32::MAX as nat) {
        Err(ParseIntError::InvalidDigit)
    } else {
        Err(ParseIntError::Overflow)
    }
}

/// Reads an unsigned decimal number, the whole slice being the number,
/// scanning left to right as the standard library does.
pub fn parse_u32(s: &[u8]) -> (r: Result<u32, ParseIntError>)
    ensures
        r == parse_u32_spec(s@),
{
    if s.len() == 0 {
        return Err(ParseIntError::Empty);
    }
    let mut acc: u32 = 0;
    let mut i: usize = 0;
    while i < s.len()
        invariant
            0 <= i <= s@.len(),
            s@.len() > 0,
            forall|k: int| 0 <= k < i ==> is_digit(#[trigger] s@[k]),
            acc == dec_value(s@.subrange(0, i as int)),
        decreases s@.len() - i,
    {
        let b = s[i];
        if b < 0x30 || b > 0x39 {
            proof {
                assert(digits_before(s@, i as int));
                assert(stops_at_nondigit(s@, u32::MAX as nat));
            }
            return Err(ParseIntError::InvalidDigit);
        }
        let d: u32 = (b - 0x30) as u32;
        let wide: u64 = acc as u64 * 10 + d as u64;
        proof {
            lemma_dec_value_step(s@, i as int);
        }
        if wide > u32::MAX as u64 {
            proof {
                // the value of every longer digit prefix is at least this one
                if all_digits(s@) {
                    lemma_dec_value_prefix_le(s@, i as int + 1, s@.len() as int);
                    assert(s@.subrange(0, s@.len() as int) =~= s@);
                }
                assert(!stops_at_nondigit(s@, u32::MAX as nat)) by {
                    if stops_at_nondigit(s@, u32::MAX as nat) {
                        let j = choose|j: int|
                            0 <= j < s@.len() && #[trigger] digits_before(s@, j) && !is_digit(s@[j])
                                && dec_value(s@.subrange(0, j)) <= u32::MAX;
                        assert(j > i);
                        lemma_dec_value_prefix_le(s@, i as int + 1, j);
                    }
                }
            }
            return Err(ParseIntError::Overflow);
        }
        acc = wide as u32;
        i = i + 1;
    }
    assert(s@.subrange(0, s@.len() as int) =~= s@);
    Ok(acc)
}

/// Reads an unsigned decimal number that must fit in `u8`.
pub fn parse_u8(s: &[u8]) -> (r: Result<u8, ParseIntError>)
    ensures
        r == parse_u8_spec(s@),
{
    match parse_u32(s) {
        Ok(v) => {
            if v <= 255 {
                Ok(v as u8)
            } else {
                Err(ParseIntError::Overflow)
            }
        },
        Err(e) => Err(e),
    }
}

pub proof fn lemma_dec_repr_props(n: nat)
    ensures
        dec_repr(n).len() >= 1,
        all_digits(dec_repr(n)),
        dec_value(dec_repr(n)) == n,
    decreases n,
{
    if n < 10 {
        let s = dec_repr(n);
        assert(s =~= seq![(0x30 + n) as u8]);
        assert(s.drop_last().len() == 0);
        assert(dec_value(s.drop_last()) == 0);
        assert(dec_value(s) == n);
    } else {
        lemma_dec_repr_props(n / 10);
        let s = dec_repr(n);
        let d = (0x30 + n % 10) as u8;
        assert(n % 10 < 10) by (nonlinear_arith);
        assert(d == 0x30 + n % 10);
        assert(s.drop_last() =~= dec_repr(n / 10));
        assert(s.last() == d);
        assert(dec_value(s) == (dec_value(s.drop_last()) * 10 + (s.last() - 0x30)) as nat);
        assert(dec_value(s.drop_last()) == n / 10);
        assert(dec_value(s) == ((n / 10) * 10 + n % 10) as nat);
        assert((n / 10) * 10 + n % 10 == n) by (nonlinear_arith);
    }
}

/// The canonical decimal digits of `n`.
pub fn u32_to_dec(n: u32) -> (r: Vec<u8>)
    ensures
        r@ == dec_repr(n as nat),
        all_digits(r@),
        dec_value(r@) == n,
        r@.len() >= 1,
{
    let mut digits: Vec<u8> = Vec::new();
    let mut m: u32 = n;
    // least significant digit first
    loop
        invariant_except_break
            dec_repr(n as nat) =~= dec_repr(m as nat) + digits@.reverse(),
        ensures
            dec_repr(n as nat) =~= digits@.reverse(),
        decreases m,
    {
        proof {
            assert(dec_repr(m as nat).len() >= 1) by {
                lemma_dec_repr_props(m as nat);
            }
        }
        if m < 10 {
            digits.push((0x30 + m) as u8);
            proof {
                assert(dec_repr(m as nat) =~= seq![(0x30 + m) as u8]);
                assert(digits@.reverse() =~= seq![(0x30 + m) as u8] + digits@.drop_last().reverse());
            }
            break;
        } else {
            let d: u8 = (m % 10) as u8;
            digits.push((0x30 + d) as u8);
            proof {
                let old_digits = digits@.drop_last();
                assert(digits@.reverse() =~= seq![(0x30 + d) as u8] + old_digits.reverse());
                assert(dec_repr(m as nat) =~= dec_repr((m / 10) as nat).push((0x30 + m % 10) as u8));
                assert(dec_repr((m / 10) as nat).push((0x30 + d) as u8) + old_digits.reverse() =~= dec_repr(
                    (m / 10) as nat,
                ) + (seq![(0x30 + d) as u8] + old_digits.reverse()));
            }
            m = m / 10;
        }
    }
    let mut r: Vec<u8> = Vec::new();
    let mut i: usize = digits.len();
    while i > 0
        invariant
            0 <= i <= digits@.len(),
            r@ =~= digits@.subrange(i as int, digits@.len() as int).reverse(),
        decreases i,
    {
        i = i - 1;
        r.push(digits[i]);
        proof {
            let tail = digits@.subrange(i as int + 1, digits@.len() as int);
            assert(digits@.subrange(i as int, digits@.len() as int) =~= seq![digits@[i as int]] + tail);
            assert((seq![digits@[i as int]] + tail).reverse() =~= tail.reverse().push(digits@[i as int]));
        }
    }
    proof {
        assert(digits@.subrange(0, digits@.len() as int) =~= digits@);
        assert(dec_repr(n as nat) =~= digits@.reverse());
        lemma_dec_repr_props(n as nat);
    }
    r
}

/// Whether bytes `i` and `i + 1` of `s` are a CR LF pair.
pub open spec fn crlf_at(s: Seq<u8>, i: int) -> bool {
    s[i] == 13 && s[i + 1] == 10
}

/// The first position at or after `from` where a CR LF pair stands.
pub open spec fn find_crlf_index(s: Seq<u8>, from: int) -> Option<int>
    decreases s.len() - from,
{
    if from < 0 || from + 2 > s.len() {
        None
    } else if crlf_at(s, from) {
        Some(from)
    } else {
        find_crlf_index(s, from + 1)
    }
}

pub proof fn lemma_find_crlf_index(s: Seq<u8>, from: int)
    requires
        0 <= from <= s.len(),
    ensures
        match find_crlf_index(s, from) {
            Some(i) => from <= i && i + 2 <= s.len() && crlf_at(s, i) && forall|j: int|
                from <= j < i ==> !crlf_at(s, j),
            None => forall|j: int| from <= j && j + 2 <= s.len() ==> !crlf_at(s, j),
        },
    decreases s.len() - from,
{
    if from + 2 <= s.len() && !crlf_at(s, from) {
        lemma_find_crlf_index(s, from + 1);
    }
}

/// Finds the first CR LF pair at or after `from`.
pub fn find_crlf(data: &[u8], from: usize) -> (r: Option<usize>)
    requires
        from <= data@.len(),
    ensures
        match r {
            Some(i) => find_crlf_index(data@, from as int) == Some(i as int) && from <= i && i + 2
                <= data@.len() && crlf_at(data@, i as int) && forall|j: int|
                from <= j < i ==> !crlf_at(data@, j),
            None => find_crlf_index(data@, from as int) is None && forall|j: int|
                from <= j && j + 2 <= data@.len() ==> !crlf_at(data@, j),
        },
{
    proof {
        lemma_find_crlf_index(data@, from as int);
    }
    if data.len() < 2 {
        return None;
    }
    let mut i: usize = from;
    while i <= data.len() - 2
        invariant
            data@.len() >= 2,
            from <= i,
            i <= data@.len(),
            forall|j: int| from <= j < i ==> !crlf_at(data@, j),
        decreases data@.len() - i,
    {
        if data[i] == 13 && data[i + 1] == 10 {
            proof {
                lemma_find_crlf_index(data@, from as int);
                match find_crlf_index(data@, from as int) {
                    Option::Some(k) => {
                        assert(crlf_at(data@, i as int));
                        assert(!(k < i)) by {
                            assert(forall|j: int| from <= j < i ==> !crlf_at(data@, j));
                        }
                        assert(!(i < k)) by {
                            if i < k {
                                assert(forall|j: int| from <= j < k ==> !crlf_at(data@, j));
                                assert(!crlf_at(data@, i as int));
                            }
                        }
                    },
                    Option::None => {
                        assert(crlf_at(data@, i as int));
                    },
                }
            }
            return Some(i);
        }
        i = i + 1;
    }
    None
}

/// The first position at or after `from` where `b` stands in `s`.
pub open spec fn find_index(s: Seq<u8>, b: u8, from: int) -> Option<int>
    decreases s.len() - from,
{
    if from < 0 || from >= s.len() {
        None
    } else if s[from] == b {
        Some(from)
    } else {
        find_index(s, b, from + 1)
    }
}

pub proof fn lemma_find_index(s: Seq<u8>, b: u8, from: int)
    requires
        0 <= from <= s.len(),
    ensures
        match find_index(s, b, from) {
            Some(i) => from <= i < s.len() && s[i] == b && forall|j: int| from <= j < i ==> s[j] != b,
            None => forall|j: int| from <= j < s.len() ==> s[j] != b,
        },
    decreases s.len() - from,
{
    if from < s.len() && s[from] != b {
        lemma_find_index(s, b, from + 1);
    }
}

/// Finds the first occurrence of `b` in `s[from..to]`.
pub fn find_byte(s: &[u8], from: usize, to: usize, b: u8) -> (r: Option<usize>)
    requires
        from <= to <= s@.len(),
    ensures
        match r {
            Some(i) => from <= i < to && s@[i as int] == b && forall|j: int|
                from <= j < i ==> s@[j] != b,
            None => forall|j: int| from <= j < to ==> s@[j] != b,
        },
{
    let mut i: usize = from;
    while i < to
        invariant
            from <= i <= to <= s@.len(),
            forall|j: int| from <= j < i ==> s@[j] != b,
        decreases to - i,
    {
        if s[i] == b {
            return Some(i);
        }
        i = i + 1;
    }
    None
}

/// Copies a whole slice into a fresh vector.
pub fn copy_to_vec(s: &[u8]) -> (r: Vec<u8>)
    ensures
        r@ == s@,
{
    let r = copy_range(s, 0, s.len());
    proof {
        assert(r@ =~= s@);
    }
    r
}

/// An ASCII upper-case letter folded to lower case.
pub open spec fn to_lower(b: u8) -> u8 {
    if 0x41 <= b <= 0x5a {
        (b + 0x20) as u8
    } else {
        b
    }
}

/// Whether two byte sequences are equal up to ASCII case.
pub open spec fn eq_ignore_case(a: Seq<u8>, b: Seq<u8>) -> bool {
    a.len() == b.len() && forall|i: int| 0 <= i < a.len() ==> to_lower(#[trigger] a[i]) == to_lower(b[i])
}

/// Compares two byte slices up to ASCII case.
pub fn bytes_eq_ignore_case(a: &[u8], b: &[u8]) -> (r: bool)
    ensures
        r <==> eq_ignore_case(a@, b@),
{
    if a.len() != b.len() {
        return false;
    }
    let mut i: usize = 0;
    while i < a.len()
        invariant
            0 <= i <= a@.len(),
            a@.len() == b@.len(),
            forall|k: int| 0 <= k < i ==> to_lower(#[trigger] a@[k]) == to_lower(b@[k]),
        decreases a@.len() - i,
    {
        let mut x = a[i];
        let mut y = b[i];
        if 0x41 <= x && x <= 0x5a {
            x = x + 0x20;
        }
        if 0x41 <= y && y <= 0x5a {
            y = y + 0x20;
        }
        if x != y {
            return false;
        }
        i = i + 1;
    }
    true
}

/// Copies `s[from..to]` into a fresh vector.
pub fn copy_range(s: &[u8], from: usize, to: usize) -> (r: Vec<u8>)
    requires
        from <= to <= s@.len(),
    ensures
        r@ == s@.subrange(from as int, to as int),
{
    let mut r: Vec<u8> = Vec::new();
    let mut i: usize = from;
    while i < to
        invariant
            from <= i <= to <= s@.len(),
            r@ =~= s@.subrange(from as int, i as int),
        decreases to - i,
    {
        r.push(s[i]);
        i = i + 1;
        proof {
            assert(r@ =~= s@.subrange(from as int, i as int));
        }
    }
    r
}


/// Every byte is ASCII.
pub open spec fn all_ascii(s: Seq<u8>) -> bool {
    forall|i: int| 0 <= i < s.len() ==> #[trigger] s[i] < 0x80
}

/// Checks that every byte is ASCII.
pub fn is_ascii(s: &[u8]) -> (r: bool)
    ensures
        r <==> all_ascii(s@),
{
    let mut i: usize = 0;
    while i < s.len()
        invariant
            0 <= i <= s@.len(),
            forall|k: int| 0 <= k < i ==> #[trigger] s@[k] < 0x80,
        decreases s@.len() - i,
    {
        if s[i] >= 0x80 {
            return false;
        }
        i = i + 1;
    }
    true
}
} // verus!
