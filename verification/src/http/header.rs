//! A protocol header: a name, a colon, and a value.

use vstd::prelude::*;
use crate::bytes::{find_index, lemma_find_index};
use crate::bytes;

verus! {

/// A header with an owned name and value.
#[derive(Debug, Clone, PartialEq, Eq)]
pub struct Header {
    pub name: Vec<u8>,
    pub value: Vec<u8>,
}

impl Header {
    pub fn new(name: Vec<u8>, value: Vec<u8>) -> (r: Self)
        ensures
            r.name == name,
            r.value == value,
    {
        Header { name, value }
    }
}

#[derive(Debug, Clone, Copy, PartialEq, Eq, Structural)]
pub enum ParseHeaderError {
    InvalidFormat,
    InvalidName,
}

/// A header name byte: ASCII alphanumeric, `-` or `_`.
pub open spec fn is_name_byte(b: u8) -> bool {
    0x30 <= b <= 0x39 || 0x41 <= b <= 0x5a || 0x61 <= b <= 0x7a || b == 0x2d || b == 0x5f
}

pub open spec fn valid_header_name(s: Seq<u8>) -> bool {
    s.len() > 0 && forall|i: int| 0 <= i < s.len() ==> is_name_byte(#[trigger] s[i])
}

/// ASCII whitespace.
pub open spec fn is_ws(b: u8) -> bool {
    b == 0x20 || b == 0x09 || b == 0x0a || b == 0x0c || b == 0x0d
}

/// A header value byte: ASCII graphic or ASCII whitespace.
pub open spec fn is_value_byte(b: u8) -> bool {
    0x21 <= b <= 0x7e || is_ws(b)
}

pub open spec fn valid_header_value(s: Seq<u8>) -> bool {
    forall|i: int| 0 <= i < s.len() ==> is_value_byte(#[trigger] s[i])
}

pub open spec fn trim_left(s: Seq<u8>) -> Seq<u8>
    decreases s.len(),
{
    if s.len() > 0 && is_ws(s[0]) {
        trim_left(s.subrange(1, s.len() as int))
    } else {
        s
    }
}

pub open spec fn trim_right(s: Seq<u8>) -> Seq<u8>
    decreases s.len(),
{
    if s.len() > 0 && is_ws(s.last()) {
        trim_right(s.drop_last())
    } else {
        s
    }
}

/// `s` with ASCII whitespace removed from both ends.
pub open spec fn spec_trim(s: Seq<u8>) -> Seq<u8> {
    trim_right(trim_left(s))
}

proof fn lemma_trim_left_at(s: Seq<u8>, k: int)
    requires
        0 <= k <= s.len(),
        forall|i: int| 0 <= i < k ==> is_ws(#[trigger] s[i]),
        k == s.len() || !is_ws(s[k]),
    ensures
        trim_left(s) == s.subrange(k, s.len() as int),
    decreases k,
{
    if k == 0 {
        assert(s.subrange(0, s.len() as int) =~= s);
    } else {
        let t = s.subrange(1, s.len() as int);
        lemma_trim_left_at(t, k - 1);
        assert(t.subrange(k - 1, t.len() as int) =~= s.subrange(k, s.len() as int));
    }
}

proof fn lemma_trim_right_at(s: Seq<u8>, k: int)
    requires
        0 <= k <= s.len(),
        forall|i: int| k <= i < s.len() ==> is_ws(#[trigger] s[i]),
        k == 0 || !is_ws(s[k - 1]),
    ensures
        trim_right(s) == s.subrange(0, k),
    decreases s.len() - k,
{
    if k == s.len() {
        assert(s.subrange(0, s.len() as int) =~= s);
    } else {
        let t = s.drop_last();
        lemma_trim_right_at(t, k);
        assert(t.subrange(0, k) =~= s.subrange(0, k));
    }
}

/// Copies `s` with ASCII whitespace removed from both ends.
pub fn trim_copy(s: &[u8]) -> (r: Vec<u8>)
    ensures
        r@ == spec_trim(s@),
{
    let mut a: usize = 0;
    loop
        invariant_except_break
            0 <= a <= s@.len(),
            forall|i: int| 0 <= i < a ==> is_ws(#[trigger] s@[i]),
        ensures
            0 <= a <= s@.len(),
            forall|i: int| 0 <= i < a ==> is_ws(#[trigger] s@[i]),
            a == s@.len() || !is_ws(s@[a as int]),
        decreases s@.len() - a,
    {
        if a >= s.len() {
            break;
        }
        let b = s[a];
        if !(b == 0x20 || b == 0x09 || b == 0x0a || b == 0x0c || b == 0x0d) {
            break;
        }
        a = a + 1;
    }
    proof {
        lemma_trim_left_at(s@, a as int);
    }
    let mut b: usize = s.len();
    loop
        invariant_except_break
            a <= b <= s@.len(),
            forall|i: int| b <= i < s@.len() ==> is_ws(#[trigger] s@[i]),
        ensures
            a <= b <= s@.len(),
            forall|i: int| b <= i < s@.len() ==> is_ws(#[trigger] s@[i]),
            b == a || !is_ws(s@[b - 1]),
        decreases b,
    {
        if b <= a {
            break;
        }
        let c = s[b - 1];
        if !(c == 0x20 || c == 0x09 || c == 0x0a || c == 0x0c || c == 0x0d) {
            break;
        }
        b = b - 1;
    }
    proof {
        let t = trim_left(s@);
        assert(t == s@.subrange(a as int, s@.len() as int));
        if b == a {
            lemma_trim_right_at(t, 0);
        } else {
            lemma_trim_right_at(t, b - a);
        }
        assert(t.subrange(0, b - a) =~= s@.subrange(a as int, b as int));
    }
    bytes::copy_range(s, a, b)
}

/// What parsing a header line yields, as (name, value). The name runs to
/// the first colon and must be non-empty and of name bytes; without a colon
/// the whole line is taken as the name and, if it passes, the missing colon
/// is the fault. The value must be ASCII, and is trimmed.
pub open spec fn spec_parse_header(line: Seq<u8>) -> Result<(Seq<u8>, Seq<u8>), ParseHeaderError> {
    match find_index(line, 0x3a, 0) {
        Option::None => {
            if valid_header_name(line) {
                Err(ParseHeaderError::InvalidFormat)
            } else {
                Err(ParseHeaderError::InvalidName)
            }
        },
        Option::Some(p) => {
            let name = line.subrange(0, p);
            let value = line.subrange(p + 1, line.len() as int);
            if !valid_header_name(name) {
                Err(ParseHeaderError::InvalidName)
            } else if !valid_header_value(value) {
                Err(ParseHeaderError::InvalidFormat)
            } else {
                Ok((name, spec_trim(value)))
            }
        },
    }
}

/// Checks that `s` is a valid header name.
pub fn verify_header_name(s: &[u8]) -> (r: Result<(), ParseHeaderError>)
    ensures
        r is Ok <==> valid_header_name(s@),
        r is Err ==> r == Err::<(), ParseHeaderError>(ParseHeaderError::InvalidName),
{
    if s.len() == 0 {
        return Err(ParseHeaderError::InvalidName);
    }
    let mut i: usize = 0;
    while i < s.len()
        invariant
            0 <= i <= s@.len(),
            forall|k: int| 0 <= k < i ==> is_name_byte(#[trigger] s@[k]),
        decreases s@.len() - i,
    {
        let b = s[i];
        if !(0x30 <= b && b <= 0x39 || 0x41 <= b && b <= 0x5a || 0x61 <= b && b <= 0x7a || b == 0x2d
            || b == 0x5f) {
            return Err(ParseHeaderError::InvalidName);
        }
        i = i + 1;
    }
    Ok(())
}

/// Checks that `s` is a valid header value.
pub fn verify_header_value(s: &[u8]) -> (r: Result<(), ParseHeaderError>)
    ensures
        r is Ok <==> valid_header_value(s@),
        r is Err ==> r == Err::<(), ParseHeaderError>(ParseHeaderError::InvalidFormat),
{
    let mut i: usize = 0;
    while i < s.len()
        invariant
            0 <= i <= s@.len(),
            forall|k: int| 0 <= k < i ==> is_value_byte(#[trigger] s@[k]),
        decreases s@.len() - i,
    {
        let b = s[i];
        if !(0x21 <= b && b <= 0x7e || b == 0x20 || b == 0x09 || b == 0x0a || b == 0x0c || b == 0x0d) {
            return Err(ParseHeaderError::InvalidFormat);
        }
        i = i + 1;
    }
    Ok(())
}

impl Header {
    /// Reads a `Name: Value` line.
    pub fn parse(line: &[u8]) -> (r: Result<Header, ParseHeaderError>)
        ensures
            r is Ok <==> spec_parse_header(line@) is Ok,
            r matches Ok(h) ==> spec_parse_header(line@) matches Ok(m) && h.name@ == m.0 && h.value@
                == m.1,
            r matches Err(e) ==> spec_parse_header(line@) matches Err(e2) && e == e2,
    {
        proof {
            lemma_find_index(line@, 0x3a, 0);
        }
        match bytes::find_byte(line, 0, line.len(), 0x3a) {
            Option::None => {
                proof {
                    match find_index(line@, 0x3a, 0) {
                        Option::None => {},
                        Option::Some(i) => {
                            assert(line@[i] == 0x3a);
                        },
                    }
                }
                match verify_header_name(line) {
                    Result::Ok(_) => Err(ParseHeaderError::InvalidFormat),
                    Result::Err(e) => Err(e),
                }
            },
            Option::Some(p) => {
                proof {
                    match find_index(line@, 0x3a, 0) {
                        Option::None => {
                            assert(false);
                        },
                        Option::Some(i) => {
                            assert(i == p);
                        },
                    }
                }
                let name = vstd::slice::slice_subrange(line, 0, p);
                let value = vstd::slice::slice_subrange(line, p + 1, line.len());
                match verify_header_name(name) {
                    Result::Err(e) => Err(e),
                    Result::Ok(_) => match verify_header_value(value) {
                        Result::Err(e) => Err(e),
                        Result::Ok(_) => {
                            let trimmed = trim_copy(value);
                            Ok(Header { name: bytes::copy_range(name, 0, name.len()), value: trimmed })
                        },
                    },
                }
            },
        }
    }
}


/// One leading whitespace byte, and no more, trims away.
pub proof fn lemma_trim_left_one(s: Seq<u8>)
    requires
        s.len() >= 2,
        is_ws(s[0]),
        !is_ws(s[1]),
    ensures
        trim_left(s) == s.subrange(1, s.len() as int),
{
    lemma_trim_left_at(s, 1);
}

/// Nothing trims from the right of a sequence not ending in whitespace.
pub proof fn lemma_trim_right_none(s: Seq<u8>)
    requires
        s.len() == 0 || !is_ws(s.last()),
    ensures
        trim_right(s) == s,
{
    lemma_trim_right_at(s, s.len() as int);
    assert(s.subrange(0, s.len() as int) =~= s);
}
} // verus!
