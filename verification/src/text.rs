//! Byte-level text helpers shared by the request parser and the response
//! writer: searching, splitting on an ASCII separator, decimal numbers, and
//! the way from raw bytes to `str`.

use vstd::prelude::*;
use vstd::string::StringExecFns;
use vstd::string::StringSliceAdditionalSpecFns;
use vstd::utf8::{
    decode_utf8, encode_utf8, encode_utf8_decode_utf8, encode_utf8_valid_utf8, is_ascii_chars,
    is_ascii_chars_encode_utf8, is_char_boundary, is_char_boundary_iff_not_is_continuation_byte,
    is_continuation_byte, length_of_first_scalar, pop_first_scalar, valid_utf8, valid_utf8_split,
};

verus! {

pub const CR: u8 = 13;

pub const LF: u8 = 10;

pub const SPACE: u8 = 32;

pub const COLON: u8 = 58;

pub const QUESTION: u8 = 63;

pub const AMPERSAND: u8 = 38;

pub const EQUALS: u8 = 61;

pub const PLUS: u8 = 43;

pub const DIGIT_ZERO: u8 = 48;

/// Index of the first occurrence of `b` in `s` at or after `from`, or
/// `s.len()` when there is none.
pub open spec fn spec_find(s: Seq<u8>, b: u8, from: int) -> int
    decreases s.len() - from,
{
    if from < 0 || from >= s.len() {
        s.len() as int
    } else if s[from] == b {
        from
    } else {
        spec_find(s, b, from + 1)
    }
}

/// `spec_find` returns the least matching index in range.
pub proof fn lemma_find(s: Seq<u8>, b: u8, from: int)
    requires
        0 <= from <= s.len(),
    ensures
        from <= spec_find(s, b, from) <= s.len(),
        spec_find(s, b, from) < s.len() ==> s[spec_find(s, b, from)] == b,
        forall|j: int| from <= j < spec_find(s, b, from) ==> s[j] != b,
    decreases s.len() - from,
{
    if from < s.len() && s[from] != b {
        lemma_find(s, b, from + 1);
    }
}

/// Any index that matches and has no match before it is the one `spec_find`
/// returns.
pub proof fn lemma_find_unique(s: Seq<u8>, b: u8, from: int, i: int)
    requires
        0 <= from <= i <= s.len(),
        i < s.len() ==> s[i] == b,
        forall|j: int| from <= j < i ==> s[j] != b,
    ensures
        spec_find(s, b, from) == i,
    decreases i - from,
{
    if from < i {
        lemma_find_unique(s, b, from + 1, i);
    }
}

/// A match found in a buffer stays the first match when more bytes are
/// appended.
pub proof fn lemma_find_append(s: Seq<u8>, extra: Seq<u8>, b: u8, from: int)
    requires
        0 <= from <= s.len(),
        spec_find(s, b, from) < s.len(),
    ensures
        spec_find(s + extra, b, from) == spec_find(s, b, from),
{
    lemma_find(s, b, from);
    let i = spec_find(s, b, from);
    assert forall|j: int| from <= j < i implies (s + extra)[j] != b by {
        assert((s + extra)[j] == s[j]);
    }
    assert((s + extra)[i] == s[i]);
    lemma_find_unique(s + extra, b, from, i);
}

pub fn find_byte(s: &[u8], b: u8, from: usize) -> (i: usize)
    requires
        from <= s@.len(),
    ensures
        i == spec_find(s@, b, from as int),
        from <= i <= s@.len(),
{
    let mut i: usize = from;
    while i < s.len() && s[i] != b
        invariant
            from <= i <= s@.len(),
            forall|j: int| from <= j < i ==> s@[j] != b,
        decreases s@.len() - i,
    {
        i += 1;
    }
    proof {
        lemma_find_unique(s@, b, from as int, i as int);
    }
    i
}

/// The pieces of `s` between occurrences of `sep`: one more piece than there
/// are separators, empty pieces included.
pub open spec fn spec_split(s: Seq<u8>, sep: u8) -> Seq<Seq<u8>>
    decreases s.len(),
{
    let i = spec_find(s, sep, 0);
    if 0 <= i < s.len() {
        seq![s.subrange(0, i)] + spec_split(s.subrange(i + 1, s.len() as int), sep)
    } else {
        seq![s]
    }
}

/// The pieces put together again, with `sep` between each two.
pub open spec fn spec_join(pieces: Seq<Seq<u8>>, sep: u8) -> Seq<u8>
    decreases pieces.len(),
{
    if pieces.len() == 0 {
        Seq::empty()
    } else if pieces.len() == 1 {
        pieces[0]
    } else {
        pieces[0] + seq![sep] + spec_join(pieces.drop_first(), sep)
    }
}

/// Splitting loses nothing and leaves no separator behind: there is at
/// least one piece, no piece holds the separator, and the pieces joined by
/// the separator are the bytes that were split.
pub proof fn lemma_split_join(s: Seq<u8>, sep: u8)
    ensures
        spec_split(s, sep).len() >= 1,
        spec_join(spec_split(s, sep), sep) == s,
        forall|i: int, j: int|
            0 <= i < spec_split(s, sep).len() && 0 <= j < spec_split(s, sep)[i].len()
                ==> #[trigger] spec_split(s, sep)[i][j] != sep,
    decreases s.len(),
{
    let at = spec_find(s, sep, 0);
    lemma_find(s, sep, 0);
    if at < s.len() {
        let head = s.subrange(0, at);
        let tail = s.subrange(at + 1, s.len() as int);
        let pieces = spec_split(s, sep);
        lemma_split_join(tail, sep);
        assert(pieces.drop_first() =~= spec_split(tail, sep));
        assert(head + seq![sep] + tail =~= s);
        assert forall|i: int, j: int|
            0 <= i < pieces.len() && 0 <= j < pieces[i].len() implies #[trigger] pieces[i][j]
            != sep by {
            if i == 0 {
                assert(pieces[0][j] == s[j]);
            } else {
                assert(pieces[i] == spec_split(tail, sep)[i - 1]);
            }
        }
    }
}

/// The byte sequences that a vector of string slices stands for.
pub open spec fn spec_pieces(v: Seq<&str>) -> Seq<Seq<u8>> {
    Seq::new(v.len(), |i: int| v[i].spec_bytes())
}

/// The text that valid UTF-8 bytes spell.
pub open spec fn spec_text(bytes: Seq<u8>) -> Seq<char> {
    decode_utf8(bytes)
}

/// The bytes of a string slice are valid UTF-8 and spell its characters.
pub proof fn lemma_str_bytes(s: &str)
    ensures
        valid_utf8(s.spec_bytes()),
        spec_text(s.spec_bytes()) == s@,
{
    encode_utf8_valid_utf8(s@);
    encode_utf8_decode_utf8(s@);
}

/// Cutting valid UTF-8 just before an ASCII byte leaves both sides valid,
/// and so does cutting just after it.
pub proof fn lemma_cut_at_ascii(bytes: Seq<u8>, i: int)
    requires
        valid_utf8(bytes),
        0 <= i < bytes.len(),
        bytes[i] < 0x80,
    ensures
        is_char_boundary(bytes, i),
        valid_utf8(bytes.subrange(0, i)),
        valid_utf8(bytes.subrange(i, bytes.len() as int)),
        is_char_boundary(bytes.subrange(i, bytes.len() as int), 1),
        valid_utf8(bytes.subrange(i + 1, bytes.len() as int)),
{
    is_char_boundary_iff_not_is_continuation_byte(bytes, i);
    assert(!is_continuation_byte(bytes[i]));
    valid_utf8_split(bytes, i);
    let rest = bytes.subrange(i, bytes.len() as int);
    assert(rest[0] == bytes[i]);
    assert(length_of_first_scalar(rest) == 1);
    assert(pop_first_scalar(rest) =~= bytes.subrange(i + 1, bytes.len() as int));
    assert(valid_utf8(pop_first_scalar(rest)));
    assert(is_char_boundary(pop_first_scalar(rest), 0));
    assert(is_char_boundary(rest, 1));
}

/// The part of `s` before byte offset `i` and the part after byte `i`, where
/// byte `i` is ASCII.
pub fn cut_str<'a>(s: &'a str, i: usize) -> (r: (&'a str, &'a str))
    requires
        i < s.spec_bytes().len(),
        s.spec_bytes()[i as int] < 0x80,
    ensures
        r.0.spec_bytes() == s.spec_bytes().subrange(0, i as int),
        r.1.spec_bytes() == s.spec_bytes().subrange(i + 1, s.spec_bytes().len() as int),
{
    proof {
        lemma_str_bytes(s);
        lemma_cut_at_ascii(s.spec_bytes(), i as int);
    }
    let (head, rest) = s.split_at(i);
    let (_, tail) = rest.split_at(1);
    proof {
        let b = s.spec_bytes();
        assert(rest.spec_bytes().subrange(1, rest.spec_bytes().len() as int) =~= b.subrange(
            i + 1,
            b.len() as int,
        ));
    }
    (head, tail)
}

/// Splits a string slice on an ASCII separator byte.
pub fn split_str<'a>(s: &'a str, sep: u8) -> (out: Vec<&'a str>)
    requires
        sep < 0x80,
    ensures
        spec_pieces(out@) == spec_split(s.spec_bytes(), sep),
{
    let mut out: Vec<&'a str> = Vec::new();
    let mut rest: &'a str = s;
    loop
        invariant_except_break
            spec_split(s.spec_bytes(), sep) == spec_pieces(out@) + spec_split(
                rest.spec_bytes(),
                sep,
            ),
        invariant
            sep < 0x80,
        ensures
            spec_pieces(out@) == spec_split(s.spec_bytes(), sep),
        decreases rest.spec_bytes().len(),
    {
        let bytes = rest.as_bytes();
        let i = find_byte(bytes, sep, 0);
        proof {
            lemma_find(bytes@, sep, 0);
        }
        if i >= bytes.len() {
            let ghost before = out@;
            out.push(rest);
            assert(spec_pieces(out@) =~= spec_pieces(before) + seq![rest.spec_bytes()]);
            break ;
        }
        let (head, tail) = cut_str(rest, i);
        let ghost before = out@;
        out.push(head);
        assert(spec_pieces(out@) =~= spec_pieces(before) + seq![head.spec_bytes()]);
        assert(spec_pieces(before) + (seq![head.spec_bytes()] + spec_split(
            tail.spec_bytes(),
            sep,
        )) =~= spec_pieces(out@) + spec_split(tail.spec_bytes(), sep));
        rest = tail;
    }
    out
}

/// Reads bytes as a string slice when they are valid UTF-8.
///
/// Trusted: stands for `std::str::from_utf8`, which accepts exactly the
/// well-formed UTF-8 byte sequences and hands back the same bytes as `str`.
#[verifier::external_body]
pub(crate) fn str_from_utf8(bytes: &[u8]) -> (r: Option<&str>)
    ensures
        r is Some <==> valid_utf8(bytes@),
        r matches Some(s) ==> s.spec_bytes() == bytes@,
{
    std::str::from_utf8(bytes).ok()
}

/// Whether two byte slices hold the same bytes.
pub fn bytes_eq(a: &[u8], b: &[u8]) -> (r: bool)
    ensures
        r == (a@ == b@),
{
    if a.len() != b.len() {
        return false;
    }
    let mut i: usize = 0;
    while i < a.len()
        invariant
            a@.len() == b@.len(),
            i <= a@.len(),
            forall|j: int| 0 <= j < i ==> a@[j] == b@[j],
        decreases a@.len() - i,
    {
        if a[i] != b[i] {
            return false;
        }
        i += 1;
    }
    assert(a@ =~= b@);
    true
}

/// Whether two string slices hold the same text.
pub fn str_eq(a: &str, b: &str) -> (r: bool)
    ensures
        r == (a@ == b@),
{
    proof {
        lemma_str_bytes(a);
        lemma_str_bytes(b);
    }
    bytes_eq(a.as_bytes(), b.as_bytes())
}

/// Whether `b` is an ASCII decimal digit.
pub open spec fn spec_is_digit(b: u8) -> bool {
    DIGIT_ZERO <= b <= DIGIT_ZERO + 9
}

/// Whether every byte of `s` is an ASCII decimal digit.
pub open spec fn spec_all_digits(s: Seq<u8>) -> bool {
    forall|i: int| 0 <= i < s.len() ==> spec_is_digit(#[trigger] s[i])
}

/// The number that a string of decimal digits writes.
pub open spec fn spec_digits_value(s: Seq<u8>) -> nat
    decreases s.len(),
{
    if s.len() == 0 {
        0
    } else {
        spec_digits_value(s.drop_last()) * 10 + (s.last() - DIGIT_ZERO) as nat
    }
}

/// The number that `s` writes in decimal: an optional `+`, then one or more
/// digits and nothing else.
pub open spec fn spec_number(s: Seq<u8>) -> Option<nat> {
    let digits = if s.len() > 0 && s[0] == PLUS {
        s.drop_first()
    } else {
        s
    };
    if digits.len() > 0 && spec_all_digits(digits) {
        Some(spec_digits_value(digits))
    } else {
        None
    }
}

/// The number that `s` writes, where it fits the machine's `usize`.
pub open spec fn spec_number_usize(s: Seq<u8>) -> Option<usize> {
    match spec_number(s) {
        Some(n) => if n <= usize::MAX {
            Some(n as usize)
        } else {
            None
        },
        None => None,
    }
}

/// A digit string is worth at least as much as any of its prefixes.
pub proof fn lemma_digits_prefix(s: Seq<u8>, k: int)
    requires
        0 <= k <= s.len(),
        spec_all_digits(s),
    ensures
        spec_digits_value(s.take(k)) <= spec_digits_value(s),
    decreases s.len() - k,
{
    if k == s.len() {
        assert(s.take(k) =~= s);
    } else {
        let shorter = s.drop_last();
        assert(shorter.take(k) =~= s.take(k));
        assert(spec_is_digit(s[s.len() - 1]));
        lemma_digits_prefix(shorter, k);
    }
}

/// Parses a decimal number that fits `usize`.
pub fn parse_number(s: &[u8]) -> (r: Option<usize>)
    ensures
        r == spec_number_usize(s@),
{
    let start: usize = if s.len() > 0 && s[0] == PLUS {
        1
    } else {
        0
    };
    if start >= s.len() {
        return None;
    }
    let ghost digits = s@.subrange(start as int, s@.len() as int);
    assert(digits =~= (if s@.len() > 0 && s@[0] == PLUS {
        s@.drop_first()
    } else {
        s@
    }));
    assert(spec_number(s@) == (if spec_all_digits(digits) {
        Some(spec_digits_value(digits))
    } else {
        None
    }));
    let mut acc: usize = 0;
    let mut i: usize = start;
    assert(digits.take(0) =~= Seq::<u8>::empty());
    while i < s.len()
        invariant
            start <= i <= s@.len(),
            digits == s@.subrange(start as int, s@.len() as int),
            spec_number(s@) == (if spec_all_digits(digits) {
                Some(spec_digits_value(digits))
            } else {
                None
            }),
            spec_all_digits(digits.take(i - start)),
            acc == spec_digits_value(digits.take(i - start)),
        decreases s@.len() - i,
    {
        let b = s[i];
        let ghost longer = digits.take(i - start + 1);
        proof {
            assert(digits[i - start] == b);
            assert(longer.drop_last() =~= digits.take(i - start));
            assert(longer.last() == b);
        }
        if b < DIGIT_ZERO || b > DIGIT_ZERO + 9 {
            assert(!spec_is_digit(digits[i - start]));
            return None;
        }
        assert(spec_all_digits(longer)) by {
            assert forall|j: int| 0 <= j < longer.len() implies spec_is_digit(
                #[trigger] longer[j],
            ) by {
                if j < i - start {
                    assert(longer[j] == digits.take(i - start)[j]);
                }
            }
        }
        let d: usize = (b - DIGIT_ZERO) as usize;
        let next = match acc.checked_mul(10) {
            Some(m) => m.checked_add(d),
            None => None,
        };
        match next {
            Some(n) => {
                acc = n;
            },
            None => {
                proof {
                    assert(spec_digits_value(longer) > usize::MAX);
                    if spec_all_digits(digits) {
                        lemma_digits_prefix(digits, i - start + 1);
                    }
                }
                return None;
            },
        }
        i += 1;
    }
    assert(digits.take(i - start) =~= digits);
    Some(acc)
}

/// The decimal digit character for `d`.
pub open spec fn spec_digit_char(d: nat) -> char {
    if d == 0 {
        '0'
    } else if d == 1 {
        '1'
    } else if d == 2 {
        '2'
    } else if d == 3 {
        '3'
    } else if d == 4 {
        '4'
    } else if d == 5 {
        '5'
    } else if d == 6 {
        '6'
    } else if d == 7 {
        '7'
    } else if d == 8 {
        '8'
    } else {
        '9'
    }
}

/// The decimal writing of `n`, without sign or leading zeros.
pub open spec fn spec_decimal(n: nat) -> Seq<char>
    decreases n,
{
    if n < 10 {
        seq![spec_digit_char(n)]
    } else {
        spec_decimal(n / 10).push(spec_digit_char(n % 10))
    }
}

fn digit_str(d: u64) -> (r: &'static str)
    requires
        d < 10,
    ensures
        r@ == seq![spec_digit_char(d as nat)],
{
    proof {
        reveal_strlit("0");
        reveal_strlit("1");
        reveal_strlit("2");
        reveal_strlit("3");
        reveal_strlit("4");
        reveal_strlit("5");
        reveal_strlit("6");
        reveal_strlit("7");
        reveal_strlit("8");
        reveal_strlit("9");
    }
    let r = if d == 0 {
        "0"
    } else if d == 1 {
        "1"
    } else if d == 2 {
        "2"
    } else if d == 3 {
        "3"
    } else if d == 4 {
        "4"
    } else if d == 5 {
        "5"
    } else if d == 6 {
        "6"
    } else if d == 7 {
        "7"
    } else if d == 8 {
        "8"
    } else {
        "9"
    };
    assert(r@ =~= seq![spec_digit_char(d as nat)]);
    r
}

/// Writes `n` in decimal.
pub fn decimal(n: u64) -> (r: String)
    ensures
        r@ == spec_decimal(n as nat),
    decreases n,
{
    if n < 10 {
        digit_str(n).to_owned()
    } else {
        let head = decimal(n / 10);
        let r = head.concat(digit_str(n % 10));
        assert(r@ =~= spec_decimal((n / 10) as nat).push(spec_digit_char((n % 10) as nat)));
        r
    }
}

/// The decimal writing of a number is ASCII digits that write that number.
pub proof fn lemma_decimal_digits(n: nat)
    ensures
        is_ascii_chars(spec_decimal(n)),
        encode_utf8(spec_decimal(n)).len() == spec_decimal(n).len(),
        spec_decimal(n).len() > 0,
        spec_all_digits(encode_utf8(spec_decimal(n))),
        spec_digits_value(encode_utf8(spec_decimal(n))) == n,
    decreases n,
{
    let chars = spec_decimal(n);
    let bytes = encode_utf8(chars);
    if n < 10 {
        assert(is_ascii_chars(chars));
        is_ascii_chars_encode_utf8(chars);
        assert(bytes[0] == chars[0] as u8);
        assert(bytes.drop_last() =~= Seq::<u8>::empty());
        assert(spec_digits_value(bytes.drop_last()) == 0);
    } else {
        let head = spec_decimal(n / 10);
        lemma_decimal_digits(n / 10);
        assert forall|i: int| 0 <= i < chars.len() implies '\0' <= #[trigger] chars[i]
            <= '\u{7f}' by {
            if i < head.len() {
                assert(chars[i] == head[i]);
            }
        }
        is_ascii_chars_encode_utf8(chars);
        is_ascii_chars_encode_utf8(head);
        let head_bytes = encode_utf8(head);
        assert(bytes.drop_last() =~= head_bytes) by {
            assert forall|i: int| 0 <= i < head_bytes.len() implies bytes.drop_last()[i]
                == head_bytes[i] by {
                assert(chars[i] == head[i]);
            }
        }
        assert(bytes.last() == chars[chars.len() - 1] as u8);
        assert forall|i: int| 0 <= i < bytes.len() implies spec_is_digit(#[trigger] bytes[i]) by {
            if i < head_bytes.len() {
                assert(bytes[i] == bytes.drop_last()[i]);
            }
        }
    }
}

/// A number written in decimal reads back as the same number.
pub proof fn lemma_decimal_reads_back(n: nat)
    ensures
        spec_number(encode_utf8(spec_decimal(n))) == Some(n),
{
    lemma_decimal_digits(n);
    let bytes = encode_utf8(spec_decimal(n));
    assert(spec_is_digit(bytes[0]));
}

} // verus!
