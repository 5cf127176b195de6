//! The textual codec: a lossless, human-readable serialization of data
//! values and structural type descriptors, used for diffing and editing.
//!
//! Every serialized form is a one-character tag followed by its payload.
//! Numbers are written in decimal and closed by `:`; a string is written as
//! its length, `:`, and its characters; arrays and records are written as
//! their length, `:`, and their serialized elements in order. Parsing
//! reverses serialization exactly: the round-trip lemmas prove that parsing
//! a serialized value yields the value back.

use vstd::prelude::*;

use vstd::string::StrSliceExecFns;
use vstd::string::StringExecFns;

verus! {

broadcast use vstd::std_specs::vec::group_vec_axioms, vstd::seq::group_seq_axioms;

/// The decimal digit character for `d`, which must lie in `0 ..= 9`.
pub open spec fn digit_char(d: int) -> char {
    if d == 0 {
        '0'
    } else if d == 1 {
        '1'
    } else if d == 2 {
        '2'
    } else if d == 3 {
        '3'
    } else if d == 4 {
        '4'
    } else if d == 5 {
        '5'
    } else if d == 6 {
        '6'
    } else if d == 7 {
        '7'
    } else if d == 8 {
        '8'
    } else {
        '9'
    }
}

/// Whether `c` is a decimal digit character.
pub open spec fn is_digit_char(c: char) -> bool {
    48 <= c as u32 <= 57
}

/// The numeric value of a decimal digit character.
pub open spec fn digit_value(c: char) -> int {
    c as u32 - 48
}

/// Each digit character carries its own value.
pub proof fn lemma_digit_char_value(d: int)
    requires
        0 <= d <= 9,
    ensures
        is_digit_char(digit_char(d)),
        digit_value(digit_char(d)) == d,
{
}

/// The decimal digits of `n`, most significant first, without leading
/// zeros (`0` is written as one digit).
pub open spec fn dec_digits(n: nat) -> Seq<char>
    decreases n,
{
    if n < 10 {
        seq![digit_char(n as int)]
    } else {
        dec_digits(n / 10).push(digit_char((n % 10) as int))
    }
}

/// Every character of a decimal rendering is a digit, and there is at
/// least one.
pub proof fn lemma_dec_digits_are_digits(n: nat)
    ensures
        dec_digits(n).len() >= 1,
        forall|i: int|
            0 <= i < dec_digits(n).len() ==> is_digit_char(#[trigger] dec_digits(n)[i]),
    decreases n,
{
    if n < 10 {
        lemma_digit_char_value(n as int);
    } else {
        lemma_dec_digits_are_digits(n / 10);
        lemma_digit_char_value((n % 10) as int);
    }
}

/// The decimal string of `n`: its digits, as an owned string.
pub fn u64_to_string(n: u64) -> (r: String)
    ensures
        r@ == dec_digits(n as nat),
    decreases n,
{
    if n < 10 {
        digit_str(n).to_owned()
    } else {
        let mut s = u64_to_string(n / 10);
        s.append(digit_str(n % 10));
        proof {
            assert(s@ =~= dec_digits(n as nat));
        }
        s
    }
}

/// The one-character string for the digit `d`, which must lie in `0 ..= 9`.
fn digit_str(d: u64) -> (r: &'static str)
    requires
        d <= 9,
    ensures
        r@ == seq![digit_char(d as int)],
{
    let r: &'static str = if d == 0 {
        "0"
    } else if d == 1 {
        "1"
    } else if d == 2 {
        "2"
    } else if d == 3 {
        "3"
    } else if d == 4 {
        "4"
    } else if d == 5 {
        "5"
    } else if d == 6 {
        "6"
    } else if d == 7 {
        "7"
    } else if d == 8 {
        "8"
    } else {
        "9"
    };
    proof {
        reveal_strlit("0");
        reveal_strlit("1");
        reveal_strlit("2");
        reveal_strlit("3");
        reveal_strlit("4");
        reveal_strlit("5");
        reveal_strlit("6");
        reveal_strlit("7");
        reveal_strlit("8");
        reveal_strlit("9");
        assert(r@ =~= seq![digit_char(d as int)]);
    }
    r
}

/// The signed decimal rendering of `v`: a minus sign for a negative value,
/// then the digits of its magnitude.
pub open spec fn dec_digits_signed(v: i64) -> Seq<char> {
    if v < 0 {
        seq!['-'] + dec_digits((-(v as int)) as nat)
    } else {
        dec_digits(v as nat)
    }
}

/// The signed decimal string of `v`.
pub fn i64_to_string(v: i64) -> (r: String)
    ensures
        r@ == dec_digits_signed(v),
{
    if v < 0 {
        // The magnitude of i64::MIN does not fit in i64; negate in two
        // steps so every intermediate value stays in range.
        let mag: u64 = ((-(v + 1)) as u64) + 1;
        proof {
            assert(mag as int == -(v as int));
        }
        let mut s = "-".to_owned();
        let digits = u64_to_string(mag);
        s.append(digits.as_str());
        proof {
            reveal_strlit("-");
            assert(s@ =~= dec_digits_signed(v));
        }
        s
    } else {
        let r = u64_to_string(v as u64);
        proof {
            assert(r@ =~= dec_digits_signed(v));
        }
        r
    }
}


/// Ten to the `k`-th power.
pub open spec fn pow10(k: nat) -> nat
    decreases k,
{
    if k == 0 {
        1
    } else {
        10 * pow10((k - 1) as nat)
    }
}

/// Consumes decimal digits from `pos`, folding them onto `acc`, until a
/// closing `:`; fails at the end of input, on a non-digit, or when the
/// number would not fit.
pub open spec fn parse_digits(s: Seq<char>, pos: int, acc: u64) -> Option<(u64, int)>
    decreases s.len() - pos,
{
    if pos < 0 || pos >= s.len() {
        Option::None
    } else if s[pos] == ':' {
        Option::Some((acc, pos + 1))
    } else if is_digit_char(s[pos]) {
        if acc * 10 + digit_value(s[pos]) <= u64::MAX {
            parse_digits(s, pos + 1, (acc * 10 + digit_value(s[pos])) as u64)
        } else {
            Option::None
        }
    } else {
        Option::None
    }
}

/// Parses a `:`-closed decimal number beginning at `pos`; there must be at
/// least one digit.
pub open spec fn parse_number(s: Seq<char>, pos: int) -> Option<(u64, int)> {
    if 0 <= pos < s.len() && is_digit_char(s[pos]) {
        parse_digits(s, pos, 0)
    } else {
        Option::None
    }
}

/// Folding the digits of `n` onto `acc` yields `acc * pow10(k) + n`, where
/// `k` counts those digits.
proof fn lemma_parse_digits_dec(n: nat, acc: u64, s: Seq<char>, pos: int)
    requires
        0 <= pos,
        pos + dec_digits(n).len() <= s.len(),
        s.subrange(pos, pos + dec_digits(n).len() as int) == dec_digits(n),
        acc * pow10(dec_digits(n).len()) + n <= u64::MAX,
    ensures
        parse_digits(s, pos, acc) == parse_digits(
            s,
            pos + dec_digits(n).len(),
            (acc * pow10(dec_digits(n).len()) + n) as u64,
        ),
    decreases n,
{
    lemma_dec_digits_are_digits(n);
    if n < 10 {
        assert(dec_digits(n).len() == 1);
        assert(s.subrange(pos, pos + 1)[0] == s[pos]);
        assert(s[pos] == digit_char(n as int));
        lemma_digit_char_value(n as int);
        assert(pow10(0) == 1);
        assert(pow10(1) == 10);
        assert(s[pos] != ':');
    } else {
        let k = dec_digits(n).len();
        let kh = dec_digits(n / 10).len();
        assert(dec_digits(n) == dec_digits(n / 10).push(digit_char((n % 10) as int)));
        assert(k == kh + 1);
        assert(s.subrange(pos, pos + kh as int) =~= dec_digits(n / 10)) by {
            assert(forall|i: int|
                0 <= i < kh ==> s.subrange(pos, pos + k as int)[i] == #[trigger] s[pos + i]);
        };
        let mid: nat = (acc * pow10(kh) + n / 10) as nat;
        assert(pow10(k) == 10 * pow10(kh));
        assert(acc * pow10(k) == (acc * pow10(kh)) * 10) by (nonlinear_arith)
            requires
                pow10(k) == 10 * pow10(kh),
        ;
        assert(n == (n / 10) * 10 + n % 10) by (nonlinear_arith)
            requires
                n >= 10,
        ;
        assert(mid * 10 + n % 10 == acc * pow10(k) + n) by (nonlinear_arith)
            requires
                mid == acc * pow10(kh) + n / 10,
                acc * pow10(k) == (acc * pow10(kh)) * 10,
                n == (n / 10) * 10 + n % 10,
        ;
        assert(mid <= u64::MAX);
        lemma_parse_digits_dec(n / 10, acc, s, pos);
        let midpos = pos + kh as int;
        assert(s[midpos] == dec_digits(n)[kh as int]);
        assert(s[midpos] == digit_char((n % 10) as int));
        lemma_digit_char_value((n % 10) as int);
        assert(s[midpos] != ':');
        assert(parse_digits(s, midpos, mid as u64) == parse_digits(
            s,
            midpos + 1,
            (mid * 10 + n % 10) as u64,
        ));
    }
}

/// Parsing the decimal rendering of `n` followed by `:` yields `n` and the
/// position after the `:`.
pub proof fn lemma_parse_number_dec(n: u64, s: Seq<char>, pos: int)
    requires
        0 <= pos,
        pos + dec_digits(n as nat).len() + 1 <= s.len(),
        s.subrange(pos, pos + dec_digits(n as nat).len() as int) == dec_digits(n as nat),
        s[pos + dec_digits(n as nat).len()] == ':',
    ensures
        parse_number(s, pos) == Option::Some(
            (n, pos + dec_digits(n as nat).len() + 1),
        ),
{
    let k = dec_digits(n as nat).len();
    lemma_dec_digits_are_digits(n as nat);
    assert(s[pos] == dec_digits(n as nat)[0]);
    assert(0 * pow10(k) + n as nat == n as nat) by (nonlinear_arith);
    lemma_parse_digits_dec(n as nat, 0, s, pos);
    assert(parse_digits(s, pos + k as int, n) == Option::Some((n, pos + k + 1)));
}


/// The serialized form of a string payload: its length, `:`, then its
/// characters.
pub open spec fn ser_string(str: Seq<char>) -> Seq<char> {
    dec_digits(str.len()) + seq![':'] + str
}

/// The serialized form of an unsigned number: its digits and a closing
/// `:`.
pub open spec fn ser_u64(n: u64) -> Seq<char> {
    dec_digits(n as nat) + seq![':']
}

/// The magnitude of `v` as a natural number.
pub open spec fn magnitude(v: i64) -> nat {
    if v < 0 {
        (-(v as int)) as nat
    } else {
        v as nat
    }
}

/// The serialized form of a signed number: an explicit sign, the digits of
/// the magnitude, and a closing `:`.
pub open spec fn ser_i64(v: i64) -> Seq<char> {
    seq![if v < 0 { '-' } else { '+' }] + dec_digits(magnitude(v)) + seq![':']
}

/// The serialized forms of the values `items[i ..]`, in order.
pub open spec fn ser_value_list_from(items: Seq<crate::model::DataObjectView>, i: int) -> Seq<char>
    decreases items, items.len() - i + 1,
{
    if i < 0 || i >= items.len() {
        Seq::empty()
    } else {
        ser_value(items[i]) + ser_value_list_from(items, i + 1)
    }
}

/// The serialized forms of the named fields `fields[i ..]`, in order: each
/// field is its name then its value.
pub open spec fn ser_field_list_from(
    fields: Seq<(Seq<char>, crate::model::DataObjectView)>,
    i: int,
) -> Seq<char>
    decreases fields, fields.len() - i + 1,
{
    if i < 0 || i >= fields.len() {
        Seq::empty()
    } else {
        ser_string(fields[i].0) + ser_value(fields[i].1) + ser_field_list_from(fields, i + 1)
    }
}

/// The serialized form of a data value: a one-character tag, then the
/// payload; arrays and records carry their length before their elements.
pub open spec fn ser_value(m: crate::model::DataObjectView) -> Seq<char>
    decreases m, 0int,
{
    match m {
        crate::model::DataObjectView::Null => seq!['N'],
        crate::model::DataObjectView::Text(str) => seq!['T'] + ser_string(str),
        crate::model::DataObjectView::LongText(str) => seq!['L'] + ser_string(str),
        crate::model::DataObjectView::Boolean(b) => if b {
            seq!['B', '1']
        } else {
            seq!['B', '0']
        },
        crate::model::DataObjectView::Integer(v) => seq!['I'] + ser_i64(v),
        crate::model::DataObjectView::Float(bits) => seq!['F'] + ser_u64(bits),
        crate::model::DataObjectView::NounReference(v) => seq!['R'] + ser_i64(v),
        crate::model::DataObjectView::Array(items) => seq!['A'] + dec_digits(items.len())
            + seq![':'] + ser_value_list_from(items, 0),
        crate::model::DataObjectView::Custom(fields) => seq!['C'] + dec_digits(fields.len())
            + seq![':'] + ser_field_list_from(fields, 0),
    }
}

/// Whether every string and collection length in `m` fits the number
/// encoding; every value held in memory does.
pub open spec fn value_fits(m: crate::model::DataObjectView) -> bool
    decreases m, 0int,
{
    match m {
        crate::model::DataObjectView::Text(str) => str.len() <= u64::MAX,
        crate::model::DataObjectView::LongText(str) => str.len() <= u64::MAX,
        crate::model::DataObjectView::Array(items) => items.len() <= u64::MAX
            && value_list_fits(items, 0),
        crate::model::DataObjectView::Custom(fields) => fields.len() <= u64::MAX
            && field_list_fits(fields, 0),
        _ => true,
    }
}

/// Whether every value in `items[i ..]` fits.
pub open spec fn value_list_fits(items: Seq<crate::model::DataObjectView>, i: int) -> bool
    decreases items, items.len() - i + 1,
{
    if i < 0 || i >= items.len() {
        true
    } else {
        value_fits(items[i]) && value_list_fits(items, i + 1)
    }
}

/// Whether every field name and value in `fields[i ..]` fits.
pub open spec fn field_list_fits(
    fields: Seq<(Seq<char>, crate::model::DataObjectView)>,
    i: int,
) -> bool
    decreases fields, fields.len() - i + 1,
{
    if i < 0 || i >= fields.len() {
        true
    } else {
        fields[i].0.len() <= u64::MAX && value_fits(fields[i].1) && field_list_fits(fields, i + 1)
    }
}

/// Parses a length-prefixed string payload beginning at `pos`.
pub open spec fn parse_string(s: Seq<char>, pos: int) -> Option<(Seq<char>, int)> {
    match parse_number(s, pos) {
        Option::Some((len, p)) => if p + len <= s.len() {
            Option::Some((s.subrange(p, p + len), p + len))
        } else {
            Option::None
        },
        Option::None => Option::None,
    }
}

/// Parses a signed number beginning at `pos`: a sign, a magnitude, and the
/// closing `:`; the value must fit in a signed machine word.
pub open spec fn parse_i64(s: Seq<char>, pos: int) -> Option<(i64, int)> {
    if 0 <= pos < s.len() && (s[pos] == '-' || s[pos] == '+') {
        match parse_number(s, pos + 1) {
            Option::Some((mag, p)) => if s[pos] == '-' {
                if 1 <= mag <= 0x8000_0000_0000_0000u64 {
                    Option::Some(((-(mag as int)) as i64, p))
                } else {
                    Option::None
                }
            } else {
                if mag <= i64::MAX {
                    Option::Some((mag as i64, p))
                } else {
                    Option::None
                }
            },
            Option::None => Option::None,
        }
    } else {
        Option::None
    }
}

/// Parses one serialized data value beginning at `pos`.
pub open spec fn parse_value(s: Seq<char>, pos: int) -> Option<
    (crate::model::DataObjectView, int),
>
    decreases s.len() - pos, 0int,
{
    if pos < 0 || pos >= s.len() {
        Option::None
    } else if s[pos] == 'N' {
        Option::Some((crate::model::DataObjectView::Null, pos + 1))
    } else if s[pos] == 'T' {
        match parse_string(s, pos + 1) {
            Option::Some((str, p)) => Option::Some(
                (crate::model::DataObjectView::Text(str), p),
            ),
            Option::None => Option::None,
        }
    } else if s[pos] == 'L' {
        match parse_string(s, pos + 1) {
            Option::Some((str, p)) => Option::Some(
                (crate::model::DataObjectView::LongText(str), p),
            ),
            Option::None => Option::None,
        }
    } else if s[pos] == 'B' {
        if pos + 1 < s.len() && s[pos + 1] == '1' {
            Option::Some((crate::model::DataObjectView::Boolean(true), pos + 2))
        } else if pos + 1 < s.len() && s[pos + 1] == '0' {
            Option::Some((crate::model::DataObjectView::Boolean(false), pos + 2))
        } else {
            Option::None
        }
    } else if s[pos] == 'I' {
        match parse_i64(s, pos + 1) {
            Option::Some((v, p)) => Option::Some(
                (crate::model::DataObjectView::Integer(v), p),
            ),
            Option::None => Option::None,
        }
    } else if s[pos] == 'F' {
        match parse_number(s, pos + 1) {
            Option::Some((bits, p)) => Option::Some(
                (crate::model::DataObjectView::Float(bits), p),
            ),
            Option::None => Option::None,
        }
    } else if s[pos] == 'R' {
        match parse_i64(s, pos + 1) {
            Option::Some((v, p)) => Option::Some(
                (crate::model::DataObjectView::NounReference(v), p),
            ),
            Option::None => Option::None,
        }
    } else if s[pos] == 'A' {
        match parse_number(s, pos + 1) {
            Option::Some((n, p)) => if pos + 1 < p <= s.len() {
                match parse_value_list(s, p, n) {
                    Option::Some((items, p2)) => Option::Some(
                        (crate::model::DataObjectView::Array(items), p2),
                    ),
                    Option::None => Option::None,
                }
            } else {
                Option::None
            },
            Option::None => Option::None,
        }
    } else if s[pos] == 'C' {
        match parse_number(s, pos + 1) {
            Option::Some((n, p)) => if pos + 1 < p <= s.len() {
                match parse_field_list(s, p, n) {
                    Option::Some((fields, p2)) => Option::Some(
                        (crate::model::DataObjectView::Custom(fields), p2),
                    ),
                    Option::None => Option::None,
                }
            } else {
                Option::None
            },
            Option::None => Option::None,
        }
    } else {
        Option::None
    }
}

/// Parses `n` serialized values in sequence, each beginning where the
/// previous one ended.
pub open spec fn parse_value_list(s: Seq<char>, pos: int, n: u64) -> Option<
    (Seq<crate::model::DataObjectView>, int),
>
    decreases s.len() - pos, n + 1,
{
    if n == 0 {
        Option::Some((Seq::empty(), pos))
    } else if pos < 0 || pos >= s.len() {
        Option::None
    } else {
        match parse_value(s, pos) {
            Option::Some((m, p)) => if pos < p <= s.len() {
                match parse_value_list(s, p, (n - 1) as u64) {
                    Option::Some((ms, p2)) => Option::Some((seq![m] + ms, p2)),
                    Option::None => Option::None,
                }
            } else {
                Option::None
            },
            Option::None => Option::None,
        }
    }
}

/// Parses `n` serialized named fields in sequence: each is a string name
/// then a value.
pub open spec fn parse_field_list(s: Seq<char>, pos: int, n: u64) -> Option<
    (Seq<(Seq<char>, crate::model::DataObjectView)>, int),
>
    decreases s.len() - pos, n + 1,
{
    if n == 0 {
        Option::Some((Seq::empty(), pos))
    } else if pos < 0 || pos >= s.len() {
        Option::None
    } else {
        match parse_string(s, pos) {
            Option::Some((name, p)) => if pos < p <= s.len() {
                match parse_value(s, p) {
                    Option::Some((m, p2)) => if p <= p2 <= s.len() {
                        match parse_field_list(s, p2, (n - 1) as u64) {
                            Option::Some((fs, p3)) => Option::Some(
                                (seq![(name, m)] + fs, p3),
                            ),
                            Option::None => Option::None,
                        }
                    } else {
                        Option::None
                    },
                    Option::None => Option::None,
                }
            } else {
                Option::None
            },
            Option::None => Option::None,
        }
    }
}


/// Every serialized value occupies at least one character.
proof fn lemma_ser_value_len(m: crate::model::DataObjectView)
    ensures
        ser_value(m).len() >= 1,
{
}

/// Characters of an embedded serialized form can be read off the whole
/// sequence.
proof fn lemma_embedded(s: Seq<char>, pos: int, full: Seq<char>)
    requires
        0 <= pos,
        pos + full.len() <= s.len(),
        s.subrange(pos, pos + full.len() as int) == full,
    ensures
        forall|j: int| 0 <= j < full.len() ==> s[pos + j] == #[trigger] full[j],
{
    assert(forall|j: int|
        0 <= j < full.len() ==> s.subrange(pos, pos + full.len() as int)[j] == #[trigger] s[pos
            + j]);
}

/// Parsing a serialized string payload yields the string back.
proof fn lemma_parse_string_ser(str: Seq<char>, s: Seq<char>, pos: int)
    requires
        str.len() <= u64::MAX,
        0 <= pos,
        pos + ser_string(str).len() <= s.len(),
        s.subrange(pos, pos + ser_string(str).len() as int) == ser_string(str),
    ensures
        parse_string(s, pos) == Option::Some((str, pos + ser_string(str).len() as int)),
{
    let n: u64 = str.len() as u64;
    let digits = dec_digits(n as nat);
    let k = digits.len() as int;
    let full = ser_string(str);
    let ll = full.len() as int;
    lemma_embedded(s, pos, full);
    assert(s.subrange(pos, pos + k) =~= digits) by {
        assert(forall|j: int| 0 <= j < k ==> s.subrange(pos, pos + k)[j] == #[trigger] s[pos + j]);
        assert(forall|j: int| 0 <= j < k ==> full[j] == digits[j]);
    };
    assert(s[pos + k] == full[k]);
    assert(full[k] == ':');
    lemma_parse_number_dec(n, s, pos);
    let p = pos + k + 1;
    assert(p + n <= s.len());
    assert(s.subrange(p, p + n) =~= str) by {
        assert(forall|j: int| 0 <= j < str.len() ==> s.subrange(p, p + n)[j] == #[trigger] s[p
            + j]);
        assert(forall|j: int| 0 <= j < str.len() ==> full[k + 1 + j] == str[j]);
    };
}

/// Parsing a serialized unsigned number yields the number back.
proof fn lemma_parse_u64_ser(v: u64, s: Seq<char>, pos: int)
    requires
        0 <= pos,
        pos + ser_u64(v).len() <= s.len(),
        s.subrange(pos, pos + ser_u64(v).len() as int) == ser_u64(v),
    ensures
        parse_number(s, pos) == Option::Some((v, pos + ser_u64(v).len() as int)),
{
    let digits = dec_digits(v as nat);
    let k = digits.len() as int;
    let full = ser_u64(v);
    lemma_embedded(s, pos, full);
    assert(s.subrange(pos, pos + k) =~= digits) by {
        assert(forall|j: int| 0 <= j < k ==> s.subrange(pos, pos + k)[j] == #[trigger] s[pos + j]);
        assert(forall|j: int| 0 <= j < k ==> full[j] == digits[j]);
    };
    assert(s[pos + k] == full[k]);
    assert(full[k] == ':');
    lemma_parse_number_dec(v, s, pos);
}

/// Parsing a serialized signed number yields the number back.
proof fn lemma_parse_i64_ser(v: i64, s: Seq<char>, pos: int)
    requires
        0 <= pos,
        pos + ser_i64(v).len() <= s.len(),
        s.subrange(pos, pos + ser_i64(v).len() as int) == ser_i64(v),
    ensures
        parse_i64(s, pos) == Option::Some((v, pos + ser_i64(v).len() as int)),
{
    let mag: u64 = magnitude(v) as u64;
    let digits = dec_digits(mag as nat);
    let k = digits.len() as int;
    let full = ser_i64(v);
    lemma_embedded(s, pos, full);
    assert(s[pos] == full[0]);
    assert(s.subrange(pos + 1, pos + 1 + k) =~= digits) by {
        assert(forall|j: int|
            0 <= j < k ==> s.subrange(pos + 1, pos + 1 + k)[j] == #[trigger] s[pos + 1 + j]);
        assert(forall|j: int| 0 <= j < k ==> full[1 + j] == digits[j]);
    };
    assert(s[pos + 1 + k] == full[1 + k]);
    assert(full[1 + k] == ':');
    lemma_parse_number_dec(mag, s, pos + 1);
    if v < 0 {
        assert(s[pos] == '-');
        assert(1 <= mag <= 0x8000_0000_0000_0000u64);
        assert((-(mag as int)) as i64 == v);
    } else {
        assert(s[pos] == '+');
        assert('+' != '-');
        assert(mag <= i64::MAX);
        assert(mag as i64 == v);
    }
}

/// Parsing a serialized value yields the value back, leaving the position
/// just past its serialized form.
#[verifier::rlimit(80)]
pub proof fn lemma_parse_value_ser(m: crate::model::DataObjectView, s: Seq<char>, pos: int)
    requires
        value_fits(m),
        0 <= pos,
        pos + ser_value(m).len() <= s.len(),
        s.subrange(pos, pos + ser_value(m).len() as int) == ser_value(m),
    ensures
        parse_value(s, pos) == Option::Some((m, pos + ser_value(m).len() as int)),
    decreases m, 0int,
{
    let full = ser_value(m);
    let ll = full.len() as int;
    lemma_embedded(s, pos, full);
    match m {
        crate::model::DataObjectView::Null => {
            assert(s[pos] == full[0]);
            assert(full[0] == 'N');
        },
        crate::model::DataObjectView::Text(str) => {
            assert(s[pos] == full[0]);
            assert(full[0] == 'T');
            assert(s.subrange(pos + 1, pos + ll) =~= ser_string(str)) by {
                assert(forall|j: int|
                    0 <= j < ll - 1 ==> s.subrange(pos + 1, pos + ll)[j] == #[trigger] s[pos + 1
                        + j]);
                assert(forall|j: int| 0 <= j < ll - 1 ==> full[1 + j] == ser_string(str)[j]);
            };
            lemma_parse_string_ser(str, s, pos + 1);
        },
        crate::model::DataObjectView::LongText(str) => {
            assert(s[pos] == full[0]);
            assert(full[0] == 'L');
            assert(s.subrange(pos + 1, pos + ll) =~= ser_string(str)) by {
                assert(forall|j: int|
                    0 <= j < ll - 1 ==> s.subrange(pos + 1, pos + ll)[j] == #[trigger] s[pos + 1
                        + j]);
                assert(forall|j: int| 0 <= j < ll - 1 ==> full[1 + j] == ser_string(str)[j]);
            };
            lemma_parse_string_ser(str, s, pos + 1);
        },
        crate::model::DataObjectView::Boolean(b) => {
            assert(s[pos] == full[0]);
            assert(full[0] == 'B');
            assert(s[pos + 1] == full[1]);
        },
        crate::model::DataObjectView::Integer(v) => {
            assert(s[pos] == full[0]);
            assert(full[0] == 'I');
            assert(s.subrange(pos + 1, pos + ll) =~= ser_i64(v)) by {
                assert(forall|j: int|
                    0 <= j < ll - 1 ==> s.subrange(pos + 1, pos + ll)[j] == #[trigger] s[pos + 1
                        + j]);
                assert(forall|j: int| 0 <= j < ll - 1 ==> full[1 + j] == ser_i64(v)[j]);
            };
            lemma_parse_i64_ser(v, s, pos + 1);
        },
        crate::model::DataObjectView::Float(bits) => {
            assert(s[pos] == full[0]);
            assert(full[0] == 'F');
            assert(s.subrange(pos + 1, pos + ll) =~= ser_u64(bits)) by {
                assert(forall|j: int|
                    0 <= j < ll - 1 ==> s.subrange(pos + 1, pos + ll)[j] == #[trigger] s[pos + 1
                        + j]);
                assert(forall|j: int| 0 <= j < ll - 1 ==> full[1 + j] == ser_u64(bits)[j]);
            };
            lemma_parse_u64_ser(bits, s, pos + 1);
        },
        crate::model::DataObjectView::NounReference(v) => {
            assert(s[pos] == full[0]);
            assert(full[0] == 'R');
            assert(s.subrange(pos + 1, pos + ll) =~= ser_i64(v)) by {
                assert(forall|j: int|
                    0 <= j < ll - 1 ==> s.subrange(pos + 1, pos + ll)[j] == #[trigger] s[pos + 1
                        + j]);
                assert(forall|j: int| 0 <= j < ll - 1 ==> full[1 + j] == ser_i64(v)[j]);
            };
            lemma_parse_i64_ser(v, s, pos + 1);
        },
        crate::model::DataObjectView::Array(items) => {
            assert(s[pos] == full[0]);
            assert(full[0] == 'A');
            let n: u64 = items.len() as u64;
            let digits = dec_digits(n as nat);
            let k = digits.len() as int;
            let body = ser_value_list_from(items, 0);
            assert(full == seq!['A'] + digits + seq![':'] + body);
            assert(s.subrange(pos + 1, pos + 1 + k) =~= digits) by {
                assert(forall|j: int|
                    0 <= j < k ==> s.subrange(pos + 1, pos + 1 + k)[j] == #[trigger] s[pos + 1
                        + j]);
                assert(forall|j: int| 0 <= j < k ==> full[1 + j] == digits[j]);
            };
            assert(s[pos + 1 + k] == full[1 + k]);
            assert(full[1 + k] == ':');
            lemma_parse_number_dec(n, s, pos + 1);
            let p = pos + 2 + k;
            assert(parse_number(s, pos + 1) == Option::Some((n, p)));
            assert(s.subrange(p, p + body.len() as int) =~= body) by {
                assert(forall|j: int|
                    0 <= j < body.len() ==> s.subrange(p, p + body.len() as int)[j]
                        == #[trigger] s[p + j]);
                assert(forall|j: int| 0 <= j < body.len() ==> full[2 + k + j] == body[j]);
            };
            lemma_parse_value_list_ser(items, 0, s, p);
            assert(items.subrange(0, items.len() as int) =~= items);
        },
        crate::model::DataObjectView::Custom(fields) => {
            assert(s[pos] == full[0]);
            assert(full[0] == 'C');
            let n: u64 = fields.len() as u64;
            let digits = dec_digits(n as nat);
            let k = digits.len() as int;
            let body = ser_field_list_from(fields, 0);
            assert(full == seq!['C'] + digits + seq![':'] + body);
            assert(s.subrange(pos + 1, pos + 1 + k) =~= digits) by {
                assert(forall|j: int|
                    0 <= j < k ==> s.subrange(pos + 1, pos + 1 + k)[j] == #[trigger] s[pos + 1
                        + j]);
                assert(forall|j: int| 0 <= j < k ==> full[1 + j] == digits[j]);
            };
            assert(s[pos + 1 + k] == full[1 + k]);
            assert(full[1 + k] == ':');
            lemma_parse_number_dec(n, s, pos + 1);
            let p = pos + 2 + k;
            assert(s.subrange(p, p + body.len() as int) =~= body) by {
                assert(forall|j: int|
                    0 <= j < body.len() ==> s.subrange(p, p + body.len() as int)[j]
                        == #[trigger] s[p + j]);
                assert(forall|j: int| 0 <= j < body.len() ==> full[2 + k + j] == body[j]);
            };
            lemma_parse_field_list_ser(fields, 0, s, p);
            assert(fields.subrange(0, fields.len() as int) =~= fields);
        },
    }
}

/// Parsing the serialized forms of `items[i ..]` yields those values back.
proof fn lemma_parse_value_list_ser(
    items: Seq<crate::model::DataObjectView>,
    i: int,
    s: Seq<char>,
    pos: int,
)
    requires
        0 <= i <= items.len(),
        items.len() <= u64::MAX,
        value_list_fits(items, i),
        0 <= pos,
        pos + ser_value_list_from(items, i).len() <= s.len(),
        s.subrange(pos, pos + ser_value_list_from(items, i).len() as int) == ser_value_list_from(
            items,
            i,
        ),
    ensures
        parse_value_list(s, pos, (items.len() - i) as u64) == Option::Some(
            (
                items.subrange(i, items.len() as int),
                pos + ser_value_list_from(items, i).len() as int,
            ),
        ),
    decreases items, items.len() - i + 1,
{
    if i == items.len() {
        assert(items.subrange(i, items.len() as int) =~= Seq::empty());
    } else {
        let full = ser_value_list_from(items, i);
        let head = ser_value(items[i]);
        let tail = ser_value_list_from(items, i + 1);
        assert(full == head + tail);
        lemma_embedded(s, pos, full);
        lemma_ser_value_len(items[i]);
        assert(s.subrange(pos, pos + head.len() as int) =~= head) by {
            assert(forall|j: int|
                0 <= j < head.len() ==> s.subrange(pos, pos + head.len() as int)[j]
                    == #[trigger] s[pos + j]);
            assert(forall|j: int| 0 <= j < head.len() ==> full[j] == head[j]);
        };
        lemma_parse_value_ser(items[i], s, pos);
        let p = pos + head.len() as int;
        assert(s.subrange(p, p + tail.len() as int) =~= tail) by {
            assert(forall|j: int|
                0 <= j < tail.len() ==> s.subrange(p, p + tail.len() as int)[j] == #[trigger] s[p
                    + j]);
            assert(forall|j: int| 0 <= j < tail.len() ==> full[head.len() + j] == tail[j]);
        };
        lemma_parse_value_list_ser(items, i + 1, s, p);
        assert(seq![items[i]] + items.subrange(i + 1, items.len() as int) =~= items.subrange(
            i,
            items.len() as int,
        ));
    }
}

/// Parsing the serialized forms of `fields[i ..]` yields those fields
/// back.
proof fn lemma_parse_field_list_ser(
    fields: Seq<(Seq<char>, crate::model::DataObjectView)>,
    i: int,
    s: Seq<char>,
    pos: int,
)
    requires
        0 <= i <= fields.len(),
        fields.len() <= u64::MAX,
        field_list_fits(fields, i),
        0 <= pos,
        pos + ser_field_list_from(fields, i).len() <= s.len(),
        s.subrange(pos, pos + ser_field_list_from(fields, i).len() as int) == ser_field_list_from(
            fields,
            i,
        ),
    ensures
        parse_field_list(s, pos, (fields.len() - i) as u64) == Option::Some(
            (
                fields.subrange(i, fields.len() as int),
                pos + ser_field_list_from(fields, i).len() as int,
            ),
        ),
    decreases fields, fields.len() - i + 1,
{
    if i == fields.len() {
        assert(fields.subrange(i, fields.len() as int) =~= Seq::empty());
    } else {
        let full = ser_field_list_from(fields, i);
        let name = ser_string(fields[i].0);
        let head = ser_value(fields[i].1);
        let tail = ser_field_list_from(fields, i + 1);
        assert(full == name + head + tail);
        lemma_embedded(s, pos, full);
        lemma_ser_value_len(fields[i].1);
        assert(s.subrange(pos, pos + name.len() as int) =~= name) by {
            assert(forall|j: int|
                0 <= j < name.len() ==> s.subrange(pos, pos + name.len() as int)[j]
                    == #[trigger] s[pos + j]);
            assert(forall|j: int| 0 <= j < name.len() ==> full[j] == name[j]);
        };
        lemma_parse_string_ser(fields[i].0, s, pos);
        let p = pos + name.len() as int;
        assert(s.subrange(p, p + head.len() as int) =~= head) by {
            assert(forall|j: int|
                0 <= j < head.len() ==> s.subrange(p, p + head.len() as int)[j] == #[trigger] s[p
                    + j]);
            assert(forall|j: int| 0 <= j < head.len() ==> full[name.len() + j] == head[j]);
        };
        lemma_parse_value_ser(fields[i].1, s, p);
        let p2 = p + head.len() as int;
        assert(s.subrange(p2, p2 + tail.len() as int) =~= tail) by {
            assert(forall|j: int|
                0 <= j < tail.len() ==> s.subrange(p2, p2 + tail.len() as int)[j]
                    == #[trigger] s[p2 + j]);
            assert(forall|j: int|
                0 <= j < tail.len() ==> full[name.len() + head.len() + j] == tail[j]);
        };
        lemma_parse_field_list_ser(fields, i + 1, s, p2);
        assert(seq![(fields[i].0, fields[i].1)] + fields.subrange(i + 1, fields.len() as int)
            =~= fields.subrange(i, fields.len() as int));
    }
}

/// Round trip: parsing the serialized form of any value yields a
/// structurally equal value, consuming the whole text.
pub proof fn lemma_value_round_trip(m: crate::model::DataObjectView)
    requires
        value_fits(m),
    ensures
        parse_value(ser_value(m), 0) == Option::Some((m, ser_value(m).len() as int)),
{
    assert(ser_value(m).subrange(0, ser_value(m).len() as int) =~= ser_value(m));
    lemma_parse_value_ser(m, ser_value(m), 0);
}


/// Serializes a data value to its textual form.
pub fn serialize_data_object(v: &crate::model::DataObject) -> (r: String)
    ensures
        r@ == ser_value(v@),
{
    let mut out = String::new();
    ser_value_into(v, &mut out);
    proof {
        assert(out@ =~= ser_value(v@));
    }
    out
}

/// Appends the serialized form of `v` to `out`.
fn ser_value_into(v: &crate::model::DataObject, out: &mut String)
    ensures
        final(out)@ == old(out)@ + ser_value(v@),
    decreases v,
{
    proof {
        reveal_strlit("N");
        reveal_strlit("T");
        reveal_strlit("L");
        reveal_strlit("B");
        reveal_strlit("I");
        reveal_strlit("F");
        reveal_strlit("R");
        reveal_strlit("A");
        reveal_strlit("C");
        reveal_strlit("0");
        reveal_strlit("1");
        reveal_strlit(":");
    }
    match v {
        crate::model::DataObject::Null => {
            out.append("N");
            proof {
                assert(out@ =~= old(out)@ + ser_value(v@));
            }
        },
        crate::model::DataObject::Text(str) => {
            out.append("T");
            ser_string_into(str, out);
            proof {
                assert(out@ =~= old(out)@ + ser_value(v@));
            }
        },
        crate::model::DataObject::LongText(str) => {
            out.append("L");
            ser_string_into(str, out);
            proof {
                assert(out@ =~= old(out)@ + ser_value(v@));
            }
        },
        crate::model::DataObject::Boolean(b) => {
            out.append("B");
            if *b {
                out.append("1");
            } else {
                out.append("0");
            }
            proof {
                assert(out@ =~= old(out)@ + ser_value(v@));
            }
        },
        crate::model::DataObject::Integer(i) => {
            out.append("I");
            ser_i64_into(*i, out);
            proof {
                assert(out@ =~= old(out)@ + ser_value(v@));
            }
        },
        crate::model::DataObject::Float(bits) => {
            out.append("F");
            let digits = u64_to_string(*bits);
            out.append(digits.as_str());
            out.append(":");
            proof {
                assert(out@ =~= old(out)@ + ser_value(v@));
            }
        },
        crate::model::DataObject::NounReference(i) => {
            out.append("R");
            ser_i64_into(*i, out);
            proof {
                assert(out@ =~= old(out)@ + ser_value(v@));
            }
        },
        crate::model::DataObject::Array(items) => {
            out.append("A");
            let len = items.len();
            let digits = u64_to_string(len as u64);
            out.append(digits.as_str());
            out.append(":");
            ser_value_list_into(items, out);
            proof {
                crate::model::lemma_data_object_item_views(*items, items.len() as int);
                assert(out@ =~= old(out)@ + ser_value(v@));
            }
        },
        crate::model::DataObject::Custom(fields) => {
            out.append("C");
            let len = fields.0.len();
            let digits = u64_to_string(len as u64);
            out.append(digits.as_str());
            out.append(":");
            ser_field_list_into(&fields.0, out);
            proof {
                crate::model::lemma_data_object_field_views(fields.0, fields.0.len() as int);
                assert(out@ =~= old(out)@ + ser_value(v@));
            }
        },
    }
}

/// Appends a length-prefixed string payload to `out`.
fn ser_string_into(str: &String, out: &mut String)
    ensures
        final(out)@ == old(out)@ + ser_string(str@),
{
    proof {
        reveal_strlit(":");
    }
    let len = str.as_str().unicode_len();
    let digits = u64_to_string(len as u64);
    out.append(digits.as_str());
    out.append(":");
    out.append(str.as_str());
    proof {
        assert(out@ =~= old(out)@ + ser_string(str@));
    }
}

/// Appends a signed number to `out`.
fn ser_i64_into(v: i64, out: &mut String)
    ensures
        final(out)@ == old(out)@ + ser_i64(v),
{
    proof {
        reveal_strlit("-");
        reveal_strlit("+");
        reveal_strlit(":");
    }
    if v < 0 {
        out.append("-");
        // The magnitude of the smallest value does not fit in i64; negate
        // in two steps so every intermediate value stays in range.
        let mag: u64 = ((-(v + 1)) as u64) + 1;
        proof {
            assert(mag as nat == magnitude(v));
        }
        let digits = u64_to_string(mag);
        out.append(digits.as_str());
        out.append(":");
        proof {
            assert(out@ =~= old(out)@ + ser_i64(v));
        }
    } else {
        out.append("+");
        let digits = u64_to_string(v as u64);
        out.append(digits.as_str());
        out.append(":");
        proof {
            assert(out@ =~= old(out)@ + ser_i64(v));
        }
    }
}

/// Appends the serialized forms of all elements of `items` to `out`.
fn ser_value_list_into(items: &Vec<crate::model::DataObject>, out: &mut String)
    ensures
        final(out)@ == old(out)@ + ser_value_list_from(
            crate::model::data_object_item_views(*items, items.len() as int),
            0,
        ),
    decreases items,
{
    let ghost ivs = crate::model::data_object_item_views(*items, items.len() as int);
    proof {
        crate::model::lemma_data_object_item_views(*items, items.len() as int);
    }
    let mut i: usize = 0;
    while i < items.len()
        invariant
            0 <= i <= items.len(),
            ivs == crate::model::data_object_item_views(*items, items.len() as int),
            ivs.len() == items.len(),
            forall|j: int|
                0 <= j < items.len() ==> #[trigger] ivs[j] == crate::model::data_object_view(
                    items[j],
                ),
            out@ + ser_value_list_from(ivs, i as int) == old(out)@ + ser_value_list_from(ivs, 0),
        decreases items.len() - i,
    {
        let ghost prev = out@;
        ser_value_into(&items[i], out);
        i = i + 1;
        proof {
            assert(out@ + ser_value_list_from(ivs, i as int) =~= prev + ser_value_list_from(
                ivs,
                i - 1,
            ));
        }
    }
    proof {
        assert(out@ =~= old(out)@ + ser_value_list_from(ivs, 0));
    }
}

/// Appends the serialized forms of all named fields of `fields` to `out`.
fn ser_field_list_into(fields: &Vec<(String, crate::model::DataObject)>, out: &mut String)
    ensures
        final(out)@ == old(out)@ + ser_field_list_from(
            crate::model::data_object_field_views(*fields, fields.len() as int),
            0,
        ),
    decreases fields,
{
    let ghost fvs = crate::model::data_object_field_views(*fields, fields.len() as int);
    proof {
        crate::model::lemma_data_object_field_views(*fields, fields.len() as int);
    }
    let mut i: usize = 0;
    while i < fields.len()
        invariant
            0 <= i <= fields.len(),
            fvs == crate::model::data_object_field_views(*fields, fields.len() as int),
            fvs.len() == fields.len(),
            forall|j: int|
                0 <= j < fields.len() ==> #[trigger] fvs[j] == (
                fields[j].0@,
                crate::model::data_object_view(fields[j].1),
                ),
            out@ + ser_field_list_from(fvs, i as int) == old(out)@ + ser_field_list_from(fvs, 0),
        decreases fields.len() - i,
    {
        let ghost prev = out@;
        ser_string_into(&fields[i].0, out);
        ser_value_into(&fields[i].1, out);
        i = i + 1;
        proof {
            assert(out@ + ser_field_list_from(fvs, i as int) =~= prev + ser_field_list_from(
                fvs,
                i - 1,
            ));
        }
    }
    proof {
        assert(out@ =~= old(out)@ + ser_field_list_from(fvs, 0));
    }
}


/// The value whose serialized form is exactly `t`, if any.
pub open spec fn spec_parse_data_object(t: Seq<char>) -> Option<crate::model::DataObjectView> {
    match parse_value(t, 0) {
        Option::Some((m, p)) => if p == t.len() {
            Option::Some(m)
        } else {
            Option::None
        },
        Option::None => Option::None,
    }
}

/// Prepends already-parsed values to the result of parsing the remaining
/// ones.
pub open spec fn prepend_values(
    pre: Seq<crate::model::DataObjectView>,
    o: Option<(Seq<crate::model::DataObjectView>, int)>,
) -> Option<(Seq<crate::model::DataObjectView>, int)> {
    match o {
        Option::Some((ms, p)) => Option::Some((pre + ms, p)),
        Option::None => Option::None,
    }
}

/// Prepends already-parsed fields to the result of parsing the remaining
/// ones.
pub open spec fn prepend_fields(
    pre: Seq<(Seq<char>, crate::model::DataObjectView)>,
    o: Option<(Seq<(Seq<char>, crate::model::DataObjectView)>, int)>,
) -> Option<(Seq<(Seq<char>, crate::model::DataObjectView)>, int)> {
    match o {
        Option::Some((fs, p)) => Option::Some((pre + fs, p)),
        Option::None => Option::None,
    }
}

/// Parses a complete serialized data value: the whole text must be
/// consumed.
pub fn parse_data_object(s: &str) -> (r: Option<crate::model::DataObject>)
    ensures
        match r {
            Option::Some(v) => spec_parse_data_object(s@) == Option::Some(v@),
            Option::None => spec_parse_data_object(s@) is None,
        },
{
    let n = s.unicode_len();
    match parse_value_at(s, n, 0) {
        Option::Some((v, p)) => if p == n {
            Option::Some(v)
        } else {
            Option::None
        },
        Option::None => Option::None,
    }
}

/// Parses one serialized value beginning at character position `pos`.
fn parse_value_at(s: &str, n: usize, pos: usize) -> (r: Option<
    (crate::model::DataObject, usize),
>)
    requires
        n == s@.len(),
        pos <= n,
    ensures
        match r {
            Option::Some((v, p)) => parse_value(s@, pos as int) == Option::Some(
                (v@, p as int),
            ) && pos < p <= n,
            Option::None => parse_value(s@, pos as int) is None,
        },
    decreases n - pos, 0int,
{
    if pos >= n {
        return Option::None;
    }
    let c = s.get_char(pos);
    if c == 'N' {
        Option::Some((crate::model::DataObject::Null, pos + 1))
    } else if c == 'T' {
        match parse_string_at(s, n, pos + 1) {
            Option::Some((str, p)) => Option::Some((crate::model::DataObject::Text(str), p)),
            Option::None => Option::None,
        }
    } else if c == 'L' {
        match parse_string_at(s, n, pos + 1) {
            Option::Some((str, p)) => Option::Some((crate::model::DataObject::LongText(str), p)),
            Option::None => Option::None,
        }
    } else if c == 'B' {
        if pos + 1 < n {
            let c2 = s.get_char(pos + 1);
            if c2 == '1' {
                Option::Some((crate::model::DataObject::Boolean(true), pos + 2))
            } else if c2 == '0' {
                Option::Some((crate::model::DataObject::Boolean(false), pos + 2))
            } else {
                Option::None
            }
        } else {
            Option::None
        }
    } else if c == 'I' {
        match parse_i64_at(s, n, pos + 1) {
            Option::Some((v, p)) => Option::Some((crate::model::DataObject::Integer(v), p)),
            Option::None => Option::None,
        }
    } else if c == 'F' {
        match parse_number_at(s, n, pos + 1) {
            Option::Some((bits, p)) => Option::Some((crate::model::DataObject::Float(bits), p)),
            Option::None => Option::None,
        }
    } else if c == 'R' {
        match parse_i64_at(s, n, pos + 1) {
            Option::Some((v, p)) => Option::Some(
                (crate::model::DataObject::NounReference(v), p),
            ),
            Option::None => Option::None,
        }
    } else if c == 'A' {
        match parse_number_at(s, n, pos + 1) {
            Option::Some((cnt, p)) => match parse_value_list_at(s, n, p, cnt) {
                Option::Some((items, p2)) => {
                    proof {
                        crate::model::lemma_data_object_item_views(items, items.len() as int);
                    }
                    Option::Some((crate::model::DataObject::Array(items), p2))
                },
                Option::None => Option::None,
            },
            Option::None => Option::None,
        }
    } else if c == 'C' {
        match parse_number_at(s, n, pos + 1) {
            Option::Some((cnt, p)) => match parse_field_list_at(s, n, p, cnt) {
                Option::Some((fields, p2)) => {
                    proof {
                        crate::model::lemma_data_object_field_views(fields, fields.len() as int);
                    }
                    Option::Some(
                        (
                            crate::model::DataObject::Custom(
                                crate::model::CustomDataObject(fields),
                            ),
                            p2,
                        ),
                    )
                },
                Option::None => Option::None,
            },
            Option::None => Option::None,
        }
    } else {
        Option::None
    }
}

/// Parses a `:`-closed decimal number beginning at `pos`.
fn parse_number_at(s: &str, n: usize, pos: usize) -> (r: Option<(u64, usize)>)
    requires
        n == s@.len(),
        pos <= n,
    ensures
        match r {
            Option::Some((v, p)) => parse_number(s@, pos as int) == Option::Some(
                (v, p as int),
            ) && pos < p <= n,
            Option::None => parse_number(s@, pos as int) is None,
        },
{
    if pos >= n {
        return Option::None;
    }
    let c0 = s.get_char(pos);
    let u0 = c0 as u32;
    if !(48 <= u0 && u0 <= 57) {
        return Option::None;
    }
    let mut cur: usize = pos;
    let mut acc: u64 = 0;
    loop
        invariant
            n == s@.len(),
            pos <= cur <= n,
            parse_digits(s@, pos as int, 0) == parse_digits(s@, cur as int, acc),
            0 <= pos < s@.len(),
            is_digit_char(s@[pos as int]),
        decreases n - cur,
    {
        if cur >= n {
            return Option::None;
        }
        let c = s.get_char(cur);
        if c == ':' {
            return Option::Some((acc, cur + 1));
        }
        let u = c as u32;
        if !(48 <= u && u <= 57) {
            return Option::None;
        }
        let d: u64 = ((u - 48)) as u64;
        if acc > (u64::MAX - d) / 10 {
            proof {
                assert(acc * 10 + d > u64::MAX) by (nonlinear_arith)
                    requires
                        acc > (u64::MAX - d) / 10,
                        d <= 9,
                        (u64::MAX - d) == 10 * ((u64::MAX - d) as int / 10) + (u64::MAX - d) as int
                            % 10,
                        0 <= (u64::MAX - d) as int % 10 < 10,
                ;
            }
            return Option::None;
        }
        proof {
            assert(acc * 10 + d <= u64::MAX) by (nonlinear_arith)
                requires
                    acc <= (u64::MAX - d) / 10,
                    d <= 9,
                    (u64::MAX - d) == 10 * ((u64::MAX - d) as int / 10) + (u64::MAX - d) as int
                        % 10,
                    0 <= (u64::MAX - d) as int % 10 < 10,
            ;
        }
        acc = acc * 10 + d;
        cur = cur + 1;
    }
}

/// Parses a length-prefixed string payload beginning at `pos`.
fn parse_string_at(s: &str, n: usize, pos: usize) -> (r: Option<(String, usize)>)
    requires
        n == s@.len(),
        pos <= n,
    ensures
        match r {
            Option::Some((str, p)) => parse_string(s@, pos as int) == Option::Some(
                (str@, p as int),
            ) && pos < p <= n,
            Option::None => parse_string(s@, pos as int) is None,
        },
{
    match parse_number_at(s, n, pos) {
        Option::Some((len, p)) => {
            if len > (n - p) as u64 {
                return Option::None;
            }
            let l = len as usize;
            let sub = s.substring_char(p, p + l);
            Option::Some((sub.to_owned(), p + l))
        },
        Option::None => Option::None,
    }
}

/// Parses a signed number beginning at `pos`.
fn parse_i64_at(s: &str, n: usize, pos: usize) -> (r: Option<(i64, usize)>)
    requires
        n == s@.len(),
        pos <= n,
    ensures
        match r {
            Option::Some((v, p)) => parse_i64(s@, pos as int) == Option::Some(
                (v, p as int),
            ) && pos < p <= n,
            Option::None => parse_i64(s@, pos as int) is None,
        },
{
    if pos >= n {
        return Option::None;
    }
    let c = s.get_char(pos);
    if c == '-' {
        match parse_number_at(s, n, pos + 1) {
            Option::Some((mag, p)) => {
                if 1 <= mag && mag <= 0x8000_0000_0000_0000u64 {
                    let v: i64 = if mag == 0x8000_0000_0000_0000u64 {
                        i64::MIN
                    } else {
                        -((mag) as i64)
                    };
                    proof {
                        assert(v as int == -(mag as int));
                    }
                    Option::Some((v, p))
                } else {
                    Option::None
                }
            },
            Option::None => Option::None,
        }
    } else if c == '+' {
        match parse_number_at(s, n, pos + 1) {
            Option::Some((mag, p)) => {
                if mag <= (i64::MAX as u64) {
                    Option::Some((mag as i64, p))
                } else {
                    Option::None
                }
            },
            Option::None => Option::None,
        }
    } else {
        Option::None
    }
}

/// Parses `count` serialized values in sequence.
fn parse_value_list_at(s: &str, n: usize, pos: usize, count: u64) -> (r: Option<
    (Vec<crate::model::DataObject>, usize),
>)
    requires
        n == s@.len(),
        pos <= n,
    ensures
        match r {
            Option::Some((vs, p)) => parse_value_list(s@, pos as int, count) == Option::Some(
                (
                    crate::model::data_object_item_views(vs, vs.len() as int),
                    p as int,
                ),
            ) && pos <= p <= n,
            Option::None => parse_value_list(s@, pos as int, count) is None,
        },
    decreases n - pos, count + 1,
{
    let mut out: Vec<crate::model::DataObject> = Vec::new();
    let mut cur: usize = pos;
    let mut j: u64 = 0;
    proof {
        crate::model::lemma_data_object_item_views(out, out.len() as int);
    }
    while j < count
        invariant
            n == s@.len(),
            pos <= cur <= n,
            0 <= j <= count,
            out.len() as u64 == j,
            prepend_values(
                crate::model::data_object_item_views(out, out.len() as int),
                parse_value_list(s@, cur as int, (count - j) as u64),
            ) == parse_value_list(s@, pos as int, count),
            j > 0 ==> pos < cur,
        decreases count - j,
    {
        if cur >= n {
            return Option::None;
        }
        let ghost prev_views = crate::model::data_object_item_views(out, out.len() as int);
        proof {
            crate::model::lemma_data_object_item_views(out, out.len() as int);
        }
        match parse_value_at(s, n, cur) {
            Option::None => {
                return Option::None;
            },
            Option::Some((v, p)) => {
                out.push(v);
                proof {
                    crate::model::lemma_data_object_item_views(out, out.len() as int);
                    assert(crate::model::data_object_item_views(out, out.len() as int)
                        =~= prev_views.push(v@));
                    let rest = parse_value_list(s@, p as int, (count - j - 1) as u64);
                    match rest {
                        Option::Some((ms, q)) => {
                            assert(prev_views + (seq![v@] + ms) =~= prev_views.push(v@) + ms);
                        },
                        Option::None => {},
                    }
                }
                cur = p;
                j = j + 1;
            },
        }
    }
    proof {
        assert(crate::model::data_object_item_views(out, out.len() as int) + Seq::<
            crate::model::DataObjectView,
        >::empty() =~= crate::model::data_object_item_views(out, out.len() as int));
    }
    Option::Some((out, cur))
}

/// Parses `count` serialized named fields in sequence.
fn parse_field_list_at(s: &str, n: usize, pos: usize, count: u64) -> (r: Option<
    (Vec<(String, crate::model::DataObject)>, usize),
>)
    requires
        n == s@.len(),
        pos <= n,
    ensures
        match r {
            Option::Some((fs, p)) => parse_field_list(s@, pos as int, count) == Option::Some(
                (
                    crate::model::data_object_field_views(fs, fs.len() as int),
                    p as int,
                ),
            ) && pos <= p <= n,
            Option::None => parse_field_list(s@, pos as int, count) is None,
        },
    decreases n - pos, count + 1,
{
    let mut out: Vec<(String, crate::model::DataObject)> = Vec::new();
    let mut cur: usize = pos;
    let mut j: u64 = 0;
    proof {
        crate::model::lemma_data_object_field_views(out, out.len() as int);
    }
    while j < count
        invariant
            n == s@.len(),
            pos <= cur <= n,
            0 <= j <= count,
            out.len() as u64 == j,
            prepend_fields(
                crate::model::data_object_field_views(out, out.len() as int),
                parse_field_list(s@, cur as int, (count - j) as u64),
            ) == parse_field_list(s@, pos as int, count),
            j > 0 ==> pos < cur,
        decreases count - j,
    {
        if cur >= n {
            return Option::None;
        }
        let ghost prev_views = crate::model::data_object_field_views(out, out.len() as int);
        proof {
            crate::model::lemma_data_object_field_views(out, out.len() as int);
        }
        match parse_string_at(s, n, cur) {
            Option::None => {
                return Option::None;
            },
            Option::Some((name, p)) => {
                match parse_value_at(s, n, p) {
                    Option::None => {
                        return Option::None;
                    },
                    Option::Some((v, p2)) => {
                        let ghost namev = name@;
                        out.push((name, v));
                        proof {
                            crate::model::lemma_data_object_field_views(out, out.len() as int);
                            assert(crate::model::data_object_field_views(out, out.len() as int)
                                =~= prev_views.push((namev, v@)));
                            let rest = parse_field_list(s@, p2 as int, (count - j - 1) as u64);
                            match rest {
                                Option::Some((fs2, q)) => {
                                    assert(prev_views + (seq![(namev, v@)] + fs2)
                                        =~= prev_views.push((namev, v@)) + fs2);
                                },
                                Option::None => {},
                            }
                        }
                        cur = p2;
                        j = j + 1;
                    },
                }
            },
        }
    }
    proof {
        assert(crate::model::data_object_field_views(out, out.len() as int) + Seq::<
            (Seq<char>, crate::model::DataObjectView),
        >::empty() =~= crate::model::data_object_field_views(out, out.len() as int));
    }
    Option::Some((out, cur))
}


/// The serialized forms of the descriptor fields `fields[i ..]`, in order.
pub open spec fn ser_def_field_list_from(
    fields: Seq<(Seq<char>, crate::model::DataTypeDefinitionView)>,
    i: int,
) -> Seq<char>
    decreases fields, fields.len() - i + 1,
{
    if i < 0 || i >= fields.len() {
        Seq::empty()
    } else {
        ser_string(fields[i].0) + ser_def(fields[i].1) + ser_def_field_list_from(fields, i + 1)
    }
}

/// The serialized form of a structural type descriptor: a one-character
/// tag; an array carries its element descriptor, a record its length and
/// named field descriptors.
pub open spec fn ser_def(d: crate::model::DataTypeDefinitionView) -> Seq<char>
    decreases d, 0int,
{
    match d {
        crate::model::DataTypeDefinitionView::Text => seq!['t'],
        crate::model::DataTypeDefinitionView::LongText => seq!['l'],
        crate::model::DataTypeDefinitionView::Boolean => seq!['b'],
        crate::model::DataTypeDefinitionView::Integer => seq!['i'],
        crate::model::DataTypeDefinitionView::Float => seq!['f'],
        crate::model::DataTypeDefinitionView::NounReference => seq!['r'],
        crate::model::DataTypeDefinitionView::Array(inner) => seq!['a'] + ser_def(*inner),
        crate::model::DataTypeDefinitionView::Custom(fields) => seq!['c'] + dec_digits(
            fields.len(),
        ) + seq![':'] + ser_def_field_list_from(fields, 0),
    }
}

/// Whether every name and record length in `d` fits the number encoding.
pub open spec fn def_fits(d: crate::model::DataTypeDefinitionView) -> bool
    decreases d, 0int,
{
    match d {
        crate::model::DataTypeDefinitionView::Array(inner) => def_fits(*inner),
        crate::model::DataTypeDefinitionView::Custom(fields) => fields.len() <= u64::MAX
            && def_field_list_fits(fields, 0),
        _ => true,
    }
}

/// Whether every name and descriptor in `fields[i ..]` fits.
pub open spec fn def_field_list_fits(
    fields: Seq<(Seq<char>, crate::model::DataTypeDefinitionView)>,
    i: int,
) -> bool
    decreases fields, fields.len() - i + 1,
{
    if i < 0 || i >= fields.len() {
        true
    } else {
        fields[i].0.len() <= u64::MAX && def_fits(fields[i].1) && def_field_list_fits(
            fields,
            i + 1,
        )
    }
}

/// Parses one serialized type descriptor beginning at `pos`.
pub open spec fn parse_def(s: Seq<char>, pos: int) -> Option<
    (crate::model::DataTypeDefinitionView, int),
>
    decreases s.len() - pos, 0int,
{
    if pos < 0 || pos >= s.len() {
        Option::None
    } else if s[pos] == 't' {
        Option::Some((crate::model::DataTypeDefinitionView::Text, pos + 1))
    } else if s[pos] == 'l' {
        Option::Some((crate::model::DataTypeDefinitionView::LongText, pos + 1))
    } else if s[pos] == 'b' {
        Option::Some((crate::model::DataTypeDefinitionView::Boolean, pos + 1))
    } else if s[pos] == 'i' {
        Option::Some((crate::model::DataTypeDefinitionView::Integer, pos + 1))
    } else if s[pos] == 'f' {
        Option::Some((crate::model::DataTypeDefinitionView::Float, pos + 1))
    } else if s[pos] == 'r' {
        Option::Some((crate::model::DataTypeDefinitionView::NounReference, pos + 1))
    } else if s[pos] == 'a' {
        match parse_def(s, pos + 1) {
            Option::Some((d, p)) => Option::Some(
                (crate::model::DataTypeDefinitionView::Array(Box::new(d)), p),
            ),
            Option::None => Option::None,
        }
    } else if s[pos] == 'c' {
        match parse_number(s, pos + 1) {
            Option::Some((n, p)) => if pos + 1 < p <= s.len() {
                match parse_def_field_list(s, p, n) {
                    Option::Some((fields, p2)) => Option::Some(
                        (crate::model::DataTypeDefinitionView::Custom(fields), p2),
                    ),
                    Option::None => Option::None,
                }
            } else {
                Option::None
            },
            Option::None => Option::None,
        }
    } else {
        Option::None
    }
}

/// Parses `n` serialized descriptor fields in sequence.
pub open spec fn parse_def_field_list(s: Seq<char>, pos: int, n: u64) -> Option<
    (Seq<(Seq<char>, crate::model::DataTypeDefinitionView)>, int),
>
    decreases s.len() - pos, n + 1,
{
    if n == 0 {
        Option::Some((Seq::empty(), pos))
    } else if pos < 0 || pos >= s.len() {
        Option::None
    } else {
        match parse_string(s, pos) {
            Option::Some((name, p)) => if pos < p <= s.len() {
                match parse_def(s, p) {
                    Option::Some((d, p2)) => if p <= p2 <= s.len() {
                        match parse_def_field_list(s, p2, (n - 1) as u64) {
                            Option::Some((fs, p3)) => Option::Some(
                                (seq![(name, d)] + fs, p3),
                            ),
                            Option::None => Option::None,
                        }
                    } else {
                        Option::None
                    },
                    Option::None => Option::None,
                }
            } else {
                Option::None
            },
            Option::None => Option::None,
        }
    }
}

/// Every serialized descriptor occupies at least one character.
proof fn lemma_ser_def_len(d: crate::model::DataTypeDefinitionView)
    ensures
        ser_def(d).len() >= 1,
{
}

/// Parsing a serialized descriptor yields the descriptor back.
#[verifier::rlimit(80)]
pub proof fn lemma_parse_def_ser(d: crate::model::DataTypeDefinitionView, s: Seq<char>, pos: int)
    requires
        def_fits(d),
        0 <= pos,
        pos + ser_def(d).len() <= s.len(),
        s.subrange(pos, pos + ser_def(d).len() as int) == ser_def(d),
    ensures
        parse_def(s, pos) == Option::Some((d, pos + ser_def(d).len() as int)),
    decreases d, 0int,
{
    let full = ser_def(d);
    let ll = full.len() as int;
    lemma_embedded(s, pos, full);
    match d {
        crate::model::DataTypeDefinitionView::Text => {
            assert(s[pos] == full[0]);
            assert(full[0] == 't');
        },
        crate::model::DataTypeDefinitionView::LongText => {
            assert(s[pos] == full[0]);
            assert(full[0] == 'l');
        },
        crate::model::DataTypeDefinitionView::Boolean => {
            assert(s[pos] == full[0]);
            assert(full[0] == 'b');
        },
        crate::model::DataTypeDefinitionView::Integer => {
            assert(s[pos] == full[0]);
            assert(full[0] == 'i');
        },
        crate::model::DataTypeDefinitionView::Float => {
            assert(s[pos] == full[0]);
            assert(full[0] == 'f');
        },
        crate::model::DataTypeDefinitionView::NounReference => {
            assert(s[pos] == full[0]);
            assert(full[0] == 'r');
        },
        crate::model::DataTypeDefinitionView::Array(inner) => {
            assert(s[pos] == full[0]);
            assert(full[0] == 'a');
            assert(s.subrange(pos + 1, pos + ll) =~= ser_def(*inner)) by {
                assert(forall|j: int|
                    0 <= j < ll - 1 ==> s.subrange(pos + 1, pos + ll)[j] == #[trigger] s[pos + 1
                        + j]);
                assert(forall|j: int| 0 <= j < ll - 1 ==> full[1 + j] == ser_def(*inner)[j]);
            };
            lemma_parse_def_ser(*inner, s, pos + 1);
        },
        crate::model::DataTypeDefinitionView::Custom(fields) => {
            assert(s[pos] == full[0]);
            assert(full[0] == 'c');
            let n: u64 = fields.len() as u64;
            let digits = dec_digits(n as nat);
            let k = digits.len() as int;
            let body = ser_def_field_list_from(fields, 0);
            assert(full == seq!['c'] + digits + seq![':'] + body);
            assert(s.subrange(pos + 1, pos + 1 + k) =~= digits) by {
                assert(forall|j: int|
                    0 <= j < k ==> s.subrange(pos + 1, pos + 1 + k)[j] == #[trigger] s[pos + 1
                        + j]);
                assert(forall|j: int| 0 <= j < k ==> full[1 + j] == digits[j]);
            };
            assert(s[pos + 1 + k] == full[1 + k]);
            assert(full[1 + k] == ':');
            lemma_parse_number_dec(n, s, pos + 1);
            let p = pos + 2 + k;
            assert(s.subrange(p, p + body.len() as int) =~= body) by {
                assert(forall|j: int|
                    0 <= j < body.len() ==> s.subrange(p, p + body.len() as int)[j]
                        == #[trigger] s[p + j]);
                assert(forall|j: int| 0 <= j < body.len() ==> full[2 + k + j] == body[j]);
            };
            lemma_parse_def_field_list_ser(fields, 0, s, p);
            assert(fields.subrange(0, fields.len() as int) =~= fields);
        },
    }
}

/// Parsing the serialized forms of `fields[i ..]` yields those descriptor
/// fields back.
proof fn lemma_parse_def_field_list_ser(
    fields: Seq<(Seq<char>, crate::model::DataTypeDefinitionView)>,
    i: int,
    s: Seq<char>,
    pos: int,
)
    requires
        0 <= i <= fields.len(),
        fields.len() <= u64::MAX,
        def_field_list_fits(fields, i),
        0 <= pos,
        pos + ser_def_field_list_from(fields, i).len() <= s.len(),
        s.subrange(
            pos,
            pos + ser_def_field_list_from(fields, i).len() as int,
        ) == ser_def_field_list_from(fields, i),
    ensures
        parse_def_field_list(s, pos, (fields.len() - i) as u64) == Option::Some(
            (
                fields.subrange(i, fields.len() as int),
                pos + ser_def_field_list_from(fields, i).len() as int,
            ),
        ),
    decreases fields, fields.len() - i + 1,
{
    if i == fields.len() {
        assert(fields.subrange(i, fields.len() as int) =~= Seq::empty());
    } else {
        let full = ser_def_field_list_from(fields, i);
        let name = ser_string(fields[i].0);
        let head = ser_def(fields[i].1);
        let tail = ser_def_field_list_from(fields, i + 1);
        assert(full == name + head + tail);
        lemma_embedded(s, pos, full);
        lemma_ser_def_len(fields[i].1);
        assert(s.subrange(pos, pos + name.len() as int) =~= name) by {
            assert(forall|j: int|
                0 <= j < name.len() ==> s.subrange(pos, pos + name.len() as int)[j]
                    == #[trigger] s[pos + j]);
            assert(forall|j: int| 0 <= j < name.len() ==> full[j] == name[j]);
        };
        lemma_parse_string_ser(fields[i].0, s, pos);
        let p = pos + name.len() as int;
        assert(s.subrange(p, p + head.len() as int) =~= head) by {
            assert(forall|j: int|
                0 <= j < head.len() ==> s.subrange(p, p + head.len() as int)[j] == #[trigger] s[p
                    + j]);
            assert(forall|j: int| 0 <= j < head.len() ==> full[name.len() + j] == head[j]);
        };
        lemma_parse_def_ser(fields[i].1, s, p);
        let p2 = p + head.len() as int;
        assert(s.subrange(p2, p2 + tail.len() as int) =~= tail) by {
            assert(forall|j: int|
                0 <= j < tail.len() ==> s.subrange(p2, p2 + tail.len() as int)[j]
                    == #[trigger] s[p2 + j]);
            assert(forall|j: int|
                0 <= j < tail.len() ==> full[name.len() + head.len() + j] == tail[j]);
        };
        lemma_parse_def_field_list_ser(fields, i + 1, s, p2);
        assert(seq![(fields[i].0, fields[i].1)] + fields.subrange(i + 1, fields.len() as int)
            =~= fields.subrange(i, fields.len() as int));
    }
}

/// Round trip: parsing the serialized form of any descriptor yields a
/// structurally equal descriptor, consuming the whole text.
pub proof fn lemma_definition_round_trip(d: crate::model::DataTypeDefinitionView)
    requires
        def_fits(d),
    ensures
        parse_def(ser_def(d), 0) == Option::Some((d, ser_def(d).len() as int)),
{
    assert(ser_def(d).subrange(0, ser_def(d).len() as int) =~= ser_def(d));
    lemma_parse_def_ser(d, ser_def(d), 0);
}


/// The descriptor whose serialized form is exactly `t`, if any.
pub open spec fn spec_parse_data_type_definition(t: Seq<char>) -> Option<
    crate::model::DataTypeDefinitionView,
> {
    match parse_def(t, 0) {
        Option::Some((d, p)) => if p == t.len() {
            Option::Some(d)
        } else {
            Option::None
        },
        Option::None => Option::None,
    }
}

/// Prepends already-parsed descriptor fields to the result of parsing the
/// remaining ones.
pub open spec fn prepend_def_fields(
    pre: Seq<(Seq<char>, crate::model::DataTypeDefinitionView)>,
    o: Option<(Seq<(Seq<char>, crate::model::DataTypeDefinitionView)>, int)>,
) -> Option<(Seq<(Seq<char>, crate::model::DataTypeDefinitionView)>, int)> {
    match o {
        Option::Some((fs, p)) => Option::Some((pre + fs, p)),
        Option::None => Option::None,
    }
}

/// Serializes a structural type descriptor to its textual form.
pub fn serialize_data_type_definition(d: &crate::model::DataTypeDefinition) -> (r: String)
    ensures
        r@ == ser_def(d@),
{
    let mut out = String::new();
    ser_def_into(d, &mut out);
    proof {
        assert(out@ =~= ser_def(d@));
    }
    out
}

/// Appends the serialized form of `d` to `out`.
fn ser_def_into(d: &crate::model::DataTypeDefinition, out: &mut String)
    ensures
        final(out)@ == old(out)@ + ser_def(d@),
    decreases d,
{
    proof {
        reveal_strlit("t");
        reveal_strlit("l");
        reveal_strlit("b");
        reveal_strlit("i");
        reveal_strlit("f");
        reveal_strlit("r");
        reveal_strlit("a");
        reveal_strlit("c");
        reveal_strlit(":");
    }
    match d {
        crate::model::DataTypeDefinition::Text => {
            out.append("t");
            proof {
                assert(out@ =~= old(out)@ + ser_def(d@));
            }
        },
        crate::model::DataTypeDefinition::LongText => {
            out.append("l");
            proof {
                assert(out@ =~= old(out)@ + ser_def(d@));
            }
        },
        crate::model::DataTypeDefinition::Boolean => {
            out.append("b");
            proof {
                assert(out@ =~= old(out)@ + ser_def(d@));
            }
        },
        crate::model::DataTypeDefinition::Integer => {
            out.append("i");
            proof {
                assert(out@ =~= old(out)@ + ser_def(d@));
            }
        },
        crate::model::DataTypeDefinition::Float => {
            out.append("f");
            proof {
                assert(out@ =~= old(out)@ + ser_def(d@));
            }
        },
        crate::model::DataTypeDefinition::NounReference => {
            out.append("r");
            proof {
                assert(out@ =~= old(out)@ + ser_def(d@));
            }
        },
        crate::model::DataTypeDefinition::Array(inner) => {
            out.append("a");
            ser_def_into(inner, out);
            proof {
                assert(out@ =~= old(out)@ + ser_def(d@));
            }
        },
        crate::model::DataTypeDefinition::Custom(fields) => {
            out.append("c");
            let len = fields.0.len();
            let digits = u64_to_string(len as u64);
            out.append(digits.as_str());
            out.append(":");
            ser_def_field_list_into(&fields.0, out);
            proof {
                crate::model::lemma_type_definition_field_views(fields.0, fields.0.len() as int);
                assert(out@ =~= old(out)@ + ser_def(d@));
            }
        },
    }
}

/// Appends the serialized forms of all named descriptor fields of
/// `fields` to `out`.
fn ser_def_field_list_into(
    fields: &Vec<(String, crate::model::DataTypeDefinition)>,
    out: &mut String,
)
    ensures
        final(out)@ == old(out)@ + ser_def_field_list_from(
            crate::model::type_definition_field_views(*fields, fields.len() as int),
            0,
        ),
    decreases fields,
{
    let ghost fvs = crate::model::type_definition_field_views(*fields, fields.len() as int);
    proof {
        crate::model::lemma_type_definition_field_views(*fields, fields.len() as int);
    }
    let mut i: usize = 0;
    while i < fields.len()
        invariant
            0 <= i <= fields.len(),
            fvs == crate::model::type_definition_field_views(*fields, fields.len() as int),
            fvs.len() == fields.len(),
            forall|j: int|
                0 <= j < fields.len() ==> #[trigger] fvs[j] == (
                fields[j].0@,
                crate::model::type_definition_view(fields[j].1),
                ),
            out@ + ser_def_field_list_from(fvs, i as int) == old(out)@ + ser_def_field_list_from(
                fvs,
                0,
            ),
        decreases fields.len() - i,
    {
        let ghost prev = out@;
        ser_string_into(&fields[i].0, out);
        ser_def_into(&fields[i].1, out);
        i = i + 1;
        proof {
            assert(out@ + ser_def_field_list_from(fvs, i as int) =~= prev
                + ser_def_field_list_from(fvs, i - 1));
        }
    }
    proof {
        assert(out@ =~= old(out)@ + ser_def_field_list_from(fvs, 0));
    }
}

/// Parses a complete serialized type descriptor: the whole text must be
/// consumed.
pub fn parse_data_type_definition(s: &str) -> (r: Option<crate::model::DataTypeDefinition>)
    ensures
        match r {
            Option::Some(d) => spec_parse_data_type_definition(s@) == Option::Some(d@),
            Option::None => spec_parse_data_type_definition(s@) is None,
        },
{
    let n = s.unicode_len();
    match parse_def_at(s, n, 0) {
        Option::Some((d, p)) => if p == n {
            Option::Some(d)
        } else {
            Option::None
        },
        Option::None => Option::None,
    }
}

/// Parses one serialized descriptor beginning at character position
/// `pos`.
fn parse_def_at(s: &str, n: usize, pos: usize) -> (r: Option<
    (crate::model::DataTypeDefinition, usize),
>)
    requires
        n == s@.len(),
        pos <= n,
    ensures
        match r {
            Option::Some((d, p)) => parse_def(s@, pos as int) == Option::Some(
                (d@, p as int),
            ) && pos < p <= n,
            Option::None => parse_def(s@, pos as int) is None,
        },
    decreases n - pos, 0int,
{
    if pos >= n {
        return Option::None;
    }
    let c = s.get_char(pos);
    if c == 't' {
        Option::Some((crate::model::DataTypeDefinition::Text, pos + 1))
    } else if c == 'l' {
        Option::Some((crate::model::DataTypeDefinition::LongText, pos + 1))
    } else if c == 'b' {
        Option::Some((crate::model::DataTypeDefinition::Boolean, pos + 1))
    } else if c == 'i' {
        Option::Some((crate::model::DataTypeDefinition::Integer, pos + 1))
    } else if c == 'f' {
        Option::Some((crate::model::DataTypeDefinition::Float, pos + 1))
    } else if c == 'r' {
        Option::Some((crate::model::DataTypeDefinition::NounReference, pos + 1))
    } else if c == 'a' {
        match parse_def_at(s, n, pos + 1) {
            Option::Some((d, p)) => Option::Some(
                (crate::model::DataTypeDefinition::Array(Box::new(d)), p),
            ),
            Option::None => Option::None,
        }
    } else if c == 'c' {
        match parse_number_at(s, n, pos + 1) {
            Option::Some((cnt, p)) => match parse_def_field_list_at(s, n, p, cnt) {
                Option::Some((fields, p2)) => {
                    proof {
                        crate::model::lemma_type_definition_field_views(
                            fields,
                            fields.len() as int,
                        );
                    }
                    Option::Some(
                        (
                            crate::model::DataTypeDefinition::Custom(
                                crate::model::CustomDataTypeDefinition(fields),
                            ),
                            p2,
                        ),
                    )
                },
                Option::None => Option::None,
            },
            Option::None => Option::None,
        }
    } else {
        Option::None
    }
}

/// Parses `count` serialized descriptor fields in sequence.
fn parse_def_field_list_at(s: &str, n: usize, pos: usize, count: u64) -> (r: Option<
    (Vec<(String, crate::model::DataTypeDefinition)>, usize),
>)
    requires
        n == s@.len(),
        pos <= n,
    ensures
        match r {
            Option::Some((fs, p)) => parse_def_field_list(s@, pos as int, count) == Option::Some(
                (
                    crate::model::type_definition_field_views(fs, fs.len() as int),
                    p as int,
                ),
            ) && pos <= p <= n,
            Option::None => parse_def_field_list(s@, pos as int, count) is None,
        },
    decreases n - pos, count + 1,
{
    let mut out: Vec<(String, crate::model::DataTypeDefinition)> = Vec::new();
    let mut cur: usize = pos;
    let mut j: u64 = 0;
    proof {
        crate::model::lemma_type_definition_field_views(out, out.len() as int);
    }
    while j < count
        invariant
            n == s@.len(),
            pos <= cur <= n,
            0 <= j <= count,
            out.len() as u64 == j,
            prepend_def_fields(
                crate::model::type_definition_field_views(out, out.len() as int),
                parse_def_field_list(s@, cur as int, (count - j) as u64),
            ) == parse_def_field_list(s@, pos as int, count),
            j > 0 ==> pos < cur,
        decreases count - j,
    {
        if cur >= n {
            return Option::None;
        }
        let ghost prev_views = crate::model::type_definition_field_views(out, out.len() as int);
        proof {
            crate::model::lemma_type_definition_field_views(out, out.len() as int);
        }
        match parse_string_at(s, n, cur) {
            Option::None => {
                return Option::None;
            },
            Option::Some((name, p)) => {
                match parse_def_at(s, n, p) {
                    Option::None => {
                        return Option::None;
                    },
                    Option::Some((d, p2)) => {
                        let ghost namev = name@;
                        out.push((name, d));
                        proof {
                            crate::model::lemma_type_definition_field_views(
                                out,
                                out.len() as int,
                            );
                            assert(crate::model::type_definition_field_views(
                                out,
                                out.len() as int,
                            ) =~= prev_views.push((namev, d@)));
                            let rest = parse_def_field_list(
                                s@,
                                p2 as int,
                                (count - j - 1) as u64,
                            );
                            match rest {
                                Option::Some((fs2, q)) => {
                                    assert(prev_views + (seq![(namev, d@)] + fs2)
                                        =~= prev_views.push((namev, d@)) + fs2);
                                },
                                Option::None => {},
                            }
                        }
                        cur = p2;
                        j = j + 1;
                    },
                }
            },
        }
    }
    proof {
        assert(crate::model::type_definition_field_views(out, out.len() as int) + Seq::<
            (Seq<char>, crate::model::DataTypeDefinitionView),
        >::empty() =~= crate::model::type_definition_field_views(out, out.len() as int));
    }
    Option::Some((out, cur))
}

} // verus!
