//! Reading the two numbers out of a form-encoded request body.
//!
//! A body is a run of pairs separated by `&`; a pair is a name and a value
//! separated by its first `=`. In both, `+` stands for a space and `%` with
//! two hexadecimal digits for the byte they denote.

use crate::ascii::{
    AMPERSAND, DIGIT_0, DIGIT_9, EQUALS, LOWER_A, LOWER_F, LOWER_M, LOWER_N, PERCENT, PLUS, SPACE,
    UPPER_A, UPPER_F,
};
use crate::decimal::{
    ascii_bytes, decimal_text, decimal_text_digits, decimal_text_reads_back, is_digit, number_of,
    read_number,
};
use vstd::prelude::*;

verus! {

/// The two numbers of one request.
#[derive(Clone, Copy, Debug, PartialEq, Eq, Structural)]
pub struct GcdParameters {
    pub n: u64,
    pub m: u64,
}

/// One of the two fields that a request must carry.
#[derive(Clone, Copy, Debug, PartialEq, Eq, Structural)]
pub enum Field {
    N,
    M,
}

/// What is wrong with a field.
#[derive(Clone, Copy, Debug, PartialEq, Eq, Structural)]
pub enum Fault {
    /// No pair of the body has the field's name.
    Absent,
    /// More than one pair has it.
    Repeated,
    /// The value is not a number in decimal notation that fits in 64 bits.
    NotNumeric,
}

/// A request body that does not give a field one numeric value.
#[derive(Clone, Copy, Debug, PartialEq, Eq, Structural)]
pub struct MalformedField {
    pub field: Field,
    pub fault: Fault,
}

impl Field {
    /// The letter by which a form names the field.
    pub open spec fn spec_letter(self) -> u8 {
        match self {
            Field::N => LOWER_N,
            Field::M => LOWER_M,
        }
    }

    /// The letter by which a form names the field.
    #[verifier::when_used_as_spec(spec_letter)]
    pub fn letter(self) -> (b: u8)
        ensures
            b == self.spec_letter(),
    {
        match self {
            Field::N => LOWER_N,
            Field::M => LOWER_M,
        }
    }

    /// The field's name, as the bytes of a decoded pair: its letter alone.
    pub open spec fn name(self) -> Seq<u8> {
        seq![self.spec_letter()]
    }
}

/// Where `b` first stands in `s`, or the length of `s` if it stands nowhere.
pub open spec fn position_of(s: Seq<u8>, b: u8) -> nat
    decreases s.len(),
{
    if s.len() == 0 || s[0] == b {
        0
    } else {
        1 + position_of(s.drop_first(), b)
    }
}

/// The value of a hexadecimal digit, in either case.
pub open spec fn hex_value(b: u8) -> Option<u8> {
    if DIGIT_0 <= b <= DIGIT_9 {
        Some((b - DIGIT_0) as u8)
    } else if LOWER_A <= b <= LOWER_F {
        Some((b - LOWER_A + 10) as u8)
    } else if UPPER_A <= b <= UPPER_F {
        Some((b - UPPER_A + 10) as u8)
    } else {
        None
    }
}

/// `s` opens with an escaped byte: `%` and two hexadecimal digits.
pub open spec fn opens_with_escape(s: Seq<u8>) -> bool {
    s.len() >= 3 && s[0] == PERCENT && hex_value(s[1]) is Some && hex_value(s[2]) is Some
}

/// The bytes that a name or a value stands for: `+` gives a space, an
/// escaped byte gives that byte, and every other byte, a `%` that opens no
/// escape too, gives itself.
pub open spec fn decoded(s: Seq<u8>) -> Seq<u8>
    decreases s.len(),
{
    if s.len() == 0 {
        seq![]
    } else if s[0] == PLUS {
        seq![SPACE] + decoded(s.skip(1))
    } else if opens_with_escape(s) {
        seq![(hex_value(s[1])->0 * 16 + hex_value(s[2])->0) as u8] + decoded(s.skip(3))
    } else {
        seq![s[0]] + decoded(s.skip(1))
    }
}

/// The name of a pair: what stands before its first `=`, decoded.
pub open spec fn pair_name(pair: Seq<u8>) -> Seq<u8> {
    decoded(pair.take(position_of(pair, EQUALS) as int))
}

/// The value of a pair: what stands behind its first `=`, decoded; a pair
/// without `=` has the empty value.
pub open spec fn pair_value(pair: Seq<u8>) -> Seq<u8> {
    let at = position_of(pair, EQUALS) as int;
    if at < pair.len() {
        decoded(pair.skip(at + 1))
    } else {
        seq![]
    }
}

/// The values that a body gives under `name`, in the order of its pairs.
/// A pair of no bytes at all, as between `&&`, is none and is passed over.
pub open spec fn field_values(body: Seq<u8>, name: Seq<u8>) -> Seq<Seq<u8>>
    decreases body.len(),
{
    if body.len() == 0 {
        seq![]
    } else {
        let end = position_of(body, AMPERSAND) as int;
        let pair = body.take(end);
        let here = if pair.len() > 0 && pair_name(pair) == name {
            seq![pair_value(pair)]
        } else {
            seq![]
        };
        if end < body.len() {
            here + field_values(body.skip(end + 1), name)
        } else {
            here
        }
    }
}

/// The number that a body gives a field, or what is wrong with the field.
pub open spec fn field_number(body: Seq<u8>, field: Field) -> Result<u64, MalformedField> {
    let values = field_values(body, field.name());
    if values.len() == 0 {
        Err(MalformedField { field, fault: Fault::Absent })
    } else if values.len() > 1 {
        Err(MalformedField { field, fault: Fault::Repeated })
    } else {
        match number_of(values[0]) {
            Some(v) => Ok(v),
            None => Err(MalformedField { field, fault: Fault::NotNumeric }),
        }
    }
}

/// What a body reads as: both numbers, or the first field that is
/// malformed, `n` before `m`.
pub open spec fn parameters_of(body: Seq<u8>) -> Result<GcdParameters, MalformedField> {
    match field_number(body, Field::N) {
        Err(e) => Err(e),
        Ok(n) => match field_number(body, Field::M) {
            Err(e) => Err(e),
            Ok(m) => Ok(GcdParameters { n, m }),
        },
    }
}

/// `position_of` is within the sequence, no earlier byte is `b`, and the
/// byte at it is `b` unless it is the length.
pub proof fn position_of_is_first(s: Seq<u8>, b: u8)
    ensures
        position_of(s, b) <= s.len(),
        forall|j: int| 0 <= j < position_of(s, b) ==> #[trigger] s[j] != b,
        position_of(s, b) < s.len() ==> s[position_of(s, b) as int] == b,
    decreases s.len(),
{
    if s.len() != 0 && s[0] != b {
        let rest = s.drop_first();
        position_of_is_first(rest, b);
        assert forall|j: int| 0 <= j < position_of(s, b) implies #[trigger] s[j] != b by {
            if j > 0 {
                assert(s[j] == rest[j - 1]);
            }
        }
    }
}

/// The first index at which `b` stands, or the length where it stands
/// nowhere, is `position_of`.
pub proof fn first_is_position_of(s: Seq<u8>, b: u8, at: int)
    requires
        0 <= at <= s.len(),
        forall|j: int| 0 <= j < at ==> #[trigger] s[j] != b,
        at < s.len() ==> s[at] == b,
    ensures
        position_of(s, b) == at,
    decreases s.len(),
{
    if at > 0 {
        let rest = s.drop_first();
        assert forall|j: int| 0 <= j < at - 1 implies #[trigger] rest[j] != b by {
            assert(rest[j] == s[j + 1]);
        }
        first_is_position_of(rest, b, at - 1);
    }
}

/// Finds the first `b` in `s`.
fn find(s: &[u8], b: u8) -> (at: usize)
    ensures
        at == position_of(s@, b),
        at <= s@.len(),
{
    let mut i: usize = 0;
    while i < s.len() && s[i] != b
        invariant
            i <= s@.len(),
            forall|j: int| 0 <= j < i ==> #[trigger] s@[j] != b,
        decreases s@.len() - i,
    {
        i = i + 1;
    }
    proof {
        first_is_position_of(s@, b, i as int);
    }
    i
}

/// Reads one hexadecimal digit.
fn hex_digit(b: u8) -> (r: Option<u8>)
    ensures
        r == hex_value(b),
{
    if DIGIT_0 <= b && b <= DIGIT_9 {
        Some(b - DIGIT_0)
    } else if LOWER_A <= b && b <= LOWER_F {
        Some(b - LOWER_A + 10)
    } else if UPPER_A <= b && b <= UPPER_F {
        Some(b - UPPER_A + 10)
    } else {
        None
    }
}

/// Decodes a name or a value.
pub fn decode(s: &[u8]) -> (out: Vec<u8>)
    ensures
        out@ == decoded(s@),
{
    let mut out: Vec<u8> = Vec::new();
    let mut i: usize = 0;
    assert(s@.skip(0) =~= s@);
    assert(out@ + decoded(s@) =~= decoded(s@));
    while i < s.len()
        invariant
            i <= s@.len(),
            decoded(s@) == out@ + decoded(s@.skip(i as int)),
        decreases s@.len() - i,
    {
        let ghost rest = s@.skip(i as int);
        let ghost before = out@;
        let b: u8 = s[i];
        let mut step: usize = 1;
        let mut byte: u8 = b;
        if b == PLUS {
            byte = SPACE;
        } else if b == PERCENT && s.len() - i >= 3 {
            match (hex_digit(s[i + 1]), hex_digit(s[i + 2])) {
                (Some(high), Some(low)) => {
                    byte = high * 16 + low;
                    step = 3;
                },
                _ => {},
            }
        }
        out.push(byte);
        proof {
            assert(rest[0] == b);
            if rest.len() >= 3 {
                assert(rest[1] == s@[i + 1]);
                assert(rest[2] == s@[i + 2]);
            }
            assert(rest.skip(step as int) =~= s@.skip(i + step));
            assert(decoded(rest) == seq![byte] + decoded(rest.skip(step as int)));
            assert(out@ + decoded(s@.skip(i + step)) =~= before + decoded(rest));
        }
        i = i + step;
    }
    assert(out@ + decoded(s@.skip(i as int)) =~= out@);
    out
}

/// The views of a list of byte strings.
spec fn views(list: Seq<Vec<u8>>) -> Seq<Seq<u8>> {
    Seq::new(list.len(), |i: int| list[i]@)
}

/// Collects the values that a body gives a field.
fn values_of(body: &[u8], field: Field) -> (values: Vec<Vec<u8>>)
    ensures
        views(values@) == field_values(body@, field.name()),
{
    let letter = field.letter();
    let ghost name = field.name();
    let mut values: Vec<Vec<u8>> = Vec::new();
    let mut start: usize = 0;
    let mut more = body.len() > 0;
    assert(body@.skip(0) =~= body@);
    assert(views(values@) =~= Seq::<Seq<u8>>::empty());
    while more
        invariant
            start <= body@.len(),
            more ==> start < body@.len(),
            name == field.name(),
            letter == field.spec_letter(),
            field_values(body@, name) == views(values@) + if more {
                field_values(body@.skip(start as int), name)
            } else {
                seq![]
            },
        decreases body@.len() - start + if more { 1int } else { 0int },
    {
        let rest = &body[start..body.len()];
        assert(rest@ =~= body@.skip(start as int));
        let end = find(rest, AMPERSAND);
        let pair = &rest[0..end];
        assert(pair@ =~= rest@.take(end as int));
        let ghost before = views(values@);
        let ghost here: Seq<Seq<u8>> = seq![];
        if end > 0 {
            let at = find(pair, EQUALS);
            let name_part = &pair[0..at];
            assert(name_part@ =~= pair@.take(at as int));
            let pair_name = decode(name_part);
            if pair_name.len() == 1 && pair_name[0] == letter {
                assert(pair_name@ =~= name);
                let value = if at < end {
                    let value_part = &pair[at + 1..end];
                    assert(value_part@ =~= pair@.skip(at + 1));
                    decode(value_part)
                } else {
                    Vec::new()
                };
                assert(value@ =~= pair_value(pair@));
                proof {
                    here = seq![value@];
                    assert(views(values@.push(value)) =~= before + here);
                }
                values.push(value);
            }
        }
        proof {
            assert(views(values@) =~= before + here);
            if end < rest@.len() {
                assert(rest@.skip(end + 1) =~= body@.skip(start + end + 1));
                assert(field_values(rest@, name) == here + field_values(rest@.skip(end + 1), name));
                assert(before + (here + field_values(rest@.skip(end + 1), name)) =~= (before + here)
                    + field_values(rest@.skip(end + 1), name));
                if start + end + 1 == body@.len() {
                    assert(field_values(body@.skip(start + end + 1), name) =~= seq![]);
                }
            } else {
                assert(field_values(rest@, name) == here);
            }
        }
        if end < rest.len() {
            start = start + end + 1;
            more = start < body.len();
        } else {
            more = false;
        }
    }
    assert(views(values@) + Seq::<Seq<u8>>::empty() =~= views(values@));
    values
}

/// Reads the number that a body gives a field.
pub fn read_field(body: &[u8], field: Field) -> (r: Result<u64, MalformedField>)
    ensures
        r == field_number(body@, field),
{
    let values = values_of(body, field);
    assert(views(values@).len() == values@.len());
    if values.len() == 0 {
        Err(MalformedField { field, fault: Fault::Absent })
    } else if values.len() > 1 {
        Err(MalformedField { field, fault: Fault::Repeated })
    } else {
        assert(views(values@)[0] == values@[0]@);
        match read_number(values[0].as_slice()) {
            Some(v) => Ok(v),
            None => Err(MalformedField { field, fault: Fault::NotNumeric }),
        }
    }
}

/// Reads both numbers out of a request body. Pairs under other names are
/// passed over.
pub fn parse_parameters(body: &[u8]) -> (r: Result<GcdParameters, MalformedField>)
    ensures
        r == parameters_of(body@),
{
    match read_field(body, Field::N) {
        Err(e) => Err(e),
        Ok(n) => match read_field(body, Field::M) {
            Err(e) => Err(e),
            Ok(m) => Ok(GcdParameters { n, m }),
        },
    }
}

/// The body that a form sends for two numbers: `n=`, the first in decimal
/// notation, `&m=`, and the second.
pub open spec fn form_body(n: u64, m: u64) -> Seq<u8> {
    seq![LOWER_N, EQUALS] + ascii_bytes(decimal_text(n as nat)) + seq![AMPERSAND, LOWER_M, EQUALS]
        + ascii_bytes(decimal_text(m as nat))
}

/// Decoding leaves a run of digits as it is.
proof fn decoded_digits(s: Seq<u8>)
    requires
        forall|i: int| 0 <= i < s.len() ==> is_digit(#[trigger] s[i]),
    ensures
        decoded(s) == s,
    decreases s.len(),
{
    if s.len() > 0 {
        assert(is_digit(s[0]));
        let rest = s.skip(1);
        assert forall|i: int| 0 <= i < rest.len() implies is_digit(#[trigger] rest[i]) by {
            assert(rest[i] == s[i + 1]);
        }
        decoded_digits(rest);
        assert(seq![s[0]] + rest =~= s);
    }
}

/// A pair of one letter, `=` and a run of digits has the letter for its
/// name and the digits for its value.
proof fn letter_and_digits(letter: u8, digits: Seq<u8>)
    requires
        letter == LOWER_N || letter == LOWER_M,
        forall|i: int| 0 <= i < digits.len() ==> is_digit(#[trigger] digits[i]),
    ensures
        pair_name(seq![letter, EQUALS] + digits) == seq![letter],
        pair_value(seq![letter, EQUALS] + digits) == digits,
        position_of(seq![letter, EQUALS] + digits, AMPERSAND) == digits.len() + 2,
{
    let pair = seq![letter, EQUALS] + digits;
    first_is_position_of(pair, EQUALS, 1);
    assert(pair.take(1) =~= seq![letter]);
    assert(seq![letter].skip(1) =~= Seq::<u8>::empty());
    assert(decoded(Seq::<u8>::empty()) =~= Seq::<u8>::empty());
    assert(decoded(seq![letter]) =~= seq![letter]);
    assert(pair.skip(2) =~= digits);
    decoded_digits(digits);
    assert forall|j: int| 0 <= j < pair.len() implies #[trigger] pair[j] != AMPERSAND by {
        if j >= 2 {
            assert(is_digit(digits[j - 2]));
        }
    }
    first_is_position_of(pair, AMPERSAND, pair.len() as int);
}

/// A body of the form that `form_body` describes reads as the two numbers
/// that it was written for.
pub proof fn form_body_reads_back(n: u64, m: u64)
    ensures
        parameters_of(form_body(n, m)) == Ok::<GcdParameters, MalformedField>(
            GcdParameters { n, m },
        ),
{
    let first = ascii_bytes(decimal_text(n as nat));
    let second = ascii_bytes(decimal_text(m as nat));
    let head = seq![LOWER_N, EQUALS] + first;
    let tail = seq![LOWER_M, EQUALS] + second;
    let body = form_body(n, m);
    decimal_text_digits(n);
    decimal_text_digits(m);
    decimal_text_reads_back(n);
    decimal_text_reads_back(m);
    letter_and_digits(LOWER_N, first);
    letter_and_digits(LOWER_M, second);
    assert(body =~= head + seq![AMPERSAND] + tail);
    position_of_is_first(head, AMPERSAND);
    assert forall|j: int| 0 <= j < head.len() implies #[trigger] body[j] != AMPERSAND by {
        assert(body[j] == head[j]);
    }
    first_is_position_of(body, AMPERSAND, head.len() as int);
    assert(body.take(head.len() as int) =~= head);
    assert(body.skip(head.len() as int + 1) =~= tail);
    assert(tail.take(tail.len() as int) =~= tail);
    assert(Field::N.name()[0] != Field::M.name()[0]);
    assert(pair_name(head) == Field::N.name());
    assert(pair_name(tail) == Field::M.name());
    assert(field_values(tail, Field::N.name()) =~= seq![]);
    assert(field_values(tail, Field::M.name()) =~= seq![second]);
    assert(field_values(body, Field::N.name()) =~= seq![first]);
    assert(field_values(body, Field::M.name()) =~= seq![second]);
}

} // verus!
