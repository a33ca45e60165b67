//! Frame decoding and record parsing. A frame is a trimmed line that must
//! hold exactly two whitespace-separated tokens; the second token is a hex
//! string whose decoded bytes form a UTF-8 payload. The payload's own
//! tokens, up to a fixed count, become the fields of a record.

use vstd::prelude::*;
use vstd::utf8::{decode_utf8, encode_utf8, valid_utf8};
use crate::hexcode::{hex_decode, hex_decode_spec, hex_encode_spec, lemma_hex_encode_no_ws,
    lemma_hex_roundtrip};
use crate::text::{chars_to_string, is_ws_char, lemma_two_tokens, split_tokens, str_chars,
    tokens_of};

verus! {

/// How many fields a record holds.
pub const FIELD_COUNT: usize = 11;

/// Everything that can go wrong between a framed line and a delivered
/// record, as a closed set of causes.
#[derive(Clone, Copy, Debug, PartialEq, Eq, Structural)]
pub enum StreamError {
    /// The line does not hold exactly two whitespace-separated tokens.
    IrregularMessage,
    /// The payload token is not valid hex, or its bytes are not valid UTF-8.
    DecodeError,
    /// A field of the payload does not parse as the requested kind of value.
    ParseError,
    /// A sink or transport operation failed.
    IoError,
}

impl StreamError {
    /// A short diagnostic text for the error.
    pub fn message(&self) -> (r: &'static str)
        ensures
            r@ == match self {
                StreamError::IrregularMessage => "irregular message: this line doesn't contain any data"@,
                StreamError::DecodeError => "error while decoding data: bad hex or text payload"@,
                StreamError::ParseError => "error while parsing data: invalid field"@,
                StreamError::IoError => "input/output error"@,
            },
    {
        match self {
            StreamError::IrregularMessage => "irregular message: this line doesn't contain any data",
            StreamError::DecodeError => "error while decoding data: bad hex or text payload",
            StreamError::ParseError => "error while parsing data: invalid field",
            StreamError::IoError => "input/output error",
        }
    }
}

/// Decoding of one framed line: the UTF-8 text of the hex payload in its
/// second token, or the error that rules the line out.
pub open spec fn decode_line_spec(line: Seq<char>) -> Result<Seq<char>, StreamError> {
    let toks = tokens_of(line);
    if toks.len() != 2 {
        Err(StreamError::IrregularMessage)
    } else {
        match hex_decode_spec(toks[1]) {
            Option::None => Err(StreamError::DecodeError),
            Option::Some(bytes) => if valid_utf8(bytes) {
                Ok(decode_utf8(bytes))
            } else {
                Err(StreamError::DecodeError)
            },
        }
    }
}

/// Validates a framed line and extracts its decoded payload.
pub fn get_data(line: String) -> (r: Result<String, StreamError>)
    ensures
        match (r, decode_line_spec(line@)) {
            (Ok(s), Ok(p)) => s@ == p,
            (Err(e), Err(f)) => e == f,
            _ => false,
        },
        tokens_of(line@).len() != 2 <==> r == Result::<String, StreamError>::Err(
            StreamError::IrregularMessage,
        ),
{
    let chars = str_chars(line.as_str());
    let toks = split_tokens(&chars);
    if toks.len() != 2 {
        return Err(StreamError::IrregularMessage);
    }
    proof {
        assert(toks@[1].deep_view() == tokens_of(line@)[1]);
        assert(toks@[1].deep_view() =~= toks@[1]@);
    }
    let bytes = match hex_decode(&toks[1]) {
        Some(b) => b,
        None => {
            return Err(StreamError::DecodeError);
        },
    };
    match crate::framer::utf8_to_string(bytes) {
        Some(s) => Ok(s),
        None => Err(StreamError::DecodeError),
    }
}

/// The fields of a record: the first `FIELD_COUNT` tokens in order, with
/// every remaining position empty.
pub open spec fn record_fields(toks: Seq<Seq<char>>) -> Seq<Seq<char>> {
    Seq::new(
        FIELD_COUNT as nat,
        |i: int| if i < toks.len() {
            toks[i]
        } else {
            Seq::empty()
        },
    )
}

/// Splits a decoded payload into a record of exactly `FIELD_COUNT` text
/// fields: extra tokens are discarded, missing trailing fields stay empty.
pub fn parse_data(line: String) -> (r: Result<Vec<String>, StreamError>)
    ensures
        r is Ok,
        r matches Ok(rec) ==> rec@.len() == FIELD_COUNT,
        r matches Ok(rec) ==> rec.deep_view() == record_fields(tokens_of(line@)),
{
    let chars = str_chars(line.as_str());
    let toks = split_tokens(&chars);
    let mut rec: Vec<String> = Vec::new();
    let mut i: usize = 0;
    while i < FIELD_COUNT
        invariant
            i <= FIELD_COUNT,
            rec@.len() == i,
            toks.deep_view() == tokens_of(line@),
            rec.deep_view() =~= record_fields(tokens_of(line@)).take(i as int),
        decreases FIELD_COUNT - i,
    {
        let ghost prev = rec.deep_view();
        if i < toks.len() {
            proof {
                assert(toks@[i as int].deep_view() == tokens_of(line@)[i as int]);
                assert(toks@[i as int].deep_view() =~= toks@[i as int]@);
            }
            rec.push(chars_to_string(&toks[i]));
        } else {
            rec.push(String::new());
        }
        i = i + 1;
        proof {
            assert(rec.deep_view() =~~= prev.push(record_fields(tokens_of(line@))[i - 1]));
            assert(record_fields(tokens_of(line@)).take(i as int) =~= record_fields(
                tokens_of(line@),
            ).take(i as int - 1).push(record_fields(tokens_of(line@))[i - 1]));
        }
    }
    proof {
        assert(record_fields(tokens_of(line@)).take(FIELD_COUNT as int) =~= record_fields(
            tokens_of(line@),
        ));
    }
    Ok(rec)
}

/// True for the ASCII decimal digits.
pub open spec fn is_digit(c: char) -> bool {
    0x30 <= c as u32 && c as u32 <= 0x39
}

/// The value of a decimal digit.
pub open spec fn digit_val(c: char) -> int
    recommends
        is_digit(c),
{
    c as u32 - 0x30
}

/// True when every character of `s` is a decimal digit.
pub open spec fn all_digits(s: Seq<char>) -> bool {
    forall|i: int| 0 <= i < s.len() ==> is_digit(s[i])
}

/// The number denoted by a sequence of decimal digits, most significant
/// first.
pub open spec fn dec_val(s: Seq<char>) -> int
    recommends
        all_digits(s),
    decreases s.len(),
{
    if s.len() == 0 {
        0
    } else {
        dec_val(s.drop_last()) * 10 + digit_val(s.last())
    }
}

/// A digit string never denotes a negative number.
pub proof fn lemma_dec_val_nonneg(s: Seq<char>)
    requires
        all_digits(s),
    ensures
        dec_val(s) >= 0,
    decreases s.len(),
{
    if s.len() > 0 {
        lemma_dec_val_nonneg(s.drop_last());
        assert(dec_val(s.drop_last()) * 10 >= 0) by (nonlinear_arith)
            requires
                dec_val(s.drop_last()) >= 0;
    }
}

/// Reading more digits never shrinks the number: every prefix denotes at
/// most the whole.
pub proof fn lemma_dec_val_prefix(s: Seq<char>, i: int)
    requires
        all_digits(s),
        0 <= i <= s.len(),
    ensures
        dec_val(s.take(i)) <= dec_val(s),
    decreases s.len() - i,
{
    if i < s.len() {
        lemma_dec_val_prefix(s, i + 1);
        let t = s.take(i + 1);
        assert(t.drop_last() =~= s.take(i));
        lemma_dec_val_nonneg(s.take(i));
        assert(dec_val(s.take(i)) * 10 >= dec_val(s.take(i))) by (nonlinear_arith)
            requires
                dec_val(s.take(i)) >= 0;
    } else {
        assert(s.take(i) =~= s);
    }
}

/// The number a field denotes, or `None` when the field is empty, holds a
/// non-digit, or does not fit the machine word.
pub open spec fn numeric_value(s: Seq<char>) -> Option<u64> {
    if s.len() > 0 && all_digits(s) && dec_val(s) <= u64::MAX {
        Some(dec_val(s) as u64)
    } else {
        None
    }
}

/// Parses a decimal field.
pub fn parse_field_u64(s: &Vec<char>) -> (r: Option<u64>)
    ensures
        r == numeric_value(s@),
{
    let n = s.len();
    if n == 0 {
        return None;
    }
    let mut acc: u64 = 0;
    let mut i: usize = 0;
    while i < n
        invariant
            n == s@.len(),
            i <= n,
            forall|j: int| 0 <= j < i ==> is_digit(s@[j]),
            acc == dec_val(s@.take(i as int)),
        decreases n - i,
    {
        let c = s[i];
        let u = c as u32;
        if !(0x30 <= u && u <= 0x39) {
            proof {
                assert(!all_digits(s@));
            }
            return None;
        }
        let d: u64 = (u - 0x30) as u64;
        let ghost pre = s@.take(i as int);
        proof {
            assert(s@.take(i as int + 1).drop_last() =~= pre);
            assert(s@.take(i as int + 1).last() == s@[i as int]);
        }
        let shifted = match acc.checked_mul(10) {
            Some(v) => v,
            None => {
                proof {
                    lemma_overflow(s@, i as int);
                }
                return None;
            },
        };
        acc = match shifted.checked_add(d) {
            Some(v) => v,
            None => {
                proof {
                    lemma_overflow(s@, i as int);
                }
                return None;
            },
        };
        i = i + 1;
    }
    proof {
        assert(s@.take(n as int) =~= s@);
    }
    Some(acc)
}

/// If one more digit pushes the value past the machine word, the whole
/// field does not fit either.
proof fn lemma_overflow(s: Seq<char>, i: int)
    requires
        0 <= i < s.len(),
        forall|j: int| 0 <= j <= i ==> is_digit(s[j]),
        dec_val(s.take(i)) * 10 + digit_val(s[i]) > u64::MAX,
    ensures
        !all_digits(s) || dec_val(s) > u64::MAX,
{
    if all_digits(s) {
        assert(s.take(i + 1).drop_last() =~= s.take(i));
        assert(s.take(i + 1).last() == s[i]);
        assert(dec_val(s.take(i + 1)) > u64::MAX);
        lemma_dec_val_prefix(s, i + 1);
    }
}

/// Numeric record parsing: every one of the `FIELD_COUNT` positions must
/// hold a field that parses, so a payload with too few tokens or any
/// non-numeric field aborts the whole record.
pub open spec fn numeric_record_spec(toks: Seq<Seq<char>>) -> Result<Seq<u64>, StreamError> {
    let fields = record_fields(toks);
    if forall|i: int| 0 <= i < fields.len() ==> (#[trigger] numeric_value(fields[i])) is Some {
        Ok(Seq::new(fields.len(), |i: int| numeric_value(fields[i]).unwrap()))
    } else {
        Err(StreamError::ParseError)
    }
}

/// Splits a decoded payload into a record of exactly `FIELD_COUNT` numeric
/// fields. Extra tokens are discarded; a missing or invalid field fails the
/// whole record with a parse error.
pub fn parse_numeric_data(line: String) -> (r: Result<Vec<u64>, StreamError>)
    ensures
        match (r, numeric_record_spec(tokens_of(line@))) {
            (Ok(rec), Ok(values)) => rec@ == values,
            (Err(e), Err(f)) => e == f,
            _ => false,
        },
{
    let chars = str_chars(line.as_str());
    let toks = split_tokens(&chars);
    let ghost fields = record_fields(tokens_of(line@));
    let empty: Vec<char> = Vec::new();
    let mut rec: Vec<u64> = Vec::new();
    let mut i: usize = 0;
    while i < FIELD_COUNT
        invariant
            i <= FIELD_COUNT,
            rec@.len() == i,
            toks.deep_view() == tokens_of(line@),
            empty@ == Seq::<char>::empty(),
            fields == record_fields(tokens_of(line@)),
            forall|j: int| 0 <= j < i ==> ((#[trigger] numeric_value(fields[j])) matches Some(v)
                && rec@[j] == v),
        decreases FIELD_COUNT - i,
    {
        let field: &Vec<char> = if i < toks.len() {
            &toks[i]
        } else {
            &empty
        };
        proof {
            if i < toks@.len() {
                assert(toks@[i as int].deep_view() == tokens_of(line@)[i as int]);
                assert(toks@[i as int].deep_view() =~= toks@[i as int]@);
            } else {
                assert(fields[i as int] =~= Seq::<char>::empty());
            }
            assert(field@ == fields[i as int]);
        }
        match parse_field_u64(field) {
            Some(v) => {
                rec.push(v);
            },
            None => {
                return Err(StreamError::ParseError);
            },
        }
        i = i + 1;
    }
    proof {
        assert(numeric_record_spec(tokens_of(line@)) matches Ok(values) && rec@ =~= values);
    }
    Ok(rec)
}

/// Decoding of a line all the way to its record fields.
pub open spec fn decode_record_spec(line: Seq<char>) -> Result<Seq<Seq<char>>, StreamError> {
    match decode_line_spec(line) {
        Ok(payload) => Ok(record_fields(tokens_of(payload))),
        Err(e) => Err(e),
    }
}

/// Runs one framed line through validation, payload decoding and record
/// parsing.
pub fn decode_record(line: String) -> (r: Result<Vec<String>, StreamError>)
    ensures
        match (r, decode_record_spec(line@)) {
            (Ok(rec), Ok(fields)) => rec.deep_view() == fields && rec@.len() == FIELD_COUNT,
            (Err(e), Err(f)) => e == f,
            _ => false,
        },
{
    let payload = match get_data(line) {
        Ok(p) => p,
        Err(e) => {
            return Err(e);
        },
    };
    parse_data(payload)
}

/// Round trip: a line formed of a tag and the hex encoding of a non-empty
/// payload's UTF-8 bytes decodes back to exactly that payload.
pub proof fn lemma_decode_roundtrip(tag: Seq<char>, payload: Seq<char>)
    requires
        tag.len() > 0,
        forall|i: int| 0 <= i < tag.len() ==> !is_ws_char(tag[i]),
        payload.len() > 0,
    ensures
        decode_line_spec(tag + seq![' '] + hex_encode_spec(encode_utf8(payload))) == Result::<
            Seq<char>,
            StreamError,
        >::Ok(payload),
{
    broadcast use vstd::utf8::encode_utf8_valid_utf8, vstd::utf8::encode_utf8_decode_utf8;

    let bytes = encode_utf8(payload);
    let hex = hex_encode_spec(bytes);
    assert(bytes.len() > 0) by {
        assert(bytes == vstd::utf8::encode_scalar(payload[0] as u32) + encode_utf8(
            payload.drop_first(),
        ));
    }
    lemma_hex_encode_no_ws(bytes);
    lemma_two_tokens(tag, hex);
    assert(tokens_of(tag + seq![' '] + hex) == seq![tag, hex]);
    lemma_hex_roundtrip(bytes);
    assert(seq![tag, hex][1] == hex);
    assert(decode_utf8(bytes) == payload);
}

} // verus!
