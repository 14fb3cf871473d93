//! Deserialization of wire bytes into values.

use vstd::prelude::*;
use vstd::slice::{slice_subrange, slice_to_vec};
use vstd::utf8::{decode_utf8, valid_utf8};
use crate::constants::{
    ARRAY_FIRST_BYTE, BULK_STRING_FIRST_BYTE, CR_BYTE, ERROR_FIRST_BYTE, INTEGER_FIRST_BYTE,
    LF_BYTE, RESPONSE_MAX_SIZE, SIMPLE_STRING_FIRST_BYTE,
};
use crate::data::{seq_view, Data, DataModel};
use crate::decimal::parse_decimal;

verus! {

/// Why a byte string failed to decode.
#[derive(Debug, Clone, Copy, PartialEq, Eq, Structural)]
pub enum DecodeError {
    /// No bytes at the start of a frame: the peer closed the stream.
    BrokenPipe,
    /// The input ended before the line feed that closes a line.
    UnterminatedLine,
    /// A complete line of fewer than three bytes.
    LineTooShort,
    /// The line does not end in CR followed by LF.
    InvalidCrlf,
    /// A header count or integer payload that is not a decimal number.
    InvalidInteger,
    /// A declared size below -1 or above 512 MiB.
    SizeOutOfRange,
    /// A text payload that is not UTF-8.
    InvalidUtf8,
    /// An unknown type tag byte, carrying the byte itself.
    UnknownTag(u8),
    /// The input ended inside a bulk payload.
    UnexpectedEnd,
}

/// The coarse categories of decode failures, named after the
/// standard I/O error kinds they surface as.
#[derive(Debug, Clone, Copy, PartialEq, Eq, Structural)]
pub enum DecodeErrorKind {
    BrokenPipe,
    InvalidInput,
    InvalidData,
    UnexpectedEof,
}

impl DecodeError {
    /// The category a decode failure falls under.
    pub open spec fn spec_kind(&self) -> DecodeErrorKind {
        match self {
            DecodeError::BrokenPipe => DecodeErrorKind::BrokenPipe,
            DecodeError::UnterminatedLine => DecodeErrorKind::InvalidInput,
            DecodeError::LineTooShort => DecodeErrorKind::InvalidInput,
            DecodeError::InvalidCrlf => DecodeErrorKind::InvalidInput,
            DecodeError::InvalidInteger => DecodeErrorKind::InvalidData,
            DecodeError::SizeOutOfRange => DecodeErrorKind::InvalidData,
            DecodeError::InvalidUtf8 => DecodeErrorKind::InvalidData,
            DecodeError::UnknownTag(_) => DecodeErrorKind::InvalidInput,
            DecodeError::UnexpectedEnd => DecodeErrorKind::UnexpectedEof,
        }
    }

    /// The category a decode failure falls under.
    pub fn kind(&self) -> (r: DecodeErrorKind)
        ensures
            r == self.spec_kind(),
    {
        match self {
            DecodeError::BrokenPipe => DecodeErrorKind::BrokenPipe,
            DecodeError::UnterminatedLine => DecodeErrorKind::InvalidInput,
            DecodeError::LineTooShort => DecodeErrorKind::InvalidInput,
            DecodeError::InvalidCrlf => DecodeErrorKind::InvalidInput,
            DecodeError::InvalidInteger => DecodeErrorKind::InvalidData,
            DecodeError::SizeOutOfRange => DecodeErrorKind::InvalidData,
            DecodeError::InvalidUtf8 => DecodeErrorKind::InvalidData,
            DecodeError::UnknownTag(_) => DecodeErrorKind::InvalidInput,
            DecodeError::UnexpectedEnd => DecodeErrorKind::UnexpectedEof,
        }
    }

    /// Whether the failure only says that the input stopped early, so
    /// that reading more bytes from a still-open stream could cure it.
    pub open spec fn spec_is_starved(&self) -> bool {
        match self {
            DecodeError::BrokenPipe => true,
            DecodeError::UnterminatedLine => true,
            DecodeError::UnexpectedEnd => true,
            _ => false,
        }
    }

    /// Whether more input could cure this failure.
    pub fn is_starved(&self) -> (r: bool)
        ensures
            r == self.spec_is_starved(),
    {
        match self {
            DecodeError::BrokenPipe => true,
            DecodeError::UnterminatedLine => true,
            DecodeError::UnexpectedEnd => true,
            _ => false,
        }
    }
}

/// The position of the first line feed at or after `pos`, if any.
pub open spec fn find_lf(b: Seq<u8>, pos: int) -> Option<int>
    recommends
        0 <= pos <= b.len(),
    decreases b.len() - pos,
{
    if pos < 0 || pos >= b.len() {
        None
    } else if b[pos] == LF_BYTE {
        Some(pos)
    } else {
        find_lf(b, pos + 1)
    }
}

pub proof fn lemma_find_lf_bounds(b: Seq<u8>, pos: int)
    requires
        0 <= pos,
    ensures
        match find_lf(b, pos) {
            Some(j) => pos <= j < b.len() && b[j] == LF_BYTE && (forall|k: int|
                pos <= k < j ==> b[k] != LF_BYTE),
            None => forall|k: int| pos <= k < b.len() ==> b[k] != LF_BYTE,
        },
    decreases b.len() - pos,
{
    if pos < b.len() && b[pos] != LF_BYTE {
        lemma_find_lf_bounds(b, pos + 1);
    }
}

/// What one frame starting at `pos` decodes to: the value and the
/// position just past it, or the failure the wire rules give.
pub open spec fn decode_frame(b: Seq<u8>, pos: int) -> Result<(DataModel, int), DecodeError>
    recommends
        0 <= pos <= b.len(),
    decreases b.len() - pos, 0int,
{
    if pos < 0 {
        Err(DecodeError::BrokenPipe)
    } else if pos >= b.len() {
        Err(DecodeError::BrokenPipe)
    } else {
        match find_lf(b, pos) {
            None => Err(DecodeError::UnterminatedLine),
            Some(j) => {
                let after = j + 1;
                if after - pos < 3 {
                    Err(DecodeError::LineTooShort)
                } else if b[j - 1] != CR_BYTE {
                    Err(DecodeError::InvalidCrlf)
                } else {
                    let tag = b[pos];
                    let payload = b.subrange(pos + 1, j - 1);
                    if tag == ARRAY_FIRST_BYTE {
                        match parse_decimal(payload) {
                            None => Err(DecodeError::InvalidInteger),
                            Some(n) => if n == -1 {
                                Ok((DataModel::NullArray, after))
                            } else if n < -1 || n > RESPONSE_MAX_SIZE {
                                Err(DecodeError::SizeOutOfRange)
                            } else {
                                let from = if pos < after <= b.len() {
                                    after
                                } else {
                                    b.len() as int
                                };
                                match decode_seq(b, from, n) {
                                    Err(e) => Err(e),
                                    Ok((items, end)) => Ok((DataModel::Array(items), end)),
                                }
                            },
                        }
                    } else if tag == BULK_STRING_FIRST_BYTE {
                        match parse_decimal(payload) {
                            None => Err(DecodeError::InvalidInteger),
                            Some(n) => if n == -1 {
                                Ok((DataModel::Null, after))
                            } else if n < -1 || n > RESPONSE_MAX_SIZE {
                                Err(DecodeError::SizeOutOfRange)
                            } else if after + n + 2 > b.len() {
                                Err(DecodeError::UnexpectedEnd)
                            } else if b[after + n] != CR_BYTE || b[after + n + 1] != LF_BYTE {
                                Err(DecodeError::InvalidCrlf)
                            } else {
                                let chunk = b.subrange(after, after + n);
                                if valid_utf8(chunk) {
                                    Ok((DataModel::BulkString(decode_utf8(chunk)), after + n + 2))
                                } else {
                                    Err(DecodeError::InvalidUtf8)
                                }
                            },
                        }
                    } else if tag == ERROR_FIRST_BYTE {
                        if valid_utf8(payload) {
                            Ok((DataModel::Error(decode_utf8(payload)), after))
                        } else {
                            Err(DecodeError::InvalidUtf8)
                        }
                    } else if tag == INTEGER_FIRST_BYTE {
                        match parse_decimal(payload) {
                            None => Err(DecodeError::InvalidInteger),
                            Some(n) => Ok((DataModel::Integer(n), after)),
                        }
                    } else if tag == SIMPLE_STRING_FIRST_BYTE {
                        if valid_utf8(payload) {
                            Ok((DataModel::SimpleString(decode_utf8(payload)), after))
                        } else {
                            Err(DecodeError::InvalidUtf8)
                        }
                    } else {
                        Err(DecodeError::UnknownTag(tag))
                    }
                }
            },
        }
    }
}

/// What `n` consecutive frames starting at `pos` decode to.
pub open spec fn decode_seq(b: Seq<u8>, pos: int, n: int) -> Result<
    (Seq<DataModel>, int),
    DecodeError,
>
    recommends
        0 <= pos <= b.len(),
    decreases b.len() - pos, n + 1,
{
    if pos < 0 || pos > b.len() {
        Err(DecodeError::BrokenPipe)
    } else if n <= 0 {
        Ok((Seq::empty(), pos))
    } else {
        match decode_frame(b, pos) {
            Err(e) => Err(e),
            Ok((v, end)) => {
                let next = if pos < end <= b.len() {
                    end
                } else {
                    b.len() as int
                };
                match decode_seq(b, next, n - 1) {
                    Err(e) => Err(e),
                    Ok((items, fin)) => Ok((seq![v] + items, fin)),
                }
            },
        }
    }
}

/// Relies on String::from_utf8: it returns Ok exactly on UTF-8 input,
/// and then the string those bytes spell.
#[verifier::external_body]
fn bytes_to_string(bytes: Vec<u8>) -> (r: Option<String>)
    ensures
        r is Some <==> valid_utf8(bytes@),
        r matches Some(s) ==> s@ == decode_utf8(bytes@),
{
    String::from_utf8(bytes).ok()
}

/// Decode one frame of `input` beginning at `pos`, exactly as
/// [`decode_frame`] describes.
fn decode_frame_at(input: &[u8], pos: usize) -> (r: Result<(Data, usize), DecodeError>)
    requires
        pos <= input@.len(),
    ensures
        match r {
            Ok(p) => decode_frame(input@, pos as int) == Ok::<(DataModel, int), DecodeError>(
                (p.0@, p.1 as int),
            ) && pos < p.1 <= input@.len(),
            Err(e) => decode_frame(input@, pos as int) == Err::<(DataModel, int), DecodeError>(e),
        },
    decreases input@.len() - pos, 0int,
{
    let len = input.len();
    if pos >= len {
        return Err(DecodeError::BrokenPipe);
    }
    let mut j = pos;
    while j < len && input[j] != LF_BYTE
        invariant
            pos <= j <= len,
            len == input@.len(),
            forall|k: int| pos <= k < j ==> input@[k] != LF_BYTE,
        decreases len - j,
    {
        j = j + 1;
    }
    proof {
        lemma_find_lf_bounds(input@, pos as int);
    }
    if j == len {
        proof {
            assert(find_lf(input@, pos as int) is None);
        }
        return Err(DecodeError::UnterminatedLine);
    }
    proof {
        assert(input@[j as int] == LF_BYTE);
        assert(find_lf(input@, pos as int) == Some(j as int));
    }
    let after = j + 1;
    if after - pos < 3 {
        return Err(DecodeError::LineTooShort);
    }
    if input[j - 1] != CR_BYTE {
        return Err(DecodeError::InvalidCrlf);
    }
    let tag = input[pos];
    if tag == ARRAY_FIRST_BYTE {
        match crate::decimal::parse_decimal_bytes(input, pos + 1, j - 1) {
            None => Err(DecodeError::InvalidInteger),
            Some(n) => {
                if n == -1 {
                    Ok((Data::NullArray, after))
                } else if n < -1 || n > RESPONSE_MAX_SIZE {
                    Err(DecodeError::SizeOutOfRange)
                } else {
                    match decode_items(input, after, n) {
                        Err(e) => Err(e),
                        Ok((items, end)) => Ok((Data::Array(items), end)),
                    }
                }
            },
        }
    } else if tag == BULK_STRING_FIRST_BYTE {
        match crate::decimal::parse_decimal_bytes(input, pos + 1, j - 1) {
            None => Err(DecodeError::InvalidInteger),
            Some(n) => {
                if n == -1 {
                    Ok((Data::Null, after))
                } else if n < -1 || n > RESPONSE_MAX_SIZE {
                    Err(DecodeError::SizeOutOfRange)
                } else {
                    let n_us = n as usize;
                    if n_us + 2 > len - after {
                        Err(DecodeError::UnexpectedEnd)
                    } else {
                        let pend = after + n_us;
                        if input[pend] != CR_BYTE || input[pend + 1] != LF_BYTE {
                            Err(DecodeError::InvalidCrlf)
                        } else {
                            let chunk = slice_to_vec(slice_subrange(input, after, pend));
                            match bytes_to_string(chunk) {
                                None => Err(DecodeError::InvalidUtf8),
                                Some(s) => Ok((Data::BulkString(s), pend + 2)),
                            }
                        }
                    }
                }
            },
        }
    } else if tag == ERROR_FIRST_BYTE {
        let payload = slice_to_vec(slice_subrange(input, pos + 1, j - 1));
        match bytes_to_string(payload) {
            None => Err(DecodeError::InvalidUtf8),
            Some(s) => Ok((Data::Error(s), after)),
        }
    } else if tag == INTEGER_FIRST_BYTE {
        match crate::decimal::parse_decimal_bytes(input, pos + 1, j - 1) {
            None => Err(DecodeError::InvalidInteger),
            Some(n) => Ok((Data::Integer(n), after)),
        }
    } else if tag == SIMPLE_STRING_FIRST_BYTE {
        let payload = slice_to_vec(slice_subrange(input, pos + 1, j - 1));
        match bytes_to_string(payload) {
            None => Err(DecodeError::InvalidUtf8),
            Some(s) => Ok((Data::SimpleString(s), after)),
        }
    } else {
        Err(DecodeError::UnknownTag(tag))
    }
}

/// Decode `n` consecutive frames beginning at `start`, exactly as
/// [`decode_seq`] describes.
fn decode_items(input: &[u8], start: usize, n: i64) -> (r: Result<(Vec<Data>, usize), DecodeError>)
    requires
        start <= input@.len(),
        0 <= n,
    ensures
        match r {
            Ok(p) => decode_seq(input@, start as int, n as int) == Ok::<
                (Seq<DataModel>, int),
                DecodeError,
            >((seq_view(p.0@), p.1 as int)) && start <= p.1 <= input@.len(),
            Err(e) => decode_seq(input@, start as int, n as int) == Err::<
                (Seq<DataModel>, int),
                DecodeError,
            >(e),
        },
    decreases input@.len() - start, n + 1,
{
    broadcast use crate::data::lemma_seq_view_len, crate::data::lemma_seq_view_index;

    let count = n as u64;
    let mut items: Vec<Data> = Vec::new();
    let mut cur: usize = start;
    let mut k: u64 = 0;
    proof {
        assert(seq_view(items@) =~= Seq::<DataModel>::empty());
    }
    while k < count
        invariant
            start <= cur <= input@.len(),
            k <= count,
            count == n as u64,
            0 <= n,
            items@.len() == k as int,
            decode_seq(input@, start as int, n as int) == (match decode_seq(
                input@,
                cur as int,
                n as int - k as int,
            ) {
                Ok((rest, end)) => Ok::<(Seq<DataModel>, int), DecodeError>(
                    (seq_view(items@) + rest, end),
                ),
                Err(e) => Err::<(Seq<DataModel>, int), DecodeError>(e),
            }),
        decreases count - k,
    {
        proof {
            assert(n as int - k as int > 0);
        }
        match decode_frame_at(input, cur) {
            Err(e) => {
                proof {
                    assert(decode_seq(input@, cur as int, n as int - k as int) == Err::<
                        (Seq<DataModel>, int),
                        DecodeError,
                    >(e));
                }
                return Err(e);
            },
            Ok((v, end)) => {
                proof {
                    broadcast use crate::data::lemma_seq_view_len, crate::data::lemma_seq_view_index;

                    let m = n as int - k as int;
                    let rest0 = decode_seq(input@, end as int, m - 1);
                    assert(decode_seq(input@, cur as int, m) == (match rest0 {
                        Ok((rst, fin)) => Ok::<(Seq<DataModel>, int), DecodeError>(
                            (seq![v@] + rst, fin),
                        ),
                        Err(e) => Err::<(Seq<DataModel>, int), DecodeError>(e),
                    }));
                    assert(seq_view(items@.push(v)) =~= seq_view(items@).push(v@));
                    match rest0 {
                        Ok((rst, fin)) => {
                            assert(seq_view(items@) + (seq![v@] + rst) =~= seq_view(items@.push(v))
                                + rst);
                        },
                        Err(e) => {},
                    }
                }
                items.push(v);
                cur = end;
                k = k + 1;
            },
        }
    }
    proof {
        assert(decode_seq(input@, cur as int, 0) == Ok::<(Seq<DataModel>, int), DecodeError>(
            (Seq::empty(), cur as int),
        ));
        assert(seq_view(items@) + Seq::<DataModel>::empty() =~= seq_view(items@));
    }
    Ok((items, cur))
}

/// Decode the first value carried by `input`.
///
/// On success the result also says how many bytes of `input` the value
/// took, so a caller can go on decoding behind it.
pub fn decode(input: &[u8]) -> (r: Result<(Data, usize), DecodeError>)
    ensures
        match r {
            Ok(p) => decode_frame(input@, 0) == Ok::<(DataModel, int), DecodeError>(
                (p.0@, p.1 as int),
            ) && 0 < p.1 <= input@.len(),
            Err(e) => decode_frame(input@, 0) == Err::<(DataModel, int), DecodeError>(e),
        },
{
    decode_frame_at(input, 0)
}

/// Decode a value from the bytes of a string, as a peer would have
/// sent it.
pub fn decode_string(content: String) -> (r: Result<Data, DecodeError>)
    ensures
        match r {
            Ok(d) => decode_frame(vstd::utf8::encode_utf8(content@), 0) matches Ok(p) && p.0
                == d@,
            Err(e) => decode_frame(vstd::utf8::encode_utf8(content@), 0) == Err::<
                (DataModel, int),
                DecodeError,
            >(e),
        },
{
    match decode(content.as_str().as_bytes()) {
        Ok((d, _)) => Ok(d),
        Err(e) => Err(e),
    }
}

} // verus!
