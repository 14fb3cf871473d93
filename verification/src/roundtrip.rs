//! The encoder and the decoder are inverse: decoding what [`encode`]
//! wrote gives the value back.
//!
//! [`encode`]: crate::serialize::encode

use vstd::prelude::*;
use vstd::utf8::{
    char_is_scalar, encode_scalar, encode_utf8, encode_utf8_decode_utf8,
    encode_utf8_valid_utf8, has_width_1_encoding, is_scalar,
};
use crate::constants::{
    ARRAY_FIRST_BYTE, BULK_STRING_FIRST_BYTE, CR_BYTE, ERROR_FIRST_BYTE, INTEGER_FIRST_BYTE,
    LF_BYTE, RESPONSE_MAX_SIZE, SIMPLE_STRING_FIRST_BYTE,
};
use crate::data::DataModel;
use crate::decimal::{
    all_digits, dec_digits, dec_int, is_digit_byte, lemma_dec_digits_are_digits,
    lemma_dec_int_parses_back, parse_decimal,
};
use crate::deserialize::{decode_frame, decode_seq, find_lf, lemma_find_lf_bounds, DecodeError};

use crate::serialize::{crlf, wire_bytes, wire_seq};

verus! {

/// The values the wire can carry losslessly: sizes within the 512 MiB
/// cap, and no line feed inside line-framed text. A simple string or
/// error holding a line feed encodes, but the line-based reader would
/// cut it short, so such values are left out here.
pub open spec fn wire_safe(v: DataModel) -> bool
    decreases v,
{
    match v {
        DataModel::Array(items) => items.len() <= RESPONSE_MAX_SIZE && (forall|i: int|
            0 <= i < items.len() ==> wire_safe(#[trigger] items[i])),
        DataModel::BulkString(s) => encode_utf8(s).len() <= RESPONSE_MAX_SIZE,
        DataModel::Error(s) => forall|i: int| 0 <= i < s.len() ==> s[i] != '\n',
        DataModel::Integer(n) => i64::MIN <= n <= i64::MAX,
        DataModel::Null => true,
        DataModel::NullArray => true,
        DataModel::SimpleString(s) => forall|i: int| 0 <= i < s.len() ==> s[i] != '\n',
    }
}

/// No byte of a scalar's encoding is a line feed, unless the scalar is
/// the line feed itself.
proof fn lemma_encode_scalar_no_lf(v: u32)
    requires
        is_scalar(v),
        v != 10,
    ensures
        forall|i: int| 0 <= i < encode_scalar(v).len() ==> encode_scalar(v)[i] != LF_BYTE,
{
    if has_width_1_encoding(v) {
        assert((v & 0x7F) as u8 != 10) by (bit_vector)
            requires
                v <= 0x7F,
                v != 10,
        ;
    } else {
        assert((0xC0u8 | ((v >> 6) & 0x1F) as u8) != 10) by (bit_vector);
        assert((0xE0u8 | ((v >> 12) & 0x0F) as u8) != 10) by (bit_vector);
        assert((0xF0u8 | ((v >> 18) & 0x7) as u8) != 10) by (bit_vector);
        assert((0x80u8 | (v & 0x3F) as u8) != 10) by (bit_vector);
        assert((0x80u8 | ((v >> 6) & 0x3F) as u8) != 10) by (bit_vector);
        assert((0x80u8 | ((v >> 12) & 0x3F) as u8) != 10) by (bit_vector);
    }
}

/// Text without a line feed encodes to bytes without a line feed.
proof fn lemma_encode_utf8_no_lf(s: Seq<char>)
    requires
        forall|i: int| 0 <= i < s.len() ==> s[i] != '\n',
    ensures
        forall|i: int| 0 <= i < encode_utf8(s).len() ==> encode_utf8(s)[i] != LF_BYTE,
    decreases s.len(),
{
    broadcast use char_is_scalar;

    if s.len() > 0 {
        let c = s[0];
        char_is_scalar(c);
        assert(c as u32 != 10) by {
            assert('\n' as u32 == 10);
            vstd::utf8::char_u32_cast(c, c as u32);
        }
        lemma_encode_scalar_no_lf(c as u32);
        assert(forall|i: int| 0 <= i < s.drop_first().len() ==> s.drop_first()[i] != '\n');
        lemma_encode_utf8_no_lf(s.drop_first());
        assert(forall|i: int|
            0 <= i < encode_utf8(s).len() ==> encode_utf8(s)[i] != LF_BYTE) by {
            assert(encode_utf8(s) == encode_scalar(s[0] as u32) + encode_utf8(s.drop_first()));
        }
    }
}

/// Decimal text never holds a line feed.
proof fn lemma_dec_int_no_lf(n: int)
    ensures
        forall|i: int| 0 <= i < dec_int(n).len() ==> dec_int(n)[i] != LF_BYTE,
{
    if n < 0 {
        lemma_dec_digits_are_digits(-n);
        assert(forall|i: int|
            0 <= i < dec_int(n).len() ==> dec_int(n)[i] != LF_BYTE) by {
            assert(dec_int(n) == seq![45u8] + dec_digits(-n));
            assert(dec_int(n)[0] == 45);
            assert(forall|i: int|
                1 <= i < dec_int(n).len() ==> dec_int(n)[i] == dec_digits(-n)[i - 1]);
        }
    } else {
        lemma_dec_digits_are_digits(n);
    }
}

/// Each byte of `b` from `pos` on matches the window `w` written there.
proof fn lemma_bytes_at(b: Seq<u8>, pos: int, w: Seq<u8>)
    requires
        0 <= pos,
        pos + w.len() <= b.len(),
        b.subrange(pos, pos + w.len()) == w,
    ensures
        forall|i: int| 0 <= i < w.len() ==> b[pos + i] == w[i],
{
    assert forall|i: int| 0 <= i < w.len() implies b[pos + i] == w[i] by {
        assert(b.subrange(pos, pos + w.len())[i] == b[pos + i]);
    }
}

/// A line written as tag, payload, CR, LF is found whole: the first
/// line feed at or after `pos` is the one the line ends with.
proof fn lemma_find_lf_of_line(b: Seq<u8>, pos: int, line: Seq<u8>)
    requires
        0 <= pos,
        pos + line.len() <= b.len(),
        line.len() >= 1,
        forall|i: int| 0 <= i < line.len() - 1 ==> line[i] != LF_BYTE,
        line[line.len() - 1] == LF_BYTE,
        forall|i: int| 0 <= i < line.len() ==> b[pos + i] == line[i],
    ensures
        find_lf(b, pos) == Some(pos + line.len() - 1),
{
    lemma_find_lf_bounds(b, pos);
    let j = pos + line.len() - 1;
    assert(b[j] == LF_BYTE);
    assert forall|k: int| pos <= k < j implies b[k] != LF_BYTE by {
        assert(b[pos + (k - pos)] == line[k - pos]);
    }
    match find_lf(b, pos) {
        Some(jj) => {
            assert(!(jj < j));
            assert(!(jj > j)) by {
                if jj > j {
                    assert(b[j] != LF_BYTE);
                }
            }
        },
        None => {
            assert(b[j] == LF_BYTE);
        },
    }
}

/// Parsing the bytes "-1" yields minus one.
proof fn lemma_parse_minus_one()
    ensures
        parse_decimal(seq![45u8, 49u8]) == Some(-1int),
{
    let s = seq![45u8, 49u8];
    assert(s[0] == 45);
    let digs = s.drop_first();
    assert(digs =~= seq![49u8]);
    assert(all_digits(digs));
    assert(crate::decimal::digits_val(digs) == 1) by {
        assert(digs.drop_last() =~= Seq::<u8>::empty());
        assert(crate::decimal::digits_val(Seq::<u8>::empty()) == 0);
    }
}

/// Every value needs at least three bytes on the wire.
proof fn lemma_wire_bytes_len(v: DataModel)
    ensures
        wire_bytes(v).len() >= 3,
{
    match v {
        DataModel::Array(items) => {
            lemma_dec_digits_are_digits(items.len() as int);
        },
        DataModel::BulkString(s) => {
            lemma_dec_digits_are_digits(encode_utf8(s).len() as int);
        },
        DataModel::Integer(n) => {
            if n >= 0 {
                lemma_dec_digits_are_digits(n);
            } else {
                lemma_dec_digits_are_digits(-n);
            }
        },
        _ => {},
    }
}

proof fn lemma_wire_decodes_simple(b: Seq<u8>, pos: int, s: Seq<char>)
    requires
        forall|i: int| 0 <= i < s.len() ==> s[i] != '\n',
        0 <= pos,
        pos + wire_bytes(DataModel::SimpleString(s)).len() <= b.len(),
        b.subrange(pos, pos + wire_bytes(DataModel::SimpleString(s)).len()) == wire_bytes(DataModel::SimpleString(s)),
    ensures
        decode_frame(b, pos) == Ok::<(DataModel, int), DecodeError>(
            (DataModel::SimpleString(s), pos + wire_bytes(DataModel::SimpleString(s)).len()),
        ),
{
    broadcast use encode_utf8_valid_utf8, encode_utf8_decode_utf8;

    let v = DataModel::SimpleString(s);
    let w = wire_bytes(v);
    let len = w.len() as int;
    lemma_wire_bytes_len(v);
    lemma_bytes_at(b, pos, w);
    let e = encode_utf8(s);
    assert(w == seq![SIMPLE_STRING_FIRST_BYTE] + e + crlf());
    lemma_encode_utf8_no_lf(s);
    assert forall|i: int| 0 <= i < len - 1 implies w[i] != LF_BYTE by {
        if i == 0 {
            assert(w[0] == SIMPLE_STRING_FIRST_BYTE);
        } else if i < 1 + e.len() {
            assert(w[i] == e[i - 1]);
        } else {
            assert(w[i] == CR_BYTE);
        }
    }
    assert(w[len - 1] == LF_BYTE);
    lemma_find_lf_of_line(b, pos, w);
    let j = pos + len - 1;
    assert(b[j - 1] == w[len - 2]);
    assert(w[len - 2] == CR_BYTE);
    assert(b[pos + 0] == w[0]);
    assert(b[pos] == SIMPLE_STRING_FIRST_BYTE);
    assert(b.subrange(pos + 1, j - 1) =~= e) by {
        assert forall|i: int| 0 <= i < e.len() implies b.subrange(pos + 1, j - 1)[i]
            == e[i] by {
            assert(b[pos + (1 + i)] == w[1 + i]);
            assert(w[1 + i] == e[i]);
        }
    }
}

proof fn lemma_wire_decodes_error(b: Seq<u8>, pos: int, s: Seq<char>)
    requires
        forall|i: int| 0 <= i < s.len() ==> s[i] != '\n',
        0 <= pos,
        pos + wire_bytes(DataModel::Error(s)).len() <= b.len(),
        b.subrange(pos, pos + wire_bytes(DataModel::Error(s)).len()) == wire_bytes(DataModel::Error(s)),
    ensures
        decode_frame(b, pos) == Ok::<(DataModel, int), DecodeError>(
            (DataModel::Error(s), pos + wire_bytes(DataModel::Error(s)).len()),
        ),
{
    broadcast use encode_utf8_valid_utf8, encode_utf8_decode_utf8;

    let v = DataModel::Error(s);
    let w = wire_bytes(v);
    let len = w.len() as int;
    lemma_wire_bytes_len(v);
    lemma_bytes_at(b, pos, w);
    let e = encode_utf8(s);
    assert(w == seq![ERROR_FIRST_BYTE] + e + crlf());
    lemma_encode_utf8_no_lf(s);
    assert forall|i: int| 0 <= i < len - 1 implies w[i] != LF_BYTE by {
        if i == 0 {
            assert(w[0] == ERROR_FIRST_BYTE);
        } else if i < 1 + e.len() {
            assert(w[i] == e[i - 1]);
        } else {
            assert(w[i] == CR_BYTE);
        }
    }
    assert(w[len - 1] == LF_BYTE);
    lemma_find_lf_of_line(b, pos, w);
    let j = pos + len - 1;
    assert(b[j - 1] == w[len - 2]);
    assert(w[len - 2] == CR_BYTE);
    assert(b[pos + 0] == w[0]);
    assert(b[pos] == ERROR_FIRST_BYTE);
    assert(b.subrange(pos + 1, j - 1) =~= e) by {
        assert forall|i: int| 0 <= i < e.len() implies b.subrange(pos + 1, j - 1)[i]
            == e[i] by {
            assert(b[pos + (1 + i)] == w[1 + i]);
            assert(w[1 + i] == e[i]);
        }
    }
}

proof fn lemma_wire_decodes_integer(b: Seq<u8>, pos: int, n: int)
    requires
        i64::MIN <= n <= i64::MAX,
        0 <= pos,
        pos + wire_bytes(DataModel::Integer(n)).len() <= b.len(),
        b.subrange(pos, pos + wire_bytes(DataModel::Integer(n)).len()) == wire_bytes(DataModel::Integer(n)),
    ensures
        decode_frame(b, pos) == Ok::<(DataModel, int), DecodeError>(
            (DataModel::Integer(n), pos + wire_bytes(DataModel::Integer(n)).len()),
        ),
{
    broadcast use encode_utf8_valid_utf8, encode_utf8_decode_utf8;

    let v = DataModel::Integer(n);
    let w = wire_bytes(v);
    let len = w.len() as int;
    lemma_wire_bytes_len(v);
    lemma_bytes_at(b, pos, w);
    let e = dec_int(n);
    assert(w == seq![INTEGER_FIRST_BYTE] + e + crlf());
    lemma_dec_int_no_lf(n);
    assert forall|i: int| 0 <= i < len - 1 implies w[i] != LF_BYTE by {
        if i == 0 {
            assert(w[0] == INTEGER_FIRST_BYTE);
        } else if i < 1 + e.len() {
            assert(w[i] == e[i - 1]);
        } else {
            assert(w[i] == CR_BYTE);
        }
    }
    assert(w[len - 1] == LF_BYTE);
    lemma_find_lf_of_line(b, pos, w);
    let j = pos + len - 1;
    assert(b[j - 1] == w[len - 2]);
    assert(w[len - 2] == CR_BYTE);
    assert(b[pos + 0] == w[0]);
    assert(b[pos] == INTEGER_FIRST_BYTE);
    assert(b.subrange(pos + 1, j - 1) =~= e) by {
        assert forall|i: int| 0 <= i < e.len() implies b.subrange(pos + 1, j - 1)[i]
            == e[i] by {
            assert(b[pos + (1 + i)] == w[1 + i]);
            assert(w[1 + i] == e[i]);
        }
    }
    lemma_dec_int_parses_back(n);
}

proof fn lemma_wire_decodes_bulk(b: Seq<u8>, pos: int, s: Seq<char>)
    requires
        encode_utf8(s).len() <= RESPONSE_MAX_SIZE,
        0 <= pos,
        pos + wire_bytes(DataModel::BulkString(s)).len() <= b.len(),
        b.subrange(pos, pos + wire_bytes(DataModel::BulkString(s)).len()) == wire_bytes(DataModel::BulkString(s)),
    ensures
        decode_frame(b, pos) == Ok::<(DataModel, int), DecodeError>(
            (DataModel::BulkString(s), pos + wire_bytes(DataModel::BulkString(s)).len()),
        ),
{
    broadcast use encode_utf8_valid_utf8, encode_utf8_decode_utf8;

    let v = DataModel::BulkString(s);
    let w = wire_bytes(v);
    let len = w.len() as int;
    lemma_wire_bytes_len(v);
    lemma_bytes_at(b, pos, w);
    let e = encode_utf8(s);
    let d = dec_digits(e.len() as int);
    let header = seq![BULK_STRING_FIRST_BYTE] + d + crlf();
    let hl = header.len() as int;
    assert(w == header + e + crlf());
    assert(len == hl + e.len() + 2);
    lemma_dec_digits_are_digits(e.len() as int);
    assert forall|i: int| 0 <= i < hl - 1 implies header[i] != LF_BYTE by {
        if i == 0 {
            assert(header[0] == BULK_STRING_FIRST_BYTE);
        } else if i < 1 + d.len() {
            assert(header[i] == d[i - 1]);
            assert(is_digit_byte(d[i - 1]));
        } else {
            assert(header[i] == CR_BYTE);
        }
    }
    assert(header[hl - 1] == LF_BYTE) by {
        assert(w[hl - 1] == header[hl - 1]);
    }
    assert forall|i: int| 0 <= i < hl implies b[pos + i] == header[i] by {
        assert(b[pos + i] == w[i]);
        assert(w[i] == header[i]);
    }
    lemma_find_lf_of_line(b, pos, header);
    let j = pos + hl - 1;
    let after = pos + hl;
    assert(b[j - 1] == header[hl - 2]);
    assert(header[hl - 2] == CR_BYTE);
    assert(b[pos + 0] == w[0]);
    assert(b[pos] == BULK_STRING_FIRST_BYTE);
    assert(b.subrange(pos + 1, j - 1) =~= d) by {
        assert forall|i: int| 0 <= i < d.len() implies b.subrange(pos + 1, j - 1)[i]
            == d[i] by {
            assert(b[pos + (1 + i)] == w[1 + i]);
            assert(w[1 + i] == header[1 + i]);
            assert(header[1 + i] == d[i]);
        }
    }
    let n = e.len() as int;
    assert(parse_decimal(d) == Some(n)) by {
        lemma_dec_int_parses_back(n);
        assert(dec_int(n) == dec_digits(n));
    }
    assert(after + n + 2 <= b.len());
    assert(b[after + n] == CR_BYTE) by {
        assert(b[pos + (hl + n)] == w[hl + n]);
        assert(w[hl + n] == crlf()[0]);
    }
    assert(b[after + n + 1] == LF_BYTE) by {
        assert(b[pos + (hl + n + 1)] == w[hl + n + 1]);
        assert(w[hl + n + 1] == crlf()[1]);
    }
    assert(b.subrange(after, after + n) =~= e) by {
        assert forall|i: int| 0 <= i < n implies b.subrange(after, after + n)[i]
            == e[i] by {
            assert(b[pos + (hl + i)] == w[hl + i]);
            assert(w[hl + i] == e[i]);
        }
    }
}

proof fn lemma_wire_decodes_null(b: Seq<u8>, pos: int)
    requires
        0 <= pos,
        pos + wire_bytes(DataModel::Null).len() <= b.len(),
        b.subrange(pos, pos + wire_bytes(DataModel::Null).len()) == wire_bytes(DataModel::Null),
    ensures
        decode_frame(b, pos) == Ok::<(DataModel, int), DecodeError>(
            (DataModel::Null, pos + wire_bytes(DataModel::Null).len()),
        ),
{
    let v = DataModel::Null;
    let w = wire_bytes(v);
    let len = w.len() as int;
    lemma_wire_bytes_len(v);
    lemma_bytes_at(b, pos, w);
    assert(w == seq![
        BULK_STRING_FIRST_BYTE,
        ERROR_FIRST_BYTE,
        49u8,
        CR_BYTE,
        LF_BYTE,
    ]);
    assert forall|i: int| 0 <= i < 4 implies w[i] != LF_BYTE by {}
    assert(w[4] == LF_BYTE);
    lemma_find_lf_of_line(b, pos, w);
    let j = pos + 4;
    assert(b[j - 1] == w[3]);
    assert(b[pos + 0] == w[0]);
    assert(b[pos] == BULK_STRING_FIRST_BYTE);
    assert(b.subrange(pos + 1, j - 1) =~= seq![45u8, 49u8]) by {
        assert(b[pos + 1] == w[1]);
        assert(b[pos + 2] == w[2]);
    }
    lemma_parse_minus_one();
}

proof fn lemma_wire_decodes_nullarray(b: Seq<u8>, pos: int)
    requires
        0 <= pos,
        pos + wire_bytes(DataModel::NullArray).len() <= b.len(),
        b.subrange(pos, pos + wire_bytes(DataModel::NullArray).len()) == wire_bytes(DataModel::NullArray),
    ensures
        decode_frame(b, pos) == Ok::<(DataModel, int), DecodeError>(
            (DataModel::NullArray, pos + wire_bytes(DataModel::NullArray).len()),
        ),
{
    let v = DataModel::NullArray;
    let w = wire_bytes(v);
    let len = w.len() as int;
    lemma_wire_bytes_len(v);
    lemma_bytes_at(b, pos, w);
    assert(w == seq![ARRAY_FIRST_BYTE, ERROR_FIRST_BYTE, 49u8, CR_BYTE, LF_BYTE]);
    assert forall|i: int| 0 <= i < 4 implies w[i] != LF_BYTE by {}
    assert(w[4] == LF_BYTE);
    lemma_find_lf_of_line(b, pos, w);
    let j = pos + 4;
    assert(b[j - 1] == w[3]);
    assert(b[pos + 0] == w[0]);
    assert(b[pos] == ARRAY_FIRST_BYTE);
    assert(b.subrange(pos + 1, j - 1) =~= seq![45u8, 49u8]) by {
        assert(b[pos + 1] == w[1]);
        assert(b[pos + 2] == w[2]);
    }
    lemma_parse_minus_one();
}

/// A wire-safe value written at `pos` decodes from there to itself,
/// ending just past its own bytes.
proof fn lemma_wire_decodes(b: Seq<u8>, pos: int, v: DataModel)
    requires
        wire_safe(v),
        0 <= pos,
        pos + wire_bytes(v).len() <= b.len(),
        b.subrange(pos, pos + wire_bytes(v).len()) == wire_bytes(v),
    ensures
        decode_frame(b, pos) == Ok::<(DataModel, int), DecodeError>(
            (v, pos + wire_bytes(v).len()),
        ),
    decreases v,
{
    match v {
        DataModel::SimpleString(s) => lemma_wire_decodes_simple(b, pos, s),
        DataModel::Error(s) => lemma_wire_decodes_error(b, pos, s),
        DataModel::Integer(n) => lemma_wire_decodes_integer(b, pos, n),
        DataModel::Null => lemma_wire_decodes_null(b, pos),
        DataModel::NullArray => lemma_wire_decodes_nullarray(b, pos),
        DataModel::BulkString(s) => lemma_wire_decodes_bulk(b, pos, s),
        DataModel::Array(items) => {
            broadcast use encode_utf8_valid_utf8, encode_utf8_decode_utf8;

            let v = DataModel::Array(items);
            let w = wire_bytes(v);
            let len = w.len() as int;
            lemma_wire_bytes_len(v);
            lemma_bytes_at(b, pos, w);
            let d = dec_digits(items.len() as int);
            let header = seq![ARRAY_FIRST_BYTE] + d + crlf();
            let hl = header.len() as int;
            let ws = wire_seq(items);
            assert(w == header + ws);
            assert(len == hl + ws.len());
            lemma_dec_digits_are_digits(items.len() as int);
            assert forall|i: int| 0 <= i < hl - 1 implies header[i] != LF_BYTE by {
                if i == 0 {
                    assert(header[0] == ARRAY_FIRST_BYTE);
                } else if i < 1 + d.len() {
                    assert(header[i] == d[i - 1]);
                    assert(is_digit_byte(d[i - 1]));
                } else {
                    assert(header[i] == CR_BYTE);
                }
            }
            assert(header[hl - 1] == LF_BYTE) by {
                assert(w[hl - 1] == header[hl - 1]);
            }
            assert forall|i: int| 0 <= i < hl implies b[pos + i] == header[i] by {
                assert(b[pos + i] == w[i]);
                assert(w[i] == header[i]);
            }
            lemma_find_lf_of_line(b, pos, header);
            let j = pos + hl - 1;
            let after = pos + hl;
            assert(b[j - 1] == header[hl - 2]);
            assert(header[hl - 2] == CR_BYTE);
            assert(b[pos + 0] == w[0]);
        assert(b[pos] == ARRAY_FIRST_BYTE);
            assert(b.subrange(pos + 1, j - 1) =~= d) by {
                assert forall|i: int| 0 <= i < d.len() implies b.subrange(pos + 1, j - 1)[i]
                    == d[i] by {
                    assert(b[pos + (1 + i)] == w[1 + i]);
                    assert(w[1 + i] == header[1 + i]);
                    assert(header[1 + i] == d[i]);
                }
            }
            let m = items.len() as int;
            assert(parse_decimal(d) == Some(m)) by {
                lemma_dec_int_parses_back(m);
                assert(dec_int(m) == dec_digits(m));
            }
            assert(b.subrange(after, after + ws.len()) =~= ws) by {
                assert forall|i: int| 0 <= i < ws.len() implies b.subrange(
                    after,
                    after + ws.len(),
                )[i] == ws[i] by {
                    assert(b[pos + (hl + i)] == w[hl + i]);
                    assert(w[hl + i] == ws[i]);
                }
            }
            lemma_wire_seq_decodes(b, after, items);
            assert(decode_seq(b, after, m) == Ok::<(Seq<DataModel>, int), DecodeError>(
                (items, after + ws.len()),
            ));
        },
    }
}

/// A row of wire-safe values written at `pos` decodes, frame by frame,
/// to those values in order.
proof fn lemma_wire_seq_decodes(b: Seq<u8>, pos: int, items: Seq<DataModel>)
    requires
        forall|i: int| 0 <= i < items.len() ==> wire_safe(#[trigger] items[i]),
        0 <= pos,
        pos + wire_seq(items).len() <= b.len(),
        b.subrange(pos, pos + wire_seq(items).len()) == wire_seq(items),
    ensures
        decode_seq(b, pos, items.len() as int) == Ok::<(Seq<DataModel>, int), DecodeError>(
            (items, pos + wire_seq(items).len()),
        ),
    decreases items,
{
    let ws = wire_seq(items);
    lemma_bytes_at(b, pos, ws);
    if items.len() == 0 {
        assert(decode_seq(b, pos, 0) == Ok::<(Seq<DataModel>, int), DecodeError>(
            (Seq::empty(), pos),
        ));
        assert(items =~= Seq::<DataModel>::empty());
    } else {
        let v0 = items[0];
        let w0 = wire_bytes(v0);
        let rest = items.drop_first();
        let wr = wire_seq(rest);
        assert(ws == w0 + wr);
        assert(b.subrange(pos, pos + w0.len()) =~= w0) by {
            assert forall|i: int| 0 <= i < w0.len() implies b.subrange(pos, pos + w0.len())[i]
                == w0[i] by {
                assert(b[pos + i] == ws[i]);
                assert(ws[i] == w0[i]);
            }
        }
        lemma_wire_decodes(b, pos, v0);
        lemma_wire_bytes_len(v0);
        let mid = pos + w0.len();
        assert(b.subrange(mid, mid + wr.len()) =~= wr) by {
            assert forall|i: int| 0 <= i < wr.len() implies b.subrange(mid, mid + wr.len())[i]
                == wr[i] by {
                assert(b[pos + (w0.len() + i)] == ws[w0.len() + i]);
                assert(ws[w0.len() + i] == wr[i]);
            }
        }
        assert(forall|i: int| 0 <= i < rest.len() ==> wire_safe(#[trigger] rest[i]));
        lemma_wire_seq_decodes(b, mid, rest);
        assert(seq![v0] + rest =~= items);
        assert(decode_seq(b, pos, items.len() as int) == Ok::<(Seq<DataModel>, int), DecodeError>(
            (items, pos + ws.len()),
        ));
    }
}

/// Round trip: decoding the wire bytes of any wire-safe value gives
/// the value back and consumes exactly those bytes.
pub proof fn lemma_decode_of_encode(v: DataModel)
    requires
        wire_safe(v),
    ensures
        decode_frame(wire_bytes(v), 0) == Ok::<(DataModel, int), DecodeError>(
            (v, wire_bytes(v).len() as int),
        ),
{
    let w = wire_bytes(v);
    assert(w.subrange(0, w.len() as int) =~= w);
    lemma_wire_decodes(w, 0, v);
}

} // verus!
