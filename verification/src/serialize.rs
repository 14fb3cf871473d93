//! Serialization of values into the wire format.

use vstd::prelude::*;
use vstd::utf8::encode_utf8;
use vstd::string::StrSliceExecFns;
use crate::constants::{
    ARRAY_FIRST_BYTE, BULK_STRING_FIRST_BYTE, CR_BYTE, ERROR_FIRST_BYTE, INTEGER_FIRST_BYTE,
    LF_BYTE, SIMPLE_STRING_FIRST_BYTE,
};
use crate::data::{Data, DataModel};
use crate::decimal::{dec_digits, dec_int};

verus! {

/// The two bytes that end every line of the wire format.
pub open spec fn crlf() -> Seq<u8> {
    seq![CR_BYTE, LF_BYTE]
}

/// The bytes a value is written as on the wire.
///
/// Arrays are a counted header followed by each element in order; bulk
/// strings declare the byte length of their payload; the other kinds
/// are a tag byte, a textual payload and CRLF.
pub open spec fn wire_bytes(v: DataModel) -> Seq<u8>
    decreases v,
{
    match v {
        DataModel::Array(items) => seq![ARRAY_FIRST_BYTE] + dec_digits(items.len() as int)
            + crlf() + wire_seq(items),
        DataModel::BulkString(s) => seq![BULK_STRING_FIRST_BYTE] + dec_digits(
            encode_utf8(s).len() as int,
        ) + crlf() + encode_utf8(s) + crlf(),
        DataModel::Error(s) => seq![ERROR_FIRST_BYTE] + encode_utf8(s) + crlf(),
        DataModel::Integer(n) => seq![INTEGER_FIRST_BYTE] + dec_int(n) + crlf(),
        DataModel::Null => seq![BULK_STRING_FIRST_BYTE, ERROR_FIRST_BYTE, 49u8, CR_BYTE, LF_BYTE],
        DataModel::NullArray => seq![ARRAY_FIRST_BYTE, ERROR_FIRST_BYTE, 49u8, CR_BYTE, LF_BYTE],
        DataModel::SimpleString(s) => seq![SIMPLE_STRING_FIRST_BYTE] + encode_utf8(s) + crlf(),
    }
}

/// The concatenated wire bytes of a sequence of values.
pub open spec fn wire_seq(items: Seq<DataModel>) -> Seq<u8>
    decreases items,
{
    if items.len() == 0 {
        Seq::empty()
    } else {
        wire_bytes(items[0]) + wire_seq(items.drop_first())
    }
}

/// Appending one value to a sequence appends its wire bytes.
pub proof fn lemma_wire_seq_push(items: Seq<DataModel>, v: DataModel)
    ensures
        wire_seq(items.push(v)) == wire_seq(items) + wire_bytes(v),
    decreases items.len(),
{
    if items.len() == 0 {
        assert(items.push(v)[0] == v);
        assert(items.push(v).drop_first() =~= Seq::<DataModel>::empty());
        assert(wire_seq(items.push(v)) == wire_bytes(v) + wire_seq(Seq::<DataModel>::empty()));
        assert(wire_seq(Seq::<DataModel>::empty()) == Seq::<u8>::empty());
        assert(wire_bytes(v) + Seq::<u8>::empty() =~= Seq::<u8>::empty() + wire_bytes(v));
    } else {
        assert(items.push(v).drop_first() =~= items.drop_first().push(v));
        lemma_wire_seq_push(items.drop_first(), v);
        assert(items.push(v)[0] == items[0]);
        assert(wire_bytes(items[0]) + (wire_seq(items.drop_first()) + wire_bytes(v)) =~= (
        wire_bytes(items[0]) + wire_seq(items.drop_first())) + wire_bytes(v));
    }
}

/// Append the wire bytes of `data` to `out`.
fn encode_into(data: &Data, out: &mut Vec<u8>)
    ensures
        final(out)@ == old(out)@ + wire_bytes(data@),
    decreases data,
{
    broadcast use crate::data::lemma_seq_view_len, crate::data::lemma_seq_view_index;

    match data {
        Data::Array(items) => {
            out.push(ARRAY_FIRST_BYTE);
            crate::decimal::push_decimal_u64(out, items.len() as u64);
            out.push(CR_BYTE);
            out.push(LF_BYTE);
            let ghost header = seq![ARRAY_FIRST_BYTE] + dec_digits(items@.len() as int) + crlf();
            proof {
                assert(out@ =~= old(out)@ + header);
            }
            let n = items.len();
            for i in 0..n
                invariant
                    n == items@.len(),
                    *data == Data::Array(*items),
                    data@ == DataModel::Array(crate::data::seq_view(items@)),
                    out@ == old(out)@ + header + wire_seq(crate::data::seq_view(items@).take(
                        i as int,
                    )),
                    header == seq![ARRAY_FIRST_BYTE] + dec_digits(items@.len() as int) + crlf(),
            {
                proof {
                    assert(decreases_to!(*data => *items));
                    assert(decreases_to!(*items => items@));
                    assert(decreases_to!(items@ => items@[i as int]));
                }
                encode_into(&items[i], out);
                proof {
                    broadcast use crate::data::lemma_seq_view_len, crate::data::lemma_seq_view_index;

                    let views = crate::data::seq_view(items@);
                    assert(views.take(i + 1) =~= views.take(i as int).push(views[i as int]));
                    lemma_wire_seq_push(views.take(i as int), views[i as int]);
                    assert(out@ =~= old(out)@ + header + wire_seq(views.take(i + 1)));
                }
            }
            proof {
                let views = crate::data::seq_view(items@);
                assert(views.take(n as int) =~= views);
                assert(out@ =~= old(out)@ + wire_bytes(data@));
            }
        },
        Data::BulkString(s) => {
            out.push(BULK_STRING_FIRST_BYTE);
            let mut payload = s.as_str().as_bytes_vec();
            crate::decimal::push_decimal_u64(out, payload.len() as u64);
            out.push(CR_BYTE);
            out.push(LF_BYTE);
            out.append(&mut payload);
            out.push(CR_BYTE);
            out.push(LF_BYTE);
            proof {
                assert(out@ =~= old(out)@ + wire_bytes(data@));
            }
        },
        Data::Error(s) => {
            out.push(ERROR_FIRST_BYTE);
            let mut payload = s.as_str().as_bytes_vec();
            out.append(&mut payload);
            out.push(CR_BYTE);
            out.push(LF_BYTE);
            proof {
                assert(out@ =~= old(out)@ + wire_bytes(data@));
            }
        },
        Data::Integer(n) => {
            out.push(INTEGER_FIRST_BYTE);
            crate::decimal::push_decimal_i64(out, *n);
            out.push(CR_BYTE);
            out.push(LF_BYTE);
            proof {
                assert(out@ =~= old(out)@ + wire_bytes(data@));
            }
        },
        Data::Null => {
            out.push(BULK_STRING_FIRST_BYTE);
            out.push(ERROR_FIRST_BYTE);
            out.push(49);
            out.push(CR_BYTE);
            out.push(LF_BYTE);
            proof {
                assert(out@ =~= old(out)@ + wire_bytes(data@));
            }
        },
        Data::NullArray => {
            out.push(ARRAY_FIRST_BYTE);
            out.push(ERROR_FIRST_BYTE);
            out.push(49);
            out.push(CR_BYTE);
            out.push(LF_BYTE);
            proof {
                assert(out@ =~= old(out)@ + wire_bytes(data@));
            }
        },
        Data::SimpleString(s) => {
            out.push(SIMPLE_STRING_FIRST_BYTE);
            let mut payload = s.as_str().as_bytes_vec();
            out.append(&mut payload);
            out.push(CR_BYTE);
            out.push(LF_BYTE);
            proof {
                assert(out@ =~= old(out)@ + wire_bytes(data@));
            }
        },
    }
}

/// Encode a value into the bytes that carry it on the wire.
pub fn encode(data: &Data) -> (r: Vec<u8>)
    ensures
        r@ == wire_bytes(data@),
{
    let mut out: Vec<u8> = Vec::new();
    encode_into(data, &mut out);
    proof {
        assert(out@ =~= wire_bytes(data@));
    }
    out
}

/// Encode a plain string as a bulk string, the form commands are sent in.
pub fn encode_string(content: String) -> (r: Vec<u8>)
    ensures
        r@ == wire_bytes(DataModel::BulkString(content@)),
{
    let data = Data::BulkString(content);
    encode(&data)
}

} // verus!
