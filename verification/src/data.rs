//! The wire-level value type of the RESP protocol.

use vstd::prelude::*;

verus! {

/// Mathematical model of a RESP value: the view of [`Data`].
///
/// Strings are modelled as their character sequences and arrays as
/// sequences of nested values.
pub enum DataModel {
    Array(Seq<DataModel>),
    BulkString(Seq<char>),
    Error(Seq<char>),
    Integer(int),
    Null,
    NullArray,
    SimpleString(Seq<char>),
}

/// A RESP value: the only recursive shape on the wire is `Array`.
#[derive(Debug)]
pub enum Data {
    Array(Vec<Data>),
    BulkString(String),
    Error(String),
    Integer(i64),
    Null,
    NullArray,
    SimpleString(String),
}

/// The views of a sequence of values, element by element.
pub open spec fn seq_view(items: Seq<Data>) -> Seq<DataModel>
    decreases items,
{
    Seq::new(
        items.len(),
        |i: int|
            if 0 <= i < items.len() {
                items[i]@
            } else {
                DataModel::Null
            },
    )
}

pub broadcast proof fn lemma_seq_view_len(items: Seq<Data>)
    ensures
        #[trigger] seq_view(items).len() == items.len(),
{
}

pub broadcast proof fn lemma_seq_view_index(items: Seq<Data>, i: int)
    requires
        0 <= i < items.len(),
    ensures
        #[trigger] seq_view(items)[i] == items[i]@,
{
}

impl View for Data {
    type V = DataModel;

    open spec fn view(&self) -> DataModel
        decreases self,
    {
        match self {
            Data::Array(items) => DataModel::Array(seq_view(items@)),
            Data::BulkString(s) => DataModel::BulkString(s@),
            Data::Error(s) => DataModel::Error(s@),
            Data::Integer(n) => DataModel::Integer(*n as int),
            Data::Null => DataModel::Null,
            Data::NullArray => DataModel::NullArray,
            Data::SimpleString(s) => DataModel::SimpleString(s@),
        }
    }
}

/// Structural equality of two values, shown to coincide with equality
/// of their views.
fn data_eq(a: &Data, b: &Data) -> (r: bool)
    ensures
        r == (a@ == b@),
    decreases a,
{
    broadcast use lemma_seq_view_len, lemma_seq_view_index;

    match (a, b) {
        (Data::Array(xs), Data::Array(ys)) => {
            proof {
                assert(a@ == DataModel::Array(seq_view(xs@)));
                assert(b@ == DataModel::Array(seq_view(ys@)));
                assert(seq_view(xs@).len() == xs@.len());
                assert(seq_view(ys@).len() == ys@.len());
            }
            if xs.len() != ys.len() {
                return false;
            }
            let n = xs.len();
            for i in 0..n
                invariant
                    n == xs@.len(),
                    n == ys@.len(),
                    *a == Data::Array(*xs),
                    *b == Data::Array(*ys),
                    a@ == DataModel::Array(seq_view(xs@)),
                    b@ == DataModel::Array(seq_view(ys@)),
                    forall|j: int| 0 <= j < i ==> xs@[j]@ == ys@[j]@,
            {
                proof {
                    assert(*a == Data::Array(*xs));
                    assert(decreases_to!(*a => *xs));
                    assert(decreases_to!(*xs => xs@));
                    assert(decreases_to!(xs@ => xs@[i as int]));
                }
                if !data_eq(&xs[i], &ys[i]) {
                    proof {
                        broadcast use lemma_seq_view_len, lemma_seq_view_index;

                        assert(seq_view(xs@)[i as int] != seq_view(ys@)[i as int]);
                    }
                    return false;
                }
            }
            proof {
                assert(seq_view(xs@) =~= seq_view(ys@));
            }
            true
        },
        (Data::BulkString(x), Data::BulkString(y)) => {
            proof {
                assert(a@ == DataModel::BulkString(x@));
                assert(b@ == DataModel::BulkString(y@));
            }
            x.eq(y)
        },
        (Data::Error(x), Data::Error(y)) => {
            proof {
                assert(a@ == DataModel::Error(x@));
                assert(b@ == DataModel::Error(y@));
            }
            x.eq(y)
        },
        (Data::Integer(x), Data::Integer(y)) => {
            proof {
                assert(a@ == DataModel::Integer(*x as int));
                assert(b@ == DataModel::Integer(*y as int));
            }
            *x == *y
        },
        (Data::Null, Data::Null) => true,
        (Data::NullArray, Data::NullArray) => true,
        (Data::SimpleString(x), Data::SimpleString(y)) => {
            proof {
                assert(a@ == DataModel::SimpleString(x@));
                assert(b@ == DataModel::SimpleString(y@));
            }
            x.eq(y)
        },
        _ => false,
    }
}

impl PartialEq for Data {
    fn eq(&self, other: &Data) -> bool {
        data_eq(self, other)
    }
}

impl vstd::std_specs::cmp::PartialEqSpecImpl for Data {
    open spec fn obeys_eq_spec() -> bool {
        true
    }

    open spec fn eq_spec(&self, other: &Data) -> bool {
        self@ == other@
    }
}

} // verus!
