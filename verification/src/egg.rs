//! The stored record: a key, a value, and when it was laid.

use vstd::prelude::*;
use vstd::string::StringExecFns;

verus! {

#[verifier::external_type_specification]
#[verifier::external_body]
pub struct ExNaiveDateTime(chrono::NaiveDateTime);

/// Relies on chrono's derived clone of a timestamp; nothing is claimed
/// of the copy, which only metadata holds.
pub assume_specification[ <chrono::NaiveDateTime as Clone>::clone ](
    d: &chrono::NaiveDateTime,
) -> chrono::NaiveDateTime;

/// Relies on chrono's conversion from the system clock for the
/// instant a record is created at: a clock before the epoch converts
/// to a negative timestamp instead of aborting.
#[verifier::external_body]
fn now_utc() -> chrono::NaiveDateTime {
    let now: chrono::DateTime<chrono::Utc> = std::time::SystemTime::now().into();
    now.naive_utc()
}

/// Relies on chrono's text form of a timestamp; which characters it
/// prints is not modelled.
#[verifier::external_body]
fn timestamp_text(t: &chrono::NaiveDateTime) -> (r: String) {
    format!("{}", t)
}

/// What a record says: its key and value text. The creation instant is
/// metadata and takes no part in the record's meaning.
pub struct EggModel {
    pub key: Seq<char>,
    pub value: Seq<char>,
}

/// One stored entry: a key, a value, and a creation timestamp.
/// Immutable once created; an overwrite replaces it wholesale.
#[derive(Debug, Clone)]
pub struct Egg {
    key: String,
    value: String,
    created_at: chrono::NaiveDateTime,
}

impl View for Egg {
    type V = EggModel;

    closed spec fn view(&self) -> EggModel {
        EggModel { key: self.key@, value: self.value@ }
    }
}

impl Egg {
    /// Build a new record from a key and a value, stamped with the
    /// current time.
    pub fn new(key: &str, value: &str) -> (r: Egg)
        ensures
            r@.key == key@,
            r@.value == value@,
    {
        let created_at = now_utc();
        Egg { key: key.to_owned(), value: value.to_owned(), created_at }
    }

    /// The record's key.
    pub fn key(&self) -> (r: &String)
        ensures
            r@ == self@.key,
    {
        &self.key
    }

    /// The record's value.
    pub fn value(&self) -> (r: &String)
        ensures
            r@ == self@.value,
    {
        &self.value
    }

    /// When the record was created. Nothing is promised of the clock.
    pub fn created_at(&self) -> &chrono::NaiveDateTime {
        &self.created_at
    }

    /// The record as text: its key, its value, and some text for the
    /// creation instant, whose characters are the clock's business.
    pub fn to_string(&self) -> (r: String)
        ensures
            exists|t: Seq<char>|
                r@ == "{ key="@ + self@.key + ", value="@ + self@.value + ", created_at="@ + t
                    + " }"@,
    {
        let ts = timestamp_text(&self.created_at);
        let r = String::from_str("{ key=").concat(self.key.as_str()).concat(", value=").concat(
            self.value.as_str(),
        ).concat(", created_at=").concat(ts.as_str()).concat(" }");
        proof {
            assert(r@ =~= "{ key="@ + self@.key + ", value="@ + self@.value + ", created_at="@
                + ts@ + " }"@);
        }
        r
    }
}

impl PartialEq for Egg {
    /// Two records are the same entry when key and value agree; the
    /// creation instant does not count.
    fn eq(&self, other: &Egg) -> bool {
        self.key.eq(&other.key) && self.value.eq(&other.value)
    }
}

impl vstd::std_specs::cmp::PartialEqSpecImpl for Egg {
    open spec fn obeys_eq_spec() -> bool {
        true
    }

    open spec fn eq_spec(&self, other: &Egg) -> bool {
        self@ == other@
    }
}

} // verus!
