use vstd::prelude::*;

verus! {

/// The two resource kinds served by the API.  They share one record shape
/// but live in separate schemas with separate identifier spaces.
#[derive(Clone, Copy, PartialEq, Eq, Structural, Debug)]
pub enum Kind {
    Coffee,
    Beer,
}

/// One drink record as the store keeps it: a brand name, a size, and a
/// brew timestamp carried as an opaque string.
pub struct Record {
    pub brand: String,
    pub size: u32,
    pub time: String,
}

/// The mathematical value of a [`Record`]: its fields as sequences of
/// characters and a plain integer.
#[verifier::ext_equal]
pub struct RecordModel {
    pub brand: Seq<char>,
    pub size: u32,
    pub time: Seq<char>,
}

impl View for Record {
    type V = RecordModel;

    open spec fn view(&self) -> RecordModel {
        RecordModel { brand: self.brand@, size: self.size, time: self.time@ }
    }
}

impl Record {
    /// A copy of the record with the same field values.
    pub fn duplicate(&self) -> (out: Record)
        ensures
            out@ == self@,
    {
        Record { brand: self.brand.clone(), size: self.size, time: self.time.clone() }
    }
}

} // verus!
