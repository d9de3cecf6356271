use vstd::prelude::*;

verus! {

/// The type of a question or of a record.
#[derive(PartialEq, Eq, Debug, Clone, Hash, Copy, Structural)]
#[allow(dead_code)]
pub enum QueryType {
    /// A type that the codec carries by its number only.
    UNKNOWN(u16),
    /// A host address.
    A,
}

impl QueryType {
    /// The type that `val` stands for on the wire.
    pub open spec fn of_u16(val: u16) -> QueryType {
        if val == 1 {
            QueryType::A
        } else {
            QueryType::UNKNOWN(val)
        }
    }

    /// The number that stands for the type on the wire.
    pub open spec fn number(self) -> u16 {
        match self {
            QueryType::A => 1,
            QueryType::UNKNOWN(val) => val,
        }
    }

    /// A type is canonical when it is the one that its own number is read
    /// as: every type but `UNKNOWN(1)`.
    pub open spec fn is_canonical(self) -> bool {
        self != QueryType::UNKNOWN(1)
    }

    /// Numbers survive the way through a type, and canonical types the way
    /// through a number.
    pub proof fn lemma_round_trip(self, val: u16)
        ensures
            QueryType::of_u16(val).number() == val,
            QueryType::of_u16(val).is_canonical(),
            self.is_canonical() <==> QueryType::of_u16(self.number()) == self,
    {
    }

    /// Reads a type from its number.
    pub fn from_u16(val: u16) -> (query_type: QueryType)
        ensures
            query_type == QueryType::of_u16(val),
    {
        match val {
            1 => QueryType::A,
            _ => QueryType::UNKNOWN(val),
        }
    }

    /// The number of the type.
    pub fn to_u16(&self) -> (val: u16)
        ensures
            val == self.number(),
    {
        match *self {
            QueryType::A => 1,
            QueryType::UNKNOWN(val) => val,
        }
    }
}

} // verus!
