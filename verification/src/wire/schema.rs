//! The description of an event type: its identity and its ordered fields.
use vstd::prelude::*;
use crate::text::str_eq;

verus! {

/// An event type and version with its ordered fields.
#[derive(Debug, Clone)]
pub struct Schema {
    pub event: String,
    pub version: u32,
    pub evt_hash: [u8; 32],
    pub fields: Vec<Field>,
}

/// One field of a schema.
#[derive(Debug, Clone)]
pub struct Field {
    pub name: String,
    pub ty: FieldType,
    pub nullable: bool,
}

/// The kind of value that a field holds.
#[derive(Debug, Clone)]
pub enum FieldType {
    UInt64,
    Int64,
    Float64,
    Bool,
    String,
    IPv4,
    IPv6,
    DateTime64 { scale: u32 },
    Uuid,
    Str,
}

impl Schema {
    /// The names of the fields, in order.
    pub open spec fn names(&self) -> Seq<Seq<char>> {
        self.fields@.map_values(|f: Field| f.name@)
    }

    /// The names of the fields, in order.
    pub fn field_names(&self) -> (names: Vec<&str>)
        ensures
            names@.map_values(|s: &str| s@) == self.names(),
    {
        let mut names: Vec<&str> = Vec::new();
        let mut i: usize = 0;
        while i < self.fields.len()
            invariant
                i <= self.fields@.len(),
                names@.len() == i,
                forall|j: int| 0 <= j < i ==> (#[trigger] names@[j])@ == self.fields@[j].name@,
            decreases self.fields@.len() - i,
        {
            names.push(self.fields[i].name.as_str());
            i = i + 1;
        }
        proof {
            assert(names@.map_values(|s: &str| s@) =~= self.names());
        }
        names
    }

    /// The number of fields.
    pub fn fields_len(&self) -> (n: usize)
        ensures
            n == self.fields@.len(),
    {
        self.fields.len()
    }

    /// The place of the first field of the given name, if there is one.
    pub fn index_of(&self, name: &str) -> (r: Option<usize>)
        ensures
            match r {
                Some(i) => i < self.names().len() && self.names()[i as int] == name@
                    && forall|j: int| 0 <= j < i ==> self.names()[j] != name@,
                None => !self.names().contains(name@),
            },
    {
        let mut i: usize = 0;
        while i < self.fields.len()
            invariant
                i <= self.fields@.len(),
                forall|j: int| 0 <= j < i ==> self.names()[j] != name@,
            decreases self.fields@.len() - i,
        {
            if str_eq(self.fields[i].name.as_str(), name) {
                return Some(i);
            }
            i = i + 1;
        }
        None
    }
}

} // verus!
