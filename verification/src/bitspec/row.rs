//! Access to the fields of a row by name.
use vstd::prelude::*;
use crate::num::Float64;
use crate::text::str_eq;
use crate::wire::slot::SlotValue;

verus! {

/// The binary64 number in what a row gave for a field: that of a slot that holds one.
pub open spec fn number_in(slot: Option<SlotValue<'_>>) -> Option<Float64> {
    match slot {
        Some(SlotValue::F64(x)) => Some(x),
        _ => None,
    }
}

/// The unsigned integer in what a row gave for a field: that of a slot that holds one.
pub open spec fn unsigned_in(slot: Option<SlotValue<'_>>) -> Option<u64> {
    match slot {
        Some(SlotValue::U64(x)) => Some(x),
        _ => None,
    }
}

/// The signed integer in what a row gave for a field: that of a slot that holds one.
pub open spec fn signed_in(slot: Option<SlotValue<'_>>) -> Option<i64> {
    match slot {
        Some(SlotValue::I64(x)) => Some(x),
        _ => None,
    }
}

/// The string in what a row gave for a field: that of a slot that holds one.
pub open spec fn text_in(slot: Option<SlotValue<'_>>) -> Option<Seq<char>> {
    match slot {
        Some(SlotValue::Str(x)) => Some(x@),
        _ => None,
    }
}

/// The boolean in what a row gave for a field: that of a slot that holds one.
pub open spec fn flag_in(slot: Option<SlotValue<'_>>) -> Option<bool> {
    match slot {
        Some(SlotValue::Bool(x)) => Some(x),
        _ => None,
    }
}

/// A row that gives the slot of a field by the field's name.
///
/// A type of rows may say what its rows hold, by `slot_model`, and that its getters answer
/// from that, by `obeys_row_spec`. The engine then evaluates exactly what the row holds.
/// Of a type that does not say so, the engine evaluates whatever the getters answer. The
/// typed getters answer from `get_slot` unless a row replaces them.
pub trait RowAccess {
    /// Whether the getters of this type answer from `slot_model`.
    open spec fn obeys_row_spec() -> bool {
        false
    }

    /// The slot that the row holds for the named field, and `None` where it has no such
    /// field.
    open spec fn slot_model(&self, field: Seq<char>) -> Option<SlotValue<'_>> {
        None
    }

    /// The slot of the named field, or `None` where the row has no such field.
    fn get_slot(&self, field_id: &str) -> (r: Option<&SlotValue<'_>>)
        ensures
            Self::obeys_row_spec() ==> match r {
                Some(slot) => self.slot_model(field_id@) == Some(*slot),
                None => self.slot_model(field_id@) is None,
            },
    ;

    /// The binary64 number of the named field, where the field holds one.
    fn get_f64(&self, field_id: &str) -> (r: Option<Float64>)
        ensures
            Self::obeys_row_spec() ==> r == number_in(self.slot_model(field_id@)),
    {
        match self.get_slot(field_id) {
            Some(SlotValue::F64(x)) => Some(*x),
            _ => None,
        }
    }

    /// The unsigned integer of the named field, where the field holds one.
    fn get_u64(&self, field_id: &str) -> (r: Option<u64>)
        ensures
            Self::obeys_row_spec() ==> r == unsigned_in(self.slot_model(field_id@)),
    {
        match self.get_slot(field_id) {
            Some(SlotValue::U64(x)) => Some(*x),
            _ => None,
        }
    }

    /// The signed integer of the named field, where the field holds one.
    fn get_i64(&self, field_id: &str) -> (r: Option<i64>)
        ensures
            Self::obeys_row_spec() ==> r == signed_in(self.slot_model(field_id@)),
    {
        match self.get_slot(field_id) {
            Some(SlotValue::I64(x)) => Some(*x),
            _ => None,
        }
    }

    /// The string of the named field, where the field holds one.
    fn get_str(&self, field_id: &str) -> (r: Option<&str>)
        ensures
            Self::obeys_row_spec() ==> match (r, text_in(self.slot_model(field_id@))) {
                (Some(a), Some(b)) => a@ == b,
                (None, None) => true,
                _ => false,
            },
    {
        match self.get_slot(field_id) {
            Some(SlotValue::Str(x)) => Some(*x),
            _ => None,
        }
    }

    /// The boolean of the named field, where the field holds one.
    fn get_bool(&self, field_id: &str) -> (r: Option<bool>)
        ensures
            Self::obeys_row_spec() ==> r == flag_in(self.slot_model(field_id@)),
    {
        match self.get_slot(field_id) {
            Some(SlotValue::Bool(x)) => Some(*x),
            _ => None,
        }
    }
}

/// A decoded row with the names of its fields: slot `i` is the value of the field that name
/// `i` names. A name without a slot, or a slot without a name, is no field of the row.
#[derive(Debug)]
pub struct SlotRow<'a> {
    pub names: Vec<&'a str>,
    pub slots: Vec<SlotValue<'a>>,
}

impl<'a> SlotRow<'a> {
    /// Whether `i` is the first place that names the field and has a slot.
    pub open spec fn first_at(&self, field: Seq<char>, i: int) -> bool {
        &&& 0 <= i < self.names@.len()
        &&& i < self.slots@.len()
        &&& self.names@[i]@ == field
        &&& forall|j: int| 0 <= j < i ==> (#[trigger] self.names@[j])@ != field
    }

    /// The slot of the named field: that of the first place that names it.
    pub open spec fn slot_of(&self, field: Seq<char>) -> Option<SlotValue<'a>> {
        if exists|i: int| self.first_at(field, i) {
            Some(self.slots@[choose|i: int| self.first_at(field, i)])
        } else {
            None
        }
    }

    /// The binary64 number of the named field, where the field holds one.
    pub open spec fn number_of(&self, field: Seq<char>) -> Option<Float64> {
        number_in(self.slot_of(field))
    }

    /// The place of the named field, if the row has it.
    pub fn find(&self, field: &str) -> (r: Option<usize>)
        ensures
            match r {
                Some(i) => self.first_at(field@, i as int) && self.slot_of(field@) == Some(
                    self.slots@[i as int],
                ),
                None => self.slot_of(field@) is None,
            },
    {
        let mut i: usize = 0;
        while i < self.names.len() && i < self.slots.len()
            invariant
                i <= self.names@.len(),
                i <= self.slots@.len(),
                forall|j: int| 0 <= j < i ==> (#[trigger] self.names@[j])@ != field@,
            decreases self.names@.len() - i,
        {
            if str_eq(self.names[i], field) {
                proof {
                    assert(self.first_at(field@, i as int));
                    let c = choose|k: int| self.first_at(field@, k);
                    assert(self.first_at(field@, c));
                    assert(c == i);
                }
                return Some(i);
            }
            i = i + 1;
        }
        proof {
            assert forall|k: int| !self.first_at(field@, k) by {
                if self.first_at(field@, k) {
                    assert(self.names@[k]@ == field@);
                }
            }
        }
        None
    }
}

impl<'a> RowAccess for SlotRow<'a> {
    open spec fn obeys_row_spec() -> bool {
        true
    }

    open spec fn slot_model(&self, field: Seq<char>) -> Option<SlotValue<'_>> {
        self.slot_of(field)
    }

    fn get_slot(&self, field_id: &str) -> (r: Option<&SlotValue<'_>>) {
        match self.find(field_id) {
            Some(i) => Some(&self.slots[i]),
            None => None,
        }
    }
}

} // verus!
