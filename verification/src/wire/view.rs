//! Reading a decoded row as a typed view, after the schema has been reconciled with the type.
use vstd::prelude::*;
use crate::text::str_eq;
use crate::wire::envelope::hash_eq;
use crate::wire::error::ViewError;
use crate::wire::schema::Schema;
use crate::wire::slot::SlotValue;

verus! {

/// A type that can be built from a decoded row.
pub trait BenView: Sized {
    /// The event hash of the type.
    const EVT_HASH: [u8; 32];

    /// The names of the fields of the type, in order.
    const FIELD_NAMES: &'static [&'static str];

    /// The number of fields of the type.
    const FIELD_COUNT: usize;

    /// Whether `from_row` does what `row_error` and `reads_as` say. An implementation that
    /// defines the two answers `true` here.
    open spec fn obeys_view_spec() -> bool {
        false
    }

    /// The error with which reading `row` under `schema` ends, where it fails.
    open spec fn row_error(schema: &Schema, row: Seq<SlotValue<'_>>) -> Option<ViewError> {
        None
    }

    /// Whether `v` is the value that `row` holds under `schema`.
    open spec fn reads_as(schema: &Schema, row: Seq<SlotValue<'_>>, v: &Self) -> bool {
        true
    }

    /// Builds the value from a row whose schema has been reconciled with the type.
    fn from_row(schema: &Schema, row: &[SlotValue]) -> (r: Result<Self, ViewError>)
        ensures
            Self::obeys_view_spec() ==> match r {
                Ok(v) => Self::row_error(schema, row@) is None && Self::reads_as(schema, row@, &v),
                Err(e) => Self::row_error(schema, row@) == Some(e),
            },
    ;
}

/// What keeps a row of `row_len` slots under `schema` from being read as a type with the
/// given event hash and field count. The hash is compared first, then the schema's field
/// count, then the row's length.
pub open spec fn reconcile_error(
    schema: &Schema,
    row_len: usize,
    evt_hash: [u8; 32],
    field_count: usize,
) -> Option<ViewError> {
    if schema.evt_hash@ != evt_hash@ {
        Some(ViewError::EvtHashMismatch { expected: evt_hash, got: schema.evt_hash })
    } else if schema.fields@.len() != field_count {
        Some(
            ViewError::FieldCountMismatch {
                expected: field_count,
                got: schema.fields@.len() as usize,
            },
        )
    } else if row_len != field_count {
        Some(ViewError::FieldCountMismatch { expected: field_count, got: row_len })
    } else {
        None
    }
}

/// Reconciles a schema and a row length with the event hash and field count of a type.
pub fn reconcile(schema: &Schema, row_len: usize, evt_hash: &[u8; 32], field_count: usize) -> (r:
    Result<(), ViewError>)
    ensures
        match r {
            Ok(()) => reconcile_error(schema, row_len, *evt_hash, field_count) is None,
            Err(e) => reconcile_error(schema, row_len, *evt_hash, field_count) == Some(e),
        },
{
    if !hash_eq(&schema.evt_hash, evt_hash) {
        return Err(ViewError::EvtHashMismatch { expected: *evt_hash, got: schema.evt_hash });
    }
    if schema.fields_len() != field_count {
        return Err(
            ViewError::FieldCountMismatch { expected: field_count, got: schema.fields_len() },
        );
    }
    if row_len != field_count {
        return Err(ViewError::FieldCountMismatch { expected: field_count, got: row_len });
    }
    Ok(())
}

/// Whether place `i` exists in both lists and holds two different names.
pub open spec fn name_differs(schema: &Schema, names: Seq<&'static str>, i: int) -> bool {
    0 <= i < schema.fields@.len() && i < names.len() && schema.fields@[i].name@ != names[i]@
}

/// Compares the schema's field names with those of a type, place by place, and reports the
/// first place where they differ.
pub fn check_field_names(schema: &Schema, names: &[&'static str]) -> (r: Result<(), ViewError>)
    ensures
        match r {
            Ok(()) => forall|i: int| !name_differs(schema, names@, i),
            Err(e) => e matches ViewError::FieldNameMismatch { index, expected, got }
                && name_differs(schema, names@, index as int)
                && (forall|j: int| 0 <= j < index ==> !name_differs(schema, names@, j))
                && expected@ == names@[index as int]@
                && got@ == schema.fields@[index as int].name@,
        },
{
    let mut i: usize = 0;
    while i < schema.fields.len() && i < names.len()
        invariant
            forall|j: int| 0 <= j < i ==> !name_differs(schema, names@, j),
        decreases schema.fields@.len() - i,
    {
        if !str_eq(schema.fields[i].name.as_str(), names[i]) {
            return Err(
                ViewError::FieldNameMismatch {
                    index: i,
                    expected: names[i],
                    got: schema.fields[i].name.clone(),
                },
            );
        }
        i = i + 1;
    }
    Ok(())
}

/// Reads a row as a `T`. The schema's event hash and field count and the row's length are
/// reconciled with `T` first; where they do not agree, that error is returned and `T` is
/// not asked to read the row. The places of the fields decide, not their names: a schema
/// that names a field otherwise than `T` does is read all the same. `view_strict` compares
/// the names too.
pub fn view<T: BenView>(schema: &Schema, row: &[SlotValue]) -> (r: Result<T, ViewError>)
    ensures
        reconcile_error(schema, row@.len() as usize, T::EVT_HASH, T::FIELD_COUNT) matches Some(e)
            ==> r == Err::<T, ViewError>(e),
        T::obeys_view_spec() && reconcile_error(
            schema,
            row@.len() as usize,
            T::EVT_HASH,
            T::FIELD_COUNT,
        ) is None ==> match r {
            Ok(v) => T::row_error(schema, row@) is None && T::reads_as(schema, row@, &v),
            Err(e) => T::row_error(schema, row@) == Some(e),
        },
{
    let hash: [u8; 32] = T::EVT_HASH;
    match reconcile(schema, row.len(), &hash, T::FIELD_COUNT) {
        Ok(()) => T::from_row(schema, row),
        Err(e) => Err(e),
    }
}

/// Reads a row as a `T`, as `view` does, and compares the field names too: once hash and
/// counts agree, the first place where the schema's name differs from the name that `T`
/// has there is reported, and `T` is not asked to read the row.
pub fn view_strict<T: BenView>(schema: &Schema, row: &[SlotValue]) -> (r: Result<T, ViewError>)
    ensures
        reconcile_error(schema, row@.len() as usize, T::EVT_HASH, T::FIELD_COUNT) matches Some(e)
            ==> r == Err::<T, ViewError>(e),
        reconcile_error(schema, row@.len() as usize, T::EVT_HASH, T::FIELD_COUNT) is None && (
        exists|i: int| name_differs(schema, T::FIELD_NAMES@, i)) ==> (r matches Err(
            ViewError::FieldNameMismatch { index, expected, got },
        ) && name_differs(schema, T::FIELD_NAMES@, index as int) && (forall|j: int|
            0 <= j < index ==> !name_differs(schema, T::FIELD_NAMES@, j)) && expected@
            == T::FIELD_NAMES@[index as int]@ && got@ == schema.fields@[index as int].name@),
        T::obeys_view_spec() && reconcile_error(
            schema,
            row@.len() as usize,
            T::EVT_HASH,
            T::FIELD_COUNT,
        ) is None && (forall|i: int| !name_differs(schema, T::FIELD_NAMES@, i)) ==> match r {
            Ok(v) => T::row_error(schema, row@) is None && T::reads_as(schema, row@, &v),
            Err(e) => T::row_error(schema, row@) == Some(e),
        },
{
    let hash: [u8; 32] = T::EVT_HASH;
    if let Err(e) = reconcile(schema, row.len(), &hash, T::FIELD_COUNT) {
        return Err(e);
    }
    if let Err(e) = check_field_names(schema, T::FIELD_NAMES) {
        return Err(e);
    }
    T::from_row(schema, row)
}

} // verus!
