//! The columns of a schema's manifest, in the order that makes its fingerprint independent
//! of the order of declaration.
use vstd::prelude::*;
use vstd::string::StringExecFns;
use crate::descriptor::error::DescriptorError;
use crate::descriptor::schema::{
    clickhouse_type_for, column_of, enum_column, enum_column_type, SchemaField, SchemaSpec,
};
use crate::text::{lemma_text_lt_total, lemma_text_lt_trans, text_less, text_lt};

verus! {

/// One column of a manifest.
#[derive(Debug)]
pub struct ManifestColumn {
    pub name: String,
    /// The column type.
    pub ch_type: String,
    pub key: bool,
    pub unique: bool,
    pub nullable: bool,
    pub tags: bool,
    pub ben_meta: bool,
    /// The place of the field that declares the column; none for the store's own column.
    pub field: Option<usize>,
}

/// Whether `c` is the store's own column: the key `tenant_id`, a `UUID`.
pub open spec fn store_column(c: &ManifestColumn) -> bool {
    &&& c.field is None
    &&& c.name@ == "tenant_id"@
    &&& c.ch_type@ == "UUID"@
    &&& c.key
    &&& !c.unique
    &&& !c.nullable
    &&& !c.tags
    &&& c.ben_meta
}

/// Whether `c` is the column of the field `f`, which stands at place `index`: it has the
/// field's name and flags, and the column type of the field's type.
pub open spec fn column_from(c: &ManifestColumn, f: &SchemaField, index: usize) -> bool {
    &&& c.field == Some(index)
    &&& c.name@ == f.name@
    &&& column_of(&f.ty) == Some(c.ch_type@)
    &&& c.key == f.key
    &&& c.unique == f.unique
    &&& c.nullable == f.nullable
    &&& c.tags == f.tags
    &&& c.ben_meta == f.ben_meta
}

/// Whether one of the columns behind the first is that of the field at place `k`.
pub open spec fn has_column(cols: Seq<ManifestColumn>, k: usize) -> bool {
    exists|p: int| 1 <= p < cols.len() && (#[trigger] cols[p]).field == Some(k)
}

/// Why the field at place `index` has no column in a manifest, if it has none: its
/// enumeration is backed by a type that is not known, or its type has no column type.
pub open spec fn manifest_fault(f: &SchemaField, index: usize) -> Option<DescriptorError> {
    if f.enum_type matches Some(et) && enum_column(et@) is None {
        Some(DescriptorError::UnknownEnumType { index })
    } else if column_of(&f.ty) is None {
        Some(DescriptorError::UnsupportedType { index })
    } else {
        None
    }
}

/// The fault of the first field, among the first `n`, that has one.
pub open spec fn manifest_faults(fields: Seq<SchemaField>, n: nat) -> Option<DescriptorError>
    decreases n,
{
    if n == 0 {
        None
    } else {
        match manifest_faults(fields, (n - 1) as nat) {
            Some(e) => Some(e),
            None => manifest_fault(&fields[n - 1], (n - 1) as usize),
        }
    }
}

/// Whether the column of field `x` stands before that of field `y`: by name, and by the
/// order of declaration where the names are the same.
pub open spec fn column_before(fields: Seq<SchemaField>, x: int, y: int) -> bool {
    text_lt(fields[x].name@, fields[y].name@) || (!text_lt(fields[y].name@, fields[x].name@) && x
        < y)
}

/// Whether `order` lists the places of the first `n` fields, each once, by their columns'
/// order.
pub open spec fn column_order(fields: Seq<SchemaField>, order: Seq<usize>, n: nat) -> bool {
    &&& order.len() == n
    &&& forall|p: int| 0 <= p < order.len() ==> (#[trigger] order[p]) < n
    &&& forall|k: usize| k < n ==> #[trigger] order.contains(k)
    &&& forall|p: int, q: int|
        0 <= p < q < order.len() ==> column_before(fields, order[p] as int, order[q] as int)
}

/// A column that stands before one that does not stand behind a third stands before the
/// third.
pub proof fn lemma_column_before(fields: Seq<SchemaField>, x: int, y: int, z: int)
    requires
        text_lt(fields[x].name@, fields[y].name@),
        column_before(fields, y, z),
    ensures
        text_lt(fields[x].name@, fields[z].name@),
{
    let (a, b, c) = (fields[x].name@, fields[y].name@, fields[z].name@);
    lemma_text_lt_total(b, c);
    if text_lt(b, c) {
        lemma_text_lt_trans(a, b, c);
    }
}

/// The places of the fields by their columns' order.
pub fn name_order(fields: &[SchemaField]) -> (order: Vec<usize>)
    ensures
        column_order(fields@, order@, fields@.len()),
{
    let mut order: Vec<usize> = Vec::new();
    let mut i: usize = 0;
    while i < fields.len()
        invariant
            i <= fields@.len(),
            column_order(fields@, order@, i as nat),
        decreases fields@.len() - i,
    {
        let mut p: usize = 0;
        while p < order.len() && !text_less(fields[i].name.as_str(), fields[order[p]].name.as_str())
            invariant
                p <= order@.len(),
                i < fields@.len(),
                column_order(fields@, order@, i as nat),
                forall|q: int|
                    0 <= q < p ==> !text_lt(
                        fields@[i as int].name@,
                        fields@[#[trigger] order@[q] as int].name@,
                    ),
            decreases order@.len() - p,
        {
            p = p + 1;
        }
        let ghost before = order@;
        order.insert(p, i);
        proof {
            let after = order@;
            assert forall|k: usize| k < i + 1 implies #[trigger] after.contains(k) by {
                if k < i {
                    assert(before.contains(k));
                    let w = choose|w: int| 0 <= w < before.len() && before[w] == k;
                    if w < p {
                        assert(after[w] == k);
                    } else {
                        assert(after[w + 1] == k);
                    }
                } else {
                    assert(after[p as int] == k);
                }
            }
            assert forall|a: int, b: int| 0 <= a < b < after.len() implies column_before(
                fields@,
                after[a] as int,
                after[b] as int,
            ) by {
                if b < p {
                    assert(after[a] == before[a] && after[b] == before[b]);
                } else if b == p {
                    assert(after[a] == before[a]);
                } else if a < p {
                    assert(after[a] == before[a] && after[b] == before[b - 1]);
                } else if a == p {
                    assert(after[b] == before[b - 1]);
                    if b - 1 > p {
                        lemma_column_before(fields@, i as int, before[p as int] as int, before[b - 1] as int);
                    }
                } else {
                    assert(after[a] == before[a - 1] && after[b] == before[b - 1]);
                }
            }
        }
        i = i + 1;
    }
    order
}

/// The column of the field at place `index`, or why it has none.
pub fn field_column(f: &SchemaField, index: usize) -> (r: Result<ManifestColumn, DescriptorError>)
    ensures
        match r {
            Ok(c) => manifest_fault(f, index) is None && column_from(&c, f, index),
            Err(e) => manifest_fault(f, index) == Some(e),
        },
{
    if let Some(et) = &f.enum_type {
        if enum_column_type(et.as_str()).is_none() {
            return Err(DescriptorError::UnknownEnumType { index });
        }
    }
    match clickhouse_type_for(&f.ty) {
        Some(ch_type) => Ok(
            ManifestColumn {
                name: f.name.clone(),
                ch_type,
                key: f.key,
                unique: f.unique,
                nullable: f.nullable,
                tags: f.tags,
                ben_meta: f.ben_meta,
                field: Some(index),
            },
        ),
        None => Err(DescriptorError::UnsupportedType { index }),
    }
}

/// The first fault among the fields, in the order of declaration, if there is one.
pub fn first_fault(fields: &[SchemaField]) -> (r: Option<DescriptorError>)
    ensures
        r == manifest_faults(fields@, fields@.len()),
{
    let mut i: usize = 0;
    while i < fields.len()
        invariant
            i <= fields@.len(),
            manifest_faults(fields@, i as nat) is None,
        decreases fields@.len() - i,
    {
        if let Err(e) = field_column(&fields[i], i) {
            proof {
                lemma_faults_end(fields@, (i + 1) as nat, fields@.len());
            }
            return Some(e);
        }
        i = i + 1;
    }
    None
}

/// Once a field has a fault, the fields behind it change nothing.
pub proof fn lemma_faults_end(fields: Seq<SchemaField>, k: nat, n: nat)
    requires
        k <= n,
        manifest_faults(fields, k) is Some,
    ensures
        manifest_faults(fields, n) == manifest_faults(fields, k),
    decreases n,
{
    if k < n {
        lemma_faults_end(fields, k, (n - 1) as nat);
    }
}

/// No fault among the first `n` fields means none at any of their places.
pub proof fn lemma_no_fault(fields: Seq<SchemaField>, n: nat, k: int)
    requires
        0 <= k < n,
        manifest_faults(fields, n) is None,
    ensures
        manifest_fault(&fields[k], k as usize) is None,
    decreases n,
{
    if k < n - 1 {
        lemma_no_fault(fields, (n - 1) as nat, k);
    }
}

/// The columns of a schema's manifest: the store's own column first, then the column of
/// each field, by name; columns of the same name stand in the order of declaration. The
/// first field, in the order of declaration, that has no column is refused.
pub fn manifest_columns(spec: &SchemaSpec) -> (r: Result<Vec<ManifestColumn>, DescriptorError>)
    ensures
        match r {
            Ok(cols) => {
                &&& manifest_faults(spec.fields@, spec.fields@.len()) is None
                &&& cols@.len() == spec.fields@.len() + 1
                &&& store_column(&cols@[0])
                &&& forall|p: int|
                    1 <= p < cols@.len() ==> ((#[trigger] cols@[p]).field matches Some(k) && k
                        < spec.fields@.len() && column_from(&cols@[p], &spec.fields@[k as int], k))
                &&& forall|k: usize| k < spec.fields@.len() ==> #[trigger] has_column(cols@, k)
                &&& forall|p: int, q: int|
                    1 <= p < q < cols@.len() ==> column_before(
                        spec.fields@,
                        (#[trigger] cols@[p]).field->0 as int,
                        (#[trigger] cols@[q]).field->0 as int,
                    )
            },
            Err(e) => manifest_faults(spec.fields@, spec.fields@.len()) == Some(e),
        },
{
    if let Some(e) = first_fault(spec.fields.as_slice()) {
        return Err(e);
    }
    let order = name_order(spec.fields.as_slice());
    let mut cols: Vec<ManifestColumn> = Vec::new();
    cols.push(
        ManifestColumn {
            name: String::from_str("tenant_id"),
            ch_type: String::from_str("UUID"),
            key: true,
            unique: false,
            nullable: false,
            tags: false,
            ben_meta: true,
            field: None,
        },
    );
    let mut p: usize = 0;
    while p < order.len()
        invariant
            p <= order@.len(),
            column_order(spec.fields@, order@, spec.fields@.len()),
            manifest_faults(spec.fields@, spec.fields@.len()) is None,
            cols@.len() == p + 1,
            store_column(&cols@[0]),
            forall|q: int|
                1 <= q < cols@.len() ==> (#[trigger] cols@[q]).field == Some(order@[q - 1])
                    && column_from(&cols@[q], &spec.fields@[order@[q - 1] as int], order@[q - 1]),
        decreases order@.len() - p,
    {
        let k: usize = order[p];
        proof {
            lemma_no_fault(spec.fields@, spec.fields@.len(), k as int);
        }
        match field_column(&spec.fields[k], k) {
            Ok(c) => {
                cols.push(c);
            },
            Err(e) => {
                return Err(e);
            },
        }
        p = p + 1;
    }
    proof {
        assert forall|k: usize| k < spec.fields@.len() implies #[trigger] has_column(
            cols@,
            k,
        ) by {
            assert(order@.contains(k));
            let w = choose|w: int| 0 <= w < order@.len() && order@[w] == k;
            assert(cols@[w + 1].field == Some(k));
        }
    }
    Ok(cols)
}

} // verus!
