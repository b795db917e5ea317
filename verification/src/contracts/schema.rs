//! Table definitions: what a schema installs in the columnar store.
use vstd::prelude::*;
use std::marker::PhantomData;

verus! {

/// One column of a table.
#[derive(Debug, Clone)]
pub struct ColumnDef {
    pub name: String,
    pub ch_type: String,
    pub nullable: bool,
    pub default: Option<String>,
}

/// One column, with its texts held by their characters.
pub struct ColumnModel {
    pub name: Seq<char>,
    pub ch_type: Seq<char>,
    pub nullable: bool,
    pub default: Option<Seq<char>>,
}

impl View for ColumnDef {
    type V = ColumnModel;

    open spec fn view(&self) -> ColumnModel {
        ColumnModel {
            name: self.name@,
            ch_type: self.ch_type@,
            nullable: self.nullable,
            default: match self.default {
                Some(d) => Some(d@),
                None => None,
            },
        }
    }
}

/// One table: its name, the statement that creates it, and its columns.
#[derive(Debug, Clone)]
pub struct TableDef {
    pub name: String,
    pub ddl: String,
    pub columns: Vec<ColumnDef>,
}

/// The tables of one or more schemas.
#[derive(Debug, Clone)]
pub struct SchemaManifest {
    pub tables: Vec<TableDef>,
}

/// The schemas of one agent.
#[derive(Debug, Clone)]
pub struct AgentSchema {
    pub agent_id: String,
    pub agent_descriptors: Vec<AgentSchemaDescriptor>,
}

/// The identity of one schema on the wire.
#[derive(Debug, Clone, Copy)]
pub struct AgentSchemaDescriptor {
    pub fingerprint: [u8; 32],
    pub evt_hash: [u8; 32],
    /// The number of fields of a row.
    pub field_count: u16,
}

/// A type that carries the constants of its schema.
pub trait BenSchema {
    const __BEN_SCHEMA_TABLE: &'static str;

    const __BEN_SCHEMA_VERSION: u32;

    const __BEN_SCHEMA_FINGERPRINT: &'static str;

    const __BEN_SCHEMA_DDL: &'static str;

    const __BEN_SCHEMA_JSON: &'static str;
}

/// A schema that can be installed.
pub trait BenInstallable {
    fn table(&self) -> String;

    fn version(&self) -> u32;

    fn fingerprint(&self) -> String;

    fn ddl(&self) -> String;

    fn json(&self) -> String;
}

/// The schema of the type `T`, as a value: it holds nothing and answers from the
/// constants of `T`.
#[derive(Debug)]
pub struct Schema<T>(pub PhantomData<T>);

impl<T> Default for Schema<T> {
    fn default() -> (s: Self)
        ensures
            s == Schema::<T>(PhantomData),
    {
        Schema(PhantomData)
    }
}

impl<T: BenSchema> BenInstallable for Schema<T> {
    fn table(&self) -> (r: String)
        ensures
            r@ == T::__BEN_SCHEMA_TABLE@,
    {
        T::__BEN_SCHEMA_TABLE.to_owned()
    }

    fn version(&self) -> (r: u32)
        ensures
            r == T::__BEN_SCHEMA_VERSION,
    {
        T::__BEN_SCHEMA_VERSION
    }

    fn fingerprint(&self) -> (r: String)
        ensures
            r@ == T::__BEN_SCHEMA_FINGERPRINT@,
    {
        T::__BEN_SCHEMA_FINGERPRINT.to_owned()
    }

    fn ddl(&self) -> (r: String)
        ensures
            r@ == T::__BEN_SCHEMA_DDL@,
    {
        T::__BEN_SCHEMA_DDL.to_owned()
    }

    fn json(&self) -> (r: String)
        ensures
            r@ == T::__BEN_SCHEMA_JSON@,
    {
        T::__BEN_SCHEMA_JSON.to_owned()
    }
}

/// The tables of the first `n` manifests, one manifest after the other.
pub open spec fn merged(list: Seq<SchemaManifest>, n: nat) -> Seq<TableDef>
    decreases n,
{
    if n == 0 {
        Seq::empty()
    } else {
        merged(list, (n - 1) as nat) + list[n - 1].tables@
    }
}

/// One manifest with the tables of all the given ones, in order.
pub fn merge_manifests(list: Vec<SchemaManifest>) -> (out: SchemaManifest)
    ensures
        out.tables@ == merged(list@, list@.len()),
{
    let ghost all = list@;
    let mut tables: Vec<TableDef> = Vec::new();
    for m in it: list
        invariant
            it.seq() == all,
            tables@ == merged(all, it.index() as nat),
    {
        let mut part = m.tables;
        tables.append(&mut part);
    }
    SchemaManifest { tables }
}

} // verus!
