//! Table schemas from the declaration of a type: the column types, the statement that
//! creates the table, and the identity that frames carry.
use vstd::prelude::*;
use vstd::string::{StringExecFns, StringSliceAdditionalSpecFns};
use vstd::utf8::encode_utf8;
use heck::ToSnakeCase;
use crate::contracts::enum_info::EnumInfo;
use crate::contracts::schema::{ColumnDef, ColumnModel, SchemaManifest, TableDef};
use crate::wire::event::{EventSchema, FieldDescriptor};
use crate::wire::value::{FieldKind, FieldKindModel, ScalarKind, ScalarKindModel, Width};
use crate::descriptor::error::DescriptorError;
use crate::digest::{evt_hash, fingerprint, fingerprint_of, sha256};
use crate::text::{chars_of, join, joined, split, split_ranges, str_eq, texts, trim_range, trimmed};

verus! {

/// The type of a field as it was written.
#[derive(Debug)]
pub enum TypeExpr {
    /// A named type: the last name of its path, and its type arguments.
    Path { ident: String, args: Vec<TypeExpr> },
    /// An array of a fixed length.
    Array { elem: Box<TypeExpr>, len: usize },
    /// Anything else.
    Other,
}

/// One field of a declared schema.
#[derive(Debug)]
pub struct SchemaField {
    pub name: String,
    pub ty: TypeExpr,
    pub key: bool,
    pub unique: bool,
    pub tags: bool,
    pub ben_meta: bool,
    pub nullable: bool,
    /// The type that backs the field's enumeration, where it has one.
    pub enum_type: Option<String>,
    pub cardinality: Option<String>,
    pub default: Option<String>,
    pub ttl: Option<String>,
}

/// A declared schema.
#[derive(Debug)]
pub struct SchemaSpec {
    pub table: String,
    pub version: u32,
    pub order_by: Option<String>,
    pub partition_by: Option<String>,
    pub engine: Option<String>,
    pub compression: Option<String>,
    pub description: Option<String>,
    pub store: Option<bool>,
    pub fields: Vec<SchemaField>,
}

/// The snake-case form of a text.
pub uninterp spec fn snake_case(s: Seq<char>) -> Seq<char>;

/// The snake-case form of `s`, as `ToSnakeCase::to_snake_case` of the `heck` crate gives
/// it: a text that depends on the characters of `s` alone.
#[verifier::external_body]
fn to_snake_case(s: &str) -> (r: String)
    ensures
        r@ == snake_case(s@),
{
    s.to_snake_case()
}

/// The type behind `Option`, where the type is an `Option` of something.
pub open spec fn option_inner(ty: &TypeExpr) -> Option<TypeExpr> {
    match ty {
        TypeExpr::Path { ident, args } => if ident@ == "Option"@ && args@.len() >= 1 {
            Some(args@[0])
        } else {
            None
        },
        _ => None,
    }
}

/// The type of the items, where the type is a `Vec` of something.
pub open spec fn vec_inner(ty: &TypeExpr) -> Option<TypeExpr> {
    match ty {
        TypeExpr::Path { ident, args } => if ident@ == "Vec"@ && args@.len() >= 1 {
            Some(args@[0])
        } else {
            None
        },
        _ => None,
    }
}

/// The types of the keys and of the values, where the type is a `HashMap`.
pub open spec fn hashmap_inner(ty: &TypeExpr) -> Option<(TypeExpr, TypeExpr)> {
    match ty {
        TypeExpr::Path { ident, args } => if ident@ == "HashMap"@ && args@.len() >= 2 {
            Some((args@[0], args@[1]))
        } else {
            None
        },
        _ => None,
    }
}

/// Whether a name is that of a primitive type.
pub open spec fn primitive_name(n: Seq<char>) -> bool {
    n == "u8"@ || n == "u16"@ || n == "u32"@ || n == "u64"@ || n == "i8"@ || n == "i16"@ || n
        == "i32"@ || n == "i64"@ || n == "f32"@ || n == "f64"@ || n == "bool"@ || n == "String"@
        || n == "&str"@
}

/// Whether the type is a primitive one.
pub open spec fn primitive(ty: &TypeExpr) -> bool {
    ty matches TypeExpr::Path { ident, args } && primitive_name(ident@)
}

/// Whether the type is taken for an enumeration: a named type that is neither an
/// `Option`, a `Vec` or a `HashMap` of something, nor primitive.
pub open spec fn ben_enum(ty: &TypeExpr) -> bool {
    option_inner(ty) is None && vec_inner(ty) is None && hashmap_inner(ty) is None && !primitive(
        ty,
    ) && ty is Path
}

/// Whether the type is a `HashMap` from `String` to `String`.
pub open spec fn string_map(ty: &TypeExpr) -> bool {
    hashmap_inner(ty) matches Some((k, v)) && (k matches TypeExpr::Path { ident, args }
        && ident@ == "String"@) && (v matches TypeExpr::Path { ident, args } && ident@
        == "String"@)
}

/// The type behind `Option`, where the type is an `Option` of something.
pub fn option_inner_ty(ty: &TypeExpr) -> (r: Option<&TypeExpr>)
    ensures
        match r {
            Some(inner) => option_inner(ty) == Some(*inner),
            None => option_inner(ty) is None,
        },
{
    match ty {
        TypeExpr::Path { ident, args } => {
            if str_eq(ident.as_str(), "Option") && args.len() >= 1 {
                Some(&args[0])
            } else {
                None
            }
        },
        _ => None,
    }
}

/// The type of the items, where the type is a `Vec` of something.
pub fn vec_inner_ty(ty: &TypeExpr) -> (r: Option<&TypeExpr>)
    ensures
        match r {
            Some(inner) => vec_inner(ty) == Some(*inner),
            None => vec_inner(ty) is None,
        },
{
    match ty {
        TypeExpr::Path { ident, args } => {
            if str_eq(ident.as_str(), "Vec") && args.len() >= 1 {
                Some(&args[0])
            } else {
                None
            }
        },
        _ => None,
    }
}

/// The types of the keys and of the values, where the type is a `HashMap`.
pub fn hashmap_key_value(ty: &TypeExpr) -> (r: Option<(&TypeExpr, &TypeExpr)>)
    ensures
        match r {
            Some((k, v)) => hashmap_inner(ty) == Some((*k, *v)),
            None => hashmap_inner(ty) is None,
        },
{
    match ty {
        TypeExpr::Path { ident, args } => {
            if str_eq(ident.as_str(), "HashMap") && args.len() >= 2 {
                Some((&args[0], &args[1]))
            } else {
                None
            }
        },
        _ => None,
    }
}

/// Whether a name is that of a primitive type.
fn is_primitive_name(n: &str) -> (r: bool)
    ensures
        r == primitive_name(n@),
{
    str_eq(n, "u8") || str_eq(n, "u16") || str_eq(n, "u32") || str_eq(n, "u64") || str_eq(n, "i8")
        || str_eq(n, "i16") || str_eq(n, "i32") || str_eq(n, "i64") || str_eq(n, "f32") || str_eq(
        n,
        "f64",
    ) || str_eq(n, "bool") || str_eq(n, "String") || str_eq(n, "&str")
}

/// Whether the type is a primitive one.
pub fn is_primitive(ty: &TypeExpr) -> (r: bool)
    ensures
        r == primitive(ty),
{
    match ty {
        TypeExpr::Path { ident, args } => is_primitive_name(ident.as_str()),
        _ => false,
    }
}

/// Whether the type is taken for an enumeration.
pub fn is_ben_enum(ty: &TypeExpr) -> (r: bool)
    ensures
        r == ben_enum(ty),
{
    match ty {
        TypeExpr::Path { ident, args } => !option_inner_ty(ty).is_some() && !vec_inner_ty(
            ty,
        ).is_some() && !hashmap_key_value(ty).is_some() && !is_primitive(ty),
        _ => false,
    }
}

/// Whether the type is a `HashMap` from `String` to `String`.
pub fn is_string_map(ty: &TypeExpr) -> (r: bool)
    ensures
        r == string_map(ty),
{
    match hashmap_key_value(ty) {
        Some((k, v)) => {
            let key_ok = match k {
                TypeExpr::Path { ident, args } => str_eq(ident.as_str(), "String"),
                _ => false,
            };
            let val_ok = match v {
                TypeExpr::Path { ident, args } => str_eq(ident.as_str(), "String"),
                _ => false,
            };
            key_ok && val_ok
        },
        None => false,
    }
}

/// The column type of a primitive type.
pub open spec fn primitive_column(n: Seq<char>) -> Option<Seq<char>> {
    if n == "u8"@ {
        Some("UInt8"@)
    } else if n == "u16"@ {
        Some("UInt16"@)
    } else if n == "u32"@ {
        Some("UInt32"@)
    } else if n == "u64"@ {
        Some("UInt64"@)
    } else if n == "i8"@ {
        Some("Int8"@)
    } else if n == "i16"@ {
        Some("Int16"@)
    } else if n == "i32"@ {
        Some("Int32"@)
    } else if n == "i64"@ {
        Some("Int64"@)
    } else if n == "f32"@ {
        Some("Float32"@)
    } else if n == "f64"@ {
        Some("Float64"@)
    } else if n == "bool"@ {
        Some("Bool"@)
    } else if n == "String"@ {
        Some("String"@)
    } else {
        None
    }
}

/// The column type of a field's type: `Nullable(..)` of an option, `Array(..)` of a
/// vector, `Map(.., ..)` of a map, `Int16` of an enumeration, and the column type of a
/// primitive type. Other types have none.
pub open spec fn column_of(ty: &TypeExpr) -> Option<Seq<char>>
    decreases ty,
{
    match ty {
        TypeExpr::Path { ident, args } => {
            if ident@ == "Option"@ && args@.len() >= 1 {
                match column_of(&args@[0]) {
                    Some(t) => Some("Nullable("@ + t + ")"@),
                    None => None,
                }
            } else if ident@ == "Vec"@ && args@.len() >= 1 {
                match column_of(&args@[0]) {
                    Some(t) => Some("Array("@ + t + ")"@),
                    None => None,
                }
            } else if ident@ == "HashMap"@ && args@.len() >= 2 {
                match (column_of(&args@[0]), column_of(&args@[1])) {
                    (Some(k), Some(v)) => Some("Map("@ + k + ", "@ + v + ")"@),
                    _ => None,
                }
            } else if !primitive_name(ident@) {
                Some("Int16"@)
            } else {
                primitive_column(ident@)
            }
        },
        _ => None,
    }
}

/// Whether a string holds the text that the model gives, or both hold none.
pub open spec fn same_opt(r: Option<String>, m: Option<Seq<char>>) -> bool {
    match (r, m) {
        (Some(a), Some(b)) => a@ == b,
        (None, None) => true,
        _ => false,
    }
}

/// The column type of a primitive type.
fn primitive_column_type(n: &str) -> (r: Option<String>)
    ensures
        same_opt(r, primitive_column(n@)),
{
    if str_eq(n, "u8") {
        Some(String::from_str("UInt8"))
    } else if str_eq(n, "u16") {
        Some(String::from_str("UInt16"))
    } else if str_eq(n, "u32") {
        Some(String::from_str("UInt32"))
    } else if str_eq(n, "u64") {
        Some(String::from_str("UInt64"))
    } else if str_eq(n, "i8") {
        Some(String::from_str("Int8"))
    } else if str_eq(n, "i16") {
        Some(String::from_str("Int16"))
    } else if str_eq(n, "i32") {
        Some(String::from_str("Int32"))
    } else if str_eq(n, "i64") {
        Some(String::from_str("Int64"))
    } else if str_eq(n, "f32") {
        Some(String::from_str("Float32"))
    } else if str_eq(n, "f64") {
        Some(String::from_str("Float64"))
    } else if str_eq(n, "bool") {
        Some(String::from_str("Bool"))
    } else if str_eq(n, "String") {
        Some(String::from_str("String"))
    } else {
        None
    }
}

/// The column type of a field's type, or `None` where the type has none.
pub fn clickhouse_type_for(ty: &TypeExpr) -> (r: Option<String>)
    ensures
        same_opt(r, column_of(ty)),
    decreases ty,
{
    match ty {
        TypeExpr::Path { ident, args } => {
            if str_eq(ident.as_str(), "Option") && args.len() >= 1 {
                proof {
                    vstd::std_specs::vec::axiom_vec_index_decreases(*args, 0);
                }
                match clickhouse_type_for(&args[0]) {
                    Some(inner) => {
                        let mut s = String::from_str("Nullable(");
                        s.append(inner.as_str());
                        s.append(")");
                        Some(s)
                    },
                    None => None,
                }
            } else if str_eq(ident.as_str(), "Vec") && args.len() >= 1 {
                proof {
                    vstd::std_specs::vec::axiom_vec_index_decreases(*args, 0);
                }
                match clickhouse_type_for(&args[0]) {
                    Some(inner) => {
                        let mut s = String::from_str("Array(");
                        s.append(inner.as_str());
                        s.append(")");
                        Some(s)
                    },
                    None => None,
                }
            } else if str_eq(ident.as_str(), "HashMap") && args.len() >= 2 {
                proof {
                    vstd::std_specs::vec::axiom_vec_index_decreases(*args, 0);
                    vstd::std_specs::vec::axiom_vec_index_decreases(*args, 1);
                }
                let k = match clickhouse_type_for(&args[0]) {
                    Some(k) => k,
                    None => {
                        return None;
                    },
                };
                let v = match clickhouse_type_for(&args[1]) {
                    Some(v) => v,
                    None => {
                        return None;
                    },
                };
                let mut s = String::from_str("Map(");
                s.append(k.as_str());
                s.append(", ");
                s.append(v.as_str());
                s.append(")");
                Some(s)
            } else if !is_primitive_name(ident.as_str()) {
                Some(String::from_str("Int16"))
            } else {
                primitive_column_type(ident.as_str())
            }
        },
        _ => None,
    }
}

/// The column type of an enumeration that is backed by the named type.
pub open spec fn enum_column(et: Seq<char>) -> Option<Seq<char>> {
    if et == "string"@ {
        Some("String"@)
    } else if et == "u64"@ {
        Some("UInt64"@)
    } else if et == "i64"@ {
        Some("Int64"@)
    } else if et == "u32"@ {
        Some("UInt32"@)
    } else if et == "i32"@ {
        Some("Int32"@)
    } else if et == "f64"@ {
        Some("Float64"@)
    } else if et == "f32"@ {
        Some("Float32"@)
    } else if et == "bool"@ {
        Some("Bool"@)
    } else if et == "datetime64"@ {
        Some("DateTime64"@)
    } else {
        None
    }
}

/// The column type of an enumeration that is backed by the named type, if that type is
/// known.
pub fn enum_column_type(et: &str) -> (r: Option<String>)
    ensures
        same_opt(r, enum_column(et@)),
{
    if str_eq(et, "string") {
        Some(String::from_str("String"))
    } else if str_eq(et, "u64") {
        Some(String::from_str("UInt64"))
    } else if str_eq(et, "i64") {
        Some(String::from_str("Int64"))
    } else if str_eq(et, "u32") {
        Some(String::from_str("UInt32"))
    } else if str_eq(et, "i32") {
        Some(String::from_str("Int32"))
    } else if str_eq(et, "f64") {
        Some(String::from_str("Float64"))
    } else if str_eq(et, "f32") {
        Some(String::from_str("Float32"))
    } else if str_eq(et, "bool") {
        Some(String::from_str("Bool"))
    } else if str_eq(et, "datetime64") {
        Some(String::from_str("DateTime64"))
    } else {
        None
    }
}

/// The column type of an enumeration that is backed by the named type.
pub fn map_enum_type_to_clickhouse(et: &str) -> (r: String)
    requires
        enum_column(et@) is Some,
    ensures
        r@ == enum_column(et@)->Some_0,
{
    match enum_column_type(et) {
        Some(s) => s,
        None => String::new(),
    }
}

/// The column type of a field: that of its enumeration's backing type where it names one,
/// else that of its type.
pub open spec fn field_column(f: &SchemaField) -> Option<Seq<char>> {
    match f.enum_type {
        Some(et) => enum_column(et@),
        None => column_of(&f.ty),
    }
}

/// Why the field at place `index` has no column type.
pub open spec fn column_error(f: &SchemaField, index: usize) -> DescriptorError {
    if f.enum_type is Some {
        DescriptorError::UnknownEnumType { index }
    } else {
        DescriptorError::UnsupportedType { index }
    }
}

/// The line of a column in the statement that creates the table.
pub open spec fn column_line(name: Seq<char>, ty: Seq<char>) -> Seq<char> {
    "  `"@ + name + "` "@ + ty
}

/// The lines of the first `n` fields' columns, or the error of the first field that has
/// no column type.
pub open spec fn column_lines(fields: Seq<SchemaField>, n: nat) -> Result<
    Seq<Seq<char>>,
    DescriptorError,
>
    decreases n,
{
    if n == 0 {
        Ok(Seq::empty())
    } else {
        match column_lines(fields, (n - 1) as nat) {
            Err(e) => Err(e),
            Ok(before) => match field_column(&fields[n - 1]) {
                Some(ty) => Ok(before.push(column_line(fields[n - 1].name@, ty))),
                None => Err(column_error(&fields[n - 1], (n - 1) as usize)),
            },
        }
    }
}

/// The names of the key fields among the first `n`, in order.
pub open spec fn key_names(fields: Seq<SchemaField>, n: nat) -> Seq<Seq<char>>
    decreases n,
{
    if n == 0 {
        Seq::empty()
    } else {
        let before = key_names(fields, (n - 1) as nat);
        if fields[n - 1].key {
            before.push(fields[n - 1].name@)
        } else {
            before
        }
    }
}

/// The text of the ordering: the declared one, else the key fields with `, ` between them.
pub open spec fn order_text(spec: &SchemaSpec) -> Seq<char> {
    match spec.order_by {
        Some(order) => order@,
        None => joined(key_names(spec.fields@, spec.fields@.len()), ", "@),
    }
}

/// The text of the engine: the declared one, else `MergeTree`.
pub open spec fn engine_text(spec: &SchemaSpec) -> Seq<char> {
    match spec.engine {
        Some(engine) => engine@,
        None => "MergeTree"@,
    }
}

/// The parts of the statement that creates the table, from the lines of its columns.
pub open spec fn ddl_parts(spec: &SchemaSpec, columns: Seq<Seq<char>>) -> Seq<Seq<char>> {
    let lines = columns.push("  `system_mask` UInt64"@).push("  `struct_mask` UInt64"@).push(
        "  `field_mask` UInt64"@,
    );
    let head = seq![
        "CREATE TABLE IF NOT EXISTS "@ + spec.table@,
        "("@,
        joined(lines, ",\n"@),
        ")"@,
        "ENGINE = "@ + engine_text(spec),
        "ORDER BY ("@ + order_text(spec) + ")"@,
    ];
    match spec.partition_by {
        Some(p) => head.push("PARTITION BY "@ + p@).push(";"@),
        None => head.push(";"@),
    }
}

/// The statement that creates the table, or why there is none.
pub open spec fn ddl_text(spec: &SchemaSpec) -> Result<Seq<char>, DescriptorError> {
    match column_lines(spec.fields@, spec.fields@.len()) {
        Ok(columns) => Ok(joined(ddl_parts(spec, columns), "\n"@)),
        Err(e) => Err(e),
    }
}

/// An error among the first fields is the error of the whole list.
proof fn lemma_column_lines_error(fields: Seq<SchemaField>, n: nat, m: nat)
    requires
        n <= m,
        column_lines(fields, n) is Err,
    ensures
        column_lines(fields, m) == column_lines(fields, n),
    decreases m,
{
    if n < m {
        lemma_column_lines_error(fields, n, (m - 1) as nat);
    }
}

/// The column type of a field, if it has one.
pub fn field_column_type(f: &SchemaField) -> (r: Option<String>)
    ensures
        same_opt(r, field_column(f)),
{
    match &f.enum_type {
        Some(et) => enum_column_type(et.as_str()),
        None => clickhouse_type_for(&f.ty),
    }
}

/// The names of the key fields, with `, ` between them.
pub fn key_field_list(spec: &SchemaSpec) -> (r: String)
    ensures
        r@ == joined(key_names(spec.fields@, spec.fields@.len()), ", "@),
{
    let mut names: Vec<String> = Vec::new();
    let mut i: usize = 0;
    while i < spec.fields.len()
        invariant
            i <= spec.fields@.len(),
            texts(names@) == key_names(spec.fields@, i as nat),
        decreases spec.fields@.len() - i,
    {
        if spec.fields[i].key {
            let ghost before = texts(names@);
            names.push(spec.fields[i].name.clone());
            proof {
                assert(texts(names@) =~= before.push(spec.fields@[i as int].name@));
            }
        }
        i = i + 1;
    }
    join(names.as_slice(), ", ")
}

/// Whether a result holds the text that the model gives, or the same error.
pub open spec fn same_text(
    r: Result<String, DescriptorError>,
    m: Result<Seq<char>, DescriptorError>,
) -> bool {
    match (r, m) {
        (Ok(a), Ok(b)) => a@ == b,
        (Err(a), Err(b)) => a == b,
        _ => false,
    }
}

/// The statement that creates the table of a schema: one line for each field's column,
/// three mask columns, the engine, the ordering, and the partitioning where one is
/// declared. A field without a column type is refused.
#[verifier::rlimit(40)]
pub fn ddl(spec: &SchemaSpec) -> (r: Result<String, DescriptorError>)
    ensures
        same_text(r, ddl_text(spec)),
{
    let mut cols: Vec<String> = Vec::new();
    let mut i: usize = 0;
    proof {
        assert(texts(cols@) =~= Seq::<Seq<char>>::empty());
    }
    while i < spec.fields.len()
        invariant
            i <= spec.fields@.len(),
            column_lines(spec.fields@, i as nat) == Ok::<Seq<Seq<char>>, DescriptorError>(
                texts(cols@),
            ),
        decreases spec.fields@.len() - i,
    {
        let f = &spec.fields[i];
        match field_column_type(f) {
            Some(ty) => {
                let ghost before = texts(cols@);
                let mut line = String::from_str("  `");
                line.append(f.name.as_str());
                line.append("` ");
                line.append(ty.as_str());
                cols.push(line);
                proof {
                    assert(texts(cols@) =~= before.push(column_line(f.name@, ty@)));
                }
            },
            None => {
                proof {
                    lemma_column_lines_error(spec.fields@, (i + 1) as nat, spec.fields@.len());
                }
                if f.enum_type.is_some() {
                    return Err(DescriptorError::UnknownEnumType { index: i });
                } else {
                    return Err(DescriptorError::UnsupportedType { index: i });
                }
            },
        }
        i = i + 1;
    }
    let ghost columns = texts(cols@);
    cols.push(String::from_str("  `system_mask` UInt64"));
    cols.push(String::from_str("  `struct_mask` UInt64"));
    cols.push(String::from_str("  `field_mask` UInt64"));
    let cols_joined = join(cols.as_slice(), ",\n");
    let engine = match &spec.engine {
        Some(e) => e.clone(),
        None => String::from_str("MergeTree"),
    };
    let order = match &spec.order_by {
        Some(o) => o.clone(),
        None => key_field_list(spec),
    };
    let mut parts: Vec<String> = Vec::new();
    parts.push(String::from_str("CREATE TABLE IF NOT EXISTS ").concat(spec.table.as_str()));
    parts.push(String::from_str("("));
    parts.push(cols_joined);
    parts.push(String::from_str(")"));
    parts.push(String::from_str("ENGINE = ").concat(engine.as_str()));
    let mut order_line = String::from_str("ORDER BY (");
    order_line.append(order.as_str());
    order_line.append(")");
    parts.push(order_line);
    if let Some(p) = &spec.partition_by {
        parts.push(String::from_str("PARTITION BY ").concat(p.as_str()));
    }
    parts.push(String::from_str(";"));
    proof {
        assert(texts(cols@) =~= columns.push("  `system_mask` UInt64"@).push(
            "  `struct_mask` UInt64"@,
        ).push("  `field_mask` UInt64"@));
        assert(texts(parts@) =~= ddl_parts(spec, columns));
    }
    Ok(join(parts.as_slice(), "\n"))
}

/// What is wrong with the field at place `index`, if anything: a key that is a map of
/// tags or of metadata; or tags or metadata that are no map from strings to strings.
pub open spec fn field_fault(f: &SchemaField, index: usize) -> Option<DescriptorError> {
    if f.key && (f.tags || f.ben_meta) {
        Some(DescriptorError::KeyOnMap { index })
    } else if (f.tags || f.ben_meta) && !string_map(&f.ty) {
        Some(DescriptorError::MapTypeRequired { index })
    } else {
        None
    }
}

/// The fault of the first field, among the first `n`, that has one.
pub open spec fn fields_fault(fields: Seq<SchemaField>, n: nat) -> Option<DescriptorError>
    decreases n,
{
    if n == 0 {
        None
    } else {
        match fields_fault(fields, (n - 1) as nat) {
            Some(e) => Some(e),
            None => field_fault(&fields[n - 1], (n - 1) as usize),
        }
    }
}

/// Whether one of the first `n` fields is a key.
pub open spec fn has_key(fields: Seq<SchemaField>, n: nat) -> bool {
    exists|i: int| 0 <= i < n && (#[trigger] fields[i]).key
}

/// Whether a field has the given name.
pub open spec fn names_field(fields: Seq<SchemaField>, name: Seq<char>) -> bool {
    exists|i: int| 0 <= i < fields.len() && (#[trigger] fields[i]).name@ == name
}

/// The fault of the first entry of the ordering, among the first `n`, that names no field.
/// White space around an entry does not count.
pub open spec fn order_fault(fields: Seq<SchemaField>, parts: Seq<Seq<char>>, n: nat) -> Option<
    DescriptorError,
>
    decreases n,
{
    if n == 0 {
        None
    } else {
        match order_fault(fields, parts, (n - 1) as nat) {
            Some(e) => Some(e),
            None => if names_field(fields, trimmed(parts[n - 1])) {
                None
            } else {
                Some(DescriptorError::UnknownOrderField { index: (n - 1) as usize })
            },
        }
    }
}

/// What is wrong with a declared schema, if anything. The table's name is looked at
/// first, then the fields in order, then whether there is a key, then the ordering.
pub open spec fn validation_error(spec: &SchemaSpec) -> Option<DescriptorError> {
    if spec.table@.len() == 0 {
        Some(DescriptorError::MissingTable)
    } else if snake_case(spec.table@) != spec.table@ || encode_utf8(spec.table@).len() < 3
        || encode_utf8(spec.table@).len() > 48 {
        Some(DescriptorError::BadTableName)
    } else if fields_fault(spec.fields@, spec.fields@.len()) is Some {
        fields_fault(spec.fields@, spec.fields@.len())
    } else if !has_key(spec.fields@, spec.fields@.len()) {
        Some(DescriptorError::MissingKey)
    } else {
        match spec.order_by {
            Some(order) => order_fault(
                spec.fields@,
                split(order@, ',', ','),
                split(order@, ',', ',').len(),
            ),
            None => None,
        }
    }
}

/// A fault among the first fields is the fault of the whole list.
proof fn lemma_fields_fault(fields: Seq<SchemaField>, n: nat, m: nat)
    requires
        n <= m,
        fields_fault(fields, n) is Some,
    ensures
        fields_fault(fields, m) == fields_fault(fields, n),
    decreases m,
{
    if n < m {
        lemma_fields_fault(fields, n, (m - 1) as nat);
    }
}

/// A fault among the first entries is the fault of the whole ordering.
proof fn lemma_order_fault(fields: Seq<SchemaField>, parts: Seq<Seq<char>>, n: nat, m: nat)
    requires
        n <= m,
        order_fault(fields, parts, n) is Some,
    ensures
        order_fault(fields, parts, m) == order_fault(fields, parts, n),
    decreases m,
{
    if n < m {
        lemma_order_fault(fields, parts, n, (m - 1) as nat);
    }
}

/// Whether a field has the name that stands in `chars` from `from` to `to`.
fn has_field_named(fields: &Vec<SchemaField>, chars: &[char], from: usize, to: usize) -> (r: bool)
    requires
        from <= to <= chars@.len(),
    ensures
        r == names_field(fields@, chars@.subrange(from as int, to as int)),
{
    let mut i: usize = 0;
    while i < fields.len()
        invariant
            i <= fields@.len(),
            from <= to <= chars@.len(),
            forall|j: int|
                0 <= j < i ==> (#[trigger] fields@[j]).name@ != chars@.subrange(
                    from as int,
                    to as int,
                ),
        decreases fields@.len() - i,
    {
        let name = chars_of(fields[i].name.as_str());
        if name.len() == to - from {
            let mut k: usize = 0;
            let mut same: bool = true;
            while k < name.len()
                invariant
                    k <= name@.len() == to - from,
                    from <= to <= chars@.len(),
                    same == forall|m: int| 0 <= m < k ==> name@[m] == chars@[from + m],
                decreases name@.len() - k,
            {
                if name[k] != chars[from + k] {
                    same = false;
                }
                k = k + 1;
            }
            if same {
                proof {
                    assert(name@ =~= chars@.subrange(from as int, to as int));
                }
                return true;
            } else {
                proof {
                    let m = choose|m: int| 0 <= m < name@.len() && name@[m] != chars@[from + m];
                    assert(chars@.subrange(from as int, to as int)[m] == chars@[from + m]);
                }
            }
        }
        i = i + 1;
    }
    false
}

/// Checks a declared schema: the table's name must be given, in snake case and of 3 to
/// 48 bytes; no key may be a map of tags or of metadata, and tags and metadata must be
/// maps from strings to strings; one field at least must be a key; and every entry of
/// the ordering must name a field.
#[verifier::loop_isolation(false)]
pub fn validate(spec: &SchemaSpec) -> (r: Result<(), DescriptorError>)
    ensures
        match r {
            Ok(()) => validation_error(spec) is None,
            Err(e) => validation_error(spec) == Some(e),
        },
{
    if spec.table.as_str().is_empty() {
        return Err(DescriptorError::MissingTable);
    }
    let t = to_snake_case(spec.table.as_str());
    let len: usize = spec.table.as_str().as_bytes().len();
    if !str_eq(t.as_str(), spec.table.as_str()) || len < 3 || len > 48 {
        return Err(DescriptorError::BadTableName);
    }
    let mut key_seen: bool = false;
    let mut i: usize = 0;
    while i < spec.fields.len()
        invariant
            i <= spec.fields@.len(),
            fields_fault(spec.fields@, i as nat) is None,
            key_seen == has_key(spec.fields@, i as nat),
        decreases spec.fields@.len() - i,
    {
        let f = &spec.fields[i];
        if f.key {
            key_seen = true;
        }
        if f.key && (f.tags || f.ben_meta) {
            proof {
                lemma_fields_fault(spec.fields@, (i + 1) as nat, spec.fields@.len());
            }
            return Err(DescriptorError::KeyOnMap { index: i });
        }
        if (f.tags || f.ben_meta) && !is_string_map(&f.ty) {
            proof {
                lemma_fields_fault(spec.fields@, (i + 1) as nat, spec.fields@.len());
            }
            return Err(DescriptorError::MapTypeRequired { index: i });
        }
        proof {
            if has_key(spec.fields@, (i + 1) as nat) && !f.key {
                let k = choose|k: int| 0 <= k < i + 1 && (#[trigger] spec.fields@[k]).key;
                assert(k < i);
            }
            if f.key {
                assert(spec.fields@[i as int].key);
            }
        }
        i = i + 1;
    }
    if !key_seen {
        return Err(DescriptorError::MissingKey);
    }
    if let Some(order) = &spec.order_by {
        let chars = chars_of(order.as_str());
        let ranges = split_ranges(chars.as_slice(), ',', ',');
        let ghost parts = split(order@, ',', ',');
        let mut k: usize = 0;
        while k < ranges.len()
            invariant
                k <= ranges@.len() == parts.len(),
                chars@ == order@,
                forall|j: int|
                    0 <= j < ranges@.len() ==> (#[trigger] ranges@[j]).0 <= ranges@[j].1
                        <= chars@.len() && chars@.subrange(
                        ranges@[j].0 as int,
                        ranges@[j].1 as int,
                    ) == parts[j],
                order_fault(spec.fields@, parts, k as nat) is None,
            decreases ranges@.len() - k,
        {
            let (from, to) = ranges[k];
            let (a, b) = trim_range(chars.as_slice(), from, to);
            if !has_field_named(&spec.fields, chars.as_slice(), a, b) {
                proof {
                    lemma_order_fault(spec.fields@, parts, (k + 1) as nat, parts.len());
                }
                return Err(DescriptorError::UnknownOrderField { index: k });
            }
            k = k + 1;
        }
    }
    Ok(())
}

/// The column type of an enumeration in a column definition: only strings, 64-bit
/// integers and binary64 numbers back an enumeration there.
pub open spec fn backing_column(et: Seq<char>) -> Option<Seq<char>> {
    if et == "string"@ {
        Some("String"@)
    } else if et == "u64"@ {
        Some("UInt64"@)
    } else if et == "i64"@ {
        Some("Int64"@)
    } else if et == "f64"@ {
        Some("Float64"@)
    } else {
        None
    }
}

/// The column definition of the field at place `index`, or why it has none. A field is
/// nullable where its type is an `Option`.
pub open spec fn column_def(f: &SchemaField, index: usize) -> Result<ColumnModel, DescriptorError> {
    let ty = match f.enum_type {
        Some(et) => backing_column(et@),
        None => column_of(&f.ty),
    };
    match ty {
        Some(ch_type) => Ok(
            ColumnModel {
                name: f.name@,
                ch_type,
                nullable: option_inner(&f.ty) is Some,
                default: match f.default {
                    Some(d) => Some(d@),
                    None => None,
                },
            },
        ),
        None => Err(column_error(f, index)),
    }
}

/// The column definitions of the first `n` fields, or the error of the first field that
/// has none.
pub open spec fn column_defs(fields: Seq<SchemaField>, n: nat) -> Result<
    Seq<ColumnModel>,
    DescriptorError,
>
    decreases n,
{
    if n == 0 {
        Ok(Seq::empty())
    } else {
        match column_defs(fields, (n - 1) as nat) {
            Err(e) => Err(e),
            Ok(before) => match column_def(&fields[n - 1], (n - 1) as usize) {
                Ok(c) => Ok(before.push(c)),
                Err(e) => Err(e),
            },
        }
    }
}

/// An error among the first fields is the error of the whole list.
proof fn lemma_column_defs_error(fields: Seq<SchemaField>, n: nat, m: nat)
    requires
        n <= m,
        column_defs(fields, n) is Err,
    ensures
        column_defs(fields, m) == column_defs(fields, n),
    decreases m,
{
    if n < m {
        lemma_column_defs_error(fields, n, (m - 1) as nat);
    }
}

/// The models of a list of column definitions.
pub open spec fn column_models(cols: Seq<ColumnDef>) -> Seq<ColumnModel> {
    Seq::new(cols.len(), |i: int| cols[i]@)
}

/// The column definitions of the fields of a schema.
pub fn columns(spec: &SchemaSpec) -> (r: Result<Vec<ColumnDef>, DescriptorError>)
    ensures
        match (r, column_defs(spec.fields@, spec.fields@.len())) {
            (Ok(a), Ok(b)) => column_models(a@) == b,
            (Err(a), Err(b)) => a == b,
            _ => false,
        },
{
    let mut cols: Vec<ColumnDef> = Vec::new();
    let mut i: usize = 0;
    proof {
        assert(column_models(cols@) =~= Seq::<ColumnModel>::empty());
    }
    while i < spec.fields.len()
        invariant
            i <= spec.fields@.len(),
            column_defs(spec.fields@, i as nat) == Ok::<Seq<ColumnModel>, DescriptorError>(
                column_models(cols@),
            ),
        decreases spec.fields@.len() - i,
    {
        let f = &spec.fields[i];
        let ty = match &f.enum_type {
            Some(et) => {
                let et = et.as_str();
                if str_eq(et, "string") {
                    Some(String::from_str("String"))
                } else if str_eq(et, "u64") {
                    Some(String::from_str("UInt64"))
                } else if str_eq(et, "i64") {
                    Some(String::from_str("Int64"))
                } else if str_eq(et, "f64") {
                    Some(String::from_str("Float64"))
                } else {
                    None
                }
            },
            None => clickhouse_type_for(&f.ty),
        };
        match ty {
            Some(ch_type) => {
                let ghost before = column_models(cols@);
                let nullable: bool = option_inner_ty(&f.ty).is_some();
                let col = ColumnDef {
                    name: f.name.clone(),
                    ch_type,
                    nullable,
                    default: match &f.default {
                        Some(d) => Some(d.clone()),
                        None => None,
                    },
                };
                cols.push(col);
                proof {
                    assert(column_models(cols@) =~= before.push(col@));
                }
            },
            None => {
                proof {
                    lemma_column_defs_error(spec.fields@, (i + 1) as nat, spec.fields@.len());
                }
                if f.enum_type.is_some() {
                    return Err(DescriptorError::UnknownEnumType { index: i });
                } else {
                    return Err(DescriptorError::UnsupportedType { index: i });
                }
            },
        }
        i = i + 1;
    }
    Ok(cols)
}

/// What a declared schema comes to: its identity, the statement that creates its table,
/// and the definition of the table.
#[derive(Debug)]
pub struct BenSchemaDescriptor {
    pub table: String,
    pub version: u32,
    pub fingerprint: String,
    pub ddl: String,
    pub json: String,
    pub evt_hash: [u8; 32],
    pub field_count: u16,
    pub manifest: SchemaManifest,
}

/// Why a declared schema comes to no descriptor, if it comes to none: what is wrong with
/// the declaration; else the first field without a column definition; else the first
/// field without a column in the statement that creates the table.
pub open spec fn derive_error(spec: &SchemaSpec) -> Option<DescriptorError> {
    match validation_error(spec) {
        Some(e) => Some(e),
        None => match column_defs(spec.fields@, spec.fields@.len()) {
            Err(e) => Some(e),
            Ok(_) => match ddl_text(spec) {
                Err(e) => Some(e),
                Ok(_) => None,
            },
        },
    }
}

/// Builds the descriptor of a declared schema and of its manifest, which is given as text.
///
/// The fingerprint is `sha256:` and the hexadecimal SHA-256 digest of the manifest; the event
/// hash is that digest; the field count is the number of fields, and 65535 for more.
pub fn derive_ben_schema(spec: &SchemaSpec, json: &str) -> (r: Result<
    BenSchemaDescriptor,
    DescriptorError,
>)
    ensures
        match r {
            Ok(d) => {
                &&& derive_error(spec) is None
                &&& d.table@ == spec.table@
                &&& d.version == spec.version
                &&& d.fingerprint@ == fingerprint_of(json@)
                &&& Ok::<Seq<char>, DescriptorError>(d.ddl@) == ddl_text(spec)
                &&& d.json@ == json@
                &&& d.evt_hash@ == sha256(encode_utf8(json@))
                &&& d.field_count == if spec.fields@.len() <= u16::MAX {
                    spec.fields@.len() as u16
                } else {
                    u16::MAX
                }
                &&& d.manifest.tables@.len() == 1
                &&& d.manifest.tables@[0].name@ == spec.table@
                &&& d.manifest.tables@[0].ddl@ == d.ddl@
                &&& Ok::<Seq<ColumnModel>, DescriptorError>(
                    column_models(d.manifest.tables@[0].columns@),
                ) == column_defs(spec.fields@, spec.fields@.len())
            },
            Err(e) => derive_error(spec) == Some(e),
        },
{
    validate(spec)?;
    let cols = columns(spec)?;
    let ddl_text = ddl(spec)?;
    let len: usize = spec.fields.len();
    let field_count: u16 = if len <= 0xFFFF {
        len as u16
    } else {
        0xFFFF
    };
    let mut tables: Vec<TableDef> = Vec::new();
    tables.push(TableDef { name: spec.table.clone(), ddl: ddl_text.clone(), columns: cols });
    Ok(
        BenSchemaDescriptor {
            table: spec.table.clone(),
            version: spec.version,
            fingerprint: fingerprint(json),
            ddl: ddl_text,
            json: json.to_owned(),
            evt_hash: evt_hash(json),
            field_count,
            manifest: SchemaManifest { tables },
        },
    )
}

/// The wire kind of a primitive type.
pub open spec fn primitive_kind(n: Seq<char>) -> Option<ScalarKindModel> {
    if n == "u8"@ {
        Some(ScalarKindModel::UInt(Width::W8))
    } else if n == "u16"@ {
        Some(ScalarKindModel::UInt(Width::W16))
    } else if n == "u32"@ {
        Some(ScalarKindModel::UInt(Width::W32))
    } else if n == "u64"@ {
        Some(ScalarKindModel::UInt(Width::W64))
    } else if n == "u128"@ {
        Some(ScalarKindModel::UInt128)
    } else if n == "i8"@ {
        Some(ScalarKindModel::Int(Width::W8))
    } else if n == "i16"@ {
        Some(ScalarKindModel::Int(Width::W16))
    } else if n == "i32"@ {
        Some(ScalarKindModel::Int(Width::W32))
    } else if n == "i64"@ {
        Some(ScalarKindModel::Int(Width::W64))
    } else if n == "f64"@ {
        Some(ScalarKindModel::Float64)
    } else if n == "bool"@ {
        Some(ScalarKindModel::Bool)
    } else if n == "String"@ {
        Some(ScalarKindModel::Str)
    } else {
        None
    }
}

/// The values of the first table of the given name in a registry, in the order of its
/// variants; `None` where the registry has no table of that name.
pub open spec fn registered_values(registry: Seq<EnumInfo>, name: Seq<char>, n: nat) -> Option<
    Seq<i16>,
>
    decreases n,
{
    if n == 0 {
        None
    } else {
        match registered_values(registry, name, (n - 1) as nat) {
            Some(v) => Some(v),
            None => if registry[n - 1].name@ == name {
                Some(registry[n - 1].variants@.map_values(|v: crate::contracts::enum_info::EnumVariant| v.value))
            } else {
                None
            },
        }
    }
}

/// The wire kind of a type that is encoded by itself: that of a primitive type; 16 or 32
/// raw bytes for an array of that many `u8`; a discriminant for a registered enumeration.
pub open spec fn scalar_kind_of(ty: &TypeExpr, registry: Seq<EnumInfo>) -> Option<ScalarKindModel> {
    match ty {
        TypeExpr::Path { ident, args } => match primitive_kind(ident@) {
            Some(k) => Some(k),
            None => match registered_values(registry, ident@, registry.len()) {
                Some(values) => Some(ScalarKindModel::Discriminant(values)),
                None => None,
            },
        },
        TypeExpr::Array { elem, len } => if **elem matches TypeExpr::Path { ident, args }
            && ident@ == "u8"@ {
            if *len == 16 {
                Some(ScalarKindModel::Fixed16)
            } else if *len == 32 {
                Some(ScalarKindModel::Fixed32)
            } else {
                None
            }
        } else {
            None
        },
        TypeExpr::Other => None,
    }
}

/// The wire kind of a type that is not an `Option`: an array for a `Vec` of scalars, a
/// map for a `HashMap` from `String` to `String`, else the kind of a scalar.
pub open spec fn body_kind_of(ty: &TypeExpr, registry: Seq<EnumInfo>) -> Option<FieldKindModel> {
    match vec_inner(ty) {
        Some(inner) => match scalar_kind_of(&inner, registry) {
            Some(k) => Some(FieldKindModel::Array(k)),
            None => None,
        },
        None => if hashmap_inner(ty) is Some {
            if string_map(ty) {
                Some(FieldKindModel::StrMap)
            } else {
                None
            }
        } else {
            match scalar_kind_of(ty, registry) {
                Some(k) => Some(FieldKindModel::Scalar(k)),
                None => None,
            }
        },
    }
}

/// The wire kind of a field's type, and whether the field is nullable: an `Option` is
/// nullable and has the kind of what it holds.
pub open spec fn wire_kind_of(ty: &TypeExpr, registry: Seq<EnumInfo>) -> Option<
    (FieldKindModel, bool),
> {
    match option_inner(ty) {
        Some(inner) => match body_kind_of(&inner, registry) {
            Some(k) => Some((k, true)),
            None => None,
        },
        None => match body_kind_of(ty, registry) {
            Some(k) => Some((k, false)),
            None => None,
        },
    }
}

/// The registered values of an enumeration name, as a vector.
fn enum_values(registry: &[EnumInfo], name: &str) -> (r: Option<Vec<i16>>)
    ensures
        match (r, registered_values(registry@, name@, registry@.len())) {
            (Some(a), Some(b)) => a@ == b,
            (None, None) => true,
            _ => false,
        },
{
    let mut i: usize = 0;
    while i < registry.len()
        invariant
            i <= registry@.len(),
            registered_values(registry@, name@, i as nat) is None,
        decreases registry@.len() - i,
    {
        if str_eq(registry[i].name, name) {
            let info = &registry[i];
            let mut values: Vec<i16> = Vec::new();
            let mut k: usize = 0;
            while k < info.variants.len()
                invariant
                    k <= info.variants@.len(),
                    values@.len() == k,
                    forall|j: int| 0 <= j < k ==> values@[j] == info.variants@[j].value,
                decreases info.variants@.len() - k,
            {
                values.push(info.variants[k].value);
                k = k + 1;
            }
            proof {
                assert(values@ =~= info.variants@.map_values(
                    |v: crate::contracts::enum_info::EnumVariant| v.value,
                ));
                lemma_registered(registry@, name@, (i + 1) as nat, registry@.len());
            }
            return Some(values);
        }
        i = i + 1;
    }
    None
}

/// What was found among the first tables is what is found among all.
proof fn lemma_registered(registry: Seq<EnumInfo>, name: Seq<char>, n: nat, m: nat)
    requires
        n <= m,
        registered_values(registry, name, n) is Some,
    ensures
        registered_values(registry, name, m) == registered_values(registry, name, n),
    decreases m,
{
    if n < m {
        lemma_registered(registry, name, n, (m - 1) as nat);
    }
}

/// The wire kind of a primitive type.
fn primitive_wire_kind(n: &str) -> (r: Option<ScalarKind>)
    ensures
        match (r, primitive_kind(n@)) {
            (Some(a), Some(b)) => a@ == b,
            (None, None) => true,
            _ => false,
        },
{
    if str_eq(n, "u8") {
        Some(ScalarKind::UInt(Width::W8))
    } else if str_eq(n, "u16") {
        Some(ScalarKind::UInt(Width::W16))
    } else if str_eq(n, "u32") {
        Some(ScalarKind::UInt(Width::W32))
    } else if str_eq(n, "u64") {
        Some(ScalarKind::UInt(Width::W64))
    } else if str_eq(n, "u128") {
        Some(ScalarKind::UInt128)
    } else if str_eq(n, "i8") {
        Some(ScalarKind::Int(Width::W8))
    } else if str_eq(n, "i16") {
        Some(ScalarKind::Int(Width::W16))
    } else if str_eq(n, "i32") {
        Some(ScalarKind::Int(Width::W32))
    } else if str_eq(n, "i64") {
        Some(ScalarKind::Int(Width::W64))
    } else if str_eq(n, "f64") {
        Some(ScalarKind::Float64)
    } else if str_eq(n, "bool") {
        Some(ScalarKind::Bool)
    } else if str_eq(n, "String") {
        Some(ScalarKind::Str)
    } else {
        None
    }
}

/// The wire kind of a type that is encoded by itself.
fn scalar_wire_kind(ty: &TypeExpr, registry: &[EnumInfo]) -> (r: Option<ScalarKind>)
    ensures
        match (r, scalar_kind_of(ty, registry@)) {
            (Some(a), Some(b)) => a@ == b,
            (None, None) => true,
            _ => false,
        },
{
    match ty {
        TypeExpr::Path { ident, args } => match primitive_wire_kind(ident.as_str()) {
            Some(k) => Some(k),
            None => match enum_values(registry, ident.as_str()) {
                Some(values) => Some(ScalarKind::Discriminant(values)),
                None => None,
            },
        },
        TypeExpr::Array { elem, len } => {
            let bytes: bool = match &**elem {
                TypeExpr::Path { ident, args } => str_eq(ident.as_str(), "u8"),
                _ => false,
            };
            if bytes && *len == 16 {
                Some(ScalarKind::Fixed16)
            } else if bytes && *len == 32 {
                Some(ScalarKind::Fixed32)
            } else {
                None
            }
        },
        TypeExpr::Other => None,
    }
}

/// The wire kind of a type that is not an `Option`.
fn body_wire_kind(ty: &TypeExpr, registry: &[EnumInfo]) -> (r: Option<FieldKind>)
    ensures
        match (r, body_kind_of(ty, registry@)) {
            (Some(a), Some(b)) => a@ == b,
            (None, None) => true,
            _ => false,
        },
{
    match vec_inner_ty(ty) {
        Some(inner) => match scalar_wire_kind(inner, registry) {
            Some(k) => Some(FieldKind::Array(k)),
            None => None,
        },
        None => {
            if hashmap_key_value(ty).is_some() {
                if is_string_map(ty) {
                    Some(FieldKind::StrMap)
                } else {
                    None
                }
            } else {
                match scalar_wire_kind(ty, registry) {
                    Some(k) => Some(FieldKind::Scalar(k)),
                    None => None,
                }
            }
        },
    }
}

/// The wire kind of a field's type, and whether the field is nullable; `None` where the
/// type has no encoding.
pub fn wire_kind_for(ty: &TypeExpr, registry: &[EnumInfo]) -> (r: Option<(FieldKind, bool)>)
    ensures
        match (r, wire_kind_of(ty, registry@)) {
            (Some(a), Some(b)) => a.0@ == b.0 && a.1 == b.1,
            (None, None) => true,
            _ => false,
        },
{
    match option_inner_ty(ty) {
        Some(inner) => match body_wire_kind(inner, registry) {
            Some(k) => Some((k, true)),
            None => None,
        },
        None => match body_wire_kind(ty, registry) {
            Some(k) => Some((k, false)),
            None => None,
        },
    }
}

/// The event schema of a declared schema: its identity from the descriptor, and for each
/// field its name, its wire kind and whether it is nullable. The first field whose type
/// has no encoding is refused.
pub fn event_schema(spec: &SchemaSpec, descriptor: &BenSchemaDescriptor, registry: &[EnumInfo]) -> (r:
    Result<EventSchema, DescriptorError>)
    ensures
        match r {
            Ok(schema) => {
                &&& schema.table@ == descriptor.table@
                &&& schema.version == descriptor.version
                &&& schema.fingerprint@ == descriptor.fingerprint@
                &&& schema.evt_hash == descriptor.evt_hash
                &&& schema.fields@.len() == spec.fields@.len()
                &&& forall|i: int|
                    0 <= i < spec.fields@.len() ==> (#[trigger] schema.fields@[i]).name@
                        == spec.fields@[i].name@ && wire_kind_of(&spec.fields@[i].ty, registry@)
                        == Some((schema.fields@[i].kind@, schema.fields@[i].nullable))
            },
            Err(e) => exists|i: int|
                0 <= i < spec.fields@.len() && e == (DescriptorError::UnsupportedType {
                    index: i as usize,
                }) && wire_kind_of(&(#[trigger] spec.fields@[i]).ty, registry@) is None && forall|
                    j: int,
                |
                    0 <= j < i ==> wire_kind_of(&(#[trigger] spec.fields@[j]).ty, registry@) is Some,
        },
{
    let mut fields: Vec<FieldDescriptor> = Vec::new();
    let mut i: usize = 0;
    while i < spec.fields.len()
        invariant
            i <= spec.fields@.len(),
            fields@.len() == i,
            forall|j: int|
                0 <= j < i ==> (#[trigger] fields@[j]).name@ == spec.fields@[j].name@
                    && wire_kind_of(&spec.fields@[j].ty, registry@) == Some(
                    (fields@[j].kind@, fields@[j].nullable),
                ),
        decreases spec.fields@.len() - i,
    {
        let f = &spec.fields[i];
        match wire_kind_for(&f.ty, registry) {
            Some((kind, nullable)) => {
                fields.push(
                    FieldDescriptor {
                        name: f.name.clone(),
                        kind,
                        nullable,
                        default: match &f.default {
                            Some(d) => Some(d.clone()),
                            None => None,
                        },
                    },
                );
            },
            None => {
                proof {
                    assert forall|j: int| 0 <= j < i implies wire_kind_of(
                        &(#[trigger] spec.fields@[j]).ty,
                        registry@,
                    ) is Some by {
                        assert(fields@[j].name@ == spec.fields@[j].name@);
                    }
                }
                return Err(DescriptorError::UnsupportedType { index: i });
            },
        }
        i = i + 1;
    }
    Ok(
        EventSchema {
            table: descriptor.table.clone(),
            version: descriptor.version,
            fingerprint: descriptor.fingerprint.clone(),
            fields,
            evt_hash: descriptor.evt_hash,
        },
    )
}

} // verus!
