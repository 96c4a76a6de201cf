//! The schema planner: walks a PostgreSQL type tree and produces, column
//! by column, a Parquet schema node and the appender that will feed it.

use vstd::prelude::*;

use crate::appenders::byte_array::{ByteArrayColumnAppender, ByteConv};
use crate::appenders::fixed_byte_array::{fixed_conv_wf, FixedByteArrayColumnAppender, FixedConv};
use crate::appenders::generic::{conv_can_soft, conv_kind, conv_wf, Conversion, GenericColumnAppender};
use crate::appenders::interface::{
    app_max_dl, app_max_rl, app_wf, leaves, leaves_seq, lemma_leaves_seq_snoc, ArrayColumnAppender,
    ArraySource, BasicPgRowColumnAppender, ColumnAppender, DecodeAppender, DynamicMergedAppender,
    StructDecoder,
};
use crate::appenders::records::fresh_leaf;

verus! {

/// How `macaddr` columns are stored.
#[derive(Clone, Copy, Debug)]
pub enum SchemaSettingsMacaddrHandling {
    /// As text.
    Text,
    /// As a fixed six-byte array.
    ByteArray,
    /// In the low six bytes of a 64-bit integer.
    Int64,
}

/// How `json` and `jsonb` columns are annotated.
#[derive(Clone, Copy, Debug)]
pub enum SchemaSettingsJsonHandling {
    /// Text carrying the JSON logical type.
    TextMarkedAsJson,
    /// Plain text.
    Text,
}

/// How enum columns are stored.
#[derive(Clone, Copy, Debug)]
pub enum SchemaSettingsEnumHandling {
    /// The label, marked with the ENUM logical type.
    Text,
    /// The label as plain text.
    PlainText,
    /// The one-based position of the label among the type's labels.
    Int,
}

/// How `interval` columns are stored.
#[derive(Clone, Copy, Debug)]
pub enum SchemaSettingsIntervalHandling {
    /// The twelve-byte Parquet INTERVAL, milliseconds only.
    Interval,
    /// A struct of months, days and microseconds, exactly as stored.
    Struct,
}

/// How `numeric` columns are stored.
#[derive(Clone, Copy, Debug)]
pub enum SchemaSettingsNumericHandling {
    /// A Parquet DECIMAL of the configured precision and scale.
    Decimal,
    /// A 64-bit float.
    Double,
    /// A 32-bit float.
    Float32,
    /// Exact decimal text.
    Text,
}

/// How arrays carry their stripped dimensions.
#[derive(Clone, Copy, Debug)]
pub enum SchemaSettingsArrayHandling {
    /// A plain LIST.
    Plain,
    /// A struct of the flattened data and the dimension lengths.
    Dimensions,
    /// A struct of the data, the dimensions and the lower bounds.
    DimensionsAndLowerBound,
}

/// How pgvector half-precision values are stored.
#[derive(Clone, Copy, Debug)]
pub enum SchemaSettingsFloat16Handling {
    /// Widened to 32-bit floats.
    Float32,
    /// Two-byte values with the FLOAT16 logical type.
    Float16,
}

/// The user policy the planner follows.
#[derive(Clone, Copy, Debug)]
pub struct SchemaSettings {
    pub macaddr_handling: SchemaSettingsMacaddrHandling,
    pub json_handling: SchemaSettingsJsonHandling,
    pub enum_handling: SchemaSettingsEnumHandling,
    pub interval_handling: SchemaSettingsIntervalHandling,
    pub numeric_handling: SchemaSettingsNumericHandling,
    pub decimal_scale: i32,
    pub decimal_precision: u32,
    pub array_handling: SchemaSettingsArrayHandling,
    pub float16_handling: SchemaSettingsFloat16Handling,
}

/// Bounds the planner relies on.
pub open spec fn settings_wf(s: SchemaSettings) -> bool {
    &&& 1 <= s.decimal_precision <= 38
    &&& -0x4000 <= s.decimal_scale <= 0x4000
}

/// The default policy: text for macaddr, json, and enum labels, the
/// twelve-byte INTERVAL, numerics as doubles with scale 18 and the full
/// 38-digit precision, plain LIST arrays, and half floats widened.
pub fn default_settings() -> (r: SchemaSettings)
    ensures
        settings_wf(r),
        r == (SchemaSettings {
            macaddr_handling: SchemaSettingsMacaddrHandling::Text,
            json_handling: SchemaSettingsJsonHandling::Text,
            enum_handling: SchemaSettingsEnumHandling::Text,
            interval_handling: SchemaSettingsIntervalHandling::Interval,
            numeric_handling: SchemaSettingsNumericHandling::Double,
            decimal_scale: 18,
            decimal_precision: 38,
            array_handling: SchemaSettingsArrayHandling::Plain,
            float16_handling: SchemaSettingsFloat16Handling::Float32,
        }),
{
    SchemaSettings {
        macaddr_handling: SchemaSettingsMacaddrHandling::Text,
        json_handling: SchemaSettingsJsonHandling::Text,
        enum_handling: SchemaSettingsEnumHandling::Text,
        interval_handling: SchemaSettingsIntervalHandling::Interval,
        numeric_handling: SchemaSettingsNumericHandling::Double,
        decimal_scale: 18,
        decimal_precision: 38,
        array_handling: SchemaSettingsArrayHandling::Plain,
        float16_handling: SchemaSettingsFloat16Handling::Float32,
    }
}

/// A field of a composite type.
pub struct PgField {
    pub name: String,
    pub ty: PgType,
}

/// The kind of a PostgreSQL type.
pub enum PgTypeKind {
    /// A named primitive.
    Simple,
    /// An enumerated type and its labels in declared order.
    Enum(Vec<String>),
    Array(Box<PgType>),
    Domain(Box<PgType>),
    Range(Box<PgType>),
    Composite(Vec<PgField>),
}

/// A PostgreSQL type: the name drives primitive mapping, the kind drives
/// structure.
pub struct PgType {
    pub name: String,
    pub kind: PgTypeKind,
}

/// One column of the result set.
pub struct PgColumn {
    pub name: String,
    pub ty: PgType,
}

/// Termination measure of type trees.
pub open spec fn pg_height(t: PgType) -> nat
    decreases t,
{
    match t.kind {
        PgTypeKind::Simple => 0,
        PgTypeKind::Enum(_) => 0,
        PgTypeKind::Array(e) => pg_height(*e) + 1,
        PgTypeKind::Domain(e) => pg_height(*e) + 1,
        PgTypeKind::Range(e) => pg_height(*e) + 1,
        PgTypeKind::Composite(fs) => pg_fields_height(fs@) + 1,
    }
}

pub open spec fn pg_fields_height(fs: Seq<PgField>) -> nat
    decreases fs,
{
    if fs.len() == 0 {
        0
    } else if pg_fields_height(fs.drop_last()) >= pg_height(fs.last().ty) {
        pg_fields_height(fs.drop_last())
    } else {
        pg_height(fs.last().ty)
    }
}

pub proof fn lemma_pg_fields_height_elem(fs: Seq<PgField>, i: int)
    requires
        0 <= i < fs.len(),
    ensures
        pg_height(fs[i].ty) <= pg_fields_height(fs),
    decreases fs,
{
    if i == fs.len() - 1 {
        assert(fs[i] == fs.last());
    } else {
        lemma_pg_fields_height_elem(fs.drop_last(), i);
        assert(fs.drop_last()[i] == fs[i]);
    }
}

/// Physical Parquet types.
#[derive(Clone, Copy, Debug)]
pub enum PhysicalType {
    Boolean,
    Int32,
    Int64,
    Float,
    Double,
    ByteArray,
    FixedLenByteArray,
}

/// Repetition of a schema node.
#[derive(Clone, Copy, Debug)]
pub enum Repetition {
    Required,
    Optional,
    Repeated,
}

/// Converted types the file carries for older readers.
#[derive(Clone, Copy, Debug)]
pub enum ConvertedType {
    Utf8,
    MapKv,
    Interval,
}

/// Logical type annotations.
#[derive(Clone, Copy, Debug)]
pub enum LogicalType {
    Text,
    EnumType,
    Json,
    Date,
    Uuid,
    Float16,
    MapType,
    List,
    Decimal { scale: i32, precision: i32 },
    Integer { bit_width: u8, is_signed: bool },
    TimeMicros,
    TimestampMicros { utc: bool },
}

/// A Parquet schema node: a primitive column or a group.
pub enum ParquetType {
    PrimitiveType {
        name: String,
        physical: PhysicalType,
        repetition: Repetition,
        logical: Option<LogicalType>,
        converted: Option<ConvertedType>,
        type_length: i32,
        precision: i32,
        scale: i32,
    },
    GroupType {
        name: String,
        repetition: Option<Repetition>,
        logical: Option<LogicalType>,
        converted: Option<ConvertedType>,
        fields: Vec<ParquetType>,
    },
}

/// Number of primitive columns below a schema node.
pub open spec fn count_columns(p: ParquetType) -> int
    decreases p,
{
    match p {
        ParquetType::PrimitiveType { .. } => 1,
        ParquetType::GroupType { fields, .. } => count_columns_seq(fields@),
    }
}

pub open spec fn count_columns_seq(s: Seq<ParquetType>) -> int
    decreases s,
{
    if s.len() == 0 {
        0
    } else {
        count_columns_seq(s.drop_last()) + count_columns(s.last())
    }
}

/// The path to a column, its index in the row, and the levels
/// accumulated on the way down.
#[derive(Debug)]
pub struct ColumnInfo {
    pub names: Vec<String>,
    pub col_i: usize,
    pub is_array: bool,
    pub definition_level: i16,
    pub repetition_level: i16,
}

impl ColumnInfo {
    pub open spec fn wf(&self) -> bool {
        &&& 0 <= self.definition_level < 0x7000
        &&& 0 <= self.repetition_level < 0x7000
        &&& self.names@.len() >= 1
    }

    /// The root context of one selected column.
    pub fn root(col_i: usize, name: String) -> (r: ColumnInfo)
        ensures
            r.wf(),
            r.definition_level == 0,
            r.repetition_level == 0,
            r.col_i == col_i,
            !r.is_array,
            r.names@ =~= seq![name],
    {
        let mut names: Vec<String> = Vec::new();
        names.push(name);
        ColumnInfo { names, col_i, is_array: false, definition_level: 0, repetition_level: 0 }
    }

    /// Step into a named, optional child: the definition level grows and
    /// the path gains the child's name.
    pub fn nest(&self, name: &str, col_i: usize) -> (r: ColumnInfo)
        requires
            self.wf(),
            self.definition_level < 0x6fff,
        ensures
            r.wf(),
            r.definition_level == self.definition_level + 1,
            r.repetition_level == self.repetition_level,
            r.col_i == col_i,
            !r.is_array,
            r.names@.len() == self.names@.len() + 1,
            forall|j: int| 0 <= j < self.names@.len() ==> #[trigger] r.names@[j] == self.names@[j],
            r.names@.last()@ == name@,
    {
        let mut names: Vec<String> = Vec::new();
        let n = self.names.len();
        let mut i: usize = 0;
        while i < n
            invariant
                i <= n,
                n == self.names@.len(),
                names@.len() == i,
                forall|j: int| 0 <= j < i ==> #[trigger] names@[j] == self.names@[j],
            decreases n - i,
        {
            names.push(self.names[i].clone());
            i = i + 1;
        }
        names.push(name.to_owned());
        ColumnInfo {
            names,
            col_i,
            is_array: false,
            definition_level: self.definition_level + 1,
            repetition_level: self.repetition_level + 0,
        }
    }

    /// Step into a repeated level: the repetition level grows.  Parquet
    /// cannot nest lists inside lists here, so the context must not
    /// already be repeated.
    pub fn as_array(&self) -> (r: ColumnInfo)
        requires
            self.wf(),
            !self.is_array,
            self.repetition_level < 0x6fff,
        ensures
            r.wf(),
            r.definition_level == self.definition_level,
            r.repetition_level == self.repetition_level + 1,
            r.col_i == self.col_i,
            r.is_array,
            r.names@ =~= self.names@,
    {
        let mut names: Vec<String> = Vec::new();
        let n = self.names.len();
        let mut i: usize = 0;
        while i < n
            invariant
                i <= n,
                n == self.names@.len(),
                names@.len() == i,
                forall|j: int| 0 <= j < i ==> #[trigger] names@[j] == self.names@[j],
            decreases n - i,
        {
            names.push(self.names[i].clone());
            i = i + 1;
        }
        ColumnInfo {
            names,
            col_i: self.col_i,
            is_array: true,
            definition_level: self.definition_level + 0,
            repetition_level: self.repetition_level + 1,
        }
    }

    /// The last name on the path.
    pub fn col_name(&self) -> (r: String)
        requires
            self.wf(),
        ensures
            r == self.names@.last(),
    {
        self.names[self.names.len() - 1].clone()
    }

    /// The dotted path, for diagnostics.
    pub fn full_name(&self) -> (r: String)
        requires
            self.wf(),
        ensures
            r@ == path_join(self.names@, self.names@.len() as int),
    {
        let mut out = String::new();
        let n = self.names.len();
        let mut i: usize = 0;
        while i < n
            invariant
                i <= n,
                n == self.names@.len(),
                out@ =~= path_join(self.names@, i as int),
            decreases n - i,
        {
            if i > 0 {
                out.append("/");
            }
            out.append(self.names[i].as_str());
            proof {
                assert(out@ =~= path_join(self.names@, i as int + 1));
            }
            i = i + 1;
        }
        out
    }
}

/// The first `k` names of a column path joined for diagnostics, each
/// level separated by a slash.
pub open spec fn path_join(names: Seq<String>, k: int) -> Seq<char>
    decreases k,
{
    if k <= 0 {
        Seq::empty()
    } else if k == 1 {
        names[0]@
    } else {
        path_join(names, k - 1) + "/"@ + names[k - 1]@
    }
}

/// Whether two strings hold the same characters.
pub fn str_eq(a: &str, b: &str) -> (r: bool)
    ensures
        r == (a@ == b@),
{
    let sa = a.to_owned();
    let sb = b.to_owned();
    sa == sb
}

/// What the planner produces for one column: the appender and the schema
/// node it will fill.
pub struct ResolvedColumn {
    pub appender: ColumnAppender,
    pub schema: ParquetType,
}

/// The appender side of a planned column is sound: well formed, fresh,
/// and sitting at the levels its context prescribes.
pub open spec fn planned(a: ColumnAppender, dl: int, rl: int) -> bool {
    &&& app_wf(a)
    &&& app_max_dl(a) == dl
    &&& app_max_rl(a) == rl
    &&& leaves(a).len() >= 1
    &&& forall|i: int| 0 <= i < leaves(a).len() ==> fresh_leaf(#[trigger] leaves(a)[i])
}

/// The name the planner gives a column's schema node: the last name on
/// its path.
pub open spec fn col_last(c: ColumnInfo) -> Seq<char> {
    c.names@.last()@
}

/// A planned primitive column in full: the appender reads cell `col_i`
/// of the row into a primitive leaf applying exactly `conversion`, and
/// the schema node is the optional primitive with exactly the given
/// annotations, named after the column.
pub open spec fn planned_generic(
    rc: ResolvedColumn,
    c: ColumnInfo,
    conversion: Conversion,
    physical: PhysicalType,
    logical: Option<LogicalType>,
    converted: Option<ConvertedType>,
    type_length: int,
    precision: int,
    scale: int,
) -> bool {
    &&& planned(rc.appender, c.definition_level + 1, c.repetition_level as int)
    &&& rc.appender is Field
    &&& rc.appender->Field_0.column_i == c.col_i
    &&& rc.appender->Field_0.appender is Generic
    &&& rc.appender->Field_0.appender->Generic_0.conv() == conversion
    &&& rc.schema matches ParquetType::PrimitiveType {
        name,
        physical: p2,
        repetition,
        logical: l2,
        converted: c2,
        type_length: tl,
        precision: pr,
        scale: sc,
    } && name@ == col_last(c) && p2 == physical && repetition is Optional && l2 == logical && c2
        == converted && tl as int == type_length && pr as int == precision && sc as int == scale
}

/// A planned byte-array column in full.
pub open spec fn planned_bytes(
    rc: ResolvedColumn,
    c: ColumnInfo,
    conversion: ByteConv,
    logical: Option<LogicalType>,
    converted: Option<ConvertedType>,
) -> bool {
    &&& planned(rc.appender, c.definition_level + 1, c.repetition_level as int)
    &&& rc.appender is Field
    &&& rc.appender->Field_0.column_i == c.col_i
    &&& rc.appender->Field_0.appender is Bytes
    &&& rc.appender->Field_0.appender->Bytes_0.conv() == conversion
    &&& rc.schema matches ParquetType::PrimitiveType {
        name,
        physical: p2,
        repetition,
        logical: l2,
        converted: c2,
        ..
    } && name@ == col_last(c) && p2 is ByteArray && repetition is Optional && l2 == logical && c2
        == converted
}

/// A planned fixed-width column in full.
pub open spec fn planned_fixed(
    rc: ResolvedColumn,
    c: ColumnInfo,
    conversion: FixedConv,
    length: int,
    logical: Option<LogicalType>,
    converted: Option<ConvertedType>,
) -> bool {
    &&& planned(rc.appender, c.definition_level + 1, c.repetition_level as int)
    &&& rc.appender is Field
    &&& rc.appender->Field_0.column_i == c.col_i
    &&& rc.appender->Field_0.appender is Fixed
    &&& rc.appender->Field_0.appender->Fixed_0.conv() == conversion
    &&& rc.appender->Field_0.appender->Fixed_0.spec_length() == length
    &&& rc.schema matches ParquetType::PrimitiveType {
        name,
        physical: p2,
        repetition,
        logical: l2,
        converted: c2,
        type_length: tl,
        ..
    } && name@ == col_last(c) && p2 is FixedLenByteArray && repetition is Optional && l2 == logical
        && c2 == converted && tl as int == length
}

/// Build a primitive leaf, wrapped to read its cell out of the row.
fn resolve_generic(
    c: &ColumnInfo,
    conversion: Conversion,
    physical: PhysicalType,
    logical: Option<LogicalType>,
    converted: Option<ConvertedType>,
    type_length: i32,
    precision: i32,
    scale: i32,
) -> (r: ResolvedColumn)
    requires
        c.wf(),
        conv_wf(conversion),
    ensures
        planned_generic(
            r,
            *c,
            conversion,
            physical,
            logical,
            converted,
            type_length as int,
            precision as int,
            scale as int,
        ),
{
    let g = GenericColumnAppender::new(c.definition_level + 1, c.repetition_level, conversion);
    let a = ColumnAppender::Generic(g);
    proof {
        assert(leaves(a)[0] == g.leaf());
    }
    let w = wrap_pg_row_reader(c.col_i, a);
    ResolvedColumn {
        appender: w,
        schema: ParquetType::PrimitiveType {
            name: c.col_name(),
            physical,
            repetition: Repetition::Optional,
            logical,
            converted,
            type_length,
            precision,
            scale,
        },
    }
}

/// Build a variable-length byte leaf, wrapped to read its cell.
fn resolve_bytes(
    c: &ColumnInfo,
    conversion: ByteConv,
    logical: Option<LogicalType>,
    converted: Option<ConvertedType>,
) -> (r: ResolvedColumn)
    requires
        c.wf(),
    ensures
        planned_bytes(r, *c, conversion, logical, converted),
{
    let b = ByteArrayColumnAppender::new(
        c.definition_level + 1,
        c.repetition_level,
        conversion,
    );
    let a = ColumnAppender::Bytes(b);
    proof {
        assert(leaves(a)[0] == b.leaf());
    }
    let w = wrap_pg_row_reader(c.col_i, a);
    ResolvedColumn {
        appender: w,
        schema: ParquetType::PrimitiveType {
            name: c.col_name(),
            physical: PhysicalType::ByteArray,
            repetition: Repetition::Optional,
            logical,
            converted,
            type_length: -1,
            precision: 0,
            scale: 0,
        },
    }
}

/// Build a fixed-width byte leaf, wrapped to read its cell.
fn resolve_fixed(
    c: &ColumnInfo,
    conversion: FixedConv,
    length: usize,
    logical: Option<LogicalType>,
    converted: Option<ConvertedType>,
) -> (r: ResolvedColumn)
    requires
        c.wf(),
        fixed_conv_wf(conversion, length as int),
        length <= 0x7fffffff,
    ensures
        planned_fixed(r, *c, conversion, length as int, logical, converted),
{
    let f = FixedByteArrayColumnAppender::new(
        c.definition_level + 1,
        c.repetition_level,
        length,
        true,
        conversion,
    );
    let a = ColumnAppender::Fixed(f);
    proof {
        assert(leaves(a)[0] == f.leaf());
    }
    let w = wrap_pg_row_reader(c.col_i, a);
    ResolvedColumn {
        appender: w,
        schema: ParquetType::PrimitiveType {
            name: c.col_name(),
            physical: PhysicalType::FixedLenByteArray,
            repetition: Repetition::Optional,
            logical,
            converted,
            type_length: length as i32,
            precision: 0,
            scale: 0,
        },
    }
}

/// The canonical LIST group around an element node.
pub fn make_list_schema(name: String, repetition: Repetition, element_schema: ParquetType) -> (r:
    ParquetType)
    ensures
        list_shaped(r, name@, repetition),
        list_elem(r) == element_schema,
{
    let mut inner_fields: Vec<ParquetType> = Vec::new();
    inner_fields.push(element_schema);
    let list_group = ParquetType::GroupType {
        name: "list".to_owned(),
        repetition: Option::Some(Repetition::Repeated),
        logical: Option::None,
        converted: Option::None,
        fields: inner_fields,
    };
    let mut outer_fields: Vec<ParquetType> = Vec::new();
    outer_fields.push(list_group);
    ParquetType::GroupType {
        name,
        repetition: Option::Some(repetition),
        logical: Option::Some(LogicalType::List),
        converted: Option::None,
        fields: outer_fields,
    }
}

/// The labels of an enumerated type as byte strings.
#[verifier::loop_isolation(false)]
fn labels_bytes(labels: &Vec<String>) -> (r: Result<Vec<Vec<u8>>, String>)
    ensures
        r is Ok <==> labels@.len() < 0x7fffffff,
        r matches Result::Ok(lb) ==> {
            &&& lb@.len() == labels@.len()
            &&& forall|i: int|
                0 <= i < labels@.len() ==> (#[trigger] lb@[i])@ == vstd::utf8::encode_utf8(
                    labels@[i]@,
                )
        },
{
    if labels.len() >= 0x7fffffff {
        return Result::Err(
            crate::appenders::generic::err_string("enum type has too many labels"),
        );
    }
    let mut out: Vec<Vec<u8>> = Vec::new();
    let n = labels.len();
    let mut i: usize = 0;
    while i < n
        invariant
            i <= n,
            n < 0x7fffffff,
            out@.len() == i,
            forall|j: int|
                0 <= j < i ==> (#[trigger] out@[j])@ == vstd::utf8::encode_utf8(labels@[j]@),
        decreases n - i,
    {
        let sref = labels[i].as_str();
        let bytes = sref.as_bytes();
        let owned = crate::datatypes::utils::copy_range(bytes, 0, bytes.len());
        out.push(owned);
        i = i + 1;
    }
    Result::Ok(out)
}

/// The canonical LIST group shape: an outer group with the given name
/// and repetition carrying the List annotation, holding one repeated
/// group named `list` with a single element node.
pub open spec fn list_shaped(p: ParquetType, nm: Seq<char>, rep: Repetition) -> bool {
    p matches ParquetType::GroupType { name, repetition, logical, converted, fields } && name@
        == nm && repetition == Option::Some(rep) && logical == Option::Some(LogicalType::List)
        && converted is None && fields@.len() == 1 && (fields@[0]
        matches ParquetType::GroupType {
        name: ln,
        repetition: lr,
        logical: ll,
        converted: lc,
        fields: lf,
    } && ln@ == "list"@ && lr == Option::Some(Repetition::Repeated) && ll is None && lc is None
        && lf@.len() == 1)
}

/// The element node of a LIST group.
pub open spec fn list_elem(p: ParquetType) -> ParquetType {
    match p {
        ParquetType::GroupType { fields, .. } => match fields@[0] {
            ParquetType::GroupType { fields: lf, .. } => lf@[0],
            _ => p,
        },
        _ => p,
    }
}

/// A required primitive element node with the given annotations.
pub open spec fn elem_prim(
    p: ParquetType,
    physical: PhysicalType,
    logical: Option<LogicalType>,
    type_length: int,
) -> bool {
    p matches ParquetType::PrimitiveType {
        name,
        physical: p2,
        repetition,
        logical: l2,
        type_length: tl,
        ..
    } && name@ == "element"@ && p2 == physical && repetition is Required && l2 == logical && tl
        as int == type_length
}

/// A planned LIST column over one inner leaf: the appender reads the
/// cell, parses it by `source`, and feeds each element to the inner
/// appender.
pub open spec fn planned_list(
    rc: ResolvedColumn,
    c: ColumnInfo,
    source_vector: ArraySource,
) -> bool {
    &&& planned(rc.appender, c.definition_level + 1, c.repetition_level as int)
    &&& rc.appender is Field
    &&& rc.appender->Field_0.column_i == c.col_i
    &&& rc.appender->Field_0.appender is Arr
    &&& rc.appender->Field_0.appender->Arr_0.dl == c.definition_level + 1
    &&& rc.appender->Field_0.appender->Arr_0.rl == c.repetition_level
    &&& rc.appender->Field_0.appender->Arr_0.allow_null
    &&& arr_source_is(rc.appender->Field_0.appender->Arr_0.source, source_vector)
}

/// Whether two element sources are the same variant.
pub open spec fn arr_source_is(a: ArraySource, b: ArraySource) -> bool {
    match (a, b) {
        (ArraySource::PgArray, ArraySource::PgArray) => true,
        (ArraySource::PgArrayDims, ArraySource::PgArrayDims) => true,
        (ArraySource::PgArrayLowerBounds, ArraySource::PgArrayLowerBounds) => true,
        (ArraySource::VectorF32, ArraySource::VectorF32) => true,
        (ArraySource::VectorF16, ArraySource::VectorF16) => true,
        (ArraySource::SparseVec, ArraySource::SparseVec) => true,
        _ => false,
    }
}

/// A planned dense vector column: a LIST of required float elements fed
/// through the given element conversion.
pub open spec fn vector_planned(
    rc: ResolvedColumn,
    c: ColumnInfo,
    source: ArraySource,
    conversion: Conversion,
    elem_physical: PhysicalType,
    elem_logical: Option<LogicalType>,
    elem_length: int,
) -> bool {
    &&& planned_list(rc, c, source)
    &&& !rc.appender->Field_0.appender->Arr_0.allow_element_null
    &&& rc.appender->Field_0.appender->Arr_0.inner is Generic
    &&& rc.appender->Field_0.appender->Arr_0.inner->Generic_0.conv() == conversion
    &&& list_shaped(rc.schema, col_last(c), Repetition::Optional)
    &&& elem_prim(list_elem(rc.schema), elem_physical, elem_logical, elem_length)
}

/// A planned half-precision vector column stored as two-byte values.
pub open spec fn halfvec_fixed_planned(rc: ResolvedColumn, c: ColumnInfo) -> bool {
    &&& planned_list(rc, c, ArraySource::VectorF16)
    &&& !rc.appender->Field_0.appender->Arr_0.allow_element_null
    &&& rc.appender->Field_0.appender->Arr_0.inner is Fixed
    &&& rc.appender->Field_0.appender->Arr_0.inner->Fixed_0.conv() == FixedConv::F16LE
    &&& rc.appender->Field_0.appender->Arr_0.inner->Fixed_0.spec_length() == 2
    &&& list_shaped(rc.schema, col_last(c), Repetition::Optional)
    &&& elem_prim(
        list_elem(rc.schema),
        PhysicalType::FixedLenByteArray,
        Option::Some(LogicalType::Float16),
        2,
    )
}

/// A planned sparse vector column: a MAP of one-based position to value.
pub open spec fn sparsevec_planned(rc: ResolvedColumn, c: ColumnInfo) -> bool {
    &&& planned_list(rc, c, ArraySource::SparseVec)
    &&& !rc.appender->Field_0.appender->Arr_0.allow_element_null
    &&& rc.appender->Field_0.appender->Arr_0.inner is Merged
    &&& rc.appender->Field_0.appender->Arr_0.inner->Merged_0.columns@.len() == 2
    &&& rc.appender->Field_0.appender->Arr_0.inner->Merged_0.columns@[0] is Generic
    &&& rc.appender->Field_0.appender->Arr_0.inner->Merged_0.columns@[0]->Generic_0.conv()
        == Conversion::PairKeyVal
    &&& rc.appender->Field_0.appender->Arr_0.inner->Merged_0.columns@[1] is Generic
    &&& rc.appender->Field_0.appender->Arr_0.inner->Merged_0.columns@[1]->Generic_0.conv()
        == Conversion::PairValueVal
    &&& rc.schema matches ParquetType::GroupType { name, repetition, logical, converted, fields }
        && name@ == col_last(c) && repetition == Option::Some(Repetition::Optional) && logical
        == Option::Some(LogicalType::MapType) && converted == Option::Some(ConvertedType::MapKv)
        && fields@.len() == 1
}

/// A planned interval column in its struct form: months, days and
/// microseconds broadcast from the same wire value.
pub open spec fn interval_struct_planned(rc: ResolvedColumn, c: ColumnInfo) -> bool {
    &&& planned(rc.appender, c.definition_level + 1, c.repetition_level as int)
    &&& rc.appender is Field
    &&& rc.appender->Field_0.column_i == c.col_i
    &&& rc.appender->Field_0.appender is Merged
    &&& rc.appender->Field_0.appender->Merged_0.columns@.len() == 3
    &&& rc.appender->Field_0.appender->Merged_0.columns@[0] is Generic
    &&& rc.appender->Field_0.appender->Merged_0.columns@[0]->Generic_0.conv()
        == Conversion::IntervalMonthsWire
    &&& rc.appender->Field_0.appender->Merged_0.columns@[1] is Generic
    &&& rc.appender->Field_0.appender->Merged_0.columns@[1]->Generic_0.conv()
        == Conversion::IntervalDaysWire
    &&& rc.appender->Field_0.appender->Merged_0.columns@[2] is Generic
    &&& rc.appender->Field_0.appender->Merged_0.columns@[2]->Generic_0.conv()
        == Conversion::IntervalMicrosWire
    &&& rc.schema matches ParquetType::GroupType { name, repetition, logical, converted, fields }
        && name@ == col_last(c) && repetition == Option::Some(Repetition::Optional) && logical
        is None && converted is None && fields@.len() == 3
}

/// A planned `numeric` column under each policy: the DECIMAL forms pick
/// the physical type by precision and scale by the policy; the float
/// forms carry exact decimal text; the text form is the text itself.
pub open spec fn numeric_planned(rc: ResolvedColumn, c: ColumnInfo, s: SchemaSettings) -> bool {
    match s.numeric_handling {
        SchemaSettingsNumericHandling::Decimal => {
            let p = s.decimal_precision as int;
            let sc = s.decimal_scale as int;
            let lt = Option::Some(
                LogicalType::Decimal {
                    scale: s.decimal_scale,
                    precision: s.decimal_precision as i32,
                },
            );
            if p <= 9 {
                planned_generic(
                    rc,
                    c,
                    Conversion::DecimalI32Wire(s.decimal_precision, s.decimal_scale),
                    PhysicalType::Int32,
                    lt,
                    Option::None,
                    -1,
                    p,
                    sc,
                )
            } else if p <= 18 {
                planned_generic(
                    rc,
                    c,
                    Conversion::DecimalI64Wire(s.decimal_precision, s.decimal_scale),
                    PhysicalType::Int64,
                    lt,
                    Option::None,
                    -1,
                    p,
                    sc,
                )
            } else {
                planned_generic(
                    rc,
                    c,
                    Conversion::DecimalBytesWire(s.decimal_precision, s.decimal_scale),
                    PhysicalType::ByteArray,
                    lt,
                    Option::None,
                    -1,
                    p,
                    sc,
                )
            }
        },
        SchemaSettingsNumericHandling::Double => planned_generic(
            rc,
            c,
            Conversion::NumericF64TextWire,
            PhysicalType::Double,
            Option::None,
            Option::None,
            -1,
            0,
            0,
        ),
        SchemaSettingsNumericHandling::Float32 => planned_generic(
            rc,
            c,
            Conversion::NumericF32TextWire,
            PhysicalType::Float,
            Option::None,
            Option::None,
            -1,
            0,
            0,
        ),
        SchemaSettingsNumericHandling::Text => planned_bytes(
            rc,
            c,
            ByteConv::NumericTextWire,
            Option::Some(LogicalType::Text),
            Option::None,
        ),
    }
}

/// Plan a `numeric` column according to the numeric policy.
fn resolve_numeric(s: &SchemaSettings, c: &ColumnInfo) -> (r: Result<ResolvedColumn, String>)
    requires
        c.wf(),
        settings_wf(*s),
    ensures
        r is Ok,
        r matches Result::Ok(rc) ==> numeric_planned(rc, *c, *s),
{
    match s.numeric_handling {
        SchemaSettingsNumericHandling::Decimal => {
            let scale = s.decimal_scale;
            let precision = s.decimal_precision;
            if precision <= 9 {
                Result::Ok(
                    resolve_generic(
                        c,
                        Conversion::DecimalI32Wire(precision, scale),
                        PhysicalType::Int32,
                        Option::Some(
                            LogicalType::Decimal { scale, precision: precision as i32 },
                        ),
                        Option::None,
                        -1,
                        precision as i32,
                        scale,
                    ),
                )
            } else if precision <= 18 {
                Result::Ok(
                    resolve_generic(
                        c,
                        Conversion::DecimalI64Wire(precision, scale),
                        PhysicalType::Int64,
                        Option::Some(
                            LogicalType::Decimal { scale, precision: precision as i32 },
                        ),
                        Option::None,
                        -1,
                        precision as i32,
                        scale,
                    ),
                )
            } else {
                Result::Ok(
                    resolve_generic(
                        c,
                        Conversion::DecimalBytesWire(precision, scale),
                        PhysicalType::ByteArray,
                        Option::Some(
                            LogicalType::Decimal { scale, precision: precision as i32 },
                        ),
                        Option::None,
                        -1,
                        precision as i32,
                        scale,
                    ),
                )
            }
        },
        SchemaSettingsNumericHandling::Double => Result::Ok(
            resolve_generic(
                c,
                Conversion::NumericF64TextWire,
                PhysicalType::Double,
                Option::None,
                Option::None,
                -1,
                0,
                0,
            ),
        ),
        SchemaSettingsNumericHandling::Float32 => Result::Ok(
            resolve_generic(
                c,
                Conversion::NumericF32TextWire,
                PhysicalType::Float,
                Option::None,
                Option::None,
                -1,
                0,
                0,
            ),
        ),
        SchemaSettingsNumericHandling::Text => Result::Ok(
            resolve_bytes(
                c,
                ByteConv::NumericTextWire,
                Option::Some(LogicalType::Text),
                Option::None,
            ),
        ),
    }
}

/// Build one LIST column over an element appender and a source of
/// elements.
fn resolve_list(
    c: &ColumnInfo,
    inner: ColumnAppender,
    allow_element_null: bool,
    source: ArraySource,
    warn_multidim: bool,
) -> (r: ColumnAppender)
    requires
        c.wf(),
        app_wf(inner),
        app_max_rl(inner) == c.repetition_level + 1,
        app_max_dl(inner) == c.definition_level + 2 + if allow_element_null {
            1int
        } else {
            0int
        },
        leaves(inner).len() >= 1,
        forall|i: int| 0 <= i < leaves(inner).len() ==> fresh_leaf(#[trigger] leaves(inner)[i]),
    ensures
        planned(r, c.definition_level + 1, c.repetition_level as int),
        r is Field,
        r->Field_0.column_i == c.col_i,
        r->Field_0.appender is Arr,
        r->Field_0.appender->Arr_0.inner == inner,
        r->Field_0.appender->Arr_0.dl == c.definition_level + 1,
        r->Field_0.appender->Arr_0.rl == c.repetition_level,
        r->Field_0.appender->Arr_0.allow_null,
        r->Field_0.appender->Arr_0.allow_element_null == allow_element_null,
        r->Field_0.appender->Arr_0.source == source,
{
    let arr = ColumnAppender::Arr(
        Box::new(
            ArrayColumnAppender {
                inner,
                dl: c.definition_level + 1,
                rl: c.repetition_level,
                allow_null: true,
                allow_element_null,
                source,
                warn_multidim,
                warned_multidim: false,
                path: c.full_name(),
            },
        ),
    );
    wrap_pg_row_reader(c.col_i, arr)
}

/// The simple type names the planner can map.
pub open spec fn simple_name_supported(n: Seq<char>) -> bool {
    ||| n == "bool"@
    ||| n == "int2"@
    ||| n == "int4"@
    ||| n == "oid"@
    ||| n == "int8"@
    ||| n == "float4"@
    ||| n == "float8"@
    ||| n == "numeric"@
    ||| n == "money"@
    ||| n == "char"@
    ||| n == "bytea"@
    ||| n == "name"@
    ||| n == "text"@
    ||| n == "xml"@
    ||| n == "bpchar"@
    ||| n == "varchar"@
    ||| n == "citext"@
    ||| n == "json"@
    ||| n == "jsonb"@
    ||| n == "timestamptz"@
    ||| n == "timestamp"@
    ||| n == "date"@
    ||| n == "time"@
    ||| n == "uuid"@
    ||| n == "macaddr"@
    ||| n == "inet"@
    ||| n == "bit"@
    ||| n == "varbit"@
    ||| n == "interval"@
    ||| n == "vector"@
    ||| n == "halfvec"@
    ||| n == "sparsevec"@
}

/// What the planner yields for each simple type name under the policy,
/// name by name in the order the planner tries them.
pub open spec fn simple_planned(
    rc: ResolvedColumn,
    t: PgType,
    c: ColumnInfo,
    s: SchemaSettings,
) -> bool {
    let n = t.name@;
    if n == "bool"@ {
        planned_generic(
            rc,
            c,
            Conversion::BoolWire,
            PhysicalType::Boolean,
            Option::None,
            Option::None,
            -1,
            0,
            0,
        )
    } else if n == "int2"@ {
        planned_generic(
            rc,
            c,
            Conversion::I16Wire,
            PhysicalType::Int32,
            Option::Some(LogicalType::Integer { bit_width: 16, is_signed: true }),
            Option::None,
            -1,
            0,
            0,
        )
    } else if n == "int4"@ {
        planned_generic(
            rc,
            c,
            Conversion::I32Wire,
            PhysicalType::Int32,
            Option::None,
            Option::None,
            -1,
            0,
            0,
        )
    } else if n == "oid"@ {
        planned_generic(
            rc,
            c,
            Conversion::U32Wire,
            PhysicalType::Int32,
            Option::Some(LogicalType::Integer { bit_width: 32, is_signed: false }),
            Option::None,
            -1,
            0,
            0,
        )
    } else if n == "int8"@ {
        planned_generic(
            rc,
            c,
            Conversion::I64Wire,
            PhysicalType::Int64,
            Option::None,
            Option::None,
            -1,
            0,
            0,
        )
    } else if n == "float4"@ {
        planned_generic(
            rc,
            c,
            Conversion::F32Wire,
            PhysicalType::Float,
            Option::None,
            Option::None,
            -1,
            0,
            0,
        )
    } else if n == "float8"@ {
        planned_generic(
            rc,
            c,
            Conversion::F64Wire,
            PhysicalType::Double,
            Option::None,
            Option::None,
            -1,
            0,
            0,
        )
    } else if n == "numeric"@ {
        numeric_planned(rc, c, s)
    } else if n == "money"@ {
        planned_generic(
            rc,
            c,
            Conversion::MoneyWire,
            PhysicalType::Int64,
            Option::Some(LogicalType::Decimal { scale: 2, precision: 18 }),
            Option::None,
            -1,
            18,
            2,
        )
    } else if n == "char"@ {
        planned_generic(
            rc,
            c,
            Conversion::CharWire,
            PhysicalType::Int32,
            Option::Some(LogicalType::Integer { bit_width: 8, is_signed: false }),
            Option::None,
            -1,
            0,
            0,
        )
    } else if n == "bytea"@ {
        planned_bytes(rc, c, ByteConv::RawPass, Option::None, Option::None)
    } else if n == "name"@ || n == "text"@ || n == "xml"@ || n == "bpchar"@ || n == "varchar"@ || n
        == "citext"@ {
        planned_bytes(
            rc,
            c,
            ByteConv::Utf8Pass,
            Option::Some(LogicalType::Text),
            Option::Some(ConvertedType::Utf8),
        )
    } else if n == "json"@ {
        planned_bytes(
            rc,
            c,
            ByteConv::Utf8Pass,
            Option::Some(
                match s.json_handling {
                    SchemaSettingsJsonHandling::Text => LogicalType::Text,
                    SchemaSettingsJsonHandling::TextMarkedAsJson => LogicalType::Json,
                },
            ),
            Option::None,
        )
    } else if n == "jsonb"@ {
        planned_bytes(
            rc,
            c,
            ByteConv::JsonbStrip,
            Option::Some(
                match s.json_handling {
                    SchemaSettingsJsonHandling::Text => LogicalType::Text,
                    SchemaSettingsJsonHandling::TextMarkedAsJson => LogicalType::Json,
                },
            ),
            Option::None,
        )
    } else if n == "timestamptz"@ {
        planned_generic(
            rc,
            c,
            Conversion::TimestampWire,
            PhysicalType::Int64,
            Option::Some(LogicalType::TimestampMicros { utc: true }),
            Option::None,
            -1,
            0,
            0,
        )
    } else if n == "timestamp"@ {
        planned_generic(
            rc,
            c,
            Conversion::TimestampWire,
            PhysicalType::Int64,
            Option::Some(LogicalType::TimestampMicros { utc: false }),
            Option::None,
            -1,
            0,
            0,
        )
    } else if n == "date"@ {
        planned_generic(
            rc,
            c,
            Conversion::DateWire,
            PhysicalType::Int32,
            Option::Some(LogicalType::Date),
            Option::None,
            -1,
            0,
            0,
        )
    } else if n == "time"@ {
        planned_generic(
            rc,
            c,
            Conversion::TimeWire,
            PhysicalType::Int64,
            Option::Some(LogicalType::TimeMicros),
            Option::None,
            -1,
            0,
            0,
        )
    } else if n == "uuid"@ {
        planned_fixed(rc, c, FixedConv::Pass, 16, Option::Some(LogicalType::Uuid), Option::None)
    } else if n == "macaddr"@ {
        match s.macaddr_handling {
            SchemaSettingsMacaddrHandling::Text => planned_bytes(
                rc,
                c,
                ByteConv::MacText,
                Option::Some(LogicalType::Text),
                Option::None,
            ),
            SchemaSettingsMacaddrHandling::ByteArray => planned_fixed(
                rc,
                c,
                FixedConv::Pass,
                6,
                Option::None,
                Option::None,
            ),
            SchemaSettingsMacaddrHandling::Int64 => planned_generic(
                rc,
                c,
                Conversion::MacInt64Wire,
                PhysicalType::Int64,
                Option::None,
                Option::None,
                -1,
                0,
                0,
            ),
        }
    } else if n == "inet"@ {
        planned_bytes(rc, c, ByteConv::InetText, Option::Some(LogicalType::Text), Option::None)
    } else if n == "bit"@ || n == "varbit"@ {
        planned_bytes(rc, c, ByteConv::VarbitText, Option::Some(LogicalType::Text), Option::None)
    } else if n == "interval"@ {
        match s.interval_handling {
            SchemaSettingsIntervalHandling::Interval => planned_fixed(
                rc,
                c,
                FixedConv::IntervalFixed,
                12,
                Option::None,
                Option::Some(ConvertedType::Interval),
            ),
            SchemaSettingsIntervalHandling::Struct => interval_struct_planned(rc, c),
        }
    } else if n == "vector"@ {
        vector_planned(
            rc,
            c,
            ArraySource::VectorF32,
            Conversion::F32BitsVal,
            PhysicalType::Float,
            Option::None,
            -1,
        )
    } else if n == "halfvec"@ {
        match s.float16_handling {
            SchemaSettingsFloat16Handling::Float32 => vector_planned(
                rc,
                c,
                ArraySource::VectorF16,
                Conversion::F16ToF32Wire,
                PhysicalType::Float,
                Option::None,
                -1,
            ),
            SchemaSettingsFloat16Handling::Float16 => halfvec_fixed_planned(rc, c),
        }
    } else if n == "sparsevec"@ {
        sparsevec_planned(rc, c)
    } else {
        false
    }
}

/// Plan a simple named type: exactly the table of `simple_planned`, and
/// an error exactly on the names outside it.
#[verifier::loop_isolation(false)]
#[verifier::rlimit(100)]
pub fn map_simple_type(t: &PgType, c: &ColumnInfo, s: &SchemaSettings) -> (r: Result<
    ResolvedColumn,
    String,
>)
    requires
        c.wf(),
        settings_wf(*s),
    ensures
        r is Ok <==> simple_name_supported(t.name@),
        r matches Result::Ok(rc) ==> simple_planned(rc, *t, *c, *s),
        r matches Result::Err(m) ==> m@ == "could not map column "@ + path_join(
            c.names@,
            c.names@.len() as int,
        ) + ", unsupported primitive type: "@ + t.name@,
{
    let name = t.name.as_str();
    if str_eq(name, "bool") {
        Result::Ok(
            resolve_generic(
                c,
                Conversion::BoolWire,
                PhysicalType::Boolean,
                Option::None,
                Option::None,
                -1,
                0,
                0,
            ),
        )
    } else if str_eq(name, "int2") {
        Result::Ok(
            resolve_generic(
                c,
                Conversion::I16Wire,
                PhysicalType::Int32,
                Option::Some(LogicalType::Integer { bit_width: 16, is_signed: true }),
                Option::None,
                -1,
                0,
                0,
            ),
        )
    } else if str_eq(name, "int4") {
        Result::Ok(
            resolve_generic(
                c,
                Conversion::I32Wire,
                PhysicalType::Int32,
                Option::None,
                Option::None,
                -1,
                0,
                0,
            ),
        )
    } else if str_eq(name, "oid") {
        Result::Ok(
            resolve_generic(
                c,
                Conversion::U32Wire,
                PhysicalType::Int32,
                Option::Some(LogicalType::Integer { bit_width: 32, is_signed: false }),
                Option::None,
                -1,
                0,
                0,
            ),
        )
    } else if str_eq(name, "int8") {
        Result::Ok(
            resolve_generic(
                c,
                Conversion::I64Wire,
                PhysicalType::Int64,
                Option::None,
                Option::None,
                -1,
                0,
                0,
            ),
        )
    } else if str_eq(name, "float4") {
        Result::Ok(
            resolve_generic(
                c,
                Conversion::F32Wire,
                PhysicalType::Float,
                Option::None,
                Option::None,
                -1,
                0,
                0,
            ),
        )
    } else if str_eq(name, "float8") {
        Result::Ok(
            resolve_generic(
                c,
                Conversion::F64Wire,
                PhysicalType::Double,
                Option::None,
                Option::None,
                -1,
                0,
                0,
            ),
        )
    } else if str_eq(name, "numeric") {
        resolve_numeric(s, c)
    } else if str_eq(name, "money") {
        Result::Ok(
            resolve_generic(
                c,
                Conversion::MoneyWire,
                PhysicalType::Int64,
                Option::Some(LogicalType::Decimal { scale: 2, precision: 18 }),
                Option::None,
                -1,
                18,
                2,
            ),
        )
    } else if str_eq(name, "char") {
        Result::Ok(
            resolve_generic(
                c,
                Conversion::CharWire,
                PhysicalType::Int32,
                Option::Some(LogicalType::Integer { bit_width: 8, is_signed: false }),
                Option::None,
                -1,
                0,
                0,
            ),
        )
    } else if str_eq(name, "bytea") {
        Result::Ok(resolve_bytes(c, ByteConv::RawPass, Option::None, Option::None))
    } else if str_eq(name, "name") || str_eq(name, "text") || str_eq(name, "xml") || str_eq(
        name,
        "bpchar",
    ) || str_eq(name, "varchar") || str_eq(name, "citext") {
        Result::Ok(
            resolve_bytes(
                c,
                ByteConv::Utf8Pass,
                Option::Some(LogicalType::Text),
                Option::Some(ConvertedType::Utf8),
            ),
        )
    } else if str_eq(name, "json") {
        Result::Ok(
            resolve_bytes(
                c,
                ByteConv::Utf8Pass,
                Option::Some(
                    match s.json_handling {
                        SchemaSettingsJsonHandling::Text => LogicalType::Text,
                        SchemaSettingsJsonHandling::TextMarkedAsJson => LogicalType::Json,
                    },
                ),
                Option::None,
            ),
        )
    } else if str_eq(name, "jsonb") {
        Result::Ok(
            resolve_bytes(
                c,
                ByteConv::JsonbStrip,
                Option::Some(
                    match s.json_handling {
                        SchemaSettingsJsonHandling::Text => LogicalType::Text,
                        SchemaSettingsJsonHandling::TextMarkedAsJson => LogicalType::Json,
                    },
                ),
                Option::None,
            ),
        )
    } else if str_eq(name, "timestamptz") {
        Result::Ok(
            resolve_generic(
                c,
                Conversion::TimestampWire,
                PhysicalType::Int64,
                Option::Some(LogicalType::TimestampMicros { utc: true }),
                Option::None,
                -1,
                0,
                0,
            ),
        )
    } else if str_eq(name, "timestamp") {
        Result::Ok(
            resolve_generic(
                c,
                Conversion::TimestampWire,
                PhysicalType::Int64,
                Option::Some(LogicalType::TimestampMicros { utc: false }),
                Option::None,
                -1,
                0,
                0,
            ),
        )
    } else if str_eq(name, "date") {
        Result::Ok(
            resolve_generic(
                c,
                Conversion::DateWire,
                PhysicalType::Int32,
                Option::Some(LogicalType::Date),
                Option::None,
                -1,
                0,
                0,
            ),
        )
    } else if str_eq(name, "time") {
        Result::Ok(
            resolve_generic(
                c,
                Conversion::TimeWire,
                PhysicalType::Int64,
                Option::Some(LogicalType::TimeMicros),
                Option::None,
                -1,
                0,
                0,
            ),
        )
    } else if str_eq(name, "uuid") {
        Result::Ok(
            resolve_fixed(c, FixedConv::Pass, 16, Option::Some(LogicalType::Uuid), Option::None),
        )
    } else if str_eq(name, "macaddr") {
        match s.macaddr_handling {
            SchemaSettingsMacaddrHandling::Text => Result::Ok(
                resolve_bytes(c, ByteConv::MacText, Option::Some(LogicalType::Text), Option::None),
            ),
            SchemaSettingsMacaddrHandling::ByteArray => Result::Ok(
                resolve_fixed(c, FixedConv::Pass, 6, Option::None, Option::None),
            ),
            SchemaSettingsMacaddrHandling::Int64 => Result::Ok(
                resolve_generic(
                    c,
                    Conversion::MacInt64Wire,
                    PhysicalType::Int64,
                    Option::None,
                    Option::None,
                    -1,
                    0,
                    0,
                ),
            ),
        }
    } else if str_eq(name, "inet") {
        Result::Ok(
            resolve_bytes(c, ByteConv::InetText, Option::Some(LogicalType::Text), Option::None),
        )
    } else if str_eq(name, "bit") || str_eq(name, "varbit") {
        Result::Ok(
            resolve_bytes(c, ByteConv::VarbitText, Option::Some(LogicalType::Text), Option::None),
        )
    } else if str_eq(name, "interval") {
        match s.interval_handling {
            SchemaSettingsIntervalHandling::Interval => Result::Ok(
                resolve_fixed(
                    c,
                    FixedConv::IntervalFixed,
                    12,
                    Option::None,
                    Option::Some(ConvertedType::Interval),
                ),
            ),
            SchemaSettingsIntervalHandling::Struct => Result::Ok(interval_struct_column(c)),
        }
    } else if str_eq(name, "vector") {
        let inner = ColumnAppender::Generic(
            GenericColumnAppender::new(
                c.definition_level + 2,
                c.repetition_level + 1,
                Conversion::F32BitsVal,
            ),
        );
        proof {
            lemma_generic_leaf(inner);
        }
        let app = resolve_list(c, inner, false, ArraySource::VectorF32, false);
        let elem_schema = ParquetType::PrimitiveType {
            name: "element".to_owned(),
            physical: PhysicalType::Float,
            repetition: Repetition::Required,
            logical: Option::None,
            converted: Option::None,
            type_length: -1,
            precision: 0,
            scale: 0,
        };
        Result::Ok(
            ResolvedColumn {
                appender: app,
                schema: make_list_schema(c.col_name(), Repetition::Optional, elem_schema),
            },
        )
    } else if str_eq(name, "halfvec") {
        match s.float16_handling {
            SchemaSettingsFloat16Handling::Float32 => {
                let inner = ColumnAppender::Generic(
                    GenericColumnAppender::new(
                        c.definition_level + 2,
                        c.repetition_level + 1,
                        Conversion::F16ToF32Wire,
                    ),
                );
                proof {
                    lemma_generic_leaf(inner);
                }
                let app = resolve_list(c, inner, false, ArraySource::VectorF16, false);
                let elem_schema = ParquetType::PrimitiveType {
                    name: "element".to_owned(),
                    physical: PhysicalType::Float,
                    repetition: Repetition::Required,
                    logical: Option::None,
                    converted: Option::None,
                    type_length: -1,
                    precision: 0,
                    scale: 0,
                };
                Result::Ok(
                    ResolvedColumn {
                        appender: app,
                        schema: make_list_schema(c.col_name(), Repetition::Optional, elem_schema),
                    },
                )
            },
            SchemaSettingsFloat16Handling::Float16 => {
                let inner = ColumnAppender::Fixed(
                    FixedByteArrayColumnAppender::new(
                        c.definition_level + 2,
                        c.repetition_level + 1,
                        2,
                        false,
                        FixedConv::F16LE,
                    ),
                );
                proof {
                    lemma_fixed_leaf(inner);
                }
                let app = resolve_list(c, inner, false, ArraySource::VectorF16, false);
                let elem_schema = ParquetType::PrimitiveType {
                    name: "element".to_owned(),
                    physical: PhysicalType::FixedLenByteArray,
                    repetition: Repetition::Required,
                    logical: Option::Some(LogicalType::Float16),
                    converted: Option::None,
                    type_length: 2,
                    precision: 0,
                    scale: 0,
                };
                Result::Ok(
                    ResolvedColumn {
                        appender: app,
                        schema: make_list_schema(c.col_name(), Repetition::Optional, elem_schema),
                    },
                )
            },
        }
    } else if str_eq(name, "sparsevec") {
        Result::Ok(sparsevec_column(c))
    } else {
        let mut m = crate::appenders::generic::err_string("could not map column ");
        m.append(c.full_name().as_str());
        m.append(", unsupported primitive type: ");
        m.append(t.name.as_str());
        proof {
            assert(m@ =~= "could not map column "@ + path_join(
                c.names@,
                c.names@.len() as int,
            ) + ", unsupported primitive type: "@ + t.name@);
        }
        Result::Err(m)
    }
}

/// A fresh generic leaf seen through the tree.
proof fn lemma_generic_leaf(a: ColumnAppender)
    requires
        a is Generic,
        a->Generic_0.wf(),
        crate::appenders::records::fresh_leaf(a->Generic_0.leaf()),
    ensures
        app_wf(a),
        leaves(a).len() == 1,
        forall|i: int| 0 <= i < leaves(a).len() ==> fresh_leaf(#[trigger] leaves(a)[i]),
{
    assert(leaves(a)[0] == a->Generic_0.leaf());
}

/// A fresh fixed-width leaf seen through the tree.
proof fn lemma_fixed_leaf(a: ColumnAppender)
    requires
        a is Fixed,
        a->Fixed_0.wf(),
        crate::appenders::records::fresh_leaf(a->Fixed_0.leaf()),
    ensures
        app_wf(a),
        leaves(a).len() == 1,
        forall|i: int| 0 <= i < leaves(a).len() ==> fresh_leaf(#[trigger] leaves(a)[i]),
{
    assert(leaves(a)[0] == a->Fixed_0.leaf());
}

/// The struct form of an interval column: months, days, microseconds.
fn interval_struct_column(c: &ColumnInfo) -> (r: ResolvedColumn)
    requires
        c.wf(),
    ensures
        interval_struct_planned(r, *c),
{
    let months = ColumnAppender::Generic(
        GenericColumnAppender::new(
            c.definition_level + 2,
            c.repetition_level,
            Conversion::IntervalMonthsWire,
        ),
    );
    let days = ColumnAppender::Generic(
        GenericColumnAppender::new(
            c.definition_level + 2,
            c.repetition_level,
            Conversion::IntervalDaysWire,
        ),
    );
    let micros = ColumnAppender::Generic(
        GenericColumnAppender::new(
            c.definition_level + 2,
            c.repetition_level,
            Conversion::IntervalMicrosWire,
        ),
    );
    proof {
        lemma_generic_leaf(months);
        lemma_generic_leaf(days);
        lemma_generic_leaf(micros);
    }
    let mut children: Vec<ColumnAppender> = Vec::new();
    children.push(months);
    children.push(days);
    children.push(micros);
    let merged = merged_of(children, c.definition_level + 1, c.repetition_level);
    let app = wrap_pg_row_reader(c.col_i, merged);
    let mut fields: Vec<ParquetType> = Vec::new();
    fields.push(
        ParquetType::PrimitiveType {
            name: "months".to_owned(),
            physical: PhysicalType::Int32,
            repetition: Repetition::Optional,
            logical: Option::None,
            converted: Option::None,
            type_length: -1,
            precision: 0,
            scale: 0,
        },
    );
    fields.push(
        ParquetType::PrimitiveType {
            name: "days".to_owned(),
            physical: PhysicalType::Int32,
            repetition: Repetition::Optional,
            logical: Option::None,
            converted: Option::None,
            type_length: -1,
            precision: 0,
            scale: 0,
        },
    );
    fields.push(
        ParquetType::PrimitiveType {
            name: "microseconds".to_owned(),
            physical: PhysicalType::Int64,
            repetition: Repetition::Optional,
            logical: Option::None,
            converted: Option::None,
            type_length: -1,
            precision: 0,
            scale: 0,
        },
    );
    ResolvedColumn {
        appender: app,
        schema: ParquetType::GroupType {
            name: c.col_name(),
            repetition: Option::Some(Repetition::Optional),
            logical: Option::None,
            converted: Option::None,
            fields,
        },
    }
}

/// A sparse vector column: a MAP of one-based position to value.
fn sparsevec_column(c: &ColumnInfo) -> (r: ResolvedColumn)
    requires
        c.wf(),
    ensures
        sparsevec_planned(r, *c),
{
    let key = ColumnAppender::Generic(
        GenericColumnAppender::new(
            c.definition_level + 2,
            c.repetition_level + 1,
            Conversion::PairKeyVal,
        ),
    );
    let value = ColumnAppender::Generic(
        GenericColumnAppender::new(
            c.definition_level + 2,
            c.repetition_level + 1,
            Conversion::PairValueVal,
        ),
    );
    proof {
        lemma_generic_leaf(key);
        lemma_generic_leaf(value);
    }
    let mut children: Vec<ColumnAppender> = Vec::new();
    children.push(key);
    children.push(value);
    let merged = merged_of(children, c.definition_level + 2, c.repetition_level + 1);
    let app = resolve_list(c, merged, false, ArraySource::SparseVec, false);
    let mut kv_fields: Vec<ParquetType> = Vec::new();
    kv_fields.push(
        ParquetType::PrimitiveType {
            name: "key".to_owned(),
            physical: PhysicalType::Int32,
            repetition: Repetition::Required,
            logical: Option::Some(LogicalType::Integer { bit_width: 32, is_signed: false }),
            converted: Option::None,
            type_length: -1,
            precision: 0,
            scale: 0,
        },
    );
    kv_fields.push(
        ParquetType::PrimitiveType {
            name: "value".to_owned(),
            physical: PhysicalType::Float,
            repetition: Repetition::Required,
            logical: Option::None,
            converted: Option::None,
            type_length: -1,
            precision: 0,
            scale: 0,
        },
    );
    let mut inner_fields: Vec<ParquetType> = Vec::new();
    inner_fields.push(
        ParquetType::GroupType {
            name: "key_value".to_owned(),
            repetition: Option::Some(Repetition::Repeated),
            logical: Option::None,
            converted: Option::None,
            fields: kv_fields,
        },
    );
    ResolvedColumn {
        appender: app,
        schema: ParquetType::GroupType {
            name: c.col_name(),
            repetition: Option::Some(Repetition::Optional),
            logical: Option::Some(LogicalType::MapType),
            converted: Option::Some(ConvertedType::MapKv),
            fields: inner_fields,
        },
    }
}

/// Merge children that all sit at the same repetition level and at or
/// below the struct's definition level.
fn merged_of(children: Vec<ColumnAppender>, max_dl: i16, max_rl: i16) -> (r: ColumnAppender)
    requires
        0 <= max_dl,
        0 <= max_rl < 0x7fff,
        forall|i: int| 0 <= i < children@.len() ==> app_wf(#[trigger] children@[i]),
        forall|i: int|
            0 <= i < children@.len() ==> app_max_rl(#[trigger] children@[i]) == max_rl as int,
        forall|i: int|
            0 <= i < children@.len() ==> app_max_dl(#[trigger] children@[i]) >= max_dl as int,
        forall|i: int|
            0 <= i < children@.len() ==> leaves(#[trigger] children@[i]).len() >= 1,
        forall|i: int, k: int|
            0 <= i < children@.len() && 0 <= k < leaves(children@[i]).len() ==> fresh_leaf(
                #[trigger] leaves(children@[i])[k],
            ),
        children@.len() >= 1,
    ensures
        planned(r, max_dl as int, max_rl as int),
        r is Merged,
        r->Merged_0.columns@ == children@,
{
    proof {
        lemma_merged_leaves(children@);
    }
    ColumnAppender::Merged(DynamicMergedAppender { columns: children, max_dl, max_rl })
}

/// The leaves of a merged appender are the leaves of its children.
proof fn lemma_merged_leaves(s: Seq<ColumnAppender>)
    requires
        forall|i: int|
            0 <= i < s.len() ==> leaves(#[trigger] s[i]).len() >= 1,
        forall|i: int, k: int|
            0 <= i < s.len() && 0 <= k < leaves(s[i]).len() ==> fresh_leaf(
                #[trigger] leaves(s[i])[k],
            ),
    ensures
        leaves_seq(s).len() >= s.len(),
        forall|k: int| 0 <= k < leaves_seq(s).len() ==> fresh_leaf(#[trigger] leaves_seq(s)[k]),
    decreases s,
{
    if s.len() > 0 {
        assert(forall|j: int| 0 <= j < s.skip(1).len() ==> s.skip(1)[j] == s[j + 1]);
        assert forall|i: int, k: int|
            0 <= i < s.skip(1).len() && 0 <= k < leaves(s.skip(1)[i]).len() implies fresh_leaf(
            #[trigger] leaves(s.skip(1)[i])[k],
        ) by {
            assert(s.skip(1)[i] == s[i + 1]);
            assert(fresh_leaf(leaves(s[i + 1])[k]));
        }
        lemma_merged_leaves(s.skip(1));
        assert(leaves_seq(s) == leaves(s[0]) + leaves_seq(s.skip(1)));
    }
}

/// Whether the planner can map a type at the given depth: a supported
/// simple name, an enum within the label cap, or a structure whose
/// pieces all fit, inside the nesting bounds.  A list cannot sit inside
/// another list's element levels.
pub open spec fn supported_column(
    t: PgType,
    s: SchemaSettings,
    dl: int,
    rl: int,
    is_array: bool,
) -> bool
    decreases t,
{
    match t.kind {
        PgTypeKind::Simple => simple_name_supported(t.name@),
        PgTypeKind::Enum(labels) => match s.enum_handling {
            SchemaSettingsEnumHandling::Int => labels@.len() < 0x7fffffff,
            _ => true,
        },
        PgTypeKind::Domain(e) => supported_column(*e, s, dl, rl, is_array),
        PgTypeKind::Array(e) => !is_array && dl < 0x6ff0 && rl < 0x6ff0 && supported_column(
            *e,
            s,
            dl + 2,
            rl + 1,
            false,
        ),
        PgTypeKind::Range(e) => dl < 0x6ff0 && supported_column(*e, s, dl + 1, rl, false),
        PgTypeKind::Composite(fs) => dl < 0x6ff0 && fs@.len() >= 1 && (forall|i: int|
            0 <= i < fs@.len() ==> supported_column(
                (#[trigger] fs@[i]).ty,
                s,
                dl + 1,
                rl,
                false,
            )),
    }
}

/// What the planner yields for each kind of type: the simple-type table,
/// the enum encodings, and the structural shape of lists, ranges and
/// composites.  A domain is planned exactly as its underlying type.
pub open spec fn column_planned(rc: ResolvedColumn, t: PgType, c: ColumnInfo, s: SchemaSettings) -> bool
    decreases t,
{
    match t.kind {
        PgTypeKind::Simple => simple_planned(rc, t, c, s),
        PgTypeKind::Enum(labels) => match s.enum_handling {
            SchemaSettingsEnumHandling::Int => {
                &&& planned(rc.appender, c.definition_level + 1, c.repetition_level as int)
                &&& rc.appender is Field
                &&& rc.appender->Field_0.column_i == c.col_i
                &&& rc.appender->Field_0.appender is Generic
                &&& (rc.appender->Field_0.appender->Generic_0.conv()
                    matches Conversion::EnumIntWire(lb) && lb@.len() == labels@.len())
                &&& rc.schema matches ParquetType::PrimitiveType {
                    name,
                    physical,
                    repetition,
                    logical,
                    ..
                } && name@ == col_last(c) && physical is Int32 && repetition is Optional && logical
                    == Option::Some(LogicalType::Integer { bit_width: 32, is_signed: false })
            },
            SchemaSettingsEnumHandling::Text => planned_bytes(
                rc,
                c,
                ByteConv::Utf8Pass,
                Option::Some(LogicalType::EnumType),
                Option::None,
            ),
            SchemaSettingsEnumHandling::PlainText => planned_bytes(
                rc,
                c,
                ByteConv::Utf8Pass,
                Option::Some(LogicalType::Text),
                Option::None,
            ),
        },
        PgTypeKind::Domain(e) => column_planned(rc, *e, c, s),
        PgTypeKind::Array(_) => match s.array_handling {
            SchemaSettingsArrayHandling::Plain => {
                &&& planned_list(rc, c, ArraySource::PgArray)
                &&& rc.appender->Field_0.appender->Arr_0.allow_element_null
                &&& list_shaped(rc.schema, col_last(c), Repetition::Optional)
            },
            _ => {
                &&& planned(rc.appender, c.definition_level + 1, c.repetition_level as int)
                &&& rc.appender is Merged
                &&& rc.appender->Merged_0.columns@.len() == (match s.array_handling {
                    SchemaSettingsArrayHandling::DimensionsAndLowerBound => 3int,
                    _ => 2int,
                })
                &&& rc.appender->Merged_0.columns@[0] is Field
                &&& rc.appender->Merged_0.columns@[0]->Field_0.appender is Arr
                &&& arr_source_is(
                    rc.appender->Merged_0.columns@[0]->Field_0.appender->Arr_0.source,
                    ArraySource::PgArray,
                )
                &&& rc.appender->Merged_0.columns@[1] is Field
                &&& rc.appender->Merged_0.columns@[1]->Field_0.appender is Arr
                &&& arr_source_is(
                    rc.appender->Merged_0.columns@[1]->Field_0.appender->Arr_0.source,
                    ArraySource::PgArrayDims,
                )
                &&& rc.schema matches ParquetType::GroupType { name, repetition, fields, .. }
                    && name@ == col_last(c) && repetition == Option::Some(Repetition::Optional)
                    && fields@.len() == (match s.array_handling {
                    SchemaSettingsArrayHandling::DimensionsAndLowerBound => 3int,
                    _ => 2int,
                }) && list_shaped(fields@[0], "data"@, Repetition::Required) && list_shaped(
                    fields@[1],
                    "dims"@,
                    Repetition::Required,
                )
            },
        },
        PgTypeKind::Range(_) => {
            &&& planned(rc.appender, c.definition_level + 1, c.repetition_level as int)
            &&& rc.appender is Field
            &&& rc.appender->Field_0.column_i == c.col_i
            &&& rc.appender->Field_0.appender is Decode
            &&& rc.appender->Field_0.appender->Decode_0.decoder is RangeDecoder
            &&& rc.appender->Field_0.appender->Decode_0.inner is Merged
            &&& rc.appender->Field_0.appender->Decode_0.inner->Merged_0.columns@.len() == 5
            &&& rc.schema matches ParquetType::GroupType { name, repetition, fields, .. } && name@
                == col_last(c) && repetition == Option::Some(Repetition::Optional) && fields@.len()
                == 5 && (fields@[2] matches ParquetType::PrimitiveType {
                name: n2,
                physical: p2,
                ..
            } && n2@ == "lower_inclusive"@ && p2 is Boolean) && (fields@[3]
                matches ParquetType::PrimitiveType { name: n3, physical: p3, .. } && n3@
                == "upper_inclusive"@ && p3 is Boolean) && (fields@[4]
                matches ParquetType::PrimitiveType { name: n4, physical: p4, .. } && n4@
                == "is_empty"@ && p4 is Boolean)
        },
        PgTypeKind::Composite(fs) => {
            &&& planned(rc.appender, c.definition_level + 1, c.repetition_level as int)
            &&& rc.appender is Field
            &&& rc.appender->Field_0.column_i == c.col_i
            &&& rc.appender->Field_0.appender is Decode
            &&& (rc.appender->Field_0.appender->Decode_0.decoder
                matches StructDecoder::RecordDecoder(n) && n as int == fs@.len())
            &&& rc.appender->Field_0.appender->Decode_0.inner is Merged
            &&& rc.appender->Field_0.appender->Decode_0.inner->Merged_0.columns@.len()
                == fs@.len()
            &&& rc.schema matches ParquetType::GroupType { name, repetition, fields, .. } && name@
                == col_last(c) && repetition == Option::Some(Repetition::Optional) && fields@.len()
                == fs@.len()
        },
    }
}

/// Plan one column of any kind: the appender tree and the Parquet node,
/// an error exactly where the type is unsupported or nested too deeply.
#[verifier::loop_isolation(false)]
#[verifier::rlimit(100)]
pub fn map_schema_column(t: &PgType, c: &ColumnInfo, s: &SchemaSettings) -> (r: Result<
    ResolvedColumn,
    String,
>)
    requires
        c.wf(),
        settings_wf(*s),
    ensures
        r is Ok <==> supported_column(
            *t,
            *s,
            c.definition_level as int,
            c.repetition_level as int,
            c.is_array,
        ),
        r matches Result::Ok(rc) ==> planned(
            rc.appender,
            c.definition_level + 1,
            c.repetition_level as int,
        ) && column_planned(rc, *t, *c, *s),
    decreases pg_height(*t), 1int,
{
    match &t.kind {
        PgTypeKind::Simple => map_simple_type(t, c, s),
        PgTypeKind::Enum(labels) => {
            match s.enum_handling {
                SchemaSettingsEnumHandling::Int => {
                    match labels_bytes(labels) {
                        Result::Err(e) => Result::Err(e),
                        Result::Ok(lb) => Result::Ok(
                            resolve_generic(
                                c,
                                Conversion::EnumIntWire(lb),
                                PhysicalType::Int32,
                                Option::Some(
                                    LogicalType::Integer { bit_width: 32, is_signed: false },
                                ),
                                Option::None,
                                -1,
                                0,
                                0,
                            ),
                        ),
                    }
                },
                SchemaSettingsEnumHandling::Text => Result::Ok(
                    resolve_bytes(
                        c,
                        ByteConv::Utf8Pass,
                        Option::Some(LogicalType::EnumType),
                        Option::None,
                    ),
                ),
                SchemaSettingsEnumHandling::PlainText => Result::Ok(
                    resolve_bytes(
                        c,
                        ByteConv::Utf8Pass,
                        Option::Some(LogicalType::Text),
                        Option::None,
                    ),
                ),
            }
        },
        PgTypeKind::Domain(e) => {
            proof {
                assert(pg_height(**e) < pg_height(*t));
            }
            map_schema_column(&**e, c, s)
        },
        PgTypeKind::Array(e) => {
            if c.is_array {
                let mut m = crate::appenders::generic::err_string("could not map column ");
                m.append(c.full_name().as_str());
                m.append(": Parquet cannot nest lists in lists");
                return Result::Err(m);
            }
            if c.definition_level >= 0x6ff0 || c.repetition_level >= 0x6ff0 {
                return Result::Err(
                    crate::appenders::generic::err_string("column is nested too deeply"),
                );
            }
            let list_column = c.nest("list", 0).as_array();
            let element_column = list_column.nest("element", 0);
            proof {
                assert(pg_height(**e) < pg_height(*t));
            }
            let element = match map_schema_column(&**e, &element_column, s) {
                Result::Err(e2) => {
                    return Result::Err(e2);
                },
                Result::Ok(rc) => rc,
            };
            let plain = match s.array_handling {
                SchemaSettingsArrayHandling::Plain => true,
                _ => false,
            };
            let data_schema = if plain {
                make_list_schema(c.col_name(), Repetition::Optional, element.schema)
            } else {
                make_list_schema(
                    "data".to_owned(),
                    Repetition::Required,
                    element.schema,
                )
            };
            let data_appender = resolve_list(c, element.appender, true, ArraySource::PgArray, plain);
            match s.array_handling {
                SchemaSettingsArrayHandling::Plain => Result::Ok(
                    ResolvedColumn { appender: data_appender, schema: data_schema },
                ),
                SchemaSettingsArrayHandling::Dimensions => {
                    let dims = array_sidecar(c, ArraySource::PgArrayDims);
                    let mut children: Vec<ColumnAppender> = Vec::new();
                    children.push(data_appender);
                    children.push(dims);
                    let merged = merged_of(children, c.definition_level + 1, c.repetition_level);
                    let mut fields: Vec<ParquetType> = Vec::new();
                    fields.push(data_schema);
                    fields.push(sidecar_schema(false));
                    Result::Ok(
                        ResolvedColumn {
                            appender: merged,
                            schema: ParquetType::GroupType {
                                name: c.col_name(),
                                repetition: Option::Some(Repetition::Optional),
                                logical: Option::None,
                                converted: Option::None,
                                fields,
                            },
                        },
                    )
                },
                SchemaSettingsArrayHandling::DimensionsAndLowerBound => {
                    let dims = array_sidecar(c, ArraySource::PgArrayDims);
                    let lbs = array_sidecar(c, ArraySource::PgArrayLowerBounds);
                    let mut children: Vec<ColumnAppender> = Vec::new();
                    children.push(data_appender);
                    children.push(dims);
                    children.push(lbs);
                    let merged = merged_of(children, c.definition_level + 1, c.repetition_level);
                    let mut fields: Vec<ParquetType> = Vec::new();
                    fields.push(data_schema);
                    fields.push(sidecar_schema(false));
                    fields.push(sidecar_schema(true));
                    Result::Ok(
                        ResolvedColumn {
                            appender: merged,
                            schema: ParquetType::GroupType {
                                name: c.col_name(),
                                repetition: Option::Some(Repetition::Optional),
                                logical: Option::None,
                                converted: Option::None,
                                fields,
                            },
                        },
                    )
                },
            }
        },
        PgTypeKind::Range(e) => {
            if c.definition_level >= 0x6ff0 {
                return Result::Err(
                    crate::appenders::generic::err_string("column is nested too deeply"),
                );
            }
            proof {
                assert(pg_height(**e) < pg_height(*t));
            }
            let lower = match map_schema_column(&**e, &c.nest("lower", 0), s) {
                Result::Err(e2) => {
                    return Result::Err(e2);
                },
                Result::Ok(rc) => rc,
            };
            let upper = match map_schema_column(&**e, &c.nest("upper", 1), s) {
                Result::Err(e2) => {
                    return Result::Err(e2);
                },
                Result::Ok(rc) => rc,
            };
            let mut children: Vec<ColumnAppender> = Vec::new();
            children.push(lower.appender);
            children.push(upper.appender);
            children.push(range_flag_appender(c, 2));
            children.push(range_flag_appender(c, 3));
            children.push(range_flag_appender(c, 4));
            let merged = merged_of(children, c.definition_level + 1, c.repetition_level);
            let decoded = ColumnAppender::Decode(
                Box::new(
                    DecodeAppender {
                        decoder: StructDecoder::RangeDecoder,
                        inner: merged,
                        max_dl: c.definition_level + 1,
                        max_rl: c.repetition_level,
                    },
                ),
            );
            let app = wrap_pg_row_reader(c.col_i, decoded);
            let mut fields: Vec<ParquetType> = Vec::new();
            fields.push(lower.schema);
            fields.push(upper.schema);
            fields.push(flag_schema("lower_inclusive"));
            fields.push(flag_schema("upper_inclusive"));
            fields.push(flag_schema("is_empty"));
            Result::Ok(
                ResolvedColumn {
                    appender: app,
                    schema: ParquetType::GroupType {
                        name: c.col_name(),
                        repetition: Option::Some(Repetition::Optional),
                        logical: Option::None,
                        converted: Option::None,
                        fields,
                    },
                },
            )
        },
        PgTypeKind::Composite(fs) => {
            if c.definition_level >= 0x6ff0 {
                return Result::Err(
                    crate::appenders::generic::err_string("column is nested too deeply"),
                );
            }
            let ghost fseq = fs@;
            let n = fs.len();
            if n == 0 {
                let mut m = crate::appenders::generic::err_string("could not map column ");
                m.append(c.full_name().as_str());
                m.append(": a composite type without fields");
                return Result::Err(m);
            }
            let mut children: Vec<ColumnAppender> = Vec::new();
            let mut fields_out: Vec<ParquetType> = Vec::new();
            let mut i: usize = 0;
            while i < n
                invariant
                    i <= n,
                    n == fs@.len(),
                    children@.len() == i,
                    fields_out@.len() == i,
                    forall|j: int| 0 <= j < i ==> app_wf(#[trigger] children@[j]),
                    forall|j: int|
                        0 <= j < i ==> app_max_rl(#[trigger] children@[j])
                            == c.repetition_level as int,
                    forall|j: int|
                        0 <= j < i ==> app_max_dl(#[trigger] children@[j]) == c.definition_level
                            + 2,
                    forall|j: int|
                        0 <= j < i ==> leaves(#[trigger] children@[j]).len() >= 1,
                    forall|j: int, k: int|
                        0 <= j < i && 0 <= k < leaves(children@[j]).len() ==> fresh_leaf(
                            #[trigger] leaves(children@[j])[k],
                        ),
                    forall|j: int|
                        0 <= j < i ==> supported_column(
                            (#[trigger] fs@[j]).ty,
                            *s,
                            c.definition_level + 1,
                            c.repetition_level as int,
                            false,
                        ),
                decreases n - i,
            {
                let f = &fs[i];
                proof {
                    lemma_pg_fields_height_elem(fs@, i as int);
                    assert(pg_height(fs@[i as int].ty) < pg_height(*t));
                }
                let fc = c.nest(f.name.as_str(), i);
                let rc = match map_schema_column(&f.ty, &fc, s) {
                    Result::Err(e2) => {
                        return Result::Err(e2);
                    },
                    Result::Ok(rc) => rc,
                };
                children.push(rc.appender);
                fields_out.push(rc.schema);
                i = i + 1;
            }
            let declared = children.len();
            let merged = merged_of(children, c.definition_level + 1, c.repetition_level);
            let decoded = ColumnAppender::Decode(
                Box::new(
                    DecodeAppender {
                        decoder: StructDecoder::RecordDecoder(declared),
                        inner: merged,
                        max_dl: c.definition_level + 1,
                        max_rl: c.repetition_level,
                    },
                ),
            );
            let app = wrap_pg_row_reader(c.col_i, decoded);
            Result::Ok(
                ResolvedColumn {
                    appender: app,
                    schema: ParquetType::GroupType {
                        name: c.col_name(),
                        repetition: Option::Some(Repetition::Optional),
                        logical: Option::None,
                        converted: Option::None,
                        fields: fields_out,
                    },
                },
            )
        },
    }
}

/// A sidecar list column carrying dimensions or lower bounds.
fn array_sidecar(c: &ColumnInfo, source: ArraySource) -> (r: ColumnAppender)
    requires
        c.wf(),
        c.definition_level < 0x6ff0,
        c.repetition_level < 0x6ff0,
    ensures
        planned(r, c.definition_level + 1, c.repetition_level as int),
        r is Field,
        r->Field_0.column_i == c.col_i,
        r->Field_0.appender is Arr,
        r->Field_0.appender->Arr_0.source == source,
{
    let inner = ColumnAppender::Generic(
        GenericColumnAppender::new(
            c.definition_level + 2,
            c.repetition_level + 1,
            Conversion::I32Val,
        ),
    );
    proof {
        lemma_generic_leaf(inner);
    }
    let arr = ColumnAppender::Arr(
        Box::new(
            ArrayColumnAppender {
                inner,
                dl: c.definition_level + 1,
                rl: c.repetition_level,
                allow_null: false,
                allow_element_null: false,
                source,
                warn_multidim: false,
                warned_multidim: false,
                path: c.full_name(),
            },
        ),
    );
    wrap_pg_row_reader(c.col_i, arr)
}

/// The schema node of a sidecar list.
fn sidecar_schema(signed: bool) -> (r: ParquetType)
    ensures
        list_shaped(r, if signed {
            "lower_bound"@
        } else {
            "dims"@
        }, Repetition::Required),
{
    let elem = ParquetType::PrimitiveType {
        name: "element".to_owned(),
        physical: PhysicalType::Int32,
        repetition: Repetition::Required,
        logical: Option::Some(LogicalType::Integer { bit_width: 32, is_signed: signed }),
        converted: Option::None,
        type_length: -1,
        precision: 0,
        scale: 0,
    };
    make_list_schema(
        if signed {
            "lower_bound".to_owned()
        } else {
            "dims".to_owned()
        },
        Repetition::Required,
        elem,
    )
}

/// One flag column of a range struct, read out of the decoded pseudo-row.
fn range_flag_appender(c: &ColumnInfo, cell: usize) -> (r: ColumnAppender)
    requires
        c.wf(),
        c.definition_level < 0x6ff0,
    ensures
        planned(r, c.definition_level + 2, c.repetition_level as int),
        app_max_dl(r) >= c.definition_level + 1,
{
    let g = ColumnAppender::Generic(
        GenericColumnAppender::new(
            c.definition_level + 2,
            c.repetition_level,
            Conversion::BoolWire,
        ),
    );
    proof {
        lemma_generic_leaf(g);
    }
    wrap_pg_row_reader(cell, g)
}

/// The schema node of one range flag.
fn flag_schema(name: &str) -> (r: ParquetType)
    ensures
        r matches ParquetType::PrimitiveType { name: n2, physical, repetition, .. } && n2@
            == name@ && physical is Boolean && repetition is Optional,
{
    ParquetType::PrimitiveType {
        name: name.to_owned(),
        physical: PhysicalType::Boolean,
        repetition: Repetition::Optional,
        logical: Option::None,
        converted: Option::None,
        type_length: -1,
        precision: 0,
        scale: 0,
    }
}

/// Plan the whole result set: one child per selected column under the
/// message root, and the broadcasting appender over them; an error
/// exactly when some column's type is unsupported.
#[verifier::loop_isolation(false)]
pub fn map_schema_root(row: &Vec<PgColumn>, s: &SchemaSettings) -> (r: Result<
    (ColumnAppender, ParquetType),
    String,
>)
    requires
        settings_wf(*s),
    ensures
        r is Ok <==> forall|i: int|
            0 <= i < row@.len() ==> supported_column((#[trigger] row@[i]).ty, *s, 0, 0, false),
        r matches Result::Ok(pair) ==> {
            &&& app_wf(pair.0)
            &&& app_max_dl(pair.0) == 0
            &&& app_max_rl(pair.0) == 0
            &&& forall|i: int|
                0 <= i < leaves(pair.0).len() ==> fresh_leaf(#[trigger] leaves(pair.0)[i])
            &&& leaves(pair.0).len() >= row@.len()
            &&& pair.0 is Merged
            &&& pair.0->Merged_0.columns@.len() == row@.len()
            &&& forall|i: int|
                0 <= i < row@.len() ==> planned(#[trigger] pair.0->Merged_0.columns@[i], 1, 0)
            &&& pair.1 matches ParquetType::GroupType { name, repetition, fields, .. } && name@
                == "root"@ && repetition is None && fields@.len() == row@.len()
        },
{
    let n = row.len();
    let mut children: Vec<ColumnAppender> = Vec::new();
    let mut fields_out: Vec<ParquetType> = Vec::new();
    let mut i: usize = 0;
    while i < n
        invariant
            i <= n,
            n == row@.len(),
            children@.len() == i,
            fields_out@.len() == i,
            forall|j: int| 0 <= j < i ==> app_wf(#[trigger] children@[j]),
            forall|j: int| 0 <= j < i ==> app_max_rl(#[trigger] children@[j]) == 0,
            forall|j: int| 0 <= j < i ==> app_max_dl(#[trigger] children@[j]) == 1,
            forall|j: int| 0 <= j < i ==> leaves(#[trigger] children@[j]).len() >= 1,
            forall|j: int, k: int|
                0 <= j < i && 0 <= k < leaves(children@[j]).len() ==> fresh_leaf(
                    #[trigger] leaves(children@[j])[k],
                ),
            forall|j: int|
                0 <= j < i ==> supported_column((#[trigger] row@[j]).ty, *s, 0, 0, false),
            forall|j: int| 0 <= j < i ==> planned(#[trigger] children@[j], 1, 0),
        decreases n - i,
    {
        let col = &row[i];
        let c = ColumnInfo::root(i, col.name.clone());
        let rc = match map_schema_column(&col.ty, &c, s) {
            Result::Err(e2) => {
                return Result::Err(e2);
            },
            Result::Ok(rc) => rc,
        };
        children.push(rc.appender);
        fields_out.push(rc.schema);
        i = i + 1;
    }
    proof {
        lemma_merged_leaves_count(children@);
    }
    let merged = ColumnAppender::Merged(
        DynamicMergedAppender { columns: children, max_dl: 0, max_rl: 0 },
    );
    let schema = ParquetType::GroupType {
        name: "root".to_owned(),
        repetition: Option::None,
        logical: Option::None,
        converted: Option::None,
        fields: fields_out,
    };
    Result::Ok((merged, schema))
}

/// Each child contributes at least one leaf.
proof fn lemma_merged_leaves_count(s: Seq<ColumnAppender>)
    requires
        forall|i: int| 0 <= i < s.len() ==> leaves(#[trigger] s[i]).len() >= 1,
        forall|i: int, k: int|
            0 <= i < s.len() && 0 <= k < leaves(s[i]).len() ==> fresh_leaf(
                #[trigger] leaves(s[i])[k],
            ),
    ensures
        leaves_seq(s).len() >= s.len(),
        forall|k: int| 0 <= k < leaves_seq(s).len() ==> fresh_leaf(#[trigger] leaves_seq(s)[k]),
    decreases s,
{
    lemma_merged_leaves(s);
}

/// Height of a schema node, the termination measure of its walks.
pub open spec fn pt_height(p: ParquetType) -> nat
    decreases p,
{
    match p {
        ParquetType::PrimitiveType { .. } => 0,
        ParquetType::GroupType { fields, .. } => pts_height(fields@) + 1,
    }
}

pub open spec fn pts_height(s: Seq<ParquetType>) -> nat
    decreases s,
{
    if s.len() == 0 {
        0
    } else if pts_height(s.drop_last()) >= pt_height(s.last()) {
        pts_height(s.drop_last())
    } else {
        pt_height(s.last())
    }
}

pub proof fn lemma_pts_height_elem(s: Seq<ParquetType>, i: int)
    requires
        0 <= i < s.len(),
    ensures
        pt_height(s[i]) <= pts_height(s),
    decreases s,
{
    if i == s.len() - 1 {
        assert(s[i] == s.last());
    } else {
        lemma_pts_height_elem(s.drop_last(), i);
        assert(s.drop_last()[i] == s[i]);
    }
}

/// Append the word for one physical type.
fn push_physical(out: &mut String, p: &PhysicalType) {
    match p {
        PhysicalType::Boolean => out.append("boolean"),
        PhysicalType::Int32 => out.append("int32"),
        PhysicalType::Int64 => out.append("int64"),
        PhysicalType::Float => out.append("float"),
        PhysicalType::Double => out.append("double"),
        PhysicalType::ByteArray => out.append("byte_array"),
        PhysicalType::FixedLenByteArray => out.append("fixed_len_byte_array"),
    }
}

/// Append the word for one repetition.
fn push_repetition(out: &mut String, r: &Repetition) {
    match r {
        Repetition::Required => out.append("required"),
        Repetition::Optional => out.append("optional"),
        Repetition::Repeated => out.append("repeated"),
    }
}

/// Append the word for one logical type.
fn push_logical(out: &mut String, l: &LogicalType) {
    match l {
        LogicalType::Text => out.append("string"),
        LogicalType::EnumType => out.append("enum"),
        LogicalType::Json => out.append("json"),
        LogicalType::Date => out.append("date"),
        LogicalType::Uuid => out.append("uuid"),
        LogicalType::Float16 => out.append("float16"),
        LogicalType::MapType => out.append("map"),
        LogicalType::List => out.append("list"),
        LogicalType::Decimal { scale, precision } => {
            out.append("decimal(");
            crate::postgresutils::push_i64(out, *precision as i64);
            out.append(", ");
            crate::postgresutils::push_i64(out, *scale as i64);
            out.append(")");
        },
        LogicalType::Integer { bit_width, is_signed } => {
            if *is_signed {
                out.append("int");
            } else {
                out.append("uint");
            }
            crate::postgresutils::push_i64(out, *bit_width as i64);
        },
        LogicalType::TimeMicros => out.append("time(us)"),
        LogicalType::TimestampMicros { utc } => {
            if *utc {
                out.append("timestamp(us, utc)");
            } else {
                out.append("timestamp(us)");
            }
        },
    }
}

/// Render a schema tree as indented text, one node per line, for the
/// schema echo before an export starts.
#[verifier::loop_isolation(false)]
pub fn format_schema(schema: &ParquetType, indent: u32) -> (r: String)
    decreases pt_height(*schema), 0nat,
{
    let deeper: u32 = if indent < 100000 {
        indent + 1
    } else {
        indent
    };
    let mut out = String::new();
    match schema {
        ParquetType::PrimitiveType {
            name,
            physical,
            repetition,
            logical,
            converted,
            type_length,
            precision,
            scale,
        } => {
            push_repetition(&mut out, repetition);
            out.append(" ");
            out.append(name.as_str());
            out.append(": ");
            match logical {
                Option::Some(l) => {
                    push_logical(&mut out, l);
                    out.append(" (");
                    push_physical(&mut out, physical);
                    out.append(")");
                },
                Option::None => {
                    push_physical(&mut out, physical);
                },
            }
            if *type_length >= 0 {
                out.append(" [");
                crate::postgresutils::push_i64(&mut out, *type_length as i64);
                out.append("b]");
            }
        },
        ParquetType::GroupType { name, repetition, logical, converted, fields } => {
            match repetition {
                Option::Some(rep) => {
                    push_repetition(&mut out, rep);
                    out.append(" ");
                },
                Option::None => {},
            }
            out.append(name.as_str());
            match logical {
                Option::Some(l) => {
                    out.append(" (");
                    push_logical(&mut out, l);
                    out.append(")");
                },
                Option::None => {},
            }
            proof {
                assert(pt_height(*schema) == pts_height(fields@) + 1);
            }
            let n = fields.len();
            let mut i: usize = 0;
            while i < n
                invariant
                    i <= n,
                    n == fields@.len(),
                decreases n - i,
            {
                out.append("\n");
                let mut k: u32 = 0;
                while k < deeper
                    invariant
                        k <= deeper,
                    decreases deeper - k,
                {
                    out.append("  ");
                    k = k + 1;
                }
                out.append("* ");
                proof {
                    lemma_pts_height_elem(fields@, i as int);
                }
                let sub = format_schema(&fields[i], deeper);
                out.append(sub.as_str());
                i = i + 1;
            }
        },
    }
    out
}

/// Extract column `col_i` of the row or pseudo-row and hand it down.
pub fn wrap_pg_row_reader(col_i: usize, a: ColumnAppender) -> (r: ColumnAppender)
    requires
        app_wf(a),
        app_max_dl(a) >= 1,
    ensures
        app_wf(r),
        app_max_dl(r) == app_max_dl(a),
        app_max_rl(r) == app_max_rl(a),
        leaves(r) == leaves(a),
        crate::appenders::interface::null_bound(r) == app_max_dl(a),
        r is Field,
        r->Field_0.column_i == col_i,
        r->Field_0.appender == a,
{
    let dl = a.max_dl();
    let rl = a.max_rl();
    ColumnAppender::Field(
        Box::new(BasicPgRowColumnAppender { column_i: col_i, appender: a, max_dl: dl, max_rl: rl }),
    )
}

} // verus!
