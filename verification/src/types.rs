//! Arrow data types, and what arrays Arrow can build of them.

use arrow_schema::DataType::{
    Binary, BinaryView, Boolean, Date32, Date64, Decimal128, Decimal256, Decimal32, Decimal64,
    Dictionary, Duration, FixedSizeBinary, FixedSizeList, Float16, Float32, Float64, Int16, Int32,
    Int64, Int8, Interval, LargeBinary, LargeList, LargeListView, LargeUtf8, List, ListView, Null,
    RunEndEncoded, Struct, Time32, Time64, Timestamp, UInt16, UInt32, UInt64, UInt8, Union, Utf8,
    Utf8View,
};
use arrow_schema::TimeUnit::{Microsecond, Millisecond, Nanosecond, Second};
use arrow_schema::UnionMode::{Dense, Sparse};
use arrow_schema::{DataType, Field};
use vstd::prelude::*;

verus! {

/// The unit of a time.
#[derive(Clone, Copy, Debug, PartialEq, Eq, Structural)]
pub enum TimeScale {
    Second,
    Millisecond,
    Microsecond,
    Nanosecond,
}

/// A data type with no other data type inside.
#[derive(Clone, Copy, Debug, PartialEq, Eq, Structural)]
pub enum LeafType {
    Null,
    Boolean,
    Int8,
    Int16,
    Int32,
    Int64,
    UInt8,
    UInt16,
    UInt32,
    UInt64,
    Float16,
    Float32,
    Float64,
    Decimal32,
    Decimal64,
    Decimal128,
    Decimal256,
    Date32,
    Date64,
    Time32(TimeScale),
    Time64(TimeScale),
    Timestamp,
    Duration,
    Interval,
    Binary,
    LargeBinary,
    BinaryView,
    FixedSizeBinary(i32),
    Utf8,
    LargeUtf8,
    Utf8View,
}

/// A data type, one level deep: the fields and data types right inside it are
/// those of Arrow.
pub enum TypeParts<'a> {
    Leaf(LeafType),
    List(&'a Field),
    LargeList(&'a Field),
    ListView(&'a Field),
    LargeListView(&'a Field),
    FixedSizeList(&'a Field, i32),
    Struct(Vec<&'a Field>),
    /// The members, each with its type id.
    SparseUnion(Vec<(i8, &'a Field)>),
    /// The members, each with its type id.
    DenseUnion(Vec<(i8, &'a Field)>),
    Dictionary(&'a DataType, &'a DataType),
    /// A map, by the field of its entries.
    Entries(&'a Field),
    /// The fields of the run ends and of the values.
    RunEndEncoded(&'a Field, &'a Field),
}

/// What is known of a data type.
pub enum TypeModel {
    Leaf(LeafType),
    List(Box<FieldModel>),
    LargeList(Box<FieldModel>),
    ListView(Box<FieldModel>),
    LargeListView(Box<FieldModel>),
    FixedSizeList(Box<FieldModel>, i32),
    Struct(Seq<FieldModel>),
    SparseUnion(Seq<(i8, FieldModel)>),
    DenseUnion(Seq<(i8, FieldModel)>),
    Dictionary(Box<TypeModel>, Box<TypeModel>),
    Entries(Box<FieldModel>),
    RunEndEncoded(Box<FieldModel>, Box<FieldModel>),
}

/// What is known of a field.
pub struct FieldModel {
    /// Its name.
    pub name: Seq<char>,
    /// Its data type, as a number: equal data types have the same number, and
    /// different ones have different numbers.
    pub data_type: int,
    /// What its data type consists of.
    pub inside: TypeModel,
    /// Whether its values may be NULL.
    pub nullable: bool,
    /// Its metadata, as a number.
    pub metadata: int,
}

/// An Arrow data type.
#[verifier::external_type_specification]
#[verifier::external_body]
pub struct ExDataType(DataType);

/// A field of an Arrow schema.
#[verifier::external_type_specification]
#[verifier::external_body]
pub struct ExField(Field);

/// What a field is.
pub uninterp spec fn field_model(f: Field) -> FieldModel;

/// What a data type is.
pub uninterp spec fn type_model(d: DataType) -> TypeModel;

/// A data type as a number, in the sense of `FieldModel`.
pub uninterp spec fn type_number(d: DataType) -> int;

/// What fields are.
pub open spec fn field_models(fields: Seq<Field>) -> Seq<FieldModel> {
    fields.map_values(|f: Field| field_model(f))
}

impl LeafType {
    /// Numbers, booleans, dates and the type of NULL.
    pub open spec fn is_number(self) -> bool {
        match self {
            LeafType::Null | LeafType::Boolean | LeafType::Int8 | LeafType::Int16 | LeafType::Int32
            | LeafType::Int64 | LeafType::UInt8 | LeafType::UInt16 | LeafType::UInt32
            | LeafType::UInt64 | LeafType::Float16 | LeafType::Float32 | LeafType::Float64
            | LeafType::Decimal32 | LeafType::Decimal64 | LeafType::Decimal128
            | LeafType::Decimal256 | LeafType::Date32 | LeafType::Date64 => true,
            _ => false,
        }
    }

    /// Times of day.
    pub open spec fn is_time(self) -> bool {
        self is Time32 || self is Time64
    }

    /// How many bytes the offsets of strings or bytes count; `None` if it is not a
    /// type with such offsets.
    pub open spec fn last_byte(self) -> Option<u64> {
        match self {
            LeafType::Utf8 | LeafType::Binary => Some(0x7fff_ffff),
            LeafType::LargeUtf8 | LeafType::LargeBinary => Some(0x7fff_ffff_ffff_ffff),
            _ => None,
        }
    }

    /// How many bytes the offsets of strings or bytes count; `None` if it is not a
    /// type with such offsets.
    pub fn largest_byte(self) -> (r: Option<u64>)
        ensures
            r == self.last_byte(),
    {
        match self {
            LeafType::Utf8 | LeafType::Binary => Some(0x7fff_ffff),
            LeafType::LargeUtf8 | LeafType::LargeBinary => Some(0x7fff_ffff_ffff_ffff),
            _ => None,
        }
    }

    /// The largest key of this type; `None` if it is not one of keys.
    pub open spec fn last_key(self) -> Option<u64> {
        match self {
            LeafType::Int8 => Some(0x7f),
            LeafType::UInt8 => Some(0xff),
            LeafType::Int16 => Some(0x7fff),
            LeafType::UInt16 => Some(0xffff),
            LeafType::Int32 => Some(0x7fff_ffff),
            LeafType::UInt32 => Some(0xffff_ffff),
            LeafType::Int64 => Some(0x7fff_ffff_ffff_ffff),
            LeafType::UInt64 => Some(0xffff_ffff_ffff_ffff),
            _ => None,
        }
    }

    /// The largest key of this type; `None` if it is not one of keys.
    pub fn largest_key(self) -> (r: Option<u64>)
        ensures
            r == self.last_key(),
    {
        match self {
            LeafType::Int8 => Some(0x7f),
            LeafType::UInt8 => Some(0xff),
            LeafType::Int16 => Some(0x7fff),
            LeafType::UInt16 => Some(0xffff),
            LeafType::Int32 => Some(0x7fff_ffff),
            LeafType::UInt32 => Some(0xffff_ffff),
            LeafType::Int64 => Some(0x7fff_ffff_ffff_ffff),
            LeafType::UInt64 => Some(0xffff_ffff_ffff_ffff),
            _ => None,
        }
    }

    /// The largest run end of this type; `None` if it is not one of run ends.
    pub open spec fn last_run_end(self) -> Option<u64> {
        match self {
            LeafType::Int16 => Some(0x7fff),
            LeafType::Int32 => Some(0x7fff_ffff),
            LeafType::Int64 => Some(0x7fff_ffff_ffff_ffff),
            _ => None,
        }
    }

    /// The largest run end of this type; `None` if it is not one of run ends.
    pub fn largest_run_end(self) -> (r: Option<u64>)
        ensures
            r == self.last_run_end(),
    {
        match self {
            LeafType::Int16 => Some(0x7fff),
            LeafType::Int32 => Some(0x7fff_ffff),
            LeafType::Int64 => Some(0x7fff_ffff_ffff_ffff),
            _ => None,
        }
    }
}

impl TypeModel {
    /// Structs and unions.
    pub open spec fn has_members(self) -> bool {
        self is Struct || self is SparseUnion || self is DenseUnion
    }

    /// The largest run end that a data type of run ends can count to.
    pub open spec fn last_run_end(self) -> Option<u64> {
        match self {
            TypeModel::Leaf(leaf) => leaf.last_run_end(),
            _ => None,
        }
    }

    /// Lists and maps, whose values hold spans that follow each other.
    pub open spec fn is_list(self) -> bool {
        self is List || self is LargeList || self is Entries
    }

    /// Lists whose values hold spans in any order.
    pub open spec fn is_view(self) -> bool {
        self is ListView || self is LargeListView
    }

    /// Unions and runs, which have no null buffer of their own.
    pub open spec fn unmasked(self) -> bool {
        self is SparseUnion || self is DenseUnion || self is RunEndEncoded
    }

    /// How many values the offsets of a list count; `None` if it is none.
    pub open spec fn last_offset(self) -> Option<u64> {
        if self is List || self is Entries || self is ListView {
            Some(0x7fff_ffff)
        } else if self is LargeList || self is LargeListView {
            Some(0x7fff_ffff_ffff_ffff)
        } else {
            None
        }
    }
}

/// The largest run end that a field of run ends can count to.
pub(crate) fn field_last_run_end(ends: &Field) -> (r: Option<u64>)
    ensures
        r == field_model(*ends).inside.last_run_end(),
{
    match parts_of_type(ends.data_type()) {
        TypeParts::Leaf(leaf) => leaf.largest_run_end(),
        _ => None,
    }
}

impl<'a> TypeParts<'a> {
    /// The data type has these parts.
    pub open spec fn describes(self, model: TypeModel) -> bool {
        match self {
            TypeParts::Leaf(leaf) => model == TypeModel::Leaf(leaf),
            TypeParts::List(f) => model == TypeModel::List(Box::new(field_model(*f))),
            TypeParts::LargeList(f) => model == TypeModel::LargeList(Box::new(field_model(*f))),
            TypeParts::ListView(f) => model == TypeModel::ListView(Box::new(field_model(*f))),
            TypeParts::LargeListView(f) => model == TypeModel::LargeListView(
                Box::new(field_model(*f)),
            ),
            TypeParts::FixedSizeList(f, n) => model == TypeModel::FixedSizeList(
                Box::new(field_model(*f)),
                n,
            ),
            TypeParts::Struct(fields) => model == TypeModel::Struct(
                fields@.map_values(|f: &Field| field_model(*f)),
            ),
            TypeParts::SparseUnion(members) => model == TypeModel::SparseUnion(
                members@.map_values(|m: (i8, &Field)| (m.0, field_model(*m.1))),
            ),
            TypeParts::DenseUnion(members) => model == TypeModel::DenseUnion(
                members@.map_values(|m: (i8, &Field)| (m.0, field_model(*m.1))),
            ),
            TypeParts::Dictionary(k, v) => model == TypeModel::Dictionary(
                Box::new(type_model(*k)),
                Box::new(type_model(*v)),
            ),
            TypeParts::Entries(f) => model == TypeModel::Entries(Box::new(field_model(*f))),
            TypeParts::RunEndEncoded(ends, values) => model == TypeModel::RunEndEncoded(
                Box::new(field_model(*ends)),
                Box::new(field_model(*values)),
            ),
        }
    }
}

/// `Field::name`: the field's name.
pub assume_specification[ Field::name ](f: &Field) -> (r: &String)
    ensures
        r@ == field_model(*f).name,
;

/// `Field::data_type`: the field's data type.
pub assume_specification[ Field::data_type ](f: &Field) -> (r: &DataType)
    ensures
        type_model(*r) == field_model(*f).inside,
        type_number(*r) == field_model(*f).data_type,
;

/// `Field::is_nullable`: whether values of the field may be NULL.
pub assume_specification[ Field::is_nullable ](f: &Field) -> (r: bool)
    ensures
        r == field_model(*f).nullable,
;

/// `Field::with_nullable`: the field with another nullability and otherwise
/// the same.
pub assume_specification[ Field::with_nullable ](f: Field, nullable: bool) -> (r: Field)
    ensures
        field_model(r) == (FieldModel { nullable, ..field_model(f) }),
;

/// `Field::clone`: an equal field.
pub assume_specification[ <Field as Clone>::clone ](f: &Field) -> (r: Field)
    ensures
        field_model(r) == field_model(*f),
;

/// Which number, date or other simple `DataType` this is, if it is one.
#[verifier::external_body]
fn number_type(d: &DataType) -> (r: Option<LeafType>)
    ensures
        match r {
            Some(leaf) => type_model(*d) == TypeModel::Leaf(leaf) && leaf.is_number(),
            None => !(type_model(*d) matches TypeModel::Leaf(leaf) && leaf.is_number()),
        },
{
    Some(match d {
        Null => LeafType::Null, Boolean => LeafType::Boolean,
        Int8 => LeafType::Int8, Int16 => LeafType::Int16,
        Int32 => LeafType::Int32, Int64 => LeafType::Int64,
        UInt8 => LeafType::UInt8, UInt16 => LeafType::UInt16,
        UInt32 => LeafType::UInt32, UInt64 => LeafType::UInt64,
        Float16 => LeafType::Float16, Float32 => LeafType::Float32,
        Float64 => LeafType::Float64, Date32 => LeafType::Date32, Date64 => LeafType::Date64,
        Decimal32(..) => LeafType::Decimal32, Decimal64(..) => LeafType::Decimal64,
        Decimal128(..) => LeafType::Decimal128, Decimal256(..) => LeafType::Decimal256,
        _ => return None,
    })
}

/// Which `DataType` of a time of day this is, if it is one.
#[verifier::external_body]
fn time_type(d: &DataType) -> (r: Option<LeafType>)
    ensures
        match r {
            Some(leaf) => type_model(*d) == TypeModel::Leaf(leaf) && leaf.is_time(),
            None => !(type_model(*d) matches TypeModel::Leaf(leaf) && leaf.is_time()),
        },
{
    Some(match d {
        Time32(Second) => LeafType::Time32(TimeScale::Second),
        Time32(Millisecond) => LeafType::Time32(TimeScale::Millisecond),
        Time32(Microsecond) => LeafType::Time32(TimeScale::Microsecond),
        Time32(Nanosecond) => LeafType::Time32(TimeScale::Nanosecond),
        Time64(Second) => LeafType::Time64(TimeScale::Second),
        Time64(Millisecond) => LeafType::Time64(TimeScale::Millisecond),
        Time64(Microsecond) => LeafType::Time64(TimeScale::Microsecond),
        Time64(Nanosecond) => LeafType::Time64(TimeScale::Nanosecond),
        _ => return None,
    })
}

/// Which other `DataType` without a data type inside this is, if it is one:
/// bytes, strings, points in time and spans of it.
#[verifier::external_body]
fn text_type(d: &DataType) -> (r: Option<LeafType>)
    ensures
        match r {
            Some(leaf) => type_model(*d) == TypeModel::Leaf(leaf) && !leaf.is_number()
                && !leaf.is_time(),
            None => !(type_model(*d) matches TypeModel::Leaf(leaf) && !leaf.is_number()
                && !leaf.is_time()),
        },
{
    Some(match d {
        Timestamp(..) => LeafType::Timestamp,
        Duration(_) => LeafType::Duration,
        Interval(_) => LeafType::Interval,
        FixedSizeBinary(n) => LeafType::FixedSizeBinary(*n),
        Binary => LeafType::Binary,
        LargeBinary => LeafType::LargeBinary,
        BinaryView => LeafType::BinaryView,
        Utf8 => LeafType::Utf8,
        LargeUtf8 => LeafType::LargeUtf8,
        Utf8View => LeafType::Utf8View,
        _ => return None,
    })
}

/// The parts of a `DataType` of lists, maps, dictionaries or runs, if it is one.
#[verifier::external_body]
fn list_type(d: &DataType) -> (r: Option<TypeParts<'_>>)
    ensures
        match r {
            Some(parts) => parts.describes(type_model(*d)) && !(parts is Leaf)
                && !type_model(*d).has_members(),
            None => type_model(*d) is Leaf || type_model(*d).has_members(),
        },
{
    Some(match d {
        List(f) => TypeParts::List(f),
        LargeList(f) => TypeParts::LargeList(f),
        ListView(f) => TypeParts::ListView(f),
        LargeListView(f) => TypeParts::LargeListView(f),
        FixedSizeList(f, n) => TypeParts::FixedSizeList(f, *n),
        Dictionary(k, v) => TypeParts::Dictionary(k, v),
        DataType::Map(f, _) => TypeParts::Entries(f),
        RunEndEncoded(ends, values) => TypeParts::RunEndEncoded(ends, values),
        _ => return None,
    })
}

/// The members of a `DataType` of structs or unions, if it is one: `Fields::iter`
/// and `UnionFields::iter`.
#[verifier::external_body]
fn member_type(d: &DataType) -> (r: Option<TypeParts<'_>>)
    ensures
        match r {
            Some(parts) => parts.describes(type_model(*d)) && type_model(*d).has_members(),
            None => !type_model(*d).has_members(),
        },
{
    Some(match d {
        Struct(fields) => TypeParts::Struct(fields.iter().map(|f| f.as_ref()).collect()),
        Union(m, Sparse) => TypeParts::SparseUnion(m.iter().map(|(i, f)| (i, f.as_ref())).collect()),
        Union(m, Dense) => TypeParts::DenseUnion(m.iter().map(|(i, f)| (i, f.as_ref())).collect()),
        _ => return None,
    })
}

/// The parts of a data type.
pub fn parts_of_type(d: &DataType) -> (r: TypeParts<'_>)
    ensures
        r.describes(type_model(*d)),
{
    if let Some(leaf) = number_type(d) {
        return TypeParts::Leaf(leaf);
    }
    if let Some(leaf) = time_type(d) {
        return TypeParts::Leaf(leaf);
    }
    if let Some(leaf) = text_type(d) {
        return TypeParts::Leaf(leaf);
    }
    if let Some(parts) = list_type(d) {
        return parts;
    }
    match member_type(d) {
        Some(parts) => parts,
        None => {
            // Every data type is of one of these.
            assert(false);
            TypeParts::Leaf(LeafType::Null)
        },
    }
}

/// Arrow can build an array that holds NULL `len` times of a data type, as far
/// as its numbers go. Memory is another matter.
///
/// A value takes up to 32 bytes, and the bytes of an array are to be counted by
/// half a `usize`. The positions of a dense union have 31 bits, and run ends what
/// their type has. Values of fixed size may take no more bytes than 31 bits count.
/// The keys of a dictionary are integers, the entries of a map have two parts, and
/// a time of day has a unit that goes with its width.
pub open spec fn nulls_fit(t: TypeModel, len: nat) -> bool
    decreases t,
{
    len <= usize::MAX / 128 && match t {
        TypeModel::Leaf(LeafType::FixedSizeBinary(n)) => n >= 0 && n * len <= i32::MAX,
        TypeModel::Leaf(LeafType::Time32(unit)) => unit is Second || unit is Millisecond,
        TypeModel::Leaf(LeafType::Time64(unit)) => unit is Microsecond || unit is Nanosecond,
        TypeModel::Leaf(_) => true,
        TypeModel::List(f) => nulls_fit(f.inside, 0),
        TypeModel::LargeList(f) => nulls_fit(f.inside, 0),
        TypeModel::ListView(f) => nulls_fit(f.inside, 0),
        TypeModel::LargeListView(f) => nulls_fit(f.inside, 0),
        TypeModel::FixedSizeList(f, n) => n >= 0 && nulls_fit(f.inside, (n * len) as nat),
        TypeModel::Struct(fields) => forall|k: int|
            0 <= k < fields.len() ==> nulls_fit((#[trigger] fields[k]).inside, len),
        TypeModel::SparseUnion(members) => members.len() > 0 && forall|k: int|
            0 <= k < members.len() ==> (#[trigger] members[k]).0 >= 0 && nulls_fit(
                members[k].1.inside,
                len,
            ),
        TypeModel::DenseUnion(members) => members.len() > 0 && len <= i32::MAX && forall|k: int|
            0 <= k < members.len() ==> (#[trigger] members[k]).0 >= 0 && nulls_fit(
                members[k].1.inside,
                if k == 0 {
                    len
                } else {
                    0
                },
            ),
        TypeModel::Dictionary(k, v) => (*k matches TypeModel::Leaf(leaf) && leaf.last_key() is Some)
            && nulls_fit(*v, 0),
        TypeModel::Entries(f) => (f.inside matches TypeModel::Struct(parts) && parts.len() == 2)
            && nulls_fit(f.inside, 0),
        TypeModel::RunEndEncoded(ends, values) => (ends.inside.last_run_end() matches Some(last)
            && len <= last) && nulls_fit(
            values.inside,
            if len == 0 {
                0
            } else {
                1
            },
        ),
    }
}

/// A product of a number of 32 bits and one of 64.
pub(crate) fn long_product(a: u32, b: u64) -> (r: u128)
    ensures
        r == a * b,
{
    assert(a * b <= 0xffff_ffff * 0xffff_ffff_ffff_ffff) by (nonlinear_arith)
        requires
            a <= 0xffff_ffff,
            b <= 0xffff_ffff_ffff_ffff,
    ;
    a as u128 * b as u128
}

/// Whether Arrow can build an array that holds NULL `len` times of a data type.
pub fn can_hold_nulls(d: &DataType, len: u64) -> (r: bool)
    ensures
        r == nulls_fit(type_model(*d), len as nat),
    decreases type_model(*d),
{
    let ghost model = type_model(*d);
    if len > (usize::MAX / 128) as u64 {
        return false;
    }
    match parts_of_type(d) {
        TypeParts::Leaf(leaf) => match leaf {
            LeafType::FixedSizeBinary(n) => {
                if n < 0 {
                    return false;
                }
                long_product(n as u32, len) <= 0x7fff_ffff
            },
            LeafType::Time32(TimeScale::Microsecond | TimeScale::Nanosecond) => false,
            LeafType::Time64(TimeScale::Second | TimeScale::Millisecond) => false,
            _ => true,
        },
        TypeParts::List(f) => {
            assert(decreases_to!(model => model->List_0.inside));
            can_hold_nulls(f.data_type(), 0)
        },
        TypeParts::LargeList(f) => {
            assert(decreases_to!(model => model->LargeList_0.inside));
            can_hold_nulls(f.data_type(), 0)
        },
        TypeParts::ListView(f) => {
            assert(decreases_to!(model => model->ListView_0.inside));
            can_hold_nulls(f.data_type(), 0)
        },
        TypeParts::LargeListView(f) => {
            assert(decreases_to!(model => model->LargeListView_0.inside));
            can_hold_nulls(f.data_type(), 0)
        },
        TypeParts::FixedSizeList(f, n) => {
            if n < 0 {
                return false;
            }
            let values: u128 = long_product(n as u32, len);
            assert(decreases_to!(model => model->FixedSizeList_0.inside));
            if values > 0xffff_ffff_ffff_ffff {
                assert(!nulls_fit(field_model(*f).inside, values as nat));
                return false;
            }
            can_hold_nulls(f.data_type(), values as u64)
        },
        TypeParts::Struct(fields) => {
            let count: usize = fields.len();
            let ghost models = type_model(*d)->Struct_0;
            for k in 0..count
                invariant
                    count == fields.len(),
                    type_model(*d) == TypeModel::Struct(models),
                    models == fields@.map_values(|f: &Field| field_model(*f)),
                    forall|j: int| 0 <= j < k ==> nulls_fit((#[trigger] models[j]).inside, len as nat),
            {
                assert(models[k as int] == field_model(*fields@[k as int]));
                assert(decreases_to!(type_model(*d) => type_model(*d)->Struct_0[k as int].inside));
                if !can_hold_nulls(fields[k].data_type(), len) {
                    return false;
                }
            }
            true
        },
        TypeParts::SparseUnion(members) => {
            let count: usize = members.len();
            let ghost models = type_model(*d)->SparseUnion_0;
            for k in 0..count
                invariant
                    count == members.len(),
                    type_model(*d) == TypeModel::SparseUnion(models),
                    models == members@.map_values(|m: (i8, &Field)| (m.0, field_model(*m.1))),
                    forall|j: int|
                        0 <= j < k ==> (#[trigger] models[j]).0 >= 0 && nulls_fit(
                            models[j].1.inside,
                            len as nat,
                        ),
            {
                assert(models[k as int] == (members@[k as int].0, field_model(
                    *members@[k as int].1,
                )));
                assert(decreases_to!(
                    type_model(*d) => type_model(*d)->SparseUnion_0[k as int].1.inside
                ));
                if members[k].0 < 0 || !can_hold_nulls(members[k].1.data_type(), len) {
                    return false;
                }
            }
            count > 0
        },
        TypeParts::DenseUnion(members) => {
            let count: usize = members.len();
            let ghost models = type_model(*d)->DenseUnion_0;
            for k in 0..count
                invariant
                    count == members.len(),
                    type_model(*d) == TypeModel::DenseUnion(models),
                    models == members@.map_values(|m: (i8, &Field)| (m.0, field_model(*m.1))),
                    forall|j: int|
                        0 <= j < k ==> (#[trigger] models[j]).0 >= 0 && nulls_fit(
                            models[j].1.inside,
                            if j == 0 {
                                len as nat
                            } else {
                                0
                            },
                        ),
            {
                assert(models[k as int] == (members@[k as int].0, field_model(
                    *members@[k as int].1,
                )));
                assert(decreases_to!(
                    type_model(*d) => type_model(*d)->DenseUnion_0[k as int].1.inside
                ));
                let nulls: u64 = if k == 0 {
                    len
                } else {
                    0
                };
                if members[k].0 < 0 || !can_hold_nulls(members[k].1.data_type(), nulls) {
                    return false;
                }
            }
            count > 0 && len <= 0x7fff_ffff
        },
        TypeParts::Dictionary(k, v) => {
            assert(decreases_to!(model => *model->Dictionary_1));
            match parts_of_type(k) {
                TypeParts::Leaf(leaf) => leaf.largest_key().is_some() && can_hold_nulls(v, 0),
                _ => false,
            }
        },
        TypeParts::Entries(f) => {
            assert(decreases_to!(model => model->Entries_0.inside));
            match parts_of_type(f.data_type()) {
                TypeParts::Struct(parts) => parts.len() == 2 && can_hold_nulls(f.data_type(), 0),
                _ => false,
            }
        },
        TypeParts::RunEndEncoded(ends, values) => {
            assert(decreases_to!(model => model->RunEndEncoded_1.inside));
            let last: Option<u64> = field_last_run_end(ends);
            let nulls: u64 = if len == 0 {
                0
            } else {
                1
            };
            match last {
                None => false,
                Some(last) => len <= last && can_hold_nulls(values.data_type(), nulls),
            }
        },
    }
}

} // verus!
