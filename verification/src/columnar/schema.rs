//! Data types, fields and schemas.

use crate::error::Error;
use crate::utils::text::str_eq;
use vstd::prelude::*;

verus! {

/// The type of the values of a column.
#[derive(Debug, Clone, Copy, PartialEq, Eq, Structural)]
pub enum DataType {
    /// Boolean, one byte.
    Boolean,
    /// 8-bit signed integer.
    Int8,
    /// 8-bit unsigned integer.
    UInt8,
    /// 16-bit signed integer.
    Int16,
    /// 16-bit unsigned integer.
    UInt16,
    /// 32-bit signed integer.
    Int32,
    /// 32-bit unsigned integer.
    UInt32,
    /// 64-bit signed integer.
    Int64,
    /// 64-bit unsigned integer.
    UInt64,
    /// 32-bit floating point.
    Float32,
    /// 64-bit floating point.
    Float64,
    /// UTF-8 string of any length.
    String,
    /// Bytes of any length.
    Binary,
    /// Days since the epoch, 32 bits.
    Date,
    /// Milliseconds since the epoch, 64 bits.
    Timestamp,
    /// Bytes of the given fixed length.
    FixedBinary(usize),
    /// Decimal with the given precision and scale, 16 bytes.
    Decimal(usize, usize),
}

impl DataType {
    /// The width in bytes of one value; `None` for the variable-length types.
    pub open spec fn spec_size(&self) -> Option<usize> {
        match *self {
            DataType::Boolean | DataType::Int8 | DataType::UInt8 => Some(1usize),
            DataType::Int16 | DataType::UInt16 => Some(2usize),
            DataType::Int32 | DataType::UInt32 | DataType::Float32 | DataType::Date => Some(
                4usize,
            ),
            DataType::Int64 | DataType::UInt64 | DataType::Float64 | DataType::Timestamp => Some(
                8usize,
            ),
            DataType::String | DataType::Binary => None,
            DataType::FixedBinary(size) => Some(size),
            DataType::Decimal(_, _) => Some(16usize),
        }
    }

    /// Whether values of the type have no fixed width.
    pub open spec fn spec_is_variable_length(&self) -> bool {
        self is String || self is Binary
    }

    /// Whether the type is an integer type.
    pub open spec fn spec_is_integer(&self) -> bool {
        self is Int8 || self is UInt8 || self is Int16 || self is UInt16 || self is Int32
            || self is UInt32 || self is Int64 || self is UInt64
    }

    /// Whether the type is a floating-point type.
    pub open spec fn spec_is_float(&self) -> bool {
        self is Float32 || self is Float64
    }

    /// Whether the type is a number type.
    pub open spec fn spec_is_numeric(&self) -> bool {
        self.spec_is_integer() || self.spec_is_float() || self is Decimal
    }

    /// The width in bytes of one value; `None` for the variable-length types.
    #[verifier::when_used_as_spec(spec_size)]
    pub fn size(&self) -> (r: Option<usize>)
        ensures
            r == self.spec_size(),
            r is None <==> self.spec_is_variable_length(),
    {
        match self {
            DataType::Boolean => Some(1),
            DataType::Int8 => Some(1),
            DataType::UInt8 => Some(1),
            DataType::Int16 => Some(2),
            DataType::UInt16 => Some(2),
            DataType::Int32 => Some(4),
            DataType::UInt32 => Some(4),
            DataType::Int64 => Some(8),
            DataType::UInt64 => Some(8),
            DataType::Float32 => Some(4),
            DataType::Float64 => Some(8),
            DataType::String => None,
            DataType::Binary => None,
            DataType::Date => Some(4),
            DataType::Timestamp => Some(8),
            DataType::FixedBinary(size) => Some(*size),
            DataType::Decimal(_, _) => Some(16),
        }
    }

    /// Whether the type is a number type.
    #[verifier::when_used_as_spec(spec_is_numeric)]
    pub fn is_numeric(&self) -> (r: bool)
        ensures
            r == self.spec_is_numeric(),
    {
        match self {
            DataType::Int8
            | DataType::UInt8
            | DataType::Int16
            | DataType::UInt16
            | DataType::Int32
            | DataType::UInt32
            | DataType::Int64
            | DataType::UInt64
            | DataType::Float32
            | DataType::Float64
            | DataType::Decimal(_, _) => true,
            _ => false,
        }
    }

    /// Whether the type is an integer type.
    #[verifier::when_used_as_spec(spec_is_integer)]
    pub fn is_integer(&self) -> (r: bool)
        ensures
            r == self.spec_is_integer(),
    {
        match self {
            DataType::Int8
            | DataType::UInt8
            | DataType::Int16
            | DataType::UInt16
            | DataType::Int32
            | DataType::UInt32
            | DataType::Int64
            | DataType::UInt64 => true,
            _ => false,
        }
    }

    /// Whether the type is a floating-point type.
    #[verifier::when_used_as_spec(spec_is_float)]
    pub fn is_float(&self) -> (r: bool)
        ensures
            r == self.spec_is_float(),
    {
        match self {
            DataType::Float32 | DataType::Float64 => true,
            _ => false,
        }
    }

    /// Whether values of the type have no fixed width.
    #[verifier::when_used_as_spec(spec_is_variable_length)]
    pub fn is_variable_length(&self) -> (r: bool)
        ensures
            r == self.spec_is_variable_length(),
    {
        match self {
            DataType::String | DataType::Binary => true,
            _ => false,
        }
    }
}

/// One key of a metadata map with its value.
#[derive(Debug)]
pub struct MetadataEntry {
    /// The key.
    pub key: String,
    /// The value.
    pub value: String,
}

/// A map from text keys to text values, kept in the order of insertion.
#[derive(Debug)]
pub struct Metadata {
    entries: Vec<MetadataEntry>,
}

/// The map that a list of pairs stands for: a later pair replaces an earlier
/// one with the same key.
pub open spec fn pairs_map(pairs: Seq<(Seq<char>, Seq<char>)>) -> Map<Seq<char>, Seq<char>>
    decreases pairs.len(),
{
    if pairs.len() == 0 {
        Map::empty()
    } else {
        pairs_map(pairs.drop_last()).insert(pairs.last().0, pairs.last().1)
    }
}

/// The keys and values of a list of entries.
pub open spec fn entries_pairs(entries: Seq<MetadataEntry>) -> Seq<(Seq<char>, Seq<char>)> {
    entries.map_values(|e: MetadataEntry| (e.key@, e.value@))
}

impl View for Metadata {
    type V = Map<Seq<char>, Seq<char>>;

    closed spec fn view(&self) -> Map<Seq<char>, Seq<char>> {
        pairs_map(entries_pairs(self.entries@))
    }
}

impl Metadata {
    /// The entries in the order of insertion, as keys and values.
    pub closed spec fn spec_entries(&self) -> Seq<(Seq<char>, Seq<char>)> {
        entries_pairs(self.entries@)
    }

    /// The map is the map of the entries.
    pub proof fn lemma_view(&self)
        ensures
            self@ == pairs_map(self.spec_entries()),
    {
    }

    /// The entries in the order of insertion.
    pub fn entries(&self) -> (r: &Vec<MetadataEntry>)
        ensures
            entries_pairs(r@) == self.spec_entries(),
    {
        &self.entries
    }

    /// The metadata of the given entries, inserted in their order.
    pub fn from_entries(entries: Vec<MetadataEntry>) -> (r: Metadata)
        ensures
            r.spec_entries() == entries_pairs(entries@),
    {
        Metadata { entries }
    }

    /// The empty map.
    pub fn new() -> (r: Metadata)
        ensures
            r@ == Map::<Seq<char>, Seq<char>>::empty(),
            r.spec_entries() == Seq::<(Seq<char>, Seq<char>)>::empty(),
    {
        let r = Metadata { entries: Vec::new() };
        assert(r.spec_entries() =~= Seq::<(Seq<char>, Seq<char>)>::empty());
        r
    }

    /// Sets `key` to `value`, replacing what `key` had.
    pub fn insert(&mut self, key: &str, value: &str)
        ensures
            final(self)@ == old(self)@.insert(key@, value@),
            final(self).spec_entries() == old(self).spec_entries().push((key@, value@)),
    {
        let entry = MetadataEntry { key: key.to_owned(), value: value.to_owned() };
        self.entries.push(entry);
        assert(self.spec_entries() =~= old(self).spec_entries().push((key@, value@)));
        assert(self.spec_entries().drop_last() =~= old(self).spec_entries());
    }

    /// The value that `key` has, if any.
    pub fn get(&self, key: &str) -> (r: Option<&str>)
        ensures
            match r {
                Some(v) => self@.contains_key(key@) && self@[key@] == v@,
                None => !self@.contains_key(key@),
            },
    {
        let ghost pairs = self.spec_entries();
        let mut i: usize = self.entries.len();
        assert(pairs.subrange(0, i as int) =~= pairs);
        while i > 0
            invariant
                i <= self.entries@.len(),
                pairs == entries_pairs(self.entries@),
                self@ == pairs_map(pairs),
                self@.contains_key(key@) <==> pairs_map(pairs.subrange(0, i as int)).contains_key(
                    key@,
                ),
                self@.contains_key(key@) ==> self@[key@] == pairs_map(
                    pairs.subrange(0, i as int),
                )[key@],
            decreases i,
        {
            i -= 1;
            proof {
                let prefix = pairs.subrange(0, i + 1);
                assert(prefix.drop_last() =~= pairs.subrange(0, i as int));
                assert(prefix.last() == pairs[i as int]);
            }
            if str_eq(self.entries[i].key.as_str(), key) {
                return Some(self.entries[i].value.as_str());
            }
        }
        None
    }
}

impl Clone for Metadata {
    fn clone(&self) -> (r: Metadata)
        ensures
            r@ == self@,
            r.spec_entries() == self.spec_entries(),
    {
        let mut entries: Vec<MetadataEntry> = Vec::new();
        let mut i: usize = 0;
        while i < self.entries.len()
            invariant
                i <= self.entries@.len(),
                entries@.len() == i,
                forall|j: int|
                    0 <= j < i ==> entries@[j].key@ == self.entries@[j].key@ && entries@[j].value@
                        == self.entries@[j].value@,
            decreases self.entries@.len() - i,
        {
            entries.push(
                MetadataEntry {
                    key: self.entries[i].key.clone(),
                    value: self.entries[i].value.clone(),
                },
            );
            i += 1;
        }
        assert(entries_pairs(entries@) =~= entries_pairs(self.entries@));
        Metadata { entries }
    }
}

/// What a field is, in plain values.
pub struct FieldView {
    /// The name.
    pub name: Seq<char>,
    /// The type of the values.
    pub data_type: DataType,
    /// Whether a value may be null.
    pub nullable: bool,
    /// The bytes of the default value, if there is one.
    pub default_value: Option<Seq<u8>>,
    /// The metadata.
    pub metadata: Map<Seq<char>, Seq<char>>,
}

/// One field of a schema.
#[derive(Debug)]
pub struct Field {
    /// The name.
    pub name: String,
    /// The type of the values.
    pub data_type: DataType,
    /// Whether a value may be null.
    pub nullable: bool,
    /// The bytes of the default value, if there is one.
    pub default_value: Option<Vec<u8>>,
    /// The metadata.
    pub metadata: Metadata,
}

impl View for Field {
    type V = FieldView;

    open spec fn view(&self) -> FieldView {
        FieldView {
            name: self.name@,
            data_type: self.data_type,
            nullable: self.nullable,
            default_value: match self.default_value {
                Some(v) => Some(v@),
                None => None,
            },
            metadata: self.metadata@,
        }
    }
}

impl Clone for Field {
    fn clone(&self) -> (r: Field)
        ensures
            r@ == self@,
            r.metadata.spec_entries() == self.metadata.spec_entries(),
    {
        let default_value: Option<Vec<u8>> = match &self.default_value {
            Some(v) => {
                let c: Vec<u8> = v.clone();
                assert(c@ =~= v@);
                Some(c)
            },
            None => None,
        };
        Field {
            name: self.name.clone(),
            data_type: self.data_type,
            nullable: self.nullable,
            default_value,
            metadata: self.metadata.clone(),
        }
    }
}

impl Field {
    /// A field without default value and metadata.
    pub fn new(name: &str, data_type: DataType, nullable: bool) -> (r: Field)
        ensures
            r@ == (FieldView {
                name: name@,
                data_type,
                nullable,
                default_value: None,
                metadata: Map::empty(),
            }),
    {
        Field {
            name: name.to_owned(),
            data_type,
            nullable,
            default_value: None,
            metadata: Metadata::new(),
        }
    }

    /// A field with a default value.
    pub fn with_default(name: &str, data_type: DataType, nullable: bool, default_value: Vec<u8>) -> (r:
        Field)
        ensures
            r@ == (FieldView {
                name: name@,
                data_type,
                nullable,
                default_value: Some(default_value@),
                metadata: Map::empty(),
            }),
    {
        Field {
            name: name.to_owned(),
            data_type,
            nullable,
            default_value: Some(default_value),
            metadata: Metadata::new(),
        }
    }

    /// The field with `key` set to `value` in its metadata.
    pub fn with_metadata(self, key: &str, value: &str) -> (r: Field)
        ensures
            r@ == (FieldView { metadata: self@.metadata.insert(key@, value@), ..self@ }),
    {
        let mut field = self;
        field.metadata.insert(key, value);
        field
    }
}

/// What a schema is, in plain values.
pub struct SchemaView {
    /// The fields, in order.
    pub fields: Seq<FieldView>,
    /// The metadata.
    pub metadata: Map<Seq<char>, Seq<char>>,
}

/// Whether no two of the fields share a name.
pub open spec fn names_distinct(fields: Seq<Field>) -> bool {
    forall|i: int, j: int| 0 <= i < j < fields.len() ==> fields[i].name@ != fields[j].name@
}

/// The first index at or after `from` whose field is named `name`.
pub open spec fn first_named(fields: Seq<Field>, name: Seq<char>, from: int) -> Option<int>
    decreases fields.len() - from,
{
    if from < 0 || from >= fields.len() {
        None
    } else if fields[from].name@ == name {
        Some(from)
    } else {
        first_named(fields, name, from + 1)
    }
}

/// `first_named` finds a field with the name if there is one at or after `from`.
pub proof fn lemma_first_named(fields: Seq<Field>, name: Seq<char>, from: int)
    requires
        0 <= from,
    ensures
        match first_named(fields, name, from) {
            Some(i) => from <= i < fields.len() && fields[i].name@ == name && forall|j: int|
                from <= j < i ==> fields[j].name@ != name,
            None => forall|j: int| from <= j < fields.len() ==> fields[j].name@ != name,
        },
    decreases fields.len() - from,
{
    if from < fields.len() && fields[from].name@ != name {
        lemma_first_named(fields, name, from + 1);
    }
}

/// An ordered list of fields with distinct names.
#[derive(Debug)]
pub struct Schema {
    fields: Vec<Field>,
    metadata: Metadata,
}

impl View for Schema {
    type V = SchemaView;

    closed spec fn view(&self) -> SchemaView {
        SchemaView {
            fields: self.fields@.map_values(|f: Field| f@),
            metadata: self.metadata@,
        }
    }
}

impl Clone for Schema {
    fn clone(&self) -> (r: Schema)
        ensures
            r.wf(),
            r@ == self@,
    {
        proof {
            use_type_invariant(self);
        }
        let mut fields: Vec<Field> = Vec::new();
        let mut i: usize = 0;
        while i < self.fields.len()
            invariant
                i <= self.fields@.len(),
                fields@.len() == i,
                forall|j: int| 0 <= j < i ==> (#[trigger] fields@[j])@ == self.fields@[j]@,
            decreases self.fields@.len() - i,
        {
            fields.push(self.fields[i].clone());
            i += 1;
        }
        let r = Schema { fields, metadata: self.metadata.clone() };
        assert(r@.fields =~= self@.fields);
        r
    }
}

impl Schema {
    /// The invariant of a schema: no two fields share a name.
    #[verifier::type_invariant]
    pub closed spec fn wf(self) -> bool {
        names_distinct(self.fields@)
    }

    /// The fields, in order.
    pub closed spec fn spec_fields(self) -> Seq<Field> {
        self.fields@
    }

    /// The metadata.
    pub closed spec fn spec_metadata(self) -> Metadata {
        self.metadata
    }

    /// A schema of the given fields with the given metadata; rejected when
    /// two fields share a name.
    pub fn from_parts(fields: Vec<Field>, metadata: Metadata) -> (r: Result<Schema, Error>)
        ensures
            match r {
                Ok(s) => names_distinct(fields@) && s.wf() && s.spec_fields() == fields@
                    && s.spec_metadata() == metadata,
                Err(e) => !names_distinct(fields@) && e is InvalidArgument,
            },
    {
        match Schema::new(fields) {
            Ok(schema) => {
                let Schema { fields, metadata: _ } = schema;
                Ok(Schema { fields, metadata })
            },
            Err(e) => Err(e),
        }
    }

    /// The index of the field named `name`, if there is one.
    pub open spec fn spec_field_index(self, name: Seq<char>) -> Option<int> {
        first_named(self.spec_fields(), name, 0)
    }

    /// The view lists the views of the fields.
    pub proof fn lemma_view(self)
        ensures
            self@.fields.len() == self.spec_fields().len(),
            forall|i: int|
                0 <= i < self.spec_fields().len() ==> #[trigger] self@.fields[i]
                    == self.spec_fields()[i]@,
    {
    }

    /// The view gives the map of the metadata.
    pub proof fn lemma_metadata(self)
        ensures
            self@.metadata == self.spec_metadata()@,
    {
    }

    /// A schema of the given fields; rejected when two fields share a name.
    pub fn new(fields: Vec<Field>) -> (r: Result<Schema, Error>)
        ensures
            match r {
                Ok(s) => names_distinct(fields@) && s.wf() && s.spec_fields() == fields@
                    && s@.metadata == Map::<Seq<char>, Seq<char>>::empty(),
                Err(e) => !names_distinct(fields@) && e is InvalidArgument,
            },
    {
        let mut i: usize = 0;
        while i < fields.len()
            invariant
                i <= fields@.len(),
                forall|a: int, b: int| 0 <= a < b < i ==> fields@[a].name@ != fields@[b].name@,
            decreases fields@.len() - i,
        {
            let mut j: usize = 0;
            while j < i
                invariant
                    j <= i < fields@.len(),
                    forall|a: int| 0 <= a < j ==> fields@[a].name@ != fields@[i as int].name@,
                decreases i - j,
            {
                if str_eq(fields[j].name.as_str(), fields[i].name.as_str()) {
                    return Err(Error::InvalidArgument("Duplicate field name in schema".to_owned()));
                }
                j += 1;
            }
            i += 1;
        }
        Ok(Schema { fields, metadata: Metadata::new() })
    }

    /// The schema with `key` set to `value` in its metadata.
    pub fn with_metadata(self, key: &str, value: &str) -> (r: Schema)
        ensures
            r.wf(),
            r.spec_fields() == self.spec_fields(),
            r@ == (SchemaView { metadata: self@.metadata.insert(key@, value@), ..self@ }),
    {
        proof {
            use_type_invariant(&self);
        }
        let Schema { fields, metadata } = self;
        let mut metadata = metadata;
        metadata.insert(key, value);
        Schema { fields, metadata }
    }

    /// The fields, in order.
    pub fn fields(&self) -> (r: &Vec<Field>)
        ensures
            r@ == self.spec_fields(),
            names_distinct(r@),
    {
        proof {
            use_type_invariant(self);
        }
        &self.fields
    }

    /// The metadata.
    pub fn metadata(&self) -> (r: &Metadata)
        ensures
            r@ == self@.metadata,
            *r == self.spec_metadata(),
    {
        &self.metadata
    }

    /// The index of the field named `name`, if there is one.
    pub fn field_index(&self, name: &str) -> (r: Option<usize>)
        ensures
            match r {
                Some(i) => self.spec_field_index(name@) == Some(i as int) && i
                    < self.spec_fields().len() && self.spec_fields()[i as int].name@ == name@,
                None => self.spec_field_index(name@) is None && forall|j: int|
                    0 <= j < self.spec_fields().len() ==> self.spec_fields()[j].name@ != name@,
            },
    {
        let mut i: usize = 0;
        proof {
            lemma_first_named(self.fields@, name@, 0);
        }
        while i < self.fields.len()
            invariant
                i <= self.fields@.len(),
                first_named(self.fields@, name@, 0) == first_named(self.fields@, name@, i as int),
            decreases self.fields@.len() - i,
        {
            if str_eq(self.fields[i].name.as_str(), name) {
                return Some(i);
            }
            i += 1;
        }
        None
    }

    /// The field named `name`, if there is one.
    pub fn field(&self, name: &str) -> (r: Option<&Field>)
        ensures
            match r {
                Some(f) => self.spec_field_index(name@) is Some && *f == self.spec_fields()[
                    self.spec_field_index(name@).unwrap()
                ] && f.name@ == name@,
                None => self.spec_field_index(name@) is None,
            },
    {
        match self.field_index(name) {
            Some(i) => Some(&self.fields[i]),
            None => None,
        }
    }

    /// The field at `index`, if there is one.
    pub fn field_by_index(&self, index: usize) -> (r: Option<&Field>)
        ensures
            match r {
                Some(f) => index < self.spec_fields().len() && *f == self.spec_fields()[index as int],
                None => index >= self.spec_fields().len(),
            },
    {
        if index < self.fields.len() {
            Some(&self.fields[index])
        } else {
            None
        }
    }

    /// The number of fields.
    pub fn field_count(&self) -> (r: usize)
        ensures
            r == self.spec_fields().len(),
    {
        self.fields.len()
    }

    /// Whether a field is named `name`.
    pub fn contains_field(&self, name: &str) -> (r: bool)
        ensures
            r == self.spec_field_index(name@).is_some(),
            r == exists|j: int|
                0 <= j < self.spec_fields().len() && self.spec_fields()[j].name@ == name@,
    {
        self.field_index(name).is_some()
    }
}

} // verus!
