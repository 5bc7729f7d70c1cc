//! The schema descriptor: the file that holds the schema of a table.
//!
//! A descriptor starts with the eight bytes `ULTRASCH`. A sequence of
//! tokens follows, each written as its length in four bytes, little-endian,
//! and its bytes. The tokens are, in this order:
//!
//! - the number of fields, four bytes;
//! - for each field: its name in UTF-8; its type tag, four bytes; one byte
//!   of flags, bit 0 set for a nullable field and bit 1 for a field with a
//!   default value; the default value, empty where there is none; and its
//!   metadata;
//! - the metadata of the schema.
//!
//! Metadata is written as the number of its entries, four bytes, and for
//! each entry its key and its value in UTF-8, in the order of insertion.

use crate::columnar::encoding::{
    append_bytes, le_bytes, le_value, lemma_le_bytes_len, lemma_le_value_of_le_bytes,
    lemma_pow256_values, read_uint_le, write_uint_le,
};
use crate::columnar::header::{
    lemma_type_tag_round_trip, type_of_tag, type_tag, ColumnHeader,
};
use crate::columnar::schema::{
    entries_pairs, DataType, Field, Metadata, MetadataEntry, Schema,
};
use crate::error::Error;
use crate::utils::text::{lemma_text_round_trip, str_from_utf8};
use vstd::prelude::*;
use vstd::slice::{slice_subrange, slice_to_vec};
use vstd::string::StringSliceAdditionalSpecFns;
use vstd::utf8::{decode_utf8, encode_utf8, valid_utf8};

verus! {

/// The eight bytes `ULTRASCH` that begin every schema descriptor.
pub open spec fn schema_magic() -> Seq<u8> {
    seq![0x55u8, 0x4Cu8, 0x54u8, 0x52u8, 0x41u8, 0x53u8, 0x43u8, 0x48u8]
}

/// A token as it is written: its length in four bytes, then its bytes.
pub open spec fn chunk(token: Seq<u8>) -> Seq<u8> {
    le_bytes(token.len(), 4) + token
}

/// The tokens as they are written, one after the other.
pub open spec fn chunks(tokens: Seq<Seq<u8>>) -> Seq<u8>
    decreases tokens.len(),
{
    if tokens.len() == 0 {
        Seq::empty()
    } else {
        chunk(tokens[0]) + chunks(tokens.drop_first())
    }
}

/// The tokens that `bytes` are the writing of; `None` where the bytes end
/// inside a token.
pub open spec fn parse_chunks(bytes: Seq<u8>) -> Option<Seq<Seq<u8>>>
    decreases bytes.len(),
{
    if bytes.len() == 0 {
        Some(Seq::empty())
    } else if bytes.len() < 4 {
        None
    } else {
        let n = le_value(bytes.subrange(0, 4)) as int;
        if 4 + n > bytes.len() {
            None
        } else {
            match parse_chunks(bytes.subrange(4 + n, bytes.len() as int)) {
                Some(rest) => Some(seq![bytes.subrange(4, 4 + n)] + rest),
                None => None,
            }
        }
    }
}

/// Whether every token is short enough for its length to be written.
pub open spec fn tokens_fit(tokens: Seq<Seq<u8>>) -> bool {
    forall|i: int| 0 <= i < tokens.len() ==> (#[trigger] tokens[i]).len() < 0x1_0000_0000
}

/// Tokens are read back from their writing.
pub proof fn lemma_parse_chunks(tokens: Seq<Seq<u8>>)
    requires
        tokens_fit(tokens),
    ensures
        parse_chunks(chunks(tokens)) == Some(tokens),
    decreases tokens.len(),
{
    if tokens.len() > 0 {
        let first = tokens[0];
        let rest = tokens.drop_first();
        let bytes = chunks(tokens);
        lemma_pow256_values();
        lemma_le_bytes_len(first.len(), 4);
        lemma_le_value_of_le_bytes(first.len(), 4);
        assert(bytes.subrange(0, 4) =~= le_bytes(first.len(), 4));
        assert(bytes.subrange(4, 4 + first.len() as int) =~= first);
        assert(bytes.subrange(4 + first.len() as int, bytes.len() as int) =~= chunks(rest));
        assert(tokens_fit(rest)) by {
            assert forall|i: int| 0 <= i < rest.len() implies (#[trigger] rest[i]).len()
                < 0x1_0000_0000 by {
                assert(rest[i] == tokens[i + 1]);
            }
        }
        lemma_parse_chunks(rest);
        assert(seq![first] + rest =~= tokens);
    }
}

/// One more token is written behind the others.
pub proof fn lemma_chunks_push(tokens: Seq<Seq<u8>>, token: Seq<u8>)
    ensures
        chunks(tokens.push(token)) == chunks(tokens) + chunk(token),
    decreases tokens.len(),
{
    if tokens.len() == 0 {
        let one = tokens.push(token);
        assert(one.drop_first() =~= Seq::<Seq<u8>>::empty());
        assert(one[0] == token);
        assert(chunks(one.drop_first()) =~= Seq::<u8>::empty());
        assert(chunks(one) =~= chunk(token));
        assert(chunks(tokens) =~= Seq::<u8>::empty());
    } else {
        lemma_chunks_push(tokens.drop_first(), token);
        let more = tokens.push(token);
        assert(more.drop_first() =~= tokens.drop_first().push(token));
        assert(more[0] == tokens[0]);
        assert(chunks(more) =~= chunks(tokens) + chunk(token));
    }
}

/// Appends a token to `out`; fails where the token is too long for its
/// length to be written.
pub fn push_token(out: &mut Vec<u8>, token: &[u8]) -> (r: bool)
    ensures
        r == (token@.len() < 0x1_0000_0000),
        r ==> final(out)@ == old(out)@ + chunk(token@),
        !r ==> final(out)@ == old(out)@,
{
    let n: usize = token.len();
    if n as u64 >= 0x1_0000_0000 {
        return false;
    }
    write_uint_le(out, n as u64, 4);
    append_bytes(out, token);
    assert(out@ =~= old(out)@ + chunk(token@));
    true
}

/// The views of the tokens.
pub open spec fn views(tokens: Seq<&[u8]>) -> Seq<Seq<u8>> {
    tokens.map_values(|t: &[u8]| t@)
}

/// `rest` with `first` in front.
pub open spec fn after(first: Seq<Seq<u8>>, rest: Option<Seq<Seq<u8>>>) -> Option<Seq<Seq<u8>>> {
    match rest {
        Some(r) => Some(first + r),
        None => None,
    }
}

/// The tokens that `bytes` hold from `from` on; `None` where the bytes end
/// inside a token.
pub fn split_tokens<'a>(bytes: &'a [u8], from: usize) -> (r: Option<Vec<&'a [u8]>>)
    requires
        from <= bytes@.len(),
    ensures
        match r {
            Some(tokens) => parse_chunks(bytes@.subrange(from as int, bytes@.len() as int))
                == Some(views(tokens@)),
            None => parse_chunks(bytes@.subrange(from as int, bytes@.len() as int)) is None,
        },
{
    let len: usize = bytes.len();
    let ghost all = bytes@.subrange(from as int, len as int);
    let mut tokens: Vec<&'a [u8]> = Vec::new();
    let mut at: usize = from;
    proof {
        lemma_pow256_values();
        assert(Seq::<Seq<u8>>::empty() + parse_chunks(all).unwrap() =~= parse_chunks(
            all,
        ).unwrap());
    }
    while at < len
        invariant
            from <= at <= len,
            len == bytes@.len(),
            all == bytes@.subrange(from as int, len as int),
            parse_chunks(all) == after(
                views(tokens@),
                parse_chunks(bytes@.subrange(at as int, len as int)),
            ),
        decreases len - at,
    {
        let ghost rest = bytes@.subrange(at as int, len as int);
        if len - at < 4 {
            return None;
        }
        let n: u64 = read_uint_le(bytes, at, 4);
        assert(rest.subrange(0, 4) =~= bytes@.subrange(at as int, at + 4));
        if n > (len - at - 4) as u64 {
            return None;
        }
        let start: usize = at + 4;
        let end: usize = start + n as usize;
        let token: &'a [u8] = slice_subrange(bytes, start, end);
        proof {
            assert(rest.subrange(4, 4 + n) =~= token@);
            assert(rest.subrange(4 + n, rest.len() as int) =~= bytes@.subrange(
                end as int,
                len as int,
            ));
            let before = views(tokens@);
            let more = views(tokens@.push(token));
            assert(more =~= before.push(token@));
            match parse_chunks(bytes@.subrange(end as int, len as int)) {
                Some(tail) => {
                    assert(before + (seq![token@] + tail) =~= more + tail);
                },
                None => {},
            }
        }
        tokens.push(token);
        at = end;
    }
    proof {
        assert(views(tokens@) + Seq::<Seq<u8>>::empty() =~= views(tokens@));
    }
    Some(tokens)
}

/// A field as a descriptor holds it.
pub struct FieldRecord {
    /// The name.
    pub name: Seq<char>,
    /// The type of the values.
    pub data_type: DataType,
    /// Whether a value may be null.
    pub nullable: bool,
    /// The bytes of the default value, if there is one.
    pub default_value: Option<Seq<u8>>,
    /// The entries of the metadata, in the order of insertion.
    pub metadata: Seq<(Seq<char>, Seq<char>)>,
}

/// A schema as a descriptor holds it.
pub struct SchemaRecord {
    /// The fields, in order.
    pub fields: Seq<FieldRecord>,
    /// The entries of the metadata, in the order of insertion.
    pub metadata: Seq<(Seq<char>, Seq<char>)>,
}

/// What a descriptor holds of a field.
pub open spec fn field_record(field: Field) -> FieldRecord {
    FieldRecord {
        name: field.name@,
        data_type: field.data_type,
        nullable: field.nullable,
        default_value: match field.default_value {
            Some(v) => Some(v@),
            None => None,
        },
        metadata: field.metadata.spec_entries(),
    }
}

/// What a descriptor holds of a schema.
pub open spec fn schema_record(schema: Schema) -> SchemaRecord {
    SchemaRecord {
        fields: schema.spec_fields().map_values(|f: Field| field_record(f)),
        metadata: schema.spec_metadata().spec_entries(),
    }
}

/// The tokens of the entries of a metadata map: key and value of each.
pub open spec fn entries_tokens(entries: Seq<(Seq<char>, Seq<char>)>) -> Seq<Seq<u8>>
    decreases entries.len(),
{
    if entries.len() == 0 {
        Seq::empty()
    } else {
        seq![encode_utf8(entries[0].0), encode_utf8(entries[0].1)] + entries_tokens(
            entries.drop_first(),
        )
    }
}

/// The tokens of a metadata map: the number of entries, then the entries.
pub open spec fn metadata_tokens(entries: Seq<(Seq<char>, Seq<char>)>) -> Seq<Seq<u8>> {
    seq![le_bytes(entries.len(), 4)] + entries_tokens(entries)
}

/// The flags of a field: 1 for a nullable field, and 2 more for a field
/// with a default value.
pub open spec fn field_flags(field: FieldRecord) -> u8 {
    ((if field.nullable {
        1int
    } else {
        0int
    }) + (if field.default_value is Some {
        2int
    } else {
        0int
    })) as u8
}

/// The tokens of a field: name, type tag, flags, default value, metadata.
pub open spec fn field_tokens(field: FieldRecord) -> Seq<Seq<u8>> {
    seq![
        encode_utf8(field.name),
        le_bytes(type_tag(field.data_type).unwrap() as nat, 4),
        seq![field_flags(field)],
        match field.default_value {
            Some(v) => v,
            None => Seq::empty(),
        },
    ] + metadata_tokens(field.metadata)
}

/// The tokens of the fields, one field after the other.
pub open spec fn fields_tokens(fields: Seq<FieldRecord>) -> Seq<Seq<u8>>
    decreases fields.len(),
{
    if fields.len() == 0 {
        Seq::empty()
    } else {
        field_tokens(fields[0]) + fields_tokens(fields.drop_first())
    }
}

/// The tokens of a schema: the number of fields, the fields, the metadata.
pub open spec fn schema_tokens(schema: SchemaRecord) -> Seq<Seq<u8>> {
    seq![le_bytes(schema.fields.len(), 4)] + fields_tokens(schema.fields) + metadata_tokens(
        schema.metadata,
    )
}

/// The bytes of the descriptor of a schema.
pub open spec fn descriptor_bytes(schema: SchemaRecord) -> Seq<u8> {
    schema_magic() + chunks(schema_tokens(schema))
}

/// Whether the keys and values of the entries are shorter than 2^32 bytes.
pub open spec fn entries_fit(entries: Seq<(Seq<char>, Seq<char>)>) -> bool {
    forall|i: int|
        0 <= i < entries.len() ==> encode_utf8((#[trigger] entries[i]).0).len() < 0x1_0000_0000
            && encode_utf8(entries[i].1).len() < 0x1_0000_0000
}

/// Whether a metadata map can be written: it has fewer than 2^32 entries,
/// with keys and values shorter than 2^32 bytes.
pub open spec fn metadata_fits(entries: Seq<(Seq<char>, Seq<char>)>) -> bool {
    entries.len() < 0x1_0000_0000 && entries_fit(entries)
}

/// Whether the sizes of a field can be written: its name and its default
/// value are shorter than 2^32 bytes, and its metadata can be written.
pub open spec fn field_fits(field: FieldRecord) -> bool {
    &&& encode_utf8(field.name).len() < 0x1_0000_0000
    &&& field.default_value matches Some(v) ==> v.len() < 0x1_0000_0000
    &&& metadata_fits(field.metadata)
}

/// Whether every type of the schema has a tag.
pub open spec fn tags_exist(schema: SchemaRecord) -> bool {
    forall|i: int|
        0 <= i < schema.fields.len() ==> type_tag((#[trigger] schema.fields[i]).data_type)
            is Some
}

/// Whether the sizes of a schema can be written: it has fewer than 2^32
/// fields, and the sizes of each field and the metadata can be written.
pub open spec fn sizes_fit(schema: SchemaRecord) -> bool {
    &&& schema.fields.len() < 0x1_0000_0000
    &&& forall|i: int| 0 <= i < schema.fields.len() ==> field_fits(#[trigger] schema.fields[i])
    &&& metadata_fits(schema.metadata)
}

/// Whether a schema can be written.
pub open spec fn storable(schema: SchemaRecord) -> bool {
    tags_exist(schema) && sizes_fit(schema)
}

/// The entries that the tokens hold from `at` on, `count` of them, and the
/// index behind them; `None` where tokens are missing or are not text.
pub open spec fn parse_entries(tokens: Seq<Seq<u8>>, at: int, count: nat) -> Option<
    (Seq<(Seq<char>, Seq<char>)>, int),
>
    decreases count,
{
    if count == 0 {
        Some((Seq::empty(), at))
    } else if at < 0 || at + 2 > tokens.len() || !valid_utf8(tokens[at]) || !valid_utf8(
        tokens[at + 1],
    ) {
        None
    } else {
        match parse_entries(tokens, at + 2, (count - 1) as nat) {
            Some((rest, end)) => Some(
                (seq![(decode_utf8(tokens[at]), decode_utf8(tokens[at + 1]))] + rest, end),
            ),
            None => None,
        }
    }
}

/// The metadata map that the tokens hold from `at` on, and the index behind
/// it.
pub open spec fn parse_metadata(tokens: Seq<Seq<u8>>, at: int) -> Option<
    (Seq<(Seq<char>, Seq<char>)>, int),
> {
    if at < 0 || at >= tokens.len() || tokens[at].len() != 4 {
        None
    } else {
        parse_entries(tokens, at + 1, le_value(tokens[at]))
    }
}

/// The field that the tokens hold from `at` on, and the index behind it.
/// The type tag must be the tag of its type, the flags must be below 4,
/// and a field without default value must have an empty default token.
pub open spec fn parse_field(tokens: Seq<Seq<u8>>, at: int) -> Option<(FieldRecord, int)> {
    if at < 0 || at + 4 > tokens.len() || !valid_utf8(tokens[at]) || tokens[at + 1].len() != 4
        || tokens[at + 2].len() != 1 || tokens[at + 2][0] >= 4 {
        None
    } else {
        let tag = le_value(tokens[at + 1]) as u32;
        let flags = tokens[at + 2][0];
        let has_default = flags >= 2;
        if type_of_tag(tag) is None || type_tag(type_of_tag(tag).unwrap()) != Some(tag) || (
        !has_default && tokens[at + 3].len() != 0) {
            None
        } else {
            match parse_metadata(tokens, at + 4) {
                Some((metadata, end)) => Some(
                    (
                        FieldRecord {
                            name: decode_utf8(tokens[at]),
                            data_type: type_of_tag(tag).unwrap(),
                            nullable: flags % 2 == 1,
                            default_value: if has_default {
                                Some(tokens[at + 3])
                            } else {
                                None
                            },
                            metadata,
                        },
                        end,
                    ),
                ),
                None => None,
            }
        }
    }
}

/// The fields that the tokens hold from `at` on, `count` of them, and the
/// index behind them.
pub open spec fn parse_fields(tokens: Seq<Seq<u8>>, at: int, count: nat) -> Option<
    (Seq<FieldRecord>, int),
>
    decreases count,
{
    if count == 0 {
        Some((Seq::empty(), at))
    } else {
        match parse_field(tokens, at) {
            Some((field, next)) => match parse_fields(tokens, next, (count - 1) as nat) {
                Some((rest, end)) => Some((seq![field] + rest, end)),
                None => None,
            },
            None => None,
        }
    }
}

/// The schema that the tokens hold; `None` where they are not the tokens
/// of a schema.
pub open spec fn parse_schema_tokens(tokens: Seq<Seq<u8>>) -> Option<SchemaRecord> {
    if tokens.len() == 0 || tokens[0].len() != 4 {
        None
    } else {
        match parse_fields(tokens, 1, le_value(tokens[0])) {
            Some((fields, at)) => match parse_metadata(tokens, at) {
                Some((metadata, end)) => if end == tokens.len() {
                    Some(SchemaRecord { fields, metadata })
                } else {
                    None
                },
                None => None,
            },
            None => None,
        }
    }
}

/// The schema that a descriptor holds; `None` where the bytes are not a
/// descriptor.
pub open spec fn parse_descriptor(bytes: Seq<u8>) -> Option<SchemaRecord> {
    if bytes.len() < 8 || bytes.subrange(0, 8) != schema_magic() {
        None
    } else {
        match parse_chunks(bytes.subrange(8, bytes.len() as int)) {
            Some(tokens) => parse_schema_tokens(tokens),
            None => None,
        }
    }
}

/// The entries of a metadata map take two tokens each.
pub proof fn lemma_entries_tokens_len(entries: Seq<(Seq<char>, Seq<char>)>)
    ensures
        entries_tokens(entries).len() == 2 * entries.len(),
    decreases entries.len(),
{
    if entries.len() > 0 {
        lemma_entries_tokens_len(entries.drop_first());
    }
}

/// Entries are read back from their tokens, wherever these stand.
pub proof fn lemma_parse_entries(
    before: Seq<Seq<u8>>,
    entries: Seq<(Seq<char>, Seq<char>)>,
    behind: Seq<Seq<u8>>,
)
    ensures
        parse_entries(
            before + entries_tokens(entries) + behind,
            before.len() as int,
            entries.len(),
        ) == Some((entries, (before.len() + 2 * entries.len()) as int)),
    decreases entries.len(),
{
    let tokens = before + entries_tokens(entries) + behind;
    lemma_entries_tokens_len(entries);
    if entries.len() > 0 {
        let rest = entries.drop_first();
        lemma_entries_tokens_len(rest);
        let key = encode_utf8(entries[0].0);
        let value = encode_utf8(entries[0].1);
        lemma_text_round_trip(entries[0].0);
        lemma_text_round_trip(entries[0].1);
        let further = before.push(key).push(value);
        assert(tokens =~= further + entries_tokens(rest) + behind);
        assert(tokens[before.len() as int] == key);
        assert(tokens[before.len() as int + 1] == value);
        lemma_parse_entries(further, rest, behind);
        assert(seq![(entries[0].0, entries[0].1)] + rest =~= entries);
    }
}

/// A metadata map is read back from its tokens, wherever these stand.
pub proof fn lemma_parse_metadata(
    before: Seq<Seq<u8>>,
    entries: Seq<(Seq<char>, Seq<char>)>,
    behind: Seq<Seq<u8>>,
)
    requires
        entries.len() < 0x1_0000_0000,
    ensures
        metadata_tokens(entries).len() == 1 + 2 * entries.len(),
        parse_metadata(before + metadata_tokens(entries) + behind, before.len() as int) == Some(
            (entries, (before.len() + 1 + 2 * entries.len()) as int),
        ),
{
    let tokens = before + metadata_tokens(entries) + behind;
    let count = le_bytes(entries.len(), 4);
    lemma_entries_tokens_len(entries);
    lemma_pow256_values();
    lemma_le_bytes_len(entries.len(), 4);
    lemma_le_value_of_le_bytes(entries.len(), 4);
    assert(tokens =~= before.push(count) + entries_tokens(entries) + behind);
    assert(tokens[before.len() as int] == count);
    lemma_parse_entries(before.push(count), entries, behind);
}

/// A field is read back from its tokens, wherever these stand.
pub proof fn lemma_parse_field(before: Seq<Seq<u8>>, field: FieldRecord, behind: Seq<Seq<u8>>)
    requires
        type_tag(field.data_type) is Some,
        field.metadata.len() < 0x1_0000_0000,
    ensures
        field_tokens(field).len() == 5 + 2 * field.metadata.len(),
        parse_field(before + field_tokens(field) + behind, before.len() as int) == Some(
            (field, (before.len() + 5 + 2 * field.metadata.len()) as int),
        ),
{
    let tokens = before + field_tokens(field) + behind;
    let tag = type_tag(field.data_type).unwrap();
    let head = seq![
        encode_utf8(field.name),
        le_bytes(tag as nat, 4),
        seq![field_flags(field)],
        match field.default_value {
            Some(v) => v,
            None => Seq::empty(),
        },
    ];
    lemma_text_round_trip(field.name);
    lemma_pow256_values();
    lemma_le_bytes_len(tag as nat, 4);
    lemma_le_value_of_le_bytes(tag as nat, 4);
    lemma_type_tag_round_trip(field.data_type);
    lemma_parse_metadata(before + head, field.metadata, behind);
    assert(tokens =~= (before + head) + metadata_tokens(field.metadata) + behind);
    let at = before.len() as int;
    assert(tokens[at] == head[0]);
    assert(tokens[at + 1] == head[1]);
    assert(tokens[at + 2] == head[2]);
    assert(tokens[at + 3] == head[3]);
}

/// Fields are read back from their tokens, wherever these stand.
pub proof fn lemma_parse_fields(before: Seq<Seq<u8>>, fields: Seq<FieldRecord>, behind: Seq<Seq<u8>>)
    requires
        forall|i: int| 0 <= i < fields.len() ==> type_tag((#[trigger] fields[i]).data_type) is Some,
        forall|i: int| 0 <= i < fields.len() ==> (#[trigger] fields[i]).metadata.len() < 0x1_0000_0000,
    ensures
        parse_fields(before + fields_tokens(fields) + behind, before.len() as int, fields.len())
            == Some((fields, (before.len() + fields_tokens(fields).len()) as int)),
    decreases fields.len(),
{
    let tokens = before + fields_tokens(fields) + behind;
    if fields.len() > 0 {
        let first = fields[0];
        let rest = fields.drop_first();
        assert forall|i: int| 0 <= i < rest.len() implies type_tag((#[trigger] rest[i]).data_type)
            is Some && rest[i].metadata.len() < 0x1_0000_0000 by {
            assert(rest[i] == fields[i + 1]);
        }
        lemma_parse_field(before, first, fields_tokens(rest) + behind);
        assert(tokens =~= before + field_tokens(first) + (fields_tokens(rest) + behind));
        let further = before + field_tokens(first);
        lemma_parse_fields(further, rest, behind);
        assert(tokens =~= further + fields_tokens(rest) + behind);
        assert(seq![first] + rest =~= fields);
    }
}

/// Tokens that fit still fit when they are put one list behind the other.
pub proof fn lemma_tokens_fit_concat(a: Seq<Seq<u8>>, b: Seq<Seq<u8>>)
    ensures
        tokens_fit(a + b) <==> tokens_fit(a) && tokens_fit(b),
{
    if tokens_fit(a + b) {
        assert forall|i: int| 0 <= i < a.len() implies (#[trigger] a[i]).len()
            < 0x1_0000_0000 by {
            assert((a + b)[i] == a[i]);
        }
        assert forall|i: int| 0 <= i < b.len() implies (#[trigger] b[i]).len()
            < 0x1_0000_0000 by {
            assert((a + b)[a.len() + i] == b[i]);
        }
    }
    if tokens_fit(a) && tokens_fit(b) {
        assert forall|i: int| 0 <= i < (a + b).len() implies (#[trigger] (a + b)[i]).len()
            < 0x1_0000_0000 by {
            if i < a.len() {
                assert((a + b)[i] == a[i]);
            } else {
                assert((a + b)[i] == b[i - a.len()]);
            }
        }
    }
}

/// The tokens of entries that fit are short enough to be written.
pub proof fn lemma_entries_tokens_fit(entries: Seq<(Seq<char>, Seq<char>)>)
    requires
        entries_fit(entries),
    ensures
        tokens_fit(entries_tokens(entries)),
    decreases entries.len(),
{
    if entries.len() > 0 {
        let rest = entries.drop_first();
        assert(entries_fit(rest)) by {
            assert forall|i: int| 0 <= i < rest.len() implies encode_utf8(
                (#[trigger] rest[i]).0,
            ).len() < 0x1_0000_0000 && encode_utf8(rest[i].1).len() < 0x1_0000_0000 by {
                assert(rest[i] == entries[i + 1]);
            }
        }
        lemma_entries_tokens_fit(rest);
        let head = seq![encode_utf8(entries[0].0), encode_utf8(entries[0].1)];
        assert(tokens_fit(head));
        lemma_tokens_fit_concat(head, entries_tokens(rest));
    }
}

/// The tokens of a metadata map that fits are short enough to be written.
pub proof fn lemma_metadata_tokens_fit(entries: Seq<(Seq<char>, Seq<char>)>)
    requires
        metadata_fits(entries),
    ensures
        tokens_fit(metadata_tokens(entries)),
{
    lemma_entries_tokens_fit(entries);
    lemma_le_bytes_len(entries.len(), 4);
    let head = seq![le_bytes(entries.len(), 4)];
    assert(tokens_fit(head));
    lemma_tokens_fit_concat(head, entries_tokens(entries));
}

/// The tokens of a field that fits are short enough to be written.
pub proof fn lemma_field_tokens_fit(field: FieldRecord)
    requires
        field_fits(field),
        type_tag(field.data_type) is Some,
    ensures
        tokens_fit(field_tokens(field)),
{
    lemma_metadata_tokens_fit(field.metadata);
    lemma_le_bytes_len(type_tag(field.data_type).unwrap() as nat, 4);
    let head = seq![
        encode_utf8(field.name),
        le_bytes(type_tag(field.data_type).unwrap() as nat, 4),
        seq![field_flags(field)],
        match field.default_value {
            Some(v) => v,
            None => Seq::empty(),
        },
    ];
    assert(tokens_fit(head));
    lemma_tokens_fit_concat(head, metadata_tokens(field.metadata));
}

/// The tokens of fields that fit are short enough to be written.
pub proof fn lemma_fields_tokens_fit(fields: Seq<FieldRecord>)
    requires
        forall|i: int| 0 <= i < fields.len() ==> field_fits(#[trigger] fields[i]),
        forall|i: int| 0 <= i < fields.len() ==> type_tag((#[trigger] fields[i]).data_type) is Some,
    ensures
        tokens_fit(fields_tokens(fields)),
    decreases fields.len(),
{
    if fields.len() > 0 {
        let rest = fields.drop_first();
        assert forall|i: int| 0 <= i < rest.len() implies field_fits(#[trigger] rest[i])
            && type_tag(rest[i].data_type) is Some by {
            assert(rest[i] == fields[i + 1]);
        }
        lemma_fields_tokens_fit(rest);
        lemma_field_tokens_fit(fields[0]);
        lemma_tokens_fit_concat(field_tokens(fields[0]), fields_tokens(rest));
    }
}

/// The tokens of a schema that can be written are short enough to be
/// written.
pub proof fn lemma_schema_tokens_fit(schema: SchemaRecord)
    requires
        storable(schema),
    ensures
        tokens_fit(schema_tokens(schema)),
{
    lemma_fields_tokens_fit(schema.fields);
    lemma_metadata_tokens_fit(schema.metadata);
    lemma_le_bytes_len(schema.fields.len(), 4);
    let head = seq![le_bytes(schema.fields.len(), 4)];
    assert(tokens_fit(head));
    lemma_tokens_fit_concat(head, fields_tokens(schema.fields));
    lemma_tokens_fit_concat(head + fields_tokens(schema.fields), metadata_tokens(schema.metadata));
}

/// A schema that can be written is read back from its descriptor.
pub proof fn lemma_descriptor_round_trip(schema: SchemaRecord)
    requires
        storable(schema),
    ensures
        parse_descriptor(descriptor_bytes(schema)) == Some(schema),
{
    let tokens = schema_tokens(schema);
    let bytes = descriptor_bytes(schema);
    assert(bytes.subrange(0, 8) =~= schema_magic());
    assert(bytes.subrange(8, bytes.len() as int) =~= chunks(tokens));
    lemma_schema_tokens_fit(schema);
    lemma_parse_chunks(tokens);
    let count = le_bytes(schema.fields.len(), 4);
    lemma_pow256_values();
    lemma_le_bytes_len(schema.fields.len(), 4);
    lemma_le_value_of_le_bytes(schema.fields.len(), 4);
    assert(tokens[0] == count);
    let head = seq![count];
    assert forall|i: int| 0 <= i < schema.fields.len() implies (
    #[trigger] schema.fields[i]).metadata.len() < 0x1_0000_0000 by {
        assert(field_fits(schema.fields[i]));
    }
    lemma_parse_fields(head, schema.fields, metadata_tokens(schema.metadata));
    assert(tokens =~= head + fields_tokens(schema.fields) + metadata_tokens(schema.metadata));
    let before = head + fields_tokens(schema.fields);
    lemma_parse_metadata(before, schema.metadata, Seq::empty());
    assert(tokens =~= before + metadata_tokens(schema.metadata) + Seq::<Seq<u8>>::empty());
}

/// Two lists of tokens are written one after the other.
pub proof fn lemma_chunks_concat(a: Seq<Seq<u8>>, b: Seq<Seq<u8>>)
    ensures
        chunks(a + b) == chunks(a) + chunks(b),
    decreases b.len(),
{
    if b.len() == 0 {
        assert(a + b =~= a);
        assert(chunks(a) + chunks(b) =~= chunks(a));
    } else {
        lemma_chunks_push(a, b[0]);
        lemma_chunks_concat(a.push(b[0]), b.drop_first());
        assert(a.push(b[0]) + b.drop_first() =~= a + b);
        assert(chunks(b) =~= chunk(b[0]) + chunks(b.drop_first()));
        assert(chunks(a) + chunk(b[0]) + chunks(b.drop_first()) =~= chunks(a) + chunks(b));
    }
}

/// The tokens of one more entry stand behind those of the others.
pub proof fn lemma_entries_tokens_push(
    entries: Seq<(Seq<char>, Seq<char>)>,
    entry: (Seq<char>, Seq<char>),
)
    ensures
        entries_tokens(entries.push(entry)) == entries_tokens(entries) + seq![
            encode_utf8(entry.0),
            encode_utf8(entry.1),
        ],
    decreases entries.len(),
{
    let more = entries.push(entry);
    if entries.len() == 0 {
        assert(more.drop_first() =~= Seq::<(Seq<char>, Seq<char>)>::empty());
        assert(more[0] == entry);
        assert(entries_tokens(more.drop_first()) =~= Seq::<Seq<u8>>::empty());
        assert(entries_tokens(more) =~= seq![encode_utf8(entry.0), encode_utf8(entry.1)]);
        assert(entries_tokens(entries) =~= Seq::<Seq<u8>>::empty());
    } else {
        lemma_entries_tokens_push(entries.drop_first(), entry);
        assert(more.drop_first() =~= entries.drop_first().push(entry));
        assert(more[0] == entries[0]);
        assert(entries_tokens(more) =~= entries_tokens(entries) + seq![
            encode_utf8(entry.0),
            encode_utf8(entry.1),
        ]);
    }
}

/// The tokens of one more field stand behind those of the others.
pub proof fn lemma_fields_tokens_push(fields: Seq<FieldRecord>, field: FieldRecord)
    ensures
        fields_tokens(fields.push(field)) == fields_tokens(fields) + field_tokens(field),
    decreases fields.len(),
{
    let more = fields.push(field);
    if fields.len() == 0 {
        assert(more.drop_first() =~= Seq::<FieldRecord>::empty());
        assert(more[0] == field);
        assert(fields_tokens(more.drop_first()) =~= Seq::<Seq<u8>>::empty());
        assert(fields_tokens(more) =~= field_tokens(field));
        assert(fields_tokens(fields) =~= Seq::<Seq<u8>>::empty());
    } else {
        lemma_fields_tokens_push(fields.drop_first(), field);
        assert(more.drop_first() =~= fields.drop_first().push(field));
        assert(more[0] == fields[0]);
        assert(fields_tokens(more) =~= fields_tokens(fields) + field_tokens(field));
    }
}

/// Appends a number as a token of four bytes; fails for a number of 2^32
/// or more.
fn write_number(out: &mut Vec<u8>, value: usize) -> (r: bool)
    ensures
        r == (value < 0x1_0000_0000),
        r ==> final(out)@ == old(out)@ + chunks(seq![le_bytes(value as nat, 4)]),
{
    if value as u64 >= 0x1_0000_0000 {
        return false;
    }
    let mut token: Vec<u8> = Vec::new();
    write_uint_le(&mut token, value as u64, 4);
    proof {
        lemma_le_bytes_len(value as nat, 4);
        assert(token@ =~= le_bytes(value as nat, 4));
        lemma_chunks_push(Seq::empty(), token@);
        assert(Seq::<Seq<u8>>::empty().push(token@) =~= seq![token@]);
        assert(chunks(Seq::<Seq<u8>>::empty()) + chunk(token@) =~= chunk(token@));
    }
    push_token(out, token.as_slice())
}

/// Appends the tokens of a metadata map; fails where it cannot be written.
fn write_metadata(out: &mut Vec<u8>, metadata: &Metadata) -> (r: bool)
    ensures
        r == metadata_fits(metadata.spec_entries()),
        r ==> final(out)@ == old(out)@ + chunks(metadata_tokens(metadata.spec_entries())),
{
    let entries = metadata.entries();
    let ghost pairs = metadata.spec_entries();
    if !write_number(out, entries.len()) {
        return false;
    }
    let ghost head = seq![le_bytes(pairs.len(), 4)];
    let mut k: usize = 0;
    proof {
        assert(pairs.subrange(0, 0) =~= Seq::<(Seq<char>, Seq<char>)>::empty());
        assert(head + entries_tokens(pairs.subrange(0, 0)) =~= head);
    }
    while k < entries.len()
        invariant
            k <= entries@.len(),
            pairs == entries_pairs(entries@),
            pairs == metadata.spec_entries(),
            pairs.len() < 0x1_0000_0000,
            head == seq![le_bytes(pairs.len(), 4)],
            entries_fit(pairs.subrange(0, k as int)),
            out@ == old(out)@ + chunks(head + entries_tokens(pairs.subrange(0, k as int))),
        decreases entries@.len() - k,
    {
        let ghost done = pairs.subrange(0, k as int);
        let ghost written = head + entries_tokens(done);
        let key: &[u8] = entries[k].key.as_str().as_bytes();
        let value: &[u8] = entries[k].value.as_str().as_bytes();
        assert(pairs[k as int] == (entries@[k as int].key@, entries@[k as int].value@));
        assert(key@ == encode_utf8(pairs[k as int].0));
        assert(value@ == encode_utf8(pairs[k as int].1));
        if !push_token(out, key) {
            assert(!entries_fit(pairs));
            return false;
        }
        if !push_token(out, value) {
            assert(!entries_fit(pairs));
            return false;
        }
        proof {
            let more = pairs.subrange(0, k + 1);
            assert(more =~= done.push(pairs[k as int]));
            lemma_entries_tokens_push(done, pairs[k as int]);
            lemma_chunks_push(written, key@);
            lemma_chunks_push(written.push(key@), value@);
            assert(written.push(key@).push(value@) =~= head + entries_tokens(more));
            assert(entries_fit(more)) by {
                assert forall|i: int| 0 <= i < more.len() implies encode_utf8(
                    (#[trigger] more[i]).0,
                ).len() < 0x1_0000_0000 && encode_utf8(more[i].1).len() < 0x1_0000_0000 by {
                    if i < k {
                        assert(more[i] == done[i]);
                    }
                }
            }
        }
        k += 1;
    }
    proof {
        assert(pairs.subrange(0, k as int) =~= pairs);
    }
    true
}

/// Appends the tokens of a field; fails where its sizes cannot be written.
fn write_field(out: &mut Vec<u8>, field: &Field) -> (r: bool)
    requires
        type_tag(field.data_type) is Some,
    ensures
        r == field_fits(field_record(*field)),
        r ==> final(out)@ == old(out)@ + chunks(field_tokens(field_record(*field))),
{
    let ghost record = field_record(*field);
    let ghost start = out@;
    let name: &[u8] = field.name.as_str().as_bytes();
    assert(name@ == encode_utf8(record.name));
    if !push_token(out, name) {
        return false;
    }
    let ghost after_name = out@;
    let tag: u32 = match ColumnHeader::data_type_to_u32(&field.data_type) {
        Some(t) => t,
        None => {
            return false;
        },
    };
    let mut tag_bytes: Vec<u8> = Vec::new();
    write_uint_le(&mut tag_bytes, tag as u64, 4);
    proof {
        lemma_le_bytes_len(tag as nat, 4);
        assert(tag_bytes@ =~= le_bytes(tag as nat, 4));
    }
    let pushed_tag: bool = push_token(out, tag_bytes.as_slice());
    let ghost after_tag = out@;
    assert(after_tag == after_name + chunk(le_bytes(tag as nat, 4)));
    let mut flags: Vec<u8> = Vec::new();
    let nullable_bit: u8 = if field.nullable {
        1
    } else {
        0
    };
    let default_bit: u8 = if field.default_value.is_some() {
        2
    } else {
        0
    };
    flags.push(nullable_bit + default_bit);
    assert(flags@ =~= seq![field_flags(record)]);
    let pushed_flags: bool = push_token(out, flags.as_slice());
    let ghost after_flags = out@;
    assert(after_flags == after_tag + chunk(seq![field_flags(record)]));
    let empty: Vec<u8> = Vec::new();
    let default_value: &[u8] = match &field.default_value {
        Some(v) => v.as_slice(),
        None => empty.as_slice(),
    };
    assert(default_value@ == match record.default_value {
        Some(v) => v,
        None => Seq::<u8>::empty(),
    });
    if !push_token(out, default_value) {
        return false;
    }
    let ghost head = seq![
        encode_utf8(record.name),
        le_bytes(tag as nat, 4),
        seq![field_flags(record)],
        default_value@,
    ];
    proof {
        let t0 = Seq::<Seq<u8>>::empty().push(head[0]);
        lemma_chunks_push(Seq::empty(), head[0]);
        lemma_chunks_push(t0, head[1]);
        lemma_chunks_push(t0.push(head[1]), head[2]);
        lemma_chunks_push(t0.push(head[1]).push(head[2]), head[3]);
        assert(t0.push(head[1]).push(head[2]).push(head[3]) =~= head);
        assert(chunks(Seq::<Seq<u8>>::empty()) =~= Seq::<u8>::empty());
        assert(chunks(head) =~= chunk(head[0]) + chunk(head[1]) + chunk(head[2]) + chunk(head[3]));
        assert(out@ =~= start + chunks(head));
    }
    if !write_metadata(out, &field.metadata) {
        return false;
    }
    proof {
        lemma_chunks_concat(head, metadata_tokens(record.metadata));
        assert(out@ =~= start + chunks(head + metadata_tokens(record.metadata)));
        assert(head + metadata_tokens(record.metadata) =~= field_tokens(record));
    }
    true
}

impl Schema {
    /// The descriptor of the schema. Fails with `InvalidArgument` where a
    /// type has no tag, and else with `SizeExceedsSystemLimit` where a
    /// size cannot be written.
    pub fn to_bytes(&self) -> (r: Result<Vec<u8>, Error>)
        ensures
            match r {
                Ok(out) => storable(schema_record(*self)) && out@ == descriptor_bytes(
                    schema_record(*self),
                ),
                Err(e) => !storable(schema_record(*self)) && if !tags_exist(
                    schema_record(*self),
                ) {
                    e is InvalidArgument
                } else {
                    e is SizeExceedsSystemLimit
                },
            },
    {
        let ghost record = schema_record(*self);
        let fields = self.fields();
        let mut k: usize = 0;
        while k < fields.len()
            invariant
                k <= fields@.len(),
                fields@ == self.spec_fields(),
                record == schema_record(*self),
                forall|i: int|
                    0 <= i < k ==> type_tag((#[trigger] record.fields[i]).data_type) is Some,
            decreases fields@.len() - k,
        {
            if ColumnHeader::data_type_to_u32(&fields[k].data_type).is_none() {
                assert(record.fields[k as int].data_type == fields@[k as int].data_type);
                return Err(Error::InvalidArgument("Data type cannot be written".to_owned()));
            }
            assert(record.fields[k as int].data_type == fields@[k as int].data_type);
            k += 1;
        }
        assert(tags_exist(record));
        let mut out: Vec<u8> = Vec::new();
        out.push(0x55);
        out.push(0x4C);
        out.push(0x54);
        out.push(0x52);
        out.push(0x41);
        out.push(0x53);
        out.push(0x43);
        out.push(0x48);
        assert(out@ =~= schema_magic());
        if !write_number(&mut out, fields.len()) {
            return Err(Error::SizeExceedsSystemLimit);
        }
        let ghost head = seq![le_bytes(record.fields.len(), 4)];
        let mut k: usize = 0;
        proof {
            assert(record.fields.subrange(0, 0) =~= Seq::<FieldRecord>::empty());
            assert(head + fields_tokens(record.fields.subrange(0, 0)) =~= head);
        }
        while k < fields.len()
            invariant
                k <= fields@.len(),
                fields@ == self.spec_fields(),
                record == schema_record(*self),
                tags_exist(record),
                record.fields.len() < 0x1_0000_0000,
                head == seq![le_bytes(record.fields.len(), 4)],
                forall|i: int| 0 <= i < k ==> field_fits(#[trigger] record.fields[i]),
                out@ == schema_magic() + chunks(
                    head + fields_tokens(record.fields.subrange(0, k as int)),
                ),
            decreases fields@.len() - k,
        {
            let ghost done = record.fields.subrange(0, k as int);
            assert(record.fields[k as int] == field_record(fields@[k as int]));
            if !write_field(&mut out, &fields[k]) {
                return Err(Error::SizeExceedsSystemLimit);
            }
            proof {
                let more = record.fields.subrange(0, k + 1);
                assert(more =~= done.push(record.fields[k as int]));
                lemma_fields_tokens_push(done, record.fields[k as int]);
                lemma_chunks_concat(head + fields_tokens(done), field_tokens(record.fields[k as int]));
                assert(head + fields_tokens(done) + field_tokens(record.fields[k as int]) =~= head
                    + fields_tokens(more));
                assert(out@ =~= schema_magic() + chunks(head + fields_tokens(more)));
            }
            k += 1;
        }
        proof {
            assert(record.fields.subrange(0, k as int) =~= record.fields);
        }
        if !write_metadata(&mut out, self.metadata()) {
            return Err(Error::SizeExceedsSystemLimit);
        }
        proof {
            lemma_chunks_concat(head + fields_tokens(record.fields), metadata_tokens(record.metadata));
            assert(out@ =~= schema_magic() + chunks(schema_tokens(record)));
        }
        Ok(out)
    }
}

/// `rest` with the entries `first` in front.
pub open spec fn entries_after(
    first: Seq<(Seq<char>, Seq<char>)>,
    rest: Option<(Seq<(Seq<char>, Seq<char>)>, int)>,
) -> Option<(Seq<(Seq<char>, Seq<char>)>, int)> {
    match rest {
        Some((r, end)) => Some((first + r, end)),
        None => None,
    }
}

/// `rest` with the fields `first` in front.
pub open spec fn fields_after(first: Seq<FieldRecord>, rest: Option<(Seq<FieldRecord>, int)>) -> Option<
    (Seq<FieldRecord>, int),
> {
    match rest {
        Some((r, end)) => Some((first + r, end)),
        None => None,
    }
}

/// Whether no two fields of the record share a name.
pub open spec fn record_names_distinct(schema: SchemaRecord) -> bool {
    forall|i: int, j: int|
        0 <= i < j < schema.fields.len() ==> schema.fields[i].name != schema.fields[j].name
}

/// Reads the metadata map that the tokens hold from `at` on.
fn read_metadata(tokens: &Vec<&[u8]>, at: usize) -> (r: Option<(Metadata, usize)>)
    ensures
        match r {
            Some((metadata, end)) => parse_metadata(views(tokens@), at as int) == Some(
                (metadata.spec_entries(), end as int),
            ),
            None => parse_metadata(views(tokens@), at as int) is None,
        },
{
    let ghost all = views(tokens@);
    if at >= tokens.len() {
        return None;
    }
    let head: &[u8] = tokens[at];
    assert(all[at as int] == head@);
    if head.len() != 4 {
        return None;
    }
    proof {
        lemma_pow256_values();
        assert(head@.subrange(0, 4) =~= head@);
    }
    let count: u64 = read_uint_le(head, 0, 4);
    let mut entries: Vec<MetadataEntry> = Vec::new();
    let mut position: usize = at + 1;
    let mut k: u64 = 0;
    proof {
        let whole = parse_entries(all, at + 1, count as nat);
        assert(entries_pairs(entries@) =~= Seq::<(Seq<char>, Seq<char>)>::empty());
        if whole is Some {
            assert(Seq::<(Seq<char>, Seq<char>)>::empty() + whole.unwrap().0 =~= whole.unwrap().0);
        }
    }
    while k < count
        invariant
            k <= count,
            all == views(tokens@),
            position <= tokens@.len(),
            parse_metadata(all, at as int) == parse_entries(all, at + 1, count as nat),
            parse_entries(all, at + 1, count as nat) == entries_after(
                entries_pairs(entries@),
                parse_entries(all, position as int, (count - k) as nat),
            ),
        decreases count - k,
    {
        if tokens.len() - position < 2 {
            return None;
        }
        let key_bytes: &[u8] = tokens[position];
        let value_bytes: &[u8] = tokens[position + 1];
        assert(all[position as int] == key_bytes@);
        assert(all[position + 1] == value_bytes@);
        let key: &str = match str_from_utf8(key_bytes) {
            Some(s) => s,
            None => {
                return None;
            },
        };
        let value: &str = match str_from_utf8(value_bytes) {
            Some(s) => s,
            None => {
                return None;
            },
        };
        proof {
            lemma_text_round_trip(key@);
            lemma_text_round_trip(value@);
            let before = entries_pairs(entries@);
            let pair = (key@, value@);
            match parse_entries(all, position + 2, (count - k - 1) as nat) {
                Some((rest, end)) => {
                    assert(before + (seq![pair] + rest) =~= before.push(pair) + rest);
                },
                None => {},
            }
        }
        let ghost before = entries_pairs(entries@);
        entries.push(MetadataEntry { key: key.to_owned(), value: value.to_owned() });
        assert(entries_pairs(entries@) =~= before.push((key@, value@)));
        position = position + 2;
        k += 1;
    }
    proof {
        assert(entries_pairs(entries@) + Seq::<(Seq<char>, Seq<char>)>::empty() =~= entries_pairs(
            entries@,
        ));
    }
    Some((Metadata::from_entries(entries), position))
}

/// Reads the field that the tokens hold from `at` on.
fn read_field(tokens: &Vec<&[u8]>, at: usize) -> (r: Option<(Field, usize)>)
    ensures
        match r {
            Some((field, end)) => parse_field(views(tokens@), at as int) == Some(
                (field_record(field), end as int),
            ),
            None => parse_field(views(tokens@), at as int) is None,
        },
{
    let ghost all = views(tokens@);
    if tokens.len() < 4 || at > tokens.len() - 4 {
        return None;
    }
    let name_bytes: &[u8] = tokens[at];
    let tag_bytes: &[u8] = tokens[at + 1];
    let flag_bytes: &[u8] = tokens[at + 2];
    let default_bytes: &[u8] = tokens[at + 3];
    assert(all[at as int] == name_bytes@);
    assert(all[at + 1] == tag_bytes@);
    assert(all[at + 2] == flag_bytes@);
    assert(all[at + 3] == default_bytes@);
    let name: &str = match str_from_utf8(name_bytes) {
        Some(s) => s,
        None => {
            return None;
        },
    };
    if tag_bytes.len() != 4 || flag_bytes.len() != 1 {
        return None;
    }
    let flags: u8 = flag_bytes[0];
    if flags >= 4 {
        return None;
    }
    proof {
        lemma_pow256_values();
        assert(tag_bytes@.subrange(0, 4) =~= tag_bytes@);
        lemma_text_round_trip(name@);
    }
    let tag: u32 = read_uint_le(tag_bytes, 0, 4) as u32;
    let data_type: DataType = match ColumnHeader::u32_to_data_type(tag) {
        Some(t) => t,
        None => {
            return None;
        },
    };
    match ColumnHeader::data_type_to_u32(&data_type) {
        Some(again) => {
            if again != tag {
                return None;
            }
        },
        None => {
            return None;
        },
    }
    let has_default: bool = flags >= 2;
    if !has_default && default_bytes.len() != 0 {
        return None;
    }
    let (metadata, end) = match read_metadata(tokens, at + 4) {
        Some(m) => m,
        None => {
            return None;
        },
    };
    let default_value: Option<Vec<u8>> = if has_default {
        Some(slice_to_vec(default_bytes))
    } else {
        None
    };
    Some(
        (
            Field {
                name: name.to_owned(),
                data_type,
                nullable: flags % 2 == 1,
                default_value,
                metadata,
            },
            end,
        ),
    )
}

impl Schema {
    /// The schema that a descriptor holds. Fails where the bytes are not a
    /// descriptor, and where two fields of the descriptor share a name.
    pub fn from_bytes(bytes: &[u8]) -> (r: Result<Schema, Error>)
        ensures
            match r {
                Ok(schema) => schema.wf() && parse_descriptor(bytes@) == Some(
                    schema_record(schema),
                ),
                Err(e) => e is InvalidArgument && (parse_descriptor(bytes@) matches Some(record)
                    ==> !record_names_distinct(record)),
            },
    {
        if bytes.len() < 8 {
            return Err(Error::InvalidArgument("Not a schema descriptor".to_owned()));
        }
        if bytes[0] != 0x55 || bytes[1] != 0x4C || bytes[2] != 0x54 || bytes[3] != 0x52 || bytes[4]
            != 0x41 || bytes[5] != 0x53 || bytes[6] != 0x43 || bytes[7] != 0x48 {
            assert(bytes@.subrange(0, 8)[0] == bytes@[0]);
            assert(bytes@.subrange(0, 8)[1] == bytes@[1]);
            assert(bytes@.subrange(0, 8)[2] == bytes@[2]);
            assert(bytes@.subrange(0, 8)[3] == bytes@[3]);
            assert(bytes@.subrange(0, 8)[4] == bytes@[4]);
            assert(bytes@.subrange(0, 8)[5] == bytes@[5]);
            assert(bytes@.subrange(0, 8)[6] == bytes@[6]);
            assert(bytes@.subrange(0, 8)[7] == bytes@[7]);
            return Err(Error::InvalidArgument("Not a schema descriptor".to_owned()));
        }
        assert(bytes@.subrange(0, 8) =~= schema_magic());
        let tokens: Vec<&[u8]> = match split_tokens(bytes, 8) {
            Some(t) => t,
            None => {
                return Err(Error::InvalidArgument("Schema descriptor is cut short".to_owned()));
            },
        };
        let ghost all = views(tokens@);
        if tokens.len() == 0 {
            return Err(Error::InvalidArgument("Schema descriptor is empty".to_owned()));
        }
        let head: &[u8] = tokens[0];
        assert(all[0] == head@);
        if head.len() != 4 {
            return Err(Error::InvalidArgument("Schema descriptor is damaged".to_owned()));
        }
        proof {
            lemma_pow256_values();
            assert(head@.subrange(0, 4) =~= head@);
        }
        let count: u64 = read_uint_le(head, 0, 4);
        let mut fields: Vec<Field> = Vec::new();
        let mut position: usize = 1;
        let mut k: u64 = 0;
        proof {
            let whole = parse_fields(all, 1, count as nat);
            assert(fields@.map_values(|f: Field| field_record(f)) =~= Seq::<FieldRecord>::empty());
            if whole is Some {
                assert(Seq::<FieldRecord>::empty() + whole.unwrap().0 =~= whole.unwrap().0);
            }
        }
        while k < count
            invariant
                k <= count,
                all == views(tokens@),
                bytes@.len() >= 8,
                bytes@.subrange(0, 8) == schema_magic(),
                parse_chunks(bytes@.subrange(8, bytes@.len() as int)) == Some(all),
                all.len() > 0,
                all[0].len() == 4,
                count == le_value(all[0]),
                parse_fields(all, 1, count as nat) == fields_after(
                    fields@.map_values(|f: Field| field_record(f)),
                    parse_fields(all, position as int, (count - k) as nat),
                ),
            decreases count - k,
        {
            let (field, next) = match read_field(&tokens, position) {
                Some(f) => f,
                None => {
                    return Err(Error::InvalidArgument("Schema descriptor is damaged".to_owned()));
                },
            };
            let ghost before = fields@.map_values(|f: Field| field_record(f));
            proof {
                match parse_fields(all, next as int, (count - k - 1) as nat) {
                    Some((rest, end)) => {
                        assert(before + (seq![field_record(field)] + rest) =~= before.push(
                            field_record(field),
                        ) + rest);
                    },
                    None => {},
                }
            }
            fields.push(field);
            assert(fields@.map_values(|f: Field| field_record(f)) =~= before.push(
                field_record(field),
            ));
            position = next;
            k += 1;
        }
        proof {
            let records = fields@.map_values(|f: Field| field_record(f));
            assert(records + Seq::<FieldRecord>::empty() =~= records);
        }
        let (metadata, end) = match read_metadata(&tokens, position) {
            Some(m) => m,
            None => {
                return Err(Error::InvalidArgument("Schema descriptor is damaged".to_owned()));
            },
        };
        if end != tokens.len() {
            return Err(Error::InvalidArgument("Schema descriptor is too long".to_owned()));
        }
        let ghost records = fields@.map_values(|f: Field| field_record(f));
        let ghost given = fields@;
        match Schema::from_parts(fields, metadata) {
            Ok(schema) => Ok(schema),
            Err(e) => {
                proof {
                    let record = SchemaRecord { fields: records, metadata: metadata.spec_entries() };
                    if record_names_distinct(record) {
                        assert forall|i: int, j: int| 0 <= i < j < given.len() implies given[i].name@
                            != given[j].name@ by {
                            assert(records[i].name == given[i].name@);
                            assert(records[j].name == given[j].name@);
                        }
                    }
                }
                Err(e)
            },
        }
    }
}

/// Two schemas that a descriptor holds alike are the same to their users.
pub proof fn lemma_record_view(a: Schema, b: Schema)
    requires
        schema_record(a) == schema_record(b),
    ensures
        a@ == b@,
{
    a.lemma_view();
    b.lemma_view();
    let fa = a.spec_fields();
    let fb = b.spec_fields();
    let ra = schema_record(a).fields;
    let rb = schema_record(b).fields;
    assert(fa.len() == ra.len());
    assert(fb.len() == rb.len());
    a.spec_metadata().lemma_view();
    b.spec_metadata().lemma_view();
    a.lemma_metadata();
    b.lemma_metadata();
    assert(a@.fields =~= b@.fields) by {
        assert forall|i: int| 0 <= i < fa.len() implies a@.fields[i] == b@.fields[i] by {
            assert(ra[i] == field_record(fa[i]));
            assert(rb[i] == field_record(fb[i]));
            fa[i].metadata.lemma_view();
            fb[i].metadata.lemma_view();
        }
    }
}

/// A schema that can be written is read back from its descriptor: a
/// schema that is read from the descriptor of another is the same to its
/// users.
pub proof fn lemma_schema_round_trip(written: Schema, read: Schema)
    requires
        storable(schema_record(written)),
        parse_descriptor(descriptor_bytes(schema_record(written))) == Some(schema_record(read)),
    ensures
        read@ == written@,
{
    lemma_descriptor_round_trip(schema_record(written));
    lemma_record_view(read, written);
}

} // verus!
