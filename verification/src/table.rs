//! The metadata table of a bottle header: a short list of fields, each a
//! small id with a boolean, a number or a string.

use crate::chunk::chunk_data;
use crate::error::Error;
use crate::text::{decimal_of, format_decimal, quote, quoted};
use crate::zint::{
    bytes_needed, decode_packed_u64, encode_packed_u64, lemma_packed_len,
    lemma_packed_u64_round_trip, packed_u64_bytes, packed_u64_value,
};
use bytes::Bytes;
use vstd::prelude::*;
use vstd::string::{StringExecFns, StringSliceAdditionalSpecFns};
use vstd::utf8::{
    decode_utf8, encode_utf8, encode_utf8_decode_utf8, encode_utf8_valid_utf8, valid_utf8,
};

verus! {

pub const KIND_BOOLEAN: u8 = 3;

pub const KIND_NUMBER: u8 = 2;

pub const KIND_STRING: u8 = 0;

/// The largest id that a field can have.
pub const MAX_ID: u8 = 15;

/// The largest number of bytes that the content of a field can have.
pub const MAX_CONTENT: usize = 1023;

/// What a field holds. A boolean field is true by being there.
pub enum FieldValue {
    Boolean,
    Number(u64),
    String(String),
}

/// One field of a table.
pub struct Field {
    pub id: u8,
    pub value: FieldValue,
}

/// A list of fields, in the order in which they were added. Two fields may
/// have the same id.
pub struct Table {
    pub fields: Vec<Field>,
}

/// What a field holds, as a mathematical value.
pub enum Value {
    Boolean,
    Number(u64),
    Text(Seq<char>),
}

/// A field, as a mathematical value.
pub struct Entry {
    pub id: u8,
    pub value: Value,
}

impl View for FieldValue {
    type V = Value;

    open spec fn view(&self) -> Value {
        match self {
            FieldValue::Boolean => Value::Boolean,
            FieldValue::Number(n) => Value::Number(*n),
            FieldValue::String(s) => Value::Text(s@),
        }
    }
}

impl View for Field {
    type V = Entry;

    open spec fn view(&self) -> Entry {
        Entry { id: self.id, value: self.value@ }
    }
}

impl View for Table {
    type V = Seq<Entry>;

    /// The fields of the table, first added first.
    open spec fn view(&self) -> Seq<Entry> {
        self.fields@.map_values(|f: Field| f@)
    }
}

/// The two bits that say what a field holds.
pub open spec fn kind_of(value: Value) -> u8 {
    match value {
        Value::Boolean => KIND_BOOLEAN,
        Value::Number(_) => KIND_NUMBER,
        Value::Text(_) => KIND_STRING,
    }
}

/// The content bytes of a field: none for a boolean, the packed form of a
/// number, the UTF-8 form of a string.
pub open spec fn content_of(value: Value) -> Seq<u8> {
    match value {
        Value::Boolean => Seq::empty(),
        Value::Number(n) => packed_u64_bytes(n),
        Value::Text(s) => encode_utf8(s),
    }
}

/// A field that a table can hold: its id fits in four bits and its content
/// in ten bits of length.
pub open spec fn entry_valid(entry: Entry) -> bool {
    entry.id <= MAX_ID && content_of(entry.value).len() <= MAX_CONTENT
}

/// Every field is one that a table can hold.
pub open spec fn entries_valid(entries: Seq<Entry>) -> bool {
    forall|i: int| 0 <= i < entries.len() ==> entry_valid(#[trigger] entries[i])
}

/// The encoding of one field: two bytes that hold the kind (2 bits), the id
/// (4 bits) and the length of the content (10 bits), then the content.
pub open spec fn entry_bytes(entry: Entry) -> Seq<u8> {
    let content = content_of(entry.value);
    seq![
        (kind_of(entry.value) * 64 + entry.id * 4 + content.len() / 256) as u8,
        (content.len() % 256) as u8,
    ] + content
}

/// The encoding of a table: the encodings of its fields, in order.
pub open spec fn table_bytes(entries: Seq<Entry>) -> Seq<u8>
    decreases entries.len(),
{
    if entries.len() == 0 {
        Seq::empty()
    } else {
        entry_bytes(entries[0]) + table_bytes(entries.drop_first())
    }
}

/// The value that content bytes of the given kind stand for. A number of
/// more than eight bytes, a string that is not UTF-8 and the reserved kind
/// are errors.
pub open spec fn parse_value(kind: u8, content: Seq<u8>) -> Result<Value, Error> {
    if kind == KIND_BOOLEAN {
        Ok(Value::Boolean)
    } else if kind == KIND_NUMBER {
        if content.len() <= 8 {
            Ok(Value::Number(packed_u64_value(content) as u64))
        } else {
            Err(Error::NumberTooLong)
        }
    } else if kind == KIND_STRING {
        if valid_utf8(content) {
            Ok(Value::Text(decode_utf8(content)))
        } else {
            Err(Error::InvalidUtf8)
        }
    } else {
        Err(Error::UnknownFieldKind)
    }
}

/// The fields that `done` holds, followed by those that `rest` holds, or
/// the error that `rest` is.
pub open spec fn entries_then(done: Seq<Entry>, rest: Result<Seq<Entry>, Error>) -> Result<
    Seq<Entry>,
    Error,
> {
    match rest {
        Ok(entries) => Ok(done + entries),
        Err(e) => Err(e),
    }
}

/// The table that `bytes` encode, or the error of the first field that
/// cannot be read: the bytes end inside its two header bytes, it announces
/// more content than is left, or its content is not what its kind allows.
pub open spec fn parse_table(bytes: Seq<u8>) -> Result<Seq<Entry>, Error>
    decreases bytes.len(),
{
    if bytes.len() == 0 {
        Ok(Seq::empty())
    } else if bytes.len() < 2 {
        Err(Error::TruncatedTable)
    } else {
        let kind = bytes[0] / 64;
        let id = (bytes[0] / 4) % 16;
        let length = (bytes[0] % 4) * 256 + bytes[1];
        if 2 + length > bytes.len() {
            Err(Error::TruncatedField)
        } else {
            match parse_value(kind as u8, bytes.subrange(2, 2 + length)) {
                Err(e) => Err(e),
                Ok(value) => entries_then(
                    seq![Entry { id: id as u8, value }],
                    parse_table(bytes.skip(2 + length)),
                ),
            }
        }
    }
}

/// A field as text: `B`, `N` or `S` for what it holds, its id, and for a
/// number or a string `=` and the value, a string in quotes.
pub open spec fn entry_text(entry: Entry) -> Seq<char> {
    match entry.value {
        Value::Boolean => "B"@ + decimal_of(entry.id as nat),
        Value::Number(n) => "N"@ + decimal_of(entry.id as nat) + "="@ + decimal_of(n as nat),
        Value::Text(s) => "S"@ + decimal_of(entry.id as nat) + "="@ + quoted(s),
    }
}

/// Fields as text, with a comma and a space between one and the next.
pub open spec fn entries_text(entries: Seq<Entry>) -> Seq<char>
    decreases entries.len(),
{
    if entries.len() == 0 {
        Seq::empty()
    } else if entries.len() == 1 {
        entry_text(entries[0])
    } else {
        entries_text(entries.drop_last()) + ", "@ + entry_text(entries.last())
    }
}

/// A table as text: its fields between `Table(` and `)`.
pub open spec fn table_text(entries: Seq<Entry>) -> Seq<char> {
    "Table("@ + entries_text(entries) + ")"@
}

/// The encoding of two lists of fields, one after the other, is the
/// encoding of the first followed by that of the second.
pub proof fn lemma_table_bytes_concat(front: Seq<Entry>, back: Seq<Entry>)
    ensures
        table_bytes(front + back) == table_bytes(front) + table_bytes(back),
    decreases front.len(),
{
    if front.len() == 0 {
        assert(front + back =~= back);
        assert(table_bytes(front) + table_bytes(back) =~= table_bytes(back));
    } else {
        lemma_table_bytes_concat(front.drop_first(), back);
        assert((front + back).drop_first() =~= front.drop_first() + back);
        assert((front + back)[0] == front[0]);
        assert(entry_bytes(front[0]) + (table_bytes(front.drop_first()) + table_bytes(back))
            =~= (entry_bytes(front[0]) + table_bytes(front.drop_first())) + table_bytes(back));
    }
}

/// The two header bytes of a field give back its kind, its id and the
/// length of its content.
pub proof fn lemma_field_header_round_trip(kind: u8, id: u8, length: int)
    requires
        kind <= 3,
        id <= MAX_ID,
        0 <= length <= MAX_CONTENT,
    ensures
        ({
            let b0 = kind * 64 + id * 4 + length / 256;
            let b1 = length % 256;
            &&& b0 <= 255
            &&& b0 / 64 == kind
            &&& (b0 / 4) % 16 == id
            &&& (b0 % 4) * 256 + b1 == length
        }),
{
}

/// The content of a field that a table can hold gives back what the field
/// holds.
pub proof fn lemma_value_round_trip(value: Value)
    requires
        content_of(value).len() <= MAX_CONTENT,
    ensures
        parse_value(kind_of(value), content_of(value)) == Ok::<Value, Error>(value),
{
    match value {
        Value::Boolean => {},
        Value::Number(n) => {
            lemma_packed_u64_round_trip(n);
        },
        Value::Text(s) => {
            encode_utf8_valid_utf8(s);
            encode_utf8_decode_utf8(s);
        },
    }
}

/// Decoding the encoding of a table gives the same fields in the same
/// order, whatever the table, as long as each field is one that a table can
/// hold.
pub proof fn lemma_table_round_trip(entries: Seq<Entry>)
    requires
        entries_valid(entries),
    ensures
        parse_table(table_bytes(entries)) == Ok::<Seq<Entry>, Error>(entries),
    decreases entries.len(),
{
    if entries.len() == 0 {
        assert(entries =~= Seq::<Entry>::empty());
    } else {
        let first = entries[0];
        let rest = entries.drop_first();
        let content = content_of(first.value);
        let bytes = table_bytes(entries);
        assert(entry_valid(first));
        assert(entries_valid(rest)) by {
            assert forall|i: int| 0 <= i < rest.len() implies entry_valid(#[trigger] rest[i]) by {
                assert(rest[i] == entries[i + 1]);
            }
        }
        lemma_table_round_trip(rest);
        let length = content.len() as int;
        let kind = kind_of(first.value);
        lemma_field_header_round_trip(kind, first.id, length);
        lemma_value_round_trip(first.value);
        assert(bytes == entry_bytes(first) + table_bytes(rest));
        assert(bytes[0] == entry_bytes(first)[0]);
        assert(bytes[1] == entry_bytes(first)[1]);
        assert(bytes.subrange(2, 2 + length) =~= content);
        assert(bytes.skip(2 + length) =~= table_bytes(rest));
        assert(seq![first] + rest =~= entries);
        assert(Entry { id: ((bytes[0] / 4) % 16) as u8, value: first.value } == first);
    }
}

impl Table {
    /// Every field is one that a table can hold.
    pub open spec fn wf(self) -> bool {
        entries_valid(self@)
    }

    /// A table with no fields.
    pub fn new() -> (table: Table)
        ensures
            table@ == Seq::<Entry>::empty(),
            table.wf(),
    {
        let table = Table { fields: Vec::new() };
        assert(table@ =~= Seq::<Entry>::empty());
        table
    }

    /// Adds `field` behind the fields that are there.
    fn add(&mut self, field: Field)
        requires
            old(self).wf(),
            entry_valid(field@),
        ensures
            final(self).wf(),
            final(self)@ == old(self)@.push(field@),
    {
        self.fields.push(field);
        assert(self@ =~= old(self)@.push(field@));
    }

    /// Adds a boolean field, which is true by being there.
    pub fn add_bool(&mut self, id: u8)
        requires
            old(self).wf(),
            id <= MAX_ID,
        ensures
            final(self).wf(),
            final(self)@ == old(self)@.push(Entry { id, value: Value::Boolean }),
    {
        self.add(Field { id, value: FieldValue::Boolean });
    }

    /// Adds a number field.
    pub fn add_number(&mut self, id: u8, value: u64)
        requires
            old(self).wf(),
            id <= MAX_ID,
        ensures
            final(self).wf(),
            final(self)@ == old(self)@.push(Entry { id, value: Value::Number(value) }),
    {
        proof {
            lemma_packed_len(value);
        }
        self.add(Field { id, value: FieldValue::Number(value) });
    }

    /// Adds a string field. The string takes 1023 bytes at most in UTF-8.
    pub fn add_string(&mut self, id: u8, value: String)
        requires
            old(self).wf(),
            id <= MAX_ID,
            encode_utf8(value@).len() <= MAX_CONTENT,
        ensures
            final(self).wf(),
            final(self)@ == old(self)@.push(Entry { id, value: Value::Text(value@) }),
    {
        self.add(Field { id, value: FieldValue::String(value) });
    }

    /// The fields as text, with a comma and a space between one and the
    /// next.
    pub fn fields_to_string(&self) -> (text: String)
        ensures
            text@ == entries_text(self@),
    {
        let mut text = String::new();
        let mut i: usize = 0;
        assert(self@.take(0) =~= Seq::<Entry>::empty());
        while i < self.fields.len()
            invariant
                i <= self.fields.len(),
                text@ == entries_text(self@.take(i as int)),
            decreases self.fields.len() - i,
        {
            let f = &self.fields[i];
            let ghost before = text@;
            let ghost entry = self@[i as int];
            proof {
                assert(entry == f@);
                assert(self@.take(i + 1).drop_last() =~= self@.take(i as int));
                assert(self@.take(i + 1).last() == entry);
                if i == 0 {
                    assert(self@.take(1)[0] == entry);
                }
            }
            if i > 0 {
                text.append(", ");
            }
            let ghost start = text@;
            let id = format_decimal(f.id as u64);
            match &f.value {
                FieldValue::Boolean => {
                    text.append("B");
                    text.append(id.as_str());
                },
                FieldValue::Number(value) => {
                    text.append("N");
                    text.append(id.as_str());
                    text.append("=");
                    text.append(format_decimal(*value).as_str());
                },
                FieldValue::String(value) => {
                    text.append("S");
                    text.append(id.as_str());
                    text.append("=");
                    text.append(quote(value.as_str()).as_str());
                },
            }
            assert(text@ =~= start + entry_text(entry));
            assert(i > 0 ==> text@ =~= before + ", "@ + entry_text(entry));
            assert(i == 0 ==> text@ =~= entry_text(entry));
            i += 1;
        }
        assert(self@.take(i as int) =~= self@);
        text
    }

    /// The table as text, as in `Table(B1, N10=1000, S3="iron")`.
    pub fn to_debug_string(&self) -> (text: String)
        ensures
            text@ == table_text(self@),
    {
        let mut text = String::from_str("Table(");
        text.append(self.fields_to_string().as_str());
        text.append(")");
        text
    }

    /// Appends the encoding of the table to `writer`.
    pub fn write(&self, writer: &mut Vec<u8>)
        requires
            self.wf(),
        ensures
            final(writer)@ == old(writer)@ + table_bytes(self@),
    {
        let mut i: usize = 0;
        proof {
            assert(self@.take(0) =~= Seq::<Entry>::empty());
            assert(old(writer)@ + table_bytes(self@.take(0)) =~= old(writer)@);
        }
        while i < self.fields.len()
            invariant
                i <= self.fields.len(),
                self.wf(),
                writer@ == old(writer)@ + table_bytes(self@.take(i as int)),
            decreases self.fields.len() - i,
        {
            let f = &self.fields[i];
            let ghost entry = self@[i as int];
            let ghost written = writer@;
            proof {
                assert(entry == f@);
                assert(entry_valid(entry));
                assert(self@.take(i + 1) =~= self@.take(i as int) + seq![entry]);
                lemma_table_bytes_concat(self@.take(i as int), seq![entry]);
                assert(seq![entry].drop_first() =~= Seq::<Entry>::empty());
                assert(table_bytes(seq![entry].drop_first()) =~= Seq::<u8>::empty());
                assert(seq![entry][0] == entry);
                assert(table_bytes(seq![entry]) =~= entry_bytes(entry));
            }
            let content_length: usize = match &f.value {
                FieldValue::Boolean => 0,
                FieldValue::Number(value) => bytes_needed(*value),
                FieldValue::String(value) => value.as_str().len(),
            };
            let kind: u8 = match &f.value {
                FieldValue::Boolean => KIND_BOOLEAN,
                FieldValue::Number(_) => KIND_NUMBER,
                FieldValue::String(_) => KIND_STRING,
            };
            let id: u8 = f.id;
            assert(content_length == content_of(entry.value).len());
            assert(kind <= 3 && id <= 15 && content_length <= 1023 ==> (kind << 6) | (id << 2) | ((
            content_length >> 8) & 0x3) as u8 == kind * 64 + id * 4 + content_length / 256
                && (content_length & 0xff) as u8 == content_length % 256) by (bit_vector);
            writer.push((kind << 6) | (id << 2) | (((content_length >> 8) & 0x3) as u8));
            writer.push((content_length & 0xff) as u8);
            match &f.value {
                FieldValue::Boolean => {},
                FieldValue::Number(value) => {
                    let packed = encode_packed_u64(*value);
                    writer.extend_from_slice(packed.as_ref());
                },
                FieldValue::String(value) => {
                    writer.extend_from_slice(value.as_str().as_bytes());
                },
            }
            assert(writer@ =~= written + entry_bytes(entry));
            assert(writer@ =~= old(writer)@ + (table_bytes(self@.take(i as int)) + entry_bytes(
                entry,
            )));
            i += 1;
        }
        assert(self@.take(i as int) =~= self@);
    }

    /// The encoding of the table.
    pub fn encode(&self) -> (encoded: Bytes)
        requires
            self.wf(),
        ensures
            chunk_data(encoded) == table_bytes(self@),
    {
        let mut buffer: Vec<u8> = Vec::new();
        self.write(&mut buffer);
        assert(buffer@ =~= table_bytes(self@));
        Bytes::from(buffer)
    }

    /// Reads a table from its encoding. The bytes must hold whole fields
    /// and nothing else.
    pub fn decode(buffer: Bytes) -> (decoded: Result<Table, Error>)
        ensures
            match decoded {
                Ok(table) => table.wf() && parse_table(chunk_data(buffer)) == Ok::<
                    Seq<Entry>,
                    Error,
                >(table@),
                Err(e) => parse_table(chunk_data(buffer)) == Err::<Seq<Entry>, Error>(e),
            },
    {
        let mut table = Table::new();
        let bytes = buffer.as_ref();
        let mut i: usize = 0;
        proof {
            assert(bytes@.skip(0) =~= bytes@);
            assert(Seq::<Entry>::empty() + parse_table(bytes@)->Ok_0 =~= parse_table(bytes@)->Ok_0);
        }
        while i < bytes.len()
            invariant
                i <= bytes.len(),
                bytes@ == chunk_data(buffer),
                table.wf(),
                parse_table(bytes@) == entries_then(table@, parse_table(bytes@.skip(i as int))),
            decreases bytes.len() - i,
        {
            let ghost tail = bytes@.skip(i as int);
            if bytes.len() - i < 2 {
                return Err(Error::TruncatedTable);
            }
            let b0: u8 = bytes[i];
            let b1: u8 = bytes[i + 1];
            assert(tail[0] == b0 && tail[1] == b1);
            assert((b0 & 0xc0) >> 6 == b0 / 64 && (b0 & 0x3c) >> 2 == (b0 / 4) % 16 && (b0 & 0x3)
                == b0 % 4) by (bit_vector);
            let kind: u8 = (b0 & 0xc0) >> 6;
            let id: u8 = (b0 & 0x3c) >> 2;
            let hi: usize = (b0 & 0x3) as usize;
            assert(hi < 4 ==> (hi << 8) == hi * 256) by (bit_vector);
            let length: usize = (hi << 8) + (b1 as usize);
            i += 2;
            if length > bytes.len() - i {
                return Err(Error::TruncatedField);
            }
            let content = buffer.slice(i, i + length);
            assert(chunk_data(content) =~= tail.subrange(2, 2 + length));
            let value = if kind == KIND_BOOLEAN {
                FieldValue::Boolean
            } else if kind == KIND_NUMBER {
                if length > 8 {
                    return Err(Error::NumberTooLong);
                }
                let number = decode_packed_u64(content);
                FieldValue::Number(number)
            } else if kind == KIND_STRING {
                match core::str::from_utf8(content.as_ref()) {
                    Ok(text) => {
                        proof {
                            encode_utf8_decode_utf8(text@);
                        }
                        FieldValue::String(text.to_owned())
                    },
                    Err(_) => {
                        return Err(Error::InvalidUtf8);
                    },
                }
            } else {
                return Err(Error::UnknownFieldKind);
            };
            let field = Field { id, value };
            proof {
                assert(parse_value(kind, chunk_data(content)) == Ok::<Value, Error>(value@));
                assert(tail.skip(2 + length) =~= bytes@.skip(i + length));
                let rest = parse_table(bytes@.skip(i + length));
                if rest is Ok {
                    assert(table@.push(field@) + rest->Ok_0 =~= table@ + (seq![field@]
                        + rest->Ok_0));
                }
                assert(content_of(value@).len() <= MAX_CONTENT) by {
                    match value@ {
                        Value::Boolean => {},
                        Value::Number(n) => {
                            lemma_packed_len(n);
                        },
                        Value::Text(s) => {},
                    }
                }
            }
            table.add(field);
            i += length;
        }
        Ok(table)
    }
}

} // verus!
