//! A metadata table on its own, written to and read from plain bytes, for
//! callers that hold no reference-counted buffers. The fields, their
//! encoding and its errors are those of [`Table`].

use crate::error::Error;
use crate::table::{entries_text, parse_table, table_bytes, Entry, Table, Value, MAX_CONTENT, MAX_ID};
use bytes::Bytes;
use vstd::prelude::*;
use vstd::slice::slice_to_vec;
use vstd::string::StringExecFns;
use vstd::utf8::encode_utf8;

verus! {

/// A list of fields, in the order in which they were added.
pub struct Header {
    pub table: Table,
}

impl View for Header {
    type V = Seq<Entry>;

    /// The fields of the header, first added first.
    open spec fn view(&self) -> Seq<Entry> {
        self.table@
    }
}

impl Header {
    /// Every field is one that a table can hold.
    pub open spec fn wf(self) -> bool {
        self.table.wf()
    }

    /// A header with no fields.
    pub fn new() -> (header: Header)
        ensures
            header@ == Seq::<Entry>::empty(),
            header.wf(),
    {
        Header { table: Table::new() }
    }

    /// Adds a boolean field, which is true by being there.
    pub fn add_bool(&mut self, id: u8)
        requires
            old(self).wf(),
            id <= MAX_ID,
        ensures
            final(self).wf(),
            final(self)@ == old(self)@.push(Entry { id, value: Value::Boolean }),
    {
        self.table.add_bool(id);
    }

    /// Adds a number field.
    pub fn add_number(&mut self, id: u8, value: u64)
        requires
            old(self).wf(),
            id <= MAX_ID,
        ensures
            final(self).wf(),
            final(self)@ == old(self)@.push(Entry { id, value: Value::Number(value) }),
    {
        self.table.add_number(id, value);
    }

    /// Adds a string field. The string takes 1023 bytes at most in UTF-8.
    pub fn add_string(&mut self, id: u8, value: String)
        requires
            old(self).wf(),
            id <= MAX_ID,
            encode_utf8(value@).len() <= MAX_CONTENT,
        ensures
            final(self).wf(),
            final(self)@ == old(self)@.push(Entry { id, value: Value::Text(value@) }),
    {
        self.table.add_string(id, value);
    }

    /// Appends the encoding of the header to `writer`.
    pub fn write(&self, writer: &mut Vec<u8>)
        requires
            self.wf(),
        ensures
            final(writer)@ == old(writer)@ + table_bytes(self@),
    {
        self.table.write(writer);
    }

    /// The encoding of the header.
    pub fn encode(&self) -> (encoded: Vec<u8>)
        requires
            self.wf(),
        ensures
            encoded@ == table_bytes(self@),
    {
        let mut buffer: Vec<u8> = Vec::new();
        self.write(&mut buffer);
        assert(buffer@ =~= table_bytes(self@));
        buffer
    }

    /// Reads a header from its encoding. The bytes must hold whole fields
    /// and nothing else.
    pub fn decode(buffer: &[u8]) -> (decoded: Result<Header, Error>)
        ensures
            match decoded {
                Ok(header) => header.wf() && parse_table(buffer@) == Ok::<Seq<Entry>, Error>(
                    header@,
                ),
                Err(e) => parse_table(buffer@) == Err::<Seq<Entry>, Error>(e),
            },
    {
        match Table::decode(Bytes::from(slice_to_vec(buffer))) {
            Ok(table) => Ok(Header { table }),
            Err(e) => Err(e),
        }
    }

    /// The header as text, as in `Header(B1, N10=1000)`.
    pub fn to_debug_string(&self) -> (text: String)
        ensures
            text@ == "Header("@ + entries_text(self@) + ")"@,
    {
        let mut text = String::from_str("Header(");
        text.append(self.table.fields_to_string().as_str());
        text.append(")");
        text
    }
}

} // verus!
