//! The header of a bottle: magic, version, the type of the bottle, and its
//! metadata table.

use crate::chunk::{chunk_data, chunk_views, chunks_data, lemma_chunks_data_push};
use crate::error::Error;
use crate::stream_toolkit::helpers::VecStream;
use crate::stream_toolkit::readable_byte_stream::{
    lemma_drained_split, ReadMode, ReadableByteStream,
};
use crate::table::{parse_table, table_bytes, table_text, Entry, Table};
use bytes::Bytes;
use vstd::prelude::*;
use vstd::string::StringExecFns;

verus! {

pub const VERSION: u8 = 0;

/// The largest number of bytes that the encoding of a header's table can
/// have.
pub const MAX_TABLE_SIZE: usize = 4095;

/// The four bytes that every bottle starts with.
pub open spec fn magic() -> Seq<u8> {
    seq![0xf0u8, 0x9fu8, 0x8du8, 0xbcu8]
}

/// What a bottle holds.
#[derive(Clone, Copy, Debug, PartialEq, Eq, Structural)]
pub enum BottleType {
    File,
    Hashed,
    Encrypted,
    Compressed,
    Test,
    Test2,
}

impl BottleType {
    /// The four bits that stand for the type in a header.
    pub open spec fn spec_code(self) -> u8 {
        match self {
            BottleType::File => 0,
            BottleType::Hashed => 1,
            BottleType::Encrypted => 3,
            BottleType::Compressed => 4,
            BottleType::Test => 10,
            BottleType::Test2 => 11,
        }
    }

    /// The name of the type.
    pub open spec fn spec_name(self) -> Seq<char> {
        match self {
            BottleType::File => "File"@,
            BottleType::Hashed => "Hashed"@,
            BottleType::Encrypted => "Encrypted"@,
            BottleType::Compressed => "Compressed"@,
            BottleType::Test => "Test"@,
            BottleType::Test2 => "Test2"@,
        }
    }

    /// The name of the type.
    pub fn name(self) -> (name: &'static str)
        ensures
            name@ == self.spec_name(),
    {
        match self {
            BottleType::File => "File",
            BottleType::Hashed => "Hashed",
            BottleType::Encrypted => "Encrypted",
            BottleType::Compressed => "Compressed",
            BottleType::Test => "Test",
            BottleType::Test2 => "Test2",
        }
    }

    /// The four bits that stand for the type in a header.
    #[verifier::when_used_as_spec(spec_code)]
    pub fn code(self) -> (code: u8)
        ensures
            code == self.spec_code(),
    {
        match self {
            BottleType::File => 0,
            BottleType::Hashed => 1,
            BottleType::Encrypted => 3,
            BottleType::Compressed => 4,
            BottleType::Test => 10,
            BottleType::Test2 => 11,
        }
    }
}

/// The type that four bits of a header stand for, if any.
pub open spec fn bottle_type_of(code: u8) -> Option<BottleType> {
    if code == 0 {
        Some(BottleType::File)
    } else if code == 1 {
        Some(BottleType::Hashed)
    } else if code == 3 {
        Some(BottleType::Encrypted)
    } else if code == 4 {
        Some(BottleType::Compressed)
    } else if code == 10 {
        Some(BottleType::Test)
    } else if code == 11 {
        Some(BottleType::Test2)
    } else {
        None
    }
}

/// The type that four bits of a header stand for. The codes that the
/// format does not define are refused.
pub fn decode_bottle_type(btype: u8) -> (decoded: Result<BottleType, Error>)
    ensures
        decoded == match bottle_type_of(btype) {
            Some(bottle_type) => Ok::<BottleType, Error>(bottle_type),
            None => Err(Error::UnknownBottleType { code: btype }),
        },
{
    match btype {
        0 => Ok(BottleType::File),
        1 => Ok(BottleType::Hashed),
        3 => Ok(BottleType::Encrypted),
        4 => Ok(BottleType::Compressed),
        10 => Ok(BottleType::Test),
        11 => Ok(BottleType::Test2),
        _ => Err(Error::UnknownBottleType { code: btype }),
    }
}

/// The type of a bottle and its metadata table.
pub struct Header {
    pub bottle_type: BottleType,
    pub table: Table,
}

impl View for Header {
    type V = (BottleType, Seq<Entry>);

    open spec fn view(&self) -> (BottleType, Seq<Entry>) {
        (self.bottle_type, self.table@)
    }
}

/// The eight bytes in front of the table: the magic, a version byte and a
/// flags byte that are both zero, then the type (4 bits) and the length of
/// the table's encoding (12 bits).
pub open spec fn preamble_bytes(bottle_type: BottleType, table_len: nat) -> Seq<u8> {
    magic() + seq![
        VERSION,
        0u8,
        (bottle_type.spec_code() * 16 + table_len / 256) as u8,
        (table_len % 256) as u8,
    ]
}

/// The encoding of a header: the preamble, then the table.
pub open spec fn header_bytes(header: (BottleType, Seq<Entry>)) -> Seq<u8> {
    preamble_bytes(header.0, table_bytes(header.1).len()) + table_bytes(header.1)
}

/// The three buffers that a header is written as: the magic, the rest of
/// the preamble, and the table.
pub open spec fn header_pieces(header: (BottleType, Seq<Entry>)) -> Seq<Seq<u8>> {
    seq![
        magic(),
        preamble_bytes(header.0, table_bytes(header.1).len()).skip(4),
        table_bytes(header.1),
    ]
}

/// What the eight bytes in front of a table say: the type of the bottle
/// and the length of the table's encoding. The magic is checked first, then
/// version and flags, then the type.
pub open spec fn parse_preamble(bytes: Seq<u8>) -> Result<(BottleType, usize), Error>
    recommends
        bytes.len() >= 8,
{
    if bytes.subrange(0, 4) != magic() {
        Err(Error::BadMagic)
    } else if bytes[4] != VERSION || bytes[5] != 0 {
        Err(Error::BadVersion { version: bytes[4], flags: bytes[5] })
    } else {
        match bottle_type_of(bytes[6] / 16) {
            None => Err(Error::UnknownBottleType { code: bytes[6] / 16 }),
            Some(bottle_type) => Ok((bottle_type, ((bytes[6] % 16) * 256 + bytes[7]) as usize)),
        }
    }
}

/// The header that `bytes` start with, and the bytes behind it. The bytes
/// may end before the header does; the preamble may be wrong; the table
/// may be.
pub open spec fn parse_header(bytes: Seq<u8>) -> Result<((BottleType, Seq<Entry>), Seq<u8>), Error> {
    if bytes.len() < 8 {
        Err(Error::UnexpectedEof)
    } else {
        match parse_preamble(bytes.take(8)) {
            Err(e) => Err(e),
            Ok((bottle_type, table_len)) => {
                if bytes.len() < 8 + table_len {
                    Err(Error::UnexpectedEof)
                } else {
                    match parse_table(bytes.subrange(8, 8 + table_len)) {
                        Err(e) => Err(e),
                        Ok(entries) => Ok(((bottle_type, entries), bytes.skip(8 + table_len))),
                    }
                }
            },
        }
    }
}

/// Reads the eight bytes in front of a table.
pub fn check_magic(buffer: Bytes) -> (checked: Result<(BottleType, usize), Error>)
    requires
        chunk_data(buffer).len() >= 8,
    ensures
        checked == parse_preamble(chunk_data(buffer)),
        checked matches Ok((_, table_len)) ==> table_len <= MAX_TABLE_SIZE,
{
    let bytes = buffer.as_ref();
    assert(bytes@.subrange(0, 4) == magic() <==> bytes[0] == 0xf0 && bytes[1] == 0x9f && bytes[2]
        == 0x8d && bytes[3] == 0xbc) by {
        if bytes[0] == 0xf0 && bytes[1] == 0x9f && bytes[2] == 0x8d && bytes[3] == 0xbc {
            assert(bytes@.subrange(0, 4) =~= magic());
        } else {
            assert(bytes@.subrange(0, 4)[0] == bytes[0]);
            assert(bytes@.subrange(0, 4)[1] == bytes[1]);
            assert(bytes@.subrange(0, 4)[2] == bytes[2]);
            assert(bytes@.subrange(0, 4)[3] == bytes[3]);
        }
    }
    if bytes[0] != 0xf0 || bytes[1] != 0x9f || bytes[2] != 0x8d || bytes[3] != 0xbc {
        return Err(Error::BadMagic);
    }
    if bytes[4] != VERSION || bytes[5] != 0 {
        return Err(Error::BadVersion { version: bytes[4], flags: bytes[5] });
    }
    let b6: u8 = bytes[6];
    assert((b6 >> 4) & 0xf == b6 / 16 && b6 & 0xf == b6 % 16) by (bit_vector);
    let btype = match decode_bottle_type((b6 >> 4) & 0xf) {
        Ok(btype) => btype,
        Err(e) => {
            return Err(e);
        },
    };
    let hi: usize = (b6 & 0xf) as usize;
    assert(hi < 16 ==> (hi << 8) == hi * 256) by (bit_vector);
    let header_length: usize = (hi << 8) + (bytes[7] as usize);
    Ok((btype, header_length))
}

impl Header {
    /// The table is well formed.
    pub open spec fn wf(self) -> bool {
        self.table.wf()
    }

    /// A header of the given type and table.
    pub fn new(bottle_type: BottleType, table: Table) -> (header: Header)
        ensures
            header.bottle_type == bottle_type,
            header.table == table,
    {
        Header { bottle_type, table }
    }

    /// The header as text, as in `Header(Test, Table(N0=150))`.
    pub fn to_debug_string(&self) -> (text: String)
        ensures
            text@ == "Header("@ + self.bottle_type.spec_name() + ", "@ + table_text(self.table@)
                + ")"@,
    {
        let mut text = String::from_str("Header(");
        text.append(self.bottle_type.name());
        text.append(", ");
        text.append(self.table.to_debug_string().as_str());
        text.append(")");
        text
    }

    /// The encoding of the header as a stream of three buffers: the magic,
    /// the rest of the preamble, and the table. The table's encoding must
    /// fit in twelve bits of length.
    pub fn encode(&self) -> (stream: VecStream<Bytes>)
        requires
            self.wf(),
            table_bytes(self.table@).len() <= MAX_TABLE_SIZE,
        ensures
            chunk_views(stream@) == header_pieces(self@),
            chunks_data(stream@) == header_bytes(self@),
    {
        let table_bytes = self.table.encode();
        let bottle_type_u8: u8 = self.bottle_type.code();
        let table_len: usize = table_bytes.len();
        assert(bottle_type_u8 < 16 && table_len <= 4095 ==> (bottle_type_u8 << 4) | ((table_len >> 8)
            & 0xf) as u8 == bottle_type_u8 * 16 + table_len / 256 && (table_len & 0xff) as u8
            == table_len % 256) by (bit_vector);
        let magic: Vec<u8> = vec![0xf0, 0x9f, 0x8d, 0xbc];
        let version: Vec<u8> = vec![
            VERSION,
            0,
            (bottle_type_u8 << 4) | (((table_len >> 8) & 0xf) as u8),
            (table_len & 0xff) as u8,
        ];
        assert(magic@ =~= self::magic());
        assert(magic@ + version@ =~= preamble_bytes(self.bottle_type, table_len as nat));
        let mut stream: VecStream<Bytes> = VecStream::empty();
        let first = Bytes::from(magic);
        let second = Bytes::from(version);
        proof {
            lemma_chunks_data_push(Seq::<Bytes>::empty(), first);
            lemma_chunks_data_push(seq![first], second);
            lemma_chunks_data_push(seq![first, second], table_bytes);
            assert(Seq::<Bytes>::empty().push(first) =~= seq![first]);
            assert(seq![first].push(second) =~= seq![first, second]);
            assert(seq![first, second].push(table_bytes) =~= seq![first, second, table_bytes]);
            assert(chunks_data(Seq::<Bytes>::empty()) =~= Seq::<u8>::empty());
        }
        stream.push(first);
        stream.push(second);
        stream.push(table_bytes);
        assert(stream@ =~= seq![first, second, table_bytes]);
        assert(version@ =~= preamble_bytes(self.bottle_type, table_len as nat).skip(4));
        assert(chunk_views(stream@) =~= header_pieces(self@));
        assert(chunks_data(stream@) =~= (magic@ + version@) + chunk_data(table_bytes));
        stream
    }

    /// Reads a header from the front of a stream, and hands back the
    /// header with a reader on what follows it.
    pub fn decode(s: ReadableByteStream<VecStream<Bytes>>) -> (decoded: Result<
        (Header, ReadableByteStream<VecStream<Bytes>>),
        Error,
    >)
        requires
            s.wf(),
            s.remaining().len() <= usize::MAX,
        ensures
            match parse_header(s.remaining()) {
                Err(e) => decoded == Err::<(Header, ReadableByteStream<VecStream<Bytes>>), Error>(
                    e,
                ),
                Ok((header, rest)) => decoded matches Ok((h, s2)) && h@ == header && h.wf()
                    && s2.wf() && s2.remaining() == rest,
            },
    {
        let ghost all = s.chunks();
        let ghost bytes = s.remaining();
        let (frame, s) = match s.read_exact(8).wait() {
            Ok(done) => done,
            Err(e) => {
                return Err(e);
            },
        };
        proof {
            lemma_drained_split(all, 8, ReadMode::Exact, frame, s.chunks());
        }
        let (bottle_type, header_length) = match check_magic(frame.pack()) {
            Ok(checked) => checked,
            Err(e) => {
                return Err(e);
            },
        };
        let ghost behind = s.chunks();
        let (frame, s) = match s.read_exact(header_length).wait() {
            Ok(done) => done,
            Err(e) => {
                return Err(e);
            },
        };
        proof {
            lemma_drained_split(behind, header_length, ReadMode::Exact, frame, s.chunks());
            assert(bytes.skip(8).take(header_length as int) =~= bytes.subrange(
                8,
                8 + header_length,
            ));
            assert(bytes.skip(8).skip(header_length as int) =~= bytes.skip(8 + header_length));
        }
        match Table::decode(frame.pack()) {
            Ok(table) => Ok((Header::new(bottle_type, table), s)),
            Err(e) => Err(e),
        }
    }
}

} // verus!
