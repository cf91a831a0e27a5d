//! Bytes as lower-case hexadecimal text, and back.

use crate::chunk::chunk_data;
use crate::text::{hex_char, hex_digit_char, push_char};
use bytes::Bytes;
use vstd::prelude::*;
use vstd::string::{StringExecFns, StringSliceAdditionalSpecFns};

verus! {

/// The two digits of each byte, high digit first.
pub open spec fn hex_of(bytes: Seq<u8>) -> Seq<char>
    decreases bytes.len(),
{
    if bytes.len() == 0 {
        Seq::empty()
    } else {
        hex_of(bytes.drop_last()) + seq![hex_char(bytes.last() / 16u8), hex_char(bytes.last() % 16u8)]
    }
}

/// The value of a digit in either case, as the byte that stands for it in
/// text; `None` for any other byte.
pub open spec fn digit_value(digit: u8) -> Option<u8> {
    if '0' as u8 <= digit <= '9' as u8 {
        Some((digit - '0' as u8) as u8)
    } else if 'a' as u8 <= digit <= 'f' as u8 {
        Some((digit - 'a' as u8 + 10) as u8)
    } else if 'A' as u8 <= digit <= 'F' as u8 {
        Some((digit - 'A' as u8 + 10) as u8)
    } else {
        None
    }
}

/// The first `pairs` pairs of `text` are digits.
pub open spec fn is_hex(text: Seq<u8>, pairs: int) -> bool {
    &&& 2 * pairs <= text.len()
    &&& forall|i: int| 0 <= i < 2 * pairs ==> digit_value(#[trigger] text[i]) is Some
}

/// The bytes that the first `pairs` pairs of digits of `text` stand for.
pub open spec fn unhex(text: Seq<u8>, pairs: int) -> Seq<u8>
    recommends
        is_hex(text, pairs),
    decreases pairs,
{
    if pairs <= 0 {
        Seq::empty()
    } else {
        unhex(text, pairs - 1).push(
            (digit_value(text[2 * pairs - 2])->0 * 16 + digit_value(text[2 * pairs - 1])->0) as u8,
        )
    }
}

/// The hexadecimal text of a slice of bytes.
fn slice_to_hex(bytes: &[u8]) -> (text: String)
    ensures
        text@ == hex_of(bytes@),
{
    let mut text = String::new();
    let mut i: usize = 0;
    assert(bytes@.take(0) =~= Seq::<u8>::empty());
    while i < bytes.len()
        invariant
            i <= bytes.len(),
            text@ == hex_of(bytes@.take(i as int)),
        decreases bytes.len() - i,
    {
        assert(bytes@.take(i + 1).drop_last() =~= bytes@.take(i as int));
        let byte: u8 = bytes[i];
        let ghost before = text@;
        push_char(&mut text, hex_digit_char(byte / 16));
        push_char(&mut text, hex_digit_char(byte % 16));
        assert(text@ =~= before + seq![hex_char(byte / 16u8), hex_char(byte % 16u8)]);
        i += 1;
    }
    assert(bytes@.take(i as int) =~= bytes@);
    text
}

/// Something that can be written as hexadecimal text.
pub trait ToHex {
    /// The text, two lower-case digits for each byte.
    spec fn hex(&self) -> Seq<char>;

    fn to_hex(&self) -> (text: String)
        ensures
            text@ == self.hex(),
    ;
}

/// Text that can be read as hexadecimal digits.
pub trait FromHex {
    /// The text as the bytes that encode it.
    spec fn digits(&self) -> Seq<u8>;

    /// The bytes that the pairs of digits stand for. A last digit without
    /// a partner is left out.
    fn from_hex(&self) -> (bytes: Vec<u8>)
        requires
            is_hex(self.digits(), self.digits().len() as int / 2),
        ensures
            bytes@ == unhex(self.digits(), self.digits().len() as int / 2),
    ;
}

impl ToHex for [u8] {
    open spec fn hex(&self) -> Seq<char> {
        hex_of(self@)
    }

    fn to_hex(&self) -> (text: String) {
        slice_to_hex(self)
    }
}

impl ToHex for Bytes {
    open spec fn hex(&self) -> Seq<char> {
        hex_of(chunk_data(*self))
    }

    fn to_hex(&self) -> (text: String) {
        slice_to_hex(self.as_ref())
    }
}

/// The texts of the items, one after the other.
pub open spec fn hex_of_all<T: ToHex>(items: Seq<T>) -> Seq<char>
    decreases items.len(),
{
    if items.len() == 0 {
        Seq::empty()
    } else {
        hex_of_all(items.drop_last()) + items.last().hex()
    }
}

impl<T: ToHex> ToHex for Vec<T> {
    open spec fn hex(&self) -> Seq<char> {
        hex_of_all(self@)
    }

    fn to_hex(&self) -> (text: String) {
        let mut text = String::new();
        let mut i: usize = 0;
        assert(self@.take(0) =~= Seq::<T>::empty());
        while i < self.len()
            invariant
                i <= self.len(),
                text@ == hex_of_all(self@.take(i as int)),
            decreases self.len() - i,
        {
            assert(self@.take(i + 1).drop_last() =~= self@.take(i as int));
            let item = self[i].to_hex();
            text.append(item.as_str());
            i += 1;
        }
        assert(self@.take(i as int) =~= self@);
        text
    }
}

/// The value of a digit in either case; zero for a byte that is no digit.
fn digit(byte: u8) -> (value: u8)
    ensures
        digit_value(byte) matches Some(v) ==> value == v,
        value < 16,
{
    if byte >= 48 && byte <= 57 {
        byte - 48
    } else if byte >= 97 && byte <= 102 {
        byte - 97 + 10
    } else if byte >= 65 && byte <= 70 {
        byte - 65 + 10
    } else {
        0
    }
}

impl<'a> FromHex for &'a str {
    open spec fn digits(&self) -> Seq<u8> {
        self.spec_bytes()
    }

    fn from_hex(&self) -> (bytes: Vec<u8>) {
        let text = self.as_bytes();
        let pairs: usize = text.len() / 2;
        let mut bytes: Vec<u8> = Vec::new();
        let mut i: usize = 0;
        while i < pairs
            invariant
                i <= pairs,
                pairs == text@.len() / 2,
                text@ == self.spec_bytes(),
                is_hex(text@, pairs as int),
                bytes@ == unhex(text@, i as int),
            decreases pairs - i,
        {
            let high = digit(text[2 * i]);
            let low = digit(text[2 * i + 1]);
            bytes.push(high * 16 + low);
            i += 1;
        }
        bytes
    }
}

} // verus!
