//! A stream whose items are all in memory already, and ways to make one.

use super::hex::{hex_of, is_hex, unhex, FromHex, ToHex};
use super::polled::Polled;
use super::readable_byte_stream::ReadableByteStream;
use crate::chunk::{chunk_data, lemma_chunks_data_one};
use bytes::Bytes;
use std::collections::VecDeque;
use vstd::prelude::*;
use vstd::string::StringSliceAdditionalSpecFns;
use vstd::utf8::{decode_utf8, encode_utf8_decode_utf8, valid_utf8};

verus! {

/// A stream that holds its items in memory. Polling it never waits and
/// never fails: it hands out the items in order, then reports its end for
/// as long as it is polled.
pub struct VecStream<T> {
    pub items: VecDeque<T>,
}

impl<T> View for VecStream<T> {
    type V = Seq<T>;

    /// The items that the stream has yet to hand out, in order.
    open spec fn view(&self) -> Seq<T> {
        self.items@
    }
}

impl<T> VecStream<T> {
    /// A stream with no items.
    pub fn empty() -> (stream: Self)
        ensures
            stream@ == Seq::<T>::empty(),
    {
        VecStream { items: VecDeque::new() }
    }

    /// One poll: the next item, or `None` at the end.
    pub fn poll<ErrorT>(&mut self) -> (polled: Polled<Option<T>, ErrorT>)
        ensures
            old(self)@.len() == 0 ==> polled == Polled::<Option<T>, ErrorT>::Ready(None)
                && final(self)@ == old(self)@,
            old(self)@.len() > 0 ==> polled == Polled::<Option<T>, ErrorT>::Ready(
                Some(old(self)@[0]),
            ) && final(self)@ == old(self)@.drop_first(),
    {
        Polled::Ready(self.items.pop_front())
    }

    /// Adds an item behind those that the stream holds.
    pub fn push(&mut self, item: T)
        ensures
            final(self)@ == old(self)@.push(item),
    {
        self.items.push_back(item);
    }

    /// All the items that are left, in order.
    pub fn collect(self) -> (items: Vec<T>)
        ensures
            items@ == self@,
    {
        let mut stream = self;
        let mut items: Vec<T> = Vec::new();
        loop
            invariant
                items@ + stream@ == self@,
            ensures
                items@ == self@,
            decreases stream@.len(),
        {
            match stream.items.pop_front() {
                Some(item) => {
                    proof {
                        assert(items@.push(item) + stream@ =~= items@ + (seq![item] + stream@));
                    }
                    items.push(item);
                },
                None => {
                    assert(items@ + stream@ =~= items@);
                    break ;
                },
            }
        }
        items
    }
}

/// A stream of one buffer.
pub fn stream_of(b1: Bytes) -> (stream: VecStream<Bytes>)
    ensures
        stream@ == seq![b1],
{
    let mut stream = VecStream::empty();
    stream.push(b1);
    stream
}

/// A stream of the given items, first to last.
pub fn stream_of_vec<T>(vec: Vec<T>) -> (stream: VecStream<T>)
    ensures
        stream@ == vec@,
{
    let ghost whole = vec@;
    let mut rest = vec;
    let mut items: VecDeque<T> = VecDeque::new();
    loop
        invariant
            rest@ + items@ == whole,
        ensures
            items@ == whole,
        decreases rest@.len(),
    {
        match rest.pop() {
            Some(item) => {
                proof {
                    assert(rest@ + (seq![item] + items@) =~= rest@.push(item) + items@);
                }
                items.push_front(item);
            },
            None => {
                assert(rest@ + items@ =~= items@);
                break ;
            },
        }
    }
    VecStream { items }
}

/// A reader on a stream of one buffer, which holds the bytes that the
/// hexadecimal digits of `s` stand for.
pub fn stream_of_hex(s: &str) -> (reader: ReadableByteStream<VecStream<Bytes>>)
    requires
        is_hex(s.spec_bytes(), s.spec_bytes().len() as int / 2),
    ensures
        reader.wf(),
        reader.remaining() == unhex(s.spec_bytes(), s.spec_bytes().len() as int / 2),
{
    let bytes = Bytes::from(s.from_hex());
    let reader = ReadableByteStream::new(stream_of(bytes));
    proof {
        assert(reader.chunks() =~= seq![bytes]);
        lemma_chunks_data_one(bytes);
    }
    reader
}

/// The buffers of a stream, each as the text that its bytes are in UTF-8.
pub fn stream_to_string_vec(s: VecStream<Bytes>) -> (texts: Vec<String>)
    requires
        forall|i: int| 0 <= i < s@.len() ==> valid_utf8(chunk_data(#[trigger] s@[i])),
    ensures
        texts@.len() == s@.len(),
        forall|i: int|
            0 <= i < s@.len() ==> (#[trigger] texts@[i])@ == decode_utf8(chunk_data(s@[i])),
{
    let chunks = s.collect();
    let mut texts: Vec<String> = Vec::new();
    let mut i: usize = 0;
    while i < chunks.len()
        invariant
            i <= chunks.len(),
            chunks@ == s@,
            texts@.len() == i,
            forall|j: int| 0 <= j < s@.len() ==> valid_utf8(chunk_data(#[trigger] s@[j])),
            forall|j: int| 0 <= j < i ==> (#[trigger] texts@[j])@ == decode_utf8(chunk_data(s@[j])),
        decreases chunks.len() - i,
    {
        match core::str::from_utf8(chunks[i].as_ref()) {
            Ok(text) => {
                proof {
                    encode_utf8_decode_utf8(text@);
                }
                texts.push(text.to_owned());
            },
            Err(_) => {
                assert(valid_utf8(chunk_data(s@[i as int])));
                vstd::pervasive::unreached::<()>();
            },
        }
        i += 1;
    }
    texts
}

/// The buffers of a stream, each as hexadecimal text.
pub fn stream_to_hex_vec(s: VecStream<Bytes>) -> (texts: Vec<String>)
    ensures
        texts@.len() == s@.len(),
        forall|i: int| 0 <= i < s@.len() ==> (#[trigger] texts@[i])@ == hex_of(chunk_data(s@[i])),
{
    let chunks = s.collect();
    let mut texts: Vec<String> = Vec::new();
    let mut i: usize = 0;
    while i < chunks.len()
        invariant
            i <= chunks.len(),
            chunks@ == s@,
            texts@.len() == i,
            forall|j: int| 0 <= j < i ==> (#[trigger] texts@[j])@ == hex_of(chunk_data(s@[j])),
        decreases chunks.len() - i,
    {
        texts.push(chunks[i].to_hex());
        i += 1;
    }
    texts
}

} // verus!
