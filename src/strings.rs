use vstd::prelude::*;
use crate::input_provider::{bytes_at, one_chunk, readable, ChunkedInput};

verus! {

/// A string value under construction.
#[derive(Debug, Clone)]
pub enum BuildString {
    /// Nothing appended yet.
    Empty,
    /// The bytes at `[start, end)` of a single input chunk, not copied.
    Range(usize, usize),
    /// Bytes copied out of the input or decoded from escapes.
    Owned(Vec<u8>),
}

/// The UTF-8 encoding of a code point.
pub open spec fn utf8_of(c: u32) -> Seq<u8> {
    if c < 0x80 {
        seq![c as u8]
    } else if c < 0x800 {
        seq![(0xC0 + c / 64) as u8, (0x80 + c % 64) as u8]
    } else if c < 0x10000 {
        seq![(0xE0 + c / 4096) as u8, (0x80 + (c / 64) % 64) as u8, (0x80 + c % 64) as u8]
    } else {
        seq![
            (0xF0 + c / 262144) as u8,
            (0x80 + (c / 4096) % 64) as u8,
            (0x80 + (c / 64) % 64) as u8,
            (0x80 + c % 64) as u8,
        ]
    }
}

impl BuildString {
    /// The bytes accumulated so far, reading borrowed ranges from `input`.
    pub open spec fn content(&self, input: ChunkedInput) -> Seq<u8> {
        match *self {
            BuildString::Empty => Seq::empty(),
            BuildString::Range(s, e) => bytes_at(input.chunks(), s as int, e as int),
            BuildString::Owned(v) => v@,
        }
    }

    /// A borrowed range can still be read from `input`.
    pub open spec fn wf_for(&self, input: ChunkedInput) -> bool {
        match *self {
            BuildString::Range(s, e) => s <= e && readable(input.chunks(), s as int, e as int),
            _ => true,
        }
    }

    pub fn new() -> (r: BuildString)
        ensures
            r is Empty,
    {
        BuildString::Empty
    }

    /// An accumulator that copies from the start (used for object keys).
    pub fn new_owned() -> (r: BuildString)
        ensures
            r is Owned,
            r->Owned_0@ == Seq::<u8>::empty(),
    {
        BuildString::Owned(Vec::new())
    }

    /// Copies the accumulated bytes into a buffer of their own.
    fn to_owned_buf(&self, input: &ChunkedInput) -> (r: Vec<u8>)
        requires
            self.wf_for(*input),
        ensures
            r@ == self.content(*input),
    {
        match self {
            BuildString::Empty => Vec::new(),
            BuildString::Range(s, e) => {
                let mut buf: Vec<u8> = Vec::new();
                input.push_range(*s, *e, &mut buf);
                assert(buf@ =~= self.content(*input));
                buf
            },
            BuildString::Owned(v) => {
                let mut buf: Vec<u8> = Vec::new();
                let mut i: usize = 0;
                while i < v.len()
                    invariant
                        i <= v@.len(),
                        buf@ == v@.subrange(0, i as int),
                    decreases v@.len() - i,
                {
                    buf.push(v[i]);
                    i = i + 1;
                }
                assert(buf@ =~= v@);
                buf
            },
        }
    }

    /// Appends the unescaped input bytes at `[start, end)`. Stays borrowed while the
    /// whole string is one contiguous range inside a single chunk; otherwise copies.
    pub fn append_range(&mut self, start: usize, end: usize, input: &ChunkedInput)
        requires
            old(self).wf_for(*input),
            start <= end,
            readable(input.chunks(), start as int, end as int),
        ensures
            final(self).wf_for(*input),
            final(self).content(*input) == old(self).content(*input) + bytes_at(
                input.chunks(),
                start as int,
                end as int,
            ),
            *old(self) is Owned ==> *final(self) is Owned,
            *old(self) is Empty && one_chunk(input.chunks(), start as int, end as int) ==> *final(self)
                == BuildString::Range(start, end),
            *old(self) is Range && old(self)->Range_1 == start && one_chunk(
                input.chunks(),
                old(self)->Range_0 as int,
                end as int,
            ) ==> *final(self) == BuildString::Range(old(self)->Range_0, end),
            *final(self) is Range ==> (*old(self) is Range && final(self)->Range_0 == old(
                self,
            )->Range_0) || (*old(self) is Empty && final(self)->Range_0 == start),
    {
        let ghost added = bytes_at(input.chunks(), start as int, end as int);
        match self {
            BuildString::Empty => {
                if input.in_one_chunk(start, end) {
                    *self = BuildString::Range(start, end);
                    assert(old(self).content(*input) + added =~= added);
                } else {
                    let mut buf: Vec<u8> = Vec::new();
                    input.push_range(start, end, &mut buf);
                    *self = BuildString::Owned(buf);
                    assert(old(self).content(*input) + added =~= buf@);
                }
            },
            BuildString::Range(s, e) => {
                let (s, e) = (*s, *e);
                if e == start && input.in_one_chunk(s, end) {
                    *self = BuildString::Range(s, end);
                    assert(bytes_at(input.chunks(), s as int, end as int) =~= bytes_at(
                        input.chunks(),
                        s as int,
                        e as int,
                    ) + added);
                } else {
                    let mut buf: Vec<u8> = Vec::new();
                    input.push_range(s, e, &mut buf);
                    input.push_range(start, end, &mut buf);
                    *self = BuildString::Owned(buf);
                }
            },
            BuildString::Owned(v) => {
                input.push_range(start, end, v);
            },
        }
    }

    /// Appends one decoded byte; the string is owned from then on.
    pub fn append_single(&mut self, byte: u8, input: &ChunkedInput)
        requires
            old(self).wf_for(*input),
        ensures
            *final(self) is Owned,
            final(self).content(*input) == old(self).content(*input).push(byte),
    {
        let mut buf = self.to_owned_buf(input);
        buf.push(byte);
        *self = BuildString::Owned(buf);
    }

    /// Appends a decoded code point as UTF-8; the string is owned from then on.
    pub fn append_codepoint(&mut self, c: char, input: &ChunkedInput)
        requires
            old(self).wf_for(*input),
        ensures
            *final(self) is Owned,
            final(self).content(*input) == old(self).content(*input) + utf8_of(c as u32),
    {
        let mut buf = self.to_owned_buf(input);
        let ghost b0 = buf@;
        let x = c as u32;
        if x < 0x80 {
            buf.push(x as u8);
        } else if x < 0x800 {
            buf.push((0xC0 + x / 64) as u8);
            buf.push((0x80 + x % 64) as u8);
        } else if x < 0x10000 {
            buf.push((0xE0 + x / 4096) as u8);
            buf.push((0x80 + (x / 64) % 64) as u8);
            buf.push((0x80 + x % 64) as u8);
        } else {
            buf.push((0xF0 + x / 262144) as u8);
            buf.push((0x80 + (x / 4096) % 64) as u8);
            buf.push((0x80 + (x / 64) % 64) as u8);
            buf.push((0x80 + x % 64) as u8);
        }
        assert(buf@ =~= b0 + utf8_of(x));
        *self = BuildString::Owned(buf);
    }

    /// The finished string's bytes.
    pub fn finish(&self, input: &ChunkedInput) -> (r: Vec<u8>)
        requires
            self.wf_for(*input),
        ensures
            r@ == self.content(*input),
    {
        self.to_owned_buf(input)
    }
}

} // verus!
