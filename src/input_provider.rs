use vstd::prelude::*;

verus! {

/// The global position just past a chunk.
pub open spec fn chunk_end(c: (usize, Vec<u8>)) -> int {
    c.0 + c.1@.len()
}

/// Whether global position `pos` falls inside chunk `c`.
pub open spec fn holds(c: (usize, Vec<u8>), pos: int) -> bool {
    c.0 <= pos < chunk_end(c)
}

/// The byte at global position `pos`, from the first chunk that holds it.
pub open spec fn byte_at(chunks: Seq<(usize, Vec<u8>)>, pos: int) -> Option<u8>
    decreases chunks.len(),
{
    if chunks.len() == 0 {
        None
    } else if holds(chunks[0], pos) {
        Some(chunks[0].1@[pos - chunks[0].0])
    } else {
        byte_at(chunks.drop_first(), pos)
    }
}

/// Chunk `c` holds all of `[start, end)`.
pub open spec fn fits(c: (usize, Vec<u8>), start: int, end: int) -> bool {
    c.0 <= start <= end <= chunk_end(c)
}

/// Some single chunk holds all of `[start, end)`.
pub open spec fn one_chunk(chunks: Seq<(usize, Vec<u8>)>, start: int, end: int) -> bool {
    exists|i: int| 0 <= i < chunks.len() && fits(#[trigger] chunks[i], start, end)
}

/// Every position of `[start, end)` can be read.
pub open spec fn readable(chunks: Seq<(usize, Vec<u8>)>, start: int, end: int) -> bool {
    forall|p: int| start <= p < end ==> (#[trigger] byte_at(chunks, p)) is Some
}

/// The bytes at positions `[start, end)`.
pub open spec fn bytes_at(chunks: Seq<(usize, Vec<u8>)>, start: int, end: int) -> Seq<u8> {
    Seq::new((end - start) as nat, |i: int| byte_at(chunks, start + i)->Some_0)
}

/// Chunks in increasing order of position, without overlap.
pub open spec fn chunks_ordered(chunks: Seq<(usize, Vec<u8>)>) -> bool {
    &&& forall|i: int| 0 <= i < chunks.len() ==> chunk_end(#[trigger] chunks[i]) <= usize::MAX
    &&& forall|i: int, j: int|
        0 <= i < j < chunks.len() ==> chunk_end(#[trigger] chunks[i]) <= (#[trigger] chunks[j]).0
}

/// `chunks` lay out `doc` from global position `start` on, one after another.
pub open spec fn tiles(chunks: Seq<(usize, Vec<u8>)>, start: int, doc: Seq<u8>) -> bool
    decreases chunks.len(),
{
    if chunks.len() == 0 {
        doc.len() == 0
    } else {
        let n = chunks[0].1@.len() as int;
        &&& chunks[0].0 == start
        &&& n <= doc.len()
        &&& doc.take(n) == chunks[0].1@
        &&& tiles(chunks.drop_first(), start + n, doc.skip(n))
    }
}

/// However a document is split into chunks, every position reads the document's byte,
/// and the position just past it reads nothing.
pub proof fn lemma_split_reads_document(chunks: Seq<(usize, Vec<u8>)>, start: int, doc: Seq<u8>)
    requires
        tiles(chunks, start, doc),
    ensures
        forall|p: int| 0 <= p < doc.len() ==> byte_at(chunks, start + p) == Some(#[trigger] doc[p]),
        byte_at(chunks, start + doc.len()) is None,
    decreases chunks.len(),
{
    if chunks.len() > 0 {
        let n = chunks[0].1@.len() as int;
        lemma_split_reads_document(chunks.drop_first(), start + n, doc.skip(n));
        assert forall|p: int| 0 <= p < doc.len() implies byte_at(chunks, start + p) == Some(
            #[trigger] doc[p],
        ) by {
            if p < n {
                assert(doc.take(n)[p] == doc[p]);
            } else {
                assert(doc.skip(n)[p - n] == doc[p]);
                assert(start + n + (p - n) == start + p);
            }
        }
    }
}

/// Reading `[start, end)` in two pieces, split anywhere, gives the same bytes as
/// reading it at once: a string appended in parts finishes as the whole range.
pub proof fn lemma_split_range_bytes(chunks: Seq<(usize, Vec<u8>)>, start: int, split: int, end: int)
    requires
        start <= split <= end,
    ensures
        bytes_at(chunks, start, split) + bytes_at(chunks, split, end) == bytes_at(chunks, start, end),
{
    assert(bytes_at(chunks, start, split) + bytes_at(chunks, split, end) =~= bytes_at(chunks, start, end));
}

/// Positions from the first chunk on that stays, read as before.
proof fn lemma_drop_prefix_reads(chunks: Seq<(usize, Vec<u8>)>, k: int, from: int)
    requires
        0 <= k <= chunks.len(),
        forall|i: int| 0 <= i < k ==> chunk_end(#[trigger] chunks[i]) <= from,
    ensures
        forall|p: int| p >= from ==> #[trigger] byte_at(chunks.subrange(k, chunks.len() as int), p)
            == byte_at(chunks, p),
    decreases k,
{
    if k > 0 {
        let rest = chunks.drop_first();
        assert forall|i: int| 0 <= i < k - 1 implies chunk_end(#[trigger] rest[i]) <= from by {
            assert(rest[i] == chunks[i + 1]);
        }
        lemma_drop_prefix_reads(rest, k - 1, from);
        assert(rest.subrange(k - 1, rest.len() as int) =~= chunks.subrange(k, chunks.len() as int));
        assert(chunk_end(chunks[0]) <= from);
    } else {
        assert(chunks.subrange(0, chunks.len() as int) =~= chunks);
    }
}

/// Input delivered as an ordered set of byte chunks, each at its own global offset.
#[derive(Debug, Clone)]
pub struct ChunkedInput {
    chunks: Vec<(usize, Vec<u8>)>,
}

impl ChunkedInput {
    pub closed spec fn chunks(&self) -> Seq<(usize, Vec<u8>)> {
        self.chunks@
    }

    pub open spec fn wf(&self) -> bool {
        chunks_ordered(self.chunks())
    }

    pub open spec fn byte_spec(&self, pos: int) -> Option<u8> {
        byte_at(self.chunks(), pos)
    }

    /// No chunks yet.
    pub fn new() -> (r: ChunkedInput)
        ensures
            r.wf(),
            r.chunks().len() == 0,
    {
        ChunkedInput { chunks: Vec::new() }
    }

    /// A whole document as one chunk at position 0.
    pub fn single(doc: Vec<u8>) -> (r: ChunkedInput)
        ensures
            r.wf(),
            tiles(r.chunks(), 0, doc@),
    {
        let n = doc.len();
        let mut chunks: Vec<(usize, Vec<u8>)> = Vec::new();
        chunks.push((0, doc));
        proof {
            let c = chunks@;
            assert(c[0].1@.len() == n);
            assert(c.drop_first().len() == 0);
            assert(doc@.take(doc@.len() as int) =~= doc@);
            assert(doc@.skip(doc@.len() as int).len() == 0);
            assert(tiles(c.drop_first(), n as int, doc@.skip(n as int)));
        }
        ChunkedInput { chunks }
    }

    /// Adds a chunk at global offset `start`; refused unless it lies past every chunk held.
    pub fn push_chunk(&mut self, start: usize, bytes: Vec<u8>) -> (r: bool)
        requires
            old(self).wf(),
        ensures
            final(self).wf(),
            r == ((old(self).chunks().len() == 0 || chunk_end(old(self).chunks().last()) <= start)
                && start + bytes@.len() <= usize::MAX),
            r ==> final(self).chunks() == old(self).chunks().push((start, bytes)),
            !r ==> final(self).chunks() == old(self).chunks(),
    {
        let n = self.chunks.len();
        if n > 0 {
            let last_end_ok = {
                let (s, b) = &self.chunks[n - 1];
                *s as u128 + b.len() as u128 <= start as u128
            };
            if !last_end_ok {
                return false;
            }
        }
        if bytes.len() > usize::MAX - start {
            return false;
        }
        let ghost before = self.chunks@;
        self.chunks.push((start, bytes));
        proof {
            let c = self.chunks@;
            assert forall|i: int, j: int|
                0 <= i < j < c.len() implies chunk_end(#[trigger] c[i]) <= (#[trigger] c[j]).0 by {
                if j == c.len() - 1 && i < j {
                    assert(c[i] == before[i]);
                    if i < before.len() - 1 {
                        assert(chunk_end(before[i]) <= before[before.len() - 1].0);
                    }
                }
            }
        }
        true
    }

    /// The byte at global position `pos`, if some chunk holds it.
    pub fn byte(&self, pos: usize) -> (r: Option<u8>)
        ensures
            r == self.byte_spec(pos as int),
    {
        let mut i: usize = 0;
        assert(self.chunks@.subrange(0, self.chunks@.len() as int) =~= self.chunks@);
        while i < self.chunks.len()
            invariant
                i <= self.chunks@.len(),
                byte_at(self.chunks@, pos as int) == byte_at(
                    self.chunks@.subrange(i as int, self.chunks@.len() as int),
                    pos as int,
                ),
            decreases self.chunks@.len() - i,
        {
            proof {
                let rest = self.chunks@.subrange(i as int, self.chunks@.len() as int);
                assert(rest.drop_first() =~= self.chunks@.subrange(i + 1, self.chunks@.len() as int));
                assert(rest[0] == self.chunks@[i as int]);
            }
            let (s, b) = &self.chunks[i];
            if *s <= pos && pos - *s < b.len() {
                return Some(b[pos - *s]);
            }
            i = i + 1;
        }
        None
    }

    /// Appends the bytes at `[start, end)` to `buf`.
    pub fn push_range(&self, start: usize, end: usize, buf: &mut Vec<u8>)
        requires
            start <= end,
            readable(self.chunks(), start as int, end as int),
        ensures
            final(buf)@ == old(buf)@ + bytes_at(self.chunks(), start as int, end as int),
    {
        let mut p: usize = start;
        let ghost b0 = old(buf)@;
        while p < end
            invariant
                start <= p <= end,
                readable(self.chunks(), start as int, end as int),
                buf@ == b0 + bytes_at(self.chunks(), start as int, p as int),
            decreases end - p,
        {
            let b = self.byte(p);
            assert(byte_at(self.chunks(), p as int) is Some);
            match b {
                Some(x) => buf.push(x),
                None => {},
            }
            proof {
                assert(bytes_at(self.chunks(), start as int, p + 1) =~= bytes_at(
                    self.chunks(),
                    start as int,
                    p as int,
                ).push(x_of(self.chunks(), p as int)));
            }
            p = p + 1;
        }
    }

    /// Whether a single chunk holds all of `[start, end)`.
    pub fn in_one_chunk(&self, start: usize, end: usize) -> (r: bool)
        ensures
            r == one_chunk(self.chunks(), start as int, end as int),
            r ==> readable(self.chunks(), start as int, end as int),
    {
        let mut i: usize = 0;
        while i < self.chunks.len()
            invariant
                i <= self.chunks@.len(),
                forall|j: int| 0 <= j < i ==> !fits(#[trigger] self.chunks@[j], start as int, end as int),
            decreases self.chunks@.len() - i,
        {
            let (s, b) = &self.chunks[i];
            if *s <= start && start <= end && end - *s <= b.len() {
                proof {
                    assert forall|p: int| start <= p < end implies (#[trigger] byte_at(
                        self.chunks@,
                        p,
                    )) is Some by {
                        lemma_held_readable(self.chunks@, i as int, p);
                    }
                    assert(fits(self.chunks@[i as int], start as int, end as int));
                }
                return true;
            }
            i = i + 1;
        }
        false
    }

    /// Drops every chunk that ends before `first_needed`.
    pub fn retire(&mut self, first_needed: usize)
        requires
            old(self).wf(),
        ensures
            final(self).wf(),
            forall|p: int| p >= first_needed ==> #[trigger] final(self).byte_spec(p) == old(self).byte_spec(p),
            forall|i: int| 0 <= i < final(self).chunks().len() ==> chunk_end(#[trigger] final(self).chunks()[i]) >= first_needed,
            final(self).chunks() == old(self).chunks().subrange(
                old(self).chunks().len() - final(self).chunks().len(),
                old(self).chunks().len() as int,
            ),
            forall|i: int|
                0 <= i < old(self).chunks().len() - final(self).chunks().len() ==> chunk_end(
                    #[trigger] old(self).chunks()[i],
                ) < first_needed,
    {
        let mut k: usize = 0;
        let mut found = false;
        while k < self.chunks.len() && !found
            invariant
                k <= self.chunks@.len(),
                self.chunks@ == old(self).chunks@,
                forall|i: int| 0 <= i < k ==> chunk_end(#[trigger] self.chunks@[i]) < first_needed,
                found ==> k < self.chunks@.len() && chunk_end(self.chunks@[k as int]) >= first_needed,
            decreases self.chunks@.len() - k + (if found { 0int } else { 1int }),
        {
            let (s, b) = &self.chunks[k];
            if (*s as u128) + (b.len() as u128) >= first_needed as u128 {
                found = true;
            } else {
                k = k + 1;
            }
        }
        let n_chunks = self.chunks.len();
        let ghost c0 = self.chunks@;
        let mut kept: Vec<(usize, Vec<u8>)> = Vec::new();
        let mut rest: Vec<(usize, Vec<u8>)> = Vec::new();
        std::mem::swap(&mut rest, &mut self.chunks);
        let mut j: usize = 0;
        while rest.len() > 0
            invariant
                j + rest@.len() == c0.len(),
                c0.len() == n_chunks,
                rest@ == c0.subrange(j as int, c0.len() as int),
                j <= k ==> kept@.len() == 0,
                j > k ==> kept@ == c0.subrange(k as int, j as int),
                k <= c0.len(),
            decreases rest@.len(),
        {
            let c = rest.remove(0);
            if j >= k {
                kept.push(c);
            }
            proof {
                assert(c == c0[j as int]);
                if j >= k {
                    assert(kept@ =~= c0.subrange(k as int, j + 1));
                }
            }
            j = j + 1;
        }
        proof {
            assert(kept@ =~= c0.subrange(k as int, c0.len() as int));
            lemma_drop_prefix_reads(c0, k as int, first_needed as int);
            if k < c0.len() {
                assert forall|i: int| 0 <= i < kept@.len() implies chunk_end(#[trigger] kept@[i]) >= first_needed by {
                    assert(kept@[i] == c0[k + i]);
                    if i > 0 {
                        assert(chunk_end(c0[k as int]) <= c0[k + i].0);
                    }
                }
            }
        }
        self.chunks = kept;
    }

    /// The chunks held, in order.
    pub fn chunks_held(&self) -> (r: &Vec<(usize, Vec<u8>)>)
        ensures
            r@ == self.chunks(),
    {
        &self.chunks
    }
}

pub open spec fn x_of(chunks: Seq<(usize, Vec<u8>)>, p: int) -> u8 {
    byte_at(chunks, p)->Some_0
}

proof fn lemma_held_readable(chunks: Seq<(usize, Vec<u8>)>, i: int, p: int)
    requires
        0 <= i < chunks.len(),
        holds(chunks[i], p),
    ensures
        byte_at(chunks, p) is Some,
    decreases i,
{
    if i > 0 && !holds(chunks[0], p) {
        assert(chunks.drop_first()[i - 1] == chunks[i]);
        lemma_held_readable(chunks.drop_first(), i - 1, p);
    }
}

} // verus!
