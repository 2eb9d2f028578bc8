//! The point buffer: an ordered, append-only sequence of points held in
//! the exact packed layout that is streamed to the GPU.
//!
//! Each point occupies seven packed 32-bit words — three position words
//! followed by the four color channels widened to `i32` — so one vertex is
//! 28 bytes. The buffer has a fixed logical capacity chosen at
//! construction; an append beyond it is rejected explicitly rather than
//! growing or truncating silently. `clear` resets the logical length to
//! zero and keeps the capacity.

use vstd::prelude::*;

use crate::point::{Point, Rgba};

verus! {

/// Packed 32-bit words per vertex: x, y, z, r, g, b, a.
pub const WORDS_PER_POINT: usize = 7;

/// Bytes per vertex record: seven 4-byte words.
pub const BYTES_PER_POINT: usize = 28;

/// The seven packed words of one point, in buffer order.
pub open spec fn point_words(p: Point) -> Seq<i32> {
    seq![
        p.x,
        p.y,
        p.z,
        p.color.r as i32,
        p.color.g as i32,
        p.color.b as i32,
        p.color.a as i32,
    ]
}

/// The packed word stream of a whole point sequence.
pub open spec fn words_of(ps: Seq<Point>) -> Seq<i32>
    decreases ps.len(),
{
    if ps.len() == 0 {
        Seq::empty()
    } else {
        words_of(ps.drop_last()) + point_words(ps.last())
    }
}

pub proof fn lemma_words_of_len(ps: Seq<Point>)
    ensures
        words_of(ps).len() == 7 * ps.len(),
    decreases ps.len(),
{
    if ps.len() > 0 {
        lemma_words_of_len(ps.drop_last());
    }
}

pub proof fn lemma_words_of_push(ps: Seq<Point>, p: Point)
    ensures
        words_of(ps.push(p)) == words_of(ps) + point_words(p),
{
    assert(ps.push(p).drop_last() =~= ps);
    assert(ps.push(p).last() == p);
}

/// The four little-endian bytes of one packed word.
pub open spec fn word_le_bytes(w: u32) -> Seq<u8> {
    seq![
        (w & 0xff) as u8,
        ((w >> 8) & 0xff) as u8,
        ((w >> 16) & 0xff) as u8,
        ((w >> 24) & 0xff) as u8,
    ]
}

/// The little-endian byte stream of a word sequence: four bytes per word.
pub open spec fn bytes_of_words(ws: Seq<i32>) -> Seq<u8>
    decreases ws.len(),
{
    if ws.len() == 0 {
        Seq::empty()
    } else {
        bytes_of_words(ws.drop_last()) + word_le_bytes(ws.last() as u32)
    }
}

pub proof fn lemma_bytes_of_words_len(ws: Seq<i32>)
    ensures
        bytes_of_words(ws).len() == 4 * ws.len(),
    decreases ws.len(),
{
    if ws.len() > 0 {
        lemma_bytes_of_words_len(ws.drop_last());
    }
}

/// The buffer of points, stored packed. Its view is the point sequence;
/// `words` is that sequence flattened, which the invariant pins down.
pub struct PointBuffer {
    words: Vec<i32>,
    cap: usize,
}

impl View for PointBuffer {
    type V = Seq<Point>;

    closed spec fn view(&self) -> Seq<Point> {
        unpack_words(self.words@)
    }
}

/// The point sequence a packed word stream denotes, reading seven words
/// per point from the front; a trailing fragment shorter than a point is
/// ignored (the invariant rules it out).
pub open spec fn unpack_words(ws: Seq<i32>) -> Seq<Point>
    decreases ws.len(),
{
    if ws.len() < 7 {
        Seq::empty()
    } else {
        unpack_words(ws.take(ws.len() - 7)).push(point_of_words(ws.skip(ws.len() - 7)))
    }
}

/// The point denoted by seven packed words (color channels truncated back
/// to bytes; the invariant keeps them in byte range).
pub open spec fn point_of_words(ws: Seq<i32>) -> Point {
    Point {
        x: ws[0],
        y: ws[1],
        z: ws[2],
        color: Rgba { r: ws[3] as u8, g: ws[4] as u8, b: ws[5] as u8, a: ws[6] as u8 },
    }
}

impl PointBuffer {
    /// The buffer is well formed: the word stream is exactly its point
    /// sequence packed, and fits the fixed capacity.
    pub closed spec fn wf(&self) -> bool {
        &&& self.words@ == words_of(self@)
        &&& self@.len() <= self.cap
        &&& 28 * self.cap <= usize::MAX
    }

    /// The fixed capacity, in points.
    pub closed spec fn spec_capacity(&self) -> usize {
        self.cap
    }

    /// What well-formedness gives every caller: the point count fits
    /// the capacity, whose byte size fits the machine.
    pub proof fn lemma_wf_bounds(&self)
        requires
            self.wf(),
        ensures
            self@.len() <= self.spec_capacity(),
            28 * self.spec_capacity() <= usize::MAX,
    {
    }

    /// An empty buffer that will hold at most `capacity` points. The
    /// backing storage is preallocated once.
    pub fn new(capacity: usize) -> (b: PointBuffer)
        requires
            28 * capacity <= usize::MAX,
        ensures
            b.wf(),
            b@ == Seq::<Point>::empty(),
            b.spec_capacity() == capacity,
    {
        let b = PointBuffer { words: Vec::with_capacity(capacity * 7), cap: capacity };
        proof {
            assert(words_of(b@) =~= Seq::<i32>::empty());
        }
        b
    }

    /// Number of points currently held.
    pub fn len(&self) -> (n: usize)
        requires
            self.wf(),
        ensures
            n == self@.len(),
    {
        proof {
            lemma_words_of_len(self@);
        }
        self.words.len() / 7
    }

    /// The capacity, in points.
    pub fn capacity(&self) -> (n: usize)
        ensures
            n == self.spec_capacity(),
    {
        self.cap
    }

    /// Append one point in packed form. Appends exactly when the buffer
    /// is below capacity; a full buffer is left unchanged and the append
    /// reported rejected.
    pub fn add_point(&mut self, x: i32, y: i32, z: i32, color: Rgba) -> (ok: bool)
        requires
            old(self).wf(),
        ensures
            final(self).wf(),
            final(self).spec_capacity() == old(self).spec_capacity(),
            ok <==> old(self)@.len() < old(self).spec_capacity(),
            ok ==> final(self)@ == old(self)@.push(Point { x, y, z, color }),
            !ok ==> *final(self) == *old(self),
    {
        proof {
            lemma_words_of_len(self@);
        }
        if self.words.len() / 7 < self.cap {
            let ghost ps0 = self@;
            let p = Point { x, y, z, color };
            self.words.push(x);
            self.words.push(y);
            self.words.push(z);
            self.words.push(color.r as i32);
            self.words.push(color.g as i32);
            self.words.push(color.b as i32);
            self.words.push(color.a as i32);
            proof {
                lemma_words_of_push(ps0, p);
                assert(self.words@ =~= words_of(ps0) + point_words(p));
                lemma_unpack_packed(ps0.push(p));
                assert(self@ == ps0.push(p));
            }
            true
        } else {
            false
        }
    }

    /// Reset the logical length to zero; the capacity is kept.
    pub fn clear(&mut self)
        requires
            old(self).wf(),
        ensures
            final(self).wf(),
            final(self)@ == Seq::<Point>::empty(),
            final(self).spec_capacity() == old(self).spec_capacity(),
    {
        self.words.clear();
        proof {
            assert(words_of(self@) =~= Seq::<i32>::empty());
        }
    }

    /// The packed word stream, as it is uploaded to the GPU: seven words
    /// per point, positions then color channels.
    pub fn words(&self) -> (ws: &Vec<i32>)
        requires
            self.wf(),
        ensures
            ws@ == words_of(self@),
            ws@.len() == 7 * self@.len(),
    {
        proof {
            lemma_words_of_len(self@);
        }
        &self.words
    }

    /// The buffer contents as bytes, each packed word little-endian:
    /// the 28-byte-per-vertex stream the GPU vertex layout expects.
    pub fn byte_stream(&self) -> (bs: Vec<u8>)
        requires
            self.wf(),
        ensures
            bs@ == bytes_of_words(words_of(self@)),
            bs@.len() == 28 * self@.len(),
    {
        let mut bs: Vec<u8> = Vec::new();
        let mut i: usize = 0;
        proof {
            lemma_words_of_len(self@);
            assert(bytes_of_words(self.words@.take(0)) =~= Seq::<u8>::empty());
        }
        while i < self.words.len()
            invariant
                self.wf(),
                i <= self.words@.len(),
                self.words@.len() <= usize::MAX,
                bs@ == bytes_of_words(self.words@.take(i as int)),
                bs@.len() == 4 * i,
            decreases self.words@.len() - i,
        {
            let w = #[verifier::truncate] (self.words[i] as u32);
            let ghost bs0 = bs@;
            bs.push(#[verifier::truncate] ((w & 0xff) as u8));
            bs.push(#[verifier::truncate] (((w >> 8) & 0xff) as u8));
            bs.push(#[verifier::truncate] (((w >> 16) & 0xff) as u8));
            bs.push(#[verifier::truncate] (((w >> 24) & 0xff) as u8));
            proof {
                let ws = self.words@.take(i + 1 as int);
                assert(ws.drop_last() =~= self.words@.take(i as int));
                assert(ws.last() == self.words@[i as int]);
                assert(bs@ =~= bs0 + word_le_bytes(w));
            }
            i = i + 1;
        }
        proof {
            assert(self.words@.take(self.words@.len() as int) =~= self.words@);
            lemma_bytes_of_words_len(self.words@);
        }
        bs
    }
}

/// Unpacking a packed point sequence gives the points back: the packed
/// layout loses nothing.
pub proof fn lemma_unpack_packed(ps: Seq<Point>)
    ensures
        unpack_words(words_of(ps)) == ps,
    decreases ps.len(),
{
    lemma_words_of_len(ps);
    if ps.len() == 0 {
        assert(unpack_words(words_of(ps)) =~= ps);
    } else {
        let ws = words_of(ps);
        lemma_unpack_packed(ps.drop_last());
        lemma_words_of_len(ps.drop_last());
        assert(ws.take(ws.len() - 7) =~= words_of(ps.drop_last()));
        assert(ws.skip(ws.len() - 7) =~= point_words(ps.last()));
        assert(point_of_words(point_words(ps.last())) == ps.last());
        assert(unpack_words(words_of(ps)) =~= ps);
    }
}

} // verus!
