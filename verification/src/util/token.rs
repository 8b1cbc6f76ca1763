//! Reading a stream up to a token.
//!
//! The stream arrives in chunks, and a token may straddle any number of
//! them. The scanner therefore withholds the longest tail of what it has
//! seen that could still be the start of a token, and hands on everything
//! before it.

use vstd::prelude::*;
use vstd::slice::slice_subrange;
use crate::text::{bytes_eq, find_from, lemma_find_from, lemma_find_from_unique, occurs_at};

verus! {

/// Whether the last `h` bytes of `w` are the first `h` bytes of `t`, with
/// `h` short of the whole of `t`.
pub open spec fn is_overlap(w: Seq<u8>, t: Seq<u8>, h: int) -> bool {
    0 <= h <= w.len() && h < t.len() && w.subrange(w.len() - h, w.len() as int) == t.subrange(0, h)
}

/// The largest overlap that is at most `h`.
pub open spec fn overlap_up_to(w: Seq<u8>, t: Seq<u8>, h: int) -> int
    decreases h,
{
    if h <= 0 {
        0
    } else if is_overlap(w, t, h) {
        h
    } else {
        overlap_up_to(w, t, h - 1)
    }
}

/// The length of the longest tail of `w` that is a proper start of `t`.
pub open spec fn overlap(w: Seq<u8>, t: Seq<u8>) -> int {
    overlap_up_to(w, t, if w.len() < t.len() - 1 { w.len() as int } else { t.len() - 1 })
}

pub proof fn lemma_overlap_up_to(w: Seq<u8>, t: Seq<u8>, h: int)
    requires
        0 <= h <= w.len(),
        h < t.len(),
    ensures
        0 <= overlap_up_to(w, t, h) <= h,
        is_overlap(w, t, overlap_up_to(w, t, h)),
        forall|k: int| overlap_up_to(w, t, h) < k <= h ==> !is_overlap(w, t, k),
    decreases h,
{
    if h <= 0 {
        assert(w.subrange(w.len() - 0, w.len() as int) =~= t.subrange(0, 0));
    } else if !is_overlap(w, t, h) {
        lemma_overlap_up_to(w, t, h - 1);
    }
}

/// The overlap is the largest one there is.
pub proof fn lemma_overlap(w: Seq<u8>, t: Seq<u8>)
    requires
        t.len() > 0,
    ensures
        is_overlap(w, t, overlap(w, t)),
        forall|k: int| overlap(w, t) < k ==> !is_overlap(w, t, k),
{
    let top = if w.len() < t.len() - 1 {
        w.len() as int
    } else {
        t.len() - 1
    };
    lemma_overlap_up_to(w, t, top);
}

/// Finds the first occurrence of `needle` in `hay` by trying each position.
pub fn find_plain(hay: &[u8], needle: &[u8]) -> (found: Option<usize>)
    ensures
        match found {
            Some(at) => find_from(hay@, needle@, 0) == Some(at as int),
            None => find_from(hay@, needle@, 0) is None,
        },
{
    let n = hay.len();
    let m = needle.len();
    if m > n {
        return None;
    }
    let mut at: usize = 0;
    loop
        invariant
            n == hay@.len(),
            m == needle@.len(),
            at <= n - m,
            find_from(hay@, needle@, 0) == find_from(hay@, needle@, at as int),
        decreases n - m - at,
    {
        if bytes_eq(slice_subrange(hay, at, at + m), needle) {
            return Some(at);
        }
        if at == n - m {
            assert(find_from(hay@, needle@, at + 1) is None);
            return None;
        }
        at += 1;
    }
}

/// Measures the overlap of `w` with `t`.
pub fn find_overlap(w: &[u8], t: &[u8]) -> (h: usize)
    requires
        t@.len() > 0,
    ensures
        h == overlap(w@, t@),
        h <= w@.len(),
        h < t@.len(),
{
    let n = w.len();
    let mut h: usize = if n < t.len() - 1 {
        n
    } else {
        t.len() - 1
    };
    while h > 0
        invariant
            n == w@.len(),
            h <= n,
            h < t@.len(),
            overlap(w@, t@) == overlap_up_to(w@, t@, h as int),
        decreases h,
    {
        if bytes_eq(slice_subrange(w, n - h, n), slice_subrange(t, 0, h)) {
            return h;
        }
        h -= 1;
    }
    h
}

/// What is scanned when `chunk` arrives while the first `held` bytes of the
/// token are withheld.
pub open spec fn window(token: Seq<u8>, held: int, chunk: Seq<u8>) -> Seq<u8> {
    token.subrange(0, held) + chunk
}

/// Scans one chunk.
///
/// The three results are the number of bytes of the chunk that are used up,
/// the number of bytes withheld afterwards, and whether the token was found.
/// If the token stands in the window, what precedes its first occurrence is
/// written and the chunk is used up to the end of the token. If not, the
/// whole chunk is used, and all of the window is written but its overlap
/// with the token.
pub fn scan_chunk(token: &[u8], held: usize, chunk: &[u8], out: &mut Vec<u8>) -> (r: (
    usize,
    usize,
    bool,
))
    requires
        held < token@.len(),
        token@.len() + chunk@.len() <= usize::MAX,
    ensures
        ({
            let w = window(token@, held as int, chunk@);
            match find_from(w, token@, 0) {
                Some(at) => {
                    &&& r.2
                    &&& r.1 == 0
                    &&& r.0 == at + token@.len() - held
                    &&& 0 < r.0 <= chunk@.len()
                    &&& final(out)@ == old(out)@ + w.subrange(0, at)
                },
                None => {
                    &&& !r.2
                    &&& r.1 == overlap(w, token@)
                    &&& r.1 < token@.len()
                    &&& r.1 <= w.len()
                    &&& r.0 == chunk@.len()
                    &&& final(out)@ == old(out)@ + w.subrange(0, w.len() - r.1)
                },
            }
        }),
{
    let m = token.len();
    let mut w: Vec<u8> = Vec::new();
    w.extend_from_slice(slice_subrange(token, 0, held));
    w.extend_from_slice(chunk);
    assert(w@ =~= window(token@, held as int, chunk@));
    let n = w.len();
    match find_plain(w.as_slice(), token) {
        Some(at) => {
            proof {
                lemma_find_from(w@, token@, 0);
            }
            out.extend_from_slice(slice_subrange(w.as_slice(), 0, at));
            (at + m - held, 0, true)
        },
        None => {
            let h = find_overlap(w.as_slice(), token);
            out.extend_from_slice(slice_subrange(w.as_slice(), 0, n - h));
            (chunk.len(), h, false)
        },
    }
}

/// What is known of a stream `s` after `c` of its bytes have been scanned
/// for `token` without finding it, with `held` bytes withheld: the withheld
/// bytes are the last ones scanned and start the token, no token lies within
/// what was scanned, and no longer tail of it starts the token.
pub open spec fn scanned(s: Seq<u8>, token: Seq<u8>, c: int, held: int) -> bool {
    &&& 0 <= held <= c <= s.len()
    &&& held < token.len()
    &&& s.subrange(c - held, c) == token.subrange(0, held)
    &&& forall|p: int| 0 <= p && p + token.len() <= c ==> !occurs_at(s, token, p)
    &&& forall|h: int| held < h <= c ==> !is_overlap(s.subrange(0, c), token, h)
}

/// A token found in the window is the first token of the stream.
pub proof fn lemma_found(s: Seq<u8>, token: Seq<u8>, c: int, held: int, k: int, at: int)
    requires
        scanned(s, token, c, held),
        0 <= k,
        c + k <= s.len(),
        find_from(window(token, held, s.subrange(c, c + k)), token, 0) == Some(at),
    ensures
        find_from(s, token, 0) == Some(c - held + at),
        0 <= at,
        at + token.len() <= held + k,
{
    let w = window(token, held, s.subrange(c, c + k));
    let m = token.len() as int;
    assert(w =~= s.subrange(c - held, c + k));
    lemma_find_from(w, token, 0);
    let first = c - held + at;
    assert(s.subrange(first, first + m) =~= w.subrange(at, at + m));
    assert forall|p: int| 0 <= p < first implies !occurs_at(s, token, p) by {
        if occurs_at(s, token, p) {
            if p + m <= c {
            } else if p >= c - held {
                assert(w.subrange(p - (c - held), p - (c - held) + m) =~= s.subrange(p, p + m));
                assert(occurs_at(w, token, p - (c - held)));
            } else {
                // The token would start before what is withheld and run past
                // what was scanned: a longer overlap than the one withheld.
                let h = c - p;
                assert(s.subrange(0, c).subrange(c - h, c) =~= s.subrange(p, p + m).subrange(0, h));
                assert(is_overlap(s.subrange(0, c), token, h));
            }
        }
    }
    lemma_find_from_unique(s, token, 0, first);
}

/// A window without a token leaves the stream scanned up to its end.
pub proof fn lemma_not_found(s: Seq<u8>, token: Seq<u8>, c: int, held: int, k: int)
    requires
        scanned(s, token, c, held),
        0 <= k,
        c + k <= s.len(),
        token.len() > 0,
        find_from(window(token, held, s.subrange(c, c + k)), token, 0) is None,
    ensures
        scanned(s, token, c + k, overlap(window(token, held, s.subrange(c, c + k)), token)),
{
    let w = window(token, held, s.subrange(c, c + k));
    let m = token.len() as int;
    let e = c + k;
    assert(w =~= s.subrange(c - held, e));
    lemma_find_from(w, token, 0);
    lemma_overlap(w, token);
    let h2 = overlap(w, token);
    assert(s.subrange(e - h2, e) =~= w.subrange(w.len() - h2, w.len() as int));
    assert forall|p: int| 0 <= p && p + m <= e implies !occurs_at(s, token, p) by {
        if occurs_at(s, token, p) {
            if p + m <= c {
            } else if p >= c - held {
                assert(w.subrange(p - (c - held), p - (c - held) + m) =~= s.subrange(p, p + m));
                assert(occurs_at(w, token, p - (c - held)));
            } else {
                let h = c - p;
                assert(s.subrange(0, c).subrange(c - h, c) =~= s.subrange(p, p + m).subrange(0, h));
                assert(is_overlap(s.subrange(0, c), token, h));
            }
        }
    }
    assert forall|h: int| h2 < h <= e implies !is_overlap(s.subrange(0, e), token, h) by {
        if is_overlap(s.subrange(0, e), token, h) {
            if h <= w.len() {
                assert(w.subrange(w.len() - h, w.len() as int) =~= s.subrange(0, e).subrange(
                    e - h,
                    e,
                ));
                assert(is_overlap(w, token, h));
            } else {
                // The tail reaches back before what is withheld.
                let g = h - k;
                assert(s.subrange(0, c).subrange(c - g, c) =~= s.subrange(0, e).subrange(e - h, e).subrange(
                    0,
                    g,
                ));
                assert(token.subrange(0, h).subrange(0, g) =~= token.subrange(0, g));
                assert(is_overlap(s.subrange(0, c), token, g));
            }
        }
    }
}

/// A source of bytes that hands them out in chunks and can be told how many
/// of them were used, with a way to read it up to a token.
pub trait BufReadExt {
    /// The bytes that are yet to be read.
    spec fn remaining(&self) -> Seq<u8>;

    /// Copies the stream to `out` up to the first occurrence of `token`,
    /// which is skipped, or to the end of the stream where there is none.
    /// Returns the number of bytes copied and whether the token was found.
    fn stream_until_token(&mut self, token: &[u8], out: &mut Vec<u8>) -> (r: (usize, bool))
        requires
            token@.len() > 0,
            token@.len() + old(self).remaining().len() <= usize::MAX,
        ensures
            ({
                let s = old(self).remaining();
                match find_from(s, token@, 0) {
                    Some(at) => {
                        &&& r == (at as usize, true)
                        &&& final(out)@ == old(out)@ + s.subrange(0, at)
                        &&& final(self).remaining() == s.subrange(at + token@.len(), s.len() as int)
                    },
                    None => {
                        &&& r == (s.len() as usize, false)
                        &&& final(out)@ == old(out)@ + s
                        &&& final(self).remaining().len() == 0
                    },
                }
            }),
    ;
}

/// Bytes in memory, read through a buffer of fixed size.
pub struct ChunkReader {
    data: Vec<u8>,
    /// How many bytes have been read.
    pos: usize,
    /// Where the part that is buffered ends.
    filled: usize,
    /// The size of the buffer.
    capacity: usize,
}

impl ChunkReader {
    #[verifier::type_invariant]
    spec fn wf(&self) -> bool {
        self.pos <= self.filled <= self.data@.len() && self.capacity > 0
    }

    /// The bytes that are buffered and not read yet.
    pub closed spec fn buffered(&self) -> Seq<u8> {
        self.data@.subrange(self.pos as int, self.filled as int)
    }

    pub closed spec fn unread(&self) -> Seq<u8> {
        self.data@.subrange(self.pos as int, self.data@.len() as int)
    }

    /// A reader over `data` that hands out all of it at once.
    pub fn new(data: Vec<u8>) -> (reader: ChunkReader)
        ensures
            reader.unread() == data@,
    {
        let reader = ChunkReader { data, pos: 0, filled: 0, capacity: usize::MAX };
        assert(reader.unread() =~= reader.data@);
        reader
    }

    /// A reader over `data` that hands out at most `capacity` bytes at a
    /// time; a capacity of zero counts as one.
    pub fn with_capacity(capacity: usize, data: Vec<u8>) -> (reader: ChunkReader)
        ensures
            reader.unread() == data@,
    {
        let capacity = if capacity == 0 {
            1
        } else {
            capacity
        };
        let reader = ChunkReader { data, pos: 0, filled: 0, capacity };
        assert(reader.unread() =~= reader.data@);
        reader
    }

    /// Fills the buffer when it is used up. Returns the bounds of the
    /// buffered bytes; they are empty only at the end of the data.
    fn fill(&mut self) -> (r: (usize, usize))
        ensures
            final(self).data == old(self).data,
            final(self).pos == old(self).pos,
            r.0 == final(self).pos,
            r.1 == final(self).filled,
            r.0 <= r.1 <= final(self).data@.len(),
            r.0 == r.1 ==> r.0 == final(self).data@.len(),
    {
        proof {
            use_type_invariant(&*self);
        }
        if self.pos == self.filled {
            let left = self.data.len() - self.pos;
            if left < self.capacity {
                self.filled = self.data.len();
            } else {
                self.filled = self.pos + self.capacity;
            }
        }
        (self.pos, self.filled)
    }

    /// Marks `n` buffered bytes as read.
    fn consume(&mut self, n: usize)
        requires
            old(self).pos + n <= old(self).filled,
        ensures
            final(self).data == old(self).data,
            final(self).pos == old(self).pos + n,
    {
        proof {
            use_type_invariant(&*self);
        }
        self.pos = self.pos + n;
    }
}

impl BufReadExt for ChunkReader {
    open spec fn remaining(&self) -> Seq<u8> {
        self.unread()
    }

    fn stream_until_token(&mut self, token: &[u8], out: &mut Vec<u8>) -> (r: (usize, bool)) {
        proof {
            use_type_invariant(&*self);
        }
        let ghost s = self.unread();
        let ghost base = self.pos as int;
        let ghost out0 = out@;
        let m = token.len();
        let mut read: usize = 0;
        let mut held: usize = 0;
        assert(s.subrange(0, 0) =~= token@.subrange(0, 0));
        assert(out@ =~= out0 + s.subrange(0, 0));
        loop
            invariant
                m == token@.len(),
                m > 0,
                m + s.len() <= usize::MAX,
                self.data == old(self).data,
                s == old(self).unread(),
                out0 == old(out)@,
                base == old(self).pos,
                self.pos == base + read,
                self.pos <= self.data@.len(),
                scanned(s, token@, read as int, held as int),
                out@ == out0 + s.subrange(0, read - held),
            decreases s.len() - read,
        {
            let (lo, hi) = self.fill();
            if lo == hi {
                out.extend_from_slice(slice_subrange(token, 0, held));
                proof {
                    assert(read == s.len());
                    assert(out@ =~= out0 + s);
                    assert forall|p: int| 0 <= p implies !occurs_at(s, token@, p) by {}
                    lemma_find_from(s, token@, 0);
                    assert(self.unread() =~= Seq::<u8>::empty());
                }
                return (read, false);
            }
            let chunk = slice_subrange(self.data.as_slice(), lo, hi);
            let ghost k = hi - lo;
            assert(chunk@ =~= s.subrange(read as int, read + k));
            let ghost before = out@;
            let (used, keep, found) = scan_chunk(token, held, chunk, out);
            let ghost w = window(token@, held as int, chunk@);
            assert(w =~= s.subrange(read - held, read + k));
            self.consume(used);
            if found {
                proof {
                    let at = find_from(w, token@, 0).unwrap();
                    lemma_found(s, token@, read as int, held as int, k, at);
                    let first = read - held + at;
                    assert(out@ =~= out0 + s.subrange(0, first));
                    assert(self.unread() =~= s.subrange(first + m, s.len() as int));
                }
                return (read + used - m, true);
            }
            proof {
                lemma_not_found(s, token@, read as int, held as int, k);
                assert(out@ =~= out0 + s.subrange(0, read + k - keep));
            }
            read = read + used;
            held = keep;
        }
    }
}

} // verus!
