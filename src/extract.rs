use vstd::prelude::*;
use crate::error::{Error, ErrorKind};
use crate::frame::{Frame, png_raster};

verus! {

/// Bytes read from the decoder at a time.
pub const CHUNK_SIZE: usize = 102400;

/// The most bytes the frame buffer may hold without yielding a frame.
pub const MAX_FRAME_BUFFER_SIZE: usize = 10485760;

/// The IEND chunk that ends every PNG file: an empty length, the chunk type,
/// and its CRC.
pub open spec fn png_footer() -> Seq<u8> {
    seq![0x00u8, 0x00u8, 0x00u8, 0x00u8, 0x49u8, 0x45u8, 0x4Eu8, 0x44u8, 0xAEu8, 0x42u8, 0x60u8, 0x82u8]
}

/// The footer starts at offset `k` of `b`.
pub open spec fn footer_at(b: Seq<u8>, k: int) -> bool {
    0 <= k && k + 12 <= b.len() && b.subrange(k, k + 12) == png_footer()
}

/// The footer starts at `k` and at no earlier offset.
pub open spec fn first_footer_at(b: Seq<u8>, k: int) -> bool {
    footer_at(b, k) && forall|j: int| 0 <= j < k ==> !footer_at(b, j)
}

/// The footer occurs somewhere in `b`.
pub open spec fn has_footer(b: Seq<u8>) -> bool {
    exists|k: int| footer_at(b, k)
}

/// The offset of the first footer in `b`.
pub open spec fn first_footer(b: Seq<u8>) -> int {
    choose|k: int| first_footer_at(b, k)
}

/// Where a footer occurs, a first one does.
pub proof fn lemma_first_footer_exists(b: Seq<u8>, k: int)
    requires
        footer_at(b, k),
    ensures
        first_footer_at(b, first_footer(b)),
    decreases k,
{
    if exists|j: int| 0 <= j < k && footer_at(b, j) {
        let j = choose|j: int| 0 <= j < k && footer_at(b, j);
        lemma_first_footer_exists(b, j);
    } else {
        assert(first_footer_at(b, k));
    }
}

/// The complete PNG files at the front of `b`, each ending at the first
/// footer after the previous one, and the bytes after the last of them.
pub open spec fn framed(b: Seq<u8>) -> (Seq<Seq<u8>>, Seq<u8>)
    decreases b.len(),
{
    if has_footer(b) {
        proof {
            lemma_first_footer_exists(b, choose|k: int| footer_at(b, k));
        }
        let end = first_footer(b) + 12;
        let (files, rest) = framed(b.subrange(end, b.len() as int));
        (seq![b.subrange(0, end)] + files, rest)
    } else {
        (Seq::empty(), b)
    }
}

/// Framing takes nothing away and adds nothing: the files, then the rest, are
/// the bytes framed.
pub proof fn lemma_framed_covers(b: Seq<u8>)
    ensures
        framed(b).0.flatten() + framed(b).1 == b,
    decreases b.len(),
{
    if has_footer(b) {
        lemma_first_footer_exists(b, choose|k: int| footer_at(b, k));
        let end = first_footer(b) + 12;
        let tail = b.subrange(end, b.len() as int);
        lemma_framed_covers(tail);
        let files = framed(b).0;
        assert(files.first() == b.subrange(0, end));
        assert(files.drop_first() =~= framed(tail).0);
        assert(b =~= b.subrange(0, end) + tail);
        assert(files.flatten() == files.first() + files.drop_first().flatten());
        assert(b.subrange(0, end) + (framed(tail).0.flatten() + framed(tail).1) =~= (b.subrange(0, end)
            + framed(tail).0.flatten()) + framed(tail).1);
    } else {
        assert(framed(b).0.flatten() =~= Seq::<u8>::empty());
        assert(Seq::<u8>::empty() + b =~= b);
    }
}

/// A buffer without a footer frames nothing: all its bytes stay buffered.
pub proof fn lemma_no_footer_frames_nothing(b: Seq<u8>)
    requires
        !has_footer(b),
    ensures
        framed(b) == (Seq::<Seq<u8>>::empty(), b),
{
}

/// A PNG file whose only footer is its last twelve bytes, read in two parts
/// cut anywhere, even inside the footer: the first part frames nothing, and
/// the whole frames exactly that one file.
pub proof fn lemma_straddled_footer_found(p: Seq<u8>, cut: int)
    requires
        p.len() >= 12,
        first_footer_at(p, p.len() - 12),
        0 <= cut < p.len(),
    ensures
        framed(p.subrange(0, cut)) == (Seq::<Seq<u8>>::empty(), p.subrange(0, cut)),
        framed(p.subrange(0, cut) + p.subrange(cut, p.len() as int)) == (seq![p], Seq::<u8>::empty()),
{
    let a = p.subrange(0, cut);
    assert(!has_footer(a)) by {
        if has_footer(a) {
            let k = choose|k: int| footer_at(a, k);
            assert(a.subrange(k, k + 12) =~= p.subrange(k, k + 12));
            assert(footer_at(p, k));
        }
    }
    lemma_no_footer_frames_nothing(a);
    assert(a + p.subrange(cut, p.len() as int) =~= p);
    lemma_single_file_framed(p);
}

proof fn lemma_single_file_framed(p: Seq<u8>)
    requires
        p.len() >= 12,
        first_footer_at(p, p.len() - 12),
    ensures
        framed(p) == (seq![p], Seq::<u8>::empty()),
{
    let n = p.len() as int;
    lemma_first_footer_unique(p, n - 12);
    assert(has_footer(p));
    let tail = p.subrange(n, n);
    assert(tail =~= Seq::<u8>::empty());
    assert(!has_footer(tail));
    lemma_no_footer_frames_nothing(tail);
    assert(p.subrange(0, n) =~= p);
    assert(seq![p] + Seq::<Seq<u8>>::empty() =~= seq![p]);
}

/// The first footer is the one offset that `first_footer_at` admits.
proof fn lemma_first_footer_unique(b: Seq<u8>, k: int)
    requires
        first_footer_at(b, k),
    ensures
        first_footer(b) == k,
{
    let m = first_footer(b);
    assert(first_footer_at(b, m));
    if m < k {
        assert(!footer_at(b, m));
    }
    if k < m {
        assert(!footer_at(b, k));
    }
}

/// Whether the footer starts at offset `k` of `data`.
fn footer_at_exec(data: &[u8], k: usize) -> (r: bool)
    requires
        k + 12 <= data@.len(),
    ensures
        r == footer_at(data@, k as int),
{
    let found = data[k] == 0x00 && data[k + 1] == 0x00 && data[k + 2] == 0x00 && data[k + 3] == 0x00
        && data[k + 4] == 0x49 && data[k + 5] == 0x45 && data[k + 6] == 0x4E && data[k + 7] == 0x44
        && data[k + 8] == 0xAE && data[k + 9] == 0x42 && data[k + 10] == 0x60 && data[k + 11] == 0x82;
    let ghost w = data@.subrange(k as int, k + 12);
    if found {
        assert(w =~= png_footer());
    } else {
        assert(w != png_footer()) by {
            if w == png_footer() {
                assert(w[0] == png_footer()[0]);
                assert(w[1] == png_footer()[1]);
                assert(w[2] == png_footer()[2]);
                assert(w[3] == png_footer()[3]);
                assert(w[4] == png_footer()[4]);
                assert(w[5] == png_footer()[5]);
                assert(w[6] == png_footer()[6]);
                assert(w[7] == png_footer()[7]);
                assert(w[8] == png_footer()[8]);
                assert(w[9] == png_footer()[9]);
                assert(w[10] == png_footer()[10]);
                assert(w[11] == png_footer()[11]);
            }
        }
    }
    found
}

/// The end of the first complete PNG file in `data`: the offset just past the
/// first footer, or `None` where no footer occurs.
pub fn find_png_footer(data: &[u8]) -> (r: Option<usize>)
    ensures
        match r {
            Some(end) => end >= 12 && first_footer_at(data@, end - 12) && first_footer(data@) == end - 12,
            None => !has_footer(data@),
        },
{
    if data.len() < 12 {
        return None;
    }
    let n = data.len();
    let last = n - 12;
    let mut i: usize = 0;
    while i <= last
        invariant
            last + 12 == n,
            n == data@.len(),
            i <= last + 1,
            forall|j: int| 0 <= j < i ==> !footer_at(data@, j),
        decreases last + 1 - i,
    {
        if footer_at_exec(data, i) {
            proof {
                lemma_first_footer_unique(data@, i as int);
            }
            return Some(i + 12);
        }
        i = i + 1;
    }
    None
}

/// The framer of the decoder's output: a stream of PNG files written back to
/// back, read in chunks of any size, split into frames numbered in order.
pub struct PngFramer {
    buffer: Vec<u8>,
    next_index: usize,
}

impl PngFramer {
    /// The bytes read and not yet framed.
    pub closed spec fn buffered(&self) -> Seq<u8> {
        self.buffer@
    }

    /// The index that the next frame gets.
    pub closed spec fn spec_next_index(&self) -> nat {
        self.next_index as nat
    }

    /// An empty framer whose first frame gets index 0.
    pub fn new() -> (r: PngFramer)
        ensures
            r.buffered() == Seq::<u8>::empty(),
            r.spec_next_index() == 0,
    {
        PngFramer { buffer: Vec::new(), next_index: 0 }
    }

    /// The number of bytes read and not yet framed.
    pub fn buffered_len(&self) -> (r: usize)
        ensures
            r == self.buffered().len(),
    {
        self.buffer.len()
    }

    /// The index that the next frame gets.
    pub fn next_index(&self) -> (r: usize)
        ensures
            r == self.spec_next_index(),
    {
        self.next_index
    }

    /// Appends bytes read from the decoder.
    pub fn push(&mut self, chunk: &[u8])
        requires
            old(self).buffered().len() + chunk@.len() <= usize::MAX,
        ensures
            final(self).buffered() == old(self).buffered() + chunk@,
            final(self).spec_next_index() == old(self).spec_next_index(),
    {
        self.buffer.extend_from_slice(chunk);
        assert(self.buffer@ =~= old(self).buffer@ + chunk@);
    }

    /// Takes the first complete PNG file out of the buffer and decodes it.
    ///
    /// Where the buffer holds a footer, the bytes up to and including the
    /// first one leave it and become the frame, with the next index; they
    /// leave it also where they do not decode (a `DecodeFraming` error).
    /// Where it holds none, nothing changes: `Ok(None)` while the buffer is
    /// within `MAX_FRAME_BUFFER_SIZE`, else a `DecodeFraming` error.
    pub fn next_frame(&mut self) -> (r: Result<Option<Frame>, Error>)
        requires
            old(self).spec_next_index() < usize::MAX,
        ensures
            ({
                let b = old(self).buffered();
                if has_footer(b) {
                    let end = first_footer(b) + 12;
                    &&& final(self).buffered() == b.subrange(end, b.len() as int)
                    &&& match r {
                        Ok(Some(f)) => png_raster(b.subrange(0, end)) == Some(f.image@)
                            && f.index == old(self).spec_next_index() && f.duplicates == 0
                            && final(self).spec_next_index() == old(self).spec_next_index() + 1,
                        Ok(None) => false,
                        Err(e) => png_raster(b.subrange(0, end)) is None
                            && e.kind == ErrorKind::DecodeFraming
                            && final(self).spec_next_index() == old(self).spec_next_index(),
                    }
                } else {
                    &&& final(self).buffered() == b
                    &&& final(self).spec_next_index() == old(self).spec_next_index()
                    &&& match r {
                        Ok(Some(_)) => false,
                        Ok(None) => b.len() <= MAX_FRAME_BUFFER_SIZE,
                        Err(e) => b.len() > MAX_FRAME_BUFFER_SIZE && e.kind == ErrorKind::DecodeFraming,
                    }
                }
            }),
    {
        match find_png_footer(self.buffer.as_slice()) {
            Some(end) => {
                let mut bytes = self.buffer.split_off(end);
                core::mem::swap(&mut self.buffer, &mut bytes);
                let frame = Frame::from_bytes(bytes.as_slice(), self.next_index);
                if frame.is_ok() {
                    self.next_index = self.next_index + 1;
                }
                match frame {
                    Ok(f) => Ok(Some(f)),
                    Err(e) => Err(e),
                }
            },
            None => {
                if self.buffer.len() > MAX_FRAME_BUFFER_SIZE {
                    Err(Error::with_kind(ErrorKind::DecodeFraming, "frame buffer is too large".to_owned()))
                } else {
                    Ok(None)
                }
            },
        }
    }

    /// Appends bytes read from the decoder and frames every complete PNG
    /// file in the buffer, in order, before the next read: the files that
    /// `framed` finds, numbered on from the next index.
    ///
    /// Without an error all of them come out and the rest stays buffered,
    /// within `MAX_FRAME_BUFFER_SIZE`. A `DecodeFraming` error comes with the
    /// frames decoded before it, where a file does not decode (it leaves the
    /// buffer too) or where the rest outgrows the bound.
    pub fn feed(&mut self, chunk: &[u8]) -> (r: (Vec<Frame>, Option<Error>))
        requires
            old(self).spec_next_index() + old(self).buffered().len() + chunk@.len() < usize::MAX,
        ensures
            ({
                let b = old(self).buffered() + chunk@;
                let (files, rest) = framed(b);
                let frames = r.0@;
                let k = frames.len() as int;
                &&& k <= files.len()
                &&& forall|i: int| 0 <= i < k ==> png_raster(files[i]) == Some((#[trigger] frames[i]).image@)
                    && frames[i].index == old(self).spec_next_index() + i && frames[i].duplicates == 0
                &&& final(self).spec_next_index() == old(self).spec_next_index() + k
                &&& match r.1 {
                    None => k == files.len() && final(self).buffered() == rest
                        && rest.len() <= MAX_FRAME_BUFFER_SIZE,
                    Some(e) => e.kind == ErrorKind::DecodeFraming && (
                        (k < files.len() && png_raster(files[k]) is None
                            && final(self).buffered() == files.subrange(k + 1, files.len() as int).flatten() + rest)
                        || (k == files.len() && rest.len() > MAX_FRAME_BUFFER_SIZE && final(self).buffered() == rest)),
                }
            }),
    {
        let ghost b = old(self).buffered() + chunk@;
        let ghost start = old(self).spec_next_index();
        self.push(chunk);
        let mut frames: Vec<Frame> = Vec::new();
        loop
            invariant
                b == old(self).buffered() + chunk@,
                start == old(self).spec_next_index(),
                b.len() + start < usize::MAX,
                self.spec_next_index() == start + frames@.len(),
                frames@.len() <= framed(b).0.len(),
                self.spec_next_index() + self.buffered().len() <= start + b.len(),
                framed(b).0 == framed(b).0.subrange(0, frames@.len() as int) + framed(self.buffered()).0,
                framed(b).1 == framed(self.buffered()).1,
                forall|i: int| 0 <= i < frames@.len() ==> png_raster(framed(b).0[i]) == Some((#[trigger] frames@[i]).image@)
                    && frames@[i].index == start + i && frames@[i].duplicates == 0,
            decreases self.buffered().len(),
        {
            let ghost cur = self.buffered();
            proof {
                if has_footer(cur) {
                    lemma_first_footer_exists(cur, choose|k: int| footer_at(cur, k));
                }
            }
            let next = self.next_frame();
            proof {
                if has_footer(cur) {
                    let end = first_footer(cur) + 12;
                    let tail = cur.subrange(end, cur.len() as int);
                    assert(framed(cur).0 == seq![cur.subrange(0, end)] + framed(tail).0);
                    assert(framed(cur).0[0] == cur.subrange(0, end));
                    assert(framed(b).0[frames@.len() as int] == cur.subrange(0, end));
                }
            }
            match next {
                Ok(Some(frame)) => {
                    proof {
                        let end = first_footer(cur) + 12;
                        let tail = cur.subrange(end, cur.len() as int);
                        let n = frames@.len() as int;
                        assert(framed(b).0.subrange(0, n + 1) =~= framed(b).0.subrange(0, n).push(cur.subrange(0, end)));
                        assert(framed(b).0 =~= framed(b).0.subrange(0, n + 1) + framed(tail).0);
                    }
                    frames.push(frame);
                },
                Ok(None) => {
                    proof {
                        let n = frames@.len() as int;
                        assert(!has_footer(cur));
                        assert(framed(cur).0 == Seq::<Seq<u8>>::empty());
                        assert(framed(cur).1 == cur);
                        assert(framed(b).0 =~= framed(b).0.subrange(0, n));
                    }
                    return (frames, None);
                },
                Err(e) => {
                    proof {
                        let n = frames@.len() as int;
                        if has_footer(cur) {
                            let end = first_footer(cur) + 12;
                            let tail = cur.subrange(end, cur.len() as int);
                            lemma_framed_covers(tail);
                            assert(framed(b).0.subrange(n + 1, framed(b).0.len() as int) =~= framed(tail).0);
                        } else {
                            assert(framed(cur).0 == Seq::<Seq<u8>>::empty());
                            assert(framed(cur).1 == cur);
                            assert(framed(b).0 =~= framed(b).0.subrange(0, n));
                        }
                    }
                    return (frames, Some(e));
                },
            }
        }
    }
}

} // verus!
