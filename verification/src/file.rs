//! The byte source and the operations on it: a read-only memory-mapped
//! file, the incremental line-index builder, and character-addressed
//! retrieval of a line window.

use vstd::prelude::*;
use vstd::utf8::{decode_utf8, valid_utf8};

use crate::index::{lemma_index_pred, lemma_prefix_decomposition, IndexInv, Metadata, MetadataPtr};
use crate::lines::{
    cols_of, content_of, count_lines_from, lemma_line_end_bounds, lemma_line_end_scan,
    line_chars_at, seg_of, window,
};

verus! {

#[verifier::external_type_specification]
#[verifier::external_body]
pub struct ExMmap(memmap::Mmap);

/// The bytes held by a read-only memory mapping. Naming them as a function
/// of the map alone assumes the mapped file is not written while the map
/// lives — this process never writes it, and a file changing under the
/// viewer is outside the design, but the operating system does not stop
/// another process; that residual assumption is taken where the map is made.
pub uninterp spec fn mmap_bytes(m: memmap::Mmap) -> Seq<u8>;

/// Relies on `memmap::Mmap`'s `Deref` to `[u8]`: a read-only map presents
/// its whole mapped region as one immutable byte slice.
#[verifier::external_body]
fn mmap_as_slice(m: &memmap::Mmap) -> (r: &[u8])
    ensures
        r@ == mmap_bytes(*m),
{
    &m[..]
}

/// Relies on `simdutf8::basic::from_utf8`, the documented analogue of
/// `std::str::from_utf8`: it succeeds exactly on valid UTF-8 input, and on
/// success the returned `&str` views exactly the input bytes.
#[verifier::external_body]
fn try_decode(b: &[u8]) -> (r: Option<&str>)
    ensures
        r is Some <==> valid_utf8(b@),
        r matches Some(s) ==> s@ == decode_utf8(b@),
{
    match simdutf8::basic::from_utf8(b) {
        Ok(s) => Some(s),
        Err(_) => None,
    }
}

/// A read-only view of one file's bytes, backed by a memory mapping that is
/// established once and never written through.
pub struct File {
    mmap: memmap::Mmap,
}

impl View for File {
    type V = Seq<u8>;

    closed spec fn view(&self) -> Seq<u8> {
        mmap_bytes(self.mmap)
    }
}

impl File {
    /// Wraps an established read-only mapping. Opening the file and making
    /// the map are the caller's (unverified) business; from here on the
    /// bytes are fixed.
    pub fn from_map(mmap: memmap::Mmap) -> (r: File)
        ensures
            r@ == mmap_bytes(mmap),
    {
        File { mmap }
    }

    /// Length of the mapped byte sequence.
    pub fn byte_len(&self) -> (n: usize)
        ensures
            n as nat == self@.len(),
    {
        let s = mmap_as_slice(&self.mmap);
        s.len()
    }

    /// The bytes in `[start, end)` of the mapped region.
    pub fn byte_range(&self, start: usize, end: usize) -> (r: &[u8])
        requires
            start <= end <= self@.len(),
        ensures
            r@ == self@.subrange(start as int, end as int),
    {
        let s = mmap_as_slice(&self.mmap);
        &s[start..end]
    }

    /// Scans the mapped bytes from the end of the region already covered by
    /// `index`, splitting on the newline byte, and commits one index entry
    /// per discovered segment, taking the lock for one append at a time.
    ///
    /// Returns the final line count, which then equals the file's total
    /// number of line segments. Returns `None` only if the index moved
    /// backwards between two lock acquisitions; the build then stops rather
    /// than commit entries out of place. No operation of this library can
    /// move the index backwards — `MetadataPtr` offers the outside world
    /// read-only snapshots, and this builder only appends — so a build over
    /// an index fed through this library alone returns `Some`; an empty
    /// byte sequence is covered before the first append and always does.
    pub fn build_linemap(&self, index: &MetadataPtr) -> (r: Option<usize>)
        requires
            index.bytes() == self@,
        ensures
            self@.len() == 0 ==> r is Some,
            r matches Some(n) ==> n as nat == count_lines_from(self@, 0),
            r matches Some(n) ==> exists|m: Metadata|
                (#[trigger] m.wf()) && m.matches(self@) && m.complete(self@)
                    && m.spec_line_count() == n,
    {
        let ghost bytes = self@;
        proof {
            lemma_index_pred(index);
        }
        let data = mmap_as_slice(&self.mmap);
        let total = data.len();
        // Resume from the end of the region the index already covers.
        let handle = index.lock.acquire_read();
        let m0 = handle.borrow();
        let mut pos: usize = m0.covered_bytes(Ghost(bytes));
        let mut count: usize = m0.line_count();
        let ghost mut gw = *m0;
        proof {
            lemma_prefix_decomposition(*m0, bytes, m0.spec_line_count() as int);
        }
        handle.release_read();
        loop
            invariant
                bytes == self@,
                index.lock.pred() == (IndexInv { bytes }),
                data@ == bytes,
                total == bytes.len(),
                pos <= total,
                count as nat + count_lines_from(bytes, pos as int) == count_lines_from(bytes, 0),
                gw.wf() && gw.matches(bytes),
                gw.covered() == pos as int,
                gw.spec_line_count() == count,
            decreases total - pos,
        {
            if pos >= total {
                proof {
                    assert(count_lines_from(bytes, pos as int) == 0);
                    assert(gw.complete(bytes));
                }
                return Some(count);
            }
            // Find the end of the segment that starts at `pos`.
            let mut j = pos;
            while j < total && data[j] != 10u8
                invariant
                    pos <= j <= total,
                    data@ == bytes,
                    total == bytes.len(),
                    forall|t: int| pos <= t < j ==> bytes[t] != 10u8,
                decreases total - j,
            {
                j = j + 1;
            }
            let e = if j < total {
                j + 1
            } else {
                total
            };
            proof {
                lemma_line_end_scan(bytes, pos as int, j as int);
                let seg = seg_of(bytes, pos as int);
                assert(seg =~= bytes.subrange(pos as int, e as int));
                if j < total {
                    assert(seg.last() == bytes[j as int]);
                    assert(content_of(seg) =~= bytes.subrange(pos as int, j as int));
                } else {
                    assert(seg.last() == bytes[j as int - 1]);
                    assert(content_of(seg) =~= bytes.subrange(pos as int, j as int));
                }
            }
            // Count the segment's columns, terminator excluded.
            let content = &data[pos..j];
            let ncols = match try_decode(content) {
                Some(s) => s.unicode_len(),
                None => j - pos,
            };
            proof {
                assert(ncols as nat == cols_of(content_of(seg_of(bytes, pos as int))));
            }
            // Commit the entry under the lock, held for this append alone.
            let (mut m, wh) = index.lock.acquire_write();
            let c = m.covered_bytes(Ghost(bytes));
            if c == pos {
                m.append_line(Ghost(bytes), pos, e - pos, ncols);
                count = m.line_count();
                proof {
                    lemma_prefix_decomposition(m, bytes, m.spec_line_count() as int);
                    gw = m;
                }
                wh.release_write(m);
                pos = e;
            } else {
                let n_other = m.line_count();
                proof {
                    lemma_prefix_decomposition(m, bytes, m.spec_line_count() as int);
                    gw = m;
                }
                wh.release_write(m);
                if c > pos {
                    // Another builder got ahead; skip to where it stopped.
                    count = n_other;
                    pos = c;
                } else {
                    return None;
                }
            }
        }
    }

    /// The characters of `line` at column positions `[col_start, col_end)`.
    /// Both bounds are clamped to the line's character count, so any request
    /// on an indexed line is answered; a line whose bytes do not decode has
    /// no characters to show and yields an empty result.
    pub fn get_text<'a>(
        &'a self,
        metadata: &Metadata,
        line: usize,
        col_start: usize,
        col_end: usize,
    ) -> (r: &'a str)
        requires
            metadata.wf(),
            metadata.matches(self@),
            line < metadata.spec_line_count(),
        ensures
            r@ == window(
                line_chars_at(self@, metadata.starts()[line as int] as int),
                col_start as int,
                col_end as int,
            ),
    {
        let ghost bytes = self@;
        let start = metadata.line_start_byte(line);
        let nbytes = metadata.line_byte_length(line);
        proof {
            lemma_prefix_decomposition(*metadata, bytes, line as int + 1);
            assert(metadata.covered_upto(line as int + 1) == start + nbytes);
            lemma_line_end_bounds(bytes, start as int);
        }
        let raw = self.byte_range(start, start + nbytes);
        let clen = if nbytes > 0 && raw[nbytes - 1] == 10u8 {
            nbytes - 1
        } else {
            nbytes
        };
        let content = &raw[0..clen];
        proof {
            let seg = seg_of(bytes, start as int);
            assert(seg =~= raw@);
            assert(content@ =~= content_of(seg));
        }
        match try_decode(content) {
            Some(s) => {
                let n = s.unicode_len();
                let ce = if col_end <= n {
                    col_end
                } else {
                    n
                };
                let cs = if col_start <= ce {
                    col_start
                } else {
                    ce
                };
                let r = s.substring_char(cs, ce);
                proof {
                    assert(r@ =~= window(
                        line_chars_at(bytes, start as int),
                        col_start as int,
                        col_end as int,
                    ));
                }
                r
            },
            None => {
                let r = "";
                proof {
                    reveal_strlit("");
                    assert(r@ =~= window(
                        line_chars_at(bytes, start as int),
                        col_start as int,
                        col_end as int,
                    ));
                }
                r
            },
        }
    }
}

/// The text of the lines a viewport shows: up to `height` lines starting at
/// `first_line`, each clipped to the column window `[col_start, col_end)`.
/// The index is read under one lock acquisition, so the lines come from one
/// consistent snapshot, some correct prefix index of the file.
pub fn visible_lines<'a>(
    file: &'a File,
    index: &MetadataPtr,
    first_line: usize,
    col_start: usize,
    col_end: usize,
    height: usize,
) -> (r: Vec<&'a str>)
    requires
        index.bytes() == file@,
    ensures
        exists|m: Metadata|
            {
                &&& (#[trigger] m.wf())
                &&& m.matches(file@)
                &&& r@.len() == (if first_line as int >= m.spec_line_count() as int {
                    0int
                } else if height as int <= m.spec_line_count() as int - first_line as int {
                    height as int
                } else {
                    m.spec_line_count() as int - first_line as int
                })
                &&& forall|k: int|
                    0 <= k < r@.len() ==> (#[trigger] r@[k])@ == window(
                        line_chars_at(file@, m.starts()[first_line + k] as int),
                        col_start as int,
                        col_end as int,
                    )
            },
{
    let ghost bytes = file@;
    proof {
        lemma_index_pred(index);
    }
    let handle = index.lock.acquire_read();
    let m = handle.borrow();
    let ghost gm = *m;
    let n = m.line_count();
    let take = if first_line >= n {
        0
    } else if height <= n - first_line {
        height
    } else {
        n - first_line
    };
    let mut out: Vec<&'a str> = Vec::new();
    let mut i: usize = 0;
    while i < take
        invariant
            bytes == file@,
            gm == *m,
            gm.wf(),
            gm.matches(bytes),
            take == 0 || first_line as int + take as int <= gm.spec_line_count() as int,
            out@.len() == i as int,
            i <= take,
            forall|k: int|
                0 <= k < i as int ==> (#[trigger] out@[k])@ == window(
                    line_chars_at(bytes, gm.starts()[first_line + k] as int),
                    col_start as int,
                    col_end as int,
                ),
        decreases take - i,
    {
        let s = file.get_text(m, first_line + i, col_start, col_end);
        out.push(s);
        i = i + 1;
    }
    handle.release_read();
    proof {
        assert(gm.wf() && gm.matches(file@));
    }
    out
}

} // verus!
