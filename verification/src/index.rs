//! The line index: an append-only record of the byte span and column count
//! of every line discovered so far, shared between the builder task and any
//! number of readers under a lock whose invariant ties the index to the
//! mapped bytes.

use vstd::prelude::*;
use vstd::rwlock::{ReadHandle, RwLock, RwLockPredicate};

use crate::file::File;
use crate::lines::{
    cols_of, content_of, count_lines_from, line_end, lemma_line_end_bounds, max_cols_from,
    nat_max, seg_of,
};

verus! {

/// Per-line records discovered so far. The three columns of the table are
/// kept in step: entry `i` says that line `i` starts at byte
/// `line_to_byte_idx[i]`, spans `line_to_num_bytes[i]` bytes (terminator
/// included) and shows `line_to_num_cols[i]` columns (terminator excluded).
pub struct Metadata {
    num_lines: usize,
    max_num_cols: usize,
    line_to_byte_idx: Vec<usize>,
    line_to_num_bytes: Vec<usize>,
    line_to_num_cols: Vec<usize>,
}

impl Metadata {
    pub closed spec fn starts(&self) -> Seq<usize> {
        self.line_to_byte_idx@
    }

    pub closed spec fn byte_lens(&self) -> Seq<usize> {
        self.line_to_num_bytes@
    }

    pub closed spec fn col_counts(&self) -> Seq<usize> {
        self.line_to_num_cols@
    }

    pub closed spec fn spec_line_count(&self) -> usize {
        self.num_lines
    }

    pub closed spec fn spec_max_columns(&self) -> usize {
        self.max_num_cols
    }

    /// Largest column count among the first `j` recorded lines.
    pub open spec fn max_cols_upto(&self, j: int) -> nat
        decreases j,
    {
        if j <= 0 {
            0
        } else {
            nat_max(self.max_cols_upto(j - 1), self.col_counts()[j - 1] as nat)
        }
    }

    /// The byte position just past the first `j` recorded lines.
    pub open spec fn covered_upto(&self, j: int) -> int {
        if j <= 0 {
            0
        } else {
            self.starts()[j - 1] + self.byte_lens()[j - 1]
        }
    }

    /// The byte position up to which the index describes the file.
    pub open spec fn covered(&self) -> int {
        self.covered_upto(self.spec_line_count() as int)
    }

    /// Internal consistency: the three per-line tables and the two counters
    /// agree. A reader that sees `line_count == n` therefore finds all three
    /// entries of every line below `n`, and `max_columns` is exactly the
    /// largest recorded column count.
    pub open spec fn wf(&self) -> bool {
        &&& self.starts().len() == self.spec_line_count()
        &&& self.byte_lens().len() == self.spec_line_count()
        &&& self.col_counts().len() == self.spec_line_count()
        &&& self.spec_max_columns() as nat == self.max_cols_upto(self.spec_line_count() as int)
    }

    /// The index is a correct prefix index of `bytes`: the recorded lines
    /// are exactly the first `num_lines` line segments of `bytes`, packed
    /// contiguously from byte 0, each with its true byte length and its
    /// true column count.
    pub open spec fn matches(&self, bytes: Seq<u8>) -> bool {
        let n = self.spec_line_count() as int;
        &&& bytes.len() <= usize::MAX
        &&& forall|i: int|
            0 <= i < n ==> (#[trigger] self.starts()[i]) as int == self.covered_upto(i)
        &&& forall|i: int| 0 <= i < n ==> (#[trigger] self.starts()[i]) < bytes.len()
        &&& forall|i: int|
            0 <= i < n ==> self.starts()[i] + (#[trigger] self.byte_lens()[i]) == line_end(
                bytes,
                self.starts()[i] as int,
            )
        &&& forall|i: int|
            0 <= i < n ==> (#[trigger] self.col_counts()[i]) as nat == cols_of(
                content_of(seg_of(bytes, self.starts()[i] as int)),
            )
    }

    /// The whole byte sequence has been indexed.
    pub open spec fn complete(&self, bytes: Seq<u8>) -> bool {
        self.covered() == bytes.len()
    }

    pub fn line_count(&self) -> (n: usize)
        ensures
            n == self.spec_line_count(),
    {
        self.num_lines
    }

    pub fn max_columns(&self) -> (n: usize)
        ensures
            n == self.spec_max_columns(),
    {
        self.max_num_cols
    }

    pub fn line_start_byte(&self, line: usize) -> (r: usize)
        requires
            self.wf(),
            line < self.spec_line_count(),
        ensures
            r == self.starts()[line as int],
    {
        self.line_to_byte_idx[line]
    }

    pub fn line_byte_length(&self, line: usize) -> (r: usize)
        requires
            self.wf(),
            line < self.spec_line_count(),
        ensures
            r == self.byte_lens()[line as int],
    {
        self.line_to_num_bytes[line]
    }

    pub fn line_column_count(&self, line: usize) -> (r: usize)
        requires
            self.wf(),
            line < self.spec_line_count(),
        ensures
            r == self.col_counts()[line as int],
    {
        self.line_to_num_cols[line]
    }
}

/// Decomposition of the whole file around the first `j` indexed lines: the
/// first `j` entries of a correct prefix index account for exactly `j` of
/// the file's line segments and for the columns of those segments.
pub proof fn lemma_prefix_decomposition(m: Metadata, bytes: Seq<u8>, j: int)
    requires
        m.wf(),
        m.matches(bytes),
        0 <= j <= m.spec_line_count(),
    ensures
        j <= m.covered_upto(j) <= bytes.len(),
        count_lines_from(bytes, 0) == j + count_lines_from(bytes, m.covered_upto(j)),
        max_cols_from(bytes, 0) == nat_max(
            m.max_cols_upto(j),
            max_cols_from(bytes, m.covered_upto(j)),
        ),
    decreases j,
{
    if j > 0 {
        lemma_prefix_decomposition(m, bytes, j - 1);
        let s = m.starts()[j - 1] as int;
        assert(s == m.covered_upto(j - 1));
        lemma_line_end_bounds(bytes, s);
        assert(count_lines_from(bytes, s) == 1 + count_lines_from(bytes, line_end(bytes, s)));
        assert(max_cols_from(bytes, s) == nat_max(
            cols_of(content_of(seg_of(bytes, s))),
            max_cols_from(bytes, line_end(bytes, s)),
        ));
    }
}

/// After a complete build, `line_count` equals the number of
/// line-terminator-delimited segments in the file, a trailing unterminated
/// segment counting as one line.
pub proof fn lemma_complete_line_count(m: Metadata, bytes: Seq<u8>)
    requires
        m.wf(),
        m.matches(bytes),
        m.complete(bytes),
    ensures
        m.spec_line_count() as nat == count_lines_from(bytes, 0),
{
    lemma_prefix_decomposition(m, bytes, m.spec_line_count() as int);
}

/// After a complete build, `max_columns` equals the maximum column count
/// over all lines of the file.
pub proof fn lemma_complete_max_columns(m: Metadata, bytes: Seq<u8>)
    requires
        m.wf(),
        m.matches(bytes),
        m.complete(bytes),
    ensures
        m.spec_max_columns() as nat == max_cols_from(bytes, 0),
{
    lemma_prefix_decomposition(m, bytes, m.spec_line_count() as int);
}

/// Lines sit side by side: each line after the first starts exactly where
/// the previous one ends.
pub proof fn lemma_lines_contiguous(m: Metadata, bytes: Seq<u8>, i: int)
    requires
        m.wf(),
        m.matches(bytes),
        0 <= i,
        i + 1 < m.spec_line_count(),
    ensures
        m.starts()[i] + m.byte_lens()[i] == m.starts()[i + 1],
{
}

/// The lock invariant of the shared index: whatever a reader finds under
/// the lock is an internally consistent, correct prefix index of the mapped
/// bytes.
#[verifier::ext_equal]
pub struct IndexInv {
    pub bytes: Seq<u8>,
}

impl RwLockPredicate<Metadata> for IndexInv {
    open spec fn inv(self, m: Metadata) -> bool {
        m.wf() && m.matches(self.bytes)
    }
}

/// The shared handle to the line index: a lock whose every content is a
/// correct prefix index of the mapped bytes. Readers take `snapshot`s; the
/// only writer is the builder, which appends through the crate-internal
/// lock — no public operation can replace or shorten the index.
pub struct MetadataPtr {
    pub(crate) lock: RwLock<Metadata, IndexInv>,
}

impl MetadataPtr {
    /// The file bytes this index describes.
    pub closed spec fn bytes(&self) -> Seq<u8> {
        self.lock.pred().bytes
    }

    /// A read-locked snapshot of the index: a correct prefix index of the
    /// file, with no entry missing or partially written. Release it with
    /// `release_read` when done.
    pub fn snapshot(&self) -> (h: ReadHandle<'_, Metadata, IndexInv>)
        ensures
            h.view().wf(),
            h.view().matches(self.bytes()),
    {
        self.lock.acquire_read()
    }
}

/// The handle's lock predicate names exactly the bytes the handle reports.
pub(crate) proof fn lemma_index_pred(index: &MetadataPtr)
    ensures
        index.lock.pred() == (IndexInv { bytes: index.bytes() }),
{
    assert(index.lock.pred() =~= (IndexInv { bytes: index.bytes() }));
}

/// What every reader is promised by the lock invariant: a snapshot that
/// reports `line_count == n` holds all three entries of every line below
/// `n` — none is missing or partially written — and each entry is the true
/// byte span and column count of that line of the file.
pub proof fn lemma_reader_snapshot_consistent(m: Metadata, bytes: Seq<u8>, i: int)
    requires
        (IndexInv { bytes }).inv(m),
        0 <= i < m.spec_line_count(),
    ensures
        m.starts().len() == m.spec_line_count(),
        m.byte_lens().len() == m.spec_line_count(),
        m.col_counts().len() == m.spec_line_count(),
        m.starts()[i] as int == m.covered_upto(i),
        m.starts()[i] + m.byte_lens()[i] == line_end(bytes, m.starts()[i] as int),
        m.col_counts()[i] as nat == cols_of(content_of(seg_of(bytes, m.starts()[i] as int))),
{
}

/// Max-columns bookkeeping depends only on the recorded column counts.
proof fn lemma_max_cols_upto_congruent(a: Metadata, b: Metadata, j: int)
    requires
        forall|i: int| 0 <= i < j ==> a.col_counts()[i] == b.col_counts()[i],
        j <= a.col_counts().len(),
        j <= b.col_counts().len(),
    ensures
        a.max_cols_upto(j) == b.max_cols_upto(j),
    decreases j,
{
    if j > 0 {
        lemma_max_cols_upto_congruent(a, b, j - 1);
    }
}

impl Metadata {
    /// An empty index: no lines, no columns.
    pub fn empty() -> (m: Metadata)
        ensures
            m.wf(),
            m.spec_line_count() == 0,
            forall|bytes: Seq<u8>| bytes.len() <= usize::MAX ==> m.matches(bytes),
    {
        Metadata {
            num_lines: 0,
            max_num_cols: 0,
            line_to_byte_idx: Vec::new(),
            line_to_num_bytes: Vec::new(),
            line_to_num_cols: Vec::new(),
        }
    }

    /// Creates the shared index for `file`, empty, ready for one builder
    /// task and any number of readers.
    pub fn new(file: &File) -> (r: MetadataPtr)
        ensures
            r.bytes() == file@,
    {
        let _len = file.byte_len();
        let m = Metadata::empty();
        MetadataPtr { lock: RwLock::new(m, Ghost(IndexInv { bytes: file@ })) }
    }

    /// The byte position up to which this index describes the file.
    pub(crate) fn covered_bytes(&self, Ghost(bytes): Ghost<Seq<u8>>) -> (r: usize)
        requires
            self.wf(),
            self.matches(bytes),
        ensures
            r as int == self.covered(),
    {
        if self.num_lines == 0 {
            0
        } else {
            proof {
                lemma_prefix_decomposition(*self, bytes, self.spec_line_count() as int);
            }
            let i = self.num_lines - 1;
            self.line_to_byte_idx[i] + self.line_to_num_bytes[i]
        }
    }

    /// Commits one discovered line: entry fields and both counters move
    /// together, so the index remains a correct prefix index that now also
    /// covers the new line's bytes.
    pub(crate) fn append_line(
        &mut self,
        Ghost(bytes): Ghost<Seq<u8>>,
        start: usize,
        nbytes: usize,
        ncols: usize,
    )
        requires
            old(self).wf(),
            old(self).matches(bytes),
            old(self).covered() == start as int,
            (start as int) < bytes.len(),
            start as int + nbytes as int == line_end(bytes, start as int),
            ncols as nat == cols_of(content_of(seg_of(bytes, start as int))),
        ensures
            final(self).wf(),
            final(self).matches(bytes),
            final(self).spec_line_count() == old(self).spec_line_count() + 1,
            final(self).covered() == start as int + nbytes as int,
            final(self).col_counts() == old(self).col_counts().push(ncols),
            final(self).spec_max_columns() as nat == nat_max(
                old(self).spec_max_columns() as nat,
                ncols as nat,
            ),
    {
        proof {
            lemma_prefix_decomposition(*self, bytes, self.spec_line_count() as int);
        }
        self.line_to_byte_idx.push(start);
        self.line_to_num_bytes.push(nbytes);
        self.line_to_num_cols.push(ncols);
        if ncols > self.max_num_cols {
            self.max_num_cols = ncols;
        }
        self.num_lines = self.num_lines + 1;
        proof {
            let n = self.spec_line_count() as int;
            lemma_max_cols_upto_congruent(*old(self), *self, n - 1);
            assert forall|i: int| 0 <= i < n implies (#[trigger] self.starts()[i]) as int
                == self.covered_upto(i) by {
                if i < n - 1 {
                    assert(old(self).starts()[i] as int == old(self).covered_upto(i));
                }
            }
        }
    }
}

/// A snapshot read of the shared index's line count. The count is the line
/// count of some correct prefix index of the file, so it never exceeds the
/// file's total number of line segments, and every line below it is fully
/// recorded.
pub fn line_count(index: &MetadataPtr) -> (n: usize)
    ensures
        n as nat <= count_lines_from(index.bytes(), 0),
        exists|m: Metadata|
            (#[trigger] m.wf()) && m.matches(index.bytes()) && m.spec_line_count() == n,
{
    let handle = index.lock.acquire_read();
    let m_ref = handle.borrow();
    let n = m_ref.line_count();
    let ghost m = *m_ref;
    proof {
        lemma_prefix_decomposition(m, index.bytes(), m.spec_line_count() as int);
        assert(m.wf() && m.matches(index.bytes()) && m.spec_line_count() == n);
    }
    handle.release_read();
    n
}

/// A snapshot read of the shared index's maximum column count. It never
/// exceeds the maximum column count over all lines of the file.
pub fn max_columns(index: &MetadataPtr) -> (n: usize)
    ensures
        n as nat <= max_cols_from(index.bytes(), 0),
        exists|m: Metadata|
            (#[trigger] m.wf()) && m.matches(index.bytes()) && m.spec_max_columns() == n,
{
    let handle = index.lock.acquire_read();
    let m_ref = handle.borrow();
    let n = m_ref.max_columns();
    let ghost m = *m_ref;
    proof {
        lemma_prefix_decomposition(m, index.bytes(), m.spec_line_count() as int);
        assert(m.wf() && m.matches(index.bytes()) && m.spec_max_columns() == n);
    }
    handle.release_read();
    n
}

} // verus!
