//! Bag-of-cells containers: the content-addressable reference graphs in which
//! state objects travel between layers and into the storage nodes.
//!
//! A container holds an ordered list of data cells, a list of references
//! between cells, and an ordered list of root cells. Its content address is
//! the digest of a canonical byte framing defined here.

use vstd::prelude::*;

use crate::errors::SystemError;
use crate::hashing::{sha256, sha256_of};
use crate::util::{copy_bytes, extend_from_slice};
use vstd::bytes::{spec_u64_to_le_bytes, u64_to_le_bytes};

verus! {

/// An ordered bag of cells with references and designated roots.
///
/// Cells are identified by their index in insertion order; references and
/// roots always point at existing cells.
pub struct Boc {
    cells: Vec<Vec<u8>>,
    references: Vec<(usize, usize)>,
    roots: Vec<usize>,
}

/// The mathematical image of a container.
pub struct BocView {
    pub cells: Seq<Seq<u8>>,
    pub references: Seq<(usize, usize)>,
    pub roots: Seq<usize>,
}

impl View for Boc {
    type V = BocView;

    open spec fn view(&self) -> BocView {
        BocView {
            cells: self.cells_view(),
            references: self.references_view(),
            roots: self.roots_view(),
        }
    }
}

impl Boc {
    /// Well-formed: every reference endpoint and every root is an existing cell.
    pub closed spec fn wf(&self) -> bool {
        &&& forall|i: int|
            0 <= i < self.references@.len() ==> (#[trigger] self.references@[i]).0
                < self.cells@.len() && self.references@[i].1 < self.cells@.len()
        &&& forall|i: int|
            0 <= i < self.roots@.len() ==> (#[trigger] self.roots@[i]) < self.cells@.len()
    }

    /// The cell data, in insertion order.
    pub closed spec fn cells_view(&self) -> Seq<Seq<u8>> {
        self.cells@.map_values(|c: Vec<u8>| c@)
    }

    /// The references, in insertion order.
    pub closed spec fn references_view(&self) -> Seq<(usize, usize)> {
        self.references@
    }

    /// The root cell indices, in insertion order.
    pub closed spec fn roots_view(&self) -> Seq<usize> {
        self.roots@
    }

    /// Creates an empty container.
    pub fn new() -> (r: Self)
        ensures
            r.wf(),
            r.cells_view() == Seq::<Seq<u8>>::empty(),
            r.references_view() == Seq::<(usize, usize)>::empty(),
            r.roots_view() == Seq::<usize>::empty(),
    {
        let r = Boc { cells: Vec::new(), references: Vec::new(), roots: Vec::new() };
        proof {
            assert(r.cells_view() =~= Seq::<Seq<u8>>::empty());
        }
        r
    }

    /// Adds a cell and returns its identifier.
    pub fn add_cell(&mut self, data: Vec<u8>) -> (r: usize)
        requires
            old(self).wf(),
        ensures
            final(self).wf(),
            r == old(self).cells_view().len(),
            final(self).cells_view() == old(self).cells_view().push(data@),
            final(self).references_view() == old(self).references_view(),
            final(self).roots_view() == old(self).roots_view(),
    {
        let id = self.cells.len();
        self.cells.push(data);
        proof {
            assert(self.cells_view() =~= old(self).cells_view().push(data@));
        }
        id
    }

    /// Records a reference from one cell to another; rejected when either
    /// endpoint does not exist.
    pub fn add_reference(&mut self, from: usize, to: usize) -> (r: Result<(), SystemError>)
        requires
            old(self).wf(),
        ensures
            final(self).wf(),
            r is Ok <==> (from < old(self).cells_view().len() && to < old(self).cells_view().len()),
            r is Err ==> r == Err::<(), SystemError>(SystemError::DataConversionError) && *final(self) == *old(self),
            r is Ok ==> final(self).references_view() == old(self).references_view().push(
                (from, to),
            ) && final(self).cells_view() == old(self).cells_view() && final(self).roots_view()
                == old(self).roots_view(),
    {
        if from < self.cells.len() && to < self.cells.len() {
            self.references.push((from, to));
            Ok(())
        } else {
            Err(SystemError::DataConversionError)
        }
    }

    /// Marks an existing cell as a root cell.
    pub fn add_root(&mut self, cell: usize) -> (r: Result<(), SystemError>)
        requires
            old(self).wf(),
        ensures
            final(self).wf(),
            r is Ok <==> cell < old(self).cells_view().len(),
            r is Err ==> r == Err::<(), SystemError>(SystemError::DataConversionError) && *final(self) == *old(self),
            r is Ok ==> final(self).roots_view() == old(self).roots_view().push(cell) && final(self).cells_view() == old(self).cells_view() && final(self).references_view() == old(self).references_view(),
    {
        if cell < self.cells.len() {
            self.roots.push(cell);
            Ok(())
        } else {
            Err(SystemError::DataConversionError)
        }
    }

    /// Number of cells held.
    pub fn cell_count(&self) -> (r: usize)
        ensures
            r == self.cells_view().len(),
    {
        self.cells.len()
    }

    /// Number of root cells.
    pub fn root_count(&self) -> (r: usize)
        ensures
            r == self.roots_view().len(),
    {
        self.roots.len()
    }

    /// The data of the `i`-th root cell; absent when there is no such root.
    pub fn root_cell_data(&self, i: usize) -> (r: Result<Vec<u8>, SystemError>)
        requires
            self.wf(),
        ensures
            r is Ok <==> i < self.roots_view().len(),
            r matches Ok(d) ==> d@ == self.cells_view()[self.roots_view()[i as int] as int],
            r is Err ==> r == Err::<Vec<u8>, SystemError>(SystemError::NotFound),
    {
        if i < self.roots.len() {
            let idx = self.roots[i];
            Ok(copy_bytes(self.cells[idx].as_slice()))
        } else {
            Err(SystemError::NotFound)
        }
    }

    /// Total number of data bytes held in cells.
    pub open spec fn total_cell_bytes(&self) -> int {
        cells_bytes(self.cells_view())
    }

    /// The length of the `i`-th cell's data.
    pub fn cell_len(&self, i: usize) -> (r: usize)
        requires
            i < self.cells_view().len(),
        ensures
            r == self.cells_view()[i as int].len(),
    {
        self.cells[i].len()
    }

    /// The canonical byte framing of this container.
    pub open spec fn encoding(&self) -> Seq<u8> {
        spec_u64_to_le_bytes(self.cells_view().len() as u64) + encode_cells_spec(self.cells_view())
            + spec_u64_to_le_bytes(self.references_view().len() as u64) + encode_refs_spec(
            self.references_view(),
        ) + spec_u64_to_le_bytes(self.roots_view().len() as u64) + encode_roots_spec(
            self.roots_view(),
        )
    }

    /// The content address of this container: the digest of its framing.
    pub open spec fn content_hash_spec(&self) -> Seq<u8> {
        sha256_of(self.encoding())
    }

    /// Frames the container as bytes.
    pub fn encode(&self) -> (r: Vec<u8>)
        ensures
            r@ == self.encoding(),
    {
        let mut out: Vec<u8> = Vec::new();
        let len_bytes = u64_to_le_bytes(self.cells.len() as u64);
        extend_from_slice(&mut out, len_bytes.as_slice());
        let mut i: usize = 0;
        while i < self.cells.len()
            invariant
                i <= self.cells@.len(),
                out@ == spec_u64_to_le_bytes(self.cells_view().len() as u64) + encode_cells_spec(
                    self.cells_view().subrange(0, i as int),
                ),
            decreases self.cells@.len() - i,
        {
            let cell_len = u64_to_le_bytes(self.cells[i].len() as u64);
            extend_from_slice(&mut out, cell_len.as_slice());
            extend_from_slice(&mut out, self.cells[i].as_slice());
            proof {
                lemma_encode_cells_push(self.cells_view().subrange(0, i as int), self.cells_view()[i as int]);
                assert(self.cells_view().subrange(0, i + 1 as int) =~= self.cells_view().subrange(
                    0,
                    i as int,
                ).push(self.cells_view()[i as int]));
            }
            i = i + 1;
        }
        proof {
            assert(self.cells_view().subrange(0, self.cells_view().len() as int) =~= self.cells_view());
        }
        let refs_len = u64_to_le_bytes(self.references.len() as u64);
        extend_from_slice(&mut out, refs_len.as_slice());
        let mut j: usize = 0;
        while j < self.references.len()
            invariant
                j <= self.references@.len(),
                out@ == spec_u64_to_le_bytes(self.cells_view().len() as u64) + encode_cells_spec(
                    self.cells_view(),
                ) + spec_u64_to_le_bytes(self.references_view().len() as u64) + encode_refs_spec(
                    self.references_view().subrange(0, j as int),
                ),
            decreases self.references@.len() - j,
        {
            let (f, t) = self.references[j];
            let fb = u64_to_le_bytes(f as u64);
            extend_from_slice(&mut out, fb.as_slice());
            let tb = u64_to_le_bytes(t as u64);
            extend_from_slice(&mut out, tb.as_slice());
            proof {
                lemma_encode_refs_push(
                    self.references_view().subrange(0, j as int),
                    self.references_view()[j as int],
                );
                assert(self.references_view().subrange(0, j + 1 as int)
                    =~= self.references_view().subrange(0, j as int).push(
                    self.references_view()[j as int],
                ));
            }
            j = j + 1;
        }
        proof {
            assert(self.references_view().subrange(0, self.references_view().len() as int)
                =~= self.references_view());
        }
        let roots_len = u64_to_le_bytes(self.roots.len() as u64);
        extend_from_slice(&mut out, roots_len.as_slice());
        let mut k: usize = 0;
        while k < self.roots.len()
            invariant
                k <= self.roots@.len(),
                out@ == spec_u64_to_le_bytes(self.cells_view().len() as u64) + encode_cells_spec(
                    self.cells_view(),
                ) + spec_u64_to_le_bytes(self.references_view().len() as u64) + encode_refs_spec(
                    self.references_view(),
                ) + spec_u64_to_le_bytes(self.roots_view().len() as u64) + encode_roots_spec(
                    self.roots_view().subrange(0, k as int),
                ),
            decreases self.roots@.len() - k,
        {
            let rb = u64_to_le_bytes(self.roots[k] as u64);
            extend_from_slice(&mut out, rb.as_slice());
            proof {
                lemma_encode_roots_push(
                    self.roots_view().subrange(0, k as int),
                    self.roots_view()[k as int],
                );
                assert(self.roots_view().subrange(0, k + 1 as int) =~= self.roots_view().subrange(
                    0,
                    k as int,
                ).push(self.roots_view()[k as int]));
            }
            k = k + 1;
        }
        proof {
            assert(self.roots_view().subrange(0, self.roots_view().len() as int)
                =~= self.roots_view());
        }
        out
    }

    /// Computes the content address of this container.
    pub fn content_hash(&self) -> (r: [u8; 32])
        ensures
            r@ == self.content_hash_spec(),
    {
        let enc = self.encode();
        sha256(enc.as_slice())
    }

    /// Copies the container.
    pub fn clone_boc(&self) -> (r: Boc)
        ensures
            r@ == self@,
            self.wf() ==> r.wf(),
    {
        let mut cells: Vec<Vec<u8>> = Vec::new();
        let mut i: usize = 0;
        while i < self.cells.len()
            invariant
                i <= self.cells@.len(),
                cells@.len() == i,
                forall|j: int| 0 <= j < i ==> (#[trigger] cells@[j])@ == self.cells@[j]@,
            decreases self.cells@.len() - i,
        {
            cells.push(copy_bytes(self.cells[i].as_slice()));
            i = i + 1;
        }
        let mut references: Vec<(usize, usize)> = Vec::new();
        let mut j: usize = 0;
        while j < self.references.len()
            invariant
                j <= self.references@.len(),
                references@ == self.references@.subrange(0, j as int),
            decreases self.references@.len() - j,
        {
            references.push(self.references[j]);
            proof {
                assert(references@ =~= self.references@.subrange(0, j + 1 as int));
            }
            j = j + 1;
        }
        let mut roots: Vec<usize> = Vec::new();
        let mut k: usize = 0;
        while k < self.roots.len()
            invariant
                k <= self.roots@.len(),
                roots@ == self.roots@.subrange(0, k as int),
            decreases self.roots@.len() - k,
        {
            roots.push(self.roots[k]);
            proof {
                assert(roots@ =~= self.roots@.subrange(0, k + 1 as int));
            }
            k = k + 1;
        }
        let r = Boc { cells, references, roots };
        proof {
            assert(self.references@.subrange(0, self.references@.len() as int)
                =~= self.references@);
            assert(self.roots@.subrange(0, self.roots@.len() as int) =~= self.roots@);
            assert(r.cells_view() =~= self.cells_view());
        }
        r
    }
}

/// Total bytes held by a sequence of cells.
pub open spec fn cells_bytes(cells: Seq<Seq<u8>>) -> int
    decreases cells.len(),
{
    if cells.len() == 0 {
        0
    } else {
        cells_bytes(cells.drop_last()) + cells.last().len()
    }
}

/// Cell byte totals are never negative.
pub proof fn lemma_cells_bytes_nonneg(cells: Seq<Seq<u8>>)
    ensures
        cells_bytes(cells) >= 0,
    decreases cells.len(),
{
    if cells.len() > 0 {
        lemma_cells_bytes_nonneg(cells.drop_last());
    }
}

/// Cell byte totals add over concatenation.
pub proof fn lemma_cells_bytes_add(a: Seq<Seq<u8>>, b: Seq<Seq<u8>>)
    ensures
        cells_bytes(a + b) == cells_bytes(a) + cells_bytes(b),
    decreases b.len(),
{
    if b.len() == 0 {
        assert(a + b =~= a);
    } else {
        lemma_cells_bytes_add(a, b.drop_last());
        assert((a + b).drop_last() =~= a + b.drop_last());
        assert((a + b).last() == b.last());
    }
}

/// Framing of the cell list: each cell as its length then its bytes.
pub open spec fn encode_cells_spec(cells: Seq<Seq<u8>>) -> Seq<u8>
    decreases cells.len(),
{
    if cells.len() == 0 {
        Seq::empty()
    } else {
        encode_cells_spec(cells.drop_last()) + spec_u64_to_le_bytes(cells.last().len() as u64)
            + cells.last()
    }
}

/// Framing of the reference list: each endpoint as eight bytes.
pub open spec fn encode_refs_spec(refs: Seq<(usize, usize)>) -> Seq<u8>
    decreases refs.len(),
{
    if refs.len() == 0 {
        Seq::empty()
    } else {
        encode_refs_spec(refs.drop_last()) + spec_u64_to_le_bytes(refs.last().0 as u64)
            + spec_u64_to_le_bytes(refs.last().1 as u64)
    }
}

/// Framing of the root list: each root index as eight bytes.
pub open spec fn encode_roots_spec(roots: Seq<usize>) -> Seq<u8>
    decreases roots.len(),
{
    if roots.len() == 0 {
        Seq::empty()
    } else {
        encode_roots_spec(roots.drop_last()) + spec_u64_to_le_bytes(roots.last() as u64)
    }
}

proof fn lemma_encode_cells_push(cells: Seq<Seq<u8>>, c: Seq<u8>)
    ensures
        encode_cells_spec(cells.push(c)) == encode_cells_spec(cells) + spec_u64_to_le_bytes(
            c.len() as u64,
        ) + c,
{
    assert(cells.push(c).drop_last() =~= cells);
    assert(cells.push(c).last() == c);
}

proof fn lemma_encode_refs_push(refs: Seq<(usize, usize)>, e: (usize, usize))
    ensures
        encode_refs_spec(refs.push(e)) == encode_refs_spec(refs) + spec_u64_to_le_bytes(e.0 as u64)
            + spec_u64_to_le_bytes(e.1 as u64),
{
    assert(refs.push(e).drop_last() =~= refs);
    assert(refs.push(e).last() == e);
}

proof fn lemma_encode_roots_push(roots: Seq<usize>, e: usize)
    ensures
        encode_roots_spec(roots.push(e)) == encode_roots_spec(roots) + spec_u64_to_le_bytes(
            e as u64,
        ),
{
    assert(roots.push(e).drop_last() =~= roots);
    assert(roots.push(e).last() == e);
}

} // verus!
