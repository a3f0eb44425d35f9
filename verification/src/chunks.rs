//! Chunks, rows, columns and the matrix they form.

use vstd::prelude::*;
use vstd::slice::{slice_subrange, slice_to_vec};

verus! {

/// Width in bytes of one data chunk. It is one byte short of a scalar-field
/// element, so every chunk stands for a field element without wrapping.
pub const CHUNK_SIZE: usize = 31;

/// Width in bytes of a scalar-field element, least significant byte first.
pub const BYTES_PER_FIELD_ELEMENT: usize = 32;

/// The bytes of one cell of a matrix. A cell of the data is a chunk of
/// `CHUNK_SIZE` bytes; a cell of redundancy holds what the row encoder
/// put there.
#[derive(Debug, PartialEq, Eq)]
pub struct Chunk(pub Vec<u8>);

/// One row of a matrix: its cells from the first column on.
#[derive(Debug, PartialEq, Eq)]
pub struct Row(pub Vec<Chunk>);

/// One column of a matrix: its cells from the first row on.
#[derive(Debug, PartialEq, Eq)]
pub struct Column(pub Vec<Chunk>);

/// Rows of cells, from the first row on.
#[derive(Debug, PartialEq, Eq)]
pub struct ChunksMatrix(pub Vec<Row>);

impl View for Chunk {
    type V = Seq<u8>;

    open spec fn view(&self) -> Seq<u8> {
        self.0@
    }
}

impl View for Row {
    type V = Seq<Seq<u8>>;

    open spec fn view(&self) -> Seq<Seq<u8>> {
        Seq::new(self.0@.len(), |i: int| self.0@[i]@)
    }
}

impl View for Column {
    type V = Seq<Seq<u8>>;

    open spec fn view(&self) -> Seq<Seq<u8>> {
        Seq::new(self.0@.len(), |i: int| self.0@[i]@)
    }
}

impl View for ChunksMatrix {
    type V = Seq<Seq<Seq<u8>>>;

    open spec fn view(&self) -> Seq<Seq<Seq<u8>>> {
        Seq::new(self.0@.len(), |i: int| self.0@[i]@)
    }
}

/// A chunk of `CHUNK_SIZE` zero bytes.
pub open spec fn zero_chunk() -> Seq<u8> {
    Seq::new(CHUNK_SIZE as nat, |i: int| 0u8)
}

/// The cell that holds the field element `element`: its bytes without the
/// most significant one where that is zero, so that the element of a data
/// chunk is held as that chunk.
pub open spec fn cell_of_element(element: Seq<u8>) -> Seq<u8> {
    if element.len() == BYTES_PER_FIELD_ELEMENT && element[CHUNK_SIZE as int] == 0u8 {
        element.subrange(0, CHUNK_SIZE as int)
    } else {
        element
    }
}

/// The field element that a cell holds: a cell of `CHUNK_SIZE` bytes with a
/// zero byte as its most significant, any other cell as it is.
pub open spec fn element_of_cell(cell: Seq<u8>) -> Seq<u8> {
    if cell.len() == CHUNK_SIZE {
        cell.push(0u8)
    } else {
        cell
    }
}

/// A field element that is put into a cell is there to be taken out again,
/// and a data chunk is the cell of the element it stands for.
pub proof fn lemma_cell_holds_element(element: Seq<u8>, chunk: Seq<u8>)
    requires
        element.len() == BYTES_PER_FIELD_ELEMENT,
        chunk.len() == CHUNK_SIZE,
    ensures
        element_of_cell(cell_of_element(element)) == element,
        cell_of_element(element_of_cell(chunk)) == chunk,
{
    assert(element_of_cell(cell_of_element(element)) =~= element);
    assert(cell_of_element(element_of_cell(chunk)) =~= chunk);
}

/// Whether two byte strings hold the same bytes.
pub fn same_bytes(a: &Vec<u8>, b: &Vec<u8>) -> (same: bool)
    ensures
        same == (a@ == b@),
{
    if a.len() != b.len() {
        return false;
    }
    let mut i: usize = 0;
    while i < a.len()
        invariant
            i <= a@.len(),
            a@.len() == b@.len(),
            forall|k: int| 0 <= k < i ==> a@[k] == b@[k],
        decreases a@.len() - i,
    {
        if a[i] != b[i] {
            return false;
        }
        i = i + 1;
    }
    assert(a@ =~= b@);
    true
}

/// Copies a sequence of cells, cell by cell.
fn clone_cells(cells: &Vec<Chunk>) -> (res: Vec<Chunk>)
    ensures
        res@.len() == cells@.len(),
        forall|i: int| 0 <= i < cells@.len() ==> res@[i]@ == cells@[i]@,
{
    let mut res: Vec<Chunk> = Vec::new();
    let mut i: usize = 0;
    while i < cells.len()
        invariant
            i <= cells@.len(),
            res@.len() == i,
            forall|k: int| 0 <= k < i ==> res@[k]@ == cells@[k]@,
        decreases cells@.len() - i,
    {
        res.push(cells[i].clone());
        i = i + 1;
    }
    res
}

impl Clone for Chunk {
    fn clone(&self) -> (res: Self)
        ensures
            res@ == self@,
    {
        let bytes = self.0.clone();
        assert(bytes@ =~= self.0@);
        Chunk(bytes)
    }
}

impl Chunk {
    /// Whether the chunk is `CHUNK_SIZE` zero bytes.
    pub fn is_zero_chunk(&self) -> (zero: bool)
        ensures
            zero == (self@ == zero_chunk()),
    {
        if self.0.len() != CHUNK_SIZE {
            return false;
        }
        let mut i: usize = 0;
        while i < CHUNK_SIZE
            invariant
                i <= CHUNK_SIZE,
                self@.len() == CHUNK_SIZE,
                forall|k: int| 0 <= k < i ==> self@[k] == 0u8,
            decreases CHUNK_SIZE - i,
        {
            if self.0[i] != 0u8 {
                assert(self@[i as int] != zero_chunk()[i as int]);
                return false;
            }
            i = i + 1;
        }
        assert(self@ =~= zero_chunk());
        true
    }

    /// The cell that holds the field element with these bytes.
    pub fn from_field_element(element: &[u8]) -> (cell: Chunk)
        ensures
            cell@ == cell_of_element(element@),
    {
        if element.len() == BYTES_PER_FIELD_ELEMENT && element[CHUNK_SIZE] == 0u8 {
            Chunk(slice_to_vec(slice_subrange(element, 0, CHUNK_SIZE)))
        } else {
            Chunk(slice_to_vec(element))
        }
    }

    /// The bytes of the field element that the cell holds.
    pub fn to_field_element(&self) -> (element: Vec<u8>)
        ensures
            element@ == element_of_cell(self@),
    {
        let mut element = self.0.clone();
        assert(element@ =~= self@);
        if element.len() == CHUNK_SIZE {
            element.push(0u8);
        }
        element
    }
}

impl Clone for Row {
    fn clone(&self) -> (res: Self)
        ensures
            res@ == self@,
    {
        let res = Row(clone_cells(&self.0));
        assert(res@ =~= self@);
        res
    }
}

impl Clone for Column {
    fn clone(&self) -> (res: Self)
        ensures
            res@ == self@,
    {
        let res = Column(clone_cells(&self.0));
        assert(res@ =~= self@);
        res
    }
}

impl Column {
    /// Number of cells in the column.
    pub fn len(&self) -> (n: usize)
        ensures
            n == self@.len(),
    {
        self.0.len()
    }
}

impl Clone for ChunksMatrix {
    fn clone(&self) -> (res: Self)
        ensures
            res@ == self@,
    {
        let mut rows: Vec<Row> = Vec::new();
        let mut i: usize = 0;
        while i < self.0.len()
            invariant
                i <= self.0@.len(),
                rows@.len() == i,
                forall|k: int| 0 <= k < i ==> rows@[k]@ == self.0@[k]@,
            decreases self.0@.len() - i,
        {
            rows.push(self.0[i].clone());
            i = i + 1;
        }
        let res = ChunksMatrix(rows);
        assert(res@ =~= self@);
        res
    }
}

impl ChunksMatrix {
    /// Number of rows in the matrix.
    pub fn len(&self) -> (n: usize)
        ensures
            n == self@.len(),
    {
        self.0.len()
    }
}

} // verus!
