//! Partition of a padded blob into rows of chunks.

use vstd::prelude::*;
use crate::chunks::{Chunk, ChunksMatrix, Row, CHUNK_SIZE};

verus! {

/// Number of whole chunks in `len` bytes.
pub open spec fn chunk_count(len: nat) -> nat {
    len / (CHUNK_SIZE as nat)
}

/// Number of rows that `len` bytes fill, at `per_row` chunks a row:
/// `len` over the bytes of a full row, rounded up.
pub open spec fn row_count(len: nat, per_row: nat) -> nat {
    ((len + per_row * CHUNK_SIZE - 1) / (per_row * CHUNK_SIZE) as int) as nat
}

/// Number of chunks in row `row`: `per_row`, but for a last row that the
/// data does not fill.
pub open spec fn row_width(len: nat, per_row: nat, row: int) -> nat {
    let left = chunk_count(len) - row * per_row;
    if left >= per_row {
        per_row
    } else if left >= 0 {
        left as nat
    } else {
        0
    }
}

/// The `k`-th chunk of `data`.
pub open spec fn chunk_at(data: Seq<u8>, k: int) -> Seq<u8> {
    data.subrange(k * CHUNK_SIZE, k * CHUNK_SIZE + CHUNK_SIZE)
}

/// Row `row` of the partition of `data`.
pub open spec fn row_at(data: Seq<u8>, per_row: nat, row: int) -> Seq<Seq<u8>> {
    Seq::new(row_width(data.len(), per_row, row), |c: int| chunk_at(data, row * per_row + c))
}

/// The partition of `data` into rows of `per_row` consecutive chunks. Only
/// the last row may be short.
pub open spec fn chunked(data: Seq<u8>, per_row: nat) -> Seq<Seq<Seq<u8>>> {
    Seq::new(row_count(data.len(), per_row), |r: int| row_at(data, per_row, r))
}

/// The row count is the number of rows that hold a chunk: `rows` is it
/// exactly when the rows before the last are full and the last is not empty.
pub proof fn lemma_row_count(len: nat, per_row: nat, rows: nat)
    requires
        per_row > 0,
        len % (CHUNK_SIZE as nat) == 0,
        rows > 0 ==> (rows - 1) * per_row < chunk_count(len),
        chunk_count(len) <= rows * per_row,
    ensures
        rows == row_count(len, per_row),
{
    let total = chunk_count(len) as int;
    let width = (per_row * CHUNK_SIZE) as int;
    assert(len == total * 31);
    assert(len + width - 1 >= rows * width - width + 1 + width - 1 || rows == 0) by (nonlinear_arith)
        requires
            len == total * 31,
            width == per_row * 31,
            rows > 0 ==> (rows - 1) * per_row < total,
    ;
    assert(len + width - 1 < rows * width + width) by (nonlinear_arith)
        requires
            len == total * 31,
            width == per_row * 31,
            per_row > 0,
            total <= rows * per_row,
    ;
    if rows == 0 {
        assert(total == 0) by (nonlinear_arith)
            requires
                total <= rows * per_row,
                rows == 0,
                total >= 0,
        ;
        assert((len + width - 1) / width == 0) by (nonlinear_arith)
            requires
                len == 0,
                width > 0,
        ;
    } else {
        assert((len + width - 1) / width == rows) by (nonlinear_arith)
            requires
                width > 0,
                rows * width <= len + width - 1 < rows * width + width,
        ;
    }
}

/// Every chunk of the data lies in exactly one row: the widths of the rows
/// before `row` add up to `row * per_row`, and no row is wider than `per_row`.
pub proof fn lemma_row_width(len: nat, per_row: nat, row: int)
    requires
        per_row > 0,
        len % (CHUNK_SIZE as nat) == 0,
        0 <= row < row_count(len, per_row),
    ensures
        0 < row_width(len, per_row, row) <= per_row,
        row * per_row + row_width(len, per_row, row) <= chunk_count(len),
        row + 1 < row_count(len, per_row) ==> row_width(len, per_row, row) == per_row,
        row + 1 == row_count(len, per_row) ==> row * per_row + row_width(len, per_row, row)
            == chunk_count(len),
{
    let total = chunk_count(len) as int;
    let width = (per_row * CHUNK_SIZE) as int;
    let rows = row_count(len, per_row) as int;
    assert(len == total * 31);
    assert(rows * width <= len + width - 1 < rows * width + width) by (nonlinear_arith)
        requires
            width > 0,
            rows == (len + width - 1) / width,
    ;
    assert((rows - 1) * per_row < total && total <= rows * per_row) by (nonlinear_arith)
        requires
            rows * width <= len + width - 1 < rows * width + width,
            len == total * 31,
            width == per_row * 31,
            per_row > 0,
    ;
    assert(row * per_row <= (rows - 1) * per_row) by (nonlinear_arith)
        requires
            row <= rows - 1,
            per_row > 0,
    ;
    if row + 1 < rows {
        assert((row + 1) * per_row <= (rows - 1) * per_row) by (nonlinear_arith)
            requires
                row + 1 <= rows - 1,
                per_row > 0,
        ;
        assert((row + 1) * per_row == row * per_row + per_row) by (nonlinear_arith);
    } else {
        assert(rows * per_row == row * per_row + per_row) by (nonlinear_arith)
            requires
                rows == row + 1,
        ;
    }
}

/// Copies the `index`-th chunk out of `data`.
fn copy_chunk(data: &[u8], index: usize) -> (chunk: Chunk)
    requires
        index < chunk_count(data@.len()),
    ensures
        chunk@ == chunk_at(data@, index as int),
{
    let mut bytes: Vec<u8> = Vec::new();
    let len = data.len();
    assert(index * CHUNK_SIZE + CHUNK_SIZE <= len) by {
        let total = chunk_count(data@.len());
        assert(total * 31 <= data@.len());
    }
    let first: usize = index * CHUNK_SIZE;
    let mut i: usize = 0;
    while i < CHUNK_SIZE
        invariant
            i <= CHUNK_SIZE,
            first == index * CHUNK_SIZE,
            first + CHUNK_SIZE <= len,
            len == data@.len(),
            bytes@ == data@.subrange(first as int, first + i),
        decreases CHUNK_SIZE - i,
    {
        bytes.push(data[first + i]);
        i = i + 1;
        assert(bytes@ =~= data@.subrange(first as int, first + i));
    }
    Chunk(bytes)
}

/// Groups the chunks of `data` into rows of `columns / 2` chunks. The last
/// row holds what is left and is not filled up.
pub fn chunkify(data: &[u8], columns: usize) -> (matrix: ChunksMatrix)
    requires
        columns >= 2,
        columns % 2 == 0,
        data@.len() % (CHUNK_SIZE as nat) == 0,
    ensures
        matrix@ == chunked(data@, (columns / 2) as nat),
{
    let per_row: usize = columns / 2;
    let total: usize = data.len() / CHUNK_SIZE;
    let mut rows: Vec<Row> = Vec::new();
    let mut start: usize = 0;
    assert(0 * per_row == 0);
    while start < total
        invariant
            per_row >= 1,
            total == chunk_count(data@.len()),
            data@.len() % (CHUNK_SIZE as nat) == 0,
            start <= total,
            start < total ==> start == rows@.len() * per_row,
            rows@.len() > 0 ==> (rows@.len() - 1) * per_row < total,
            start == total ==> total <= rows@.len() * per_row,
            forall|r: int| 0 <= r < rows@.len() ==> (#[trigger] rows@[r])@ == row_at(data@, per_row as nat, r),
        decreases total - start,
    {
        let ghost r = rows@.len() as int;
        let width: usize = if total - start >= per_row { per_row } else { total - start };
        assert(width == row_width(data@.len(), per_row as nat, r));
        let mut cells: Vec<Chunk> = Vec::new();
        let mut c: usize = 0;
        while c < width
            invariant
                c <= width,
                start + width <= total,
                total == chunk_count(data@.len()),
                cells@.len() == c,
                forall|k: int| 0 <= k < c ==> (#[trigger] cells@[k])@ == chunk_at(data@, start + k),
            decreases width - c,
        {
            cells.push(copy_chunk(data, start + c));
            c = c + 1;
        }
        let row = Row(cells);
        assert(row@ =~= row_at(data@, per_row as nat, r));
        rows.push(row);
        proof {
            assert((r + 1) * per_row == r * per_row + per_row) by (nonlinear_arith);
        }
        start = start + width;
    }
    proof {
        if total == 0 {
            assert(rows@.len() == 0);
        }
        lemma_row_count(data@.len(), per_row as nat, rows@.len());
    }
    let matrix = ChunksMatrix(rows);
    assert(matrix@ =~= chunked(data@, per_row as nat));
    matrix
}

} // verus!
