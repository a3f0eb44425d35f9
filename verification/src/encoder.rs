//! The encoder: from a blob and its extended rows to the encoded data.

use vstd::prelude::*;
use crate::chunker::{chunked, chunkify, row_count};
use crate::chunks::{same_bytes, zero_chunk, Chunk, ChunksMatrix, Column, Row, BYTES_PER_FIELD_ELEMENT, CHUNK_SIZE};
use crate::error::DaError;
use crate::padding::{blob_error, lemma_padded_len, padded, prepare, PaddingMode};
use crate::share::{clone_commitments, commitments_view, proofs_view, Commitment, DaShare, DaShareView, Proof, ShareIndex};
use crate::status::NomosDaResult;

verus! {

/// The largest column count: every column's index fits a `ShareIndex`.
pub const MAX_COLUMN_COUNT: usize = 65536;

/// Whether an encoder can work with `columns` columns: an even number, at
/// least two, each with an index of its own.
pub open spec fn valid_column_count(columns: nat) -> bool {
    &&& columns >= 2
    &&& columns % 2 == 0
    &&& columns <= MAX_COLUMN_COUNT
}

/// What an encoder is made with.
#[derive(Debug, Clone, Copy, PartialEq, Eq, Structural)]
pub struct DaEncoderParams {
    pub column_count: usize,
    pub padding: PaddingMode,
}

impl DaEncoderParams {
    /// The largest number of bytes of a blob that one field element carries.
    pub const MAX_BLS12_381_ENCODING_CHUNK_SIZE: usize = CHUNK_SIZE;

    /// Parameters for `column_count` columns and the given treatment of
    /// blobs that are not whole chunks.
    pub fn new(column_count: usize, padding: PaddingMode) -> (params: Self)
        ensures
            params.column_count == column_count,
            params.padding == padding,
    {
        DaEncoderParams { column_count, padding }
    }

    /// Parameters for `column_count` columns, for blobs of whole chunks.
    pub fn default_with(column_count: usize) -> (params: Self)
        ensures
            params.column_count == column_count,
            params.padding == PaddingMode::Aligned,
    {
        DaEncoderParams { column_count, padding: PaddingMode::Aligned }
    }
}

/// The cell that stands in column `c` of the data half of an extended row:
/// the row's chunk, or a zero chunk where the row is short.
pub open spec fn systematic_cell(row: Seq<Seq<u8>>, c: int) -> Seq<u8> {
    if c < row.len() {
        row[c]
    } else {
        zero_chunk()
    }
}

/// Whether `cell` has the width of a cell of extended data: that of a data
/// chunk, or that of a field element which needs all its bytes.
pub open spec fn is_cell(cell: Seq<u8>) -> bool {
    cell.len() == CHUNK_SIZE || cell.len() == BYTES_PER_FIELD_ELEMENT
}

/// Whether `extended` is, row by row, `columns` cells wide with the chunks
/// of `rows` in its first `columns / 2` columns, and every cell of it has
/// the width of a cell.
pub open spec fn extends(extended: Seq<Seq<Seq<u8>>>, rows: Seq<Seq<Seq<u8>>>, columns: nat) -> bool {
    &&& extended.len() == rows.len()
    &&& forall|r: int| 0 <= r < extended.len() ==> (#[trigger] extended[r]).len() == columns
    &&& forall|r: int, c: int|
        0 <= r < extended.len() && 0 <= c < columns / 2 ==> #[trigger] extended[r][c]
            == systematic_cell(rows[r], c)
    &&& forall|r: int, c: int|
        0 <= r < extended.len() && 0 <= c < columns ==> #[trigger] is_cell(extended[r][c])
}

/// What the commitment engine and the row encoder hand back for a blob.
#[derive(Debug, PartialEq, Eq)]
pub struct EncodedRows {
    pub extended_data: ChunksMatrix,
    pub row_commitments: Vec<Commitment>,
    pub combined_column_proofs: Vec<Proof>,
}

/// What an `EncodedRows` holds.
pub struct EncodedRowsView {
    pub extended_data: Seq<Seq<Seq<u8>>>,
    pub row_commitments: Seq<Seq<u8>>,
    pub combined_column_proofs: Seq<Seq<u8>>,
}

impl View for EncodedRows {
    type V = EncodedRowsView;

    open spec fn view(&self) -> EncodedRowsView {
        EncodedRowsView {
            extended_data: self.extended_data@,
            row_commitments: commitments_view(self.row_commitments@),
            combined_column_proofs: proofs_view(self.combined_column_proofs@),
        }
    }
}

impl EncodedRowsView {
    /// Whether these rows, commitments and proofs belong to `data` laid out
    /// in `columns` columns: the rows extend the chunked data, every cell
    /// is 31 or 32 bytes, and there is one commitment for each row and one
    /// proof for each column.
    pub open spec fn fits(self, data: Seq<u8>, columns: nat) -> bool {
        &&& extends(self.extended_data, chunked(data, columns / 2), columns)
        &&& self.row_commitments.len() == row_count(data.len(), columns / 2)
        &&& self.combined_column_proofs.len() == columns
    }
}

/// What an `EncodedData` holds.
pub struct EncodedDataView {
    pub data: Seq<u8>,
    pub chunked_data: Seq<Seq<Seq<u8>>>,
    pub extended_data: Seq<Seq<Seq<u8>>>,
    pub row_commitments: Seq<Seq<u8>>,
    pub combined_column_proofs: Seq<Seq<u8>>,
}

impl EncodedDataView {
    /// Number of columns, and so of shares.
    pub open spec fn columns(self) -> nat {
        self.combined_column_proofs.len()
    }

    /// Number of rows.
    pub open spec fn rows(self) -> nat {
        self.chunked_data.len()
    }

    /// What every encoded data satisfies: the data is whole chunks and not
    /// empty, the chunked data is its partition, the extended rows are all
    /// `columns` wide, begin with the chunked rows and hold cells of 31 or
    /// 32 bytes, and there is one commitment for each row and one proof for
    /// each column.
    pub open spec fn wf(self) -> bool {
        &&& valid_column_count(self.columns())
        &&& self.data.len() > 0
        &&& self.data.len() % (CHUNK_SIZE as nat) == 0
        &&& self.chunked_data == chunked(self.data, self.columns() / 2)
        &&& extends(self.extended_data, self.chunked_data, self.columns())
        &&& self.row_commitments.len() == self.chunked_data.len()
    }

    /// The share of column `index`: that column's cell of every row, the
    /// column's proof, and the commitments of all rows.
    pub open spec fn share(self, index: int) -> DaShareView {
        DaShareView {
            column: Seq::new(self.extended_data.len(), |r: int| self.extended_data[r][index]),
            share_idx: index as ShareIndex,
            combined_column_proof: self.combined_column_proofs[index],
            rows_commitments: self.row_commitments,
        }
    }
}

/// The result of encoding one blob. It is made by `DaEncoder::encode` only
/// and never changes.
#[derive(Debug, PartialEq, Eq)]
pub struct EncodedData {
    data: Vec<u8>,
    chunked_data: ChunksMatrix,
    extended_data: ChunksMatrix,
    row_commitments: Vec<Commitment>,
    combined_column_proofs: Vec<Proof>,
}

impl View for EncodedData {
    type V = EncodedDataView;

    closed spec fn view(&self) -> EncodedDataView {
        EncodedDataView {
            data: self.data@,
            chunked_data: self.chunked_data@,
            extended_data: self.extended_data@,
            row_commitments: commitments_view(self.row_commitments@),
            combined_column_proofs: proofs_view(self.combined_column_proofs@),
        }
    }
}

/// An encoder for a fixed number of columns.
#[derive(Debug, Clone, Copy, PartialEq, Eq, Structural)]
pub struct DaEncoder {
    pub params: DaEncoderParams,
}

/// The encoded data of `blob` under `params`, with the rows, commitments
/// and proofs that were computed for it.
pub open spec fn encoding_of(params: DaEncoderParams, blob: Seq<u8>, rows: EncodedRowsView) -> EncodedDataView {
    EncodedDataView {
        data: padded(blob),
        chunked_data: chunked(padded(blob), (params.column_count / 2) as nat),
        extended_data: rows.extended_data,
        row_commitments: rows.row_commitments,
        combined_column_proofs: rows.combined_column_proofs,
    }
}

/// Encodings of the same data in the same number of columns have the same
/// rows of chunks, the same data columns in their extended rows, and as
/// many commitments.
pub proof fn lemma_encoding_determined(a: EncodedDataView, b: EncodedDataView)
    requires
        a.wf(),
        b.wf(),
        a.data == b.data,
        a.columns() == b.columns(),
    ensures
        a.chunked_data == b.chunked_data,
        a.extended_data.len() == b.extended_data.len(),
        forall|r: int, c: int|
            0 <= r < a.extended_data.len() && 0 <= c < a.columns() / 2 ==> #[trigger] a.extended_data[r][c]
                == b.extended_data[r][c],
        a.row_commitments.len() == b.row_commitments.len(),
{
    assert forall|r: int, c: int|
        0 <= r < a.extended_data.len() && 0 <= c < a.columns() / 2 implies #[trigger] a.extended_data[r][c]
        == b.extended_data[r][c] by {
        assert(a.extended_data[r][c] == systematic_cell(a.chunked_data[r], c));
        assert(b.extended_data[r][c] == systematic_cell(b.chunked_data[r], c));
    }
}

/// The failure that encoding `blob` with `rows` meets under `params`, if any.
pub open spec fn encode_error(params: DaEncoderParams, blob: Seq<u8>, rows: EncodedRowsView) -> Option<DaError> {
    if blob_error(params.padding, blob.len()) is Some {
        blob_error(params.padding, blob.len())
    } else if !valid_column_count(params.column_count as nat) {
        Some(DaError::InvalidColumnCount { column_count: params.column_count })
    } else if !rows.fits(padded(blob), params.column_count as nat) {
        Some(DaError::InconsistentEncoding { data_len: blob.len() as usize })
    } else {
        None
    }
}

/// Whether `extended` is `columns` wide, begins with the chunks of `row`,
/// zero chunks standing where `row` is short, and holds cells only.
fn row_extends(extended: &Row, row: &Row, columns: usize) -> (ok: bool)
    ensures
        ok == {
            &&& extended@.len() == columns
            &&& forall|c: int|
                0 <= c < columns / 2 ==> #[trigger] extended@[c] == systematic_cell(row@, c)
            &&& forall|c: int| 0 <= c < columns ==> #[trigger] is_cell(extended@[c])
        },
{
    if extended.0.len() != columns {
        return false;
    }
    let per_row: usize = columns / 2;
    let mut c: usize = 0;
    while c < columns
        invariant
            c <= columns,
            per_row == columns / 2,
            extended@.len() == columns,
            forall|k: int|
                0 <= k < c && k < per_row ==> #[trigger] extended@[k] == systematic_cell(row@, k),
            forall|k: int| 0 <= k < c ==> #[trigger] is_cell(extended@[k]),
        decreases columns - c,
    {
        let cell = &extended.0[c];
        let width = cell.0.len();
        if width != CHUNK_SIZE && width != BYTES_PER_FIELD_ELEMENT {
            assert(!is_cell(extended@[c as int]));
            return false;
        }
        if c < per_row {
            let same = if c < row.0.len() {
                same_bytes(&cell.0, &row.0[c].0)
            } else {
                cell.is_zero_chunk()
            };
            if !same {
                assert(extended@[c as int] != systematic_cell(row@, c as int));
                return false;
            }
        }
        c = c + 1;
    }
    true
}

/// Whether `extended` extends `rows` to `columns` columns.
fn rows_extend(extended: &ChunksMatrix, rows: &ChunksMatrix, columns: usize) -> (ok: bool)
    ensures
        ok == extends(extended@, rows@, columns as nat),
{
    if extended.0.len() != rows.0.len() {
        return false;
    }
    let mut r: usize = 0;
    while r < extended.0.len()
        invariant
            r <= extended@.len(),
            extended@.len() == rows@.len(),
            forall|k: int| 0 <= k < r ==> (#[trigger] extended@[k]).len() == columns,
            forall|k: int, c: int|
                0 <= k < r && 0 <= c < columns / 2 ==> #[trigger] extended@[k][c]
                    == systematic_cell(rows@[k], c),
            forall|k: int, c: int|
                0 <= k < r && 0 <= c < columns ==> #[trigger] is_cell(extended@[k][c]),
        decreases extended@.len() - r,
    {
        if !row_extends(&extended.0[r], &rows.0[r], columns) {
            proof {
                let row = extended@[r as int];
                if row.len() == columns {
                    if forall|c: int|
                        0 <= c < columns / 2 ==> #[trigger] row[c] == systematic_cell(
                            rows@[r as int],
                            c,
                        ) {
                        let c = choose|c: int| 0 <= c < columns && !#[trigger] is_cell(row[c]);
                        assert(!is_cell(extended@[r as int][c]));
                    } else {
                        let c = choose|c: int|
                            0 <= c < columns / 2 && #[trigger] row[c] != systematic_cell(
                                rows@[r as int],
                                c,
                            );
                        assert(extended@[r as int][c] != systematic_cell(rows@[r as int], c));
                    }
                }
            }
            return false;
        }
        r = r + 1;
    }
    true
}

impl DaEncoder {
    /// An encoder with the given parameters.
    pub fn new(params: DaEncoderParams) -> (encoder: Self)
        ensures
            encoder.params == params,
    {
        DaEncoder { params }
    }

    /// The failure that a blob of `len` bytes meets before any row is
    /// encoded, if any.
    pub open spec fn input_error(self, len: nat) -> Option<DaError> {
        if blob_error(self.params.padding, len) is Some {
            blob_error(self.params.padding, len)
        } else if !valid_column_count(self.params.column_count as nat) {
            Some(DaError::InvalidColumnCount { column_count: self.params.column_count })
        } else {
            None
        }
    }

    /// Checks the blob and the column count, and hands back the bytes that
    /// are to be chunked: the blob, padded where the encoder pads.
    pub fn prepare(&self, blob: &[u8]) -> (res: Result<Vec<u8>, DaError>)
        ensures
            match res {
                Ok(data) => self.input_error(blob@.len()) is None && data@ == padded(blob@),
                Err(e) => self.input_error(blob@.len()) == Some(e),
            },
            res is Err ==> res->Err_0.spec_result() == NomosDaResult::ErrorInvalidInput,
    {
        let data = match prepare(blob, self.params.padding) {
            Ok(data) => data,
            Err(e) => {
                return Err(e);
            },
        };
        let columns = self.params.column_count;
        if columns < 2 || columns % 2 != 0 || columns > MAX_COLUMN_COUNT {
            return Err(DaError::InvalidColumnCount { column_count: columns });
        }
        Ok(data)
    }

    /// Puts the encoded data of `blob` together from the extended rows, the
    /// row commitments and the column proofs that were computed for it.
    /// The blob is padded as the encoder's parameters say and chunked; the
    /// rows are accepted only if they are as wide as the encoder has
    /// columns and begin with the chunked data, with one commitment for
    /// each row and one proof for each column.
    pub fn encode(&self, blob: &[u8], rows: EncodedRows) -> (res: Result<EncodedData, DaError>)
        ensures
            match res {
                Ok(encoded) => {
                    &&& encode_error(self.params, blob@, rows@) is None
                    &&& encoded@ == encoding_of(self.params, blob@, rows@)
                    &&& encoded@.wf()
                    &&& encoded@.columns() == self.params.column_count
                },
                Err(e) => encode_error(self.params, blob@, rows@) == Some(e),
            },
            blob@.len() == 0 ==> res is Err && res->Err_0.spec_result()
                == NomosDaResult::ErrorInvalidInput,
    {
        let columns = self.params.column_count;
        let data = match self.prepare(blob) {
            Ok(data) => data,
            Err(e) => {
                return Err(e);
            },
        };
        proof {
            lemma_padded_len(blob@.len());
        }
        let chunked_data = chunkify(data.as_slice(), columns);
        if !rows_extend(&rows.extended_data, &chunked_data, columns) {
            return Err(DaError::InconsistentEncoding { data_len: blob.len() });
        }
        if rows.row_commitments.len() != chunked_data.len() {
            return Err(DaError::InconsistentEncoding { data_len: blob.len() });
        }
        if rows.combined_column_proofs.len() != columns {
            return Err(DaError::InconsistentEncoding { data_len: blob.len() });
        }
        Ok(
            EncodedData {
                data,
                chunked_data,
                extended_data: rows.extended_data,
                row_commitments: rows.row_commitments,
                combined_column_proofs: rows.combined_column_proofs,
            },
        )
    }
}

impl EncodedData {
    #[verifier::type_invariant]
    spec fn inv(&self) -> bool {
        self@.wf()
    }

    /// The padded blob.
    pub fn data(&self) -> (data: &Vec<u8>)
        ensures
            data@ == self@.data,
    {
        &self.data
    }

    /// The padded blob in rows of chunks.
    pub fn chunked_data(&self) -> (matrix: &ChunksMatrix)
        ensures
            matrix@ == self@.chunked_data,
    {
        &self.chunked_data
    }

    /// The rows after extension, each as wide as there are columns.
    pub fn extended_data(&self) -> (matrix: &ChunksMatrix)
        ensures
            matrix@ == self@.extended_data,
    {
        &self.extended_data
    }

    /// The commitments, one for each row, in the order of the rows.
    pub fn row_commitments(&self) -> (list: &Vec<Commitment>)
        ensures
            commitments_view(list@) == self@.row_commitments,
    {
        &self.row_commitments
    }

    /// The proofs, one for each column, in the order of the columns.
    pub fn combined_column_proofs(&self) -> (list: &Vec<Proof>)
        ensures
            proofs_view(list@) == self@.combined_column_proofs,
    {
        &self.combined_column_proofs
    }

    /// Copies the padded blob to the front of `out` and hands back its
    /// length. A buffer that is too short is left as it is, and the failure
    /// says how many bytes are needed.
    pub fn get_data(&self, out: &mut [u8]) -> (res: Result<usize, DaError>)
        ensures
            match res {
                Ok(len) => {
                    &&& len == self@.data.len()
                    &&& len <= old(out)@.len()
                    &&& final(out)@ == self@.data + old(out)@.subrange(
                        len as int,
                        old(out)@.len() as int,
                    )
                },
                Err(e) => {
                    &&& old(out)@.len() < self@.data.len()
                    &&& e == (DaError::BufferTooSmall { needed: self@.data.len() as usize })
                    &&& final(out)@ == old(out)@
                },
            },
    {
        let len = self.data.len();
        if out.len() < len {
            return Err(DaError::BufferTooSmall { needed: len });
        }
        let mut i: usize = 0;
        while i < len
            invariant
                i <= len,
                len == self.data@.len(),
                out@.len() == old(out)@.len(),
                len <= out@.len(),
                out@ == self.data@.subrange(0, i as int) + old(out)@.subrange(
                    i as int,
                    old(out)@.len() as int,
                ),
            decreases len - i,
        {
            out[i] = self.data[i];
            i = i + 1;
            assert(out@ =~= self.data@.subrange(0, i as int) + old(out)@.subrange(
                i as int,
                old(out)@.len() as int,
            ));
        }
        assert(self.data@.subrange(0, len as int) =~= self.data@);
        Ok(len)
    }

    /// Number of shares: one for each column.
    pub fn share_count(&self) -> (count: usize)
        ensures
            count == self@.columns(),
            self@.wf(),
    {
        proof {
            use_type_invariant(self);
        }
        self.combined_column_proofs.len()
    }

    /// The share of column `index`, or nothing if there is no such column.
    pub fn to_da_share(&self, index: usize) -> (res: Option<DaShare>)
        ensures
            self@.wf(),
            res is Some <==> index < self@.columns(),
            res is Some ==> {
                let share = res->Some_0@;
                &&& share == self@.share(index as int)
                &&& share.share_idx == index
                &&& share.column.len() == self@.rows()
                &&& forall|r: int| 0 <= r < share.column.len() ==> is_cell(#[trigger] share.column[r])
                &&& share.rows_commitments.len() == self@.rows()
            },
    {
        proof {
            use_type_invariant(self);
        }
        if index >= self.combined_column_proofs.len() {
            return None;
        }
        let mut cells: Vec<Chunk> = Vec::new();
        let mut r: usize = 0;
        while r < self.extended_data.0.len()
            invariant
                r <= self.extended_data@.len(),
                index < self@.columns(),
                self@.wf(),
                cells@.len() == r,
                forall|k: int| 0 <= k < r ==> (#[trigger] cells@[k])@ == self.extended_data@[k][index as int],
            decreases self.extended_data@.len() - r,
        {
            assert(self@.extended_data[r as int].len() == self@.columns());
            cells.push(self.extended_data.0[r].0[index].clone());
            r = r + 1;
        }
        let column = Column(cells);
        assert(column@ =~= self@.share(index as int).column);
        assert forall|r: int| 0 <= r < column@.len() implies is_cell(#[trigger] column@[r]) by {
            assert(is_cell(self@.extended_data[r][index as int]));
        }
        let share = DaShare {
            column,
            share_idx: index as ShareIndex,
            combined_column_proof: self.combined_column_proofs[index].clone(),
            rows_commitments: clone_commitments(&self.row_commitments),
        };
        Some(share)
    }

    /// The share of column `index`. An index that is no column's is refused.
    pub fn get_share(&self, index: usize) -> (res: Result<DaShare, DaError>)
        ensures
            self@.wf(),
            match res {
                Ok(share) => {
                    &&& index < self@.columns()
                    &&& share@ == self@.share(index as int)
                    &&& share@.share_idx == index
                    &&& share@.column.len() == self@.rows()
                    &&& forall|r: int|
                        0 <= r < share@.column.len() ==> is_cell(#[trigger] share@.column[r])
                    &&& share@.rows_commitments.len() == self@.rows()
                },
                Err(e) => index >= self@.columns() && e == (DaError::ShareIndexOutOfBounds {
                    index,
                    share_count: self@.columns() as usize,
                }),
            },
            res is Err ==> res->Err_0.spec_result() == NomosDaResult::ErrorInvalidInput,
    {
        match self.to_da_share(index) {
            Some(share) => Ok(share),
            None => Err(
                DaError::ShareIndexOutOfBounds { index, share_count: self.share_count() },
            ),
        }
    }
}

} // verus!
