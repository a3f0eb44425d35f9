//! From an encoding to its shares and back to the blob.

use vstd::prelude::*;
use vstd::arithmetic::div_mod::lemma_fundamental_div_mod;
use crate::chunker::{chunk_at, chunk_count, lemma_row_width, row_at, row_count, row_width};
use crate::chunks::{zero_chunk, CHUNK_SIZE};
use crate::encoder::{encode_error, encoding_of, systematic_cell, valid_column_count, DaEncoder, EncodedDataView, EncodedRowsView};
use crate::padding::{lemma_padded, lemma_padded_len, padded, padded_len, PaddingMode};
use crate::reconstruction::{holds, holds_column, lemma_first_place, place_of, reconstruct_error, reconstructed, reconstructible, taken, usable};
use crate::share::DaShareView;
use crate::verification::{early_rejection, rejection};

verus! {

/// The shares of the data columns of `encoded`: those of the first half of
/// its columns, in their order.
pub open spec fn data_shares(encoded: EncodedDataView) -> Seq<DaShareView> {
    Seq::new(encoded.columns() / 2, |i: int| encoded.share(i))
}

/// All shares of `encoded`, in the order of the columns.
pub open spec fn all_shares(encoded: EncodedDataView) -> Seq<DaShareView> {
    Seq::new(encoded.columns(), |i: int| encoded.share(i))
}

/// Whether `share` is the share of one of the columns of `encoded`.
pub open spec fn is_share_of(encoded: EncodedDataView, share: DaShareView) -> bool {
    exists|k: int| 0 <= k < encoded.columns() && share == #[trigger] encoded.share(k)
}

/// Whether the list has a share of column `c`.
pub open spec fn has_column(shares: Seq<DaShareView>, c: int) -> bool {
    exists|i: int| 0 <= i < shares.len() && (#[trigger] shares[i]).share_idx == c
}

/// Whether the list is made of shares of `encoded`, in any order and
/// number, with a share of each data column among them.
pub open spec fn shares_with_data_of(encoded: EncodedDataView, shares: Seq<DaShareView>) -> bool {
    &&& forall|i: int| 0 <= i < shares.len() ==> is_share_of(encoded, #[trigger] shares[i])
    &&& forall|c: int| 0 <= c < encoded.columns() / 2 ==> #[trigger] has_column(shares, c)
}

/// `data` followed by the zero bytes that fill its last row, at `per_row`
/// chunks a row.
pub open spec fn row_filled(data: Seq<u8>, per_row: nat) -> Seq<u8> {
    data + Seq::new(
        (row_count(data.len(), per_row) * per_row * CHUNK_SIZE - data.len()) as nat,
        |i: int| 0u8,
    )
}

/// The rows of `len` bytes of whole chunks hold all the chunks, and there
/// is a row if there is a byte.
pub proof fn lemma_rows_cover(len: nat, per_row: nat)
    requires
        per_row > 0,
        len % (CHUNK_SIZE as nat) == 0,
    ensures
        chunk_count(len) <= row_count(len, per_row) * per_row,
        len <= row_count(len, per_row) * per_row * CHUNK_SIZE,
        len > 0 ==> row_count(len, per_row) > 0,
        chunk_count(len) % per_row == 0 ==> len == row_count(len, per_row) * per_row * CHUNK_SIZE,
{
    let total = chunk_count(len) as int;
    let width = (per_row * CHUNK_SIZE) as int;
    let rows = row_count(len, per_row) as int;
    assert(len == total * 31);
    assert(rows * width <= len + width - 1 < rows * width + width) by (nonlinear_arith)
        requires
            width > 0,
            rows == (len + width - 1) / width,
    ;
    assert(rows * per_row * CHUNK_SIZE == rows * width) by (nonlinear_arith)
        requires
            width == per_row * CHUNK_SIZE,
    ;
    assert(total <= rows * per_row) by (nonlinear_arith)
        requires
            len + width - 1 < rows * width + width,
            len == total * 31,
            width == per_row * 31,
    ;
    assert(len <= rows * per_row * 31) by (nonlinear_arith)
        requires
            total <= rows * per_row,
            len == total * 31,
    ;
    if len > 0 {
        assert(rows > 0) by (nonlinear_arith)
            requires
                len <= rows * per_row * 31,
                len > 0,
                rows >= 0,
        ;
    }
    if total % (per_row as int) == 0 {
        lemma_fundamental_div_mod(total, per_row as int);
        let q = total / (per_row as int);
        assert(total == per_row * q);
        assert(len == q * width) by (nonlinear_arith)
            requires
                len == total * 31,
                total == per_row * q,
                width == per_row * 31,
        ;
        assert(q == rows) by (nonlinear_arith)
            requires
                len == q * width,
                width > 0,
                rows * width <= len + width - 1 < rows * width + width,
        ;
    }
}

/// The chunk in column `c` of row `r` is one of the data's chunks.
proof fn lemma_chunk_within(len: nat, n: int, r: int, c: int)
    requires
        n > 0,
        len % (CHUNK_SIZE as nat) == 0,
        0 <= r < row_count(len, n as nat),
        0 <= c < row_width(len, n as nat, r),
    ensures
        0 <= r * n + c < chunk_count(len),
        (r * n + c) * CHUNK_SIZE + CHUNK_SIZE <= len,
{
    lemma_row_width(len, n as nat, r);
    assert(0 <= r * n) by (nonlinear_arith)
        requires
            0 <= r,
            0 < n,
    ;
    let total = chunk_count(len) as int;
    assert(len == total * 31);
}

/// The share of a data column of an encoding holds that column of the
/// chunked data, zero chunks standing where the last row is short, and
/// can give data.
proof fn lemma_data_share(encoded: EncodedDataView, c: int)
    requires
        encoded.wf(),
        0 <= c < encoded.columns() / 2,
    ensures
        usable(encoded.share(c)),
        encoded.share(c).share_idx == c,
        encoded.share(c).column.len() == row_count(encoded.data.len(), encoded.columns() / 2),
        forall|r: int|
            0 <= r < encoded.share(c).column.len() ==> (#[trigger] encoded.share(c).column[r])
                == systematic_cell(row_at(encoded.data, encoded.columns() / 2, r), c),
{
    let n = (encoded.columns() / 2) as int;
    let data = encoded.data;
    let rows = row_count(data.len(), n as nat) as int;
    lemma_rows_cover(data.len(), n as nat);
    assert(encoded.extended_data.len() == rows);
    assert forall|r: int| 0 <= r < rows implies (#[trigger] encoded.share(c).column[r])
        == systematic_cell(row_at(data, n as nat, r), c) && encoded.share(c).column[r].len()
        == CHUNK_SIZE by {
        assert(encoded.extended_data[r].len() == encoded.columns());
        assert(encoded.extended_data[r][c] == systematic_cell(encoded.chunked_data[r], c));
        assert(encoded.chunked_data[r] == row_at(data, n as nat, r));
        lemma_row_width(data.len(), n as nat, r);
        if c < row_at(data, n as nat, r).len() {
            lemma_chunk_within(data.len(), n, r, c);
        }
    }
}

/// Shares of an encoding, in any order and number, give the encoded data
/// back as soon as a share of each data column is among them: filled up
/// with zero bytes to whole rows, and as it is where it fills its last row.
pub proof fn lemma_reconstruct_shares_of_encoding(encoded: EncodedDataView, shares: Seq<DaShareView>)
    requires
        encoded.wf(),
        shares_with_data_of(encoded, shares),
    ensures
        reconstruct_error(shares, encoded.columns() as usize) is None,
        reconstructed(shares, encoded.columns() / 2) == row_filled(
            encoded.data,
            encoded.columns() / 2,
        ),
        chunk_count(encoded.data.len()) % (encoded.columns() / 2) == 0 ==> reconstructed(
            shares,
            encoded.columns() / 2,
        ) == encoded.data,
{
    let n = (encoded.columns() / 2) as int;
    let data = encoded.data;
    let len = data.len();
    let rows = row_count(len, n as nat) as int;
    let total = chunk_count(len) as int;
    lemma_rows_cover(len, n as nat);
    assert forall|c: int| 0 <= c < n implies #[trigger] holds_column(shares, c) by {
        lemma_taken_share(encoded, shares, c);
    }
    assert forall|c: int| 0 <= c < n implies #[trigger] taken(shares, c) == encoded.share(c) by {
        lemma_taken_share(encoded, shares, c);
    }
    assert(holds_column(shares, 0));
    lemma_taken_share(encoded, shares, 0);
    assert forall|c: int| 0 <= c < n implies (#[trigger] taken(shares, c)).column.len() == taken(
        shares,
        0,
    ).column.len() by {
        lemma_data_share(encoded, c);
        lemma_data_share(encoded, 0);
    }
    assert(reconstructible(shares, n as nat));
    lemma_data_share(encoded, 0);
    let out = reconstructed(shares, n as nat);
    let filled = row_filled(data, n as nat);
    assert(rows * n * CHUNK_SIZE == rows * (n * CHUNK_SIZE)) by (nonlinear_arith);
    assert(out.len() == filled.len());
    assert forall|b: int| 0 <= b < out.len() implies out[b] == filled[b] by {
        let k = b / (CHUNK_SIZE as int);
        let off = b % (CHUNK_SIZE as int);
        lemma_fundamental_div_mod(b, CHUNK_SIZE as int);
        assert(k < rows * n) by (nonlinear_arith)
            requires
                b < rows * n * 31,
                b == 31 * k + off,
                0 <= off < 31,
        ;
        let r = k / n;
        let c = k % n;
        lemma_fundamental_div_mod(k, n);
        assert(0 <= r < rows) by (nonlinear_arith)
            requires
                0 <= k < rows * n,
                k == n * r + c,
                0 <= c < n,
        ;
        assert(r * n + c == k) by (nonlinear_arith)
            requires
                k == n * r + c,
        ;
        lemma_data_share(encoded, c);
        assert(taken(shares, c) == encoded.share(c));
        assert(out[b] == encoded.share(c).column[r][off]);
        lemma_row_width(len, n as nat, r);
        let width = row_width(len, n as nat, r) as int;
        if c < width {
            assert(k < total);
            lemma_chunk_within(len, n, r, c);
            assert(encoded.share(c).column[r] == chunk_at(data, k));
            assert(b < len);
            assert(chunk_at(data, k)[off] == data[k * 31 + off]);
        } else {
            assert(r + 1 == rows);
            assert(k >= total);
            assert(b >= len);
            assert(encoded.share(c).column[r] == zero_chunk());
        }
    }
    assert(out =~= filled);
    if total % n == 0 {
        assert(filled =~= data);
    }
}

/// The share that is taken for a data column from shares of an encoding
/// is the encoding's share of that column.
proof fn lemma_taken_share(encoded: EncodedDataView, shares: Seq<DaShareView>, c: int)
    requires
        encoded.wf(),
        shares_with_data_of(encoded, shares),
        0 <= c < encoded.columns() / 2,
    ensures
        holds_column(shares, c),
        taken(shares, c) == encoded.share(c),
        shares.len() > 0,
{
    lemma_data_share(encoded, c);
    assert(has_column(shares, c));
    let i = choose|i: int| 0 <= i < shares.len() && (#[trigger] shares[i]).share_idx == c;
    lemma_share_by_index(encoded, shares[i], c);
    assert(holds(shares, c, i));
    lemma_first_place(shares, c, i);
    let p = place_of(shares, c);
    assert(holds(shares, c, p));
    lemma_share_by_index(encoded, shares[p], c);
}

/// A share of an encoding is known by its index.
proof fn lemma_share_by_index(encoded: EncodedDataView, share: DaShareView, c: int)
    requires
        encoded.wf(),
        is_share_of(encoded, share),
        0 <= c < encoded.columns(),
        share.share_idx == c,
    ensures
        share == encoded.share(c),
{
    let k = choose|k: int| 0 <= k < encoded.columns() && share == #[trigger] encoded.share(k);
    assert(encoded.share(k).share_idx == k);
}

/// The data shares of an encoding, and all its shares together, are lists
/// from which its data is reconstructed.
pub proof fn lemma_shares_of_encoding(encoded: EncodedDataView)
    requires
        encoded.wf(),
    ensures
        shares_with_data_of(encoded, data_shares(encoded)),
        shares_with_data_of(encoded, all_shares(encoded)),
{
    let some = data_shares(encoded);
    let all = all_shares(encoded);
    assert forall|i: int| 0 <= i < some.len() implies is_share_of(encoded, #[trigger] some[i]) by {
        assert(some[i] == encoded.share(i));
    }
    assert forall|i: int| 0 <= i < all.len() implies is_share_of(encoded, #[trigger] all[i]) by {
        assert(all[i] == encoded.share(i));
    }
    assert forall|c: int| 0 <= c < encoded.columns() / 2 implies #[trigger] has_column(some, c) by {
        assert(some[c].share_idx == c);
    }
    assert forall|c: int| 0 <= c < encoded.columns() / 2 implies #[trigger] has_column(all, c) by {
        assert(all[c].share_idx == c);
    }
}

/// Encoding a blob, taking shares that have the data columns among them
/// and reconstructing from them gives the padded blob, filled up with
/// zero bytes to whole rows; where the padded blob fills its last row, it
/// gives the padded blob itself.
pub proof fn lemma_round_trip(blob: Seq<u8>, encoded: EncodedDataView, shares: Seq<DaShareView>)
    requires
        encoded.wf(),
        encoded.data == padded(blob),
        shares_with_data_of(encoded, shares),
    ensures
        reconstruct_error(shares, encoded.columns() as usize) is None,
        reconstructed(shares, encoded.columns() / 2) == row_filled(
            padded(blob),
            encoded.columns() / 2,
        ),
        reconstructed(shares, encoded.columns() / 2).subrange(0, blob.len() as int) == blob,
        forall|i: int|
            blob.len() <= i < reconstructed(shares, encoded.columns() / 2).len()
                ==> #[trigger] reconstructed(shares, encoded.columns() / 2)[i] == 0u8,
        chunk_count(padded(blob).len()) % (encoded.columns() / 2) == 0 ==> reconstructed(
            shares,
            encoded.columns() / 2,
        ) == padded(blob),
{
    lemma_reconstruct_shares_of_encoding(encoded, shares);
    lemma_padded(blob);
    lemma_padded_len(blob.len());
    let out = reconstructed(shares, encoded.columns() / 2);
    assert(out.subrange(0, blob.len() as int) =~= padded(blob).subrange(0, blob.len() as int));
}

/// An encoder that pads takes every blob that is not empty, whatever its
/// length. With rows that fit the padded blob the encoding succeeds, and
/// the encoded data is the blob padded to whole chunks.
pub proof fn lemma_padding_encoder_takes_any_blob(
    encoder: DaEncoder,
    blob: Seq<u8>,
    rows: EncodedRowsView,
)
    requires
        encoder.params.padding == PaddingMode::ZeroPad,
        valid_column_count(encoder.params.column_count as nat),
        blob.len() > 0,
    ensures
        encoder.input_error(blob.len()) is None,
        rows.fits(padded(blob), encoder.params.column_count as nat) ==> {
            &&& encode_error(encoder.params, blob, rows) is None
            &&& encoding_of(encoder.params, blob, rows).data.len() == padded_len(blob.len())
            &&& encoding_of(encoder.params, blob, rows).wf()
        },
{
    lemma_padded(blob);
    lemma_padded_len(blob.len());
}

/// A share that was taken from an encoding is judged by the opening check
/// alone, whatever rows domain is named, as long as it is not empty.
pub proof fn lemma_share_of_encoding_is_checked(
    encoded: EncodedDataView,
    index: int,
    rows_domain_size: usize,
    opening_holds: bool,
)
    requires
        encoded.wf(),
        0 <= index < encoded.columns(),
        rows_domain_size != 0,
    ensures
        early_rejection(
            encoded.share(index).light(),
            encoded.share(index).rows_commitments,
            rows_domain_size,
        ) is None,
        rejection(
            encoded.share(index).light(),
            encoded.share(index).rows_commitments,
            rows_domain_size,
            opening_holds,
        ) is None <==> opening_holds,
{
}

} // verus!
