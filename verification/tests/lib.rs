//! Encoding, share extraction, verification decisions and reconstruction,
//! driven with a stand-in for the row encoder and the commitment engine.

use nomos_da_ffi::boundary::{nomos_da_cleanup, nomos_da_init};
use nomos_da_ffi::chunker::chunkify;
use nomos_da_ffi::chunks::{Chunk, ChunksMatrix, Row};
use nomos_da_ffi::encoder::{DaEncoder, DaEncoderParams, EncodedData, EncodedRows};
use nomos_da_ffi::error::DaError;
use nomos_da_ffi::reconstruction::reconstruct;
use nomos_da_ffi::share::{Commitment, DaLightShare, DaShare, DaSharesCommitments, Proof};
use nomos_da_ffi::status::NomosDaResult;
use nomos_da_ffi::verification::verify;

// ============================================================================
// Constants and Helper Functions
// ============================================================================

const CHUNK_SIZE: usize = DaEncoderParams::MAX_BLS12_381_ENCODING_CHUNK_SIZE;

fn create_test_data(size: usize) -> Vec<u8> {
    (1..=size).map(|i| (i % 256) as u8).collect()
}

/// A running sum over bytes that depends on their order.
fn mix(state: &mut [u8; 48], bytes: &[u8]) {
    for (i, b) in bytes.iter().enumerate() {
        let at = (i + state[0] as usize) % 48;
        state[at] = state[at].wrapping_mul(31).wrapping_add(*b).wrapping_add(i as u8);
        state[0] = state[0].wrapping_add(1);
    }
}

fn stand_in_commitment(row: &Row) -> Commitment {
    let mut state = [7u8; 48];
    for chunk in row.0.iter() {
        mix(&mut state, &chunk.0);
    }
    Commitment(state.to_vec())
}

fn stand_in_proof(share_idx: u16, column: &[Chunk], commitments: &[Commitment]) -> Proof {
    let mut state = [11u8; 48];
    mix(&mut state, &share_idx.to_le_bytes());
    for chunk in column.iter() {
        mix(&mut state, &chunk.0);
    }
    for commitment in commitments.iter() {
        mix(&mut state, &commitment.0);
    }
    Proof(state.to_vec())
}

/// Stands in for the row encoder and the commitment engine: the data half
/// of each row is the row itself, filled up with zero chunks, and the other
/// half is derived from it.
fn stand_in_rows(chunked: &ChunksMatrix, columns: usize) -> EncodedRows {
    let per_row = columns / 2;
    let mut extended = Vec::new();
    for row in chunked.0.iter() {
        let mut cells: Vec<Chunk> = row.0.clone();
        while cells.len() < per_row {
            cells.push(Chunk(vec![0u8; CHUNK_SIZE]));
        }
        for c in per_row..columns {
            let mut state = [c as u8; 48];
            for chunk in row.0.iter() {
                mix(&mut state, &chunk.0);
            }
            cells.push(Chunk(state[..32].to_vec()));
        }
        extended.push(Row(cells));
    }
    let row_commitments: Vec<Commitment> = chunked.0.iter().map(stand_in_commitment).collect();
    let mut combined_column_proofs = Vec::new();
    for c in 0..columns {
        let column: Vec<Chunk> = extended.iter().map(|row| row.0[c].clone()).collect();
        combined_column_proofs.push(stand_in_proof(c as u16, &column, &row_commitments));
    }
    EncodedRows { extended_data: ChunksMatrix(extended), row_commitments, combined_column_proofs }
}

/// Stands in for the opening check.
fn stand_in_opening(share: &DaLightShare, commitments: &DaSharesCommitments) -> bool {
    stand_in_proof(share.share_idx, &share.column.0, &commitments.rows_commitments)
        == share.combined_column_proof
}

fn encode(encoder: &DaEncoder, data: &[u8]) -> Result<EncodedData, DaError> {
    let prepared = encoder.prepare(data)?;
    let chunked = chunkify(&prepared, encoder.params.column_count);
    encoder.encode(data, stand_in_rows(&chunked, encoder.params.column_count))
}

fn verify_share(share: &DaShare, rows_domain_size: usize) -> bool {
    let (light_share, commitments) = share.clone().into_share_and_commitments();
    let opening_holds = stand_in_opening(&light_share, &commitments);
    verify(&light_share, &commitments, rows_domain_size, opening_holds)
}

fn test_encode_success(data_size: usize, column_count: usize) {
    let encoder = DaEncoder::new(DaEncoderParams::default_with(column_count));

    let data = create_test_data(data_size);
    let result = encode(&encoder, &data);

    assert!(result.is_ok(), "Encoding should succeed (data_size: {}, column_count: {}, chunk_size: {})", data_size, column_count, CHUNK_SIZE);
    let encoded = result.unwrap();

    let padded_len = if data_size % CHUNK_SIZE == 0 {
        data_size
    } else {
        data_size + (CHUNK_SIZE - (data_size % CHUNK_SIZE))
    };

    assert_eq!(encoded.data().len(), padded_len, "Encoded data length should be padded to {} (data_size: {}, column_count: {}, chunk_size: {})", padded_len, data_size, column_count, CHUNK_SIZE);
    assert_eq!(&encoded.data()[..data_size], data.as_slice(), "Original data should be preserved at the beginning (data_size: {}, column_count: {}, chunk_size: {})", data_size, column_count, CHUNK_SIZE);

    for i in data_size..padded_len {
        assert_eq!(encoded.data()[i], 0, "Padding byte at index {} should be zero (data_size: {}, column_count: {}, chunk_size: {})", i, data_size, column_count, CHUNK_SIZE);
    }
    assert!(!encoded.chunked_data().0.is_empty(), "chunked_data should not be empty (data_size: {}, column_count: {}, chunk_size: {})", data_size, column_count, CHUNK_SIZE);
    assert!(!encoded.extended_data().0.is_empty(), "extended_data should not be empty (data_size: {}, column_count: {}, chunk_size: {})", data_size, column_count, CHUNK_SIZE);
    assert!(!encoded.row_commitments().is_empty(), "row_commitments should not be empty (data_size: {}, column_count: {}, chunk_size: {})", data_size, column_count, CHUNK_SIZE);
    assert!(!encoded.combined_column_proofs().is_empty(), "combined_column_proofs should not be empty (data_size: {}, column_count: {}, chunk_size: {})", data_size, column_count, CHUNK_SIZE);

    let chunks_per_row = column_count / 2;
    let bytes_per_row = chunks_per_row * CHUNK_SIZE;
    let expected_rows = (padded_len + bytes_per_row - 1) / bytes_per_row;
    let expected_chunks = (padded_len + CHUNK_SIZE - 1) / CHUNK_SIZE;
    let expected_columns_after_rs = column_count;
    assert_eq!(encoded.chunked_data().0.len(), expected_rows, "Number of rows should match expected (data_size: {}, column_count: {}, chunk_size: {}, expected_rows: {})", data_size, column_count, CHUNK_SIZE, expected_rows);
    assert_eq!(encoded.extended_data().0.len(), expected_rows, "Extended data should have same number of rows (data_size: {}, column_count: {}, chunk_size: {}, expected_rows: {})", data_size, column_count, CHUNK_SIZE, expected_rows);
    assert_eq!(encoded.row_commitments().len(), expected_rows, "Row commitments should match number of rows (data_size: {}, column_count: {}, chunk_size: {}, expected_rows: {})", data_size, column_count, CHUNK_SIZE, expected_rows);

    let actual_columns = encoded.extended_data().0[0].0.len();
    assert_eq!(actual_columns, expected_columns_after_rs, "After RS encoding, each row should have {} columns (data_size: {}, column_count: {}, chunk_size: {})", expected_columns_after_rs, data_size, column_count, CHUNK_SIZE);

    for (i, row) in encoded.extended_data().0.iter().enumerate() {
        assert_eq!(row.0.len(), expected_columns_after_rs, "Row {} should have {} columns (data_size: {}, column_count: {}, chunk_size: {})", i, expected_columns_after_rs, data_size, column_count, CHUNK_SIZE);
    }

    assert_eq!(encoded.combined_column_proofs().len(), expected_columns_after_rs, "Number of column proofs should match number of columns (data_size: {}, column_count: {}, chunk_size: {}, expected_columns: {})", data_size, column_count, CHUNK_SIZE, expected_columns_after_rs);

    let mut total_chunks = 0;
    for row in encoded.chunked_data().0.iter() {
        assert!(row.0.len() <= chunks_per_row, "Each row should have at most {} chunks (data_size: {}, column_count: {}, chunk_size: {})", chunks_per_row, data_size, column_count, CHUNK_SIZE);
        total_chunks += row.0.len();
    }
    assert_eq!(total_chunks, expected_chunks, "Total chunks should match expected (data_size: {}, column_count: {}, chunk_size: {}, expected_chunks: {})", data_size, column_count, CHUNK_SIZE, expected_chunks);

    let mut total_extended_chunks = 0;
    for row in encoded.extended_data().0.iter() {
        total_extended_chunks += row.0.len();
    }
    assert_eq!(total_extended_chunks, expected_rows * expected_columns_after_rs, "Total extended chunks should be rows × columns (data_size: {}, column_count: {}, chunk_size: {}, expected: {})", data_size, column_count, CHUNK_SIZE, expected_rows * expected_columns_after_rs);

    let mut out_data = vec![0u8; padded_len * 2];
    let result = encoded.get_data(&mut out_data);
    assert!(result.is_ok(), "Get data should succeed (data_size: {}, column_count: {}, chunk_size: {})", data_size, column_count, CHUNK_SIZE);
    let out_len = result.unwrap();
    assert_eq!(out_len, padded_len, "Retrieved data length should match padded length (data_size: {}, column_count: {}, chunk_size: {}, padded_len: {})", data_size, column_count, CHUNK_SIZE, padded_len);
    assert_eq!(&out_data[..data_size], data.as_slice(), "Original data should be preserved at the beginning (data_size: {}, column_count: {}, chunk_size: {})", data_size, column_count, CHUNK_SIZE);
    for i in data_size..padded_len {
        assert_eq!(out_data[i], 0, "Padding byte at index {} should be zero (data_size: {}, column_count: {}, chunk_size: {})", i, data_size, column_count, CHUNK_SIZE);
    }
}

fn test_encode_failure(data_size: usize, column_count: usize) {
    let encoder = DaEncoder::new(DaEncoderParams::default_with(column_count));

    let data = create_test_data(data_size);
    let result = encode(&encoder, &data);

    assert!(result.is_err(), "Encoding should fail (data_size: {}, column_count: {}, chunk_size: {})", data_size, column_count, CHUNK_SIZE);
    assert_ne!(result.unwrap_err().result(), NomosDaResult::Success, "Encoding should fail (data_size: {}, column_count: {}, chunk_size: {})", data_size, column_count, CHUNK_SIZE);
}

// ============================================================================
// Utility Tests
// ============================================================================

#[test]
fn test_init_cleanup() {
    assert_eq!(nomos_da_init().code(), NomosDaResult::Success.code());
    nomos_da_cleanup();
}

#[test]
fn test_encoder_create_and_free() {
    let encoder = DaEncoder::new(DaEncoderParams::default_with(4));
    assert_eq!(encoder.params.column_count, 4);
}

// ============================================================================
// Encoding Tests
// ============================================================================

#[test]
fn test_encode_size_0() {
    test_encode_failure(0, 4);
}

#[test]
fn test_encode_not_multiple_of_chunk_size() {
    let column_count = 4;
    let encoder = DaEncoder::new(DaEncoderParams::default_with(column_count));

    // Test with data length that is not a multiple of chunk size
    let invalid_sizes = [1, CHUNK_SIZE - 1, CHUNK_SIZE + 1, 2 * CHUNK_SIZE - 1];

    for data_size in invalid_sizes.iter() {
        let data = create_test_data(*data_size);
        let result = encode(&encoder, &data);
        assert!(result.is_err(), "Output should be absent on failure (data_size: {}, chunk_size: {})", data_size, CHUNK_SIZE);
        assert_eq!(result.unwrap_err().result(), NomosDaResult::ErrorInvalidInput, "Encoding should fail when data length is not a multiple of chunk size (data_size: {}, chunk_size: {})", data_size, CHUNK_SIZE);
    }
}

#[test]
fn test_encode_various_sizes_and_column_counts() {
    let column_counts = [2, 4, 8];
    let chunk_multipliers = [1, 2, 4, 8];

    for column_count in column_counts.iter() {
        for multiplier in chunk_multipliers.iter() {
            let data_size = *multiplier * CHUNK_SIZE;
            test_encode_success(data_size, *column_count);
        }
    }
}

// ============================================================================
// Share Extraction Tests
// ============================================================================

#[test]
fn test_get_share_count() {
    let encoder = DaEncoder::new(DaEncoderParams::default_with(4));

    let data = create_test_data(CHUNK_SIZE);
    let result = encode(&encoder, &data);
    assert!(result.is_ok());
    let encoded = result.unwrap();

    let share_count = encoded.share_count();
    assert_eq!(share_count, 4, "Share count should match column count (column_count: 4, chunk_size: {})", CHUNK_SIZE);
}

#[test]
fn test_get_share_valid_indices() {
    let column_count = 4;
    let encoder = DaEncoder::new(DaEncoderParams::default_with(column_count));

    let data = create_test_data(CHUNK_SIZE);
    let result = encode(&encoder, &data);
    assert!(result.is_ok(), "Encoding should succeed (column_count: {}, chunk_size: {})", column_count, CHUNK_SIZE);
    let encoded = result.unwrap();

    let share_count = encoded.share_count();

    for i in 0..share_count {
        let result = encoded.get_share(i);
        assert!(result.is_ok(), "Should successfully get share {} (column_count: {}, chunk_size: {})", i, column_count, CHUNK_SIZE);

        let share = result.unwrap();
        assert_eq!(share.share_idx, i as u16, "Share index should match (share_index: {}, column_count: {}, chunk_size: {})", i, column_count, CHUNK_SIZE);
        assert_eq!(share.rows_commitments.len(), 1, "Should have one row commitment (share_index: {}, column_count: {}, chunk_size: {})", i, column_count, CHUNK_SIZE);
    }
}

#[test]
fn test_get_share_invalid_index() {
    let column_count = 4;
    let encoder = DaEncoder::new(DaEncoderParams::default_with(column_count));

    let data = create_test_data(CHUNK_SIZE);
    let result = encode(&encoder, &data);
    assert!(result.is_ok(), "Encoding should succeed (column_count: {}, chunk_size: {})", column_count, CHUNK_SIZE);
    let encoded = result.unwrap();

    let share_count = encoded.share_count();
    let invalid_index = share_count;

    let result = encoded.get_share(invalid_index);
    assert!(result.is_err(), "Share should be absent on failure (invalid_index: {}, share_count: {}, column_count: {}, chunk_size: {})", invalid_index, share_count, column_count, CHUNK_SIZE);
    assert_ne!(result.unwrap_err().result(), NomosDaResult::Success, "Should fail for invalid index (invalid_index: {}, share_count: {}, column_count: {}, chunk_size: {})", invalid_index, share_count, column_count, CHUNK_SIZE);
    assert!(encoded.to_da_share(invalid_index).is_none());
}

#[test]
fn test_get_share_different_column_counts() {
    for column_count in [2, 4, 8] {
        let encoder = DaEncoder::new(DaEncoderParams::default_with(column_count));

        let data = create_test_data(CHUNK_SIZE);
        let result = encode(&encoder, &data);
        assert!(result.is_ok(), "Encoding should succeed (column_count: {}, chunk_size: {})", column_count, CHUNK_SIZE);
        let encoded = result.unwrap();

        let share_count = encoded.share_count();
        assert_eq!(share_count, column_count, "Share count should match column count (column_count: {}, chunk_size: {}, share_count: {})", column_count, CHUNK_SIZE, share_count);

        for i in 0..share_count {
            let result = encoded.get_share(i);
            assert!(result.is_ok(), "Should successfully get share (share_index: {}, column_count: {}, chunk_size: {})", i, column_count, CHUNK_SIZE);
        }
    }
}

// ============================================================================
// Share Verification Tests
// ============================================================================

#[test]
fn test_verifier_verify_valid_shares() {
    let column_count = 4;
    let encoder = DaEncoder::new(DaEncoderParams::default_with(column_count));

    let data = create_test_data(CHUNK_SIZE);
    let result = encode(&encoder, &data);
    assert!(result.is_ok(), "Encoding should succeed (column_count: {}, chunk_size: {})", column_count, CHUNK_SIZE);
    let encoded = result.unwrap();

    let share_count = encoded.share_count();

    for i in 0..share_count {
        let result = encoded.get_share(i);
        assert!(result.is_ok(), "Should successfully get share (share_index: {}, column_count: {}, chunk_size: {})", i, column_count, CHUNK_SIZE);
        let share = result.unwrap();

        let verify_result = verify_share(&share, column_count);
        assert!(verify_result, "Share verification should succeed (share_index: {}, column_count: {}, chunk_size: {})", i, column_count, CHUNK_SIZE);
    }
}

#[test]
fn test_verifier_verify_different_column_counts() {
    for column_count in [2, 4, 8] {
        let encoder = DaEncoder::new(DaEncoderParams::default_with(column_count));

        let data = create_test_data(CHUNK_SIZE);
        let result = encode(&encoder, &data);
        assert!(result.is_ok(), "Encoding should succeed (column_count: {}, chunk_size: {})", column_count, CHUNK_SIZE);
        let encoded = result.unwrap();

        let share_count = encoded.share_count();

        for i in 0..share_count {
            let result = encoded.get_share(i);
            assert!(result.is_ok(), "Should successfully get share (share_index: {}, column_count: {}, chunk_size: {})", i, column_count, CHUNK_SIZE);
            let share = result.unwrap();

            let verify_result = verify_share(&share, column_count);
            assert!(verify_result, "Share verification should succeed (share_index: {}, column_count: {}, chunk_size: {})", i, column_count, CHUNK_SIZE);
        }
    }
}

#[test]
fn test_verifier_verify_null_handles() {
    let column_count = 4;
    let encoder = DaEncoder::new(DaEncoderParams::default_with(column_count));
    let data = create_test_data(CHUNK_SIZE);
    let result = encode(&encoder, &data);
    assert!(result.is_ok());
    let encoded = result.unwrap();

    let result = encoded.get_share(0);
    assert!(result.is_ok());
    let share = result.unwrap();

    let verify_result_invalid_domain = verify_share(&share, 0);
    assert!(!verify_result_invalid_domain, "Verification should fail with invalid domain size (column_count: {}, chunk_size: {})", column_count, CHUNK_SIZE);
}

#[test]
fn test_share_get_index() {
    let column_count = 4;
    let encoder = DaEncoder::new(DaEncoderParams::default_with(column_count));

    let data = create_test_data(CHUNK_SIZE);
    let result = encode(&encoder, &data);
    assert!(result.is_ok(), "Encoding should succeed (column_count: {}, chunk_size: {})", column_count, CHUNK_SIZE);
    let encoded = result.unwrap();

    let share_count = encoded.share_count();
    assert_eq!(share_count, column_count, "Share count should equal column_count (share_count: {}, column_count: {}, chunk_size: {})", share_count, column_count, CHUNK_SIZE);

    // Test getting index from multiple shares
    for i in 0..share_count {
        let result = encoded.get_share(i);
        assert!(result.is_ok(), "Should successfully get share (share_index: {}, column_count: {}, chunk_size: {})", i, column_count, CHUNK_SIZE);
        let share = result.unwrap();

        let share_idx = share.share_idx();
        assert_eq!(share_idx, i as u16, "Share index should match (expected: {}, got: {}, chunk_size: {})", i, share_idx, CHUNK_SIZE);
    }
}

// ============================================================================
// Data Reconstruction Tests
// ============================================================================

#[test]
fn test_reconstruct_from_all_shares() {
    let column_count = 4;
    let encoder = DaEncoder::new(DaEncoderParams::default_with(column_count));

    let original_data = create_test_data(CHUNK_SIZE);
    let result = encode(&encoder, &original_data);
    assert!(result.is_ok(), "Encoding should succeed (column_count: {}, chunk_size: {})", column_count, CHUNK_SIZE);
    let encoded = result.unwrap();

    let share_count = encoded.share_count();
    assert_eq!(share_count, column_count, "Share count should equal column_count (share_count: {}, column_count: {}, chunk_size: {})", share_count, column_count, CHUNK_SIZE);

    // For reconstruction, we only need the first column_count/2 shares (original columns)
    // The remaining shares are RS-encoded redundancy
    let original_share_count = column_count / 2;

    let mut shares: Vec<DaShare> = Vec::with_capacity(original_share_count);
    for i in 0..original_share_count {
        let result = encoded.get_share(i);
        assert!(result.is_ok(), "Should successfully get share (share_index: {}, column_count: {}, chunk_size: {})", i, column_count, CHUNK_SIZE);
        shares.push(result.unwrap());
    }

    let reconstruct_result = reconstruct(&shares, column_count);
    assert!(reconstruct_result.is_ok(), "Reconstruction should succeed (share_count: {}, chunk_size: {})", share_count, CHUNK_SIZE);
    let reconstructed = reconstruct_result.unwrap();
    let reconstructed_len = reconstructed.len();
    assert!(reconstructed_len > 0, "Reconstructed length should be greater than 0 (reconstructed_len: {}, chunk_size: {})", reconstructed_len, CHUNK_SIZE);

    // Calculate expected reconstructed size (padded to row boundaries)
    // Row size = (column_count / 2) * chunk_size
    let row_size = (column_count / 2) * CHUNK_SIZE;
    let num_rows = (original_data.len() + row_size - 1) / row_size; // Ceiling division
    let expected_reconstructed_len = num_rows * row_size;

    assert_eq!(reconstructed_len, expected_reconstructed_len, "Reconstructed length should match expected padded size (reconstructed_len: {}, expected_len: {}, original_len: {}, row_size: {}, num_rows: {}, chunk_size: {})", reconstructed_len, expected_reconstructed_len, original_data.len(), row_size, num_rows, CHUNK_SIZE);

    let reconstructed_slice = reconstructed.as_slice();
    // Check that the original data matches the beginning of reconstructed data
    assert_eq!(&reconstructed_slice[..original_data.len()], original_data.as_slice(), "Reconstructed data prefix should match original (reconstructed_len: {}, original_len: {}, chunk_size: {})", reconstructed_len, original_data.len(), CHUNK_SIZE);
    // Check that the padding is zeros
    if reconstructed_len > original_data.len() {
        let padding = &reconstructed_slice[original_data.len()..];
        assert!(padding.iter().all(|&b| b == 0), "Padding should be zeros (reconstructed_len: {}, original_len: {}, chunk_size: {})", reconstructed_len, original_data.len(), CHUNK_SIZE);
    }
}

#[test]
fn test_reconstruct_different_data_sizes() {
    let column_count = 4;
    let encoder = DaEncoder::new(DaEncoderParams::default_with(column_count));

    for data_size in [3 * CHUNK_SIZE, 2 * CHUNK_SIZE, CHUNK_SIZE] {
        let original_data = create_test_data(data_size);
        let result = encode(&encoder, &original_data);
        assert!(result.is_ok(), "Encoding should succeed (data_size: {}, column_count: {}, chunk_size: {})", data_size, column_count, CHUNK_SIZE);
        let encoded = result.unwrap();

        let share_count = encoded.share_count();
        let original_share_count = column_count / 2;
        let mut shares: Vec<DaShare> = Vec::with_capacity(original_share_count);
        for i in 0..original_share_count {
            let result = encoded.get_share(i);
            assert!(result.is_ok(), "Should successfully get share (share_index: {}, data_size: {}, chunk_size: {})", i, data_size, CHUNK_SIZE);
            shares.push(result.unwrap());
        }

        let reconstruct_result = reconstruct(&shares, column_count);
        assert!(reconstruct_result.is_ok(), "Reconstruction should succeed (data_size: {}, share_count: {}, chunk_size: {})", data_size, share_count, CHUNK_SIZE);
        let reconstructed = reconstruct_result.unwrap();
        let reconstructed_len = reconstructed.len();

        // Calculate expected reconstructed size (padded to row boundaries)
        // Row size = (column_count / 2) * chunk_size
        let row_size = (column_count / 2) * CHUNK_SIZE;
        let num_rows = (original_data.len() + row_size - 1) / row_size; // Ceiling division
        let expected_reconstructed_len = num_rows * row_size;

        assert_eq!(reconstructed_len, expected_reconstructed_len, "Reconstructed length should match expected padded size (data_size: {}, reconstructed_len: {}, expected_len: {}, row_size: {}, num_rows: {}, chunk_size: {})", data_size, reconstructed_len, expected_reconstructed_len, row_size, num_rows, CHUNK_SIZE);

        let reconstructed_slice = reconstructed.as_slice();
        // Check that the original data matches the beginning of reconstructed data
        assert_eq!(&reconstructed_slice[..original_data.len()], original_data.as_slice(), "Reconstructed data prefix should match original (data_size: {}, reconstructed_len: {}, original_len: {}, chunk_size: {})", data_size, reconstructed_len, original_data.len(), CHUNK_SIZE);
        // Check that the padding is zeros
        if reconstructed_len > original_data.len() {
            let padding = &reconstructed_slice[original_data.len()..];
            assert!(padding.iter().all(|&b| b == 0), "Padding should be zeros (data_size: {}, reconstructed_len: {}, original_len: {}, chunk_size: {})", data_size, reconstructed_len, original_data.len(), CHUNK_SIZE);
        }
    }
}

// ============================================================================
// Error Handling Tests
// ============================================================================

#[test]
fn test_get_data_buffer_too_small() {
    let encoder = DaEncoder::new(DaEncoderParams::default_with(4));
    let data = create_test_data(CHUNK_SIZE);
    let result = encode(&encoder, &data);
    assert!(result.is_ok());
    let encoded = result.unwrap();

    let mut out_data = vec![0u8; 1];
    let result = encoded.get_data(&mut out_data);
    assert!(result.is_err());
    let error = result.unwrap_err();
    assert_eq!(error.result(), NomosDaResult::ErrorInvalidInput, "Should fail with buffer too small");
    match error {
        DaError::BufferTooSmall { needed } => {
            assert!(needed > 1, "needed length should be the required size");
            assert_eq!(needed, CHUNK_SIZE);
        }
        other => panic!("unexpected failure {:?}", other),
    }
    assert_eq!(out_data, vec![0u8; 1]);
}

// ============================================================================
// Scenarios and properties
// ============================================================================

fn data_shares(encoded: &EncodedData) -> Vec<DaShare> {
    (0..encoded.share_count() / 2).map(|i| encoded.get_share(i).unwrap()).collect()
}

fn padded(data: &[u8]) -> Vec<u8> {
    let mut out = data.to_vec();
    while out.len() % CHUNK_SIZE != 0 {
        out.push(0);
    }
    out
}

#[test]
fn scenario_one_chunk_four_columns() {
    let encoder = DaEncoder::new(DaEncoderParams::default_with(4));
    let blob: Vec<u8> = (1..=31).collect();
    let encoded = encode(&encoder, &blob).unwrap();
    assert_eq!(encoded.share_count(), 4);
    let share = encoded.get_share(0).unwrap();
    assert_eq!(share.share_idx, 0);
    assert_eq!(share.rows_commitments.len(), 1);
    assert_eq!(share.column.0.len(), 1);
    assert_eq!(share.column.0[0].0, blob);
    assert!(verify_share(&share, 1));
}

#[test]
fn scenario_reconstruct_fills_the_row_with_zeros() {
    let encoder = DaEncoder::new(DaEncoderParams::default_with(4));
    let blob = create_test_data(31);
    let encoded = encode(&encoder, &blob).unwrap();
    let shares = vec![encoded.get_share(0).unwrap(), encoded.get_share(1).unwrap()];
    let out = reconstruct(&shares, 4).unwrap();
    assert_eq!(out.len(), 62);
    assert_eq!(&out[..31], blob.as_slice());
    assert_eq!(&out[31..], &[0u8; 31]);
}

#[test]
fn scenario_empty_blob_is_invalid_input() {
    for columns in [2usize, 4, 8] {
        let encoder = DaEncoder::new(DaEncoderParams::default_with(columns));
        let error = encode(&encoder, &[]).unwrap_err();
        assert_eq!(error, DaError::EmptyBlob);
        assert_eq!(error.result(), NomosDaResult::ErrorInvalidInput);
        let rows = EncodedRows {
            extended_data: ChunksMatrix(vec![]),
            row_commitments: vec![],
            combined_column_proofs: vec![],
        };
        assert_eq!(encoder.encode(&[], rows).unwrap_err(), DaError::EmptyBlob);
    }
}

#[test]
fn round_trip_gives_the_padded_blob() {
    for columns in [2usize, 4, 8] {
        for chunks in [1usize, 2, 4, 8, 10] {
            let blob = create_test_data(chunks * CHUNK_SIZE);
            let encoder = DaEncoder::new(DaEncoderParams::default_with(columns));
            let encoded = encode(&encoder, &blob).unwrap();
            let out = reconstruct(&data_shares(&encoded), columns).unwrap();
            let per_row = columns / 2;
            let rows = (chunks + per_row - 1) / per_row;
            assert_eq!(out.len(), rows * per_row * CHUNK_SIZE);
            assert_eq!(&out[..blob.len()], blob.as_slice());
            assert!(out[blob.len()..].iter().all(|b| *b == 0));
            if chunks % per_row == 0 {
                assert_eq!(out, padded(&blob));
            }
        }
    }
}

#[test]
fn round_trip_with_padding_encoder() {
    for len in [1usize, 30, 31, 32, 61, 62, 100, 310] {
        let blob = create_test_data(len);
        let encoder = DaEncoder::new(DaEncoderParams::new(4, nomos_da_ffi::padding::PaddingMode::ZeroPad));
        let encoded = encode(&encoder, &blob).unwrap();
        assert_eq!(encoded.data(), &padded(&blob));
        let out = reconstruct(&data_shares(&encoded), 4).unwrap();
        assert_eq!(out.len() % (2 * CHUNK_SIZE), 0);
        assert_eq!(&out[..blob.len()], blob.as_slice());
        assert!(out[blob.len()..].iter().all(|b| *b == 0));
    }
}

#[test]
fn reconstruct_takes_shares_in_any_order() {
    let encoder = DaEncoder::new(DaEncoderParams::default_with(8));
    let blob = create_test_data(8 * CHUNK_SIZE);
    let encoded = encode(&encoder, &blob).unwrap();
    let mut shares = data_shares(&encoded);
    shares.reverse();
    assert_eq!(reconstruct(&shares, 8).unwrap(), blob);
    shares.swap(0, 2);
    assert_eq!(reconstruct(&shares, 8).unwrap(), blob);
}

#[test]
fn reconstruct_needs_every_data_column() {
    let encoder = DaEncoder::new(DaEncoderParams::default_with(4));
    let blob = create_test_data(4 * CHUNK_SIZE);
    let encoded = encode(&encoder, &blob).unwrap();
    let failed = |n: usize| DaError::EmptyReconstruction { share_count: n };
    assert_eq!(failed(1).result(), NomosDaResult::ErrorInternal);

    // fewer shares than chunks in a row
    assert_eq!(reconstruct(&[encoded.get_share(0).unwrap()], 4).unwrap_err(), failed(1));
    assert_eq!(reconstruct(&[encoded.get_share(1).unwrap()], 4).unwrap_err(), failed(1));
    // no share at all
    let error = reconstruct(&[], 4).unwrap_err();
    assert_eq!(error, failed(0));
    assert_eq!(error.result(), NomosDaResult::ErrorInternal);
    // a data column is missing
    let shares = vec![encoded.get_share(0).unwrap(), encoded.get_share(2).unwrap()];
    assert_eq!(reconstruct(&shares, 4).unwrap_err(), failed(2));
    let shares = vec![encoded.get_share(2).unwrap(), encoded.get_share(3).unwrap()];
    assert_eq!(reconstruct(&shares, 4).unwrap_err(), failed(2));
    // a data column twice and the other not
    let shares = vec![encoded.get_share(0).unwrap(), encoded.get_share(0).unwrap()];
    assert_eq!(reconstruct(&shares, 4).unwrap_err(), failed(2));
    // the rows of the shares taken differ
    let mut shares = data_shares(&encoded);
    shares[1].column.0.pop();
    assert_eq!(reconstruct(&shares, 4).unwrap_err(), failed(2));
    // a share with a cell that is no chunk gives no data
    let mut shares = data_shares(&encoded);
    shares[0].column.0[1].0.push(0);
    assert_eq!(reconstruct(&shares, 4).unwrap_err(), failed(2));
    // nor does a share without rows
    let mut shares = data_shares(&encoded);
    shares[0].column.0.clear();
    shares[1].column.0.clear();
    assert_eq!(reconstruct(&shares, 4).unwrap_err(), failed(2));
    // the same two shares are not the data of an encoding in eight columns
    assert_eq!(reconstruct(&data_shares(&encoded), 8).unwrap_err(), failed(2));
}

#[test]
fn reconstruct_takes_the_data_columns_and_ignores_the_rest() {
    let encoder = DaEncoder::new(DaEncoderParams::default_with(4));
    let blob = create_test_data(4 * CHUNK_SIZE);
    let encoded = encode(&encoder, &blob).unwrap();

    // all shares of the encoding
    let all: Vec<DaShare> = (0..4).map(|i| encoded.get_share(i).unwrap()).collect();
    assert_eq!(reconstruct(&all, 4).unwrap(), blob);
    // three of them, in another order
    let shares =
        vec![encoded.get_share(3).unwrap(), encoded.get_share(1).unwrap(), encoded.get_share(0).unwrap()];
    assert_eq!(reconstruct(&shares, 4).unwrap(), blob);
    // a share of a data column twice
    let shares =
        vec![encoded.get_share(1).unwrap(), encoded.get_share(0).unwrap(), encoded.get_share(1).unwrap()];
    assert_eq!(reconstruct(&shares, 4).unwrap(), blob);
    // a share that gives no data is passed over for one that does
    let mut broken = encoded.get_share(0).unwrap();
    broken.column.0[0].0.pop();
    let shares = vec![broken, encoded.get_share(1).unwrap(), encoded.get_share(0).unwrap()];
    assert_eq!(reconstruct(&shares, 4).unwrap(), blob);
    // what the other shares hold does not matter
    let mut other = encoded.get_share(2).unwrap();
    other.column.0.clear();
    let shares = vec![other, encoded.get_share(1).unwrap(), encoded.get_share(0).unwrap()];
    assert_eq!(reconstruct(&shares, 4).unwrap(), blob);
    // one row of one chunk in four columns: all four shares give the padded row
    let short = create_test_data(CHUNK_SIZE);
    let encoded = encode(&encoder, &short).unwrap();
    let all: Vec<DaShare> = (0..4).map(|i| encoded.get_share(i).unwrap()).collect();
    let out = reconstruct(&all, 4).unwrap();
    assert_eq!(out.len(), 62);
    assert_eq!(&out[..31], short.as_slice());
    assert_eq!(&out[31..], &[0u8; 31]);
    // a single data column of a two-column encoding is all of its data
    let narrow = DaEncoder::new(DaEncoderParams::default_with(2));
    let encoded = encode(&narrow, &blob).unwrap();
    assert_eq!(reconstruct(&[encoded.get_share(0).unwrap()], 2).unwrap(), blob);
    assert_eq!(
        reconstruct(&[encoded.get_share(1).unwrap(), encoded.get_share(0).unwrap()], 2).unwrap(),
        blob
    );
}

#[test]
fn reconstruct_refuses_bad_column_counts() {
    let encoder = DaEncoder::new(DaEncoderParams::default_with(4));
    let blob = create_test_data(2 * CHUNK_SIZE);
    let encoded = encode(&encoder, &blob).unwrap();
    let shares = data_shares(&encoded);
    for columns in [0usize, 1, 3, 5, 65537] {
        let error = reconstruct(&shares, columns).unwrap_err();
        assert_eq!(error, DaError::InvalidColumnCount { column_count: columns });
        assert_eq!(error.result(), NomosDaResult::ErrorInvalidInput);
        // without a share there is nothing to reconstruct, whatever the columns
        assert_eq!(
            reconstruct(&[], columns).unwrap_err(),
            DaError::EmptyReconstruction { share_count: 0 }
        );
    }
}

#[test]
fn encoding_twice_gives_the_same() {
    let encoder = DaEncoder::new(DaEncoderParams::default_with(8));
    let blob = create_test_data(10 * CHUNK_SIZE);
    let rows = stand_in_rows(&chunkify(&blob, 8), 8);
    let first = encoder.encode(&blob, stand_in_rows(&chunkify(&blob, 8), 8)).unwrap();
    let second = encoder.encode(&blob, stand_in_rows(&chunkify(&blob, 8), 8)).unwrap();
    // the commitments and proofs are those that were handed in
    assert_eq!(first.row_commitments(), &rows.row_commitments);
    assert_eq!(first.combined_column_proofs(), &rows.combined_column_proofs);
    assert_eq!(first.extended_data(), &rows.extended_data);
    assert_eq!(first.row_commitments(), second.row_commitments());
    assert_eq!(first.combined_column_proofs(), second.combined_column_proofs());
    assert_eq!(first, second);
}

#[test]
fn bounds_are_checked() {
    let encoder = DaEncoder::new(DaEncoderParams::default_with(4));
    let blob = create_test_data(CHUNK_SIZE);
    let encoded = encode(&encoder, &blob).unwrap();
    for index in [4usize, 5, 65535, 65536, usize::MAX] {
        let error = encoded.get_share(index).unwrap_err();
        assert_eq!(error, DaError::ShareIndexOutOfBounds { index, share_count: 4 });
        assert_eq!(error.result(), NomosDaResult::ErrorInvalidInput);
        assert!(encoded.to_da_share(index).is_none());
    }
    let share = encoded.get_share(3).unwrap();
    assert!(!verify_share(&share, 0));
    let (light, commitments) = share.into_share_and_commitments();
    assert!(!verify(&light, &commitments, 0, true));
}

// The opening check here is the stand-in. What the library adds is that a
// share of an encoding is judged by that check alone.
#[test]
fn every_share_verifies_and_a_flipped_byte_does_not() {
    for columns in [2usize, 4, 8] {
        let encoder = DaEncoder::new(DaEncoderParams::default_with(columns));
        let blob = create_test_data(5 * CHUNK_SIZE);
        let encoded = encode(&encoder, &blob).unwrap();
        let rows = encoded.chunked_data().0.len();
        for i in 0..columns {
            let share = encoded.get_share(i).unwrap();
            assert!(verify_share(&share, rows));
            let (light, commitments) = share.clone().into_share_and_commitments();
            assert!(verify(&light, &commitments, rows, true));
            assert!(!verify(&light, &commitments, rows, false));
            for r in 0..rows {
                let mut bad = share.clone();
                bad.column.0[r].0[3] ^= 1;
                assert!(!verify_share(&bad, rows));
            }
        }
    }
}

#[test]
fn verify_needs_one_cell_for_each_commitment() {
    let encoder = DaEncoder::new(DaEncoderParams::default_with(4));
    let blob = create_test_data(4 * CHUNK_SIZE);
    let encoded = encode(&encoder, &blob).unwrap();
    let (light, mut commitments) = encoded.get_share(1).unwrap().into_share_and_commitments();
    assert!(verify(&light, &commitments, 2, true));
    assert!(!verify(&light, &commitments, 2, false));
    commitments.rows_commitments.pop();
    assert!(!verify(&light, &commitments, 2, true));
}

#[test]
fn encode_refuses_rows_that_do_not_fit() {
    let encoder = DaEncoder::new(DaEncoderParams::default_with(4));
    let blob = create_test_data(3 * CHUNK_SIZE);
    let chunked = chunkify(&blob, 4);
    let failed = DaError::InconsistentEncoding { data_len: blob.len() };
    assert_eq!(failed.result(), NomosDaResult::ErrorInternal);

    assert!(encoder.encode(&blob, stand_in_rows(&chunked, 4)).is_ok());

    let mut rows = stand_in_rows(&chunked, 4);
    rows.extended_data.0[0].0[1].0[5] ^= 0x80;
    assert_eq!(encoder.encode(&blob, rows).unwrap_err(), failed);

    // the second row is short: its second cell must be a zero chunk
    let mut rows = stand_in_rows(&chunked, 4);
    rows.extended_data.0[1].0[1].0[0] = 1;
    assert_eq!(encoder.encode(&blob, rows).unwrap_err(), failed);

    let mut rows = stand_in_rows(&chunked, 4);
    rows.extended_data.0[1].0.pop();
    assert_eq!(encoder.encode(&blob, rows).unwrap_err(), failed);

    let mut rows = stand_in_rows(&chunked, 4);
    rows.extended_data.0.pop();
    assert_eq!(encoder.encode(&blob, rows).unwrap_err(), failed);

    let mut rows = stand_in_rows(&chunked, 4);
    rows.row_commitments.pop();
    assert_eq!(encoder.encode(&blob, rows).unwrap_err(), failed);

    let mut rows = stand_in_rows(&chunked, 4);
    rows.combined_column_proofs.push(Proof(vec![]));
    assert_eq!(encoder.encode(&blob, rows).unwrap_err(), failed);

    // what stands in the other half of a row is not the library's to judge,
    // but for its width: that of a chunk or of a field element
    for (width, fits) in [(0usize, false), (30, false), (31, true), (32, true), (33, false)] {
        let mut rows = stand_in_rows(&chunked, 4);
        rows.extended_data.0[0].0[3] = Chunk(vec![0xFF; width]);
        assert_eq!(encoder.encode(&blob, rows).is_ok(), fits);
        let mut rows = stand_in_rows(&chunked, 4);
        rows.extended_data.0[1].0[2] = Chunk(vec![0xFF; width]);
        assert_eq!(encoder.encode(&blob, rows).map_err(|e| e.result()).err(), if fits { None } else { Some(NomosDaResult::ErrorInternal) });
    }
}

#[test]
fn encode_refuses_bad_column_counts() {
    let blob = create_test_data(CHUNK_SIZE);
    for columns in [0usize, 1, 3, 7, 65537, 65538] {
        let encoder = DaEncoder::new(DaEncoderParams::default_with(columns));
        let error = encoder.prepare(&blob).unwrap_err();
        assert_eq!(error, DaError::InvalidColumnCount { column_count: columns });
        assert_eq!(error.result(), NomosDaResult::ErrorInvalidInput);
        let rows = EncodedRows {
            extended_data: ChunksMatrix(vec![]),
            row_commitments: vec![],
            combined_column_proofs: vec![],
        };
        assert_eq!(encoder.encode(&blob, rows).unwrap_err(), error);
        // the blob is judged before the columns
        assert_eq!(encoder.prepare(&[]).unwrap_err(), DaError::EmptyBlob);
        assert_eq!(
            encoder.prepare(&blob[..30]).unwrap_err(),
            DaError::UnalignedBlob { data_len: 30 }
        );
    }
}

#[test]
fn share_splits_into_light_share_and_commitments() {
    let encoder = DaEncoder::new(DaEncoderParams::default_with(4));
    let blob = create_test_data(4 * CHUNK_SIZE);
    let encoded = encode(&encoder, &blob).unwrap();
    let share = encoded.get_share(2).unwrap();
    let (light, commitments) = share.clone().into_share_and_commitments();
    assert_eq!(light.share_idx, 2);
    assert_eq!(light.column, share.column);
    assert_eq!(light.combined_column_proof, share.combined_column_proof);
    assert_eq!(&commitments.rows_commitments, encoded.row_commitments());
    assert_eq!(light.column.0.len(), 2);
    assert_eq!(light.column.0[0], encoded.extended_data().0[0].0[2]);
    assert_eq!(light.column.0[1], encoded.extended_data().0[1].0[2]);
    assert_eq!(light.combined_column_proof, encoded.combined_column_proofs()[2]);
}

#[test]
fn get_data_copies_to_the_front() {
    let encoder = DaEncoder::new(DaEncoderParams::default_with(4));
    let blob = create_test_data(2 * CHUNK_SIZE);
    let encoded = encode(&encoder, &blob).unwrap();
    let mut out = vec![0xAAu8; 70];
    assert_eq!(encoded.get_data(&mut out), Ok(62));
    assert_eq!(&out[..62], blob.as_slice());
    assert_eq!(&out[62..], &[0xAAu8; 8]);
    let mut exact = vec![0u8; 62];
    assert_eq!(encoded.get_data(&mut exact), Ok(62));
    assert_eq!(exact, blob);
    let mut short = vec![9u8; 61];
    assert_eq!(encoded.get_data(&mut short), Err(DaError::BufferTooSmall { needed: 62 }));
    assert_eq!(short, vec![9u8; 61]);
}
