//! The diagnostics that go with failures, as text.

use vstd::prelude::*;
use vstd::string::*;
use crate::chunks::CHUNK_SIZE;
use crate::error::{DaError, Payload};
use crate::verification::Rejection;

verus! {

/// The character of a decimal digit.
pub open spec fn digit(d: nat) -> char {
    if d == 0 {
        '0'
    } else if d == 1 {
        '1'
    } else if d == 2 {
        '2'
    } else if d == 3 {
        '3'
    } else if d == 4 {
        '4'
    } else if d == 5 {
        '5'
    } else if d == 6 {
        '6'
    } else if d == 7 {
        '7'
    } else if d == 8 {
        '8'
    } else {
        '9'
    }
}

/// `n` in decimal digits, without leading zeros.
pub open spec fn decimal(n: nat) -> Seq<char>
    decreases n,
{
    if n < 10 {
        seq![digit(n)]
    } else {
        decimal(n / 10).push(digit(n % 10))
    }
}

/// The text of one decimal digit.
fn digit_text(d: usize) -> (text: &'static str)
    requires
        d < 10,
    ensures
        text@ == seq![digit(d as nat)],
{
    proof {
        reveal_strlit("0");
        reveal_strlit("1");
        reveal_strlit("2");
        reveal_strlit("3");
        reveal_strlit("4");
        reveal_strlit("5");
        reveal_strlit("6");
        reveal_strlit("7");
        reveal_strlit("8");
        reveal_strlit("9");
    }
    let text = if d == 0 {
        "0"
    } else if d == 1 {
        "1"
    } else if d == 2 {
        "2"
    } else if d == 3 {
        "3"
    } else if d == 4 {
        "4"
    } else if d == 5 {
        "5"
    } else if d == 6 {
        "6"
    } else if d == 7 {
        "7"
    } else if d == 8 {
        "8"
    } else {
        "9"
    };
    assert(text@ =~= seq![digit(d as nat)]);
    text
}

/// Appends `n` in decimal digits to `out`.
pub fn push_decimal(out: &mut String, n: usize)
    ensures
        final(out)@ == old(out)@ + decimal(n as nat),
    decreases n,
{
    if n >= 10 {
        push_decimal(out, n / 10);
    }
    out.append(digit_text(n % 10));
    assert(out@ =~= old(out)@ + decimal(n as nat));
}

/// The diagnostic of an encoding that failed for the reason `detail`, on a
/// blob of `data_len` bytes.
pub open spec fn encoding_failure_text(detail: Seq<char>, data_len: nat) -> Seq<char> {
    "Encoding error: "@ + detail + " (data_len: "@ + decimal(data_len) + ", chunk_size: "@
        + decimal(CHUNK_SIZE as nat) + ")"@
}

/// The diagnostic of bytes that could not be read as a `payload`, for the
/// reason `detail`.
pub open spec fn decoding_failure_text(payload: Payload, detail: Seq<char>, data_len: nat) -> Seq<
    char,
> {
    (match payload {
        Payload::Share => "Share deserialization error: "@,
        Payload::Commitments => "Commitments deserialization error: "@,
    }) + detail + " (data_len: "@ + decimal(data_len) + ")"@
}

/// The diagnostic that goes with a failure, where one goes with it.
pub open spec fn error_text(error: DaError) -> Option<Seq<char>> {
    match error {
        DaError::InvalidColumnCount { column_count } => Some(
            "Column count must be even and between 2 and 65536, got "@ + decimal(
                column_count as nat,
            ),
        ),
        DaError::EmptyBlob => Some(
            "Data length must be greater than 0 (chunk_size: "@ + decimal(CHUNK_SIZE as nat)
                + ")"@,
        ),
        DaError::UnalignedBlob { data_len } => Some(
            "Data length must be a multiple of chunk size (data_len: "@ + decimal(data_len as nat)
                + ", chunk_size: "@ + decimal(CHUNK_SIZE as nat) + ")"@,
        ),
        DaError::InconsistentEncoding { data_len } => Some(
            encoding_failure_text("InconsistentEncoding"@, data_len as nat),
        ),
        DaError::BufferTooSmall { .. } => None,
        DaError::ShareIndexOutOfBounds { index, share_count } => Some(
            "Share index "@ + decimal(index as nat) + " is out of bounds. Valid range: 0.."@
                + decimal(share_count as nat) + " (share_count: "@ + decimal(share_count as nat)
                + ")"@,
        ),
        DaError::EmptyReconstruction { share_count } => Some(
            "Reconstructed data is empty (share_count: "@ + decimal(share_count as nat) + ")"@,
        ),
        DaError::EmptyInput => Some("Data length must be greater than 0, got "@ + decimal(0)),
        DaError::Malformed { payload, data_len } => Some(
            decoding_failure_text(payload, "Malformed"@, data_len as nat),
        ),
    }
}

/// The diagnostic that goes with a share that was not accepted.
pub open spec fn rejection_text(why: Rejection) -> Seq<char> {
    match why {
        Rejection::ZeroRowsDomain => "Rows domain size must be greater than 0, got "@ + decimal(0),
        Rejection::Failed { share_idx, rows_domain_size } => "Share verification failed (share_idx: "@
            + decimal(share_idx as nat) + ", rows_domain_size: "@ + decimal(
            rows_domain_size as nat,
        ) + ")"@,
    }
}

/// The diagnostic of an encoding that failed for the reason `detail`, on a
/// blob of `data_len` bytes.
pub fn encoding_failure(detail: &str, data_len: usize) -> (text: String)
    ensures
        text@ == encoding_failure_text(detail@, data_len as nat),
{
    let mut text = String::from_str("Encoding error: ");
    text.append(detail);
    text.append(" (data_len: ");
    push_decimal(&mut text, data_len);
    text.append(", chunk_size: ");
    push_decimal(&mut text, CHUNK_SIZE);
    text.append(")");
    text
}

/// The diagnostic of bytes that could not be read as a `payload`, for the
/// reason `detail`.
pub fn decoding_failure(payload: Payload, detail: &str, data_len: usize) -> (text: String)
    ensures
        text@ == decoding_failure_text(payload, detail@, data_len as nat),
{
    let mut text = match payload {
        Payload::Share => String::from_str("Share deserialization error: "),
        Payload::Commitments => String::from_str("Commitments deserialization error: "),
    };
    text.append(detail);
    text.append(" (data_len: ");
    push_decimal(&mut text, data_len);
    text.append(")");
    text
}

impl DaError {
    /// The diagnostic that goes with this failure. A buffer that is too
    /// small has none: the length that is needed says it all.
    pub fn message(&self) -> (text: Option<String>)
        ensures
            match text {
                Some(t) => error_text(*self) == Some(t@),
                None => error_text(*self) is None,
            },
    {
        match *self {
            DaError::InvalidColumnCount { column_count } => {
                let mut text = String::from_str(
                    "Column count must be even and between 2 and 65536, got ",
                );
                push_decimal(&mut text, column_count);
                Some(text)
            },
            DaError::EmptyBlob => {
                let mut text = String::from_str("Data length must be greater than 0 (chunk_size: ");
                push_decimal(&mut text, CHUNK_SIZE);
                text.append(")");
                Some(text)
            },
            DaError::UnalignedBlob { data_len } => {
                let mut text = String::from_str(
                    "Data length must be a multiple of chunk size (data_len: ",
                );
                push_decimal(&mut text, data_len);
                text.append(", chunk_size: ");
                push_decimal(&mut text, CHUNK_SIZE);
                text.append(")");
                Some(text)
            },
            DaError::InconsistentEncoding { data_len } => Some(
                encoding_failure("InconsistentEncoding", data_len),
            ),
            DaError::BufferTooSmall { .. } => None,
            DaError::ShareIndexOutOfBounds { index, share_count } => {
                let mut text = String::from_str("Share index ");
                push_decimal(&mut text, index);
                text.append(" is out of bounds. Valid range: 0..");
                push_decimal(&mut text, share_count);
                text.append(" (share_count: ");
                push_decimal(&mut text, share_count);
                text.append(")");
                Some(text)
            },
            DaError::EmptyReconstruction { share_count } => {
                let mut text = String::from_str("Reconstructed data is empty (share_count: ");
                push_decimal(&mut text, share_count);
                text.append(")");
                Some(text)
            },
            DaError::EmptyInput => {
                let mut text = String::from_str("Data length must be greater than 0, got ");
                push_decimal(&mut text, 0);
                Some(text)
            },
            DaError::Malformed { payload, data_len } => Some(
                decoding_failure(payload, "Malformed", data_len),
            ),
        }
    }
}

impl Rejection {
    /// The diagnostic that goes with this rejection.
    pub fn message(&self) -> (text: String)
        ensures
            text@ == rejection_text(*self),
    {
        match *self {
            Rejection::ZeroRowsDomain => {
                let mut text = String::from_str("Rows domain size must be greater than 0, got ");
                push_decimal(&mut text, 0);
                text
            },
            Rejection::Failed { share_idx, rows_domain_size } => {
                let mut text = String::from_str("Share verification failed (share_idx: ");
                push_decimal(&mut text, share_idx as usize);
                text.append(", rows_domain_size: ");
                push_decimal(&mut text, rows_domain_size);
                text.append(")");
                text
            },
        }
    }
}

} // verus!
