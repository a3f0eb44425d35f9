//! The byte form in which shares and commitments cross a boundary.
//!
//! A length or a count is eight bytes, least significant first. A byte
//! string is its length and then its bytes. A list is its count and then
//! its byte strings. A share is its index in two bytes, least significant
//! first, then its column as a list, its proof as a byte string and its
//! commitments as a list. Commitments alone are a list.

use vstd::prelude::*;
use vstd::bytes::*;
use vstd::slice::{slice_subrange, slice_to_vec};
use crate::chunks::{Chunk, Column};
use crate::error::{DaError, Payload};
use crate::share::{Commitment, DaShare, DaShareView, DaSharesCommitments, Proof};
use crate::status::NomosDaResult;

verus! {

/// Whether the lengths in `items` and their number can be written down.
pub open spec fn items_encodable(items: Seq<Seq<u8>>) -> bool {
    &&& items.len() <= u64::MAX
    &&& forall|i: int| 0 <= i < items.len() ==> (#[trigger] items[i]).len() <= u64::MAX
}

/// Whether every length and count in the share can be written down.
pub open spec fn share_encodable(share: DaShareView) -> bool {
    &&& items_encodable(share.column)
    &&& share.combined_column_proof.len() <= u64::MAX
    &&& items_encodable(share.rows_commitments)
}

/// A length or a count, as bytes.
pub open spec fn len_encoding(n: nat) -> Seq<u8> {
    spec_u64_to_le_bytes(n as u64)
}

/// A byte string, as bytes.
pub open spec fn bytes_encoding(bytes: Seq<u8>) -> Seq<u8> {
    len_encoding(bytes.len()) + bytes
}

/// Byte strings one after the other, as bytes.
pub open spec fn items_encoding(items: Seq<Seq<u8>>) -> Seq<u8>
    decreases items.len(),
{
    if items.len() == 0 {
        Seq::empty()
    } else {
        items_encoding(items.drop_last()) + bytes_encoding(items.last())
    }
}

/// A list of byte strings, as bytes.
pub open spec fn list_encoding(items: Seq<Seq<u8>>) -> Seq<u8> {
    len_encoding(items.len()) + items_encoding(items)
}

/// A share, as bytes.
pub open spec fn share_encoding(share: DaShareView) -> Seq<u8> {
    spec_u16_to_le_bytes(share.share_idx) + list_encoding(share.column) + bytes_encoding(
        share.combined_column_proof,
    ) + list_encoding(share.rows_commitments)
}

/// The commitments of all rows, as bytes.
pub open spec fn commitments_encoding(commitments: Seq<Seq<u8>>) -> Seq<u8> {
    list_encoding(commitments)
}

/// Whether `part` stands in `input` from `pos` on.
pub open spec fn occurs_at(input: Seq<u8>, pos: int, part: Seq<u8>) -> bool {
    &&& 0 <= pos
    &&& pos + part.len() <= input.len()
    &&& input.subrange(pos, pos + part.len()) == part
}

/// Two parts stand one after the other exactly when their concatenation
/// stands there.
pub proof fn lemma_occurs_concat(input: Seq<u8>, pos: int, a: Seq<u8>, b: Seq<u8>)
    ensures
        occurs_at(input, pos, a + b) <==> occurs_at(input, pos, a) && occurs_at(
            input,
            pos + a.len(),
            b,
        ),
{
    if occurs_at(input, pos, a + b) {
        let whole = input.subrange(pos, pos + (a + b).len());
        assert(input.subrange(pos, pos + a.len()) =~= whole.subrange(0, a.len() as int));
        assert((a + b).subrange(0, a.len() as int) =~= a);
        assert(input.subrange(pos + a.len(), pos + a.len() + b.len()) =~= whole.subrange(
            a.len() as int,
            (a + b).len() as int,
        ));
        assert((a + b).subrange(a.len() as int, (a + b).len() as int) =~= b);
    }
    if occurs_at(input, pos, a) && occurs_at(input, pos + a.len(), b) {
        assert(input.subrange(pos, pos + (a + b).len()) =~= input.subrange(pos, pos + a.len())
            + input.subrange(pos + a.len(), pos + a.len() + b.len()));
    }
}

/// Appending one byte string to a run appends its encoding.
pub proof fn lemma_items_encoding_push(items: Seq<Seq<u8>>, next: Seq<u8>)
    ensures
        items_encoding(items.push(next)) == items_encoding(items) + bytes_encoding(next),
{
    assert(items.push(next).drop_last() =~= items);
}

/// Putting one byte string before a run puts its encoding before.
pub proof fn lemma_items_encoding_front(first: Seq<u8>, rest: Seq<Seq<u8>>)
    ensures
        items_encoding(seq![first] + rest) == bytes_encoding(first) + items_encoding(rest),
    decreases rest.len(),
{
    if rest.len() == 0 {
        assert(seq![first] + rest =~= seq![first]);
        assert(seq![first].drop_last() =~= Seq::<Seq<u8>>::empty());
        assert(seq![first].last() == first);
        assert(items_encoding(Seq::<Seq<u8>>::empty()) =~= Seq::<u8>::empty());
        assert(items_encoding(seq![first]) =~= bytes_encoding(first));
        assert(bytes_encoding(first) + items_encoding(rest) =~= bytes_encoding(first));
    } else {
        let whole = seq![first] + rest;
        assert(whole.drop_last() =~= seq![first] + rest.drop_last());
        assert(whole.last() == rest.last());
        lemma_items_encoding_front(first, rest.drop_last());
        assert(items_encoding(whole) =~= bytes_encoding(first) + items_encoding(rest));
    }
}

/// The length read at `pos`, and the position behind it.
pub open spec fn take_len(input: Seq<u8>, pos: int) -> Option<(nat, int)> {
    if 0 <= pos && pos + 8 <= input.len() {
        Some((spec_u64_from_le_bytes(input.subrange(pos, pos + 8)) as nat, pos + 8))
    } else {
        None
    }
}

/// The byte string read at `pos`, and the position behind it.
pub open spec fn take_bytes(input: Seq<u8>, pos: int) -> Option<(Seq<u8>, int)> {
    match take_len(input, pos) {
        Some((n, p)) => if p + n <= input.len() {
            Some((input.subrange(p, p + n), p + n))
        } else {
            None
        },
        None => None,
    }
}

/// The `count` byte strings read from `pos` on, and the position behind them.
pub open spec fn take_items(input: Seq<u8>, pos: int, count: nat) -> Option<(Seq<Seq<u8>>, int)>
    decreases count,
{
    if count == 0 {
        Some((Seq::empty(), pos))
    } else {
        match take_bytes(input, pos) {
            Some((first, p)) => match take_items(input, p, (count - 1) as nat) {
                Some((rest, q)) => Some((seq![first] + rest, q)),
                None => None,
            },
            None => None,
        }
    }
}

/// The list read at `pos`, and the position behind it.
pub open spec fn take_list(input: Seq<u8>, pos: int) -> Option<(Seq<Seq<u8>>, int)> {
    match take_len(input, pos) {
        Some((count, p)) => take_items(input, p, count),
        None => None,
    }
}

/// What was read as a length stands there as the encoding of that length.
pub proof fn lemma_take_len_sound(input: Seq<u8>, pos: int)
    requires
        take_len(input, pos) is Some,
    ensures
        ({
            let (n, p) = take_len(input, pos)->Some_0;
            &&& n <= u64::MAX
            &&& p == pos + 8
            &&& occurs_at(input, pos, len_encoding(n))
        }),
{
    lemma_auto_spec_u64_to_from_le_bytes();
    let part = input.subrange(pos, pos + 8);
    assert(spec_u64_to_le_bytes(spec_u64_from_le_bytes(part)) == part);
}

/// Where the encoding of a length stands, that length is read.
pub proof fn lemma_take_len_complete(input: Seq<u8>, pos: int, n: nat)
    requires
        n <= u64::MAX,
        occurs_at(input, pos, len_encoding(n)),
    ensures
        take_len(input, pos) == Some((n, pos + 8)),
{
    lemma_auto_spec_u64_to_from_le_bytes();
    assert(spec_u64_to_le_bytes(n as u64).len() == 8);
}

/// What was read as a byte string stands there as its encoding.
pub proof fn lemma_take_bytes_sound(input: Seq<u8>, pos: int)
    requires
        take_bytes(input, pos) is Some,
    ensures
        ({
            let (bytes, p) = take_bytes(input, pos)->Some_0;
            &&& bytes.len() <= u64::MAX
            &&& p == pos + bytes_encoding(bytes).len()
            &&& occurs_at(input, pos, bytes_encoding(bytes))
        }),
{
    lemma_auto_spec_u64_to_from_le_bytes();
    lemma_take_len_sound(input, pos);
    let (n, p) = take_len(input, pos)->Some_0;
    let bytes = input.subrange(p, p + n);
    lemma_occurs_concat(input, pos, len_encoding(n), bytes);
}

/// Where the encoding of a byte string stands, that byte string is read.
pub proof fn lemma_take_bytes_complete(input: Seq<u8>, pos: int, bytes: Seq<u8>)
    requires
        bytes.len() <= u64::MAX,
        occurs_at(input, pos, bytes_encoding(bytes)),
    ensures
        take_bytes(input, pos) == Some((bytes, pos + bytes_encoding(bytes).len())),
{
    lemma_auto_spec_u64_to_from_le_bytes();
    lemma_occurs_concat(input, pos, len_encoding(bytes.len()), bytes);
    lemma_take_len_complete(input, pos, bytes.len());
}

/// What was read as a run of byte strings stands there as its encoding.
pub proof fn lemma_take_items_sound(input: Seq<u8>, pos: int, count: nat)
    requires
        take_items(input, pos, count) is Some,
        0 <= pos <= input.len(),
    ensures
        ({
            let (items, p) = take_items(input, pos, count)->Some_0;
            &&& items.len() == count
            &&& forall|i: int| 0 <= i < items.len() ==> (#[trigger] items[i]).len() <= u64::MAX
            &&& p == pos + items_encoding(items).len()
            &&& occurs_at(input, pos, items_encoding(items))
        }),
    decreases count,
{
    if count == 0 {
        assert(input.subrange(pos, pos) =~= Seq::<u8>::empty());
    } else {
        lemma_take_bytes_sound(input, pos);
        let (first, p) = take_bytes(input, pos)->Some_0;
        lemma_take_items_sound(input, p, (count - 1) as nat);
        let (rest, q) = take_items(input, p, (count - 1) as nat)->Some_0;
        lemma_items_encoding_front(first, rest);
        lemma_occurs_concat(input, pos, bytes_encoding(first), items_encoding(rest));
    }
}

/// Where the encoding of a run of byte strings stands, that run is read.
pub proof fn lemma_take_items_complete(input: Seq<u8>, pos: int, items: Seq<Seq<u8>>)
    requires
        forall|i: int| 0 <= i < items.len() ==> (#[trigger] items[i]).len() <= u64::MAX,
        occurs_at(input, pos, items_encoding(items)),
    ensures
        take_items(input, pos, items.len()) == Some((items, pos + items_encoding(items).len())),
    decreases items.len(),
{
    if items.len() == 0 {
        assert(items =~= Seq::<Seq<u8>>::empty());
    } else {
        let first = items.first();
        let rest = items.drop_first();
        assert(items =~= seq![first] + rest);
        lemma_items_encoding_front(first, rest);
        lemma_occurs_concat(input, pos, bytes_encoding(first), items_encoding(rest));
        lemma_take_bytes_complete(input, pos, first);
        lemma_take_items_complete(input, pos + bytes_encoding(first).len(), rest);
    }
}

/// What was read as a list stands there as its encoding.
pub proof fn lemma_take_list_sound(input: Seq<u8>, pos: int)
    requires
        take_list(input, pos) is Some,
    ensures
        ({
            let (items, p) = take_list(input, pos)->Some_0;
            &&& items_encodable(items)
            &&& p == pos + list_encoding(items).len()
            &&& occurs_at(input, pos, list_encoding(items))
        }),
{
    lemma_auto_spec_u64_to_from_le_bytes();
    lemma_take_len_sound(input, pos);
    let (count, p) = take_len(input, pos)->Some_0;
    lemma_take_items_sound(input, p, count);
    let (items, q) = take_items(input, p, count)->Some_0;
    lemma_occurs_concat(input, pos, len_encoding(count), items_encoding(items));
}

/// Where the encoding of a list stands, that list is read.
pub proof fn lemma_take_list_complete(input: Seq<u8>, pos: int, items: Seq<Seq<u8>>)
    requires
        items_encodable(items),
        occurs_at(input, pos, list_encoding(items)),
    ensures
        take_list(input, pos) == Some((items, pos + list_encoding(items).len())),
{
    lemma_auto_spec_u64_to_from_le_bytes();
    lemma_occurs_concat(input, pos, len_encoding(items.len()), items_encoding(items));
    lemma_take_len_complete(input, pos, items.len());
    lemma_take_items_complete(input, pos + 8, items);
}

/// The share that `input` is the byte form of, if it is one's.
pub open spec fn parse_share(input: Seq<u8>) -> Option<DaShareView> {
    if input.len() < 2 {
        None
    } else {
        match take_list(input, 2) {
            Some((column, p1)) => match take_bytes(input, p1) {
                Some((proof, p2)) => match take_list(input, p2) {
                    Some((commitments, p3)) => if p3 == input.len() {
                        Some(
                            DaShareView {
                                column,
                                share_idx: spec_u16_from_le_bytes(input.subrange(0, 2)),
                                combined_column_proof: proof,
                                rows_commitments: commitments,
                            },
                        )
                    } else {
                        None
                    },
                    None => None,
                },
                None => None,
            },
            None => None,
        }
    }
}

/// The commitments that `input` is the byte form of, if it is any's.
pub open spec fn parse_commitments(input: Seq<u8>) -> Option<Seq<Seq<u8>>> {
    match take_list(input, 0) {
        Some((commitments, p)) => if p == input.len() {
            Some(commitments)
        } else {
            None
        },
        None => None,
    }
}

/// Only the byte form of a share is read as that share.
pub proof fn lemma_parse_share_sound(input: Seq<u8>)
    requires
        parse_share(input) is Some,
    ensures
        share_encodable(parse_share(input)->Some_0),
        share_encoding(parse_share(input)->Some_0) == input,
{
    lemma_auto_spec_u16_to_from_le_bytes();
    let share = parse_share(input)->Some_0;
    let head = spec_u16_to_le_bytes(share.share_idx);
    assert(head == input.subrange(0, 2));
    lemma_take_list_sound(input, 2);
    let (column, p1) = take_list(input, 2)->Some_0;
    lemma_take_bytes_sound(input, p1);
    let (proof, p2) = take_bytes(input, p1)->Some_0;
    lemma_take_list_sound(input, p2);
    let a = head + list_encoding(column);
    let b = a + bytes_encoding(proof);
    lemma_occurs_concat(input, 0, head, list_encoding(column));
    lemma_occurs_concat(input, 0, a, bytes_encoding(proof));
    lemma_occurs_concat(input, 0, b, list_encoding(share.rows_commitments));
    assert(input.subrange(0, input.len() as int) =~= input);
}

/// The byte form of a share is read as that share: writing and reading
/// give the share back.
pub proof fn lemma_share_round_trip(share: DaShareView)
    requires
        share_encodable(share),
    ensures
        parse_share(share_encoding(share)) == Some(share),
{
    lemma_auto_spec_u16_to_from_le_bytes();
    let input = share_encoding(share);
    let head = spec_u16_to_le_bytes(share.share_idx);
    let a = head + list_encoding(share.column);
    let b = a + bytes_encoding(share.combined_column_proof);
    assert(input.subrange(0, input.len() as int) =~= input);
    lemma_occurs_concat(input, 0, b, list_encoding(share.rows_commitments));
    lemma_occurs_concat(input, 0, a, bytes_encoding(share.combined_column_proof));
    lemma_occurs_concat(input, 0, head, list_encoding(share.column));
    assert(input.subrange(0, 2) == head);
    lemma_take_list_complete(input, 2, share.column);
    lemma_take_bytes_complete(input, a.len() as int, share.combined_column_proof);
    lemma_take_list_complete(input, b.len() as int, share.rows_commitments);
}

/// Two shares with the same byte form are the same share.
pub proof fn lemma_share_encoding_injective(a: DaShareView, b: DaShareView)
    requires
        share_encodable(a),
        share_encodable(b),
        share_encoding(a) == share_encoding(b),
    ensures
        a == b,
{
    lemma_share_round_trip(a);
    lemma_share_round_trip(b);
}

/// Only the byte form of commitments is read as those commitments.
pub proof fn lemma_parse_commitments_sound(input: Seq<u8>)
    requires
        parse_commitments(input) is Some,
    ensures
        items_encodable(parse_commitments(input)->Some_0),
        commitments_encoding(parse_commitments(input)->Some_0) == input,
{
    lemma_take_list_sound(input, 0);
    assert(input.subrange(0, input.len() as int) =~= input);
}

/// The byte form of commitments is read as those commitments: writing and
/// reading give them back.
pub proof fn lemma_commitments_round_trip(commitments: Seq<Seq<u8>>)
    requires
        items_encodable(commitments),
    ensures
        parse_commitments(commitments_encoding(commitments)) == Some(commitments),
{
    let input = commitments_encoding(commitments);
    assert(input.subrange(0, input.len() as int) =~= input);
    lemma_take_list_complete(input, 0, commitments);
}

/// A value that is a byte string and nothing else.
pub(crate) trait ByteString: Sized {
    /// The bytes that the value holds.
    spec fn bytes(&self) -> Seq<u8>;

    /// The value that holds `bytes`.
    fn wrap(bytes: Vec<u8>) -> (res: Self)
        ensures
            res.bytes() == bytes@,
    ;

    /// The bytes that the value holds.
    fn raw(&self) -> (bytes: &Vec<u8>)
        ensures
            bytes@ == self.bytes(),
    ;
}

impl ByteString for Chunk {
    open spec fn bytes(&self) -> Seq<u8> {
        self@
    }

    fn wrap(bytes: Vec<u8>) -> (res: Self) {
        Chunk(bytes)
    }

    fn raw(&self) -> (bytes: &Vec<u8>) {
        &self.0
    }
}

impl ByteString for Commitment {
    open spec fn bytes(&self) -> Seq<u8> {
        self@
    }

    fn wrap(bytes: Vec<u8>) -> (res: Self) {
        Commitment(bytes)
    }

    fn raw(&self) -> (bytes: &Vec<u8>) {
        &self.0
    }
}

/// What a list of byte strings holds.
pub(crate) open spec fn items_view<T: ByteString>(list: Seq<T>) -> Seq<Seq<u8>> {
    Seq::new(list.len(), |i: int| list[i].bytes())
}

/// Appends a length to `out`.
fn write_len(out: &mut Vec<u8>, n: usize)
    ensures
        final(out)@ == old(out)@ + len_encoding(n as nat),
{
    let mut bytes = u64_to_le_bytes(n as u64);
    out.append(&mut bytes);
}

/// Appends a byte string to `out`.
fn write_bytes(out: &mut Vec<u8>, bytes: &Vec<u8>)
    ensures
        final(out)@ == old(out)@ + bytes_encoding(bytes@),
        bytes@.len() <= u64::MAX,
{
    write_len(out, bytes.len());
    let ghost before = out@;
    out.extend_from_slice(bytes.as_slice());
    assert(out@ =~= before + bytes@);
    assert(out@ =~= old(out)@ + bytes_encoding(bytes@));
}

/// Appends a list of byte strings to `out`.
fn write_list<T: ByteString>(out: &mut Vec<u8>, list: &Vec<T>)
    ensures
        final(out)@ == old(out)@ + list_encoding(items_view(list@)),
        items_encodable(items_view(list@)),
{
    write_len(out, list.len());
    let ghost before = out@;
    let ghost items = items_view(list@);
    let mut i: usize = 0;
    assert(items.subrange(0, 0) =~= Seq::<Seq<u8>>::empty());
    while i < list.len()
        invariant
            i <= list@.len(),
            items == items_view(list@),
            out@ == before + items_encoding(items.subrange(0, i as int)),
            forall|k: int| 0 <= k < i ==> (#[trigger] items[k]).len() <= u64::MAX,
        decreases list@.len() - i,
    {
        proof {
            lemma_items_encoding_push(items.subrange(0, i as int), items[i as int]);
            assert(items.subrange(0, i as int).push(items[i as int]) =~= items.subrange(
                0,
                i + 1,
            ));
        }
        write_bytes(out, list[i].raw());
        i = i + 1;
        assert(out@ =~= before + items_encoding(items.subrange(0, i as int)));
    }
    assert(items.subrange(0, i as int) =~= items);
    assert(out@ =~= old(out)@ + list_encoding(items));
}

/// Reads a length at `pos`.
fn read_len(input: &[u8], pos: usize) -> (res: Option<(u64, usize)>)
    requires
        pos <= input@.len(),
    ensures
        match res {
            Some((n, p)) => take_len(input@, pos as int) == Some((n as nat, p as int)) && p
                <= input@.len(),
            None => take_len(input@, pos as int) is None,
        },
{
    if input.len() - pos < 8 {
        return None;
    }
    let n = u64_from_le_bytes(slice_subrange(input, pos, pos + 8));
    Some((n, pos + 8))
}

/// Reads a byte string at `pos`.
fn read_bytes(input: &[u8], pos: usize) -> (res: Option<(Vec<u8>, usize)>)
    requires
        pos <= input@.len(),
    ensures
        match res {
            Some((bytes, p)) => take_bytes(input@, pos as int) == Some((bytes@, p as int)) && p
                <= input@.len(),
            None => take_bytes(input@, pos as int) is None,
        },
{
    match read_len(input, pos) {
        None => None,
        Some((n, p)) => {
            if n > (input.len() - p) as u64 {
                return None;
            }
            let end: usize = p + n as usize;
            Some((slice_to_vec(slice_subrange(input, p, end)), end))
        },
    }
}

/// Reads a list of byte strings at `pos`.
fn read_list<T: ByteString>(input: &[u8], pos: usize) -> (res: Option<(Vec<T>, usize)>)
    requires
        pos <= input@.len(),
    ensures
        match res {
            Some((list, p)) => take_list(input@, pos as int) == Some((items_view(list@), p as int))
                && p <= input@.len(),
            None => take_list(input@, pos as int) is None,
        },
{
    let (count, first) = match read_len(input, pos) {
        None => {
            return None;
        },
        Some(found) => found,
    };
    let mut list: Vec<T> = Vec::new();
    let mut p: usize = first;
    let mut i: u64 = 0;
    assert(items_view(list@) =~= Seq::<Seq<u8>>::empty());
    while i < count
        invariant
            i <= count,
            p <= input@.len(),
            take_len(input@, pos as int) == Some((count as nat, first as int)),
            take_items(input@, first as int, count as nat) == (match take_items(
                input@,
                p as int,
                (count - i) as nat,
            ) {
                Some((rest, q)) => Some((items_view(list@) + rest, q)),
                None => None,
            }),
        decreases count - i,
    {
        let ghost before = items_view(list@);
        match read_bytes(input, p) {
            None => {
                return None;
            },
            Some((bytes, q)) => {
                proof {
                    let left = take_items(input@, q as int, (count - i - 1) as nat);
                    if left is Some {
                        let (rest, end) = left->Some_0;
                        assert(before + (seq![bytes@] + rest) =~= before.push(bytes@) + rest);
                    }
                }
                list.push(T::wrap(bytes));
                assert(items_view(list@) =~= before.push(bytes@));
                p = q;
                i = i + 1;
            },
        }
    }
    assert(items_view(list@) + Seq::<Seq<u8>>::empty() =~= items_view(list@));
    Some((list, p))
}

/// The failure of reading `len` bytes that are no value's byte form.
pub open spec fn decode_error(payload: Payload, len: nat) -> DaError {
    if len == 0 {
        DaError::EmptyInput
    } else {
        DaError::Malformed { payload, data_len: len as usize }
    }
}

impl DaShare {
    /// The share's byte form.
    pub fn to_bytes(&self) -> (out: Vec<u8>)
        ensures
            out@ == share_encoding(self@),
            share_encodable(self@),
            parse_share(out@) == Some(self@),
    {
        let mut out = u16_to_le_bytes(self.share_idx);
        write_list(&mut out, &self.column.0);
        write_bytes(&mut out, &self.combined_column_proof.0);
        write_list(&mut out, &self.rows_commitments);
        proof {
            assert(items_view(self.column.0@) =~= self@.column);
            assert(items_view(self.rows_commitments@) =~= self@.rows_commitments);
            lemma_share_round_trip(self@);
        }
        out
    }

    /// The share that `data` is the byte form of. Bytes that are no
    /// share's byte form, to the last byte, are refused.
    pub fn from_bytes(data: &[u8]) -> (res: Result<DaShare, DaError>)
        ensures
            match res {
                Ok(share) => parse_share(data@) == Some(share@) && share_encoding(share@) == data@,
                Err(e) => {
                    &&& parse_share(data@) is None
                    &&& e == decode_error(Payload::Share, data@.len())
                    &&& forall|any: DaShareView| share_encodable(any) ==> #[trigger] share_encoding(any) != data@
                },
            },
            res is Err ==> res->Err_0.spec_result() == NomosDaResult::ErrorInvalidInput,
    {
        let len = data.len();
        let failed = if len == 0 {
            DaError::EmptyInput
        } else {
            DaError::Malformed { payload: Payload::Share, data_len: len }
        };
        proof {
            assert forall|any: DaShareView| share_encodable(any) && parse_share(data@) is None implies #[trigger] share_encoding(any) != data@ by {
                lemma_share_round_trip(any);
            }
            if parse_share(data@) is Some {
                lemma_parse_share_sound(data@);
            }
        }
        if len < 2 {
            return Err(failed);
        }
        let share_idx = u16_from_le_bytes(slice_subrange(data, 0, 2));
        let (cells, p1) = match read_list::<Chunk>(data, 2) {
            None => {
                return Err(failed);
            },
            Some(found) => found,
        };
        let (proof_bytes, p2) = match read_bytes(data, p1) {
            None => {
                return Err(failed);
            },
            Some(found) => found,
        };
        let (rows_commitments, p3) = match read_list::<Commitment>(data, p2) {
            None => {
                return Err(failed);
            },
            Some(found) => found,
        };
        if p3 != len {
            return Err(failed);
        }
        let share = DaShare {
            column: Column(cells),
            share_idx,
            combined_column_proof: Proof(proof_bytes),
            rows_commitments,
        };
        proof {
            assert(items_view(cells@) =~= share@.column);
            assert(items_view(rows_commitments@) =~= share@.rows_commitments);
        }
        Ok(share)
    }
}

impl DaSharesCommitments {
    /// The commitments' byte form.
    pub fn to_bytes(&self) -> (out: Vec<u8>)
        ensures
            out@ == commitments_encoding(self@),
            items_encodable(self@),
            parse_commitments(out@) == Some(self@),
    {
        let mut out: Vec<u8> = Vec::new();
        write_list(&mut out, &self.rows_commitments);
        proof {
            assert(items_view(self.rows_commitments@) =~= self@);
            lemma_commitments_round_trip(self@);
            assert(out@ =~= commitments_encoding(self@));
        }
        out
    }

    /// The commitments that `data` is the byte form of. Bytes that are no
    /// commitments' byte form, to the last byte, are refused.
    pub fn from_bytes(data: &[u8]) -> (res: Result<DaSharesCommitments, DaError>)
        ensures
            match res {
                Ok(commitments) => parse_commitments(data@) == Some(commitments@)
                    && commitments_encoding(commitments@) == data@,
                Err(e) => {
                    &&& parse_commitments(data@) is None
                    &&& e == decode_error(Payload::Commitments, data@.len())
                    &&& forall|any: Seq<Seq<u8>>| items_encodable(any) ==> #[trigger] commitments_encoding(any) != data@
                },
            },
            res is Err ==> res->Err_0.spec_result() == NomosDaResult::ErrorInvalidInput,
    {
        let len = data.len();
        let failed = if len == 0 {
            DaError::EmptyInput
        } else {
            DaError::Malformed { payload: Payload::Commitments, data_len: len }
        };
        proof {
            assert forall|any: Seq<Seq<u8>>| items_encodable(any) && parse_commitments(data@) is None implies #[trigger] commitments_encoding(any) != data@ by {
                lemma_commitments_round_trip(any);
            }
            if parse_commitments(data@) is Some {
                lemma_parse_commitments_sound(data@);
            }
        }
        let (rows_commitments, p) = match read_list::<Commitment>(data, 0) {
            None => {
                return Err(failed);
            },
            Some(found) => found,
        };
        if p != len {
            return Err(failed);
        }
        let commitments = DaSharesCommitments { rows_commitments };
        proof {
            assert(items_view(rows_commitments@) =~= commitments@);
        }
        Ok(commitments)
    }
}

} // verus!
