//! Recovery of the padded blob from shares of its encoding.

use vstd::prelude::*;
use vstd::arithmetic::div_mod::lemma_fundamental_div_mod_converse;
use vstd::relations::injective_on;
use vstd::set_lib::{lemma_int_range, lemma_len_subset, lemma_map_size, set_int_range};
use crate::chunks::CHUNK_SIZE;
use crate::encoder::{valid_column_count, MAX_COLUMN_COUNT};
use crate::error::DaError;
use crate::share::{DaShare, DaShareView};

verus! {

/// What a list of shares holds.
pub open spec fn shares_view(shares: Seq<DaShare>) -> Seq<DaShareView> {
    Seq::new(shares.len(), |i: int| shares[i]@)
}

/// Whether a share can give data: it has a row, and every cell of it is a
/// data chunk.
pub open spec fn usable(share: DaShareView) -> bool {
    &&& share.column.len() > 0
    &&& forall|r: int| 0 <= r < share.column.len() ==> (#[trigger] share.column[r]).len() == CHUNK_SIZE
}

/// Whether the share at place `i` of the list is a usable share of column `c`.
pub open spec fn holds(shares: Seq<DaShareView>, c: int, i: int) -> bool {
    &&& 0 <= i < shares.len()
    &&& shares[i].share_idx == c
    &&& usable(shares[i])
}

/// Whether `i` is the place of the first usable share of column `c` in the list.
pub open spec fn is_place_of(shares: Seq<DaShareView>, c: int, i: int) -> bool {
    &&& holds(shares, c, i)
    &&& forall|j: int| 0 <= j < i ==> !#[trigger] holds(shares, c, j)
}

/// The place of the first usable share of column `c` in the list.
pub open spec fn place_of(shares: Seq<DaShareView>, c: int) -> int {
    choose|i: int| is_place_of(shares, c, i)
}

/// The share that is taken for column `c`: the first usable one of that
/// column in the list.
pub open spec fn taken(shares: Seq<DaShareView>, c: int) -> DaShareView {
    shares[place_of(shares, c)]
}

/// Whether the list has a usable share of column `c`.
pub open spec fn holds_column(shares: Seq<DaShareView>, c: int) -> bool {
    exists|i: int| holds(shares, c, i)
}

/// Whether the shares give the data of an encoding with `per_row` chunks
/// in a row: each of the columns `0..per_row` has a usable share among
/// them, and the shares taken for these columns have the same number of
/// rows. Other shares, and further shares of a column, do not count.
pub open spec fn reconstructible(shares: Seq<DaShareView>, per_row: nat) -> bool {
    &&& per_row > 0
    &&& forall|c: int| 0 <= c < per_row ==> #[trigger] holds_column(shares, c)
    &&& forall|c: int|
        0 <= c < per_row ==> (#[trigger] taken(shares, c)).column.len() == taken(
            shares,
            0,
        ).column.len()
}

/// The bytes that the shares stand for: row after row, and in each row the
/// chunks of the columns `0..per_row` in that order.
pub open spec fn reconstructed(shares: Seq<DaShareView>, per_row: nat) -> Seq<u8> {
    Seq::new(
        taken(shares, 0).column.len() * per_row * CHUNK_SIZE as nat,
        |b: int|
            taken(shares, (b / CHUNK_SIZE as int) % (per_row as int)).column[(b
                / CHUNK_SIZE as int) / (per_row as int)][b % CHUNK_SIZE as int],
    )
}

/// The failure that reconstruction from these shares meets for an
/// encoding in `columns` columns, if any. Without a share there is nothing
/// to reconstruct, whatever the columns.
pub open spec fn reconstruct_error(shares: Seq<DaShareView>, columns: usize) -> Option<DaError> {
    if shares.len() == 0 {
        Some(DaError::EmptyReconstruction { share_count: 0 })
    } else if !valid_column_count(columns as nat) {
        Some(DaError::InvalidColumnCount { column_count: columns })
    } else if !reconstructible(shares, (columns / 2) as nat) {
        Some(DaError::EmptyReconstruction { share_count: shares.len() as usize })
    } else {
        None
    }
}

/// There is one first place at most.
pub proof fn lemma_place_unique(shares: Seq<DaShareView>, c: int, i: int)
    requires
        is_place_of(shares, c, i),
    ensures
        place_of(shares, c) == i,
{
    let j = place_of(shares, c);
    assert(is_place_of(shares, c, j));
    if j < i {
        assert(!holds(shares, c, j));
    } else if i < j {
        assert(!holds(shares, c, i));
    }
}

/// Where the list has a usable share of column `c`, it has a first one.
pub proof fn lemma_first_place(shares: Seq<DaShareView>, c: int, i: int)
    requires
        holds(shares, c, i),
    ensures
        is_place_of(shares, c, place_of(shares, c)),
    decreases i,
{
    if forall|j: int| 0 <= j < i ==> !#[trigger] holds(shares, c, j) {
        assert(is_place_of(shares, c, i));
    } else {
        let j = choose|j: int| 0 <= j < i && #[trigger] holds(shares, c, j);
        lemma_first_place(shares, c, j);
    }
}

/// Fewer shares than an encoding has chunks in a row do not give its data.
pub proof fn lemma_too_few_shares(shares: Seq<DaShareView>, columns: usize)
    requires
        valid_column_count(columns as nat),
        shares.len() < columns / 2,
    ensures
        reconstruct_error(shares, columns) == Some(
            DaError::EmptyReconstruction { share_count: shares.len() as usize },
        ),
{
    let per_row = (columns / 2) as int;
    if shares.len() > 0 && reconstructible(shares, per_row as nat) {
        let wanted = set_int_range(0, per_row);
        let all = set_int_range(0, shares.len() as int);
        let place = |c: int| place_of(shares, c);
        let places = wanted.map(place);
        lemma_int_range(0, per_row);
        lemma_int_range(0, shares.len() as int);
        assert forall|c: int| wanted.contains(c) implies is_place_of(shares, c, #[trigger] place(c)) by {
            assert(holds_column(shares, c));
            let i = choose|i: int| holds(shares, c, i);
            lemma_first_place(shares, c, i);
        }
        assert(injective_on(place, wanted)) by {
            assert forall|a: int, b: int|
                wanted.contains(a) && wanted.contains(b) && #[trigger] place(a) == #[trigger] place(
                    b,
                ) implies a == b by {
                assert(is_place_of(shares, a, place(a)));
                assert(is_place_of(shares, b, place(b)));
            }
        }
        lemma_map_size(wanted, places, place);
        assert(places.subset_of(all)) by {
            assert forall|i: int| places.contains(i) implies all.contains(i) by {
                let c = choose|c: int| wanted.contains(c) && i == place(c);
                assert(is_place_of(shares, c, place(c)));
            }
        }
        lemma_len_subset(places, all);
    }
}

/// Whether a share can give data.
fn is_usable(share: &DaShare) -> (ok: bool)
    ensures
        ok == usable(share@),
{
    let rows = share.column.0.len();
    if rows == 0 {
        return false;
    }
    let mut r: usize = 0;
    while r < rows
        invariant
            r <= rows,
            rows == share@.column.len(),
            forall|q: int| 0 <= q < r ==> (#[trigger] share@.column[q]).len() == CHUNK_SIZE,
        decreases rows - r,
    {
        if share.column.0[r].0.len() != CHUNK_SIZE {
            assert(share@.column[r as int].len() != CHUNK_SIZE);
            return false;
        }
        r = r + 1;
    }
    true
}

/// The place of the first usable share of column `c`, if there is one.
fn find_place(shares: &[DaShare], c: usize) -> (res: Option<usize>)
    ensures
        match res {
            Some(i) => is_place_of(shares_view(shares@), c as int, i as int),
            None => !holds_column(shares_view(shares@), c as int),
        },
{
    let ghost view = shares_view(shares@);
    let mut i: usize = 0;
    while i < shares.len()
        invariant
            i <= shares@.len(),
            view == shares_view(shares@),
            forall|j: int| 0 <= j < i ==> !#[trigger] holds(view, c as int, j),
        decreases shares@.len() - i,
    {
        if shares[i].share_idx as usize == c && is_usable(&shares[i]) {
            assert(holds(view, c as int, i as int));
            return Some(i);
        }
        assert(!holds(view, c as int, i as int));
        i = i + 1;
    }
    None
}

/// Recovers the padded blob of an encoding in `columns` columns from
/// shares of it: the chunks of the columns `0..columns / 2`, row by row.
/// The shares may come in any order and there may be more of them than
/// are needed; of each of these columns the first share is taken that has
/// a row and holds data chunks only. The result is whole rows: where the
/// blob did not fill its last row, zero chunks follow it.
///
/// Fails where one of these columns has no such share, or where the shares
/// taken differ in their number of rows.
pub fn reconstruct(shares: &[DaShare], columns: usize) -> (res: Result<Vec<u8>, DaError>)
    ensures
        match res {
            Ok(data) => reconstruct_error(shares_view(shares@), columns) is None && data@
                == reconstructed(shares_view(shares@), (columns / 2) as nat),
            Err(e) => reconstruct_error(shares_view(shares@), columns) == Some(e),
        },
        shares@.len() == 0 || (valid_column_count(columns as nat) && shares@.len() < columns / 2)
            ==> res == Err::<Vec<u8>, DaError>(
            DaError::EmptyReconstruction { share_count: shares@.len() as usize },
        ),
{
    let ghost view = shares_view(shares@);
    let count = shares.len();
    proof {
        if valid_column_count(columns as nat) && view.len() < columns / 2 {
            lemma_too_few_shares(view, columns);
        }
    }
    let failed = DaError::EmptyReconstruction { share_count: count };
    if count == 0 {
        return Err(failed);
    }
    if columns < 2 || columns % 2 != 0 || columns > MAX_COLUMN_COUNT {
        return Err(DaError::InvalidColumnCount { column_count: columns });
    }
    let n: usize = columns / 2;
    let mut places: Vec<usize> = Vec::new();
    let mut c: usize = 0;
    while c < n
        invariant
            c <= n,
            count == shares@.len(),
            failed == (DaError::EmptyReconstruction { share_count: count }),
            valid_column_count(columns as nat),
            n == columns / 2,
            view == shares_view(shares@),
            places@.len() == c,
            forall|k: int| 0 <= k < c ==> is_place_of(view, k, #[trigger] places@[k] as int),
        decreases n - c,
    {
        match find_place(shares, c) {
            Some(i) => {
                places.push(i);
            },
            None => {
                return Err(failed);
            },
        }
        c = c + 1;
    }
    proof {
        assert forall|k: int| 0 <= k < n implies place_of(view, k) == places@[k] && #[trigger] holds_column(
            view,
            k,
        ) by {
            let i = places@[k] as int;
            assert(is_place_of(view, k, i));
            assert(holds(view, k, i));
            lemma_place_unique(view, k, i);
        }
    }
    let rows = shares[places[0]].column.0.len();
    assert(rows == taken(view, 0).column.len());
    let mut c: usize = 0;
    while c < n
        invariant
            c <= n,
            0 < n == columns / 2,
            count == shares@.len(),
            failed == (DaError::EmptyReconstruction { share_count: count }),
            valid_column_count(columns as nat),
            view == shares_view(shares@),
            places@.len() == n,
            rows == taken(view, 0).column.len(),
            forall|k: int| 0 <= k < n ==> is_place_of(view, k, #[trigger] places@[k] as int),
            forall|k: int| 0 <= k < n ==> place_of(view, k) == #[trigger] places@[k],
            forall|k: int| 0 <= k < c ==> (#[trigger] taken(view, k)).column.len() == rows,
        decreases n - c,
    {
        let place = places[c];
        assert(is_place_of(view, c as int, place as int));
        if shares[place].column.0.len() != rows {
            assert(taken(view, c as int).column.len() != taken(view, 0).column.len());
            return Err(failed);
        }
        c = c + 1;
    }
    assert(reconstructible(view, n as nat));
    let ghost target = reconstructed(view, n as nat);
    let mut out: Vec<u8> = Vec::new();
    let mut r: usize = 0;
    while r < rows
        invariant
            r <= rows,
            n > 0,
            view == shares_view(shares@),
            rows == taken(view, 0).column.len(),
            target == reconstructed(view, n as nat),
            places@.len() == n,
            forall|k: int| 0 <= k < n ==> is_place_of(view, k, #[trigger] places@[k] as int),
            forall|k: int| 0 <= k < n ==> place_of(view, k) == #[trigger] places@[k],
            forall|k: int| 0 <= k < n ==> (#[trigger] taken(view, k)).column.len() == rows,
            out@.len() == r * n * CHUNK_SIZE,
            out@ == target.subrange(0, out@.len() as int),
        decreases rows - r,
    {
        let mut c: usize = 0;
        while c < n
            invariant
                c <= n,
                r < rows,
                n > 0,
                view == shares_view(shares@),
                rows == taken(view, 0).column.len(),
                target == reconstructed(view, n as nat),
                places@.len() == n,
                forall|k: int| 0 <= k < n ==> is_place_of(view, k, #[trigger] places@[k] as int),
                forall|k: int| 0 <= k < n ==> place_of(view, k) == #[trigger] places@[k],
                forall|k: int| 0 <= k < n ==> (#[trigger] taken(view, k)).column.len() == rows,
                out@.len() == (r * n + c) * CHUNK_SIZE,
                out@ == target.subrange(0, out@.len() as int),
            decreases n - c,
        {
            let place = places[c];
            assert(is_place_of(view, c as int, place as int));
            assert(taken(view, c as int).column.len() == rows);
            let chunk = &shares[place].column.0[r];
            assert(chunk@ == taken(view, c as int).column[r as int]);
            proof {
                lemma_cell_bounds(rows as int, n as int, r as int, c as int);
            }
            let mut b: usize = 0;
            while b < CHUNK_SIZE
                invariant
                    b <= CHUNK_SIZE,
                    c < n,
                    r < rows,
                    rows == taken(view, 0).column.len(),
                    target == reconstructed(view, n as nat),
                    chunk@.len() == CHUNK_SIZE,
                    chunk@ == taken(view, c as int).column[r as int],
                    (r * n + c) * CHUNK_SIZE + CHUNK_SIZE <= rows * n * CHUNK_SIZE,
                    out@.len() == (r * n + c) * CHUNK_SIZE + b,
                    out@ == target.subrange(0, out@.len() as int),
                decreases CHUNK_SIZE - b,
            {
                let ghost at = out@.len() as int;
                proof {
                    lemma_cell_of_byte(n as int, r as int, c as int, b as int);
                    assert(target[at] == chunk@[b as int]);
                }
                out.push(chunk.0[b]);
                b = b + 1;
                assert(out@ =~= target.subrange(0, out@.len() as int));
            }
            c = c + 1;
            assert((r * n + (c - 1)) * CHUNK_SIZE + CHUNK_SIZE == (r * n + c) * CHUNK_SIZE)
                by (nonlinear_arith);
        }
        r = r + 1;
        assert(((r - 1) * n + n) * CHUNK_SIZE == r * n * CHUNK_SIZE) by (nonlinear_arith);
    }
    assert(out@ =~= target);
    Ok(out)
}

/// The cell in row `r` and column `c` of `rows` rows of `n` cells lies
/// within the whole.
proof fn lemma_cell_bounds(rows: int, n: int, r: int, c: int)
    requires
        0 <= r < rows,
        0 <= c < n,
    ensures
        (r * n + c) * CHUNK_SIZE + CHUNK_SIZE <= rows * n * CHUNK_SIZE,
        0 <= r * n + c,
{
    assert(r * n + c + 1 <= rows * n) by (nonlinear_arith)
        requires
            0 <= r < rows,
            0 <= c < n,
    ;
    assert(0 <= r * n + c) by (nonlinear_arith)
        requires
            0 <= r,
            0 <= c < n,
    ;
}

/// Byte `b` of the cell in row `r` and column `c`, counted row by row at
/// `n` cells a row, belongs to that row and column.
proof fn lemma_cell_of_byte(n: int, r: int, c: int, b: int)
    requires
        0 <= r,
        0 <= c < n,
        0 <= b < CHUNK_SIZE,
    ensures
        ((r * n + c) * CHUNK_SIZE + b) / (CHUNK_SIZE as int) == r * n + c,
        ((r * n + c) * CHUNK_SIZE + b) % (CHUNK_SIZE as int) == b,
        (r * n + c) / n == r,
        (r * n + c) % n == c,
{
    let k = r * n + c;
    lemma_fundamental_div_mod_converse(k * CHUNK_SIZE + b, CHUNK_SIZE as int, k, b);
    lemma_fundamental_div_mod_converse(k, n, r, c);
}

} // verus!
