//! The forcing series file: one `date,temp_c,precip_mm` row per line.
//!
//! Lines are trimmed and blank lines skipped; each remaining line is split
//! at `,` and every field trimmed ([`forcing_rows`]). Which rows become
//! records is decided by [`select_records`] from the column count and the
//! outcome of reading the two numeric columns: a first line whose numbers
//! do not read is a header and is skipped; every other fault rejects the
//! file, and a file without records is rejected too.
use vstd::prelude::*;

use crate::text::{
    chars_of, split_chars, split_on, string_from_chars, trim, trimmed, views,
};

verus! {

/// A non-blank line of the forcing file: its index among all lines
/// (counted from 0) and its trimmed comma-separated fields.
#[derive(Debug)]
pub struct CsvRow {
    pub line: usize,
    pub fields: Vec<String>,
}

/// The trimmed fields of a trimmed line.
pub open spec fn fields_of(l: Seq<char>) -> Seq<Seq<char>> {
    split_on(l, ',').map_values(|f: Seq<char>| trim(f))
}

/// The non-blank rows among the first `k` lines: line index and fields.
pub open spec fn rows_upto(lines: Seq<Seq<char>>, k: nat) -> Seq<(nat, Seq<Seq<char>>)>
    decreases k,
{
    if k == 0 {
        Seq::<(nat, Seq<Seq<char>>)>::empty()
    } else {
        let prev = rows_upto(lines, (k - 1) as nat);
        let l = trim(lines[k - 1]);
        if l.len() == 0 {
            prev
        } else {
            prev.push(((k - 1) as nat, fields_of(l)))
        }
    }
}

/// The non-blank rows of a forcing file's text.
pub open spec fn csv_rows(text: Seq<char>) -> Seq<(nat, Seq<Seq<char>>)> {
    let lines = split_on(text, '\n');
    rows_upto(lines, lines.len())
}

/// What a row holds, as plain values.
pub open spec fn row_view(r: CsvRow) -> (nat, Seq<Seq<char>>) {
    (r.line as nat, r.fields@.map_values(|f: String| f@))
}

fn strings_of(parts: &Vec<Vec<char>>) -> (out: Vec<String>)
    ensures
        out@.map_values(|f: String| f@) == views(parts@).map_values(|f: Seq<char>| trim(f)),
{
    let mut out: Vec<String> = Vec::new();
    let mut i: usize = 0;
    while i < parts.len()
        invariant
            i <= parts@.len(),
            out@.map_values(|f: String| f@) =~= views(parts@).map_values(
                |f: Seq<char>| trim(f),
            ).take(i as int),
        decreases parts.len() - i,
    {
        let t = trimmed(parts[i].as_slice());
        let s = string_from_chars(t.as_slice());
        out.push(s);
        assert(views(parts@).map_values(|f: Seq<char>| trim(f)).take(i + 1) =~= views(
            parts@,
        ).map_values(|f: Seq<char>| trim(f)).take(i as int).push(s@));
        i += 1;
    }
    assert(views(parts@).map_values(|f: Seq<char>| trim(f)).take(parts@.len() as int)
        =~= views(parts@).map_values(|f: Seq<char>| trim(f)));
    out
}

/// Splits a forcing file's text into its non-blank rows of trimmed fields.
pub fn forcing_rows(text: &str) -> (rows: Vec<CsvRow>)
    ensures
        rows@.map_values(|r: CsvRow| row_view(r)) == csv_rows(text@),
{
    let chars = chars_of(text);
    let lines = split_chars(&chars, '\n');
    let ghost glines = views(lines@);
    let mut rows: Vec<CsvRow> = Vec::new();
    let mut k: usize = 0;
    while k < lines.len()
        invariant
            k <= lines@.len(),
            glines == views(lines@),
            glines == split_on(text@, '\n'),
            rows@.map_values(|r: CsvRow| row_view(r)) =~= rows_upto(glines, k as nat),
        decreases lines.len() - k,
    {
        let l = trimmed(lines[k].as_slice());
        assert(l@ == trim(glines[k as int]));
        if l.len() > 0 {
            let parts = split_chars(&l, ',');
            let fields = strings_of(&parts);
            let row = CsvRow { line: k, fields };
            assert(row_view(row) == ((k as nat), fields_of(l@)));
            rows.push(row);
        }
        k += 1;
    }
    rows
}

/// Why a forcing file is rejected. `line` counts lines from 0.
#[derive(Debug, Clone, Copy, PartialEq, Eq, Structural)]
pub enum ForcingError {
    /// The row does not have exactly three fields.
    ColumnCount { line: usize, found: usize },
    /// The row's precipitation is negative.
    NegativePrecip { line: usize },
    /// The row's temperature or precipitation does not read as a number
    /// (and the row is not the first line).
    Unparsable { line: usize },
    /// No row is a record.
    Empty,
}

/// What the decision needs to know of a row: its line, its number of
/// fields, and, where temperature and precipitation both read as numbers,
/// whether the precipitation is negative (`None` where either does not
/// read, or where the row does not have three fields).
#[derive(Debug, Clone, Copy, PartialEq, Eq, Structural)]
pub struct RowCheck {
    pub line: usize,
    pub columns: usize,
    pub numbers: Option<bool>,
}

/// The fault of a row, if it has one.
pub open spec fn row_fault(r: RowCheck) -> Option<ForcingError> {
    if r.columns != 3 {
        Some(ForcingError::ColumnCount { line: r.line, found: r.columns })
    } else {
        match r.numbers {
            Some(true) => Some(ForcingError::NegativePrecip { line: r.line }),
            Some(false) => None,
            None => if r.line == 0 {
                None
            } else {
                Some(ForcingError::Unparsable { line: r.line })
            },
        }
    }
}

/// Whether a row is a record: three fields, both numbers read, and a
/// precipitation that is not negative.
pub open spec fn is_record(r: RowCheck) -> bool {
    r.columns == 3 && r.numbers == Some(false)
}

/// The fault of the first faulty row among `rows[k..]`.
pub open spec fn first_fault(rows: Seq<RowCheck>, k: nat) -> Option<ForcingError>
    decreases rows.len() - k,
{
    if k >= rows.len() {
        None
    } else if row_fault(rows[k as int]) is Some {
        row_fault(rows[k as int])
    } else {
        first_fault(rows, (k + 1) as nat)
    }
}

/// The positions, below `k`, of the rows that are records, in order.
pub open spec fn record_positions(rows: Seq<RowCheck>, k: nat) -> Seq<nat>
    decreases k,
{
    if k == 0 {
        Seq::<nat>::empty()
    } else {
        let prev = record_positions(rows, (k - 1) as nat);
        if is_record(rows[k - 1]) {
            prev.push((k - 1) as nat)
        } else {
            prev
        }
    }
}

/// The outcome for a whole file: the fault of its first faulty row, else
/// the positions of its records, else `Empty` when there are none.
pub open spec fn selection(rows: Seq<RowCheck>) -> Result<Seq<nat>, ForcingError> {
    match first_fault(rows, 0) {
        Some(e) => Err(e),
        None => {
            let pos = record_positions(rows, rows.len());
            if pos.len() == 0 {
                Err(ForcingError::Empty)
            } else {
                Ok(pos)
            }
        },
    }
}

proof fn lemma_record_positions(rows: Seq<RowCheck>, k: nat)
    requires
        k <= rows.len(),
    ensures
        forall|i: int, j: int|
            0 <= i < j < record_positions(rows, k).len() ==> record_positions(rows, k)[i]
                < record_positions(rows, k)[j],
        forall|i: int|
            0 <= i < record_positions(rows, k).len() ==> record_positions(rows, k)[i] < k
                && (rows[record_positions(rows, k)[i] as int].columns == 3 && rows[record_positions(rows, k)[i] as int].numbers == Some(false)),
        forall|q: int|
            0 <= q < k && (rows[q].columns == 3 && rows[q].numbers == Some(false)) ==> exists|i: int|
                0 <= i < record_positions(rows, k).len() && record_positions(rows, k)[i] == q,
    decreases k,
{
    if k > 0 {
        let k1 = (k - 1) as nat;
        lemma_record_positions(rows, k1);
        let prev = record_positions(rows, k1);
        if is_record(rows[k1 as int]) {
            let cur = prev.push(k1);
            assert(record_positions(rows, k) == cur);
            assert forall|q: int| 0 <= q < k && (rows[q].columns == 3 && rows[q].numbers == Some(false)) implies exists|i: int|
                0 <= i < cur.len() && cur[i] == q by {
                if q == k1 {
                    assert(cur[prev.len() as int] == q);
                } else {
                    let i = choose|i: int| 0 <= i < prev.len() && prev[i] == q;
                    assert(cur[i] == q);
                }
            }
        } else {
            assert(record_positions(rows, k) == prev);
            assert forall|q: int| 0 <= q < k && (rows[q].columns == 3 && rows[q].numbers == Some(false)) implies exists|i: int|
                0 <= i < prev.len() && prev[i] == q by {
                assert(q != k1);
            }
        }
    }
}

/// When a forcing file is accepted, its records are exactly its good rows
/// (three columns, both numbers read, precipitation not negative), each
/// once, in file order: none is dropped and none added, whatever the length
/// of the file. A file is accepted exactly when every row has three columns
/// with both numbers read and precipitation not negative, except that the
/// first line may be a header whose numbers do not read, and some row is a
/// record; otherwise the fault reported is that of the first faulty row: a
/// wrong column count, a negative precipitation, or numbers that do not
/// read on a line other than the first.
pub proof fn selection_keeps_every_good_row(rows: Seq<RowCheck>)
    ensures
        selection(rows) is Ok <==> (forall|q: int|
            0 <= q < rows.len() ==> #[trigger] rows[q].columns == 3 && (rows[q].numbers == Some(
                false,
            ) || (rows[q].numbers is None && rows[q].line == 0))) && exists|q: int|
            0 <= q < rows.len() && #[trigger] rows[q].columns == 3 && rows[q].numbers == Some(
                false,
            ),
        selection(rows) matches Err(e) ==> e == ForcingError::Empty || exists|q: int|
            0 <= q < rows.len() && (forall|p: int|
                0 <= p < q ==> #[trigger] rows[p].columns == 3 && (rows[p].numbers == Some(false)
                    || (rows[p].numbers is None && rows[p].line == 0))) && e == (if rows[q].columns
                != 3 {
                ForcingError::ColumnCount { line: rows[q].line, found: rows[q].columns }
            } else if rows[q].numbers == Some(true) {
                ForcingError::NegativePrecip { line: rows[q].line }
            } else {
                ForcingError::Unparsable { line: rows[q].line }
            }),
        selection(rows) matches Ok(pos) ==> {
            &&& pos.len() > 0
            &&& forall|i: int, j: int| 0 <= i < j < pos.len() ==> pos[i] < pos[j]
            &&& forall|i: int|
                0 <= i < pos.len() ==> pos[i] < rows.len() && (rows[pos[i] as int].columns == 3 && rows[pos[i] as int].numbers == Some(false))
            &&& forall|q: int|
                0 <= q < rows.len() && (rows[q].columns == 3 && rows[q].numbers == Some(false)) ==> exists|i: int|
                    0 <= i < pos.len() && pos[i] == q
        },
{
    lemma_record_positions(rows, rows.len());
    lemma_no_fault(rows, 0);
    lemma_first_fault_found(rows, 0);
    let pos = record_positions(rows, rows.len());
    assert forall|q: int| 0 <= q < rows.len() implies (row_fault(rows[q]) is None <==> (
    #[trigger] rows[q].columns == 3 && (rows[q].numbers == Some(false) || (rows[q].numbers is None
        && rows[q].line == 0)))) by {}
    if exists|q: int|
        0 <= q < rows.len() && #[trigger] rows[q].columns == 3 && rows[q].numbers == Some(false) {
        let q = choose|q: int|
            0 <= q < rows.len() && #[trigger] rows[q].columns == 3 && rows[q].numbers == Some(
                false,
            );
        let i = choose|i: int| 0 <= i < pos.len() && pos[i] == q;
        assert(pos.len() > 0);
    }
    if pos.len() > 0 {
        let q = pos[0] as int;
        assert(0 <= q < rows.len() && rows[q].columns == 3 && rows[q].numbers == Some(false));
    }
}

proof fn lemma_no_fault(rows: Seq<RowCheck>, k: nat)
    requires
        k <= rows.len(),
    ensures
        first_fault(rows, k) is None <==> forall|q: int|
            k <= q < rows.len() ==> row_fault(#[trigger] rows[q]) is None,
    decreases rows.len() - k,
{
    if k < rows.len() {
        lemma_no_fault(rows, k + 1);
    }
}

proof fn lemma_first_fault_found(rows: Seq<RowCheck>, k: nat)
    requires
        k <= rows.len(),
    ensures
        first_fault(rows, k) matches Some(e) ==> exists|q: int|
            k <= q < rows.len() && row_fault(#[trigger] rows[q]) == Some(e) && forall|p: int|
                k <= p < q ==> row_fault(#[trigger] rows[p]) is None,
    decreases rows.len() - k,
{
    if k < rows.len() {
        lemma_first_fault_found(rows, k + 1);
        if row_fault(rows[k as int]) is None {
            if let Some(e) = first_fault(rows, k) {
                let q = choose|q: int|
                    k + 1 <= q < rows.len() && row_fault(#[trigger] rows[q]) == Some(e) && forall|
                        p: int,
                    |
                        k + 1 <= p < q ==> row_fault(#[trigger] rows[p]) is None;
                assert(forall|p: int| k <= p < q ==> row_fault(#[trigger] rows[p]) is None);
            }
        }
    }
}

/// Decides which rows are records (their positions in `rows`), or why the
/// file is rejected.
pub fn select_records(rows: &Vec<RowCheck>) -> (r: Result<Vec<usize>, ForcingError>)
    ensures
        match r {
            Ok(pos) => {
                &&& selection(rows@) == Ok::<Seq<nat>, ForcingError>(
                    pos@.map_values(|i: usize| i as nat),
                )
                &&& pos@.len() > 0
                &&& forall|i: int, j: int| 0 <= i < j < pos@.len() ==> pos@[i] < pos@[j]
                &&& forall|i: int|
                    0 <= i < pos@.len() ==> pos@[i] < rows@.len() && (rows@[pos@[i] as int].columns == 3 && rows@[pos@[i] as int].numbers == Some(false))
                &&& forall|q: int|
                    0 <= q < rows@.len() && (rows@[q].columns == 3 && rows@[q].numbers == Some(false)) ==> exists|i: int|
                        0 <= i < pos@.len() && pos@[i] == q
            },
            Err(e) => selection(rows@) == Err::<Seq<nat>, ForcingError>(e),
        },
{
    let mut pos: Vec<usize> = Vec::new();
    let mut k: usize = 0;
    while k < rows.len()
        invariant
            k <= rows@.len(),
            first_fault(rows@, 0) == first_fault(rows@, k as nat),
            pos@.map_values(|i: usize| i as nat) =~= record_positions(rows@, k as nat),
        decreases rows.len() - k,
    {
        let row = rows[k];
        let fault = if row.columns != 3 {
            Some(ForcingError::ColumnCount { line: row.line, found: row.columns })
        } else {
            match row.numbers {
                Some(true) => Some(ForcingError::NegativePrecip { line: row.line }),
                Some(false) => None,
                None => if row.line == 0 {
                    None
                } else {
                    Some(ForcingError::Unparsable { line: row.line })
                },
            }
        };
        assert(fault == row_fault(rows@[k as int]));
        match fault {
            Some(e) => {
                return Err(e);
            },
            None => {},
        }
        if row.columns == 3 && row.numbers == Some(false) {
            pos.push(k);
        }
        k += 1;
    }
    if pos.len() == 0 {
        return Err(ForcingError::Empty);
    }
    proof {
        let ps = pos@.map_values(|i: usize| i as nat);
        assert(ps == record_positions(rows@, rows@.len()));
        assert(selection(rows@) == Ok::<Seq<nat>, ForcingError>(ps));
        selection_keeps_every_good_row(rows@);
        assert forall|i: int, j: int| 0 <= i < j < pos@.len() implies pos@[i] < pos@[j] by {
            assert(ps[i] < ps[j]);
        }
        assert forall|i: int| 0 <= i < pos@.len() implies pos@[i] < rows@.len() && (rows@[pos@[i] as int].columns == 3 && rows@[pos@[i] as int].numbers == Some(false)) by {
            assert(ps[i] == pos@[i]);
        }
        assert forall|q: int| 0 <= q < rows@.len() && (rows@[q].columns == 3 && rows@[q].numbers == Some(false)) implies exists|i: int|
            0 <= i < pos@.len() && pos@[i] == q by {
            let i = choose|i: int| 0 <= i < ps.len() && ps[i] == q;
            assert(pos@[i] == q);
        }
    }
    Ok(pos)
}

} // verus!
