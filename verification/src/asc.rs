//! ESRI ASCII Grid (`.asc`) layout: the header keys and the cell tokens.
//!
//! A grid file is a sequence of whitespace-separated tokens. It starts with
//! `key value` pairs, each key beginning with an ASCII letter and matched
//! without regard to case (`xllcorner`/`xllcenter` and
//! `yllcorner`/`yllcenter` are interchangeable); the remaining tokens are
//! the cell values, row by row from the northern edge. `ncols`, `nrows`,
//! `xll*`, `yll*` and `cellsize` are required, `nodata_value` is optional,
//! and a repeated key keeps its last value.
//!
//! Which tokens are numbers (the real-valued header entries and the cell
//! values) is an input of [`asc_layout`]: the caller decides it with its
//! number parser and converts the tokens that the layout points at.
use vstd::prelude::*;

use crate::text::{
    chars_eq, chars_of, is_ascii_letter, is_ascii_upper, lower, lower_folds_ascii_case,
    lower_ignores_ascii_case, parse_unsigned, parse_unsigned_exec, same_ignoring_ascii_case,
    split_ws, string_from_chars, to_lower, views, ws_tokens,
};

verus! {

/// A header entry of a grid file.
#[derive(Debug, Clone, Copy, PartialEq, Eq, Structural)]
pub enum AscField {
    /// `ncols`: number of columns.
    Ncols,
    /// `nrows`: number of rows.
    Nrows,
    /// `xllcorner` / `xllcenter`: x of the lower-left corner.
    Xll,
    /// `yllcorner` / `yllcenter`: y of the lower-left corner.
    Yll,
    /// `cellsize`: grid spacing.
    Cellsize,
    /// `nodata_value`: marker of missing cells.
    Nodata,
}

/// Why a token sequence is not a grid file. Positions are token indices.
#[derive(Debug, Clone, Copy, PartialEq, Eq, Structural)]
pub enum AscError {
    /// The header key at `at` is the last token: its value is missing.
    MissingValue { at: usize },
    /// The header key at `at` is not one of the known keys.
    UnknownKey { at: usize },
    /// The value at `at` of header entry `field` is not valid for it.
    BadValue { field: AscField, at: usize },
    /// The required header entry `field` never occurs.
    MissingKey { field: AscField },
    /// `nrows · ncols` does not fit in `usize`.
    CellCountOverflow,
    /// The cell token at `at` is not a number.
    BadCell { at: usize },
    /// The number of cell tokens, `found`, differs from `nrows · ncols`.
    CountMismatch { nrows: usize, ncols: usize, found: usize },
}

/// Where the parts of a grid file are: the two dimensions, the token index
/// of each real-valued header entry, and the index of the first cell token
/// (cells run from there to the end).
#[derive(Debug, Clone, Copy, PartialEq, Eq, Structural)]
pub struct AscLayout {
    pub ncols: usize,
    pub nrows: usize,
    pub xll: usize,
    pub yll: usize,
    pub cellsize: usize,
    pub nodata: Option<usize>,
    pub cells_start: usize,
}

/// The header entries seen so far: dimension values, and token indices of
/// the real-valued entries.
#[derive(Debug, Clone, Copy, PartialEq, Eq, Structural)]
pub struct HeaderSlots {
    pub ncols: Option<usize>,
    pub nrows: Option<usize>,
    pub xll: Option<usize>,
    pub yll: Option<usize>,
    pub cellsize: Option<usize>,
    pub nodata: Option<usize>,
}

/// No header entry seen.
pub open spec fn empty_slots() -> HeaderSlots {
    HeaderSlots { ncols: None, nrows: None, xll: None, yll: None, cellsize: None, nodata: None }
}

/// The header entry named by a lower-cased key.
pub open spec fn key_field(k: Seq<char>) -> Option<AscField> {
    if k == seq!['n', 'c', 'o', 'l', 's'] {
        Some(AscField::Ncols)
    } else if k == seq!['n', 'r', 'o', 'w', 's'] {
        Some(AscField::Nrows)
    } else if k == seq!['x', 'l', 'l', 'c', 'o', 'r', 'n', 'e', 'r'] || k == seq![
        'x',
        'l',
        'l',
        'c',
        'e',
        'n',
        't',
        'e',
        'r',
    ] {
        Some(AscField::Xll)
    } else if k == seq!['y', 'l', 'l', 'c', 'o', 'r', 'n', 'e', 'r'] || k == seq![
        'y',
        'l',
        'l',
        'c',
        'e',
        'n',
        't',
        'e',
        'r',
    ] {
        Some(AscField::Yll)
    } else if k == seq!['c', 'e', 'l', 'l', 's', 'i', 'z', 'e'] {
        Some(AscField::Cellsize)
    } else if k == seq!['n', 'o', 'd', 'a', 't', 'a', '_', 'v', 'a', 'l', 'u', 'e'] {
        Some(AscField::Nodata)
    } else {
        None
    }
}

/// Whether a token opens a header entry: it starts with an ASCII letter.
pub open spec fn is_key_token(t: Seq<char>) -> bool {
    t.len() > 0 && is_ascii_letter(t[0])
}

/// `h` with the real-valued entry `f` now at token `at`.
pub open spec fn with_position(h: HeaderSlots, f: AscField, at: usize) -> HeaderSlots {
    match f {
        AscField::Xll => HeaderSlots { xll: Some(at), ..h },
        AscField::Yll => HeaderSlots { yll: Some(at), ..h },
        AscField::Cellsize => HeaderSlots { cellsize: Some(at), ..h },
        AscField::Nodata => HeaderSlots { nodata: Some(at), ..h },
        _ => h,
    }
}

/// Reads the header from token `p` on: the entries collected into `h` and
/// the index of the first token that does not open an entry, or the first
/// fault met.
pub open spec fn scan_header(toks: Seq<Seq<char>>, num: Seq<bool>, p: nat, h: HeaderSlots) -> Result<
    (HeaderSlots, nat),
    AscError,
>
    decreases toks.len() - p,
{
    if p < toks.len() && is_key_token(toks[p as int]) {
        if p + 1 >= toks.len() {
            Err(AscError::MissingValue { at: p as usize })
        } else {
            let v = (p + 1) as nat;
            match key_field(lower(toks[p as int])) {
                None => Err(AscError::UnknownKey { at: p as usize }),
                Some(AscField::Ncols) => match parse_unsigned(toks[v as int], usize::MAX as nat) {
                    None => Err(AscError::BadValue { field: AscField::Ncols, at: v as usize }),
                    Some(n) => scan_header(
                        toks,
                        num,
                        (p + 2) as nat,
                        HeaderSlots { ncols: Some(n as usize), ..h },
                    ),
                },
                Some(AscField::Nrows) => match parse_unsigned(toks[v as int], usize::MAX as nat) {
                    None => Err(AscError::BadValue { field: AscField::Nrows, at: v as usize }),
                    Some(n) => scan_header(
                        toks,
                        num,
                        (p + 2) as nat,
                        HeaderSlots { nrows: Some(n as usize), ..h },
                    ),
                },
                Some(f) => if !num[v as int] {
                    Err(AscError::BadValue { field: f, at: v as usize })
                } else {
                    scan_header(toks, num, (p + 2) as nat, with_position(h, f, v as usize))
                },
            }
        }
    } else {
        Ok((h, p))
    }
}

/// The first token at or after `p` that is not a number.
pub open spec fn first_non_number(num: Seq<bool>, p: nat) -> Option<nat>
    decreases num.len() - p,
{
    if p >= num.len() {
        None
    } else if !num[p as int] {
        Some(p)
    } else {
        first_non_number(num, (p + 1) as nat)
    }
}

/// The layout of a grid file made of the tokens `toks`, where `num[i]`
/// tells whether `toks[i]` is a number, or the first fault in it.
pub open spec fn layout_of(toks: Seq<Seq<char>>, num: Seq<bool>) -> Result<AscLayout, AscError> {
    match scan_header(toks, num, 0, empty_slots()) {
        Err(e) => Err(e),
        Ok((h, p)) => {
            if h.ncols is None {
                Err(AscError::MissingKey { field: AscField::Ncols })
            } else if h.nrows is None {
                Err(AscError::MissingKey { field: AscField::Nrows })
            } else if h.xll is None {
                Err(AscError::MissingKey { field: AscField::Xll })
            } else if h.yll is None {
                Err(AscError::MissingKey { field: AscField::Yll })
            } else if h.cellsize is None {
                Err(AscError::MissingKey { field: AscField::Cellsize })
            } else if h.nrows->0 * h.ncols->0 > usize::MAX {
                Err(AscError::CellCountOverflow)
            } else if first_non_number(num, p) is Some {
                Err(AscError::BadCell { at: first_non_number(num, p)->0 as usize })
            } else if toks.len() - p != h.nrows->0 * h.ncols->0 {
                Err(
                    AscError::CountMismatch {
                        nrows: h.nrows->0,
                        ncols: h.ncols->0,
                        found: (toks.len() - p) as usize,
                    },
                )
            } else {
                Ok(
                    AscLayout {
                        ncols: h.ncols->0,
                        nrows: h.nrows->0,
                        xll: h.xll->0,
                        yll: h.yll->0,
                        cellsize: h.cellsize->0,
                        nodata: h.nodata,
                        cells_start: p as usize,
                    },
                )
            }
        },
    }
}

/// The views of a sequence of strings.
pub open spec fn string_views(v: Seq<String>) -> Seq<Seq<char>> {
    v.map_values(|s: String| s@)
}

/// The whitespace-separated tokens of a grid file's text.
pub fn asc_tokens(text: &str) -> (toks: Vec<String>)
    ensures
        string_views(toks@) == ws_tokens(text@),
{
    let chars = chars_of(text);
    let parts = split_ws(&chars);
    let mut toks: Vec<String> = Vec::new();
    let mut i: usize = 0;
    while i < parts.len()
        invariant
            i <= parts@.len(),
            views(parts@) == ws_tokens(text@),
            string_views(toks@) =~= views(parts@).take(i as int),
        decreases parts.len() - i,
    {
        let t = string_from_chars(parts[i].as_slice());
        assert(t@ == views(parts@)[i as int]);
        toks.push(t);
        assert(views(parts@).take(i + 1) =~= views(parts@).take(i as int).push(t@));
        i += 1;
    }
    toks
}

fn field_of_key(k: &[char]) -> (f: Option<AscField>)
    ensures
        f == key_field(k@),
{
    let ncols = ['n', 'c', 'o', 'l', 's'];
    let nrows = ['n', 'r', 'o', 'w', 's'];
    let xllcorner = ['x', 'l', 'l', 'c', 'o', 'r', 'n', 'e', 'r'];
    let xllcenter = ['x', 'l', 'l', 'c', 'e', 'n', 't', 'e', 'r'];
    let yllcorner = ['y', 'l', 'l', 'c', 'o', 'r', 'n', 'e', 'r'];
    let yllcenter = ['y', 'l', 'l', 'c', 'e', 'n', 't', 'e', 'r'];
    let cellsize = ['c', 'e', 'l', 'l', 's', 'i', 'z', 'e'];
    let nodata = ['n', 'o', 'd', 'a', 't', 'a', '_', 'v', 'a', 'l', 'u', 'e'];
    assert(ncols@ =~= seq!['n', 'c', 'o', 'l', 's']);
    assert(nrows@ =~= seq!['n', 'r', 'o', 'w', 's']);
    assert(xllcorner@ =~= seq!['x', 'l', 'l', 'c', 'o', 'r', 'n', 'e', 'r']);
    assert(xllcenter@ =~= seq!['x', 'l', 'l', 'c', 'e', 'n', 't', 'e', 'r']);
    assert(yllcorner@ =~= seq!['y', 'l', 'l', 'c', 'o', 'r', 'n', 'e', 'r']);
    assert(yllcenter@ =~= seq!['y', 'l', 'l', 'c', 'e', 'n', 't', 'e', 'r']);
    assert(cellsize@ =~= seq!['c', 'e', 'l', 'l', 's', 'i', 'z', 'e']);
    assert(nodata@ =~= seq!['n', 'o', 'd', 'a', 't', 'a', '_', 'v', 'a', 'l', 'u', 'e']);
    if chars_eq(k, &ncols) {
        Some(AscField::Ncols)
    } else if chars_eq(k, &nrows) {
        Some(AscField::Nrows)
    } else if chars_eq(k, &xllcorner) || chars_eq(k, &xllcenter) {
        Some(AscField::Xll)
    } else if chars_eq(k, &yllcorner) || chars_eq(k, &yllcenter) {
        Some(AscField::Yll)
    } else if chars_eq(k, &cellsize) {
        Some(AscField::Cellsize)
    } else if chars_eq(k, &nodata) {
        Some(AscField::Nodata)
    } else {
        None
    }
}

fn first_non_number_exec(numeric: &Vec<bool>, p: usize) -> (r: Option<usize>)
    requires
        p <= numeric@.len(),
    ensures
        match r {
            Some(at) => first_non_number(numeric@, p as nat) == Some(at as nat),
            None => first_non_number(numeric@, p as nat) is None,
        },
{
    let mut i = p;
    while i < numeric.len()
        invariant
            p <= i <= numeric@.len(),
            first_non_number(numeric@, p as nat) == first_non_number(numeric@, i as nat),
        decreases numeric@.len() - i,
    {
        if !numeric[i] {
            return Some(i);
        }
        i += 1;
    }
    None
}

fn parse_dimension(tok: &String) -> (r: Option<usize>)
    ensures
        match r {
            Some(n) => parse_unsigned(tok@, usize::MAX as nat) == Some(n as nat),
            None => parse_unsigned(tok@, usize::MAX as nat) is None,
        },
{
    let v = chars_of(tok.as_str());
    match parse_unsigned_exec(&v, usize::MAX as u64) {
        Some(n) => Some(n as usize),
        None => None,
    }
}

/// Lays out a grid file given its tokens and, for each token, whether it
/// is a number: the header entries, then the cell tokens, checked against
/// `nrows · ncols`.
pub fn asc_layout(tokens: &Vec<String>, numeric: &Vec<bool>) -> (r: Result<AscLayout, AscError>)
    requires
        tokens@.len() == numeric@.len(),
    ensures
        r == layout_of(string_views(tokens@), numeric@),
{
    let ghost toks = string_views(tokens@);
    let ghost num = numeric@;
    let n = tokens.len();
    let mut h = HeaderSlots {
        ncols: None,
        nrows: None,
        xll: None,
        yll: None,
        cellsize: None,
        nodata: None,
    };
    let mut p: usize = 0;
    loop
        invariant
            p <= n,
            n == toks.len(),
            n == num.len(),
            toks == string_views(tokens@),
            num == numeric@,
            scan_header(toks, num, 0, empty_slots()) == scan_header(toks, num, p as nat, h),
        ensures
            p <= n,
            scan_header(toks, num, 0, empty_slots()) == Ok::<(HeaderSlots, nat), AscError>(
                (h, p as nat),
            ),
        decreases n - p,
    {
        if p >= n {
            break ;
        }
        let t = chars_of(tokens[p].as_str());
        assert(t@ == toks[p as int]);
        let starts_letter = t.len() > 0 && (('A' <= t[0] && t[0] <= 'Z') || ('a' <= t[0] && t[0]
            <= 'z'));
        if !starts_letter {
            break ;
        }
        if p + 1 >= n {
            return Err(AscError::MissingValue { at: p });
        }
        let key = to_lower(&t);
        let v = p + 1;
        assert(tokens@[v as int]@ == toks[v as int]);
        match field_of_key(&key) {
            None => {
                return Err(AscError::UnknownKey { at: p });
            },
            Some(AscField::Ncols) => match parse_dimension(&tokens[v]) {
                None => {
                    return Err(AscError::BadValue { field: AscField::Ncols, at: v });
                },
                Some(d) => {
                    h.ncols = Some(d);
                },
            },
            Some(AscField::Nrows) => match parse_dimension(&tokens[v]) {
                None => {
                    return Err(AscError::BadValue { field: AscField::Nrows, at: v });
                },
                Some(d) => {
                    h.nrows = Some(d);
                },
            },
            Some(f) => {
                if !numeric[v] {
                    return Err(AscError::BadValue { field: f, at: v });
                }
                match f {
                    AscField::Xll => {
                        h.xll = Some(v);
                    },
                    AscField::Yll => {
                        h.yll = Some(v);
                    },
                    AscField::Cellsize => {
                        h.cellsize = Some(v);
                    },
                    _ => {
                        h.nodata = Some(v);
                    },
                }
            },
        }
        p += 2;
    }
    let ncols = match h.ncols {
        Some(c) => c,
        None => {
            return Err(AscError::MissingKey { field: AscField::Ncols });
        },
    };
    let nrows = match h.nrows {
        Some(c) => c,
        None => {
            return Err(AscError::MissingKey { field: AscField::Nrows });
        },
    };
    let xll = match h.xll {
        Some(c) => c,
        None => {
            return Err(AscError::MissingKey { field: AscField::Xll });
        },
    };
    let yll = match h.yll {
        Some(c) => c,
        None => {
            return Err(AscError::MissingKey { field: AscField::Yll });
        },
    };
    let cellsize = match h.cellsize {
        Some(c) => c,
        None => {
            return Err(AscError::MissingKey { field: AscField::Cellsize });
        },
    };
    let expected = match nrows.checked_mul(ncols) {
        Some(e) => e,
        None => {
            return Err(AscError::CellCountOverflow);
        },
    };
    match first_non_number_exec(numeric, p) {
        Some(at) => {
            return Err(AscError::BadCell { at });
        },
        None => {},
    }
    if n - p != expected {
        return Err(AscError::CountMismatch { nrows, ncols, found: n - p });
    }
    Ok(AscLayout { ncols, nrows, xll, yll, cellsize, nodata: h.nodata, cells_start: p })
}

/// The real-valued entries recorded in `h` point at number tokens before `p`.
pub open spec fn slots_point_at_numbers(h: HeaderSlots, num: Seq<bool>, p: nat) -> bool {
    &&& (h.xll matches Some(k) ==> k < p && num[k as int])
    &&& (h.yll matches Some(k) ==> k < p && num[k as int])
    &&& (h.cellsize matches Some(k) ==> k < p && num[k as int])
    &&& (h.nodata matches Some(k) ==> k < p && num[k as int])
}

proof fn lemma_scan_header_slots(toks: Seq<Seq<char>>, num: Seq<bool>, p: nat, h: HeaderSlots)
    requires
        toks.len() == num.len(),
        toks.len() <= usize::MAX,
        p <= toks.len(),
        slots_point_at_numbers(h, num, p),
    ensures
        scan_header(toks, num, p, h) matches Ok((h2, p2)) ==> p <= p2 <= toks.len()
            && slots_point_at_numbers(h2, num, p2),
    decreases toks.len() - p,
{
    if p < toks.len() && is_key_token(toks[p as int]) && p + 1 < toks.len() {
        let v = (p + 1) as nat;
        let q = (p + 2) as nat;
        match key_field(lower(toks[p as int])) {
            None => {},
            Some(AscField::Ncols) => {
                if let Some(n) = parse_unsigned(toks[v as int], usize::MAX as nat) {
                    lemma_scan_header_slots(toks, num, q, HeaderSlots { ncols: Some(n as usize), ..h });
                }
            },
            Some(AscField::Nrows) => {
                if let Some(n) = parse_unsigned(toks[v as int], usize::MAX as nat) {
                    lemma_scan_header_slots(toks, num, q, HeaderSlots { nrows: Some(n as usize), ..h });
                }
            },
            Some(f) => {
                if num[v as int] {
                    lemma_scan_header_slots(toks, num, q, with_position(h, f, v as usize));
                }
            },
        }
    }
}

proof fn lemma_no_non_number(num: Seq<bool>, p: nat)
    requires
        first_non_number(num, p) is None,
    ensures
        forall|i: int| p <= i < num.len() ==> num[i],
    decreases num.len() - p,
{
    if p < num.len() {
        lemma_no_non_number(num, (p + 1) as nat);
    }
}

/// A laid-out grid file accounts for every token: the header entries come
/// before the cells and point at numbers, and the cells, all numbers, are
/// exactly `nrows · ncols` tokens long.
pub proof fn layout_accounts_for_every_token(toks: Seq<Seq<char>>, num: Seq<bool>)
    requires
        toks.len() == num.len(),
        toks.len() <= usize::MAX,
    ensures
        layout_of(toks, num) matches Ok(l) ==> {
            &&& l.cells_start <= toks.len()
            &&& toks.len() - l.cells_start == l.nrows * l.ncols
            &&& forall|i: int| l.cells_start <= i < toks.len() ==> num[i]
            &&& l.xll < l.cells_start && num[l.xll as int]
            &&& l.yll < l.cells_start && num[l.yll as int]
            &&& l.cellsize < l.cells_start && num[l.cellsize as int]
            &&& (l.nodata matches Some(k) ==> k < l.cells_start && num[k as int])
        },
{
    lemma_scan_header_slots(toks, num, 0, empty_slots());
    if let Ok((h, p)) = scan_header(toks, num, 0, empty_slots()) {
        if first_non_number(num, p) is None {
            lemma_no_non_number(num, p);
        }
    }
}

/// Header keys are matched without regard to ASCII case: a key token
/// spelling a lower-case key `k` in any capitalisation (`CELLSIZE`,
/// `CellSize`, `cellsize`) names the same header entry as `k`, and two key
/// tokens that differ only in case name the same entry.
pub proof fn header_keys_ignore_case(t: Seq<char>, k: Seq<char>)
    requires
        same_ignoring_ascii_case(t, k),
    ensures
        key_field(lower(t)) == key_field(lower(k)),
        (forall|i: int| 0 <= i < k.len() ==> !is_ascii_upper(#[trigger] k[i])) ==> key_field(
            lower(t),
        ) == key_field(k),
{
    lower_ignores_ascii_case(t, k);
    lower_folds_ascii_case(k);
    if forall|i: int| 0 <= i < k.len() ==> !is_ascii_upper(#[trigger] k[i]) {
        assert(lower(k) =~= k);
    }
}

} // verus!
