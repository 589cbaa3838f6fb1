use snowmelt::asc::{asc_layout, asc_tokens, AscError, AscField, AscLayout};

fn layout(text: &str) -> (Vec<String>, Result<AscLayout, AscError>) {
    let toks = asc_tokens(text);
    let numeric: Vec<bool> = toks.iter().map(|t| t.parse::<f64>().is_ok()).collect();
    let r = asc_layout(&toks, &numeric);
    (toks, r)
}

#[test]
fn rejects_cell_count_mismatch() {
    let (_, r) = layout("ncols 2\nnrows 2\nxllcorner 0\nyllcorner 0\ncellsize 1\n1 2 3\n");
    assert!(r.is_err());
    assert_eq!(r, Err(AscError::CountMismatch { nrows: 2, ncols: 2, found: 3 }));
}

#[test]
fn tokens_split_on_any_whitespace() {
    let toks = asc_tokens("  ncols\t3 \r\n nrows 2\n\n1  2\u{00a0}3 ");
    assert_eq!(toks, vec!["ncols", "3", "nrows", "2", "1", "2", "3"]);
    assert!(asc_tokens(" \n\t ").is_empty());
}

#[test]
fn lays_out_header_and_cells() {
    let text = "ncols 3\nnrows 2\nxllcorner 100.0\nyllcorner 200.0\ncellsize 50.0\n\
                NODATA_value -9999\n1.000 2.500 -9999\n4.000 5.000 6.000\n";
    let (toks, r) = layout(text);
    let l = r.unwrap();
    assert_eq!(l.ncols, 3);
    assert_eq!(l.nrows, 2);
    assert_eq!(toks[l.xll], "100.0");
    assert_eq!(toks[l.yll], "200.0");
    assert_eq!(toks[l.cellsize], "50.0");
    assert_eq!(toks[l.nodata.unwrap()], "-9999");
    assert_eq!(toks.len() - l.cells_start, 6);
    assert_eq!(toks[l.cells_start], "1.000");
}

#[test]
fn keys_ignore_case_and_accept_centre_variants() {
    let (toks, r) = layout("NCOLS 1 NRows 1 XLLCENTER 5 yllCenter 6 CellSize 2 7");
    let l = r.unwrap();
    assert_eq!(toks[l.xll], "5");
    assert_eq!(toks[l.yll], "6");
    assert_eq!(l.nodata, None);
    assert_eq!(l.cells_start, 10);
}

#[test]
fn repeated_key_keeps_last_value() {
    let (_, r) = layout("ncols 5 ncols 1 nrows 1 xllcorner 0 yllcorner 0 cellsize 1 9");
    assert_eq!(r.unwrap().ncols, 1);
}

#[test]
fn reports_each_header_fault() {
    assert_eq!(layout("ncols").1, Err(AscError::MissingValue { at: 0 }));
    assert_eq!(layout("ncols 1 foo 2").1, Err(AscError::UnknownKey { at: 2 }));
    assert_eq!(
        layout("ncols -1").1,
        Err(AscError::BadValue { field: AscField::Ncols, at: 1 })
    );
    assert_eq!(
        layout("ncols 2 nrows 2.5").1,
        Err(AscError::BadValue { field: AscField::Nrows, at: 3 })
    );
    assert_eq!(
        layout("ncols 1 nrows 1 xllcorner abc").1,
        Err(AscError::BadValue { field: AscField::Xll, at: 5 })
    );
    assert_eq!(
        layout("nrows 1 xllcorner 0 yllcorner 0 cellsize 1 3").1,
        Err(AscError::MissingKey { field: AscField::Ncols })
    );
    assert_eq!(
        layout("ncols 1 nrows 1 xllcorner 0 yllcorner 0 3").1,
        Err(AscError::MissingKey { field: AscField::Cellsize })
    );
}

#[test]
fn reports_cell_faults() {
    assert_eq!(
        layout("ncols 2 nrows 1 xllcorner 0 yllcorner 0 cellsize 1 1 x").1,
        Err(AscError::BadCell { at: 11 })
    );
    assert_eq!(
        layout("ncols 99999999999 nrows 99999999999 xllcorner 0 yllcorner 0 cellsize 1").1,
        Err(AscError::CellCountOverflow)
    );
    // a bad cell is reported before a wrong count
    assert_eq!(
        layout("ncols 2 nrows 2 xllcorner 0 yllcorner 0 cellsize 1 1 x").1,
        Err(AscError::BadCell { at: 11 })
    );
}
