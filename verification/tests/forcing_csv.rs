use snowmelt::forcing_csv::{forcing_rows, select_records, ForcingError, RowCheck};

/// The records `(date, temp, precip)` of a forcing file's text.
fn read_text(text: &str) -> Result<Vec<(String, f64, f64)>, ForcingError> {
    let rows = forcing_rows(text);
    let checks: Vec<RowCheck> = rows
        .iter()
        .map(|r| RowCheck {
            line: r.line,
            columns: r.fields.len(),
            numbers: if r.fields.len() == 3 {
                match (r.fields[1].parse::<f64>(), r.fields[2].parse::<f64>()) {
                    (Ok(_), Ok(p)) => Some(p < 0.0),
                    _ => None,
                }
            } else {
                None
            },
        })
        .collect();
    let pos = select_records(&checks)?;
    Ok(pos
        .iter()
        .map(|&i| {
            let f = &rows[i].fields;
            (f[0].clone(), f[1].parse().unwrap(), f[2].parse().unwrap())
        })
        .collect())
}

#[test]
fn parses_with_and_without_header() {
    let recs = read_text("date,temp_c,precip_mm\n2025-06-01,-2.0,5.0\n2025-06-02,3.5,0.0\n").unwrap();
    assert_eq!(recs.len(), 2);
    assert_eq!(recs[0].1, -2.0);

    assert_eq!(read_text("2025-06-01,-2.0,5.0\n").unwrap().len(), 1);
}

#[test]
fn rejects_negative_precip_and_bad_rows() {
    assert!(read_text("2025-06-01,-2.0,-5.0\n").is_err());
    assert!(read_text("2025-06-01,-2.0,5.0\nfoo,bar\n").is_err());
}

#[test]
fn rows_are_trimmed_and_blank_lines_skipped() {
    let rows = forcing_rows("  a , b ,c \r\n\n   \n d,e\n");
    assert_eq!(rows.len(), 2);
    assert_eq!(rows[0].line, 0);
    assert_eq!(rows[0].fields, vec!["a", "b", "c"]);
    assert_eq!(rows[1].line, 3);
    assert_eq!(rows[1].fields, vec!["d", "e"]);
    assert!(forcing_rows("").is_empty());
    assert_eq!(forcing_rows("x,,y")[0].fields, vec!["x", "", "y"]);
}

#[test]
fn reports_each_fault_with_its_line() {
    assert_eq!(
        read_text("2025-06-01,-2.0,5.0\nfoo,bar\n"),
        Err(ForcingError::ColumnCount { line: 1, found: 2 })
    );
    assert_eq!(
        read_text("\n2025-06-01,-2.0,-5.0\n"),
        Err(ForcingError::NegativePrecip { line: 1 })
    );
    assert_eq!(
        read_text("2025-06-01,-2.0,5.0\n2025-06-02,x,1\n"),
        Err(ForcingError::Unparsable { line: 1 })
    );
    // a header is only a first line
    assert_eq!(
        read_text("\ndate,temp_c,precip_mm\n2025-06-01,1,1\n"),
        Err(ForcingError::Unparsable { line: 1 })
    );
    assert_eq!(read_text("date,temp_c,precip_mm\n"), Err(ForcingError::Empty));
    assert_eq!(read_text("\n \n"), Err(ForcingError::Empty));
}

#[test]
fn select_records_keeps_order_and_skips_header() {
    let rows = vec![
        RowCheck { line: 0, columns: 3, numbers: None },
        RowCheck { line: 1, columns: 3, numbers: Some(false) },
        RowCheck { line: 3, columns: 3, numbers: Some(false) },
    ];
    assert_eq!(select_records(&rows), Ok(vec![1, 2]));
}
