use snowmelt::validate::{pair_label, split_pair, tally, CompareError, Confusion, PairError};

#[test]
fn confusion_valid_and_add() {
    let mut a = Confusion { tp: 3, fp: 1, fn_: 2, tn: 4 };
    assert_eq!(a.valid(), 10);
    a.add(&Confusion { tp: 1, fp: 0, fn_: 5, tn: 7 });
    assert_eq!(a, Confusion { tp: 4, fp: 1, fn_: 7, tn: 11 });
    assert_eq!(a.valid(), 23);
    assert_eq!(Confusion::default().valid(), 0);
}

#[test]
fn tally_counts_each_class_and_skips_nodata() {
    let cells = vec![
        Some((true, true)),
        Some((true, false)),
        None,
        Some((false, true)),
        Some((false, false)),
        Some((false, false)),
        Some((true, true)),
    ];
    let c = tally(&cells).unwrap();
    assert_eq!(c, Confusion { tp: 2, fp: 1, fn_: 1, tn: 2 });
    assert_eq!(c.valid(), 6);
}

#[test]
fn tally_without_valid_cells_fails() {
    assert_eq!(tally(&vec![None, None]), Err(CompareError::NoValidCells));
    assert_eq!(tally(&vec![]), Err(CompareError::NoValidCells));
}

#[test]
fn pooled_tally_is_sum_of_tallies() {
    let a = vec![Some((true, true)), None, Some((false, true))];
    let b = vec![Some((true, false)), Some((true, true)), Some((false, false))];
    let mut total = tally(&a).unwrap();
    total.add(&tally(&b).unwrap());
    let pooled: Vec<_> = a.iter().chain(b.iter()).copied().collect();
    assert_eq!(tally(&pooled).unwrap(), total);
}

#[test]
fn split_pair_at_first_colon() {
    let (sim, obs, label) = split_pair("out/cover_2019-08-01.asc:data/modis_2019-08-01.asc").unwrap();
    assert_eq!(sim, "out/cover_2019-08-01.asc");
    assert_eq!(obs, "data/modis_2019-08-01.asc");
    assert_eq!(label, "cover_2019-08-01");
    let (sim, obs, _) = split_pair("a.asc:b:c").unwrap();
    assert_eq!(sim, "a.asc");
    assert_eq!(obs, "b:c");
    assert_eq!(split_pair("no-colon.asc"), Err(PairError::MissingColon));
    for arg in ["a:b", ":", "x.asc:", "::y", "dir/s.asc:dir/o.asc"] {
        let (sim, obs, _) = split_pair(arg).unwrap();
        assert_eq!(format!("{sim}:{obs}"), arg);
        assert!(!sim.contains(':'));
    }
}

#[test]
fn bare_simulated_name_is_its_own_label() {
    let (sim, obs, label) = split_pair("cover_2019:modis.asc").unwrap();
    assert_eq!(sim, "cover_2019");
    assert_eq!(obs, "modis.asc");
    assert_eq!(label, "cover_2019");
}

#[test]
fn pair_label_falls_back_to_argument() {
    let (_, _, label) = split_pair(":obs.asc").unwrap();
    assert_eq!(label, ":obs.asc");
    assert_eq!(pair_label(None, "x:y"), "x:y");
    assert_eq!(pair_label(Some("stem".to_string()), "x:y"), "stem");
}
