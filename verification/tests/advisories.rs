use gather::advisories::{all_advisory_codes, AdvisoriesResults, AdvisoryCode, DiagnosticCode};

#[test]
fn codes_come_in_cargo_deny_order() {
    let codes = all_advisory_codes();
    assert_eq!(codes.len(), 12);
    assert_eq!(codes[0], AdvisoryCode::Vulnerability);
    assert_eq!(codes[1], AdvisoryCode::Notice);
    assert_eq!(codes[5], AdvisoryCode::AdvisoryIgnored);
    assert_eq!(codes[7], AdvisoryCode::IndexFailure);
    assert_eq!(codes[11], AdvisoryCode::UnknownAdvisory);
    for (i, code) in codes.iter().enumerate() {
        assert_eq!(code.position(), i);
        assert_eq!(AdvisoryCode::at_position(i), *code);
    }
}

#[test]
fn qualified_names_follow_cargo_deny() {
    assert_eq!(AdvisoryCode::Vulnerability.qualified_name(), "a:vulnerability");
    assert_eq!(AdvisoryCode::Notice.qualified_name(), "a:notice");
    assert_eq!(AdvisoryCode::YankedIgnored.qualified_name(), "a:yanked-ignored");
    assert_eq!(
        AdvisoryCode::IndexCacheLoadFailure.qualified_name(),
        "a:index-cache-load-failure"
    );
    assert_eq!(AdvisoryCode::UnknownAdvisory.qualified_name(), "a:unknown-advisory");
}

#[test]
fn new_tally_is_all_zero() {
    let res = AdvisoriesResults::new();
    assert_eq!(res.counts_in_order(), vec![0u32; 12]);
    for code in all_advisory_codes() {
        assert_eq!(res.count_of(code), 0);
    }
}

#[test]
fn inc_counts_one_code_only() {
    let mut res = AdvisoriesResults::new();
    res.inc(AdvisoryCode::Unsound);
    res.inc(AdvisoryCode::Unsound);
    res.inc(AdvisoryCode::Yanked);
    assert_eq!(res.count_of(AdvisoryCode::Unsound), 2);
    assert_eq!(res.count_of(AdvisoryCode::Yanked), 1);
    assert_eq!(res.count_of(AdvisoryCode::Vulnerability), 0);
    assert_eq!(res.counts_in_order(), vec![0, 0, 0, 2, 1, 0, 0, 0, 0, 0, 0, 0]);
}

#[test]
fn diagnostics_are_tallied_by_advisory_code() {
    let diags = vec![
        Some(DiagnosticCode::Advisory(AdvisoryCode::Vulnerability)),
        None,
        Some(DiagnosticCode::Bans),
        Some(DiagnosticCode::Advisory(AdvisoryCode::Vulnerability)),
        Some(DiagnosticCode::License),
        Some(DiagnosticCode::Advisory(AdvisoryCode::UnknownAdvisory)),
        Some(DiagnosticCode::Source),
        Some(DiagnosticCode::General),
    ];
    let res = AdvisoriesResults::from_diagnostics(&diags);
    assert_eq!(res.count_of(AdvisoryCode::Vulnerability), 2);
    assert_eq!(res.count_of(AdvisoryCode::UnknownAdvisory), 1);
    assert_eq!(res.counts_in_order(), vec![2, 0, 0, 0, 0, 0, 0, 0, 0, 0, 0, 1]);
}

#[test]
fn no_diagnostics_means_all_zero() {
    let res = AdvisoriesResults::from_diagnostics(&Vec::new());
    assert_eq!(res.counts_in_order(), vec![0u32; 12]);
}

#[test]
fn tally_of_packs_is_the_sum_of_tallies() {
    let first = vec![
        Some(DiagnosticCode::Advisory(AdvisoryCode::Notice)),
        Some(DiagnosticCode::Advisory(AdvisoryCode::Yanked)),
    ];
    let second = vec![
        Some(DiagnosticCode::Advisory(AdvisoryCode::Notice)),
        None,
    ];
    let mut whole = first.clone();
    whole.extend(second.iter().cloned());
    let a = AdvisoriesResults::from_diagnostics(&first).counts_in_order();
    let b = AdvisoriesResults::from_diagnostics(&second).counts_in_order();
    let w = AdvisoriesResults::from_diagnostics(&whole).counts_in_order();
    for i in 0..12 {
        assert_eq!(w[i], a[i] + b[i]);
    }
}

#[test]
fn checked_tally_agrees_with_tally() {
    let diags = vec![
        Some(DiagnosticCode::Advisory(AdvisoryCode::Unmaintained)),
        Some(DiagnosticCode::Advisory(AdvisoryCode::Unmaintained)),
        None,
    ];
    let checked = AdvisoriesResults::try_from_diagnostics(&diags).unwrap();
    assert_eq!(checked.counts_in_order(), AdvisoriesResults::from_diagnostics(&diags).counts_in_order());
    assert_eq!(checked.count_of(AdvisoryCode::Unmaintained), 2);
}
