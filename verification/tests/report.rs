use gather::advisories::{AdvisoriesResults, AdvisoryCode};
use gather::report::{AnalyzedCrateInfo, CrateInfo};

#[test]
fn header_row() {
    let header = AnalyzedCrateInfo::header_fields();
    assert_eq!(
        header,
        vec![
            "name",
            "version",
            "downloads",
            "created_at",
            "direct_deps",
            "all_deps",
            "a:vulnerability",
            "a:notice",
            "a:unmaintained",
            "a:unsound",
            "a:yanked",
            "a:advisory-ignored",
            "a:yanked-ignored",
            "a:index-failure",
            "a:index-cache-load-failure",
            "a:advisory-not-detected",
            "a:yanked-not-detected",
            "a:unknown-advisory",
        ]
    );
}

#[test]
fn record_row_lines_up_with_header() {
    let mut advisories = AdvisoriesResults::new();
    advisories.inc(AdvisoryCode::Vulnerability);
    advisories.inc(AdvisoryCode::Yanked);
    advisories.inc(AdvisoryCode::Yanked);
    let info = AnalyzedCrateInfo {
        name: "serde".to_string(),
        version: "1.0.200".to_string(),
        downloads: 4_000_000_000,
        created_at: "2024-05-01T00:00:00Z".to_string(),
        info: CrateInfo { direct_deps: 2, all_deps: 17, advisories },
    };
    let record = info.record_fields();
    let header = AnalyzedCrateInfo::header_fields();
    assert_eq!(record.len(), header.len());
    assert_eq!(
        record,
        vec![
            "serde",
            "1.0.200",
            "4000000000",
            "2024-05-01T00:00:00Z",
            "2",
            "17",
            "1",
            "0",
            "0",
            "0",
            "2",
            "0",
            "0",
            "0",
            "0",
            "0",
            "0",
            "0",
        ]
    );
    let yanked_column = header.iter().position(|h| h == "a:yanked").unwrap();
    assert_eq!(record[yanked_column], "2");
}
