//! The CSV rows that describe analysed crates.
use vstd::prelude::*;

use crate::advisories::{
    all_advisory_codes, all_codes, code_at, qualified_name, AdvisoriesResults, NUM_ADVISORY_CODES,
};
use crate::text::{decimal, decimal_string, texts};

verus! {

/// What the analysis found out about one crate.
pub struct CrateInfo {
    pub direct_deps: usize,
    pub all_deps: usize,
    pub advisories: AdvisoriesResults,
}

/// One analysed crate version: one row of the CSV output.
pub struct AnalyzedCrateInfo {
    pub name: String,
    pub version: String,
    pub downloads: u32,
    pub created_at: String,
    pub info: CrateInfo,
}

/// The number of columns before the advisory counters.
pub const NUM_LEADING_COLUMNS: usize = 6;

/// The names of the columns that precede the advisory counters.
pub open spec fn leading_header() -> Seq<Seq<char>> {
    seq!["name"@, "version"@, "downloads"@, "created_at"@, "direct_deps"@, "all_deps"@]
}

/// The header row: the leading columns, then one column per advisory code,
/// named by the code's qualified name, in cargo-deny's order.
pub open spec fn header_row() -> Seq<Seq<char>> {
    leading_header() + all_codes().map_values(|code| qualified_name(code))
}

impl AnalyzedCrateInfo {
    /// The row of this crate: name, version, downloads, creation date, direct
    /// and all dependencies, then the counter of each advisory code in
    /// cargo-deny's order, numbers written in decimal.
    pub open spec fn record_row(&self) -> Seq<Seq<char>> {
        seq![
            self.name@,
            self.version@,
            decimal(self.downloads as nat),
            self.created_at@,
            decimal(self.info.direct_deps as nat),
            decimal(self.info.all_deps as nat),
        ] + Seq::new(
            NUM_ADVISORY_CODES as nat,
            |i: int| decimal(self.info.advisories.count(code_at(i as nat)) as nat),
        )
    }

    /// The fields of the CSV header row.
    pub fn header_fields() -> (fields: Vec<String>)
        ensures
            texts(fields@) == header_row(),
    {
        let mut fields: Vec<String> = Vec::new();
        fields.push(String::from_str("name"));
        fields.push(String::from_str("version"));
        fields.push(String::from_str("downloads"));
        fields.push(String::from_str("created_at"));
        fields.push(String::from_str("direct_deps"));
        fields.push(String::from_str("all_deps"));
        assert(texts(fields@) =~= leading_header());
        let codes = all_advisory_codes();
        let mut i: usize = 0;
        while i < codes.len()
            invariant
                codes@ == all_codes(),
                i <= codes@.len(),
                texts(fields@) =~= leading_header() + all_codes().take(i as int).map_values(
                    |code| qualified_name(code),
                ),
            decreases codes.len() - i,
        {
            let ghost before = fields@;
            fields.push(codes[i].qualified_name());
            assert(all_codes().take(i + 1).map_values(|code| qualified_name(code))
                =~= all_codes().take(i as int).map_values(|code| qualified_name(code)).push(
                qualified_name(codes@[i as int]),
            ));
            assert(texts(fields@) =~= texts(before).push(qualified_name(codes@[i as int])));
            i = i + 1;
        }
        assert(all_codes().take(i as int) =~= all_codes());
        fields
    }

    /// The fields of this crate's CSV row.
    pub fn record_fields(&self) -> (fields: Vec<String>)
        ensures
            texts(fields@) == self.record_row(),
    {
        let mut fields: Vec<String> = Vec::new();
        fields.push(self.name.clone());
        fields.push(self.version.clone());
        fields.push(decimal_string(self.downloads as u64));
        fields.push(self.created_at.clone());
        fields.push(decimal_string(self.info.direct_deps as u64));
        fields.push(decimal_string(self.info.all_deps as u64));
        let ghost leading = texts(fields@);
        let counts = self.info.advisories.counts_in_order();
        let mut i: usize = 0;
        while i < counts.len()
            invariant
                counts@ == self.info.advisories@,
                counts@.len() == NUM_ADVISORY_CODES,
                forall|k: int| 0 <= k < NUM_ADVISORY_CODES ==> counts@[k] == self.info.advisories.count(code_at(k as nat)),
                i <= counts@.len(),
                texts(fields@) =~= leading + Seq::new(
                    i as nat,
                    |k: int| decimal(self.info.advisories.count(code_at(k as nat)) as nat),
                ),
            decreases counts.len() - i,
        {
            let ghost before = fields@;
            fields.push(decimal_string(counts[i] as u64));
            assert(texts(fields@) =~= texts(before).push(decimal(counts@[i as int] as nat)));
            i = i + 1;
        }
        assert(texts(fields@) =~= self.record_row());
        fields
    }
}

/// The header and the row of any crate line up: they have the same number of
/// columns, the leading six columns name the crate's six facts, and the column
/// named after each advisory code holds that code's counter.
pub proof fn lemma_columns_line_up(info: AnalyzedCrateInfo)
    ensures
        header_row().len() == info.record_row().len(),
        header_row().len() == NUM_LEADING_COLUMNS + NUM_ADVISORY_CODES,
        forall|i: int|
            0 <= i < NUM_ADVISORY_CODES ==> {
                &&& #[trigger] header_row()[NUM_LEADING_COLUMNS + i] == qualified_name(code_at(i as nat))
                &&& info.record_row()[NUM_LEADING_COLUMNS + i] == decimal(
                    info.info.advisories.count(code_at(i as nat)) as nat,
                )
            },
{
}

} // verus!
