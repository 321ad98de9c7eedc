//! Per-crate tally of advisory diagnostics, one counter per advisory code.
use vstd::prelude::*;

use cargo_deny::advisories::Code;
use strum::IntoEnumIterator;

verus! {

/// The number of advisory codes that cargo-deny reports.
pub const NUM_ADVISORY_CODES: usize = 12;

/// The kinds of advisory diagnostics that cargo-deny emits, in the order in
/// which cargo-deny declares (and therefore orders and enumerates) them.
#[derive(Clone, Copy, Debug, PartialEq, Eq, Structural)]
pub enum AdvisoryCode {
    Vulnerability,
    Notice,
    Unmaintained,
    Unsound,
    Yanked,
    AdvisoryIgnored,
    YankedIgnored,
    IndexFailure,
    IndexCacheLoadFailure,
    AdvisoryNotDetected,
    YankedNotDetected,
    UnknownAdvisory,
}

/// The position of a code in cargo-deny's order of advisory codes.
pub open spec fn code_position(code: AdvisoryCode) -> nat {
    match code {
        AdvisoryCode::Vulnerability => 0,
        AdvisoryCode::Notice => 1,
        AdvisoryCode::Unmaintained => 2,
        AdvisoryCode::Unsound => 3,
        AdvisoryCode::Yanked => 4,
        AdvisoryCode::AdvisoryIgnored => 5,
        AdvisoryCode::YankedIgnored => 6,
        AdvisoryCode::IndexFailure => 7,
        AdvisoryCode::IndexCacheLoadFailure => 8,
        AdvisoryCode::AdvisoryNotDetected => 9,
        AdvisoryCode::YankedNotDetected => 10,
        AdvisoryCode::UnknownAdvisory => 11,
    }
}

/// The code at a position of cargo-deny's order of advisory codes.
pub open spec fn code_at(position: nat) -> AdvisoryCode {
    if position == 0 { AdvisoryCode::Vulnerability }
    else if position == 1 { AdvisoryCode::Notice }
    else if position == 2 { AdvisoryCode::Unmaintained }
    else if position == 3 { AdvisoryCode::Unsound }
    else if position == 4 { AdvisoryCode::Yanked }
    else if position == 5 { AdvisoryCode::AdvisoryIgnored }
    else if position == 6 { AdvisoryCode::YankedIgnored }
    else if position == 7 { AdvisoryCode::IndexFailure }
    else if position == 8 { AdvisoryCode::IndexCacheLoadFailure }
    else if position == 9 { AdvisoryCode::AdvisoryNotDetected }
    else if position == 10 { AdvisoryCode::YankedNotDetected }
    else { AdvisoryCode::UnknownAdvisory }
}

/// The kebab-case name under which cargo-deny prints a code.
pub open spec fn code_name(code: AdvisoryCode) -> Seq<char> {
    match code {
        AdvisoryCode::Vulnerability => "vulnerability"@,
        AdvisoryCode::Notice => "notice"@,
        AdvisoryCode::Unmaintained => "unmaintained"@,
        AdvisoryCode::Unsound => "unsound"@,
        AdvisoryCode::Yanked => "yanked"@,
        AdvisoryCode::AdvisoryIgnored => "advisory-ignored"@,
        AdvisoryCode::YankedIgnored => "yanked-ignored"@,
        AdvisoryCode::IndexFailure => "index-failure"@,
        AdvisoryCode::IndexCacheLoadFailure => "index-cache-load-failure"@,
        AdvisoryCode::AdvisoryNotDetected => "advisory-not-detected"@,
        AdvisoryCode::YankedNotDetected => "yanked-not-detected"@,
        AdvisoryCode::UnknownAdvisory => "unknown-advisory"@,
    }
}

/// The qualified name of an advisory code: `a:` and its kebab-case name.
pub open spec fn qualified_name(code: AdvisoryCode) -> Seq<char> {
    "a:"@ + code_name(code)
}

/// Every advisory code, in cargo-deny's order.
pub open spec fn all_codes() -> Seq<AdvisoryCode> {
    Seq::new(NUM_ADVISORY_CODES as nat, |i: int| code_at(i as nat))
}

/// cargo-deny's order of advisory codes, as its `Code` enum declares them
/// (and as `Code::iter()` yields them and its derived `Ord` orders them): each
/// code's position and the kebab-case name of the code at each position.
pub proof fn lemma_cargo_deny_code_order()
    ensures
        code_position(AdvisoryCode::Vulnerability) == 0,
        code_position(AdvisoryCode::Notice) == 1,
        code_position(AdvisoryCode::Unmaintained) == 2,
        code_position(AdvisoryCode::Unsound) == 3,
        code_position(AdvisoryCode::Yanked) == 4,
        code_position(AdvisoryCode::AdvisoryIgnored) == 5,
        code_position(AdvisoryCode::YankedIgnored) == 6,
        code_position(AdvisoryCode::IndexFailure) == 7,
        code_position(AdvisoryCode::IndexCacheLoadFailure) == 8,
        code_position(AdvisoryCode::AdvisoryNotDetected) == 9,
        code_position(AdvisoryCode::YankedNotDetected) == 10,
        code_position(AdvisoryCode::UnknownAdvisory) == 11,
        code_name(code_at(0)) == "vulnerability"@,
        code_name(code_at(1)) == "notice"@,
        code_name(code_at(2)) == "unmaintained"@,
        code_name(code_at(3)) == "unsound"@,
        code_name(code_at(4)) == "yanked"@,
        code_name(code_at(5)) == "advisory-ignored"@,
        code_name(code_at(6)) == "yanked-ignored"@,
        code_name(code_at(7)) == "index-failure"@,
        code_name(code_at(8)) == "index-cache-load-failure"@,
        code_name(code_at(9)) == "advisory-not-detected"@,
        code_name(code_at(10)) == "yanked-not-detected"@,
        code_name(code_at(11)) == "unknown-advisory"@,
{
}

pub proof fn lemma_code_position_roundtrip(code: AdvisoryCode)
    ensures
        code_position(code) < NUM_ADVISORY_CODES,
        code_at(code_position(code)) == code,
{
}

/// `cargo_deny::advisories::Code::iter()`, each code taken by its position in
/// the enum's declaration. The contract claims what the sources of cargo-deny
/// and strum show: the iterator yields the twelve variants in declaration order.
#[verifier::external_body]
fn deny_code_positions() -> (positions: Vec<usize>)
    ensures
        positions@ == Seq::new(NUM_ADVISORY_CODES as nat, |i: int| i as usize),
{
    Code::iter().map(|code| code as usize).collect()
}

/// `cargo_deny::diag::DiagnosticCode::qualified_str` of the advisory code at a
/// position of `Code::iter()`. The contract claims what cargo-deny's source
/// shows: the letter `a`, a colon and the code's kebab-case name.
#[verifier::external_body]
fn deny_qualified_name(position: usize) -> (name: String)
    requires
        position < NUM_ADVISORY_CODES,
    ensures
        name@ == qualified_name(code_at(position as nat)),
{
    let code = Code::iter().nth(position).unwrap();
    cargo_deny::diag::DiagnosticCode::Advisory(code).qualified_str()
}

impl AdvisoryCode {
    /// The position of this code in cargo-deny's order.
    pub fn position(self) -> (p: usize)
        ensures
            p == code_position(self),
    {
        match self {
            AdvisoryCode::Vulnerability => 0,
            AdvisoryCode::Notice => 1,
            AdvisoryCode::Unmaintained => 2,
            AdvisoryCode::Unsound => 3,
            AdvisoryCode::Yanked => 4,
            AdvisoryCode::AdvisoryIgnored => 5,
            AdvisoryCode::YankedIgnored => 6,
            AdvisoryCode::IndexFailure => 7,
            AdvisoryCode::IndexCacheLoadFailure => 8,
            AdvisoryCode::AdvisoryNotDetected => 9,
            AdvisoryCode::YankedNotDetected => 10,
            AdvisoryCode::UnknownAdvisory => 11,
        }
    }

    /// The code at a position of cargo-deny's order.
    pub fn at_position(position: usize) -> (code: AdvisoryCode)
        requires
            position < NUM_ADVISORY_CODES,
        ensures
            code == code_at(position as nat),
            code_position(code) == position,
    {
        if position == 0 { AdvisoryCode::Vulnerability }
        else if position == 1 { AdvisoryCode::Notice }
        else if position == 2 { AdvisoryCode::Unmaintained }
        else if position == 3 { AdvisoryCode::Unsound }
        else if position == 4 { AdvisoryCode::Yanked }
        else if position == 5 { AdvisoryCode::AdvisoryIgnored }
        else if position == 6 { AdvisoryCode::YankedIgnored }
        else if position == 7 { AdvisoryCode::IndexFailure }
        else if position == 8 { AdvisoryCode::IndexCacheLoadFailure }
        else if position == 9 { AdvisoryCode::AdvisoryNotDetected }
        else if position == 10 { AdvisoryCode::YankedNotDetected }
        else { AdvisoryCode::UnknownAdvisory }
    }

    /// The name under which cargo-deny reports this code, such as
    /// `a:vulnerability`; it heads this code's column in the CSV output.
    pub fn qualified_name(self) -> (name: String)
        ensures
            name@ == qualified_name(self),
    {
        let p = self.position();
        proof { lemma_code_position_roundtrip(self); }
        deny_qualified_name(p)
    }
}

/// Every advisory code, in the order in which cargo-deny enumerates them.
pub fn all_advisory_codes() -> (codes: Vec<AdvisoryCode>)
    ensures
        codes@ == all_codes(),
{
    let positions = deny_code_positions();
    let mut codes: Vec<AdvisoryCode> = Vec::new();
    let mut i: usize = 0;
    while i < positions.len()
        invariant
            positions@ == Seq::new(NUM_ADVISORY_CODES as nat, |k: int| k as usize),
            i <= positions.len(),
            codes@.len() == i,
            forall|k: int| 0 <= k < i ==> codes@[k] == code_at(k as nat),
        decreases positions.len() - i,
    {
        let code = AdvisoryCode::at_position(positions[i]);
        codes.push(code);
        i = i + 1;
    }
    assert(codes@ =~= all_codes());
    codes
}

/// The code of a diagnostic that cargo-deny emits. Only advisory codes are
/// told apart; the codes of the other checks are not read by this library.
#[derive(Clone, Copy, Debug, PartialEq, Eq, Structural)]
pub enum DiagnosticCode {
    Advisory(AdvisoryCode),
    Bans,
    License,
    Source,
    General,
}

/// How many of the diagnostics carry the advisory code `code`.
pub open spec fn advisory_occurrences(diagnostics: Seq<Option<DiagnosticCode>>, code: AdvisoryCode) -> nat
    decreases diagnostics.len(),
{
    if diagnostics.len() == 0 {
        0
    } else {
        advisory_occurrences(diagnostics.drop_last(), code) + if diagnostics.last()
            == Some(DiagnosticCode::Advisory(code)) {
            1nat
        } else {
            0nat
        }
    }
}

pub proof fn lemma_occurrences_bounded(diagnostics: Seq<Option<DiagnosticCode>>, code: AdvisoryCode)
    ensures
        advisory_occurrences(diagnostics, code) <= diagnostics.len(),
    decreases diagnostics.len(),
{
    if diagnostics.len() > 0 {
        lemma_occurrences_bounded(diagnostics.drop_last(), code);
    }
}

/// A single diagnostic counts once for its own advisory code and for no other
/// code; no diagnostics count nothing.
pub proof fn lemma_occurrences_single(diagnostic: Option<DiagnosticCode>, code: AdvisoryCode)
    ensures
        advisory_occurrences(seq![diagnostic], code) == if diagnostic == Some(DiagnosticCode::Advisory(code)) {
            1nat
        } else {
            0nat
        },
        advisory_occurrences(Seq::<Option<DiagnosticCode>>::empty(), code) == 0,
{
    let one = seq![diagnostic];
    assert(one.drop_last() =~= Seq::<Option<DiagnosticCode>>::empty());
    assert(advisory_occurrences(one.drop_last(), code) == 0);
    assert(one.last() == diagnostic);
}

/// Counting advisories does not depend on how the stream of diagnostics is cut
/// into packs: the count over two parts put together is the sum of the counts.
pub proof fn lemma_occurrences_concat(
    first: Seq<Option<DiagnosticCode>>,
    second: Seq<Option<DiagnosticCode>>,
    code: AdvisoryCode,
)
    ensures
        advisory_occurrences(first + second, code) == advisory_occurrences(first, code)
            + advisory_occurrences(second, code),
    decreases second.len(),
{
    if second.len() == 0 {
        assert(first + second =~= first);
    } else {
        lemma_occurrences_concat(first, second.drop_last(), code);
        assert((first + second).drop_last() =~= first + second.drop_last());
        assert((first + second).last() == second.last());
    }
}

/// Every part of the diagnostics has at most as many diagnostics of a code as
/// the whole.
proof fn lemma_occurrences_prefix(diagnostics: Seq<Option<DiagnosticCode>>, n: int, code: AdvisoryCode)
    requires
        0 <= n <= diagnostics.len(),
    ensures
        advisory_occurrences(diagnostics.take(n), code) <= advisory_occurrences(diagnostics, code),
{
    lemma_occurrences_concat(diagnostics.take(n), diagnostics.skip(n), code);
    assert(diagnostics.take(n) + diagnostics.skip(n) =~= diagnostics);
}

/// Whether no advisory code occurs more often among the diagnostics than a
/// `u32` counter can count.
pub open spec fn counts_fit(diagnostics: Seq<Option<DiagnosticCode>>) -> bool {
    forall|code: AdvisoryCode| advisory_occurrences(diagnostics, code) <= u32::MAX
}

/// For each advisory code, the number of advisory diagnostics of that code
/// that cargo-deny reported for one crate.
pub struct AdvisoriesResults {
    counts: Vec<u32>,
}

impl View for AdvisoriesResults {
    type V = Seq<u32>;

    /// The counters, in cargo-deny's order of advisory codes.
    closed spec fn view(&self) -> Seq<u32> {
        self.counts@
    }
}

impl AdvisoriesResults {
    /// There is exactly one counter per advisory code.
    #[verifier::type_invariant]
    spec fn one_counter_per_code(self) -> bool {
        self.counts@.len() == NUM_ADVISORY_CODES
    }

    /// The counter of `code`.
    pub open spec fn count(&self, code: AdvisoryCode) -> u32 {
        self@[code_position(code) as int]
    }

    /// A tally in which every advisory code has been seen zero times.
    pub fn new() -> (res: Self)
        ensures
            forall|code: AdvisoryCode| res.count(code) == 0,
    {
        let codes = all_advisory_codes();
        let mut counts: Vec<u32> = Vec::new();
        let mut i: usize = 0;
        while i < codes.len()
            invariant
                codes@ == all_codes(),
                i <= codes.len(),
                counts@.len() == i,
                forall|k: int| 0 <= k < i ==> counts@[k] == 0,
            decreases codes.len() - i,
        {
            counts.push(0);
            i = i + 1;
        }
        let res = AdvisoriesResults { counts };
        assert forall|code: AdvisoryCode| res.count(code) == 0 by {
            lemma_code_position_roundtrip(code);
        }
        res
    }

    /// Records one more diagnostic with the advisory code `code`.
    pub fn inc(&mut self, code: AdvisoryCode)
        requires
            old(self).count(code) < u32::MAX,
        ensures
            final(self).count(code) == old(self).count(code) + 1,
            forall|other: AdvisoryCode| other != code ==> final(self).count(other) == old(self).count(other),
    {
        proof { use_type_invariant(&*self); }
        let p = code.position();
        proof { lemma_code_position_roundtrip(code); }
        let mut counts = self.counts.clone();
        let current = counts[p];
        counts.set(p, current + 1);
        self.counts = counts;
        assert forall|other: AdvisoryCode| other != code implies self.count(other) == old(self).count(other) by {
            lemma_code_position_roundtrip(other);
            if code_position(other) == code_position(code) {
                assert(code_at(code_position(other)) == code_at(code_position(code)));
            }
        }
    }

    /// The counter of `code`.
    pub fn count_of(&self, code: AdvisoryCode) -> (n: u32)
        ensures
            n == self.count(code),
    {
        proof {
            use_type_invariant(self);
            lemma_code_position_roundtrip(code);
        }
        self.counts[code.position()]
    }

    /// The counters, in cargo-deny's order of advisory codes (the order in
    /// which the CSV output lists them).
    pub fn counts_in_order(&self) -> (counts: Vec<u32>)
        ensures
            counts@ == self@,
            counts@.len() == NUM_ADVISORY_CODES,
            forall|i: int| 0 <= i < NUM_ADVISORY_CODES ==> counts@[i] == self.count(code_at(i as nat)),
    {
        proof { use_type_invariant(self); }
        let counts = self.counts.clone();
        assert forall|i: int| 0 <= i < NUM_ADVISORY_CODES implies counts@[i] == self.count(code_at(i as nat)) by {
            assert(code_position(code_at(i as nat)) == i);
        }
        counts
    }

    /// Tallies the advisory diagnostics among the codes of the diagnostics that
    /// cargo-deny emitted for one crate; diagnostics without a code, and those
    /// of the other checks, are passed over. Gives `None` when some code occurs
    /// more often than its `u32` counter can count.
    pub fn try_from_diagnostics(diagnostics: &Vec<Option<DiagnosticCode>>) -> (res: Option<Self>)
        ensures
            res is None <==> !counts_fit(diagnostics@),
            res matches Some(r) ==> forall|code: AdvisoryCode| r.count(code) == advisory_occurrences(diagnostics@, code),
    {
        let mut res = AdvisoriesResults::new();
        let mut i: usize = 0;
        while i < diagnostics.len()
            invariant
                i <= diagnostics@.len(),
                forall|code: AdvisoryCode| res.count(code) == advisory_occurrences(diagnostics@.take(i as int), code),
            decreases diagnostics.len() - i,
        {
            assert(diagnostics@.take(i + 1).drop_last() =~= diagnostics@.take(i as int));
            match diagnostics[i] {
                Some(DiagnosticCode::Advisory(code)) => {
                    if res.count_of(code) == u32::MAX {
                        proof {
                            lemma_occurrences_prefix(diagnostics@, i + 1, code);
                        }
                        return None;
                    }
                    res.inc(code);
                },
                _ => {},
            }
            i = i + 1;
        }
        assert(diagnostics@.take(diagnostics@.len() as int) =~= diagnostics@);
        assert forall|code: AdvisoryCode| advisory_occurrences(diagnostics@, code) <= u32::MAX by {
            assert(res.count(code) == advisory_occurrences(diagnostics@, code));
        }
        Some(res)
    }

    /// Tallies the advisory diagnostics among the codes of the diagnostics that
    /// cargo-deny emitted for one crate; diagnostics without a code, and those
    /// of the other checks, are passed over. No code may occur more often than
    /// its `u32` counter can count.
    pub fn from_diagnostics(diagnostics: &Vec<Option<DiagnosticCode>>) -> (res: Self)
        requires
            counts_fit(diagnostics@),
        ensures
            forall|code: AdvisoryCode| res.count(code) == advisory_occurrences(diagnostics@, code),
    {
        match AdvisoriesResults::try_from_diagnostics(diagnostics) {
            Some(res) => res,
            None => {
                proof { assert(false); }
                AdvisoriesResults::new()
            },
        }
    }
}

} // verus!
