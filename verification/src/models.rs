//! The data exchanged with the central service, and the per-file detail of a
//! rule match: metadata values, matched patterns, and the weight and filetype
//! metadata that drive scoring and gating.

use vstd::prelude::*;
use vstd::string::StringExecFns;
use crate::strutil::{append_str, push_char, split_on_spaces, split_spaces, str_eq, string_views};
use crate::sums::{lemma_sum_abs_nonneg, lemma_sum_abs_take_le, lemma_sum_within_abs, sum_abs,
    sum_ints};

verus! {

/// The result of one job: a success body or a failure body.
pub type ScanResult = Result<SubmitJobResultsSuccess, SubmitJobResultsError>;

/// The success submission for one package.
#[derive(Debug, PartialEq, Clone)]
pub struct SubmitJobResultsSuccess {
    pub name: String,
    pub version: String,
    pub score: i64,
    pub inspector_url: Option<String>,
    /// Contains all rule identifiers matched for the entire release.
    pub rules_matched: Vec<String>,
    /// The hash of the ruleset used to produce these results.
    pub commit: String,
}

/// The failure submission for one package.
#[derive(Debug, PartialEq, Clone)]
pub struct SubmitJobResultsError {
    pub name: String,
    pub version: String,
    pub reason: String,
}

/// A submission body, tagged by outcome.
#[derive(Debug)]
pub enum SubmitJobResultsBody {
    Success(SubmitJobResultsSuccess),
    Error(SubmitJobResultsError),
}

/// An assignment from the central service.
#[derive(Debug, Clone)]
pub struct Job {
    pub hash: String,
    pub name: String,
    pub version: String,
    pub distributions: Vec<String>,
}

/// The ruleset download: its hash and the named rule sources.
#[derive(Debug)]
pub struct RulesResponse {
    pub hash: String,
    pub rules: Vec<(String, String)>,
}

/// The rule sources of a ruleset download joined by newlines, in order.
pub open spec fn joined_sources(rules: Seq<(String, String)>) -> Seq<char>
    decreases rules.len(),
{
    if rules.len() == 0 {
        Seq::empty()
    } else if rules.len() == 1 {
        rules[0].1@
    } else {
        joined_sources(rules.drop_last()) + seq!['\n'] + rules.last().1@
    }
}

impl RulesResponse {
    /// The one document handed to the rule compiler: every rule source of
    /// the response, joined by newlines, in response order.
    pub fn joined_source(&self) -> (r: String)
        ensures
            r@ == joined_sources(self.rules@),
    {
        let rules = &self.rules;
        let mut out = String::new();
        proof {
            assert(out@ =~= joined_sources(rules@.take(0)));
        }
        let mut i: usize = 0;
        while i < rules.len()
            invariant
                0 <= i <= rules@.len(),
                rules@ == self.rules@,
                out@ == joined_sources(rules@.take(i as int)),
            decreases rules@.len() - i,
        {
            if i > 0 {
                push_char(&mut out, '\n');
            }
            append_str(&mut out, rules[i].1.as_str());
            proof {
                assert(rules@.take(i + 1).drop_last() =~= rules@.take(i as int));
                assert(rules@.take(i + 1).last() == rules@[i as int]);
                if i == 0 {
                    assert(joined_sources(rules@.take(1)) =~= rules@[0].1@);
                    assert(out@ =~= joined_sources(rules@.take(1)));
                } else {
                    assert(joined_sources(rules@.take(i + 1)) =~= joined_sources(
                        rules@.take(i as int),
                    ) + seq!['\n'] + rules@[i as int].1@);
                    assert(out@ =~= joined_sources(rules@.take(i + 1)));
                }
            }
            i = i + 1;
        }
        proof {
            assert(rules@.take(rules@.len() as int) =~= rules@);
        }
        out
    }
}

/// The authentication exchange: what is sent and what comes back.
#[derive(Debug)]
pub struct AuthBody {
    pub client_id: String,
    pub client_secret: String,
    pub audience: String,
    pub grant_type: String,
    pub username: String,
    pub password: String,
}

#[derive(Debug)]
pub struct AuthResponse {
    pub access_token: String,
    pub expires_in: u32,
}

/// One metadata value attached to a rule.
#[derive(Debug, PartialEq, Eq, Clone)]
pub enum MetadataValue {
    Integer(i64),
    String(String),
    Boolean(bool),
}

/// One metadata entry of a rule: its key and its value.
#[derive(Debug, PartialEq, Eq, Clone)]
pub struct MetadataEntry {
    pub identifier: String,
    pub value: MetadataValue,
}

/// A byte range of one pattern match.
#[derive(Debug, PartialEq, Eq, Clone)]
pub struct Range {
    pub start: usize,
    pub end: usize,
}

/// One concrete match of a pattern: where, and the matched bytes.
#[derive(Debug, PartialEq, Eq, Clone)]
pub struct Match {
    pub range: Range,
    pub data: Vec<u8>,
}

impl Match {
    /// Build a match from the engine's offset and matched bytes. The range is
    /// inclusive, so the data must be nonempty.
    pub fn new(offset: usize, data: Vec<u8>) -> (r: Match)
        requires
            data@.len() > 0,
            offset + data@.len() - 1 <= usize::MAX,
        ensures
            r.range.start == offset,
            r.range.end == offset + data@.len() - 1,
            r.data@ == data@,
    {
        let end: usize = offset + (data.len() - 1);
        Match { range: Range { start: offset, end }, data }
    }
}

/// One matched pattern of a rule, with all its concrete matches.
#[derive(Debug, PartialEq, Eq, Clone)]
pub struct PatternMatch {
    pub identifier: String,
    pub matches: Vec<Match>,
}

/// One rule that matched a file, with its patterns and metadata.
#[derive(Debug, PartialEq, Clone)]
pub struct RuleMatch {
    pub identifier: String,
    pub patterns: Vec<PatternMatch>,
    pub metadata: Vec<MetadataEntry>,
}

/// The first value stored under `key`, if any.
pub open spec fn spec_metadata_value(entries: Seq<MetadataEntry>, key: Seq<char>) -> Option<
    MetadataValue,
>
    decreases entries.len(),
{
    if entries.len() == 0 {
        Option::None
    } else if entries.first().identifier@ == key {
        Option::Some(entries.first().value)
    } else {
        spec_metadata_value(entries.drop_first(), key)
    }
}

/// The rule's weight: its integer `weight` metadata, or 0 when absent or not
/// an integer.
pub open spec fn spec_weight_i64(m: RuleMatch) -> i64 {
    match spec_metadata_value(m.metadata@, "weight"@) {
        Option::Some(MetadataValue::Integer(w)) => w,
        _ => 0,
    }
}

/// The filetype gate of a rule: the space-separated suffixes of its
/// `filetype` metadata, or no suffixes at all when the metadata is absent or
/// not a string.
pub open spec fn spec_filetypes(m: RuleMatch) -> Seq<Seq<char>> {
    match spec_metadata_value(m.metadata@, "filetype"@) {
        Option::Some(MetadataValue::String(s)) => split_spaces(s@),
        _ => Seq::empty(),
    }
}

impl RuleMatch {
    /// Get the value of a metadata entry by key; `None` if no entry has that
    /// key.
    pub fn get_metadata_value(&self, key: &str) -> (r: Option<&MetadataValue>)
        ensures
            match r {
                Option::Some(v) => spec_metadata_value(self.metadata@, key@) == Option::Some(*v),
                Option::None => spec_metadata_value(self.metadata@, key@) is None,
            },
    {
        let entries = &self.metadata;
        proof {
            assert(entries@.skip(0) =~= entries@);
        }
        let mut i: usize = 0;
        while i < entries.len()
            invariant
                0 <= i <= entries@.len(),
                entries@ == self.metadata@,
                spec_metadata_value(entries@, key@) == spec_metadata_value(
                    entries@.skip(i as int),
                    key@,
                ),
            decreases entries@.len() - i,
        {
            proof {
                assert(entries@.skip(i as int).first() == entries@[i as int]);
                assert(entries@.skip(i as int).drop_first() =~= entries@.skip(i + 1));
            }
            if str_eq(entries[i].identifier.as_str(), key) {
                proof {
                    assert(spec_metadata_value(entries@.skip(i as int), key@) == Option::Some(
                        entries@[i as int].value,
                    ));
                }
                return Some(&entries[i].value);
            }
            i = i + 1;
        }
        proof {
            assert(entries@.skip(entries@.len() as int).len() == 0);
        }
        None
    }

    /// The rule's score, taken from its `weight` metadata.
    pub fn score(&self) -> (r: i64)
        ensures
            r == spec_weight_i64(*self),
    {
        match self.get_metadata_value("weight") {
            Some(MetadataValue::Integer(w)) => *w,
            _ => 0,
        }
    }

    /// Get the suffix list of the `filetype` metadata; an empty list when it
    /// is not defined.
    pub fn get_filetypes(&self) -> (r: Vec<String>)
        ensures
            string_views(r@) == spec_filetypes(*self),
    {
        match self.get_metadata_value("filetype") {
            Some(MetadataValue::String(s)) => split_on_spaces(s.as_str()),
            _ => {
                let r: Vec<String> = Vec::new();
                proof {
                    assert(string_views(r@) =~= Seq::<Seq<char>>::empty());
                }
                r
            },
        }
    }
}

/// The weights of a list of rule matches, as mathematical integers.
pub open spec fn match_weights(ms: Seq<RuleMatch>) -> Seq<int> {
    ms.map_values(|m: RuleMatch| spec_weight_i64(m) as int)
}

/// The results of scanning one file, in full detail: its path and each rule
/// that matched it.
#[derive(Debug, PartialEq, Clone)]
pub struct FileScanResult {
    pub path: String,
    pub matches: Vec<RuleMatch>,
}

impl FileScanResult {
    pub fn new(path: String, matches: Vec<RuleMatch>) -> (r: FileScanResult)
        ensures
            r.path@ == path@,
            r.matches@ == matches@,
    {
        FileScanResult { path, matches }
    }

    /// The file's score: the sum of the weights of its matched rules.
    pub open spec fn spec_score(&self) -> int {
        sum_ints(match_weights(self.matches@))
    }

    /// Returns the total score of all matched rules.
    pub fn calculate_score(&self) -> (r: i64)
        requires
            sum_abs(match_weights(self.matches@)) <= i64::MAX,
        ensures
            r == self.spec_score(),
    {
        let ghost weights = match_weights(self.matches@);
        let mut total: i64 = 0;
        let mut i: usize = 0;
        while i < self.matches.len()
            invariant
                0 <= i <= self.matches@.len(),
                weights == match_weights(self.matches@),
                weights.len() == self.matches@.len(),
                sum_abs(weights) <= i64::MAX,
                total == sum_ints(weights.take(i as int)),
            decreases self.matches@.len() - i,
        {
            proof {
                assert(weights.take(i + 1).drop_last() =~= weights.take(i as int));
                assert(weights.take(i + 1).last() == weights[i as int]);
                lemma_sum_within_abs(weights.take(i + 1));
                lemma_sum_abs_take_le(weights, i + 1);
                lemma_sum_abs_nonneg(weights.take(i + 1));
            }
            total = total + self.matches[i].score();
            i = i + 1;
        }
        proof {
            assert(weights.take(weights.len() as int) =~= weights);
        }
        total
    }
}

/// The files of `files` that matched at least one rule, in order.
pub open spec fn nonempty_files(files: Seq<FileScanResult>) -> Seq<FileScanResult>
    decreases files.len(),
{
    if files.len() == 0 {
        Seq::empty()
    } else {
        let rest = nonempty_files(files.drop_last());
        if files.last().matches@.len() > 0 {
            rest.push(files.last())
        } else {
            rest
        }
    }
}

/// The detailed results of scanning one distribution: its download URL and
/// the files that matched anything.
#[derive(Debug, PartialEq)]
pub struct DistributionScanResult {
    pub download_url: String,
    pub files: Vec<FileScanResult>,
}

impl DistributionScanResult {
    /// Keep only the files with at least one match.
    pub fn new(download_url: String, files: Vec<FileScanResult>) -> (r: DistributionScanResult)
        ensures
            r.download_url@ == download_url@,
            r.files@ == nonempty_files(files@),
    {
        let mut rest = files;
        let mut kept: Vec<FileScanResult> = Vec::new();
        proof {
            assert(nonempty_files(rest@) + kept@ =~= nonempty_files(rest@));
        }
        let ghost whole = rest@;
        while rest.len() > 0
            invariant
                nonempty_files(whole) == nonempty_files(rest@) + kept@,
            decreases rest@.len(),
        {
            let ghost before = rest@;
            let f = rest.pop().unwrap();
            let keep = f.matches.len() > 0;
            proof {
                assert(before.drop_last() =~= rest@);
                assert(before.last() == f);
            }
            if keep {
                let ghost prev_kept = kept@;
                kept.insert(0, f);
                proof {
                    assert(kept@ =~= seq![kept@[0]] + prev_kept);
                    assert(nonempty_files(before) =~= nonempty_files(rest@).push(kept@[0]));
                    assert(nonempty_files(rest@).push(kept@[0]) + prev_kept =~= nonempty_files(
                        rest@,
                    ) + (seq![kept@[0]] + prev_kept));
                }
            }
        }
        proof {
            assert(nonempty_files(rest@).len() == 0);
            assert(nonempty_files(rest@) + kept@ =~= kept@);
        }
        DistributionScanResult { download_url, files: kept }
    }
}

/// Constructs a detailed file result for exercising the scoring paths: each
/// rule match carries only its identifier and a `weight` metadata entry.
pub fn make_file_scan_result(path: &str, id_weight: &[(&str, i64)]) -> (r: FileScanResult)
    ensures
        r.path@ == path@,
        r.matches@.len() == id_weight@.len(),
        forall|i: int|
            0 <= i < id_weight@.len() ==> (#[trigger] r.matches@[i]).identifier@
                == id_weight@[i].0@,
        forall|i: int|
            0 <= i < id_weight@.len() ==> spec_weight_i64(#[trigger] r.matches@[i])
                == id_weight@[i].1,
        forall|i: int| 0 <= i < id_weight@.len() ==> (#[trigger] r.matches@[i]).patterns@.len()
            == 0,
{
    let mut rule_matches: Vec<RuleMatch> = Vec::new();
    let mut i: usize = 0;
    while i < id_weight.len()
        invariant
            0 <= i <= id_weight@.len(),
            rule_matches@.len() == i,
            forall|t: int|
                0 <= t < i ==> (#[trigger] rule_matches@[t]).identifier@ == id_weight@[t].0@,
            forall|t: int|
                0 <= t < i ==> spec_weight_i64(#[trigger] rule_matches@[t]) == id_weight@[t].1,
            forall|t: int| 0 <= t < i ==> (#[trigger] rule_matches@[t]).patterns@.len() == 0,
        decreases id_weight@.len() - i,
    {
        let (id, weight) = id_weight[i];
        let entry = MetadataEntry {
            identifier: String::from_str("weight"),
            value: MetadataValue::Integer(weight),
        };
        let mut metadata: Vec<MetadataEntry> = Vec::new();
        metadata.push(entry);
        let m = RuleMatch {
            identifier: String::from_str(id),
            patterns: Vec::new(),
            metadata,
        };
        proof {
            reveal_strlit("weight");
            assert(m.metadata@.first().identifier@ == "weight"@);
            assert(spec_metadata_value(m.metadata@, "weight"@) == Option::Some(
                MetadataValue::Integer(weight),
            ));
        }
        rule_matches.push(m);
        i = i + 1;
    }
    FileScanResult { path: String::from_str(path), matches: rule_matches }
}

} // verus!
