//! Scan results and their aggregation.
//!
//! A file's scan yields the list of rules that matched it, each with a signed
//! weight. Files make a distribution, distributions make a package. The
//! functions here compute the derived quantities: per-file scores, the
//! deduplicated rule set of a distribution, its total score, the most
//! malicious file, the winning distribution, and the submission body.

use vstd::prelude::*;
use vstd::string::StringExecFns;
use crate::models::{spec_filetypes, spec_metadata_value, spec_weight_i64, RuleMatch, ScanResult,
    SubmitJobResultsError, SubmitJobResultsSuccess};
use crate::strutil::{append_str, seq_contains_seq, seq_ends_with, split_spaces, str_ends_with,
    str_eq, string_views};
use crate::sums::{abs_int, lemma_sum_abs_concat, lemma_sum_abs_nonneg, lemma_sum_abs_take_le,
    lemma_sum_within_abs, sum_abs, sum_ints};

verus! {

/// One matched rule: its identifier and its signed weight.
#[derive(Debug, Hash, Eq, PartialEq, Clone)]
pub struct RuleScore {
    pub name: String,
    pub score: i64,
}

/// A rule is identified, for deduplication, by its name and its weight both.
pub open spec fn rule_key(r: RuleScore) -> (Seq<char>, int) {
    (r.name@, r.score as int)
}

/// The weights of a list of matched rules, as mathematical integers.
pub open spec fn rule_weights(rules: Seq<RuleScore>) -> Seq<int> {
    rules.map_values(|r: RuleScore| r.score as int)
}

/// The results of scanning a single file: its path inside the distribution
/// and the rules that matched it.
#[derive(Debug, Clone)]
pub struct FileScanResult {
    pub path: String,
    pub rules: Vec<RuleScore>,
}

impl FileScanResult {
    /// The file's score: the sum of the weights of its matched rules.
    pub open spec fn spec_score(&self) -> int {
        sum_ints(rule_weights(self.rules@))
    }

    pub fn new(path: String, rules: Vec<RuleScore>) -> (r: FileScanResult)
        ensures
            r.path@ == path@,
            r.rules@ == rules@,
    {
        FileScanResult { path, rules }
    }

    /// Returns the total score of all matched rules.
    pub fn calculate_score(&self) -> (r: i64)
        requires
            sum_abs(rule_weights(self.rules@)) <= i64::MAX,
        ensures
            r == self.spec_score(),
    {
        sum_rule_scores(&self.rules)
    }
}

/// Sum the weights of `rules`, left to right.
pub fn sum_rule_scores(rules: &Vec<RuleScore>) -> (r: i64)
    requires
        sum_abs(rule_weights(rules@)) <= i64::MAX,
    ensures
        r == sum_ints(rule_weights(rules@)),
{
    let ghost weights = rule_weights(rules@);
    let mut total: i64 = 0;
    let mut i: usize = 0;
    while i < rules.len()
        invariant
            0 <= i <= rules@.len(),
            weights == rule_weights(rules@),
            weights.len() == rules@.len(),
            sum_abs(weights) <= i64::MAX,
            total == sum_ints(weights.take(i as int)),
        decreases rules@.len() - i,
    {
        proof {
            assert(weights.take(i + 1).drop_last() =~= weights.take(i as int));
            assert(weights.take(i + 1).last() == weights[i as int]);
            lemma_sum_within_abs(weights.take(i + 1));
            lemma_sum_abs_take_le(weights, i + 1);
            lemma_sum_abs_nonneg(weights.take(i + 1));
        }
        total = total + rules[i].score;
        i = i + 1;
    }
    proof {
        assert(weights.take(weights.len() as int) =~= weights);
    }
    total
}

/// Some rule in `s` has the key `k`.
pub open spec fn contains_rule_key(s: Seq<RuleScore>, k: (Seq<char>, int)) -> bool {
    exists|i: int| 0 <= i < s.len() && rule_key(#[trigger] s[i]) == k
}

/// Left-to-right deduplication by rule key: the first occurrence of each
/// (name, weight) pair is kept, in encounter order.
pub open spec fn dedup_rules(s: Seq<RuleScore>) -> Seq<RuleScore>
    decreases s.len(),
{
    if s.len() == 0 {
        Seq::empty()
    } else {
        let d = dedup_rules(s.drop_last());
        if contains_rule_key(d, rule_key(s.last())) {
            d
        } else {
            d.push(s.last())
        }
    }
}

/// All rules of a list of files, in file order then rule order.
pub open spec fn all_rules(files: Seq<FileScanResult>) -> Seq<RuleScore>
    decreases files.len(),
{
    if files.len() == 0 {
        Seq::empty()
    } else {
        all_rules(files.drop_last()) + files.last().rules@
    }
}

/// Appending one rule to a list adds exactly its key to the keys present.
pub proof fn lemma_contains_key_push(d: Seq<RuleScore>, x: RuleScore, k: (Seq<char>, int))
    ensures
        contains_rule_key(d.push(x), k) == (contains_rule_key(d, k) || rule_key(x) == k),
{
    if contains_rule_key(d.push(x), k) {
        let i = choose|i: int| 0 <= i < d.push(x).len() && rule_key(#[trigger] d.push(x)[i]) == k;
        if i < d.len() {
            assert(d.push(x)[i] == d[i]);
            assert(contains_rule_key(d, k));
        } else {
            assert(d.push(x)[i] == x);
        }
    }
    if contains_rule_key(d, k) {
        let i = choose|i: int| 0 <= i < d.len() && rule_key(#[trigger] d[i]) == k;
        assert(rule_key(d.push(x)[i]) == k);
        assert(contains_rule_key(d.push(x), k));
    }
    if rule_key(x) == k {
        assert(rule_key(d.push(x)[d.len() as int]) == k);
        assert(contains_rule_key(d.push(x), k));
    }
}

/// A nonempty list holds a key exactly when its last element has it or the
/// rest does.
pub proof fn lemma_contains_key_unsnoc(s: Seq<RuleScore>, k: (Seq<char>, int))
    requires
        s.len() > 0,
    ensures
        contains_rule_key(s, k) == (contains_rule_key(s.drop_last(), k) || rule_key(s.last()) == k),
{
    assert(s.drop_last().push(s.last()) =~= s);
    lemma_contains_key_push(s.drop_last(), s.last(), k);
}

/// Deduplication keeps a key exactly when the input holds it.
pub proof fn lemma_dedup_contains(s: Seq<RuleScore>, k: (Seq<char>, int))
    ensures
        contains_rule_key(dedup_rules(s), k) == contains_rule_key(s, k),
    decreases s.len(),
{
    if s.len() > 0 {
        lemma_dedup_contains(s.drop_last(), k);
        lemma_contains_key_unsnoc(s, k);
        let d = dedup_rules(s.drop_last());
        if contains_rule_key(d, rule_key(s.last())) {
            if rule_key(s.last()) == k {
                lemma_dedup_contains(s.drop_last(), rule_key(s.last()));
            }
        } else {
            lemma_contains_key_push(d, s.last(), k);
        }
    }
}

/// Deduplication keeps each key at most once.
pub proof fn lemma_dedup_distinct(s: Seq<RuleScore>)
    ensures
        forall|i: int, j: int|
            0 <= i < j < dedup_rules(s).len() ==> rule_key(dedup_rules(s)[i]) != rule_key(
                dedup_rules(s)[j],
            ),
    decreases s.len(),
{
    if s.len() > 0 {
        lemma_dedup_distinct(s.drop_last());
        let d = dedup_rules(s.drop_last());
        if !contains_rule_key(d, rule_key(s.last())) {
            assert forall|i: int, j: int|
                0 <= i < j < dedup_rules(s).len() implies rule_key(dedup_rules(s)[i]) != rule_key(
                dedup_rules(s)[j],
            ) by {
                if j == d.len() {
                    assert(dedup_rules(s)[i] == d[i]);
                    assert(dedup_rules(s)[j] == s.last());
                    if rule_key(d[i]) == rule_key(s.last()) {
                        assert(contains_rule_key(d, rule_key(s.last())));
                    }
                } else {
                    assert(dedup_rules(s)[i] == d[i]);
                    assert(dedup_rules(s)[j] == d[j]);
                }
            }
        }
    }
}

/// Dropping duplicates can only shrink the sum of absolute weights.
pub proof fn lemma_dedup_sum_abs_le(s: Seq<RuleScore>)
    ensures
        sum_abs(rule_weights(dedup_rules(s))) <= sum_abs(rule_weights(s)),
    decreases s.len(),
{
    if s.len() > 0 {
        lemma_dedup_sum_abs_le(s.drop_last());
        assert(rule_weights(s).drop_last() =~= rule_weights(s.drop_last()));
        let d = dedup_rules(s.drop_last());
        if contains_rule_key(d, rule_key(s.last())) {
            assert(abs_int(rule_weights(s).last()) >= 0);
        } else {
            assert(rule_weights(d.push(s.last())).drop_last() =~= rule_weights(d));
            assert(rule_weights(d.push(s.last())).last() == s.last().score as int);
        }
    }
}

/// Weights commute with concatenation.
pub proof fn lemma_rule_weights_concat(a: Seq<RuleScore>, b: Seq<RuleScore>)
    ensures
        rule_weights(a + b) =~= rule_weights(a) + rule_weights(b),
{
}

/// Each file's own absolute-weight sum is at most the distribution's.
pub proof fn lemma_file_abs_le(files: Seq<FileScanResult>, i: int)
    requires
        0 <= i < files.len(),
    ensures
        sum_abs(rule_weights(files[i].rules@)) <= sum_abs(rule_weights(all_rules(files))),
    decreases files.len(),
{
    lemma_rule_weights_concat(all_rules(files.drop_last()), files.last().rules@);
    lemma_sum_abs_concat(
        rule_weights(all_rules(files.drop_last())),
        rule_weights(files.last().rules@),
    );
    if i == files.len() - 1 {
        lemma_sum_abs_nonneg(rule_weights(all_rules(files.drop_last())));
    } else {
        lemma_file_abs_le(files.drop_last(), i);
        assert(files.drop_last()[i] == files[i]);
        lemma_sum_abs_nonneg(rule_weights(files.last().rules@));
    }
}

/// Duplicate one matched rule, field for field.
pub fn clone_rule(r: &RuleScore) -> (c: RuleScore)
    ensures
        c == *r,
{
    RuleScore { name: r.name.clone(), score: r.score }
}

/// Linear search for a rule with the same name and weight.
pub fn contains_rule(v: &Vec<RuleScore>, r: &RuleScore) -> (b: bool)
    ensures
        b == contains_rule_key(v@, rule_key(*r)),
{
    let mut i: usize = 0;
    while i < v.len()
        invariant
            0 <= i <= v@.len(),
            forall|t: int| 0 <= t < i ==> rule_key(v@[t]) != rule_key(*r),
        decreases v@.len() - i,
    {
        if v[i].score == r.score && v[i].name == r.name {
            assert(rule_key(v@[i as int]) == rule_key(*r));
            return true;
        }
        i = i + 1;
    }
    false
}

/// The index of the file with the greatest score; an earlier file wins a tie.
pub open spec fn best_file_index(files: Seq<FileScanResult>) -> int
    decreases files.len(),
{
    if files.len() <= 1 {
        0
    } else {
        let b = best_file_index(files.drop_last());
        if files.last().spec_score() > files[b].spec_score() {
            files.len() - 1
        } else {
            b
        }
    }
}

/// The best index points at a maximal score, and at the first file that
/// attains it.
pub proof fn lemma_best_file_index(files: Seq<FileScanResult>)
    requires
        files.len() > 0,
    ensures
        0 <= best_file_index(files) < files.len(),
        forall|j: int|
            0 <= j < files.len() ==> (#[trigger] files[j].spec_score())
                <= files[best_file_index(files)].spec_score(),
        forall|j: int|
            0 <= j < best_file_index(files) ==> (#[trigger] files[j].spec_score())
                < files[best_file_index(files)].spec_score(),
    decreases files.len(),
{
    if files.len() > 1 {
        lemma_best_file_index(files.drop_last());
        assert(forall|j: int|
            0 <= j < files.len() - 1 ==> files.drop_last()[j] == #[trigger] files[j]);
    }
}

/// Some file of the list matched at least one rule.
pub open spec fn any_file_has_match(files: Seq<FileScanResult>) -> bool {
    exists|i: int| 0 <= i < files.len() && #[trigger] files[i].rules@.len() > 0
}

/// The results of scanning one distribution: the per-file results, in archive
/// order, and the base inspector URL of the distribution.
#[derive(Debug)]
pub struct DistributionScanResults {
    /// The scan results for each file in this distribution.
    pub file_scan_results: Vec<FileScanResult>,

    /// The inspector URL pointing to this distribution's base.
    pub inspector_url: String,
}

impl DistributionScanResults {
    /// The distribution's matched rules, deduplicated, in encounter order.
    pub open spec fn spec_matched_rules(&self) -> Seq<RuleScore> {
        dedup_rules(all_rules(self.file_scan_results@))
    }

    /// The distribution's total score: each distinct (name, weight) pair
    /// counted once.
    pub open spec fn spec_total_score(&self) -> int {
        sum_ints(rule_weights(self.spec_matched_rules()))
    }

    /// The absolute weights of the whole distribution stay within `i64`;
    /// every summation below is then free of overflow.
    pub open spec fn weights_bounded(&self) -> bool {
        sum_abs(rule_weights(all_rules(self.file_scan_results@))) <= i64::MAX
    }

    pub fn new(file_scan_results: Vec<FileScanResult>, inspector_url: String) -> (r:
        DistributionScanResults)
        ensures
            r.file_scan_results@ == file_scan_results@,
            r.inspector_url@ == inspector_url@,
    {
        DistributionScanResults { file_scan_results, inspector_url }
    }

    /// Get all unique matched rules of this distribution, first encounter
    /// first.
    pub fn get_matched_rules(&self) -> (r: Vec<RuleScore>)
        ensures
            r@ == self.spec_matched_rules(),
    {
        let files = &self.file_scan_results;
        let mut out: Vec<RuleScore> = Vec::new();
        let mut i: usize = 0;
        while i < files.len()
            invariant
                0 <= i <= files@.len(),
                out@ == dedup_rules(all_rules(files@.take(i as int))),
            decreases files@.len() - i,
        {
            let rules = &files[i].rules;
            let mut j: usize = 0;
            while j < rules.len()
                invariant
                    0 <= j <= rules@.len(),
                    0 <= i < files@.len(),
                    rules@ == files@[i as int].rules@,
                    out@ == dedup_rules(all_rules(files@.take(i as int)) + rules@.take(j as int)),
                decreases rules@.len() - j,
            {
                let ghost prefix = all_rules(files@.take(i as int)) + rules@.take(j as int);
                proof {
                    assert(prefix.push(rules@[j as int]) =~= all_rules(files@.take(i as int))
                        + rules@.take(j + 1));
                    assert(prefix.push(rules@[j as int]).drop_last() =~= prefix);
                }
                let r = &rules[j];
                if !contains_rule(&out, r) {
                    out.push(clone_rule(r));
                }
                j = j + 1;
            }
            proof {
                assert(files@.take(i + 1).drop_last() =~= files@.take(i as int));
                assert(all_rules(files@.take(i + 1)) =~= all_rules(files@.take(i as int))
                    + files@[i as int].rules@);
                assert(all_rules(files@.take(i as int)) + rules@.take(rules@.len() as int)
                    =~= all_rules(files@.take(i + 1)));
            }
            i = i + 1;
        }
        proof {
            assert(files@.take(files@.len() as int) =~= files@);
        }
        out
    }

    /// Calculate the total score of this distribution, counting duplicates
    /// once.
    pub fn get_total_score(&self) -> (r: i64)
        requires
            self.weights_bounded(),
        ensures
            r == self.spec_total_score(),
    {
        let m = self.get_matched_rules();
        proof {
            lemma_dedup_sum_abs_le(all_rules(self.file_scan_results@));
        }
        sum_rule_scores(&m)
    }

    /// The identifiers of the unique matched rules of this distribution.
    pub fn get_matched_rule_identifiers(&self) -> (r: Vec<String>)
        ensures
            string_views(r@) == rule_names(self.spec_matched_rules()),
    {
        let m = self.get_matched_rules();
        let mut out: Vec<String> = Vec::new();
        let mut i: usize = 0;
        while i < m.len()
            invariant
                0 <= i <= m@.len(),
                string_views(out@) == rule_names(m@.take(i as int)),
            decreases m@.len() - i,
        {
            let ghost prev = out@;
            out.push(m[i].name.clone());
            proof {
                assert(string_views(out@) =~= string_views(prev).push(m@[i as int].name@));
                assert(m@.take(i + 1).drop_last() =~= m@.take(i as int));
                assert(rule_names(m@.take(i + 1)) =~= rule_names(m@.take(i as int)).push(
                    m@[i as int].name@,
                ));
            }
            i = i + 1;
        }
        proof {
            assert(m@.take(m@.len() as int) =~= m@);
        }
        out
    }

    /// The index of the most malicious file; ties go to the first.
    fn best_index(&self) -> (b: usize)
        requires
            self.weights_bounded(),
            self.file_scan_results@.len() > 0,
        ensures
            b == best_file_index(self.file_scan_results@),
            0 <= b < self.file_scan_results@.len(),
    {
        let files = &self.file_scan_results;
        proof {
            lemma_file_abs_le(files@, 0);
            lemma_best_file_index(files@);
        }
        let mut best: usize = 0;
        let mut best_score: i64 = files[0].calculate_score();
        let mut i: usize = 1;
        while i < files.len()
            invariant
                1 <= i <= files@.len(),
                0 <= best < i,
                best == best_file_index(files@.take(i as int)),
                best_score == files@[best as int].spec_score(),
                self.weights_bounded(),
                files@ == self.file_scan_results@,
            decreases files@.len() - i,
        {
            proof {
                lemma_file_abs_le(files@, i as int);
            }
            let score = files[i].calculate_score();
            proof {
                assert(files@.take(i + 1).drop_last() =~= files@.take(i as int));
                assert(files@.take(i + 1).last() == files@[i as int]);
                assert(forall|t: int|
                    0 <= t < i + 1 ==> files@.take(i + 1)[t] == #[trigger] files@[t]);
            }
            if score > best_score {
                best = i;
                best_score = score;
            }
            i = i + 1;
        }
        proof {
            assert(files@.take(files@.len() as int) =~= files@);
        }
        best
    }

    /// Get the most malicious file of the distribution: the one with the
    /// greatest score, ties resolved in favour of the first encountered.
    pub fn get_most_malicious_file(&self) -> (r: Option<&FileScanResult>)
        requires
            self.weights_bounded(),
        ensures
            match r {
                None => self.file_scan_results@.len() == 0,
                Some(f) => self.file_scan_results@.len() > 0 && *f == self.file_scan_results@[
                    best_file_index(self.file_scan_results@)],
            },
    {
        if self.file_scan_results.len() == 0 {
            return None;
        }
        let best = self.best_index();
        Some(&self.file_scan_results[best])
    }

    /// Return the inspector URL of the most malicious file, or `None` when no
    /// file of the distribution matched any rule.
    pub fn inspector_url(&self) -> (r: Option<String>)
        requires
            self.weights_bounded(),
        ensures
            match r {
                None => !any_file_has_match(self.file_scan_results@),
                Some(u) => any_file_has_match(self.file_scan_results@) && u@ == self.inspector_url@
                    + self.file_scan_results@[best_file_index(self.file_scan_results@)].path@,
            },
    {
        let files = &self.file_scan_results;
        let mut found_match = false;
        let mut i: usize = 0;
        while i < files.len()
            invariant
                0 <= i <= files@.len(),
                found_match == (exists|t: int| 0 <= t < i && #[trigger] files@[t].rules@.len() > 0),
            decreases files@.len() - i,
        {
            if files[i].rules.len() > 0 {
                found_match = true;
            }
            i = i + 1;
        }
        if !found_match {
            return None;
        }
        let best = self.best_index();
        let mut url = self.inspector_url.clone();
        append_str(&mut url, self.file_scan_results[best].path.as_str());
        Some(url)
    }
}

/// The identifiers of a list of rules, in order.
pub open spec fn rule_names(s: Seq<RuleScore>) -> Seq<Seq<char>> {
    s.map_values(|r: RuleScore| r.name@)
}

/// The filetype gate: a rule applies to a path exactly when its suffix list
/// is empty or the path ends with one of the suffixes.
pub open spec fn rule_applies(m: RuleMatch, path: Seq<char>) -> bool {
    spec_filetypes(m).len() == 0 || exists|i: int|
        0 <= i < spec_filetypes(m).len() && seq_ends_with(path, #[trigger] spec_filetypes(m)[i])
}

/// Decide the filetype gate for one matched rule and one path.
pub fn rule_applies_to(m: &RuleMatch, path: &str) -> (r: bool)
    ensures
        r == rule_applies(*m, path@),
{
    let fts = m.get_filetypes();
    if fts.len() == 0 {
        return true;
    }
    let mut i: usize = 0;
    while i < fts.len()
        invariant
            0 <= i <= fts@.len(),
            string_views(fts@) == spec_filetypes(*m),
            forall|t: int| 0 <= t < i ==> !seq_ends_with(path@, spec_filetypes(*m)[t]),
        decreases fts@.len() - i,
    {
        if str_ends_with(path, fts[i].as_str()) {
            proof {
                assert(seq_ends_with(path@, spec_filetypes(*m)[i as int]));
            }
            return true;
        }
        i = i + 1;
    }
    false
}

/// The rules of `matches` that pass the filetype gate for `path`, each paired
/// with its weight, in match order.
pub open spec fn gated_rules(matches: Seq<RuleMatch>, path: Seq<char>) -> Seq<RuleScore>
    decreases matches.len(),
{
    if matches.len() == 0 {
        Seq::empty()
    } else {
        let rest = gated_rules(matches.drop_last(), path);
        if rule_applies(matches.last(), path) {
            rest.push(
                RuleScore {
                    name: matches.last().identifier,
                    score: spec_weight_i64(matches.last()),
                },
            )
        } else {
            rest
        }
    }
}

/// Turn the engine's matches for one file into that file's scan result:
/// filetype gating decides which matches count, and each kept rule carries
/// its weight.
pub fn scan_file_matches(path: String, matches: &Vec<RuleMatch>) -> (r: FileScanResult)
    ensures
        r.path@ == path@,
        r.rules@ == gated_rules(matches@, path@),
{
    let mut rules: Vec<RuleScore> = Vec::new();
    let mut i: usize = 0;
    while i < matches.len()
        invariant
            0 <= i <= matches@.len(),
            rules@ == gated_rules(matches@.take(i as int), path@),
        decreases matches@.len() - i,
    {
        proof {
            assert(matches@.take(i + 1).drop_last() =~= matches@.take(i as int));
            assert(matches@.take(i + 1).last() == matches@[i as int]);
        }
        if rule_applies_to(&matches[i], path.as_str()) {
            let name = matches[i].identifier.clone();
            let score = matches[i].score();
            rules.push(RuleScore { name, score });
        }
        i = i + 1;
    }
    proof {
        assert(matches@.take(matches@.len() as int) =~= matches@);
    }
    FileScanResult { path, rules }
}


/// Some string of `s` equals `x`.
pub open spec fn contains_str(s: Seq<Seq<char>>, x: Seq<char>) -> bool {
    exists|i: int| 0 <= i < s.len() && #[trigger] s[i] == x
}

/// Left-to-right deduplication of strings: the first occurrence of each is
/// kept, in encounter order.
pub open spec fn dedup_strs(s: Seq<Seq<char>>) -> Seq<Seq<char>>
    decreases s.len(),
{
    if s.len() == 0 {
        Seq::empty()
    } else {
        let d = dedup_strs(s.drop_last());
        if contains_str(d, s.last()) {
            d
        } else {
            d.push(s.last())
        }
    }
}

/// Appending one string adds exactly it to the strings present.
pub proof fn lemma_contains_str_push(d: Seq<Seq<char>>, x: Seq<char>, y: Seq<char>)
    ensures
        contains_str(d.push(x), y) == (contains_str(d, y) || x == y),
{
    if contains_str(d.push(x), y) {
        let i = choose|i: int| 0 <= i < d.push(x).len() && #[trigger] d.push(x)[i] == y;
        if i < d.len() {
            assert(d.push(x)[i] == d[i]);
            assert(contains_str(d, y));
        } else {
            assert(d.push(x)[i] == x);
        }
    }
    if contains_str(d, y) {
        let i = choose|i: int| 0 <= i < d.len() && #[trigger] d[i] == y;
        assert(d.push(x)[i] == y);
        assert(contains_str(d.push(x), y));
    }
    if x == y {
        assert(d.push(x)[d.len() as int] == y);
        assert(contains_str(d.push(x), y));
    }
}

/// String deduplication keeps a string exactly when the input holds it.
pub proof fn lemma_dedup_strs_contains(s: Seq<Seq<char>>, y: Seq<char>)
    ensures
        contains_str(dedup_strs(s), y) == contains_str(s, y),
    decreases s.len(),
{
    if s.len() > 0 {
        lemma_dedup_strs_contains(s.drop_last(), y);
        assert(s.drop_last().push(s.last()) =~= s);
        lemma_contains_str_push(s.drop_last(), s.last(), y);
        let d = dedup_strs(s.drop_last());
        if contains_str(d, s.last()) {
            if s.last() == y {
                lemma_dedup_strs_contains(s.drop_last(), s.last());
            }
        } else {
            lemma_contains_str_push(d, s.last(), y);
        }
    }
}

/// String deduplication keeps each string at most once.
pub proof fn lemma_dedup_strs_distinct(s: Seq<Seq<char>>)
    ensures
        forall|i: int, j: int|
            0 <= i < j < dedup_strs(s).len() ==> dedup_strs(s)[i] != dedup_strs(s)[j],
    decreases s.len(),
{
    if s.len() > 0 {
        lemma_dedup_strs_distinct(s.drop_last());
        let d = dedup_strs(s.drop_last());
        if !contains_str(d, s.last()) {
            assert forall|i: int, j: int|
                0 <= i < j < dedup_strs(s).len() implies dedup_strs(s)[i] != dedup_strs(s)[j] by {
                if j == d.len() {
                    assert(dedup_strs(s)[i] == d[i]);
                    assert(dedup_strs(s)[j] == s.last());
                    if d[i] == s.last() {
                        assert(contains_str(d, s.last()));
                    }
                } else {
                    assert(dedup_strs(s)[i] == d[i]);
                    assert(dedup_strs(s)[j] == d[j]);
                }
            }
        }
    }
}

/// Linear search for a string among the collected names.
pub fn contains_string(v: &Vec<String>, x: &String) -> (b: bool)
    ensures
        b == contains_str(string_views(v@), x@),
{
    let mut i: usize = 0;
    while i < v.len()
        invariant
            0 <= i <= v@.len(),
            forall|t: int| 0 <= t < i ==> string_views(v@)[t] != x@,
        decreases v@.len() - i,
    {
        if str_eq(v[i].as_str(), x.as_str()) {
            assert(string_views(v@)[i as int] == x@);
            return true;
        }
        i = i + 1;
    }
    false
}

/// The matched rule names of a list of distributions, in distribution order;
/// within one distribution, in dedup (encounter) order.
pub open spec fn dist_name_seqs(dists: Seq<DistributionScanResults>) -> Seq<Seq<char>>
    decreases dists.len(),
{
    if dists.len() == 0 {
        Seq::empty()
    } else {
        dist_name_seqs(dists.drop_last()) + rule_names(dists.last().spec_matched_rules())
    }
}

/// Every distribution of the list keeps its absolute weights inside `i64`.
pub open spec fn dists_bounded(dists: Seq<DistributionScanResults>) -> bool {
    forall|i: int| 0 <= i < dists.len() ==> (#[trigger] dists[i]).weights_bounded()
}

/// The index of the distribution with the greatest total score; an earlier
/// distribution wins a tie.
pub open spec fn best_dist_index(dists: Seq<DistributionScanResults>) -> int
    decreases dists.len(),
{
    if dists.len() <= 1 {
        0
    } else {
        let b = best_dist_index(dists.drop_last());
        if dists.last().spec_total_score() > dists[b].spec_total_score() {
            dists.len() - 1
        } else {
            b
        }
    }
}

/// The best index points at a maximal total score, and at the first
/// distribution that attains it.
pub proof fn lemma_best_dist_index(dists: Seq<DistributionScanResults>)
    requires
        dists.len() > 0,
    ensures
        0 <= best_dist_index(dists) < dists.len(),
        forall|j: int|
            0 <= j < dists.len() ==> (#[trigger] dists[j].spec_total_score())
                <= dists[best_dist_index(dists)].spec_total_score(),
        forall|j: int|
            0 <= j < best_dist_index(dists) ==> (#[trigger] dists[j].spec_total_score())
                < dists[best_dist_index(dists)].spec_total_score(),
    decreases dists.len(),
{
    if dists.len() > 1 {
        lemma_best_dist_index(dists.drop_last());
        assert(forall|j: int|
            0 <= j < dists.len() - 1 ==> dists.drop_last()[j] == #[trigger] dists[j]);
    }
}

/// The results of scanning all distributions of one package.
#[derive(Debug)]
pub struct PackageScanResults {
    pub name: String,
    pub version: String,
    pub distribution_scan_results: Vec<DistributionScanResults>,
    pub commit_hash: String,
}

impl PackageScanResults {
    pub fn new(
        name: String,
        version: String,
        distribution_scan_results: Vec<DistributionScanResults>,
        commit_hash: String,
    ) -> (r: PackageScanResults)
        ensures
            r.name@ == name@,
            r.version@ == version@,
            r.distribution_scan_results@ == distribution_scan_results@,
            r.commit_hash@ == commit_hash@,
    {
        PackageScanResults { name, version, distribution_scan_results, commit_hash }
    }

    /// The winning distribution: greatest total score, earliest on a tie.
    pub open spec fn spec_winning(&self) -> DistributionScanResults {
        self.distribution_scan_results@[best_dist_index(self.distribution_scan_results@)]
    }

    /// The package's score: the winning distribution's total score, or 0
    /// without distributions.
    pub open spec fn spec_score(&self) -> int {
        if self.distribution_scan_results@.len() == 0 {
            0
        } else {
            self.spec_winning().spec_total_score()
        }
    }

    /// The package's inspector URL: the winning distribution's, absent when
    /// that distribution has no file with a match.
    pub open spec fn spec_inspector_url(&self) -> Option<Seq<char>> {
        if self.distribution_scan_results@.len() == 0 {
            Option::None
        } else if !any_file_has_match(self.spec_winning().file_scan_results@) {
            Option::None
        } else {
            Option::Some(
                self.spec_winning().inspector_url@ + self.spec_winning().file_scan_results@[
                    best_file_index(self.spec_winning().file_scan_results@)].path@,
            )
        }
    }

    /// The distinct matched rule names across all distributions.
    pub open spec fn spec_rules_matched(&self) -> Seq<Seq<char>> {
        dedup_strs(dist_name_seqs(self.distribution_scan_results@))
    }

    /// Format the package scan results into the body to send: the winning
    /// distribution's score and inspector URL, the union of matched rule
    /// names, and the ruleset hash the scan used.
    pub fn build_body(&self) -> (r: SubmitJobResultsSuccess)
        requires
            dists_bounded(self.distribution_scan_results@),
        ensures
            r.name@ == self.name@,
            r.version@ == self.version@,
            r.commit@ == self.commit_hash@,
            r.score == self.spec_score(),
            match r.inspector_url {
                Option::None => self.spec_inspector_url() is None,
                Option::Some(u) => self.spec_inspector_url() == Option::Some(u@),
            },
            string_views(r.rules_matched@) == self.spec_rules_matched(),
    {
        let dists = &self.distribution_scan_results;

        let score: i64;
        let inspector_url: Option<String>;
        if dists.len() == 0 {
            score = 0;
            inspector_url = None;
        } else {
            proof {
                lemma_best_dist_index(dists@);
            }
            let mut best: usize = 0;
            let mut best_score: i64 = dists[0].get_total_score();
            let mut i: usize = 1;
            while i < dists.len()
                invariant
                    1 <= i <= dists@.len(),
                    0 <= best < i,
                    dists_bounded(dists@),
                    dists@ == self.distribution_scan_results@,
                    best == best_dist_index(dists@.take(i as int)),
                    best_score == dists@[best as int].spec_total_score(),
                decreases dists@.len() - i,
            {
                let s = dists[i].get_total_score();
                proof {
                    assert(dists@.take(i + 1).drop_last() =~= dists@.take(i as int));
                    assert(dists@.take(i + 1).last() == dists@[i as int]);
                    assert(forall|t: int|
                        0 <= t < i + 1 ==> dists@.take(i + 1)[t] == #[trigger] dists@[t]);
                }
                if s > best_score {
                    best = i;
                    best_score = s;
                }
                i = i + 1;
            }
            proof {
                assert(dists@.take(dists@.len() as int) =~= dists@);
            }
            score = best_score;
            inspector_url = dists[best].inspector_url();
        }

        let mut rules_matched: Vec<String> = Vec::new();
        proof {
            assert(string_views(rules_matched@) =~= Seq::<Seq<char>>::empty());
            assert(dist_name_seqs(dists@.take(0)) =~= Seq::<Seq<char>>::empty());
            assert(Seq::<Seq<char>>::empty() + Seq::<Seq<char>>::empty()
                =~= Seq::<Seq<char>>::empty());
            assert(string_views(rules_matched@) =~= dedup_strs(dist_name_seqs(dists@.take(0))));
        }
        let mut i: usize = 0;
        while i < dists.len()
            invariant
                0 <= i <= dists@.len(),
                dists@ == self.distribution_scan_results@,
                string_views(rules_matched@) == dedup_strs(dist_name_seqs(dists@.take(i as int))),
            decreases dists@.len() - i,
        {
            let ids = dists[i].get_matched_rule_identifiers();
            let ghost svs = string_views(ids@);
            let ghost base = dist_name_seqs(dists@.take(i as int));
            proof {
                assert(base + svs.take(0) =~= base);
            }
            let mut j: usize = 0;
            while j < ids.len()
                invariant
                    0 <= j <= ids@.len(),
                    svs == string_views(ids@),
                    svs.len() == ids@.len(),
                    string_views(rules_matched@) == dedup_strs(base + svs.take(j as int)),
                decreases ids@.len() - j,
            {
                let ghost prefix = base + svs.take(j as int);
                proof {
                    assert(prefix.push(svs[j as int]) =~= base + svs.take(j + 1));
                    assert(prefix.push(svs[j as int]).drop_last() =~= prefix);
                }
                if !contains_string(&rules_matched, &ids[j]) {
                    let ghost prev = rules_matched@;
                    rules_matched.push(ids[j].clone());
                    proof {
                        assert(string_views(rules_matched@) =~= string_views(prev).push(
                            svs[j as int],
                        ));
                    }
                }
                j = j + 1;
            }
            proof {
                assert(svs.take(svs.len() as int) =~= svs);
                assert(dists@.take(i + 1).drop_last() =~= dists@.take(i as int));
                assert(dists@.take(i + 1).last() == dists@[i as int]);
                assert(dist_name_seqs(dists@.take(i + 1)) =~= base + svs);
            }
            i = i + 1;
        }
        proof {
            assert(dists@.take(dists@.len() as int) =~= dists@);
        }

        SubmitJobResultsSuccess {
            name: self.name.clone(),
            version: self.version.clone(),
            score,
            inspector_url,
            rules_matched,
            commit: self.commit_hash.clone(),
        }
    }
}


/// One archive entry as the scanner sees it before reading: its declared
/// path and its declared size.
#[derive(Debug, Clone)]
pub struct ArchiveEntry {
    pub path: String,
    pub size: u64,
}

/// The failure reason reported for an oversize entry; it names the entry.
pub open spec fn oversize_reason(path: Seq<char>) -> Seq<char> {
    "Download too large: "@ + path
}

pub fn oversize_entry_reason(path: &str) -> (r: String)
    ensures
        r@ == oversize_reason(path@),
{
    let mut s = String::from_str("Download too large: ");
    append_str(&mut s, path);
    s
}

/// An oversize rejection names the offending entry in its reason.
pub proof fn lemma_oversize_reason_mentions_entry(path: Seq<char>)
    ensures
        seq_contains_seq(oversize_reason(path), path),
{
    let lit = "Download too large: "@;
    let hay = oversize_reason(path);
    assert(hay.subrange(lit.len() as int, lit.len() as int + path.len() as int) =~= path);
}

/// What to do with one archive entry, decided on its declared size alone.
#[derive(Debug)]
pub enum EntryDecision {
    /// Read the entry and scan it.
    Scan,
    /// Fail the whole distribution; the reason names the entry.
    RejectOversize(String),
}

/// Decide one entry before any of its bytes are read: an entry whose
/// declared size exceeds the cap fails the distribution.
pub fn check_entry_size(path: &str, declared_size: u64, max_scan_size: u64) -> (d: EntryDecision)
    ensures
        declared_size <= max_scan_size ==> d is Scan,
        declared_size > max_scan_size ==> (d matches EntryDecision::RejectOversize(m) && m@
            == oversize_reason(path@)),
{
    if declared_size > max_scan_size {
        EntryDecision::RejectOversize(oversize_entry_reason(path))
    } else {
        EntryDecision::Scan
    }
}

/// Gate a whole archive: accept when every entry is within the cap, else
/// report the first oversize entry by name.
pub fn check_all_entry_sizes(entries: &Vec<ArchiveEntry>, max_scan_size: u64) -> (r: Result<
    (),
    String,
>)
    ensures
        (r is Ok) == (forall|i: int|
            0 <= i < entries@.len() ==> (#[trigger] entries@[i]).size <= max_scan_size),
        r matches Err(m) ==> exists|i: int|
            0 <= i < entries@.len() && (#[trigger] entries@[i]).size > max_scan_size && m@
                == oversize_reason(entries@[i].path@) && (forall|j: int|
                0 <= j < i ==> (#[trigger] entries@[j]).size <= max_scan_size),
    {
    let mut i: usize = 0;
    while i < entries.len()
        invariant
            0 <= i <= entries@.len(),
            forall|t: int| 0 <= t < i ==> (#[trigger] entries@[t]).size <= max_scan_size,
        decreases entries@.len() - i,
    {
        if entries[i].size > max_scan_size {
            let m = oversize_entry_reason(entries[i].path.as_str());
            return Err(m);
        }
        i = i + 1;
    }
    Ok(())
}

/// The per-job outcome: the success body built from the distribution
/// results, or a failure body carrying the first error's description. Every
/// job ends in exactly one of the two.
pub fn scan_package_result(
    name: String,
    version: String,
    commit_hash: String,
    outcome: Result<Vec<DistributionScanResults>, String>,
) -> (r: ScanResult)
    requires
        outcome matches Ok(d) ==> dists_bounded(d@),
    ensures
        outcome matches Err(e) ==> (r matches Err(err) && err.name@ == name@ && err.version@
            == version@ && err.reason@ == e@),
        outcome matches Ok(d) ==> (r matches Ok(b) && {
            let p = PackageScanResults {
                name: name,
                version: version,
                distribution_scan_results: d,
                commit_hash: commit_hash,
            };
            &&& b.name@ == name@
            &&& b.version@ == version@
            &&& b.commit@ == commit_hash@
            &&& b.score == p.spec_score()
            &&& (match b.inspector_url {
                Option::None => p.spec_inspector_url() is None,
                Option::Some(u) => p.spec_inspector_url() == Option::Some(u@),
            })
            &&& string_views(b.rules_matched@) == p.spec_rules_matched()
        }),
{
    match outcome {
        Ok(d) => {
            let p = PackageScanResults::new(name, version, d, commit_hash);
            let body = p.build_body();
            Ok(body)
        },
        Err(e) => Err(SubmitJobResultsError { name, version, reason: e }),
    }
}

/// The total score counts each distinct (name, weight) pair exactly once:
/// the deduplicated rule set carries no duplicate key and holds exactly the
/// keys that the distribution's files matched.
pub proof fn lemma_total_score_counts_unique(d: DistributionScanResults)
    ensures
        d.spec_total_score() == sum_ints(rule_weights(d.spec_matched_rules())),
        forall|i: int, j: int|
            0 <= i < j < d.spec_matched_rules().len() ==> rule_key(d.spec_matched_rules()[i])
                != rule_key(d.spec_matched_rules()[j]),
        forall|k: (Seq<char>, int)|
            contains_rule_key(d.spec_matched_rules(), k) == contains_rule_key(
                all_rules(d.file_scan_results@),
                k,
            ),
{
    lemma_dedup_distinct(all_rules(d.file_scan_results@));
    assert forall|k: (Seq<char>, int)|
        contains_rule_key(d.spec_matched_rules(), k) == contains_rule_key(
            all_rules(d.file_scan_results@),
            k,
        ) by {
        lemma_dedup_contains(all_rules(d.file_scan_results@), k);
    }
}

/// The package score is the greatest distribution total, it is attained, and
/// the inspector URL is present exactly when some file of the winning
/// distribution matched at least one rule.
pub proof fn lemma_package_score_is_max(p: PackageScanResults)
    requires
        p.distribution_scan_results@.len() > 0,
    ensures
        forall|i: int|
            0 <= i < p.distribution_scan_results@.len() ==> (
            #[trigger] p.distribution_scan_results@[i].spec_total_score()) <= p.spec_score(),
        exists|i: int|
            0 <= i < p.distribution_scan_results@.len() && (
            #[trigger] p.distribution_scan_results@[i].spec_total_score()) == p.spec_score(),
        (p.spec_inspector_url() is Some) == any_file_has_match(
            p.spec_winning().file_scan_results@,
        ),
{
    lemma_best_dist_index(p.distribution_scan_results@);
    let b = best_dist_index(p.distribution_scan_results@);
    assert(p.distribution_scan_results@[b].spec_total_score() == p.spec_score());
}

/// A distribution with no files scores zero and offers no inspector URL.
pub proof fn lemma_empty_distribution(d: DistributionScanResults)
    requires
        d.file_scan_results@.len() == 0,
    ensures
        d.spec_total_score() == 0,
        !any_file_has_match(d.file_scan_results@),
{
}

/// Every match that the filetype gate keeps leaves its key among the kept rules.
pub proof fn lemma_gated_rules_contains(matches: Seq<RuleMatch>, path: Seq<char>, i: int)
    requires
        0 <= i < matches.len(),
        rule_applies(matches[i], path),
    ensures
        contains_rule_key(
            gated_rules(matches, path),
            (matches[i].identifier@, spec_weight_i64(matches[i]) as int),
        ),
    decreases matches.len(),
{
    let rest = gated_rules(matches.drop_last(), path);
    if i == matches.len() - 1 {
        let rs = RuleScore {
            name: matches.last().identifier,
            score: spec_weight_i64(matches.last()),
        };
        assert(rule_key(rest.push(rs)[rest.len() as int]) == (
            matches[i].identifier@,
            spec_weight_i64(matches[i]) as int,
        ));
    } else {
        assert(matches.drop_last()[i] == matches[i]);
        lemma_gated_rules_contains(matches.drop_last(), path, i);
        if rule_applies(matches.last(), path) {
            let rs = RuleScore {
                name: matches.last().identifier,
                score: spec_weight_i64(matches.last()),
            };
            lemma_contains_key_push(
                rest,
                rs,
                (matches[i].identifier@, spec_weight_i64(matches[i]) as int),
            );
        }
    }
}

/// A rule without weight metadata contributes nothing to the score, yet its
/// match still counts: its name stands among the file's gated rules, with
/// weight zero.
pub proof fn lemma_unweighted_rule_counts(matches: Seq<RuleMatch>, path: Seq<char>, i: int)
    requires
        0 <= i < matches.len(),
        spec_metadata_value(matches[i].metadata@, "weight"@) is None,
        rule_applies(matches[i], path),
    ensures
        spec_weight_i64(matches[i]) == 0,
        contains_rule_key(gated_rules(matches, path), (matches[i].identifier@, 0)),
{
    lemma_gated_rules_contains(matches, path, i);
}

/// A rule with no filetype metadata, and a rule whose filetype metadata is
/// the empty string, apply to every file.
pub proof fn lemma_empty_filetype_applies(m: RuleMatch, path: Seq<char>)
    ensures
        spec_filetypes(m).len() == 0 ==> rule_applies(m, path),
        spec_filetypes(m) == split_spaces(Seq::<char>::empty()) ==> rule_applies(m, path),
{
    if spec_filetypes(m) == split_spaces(Seq::<char>::empty()) {
        assert(split_spaces(Seq::<char>::empty()) == seq![Seq::<char>::empty()]);
        assert(path.subrange(path.len() as int, path.len() as int) =~= Seq::<char>::empty());
        assert(seq_ends_with(path, Seq::<char>::empty()));
        assert(spec_filetypes(m)[0] == Seq::<char>::empty());
    }
}


/// A sum of absolute weights, capped just above what `i64` can hold; enough
/// to decide whether the true sum fits.
pub open spec fn capped_abs_sum(x: int) -> int {
    if x > i64::MAX {
        i64::MAX + 1
    } else {
        x
    }
}

/// The absolute value of one weight, exactly.
fn weight_abs(s: i64) -> (a: u128)
    ensures
        a as int == abs_int(s as int),
{
    if s < 0 {
        ((-(s + 1)) as u128) + 1
    } else {
        s as u128
    }
}

/// Decide whether one distribution's absolute weights fit `i64`; only then
/// can its scores be summed.
pub fn distribution_weights_bounded(d: &DistributionScanResults) -> (b: bool)
    ensures
        b == d.weights_bounded(),
{
    let files = &d.file_scan_results;
    let mut acc: u128 = 0;
    proof {
        assert(all_rules(files@.take(0)) + Seq::<RuleScore>::empty().take(0)
            =~= Seq::<RuleScore>::empty());
        assert(rule_weights(Seq::<RuleScore>::empty()) =~= Seq::<int>::empty());
    }
    let mut i: usize = 0;
    while i < files.len()
        invariant
            0 <= i <= files@.len(),
            files@ == d.file_scan_results@,
            acc <= i64::MAX as u128 + 1,
            acc as int == capped_abs_sum(sum_abs(rule_weights(all_rules(files@.take(i as int))))),
        decreases files@.len() - i,
    {
        let rules = &files[i].rules;
        let mut j: usize = 0;
        while j < rules.len()
            invariant
                0 <= j <= rules@.len(),
                0 <= i < files@.len(),
                files@ == d.file_scan_results@,
                rules@ == files@[i as int].rules@,
                acc <= i64::MAX as u128 + 1,
                acc as int == capped_abs_sum(
                    sum_abs(
                        rule_weights(all_rules(files@.take(i as int)) + rules@.take(j as int)),
                    ),
                ),
            decreases rules@.len() - j,
        {
            let ghost prefix = all_rules(files@.take(i as int)) + rules@.take(j as int);
            proof {
                assert(prefix.push(rules@[j as int]) =~= all_rules(files@.take(i as int))
                    + rules@.take(j + 1));
                assert(rule_weights(prefix.push(rules@[j as int])).drop_last() =~= rule_weights(
                    prefix,
                ));
                assert(rule_weights(prefix.push(rules@[j as int])).last() == rules@[
                    j as int].score as int);
                lemma_sum_abs_nonneg(rule_weights(prefix));
            }
            let a = weight_abs(rules[j].score);
            acc = acc + a;
            if acc > i64::MAX as u128 {
                acc = i64::MAX as u128 + 1;
            }
            j = j + 1;
        }
        proof {
            assert(files@.take(i + 1).drop_last() =~= files@.take(i as int));
            assert(all_rules(files@.take(i + 1)) =~= all_rules(files@.take(i as int))
                + files@[i as int].rules@);
            assert(all_rules(files@.take(i as int)) + rules@.take(rules@.len() as int)
                =~= all_rules(files@.take(i + 1)));
            assert(all_rules(files@.take(i + 1)) + files@[i as int].rules@.take(0) =~= all_rules(
                files@.take(i + 1),
            ));
        }
        i = i + 1;
    }
    proof {
        assert(files@.take(files@.len() as int) =~= files@);
    }
    acc <= i64::MAX as u128
}

/// Decide whether every distribution's absolute weights fit `i64`. The
/// aggregation functions ask for this; a caller checks it first and reports
/// a failure instead of scoring when it does not hold.
pub fn all_weights_bounded(dists: &Vec<DistributionScanResults>) -> (b: bool)
    ensures
        b == dists_bounded(dists@),
{
    let mut i: usize = 0;
    while i < dists.len()
        invariant
            0 <= i <= dists@.len(),
            forall|t: int| 0 <= t < i ==> (#[trigger] dists@[t]).weights_bounded(),
        decreases dists@.len() - i,
    {
        if !distribution_weights_bounded(&dists[i]) {
            return false;
        }
        i = i + 1;
    }
    true
}


/// The body's matched-rule names are the union of the distributions' matched
/// rule names: each name appears exactly when some distribution matched it,
/// and no name appears twice.
pub proof fn lemma_rules_matched_is_union(p: PackageScanResults)
    ensures
        forall|y: Seq<char>|
            contains_str(p.spec_rules_matched(), y) == contains_str(
                dist_name_seqs(p.distribution_scan_results@),
                y,
            ),
        forall|i: int, j: int|
            0 <= i < j < p.spec_rules_matched().len() ==> p.spec_rules_matched()[i]
                != p.spec_rules_matched()[j],
{
    assert forall|y: Seq<char>|
        contains_str(p.spec_rules_matched(), y) == contains_str(
            dist_name_seqs(p.distribution_scan_results@),
            y,
        ) by {
        lemma_dedup_strs_contains(dist_name_seqs(p.distribution_scan_results@), y);
    }
    lemma_dedup_strs_distinct(dist_name_seqs(p.distribution_scan_results@));
}


/// Removing one element takes exactly its value out of the sum.
pub proof fn lemma_sum_ints_remove(s: Seq<int>, j: int)
    requires
        0 <= j < s.len(),
    ensures
        sum_ints(s) == sum_ints(s.remove(j)) + s[j],
    decreases s.len(),
{
    if j == s.len() - 1 {
        assert(s.remove(j) =~= s.drop_last());
    } else {
        lemma_sum_ints_remove(s.drop_last(), j);
        assert(s.remove(j).drop_last() =~= s.drop_last().remove(j));
        assert(s.remove(j).last() == s.last());
    }
}

/// The total score is determined by the set of matched (name, weight) pairs
/// alone: two duplicate-free lists holding the same keys have the same
/// weight sum, whatever their order.
pub proof fn lemma_sum_determined_by_keys(a: Seq<RuleScore>, b: Seq<RuleScore>)
    requires
        forall|i: int, j: int| 0 <= i < j < a.len() ==> rule_key(a[i]) != rule_key(a[j]),
        forall|i: int, j: int| 0 <= i < j < b.len() ==> rule_key(b[i]) != rule_key(b[j]),
        forall|k: (Seq<char>, int)| contains_rule_key(a, k) == contains_rule_key(b, k),
    ensures
        sum_ints(rule_weights(a)) == sum_ints(rule_weights(b)),
    decreases a.len(),
{
    if a.len() == 0 {
        if b.len() > 0 {
            assert(contains_rule_key(b, rule_key(b[0])));
            assert(contains_rule_key(a, rule_key(b[0])));
        }
        assert(rule_weights(b) =~= Seq::<int>::empty());
    } else {
        let x = a.last();
        assert(contains_rule_key(a, rule_key(x)));
        let j = choose|j: int| 0 <= j < b.len() && rule_key(#[trigger] b[j]) == rule_key(x);
        let a1 = a.drop_last();
        let b1 = b.remove(j);

        assert(forall|i: int| 0 <= i < j ==> b1[i] == b[i]);
        assert(forall|i: int| j <= i < b1.len() ==> b1[i] == b[i + 1]);

        // The shortened lists still hold each key at most once.
        assert(forall|i: int, t: int| 0 <= i < t < a1.len() ==> rule_key(a1[i]) != rule_key(
            a1[t],
        ));
        assert forall|i: int, t: int| 0 <= i < t < b1.len() implies rule_key(b1[i]) != rule_key(
            b1[t],
        ) by {
            let bi = if i < j { i } else { i + 1 };
            let bt = if t < j { t } else { t + 1 };
            assert(b1[i] == b[bi]);
            assert(b1[t] == b[bt]);
        }

        // And they hold the same keys: dropping the one occurrence of x's
        // key from each side leaves matching key sets.
        assert forall|k: (Seq<char>, int)|
            contains_rule_key(a1, k) == contains_rule_key(b1, k) by {
            if contains_rule_key(a1, k) {
                let i = choose|i: int| 0 <= i < a1.len() && rule_key(#[trigger] a1[i]) == k;
                assert(a1[i] == a[i]);
                assert(contains_rule_key(a, k));
                assert(k != rule_key(x));
                let t = choose|t: int| 0 <= t < b.len() && rule_key(#[trigger] b[t]) == k;
                assert(t != j);
                if t < j {
                    assert(b1[t] == b[t]);
                } else {
                    assert(b1[t - 1] == b[t]);
                }
                assert(contains_rule_key(b1, k));
            }
            if contains_rule_key(b1, k) {
                let i = choose|i: int| 0 <= i < b1.len() && rule_key(#[trigger] b1[i]) == k;
                let bi = if i < j { i } else { i + 1 };
                assert(b1[i] == b[bi]);
                assert(bi != j);
                assert(contains_rule_key(b, k));
                assert(contains_rule_key(a, k));
                let t = choose|t: int| 0 <= t < a.len() && rule_key(#[trigger] a[t]) == k;
                if k == rule_key(x) {
                    assert(rule_key(b[bi]) == rule_key(b[j]));
                    assert(false);
                }
                assert(t != a.len() - 1);
                assert(a1[t] == a[t]);
                assert(contains_rule_key(a1, k));
            }
        }

        lemma_sum_determined_by_keys(a1, b1);

        assert(rule_weights(a).drop_last() =~= rule_weights(a1));
        assert(rule_weights(b1) =~= rule_weights(b).remove(j));
        lemma_sum_ints_remove(rule_weights(b), j);
        assert(rule_weights(b)[j] == b[j].score as int);
        assert(b[j].score as int == x.score as int);
    }
}


} // verus!
