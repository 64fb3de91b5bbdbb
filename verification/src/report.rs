//! Results as comma-separated tables: writing them, reading them back, and grouping the results
//! of repeated runs. Measures are fractions, and stand here as the decimal texts of their columns.

use vstd::prelude::*;
use vstd::string::*;

use crate::experiment::run_tag;
use crate::experiment::spec_tag;
use crate::number::decimal;
use crate::number::decimal_text;
use crate::number::law_decimal_round_trip;
use crate::number::lemma_decimal_digits;
use crate::number::read_unsigned;
use crate::number::unsigned_value;
use crate::text::comes_before;
use crate::text::lemma_split_append;
use crate::text::lemma_split_separator;
use crate::text::lemma_text_order_total;
use crate::text::lemma_text_order_transitive;
use crate::text::lines;
use crate::text::lines_of;
use crate::text::same_text;
use crate::text::split;
use crate::text::split_text;
use crate::text::strip_return;
use crate::text::text_before;
use crate::text::texts;

verus! {

// ---------------------------------------------------------------------------
// Tables
// ---------------------------------------------------------------------------

/// The fields of a row with commas between them.
pub open spec fn joined(fields: Seq<Seq<char>>) -> Seq<char>
    decreases fields.len(),
{
    if fields.len() == 0 {
        Seq::<char>::empty()
    } else if fields.len() == 1 {
        fields[0]
    } else {
        joined(fields.drop_last()).push(',') + fields.last()
    }
}

/// The fields of a row with commas between them.
pub fn join_fields(fields: &Vec<String>) -> (r: String)
    ensures
        r@ == joined(texts(fields@)),
{
    let ghost all = texts(fields@);
    let mut out = String::new();
    let mut i: usize = 0;
    assert(all.take(0) =~= Seq::<Seq<char>>::empty());
    while i < fields.len()
        invariant
            i <= fields.len(),
            all == texts(fields@),
            out@ == joined(all.take(i as int)),
        decreases fields.len() - i,
    {
        let ghost upto = all.take(i + 1);
        assert(upto.drop_last() =~= all.take(i as int));
        assert(upto.last() == fields@[i as int]@);
        if i > 0 {
            out.push(',');
        }
        out.append(fields[i].as_str());
        assert(out@ =~= joined(upto));
        i += 1;
    }
    assert(all.take(fields.len() as int) =~= all);
    out
}

/// A table: the header and the rows, each on a line of its own.
pub open spec fn table(header: Seq<char>, rows: Seq<Seq<char>>) -> Seq<char>
    decreases rows.len(),
{
    if rows.len() == 0 {
        header.push('\n')
    } else {
        (table(header, rows.drop_last()) + rows.last()).push('\n')
    }
}

/// A table: the header and the rows, each on a line of its own.
pub fn table_text(header: &str, rows: &Vec<String>) -> (r: String)
    ensures
        r@ == table(header@, texts(rows@)),
{
    let ghost all = texts(rows@);
    let mut out = header.to_owned();
    out.push('\n');
    let mut i: usize = 0;
    assert(all.take(0) =~= Seq::<Seq<char>>::empty());
    while i < rows.len()
        invariant
            i <= rows.len(),
            all == texts(rows@),
            out@ == table(header@, all.take(i as int)),
        decreases rows.len() - i,
    {
        let ghost upto = all.take(i + 1);
        assert(upto.drop_last() =~= all.take(i as int));
        assert(upto.last() == rows@[i as int]@);
        out.append(rows[i].as_str());
        out.push('\n');
        i += 1;
    }
    assert(all.take(rows.len() as int) =~= all);
    out
}

// ---------------------------------------------------------------------------
// Rows
// ---------------------------------------------------------------------------

/// The results of one strategy, as a row of the evaluator's table.
#[derive(Debug, Clone)]
pub struct StrategyRow {
    pub strategy: String,
    pub correct: usize,
    pub wrong_rpc: usize,
    pub unattributed: usize,
    pub precision: String,
    pub recall: String,
    pub f1: String,
    pub wrong_rate: String,
    pub unattributed_rate: String,
}

/// What a row of the evaluator's table says.
#[verifier::ext_equal]
pub struct RowModel {
    pub strategy: Seq<char>,
    pub correct: nat,
    pub wrong_rpc: nat,
    pub unattributed: nat,
    /// Precision, recall, F1, wrong rate and unattributed rate.
    pub rates: Seq<Seq<char>>,
}

impl View for StrategyRow {
    type V = RowModel;

    open spec fn view(&self) -> RowModel {
        RowModel {
            strategy: self.strategy@,
            correct: self.correct as nat,
            wrong_rpc: self.wrong_rpc as nat,
            unattributed: self.unattributed as nat,
            rates: seq![
                self.precision@,
                self.recall@,
                self.f1@,
                self.wrong_rate@,
                self.unattributed_rate@,
            ],
        }
    }
}

impl RowModel {
    /// The fields of the row.
    pub open spec fn fields(self) -> Seq<Seq<char>> {
        seq![
            self.strategy,
            decimal(self.correct),
            decimal(self.wrong_rpc),
            decimal(self.unattributed),
        ] + self.rates
    }
}

/// The result of one strategy in one run of an experiment.
#[derive(Debug, Clone)]
pub struct RunResult {
    pub concurrency: usize,
    pub run: usize,
    pub tag: String,
    pub strategy: String,
    pub correct: usize,
    pub wrong_rpc: usize,
    pub unattributed: usize,
    pub precision: String,
    pub recall: String,
    pub f1: String,
    pub wrong_rate: String,
    pub unattributed_rate: String,
}

/// What the result of one strategy in one run says.
#[verifier::ext_equal]
pub struct RunModel {
    pub concurrency: nat,
    pub run: nat,
    pub tag: Seq<char>,
    pub row: RowModel,
}

impl View for RunResult {
    type V = RunModel;

    open spec fn view(&self) -> RunModel {
        RunModel {
            concurrency: self.concurrency as nat,
            run: self.run as nat,
            tag: self.tag@,
            row: RowModel {
                strategy: self.strategy@,
                correct: self.correct as nat,
                wrong_rpc: self.wrong_rpc as nat,
                unattributed: self.unattributed as nat,
                rates: seq![
                    self.precision@,
                    self.recall@,
                    self.f1@,
                    self.wrong_rate@,
                    self.unattributed_rate@,
                ],
            },
        }
    }
}

impl RunModel {
    /// The fields of the row.
    pub open spec fn fields(self) -> Seq<Seq<char>> {
        seq![decimal(self.concurrency), decimal(self.run), self.tag] + self.row.fields()
    }
}

/// The results of one strategy at one concurrency level, taken together over all runs.
#[derive(Debug, Clone)]
pub struct AggregatedResult {
    pub concurrency: usize,
    pub strategy: String,
    pub runs: usize,
    pub precision_mean: String,
    pub precision_std: String,
    pub recall_mean: String,
    pub recall_std: String,
    pub f1_mean: String,
    pub f1_std: String,
    pub wrong_rate_mean: String,
    pub wrong_rate_std: String,
}

impl AggregatedResult {
    /// The fields of the row.
    pub open spec fn fields(self) -> Seq<Seq<char>> {
        seq![
            decimal(self.concurrency as nat),
            self.strategy@,
            decimal(self.runs as nat),
            self.precision_mean@,
            self.precision_std@,
            self.recall_mean@,
            self.recall_std@,
            self.f1_mean@,
            self.f1_std@,
            self.wrong_rate_mean@,
            self.wrong_rate_std@,
        ]
    }
}

/// Appends a text to a list.
fn put(v: &mut Vec<String>, s: &str)
    ensures
        texts(final(v)@) == texts(old(v)@).push(s@),
{
    let ghost grown = texts(v@).push(s@);
    v.push(s.to_owned());
    assert(texts(v@) =~= grown);
}

/// Appends a number to a list.
fn put_count(v: &mut Vec<String>, n: usize)
    ensures
        texts(final(v)@) == texts(old(v)@).push(decimal(n as nat)),
{
    let s = decimal_text(n as u64);
    put(v, s.as_str());
}

// ---------------------------------------------------------------------------
// The evaluator's table
// ---------------------------------------------------------------------------

/// The header of the evaluator's table.
pub open spec fn results_header() -> Seq<char> {
    "strategy,correct,wrong_rpc,unattributed,precision,recall,f1,wrong_rate,unattributed_rate"@
}

/// The rows of the evaluator's table.
pub open spec fn result_lines(rows: Seq<RowModel>) -> Seq<Seq<char>> {
    rows.map_values(|r: RowModel| joined(r.fields()))
}

/// The views of a list of rows.
pub open spec fn row_models(rows: Seq<StrategyRow>) -> Seq<RowModel> {
    rows.map_values(|r: StrategyRow| r@)
}

/// The evaluator's table.
pub fn results_csv(rows: &Vec<StrategyRow>) -> (r: String)
    ensures
        r@ == table(results_header(), result_lines(row_models(rows@))),
{
    let ghost all = result_lines(row_models(rows@));
    let mut out: Vec<String> = Vec::new();
    let mut i: usize = 0;
    assert(texts(out@) =~= all.take(0));
    while i < rows.len()
        invariant
            i <= rows.len(),
            all == result_lines(row_models(rows@)),
            texts(out@) == all.take(i as int),
        decreases rows.len() - i,
    {
        let row = &rows[i];
        let mut v: Vec<String> = Vec::new();
        put(&mut v, row.strategy.as_str());
        put_count(&mut v, row.correct);
        put_count(&mut v, row.wrong_rpc);
        put_count(&mut v, row.unattributed);
        put(&mut v, row.precision.as_str());
        put(&mut v, row.recall.as_str());
        put(&mut v, row.f1.as_str());
        put(&mut v, row.wrong_rate.as_str());
        put(&mut v, row.unattributed_rate.as_str());
        assert(texts(v@) =~= row@.fields());
        let line = join_fields(&v);
        assert(all[i as int] == line@);
        put(&mut out, line.as_str());
        assert(texts(out@) =~= all.take(i + 1));
        i += 1;
    }
    assert(all.take(rows.len() as int) =~= all);
    table_text(
        "strategy,correct,wrong_rpc,unattributed,precision,recall,f1,wrong_rate,unattributed_rate",
        &out,
    )
}

/// The count that a field holds; one that holds none counts as zero.
pub open spec fn count_read(field: Seq<char>) -> nat {
    match unsigned_value(field, usize::MAX as nat) {
        Ok(n) => n,
        Err(_) => 0,
    }
}

fn read_count(field: &str) -> (r: usize)
    ensures
        r == count_read(field@),
{
    match read_unsigned(field, usize::MAX as u64) {
        Ok(n) => n as usize,
        Err(_) => 0,
    }
}

/// What a line of the evaluator's table says of the run `run` at the level `concurrency`. A line
/// with too few fields says nothing.
pub open spec fn line_read(line: Seq<char>, concurrency: nat, run: nat) -> Option<RunModel> {
    let fields = split(line, ',');
    if fields.len() < 9 {
        None
    } else {
        Some(
            RunModel {
                concurrency,
                run,
                tag: spec_tag(concurrency, run),
                row: RowModel {
                    strategy: fields[0],
                    correct: count_read(fields[1]),
                    wrong_rpc: count_read(fields[2]),
                    unattributed: count_read(fields[3]),
                    rates: fields.subrange(4, 9),
                },
            },
        )
    }
}

/// What the lines of the evaluator's table say; the first one is the header.
pub open spec fn lines_read(ls: Seq<Seq<char>>, concurrency: nat, run: nat) -> Seq<RunModel>
    decreases ls.len(),
{
    if ls.len() <= 1 {
        Seq::<RunModel>::empty()
    } else {
        let before = lines_read(ls.drop_last(), concurrency, run);
        match line_read(ls.last(), concurrency, run) {
            Some(m) => before.push(m),
            None => before,
        }
    }
}

/// The views of a list of results.
pub open spec fn run_models(results: Seq<RunResult>) -> Seq<RunModel> {
    results.map_values(|r: RunResult| r@)
}

/// The results of one run, read from the evaluator's table.
pub fn read_results(content: &str, concurrency: usize, run: usize) -> (r: Vec<RunResult>)
    ensures
        run_models(r@) == lines_read(lines(content@), concurrency as nat, run as nat),
{
    let ls = lines_of(content);
    let ghost all = lines(content@);
    let mut out: Vec<RunResult> = Vec::new();
    if ls.len() == 0 {
        assert(run_models(out@) =~= lines_read(all, concurrency as nat, run as nat));
        return out;
    }
    let mut i: usize = 1;
    assert(run_models(out@) =~= lines_read(all.take(1), concurrency as nat, run as nat));
    while i < ls.len()
        invariant
            1 <= i <= ls.len(),
            all == texts(ls@),
            run_models(out@) == lines_read(all.take(i as int), concurrency as nat, run as nat),
        decreases ls.len() - i,
    {
        let ghost upto = all.take(i + 1);
        assert(upto.drop_last() =~= all.take(i as int));
        assert(upto.last() == ls@[i as int]@);
        let parts = split_text(ls[i].as_str(), ',');
        let ghost fields = split(ls@[i as int]@, ',');
        if parts.len() >= 9 {
            let ghost before = run_models(out@);
            let result = RunResult {
                concurrency,
                run,
                tag: run_tag(concurrency, run),
                strategy: parts[0].as_str().to_owned(),
                correct: read_count(parts[1].as_str()),
                wrong_rpc: read_count(parts[2].as_str()),
                unattributed: read_count(parts[3].as_str()),
                precision: parts[4].as_str().to_owned(),
                recall: parts[5].as_str().to_owned(),
                f1: parts[6].as_str().to_owned(),
                wrong_rate: parts[7].as_str().to_owned(),
                unattributed_rate: parts[8].as_str().to_owned(),
            };
            assert(forall|j: int| 0 <= j < fields.len() ==> fields[j] == parts@[j]@);
            assert(result@.row.rates =~= fields.subrange(4, 9));
            assert(line_read(upto.last(), concurrency as nat, run as nat) == Some(result@));
            out.push(result);
            assert(run_models(out@) =~= before.push(result@));
        }
        i += 1;
    }
    assert(all.take(ls.len() as int) =~= all);
    out
}

// ---------------------------------------------------------------------------
// The tables of an experiment
// ---------------------------------------------------------------------------

/// The header of the table of all results.
pub open spec fn raw_header() -> Seq<char> {
    "concurrency,run,tag,strategy,correct,wrong_rpc,unattributed,precision,recall,f1,wrong_rate,unattributed_rate"@
}

/// The rows of the table of all results.
pub open spec fn raw_lines(results: Seq<RunModel>) -> Seq<Seq<char>> {
    results.map_values(|r: RunModel| joined(r.fields()))
}

/// The table of all results.
pub fn raw_csv(results: &Vec<RunResult>) -> (r: String)
    ensures
        r@ == table(raw_header(), raw_lines(run_models(results@))),
{
    let ghost all = raw_lines(run_models(results@));
    let mut out: Vec<String> = Vec::new();
    let mut i: usize = 0;
    assert(texts(out@) =~= all.take(0));
    while i < results.len()
        invariant
            i <= results.len(),
            all == raw_lines(run_models(results@)),
            texts(out@) == all.take(i as int),
        decreases results.len() - i,
    {
        let row = &results[i];
        let mut v: Vec<String> = Vec::new();
        put_count(&mut v, row.concurrency);
        put_count(&mut v, row.run);
        put(&mut v, row.tag.as_str());
        put(&mut v, row.strategy.as_str());
        put_count(&mut v, row.correct);
        put_count(&mut v, row.wrong_rpc);
        put_count(&mut v, row.unattributed);
        put(&mut v, row.precision.as_str());
        put(&mut v, row.recall.as_str());
        put(&mut v, row.f1.as_str());
        put(&mut v, row.wrong_rate.as_str());
        put(&mut v, row.unattributed_rate.as_str());
        assert(texts(v@) =~= row@.fields());
        let line = join_fields(&v);
        assert(all[i as int] == line@);
        put(&mut out, line.as_str());
        assert(texts(out@) =~= all.take(i + 1));
        i += 1;
    }
    assert(all.take(results.len() as int) =~= all);
    table_text(
        "concurrency,run,tag,strategy,correct,wrong_rpc,unattributed,precision,recall,f1,wrong_rate,unattributed_rate",
        &out,
    )
}

/// The header of the table of aggregated results.
pub open spec fn aggregated_header() -> Seq<char> {
    "concurrency,strategy,runs,precision_mean,precision_std,recall_mean,recall_std,f1_mean,f1_std,wrong_rate_mean,wrong_rate_std"@
}

/// The rows of the table of aggregated results.
pub open spec fn aggregated_lines(results: Seq<AggregatedResult>) -> Seq<Seq<char>> {
    results.map_values(|r: AggregatedResult| joined(r.fields()))
}

/// The table of aggregated results.
pub fn aggregated_csv(results: &Vec<AggregatedResult>) -> (r: String)
    ensures
        r@ == table(aggregated_header(), aggregated_lines(results@)),
{
    let ghost all = aggregated_lines(results@);
    let mut out: Vec<String> = Vec::new();
    let mut i: usize = 0;
    assert(texts(out@) =~= all.take(0));
    while i < results.len()
        invariant
            i <= results.len(),
            all == aggregated_lines(results@),
            texts(out@) == all.take(i as int),
        decreases results.len() - i,
    {
        let row = &results[i];
        let mut v: Vec<String> = Vec::new();
        put_count(&mut v, row.concurrency);
        put(&mut v, row.strategy.as_str());
        put_count(&mut v, row.runs);
        put(&mut v, row.precision_mean.as_str());
        put(&mut v, row.precision_std.as_str());
        put(&mut v, row.recall_mean.as_str());
        put(&mut v, row.recall_std.as_str());
        put(&mut v, row.f1_mean.as_str());
        put(&mut v, row.f1_std.as_str());
        put(&mut v, row.wrong_rate_mean.as_str());
        put(&mut v, row.wrong_rate_std.as_str());
        assert(texts(v@) =~= row.fields());
        let line = join_fields(&v);
        assert(all[i as int] == line@);
        put(&mut out, line.as_str());
        assert(texts(out@) =~= all.take(i + 1));
        i += 1;
    }
    assert(all.take(results.len() as int) =~= all);
    table_text(
        "concurrency,strategy,runs,precision_mean,precision_std,recall_mean,recall_std,f1_mean,f1_std,wrong_rate_mean,wrong_rate_std",
        &out,
    )
}

// ---------------------------------------------------------------------------
// Grouping
// ---------------------------------------------------------------------------

/// What results are grouped by: the concurrency level and the strategy.
pub open spec fn group_key(r: RunResult) -> (usize, Seq<char>) {
    (r.concurrency, r.strategy@)
}

/// The keys of a list of results.
pub open spec fn group_keys(results: Seq<RunResult>) -> Seq<(usize, Seq<char>)> {
    results.map_values(|r: RunResult| group_key(r))
}

/// The order of keys: by level, then by the text of the strategy.
pub open spec fn key_before(a: (usize, Seq<char>), b: (usize, Seq<char>)) -> bool {
    a.0 < b.0 || (a.0 == b.0 && text_before(a.1, b.1))
}

/// The places at which `key` stands in `keys`.
pub open spec fn places(keys: Seq<(usize, Seq<char>)>, key: (usize, Seq<char>)) -> Seq<usize>
    decreases keys.len(),
{
    if keys.len() == 0 {
        Seq::<usize>::empty()
    } else {
        let before = places(keys.drop_last(), key);
        if keys.last() == key {
            before.push((keys.len() - 1) as usize)
        } else {
            before
        }
    }
}

/// The results of one strategy at one concurrency level: their places among all results.
#[derive(Debug, Clone)]
pub struct RunGroup {
    pub concurrency: usize,
    pub strategy: String,
    pub members: Vec<usize>,
}

impl RunGroup {
    /// What the results of the group have in common.
    pub open spec fn key(self) -> (usize, Seq<char>) {
        (self.concurrency, self.strategy@)
    }
}

/// Whether `groups` are the groups of `keys`: in the order of their keys, one for each key that
/// occurs, each with all the places of its key in their order.
pub open spec fn is_grouping(groups: Seq<RunGroup>, keys: Seq<(usize, Seq<char>)>) -> bool {
    &&& forall|a: int, b: int|
        0 <= a < b < groups.len() ==> key_before(
            (#[trigger] groups[a]).key(),
            (#[trigger] groups[b]).key(),
        )
    &&& forall|g: int|
        0 <= g < groups.len() ==> (#[trigger] groups[g]).members@ == places(keys, groups[g].key())
            && groups[g].members@.len() > 0
    &&& forall|k: int| 0 <= k < keys.len() ==> has_group(groups, #[trigger] keys[k])
}

/// Whether one of `groups` has the key `key`.
pub open spec fn has_group(groups: Seq<RunGroup>, key: (usize, Seq<char>)) -> bool {
    exists|g: int| 0 <= g < groups.len() && (#[trigger] groups[g]).key() == key
}

proof fn lemma_key_order(a: (usize, Seq<char>), b: (usize, Seq<char>), c: (usize, Seq<char>))
    ensures
        key_before(a, b) || key_before(b, a) || a == b,
        !(key_before(a, b) && key_before(b, a)),
        a == b ==> !key_before(a, b),
        key_before(a, b) && key_before(b, c) ==> key_before(a, c),
{
    lemma_text_order_total(a.1, b.1);
    if text_before(a.1, b.1) && text_before(b.1, c.1) {
        lemma_text_order_transitive(a.1, b.1, c.1);
    }
}

/// The groups of results with the same concurrency level and strategy, in the order of level and
/// strategy.
pub fn group_runs(results: &Vec<RunResult>) -> (r: Vec<RunGroup>)
    ensures
        is_grouping(r@, group_keys(results@)),
{
    let ghost keys = group_keys(results@);
    let mut groups: Vec<RunGroup> = Vec::new();
    let mut i: usize = 0;
    while i < results.len()
        invariant
            i <= results.len(),
            keys == group_keys(results@),
            is_grouping(groups@, keys.take(i as int)),
        decreases results.len() - i,
    {
        let concurrency: usize = results[i].concurrency;
        let strategy = results[i].strategy.as_str();
        let ghost key = (concurrency, strategy@);
        let ghost old_groups = groups@;
        let ghost before = keys.take(i as int);
        let ghost upto = keys.take(i + 1);
        assert(upto =~= before.push(key));
        let mut j: usize = 0;
        while j < groups.len() && (groups[j].concurrency < concurrency || (groups[j].concurrency
            == concurrency && comes_before(groups[j].strategy.as_str(), strategy)))
            invariant
                j <= groups.len(),
                groups@ == old_groups,
                key == (concurrency, strategy@),
                forall|a: int| 0 <= a < j ==> key_before((#[trigger] groups@[a]).key(), key),
            decreases groups.len() - j,
        {
            j += 1;
        }
        if j < groups.len() && groups[j].concurrency == concurrency && same_text(
            groups[j].strategy.as_str(),
            strategy,
        ) {
            let group = groups.remove(j);
            let mut members = group.members;
            members.push(i);
            let grown = RunGroup { concurrency, strategy: strategy.to_owned(), members };
            groups.insert(j, grown);
            proof {
                lemma_group_grown(old_groups, groups@, before, upto, key, j as int);
            }
        } else {
            let mut members: Vec<usize> = Vec::new();
            members.push(i);
            let group = RunGroup { concurrency, strategy: strategy.to_owned(), members };
            groups.insert(j, group);
            proof {
                lemma_group_added(old_groups, groups@, before, upto, key, j as int);
            }
        }
        i += 1;
    }
    assert(keys.take(results.len() as int) =~= keys);
    groups
}

/// A group that takes one more place.
proof fn lemma_group_grown(
    old_groups: Seq<RunGroup>,
    groups: Seq<RunGroup>,
    before: Seq<(usize, Seq<char>)>,
    upto: Seq<(usize, Seq<char>)>,
    key: (usize, Seq<char>),
    j: int,
)
    requires
        is_grouping(old_groups, before),
        upto == before.push(key),
        0 <= j < old_groups.len(),
        groups.len() == old_groups.len(),
        old_groups[j].key() == key,
        groups[j].key() == key,
        groups[j].members@ == old_groups[j].members@.push(before.len() as usize),
        forall|g: int| 0 <= g < groups.len() && g != j ==> groups[g] == old_groups[g],
    ensures
        is_grouping(groups, upto),
{
    assert(upto.drop_last() =~= before);
    assert forall|g: int| 0 <= g < groups.len() implies (#[trigger] groups[g]).members@ == places(
        upto,
        groups[g].key(),
    ) && groups[g].members@.len() > 0 by {
        assert(old_groups[g].members@ == places(before, old_groups[g].key()));
        if g != j {
            lemma_key_order(old_groups[g].key(), key, key);
            if g < j {
                assert(key_before(old_groups[g].key(), old_groups[j].key()));
            } else {
                assert(key_before(old_groups[j].key(), old_groups[g].key()));
                lemma_key_order(key, old_groups[g].key(), key);
            }
            assert(groups[g].key() != key);
        }
    }
    assert forall|a: int, b: int| 0 <= a < b < groups.len() implies key_before(
        (#[trigger] groups[a]).key(),
        (#[trigger] groups[b]).key(),
    ) by {
        assert(key_before(old_groups[a].key(), old_groups[b].key()));
    }
    assert forall|k: int| 0 <= k < upto.len() implies has_group(groups, #[trigger] upto[k]) by {
        if k < before.len() {
            assert(has_group(old_groups, before[k]));
            let g = choose|g: int|
                0 <= g < old_groups.len() && (#[trigger] old_groups[g]).key() == before[k];
            assert(groups[g].key() == upto[k]);
        } else {
            assert(groups[j].key() == upto[k]);
        }
    }
}

/// A group for a key that did not occur before.
proof fn lemma_group_added(
    old_groups: Seq<RunGroup>,
    groups: Seq<RunGroup>,
    before: Seq<(usize, Seq<char>)>,
    upto: Seq<(usize, Seq<char>)>,
    key: (usize, Seq<char>),
    j: int,
)
    requires
        is_grouping(old_groups, before),
        upto == before.push(key),
        0 <= j <= old_groups.len(),
        groups.len() == old_groups.len() + 1,
        groups == old_groups.insert(j, groups[j]),
        groups[j].key() == key,
        groups[j].members@ == seq![before.len() as usize],
        forall|a: int| 0 <= a < j ==> key_before((#[trigger] old_groups[a]).key(), key),
        j < old_groups.len() ==> !key_before(old_groups[j].key(), key) && old_groups[j].key()
            != key,
    ensures
        is_grouping(groups, upto),
{
    assert(upto.drop_last() =~= before);
    assert forall|b: int| j <= b < old_groups.len() implies key_before(
        key,
        (#[trigger] old_groups[b]).key(),
    ) by {
        lemma_key_order(key, old_groups[j].key(), old_groups[b].key());
    }
    assert forall|a: int, b: int| 0 <= a < b < groups.len() implies key_before(
        (#[trigger] groups[a]).key(),
        (#[trigger] groups[b]).key(),
    ) by {
        let x = if a < j {
            a
        } else {
            a - 1
        };
        let y = if b < j {
            b
        } else {
            b - 1
        };
        if a != j {
            assert(groups[a] == old_groups[x]);
        }
        if b != j {
            assert(groups[b] == old_groups[y]);
        }
    }
    if before.contains(key) {
        let k = choose|k: int| 0 <= k < before.len() && before[k] == key;
        assert(has_group(old_groups, before[k]));
        let g = choose|g: int|
            0 <= g < old_groups.len() && (#[trigger] old_groups[g]).key() == before[k];
        lemma_key_order(key, old_groups[g].key(), key);
    }
    lemma_places_empty(before, key);
    assert forall|g: int| 0 <= g < groups.len() implies (#[trigger] groups[g]).members@ == places(
        upto,
        groups[g].key(),
    ) && groups[g].members@.len() > 0 by {
        if g == j {
            assert(places(upto, key) =~= seq![before.len() as usize]);
        } else {
            let x = if g < j {
                g
            } else {
                g - 1
            };
            assert(groups[g] == old_groups[x]);
            lemma_key_order(key, old_groups[x].key(), key);
            assert(old_groups[x].key() != key);
            assert(old_groups[x].members@ == places(before, old_groups[x].key()));
        }
    }
    assert forall|k: int| 0 <= k < upto.len() implies has_group(groups, #[trigger] upto[k]) by {
        if k < before.len() {
            assert(has_group(old_groups, before[k]));
            let g = choose|g: int|
                0 <= g < old_groups.len() && (#[trigger] old_groups[g]).key() == before[k];
            let x = if g < j {
                g
            } else {
                g + 1
            };
            assert(groups[x] == old_groups[g]);
            assert(groups[x].key() == upto[k]);
        } else {
            assert(groups[j].key() == upto[k]);
        }
    }
}

/// A key that does not occur has no places.
proof fn lemma_places_empty(keys: Seq<(usize, Seq<char>)>, key: (usize, Seq<char>))
    requires
        !keys.contains(key),
    ensures
        places(keys, key) == Seq::<usize>::empty(),
    decreases keys.len(),
{
    if keys.len() > 0 {
        assert(keys[keys.len() - 1] != key);
        assert forall|k: int| 0 <= k < keys.len() - 1 implies keys.drop_last()[k] != key by {
            assert(keys.drop_last()[k] == keys[k]);
        }
        lemma_places_empty(keys.drop_last(), key);
    }
}

/// The places of a key are those at which it stands.
pub proof fn lemma_places(keys: Seq<(usize, Seq<char>)>, key: (usize, Seq<char>), k: usize)
    requires
        keys.len() <= usize::MAX,
    ensures
        places(keys, key).contains(k) <==> k < keys.len() && keys[k as int] == key,
    decreases keys.len(),
{
    if keys.len() > 0 {
        let before = places(keys.drop_last(), key);
        let last = (keys.len() - 1) as usize;
        lemma_places(keys.drop_last(), key, k);
        if keys.last() == key {
            let all = before.push(last);
            assert(all[before.len() as int] == last);
            if before.contains(k) {
                let n = choose|n: int| 0 <= n < before.len() && before[n] == k;
                assert(all[n] == k);
            }
            if all.contains(k) && k != last {
                let n = choose|n: int| 0 <= n < all.len() && all[n] == k;
                assert(before[n] == k);
            }
        }
    }
}

// ---------------------------------------------------------------------------
// Laws
// ---------------------------------------------------------------------------

/// Every result belongs to one group and to no other: that of its level and strategy.
pub proof fn law_every_result_in_one_group(
    groups: Seq<RunGroup>,
    keys: Seq<(usize, Seq<char>)>,
    k: usize,
)
    requires
        is_grouping(groups, keys),
        k < keys.len() <= usize::MAX,
    ensures
        exists|g: int| 0 <= g < groups.len() && (#[trigger] groups[g]).members@.contains(k),
        forall|g: int|
            0 <= g < groups.len() && (#[trigger] groups[g]).members@.contains(k)
                ==> groups[g].key() == keys[k as int],
        forall|a: int, b: int|
            0 <= a < groups.len() && 0 <= b < groups.len() && (
            #[trigger] groups[a]).members@.contains(k) && (
            #[trigger] groups[b]).members@.contains(k) ==> a == b,
{
    assert(has_group(groups, keys[k as int]));
    let h = choose|g: int| 0 <= g < groups.len() && (#[trigger] groups[g]).key() == keys[k as int];
    lemma_places(keys, keys[k as int], k);
    assert(groups[h].members@.contains(k));
    assert forall|g: int|
        0 <= g < groups.len() && (#[trigger] groups[g]).members@.contains(
            k,
        ) implies groups[g].key() == keys[k as int] by {
        lemma_places(keys, groups[g].key(), k);
    }
    assert forall|a: int, b: int|
        0 <= a < groups.len() && 0 <= b < groups.len() && (
        #[trigger] groups[a]).members@.contains(k) && (#[trigger] groups[b]).members@.contains(
            k,
        ) implies a == b by {
        lemma_key_order(groups[a].key(), groups[b].key(), groups[a].key());
        if a < b {
            assert(key_before(groups[a].key(), groups[b].key()));
        } else if b < a {
            assert(key_before(groups[b].key(), groups[a].key()));
        }
    }
}

/// Whether a field can stand in a row: it holds nothing that ends a field or a line.
pub open spec fn plain(field: Seq<char>) -> bool {
    forall|i: int|
        0 <= i < field.len() ==> #[trigger] field[i] != ',' && field[i] != '\n' && field[i] != '\r'
}

/// Whether all fields can stand in a row.
pub open spec fn all_plain(fields: Seq<Seq<char>>) -> bool {
    forall|i: int| 0 <= i < fields.len() ==> plain(#[trigger] fields[i])
}

/// The fields of a row are found again, and the row is one line.
pub proof fn lemma_joined(fields: Seq<Seq<char>>)
    requires
        fields.len() > 0,
        all_plain(fields),
    ensures
        split(joined(fields), ',') == fields,
        forall|i: int|
            0 <= i < joined(fields).len() ==> #[trigger] joined(fields)[i] != '\n'
                && joined(fields)[i] != '\r',
    decreases fields.len(),
{
    let none = Seq::<char>::empty();
    assert(plain(fields.last()));
    if fields.len() == 1 {
        let f = fields[0];
        assert(split(none, ',') =~= seq![none]);
        lemma_split_append(none, f, ',');
        assert(none + f =~= f);
        assert(split(f, ',') =~= fields);
    } else {
        let head = fields.drop_last();
        let last = fields.last();
        assert forall|i: int| 0 <= i < head.len() implies plain(#[trigger] head[i]) by {
            assert(head[i] == fields[i]);
        }
        lemma_joined(head);
        let a = joined(head);
        lemma_split_separator(a, ',');
        lemma_split_append(a.push(','), last, ',');
        assert(split(a.push(','), ',') == head.push(none));
        assert(head.push(none).drop_last() =~= head);
        assert(none + last =~= last);
        assert(head.push(last) =~= fields);
        let whole = joined(fields);
        assert forall|i: int| 0 <= i < whole.len() implies #[trigger] whole[i] != '\n' && whole[i]
            != '\r' by {
            if i < a.len() {
                assert(whole[i] == a[i]);
            } else if i > a.len() {
                assert(whole[i] == last[i - a.len() - 1]);
            }
        }
    }
}

/// Whether `line` stands on a line of its own as it is.
pub open spec fn one_line(line: Seq<char>) -> bool {
    forall|i: int| 0 <= i < line.len() ==> #[trigger] line[i] != '\n' && line[i] != '\r'
}

/// The lines of a table are its header and its rows.
proof fn lemma_table_lines(header: Seq<char>, rows: Seq<Seq<char>>)
    requires
        one_line(header),
        forall|i: int| 0 <= i < rows.len() ==> one_line(#[trigger] rows[i]),
    ensures
        split(table(header, rows), '\n') == (seq![header] + rows).push(Seq::<char>::empty()),
    decreases rows.len(),
{
    let none = Seq::<char>::empty();
    if rows.len() == 0 {
        assert(split(none, '\n') =~= seq![none]);
        lemma_split_append(none, header, '\n');
        assert(none + header =~= header);
        lemma_split_separator(header, '\n');
        assert(split(header, '\n') =~= seq![header]);
        assert(split(table(header, rows), '\n') =~= (seq![header] + rows).push(none));
    } else {
        let head = rows.drop_last();
        assert forall|i: int| 0 <= i < head.len() implies one_line(#[trigger] head[i]) by {
            assert(head[i] == rows[i]);
        }
        lemma_table_lines(header, head);
        let a = table(header, head);
        let last = rows.last();
        assert(one_line(rows[rows.len() - 1]));
        lemma_split_append(a, last, '\n');
        lemma_split_separator(a + last, '\n');
        let pieces = seq![header] + head;
        assert(pieces.push(none).drop_last() =~= pieces);
        assert(none + last =~= last);
        assert(pieces.push(last) =~= seq![header] + rows);
    }
}

/// The lines of a table are its header and its rows.
pub proof fn law_table_lines(header: Seq<char>, rows: Seq<Seq<char>>)
    requires
        one_line(header),
        forall|i: int| 0 <= i < rows.len() ==> one_line(#[trigger] rows[i]),
    ensures
        lines(table(header, rows)) == seq![header] + rows,
{
    lemma_table_lines(header, rows);
    let all = seq![header] + rows;
    let pieces = all.push(Seq::<char>::empty());
    assert(pieces.drop_last() =~= all);
    let ended = all.map_values(|p: Seq<char>| strip_return(p));
    assert forall|i: int| 0 <= i < all.len() implies ended[i] == all[i] by {
        assert(one_line(all[i])) by {
            if i > 0 {
                assert(all[i] == rows[i - 1]);
            }
        }
    }
    assert(ended =~= all);
}

/// Whether a row of the evaluator's table can be read back: its fields hold nothing that ends a
/// field or a line, and its counts fit the machine.
pub open spec fn readable(r: RowModel) -> bool {
    &&& plain(r.strategy)
    &&& all_plain(r.rates)
    &&& r.rates.len() == 5
    &&& r.correct <= usize::MAX
    &&& r.wrong_rpc <= usize::MAX
    &&& r.unattributed <= usize::MAX
}

/// The result that a row stands for in the run `run` at the level `concurrency`.
pub open spec fn in_run(r: RowModel, concurrency: nat, run: nat) -> RunModel {
    RunModel { concurrency, run, tag: spec_tag(concurrency, run), row: r }
}

/// One row reads back as itself.
proof fn lemma_row_read_back(r: RowModel, concurrency: nat, run: nat)
    requires
        readable(r),
    ensures
        line_read(joined(r.fields()), concurrency, run) == Some(in_run(r, concurrency, run)),
        one_line(joined(r.fields())),
{
    let fields = r.fields();
    lemma_decimal_digits(r.correct);
    lemma_decimal_digits(r.wrong_rpc);
    lemma_decimal_digits(r.unattributed);
    assert forall|i: int| 0 <= i < fields.len() implies plain(#[trigger] fields[i]) by {
        if i >= 4 {
            assert(fields[i] == r.rates[i - 4]);
        }
    }
    lemma_joined(fields);
    law_decimal_round_trip(r.correct, usize::MAX as nat);
    law_decimal_round_trip(r.wrong_rpc, usize::MAX as nat);
    law_decimal_round_trip(r.unattributed, usize::MAX as nat);
    assert(fields.subrange(4, 9) =~= r.rates);
}

/// What the evaluator writes is what a run reads: the results that are read from a table are
/// those that were written into it.
pub proof fn law_results_read_back(rows: Seq<RowModel>, concurrency: nat, run: nat)
    requires
        forall|i: int| 0 <= i < rows.len() ==> readable(#[trigger] rows[i]),
    ensures
        lines_read(lines(table(results_header(), result_lines(rows))), concurrency, run)
            == rows.map_values(|r: RowModel| in_run(r, concurrency, run)),
{
    let ls = result_lines(rows);
    reveal_strlit(
        "strategy,correct,wrong_rpc,unattributed,precision,recall,f1,wrong_rate,unattributed_rate",
    );
    assert forall|i: int| 0 <= i < ls.len() implies one_line(#[trigger] ls[i]) by {
        lemma_row_read_back(rows[i], concurrency, run);
    }
    law_table_lines(results_header(), ls);
    lemma_rows_read_back(rows, concurrency, run);
}

proof fn lemma_rows_read_back(rows: Seq<RowModel>, concurrency: nat, run: nat)
    requires
        forall|i: int| 0 <= i < rows.len() ==> readable(#[trigger] rows[i]),
    ensures
        lines_read(seq![results_header()] + result_lines(rows), concurrency, run)
            == rows.map_values(|r: RowModel| in_run(r, concurrency, run)),
    decreases rows.len(),
{
    let all = seq![results_header()] + result_lines(rows);
    let read = rows.map_values(|r: RowModel| in_run(r, concurrency, run));
    if rows.len() == 0 {
        assert(read =~= Seq::<RunModel>::empty());
    } else {
        let head = rows.drop_last();
        assert forall|i: int| 0 <= i < head.len() implies readable(#[trigger] head[i]) by {
            assert(head[i] == rows[i]);
        }
        lemma_rows_read_back(head, concurrency, run);
        assert(all.drop_last() =~= seq![results_header()] + result_lines(head));
        assert(all.last() == joined(rows.last().fields()));
        assert(readable(rows[rows.len() - 1]));
        lemma_row_read_back(rows.last(), concurrency, run);
        assert(read =~= head.map_values(|r: RowModel| in_run(r, concurrency, run)).push(
            in_run(rows.last(), concurrency, run),
        ));
    }
}

} // verus!
