//! What stands in the tables, and what is read from them.

use vstd::prelude::*;
use vstd::string::*;

use crate::experiment::spec_tag;
use crate::number::decimal;
use crate::number::lemma_decimal_digits;
use crate::number::unsigned_value;
use crate::report::aggregated_header;
use crate::report::aggregated_lines;
use crate::report::count_read;
use crate::report::group_keys;
use crate::report::is_grouping;
use crate::report::joined;
use crate::report::key_before;
use crate::report::law_table_lines;
use crate::report::lemma_joined;
use crate::report::lemma_places;
use crate::report::lines_read;
use crate::report::one_line;
use crate::report::places;
use crate::report::plain;
use crate::report::raw_header;
use crate::report::raw_lines;
use crate::report::result_lines;
use crate::report::results_header;
use crate::report::row_models;
use crate::report::run_models;
use crate::report::table;
use crate::report::AggregatedResult;
use crate::report::RunGroup;
use crate::report::RunResult;
use crate::report::StrategyRow;
use crate::text::lines;
use crate::text::split;
use crate::text::text_before;

verus! {

// ---------------------------------------------------------------------------
// Rows and tables
// ---------------------------------------------------------------------------

/// A row is its fields with a comma between every two.
pub proof fn law_commas_between_fields(fields: Seq<Seq<char>>, f: Seq<char>)
    ensures
        joined(Seq::<Seq<char>>::empty()).len() == 0,
        joined(seq![f]) == f,
        fields.len() > 0 ==> joined(fields.push(f)) == joined(fields) + seq![','] + f,
{
    assert(fields.push(f).drop_last() =~= fields);
    assert(joined(fields).push(',') =~= joined(fields) + seq![',']);
}

/// A table is its header and then its rows, with a newline behind each.
pub proof fn law_newline_behind_rows(header: Seq<char>, rows: Seq<Seq<char>>, row: Seq<char>)
    ensures
        table(header, Seq::<Seq<char>>::empty()) == header + seq!['\n'],
        table(header, rows.push(row)) == table(header, rows) + row + seq!['\n'],
{
    assert(rows.push(row).drop_last() =~= rows);
    assert(header.push('\n') =~= header + seq!['\n']);
    assert((table(header, rows) + row).push('\n') =~= table(header, rows) + row + seq!['\n']);
}

/// A decimal text holds nothing that ends a field or a line.
proof fn lemma_decimal_plain(n: nat)
    ensures
        plain(decimal(n)),
{
    lemma_decimal_digits(n);
    assert forall|i: int| 0 <= i < decimal(n).len() implies #[trigger] decimal(n)[i] != ','
        && decimal(n)[i] != '\n' && decimal(n)[i] != '\r' by {
        assert('0' <= decimal(n)[i] <= '9');
    }
}

// ---------------------------------------------------------------------------
// The table of all results
// ---------------------------------------------------------------------------

/// The row of each result is made of its own fields, in the order of the header.
pub proof fn law_raw_rows(results: Seq<RunResult>, i: int)
    requires
        0 <= i < results.len(),
    ensures
        raw_lines(run_models(results)).len() == results.len(),
        raw_lines(run_models(results))[i] == joined(
            seq![
                decimal(results[i].concurrency as nat),
                decimal(results[i].run as nat),
                results[i].tag@,
                results[i].strategy@,
                decimal(results[i].correct as nat),
                decimal(results[i].wrong_rpc as nat),
                decimal(results[i].unattributed as nat),
                results[i].precision@,
                results[i].recall@,
                results[i].f1@,
                results[i].wrong_rate@,
                results[i].unattributed_rate@,
            ],
        ),
{
    assert(results[i]@.fields() =~= seq![
        decimal(results[i].concurrency as nat),
        decimal(results[i].run as nat),
        results[i].tag@,
        results[i].strategy@,
        decimal(results[i].correct as nat),
        decimal(results[i].wrong_rpc as nat),
        decimal(results[i].unattributed as nat),
        results[i].precision@,
        results[i].recall@,
        results[i].f1@,
        results[i].wrong_rate@,
        results[i].unattributed_rate@,
    ]);
}

/// Whether the texts of a result hold nothing that ends a field or a line.
pub open spec fn plain_run(r: RunResult) -> bool {
    &&& plain(r.tag@)
    &&& plain(r.strategy@)
    &&& plain(r.precision@)
    &&& plain(r.recall@)
    &&& plain(r.f1@)
    &&& plain(r.wrong_rate@)
    &&& plain(r.unattributed_rate@)
}

proof fn lemma_raw_row(results: Seq<RunResult>, i: int)
    requires
        0 <= i < results.len(),
        plain_run(results[i]),
    ensures
        one_line(raw_lines(run_models(results))[i]),
        split(raw_lines(run_models(results))[i], ',') == seq![
            decimal(results[i].concurrency as nat),
            decimal(results[i].run as nat),
            results[i].tag@,
            results[i].strategy@,
            decimal(results[i].correct as nat),
            decimal(results[i].wrong_rpc as nat),
            decimal(results[i].unattributed as nat),
            results[i].precision@,
            results[i].recall@,
            results[i].f1@,
            results[i].wrong_rate@,
            results[i].unattributed_rate@,
        ],
{
    law_raw_rows(results, i);
    lemma_decimal_plain(results[i].concurrency as nat);
    lemma_decimal_plain(results[i].run as nat);
    lemma_decimal_plain(results[i].correct as nat);
    lemma_decimal_plain(results[i].wrong_rpc as nat);
    lemma_decimal_plain(results[i].unattributed as nat);
    let fields = seq![
        decimal(results[i].concurrency as nat),
        decimal(results[i].run as nat),
        results[i].tag@,
        results[i].strategy@,
        decimal(results[i].correct as nat),
        decimal(results[i].wrong_rpc as nat),
        decimal(results[i].unattributed as nat),
        results[i].precision@,
        results[i].recall@,
        results[i].f1@,
        results[i].wrong_rate@,
        results[i].unattributed_rate@,
    ];
    lemma_joined(fields);
}

/// The table of all results has a line for the header and then one for each result, and the fields
/// of line `i + 1` are those of result `i`.
pub proof fn law_raw_table_reads_back(results: Seq<RunResult>, i: int)
    requires
        forall|k: int| 0 <= k < results.len() ==> plain_run(#[trigger] results[k]),
        0 <= i < results.len(),
    ensures
        lines(table(raw_header(), raw_lines(run_models(results)))).len() == results.len() + 1,
        lines(table(raw_header(), raw_lines(run_models(results))))[0]
            == "concurrency,run,tag,strategy,correct,wrong_rpc,unattributed,precision,recall,f1,wrong_rate,unattributed_rate"@,
        split(lines(table(raw_header(), raw_lines(run_models(results))))[i + 1], ',') == seq![
            decimal(results[i].concurrency as nat),
            decimal(results[i].run as nat),
            results[i].tag@,
            results[i].strategy@,
            decimal(results[i].correct as nat),
            decimal(results[i].wrong_rpc as nat),
            decimal(results[i].unattributed as nat),
            results[i].precision@,
            results[i].recall@,
            results[i].f1@,
            results[i].wrong_rate@,
            results[i].unattributed_rate@,
        ],
{
    reveal_strlit(
        "concurrency,run,tag,strategy,correct,wrong_rpc,unattributed,precision,recall,f1,wrong_rate,unattributed_rate",
    );
    let rows = raw_lines(run_models(results));
    assert forall|k: int| 0 <= k < rows.len() implies one_line(#[trigger] rows[k]) by {
        lemma_raw_row(results, k);
    }
    law_table_lines(raw_header(), rows);
    lemma_raw_row(results, i);
}

/// A table of no results is its header.
pub proof fn law_empty_tables()
    ensures
        table(raw_header(), raw_lines(run_models(Seq::<RunResult>::empty())))
            == "concurrency,run,tag,strategy,correct,wrong_rpc,unattributed,precision,recall,f1,wrong_rate,unattributed_rate"@
            + seq!['\n'],
        table(results_header(), result_lines(row_models(Seq::<StrategyRow>::empty())))
            == "strategy,correct,wrong_rpc,unattributed,precision,recall,f1,wrong_rate,unattributed_rate"@
            + seq!['\n'],
        table(aggregated_header(), aggregated_lines(Seq::<AggregatedResult>::empty()))
            == "concurrency,strategy,runs,precision_mean,precision_std,recall_mean,recall_std,f1_mean,f1_std,wrong_rate_mean,wrong_rate_std"@
            + seq!['\n'],
{
    let none = Seq::<Seq<char>>::empty();
    law_newline_behind_rows(raw_header(), none, Seq::empty());
    law_newline_behind_rows(results_header(), none, Seq::empty());
    law_newline_behind_rows(aggregated_header(), none, Seq::empty());
    assert(raw_lines(run_models(Seq::<RunResult>::empty())) =~= none);
    assert(result_lines(row_models(Seq::<StrategyRow>::empty())) =~= none);
    assert(aggregated_lines(Seq::<AggregatedResult>::empty()) =~= none);
}

// ---------------------------------------------------------------------------
// The evaluator's table
// ---------------------------------------------------------------------------

/// The row of each strategy is made of its own fields, in the order of the header.
pub proof fn law_result_rows(rows: Seq<StrategyRow>, i: int)
    requires
        0 <= i < rows.len(),
    ensures
        result_lines(row_models(rows)).len() == rows.len(),
        result_lines(row_models(rows))[i] == joined(
            seq![
                rows[i].strategy@,
                decimal(rows[i].correct as nat),
                decimal(rows[i].wrong_rpc as nat),
                decimal(rows[i].unattributed as nat),
                rows[i].precision@,
                rows[i].recall@,
                rows[i].f1@,
                rows[i].wrong_rate@,
                rows[i].unattributed_rate@,
            ],
        ),
{
    assert(rows[i]@.fields() =~= seq![
        rows[i].strategy@,
        decimal(rows[i].correct as nat),
        decimal(rows[i].wrong_rpc as nat),
        decimal(rows[i].unattributed as nat),
        rows[i].precision@,
        rows[i].recall@,
        rows[i].f1@,
        rows[i].wrong_rate@,
        rows[i].unattributed_rate@,
    ]);
}

/// Whether the texts of a row hold nothing that ends a field or a line.
pub open spec fn plain_row(r: StrategyRow) -> bool {
    &&& plain(r.strategy@)
    &&& plain(r.precision@)
    &&& plain(r.recall@)
    &&& plain(r.f1@)
    &&& plain(r.wrong_rate@)
    &&& plain(r.unattributed_rate@)
}

proof fn lemma_result_row(rows: Seq<StrategyRow>, i: int)
    requires
        0 <= i < rows.len(),
        plain_row(rows[i]),
    ensures
        one_line(result_lines(row_models(rows))[i]),
        split(result_lines(row_models(rows))[i], ',') == seq![
            rows[i].strategy@,
            decimal(rows[i].correct as nat),
            decimal(rows[i].wrong_rpc as nat),
            decimal(rows[i].unattributed as nat),
            rows[i].precision@,
            rows[i].recall@,
            rows[i].f1@,
            rows[i].wrong_rate@,
            rows[i].unattributed_rate@,
        ],
{
    law_result_rows(rows, i);
    lemma_decimal_plain(rows[i].correct as nat);
    lemma_decimal_plain(rows[i].wrong_rpc as nat);
    lemma_decimal_plain(rows[i].unattributed as nat);
    let fields = seq![
        rows[i].strategy@,
        decimal(rows[i].correct as nat),
        decimal(rows[i].wrong_rpc as nat),
        decimal(rows[i].unattributed as nat),
        rows[i].precision@,
        rows[i].recall@,
        rows[i].f1@,
        rows[i].wrong_rate@,
        rows[i].unattributed_rate@,
    ];
    lemma_joined(fields);
}

/// The evaluator's table has a line for the header and then one for each strategy, and the fields
/// of line `i + 1` are those of row `i`.
pub proof fn law_result_table_reads_back(rows: Seq<StrategyRow>, i: int)
    requires
        forall|k: int| 0 <= k < rows.len() ==> plain_row(#[trigger] rows[k]),
        0 <= i < rows.len(),
    ensures
        lines(table(results_header(), result_lines(row_models(rows)))).len() == rows.len() + 1,
        lines(table(results_header(), result_lines(row_models(rows))))[0]
            == "strategy,correct,wrong_rpc,unattributed,precision,recall,f1,wrong_rate,unattributed_rate"@,
        split(lines(table(results_header(), result_lines(row_models(rows))))[i + 1], ',') == seq![
            rows[i].strategy@,
            decimal(rows[i].correct as nat),
            decimal(rows[i].wrong_rpc as nat),
            decimal(rows[i].unattributed as nat),
            rows[i].precision@,
            rows[i].recall@,
            rows[i].f1@,
            rows[i].wrong_rate@,
            rows[i].unattributed_rate@,
        ],
{
    reveal_strlit(
        "strategy,correct,wrong_rpc,unattributed,precision,recall,f1,wrong_rate,unattributed_rate",
    );
    let all = result_lines(row_models(rows));
    assert forall|k: int| 0 <= k < all.len() implies one_line(#[trigger] all[k]) by {
        lemma_result_row(rows, k);
    }
    law_table_lines(results_header(), all);
    lemma_result_row(rows, i);
}

// ---------------------------------------------------------------------------
// The table of aggregated results
// ---------------------------------------------------------------------------

/// The row of each aggregated result is made of its own fields, in the order of the header.
pub proof fn law_aggregated_rows(results: Seq<AggregatedResult>, i: int)
    requires
        0 <= i < results.len(),
    ensures
        aggregated_lines(results).len() == results.len(),
        aggregated_lines(results)[i] == joined(
            seq![
                decimal(results[i].concurrency as nat),
                results[i].strategy@,
                decimal(results[i].runs as nat),
                results[i].precision_mean@,
                results[i].precision_std@,
                results[i].recall_mean@,
                results[i].recall_std@,
                results[i].f1_mean@,
                results[i].f1_std@,
                results[i].wrong_rate_mean@,
                results[i].wrong_rate_std@,
            ],
        ),
{
    assert(results[i].fields() =~= seq![
        decimal(results[i].concurrency as nat),
        results[i].strategy@,
        decimal(results[i].runs as nat),
        results[i].precision_mean@,
        results[i].precision_std@,
        results[i].recall_mean@,
        results[i].recall_std@,
        results[i].f1_mean@,
        results[i].f1_std@,
        results[i].wrong_rate_mean@,
        results[i].wrong_rate_std@,
    ]);
}

/// Whether the texts of an aggregated result hold nothing that ends a field or a line.
pub open spec fn plain_aggregate(r: AggregatedResult) -> bool {
    &&& plain(r.strategy@)
    &&& plain(r.precision_mean@)
    &&& plain(r.precision_std@)
    &&& plain(r.recall_mean@)
    &&& plain(r.recall_std@)
    &&& plain(r.f1_mean@)
    &&& plain(r.f1_std@)
    &&& plain(r.wrong_rate_mean@)
    &&& plain(r.wrong_rate_std@)
}

proof fn lemma_aggregated_row(results: Seq<AggregatedResult>, i: int)
    requires
        0 <= i < results.len(),
        plain_aggregate(results[i]),
    ensures
        one_line(aggregated_lines(results)[i]),
        split(aggregated_lines(results)[i], ',') == seq![
            decimal(results[i].concurrency as nat),
            results[i].strategy@,
            decimal(results[i].runs as nat),
            results[i].precision_mean@,
            results[i].precision_std@,
            results[i].recall_mean@,
            results[i].recall_std@,
            results[i].f1_mean@,
            results[i].f1_std@,
            results[i].wrong_rate_mean@,
            results[i].wrong_rate_std@,
        ],
{
    law_aggregated_rows(results, i);
    lemma_decimal_plain(results[i].concurrency as nat);
    lemma_decimal_plain(results[i].runs as nat);
    let fields = seq![
        decimal(results[i].concurrency as nat),
        results[i].strategy@,
        decimal(results[i].runs as nat),
        results[i].precision_mean@,
        results[i].precision_std@,
        results[i].recall_mean@,
        results[i].recall_std@,
        results[i].f1_mean@,
        results[i].f1_std@,
        results[i].wrong_rate_mean@,
        results[i].wrong_rate_std@,
    ];
    lemma_joined(fields);
}

/// The table of aggregated results has a line for the header and then one for each of them, and the
/// fields of line `i + 1` are those of result `i`.
pub proof fn law_aggregated_table_reads_back(results: Seq<AggregatedResult>, i: int)
    requires
        forall|k: int| 0 <= k < results.len() ==> plain_aggregate(#[trigger] results[k]),
        0 <= i < results.len(),
    ensures
        lines(table(aggregated_header(), aggregated_lines(results))).len() == results.len() + 1,
        lines(table(aggregated_header(), aggregated_lines(results)))[0]
            == "concurrency,strategy,runs,precision_mean,precision_std,recall_mean,recall_std,f1_mean,f1_std,wrong_rate_mean,wrong_rate_std"@,
        split(lines(table(aggregated_header(), aggregated_lines(results)))[i + 1], ',') == seq![
            decimal(results[i].concurrency as nat),
            results[i].strategy@,
            decimal(results[i].runs as nat),
            results[i].precision_mean@,
            results[i].precision_std@,
            results[i].recall_mean@,
            results[i].recall_std@,
            results[i].f1_mean@,
            results[i].f1_std@,
            results[i].wrong_rate_mean@,
            results[i].wrong_rate_std@,
        ],
{
    reveal_strlit(
        "concurrency,strategy,runs,precision_mean,precision_std,recall_mean,recall_std,f1_mean,f1_std,wrong_rate_mean,wrong_rate_std",
    );
    let rows = aggregated_lines(results);
    assert forall|k: int| 0 <= k < rows.len() implies one_line(#[trigger] rows[k]) by {
        lemma_aggregated_row(results, k);
    }
    law_table_lines(aggregated_header(), rows);
    lemma_aggregated_row(results, i);
}

// ---------------------------------------------------------------------------
// Reading
// ---------------------------------------------------------------------------

/// What a result says are all of its fields.
pub proof fn law_result_says_its_fields(r: RunResult, rows: Seq<RunResult>, i: int)
    ensures
        r@.concurrency == r.concurrency,
        r@.run == r.run,
        r@.tag == r.tag@,
        r@.row.strategy == r.strategy@,
        r@.row.correct == r.correct,
        r@.row.wrong_rpc == r.wrong_rpc,
        r@.row.unattributed == r.unattributed,
        r@.row.rates.len() == 5,
        r@.row.rates[0] == r.precision@,
        r@.row.rates[1] == r.recall@,
        r@.row.rates[2] == r.f1@,
        r@.row.rates[3] == r.wrong_rate@,
        r@.row.rates[4] == r.unattributed_rate@,
        run_models(rows).len() == rows.len(),
        0 <= i < rows.len() ==> run_models(rows)[i] == rows[i]@,
{
}

/// A count is the number that its field holds; a field that holds none counts as zero.
pub proof fn law_counts_read(field: Seq<char>)
    ensures
        match unsigned_value(field, usize::MAX as nat) {
            Ok(n) => count_read(field) == n,
            Err(_) => count_read(field) == 0,
        },
{
}

/// Of the lines of the evaluator's table the first is skipped, and so is each with less than nine
/// fields. The n-th result is that of the n-th other line: the strategy, three counts and five
/// rates, in the order of the header, for the given level and run and with their tag.
pub proof fn law_results_read_line_by_line(ls: Seq<Seq<char>>, concurrency: nat, run: nat)
    requires
        ls.len() > 0,
    ensures
        ({
            let rows = ls.skip(1).filter(|l: Seq<char>| split(l, ',').len() >= 9);
            let out = lines_read(ls, concurrency, run);
            &&& out.len() == rows.len()
            &&& forall|n: int|
                0 <= n < rows.len() ==> {
                    let fields = split(rows[n], ',');
                    &&& (#[trigger] out[n]).concurrency == concurrency
                    &&& out[n].run == run
                    &&& out[n].tag == spec_tag(concurrency, run)
                    &&& out[n].row.strategy == fields[0]
                    &&& out[n].row.correct == count_read(fields[1])
                    &&& out[n].row.wrong_rpc == count_read(fields[2])
                    &&& out[n].row.unattributed == count_read(fields[3])
                    &&& out[n].row.rates.len() == 5
                    &&& forall|k: int|
                        0 <= k < 5 ==> #[trigger] out[n].row.rates[k] == fields[k + 4]
                }
        }),
    decreases ls.len(),
{
    reveal(Seq::filter);
    if ls.len() == 1 {
        assert(ls.skip(1).len() == 0);
    } else {
        let rest = ls.drop_last();
        law_results_read_line_by_line(rest, concurrency, run);
        assert(ls.skip(1).drop_last() =~= rest.skip(1));
        assert(ls.skip(1).last() == ls.last());
    }
}

/// No lines, no results.
pub proof fn law_no_results(concurrency: nat, run: nat)
    ensures
        lines_read(Seq::<Seq<char>>::empty(), concurrency, run).len() == 0,
{
}

// ---------------------------------------------------------------------------
// Groups
// ---------------------------------------------------------------------------

/// The members of a group are the places of all results with its level and strategy, in their
/// order, and there is at least one.
pub proof fn law_group_members(
    groups: Seq<RunGroup>,
    results: Seq<RunResult>,
    g: int,
    k: usize,
)
    requires
        is_grouping(groups, group_keys(results)),
        results.len() <= usize::MAX,
        0 <= g < groups.len(),
    ensures
        groups[g].members@.contains(k) <==> k < results.len() && results[k as int].concurrency
            == groups[g].concurrency && results[k as int].strategy@ == groups[g].strategy@,
        groups[g].members@.len() > 0,
        forall|a: int, b: int|
            0 <= a < b < groups[g].members@.len() ==> (#[trigger] groups[g].members@[a]) < (
            #[trigger] groups[g].members@[b]),
{
    let keys = group_keys(results);
    lemma_places(keys, groups[g].key(), k);
    lemma_places_rise(keys, groups[g].key());
}

proof fn lemma_places_rise(keys: Seq<(usize, Seq<char>)>, key: (usize, Seq<char>))
    requires
        keys.len() <= usize::MAX,
    ensures
        forall|a: int, b: int|
            0 <= a < b < places(keys, key).len() ==> (#[trigger] places(keys, key)[a]) < (
            #[trigger] places(keys, key)[b]),
    decreases keys.len(),
{
    if keys.len() > 0 {
        let rest = keys.drop_last();
        let before = places(rest, key);
        let all = places(keys, key);
        lemma_places_rise(rest, key);
        assert forall|a: int, b: int| 0 <= a < b < all.len() implies (#[trigger] all[a]) < (
        #[trigger] all[b]) by {
            if b == before.len() {
                lemma_places(rest, key, before[a]);
                assert(before.contains(before[a]));
            } else {
                assert(before[a] < before[b]);
            }
        }
    }
}

/// The groups stand in the order of level, and those of one level in the order of the strategy's
/// text.
pub proof fn law_groups_in_order(
    groups: Seq<RunGroup>,
    results: Seq<RunResult>,
    a: int,
    b: int,
)
    requires
        is_grouping(groups, group_keys(results)),
        0 <= a < b < groups.len(),
    ensures
        groups[a].concurrency < groups[b].concurrency || (groups[a].concurrency
            == groups[b].concurrency && text_before(groups[a].strategy@, groups[b].strategy@)),
{
    assert(key_before(groups[a].key(), groups[b].key()));
}

/// Every result has its group.
pub proof fn law_every_result_has_group(groups: Seq<RunGroup>, results: Seq<RunResult>, k: int)
    requires
        is_grouping(groups, group_keys(results)),
        0 <= k < results.len(),
    ensures
        exists|g: int|
            0 <= g < groups.len() && (#[trigger] groups[g]).concurrency == results[k].concurrency
                && groups[g].strategy@ == results[k].strategy@,
{
    let keys = group_keys(results);
    assert(keys[k] == (results[k].concurrency, results[k].strategy@));
    assert(crate::report::has_group(groups, keys[k]));
    let g = choose|g: int| 0 <= g < groups.len() && (#[trigger] groups[g]).key() == keys[k];
    assert(groups[g].concurrency == results[k].concurrency);
}

} // verus!
