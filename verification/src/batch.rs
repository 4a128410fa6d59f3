//! Batch analysis: per-model totals of file operations and tool calls over many sessions.
use vstd::prelude::*;
use ahash::AHashMap;
use crate::json::{Json, JsonMember, json_keys_distinct, member_names_distinct};
use crate::text::{seq_contains, str_contains};
use crate::fast_map::{row_map_contents, row_map_insert, row_map_into_values, row_map_remove, row_map_with_capacity};
use crate::day_sets::{distinct, insert_all, insert_string, lemma_distinct_len, view_set};
use crate::models::ProviderActiveDays;
use crate::sorting::{Named, sort_by_name};
use crate::text::seq_less;

verus! {

/// Single row of aggregated metrics grouped by model.
#[derive(Debug)]
pub struct AggregatedAnalysisRow {
    pub model: String,
    pub edit_lines: usize,
    pub read_lines: usize,
    pub write_lines: usize,
    pub bash_count: usize,
    pub edit_count: usize,
    pub read_count: usize,
    pub todo_write_count: usize,
    pub write_count: usize,
}

impl AggregatedAnalysisRow {
    /// The counters of the row, in field order: edit, read and write lines, then the Bash,
    /// Edit, Read, TodoWrite and Write tool calls.
    pub open spec fn counts(self) -> Seq<int> {
        seq![
            self.edit_lines as int,
            self.read_lines as int,
            self.write_lines as int,
            self.bash_count as int,
            self.edit_count as int,
            self.read_count as int,
            self.todo_write_count as int,
            self.write_count as int,
        ]
    }
}

/// All counters zero.
pub open spec fn zero_counts() -> Seq<int> {
    seq![0int, 0int, 0int, 0int, 0int, 0int, 0int, 0int]
}

/// Counter-wise sum.
pub open spec fn add_counts(a: Seq<int>, b: Seq<int>) -> Seq<int> {
    Seq::new(8, |i: int| a[i] + b[i])
}

/// A model name that the analysis leaves out: an empty one, or one that contains `<synthetic>`.
pub open spec fn is_left_out(model: Seq<char>) -> bool {
    model.len() == 0 || seq_contains(model, "<synthetic>"@)
}

/// A line total of a record: its member `key` when it is a non-negative integer, else 0.
pub open spec fn record_lines(record: Json, key: Seq<char>) -> int {
    (record.member_u64_or_zero(key) as usize) as int
}

/// A tool-call count of a record, read from its `toolCallCounts` object.
pub open spec fn record_tool_count(record: Json, tool: Seq<char>) -> int {
    match record.get_spec("toolCallCounts"@) {
        Some(t) => match t {
            Json::Object(_) => (t.member_u64_or_zero(tool) as usize) as int,
            _ => 0,
        },
        None => 0,
    }
}

/// What one record adds to each model that it used.
pub open spec fn record_delta(record: Json) -> Seq<int> {
    seq![
        record_lines(record, "totalEditLines"@),
        record_lines(record, "totalReadLines"@),
        record_lines(record, "totalWriteLines"@),
        record_tool_count(record, "Bash"@),
        record_tool_count(record, "Edit"@),
        record_tool_count(record, "Read"@),
        record_tool_count(record, "TodoWrite"@),
        record_tool_count(record, "Write"@),
    ]
}

/// Adds `delta` to each model named by `usage`, in order, skipping the models left out (empty
/// names and synthetic ones).
pub open spec fn add_models(m: Map<Seq<char>, Seq<int>>, usage: Seq<JsonMember>, delta: Seq<int>) -> Map<Seq<char>, Seq<int>>
    decreases usage.len(),
{
    if usage.len() == 0 {
        m
    } else {
        let prev = add_models(m, usage.drop_last(), delta);
        let k = usage.last().key@;
        if is_left_out(k) {
            prev
        } else {
            prev.insert(k, add_counts(if prev.contains_key(k) { prev[k] } else { zero_counts() }, delta))
        }
    }
}

/// Law: adding a record's counters to the models its usage names (each named once) adds the
/// whole counter vector, lines and every tool count, to each model that is not left out, whether
/// or not the model was seen before; every other model keeps its counters.
pub proof fn lemma_add_models_adds_delta(m: Map<Seq<char>, Seq<int>>, usage: Seq<JsonMember>, delta: Seq<int>, k: Seq<char>)
    requires
        member_names_distinct(usage),
    ensures
        (exists|j: int| 0 <= j < usage.len() && #[trigger] usage[j].key@ == k) && !is_left_out(k) ==> {
            &&& add_models(m, usage, delta).contains_key(k)
            &&& forall|i: int| 0 <= i < 8 ==> #[trigger] add_models(m, usage, delta)[k][i] == (if m.contains_key(k) {
                m[k][i]
            } else {
                0
            }) + delta[i]
        },
        !(exists|j: int| 0 <= j < usage.len() && #[trigger] usage[j].key@ == k) || is_left_out(k) ==> {
            &&& add_models(m, usage, delta).contains_key(k) == m.contains_key(k)
            &&& m.contains_key(k) ==> add_models(m, usage, delta)[k] == m[k]
        },
    decreases usage.len(),
{
    if usage.len() > 0 {
        let prev = usage.drop_last();
        assert(member_names_distinct(prev)) by {
            assert forall|i: int, j: int| 0 <= i < j < prev.len() implies #[trigger] prev[i].key@ != #[trigger] prev[j].key@ by {
                assert(prev[i] == usage[i] && prev[j] == usage[j]);
            }
        }
        lemma_add_models_adds_delta(m, prev, delta, k);
        let last = usage.last().key@;
        let in_prev = exists|j: int| 0 <= j < prev.len() && #[trigger] prev[j].key@ == k;
        let in_all = exists|j: int| 0 <= j < usage.len() && #[trigger] usage[j].key@ == k;
        if in_prev {
            let j = choose|j: int| 0 <= j < prev.len() && #[trigger] prev[j].key@ == k;
            assert(usage[j].key@ == k);
            if last == k {
                assert(usage[j].key@ != usage[usage.len() - 1].key@);
            }
        }
        if in_all {
            let j = choose|j: int| 0 <= j < usage.len() && #[trigger] usage[j].key@ == k;
            if j < prev.len() {
                assert(prev[j].key@ == k);
            } else {
                assert(last == k);
            }
        }
        if last == k {
            assert(usage[usage.len() - 1].key@ == k);
        }
    }
}

/// Adds one record: its counters go to each model of its `conversationUsage` object.
pub open spec fn add_record(m: Map<Seq<char>, Seq<int>>, record: Json) -> Map<Seq<char>, Seq<int>> {
    match record.get_spec("conversationUsage"@) {
        Some(Json::Object(usage)) => add_models(m, usage@, record_delta(record)),
        _ => m,
    }
}

/// Adds records in order.
pub open spec fn add_records(m: Map<Seq<char>, Seq<int>>, records: Seq<Json>) -> Map<Seq<char>, Seq<int>>
    decreases records.len(),
{
    if records.len() == 0 {
        m
    } else {
        add_record(add_records(m, records.drop_last()), records.last())
    }
}

/// Adds every record of one analysis document (its `records` array).
pub open spec fn add_analysis(m: Map<Seq<char>, Seq<int>>, analysis: Json) -> Map<Seq<char>, Seq<int>> {
    match analysis.get_spec("records"@) {
        Some(Json::Array(records)) => add_records(m, records@),
        _ => m,
    }
}

/// The counters of each model held in a map of rows.
pub open spec fn counts_view(c: Map<Seq<char>, AggregatedAnalysisRow>) -> Map<Seq<char>, Seq<int>> {
    c.map_values(|r: AggregatedAnalysisRow| r.counts())
}

/// Each row is filed under its own model name.
pub open spec fn keys_match(c: Map<Seq<char>, AggregatedAnalysisRow>) -> bool {
    forall|k: Seq<char>| #[trigger] c.contains_key(k) ==> c[k].model@ == k
}

/// Every model has eight counters, none negative.
pub open spec fn counts_ok(m: Map<Seq<char>, Seq<int>>) -> bool {
    forall|k: Seq<char>| #[trigger] m.contains_key(k) ==> m[k].len() == 8 && forall|i: int| 0 <= i < 8 ==> m[k][i] >= 0
}

/// Every counter fits in a `usize`.
pub open spec fn counts_fit(m: Map<Seq<char>, Seq<int>>) -> bool {
    forall|k: Seq<char>, i: int| #[trigger] m.contains_key(k) && 0 <= i < 8 ==> #[trigger] m[k][i] <= usize::MAX
}

/// `b` holds every model of `a`, with counters at least as large.
pub open spec fn dominated(a: Map<Seq<char>, Seq<int>>, b: Map<Seq<char>, Seq<int>>) -> bool {
    forall|k: Seq<char>| #[trigger] a.contains_key(k) ==> b.contains_key(k) && forall|i: int| 0 <= i < 8 ==> a[k][i] <= #[trigger] b[k][i]
}

proof fn lemma_dominated_refl(a: Map<Seq<char>, Seq<int>>)
    ensures
        dominated(a, a),
{
}

proof fn lemma_dominated_trans(a: Map<Seq<char>, Seq<int>>, b: Map<Seq<char>, Seq<int>>, c: Map<Seq<char>, Seq<int>>)
    requires
        dominated(a, b),
        dominated(b, c),
    ensures
        dominated(a, c),
{
    assert forall|k: Seq<char>| #[trigger] a.contains_key(k) implies c.contains_key(k) && forall|i: int| 0 <= i < 8 ==> a[k][i] <= #[trigger] c[k][i] by {
        assert forall|i: int| 0 <= i < 8 implies a[k][i] <= #[trigger] c[k][i] by {
            assert(a[k][i] <= b[k][i]);
        }
    }
}

pub open spec fn delta_ok(d: Seq<int>) -> bool {
    d.len() == 8 && forall|i: int| 0 <= i < 8 ==> d[i] >= 0
}

proof fn lemma_record_delta_ok(record: Json)
    ensures
        delta_ok(record_delta(record)),
{
}

/// Adding models only grows the counters.
proof fn lemma_add_models_grows(m: Map<Seq<char>, Seq<int>>, usage: Seq<JsonMember>, delta: Seq<int>)
    requires
        counts_ok(m),
        delta_ok(delta),
    ensures
        counts_ok(add_models(m, usage, delta)),
        dominated(m, add_models(m, usage, delta)),
    decreases usage.len(),
{
    if usage.len() > 0 {
        lemma_add_models_grows(m, usage.drop_last(), delta);
        let prev = add_models(m, usage.drop_last(), delta);
        let k = usage.last().key@;
        if !is_left_out(k) {
            let next = add_models(m, usage, delta);
            assert(dominated(prev, next));
            lemma_dominated_trans(m, prev, next);
        }
    }
}

/// A prefix of the models adds no more than all of them.
proof fn lemma_add_models_prefix(m: Map<Seq<char>, Seq<int>>, usage: Seq<JsonMember>, delta: Seq<int>, j: int)
    requires
        counts_ok(m),
        delta_ok(delta),
        0 <= j <= usage.len(),
    ensures
        dominated(add_models(m, usage.take(j), delta), add_models(m, usage, delta)),
    decreases usage.len(),
{
    if j == usage.len() {
        assert(usage.take(j) =~= usage);
    } else {
        lemma_add_models_prefix(m, usage.drop_last(), delta, j);
        assert(usage.drop_last().take(j) =~= usage.take(j));
        lemma_add_models_grows(m, usage.drop_last(), delta);
        let prev = add_models(m, usage.drop_last(), delta);
        let k = usage.last().key@;
        if !is_left_out(k) {
            assert(dominated(prev, add_models(m, usage, delta)));
        }
        lemma_dominated_trans(add_models(m, usage.take(j), delta), prev, add_models(m, usage, delta));
    }
}

proof fn lemma_add_record_grows(m: Map<Seq<char>, Seq<int>>, record: Json)
    requires
        counts_ok(m),
    ensures
        counts_ok(add_record(m, record)),
        dominated(m, add_record(m, record)),
{
    lemma_record_delta_ok(record);
    match record.get_spec("conversationUsage"@) {
        Some(Json::Object(usage)) => lemma_add_models_grows(m, usage@, record_delta(record)),
        _ => {},
    }
}

proof fn lemma_add_records_grows(m: Map<Seq<char>, Seq<int>>, records: Seq<Json>)
    requires
        counts_ok(m),
    ensures
        counts_ok(add_records(m, records)),
        dominated(m, add_records(m, records)),
    decreases records.len(),
{
    if records.len() > 0 {
        lemma_add_records_grows(m, records.drop_last());
        lemma_add_record_grows(add_records(m, records.drop_last()), records.last());
        lemma_dominated_trans(m, add_records(m, records.drop_last()), add_records(m, records));
    }
}

proof fn lemma_add_records_prefix(m: Map<Seq<char>, Seq<int>>, records: Seq<Json>, i: int)
    requires
        counts_ok(m),
        0 <= i <= records.len(),
    ensures
        dominated(add_records(m, records.take(i)), add_records(m, records)),
    decreases records.len(),
{
    if i == records.len() {
        assert(records.take(i) =~= records);
    } else {
        lemma_add_records_prefix(m, records.drop_last(), i);
        assert(records.drop_last().take(i) =~= records.take(i));
        lemma_add_records_grows(m, records.drop_last());
        lemma_add_record_grows(add_records(m, records.drop_last()), records.last());
        lemma_dominated_trans(add_records(m, records.take(i)), add_records(m, records.drop_last()), add_records(m, records));
    }
}

/// An analysis document only grows the counters.
pub proof fn lemma_add_analysis_grows(m: Map<Seq<char>, Seq<int>>, analysis: Json)
    requires
        counts_ok(m),
    ensures
        counts_ok(add_analysis(m, analysis)),
        dominated(m, add_analysis(m, analysis)),
{
    match analysis.get_spec("records"@) {
        Some(Json::Array(records)) => lemma_add_records_grows(m, records@),
        _ => {},
    }
}

proof fn lemma_row_counts_ok(c: Map<Seq<char>, AggregatedAnalysisRow>)
    ensures
        counts_ok(counts_view(c)),
{
}

/// Adds the counters of one analysis document (its `records`) to the rows of `aggregated`,
/// one row per model, creating rows for models not seen before. Models with an empty name, or
/// whose name contains `<synthetic>`, are skipped.
pub fn aggregate_analysis_result(aggregated: &mut AHashMap<String, AggregatedAnalysisRow>, analysis: &Json)
    requires
        json_keys_distinct(*analysis),
        keys_match(row_map_contents(*old(aggregated))),
        counts_fit(add_analysis(counts_view(row_map_contents(*old(aggregated))), *analysis)),
    ensures
        keys_match(row_map_contents(*final(aggregated))),
        counts_view(row_map_contents(*final(aggregated))) == add_analysis(counts_view(row_map_contents(*old(aggregated))), *analysis),
{
    let ghost start = counts_view(row_map_contents(*aggregated));
    proof {
        lemma_row_counts_ok(row_map_contents(*aggregated));
    }
    let records = match analysis.get("records") {
        Some(r) => match r.as_array() {
            Some(a) => a,
            None => return,
        },
        None => return,
    };
    let ghost all = add_records(start, records@);
    assert(all == add_analysis(start, *analysis));
    let n = records.len();
    assert(records@.take(0) =~= Seq::<Json>::empty());
    for i in 0..n
        invariant
            n == records@.len(),
            counts_ok(start),
            all == add_records(start, records@),
            counts_fit(all),
            keys_match(row_map_contents(*aggregated)),
            counts_view(row_map_contents(*aggregated)) == add_records(start, records@.take(i as int)),
    {
        let ghost before = counts_view(row_map_contents(*aggregated));
        assert(records@.take(i + 1).drop_last() =~= records@.take(i as int));
        assert(records@.take(i + 1).last() == records@[i as int]);
        proof {
            lemma_add_records_prefix(start, records@, i + 1);
            lemma_add_records_grows(start, records@.take(i as int));
        }
        let record = &records[i];
        let usage_opt = match record.get("conversationUsage") {
            Some(u) => u.as_object(),
            None => None,
        };
        if usage_opt.is_none() {
            assert(add_records(start, records@.take(i + 1)) == before);
        }
        if let Some(usage) = usage_opt {
            let edit_lines = record.get_u64_or_zero("totalEditLines") as usize;
            let read_lines = record.get_u64_or_zero("totalReadLines") as usize;
            let write_lines = record.get_u64_or_zero("totalWriteLines") as usize;
            let mut bash: usize = 0;
            let mut edit: usize = 0;
            let mut read: usize = 0;
            let mut todo_write: usize = 0;
            let mut write: usize = 0;
            match record.get("toolCallCounts") {
                Some(tools) => match tools.as_object() {
                    Some(_) => {
                        bash = tools.get_u64_or_zero("Bash") as usize;
                        edit = tools.get_u64_or_zero("Edit") as usize;
                        read = tools.get_u64_or_zero("Read") as usize;
                        todo_write = tools.get_u64_or_zero("TodoWrite") as usize;
                        write = tools.get_u64_or_zero("Write") as usize;
                    },
                    None => {},
                },
                None => {},
            }
            let ghost delta = record_delta(*record);
            assert(delta =~= seq![
                edit_lines as int, read_lines as int, write_lines as int, bash as int,
                edit as int, read as int, todo_write as int, write as int,
            ]);
            proof {
                lemma_record_delta_ok(*record);
            }
            let ghost next_all = add_records(start, records@.take(i + 1));
            assert(next_all == add_models(before, usage@, delta));
            let m = usage.len();
            assert(usage@.take(0) =~= Seq::<JsonMember>::empty());
            for j in 0..m
                invariant
                    m == usage@.len(),
                    counts_ok(before),
                    delta_ok(delta),
                    delta =~= seq![
                        edit_lines as int, read_lines as int, write_lines as int, bash as int,
                        edit as int, read as int, todo_write as int, write as int,
                    ],
                    next_all == add_models(before, usage@, delta),
                    dominated(next_all, all),
                    counts_fit(all),
                    keys_match(row_map_contents(*aggregated)),
                    counts_view(row_map_contents(*aggregated)) == add_models(before, usage@.take(j as int), delta),
            {
                let ghost cur = counts_view(row_map_contents(*aggregated));
                assert(usage@.take(j + 1).drop_last() =~= usage@.take(j as int));
                assert(usage@.take(j + 1).last() == usage@[j as int]);
                proof {
                    lemma_add_models_prefix(before, usage@, delta, j + 1);
                    lemma_dominated_trans(add_models(before, usage@.take(j + 1), delta), next_all, all);
                }
                let model = &usage[j].key;
                if model.as_str().is_empty() || str_contains(model.as_str(), "<synthetic>") {
                    assert(add_models(before, usage@.take(j + 1), delta) == cur);
                } else {
                    let ghost k = model@;
                    let ghost target = add_models(before, usage@.take(j + 1), delta);
                    assert(target.contains_key(k));
                    let old_row = row_map_remove(aggregated, model.as_str());
                    let mut row = match old_row {
                        Some(r) => r,
                        None => AggregatedAnalysisRow {
                            model: model.clone(),
                            edit_lines: 0,
                            read_lines: 0,
                            write_lines: 0,
                            bash_count: 0,
                            edit_count: 0,
                            read_count: 0,
                            todo_write_count: 0,
                            write_count: 0,
                        },
                    };
                    assert(row.counts() =~= (if cur.contains_key(k) { cur[k] } else { zero_counts() }));
                    assert(target[k] =~= add_counts(row.counts(), delta));
                    assert(target[k][0] <= usize::MAX && target[k][1] <= usize::MAX && target[k][2] <= usize::MAX
                        && target[k][3] <= usize::MAX && target[k][4] <= usize::MAX && target[k][5] <= usize::MAX
                        && target[k][6] <= usize::MAX && target[k][7] <= usize::MAX) by {
                        assert(all[k][0] <= usize::MAX && all[k][1] <= usize::MAX && all[k][2] <= usize::MAX
                            && all[k][3] <= usize::MAX && all[k][4] <= usize::MAX && all[k][5] <= usize::MAX
                            && all[k][6] <= usize::MAX && all[k][7] <= usize::MAX);
                    }
                    row.edit_lines = row.edit_lines + edit_lines;
                    row.read_lines = row.read_lines + read_lines;
                    row.write_lines = row.write_lines + write_lines;
                    row.bash_count = row.bash_count + bash;
                    row.edit_count = row.edit_count + edit;
                    row.read_count = row.read_count + read;
                    row.todo_write_count = row.todo_write_count + todo_write;
                    row.write_count = row.write_count + write;
                    row_map_insert(aggregated, model.clone(), row);
                    assert(row.counts() =~= target[k]);
                    assert(counts_view(row_map_contents(*aggregated)) =~= target);
                }
            }
            assert(usage@.take(m as int) =~= usage@);
        }
    }
    assert(records@.take(n as int) =~= records@);
}

/// One analysed session file: the date on which it was last modified, and its analysis.
#[derive(Debug)]
pub struct FileAnalysis {
    pub modified_date: String,
    pub analysis: Json,
}

/// Adds the analyses of `files`, in order.
pub open spec fn add_files(m: Map<Seq<char>, Seq<int>>, files: Seq<FileAnalysis>) -> Map<Seq<char>, Seq<int>>
    decreases files.len(),
{
    if files.len() == 0 {
        m
    } else {
        add_analysis(add_files(m, files.drop_last()), files.last().analysis)
    }
}

/// The dates on which the files were modified.
pub open spec fn file_dates(files: Seq<FileAnalysis>) -> Set<Seq<char>> {
    files.map_values(|f: FileAnalysis| f.modified_date@).to_set()
}

proof fn lemma_add_files_grows(m: Map<Seq<char>, Seq<int>>, files: Seq<FileAnalysis>)
    requires
        counts_ok(m),
    ensures
        counts_ok(add_files(m, files)),
        dominated(m, add_files(m, files)),
    decreases files.len(),
{
    lemma_dominated_refl(m);
    if files.len() > 0 {
        lemma_add_files_grows(m, files.drop_last());
        lemma_add_analysis_grows(add_files(m, files.drop_last()), files.last().analysis);
        lemma_dominated_trans(m, add_files(m, files.drop_last()), add_files(m, files));
    }
}

proof fn lemma_add_files_prefix(m: Map<Seq<char>, Seq<int>>, files: Seq<FileAnalysis>, i: int)
    requires
        counts_ok(m),
        0 <= i <= files.len(),
    ensures
        dominated(add_files(m, files.take(i)), add_files(m, files)),
    decreases files.len(),
{
    if i == files.len() {
        assert(files.take(i) =~= files);
        lemma_dominated_refl(add_files(m, files));
    } else {
        lemma_add_files_prefix(m, files.drop_last(), i);
        assert(files.drop_last().take(i) =~= files.take(i));
        lemma_add_files_grows(m, files.drop_last());
        lemma_add_analysis_grows(add_files(m, files.drop_last()), files.last().analysis);
        lemma_dominated_trans(add_files(m, files.take(i)), add_files(m, files.drop_last()), add_files(m, files));
    }
}

proof fn lemma_fit_below(a: Map<Seq<char>, Seq<int>>, b: Map<Seq<char>, Seq<int>>)
    requires
        dominated(a, b),
        counts_fit(b),
    ensures
        counts_fit(a),
{
    assert forall|k: Seq<char>, i: int| #[trigger] a.contains_key(k) && 0 <= i < 8 implies #[trigger] a[k][i] <= usize::MAX by {
        assert(a[k][i] <= b[k][i]);
    }
}

/// No model name in `m` is left out (empty, or containing `<synthetic>`).
pub open spec fn no_left_out(m: Map<Seq<char>, Seq<int>>) -> bool {
    forall|k: Seq<char>| #[trigger] m.contains_key(k) ==> !is_left_out(k)
}

proof fn lemma_add_models_no_left_out(m: Map<Seq<char>, Seq<int>>, usage: Seq<JsonMember>, delta: Seq<int>)
    requires
        no_left_out(m),
    ensures
        no_left_out(add_models(m, usage, delta)),
    decreases usage.len(),
{
    if usage.len() > 0 {
        lemma_add_models_no_left_out(m, usage.drop_last(), delta);
    }
}

proof fn lemma_add_records_no_left_out(m: Map<Seq<char>, Seq<int>>, records: Seq<Json>)
    requires
        no_left_out(m),
    ensures
        no_left_out(add_records(m, records)),
    decreases records.len(),
{
    if records.len() > 0 {
        lemma_add_records_no_left_out(m, records.drop_last());
        let prev = add_records(m, records.drop_last());
        match records.last().get_spec("conversationUsage"@) {
            Some(Json::Object(usage)) => lemma_add_models_no_left_out(prev, usage@, record_delta(records.last())),
            _ => {},
        }
    }
}

proof fn lemma_add_files_no_left_out(m: Map<Seq<char>, Seq<int>>, files: Seq<FileAnalysis>)
    requires
        no_left_out(m),
    ensures
        no_left_out(add_files(m, files)),
    decreases files.len(),
{
    if files.len() > 0 {
        lemma_add_files_no_left_out(m, files.drop_last());
        let prev = add_files(m, files.drop_last());
        match files.last().analysis.get_spec("records"@) {
            Some(Json::Array(records)) => lemma_add_records_no_left_out(prev, records@),
            _ => {},
        }
    }
}

/// Law: the totals of all sessions name no empty model and no model that contains `<synthetic>`.
pub proof fn lemma_sessions_total_no_left_out(
    claude: Seq<FileAnalysis>,
    codex: Seq<FileAnalysis>,
    copilot: Seq<FileAnalysis>,
    gemini: Seq<FileAnalysis>,
)
    ensures
        no_left_out(sessions_total(claude, codex, copilot, gemini)),
{
    let m0 = Map::<Seq<char>, Seq<int>>::empty();
    lemma_add_files_no_left_out(m0, claude);
    lemma_add_files_no_left_out(add_files(m0, claude), codex);
    lemma_add_files_no_left_out(add_files(add_files(m0, claude), codex), copilot);
    lemma_add_files_no_left_out(add_files(add_files(add_files(m0, claude), codex), copilot), gemini);
}

/// Merges analysed files into the running totals: each file's date joins `unique_dates`, and
/// its analysis is added to the rows of `aggregated`, in the order of `files`.
pub fn process_analysis_results(
    aggregated: &mut AHashMap<String, AggregatedAnalysisRow>,
    unique_dates: &mut Vec<String>,
    files: &Vec<FileAnalysis>,
)
    requires
        keys_match(row_map_contents(*old(aggregated))),
        distinct(old(unique_dates)@),
        forall|i: int| 0 <= i < files@.len() ==> json_keys_distinct(#[trigger] files@[i].analysis),
        counts_fit(add_files(counts_view(row_map_contents(*old(aggregated))), files@)),
    ensures
        keys_match(row_map_contents(*final(aggregated))),
        distinct(final(unique_dates)@),
        counts_view(row_map_contents(*final(aggregated))) == add_files(counts_view(row_map_contents(*old(aggregated))), files@),
        view_set(final(unique_dates)@) == view_set(old(unique_dates)@).union(file_dates(files@)),
{
    let ghost start = counts_view(row_map_contents(*aggregated));
    let ghost start_dates = view_set(unique_dates@);
    proof {
        lemma_row_counts_ok(row_map_contents(*aggregated));
    }
    let n = files.len();
    assert(files@.take(0) =~= Seq::<FileAnalysis>::empty());
    assert(files@.take(0).map_values(|f: FileAnalysis| f.modified_date@).to_set() =~= Set::<Seq<char>>::empty());
    for i in 0..n
        invariant
            n == files@.len(),
            forall|i: int| 0 <= i < files@.len() ==> json_keys_distinct(#[trigger] files@[i].analysis),
            counts_ok(start),
            counts_fit(add_files(start, files@)),
            keys_match(row_map_contents(*aggregated)),
            distinct(unique_dates@),
            counts_view(row_map_contents(*aggregated)) == add_files(start, files@.take(i as int)),
            view_set(unique_dates@) == start_dates.union(file_dates(files@.take(i as int))),
    {
        insert_string(unique_dates, &files[i].modified_date);
        assert(files@.take(i + 1).drop_last() =~= files@.take(i as int));
        assert(files@.take(i + 1).last() == files@[i as int]);
        assert(file_dates(files@.take(i + 1)) =~= file_dates(files@.take(i as int)).insert(files@[i as int].modified_date@)) by {
            assert(files@.take(i + 1).map_values(|f: FileAnalysis| f.modified_date@) =~= files@.take(i as int).map_values(
                |f: FileAnalysis| f.modified_date@).push(files@[i as int].modified_date@));
            files@.take(i as int).map_values(|f: FileAnalysis| f.modified_date@).lemma_push_to_set_commute(files@[i as int].modified_date@);
        }
        assert(view_set(unique_dates@) =~= start_dates.union(file_dates(files@.take(i + 1))));
        proof {
            lemma_add_files_prefix(start, files@, i + 1);
            lemma_fit_below(add_files(start, files@.take(i + 1)), add_files(start, files@));
        }
        aggregate_analysis_result(aggregated, &files[i].analysis);
    }
    assert(files@.take(n as int) =~= files@);
}

/// Analysis totals over every session, with the number of active days of each provider.
#[derive(Debug)]
pub struct AnalysisData {
    pub rows: Vec<AggregatedAnalysisRow>,
    pub provider_days: ProviderActiveDays,
}

/// The rows hold exactly the models of `m`, each once, with its counters.
pub open spec fn rows_match(rows: Seq<AggregatedAnalysisRow>, m: Map<Seq<char>, Seq<int>>) -> bool {
    &&& m.dom().finite()
    &&& rows.len() == m.dom().len()
    &&& forall|i: int| 0 <= i < rows.len() ==> m.contains_key(#[trigger] rows[i].model@) && rows[i].counts() == m[rows[i].model@]
    &&& forall|k: Seq<char>| #[trigger] m.contains_key(k) ==> exists|i: int| 0 <= i < rows.len() && #[trigger] rows[i].model@ == k
}

/// Models strictly ascend, so none repeats.
pub open spec fn sorted_by_model(rows: Seq<AggregatedAnalysisRow>) -> bool {
    forall|i: int, j: int| 0 <= i < j < rows.len() ==> seq_less(#[trigger] rows[i].model@, #[trigger] rows[j].model@)
}

/// No two rows share a model.
pub open spec fn distinct_models(rows: Seq<AggregatedAnalysisRow>) -> bool {
    forall|i: int, j: int| 0 <= i < rows.len() && 0 <= j < rows.len() && i != j ==> #[trigger] rows[i].model@ != #[trigger] rows[j].model@
}

/// Sorts rows by model name in ascending order.
pub fn sort_rows_by_model(rows: Vec<AggregatedAnalysisRow>) -> (r: Vec<AggregatedAnalysisRow>)
    requires
        distinct_models(rows@),
    ensures
        r@.len() == rows@.len(),
        forall|x: AggregatedAnalysisRow| r@.contains(x) <==> rows@.contains(x),
        sorted_by_model(r@),
{
    let r = sort_by_name(rows);
    assert forall|i: int, j: int| 0 <= i < j < r@.len() implies seq_less(#[trigger] r@[i].model@, #[trigger] r@[j].model@) by {
        assert(seq_less(r@[i].name_view(), r@[j].name_view()));
    }
    r
}

impl Named for AggregatedAnalysisRow {
    open spec fn name_view(&self) -> Seq<char> {
        self.model@
    }

    fn name(&self) -> (r: &str) {
        self.model.as_str()
    }
}

/// The totals of all four providers' session files, added in the order `ClaudeCode`, `Codex`,
/// `Copilot`, `Gemini`.
pub open spec fn sessions_total(
    claude: Seq<FileAnalysis>,
    codex: Seq<FileAnalysis>,
    copilot: Seq<FileAnalysis>,
    gemini: Seq<FileAnalysis>,
) -> Map<Seq<char>, Seq<int>> {
    add_files(add_files(add_files(add_files(Map::empty(), claude), codex), copilot), gemini)
}

/// Aggregates the analysed session files of each provider into one row per model, sorted by
/// model name, and counts each provider's active days (distinct modification dates) and the
/// days on which any provider was active.
pub fn aggregate_all_sessions(
    claude: &Vec<FileAnalysis>,
    codex: &Vec<FileAnalysis>,
    copilot: &Vec<FileAnalysis>,
    gemini: &Vec<FileAnalysis>,
) -> (r: AnalysisData)
    requires
        forall|i: int| 0 <= i < claude@.len() ==> json_keys_distinct(#[trigger] claude@[i].analysis),
        forall|i: int| 0 <= i < codex@.len() ==> json_keys_distinct(#[trigger] codex@[i].analysis),
        forall|i: int| 0 <= i < copilot@.len() ==> json_keys_distinct(#[trigger] copilot@[i].analysis),
        forall|i: int| 0 <= i < gemini@.len() ==> json_keys_distinct(#[trigger] gemini@[i].analysis),
        counts_fit(sessions_total(claude@, codex@, copilot@, gemini@)),
    ensures
        rows_match(r.rows@, sessions_total(claude@, codex@, copilot@, gemini@)),
        sorted_by_model(r.rows@),
        forall|i: int| 0 <= i < r.rows@.len() ==> !is_left_out(#[trigger] r.rows@[i].model@),
        forall|i: int| 0 <= i < r.rows@.len() ==> (#[trigger] r.rows@[i]).model@.len() > 0,
        r.provider_days.claude == file_dates(claude@).len(),
        r.provider_days.codex == file_dates(codex@).len(),
        r.provider_days.copilot == file_dates(copilot@).len(),
        r.provider_days.gemini == file_dates(gemini@).len(),
        r.provider_days.total == file_dates(claude@).union(file_dates(codex@)).union(file_dates(copilot@)).union(
            file_dates(gemini@),
        ).len(),
{
    let mut aggregated = row_map_with_capacity(crate::constants::MODEL_COMBINATIONS);
    let ghost m0 = counts_view(row_map_contents(aggregated));
    assert(m0 =~= Map::<Seq<char>, Seq<int>>::empty());
    let ghost m1 = add_files(m0, claude@);
    let ghost m2 = add_files(m1, codex@);
    let ghost m3 = add_files(m2, copilot@);
    let ghost m4 = add_files(m3, gemini@);
    proof {
        lemma_row_counts_ok(row_map_contents(aggregated));
        lemma_add_files_grows(m0, claude@);
        lemma_add_files_grows(m1, codex@);
        lemma_add_files_grows(m2, copilot@);
        lemma_add_files_grows(m3, gemini@);
        lemma_dominated_trans(m1, m2, m3);
        lemma_dominated_trans(m1, m3, m4);
        lemma_dominated_trans(m2, m3, m4);
        lemma_fit_below(m1, m4);
        lemma_fit_below(m2, m4);
        lemma_fit_below(m3, m4);
    }
    let mut claude_dates: Vec<String> = Vec::new();
    let mut codex_dates: Vec<String> = Vec::new();
    let mut copilot_dates: Vec<String> = Vec::new();
    let mut gemini_dates: Vec<String> = Vec::new();
    assert(view_set(claude_dates@) =~= Set::<Seq<char>>::empty());
    process_analysis_results(&mut aggregated, &mut claude_dates, claude);
    process_analysis_results(&mut aggregated, &mut codex_dates, codex);
    process_analysis_results(&mut aggregated, &mut copilot_dates, copilot);
    process_analysis_results(&mut aggregated, &mut gemini_dates, gemini);
    let mut all_dates: Vec<String> = Vec::new();
    insert_all(&mut all_dates, &claude_dates);
    insert_all(&mut all_dates, &codex_dates);
    insert_all(&mut all_dates, &copilot_dates);
    insert_all(&mut all_dates, &gemini_dates);
    proof {
        lemma_distinct_len(claude_dates@);
        lemma_distinct_len(codex_dates@);
        lemma_distinct_len(copilot_dates@);
        lemma_distinct_len(gemini_dates@);
        lemma_distinct_len(all_dates@);
        assert(view_set(claude_dates@) =~= file_dates(claude@));
        assert(view_set(codex_dates@) =~= file_dates(codex@));
        assert(view_set(copilot_dates@) =~= file_dates(copilot@));
        assert(view_set(gemini_dates@) =~= file_dates(gemini@));
        assert(view_set(all_dates@) =~= file_dates(claude@).union(file_dates(codex@)).union(file_dates(copilot@)).union(file_dates(gemini@)));
    }
    let provider_days = ProviderActiveDays {
        claude: claude_dates.len(),
        codex: codex_dates.len(),
        copilot: copilot_dates.len(),
        gemini: gemini_dates.len(),
        total: all_dates.len(),
    };
    let ghost contents = row_map_contents(aggregated);
    let values = row_map_into_values(aggregated);
    let ghost keys = choose|keys: Seq<Seq<char>>|
        {
            &&& keys.len() == values@.len()
            &&& keys.no_duplicates()
            &&& keys.to_set() == contents.dom()
            &&& forall|i: int| 0 <= i < values@.len() ==> #[trigger] values@[i] == contents[keys[i]]
        };
    assert(keys.len() == values@.len());
    assert forall|i: int| 0 <= i < values@.len() implies #[trigger] values@[i].model@ == keys[i] by {
        assert(keys.to_set().contains(keys[i]));
        assert(contents.contains_key(keys[i]));
    }
    assert(distinct_models(values@));
    let rows = sort_rows_by_model(values);
    proof {
        lemma_sessions_total_no_left_out(claude@, codex@, copilot@, gemini@);
        keys.unique_seq_to_set();
        assert(counts_view(contents).dom() =~= contents.dom());
        assert forall|i: int| 0 <= i < rows@.len() implies m4.contains_key(#[trigger] rows@[i].model@) && rows@[i].counts() == m4[rows@[i].model@] by {
            assert(values@.contains(rows@[i]));
            let j = choose|j: int| 0 <= j < values@.len() && values@[j] == rows@[i];
            assert(keys.to_set().contains(keys[j]));
        }
        assert forall|k: Seq<char>| #[trigger] m4.contains_key(k) implies exists|i: int| 0 <= i < rows@.len() && #[trigger] rows@[i].model@ == k by {
            assert(keys.to_set().contains(k));
            let j = choose|j: int| 0 <= j < keys.len() && keys[j] == k;
            assert(rows@.contains(values@[j]));
            let i = choose|i: int| 0 <= i < rows@.len() && rows@[i] == values@[j];
            assert(rows@[i].model@ == k);
        }
    }
    AnalysisData { rows, provider_days }
}
/// Complete analysis documents of every session file, by provider.
#[derive(Debug)]
pub struct ProviderGroupedAnalysis {
    pub claude: Vec<Json>,
    pub codex: Vec<Json>,
    pub copilot: Vec<Json>,
    pub gemini: Vec<Json>,
}

} // verus!
