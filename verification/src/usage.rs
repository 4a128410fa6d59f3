//! Token usage across session files: active days, model usage entries and time periods.
use vstd::prelude::*;
use crate::day_sets::{distinct, insert_all, insert_string, lemma_distinct_len, view_set, views};
use crate::json::{Json, JsonMember};
use crate::models::{GroupedUsageData, GroupingMode, PeriodProviderDays, PeriodUsage, Provider, ProviderActiveDays};
use crate::period::{period_key_spec, to_period_key};
use crate::text::{lemma_seq_less_asymmetric, lemma_seq_less_irreflexive, lemma_seq_less_total, lemma_seq_less_transitive, seq_less, str_equal, str_less};

verus! {

/// Counts the active days of each provider (the distinct dates among its files) and the days
/// on which any provider was active.
pub fn count_provider_days(
    claude: &Vec<String>,
    codex: &Vec<String>,
    copilot: &Vec<String>,
    gemini: &Vec<String>,
) -> (r: ProviderActiveDays)
    ensures
        r.claude == view_set(claude@).len(),
        r.codex == view_set(codex@).len(),
        r.copilot == view_set(copilot@).len(),
        r.gemini == view_set(gemini@).len(),
        r.total == view_set(claude@).union(view_set(codex@)).union(view_set(copilot@)).union(view_set(gemini@)).len(),
{
    let mut c: Vec<String> = Vec::new();
    let mut x: Vec<String> = Vec::new();
    let mut p: Vec<String> = Vec::new();
    let mut g: Vec<String> = Vec::new();
    let mut all: Vec<String> = Vec::new();
    assert(view_set(c@) =~= Set::<Seq<char>>::empty());
    insert_all(&mut c, claude);
    insert_all(&mut x, codex);
    insert_all(&mut p, copilot);
    insert_all(&mut g, gemini);
    insert_all(&mut all, claude);
    insert_all(&mut all, codex);
    insert_all(&mut all, copilot);
    insert_all(&mut all, gemini);
    proof {
        lemma_distinct_len(c@);
        lemma_distinct_len(x@);
        lemma_distinct_len(p@);
        lemma_distinct_len(g@);
        lemma_distinct_len(all@);
        assert(view_set(c@) =~= view_set(claude@));
        assert(view_set(x@) =~= view_set(codex@));
        assert(view_set(p@) =~= view_set(copilot@));
        assert(view_set(g@) =~= view_set(gemini@));
        assert(view_set(all@) =~= view_set(claude@).union(view_set(codex@)).union(view_set(copilot@)).union(view_set(gemini@)));
    }
    ProviderActiveDays { claude: c.len(), codex: x.len(), copilot: p.len(), gemini: g.len(), total: all.len() }
}

/// Law: on as many days as any provider was active, at least as many as each provider, and
/// no more than all of them together.
pub proof fn lemma_total_days_bounds(claude: Seq<String>, codex: Seq<String>, copilot: Seq<String>, gemini: Seq<String>)
    ensures
        ({
            let total = view_set(claude).union(view_set(codex)).union(view_set(copilot)).union(view_set(gemini));
            &&& total.len() >= view_set(claude).len()
            &&& total.len() >= view_set(codex).len()
            &&& total.len() >= view_set(copilot).len()
            &&& total.len() >= view_set(gemini).len()
            &&& total.len() <= view_set(claude).len() + view_set(codex).len() + view_set(copilot).len() + view_set(gemini).len()
        }),
{
    let c = view_set(claude);
    let x = view_set(codex);
    let p = view_set(copilot);
    let g = view_set(gemini);
    vstd::seq_lib::seq_to_set_is_finite(views(claude));
    vstd::seq_lib::seq_to_set_is_finite(views(codex));
    vstd::seq_lib::seq_to_set_is_finite(views(copilot));
    vstd::seq_lib::seq_to_set_is_finite(views(gemini));
    let cx = c.union(x);
    let cxp = cx.union(p);
    let total = cxp.union(g);
    vstd::set_lib::lemma_len_union(c, x);
    vstd::set_lib::lemma_len_union(cx, p);
    vstd::set_lib::lemma_len_union(cxp, g);
    vstd::set_lib::lemma_len_subset(c, total);
    vstd::set_lib::lemma_len_subset(x, total);
    vstd::set_lib::lemma_len_subset(p, total);
    vstd::set_lib::lemma_len_subset(g, total);
}

/// One session file's usage: the date on which it was last modified, its usage, and the
/// provider whose session it is.
#[derive(Debug)]
pub struct FileUsage<U> {
    pub date: String,
    pub usage: U,
    pub provider: Provider,
}

/// The period key of each file.
pub open spec fn file_period_key<U>(f: FileUsage<U>, mode: GroupingMode) -> Seq<char> {
    period_key_spec(f.date@, mode)
}

/// The usages of the files whose period is `key`, in order.
pub open spec fn usages_in<U>(files: Seq<FileUsage<U>>, mode: GroupingMode, key: Seq<char>) -> Seq<U>
    decreases files.len(),
{
    if files.len() == 0 {
        Seq::empty()
    } else {
        let prev = usages_in(files.drop_last(), mode, key);
        if file_period_key(files.last(), mode) == key {
            prev.push(files.last().usage)
        } else {
            prev
        }
    }
}

/// The dates of the files of `provider` whose period is `key`.
pub open spec fn dates_in<U>(files: Seq<FileUsage<U>>, mode: GroupingMode, key: Seq<char>, provider: Provider) -> Set<Seq<char>>
    decreases files.len(),
{
    if files.len() == 0 {
        Set::empty()
    } else {
        let prev = dates_in(files.drop_last(), mode, key, provider);
        if file_period_key(files.last(), mode) == key && files.last().provider == provider {
            prev.insert(files.last().date@)
        } else {
            prev
        }
    }
}

/// The period keys of the files.
pub open spec fn period_keys<U>(files: Seq<FileUsage<U>>, mode: GroupingMode) -> Set<Seq<char>> {
    Set::new(|k: Seq<char>| exists|i: int| 0 <= i < files.len() && file_period_key(#[trigger] files[i], mode) == k)
}

/// The days of a period's providers.
pub open spec fn days_of(d: PeriodProviderDays, provider: Provider) -> Set<Seq<char>> {
    match provider {
        Provider::ClaudeCode => view_set(d.claude@),
        Provider::Codex => view_set(d.codex@),
        Provider::Copilot => view_set(d.copilot@),
        Provider::Gemini => view_set(d.gemini@),
        Provider::Unknown => Set::empty(),
    }
}

/// A period of `periods` is exactly what the files give for its key.
pub open spec fn period_matches<U>(g: PeriodUsage<Vec<U>>, files: Seq<FileUsage<U>>, mode: GroupingMode) -> bool {
    &&& g.models@ == usages_in(files, mode, g.period_key@)
    &&& g.provider_days.well_formed()
    &&& forall|p: Provider| p != Provider::Unknown ==> #[trigger] days_of(g.provider_days, p) == dates_in(files, mode, g.period_key@, p)
}

/// The periods are the period keys of the files, in ascending order, each as the files give it.
pub open spec fn periods_match<U>(periods: Seq<PeriodUsage<Vec<U>>>, files: Seq<FileUsage<U>>, mode: GroupingMode) -> bool {
    &&& forall|i: int, j: int| 0 <= i < j < periods.len() ==> seq_less(#[trigger] periods[i].period_key@, #[trigger] periods[j].period_key@)
    &&& forall|i: int| 0 <= i < periods.len() ==> period_keys(files, mode).contains(#[trigger] periods[i].period_key@)
    &&& forall|k: Seq<char>| #[trigger] period_keys(files, mode).contains(k) ==> exists|i: int| 0 <= i < periods.len() && #[trigger] periods[i].period_key@ == k
    &&& forall|i: int| 0 <= i < periods.len() ==> period_matches(#[trigger] periods[i], files, mode)
}

proof fn lemma_push_step<U>(prev: Seq<FileUsage<U>>, f: FileUsage<U>, mode: GroupingMode)
    ensures
        forall|k: Seq<char>| #[trigger] usages_in(prev.push(f), mode, k) == (if file_period_key(f, mode) == k {
            usages_in(prev, mode, k).push(f.usage)
        } else {
            usages_in(prev, mode, k)
        }),
        forall|k: Seq<char>, p: Provider| #[trigger] dates_in(prev.push(f), mode, k, p) == (if file_period_key(f, mode) == k && f.provider == p {
            dates_in(prev, mode, k, p).insert(f.date@)
        } else {
            dates_in(prev, mode, k, p)
        }),
        period_keys(prev.push(f), mode) == period_keys(prev, mode).insert(file_period_key(f, mode)),
{
    let next = prev.push(f);
    assert(next.drop_last() =~= prev);
    assert(next.last() == f);
    assert(period_keys(next, mode) =~= period_keys(prev, mode).insert(file_period_key(f, mode))) by {
        assert forall|k: Seq<char>| period_keys(next, mode).contains(k) implies period_keys(prev, mode).insert(file_period_key(f, mode)).contains(k) by {
            let j = choose|j: int| 0 <= j < next.len() && file_period_key(#[trigger] next[j], mode) == k;
            if j < prev.len() {
                assert(prev[j] == next[j]);
            }
        }
        assert forall|k: Seq<char>| period_keys(prev, mode).contains(k) implies period_keys(next, mode).contains(k) by {
            let j = choose|j: int| 0 <= j < prev.len() && file_period_key(#[trigger] prev[j], mode) == k;
            assert(next[j] == prev[j]);
        }
        assert(next[prev.len() as int] == f);
    }
}

/// Adds `date` to the days of `provider` (nothing for an unknown provider).
fn add_provider_day(days: &mut PeriodProviderDays, provider: Provider, date: &String)
    requires
        old(days).well_formed(),
    ensures
        final(days).well_formed(),
        forall|p: Provider| p != Provider::Unknown ==> #[trigger] days_of(*final(days), p) == (if p == provider {
            days_of(*old(days), p).insert(date@)
        } else {
            days_of(*old(days), p)
        }),
{
    match provider {
        Provider::ClaudeCode => insert_string(&mut days.claude, date),
        Provider::Codex => insert_string(&mut days.codex, date),
        Provider::Copilot => insert_string(&mut days.copilot, date),
        Provider::Gemini => insert_string(&mut days.gemini, date),
        Provider::Unknown => {},
    }
}

/// Finds where `key` belongs among the sorted periods: the first period whose key is not
/// less than `key`.
fn find_period<U>(periods: &Vec<PeriodUsage<Vec<U>>>, key: &String) -> (q: usize)
    ensures
        q <= periods@.len(),
        forall|t: int| 0 <= t < q ==> seq_less(#[trigger] periods@[t].period_key@, key@),
        q < periods@.len() ==> !seq_less(periods@[q as int].period_key@, key@),
{
    let n = periods.len();
    let mut q: usize = 0;
    while q < n && str_less(periods[q].period_key.as_str(), key.as_str())
        invariant
            n == periods@.len(),
            q <= n,
            forall|t: int| 0 <= t < q ==> seq_less(#[trigger] periods@[t].period_key@, key@),
        decreases n - q,
    {
        q = q + 1;
    }
    q
}

/// Adds a file to the period at `q`, which has the file's key.
fn add_to_period<U>(
    periods: &mut Vec<PeriodUsage<Vec<U>>>,
    q: usize,
    usage: U,
    provider: Provider,
    date: &String,
    Ghost(prev): Ghost<Seq<FileUsage<U>>>,
    Ghost(f): Ghost<FileUsage<U>>,
    mode: GroupingMode,
)
    requires
        periods_match(old(periods)@, prev, mode),
        q < old(periods)@.len(),
        old(periods)@[q as int].period_key@ == file_period_key(f, mode),
        usage == f.usage,
        provider == f.provider,
        date@ == f.date@,
    ensures
        periods_match(final(periods)@, prev.push(f), mode),
{
    let ghost old_periods = periods@;
    let ghost key = file_period_key(f, mode);
    let ghost next = prev.push(f);
    proof {
        lemma_push_step(prev, f, mode);
    }
    let mut group = periods.remove(q);
    assert(period_matches(group, prev, mode));
    group.models.push(usage);
    add_provider_day(&mut group.provider_days, provider, date);
    periods.insert(q, group);
    assert(periods@ =~= old_periods.update(q as int, group));
    assert forall|t: int| 0 <= t < periods@.len() implies period_matches(#[trigger] periods@[t], next, mode) by {
        assert(period_matches(old_periods[t], prev, mode));
        if t != q {
            assert(periods@[t] == old_periods[t]);
            assert(old_periods[t].period_key@ != key) by {
                if t < q {
                    assert(seq_less(old_periods[t].period_key@, old_periods[q as int].period_key@));
                    lemma_seq_less_irreflexive(key);
                } else {
                    assert(seq_less(old_periods[q as int].period_key@, old_periods[t].period_key@));
                    lemma_seq_less_irreflexive(key);
                }
            }
        }
        assert forall|p: Provider| p != Provider::Unknown implies #[trigger] days_of(periods@[t].provider_days, p) == dates_in(next, mode, periods@[t].period_key@, p) by {
            assert(days_of(old_periods[t].provider_days, p) == dates_in(prev, mode, old_periods[t].period_key@, p));
        }
    }
    assert forall|k: Seq<char>| #[trigger] period_keys(next, mode).contains(k) implies exists|t: int| 0 <= t < periods@.len() && #[trigger] periods@[t].period_key@ == k by {
        if k != key {
            assert(period_keys(prev, mode).contains(k));
            let t = choose|t: int| 0 <= t < old_periods.len() && #[trigger] old_periods[t].period_key@ == k;
            assert(periods@[t].period_key@ == k);
        } else {
            assert(periods@[q as int].period_key@ == k);
        }
    }
    assert forall|t: int| 0 <= t < periods@.len() implies period_keys(next, mode).contains(#[trigger] periods@[t].period_key@) by {
        assert(period_keys(prev, mode).contains(old_periods[t].period_key@));
    }
}

/// Opens a new period at `q` for a file whose key no period has yet.
fn open_period<U>(
    periods: &mut Vec<PeriodUsage<Vec<U>>>,
    q: usize,
    key: String,
    usage: U,
    provider: Provider,
    date: &String,
    Ghost(prev): Ghost<Seq<FileUsage<U>>>,
    Ghost(f): Ghost<FileUsage<U>>,
    mode: GroupingMode,
)
    requires
        periods_match(old(periods)@, prev, mode),
        q <= old(periods)@.len(),
        key@ == file_period_key(f, mode),
        forall|t: int| 0 <= t < q ==> seq_less(#[trigger] old(periods)@[t].period_key@, key@),
        q < old(periods)@.len() ==> seq_less(key@, old(periods)@[q as int].period_key@),
        usage == f.usage,
        provider == f.provider,
        date@ == f.date@,
    ensures
        periods_match(final(periods)@, prev.push(f), mode),
{
    let ghost old_periods = periods@;
    let ghost new_key = key@;
    let ghost next = prev.push(f);
    let n = periods.len();
    proof {
        lemma_push_step(prev, f, mode);
        assert forall|t: int| q <= t < n implies seq_less(new_key, #[trigger] old_periods[t].period_key@) by {
            if t > q {
                lemma_seq_less_transitive(new_key, old_periods[q as int].period_key@, old_periods[t].period_key@);
            }
        }
        assert(!period_keys(prev, mode).contains(new_key)) by {
            if period_keys(prev, mode).contains(new_key) {
                let t = choose|t: int| 0 <= t < old_periods.len() && #[trigger] old_periods[t].period_key@ == new_key;
                lemma_seq_less_irreflexive(new_key);
            }
        }
        assert forall|p: Provider| p != Provider::Unknown implies dates_in(prev, mode, new_key, p) == Set::<Seq<char>>::empty() by {
            lemma_no_dates_outside_keys(prev, mode, new_key, p);
        }
        lemma_no_usages_outside_keys(prev, mode, new_key);
    }
    let mut days = PeriodProviderDays { claude: Vec::new(), codex: Vec::new(), copilot: Vec::new(), gemini: Vec::new() };
    assert(views(days.claude@) =~= Seq::<Seq<char>>::empty());
    add_provider_day(&mut days, provider, date);
    let mut models: Vec<U> = Vec::new();
    models.push(usage);
    let group = PeriodUsage { period_key: key, models, provider_days: days };
    periods.insert(q, group);
    assert(periods@ =~= old_periods.insert(q as int, group));
    assert forall|a: int, b: int| 0 <= a < b < periods@.len() implies seq_less(#[trigger] periods@[a].period_key@, #[trigger] periods@[b].period_key@) by {
        if b < q {
        } else if b == q {
        } else if a < q {
            lemma_seq_less_transitive(periods@[a].period_key@, new_key, periods@[b].period_key@);
        } else if a == q {
        } else {
            assert(periods@[a] == old_periods[a - 1] && periods@[b] == old_periods[b - 1]);
        }
    }
    assert forall|t: int| 0 <= t < periods@.len() implies period_matches(#[trigger] periods@[t], next, mode) by {
        if t != q {
            let o = if t < q { t } else { t - 1 };
            assert(periods@[t] == old_periods[o]);
            assert(period_matches(old_periods[o], prev, mode));
            assert(period_keys(prev, mode).contains(old_periods[o].period_key@));
            assert forall|p: Provider| p != Provider::Unknown implies #[trigger] days_of(periods@[t].provider_days, p) == dates_in(next, mode, periods@[t].period_key@, p) by {
                assert(days_of(old_periods[o].provider_days, p) == dates_in(prev, mode, old_periods[o].period_key@, p));
            }
        } else {
            assert(periods@[t].models@ =~= usages_in(next, mode, new_key));
            assert forall|p: Provider| p != Provider::Unknown implies #[trigger] days_of(periods@[t].provider_days, p) == dates_in(next, mode, periods@[t].period_key@, p) by {
                assert(days_of(periods@[t].provider_days, p) =~= dates_in(next, mode, new_key, p));
            }
        }
    }
    assert forall|k: Seq<char>| #[trigger] period_keys(next, mode).contains(k) implies exists|t: int| 0 <= t < periods@.len() && #[trigger] periods@[t].period_key@ == k by {
        if k != new_key {
            assert(period_keys(prev, mode).contains(k));
            let t = choose|t: int| 0 <= t < old_periods.len() && #[trigger] old_periods[t].period_key@ == k;
            if t < q {
                assert(periods@[t].period_key@ == k);
            } else {
                assert(periods@[t + 1].period_key@ == k);
            }
        } else {
            assert(periods@[q as int].period_key@ == k);
        }
    }
    assert forall|t: int| 0 <= t < periods@.len() implies period_keys(next, mode).contains(#[trigger] periods@[t].period_key@) by {
        if t < q {
            assert(period_keys(prev, mode).contains(old_periods[t].period_key@));
        } else if t > q {
            assert(period_keys(prev, mode).contains(old_periods[t - 1].period_key@));
        }
    }
}

/// Buckets session files by period (the modification date itself, or its ISO week): each
/// period holds the usages of its files in their order and the dates on which each provider
/// was active in it. Periods come sorted by key.
pub fn group_by_period<U>(files: Vec<FileUsage<U>>, mode: GroupingMode) -> (r: GroupedUsageData<Vec<U>>)
    ensures
        r.grouping_mode == mode,
        periods_match(r.periods@, files@, mode),
{
    let ghost all = files@;
    let mut rest = files;
    let mut periods: Vec<PeriodUsage<Vec<U>>> = Vec::new();
    let ghost mut i: int = 0;
    assert(all.take(0) =~= Seq::<FileUsage<U>>::empty());
    assert(period_keys(all.take(0), mode) =~= Set::<Seq<char>>::empty());
    while rest.len() > 0
        invariant
            0 <= i <= all.len(),
            rest@ == all.skip(i),
            periods_match(periods@, all.take(i), mode),
        decreases rest@.len(),
    {
        let file = rest.remove(0);
        assert(file == all[i]);
        assert(rest@ =~= all.skip(i + 1));
        assert(all.take(i + 1) =~= all.take(i).push(file));
        let ghost f = file;
        let FileUsage { date, usage, provider } = file;
        let key = to_period_key(date.as_str(), mode);
        let q = find_period(&periods, &key);
        if q < periods.len() && str_equal(periods[q].period_key.as_str(), key.as_str()) {
            add_to_period(&mut periods, q, usage, provider, &date, Ghost(all.take(i)), Ghost(f), mode);
        } else {
            proof {
                if q < periods@.len() {
                    lemma_seq_less_total(periods@[q as int].period_key@, key@);
                }
            }
            open_period(&mut periods, q, key, usage, provider, &date, Ghost(all.take(i)), Ghost(f), mode);
        }
        proof {
            i = i + 1;
        }
    }
    assert(all.take(i) =~= all);
    GroupedUsageData { periods, grouping_mode: mode }
}

/// A key that no file has collects no usage.
proof fn lemma_no_usages_outside_keys<U>(files: Seq<FileUsage<U>>, mode: GroupingMode, key: Seq<char>)
    requires
        !period_keys(files, mode).contains(key),
    ensures
        usages_in(files, mode, key) == Seq::<U>::empty(),
    decreases files.len(),
{
    if files.len() > 0 {
        assert(!period_keys(files.drop_last(), mode).contains(key)) by {
            if period_keys(files.drop_last(), mode).contains(key) {
                let j = choose|j: int| 0 <= j < files.drop_last().len() && file_period_key(#[trigger] files.drop_last()[j], mode) == key;
                assert(files[j] == files.drop_last()[j]);
            }
        }
        lemma_no_usages_outside_keys(files.drop_last(), mode, key);
        assert(files[files.len() - 1] == files.last());
    }
}

/// A key that no file has collects no dates.
proof fn lemma_no_dates_outside_keys<U>(files: Seq<FileUsage<U>>, mode: GroupingMode, key: Seq<char>, p: Provider)
    requires
        !period_keys(files, mode).contains(key),
    ensures
        dates_in(files, mode, key, p) == Set::<Seq<char>>::empty(),
    decreases files.len(),
{
    if files.len() > 0 {
        assert(!period_keys(files.drop_last(), mode).contains(key)) by {
            if period_keys(files.drop_last(), mode).contains(key) {
                let j = choose|j: int| 0 <= j < files.drop_last().len() && file_period_key(#[trigger] files.drop_last()[j], mode) == key;
                assert(files[j] == files.drop_last()[j]);
            }
        }
        lemma_no_dates_outside_keys(files.drop_last(), mode, key, p);
        assert(files[files.len() - 1] == files.last());
    }
}

/// One model's usage as a record of an analysis lists it.
pub struct UsageEntry<'a> {
    pub model: &'a String,
    pub usage: &'a Json,
}

/// The `conversationUsage` members of one record, as (model, usage) pairs.
pub open spec fn record_usage_pairs(record: Json) -> Seq<(Seq<char>, Json)> {
    match record.get_spec("conversationUsage"@) {
        Some(Json::Object(members)) => members@.map_values(|m: JsonMember| (m.key@, m.value)),
        _ => Seq::empty(),
    }
}

/// The usage pairs of records, in order.
pub open spec fn records_usage_pairs(records: Seq<Json>) -> Seq<(Seq<char>, Json)>
    decreases records.len(),
{
    if records.len() == 0 {
        Seq::empty()
    } else {
        records_usage_pairs(records.drop_last()) + record_usage_pairs(records.last())
    }
}

/// The usage pairs of an analysis document, record by record.
pub open spec fn usage_pairs(analysis: Json) -> Seq<(Seq<char>, Json)> {
    match analysis.get_spec("records"@) {
        Some(Json::Array(records)) => records_usage_pairs(records@),
        _ => Seq::empty(),
    }
}

/// Lists the per-model token usage that the records of an analysis hold (each record's
/// `conversationUsage` object), in the order of the records and of their members; these are
/// the entries that are merged, model by model, into the usage of a session.
pub fn conversation_usage_entries<'a>(analysis: &'a Json) -> (r: Vec<UsageEntry<'a>>)
    ensures
        r@.map_values(|e: UsageEntry<'a>| (e.model@, *e.usage)) == usage_pairs(*analysis),
{
    let mut out: Vec<UsageEntry<'a>> = Vec::new();
    let records = match analysis.get("records") {
        Some(r) => match r.as_array() {
            Some(a) => a,
            None => {
                assert(out@.map_values(|e: UsageEntry<'a>| (e.model@, *e.usage)) =~= usage_pairs(*analysis));
                return out;
            },
        },
        None => {
            assert(out@.map_values(|e: UsageEntry<'a>| (e.model@, *e.usage)) =~= usage_pairs(*analysis));
            return out;
        },
    };
    let n = records.len();
    assert(records@.take(0) =~= Seq::<Json>::empty());
    for i in 0..n
        invariant
            n == records@.len(),
            out@.map_values(|e: UsageEntry<'a>| (e.model@, *e.usage)) == records_usage_pairs(records@.take(i as int)),
    {
        assert(records@.take(i + 1).drop_last() =~= records@.take(i as int));
        assert(records@.take(i + 1).last() == records@[i as int]);
        let ghost before = out@.map_values(|e: UsageEntry<'a>| (e.model@, *e.usage));
        match records[i].get("conversationUsage") {
            Some(u) => match u.as_object() {
                Some(members) => {
                    let m = members.len();
                    for j in 0..m
                        invariant
                            m == members@.len(),
                            out@.map_values(|e: UsageEntry<'a>| (e.model@, *e.usage)) == before + members@.take(j as int).map_values(
                                |mm: JsonMember| (mm.key@, mm.value),
                            ),
                    {
                        let ghost prev = out@;
                        let entry = UsageEntry { model: &members[j].key, usage: &members[j].value };
                        assert(entry.model@ == members@[j as int].key@ && *entry.usage == members@[j as int].value);
                        out.push(entry);
                        assert(out@ =~= prev.push(entry));
                        assert(out@.map_values(|e: UsageEntry<'a>| (e.model@, *e.usage)) =~= prev.map_values(
                            |e: UsageEntry<'a>| (e.model@, *e.usage)).push((members@[j as int].key@, members@[j as int].value)));
                        assert(members@.take(j + 1).map_values(|mm: JsonMember| (mm.key@, mm.value)) =~= members@.take(j as int).map_values(
                            |mm: JsonMember| (mm.key@, mm.value)).push((members@[j as int].key@, members@[j as int].value)));
                        assert(out@.map_values(|e: UsageEntry<'a>| (e.model@, *e.usage)) =~= before + members@.take(j + 1).map_values(
                            |mm: JsonMember| (mm.key@, mm.value),
                        ));
                    }
                    assert(members@.take(m as int) =~= members@);
                },
                None => {
                    assert(record_usage_pairs(records@[i as int]) =~= Seq::<(Seq<char>, Json)>::empty());
                },
            },
            None => {
                assert(record_usage_pairs(records@[i as int]) =~= Seq::<(Seq<char>, Json)>::empty());
            },
        }
        assert(out@.map_values(|e: UsageEntry<'a>| (e.model@, *e.usage)) =~= records_usage_pairs(records@.take(i + 1)));
    }
    assert(records@.take(n as int) =~= records@);
    out
}

/// The number of usages held by the periods.
pub open spec fn usage_count<U>(periods: Seq<PeriodUsage<Vec<U>>>) -> int
    decreases periods.len(),
{
    if periods.len() == 0 {
        0
    } else {
        usage_count(periods.drop_last()) + periods.last().models@.len()
    }
}

/// The number of usages that the files give for each of `keys`, added up.
pub open spec fn usages_for_keys<U>(files: Seq<FileUsage<U>>, mode: GroupingMode, keys: Seq<Seq<char>>) -> int
    decreases keys.len(),
{
    if keys.len() == 0 {
        0
    } else {
        usages_for_keys(files, mode, keys.drop_last()) + usages_in(files, mode, keys.last()).len()
    }
}

/// How often `k` occurs in `keys`.
pub open spec fn occurrences(keys: Seq<Seq<char>>, k: Seq<char>) -> int
    decreases keys.len(),
{
    if keys.len() == 0 {
        0
    } else {
        occurrences(keys.drop_last(), k) + if keys.last() == k { 1int } else { 0int }
    }
}

proof fn lemma_occurrences_once(keys: Seq<Seq<char>>, k: Seq<char>)
    requires
        keys.no_duplicates(),
        keys.contains(k),
    ensures
        occurrences(keys, k) == 1,
    decreases keys.len(),
{
    let prev = keys.drop_last();
    if keys.last() == k {
        assert(!prev.contains(k)) by {
            if prev.contains(k) {
                let j = choose|j: int| 0 <= j < prev.len() && prev[j] == k;
                assert(keys[j] == keys[keys.len() - 1]);
            }
        }
        lemma_occurrences_none(prev, k);
    } else {
        let j = choose|j: int| 0 <= j < keys.len() && keys[j] == k;
        assert(prev[j] == k);
        lemma_occurrences_once(prev, k);
    }
}

proof fn lemma_occurrences_none(keys: Seq<Seq<char>>, k: Seq<char>)
    requires
        !keys.contains(k),
    ensures
        occurrences(keys, k) == 0,
    decreases keys.len(),
{
    if keys.len() > 0 {
        assert(keys[keys.len() - 1] == keys.last());
        assert(!keys.drop_last().contains(k)) by {
            if keys.drop_last().contains(k) {
                let j = choose|j: int| 0 <= j < keys.drop_last().len() && keys.drop_last()[j] == k;
                assert(keys[j] == k);
            }
        }
        lemma_occurrences_none(keys.drop_last(), k);
    }
}

/// One more file adds one usage to the count of each occurrence of its key.
proof fn lemma_usages_for_keys_step<U>(files: Seq<FileUsage<U>>, mode: GroupingMode, keys: Seq<Seq<char>>)
    requires
        files.len() > 0,
    ensures
        usages_for_keys(files, mode, keys) == usages_for_keys(files.drop_last(), mode, keys) + occurrences(
            keys,
            file_period_key(files.last(), mode),
        ),
    decreases keys.len(),
{
    if keys.len() > 0 {
        lemma_usages_for_keys_step(files, mode, keys.drop_last());
    }
}

/// Files whose keys all occur once in `keys` give one usage per file.
proof fn lemma_usages_for_covering_keys<U>(files: Seq<FileUsage<U>>, mode: GroupingMode, keys: Seq<Seq<char>>)
    requires
        keys.no_duplicates(),
        forall|k: Seq<char>| #[trigger] period_keys(files, mode).contains(k) ==> keys.contains(k),
    ensures
        usages_for_keys(files, mode, keys) == files.len(),
    decreases files.len(),
{
    if files.len() == 0 {
        lemma_usages_for_keys_empty(files, mode, keys);
    } else {
        let prev = files.drop_last();
        assert forall|k: Seq<char>| #[trigger] period_keys(prev, mode).contains(k) implies keys.contains(k) by {
            let j = choose|j: int| 0 <= j < prev.len() && file_period_key(#[trigger] prev[j], mode) == k;
            assert(files[j] == prev[j]);
            assert(period_keys(files, mode).contains(k));
        }
        lemma_usages_for_covering_keys(prev, mode, keys);
        lemma_usages_for_keys_step(files, mode, keys);
        let k = file_period_key(files.last(), mode);
        assert(files[files.len() - 1] == files.last());
        assert(period_keys(files, mode).contains(k));
        lemma_occurrences_once(keys, k);
    }
}

proof fn lemma_usages_for_keys_empty<U>(files: Seq<FileUsage<U>>, mode: GroupingMode, keys: Seq<Seq<char>>)
    requires
        files.len() == 0,
    ensures
        usages_for_keys(files, mode, keys) == 0,
    decreases keys.len(),
{
    if keys.len() > 0 {
        lemma_usages_for_keys_empty(files, mode, keys.drop_last());
    }
}

proof fn lemma_usage_count_is_keys_count<U>(periods: Seq<PeriodUsage<Vec<U>>>, files: Seq<FileUsage<U>>, mode: GroupingMode)
    requires
        forall|i: int| 0 <= i < periods.len() ==> (#[trigger] periods[i]).models@ == usages_in(files, mode, periods[i].period_key@),
    ensures
        usage_count(periods) == usages_for_keys(files, mode, periods.map_values(|g: PeriodUsage<Vec<U>>| g.period_key@)),
    decreases periods.len(),
{
    if periods.len() > 0 {
        let prev = periods.drop_last();
        assert forall|i: int| 0 <= i < prev.len() implies (#[trigger] prev[i]).models@ == usages_in(files, mode, prev[i].period_key@) by {
            assert(prev[i] == periods[i]);
        }
        lemma_usage_count_is_keys_count(prev, files, mode);
        assert(periods.map_values(|g: PeriodUsage<Vec<U>>| g.period_key@).drop_last() =~= prev.map_values(
            |g: PeriodUsage<Vec<U>>| g.period_key@,
        ));
        assert(periods[periods.len() - 1] == periods.last());
    }
}

/// Law: grouping loses no file and counts none twice: the periods together hold one usage per
/// file.
pub proof fn lemma_every_file_in_one_period<U>(periods: Seq<PeriodUsage<Vec<U>>>, files: Seq<FileUsage<U>>, mode: GroupingMode)
    requires
        periods_match(periods, files, mode),
    ensures
        usage_count(periods) == files.len(),
{
    let keys = periods.map_values(|g: PeriodUsage<Vec<U>>| g.period_key@);
    assert forall|i: int| 0 <= i < periods.len() implies (#[trigger] periods[i]).models@ == usages_in(files, mode, periods[i].period_key@) by {
        assert(period_matches(periods[i], files, mode));
    }
    lemma_usage_count_is_keys_count(periods, files, mode);
    assert(keys.no_duplicates()) by {
        assert forall|a: int, b: int| 0 <= a < keys.len() && 0 <= b < keys.len() && a != b implies keys[a] != keys[b] by {
            if a < b {
                assert(seq_less(periods[a].period_key@, periods[b].period_key@));
                if keys[a] == keys[b] {
                    lemma_seq_less_irreflexive(keys[a]);
                }
            } else {
                assert(seq_less(periods[b].period_key@, periods[a].period_key@));
                if keys[a] == keys[b] {
                    lemma_seq_less_irreflexive(keys[a]);
                }
            }
        }
    }
    assert forall|k: Seq<char>| #[trigger] period_keys(files, mode).contains(k) implies keys.contains(k) by {
        let i = choose|i: int| 0 <= i < periods.len() && #[trigger] periods[i].period_key@ == k;
        assert(keys[i] == k);
    }
    lemma_usages_for_covering_keys(files, mode, keys);
}

/// Token totals of each provider within one period.
#[derive(Debug, Clone, Copy)]
pub struct ProviderTokens {
    pub claude: i64,
    pub codex: i64,
    pub copilot: i64,
    pub gemini: i64,
}

/// One line of the per-period provider summary: which period (by index) and provider, the
/// provider's tokens and active days in it, and whether the line shows the period's key.
#[derive(Debug, Clone, Copy, PartialEq, Eq, Structural)]
pub struct SummaryLine {
    pub period_index: usize,
    pub provider: Provider,
    pub tokens: i64,
    pub active_days: usize,
    pub show_period: bool,
}

/// The providers in the order of the summary table.
pub open spec fn summary_provider(i: int) -> Provider {
    if i == 0 {
        Provider::ClaudeCode
    } else if i == 1 {
        Provider::Codex
    } else if i == 2 {
        Provider::Copilot
    } else {
        Provider::Gemini
    }
}

/// The tokens of a provider.
pub open spec fn tokens_of(t: ProviderTokens, p: Provider) -> i64 {
    match p {
        Provider::ClaudeCode => t.claude,
        Provider::Codex => t.codex,
        Provider::Copilot => t.copilot,
        Provider::Gemini => t.gemini,
        Provider::Unknown => 0,
    }
}

/// The providers of the summary that have a line in a period: those with active days or tokens,
/// in summary order.
pub open spec fn summary_kept(days: PeriodProviderDays, tokens: ProviderTokens) -> Seq<int> {
    Seq::new(4, |j: int| j).filter(|j: int| days_count_of(days, summary_provider(j)) != 0 || tokens_of(tokens, summary_provider(j)) != 0)
}

/// The summary lines of one period: for each provider in order, a line unless the provider
/// has neither active days nor tokens; the key is shown on the first line of the period, when
/// the period's key differs from the previous period's.
pub open spec fn period_summary_lines(index: int, days: PeriodProviderDays, tokens: ProviderTokens, new_period: bool) -> Seq<SummaryLine>
{
    let kept = summary_kept(days, tokens);
    Seq::new(kept.len(), |k: int| SummaryLine {
        period_index: index as usize,
        provider: summary_provider(kept[k]),
        tokens: tokens_of(tokens, summary_provider(kept[k])),
        active_days: days_count_of(days, summary_provider(kept[k])) as usize,
        show_period: new_period && k == 0,
    })
}

/// The number of active days of a provider.
pub open spec fn days_count_of(d: PeriodProviderDays, p: Provider) -> nat {
    match p {
        Provider::ClaudeCode => d.claude@.len(),
        Provider::Codex => d.codex@.len(),
        Provider::Copilot => d.copilot@.len(),
        Provider::Gemini => d.gemini@.len(),
        Provider::Unknown => 0,
    }
}

/// The summary lines of periods, in order (`tokens[i]` holds the token totals of period `i`).
pub open spec fn summary_lines<M>(periods: Seq<PeriodUsage<M>>, tokens: Seq<ProviderTokens>) -> Seq<SummaryLine>
    decreases periods.len(),
{
    if periods.len() == 0 {
        Seq::empty()
    } else {
        let n = periods.len() - 1;
        let new_period = n == 0 || periods[n].period_key@ != periods[n - 1].period_key@;
        summary_lines(periods.drop_last(), tokens.take(n)) + period_summary_lines(n, periods[n].provider_days, tokens[n], new_period)
    }
}

fn provider_line(
    out: &mut Vec<SummaryLine>,
    index: usize,
    provider: Provider,
    tokens: i64,
    active_days: usize,
    show_period: bool,
) -> (pushed: bool)
    ensures
        pushed == !(active_days == 0 && tokens == 0),
        final(out)@ == (if pushed {
            old(out)@.push(SummaryLine { period_index: index, provider, tokens, active_days, show_period })
        } else {
            old(out)@
        }),
{
    if !(active_days == 0 && tokens == 0) {
        out.push(SummaryLine { period_index: index, provider, tokens, active_days, show_period });
        true
    } else {
        false
    }
}

/// Lays out the per-period provider summary of a grouped usage report: for each period and
/// each provider (`ClaudeCode`, `Codex`, `Copilot`, `Gemini`), a line with its tokens and active
/// days, left out where both are zero; only the first line of a period shows the period's
/// key, and only when the key is new.
pub fn grouped_provider_summary<M>(periods: &Vec<PeriodUsage<M>>, tokens: &Vec<ProviderTokens>) -> (r: Vec<SummaryLine>)
    requires
        tokens@.len() == periods@.len(),
    ensures
        r@ == summary_lines(periods@, tokens@),
{
    let mut out: Vec<SummaryLine> = Vec::new();
    let n = periods.len();
    assert(periods@.take(0) =~= Seq::<PeriodUsage<M>>::empty());
    for i in 0..n
        invariant
            n == periods@.len(),
            n == tokens@.len(),
            out@ == summary_lines(periods@.take(i as int), tokens@.take(i as int)),
    {
        let period = &periods[i];
        let new_period = i == 0 || !str_equal(period.period_key.as_str(), periods[i - 1].period_key.as_str());
        let t = tokens[i];
        let d = &period.provider_days;
        let ghost before = out@;
        let mut show = new_period;
        if provider_line(&mut out, i, Provider::ClaudeCode, t.claude, d.claude.len(), show) {
            show = false;
        }
        if provider_line(&mut out, i, Provider::Codex, t.codex, d.codex.len(), show) {
            show = false;
        }
        if provider_line(&mut out, i, Provider::Copilot, t.copilot, d.copilot.len(), show) {
            show = false;
        }
        provider_line(&mut out, i, Provider::Gemini, t.gemini, d.gemini.len(), show);
        proof {
            let next = periods@.take(i + 1);
            assert(next.drop_last() =~= periods@.take(i as int));
            assert(tokens@.take(i + 1).take(i as int) =~= tokens@.take(i as int));
            assert(next[i as int] == periods@[i as int]);
            if i > 0 {
                assert(next[i - 1] == periods@[i - 1]);
            }
            let lines = period_summary_lines(i as int, *d, t, new_period);
            let idx = Seq::new(4, |j: int| j);
            reveal_with_fuel(Seq::<_>::filter, 5);
            assert(idx.drop_last().drop_last().drop_last().drop_last() =~= Seq::<int>::empty());
            assert(idx.drop_last().drop_last().drop_last() =~= seq![0int]);
            assert(idx.drop_last().drop_last() =~= seq![0int, 1]);
            assert(idx.drop_last() =~= seq![0int, 1, 2]);
            assert(out@ =~= before + lines);
        }
    }
    assert(periods@.take(n as int) =~= periods@);
    assert(tokens@.take(n as int) =~= tokens@);
    out
}

/// A date is among the dates of `provider` in the period `key` exactly when some file of that
/// provider has that date and lies in that period.
proof fn lemma_dates_in_member<U>(files: Seq<FileUsage<U>>, mode: GroupingMode, key: Seq<char>, provider: Provider, date: Seq<char>)
    ensures
        dates_in(files, mode, key, provider).contains(date) <==> exists|i: int|
            0 <= i < files.len() && file_period_key(#[trigger] files[i], mode) == key && files[i].provider == provider
                && files[i].date@ == date,
    decreases files.len(),
{
    if files.len() > 0 {
        let prev = files.drop_last();
        lemma_dates_in_member(prev, mode, key, provider, date);
        if exists|i: int| 0 <= i < prev.len() && file_period_key(#[trigger] prev[i], mode) == key && prev[i].provider == provider && prev[i].date@ == date {
            let i = choose|i: int| 0 <= i < prev.len() && file_period_key(#[trigger] prev[i], mode) == key && prev[i].provider == provider && prev[i].date@ == date;
            assert(files[i] == prev[i]);
        }
        if exists|i: int| 0 <= i < files.len() && file_period_key(#[trigger] files[i], mode) == key && files[i].provider == provider && files[i].date@ == date {
            let i = choose|i: int| 0 <= i < files.len() && file_period_key(#[trigger] files[i], mode) == key && files[i].provider == provider && files[i].date@ == date;
            if i < prev.len() {
                assert(prev[i] == files[i]);
            } else {
                assert(files[i] == files.last());
            }
        }
    }
}

/// Some daily period falls in the week `key`.
pub open spec fn has_day_in_week<U>(daily: Seq<PeriodUsage<Vec<U>>>, key: Seq<char>) -> bool {
    exists|x: int| 0 <= x < daily.len() && period_key_spec(#[trigger] daily[x].period_key@, GroupingMode::Weekly) == key
}

/// Some period has the key `key`.
pub open spec fn has_period<U>(periods: Seq<PeriodUsage<Vec<U>>>, key: Seq<char>) -> bool {
    exists|w: int| 0 <= w < periods.len() && #[trigger] periods[w].period_key@ == key
}

proof fn lemma_weeks_of_days<U>(
    files: Seq<FileUsage<U>>,
    daily: Seq<PeriodUsage<Vec<U>>>,
    weekly: Seq<PeriodUsage<Vec<U>>>,
)
    requires
        periods_match(daily, files, GroupingMode::Daily),
        periods_match(weekly, files, GroupingMode::Weekly),
    ensures
        forall|w: int| 0 <= w < weekly.len() ==> has_day_in_week(daily, (#[trigger] weekly[w]).period_key@),
        forall|x: int| 0 <= x < daily.len() ==> has_period(weekly, period_key_spec((#[trigger] daily[x]).period_key@, GroupingMode::Weekly)),
{
    let dm = GroupingMode::Daily;
    let wm = GroupingMode::Weekly;
    assert forall|w: int| 0 <= w < weekly.len() implies has_day_in_week(daily, (#[trigger] weekly[w]).period_key@) by {
        let k = weekly[w].period_key@;
        assert(period_keys(files, wm).contains(k));
        let i = choose|i: int| 0 <= i < files.len() && file_period_key(#[trigger] files[i], wm) == k;
        assert(file_period_key(files[i], dm) == files[i].date@);
        assert(period_keys(files, dm).contains(files[i].date@));
        let x = choose|x: int| 0 <= x < daily.len() && #[trigger] daily[x].period_key@ == files[i].date@;
        assert(period_key_spec(daily[x].period_key@, wm) == k);
    }
    assert forall|x: int| 0 <= x < daily.len() implies has_period(weekly, period_key_spec((#[trigger] daily[x]).period_key@, wm)) by {
        let k = period_key_spec(daily[x].period_key@, wm);
        assert(period_keys(files, dm).contains(daily[x].period_key@));
        let i = choose|i: int| 0 <= i < files.len() && file_period_key(#[trigger] files[i], dm) == daily[x].period_key@;
        assert(file_period_key(files[i], wm) == k);
        assert(period_keys(files, wm).contains(k));
        let w = choose|w: int| 0 <= w < weekly.len() && #[trigger] weekly[w].period_key@ == k;
        assert(weekly[w].period_key@ == k);
    }
}

proof fn lemma_week_days_one<U>(
    files: Seq<FileUsage<U>>,
    daily: Seq<PeriodUsage<Vec<U>>>,
    weekly: Seq<PeriodUsage<Vec<U>>>,
    w: int,
    p: Provider,
    date: Seq<char>,
)
    requires
        periods_match(daily, files, GroupingMode::Daily),
        periods_match(weekly, files, GroupingMode::Weekly),
        0 <= w < weekly.len(),
        p != Provider::Unknown,
    ensures
        days_of(weekly[w].provider_days, p).contains(date) <==> exists|x: int|
            0 <= x < daily.len() && period_key_spec(#[trigger] daily[x].period_key@, GroupingMode::Weekly) == weekly[w].period_key@
                && days_of(daily[x].provider_days, p).contains(date),
{
    let dm = GroupingMode::Daily;
    let wm = GroupingMode::Weekly;
    let key = weekly[w].period_key@;
    assert(period_matches(weekly[w], files, wm));
    assert(days_of(weekly[w].provider_days, p) == dates_in(files, wm, key, p));
    lemma_dates_in_member(files, wm, key, p, date);
    if days_of(weekly[w].provider_days, p).contains(date) {
        let i = choose|i: int| 0 <= i < files.len() && file_period_key(#[trigger] files[i], wm) == key && files[i].provider == p && files[i].date@ == date;
        assert(file_period_key(files[i], dm) == date);
        assert(period_keys(files, dm).contains(date));
        let x = choose|x: int| 0 <= x < daily.len() && #[trigger] daily[x].period_key@ == date;
        assert(period_matches(daily[x], files, dm));
        assert(days_of(daily[x].provider_days, p) == dates_in(files, dm, date, p));
        lemma_dates_in_member(files, dm, date, p, date);
        assert(days_of(daily[x].provider_days, p).contains(date));
        assert(period_key_spec(daily[x].period_key@, wm) == key);
    }
    if exists|x: int| 0 <= x < daily.len() && period_key_spec(#[trigger] daily[x].period_key@, wm) == key && days_of(daily[x].provider_days, p).contains(date) {
        let x = choose|x: int| 0 <= x < daily.len() && period_key_spec(#[trigger] daily[x].period_key@, wm) == key && days_of(daily[x].provider_days, p).contains(date);
        assert(period_matches(daily[x], files, dm));
        assert(days_of(daily[x].provider_days, p) == dates_in(files, dm, daily[x].period_key@, p));
        lemma_dates_in_member(files, dm, daily[x].period_key@, p, date);
        let i = choose|i: int| 0 <= i < files.len() && file_period_key(#[trigger] files[i], dm) == daily[x].period_key@ && files[i].provider == p && files[i].date@ == date;
        assert(file_period_key(files[i], wm) == key);
    }
}

/// Law: grouping by ISO week is grouping by day regrouped by week. Over the same files, the
/// weekly periods are exactly the weeks of the daily periods, and each provider's active dates
/// in a week are the union of its active dates in the days of that week.
pub proof fn lemma_weekly_regroups_daily<U>(
    files: Seq<FileUsage<U>>,
    daily: Seq<PeriodUsage<Vec<U>>>,
    weekly: Seq<PeriodUsage<Vec<U>>>,
)
    requires
        periods_match(daily, files, GroupingMode::Daily),
        periods_match(weekly, files, GroupingMode::Weekly),
    ensures
        forall|w: int| 0 <= w < weekly.len() ==> has_day_in_week(daily, (#[trigger] weekly[w]).period_key@),
        forall|x: int| 0 <= x < daily.len() ==> has_period(weekly, period_key_spec((#[trigger] daily[x]).period_key@, GroupingMode::Weekly)),
        forall|w: int, p: Provider, date: Seq<char>| 0 <= w < weekly.len() && p != Provider::Unknown ==> (#[trigger] days_of(weekly[w].provider_days, p).contains(date) <==> exists|x: int|
            0 <= x < daily.len() && period_key_spec(#[trigger] daily[x].period_key@, GroupingMode::Weekly) == weekly[w].period_key@
                && days_of(daily[x].provider_days, p).contains(date)),
{
    lemma_weeks_of_days(files, daily, weekly);
    assert forall|w: int, p: Provider, date: Seq<char>| 0 <= w < weekly.len() && p != Provider::Unknown implies (#[trigger] days_of(weekly[w].provider_days, p).contains(date) <==> exists|x: int|
        0 <= x < daily.len() && period_key_spec(#[trigger] daily[x].period_key@, GroupingMode::Weekly) == weekly[w].period_key@
            && days_of(daily[x].provider_days, p).contains(date)) by {
        lemma_week_days_one(files, daily, weekly, w, p, date);
    }
}

} // verus!
