//! The workspace snapshot: every table of the store in the order a workspace view lists it,
//! the busiest tables cut to their most recent rows, and each metric series to its latest
//! points.

use vstd::prelude::*;
use crate::operational::{Budget, OperationalImportRecord, OperationalSourceStatus};
use crate::order::{chars_lt, lemma_chars_lt_le, lemma_chars_lt_total, str_lt};
use crate::records::{
    ActionRecord, Artifact, Campaign, Capability, Duplicate, ExternalJob, LedgerEvent, MetricPoint,
    ObjectProjection, ProviderProfile, Run, SemanticObject, SemanticRelation,
};
use crate::operational::campaign_model;
use crate::sorting::{ascending, descending, ranked, sort_ascending, sort_descending, sort_ranked, Ranked, SortKey};
use crate::store::{Database, StoreError};

verus! {

broadcast use vstd::string::group_string_axioms;

/// How many of the most recent ledger entries a snapshot lists.
pub const SNAPSHOT_EVENT_LIMIT: usize = 250;

/// How many of the most recently updated objects, relations and actions a snapshot lists.
pub const SNAPSHOT_RECORD_LIMIT: usize = 500;

/// How many of the most recently updated external jobs a snapshot lists.
pub const SNAPSHOT_JOB_LIMIT: usize = 250;

/// How many of the most recently updated projections a snapshot lists.
pub const SNAPSHOT_PROJECTION_LIMIT: usize = 10000;

/// How many of the most recent operational imports a snapshot lists.
pub const SNAPSHOT_IMPORT_LIMIT: usize = 250;

/// How many of the latest points of each metric series a snapshot lists.
pub const SNAPSHOT_METRIC_POINTS_PER_SERIES: usize = 600;

/// What the runtime reports of itself; the host's resources are held as their JSON text.
#[derive(Debug, Clone)]
pub struct RuntimeStatus {
    pub version: String,
    pub status: String,
    pub state_path: String,
    pub artifact_path: String,
    pub started_at: String,
    pub host_json: String,
}

/// The workspace as a view lists it.
#[derive(Debug, Clone)]
pub struct WorkspaceSnapshot {
    pub runtime: RuntimeStatus,
    pub campaigns: Vec<Campaign>,
    pub capabilities: Vec<Capability>,
    pub runs: Vec<Run>,
    pub metrics: Vec<MetricPoint>,
    pub events: Vec<LedgerEvent>,
    pub artifacts: Vec<Artifact>,
    pub budgets: Vec<Budget>,
    pub objects: Vec<SemanticObject>,
    pub relations: Vec<SemanticRelation>,
    pub actions: Vec<ActionRecord>,
    pub external_jobs: Vec<ExternalJob>,
    pub providers: Vec<ProviderProfile>,
    pub projections: Vec<ObjectProjection>,
    pub operational_imports: Vec<OperationalImportRecord>,
    pub operational_sources: Vec<OperationalSourceStatus>,
}

/// `listed` is the table's rows with the latest key first, cut at `limit` rows.
pub open spec fn newest_first<T: SortKey>(table: Seq<T>, limit: nat, listed: Seq<T>) -> bool {
    exists|all: Seq<T>|
        {
            &&& #[trigger] descending(all)
            &&& all.to_multiset() == table.to_multiset()
            &&& listed == if all.len() <= limit {
                all
            } else {
                all.take(limit as int)
            }
        }
}

/// `listed` is the table's rows by ascending key.
pub open spec fn by_key<T: SortKey>(table: Seq<T>, listed: Seq<T>) -> bool {
    ascending(listed) && listed.to_multiset() == table.to_multiset()
}

/// `listed` is the table's rows in their rank order.
pub open spec fn by_rank<T: Ranked>(table: Seq<T>, listed: Seq<T>) -> bool {
    ranked(listed) && listed.to_multiset() == table.to_multiset()
}

/// The number of points among the first `n` of the same series as `p` with a later step.
pub open spec fn later_in_series(table: Seq<MetricPoint>, p: MetricPoint, n: nat) -> nat
    decreases n,
{
    if n == 0 || n > table.len() {
        0
    } else {
        let q = table[n - 1];
        later_in_series(table, p, (n - 1) as nat) + if q.run_id@ == p.run_id@ && q.name@ == p.name@ && q.step
            > p.step {
            1nat
        } else {
            0nat
        }
    }
}

/// The points among the first `n` that are among the latest of their series.
pub open spec fn recent_points(table: Seq<MetricPoint>, n: nat) -> Seq<MetricPoint>
    decreases n,
{
    if n == 0 || n > table.len() {
        Seq::empty()
    } else {
        let earlier = recent_points(table, (n - 1) as nat);
        if later_in_series(table, table[n - 1], table.len()) < SNAPSHOT_METRIC_POINTS_PER_SERIES {
            earlier.push(table[n - 1])
        } else {
            earlier
        }
    }
}

/// The snapshot of a store with these tables, reporting `runtime`.
pub open spec fn is_snapshot(s: WorkspaceSnapshot, t: crate::store::DatabaseTables, runtime: RuntimeStatus) -> bool {
    &&& s.runtime == runtime
    &&& ranked(s.campaigns@)
    &&& s.campaigns@.map_values(|c: Campaign| campaign_model(c)).to_multiset() == t.campaigns@.map_values(
        |c: Campaign| campaign_model(c),
    ).to_multiset()
    &&& by_rank(t.capabilities@, s.capabilities@)
    &&& by_rank(t.runs@, s.runs@)
    &&& by_rank(recent_points(t.metrics@, t.metrics@.len()), s.metrics@)
    &&& newest_first(t.events@, SNAPSHOT_EVENT_LIMIT as nat, s.events@)
    &&& newest_first(t.artifacts@, t.artifacts@.len(), s.artifacts@)
    &&& by_key(t.budgets@, s.budgets@)
    &&& newest_first(t.semantic_objects@, SNAPSHOT_RECORD_LIMIT as nat, s.objects@)
    &&& newest_first(t.semantic_relations@, SNAPSHOT_RECORD_LIMIT as nat, s.relations@)
    &&& newest_first(t.actions@, SNAPSHOT_RECORD_LIMIT as nat, s.actions@)
    &&& newest_first(t.external_jobs@, SNAPSHOT_JOB_LIMIT as nat, s.external_jobs@)
    &&& by_key(t.providers@, s.providers@)
    &&& newest_first(t.projections@, SNAPSHOT_PROJECTION_LIMIT as nat, s.projections@)
    &&& newest_first(t.operational_imports@, SNAPSHOT_IMPORT_LIMIT as nat, s.operational_imports@)
    &&& by_rank(t.operational_sources@, s.operational_sources@)
}

/// Ledger entries are listed by when they happened.
impl SortKey for LedgerEvent {
    open spec fn sort_key(&self) -> Seq<char> {
        self.timestamp@
    }

    fn sort_key_exec(&self) -> (r: &String) {
        &self.timestamp
    }
}

/// Artifacts are listed by when they were made.
impl SortKey for Artifact {
    open spec fn sort_key(&self) -> Seq<char> {
        self.created_at@
    }

    fn sort_key_exec(&self) -> (r: &String) {
        &self.created_at
    }
}

/// Relations are listed by when they were stated.
impl SortKey for SemanticRelation {
    open spec fn sort_key(&self) -> Seq<char> {
        self.timestamp@
    }

    fn sort_key_exec(&self) -> (r: &String) {
        &self.timestamp
    }
}

/// Actions are listed by when they were taken.
impl SortKey for ActionRecord {
    open spec fn sort_key(&self) -> Seq<char> {
        self.timestamp@
    }

    fn sort_key_exec(&self) -> (r: &String) {
        &self.timestamp
    }
}

/// External jobs are listed by their last report.
impl SortKey for ExternalJob {
    open spec fn sort_key(&self) -> Seq<char> {
        self.updated_at@
    }

    fn sort_key_exec(&self) -> (r: &String) {
        &self.updated_at
    }
}

/// Projections are listed by their last placement.
impl SortKey for ObjectProjection {
    open spec fn sort_key(&self) -> Seq<char> {
        self.updated_at@
    }

    fn sort_key_exec(&self) -> (r: &String) {
        &self.updated_at
    }
}

/// Operational imports are listed by when they were imported.
impl SortKey for OperationalImportRecord {
    open spec fn sort_key(&self) -> Seq<char> {
        self.imported_at@
    }

    fn sort_key_exec(&self) -> (r: &String) {
        &self.imported_at
    }
}

/// Providers are listed by name.
impl SortKey for ProviderProfile {
    open spec fn sort_key(&self) -> Seq<char> {
        self.name@
    }

    fn sort_key_exec(&self) -> (r: &String) {
        &self.name
    }
}

/// Budgets are listed by name.
impl SortKey for Budget {
    open spec fn sort_key(&self) -> Seq<char> {
        self.name@
    }

    fn sort_key_exec(&self) -> (r: &String) {
        &self.name
    }
}

/// Two keys in order: the first decides, the second breaks ties.
pub open spec fn pair_before(a0: Seq<char>, a1: Seq<char>, b0: Seq<char>, b1: Seq<char>) -> bool {
    chars_lt(a0, b0) || (a0 == b0 && chars_lt(a1, b1))
}

proof fn lemma_pair_order(a0: Seq<char>, a1: Seq<char>, b0: Seq<char>, b1: Seq<char>, c0: Seq<char>, c1: Seq<char>)
    ensures
        !pair_before(a0, a1, a0, a1),
        !(pair_before(a0, a1, b0, b1) && pair_before(b0, b1, a0, a1)),
        pair_before(a0, a1, b0, b1) && !pair_before(c0, c1, b0, b1) ==> pair_before(a0, a1, c0, c1),
{
    lemma_chars_lt_total(a0, a0);
    lemma_chars_lt_total(a1, a1);
    lemma_chars_lt_total(a0, b0);
    lemma_chars_lt_total(a1, b1);
    lemma_chars_lt_total(b0, c0);
    lemma_chars_lt_total(b1, c1);
    lemma_chars_lt_total(a0, c0);
    if pair_before(a0, a1, b0, b1) && !pair_before(c0, c1, b0, b1) {
        if chars_lt(a0, b0) {
            if b0 != c0 {
                crate::order::lemma_chars_lt_transitive(a0, b0, c0);
            }
        } else if b0 != c0 {
            assert(chars_lt(b0, c0));
        } else {
            lemma_chars_lt_le(a1, b1, c1);
        }
    }
}

/// Capabilities are listed by kind, then by name.
impl Ranked for Capability {
    open spec fn ranks_before(self, other: Self) -> bool {
        pair_before(self.kind@, self.name@, other.kind@, other.name@)
    }

    proof fn lemma_rank_order(a: Self, b: Self, c: Self) {
        lemma_pair_order(a.kind@, a.name@, b.kind@, b.name@, c.kind@, c.name@);
    }

    fn ranks_before_exec(&self, other: &Self) -> (r: bool) {
        str_lt(self.kind.as_str(), other.kind.as_str()) || (self.kind == other.kind && str_lt(
            self.name.as_str(),
            other.name.as_str(),
        ))
    }
}

/// Stream statuses are listed by system, then by stream.
impl Ranked for OperationalSourceStatus {
    open spec fn ranks_before(self, other: Self) -> bool {
        pair_before(self.source_system@, self.source_stream@, other.source_system@, other.source_stream@)
    }

    proof fn lemma_rank_order(a: Self, b: Self, c: Self) {
        lemma_pair_order(
            a.source_system@,
            a.source_stream@,
            b.source_system@,
            b.source_stream@,
            c.source_system@,
            c.source_stream@,
        );
    }

    fn ranks_before_exec(&self, other: &Self) -> (r: bool) {
        str_lt(self.source_system.as_str(), other.source_system.as_str()) || (self.source_system
            == other.source_system && str_lt(self.source_stream.as_str(), other.source_stream.as_str()))
    }
}

/// Campaigns are listed by when they were created.
impl Ranked for Campaign {
    open spec fn ranks_before(self, other: Self) -> bool {
        chars_lt(self.created_at@, other.created_at@)
    }

    proof fn lemma_rank_order(a: Self, b: Self, c: Self) {
        lemma_chars_lt_total(a.created_at@, a.created_at@);
        lemma_chars_lt_total(a.created_at@, b.created_at@);
        if a.ranks_before(b) && !c.ranks_before(b) {
            lemma_chars_lt_le(a.created_at@, b.created_at@, c.created_at@);
        }
    }

    fn ranks_before_exec(&self, other: &Self) -> (r: bool) {
        str_lt(self.created_at.as_str(), other.created_at.as_str())
    }
}

/// Runs are listed most recently started first; runs that never started come last.
impl Ranked for Run {
    open spec fn ranks_before(self, other: Self) -> bool {
        match (self.started_at, other.started_at) {
            (Some(a), Some(b)) => chars_lt(b@, a@),
            (Some(_), None) => true,
            _ => false,
        }
    }

    proof fn lemma_rank_order(a: Self, b: Self, c: Self) {
        if let (Some(x), Some(y)) = (a.started_at, b.started_at) {
            lemma_chars_lt_total(x@, y@);
            lemma_chars_lt_total(x@, x@);
            if let Some(z) = c.started_at {
                lemma_chars_lt_total(z@, y@);
                if a.ranks_before(b) && !c.ranks_before(b) {
                    lemma_chars_lt_total(y@, z@);
                    if y@ != z@ {
                        crate::order::lemma_chars_lt_transitive(z@, y@, x@);
                    }
                }
            }
        }
        if let Some(x) = a.started_at {
            lemma_chars_lt_total(x@, x@);
        }
    }

    fn ranks_before_exec(&self, other: &Self) -> (r: bool) {
        match (&self.started_at, &other.started_at) {
            (Some(a), Some(b)) => str_lt(b.as_str(), a.as_str()),
            (Some(_), None) => true,
            _ => false,
        }
    }
}

/// Metric points are listed by run, then by series name, then by step.
impl Ranked for MetricPoint {
    open spec fn ranks_before(self, other: Self) -> bool {
        pair_before(self.run_id@, self.name@, other.run_id@, other.name@) || (self.run_id@ == other.run_id@
            && self.name@ == other.name@ && self.step < other.step)
    }

    proof fn lemma_rank_order(a: Self, b: Self, c: Self) {
        lemma_pair_order(a.run_id@, a.name@, b.run_id@, b.name@, c.run_id@, c.name@);
        lemma_pair_order(a.run_id@, a.name@, c.run_id@, c.name@, b.run_id@, b.name@);
        lemma_pair_order(b.run_id@, b.name@, a.run_id@, a.name@, c.run_id@, c.name@);
        lemma_pair_order(c.run_id@, c.name@, b.run_id@, b.name@, a.run_id@, a.name@);
        lemma_chars_lt_total(a.run_id@, b.run_id@);
        lemma_chars_lt_total(a.name@, b.name@);
        lemma_chars_lt_total(b.run_id@, c.run_id@);
        lemma_chars_lt_total(b.name@, c.name@);
    }

    fn ranks_before_exec(&self, other: &Self) -> (r: bool) {
        str_lt(self.run_id.as_str(), other.run_id.as_str()) || (self.run_id == other.run_id && (str_lt(
            self.name.as_str(),
            other.name.as_str(),
        ) || (self.name == other.name && self.step < other.step)))
    }
}

impl Duplicate for SemanticObject {
    fn duplicate(&self) -> (r: Self) {
        self.copy()
    }
}

impl Duplicate for Artifact {
    fn duplicate(&self) -> (r: Self) {
        self.copy()
    }
}

impl Duplicate for ExternalJob {
    fn duplicate(&self) -> (r: Self) {
        self.copy()
    }
}

impl Duplicate for ObjectProjection {
    fn duplicate(&self) -> (r: Self) {
        self.copy()
    }
}

impl Duplicate for MetricPoint {
    fn duplicate(&self) -> (r: Self) {
        self.copy()
    }
}

impl Duplicate for OperationalImportRecord {
    fn duplicate(&self) -> (r: Self) {
        self.copy()
    }
}

impl Duplicate for OperationalSourceStatus {
    fn duplicate(&self) -> (r: Self) {
        self.copy()
    }
}

/// A copy of every row.
fn copy_rows<T: Duplicate>(rows: &Vec<T>) -> (r: Vec<T>)
    ensures
        r@ == rows@,
{
    let mut out: Vec<T> = Vec::new();
    let mut k: usize = 0;
    while k < rows.len()
        invariant
            k <= rows.len(),
            out@ == rows@.take(k as int),
        decreases rows.len() - k,
    {
        out.push(rows[k].duplicate());
        proof {
            assert(out@ =~= rows@.take(k + 1));
        }
        k = k + 1;
    }
    proof {
        assert(rows@.take(rows@.len() as int) =~= rows@);
    }
    out
}

/// The rows with the latest key first, cut at `limit`.
fn newest<T: SortKey + Duplicate>(rows: &Vec<T>, limit: usize) -> (r: Vec<T>)
    ensures
        newest_first(rows@, limit as nat, r@),
{
    let mut all = sort_descending(copy_rows(rows));
    let ghost whole = all@;
    all.truncate(limit);
    proof {
        assert(all@ == if whole.len() <= limit as nat {
            whole
        } else {
            whole.take(limit as int)
        });
        assert(descending(whole));
    }
    all
}

/// The rows by ascending key.
fn oldest_first<T: SortKey + Duplicate>(rows: &Vec<T>) -> (r: Vec<T>)
    ensures
        by_key(rows@, r@),
{
    sort_ascending(copy_rows(rows))
}

/// The rows in rank order.
fn in_rank_order<T: Ranked + Duplicate>(rows: &Vec<T>) -> (r: Vec<T>)
    ensures
        by_rank(rows@, r@),
{
    sort_ranked(copy_rows(rows))
}

/// How many points of the same series as `p` have a later step.
#[verifier::loop_isolation(false)]
fn count_later(metrics: &Vec<MetricPoint>, p: &MetricPoint) -> (r: usize)
    ensures
        r == later_in_series(metrics@, *p, metrics@.len()),
{
    let mut count: usize = 0;
    let mut k: usize = 0;
    while k < metrics.len()
        invariant
            k <= metrics.len(),
            count == later_in_series(metrics@, *p, k as nat),
            count <= k,
        decreases metrics.len() - k,
    {
        let q = &metrics[k];
        if q.run_id == p.run_id && q.name == p.name && q.step > p.step {
            count = count + 1;
        }
        k = k + 1;
    }
    count
}

/// The points that are among the latest of their series, in table order.
#[verifier::loop_isolation(false)]
fn recent_metrics(metrics: &Vec<MetricPoint>) -> (r: Vec<MetricPoint>)
    ensures
        r@ == recent_points(metrics@, metrics@.len()),
{
    let mut out: Vec<MetricPoint> = Vec::new();
    let mut k: usize = 0;
    while k < metrics.len()
        invariant
            k <= metrics.len(),
            out@ == recent_points(metrics@, k as nat),
        decreases metrics.len() - k,
    {
        if count_later(metrics, &metrics[k]) < SNAPSHOT_METRIC_POINTS_PER_SERIES {
            out.push(metrics[k].copy());
        }
        k = k + 1;
    }
    out
}

/// Equal sequences of rows in any order have equal views in that order too.
proof fn lemma_models_permuted(a: Seq<Campaign>, b: Seq<Campaign>)
    requires
        a.to_multiset() == b.to_multiset(),
    ensures
        a.map_values(|c: Campaign| campaign_model(c)).to_multiset() == b.map_values(
            |c: Campaign| campaign_model(c),
        ).to_multiset(),
    decreases a.len(),
{
    broadcast use vstd::seq_lib::group_to_multiset_ensures;
    broadcast use vstd::multiset::group_multiset_axioms;

    if a.len() == 0 {
        vstd::seq_lib::to_multiset_len(b);
        assert(b.len() == 0);
        assert(a.map_values(|c: Campaign| campaign_model(c)) =~= b.map_values(|c: Campaign| campaign_model(c)));
    } else {
        let x = a.last();
        let a0 = a.drop_last();
        assert(a =~= a0.push(x));
        vstd::seq_lib::to_multiset_build(a0, x);
        assert(a.to_multiset().count(x) > 0);
        vstd::seq_lib::to_multiset_contains(b, x);
        let i = choose|i: int| 0 <= i < b.len() && b[i] == x;
        let b0 = b.remove(i);
        vstd::seq_lib::to_multiset_remove(b, i);
        assert(a0.to_multiset() =~= b0.to_multiset());
        lemma_models_permuted(a0, b0);
        let ma = a.map_values(|c: Campaign| campaign_model(c));
        let mb = b.map_values(|c: Campaign| campaign_model(c));
        assert(ma =~= a0.map_values(|c: Campaign| campaign_model(c)).push(campaign_model(x)));
        vstd::seq_lib::to_multiset_build(a0.map_values(|c: Campaign| campaign_model(c)), campaign_model(x));
        assert(mb.remove(i) =~= b0.map_values(|c: Campaign| campaign_model(c)));
        vstd::seq_lib::to_multiset_remove(mb, i);
        vstd::seq_lib::to_multiset_contains(mb, campaign_model(x));
        assert(mb.to_multiset() =~= mb.remove(i).to_multiset().insert(campaign_model(x)));
    }
}

impl Database {
    /// The workspace as a view lists it, reporting `runtime`.
    #[verifier::rlimit(40)]
    pub fn snapshot(&self, runtime: RuntimeStatus) -> (r: Result<WorkspaceSnapshot, StoreError>)
        ensures
            r matches Ok(s) && is_snapshot(s, self@.tables, runtime),
    {
        let t = self.tables();
        let mut copies: Vec<Campaign> = Vec::new();
        let mut k: usize = 0;
        while k < t.campaigns.len()
            invariant
                k <= t.campaigns.len(),
                copies@.map_values(|c: Campaign| campaign_model(c)) == t.campaigns@.take(k as int).map_values(
                    |c: Campaign| campaign_model(c),
                ),
            decreases t.campaigns.len() - k,
        {
            let ghost before = copies@;
            let c = t.campaigns[k].copy();
            copies.push(c);
            proof {
                assert(campaign_model(c) == campaign_model(t.campaigns@[k as int]));
                assert(copies@.map_values(|c: Campaign| campaign_model(c)) =~= before.map_values(
                    |c: Campaign| campaign_model(c),
                ).push(campaign_model(c)));
                assert(t.campaigns@.take(k + 1).map_values(|c: Campaign| campaign_model(c)) =~= t.campaigns@.take(
                    k as int,
                ).map_values(|c: Campaign| campaign_model(c)).push(campaign_model(t.campaigns@[k as int])));
            }
            k = k + 1;
        }
        proof {
            assert(t.campaigns@.take(t.campaigns@.len() as int) =~= t.campaigns@);
        }
        let ghost copied = copies@;
        let campaigns = sort_ranked(copies);
        proof {
            lemma_models_permuted(campaigns@, copied);
        }
        let recent = recent_metrics(&t.metrics);
        Ok(WorkspaceSnapshot {
            runtime,
            campaigns,
            capabilities: in_rank_order(&t.capabilities),
            runs: in_rank_order(&t.runs),
            metrics: in_rank_order(&recent),
            events: newest(&t.events, SNAPSHOT_EVENT_LIMIT),
            artifacts: newest(&t.artifacts, t.artifacts.len()),
            budgets: oldest_first(&t.budgets),
            objects: newest(&t.semantic_objects, SNAPSHOT_RECORD_LIMIT),
            relations: newest(&t.semantic_relations, SNAPSHOT_RECORD_LIMIT),
            actions: newest(&t.actions, SNAPSHOT_RECORD_LIMIT),
            external_jobs: newest(&t.external_jobs, SNAPSHOT_JOB_LIMIT),
            providers: oldest_first(&t.providers),
            projections: newest(&t.projections, SNAPSHOT_PROJECTION_LIMIT),
            operational_imports: newest(&t.operational_imports, SNAPSHOT_IMPORT_LIMIT),
            operational_sources: in_rank_order(&t.operational_sources),
        })
    }
}

} // verus!
