//! The science, execution and standing-review workspaces of a campaign: each lists a campaign's
//! records of one kind in the order they were made. A record is held as its identity, campaign,
//! creation time and its JSON document, which the host parses into the record's own contract.

use vstd::prelude::*;
use crate::order::{chars_lt, lemma_chars_lt_le, lemma_chars_lt_total};
use crate::sorting::{ranked, sort_ranked, Ranked};
use crate::store::{Database, StoreError};

verus! {

broadcast use vstd::string::group_string_axioms;

/// Which workspace table a record belongs to.
#[derive(Clone, Copy, PartialEq, Eq, Debug, Structural)]
pub enum ScienceTable {
    ArtifactVersions,
    ArtifactAnnotations,
    ArtifactReviews,
    ArtifactDispositions,
    BatchReceipts,
    RankedTables,
    DecisionMemos,
    ExecutionPlans,
    ExecutionReceipts,
    StandingReviewReceipts,
}

/// A stored workspace record: its identity, campaign, creation time and JSON document.
#[derive(Debug, Clone)]
pub struct ScienceRecord {
    pub id: String,
    pub campaign_id: String,
    pub created_at: String,
    pub record_json: String,
}

/// A record in the table it was written to.
#[derive(Debug, Clone)]
pub struct ScienceRow {
    pub table: ScienceTable,
    pub record: ScienceRecord,
}

impl ScienceRecord {
    /// A copy of the record.
    pub fn copy(&self) -> (r: ScienceRecord)
        ensures
            r == *self,
    {
        ScienceRecord {
            id: self.id.clone(),
            campaign_id: self.campaign_id.clone(),
            created_at: self.created_at.clone(),
            record_json: self.record_json.clone(),
        }
    }
}

impl Ranked for ScienceRecord {
    /// Records are listed by creation time, then by identity.
    open spec fn ranks_before(self, other: Self) -> bool {
        chars_lt(self.created_at@, other.created_at@) || (self.created_at@ == other.created_at@
            && chars_lt(self.id@, other.id@))
    }

    proof fn lemma_rank_order(a: Self, b: Self, c: Self) {
        lemma_chars_lt_total(a.created_at@, a.created_at@);
        lemma_chars_lt_total(a.id@, a.id@);
        lemma_chars_lt_total(a.created_at@, b.created_at@);
        lemma_chars_lt_total(a.id@, b.id@);
        lemma_chars_lt_total(b.created_at@, c.created_at@);
        lemma_chars_lt_total(a.created_at@, c.created_at@);
        lemma_chars_lt_total(b.id@, c.id@);
        if a.ranks_before(b) && !c.ranks_before(b) {
            if chars_lt(a.created_at@, b.created_at@) {
                lemma_chars_lt_le(a.created_at@, b.created_at@, c.created_at@);
            } else if b.created_at@ != c.created_at@ {
                assert(chars_lt(b.created_at@, c.created_at@));
            } else {
                lemma_chars_lt_le(a.id@, b.id@, c.id@);
            }
        }
    }

    fn ranks_before_exec(&self, other: &Self) -> (r: bool) {
        crate::order::str_lt(self.created_at.as_str(), other.created_at.as_str()) || (self.created_at
            == other.created_at && crate::order::str_lt(self.id.as_str(), other.id.as_str()))
    }
}

/// The campaign's records of `table` among the first `n` rows, in the order they were written.
pub open spec fn table_records(rows: Seq<ScienceRow>, table: ScienceTable, campaign_id: Seq<char>, n: nat) -> Seq<
    ScienceRecord,
>
    decreases n,
{
    if n == 0 || n > rows.len() {
        Seq::empty()
    } else {
        let earlier = table_records(rows, table, campaign_id, (n - 1) as nat);
        let row = rows[n - 1];
        if row.table == table && row.record.campaign_id@ == campaign_id {
            earlier.push(row.record)
        } else {
            earlier
        }
    }
}

/// `listed` holds exactly the campaign's records of `table`, by creation time, then identity.
pub open spec fn record_listing(rows: Seq<ScienceRow>, table: ScienceTable, campaign_id: Seq<char>, listed: Seq<
    ScienceRecord,
>) -> bool {
    &&& ranked(listed)
    &&& listed.to_multiset() == table_records(rows, table, campaign_id, rows.len()).to_multiset()
}

/// The campaign's records of `table`, by creation time, then identity.
fn list_records(rows: &Vec<ScienceRow>, table: ScienceTable, campaign_id: &String) -> (r: Vec<ScienceRecord>)
    ensures
        record_listing(rows@, table, campaign_id@, r@),
{
    let mut selected: Vec<ScienceRecord> = Vec::new();
    let mut k: usize = 0;
    while k < rows.len()
        invariant
            k <= rows.len(),
            selected@ == table_records(rows@, table, campaign_id@, k as nat),
        decreases rows.len() - k,
    {
        if rows[k].table == table && rows[k].record.campaign_id == *campaign_id {
            selected.push(rows[k].record.copy());
        }
        k = k + 1;
    }
    sort_ranked(selected)
}

/// A campaign's standing-review receipts, oldest first, and the latest of them.
#[derive(Debug, Clone)]
pub struct StandingReviewWorkspace {
    pub latest: Option<ScienceRecord>,
    pub history: Vec<ScienceRecord>,
}

/// A campaign's artifact versions, annotations, reviews, dispositions, batch receipts, ranked
/// tables and decision memos, each oldest first.
#[derive(Debug, Clone)]
pub struct ScienceArtifactWorkspace {
    pub versions: Vec<ScienceRecord>,
    pub annotations: Vec<ScienceRecord>,
    pub reviews: Vec<ScienceRecord>,
    pub dispositions: Vec<ScienceRecord>,
    pub batches: Vec<ScienceRecord>,
    pub ranked_tables: Vec<ScienceRecord>,
    pub decision_memos: Vec<ScienceRecord>,
}

/// A campaign's execution plans and receipts, each oldest first.
#[derive(Debug, Clone)]
pub struct ExecutionWorkspace {
    pub plans: Vec<ScienceRecord>,
    pub receipts: Vec<ScienceRecord>,
}

impl Database {
    /// The campaign's standing-review receipts, oldest first, with the latest of them.
    pub fn standing_review_workspace(&self, campaign_id: &str) -> (r: Result<StandingReviewWorkspace, StoreError>)
        ensures
            r matches Ok(w) && record_listing(
                self@.tables.science_records@,
                ScienceTable::StandingReviewReceipts,
                campaign_id@,
                w.history@,
            ) && w.latest == (if w.history@.len() == 0 {
                None
            } else {
                Some(w.history@.last())
            }),
    {
        let id = campaign_id.to_string();
        let history = list_records(&self.tables().science_records, ScienceTable::StandingReviewReceipts, &id);
        let latest = if history.len() == 0 {
            None
        } else {
            Some(history[history.len() - 1].copy())
        };
        Ok(StandingReviewWorkspace { latest, history })
    }

    /// The campaign's science artifact records, each kind oldest first.
    pub fn science_artifact_workspace(&self, campaign_id: &str) -> (r: Result<ScienceArtifactWorkspace, StoreError>)
        ensures
            r matches Ok(w) && ({
                let rows = self@.tables.science_records@;
                let c = campaign_id@;
                &&& record_listing(rows, ScienceTable::ArtifactVersions, c, w.versions@)
                &&& record_listing(rows, ScienceTable::ArtifactAnnotations, c, w.annotations@)
                &&& record_listing(rows, ScienceTable::ArtifactReviews, c, w.reviews@)
                &&& record_listing(rows, ScienceTable::ArtifactDispositions, c, w.dispositions@)
                &&& record_listing(rows, ScienceTable::BatchReceipts, c, w.batches@)
                &&& record_listing(rows, ScienceTable::RankedTables, c, w.ranked_tables@)
                &&& record_listing(rows, ScienceTable::DecisionMemos, c, w.decision_memos@)
            }),
    {
        let id = campaign_id.to_string();
        let rows = &self.tables().science_records;
        Ok(
            ScienceArtifactWorkspace {
                versions: list_records(rows, ScienceTable::ArtifactVersions, &id),
                annotations: list_records(rows, ScienceTable::ArtifactAnnotations, &id),
                reviews: list_records(rows, ScienceTable::ArtifactReviews, &id),
                dispositions: list_records(rows, ScienceTable::ArtifactDispositions, &id),
                batches: list_records(rows, ScienceTable::BatchReceipts, &id),
                ranked_tables: list_records(rows, ScienceTable::RankedTables, &id),
                decision_memos: list_records(rows, ScienceTable::DecisionMemos, &id),
            },
        )
    }

    /// The campaign's execution plans and receipts, each oldest first.
    pub fn execution_workspace(&self, campaign_id: &str) -> (r: Result<ExecutionWorkspace, StoreError>)
        ensures
            r matches Ok(w) && record_listing(
                self@.tables.science_records@,
                ScienceTable::ExecutionPlans,
                campaign_id@,
                w.plans@,
            ) && record_listing(
                self@.tables.science_records@,
                ScienceTable::ExecutionReceipts,
                campaign_id@,
                w.receipts@,
            ),
    {
        let id = campaign_id.to_string();
        let rows = &self.tables().science_records;
        Ok(
            ExecutionWorkspace {
                plans: list_records(rows, ScienceTable::ExecutionPlans, &id),
                receipts: list_records(rows, ScienceTable::ExecutionReceipts, &id),
            },
        )
    }
}

} // verus!
