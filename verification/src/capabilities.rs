//! The capability-package registry: registered packages, the MCP discoveries frozen for them,
//! and the hash-chained history of qualification decisions about each package. A package
//! manifest, a discovery snapshot and a qualification decision are held as their JSON documents,
//! which the host parses into their own contracts; the registry reads only the identities,
//! times and digests that order and chain them.

use vstd::prelude::*;
use crate::epact::opt_text;
use crate::order::{chars_lt, lemma_chars_lt_le, lemma_chars_lt_total};
use crate::sorting::{descending, ranked, sort_descending, sort_ranked, Ranked, SortKey};
use crate::store::{Database, StoreError};

verus! {

broadcast use vstd::string::group_string_axioms;

/// A registered capability package: its content-addressed record identity, its manifest, and
/// when it was registered and last updated.
#[derive(Debug, Clone)]
pub struct RegisteredCapabilityPackage {
    pub record_id: String,
    pub package_json: String,
    pub registered_at: String,
    pub updated_at: String,
}

/// The tools an MCP server offered when it was discovered, frozen for one package.
#[derive(Debug, Clone)]
pub struct McpDiscoveryRecord {
    pub record_id: String,
    pub package_record_id: String,
    pub package_content_sha256: String,
    pub snapshot_json: String,
    pub recorded_at: String,
}

/// One qualification decision about a package, linked to the decision before it.
#[derive(Debug, Clone)]
pub struct CapabilityQualification {
    pub record_id: String,
    pub package_record_id: String,
    pub qualification_sha256: String,
    pub previous_qualification_sha256: Option<String>,
    pub qualification_json: String,
}

impl RegisteredCapabilityPackage {
    /// A copy of the record.
    pub fn copy(&self) -> (r: RegisteredCapabilityPackage)
        ensures
            r == *self,
    {
        RegisteredCapabilityPackage {
            record_id: self.record_id.clone(),
            package_json: self.package_json.clone(),
            registered_at: self.registered_at.clone(),
            updated_at: self.updated_at.clone(),
        }
    }
}

impl McpDiscoveryRecord {
    /// A copy of the record.
    pub fn copy(&self) -> (r: McpDiscoveryRecord)
        ensures
            r == *self,
    {
        McpDiscoveryRecord {
            record_id: self.record_id.clone(),
            package_record_id: self.package_record_id.clone(),
            package_content_sha256: self.package_content_sha256.clone(),
            snapshot_json: self.snapshot_json.clone(),
            recorded_at: self.recorded_at.clone(),
        }
    }
}

impl CapabilityQualification {
    /// A copy of the record.
    pub fn copy(&self) -> (r: CapabilityQualification)
        ensures
            r == *self,
    {
        CapabilityQualification {
            record_id: self.record_id.clone(),
            package_record_id: self.package_record_id.clone(),
            qualification_sha256: self.qualification_sha256.clone(),
            previous_qualification_sha256: match &self.previous_qualification_sha256 {
                Some(v) => Some(v.clone()),
                None => None,
            },
            qualification_json: self.qualification_json.clone(),
        }
    }
}

impl Ranked for RegisteredCapabilityPackage {
    /// Packages are listed most recently updated first, then by record identity.
    open spec fn ranks_before(self, other: Self) -> bool {
        chars_lt(other.updated_at@, self.updated_at@) || (self.updated_at@ == other.updated_at@
            && chars_lt(self.record_id@, other.record_id@))
    }

    proof fn lemma_rank_order(a: Self, b: Self, c: Self) {
        lemma_chars_lt_total(a.updated_at@, a.updated_at@);
        lemma_chars_lt_total(a.record_id@, a.record_id@);
        lemma_chars_lt_total(a.updated_at@, b.updated_at@);
        lemma_chars_lt_total(a.record_id@, b.record_id@);
        lemma_chars_lt_total(b.updated_at@, c.updated_at@);
        lemma_chars_lt_total(a.updated_at@, c.updated_at@);
        lemma_chars_lt_total(b.record_id@, c.record_id@);
        if a.ranks_before(b) && !c.ranks_before(b) {
            if chars_lt(b.updated_at@, a.updated_at@) {
                if b.updated_at@ != c.updated_at@ {
                    assert(chars_lt(c.updated_at@, b.updated_at@));
                    crate::order::lemma_chars_lt_transitive(c.updated_at@, b.updated_at@, a.updated_at@);
                }
            } else if b.updated_at@ != c.updated_at@ {
                assert(chars_lt(c.updated_at@, b.updated_at@));
            } else {
                lemma_chars_lt_le(a.record_id@, b.record_id@, c.record_id@);
            }
        }
    }

    fn ranks_before_exec(&self, other: &Self) -> (r: bool) {
        crate::order::str_lt(other.updated_at.as_str(), self.updated_at.as_str()) || (self.updated_at
            == other.updated_at && crate::order::str_lt(self.record_id.as_str(), other.record_id.as_str()))
    }
}

impl SortKey for McpDiscoveryRecord {
    /// Discoveries are listed by when they were recorded.
    open spec fn sort_key(&self) -> Seq<char> {
        self.recorded_at@
    }

    fn sort_key_exec(&self) -> (r: &String) {
        &self.recorded_at
    }
}

/// The discoveries of the package among the first `n`, in the order they were recorded.
pub open spec fn package_discoveries(rows: Seq<McpDiscoveryRecord>, package_record_id: Seq<char>, n: nat) -> Seq<
    McpDiscoveryRecord,
>
    decreases n,
{
    if n == 0 || n > rows.len() {
        Seq::empty()
    } else {
        let earlier = package_discoveries(rows, package_record_id, (n - 1) as nat);
        if rows[n - 1].package_record_id@ == package_record_id {
            earlier.push(rows[n - 1])
        } else {
            earlier
        }
    }
}

/// The qualifications of the package among the first `n`, in the order they were recorded.
pub open spec fn package_qualifications(
    rows: Seq<CapabilityQualification>,
    package_record_id: Seq<char>,
    n: nat,
) -> Seq<CapabilityQualification>
    decreases n,
{
    if n == 0 || n > rows.len() {
        Seq::empty()
    } else {
        let earlier = package_qualifications(rows, package_record_id, (n - 1) as nat);
        if rows[n - 1].package_record_id@ == package_record_id {
            earlier.push(rows[n - 1])
        } else {
            earlier
        }
    }
}

/// The package's qualification history, newest first.
pub open spec fn qualification_history(rows: Seq<CapabilityQualification>, package_record_id: Seq<char>) -> Seq<
    CapabilityQualification,
> {
    package_qualifications(rows, package_record_id, rows.len()).reverse()
}

/// Decision `i` of a newest-first history belongs to the package and names the decision after
/// it in the list (the one before it in time) as its predecessor; the oldest names none.
pub open spec fn chain_link(history: Seq<CapabilityQualification>, i: int, package_record_id: Seq<char>) -> bool {
    &&& history[i].package_record_id@ == package_record_id
    &&& opt_text(history[i].previous_qualification_sha256) == if i + 1 < history.len() {
        Some(history[i + 1].qualification_sha256@)
    } else {
        None::<Seq<char>>
    }
}

/// The newest-first history is one complete hash chain of the package's decisions.
pub open spec fn qualification_chain(history: Seq<CapabilityQualification>, package_record_id: Seq<char>) -> bool {
    forall|i: int| 0 <= i < history.len() ==> #[trigger] chain_link(history, i, package_record_id)
}

impl Database {
    /// The registered capability packages, most recently updated first, then by record identity.
    pub fn capability_packages(&self) -> (r: Result<Vec<RegisteredCapabilityPackage>, StoreError>)
        ensures
            r matches Ok(packages) && ranked(packages@) && packages@.to_multiset()
                == self@.tables.capability_packages@.to_multiset(),
    {
        let rows = &self.tables().capability_packages;
        let mut copies: Vec<RegisteredCapabilityPackage> = Vec::new();
        let mut k: usize = 0;
        while k < rows.len()
            invariant
                k <= rows.len(),
                copies@ == rows@.subrange(0, k as int),
            decreases rows.len() - k,
        {
            copies.push(rows[k].copy());
            assert(copies@ =~= rows@.subrange(0, k + 1));
            k = k + 1;
        }
        assert(copies@ =~= rows@);
        Ok(sort_ranked(copies))
    }

    /// The MCP discoveries frozen for the package, most recently recorded first.
    pub fn mcp_discoveries_for_package(&self, package_record_id: &str) -> (r: Result<Vec<McpDiscoveryRecord>, StoreError>)
        ensures
            r matches Ok(found) && descending(found@) && found@.to_multiset() == package_discoveries(
                self@.tables.mcp_discoveries@,
                package_record_id@,
                self@.tables.mcp_discoveries@.len(),
            ).to_multiset(),
    {
        let id = package_record_id.to_string();
        let rows = &self.tables().mcp_discoveries;
        let mut selected: Vec<McpDiscoveryRecord> = Vec::new();
        let mut k: usize = 0;
        while k < rows.len()
            invariant
                k <= rows.len(),
                selected@ == package_discoveries(rows@, id@, k as nat),
            decreases rows.len() - k,
        {
            if rows[k].package_record_id == id {
                selected.push(rows[k].copy());
            }
            k = k + 1;
        }
        Ok(sort_descending(selected))
    }

    /// The package's qualification history, newest first, once it is found to be one complete
    /// hash chain of the package's decisions.
    pub fn capability_qualifications_for_package(&self, package_record_id: &str) -> (r: Result<
        Vec<CapabilityQualification>,
        StoreError,
    >)
        ensures
            ({
                let history = qualification_history(self@.tables.capability_qualifications@, package_record_id@);
                match r {
                    Ok(records) => records@ == history && qualification_chain(history, package_record_id@),
                    Err(e) => e is Invalid && !qualification_chain(history, package_record_id@),
                }
            }),
    {
        let id = package_record_id.to_string();
        let rows = &self.tables().capability_qualifications;
        let mut selected: Vec<CapabilityQualification> = Vec::new();
        let mut k: usize = 0;
        while k < rows.len()
            invariant
                k <= rows.len(),
                selected@ == package_qualifications(rows@, id@, k as nat),
            decreases rows.len() - k,
        {
            if rows[k].package_record_id == id {
                selected.push(rows[k].copy());
            }
            k = k + 1;
        }
        let ghost oldest_first = selected@;
        let mut records: Vec<CapabilityQualification> = Vec::new();
        let mut m: usize = selected.len();
        while m > 0
            invariant
                m <= selected.len(),
                selected@ == oldest_first,
                records@ == oldest_first.subrange(m as int, oldest_first.len() as int).reverse(),
            decreases m,
        {
            m = m - 1;
            records.push(selected[m].copy());
            assert(records@ =~= oldest_first.subrange(m as int, oldest_first.len() as int).reverse());
        }
        assert(records@ =~= oldest_first.reverse());
        assert(records@ == qualification_history(self@.tables.capability_qualifications@, id@));
        let mut i: usize = 0;
        while i < records.len()
            invariant
                i <= records.len(),
                id@ == package_record_id@,
                records@ == qualification_history(self@.tables.capability_qualifications@, id@),
                forall|j: int| 0 <= j < i ==> #[trigger] chain_link(records@, j, id@),
            decreases records.len() - i,
        {
            let linked = if !(records[i].package_record_id == id) {
                false
            } else if i + 1 < records.len() {
                match &records[i].previous_qualification_sha256 {
                    Some(previous) => *previous == records[i + 1].qualification_sha256,
                    None => false,
                }
            } else {
                records[i].previous_qualification_sha256.is_none()
            };
            if !linked {
                assert(!chain_link(records@, i as int, id@));
                return Err(
                    StoreError::Invalid("capability qualification history is not a complete hash chain".to_string()),
                );
            }
            i = i + 1;
        }
        Ok(records)
    }

    /// The package's newest qualification decision, once its history is found to be one complete
    /// hash chain.
    pub fn latest_capability_qualification(&self, package_record_id: &str) -> (r: Result<
        Option<CapabilityQualification>,
        StoreError,
    >)
        ensures
            ({
                let history = qualification_history(self@.tables.capability_qualifications@, package_record_id@);
                match r {
                    Ok(found) => qualification_chain(history, package_record_id@) && found == if history.len()
                        == 0 {
                        None::<CapabilityQualification>
                    } else {
                        Some(history[0])
                    },
                    Err(e) => e is Invalid && !qualification_chain(history, package_record_id@),
                }
            }),
    {
        match self.capability_qualifications_for_package(package_record_id) {
            Ok(records) => {
                if records.len() == 0 {
                    Ok(None)
                } else {
                    Ok(Some(records[0].copy()))
                }
            },
            Err(e) => Err(e),
        }
    }
}

} // verus!
