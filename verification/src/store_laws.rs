//! Laws of the workspace store, stated over what its operations promise.

use vstd::prelude::*;
use crate::records::{ActionRecord, Artifact, Keyed, MetricPoint, SemanticObject, SemanticRelation};
use crate::search::{index_of, lemma_index_of, lemma_index_of_push};
use crate::order::lemma_chars_lt_total;
use crate::records::{ProjectInputRow, ProjectInputVersion};
use crate::sorting::{input_before, inputs_ordered, lemma_input_order};
use crate::store::{
    first_with_id, input_listing, lineage_chain, lineage_link,
    artifact_post, exchange_post, input_artifacts, keys_of, metric_keys, metric_post, row_index,
    with_object, with_row, DatabaseTables, StoreError,
};

verus! {

/// A key that occurs somewhere is found.
proof fn lemma_present_is_found<K>(keys: Seq<K>, key: K, j: int)
    requires
        0 <= j < keys.len(),
        keys[j] == key,
    ensures
        index_of(keys, key) is Some,
{
    lemma_index_of(keys, key);
}

/// Writing a row twice leaves the table as writing it once does.
pub proof fn lemma_upsert_is_idempotent<T: Keyed>(rows: Seq<T>, row: T)
    ensures
        with_row(with_row(rows, row), row) == with_row(rows, row),
{
    let key = row.key_view();
    let once = with_row(rows, row);
    lemma_index_of(keys_of(rows), key);
    match row_index(rows, key) {
        Some(i) => {
            assert(keys_of(once) =~= keys_of(rows));
            assert(once.update(i, row) =~= once);
        },
        None => {
            assert(keys_of(once) =~= keys_of(rows).push(key));
            lemma_index_of_push(keys_of(rows), key, key);
            assert(once.update(rows.len() as int, row) =~= once);
        },
    }
}

/// Recording the same semantic object twice leaves the objects as recording it once does.
pub proof fn lemma_object_write_is_idempotent(objects: Seq<SemanticObject>, object: SemanticObject)
    ensures
        with_object(with_object(objects, object), object) == with_object(objects, object),
{
    let key = object.id@;
    let once = with_object(objects, object);
    lemma_index_of(keys_of(objects), key);
    match row_index(objects, key) {
        Some(i) => {
            assert(keys_of(once) =~= keys_of(objects));
            let kept = SemanticObject { created_at: once[i].created_at, ..object };
            assert(once.update(i, kept) =~= once);
        },
        None => {
            assert(keys_of(once) =~= keys_of(objects).push(key));
            lemma_index_of_push(keys_of(objects), key, key);
            let n = objects.len() as int;
            let kept = SemanticObject { created_at: once[n].created_at, ..object };
            assert(once.update(n, kept) =~= once);
        },
    }
}

/// Writing an object keeps every identifier that was recorded and records the object's own.
pub proof fn lemma_object_write_keeps_identifiers(objects: Seq<SemanticObject>, object: SemanticObject, id: Seq<char>)
    requires
        row_index(objects, id) is Some || id == object.id@,
    ensures
        row_index(with_object(objects, object), id) is Some,
{
    let after = with_object(objects, object);
    lemma_index_of(keys_of(objects), object.id@);
    if row_index(objects, id) is Some {
        lemma_index_of(keys_of(objects), id);
        let j = row_index(objects, id).unwrap();
        assert(keys_of(after)[j] == id);
        lemma_present_is_found(keys_of(after), id, j);
    } else {
        match row_index(objects, object.id@) {
            Some(i) => {
                assert(keys_of(after)[i] == id);
                lemma_present_is_found(keys_of(after), id, i);
            },
            None => {
                let n = objects.len() as int;
                assert(keys_of(after)[n] == id);
                lemma_present_is_found(keys_of(after), id, n);
            },
        }
    }
}

/// Recording the same metric point twice leaves the store as recording it once does: the same
/// metric points, and every other table untouched.
pub proof fn lemma_metric_write_is_idempotent(
    before: DatabaseTables,
    metric: MetricPoint,
    mid: DatabaseTables,
    first: Result<(), StoreError>,
    after: DatabaseTables,
    second: Result<(), StoreError>,
)
    requires
        metric_post(before, metric, mid, first),
        metric_post(mid, metric, after, second),
    ensures
        after.metrics@ == mid.metrics@,
        after == (DatabaseTables { metrics: after.metrics, ..mid }),
        first is Ok == second is Ok,
{
    let key = (metric.run_id@, metric.name@, metric.step);
    lemma_index_of(metric_keys(before.metrics@), key);
    if row_index(before.runs@, metric.run_id@) is Some {
        match index_of(metric_keys(before.metrics@), key) {
            Some(i) => {
                assert(metric_keys(mid.metrics@) =~= metric_keys(before.metrics@));
                assert(mid.metrics@.update(i, metric) =~= mid.metrics@);
            },
            None => {
                assert(metric_keys(mid.metrics@) =~= metric_keys(before.metrics@).push(key));
                lemma_index_of_push(metric_keys(before.metrics@), key, key);
                assert(mid.metrics@.update(before.metrics@.len() as int, metric) =~= mid.metrics@);
            },
        }
        assert(after.metrics@ =~= mid.metrics@);
    }
}

/// An artifact that a project input owns never changes: recording any artifact under its
/// identifier leaves the store as it was.
pub proof fn lemma_input_artifact_is_immutable(
    before: DatabaseTables,
    artifact: Artifact,
    after: DatabaseTables,
    r: Result<(), StoreError>,
)
    requires
        artifact_post(before, artifact, after, r),
        index_of(input_artifacts(before.project_inputs@), artifact.id@) is Some,
    ensures
        after == before,
{
}

/// A research exchange is recorded whole or not at all: a refused exchange changes nothing, and
/// an accepted one holds both messages, their relation and the action.
pub proof fn lemma_exchange_is_atomic(
    before: DatabaseTables,
    user: SemanticObject,
    assistant: SemanticObject,
    relation: SemanticRelation,
    action: ActionRecord,
    after: DatabaseTables,
    r: Result<(), StoreError>,
)
    requires
        exchange_post(before, user, assistant, relation, action, after, r),
    ensures
        r is Err ==> after == before,
        r is Ok ==> {
            &&& row_index(after.semantic_objects@, user.id@) is Some
            &&& row_index(after.semantic_objects@, assistant.id@) is Some
            &&& row_index(after.semantic_relations@, relation.key_view()) is Some
            &&& row_index(after.actions@, action.key_view()) is Some
        },
{
    if r is Ok {
        let first = with_object(before.semantic_objects@, user);
        lemma_object_write_keeps_identifiers(before.semantic_objects@, user, user.id@);
        lemma_object_write_keeps_identifiers(first, assistant, user.id@);
        lemma_object_write_keeps_identifiers(first, assistant, assistant.id@);
        lemma_row_write_records_key(before.semantic_relations@, relation);
        lemma_row_write_records_key(before.actions@, action);
    }
}

/// Writing a row records its key.
proof fn lemma_row_write_records_key<T: Keyed>(rows: Seq<T>, row: T)
    ensures
        row_index(with_row(rows, row), row.key_view()) is Some,
{
    let key = row.key_view();
    let after = with_row(rows, row);
    lemma_index_of(keys_of(rows), key);
    match row_index(rows, key) {
        Some(i) => {
            assert(keys_of(after)[i] == key);
            lemma_present_is_found(keys_of(after), key, i);
        },
        None => {
            let n = rows.len() as int;
            assert(keys_of(after)[n] == key);
            lemma_present_is_found(keys_of(after), key, n);
        },
    }
}


/// Each version of the listing comes strictly before every version after it.
pub open spec fn strictly_ordered(s: Seq<ProjectInputVersion>) -> bool {
    forall|i: int, j: int| 0 <= i < j < s.len() ==> input_before(#[trigger] s[i], #[trigger] s[j])
}

/// A listing by path and version that continues every lineage has no two versions at one place.
proof fn lemma_lineage_listing_is_strict(s: Seq<ProjectInputVersion>, campaign_id: Seq<char>)
    requires
        inputs_ordered(s),
        lineage_chain(s, campaign_id),
    ensures
        strictly_ordered(s),
{
    assert forall|i: int, j: int| 0 <= i < j < s.len() implies input_before(#[trigger] s[i], #[trigger] s[j]) by {
        lemma_chars_lt_total(s[i].logical_path@, s[j].logical_path@);
        if !input_before(s[i], s[j]) {
            assert(!input_before(s[j], s[i]));
            let m = i + 1;
            assert(lineage_link(s, campaign_id, m));
            lemma_chars_lt_total(s[i].logical_path@, s[m].logical_path@);
            assert(!input_before(s[m], s[i]));
            if m < j {
                assert(!input_before(s[j], s[m]));
            }
        }
    }
}

/// A strictly ordered listing is the only ordered listing of its versions.
proof fn lemma_strict_listing_is_unique(s1: Seq<ProjectInputVersion>, s2: Seq<ProjectInputVersion>)
    requires
        s1.to_multiset() == s2.to_multiset(),
        strictly_ordered(s1),
        inputs_ordered(s2),
    ensures
        s1 == s2,
    decreases s1.len(),
{
    broadcast use vstd::seq_lib::group_to_multiset_ensures;
    if s1.len() == 0 {
        assert(s2.len() == 0);
        assert(s1 =~= s2);
    } else {
        assert(s1.to_multiset().count(s1[0]) > 0);
        assert(s2.contains(s1[0]));
        let k = choose|k: int| 0 <= k < s2.len() && s2[k] == s1[0];
        assert(s2.to_multiset().count(s2[0]) > 0);
        assert(s1.contains(s2[0]));
        let m = choose|m: int| 0 <= m < s1.len() && s1[m] == s2[0];
        if m > 0 {
            assert(input_before(s1[0], s1[m]));
            lemma_input_order(s1[0], s1[0], s1[0]);
            if k > 0 {
                assert(!input_before(s2[k], s2[0]));
            }
        }
        assert(s1[0] == s2[0]);
        let r1 = s1.remove(0);
        let r2 = s2.remove(0);
        assert(r1.to_multiset() == s1.to_multiset().remove(s1[0]));
        assert(r2.to_multiset() == s2.to_multiset().remove(s2[0]));
        assert forall|i: int, j: int| 0 <= i < j < r1.len() implies input_before(#[trigger] r1[i], #[trigger] r1[j]) by {
            assert(r1[i] == s1[i + 1] && r1[j] == s1[j + 1]);
        }
        assert forall|i: int, j: int| 0 <= i < j < r2.len() implies !input_before(#[trigger] r2[j], #[trigger] r2[i]) by {
            assert(r2[i] == s2[i + 1] && r2[j] == s2[j + 1]);
        }
        lemma_strict_listing_is_unique(r1, r2);
        assert(s1 =~= s2) by {
            assert forall|i: int| 0 <= i < s1.len() implies s1[i] == s2[i] by {
                if i > 0 {
                    assert(s1[i] == r1[i - 1] && s2[i] == r2[i - 1]);
                }
            }
        }
    }
}

/// A campaign's input listing is determined once one listing continues every lineage: every
/// listing of its versions by path and version is that one, so it too continues every lineage.
/// Hence listing a campaign's inputs and reading one of them succeed or fail together.
pub proof fn lemma_input_listing_is_determined(
    rows: Seq<ProjectInputRow>,
    campaign_id: Seq<char>,
    listed: Seq<ProjectInputVersion>,
    other: Seq<ProjectInputVersion>,
)
    requires
        input_listing(rows, campaign_id, listed),
        lineage_chain(listed, campaign_id),
        input_listing(rows, campaign_id, other),
    ensures
        other == listed,
        lineage_chain(other, campaign_id),
{
    lemma_lineage_listing_is_strict(listed, campaign_id);
    lemma_strict_listing_is_unique(listed, other);
}

/// Reading one version by its identifier finds what the campaign's listing holds first under
/// that identifier.
pub proof fn lemma_input_read_agrees_with_listing(
    rows: Seq<ProjectInputRow>,
    campaign_id: Seq<char>,
    listed: Seq<ProjectInputVersion>,
    read_from: Seq<ProjectInputVersion>,
    id: Seq<char>,
)
    requires
        input_listing(rows, campaign_id, listed),
        lineage_chain(listed, campaign_id),
        input_listing(rows, campaign_id, read_from),
    ensures
        read_from == listed,
        first_with_id(read_from, id, read_from.len()) == first_with_id(listed, id, listed.len()),
{
    lemma_input_listing_is_determined(rows, campaign_id, listed, read_from);
}

} // verus!
