//! Listings ordered by a text key, as stable insertion sorts.

use vstd::prelude::*;
use crate::order::{chars_lt, lemma_chars_lt_le, lemma_chars_lt_total};
use crate::records::{MetricPoint, ProjectInputVersion};

verus! {

broadcast use vstd::seq_lib::group_to_multiset_ensures, vstd::multiset::group_multiset_axioms;

/// The text a listing of these rows is ordered by.
pub trait SortKey {
    spec fn sort_key(&self) -> Seq<char>;

    fn sort_key_exec(&self) -> (r: &String)
        ensures
            r@ == self.sort_key(),
    ;
}

/// Every row's key comes no later than the keys of the rows after it.
pub open spec fn ascending<T: SortKey>(s: Seq<T>) -> bool {
    forall|i: int, j: int| 0 <= i < j < s.len() ==> !chars_lt(#[trigger] s[j].sort_key(), #[trigger] s[i].sort_key())
}

/// Every row's key comes no earlier than the keys of the rows after it.
pub open spec fn descending<T: SortKey>(s: Seq<T>) -> bool {
    forall|i: int, j: int| 0 <= i < j < s.len() ==> !chars_lt(#[trigger] s[i].sort_key(), #[trigger] s[j].sort_key())
}

/// The rows ordered by ascending key.
pub fn sort_ascending<T: SortKey>(rows: Vec<T>) -> (r: Vec<T>)
    ensures
        ascending(r@),
        r@.to_multiset() == rows@.to_multiset(),
{
    let ghost original = rows@;
    let mut rest = rows;
    let mut out: Vec<T> = Vec::new();
    while rest.len() > 0
        invariant
            ascending(out@),
            out@.to_multiset().add(rest@.to_multiset()) == original.to_multiset(),
        decreases rest.len(),
    {
        let ghost before_rest = rest@;
        let x = rest.pop().unwrap();
        proof {
            assert(before_rest =~= rest@.push(x));
        }
        let key = x.sort_key_exec().clone();
        let n = out.len();
        let mut p: usize = 0;
        while p < n
            invariant_except_break
                n == out.len(),
                p <= n,
                forall|k: int| 0 <= k < p ==> !chars_lt(key@, #[trigger] out@[k].sort_key()),
            ensures
                p <= n,
                forall|k: int| 0 <= k < p ==> !chars_lt(key@, #[trigger] out@[k].sort_key()),
                p < n ==> chars_lt(key@, out@[p as int].sort_key()),
            decreases n - p,
        {
            if crate::order::str_lt(key.as_str(), out[p].sort_key_exec().as_str()) {
                break;
            }
            p = p + 1;
        }
        let ghost before = out@;
        out.insert(p, x);
        proof {
            let after = out@;
            assert(after =~= before.insert(p as int, x));
            assert forall|i: int, j: int| 0 <= i < j < after.len() implies !chars_lt(
                #[trigger] after[j].sort_key(),
                #[trigger] after[i].sort_key(),
            ) by {
                if j < p {
                    assert(after[i] == before[i] && after[j] == before[j]);
                } else if j == p {
                    assert(after[i] == before[i]);
                    lemma_chars_lt_total(key@, before[i].sort_key());
                } else if i < p {
                    assert(after[i] == before[i] && after[j] == before[j - 1]);
                } else if i == p {
                    assert(after[j] == before[j - 1]);
                    let q = p as int;
                    if q < j - 1 {
                        assert(!chars_lt(before[j - 1].sort_key(), before[q].sort_key()));
                    } else {
                        lemma_chars_lt_total(before[q].sort_key(), before[q].sort_key());
                    }
                    lemma_chars_lt_le(key@, before[q].sort_key(), before[j - 1].sort_key());
                    lemma_chars_lt_total(key@, before[j - 1].sort_key());
                } else {
                    assert(after[i] == before[i - 1] && after[j] == before[j - 1]);
                }
            }
            assert(after.to_multiset() == before.to_multiset().insert(x));
            assert(before_rest.to_multiset() == rest@.to_multiset().insert(x));
        }
    }
    proof {
        assert(rest@.to_multiset() =~= vstd::multiset::Multiset::empty());
    }
    out
}

/// The rows ordered by descending key.
pub fn sort_descending<T: SortKey>(rows: Vec<T>) -> (r: Vec<T>)
    ensures
        descending(r@),
        r@.to_multiset() == rows@.to_multiset(),
{
    let ghost original = rows@;
    let mut rest = rows;
    let mut out: Vec<T> = Vec::new();
    while rest.len() > 0
        invariant
            descending(out@),
            out@.to_multiset().add(rest@.to_multiset()) == original.to_multiset(),
        decreases rest.len(),
    {
        let ghost before_rest = rest@;
        let x = rest.pop().unwrap();
        proof {
            assert(before_rest =~= rest@.push(x));
        }
        let key = x.sort_key_exec().clone();
        let n = out.len();
        let mut p: usize = 0;
        while p < n
            invariant_except_break
                n == out.len(),
                p <= n,
                forall|k: int| 0 <= k < p ==> !chars_lt(#[trigger] out@[k].sort_key(), key@),
            ensures
                p <= n,
                forall|k: int| 0 <= k < p ==> !chars_lt(#[trigger] out@[k].sort_key(), key@),
                p < n ==> chars_lt(out@[p as int].sort_key(), key@),
            decreases n - p,
        {
            if crate::order::str_lt(out[p].sort_key_exec().as_str(), key.as_str()) {
                break;
            }
            p = p + 1;
        }
        let ghost before = out@;
        out.insert(p, x);
        proof {
            let after = out@;
            assert(after =~= before.insert(p as int, x));
            assert forall|i: int, j: int| 0 <= i < j < after.len() implies !chars_lt(
                #[trigger] after[i].sort_key(),
                #[trigger] after[j].sort_key(),
            ) by {
                if j < p {
                    assert(after[i] == before[i] && after[j] == before[j]);
                } else if j == p {
                    assert(after[i] == before[i]);
                    lemma_chars_lt_total(key@, before[i].sort_key());
                } else if i < p {
                    assert(after[i] == before[i] && after[j] == before[j - 1]);
                } else if i == p {
                    assert(after[j] == before[j - 1]);
                    let q = p as int;
                    if q < j - 1 {
                        assert(!chars_lt(before[q].sort_key(), before[j - 1].sort_key()));
                    } else {
                        lemma_chars_lt_total(before[q].sort_key(), before[q].sort_key());
                    }
                    lemma_chars_le_descending(before[j - 1].sort_key(), before[q].sort_key(), key@);
                } else {
                    assert(after[i] == before[i - 1] && after[j] == before[j - 1]);
                }
            }
            assert(after.to_multiset() == before.to_multiset().insert(x));
            assert(before_rest.to_multiset() == rest@.to_multiset().insert(x));
        }
    }
    proof {
        assert(rest@.to_multiset() =~= vstd::multiset::Multiset::empty());
    }
    out
}

/// From `a <= b` and `b < c`: `c` does not come before `a`.
proof fn lemma_chars_le_descending(a: Seq<char>, b: Seq<char>, c: Seq<char>)
    requires
        !chars_lt(b, a),
        chars_lt(b, c),
    ensures
        !chars_lt(c, a),
{
    lemma_chars_lt_total(a, b);
    lemma_chars_lt_total(b, c);
    lemma_chars_lt_total(a, c);
    if a != b {
        crate::order::lemma_chars_lt_transitive(a, b, c);
    }
}


/// Metric points are listed by step, then by name.
pub open spec fn metric_before(a: MetricPoint, b: MetricPoint) -> bool {
    a.step < b.step || (a.step == b.step && chars_lt(a.name@, b.name@))
}

/// No point comes before one listed ahead of it.
pub open spec fn metrics_ordered(s: Seq<MetricPoint>) -> bool {
    forall|i: int, j: int| 0 <= i < j < s.len() ==> !metric_before(#[trigger] s[j], #[trigger] s[i])
}

proof fn lemma_metric_order(a: MetricPoint, b: MetricPoint, c: MetricPoint)
    ensures
        !metric_before(a, a),
        !(metric_before(a, b) && metric_before(b, a)),
        metric_before(a, b) && !metric_before(c, b) ==> metric_before(a, c),
{
    lemma_chars_lt_total(a.name@, a.name@);
    lemma_chars_lt_total(a.name@, b.name@);
    lemma_chars_lt_total(b.name@, c.name@);
    if metric_before(a, b) && !metric_before(c, b) {
        if a.step == b.step && b.step == c.step {
            lemma_chars_lt_le(a.name@, b.name@, c.name@);
        }
    }
}

/// The points ordered by step, then by name.
pub fn sort_metrics(points: Vec<MetricPoint>) -> (r: Vec<MetricPoint>)
    ensures
        metrics_ordered(r@),
        r@.to_multiset() == points@.to_multiset(),
{
    let ghost original = points@;
    let mut rest = points;
    let mut out: Vec<MetricPoint> = Vec::new();
    while rest.len() > 0
        invariant
            metrics_ordered(out@),
            out@.to_multiset().add(rest@.to_multiset()) == original.to_multiset(),
        decreases rest.len(),
    {
        let ghost before_rest = rest@;
        let x = rest.pop().unwrap();
        proof {
            assert(before_rest =~= rest@.push(x));
        }
        let n = out.len();
        let mut p: usize = 0;
        while p < n
            invariant_except_break
                n == out.len(),
                p <= n,
                forall|k: int| 0 <= k < p ==> !metric_before(x, #[trigger] out@[k]),
            ensures
                p <= n,
                forall|k: int| 0 <= k < p ==> !metric_before(x, #[trigger] out@[k]),
                p < n ==> metric_before(x, out@[p as int]),
            decreases n - p,
        {
            let earlier = x.step < out[p].step || (x.step == out[p].step && crate::order::str_lt(
                x.name.as_str(),
                out[p].name.as_str(),
            ));
            if earlier {
                break;
            }
            p = p + 1;
        }
        let ghost before = out@;
        out.insert(p, x);
        proof {
            let after = out@;
            assert(after =~= before.insert(p as int, x));
            assert forall|i: int, j: int| 0 <= i < j < after.len() implies !metric_before(
                #[trigger] after[j],
                #[trigger] after[i],
            ) by {
                if j < p {
                    assert(after[i] == before[i] && after[j] == before[j]);
                } else if j == p {
                    assert(after[i] == before[i]);
                } else if i < p {
                    assert(after[i] == before[i] && after[j] == before[j - 1]);
                } else if i == p {
                    assert(after[j] == before[j - 1]);
                    let q = p as int;
                    if q < j - 1 {
                        assert(!metric_before(before[j - 1], before[q]));
                    } else {
                        lemma_metric_order(before[q], before[q], before[q]);
                    }
                    lemma_metric_order(x, before[q], before[j - 1]);
                    lemma_metric_order(x, before[j - 1], x);
                } else {
                    assert(after[i] == before[i - 1] && after[j] == before[j - 1]);
                }
            }
            assert(after.to_multiset() == before.to_multiset().insert(x));
            assert(before_rest.to_multiset() == rest@.to_multiset().insert(x));
        }
    }
    proof {
        assert(rest@.to_multiset() =~= vstd::multiset::Multiset::empty());
    }
    out
}

/// Project input versions are listed by logical path, then by version.
pub open spec fn input_before(a: ProjectInputVersion, b: ProjectInputVersion) -> bool {
    chars_lt(a.logical_path@, b.logical_path@) || (a.logical_path@ == b.logical_path@ && a.version < b.version)
}

/// No version comes before one listed ahead of it.
pub open spec fn inputs_ordered(s: Seq<ProjectInputVersion>) -> bool {
    forall|i: int, j: int| 0 <= i < j < s.len() ==> !input_before(#[trigger] s[j], #[trigger] s[i])
}

pub proof fn lemma_input_order(a: ProjectInputVersion, b: ProjectInputVersion, c: ProjectInputVersion)
    ensures
        !input_before(a, a),
        !(input_before(a, b) && input_before(b, a)),
        input_before(a, b) && !input_before(c, b) ==> input_before(a, c),
{
    lemma_chars_lt_total(a.logical_path@, a.logical_path@);
    lemma_chars_lt_total(a.logical_path@, b.logical_path@);
    lemma_chars_lt_total(b.logical_path@, c.logical_path@);
    lemma_chars_lt_total(a.logical_path@, c.logical_path@);
    if input_before(a, b) && !input_before(c, b) {
        if chars_lt(a.logical_path@, b.logical_path@) {
            lemma_chars_lt_le(a.logical_path@, b.logical_path@, c.logical_path@);
        } else if b.logical_path@ != c.logical_path@ {
            assert(chars_lt(b.logical_path@, c.logical_path@));
        }
    }
}

/// The versions ordered by logical path, then by version.
pub fn sort_inputs(records: Vec<ProjectInputVersion>) -> (r: Vec<ProjectInputVersion>)
    ensures
        inputs_ordered(r@),
        r@.to_multiset() == records@.to_multiset(),
{
    let ghost original = records@;
    let mut rest = records;
    let mut out: Vec<ProjectInputVersion> = Vec::new();
    while rest.len() > 0
        invariant
            inputs_ordered(out@),
            out@.to_multiset().add(rest@.to_multiset()) == original.to_multiset(),
        decreases rest.len(),
    {
        let ghost before_rest = rest@;
        let x = rest.pop().unwrap();
        proof {
            assert(before_rest =~= rest@.push(x));
        }
        let n = out.len();
        let mut p: usize = 0;
        while p < n
            invariant_except_break
                n == out.len(),
                p <= n,
                forall|k: int| 0 <= k < p ==> !input_before(x, #[trigger] out@[k]),
            ensures
                p <= n,
                forall|k: int| 0 <= k < p ==> !input_before(x, #[trigger] out@[k]),
                p < n ==> input_before(x, out@[p as int]),
            decreases n - p,
        {
            let earlier = crate::order::str_lt(x.logical_path.as_str(), out[p].logical_path.as_str()) || (
            x.logical_path == out[p].logical_path && x.version < out[p].version);
            if earlier {
                break;
            }
            p = p + 1;
        }
        let ghost before = out@;
        out.insert(p, x);
        proof {
            let after = out@;
            assert(after =~= before.insert(p as int, x));
            assert forall|i: int, j: int| 0 <= i < j < after.len() implies !input_before(
                #[trigger] after[j],
                #[trigger] after[i],
            ) by {
                if j < p {
                    assert(after[i] == before[i] && after[j] == before[j]);
                } else if j == p {
                    assert(after[i] == before[i]);
                } else if i < p {
                    assert(after[i] == before[i] && after[j] == before[j - 1]);
                } else if i == p {
                    assert(after[j] == before[j - 1]);
                    let q = p as int;
                    if q < j - 1 {
                        assert(!input_before(before[j - 1], before[q]));
                    } else {
                        lemma_input_order(before[q], before[q], before[q]);
                    }
                    lemma_input_order(x, before[q], before[j - 1]);
                    lemma_input_order(x, before[j - 1], x);
                } else {
                    assert(after[i] == before[i - 1] && after[j] == before[j - 1]);
                }
            }
            assert(after.to_multiset() == before.to_multiset().insert(x));
            assert(before_rest.to_multiset() == rest@.to_multiset().insert(x));
        }
    }
    proof {
        assert(rest@.to_multiset() =~= vstd::multiset::Multiset::empty());
    }
    out
}


/// Permit rows, each as the time it last changed, its token and its place, are listed by time,
/// then by token.
pub open spec fn permit_row_before(a: (String, String, usize), b: (String, String, usize)) -> bool {
    chars_lt(a.0@, b.0@) || (a.0@ == b.0@ && chars_lt(a.1@, b.1@))
}

/// No row comes before one listed ahead of it.
pub open spec fn permit_rows_ordered(s: Seq<(String, String, usize)>) -> bool {
    forall|i: int, j: int| 0 <= i < j < s.len() ==> !permit_row_before(#[trigger] s[j], #[trigger] s[i])
}

proof fn lemma_permit_row_order(
    a: (String, String, usize),
    b: (String, String, usize),
    c: (String, String, usize),
)
    ensures
        !permit_row_before(a, a),
        !(permit_row_before(a, b) && permit_row_before(b, a)),
        permit_row_before(a, b) && !permit_row_before(c, b) ==> permit_row_before(a, c),
{
    lemma_chars_lt_total(b.1@, a.1@);
    lemma_chars_lt_total(a.1@, b.1@);
    lemma_chars_lt_total(a.0@, a.0@);
    lemma_chars_lt_total(a.1@, a.1@);
    lemma_chars_lt_total(a.0@, b.0@);
    lemma_chars_lt_total(b.0@, c.0@);
    lemma_chars_lt_total(a.0@, c.0@);
    lemma_chars_lt_total(b.1@, c.1@);
    if permit_row_before(a, b) && !permit_row_before(c, b) {
        if chars_lt(a.0@, b.0@) {
            lemma_chars_lt_le(a.0@, b.0@, c.0@);
        } else if b.0@ != c.0@ {
            assert(chars_lt(b.0@, c.0@));
        } else {
            lemma_chars_lt_le(a.1@, b.1@, c.1@);
        }
    }
}

/// The rows ordered by the time they last changed, then by token.
pub fn sort_permit_rows(rows: Vec<(String, String, usize)>) -> (r: Vec<(String, String, usize)>)
    ensures
        permit_rows_ordered(r@),
        r@.to_multiset() == rows@.to_multiset(),
{
    let ghost original = rows@;
    let mut rest = rows;
    let mut out: Vec<(String, String, usize)> = Vec::new();
    while rest.len() > 0
        invariant
            permit_rows_ordered(out@),
            out@.to_multiset().add(rest@.to_multiset()) == original.to_multiset(),
        decreases rest.len(),
    {
        let ghost before_rest = rest@;
        let x = rest.pop().unwrap();
        proof {
            assert(before_rest =~= rest@.push(x));
        }
        let n = out.len();
        let mut p: usize = 0;
        while p < n
            invariant_except_break
                n == out.len(),
                p <= n,
                forall|k: int| 0 <= k < p ==> !permit_row_before(x, #[trigger] out@[k]),
            ensures
                p <= n,
                forall|k: int| 0 <= k < p ==> !permit_row_before(x, #[trigger] out@[k]),
                p < n ==> permit_row_before(x, out@[p as int]),
            decreases n - p,
        {
            let earlier = crate::order::str_lt(x.0.as_str(), out[p].0.as_str()) || (x.0 == out[p].0
                && crate::order::str_lt(x.1.as_str(), out[p].1.as_str()));
            if earlier {
                break;
            }
            p = p + 1;
        }
        let ghost before = out@;
        out.insert(p, x);
        proof {
            let after = out@;
            assert(after =~= before.insert(p as int, x));
            assert forall|i: int, j: int| 0 <= i < j < after.len() implies !permit_row_before(
                #[trigger] after[j],
                #[trigger] after[i],
            ) by {
                if j < p {
                    assert(after[i] == before[i] && after[j] == before[j]);
                } else if j == p {
                    assert(after[i] == before[i]);
                } else if i < p {
                    assert(after[i] == before[i] && after[j] == before[j - 1]);
                } else if i == p {
                    assert(after[j] == before[j - 1]);
                    let q = p as int;
                    if q < j - 1 {
                        assert(!permit_row_before(before[j - 1], before[q]));
                    } else {
                        lemma_permit_row_order(before[q], before[q], before[q]);
                    }
                    lemma_permit_row_order(x, before[q], before[j - 1]);
                    lemma_permit_row_order(x, before[j - 1], x);
                } else {
                    assert(after[i] == before[i - 1] && after[j] == before[j - 1]);
                }
            }
            assert(after.to_multiset() == before.to_multiset().insert(x));
            assert(before_rest.to_multiset() == rest@.to_multiset().insert(x));
        }
    }
    proof {
        assert(rest@.to_multiset() =~= vstd::multiset::Multiset::empty());
    }
    out
}


/// Rows that carry a strict order of their own.
pub trait Ranked: Sized {
    /// Whether this row is listed ahead of `other`.
    spec fn ranks_before(self, other: Self) -> bool;

    /// The order is irreflexive and asymmetric, and a row ahead of `b` is ahead of every row
    /// that `b` is not behind.
    proof fn lemma_rank_order(a: Self, b: Self, c: Self)
        ensures
            !a.ranks_before(a),
            !(a.ranks_before(b) && b.ranks_before(a)),
            a.ranks_before(b) && !c.ranks_before(b) ==> a.ranks_before(c),
    ;

    fn ranks_before_exec(&self, other: &Self) -> (r: bool)
        ensures
            r == self.ranks_before(*other),
    ;
}

/// No row is ranked ahead of one listed before it.
pub open spec fn ranked<T: Ranked>(s: Seq<T>) -> bool {
    forall|i: int, j: int| 0 <= i < j < s.len() ==> !(#[trigger] s[j]).ranks_before(#[trigger] s[i])
}

/// The rows in their order.
pub fn sort_ranked<T: Ranked>(rows: Vec<T>) -> (r: Vec<T>)
    ensures
        ranked(r@),
        r@.to_multiset() == rows@.to_multiset(),
{
    let ghost original = rows@;
    let mut rest = rows;
    let mut out: Vec<T> = Vec::new();
    while rest.len() > 0
        invariant
            ranked(out@),
            out@.to_multiset().add(rest@.to_multiset()) == original.to_multiset(),
        decreases rest.len(),
    {
        let ghost before_rest = rest@;
        let x = rest.pop().unwrap();
        proof {
            assert(before_rest =~= rest@.push(x));
        }
        let n = out.len();
        let mut p: usize = 0;
        while p < n
            invariant_except_break
                n == out.len(),
                p <= n,
                forall|k: int| 0 <= k < p ==> !x.ranks_before(#[trigger] out@[k]),
            ensures
                p <= n,
                forall|k: int| 0 <= k < p ==> !x.ranks_before(#[trigger] out@[k]),
                p < n ==> x.ranks_before(out@[p as int]),
            decreases n - p,
        {
            if x.ranks_before_exec(&out[p]) {
                break;
            }
            p = p + 1;
        }
        let ghost before = out@;
        out.insert(p, x);
        proof {
            let after = out@;
            assert(after =~= before.insert(p as int, x));
            assert forall|i: int, j: int| 0 <= i < j < after.len() implies !(#[trigger] after[j]).ranks_before(
                #[trigger] after[i],
            ) by {
                if j < p {
                    assert(after[i] == before[i] && after[j] == before[j]);
                } else if j == p {
                    assert(after[i] == before[i]);
                } else if i < p {
                    assert(after[i] == before[i] && after[j] == before[j - 1]);
                } else if i == p {
                    assert(after[j] == before[j - 1]);
                    let q = p as int;
                    if q < j - 1 {
                        assert(!before[j - 1].ranks_before(before[q]));
                    } else {
                        T::lemma_rank_order(before[q], before[q], before[q]);
                    }
                    T::lemma_rank_order(x, before[q], before[j - 1]);
                    T::lemma_rank_order(x, before[j - 1], x);
                } else {
                    assert(after[i] == before[i - 1] && after[j] == before[j - 1]);
                }
            }
            assert(after.to_multiset() == before.to_multiset().insert(x));
            assert(before_rest.to_multiset() == rest@.to_multiset().insert(x));
        }
    }
    proof {
        assert(rest@.to_multiset() =~= vstd::multiset::Multiset::empty());
    }
    out
}

} // verus!
