//! Lexicographic order on identifiers, and sorted sets of them.

use vstd::prelude::*;
use crate::text::chars_of;

verus! {

/// Lexicographic order by Unicode scalar value, which is the order of `str` itself.
pub open spec fn chars_lt(a: Seq<char>, b: Seq<char>) -> bool
    decreases a.len(),
{
    if a.len() == 0 {
        b.len() > 0
    } else if b.len() == 0 {
        false
    } else if (a[0] as u32) < (b[0] as u32) {
        true
    } else if (a[0] as u32) > (b[0] as u32) {
        false
    } else {
        chars_lt(a.drop_first(), b.drop_first())
    }
}

proof fn lemma_chars_lt_irreflexive(a: Seq<char>)
    ensures
        !chars_lt(a, a),
    decreases a.len(),
{
    if a.len() > 0 {
        lemma_chars_lt_irreflexive(a.drop_first());
    }
}

pub proof fn lemma_chars_lt_total(a: Seq<char>, b: Seq<char>)
    ensures
        a != b ==> chars_lt(a, b) || chars_lt(b, a),
        !(chars_lt(a, b) && chars_lt(b, a)),
        !chars_lt(a, a),
    decreases a.len(),
{
    lemma_chars_lt_irreflexive(a);
    if a.len() > 0 && b.len() > 0 {
        lemma_chars_lt_total(a.drop_first(), b.drop_first());
        vstd::utf8::char_u32_cast(a[0], a[0] as u32);
        vstd::utf8::char_u32_cast(b[0], b[0] as u32);
        if (a[0] as u32) == (b[0] as u32) && a.drop_first() == b.drop_first() {
            assert(a[0] == b[0]);
            assert(a =~= seq![a[0]] + a.drop_first());
            assert(b =~= seq![b[0]] + b.drop_first());
        }
    } else if a.len() == 0 && b.len() == 0 {
        assert(a =~= b);
    }
}

/// The order is transitive.
pub proof fn lemma_chars_lt_transitive(a: Seq<char>, b: Seq<char>, c: Seq<char>)
    requires
        chars_lt(a, b),
        chars_lt(b, c),
    ensures
        chars_lt(a, c),
    decreases a.len(),
{
    if a.len() > 0 && b.len() > 0 && c.len() > 0 {
        if (a[0] as u32) == (b[0] as u32) && (b[0] as u32) == (c[0] as u32) {
            lemma_chars_lt_transitive(a.drop_first(), b.drop_first(), c.drop_first());
        }
    }
}

/// `a` comes before `b`, and `b` no later than `c`: then `a` comes before `c`.
pub proof fn lemma_chars_lt_le(a: Seq<char>, b: Seq<char>, c: Seq<char>)
    requires
        chars_lt(a, b),
        !chars_lt(c, b),
    ensures
        chars_lt(a, c),
{
    lemma_chars_lt_total(b, c);
    if b != c {
        lemma_chars_lt_transitive(a, b, c);
    }
}

proof fn lemma_chars_lt_skip(a: Seq<char>, b: Seq<char>, k: int)
    requires
        0 <= k <= a.len(),
        k <= b.len(),
        a.subrange(0, k) == b.subrange(0, k),
    ensures
        chars_lt(a, b) == chars_lt(a.subrange(k, a.len() as int), b.subrange(k, b.len() as int)),
    decreases k,
{
    if k > 0 {
        assert(a[0] == a.subrange(0, k)[0]);
        assert(b[0] == b.subrange(0, k)[0]);
        let a1 = a.drop_first();
        let b1 = b.drop_first();
        assert(a1.subrange(0, k - 1) =~= a.subrange(0, k).drop_first());
        assert(b1.subrange(0, k - 1) =~= b.subrange(0, k).drop_first());
        lemma_chars_lt_skip(a1, b1, k - 1);
        assert(a1.subrange(k - 1, a1.len() as int) =~= a.subrange(k, a.len() as int));
        assert(b1.subrange(k - 1, b1.len() as int) =~= b.subrange(k, b.len() as int));
    } else {
        assert(a.subrange(0, a.len() as int) =~= a);
        assert(b.subrange(0, b.len() as int) =~= b);
    }
}

/// `a < b` for two identifiers.
pub fn str_lt(a: &str, b: &str) -> (r: bool)
    ensures
        r == chars_lt(a@, b@),
{
    let x = chars_of(a);
    let y = chars_of(b);
    let mut k: usize = 0;
    while k < x.len() && k < y.len() && (x[k] as u32) == (y[k] as u32)
        invariant
            x@ == a@,
            y@ == b@,
            k <= x.len(),
            k <= y.len(),
            x@.subrange(0, k as int) == y@.subrange(0, k as int),
        decreases x.len() - k,
    {
        proof {
            vstd::utf8::char_u32_cast(x@[k as int], x@[k as int] as u32);
            vstd::utf8::char_u32_cast(y@[k as int], y@[k as int] as u32);
            assert(x@.subrange(0, k + 1) =~= x@.subrange(0, k as int).push(x@[k as int]));
            assert(y@.subrange(0, k + 1) =~= y@.subrange(0, k as int).push(y@[k as int]));
        }
        k = k + 1;
    }
    proof {
        lemma_chars_lt_skip(x@, y@, k as int);
    }
    let ghost xs = x@.subrange(k as int, x@.len() as int);
    let ghost ys = y@.subrange(k as int, y@.len() as int);
    if k == x.len() {
        k < y.len()
    } else if k == y.len() {
        false
    } else {
        assert(xs[0] == x@[k as int]);
        assert(ys[0] == y@[k as int]);
        (x[k] as u32) < (y[k] as u32)
    }
}

/// The text of each identifier.
pub open spec fn texts(v: Seq<String>) -> Seq<Seq<char>> {
    v.map_values(|s: String| s@)
}

/// Strictly increasing: every neighbour is smaller than the next (`windows(2)`).
pub open spec fn sorted_unique(v: Seq<Seq<char>>) -> bool {
    forall|i: int| 0 <= i < v.len() - 1 ==> #[trigger] chars_lt(v[i], v[i + 1])
}

/// `v` names `x`.
pub open spec fn names(v: Seq<String>, x: Seq<char>) -> bool {
    exists|i: int| 0 <= i < v.len() && #[trigger] v[i]@ == x
}

/// Whether `values` names `value`.
pub fn contains_str(values: &Vec<String>, value: &String) -> (r: bool)
    ensures
        r == names(values@, value@),
{
    let mut i: usize = 0;
    while i < values.len()
        invariant
            i <= values.len(),
            forall|k: int| 0 <= k < i ==> #[trigger] values@[k]@ != value@,
        decreases values.len() - i,
    {
        if values[i] == *value {
            return true;
        }
        i = i + 1;
    }
    false
}

/// Whether the identifiers are strictly increasing (sorted and unique).
pub fn is_sorted_unique(values: &Vec<String>) -> (r: bool)
    ensures
        r == sorted_unique(texts(values@)),
{
    let mut i: usize = 1;
    if values.len() < 2 {
        return true;
    }
    while i < values.len()
        invariant
            1 <= i <= values.len(),
            forall|k: int| 0 <= k < i - 1 ==> #[trigger] chars_lt(values@[k]@, values@[k + 1]@),
        decreases values.len() - i,
    {
        if !str_lt(values[i - 1].as_str(), values[i].as_str()) {
            let ghost j = i - 1;
            assert(texts(values@)[j] == values@[j]@);
            assert(texts(values@)[j + 1] == values@[i as int]@);
            assert(!chars_lt(texts(values@)[j], texts(values@)[j + 1]));
            return false;
        }
        i = i + 1;
    }
    true
}

/// `p` is the first position whose identifier is greater than `x`.
pub open spec fn is_insert_position(v: Seq<Seq<char>>, x: Seq<char>, p: int) -> bool {
    &&& 0 <= p <= v.len()
    &&& forall|k: int| 0 <= k < p ==> !#[trigger] chars_lt(x, v[k])
    &&& p < v.len() ==> chars_lt(x, v[p])
}

/// The set `v` with `x` added in order (unchanged when `x` is already there).
pub open spec fn insert_sorted(v: Seq<Seq<char>>, x: Seq<char>) -> Seq<Seq<char>> {
    if v.contains(x) {
        v
    } else {
        v.insert(choose|p: int| is_insert_position(v, x, p), x)
    }
}

proof fn lemma_insert_position_unique(v: Seq<Seq<char>>, x: Seq<char>, p: int)
    requires
        is_insert_position(v, x, p),
    ensures
        (choose|q: int| is_insert_position(v, x, q)) == p,
{
    let q = choose|q: int| is_insert_position(v, x, q);
    if q < p {
        assert(!chars_lt(x, v[q]));
    }
    if p < q {
        assert(!chars_lt(x, v[p]));
    }
}

pub proof fn lemma_names_contains(v: Seq<String>, x: Seq<char>)
    ensures
        names(v, x) == texts(v).contains(x),
{
    if names(v, x) {
        let i = choose|i: int| 0 <= i < v.len() && v[i]@ == x;
        assert(texts(v)[i] == x);
    }
    if texts(v).contains(x) {
        let i = choose|i: int| 0 <= i < texts(v).len() && texts(v)[i] == x;
        assert(v[i]@ == x);
    }
}

/// Adds `value` to a sorted set of identifiers, keeping it sorted; nothing changes when it is
/// already there.
pub fn insert_sorted_unique(values: &mut Vec<String>, value: String)
    ensures
        texts(final(values)@) == insert_sorted(texts(old(values)@), value@),
        names(old(values)@, value@) ==> final(values)@ == old(values)@,
        !names(old(values)@, value@) ==> exists|p: int|
            0 <= p <= old(values)@.len() && final(values)@ == old(values)@.insert(p, value),
        forall|x: Seq<char>| names(final(values)@, x) <==> (names(old(values)@, x) || x == value@),
        sorted_unique(texts(old(values)@)) ==> sorted_unique(texts(final(values)@)),
{
    if contains_str(values, &value) {
        proof {
            lemma_names_contains(values@, value@);
        }
        return;
    }
    let ghost before = values@;
    let n = values.len();
    let mut p: usize = 0;
    while p < n
        invariant_except_break
            values@ == before,
            n == values.len(),
            p <= n,
            forall|k: int| 0 <= k < p ==> !#[trigger] chars_lt(value@, values@[k]@),
        ensures
            values@ == before,
            p <= n,
            forall|k: int| 0 <= k < p ==> !#[trigger] chars_lt(value@, values@[k]@),
            p < n ==> chars_lt(value@, values@[p as int]@),
        decreases n - p,
    {
        if str_lt(value.as_str(), values[p].as_str()) {
            break;
        }
        p = p + 1;
    }
    proof {
        lemma_names_contains(before, value@);
        assert forall|k: int| 0 <= k < p implies !#[trigger] chars_lt(value@, texts(before)[k]) by {
            assert(texts(before)[k] == before[k]@);
        }
        if p < n {
            assert(texts(before)[p as int] == before[p as int]@);
        }
        lemma_insert_position_unique(texts(before), value@, p as int);
    }
    values.insert(p, value);
    proof {
        let after = values@;
        assert(after == before.insert(p as int, value));
        assert(texts(after) =~= texts(before).insert(p as int, value@));
        assert forall|x: Seq<char>| names(after, x) <==> (names(before, x) || x == value@) by {
            if names(after, x) {
                let i = choose|i: int| 0 <= i < after.len() && after[i]@ == x;
                if i < p {
                    assert(before[i] == after[i]);
                } else if i > p {
                    assert(before[i - 1] == after[i]);
                }
            }
            if names(before, x) {
                let i = choose|i: int| 0 <= i < before.len() && before[i]@ == x;
                if i < p {
                    assert(after[i] == before[i]);
                } else {
                    assert(after[i + 1] == before[i]);
                }
            }
            if x == value@ {
                assert(after[p as int]@ == x);
            }
        }
        if sorted_unique(texts(before)) {
            let t = texts(after);
            assert forall|i: int| 0 <= i < t.len() - 1 implies #[trigger] chars_lt(t[i], t[i + 1]) by {
                if i + 1 < p {
                    assert(t[i] == texts(before)[i] && t[i + 1] == texts(before)[i + 1]);
                    assert(chars_lt(texts(before)[i], texts(before)[i + 1]));
                } else if i + 1 == p {
                    assert(t[i] == before[i]@);
                    assert(!names(before, value@));
                    assert(before[i]@ != value@);
                    assert(!chars_lt(value@, before[i]@));
                    lemma_chars_lt_total(value@, before[i]@);
                    assert(t[i + 1] == value@);
                } else if i == p {
                    assert(t[i + 1] == before[i]@);
                    assert(t[i] == value@);
                } else {
                    assert(t[i] == texts(before)[i - 1] && t[i + 1] == texts(before)[i]);
                    let k = i - 1;
                    assert(chars_lt(texts(before)[k], texts(before)[k + 1]));
                }
            }
        }
    }
}

} // verus!

verus! {

/// The first `n` texts without `x`, in order.
pub open spec fn without(v: Seq<Seq<char>>, x: Seq<char>, n: nat) -> Seq<Seq<char>>
    decreases n,
{
    if n == 0 || n > v.len() {
        Seq::empty()
    } else {
        let earlier = without(v, x, (n - 1) as nat);
        if v[n - 1] == x {
            earlier
        } else {
            earlier.push(v[n - 1])
        }
    }
}

/// The identifiers other than `value`, in order.
pub fn remove_name(values: &Vec<String>, value: &String) -> (r: Vec<String>)
    ensures
        texts(r@) == without(texts(values@), value@, values@.len()),
{
    let mut out: Vec<String> = Vec::new();
    let mut i: usize = 0;
    while i < values.len()
        invariant
            i <= values.len(),
            texts(out@) == without(texts(values@), value@, i as nat),
        decreases values.len() - i,
    {
        assert(texts(values@)[i as int] == values@[i as int]@);
        if !(values[i] == *value) {
            out.push(values[i].clone());
            assert(texts(out@) =~= without(texts(values@), value@, i as nat).push(values@[i as int]@));
        }
        i = i + 1;
    }
    out
}

/// A copy of a list of identifiers.
pub fn clone_texts(v: &Vec<String>) -> (r: Vec<String>)
    ensures
        texts(r@) == texts(v@),
        r@.len() == v@.len(),
{
    let mut out: Vec<String> = Vec::new();
    let mut i: usize = 0;
    while i < v.len()
        invariant
            i <= v.len(),
            out@.len() == i,
            forall|k: int| 0 <= k < i ==> #[trigger] out@[k]@ == v@[k]@,
        decreases v.len() - i,
    {
        out.push(v[i].clone());
        i = i + 1;
    }
    assert(texts(out@) =~= texts(v@));
    out
}

} // verus!
