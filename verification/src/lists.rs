use vstd::prelude::*;
use crate::text;

verus! {


/// The results of `f` on the lines where it gives one (`filter_map`).
pub open spec fn parse_lines<T>(ls: Seq<Seq<char>>, f: spec_fn(Seq<char>) -> Option<T>) -> Seq<T>
    decreases ls.len(),
{
    if ls.len() == 0 {
        Seq::empty()
    } else {
        let r = parse_lines(ls.drop_last(), f);
        match f(ls.last()) {
            Some(x) => r.push(x),
            None => r,
        }
    }
}

/// Some element's key is the same name as `k`.
pub open spec fn has_key<T>(list: Seq<T>, key: spec_fn(T) -> Seq<char>, k: Seq<char>) -> bool {
    exists|i: int| 0 <= i < list.len() && text::same_name_spec(key(#[trigger] list[i]), k)
}

/// The first element of every group whose keys are the same name.
pub open spec fn dedup_by<T>(list: Seq<T>, key: spec_fn(T) -> Seq<char>) -> Seq<T>
    decreases list.len(),
{
    if list.len() == 0 {
        list
    } else {
        let d = dedup_by(list.drop_last(), key);
        if has_key(d, key, key(list.last())) {
            d
        } else {
            d.push(list.last())
        }
    }
}

/// The index of the first element that satisfies `p`.
pub open spec fn first_index<T>(list: Seq<T>, p: spec_fn(T) -> bool) -> Option<int>
    decreases list.len(),
{
    if list.len() == 0 {
        None
    } else if p(list[0]) {
        Some(0)
    } else {
        match first_index(list.drop_first(), p) {
            Some(i) => Some(i + 1),
            None => None,
        }
    }
}

/// The elements that do not satisfy `p` (`Vec::retain` of the others).
pub open spec fn drop_where<T>(list: Seq<T>, p: spec_fn(T) -> bool) -> Seq<T>
    decreases list.len(),
{
    if list.len() == 0 {
        list
    } else if p(list.last()) {
        drop_where(list.drop_last(), p)
    } else {
        drop_where(list.drop_last(), p).push(list.last())
    }
}

/// `first_index` is the first index whose element satisfies `p`, or `None`
/// when no element does.
pub proof fn lemma_first_index<T>(list: Seq<T>, p: spec_fn(T) -> bool, i: int)
    requires
        0 <= i <= list.len(),
        forall|j: int| 0 <= j < i ==> !p(#[trigger] list[j]),
        i < list.len() ==> p(list[i]),
    ensures
        first_index(list, p) == (if i < list.len() {
            Some(i)
        } else {
            None::<int>
        }),
    decreases i,
{
    if list.len() > 0 && i > 0 {
        assert(!p(list[0]));
        let rest = list.drop_first();
        assert forall|j: int| 0 <= j < i - 1 implies !p(#[trigger] rest[j]) by {
            assert(rest[j] == list[j + 1]);
        }
        if i < list.len() {
            assert(rest[i - 1] == list[i]);
        }
        lemma_first_index(rest, p, i - 1);
    }
}

/// An index at which `first_index` stops.
pub proof fn lemma_first_index_found<T>(list: Seq<T>, p: spec_fn(T) -> bool)
    ensures
        match first_index(list, p) {
            Some(i) => 0 <= i < list.len() && p(list[i]) && forall|j: int|
                0 <= j < i ==> !p(#[trigger] list[j]),
            None => forall|j: int| 0 <= j < list.len() ==> !p(#[trigger] list[j]),
        },
    decreases list.len(),
{
    if list.len() > 0 && !p(list[0]) {
        let rest = list.drop_first();
        lemma_first_index_found(rest, p);
        match first_index(rest, p) {
            Some(i) => {
                assert(rest[i] == list[i + 1]);
                assert forall|j: int| 0 <= j < i + 1 implies !p(#[trigger] list[j]) by {
                    if j > 0 {
                        assert(list[j] == rest[j - 1]);
                    }
                }
            },
            None => {
                assert forall|j: int| 0 <= j < list.len() implies !p(#[trigger] list[j]) by {
                    if j > 0 {
                        assert(list[j] == rest[j - 1]);
                    }
                }
            },
        }
    }
}

/// When `f` reads every line as the matching element, `parse_lines` gives
/// the elements back.
pub proof fn lemma_parse_lines_all<T>(ls: Seq<Seq<char>>, xs: Seq<T>, f: spec_fn(Seq<char>) -> Option<T>)
    requires
        ls.len() == xs.len(),
        forall|i: int| 0 <= i < ls.len() ==> f(#[trigger] ls[i]) == Some(xs[i]),
    ensures
        parse_lines(ls, f) == xs,
    decreases ls.len(),
{
    if ls.len() > 0 {
        let a = ls.drop_last();
        let b = xs.drop_last();
        assert forall|i: int| 0 <= i < a.len() implies f(#[trigger] a[i]) == Some(b[i]) by {
            assert(a[i] == ls[i]);
            assert(f(ls[i]) == Some(xs[i]));
        }
        lemma_parse_lines_all(a, b, f);
        assert(f(ls[ls.len() - 1]) == Some(xs[xs.len() - 1]));
        assert(b.push(xs.last()) == xs);
    }
}

/// No two elements have keys that are the same name.
pub open spec fn distinct_keys<T>(xs: Seq<T>, key: spec_fn(T) -> Seq<char>) -> bool {
    forall|i: int, j: int|
        0 <= i < j < xs.len() ==> !text::same_name_spec(key(#[trigger] xs[i]), key(#[trigger] xs[j]))
}

/// Dropping repeated keys changes nothing when the keys are distinct.
pub proof fn lemma_dedup_distinct<T>(xs: Seq<T>, key: spec_fn(T) -> Seq<char>)
    requires
        distinct_keys(xs, key),
    ensures
        dedup_by(xs, key) == xs,
    decreases xs.len(),
{
    if xs.len() > 0 {
        let a = xs.drop_last();
        assert(distinct_keys(a, key)) by {
            assert forall|i: int, j: int| 0 <= i < j < a.len() implies !text::same_name_spec(
                key(#[trigger] a[i]),
                key(#[trigger] a[j]),
            ) by {
                assert(a[i] == xs[i] && a[j] == xs[j]);
            }
        }
        lemma_dedup_distinct(a, key);
        assert(!has_key(a, key, key(xs.last()))) by {
            assert forall|i: int| 0 <= i < a.len() implies !text::same_name_spec(
                key(#[trigger] a[i]),
                key(xs.last()),
            ) by {
                assert(a[i] == xs[i]);
                assert(!text::same_name_spec(key(xs[i]), key(xs[xs.len() - 1])));
            }
        }
        assert(a.push(xs.last()) == xs);
    }
}

/// What `drop_where` keeps fails `p` and comes from the list.
pub proof fn lemma_drop_where_props<T>(list: Seq<T>, p: spec_fn(T) -> bool)
    ensures
        forall|i: int| 0 <= i < drop_where(list, p).len() ==> !p(#[trigger] drop_where(list, p)[i]),
        forall|i: int|
            0 <= i < drop_where(list, p).len() ==> exists|j: int|
                0 <= j < list.len() && list[j] == #[trigger] drop_where(list, p)[i],
        drop_where(list, p).len() <= list.len(),
    decreases list.len(),
{
    if list.len() > 0 {
        let a = list.drop_last();
        lemma_drop_where_props(a, p);
        let d = drop_where(a, p);
        let r = drop_where(list, p);
        assert forall|i: int| 0 <= i < r.len() implies exists|j: int|
            0 <= j < list.len() && list[j] == #[trigger] r[i] by {
            if i < d.len() {
                assert(r[i] == d[i]);
                let j = choose|j: int| 0 <= j < a.len() && a[j] == d[i];
                assert(list[j] == a[j]);
            } else {
                assert(list[list.len() - 1] == r[i]);
            }
        }
        assert forall|i: int| 0 <= i < r.len() implies !p(#[trigger] r[i]) by {
            if i < d.len() {
                assert(r[i] == d[i]);
            }
        }
    }
}

/// Replacing the first element that satisfies `p` by another that does
/// keeps it the first.
pub proof fn lemma_first_index_update<T>(list: Seq<T>, p: spec_fn(T) -> bool, i: int, x: T)
    requires
        first_index(list, p) == Some(i),
        p(x),
    ensures
        first_index(list.update(i, x), p) == Some(i),
{
    lemma_first_index_found(list, p);
    let u = list.update(i, x);
    assert forall|j: int| 0 <= j < i implies !p(#[trigger] u[j]) by {
        assert(u[j] == list[j]);
    }
    lemma_first_index(u, p, i);
}

/// An element that fails `p` survives `drop_where`.
pub proof fn lemma_drop_where_keeps<T>(list: Seq<T>, p: spec_fn(T) -> bool, j: int)
    requires
        0 <= j < list.len(),
        !p(list[j]),
    ensures
        exists|k: int|
            0 <= k < drop_where(list, p).len() && #[trigger] drop_where(list, p)[k] == list[j],
    decreases list.len(),
{
    let a = list.drop_last();
    if j == list.len() - 1 {
        let d = drop_where(a, p);
        assert(list.last() == list[j]);
        assert(drop_where(list, p) == d.push(list.last()));
        assert(drop_where(list, p)[d.len() as int] == list[j]);
    } else {
        assert(a[j] == list[j]);
        lemma_drop_where_keeps(a, p, j);
        let k = choose|k: int| 0 <= k < drop_where(a, p).len() && drop_where(a, p)[k] == a[j];
        if !p(list.last()) {
            assert(drop_where(list, p) == drop_where(a, p).push(list.last()));
            assert(drop_where(list, p)[k] == drop_where(a, p)[k]);
        } else {
            assert(drop_where(list, p) == drop_where(a, p));
            assert(drop_where(list, p)[k] == list[j]);
        }
    }
}

/// `drop_where` keeps keys distinct.
pub proof fn lemma_drop_where_distinct<T>(list: Seq<T>, p: spec_fn(T) -> bool, key: spec_fn(T) -> Seq<char>)
    requires
        distinct_keys(list, key),
    ensures
        distinct_keys(drop_where(list, p), key),
    decreases list.len(),
{
    if list.len() > 0 {
        let a = list.drop_last();
        assert(distinct_keys(a, key)) by {
            assert forall|i: int, j: int| 0 <= i < j < a.len() implies !text::same_name_spec(
                key(#[trigger] a[i]),
                key(#[trigger] a[j]),
            ) by {
                assert(a[i] == list[i] && a[j] == list[j]);
            }
        }
        lemma_drop_where_distinct(a, p, key);
        let d = drop_where(a, p);
        if !p(list.last()) {
            lemma_drop_where_props(a, p);
            let r = d.push(list.last());
            assert forall|i: int, j: int| 0 <= i < j < r.len() implies !text::same_name_spec(
                key(#[trigger] r[i]),
                key(#[trigger] r[j]),
            ) by {
                if j < d.len() {
                    assert(r[i] == d[i] && r[j] == d[j]);
                } else {
                    assert(r[i] == d[i]);
                    assert(0 <= i < d.len());
                    let m = choose|m: int| 0 <= m < a.len() && a[m] == #[trigger] d[i];
                    assert(a[m] == list[m]);
                    assert(!text::same_name_spec(key(list[m]), key(list[list.len() - 1])));
                }
            }
        }
    }
}

/// `dedup_by` leaves no two elements whose keys are the same name.
pub proof fn lemma_dedup_by_distinct<T>(list: Seq<T>, key: spec_fn(T) -> Seq<char>)
    ensures
        distinct_keys(dedup_by(list, key), key),
    decreases list.len(),
{
    if list.len() > 0 {
        let a = list.drop_last();
        lemma_dedup_by_distinct(a, key);
        let d = dedup_by(a, key);
        if !has_key(d, key, key(list.last())) {
            let e = d.push(list.last());
            assert forall|i: int, j: int| 0 <= i < j < e.len() implies !text::same_name_spec(
                key(#[trigger] e[i]),
                key(#[trigger] e[j]),
            ) by {
                if j < d.len() {
                    assert(e[i] == d[i] && e[j] == d[j]);
                } else {
                    assert(e[i] == d[i]);
                    assert(!text::same_name_spec(key(d[i]), key(list.last())));
                }
            }
        }
    }
}

/// Every element of `dedup_by` satisfies what every element of the list satisfies.
pub proof fn lemma_dedup_by_sub<T>(list: Seq<T>, key: spec_fn(T) -> Seq<char>, q: spec_fn(T) -> bool)
    requires
        forall|i: int| 0 <= i < list.len() ==> q(#[trigger] list[i]),
    ensures
        forall|i: int| 0 <= i < dedup_by(list, key).len() ==> q(#[trigger] dedup_by(list, key)[i]),
    decreases list.len(),
{
    if list.len() > 0 {
        let a = list.drop_last();
        assert forall|i: int| 0 <= i < a.len() implies q(#[trigger] a[i]) by {
            assert(a[i] == list[i]);
        }
        lemma_dedup_by_sub(a, key, q);
        assert(q(list[list.len() - 1]));
        let d = dedup_by(list, key);
        assert forall|i: int| 0 <= i < d.len() implies q(#[trigger] d[i]) by {
            if i < dedup_by(a, key).len() {
                assert(d[i] == dedup_by(a, key)[i]);
            }
        }
    }
}

/// Every element `parse_lines` gives satisfies what every parsed line gives.
pub proof fn lemma_parse_lines_sub<T>(
    ls: Seq<Seq<char>>,
    f: spec_fn(Seq<char>) -> Option<T>,
    q: spec_fn(T) -> bool,
)
    requires
        forall|i: int| 0 <= i < ls.len() ==> (#[trigger] f(ls[i]) matches Some(x) ==> q(x)),
    ensures
        forall|i: int| 0 <= i < parse_lines(ls, f).len() ==> q(#[trigger] parse_lines(ls, f)[i]),
    decreases ls.len(),
{
    if ls.len() > 0 {
        let a = ls.drop_last();
        assert forall|i: int| 0 <= i < a.len() implies (#[trigger] f(a[i]) matches Some(x) ==> q(x)) by {
            assert(a[i] == ls[i]);
        }
        lemma_parse_lines_sub(a, f, q);
        let r = parse_lines(a, f);
        let out = parse_lines(ls, f);
        assert(f(ls[ls.len() - 1]) matches Some(x) ==> q(x));
        assert forall|i: int| 0 <= i < out.len() implies q(#[trigger] out[i]) by {
            if i < r.len() {
                assert(out[i] == r[i]);
            }
        }
    }
}

} // verus!
