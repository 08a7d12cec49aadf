//! Ordering of strings as `String`'s `Ord` orders them, and sorted,
//! duplicate-free lists keyed by a string.
use vstd::prelude::*;

use crate::text::chars_of;

verus! {

/// Lexicographic order of character sequences by code point: the order of
/// `str`'s `Ord` (UTF-8 byte order agrees with code point order).
pub open spec fn seq_less(a: Seq<char>, b: Seq<char>) -> bool
    decreases a.len(),
{
    if a.len() == 0 {
        b.len() > 0
    } else if b.len() == 0 {
        false
    } else if a[0] != b[0] {
        a[0] < b[0]
    } else {
        seq_less(a.drop_first(), b.drop_first())
    }
}

pub proof fn lemma_less_irrefl(a: Seq<char>)
    ensures
        !seq_less(a, a),
    decreases a.len(),
{
    if a.len() > 0 {
        lemma_less_irrefl(a.drop_first());
    }
}

pub proof fn lemma_less_asym(a: Seq<char>, b: Seq<char>)
    ensures
        seq_less(a, b) ==> !seq_less(b, a),
    decreases a.len(),
{
    if a.len() > 0 && b.len() > 0 && a[0] == b[0] {
        lemma_less_asym(a.drop_first(), b.drop_first());
    }
}

pub proof fn lemma_less_total(a: Seq<char>, b: Seq<char>)
    ensures
        a != b ==> seq_less(a, b) || seq_less(b, a),
    decreases a.len(),
{
    if a.len() > 0 && b.len() > 0 {
        if a[0] == b[0] {
            lemma_less_total(a.drop_first(), b.drop_first());
            if a.drop_first() == b.drop_first() {
                assert(a =~= seq![a[0]] + a.drop_first());
                assert(b =~= seq![b[0]] + b.drop_first());
            }
        } else {
            assert(a[0] < b[0] || b[0] < a[0]);
        }
    } else if a.len() == 0 && b.len() == 0 {
        assert(a =~= b);
    }
}

pub proof fn lemma_less_trans(a: Seq<char>, b: Seq<char>, c: Seq<char>)
    requires
        seq_less(a, b),
        seq_less(b, c),
    ensures
        seq_less(a, c),
    decreases a.len(),
{
    if a.len() > 0 && b.len() > 0 && c.len() > 0 && a[0] == b[0] && b[0] == c[0] {
        lemma_less_trans(a.drop_first(), b.drop_first(), c.drop_first());
    }
}

/// Dropping an equal prefix keeps the order.
proof fn lemma_less_skip(a: Seq<char>, b: Seq<char>, i: int)
    requires
        0 <= i <= a.len(),
        i <= b.len(),
        a.take(i) == b.take(i),
    ensures
        seq_less(a, b) == seq_less(a.skip(i), b.skip(i)),
    decreases i,
{
    if i > 0 {
        assert(a[0] == a.take(i)[0]);
        assert(b[0] == b.take(i)[0]);
        assert(a.drop_first().take(i - 1) =~= a.take(i).drop_first());
        assert(b.drop_first().take(i - 1) =~= b.take(i).drop_first());
        lemma_less_skip(a.drop_first(), b.drop_first(), i - 1);
        assert(a.drop_first().skip(i - 1) =~= a.skip(i));
        assert(b.drop_first().skip(i - 1) =~= b.skip(i));
    } else {
        assert(a.skip(0) =~= a);
        assert(b.skip(0) =~= b);
    }
}

/// `a < b` as `String`'s `Ord` has it.
pub fn chars_less(a: &Vec<char>, b: &Vec<char>) -> (r: bool)
    ensures
        r == seq_less(a@, b@),
{
    let mut i: usize = 0;
    while i < a.len() && i < b.len() && a[i] == b[i]
        invariant
            i <= a@.len(),
            i <= b@.len(),
            a@.take(i as int) == b@.take(i as int),
        decreases a.len() - i,
    {
        assert(a@.take(i + 1) =~= a@.take(i as int).push(a@[i as int]));
        assert(b@.take(i + 1) =~= b@.take(i as int).push(b@[i as int]));
        i = i + 1;
    }
    proof {
        lemma_less_skip(a@, b@, i as int);
    }
    if i == a.len() {
        i < b.len()
    } else if i == b.len() {
        false
    } else {
        assert(a@.skip(i as int)[0] == a@[i as int]);
        assert(b@.skip(i as int)[0] == b@[i as int]);
        a[i] < b[i]
    }
}

/// `a < b` on strings.
pub fn str_less(a: &str, b: &str) -> (r: bool)
    ensures
        r == seq_less(a@, b@),
{
    let va = chars_of(a);
    let vb = chars_of(b);
    chars_less(&va, &vb)
}

/// Entries strictly increasing by name.
pub open spec fn sorted_by_name(r: Seq<(Seq<char>, Option<Seq<char>>)>) -> bool {
    forall|i: int, j: int| 0 <= i < j < r.len() ==> seq_less(#[trigger] r[i].0, #[trigger] r[j].0)
}

/// `e[j]` is the first entry with its name.
pub open spec fn first_occurrence(e: Seq<(Seq<char>, Option<Seq<char>>)>, j: int) -> bool {
    0 <= j < e.len() && forall|k: int| #![trigger e[k]] 0 <= k < j ==> e[k].0 != e[j].0
}

/// `x` is the first entry of `e` with its name.
pub open spec fn is_first_entry(
    e: Seq<(Seq<char>, Option<Seq<char>>)>,
    x: (Seq<char>, Option<Seq<char>>),
) -> bool {
    exists|j: int| first_occurrence(e, j) && x == e[j]
}

/// Some entry of `r` carries the name `n`.
pub open spec fn has_name(r: Seq<(Seq<char>, Option<Seq<char>>)>, n: Seq<char>) -> bool {
    exists|i: int| 0 <= i < r.len() && r[i].0 == n
}

/// `r` is what a `BTreeMap` filled from `e` with `entry(name).or_insert(version)`
/// yields in order: one entry per name of `e`, the first one given for that
/// name, sorted by name.
pub open spec fn first_wins_sorted(
    e: Seq<(Seq<char>, Option<Seq<char>>)>,
    r: Seq<(Seq<char>, Option<Seq<char>>)>,
) -> bool {
    &&& sorted_by_name(r)
    &&& forall|i: int| 0 <= i < r.len() ==> is_first_entry(e, #[trigger] r[i])
    &&& forall|j: int| 0 <= j < e.len() ==> has_name(r, #[trigger] e[j].0)
}

/// A copy of an optional string.
pub fn clone_opt(o: &Option<String>) -> (r: Option<String>)
    ensures
        r.deep_view() == o.deep_view(),
{
    match o {
        Some(s) => Some(s.clone()),
        None => None,
    }
}

/// What the first `idx` entries of `e` have made of the sorted list `r`,
/// with `src[i]` the entry that gave `r[i]` and `pos[j]` where the name of
/// `e[j]` stands in `r`.
pub open spec fn sorted_prefix_inv(
    e: Seq<(Seq<char>, Option<Seq<char>>)>,
    idx: int,
    r: Seq<(Seq<char>, Option<Seq<char>>)>,
    src: Seq<int>,
    pos: Seq<int>,
) -> bool {
    &&& 0 <= idx <= e.len()
    &&& sorted_by_name(r)
    &&& src.len() == r.len()
    &&& pos.len() == idx
    &&& forall|i: int|
        #![trigger src[i]]
        0 <= i < r.len() ==> 0 <= src[i] < idx && first_occurrence(e, src[i]) && r[i] == e[src[i]]
    &&& forall|j: int|
        #![trigger pos[j]]
        0 <= j < idx ==> 0 <= pos[j] < r.len() && r[pos[j]].0 == e[j].0
}

proof fn lemma_entry_present(
    e: Seq<(Seq<char>, Option<Seq<char>>)>,
    idx: int,
    r: Seq<(Seq<char>, Option<Seq<char>>)>,
    src: Seq<int>,
    pos: Seq<int>,
    i: int,
)
    requires
        idx < e.len(),
        sorted_prefix_inv(e, idx, r, src, pos),
        0 <= i < r.len(),
        r[i].0 == e[idx].0,
    ensures
        sorted_prefix_inv(e, idx + 1, r, src, pos.push(i)),
{
    let p2 = pos.push(i);
    assert forall|j: int| #![trigger p2[j]] 0 <= j < idx + 1 implies 0 <= p2[j] < r.len()
        && r[p2[j]].0 == e[j].0 by {
        if j < idx {
            assert(p2[j] == pos[j]);
        }
    }
}

proof fn lemma_entry_inserted(
    e: Seq<(Seq<char>, Option<Seq<char>>)>,
    idx: int,
    r: Seq<(Seq<char>, Option<Seq<char>>)>,
    src: Seq<int>,
    pos: Seq<int>,
    i: int,
) -> (w: (Seq<int>, Seq<int>))
    requires
        idx < e.len(),
        sorted_prefix_inv(e, idx, r, src, pos),
        0 <= i <= r.len(),
        forall|m: int| #![trigger r[m]] 0 <= m < i ==> seq_less(r[m].0, e[idx].0),
        i < r.len() ==> !seq_less(r[i].0, e[idx].0) && r[i].0 != e[idx].0,
    ensures
        sorted_prefix_inv(e, idx + 1, r.insert(i, e[idx]), w.0, w.1),
{
    let key = e[idx].0;
    let nv = r.insert(i, e[idx]);
    let src2 = src.insert(i, idx);
    let pos2 = Seq::new(
        (idx + 1) as nat,
        |j: int|
            if j == idx {
                i
            } else if pos[j] < i {
                pos[j]
            } else {
                pos[j] + 1
            },
    );
    if i < r.len() {
        lemma_less_total(r[i].0, key);
    }
    assert forall|m: int| i < m < nv.len() implies seq_less(key, #[trigger] nv[m].0) by {
        assert(nv[m] == r[m - 1]);
        if m - 1 > i {
            assert(seq_less(r[i].0, r[m - 1].0));
            lemma_less_trans(key, r[i].0, r[m - 1].0);
        }
    }
    assert forall|k: int| #![trigger e[k]] 0 <= k < idx implies e[k].0 != key by {
        if e[k].0 == key {
            let w = pos[k];
            if w < i {
                assert(seq_less(r[w].0, key));
                lemma_less_irrefl(key);
            } else if w > i {
                assert(seq_less(r[i].0, r[w].0));
                lemma_less_trans(key, r[i].0, r[w].0);
                lemma_less_irrefl(key);
            }
        }
    }
    assert(first_occurrence(e, idx));
    assert forall|a: int, b: int| 0 <= a < b < nv.len() implies seq_less(
        #[trigger] nv[a].0,
        #[trigger] nv[b].0,
    ) by {
        if b < i {
            assert(nv[a] == r[a] && nv[b] == r[b]);
        } else if b == i {
            assert(nv[a] == r[a]);
        } else if a < i {
            assert(nv[a] == r[a]);
            assert(seq_less(nv[a].0, key));
            assert(seq_less(key, nv[b].0));
            lemma_less_trans(nv[a].0, key, nv[b].0);
        } else if a == i {
        } else {
            assert(nv[a] == r[a - 1] && nv[b] == r[b - 1]);
        }
    }
    assert forall|m: int| #![trigger src2[m]] 0 <= m < nv.len() implies 0 <= src2[m] < idx + 1
        && first_occurrence(e, src2[m]) && nv[m] == e[src2[m]] by {
        if m < i {
            assert(src2[m] == src[m] && nv[m] == r[m]);
        } else if m > i {
            assert(src2[m] == src[m - 1] && nv[m] == r[m - 1]);
        }
    }
    assert forall|j: int| #![trigger pos2[j]] 0 <= j < idx + 1 implies 0 <= pos2[j] < nv.len()
        && nv[pos2[j]].0 == e[j].0 by {
        if j < idx {
            let w = pos[j];
            if w < i {
                assert(nv[w] == r[w]);
            } else {
                assert(nv[w + 1] == r[w]);
            }
        }
    }
    (src2, pos2)
}

proof fn lemma_inv_complete(
    e: Seq<(Seq<char>, Option<Seq<char>>)>,
    r: Seq<(Seq<char>, Option<Seq<char>>)>,
    src: Seq<int>,
    pos: Seq<int>,
)
    requires
        sorted_prefix_inv(e, e.len() as int, r, src, pos),
    ensures
        first_wins_sorted(e, r),
{
    assert forall|i: int| 0 <= i < r.len() implies is_first_entry(e, #[trigger] r[i]) by {
        let j = src[i];
        assert(first_occurrence(e, j) && r[i] == e[j]);
    }
    assert forall|j: int| 0 <= j < e.len() implies has_name(r, #[trigger] e[j].0) by {
        let i = pos[j];
        assert(0 <= i < r.len() && r[i].0 == e[j].0);
    }
}

/// Sorts `(name, version)` entries by name, keeping for each name the first
/// entry given.
pub fn sort_first_wins(entries: &Vec<(String, Option<String>)>) -> (r: Vec<(String, Option<String>)>)
    ensures
        first_wins_sorted(entries.deep_view(), r.deep_view()),
{
    let ghost e = entries.deep_view();
    let mut out: Vec<(String, Option<String>)> = Vec::new();
    let mut idx: usize = 0;
    let ghost mut src: Seq<int> = seq![];
    let ghost mut pos: Seq<int> = seq![];
    assert(sorted_prefix_inv(e, 0, out.deep_view(), src, pos));
    while idx < entries.len()
        invariant
            idx <= entries@.len(),
            e == entries.deep_view(),
            sorted_prefix_inv(e, idx as int, out.deep_view(), src, pos),
        decreases entries.len() - idx,
    {
        let ghost ov = out.deep_view();
        let key = &entries[idx].0;
        assert(e[idx as int].0 == key@);
        let mut i: usize = 0;
        while i < out.len() && str_less(out[i].0.as_str(), key.as_str())
            invariant
                i <= out@.len(),
                ov == out.deep_view(),
                forall|m: int| #![trigger ov[m]] 0 <= m < i ==> seq_less(ov[m].0, key@),
            decreases out.len() - i,
        {
            assert(ov[i as int].0 == out@[i as int].0@);
            i = i + 1;
        }
        assert(i < out@.len() ==> ov[i as int].0 == out@[i as int].0@);
        let present = i < out.len() && out[i].0 == *key;
        if present {
            proof {
                lemma_entry_present(e, idx as int, ov, src, pos, i as int);
                pos = pos.push(i as int);
            }
        } else {
            let entry = (key.clone(), clone_opt(&entries[idx].1));
            let ghost oldv = out@;
            out.insert(i, entry);
            proof {
                assert(out.deep_view() =~= ov.insert(i as int, e[idx as int])) by {
                    assert forall|m: int| 0 <= m < out@.len() implies #[trigger] out.deep_view()[m]
                        == ov.insert(i as int, e[idx as int])[m] by {
                        if m < i {
                            assert(out@[m] == oldv[m]);
                        } else if m > i {
                            assert(out@[m] == oldv[m - 1]);
                        }
                    }
                }
                let w = lemma_entry_inserted(e, idx as int, ov, src, pos, i as int);
                src = w.0;
                pos = w.1;
            }
        }
        idx = idx + 1;
    }
    proof {
        lemma_inv_complete(e, out.deep_view(), src, pos);
    }
    out
}


/// Ascending: no element is less than one before it.
pub open spec fn sorted_asc(ks: Seq<Seq<char>>) -> bool {
    forall|i: int, j: int| 0 <= i < j < ks.len() ==> !seq_less(#[trigger] ks[j], #[trigger] ks[i])
}

/// `names` in ascending order, as `sort` orders strings; equal names keep
/// their order.
pub fn sort_names(names: &Vec<String>) -> (r: Vec<String>)
    ensures
        sorted_asc(r.deep_view()),
        r.deep_view().to_multiset() == names.deep_view().to_multiset(),
{
    let mut r: Vec<String> = Vec::new();
    let mut i: usize = 0;
    assert(r.deep_view() =~= names.deep_view().take(0));
    while i < names.len()
        invariant
            i <= names@.len(),
            sorted_asc(r.deep_view()),
            r.deep_view().to_multiset() == names.deep_view().take(i as int).to_multiset(),
        decreases names.len() - i,
    {
        let x = &names[i];
        let mut j: usize = 0;
        while j < r.len() && !str_less(x.as_str(), r[j].as_str())
            invariant
                j <= r@.len(),
                forall|k: int| 0 <= k < j ==> !seq_less(x@, #[trigger] r.deep_view()[k]),
            decreases r.len() - j,
        {
            assert(r.deep_view()[j as int] == r@[j as int]@);
            j = j + 1;
        }
        let ghost old_r = r.deep_view();
        proof {
            if j < r@.len() {
                assert(old_r[j as int] == r@[j as int]@);
            }
        }
        r.insert(j, x.clone());
        let ghost new_r = r.deep_view();
        assert(new_r =~= old_r.insert(j as int, x@));
        assert forall|a: int, b: int| 0 <= a < b < new_r.len() implies !seq_less(
            #[trigger] new_r[b],
            #[trigger] new_r[a],
        ) by {
            if b < j {
            } else if b == j {
                assert(new_r[b] == x@);
                assert(new_r[a] == old_r[a]);
            } else if a < j {
                assert(new_r[b] == old_r[b - 1]);
                assert(new_r[a] == old_r[a]);
            } else if a == j {
                assert(seq_less(x@, old_r[j as int]));
                assert(new_r[b] == old_r[b - 1]);
                if b - 1 > j {
                    assert(!seq_less(old_r[b - 1], old_r[j as int]));
                }
                if seq_less(old_r[b - 1], x@) {
                    if b - 1 == j {
                        lemma_less_asym(x@, old_r[j as int]);
                    } else {
                        lemma_less_trans(old_r[b - 1], x@, old_r[j as int]);
                    }
                }
            } else {
                assert(new_r[b] == old_r[b - 1]);
                assert(new_r[a] == old_r[a - 1]);
            }
        }
        assert(names.deep_view().take(i + 1) =~= names.deep_view().take(i as int).push(x@));
        proof {
            vstd::seq_lib::to_multiset_insert(old_r, j as int, x@);
            vstd::seq_lib::to_multiset_build(names.deep_view().take(i as int), x@);
        }
        i = i + 1;
    }
    assert(names.deep_view().take(names@.len() as int) =~= names.deep_view());
    r
}

} // verus!
