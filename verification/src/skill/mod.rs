//! What a skill is made of, and the sorted reference list it carries.
pub mod count;
pub mod warn;
pub mod write;

use vstd::prelude::*;

use crate::order::{lemma_less_asym, lemma_less_irrefl, lemma_less_total, lemma_less_trans, seq_less, str_less};
use crate::text::str_eq;

verus! {

/// One page of a skill.
pub struct SkillPage {
    pub slug: String,
    pub title: String,
    pub markdown: String,
}

/// A page as `(slug, title, markdown)`.
pub type PageView = (Seq<char>, Seq<char>, Seq<char>);

impl DeepView for SkillPage {
    type V = PageView;

    open spec fn deep_view(&self) -> PageView {
        (self.slug@, self.title@, self.markdown@)
    }
}

/// Everything a skill is written from.
pub struct SkillInfo {
    pub name: String,
    pub version: String,
    pub description: String,
    pub license: String,
    pub author: String,
    pub page: SkillPage,
    /// Reference pages, strictly sorted by slug, one per slug (see
    /// `refs_sorted` and `insert_reference`).
    pub references: Vec<SkillPage>,
    /// Items grouped by category in declaration order (Structs, Enums, Traits, …).
    /// Each entry is `(display_name, slug)` where slug is the reference file stem.
    pub items: Vec<(String, Vec<(String, String)>)>,
}

/// Reference pages strictly increasing by slug.
pub open spec fn refs_sorted(refs: Seq<PageView>) -> bool {
    forall|i: int, j: int| 0 <= i < j < refs.len() ==> seq_less(#[trigger] refs[i].0, #[trigger] refs[j].0)
}

/// The reference list with `p` stored under its slug, as `BTreeMap::insert`
/// does: an entry with the same slug is replaced, otherwise `p` goes where
/// its slug sorts.
pub open spec fn refs_insert(refs: Seq<PageView>, p: PageView) -> Seq<PageView>
    decreases refs.len(),
{
    if refs.len() == 0 {
        seq![p]
    } else if refs[0].0 == p.0 {
        seq![p] + refs.drop_first()
    } else if seq_less(p.0, refs[0].0) {
        seq![p] + refs
    } else {
        seq![refs[0]] + refs_insert(refs.drop_first(), p)
    }
}

proof fn lemma_refs_insert_skip(refs: Seq<PageView>, p: PageView, i: int)
    requires
        0 <= i <= refs.len(),
        forall|m: int| 0 <= m < i ==> seq_less(#[trigger] refs[m].0, p.0),
    ensures
        refs_insert(refs, p) == refs.take(i) + refs_insert(refs.skip(i), p),
    decreases i,
{
    if i == 0 {
        assert(refs.take(0) + refs_insert(refs.skip(0), p) =~= refs_insert(refs, p)) by {
            assert(refs.skip(0) =~= refs);
        }
    } else {
        lemma_less_asym(refs[0].0, p.0);
        lemma_less_irrefl(p.0);
        let t = refs.drop_first();
        assert forall|m: int| 0 <= m < i - 1 implies seq_less(#[trigger] t[m].0, p.0) by {
            assert(t[m] == refs[m + 1]);
        }
        lemma_refs_insert_skip(t, p, i - 1);
        assert(t.skip(i - 1) =~= refs.skip(i));
        assert(seq![refs[0]] + (t.take(i - 1) + refs_insert(refs.skip(i), p)) =~= refs.take(i)
            + refs_insert(refs.skip(i), p));
    }
}

/// Inserting keeps the list sorted, and keeps every page of another slug.
pub proof fn lemma_refs_insert_sorted(refs: Seq<PageView>, p: PageView)
    requires
        refs_sorted(refs),
    ensures
        refs_sorted(refs_insert(refs, p)),
        refs_insert(refs, p).contains(p),
        forall|k: int|
            0 <= k < refs_insert(refs, p).len() ==> #[trigger] refs_insert(refs, p)[k] == p || (
            refs_insert(refs, p)[k].0 != p.0 && refs.contains(refs_insert(refs, p)[k])),
        forall|k: int| 0 <= k < refs.len() && #[trigger] refs[k].0 != p.0 ==> refs_insert(refs, p).contains(refs[k]),
    decreases refs.len(),
{
    let r = refs_insert(refs, p);
    if refs.len() == 0 {
        assert(r[0] == p);
    } else if refs[0].0 == p.0 {
        assert(r[0] == p);
        assert forall|i: int, j: int| 0 <= i < j < r.len() implies seq_less(
            #[trigger] r[i].0,
            #[trigger] r[j].0,
        ) by {
            if i == 0 {
                assert(seq_less(refs[0].0, refs[j].0));
            } else {
                assert(seq_less(refs[i].0, refs[j].0));
            }
        }
        assert forall|k: int| 0 <= k < r.len() implies #[trigger] r[k] == p || (r[k].0 != p.0
            && refs.contains(r[k])) by {
            if k > 0 {
                assert(r[k] == refs[k]);
                assert(seq_less(refs[0].0, refs[k].0));
                lemma_less_irrefl(refs[k].0);
            }
        }
        assert forall|k: int| 0 <= k < refs.len() && #[trigger] refs[k].0 != p.0 implies r.contains(refs[k]) by {
            assert(r[k] == refs[k]);
        }
    } else if seq_less(p.0, refs[0].0) {
        assert(r[0] == p);
        assert forall|i: int, j: int| 0 <= i < j < r.len() implies seq_less(
            #[trigger] r[i].0,
            #[trigger] r[j].0,
        ) by {
            if i == 0 {
                if j > 1 {
                    assert(seq_less(refs[0].0, refs[j - 1].0));
                    lemma_less_trans(p.0, refs[0].0, refs[j - 1].0);
                }
            } else {
                assert(seq_less(refs[i - 1].0, refs[j - 1].0));
            }
        }
        assert forall|k: int| 0 <= k < r.len() implies #[trigger] r[k] == p || (r[k].0 != p.0
            && refs.contains(r[k])) by {
            if k > 0 {
                assert(r[k] == refs[k - 1]);
                if k > 1 {
                    assert(seq_less(refs[0].0, refs[k - 1].0));
                    lemma_less_trans(p.0, refs[0].0, refs[k - 1].0);
                }
                lemma_less_irrefl(p.0);
            }
        }
        assert forall|k: int| 0 <= k < refs.len() && #[trigger] refs[k].0 != p.0 implies r.contains(refs[k]) by {
            assert(r[k + 1] == refs[k]);
        }
    } else {
        let t = refs.drop_first();
        assert(refs_sorted(t)) by {
            assert forall|i: int, j: int| 0 <= i < j < t.len() implies seq_less(
                #[trigger] t[i].0,
                #[trigger] t[j].0,
            ) by {
                assert(seq_less(refs[i + 1].0, refs[j + 1].0));
            }
        }
        lemma_refs_insert_sorted(t, p);
        let ti = refs_insert(t, p);
        lemma_less_total(p.0, refs[0].0);
        assert forall|k: int| 0 <= k < ti.len() implies seq_less(refs[0].0, #[trigger] ti[k].0) by {
            if ti[k] == p {
            } else {
                let w = choose|w: int| 0 <= w < t.len() && t[w] == ti[k];
                assert(seq_less(refs[0].0, refs[w + 1].0));
            }
        }
        assert forall|i: int, j: int| 0 <= i < j < r.len() implies seq_less(
            #[trigger] r[i].0,
            #[trigger] r[j].0,
        ) by {
            if i == 0 {
                assert(r[j] == ti[j - 1]);
            } else {
                assert(r[i] == ti[i - 1] && r[j] == ti[j - 1]);
            }
        }
        assert forall|k: int| 0 <= k < r.len() implies #[trigger] r[k] == p || (r[k].0 != p.0
            && refs.contains(r[k])) by {
            if k == 0 {
                assert(refs[0] == r[0]);
            } else {
                assert(r[k] == ti[k - 1]);
                if ti[k - 1] != p {
                    let w = choose|w: int| 0 <= w < t.len() && t[w] == ti[k - 1];
                    assert(refs[w + 1] == r[k]);
                }
            }
        }
        let w = choose|w: int| 0 <= w < ti.len() && ti[w] == p;
        assert(r[w + 1] == p);
        assert forall|k: int| 0 <= k < refs.len() && #[trigger] refs[k].0 != p.0 implies r.contains(refs[k]) by {
            if k == 0 {
                assert(r[0] == refs[0]);
            } else {
                assert(t[k - 1] == refs[k]);
                let w2 = choose|w2: int| 0 <= w2 < ti.len() && ti[w2] == t[k - 1];
                assert(r[w2 + 1] == refs[k]);
            }
        }
    }
}

/// Stores `page` under its slug, replacing a page with the same slug
/// (`BTreeMap::insert` on a map keyed by slug).
pub fn insert_reference(refs: &mut Vec<SkillPage>, page: SkillPage)
    ensures
        final(refs).deep_view() == refs_insert(old(refs).deep_view(), page.deep_view()),
{
    let ghost pv = page.deep_view();
    let ghost ov = refs.deep_view();
    let mut i: usize = 0;
    while i < refs.len() && str_less(refs[i].slug.as_str(), page.slug.as_str())
        invariant
            i <= refs@.len(),
            ov == refs.deep_view(),
            pv == page.deep_view(),
            refs.deep_view() == old(refs).deep_view(),
            forall|m: int| 0 <= m < i ==> seq_less(#[trigger] ov[m].0, pv.0),
        decreases refs.len() - i,
    {
        assert(ov[i as int].0 == refs@[i as int].slug@);
        i = i + 1;
    }
    proof {
        lemma_refs_insert_skip(ov, pv, i as int);
    }
    let ghost old_refs = refs@;
    assert(i < refs@.len() ==> ov[i as int].0 == refs@[i as int].slug@);
    if i < refs.len() && str_eq(refs[i].slug.as_str(), page.slug.as_str()) {
        refs.set(i, page);
        assert(refs.deep_view() =~= ov.take(i as int) + refs_insert(ov.skip(i as int), pv)) by {
            assert(ov.skip(i as int)[0] == ov[i as int]);
            assert(refs_insert(ov.skip(i as int), pv) =~= seq![pv] + ov.skip(i + 1));
            assert forall|m: int| 0 <= m < refs@.len() implies #[trigger] refs.deep_view()[m]
                == (ov.take(i as int) + refs_insert(ov.skip(i as int), pv))[m] by {
                if m != i {
                    assert(refs@[m] == old_refs[m]);
                }
            }
        }
    } else {
        refs.insert(i, page);
        assert(refs.deep_view() =~= ov.take(i as int) + refs_insert(ov.skip(i as int), pv)) by {
            if i < ov.len() {
                assert(ov.skip(i as int)[0] == ov[i as int]);
                lemma_less_total(pv.0, ov[i as int].0);
                assert(refs_insert(ov.skip(i as int), pv) =~= seq![pv] + ov.skip(i as int));
            } else {
                assert(ov.skip(i as int) =~= Seq::<PageView>::empty());
                assert(refs_insert(ov.skip(i as int), pv) =~= seq![pv]);
            }
            assert forall|m: int| 0 <= m < refs@.len() implies #[trigger] refs.deep_view()[m]
                == (ov.take(i as int) + refs_insert(ov.skip(i as int), pv))[m] by {
                if m < i {
                    assert(refs@[m] == old_refs[m]);
                } else if m > i {
                    assert(refs@[m] == old_refs[m - 1]);
                }
            }
        }
    }
}

} // verus!
