use vstd::prelude::*;

use crate::strutil::{
    lemma_str_le_total, lemma_str_le_trans, sorted_tags, str_has, str_has_exec, str_le,
    str_le_exec,
};

verus! {

// The release registry's descriptors, and the local half of listing them:
// dropping prereleases unless asked for, ordering ascending by tag, and
// narrowing to tags that contain a filter string. The network fetch and the
// payload decode happen outside; these functions take the decoded
// descriptors as values.

/// One upstream release descriptor: a tag and a prerelease flag.
#[derive(Debug, PartialEq)]
pub struct Release {
    pub tag_name: String,
    pub prerelease: bool,
}

/// The mathematical image of a release: its tag's characters and its flag.
pub ghost struct ReleaseM {
    pub tag: Seq<char>,
    pub prerelease: bool,
}

impl View for Release {
    type V = ReleaseM;

    open spec fn view(&self) -> ReleaseM {
        ReleaseM { tag: self.tag_name@, prerelease: self.prerelease }
    }
}

impl DeepView for Release {
    type V = ReleaseM;

    open spec fn deep_view(&self) -> ReleaseM {
        self@
    }
}

impl Clone for Release {
    fn clone(&self) -> (res: Self)
        ensures
            res@ == self@,
    {
        Release { tag_name: self.tag_name.clone(), prerelease: self.prerelease }
    }
}

/// An ordered list of release descriptors.
#[derive(Debug, PartialEq)]
pub struct Releases(pub Vec<Release>);

impl View for Releases {
    type V = Seq<ReleaseM>;

    open spec fn view(&self) -> Seq<ReleaseM> {
        self.0.deep_view()
    }
}

/// Which releases a listing keeps: prereleases only when asked for.
pub open spec fn keep_release(include_pre: bool) -> spec_fn(ReleaseM) -> bool {
    |r: ReleaseM| !r.prerelease || include_pre
}

/// Releases in ascending lexicographic order of their tags.
pub open spec fn sorted_by_tag(s: Seq<ReleaseM>) -> bool {
    forall|i: int, j: int| 0 <= i < j < s.len() ==> str_le(s[i].tag, s[j].tag)
}

/// The local half of listing releases: keeps prereleases only when
/// `include_pre`, and returns the kept descriptors ascending by tag. The
/// result holds exactly the kept descriptors, each as often as it was given.
pub fn filter_releases(list: Releases, include_pre: bool) -> (out: Releases)
    ensures
        sorted_by_tag(out@),
        out@.to_multiset() == list@.filter(keep_release(include_pre)).to_multiset(),
{
    let v = list.0;
    let ghost orig = v.deep_view();
    let ghost pred = keep_release(include_pre);
    let mut kept: Vec<Release> = Vec::new();
    let mut i: usize = 0;
    proof {
        reveal(Seq::filter);
        assert(kept.deep_view() =~= Seq::<ReleaseM>::empty());
        assert(orig.subrange(0, 0) =~= Seq::<ReleaseM>::empty());
        assert(orig.subrange(0, 0).filter(pred) =~= Seq::<ReleaseM>::empty());
    }
    while i < v.len()
        invariant
            i <= v.len(),
            v.deep_view() == orig,
            kept.deep_view() == orig.subrange(0, i as int).filter(keep_release(include_pre)),
        decreases v.len() - i,
    {
        let ghost pre = kept.deep_view();
        if !v[i].prerelease || include_pre {
            let r = v[i].clone();
            kept.push(r);
        }
        proof {
            reveal(Seq::filter);
            let a = orig.subrange(0, i as int);
            let b = orig.subrange(0, i as int + 1);
            assert(b.drop_last() =~= a);
            assert(b.last() == orig[i as int]);
            if keep_release(include_pre)(orig[i as int]) {
                assert(kept.deep_view() =~= pre.push(orig[i as int]));
            } else {
                assert(kept.deep_view() =~= pre);
            }
        }
        i = i + 1;
    }
    proof {
        assert(orig.subrange(0, orig.len() as int) =~= orig);
    }
    let sorted = sort_releases(kept);
    Releases(sorted)
}

/// Sorts release descriptors ascending by tag. The result is a
/// rearrangement: same descriptors, same multiplicities.
fn sort_releases(v: Vec<Release>) -> (out: Vec<Release>)
    ensures
        sorted_by_tag(out.deep_view()),
        out.deep_view().to_multiset() == v.deep_view().to_multiset(),
{
    let ghost orig = v.deep_view();
    let rest = v;
    let mut out: Vec<Release> = Vec::new();
    proof {
        broadcast use vstd::seq_lib::group_to_multiset_ensures;

        assert(out.deep_view() =~= Seq::<ReleaseM>::empty());
        assert(orig.skip(0) =~= orig);
        assert(out.deep_view().to_multiset().add(orig.skip(0).to_multiset()) =~= orig.to_multiset());
    }
    let mut i: usize = 0;
    while i < rest.len()
        invariant
            i <= rest.len(),
            rest.deep_view() == orig,
            sorted_by_tag(out.deep_view()),
            out.deep_view().to_multiset().add(orig.skip(i as int).to_multiset())
                == orig.to_multiset(),
        decreases rest.len() - i,
    {
        let x = rest[i].clone();
        let ghost xm = x@;
        let pos = insert_position_release(&out, &x);
        let ghost pre = out.deep_view();
        out.insert(pos, x);
        proof {
            broadcast use vstd::seq_lib::group_to_multiset_ensures;
            vstd::seq_lib::to_multiset_insert(pre, pos as int, xm);

            assert(out.deep_view() =~= pre.insert(pos as int, xm));
            assert(xm == orig[i as int]);
            assert(orig.skip(i as int) =~= orig.skip(i as int + 1).insert(0, orig[i as int]));
            vstd::seq_lib::to_multiset_insert(orig.skip(i as int + 1), 0, xm);
            assert(orig.skip(i as int).to_multiset() =~= orig.skip(
                i as int + 1,
            ).to_multiset().insert(xm));
            assert(out.deep_view().to_multiset() =~= pre.to_multiset().insert(xm));
            assert(out.deep_view().to_multiset().add(orig.skip(i as int + 1).to_multiset()) =~= pre
                .to_multiset().add(orig.skip(i as int).to_multiset()));
            assert(sorted_by_tag(out.deep_view())) by {
                let post = out.deep_view();
                assert forall|a: int, b: int| 0 <= a < b < post.len() implies str_le(
                    post[a].tag,
                    post[b].tag,
                ) by {
                    if b < pos {
                        assert(post[a] == pre[a] && post[b] == pre[b]);
                    } else if a > pos {
                        assert(post[a] == pre[a - 1] && post[b] == pre[b - 1]);
                    } else if a == pos && b > pos {
                        assert(post[b] == pre[b - 1]);
                    } else if b == pos {
                        assert(post[a] == pre[a]);
                    } else {
                        assert(post[a] == pre[a] && post[b] == pre[b - 1]);
                        lemma_str_le_trans(pre[a].tag, xm.tag, pre[b - 1].tag);
                    }
                }
            }
        }
        i = i + 1;
    }
    proof {
        broadcast use vstd::seq_lib::group_to_multiset_ensures;

        assert(orig.skip(i as int) =~= Seq::<ReleaseM>::empty());
        assert(out.deep_view().to_multiset().add(Seq::<ReleaseM>::empty().to_multiset()) =~= out
            .deep_view().to_multiset());
    }
    out
}

fn insert_position_release(out: &Vec<Release>, x: &Release) -> (pos: usize)
    requires
        sorted_by_tag(out.deep_view()),
    ensures
        pos <= out.len(),
        forall|k: int| 0 <= k < pos ==> str_le(out.deep_view()[k].tag, x@.tag),
        forall|k: int| pos <= k < out.deep_view().len() ==> str_le(x@.tag, out.deep_view()[k].tag),
{
    let mut pos: usize = 0;
    while pos < out.len()
        invariant
            pos <= out.len(),
            sorted_by_tag(out.deep_view()),
            forall|k: int| 0 <= k < pos ==> str_le(out.deep_view()[k].tag, x@.tag),
        decreases out.len() - pos,
    {
        if str_le_exec(out[pos].tag_name.as_str(), x.tag_name.as_str()) {
            pos = pos + 1;
        } else {
            proof {
                lemma_str_le_total(out.deep_view()[pos as int].tag, x@.tag);
                assert forall|k: int| pos <= k < out.deep_view().len() implies str_le(
                    x@.tag,
                    out.deep_view()[k].tag,
                ) by {
                    if k > pos {
                        lemma_str_le_trans(
                            x@.tag,
                            out.deep_view()[pos as int].tag,
                            out.deep_view()[k].tag,
                        );
                    }
                }
            }
            return pos;
        }
    }
    pos
}

/// The tag of every release whose tag contains `pat`, in the order given.
pub fn versions_filter(rels: &Releases, pat: &str) -> (out: Vec<String>)
    ensures
        out.deep_view() == rels@.map_values(|r: ReleaseM| r.tag).filter(
            |t: Seq<char>| str_has(t, pat@),
        ),
{
    let ghost tags = rels@.map_values(|r: ReleaseM| r.tag);
    let ghost pred = |t: Seq<char>| str_has(t, pat@);
    let mut out: Vec<String> = Vec::new();
    let mut i: usize = 0;
    proof {
        reveal(Seq::filter);
        assert(out.deep_view() =~= Seq::<Seq<char>>::empty());
        assert(tags.subrange(0, 0) =~= Seq::<Seq<char>>::empty());
        assert(tags.subrange(0, 0).filter(pred) =~= Seq::<Seq<char>>::empty());
    }
    while i < rels.0.len()
        invariant
            i <= rels.0.len(),
            tags == rels@.map_values(|r: ReleaseM| r.tag),
            pred == (|t: Seq<char>| str_has(t, pat@)),
            tags.len() == rels.0.len(),
            out.deep_view() == tags.subrange(0, i as int).filter(pred),
        decreases rels.0.len() - i,
    {
        let ghost pre = out.deep_view();
        if str_has_exec(rels.0[i].tag_name.as_str(), pat) {
            out.push(rels.0[i].tag_name.clone());
        }
        proof {
            reveal(Seq::filter);
            let a = tags.subrange(0, i as int);
            let b = tags.subrange(0, i as int + 1);
            assert(b.drop_last() =~= a);
            assert(b.last() == tags[i as int]);
            assert(tags[i as int] == rels@[i as int].tag);
            if pred(tags[i as int]) {
                assert(out.deep_view() =~= pre.push(tags[i as int]));
            } else {
                assert(out.deep_view() =~= pre);
            }
        }
        i = i + 1;
    }
    proof {
        assert(tags.subrange(0, tags.len() as int) =~= tags);
    }
    out
}

/// Ascending order survives filtering.
proof fn lemma_filter_keeps_sorted(s: Seq<Seq<char>>, p: spec_fn(Seq<char>) -> bool)
    requires
        sorted_tags(s),
    ensures
        sorted_tags(s.filter(p)),
    decreases s.len(),
{
    reveal(Seq::filter);
    broadcast use vstd::seq_lib::group_filter_ensures;

    if s.len() > 0 {
        let dl = s.drop_last();
        assert(sorted_tags(dl)) by {
            assert forall|i: int, j: int| 0 <= i < j < dl.len() implies str_le(dl[i], dl[j]) by {
                assert(dl[i] == s[i] && dl[j] == s[j]);
            }
        }
        lemma_filter_keeps_sorted(dl, p);
        if p(s.last()) {
            let f = dl.filter(p);
            assert forall|i: int| 0 <= i < f.len() implies str_le(f[i], s.last()) by {
                assert(dl.contains(f[i])) by {
                    lemma_filter_is_contained(dl, p, i);
                }
                let j = choose|j: int| 0 <= j <= dl.len() - 1 && dl[j] == f[i];
                assert(s[j] == f[i]);
                if j < s.len() - 1 {
                    assert(str_le(s[j], s.last()));
                } else {
                    lemma_str_le_total(s[j], s[j]);
                }
            }
            assert(s.filter(p) == f.push(s.last()));
        }
    }
}

/// Every element the filter keeps came from the sequence.
proof fn lemma_filter_is_contained(s: Seq<Seq<char>>, p: spec_fn(Seq<char>) -> bool, i: int)
    requires
        0 <= i < s.filter(p).len(),
    ensures
        s.contains(s.filter(p)[i]),
    decreases s.len(),
{
    reveal(Seq::filter);
    broadcast use vstd::seq_lib::group_filter_ensures;

    if s.len() > 0 {
        let dl = s.drop_last();
        if p(s.last()) && i == s.filter(p).len() - 1 {
            assert(s.filter(p)[i] == s.last());
            assert(s[s.len() - 1] == s.last());
        } else {
            lemma_filter_is_contained(dl, p, i);
            let j = choose|j: int| 0 <= j < dl.len() && dl[j] == dl.filter(p)[i];
            assert(s[j] == s.filter(p)[i]);
        }
    }
}

/// Some non-prerelease descriptor among `rels` carries the tag `t`.
pub open spec fn tag_of_nonprerelease(rels: Seq<ReleaseM>, t: Seq<char>) -> bool {
    exists|j: int| 0 <= j < rels.len() && (#[trigger] rels[j]).tag == t && !rels[j].prerelease
}

/// Law: a version listing that excludes prereleases and narrows by a filter
/// string returns only tags of non-prerelease releases that contain the
/// filter, in ascending order. `sorted` is what release filtering returns
/// for the fetched descriptors `rels`; `out` is what tag narrowing returns
/// for `sorted`.
pub proof fn lemma_versions_listing_law(
    rels: Seq<ReleaseM>,
    sorted: Seq<ReleaseM>,
    pat: Seq<char>,
    out: Seq<Seq<char>>,
)
    requires
        sorted.to_multiset() == rels.filter(keep_release(false)).to_multiset(),
        sorted_by_tag(sorted),
        out == sorted.map_values(|r: ReleaseM| r.tag).filter(|t: Seq<char>| str_has(t, pat)),
    ensures
        sorted_tags(out),
        forall|k: int| 0 <= k < out.len() ==> str_has(#[trigger] out[k], pat),
        forall|k: int| 0 <= k < out.len() ==> tag_of_nonprerelease(rels, #[trigger] out[k]),
{
    broadcast use vstd::seq_lib::group_filter_ensures;
    broadcast use vstd::seq_lib::group_to_multiset_ensures;

    let tags = sorted.map_values(|r: ReleaseM| r.tag);
    let p = |t: Seq<char>| str_has(t, pat);
    assert(sorted_tags(tags)) by {
        assert forall|i: int, j: int| 0 <= i < j < tags.len() implies str_le(tags[i], tags[j]) by {
            assert(tags[i] == sorted[i].tag && tags[j] == sorted[j].tag);
        }
    }
    lemma_filter_keeps_sorted(tags, p);
    assert forall|k: int| 0 <= k < out.len() implies str_has(#[trigger] out[k], pat) by {
        Seq::lemma_filter_pred(tags, p, k);
    }
    assert forall|k: int| 0 <= k < out.len() implies tag_of_nonprerelease(
        rels,
        #[trigger] out[k],
    ) by {
        lemma_filter_is_contained(tags, p, k);
        let i = choose|i: int| 0 <= i < tags.len() && tags[i] == out[k];
        assert(sorted[i].tag == out[k]);
        // The sorted listing holds the same descriptors as the filtered
        // fetch, so this descriptor occurs among the kept ones.
        assert(sorted.contains(sorted[i]));
        assert(sorted.to_multiset().count(sorted[i]) > 0);
        let kept = rels.filter(keep_release(false));
        assert(kept.to_multiset().count(sorted[i]) > 0);
        assert(kept.contains(sorted[i]));
        let m = choose|m: int| 0 <= m < kept.len() && kept[m] == sorted[i];
        assert(keep_release(false)(kept[m]));
        lemma_filter_member_source(rels, keep_release(false), m);
        let j = choose|j: int| 0 <= j < rels.len() && rels[j] == kept[m];
        assert(0 <= j < rels.len() && rels[j].tag == out[k] && !rels[j].prerelease);
    }
}

/// Every element the filter keeps came from the sequence.
proof fn lemma_filter_member_source(s: Seq<ReleaseM>, p: spec_fn(ReleaseM) -> bool, i: int)
    requires
        0 <= i < s.filter(p).len(),
    ensures
        exists|j: int| 0 <= j < s.len() && s[j] == s.filter(p)[i],
    decreases s.len(),
{
    reveal(Seq::filter);
    if s.len() > 0 {
        let dl = s.drop_last();
        if p(s.last()) && i == s.filter(p).len() - 1 {
            assert(s[s.len() - 1] == s.filter(p)[i]);
        } else {
            lemma_filter_member_source(dl, p, i);
            let j = choose|j: int| 0 <= j < dl.len() && dl[j] == dl.filter(p)[i];
            assert(s[j] == s.filter(p)[i]);
        }
    }
}

} // verus!
