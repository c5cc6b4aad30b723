use vstd::prelude::*;

use crate::errors::Error;
use crate::strutil::str_has_exec;

verus! {

// The filesystem state the version manager owns, as plain data: the cached
// versions under the cache root, and the two links in the binary directory
// that mark one of them active. The store is the single place where
// activation and removal decisions are made; the process that mirrors them
// onto the real filesystem performs exactly what these methods decide.

/// One cached version: its directory name (the release tag) and which of the
/// two executables its platform subdirectory holds.
#[derive(Clone, Debug, PartialEq)]
pub struct CachedVersion {
    pub tag: String,
    pub has_primary: bool,
    pub has_auxiliary: bool,
}

/// The mathematical image of a cached version.
#[verifier::ext_equal]
pub ghost struct CachedM {
    pub tag: Seq<char>,
    pub has_primary: bool,
    pub has_auxiliary: bool,
}

impl View for CachedVersion {
    type V = CachedM;

    open spec fn view(&self) -> CachedM {
        CachedM {
            tag: self.tag@,
            has_primary: self.has_primary,
            has_auxiliary: self.has_auxiliary,
        }
    }
}

impl DeepView for CachedVersion {
    type V = CachedM;

    open spec fn deep_view(&self) -> CachedM {
        self@
    }
}

/// The store: cached versions plus the active links. Link targets are kept
/// as path components relative to the cache root; a well-formed target is
/// `[tag, platform, executable]`.
#[derive(Clone, Debug, PartialEq)]
pub struct Store {
    pub platform: String,
    pub primary_name: String,
    pub auxiliary_name: String,
    pub cached: Vec<CachedVersion>,
    pub primary_link: Option<Vec<String>>,
    pub auxiliary_link: Option<Vec<String>>,
}

/// The mathematical image of the store.
#[verifier::ext_equal]
pub ghost struct StoreM {
    pub platform: Seq<char>,
    pub primary_name: Seq<char>,
    pub auxiliary_name: Seq<char>,
    pub cached: Seq<CachedM>,
    pub primary_link: Option<Seq<Seq<char>>>,
    pub auxiliary_link: Option<Seq<Seq<char>>>,
}

impl View for Store {
    type V = StoreM;

    open spec fn view(&self) -> StoreM {
        StoreM {
            platform: self.platform@,
            primary_name: self.primary_name@,
            auxiliary_name: self.auxiliary_name@,
            cached: self.cached.deep_view(),
            primary_link: self.primary_link.deep_view(),
            auxiliary_link: self.auxiliary_link.deep_view(),
        }
    }
}

/// Cached directory names are unique: the cache holds at most one directory
/// per tag.
pub open spec fn unique_tags(s: Seq<CachedM>) -> bool {
    forall|i: int, j: int|
        0 <= i < j < s.len() ==> (#[trigger] s[i]).tag != (#[trigger] s[j]).tag
}

/// The store's invariant.
pub open spec fn store_wf(m: StoreM) -> bool {
    unique_tags(m.cached)
}

/// Some cached version carries this tag.
pub open spec fn has_tag(s: Seq<CachedM>, tag: Seq<char>) -> bool {
    exists|i: int| 0 <= i < s.len() && (#[trigger] s[i]).tag == tag
}

/// The position of the cached version with this tag.
pub open spec fn tag_index(s: Seq<CachedM>, tag: Seq<char>) -> int {
    choose|i: int| 0 <= i < s.len() && (#[trigger] s[i]).tag == tag
}

/// The cached version with this tag.
pub open spec fn entry_of(s: Seq<CachedM>, tag: Seq<char>) -> CachedM {
    s[tag_index(s, tag)]
}

/// With unique tags, any position holding the tag is the position.
pub proof fn lemma_tag_index_unique(s: Seq<CachedM>, tag: Seq<char>, i: int)
    requires
        unique_tags(s),
        0 <= i < s.len(),
        s[i].tag == tag,
    ensures
        tag_index(s, tag) == i,
        entry_of(s, tag) == s[i],
        has_tag(s, tag),
{
    assert(has_tag(s, tag));
    let j = tag_index(s, tag);
    if i < j {
        assert(s[i].tag != s[j].tag);
    } else if j < i {
        assert(s[j].tag != s[i].tag);
    }
}

/// The link target activation writes for a version: the tag's directory,
/// the platform subdirectory, the executable.
pub open spec fn link_path(tag: Seq<char>, platform: Seq<char>, name: Seq<char>) -> Seq<Seq<char>> {
    seq![tag, platform, name]
}

/// What resolving the active version yields: no link is the no-active-version
/// error; a link whose target is too shallow to name a version two directory
/// levels up is the broken-link error; otherwise the component two levels
/// above the executable is the version tag.
pub open spec fn active_result(m: StoreM) -> Result<Seq<char>, Error> {
    match m.primary_link {
        Option::None => Result::Err(Error::NoActiveVersion),
        Option::Some(p) => if p.len() < 3 {
            Result::Err(Error::BrokenLink)
        } else {
            Result::Ok(p[p.len() - 3])
        },
    }
}

/// A successful activation of `v`: the cache and configuration are
/// untouched, the primary link now points at `v`'s primary executable, and
/// the auxiliary link points at `v`'s auxiliary executable when the version
/// ships one — otherwise it is left exactly as it was.
pub open spec fn activation_ok(pre: StoreM, post: StoreM, v: Seq<char>) -> bool {
    &&& has_tag(pre.cached, v)
    &&& entry_of(pre.cached, v).has_primary
    &&& post.cached == pre.cached
    &&& post.platform == pre.platform
    &&& post.primary_name == pre.primary_name
    &&& post.auxiliary_name == pre.auxiliary_name
    &&& post.primary_link == Option::Some(link_path(v, pre.platform, pre.primary_name))
    &&& post.auxiliary_link == (if entry_of(pre.cached, v).has_auxiliary {
        Option::Some(link_path(v, pre.platform, pre.auxiliary_name))
    } else {
        pre.auxiliary_link
    })
}

/// Removing one tag from the cache: the entry with that tag goes, everything
/// else stays in place.
pub open spec fn remove_tag(s: Seq<CachedM>, tag: Seq<char>) -> Seq<CachedM> {
    if has_tag(s, tag) {
        s.remove(tag_index(s, tag))
    } else {
        s
    }
}

/// Batch removal, one requested version after the other: a version that is
/// cached at its turn is dropped from the cache; one that is not becomes a
/// "nothing to do" notice. Returns the remaining cache and the notices in
/// request order.
pub open spec fn remove_steps(s: Seq<CachedM>, versions: Seq<Seq<char>>) -> (Seq<CachedM>, Seq<
    Seq<char>,
>)
    decreases versions.len(),
{
    if versions.len() == 0 {
        (s, Seq::empty())
    } else {
        let (c, n) = remove_steps(s, versions.drop_last());
        let v = versions.last();
        if has_tag(c, v) {
            (remove_tag(c, v), n)
        } else {
            (c, n.push(v))
        }
    }
}

/// A version list contains this tag.
pub open spec fn contains_tag(vs: Seq<Seq<char>>, tag: Seq<char>) -> bool {
    exists|k: int| 0 <= k < vs.len() && vs[k] == tag
}

/// A completed batch removal of `versions`: the cache and the notices are
/// the fold of the requests, both links are gone exactly when
/// `links_cleared` (the forced removal of the active version — unforced,
/// the operation would have been rejected), and the configuration stays.
pub open spec fn removal_ok(
    pre: StoreM,
    post: StoreM,
    versions: Seq<Seq<char>>,
    links_cleared: bool,
    notices: Seq<Seq<char>>,
) -> bool {
    &&& post.cached == remove_steps(pre.cached, versions).0
    &&& notices == remove_steps(pre.cached, versions).1
    &&& post.primary_link == (if links_cleared {
        Option::<Seq<Seq<char>>>::None
    } else {
        pre.primary_link
    })
    &&& post.auxiliary_link == (if links_cleared {
        Option::<Seq<Seq<char>>>::None
    } else {
        pre.auxiliary_link
    })
    &&& post.platform == pre.platform
    &&& post.primary_name == pre.primary_name
    &&& post.auxiliary_name == pre.auxiliary_name
}

/// Recording an extracted version: an already-cached tag is overwritten in
/// place, a new tag is appended.
pub open spec fn store_install(
    s: Seq<CachedM>,
    tag: Seq<char>,
    has_primary: bool,
    has_auxiliary: bool,
) -> Seq<CachedM> {
    let e = CachedM { tag, has_primary, has_auxiliary };
    if has_tag(s, tag) {
        s.update(tag_index(s, tag), e)
    } else {
        s.push(e)
    }
}

proof fn lemma_unique_remove(s: Seq<CachedM>, i: int)
    requires
        unique_tags(s),
        0 <= i < s.len(),
    ensures
        unique_tags(s.remove(i)),
{
    let t = s.remove(i);
    assert forall|a: int, b: int| 0 <= a < b < t.len() implies (#[trigger] t[a]).tag != (
    #[trigger] t[b]).tag by {
        let a0 = if a < i {
            a
        } else {
            a + 1
        };
        let b0 = if b < i {
            b
        } else {
            b + 1
        };
        assert(t[a] == s[a0] && t[b] == s[b0]);
        assert(s[a0].tag != s[b0].tag);
    }
}

/// Finds the position of a version in the cache list.
fn find_in(cached: &Vec<CachedVersion>, version: &String) -> (r: Option<usize>)
    ensures
        match r {
            Option::Some(i) => i < cached.deep_view().len() && cached.deep_view()[i as int].tag
                == version@,
            Option::None => !has_tag(cached.deep_view(), version@),
        },
{
    let mut i: usize = 0;
    while i < cached.len()
        invariant
            i <= cached.len(),
            forall|k: int| 0 <= k < i ==> (#[trigger] cached.deep_view()[k]).tag != version@,
        decreases cached.len() - i,
    {
        if cached[i].tag.eq(version) {
            return Some(i);
        }
        i = i + 1;
    }
    None
}

impl Store {
    /// An empty store for the given platform and executable names: nothing
    /// cached, no links.
    pub fn new(platform: String, primary_name: String, auxiliary_name: String) -> (r: Store)
        ensures
            store_wf(r@),
            r@.platform == platform@,
            r@.primary_name == primary_name@,
            r@.auxiliary_name == auxiliary_name@,
            r@.cached == Seq::<CachedM>::empty(),
            r@.primary_link is None,
            r@.auxiliary_link is None,
    {
        let r = Store {
            platform,
            primary_name,
            auxiliary_name,
            cached: Vec::new(),
            primary_link: None,
            auxiliary_link: None,
        };
        proof {
            assert(r@.cached =~= Seq::<CachedM>::empty());
        }
        r
    }

    /// Whether this version's directory exists in the cache. A directory's
    /// presence is what the installed-check looks at.
    pub fn is_helm_installed(&self, version: &str) -> (r: bool)
        ensures
            r == has_tag(self@.cached, version@),
    {
        let v = String::from_str(version);
        match find_in(&self.cached, &v) {
            Some(_) => true,
            None => false,
        }
    }

    /// The cache directory names, in cache order.
    pub fn list(&self) -> (r: Vec<String>)
        ensures
            r.deep_view() == self@.cached.map_values(|c: CachedM| c.tag),
    {
        let mut r: Vec<String> = Vec::new();
        let mut i: usize = 0;
        while i < self.cached.len()
            invariant
                i <= self.cached.len(),
                r.deep_view().len() == i,
                forall|k: int|
                    0 <= k < i ==> r.deep_view()[k] == (#[trigger] self@.cached[k]).tag,
            decreases self.cached.len() - i,
        {
            r.push(self.cached[i].tag.clone());
            i = i + 1;
        }
        proof {
            assert(r.deep_view() =~= self@.cached.map_values(|c: CachedM| c.tag));
        }
        r
    }

    /// The cache path for a version, relative to the cache root: its own
    /// directory. Pure construction, no existence check.
    pub fn path_for(&self, version: &str) -> (r: Vec<String>)
        ensures
            r.deep_view() == seq![version@],
    {
        let mut r: Vec<String> = Vec::new();
        r.push(String::from_str(version));
        proof {
            assert(r.deep_view() =~= seq![version@]);
        }
        r
    }

    /// Resolves the active version from the primary link.
    pub fn get_active(&self) -> (r: Result<String, Error>)
        ensures
            match active_result(self@) {
                Result::Ok(t) => r is Ok && r->Ok_0@ == t,
                Result::Err(e) => r is Err && r->Err_0 == e,
            },
    {
        match &self.primary_link {
            None => Err(Error::NoActiveVersion),
            Some(p) => {
                if p.len() < 3 {
                    Err(Error::BrokenLink)
                } else {
                    Ok(p[p.len() - 3].clone())
                }
            },
        }
    }

    /// Records that a version's archive was fully extracted into the cache,
    /// with the executables found in it. Re-extraction overwrites in place.
    pub fn record_install(&mut self, version: &str, has_primary: bool, has_auxiliary: bool)
        requires
            store_wf(old(self)@),
        ensures
            store_wf(final(self)@),
            final(self)@.cached == store_install(
                old(self)@.cached,
                version@,
                has_primary,
                has_auxiliary,
            ),
            final(self)@.platform == old(self)@.platform,
            final(self)@.primary_name == old(self)@.primary_name,
            final(self)@.auxiliary_name == old(self)@.auxiliary_name,
            final(self)@.primary_link == old(self)@.primary_link,
            final(self)@.auxiliary_link == old(self)@.auxiliary_link,
    {
        let v = String::from_str(version);
        let entry = CachedVersion { tag: v.clone(), has_primary, has_auxiliary };
        let ghost pre = self@.cached;
        let ghost em = entry@;
        match find_in(&self.cached, &v) {
            Some(i) => {
                self.cached.remove(i);
                self.cached.insert(i, entry);
                proof {
                    lemma_tag_index_unique(pre, version@, i as int);
                    assert(self@.cached =~= pre.update(i as int, em));
                    assert(unique_tags(self@.cached)) by {
                        let t = self@.cached;
                        assert forall|a: int, b: int| 0 <= a < b < t.len() implies (
                        #[trigger] t[a]).tag != (#[trigger] t[b]).tag by {
                            assert(t[a].tag == pre[a].tag && t[b].tag == pre[b].tag);
                        }
                    }
                }
            },
            None => {
                self.cached.push(entry);
                proof {
                    assert(self@.cached =~= pre.push(em));
                    assert(unique_tags(self@.cached)) by {
                        let t = self@.cached;
                        assert forall|a: int, b: int| 0 <= a < b < t.len() implies (
                        #[trigger] t[a]).tag != (#[trigger] t[b]).tag by {
                            if b < t.len() - 1 {
                                assert(t[a] == pre[a] && t[b] == pre[b]);
                            } else {
                                assert(t[a] == pre[a] && t[b] == em);
                                assert(!has_tag(pre, version@));
                            }
                        }
                    }
                }
            },
        }
    }

    /// Marks a cached version active. Succeeds exactly when the version is
    /// cached with its primary executable present; the primary link is
    /// replaced, the auxiliary link only when the version ships the
    /// auxiliary executable. Returns whether to warn that a version of the
    /// release family expected to ship the auxiliary executable lacks it.
    pub fn activate(&mut self, version: &str) -> (r: Result<bool, Error>)
        requires
            store_wf(old(self)@),
        ensures
            store_wf(final(self)@),
            r is Ok <==> has_tag(old(self)@.cached, version@) && entry_of(
                old(self)@.cached,
                version@,
            ).has_primary,
            r is Ok ==> activation_ok(old(self)@, final(self)@, version@) && r->Ok_0 == (
            !entry_of(old(self)@.cached, version@).has_auxiliary && crate::strutil::str_has(
                version@,
                "v2"@,
            )),
            r is Err ==> final(self)@ == old(self)@ && r->Err_0 == Error::Link,
    {
        let v = String::from_str(version);
        match find_in(&self.cached, &v) {
            None => Err(Error::Link),
            Some(i) => {
                proof {
                    lemma_tag_index_unique(old(self)@.cached, version@, i as int);
                }
                if !self.cached[i].has_primary {
                    return Err(Error::Link);
                }
                let primary = vec![
                    v.clone(),
                    self.platform.clone(),
                    self.primary_name.clone(),
                ];
                let has_aux = self.cached[i].has_auxiliary;
                if has_aux {
                    let aux = vec![v.clone(), self.platform.clone(), self.auxiliary_name.clone()];
                    proof {
                        assert(aux.deep_view() =~= link_path(
                            version@,
                            old(self)@.platform,
                            old(self)@.auxiliary_name,
                        ));
                    }
                    self.auxiliary_link = Some(aux);
                }
                proof {
                    assert(primary.deep_view() =~= link_path(
                        version@,
                        old(self)@.platform,
                        old(self)@.primary_name,
                    ));
                }
                self.primary_link = Some(primary);
                let warn = !has_aux && str_has_exec(version, "v2");
                Ok(warn)
            },
        }
    }

    /// Removes the given versions. If the current active version is among
    /// them the whole operation is rejected unless forced; forcing deletes
    /// both links first. With no active version set, no requested version
    /// can equal it, so removal simply proceeds. A link whose target cannot
    /// be decomposed is the one failure: the active version cannot be
    /// compared then. Each version cached at its turn is deleted; each one
    /// not cached is returned as a non-fatal notice, and processing
    /// continues.
    pub fn remove(&mut self, versions: &Vec<String>, force: bool) -> (r: Result<
        Vec<String>,
        Error,
    >)
        requires
            store_wf(old(self)@),
        ensures
            store_wf(final(self)@),
            active_result(old(self)@) == Result::<Seq<char>, Error>::Err(Error::BrokenLink)
                ==> r is Err && r->Err_0 == Error::BrokenLink && final(self)@ == old(self)@,
            active_result(old(self)@) is Ok && contains_tag(
                versions.deep_view(),
                active_result(old(self)@)->Ok_0,
            ) && !force ==> r is Err && r->Err_0 == Error::RemoveActive && final(self)@ == old(self)@,
            active_result(old(self)@) is Ok && (force || !contains_tag(
                versions.deep_view(),
                active_result(old(self)@)->Ok_0,
            )) ==> r is Ok && removal_ok(
                old(self)@,
                final(self)@,
                versions.deep_view(),
                contains_tag(versions.deep_view(), active_result(old(self)@)->Ok_0),
                r->Ok_0.deep_view(),
            ),
            active_result(old(self)@) == Result::<Seq<char>, Error>::Err(Error::NoActiveVersion)
                ==> r is Ok && removal_ok(
                old(self)@,
                final(self)@,
                versions.deep_view(),
                false,
                r->Ok_0.deep_view(),
            ),
    {
        let mut cleared = false;
        match self.get_active() {
            Err(Error::BrokenLink) => {
                return Err(Error::BrokenLink);
            },
            Err(_) => {
                // No active version exists, so none of the requested
                // versions can be it: removal proceeds as for non-active
                // versions.
            },
            Ok(active) => {
                let mut in_list = false;
                let mut j: usize = 0;
                while j < versions.len()
                    invariant
                        j <= versions.len(),
                        in_list == exists|k: int|
                            0 <= k < j && versions.deep_view()[k] == active@,
                    decreases versions.len() - j,
                {
                    if versions[j].eq(&active) {
                        in_list = true;
                        proof {
                            assert(versions.deep_view()[j as int] == active@);
                        }
                    }
                    j = j + 1;
                }
                proof {
                    assert(in_list == contains_tag(versions.deep_view(), active@));
                }
                if in_list {
                    if force {
                        self.primary_link = None;
                        self.auxiliary_link = None;
                        cleared = true;
                    } else {
                        return Err(Error::RemoveActive);
                    }
                }
            },
        }
        let ghost pre = self@.cached;
        let mut notices: Vec<String> = Vec::new();
        let mut k: usize = 0;
        proof {
            assert(versions.deep_view().take(0) =~= Seq::<Seq<char>>::empty());
            assert(notices.deep_view() =~= Seq::<Seq<char>>::empty());
        }
        while k < versions.len()
            invariant
                k <= versions.len(),
                unique_tags(self@.cached),
                self@.cached == remove_steps(pre, versions.deep_view().take(k as int)).0,
                notices.deep_view() == remove_steps(pre, versions.deep_view().take(k as int)).1,
                self@.platform == old(self)@.platform,
                self@.primary_name == old(self)@.primary_name,
                self@.auxiliary_name == old(self)@.auxiliary_name,
                self@.primary_link == (
                if cleared {
                    Option::<Seq<Seq<char>>>::None
                } else {
                    old(self)@.primary_link
                }),
                self@.auxiliary_link == (
                if cleared {
                    Option::<Seq<Seq<char>>>::None
                } else {
                    old(self)@.auxiliary_link
                }),
            decreases versions.len() - k,
        {
            let ghost cur = self@.cached;
            let ghost taken = versions.deep_view().take(k as int);
            let ghost next = versions.deep_view().take(k as int + 1);
            proof {
                assert(next.drop_last() =~= taken);
                assert(next.last() == versions.deep_view()[k as int]);
            }
            match find_in(&self.cached, &versions[k]) {
                Some(i) => {
                    proof {
                        lemma_tag_index_unique(cur, versions.deep_view()[k as int], i as int);
                        lemma_unique_remove(cur, i as int);
                    }
                    self.cached.remove(i);
                    proof {
                        assert(self@.cached =~= cur.remove(i as int));
                    }
                },
                None => {
                    notices.push(versions[k].clone());
                    proof {
                        assert(notices.deep_view() =~= remove_steps(pre, taken).1.push(
                            versions.deep_view()[k as int],
                        ));
                    }
                },
            }
            k = k + 1;
        }
        proof {
            assert(versions.deep_view().take(versions.deep_view().len() as int) =~= versions
                .deep_view());
        }
        Ok(notices)
    }

    /// Removes every cached version but the active one. The links and the
    /// active version's own cache directory stay.
    pub fn prune(&mut self) -> (r: Result<(), Error>)
        requires
            store_wf(old(self)@),
        ensures
            store_wf(final(self)@),
            active_result(old(self)@) is Err ==> r is Err && r->Err_0 == active_result(
                old(self)@,
            )->Err_0 && final(self)@ == old(self)@,
            active_result(old(self)@) is Ok ==> r is Ok && final(self)@.cached == old(self)@.cached.filter(
                |c: CachedM| c.tag == active_result(old(self)@)->Ok_0,
            ) && final(self)@.platform == old(self)@.platform && final(self)@.primary_name == old(self)@.primary_name && final(self)@.auxiliary_name == old(self)@.auxiliary_name
                && final(self)@.primary_link == old(self)@.primary_link && final(self)@.auxiliary_link == old(self)@.auxiliary_link,
    {
        let active = match self.get_active() {
            Ok(a) => a,
            Err(e) => {
                return Err(e);
            },
        };
        let ghost pre = self@.cached;
        let ghost keep = |c: CachedM| c.tag == active_result(old(self)@)->Ok_0;
        let mut retained: Vec<CachedVersion> = Vec::new();
        let mut i: usize = 0;
        proof {
            reveal(Seq::filter);
            assert(retained.deep_view() =~= Seq::<CachedM>::empty());
            assert(pre.take(0) =~= Seq::<CachedM>::empty());
            assert(pre.take(0).filter(keep) =~= Seq::<CachedM>::empty());
        }
        while i < self.cached.len()
            invariant
                i <= self.cached.len(),
                self@.cached == pre,
                active@ == active_result(old(self)@)->Ok_0,
                keep == (|c: CachedM| c.tag == active_result(old(self)@)->Ok_0),
                retained.deep_view() == pre.take(i as int).filter(keep),
                retained.deep_view().len() <= i,
            decreases self.cached.len() - i,
        {
            let ghost before = retained.deep_view();
            if self.cached[i].tag.eq(&active) {
                retained.push(
                    CachedVersion {
                        tag: self.cached[i].tag.clone(),
                        has_primary: self.cached[i].has_primary,
                        has_auxiliary: self.cached[i].has_auxiliary,
                    },
                );
            }
            proof {
                reveal(Seq::filter);
                let a = pre.take(i as int);
                let b = pre.take(i as int + 1);
                assert(b.drop_last() =~= a);
                assert(b.last() == pre[i as int]);
                if keep(pre[i as int]) {
                    assert(retained.deep_view() =~= before.push(pre[i as int]));
                } else {
                    assert(retained.deep_view() =~= before);
                }
            }
            i = i + 1;
        }
        proof {
            assert(pre.take(pre.len() as int) =~= pre);
        }
        self.cached = retained;
        proof {
            lemma_filter_keeps_unique(pre, keep);
        }
        Ok(())
    }

    /// Removes the installed tool altogether: deletes both links and the
    /// active version's cache directory. Fails as resolving the active
    /// version fails.
    pub fn uninstall(&mut self) -> (r: Result<(), Error>)
        requires
            store_wf(old(self)@),
        ensures
            store_wf(final(self)@),
            active_result(old(self)@) is Err ==> r is Err && r->Err_0 == active_result(
                old(self)@,
            )->Err_0 && final(self)@ == old(self)@,
            active_result(old(self)@) is Ok ==> r is Ok && final(self)@.primary_link is None
                && final(self)@.auxiliary_link is None && final(self)@.cached == remove_steps(
                old(self)@.cached,
                seq![active_result(old(self)@)->Ok_0],
            ).0 && final(self)@.platform == old(self)@.platform && final(self)@.primary_name
                == old(self)@.primary_name && final(self)@.auxiliary_name == old(
                self,
            )@.auxiliary_name,
    {
        let active = match self.get_active() {
            Ok(a) => a,
            Err(e) => {
                return Err(e);
            },
        };
        let ghost a = active@;
        let mut versions: Vec<String> = Vec::new();
        versions.push(active);
        proof {
            assert(versions.deep_view() =~= seq![a]);
            assert(versions.deep_view()[0] == a);
            assert(contains_tag(versions.deep_view(), a));
        }
        match self.remove(&versions, true) {
            Ok(_) => Ok(()),
            Err(e) => Err(e),
        }
    }

    /// The paths of a version's executables, relative to the cache root: the
    /// primary's path, and the auxiliary's when present. With no version
    /// given, the active version is looked up. Fails when the version has no
    /// primary executable in the cache.
    pub fn which(&self, version: Option<&str>) -> (r: Result<(Vec<String>, Option<Vec<String>>), Error>)
        requires
            store_wf(self@),
        ensures
            match version {
                Option::Some(v) => which_result_matches(self@, v@, r),
                Option::None => match active_result(self@) {
                    Result::Err(e) => r is Err && r->Err_0 == e,
                    Result::Ok(a) => which_result_matches(self@, a, r),
                },
            },
    {
        let v: String = match version {
            Some(s) => String::from_str(s),
            None => {
                match self.get_active() {
                    Ok(a) => a,
                    Err(e) => {
                        return Err(e);
                    },
                }
            },
        };
        match find_in(&self.cached, &v) {
            None => Err(Error::NotFound),
            Some(i) => {
                proof {
                    lemma_tag_index_unique(self@.cached, v@, i as int);
                }
                if !self.cached[i].has_primary {
                    return Err(Error::NotFound);
                }
                let primary = vec![v.clone(), self.platform.clone(), self.primary_name.clone()];
                proof {
                    assert(primary.deep_view() =~= link_path(
                        v@,
                        self@.platform,
                        self@.primary_name,
                    ));
                }
                if self.cached[i].has_auxiliary {
                    let aux = vec![v.clone(), self.platform.clone(), self.auxiliary_name.clone()];
                    proof {
                        assert(aux.deep_view() =~= link_path(
                            v@,
                            self@.platform,
                            self@.auxiliary_name,
                        ));
                    }
                    Ok((primary, Some(aux)))
                } else {
                    Ok((primary, None))
                }
            },
        }
    }
}

/// What the executable-path lookup returns for a version: its two paths when
/// the primary executable is cached, the not-found error otherwise.
pub open spec fn which_result_matches(
    m: StoreM,
    v: Seq<char>,
    r: Result<(Vec<String>, Option<Vec<String>>), Error>,
) -> bool {
    if has_tag(m.cached, v) && entry_of(m.cached, v).has_primary {
        &&& r is Ok
        &&& r->Ok_0.0.deep_view() == link_path(v, m.platform, m.primary_name)
        &&& (if entry_of(m.cached, v).has_auxiliary {
            r->Ok_0.1 is Some && r->Ok_0.1->0.deep_view() == link_path(
                v,
                m.platform,
                m.auxiliary_name,
            )
        } else {
            r->Ok_0.1 is None
        })
    } else {
        r is Err && r->Err_0 == Error::NotFound
    }
}

/// Unique tags survive filtering.
proof fn lemma_filter_keeps_unique(s: Seq<CachedM>, p: spec_fn(CachedM) -> bool)
    requires
        unique_tags(s),
    ensures
        unique_tags(s.filter(p)),
    decreases s.len(),
{
    reveal(Seq::filter);
    if s.len() > 0 {
        let dl = s.drop_last();
        assert(unique_tags(dl)) by {
            assert forall|a: int, b: int| 0 <= a < b < dl.len() implies (#[trigger] dl[a]).tag != (
            #[trigger] dl[b]).tag by {
                assert(dl[a] == s[a] && dl[b] == s[b]);
            }
        }
        lemma_filter_keeps_unique(dl, p);
        if p(s.last()) {
            let f = dl.filter(p);
            assert forall|a: int| 0 <= a < f.len() implies (#[trigger] f[a]).tag != s.last().tag by {
                lemma_filter_member_index(dl, p, a);
                let j = choose|j: int| 0 <= j < dl.len() && dl[j] == f[a];
                assert(s[j] == f[a]);
                assert(s[j].tag != s[s.len() - 1].tag);
            }
            assert(s.filter(p) == f.push(s.last()));
            let t = s.filter(p);
            assert forall|a: int, b: int| 0 <= a < b < t.len() implies (#[trigger] t[a]).tag != (
            #[trigger] t[b]).tag by {
                if b < t.len() - 1 {
                    assert(t[a] == f[a] && t[b] == f[b]);
                } else {
                    assert(t[a] == f[a] && t[b] == s.last());
                }
            }
        }
    }
}

/// Every element the filter keeps came from the sequence.
proof fn lemma_filter_member_index(s: Seq<CachedM>, p: spec_fn(CachedM) -> bool, i: int)
    requires
        0 <= i < s.filter(p).len(),
    ensures
        exists|j: int| 0 <= j < s.len() && s[j] == s.filter(p)[i],
    decreases s.len(),
{
    reveal(Seq::filter);
    if s.len() > 0 {
        let dl = s.drop_last();
        if p(s.last()) && i == s.filter(p).len() - 1 {
            assert(s[s.len() - 1] == s.filter(p)[i]);
        } else {
            lemma_filter_member_index(dl, p, i);
            let j = choose|j: int| 0 <= j < dl.len() && dl[j] == dl.filter(p)[i];
            assert(s[j] == s.filter(p)[i]);
        }
    }
}

/// Law: removing one cached version deletes exactly its cache entry — no
/// notice is raised, and the tag is gone afterwards. With force this is the
/// removal of the active version, whose links the operation also deletes.
pub proof fn lemma_remove_single_cached(s: Seq<CachedM>, v: Seq<char>)
    requires
        unique_tags(s),
        has_tag(s, v),
    ensures
        remove_steps(s, seq![v]).0 == s.remove(tag_index(s, v)),
        remove_steps(s, seq![v]).1 == Seq::<Seq<char>>::empty(),
        !has_tag(remove_steps(s, seq![v]).0, v),
{
    let vs = seq![v];
    assert(vs.drop_last() =~= Seq::<Seq<char>>::empty());
    assert(remove_steps(s, vs.drop_last()) == (s, Seq::<Seq<char>>::empty()));
    assert(vs.last() == v);
    let i = tag_index(s, v);
    assert(0 <= i < s.len() && s[i].tag == v);
    let t = s.remove(i);
    assert(remove_steps(s, vs).0 == t);
    assert(!has_tag(t, v)) by {
        if has_tag(t, v) {
            let j = choose|j: int| 0 <= j < t.len() && (#[trigger] t[j]).tag == v;
            let j0 = if j < i {
                j
            } else {
                j + 1
            };
            assert(t[j] == s[j0]);
            assert(s[j0].tag == v);
            lemma_tag_index_unique(s, v, j0);
        }
    }
}

/// Law: activating a version cached in the store and then resolving the
/// active version yields that same version.
pub proof fn lemma_activate_round_trip(pre: StoreM, post: StoreM, v: Seq<char>)
    requires
        activation_ok(pre, post, v),
    ensures
        active_result(post) == Result::<Seq<char>, Error>::Ok(v),
{
    let p = link_path(v, pre.platform, pre.primary_name);
    assert(p.len() == 3);
    assert(p[0] == v);
}

/// Law: activating the same version twice ends in the same state as
/// activating it once, and the second activation is again owed success.
pub proof fn lemma_activate_idempotent(m0: StoreM, m1: StoreM, m2: StoreM, v: Seq<char>)
    requires
        activation_ok(m0, m1, v),
        activation_ok(m1, m2, v),
    ensures
        m2 == m1,
{
    assert(entry_of(m1.cached, v) == entry_of(m0.cached, v));
    if entry_of(m0.cached, v).has_auxiliary {
        assert(m2.auxiliary_link == m1.auxiliary_link);
    } else {
        assert(m1.auxiliary_link == m0.auxiliary_link);
        assert(m2.auxiliary_link == m1.auxiliary_link);
    }
    assert(m2 =~= m1);
}

} // verus!
