use vstd::prelude::*;

use crate::errors::Error;
use crate::store::{active_result, has_tag, store_wf, Store};
use crate::strutil::{sort_strings, sorted_tags};

verus! {

// The interactive selector's state machine: a cursor over the installed
// versions, sorted ascending, starting on the active one. The terminal
// itself — raw mode, the alternate screen, key decoding — lives outside;
// this machine only maps a key to the next cursor position and to what the
// caller must do.

/// The selector: the sorted version list and the cursor position.
pub struct Selector {
    pub versions: Vec<String>,
    pub index: usize,
}

/// The mathematical image of the selector.
#[verifier::ext_equal]
pub ghost struct SelectorM {
    pub versions: Seq<Seq<char>>,
    pub index: int,
}

impl View for Selector {
    type V = SelectorM;

    open spec fn view(&self) -> SelectorM {
        SelectorM { versions: self.versions.deep_view(), index: self.index as int }
    }
}

/// The selector's invariant: a non-empty list and a cursor inside it.
pub open spec fn selector_wf(m: SelectorM) -> bool {
    m.versions.len() > 0 && 0 <= m.index < m.versions.len()
}

/// What a key means to the selector.
#[derive(Clone, Copy, Debug, PartialEq, Eq, Structural)]
pub enum SelectorKey {
    /// Move the cursor up.
    Up,
    /// Move the cursor down.
    Down,
    /// Activate the selected version and leave.
    Activate,
    /// Remove the selected version and leave.
    Remove,
    /// Leave without a side effect.
    Quit,
    /// Any other key.
    Other,
}

/// What the caller must do after a key.
#[derive(Clone, Copy, Debug, PartialEq, Eq, Structural)]
pub enum SelectorAction {
    /// Redraw the list with the new cursor.
    Redraw,
    /// Restore the terminal and exit with no side effect.
    Exit,
    /// Restore the terminal, activate the selected version, exit.
    ActivateExit,
    /// Restore the terminal, remove the selected version unforced, exit.
    RemoveExit,
    /// Stay in the loop; nothing changed.
    Ignore,
}

impl Selector {
    /// Builds the selector over a store: the installed versions sorted
    /// ascending, the cursor on the active one. Fails as resolving the
    /// active version fails, or with the not-found error when the active
    /// version has no cache directory to put the cursor on.
    pub fn new(store: &Store) -> (r: Result<Selector, Error>)
        requires
            store_wf(store@),
        ensures
            active_result(store@) is Err ==> r is Err && r->Err_0 == active_result(
                store@,
            )->Err_0,
            active_result(store@) is Ok && !has_tag(
                store@.cached,
                active_result(store@)->Ok_0,
            ) ==> r is Err && r->Err_0 == Error::NotFound,
            active_result(store@) is Ok && has_tag(store@.cached, active_result(store@)->Ok_0)
                ==> r is Ok && selector_wf(r->Ok_0@) && sorted_tags(r->Ok_0@.versions)
                && r->Ok_0@.versions.to_multiset() == store@.cached.map_values(
                |c: crate::store::CachedM| c.tag,
            ).to_multiset() && r->Ok_0@.versions[r->Ok_0@.index] == active_result(store@)->Ok_0,
    {
        let active = match store.get_active() {
            Ok(a) => a,
            Err(e) => {
                return Err(e);
            },
        };
        let versions = sort_strings(store.list());
        let mut i: usize = 0;
        while i < versions.len()
            invariant
                i <= versions.len(),
                sorted_tags(versions.deep_view()),
                versions.deep_view().to_multiset() == store@.cached.map_values(
                    |c: crate::store::CachedM| c.tag,
                ).to_multiset(),
                active_result(store@) is Ok,
                active@ == active_result(store@)->Ok_0,
                forall|k: int| 0 <= k < i ==> versions.deep_view()[k] != active@,
            decreases versions.len() - i,
        {
            if versions[i].eq(&active) {
                proof {
                    broadcast use vstd::seq_lib::group_to_multiset_ensures;

                    let tags = store@.cached.map_values(|c: crate::store::CachedM| c.tag);
                    assert(versions.deep_view()[i as int] == active@);
                    assert(versions.deep_view().contains(active@));
                    assert(versions.deep_view().to_multiset().count(active@) > 0);
                    assert(tags.to_multiset().count(active@) > 0);
                    assert(tags.contains(active@));
                    let j = choose|j: int| 0 <= j < tags.len() && tags[j] == active@;
                    assert(store@.cached[j].tag == active@);
                    assert(has_tag(store@.cached, active@));
                }
                let r = Selector { versions, index: i };
                return Ok(r);
            }
            i = i + 1;
        }
        proof {
            // The active tag is cached, so it is in the tag multiset and
            // hence somewhere in the sorted list — but the scan saw it
            // nowhere, a contradiction.
            broadcast use vstd::seq_lib::group_to_multiset_ensures;

            let tags = store@.cached.map_values(|c: crate::store::CachedM| c.tag);
            if has_tag(store@.cached, active@) {
                let j = choose|j: int|
                    0 <= j < store@.cached.len() && (#[trigger] store@.cached[j]).tag == active@;
                assert(tags[j] == active@);
                assert(tags.contains(active@));
                assert(tags.to_multiset().count(active@) > 0);
                assert(versions.deep_view().to_multiset().count(active@) > 0);
                assert(versions.deep_view().contains(active@));
                assert(false);
            }
        }
        Err(Error::NotFound)
    }

    /// The version under the cursor.
    pub fn selected(&self) -> (r: &String)
        requires
            selector_wf(self@),
        ensures
            r@ == self@.versions[self@.index],
    {
        &self.versions[self.index]
    }

    /// One key of the input loop. Moving up at the first entry and moving
    /// down at the last are no-ops; every key other than the movement keys
    /// leaves the cursor where it was.
    pub fn step(&mut self, key: SelectorKey) -> (a: SelectorAction)
        requires
            selector_wf(old(self)@),
        ensures
            selector_wf(final(self)@),
            final(self)@.versions == old(self)@.versions,
            key == SelectorKey::Up ==> a == SelectorAction::Redraw && final(self)@.index == (
            if old(self)@.index > 0 {
                old(self)@.index - 1
            } else {
                0
            }),
            key == SelectorKey::Down ==> a == SelectorAction::Redraw && final(self)@.index == (
            if old(self)@.index + 1 < old(self)@.versions.len() {
                old(self)@.index + 1
            } else {
                old(self)@.index
            }),
            key == SelectorKey::Quit ==> a == SelectorAction::Exit && final(self)@ == old(self)@,
            key == SelectorKey::Activate ==> a == SelectorAction::ActivateExit && final(self)@
                == old(self)@,
            key == SelectorKey::Remove ==> a == SelectorAction::RemoveExit && final(self)@ == old(
                self,
            )@,
            key == SelectorKey::Other ==> a == SelectorAction::Ignore && final(self)@ == old(
                self,
            )@,
    {
        match key {
            SelectorKey::Up => {
                if self.index > 0 {
                    self.index = self.index - 1;
                }
                SelectorAction::Redraw
            },
            SelectorKey::Down => {
                proof {
                    assert(self.versions.deep_view().len() == self.versions@.len());
                }
                if self.index < self.versions.len() - 1 {
                    self.index = self.index + 1;
                }
                SelectorAction::Redraw
            },
            SelectorKey::Quit => SelectorAction::Exit,
            SelectorKey::Activate => SelectorAction::ActivateExit,
            SelectorKey::Remove => SelectorAction::RemoveExit,
            SelectorKey::Other => SelectorAction::Ignore,
        }
    }
}

} // verus!
