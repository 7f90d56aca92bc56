//! The Mutation Serializer's step logic and the reader guard.
//!
//! The engine is the single owner of the Tree Store.  The surrounding
//! process drains the instruction queue strictly in arrival order and
//! calls one step method per instruction; each step mutates the model
//! and hands back the rename the process must apply, so no other actor
//! ever touches the store or the external rename command.  The engine
//! also tracks which sessions have an attached reader, keyed by session
//! identifier, so a repeated creation notification spawns no duplicate.

use vstd::prelude::*;

use crate::classify::classify;
use crate::classify::classify_spec;
use crate::classify::Prompt;
use crate::title::window_title_spec;
use crate::topology::scan_entries;
use crate::topology::scan_topology;
use crate::tree::contains_id;
use crate::tree::rebuild_spec;
use crate::tree::Tree;
use crate::tree::TreeError;
use crate::tree::TreeV;

verus! {

/// A rename the surrounding process must apply to the multiplexer.
#[derive(Debug, Clone)]
pub struct Rename {
    pub window_id: u32,
    pub title: String,
}

/// What processing one output line did to the model.
#[derive(Debug, Clone)]
pub enum LineOutcome {
    /// No configured pattern matched: nothing changed, nothing to
    /// rename.
    NoMatch,
    /// A pattern matched, but the pane has left the store: the line is
    /// dropped, nothing changed.
    UnknownPane(u32),
    /// The pane was retitled: apply the rename.
    Retitled(Rename),
}

/// The attached-reader set after a reader for `s` is ensured.
pub open spec fn attach_spec(a: Seq<u32>, s: u32) -> Seq<u32> {
    if a.contains(s) {
        a
    } else {
        a.push(s)
    }
}

/// Ensuring a reader leaves the session attached, and ensuring it again
/// changes nothing: a repeated creation notification spawns no second
/// reader.
pub proof fn lemma_ensure_reader_idempotent(a: Seq<u32>, s: u32)
    ensures
        attach_spec(a, s).contains(s),
        attach_spec(attach_spec(a, s), s) == attach_spec(a, s),
{
    if !a.contains(s) {
        assert(a.push(s)[a.len() as int] == s);
    }
}

/// The session-tree synchronization engine.
pub struct Engine {
    /// The configured prompt patterns, in priority order.
    pub prompts: Vec<Prompt>,
    /// The topology model.
    pub tree: Tree,
    /// The sessions that have an attached reader.
    pub attached: Vec<u32>,
}

impl Engine {
    /// The model is well formed and no session has two readers.
    pub open spec fn wf(self) -> bool {
        &&& self.tree@.wf()
        &&& forall|i: int, j: int|
            0 <= i < j < self.attached@.len() ==> self.attached@[i] != self.attached@[j]
    }

    /// An engine with the given patterns, an empty model and no
    /// readers.
    pub fn new(prompts: Vec<Prompt>) -> (e: Engine)
        ensures
            e.wf(),
            e.tree@ == TreeV::empty(),
            e.prompts == prompts,
            e.attached@ == Seq::<u32>::empty(),
    {
        Engine { prompts, tree: Tree::new(), attached: Vec::new() }
    }

    /// Rebuilds the model from a fresh topology scan: sessions and
    /// windows are replaced wholesale, and a pane that persists keeps
    /// its classified title.
    pub fn refresh(&mut self, scan_output: &str)
        requires
            old(self).wf(),
        ensures
            final(self).wf(),
            final(self).prompts == old(self).prompts,
            final(self).attached == old(self).attached,
            final(self).tree@ == rebuild_spec(old(self).tree@, scan_entries(scan_output@)),
    {
        let entries = scan_topology(scan_output);
        self.tree.rebuild(&entries);
    }

    /// Processes one line of pane output: classifies it against the
    /// patterns, and on a match retitles the pane and synthesizes the
    /// owning window's new title.  A line that matches nothing, or
    /// names a pane the store no longer knows, changes nothing and
    /// asks for no rename.
    pub fn process_line(&mut self, line: &str) -> (r: LineOutcome)
        requires
            old(self).wf(),
        ensures
            final(self).wf(),
            final(self).prompts == old(self).prompts,
            final(self).attached == old(self).attached,
            match classify_spec(old(self).prompts.deep_view(), line@) {
                None => r is NoMatch && final(self).tree@ == old(self).tree@,
                Some(m) => {
                    if old(self).tree@.has_pane(m.0) {
                        &&& r matches LineOutcome::Retitled(rn) && old(self).tree@.owns(
                            rn.window_id,
                            m.0,
                        ) && rn.title@ == window_title_spec(
                            final(self).tree@.window_titles(rn.window_id),
                        )
                        &&& final(self).tree@ == old(self).tree@.with_pane_title(m.0, m.1)
                    } else {
                        r == LineOutcome::UnknownPane(m.0) && final(self).tree@
                            == old(self).tree@
                    }
                },
            },
    {
        let ghost pre = self.tree@;
        match classify(&self.prompts, line) {
            None => LineOutcome::NoMatch,
            Some(m) => {
                let (pane_id, title) = m;
                match self.tree.set_pane_title(pane_id, title) {
                    Err(_) => LineOutcome::UnknownPane(pane_id),
                    Ok(()) => {
                        let ghost newt = self.tree@;
                        proof {
                            assert(newt.windows == pre.windows);
                        }
                        match self.tree.window_of(pane_id) {
                            Ok(w) => {
                                proof {
                                    let i = newt.win_idx(w);
                                    assert(newt.windows[i].id == w);
                                    assert(pre.has_window(w)) by {
                                        assert(pre.windows[i].id == w);
                                    }
                                    assert(pre.win_idx(w) == i);
                                    assert(pre.owns(w, pane_id)) by {
                                        assert(pre.window_panes(w) == newt.window_panes(w));
                                    }
                                }
                                match self.tree.window_title_of(w) {
                                    Some(t) => LineOutcome::Retitled(
                                        Rename { window_id: w, title: t },
                                    ),
                                    None => {
                                        proof {
                                            assert(false);
                                        }
                                        LineOutcome::NoMatch
                                    }
                                }
                            }
                            Err(_) => {
                                proof {
                                    assert(false);
                                }
                                LineOutcome::NoMatch
                            }
                        }
                    }
                }
            }
        }
    }

    /// Removes a pane and synthesizes its former window's new title.
    /// Removing a pane the store does not know fails with
    /// [`TreeError::UnknownPane`] and changes nothing.
    pub fn remove_pane(&mut self, pane_id: u32) -> (r: Result<Rename, TreeError>)
        requires
            old(self).wf(),
        ensures
            final(self).wf(),
            final(self).prompts == old(self).prompts,
            final(self).attached == old(self).attached,
            match r {
                Err(e) => e == TreeError::UnknownPane && !old(self).tree@.has_pane(pane_id)
                    && final(self).tree@ == old(self).tree@,
                Ok(rn) => old(self).tree@.has_pane(pane_id)
                    && rn.window_id == old(self).tree@.owner_of(pane_id)
                    && old(self).tree@.owns(rn.window_id, pane_id)
                    && final(self).tree@ == old(self).tree@.remove_pane_spec(pane_id)
                    && rn.title@ == window_title_spec(
                    final(self).tree@.window_titles(rn.window_id),
                ),
            },
    {
        let ghost pre = self.tree@;
        match self.tree.remove_pane(pane_id) {
            Err(e) => Err(e),
            Ok(w) => {
                proof {
                    pre.lemma_remove_pane(pane_id);
                    assert(self.tree@.has_window(w)) by {
                        assert(pre.has_window(w));
                    }
                }
                match self.tree.window_title_of(w) {
                    Some(t) => Ok(Rename { window_id: w, title: t }),
                    None => {
                        proof {
                            assert(false);
                        }
                        Err(TreeError::UnknownPane)
                    }
                }
            }
        }
    }

    /// Ensures a reader is attached to the session: reports `true` when
    /// the caller must spawn one, `false` when one is already attached,
    /// so a repeated creation notification spawns no duplicate reader.
    pub fn ensure_reader(&mut self, session_id: u32) -> (fresh: bool)
        requires
            old(self).wf(),
        ensures
            final(self).wf(),
            final(self).prompts == old(self).prompts,
            final(self).tree@ == old(self).tree@,
            fresh == !old(self).attached@.contains(session_id),
            final(self).attached@ == attach_spec(old(self).attached@, session_id),
    {
        if contains_id(&self.attached, session_id) {
            false
        } else {
            let ghost pre = self.attached@;
            self.attached.push(session_id);
            proof {
                assert forall|i: int, j: int|
                    0 <= i < j < self.attached@.len() implies self.attached@[i]
                    != self.attached@[j] by {
                    if j == self.attached@.len() - 1 {
                        assert(self.attached@[i] == pre[i]);
                        if pre[i] == session_id {
                            assert(pre.contains(session_id));
                        }
                    }
                }
            }
            true
        }
    }

    /// Forgets the reader of a session whose stream ended, so a later
    /// creation notification can attach a new one.
    pub fn reader_gone(&mut self, session_id: u32)
        requires
            old(self).wf(),
        ensures
            final(self).wf(),
            final(self).prompts == old(self).prompts,
            final(self).tree@ == old(self).tree@,
            !final(self).attached@.contains(session_id),
            forall|x: u32|
                x != session_id ==> (final(self).attached@.contains(x)
                    <==> old(self).attached@.contains(x)),
    {
        let n = self.attached.len();
        let mut i: usize = 0;
        while i < n
            invariant
                0 <= i <= n,
                n == self.attached@.len(),
                self == old(self),
                old(self).wf(),
                forall|k: int| 0 <= k < i ==> self.attached@[k] != session_id,
            decreases n - i,
        {
            if self.attached[i] == session_id {
                let ghost pre = self.attached@;
                self.attached.remove(i);
                proof {
                    assert forall|a: int, b: int|
                        0 <= a < b < self.attached@.len() implies self.attached@[a]
                        != self.attached@[b] by {
                        let a0 = if a < i { a } else { a + 1 };
                        let b0 = if b < i { b } else { b + 1 };
                        assert(self.attached@[a] == pre[a0]);
                        assert(self.attached@[b] == pre[b0]);
                    }
                    assert(!self.attached@.contains(session_id)) by {
                        if self.attached@.contains(session_id) {
                            let k = choose|k: int|
                                0 <= k < self.attached@.len() && self.attached@[k] == session_id;
                            let k0 = if k < i { k } else { k + 1 };
                            assert(pre[k0] == session_id);
                            assert(k0 != i as int);
                        }
                    }
                    assert forall|x: u32| x != session_id implies (self.attached@.contains(x)
                        <==> pre.contains(x)) by {
                        if self.attached@.contains(x) {
                            let k = choose|k: int|
                                0 <= k < self.attached@.len() && self.attached@[k] == x;
                            let k0 = if k < i { k } else { k + 1 };
                            assert(pre[k0] == x);
                        }
                        if pre.contains(x) {
                            let k = choose|k: int| 0 <= k < pre.len() && pre[k] == x;
                            if k < i {
                                assert(self.attached@[k] == x);
                            } else {
                                assert(k != i as int);
                                assert(self.attached@[k - 1] == x);
                            }
                        }
                    }
                }
                return ;
            }
            i = i + 1;
        }
        proof {
            if self.attached@.contains(session_id) {
                let k = choose|k: int|
                    0 <= k < self.attached@.len() && self.attached@[k] == session_id;
                assert(self.attached@[k] != session_id);
            }
        }
    }
}

} // verus!
