//! The Tree Store: the authoritative session/window/pane model.
//!
//! Sessions, windows and panes live in arena-like lists keyed by
//! identifier.  A window owns the ordered list of its panes' identifiers
//! (discovery order); a pane stores only its classified title, and the
//! window that owns it is derived by lookup, never stored, so removal
//! can leave no dangling back-reference.  The store is a plain data
//! structure: one logical actor at a time mutates it.

use vstd::prelude::*;

use crate::topology::TopoEntry;
use crate::title::window_title_spec;
use crate::title::window_title;

verus! {

/// A window: its identifier and the identifiers of the panes it owns,
/// in discovery order.
pub struct Window {
    pub id: u32,
    pub panes: Vec<u32>,
}

/// A pane: its identifier and its current classified title, empty until
/// a line classifies it.
pub struct Pane {
    pub id: u32,
    pub title: String,
}

/// The session/window/pane model.
pub struct Tree {
    pub sessions: Vec<u32>,
    pub windows: Vec<Window>,
    pub panes: Vec<Pane>,
}

/// Failure of a Tree Store operation.
#[derive(Debug, Clone, Copy, PartialEq, Eq, Structural)]
pub enum TreeError {
    /// The named pane is not in the store: a benign race between
    /// independent notification sources.
    UnknownPane,
}

/// The mathematical image of a [`Window`].
#[verifier::ext_equal]
pub ghost struct WindowV {
    pub id: u32,
    pub panes: Seq<u32>,
}

/// The mathematical image of a [`Pane`].
#[verifier::ext_equal]
pub ghost struct PaneV {
    pub id: u32,
    pub title: Seq<char>,
}

/// The mathematical image of a [`Tree`].
#[verifier::ext_equal]
pub ghost struct TreeV {
    pub sessions: Seq<u32>,
    pub windows: Seq<WindowV>,
    pub panes: Seq<PaneV>,
}

impl View for Window {
    type V = WindowV;

    open spec fn view(&self) -> WindowV {
        WindowV { id: self.id, panes: self.panes@ }
    }
}

impl DeepView for Window {
    type V = WindowV;

    open spec fn deep_view(&self) -> WindowV {
        self@
    }
}

impl View for Pane {
    type V = PaneV;

    open spec fn view(&self) -> PaneV {
        PaneV { id: self.id, title: self.title@ }
    }
}

impl DeepView for Pane {
    type V = PaneV;

    open spec fn deep_view(&self) -> PaneV {
        self@
    }
}

impl View for Tree {
    type V = TreeV;

    open spec fn view(&self) -> TreeV {
        TreeV {
            sessions: self.sessions@,
            windows: self.windows.deep_view(),
            panes: self.panes.deep_view(),
        }
    }
}

impl TreeV {
    /// The empty model.
    pub open spec fn empty() -> TreeV {
        TreeV { sessions: Seq::empty(), windows: Seq::empty(), panes: Seq::empty() }
    }

    pub open spec fn has_session(self, s: u32) -> bool {
        self.sessions.contains(s)
    }

    pub open spec fn has_window(self, w: u32) -> bool {
        exists|i: int| 0 <= i < self.windows.len() && self.windows[i].id == w
    }

    pub open spec fn has_pane(self, p: u32) -> bool {
        exists|k: int| 0 <= k < self.panes.len() && self.panes[k].id == p
    }

    /// The index of the window named `w`.
    pub open spec fn win_idx(self, w: u32) -> int
        recommends
            self.has_window(w),
    {
        choose|i: int| 0 <= i < self.windows.len() && self.windows[i].id == w
    }

    /// The index of the pane named `p`.
    pub open spec fn pane_idx(self, p: u32) -> int
        recommends
            self.has_pane(p),
    {
        choose|k: int| 0 <= k < self.panes.len() && self.panes[k].id == p
    }

    /// The title of the pane named `p`.
    pub open spec fn pane_title(self, p: u32) -> Seq<char>
        recommends
            self.has_pane(p),
    {
        self.panes[self.pane_idx(p)].title
    }

    /// The pane identifiers the window named `w` owns, in order.
    pub open spec fn window_panes(self, w: u32) -> Seq<u32>
        recommends
            self.has_window(w),
    {
        self.windows[self.win_idx(w)].panes
    }

    /// Pane `p` sits in some window's pane list.
    pub open spec fn pane_placed(self, p: u32) -> bool {
        exists|i: int, a: int|
            0 <= i < self.windows.len() && 0 <= a < self.windows[i].panes.len()
                && #[trigger] self.windows[i].panes[a] == p
    }

    /// The window named `w` owns pane `p`.
    pub open spec fn owns(self, w: u32, p: u32) -> bool {
        self.has_window(w) && self.window_panes(w).contains(p)
    }

    /// The titles of the panes of the window named `w`, in pane order.
    pub open spec fn window_titles(self, w: u32) -> Seq<Seq<char>>
        recommends
            self.has_window(w),
    {
        self.window_panes(w).map_values(|p: u32| self.pane_title(p))
    }

    /// The model with the title of pane `p` replaced.
    pub open spec fn with_pane_title(self, p: u32, title: Seq<char>) -> TreeV
        recommends
            self.has_pane(p),
    {
        TreeV {
            panes: self.panes.update(self.pane_idx(p), PaneV { id: p, title }),
            ..self
        }
    }

    /// The slot that holds pane `p`: a window index and a position in
    /// that window's pane list.
    pub open spec fn slot_of(self, p: u32) -> (int, int)
        recommends
            self.pane_placed(p),
    {
        choose|i: int, a: int|
            0 <= i < self.windows.len() && 0 <= a < self.windows[i].panes.len()
                && #[trigger] self.windows[i].panes[a] == p
    }

    /// The window that owns pane `p`.
    pub open spec fn owner_of(self, p: u32) -> u32
        recommends
            self.pane_placed(p),
    {
        self.windows[self.slot_of(p).0].id
    }

    /// The model after pane `p` is removed: the pane leaves its window's
    /// list with the siblings' order kept, and leaves the pane list.
    pub open spec fn remove_pane_spec(self, p: u32) -> TreeV
        recommends
            self.wf(),
            self.has_pane(p),
    {
        let (i, a) = self.slot_of(p);
        TreeV {
            sessions: self.sessions,
            windows: self.windows.update(
                i,
                WindowV { id: self.windows[i].id, panes: self.windows[i].panes.remove(a) },
            ),
            panes: self.panes.remove(self.pane_idx(p)),
        }
    }

    /// The title pane `p` carries out of this model: its present title,
    /// or the empty title when the model does not know the pane.
    pub open spec fn carried_title(self, p: u32) -> Seq<char> {
        if self.has_pane(p) {
            self.pane_title(p)
        } else {
            Seq::empty()
        }
    }

    /// One topology entry folded into a model under rebuild.  The
    /// session and the window appear if new; the pane is placed at the
    /// end of the window's list unless some window already holds it,
    /// and takes the title it had in `old`.
    pub open spec fn insert_entry(self, e: TopoEntry, old: TreeV) -> TreeV {
        let ss = if self.sessions.contains(e.0) {
            self.sessions
        } else {
            self.sessions.push(e.0)
        };
        let place = !self.has_pane(e.2);
        let ws = if self.has_window(e.1) {
            if place {
                let i = self.win_idx(e.1);
                self.windows.update(
                    i,
                    WindowV { id: e.1, panes: self.windows[i].panes.push(e.2) },
                )
            } else {
                self.windows
            }
        } else {
            self.windows.push(
                WindowV {
                    id: e.1,
                    panes: if place {
                        seq![e.2]
                    } else {
                        Seq::empty()
                    },
                },
            )
        };
        let ps = if place {
            self.panes.push(PaneV { id: e.2, title: old.carried_title(e.2) })
        } else {
            self.panes
        };
        TreeV { sessions: ss, windows: ws, panes: ps }
    }

    /// Folding one entry keeps the model well formed, adds exactly the
    /// entry's session, window and pane, and keeps every present pane's
    /// title.
    pub proof fn lemma_insert_entry(self, e: TopoEntry, old: TreeV)
        requires
            self.wf(),
        ensures
            self.insert_entry(e, old).wf(),
            forall|x: u32|
                #![trigger self.insert_entry(e, old).has_session(x)]
                self.insert_entry(e, old).has_session(x) <==> (self.has_session(x) || x == e.0),
            forall|x: u32|
                #![trigger self.insert_entry(e, old).has_window(x)]
                self.insert_entry(e, old).has_window(x) <==> (self.has_window(x) || x == e.1),
            forall|x: u32|
                #![trigger self.insert_entry(e, old).has_pane(x)]
                self.insert_entry(e, old).has_pane(x) <==> (self.has_pane(x) || x == e.2),
            forall|x: u32|
                #![trigger self.insert_entry(e, old).pane_title(x)]
                self.has_pane(x) ==> self.insert_entry(e, old).pane_title(x)
                    == self.pane_title(x),
            !self.has_pane(e.2) ==> self.insert_entry(e, old).pane_title(e.2)
                == old.carried_title(e.2),
    {
        let t = self.insert_entry(e, old);
        let place = !self.has_pane(e.2);
        // sessions
        assert forall|x: u32| t.has_session(x) implies (self.has_session(x) || x == e.0) by {
            let y = choose|y: int| 0 <= y < t.sessions.len() && t.sessions[y] == x;
            if y < self.sessions.len() {
                assert(self.sessions[y] == x);
            }
        }
        assert forall|x: u32| self.has_session(x) || x == e.0 implies t.has_session(x) by {
            if self.has_session(x) {
                let y = choose|y: int| 0 <= y < self.sessions.len() && self.sessions[y] == x;
                assert(t.sessions[y] == x);
            } else {
                assert(t.sessions[t.sessions.len() - 1] == e.0);
            }
        }
        // windows
        if self.has_window(e.1) {
            assert(0 <= self.win_idx(e.1) < self.windows.len());
        }
        assert forall|x: u32| t.has_window(x) implies (self.has_window(x) || x == e.1) by {
            let y = choose|y: int| 0 <= y < t.windows.len() && t.windows[y].id == x;
            if y < self.windows.len() {
                assert(self.windows[y].id == x);
            }
        }
        assert forall|x: u32| self.has_window(x) || x == e.1 implies t.has_window(x) by {
            if self.has_window(x) {
                let y = choose|y: int| 0 <= y < self.windows.len() && self.windows[y].id == x;
                assert(t.windows[y].id == x);
            } else if self.has_window(e.1) {
                assert(t.windows[self.win_idx(e.1)].id == e.1);
            } else {
                assert(t.windows[t.windows.len() - 1].id == e.1);
            }
        }
        // panes
        assert forall|x: u32| t.has_pane(x) implies (self.has_pane(x) || x == e.2) by {
            let y = choose|y: int| 0 <= y < t.panes.len() && t.panes[y].id == x;
            if y < self.panes.len() {
                assert(self.panes[y].id == x);
            }
        }
        assert forall|x: u32| self.has_pane(x) || x == e.2 implies t.has_pane(x) by {
            if self.has_pane(x) {
                let y = choose|y: int| 0 <= y < self.panes.len() && self.panes[y].id == x;
                assert(t.panes[y].id == x);
            } else {
                assert(t.panes[t.panes.len() - 1].id == e.2);
            }
        }
        // titles
        assert forall|x: u32| self.has_pane(x) implies t.pane_title(x) == self.pane_title(x) by {
            let y = self.pane_idx(x);
            assert(self.panes[y].id == x);
            assert(t.panes[y].id == x);
            assert(t.pane_idx(x) == y);
        }
        if place {
            assert(t.panes[t.panes.len() - 1].id == e.2);
            assert(t.pane_idx(e.2) == t.panes.len() - 1);
        }
        // the placed pane is not in any slot of self
        assert forall|i: int, a: int|
            0 <= i < self.windows.len() && 0 <= a < self.windows[i].panes.len() && place implies
            #[trigger] self.windows[i].panes[a] != e.2 by {
            assert(self.has_pane(self.windows[i].panes[a]));
        }
        // well-formedness
        assert forall|i: int, a: int|
            0 <= i < t.windows.len() && 0 <= a < t.windows[i].panes.len() implies t.has_pane(
            #[trigger] t.windows[i].panes[a],
        ) by {
            if i < self.windows.len() && a < self.windows[i].panes.len() {
                assert(t.windows[i].panes[a] == self.windows[i].panes[a]);
                assert(self.has_pane(self.windows[i].panes[a]));
            } else {
                assert(t.windows[i].panes[a] == e.2);
            }
        }
        assert forall|i: int, a: int, j: int, b: int|
            0 <= i < t.windows.len() && 0 <= a < t.windows[i].panes.len() && 0 <= j
                < t.windows.len() && 0 <= b < t.windows[j].panes.len() && (i != j || a != b)
            implies #[trigger] t.windows[i].panes[a] != #[trigger] t.windows[j].panes[b] by {
            let old_i = i < self.windows.len() && a < self.windows[i].panes.len();
            let old_j = j < self.windows.len() && b < self.windows[j].panes.len();
            if old_i && old_j {
                assert(t.windows[i].panes[a] == self.windows[i].panes[a]);
                assert(t.windows[j].panes[b] == self.windows[j].panes[b]);
            } else if old_i && !old_j {
                assert(t.windows[j].panes[b] == e.2);
                assert(t.windows[i].panes[a] == self.windows[i].panes[a]);
            } else if !old_i && old_j {
                assert(t.windows[i].panes[a] == e.2);
                assert(t.windows[j].panes[b] == self.windows[j].panes[b]);
            } else {
                assert(i == j && a == b);
            }
        }
        assert forall|k: int| 0 <= k < t.panes.len() implies t.pane_placed(
            #[trigger] t.panes[k].id,
        ) by {
            if k < self.panes.len() {
                let x = self.panes[k].id;
                assert(self.pane_placed(x));
                let (wi, wa): (int, int) = choose|wi: int, wa: int|
                    0 <= wi < self.windows.len() && 0 <= wa < self.windows[wi].panes.len()
                        && #[trigger] self.windows[wi].panes[wa] == x;
                assert(t.windows[wi].panes[wa] == x);
            } else {
                if self.has_window(e.1) {
                    let i = self.win_idx(e.1);
                    assert(t.windows[i].panes[t.windows[i].panes.len() - 1] == e.2);
                } else {
                    let i = t.windows.len() - 1;
                    assert(t.windows[i].panes[0] == e.2);
                }
            }
        }
        assert(t.wf());
    }

    /// Well-formedness: no duplicate identifiers anywhere, every pane in
    /// exactly one window slot, and the pane list and the windows' pane
    /// lists name the same panes.
    pub open spec fn wf(self) -> bool {
        &&& forall|i: int, j: int|
            0 <= i < j < self.sessions.len() ==> self.sessions[i] != self.sessions[j]
        &&& forall|i: int, j: int|
            0 <= i < j < self.windows.len() ==> self.windows[i].id != self.windows[j].id
        &&& forall|i: int, j: int|
            0 <= i < j < self.panes.len() ==> self.panes[i].id != self.panes[j].id
        &&& forall|i: int, a: int|
            0 <= i < self.windows.len() && 0 <= a < self.windows[i].panes.len()
                ==> self.has_pane(#[trigger] self.windows[i].panes[a])
        &&& forall|i: int, a: int, j: int, b: int|
            0 <= i < self.windows.len() && 0 <= a < self.windows[i].panes.len() && 0 <= j
                < self.windows.len() && 0 <= b < self.windows[j].panes.len() && (i != j || a != b)
                ==> #[trigger] self.windows[i].panes[a] != #[trigger] self.windows[j].panes[b]
        &&& forall|k: int| 0 <= k < self.panes.len() ==> self.pane_placed(#[trigger] self.panes[k].id)
    }

    /// Removing a pane keeps the model well formed, keeps every other
    /// pane with its title, and keeps the sessions and windows.
    pub proof fn lemma_remove_pane(self, p: u32)
        requires
            self.wf(),
            self.has_pane(p),
        ensures
            self.remove_pane_spec(p).wf(),
            self.remove_pane_spec(p).sessions == self.sessions,
            forall|x: u32|
                self.remove_pane_spec(p).has_window(x) <==> self.has_window(x),
            forall|x: u32|
                self.remove_pane_spec(p).has_pane(x) <==> (self.has_pane(x) && x != p),
            forall|x: u32|
                x != p && self.has_pane(x) ==> self.remove_pane_spec(p).pane_title(x)
                    == self.pane_title(x),
    {
        let r = self.remove_pane_spec(p);
        let k = self.pane_idx(p);
        assert(0 <= k < self.panes.len() && self.panes[k].id == p);
        assert(self.pane_placed(self.panes[k].id));
        let (i, a) = self.slot_of(p);
        assert(0 <= i < self.windows.len() && 0 <= a < self.windows[i].panes.len()
            && self.windows[i].panes[a] == p);
        assert(r.windows.len() == self.windows.len());
        assert(forall|x: int| 0 <= x < r.windows.len() ==> r.windows[x].id == self.windows[x].id);
        assert(r.panes.len() == self.panes.len() - 1);
        assert(forall|x: int|
            0 <= x < r.panes.len() ==> r.panes[x] == self.panes[if x < k {
                x
            } else {
                x + 1
            }]);
        assert(r.windows[i].panes.len() == self.windows[i].panes.len() - 1);
        assert(forall|b: int|
            0 <= b < r.windows[i].panes.len() ==> r.windows[i].panes[b]
                == self.windows[i].panes[if b < a {
                b
            } else {
                b + 1
            }]);
        // membership of panes
        assert forall|x: u32| r.has_pane(x) implies (self.has_pane(x) && x != p) by {
            let y = choose|y: int| 0 <= y < r.panes.len() && r.panes[y].id == x;
            let y0 = if y < k { y } else { y + 1 };
            assert(self.panes[y0].id == x);
            assert(y0 != k);
        }
        assert forall|x: u32| self.has_pane(x) && x != p implies r.has_pane(x) by {
            let y = choose|y: int| 0 <= y < self.panes.len() && self.panes[y].id == x;
            assert(y != k);
            let y1 = if y < k { y } else { y - 1 };
            assert(r.panes[y1].id == x);
        }
        // membership of windows
        assert forall|x: u32| r.has_window(x) implies self.has_window(x) by {
            let y = choose|y: int| 0 <= y < r.windows.len() && r.windows[y].id == x;
            assert(self.windows[y].id == x);
        }
        assert forall|x: u32| self.has_window(x) implies r.has_window(x) by {
            let y = choose|y: int| 0 <= y < self.windows.len() && self.windows[y].id == x;
            assert(r.windows[y].id == x);
        }
        // titles of the other panes
        assert forall|x: u32| x != p && self.has_pane(x) implies r.pane_title(x)
            == self.pane_title(x) by {
            let y = r.pane_idx(x);
            assert(0 <= y < r.panes.len() && r.panes[y].id == x);
            let y0 = if y < k { y } else { y + 1 };
            assert(self.panes[y0].id == x);
            assert(self.pane_idx(x) == y0);
            assert(r.panes[y].title == self.panes[y0].title);
        }
        // well-formedness of the result
        assert forall|x: int, b: int|
            0 <= x < r.windows.len() && 0 <= b < r.windows[x].panes.len() implies r.has_pane(
            #[trigger] r.windows[x].panes[b],
        ) by {
            let b0 = if x == i && b >= a { b + 1 } else { b };
            assert(r.windows[x].panes[b] == self.windows[x].panes[b0]);
            assert((x, b0) != (i, a));
            assert(self.windows[x].panes[b0] != p);
            assert(self.has_pane(self.windows[x].panes[b0]));
        }
        assert forall|x: int, b: int, y: int, c: int|
            0 <= x < r.windows.len() && 0 <= b < r.windows[x].panes.len() && 0 <= y
                < r.windows.len() && 0 <= c < r.windows[y].panes.len() && (x != y || b != c) implies
            #[trigger] r.windows[x].panes[b] != #[trigger] r.windows[y].panes[c] by {
            let b0 = if x == i && b >= a { b + 1 } else { b };
            let c0 = if y == i && c >= a { c + 1 } else { c };
            assert(r.windows[x].panes[b] == self.windows[x].panes[b0]);
            assert(r.windows[y].panes[c] == self.windows[y].panes[c0]);
            assert(x != y || b0 != c0);
        }
        assert forall|y: int| 0 <= y < r.panes.len() implies r.pane_placed(
            #[trigger] r.panes[y].id,
        ) by {
            let y0 = if y < k { y } else { y + 1 };
            let x = self.panes[y0].id;
            assert(r.panes[y].id == x);
            assert(y0 != k);
            assert(x != p);
            assert(self.pane_placed(x));
            let (wi, wa): (int, int) = choose|wi: int, wa: int|
                0 <= wi < self.windows.len() && 0 <= wa < self.windows[wi].panes.len()
                    && #[trigger] self.windows[wi].panes[wa] == x;
            assert((wi, wa) != (i, a));
            if wi != i {
                assert(r.windows[wi].panes[wa] == x);
            } else if wa < a {
                assert(r.windows[wi].panes[wa] == x);
            } else {
                assert(r.windows[wi].panes[wa - 1] == x);
            }
        }
        assert(r.wf());
    }
}

/// The model a topology scan rebuilds: sessions and windows are
/// replaced wholesale, and a pane that persists across the rebuild
/// keeps the title it had in `old`.
pub open spec fn rebuild_spec(old: TreeV, entries: Seq<TopoEntry>) -> TreeV
    decreases entries.len(),
{
    if entries.len() == 0 {
        TreeV::empty()
    } else {
        rebuild_spec(old, entries.drop_last()).insert_entry(entries.last(), old)
    }
}

/// A rebuilt model is well formed and holds exactly the sessions,
/// windows and panes the scan entries name, each pane with the title it
/// carried out of the previous model.
pub proof fn lemma_rebuild_spec(old: TreeV, entries: Seq<TopoEntry>)
    ensures
        rebuild_spec(old, entries).wf(),
        forall|x: u32|
            rebuild_spec(old, entries).has_session(x) <==> (exists|k: int|
                0 <= k < entries.len() && (#[trigger] entries[k]).0 == x),
        forall|x: u32|
            rebuild_spec(old, entries).has_window(x) <==> (exists|k: int|
                0 <= k < entries.len() && (#[trigger] entries[k]).1 == x),
        forall|x: u32|
            rebuild_spec(old, entries).has_pane(x) <==> (exists|k: int|
                0 <= k < entries.len() && (#[trigger] entries[k]).2 == x),
        forall|x: u32|
            rebuild_spec(old, entries).has_pane(x) ==> rebuild_spec(old, entries).pane_title(x)
                == old.carried_title(x),
    decreases entries.len(),
{
    let t = rebuild_spec(old, entries);
    if entries.len() == 0 {
        assert forall|x: u32| !t.has_session(x) by {}
        assert forall|x: u32| !t.has_window(x) by {}
        assert forall|x: u32| !t.has_pane(x) by {}
        assert(t.wf());
    } else {
        let init = entries.drop_last();
        let e = entries.last();
        let t0 = rebuild_spec(old, init);
        lemma_rebuild_spec(old, init);
        t0.lemma_insert_entry(e, old);
        assert forall|x: u32| t.has_session(x) implies (exists|k: int|
            0 <= k < entries.len() && (#[trigger] entries[k]).0 == x) by {
            if t0.has_session(x) {
                let k = choose|k: int| 0 <= k < init.len() && (#[trigger] init[k]).0 == x;
                assert(entries[k].0 == x);
            } else {
                assert(entries[entries.len() - 1].0 == x);
            }
        }
        assert forall|x: u32|
            (exists|k: int| 0 <= k < entries.len() && (#[trigger] entries[k]).0 == x) implies
            t.has_session(x) by {
            let k = choose|k: int| 0 <= k < entries.len() && (#[trigger] entries[k]).0 == x;
            assert(0 <= k < entries.len() && entries[k].0 == x);
            if k < entries.len() - 1 {
                assert(init[k] == entries[k]);
                assert(init[k].0 == x);
                assert(t0.has_session(x));
                assert(t.has_session(x));
            } else {
                assert(e.0 == x);
                assert(t.has_session(x));
            }
        }
        assert forall|x: u32| t.has_window(x) implies (exists|k: int|
            0 <= k < entries.len() && (#[trigger] entries[k]).1 == x) by {
            if t0.has_window(x) {
                let k = choose|k: int| 0 <= k < init.len() && (#[trigger] init[k]).1 == x;
                assert(entries[k].1 == x);
            } else {
                assert(entries[entries.len() - 1].1 == x);
            }
        }
        assert forall|x: u32|
            (exists|k: int| 0 <= k < entries.len() && (#[trigger] entries[k]).1 == x) implies
            t.has_window(x) by {
            let k = choose|k: int| 0 <= k < entries.len() && (#[trigger] entries[k]).1 == x;
            if k < entries.len() - 1 {
                assert(init[k].1 == x);
            }
        }
        assert forall|x: u32| t.has_pane(x) implies (exists|k: int|
            0 <= k < entries.len() && (#[trigger] entries[k]).2 == x) by {
            if t0.has_pane(x) {
                let k = choose|k: int| 0 <= k < init.len() && (#[trigger] init[k]).2 == x;
                assert(entries[k].2 == x);
            } else {
                assert(entries[entries.len() - 1].2 == x);
            }
        }
        assert forall|x: u32|
            (exists|k: int| 0 <= k < entries.len() && (#[trigger] entries[k]).2 == x) implies
            t.has_pane(x) by {
            let k = choose|k: int| 0 <= k < entries.len() && (#[trigger] entries[k]).2 == x;
            if k < entries.len() - 1 {
                assert(init[k].2 == x);
            }
        }
    }
}

/// A rebuild whose scan still lists pane `p` keeps that pane and its
/// classified title: refreshing the topology loses no known title.
pub proof fn lemma_rebuild_preserves_titles(old: TreeV, entries: Seq<TopoEntry>, p: u32)
    requires
        old.has_pane(p),
        exists|k: int| 0 <= k < entries.len() && (#[trigger] entries[k]).2 == p,
    ensures
        rebuild_spec(old, entries).has_pane(p),
        rebuild_spec(old, entries).pane_title(p) == old.pane_title(p),
{
    lemma_rebuild_spec(old, entries);
    let t = rebuild_spec(old, entries);
    assert(t.has_pane(p));
    assert(t.pane_title(p) == old.carried_title(p));
    assert(old.carried_title(p) == old.pane_title(p));
}

/// Whether an identifier list holds `x`.
pub(crate) fn contains_id(ids: &Vec<u32>, x: u32) -> (b: bool)
    ensures
        b == ids@.contains(x),
{
    let n = ids.len();
    let mut i: usize = 0;
    while i < n
        invariant
            0 <= i <= n,
            n == ids@.len(),
            forall|k: int| 0 <= k < i ==> ids@[k] != x,
        decreases n - i,
    {
        if ids[i] == x {
            return true;
        }
        i = i + 1;
    }
    proof {
        if ids@.contains(x) {
            let k = choose|k: int| 0 <= k < ids@.len() && ids@[k] == x;
            assert(ids@[k] != x);
        }
    }
    false
}

fn find_window_in(windows: &Vec<Window>, id: u32) -> (r: Option<usize>)
    ensures
        match r {
            Some(i) => i < windows@.len() && windows.deep_view()[i as int].id == id,
            None => forall|k: int| 0 <= k < windows@.len() ==> windows.deep_view()[k].id != id,
        },
{
    let n = windows.len();
    let mut i: usize = 0;
    while i < n
        invariant
            0 <= i <= n,
            n == windows@.len(),
            forall|k: int| 0 <= k < i ==> windows.deep_view()[k].id != id,
        decreases n - i,
    {
        proof {
            assert(windows.deep_view()[i as int] == windows@[i as int].deep_view());
        }
        if windows[i].id == id {
            return Some(i);
        }
        i = i + 1;
    }
    None
}

fn find_pane_in(panes: &Vec<Pane>, id: u32) -> (r: Option<usize>)
    ensures
        match r {
            Some(k) => k < panes@.len() && panes.deep_view()[k as int].id == id,
            None => forall|k: int| 0 <= k < panes@.len() ==> panes.deep_view()[k].id != id,
        },
{
    let n = panes.len();
    let mut k: usize = 0;
    while k < n
        invariant
            0 <= k <= n,
            n == panes@.len(),
            forall|x: int| 0 <= x < k ==> panes.deep_view()[x].id != id,
        decreases n - k,
    {
        proof {
            assert(panes.deep_view()[k as int] == panes@[k as int].deep_view());
        }
        if panes[k].id == id {
            return Some(k);
        }
        k = k + 1;
    }
    None
}

impl Tree {
    /// An empty store.
    pub fn new() -> (t: Tree)
        ensures
            t@ == TreeV::empty(),
            t@.wf(),
    {
        let t = Tree { sessions: Vec::new(), windows: Vec::new(), panes: Vec::new() };
        proof {
            assert(t@.windows =~= Seq::<WindowV>::empty());
            assert(t@.panes =~= Seq::<PaneV>::empty());
            assert(t@ =~= TreeV::empty());
        }
        t
    }

    /// The slot that holds the pane named `pane_id`.
    fn find_slot(&self, pane_id: u32) -> (r: Option<(usize, usize)>)
        ensures
            match r {
                Some((i, a)) => i < self@.windows.len() && a < self@.windows[i as int].panes.len()
                    && self@.windows[i as int].panes[a as int] == pane_id,
                None => !self@.pane_placed(pane_id),
            },
    {
        let nw = self.windows.len();
        let mut i: usize = 0;
        while i < nw
            invariant
                0 <= i <= nw,
                nw == self.windows@.len(),
                forall|x: int, a: int|
                    0 <= x < i && 0 <= a < self@.windows[x].panes.len()
                        ==> #[trigger] self@.windows[x].panes[a] != pane_id,
            decreases nw - i,
        {
            let w = &self.windows[i];
            proof {
                assert(self@.windows[i as int] == self.windows@[i as int].deep_view());
            }
            let np = w.panes.len();
            let mut a: usize = 0;
            while a < np
                invariant
                    0 <= a <= np,
                    i < nw,
                    nw == self.windows@.len(),
                    np == self@.windows[i as int].panes.len(),
                    w == self.windows@[i as int],
                    self@.windows[i as int] == self.windows@[i as int].deep_view(),
                    forall|b: int| 0 <= b < a ==> self@.windows[i as int].panes[b] != pane_id,
                decreases np - a,
            {
                if w.panes[a] == pane_id {
                    return Some((i, a));
                }
                a = a + 1;
            }
            i = i + 1;
        }
        None
    }

    /// The index of the pane named `pane_id` in the pane list.
    fn find_pane_idx(&self, pane_id: u32) -> (r: Option<usize>)
        ensures
            match r {
                Some(k) => k < self@.panes.len() && self@.panes[k as int].id == pane_id,
                None => !self@.has_pane(pane_id),
            },
    {
        let np = self.panes.len();
        let mut k: usize = 0;
        while k < np
            invariant
                0 <= k <= np,
                np == self.panes@.len(),
                forall|x: int| 0 <= x < k ==> self@.panes[x].id != pane_id,
            decreases np - k,
        {
            proof {
                assert(self@.panes[k as int] == self.panes@[k as int].deep_view());
            }
            if self.panes[k].id == pane_id {
                return Some(k);
            }
            k = k + 1;
        }
        proof {
            if self@.has_pane(pane_id) {
                let x = choose|x: int|
                    0 <= x < self@.panes.len() && self@.panes[x].id == pane_id;
                assert(self@.panes[x].id != pane_id);
            }
        }
        None
    }

    /// The window that owns the pane named `pane_id`.
    pub fn window_of(&self, pane_id: u32) -> (r: Result<u32, TreeError>)
        requires
            self@.wf(),
        ensures
            match r {
                Ok(w) => self@.owns(w, pane_id) && self@.has_pane(pane_id),
                Err(e) => e == TreeError::UnknownPane && !self@.has_pane(pane_id),
            },
    {
        match self.find_slot(pane_id) {
            Some((i, a)) => {
                let w = self.windows[i].id;
                proof {
                    assert(self@.windows[i as int] == self.windows@[i as int].deep_view());
                    assert(self@.has_window(w)) by {
                        assert(self@.windows[i as int].id == w);
                    }
                    assert(self@.win_idx(w) == i as int);
                    assert(self@.window_panes(w).contains(pane_id)) by {
                        assert(self@.window_panes(w)[a as int] == pane_id);
                    }
                    assert(self@.has_pane(pane_id)) by {
                        assert(self@.windows[i as int].panes[a as int] == pane_id);
                    }
                }
                Ok(w)
            }
            None => {
                proof {
                    if self@.has_pane(pane_id) {
                        let k = choose|k: int|
                            0 <= k < self@.panes.len() && self@.panes[k].id == pane_id;
                        assert(self@.pane_placed(self@.panes[k].id));
                    }
                }
                Err(TreeError::UnknownPane)
            }
        }
    }

    /// Removes the pane named `pane_id`: it leaves its window's pane
    /// list with the siblings' order kept, and the owning window is
    /// returned so its title can be recomputed.  Fails with
    /// [`TreeError::UnknownPane`] and changes nothing when the store
    /// does not know the pane.
    pub fn remove_pane(&mut self, pane_id: u32) -> (r: Result<u32, TreeError>)
        requires
            old(self)@.wf(),
        ensures
            final(self)@.wf(),
            match r {
                Ok(w) => old(self)@.has_pane(pane_id) && w == old(self)@.owner_of(pane_id)
                    && old(self)@.owns(w, pane_id) && final(self)@ == old(self)@.remove_pane_spec(
                    pane_id,
                ),
                Err(e) => e == TreeError::UnknownPane && !old(self)@.has_pane(pane_id)
                    && final(self)@ == old(self)@,
            },
    {
        match self.find_pane_idx(pane_id) {
            None => Err(TreeError::UnknownPane),
            Some(k) => {
                proof {
                    assert(old(self)@.pane_placed(old(self)@.panes[k as int].id));
                }
                match self.find_slot(pane_id) {
                    Some((i, a)) => {
                        let ghost pre = self@;
                        let w = self.windows[i].id;
                        proof {
                            assert(pre.windows[i as int] == self.windows@[i as int].deep_view());
                            assert(pre.slot_of(pane_id) == (i as int, a as int));
                            assert(pre.pane_idx(pane_id) == k as int);
                            assert(pre.owner_of(pane_id) == w);
                            assert(pre.has_window(w)) by {
                                assert(pre.windows[i as int].id == w);
                            }
                            assert(pre.win_idx(w) == i as int);
                            assert(pre.window_panes(w).contains(pane_id)) by {
                                assert(pre.window_panes(w)[a as int] == pane_id);
                            }
                        }
                        self.panes.remove(k);
                        self.windows[i].panes.remove(a);
                        proof {
                            assert(self@.panes =~= pre.panes.remove(k as int));
                            assert(self@.windows =~= pre.windows.update(
                                i as int,
                                WindowV {
                                    id: w,
                                    panes: pre.windows[i as int].panes.remove(a as int),
                                },
                            ));
                            assert(self@ =~= pre.remove_pane_spec(pane_id));
                            pre.lemma_remove_pane(pane_id);
                        }
                        Ok(w)
                    }
                    None => {
                        proof {
                            assert(false);
                        }
                        Err(TreeError::UnknownPane)
                    }
                }
            }
        }
    }

    /// Sets the title of the pane named `pane_id`, or fails with
    /// [`TreeError::UnknownPane`] and changes nothing when the store
    /// does not know the pane.
    pub fn set_pane_title(&mut self, pane_id: u32, title: String) -> (r: Result<
        (),
        TreeError,
    >)
        requires
            old(self)@.wf(),
        ensures
            final(self)@.wf(),
            !old(self)@.has_pane(pane_id) ==> r == Err::<(), TreeError>(TreeError::UnknownPane)
                && final(self)@ == old(self)@,
            old(self)@.has_pane(pane_id) ==> r == Ok::<(), TreeError>(()) && final(self)@
                == old(self)@.with_pane_title(pane_id, title@),
    {
        let np = self.panes.len();
        let mut k: usize = 0;
        while k < np
            invariant
                0 <= k <= np,
                np == self.panes@.len(),
                self@.wf(),
                self@ == old(self)@,
                forall|x: int| 0 <= x < k ==> self@.panes[x].id != pane_id,
            decreases np - k,
        {
            proof {
                assert(self@.panes[k as int] == self.panes@[k as int].deep_view());
            }
            if self.panes[k].id == pane_id {
                proof {
                    assert(self@.has_pane(pane_id)) by {
                        assert(self@.panes[k as int].id == pane_id);
                    }
                    assert(self@.pane_idx(pane_id) == k as int);
                }
                let ghost pre = self@;
                self.panes[k] = Pane { id: pane_id, title };
                proof {
                    assert(self@.panes =~= pre.panes.update(
                        k as int,
                        PaneV { id: pane_id, title: title@ },
                    ));
                    assert(self@ =~= (TreeV {
                        panes: pre.panes.update(
                            pre.pane_idx(pane_id),
                            PaneV { id: pane_id, title: title@ },
                        ),
                        ..pre
                    }));
                    assert(self@.wf()) by {
                        assert(forall|x: int|
                            0 <= x < self@.panes.len() ==> self@.panes[x].id == pre.panes[x].id);
                        assert(forall|x: u32| self@.has_pane(x) <==> pre.has_pane(x));
                        assert(self@.windows == pre.windows);
                        assert forall|x: u32| self@.pane_placed(x) <==> pre.pane_placed(x) by {
                            if self@.pane_placed(x) {
                                let (i, a): (int, int) = choose|i: int, a: int|
                                    0 <= i < self@.windows.len() && 0 <= a
                                        < self@.windows[i].panes.len()
                                        && #[trigger] self@.windows[i].panes[a] == x;
                                assert(pre.windows[i].panes[a] == x);
                            }
                            if pre.pane_placed(x) {
                                let (i, a): (int, int) = choose|i: int, a: int|
                                    0 <= i < pre.windows.len() && 0 <= a
                                        < pre.windows[i].panes.len()
                                        && #[trigger] pre.windows[i].panes[a] == x;
                                assert(self@.windows[i].panes[a] == x);
                            }
                        }
                    }
                }
                return Ok(());
            }
            k = k + 1;
        }
        proof {
            if self@.has_pane(pane_id) {
                let x = choose|x: int|
                    0 <= x < self@.panes.len() && self@.panes[x].id == pane_id;
                assert(self@.panes[x].id != pane_id);
            }
        }
        Err(TreeError::UnknownPane)
    }
}

impl Tree {
    /// Synthesizes the title of the window named `window_id` from its
    /// panes' current titles, or nothing when the store does not know
    /// the window.
    pub fn window_title_of(&self, window_id: u32) -> (r: Option<String>)
        requires
            self@.wf(),
        ensures
            match r {
                Some(t) => self@.has_window(window_id) && t@ == window_title_spec(
                    self@.window_titles(window_id),
                ),
                None => !self@.has_window(window_id),
            },
    {
        match find_window_in(&self.windows, window_id) {
            None => {
                proof {
                    if self@.has_window(window_id) {
                        let y = choose|y: int|
                            0 <= y < self@.windows.len() && self@.windows[y].id == window_id;
                        assert(self@.windows[y].id != window_id);
                    }
                }
                None
            }
            Some(i) => {
                proof {
                    assert(self@.has_window(window_id)) by {
                        assert(self@.windows[i as int].id == window_id);
                    }
                    assert(self@.win_idx(window_id) == i as int);
                }
                let w = &self.windows[i];
                let np = w.panes.len();
                let ghost pseq = self@.window_panes(window_id);
                let mut titles: Vec<String> = Vec::new();
                proof {
                    assert(w@ == self@.windows[i as int]);
                    assert(pseq.len() == np);
                    assert(titles.deep_view() =~= self@.window_titles(window_id).take(0));
                }
                let mut a: usize = 0;
                while a < np
                    invariant
                        0 <= a <= np,
                        self@.wf(),
                        i < self@.windows.len(),
                        self@.windows[i as int].id == window_id,
                        self@.win_idx(window_id) == i as int,
                        w == self.windows@[i as int],
                        w@ == self@.windows[i as int],
                        np == self@.windows[i as int].panes.len(),
                        pseq == self@.window_panes(window_id),
                        titles.deep_view() == self@.window_titles(window_id).take(a as int),
                    decreases np - a,
                {
                    let p = w.panes[a];
                    proof {
                        assert(pseq[a as int] == p);
                        assert(self@.has_pane(p)) by {
                            assert(self@.windows[i as int].panes[a as int] == p);
                        }
                    }
                    let title = match self.find_pane_idx(p) {
                        Some(k) => {
                            proof {
                                assert(self@.panes[k as int] == self.panes@[k as int].deep_view());
                                assert(self@.pane_idx(p) == k as int);
                            }
                            self.panes[k].title.clone()
                        }
                        None => {
                            proof {
                                assert(false);
                            }
                            String::new()
                        }
                    };
                    proof {
                        assert(title@ == self@.pane_title(p));
                    }
                    let ghost prevec = titles@;
                    let ghost pre = titles.deep_view();
                    titles.push(title);
                    proof {
                        let wt = self@.window_titles(window_id);
                        assert(wt.len() == pseq.len());
                        assert(wt[a as int] == self@.pane_title(pseq[a as int]));
                        assert(titles@ == prevec.push(title));
                        assert(pre == Seq::new(prevec.len(), |x: int| prevec[x].deep_view()));
                        assert(pre.len() == wt.take(a as int).len());
                        assert(prevec.len() == a);
                        assert(titles@.len() == a + 1);
                        assert forall|x: int| 0 <= x < a implies titles.deep_view()[x]
                            == wt[x] by {
                            assert(titles.deep_view()[x] == titles@[x].deep_view());
                            assert(titles@[x] == prevec[x]);
                            assert(prevec[x].deep_view() == pre[x]);
                            assert(pre[x] == wt.take(a as int)[x]);
                        }
                        assert(titles.deep_view()[a as int] == title@);
                        assert(titles.deep_view() =~= wt.take(a + 1));
                    }
                    a = a + 1;
                }
                proof {
                    assert(self@.window_titles(window_id).take(np as int) =~= self@.window_titles(
                        window_id,
                    ));
                }
                Some(window_title(&titles))
            }
        }
    }

    /// Rebuilds the store from a topology scan.  Sessions and windows
    /// are replaced wholesale; a pane whose identifier persists across
    /// the rebuild keeps its previously classified title, any other
    /// pane starts with the empty title.
    pub fn rebuild(&mut self, entries: &Vec<TopoEntry>)
        requires
            old(self)@.wf(),
        ensures
            final(self)@ == rebuild_spec(old(self)@, entries@),
            final(self)@.wf(),
    {
        let ghost oldv = self@;
        let mut sessions: Vec<u32> = Vec::new();
        let mut windows: Vec<Window> = Vec::new();
        let mut panes: Vec<Pane> = Vec::new();
        let n = entries.len();
        let mut idx: usize = 0;
        proof {
            assert(entries@.take(0) =~= Seq::<TopoEntry>::empty());
            assert((TreeV {
                sessions: sessions@,
                windows: windows.deep_view(),
                panes: panes.deep_view(),
            }) =~~= TreeV::empty());
        }
        while idx < n
            invariant
                0 <= idx <= n,
                n == entries@.len(),
                oldv == old(self)@,
                self@ == oldv,
                oldv.wf(),
                (TreeV {
                    sessions: sessions@,
                    windows: windows.deep_view(),
                    panes: panes.deep_view(),
                }) == rebuild_spec(oldv, entries@.take(idx as int)),
            decreases n - idx,
        {
            let ghost cur = TreeV {
                sessions: sessions@,
                windows: windows.deep_view(),
                panes: panes.deep_view(),
            };
            let e = entries[idx];
            proof {
                assert(entries@.take(idx + 1).drop_last() =~= entries@.take(idx as int));
                assert(entries@.take(idx + 1).last() == entries@[idx as int]);
                lemma_rebuild_spec(oldv, entries@.take(idx as int));
                cur.lemma_insert_entry(e, oldv);
            }
            if !contains_id(&sessions, e.0) {
                sessions.push(e.0);
            }
            let pane_known = match find_pane_in(&panes, e.2) {
                Some(_) => true,
                None => false,
            };
            proof {
                assert forall|k: int|
                    0 <= k < panes@.len() implies panes.deep_view()[k]
                    == cur.panes[k] by {}
                assert(pane_known == cur.has_pane(e.2));
            }
            let wopt = find_window_in(&windows, e.1);
            if !pane_known {
                let told = self.find_pane_idx(e.2);
                let title = match told {
                    Some(k) => {
                        proof {
                            assert(oldv.panes[k as int] == self.panes@[k as int].deep_view());
                            assert(oldv.has_pane(e.2)) by {
                                assert(oldv.panes[k as int].id == e.2);
                            }
                            assert(oldv.pane_idx(e.2) == k as int);
                        }
                        self.panes[k].title.clone()
                    }
                    None => String::new(),
                };
                proof {
                    assert(title@ == oldv.carried_title(e.2));
                }
                match wopt {
                    Some(i) => {
                        proof {
                            assert(cur.has_window(e.1)) by {
                                assert(cur.windows[i as int].id == e.1);
                            }
                            assert(cur.win_idx(e.1) == i as int);
                        }
                        windows[i].panes.push(e.2);
                    }
                    None => {
                        proof {
                            if cur.has_window(e.1) {
                                let y = choose|y: int|
                                    0 <= y < cur.windows.len() && cur.windows[y].id == e.1;
                                assert(windows.deep_view()[y].id != e.1);
                            }
                        }
                        let mut pl: Vec<u32> = Vec::new();
                        pl.push(e.2);
                        windows.push(Window { id: e.1, panes: pl });
                    }
                }
                panes.push(Pane { id: e.2, title });
            } else {
                match wopt {
                    Some(_) => {
                    }
                    None => {
                        proof {
                            if cur.has_window(e.1) {
                                let y = choose|y: int|
                                    0 <= y < cur.windows.len() && cur.windows[y].id == e.1;
                                assert(windows.deep_view()[y].id != e.1);
                            }
                        }
                        windows.push(Window { id: e.1, panes: Vec::new() });
                    }
                }
            }
            proof {
                assert((TreeV {
                    sessions: sessions@,
                    windows: windows.deep_view(),
                    panes: panes.deep_view(),
                }) =~~= cur.insert_entry(e, oldv));
            }
            idx = idx + 1;
        }
        proof {
            assert(entries@.take(n as int) =~= entries@);
        }
        self.sessions = sessions;
        self.windows = windows;
        self.panes = panes;
        proof {
            lemma_rebuild_spec(oldv, entries@);
            assert(self@ =~~= rebuild_spec(oldv, entries@));
        }
    }
}

} // verus!
