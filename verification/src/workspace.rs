//! A small tab manager: several runtimes, one active, with keyboard
//! shortcuts for tab management.

use vstd::prelude::*;
use crate::geometry::Rect;
use crate::input::{EventOutcome, HypertileEvent, KeyCode, KeyChord};

verus! {

#[verifier::external_type_specification]
#[verifier::external_body]
pub struct ExRatatuiBuffer(ratatui::buffer::Buffer);

/// Uniquely identifies a tab.
#[derive(Debug, Clone, Copy, PartialEq, Eq, PartialOrd, Ord, Hash, Structural)]
pub struct TabId(pub usize);

impl TabId {
    /// The underlying value of the identifier.
    pub fn get(&self) -> (r: usize)
        ensures
            r == self.0,
    {
        self.0
    }
}

/// The character of a decimal digit.
pub open spec fn digit_char(d: nat) -> char {
    (48 + d) as char
}

/// `n` written in decimal, without sign or leading zeros.
pub open spec fn decimal(n: nat) -> Seq<char>
    decreases n,
{
    if n < 10 {
        seq![digit_char(n)]
    } else {
        decimal(n / 10).push(digit_char(n % 10))
    }
}

/// Calls `ToString::to_string` on a `usize`, whose `Display` writes the
/// number in decimal with no sign, padding or leading zeros.
#[verifier::external_body]
fn usize_to_decimal(n: usize) -> (r: String)
    ensures
        r@ == decimal(n as nat),
{
    n.to_string()
}

/// Something that takes the events a workspace does not keep for itself.
pub trait EventTarget: Sized {
    /// Handling `event` may leave `after` in place of `self`, answering `r`.
    spec fn handled(&self, event: HypertileEvent, after: Self, r: EventOutcome) -> bool;

    fn handle_event(&mut self, event: HypertileEvent) -> (r: EventOutcome)
        ensures
            old(self).handled(event, *final(self), r),
    ;

    /// `r` is an answer this target may give to `next_frame_in`.
    spec fn frame_wait(&self, r: Option<core::time::Duration>) -> bool;

    /// How long until the target wants to draw again, if it does.
    fn next_frame_in(&self) -> (r: Option<core::time::Duration>)
        ensures
            self.frame_wait(r),
    ;

    /// Drawing into `area` may leave `after` in place of `self`.
    spec fn drawn(&self, area: Rect, after: Self) -> bool;

    /// Draws the target into `area` of `buf`.
    fn render(&mut self, area: Rect, buf: &mut ratatui::buffer::Buffer)
        ensures
            old(self).drawn(area, *final(self)),
    ;
}

/// One tab.
struct Tab<R> {
    tab_id: TabId,
    label: String,
    runtime: R,
}

/// A tab as seen from outside: its id and its label.
pub struct TabModel {
    pub id: TabId,
    pub label: Seq<char>,
}

/// Command understood by [`WorkspaceRuntime`].
#[derive(Debug, Clone, PartialEq, Eq)]
pub enum WorkspaceAction {
    /// Add a tab and switch to it.
    NewTab,
    /// Remove one tab by index.
    CloseTab(usize),
    /// Move to the next tab, wrapping at the end.
    NextTab,
    /// Move to the previous tab, wrapping at the start.
    PrevTab,
    /// Focus a specific tab by index.
    GoToTab(usize),
    /// Replace one tab label.
    RenameTab(usize, String),
}

/// Tab manager around a collection of runtimes, made by `factory`.
#[verifier::reject_recursive_types(R)]
pub struct WorkspaceRuntime<R, F: Fn() -> R> {
    tabs: Vec<Tab<R>>,
    active: usize,
    next_tab_id: usize,
    factory: F,
    /// Every tab id handed out so far, open or closed.
    issued: Ghost<Set<usize>>,
}

/// What a workspace holds, apart from the runtimes and the factory.
pub struct WorkspaceModel {
    pub tabs: Seq<TabModel>,
    pub active: int,
    pub next_id: usize,
}

/// The workspace after one action.
pub open spec fn after_action(m: WorkspaceModel, action: WorkspaceAction) -> WorkspaceModel {
    let n = m.tabs.len() as int;
    match action {
        WorkspaceAction::NewTab => WorkspaceModel {
            tabs: m.tabs.push(TabModel { id: TabId(m.next_id), label: decimal((n + 1) as nat) }),
            active: n,
            next_id: (m.next_id + 1) as usize,
        },
        WorkspaceAction::CloseTab(i) => if n <= 1 || i >= n {
            m
        } else {
            WorkspaceModel {
                tabs: m.tabs.remove(i as int),
                active: active_after_close(m.active, i as int, n - 1),
                ..m
            }
        },
        WorkspaceAction::NextTab => WorkspaceModel { active: (m.active + 1) % n, ..m },
        WorkspaceAction::PrevTab => WorkspaceModel { active: (m.active + n - 1) % n, ..m },
        WorkspaceAction::GoToTab(i) => if i < n {
            WorkspaceModel { active: i as int, ..m }
        } else {
            m
        },
        WorkspaceAction::RenameTab(i, label) => if i < n {
            WorkspaceModel {
                tabs: m.tabs.update(i as int, TabModel { id: m.tabs[i as int].id, label: label@ }),
                ..m
            }
        } else {
            m
        },
    }
}

/// The tab-management action a `Ctrl` shortcut stands for: `Ctrl+t` opens
/// a tab, `Ctrl+w` closes the active one, `Ctrl+n` and `Ctrl+Right` go to
/// the next, `Ctrl+p` and `Ctrl+Left` to the previous.
pub open spec fn shortcut_action(event: HypertileEvent, active: usize) -> Option<WorkspaceAction> {
    match event {
        HypertileEvent::Key(chord) => if chord.modifiers.0 == 2 {
            match chord.code {
                KeyCode::Char(c) => if c == 't' {
                    Some(WorkspaceAction::NewTab)
                } else if c == 'w' {
                    Some(WorkspaceAction::CloseTab(active))
                } else if c == 'n' {
                    Some(WorkspaceAction::NextTab)
                } else if c == 'p' {
                    Some(WorkspaceAction::PrevTab)
                } else {
                    None
                },
                KeyCode::Right => Some(WorkspaceAction::NextTab),
                KeyCode::Left => Some(WorkspaceAction::PrevTab),
                _ => None,
            }
        } else {
            None
        },
        _ => None,
    }
}

/// The event is a press of `code` with `Ctrl` alone held.
pub open spec fn ctrl_key(event: HypertileEvent, code: KeyCode) -> bool {
    event matches HypertileEvent::Key(chord) && chord.modifiers.0 == 2 && chord.code == code
}

/// What the `Ctrl` shortcuts do to the tabs, for any tab list and active
/// tab: `Ctrl+n` and `Ctrl+Right` make the tab after the active one
/// active (wrapping to the first), `Ctrl+p` and `Ctrl+Left` the one before
/// it (wrapping to the last), `Ctrl+t` appends a tab and makes it active,
/// `Ctrl+w` removes the active tab when it is not the only one; a key
/// with another modifier set, and any other event, is no shortcut.
pub proof fn lemma_shortcuts_move_between_tabs(m: WorkspaceModel, event: HypertileEvent)
    requires
        0 <= m.active < m.tabs.len() <= usize::MAX,
    ensures
        ctrl_key(event, KeyCode::Char('n')) || ctrl_key(event, KeyCode::Right) ==> {
            let a = shortcut_action(event, m.active as usize);
            &&& a is Some
            &&& after_action(m, a->0).tabs == m.tabs
            &&& after_action(m, a->0).active == if m.active + 1 == m.tabs.len() {
                0
            } else {
                m.active + 1
            }
        },
        ctrl_key(event, KeyCode::Char('p')) || ctrl_key(event, KeyCode::Left) ==> {
            let a = shortcut_action(event, m.active as usize);
            &&& a is Some
            &&& after_action(m, a->0).tabs == m.tabs
            &&& after_action(m, a->0).active == if m.active == 0 {
                m.tabs.len() - 1
            } else {
                m.active - 1
            }
        },
        ctrl_key(event, KeyCode::Char('t')) ==> {
            let a = shortcut_action(event, m.active as usize);
            &&& a is Some
            &&& after_action(m, a->0).tabs.len() == m.tabs.len() + 1
            &&& after_action(m, a->0).tabs.drop_last() == m.tabs
            &&& after_action(m, a->0).active == m.tabs.len()
        },
        ctrl_key(event, KeyCode::Char('w')) && m.tabs.len() > 1 ==> {
            let a = shortcut_action(event, m.active as usize);
            &&& a is Some
            &&& after_action(m, a->0).tabs == m.tabs.remove(m.active)
        },
        (event matches HypertileEvent::Key(chord) && chord.modifiers.0 != 2) ==> shortcut_action(
            event,
            m.active as usize,
        ) is None,
        !(event is Key) ==> shortcut_action(event, m.active as usize) is None,
{
    let n = m.tabs.len() as int;
    if m.active + 1 == n {
        vstd::arithmetic::div_mod::lemma_mod_self_0(n);
    } else {
        vstd::arithmetic::div_mod::lemma_small_mod((m.active + 1) as nat, n as nat);
    }
    if m.active == 0 {
        vstd::arithmetic::div_mod::lemma_small_mod((n - 1) as nat, n as nat);
    } else {
        vstd::arithmetic::div_mod::lemma_mod_add_multiples_vanish(m.active - 1, n);
        vstd::arithmetic::div_mod::lemma_small_mod((m.active - 1) as nat, n as nat);
        assert(m.active + n - 1 == n + (m.active - 1));
    }
    assert(m.tabs.push(TabModel { id: TabId(m.next_id), label: decimal((n + 1) as nat) }).drop_last() =~= m.tabs);
}

/// How the runtimes change under an action: a new tab brings one made by
/// the factory, a close that happens removes one, nothing else touches
/// them.
pub open spec fn runtimes_after<R, F: Fn() -> R>(
    action: WorkspaceAction,
    m: WorkspaceModel,
    before: Seq<R>,
    after: Seq<R>,
    factory: F,
) -> bool {
    match action {
        WorkspaceAction::NewTab => after.len() == before.len() + 1 && after.drop_last() == before
            && factory.ensures((), after.last()),
        WorkspaceAction::CloseTab(i) => after == if m.tabs.len() <= 1 || i >= m.tabs.len() {
            before
        } else {
            before.remove(i as int)
        },
        _ => after == before,
    }
}

/// How the handed-out tab ids change under an action: a new tab adds the
/// next id, nothing else adds any.
pub open spec fn issued_after(action: WorkspaceAction, next_id: usize, before: Set<usize>, after: Set<usize>) -> bool {
    if action is NewTab {
        after == before.insert(next_id)
    } else {
        after == before
    }
}

/// Where the active tab goes when the tab at `index` closes.
pub open spec fn active_after_close(active: int, index: int, remaining: int) -> int {
    if active >= remaining {
        remaining - 1
    } else if active > index {
        active - 1
    } else {
        active
    }
}

impl<R, F: Fn() -> R> WorkspaceRuntime<R, F> {
    /// The tabs, in order.
    pub open spec fn tabs(&self) -> Seq<TabModel> {
        self.model().tabs
    }

    /// The runtime of each tab, in order.
    pub closed spec fn runtimes(&self) -> Seq<R> {
        self.tabs@.map_values(|t: Tab<R>| t.runtime)
    }

    /// Index of the active tab.
    pub open spec fn active(&self) -> int {
        self.model().active
    }

    /// The id the next tab gets.
    pub open spec fn next_id(&self) -> usize {
        self.model().next_id
    }

    /// The tabs, the active index and the next tab id.
    pub closed spec fn model(&self) -> WorkspaceModel {
        WorkspaceModel {
            tabs: self.tabs@.map_values(|t: Tab<R>| TabModel { id: t.tab_id, label: t.label@ }),
            active: self.active as int,
            next_id: self.next_tab_id,
        }
    }

    /// Every tab id handed out so far, open or closed.
    pub closed spec fn issued(&self) -> Set<usize> {
        self.issued@
    }

    pub closed spec fn factory(&self) -> F {
        self.factory
    }

    /// There is at least one tab, the active index points at one, and tab
    /// ids strictly increase and stay below the next id.
    pub closed spec fn wf(&self) -> bool {
        &&& 1 <= self.tabs@.len() <= self.next_tab_id
        &&& self.active < self.tabs@.len()
        &&& forall|i: int, j: int|
            0 <= i < j < self.tabs@.len() ==> (#[trigger] self.tabs@[i]).tab_id.0 < (#[trigger] self.tabs@[j]).tab_id.0
        &&& forall|i: int| 0 <= i < self.tabs@.len() ==> (#[trigger] self.tabs@[i]).tab_id.0 < self.next_tab_id
        &&& forall|i: int| 0 <= i < self.tabs@.len() ==> self.issued@.contains((#[trigger] self.tabs@[i]).tab_id.0)
        &&& forall|t: usize| #[trigger] self.issued@.contains(t) ==> t < self.next_tab_id
        &&& self.factory.requires(())
    }

    /// A workspace with one tab, labelled `1`, made by `factory`.
    pub fn new(factory: F) -> (r: Self)
        requires
            factory.requires(()),
        ensures
            r.wf(),
            r.tabs() == seq![TabModel { id: TabId(0), label: seq!['1'] }],
            r.runtimes().len() == 1,
            factory.ensures((), r.runtimes()[0]),
            r.active() == 0,
            r.next_id() == 1,
            r.factory() == factory,
            r.issued() == Set::<usize>::empty().insert(0),
    {
        let first = factory();
        let mut tabs: Vec<Tab<R>> = Vec::new();
        let label = usize_to_decimal(1);
        tabs.push(Tab { tab_id: TabId(0), label, runtime: first });
        let r = WorkspaceRuntime {
            tabs,
            active: 0,
            next_tab_id: 1,
            factory,
            issued: Ghost(Set::empty().insert(0)),
        };
        proof {
            assert(decimal(1) =~= seq!['1']);
            assert(r.tabs() =~= seq![TabModel { id: TabId(0), label: seq!['1'] }]);
        }
        r
    }

    pub fn active_runtime(&self) -> (r: &R)
        requires
            self.wf(),
        ensures
            *r == self.runtimes()[self.active()],
    {
        &self.tabs[self.active].runtime
    }

    /// How long until the active tab wants to draw again: the answer of
    /// its runtime.
    pub fn next_frame_in(&self) -> (r: Option<core::time::Duration>) where R: EventTarget
        requires
            self.wf(),
        ensures
            self.runtimes()[self.active()].frame_wait(r),
    {
        self.active_runtime().next_frame_in()
    }

    /// Draws the active tab's runtime into `area`; the tabs and the other
    /// runtimes stay as they are.
    pub fn render(&mut self, area: Rect, buf: &mut ratatui::buffer::Buffer) where R: EventTarget
        requires
            old(self).wf(),
        ensures
            final(self).wf(),
            final(self).model() == old(self).model(),
            final(self).issued() == old(self).issued(),
            final(self).factory() == old(self).factory(),
            final(self).runtimes().len() == old(self).runtimes().len(),
            old(self).runtimes()[old(self).active()].drawn(area, final(self).runtimes()[old(self).active()]),
            forall|i: int|
                0 <= i < old(self).runtimes().len() && i != old(self).active() ==> #[trigger] final(self).runtimes()[i]
                    == old(self).runtimes()[i],
    {
        let target = self.active_runtime_mut();
        target.render(area, buf);
    }

    pub fn active_runtime_mut(&mut self) -> (r: &mut R)
        requires
            old(self).wf(),
        ensures
            *r == old(self).runtimes()[old(self).active()],
            final(self).runtimes() == old(self).runtimes().update(old(self).active(), *final(r)),
            final(self).tabs() == old(self).tabs(),
            final(self).active() == old(self).active(),
            final(self).next_id() == old(self).next_id(),
            final(self).factory() == old(self).factory(),
            final(self).issued() == old(self).issued(),
            final(self).wf(),
    {
        &mut self.tabs[self.active].runtime
    }

    pub fn tab_count(&self) -> (r: usize)
        ensures
            r == self.tabs().len(),
    {
        self.tabs.len()
    }

    pub fn active_tab_index(&self) -> (r: usize)
        ensures
            r == self.active(),
    {
        self.active
    }

    pub fn active_tab_id(&self) -> (r: TabId)
        requires
            self.wf(),
        ensures
            r == self.tabs()[self.active()].id,
    {
        self.tabs[self.active].tab_id
    }

    /// The ids of the open tabs, in tab order.
    pub fn open_tab_ids(&self) -> (r: Vec<TabId>)
        ensures
            r@ == self.tabs().map_values(|t: TabModel| t.id),
    {
        let mut out: Vec<TabId> = Vec::new();
        let n = self.tabs.len();
        for i in 0..n
            invariant
                n == self.tabs@.len(),
                out@ == self.tabs().map_values(|t: TabModel| t.id).take(i as int),
        {
            out.push(self.tabs[i].tab_id);
            assert(self.tabs().map_values(|t: TabModel| t.id).take(i + 1) =~= self.tabs().map_values(
                |t: TabModel| t.id,
            ).take(i as int).push(self.tabs@[i as int].tab_id));
        }
        assert(self.tabs().map_values(|t: TabModel| t.id).take(n as int) =~= self.tabs().map_values(
            |t: TabModel| t.id,
        ));
        out
    }

    /// Whether a tab with this id is open.
    pub fn is_tab_open(&self, tab_id: TabId) -> (r: bool)
        ensures
            r == exists|i: int| 0 <= i < self.tabs().len() && (#[trigger] self.tabs()[i]).id == tab_id,
    {
        let n = self.tabs.len();
        for i in 0..n
            invariant
                n == self.tabs@.len(),
                forall|k: int| 0 <= k < i ==> (#[trigger] self.tabs()[k]).id != tab_id,
        {
            if self.tabs[i].tab_id == tab_id {
                assert(self.tabs()[i as int].id == tab_id);
                return true;
            }
        }
        false
    }

    /// Each tab's label, with whether it is the active tab.
    pub fn tab_labels(&self) -> (r: Vec<(&str, bool)>)
        ensures
            r@.len() == self.tabs().len(),
            forall|i: int|
                0 <= i < r@.len() ==> (#[trigger] r@[i]).0@ == self.tabs()[i].label && r@[i].1 == (i
                    == self.active()),
    {
        let mut out: Vec<(&str, bool)> = Vec::new();
        let n = self.tabs.len();
        for i in 0..n
            invariant
                n == self.tabs@.len(),
                out@.len() == i,
                forall|k: int|
                    0 <= k < i ==> (#[trigger] out@[k]).0@ == self.tabs()[k].label && out@[k].1 == (k
                        == self.active()),
        {
            out.push((self.tabs[i].label.as_str(), i == self.active));
        }
        out
    }

    /// Adds a tab made by the factory, labelled with its position, and
    /// switches to it.
    pub fn new_tab(&mut self)
        requires
            old(self).wf(),
            old(self).next_id() < usize::MAX,
        ensures
            final(self).wf(),
            final(self).model() == after_action(old(self).model(), WorkspaceAction::NewTab),
            final(self).runtimes().drop_last() == old(self).runtimes(),
            final(self).factory().ensures((), final(self).runtimes().last()),
            final(self).factory() == old(self).factory(),
            !old(self).issued().contains(old(self).next_id()),
            final(self).issued() == old(self).issued().insert(old(self).next_id()),
    {
        let label = usize_to_decimal(self.tabs.len() + 1);
        let runtime = (self.factory)();
        self.tabs.push(Tab { tab_id: TabId(self.next_tab_id), label, runtime });
        self.issued = Ghost(self.issued@.insert(self.next_tab_id));
        self.next_tab_id = self.next_tab_id + 1;
        self.active = self.tabs.len() - 1;
        proof {
            assert(self.tabs() =~= old(self).tabs().push(
                TabModel {
                    id: TabId(old(self).next_id()),
                    label: decimal(old(self).tabs().len() + 1),
                },
            ));
            assert(self.runtimes().drop_last() =~= old(self).runtimes());
        }
    }

    /// Applies one workspace command.
    pub fn apply_workspace_action(&mut self, action: WorkspaceAction)
        requires
            old(self).wf(),
            action is NewTab ==> old(self).next_id() < usize::MAX,
        ensures
            issued_after(action, old(self).next_id(), old(self).issued(), final(self).issued()),
            final(self).wf(),
            final(self).model() == after_action(old(self).model(), action),
            runtimes_after(
                action,
                old(self).model(),
                old(self).runtimes(),
                final(self).runtimes(),
                old(self).factory(),
            ),
            final(self).factory() == old(self).factory(),
    {
        match action {
            WorkspaceAction::NewTab => self.new_tab(),
            WorkspaceAction::CloseTab(i) => self.close_tab(i),
            WorkspaceAction::NextTab => self.next_tab(),
            WorkspaceAction::PrevTab => self.prev_tab(),
            WorkspaceAction::GoToTab(i) => self.go_to_tab(i),
            WorkspaceAction::RenameTab(i, label) => self.rename_tab(i, label),
        }
    }

    /// Handles one event: the `Ctrl` shortcuts of `shortcut_action` manage
    /// tabs and are consumed; everything else goes to the active runtime,
    /// whose answer is returned.
    pub fn handle_event(&mut self, event: HypertileEvent) -> (r: EventOutcome) where R: EventTarget
        requires
            old(self).wf(),
            shortcut_action(event, old(self).model().active as usize) == Some(WorkspaceAction::NewTab)
                ==> old(self).next_id() < usize::MAX,
        ensures
            final(self).wf(),
            final(self).factory() == old(self).factory(),
            shortcut_action(event, old(self).model().active as usize) matches Some(action) ==> {
                &&& r == EventOutcome::Consumed
                &&& final(self).model() == after_action(old(self).model(), action)
                &&& runtimes_after(
                    action,
                    old(self).model(),
                    old(self).runtimes(),
                    final(self).runtimes(),
                    old(self).factory(),
                )
                &&& issued_after(action, old(self).next_id(), old(self).issued(), final(self).issued())
            },
            shortcut_action(event, old(self).model().active as usize) is None ==> {
                &&& final(self).model() == old(self).model()
                &&& final(self).issued() == old(self).issued()
                &&& old(self).runtimes()[old(self).model().active].handled(
                    event,
                    final(self).runtimes()[old(self).model().active],
                    r,
                )
                &&& final(self).runtimes().len() == old(self).runtimes().len()
                &&& forall|i: int|
                    0 <= i < old(self).runtimes().len() && i != old(self).model().active ==> #[trigger] final(self).runtimes()[i]
                        == old(self).runtimes()[i]
            },
    {
        if let HypertileEvent::Key(chord) = &event {
            if chord.modifiers.0 == 2 {
                match chord.code {
                    KeyCode::Char('t') => {
                        self.new_tab();
                        return EventOutcome::Consumed;
                    },
                    KeyCode::Char('w') => {
                        let active = self.active;
                        self.close_tab(active);
                        return EventOutcome::Consumed;
                    },
                    KeyCode::Char('n') | KeyCode::Right => {
                        self.next_tab();
                        return EventOutcome::Consumed;
                    },
                    KeyCode::Char('p') | KeyCode::Left => {
                        self.prev_tab();
                        return EventOutcome::Consumed;
                    },
                    _ => {},
                }
            }
        }
        let ghost before = self.runtimes();
        let target = self.active_runtime_mut();
        let r = target.handle_event(event);
        proof {
            assert(self.runtimes().len() == before.len());
        }
        r
    }

    /// Closes the tab at `index`; does nothing if it is the last tab or the
    /// index is out of range.
    pub fn close_tab(&mut self, index: usize)
        requires
            old(self).wf(),
        ensures
            final(self).wf(),
            final(self).model() == after_action(old(self).model(), WorkspaceAction::CloseTab(index)),
            final(self).runtimes() == if old(self).tabs().len() <= 1 || index >= old(self).tabs().len() {
                old(self).runtimes()
            } else {
                old(self).runtimes().remove(index as int)
            },
            final(self).factory() == old(self).factory(),
            final(self).issued() == old(self).issued(),
    {
        if self.tabs.len() <= 1 || index >= self.tabs.len() {
            return;
        }
        let _closed = self.tabs.remove(index);
        if self.active >= self.tabs.len() {
            self.active = self.tabs.len() - 1;
        } else if self.active > index {
            self.active = self.active - 1;
        }
        proof {
            assert(self.tabs() =~= old(self).tabs().remove(index as int));
            assert(self.runtimes() =~= old(self).runtimes().remove(index as int));
            assert forall|i: int, j: int| 0 <= i < j < self.tabs@.len() implies (#[trigger] self.tabs@[i]).tab_id.0 < (#[trigger] self.tabs@[j]).tab_id.0 by {
                let oi = if i < index { i } else { i + 1 };
                let oj = if j < index { j } else { j + 1 };
                assert(self.tabs@[i] == old(self).tabs@[oi]);
                assert(self.tabs@[j] == old(self).tabs@[oj]);
                assert(old(self).tabs@[oi].tab_id.0 < old(self).tabs@[oj].tab_id.0);
            }
            assert forall|i: int| 0 <= i < self.tabs@.len() implies (#[trigger] self.tabs@[i]).tab_id.0 < self.next_tab_id by {
                let oi = if i < index { i } else { i + 1 };
                assert(self.tabs@[i] == old(self).tabs@[oi]);
            }
        }
    }

    /// Moves to the next tab, wrapping around.
    pub fn next_tab(&mut self)
        requires
            old(self).wf(),
        ensures
            final(self).wf(),
            final(self).model() == after_action(old(self).model(), WorkspaceAction::NextTab),
            final(self).runtimes() == old(self).runtimes(),
            final(self).factory() == old(self).factory(),
            final(self).issued() == old(self).issued(),
    {
        let n = self.tabs.len();
        self.active = if self.active + 1 == n {
            0
        } else {
            self.active + 1
        };
        proof {
            let a = old(self).active as int;
            if a + 1 == n {
                vstd::arithmetic::div_mod::lemma_mod_self_0(n as int);
            } else {
                vstd::arithmetic::div_mod::lemma_small_mod((a + 1) as nat, n as nat);
            }
        }
    }

    /// Moves to the previous tab, wrapping around.
    pub fn prev_tab(&mut self)
        requires
            old(self).wf(),
        ensures
            final(self).wf(),
            final(self).model() == after_action(old(self).model(), WorkspaceAction::PrevTab),
            final(self).runtimes() == old(self).runtimes(),
            final(self).factory() == old(self).factory(),
            final(self).issued() == old(self).issued(),
    {
        let n = self.tabs.len();
        self.active = if self.active == 0 {
            n - 1
        } else {
            self.active - 1
        };
        proof {
            let a = old(self).active as int;
            if a == 0 {
                vstd::arithmetic::div_mod::lemma_small_mod((n - 1) as nat, n as nat);
            } else {
                vstd::arithmetic::div_mod::lemma_mod_add_multiples_vanish(a - 1, n as int);
                vstd::arithmetic::div_mod::lemma_small_mod((a - 1) as nat, n as nat);
                assert(a + n - 1 == n + (a - 1));
            }
        }
    }

    /// Focuses the tab at `index`; does nothing if it is out of range.
    pub fn go_to_tab(&mut self, index: usize)
        requires
            old(self).wf(),
        ensures
            final(self).wf(),
            final(self).model() == after_action(old(self).model(), WorkspaceAction::GoToTab(index)),
            final(self).runtimes() == old(self).runtimes(),
            final(self).factory() == old(self).factory(),
            final(self).issued() == old(self).issued(),
    {
        if index < self.tabs.len() {
            self.active = index;
        }
    }

    /// Replaces the label of the tab at `index`; does nothing if it is out
    /// of range.
    pub fn rename_tab(&mut self, index: usize, label: String)
        requires
            old(self).wf(),
        ensures
            final(self).wf(),
            final(self).model() == after_action(old(self).model(), WorkspaceAction::RenameTab(index, label)),
            final(self).runtimes() == old(self).runtimes(),
            final(self).factory() == old(self).factory(),
            final(self).issued() == old(self).issued(),
    {
        if index < self.tabs.len() {
            let old_tab = self.tabs.remove(index);
            let Tab { tab_id, label: _, runtime } = old_tab;
            self.tabs.insert(index, Tab { tab_id, label, runtime });
            proof {
                assert(self.tabs@ == old(self).tabs@.update(index as int, Tab { tab_id, label, runtime }));
                assert(self.tabs() =~= old(self).tabs().update(
                    index as int,
                    TabModel { id: old(self).tabs()[index as int].id, label: label@ },
                ));
                assert(self.runtimes() =~= old(self).runtimes());
            }
        }
    }
}

/// Every workspace has a tab, its active index points at an open tab, tab
/// ids strictly increase along the tabs (so none repeats), every open id
/// was handed out, and every id handed out so far, open or closed, is
/// below the id the next tab gets (so no id is handed out twice).
pub proof fn lemma_workspace_invariant<R, F: Fn() -> R>(ws: &WorkspaceRuntime<R, F>)
    requires
        ws.wf(),
    ensures
        ws.tabs().len() >= 1,
        0 <= ws.active() < ws.tabs().len(),
        forall|i: int, j: int| 0 <= i < j < ws.tabs().len() ==> (#[trigger] ws.tabs()[i]).id.0 < (#[trigger] ws.tabs()[j]).id.0,
        forall|i: int| 0 <= i < ws.tabs().len() ==> (#[trigger] ws.tabs()[i]).id.0 < ws.next_id(),
        forall|i: int| 0 <= i < ws.tabs().len() ==> ws.issued().contains((#[trigger] ws.tabs()[i]).id.0),
        forall|t: usize| #[trigger] ws.issued().contains(t) ==> t < ws.next_id(),
        ws.runtimes().len() == ws.tabs().len(),
        ws.factory().requires(()),
{
    assert forall|i: int| 0 <= i < ws.tabs().len() implies ws.issued().contains((#[trigger] ws.tabs()[i]).id.0) by {
        assert(ws.issued@.contains(ws.tabs@[i].tab_id.0));
    }
    assert forall|i: int, j: int| 0 <= i < j < ws.tabs().len() implies (#[trigger] ws.tabs()[i]).id.0 < (#[trigger] ws.tabs()[j]).id.0 by {
        assert(ws.tabs@[i].tab_id.0 < ws.tabs@[j].tab_id.0);
    }
    assert forall|i: int| 0 <= i < ws.tabs().len() implies (#[trigger] ws.tabs()[i]).id.0 < ws.next_id() by {
        assert(ws.tabs@[i].tab_id.0 < ws.next_tab_id);
    }
}

/// Going to the previous tab undoes going to the next, and the other way
/// round.
pub proof fn lemma_prev_undoes_next(m: WorkspaceModel)
    requires
        0 <= m.active < m.tabs.len(),
    ensures
        after_action(after_action(m, WorkspaceAction::NextTab), WorkspaceAction::PrevTab) == m,
        after_action(after_action(m, WorkspaceAction::PrevTab), WorkspaceAction::NextTab) == m,
{
    let n = m.tabs.len() as int;
    let a = m.active;
    let nx = (a + 1) % n;
    let pv = (a + n - 1) % n;
    if a + 1 == n {
        vstd::arithmetic::div_mod::lemma_mod_self_0(n);
    } else {
        vstd::arithmetic::div_mod::lemma_small_mod((a + 1) as nat, n as nat);
    }
    if a == 0 {
        vstd::arithmetic::div_mod::lemma_small_mod((n - 1) as nat, n as nat);
    } else {
        vstd::arithmetic::div_mod::lemma_mod_add_multiples_vanish(a - 1, n);
        vstd::arithmetic::div_mod::lemma_small_mod((a - 1) as nat, n as nat);
        assert(a + n - 1 == n + (a - 1));
    }
    // back from next
    if nx == 0 {
        vstd::arithmetic::div_mod::lemma_small_mod((n - 1) as nat, n as nat);
    } else {
        vstd::arithmetic::div_mod::lemma_mod_add_multiples_vanish(nx - 1, n);
        vstd::arithmetic::div_mod::lemma_small_mod((nx - 1) as nat, n as nat);
        assert(nx + n - 1 == n + (nx - 1));
    }
    // forward from prev
    if pv + 1 == n {
        vstd::arithmetic::div_mod::lemma_mod_self_0(n);
    } else {
        vstd::arithmetic::div_mod::lemma_small_mod((pv + 1) as nat, n as nat);
    }
}

/// Closing a tab other than the active one keeps the same tab active.
pub proof fn lemma_close_keeps_active_tab(m: WorkspaceModel, index: usize)
    requires
        0 <= m.active < m.tabs.len(),
        m.tabs.len() > 1,
        index < m.tabs.len(),
        index != m.active,
    ensures
        ({
            let after = after_action(m, WorkspaceAction::CloseTab(index));
            &&& 0 <= after.active < after.tabs.len()
            &&& after.tabs[after.active].id == m.tabs[m.active].id
        }),
{
}

} // verus!
