//! The state of the screen, and how keys change it.

use vstd::hash_map::StringHashMap;
use vstd::prelude::*;

use crate::ops::{self, remote_branch, DeletionResult, DeletionView, PlanView, PlannedDeletion};
use crate::scan::{Base, BaseView, Candidate, CandidateScope, CandidateView, Scan, ScanView};
use crate::session::{self, has_failed};

verus! {

/// A key, as far as the screen tells keys apart.
#[derive(Debug, Clone, Copy, PartialEq, Eq)]
pub enum KeyCode {
    Char(char),
    Up,
    Down,
    Enter,
    Esc,
    Other,
}

/// The keys held down together with another.
#[derive(Debug, Clone, Copy, PartialEq, Eq)]
pub struct KeyModifiers {
    pub shift: bool,
    pub control: bool,
    /// Alt, Super, Hyper or Meta.
    pub other: bool,
}

/// One key press.
#[derive(Debug, Clone, Copy, PartialEq, Eq)]
pub struct KeyEvent {
    pub code: KeyCode,
    pub modifiers: KeyModifiers,
}

impl KeyEvent {
    /// Held down with something other than SHIFT. SHIFT stays allowed:
    /// terminals report 'G' as a shifted 'G'.
    pub open spec fn modified(self) -> bool {
        self.modifiers.control || self.modifiers.other
    }

    /// Ctrl+C.
    pub open spec fn interrupts(self) -> bool {
        self.modifiers.control && (self.code == KeyCode::Char('c') || self.code == KeyCode::Char(
            'C',
        ))
    }

    /// The plain character that was typed.
    pub open spec fn is(self, c: char) -> bool {
        self.code == KeyCode::Char(c)
    }

    pub fn new(code: KeyCode, modifiers: KeyModifiers) -> (k: KeyEvent)
        ensures
            k == (KeyEvent { code, modifiers }),
    {
        KeyEvent { code, modifiers }
    }

    /// A key pressed alone.
    pub fn plain(code: KeyCode) -> (k: KeyEvent)
        ensures
            k.code == code,
            !k.modified(),
            !k.modifiers.shift,
    {
        KeyEvent {
            code,
            modifiers: KeyModifiers { shift: false, control: false, other: false },
        }
    }

    /// Whether this is Ctrl+C.
    pub fn is_interrupt(&self) -> (r: bool)
        ensures
            r == self.interrupts(),
    {
        self.modifiers.control && match self.code {
            KeyCode::Char(c) => c == 'c' || c == 'C',
            _ => false,
        }
    }
}

#[derive(Debug, Clone, Copy, PartialEq, Eq, Structural)]
pub enum Screen {
    List,
    Confirm,
    Deleting,
    Results,
}

/// A candidate and what is to happen to it.
pub struct Item {
    pub candidate: Candidate,
    pub selected: bool,
    pub remote: bool,
}

/// What an [`Item`] holds.
pub struct ItemView {
    pub candidate: CandidateView,
    pub selected: bool,
    pub remote: bool,
}

impl View for Item {
    type V = ItemView;

    open spec fn view(&self) -> ItemView {
        ItemView { candidate: self.candidate@, selected: self.selected, remote: self.remote }
    }
}

impl DeepView for Item {
    type V = ItemView;

    open spec fn deep_view(&self) -> ItemView {
        self@
    }
}

impl ItemView {
    /// There is a live remote branch to delete.
    pub open spec fn can_remote(self) -> bool {
        ops::counterpart(self.candidate) is Some
    }

    /// How a candidate starts out: verified ones selected, and remote
    /// deletion armed where it is all there is to do or was asked for.
    pub open spec fn fresh(c: CandidateView, preselect_remote: bool) -> ItemView {
        ItemView {
            candidate: c,
            selected: c.selected_by_default(),
            remote: (c.scope == CandidateScope::RemoteOnly || preselect_remote)
                && ops::counterpart(c) is Some,
        }
    }
}

impl Item {
    pub fn can_remote(&self) -> (r: bool)
        ensures
            r == self@.can_remote(),
    {
        remote_branch(&self.candidate).is_some()
    }
}

/// The only side effect the UI can request from its driver.
pub enum Action {
    Execute(Vec<PlannedDeletion>),
}

/// The deletions that an action asks for.
pub open spec fn action_plans(a: Option<Action>) -> Option<Seq<PlanView>> {
    match a {
        Some(Action::Execute(plans)) => Some(plans.deep_view()),
        None => None,
    }
}

pub struct App {
    pub base: Base,
    pub items: Vec<Item>,
    pub cursor: usize,
    pub screen: Screen,
    pub results: Vec<DeletionResult>,
    pub should_quit: bool,
    pub now_unix: i64,
    pub warnings: Vec<String>,
    /// Branch currently being deleted (shown while the batch runs).
    pub in_flight: Option<String>,
    pub results_scroll: u16,
    /// Whether the commit-preview panel is showing.
    pub preview_open: bool,
    /// Rendered previews, by branch name. App never runs git itself — the
    /// driver answers `pending_preview()` and fills these in — so the state
    /// machine stays pure and fully unit-testable.
    pub previews: StringHashMap<String>,
}

/// What an [`App`] holds.
pub struct AppView {
    pub base: BaseView,
    pub items: Seq<ItemView>,
    pub cursor: usize,
    pub screen: Screen,
    pub results: Seq<DeletionView>,
    pub should_quit: bool,
    pub now_unix: i64,
    pub warnings: Seq<Seq<char>>,
    pub in_flight: Option<Seq<char>>,
    pub results_scroll: u16,
    pub preview_open: bool,
    pub previews: Map<Seq<char>, Seq<char>>,
}

impl View for App {
    type V = AppView;

    open spec fn view(&self) -> AppView {
        AppView {
            base: self.base@,
            items: self.items.deep_view(),
            cursor: self.cursor,
            screen: self.screen,
            results: self.results.deep_view(),
            should_quit: self.should_quit,
            now_unix: self.now_unix,
            warnings: self.warnings.deep_view(),
            in_flight: self.in_flight.deep_view(),
            results_scroll: self.results_scroll,
            preview_open: self.preview_open,
            previews: self.previews@.map_values(|s: String| s@),
        }
    }
}

// ---------------------------------------------------------------------------
// What the state says.

/// The items, all selected or none.
pub open spec fn with_selection(items: Seq<ItemView>, on: bool) -> Seq<ItemView> {
    items.map_values(|i: ItemView| ItemView { selected: on, ..i })
}

/// How many of the items have a property.
pub open spec fn count_of(items: Seq<ItemView>, p: spec_fn(ItemView) -> bool) -> nat
    decreases items.len(),
{
    if items.len() == 0 {
        0
    } else {
        count_of(items.drop_last(), p) + if p(items.last()) {
            1nat
        } else {
            0nat
        }
    }
}

/// The deletions that the selection stands for.
pub open spec fn plans_of(items: Seq<ItemView>) -> Seq<PlanView>
    decreases items.len(),
{
    if items.len() == 0 {
        Seq::empty()
    } else {
        let earlier = plans_of(items.drop_last());
        let i = items.last();
        if i.selected {
            earlier.push(PlanView { candidate: i.candidate, delete_remote: i.remote })
        } else {
            earlier
        }
    }
}

impl AppView {
    /// How the screen starts out.
    pub open spec fn fresh(
        scan: ScanView,
        preselect_remote: bool,
        now_unix: i64,
        preview_open: bool,
    ) -> AppView {
        AppView {
            base: scan.base,
            items: scan.candidates.map_values(
                |c: CandidateView| ItemView::fresh(c, preselect_remote),
            ),
            cursor: 0,
            screen: Screen::List,
            results: Seq::empty(),
            should_quit: false,
            now_unix,
            warnings: scan.warnings,
            in_flight: None,
            results_scroll: 0,
            preview_open,
            previews: Map::empty(),
        }
    }

    /// The candidate under the cursor.
    pub open spec fn highlighted(self) -> Option<CandidateView> {
        if self.cursor < self.items.len() {
            Some(self.items[self.cursor as int].candidate)
        } else {
            None
        }
    }

    /// The branch whose preview is wanted and not there.
    pub open spec fn pending(self) -> Option<Seq<char>> {
        match self.highlighted() {
            Some(c) => if self.preview_open && !self.previews.dom().contains(c.name) {
                Some(c.name)
            } else {
                None
            },
            None => None,
        }
    }

    /// The preview of the highlighted branch.
    pub open spec fn shown_preview(self) -> Option<Seq<char>> {
        match self.highlighted() {
            Some(c) => if self.previews.dom().contains(c.name) {
                Some(self.previews[c.name])
            } else {
                None
            },
            None => None,
        }
    }

    pub open spec fn selected(self) -> nat {
        count_of(self.items, |i: ItemView| i.selected)
    }

    pub open spec fn forced(self) -> nat {
        count_of(self.items, |i: ItemView| i.selected && i.candidate.needs_force())
    }

    pub open spec fn remote(self) -> nat {
        count_of(self.items, |i: ItemView| i.selected && i.remote)
    }

    pub open spec fn remote_only(self) -> nat {
        count_of(self.items, |i: ItemView| i.candidate.scope == CandidateScope::RemoteOnly)
    }

    /// The highest place the cursor can take.
    pub open spec fn last(self) -> int {
        if self.items.len() > 0 {
            self.items.len() - 1
        } else {
            0
        }
    }

    // -----------------------------------------------------------------------
    // What keys do to it.

    /// A key on the list.
    pub open spec fn on_list(self, key: KeyEvent) -> AppView {
        let c = self.cursor as int;
        if key.is('j') || key.code == KeyCode::Down {
            AppView {
                cursor: (if c + 1 < self.last() {
                    c + 1
                } else {
                    self.last()
                }) as usize,
                ..self
            }
        } else if key.is('k') || key.code == KeyCode::Up {
            AppView {
                cursor: (if c > 0 {
                    c - 1
                } else {
                    0
                }) as usize,
                ..self
            }
        } else if key.is('g') {
            AppView { cursor: 0, ..self }
        } else if key.is('G') {
            AppView { cursor: self.last() as usize, ..self }
        } else if key.is(' ') {
            if c < self.items.len() {
                let i = self.items[c];
                AppView {
                    items: self.items.update(c, ItemView { selected: !i.selected, ..i }),
                    ..self
                }
            } else {
                self
            }
        } else if key.is('a') {
            AppView { items: with_selection(self.items, true), ..self }
        } else if key.is('n') {
            AppView { items: with_selection(self.items, false), ..self }
        } else if key.is('r') {
            if c < self.items.len() && self.items[c].can_remote() {
                let i = self.items[c];
                AppView {
                    items: self.items.update(c, ItemView { remote: !i.remote, ..i }),
                    ..self
                }
            } else {
                self
            }
        } else if key.code == KeyCode::Enter {
            if self.selected() > 0 {
                AppView { screen: Screen::Confirm, ..self }
            } else {
                self
            }
        } else if key.is('p') {
            AppView { preview_open: !self.preview_open, ..self }
        } else if key.is('q') || key.code == KeyCode::Esc {
            AppView { should_quit: true, ..self }
        } else {
            self
        }
    }

    /// A key in the confirmation dialog.
    pub open spec fn on_confirm(self, key: KeyEvent) -> AppView {
        if key.is('y') || key.code == KeyCode::Enter {
            AppView { screen: Screen::Deleting, ..self }
        } else if key.is('n') || key.is('q') || key.code == KeyCode::Esc {
            AppView { screen: Screen::List, ..self }
        } else {
            self
        }
    }

    /// A key on the results.
    pub open spec fn on_results(self, key: KeyEvent) -> AppView {
        let s = self.results_scroll as int;
        if key.is('q') || key.code == KeyCode::Esc {
            AppView { should_quit: true, ..self }
        } else if key.is('j') || key.code == KeyCode::Down {
            AppView {
                results_scroll: (if s < u16::MAX {
                    s + 1
                } else {
                    s
                }) as u16,
                ..self
            }
        } else if key.is('k') || key.code == KeyCode::Up {
            AppView {
                results_scroll: (if s > 0 {
                    s - 1
                } else {
                    s
                }) as u16,
                ..self
            }
        } else {
            self
        }
    }

    /// The state after a key. Raw mode swallows SIGINT, so Ctrl+C is honored
    /// here — everywhere. Every other modified key is dropped: Ctrl+N must
    /// not alias to the plain 'n' (deselect all).
    pub open spec fn after(self, key: KeyEvent) -> AppView {
        if key.modified() {
            if key.interrupts() {
                AppView { should_quit: true, ..self }
            } else {
                self
            }
        } else {
            match self.screen {
                Screen::List => self.on_list(key),
                Screen::Confirm => self.on_confirm(key),
                Screen::Deleting => self,
                Screen::Results => self.on_results(key),
            }
        }
    }

    /// What a key asks the driver to delete: the selection, once confirmed.
    pub open spec fn asks(self, key: KeyEvent) -> Option<Seq<PlanView>> {
        if !key.modified() && self.screen == Screen::Confirm && (key.is('y') || key.code
            == KeyCode::Enter) {
            Some(plans_of(self.items))
        } else {
            None
        }
    }
}

// ---------------------------------------------------------------------------
// The functions.

/// Selects all of the items, or none.
fn select_all(items: &mut Vec<Item>, on: bool)
    ensures
        final(items).deep_view() == with_selection(old(items).deep_view(), on),
{
    let ghost start = items.deep_view();
    let n = items.len();
    let mut i: usize = 0;
    while i < n
        invariant
            i <= n,
            n == items@.len(),
            n == start.len(),
            forall|k: int| 0 <= k < i ==> (#[trigger] items@[k])@ == with_selection(start, on)[k],
            forall|k: int| i <= k < n ==> (#[trigger] items@[k])@ == start[k],
        decreases n - i,
    {
        items[i].selected = on;
        i += 1;
    }
    assert(items.deep_view() =~= with_selection(start, on));
}

impl App {
    pub fn new(scan: Scan, preselect_remote: bool, now_unix: i64, preview_open: bool) -> (a: Self)
        ensures
            a@ == AppView::fresh(scan@, preselect_remote, now_unix, preview_open),
    {
        let mut items: Vec<Item> = Vec::new();
        let mut i: usize = 0;
        while i < scan.candidates.len()
            invariant
                i <= scan.candidates@.len(),
                items@.len() == i,
                forall|k: int|
                    0 <= k < i ==> (#[trigger] items@[k])@ == ItemView::fresh(
                        scan.candidates@[k]@,
                        preselect_remote,
                    ),
            decreases scan.candidates@.len() - i,
        {
            let c = &scan.candidates[i];
            let live = remote_branch(c).is_some();
            items.push(
                Item {
                    selected: c.selected_by_default(),
                    remote: (c.scope == CandidateScope::RemoteOnly || preselect_remote) && live,
                    candidate: c.clone(),
                },
            );
            i += 1;
        }
        let a = Self {
            base: scan.base,
            items,
            cursor: 0,
            screen: Screen::List,
            results: Vec::new(),
            should_quit: false,
            now_unix,
            warnings: scan.warnings,
            in_flight: None,
            results_scroll: 0,
            preview_open,
            previews: StringHashMap::new(),
        };
        proof {
            let v = AppView::fresh(scan@, preselect_remote, now_unix, preview_open);
            assert(a@.items =~= v.items);
            assert(a@.results =~= v.results);
            assert(a@.previews =~= v.previews);
        }
        a
    }

    /// The branch the driver should fetch a preview for, if any. None when
    /// the panel is closed or the highlighted branch is already known, so a
    /// closed panel costs nothing and revisiting a branch is free.
    pub fn pending_preview(&self) -> (r: Option<&str>)
        ensures
            r.deep_view() == self@.pending(),
    {
        if !self.preview_open {
            return None;
        }
        match self.highlighted_candidate() {
            Some(c) => if self.previews.contains_key(c.name.as_str()) {
                None
            } else {
                Some(c.name.as_str())
            },
            None => None,
        }
    }

    /// Preview text for the highlighted branch, once the driver supplied it.
    pub fn preview(&self) -> (r: Option<&str>)
        ensures
            r.deep_view() == self@.shown_preview(),
    {
        match self.highlighted_candidate() {
            Some(c) => match self.previews.get(c.name.as_str()) {
                Some(text) => Some(text.as_str()),
                None => None,
            },
            None => None,
        }
    }

    pub fn set_preview(&mut self, branch: String, text: String)
        ensures
            final(self)@ == (AppView {
                previews: old(self)@.previews.insert(branch@, text@),
                ..old(self)@
            }),
    {
        let ghost before = self@;
        let ghost (b, t) = (branch@, text@);
        self.previews.insert(branch, text);
        assert(self@.previews =~= before.previews.insert(b, t));
    }

    /// The candidate under the cursor. The driver needs its refname to build
    /// a git range; deriving both from the same cursor keeps them in step.
    pub fn highlighted_candidate(&self) -> (r: Option<&Candidate>)
        ensures
            match r {
                Some(c) => self@.highlighted() == Some(c@),
                None => self@.highlighted() is None,
            },
    {
        if self.cursor < self.items.len() {
            Some(&self.items[self.cursor].candidate)
        } else {
            None
        }
    }

    /// Pure state transition: no I/O, no terminal. Fully unit-testable.
    pub fn update(&mut self, key: KeyEvent) -> (r: Option<Action>)
        ensures
            final(self)@ == old(self)@.after(key),
            action_plans(r) == old(self)@.asks(key),
    {
        if key.modifiers.control || key.modifiers.other {
            if key.is_interrupt() {
                self.should_quit = true;
            }
            return None;
        }
        match self.screen {
            Screen::List => {
                self.update_list(key);
                None
            },
            Screen::Confirm => self.update_confirm(key),
            Screen::Deleting => None,  // the driver is busy; ignore input
            Screen::Results => {
                self.update_results(key);
                None
            },
        }
    }

    /// A key on the list; the cursor stays on an item.
    pub fn update_list(&mut self, key: KeyEvent)
        ensures
            final(self)@ == old(self)@.on_list(key),
            final(self).items@.len() == old(self).items@.len(),
            old(self).cursor < old(self).items@.len() ==> final(self).cursor
                < final(self).items@.len(),
    {
        let ghost before = self@;
        let last: usize = if self.items.len() > 0 {
            self.items.len() - 1
        } else {
            0
        };
        match key.code {
            KeyCode::Char(c) => self.type_on_list(c, last),
            KeyCode::Down => self.move_down(last),
            KeyCode::Up => self.move_up(),
            KeyCode::Enter => {
                if self.selected_count() > 0 {
                    self.screen = Screen::Confirm;
                }
            },
            KeyCode::Esc => {
                self.should_quit = true;
            },
            KeyCode::Other => {},
        }
        assert(self@.items.len() == before.items.len());
    }

    /// One step down, not past the end.
    fn move_down(&mut self, last: usize)
        requires
            last == old(self)@.last(),
        ensures
            final(self)@ == (AppView {
                cursor: (if old(self).cursor + 1 < last {
                    old(self).cursor + 1
                } else {
                    last as int
                }) as usize,
                ..old(self)@
            }),
    {
        self.cursor = if self.cursor < last {
            self.cursor + 1
        } else {
            last
        };
    }

    /// One step up, not past the start.
    fn move_up(&mut self)
        ensures
            final(self)@ == (AppView {
                cursor: (if old(self).cursor > 0 {
                    old(self).cursor - 1
                } else {
                    0
                }) as usize,
                ..old(self)@
            }),
    {
        if self.cursor > 0 {
            self.cursor = self.cursor - 1;
        }
    }

    /// A character typed on the list.
    fn type_on_list(&mut self, c: char, last: usize)
        requires
            last == old(self)@.last(),
        ensures
            final(self)@ == old(self)@.on_list(
                KeyEvent {
                    code: KeyCode::Char(c),
                    modifiers: KeyModifiers { shift: false, control: false, other: false },
                },
            ),
    {
        let ghost before = self@;
        match c {
            'j' => self.move_down(last),
            'k' => self.move_up(),
            'g' => {
                self.cursor = 0;
            },
            'G' => {
                self.cursor = last;
            },
            ' ' => {
                if self.cursor < self.items.len() {
                    let on = self.items[self.cursor].selected;
                    self.items[self.cursor].selected = !on;
                    let ghost i = before.items[self.cursor as int];
                    assert(self@.items =~= before.items.update(
                        self.cursor as int,
                        ItemView { selected: !on, ..i },
                    ));
                }
            },
            'a' => select_all(&mut self.items, true),
            'n' => select_all(&mut self.items, false),
            'r' => {
                if self.cursor < self.items.len() && self.items[self.cursor].can_remote() {
                    let on = self.items[self.cursor].remote;
                    self.items[self.cursor].remote = !on;
                    let ghost i = before.items[self.cursor as int];
                    assert(self@.items =~= before.items.update(
                        self.cursor as int,
                        ItemView { remote: !on, ..i },
                    ));
                }
            },
            'p' => {
                self.preview_open = !self.preview_open;
            },
            'q' => {
                self.should_quit = true;
            },
            _ => {},
        }
    }

    fn update_confirm(&mut self, key: KeyEvent) -> (r: Option<Action>)
        ensures
            final(self)@ == old(self)@.on_confirm(key),
            action_plans(r) == if key.is('y') || key.code == KeyCode::Enter {
                Some(plans_of(old(self)@.items))
            } else {
                None
            },
    {
        let (yes, no) = match key.code {
            KeyCode::Char(c) => (c == 'y', c == 'n' || c == 'q'),
            KeyCode::Enter => (true, false),
            KeyCode::Esc => (false, true),
            _ => (false, false),
        };
        if yes {
            self.screen = Screen::Deleting;
            return Some(Action::Execute(self.planned()));
        }
        if no {
            self.screen = Screen::List;
        }
        None
    }

    fn update_results(&mut self, key: KeyEvent)
        ensures
            final(self)@ == old(self)@.on_results(key),
    {
        let (quit, down, up) = match key.code {
            KeyCode::Char(c) => (c == 'q', c == 'j', c == 'k'),
            KeyCode::Esc => (true, false, false),
            KeyCode::Down => (false, true, false),
            KeyCode::Up => (false, false, true),
            _ => (false, false, false),
        };
        if quit {
            self.should_quit = true;
        } else if down {
            if self.results_scroll < u16::MAX {
                self.results_scroll = self.results_scroll + 1;
            }
        } else if up {
            if self.results_scroll > 0 {
                self.results_scroll = self.results_scroll - 1;
            }
        }
    }

    /// The deletions that the selection stands for.
    pub fn planned(&self) -> (r: Vec<PlannedDeletion>)
        ensures
            r.deep_view() == plans_of(self@.items),
    {
        let mut r: Vec<PlannedDeletion> = Vec::new();
        let mut i: usize = 0;
        let ghost all = self.items.deep_view();
        assert(all.take(0) =~= Seq::<ItemView>::empty());
        assert(r.deep_view() =~= Seq::<PlanView>::empty());
        while i < self.items.len()
            invariant
                i <= self.items@.len(),
                all == self.items.deep_view(),
                r.deep_view() == plans_of(all.take(i as int)),
            decreases self.items@.len() - i,
        {
            let ghost earlier = r.deep_view();
            let item = &self.items[i];
            assert(all.take(i + 1).drop_last() =~= all.take(i as int));
            assert(all.take(i + 1).last() == item@);
            if item.selected {
                r.push(
                    PlannedDeletion {
                        candidate: item.candidate.clone(),
                        delete_remote: item.remote,
                    },
                );
                assert(r.deep_view() =~= earlier.push(
                    PlanView { candidate: item@.candidate, delete_remote: item@.remote },
                ));
            }
            i += 1;
        }
        assert(all.take(i as int) =~= all);
        r
    }

    pub fn apply_result(&mut self, result: DeletionResult)
        ensures
            final(self)@ == (AppView {
                results: old(self)@.results.push(result@),
                ..old(self)@
            }),
    {
        let ghost before = self@;
        let ghost r = result@;
        self.results.push(result);
        assert(self@.results =~= before.results.push(r));
    }

    /// The deletion of a branch begins.
    pub fn take_up(&mut self, name: String)
        ensures
            final(self)@ == (AppView { in_flight: Some(name@), ..old(self)@ }),
    {
        self.in_flight = Some(name);
    }

    /// The deletion that was begun has come to its end.
    pub fn put_down(&mut self, result: DeletionResult)
        ensures
            final(self)@ == (AppView {
                results: old(self)@.results.push(result@),
                in_flight: None,
                ..old(self)@
            }),
    {
        self.apply_result(result);
        self.in_flight = None;
    }

    /// A key that was typed while the batch ran. Keys typed impatiently must
    /// not dismiss the results the instant they appear — but a Ctrl+C hammered
    /// during a slow push still means "get me out".
    pub fn drained(&mut self, key: KeyEvent)
        ensures
            final(self)@ == (AppView {
                should_quit: old(self)@.should_quit || key.interrupts(),
                ..old(self)@
            }),
    {
        if key.is_interrupt() {
            self.should_quit = true;
        }
    }

    pub fn finish(&mut self)
        ensures
            final(self)@ == (AppView {
                in_flight: None,
                screen: Screen::Results,
                ..old(self)@
            }),
    {
        self.in_flight = None;
        self.screen = Screen::Results;
    }

    pub fn selected_count(&self) -> (n: usize)
        ensures
            n == self@.selected(),
    {
        let mut n: usize = 0;
        let mut i: usize = 0;
        let ghost all = self.items.deep_view();
        let ghost p = |i: ItemView| i.selected;
        assert(all.take(0) =~= Seq::<ItemView>::empty());
        while i < self.items.len()
            invariant
                i <= self.items@.len(),
                n <= i,
                all == self.items.deep_view(),
                p == (|i: ItemView| i.selected),
                n == count_of(all.take(i as int), p),
            decreases self.items@.len() - i,
        {
            assert(all.take(i + 1).drop_last() =~= all.take(i as int));
            assert(all.take(i + 1).last() == self.items@[i as int]@);
            if self.items[i].selected {
                n += 1;
            }
            i += 1;
        }
        assert(all.take(i as int) =~= all);
        n
    }

    pub fn force_count(&self) -> (n: usize)
        ensures
            n == self@.forced(),
    {
        let mut n: usize = 0;
        let mut i: usize = 0;
        let ghost all = self.items.deep_view();
        let ghost p = |i: ItemView| i.selected && i.candidate.needs_force();
        assert(all.take(0) =~= Seq::<ItemView>::empty());
        while i < self.items.len()
            invariant
                i <= self.items@.len(),
                n <= i,
                all == self.items.deep_view(),
                p == (|i: ItemView| i.selected && i.candidate.needs_force()),
                n == count_of(all.take(i as int), p),
            decreases self.items@.len() - i,
        {
            assert(all.take(i + 1).drop_last() =~= all.take(i as int));
            assert(all.take(i + 1).last() == self.items@[i as int]@);
            if self.items[i].selected && self.items[i].candidate.needs_force() {
                n += 1;
            }
            i += 1;
        }
        assert(all.take(i as int) =~= all);
        n
    }

    pub fn remote_count(&self) -> (n: usize)
        ensures
            n == self@.remote(),
    {
        let mut n: usize = 0;
        let mut i: usize = 0;
        let ghost all = self.items.deep_view();
        let ghost p = |i: ItemView| i.selected && i.remote;
        assert(all.take(0) =~= Seq::<ItemView>::empty());
        while i < self.items.len()
            invariant
                i <= self.items@.len(),
                n <= i,
                all == self.items.deep_view(),
                p == (|i: ItemView| i.selected && i.remote),
                n == count_of(all.take(i as int), p),
            decreases self.items@.len() - i,
        {
            assert(all.take(i + 1).drop_last() =~= all.take(i as int));
            assert(all.take(i + 1).last() == self.items@[i as int]@);
            if self.items[i].selected && self.items[i].remote {
                n += 1;
            }
            i += 1;
        }
        assert(all.take(i as int) =~= all);
        n
    }

    pub fn remote_only_count(&self) -> (n: usize)
        ensures
            n == self@.remote_only(),
    {
        let mut n: usize = 0;
        let mut i: usize = 0;
        let ghost all = self.items.deep_view();
        let ghost p = |i: ItemView| i.candidate.scope == CandidateScope::RemoteOnly;
        assert(all.take(0) =~= Seq::<ItemView>::empty());
        while i < self.items.len()
            invariant
                i <= self.items@.len(),
                n <= i,
                all == self.items.deep_view(),
                p == (|i: ItemView| i.candidate.scope == CandidateScope::RemoteOnly),
                n == count_of(all.take(i as int), p),
            decreases self.items@.len() - i,
        {
            assert(all.take(i + 1).drop_last() =~= all.take(i as int));
            assert(all.take(i + 1).last() == self.items@[i as int]@);
            if self.items[i].candidate.scope == CandidateScope::RemoteOnly {
                n += 1;
            }
            i += 1;
        }
        assert(all.take(i as int) =~= all);
        n
    }

    pub fn any_failed(&self) -> (r: bool)
        ensures
            r == session::any_failed(self@.results),
    {
        has_failed(self.results.as_slice())
    }
}

} // verus!
