//! The wizard: the option list of each category screen, the application state
//! across screens, and how a key press changes it.

use vstd::prelude::*;
use crate::manifest::{spec_category_order, ManifestEntry, WeaveManifest};
use crate::selections::{spec_selection_mode, SelectionMode, UserSelections};
use crate::strmap::StrMap;
use crate::text::{flagged, text_eq, views};

verus! {

/// The options of one category screen: keys, labels and descriptions in
/// display order, which of them are checked, and the highlighted one.
pub struct SelectionListState {
    pub keys: Vec<String>,
    pub labels: Vec<String>,
    pub descriptions: Vec<String>,
    pub checked: Vec<bool>,
    pub cursor: usize,
    pub mode: SelectionMode,
}

/// `checked` after toggling the option at `cursor`: check boxes flip it; a
/// single-select list checks only it; an optional single-select list checks
/// only it, or clears the list when it was already checked.
pub open spec fn spec_toggled(checked: Seq<bool>, cursor: int, mode: SelectionMode) -> Seq<bool> {
    match mode {
        SelectionMode::Multi => checked.update(cursor, !checked[cursor]),
        SelectionMode::Single => Seq::new(checked.len(), |i: int| i == cursor),
        SelectionMode::OptionalSingle => if checked[cursor] {
            Seq::new(checked.len(), |i: int| false)
        } else {
            Seq::new(checked.len(), |i: int| i == cursor)
        },
    }
}

impl SelectionListState {
    /// The lists have one element per key and the cursor is on an option
    /// (or at 0 when there are none).
    pub open spec fn wf(self) -> bool {
        &&& self.labels@.len() == self.keys@.len()
        &&& self.descriptions@.len() == self.keys@.len()
        &&& self.checked@.len() == self.keys@.len()
        &&& (self.cursor < self.keys@.len() || (self.keys@.len() == 0 && self.cursor == 0))
    }

    /// A list with nothing checked and the first option highlighted.
    pub fn new(keys: Vec<String>, labels: Vec<String>, descriptions: Vec<String>, mode: SelectionMode) -> (r: Self)
        requires
            labels@.len() == keys@.len(),
            descriptions@.len() == keys@.len(),
        ensures
            r.wf(),
            r.keys == keys,
            r.labels == labels,
            r.descriptions == descriptions,
            r.mode == mode,
            r.cursor == 0,
            r.checked@ == Seq::new(keys@.len(), |i: int| false),
    {
        let mut checked: Vec<bool> = Vec::new();
        let n = keys.len();
        let mut i: usize = 0;
        while i < n
            invariant
                n == keys@.len(),
                i <= n,
                checked@ == Seq::new(i as nat, |j: int| false),
            decreases n - i,
        {
            checked.push(false);
            assert(checked@ =~= Seq::new((i + 1) as nat, |j: int| false));
            i += 1;
        }
        SelectionListState { keys, labels, descriptions, checked, cursor: 0, mode }
    }

    /// Highlights the previous option, wrapping from the first to the last.
    pub fn previous(&mut self)
        requires
            old(self).wf(),
        ensures
            final(self).wf(),
            final(self).keys == old(self).keys,
            final(self).labels == old(self).labels,
            final(self).descriptions == old(self).descriptions,
            final(self).checked == old(self).checked,
            final(self).mode == old(self).mode,
            final(self).cursor == (if old(self).keys@.len() == 0 {
                0
            } else if old(self).cursor == 0 {
                old(self).keys@.len() - 1
            } else {
                old(self).cursor - 1
            }),
    {
        let n = self.keys.len();
        if n == 0 {
            return;
        }
        if self.cursor == 0 {
            self.cursor = n - 1;
        } else {
            self.cursor = self.cursor - 1;
        }
    }

    /// Highlights the next option, wrapping from the last to the first.
    pub fn next(&mut self)
        requires
            old(self).wf(),
        ensures
            final(self).wf(),
            final(self).keys == old(self).keys,
            final(self).labels == old(self).labels,
            final(self).descriptions == old(self).descriptions,
            final(self).checked == old(self).checked,
            final(self).mode == old(self).mode,
            final(self).cursor == (if old(self).keys@.len() == 0 {
                0
            } else if old(self).cursor + 1 == old(self).keys@.len() {
                0
            } else {
                old(self).cursor + 1
            }),
    {
        let n = self.keys.len();
        if n == 0 {
            return;
        }
        if self.cursor + 1 == n {
            self.cursor = 0;
        } else {
            self.cursor = self.cursor + 1;
        }
    }

    /// Toggles the highlighted option according to the list's mode (nothing
    /// happens on an empty list).
    pub fn toggle(&mut self)
        requires
            old(self).wf(),
        ensures
            final(self).wf(),
            final(self).keys == old(self).keys,
            final(self).labels == old(self).labels,
            final(self).descriptions == old(self).descriptions,
            final(self).cursor == old(self).cursor,
            final(self).mode == old(self).mode,
            old(self).keys@.len() == 0 ==> final(self).checked == old(self).checked,
            old(self).keys@.len() > 0 ==> final(self).checked@ == spec_toggled(
                old(self).checked@,
                old(self).cursor as int,
                old(self).mode,
            ),
    {
        let n = self.checked.len();
        if n == 0 {
            return;
        }
        let cur = self.cursor;
        let was = self.checked[cur];
        let ghost before = self.checked@;
        match self.mode {
            SelectionMode::Multi => {
                self.checked.set(cur, !was);
            },
            _ => {
                let clear = self.mode == SelectionMode::OptionalSingle && was;
                let mut i: usize = 0;
                while i < n
                    invariant
                        n == self.checked@.len(),
                        n == before.len(),
                        i <= n,
                        cur < n,
                        self.keys == old(self).keys,
                        self.labels == old(self).labels,
                        self.descriptions == old(self).descriptions,
                        self.cursor == cur,
                        self.mode == old(self).mode,
                        self.mode != SelectionMode::Multi,
                        clear == (self.mode == SelectionMode::OptionalSingle && before[cur as int]),
                        forall|j: int| 0 <= j < i ==> self.checked@[j] == (!clear && j == cur),
                    decreases n - i,
                {
                    self.checked.set(i, !clear && i == cur);
                    i += 1;
                }
                assert(self.checked@ =~= spec_toggled(before, cur as int, self.mode));
            },
        }
    }

    /// The keys of the checked options, in display order.
    pub fn selected_keys(&self) -> (r: Vec<String>)
        requires
            self.wf(),
        ensures
            views(r@) == flagged(views(self.keys@), self.checked@),
    {
        let mut r: Vec<String> = Vec::new();
        let n = self.keys.len();
        let mut i: usize = 0;
        while i < n
            invariant
                self.wf(),
                n == self.keys@.len(),
                i <= n,
                views(r@) == flagged(views(self.keys@).take(i as int), self.checked@.take(i as int)),
            decreases n - i,
        {
            assert(views(self.keys@).take(i + 1).drop_last() =~= views(self.keys@).take(i as int));
            assert(self.checked@.take(i + 1).drop_last() =~= self.checked@.take(i as int));
            let ghost prev = r@;
            if self.checked[i] {
                r.push(self.keys[i].clone());
                assert(views(r@) =~= views(prev).push(self.keys@[i as int]@));
            }
            assert(views(r@) =~= flagged(views(self.keys@).take(i + 1), self.checked@.take(i + 1)));
            i += 1;
        }
        assert(views(self.keys@).take(n as int) =~= views(self.keys@));
        assert(self.checked@.take(n as int) =~= self.checked@);
        r
    }

    /// The label of the highlighted option ("" when there are none).
    pub fn current_label(&self) -> (r: &str)
        requires
            self.wf(),
        ensures
            self.keys@.len() > 0 ==> r@ == self.labels@[self.cursor as int]@,
            self.keys@.len() == 0 ==> r@ == ""@,
    {
        if self.labels.len() == 0 {
            ""
        } else {
            self.labels[self.cursor].as_str()
        }
    }

    /// The description of the highlighted option ("" when there are none).
    pub fn current_description(&self) -> (r: &str)
        requires
            self.wf(),
        ensures
            self.keys@.len() > 0 ==> r@ == self.descriptions@[self.cursor as int]@,
            self.keys@.len() == 0 ==> r@ == ""@,
    {
        if self.descriptions.len() == 0 {
            ""
        } else {
            self.descriptions[self.cursor].as_str()
        }
    }
}

} // verus!

verus! {

/// Which screen the wizard shows.
#[derive(Clone, Copy, Debug, PartialEq, Eq, Structural)]
pub enum AppScreen {
    /// Welcome screen with the logo.
    Welcome,
    /// The selection screen of the category at this index.
    Selection(usize),
    /// Summary of all choices before scaffolding.
    Summary,
    /// Progress while scaffolding.
    Progress,
    /// Completion with the next steps.
    Complete,
}

/// The state of the interactive wizard.
pub struct App {
    /// The screen shown.
    pub screen: AppScreen,
    /// The selections made so far.
    pub selections: UserSelections,
    /// One option list per shown category.
    pub list_states: Vec<SelectionListState>,
    /// The shown categories, in wizard order.
    pub categories: Vec<String>,
}

/// The description shown for an entry.
pub open spec fn description_or_default(e: ManifestEntry) -> Seq<char> {
    match e.description {
        Some(d) => d@,
        None => "No description available."@,
    }
}

/// The category `c` of the manifest has at least one option.
pub open spec fn has_entries(m: WeaveManifest, c: Seq<char>) -> bool {
    m.spec_category(c) matches Some(map) && map.pairs().len() > 0
}

/// The categories of `cs` that have options, in order.
pub open spec fn nonempty_categories(m: WeaveManifest, cs: Seq<Seq<char>>) -> Seq<Seq<char>>
    decreases cs.len(),
{
    if cs.len() == 0 {
        Seq::empty()
    } else {
        nonempty_categories(m, cs.drop_last()) + if has_entries(m, cs.last()) {
            seq![cs.last()]
        } else {
            Seq::empty()
        }
    }
}

/// `st` is the fresh option list of category `c`: the category's options in
/// key order, nothing checked, the first highlighted.
pub open spec fn fresh_list_of(m: WeaveManifest, c: Seq<char>, st: SelectionListState) -> bool {
    let ps = m.spec_category(c).unwrap().pairs();
    &&& st.wf()
    &&& views(st.keys@) == ps.map_values(|p: (Seq<char>, ManifestEntry)| p.0)
    &&& views(st.labels@) == ps.map_values(|p: (Seq<char>, ManifestEntry)| p.1.label@)
    &&& views(st.descriptions@) == ps.map_values(|p: (Seq<char>, ManifestEntry)| description_or_default(p.1))
    &&& st.mode == spec_selection_mode(c)
    &&& st.cursor == 0
    &&& st.checked@ == Seq::new(st.keys@.len(), |i: int| false)
}

impl App {
    /// The wizard state for a manifest and project name: the welcome screen,
    /// empty selections, and one fresh option list for each category (in
    /// wizard order) that has options.
    pub fn new(manifest: WeaveManifest, project_name: String) -> (r: Self)
        ensures
            r.ready(),
            r.screen == AppScreen::Welcome,
            r.selections.project_name == project_name,
            r.selections.selections@ == Map::<Seq<char>, Vec<String>>::empty(),
            views(r.categories@) == nonempty_categories(manifest, spec_category_order()),
            r.list_states@.len() == r.categories@.len(),
            forall|i: int|
                0 <= i < r.categories@.len() ==> fresh_list_of(
                    manifest,
                    #[trigger] r.categories@[i]@,
                    r.list_states@[i],
                ),
    {
        let order = WeaveManifest::category_order();
        let mut categories: Vec<String> = Vec::new();
        let mut list_states: Vec<SelectionListState> = Vec::new();
        let n = order.len();
        let mut i: usize = 0;
        while i < n
            invariant
                n == order@.len(),
                order@.map_values(|s: &str| s@) == spec_category_order(),
                i <= n,
                views(categories@) == nonempty_categories(manifest, spec_category_order().take(i as int)),
                list_states@.len() == categories@.len(),
                forall|j: int|
                    0 <= j < categories@.len() ==> fresh_list_of(
                        manifest,
                        #[trigger] categories@[j]@,
                        list_states@[j],
                    ),
            decreases n - i,
        {
            let category = order[i];
            assert(category@ == spec_category_order()[i as int]);
            assert(spec_category_order().take(i + 1).drop_last() =~= spec_category_order().take(i as int));
            let entries = manifest.get_category_entries(category);
            let ghost ps = entries@.map_values(|p: (&String, &ManifestEntry)| (p.0@, *p.1));
            let mut keys: Vec<String> = Vec::new();
            let mut labels: Vec<String> = Vec::new();
            let mut descriptions: Vec<String> = Vec::new();
            let m = entries.len();
            let mut j: usize = 0;
            while j < m
                invariant
                    m == entries@.len(),
                    ps == entries@.map_values(|p: (&String, &ManifestEntry)| (p.0@, *p.1)),
                    j <= m,
                    views(keys@) == ps.take(j as int).map_values(|p: (Seq<char>, ManifestEntry)| p.0),
                    views(labels@) == ps.take(j as int).map_values(|p: (Seq<char>, ManifestEntry)| p.1.label@),
                    views(descriptions@) == ps.take(j as int).map_values(
                        |p: (Seq<char>, ManifestEntry)| description_or_default(p.1),
                    ),
                decreases m - j,
            {
                let (k, e) = entries[j];
                assert(ps[j as int] == (k@, *e));
                let kc = k.clone();
                let lc = e.label.clone();
                let ghost pk = keys@;
                let ghost pl = labels@;
                keys.push(kc);
                labels.push(lc);
                assert(views(keys@) =~= views(pk).push(k@));
                assert(views(labels@) =~= views(pl).push(e.label@));
                let d = match &e.description {
                    Some(d) => d.clone(),
                    None => "No description available.".to_owned(),
                };
                assert(d@ == description_or_default(*e));
                let ghost pd = descriptions@;
                descriptions.push(d);
                assert(views(descriptions@) =~= views(pd).push(description_or_default(*e)));
                assert(ps.take(j + 1) =~= ps.take(j as int).push(ps[j as int]));
                assert(views(keys@) =~= ps.take(j + 1).map_values(|p: (Seq<char>, ManifestEntry)| p.0));
                assert(views(labels@) =~= ps.take(j + 1).map_values(|p: (Seq<char>, ManifestEntry)| p.1.label@));
                assert(views(descriptions@) =~= ps.take(j + 1).map_values(
                    |p: (Seq<char>, ManifestEntry)| description_or_default(p.1),
                ));
                j += 1;
            }
            assert(ps.take(m as int) =~= ps);
            let mode = UserSelections::selection_mode_for(category);
            let state = SelectionListState::new(keys, labels, descriptions, mode);
            let ghost prev_c = categories@;
            let ghost prev_l = list_states@;
            if state.keys.len() > 0 {
                categories.push(category.to_owned());
                list_states.push(state);
                assert(views(categories@) =~= views(prev_c).push(category@));
                assert forall|j: int|
                    0 <= j < categories@.len() implies fresh_list_of(
                        manifest,
                        #[trigger] categories@[j]@,
                        list_states@[j],
                    ) by {
                    if j < prev_c.len() {
                        assert(categories@[j] == prev_c[j]);
                        assert(list_states@[j] == prev_l[j]);
                    }
                }
            }
            assert(views(categories@) =~= nonempty_categories(manifest, spec_category_order().take(i + 1)));
            i += 1;
        }
        assert(spec_category_order().take(n as int) =~= spec_category_order());
        assert forall|j: int| 0 <= j < list_states@.len() implies (#[trigger] list_states@[j]).wf() by {
            assert(fresh_list_of(manifest, categories@[j]@, list_states@[j]));
        }
        App {
            screen: AppScreen::Welcome,
            selections: UserSelections::new(project_name),
            list_states,
            categories,
        }
    }
}

} // verus!

verus! {

/// A key press, as far as the wizard tells keys apart.
#[derive(Clone, Copy, Debug, PartialEq, Eq, Structural)]
pub enum WizardKey {
    Enter,
    Esc,
    Up,
    Down,
    Char(char),
    Other,
}

/// What the wizard loop does after a key press.
#[derive(Clone, Copy, Debug, PartialEq, Eq, Structural)]
pub enum WizardOutcome {
    /// Keep running.
    Continue,
    /// The user quits the program.
    Quit,
    /// The user confirmed the summary: scaffolding starts.
    Confirm,
}

/// `b` is list `a` with only the cursor moved to `cursor`.
pub open spec fn list_moved(a: SelectionListState, b: SelectionListState, cursor: int) -> bool {
    &&& b.keys == a.keys
    &&& b.labels == a.labels
    &&& b.descriptions == a.descriptions
    &&& b.checked == a.checked
    &&& b.mode == a.mode
    &&& b.cursor == cursor
}

/// `b` is list `a` with its check marks replaced by `checked`.
pub open spec fn list_checked(a: SelectionListState, b: SelectionListState, checked: Seq<bool>) -> bool {
    &&& b.keys == a.keys
    &&& b.labels == a.labels
    &&& b.descriptions == a.descriptions
    &&& b.cursor == a.cursor
    &&& b.mode == a.mode
    &&& b.checked@ == checked
}

/// The check marks of `a` after toggling its highlighted option.
pub open spec fn toggled_marks(a: SelectionListState) -> Seq<bool> {
    if a.keys@.len() == 0 {
        a.checked@
    } else {
        spec_toggled(a.checked@, a.cursor as int, a.mode)
    }
}

/// The check marks of `a` after "select all": all set, or all cleared when
/// they were all set already.
pub open spec fn select_all_marks(a: SelectionListState) -> Seq<bool> {
    let all = forall|j: int| 0 <= j < a.checked@.len() ==> a.checked@[j];
    Seq::new(a.checked@.len(), |j: int| !all)
}

/// The cursor after moving up from `st`'s: wrapping from the first option to
/// the last.
pub open spec fn previous_cursor(st: SelectionListState) -> int {
    if st.keys@.len() == 0 {
        0
    } else if st.cursor == 0 {
        st.keys@.len() - 1
    } else {
        st.cursor - 1
    }
}

/// The cursor after moving down from `st`'s: wrapping from the last option
/// to the first.
pub open spec fn next_cursor(st: SelectionListState) -> int {
    if st.keys@.len() == 0 {
        0
    } else if st.cursor + 1 == st.keys@.len() {
        0
    } else {
        st.cursor + 1
    }
}

/// What a navigation or check-mark key does to an option list: Up and Down
/// move the cursor, Space toggles, 'a' selects or clears all in a
/// multi-select list (and does nothing in others).
pub open spec fn list_key_effect(st: SelectionListState, new: SelectionListState, key: WizardKey) -> bool {
    if key is Up {
        list_moved(st, new, previous_cursor(st))
    } else if key is Down {
        list_moved(st, new, next_cursor(st))
    } else if key == WizardKey::Char(' ') {
        list_checked(st, new, toggled_marks(st))
    } else {
        list_checked(
            st,
            new,
            if st.mode == SelectionMode::Multi {
                select_all_marks(st)
            } else {
                st.checked@
            },
        )
    }
}

/// `new` is `old` with at most list `i` changed.
pub open spec fn only_list_changed(old: App, new: App, i: int) -> bool {
    &&& new.screen == old.screen
    &&& new.selections == old.selections
    &&& new.categories == old.categories
    &&& new.list_states@.len() == old.list_states@.len()
    &&& forall|j: int| 0 <= j < old.list_states@.len() && j != i ==> new.list_states@[j] == old.list_states@[j]
}

impl App {
    /// The lists match the categories and are well formed, and the screen
    /// names an existing category (the summary needs at least one).
    pub open spec fn ready(self) -> bool {
        &&& self.list_states@.len() == self.categories@.len()
        &&& forall|j: int| 0 <= j < self.list_states@.len() ==> (#[trigger] self.list_states@[j]).wf()
        &&& (self.screen matches AppScreen::Selection(i) ==> i < self.categories@.len())
        &&& (self.screen is Summary ==> self.categories@.len() > 0)
    }

    /// Applies a navigation or check-mark key to list `i`.
    fn update_list(&mut self, i: usize, key: WizardKey)
        requires
            old(self).ready(),
            i < old(self).list_states@.len(),
            key is Up || key is Down || key == WizardKey::Char(' ') || key == WizardKey::Char('a'),
        ensures
            only_list_changed(*old(self), *final(self), i as int),
            final(self).list_states@[i as int].wf(),
            list_key_effect(old(self).list_states@[i as int], final(self).list_states@[i as int], key),
    {
        let mut lists: Vec<SelectionListState> = Vec::new();
        std::mem::swap(&mut lists, &mut self.list_states);
        let mut st = lists.remove(i);
        let ghost a = st;
        assert(a == old(self).list_states@[i as int]);
        assert(a.wf());
        match key {
            WizardKey::Up => st.previous(),
            WizardKey::Down => st.next(),
            WizardKey::Char(' ') => st.toggle(),
            _ => {
                if st.mode == SelectionMode::Multi {
                    let n = st.checked.len();
                    let mut all_checked = true;
                    let mut j: usize = 0;
                    while j < n
                        invariant
                            n == st.checked@.len(),
                            st == a,
                            j <= n,
                            all_checked == (forall|l: int| 0 <= l < j ==> st.checked@[l]),
                        decreases n - j,
                    {
                        if !st.checked[j] {
                            all_checked = false;
                        }
                        j += 1;
                    }
                    let mut k: usize = 0;
                    while k < n
                        invariant
                            n == st.checked@.len(),
                            k <= n,
                            st.keys == a.keys,
                            st.labels == a.labels,
                            st.descriptions == a.descriptions,
                            st.cursor == a.cursor,
                            st.mode == a.mode,
                            all_checked == (forall|l: int| 0 <= l < n ==> a.checked@[l]),
                            forall|l: int| 0 <= l < k ==> st.checked@[l] == !all_checked,
                            forall|l: int| k <= l < n ==> st.checked@[l] == a.checked@[l],
                        decreases n - k,
                    {
                        st.checked.set(k, !all_checked);
                        k += 1;
                    }
                    assert(st.checked@ =~= select_all_marks(a));
                }
            },
        }
        lists.insert(i, st);
        self.list_states = lists;
        assert(self.list_states@ =~= old(self).list_states@.update(i as int, st));
    }
}


/// The check marks of list `st` when Enter is pressed on category `c`: a
/// single-select category first toggles the highlighted option.
pub open spec fn enter_marks(c: Seq<char>, st: SelectionListState) -> Seq<bool> {
    if spec_selection_mode(c) == SelectionMode::Single {
        toggled_marks(st)
    } else {
        st.checked@
    }
}

/// Category `c` must not be left empty: single-select categories, and the
/// "pick one or many" categories "backends", "database" and "cloud" (where
/// "none" is an option of its own to check).
pub open spec fn needs_pick(c: Seq<char>) -> bool {
    spec_selection_mode(c) == SelectionMode::Single || c == "backends"@ || c == "database"@ || c
        == "cloud"@
}

/// Pressing Enter on category `c` leaves the screen when something was
/// selected or the category may stay empty.
pub open spec fn enter_accepted(c: Seq<char>, st: SelectionListState) -> bool {
    !(needs_pick(c) && flagged(
        views(st.keys@),
        enter_marks(c, st),
    ).len() == 0)
}

/// What a key press does to the wizard.
pub open spec fn key_handled(old: App, new: App, key: WizardKey, r: WizardOutcome) -> bool {
    match old.screen {
        AppScreen::Welcome => {
            &&& new.selections == old.selections
            &&& new.categories == old.categories
            &&& new.list_states == old.list_states
            &&& if key is Enter {
                new.screen == AppScreen::Selection(0) && r == WizardOutcome::Continue
            } else if key == WizardKey::Char('q') {
                new.screen == old.screen && r == WizardOutcome::Quit
            } else {
                new.screen == old.screen && r == WizardOutcome::Continue
            }
        },
        AppScreen::Selection(i) => {
            let st = old.list_states@[i as int];
            let c = old.categories@[i as int]@;
            if key is Up || key is Down || key == WizardKey::Char(' ') || key == WizardKey::Char('a') {
                &&& r == WizardOutcome::Continue
                &&& only_list_changed(old, new, i as int)
                &&& new.list_states@[i as int].wf()
                &&& list_key_effect(st, new.list_states@[i as int], key)
            } else if key is Enter {
                &&& r == WizardOutcome::Continue
                &&& new.categories == old.categories
                &&& new.list_states@.len() == old.list_states@.len()
                &&& forall|j: int| 0 <= j < old.list_states@.len() && j != i ==> new.list_states@[j] == old.list_states@[j]
                &&& list_checked(st, new.list_states@[i as int], enter_marks(c, st))
                &&& if enter_accepted(c, st) {
                    &&& new.selections.project_name == old.selections.project_name
                    &&& new.selections.selections@ == old.selections.selections@.insert(c, new.selections.selections@[c])
                    &&& views(new.selections.selections@[c]@) == flagged(views(st.keys@), enter_marks(c, st))
                    &&& new.screen == if i + 1 < old.categories@.len() {
                        AppScreen::Selection((i + 1) as usize)
                    } else {
                        AppScreen::Summary
                    }
                } else {
                    new.selections == old.selections && new.screen == old.screen
                }
            } else {
                &&& new.selections == old.selections
                &&& new.categories == old.categories
                &&& new.list_states == old.list_states
                &&& if key is Esc {
                    &&& r == WizardOutcome::Continue
                    &&& new.screen == if i == 0 {
                        AppScreen::Welcome
                    } else {
                        AppScreen::Selection((i - 1) as usize)
                    }
                } else if key == WizardKey::Char('q') {
                    new.screen == old.screen && r == WizardOutcome::Quit
                } else {
                    new.screen == old.screen && r == WizardOutcome::Continue
                }
            }
        },
        AppScreen::Summary => {
            &&& new.selections == old.selections
            &&& new.categories == old.categories
            &&& new.list_states == old.list_states
            &&& if key is Enter {
                new.screen == old.screen && r == WizardOutcome::Confirm
            } else if key is Esc {
                new.screen == AppScreen::Selection((old.categories@.len() - 1) as usize) && r
                    == WizardOutcome::Continue
            } else if key == WizardKey::Char('q') {
                new.screen == old.screen && r == WizardOutcome::Quit
            } else {
                new.screen == old.screen && r == WizardOutcome::Continue
            }
        },
        _ => {
            &&& new.selections == old.selections
            &&& new.categories == old.categories
            &&& new.list_states == old.list_states
            &&& new.screen == old.screen
            &&& r == WizardOutcome::Continue
        },
    }
}

impl App {
    /// Enter on the selection screen of category `i`.
    fn confirm_category(&mut self, i: usize) -> (r: WizardOutcome)
        requires
            old(self).ready(),
            old(self).screen == AppScreen::Selection(i),
        ensures
            key_handled(*old(self), *final(self), WizardKey::Enter, r),
            final(self).ready(),
    {
        let category = self.categories[i].clone();
        let mode = UserSelections::selection_mode_for(category.as_str());
        if mode == SelectionMode::Single {
            self.update_list(i, WizardKey::Char(' '));
        }
        let selected = self.list_states[i].selected_keys();
        let requires_selection = mode == SelectionMode::Single || text_eq(category.as_str(), "backends")
            || text_eq(category.as_str(), "database") || text_eq(category.as_str(), "cloud");
        if requires_selection && selected.len() == 0 {
            return WizardOutcome::Continue;
        }
        self.selections.set_multi(category.as_str(), selected);
        let n = self.categories.len();
        assert(i < n);
        if i + 1 < n {
            self.screen = AppScreen::Selection(i + 1);
        } else {
            self.screen = AppScreen::Summary;
        }
        WizardOutcome::Continue
    }

    /// Handles one key press: moves between screens, changes the highlighted
    /// option or check marks, records a category's selection on Enter, and
    /// says whether to quit or to start scaffolding.
    pub fn handle_key(&mut self, key: WizardKey) -> (r: WizardOutcome)
        requires
            old(self).ready(),
        ensures
            key_handled(*old(self), *final(self), key, r),
            final(self).ready() || (old(self).screen is Welcome && old(self).categories@.len() == 0),
    {
        match self.screen {
            AppScreen::Welcome => match key {
                WizardKey::Enter => {
                    self.screen = AppScreen::Selection(0);
                    WizardOutcome::Continue
                },
                WizardKey::Char(c) => {
                    if c == 'q' {
                        WizardOutcome::Quit
                    } else {
                        WizardOutcome::Continue
                    }
                },
                _ => WizardOutcome::Continue,
            },
            AppScreen::Selection(i) => match key {
                WizardKey::Up => {
                    self.update_list(i, key);
                    WizardOutcome::Continue
                },
                WizardKey::Down => {
                    self.update_list(i, key);
                    WizardOutcome::Continue
                },
                WizardKey::Enter => self.confirm_category(i),
                WizardKey::Esc => {
                    if i == 0 {
                        self.screen = AppScreen::Welcome;
                    } else {
                        self.screen = AppScreen::Selection(i - 1);
                    }
                    WizardOutcome::Continue
                },
                WizardKey::Char(c) => {
                    if c == ' ' || c == 'a' {
                        self.update_list(i, key);
                        WizardOutcome::Continue
                    } else if c == 'q' {
                        WizardOutcome::Quit
                    } else {
                        WizardOutcome::Continue
                    }
                },
                WizardKey::Other => WizardOutcome::Continue,
            },
            AppScreen::Summary => match key {
                WizardKey::Enter => WizardOutcome::Confirm,
                WizardKey::Esc => {
                    self.screen = AppScreen::Selection(self.categories.len() - 1);
                    WizardOutcome::Continue
                },
                WizardKey::Char(c) => {
                    if c == 'q' {
                        WizardOutcome::Quit
                    } else {
                        WizardOutcome::Continue
                    }
                },
                _ => WizardOutcome::Continue,
            },
            _ => WizardOutcome::Continue,
        }
    }
}

} // verus!
