//! The user's selections across the wizard: which option keys were chosen in
//! each category, and how categories are presented.

use vstd::prelude::*;
use crate::manifest::spec_category_order;
use crate::strmap::StrMap;
use crate::text::{join, join_spec, text_eq, views};

verus! {

/// The complete set of choices made in the wizard.
pub struct UserSelections {
    /// Project name (directory name).
    pub project_name: String,
    /// Selected option keys per category name.
    pub selections: StrMap<Vec<String>>,
}

/// Whether a wizard step allows one selection or several.
#[derive(Clone, Copy, Debug, PartialEq, Eq, Structural)]
pub enum SelectionMode {
    /// Exactly one option (radio buttons).
    Single,
    /// Zero or more options (check boxes).
    Multi,
    /// Zero or one option (optional radio buttons).
    OptionalSingle,
}

/// `key` is among the keys selected in `category`.
pub open spec fn spec_is_selected(sel: Map<Seq<char>, Vec<String>>, category: Seq<char>, key: Seq<char>) -> bool {
    sel.contains_key(category) && views(sel[category]@).contains(key)
}

/// The selection mode of a category.
pub open spec fn spec_selection_mode(category: Seq<char>) -> SelectionMode {
    if category == "platforms"@ {
        SelectionMode::Single
    } else if category == "auth"@ {
        SelectionMode::OptionalSingle
    } else {
        SelectionMode::Multi
    }
}

/// The display name of a category; an unknown name is shown as it is.
pub open spec fn spec_display_name(category: Seq<char>) -> Seq<char> {
    if category == "platforms"@ {
        "Platform Stack"@
    } else if category == "backends"@ {
        "Backend Language"@
    } else if category == "auth"@ {
        "Authentication"@
    } else if category == "database"@ {
        "Database"@
    } else if category == "cloud"@ {
        "Cloud Provider"@
    } else if category == "microservices"@ {
        "Microservices"@
    } else if category == "infrastructure"@ {
        "Infrastructure"@
    } else if category == "extras"@ {
        "Extras"@
    } else {
        category
    }
}

/// The wizard instruction of a category; empty for an unknown name.
pub open spec fn spec_instruction(category: Seq<char>) -> Seq<char> {
    if category == "platforms"@ {
        "Choose your platform stack (pick one)"@
    } else if category == "backends"@ {
        "Select backend API languages (polyglot supported)"@
    } else if category == "auth"@ {
        "Choose an authentication provider (optional)"@
    } else if category == "database"@ {
        "Select databases to include (multi-database supported)"@
    } else if category == "cloud"@ {
        "Select cloud providers (multi-cloud supported)"@
    } else if category == "microservices"@ {
        "Select microservices to include"@
    } else if category == "infrastructure"@ {
        "Select infrastructure tools to include"@
    } else if category == "extras"@ {
        "Select additional features"@
    } else {
        Seq::empty()
    }
}

impl UserSelections {
    /// The summary text of one category: its keys joined by ", ", "None" when
    /// the category was visited with nothing chosen, "Not selected" when it
    /// holds no entry at all.
    pub open spec fn spec_summary_value(self, category: Seq<char>) -> Seq<char> {
        if self.selections@.contains_key(category) {
            if self.selections@[category]@.len() == 0 {
                "None"@
            } else {
                join_spec(views(self.selections@[category]@), ", "@)
            }
        } else {
            "Not selected"@
        }
    }

    /// One (display name, summary value) line per category, in wizard order.
    pub open spec fn spec_summary(self) -> Seq<(Seq<char>, Seq<char>)> {
        spec_category_order().map_values(
            |c: Seq<char>| (spec_display_name(c), self.spec_summary_value(c)),
        )
    }

    /// Empty selections for the given project name.
    pub fn new(project_name: String) -> (r: Self)
        ensures
            r.project_name == project_name,
            r.selections@ == Map::<Seq<char>, Vec<String>>::empty(),
    {
        UserSelections { project_name, selections: StrMap::new() }
    }

    /// Selects exactly `key` in `category`, replacing an earlier selection.
    pub fn set_single(&mut self, category: &str, key: String)
        ensures
            final(self).project_name == old(self).project_name,
            final(self).selections@ == old(self).selections@.insert(
                category@,
                final(self).selections@[category@],
            ),
            final(self).selections@[category@]@ == seq![key],
    {
        let mut keys: Vec<String> = Vec::new();
        keys.push(key);
        self.selections.insert(category.to_owned(), keys);
    }

    /// Selects `keys` in `category`, replacing an earlier selection.
    pub fn set_multi(&mut self, category: &str, keys: Vec<String>)
        ensures
            final(self).project_name == old(self).project_name,
            final(self).selections@ == old(self).selections@.insert(category@, keys),
    {
        self.selections.insert(category.to_owned(), keys);
    }

    /// The keys selected in `category`, if the category has an entry.
    pub fn get(&self, category: &str) -> (r: Option<&Vec<String>>)
        ensures
            r.is_some() == self.selections@.contains_key(category@),
            r matches Some(v) ==> *v == self.selections@[category@],
    {
        self.selections.get(category)
    }

    /// Whether `key` is among the keys selected in `category`.
    pub fn is_selected(&self, category: &str, key: &str) -> (r: bool)
        ensures
            r == spec_is_selected(self.selections@, category@, key@),
    {
        match self.selections.get(category) {
            Some(keys) => {
                let n = keys.len();
                let mut i: usize = 0;
                while i < n
                    invariant
                        n == keys@.len(),
                        self.selections@.contains_key(category@),
                        *keys == self.selections@[category@],
                        i <= n,
                        forall|j: int| 0 <= j < i ==> keys@[j]@ != key@,
                    decreases n - i,
                {
                    if text_eq(keys[i].as_str(), key) {
                        assert(views(keys@)[i as int] == key@);
                        assert(views(keys@).contains(key@));
                        return true;
                    }
                    i += 1;
                }
                assert(!views(keys@).contains(key@)) by {
                    if views(keys@).contains(key@) {
                        let j = choose|j: int| 0 <= j < views(keys@).len() && views(keys@)[j] == key@;
                        assert(keys@[j]@ == key@);
                    }
                }
                false
            },
            None => false,
        }
    }

    /// The selection mode of a wizard category: `platforms` is single-select,
    /// `auth` is optional single-select, every other name is multi-select.
    pub fn selection_mode_for(category: &str) -> (r: SelectionMode)
        ensures
            r == spec_selection_mode(category@),
    {
        if text_eq(category, "platforms") {
            SelectionMode::Single
        } else if text_eq(category, "auth") {
            SelectionMode::OptionalSingle
        } else {
            SelectionMode::Multi
        }
    }

    /// A human-readable summary of all selections, one line per category in
    /// wizard order.
    pub fn summary_lines(&self) -> (r: Vec<(String, String)>)
        ensures
            r@.map_values(|p: (String, String)| (p.0@, p.1@)) == self.spec_summary(),
    {
        let order = crate::manifest::WeaveManifest::category_order();
        let mut lines: Vec<(String, String)> = Vec::new();
        let n = order.len();
        let mut i: usize = 0;
        while i < n
            invariant
                n == order@.len(),
                order@.map_values(|s: &str| s@) == spec_category_order(),
                i <= n,
                lines@.map_values(|p: (String, String)| (p.0@, p.1@)) == self.spec_summary().take(i as int),
            decreases n - i,
        {
            let category = order[i];
            assert(category@ == spec_category_order()[i as int]);
            let display_name = category_display_name(category);
            let value = match self.selections.get(category) {
                Some(keys) => {
                    if keys.len() == 0 {
                        "None".to_owned()
                    } else {
                        join(keys, ", ")
                    }
                },
                None => "Not selected".to_owned(),
            };
            let ghost prev = lines@;
            lines.push((display_name, value));
            assert(self.spec_summary().take(i + 1) =~= self.spec_summary().take(i as int).push(
                self.spec_summary()[i as int],
            ));
            assert(lines@.map_values(|p: (String, String)| (p.0@, p.1@)) =~= prev.map_values(
                |p: (String, String)| (p.0@, p.1@),
            ).push(self.spec_summary()[i as int]));
            i += 1;
        }
        assert(self.spec_summary().take(n as int) =~= self.spec_summary());
        lines
    }
}

/// The human-readable display name of a category key; an unknown key is
/// returned unchanged.
pub fn category_display_name(category: &str) -> (r: String)
    ensures
        r@ == spec_display_name(category@),
{
    if text_eq(category, "platforms") {
        "Platform Stack".to_owned()
    } else if text_eq(category, "backends") {
        "Backend Language".to_owned()
    } else if text_eq(category, "auth") {
        "Authentication".to_owned()
    } else if text_eq(category, "database") {
        "Database".to_owned()
    } else if text_eq(category, "cloud") {
        "Cloud Provider".to_owned()
    } else if text_eq(category, "microservices") {
        "Microservices".to_owned()
    } else if text_eq(category, "infrastructure") {
        "Infrastructure".to_owned()
    } else if text_eq(category, "extras") {
        "Extras".to_owned()
    } else {
        category.to_owned()
    }
}

/// The short wizard instruction for a category key; empty for an unknown key.
pub fn category_instruction(category: &str) -> (r: String)
    ensures
        r@ == spec_instruction(category@),
{
    if text_eq(category, "platforms") {
        "Choose your platform stack (pick one)".to_owned()
    } else if text_eq(category, "backends") {
        "Select backend API languages (polyglot supported)".to_owned()
    } else if text_eq(category, "auth") {
        "Choose an authentication provider (optional)".to_owned()
    } else if text_eq(category, "database") {
        "Select databases to include (multi-database supported)".to_owned()
    } else if text_eq(category, "cloud") {
        "Select cloud providers (multi-cloud supported)".to_owned()
    } else if text_eq(category, "microservices") {
        "Select microservices to include".to_owned()
    } else if text_eq(category, "infrastructure") {
        "Select infrastructure tools to include".to_owned()
    } else if text_eq(category, "extras") {
        "Select additional features".to_owned()
    } else {
        String::new()
    }
}

} // verus!
