//! The template manifest: every selectable option of each category, with the
//! directories, environment variables, Docker services and packages that an
//! option brings into a project.

use vstd::prelude::*;
use crate::strmap::{keys_sorted, pairs_to_map, StrMap};
use crate::text::{push_all, sort_dedup, sorted_distinct, strictly_sorted, text_eq, views};

verus! {

/// Metadata about the template itself.
#[derive(Clone)]
pub struct TemplateInfo {
    /// Human-readable template name.
    pub name: String,
    /// Template version (matches the git tag).
    pub version: String,
    /// Minimum CLI version required to use this template.
    pub minimum_cli_version: Option<String>,
}

/// A single selectable option within a category.
#[derive(Clone)]
pub struct ManifestEntry {
    /// Display label shown in the wizard.
    pub label: String,
    /// Longer description shown in the preview panel.
    pub description: Option<String>,
    /// Directory paths to keep when this option is selected.
    pub keep: Vec<String>,
    /// Additional Terraform directories to keep.
    pub terraform_keep: Vec<String>,
    /// Environment variables required by this option.
    pub env_vars: Vec<String>,
    /// Docker Compose service names to include.
    pub docker_services: Vec<String>,
    /// Other option keys that this option depends on.
    pub requires: Vec<String>,
    /// Other option keys that conflict with this option.
    pub conflicts_with: Vec<String>,
    /// Packages to add to the root package.json dependencies.
    pub dependencies: Vec<String>,
    /// Packages to add to the root package.json devDependencies.
    pub dev_dependencies: Vec<String>,
}

/// The whole manifest: template metadata and one map of options per category.
#[derive(Clone)]
pub struct WeaveManifest {
    pub template: TemplateInfo,
    pub platforms: StrMap<ManifestEntry>,
    pub backends: StrMap<ManifestEntry>,
    pub auth: StrMap<ManifestEntry>,
    pub database: StrMap<ManifestEntry>,
    pub cloud: StrMap<ManifestEntry>,
    pub microservices: StrMap<ManifestEntry>,
    pub infrastructure: StrMap<ManifestEntry>,
    pub extras: StrMap<ManifestEntry>,
}

/// The category names in wizard display order.
pub open spec fn spec_category_order() -> Seq<Seq<char>> {
    seq![
        "platforms"@,
        "backends"@,
        "auth"@,
        "database"@,
        "cloud"@,
        "microservices"@,
        "infrastructure"@,
        "extras"@,
    ]
}

/// What an entry contributes to the directories kept in a project: its
/// `keep` paths, then its `terraform_keep` paths.
pub open spec fn keep_of() -> spec_fn(ManifestEntry) -> Seq<Seq<char>> {
    |e: ManifestEntry| views(e.keep@) + views(e.terraform_keep@)
}

/// The environment variables an entry requires.
pub open spec fn env_of() -> spec_fn(ManifestEntry) -> Seq<Seq<char>> {
    |e: ManifestEntry| views(e.env_vars@)
}

/// The packages an entry adds to dependencies.
pub open spec fn deps_of() -> spec_fn(ManifestEntry) -> Seq<Seq<char>> {
    |e: ManifestEntry| views(e.dependencies@)
}

/// The packages an entry adds to devDependencies.
pub open spec fn dev_deps_of() -> spec_fn(ManifestEntry) -> Seq<Seq<char>> {
    |e: ManifestEntry| views(e.dev_dependencies@)
}

/// The Docker services an entry enables.
pub open spec fn services_of() -> spec_fn(ManifestEntry) -> Seq<Seq<char>> {
    |e: ManifestEntry| views(e.docker_services@)
}

/// Which lists of an entry a collection reads.
enum EntryField {
    Keep,
    Env,
    Deps,
    DevDeps,
    Services,
}

spec fn field_fn(w: EntryField) -> spec_fn(ManifestEntry) -> Seq<Seq<char>> {
    match w {
        EntryField::Keep => keep_of(),
        EntryField::Env => env_of(),
        EntryField::Deps => deps_of(),
        EntryField::DevDeps => dev_deps_of(),
        EntryField::Services => services_of(),
    }
}

fn push_field(out: &mut Vec<String>, e: &ManifestEntry, w: &EntryField)
    ensures
        views(final(out)@) == views(old(out)@) + (field_fn(*w))(*e),
{
    match w {
        EntryField::Keep => {
            push_all(out, &e.keep);
            push_all(out, &e.terraform_keep);
            assert(views(final(out)@) =~= views(old(out)@) + (views(e.keep@) + views(e.terraform_keep@)));
        },
        EntryField::Env => push_all(out, &e.env_vars),
        EntryField::Deps => push_all(out, &e.dependencies),
        EntryField::DevDeps => push_all(out, &e.dev_dependencies),
        EntryField::Services => push_all(out, &e.docker_services),
    }
}

/// Concatenates `f` of the entries that `keys` name in `map`, in key order,
/// skipping keys that the map does not hold.
pub open spec fn gather_keys(
    map: Map<Seq<char>, ManifestEntry>,
    keys: Seq<Seq<char>>,
    f: spec_fn(ManifestEntry) -> Seq<Seq<char>>,
) -> Seq<Seq<char>>
    decreases keys.len(),
{
    if keys.len() == 0 {
        Seq::empty()
    } else {
        gather_keys(map, keys.drop_last(), f) + if map.contains_key(keys.last()) {
            f(map[keys.last()])
        } else {
            Seq::empty()
        }
    }
}

impl WeaveManifest {
    /// The map of the category named `c`, if `c` is one of the eight categories.
    pub open spec fn spec_category(self, c: Seq<char>) -> Option<StrMap<ManifestEntry>> {
        if c == "platforms"@ {
            Some(self.platforms)
        } else if c == "backends"@ {
            Some(self.backends)
        } else if c == "auth"@ {
            Some(self.auth)
        } else if c == "database"@ {
            Some(self.database)
        } else if c == "cloud"@ {
            Some(self.cloud)
        } else if c == "microservices"@ {
            Some(self.microservices)
        } else if c == "infrastructure"@ {
            Some(self.infrastructure)
        } else if c == "extras"@ {
            Some(self.extras)
        } else {
            None
        }
    }

    /// Concatenates `f` of every selected entry: categories in the order of
    /// `sel`, and within a category the selected keys in their order. Unknown
    /// categories and keys contribute nothing.
    pub open spec fn gather(
        self,
        sel: Seq<(Seq<char>, Vec<String>)>,
        f: spec_fn(ManifestEntry) -> Seq<Seq<char>>,
    ) -> Seq<Seq<char>>
        decreases sel.len(),
    {
        if sel.len() == 0 {
            Seq::empty()
        } else {
            self.gather(sel.drop_last(), f) + match self.spec_category(sel.last().0) {
                Some(m) => gather_keys(m@, views(sel.last().1@), f),
                None => Seq::empty(),
            }
        }
    }

    fn category_map(&self, category: &str) -> (r: Option<&StrMap<ManifestEntry>>)
        ensures
            r == match self.spec_category(category@) {
                Some(m) => Some(&m),
                None => None::<&StrMap<ManifestEntry>>,
            },
    {
        if text_eq(category, "platforms") {
            Some(&self.platforms)
        } else if text_eq(category, "backends") {
            Some(&self.backends)
        } else if text_eq(category, "auth") {
            Some(&self.auth)
        } else if text_eq(category, "database") {
            Some(&self.database)
        } else if text_eq(category, "cloud") {
            Some(&self.cloud)
        } else if text_eq(category, "microservices") {
            Some(&self.microservices)
        } else if text_eq(category, "infrastructure") {
            Some(&self.infrastructure)
        } else if text_eq(category, "extras") {
            Some(&self.extras)
        } else {
            None
        }
    }

    fn gather_field(&self, selections: &StrMap<Vec<String>>, w: &EntryField) -> (r: Vec<String>)
        ensures
            views(r@) == self.gather(selections.pairs(), field_fn(*w)),
    {
        let ghost f = field_fn(*w);
        let ghost ps = selections.pairs();
        let mut out: Vec<String> = Vec::new();
        let n = selections.len();
        let mut i: usize = 0;
        assert(views(out@) =~= Seq::empty());
        assert(ps.take(0) =~= Seq::empty());
        while i < n
            invariant
                n == ps.len(),
                ps == selections.pairs(),
                f == field_fn(*w),
                i <= n,
                views(out@) == self.gather(ps.take(i as int), f),
            decreases n - i,
        {
            let category = selections.key_at(i);
            let keys = selections.value_at(i);
            assert(ps.take(i + 1).drop_last() =~= ps.take(i as int));
            assert(ps.take(i + 1).last() == ps[i as int]);
            match self.category_map(category.as_str()) {
                Some(map) => {
                    let ghost base = views(out@);
                    let m = keys.len();
                    let mut j: usize = 0;
                    assert(views(keys@).take(0) =~= Seq::empty());
                    while j < m
                        invariant
                            m == keys@.len(),
                            f == field_fn(*w),
                            j <= m,
                            views(out@) == base + gather_keys(map@, views(keys@).take(j as int), f),
                        decreases m - j,
                    {
                        assert(views(keys@).take(j + 1).drop_last() =~= views(keys@).take(j as int));
                        assert(views(keys@).take(j + 1).last() == keys@[j as int]@);
                        match map.get(keys[j].as_str()) {
                            Some(e) => {
                                push_field(&mut out, e, w);
                            },
                            None => {},
                        }
                        assert(views(out@) =~= base + gather_keys(map@, views(keys@).take(j + 1), f));
                        j += 1;
                    }
                    assert(views(keys@).take(m as int) =~= views(keys@));
                },
                None => {},
            }
            assert(views(out@) =~= self.gather(ps.take(i + 1), f));
            i += 1;
        }
        assert(ps.take(n as int) =~= ps);
        out
    }

    /// All directories to keep for the selected options: for each selected
    /// category and key, the entry's `keep` paths then its `terraform_keep`
    /// paths, in selection order; unknown categories and keys add nothing.
    pub fn collect_keep_paths(&self, selections: &StrMap<Vec<String>>) -> (r: Vec<String>)
        ensures
            views(r@) == self.gather(selections.pairs(), keep_of()),
    {
        self.gather_field(selections, &EntryField::Keep)
    }

    /// The environment variables the selected options require: distinct and
    /// in increasing order.
    pub fn collect_env_vars(&self, selections: &StrMap<Vec<String>>) -> (r: Vec<String>)
        ensures
            views(r@) == sorted_distinct(self.gather(selections.pairs(), env_of())),
            strictly_sorted(views(r@)),
            views(r@).to_set() == self.gather(selections.pairs(), env_of()).to_set(),
    {
        let all = self.gather_field(selections, &EntryField::Env);
        sort_dedup(&all)
    }

    /// The packages the selected options add to dependencies and to
    /// devDependencies: each list distinct and in increasing order.
    pub fn collect_dependencies(&self, selections: &StrMap<Vec<String>>) -> (r: (Vec<String>, Vec<String>))
        ensures
            views(r.0@) == sorted_distinct(self.gather(selections.pairs(), deps_of())),
            views(r.1@) == sorted_distinct(self.gather(selections.pairs(), dev_deps_of())),
            strictly_sorted(views(r.0@)),
            views(r.0@).to_set() == self.gather(selections.pairs(), deps_of()).to_set(),
            strictly_sorted(views(r.1@)),
            views(r.1@).to_set() == self.gather(selections.pairs(), dev_deps_of()).to_set(),
    {
        let deps = self.gather_field(selections, &EntryField::Deps);
        let dev_deps = self.gather_field(selections, &EntryField::DevDeps);
        (sort_dedup(&deps), sort_dedup(&dev_deps))
    }

    /// The Docker services the selected options enable: distinct and in
    /// increasing order.
    pub fn collect_docker_services(&self, selections: &StrMap<Vec<String>>) -> (r: Vec<String>)
        ensures
            views(r@) == sorted_distinct(self.gather(selections.pairs(), services_of())),
            strictly_sorted(views(r@)),
            views(r@).to_set() == self.gather(selections.pairs(), services_of()).to_set(),
    {
        let all = self.gather_field(selections, &EntryField::Services);
        sort_dedup(&all)
    }

    /// All category names in wizard display order.
    pub fn category_order() -> (r: &'static [&'static str])
        ensures
            r@.map_values(|s: &str| s@) == spec_category_order(),
    {
        let r: &'static [&'static str] = &[
            "platforms",
            "backends",
            "auth",
            "database",
            "cloud",
            "microservices",
            "infrastructure",
            "extras",
        ];
        assert(r@.map_values(|s: &str| s@) =~= spec_category_order());
        r
    }

    /// All entries of a category as (key, entry) pairs, sorted by key; empty
    /// for a name that is not a category.
    pub fn get_category_entries(&self, category: &str) -> (r: Vec<(&String, &ManifestEntry)>)
        ensures
            r@.map_values(|p: (&String, &ManifestEntry)| (p.0@, *p.1)) == match self.spec_category(
                category@,
            ) {
                Some(m) => m.pairs(),
                None => Seq::empty(),
            },
            keys_sorted(r@.map_values(|p: (&String, &ManifestEntry)| (p.0@, *p.1))),
            self.spec_category(category@) matches Some(m) ==> pairs_to_map(
                r@.map_values(|p: (&String, &ManifestEntry)| (p.0@, *p.1)),
            ) == m@,
    {
        let mut entries: Vec<(&String, &ManifestEntry)> = Vec::new();
        let map = match self.category_map(category) {
            Some(m) => m,
            None => {
                assert(entries@.map_values(|p: (&String, &ManifestEntry)| (p.0@, *p.1)) =~= Seq::empty());
                return entries;
            },
        };
        map.lemma_sorted();
        let n = map.len();
        let mut i: usize = 0;
        while i < n
            invariant
                n == map.pairs().len(),
                i <= n,
                entries@.map_values(|p: (&String, &ManifestEntry)| (p.0@, *p.1)) == map.pairs().take(
                    i as int,
                ),
            decreases n - i,
        {
            let ghost prev = entries@;
            let k = map.key_at(i);
            let v = map.value_at(i);
            entries.push((k, v));
            assert(entries@ == prev.push((k, v)));
            assert(map.pairs().take(i + 1) =~= map.pairs().take(i as int).push(map.pairs()[i as int]));
            assert(entries@.map_values(|p: (&String, &ManifestEntry)| (p.0@, *p.1)) =~= prev.map_values(
                |p: (&String, &ManifestEntry)| (p.0@, *p.1),
            ).push(map.pairs()[i as int]));
            i += 1;
        }
        assert(map.pairs().take(n as int) =~= map.pairs());
        entries
    }
}

} // verus!
