//! The configuration that scaffolding writes into a new project: the
//! rewritten package.json, the .env files, the filtered docker-compose file,
//! and the order of the scaffolding steps.

use vstd::prelude::*;
use crate::json::{field, json_of_tree, json_pretty, tree_models, parse_yaml, read_package_json, spec_json_pretty, spec_parse_json, spec_parse_yaml, spec_yaml_text, str_array_is, str_is, string_array, yaml_text, JsonValue, PackageJsonError};
use crate::manifest::{deps_of, dev_deps_of, env_of, keep_of, services_of, WeaveManifest};
use crate::selections::UserSelections;
use crate::strmap::{keys_sorted, lemma_map_key_index, lemma_pairs_to_map_at, pair_index, StrMap};
use crate::text::{find_first_or_len, find_last, first_index_or_len, last_index_of, lemma_first_index_or_len, lemma_last_index_of, replace_spec, replace_text, sorted_distinct, views, flagged};

verus! {

/// How a dependency specification splits into package name and version:
/// at the last `@`, unless there is none or it is the first character (a
/// scoped package without version), in which case the version is "latest".
pub open spec fn spec_split_dep(d: Seq<char>) -> (Seq<char>, Seq<char>) {
    let p = last_index_of(d, '@');
    if p <= 0 {
        (d, "latest"@)
    } else {
        (d.take(p), d.skip(p + 1))
    }
}

/// A package script with pnpm commands turned into bun commands.
pub open spec fn bunify(s: Seq<char>) -> Seq<char> {
    replace_spec(
        replace_spec(replace_spec(s, "pnpm "@, "bun "@), "pnpx "@, "bunx "@),
        "npx "@,
        "bunx "@,
    )
}

/// Splits a dependency specification ("name" or "name@version") into the
/// package name and its version, "latest" when none is given.
pub fn split_dependency_spec(dep: &str) -> (r: (String, String))
    ensures
        (r.0@, r.1@) == spec_split_dep(dep@),
{
    proof {
        lemma_last_index_of(dep@, '@');
    }
    match find_last(dep, '@') {
        Some(p) => {
            if p == 0 {
                (dep.to_owned(), "latest".to_owned())
            } else {
                let n = dep.unicode_len();
                let name = dep.substring_char(0, p);
                let version = dep.substring_char(p + 1, n);
                assert(name@ =~= dep@.take(p as int));
                assert(version@ =~= dep@.skip(p + 1));
                (name.to_owned(), version.to_owned())
            }
        },
        None => (dep.to_owned(), "latest".to_owned()),
    }
}

/// Rewrites a package script to run with bun: "pnpm " becomes "bun ", then
/// "pnpx " and "npx " become "bunx ".
pub fn bunify_script(script: &str) -> (r: String)
    ensures
        r@ == bunify(script@),
{
    proof {
        reveal_strlit("pnpm ");
        reveal_strlit("pnpx ");
        reveal_strlit("npx ");
    }
    let a = replace_text(script, "pnpm ", "bun ");
    let b = replace_text(a.as_str(), "pnpx ", "bunx ");
    replace_text(b.as_str(), "npx ", "bunx ")
}

/// `s` ends with the directory glob "/*".
pub open spec fn ends_with_glob(s: Seq<char>) -> bool {
    s.len() >= 2 && s[s.len() - 2] == '/' && s[s.len() - 1] == '*'
}

/// A keep path without its trailing "/*" globs: the file or directory of the
/// template that is copied for it.
pub open spec fn trim_glob(s: Seq<char>) -> Seq<char>
    decreases s.len(),
{
    if ends_with_glob(s) {
        trim_glob(s.take(s.len() - 2))
    } else {
        s
    }
}

/// The path of the template that a keep path names: the path with every
/// trailing "/*" removed ("apps/web/*" names the directory "apps/web").
pub fn keep_path_target(keep: &str) -> (r: String)
    ensures
        r@ == trim_glob(keep@),
{
    let n = keep.unicode_len();
    let mut end: usize = n;
    assert(keep@.take(n as int) =~= keep@);
    while end >= 2 && keep.get_char(end - 2) == '/' && keep.get_char(end - 1) == '*'
        invariant
            n == keep@.len(),
            end <= n,
            trim_glob(keep@.take(end as int)) == trim_glob(keep@),
        decreases end,
    {
        assert(keep@.take(end as int).take(end - 2) =~= keep@.take(end - 2));
        end -= 2;
    }
    let r = keep.substring_char(0, end);
    assert(r@ =~= keep@.take(end as int));
    r.to_owned()
}

/// The keep paths that are workspace packages: those whose flag says that the
/// directory holds a package.json.
pub fn workspace_paths(keep_paths: &Vec<String>, has_package_json: &Vec<bool>) -> (r: Vec<String>)
    requires
        keep_paths@.len() == has_package_json@.len(),
    ensures
        views(r@) == flagged(views(keep_paths@), has_package_json@),
{
    let mut r: Vec<String> = Vec::new();
    let n = keep_paths.len();
    let mut i: usize = 0;
    while i < n
        invariant
            n == keep_paths@.len(),
            n == has_package_json@.len(),
            i <= n,
            views(r@) == flagged(views(keep_paths@).take(i as int), has_package_json@.take(i as int)),
        decreases n - i,
    {
        assert(views(keep_paths@).take(i + 1).drop_last() =~= views(keep_paths@).take(i as int));
        assert(has_package_json@.take(i + 1).drop_last() =~= has_package_json@.take(i as int));
        let ghost prev = r@;
        if has_package_json[i] {
            r.push(keep_paths[i].clone());
            assert(views(r@) =~= views(prev).push(keep_paths@[i as int]@));
        }
        assert(views(r@) =~= flagged(views(keep_paths@).take(i + 1), has_package_json@.take(i + 1)));
        i += 1;
    }
    assert(views(keep_paths@).take(n as int) =~= views(keep_paths@));
    assert(has_package_json@.take(n as int) =~= has_package_json@);
    r
}

/// No position of `ds` before `i` names the package that position `i` names.
pub open spec fn first_with_name(ds: Seq<Seq<char>>, i: int) -> bool {
    forall|j: int| 0 <= j < i ==> spec_split_dep(#[trigger] ds[j]).0 != spec_split_dep(ds[i]).0
}

/// `new` is the dependency map `old` with every package of `ds` added that it
/// lacks, at the version of the first specification naming it; entries already
/// present are kept as they were.
pub open spec fn deps_merged(
    old: Map<Seq<char>, JsonValue>,
    ds: Seq<Seq<char>>,
    new: Map<Seq<char>, JsonValue>,
) -> bool {
    &&& forall|k: Seq<char>|
        #![trigger new.contains_key(k)]
        new.contains_key(k) <==> (old.contains_key(k) || exists|i: int|
            0 <= i < ds.len() && spec_split_dep(#[trigger] ds[i]).0 == k)
    &&& forall|k: Seq<char>| #[trigger] old.contains_key(k) ==> new[k] == old[k]
    &&& forall|i: int|
        0 <= i < ds.len() && !old.contains_key(spec_split_dep(#[trigger] ds[i]).0) && first_with_name(ds, i)
            ==> str_is(new[spec_split_dep(ds[i]).0], spec_split_dep(ds[i]).1)
}

/// How one dependency table of package.json changes: untouched when `ds` is
/// empty; otherwise created when missing, merged when it is an object, left
/// as it is when it is anything else.
pub open spec fn dep_table_rewritten(
    old: Option<JsonValue>,
    ds: Seq<Seq<char>>,
    new: Option<JsonValue>,
) -> bool {
    if ds.len() == 0 {
        new == old
    } else {
        match old {
            None => new matches Some(JsonValue::Object(nm)) && deps_merged(Map::empty(), ds, nm@),
            Some(JsonValue::Object(om)) => new matches Some(JsonValue::Object(nm)) && deps_merged(
                om@,
                ds,
                nm@,
            ),
            Some(_) => new == old,
        }
    }
}

/// How the scripts table changes: every string script is rewritten for bun,
/// other values stay; anything but an object is left as it is.
pub open spec fn scripts_rewritten(old: Option<JsonValue>, new: Option<JsonValue>) -> bool {
    match old {
        Some(JsonValue::Object(om)) => new matches Some(JsonValue::Object(nm)) && nm@.dom() == om@.dom()
            && forall|k: Seq<char>|
            #[trigger] om@.contains_key(k) ==> match om@[k] {
                JsonValue::Str(s) => str_is(nm@[k], bunify(s@)),
                _ => nm@[k] == om@[k],
            },
        _ => new == old,
    }
}

/// Adds the packages of `deps` to the dependency table stored under `key`.
fn merge_dependency_table(m: &mut StrMap<JsonValue>, key: &str, deps: &Vec<String>)
    ensures
        forall|k: Seq<char>| k != key@ ==> field(final(m)@, k) == field(old(m)@, k),
        dep_table_rewritten(field(old(m)@, key@), views(deps@), field(final(m)@, key@)),
{
    if deps.len() == 0 {
        return;
    }
    let ghost m0 = m@;
    let table = m.take(key);
    let mut t = match table {
        None => StrMap::new(),
        Some(JsonValue::Object(t)) => t,
        Some(other) => {
            m.insert(key.to_owned(), other);
            assert(m@ =~= m0);
            return;
        },
    };
    let ghost t0 = t@;
    let ghost ds = views(deps@);
    let n = deps.len();
    let mut i: usize = 0;
    while i < n
        invariant
            n == deps@.len(),
            ds == views(deps@),
            i <= n,
            deps_merged(t0, ds.take(i as int), t@),
        decreases n - i,
    {
        let (name, version) = split_dependency_spec(deps[i].as_str());
        let ghost prev = t@;
        let present = t.get(name.as_str()).is_some();
        if !present {
            t.insert(name, JsonValue::Str(version));
        }
        let ghost d = ds[i as int];
        assert(ds.take(i + 1) =~= ds.take(i as int).push(d));
        assert(deps_merged(t0, ds.take(i + 1), t@)) by {
            let di = ds.take(i + 1);
            let dp = ds.take(i as int);
            assert forall|k: Seq<char>| #![trigger t@.contains_key(k)]
                t@.contains_key(k) <==> (t0.contains_key(k) || exists|j: int|
                    0 <= j < di.len() && spec_split_dep(#[trigger] di[j]).0 == k) by {
                if k == spec_split_dep(d).0 {
                    assert(di[i as int] == d);
                } else {
                    if exists|j: int| 0 <= j < di.len() && spec_split_dep(#[trigger] di[j]).0 == k {
                        let j = choose|j: int| 0 <= j < di.len() && spec_split_dep(#[trigger] di[j]).0 == k;
                        assert(dp[j] == di[j]);
                    }
                    if exists|j: int| 0 <= j < dp.len() && spec_split_dep(#[trigger] dp[j]).0 == k {
                        let j = choose|j: int| 0 <= j < dp.len() && spec_split_dep(#[trigger] dp[j]).0 == k;
                        assert(dp[j] == di[j]);
                    }
                    assert(prev.contains_key(k) == t@.contains_key(k));
                }
            }
            assert forall|k: Seq<char>| #[trigger] t0.contains_key(k) implies t@[k] == t0[k] by {
                assert(prev.contains_key(k));
            }
            assert forall|j: int|
                0 <= j < di.len() && !t0.contains_key(spec_split_dep(#[trigger] di[j]).0) && first_with_name(di, j)
                implies str_is(t@[spec_split_dep(di[j]).0], spec_split_dep(di[j]).1) by {
                if j < i {
                    assert(di[j] == dp[j]);
                    assert(first_with_name(dp, j)) by {
                        assert forall|l: int| 0 <= l < j implies spec_split_dep(#[trigger] dp[l]).0 != spec_split_dep(dp[j]).0 by {
                            assert(dp[l] == di[l]);
                        }
                    }
                    assert(prev.contains_key(spec_split_dep(dp[j]).0)) by {
                        assert(spec_split_dep(dp[j]).0 == spec_split_dep(dp[j]).0);
                    }
                } else {
                    assert(di[j] == d);
                    if prev.contains_key(spec_split_dep(d).0) {
                        let l = choose|l: int| 0 <= l < dp.len() && spec_split_dep(#[trigger] dp[l]).0 == spec_split_dep(d).0;
                        assert(di[l] == dp[l]);
                    }
                }
            }
        }
        i += 1;
    }
    assert(ds.take(n as int) =~= ds);
    m.insert(key.to_owned(), JsonValue::Object(t));
    assert forall|k: Seq<char>| k != key@ implies field(m@, k) == field(old(m)@, k) by {}
}

/// Rewrites every string script of the table stored under `key` for bun.
fn rewrite_scripts_field(m: &mut StrMap<JsonValue>, key: &str)
    ensures
        forall|k: Seq<char>| k != key@ ==> field(final(m)@, k) == field(old(m)@, k),
        scripts_rewritten(field(old(m)@, key@), field(final(m)@, key@)),
{
    let ghost m0 = m@;
    let table = m.take(key);
    let mut t = match table {
        None => {
            assert(m@ =~= m0);
            return;
        },
        Some(JsonValue::Object(t)) => t,
        Some(other) => {
            m.insert(key.to_owned(), other);
            assert(m@ =~= m0);
            return;
        },
    };
    let ghost t0 = t@;
    t.lemma_sorted();
    let keys = t.keys();
    let ghost ks = t.pairs().map_values(|p: (Seq<char>, JsonValue)| p.0);
    assert(views(keys@) =~= ks);
    assert(t0.dom() =~= ks.to_set()) by {
        assert forall|k: Seq<char>| t0.contains_key(k) implies ks.contains(k) by {
            lemma_map_key_index(t.pairs(), k);
            let j = crate::strmap::pair_index(t.pairs(), k);
            assert(ks[j] == k);
        }
        assert forall|k: Seq<char>| ks.contains(k) implies t0.contains_key(k) by {
            let j = choose|j: int| 0 <= j < ks.len() && ks[j] == k;
            crate::strmap::lemma_pairs_to_map_at(t.pairs(), j);
        }
    }
    let n = keys.len();
    let mut i: usize = 0;
    while i < n
        invariant
            n == keys@.len(),
            views(keys@) == ks,
            t0.dom() == ks.to_set(),
            ks.no_duplicates(),
            i <= n,
            t@.dom() == t0.dom(),
            forall|k: Seq<char>| #[trigger] t0.contains_key(k) && !ks.take(i as int).contains(k) ==> t@[k] == t0[k],
            forall|k: Seq<char>|
                #[trigger] t0.contains_key(k) && ks.take(i as int).contains(k) ==> match t0[k] {
                    JsonValue::Str(s) => str_is(t@[k], bunify(s@)),
                    _ => t@[k] == t0[k],
                },
        decreases n - i,
    {
        let ghost kk = ks[i as int];
        assert(keys@[i as int]@ == kk);
        assert(ks.take(i + 1) =~= ks.take(i as int).push(kk));
        assert(!ks.take(i as int).contains(kk)) by {
            if ks.take(i as int).contains(kk) {
                let j = choose|j: int| 0 <= j < ks.take(i as int).len() && #[trigger] ks.take(i as int)[j] == kk;
                assert(ks[j] == ks[i as int]);
            }
        }
        assert(t0.contains_key(kk)) by {
            assert(ks.contains(kk)) by {
                assert(ks[i as int] == kk);
            }
        }
        let v = t.take(keys[i].as_str());
        match v {
            Some(JsonValue::Str(s)) => {
                let rewritten = bunify_script(s.as_str());
                t.insert(keys[i].clone(), JsonValue::Str(rewritten));
            },
            Some(other) => {
                t.insert(keys[i].clone(), other);
            },
            None => {},
        }
        assert(t@.dom() =~= t0.dom());
        assert forall|k: Seq<char>| #[trigger] t0.contains_key(k) && !ks.take(i + 1).contains(k) implies t@[k] == t0[k] by {
            assert(ks.take(i + 1)[i as int] == kk);
            assert(k != kk);
            if ks.take(i as int).contains(k) {
                let j = choose|j: int| 0 <= j < ks.take(i as int).len() && #[trigger] ks.take(i as int)[j] == k;
                assert(ks.take(i + 1)[j] == k);
            }
        }
        assert forall|k: Seq<char>|
            #[trigger] t0.contains_key(k) && ks.take(i + 1).contains(k) implies match t0[k] {
                JsonValue::Str(s) => str_is(t@[k], bunify(s@)),
                _ => t@[k] == t0[k],
            } by {
            if k != kk {
                assert(ks.take(i as int).contains(k)) by {
                    let j = choose|j: int| 0 <= j < ks.take(i + 1).len() && #[trigger] ks.take(i + 1)[j] == k;
                    assert(ks.take(i as int)[j] == k);
                }
            }
        }
        i += 1;
    }
    assert(ks.take(n as int) =~= ks);
    m.insert(key.to_owned(), JsonValue::Object(t));
    assert forall|k: Seq<char>| k != key@ implies field(m@, k) == field(old(m)@, k) by {}
}

} // verus!

verus! {

proof fn lemma_package_keys()
    ensures
        "name"@.len() == 4 && "name"@[0] == 'n',
        "packageManager"@.len() == 14,
        "pnpm"@.len() == 4 && "pnpm"@[0] == 'p',
        "workspaces"@.len() == 10,
        "dependencies"@.len() == 12,
        "devDependencies"@.len() == 15,
        "scripts"@.len() == 7,
{
    reveal_strlit("name");
    reveal_strlit("packageManager");
    reveal_strlit("pnpm");
    reveal_strlit("workspaces");
    reveal_strlit("dependencies");
    reveal_strlit("devDependencies");
    reveal_strlit("scripts");
    assert("name"@.len() == 4 && "name"@[0] == 'n');
    assert("packageManager"@.len() == 14);
    assert("pnpm"@.len() == 4 && "pnpm"@[0] == 'p');
    assert("workspaces"@.len() == 10);
    assert("dependencies"@.len() == 12);
    assert("devDependencies"@.len() == 15);
    assert("scripts"@.len() == 7);
}

/// The top-level keys of package.json that the rewrite touches.
pub open spec fn rewritten_key(k: Seq<char>) -> bool {
    ||| k == "name"@
    ||| k == "packageManager"@
    ||| k == "pnpm"@
    ||| k == "workspaces"@
    ||| k == "dependencies"@
    ||| k == "devDependencies"@
    ||| k == "scripts"@
}

/// The fields of a package.json document (a null document has none).
pub open spec fn package_fields(v: JsonValue) -> Map<Seq<char>, JsonValue> {
    match v {
        JsonValue::Object(m) => m@,
        _ => Map::empty(),
    }
}

/// `new` is package.json `old` rewritten for a bun project named `name`: the
/// name set, the pnpm fields removed, the workspaces replaced when `ws` is
/// not empty, the packages of `ds` and `dds` added, the scripts rewritten,
/// and every other field kept.
pub open spec fn package_rewritten(
    old: JsonValue,
    new: JsonValue,
    name: Seq<char>,
    ws: Seq<Seq<char>>,
    ds: Seq<Seq<char>>,
    dds: Seq<Seq<char>>,
) -> bool {
    let om = package_fields(old);
    &&& new is Object
    &&& {
        let nm = package_fields(new);
        &&& nm.contains_key("name"@) && str_is(nm["name"@], name)
        &&& !nm.contains_key("packageManager"@)
        &&& !nm.contains_key("pnpm"@)
        &&& if ws.len() > 0 {
            nm.contains_key("workspaces"@) && str_array_is(nm["workspaces"@], ws)
        } else {
            field(nm, "workspaces"@) == field(om, "workspaces"@)
        }
        &&& dep_table_rewritten(field(om, "dependencies"@), ds, field(nm, "dependencies"@))
        &&& dep_table_rewritten(field(om, "devDependencies"@), dds, field(nm, "devDependencies"@))
        &&& scripts_rewritten(field(om, "scripts"@), field(nm, "scripts"@))
        &&& forall|k: Seq<char>| !rewritten_key(k) ==> #[trigger] field(nm, k) == field(om, k)
    }
}

/// Rewrites the root package.json for bun: sets the project name, drops the
/// pnpm-specific fields, lists `workspaces` (when there are any), adds the
/// packages of `deps` and `dev_deps` that are missing, and turns pnpm/npx
/// commands of the scripts into bun commands.
pub fn rewrite_package_json(
    package: JsonValue,
    project_name: &str,
    workspaces: &Vec<String>,
    deps: &Vec<String>,
    dev_deps: &Vec<String>,
) -> (r: JsonValue)
    requires
        package is Object || package is Null,
    ensures
        package_rewritten(package, r, project_name@, views(workspaces@), views(deps@), views(dev_deps@)),
{
    proof {
        lemma_package_keys();
    }
    let ghost om = package_fields(package);
    let mut m = match package {
        JsonValue::Object(m) => m,
        _ => StrMap::new(),
    };
    assert(m@ == om);
    m.insert("name".to_owned(), JsonValue::Str(project_name.to_owned()));
    let _ = m.take("packageManager");
    let _ = m.take("pnpm");
    let ghost m1 = m@;
    if workspaces.len() > 0 {
        m.insert("workspaces".to_owned(), string_array(workspaces));
    }
    let ghost m2 = m@;
    merge_dependency_table(&mut m, "dependencies", deps);
    let ghost m3 = m@;
    merge_dependency_table(&mut m, "devDependencies", dev_deps);
    let ghost m4 = m@;
    rewrite_scripts_field(&mut m, "scripts");
    let ghost m5 = m@;
    assert(field(m4, "dependencies"@) == field(m3, "dependencies"@));
    assert(field(m5, "dependencies"@) == field(m4, "dependencies"@));
    assert(field(m5, "dependencies"@) == field(m3, "dependencies"@));
    assert(field(m2, "dependencies"@) == field(om, "dependencies"@));
    assert(field(m3, "devDependencies"@) == field(om, "devDependencies"@));
    assert(field(m4, "scripts"@) == field(om, "scripts"@));
    assert forall|k: Seq<char>| !rewritten_key(k) implies #[trigger] field(m5, k) == field(om, k) by {
        assert(field(m5, k) == field(m4, k));
        assert(field(m4, k) == field(m3, k));
        assert(field(m3, k) == field(m2, k));
        assert(field(m2, k) == field(m1, k));
    }
    assert(m5.contains_key("name"@) && str_is(m5["name"@], project_name@)) by {
        assert(field(m5, "name"@) == field(m1, "name"@));
    }
    assert(!m5.contains_key("packageManager"@)) by {
        assert(field(m5, "packageManager"@) == field(m1, "packageManager"@));
    }
    assert(!m5.contains_key("pnpm"@)) by {
        assert(field(m5, "pnpm"@) == field(m1, "pnpm"@));
    }
    assert(field(m5, "workspaces"@) == field(m2, "workspaces"@));
    assert(workspaces@.len() == 0 ==> field(m2, "workspaces"@) == field(om, "workspaces"@)) by {
        assert(field(m1, "workspaces"@) == field(om, "workspaces"@));
    }
    assert(field(m5, "devDependencies"@) == field(m4, "devDependencies"@));
    JsonValue::Object(m)
}

} // verus!

verus! {

/// The named volume that a service's volume entry ("name:/path") refers to:
/// the part before the first ':', unless it is a host path (starting with '.'
/// or '/').
pub open spec fn volume_name(entry: Seq<char>) -> Option<Seq<char>> {
    let head = entry.take(first_index_or_len(entry, ':'));
    if head.len() > 0 && (head[0] == '.' || head[0] == '/') {
        None
    } else {
        Some(head)
    }
}

/// `item` is a volume entry string that names the volume `n`.
pub open spec fn names_volume(item: JsonValue, n: Seq<char>) -> bool {
    item matches JsonValue::Str(s) && volume_name(s@) == Some(n)
}

/// Some entry of `items` before position `j` names the volume `n`.
pub open spec fn names_volume_before(items: Seq<JsonValue>, j: int, n: Seq<char>) -> bool {
    exists|l: int| 0 <= l < j && #[trigger] names_volume(items[l], n)
}

proof fn lemma_names_volume_step(items: Seq<JsonValue>, j: int, n: Seq<char>)
    requires
        0 <= j < items.len(),
    ensures
        names_volume_before(items, j + 1, n) <==> (names_volume_before(items, j, n) || names_volume(items[j], n)),
{
    if names_volume_before(items, j + 1, n) {
        let l = choose|l: int| 0 <= l < j + 1 && #[trigger] names_volume(items[l], n);
        if l < j {
            assert(names_volume_before(items, j, n));
        }
    }
    if names_volume_before(items, j, n) {
        let l = choose|l: int| 0 <= l < j && #[trigger] names_volume(items[l], n);
        assert(names_volume_before(items, j + 1, n));
    }
    if names_volume(items[j], n) {
        assert(names_volume_before(items, j + 1, n));
    }
}

/// The named volumes that one service definition uses.
pub open spec fn service_volumes(svc: JsonValue) -> Set<Seq<char>> {
    match svc {
        JsonValue::Object(sm) => match field(sm@, "volumes"@) {
            Some(JsonValue::Array(items)) => Set::new(
                |n: Seq<char>| exists|i: int| 0 <= i < items@.len() && #[trigger] names_volume(items@[i], n),
            ),
            _ => Set::empty(),
        },
        _ => Set::empty(),
    }
}

/// The named volumes used by any of the services.
pub open spec fn used_volume_names(services: Map<Seq<char>, JsonValue>) -> Set<Seq<char>> {
    Set::new(
        |n: Seq<char>|
            exists|k: Seq<char>| services.contains_key(k) && #[trigger] service_volumes(services[k]).contains(n),
    )
}

/// `new` is the compose document `old` keeping only the services named in
/// `selected`, and only the top-level volumes that the remaining services use.
pub open spec fn compose_filtered(old: JsonValue, selected: Set<Seq<char>>, new: JsonValue) -> bool {
    match old {
        JsonValue::Object(om) => new matches JsonValue::Object(nm) && (forall|k: Seq<char>|
            k != "services"@ && k != "volumes"@ ==> #[trigger] field(nm@, k) == field(om@, k)) && match field(
            om@,
            "services"@,
        ) {
            Some(JsonValue::Object(os)) => field(nm@, "services"@) matches Some(JsonValue::Object(ns)) && ns@
                == os@.restrict(selected) && match field(om@, "volumes"@) {
                Some(JsonValue::Object(ov)) => field(nm@, "volumes"@) matches Some(JsonValue::Object(nv))
                    && nv@ == ov@.restrict(used_volume_names(ns@)),
                _ => field(nm@, "volumes"@) == field(om@, "volumes"@),
            },
            _ => field(nm@, "services"@) == field(om@, "services"@) && field(nm@, "volumes"@) == field(
                om@,
                "volumes"@,
            ),
        },
        _ => new == old,
    }
}

proof fn lemma_compose_keys()
    ensures
        "services"@.len() == 8,
        "volumes"@.len() == 7,
{
    reveal_strlit("services");
    reveal_strlit("volumes");
    assert("services"@.len() == 8);
    assert("volumes"@.len() == 7);
}

proof fn lemma_push_contains(prev: Seq<Seq<char>>, x: Seq<char>, added: Option<Seq<char>>)
    ensures
        (match added {
            Some(y) => prev.push(y),
            None => prev,
        }).contains(x) <==> (prev.contains(x) || added == Some(x)),
{
    if let Some(y) = added {
        let t = prev.push(y);
        if t.contains(x) {
            let k = choose|k: int| 0 <= k < t.len() && t[k] == x;
            if k < prev.len() {
                assert(prev[k] == x);
            }
        }
        if prev.contains(x) {
            let k = choose|k: int| 0 <= k < prev.len() && prev[k] == x;
            assert(t[k] == x);
        }
        if x == y {
            assert(t[prev.len() as int] == x);
        }
    }
}

/// The named volume of one volume entry, if it is not a host path.
fn volume_name_of(entry: &str) -> (r: Option<String>)
    ensures
        match r {
            Some(n) => volume_name(entry@) == Some(n@),
            None => volume_name(entry@) is None,
        },
{
    let p = find_first_or_len(entry, ':');
    proof {
        lemma_first_index_or_len(entry@, ':');
    }
    let head = entry.substring_char(0, p);
    assert(head@ =~= entry@.take(p as int));
    if head.unicode_len() > 0 {
        let c = head.get_char(0);
        if c == '.' || c == '/' {
            return None;
        }
    }
    Some(head.to_owned())
}

/// Appends the named volumes of the volume entries `items`.
fn push_volume_names(out: &mut Vec<String>, items: &Vec<JsonValue>)
    ensures
        forall|x: Seq<char>|
            #![trigger views(final(out)@).contains(x)]
            #![trigger names_volume_before(items@, items@.len() as int, x)]
            views(final(out)@).contains(x) <==> (views(old(out)@).contains(x) || names_volume_before(
                items@,
                items@.len() as int,
                x,
            )),
{
    let ghost before = views(out@);
    let m = items.len();
    let mut j: usize = 0;
    while j < m
        invariant
            m == items@.len(),
            j <= m,
            before == views(old(out)@),
            forall|x: Seq<char>|
                #![trigger views(out@).contains(x)]
                #![trigger names_volume_before(items@, j as int, x)]
                views(out@).contains(x) <==> (before.contains(x) || names_volume_before(items@, j as int, x)),
        decreases m - j,
    {
        let ghost prev = views(out@);
        let ghost item = items@[j as int];
        let ghost mut added: Option<Seq<char>> = None;
        match &items[j] {
            JsonValue::Str(s) => {
                match volume_name_of(s.as_str()) {
                    Some(name) => {
                        proof {
                            added = Some(name@);
                        }
                        let ghost nv = name@;
                        out.push(name);
                        assert(views(out@) =~= prev.push(nv));
                    },
                    None => {},
                }
            },
            _ => {},
        }
        assert(views(out@) == match added {
            Some(y) => prev.push(y),
            None => prev,
        });
        assert forall|x: Seq<char>|
            #![trigger views(out@).contains(x)]
            #![trigger names_volume_before(items@, j + 1, x)]
            views(out@).contains(x) <==> (before.contains(x) || names_volume_before(items@, j + 1, x)) by {
            lemma_names_volume_step(items@, j as int, x);
            lemma_push_contains(prev, x, added);
            assert(names_volume(item, x) <==> added == Some(x));
            assert(prev.contains(x) <==> (before.contains(x) || names_volume_before(items@, j as int, x)));
        }
        j += 1;
    }
}

/// Collects the named volumes that the services of `services` use.
fn collect_used_volumes(services: &StrMap<JsonValue>) -> (r: Vec<String>)
    ensures
        views(r@).to_set() == used_volume_names(services@),
{
    proof {
        lemma_compose_keys();
    }
    services.lemma_sorted();
    let ghost ps = services.pairs();
    let mut out: Vec<String> = Vec::new();
    let n = services.len();
    let mut i: usize = 0;
    while i < n
        invariant
            n == ps.len(),
            ps == services.pairs(),
            keys_sorted(ps),
            i <= n,
            forall|x: Seq<char>|
                views(out@).contains(x) <==> exists|j: int|
                    0 <= j < i && #[trigger] service_volumes(ps[j].1).contains(x),
        decreases n - i,
    {
        let svc = services.value_at(i);
        let ghost before = views(out@);
        if let JsonValue::Object(sm) = svc {
            let vols = sm.get("volumes");
            if let Some(JsonValue::Array(items)) = vols {
                assert(field(sm@, "volumes"@) == Some(JsonValue::Array(*items)));
                push_volume_names(&mut out, items);
                assert forall|x: Seq<char>|
                    views(out@).contains(x) <==> (before.contains(x) || service_volumes(*svc).contains(x)) by {
                    if service_volumes(*svc).contains(x) {
                        assert(exists|l: int| 0 <= l < items@.len() && #[trigger] names_volume(items@[l], x));
                    }
                }
            } else {
                assert(service_volumes(*svc) =~= Set::empty());
            }
        } else {
            assert(service_volumes(*svc) =~= Set::empty());
        }
        assert(ps[i as int].1 == *svc);
        assert forall|x: Seq<char>|
            views(out@).contains(x) <==> exists|j: int| 0 <= j < i + 1 && #[trigger] service_volumes(ps[j].1).contains(x) by {
            if exists|j: int| 0 <= j < i + 1 && #[trigger] service_volumes(ps[j].1).contains(x) {
                let j = choose|j: int| 0 <= j < i + 1 && #[trigger] service_volumes(ps[j].1).contains(x);
                if j < i {
                    assert(exists|j2: int| 0 <= j2 < i && #[trigger] service_volumes(ps[j2].1).contains(x));
                }
            }
            if views(out@).contains(x) && !before.contains(x) {
                assert(service_volumes(ps[i as int].1).contains(x));
            }
        }
        i += 1;
    }
    assert(views(out@).to_set() =~= used_volume_names(services@)) by {
        assert forall|x: Seq<char>| views(out@).to_set().contains(x) implies used_volume_names(services@).contains(x) by {
            let j = choose|j: int| 0 <= j < n && #[trigger] service_volumes(ps[j].1).contains(x);
            lemma_pairs_to_map_at(ps, j);
        }
        assert forall|x: Seq<char>| used_volume_names(services@).contains(x) implies views(out@).to_set().contains(x) by {
            let k = choose|k: Seq<char>| services@.contains_key(k) && #[trigger] service_volumes(services@[k]).contains(x);
            lemma_map_key_index(ps, k);
            let j = pair_index(ps, k);
            assert(service_volumes(ps[j].1).contains(x));
        }
    }
    out
}

/// Keeps only the selected services of a docker-compose document, and only
/// the top-level volumes that the remaining services use.
pub fn filter_docker_compose(compose: JsonValue, selected_services: &Vec<String>) -> (r: JsonValue)
    ensures
        compose_filtered(compose, views(selected_services@).to_set(), r),
{
    proof {
        lemma_compose_keys();
    }
    let mut m = match compose {
        JsonValue::Object(m) => m,
        other => {
            return other;
        },
    };
    let ghost om = m@;
    let services = m.take("services");
    match services {
        Some(JsonValue::Object(mut sv)) => {
            sv.retain_keys(selected_services);
            let used = collect_used_volumes(&sv);
            m.insert("services".to_owned(), JsonValue::Object(sv));
            let ghost m1 = m@;
            let volumes = m.take("volumes");
            match volumes {
                Some(JsonValue::Object(mut vm)) => {
                    vm.retain_keys(&used);
                    m.insert("volumes".to_owned(), JsonValue::Object(vm));
                },
                Some(other) => {
                    m.insert("volumes".to_owned(), other);
                    assert(m@ =~= m1);
                },
                None => {
                    assert(m@ =~= m1);
                },
            }
            assert(field(m@, "services"@) == field(m1, "services"@));
        },
        Some(other) => {
            m.insert("services".to_owned(), other);
            assert(m@ =~= om);
        },
        None => {
            assert(m@ =~= om);
        },
    }
    JsonValue::Object(m)
}

/// Why scaffolding stopped.
#[derive(Clone, Copy, Debug, PartialEq, Eq, Structural)]
pub enum ScaffoldError {
    /// package.json is not JSON.
    PackageJsonUnparsable,
    /// package.json holds neither an object nor null.
    PackageJsonNotAnObject,
    /// The rewritten package.json could not be printed.
    PackageJsonUnprintable,
    /// docker-compose.yml is not YAML that reads as a JSON value.
    ComposeUnparsable,
    /// The filtered docker-compose.yml could not be printed.
    ComposeUnprintable,
}

/// `out` is the printed JSON of `v`, or the error when it cannot be printed.
pub open spec fn package_text_is(v: JsonValue, out: Result<String, ScaffoldError>) -> bool {
    match spec_json_pretty(v) {
        Some(t) => out matches Ok(c) && c@ == t,
        None => out == Err::<String, ScaffoldError>(ScaffoldError::PackageJsonUnprintable),
    }
}

/// `out` is what rewriting the package.json text `text` gives: the printed
/// rewritten document, or why there is none.
pub open spec fn package_text_rewritten(
    text: Seq<char>,
    out: Result<String, ScaffoldError>,
    name: Seq<char>,
    ws: Seq<Seq<char>>,
    ds: Seq<Seq<char>>,
    dds: Seq<Seq<char>>,
) -> bool {
    match spec_parse_json(text) {
        None => out == Err::<String, ScaffoldError>(ScaffoldError::PackageJsonUnparsable),
        Some(t) => if t is Object || t is Null {
            exists|p: JsonValue, v: JsonValue|
                #![trigger tree_models(t, p), package_rewritten(p, v, name, ws, ds, dds)]
                tree_models(t, p) && package_rewritten(p, v, name, ws, ds, dds) && package_text_is(v, out)
        } else {
            out == Err::<String, ScaffoldError>(ScaffoldError::PackageJsonNotAnObject)
        },
    }
}

/// Rewrites the text of a package.json for bun (see `rewrite_package_json`)
/// and prints it back.
pub fn rewrite_package_json_text(
    text: &str,
    project_name: &str,
    workspaces: &Vec<String>,
    deps: &Vec<String>,
    dev_deps: &Vec<String>,
) -> (r: Result<String, ScaffoldError>)
    ensures
        package_text_rewritten(text@, r, project_name@, views(workspaces@), views(deps@), views(dev_deps@)),
{
    match read_package_json(text) {
        Err(PackageJsonError::Unparsable) => Err(ScaffoldError::PackageJsonUnparsable),
        Err(PackageJsonError::NotAnObject) => Err(ScaffoldError::PackageJsonNotAnObject),
        Ok(package) => {
            let rewritten = rewrite_package_json(package, project_name, workspaces, deps, dev_deps);
            let r = match json_pretty(&rewritten) {
                Some(t) => Ok(t),
                None => Err(ScaffoldError::PackageJsonUnprintable),
            };
            assert(tree_models(spec_parse_json(text@).unwrap(), package) && package_rewritten(
                package,
                rewritten,
                project_name@,
                views(workspaces@),
                views(deps@),
                views(dev_deps@),
            ) && package_text_is(rewritten, r));
            r
        },
    }
}

/// `out` is the YAML text of `w`, or the error when it cannot be printed.
pub open spec fn compose_text_is(w: JsonValue, out: Result<String, ScaffoldError>) -> bool {
    match spec_yaml_text(w) {
        Some(t) => out matches Ok(c) && c@ == t,
        None => out == Err::<String, ScaffoldError>(ScaffoldError::ComposeUnprintable),
    }
}

/// `out` is what filtering the docker-compose text `text` to `selected` gives.
pub open spec fn compose_text_filtered(text: Seq<char>, selected: Set<Seq<char>>, out: Result<String, ScaffoldError>) -> bool {
    match spec_parse_yaml(text) {
        None => out == Err::<String, ScaffoldError>(ScaffoldError::ComposeUnparsable),
        Some(t) => exists|v: JsonValue, w: JsonValue|
            #![trigger tree_models(t, v), compose_filtered(v, selected, w)]
            tree_models(t, v) && compose_filtered(v, selected, w) && compose_text_is(w, out),
    }
}

/// Filters the text of a docker-compose.yml to the selected services (see
/// `filter_docker_compose`) and prints it back.
pub fn filter_docker_compose_text(text: &str, selected_services: &Vec<String>) -> (r: Result<String, ScaffoldError>)
    ensures
        compose_text_filtered(text@, views(selected_services@).to_set(), r),
{
    match parse_yaml(text) {
        None => Err(ScaffoldError::ComposeUnparsable),
        Some(tree) => {
            let compose = json_of_tree(&tree);
            let ghost v = compose;
            let filtered = filter_docker_compose(compose, selected_services);
            let r = match yaml_text(&filtered) {
                Some(t) => Ok(t),
                None => Err(ScaffoldError::ComposeUnprintable),
            };
            assert(tree_models(tree, v) && compose_filtered(v, views(selected_services@).to_set(), filtered)
                && compose_text_is(filtered, r));
            r
        },
    }
}

} // verus!

verus! {

/// The comment block at the top of a generated .env file.
pub const ENV_FILE_HEADER: &'static str = "# =============================================================================\n# Environment Variables for your Weave project\n# Generated by weave-cli based on your selections.\n# Fill in the values below before running the project.\n# =============================================================================\n\n";

/// The bun configuration written as bunfig.toml.
pub const BUNFIG_CONTENT: &'static str = "# Bun configuration for the Weave project\n# See: https://bun.sh/docs/runtime/bunfig\n\n[install]\n# Use the default registry\npeer = false\n\n[install.lockfile]\n# Save the lockfile\nsave = true\n";

/// One "NAME=" line per variable, in order.
pub open spec fn env_lines(vars: Seq<Seq<char>>) -> Seq<char>
    decreases vars.len(),
{
    if vars.len() == 0 {
        Seq::empty()
    } else {
        env_lines(vars.drop_last()) + vars.last() + "=\n"@
    }
}

/// The content of the .env file for `env_vars`: the header and one empty
/// assignment per variable; nothing when there are no variables.
pub fn env_file_content(env_vars: &Vec<String>) -> (r: Option<String>)
    ensures
        r is None <==> env_vars@.len() == 0,
        r matches Some(c) ==> c@ == ENV_FILE_HEADER@ + env_lines(views(env_vars@)),
{
    if env_vars.len() == 0 {
        return None;
    }
    let mut content = ENV_FILE_HEADER.to_owned();
    let n = env_vars.len();
    let mut i: usize = 0;
    while i < n
        invariant
            n == env_vars@.len(),
            i <= n,
            content@ == ENV_FILE_HEADER@ + env_lines(views(env_vars@).take(i as int)),
        decreases n - i,
    {
        assert(views(env_vars@).take(i + 1).drop_last() =~= views(env_vars@).take(i as int));
        content.append(env_vars[i].as_str());
        content.append("=\n");
        assert(content@ =~= ENV_FILE_HEADER@ + env_lines(views(env_vars@).take(i + 1)));
        i += 1;
    }
    assert(views(env_vars@).take(n as int) =~= views(env_vars@));
    Some(content)
}

/// The files of the template that a scaffolded project does not keep: pnpm
/// artifacts (the project uses bun) and the template manifest.
pub open spec fn spec_artifact_files() -> Seq<Seq<char>> {
    seq!["pnpm-workspace.yaml"@, "pnpm-lock.yaml"@, ".pnpmrc"@, ".npmrc"@, "weave.manifest.toml"@]
}

/// The names of the files removed from a scaffolded project.
pub fn artifact_files() -> (r: Vec<String>)
    ensures
        views(r@) == spec_artifact_files(),
{
    let mut r: Vec<String> = Vec::new();
    r.push("pnpm-workspace.yaml".to_owned());
    r.push("pnpm-lock.yaml".to_owned());
    r.push(".pnpmrc".to_owned());
    r.push(".npmrc".to_owned());
    r.push("weave.manifest.toml".to_owned());
    assert(views(r@) =~= spec_artifact_files());
    r
}

} // verus!

verus! {

/// The step of scaffolding whose action was issued last.
#[derive(Clone, Copy, Debug, PartialEq, Eq, Structural)]
pub enum ScaffoldPhase {
    Start,
    WeaveToml,
    InspectPackage,
    WritePackage,
    Bunfig,
    EnvFiles,
    InspectCompose,
    RemoveCompose,
    ReadCompose,
    WriteCompose,
    Artifacts,
    Git,
    Finished,
}

/// What the project directory reported for the last action.
pub enum ScaffoldEvent {
    /// The last action was carried out.
    Completed,
    /// The project has no package.json.
    PackageJsonMissing,
    /// The text of the project's package.json, and for each workspace
    /// candidate whether its directory holds a package.json.
    PackageJson { text: String, has_package_json: Vec<bool> },
    /// The project has no docker-compose.yml.
    ComposeMissing,
    /// The project has a docker-compose.yml.
    ComposePresent,
    /// The text of the project's docker-compose.yml.
    Compose(String),
}

/// What is to be done in the project directory next.
pub enum ScaffoldAction {
    /// Save the selections as weave.toml.
    WriteWeaveToml,
    /// Read package.json if present, and check which candidates hold one.
    InspectPackageJson { workspace_candidates: Vec<String> },
    /// Write package.json with this text.
    WritePackageJson(String),
    /// Write bunfig.toml.
    WriteBunfig(String),
    /// Write .env and .env.example.
    WriteEnvFiles(String),
    /// Check whether docker-compose.yml is present.
    InspectCompose,
    /// Remove docker-compose.yml.
    RemoveCompose,
    /// Read docker-compose.yml.
    ReadCompose,
    /// Write docker-compose.yml with this text.
    WriteCompose(String),
    /// Remove those of the named files that exist.
    RemoveArtifacts(Vec<String>),
    /// Initialize a git repository (a failure is not fatal).
    InitGit,
    /// Scaffolding is complete.
    Finish,
    /// Scaffolding stops with this error.
    Abort(ScaffoldError),
}

/// The position of a phase in the order of the scaffolding steps.
pub open spec fn phase_rank(p: ScaffoldPhase) -> int {
    match p {
        ScaffoldPhase::Start => 0,
        ScaffoldPhase::WeaveToml => 1,
        ScaffoldPhase::InspectPackage => 2,
        ScaffoldPhase::WritePackage => 3,
        ScaffoldPhase::Bunfig => 4,
        ScaffoldPhase::EnvFiles => 5,
        ScaffoldPhase::InspectCompose => 6,
        ScaffoldPhase::RemoveCompose => 7,
        ScaffoldPhase::ReadCompose => 8,
        ScaffoldPhase::WriteCompose => 9,
        ScaffoldPhase::Artifacts => 10,
        ScaffoldPhase::Git => 11,
        ScaffoldPhase::Finished => 12,
    }
}

/// The event reported for a phase is one that the phase can receive.
pub open spec fn event_fits(
    manifest: WeaveManifest,
    selections: UserSelections,
    phase: ScaffoldPhase,
    event: ScaffoldEvent,
) -> bool {
    match phase {
        ScaffoldPhase::InspectPackage => match event {
            ScaffoldEvent::PackageJsonMissing => true,
            ScaffoldEvent::PackageJson { text, has_package_json } => has_package_json@.len()
                == manifest.gather(selections.selections.pairs(), keep_of()).len(),
            _ => false,
        },
        ScaffoldPhase::InspectCompose => event is ComposeMissing || event is ComposePresent,
        ScaffoldPhase::ReadCompose => event is Compose,
        _ => true,
    }
}

/// The action that bun configuration comes with.
pub open spec fn bunfig_step(next: ScaffoldPhase, action: ScaffoldAction) -> bool {
    &&& next == ScaffoldPhase::Bunfig
    &&& action matches ScaffoldAction::WriteBunfig(c) && c@ == BUNFIG_CONTENT@
}

/// The step to the removal of artifacts.
pub open spec fn artifacts_step(next: ScaffoldPhase, action: ScaffoldAction) -> bool {
    &&& next == ScaffoldPhase::Artifacts
    &&& action matches ScaffoldAction::RemoveArtifacts(files) && views(files@) == spec_artifact_files()
}

/// One step of scaffolding: from the phase whose action was carried out and
/// the event it produced, the next phase and its action.
pub open spec fn scaffold_step(
    manifest: WeaveManifest,
    selections: UserSelections,
    skip_git: bool,
    phase: ScaffoldPhase,
    event: ScaffoldEvent,
    next: ScaffoldPhase,
    action: ScaffoldAction,
) -> bool {
    let sel = selections.selections.pairs();
    match phase {
        ScaffoldPhase::Start => next == ScaffoldPhase::WeaveToml && action is WriteWeaveToml,
        ScaffoldPhase::WeaveToml => {
            &&& next == ScaffoldPhase::InspectPackage
            &&& action matches ScaffoldAction::InspectPackageJson { workspace_candidates: c } && views(c@)
                == manifest.gather(sel, keep_of())
        },
        ScaffoldPhase::InspectPackage => match event {
            ScaffoldEvent::PackageJson { text, has_package_json } => {
                let rewritten = |out: Result<String, ScaffoldError>|
                    package_text_rewritten(
                        text@,
                        out,
                        selections.project_name@,
                        flagged(manifest.gather(sel, keep_of()), has_package_json@),
                        sorted_distinct(manifest.gather(sel, deps_of())),
                        sorted_distinct(manifest.gather(sel, dev_deps_of())),
                    );
                match action {
                    ScaffoldAction::WritePackageJson(c) => next == ScaffoldPhase::WritePackage && rewritten(
                        Ok(c),
                    ),
                    ScaffoldAction::Abort(e) => next == ScaffoldPhase::Finished && rewritten(Err(e)),
                    _ => false,
                }
            },
            _ => bunfig_step(next, action),
        },
        ScaffoldPhase::WritePackage => bunfig_step(next, action),
        ScaffoldPhase::Bunfig => {
            let env = sorted_distinct(manifest.gather(sel, env_of()));
            if env.len() == 0 {
                next == ScaffoldPhase::InspectCompose && action is InspectCompose
            } else {
                &&& next == ScaffoldPhase::EnvFiles
                &&& action matches ScaffoldAction::WriteEnvFiles(c) && c@ == ENV_FILE_HEADER@ + env_lines(env)
            }
        },
        ScaffoldPhase::EnvFiles => next == ScaffoldPhase::InspectCompose && action is InspectCompose,
        ScaffoldPhase::InspectCompose => if event is ComposePresent {
            if manifest.gather(sel, services_of()).len() == 0 {
                next == ScaffoldPhase::RemoveCompose && action is RemoveCompose
            } else {
                next == ScaffoldPhase::ReadCompose && action is ReadCompose
            }
        } else {
            artifacts_step(next, action)
        },
        ScaffoldPhase::RemoveCompose => artifacts_step(next, action),
        ScaffoldPhase::ReadCompose => match event {
            ScaffoldEvent::Compose(text) => {
                let selected = manifest.gather(sel, services_of()).to_set();
                match action {
                    ScaffoldAction::WriteCompose(c) => next == ScaffoldPhase::WriteCompose
                        && compose_text_filtered(text@, selected, Ok(c)),
                    ScaffoldAction::Abort(e) => next == ScaffoldPhase::Finished && compose_text_filtered(
                        text@,
                        selected,
                        Err(e),
                    ),
                    _ => false,
                }
            },
            _ => false,
        },
        ScaffoldPhase::WriteCompose => artifacts_step(next, action),
        ScaffoldPhase::Artifacts => if skip_git {
            next == ScaffoldPhase::Finished && action is Finish
        } else {
            next == ScaffoldPhase::Git && action is InitGit
        },
        ScaffoldPhase::Git => next == ScaffoldPhase::Finished && action is Finish,
        ScaffoldPhase::Finished => next == ScaffoldPhase::Finished && action is Finish,
    }
}

fn remove_artifacts_action() -> (r: (ScaffoldPhase, ScaffoldAction))
    ensures
        artifacts_step(r.0, r.1),
{
    (ScaffoldPhase::Artifacts, ScaffoldAction::RemoveArtifacts(artifact_files()))
}

fn bunfig_action() -> (r: (ScaffoldPhase, ScaffoldAction))
    ensures
        bunfig_step(r.0, r.1),
{
    (ScaffoldPhase::Bunfig, ScaffoldAction::WriteBunfig(BUNFIG_CONTENT.to_owned()))
}

/// Drives the scaffolding that follows the copy of the template: saves the
/// selections, rewrites package.json for bun, writes bunfig.toml and the .env
/// files, filters docker-compose.yml, removes template artifacts and
/// initializes git (unless `skip_git`). Given the phase whose action was just
/// carried out and what it reported, returns the next phase and its action.
pub fn post_scaffold(
    manifest: &WeaveManifest,
    selections: &UserSelections,
    skip_git: bool,
    phase: ScaffoldPhase,
    event: ScaffoldEvent,
) -> (r: (ScaffoldPhase, ScaffoldAction))
    requires
        event_fits(*manifest, *selections, phase, event),
    ensures
        scaffold_step(*manifest, *selections, skip_git, phase, event, r.0, r.1),
        phase != ScaffoldPhase::Finished ==> phase_rank(r.0) > phase_rank(phase),
{
    match phase {
        ScaffoldPhase::Start => (ScaffoldPhase::WeaveToml, ScaffoldAction::WriteWeaveToml),
        ScaffoldPhase::WeaveToml => {
            let keep = manifest.collect_keep_paths(&selections.selections);
            (ScaffoldPhase::InspectPackage, ScaffoldAction::InspectPackageJson { workspace_candidates: keep })
        },
        ScaffoldPhase::InspectPackage => match event {
            ScaffoldEvent::PackageJson { text, has_package_json } => {
                let keep = manifest.collect_keep_paths(&selections.selections);
                let workspaces = workspace_paths(&keep, &has_package_json);
                let (deps, dev_deps) = manifest.collect_dependencies(&selections.selections);
                match rewrite_package_json_text(
                    text.as_str(),
                    selections.project_name.as_str(),
                    &workspaces,
                    &deps,
                    &dev_deps,
                ) {
                    Ok(c) => (ScaffoldPhase::WritePackage, ScaffoldAction::WritePackageJson(c)),
                    Err(e) => (ScaffoldPhase::Finished, ScaffoldAction::Abort(e)),
                }
            },
            _ => bunfig_action(),
        },
        ScaffoldPhase::WritePackage => bunfig_action(),
        ScaffoldPhase::Bunfig => {
            let env_vars = manifest.collect_env_vars(&selections.selections);
            match env_file_content(&env_vars) {
                Some(content) => (ScaffoldPhase::EnvFiles, ScaffoldAction::WriteEnvFiles(content)),
                None => (ScaffoldPhase::InspectCompose, ScaffoldAction::InspectCompose),
            }
        },
        ScaffoldPhase::EnvFiles => (ScaffoldPhase::InspectCompose, ScaffoldAction::InspectCompose),
        ScaffoldPhase::InspectCompose => match event {
            ScaffoldEvent::ComposePresent => {
                let services = manifest.collect_docker_services(&selections.selections);
                if services.len() == 0 {
                    proof {
                        let g = manifest.gather(selections.selections.pairs(), services_of());
                        if g.len() > 0 {
                            assert(g.to_set().contains(g[0]));
                            assert(views(services@).to_set().contains(g[0]));
                        }
                    }
                    (ScaffoldPhase::RemoveCompose, ScaffoldAction::RemoveCompose)
                } else {
                    proof {
                        let g = manifest.gather(selections.selections.pairs(), services_of());
                        assert(views(services@).to_set().contains(views(services@)[0]));
                    }
                    (ScaffoldPhase::ReadCompose, ScaffoldAction::ReadCompose)
                }
            },
            _ => remove_artifacts_action(),
        },
        ScaffoldPhase::RemoveCompose => remove_artifacts_action(),
        ScaffoldPhase::ReadCompose => match event {
            ScaffoldEvent::Compose(text) => {
                let services = manifest.collect_docker_services(&selections.selections);
                match filter_docker_compose_text(text.as_str(), &services) {
                    Ok(c) => (ScaffoldPhase::WriteCompose, ScaffoldAction::WriteCompose(c)),
                    Err(e) => (ScaffoldPhase::Finished, ScaffoldAction::Abort(e)),
                }
            },
            _ => (ScaffoldPhase::Finished, ScaffoldAction::Finish),
        },
        ScaffoldPhase::WriteCompose => remove_artifacts_action(),
        ScaffoldPhase::Artifacts => {
            if skip_git {
                (ScaffoldPhase::Finished, ScaffoldAction::Finish)
            } else {
                (ScaffoldPhase::Git, ScaffoldAction::InitGit)
            }
        },
        ScaffoldPhase::Git => (ScaffoldPhase::Finished, ScaffoldAction::Finish),
        ScaffoldPhase::Finished => (ScaffoldPhase::Finished, ScaffoldAction::Finish),
    }
}

} // verus!
