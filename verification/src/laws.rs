//! Properties of the library that span several functions or all inputs.

use vstd::prelude::*;
use crate::app::{enter_accepted, enter_marks, fresh_list_of, has_entries, key_handled, needs_pick, nonempty_categories, spec_toggled, App, AppScreen, WizardKey, WizardOutcome};
use crate::manifest::ManifestEntry;
use crate::selections::spec_selection_mode;
use crate::selections::{spec_display_name, SelectionMode, UserSelections};
use crate::manifest::spec_category_order;
use crate::text::flagged;
use crate::generator::{bunify, compose_filtered, service_volumes, names_volume, spec_split_dep, used_volume_names, volume_name};
use crate::text::{first_index_or_len, lemma_first_index_or_len};
use crate::text::{first_not_inside, lemma_replace_leaves_no, mismatch_from, occurs_in, starts_nowhere_in};
use crate::json::{field, JsonValue};
use crate::manifest::WeaveManifest;
use crate::selections::spec_is_selected;
use crate::text::{last_index_of, lemma_last_index_of, lemma_sorted_insert, lex_lt, lemma_lex_total, sorted_distinct, strictly_sorted, views};

verus! {

/// Every sequence of strings has exactly one strictly increasing
/// rearrangement of its distinct elements: `sorted_distinct` is that one, so
/// the collected environment variables, dependencies and Docker services are
/// sorted, free of duplicates, and hold exactly the collected values.
pub proof fn law_sorted_distinct(s: Seq<Seq<char>>)
    ensures
        strictly_sorted(sorted_distinct(s)),
        sorted_distinct(s).to_set() == s.to_set(),
        sorted_distinct(s).no_duplicates(),
{
    let w = sorted_witness(s);
    assert(strictly_sorted(w) && w.to_set() == s.to_set());
    let r = sorted_distinct(s);
    assert forall|i: int, j: int| 0 <= i < r.len() && 0 <= j < r.len() && i != j implies r[i] != r[j] by {
        if i < j {
            crate::text::lemma_lex_lt_asymmetric(r[i], r[j]);
        } else {
            crate::text::lemma_lex_lt_asymmetric(r[j], r[i]);
        }
    }
}

/// A strictly increasing sequence with the elements of `s`.
proof fn sorted_witness(s: Seq<Seq<char>>) -> (w: Seq<Seq<char>>)
    ensures
        strictly_sorted(w),
        w.to_set() == s.to_set(),
    decreases s.len(),
{
    if s.len() == 0 {
        assert(s.to_set() =~= Seq::<Seq<char>>::empty().to_set());
        Seq::empty()
    } else {
        let w0 = sorted_witness(s.drop_last());
        let x = s.last();
        assert(s.to_set() =~= s.drop_last().to_set().insert(x)) by {
            assert(s =~= s.drop_last().push(x));
            assert forall|y: Seq<char>| s.contains(y) implies #[trigger] s.drop_last().to_set().insert(x).contains(y) by {
                let k = choose|k: int| 0 <= k < s.len() && s[k] == y;
                if k < s.len() - 1 {
                    assert(s.drop_last()[k] == y);
                }
            }
            assert forall|y: Seq<char>| s.drop_last().to_set().insert(x).contains(y) implies #[trigger] s.contains(y) by {
                if y == x {
                    assert(s[s.len() - 1] == y);
                } else {
                    let k = choose|k: int| 0 <= k < s.drop_last().len() && s.drop_last()[k] == y;
                    assert(s[k] == y);
                }
            }
        }
        if w0.contains(x) {
            assert(w0.to_set().insert(x) =~= w0.to_set());
            w0
        } else {
            let pos = insert_position(w0, x);
            lemma_sorted_insert(w0, pos, x);
            let w = w0.insert(pos, x);
            assert(w.to_set() =~= w0.to_set().insert(x)) by {
                assert forall|y: Seq<char>| w.contains(y) implies #[trigger] w0.to_set().insert(x).contains(y) by {
                    let k = choose|k: int| 0 <= k < w.len() && w[k] == y;
                    if k < pos {
                        assert(w0[k] == y);
                    } else if k > pos {
                        assert(w0[k - 1] == y);
                    }
                }
                assert forall|y: Seq<char>| w0.to_set().insert(x).contains(y) implies #[trigger] w.contains(y) by {
                    if y == x {
                        assert(w[pos] == y);
                    } else {
                        let k = choose|k: int| 0 <= k < w0.len() && w0[k] == y;
                        if k < pos {
                            assert(w[k] == y);
                        } else {
                            assert(w[k + 1] == y);
                        }
                    }
                }
            }
            w
        }
    }
}

/// The place of `x` in the strictly increasing `w`, which lacks it.
proof fn insert_position(w: Seq<Seq<char>>, x: Seq<char>) -> (pos: int)
    requires
        strictly_sorted(w),
        !w.contains(x),
    ensures
        0 <= pos <= w.len(),
        forall|j: int| 0 <= j < pos ==> lex_lt(#[trigger] w[j], x),
        pos < w.len() ==> lex_lt(x, w[pos]),
    decreases w.len(),
{
    if w.len() == 0 {
        0
    } else {
        let last = w.last();
        lemma_lex_total(last, x);
        if last != x && lex_lt(last, x) {
            assert forall|j: int| 0 <= j < w.len() implies lex_lt(#[trigger] w[j], x) by {
                if j < w.len() - 1 {
                    assert(lex_lt(w[j], w[w.len() - 1]));
                    crate::text::lemma_lex_lt_transitive(w[j], last, x);
                }
            }
            w.len() as int
        } else {
            assert(last != x) by {
                assert(w[w.len() - 1] == last);
            }
            let w1 = w.drop_last();
            assert forall|i: int, j: int| 0 <= i < j < w1.len() implies lex_lt(#[trigger] w1[i], #[trigger] w1[j]) by {
                assert(lex_lt(w[i], w[j]));
            }
            assert(!w1.contains(x)) by {
                if w1.contains(x) {
                    let k = choose|k: int| 0 <= k < w1.len() && w1[k] == x;
                    assert(w[k] == x);
                }
            }
            let p = insert_position(w1, x);
            if p == w1.len() {
                assert(lex_lt(x, w[p]));
            } else {
                assert(lex_lt(x, w[p])) by {
                    assert(w1[p] == w[p]);
                }
            }
            assert forall|j: int| 0 <= j < p implies lex_lt(#[trigger] w[j], x) by {
                assert(w1[j] == w[j]);
            }
            p
        }
    }
}

/// Selecting keys in a category is read back by `is_selected`: after the
/// selection of `keys` in `category`, exactly those keys count as selected
/// there, and the selections of every other category are unchanged.
pub proof fn law_selection_read_back(
    sel: Map<Seq<char>, Vec<String>>,
    category: Seq<char>,
    keys: Vec<String>,
    other: Seq<char>,
    key: Seq<char>,
)
    ensures
        spec_is_selected(sel.insert(category, keys), category, key) <==> views(keys@).contains(key),
        other != category ==> (spec_is_selected(sel.insert(category, keys), other, key) <==> spec_is_selected(
            sel,
            other,
            key,
        )),
{
}

/// A dependency specification with a version ("name@version", the name not
/// starting at the '@') splits into parts that rejoin to the specification.
pub proof fn law_split_dependency_rejoins(d: Seq<char>)
    requires
        last_index_of(d, '@') > 0,
    ensures
        spec_split_dep(d).0 + "@"@ + spec_split_dep(d).1 == d,
        !spec_split_dep(d).1.contains('@'),
{
    reveal_strlit("@");
    lemma_last_index_of(d, '@');
    let p = last_index_of(d, '@');
    assert("@"@ =~= seq!['@']);
    assert(d.take(p) + "@"@ + d.skip(p + 1) =~= d);
    if d.skip(p + 1).contains('@') {
        let k = choose|k: int| 0 <= k < d.skip(p + 1).len() && #[trigger] d.skip(p + 1)[k] == '@';
        assert(d[p + 1 + k] == '@');
    }
}

/// Every category that the wizard shows has at least one option, and the
/// shown categories keep the order in which they are listed.
pub proof fn law_wizard_categories_have_entries(m: WeaveManifest, cs: Seq<Seq<char>>)
    ensures
        forall|i: int| 0 <= i < nonempty_categories(m, cs).len() ==> has_entries(m, #[trigger] nonempty_categories(m, cs)[i]),
        forall|i: int| 0 <= i < nonempty_categories(m, cs).len() ==> cs.contains(#[trigger] nonempty_categories(m, cs)[i]),
    decreases cs.len(),
{
    if cs.len() > 0 {
        law_wizard_categories_have_entries(m, cs.drop_last());
        let prev = nonempty_categories(m, cs.drop_last());
        assert forall|i: int| 0 <= i < nonempty_categories(m, cs).len() implies cs.contains(#[trigger] nonempty_categories(m, cs)[i]) by {
            if i < prev.len() {
                assert(nonempty_categories(m, cs)[i] == prev[i]);
                let k = choose|k: int| 0 <= k < cs.drop_last().len() && cs.drop_last()[k] == prev[i];
                assert(cs[k] == prev[i]);
            } else {
                assert(cs[cs.len() - 1] == cs.last());
            }
        }
        assert forall|i: int| 0 <= i < nonempty_categories(m, cs).len() implies has_entries(m, #[trigger] nonempty_categories(m, cs)[i]) by {
            if i < prev.len() {
                assert(nonempty_categories(m, cs)[i] == prev[i]);
            }
        }
    }
}

/// Two optional tables agree: objects with the same entries, or the same value.
pub open spec fn same_table(x: Option<JsonValue>, y: Option<JsonValue>) -> bool {
    match (x, y) {
        (Some(JsonValue::Object(xm)), Some(JsonValue::Object(ym))) => xm@ == ym@,
        _ => x == y,
    }
}

/// Two compose documents agree: the same fields, the services and volumes
/// tables with the same entries.
pub open spec fn same_compose(b: JsonValue, c: JsonValue) -> bool {
    match (b, c) {
        (JsonValue::Object(bm), JsonValue::Object(cm)) => {
            &&& forall|k: Seq<char>| k != "services"@ && k != "volumes"@ ==> #[trigger] field(cm@, k) == field(bm@, k)
            &&& same_table(field(bm@, "services"@), field(cm@, "services"@))
            &&& same_table(field(bm@, "volumes"@), field(cm@, "volumes"@))
        },
        _ => b == c,
    }
}

/// Filtering a docker-compose document a second time with the same services
/// changes nothing.
pub proof fn law_compose_filter_idempotent(a: JsonValue, selected: Set<Seq<char>>, b: JsonValue, c: JsonValue)
    requires
        compose_filtered(a, selected, b),
        compose_filtered(b, selected, c),
    ensures
        same_compose(b, c),
{
    reveal_strlit("services");
    reveal_strlit("volumes");
    assert("services"@.len() == 8 && "volumes"@.len() == 7);
    if let JsonValue::Object(om) = a {
        let bm = b->Object_0;
        let cm = c->Object_0;
        assert forall|k: Seq<char>| k != "services"@ && k != "volumes"@ implies #[trigger] field(cm@, k) == field(bm@, k) by {
            assert(field(bm@, k) == field(om@, k));
        }
        match field(om@, "services"@) {
            Some(JsonValue::Object(os)) => {
                let ns = field(bm@, "services"@).unwrap()->Object_0;
                let ns2 = field(cm@, "services"@).unwrap()->Object_0;
                assert(ns2@ =~= ns@);
                match field(om@, "volumes"@) {
                    Some(JsonValue::Object(ov)) => {
                        let nv = field(bm@, "volumes"@).unwrap()->Object_0;
                        let nv2 = field(cm@, "volumes"@).unwrap()->Object_0;
                        assert(used_volume_names(ns2@) == used_volume_names(ns@));
                        assert(nv2@ =~= nv@);
                    },
                    _ => {},
                }
            },
            _ => {},
        }
    }
}

/// The summary has one line per category, in wizard order, each named by
/// the category's display name.
pub proof fn law_summary_lists_every_category(sel: UserSelections)
    ensures
        sel.spec_summary().len() == 8,
        forall|i: int| 0 <= i < 8 ==> (#[trigger] sel.spec_summary()[i]).0 == spec_display_name(spec_category_order()[i]),
{
}

/// A single-select list has exactly one option checked after a toggle (the
/// highlighted one); an optional single-select list has at most one.
pub proof fn law_single_select_checks_one(checked: Seq<bool>, cursor: int)
    requires
        0 <= cursor < checked.len(),
    ensures
        forall|i: int| 0 <= i < checked.len() ==> (#[trigger] spec_toggled(checked, cursor, SelectionMode::Single)[i] <==> i == cursor),
        forall|i: int| 0 <= i < checked.len() && #[trigger] spec_toggled(checked, cursor, SelectionMode::OptionalSingle)[i] ==> i == cursor,
{
}

/// With exactly the option at `cursor` checked, the selected keys are that
/// option's key alone: a single-select category records one key.
pub proof fn law_one_checked_selects_one(keys: Seq<Seq<char>>, cursor: int)
    requires
        0 <= cursor < keys.len(),
    ensures
        flagged(keys, Seq::new(keys.len(), |i: int| i == cursor)) == seq![keys[cursor]],
    decreases keys.len(),
{
    let marks = Seq::new(keys.len(), |i: int| i == cursor);
    if cursor == keys.len() - 1 {
        assert(marks.drop_last() =~= Seq::new((keys.len() - 1) as nat, |i: int| false));
        lemma_none_checked_selects_none(keys.drop_last());
        assert(flagged(keys, marks) =~= seq![keys[cursor]]);
    } else {
        law_one_checked_selects_one(keys.drop_last(), cursor);
        assert(marks.drop_last() =~= Seq::new((keys.len() - 1) as nat, |i: int| i == cursor));
        assert(flagged(keys, marks) =~= seq![keys[cursor]]);
    }
}

proof fn lemma_none_checked_selects_none(keys: Seq<Seq<char>>)
    ensures
        flagged(keys, Seq::new(keys.len(), |i: int| false)) == Seq::<Seq<char>>::empty(),
    decreases keys.len(),
{
    if keys.len() > 0 {
        lemma_none_checked_selects_none(keys.drop_last());
        assert(Seq::new(keys.len(), |i: int| false).drop_last() =~= Seq::new((keys.len() - 1) as nat, |i: int| false));
    }
}

/// A script rewritten for bun runs no pnpm, pnpx or npx command any more:
/// its text holds none of "pnpm ", "pnpx " and "npx ".
pub proof fn law_bunified_script_keeps_no_node_runner(s: Seq<char>)
    ensures
        !occurs_in(bunify(s), "pnpm "@),
        !occurs_in(bunify(s), "pnpx "@),
        !occurs_in(bunify(s), "npx "@),
{
    reveal_strlit("pnpm ");
    reveal_strlit("pnpx ");
    reveal_strlit("npx ");
    reveal_strlit("bun ");
    reveal_strlit("bunx ");
    let pnpm = "pnpm "@;
    let pnpx = "pnpx "@;
    let npx = "npx "@;
    let bun = "bun "@;
    let bunx = "bunx "@;
    lemma_no_runner_starts_in(bun, pnpm);
    lemma_no_runner_starts_in(bunx, pnpm);
    lemma_no_runner_starts_in(bunx, pnpx);
    lemma_no_runner_starts_in(bunx, npx);
    let s1 = crate::text::replace_spec(s, pnpm, bun);
    let s2 = crate::text::replace_spec(s1, pnpx, bunx);
    lemma_replace_leaves_no(s, pnpm, bun, pnpm);
    lemma_replace_leaves_no(s1, pnpx, bunx, pnpm);
    lemma_replace_leaves_no(s1, pnpx, bunx, pnpx);
    lemma_replace_leaves_no(s2, npx, bunx, pnpm);
    lemma_replace_leaves_no(s2, npx, bunx, pnpx);
    lemma_replace_leaves_no(s2, npx, bunx, npx);
}

/// "bun " and "bunx " start with a letter that no runner name holds after its
/// first, and no runner name can be read from inside them.
proof fn lemma_no_runner_starts_in(rep: Seq<char>, q: Seq<char>)
    requires
        rep =~= seq!['b', 'u', 'n', ' '] || rep =~= seq!['b', 'u', 'n', 'x', ' '],
        q =~= seq!['p', 'n', 'p', 'm', ' '] || q =~= seq!['p', 'n', 'p', 'x', ' '] || q
            =~= seq!['n', 'p', 'x', ' '],
    ensures
        starts_nowhere_in(rep, q),
        first_not_inside(rep, q),
{
    assert forall|t: int| 0 <= t < rep.len() implies #[trigger] mismatch_from(rep, q, t) by {
        if q[0] == 'n' && rep[t] == 'n' {
            assert(rep[t + 1] != q[1]);
        } else {
            assert(rep[t + 0] != q[0]);
        }
    }
}

/// The option keys of category `c` in the manifest, in key order.
pub open spec fn manifest_keys(m: WeaveManifest, c: Seq<char>) -> Seq<Seq<char>> {
    m.spec_category(c).unwrap().pairs().map_values(|p: (Seq<char>, ManifestEntry)| p.0)
}

/// `v` may stand as the record of category `c`: options of the manifest's
/// category, at least one where a pick is needed, exactly one in a
/// single-select category.
pub open spec fn recorded_ok(m: WeaveManifest, c: Seq<char>, v: Seq<Seq<char>>) -> bool {
    &&& forall|k: Seq<char>| #[trigger] v.contains(k) ==> manifest_keys(m, c).contains(k)
    &&& needs_pick(c) ==> v.len() > 0
    &&& spec_selection_mode(c) == SelectionMode::Single ==> v.len() == 1
}

/// `a` is the state of the wizard `App::new` returns for manifest `m`.
pub open spec fn started(m: WeaveManifest, a: App) -> bool {
    &&& a.ready()
    &&& a.screen == AppScreen::Welcome
    &&& a.selections.selections@ == Map::<Seq<char>, Vec<String>>::empty()
    &&& views(a.categories@) == nonempty_categories(m, spec_category_order())
    &&& a.list_states@.len() == a.categories@.len()
    &&& forall|i: int| 0 <= i < a.categories@.len() ==> fresh_list_of(m, #[trigger] a.categories@[i]@, a.list_states@[i])
}

/// `apps` and `outcomes` are a run of the wizard on `keys`: each state is
/// ready for the next key, and `handle_key` took it to the next state with
/// that outcome.
pub open spec fn wizard_run(apps: Seq<App>, keys: Seq<WizardKey>, outcomes: Seq<WizardOutcome>) -> bool {
    &&& apps.len() == keys.len() + 1
    &&& outcomes.len() == keys.len()
    &&& forall|i: int| 0 <= i < keys.len() ==> (#[trigger] apps[i]).ready() && key_handled(apps[i], apps[i + 1], keys[i], outcomes[i])
}

/// What holds of every state of a run from `App::new(m, ..)`: the shown
/// categories and their option keys are the manifest's, each recorded
/// category holds an admissible record, and every category before the screen
/// shown (all of them, on the summary) has been recorded.
pub open spec fn run_state(m: WeaveManifest, a: App) -> bool {
    let sel = a.selections.selections@;
    &&& views(a.categories@) == nonempty_categories(m, spec_category_order())
    &&& a.list_states@.len() == a.categories@.len()
    &&& forall|j: int|
        0 <= j < a.categories@.len() ==> views((#[trigger] a.list_states@[j]).keys@) == manifest_keys(m, a.categories@[j]@)
            && a.list_states@[j].mode == spec_selection_mode(a.categories@[j]@)
    &&& forall|c: Seq<char>| #[trigger] sel.contains_key(c) ==> recorded_ok(m, c, views(sel[c]@))
    &&& forall|j: int|
        0 <= j < a.categories@.len() && (a.screen is Summary || (a.screen matches AppScreen::Selection(i) && j < i))
            ==> sel.contains_key(#[trigger] a.categories@[j]@)
}

/// A run of the wizard from `App::new(m, ..)` that ends in confirmation has
/// recorded every shown category, each with options of the manifest: at least
/// one where a pick is needed (backends, database, cloud, and the
/// single-select categories), exactly one in a single-select category such as
/// platforms.
pub proof fn law_confirmed_run_records_every_category(
    m: WeaveManifest,
    apps: Seq<App>,
    keys: Seq<WizardKey>,
    outcomes: Seq<WizardOutcome>,
)
    requires
        started(m, apps[0]),
        wizard_run(apps, keys, outcomes),
        keys.len() > 0,
        outcomes.last() == WizardOutcome::Confirm,
    ensures
        views(apps.last().categories@) == nonempty_categories(m, spec_category_order()),
        forall|j: int|
            0 <= j < apps.last().categories@.len() ==> apps.last().selections.selections@.contains_key(
                #[trigger] apps.last().categories@[j]@,
            ) && recorded_ok(
                m,
                apps.last().categories@[j]@,
                views(apps.last().selections.selections@[apps.last().categories@[j]@]@),
            ),
{
    let n = keys.len() - 1;
    assert(run_state(m, apps[0])) by {
        assert forall|j: int| 0 <= j < apps[0].categories@.len() implies views((#[trigger] apps[0].list_states@[j]).keys@)
            == manifest_keys(m, apps[0].categories@[j]@) && apps[0].list_states@[j].mode == spec_selection_mode(
            apps[0].categories@[j]@,
        ) by {
            assert(fresh_list_of(m, apps[0].categories@[j]@, apps[0].list_states@[j]));
        }
    }
    lemma_run_prefix(m, apps, keys, outcomes, n);
    assert(apps[n].ready() && key_handled(apps[n], apps[n + 1], keys[n], outcomes[n]));
    assert(apps[n].screen is Summary);
    assert(apps.last() == apps[n + 1]);
}

/// Every state up to `k` of a run from `App::new(m, ..)` meets `run_state`.
proof fn lemma_run_prefix(m: WeaveManifest, apps: Seq<App>, keys: Seq<WizardKey>, outcomes: Seq<WizardOutcome>, k: int)
    requires
        run_state(m, apps[0]),
        wizard_run(apps, keys, outcomes),
        0 <= k <= keys.len(),
    ensures
        run_state(m, apps[k]),
    decreases k,
{
    if k > 0 {
        lemma_run_prefix(m, apps, keys, outcomes, k - 1);
        assert(apps[k - 1].ready() && key_handled(apps[k - 1], apps[k], keys[k - 1], outcomes[k - 1]));
        lemma_step_keeps_run_state(m, apps[k - 1], apps[k], keys[k - 1], outcomes[k - 1]);
    }
}

/// The elements that flags pick are elements of the sequence.
proof fn lemma_flagged_within(ps: Seq<Seq<char>>, fs: Seq<bool>, k: Seq<char>)
    requires
        flagged(ps, fs).contains(k),
    ensures
        ps.contains(k),
    decreases ps.len(),
{
    if ps.len() > 0 && fs.len() > 0 {
        let prev = flagged(ps.drop_last(), fs.drop_last());
        if prev.contains(k) {
            lemma_flagged_within(ps.drop_last(), fs.drop_last(), k);
            let i = choose|i: int| 0 <= i < ps.drop_last().len() && ps.drop_last()[i] == k;
            assert(ps[i] == k);
        } else {
            let i = choose|i: int| 0 <= i < flagged(ps, fs).len() && flagged(ps, fs)[i] == k;
            assert(flagged(ps, fs)[i] == ps.last());
            assert(ps[ps.len() - 1] == k);
        }
    }
}

/// One key press keeps `run_state`.
proof fn lemma_step_keeps_run_state(m: WeaveManifest, a: App, b: App, key: WizardKey, r: WizardOutcome)
    requires
        run_state(m, a),
        a.ready(),
        key_handled(a, b, key, r),
    ensures
        run_state(m, b),
{
    let sa = a.selections.selections@;
    let sb = b.selections.selections@;
    assert forall|j: int| 0 <= j < b.categories@.len() implies views((#[trigger] b.list_states@[j]).keys@)
        == manifest_keys(m, b.categories@[j]@) && b.list_states@[j].mode == spec_selection_mode(b.categories@[j]@) by {
        assert(views(a.list_states@[j].keys@) == manifest_keys(m, a.categories@[j]@));
    }
    if let AppScreen::Selection(i) = a.screen {
        let st = a.list_states@[i as int];
        let c = a.categories@[i as int]@;
        if key is Enter && enter_accepted(c, st) {
            let v = views(sb[c]@);
            assert(views(st.keys@) == manifest_keys(m, c));
            assert forall|k: Seq<char>| #[trigger] v.contains(k) implies manifest_keys(m, c).contains(k) by {
                lemma_flagged_within(views(st.keys@), enter_marks(c, st), k);
            }
            if spec_selection_mode(c) == SelectionMode::Single {
                law_wizard_categories_have_entries(m, spec_category_order());
                assert(views(a.categories@)[i as int] == c);
                assert(has_entries(m, c));
                assert(st.keys@.len() > 0);
                let marks = Seq::new(views(st.keys@).len(), |l: int| l == st.cursor);
                assert(enter_marks(c, st) =~= marks);
                law_one_checked_selects_one(views(st.keys@), st.cursor as int);
            }
            assert(recorded_ok(m, c, v));
            assert forall|d: Seq<char>| #[trigger] sb.contains_key(d) implies recorded_ok(m, d, views(sb[d]@)) by {
                if d != c {
                    assert(sa.contains_key(d));
                }
            }
            assert forall|j: int|
                0 <= j < b.categories@.len() && (b.screen is Summary || (b.screen matches AppScreen::Selection(
                    i2,
                ) && j < i2)) implies sb.contains_key(#[trigger] b.categories@[j]@) by {
                if j < i {
                    assert(sa.contains_key(a.categories@[j]@));
                }
            }
        }
    }
}

/// A service's volume entry "name:rest" refers to the named volume `name`,
/// the text before its first ':' (a mode suffix such as ":ro" after the
/// container path changes nothing), unless `name` is a host path starting
/// with '.' or '/'; an entry without ':' names itself.
pub proof fn law_volume_entry_names_its_prefix(n: Seq<char>, rest: Seq<char>)
    requires
        !n.contains(':'),
    ensures
        (n.len() == 0 || (n[0] != '.' && n[0] != '/')) ==> volume_name(n + seq![':'] + rest) == Some(n),
        (n.len() > 0 && (n[0] == '.' || n[0] == '/')) ==> volume_name(n + seq![':'] + rest) is None,
        (n.len() == 0 || (n[0] != '.' && n[0] != '/')) ==> volume_name(n) == Some(n),
{
    lemma_first_index_or_len(n, ':');
    if first_index_or_len(n, ':') < n.len() {
        assert(n.contains(n[first_index_or_len(n, ':')]));
    }
    assert(n.take(n.len() as int) =~= n);
    let e = n + seq![':'] + rest;
    lemma_first_index_or_len(e, ':');
    let p = first_index_or_len(e, ':');
    assert(e[n.len() as int] == ':');
    if p > n.len() {
        assert(e[n.len() as int] != ':');
    }
    if p < n.len() {
        assert(e[p] == n[p]);
        assert(n.contains(e[p]));
    }
    assert(p == n.len());
    assert(e.take(p) =~= n);
}

/// In compose document `doc`, service `service` has the volume entry string
/// `entry` at position `i` of its "volumes" list, and the top-level volumes
/// table defines `n`.
pub open spec fn service_uses_volume(doc: JsonValue, service: Seq<char>, i: int, entry: Seq<char>, n: Seq<char>) -> bool {
    &&& doc matches JsonValue::Object(om)
    &&& field(om@, "services"@) matches Some(JsonValue::Object(os))
    &&& os@.contains_key(service)
    &&& os@[service] matches JsonValue::Object(sm)
    &&& field(sm@, "volumes"@) matches Some(JsonValue::Array(items))
    &&& 0 <= i < items@.len()
    &&& items@[i] matches JsonValue::Str(x)
    &&& x@ == entry
    &&& field(om@, "volumes"@) matches Some(JsonValue::Object(ov))
    &&& ov@.contains_key(n)
}

/// Compose document `doc` has a top-level volumes table that defines `n`.
pub open spec fn has_volume(doc: JsonValue, n: Seq<char>) -> bool {
    &&& doc matches JsonValue::Object(nm)
    &&& field(nm@, "volumes"@) matches Some(JsonValue::Object(nv))
    &&& nv@.contains_key(n)
}

/// Filtering docker-compose keeps every top-level volume that a kept service
/// names in a "name:path[:mode]" entry.
pub proof fn law_filter_keeps_volumes_of_kept_services(
    old: JsonValue,
    selected: Set<Seq<char>>,
    new: JsonValue,
    service: Seq<char>,
    i: int,
    n: Seq<char>,
    rest: Seq<char>,
)
    requires
        compose_filtered(old, selected, new),
        selected.contains(service),
        !n.contains(':'),
        n.len() == 0 || (n[0] != '.' && n[0] != '/'),
        service_uses_volume(old, service, i, n + seq![':'] + rest, n),
    ensures
        has_volume(new, n),
{
    law_volume_entry_names_its_prefix(n, rest);
    let om = old->Object_0;
    let os = field(om@, "services"@).unwrap()->Object_0;
    let nm = new->Object_0;
    let ns = field(nm@, "services"@).unwrap()->Object_0;
    let items = field(os@[service]->Object_0@, "volumes"@).unwrap()->Array_0;
    assert(ns@ == os@.restrict(selected));
    assert(ns@.contains_key(service));
    assert(names_volume(items@[i], n));
    assert(service_volumes(ns@[service]).contains(n));
    assert(used_volume_names(ns@).contains(n));
}

/// Every category of the wizard order that has options is shown by the
/// wizard: `App::new` gives it a screen.
pub proof fn law_every_category_with_options_is_shown(m: WeaveManifest, a: App, c: Seq<char>)
    requires
        started(m, a),
        spec_category_order().contains(c),
        has_entries(m, c),
    ensures
        views(a.categories@).contains(c),
{
    lemma_nonempty_keeps(m, spec_category_order(), c);
}

/// A category of `cs` with options is among the nonempty categories of `cs`.
proof fn lemma_nonempty_keeps(m: WeaveManifest, cs: Seq<Seq<char>>, c: Seq<char>)
    requires
        cs.contains(c),
        has_entries(m, c),
    ensures
        nonempty_categories(m, cs).contains(c),
    decreases cs.len(),
{
    let r = nonempty_categories(m, cs);
    if cs.last() == c {
        assert(r[r.len() - 1] == c);
    } else {
        let k = choose|k: int| 0 <= k < cs.len() && cs[k] == c;
        assert(k < cs.len() - 1);
        assert(cs.drop_last()[k] == c);
        lemma_nonempty_keeps(m, cs.drop_last(), c);
        let prev = nonempty_categories(m, cs.drop_last());
        let l = choose|l: int| 0 <= l < prev.len() && prev[l] == c;
        assert(r[l] == c);
    }
}

/// Selecting one option `k` of a category brings exactly what that option of
/// the manifest's category of the same name lists (keep paths, environment
/// variables, dependencies or Docker services, whichever `f` reads).
pub proof fn law_selected_option_brings_its_lists(
    m: WeaveManifest,
    v: Vec<String>,
    k: Seq<char>,
    f: spec_fn(ManifestEntry) -> Seq<Seq<char>>,
)
    requires
        views(v@) == seq![k],
    ensures
        m.platforms@.contains_key(k) ==> m.gather(seq![("platforms"@, v)], f) == f(m.platforms@[k]),
        m.backends@.contains_key(k) ==> m.gather(seq![("backends"@, v)], f) == f(m.backends@[k]),
        m.auth@.contains_key(k) ==> m.gather(seq![("auth"@, v)], f) == f(m.auth@[k]),
        m.database@.contains_key(k) ==> m.gather(seq![("database"@, v)], f) == f(m.database@[k]),
        m.cloud@.contains_key(k) ==> m.gather(seq![("cloud"@, v)], f) == f(m.cloud@[k]),
        m.microservices@.contains_key(k) ==> m.gather(seq![("microservices"@, v)], f) == f(m.microservices@[k]),
        m.infrastructure@.contains_key(k) ==> m.gather(seq![("infrastructure"@, v)], f) == f(
            m.infrastructure@[k],
        ),
        m.extras@.contains_key(k) ==> m.gather(seq![("extras"@, v)], f) == f(m.extras@[k]),
{
    reveal_strlit("platforms");
    reveal_strlit("backends");
    reveal_strlit("auth");
    reveal_strlit("database");
    reveal_strlit("cloud");
    reveal_strlit("microservices");
    reveal_strlit("infrastructure");
    reveal_strlit("extras");
    lemma_single_category(m, "platforms"@, v, k, f);
    lemma_single_category(m, "backends"@, v, k, f);
    lemma_single_category(m, "auth"@, v, k, f);
    lemma_single_category(m, "database"@, v, k, f);
    lemma_single_category(m, "cloud"@, v, k, f);
    lemma_single_category(m, "microservices"@, v, k, f);
    lemma_single_category(m, "infrastructure"@, v, k, f);
    lemma_single_category(m, "extras"@, v, k, f);
    assert("backends"@[0] != "platforms"@[0]);
    assert("database"@[0] != "backends"@[0]);
    assert("cloud"@[0] != "platforms"@[0]);
    assert("microservices"@[0] != "platforms"@[0]);
    assert("infrastructure"@[0] != "microservices"@[0]);
    assert("extras"@[0] != "platforms"@[0]);
}

/// A selection of the one key `k` in category `c` gathers `f` of the entry
/// of `k` in the map of `c`.
proof fn lemma_single_category(
    m: WeaveManifest,
    c: Seq<char>,
    v: Vec<String>,
    k: Seq<char>,
    f: spec_fn(ManifestEntry) -> Seq<Seq<char>>,
)
    requires
        views(v@) == seq![k],
    ensures
        m.spec_category(c) matches Some(cm) ==> (cm@.contains_key(k) ==> m.gather(seq![(c, v)], f) == f(cm@[k])),
{
    let sel = seq![(c, v)];
    assert(sel.drop_last() =~= Seq::<(Seq<char>, Vec<String>)>::empty());
    if let Some(cm) = m.spec_category(c) {
        let ks = views(v@);
        assert(ks.drop_last() =~= Seq::<Seq<char>>::empty());
        assert(ks.last() == k);
        if cm@.contains_key(k) {
            assert(crate::manifest::gather_keys(cm@, ks.drop_last(), f) == Seq::<Seq<char>>::empty());
            assert(crate::manifest::gather_keys(cm@, ks, f) =~= f(cm@[k]));
            assert(m.gather(sel.drop_last(), f) == Seq::<Seq<char>>::empty());
            assert(sel.last() == (c, v));
            assert(m.gather(sel, f) =~= f(cm@[k]));
        }
    }
}

/// In a multi-select list, 'a' checks every option when some option is
/// unchecked, and clears every option when all are checked.
pub proof fn law_select_all_in_multi_select(a: App, b: App, i: usize, r: WizardOutcome)
    requires
        a.ready(),
        a.screen == AppScreen::Selection(i),
        a.list_states@[i as int].mode == SelectionMode::Multi,
        key_handled(a, b, WizardKey::Char('a'), r),
    ensures
        b.list_states@[i as int].checked@.len() == a.list_states@[i as int].checked@.len(),
        (exists|j: int| 0 <= j < a.list_states@[i as int].checked@.len() && !a.list_states@[i as int].checked@[j])
            ==> forall|j: int| 0 <= j < b.list_states@[i as int].checked@.len() ==> b.list_states@[i as int].checked@[j],
        (forall|j: int| 0 <= j < a.list_states@[i as int].checked@.len() ==> a.list_states@[i as int].checked@[j])
            ==> forall|j: int| 0 <= j < b.list_states@[i as int].checked@.len() ==> !b.list_states@[i as int].checked@[j],
        b.selections == a.selections,
        b.screen == a.screen,
{
}

/// Enter on the microservices, infrastructure or extras screen is always
/// accepted, with or without checked options: the checked options (possibly
/// none) are recorded for the category, and the wizard moves on.
pub proof fn law_optional_multi_select_accepts_enter(a: App, b: App, i: usize, r: WizardOutcome)
    requires
        a.ready(),
        a.screen == AppScreen::Selection(i),
        a.categories@[i as int]@ == "microservices"@ || a.categories@[i as int]@ == "infrastructure"@
            || a.categories@[i as int]@ == "extras"@,
        key_handled(a, b, WizardKey::Enter, r),
    ensures
        ({
            let c = a.categories@[i as int]@;
            let st = a.list_states@[i as int];
            &&& r == WizardOutcome::Continue
            &&& b.selections.selections@.contains_key(c)
            &&& views(b.selections.selections@[c]@) == flagged(views(st.keys@), st.checked@)
            &&& b.screen == if i + 1 < a.categories@.len() {
                AppScreen::Selection((i + 1) as usize)
            } else {
                AppScreen::Summary
            }
        }),
{
    reveal_strlit("platforms");
    reveal_strlit("backends");
    reveal_strlit("auth");
    reveal_strlit("database");
    reveal_strlit("cloud");
    reveal_strlit("microservices");
    reveal_strlit("infrastructure");
    reveal_strlit("extras");
    let c = a.categories@[i as int]@;
    assert(c.len() == 13 || c.len() == 14 || c.len() == 6);
    assert(c != "platforms"@ && c != "auth"@ && c != "backends"@ && c != "database"@ && c != "cloud"@);
    assert(!needs_pick(c));
    assert(enter_accepted(c, a.list_states@[i as int]));
}

} // verus!
