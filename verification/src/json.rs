//! A model of JSON documents (and of YAML documents read as JSON): the
//! configuration files that scaffolding rewrites are edited in this form.

use vstd::prelude::*;
use crate::strmap::StrMap;
use crate::text::{text_eq, views};

verus! {

/// A JSON value. Numbers are kept in their textual form, since they are only
/// carried through; objects map each key to one value.
pub enum JsonValue {
    Null,
    Bool(bool),
    Number(String),
    Str(String),
    Array(Vec<JsonValue>),
    Object(StrMap<JsonValue>),
}

/// `v` is a string whose characters are `s`.
pub open spec fn str_is(v: JsonValue, s: Seq<char>) -> bool {
    v matches JsonValue::Str(x) && x@ == s
}

/// `v` is an array of strings whose characters are, in order, those of `ss`.
pub open spec fn str_array_is(v: JsonValue, ss: Seq<Seq<char>>) -> bool {
    &&& v matches JsonValue::Array(a)
    &&& a@.len() == ss.len()
    &&& forall|i: int| 0 <= i < ss.len() ==> str_is(#[trigger] a@[i], ss[i])
}

/// The value of key `k` in the object map `m`, if present.
pub open spec fn field(m: Map<Seq<char>, JsonValue>, k: Seq<char>) -> Option<JsonValue> {
    if m.contains_key(k) {
        Some(m[k])
    } else {
        None
    }
}

/// An array of JSON strings with the given contents.
pub fn string_array(items: &Vec<String>) -> (r: JsonValue)
    ensures
        str_array_is(r, views(items@)),
{
    let mut a: Vec<JsonValue> = Vec::new();
    let n = items.len();
    let mut i: usize = 0;
    while i < n
        invariant
            n == items@.len(),
            i <= n,
            a@.len() == i,
            forall|j: int| 0 <= j < i ==> str_is(#[trigger] a@[j], items@[j]@),
        decreases n - i,
    {
        a.push(JsonValue::Str(items[i].clone()));
        i += 1;
    }
    JsonValue::Array(a)
}

/// A JSON document as a parser hands it out or a printer takes it: objects
/// as their key-value pairs, in order.
pub enum JsonTree {
    Null,
    Bool(bool),
    Number(String),
    Str(String),
    Array(Vec<JsonTree>),
    Object(Vec<(String, JsonTree)>),
}

/// The key of pair `i` of `ps` occurs in no later pair.
pub open spec fn last_of_key(ps: Seq<(String, JsonTree)>, i: int) -> bool {
    forall|j: int| i < j < ps.len() ==> (#[trigger] ps[j]).0@ != ps[i].0@
}

/// The keys of the pairs `ps`.
pub open spec fn pair_keys(ps: Seq<(String, JsonTree)>) -> Seq<Seq<char>> {
    ps.map_values(|p: (String, JsonTree)| p.0@)
}

/// `v` is the value that tree `t` stands for: the same node for node, where
/// an object maps each key of its pairs to the value of the last pair with
/// that key.
pub open spec fn tree_models(t: JsonTree, v: JsonValue) -> bool
    decreases t,
{
    match t {
        JsonTree::Null => v is Null,
        JsonTree::Bool(b) => v == JsonValue::Bool(b),
        JsonTree::Number(n) => v matches JsonValue::Number(m) && m@ == n@,
        JsonTree::Str(x) => v matches JsonValue::Str(y) && y@ == x@,
        JsonTree::Array(a) => v matches JsonValue::Array(b) && b@.len() == a@.len() && forall|i: int|
            0 <= i < a@.len() ==> tree_models(#[trigger] a@[i], b@[i]),
        JsonTree::Object(ps) => v matches JsonValue::Object(m) && m@.dom() == pair_keys(ps@).to_set()
            && forall|i: int|
            0 <= i < ps@.len() && last_of_key(ps@, i) ==> tree_models(#[trigger] ps@[i].1, m@[ps@[i].0@]),
    }
}

/// The value that tree `t` stands for; a later pair of an object replaces an
/// earlier one with the same key.
pub fn json_of_tree(t: &JsonTree) -> (v: JsonValue)
    ensures
        tree_models(*t, v),
    decreases t,
{
    match t {
        JsonTree::Null => JsonValue::Null,
        JsonTree::Bool(b) => JsonValue::Bool(*b),
        JsonTree::Number(n) => JsonValue::Number(n.clone()),
        JsonTree::Str(x) => JsonValue::Str(x.clone()),
        JsonTree::Array(a) => {
            let mut out: Vec<JsonValue> = Vec::new();
            let n = a.len();
            let mut i: usize = 0;
            while i < n
                invariant
                    n == a@.len(),
                    i <= n,
                    *t == JsonTree::Array(*a),
                    out@.len() == i,
                    forall|j: int| 0 <= j < i ==> tree_models(#[trigger] a@[j], out@[j]),
                decreases n - i,
            {
                proof {
                    assert((*t)->Array_0 == *a);
                    assert(decreases_to!(*t => (*t)->Array_0));
                    assert(decreases_to!(*a => a@));
                    assert(decreases_to!(a@ => a@[i as int]));
                }
                let x = json_of_tree(&a[i]);
                out.push(x);
                i += 1;
            }
            JsonValue::Array(out)
        },
        JsonTree::Object(ps) => {
            let mut m: StrMap<JsonValue> = StrMap::new();
            let n = ps.len();
            let mut i: usize = 0;
            while i < n
                invariant
                    n == ps@.len(),
                    i <= n,
                    *t == JsonTree::Object(*ps),
                    m@.dom() == pair_keys(ps@.take(i as int)).to_set(),
                    forall|j: int|
                        0 <= j < i && last_of_key(ps@.take(i as int), j) ==> tree_models(
                            #[trigger] ps@[j].1,
                            m@[ps@[j].0@],
                        ),
                decreases n - i,
            {
                proof {
                    assert((*t)->Object_0 == *ps);
                    assert(decreases_to!(*t => (*t)->Object_0));
                    assert(decreases_to!(*ps => ps@));
                    assert(decreases_to!(ps@ => ps@[i as int]));
                    assert(decreases_to!(ps@[i as int] => ps@[i as int].1));
                }
                let x = json_of_tree(&ps[i].1);
                let ghost old_m = m@;
                let ghost pre = ps@.take(i as int);
                let ghost post = ps@.take(i + 1);
                m.insert(ps[i].0.clone(), x);
                assert(post =~= pre.push(ps@[i as int]));
                assert(pair_keys(post) =~= pair_keys(pre).push(ps@[i as int].0@));
                let ghost key = ps@[i as int].0@;
                assert forall|k: Seq<char>| m@.dom().contains(k) <==> #[trigger] pair_keys(post).to_set().contains(k) by {
                    if k == key {
                        assert(pair_keys(post)[i as int] == k);
                    } else if pair_keys(pre).contains(k) {
                        let l = choose|l: int| 0 <= l < pair_keys(pre).len() && pair_keys(pre)[l] == k;
                        assert(pair_keys(post)[l] == k);
                    } else if pair_keys(post).contains(k) {
                        let l = choose|l: int| 0 <= l < pair_keys(post).len() && pair_keys(post)[l] == k;
                        assert(l < i);
                        assert(pair_keys(pre)[l] == k);
                    }
                }
                assert(m@.dom() =~= pair_keys(post).to_set());
                assert forall|j: int|
                    0 <= j < i + 1 && last_of_key(post, j) implies tree_models(
                        #[trigger] ps@[j].1,
                        m@[ps@[j].0@],
                    ) by {
                    if j < i {
                        assert(post[i as int] == ps@[i as int]);
                        assert(ps@[j].0@ != ps@[i as int].0@);
                        assert forall|l: int| j < l < pre.len() implies (#[trigger] pre[l]).0@ != pre[j].0@ by {
                            assert(post[l] == pre[l]);
                        }
                    }
                }
                i += 1;
            }
            assert(ps@.take(n as int) =~= ps@);
            JsonValue::Object(m)
        },
    }
}

/// A JSON value as serde_json holds it.
#[verifier::external_type_specification]
#[verifier::external_body]
pub struct ExSerdeJsonValue(serde_json::Value);

/// The characters of an optional text.
pub open spec fn opt_text(t: Option<String>) -> Option<Seq<char>> {
    match t {
        Some(x) => Some(x@),
        None => None,
    }
}

/// The document that `serde_json::from_str` reads from `text`, as a tree;
/// `None` where it reports an error.
pub uninterp spec fn spec_parse_json(text: Seq<char>) -> Option<JsonTree>;

/// The text that `serde_json::to_string_pretty` writes for `value`; `None`
/// where a number of `value` is no JSON number.
pub uninterp spec fn spec_json_pretty(value: JsonValue) -> Option<Seq<char>>;

/// The document that `serde_yaml::from_str` reads from `text` as a JSON
/// value, as a tree; `None` where it reports an error.
pub uninterp spec fn spec_parse_yaml(text: Seq<char>) -> Option<JsonTree>;

/// The text that `serde_yaml::to_string` writes for `value`; `None` where a
/// number of `value` is no JSON number or the writer reports an error.
pub uninterp spec fn spec_yaml_text(value: JsonValue) -> Option<Seq<char>>;

/// The tree of a value that serde_json or serde_yaml produced, node for
/// node: numbers in the text serde_json prints for them, objects as their
/// pairs in the map's order. It is used only inside the wrappers below, and
/// claims nothing by itself.
#[verifier::external_body]
fn json_from_serde(v: &serde_json::Value) -> JsonTree {
    match v {
        serde_json::Value::Null => JsonTree::Null,
        serde_json::Value::Bool(b) => JsonTree::Bool(*b),
        serde_json::Value::Number(n) => JsonTree::Number(n.to_string()),
        serde_json::Value::String(t) => JsonTree::Str(t.clone()),
        serde_json::Value::Array(a) => JsonTree::Array(a.iter().map(json_from_serde).collect()),
        serde_json::Value::Object(m) => JsonTree::Object(m.iter().map(|(k, x)| (k.clone(), json_from_serde(x))).collect()),
    }
}

/// serde_json's value for a model value, node for node; `None` where a
/// number's text does not parse as a `serde_json::Number`. It is used only
/// inside the wrappers below, and claims nothing by itself.
#[verifier::external_body]
fn json_to_serde(v: &JsonValue) -> Option<serde_json::Value> {
    Some(match v {
        JsonValue::Null => serde_json::Value::Null,
        JsonValue::Bool(b) => serde_json::Value::Bool(*b),
        JsonValue::Number(n) => serde_json::Value::Number(n.parse().ok()?),
        JsonValue::Str(t) => serde_json::Value::String(t.clone()),
        JsonValue::Array(a) => serde_json::Value::Array(a.iter().map(json_to_serde).collect::<Option<_>>()?),
        JsonValue::Object(m) => {
            let mut r = serde_json::Map::new();
            for i in 0..m.len() {
                r.insert(m.key_at(i).clone(), json_to_serde(m.value_at(i))?);
            }
            serde_json::Value::Object(r)
        },
    })
}

/// Calls `serde_json::from_str` for a `serde_json::Value` and converts the
/// result. Claimed: the outcome is `spec_parse_json` of the text (serde_json
/// reads a text the same way every time; an error gives `None`).
#[verifier::external_body]
pub(crate) fn parse_json(text: &str) -> (r: Option<JsonTree>)
    ensures
        r == spec_parse_json(text@),
{
    match serde_json::from_str::<serde_json::Value>(text) {
        Ok(v) => Some(json_from_serde(&v)),
        Err(_) => None,
    }
}

/// Calls `serde_json::to_string_pretty` on the converted value (numbers
/// converted with `Number::from_str`, whose error gives `None`). Claimed: the
/// outcome is `spec_json_pretty` of the value.
#[verifier::external_body]
pub(crate) fn json_pretty(value: &JsonValue) -> (r: Option<String>)
    ensures
        opt_text(r) == spec_json_pretty(*value),
{
    serde_json::to_string_pretty(&json_to_serde(value)?).ok()
}

/// Calls `serde_yaml::from_str` for a `serde_json::Value` and converts the
/// result. Claimed: the outcome is `spec_parse_yaml` of the text (an error
/// gives `None`).
#[verifier::external_body]
pub(crate) fn parse_yaml(text: &str) -> (r: Option<JsonTree>)
    ensures
        r == spec_parse_yaml(text@),
{
    match serde_yaml::from_str::<serde_json::Value>(text) {
        Ok(v) => Some(json_from_serde(&v)),
        Err(_) => None,
    }
}

/// Calls `serde_yaml::to_string` on the converted value (numbers converted
/// with `serde_json::Number::from_str`, whose error gives `None`). Claimed:
/// the outcome is `spec_yaml_text` of the value.
#[verifier::external_body]
pub(crate) fn yaml_text(value: &JsonValue) -> (r: Option<String>)
    ensures
        opt_text(r) == spec_yaml_text(*value),
{
    serde_yaml::to_string(&json_to_serde(value)?).ok()
}

/// Why a package.json cannot be rewritten.
#[derive(Clone, Copy, Debug, PartialEq, Eq, Structural)]
pub enum PackageJsonError {
    /// The text is not JSON.
    Unparsable,
    /// The document is neither an object nor null.
    NotAnObject,
}

/// Reads the text of a package.json: the value of its document when that is
/// an object or null, else the error.
pub fn read_package_json(text: &str) -> (r: Result<JsonValue, PackageJsonError>)
    ensures
        match spec_parse_json(text@) {
            None => r == Err::<JsonValue, PackageJsonError>(PackageJsonError::Unparsable),
            Some(t) => if t is Object || t is Null {
                r matches Ok(v) && tree_models(t, v)
            } else {
                r == Err::<JsonValue, PackageJsonError>(PackageJsonError::NotAnObject)
            },
        },
{
    match parse_json(text) {
        None => Err(PackageJsonError::Unparsable),
        Some(t) => match t {
            JsonTree::Object(_) => Ok(json_of_tree(&t)),
            JsonTree::Null => Ok(json_of_tree(&t)),
            _ => Err(PackageJsonError::NotAnObject),
        },
    }
}

/// The tree of the last pair of `ps` whose key is `key`, if any.
pub open spec fn last_pair_with(ps: Seq<(String, JsonTree)>, key: Seq<char>) -> Option<JsonTree>
    decreases ps.len(),
{
    if ps.len() == 0 {
        None
    } else if ps.last().0@ == key {
        Some(ps.last().1)
    } else {
        last_pair_with(ps.drop_last(), key)
    }
}

/// The string that object `t` holds under `key` (its last pair with that
/// key); `None` when `t` is no object or that value is no string.
pub open spec fn tree_string_field(t: JsonTree, key: Seq<char>) -> Option<Seq<char>> {
    match t {
        JsonTree::Object(ps) => match last_pair_with(ps@, key) {
            Some(JsonTree::Str(x)) => Some(x@),
            _ => None,
        },
        _ => None,
    }
}

/// The string that object `t` holds under `key`.
fn string_field(t: &JsonTree, key: &str) -> (r: Option<String>)
    ensures
        opt_text(r) == tree_string_field(*t, key@),
{
    match t {
        JsonTree::Object(ps) => {
            let n = ps.len();
            let mut i: usize = n;
            assert(ps@.take(n as int) =~= ps@);
            while i > 0
                invariant
                    n == ps@.len(),
                    i <= n,
                    last_pair_with(ps@.take(i as int), key@) == last_pair_with(ps@, key@),
                    *t == JsonTree::Object(*ps),
                decreases i,
            {
                let ghost pre = ps@.take(i as int);
                assert(pre.last() == ps@[i - 1]);
                assert(pre.drop_last() =~= ps@.take(i - 1));
                if text_eq(ps[i - 1].0.as_str(), key) {
                    return match &ps[i - 1].1 {
                        JsonTree::Str(x) => Some(x.clone()),
                        _ => None,
                    };
                }
                i -= 1;
            }
            None
        },
        _ => None,
    }
}

/// What a JSON text holds at a top-level string field: `None` when the text
/// is not JSON, `Some(None)` when the document is no object or has no string
/// under the key.
pub fn json_string_field(body: &str, key: &str) -> (r: Option<Option<String>>)
    ensures
        match spec_parse_json(body@) {
            None => r is None,
            Some(t) => r matches Some(f) && opt_text(f) == tree_string_field(t, key@),
        },
{
    match parse_json(body) {
        None => None,
        Some(t) => Some(string_field(&t, key)),
    }
}

} // verus!
