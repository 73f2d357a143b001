//! Text primitives over character sequences: equality, lexicographic order,
//! search and replacement.

use vstd::prelude::*;
use vstd::string::*;

verus! {

/// Lexicographic "strictly less" on character sequences, comparing code
/// points; this is the order of Rust's `str` (UTF-8 preserves code point order).
pub open spec fn lex_lt(a: Seq<char>, b: Seq<char>) -> bool {
    exists|i: int| #[trigger] lex_witness(a, b, i)
}

/// `i` is the length of the common prefix of `a` and `b`, and at `i` the
/// first sequence is smaller (or has ended while the second has not).
pub open spec fn lex_witness(a: Seq<char>, b: Seq<char>, i: int) -> bool {
    &&& 0 <= i <= a.len()
    &&& i <= b.len()
    &&& forall|j: int| 0 <= j < i ==> a[j] == b[j]
    &&& ((i == a.len() && i < b.len()) || (i < a.len() && i < b.len() && (a[i] as int) < (b[i] as int)))
}

/// Every element of `s` is strictly smaller than every later one.
pub open spec fn strictly_sorted(s: Seq<Seq<char>>) -> bool {
    forall|i: int, j: int| 0 <= i < j < s.len() ==> lex_lt(#[trigger] s[i], #[trigger] s[j])
}

/// The character views of a sequence of strings.
pub open spec fn views(s: Seq<String>) -> Seq<Seq<char>> {
    s.map_values(|x: String| x@)
}

pub proof fn lemma_lex_lt_irreflexive(a: Seq<char>)
    ensures
        !lex_lt(a, a),
{
    if lex_lt(a, a) {
        let i = choose|i: int| lex_witness(a, a, i);
        assert(lex_witness(a, a, i));
    }
}

pub proof fn lemma_lex_lt_asymmetric(a: Seq<char>, b: Seq<char>)
    requires
        lex_lt(a, b),
    ensures
        !lex_lt(b, a),
        a != b,
{
    let i = choose|i: int| lex_witness(a, b, i);
    if lex_lt(b, a) {
        let k = choose|k: int| lex_witness(b, a, k);
        if k < i {
            assert(a[k] == b[k]);
        } else if i < k {
            assert(b[i] == a[i]);
        }
    }
    if a == b {
        lemma_lex_lt_irreflexive(a);
    }
}

pub proof fn lemma_lex_lt_transitive(a: Seq<char>, b: Seq<char>, c: Seq<char>)
    requires
        lex_lt(a, b),
        lex_lt(b, c),
    ensures
        lex_lt(a, c),
{
    let i = choose|i: int| lex_witness(a, b, i);
    let k = choose|k: int| lex_witness(b, c, k);
    let m = if i < k { i } else { k };
    assert forall|j: int| 0 <= j < m implies a[j] == c[j] by {
        assert(a[j] == b[j]);
        assert(b[j] == c[j]);
    }
    assert(lex_witness(a, c, m));
}

/// Of two sequences, one is smaller or they are equal.
pub proof fn lemma_lex_total(a: Seq<char>, b: Seq<char>)
    ensures
        a == b || lex_lt(a, b) || lex_lt(b, a),
    decreases a.len(),
{
    if a.len() == 0 || b.len() == 0 {
        if a.len() == 0 && b.len() > 0 {
            assert(lex_witness(a, b, 0));
        } else if b.len() == 0 && a.len() > 0 {
            assert(lex_witness(b, a, 0));
        } else {
            assert(a =~= b);
        }
    } else if (a[0] as int) < (b[0] as int) {
        assert(lex_witness(a, b, 0));
    } else if (b[0] as int) < (a[0] as int) {
        assert(lex_witness(b, a, 0));
    } else {
        assert(a[0] == b[0]) by {
            assert((a[0] as int) == (b[0] as int));
        }
        let a1 = a.drop_first();
        let b1 = b.drop_first();
        lemma_lex_total(a1, b1);
        assert forall|j: int| 0 < j < a.len() implies a[j] == #[trigger] a1[j - 1] by {}
        assert forall|j: int| 0 < j < b.len() implies b[j] == #[trigger] b1[j - 1] by {}
        if a1 == b1 {
            assert(a.len() == a1.len() + 1 && b.len() == b1.len() + 1);
            assert forall|j: int| 0 <= j < a.len() implies a[j] == b[j] by {
                if j > 0 {
                    assert(a1[j - 1] == b1[j - 1]);
                }
            }
            assert(a =~= b);
        } else if lex_lt(a1, b1) {
            let i = choose|i: int| lex_witness(a1, b1, i);
            assert forall|j: int| 0 <= j < i + 1 implies a[j] == b[j] by {
                if j > 0 {
                    assert(a1[j - 1] == b1[j - 1]);
                }
            }
            assert(lex_witness(a, b, i + 1));
        } else {
            let i = choose|i: int| lex_witness(b1, a1, i);
            assert forall|j: int| 0 <= j < i + 1 implies b[j] == a[j] by {
                if j > 0 {
                    assert(a1[j - 1] == b1[j - 1]);
                }
            }
            assert(lex_witness(b, a, i + 1));
        }
    }
}

/// Which of two sequences comes first.
pub enum Order {
    Less,
    Equal,
    Greater,
}

/// Compares two strings by code point, as Rust's `str` ordering does.
pub fn compare_text(a: &str, b: &str) -> (r: Order)
    ensures
        r is Less <==> lex_lt(a@, b@),
        r is Equal <==> a@ == b@,
        r is Greater <==> lex_lt(b@, a@),
{
    let n = a.unicode_len();
    let m = b.unicode_len();
    let mut i: usize = 0;
    while i < n && i < m
        invariant
            n == a@.len(),
            m == b@.len(),
            i <= n,
            i <= m,
            forall|j: int| 0 <= j < i ==> a@[j] == b@[j],
        decreases n - i,
    {
        let ca = a.get_char(i);
        let cb = b.get_char(i);
        if (ca as u32) < (cb as u32) {
            proof {
                assert(lex_witness(a@, b@, i as int));
                lemma_lex_lt_asymmetric(a@, b@);
            }
            return Order::Less;
        }
        if (cb as u32) < (ca as u32) {
            proof {
                assert(lex_witness(b@, a@, i as int));
                lemma_lex_lt_asymmetric(b@, a@);
            }
            return Order::Greater;
        }
        assert(a@[i as int] == b@[i as int]) by {
            assert((a@[i as int] as u32) == (b@[i as int] as u32));
        }
        i += 1;
    }
    if n < m {
        proof {
            assert(lex_witness(a@, b@, i as int));
            lemma_lex_lt_asymmetric(a@, b@);
        }
        Order::Less
    } else if m < n {
        proof {
            assert(lex_witness(b@, a@, i as int));
            lemma_lex_lt_asymmetric(b@, a@);
        }
        Order::Greater
    } else {
        assert(a@ =~= b@);
        proof {
            lemma_lex_lt_irreflexive(a@);
        }
        Order::Equal
    }
}

/// Whether two strings hold the same characters.
pub fn text_eq(a: &str, b: &str) -> (r: bool)
    ensures
        r == (a@ == b@),
{
    let n = a.unicode_len();
    let m = b.unicode_len();
    if n != m {
        return false;
    }
    let mut i: usize = 0;
    while i < n
        invariant
            n == a@.len(),
            m == b@.len(),
            n == m,
            i <= n,
            forall|j: int| 0 <= j < i ==> a@[j] == b@[j],
        decreases n - i,
    {
        if a.get_char(i) != b.get_char(i) {
            return false;
        }
        i += 1;
    }
    assert(a@ =~= b@);
    true
}

} // verus!

verus! {

/// Appends clones of all strings of `src` to `out`.
pub fn push_all(out: &mut Vec<String>, src: &Vec<String>)
    ensures
        views(final(out)@) == views(old(out)@) + views(src@),
{
    let ghost start = views(out@);
    let n = src.len();
    let mut i: usize = 0;
    while i < n
        invariant
            n == src@.len(),
            i <= n,
            views(out@) == start + views(src@).take(i as int),
        decreases n - i,
    {
        let s = src[i].clone();
        let ghost prev = out@;
        out.push(s);
        assert(views(src@).take(i + 1) =~= views(src@).take(i as int).push(src@[i as int]@));
        assert(views(out@) =~= views(prev).push(s@));
        i += 1;
    }
    assert(views(src@).take(n as int) =~= views(src@));
}

/// The distinct elements of `s` in increasing order (there is exactly one
/// such sequence, see `lemma_sorted_distinct_unique`).
pub open spec fn sorted_distinct(s: Seq<Seq<char>>) -> Seq<Seq<char>> {
    choose|r: Seq<Seq<char>>| strictly_sorted(r) && r.to_set() == s.to_set()
}

/// Two strictly increasing sequences with the same elements are equal.
pub proof fn lemma_sorted_same_set(a: Seq<Seq<char>>, b: Seq<Seq<char>>)
    requires
        strictly_sorted(a),
        strictly_sorted(b),
        a.to_set() == b.to_set(),
    ensures
        a == b,
    decreases a.len(),
{
    if a.len() == 0 {
        if b.len() > 0 {
            assert(b.to_set().contains(b[0]));
        }
        assert(a =~= b);
        return;
    }
    if b.len() == 0 {
        assert(a.to_set().contains(a[0]));
        return;
    }
    assert(a.to_set().contains(a[0]));
    assert(b.to_set().contains(b[0]));
    if a[0] != b[0] {
        let k = choose|k: int| 0 <= k < b.len() && b[k] == a[0];
        let l = choose|l: int| 0 <= l < a.len() && a[l] == b[0];
        assert(k > 0 && l > 0);
        assert(lex_lt(b[0], b[k]));
        assert(lex_lt(a[0], a[l]));
        lemma_lex_lt_asymmetric(a[0], b[0]);
    }
    let a1 = a.drop_first();
    let b1 = b.drop_first();
    assert forall|i: int, j: int| 0 <= i < j < a1.len() implies lex_lt(#[trigger] a1[i], #[trigger] a1[j]) by {
        assert(lex_lt(a[i + 1], a[j + 1]));
    }
    assert forall|i: int, j: int| 0 <= i < j < b1.len() implies lex_lt(#[trigger] b1[i], #[trigger] b1[j]) by {
        assert(lex_lt(b[i + 1], b[j + 1]));
    }
    assert(a1.to_set() =~= b1.to_set()) by {
        assert forall|x: Seq<char>| a1.to_set().contains(x) implies b1.to_set().contains(x) by {
            let i = choose|i: int| 0 <= i < a1.len() && a1[i] == x;
            assert(a.to_set().contains(x)) by {
                assert(a[i + 1] == x);
            }
            let j = choose|j: int| 0 <= j < b.len() && b[j] == x;
            if j == 0 {
                lemma_lex_lt_asymmetric(a[0], a[i + 1]);
            } else {
                assert(b1[j - 1] == x);
            }
        }
        assert forall|x: Seq<char>| b1.to_set().contains(x) implies a1.to_set().contains(x) by {
            let i = choose|i: int| 0 <= i < b1.len() && b1[i] == x;
            assert(b.to_set().contains(x)) by {
                assert(b[i + 1] == x);
            }
            let j = choose|j: int| 0 <= j < a.len() && a[j] == x;
            if j == 0 {
                lemma_lex_lt_asymmetric(b[0], b[i + 1]);
            } else {
                assert(a1[j - 1] == x);
            }
        }
    }
    lemma_sorted_same_set(a1, b1);
    assert(a =~= b) by {
        assert forall|i: int| 0 <= i < a.len() implies a[i] == b[i] by {
            if i > 0 {
                assert(a1[i - 1] == b1[i - 1]);
            }
        }
    }
}

/// A strictly increasing sequence with the elements of `s` is
/// `sorted_distinct(s)`.
pub proof fn lemma_sorted_distinct_unique(r: Seq<Seq<char>>, s: Seq<Seq<char>>)
    requires
        strictly_sorted(r),
        r.to_set() == s.to_set(),
    ensures
        sorted_distinct(s) == r,
{
    let c = sorted_distinct(s);
    assert(strictly_sorted(c) && c.to_set() == s.to_set());
    lemma_sorted_same_set(c, r);
}

/// The distinct strings of `v`, in increasing order.
pub fn sort_dedup(v: &Vec<String>) -> (r: Vec<String>)
    ensures
        views(r@) == sorted_distinct(views(v@)),
        strictly_sorted(views(r@)),
        views(r@).to_set() == views(v@).to_set(),
{
    let mut r: Vec<String> = Vec::new();
    let n = v.len();
    let mut i: usize = 0;
    while i < n
        invariant
            n == v@.len(),
            i <= n,
            strictly_sorted(views(r@)),
            views(r@).to_set() == views(v@).take(i as int).to_set(),
        decreases n - i,
    {
        let x = &v[i];
        let m = r.len();
        let mut pos: usize = 0;
        let mut stop = false;
        let mut found = false;
        while pos < m && !stop
            invariant
                m == r@.len(),
                pos <= m,
                strictly_sorted(views(r@)),
                forall|j: int| 0 <= j < pos ==> lex_lt(#[trigger] views(r@)[j], x@),
                found ==> stop,
                stop ==> pos < m,
                stop && found ==> views(r@)[pos as int] == x@,
                stop && !found ==> lex_lt(x@, views(r@)[pos as int]),
            decreases m - pos + (if stop { 0int } else { 1int }),
        {
            match compare_text(r[pos].as_str(), x.as_str()) {
                Order::Less => {
                    pos += 1;
                },
                Order::Equal => {
                    found = true;
                    stop = true;
                },
                Order::Greater => {
                    stop = true;
                },
            }
        }
        let ghost before = views(r@);
        assert(views(v@).take(i + 1) =~= views(v@).take(i as int).push(x@));
        if !found {
            proof {
                if pos < m {
                    lemma_lex_lt_asymmetric(x@, before[pos as int]);
                }
            }
            r.insert(pos, x.clone());
            assert(views(r@) =~= before.insert(pos as int, x@));
            proof {
                lemma_sorted_insert(before, pos as int, x@);
            }
            assert(views(r@).to_set() =~= before.to_set().insert(x@)) by {
                assert forall|y: Seq<char>| views(r@).contains(y) implies before.to_set().insert(x@).contains(y) by {
                    let k = choose|k: int| 0 <= k < views(r@).len() && views(r@)[k] == y;
                    if k < pos {
                        assert(before[k] == y);
                    } else if k > pos {
                        assert(before[k - 1] == y);
                    }
                }
                assert forall|y: Seq<char>| before.to_set().insert(x@).contains(y) implies views(r@).contains(y) by {
                    if y == x@ {
                        assert(views(r@)[pos as int] == y);
                    } else {
                        let k = choose|k: int| 0 <= k < before.len() && before[k] == y;
                        if k < pos {
                            assert(views(r@)[k] == y);
                        } else {
                            assert(views(r@)[k + 1] == y);
                        }
                    }
                }
            }
        } else {
            assert(before.to_set().insert(x@) =~= before.to_set()) by {
                assert(before.contains(x@)) by {
                    assert(before[pos as int] == x@);
                }
            }
        }
        assert(views(v@).take(i + 1).to_set() =~= views(v@).take(i as int).to_set().insert(x@)) by {
            let t = views(v@).take(i as int);
            assert(views(v@).take(i + 1) == t.push(x@));
            assert forall|y: Seq<char>| t.push(x@).contains(y) implies t.to_set().insert(x@).contains(y) by {
                let k = choose|k: int| 0 <= k < t.push(x@).len() && t.push(x@)[k] == y;
                if k < t.len() {
                    assert(t[k] == y);
                }
            }
            assert forall|y: Seq<char>| t.to_set().insert(x@).contains(y) implies t.push(x@).contains(y) by {
                if y == x@ {
                    assert(t.push(x@)[t.len() as int] == y);
                } else {
                    let k = choose|k: int| 0 <= k < t.len() && t[k] == y;
                    assert(t.push(x@)[k] == y);
                }
            }
        }
        i += 1;
    }
    assert(views(v@).take(n as int) =~= views(v@));
    proof {
        lemma_sorted_distinct_unique(views(r@), views(v@));
    }
    r
}

/// Inserting an element at its place keeps a sequence strictly sorted.
pub proof fn lemma_sorted_insert(s: Seq<Seq<char>>, pos: int, x: Seq<char>)
    requires
        strictly_sorted(s),
        0 <= pos <= s.len(),
        forall|j: int| 0 <= j < pos ==> lex_lt(#[trigger] s[j], x),
        pos < s.len() ==> lex_lt(x, s[pos]),
    ensures
        strictly_sorted(s.insert(pos, x)),
{
    let t = s.insert(pos, x);
    assert forall|i: int, j: int| 0 <= i < j < t.len() implies lex_lt(#[trigger] t[i], #[trigger] t[j]) by {
        if j < pos {
            assert(lex_lt(s[i], s[j]));
        } else if j == pos {
        } else if i == pos {
            if j - 1 > pos {
                assert(lex_lt(s[pos], s[j - 1]));
                lemma_lex_lt_transitive(x, s[pos], s[j - 1]);
            }
        } else if i < pos {
            if j - 1 > pos {
                assert(lex_lt(s[pos], s[j - 1]));
                lemma_lex_lt_transitive(x, s[pos], s[j - 1]);
            }
            lemma_lex_lt_transitive(s[i], x, s[j - 1]);
        } else {
            assert(lex_lt(s[i - 1], s[j - 1]));
        }
    }
}

} // verus!

verus! {

/// The strings of `list` with `sep` between consecutive ones.
pub open spec fn join_spec(list: Seq<Seq<char>>, sep: Seq<char>) -> Seq<char>
    decreases list.len(),
{
    if list.len() == 0 {
        Seq::empty()
    } else if list.len() == 1 {
        list[0]
    } else {
        join_spec(list.drop_last(), sep) + sep + list.last()
    }
}

/// Joins `list` with `sep` between consecutive strings.
pub fn join(list: &Vec<String>, sep: &str) -> (r: String)
    ensures
        r@ == join_spec(views(list@), sep@),
{
    let mut r = String::new();
    let n = list.len();
    let mut i: usize = 0;
    while i < n
        invariant
            n == list@.len(),
            i <= n,
            r@ == join_spec(views(list@).take(i as int), sep@),
        decreases n - i,
    {
        assert(views(list@).take(i + 1).drop_last() =~= views(list@).take(i as int));
        if i != 0 {
            r.append(sep);
        }
        r.append(list[i].as_str());
        proof {
            if i == 0 {
                assert(r@ =~= views(list@).take(1)[0]);
            }
        }
        i += 1;
    }
    assert(views(list@).take(n as int) =~= views(list@));
    r
}

} // verus!

verus! {

/// `s` with every occurrence of `pat` replaced by `rep`, matching from the
/// left without overlap (the behaviour of `str::replace` for a non-empty
/// pattern).
pub open spec fn replace_spec(s: Seq<char>, pat: Seq<char>, rep: Seq<char>) -> Seq<char>
    decreases s.len(),
{
    if pat.len() == 0 || s.len() < pat.len() {
        s
    } else if s.take(pat.len() as int) == pat {
        rep + replace_spec(s.skip(pat.len() as int), pat, rep)
    } else {
        seq![s[0]] + replace_spec(s.skip(1), pat, rep)
    }
}

/// Whether `pat` occurs in `s` at position `i`.
fn matches_at(s: &str, n: usize, i: usize, pat: &str, m: usize) -> (r: bool)
    requires
        n == s@.len(),
        m == pat@.len(),
        i <= n,
    ensures
        r == (i + m <= n && s@.subrange(i as int, i + m) == pat@),
{
    if m > n - i {
        return false;
    }
    let mut j: usize = 0;
    while j < m
        invariant
            n == s@.len(),
            m == pat@.len(),
            i + m <= n,
            j <= m,
            forall|k: int| 0 <= k < j ==> s@[i + k] == pat@[k],
        decreases m - j,
    {
        if s.get_char(i + j) != pat.get_char(j) {
            assert(s@.subrange(i as int, i + m)[j as int] != pat@[j as int]);
            return false;
        }
        j += 1;
    }
    assert(s@.subrange(i as int, i + m) =~= pat@);
    true
}

/// Replaces every occurrence of the non-empty `pat` in `s` by `rep`.
pub fn replace_text(s: &str, pat: &str, rep: &str) -> (r: String)
    requires
        pat@.len() > 0,
    ensures
        r@ == replace_spec(s@, pat@, rep@),
{
    let n = s.unicode_len();
    let m = pat.unicode_len();
    let mut out = String::new();
    let mut i: usize = 0;
    assert(s@.skip(0) =~= s@);
    while i < n
        invariant
            n == s@.len(),
            m == pat@.len(),
            m > 0,
            i <= n,
            out@ + replace_spec(s@.skip(i as int), pat@, rep@) == replace_spec(s@, pat@, rep@),
        decreases n - i,
    {
        let ghost rest = s@.skip(i as int);
        if matches_at(s, n, i, pat, m) {
            assert(rest.take(m as int) =~= s@.subrange(i as int, i + m));
            assert(rest.skip(m as int) =~= s@.skip(i + m));
            out.append(rep);
            assert(out@ + replace_spec(s@.skip(i + m), pat@, rep@) =~= replace_spec(s@, pat@, rep@));
            i += m;
        } else {
            proof {
                if rest.len() >= m {
                    assert(rest.take(m as int) =~= s@.subrange(i as int, i + m));
                }
            }
            let c = s.substring_char(i, i + 1);
            assert(c@ =~= seq![rest[0]]);
            assert(rest.skip(1) =~= s@.skip(i + 1));
            out.append(c);
            assert(out@ + replace_spec(s@.skip(i + 1), pat@, rep@) =~= replace_spec(s@, pat@, rep@));
            i += 1;
        }
    }
    assert(s@.skip(n as int) =~= Seq::<char>::empty());
    assert(out@ =~= replace_spec(s@, pat@, rep@));
    out
}

/// The position of the last `c` in `s`, or -1.
pub open spec fn last_index_of(s: Seq<char>, c: char) -> int
    decreases s.len(),
{
    if s.len() == 0 {
        -1
    } else if s.last() == c {
        s.len() - 1
    } else {
        last_index_of(s.drop_last(), c)
    }
}

/// The position of the first `c` in `s`, or the length of `s`.
pub open spec fn first_index_or_len(s: Seq<char>, c: char) -> int
    decreases s.len(),
{
    if s.len() == 0 {
        0
    } else if s[0] == c {
        0
    } else {
        1 + first_index_or_len(s.drop_first(), c)
    }
}

pub proof fn lemma_last_index_of(s: Seq<char>, c: char)
    ensures
        -1 <= last_index_of(s, c) < s.len(),
        last_index_of(s, c) >= 0 ==> s[last_index_of(s, c)] == c,
        forall|j: int| last_index_of(s, c) < j < s.len() ==> s[j] != c,
    decreases s.len(),
{
    if s.len() > 0 && s.last() != c {
        lemma_last_index_of(s.drop_last(), c);
        assert forall|j: int| last_index_of(s, c) < j < s.len() implies s[j] != c by {
            if j < s.len() - 1 {
                assert(s[j] == s.drop_last()[j]);
            }
        }
    }
}

pub proof fn lemma_first_index_or_len(s: Seq<char>, c: char)
    ensures
        0 <= first_index_or_len(s, c) <= s.len(),
        first_index_or_len(s, c) < s.len() ==> s[first_index_or_len(s, c)] == c,
        forall|j: int| 0 <= j < first_index_or_len(s, c) ==> s[j] != c,
    decreases s.len(),
{
    if s.len() > 0 && s[0] != c {
        lemma_first_index_or_len(s.drop_first(), c);
        assert forall|j: int| 0 <= j < first_index_or_len(s, c) implies s[j] != c by {
            if j > 0 {
                assert(s[j] == s.drop_first()[j - 1]);
            }
        }
    }
}

/// The position of the last `c` in `s`, if any.
pub fn find_last(s: &str, c: char) -> (r: Option<usize>)
    ensures
        match r {
            Some(p) => p as int == last_index_of(s@, c),
            None => last_index_of(s@, c) == -1,
        },
{
    proof {
        lemma_last_index_of(s@, c);
    }
    let n = s.unicode_len();
    let mut i: usize = n;
    while i > 0
        invariant
            n == s@.len(),
            i <= n,
            forall|j: int| i <= j < n ==> s@[j] != c,
            -1 <= last_index_of(s@, c) < n,
            last_index_of(s@, c) >= 0 ==> s@[last_index_of(s@, c)] == c,
            forall|j: int| last_index_of(s@, c) < j < n ==> s@[j] != c,
        decreases i,
    {
        if s.get_char(i - 1) == c {
            return Some(i - 1);
        }
        i -= 1;
    }
    None
}

/// The position of the first `c` in `s`, or the length of `s`.
pub fn find_first_or_len(s: &str, c: char) -> (r: usize)
    ensures
        r as int == first_index_or_len(s@, c),
{
    proof {
        lemma_first_index_or_len(s@, c);
    }
    let n = s.unicode_len();
    let mut i: usize = 0;
    while i < n
        invariant
            n == s@.len(),
            i <= n,
            forall|j: int| 0 <= j < i ==> s@[j] != c,
            0 <= first_index_or_len(s@, c) <= n,
            first_index_or_len(s@, c) < n ==> s@[first_index_or_len(s@, c)] == c,
            forall|j: int| 0 <= j < first_index_or_len(s@, c) ==> s@[j] != c,
        decreases n - i,
    {
        if s.get_char(i) == c {
            return i;
        }
        i += 1;
    }
    n
}

} // verus!

verus! {

/// Whether `s` is one of the strings of `v`.
pub fn contains_text(v: &Vec<String>, s: &str) -> (r: bool)
    ensures
        r == views(v@).contains(s@),
{
    let n = v.len();
    let mut i: usize = 0;
    while i < n
        invariant
            n == v@.len(),
            i <= n,
            forall|j: int| 0 <= j < i ==> v@[j]@ != s@,
        decreases n - i,
    {
        if text_eq(v[i].as_str(), s) {
            assert(views(v@)[i as int] == s@);
            return true;
        }
        i += 1;
    }
    assert(!views(v@).contains(s@)) by {
        if views(v@).contains(s@) {
            let j = choose|j: int| 0 <= j < views(v@).len() && views(v@)[j] == s@;
            assert(v@[j]@ == s@);
        }
    }
    false
}

} // verus!

verus! {

/// The elements of `paths` whose flag is set, in order.
pub open spec fn flagged(paths: Seq<Seq<char>>, flags: Seq<bool>) -> Seq<Seq<char>>
    decreases paths.len(),
{
    if paths.len() == 0 || flags.len() == 0 {
        Seq::empty()
    } else {
        flagged(paths.drop_last(), flags.drop_last()) + if flags.last() {
            seq![paths.last()]
        } else {
            Seq::empty()
        }
    }
}

} // verus!

verus! {

/// `q` occurs in `s` at position `i`.
pub open spec fn occurs_at(s: Seq<char>, q: Seq<char>, i: int) -> bool {
    0 <= i && i + q.len() <= s.len() && s.subrange(i, i + q.len()) == q
}

/// `q` occurs somewhere in `s`.
pub open spec fn occurs_in(s: Seq<char>, q: Seq<char>) -> bool {
    exists|i: int| #[trigger] occurs_at(s, q, i)
}

/// No occurrence of `q` can begin inside `rep` and run on past it or stay in
/// it: reading `q` from any position of `rep` meets a mismatch within `rep`.
pub open spec fn starts_nowhere_in(rep: Seq<char>, q: Seq<char>) -> bool {
    forall|t: int| 0 <= t < rep.len() ==> #[trigger] mismatch_from(rep, q, t)
}

/// Reading `q` from position `t` of `rep` meets a mismatch before `rep` ends.
pub open spec fn mismatch_from(rep: Seq<char>, q: Seq<char>, t: int) -> bool {
    exists|u: int| 0 <= u < q.len() && t + u < rep.len() && rep[t + u] != #[trigger] q[u]
}

/// The first character of `rep` does not occur in `q` after its first.
pub open spec fn first_not_inside(rep: Seq<char>, q: Seq<char>) -> bool {
    forall|t: int| 1 <= t < q.len() ==> rep[0] != #[trigger] q[t]
}

/// A prefix of a replacement's output either is the same prefix of its input
/// or holds the first character of a replacement.
proof fn lemma_replace_prefix(s: Seq<char>, pat: Seq<char>, rep: Seq<char>, l: int)
    requires
        pat.len() > 0,
        rep.len() > 0,
        0 <= l <= replace_spec(s, pat, rep).len(),
    ensures
        (l <= s.len() && replace_spec(s, pat, rep).take(l) == s.take(l)) || exists|k: int|
            0 <= k < l && #[trigger] replace_spec(s, pat, rep)[k] == rep[0],
    decreases s.len(),
{
    let r = replace_spec(s, pat, rep);
    if l == 0 {
        assert(r.take(0) =~= s.take(0));
    } else if s.len() < pat.len() {
    } else if s.take(pat.len() as int) == pat {
        assert(r[0] == rep[0]);
    } else {
        let r1 = replace_spec(s.skip(1), pat, rep);
        assert(r == seq![s[0]] + r1);
        lemma_replace_prefix(s.skip(1), pat, rep, l - 1);
        if l - 1 <= s.skip(1).len() && r1.take(l - 1) == s.skip(1).take(l - 1) {
            assert forall|j: int| 0 <= j < l implies r[j] == s[j] by {
                if j > 0 {
                    assert(r1.take(l - 1)[j - 1] == s.skip(1).take(l - 1)[j - 1]);
                }
            }
            assert(r.take(l) =~= s.take(l));
        } else {
            let k = choose|k: int| 0 <= k < l - 1 && #[trigger] r1[k] == rep[0];
            assert(r[k + 1] == rep[0]);
        }
    }
}

/// Replacing `pat` by `rep` leaves no occurrence of `q` when `q` is `pat`,
/// or when `q` did not occur before, provided that no occurrence of `q` can
/// involve a replacement.
pub proof fn lemma_replace_leaves_no(s: Seq<char>, pat: Seq<char>, rep: Seq<char>, q: Seq<char>)
    requires
        pat.len() > 0,
        rep.len() > 0,
        q.len() > 0,
        starts_nowhere_in(rep, q),
        first_not_inside(rep, q),
        q == pat || !occurs_in(s, q),
    ensures
        !occurs_in(replace_spec(s, pat, rep), q),
    decreases s.len(),
{
    let r = replace_spec(s, pat, rep);
    if s.len() < pat.len() {
        if occurs_in(r, q) {
            let i = choose|i: int| #[trigger] occurs_at(r, q, i);
            assert(occurs_at(s, q, i));
        }
    } else if s.take(pat.len() as int) == pat {
        let rest = s.skip(pat.len() as int);
        if q != pat && occurs_in(rest, q) {
            let i = choose|i: int| #[trigger] occurs_at(rest, q, i);
            assert(s.subrange(i + pat.len(), i + pat.len() + q.len()) =~= rest.subrange(i, i + q.len()));
            assert(occurs_at(s, q, i + pat.len()));
        }
        lemma_replace_leaves_no(rest, pat, rep, q);
        let r1 = replace_spec(rest, pat, rep);
        assert(r == rep + r1);
        if occurs_in(r, q) {
            let i = choose|i: int| #[trigger] occurs_at(r, q, i);
            if i >= rep.len() {
                assert(r1.subrange(i - rep.len(), i - rep.len() + q.len()) =~= r.subrange(i, i + q.len()));
                assert(occurs_at(r1, q, i - rep.len()));
            } else {
                assert(mismatch_from(rep, q, i));
                let u = choose|u: int| 0 <= u < q.len() && i + u < rep.len() && rep[i + u] != #[trigger] q[u];
                assert(r.subrange(i, i + q.len())[u] == r[i + u]);
            }
        }
    } else {
        let rest = s.skip(1);
        if q != pat && occurs_in(rest, q) {
            let i = choose|i: int| #[trigger] occurs_at(rest, q, i);
            assert(s.subrange(i + 1, i + 1 + q.len()) =~= rest.subrange(i, i + q.len()));
            assert(occurs_at(s, q, i + 1));
        }
        lemma_replace_leaves_no(rest, pat, rep, q);
        let r1 = replace_spec(rest, pat, rep);
        assert(r == seq![s[0]] + r1);
        if occurs_in(r, q) {
            let i = choose|i: int| #[trigger] occurs_at(r, q, i);
            if i >= 1 {
                assert(r1.subrange(i - 1, i - 1 + q.len()) =~= r.subrange(i, i + q.len()));
                assert(occurs_at(r1, q, i - 1));
            } else {
                lemma_replace_prefix(rest, pat, rep, q.len() - 1);
                if q.len() - 1 <= rest.len() && r1.take(q.len() - 1) == rest.take(q.len() - 1) {
                    assert forall|j: int| 0 <= j < q.len() implies r[j] == s[j] by {
                        if j > 0 {
                            assert(r1.take(q.len() - 1)[j - 1] == rest.take(q.len() - 1)[j - 1]);
                        }
                    }
                    assert(s.subrange(0, q.len() as int) =~= r.subrange(0, q.len() as int));
                    assert(occurs_at(s, q, 0));
                    if q == pat {
                        assert(s.take(pat.len() as int) =~= s.subrange(0, q.len() as int));
                    }
                } else {
                    let k = choose|k: int| 0 <= k < q.len() - 1 && #[trigger] r1[k] == rep[0];
                    assert(r[k + 1] == rep[0]);
                    assert(r.subrange(0, q.len() as int)[k + 1] == q[k + 1]);
                }
            }
        }
    }
}

} // verus!
