use vstd::prelude::*;

use crate::text::{str_eq, texts};

verus! {

/// A JSON value as the key outline reads it: an object's entries in order, an array's
/// items in order, or any other value.
pub enum JsonTree {
    Object(Vec<(String, JsonTree)>),
    Array(Vec<JsonTree>),
    Scalar,
}

/// The number of entries of an object or items of an array.
pub open spec fn child_count(v: JsonTree) -> int {
    match v {
        JsonTree::Object(entries) => entries@.len() as int,
        JsonTree::Array(items) => items@.len() as int,
        JsonTree::Scalar => 0,
    }
}

/// A key with its ASCII digits left out.
pub open spec fn strip_digits(key: Seq<char>) -> Seq<char> {
    key.filter(|c: char| !('0' <= c && c <= '9'))
}

/// The lines of the key outline of `v` printed at `indent`, and the keys seen once they
/// are printed, given the keys `seen` before: each key of an object, with its digits
/// left out, is printed the first time it is met, and the value under it is then
/// outlined two columns further in; a key met again is skipped with its value. The
/// items of an array are outlined two columns further in.
pub open spec fn outline(v: JsonTree, indent: int, seen: Set<Seq<char>>) -> (Seq<(int, Seq<char>)>, Set<Seq<char>>)
    decreases v, 1int, 0int,
{
    match v {
        JsonTree::Object(_) => outline_from(v, 0, indent, seen),
        JsonTree::Array(_) => outline_from(v, 0, indent + 2, seen),
        JsonTree::Scalar => (Seq::empty(), seen),
    }
}

/// The outline of the entries or items of `v` from position `k` on.
pub open spec fn outline_from(v: JsonTree, k: int, indent: int, seen: Set<Seq<char>>) -> (
    Seq<(int, Seq<char>)>,
    Set<Seq<char>>,
)
    decreases v, 0int, child_count(v) - k,
{
    if k < 0 || k >= child_count(v) {
        (Seq::empty(), seen)
    } else {
        match v {
            JsonTree::Object(entries) => {
                let key = strip_digits(entries@[k].0@);
                if seen.contains(key) {
                    outline_from(v, k + 1, indent, seen)
                } else {
                    proof {
                        assert(decreases_to!(v => entries));
                        assert(decreases_to!(entries => entries@));
                        assert(decreases_to!(entries@ => entries@[k]));
                        assert(decreases_to!(entries@[k] => entries@[k].1));
                    }
                    let (lines, after) = outline(entries@[k].1, indent + 2, seen.insert(key));
                    let (rest, last) = outline_from(v, k + 1, indent, after);
                    (seq![(indent, key)] + lines + rest, last)
                }
            },
            JsonTree::Array(items) => {
                proof {
                    assert(decreases_to!(v => items));
                    assert(decreases_to!(items => items@));
                    assert(decreases_to!(items@ => items@[k]));
                }
                let (lines, after) = outline(items@[k], indent, seen);
                let (rest, last) = outline_from(v, k + 1, indent, after);
                (lines + rest, last)
            },
            JsonTree::Scalar => (Seq::empty(), seen),
        }
    }
}

/// How deeply `v` nests: none for a scalar, one more than its deepest entry or item otherwise.
pub open spec fn depth(v: JsonTree) -> nat
    decreases v, 1int, 0int,
{
    match v {
        JsonTree::Scalar => 0,
        _ => 1 + depth_from(v, 0),
    }
}

/// The greatest depth among the entries or items of `v` from position `k` on.
pub open spec fn depth_from(v: JsonTree, k: int) -> nat
    decreases v, 0int, child_count(v) - k,
{
    if k < 0 || k >= child_count(v) {
        0
    } else {
        let d = match v {
            JsonTree::Object(entries) => {
                proof {
                    assert(decreases_to!(v => entries));
                    assert(decreases_to!(entries => entries@));
                    assert(decreases_to!(entries@ => entries@[k]));
                    assert(decreases_to!(entries@[k] => entries@[k].1));
                }
                depth(entries@[k].1)
            },
            JsonTree::Array(items) => {
                proof {
                    assert(decreases_to!(v => items));
                    assert(decreases_to!(items => items@));
                    assert(decreases_to!(items@ => items@[k]));
                }
                depth(items@[k])
            },
            JsonTree::Scalar => 0,
        };
        let r = depth_from(v, k + 1);
        if d >= r {
            d
        } else {
            r
        }
    }
}

/// `n`, kept to the largest `usize`.
pub open spec fn saturated(n: nat) -> nat {
    if n > usize::MAX {
        usize::MAX as nat
    } else {
        n
    }
}

/// The depth of `v`, kept to the largest `usize`.
fn depth_of(v: &JsonTree) -> (d: usize)
    ensures
        d as nat == saturated(depth(*v)),
    decreases *v,
{
    let n: usize = match v {
        JsonTree::Object(entries) => entries.len(),
        JsonTree::Array(items) => items.len(),
        JsonTree::Scalar => {
            return 0;
        },
    };
    let mut m: usize = 0;
    let mut k: usize = n;
    while k > 0
        invariant
            k <= n,
            n == child_count(*v),
            !(*v is Scalar),
            m as nat == saturated(depth_from(*v, k as int)),
        decreases k,
    {
        k = k - 1;
        let d = match v {
            JsonTree::Object(entries) => {
                proof {
                    assert(decreases_to!(*v => *entries));
                    assert(decreases_to!(*entries => entries@));
                    assert(decreases_to!(entries@ => entries@[k as int]));
                    assert(decreases_to!(entries@[k as int] => entries@[k as int].1));
                }
                depth_of(&entries[k].1)
            },
            JsonTree::Array(items) => {
                proof {
                    assert(decreases_to!(*v => *items));
                    assert(decreases_to!(*items => items@));
                    assert(decreases_to!(items@ => items@[k as int]));
                }
                depth_of(&items[k])
            },
            JsonTree::Scalar => 0,
        };
        if d > m {
            m = d;
        }
    }
    if m == usize::MAX {
        m
    } else {
        m + 1
    }
}

/// The lines of an outline, by their indents and texts.
pub open spec fn line_texts(lines: Seq<(usize, String)>) -> Seq<(int, Seq<char>)> {
    lines.map_values(|l: (usize, String)| (l.0 as int, l.1@))
}

fn seen_contains(seen: &Vec<String>, key: &str) -> (found: bool)
    ensures
        found == texts(seen@).to_set().contains(key@),
{
    let mut i: usize = 0;
    while i < seen.len()
        invariant
            i <= seen@.len(),
            forall|j: int| 0 <= j < i ==> seen@[j]@ != key@,
        decreases seen@.len() - i,
    {
        if str_eq(seen[i].as_str(), key) {
            assert(texts(seen@)[i as int] == key@);
            return true;
        }
        i = i + 1;
    }
    proof {
        if texts(seen@).contains(key@) {
            let j = choose|j: int| 0 <= j < texts(seen@).len() && texts(seen@)[j] == key@;
            assert(seen@[j]@ == key@);
        }
    }
    false
}

/// The key with its ASCII digits left out, as `str::replace` with a digit test and an
/// empty replacement gives it.
pub fn strip_key_digits(key: &str) -> (stripped: String)
    ensures
        stripped@ == strip_digits(key@),
{
    let ghost p = |c: char| !('0' <= c && c <= '9');
    let n = key.unicode_len();
    let mut out = String::new();
    let mut i: usize = 0;
    while i < n
        invariant
            n == key@.len(),
            i <= n,
            p == (|c: char| !('0' <= c && c <= '9')),
            out@ == key@.subrange(0, i as int).filter(p),
        decreases n - i,
    {
        let c = key.get_char(i);
        proof {
            assert(key@.subrange(0, i + 1) == key@.subrange(0, i as int).push(c));
            key@.subrange(0, i as int).lemma_filter_push(c, p);
        }
        if !('0' <= c && c <= '9') {
            let piece = key.substring_char(i, i + 1);
            assert(piece@ =~= seq![c]);
            out.append(piece);
        }
        i = i + 1;
    }
    assert(key@.subrange(0, n as int) == key@);
    out
}

/// The entry or item of `v` at position `k`.
pub open spec fn child(v: JsonTree, k: int) -> JsonTree {
    match v {
        JsonTree::Object(entries) => entries@[k].1,
        JsonTree::Array(items) => items@[k],
        JsonTree::Scalar => JsonTree::Scalar,
    }
}

proof fn lemma_depth_from_shrinks(v: JsonTree, j: int, k: int)
    requires
        0 <= j <= k,
    ensures
        depth_from(v, k) <= depth_from(v, j),
    decreases k - j,
{
    if j < k && j < child_count(v) {
        lemma_depth_from_shrinks(v, j + 1, k);
    }
}

proof fn lemma_depth_child(v: JsonTree, k: int)
    requires
        0 <= k < child_count(v),
    ensures
        depth(child(v, k)) + 1 <= depth(v),
{
    lemma_depth_from_shrinks(v, 0, k);
}

proof fn lemma_texts_push(s: Seq<String>, x: String)
    ensures
        texts(s.push(x)).to_set() == texts(s).to_set().insert(x@),
{
    assert(texts(s.push(x)) =~= texts(s).push(x@));
    texts(s).lemma_push_to_set_commute(x@);
}

proof fn lemma_line_texts_push(s: Seq<(usize, String)>, x: (usize, String))
    ensures
        line_texts(s.push(x)) == line_texts(s).push((x.0 as int, x.1@)),
{
    assert(line_texts(s.push(x)) =~= line_texts(s).push((x.0 as int, x.1@)));
}

/// Appends to `lines` the outline of `v` printed at `indent`, and adds the keys it
/// prints to `seen`.
fn outline_into(v: &JsonTree, indent: usize, seen: &mut Vec<String>, lines: &mut Vec<(usize, String)>)
    requires
        indent + 2 * depth(*v) <= usize::MAX,
    ensures
        line_texts(final(lines)@) == line_texts(old(lines)@) + outline(*v, indent as int, texts(old(seen)@).to_set()).0,
        texts(final(seen)@).to_set() == outline(*v, indent as int, texts(old(seen)@).to_set()).1,
    decreases *v,
{
    let ghost seen0 = texts(seen@).to_set();
    let ghost lines0 = line_texts(lines@);
    let (n, at): (usize, usize) = match v {
        JsonTree::Object(entries) => (entries.len(), indent),
        JsonTree::Array(items) => (items.len(), indent + 2),
        JsonTree::Scalar => {
            assert(line_texts(lines@) =~= lines0 + outline(*v, indent as int, seen0).0);
            return ;
        },
    };
    let ghost total = outline_from(*v, 0, at as int, seen0);
    assert(outline(*v, indent as int, seen0) == total);
    assert(line_texts(lines@) + outline_from(*v, 0, at as int, seen0).0 == lines0 + total.0);
    let mut k: usize = 0;
    while k < n
        invariant
            k <= n,
            n == child_count(*v),
            !(*v is Scalar),
            *v is Object ==> at == indent,
            *v is Array ==> at == indent + 2,
            indent + 2 * depth(*v) <= usize::MAX,
            line_texts(lines@) + outline_from(*v, k as int, at as int, texts(seen@).to_set()).0 == lines0 + total.0,
            outline_from(*v, k as int, at as int, texts(seen@).to_set()).1 == total.1,
        decreases n - k,
    {
        let ghost cur = texts(seen@).to_set();
        let ghost lines_before = line_texts(lines@);
        proof {
            lemma_depth_child(*v, k as int);
        }
        match v {
            JsonTree::Object(entries) => {
                let key = strip_key_digits(entries[k].0.as_str());
                if !seen_contains(seen, key.as_str()) {
                    proof {
                        assert(decreases_to!(*v => *entries));
                        assert(decreases_to!(*entries => entries@));
                        assert(decreases_to!(entries@ => entries@[k as int]));
                        assert(decreases_to!(entries@[k as int] => entries@[k as int].1));
                    }
                    let ghost seen_before = seen@;
                    let ghost lines_mid = lines@;
                    seen.push(key.clone());
                    proof {
                        lemma_texts_push(seen_before, key);
                    }
                    lines.push((at, key));
                    proof {
                        lemma_line_texts_push(lines_mid, (at, key));
                    }
                    let ghost seen_mid = texts(seen@).to_set();
                    let ghost lines_mid2 = line_texts(lines@);
                    outline_into(&entries[k].1, at + 2, seen, lines);
                    proof {
                        let step = outline(entries@[k as int].1, at + 2, seen_mid);
                        let rest = outline_from(*v, k + 1, at as int, step.1);
                        assert(outline_from(*v, k as int, at as int, cur).0 == seq![(at as int, key@)] + step.0 + rest.0);
                        assert(line_texts(lines@) + rest.0 =~= lines_before + outline_from(*v, k as int, at as int, cur).0);
                    }
                }
            },
            JsonTree::Array(items) => {
                proof {
                    assert(decreases_to!(*v => *items));
                    assert(decreases_to!(*items => items@));
                    assert(decreases_to!(items@ => items@[k as int]));
                }
                outline_into(&items[k], at, seen, lines);
                proof {
                    let step = outline(items@[k as int], at as int, cur);
                    let rest = outline_from(*v, k + 1, at as int, step.1);
                    assert(outline_from(*v, k as int, at as int, cur).0 == step.0 + rest.0);
                    assert(line_texts(lines@) + rest.0 =~= lines_before + outline_from(*v, k as int, at as int, cur).0);
                }
            },
            JsonTree::Scalar => {},
        }
        k = k + 1;
    }
    assert(line_texts(lines@) =~= lines0 + total.0);
}

/// The key outline of a JSON value: each key of an object, with its digits left out,
/// the first time it is met, two columns further in at each level (`None` when the
/// value nests too deeply for the columns to be counted).
pub fn key_outline(v: &JsonTree) -> (lines: Option<Vec<(usize, String)>>)
    ensures
        lines is None <==> 2 * depth(*v) > usize::MAX,
        lines matches Some(l) ==> line_texts(l@) == outline(*v, 0, Set::empty()).0,
{
    let d = depth_of(v);
    if d > usize::MAX / 2 {
        return None;
    }
    let mut seen: Vec<String> = Vec::new();
    let mut lines: Vec<(usize, String)> = Vec::new();
    assert(texts(seen@).to_set() =~= Set::<Seq<char>>::empty());
    outline_into(v, 0, &mut seen, &mut lines);
    assert(line_texts(Seq::<(usize, String)>::empty()) =~= Seq::empty());
    Some(lines)
}

} // verus!
