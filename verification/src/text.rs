use vstd::prelude::*;
use vstd::string::StringSliceAdditionalSpecFns;

verus! {

/// Compares two string slices character by character.
pub fn str_eq(a: &str, b: &str) -> (same: bool)
    ensures
        same == (a@ == b@),
{
    let n = a.unicode_len();
    let m = b.unicode_len();
    if n != m {
        return false;
    }
    let mut i: usize = 0;
    while i < n
        invariant
            n == a@.len(),
            m == b@.len(),
            n == m,
            i <= n,
            forall|j: int| 0 <= j < i ==> a@[j] == b@[j],
        decreases n - i,
    {
        if a.get_char(i) != b.get_char(i) {
            return false;
        }
        i = i + 1;
    }
    assert(a@ =~= b@);
    true
}

/// The lower-case form of a string, as `str::to_lowercase` gives it (by the Unicode
/// `Lowercase` property, a function of the string alone).
pub uninterp spec fn lowercase_of(s: Seq<char>) -> Seq<char>;

/// `str::to_lowercase`: the lower-case form of `s`. Its result is named, not stated:
/// the Unicode case tables are not written out here.
#[verifier::external_body]
pub(crate) fn lowercase(s: &str) -> (lower: String)
    ensures
        lower@ == lowercase_of(s@),
{
    s.to_lowercase()
}

/// The value of a run of ASCII decimal digits, most significant first; `None` when the
/// run is empty or holds anything else.
pub open spec fn decimal_digits(s: Seq<u8>) -> Option<nat>
    decreases s.len(),
{
    if s.len() == 0 {
        None
    } else if !(48 <= s.last() <= 57) {
        None
    } else if s.len() == 1 {
        Some((s.last() - 48) as nat)
    } else {
        match decimal_digits(s.drop_last()) {
            Some(high) => Some(high * 10 + (s.last() - 48) as nat),
            None => None,
        }
    }
}

/// A decimal number as `usize::from_str` reads it: an optional leading `+`, then one
/// or more digits, with a value that fits in a `usize`.
pub open spec fn decimal_usize(s: Seq<u8>) -> Option<usize> {
    let digits = if s.len() > 0 && s[0] == 43 {
        s.drop_first()
    } else {
        s
    };
    match decimal_digits(digits) {
        Some(v) => if v <= usize::MAX {
            Some(v as usize)
        } else {
            None
        },
        None => None,
    }
}

proof fn lemma_decimal_prefix(s: Seq<u8>, n: int)
    requires
        1 <= n <= s.len(),
        decimal_digits(s) is Some,
    ensures
        decimal_digits(s.subrange(0, n)) is Some,
        decimal_digits(s.subrange(0, n))->0 <= decimal_digits(s)->0,
    decreases s.len() - n,
{
    if n == s.len() {
        assert(s.subrange(0, n) == s);
    } else {
        assert(s.drop_last().subrange(0, n) == s.subrange(0, n));
        lemma_decimal_prefix(s.drop_last(), n);
    }
}

proof fn lemma_decimal_none_extends(s: Seq<u8>, n: int)
    requires
        1 <= n <= s.len(),
        decimal_digits(s.subrange(0, n)) is None,
    ensures
        decimal_digits(s) is None,
    decreases s.len() - n,
{
    if n == s.len() {
        assert(s.subrange(0, n) == s);
    } else {
        assert(s.drop_last().subrange(0, n) == s.subrange(0, n));
        lemma_decimal_none_extends(s.drop_last(), n);
    }
}

/// Reads a node identifier typed as text, as `usize::from_str` does: an optional `+`,
/// then decimal digits whose value fits in a `usize`. `None` for anything else.
pub fn parse_decimal(text: &str) -> (id: Option<usize>)
    ensures
        id == decimal_usize(text.spec_bytes()),
{
    let bytes = text.as_bytes();
    let from: usize = if bytes.len() > 0 && bytes[0] == 43 {
        1
    } else {
        0
    };
    let ghost digits = if bytes@.len() > 0 && bytes@[0] == 43 {
        bytes@.drop_first()
    } else {
        bytes@
    };
    proof {
        assert(digits == bytes@.subrange(from as int, bytes@.len() as int));
    }
    if from >= bytes.len() {
        return None;
    }
    let mut acc: usize = 0;
    let mut k: usize = from;
    while k < bytes.len()
        invariant
            bytes@ == text.spec_bytes(),
            digits == (if bytes@.len() > 0 && bytes@[0] == 43 {
                bytes@.drop_first()
            } else {
                bytes@
            }),
            from < bytes@.len(),
            from <= k <= bytes@.len(),
            digits == bytes@.subrange(from as int, bytes@.len() as int),
            k > from ==> decimal_digits(bytes@.subrange(from as int, k as int)) == Some(acc as nat),
            k == from ==> acc == 0,
        decreases bytes@.len() - k,
    {
        let ghost prefix = bytes@.subrange(from as int, k as int);
        let ghost next = bytes@.subrange(from as int, k + 1);
        proof {
            assert(next.drop_last() == prefix);
            assert(next.last() == bytes@[k as int]);
            assert(digits.subrange(0, k + 1 - from) == next);
        }
        let b = bytes[k];
        if b < 48 || b > 57 {
            proof {
                assert(decimal_digits(next) is None);
                lemma_decimal_none_extends(digits, k + 1 - from);
                assert(decimal_digits(digits) is None);
            }
            return None;
        }
        let d: usize = (b - 48) as usize;
        if acc > (usize::MAX - d) / 10 {
            proof {
                assert(decimal_digits(next) == Some((acc * 10 + d) as nat)) by {
                    if k > from {
                    } else {
                        assert(next.len() == 1);
                    }
                };
                assert(acc * 10 + d > usize::MAX) by (nonlinear_arith)
                    requires
                        acc > (usize::MAX - d) / 10,
                        d <= 9,
                ;
                lemma_decimal_prefix_or_none(digits, k + 1 - from);
                assert(decimal_usize_digits_fails(digits));
            }
            return None;
        }
        acc = acc * 10 + d;
        k = k + 1;
    }
    proof {
        assert(bytes@.subrange(from as int, bytes@.len() as int) == digits);
    }
    Some(acc)
}

proof fn lemma_decimal_prefix_or_none(s: Seq<u8>, n: int)
    requires
        1 <= n <= s.len(),
        decimal_digits(s.subrange(0, n)) matches Some(p) && p > usize::MAX,
    ensures
        decimal_usize_digits_fails(s),
{
    if decimal_digits(s) is Some {
        lemma_decimal_prefix(s, n);
    }
}

/// Whether a run of digits fails to read as a `usize`.
pub open spec fn decimal_usize_digits_fails(s: Seq<u8>) -> bool {
    match decimal_digits(s) {
        Some(v) => v > usize::MAX,
        None => true,
    }
}

/// Whether `sub` occurs in `s` at position `i`.
pub open spec fn occurs_at(s: Seq<char>, sub: Seq<char>, i: int) -> bool {
    0 <= i && i + sub.len() <= s.len() && s.subrange(i, i + sub.len()) == sub
}

/// Whether `sub` occurs somewhere in `s`, as `str::contains` with a string pattern answers.
pub open spec fn contains_text(s: Seq<char>, sub: Seq<char>) -> bool {
    exists|i: int| #[trigger] occurs_at(s, sub, i)
}

/// Whether `sub` occurs in `s`.
pub fn str_contains(s: &str, sub: &str) -> (found: bool)
    ensures
        found == contains_text(s@, sub@),
{
    let n = s.unicode_len();
    let m = sub.unicode_len();
    if m > n {
        proof {
            assert forall|i: int| !occurs_at(s@, sub@, i) by {}
        }
        return false;
    }
    let mut i: usize = 0;
    while i <= n - m
        invariant
            n == s@.len(),
            m == sub@.len(),
            m <= n,
            i <= n - m + 1,
            forall|j: int| 0 <= j < i ==> !#[trigger] occurs_at(s@, sub@, j),
        decreases n - m + 1 - i,
    {
        let mut k: usize = 0;
        let mut same = true;
        while k < m
            invariant
                n == s@.len(),
                m == sub@.len(),
                i + m <= n,
                k <= m,
                same == forall|t: int| 0 <= t < k ==> s@[i + t] == sub@[t],
            decreases m - k,
        {
            if s.get_char(i + k) != sub.get_char(k) {
                same = false;
            }
            k = k + 1;
        }
        if same {
            assert(s@.subrange(i as int, i + m) =~= sub@);
            assert(occurs_at(s@, sub@, i as int));
            return true;
        }
        proof {
            if occurs_at(s@, sub@, i as int) {
                assert forall|t: int| 0 <= t < m implies s@[i + t] == sub@[t] by {
                    assert(s@.subrange(i as int, i + m)[t] == s@[i + t]);
                }
            }
        }
        i = i + 1;
    }
    proof {
        assert forall|j: int| !occurs_at(s@, sub@, j) by {
            if 0 <= j < i {
            }
        }
    }
    false
}

/// The decimal digit `d` (below ten) as a character.
pub open spec fn digit_char(d: nat) -> char {
    if d == 0 {
        '0'
    } else if d == 1 {
        '1'
    } else if d == 2 {
        '2'
    } else if d == 3 {
        '3'
    } else if d == 4 {
        '4'
    } else if d == 5 {
        '5'
    } else if d == 6 {
        '6'
    } else if d == 7 {
        '7'
    } else if d == 8 {
        '8'
    } else {
        '9'
    }
}

/// The decimal form of `n`, as `Display` and `Debug` print an unsigned integer.
pub open spec fn decimal_text(n: nat) -> Seq<char>
    decreases n,
{
    if n < 10 {
        seq![digit_char(n)]
    } else {
        decimal_text(n / 10).push(digit_char(n % 10))
    }
}

fn digit_str(d: u64) -> (s: &'static str)
    requires
        d < 10,
    ensures
        s@ == seq![digit_char(d as nat)],
{
    let s = if d == 0 {
        "0"
    } else if d == 1 {
        "1"
    } else if d == 2 {
        "2"
    } else if d == 3 {
        "3"
    } else if d == 4 {
        "4"
    } else if d == 5 {
        "5"
    } else if d == 6 {
        "6"
    } else if d == 7 {
        "7"
    } else if d == 8 {
        "8"
    } else {
        "9"
    };
    proof {
        reveal_strlit("0");
        reveal_strlit("1");
        reveal_strlit("2");
        reveal_strlit("3");
        reveal_strlit("4");
        reveal_strlit("5");
        reveal_strlit("6");
        reveal_strlit("7");
        reveal_strlit("8");
        reveal_strlit("9");
    }
    assert(s@ =~= seq![digit_char(d as nat)]);
    s
}

/// Appends the decimal form of `n` to `out`.
pub fn append_decimal(out: &mut String, n: u64)
    ensures
        final(out)@ == old(out)@ + decimal_text(n as nat),
    decreases n,
{
    if n >= 10 {
        append_decimal(out, n / 10);
    }
    out.append(digit_str(n % 10));
    proof {
        assert(old(out)@ + decimal_text(n as nat) =~= (if n >= 10 {
            old(out)@ + decimal_text((n / 10) as nat)
        } else {
            old(out)@
        }) + seq![digit_char((n % 10) as nat)]);
    }
}

/// Whether `a` comes before `b` in the order of `str`: character by character, a
/// proper prefix first. (UTF-8 keeps the order of characters, so this is also the
/// order of their bytes.)
pub open spec fn text_less(a: Seq<char>, b: Seq<char>) -> bool
    decreases a.len(),
{
    if a.len() == 0 {
        b.len() > 0
    } else if b.len() == 0 {
        false
    } else if a[0] != b[0] {
        (a[0] as int) < (b[0] as int)
    } else {
        text_less(a.drop_first(), b.drop_first())
    }
}

/// The order of texts is transitive.
pub proof fn lemma_text_less_transitive(a: Seq<char>, b: Seq<char>, c: Seq<char>)
    requires
        text_less(a, b),
        text_less(b, c),
    ensures
        text_less(a, c),
    decreases a.len(),
{
    if a.len() > 0 && b.len() > 0 && c.len() > 0 && a[0] == b[0] && b[0] == c[0] {
        lemma_text_less_transitive(a.drop_first(), b.drop_first(), c.drop_first());
    }
}

/// Of two texts, one comes first or they are equal.
pub proof fn lemma_text_less_total(a: Seq<char>, b: Seq<char>)
    ensures
        text_less(a, b) || text_less(b, a) || a == b,
        !(text_less(a, b) && text_less(b, a)),
        !text_less(a, a),
    decreases a.len(),
{
    if a.len() > 0 && b.len() > 0 {
        lemma_text_less_total(a.drop_first(), b.drop_first());
        if a[0] == b[0] && a.drop_first() == b.drop_first() {
            assert(a == seq![a[0]] + a.drop_first());
            assert(b == seq![b[0]] + b.drop_first());
        }
    } else if a.len() == 0 && b.len() == 0 {
        assert(a == b);
    }
    if a.len() > 0 {
        lemma_text_less_total(a.drop_first(), a.drop_first());
    }
}

/// Whether `a` comes before `b` in the order of `str`.
pub fn str_less(a: &str, b: &str) -> (less: bool)
    ensures
        less == text_less(a@, b@),
{
    let n = a.unicode_len();
    let m = b.unicode_len();
    let mut i: usize = 0;
    proof {
        assert(a@.subrange(0, n as int) == a@);
        assert(b@.subrange(0, m as int) == b@);
    }
    while i < n && i < m
        invariant
            n == a@.len(),
            m == b@.len(),
            i <= n,
            i <= m,
            text_less(a@, b@) == text_less(a@.subrange(i as int, n as int), b@.subrange(i as int, m as int)),
        decreases n - i,
    {
        let x = a.get_char(i);
        let y = b.get_char(i);
        let ghost ra = a@.subrange(i as int, n as int);
        let ghost rb = b@.subrange(i as int, m as int);
        proof {
            assert(ra[0] == x && rb[0] == y);
        }
        if x != y {
            return (x as u32) < (y as u32);
        }
        proof {
            assert(ra.drop_first() == a@.subrange(i + 1, n as int));
            assert(rb.drop_first() == b@.subrange(i + 1, m as int));
        }
        i = i + 1;
    }
    proof {
        let ra = a@.subrange(i as int, n as int);
        let rb = b@.subrange(i as int, m as int);
        assert(ra.len() == 0 || rb.len() == 0);
    }
    i == n && i < m
}

/// Whether each text comes before every later one: ascending, with no text twice.
pub open spec fn strictly_ascending(s: Seq<Seq<char>>) -> bool {
    forall|i: int, j: int| 0 <= i < j < s.len() ==> text_less(#[trigger] s[i], #[trigger] s[j])
}

/// The texts of a list of strings.
pub open spec fn texts(v: Seq<String>) -> Seq<Seq<char>> {
    v.map_values(|s: String| s@)
}

/// The strings of `names` in ascending order, each once, as a sort followed by a dedup
/// gives them.
pub fn sorted_distinct(names: &Vec<String>) -> (out: Vec<String>)
    ensures
        strictly_ascending(texts(out@)),
        texts(out@).to_set() == texts(names@).to_set(),
{
    let mut out: Vec<String> = Vec::new();
    let mut i: usize = 0;
    proof {
        assert(texts(out@).to_set() =~= texts(names@.subrange(0, 0)).to_set());
    }
    while i < names.len()
        invariant
            i <= names@.len(),
            strictly_ascending(texts(out@)),
            texts(out@).to_set() == texts(names@.subrange(0, i as int)).to_set(),
        decreases names@.len() - i,
    {
        let name = &names[i];
        let ghost x = name@;
        let ghost before = texts(out@);
        let mut j: usize = 0;
        while j < out.len() && str_less(out[j].as_str(), name.as_str())
            invariant
                j <= out@.len(),
                before == texts(out@),
                x == name@,
                forall|k: int| 0 <= k < j ==> text_less(#[trigger] before[k], x),
            decreases out@.len() - j,
        {
            j = j + 1;
        }
        let present = j < out.len() && str_eq(out[j].as_str(), name.as_str());
        proof {
            let pre = names@.subrange(0, i as int);
            assert(names@.subrange(0, i + 1) == pre.push(names@[i as int]));
            assert(texts(pre.push(names@[i as int])) =~= texts(pre).push(x));
            texts(pre).lemma_push_to_set_commute(x);
        }
        if !present {
            out.insert(j, name.clone());
            proof {
                let after = texts(out@);
                assert(after =~= before.insert(j as int, x));
                before.insert_ensures(j as int, x);
                if j < before.len() {
                    lemma_text_less_total(before[j as int], x);
                }
                assert forall|a: int, b: int| 0 <= a < b < after.len() implies text_less(
                    #[trigger] after[a],
                    #[trigger] after[b],
                ) by {
                    if b < j {
                        assert(after[a] == before[a] && after[b] == before[b]);
                    } else if b == j {
                        assert(after[a] == before[a]);
                    } else if a < j {
                        assert(after[a] == before[a] && after[b] == before[b - 1]);
                        assert(text_less(before[j as int], before[b - 1]) || b - 1 == j);
                        lemma_text_less_transitive(before[a], x, before[j as int]);
                        if b - 1 != j {
                            lemma_text_less_transitive(before[a], before[j as int], before[b - 1]);
                        }
                    } else if a == j {
                        assert(after[b] == before[b - 1]);
                        if b - 1 != j {
                            lemma_text_less_transitive(x, before[j as int], before[b - 1]);
                        }
                    } else {
                        assert(after[a] == before[a - 1] && after[b] == before[b - 1]);
                    }
                }
                assert(after.to_set() =~= before.to_set().insert(x)) by {
                    assert forall|t: Seq<char>| after.to_set().contains(t) <==> before.to_set().insert(x).contains(t) by {
                        if after.contains(t) {
                            let k = choose|k: int| 0 <= k < after.len() && after[k] == t;
                            if k < j {
                                assert(before[k] == t);
                            } else if k > j {
                                assert(before[k - 1] == t);
                            }
                        }
                        if before.contains(t) {
                            let k = choose|k: int| 0 <= k < before.len() && before[k] == t;
                            if k < j {
                                assert(after[k] == t);
                            } else {
                                assert(after[k + 1] == t);
                            }
                        }
                        if t == x {
                            assert(after[j as int] == x);
                        }
                    }
                }
            }
        } else {
            proof {
                assert(before[j as int] == x);
                assert(before.to_set().insert(x) =~= before.to_set());
            }
        }
        i = i + 1;
    }
    proof {
        assert(names@.subrange(0, names@.len() as int) == names@);
    }
    out
}

/// The decimal form of a signed number: a minus sign before the digits of a negative one.
pub open spec fn signed_text(n: int) -> Seq<char> {
    if n < 0 {
        seq!['-'] + decimal_text((-n) as nat)
    } else {
        decimal_text(n as nat)
    }
}

/// Appends the decimal form of the signed number `n` to `out`.
pub fn append_signed(out: &mut String, n: i64)
    ensures
        final(out)@ == old(out)@ + signed_text(n as int),
{
    if n < 0 {
        out.append("-");
        proof {
            reveal_strlit("-");
        }
        let magnitude: u64 = if n == i64::MIN {
            9223372036854775808u64
        } else {
            (-n) as u64
        };
        let ghost mid = out@;
        append_decimal(out, magnitude);
        assert(out@ =~= old(out)@ + signed_text(n as int));
    } else {
        append_decimal(out, n as u64);
    }
}

} // verus!
