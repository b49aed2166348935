//! Character-level helpers shared by the configuration, draft and request
//! checks: Unicode white space, trimming, splitting at a separator, and the
//! visible-ASCII rule for header values.
use vstd::prelude::*;

verus! {

/// The Unicode `White_Space` property, the set that `char::is_whitespace`
/// and `str::trim` use.
pub open spec fn is_white_space(c: char) -> bool {
    let u = c as u32;
    ||| 0x09 <= u <= 0x0D
    ||| u == 0x20
    ||| u == 0x85
    ||| u == 0xA0
    ||| u == 0x1680
    ||| 0x2000 <= u <= 0x200A
    ||| u == 0x2028
    ||| u == 0x2029
    ||| u == 0x202F
    ||| u == 0x205F
    ||| u == 0x3000
}

/// Whether `c` is white space, as `char::is_whitespace` answers.
pub fn is_white_space_char(c: char) -> (b: bool)
    ensures
        b == is_white_space(c),
{
    let u = c as u32;
    (0x09 <= u && u <= 0x0D) || u == 0x20 || u == 0x85 || u == 0xA0 || u == 0x1680 || (0x2000
        <= u && u <= 0x200A) || u == 0x2028 || u == 0x2029 || u == 0x202F || u == 0x205F || u
        == 0x3000
}

/// Number of white-space characters at the start of `s`.
pub open spec fn leading_ws(s: Seq<char>) -> nat
    decreases s.len(),
{
    if s.len() > 0 && is_white_space(s[0]) {
        1 + leading_ws(s.drop_first())
    } else {
        0
    }
}

/// Number of white-space characters at the end of `s`.
pub open spec fn trailing_ws(s: Seq<char>) -> nat
    decreases s.len(),
{
    if s.len() > 0 && is_white_space(s.last()) {
        1 + trailing_ws(s.drop_last())
    } else {
        0
    }
}

/// `s` without its leading and trailing white space, as `str::trim` gives it.
pub open spec fn trim(s: Seq<char>) -> Seq<char> {
    let t = s.skip(leading_ws(s) as int);
    t.take(t.len() - trailing_ws(t))
}

/// The text before and after the first occurrence of `c`, as `str::split_once`
/// gives it; `None` where `c` does not occur.
pub open spec fn split_once(s: Seq<char>, c: char) -> Option<(Seq<char>, Seq<char>)>
    decreases s.len(),
{
    if s.len() == 0 {
        None
    } else if s[0] == c {
        Some((Seq::empty(), s.drop_first()))
    } else {
        match split_once(s.drop_first(), c) {
            Some((a, b)) => Some((seq![s[0]] + a, b)),
            None => None,
        }
    }
}

/// What `split_once` gives is the text before the first `c` and the text
/// after it.
pub proof fn lemma_split_once_shape(s: Seq<char>, c: char)
    ensures
        split_once(s, c) matches Some((a, b)) ==> s == a + seq![c] + b && !a.contains(c),
        split_once(s, c) is None ==> !s.contains(c),
    decreases s.len(),
{
    if s.len() > 0 {
        if split_once(s, c) is None && s.contains(c) {
            let k = choose|k: int| 0 <= k < s.len() && s[k] == c;
            lemma_split_once_shape(s.drop_first(), c);
            assert(s.drop_first()[k - 1] == c);
        }
        let t = s.drop_first();
        lemma_split_once_shape(t, c);
        if s[0] == c {
            assert(s =~= Seq::<char>::empty() + seq![c] + t);
        } else if let Some((a, b)) = split_once(t, c) {
            assert(t == a + seq![c] + b);
            assert(s =~= seq![s[0]] + t);
            assert(seq![s[0]] + (a + seq![c] + b) =~= (seq![s[0]] + a) + seq![c] + b);
            let a2 = seq![s[0]] + a;
            if a2.contains(c) {
                let k = choose|k: int| 0 <= k < a2.len() && a2[k] == c;
                assert(k > 0);
                assert(a[k - 1] == c);
            }
        }
    }
}

pub proof fn lemma_leading_ws_props(s: Seq<char>)
    ensures
        leading_ws(s) <= s.len(),
        forall|k: int| 0 <= k < leading_ws(s) ==> is_white_space(#[trigger] s[k]),
        leading_ws(s) < s.len() ==> !is_white_space(s[leading_ws(s) as int]),
    decreases s.len(),
{
    if s.len() > 0 && is_white_space(s[0]) {
        let t = s.drop_first();
        lemma_leading_ws_props(t);
        assert forall|k: int| 0 <= k < leading_ws(s) implies is_white_space(#[trigger] s[k]) by {
            if k > 0 {
                assert(s[k] == t[k - 1]);
            }
        }
        if leading_ws(s) < s.len() {
            assert(s[leading_ws(s) as int] == t[leading_ws(t) as int]);
        }
    }
}

pub proof fn lemma_trailing_ws_props(s: Seq<char>)
    ensures
        trailing_ws(s) <= s.len(),
        forall|k: int| s.len() - trailing_ws(s) <= k < s.len() ==> is_white_space(#[trigger] s[k]),
        trailing_ws(s) < s.len() ==> !is_white_space(s[s.len() - trailing_ws(s) - 1]),
    decreases s.len(),
{
    if s.len() > 0 && is_white_space(s.last()) {
        let t = s.drop_last();
        lemma_trailing_ws_props(t);
        assert forall|k: int| s.len() - trailing_ws(s) <= k < s.len() implies is_white_space(
            #[trigger] s[k],
        ) by {
            if k < s.len() - 1 {
                assert(s[k] == t[k]);
            }
        }
        if trailing_ws(s) < s.len() {
            assert(s[s.len() - trailing_ws(s) - 1] == t[t.len() - trailing_ws(t) - 1]);
        }
    }
}

/// Trimming keeps a contiguous part of `s`: everything cut before and after
/// it is white space, and, where it is not empty, it starts and ends with a
/// character that is not.
pub proof fn lemma_trim_rule(s: Seq<char>)
    ensures
        exists|a: int, b: int|
            {
                &&& 0 <= a <= b <= s.len()
                &&& trim(s) == s.subrange(a, b)
                &&& forall|k: int| 0 <= k < a ==> is_white_space(#[trigger] s[k])
                &&& forall|k: int| b <= k < s.len() ==> is_white_space(#[trigger] s[k])
                &&& a < b ==> !is_white_space(s[a]) && !is_white_space(s[b - 1])
            },
{
    lemma_leading_ws_props(s);
    let a = leading_ws(s) as int;
    let t = s.skip(a);
    lemma_trailing_ws_props(t);
    let b = a + t.len() - trailing_ws(t);
    assert(trim(s) =~= s.subrange(a, b));
    assert forall|k: int| b <= k < s.len() implies is_white_space(#[trigger] s[k]) by {
        assert(s[k] == t[k - a]);
    }
    if a < b {
        assert(s[b - 1] == t[t.len() - trailing_ws(t) - 1]);
    }
}

/// The pieces of `s` between occurrences of `c`, as `str::split` gives them.
pub open spec fn split_all(s: Seq<char>, c: char) -> Seq<Seq<char>>
    decreases s.len(),
{
    match split_once(s, c) {
        Some((a, b)) => {
            proof {
                lemma_split_once_len(s, c);
            }
            seq![a] + split_all(b, c)
        },
        None => seq![s],
    }
}

pub proof fn lemma_split_once_len(s: Seq<char>, c: char)
    ensures
        split_once(s, c) matches Some((a, b)) ==> a.len() + b.len() + 1 == s.len(),
    decreases s.len(),
{
    if s.len() > 0 {
        lemma_split_once_len(s.drop_first(), c);
    }
}

/// A byte that `HeaderValue::to_str` accepts: printable ASCII or a tab.
pub open spec fn is_visible_ascii(b: u8) -> bool {
    (32 <= b && b < 127) || b == 9
}

/// The characters of an ASCII byte string.
pub open spec fn ascii_chars(bytes: Seq<u8>) -> Seq<char> {
    bytes.map_values(|b: u8| b as char)
}

pub proof fn lemma_leading_ws(s: Seq<char>, i: int)
    requires
        0 <= i <= s.len(),
        forall|k: int| 0 <= k < i ==> is_white_space(#[trigger] s[k]),
        i == s.len() || !is_white_space(s[i]),
    ensures
        leading_ws(s) == i,
    decreases i,
{
    if i > 0 {
        let t = s.drop_first();
        assert forall|k: int| 0 <= k < i - 1 implies is_white_space(#[trigger] t[k]) by {
            assert(t[k] == s[k + 1]);
        }
        lemma_leading_ws(t, i - 1);
    }
}

pub proof fn lemma_trailing_ws(s: Seq<char>, j: int)
    requires
        0 <= j <= s.len(),
        forall|k: int| j <= k < s.len() ==> is_white_space(#[trigger] s[k]),
        j == 0 || !is_white_space(s[j - 1]),
    ensures
        trailing_ws(s) == s.len() - j,
    decreases s.len() - j,
{
    if j < s.len() {
        let t = s.drop_last();
        assert forall|k: int| j <= k < t.len() implies is_white_space(#[trigger] t[k]) by {
            assert(t[k] == s[k]);
        }
        lemma_trailing_ws(t, j);
    }
}

/// Where `s[p]` is the first `c` in `s`, `split_once` cuts there.
pub proof fn lemma_split_once_found(s: Seq<char>, c: char, p: int)
    requires
        0 <= p < s.len(),
        s[p] == c,
        forall|k: int| 0 <= k < p ==> #[trigger] s[k] != c,
    ensures
        split_once(s, c) == Some((s.take(p), s.skip(p + 1))),
    decreases p,
{
    if p > 0 {
        let t = s.drop_first();
        assert forall|k: int| 0 <= k < p - 1 implies #[trigger] t[k] != c by {
            assert(t[k] == s[k + 1]);
        }
        lemma_split_once_found(t, c, p - 1);
        assert(seq![s[0]] + t.take(p - 1) =~= s.take(p));
        assert(t.skip(p) =~= s.skip(p + 1));
    } else {
        assert(s.take(0) =~= Seq::<char>::empty());
        assert(s.drop_first() =~= s.skip(1));
    }
}

/// Where `c` does not occur in `s`, `split_once` gives `None`.
pub proof fn lemma_split_once_missing(s: Seq<char>, c: char)
    requires
        forall|k: int| 0 <= k < s.len() ==> #[trigger] s[k] != c,
    ensures
        split_once(s, c) is None,
    decreases s.len(),
{
    if s.len() > 0 {
        let t = s.drop_first();
        assert forall|k: int| 0 <= k < t.len() implies #[trigger] t[k] != c by {
            assert(t[k] == s[k + 1]);
        }
        lemma_split_once_missing(t, c);
    }
}

/// The characters of `s`, in order.
pub fn chars_of(s: &str) -> (out: Vec<char>)
    ensures
        out@ == s@,
{
    broadcast use vstd::string::group_string_axioms;

    let mut out: Vec<char> = Vec::new();
    for c in it: s.chars()
        invariant
            out@ == it.seq().take(it.index()),
            it.seq() == s@,
    {
        out.push(c);
    }
    out
}

/// The bounds `(a, b)` of the trimmed part of `s[from..to]`:
/// `s[a..b]` is `trim(s[from..to])`.
pub fn trim_bounds(s: &Vec<char>, from: usize, to: usize) -> (r: (usize, usize))
    requires
        from <= to <= s.len(),
    ensures
        from <= r.0 <= r.1 <= to,
        s@.subrange(r.0 as int, r.1 as int) == trim(s@.subrange(from as int, to as int)),
{
    let ghost w = s@.subrange(from as int, to as int);
    let mut a = from;
    while a < to && is_white_space_char(s[a])
        invariant
            from <= a <= to <= s.len(),
            w == s@.subrange(from as int, to as int),
            forall|k: int| from <= k < a ==> is_white_space(#[trigger] s@[k]),
        decreases to - a,
    {
        a = a + 1;
    }
    proof {
        assert forall|k: int| 0 <= k < a - from implies is_white_space(#[trigger] w[k]) by {
            assert(w[k] == s@[from + k]);
        }
        lemma_leading_ws(w, a - from);
    }
    let mut b = to;
    while b > a && is_white_space_char(s[b - 1])
        invariant
            from <= a <= b <= to <= s.len(),
            forall|k: int| b <= k < to ==> is_white_space(#[trigger] s@[k]),
        decreases b - a,
    {
        b = b - 1;
    }
    proof {
        let t = w.skip(a - from);
        assert(t =~= s@.subrange(a as int, to as int));
        assert forall|k: int| b - a <= k < t.len() implies is_white_space(#[trigger] t[k]) by {
            assert(t[k] == s@[a + k]);
        }
        if b > a {
            assert(t[b - a - 1] == s@[b - 1]);
        }
        lemma_trailing_ws(t, b - a);
        assert(t.take(b - a) =~= s@.subrange(a as int, b as int));
    }
    (a, b)
}

/// The first index in `s[from..to]` that holds `c`.
pub fn find_char(s: &Vec<char>, from: usize, to: usize, c: char) -> (r: Option<usize>)
    requires
        from <= to <= s.len(),
    ensures
        match r {
            Some(p) => from <= p < to && s@[p as int] == c && forall|k: int|
                from <= k < p ==> #[trigger] s@[k] != c,
            None => forall|k: int| from <= k < to ==> #[trigger] s@[k] != c,
        },
{
    let mut i = from;
    while i < to
        invariant
            from <= i <= to <= s.len(),
            forall|k: int| from <= k < i ==> #[trigger] s@[k] != c,
        decreases to - i,
    {
        if s[i] == c {
            return Some(i);
        }
        i = i + 1;
    }
    None
}

/// `split_once` on the part `s[from..to]`, given the result of `find_char`
/// on it.
pub proof fn lemma_split_once_range(s: Seq<char>, from: int, to: int, c: char, r: Option<usize>)
    requires
        0 <= from <= to <= s.len(),
        match r {
            Some(p) => from <= p < to && s[p as int] == c && forall|k: int|
                from <= k < p ==> #[trigger] s[k] != c,
            None => forall|k: int| from <= k < to ==> #[trigger] s[k] != c,
        },
    ensures
        split_once(s.subrange(from, to), c) == match r {
            Some(p) => Some((s.subrange(from, p as int), s.subrange(p + 1, to))),
            None => None,
        },
{
    let w = s.subrange(from, to);
    match r {
        Some(p) => {
            assert forall|k: int| 0 <= k < p - from implies #[trigger] w[k] != c by {
                assert(w[k] == s[from + k]);
            }
            lemma_split_once_found(w, c, p - from);
            assert(w.take(p - from) =~= s.subrange(from, p as int));
            assert(w.skip(p - from + 1) =~= s.subrange(p + 1, to));
        },
        None => {
            assert forall|k: int| 0 <= k < w.len() implies #[trigger] w[k] != c by {
                assert(w[k] == s[from + k]);
            }
            lemma_split_once_missing(w, c);
        },
    }
}

} // verus!
