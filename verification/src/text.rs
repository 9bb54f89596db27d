//! Character-level views of names: fields separated by a delimiter, affixes.
use vstd::prelude::*;

verus! {

/// Position of the first `sep` in `s`, or `s.len()` when `s` holds none.
pub open spec fn sep_pos(s: Seq<char>, sep: char) -> nat
    decreases s.len(),
{
    if s.len() == 0 {
        0
    } else if s[0] == sep {
        0
    } else {
        1 + sep_pos(s.drop_first(), sep)
    }
}

/// `sep_pos` is the first occurrence of `sep`.
pub proof fn lemma_sep_pos(s: Seq<char>, sep: char)
    ensures
        sep_pos(s, sep) <= s.len(),
        forall|j: int| 0 <= j < sep_pos(s, sep) ==> s[j] != sep,
        sep_pos(s, sep) < s.len() ==> s[sep_pos(s, sep) as int] == sep,
    decreases s.len(),
{
    if s.len() > 0 && s[0] != sep {
        lemma_sep_pos(s.drop_first(), sep);
        assert forall|j: int| 0 <= j < sep_pos(s, sep) implies s[j] != sep by {
            if j > 0 {
                assert(s[j] == s.drop_first()[j - 1]);
            }
        }
    }
}

/// Returns the position of the first `sep` in `s`, or its length in chars.
pub fn find_char(s: &str, sep: char) -> (r: usize)
    ensures
        r == sep_pos(s@, sep),
{
    let n = s.unicode_len();
    let mut i: usize = 0;
    while i < n
        invariant
            n == s@.len(),
            i <= n,
            forall|j: int| 0 <= j < i ==> s@[j] != sep,
        decreases n - i,
    {
        if s.get_char(i) == sep {
            proof { lemma_sep_pos_unique(s@, sep, i as int); }
            return i;
        }
        i = i + 1;
    }
    proof { lemma_sep_pos_unique(s@, sep, n as int); }
    n
}

/// Any position before which no `sep` occurs, and that holds `sep` or ends `s`, is `sep_pos`.
pub proof fn lemma_sep_pos_unique(s: Seq<char>, sep: char, p: int)
    requires
        0 <= p <= s.len(),
        forall|j: int| 0 <= j < p ==> s[j] != sep,
        p < s.len() ==> s[p] == sep,
    ensures
        sep_pos(s, sep) == p,
{
    lemma_sep_pos(s, sep);
    if sep_pos(s, sep) < p {
        assert(s[sep_pos(s, sep) as int] != sep);
    }
    if p < sep_pos(s, sep) {
        assert(s[p] != sep);
    }
}


/// The text before the first `sep` (all of `s` when it holds none).
pub open spec fn first_field(s: Seq<char>, sep: char) -> Seq<char> {
    s.take(sep_pos(s, sep) as int)
}

/// The text between the first and the second `sep` (or the end), when `s` holds a `sep`.
pub open spec fn second_field(s: Seq<char>, sep: char) -> Option<Seq<char>> {
    let p = sep_pos(s, sep);
    if p < s.len() {
        Some(first_field(s.skip(p + 1 as int), sep))
    } else {
        None
    }
}

/// `s` with `prefix` removed from its front and `suffix` from what remains,
/// when `s` starts with `prefix` and the rest ends with `suffix`.
pub open spec fn strip_affixes(s: Seq<char>, prefix: Seq<char>, suffix: Seq<char>) -> Option<
    Seq<char>,
> {
    if prefix.is_prefix_of(s) && suffix.is_suffix_of(s.skip(prefix.len() as int)) {
        Some(s.subrange(prefix.len() as int, s.len() - suffix.len()))
    } else {
        None
    }
}

/// The first field of `s`: everything before the first `sep`.
pub fn first_field_of(s: &str, sep: char) -> (r: String)
    ensures
        r@ == first_field(s@, sep),
{
    let p = find_char(s, sep);
    proof { lemma_sep_pos(s@, sep); }
    s.substring_char(0, p).to_owned()
}

/// The second field of `s`, if `s` holds `sep`.
pub fn second_field_of(s: &str, sep: char) -> (r: Option<String>)
    ensures
        match r {
            Some(f) => second_field(s@, sep) == Some(f@),
            None => second_field(s@, sep) is None,
        },
{
    let n = s.unicode_len();
    let p = find_char(s, sep);
    proof { lemma_sep_pos(s@, sep); }
    if p < n {
        let rest = s.substring_char(p + 1, n);
        assert(rest@ =~= s@.skip(p + 1));
        Some(first_field_of(rest, sep))
    } else {
        None
    }
}

/// `s` without `prefix` at its front and `suffix` at its end, if it has both.
pub fn strip_affixes_of(s: &str, prefix: &str, suffix: &str) -> (r: Option<String>)
    ensures
        match r {
            Some(m) => strip_affixes(s@, prefix@, suffix@) == Some(m@),
            None => strip_affixes(s@, prefix@, suffix@) is None,
        },
{
    let n = s.unicode_len();
    let pn = prefix.unicode_len();
    let sn = suffix.unicode_len();
    if pn > n {
        return None;
    }
    let head = s.substring_char(0, pn).to_owned();
    let pre = prefix.to_owned();
    if !(head == pre) {
        return None;
    }
    if sn > n - pn {
        return None;
    }
    let tail = s.substring_char(n - sn, n).to_owned();
    let suf = suffix.to_owned();
    if !(tail == suf) {
        assert(!(suffix@ =~= s@.skip(pn as int).subrange(
            (s@.len() - pn - sn) as int,
            (s@.len() - pn) as int,
        ))) by {
            if suffix@ =~= s@.skip(pn as int).subrange(
                (s@.len() - pn - sn) as int,
                (s@.len() - pn) as int,
            ) {
                assert(tail@ =~= suf@);
            }
        }
        return None;
    }
    assert(suffix@ =~= s@.skip(pn as int).subrange(
        (s@.len() - pn - sn) as int,
        (s@.len() - pn) as int,
    ));
    Some(s.substring_char(pn, n - sn).to_owned())
}

/// `a` followed by `b`.
pub fn concat(a: &str, b: &str) -> (r: String)
    ensures
        r@ == a@ + b@,
{
    a.to_owned().concat(b)
}


/// How many times `b` occurs in `names`.
pub open spec fn count_spec(names: Seq<Seq<char>>, b: Seq<char>) -> nat
    decreases names.len(),
{
    if names.len() == 0 {
        0
    } else {
        count_spec(names.drop_last(), b) + if names.last() == b {
            1nat
        } else {
            0nat
        }
    }
}

/// `n` copies of `x`.
pub open spec fn repeat_spec(x: Seq<char>, n: nat) -> Seq<Seq<char>> {
    Seq::new(n, |_i: int| x)
}

/// A name occurs in a list exactly when it is counted there.
pub proof fn lemma_count_contains(names: Seq<Seq<char>>, b: Seq<char>)
    ensures
        count_spec(names, b) > 0 <==> names.contains(b),
    decreases names.len(),
{
    if names.len() > 0 {
        let rest = names.drop_last();
        lemma_count_contains(rest, b);
        if rest.contains(b) {
            let k = choose|k: int| 0 <= k < rest.len() && rest[k] == b;
            assert(names[k] == b);
        }
        if names.contains(b) && names.last() != b {
            let k = choose|k: int| 0 <= k < names.len() && names[k] == b;
            assert(rest[k] == b);
        }
    }
}

/// Joining `x` and `y` with `sep`, where `x` holds no `sep`, puts `x` in the
/// first field and the first field of `y` in the second.
pub proof fn lemma_fields_of_joined(x: Seq<char>, sep: char, y: Seq<char>)
    requires
        !x.contains(sep),
    ensures
        first_field(x + seq![sep] + y, sep) == x,
        second_field(x + seq![sep] + y, sep) == Some(first_field(y, sep)),
{
    let s = x + seq![sep] + y;
    assert forall|j: int| 0 <= j < x.len() implies s[j] != sep by {
        assert(s[j] == x[j]);
    }
    lemma_sep_pos_unique(s, sep, x.len() as int);
    assert(s.take(x.len() as int) =~= x);
    assert(s.skip(x.len() + 1 as int) =~= y);
}

/// Removing the affixes that were put around `e` gives `e` back.
pub proof fn lemma_strip_affixes_of_joined(prefix: Seq<char>, e: Seq<char>, suffix: Seq<char>)
    ensures
        strip_affixes(prefix + e + suffix, prefix, suffix) == Some(e),
{
    let s = prefix + e + suffix;
    assert(prefix =~= s.subrange(0, prefix.len() as int));
    assert(s.skip(prefix.len() as int) =~= e + suffix);
    assert(suffix =~= (e + suffix).subrange(e.len() as int, (e + suffix).len() as int));
    assert(s.subrange(prefix.len() as int, s.len() - suffix.len()) =~= e);
}

} // verus!
