//! Character-level helpers on strings: prefixes, substrings, equality and
//! lexicographic order, each proved against a spec over `Seq<char>`.
use vstd::prelude::*;
use vstd::std_specs::iter::IteratorSpec;

verus! {

/// `p` is a prefix of `s`.
pub open spec fn is_prefix(p: Seq<char>, s: Seq<char>) -> bool {
    p.len() <= s.len() && s.subrange(0, p.len() as int) == p
}

/// `pat` occurs in `s` starting at index `i`.
pub open spec fn occurs_at(s: Seq<char>, pat: Seq<char>, i: int) -> bool {
    0 <= i && i + pat.len() <= s.len() && s.subrange(i, i + pat.len()) == pat
}

/// `pat` occurs somewhere in `s`.
pub open spec fn contains_seq(s: Seq<char>, pat: Seq<char>) -> bool {
    exists|i: int| occurs_at(s, pat, i)
}

/// The characters of a string, one by one.
pub fn chars_of(s: &str) -> (v: Vec<char>)
    ensures
        v@ == s@,
{
    broadcast use vstd::string::group_string_axioms;
    let mut it = s.chars();
    let mut v: Vec<char> = Vec::new();
    loop
        invariant
            v@ + it.remaining() == s@,
            it.obeys_prophetic_iter_laws(),
            it.decrease() is Some,
        decreases it.decrease()->0,
    {
        let c = it.next();
        match c {
            Some(ch) => {
                v.push(ch);
            },
            None => {
                return v;
            },
        }
    }
}

/// Whether `a` and `b` agree on their first `i` characters.
pub open spec fn agree_upto(a: Seq<char>, b: Seq<char>, i: int) -> bool {
    forall|k: int| 0 <= k < i ==> a[k] == b[k]
}

/// `i` is the place where `a` first falls below `b`: either `a` ends there
/// and `b` goes on, or both go on and `a` has the smaller character there.
pub open spec fn falls_below_at(a: Seq<char>, b: Seq<char>, i: int) -> bool {
    &&& 0 <= i <= a.len()
    &&& i <= b.len()
    &&& agree_upto(a, b, i)
    &&& if i == a.len() {
        i < b.len()
    } else {
        i < b.len() && (a[i] as int) < (b[i] as int)
    }
}

/// Strict lexicographic order by code point, the order of `str` in Rust
/// (UTF-8 keeps the order of code points).
pub open spec fn lex_lt(a: Seq<char>, b: Seq<char>) -> bool {
    exists|i: int| #[trigger] falls_below_at(a, b, i)
}

/// Lexicographic order, reflexive.
pub open spec fn lex_le(a: Seq<char>, b: Seq<char>) -> bool {
    a == b || lex_lt(a, b)
}

/// The strict order never holds both ways.
pub proof fn lemma_lex_asymmetric(a: Seq<char>, b: Seq<char>)
    requires
        lex_lt(a, b),
    ensures
        !lex_lt(b, a),
{
    let i = choose|i: int| falls_below_at(a, b, i);
    if lex_lt(b, a) {
        let j = choose|j: int| falls_below_at(b, a, j);
        if i < j {
            assert(b[i] == a[i]);
        } else if j < i {
            assert(a[j] == b[j]);
        }
    }
}

proof fn lemma_lex_total_from(a: Seq<char>, b: Seq<char>, i: int)
    requires
        0 <= i <= a.len(),
        i <= b.len(),
        agree_upto(a, b, i),
        a != b,
    ensures
        lex_lt(a, b) || lex_lt(b, a),
    decreases a.len() - i,
{
    if i == a.len() || i == b.len() {
        if a.len() == b.len() {
            assert(a =~= b);
        } else if i == a.len() {
            assert(falls_below_at(a, b, i));
        } else {
            assert(falls_below_at(b, a, i));
        }
    } else if a[i] != b[i] {
        if (a[i] as int) < (b[i] as int) {
            assert(falls_below_at(a, b, i));
        } else {
            assert(falls_below_at(b, a, i));
        }
    } else {
        lemma_lex_total_from(a, b, i + 1);
    }
}

/// Two different strings are ordered one way or the other.
pub proof fn lemma_lex_total(a: Seq<char>, b: Seq<char>)
    ensures
        lex_le(a, b) || lex_lt(b, a),
{
    if a != b {
        lemma_lex_total_from(a, b, 0);
    }
}

/// The strict order is transitive.
pub proof fn lemma_lex_transitive(a: Seq<char>, b: Seq<char>, c: Seq<char>)
    requires
        lex_lt(a, b),
        lex_lt(b, c),
    ensures
        lex_lt(a, c),
{
    let i = choose|i: int| falls_below_at(a, b, i);
    let j = choose|j: int| falls_below_at(b, c, j);
    if i < j {
        assert(falls_below_at(a, c, i));
    } else if j < i {
        assert(a[j] == b[j]);
        assert(falls_below_at(a, c, j));
    } else {
        assert(falls_below_at(a, c, i));
    }
}

/// The reflexive order is transitive.
pub proof fn lemma_lex_le_transitive(a: Seq<char>, b: Seq<char>, c: Seq<char>)
    requires
        lex_le(a, b),
        lex_le(b, c),
    ensures
        lex_le(a, c),
{
    if a != b && b != c {
        lemma_lex_transitive(a, b, c);
    }
}

/// Compares two character sequences in the order of `lex_lt`.
pub fn chars_lt(a: &Vec<char>, b: &Vec<char>) -> (r: bool)
    ensures
        r == lex_lt(a@, b@),
{
    let mut i: usize = 0;
    while i < a.len() && i < b.len()
        invariant
            i <= a.len(),
            i <= b.len(),
            agree_upto(a@, b@, i as int),
        decreases a.len() - i,
    {
        let x = a[i];
        let y = b[i];
        if x != y {
            if x < y {
                assert(falls_below_at(a@, b@, i as int));
                return true;
            } else {
                proof {
                    assert(falls_below_at(b@, a@, i as int));
                    lemma_lex_asymmetric(b@, a@);
                }
                return false;
            }
        }
        i = i + 1;
    }
    if i == a.len() && i < b.len() {
        assert(falls_below_at(a@, b@, i as int));
        true
    } else {
        proof {
            if i == a.len() && i == b.len() {
                assert(a@ =~= b@);
            } else {
                assert(i == b.len() && i < a.len());
                assert(agree_upto(b@, a@, i as int));
                assert(falls_below_at(b@, a@, i as int));
                lemma_lex_asymmetric(b@, a@);
            }
        }
        false
    }
}

/// Compares two strings in the order of `lex_lt`.
pub fn str_lt(a: &str, b: &str) -> (r: bool)
    ensures
        r == lex_lt(a@, b@),
{
    let x = chars_of(a);
    let y = chars_of(b);
    chars_lt(&x, &y)
}

/// Whether `prefix` is a prefix of `s`.
pub fn starts_with(s: &str, prefix: &str) -> (r: bool)
    ensures
        r == is_prefix(prefix@, s@),
{
    let x = chars_of(s);
    let p = chars_of(prefix);
    if p.len() > x.len() {
        return false;
    }
    let mut i: usize = 0;
    while i < p.len()
        invariant
            x@ == s@,
            p@ == prefix@,
            p.len() <= x.len(),
            i <= p.len(),
            agree_upto(x@, p@, i as int),
        decreases p.len() - i,
    {
        if x[i] != p[i] {
            proof {
                if x@.subrange(0, p@.len() as int) == p@ {
                    assert(x@.subrange(0, p@.len() as int)[i as int] == x@[i as int]);
                }
            }
            return false;
        }
        i = i + 1;
    }
    assert(x@.subrange(0, p@.len() as int) =~= p@);
    true
}

/// Whether `pat` occurs at index `i` of `s`.
fn chars_match_at(s: &Vec<char>, pat: &Vec<char>, i: usize) -> (r: bool)
    requires
        i + pat.len() <= s.len(),
    ensures
        r == occurs_at(s@, pat@, i as int),
{
    let mut k: usize = 0;
    while k < pat.len()
        invariant
            i + pat.len() <= s.len(),
            k <= pat.len(),
            forall|t: int| 0 <= t < k ==> s@[i + t] == pat@[t],
        decreases pat.len() - k,
    {
        if s[i + k] != pat[k] {
            proof {
                if s@.subrange(i as int, i + pat.len()) == pat@ {
                    assert(s@.subrange(i as int, i + pat.len())[k as int] == s@[i + k]);
                }
            }
            return false;
        }
        k = k + 1;
    }
    assert(s@.subrange(i as int, i + pat.len()) =~= pat@);
    true
}

/// Whether `pat` occurs in `s`.
pub fn contains(s: &str, pat: &str) -> (r: bool)
    ensures
        r == contains_seq(s@, pat@),
{
    let x = chars_of(s);
    let p = chars_of(pat);
    if p.len() > x.len() {
        return false;
    }
    let last = x.len() - p.len();
    let mut i: usize = 0;
    loop
        invariant
            x@ == s@,
            p@ == pat@,
            last == x.len() - p.len(),
            p.len() <= x.len(),
            i <= last,
            forall|t: int| 0 <= t < i ==> !occurs_at(x@, p@, t),
        decreases last - i,
    {
        if chars_match_at(&x, &p, i) {
            assert(occurs_at(x@, p@, i as int));
            return true;
        }
        if i == last {
            return false;
        }
        i = i + 1;
    }
}

/// The view of an optional string.
pub open spec fn opt_view(o: Option<String>) -> Option<Seq<char>> {
    match o {
        Some(s) => Some(s@),
        None => None,
    }
}

/// The characters of an optional string, or none when it is absent.
pub open spec fn or_empty(o: Option<String>) -> Seq<char> {
    match o {
        Some(s) => s@,
        None => Seq::empty(),
    }
}

/// Whether two strings hold the same characters.
pub fn str_eq(a: &str, b: &str) -> (r: bool)
    ensures
        r == (a@ == b@),
{
    a.to_owned() == b.to_owned()
}

/// Whether an optional string is present and holds the characters of `lit`.
pub fn is_some_str(o: &Option<String>, lit: &str) -> (r: bool)
    ensures
        r == (opt_view(*o) == Some(lit@)),
{
    match o {
        Some(s) => str_eq(s.as_str(), lit),
        None => false,
    }
}

/// An optional string, or the empty string when it is absent.
pub fn string_or_empty(o: &Option<String>) -> (r: String)
    ensures
        r@ == or_empty(*o),
{
    match o {
        Some(s) => s.clone(),
        None => String::new(),
    }
}

}
