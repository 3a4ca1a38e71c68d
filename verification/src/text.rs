//! Character-level utilities over strings: equality, prefix, substring
//! search, single-character find and replace, and case mapping.
//!
//! Exec code works on `Vec<char>` snapshots of a `&str`, whose view is the
//! same `Seq<char>` as the string's, so every contract is stated over the
//! string views themselves.
use vstd::prelude::*;
use vstd::string::*;

verus! {

/// The views of a sequence of owned strings.
pub open spec fn views(v: Seq<String>) -> Seq<Seq<char>> {
    v.map_values(|s: String| s@)
}

/// `n` occurs as a contiguous run of `h` starting at `i`.
pub open spec fn sub_at(h: Seq<char>, n: Seq<char>, i: int) -> bool {
    0 <= i && i + n.len() <= h.len() && h.subrange(i, i + n.len() as int) == n
}

/// `n` occurs somewhere inside `h`.
pub open spec fn has_sub(h: Seq<char>, n: Seq<char>) -> bool {
    exists|i: int| sub_at(h, n, i)
}

/// Index of the first occurrence of `c` in `s`, or `s.len()` if absent.
pub open spec fn char_idx(s: Seq<char>, c: char) -> int
    decreases s.len(),
{
    if s.len() == 0 {
        0
    } else if s[0] == c {
        0
    } else {
        1 + char_idx(s.drop_first(), c)
    }
}

/// Index of the first occurrence of `c` in `s` at or after `from`,
/// or `s.len()` if there is none.
pub open spec fn char_idx_from(s: Seq<char>, c: char, from: int) -> int {
    from + char_idx(s.skip(from), c)
}

pub proof fn lemma_char_idx(s: Seq<char>, c: char)
    ensures
        0 <= char_idx(s, c) <= s.len(),
        char_idx(s, c) < s.len() ==> s[char_idx(s, c)] == c,
        forall|k: int| 0 <= k < char_idx(s, c) ==> s[k] != c,
    decreases s.len(),
{
    if s.len() != 0 && s[0] != c {
        lemma_char_idx(s.drop_first(), c);
        assert forall|k: int| 0 <= k < char_idx(s, c) implies s[k] != c by {
            if k > 0 {
                assert(s.drop_first()[k - 1] == s[k]);
            }
        }
    }
}

pub proof fn lemma_char_idx_from(s: Seq<char>, c: char, from: int)
    requires
        0 <= from <= s.len(),
    ensures
        from <= char_idx_from(s, c, from) <= s.len(),
        char_idx_from(s, c, from) < s.len() ==> s[char_idx_from(s, c, from)] == c,
        forall|k: int| from <= k < char_idx_from(s, c, from) ==> s[k] != c,
{
    lemma_char_idx(s.skip(from), c);
    assert forall|k: int| from <= k < char_idx_from(s, c, from) implies s[k] != c by {
        assert(s.skip(from)[k - from] == s[k]);
    }
}

/// The characters of `s`, in order.
pub fn str_chars(s: &str) -> (r: Vec<char>)
    ensures
        r@ == s@,
{
    let n = s.unicode_len();
    let mut r: Vec<char> = Vec::new();
    let mut i: usize = 0;
    while i < n
        invariant
            n == s@.len(),
            i <= n,
            r@ == s@.subrange(0, i as int),
        decreases n - i,
    {
        r.push(s.get_char(i));
        i = i + 1;
        proof {
            assert(r@ =~= s@.subrange(0, i as int));
        }
    }
    proof {
        assert(r@ =~= s@);
    }
    r
}

/// Relies on `String: FromIterator<char>`: collecting characters yields the
/// string holding exactly those characters in order.
#[verifier::external_body]
pub fn chars_string(v: &Vec<char>) -> (r: String)
    ensures
        r@ == v@,
{
    v.iter().collect()
}

/// Whether two string slices hold the same characters.
pub fn str_eq(a: &str, b: &str) -> (r: bool)
    ensures
        r == (a@ == b@),
{
    let av = str_chars(a);
    let bv = str_chars(b);
    if av.len() != bv.len() {
        return false;
    }
    let mut i: usize = 0;
    while i < av.len()
        invariant
            av@ == a@,
            bv@ == b@,
            av@.len() == bv@.len(),
            i <= av@.len(),
            forall|j: int| 0 <= j < i ==> av@[j] == bv@[j],
        decreases av@.len() - i,
    {
        if av[i] != bv[i] {
            return false;
        }
        i = i + 1;
    }
    proof {
        assert(a@ =~= b@);
    }
    true
}

/// Whether `p` is a prefix of `s`.
pub fn str_starts_with(s: &str, p: &str) -> (r: bool)
    ensures
        r == p@.is_prefix_of(s@),
{
    let sv = str_chars(s);
    let pv = str_chars(p);
    if pv.len() > sv.len() {
        return false;
    }
    let mut i: usize = 0;
    while i < pv.len()
        invariant
            sv@ == s@,
            pv@ == p@,
            pv@.len() <= sv@.len(),
            i <= pv@.len(),
            forall|j: int| 0 <= j < i ==> sv@[j] == pv@[j],
        decreases pv@.len() - i,
    {
        if sv[i] != pv[i] {
            assert(s@.subrange(0, p@.len() as int)[i as int] != p@[i as int]);
            return false;
        }
        i = i + 1;
    }
    proof {
        assert(s@.subrange(0, p@.len() as int) =~= p@);
    }
    true
}

/// The remainder of `s` after the prefix `p`, when `p` is indeed a prefix.
pub fn str_strip_prefix(s: &str, p: &str) -> (r: Option<String>)
    ensures
        r is Some <==> p@.is_prefix_of(s@),
        r is Some ==> r->0@ == s@.skip(p@.len() as int),
{
    if str_starts_with(s, p) {
        let sn = s.unicode_len();
        let pn = p.unicode_len();
        let rest = s.substring_char(pn, sn);
        proof {
            assert(rest@ =~= s@.skip(p@.len() as int));
        }
        Some(rest.to_owned())
    } else {
        None
    }
}

fn match_at(hv: &Vec<char>, nv: &Vec<char>, i: usize) -> (r: bool)
    requires
        i + nv@.len() <= hv@.len(),
        hv@.len() <= usize::MAX,
    ensures
        r == sub_at(hv@, nv@, i as int),
{
    let mut j: usize = 0;
    while j < nv.len()
        invariant
            i + nv@.len() <= hv@.len(),
            hv@.len() <= usize::MAX,
            j <= nv@.len(),
            forall|k: int| 0 <= k < j ==> hv@[i + k] == nv@[k],
        decreases nv@.len() - j,
    {
        if hv[i + j] != nv[j] {
            assert(hv@.subrange(i as int, i + nv@.len() as int)[j as int] != nv@[j as int]);
            return false;
        }
        j = j + 1;
    }
    proof {
        assert(hv@.subrange(i as int, i + nv@.len() as int) =~= nv@);
    }
    true
}

/// Whether `n` occurs as a contiguous part of `h`.
pub fn str_contains(h: &str, n: &str) -> (r: bool)
    ensures
        r == has_sub(h@, n@),
{
    let hv = str_chars(h);
    let nv = str_chars(n);
    if nv.len() > hv.len() {
        proof {
            assert(forall|i: int| !sub_at(hv@, nv@, i));
        }
        return false;
    }
    if nv.len() == 0 {
        proof {
            assert(hv@.subrange(0, 0) =~= nv@);
            assert(sub_at(hv@, nv@, 0));
        }
        return true;
    }
    let last = hv.len() - nv.len();
    let mut i: usize = 0;
    while i <= last
        invariant
            hv@ == h@,
            nv@ == n@,
            nv@.len() >= 1,
            last == hv@.len() - nv@.len(),
            last < hv@.len() <= usize::MAX,
            i <= last + 1,
            forall|k: int| 0 <= k < i ==> !sub_at(hv@, nv@, k),
        decreases last + 1 - i,
    {
        if match_at(&hv, &nv, i) {
            return true;
        }
        i = i + 1;
    }
    proof {
        assert(forall|k: int| k > last ==> !sub_at(hv@, nv@, k));
    }
    false
}

/// The least index of `c` in `v` at or after `from`, or the length if absent.
pub fn find_char_from(v: &Vec<char>, c: char, from: usize) -> (r: usize)
    requires
        from <= v@.len(),
    ensures
        r == char_idx_from(v@, c, from as int),
        from <= r <= v@.len(),
        r < v@.len() ==> v@[r as int] == c,
        forall|k: int| from <= k < r ==> v@[k] != c,
{
    let mut i: usize = from;
    while i < v.len()
        invariant
            from <= i <= v@.len(),
            forall|k: int| from <= k < i ==> v@[k] != c,
        decreases v@.len() - i,
    {
        if v[i] == c {
            proof {
                lemma_char_idx_from(v@, c, from as int);
                let f = char_idx_from(v@, c, from as int);
                if f < i {
                    assert(v@[f] == c);
                } else if f > i {
                    assert(v@[i as int] != c);
                }
            }
            return i;
        }
        i = i + 1;
    }
    proof {
        lemma_char_idx_from(v@, c, from as int);
        let f = char_idx_from(v@, c, from as int);
        if f < v@.len() {
            assert(v@[f] == c);
        }
    }
    v.len()
}

/// `s` with every occurrence of `from` replaced by `to`.
pub fn str_replace_char(s: &str, from: char, to: char) -> (r: String)
    ensures
        r@ == s@.map_values(|c: char| if c == from { to } else { c }),
{
    let sv = str_chars(s);
    let mut out: Vec<char> = Vec::new();
    let mut i: usize = 0;
    while i < sv.len()
        invariant
            sv@ == s@,
            i <= sv@.len(),
            out@ == s@.subrange(0, i as int).map_values(|c: char| if c == from { to } else { c }),
        decreases sv@.len() - i,
    {
        let c = sv[i];
        if c == from {
            out.push(to);
        } else {
            out.push(c);
        }
        i = i + 1;
        proof {
            assert(out@ =~= s@.subrange(0, i as int).map_values(
                |c: char| if c == from { to } else { c },
            ));
        }
    }
    proof {
        assert(s@.subrange(0, s@.len() as int) =~= s@);
    }
    chars_string(&out)
}

/// Strict lexicographic order on character sequences, by scalar value.
pub open spec fn lex_lt(a: Seq<char>, b: Seq<char>) -> bool
    decreases a.len(),
{
    if b.len() == 0 {
        false
    } else if a.len() == 0 {
        true
    } else if a[0] == b[0] {
        lex_lt(a.drop_first(), b.drop_first())
    } else {
        a[0] < b[0]
    }
}

pub proof fn lemma_lex_lt_irrefl(a: Seq<char>)
    ensures
        !lex_lt(a, a),
    decreases a.len(),
{
    if a.len() > 0 {
        lemma_lex_lt_irrefl(a.drop_first());
    }
}

pub proof fn lemma_lex_lt_total(a: Seq<char>, b: Seq<char>)
    requires
        a != b,
    ensures
        lex_lt(a, b) || lex_lt(b, a),
    decreases a.len(),
{
    if a.len() == 0 || b.len() == 0 {
        if a.len() == 0 && b.len() == 0 {
            assert(a =~= b);
        }
    } else if a[0] == b[0] {
        if a.drop_first() == b.drop_first() {
            assert(a.drop_first().len() == b.drop_first().len());
            assert(a.len() == b.len());
            assert forall|i: int| 0 <= i < a.len() implies a[i] == b[i] by {
                if i > 0 {
                    assert(a.drop_first()[i - 1] == a[i]);
                    assert(b.drop_first()[i - 1] == b[i]);
                }
            }
            assert(a =~= b);
        } else {
            lemma_lex_lt_total(a.drop_first(), b.drop_first());
        }
    } else {

    }
}

pub proof fn lemma_lex_lt_trans(a: Seq<char>, b: Seq<char>, c: Seq<char>)
    requires
        lex_lt(a, b),
        lex_lt(b, c),
    ensures
        lex_lt(a, c),
    decreases a.len(),
{
    if a.len() == 0 {
        assert(c.len() > 0);
    } else {
        assert(b.len() > 0 && c.len() > 0);
        if a[0] == b[0] && b[0] == c[0] {
            lemma_lex_lt_trans(a.drop_first(), b.drop_first(), c.drop_first());
        }
    }
}

/// Whether `a` comes strictly before `b` in lexicographic order.
pub fn str_lt(a: &str, b: &str) -> (r: bool)
    ensures
        r == lex_lt(a@, b@),
{
    let av = str_chars(a);
    let bv = str_chars(b);
    proof {
        assert(a@.skip(0) =~= a@);
        assert(b@.skip(0) =~= b@);
    }
    let mut i: usize = 0;
    while i < av.len() && i < bv.len()
        invariant
            av@ == a@,
            bv@ == b@,
            i <= av@.len(),
            i <= bv@.len(),
            lex_lt(a@, b@) == lex_lt(a@.skip(i as int), b@.skip(i as int)),
        decreases av@.len() - i,
    {
        let ca = av[i];
        let cb = bv[i];
        proof {
            assert(a@.skip(i as int).drop_first() =~= a@.skip(i + 1));
            assert(b@.skip(i as int).drop_first() =~= b@.skip(i + 1));
        }
        if ca != cb {
            return ca < cb;
        }
        i = i + 1;
    }
    i < bv.len()
}

/// The Unicode lowercase mapping of a string, a function of its characters alone.
pub uninterp spec fn lower_of(s: Seq<char>) -> Seq<char>;

/// The Unicode uppercase mapping of a string, a function of its characters alone.
pub uninterp spec fn upper_of(s: Seq<char>) -> Seq<char>;

/// Relies on `str::to_lowercase`: the result is the Unicode lowercase
/// mapping of the input, depending on the input characters alone.
#[verifier::external_body]
pub fn to_lower(s: &str) -> (r: String)
    ensures
        r@ == lower_of(s@),
{
    s.to_lowercase()
}

/// Relies on `str::to_uppercase`: the result is the Unicode uppercase
/// mapping of the input, depending on the input characters alone.
#[verifier::external_body]
pub fn to_upper(s: &str) -> (r: String)
    ensures
        r@ == upper_of(s@),
{
    s.to_uppercase()
}

/// Whether some string of `v` holds the characters `t`.
pub fn vec_contains_str(v: &Vec<String>, t: &str) -> (r: bool)
    ensures
        r == views(v@).contains(t@),
{
    let mut i: usize = 0;
    while i < v.len()
        invariant
            i <= v@.len(),
            forall|j: int| 0 <= j < i ==> views(v@)[j] != t@,
        decreases v@.len() - i,
    {
        if str_eq(v[i].as_str(), t) {
            assert(views(v@)[i as int] == t@);
            return true;
        }
        i = i + 1;
    }
    false
}

} // verus!
