use vstd::prelude::*;

verus! {

// Character-sequence reasoning used across the crate: finding separators,
// prefix/suffix tests, case-insensitive comparison of hex digests, and a
// total lexicographic order on names.

/// Index of the first occurrence of `c` in `s`, or `s.len()` if absent.
pub open spec fn find_first(s: Seq<char>, c: char) -> int
    decreases s.len(),
{
    if s.len() == 0 {
        0
    } else if s[0] == c {
        0
    } else {
        1 + find_first(s.drop_first(), c)
    }
}

/// Index of the last occurrence of `c` in `s`, or `-1` if absent.
pub open spec fn find_last(s: Seq<char>, c: char) -> int
    decreases s.len(),
{
    if s.len() == 0 {
        -1
    } else if s[s.len() - 1] == c {
        s.len() - 1
    } else {
        find_last(s.take(s.len() - 1), c)
    }
}

/// Everything before the first occurrence of `c`; all of `s` if `c` is absent.
pub open spec fn before_first(s: Seq<char>, c: char) -> Seq<char> {
    s.take(find_first(s, c))
}

/// Everything after the last occurrence of `c`, or `None` if `c` is absent.
pub open spec fn after_last(s: Seq<char>, c: char) -> Option<Seq<char>> {
    if find_last(s, c) == -1 {
        None
    } else {
        Some(s.skip(find_last(s, c) + 1))
    }
}

/// Everything before the last occurrence of `c`, or `None` if `c` is absent.
pub open spec fn before_last(s: Seq<char>, c: char) -> Option<Seq<char>> {
    if find_last(s, c) == -1 {
        None
    } else {
        Some(s.take(find_last(s, c)))
    }
}

/// The final path segment: what follows the last `/`, or all of `s`.
pub open spec fn last_segment(s: Seq<char>) -> Seq<char> {
    match after_last(s, '/') {
        Some(t) => t,
        None => s,
    }
}

/// The leading path segment: what precedes the first `/`, or all of `s`.
pub open spec fn first_segment(s: Seq<char>) -> Seq<char> {
    before_first(s, '/')
}

pub open spec fn starts_with(s: Seq<char>, prefix: Seq<char>) -> bool {
    prefix.len() <= s.len() && s.take(prefix.len() as int) == prefix
}

pub open spec fn ends_with(s: Seq<char>, suffix: Seq<char>) -> bool {
    suffix.len() <= s.len() && s.skip(s.len() - suffix.len()) == suffix
}

/// The code of `c` with an ASCII capital letter folded to its small form.
pub open spec fn lower_code(c: char) -> int {
    if 'A' <= c && c <= 'Z' {
        c as int + 32
    } else {
        c as int
    }
}

/// Equality of two character sequences up to ASCII case.
pub open spec fn eq_ignore_ascii_case(a: Seq<char>, b: Seq<char>) -> bool {
    a.len() == b.len() && forall|i: int| 0 <= i < a.len() ==> lower_code(a[i]) == lower_code(b[i])
}

/// Strict lexicographic order on character sequences, by code point.
pub open spec fn chars_lt(a: Seq<char>, b: Seq<char>) -> bool
    decreases a.len(),
{
    if b.len() == 0 {
        false
    } else if a.len() == 0 {
        true
    } else if a[0] < b[0] {
        true
    } else if a[0] == b[0] {
        chars_lt(a.drop_first(), b.drop_first())
    } else {
        false
    }
}

pub proof fn lemma_find_first(s: Seq<char>, c: char)
    ensures
        0 <= find_first(s, c) <= s.len(),
        find_first(s, c) < s.len() ==> s[find_first(s, c)] == c,
        forall|k: int| 0 <= k < find_first(s, c) ==> s[k] != c,
    decreases s.len(),
{
    if s.len() != 0 && s[0] != c {
        lemma_find_first(s.drop_first(), c);
        assert(forall|k: int| 1 <= k < s.len() ==> #[trigger] s[k] == s.drop_first()[k - 1]);
    }
}

pub proof fn lemma_find_last(s: Seq<char>, c: char)
    ensures
        -1 <= find_last(s, c) < s.len(),
        find_last(s, c) >= 0 ==> s[find_last(s, c)] == c,
        forall|k: int| find_last(s, c) < k < s.len() ==> s[k] != c,
    decreases s.len(),
{
    if s.len() != 0 && s[s.len() - 1] != c {
        lemma_find_last(s.take(s.len() - 1), c);
        assert(forall|k: int| 0 <= k < s.len() - 1 ==> s.take(s.len() - 1)[k] == s[k]);
    }
}

pub proof fn lemma_chars_lt_irreflexive(a: Seq<char>)
    ensures
        !chars_lt(a, a),
    decreases a.len(),
{
    if a.len() > 0 {
        lemma_chars_lt_irreflexive(a.drop_first());
    }
}

pub proof fn lemma_chars_lt_total(a: Seq<char>, b: Seq<char>)
    ensures
        chars_lt(a, b) || chars_lt(b, a) || a == b,
    decreases a.len(),
{
    if a.len() == 0 && b.len() == 0 {
        assert(a =~= b);
    } else if a.len() > 0 && b.len() > 0 {
        if a[0] == b[0] {
            lemma_chars_lt_total(a.drop_first(), b.drop_first());
            if a.drop_first() == b.drop_first() {
                assert(a.len() == b.len());
                assert(forall|i: int| 1 <= i < a.len() ==> #[trigger] a[i] == a.drop_first()[i - 1]);
                assert(forall|i: int| 1 <= i < b.len() ==> #[trigger] b[i] == b.drop_first()[i - 1]);
                assert(a =~= b);
            }
        }
    }
}

pub proof fn lemma_chars_lt_transitive(a: Seq<char>, b: Seq<char>, c: Seq<char>)
    requires
        chars_lt(a, b),
        chars_lt(b, c),
    ensures
        chars_lt(a, c),
    decreases a.len(),
{
    if a.len() > 0 && b.len() > 0 && c.len() > 0 {
        if a[0] == b[0] && b[0] == c[0] {
            lemma_chars_lt_transitive(a.drop_first(), b.drop_first(), c.drop_first());
        }
    }
}

/// A directory path and a file name joined with a single `/` between them.
pub open spec fn join_path_spec(dir: Seq<char>, file: Seq<char>) -> Seq<char> {
    if dir.len() == 0 {
        file
    } else if dir[dir.len() - 1] == '/' {
        dir + file
    } else {
        dir + "/"@ + file
    }
}

/// Sharing a common prefix of length `i`, two sequences compare as their
/// remainders past `i` do.
pub proof fn lemma_chars_lt_skip(a: Seq<char>, b: Seq<char>, i: int)
    requires
        0 <= i <= a.len(),
        i <= b.len(),
        forall|k: int| 0 <= k < i ==> a[k] == b[k],
    ensures
        chars_lt(a, b) == chars_lt(a.skip(i), b.skip(i)),
    decreases i,
{
    if i > 0 {
        assert(a.len() > 0 && b.len() > 0 && a[0] == b[0]);
        assert(chars_lt(a, b) == chars_lt(a.drop_first(), b.drop_first()));
        assert(forall|k: int| 0 <= k < i - 1 ==> a.drop_first()[k] == b.drop_first()[k]);
        lemma_chars_lt_skip(a.drop_first(), b.drop_first(), i - 1);
        assert(a.drop_first().skip(i - 1) =~= a.skip(i));
        assert(b.drop_first().skip(i - 1) =~= b.skip(i));
    } else {
        assert(a.skip(0) =~= a);
        assert(b.skip(0) =~= b);
    }
}

pub fn str_eq(a: &str, b: &str) -> (r: bool)
    ensures
        r == (a@ == b@),
{
    let alen = a.unicode_len();
    let blen = b.unicode_len();
    if alen != blen {
        return false;
    }
    let mut i: usize = 0;
    while i < alen
        invariant
            i <= alen,
            alen == a@.len(),
            alen == b@.len(),
            forall|k: int| 0 <= k < i ==> a@[k] == b@[k],
        decreases alen - i,
    {
        let ca = a.get_char(i);
        let cb = b.get_char(i);
        if ca != cb {
            return false;
        }
        i += 1;
    }
    proof {
        assert(a@ =~= b@);
    }
    true
}

pub fn starts_with_str(s: &str, prefix: &str) -> (r: bool)
    ensures
        r == starts_with(s@, prefix@),
{
    let n = prefix.unicode_len();
    let m = s.unicode_len();
    if n > m {
        return false;
    }
    let mut i: usize = 0;
    while i < n
        invariant
            i <= n,
            n <= m,
            m == s@.len(),
            n == prefix@.len(),
            forall|k: int| 0 <= k < i ==> s@[k] == prefix@[k],
        decreases n - i,
    {
        let cs = s.get_char(i);
        let cp = prefix.get_char(i);
        if cs != cp {
            proof {
                assert(s@.take(n as int)[i as int] != prefix@[i as int]);
            }
            return false;
        }
        i += 1;
    }
    proof {
        assert(s@.take(n as int) =~= prefix@);
    }
    true
}

pub fn ends_with_str(s: &str, suffix: &str) -> (r: bool)
    ensures
        r == ends_with(s@, suffix@),
{
    let n = suffix.unicode_len();
    let m = s.unicode_len();
    if n > m {
        return false;
    }
    let mut i: usize = 0;
    while i < n
        invariant
            i <= n,
            n <= m,
            m == s@.len(),
            n == suffix@.len(),
            forall|k: int| 0 <= k < i ==> s@[m - n + k] == suffix@[k],
        decreases n - i,
    {
        let cs = s.get_char(m - n + i);
        let cf = suffix.get_char(i);
        if cs != cf {
            proof {
                assert(s@.skip(m - n) [i as int] != suffix@[i as int]);
            }
            return false;
        }
        i += 1;
    }
    proof {
        assert(s@.skip(m - n) =~= suffix@);
    }
    true
}

pub fn eq_ignore_ascii_case_str(a: &str, b: &str) -> (r: bool)
    ensures
        r == eq_ignore_ascii_case(a@, b@),
{
    let alen = a.unicode_len();
    let blen = b.unicode_len();
    if alen != blen {
        return false;
    }
    let mut i: usize = 0;
    while i < alen
        invariant
            i <= alen,
            alen == a@.len(),
            alen == b@.len(),
            forall|k: int| 0 <= k < i ==> lower_code(a@[k]) == lower_code(b@[k]),
        decreases alen - i,
    {
        let ca = a.get_char(i);
        let cb = b.get_char(i);
        let xa: u32 = ca as u32;
        let xb: u32 = cb as u32;
        let la: u32 = if 65 <= xa && xa <= 90 {
            xa + 32
        } else {
            xa
        };
        let lb: u32 = if 65 <= xb && xb <= 90 {
            xb + 32
        } else {
            xb
        };
        if la != lb {
            return false;
        }
        i += 1;
    }
    true
}

pub fn lex_lt_str(a: &str, b: &str) -> (r: bool)
    ensures
        r == chars_lt(a@, b@),
{
    let alen = a.unicode_len();
    let blen = b.unicode_len();
    let mut i: usize = 0;
    loop
        invariant
            i <= alen,
            i <= blen,
            alen == a@.len(),
            blen == b@.len(),
            forall|k: int| 0 <= k < i ==> a@[k] == b@[k],
        decreases alen - i,
    {
        proof {
            lemma_chars_lt_skip(a@, b@, i as int);
        }
        if i == alen {
            return blen > i;
        }
        if i == blen {
            return false;
        }
        let ca = a.get_char(i);
        let cb = b.get_char(i);
        if ca < cb {
            return true;
        }
        if cb < ca {
            return false;
        }
        i += 1;
    }
}

pub fn find_first_char(s: &str, c: char) -> (r: usize)
    ensures
        r == find_first(s@, c),
{
    proof {
        lemma_find_first(s@, c);
    }
    let n = s.unicode_len();
    let mut i: usize = 0;
    while i < n
        invariant
            i <= n,
            n == s@.len(),
            forall|k: int| 0 <= k < i ==> s@[k] != c,
        decreases n - i,
    {
        if s.get_char(i) == c {
            proof {
                lemma_find_first(s@, c);
            }
            return i;
        }
        i += 1;
    }
    proof {
        lemma_find_first(s@, c);
    }
    n
}

pub fn find_last_char(s: &str, c: char) -> (r: Option<usize>)
    ensures
        match r {
            Some(j) => j == find_last(s@, c),
            None => find_last(s@, c) == -1,
        },
{
    let n = s.unicode_len();
    let mut i: usize = n;
    while i > 0
        invariant
            i <= n,
            n == s@.len(),
            forall|k: int| i <= k < n ==> s@[k] != c,
        decreases i,
    {
        i -= 1;
        if s.get_char(i) == c {
            proof {
                lemma_find_last(s@, c);
            }
            return Some(i);
        }
    }
    proof {
        lemma_find_last(s@, c);
    }
    None
}

/// The final path segment of `s`: what follows the last `/`, or `s` itself.
pub fn last_segment_str(s: &str) -> (r: String)
    ensures
        r@ == last_segment(s@),
{
    proof {
        lemma_find_last(s@, '/');
    }
    let n = s.unicode_len();
    match find_last_char(s, '/') {
        None => s.to_owned(),
        Some(j) => {
            let r = s.substring_char(j + 1, n).to_owned();
            proof {
                assert(s@.subrange(j + 1, n as int) =~= s@.skip(j + 1));
            }
            r
        },
    }
}

/// Everything in `s` before the first `c`; all of `s` if `c` is absent.
pub fn before_first_str(s: &str, c: char) -> (r: String)
    ensures
        r@ == before_first(s@, c),
{
    proof {
        lemma_find_first(s@, c);
    }
    let n = s.unicode_len();
    let i = find_first_char(s, c);
    let r = s.substring_char(0, i).to_owned();
    proof {
        assert(s@.subrange(0, i as int) =~= s@.take(i as int));
    }
    r
}

/// Everything in `s` after the last `c`, or `None` if `c` is absent.
pub fn after_last_str(s: &str, c: char) -> (r: Option<String>)
    ensures
        match r {
            Some(t) => after_last(s@, c) == Some(t@),
            None => after_last(s@, c) is None,
        },
{
    proof {
        lemma_find_last(s@, c);
    }
    let n = s.unicode_len();
    match find_last_char(s, c) {
        None => None,
        Some(j) => {
            let t = s.substring_char(j + 1, n).to_owned();
            proof {
                assert(s@.subrange(j + 1, n as int) =~= s@.skip(j + 1));
            }
            Some(t)
        },
    }
}

/// Everything in `s` before the last `c`, or `None` if `c` is absent.
pub fn before_last_str(s: &str, c: char) -> (r: Option<String>)
    ensures
        match r {
            Some(t) => before_last(s@, c) == Some(t@),
            None => before_last(s@, c) is None,
        },
{
    proof {
        lemma_find_last(s@, c);
    }
    match find_last_char(s, c) {
        None => None,
        Some(j) => {
            let t = s.substring_char(0, j).to_owned();
            proof {
                assert(s@.subrange(0, j as int) =~= s@.take(j as int));
            }
            Some(t)
        },
    }
}

/// Join a directory path and a file name with a single `/` between them.
pub fn join_path(dir: &str, file: &str) -> (r: String)
    ensures
        r@ == join_path_spec(dir@, file@),
{
    let n = dir.unicode_len();
    if n == 0 {
        return file.to_owned();
    }
    let lastc = dir.get_char(n - 1);
    if lastc == '/' {
        dir.to_owned().concat(file)
    } else {
        dir.to_owned().concat("/").concat(file)
    }
}

/// Whether some element of `v` reads the same as `s`.
pub fn contains_string(v: &Vec<String>, s: &str) -> (r: bool)
    ensures
        r == exists|i: int| 0 <= i < v@.len() && v@[i]@ == s@,
{
    let mut i: usize = 0;
    while i < v.len()
        invariant
            i <= v@.len(),
            forall|k: int| 0 <= k < i ==> v@[k]@ != s@,
        decreases v@.len() - i,
    {
        if str_eq(v[i].as_str(), s) {
            return true;
        }
        i += 1;
    }
    false
}

} // verus!
