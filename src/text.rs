use vstd::prelude::*;

verus! {

/// The characters of an optional string.
pub open spec fn text_of(o: Option<String>) -> Option<Seq<char>> {
    match o {
        Some(s) => Some(s@),
        None => None,
    }
}

/// ASCII letters folded to lower case, every other character kept.
pub open spec fn ascii_lower(c: char) -> u32 {
    if 65 <= (c as u32) && (c as u32) <= 90 {
        (c as u32 + 32) as u32
    } else {
        c as u32
    }
}

/// Equality of two strings when ASCII letters are compared without regard to case.
pub open spec fn eq_ignore_ascii_case(a: Seq<char>, b: Seq<char>) -> bool {
    a.len() == b.len() && forall|i: int| 0 <= i < a.len() ==> ascii_lower(a[i]) == ascii_lower(b[i])
}

pub fn ascii_lower_code(c: char) -> (r: u32)
    ensures
        r == ascii_lower(c),
{
    let code = c as u32;
    if 65 <= code && code <= 90 {
        code + 32
    } else {
        code
    }
}

pub fn equals_ignore_ascii_case(a: &str, b: &str) -> (r: bool)
    ensures
        r == eq_ignore_ascii_case(a@, b@),
{
    let n = a.unicode_len();
    let m = b.unicode_len();
    if n != m {
        return false;
    }
    let mut i: usize = 0;
    while i < n
        invariant
            n == a@.len(),
            m == b@.len(),
            n == m,
            i <= n,
            forall|j: int| 0 <= j < i ==> ascii_lower(a@[j]) == ascii_lower(b@[j]),
        decreases n - i,
    {
        if ascii_lower_code(a.get_char(i)) != ascii_lower_code(b.get_char(i)) {
            return false;
        }
        i = i + 1;
    }
    true
}

pub fn copy_opt_text(o: &Option<String>) -> (r: Option<String>)
    ensures
        r == *o,
{
    match o {
        Some(s) => Some(s.clone()),
        None => None,
    }
}

/// Whether `k` is the position of the first `\` in `s`.
pub open spec fn is_first_separator(s: Seq<char>, k: int) -> bool {
    0 <= k < s.len() && s[k] == '\\' && forall|j: int| 0 <= j < k ==> s[j] != '\\'
}

pub proof fn lemma_first_separator_unique(s: Seq<char>, k1: int, k2: int)
    requires
        is_first_separator(s, k1),
        is_first_separator(s, k2),
    ensures
        k1 == k2,
{
}

/// Position of the first `\` in a string, if there is one.
pub fn find_separator(s: &str) -> (r: Option<usize>)
    ensures
        r matches Some(k) ==> is_first_separator(s@, k as int),
        r is None ==> forall|j: int| 0 <= j < s@.len() ==> s@[j] != '\\',
{
    let n = s.unicode_len();
    let mut i: usize = 0;
    while i < n
        invariant
            n == s@.len(),
            i <= n,
            forall|j: int| 0 <= j < i ==> s@[j] != '\\',
        decreases n - i,
    {
        if s.get_char(i) == '\\' {
            return Some(i);
        }
        i = i + 1;
    }
    None
}

/// `s` with every trailing repetition of `p` removed; an empty `p` removes nothing.
pub open spec fn trim_suffix_all(s: Seq<char>, p: Seq<char>) -> Seq<char>
    decreases s.len(),
{
    if p.len() > 0 && s.len() >= p.len() && s.subrange(s.len() - p.len(), s.len() as int) == p {
        trim_suffix_all(s.subrange(0, s.len() - p.len()), p)
    } else {
        s
    }
}

fn ends_with_at(s: &str, n: usize, p: &str, m: usize) -> (r: bool)
    requires
        n == s@.len(),
        m == p@.len(),
        n <= s@.len(),
    ensures
        r == (m <= n && s@.subrange(n - m, n as int) == p@),
{
    if m > n {
        return false;
    }
    let mut k: usize = 0;
    while k < m
        invariant
            m <= n,
            n == s@.len(),
            m == p@.len(),
            k <= m,
            forall|j: int| 0 <= j < k ==> s@[n - m + j] == p@[j],
        decreases m - k,
    {
        if s.get_char(n - m + k) != p.get_char(k) {
            assert(s@.subrange(n - m, n as int)[k as int] != p@[k as int]);
            return false;
        }
        k = k + 1;
    }
    assert(s@.subrange(n - m, n as int) =~= p@);
    true
}

/// Removes every trailing repetition of `p` from `s`.
pub fn trim_end_all(s: &str, p: &str) -> (r: String)
    ensures
        r@ == trim_suffix_all(s@, p@),
{
    let m = p.unicode_len();
    let mut n = s.unicode_len();
    let mut cur = String::from_str(s);
    if m == 0 {
        return cur;
    }
    while ends_with_at(cur.as_str(), n, p, m)
        invariant
            m == p@.len(),
            m > 0,
            n == cur@.len(),
            trim_suffix_all(cur@, p@) == trim_suffix_all(s@, p@),
        decreases n,
    {
        let next = String::from_str(cur.as_str().substring_char(0, n - m));
        cur = next;
        n = n - m;
    }
    cur
}

} // verus!
