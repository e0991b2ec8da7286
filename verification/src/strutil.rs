use vstd::prelude::*;
use vstd::string::*;

verus! {

/// Index of the first occurrence of `c` in `s` at or after `from`, or `-1`
/// if `c` does not occur there.
pub open spec fn spec_find(s: Seq<char>, c: char, from: int) -> int
    decreases s.len() - from,
{
    if from < 0 || from >= s.len() {
        -1
    } else if s[from] == c {
        from
    } else {
        spec_find(s, c, from + 1)
    }
}

/// What `spec_find` returns: either a first occurrence, or no occurrence.
pub proof fn lemma_spec_find(s: Seq<char>, c: char, from: int)
    requires
        0 <= from <= s.len(),
    ensures
        spec_find(s, c, from) == -1 ==> forall|k: int| from <= k < s.len() ==> s[k] != c,
        spec_find(s, c, from) != -1 ==> from <= spec_find(s, c, from) < s.len(),
        spec_find(s, c, from) != -1 ==> s[spec_find(s, c, from)] == c,
        spec_find(s, c, from) != -1 ==> forall|k: int| from <= k < spec_find(s, c, from) ==> s[k] != c,
    decreases s.len() - from,
{
    if from < s.len() && s[from] != c {
        lemma_spec_find(s, c, from + 1);
    }
}

/// A character that occurs at or after `from` bounds `spec_find` from above.
pub proof fn lemma_spec_find_bound(s: Seq<char>, c: char, from: int, at: int)
    requires
        0 <= from <= at < s.len(),
        s[at] == c,
    ensures
        spec_find(s, c, from) != -1,
        spec_find(s, c, from) <= at,
    decreases s.len() - from,
{
    if s[from] != c {
        lemma_spec_find_bound(s, c, from + 1, at);
    }
}

/// A first occurrence pins down `spec_find` exactly.
pub proof fn lemma_find_exact(s: Seq<char>, c: char, from: int, at: int)
    requires
        0 <= from <= at < s.len(),
        s[at] == c,
        forall|k: int| from <= k < at ==> s[k] != c,
    ensures
        spec_find(s, c, from) == at,
{
    lemma_spec_find(s, c, from);
    lemma_spec_find_bound(s, c, from, at);
}

/// `spec_find` on a tail segment mirrors `spec_find` on the whole.
pub proof fn lemma_find_shift(s: Seq<char>, c: char, off: int, from: int)
    requires
        0 <= off <= from <= s.len(),
    ensures
        spec_find(s.subrange(off, s.len() as int), c, from - off) == if spec_find(s, c, from)
            < 0 {
            -1
        } else {
            spec_find(s, c, from) - off
        },
    decreases s.len() - from,
{
    let t = s.subrange(off, s.len() as int);
    if from < s.len() {
        assert(t[from - off] == s[from]);
        if s[from] != c {
            lemma_find_shift(s, c, off, from + 1);
        }
    }
}

/// First occurrence of `c` in `s` at or after `from`, scanning left to right.
pub fn find_char(s: &str, c: char, from: usize) -> (r: Option<usize>)
    requires
        from <= s@.len(),
    ensures
        match r {
            Some(i) => from <= i < s@.len() && spec_find(s@, c, from as int) == i,
            None => spec_find(s@, c, from as int) == -1,
        },
{
    let n = s.unicode_len();
    let mut i = from;
    while i < n
        invariant
            from <= i <= n,
            n == s@.len(),
            forall|k: int| from <= k < i ==> s@[k] != c,
        decreases n - i,
    {
        if s.get_char(i) == c {
            proof {
                lemma_spec_find(s@, c, from as int);
                lemma_spec_find_bound(s@, c, from as int, i as int);
            }
            return Some(i);
        }
        i += 1;
    }
    proof {
        lemma_spec_find(s@, c, from as int);
    }
    None
}

/// Character-by-character string equality.
pub fn str_eq(a: &str, b: &str) -> (r: bool)
    ensures
        r == (a@ == b@),
{
    let na = a.unicode_len();
    let nb = b.unicode_len();
    if na != nb {
        return false;
    }
    let mut i: usize = 0;
    while i < na
        invariant
            0 <= i <= na,
            na == a@.len(),
            nb == b@.len(),
            na == nb,
            forall|k: int| 0 <= k < i ==> a@[k] == b@[k],
        decreases na - i,
    {
        if a.get_char(i) != b.get_char(i) {
            return false;
        }
        i += 1;
    }
    proof {
        assert(a@ =~= b@);
    }
    true
}

/// Does `lit` occur in `s` as the segment beginning at index `i`?
pub fn has_lit_at(s: &str, i: usize, lit: &str) -> (r: bool)
    requires
        i <= s@.len(),
    ensures
        r == (i + lit@.len() <= s@.len() && s@.subrange(
            i as int,
            i as int + lit@.len(),
        ) == lit@),
{
    let n = s.unicode_len();
    let m = lit.unicode_len();
    if m > n - i {
        return false;
    }
    let mut j: usize = 0;
    while j < m
        invariant
            0 <= j <= m,
            i + m <= n,
            n == s@.len(),
            m == lit@.len(),
            forall|k: int| 0 <= k < j ==> s@[i + k] == lit@[k],
        decreases m - j,
    {
        if s.get_char(i + j) != lit.get_char(j) {
            proof {
                let seg = s@.subrange(i as int, i as int + lit@.len());
                assert(seg[j as int] == s@[i + j]);
            }
            return false;
        }
        j += 1;
    }
    proof {
        assert(s@.subrange(i as int, i as int + lit@.len()) =~= lit@);
    }
    true
}

/// The segment of `s` from `from` to `to`, as an owned string.
pub fn copy_range(s: &str, from: usize, to: usize) -> (r: String)
    requires
        from <= to <= s@.len(),
    ensures
        r@ == s@.subrange(from as int, to as int),
{
    let sub = s.substring_char(from, to);
    sub.to_owned()
}

} // verus!
