use vstd::prelude::*;

use crate::text::{lower_char, ascii_lower};

verus! {

/// SQLite's `LIKE` without an `ESCAPE` clause: `%` matches any run of characters,
/// `_` any one character, and other characters match themselves, ignoring the case
/// of ASCII letters.
pub open spec fn like(p: Seq<char>, s: Seq<char>) -> bool
    decreases p.len() + s.len(),
{
    if p.len() == 0 {
        s.len() == 0
    } else if p[0] == '%' {
        like(p.drop_first(), s) || (s.len() > 0 && like(p, s.drop_first()))
    } else if p[0] == '_' {
        s.len() > 0 && like(p.drop_first(), s.drop_first())
    } else {
        s.len() > 0 && lower_char(p[0]) == lower_char(s[0]) && like(p.drop_first(), s.drop_first())
    }
}

fn falses(n: usize) -> (r: Vec<bool>)
    ensures
        r@.len() == n,
{
    let mut r: Vec<bool> = Vec::new();
    let mut k: usize = 0;
    while k < n
        invariant
            k <= n,
            r@.len() == k,
        decreases n - k,
    {
        r.push(false);
        k = k + 1;
    }
    r
}

/// Whether `s LIKE p` holds, by dynamic programming over the suffixes of both.
pub fn like_match(p: &Vec<char>, s: &Vec<char>) -> (r: bool)
    ensures
        r == like(p@, s@),
{
    let m = p.len();
    let n = s.len();
    // next[j] == like(p[i..], s[j..]) for j < n, next_end == like(p[i..], "")
    let mut next = falses(n);
    let mut next_end = true;
    let mut j: usize = 0;
    while j < n
        invariant
            n == s.len(),
            m == p.len(),
            j <= n,
            next@.len() == n,
            forall|k: int| 0 <= k < j ==> next@[k] == like(p@.skip(m as int), #[trigger] s@.skip(k)),
        decreases n - j,
    {
        next.set(j, false);
        assert(p@.skip(m as int).len() == 0);
        j = j + 1;
    }
    proof {
        assert(p@.skip(m as int).len() == 0);
        assert(s@.skip(n as int).len() == 0);
    }
    let mut i: usize = m;
    while i > 0
        invariant
            m == p.len(),
            n == s.len(),
            i <= m,
            next@.len() == n,
            forall|k: int| 0 <= k < n ==> next@[k] == like(p@.skip(i as int), #[trigger] s@.skip(k)),
            next_end == like(p@.skip(i as int), s@.skip(n as int)),
        decreases i,
    {
        let c = p[i - 1];
        let ghost pi = p@.skip(i - 1);
        proof {
            assert(pi.drop_first() =~= p@.skip(i as int));
            assert(pi[0] == c);
            assert(s@.skip(n as int).len() == 0);
        }
        let mut cur = falses(n);
        let cur_end = if c == '%' {
            next_end
        } else {
            false
        };
        assert(like(pi, s@.skip(n as int)) == cur_end);
        let mut jj: usize = n;
        while jj > 0
            invariant
                m == p.len(),
                n == s.len(),
                1 <= i <= m,
                pi == p@.skip(i - 1),
                pi.len() > 0,
                pi[0] == c,
                pi.drop_first() == p@.skip(i as int),
                jj <= n,
                next@.len() == n,
                cur@.len() == n,
                forall|q: int| 0 <= q < n ==> next@[q] == like(p@.skip(i as int), #[trigger] s@.skip(q)),
                next_end == like(p@.skip(i as int), s@.skip(n as int)),
                cur_end == like(pi, s@.skip(n as int)),
                forall|q: int| jj <= q < n ==> cur@[q] == like(pi, #[trigger] s@.skip(q)),
            decreases jj,
        {
            let j = jj - 1;
            let ghost sj = s@.skip(j as int);
            proof {
                assert(sj.drop_first() =~= s@.skip(j + 1));
                assert(sj[0] == s@[j as int]);
            }
            let next_after = if j + 1 < n {
                next[j + 1]
            } else {
                next_end
            };
            let v = if c == '%' {
                let cur_after = if j + 1 < n {
                    cur[j + 1]
                } else {
                    cur_end
                };
                next[j] || cur_after
            } else if c == '_' {
                next_after
            } else {
                ascii_lower(c) == ascii_lower(s[j]) && next_after
            };
            cur.set(j, v);
            proof {
                assert(like(pi, sj) == v);
            }
            jj = j;
        }
        next = cur;
        next_end = cur_end;
        i = i - 1;
    }
    proof {
        assert(p@.skip(0) =~= p@);
        assert(s@.skip(0) =~= s@);
    }
    if n == 0 {
        next_end
    } else {
        next[0]
    }
}

/// The number of bytes of `c` in UTF-8 (`char::len_utf8`).
pub open spec fn utf8_char_len(c: char) -> nat {
    let n = c as u32;
    if n < 0x80 {
        1
    } else if n < 0x800 {
        2
    } else if n < 0x10000 {
        3
    } else {
        4
    }
}

/// The number of bytes of `s` in UTF-8.
pub open spec fn utf8_len(s: Seq<char>) -> nat
    decreases s.len(),
{
    if s.len() == 0 {
        0
    } else {
        utf8_len(s.drop_last()) + utf8_char_len(s.last())
    }
}

pub fn utf8_char_len_exec(c: char) -> (r: usize)
    ensures
        r == utf8_char_len(c),
{
    let n = c as u32;
    if n < 0x80 {
        1
    } else if n < 0x800 {
        2
    } else if n < 0x10000 {
        3
    } else {
        4
    }
}

/// `min(utf8_len(s), cap + 1)`: the UTF-8 length of `s`, counted up to just past `cap`.
pub fn utf8_len_capped(s: &Vec<char>, cap: usize) -> (r: usize)
    requires
        cap < usize::MAX,
    ensures
        r == if utf8_len(s@) > cap {
            (cap + 1) as nat
        } else {
            utf8_len(s@)
        },
{
    let mut total: usize = 0;
    let mut i: usize = 0;
    while i < s.len()
        invariant
            i <= s.len(),
            cap < usize::MAX,
            total == utf8_len(s@.take(i as int)),
            total <= cap,
        decreases s.len() - i,
    {
        let l = utf8_char_len_exec(s[i]);
        proof {
            assert(s@.take(i + 1).drop_last() =~= s@.take(i as int));
        }
        if l > cap - total {
            proof {
                lemma_utf8_len_prefix(s@, i + 1);
            }
            return cap + 1;
        }
        total = total + l;
        i = i + 1;
    }
    assert(s@.take(s.len() as int) =~= s@);
    total
}

/// UTF-8 lengths grow along prefixes.
pub proof fn lemma_utf8_len_prefix(s: Seq<char>, k: int)
    requires
        0 <= k <= s.len(),
    ensures
        utf8_len(s.take(k)) <= utf8_len(s),
    decreases s.len() - k,
{
    if k < s.len() {
        lemma_utf8_len_prefix(s, k + 1);
        assert(s.take(k + 1).drop_last() =~= s.take(k));
    } else {
        assert(s.take(k) =~= s);
    }
}

} // verus!
