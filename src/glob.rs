//! Wildcard patterns: `*` stands for any run of characters, every other character for itself.
use vstd::prelude::*;

verus! {

/// Whether the whole of `s` matches the wildcard pattern `p`.
pub open spec fn glob_match(p: Seq<char>, s: Seq<char>) -> bool
    decreases p.len() + s.len(),
{
    if p.len() == 0 {
        s.len() == 0
    } else if p[0] == '*' {
        glob_match(p.drop_first(), s) || (s.len() > 0 && glob_match(p, s.drop_first()))
    } else {
        s.len() > 0 && s[0] == p[0] && glob_match(p.drop_first(), s.drop_first())
    }
}

/// The match of the pattern from position `i` against the text from position `j`.
pub open spec fn glob_suffix(p: Seq<char>, s: Seq<char>, i: int, j: int) -> bool {
    glob_match(p.subrange(i, p.len() as int), s.subrange(j, s.len() as int))
}

proof fn lemma_glob_step(p: Seq<char>, s: Seq<char>, i: int, j: int)
    requires
        0 <= i <= p.len(),
        0 <= j <= s.len(),
    ensures
        glob_suffix(p, s, i, j) == if i == p.len() {
            j == s.len()
        } else if p[i] == '*' {
            glob_suffix(p, s, i + 1, j) || (j < s.len() && glob_suffix(p, s, i, j + 1))
        } else {
            j < s.len() && s[j] == p[i] && glob_suffix(p, s, i + 1, j + 1)
        },
{
    let ps = p.subrange(i, p.len() as int);
    let ss = s.subrange(j, s.len() as int);
    if i < p.len() {
        assert(ps.drop_first() =~= p.subrange(i + 1, p.len() as int));
    }
    if j < s.len() {
        assert(ss.drop_first() =~= s.subrange(j + 1, s.len() as int));
    }
}

/// Matches a whole text against a wildcard pattern.
pub fn glob_matches(p: &Vec<char>, s: &Vec<char>) -> (r: bool)
    ensures
        r == glob_match(p@, s@),
{
    let n = p.len();
    let m = s.len();
    // Row `n` of the table: the empty pattern rest matches only the empty text rest.
    let mut next: Vec<bool> = Vec::new();
    let mut j: usize = 0;
    while j < m
        invariant
            n == p@.len(),
            m == s@.len(),
            j <= m,
            next@.len() == j,
            forall|k: int| 0 <= k < j ==> next@[k] == glob_suffix(p@, s@, n as int, k),
        decreases m - j,
    {
        proof {
            lemma_glob_step(p@, s@, n as int, j as int);
        }
        next.push(false);
        j = j + 1;
    }
    proof {
        lemma_glob_step(p@, s@, n as int, m as int);
    }
    let mut next_end: bool = true;
    let mut i: usize = n;
    while i > 0
        invariant
            n == p@.len(),
            m == s@.len(),
            i <= n,
            next@.len() == m,
            next_end == glob_suffix(p@, s@, i as int, m as int),
            forall|k: int| 0 <= k < m ==> next@[k] == glob_suffix(p@, s@, i as int, k),
        decreases i,
    {
        let ii = i - 1;
        let star = p[ii] == '*';
        proof {
            lemma_glob_step(p@, s@, ii as int, m as int);
        }
        let cur_end = star && next_end;
        let mut cur: Vec<bool> = Vec::new();
        let mut z: usize = 0;
        while z < m
            invariant
                z <= m,
                cur@.len() == z,
            decreases m - z,
        {
            cur.push(false);
            z = z + 1;
        }
        let mut j: usize = m;
        while j > 0
            invariant
                n == p@.len(),
                m == s@.len(),
                ii < n,
                i == ii + 1,
                star == (p@[ii as int] == '*'),
                j <= m,
                cur@.len() == m,
                next@.len() == m,
                next_end == glob_suffix(p@, s@, i as int, m as int),
                cur_end == glob_suffix(p@, s@, ii as int, m as int),
                forall|k: int| 0 <= k < m ==> next@[k] == glob_suffix(p@, s@, i as int, k),
                forall|k: int| j <= k < m ==> cur@[k] == glob_suffix(p@, s@, ii as int, k),
            decreases j,
        {
            let jj = j - 1;
            proof {
                lemma_glob_step(p@, s@, ii as int, jj as int);
            }
            let v = if star {
                next[jj] || (if jj + 1 < m {
                    cur[jj + 1]
                } else {
                    cur_end
                })
            } else {
                s[jj] == p[ii] && (if jj + 1 < m {
                    next[jj + 1]
                } else {
                    next_end
                })
            };
            cur.set(jj, v);
            j = jj;
        }
        next = cur;
        next_end = cur_end;
        i = ii;
    }
    proof {
        assert(p@.subrange(0, n as int) =~= p@);
        assert(s@.subrange(0, m as int) =~= s@);
    }
    if m == 0 {
        next_end
    } else {
        next[0]
    }
}

} // verus!
