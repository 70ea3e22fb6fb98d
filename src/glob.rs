use vstd::prelude::*;

verus! {

/// Whether the text suffix `t[i..]` matches the pattern suffix `p[j..]`, where
/// `*` matches any run of characters, `?` any single character, and every
/// other pattern character matches itself.
pub open spec fn glob_from(t: Seq<char>, p: Seq<char>, i: int, j: int) -> bool
    decreases t.len() - i, p.len() - j,
    when 0 <= i <= t.len() && 0 <= j <= p.len()
{
    if j == p.len() {
        i == t.len()
    } else if p[j] == '*' {
        glob_from(t, p, i, j + 1) || (i < t.len() && glob_from(t, p, i + 1, j))
    } else {
        i < t.len() && (p[j] == '?' || p[j] == t[i]) && glob_from(t, p, i + 1, j + 1)
    }
}

/// Whether the whole text `t` matches the whole pattern `p`.
pub open spec fn glob_matches(t: Seq<char>, p: Seq<char>) -> bool {
    glob_from(t, p, 0, 0)
}

/// `p[b..b+n]` holds no `*` and matches `t[a..a+n]` one character at a time.
pub open spec fn literal_run(t: Seq<char>, p: Seq<char>, a: int, b: int, n: int) -> bool {
    &&& 0 <= a && a + n <= t.len()
    &&& 0 <= b && b + n <= p.len()
    &&& forall|d: int| b <= d < b + n ==> p[d] != '*' && (p[d] == '?' || p[d] == t[a + (d - b)])
}

/// `p[b..b+n]` holds no `*`.
pub open spec fn star_free(p: Seq<char>, b: int, n: int) -> bool {
    forall|d: int| b <= d < b + n ==> p[d] != '*'
}

/// Some text suffix from position `i` on matches the pattern suffix `p[j..]`.
pub open spec fn some_suffix_matches(t: Seq<char>, p: Seq<char>, i: int, j: int) -> bool {
    exists|k: int| i <= k <= t.len() && #[trigger] glob_from(t, p, k, j)
}

/// A run of pattern characters without `*` must be matched one for one.
pub proof fn lemma_star_free_prefix(t: Seq<char>, p: Seq<char>, a: int, b: int, n: int)
    requires
        0 <= a <= t.len(),
        0 <= n,
        0 <= b,
        b + n <= p.len(),
        star_free(p, b, n),
    ensures
        glob_from(t, p, a, b) <==> (literal_run(t, p, a, b, n) && glob_from(t, p, a + n, b + n)),
    decreases n,
{
    if n > 0 {
        assert(p[b] != '*');
        if a < t.len() {
            lemma_star_free_prefix(t, p, a + 1, b + 1, n - 1);
            if glob_from(t, p, a, b) {
                assert(literal_run(t, p, a, b, n));
            }
        }
    }
}

/// A `*` at `j` lets the rest of the pattern start at any later text position.
pub proof fn lemma_star(t: Seq<char>, p: Seq<char>, i: int, j: int)
    requires
        0 <= i <= t.len(),
        0 <= j < p.len(),
        p[j] == '*',
    ensures
        glob_from(t, p, i, j) <==> some_suffix_matches(t, p, i, j + 1),
    decreases t.len() - i,
{
    if glob_from(t, p, i, j + 1) {
        assert(i <= i <= t.len() && glob_from(t, p, i, j + 1));
    }
    if i < t.len() {
        lemma_star(t, p, i + 1, j);
        if glob_from(t, p, i + 1, j) {
            let k = choose|k: int| i + 1 <= k <= t.len() && #[trigger] glob_from(t, p, k, j + 1);
            assert(i <= k <= t.len() && glob_from(t, p, k, j + 1));
        }
        if some_suffix_matches(t, p, i, j + 1) {
            let k = choose|k: int| i <= k <= t.len() && #[trigger] glob_from(t, p, k, j + 1);
            if k > i {
                assert(i + 1 <= k <= t.len() && glob_from(t, p, k, j + 1));
            }
        }
    } else if some_suffix_matches(t, p, i, j + 1) {
        let k = choose|k: int| i <= k <= t.len() && #[trigger] glob_from(t, p, k, j + 1);
        assert(k == i);
    }
}

/// At the end of the text only `*`s can remain in the pattern.
pub proof fn lemma_text_end(t: Seq<char>, p: Seq<char>, j: int)
    requires
        0 <= j <= p.len(),
    ensures
        glob_from(t, p, t.len() as int, j) <==> forall|d: int| j <= d < p.len() ==> p[d] == '*',
    decreases p.len() - j,
{
    if j < p.len() {
        lemma_text_end(t, p, j + 1);
    }
}

/// Whether `text` matches the wildcard `pattern` (`*` any run of characters,
/// `?` one character). Scans once, returning to the latest `*` on a mismatch
/// and letting it absorb one character more.
pub fn wildcard_chars(text: &Vec<char>, pattern: &Vec<char>) -> (r: bool)
    ensures
        r == glob_matches(text@, pattern@),
{
    let ghost t = text@;
    let ghost p = pattern@;
    if pattern.len() == 0 {
        return text.len() == 0;
    }
    let mut i: usize = 0;
    let mut j: usize = 0;
    let mut star_pos: Option<usize> = None;
    let mut match_pos: usize = 0;
    while i < text.len()
        invariant
            t == text@,
            p == pattern@,
            0 <= i <= t.len(),
            0 <= j <= p.len(),
            match star_pos {
                None => match_pos == 0 && glob_matches(t, p) == glob_from(t, p, i as int, j as int),
                Some(s) => {
                    &&& s < j
                    &&& p[s as int] == '*'
                    &&& match_pos <= i
                    &&& i - match_pos == j - (s + 1)
                    &&& literal_run(t, p, match_pos as int, s + 1, j - (s + 1))
                    &&& glob_matches(t, p) == some_suffix_matches(t, p, match_pos as int, s + 1)
                },
            },
        decreases t.len() - match_pos, t.len() - i, p.len() - j,
    {
        if j < pattern.len() && pattern[j] == '*' {
            proof {
                lemma_star(t, p, i as int, j as int);
                if let Some(s) = star_pos {
                    let n = j - (s + 1);
                    assert(star_free(p, s + 1, n));
                    lemma_star_free_prefix(t, p, match_pos as int, s + 1, n);
                    assert(glob_from(t, p, match_pos as int, s + 1) == glob_from(t, p, i as int, j as int));
                    if some_suffix_matches(t, p, match_pos as int, s + 1) {
                        let k = choose|k: int| match_pos <= k <= t.len() && #[trigger] glob_from(t, p, k, s + 1);
                        lemma_star_free_prefix(t, p, k, s + 1, n);
                        lemma_star(t, p, k + n, j as int);
                        let k2 = choose|k2: int| k + n <= k2 <= t.len() && #[trigger] glob_from(t, p, k2, j + 1);
                        assert(i <= k2 <= t.len() && glob_from(t, p, k2, j + 1));
                    }
                }
            }
            star_pos = Some(j);
            match_pos = i;
            j = j + 1;
            proof {
                assert(literal_run(t, p, match_pos as int, j as int, 0));
            }
        } else if j < pattern.len() && (pattern[j] == '?' || pattern[j] == text[i]) {
            proof {
                if let Some(s) = star_pos {
                    let n = j - (s + 1);
                    assert(literal_run(t, p, match_pos as int, s + 1, n + 1));
                }
            }
            i = i + 1;
            j = j + 1;
        } else if let Some(s) = star_pos {
            proof {
                let n = j - (s + 1);
                assert(star_free(p, s + 1, n));
                lemma_star_free_prefix(t, p, match_pos as int, s + 1, n);
                assert(!glob_from(t, p, i as int, j as int));
                assert(!glob_from(t, p, match_pos as int, s + 1));
                assert forall|k: int| match_pos <= k <= t.len() && #[trigger] glob_from(t, p, k, s + 1)
                    implies match_pos + 1 <= k by {}
                assert(literal_run(t, p, match_pos + 1, s + 1, 0));
            }
            j = s + 1;
            match_pos = match_pos + 1;
            i = match_pos;
        } else {
            return false;
        }
    }
    while j < pattern.len() && pattern[j] == '*'
        invariant
            t == text@,
            p == pattern@,
            i == t.len(),
            0 <= j <= p.len(),
            match star_pos {
                None => glob_matches(t, p) == glob_from(t, p, i as int, j as int),
                Some(s) => {
                    &&& s < j
                    &&& match_pos <= i
                    &&& literal_run(t, p, match_pos as int, s + 1, i - match_pos)
                    &&& s + 1 + (i - match_pos) <= j
                    &&& forall|d: int| s + 1 + (i - match_pos) <= d < j ==> p[d] == '*'
                    &&& glob_matches(t, p) == some_suffix_matches(t, p, match_pos as int, s + 1)
                },
            },
        decreases p.len() - j,
    {
        proof {
            if star_pos is None {
                assert(glob_from(t, p, i as int, j as int) == glob_from(t, p, i as int, j + 1));
            }
        }
        j = j + 1;
    }
    proof {
        lemma_text_end(t, p, j as int);
        if let Some(s) = star_pos {
            let n = i - match_pos;
            let m = s + 1 + n;
            assert(star_free(p, s + 1, n));
            lemma_star_free_prefix(t, p, match_pos as int, s + 1, n);
            lemma_text_end(t, p, m);
            if some_suffix_matches(t, p, match_pos as int, s + 1) {
                let k = choose|k: int| match_pos <= k <= t.len() && #[trigger] glob_from(t, p, k, s + 1);
                lemma_star_free_prefix(t, p, k, s + 1, n);
                assert(k == match_pos);
            }
            if j == p.len() {
                assert(forall|d: int| m <= d < p.len() ==> p[d] == '*');
                assert(glob_from(t, p, match_pos as int, s + 1));
            }
            if glob_from(t, p, t.len() as int, m) {
                assert(forall|d: int| m <= d < p.len() ==> p[d] == '*');
                if j < p.len() {
                    assert(p[j as int] != '*');
                }
            }
        }
    }
    j == pattern.len()
}

} // verus!
