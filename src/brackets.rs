use vstd::prelude::*;

verus! {

/// How a character moves the nesting depth: `[` opens, `]` closes.
pub open spec fn delta(c: char) -> int {
    if c == '[' {
        1
    } else if c == ']' {
        -1
    } else {
        0
    }
}

/// Opening minus closing brackets among `s[lo..hi]`.
pub open spec fn depth(s: Seq<char>, lo: int, hi: int) -> int
    decreases hi - lo,
{
    if hi <= lo {
        0
    } else {
        depth(s, lo, hi - 1) + delta(s[hi - 1])
    }
}

/// No prefix of `s[lo..hi]` closes more brackets than it opens.
pub open spec fn never_negative(s: Seq<char>, lo: int, hi: int) -> bool {
    forall|m: int| lo <= m <= hi ==> #[trigger] depth(s, lo, m) >= 0
}

/// `s[lo..hi]` is a balanced bracket sequence (other characters ignored).
pub open spec fn balanced_range(s: Seq<char>, lo: int, hi: int) -> bool {
    &&& never_negative(s, lo, hi)
    &&& depth(s, lo, hi) == 0
}

/// The whole of `s` is balanced.
pub open spec fn balanced(s: Seq<char>) -> bool {
    balanced_range(s, 0, s.len() as int)
}

/// The `]` at `k` is the first point where `s` closes a bracket it never opened.
pub open spec fn first_unmatched_close(s: Seq<char>, k: int) -> bool {
    &&& 0 <= k < s.len()
    &&& s[k] == ']'
    &&& never_negative(s, 0, k)
    &&& depth(s, 0, k + 1) == -1
}

/// `t` pairs every bracket of `s` with its partner: each `[` at `i` with a
/// later `]` at `t[i]` such that the text strictly between them is balanced,
/// and each `]` back to the `[` that is paired with it.
pub open spec fn is_jump_table(s: Seq<char>, t: Seq<usize>) -> bool {
    &&& t.len() == s.len()
    &&& forall|i: int|
        0 <= i < s.len() && s[i] == '[' ==> {
            let j = #[trigger] t[i] as int;
            &&& i < j < s.len()
            &&& s[j] == ']'
            &&& t[j] == i
            &&& balanced_range(s, i + 1, j)
        }
    &&& forall|j: int|
        0 <= j < s.len() && s[j] == ']' ==> {
            let i = #[trigger] t[j] as int;
            &&& 0 <= i < j
            &&& s[i] == '['
            &&& t[i] == j
        }
}

/// Why a program's brackets cannot be paired.
#[derive(Debug, Clone, Copy, PartialEq, Eq, Structural)]
pub enum BracketError {
    /// A `]` at this position has no `[` open before it.
    UnmatchedClose(usize),
    /// The text ends with at least one `[` still open.
    UnclosedOpen,
}

/// Depth over `s[a..c]` is depth over `s[a..b]` plus depth over `s[b..c]`.
pub proof fn lemma_depth_split(s: Seq<char>, a: int, b: int, c: int)
    requires
        a <= b <= c,
    ensures
        depth(s, a, c) == depth(s, a, b) + depth(s, b, c),
    decreases c - b,
{
    if c > b {
        lemma_depth_split(s, a, b, c - 1);
    }
}

/// Depth over a slice of `s` is depth over the matching range of `s`.
pub proof fn lemma_depth_subrange(s: Seq<char>, a: int, b: int, m: int)
    requires
        0 <= a <= b <= s.len(),
        0 <= m <= b - a,
    ensures
        depth(s.subrange(a, b), 0, m) == depth(s, a, a + m),
    decreases m,
{
    if m > 0 {
        lemma_depth_subrange(s, a, b, m - 1);
    }
}

/// A balanced range of `s` is a balanced sequence on its own.
pub proof fn lemma_balanced_subrange(s: Seq<char>, a: int, b: int)
    requires
        0 <= a <= b <= s.len(),
        balanced_range(s, a, b),
    ensures
        balanced(s.subrange(a, b)),
{
    let u = s.subrange(a, b);
    lemma_depth_subrange(s, a, b, b - a);
    assert forall|m: int| 0 <= m <= u.len() implies #[trigger] depth(u, 0, m) >= 0 by {
        lemma_depth_subrange(s, a, b, m);
        assert(depth(s, a, a + m) >= 0);
    }
}

/// In a jump table, the text strictly inside each bracket pair is balanced,
/// and the table is a one-to-one pairing of the `[` positions with the `]`
/// positions.
pub proof fn lemma_jump_table_pairs(s: Seq<char>, t: Seq<usize>)
    requires
        is_jump_table(s, t),
    ensures
        forall|i: int|
            0 <= i < s.len() && s[i] == '[' ==> balanced(
                #[trigger] s.subrange(i + 1, t[i] as int),
            ),
        forall|i: int|
            0 <= i < s.len() && s[i] == '[' ==> s[#[trigger] t[i] as int] == ']',
        forall|i1: int, i2: int|
            0 <= i1 < s.len() && 0 <= i2 < s.len() && s[i1] == '[' && s[i2] == '['
                && #[trigger] t[i1] == #[trigger] t[i2] ==> i1 == i2,
        forall|j: int|
            0 <= j < s.len() && s[j] == ']' ==> exists|i: int|
                0 <= i < s.len() && s[i] == '[' && #[trigger] t[i] == j,
{
    assert forall|i: int| 0 <= i < s.len() && s[i] == '[' implies balanced(
        #[trigger] s.subrange(i + 1, t[i] as int),
    ) by {
        lemma_balanced_subrange(s, i + 1, t[i] as int);
    }
    assert forall|j: int| 0 <= j < s.len() && s[j] == ']' implies exists|i: int|
        0 <= i < s.len() && s[i] == '[' && #[trigger] t[i] == j by {
        let i = t[j] as int;
        assert(t[i] == j);
    }
}

/// Pairs the brackets of `code` in one left-to-right pass with a stack of
/// pending `[` positions.
///
/// Succeeds exactly when `code` is balanced, with the table that pairs each
/// bracket with its partner. Otherwise it reports the first `]` that closes
/// nothing, or, where there is none, that some `[` is left open.
pub fn resolve_brackets(code: &Vec<char>) -> (r: Result<Vec<usize>, BracketError>)
    ensures
        r is Ok <==> balanced(code@),
        match r {
            Ok(t) => is_jump_table(code@, t@),
            Err(BracketError::UnmatchedClose(k)) => first_unmatched_close(code@, k as int),
            Err(BracketError::UnclosedOpen) => never_negative(code@, 0, code@.len() as int)
                && depth(code@, 0, code@.len() as int) > 0,
        },
{
    let ghost s = code@;
    let n = code.len();
    let mut table: Vec<usize> = vec![n; n];
    let mut stack: Vec<usize> = Vec::new();
    let mut i: usize = 0;
    while i < n
        invariant
            s == code@,
            n == s.len(),
            table@.len() == n,
            i <= n,
            stack@.len() == depth(s, 0, i as int),
            never_negative(s, 0, i as int),
            forall|k: int|
                0 <= k < stack@.len() ==> {
                    let p = #[trigger] stack@[k] as int;
                    &&& p < i
                    &&& s[p] == '['
                    &&& depth(s, 0, p) == k
                    &&& table@[p] == n
                },
            forall|k: int, m: int|
                #![trigger stack@[k], depth(s, 0, m)]
                0 <= k < stack@.len() && stack@[k] < m <= i ==> depth(s, 0, m) >= k + 1,
            forall|q: int| i <= q < n ==> #[trigger] table@[q] == n,
            forall|q: int|
                0 <= q < i && s[q] == '[' && #[trigger] table@[q] == n ==> exists|k: int|
                    0 <= k < stack@.len() && #[trigger] stack@[k] == q,
            forall|q: int|
                0 <= q < i && s[q] == '[' && #[trigger] table@[q] != n ==> {
                    let j = table@[q] as int;
                    &&& q < j < i
                    &&& s[j] == ']'
                    &&& table@[j] == q
                    &&& balanced_range(s, q + 1, j)
                },
            forall|j: int|
                0 <= j < i && s[j] == ']' ==> {
                    let q = #[trigger] table@[j] as int;
                    &&& 0 <= q < j
                    &&& s[q] == '['
                    &&& table@[q] == j
                },
        decreases n - i,
    {
        let c = code[i];
        if c == '[' {
            proof {
                assert(depth(s, 0, i + 1) == depth(s, 0, i as int) + 1);
            }
            let ghost old_stack = stack@;
            stack.push(i);
            proof {
                assert forall|q: int|
                    0 <= q < i + 1 && s[q] == '[' && #[trigger] table@[q] == n implies exists|
                    k2: int,
                |
                    0 <= k2 < stack@.len() && #[trigger] stack@[k2] == q by {
                    if q == i {
                        assert(stack@[old_stack.len() as int] == q);
                    } else {
                        let k2 = choose|k2: int| 0 <= k2 < old_stack.len() && old_stack[k2] == q;
                        assert(stack@[k2] == q);
                    }
                }
            }
        } else if c == ']' {
            if stack.len() == 0 {
                proof {
                    assert(depth(s, 0, i + 1) == -1);
                }
                return Err(BracketError::UnmatchedClose(i));
            }
            let ghost old_stack = stack@;
            let ghost old_table = table@;
            let top = stack.len() - 1;
            let p = stack[top];
            stack.pop();
            proof {
                let k = top as int;
                assert(old_stack[k] == p);
                assert(depth(s, 0, i + 1) == k);
                assert(depth(s, 0, p + 1) == k + 1);
                assert(stack@ =~= old_stack.subrange(0, k));
                lemma_depth_split(s, 0, p + 1, i as int);
                assert forall|m: int| p + 1 <= m <= i implies #[trigger] depth(s, p + 1, m) >= 0 by {
                    lemma_depth_split(s, 0, p + 1, m);
                    assert(depth(s, 0, m) >= k + 1);
                }
                assert(balanced_range(s, p + 1, i as int));
                assert forall|k2: int| 0 <= k2 < stack@.len() implies #[trigger] stack@[k2] != p
                    && stack@[k2] != i by {
                    assert(old_stack[k2] == stack@[k2]);
                }
            }
            table.set(p, i);
            table.set(i, p);
            proof {
                let k = top as int;
                assert forall|q: int|
                    0 <= q < i + 1 && s[q] == '[' && #[trigger] table@[q] == n implies exists|
                    k2: int,
                |
                    0 <= k2 < stack@.len() && #[trigger] stack@[k2] == q by {
                    assert(q != p);
                    assert(old_table[q] == n);
                    let k2 = choose|k2: int| 0 <= k2 < old_stack.len() && old_stack[k2] == q;
                    assert(k2 != k);
                    assert(stack@[k2] == q);
                }
            }
        } else {
            proof {
                assert(depth(s, 0, i + 1) == depth(s, 0, i as int));
            }
        }
        proof {
            assert(never_negative(s, 0, i + 1)) by {
                assert forall|m: int| 0 <= m <= i + 1 implies #[trigger] depth(s, 0, m) >= 0 by {
                    if m <= i {
                        assert(depth(s, 0, m) >= 0);
                    }
                }
            }
        }
        i = i + 1;
    }
    if stack.len() > 0 {
        return Err(BracketError::UnclosedOpen);
    }
    proof {
        assert forall|q: int| 0 <= q < n && s[q] == '[' implies #[trigger] table@[q] != n by {
            if table@[q] == n {
                let k = choose|k: int| 0 <= k < stack@.len() && stack@[k] == q;
            }
        }
    }
    Ok(table)
}

} // verus!
