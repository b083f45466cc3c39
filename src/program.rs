//! Instruction sequences: tokenizing source text and the bracket structure.
use vstd::prelude::*;

verus! {

/// Whether `c` is one of the eight instruction symbols.
pub open spec fn is_instr(c: char) -> bool {
    c == '>' || c == '<' || c == '+' || c == '-' || c == '.' || c == ',' || c == '[' || c == ']'
}

/// The instruction symbols of `s`, in order; every other character is dropped.
pub open spec fn tokens(s: Seq<char>) -> Seq<char>
    decreases s.len(),
{
    if s.len() == 0 {
        Seq::empty()
    } else if is_instr(s.last()) {
        tokens(s.drop_last()).push(s.last())
    } else {
        tokens(s.drop_last())
    }
}

/// How one symbol changes the loop nesting depth.
pub open spec fn delta(c: char) -> int {
    if c == '[' {
        1
    } else if c == ']' {
        -1
    } else {
        0
    }
}

/// Nesting depth after the first `n` symbols of `s`: opening brackets minus closing ones.
pub open spec fn depth(s: Seq<char>, n: int) -> int
    decreases n,
{
    if n <= 0 {
        0
    } else {
        depth(s, n - 1) + delta(s[n - 1])
    }
}

/// Every `[` has a later matching `]` and every `]` an earlier matching `[`.
pub open spec fn balanced(s: Seq<char>) -> bool {
    &&& forall|n: int| 0 <= n <= s.len() ==> #[trigger] depth(s, n) >= 0
    &&& depth(s, s.len() as int) == 0
}

/// The `[` at `i` and the `]` at `j` match: the depth first falls back to its
/// level before `i` just after `j`.
pub open spec fn is_pair(s: Seq<char>, i: int, j: int) -> bool {
    &&& 0 <= i < j < s.len()
    &&& depth(s, j + 1) == depth(s, i)
    &&& forall|m: int| i < m <= j ==> #[trigger] depth(s, m) > depth(s, i)
}

/// The position of the `]` that matches the `[` at `i`.
pub open spec fn close_of(s: Seq<char>, i: int) -> int {
    choose|j: int| is_pair(s, i, j)
}

/// The position of the `[` that matches the `]` at `j`.
pub open spec fn open_of(s: Seq<char>, j: int) -> int {
    choose|i: int| is_pair(s, i, j)
}

/// A `[` has at most one partner.
pub proof fn lemma_pair_unique_close(s: Seq<char>, i: int, j1: int, j2: int)
    requires
        is_pair(s, i, j1),
        is_pair(s, i, j2),
    ensures
        j1 == j2,
{
    if j1 < j2 {
        assert(depth(s, j1 + 1) > depth(s, i));
    } else if j2 < j1 {
        assert(depth(s, j2 + 1) > depth(s, i));
    }
}

/// A `]` has at most one partner.
pub proof fn lemma_pair_unique_open(s: Seq<char>, i1: int, i2: int, j: int)
    requires
        is_pair(s, i1, j),
        is_pair(s, i2, j),
    ensures
        i1 == i2,
{
    if i1 < i2 {
        assert(depth(s, i2) > depth(s, i1));
    } else if i2 < i1 {
        assert(depth(s, i1) > depth(s, i2));
    }
}

/// A found pair is the one that `close_of` and `open_of` name.
pub proof fn lemma_pair_named(s: Seq<char>, i: int, j: int)
    requires
        is_pair(s, i, j),
    ensures
        close_of(s, i) == j,
        open_of(s, j) == i,
{
    let c = close_of(s, i);
    let o = open_of(s, j);
    lemma_pair_unique_close(s, i, c, j);
    lemma_pair_unique_open(s, o, i, j);
}

/// Keeps the instruction symbols of `source`, in order, and drops everything else.
pub fn tokenize(source: &str) -> (r: Vec<char>)
    ensures
        r@ == tokens(source@),
{
    let mut out: Vec<char> = Vec::new();
    broadcast use vstd::string::axiom_spec_iter;
    for c in it: source.chars()
        invariant
            it.seq() == source@,
            out@ == tokens(source@.take(it.index() as int)),
    {
        let ghost k = it.index() as int;
        proof {
            assert(source@.take(k + 1).drop_last() =~= source@.take(k));
        }
        if c == '>' || c == '<' || c == '+' || c == '-' || c == '.' || c == ',' || c == '[' || c
            == ']' {
            out.push(c);
        }
    }
    proof {
        assert(source@.take(source@.len() as int) =~= source@);
    }
    out
}

/// Whether the brackets of `prog` are balanced.
pub fn check_balanced(prog: &Vec<char>) -> (r: bool)
    ensures
        r == balanced(prog@),
{
    let mut level: usize = 0;
    let mut k: usize = 0;
    while k < prog.len()
        invariant
            k <= prog.len(),
            level == depth(prog@, k as int),
            level <= k,
            forall|n: int| 0 <= n <= k ==> #[trigger] depth(prog@, n) >= 0,
        decreases prog.len() - k,
    {
        assert(depth(prog@, k + 1) == depth(prog@, k as int) + delta(prog@[k as int]));
        if prog[k] == '[' {
            level = level + 1;
        } else if prog[k] == ']' {
            if level == 0 {
                assert(depth(prog@, k + 1) < 0);
                return false;
            }
            level = level - 1;
        }
        k = k + 1;
    }
    level == 0
}

/// Position of the `]` that matches the `[` at `i`, found by scanning forward.
pub fn find_close(prog: &Vec<char>, i: usize) -> (j: usize)
    requires
        balanced(prog@),
        i < prog.len(),
        prog@[i as int] == '[',
    ensures
        is_pair(prog@, i as int, j as int),
        j == close_of(prog@, i as int),
{
    let ghost s = prog@;
    let mut k: usize = i + 1;
    let mut level: usize = 1;
    assert(depth(s, i + 1) == depth(s, i as int) + 1);
    while level > 0
        invariant
            i < k <= prog.len(),
            s == prog@,
            balanced(s),
            level as int == depth(s, k as int) - depth(s, i as int),
            level <= k,
            forall|m: int| i < m < k ==> #[trigger] depth(s, m) > depth(s, i as int),
            level == 0 ==> k >= 1 && forall|m: int| i < m <= k - 1 ==> #[trigger] depth(s, m) > depth(s, i as int),
        decreases prog.len() - k,
    {
        assert(depth(s, s.len() as int) == 0 && depth(s, i as int) >= 0);
        assert(k < prog.len());
        assert(depth(s, k + 1) == depth(s, k as int) + delta(s[k as int]));
        if prog[k] == '[' {
            level = level + 1;
        } else if prog[k] == ']' {
            level = level - 1;
        }
        k = k + 1;
    }
    let j = k - 1;
    assert(is_pair(s, i as int, j as int));
    proof {
        lemma_pair_named(s, i as int, j as int);
    }
    j
}

/// Position of the `[` that matches the `]` at `j`, found by scanning backward.
pub fn find_open(prog: &Vec<char>, j: usize) -> (i: usize)
    requires
        balanced(prog@),
        j < prog.len(),
        prog@[j as int] == ']',
    ensures
        is_pair(prog@, i as int, j as int),
        i == open_of(prog@, j as int),
{
    let ghost s = prog@;
    let ghost base = depth(s, j + 1);
    let mut k: usize = j;
    let mut level: usize = 1;
    assert(depth(s, j + 1) == depth(s, j as int) - 1);
    while level > 0
        invariant
            k <= j < prog.len(),
            s == prog@,
            balanced(s),
            base == depth(s, j + 1),
            level as int == depth(s, k as int) - base,
            level <= prog.len() - k,
            forall|m: int| k < m <= j ==> #[trigger] depth(s, m) > base,
            level > 0 ==> depth(s, k as int) > base,
        decreases k,
    {
        assert(depth(s, 0) == 0 && base >= 0);
        assert(k > 0);
        assert(depth(s, k as int) == depth(s, k - 1) + delta(s[k - 1]));
        if prog[k - 1] == '[' {
            level = level - 1;
        } else if prog[k - 1] == ']' {
            level = level + 1;
        }
        k = k - 1;
    }
    assert(is_pair(s, k as int, j as int));
    proof {
        lemma_pair_named(s, k as int, j as int);
    }
    k
}

} // verus!
