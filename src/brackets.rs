use std::collections::HashMap;
use vstd::prelude::*;

use crate::instruction::BrainfuckInstruction;

verus! {

/// How an instruction changes the loop nesting depth.
pub open spec fn bracket_delta(ins: BrainfuckInstruction) -> int {
    match ins {
        BrainfuckInstruction::JzFront => 1,
        BrainfuckInstruction::JnzBack => -1,
        _ => 0,
    }
}

/// Opening minus closing brackets among the first `k` instructions.
pub open spec fn depth(p: Seq<BrainfuckInstruction>, k: int) -> int
    decreases k,
{
    if k <= 0 || k > p.len() {
        0
    } else {
        depth(p, k - 1) + bracket_delta(p[k - 1])
    }
}

pub open spec fn is_bracket(ins: BrainfuckInstruction) -> bool {
    ins == BrainfuckInstruction::JzFront || ins == BrainfuckInstruction::JnzBack
}

/// Brackets nest like parentheses: no prefix closes more than it opens,
/// and the whole program closes all it opens.
pub open spec fn balanced(p: Seq<BrainfuckInstruction>) -> bool {
    &&& depth(p, p.len() as int) == 0
    &&& forall|k: int| 0 <= k <= p.len() ==> depth(p, k) >= 0
}

/// The `]` at `c` closes the `[` at `o`: the depth comes back to the level
/// before `o` for the first time just after `c`.
pub open spec fn matching(p: Seq<BrainfuckInstruction>, o: int, c: int) -> bool {
    &&& 0 <= o < c < p.len()
    &&& p[o] == BrainfuckInstruction::JzFront
    &&& p[c] == BrainfuckInstruction::JnzBack
    &&& depth(p, c + 1) == depth(p, o)
    &&& forall|k: int| o < k <= c ==> depth(p, k) > depth(p, o)
}

/// `m` maps each bracket of `p` to its partner, in both directions, and has
/// no other entries.
pub open spec fn is_jump_table(p: Seq<BrainfuckInstruction>, m: Map<usize, usize>) -> bool {
    &&& forall|i: usize| #[trigger]
        m.contains_key(i) <==> (i < p.len() && is_bracket(p[i as int]))
    &&& forall|i: usize|
        #![trigger m[i]]
        m.contains_key(i) && p[i as int] == BrainfuckInstruction::JzFront ==> matching(
            p,
            i as int,
            m[i] as int,
        )
    &&& forall|i: usize|
        #![trigger m[i]]
        m.contains_key(i) && p[i as int] == BrainfuckInstruction::JnzBack ==> matching(
            p,
            m[i] as int,
            i as int,
        )
}

/// Pairs every `[` with its `]` in one pass with a stack of pending
/// openings. Returns `None` exactly when the brackets are unbalanced.
pub fn parse_brackets(program: &Vec<BrainfuckInstruction>) -> (r: Option<HashMap<usize, usize>>)
    ensures
        r is Some <==> balanced(program@),
        r matches Some(m) ==> is_jump_table(program@, m@),
{
    let ghost p = program@;
    let mut brackets_mapping: HashMap<usize, usize> = HashMap::new();
    let mut par_stack: Vec<usize> = Vec::new();
    let n = program.len();
    let mut pos: usize = 0;
    while pos < n
        invariant
            n == p.len(),
            p == program@,
            pos <= n,
            par_stack@.len() == depth(p, pos as int),
            forall|k: int| 0 <= k <= pos ==> depth(p, k) >= 0,
            forall|j: int|
                0 <= j < par_stack@.len() ==> {
                    let o = #[trigger] par_stack@[j];
                    &&& o < pos
                    &&& p[o as int] == BrainfuckInstruction::JzFront
                    &&& depth(p, o as int) == j
                    &&& forall|k: int| o < k <= pos ==> depth(p, k) > j
                },
            forall|a: int, b: int|
                0 <= a < b < par_stack@.len() ==> par_stack@[a] < par_stack@[b],
            forall|i: usize|
                #[trigger] brackets_mapping@.contains_key(i) <==> (i < pos && is_bracket(
                    p[i as int],
                ) && !par_stack@.contains(i)),
            forall|i: usize|
                #![trigger brackets_mapping@[i]]
                brackets_mapping@.contains_key(i) && p[i as int] == BrainfuckInstruction::JzFront
                    ==> matching(p, i as int, brackets_mapping@[i] as int),
            forall|i: usize|
                #![trigger brackets_mapping@[i]]
                brackets_mapping@.contains_key(i) && p[i as int] == BrainfuckInstruction::JnzBack
                    ==> matching(p, brackets_mapping@[i] as int, i as int),
        decreases n - pos,
    {
        let ghost old_stack = par_stack@;
        match program[pos] {
            BrainfuckInstruction::JzFront => {
                par_stack.push(pos);
                assert forall|i: usize| i < pos implies (par_stack@.contains(i)
                    <==> old_stack.contains(i)) by {
                    if par_stack@.contains(i) {
                        let j = choose|j: int| 0 <= j < par_stack@.len() && par_stack@[j] == i;
                        assert(old_stack[j] == i);
                    }
                    if old_stack.contains(i) {
                        let j = choose|j: int| 0 <= j < old_stack.len() && old_stack[j] == i;
                        assert(par_stack@[j] == i);
                    }
                };
                assert(par_stack@[par_stack@.len() - 1] == pos);
            },
            BrainfuckInstruction::JnzBack => {
                match par_stack.pop() {
                    Some(opening_pos) => {
                        let closing_pos = pos;
                        assert(old_stack == par_stack@.push(opening_pos));
                        assert forall|i: usize| (old_stack.contains(i) <==> (par_stack@.contains(i)
                            || i == opening_pos)) by {
                            if old_stack.contains(i) {
                                let j = choose|j: int| 0 <= j < old_stack.len() && old_stack[j] == i;
                                if j < par_stack@.len() {
                                    assert(par_stack@[j] == i);
                                }
                            }
                            if par_stack@.contains(i) {
                                let j = choose|j: int|
                                    0 <= j < par_stack@.len() && par_stack@[j] == i;
                                assert(old_stack[j] == i);
                            }
                        };
                        assert(!par_stack@.contains(opening_pos)) by {
                            if par_stack@.contains(opening_pos) {
                                let j = choose|j: int|
                                    0 <= j < par_stack@.len() && par_stack@[j] == opening_pos;
                                assert(old_stack[j] < old_stack[old_stack.len() - 1]);
                            }
                        };
                        brackets_mapping.insert(opening_pos, closing_pos);
                        brackets_mapping.insert(closing_pos, opening_pos);
                    },
                    None => {
                        assert(depth(p, pos as int + 1) < 0);
                        return None;
                    },
                }
            },
            _ => {},
        }
        pos = pos + 1;
    }
    if par_stack.len() > 0 {
        return None;
    }
    Some(brackets_mapping)
}


/// The jump table of a balanced program.
pub open spec fn jump_table_of(p: Seq<BrainfuckInstruction>) -> Map<usize, usize> {
    choose|m: Map<usize, usize>| is_jump_table(p, m)
}

/// A `[` has at most one matching `]`, and a `]` at most one matching `[`.
pub proof fn lemma_matching_unique(p: Seq<BrainfuckInstruction>, o1: int, c1: int, o2: int, c2: int)
    requires
        matching(p, o1, c1),
        matching(p, o2, c2),
        o1 == o2 || c1 == c2,
    ensures
        o1 == o2 && c1 == c2,
{
    if o1 == o2 {
        if c1 < c2 {
            assert(depth(p, c1 + 1) > depth(p, o2));
        } else if c2 < c1 {
            assert(depth(p, c2 + 1) > depth(p, o1));
        }
    } else {
        if o1 < o2 {
            assert(depth(p, o2) > depth(p, o1));
        } else {
            assert(depth(p, o1) > depth(p, o2));
        }
    }
}

/// A program has at most one jump table.
pub proof fn lemma_jump_table_unique(
    p: Seq<BrainfuckInstruction>,
    m1: Map<usize, usize>,
    m2: Map<usize, usize>,
)
    requires
        is_jump_table(p, m1),
        is_jump_table(p, m2),
    ensures
        m1 == m2,
{
    assert forall|i: usize| m1.contains_key(i) implies m1[i] == m2[i] by {
        assert(m2.contains_key(i));
        if p[i as int] == BrainfuckInstruction::JzFront {
            lemma_matching_unique(p, i as int, m1[i] as int, i as int, m2[i] as int);
        } else {
            lemma_matching_unique(p, m1[i] as int, i as int, m2[i] as int, i as int);
        }
    };
    assert(m1 =~= m2);
}

/// How many times `ins` occurs in `p`.
pub open spec fn count_of(p: Seq<BrainfuckInstruction>, ins: BrainfuckInstruction) -> int
    decreases p.len(),
{
    if p.len() == 0 {
        0
    } else {
        count_of(p.drop_last(), ins) + if p.last() == ins {
            1int
        } else {
            0int
        }
    }
}

proof fn lemma_depth_counts(p: Seq<BrainfuckInstruction>, k: int)
    requires
        0 <= k <= p.len(),
    ensures
        depth(p, k) == count_of(p.take(k), BrainfuckInstruction::JzFront) - count_of(
            p.take(k),
            BrainfuckInstruction::JnzBack,
        ),
    decreases k,
{
    if k > 0 {
        lemma_depth_counts(p, k - 1);
        assert(p.take(k).drop_last() == p.take(k - 1));
    }
}

/// A program with more `[` than `]`, or more `]` than `[`, is unbalanced,
/// so building an interpreter for it fails.
pub proof fn lemma_unequal_brackets_unbalanced(p: Seq<BrainfuckInstruction>)
    requires
        count_of(p, BrainfuckInstruction::JzFront) != count_of(p, BrainfuckInstruction::JnzBack),
    ensures
        !balanced(p),
{
    lemma_depth_counts(p, p.len() as int);
    assert(p.take(p.len() as int) == p);
}

pub proof fn lemma_depth_after_prefix(pre: Seq<BrainfuckInstruction>, q: Seq<BrainfuckInstruction>, k: int)
    requires
        forall|i: int| 0 <= i < pre.len() ==> !is_bracket(#[trigger] pre[i]),
        0 <= k <= pre.len() + q.len(),
    ensures
        k <= pre.len() ==> depth(pre + q, k) == 0,
        k >= pre.len() ==> depth(pre + q, k) == depth(q, k - pre.len()),
    decreases k,
{
    if k > 0 {
        lemma_depth_after_prefix(pre, q, k - 1);
        if k <= pre.len() {
            assert(!is_bracket(pre[k - 1]));
        }
    }
}

/// Behind a prefix without brackets, the jump table is the program's own,
/// shifted by the prefix's length.
pub proof fn lemma_jump_table_after_prefix(
    pre: Seq<BrainfuckInstruction>,
    q: Seq<BrainfuckInstruction>,
    jq: Map<usize, usize>,
    jp: Map<usize, usize>,
    i: usize,
)
    requires
        forall|k: int| 0 <= k < pre.len() ==> !is_bracket(#[trigger] pre[k]),
        pre.len() + q.len() <= usize::MAX,
        is_jump_table(q, jq),
        is_jump_table(pre + q, jp),
        i < q.len(),
        is_bracket(q[i as int]),
    ensures
        jq.contains_key(i),
        jp.contains_key((i + pre.len()) as usize),
        jp[(i + pre.len()) as usize] == jq[i] + pre.len(),
{
    let n = pre.len() as int;
    let p = pre + q;
    let s = (i + n) as usize;
    assert(p[s as int] == q[i as int]);
    assert(jq.contains_key(i));
    assert(jp.contains_key(s));
    let (o, c) = if q[i as int] == BrainfuckInstruction::JzFront {
        (i as int, jq[i] as int)
    } else {
        (jq[i] as int, i as int)
    };
    assert(matching(q, o, c));
    lemma_depth_after_prefix(pre, q, o + n);
    lemma_depth_after_prefix(pre, q, c + 1 + n);
    assert forall|k: int| o + n < k <= c + n implies #[trigger] depth(p, k) > depth(p, o + n) by {
        lemma_depth_after_prefix(pre, q, k);
        assert(depth(q, k - n) > depth(q, o));
    };
    assert(p[o + n] == q[o]);
    assert(p[c + n] == q[c]);
    assert(matching(p, o + n, c + n));
    if q[i as int] == BrainfuckInstruction::JzFront {
        lemma_matching_unique(p, s as int, jp[s] as int, o + n, c + n);
    } else {
        lemma_matching_unique(p, jp[s] as int, s as int, o + n, c + n);
    }
}

/// A prefix without brackets changes nothing of whether the brackets balance.
pub proof fn lemma_balanced_after_prefix(pre: Seq<BrainfuckInstruction>, q: Seq<BrainfuckInstruction>)
    requires
        forall|i: int| 0 <= i < pre.len() ==> !is_bracket(#[trigger] pre[i]),
    ensures
        balanced(pre + q) == balanced(q),
{
    let p = pre + q;
    let n = pre.len() as int;
    lemma_depth_after_prefix(pre, q, p.len() as int);
    if balanced(q) {
        assert forall|k: int| 0 <= k <= p.len() implies #[trigger] depth(p, k) >= 0 by {
            lemma_depth_after_prefix(pre, q, k);
        };
    }
    if balanced(p) {
        assert forall|k: int| 0 <= k <= q.len() implies #[trigger] depth(q, k) >= 0 by {
            lemma_depth_after_prefix(pre, q, k + n);
        };
    }
}

} // verus!
