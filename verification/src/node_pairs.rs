//! The unordered pairs of a list of nodes.
use vstd::prelude::*;

verus! {

/// The pairs `(s[i], s[j])` with `j < i`, ordered by `i` and then by `j`.
pub open spec fn spec_node_pairs<T>(s: Seq<T>) -> Seq<(T, T)>
    decreases s.len(),
{
    if s.len() == 0 {
        Seq::empty()
    } else {
        let first = s.drop_last();
        spec_node_pairs(first) + first.map_values(|second: T| (s.last(), second))
    }
}

/// `0 + 1 + ... + (i - 1)`: the number of pairs among `i` nodes.
spec fn triangle(i: nat) -> nat
    decreases i,
{
    if i == 0 {
        0
    } else {
        triangle((i - 1) as nat) + (i - 1) as nat
    }
}

proof fn lemma_triangle(i: nat)
    ensures
        triangle(i) * 2 == i * (i - 1),
        forall|k: nat| k <= i ==> #[trigger] triangle(k) <= triangle(i),
    decreases i,
{
    if i > 0 {
        lemma_triangle((i - 1) as nat);
        assert(triangle(i) * 2 == i * (i - 1)) by (nonlinear_arith)
            requires
                triangle((i - 1) as nat) * 2 == (i - 1) * (i - 2),
                triangle(i) == triangle((i - 1) as nat) + (i - 1),
        {
        }
    } else {
        assert(i * (i - 1) == 0) by (nonlinear_arith)
            requires
                i == 0,
        {
        }
    }
}

/// The pairs of a list of `n` nodes are all `n * (n - 1) / 2` pairs of two different positions,
/// each once: the pair of node `i` with an earlier node `j` stands at `i * (i - 1) / 2 + j`.
pub proof fn lemma_node_pairs_are_all_pairs<T>(s: Seq<T>)
    ensures
        spec_node_pairs(s).len() == s.len() * (s.len() - 1) / 2,
        forall|i: int, j: int|
            #![trigger s[i], s[j]]
            0 <= j < i < s.len() ==> spec_node_pairs(s)[i * (i - 1) / 2 + j] == (s[i], s[j]),
    decreases s.len(),
{
    lemma_node_pairs_by_triangle(s);
    lemma_triangle(s.len());
    assert forall|i: int, j: int|
        #![trigger s[i], s[j]]
        0 <= j < i < s.len() implies spec_node_pairs(s)[i * (i - 1) / 2 + j] == (s[i], s[j]) by {
        lemma_triangle(i as nat);
        assert(triangle(i as nat) == i * (i - 1) / 2);
    }
}

proof fn lemma_node_pairs_by_triangle<T>(s: Seq<T>)
    ensures
        spec_node_pairs(s).len() == triangle(s.len()),
        forall|i: int, j: int|
            #![trigger s[i], s[j]]
            0 <= j < i < s.len() ==> spec_node_pairs(s)[triangle(i as nat) + j] == (s[i], s[j]),
    decreases s.len(),
{
    if s.len() > 0 {
        let n = s.len();
        let first = s.drop_last();
        lemma_node_pairs_by_triangle(first);
        lemma_triangle((n - 1) as nat);
        let tail = first.map_values(|second: T| (s.last(), second));
        assert(spec_node_pairs(s) == spec_node_pairs(first) + tail);
        assert forall|i: int, j: int|
            #![trigger s[i], s[j]]
            0 <= j < i < n implies spec_node_pairs(s)[triangle(i as nat) + j] == (s[i], s[j]) by {
            if i < n - 1 {
                assert(first[i] == s[i] && first[j] == s[j]);
                assert(triangle((i + 1) as nat) <= triangle((n - 1) as nat));
                assert(triangle(i as nat) + j < triangle((n - 1) as nat));
            } else {
                assert(tail[j] == (s.last(), first[j]));
            }
        }
    }
}

/// Every pair of two different positions of `nodes`, once: for each node, in order, the pairs
/// of it with each node before it, in order.
pub fn node_pairs<T: Copy>(nodes: &[T]) -> (pairs: Vec<(T, T)>)
    ensures
        pairs@ == spec_node_pairs(nodes@),
{
    let mut pairs: Vec<(T, T)> = Vec::new();
    let n = nodes.len();
    let mut i: usize = 0;
    while i < n
        invariant
            n == nodes@.len(),
            i <= n,
            pairs@ == spec_node_pairs(nodes@.take(i as int)),
        decreases n - i,
    {
        let first_node = nodes[i];
        let ghost before = pairs@;
        let ghost prefix = nodes@.take(i as int);
        let mut j: usize = 0;
        while j < i
            invariant
                n == nodes@.len(),
                i < n,
                j <= i,
                first_node == nodes@[i as int],
                prefix == nodes@.take(i as int),
                pairs@ == before + prefix.take(j as int).map_values(
                    |second: T| (first_node, second),
                ),
            decreases i - j,
        {
            pairs.push((first_node, nodes[j]));
            proof {
                assert(prefix.take(j + 1) == prefix.take(j as int).push(nodes@[j as int]));
                assert(prefix.take(j + 1).map_values(|second: T| (first_node, second))
                    == prefix.take(j as int).map_values(|second: T| (first_node, second)).push(
                    (first_node, nodes@[j as int]),
                ));
            }
            j = j + 1;
        }
        proof {
            let next = nodes@.take(i + 1);
            assert(next.drop_last() == prefix);
            assert(next.last() == first_node);
            assert(prefix.take(i as int) == prefix);
        }
        i = i + 1;
    }
    proof {
        assert(nodes@.take(n as int) == nodes@);
    }
    pairs
}

} // verus!
