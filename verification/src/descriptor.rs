//! Output descriptors and the probability-weighted construction of a
//! Taproot script tree from compiled leaves.

use vstd::prelude::*;
use crate::errors::Error;
use vstd::multiset::Multiset;
use crate::keyexpr::{KeyExpr, SpecKeyExpr};
use crate::miniscript::{Miniscript, SpecMiniscript};

verus! {

broadcast use vstd::std_specs::vec::axiom_vec_index_decreases;

/// Model of a [`TapTree`].
pub enum SpecTapTree {
    /// A tapleaf holding one compiled script.
    Leaf(Box<SpecMiniscript>),
    /// An inner node with exactly two children.
    Tree(Box<SpecTapTree>, Box<SpecTapTree>),
}

/// A Taproot script tree: a binary tree whose leaves are compiled
/// Miniscripts.
#[derive(Debug, PartialEq, Eq)]
pub enum TapTree {
    /// A tapleaf holding one compiled script.
    Leaf(Box<Miniscript>),
    /// An inner node with exactly two children.
    Tree(Box<TapTree>, Box<TapTree>),
}

impl View for TapTree {
    type V = SpecTapTree;

    open spec fn view(&self) -> SpecTapTree
        decreases self,
    {
        match self {
            TapTree::Leaf(m) => SpecTapTree::Leaf(Box::new((**m)@)),
            TapTree::Tree(a, b) => SpecTapTree::Tree(Box::new((**a)@), Box::new((**b)@)),
        }
    }
}

/// The scripts at the leaves, leftmost first.
pub open spec fn spec_tap_leaf_seq(t: SpecTapTree) -> Seq<SpecMiniscript>
    decreases t,
{
    match t {
        SpecTapTree::Leaf(m) => seq![*m],
        SpecTapTree::Tree(a, b) => spec_tap_leaf_seq(*a) + spec_tap_leaf_seq(*b),
    }
}

/// The leaves with their depths below `d`, leftmost first; the root of the
/// tree stands at depth `d`.
pub open spec fn spec_tap_leaves_at(t: SpecTapTree, d: int) -> Seq<(int, SpecMiniscript)>
    decreases t,
{
    match t {
        SpecTapTree::Leaf(m) => seq![(d, *m)],
        SpecTapTree::Tree(a, b) => spec_tap_leaves_at(*a, d + 1) + spec_tap_leaves_at(*b, d + 1),
    }
}

/// The height of a tree is never negative.
pub proof fn lemma_tap_height_nonneg(t: SpecTapTree)
    ensures
        spec_tap_height(t) >= 0,
    decreases t,
{
    match t {
        SpecTapTree::Leaf(_) => {},
        SpecTapTree::Tree(a, b) => {
            lemma_tap_height_nonneg(*a);
            lemma_tap_height_nonneg(*b);
        },
    }
}

/// The height of the tree: a leaf has height 0.
pub open spec fn spec_tap_height(t: SpecTapTree) -> int
    decreases t,
{
    match t {
        SpecTapTree::Leaf(_) => 0,
        SpecTapTree::Tree(a, b) => 1 + if spec_tap_height(*a) >= spec_tap_height(*b) {
            spec_tap_height(*a)
        } else {
            spec_tap_height(*b)
        },
    }
}

impl TapTree {
    /// The leaves with their depths, leftmost first; the root stands at
    /// depth 0.
    pub fn leaves_with_depth(&self) -> (r: Vec<(u64, Miniscript)>)
        requires
            spec_tap_height(self@) <= u64::MAX,
        ensures
            r@.len() == spec_tap_leaves_at(self@, 0).len(),
            forall|j: int|
                0 <= j < r@.len() ==> r@[j].0 == spec_tap_leaves_at(self@, 0)[j].0 && r@[j].1@
                    == spec_tap_leaves_at(self@, 0)[j].1,
    {
        tap_leaves_rec(self, 0)
    }
}

fn tap_leaves_rec(t: &TapTree, d: u64) -> (r: Vec<(u64, Miniscript)>)
    requires
        d + spec_tap_height(t@) <= u64::MAX,
    ensures
        r@.len() == spec_tap_leaves_at(t@, d as int).len(),
        forall|j: int|
            0 <= j < r@.len() ==> r@[j].0 == spec_tap_leaves_at(t@, d as int)[j].0 && r@[j].1@
                == spec_tap_leaves_at(t@, d as int)[j].1,
    decreases t,
{
    match t {
        TapTree::Leaf(m) => {
            let mut out: Vec<(u64, Miniscript)> = Vec::new();
            out.push((d, (**m).clone()));
            out
        },
        TapTree::Tree(a, b) => {
            proof {
                lemma_tap_height_nonneg((**a)@);
                lemma_tap_height_nonneg((**b)@);
                assert(spec_tap_height(t@) == 1 + if spec_tap_height(*(t@)->Tree_0)
                    >= spec_tap_height(*(t@)->Tree_1) {
                    spec_tap_height(*(t@)->Tree_0)
                } else {
                    spec_tap_height(*(t@)->Tree_1)
                });
            }
            let mut out = tap_leaves_rec(a, d + 1);
            let mut rb = tap_leaves_rec(b, d + 1);
            let ghost ga = out@;
            let ghost gb = rb@;
            out.append(&mut rb);
            proof {
                let s = spec_tap_leaves_at(t@, d as int);
                let sa = spec_tap_leaves_at(*(t@)->Tree_0, d as int + 1);
                let sb = spec_tap_leaves_at(*(t@)->Tree_1, d as int + 1);
                assert(s == sa + sb);
                assert(forall|j: int| 0 <= j < sa.len() ==> s[j] == sa[j]);
                assert(forall|j: int| 0 <= j < sb.len() ==> s[sa.len() + j] == sb[j]);
            }
            out
        },
    }
}

fn tap_clone(t: &TapTree) -> (r: TapTree)
    ensures
        r@ == t@,
    decreases t,
{
    match t {
        TapTree::Leaf(m) => TapTree::Leaf(Box::new((**m).clone())),
        TapTree::Tree(a, b) => TapTree::Tree(Box::new(tap_clone(a)), Box::new(tap_clone(b))),
    }
}

impl Clone for TapTree {
    /// Deep copy; the copy has the same model as the original.
    fn clone(&self) -> (r: Self)
        ensures
            r@ == self@,
    {
        tap_clone(self)
    }
}

/// Model of a [`Descriptor`].
pub enum SpecDescriptor {
    /// A bare script.
    Bare(SpecMiniscript),
    /// Pay-to-script-hash.
    Sh(SpecMiniscript),
    /// Pay-to-witness-script-hash.
    Wsh(SpecMiniscript),
    /// Pay-to-witness-script-hash nested in pay-to-script-hash.
    ShWsh(SpecMiniscript),
    /// A Taproot output: an internal key and an optional script tree.
    Tr(SpecKeyExpr, Option<SpecTapTree>),
}

/// A top-level output descriptor naming the script context and carrying
/// the compiled script.
#[derive(Debug, PartialEq, Eq)]
pub enum Descriptor {
    /// A bare script.
    Bare(Miniscript),
    /// Pay-to-script-hash.
    Sh(Miniscript),
    /// Pay-to-witness-script-hash.
    Wsh(Miniscript),
    /// Pay-to-witness-script-hash nested in pay-to-script-hash.
    ShWsh(Miniscript),
    /// A Taproot output: an internal key and an optional script tree.
    Tr(KeyExpr, Option<TapTree>),
}

impl View for Descriptor {
    type V = SpecDescriptor;

    open spec fn view(&self) -> SpecDescriptor {
        match self {
            Descriptor::Bare(m) => SpecDescriptor::Bare(m@),
            Descriptor::Sh(m) => SpecDescriptor::Sh(m@),
            Descriptor::Wsh(m) => SpecDescriptor::Wsh(m@),
            Descriptor::ShWsh(m) => SpecDescriptor::ShWsh(m@),
            Descriptor::Tr(k, t) => SpecDescriptor::Tr(
                k@,
                match t {
                    Some(tree) => Some(tree@),
                    None => None,
                },
            ),
        }
    }
}

/// The leaf scripts owned by the trees of a queue, leftmost tree first.
pub open spec fn spec_queue_leaves(q: Seq<(u128, TapTree)>) -> Seq<SpecMiniscript>
    decreases q,
{
    if q.len() == 0 {
        Seq::empty()
    } else {
        spec_tap_leaf_seq(q[0].1@) + spec_queue_leaves(q.drop_first())
    }
}

proof fn lemma_queue_leaves_remove(q: Seq<(u128, TapTree)>, j: int)
    requires
        0 <= j < q.len(),
    ensures
        spec_queue_leaves(q).to_multiset() == spec_queue_leaves(q.remove(j)).to_multiset().add(
            spec_tap_leaf_seq(q[j].1@).to_multiset(),
        ),
    decreases q.len(),
{
    broadcast use vstd::seq_lib::group_seq_properties;

    if j == 0 {
        assert(q.remove(0) =~= q.drop_first());
        vstd::seq_lib::lemma_multiset_commutative(
            spec_tap_leaf_seq(q[0].1@),
            spec_queue_leaves(q.drop_first()),
        );
        assert(spec_queue_leaves(q).to_multiset() =~= spec_queue_leaves(
            q.drop_first(),
        ).to_multiset().add(spec_tap_leaf_seq(q[0].1@).to_multiset()));
    } else {
        lemma_queue_leaves_remove(q.drop_first(), j - 1);
        assert(q.remove(j).drop_first() =~= q.drop_first().remove(j - 1));
        assert(q.remove(j)[0] == q[0]);
        vstd::seq_lib::lemma_multiset_commutative(
            spec_tap_leaf_seq(q[0].1@),
            spec_queue_leaves(q.drop_first()),
        );
        vstd::seq_lib::lemma_multiset_commutative(
            spec_tap_leaf_seq(q.remove(j)[0].1@),
            spec_queue_leaves(q.remove(j).drop_first()),
        );
        assert(q.drop_first()[j - 1] == q[j]);
        assert(spec_queue_leaves(q).to_multiset() =~= spec_queue_leaves(
            q.remove(j),
        ).to_multiset().add(spec_tap_leaf_seq(q[j].1@).to_multiset()));
    }
}

proof fn lemma_queue_leaves_push(q: Seq<(u128, TapTree)>, x: (u128, TapTree))
    ensures
        spec_queue_leaves(q.push(x)).to_multiset() == spec_queue_leaves(q).to_multiset().add(
            spec_tap_leaf_seq(x.1@).to_multiset(),
        ),
    decreases q.len(),
{
    broadcast use vstd::seq_lib::group_seq_properties;

    if q.len() == 0 {
        assert(q.push(x).drop_first() =~= Seq::<(u128, TapTree)>::empty());
        assert(spec_queue_leaves(q.push(x)) =~= spec_tap_leaf_seq(x.1@) + Seq::empty());
        assert(spec_tap_leaf_seq(x.1@) + Seq::<SpecMiniscript>::empty() =~= spec_tap_leaf_seq(
            x.1@,
        ));
        assert(spec_queue_leaves(q).to_multiset() =~= Multiset::empty());
    } else {
        lemma_queue_leaves_push(q.drop_first(), x);
        assert(q.push(x).drop_first() =~= q.drop_first().push(x));
        assert(q.push(x)[0] == q[0]);
        vstd::seq_lib::lemma_multiset_commutative(
            spec_tap_leaf_seq(q[0].1@),
            spec_queue_leaves(q.drop_first().push(x)),
        );
        vstd::seq_lib::lemma_multiset_commutative(
            spec_tap_leaf_seq(q[0].1@),
            spec_queue_leaves(q.drop_first()),
        );
        assert(spec_queue_leaves(q.push(x)).to_multiset() =~= spec_queue_leaves(
            q,
        ).to_multiset().add(spec_tap_leaf_seq(x.1@).to_multiset()));
    }
}

/// The scripts of the input leaves, in input order.
pub open spec fn spec_input_leaves(ms: Seq<(u64, Miniscript)>) -> Seq<SpecMiniscript> {
    Seq::new(
        ms.len(),
        |i: int| if 0 <= i < ms.len() { ms[i].1@ } else { SpecMiniscript::After(0) },
    )
}

/// Build a Taproot script tree from compiled leaves by repeatedly joining
/// the two lowest-probability nodes; on equal probabilities the node that
/// entered the queue earliest is taken first. The resulting tree holds
/// exactly the input scripts as its leaves.
pub fn with_huffman_tree(ms: Vec<(u64, Miniscript)>) -> (r: Result<TapTree, Error>)
    ensures
        ms@.len() == 0 <==> r is Err,
        r matches Err(e) ==> e == Error::EmptyCompilation,
        r matches Ok(t) ==> spec_tap_leaf_seq(t@).to_multiset() == spec_input_leaves(
            ms@,
        ).to_multiset(),
{
    let ghost input = ms@;
    if ms.len() == 0 {
        return Err(Error::EmptyCompilation);
    }
    let mut node_weights: Vec<(u128, TapTree)> = Vec::new();
    let n = ms.len();
    proof {
        broadcast use vstd::seq_lib::group_seq_properties;

        assert(spec_input_leaves(ms@).subrange(0, 0) =~= Seq::<SpecMiniscript>::empty());
        assert(spec_queue_leaves(node_weights@) =~= Seq::<SpecMiniscript>::empty());
    }
    for i in 0..n
        invariant
            n == ms.len(),
            node_weights.len() == i,
            spec_queue_leaves(node_weights@).to_multiset() == spec_input_leaves(
                ms@,
            ).subrange(0, i as int).to_multiset(),
        decreases n - i,
    {
        let ghost before = node_weights@;
        let prob = ms[i].0;
        let script = ms[i].1.clone();
        node_weights.push((prob as u128, TapTree::Leaf(Box::new(script))));
        proof {
            broadcast use vstd::seq_lib::group_seq_properties;

            lemma_queue_leaves_push(
                before,
                node_weights@[node_weights@.len() - 1],
            );
            let li = spec_input_leaves(ms@);
            assert(li.subrange(0, i as int).push(li[i as int]) =~= li.subrange(0, i as int + 1));
            assert(spec_tap_leaf_seq(node_weights@[node_weights@.len() - 1].1@)
                =~= seq![li[i as int]]);
            assert(li.subrange(0, i as int).push(li[i as int]).to_multiset() == li.subrange(
                0,
                i as int,
            ).to_multiset().insert(li[i as int]));
            assert(seq![li[i as int]].to_multiset() == Multiset::empty().insert(li[i as int]));
        }
    }
    proof {
        assert(spec_input_leaves(ms@).subrange(0, n as int) =~= spec_input_leaves(ms@));
    }
    while node_weights.len() > 1
        invariant
            node_weights.len() >= 1,
            spec_queue_leaves(node_weights@).to_multiset() == spec_input_leaves(
                input,
            ).to_multiset(),
        decreases node_weights.len(),
    {
        let j1 = min_prob_index(&node_weights);
        let ghost q0 = node_weights@;
        let (p1, s1) = node_weights.remove(j1);
        proof {
            lemma_queue_leaves_remove(q0, j1 as int);
        }
        let j2 = min_prob_index(&node_weights);
        let ghost q1 = node_weights@;
        let (p2, s2) = node_weights.remove(j2);
        proof {
            lemma_queue_leaves_remove(q1, j2 as int);
        }
        let ghost q2 = node_weights@;
        let p = if p1 <= u128::MAX - p2 {
            p1 + p2
        } else {
            u128::MAX
        };
        let combined = TapTree::Tree(Box::new(s1), Box::new(s2));
        node_weights.push((p, combined));
        proof {
            lemma_queue_leaves_push(q2, node_weights@[node_weights@.len() - 1]);
            let la = spec_tap_leaf_seq(q0[j1 as int].1@);
            let lb = spec_tap_leaf_seq(q1[j2 as int].1@);
            let cmb = node_weights@[node_weights@.len() - 1].1@;
            assert(spec_tap_leaf_seq(cmb) =~= la + lb);
            vstd::seq_lib::lemma_multiset_commutative(la, lb);
            assert(spec_queue_leaves(node_weights@).to_multiset() == spec_queue_leaves(
                q2,
            ).to_multiset().add(la.to_multiset().add(lb.to_multiset())));
            assert(spec_queue_leaves(q1).to_multiset() == spec_queue_leaves(
                q2,
            ).to_multiset().add(lb.to_multiset()));
            assert(spec_queue_leaves(q0).to_multiset() == spec_queue_leaves(
                q1,
            ).to_multiset().add(la.to_multiset()));
            assert(spec_queue_leaves(q2).to_multiset().add(la.to_multiset().add(lb.to_multiset()))
                =~= spec_queue_leaves(q2).to_multiset().add(lb.to_multiset()).add(
                la.to_multiset(),
            ));
        }
    }
    let ghost qf = node_weights@;
    let (_p, tree) = node_weights.remove(0);
    proof {
        broadcast use vstd::seq_lib::group_seq_properties;

        lemma_queue_leaves_remove(qf, 0);
        assert(qf.remove(0) =~= Seq::<(u128, TapTree)>::empty());
        assert(spec_queue_leaves(Seq::<(u128, TapTree)>::empty()).to_multiset() =~= Multiset::<
            SpecMiniscript,
        >::empty());
        assert(Multiset::<SpecMiniscript>::empty().add(spec_tap_leaf_seq(tree@).to_multiset())
            =~= spec_tap_leaf_seq(tree@).to_multiset());
    }
    Ok(tree)
}

/// The position of the lowest probability in the queue; on ties, the
/// earliest such position.
fn min_prob_index(q: &Vec<(u128, TapTree)>) -> (r: usize)
    requires
        q.len() >= 1,
    ensures
        r < q.len(),
        forall|j: int| 0 <= j < q.len() ==> q@[r as int].0 <= (#[trigger] q@[j]).0,
        forall|j: int| 0 <= j < r ==> q@[r as int].0 < (#[trigger] q@[j]).0,
{
    let mut best: usize = 0;
    let n = q.len();
    for i in 1..n
        invariant
            n == q.len(),
            best < i <= n,
            forall|j: int| 0 <= j < i ==> q@[best as int].0 <= (#[trigger] q@[j]).0,
            forall|j: int| 0 <= j < best ==> q@[best as int].0 < (#[trigger] q@[j]).0,
        decreases n - i,
    {
        if q[i].0 < q[best].0 {
            best = i;
        }
    }
    best
}

} // verus!
