//! The Taproot compiler pass: flatten a policy's disjunctions into
//! probability-weighted leaves, choose an internal key, prune the chosen
//! sub-policy, compile the remaining leaves, and assemble the descriptor.

use vstd::prelude::*;
use crate::descriptor::{Descriptor, SpecDescriptor, with_huffman_tree};
use crate::errors::{CompilerError, Error};
use crate::keyexpr::{KeyExpr, SpecKeyExpr, kvs};
use crate::miniscript::Miniscript;
use crate::policy::{
    Policy, PolicyError, SpecPolicy, pvs, prs, svs, spec_keys, spec_is_valid, spec_safe_nm,
};

verus! {

broadcast use vstd::std_specs::vec::axiom_vec_index_decreases;

/// One unit of probability: the whole probability mass, scaled by `2^32`.
/// All leaf probabilities are fractions of this value, computed with
/// truncating division.
pub const PROB_ONE: u64 = 0x1_0000_0000;

/// Script context a policy is compiled for.
pub enum DescriptorCtx {
    /// A bare script.
    Bare,
    /// Pay-to-script-hash.
    Sh,
    /// Pay-to-witness-script-hash.
    Wsh,
    /// Pay-to-witness-script-hash nested in pay-to-script-hash.
    ShWsh,
    /// Taproot; the optional key serves as the internal key when none can
    /// be extracted from the policy.
    Tr(Option<String>),
}

/// The compiler for single tapleaf policies. The compilation itself is an
/// external concern: implementations translate one leaf policy into a
/// Miniscript for the Taproot leaf context, and nothing is assumed here
/// about what they return.
pub trait LeafCompiler {
    /// Compile one policy into a Miniscript, or refuse it.
    fn best_compilation(&self, policy: &Policy) -> Result<Miniscript, CompilerError>;
}

/// View of weighted leaf vectors as weighted models.
pub open spec fn tps(s: Seq<(u64, Policy)>) -> Seq<(u64, SpecPolicy)> {
    Seq::new(
        s.len(),
        |i: int|
            if 0 <= i < s.len() {
                (s[i].0, s[i].1@)
            } else {
                (0u64, SpecPolicy::Unsatisfiable)
            },
    )
}

/// Sum of the first `n` weights.
pub open spec fn sum_weights(s: Seq<(usize, SpecPolicy)>, n: int) -> int
    decreases n,
{
    if n <= 0 || n > s.len() {
        0
    } else {
        sum_weights(s, n - 1) + s[n - 1].0
    }
}

/// Every weight is bounded by the total, and the total is not negative.
pub proof fn lemma_sum_weights_bounds(s: Seq<(usize, SpecPolicy)>, n: int)
    ensures
        sum_weights(s, n) >= 0,
        forall|i: int| 0 <= i < n && n <= s.len() ==> (#[trigger] s[i].0) <= sum_weights(s, n),
    decreases n,
{
    if n > 0 {
        lemma_sum_weights_bounds(s, n - 1);
    }
}

/// The share `prob * w / wsum` of a probability, truncated; zero when the
/// weights sum to zero.
pub open spec fn prob_share(prob: u64, w: int, wsum: int) -> u64 {
    if wsum <= 0 {
        0u64
    } else {
        ((prob * w) / wsum) as u64
    }
}

/// The tapleaf decomposition of a policy: disjunctions and `1`-of-`n`
/// thresholds distribute their probability over their children by relative
/// weight (uniformly for thresholds); every other node becomes one leaf
/// with the probability accumulated on the path to it.
pub open spec fn spec_tapleaf_probs(p: SpecPolicy, prob: u64) -> Seq<(u64, SpecPolicy)>
    decreases p, 0int,
{
    match p {
        SpecPolicy::Or(s) => spec_or_leaves(s, 0, prob, sum_weights(s, s.len() as int)),
        SpecPolicy::Threshold(k, s) => if k == 1 {
            spec_thresh_leaves(s, 0, prob)
        } else {
            seq![(prob, p)]
        },
        _ => seq![(prob, p)],
    }
}

/// Leaves of the weighted children from position `i` on.
pub open spec fn spec_or_leaves(
    s: Seq<(usize, SpecPolicy)>,
    i: int,
    prob: u64,
    wsum: int,
) -> Seq<(u64, SpecPolicy)>
    decreases s, s.len() - i,
{
    if i < 0 || i >= s.len() {
        Seq::empty()
    } else {
        spec_tapleaf_probs(s[i].1, prob_share(prob, s[i].0 as int, wsum)) + spec_or_leaves(
            s,
            i + 1,
            prob,
            wsum,
        )
    }
}

/// Leaves of the children of a `1`-of-`n` threshold from position `i` on,
/// with the probability split uniformly.
pub open spec fn spec_thresh_leaves(s: Seq<SpecPolicy>, i: int, prob: u64) -> Seq<
    (u64, SpecPolicy),
>
    decreases s, s.len() - i,
{
    if i < 0 || i >= s.len() {
        Seq::empty()
    } else {
        spec_tapleaf_probs(s[i], (prob as int / s.len() as int) as u64) + spec_thresh_leaves(
            s,
            i + 1,
            prob,
        )
    }
}

impl Policy {
    /// Flatten the policy into `(probability, leaf policy)` pairs, each
    /// probability being the product of the branch shares on the path from
    /// the root, starting from `prob`.
    pub fn to_tapleaf_prob_vec(&self, prob: u64) -> (r: Vec<(u64, Policy)>)
        ensures
            tps(r@) == spec_tapleaf_probs(self@, prob),
        decreases self,
    {
        match self {
            Policy::Or(subs) => {
                let mut wsum: u128 = 0;
                let n = subs.len();
                for i in 0..n
                    invariant
                        n == subs.len(),
                        wsum == sum_weights(prs(*subs), i as int),
                        wsum <= i as u128 * 0xffff_ffff_ffff_ffffu128,
                    decreases n - i,
                {
                    proof {
                        lemma_sum_weights_bounds(prs(*subs), i as int);
                        assert(prs(*subs)[i as int].0 == subs[i as int].0);
                        assert(subs@[i as int].0 <= 0xffff_ffff_ffff_ffffu128) by {
                            assert(usize::MAX <= 0xffff_ffff_ffff_ffffu128);
                        }
                    }
                    wsum = wsum + subs[i].0 as u128;
                }
                let r = or_leaves_exec(subs, 0, prob, wsum);
                proof {
                    assert(prs(*subs).len() == subs@.len());
                }
                r
            },
            Policy::Threshold(k, subs) => {
                if *k == 1 {
                    thresh_leaves_exec(subs, 0, prob)
                } else {
                    let mut out: Vec<(u64, Policy)> = Vec::new();
                    out.push((prob, cloned_policy(self)));
                    proof {
                        assert(tps(out@) =~= seq![(prob, self@)]);
                    }
                    out
                }
            },
            _ => {
                let mut out: Vec<(u64, Policy)> = Vec::new();
                out.push((prob, cloned_policy(self)));
                proof {
                    assert(tps(out@) =~= seq![(prob, self@)]);
                }
                out
            },
        }
    }
}

fn cloned_policy(p: &Policy) -> (r: Policy)
    ensures
        r@ == p@,
{
    p.clone()
}

pub broadcast proof fn lemma_tps_concat(a: Seq<(u64, Policy)>, b: Seq<(u64, Policy)>)
    ensures
        #[trigger] tps(a + b) == tps(a) + tps(b),
{
    assert(tps(a + b) =~= tps(a) + tps(b));
}

fn or_leaves_exec(subs: &Vec<(usize, Policy)>, i: usize, prob: u64, wsum: u128) -> (r: Vec<
    (u64, Policy),
>)
    requires
        i <= subs.len(),
        wsum == sum_weights(prs(*subs), subs@.len() as int),
    ensures
        tps(r@) == spec_or_leaves(prs(*subs), i as int, prob, wsum as int),
    decreases subs, subs@.len() - i,
{
    if i == subs.len() {
        let v: Vec<(u64, Policy)> = Vec::new();
        proof {
            assert(tps(v@) =~= spec_or_leaves(prs(*subs), i as int, prob, wsum as int));
        }
        v
    } else {
        let w = subs[i].0;
        let share: u64 = if wsum == 0 {
            0
        } else {
            proof {
                lemma_sum_weights_bounds(prs(*subs), subs@.len() as int);
                assert(prs(*subs)[i as int].0 == subs@[i as int].0);
                assert(w as int <= wsum as int);
                assert((prob as int) * (w as int) <= (prob as int) * (wsum as int))
                    by (nonlinear_arith)
                    requires
                        w as int <= wsum as int,
                        prob >= 0,
                ;
                assert(((prob as int) * (wsum as int)) / (wsum as int) == prob as int)
                    by (nonlinear_arith)
                    requires
                        wsum as int > 0,
                ;
                assert(((prob as int) * (w as int)) / (wsum as int) <= ((prob as int) * (
                wsum as int)) / (wsum as int)) by (nonlinear_arith)
                    requires
                        wsum as int > 0,
                        (prob as int) * (w as int) <= (prob as int) * (wsum as int),
                ;
                assert((prob as int) * (w as int) <= 0xffff_ffff_ffff_ffff_ffff_ffff_ffff_ffff)
                    by (nonlinear_arith)
                    requires
                        0 <= prob as int <= 0xffff_ffff_ffff_ffff,
                        0 <= w as int <= 0xffff_ffff_ffff_ffff,
                ;
            }
            ((prob as u128 * w as u128) / wsum) as u64
        };
        proof {
            assert(share == prob_share(prob, prs(*subs)[i as int].0 as int, wsum as int));
        }
        let mut r = subs[i].1.to_tapleaf_prob_vec(share);
        let mut rest = or_leaves_exec(subs, i + 1, prob, wsum);
        let ghost ra = r@;
        let ghost rb = rest@;
        r.append(&mut rest);
        proof {
            lemma_tps_concat(ra, rb);
            assert(prs(*subs)[i as int].1 == subs@[i as int].1@);
        }
        r
    }
}

fn thresh_leaves_exec(subs: &Vec<Policy>, i: usize, prob: u64) -> (r: Vec<(u64, Policy)>)
    requires
        i <= subs.len(),
    ensures
        tps(r@) == spec_thresh_leaves(pvs(*subs), i as int, prob),
    decreases subs, subs@.len() - i,
{
    if i == subs.len() {
        let v: Vec<(u64, Policy)> = Vec::new();
        proof {
            assert(tps(v@) =~= spec_thresh_leaves(pvs(*subs), i as int, prob));
        }
        v
    } else {
        let n = subs.len();
        let share: u64 = (prob as u128 / n as u128) as u64;
        proof {
            assert(share as int == prob as int / pvs(*subs).len() as int);
        }
        let mut r = subs[i].to_tapleaf_prob_vec(share);
        let mut rest = thresh_leaves_exec(subs, i + 1, prob);
        let ghost ra = r@;
        let ghost rb = rest@;
        r.append(&mut rest);
        proof {
            lemma_tps_concat(ra, rb);
            assert(pvs(*subs)[i as int] == subs@[i as int]@);
        }
        r
    }
}

impl Policy {
    /// Whether this node is a bare `Key` leaf.
    pub fn is_key(&self) -> (r: bool)
        ensures
            r == (self@ is Key),
    {
        match self {
            Policy::Key(_) => true,
            _ => false,
        }
    }
}


/// The keys extracted from a candidate sub-policy for use as a MuSig
/// internal key: a bare key yields itself; a binary `And` of two keys
/// yields both; an `n`-of-`n` threshold yields all children's extractions
/// when every one is non-empty; a partial threshold takes the first `k`
/// non-empty extractions when at least `k` exist; a disjunction prefers
/// the heavier side, falling back to the other when that side is empty,
/// and on equal weights prefers the shorter non-empty extraction.
pub open spec fn spec_extract(p: SpecPolicy) -> Seq<Seq<char>>
    decreases p, 1int,
{
    match p {
        SpecPolicy::Key(k) => seq![k],
        SpecPolicy::And(s) => if s.len() == 2 && s[0] is Key && s[1] is Key {
            seq![s[0]->Key_0, s[1]->Key_0]
        } else {
            Seq::empty()
        },
        SpecPolicy::Threshold(k, s) => {
            let n = s.len() as int;
            let ne = spec_nonempty_from(s, 0);
            if k == n {
                if ne == n {
                    spec_flatten_need(s, 0, n)
                } else {
                    Seq::empty()
                }
            } else {
                if ne >= k {
                    spec_flatten_need(s, 0, k as int)
                } else {
                    Seq::empty()
                }
            }
        },
        SpecPolicy::Or(s) => if s.len() == 2 {
            let l = spec_extract(s[0].1);
            let r = spec_extract(s[1].1);
            if s[0].0 > s[1].0 {
                if l.len() == 0 {
                    r
                } else {
                    l
                }
            } else if s[0].0 < s[1].0 {
                if r.len() == 0 {
                    l
                } else {
                    r
                }
            } else {
                if l.len() == 0 {
                    r
                } else if r.len() == 0 {
                    l
                } else if l.len() < r.len() {
                    l
                } else {
                    r
                }
            }
        } else {
            Seq::empty()
        },
        _ => Seq::empty(),
    }
}

/// How many children from position `i` on have a non-empty extraction.
pub open spec fn spec_nonempty_from(s: Seq<SpecPolicy>, i: int) -> int
    decreases s, s.len() - i, 0int,
{
    if i < 0 || i >= s.len() {
        0
    } else {
        (if spec_extract(s[i]).len() > 0 {
            1int
        } else {
            0int
        }) + spec_nonempty_from(s, i + 1)
    }
}

/// The concatenation of the first `need` non-empty extractions from
/// position `i` on.
pub open spec fn spec_flatten_need(s: Seq<SpecPolicy>, i: int, need: int) -> Seq<Seq<char>>
    decreases s, s.len() - i, 0int,
{
    if i < 0 || i >= s.len() || need <= 0 {
        Seq::empty()
    } else if spec_extract(s[i]).len() > 0 {
        spec_extract(s[i]) + spec_flatten_need(s, i + 1, need - 1)
    } else {
        spec_flatten_need(s, i + 1, need)
    }
}

/// Restatement of [`spec_extract`] on threshold nodes, for use at call
/// sites where the full definition is too large to unfold.
pub proof fn lemma_extract_thresh(p: SpecPolicy)
    requires
        p is Threshold,
    ensures
        spec_extract(p) == ({
            let k = p->Threshold_0;
            let s = p->Threshold_1;
            let n = s.len() as int;
            let ne = spec_nonempty_from(s, 0);
            if k == n {
                if ne == n {
                    spec_flatten_need(s, 0, n)
                } else {
                    Seq::<Seq<char>>::empty()
                }
            } else {
                if ne >= k {
                    spec_flatten_need(s, 0, k as int)
                } else {
                    Seq::<Seq<char>>::empty()
                }
            }
        }),
{
}

/// On a threshold where nothing is to be taken, the flattening is empty.
pub proof fn lemma_flatten_zero(s: Seq<SpecPolicy>)
    ensures
        spec_flatten_need(s, 0, 0) == Seq::<Seq<char>>::empty(),
{
}

impl Policy {
    /// Extract the internal-key candidates from this sub-policy; see
    /// [`spec_extract`] for the selection rules.
    #[verifier::rlimit(50)]
    pub fn extract_recursive(&self) -> (r: Vec<String>)
        ensures
            svs(r@) == spec_extract(self@),
        decreases self, 1int,
    {
        match self {
            Policy::Key(k) => {
                let mut v: Vec<String> = Vec::new();
                v.push(k.clone());
                proof {
                    assert(svs(v@) =~= seq![k@]);
                }
                v
            },
            Policy::And(subs) => {
                if subs.len() == 2 {
                    let both = match (&subs[0], &subs[1]) {
                        (Policy::Key(a), Policy::Key(b)) => {
                            let mut v: Vec<String> = Vec::new();
                            v.push(a.clone());
                            v.push(b.clone());
                            Some(v)
                        },
                        _ => None,
                    };
                    match both {
                        Some(v) => {
                            proof {
                                assert(pvs(*subs)[0] == subs@[0]@);
                                assert(pvs(*subs)[1] == subs@[1]@);
                                assert(svs(v@) =~= spec_extract(self@));
                            }
                            v
                        },
                        None => {
                            let v: Vec<String> = Vec::new();
                            proof {
                                assert(pvs(*subs)[0] == subs@[0]@);
                                assert(pvs(*subs)[1] == subs@[1]@);
                                assert(svs(v@) =~= spec_extract(self@));
                            }
                            v
                        },
                    }
                } else {
                    let v: Vec<String> = Vec::new();
                    proof {
                        assert(self@ matches SpecPolicy::And(s) && s == pvs(*subs));
                        assert(pvs(*subs).len() == subs@.len());
                        assert(svs(v@) =~= spec_extract(self@));
                    }
                    v
                }
            },
            Policy::Threshold(k, subs) => {
                let n = subs.len();
                let ne = count_nonempty(subs, 0);
                let take = if *k == n {
                    if ne == n {
                        n
                    } else {
                        0
                    }
                } else {
                    if ne >= *k {
                        *k
                    } else {
                        0
                    }
                };
                proof {
                    assert(self@ matches SpecPolicy::Threshold(kk, s) && kk == *k && s == pvs(
                        *subs,
                    ));
                    assert(pvs(*subs).len() == subs@.len());
                    lemma_extract_thresh(self@);
                    lemma_flatten_zero(pvs(*subs));
                }
                if take == 0 {
                    let v: Vec<String> = Vec::new();
                    proof {
                        assert(svs(v@) =~= Seq::<Seq<char>>::empty());
                        assert(spec_extract(self@) == Seq::<Seq<char>>::empty());
                    }
                    v
                } else {
                    let v = flatten_need_exec(subs, 0, take);
                    proof {
                        assert(svs(v@) == spec_extract(self@));
                    }
                    v
                }
            },
            Policy::Or(subs) => {
                if subs.len() == 2 {
                    let w0 = subs[0].0;
                    let w1 = subs[1].0;
                    let l = subs[0].1.extract_recursive();
                    let r = subs[1].1.extract_recursive();
                    proof {
                        assert(prs(*subs)[0].1 == subs@[0].1@);
                        assert(prs(*subs)[1].1 == subs@[1].1@);
                        assert(prs(*subs)[0].0 == subs@[0].0);
                        assert(prs(*subs)[1].0 == subs@[1].0);
                    }
                    if w0 > w1 {
                        if l.len() == 0 {
                            r
                        } else {
                            l
                        }
                    } else if w0 < w1 {
                        if r.len() == 0 {
                            l
                        } else {
                            r
                        }
                    } else {
                        if l.len() == 0 {
                            r
                        } else if r.len() == 0 {
                            l
                        } else if l.len() < r.len() {
                            l
                        } else {
                            r
                        }
                    }
                } else {
                    let v: Vec<String> = Vec::new();
                    proof {
                        assert(self@ matches SpecPolicy::Or(s) && s == prs(*subs));
                        assert(prs(*subs).len() == subs@.len());
                        assert(svs(v@) =~= spec_extract(self@));
                    }
                    v
                }
            },
            _ => {
                let v: Vec<String> = Vec::new();
                proof {
                    assert(svs(v@) =~= spec_extract(self@));
                }
                v
            },
        }
    }
}

fn count_nonempty(subs: &Vec<Policy>, i: usize) -> (r: usize)
    requires
        i <= subs.len(),
    ensures
        r == spec_nonempty_from(pvs(*subs), i as int),
        r <= subs.len() - i,
    decreases subs, subs@.len() - i, 1int,
{
    if i == subs.len() {
        0
    } else {
        let e = subs[i].extract_recursive();
        let rest = count_nonempty(subs, i + 1);
        proof {
            assert(pvs(*subs)[i as int] == subs@[i as int]@);
            assert(svs(e@).len() == e@.len());
        }
        if e.len() > 0 {
            rest + 1
        } else {
            rest
        }
    }
}

fn flatten_need_exec(subs: &Vec<Policy>, i: usize, need: usize) -> (r: Vec<String>)
    requires
        i <= subs.len(),
    ensures
        svs(r@) == spec_flatten_need(pvs(*subs), i as int, need as int),
    decreases subs, subs@.len() - i, 1int,
{
    if i == subs.len() || need == 0 {
        let v: Vec<String> = Vec::new();
        proof {
            assert(svs(v@) =~= spec_flatten_need(pvs(*subs), i as int, need as int));
        }
        v
    } else {
        let mut e = subs[i].extract_recursive();
        proof {
            assert(pvs(*subs)[i as int] == subs@[i as int]@);
            assert(svs(e@).len() == e@.len());
        }
        if e.len() > 0 {
            let mut rest = flatten_need_exec(subs, i + 1, need - 1);
            let ghost ga = e@;
            let ghost gb = rest@;
            e.append(&mut rest);
            proof {
                crate::policy::lemma_svs_concat(ga, gb);
            }
            e
        } else {
            flatten_need_exec(subs, i + 1, need)
        }
    }
}

/// The pruned policy after choosing `target` for the internal key: an
/// occurrence equal to `target` is replaced by `Unsatisfiable`, except
/// that a partial threshold is kept verbatim, since its satisfaction is
/// not exhausted by the internal key. The walk descends only through
/// disjunctions and `1`-of-`n` thresholds.
pub open spec fn spec_translate_unsat_policy(p: SpecPolicy, target: SpecPolicy) -> SpecPolicy
    decreases p,
{
    if p == target {
        match p {
            SpecPolicy::Threshold(k, s) => if k != s.len() {
                p
            } else {
                SpecPolicy::Unsatisfiable
            },
            _ => SpecPolicy::Unsatisfiable,
        }
    } else {
        match p {
            SpecPolicy::Or(s) => SpecPolicy::Or(
                Seq::new(
                    s.len(),
                    |i: int|
                        if 0 <= i < s.len() {
                            (s[i].0, spec_translate_unsat_policy(s[i].1, target))
                        } else {
                            (0usize, SpecPolicy::Unsatisfiable)
                        },
                ),
            ),
            SpecPolicy::Threshold(k, s) => if k == 1 {
                SpecPolicy::Threshold(
                    1,
                    Seq::new(
                        s.len(),
                        |i: int|
                            if 0 <= i < s.len() {
                                spec_translate_unsat_policy(s[i], target)
                            } else {
                                SpecPolicy::Unsatisfiable
                            },
                    ),
                )
            } else {
                p
            },
            x => x,
        }
    }
}

impl Policy {
    /// Replace the sub-policy chosen for the internal key by
    /// `Unsatisfiable`; see [`spec_translate_unsat_policy`].
    pub fn translate_unsatisfiable_policy(self, pol: &Policy) -> (r: Policy)
        ensures
            r@ == spec_translate_unsat_policy(self@, pol@),
    {
        translate_unsat_policy_ref(&self, pol)
    }
}

fn translate_unsat_policy_ref(p: &Policy, target: &Policy) -> (r: Policy)
    ensures
        r@ == spec_translate_unsat_policy(p@, target@),
    decreases p,
{
    if p.eq(target) {
        match p {
            Policy::Threshold(k, subs) => {
                if *k != subs.len() {
                    p.clone()
                } else {
                    Policy::Unsatisfiable
                }
            },
            _ => Policy::Unsatisfiable,
        }
    } else {
        match p {
            Policy::Or(subs) => {
                let out = translate_unsat_policy_pairs(subs, target);
                let r = Policy::Or(out);
                proof {
                    assert(r@ matches SpecPolicy::Or(s) && s =~= (spec_translate_unsat_policy(
                        p@,
                        target@,
                    ))->Or_0);
                }
                r
            },
            Policy::Threshold(k, subs) => {
                if *k == 1 {
                    let out = translate_unsat_policy_list(subs, target);
                    let r = Policy::Threshold(1, out);
                    proof {
                        assert(r@ matches SpecPolicy::Threshold(_kk, s) && s =~= (
                        spec_translate_unsat_policy(p@, target@))->Threshold_1);
                    }
                    r
                } else {
                    p.clone()
                }
            },
            x => x.clone(),
        }
    }
}

fn translate_unsat_policy_pairs(subs: &Vec<(usize, Policy)>, target: &Policy) -> (out: Vec<
    (usize, Policy),
>)
    ensures
        out.len() == subs.len(),
        forall|j: int|
            0 <= j < subs.len() ==> out[j].0 == prs(*subs)[j].0 && out[j].1@
                == spec_translate_unsat_policy(prs(*subs)[j].1, target@),
    decreases subs,
{
    let mut out: Vec<(usize, Policy)> = Vec::new();
    let n = subs.len();
    for i in 0..n
        invariant
            n == subs.len(),
            out.len() == i,
            forall|j: int|
                0 <= j < i ==> out[j].0 == prs(*subs)[j].0 && out[j].1@
                    == spec_translate_unsat_policy(prs(*subs)[j].1, target@),
        decreases n - i,
    {
        let w = subs[i].0;
        out.push((w, translate_unsat_policy_ref(&subs[i].1, target)));
    }
    out
}

fn translate_unsat_policy_list(subs: &Vec<Policy>, target: &Policy) -> (out: Vec<Policy>)
    ensures
        out.len() == subs.len(),
        forall|j: int|
            0 <= j < subs.len() ==> out[j]@ == spec_translate_unsat_policy(
                pvs(*subs)[j],
                target@,
            ),
    decreases subs,
{
    let mut out: Vec<Policy> = Vec::new();
    let n = subs.len();
    for i in 0..n
        invariant
            n == subs.len(),
            out.len() == i,
            forall|j: int|
                0 <= j < i ==> out[j]@ == spec_translate_unsat_policy(pvs(*subs)[j], target@),
        decreases n - i,
    {
        out.push(translate_unsat_policy_ref(&subs[i], target));
    }
    out
}


/// Single keys wrapping each of the listed key names.
pub open spec fn keys_to_singles(s: Seq<Seq<char>>) -> Seq<SpecKeyExpr> {
    Seq::new(
        s.len(),
        |i: int|
            if 0 <= i < s.len() {
                SpecKeyExpr::SingleKey(s[i])
            } else {
                SpecKeyExpr::SingleKey(Seq::empty())
            },
    )
}

/// A leaf is an internal-key candidate when its root is a key, a
/// conjunction, or a threshold.
pub open spec fn is_candidate(p: SpecPolicy) -> bool {
    p is Key || p is And || p is Threshold
}

/// The scan over the first `n` tapleaves that picks the internal-key
/// candidate: the leaf of highest probability whose extraction is
/// non-empty, ties resolved towards the shorter extraction, and between
/// equals towards the earlier leaf. Returns the running best probability
/// and, when found, the extraction together with the chosen leaf.
pub open spec fn spec_select(leaves: Seq<(u64, SpecPolicy)>, n: int) -> (
    u64,
    Option<(Seq<Seq<char>>, SpecPolicy)>,
)
    decreases n,
{
    if n <= 0 || n > leaves.len() {
        (0u64, None)
    } else {
        let acc = spec_select(leaves, n - 1);
        let prob = leaves[n - 1].0;
        let pol = leaves[n - 1].1;
        if is_candidate(pol) {
            let kv = spec_extract(pol);
            if acc.0 < prob && kv.len() > 0 {
                (prob, Some((kv, pol)))
            } else if acc.0 == prob && kv.len() > 0 {
                match acc.1 {
                    Some((pkv, _ppol)) => if kv.len() < pkv.len() {
                        (acc.0, Some((kv, pol)))
                    } else {
                        acc
                    },
                    None => (acc.0, Some((kv, pol))),
                }
            } else {
                acc
            }
        } else {
            acc
        }
    }
}

/// View of an optional key string.
pub open spec fn osv(o: Option<String>) -> Option<Seq<char>> {
    match o {
        Some(s) => Some(s@),
        None => None,
    }
}

/// The internal key chosen for a policy and the policy left for the
/// script tree: the best candidate leaf's extraction becomes a MuSig
/// aggregate and the chosen leaf is pruned; failing that, all keys of the
/// policy aggregate over the supplied unspendable key; with no keys, the
/// unspendable key stands alone; with none supplied, nothing is viable.
pub open spec fn spec_extract_key(p: SpecPolicy, unspendable: Option<Seq<char>>) -> Option<
    (SpecKeyExpr, SpecPolicy),
> {
    let leaves = spec_tapleaf_probs(p, PROB_ONE);
    let sel = spec_select(leaves, leaves.len() as int);
    match sel.1 {
        Some((kv, leaf)) => Some(
            (SpecKeyExpr::MuSig(keys_to_singles(kv)), spec_translate_unsat_policy(p, leaf)),
        ),
        None => match unspendable {
            Some(u) => if spec_keys(p).len() > 0 {
                Some((SpecKeyExpr::MuSig(keys_to_singles(spec_keys(p))), p))
            } else {
                Some((SpecKeyExpr::SingleKey(u), p))
            },
            None => None,
        },
    }
}

fn musig_of_keys(ks: &Vec<String>) -> (r: KeyExpr)
    ensures
        r@ == SpecKeyExpr::MuSig(keys_to_singles(svs(ks@))),
{
    let mut out: Vec<KeyExpr> = Vec::new();
    let n = ks.len();
    for i in 0..n
        invariant
            n == ks.len(),
            out.len() == i,
            forall|j: int| 0 <= j < i ==> out[j]@ == SpecKeyExpr::SingleKey(ks[j]@),
        decreases n - i,
    {
        out.push(KeyExpr::SingleKey(ks[i].clone()));
    }
    let ghost gout = out;
    let r = KeyExpr::MuSig(out);
    proof {
        crate::keyexpr::lemma_view_musig(&r);
        assert(kvs(gout) =~= keys_to_singles(svs(ks@)));
    }
    r
}

impl Policy {
    /// Choose the Taproot internal key for this policy and prune the
    /// chosen sub-policy; see [`spec_extract_key`]. Fails only when no
    /// candidate exists and no unspendable key was supplied.
    pub fn extract_key_new(self, unspendable_key: Option<String>) -> (r: Result<
        (KeyExpr, Policy),
        Error,
    >)
        ensures
            spec_extract_key(self@, osv(unspendable_key)) matches Some((ik, pp)) ==> (r matches Ok(
                t,
            ) && t.0@ == ik && t.1@ == pp),
            spec_extract_key(self@, osv(unspendable_key)) is None ==> r == Result::<
                (KeyExpr, Policy),
                Error,
            >::Err(Error::NoViableInternalKey),
    {
        let leaves = self.to_tapleaf_prob_vec(PROB_ONE);
        let n = leaves.len();
        let mut best_prob: u64 = 0;
        let mut best: Option<(Vec<String>, Policy)> = None;
        let ghost sleaves = tps(leaves@);
        proof {
            assert(sleaves.len() == leaves@.len());
        }
        for j in 0..n
            invariant
                n == leaves.len(),
                sleaves == tps(leaves@),
                sleaves.len() == leaves@.len(),
                best_prob == spec_select(sleaves, j as int).0,
                match best {
                    Some((kv, pol)) => spec_select(sleaves, j as int).1 matches Some((skv, spol))
                        && svs(kv@) == skv && pol@ == spol,
                    None => spec_select(sleaves, j as int).1 is None,
                },
            decreases n - j,
        {
            let is_cand = match &leaves[j].1 {
                Policy::Threshold(_, _) => true,
                Policy::Key(_) => true,
                Policy::And(_) => true,
                _ => false,
            };
            proof {
                assert(sleaves[j as int].0 == leaves@[j as int].0);
                assert(sleaves[j as int].1 == leaves@[j as int].1@);
                assert(is_cand == is_candidate(sleaves[j as int].1));
            }
            if is_cand {
                let prob = leaves[j].0;
                let kv = leaves[j].1.extract_recursive();
                proof {
                    assert(svs(kv@).len() == kv@.len());
                }
                if best_prob < prob && kv.len() > 0 {
                    best_prob = prob;
                    best = Some((kv, leaves[j].1.clone()));
                } else if best_prob == prob && kv.len() > 0 {
                    let replace = match &best {
                        Some((pkv, _)) => kv.len() < pkv.len(),
                        None => true,
                    };
                    if replace {
                        best = Some((kv, leaves[j].1.clone()));
                    }
                }
            }
        }
        match best {
            Some((kv, leaf)) => {
                let ik = musig_of_keys(&kv);
                let pruned = self.translate_unsatisfiable_policy(&leaf);
                Ok((ik, pruned))
            },
            None => {
                match unspendable_key {
                    Some(u) => {
                        let ks = self.keys();
                        proof {
                            assert(svs(ks@).len() == ks@.len());
                        }
                        if ks.len() > 0 {
                            let ik = musig_of_keys(&ks);
                            Ok((ik, self))
                        } else {
                            Ok((KeyExpr::SingleKey(u), self))
                        }
                    },
                    None => Err(Error::NoViableInternalKey),
                }
            },
        }
    }
}

/// The error, if any, that the compilation gates raise before any leaf is
/// compiled: validity first, then safety, then non-malleability.
pub open spec fn spec_gate(p: SpecPolicy) -> Option<Error> {
    match spec_is_valid(p) {
        Result::Err(e) => Some(Error::Policy(e)),
        Result::Ok(()) => if !spec_safe_nm(p).0 {
            Some(Error::Compiler(CompilerError::TopLevelNonSafe))
        } else if !spec_safe_nm(p).1 {
            Some(Error::Compiler(CompilerError::ImpossibleNonMalleableCompilation))
        } else {
            None
        },
    }
}

/// How many of the first `n` leaves are satisfiable at all.
pub open spec fn count_nonunsat(leaves: Seq<(u64, SpecPolicy)>, n: int) -> int
    decreases n,
{
    if n <= 0 || n > leaves.len() {
        0
    } else {
        count_nonunsat(leaves, n - 1) + if leaves[n - 1].1 is Unsatisfiable {
            0int
        } else {
            1int
        }
    }
}

/// Counting further leaves never lowers the count.
pub proof fn lemma_count_nonunsat_mono(leaves: Seq<(u64, SpecPolicy)>, m: int, n: int)
    requires
        m <= n <= leaves.len(),
    ensures
        count_nonunsat(leaves, m) <= count_nonunsat(leaves, n),
    decreases n - m,
{
    if m < n {
        lemma_count_nonunsat_mono(leaves, m, n - 1);
    }
}

/// A satisfiable leaf anywhere makes the total count positive.
pub proof fn lemma_count_nonunsat_pos(leaves: Seq<(u64, SpecPolicy)>, j: int)
    requires
        0 <= j < leaves.len(),
        !(leaves[j].1 is Unsatisfiable),
    ensures
        count_nonunsat(leaves, leaves.len() as int) > 0,
{
    assert(count_nonunsat(leaves, j + 1) == count_nonunsat(leaves, j) + 1);
    lemma_count_nonunsat_nonneg(leaves, j);
    lemma_count_nonunsat_mono(leaves, j + 1, leaves.len() as int);
}

/// The count is never negative.
pub proof fn lemma_count_nonunsat_nonneg(leaves: Seq<(u64, SpecPolicy)>, n: int)
    ensures
        count_nonunsat(leaves, n) >= 0,
    decreases n,
{
    if n > 0 {
        lemma_count_nonunsat_nonneg(leaves, n - 1);
    }
}

impl Policy {
    /// Compile the policy into a Taproot descriptor: gate on validity,
    /// safety and non-malleability, choose the internal key, prune, then
    /// compile every remaining satisfiable leaf with `compiler` and
    /// arrange the results into a probability-weighted script tree.
    pub fn compile_tr<C: LeafCompiler>(
        &self,
        compiler: &C,
        unspendable_key: Option<String>,
    ) -> (r: Result<Descriptor, Error>)
        ensures
            r matches Ok(d) ==> d@ is Tr,
            spec_gate(self@) matches Some(e) ==> r == Result::<Descriptor, Error>::Err(e),
            spec_gate(self@) is None && spec_extract_key(self@, osv(unspendable_key)) is None
                ==> r == Result::<Descriptor, Error>::Err(Error::NoViableInternalKey),
            spec_gate(self@) is None ==> (spec_extract_key(self@, osv(unspendable_key))
                matches Some((ik, pruned)) ==> ({
                let lv = spec_tapleaf_probs(pruned, PROB_ONE);
                &&& (pruned == SpecPolicy::Trivial ==> (r matches Ok(d) && d@
                    == SpecDescriptor::Tr(ik, None)))
                &&& (pruned != SpecPolicy::Trivial && count_nonunsat(lv, lv.len() as int) == 0
                    ==> r == Result::<Descriptor, Error>::Err(Error::EmptyCompilation))
                &&& (pruned != SpecPolicy::Trivial && count_nonunsat(lv, lv.len() as int) > 0
                    ==> match r {
                    Result::Ok(d) => {
                        &&& d@ matches SpecDescriptor::Tr(ik2, ot)
                        &&& ik2 == ik
                        &&& ot matches Some(tree)
                        &&& crate::descriptor::spec_tap_leaf_seq(tree).len() == count_nonunsat(
                            lv,
                            lv.len() as int,
                        )
                    },
                    Result::Err(e) => e is Compiler,
                })
            })),
    {
        match self.is_valid() {
            Err(e) => {
                return Err(Error::Policy(e));
            },
            Ok(()) => {},
        }
        let (safe, nonmall) = self.is_safe_nonmalleable();
        if !safe {
            return Err(Error::Compiler(CompilerError::TopLevelNonSafe));
        }
        if !nonmall {
            return Err(Error::Compiler(CompilerError::ImpossibleNonMalleableCompilation));
        }
        let ghost guk = osv(unspendable_key);
        let cloned = self.clone();
        let (internal_key, policy) = match cloned.extract_key_new(unspendable_key) {
            Ok(p) => p,
            Err(e) => {
                return Err(e);
            },
        };
        let is_trivial = match &policy {
            Policy::Trivial => true,
            _ => false,
        };
        if is_trivial {
            return Ok(Descriptor::Tr(internal_key, None));
        }
        let vec_policies = policy.to_tapleaf_prob_vec(PROB_ONE);
        let ghost slv = tps(vec_policies@);
        let mut leaf_compilations: Vec<(u64, Miniscript)> = Vec::new();
        let n = vec_policies.len();
        proof {
            assert(slv.len() == vec_policies@.len());
        }
        for j in 0..n
            invariant
                n == vec_policies.len(),
                slv == tps(vec_policies@),
                slv.len() == vec_policies@.len(),
                leaf_compilations@.len() == count_nonunsat(slv, j as int),
                spec_gate(self@) is None,
                guk == osv(unspendable_key),
                spec_extract_key(self@, guk) matches Some((ik, pp)) && ik == internal_key@ && pp
                    == policy@,
                policy@ != SpecPolicy::Trivial,
                slv == spec_tapleaf_probs(policy@, PROB_ONE),
            decreases n - j,
        {
            let is_unsat = match &vec_policies[j].1 {
                Policy::Unsatisfiable => true,
                _ => false,
            };
            proof {
                assert(slv[j as int].1 == vec_policies@[j as int].1@);
            }
            if !is_unsat {
                proof {
                    lemma_count_nonunsat_pos(slv, j as int);
                }
                let prob = vec_policies[j].0;
                match compiler.best_compilation(&vec_policies[j].1) {
                    Err(ce) => {
                        return Err(Error::Compiler(ce));
                    },
                    Ok(ms) => {
                        leaf_compilations.push((prob, ms));
                    },
                }
            }
        }
        let ghost inputs = leaf_compilations@;
        match with_huffman_tree(leaf_compilations) {
            Err(e) => Err(e),
            Ok(taptree) => {
                proof {
                    let ls = crate::descriptor::spec_tap_leaf_seq(taptree@);
                    let li = crate::descriptor::spec_input_leaves(inputs);
                    ls.to_multiset_ensures();
                    li.to_multiset_ensures();
                    assert(li.len() == inputs.len());
                    assert(ls.len() == ls.to_multiset().len());
                    assert(li.len() == li.to_multiset().len());
                }
                Ok(Descriptor::Tr(internal_key, Some(taptree)))
            },
        }
    }

    /// Compile the policy into a descriptor for the chosen script
    /// context, gating on validity, safety and non-malleability; for the
    /// Taproot context this is [`Policy::compile_tr`].
    pub fn compile_to_descriptor<C: LeafCompiler>(
        &self,
        compiler: &C,
        desc_ctx: DescriptorCtx,
    ) -> (r: Result<Descriptor, Error>)
        ensures
            spec_gate(self@) matches Some(e) ==> r == Result::<Descriptor, Error>::Err(e),
            spec_gate(self@) is None ==> match desc_ctx {
                DescriptorCtx::Bare => (r matches Ok(d) ==> d@ is Bare),
                DescriptorCtx::Sh => (r matches Ok(d) ==> d@ is Sh),
                DescriptorCtx::Wsh => (r matches Ok(d) ==> d@ is Wsh),
                DescriptorCtx::ShWsh => (r matches Ok(d) ==> d@ is ShWsh),
                DescriptorCtx::Tr(_u) => (r matches Ok(d) ==> d@ is Tr),
            },
    {
        match self.is_valid() {
            Err(e) => {
                return Err(Error::Policy(e));
            },
            Ok(()) => {},
        }
        let (safe, nonmall) = self.is_safe_nonmalleable();
        if !safe {
            return Err(Error::Compiler(CompilerError::TopLevelNonSafe));
        }
        if !nonmall {
            return Err(Error::Compiler(CompilerError::ImpossibleNonMalleableCompilation));
        }
        match desc_ctx {
            DescriptorCtx::Bare => match compiler.best_compilation(self) {
                Ok(ms) => Ok(Descriptor::Bare(ms)),
                Err(ce) => Err(Error::Compiler(ce)),
            },
            DescriptorCtx::Sh => match compiler.best_compilation(self) {
                Ok(ms) => Ok(Descriptor::Sh(ms)),
                Err(ce) => Err(Error::Compiler(ce)),
            },
            DescriptorCtx::Wsh => match compiler.best_compilation(self) {
                Ok(ms) => Ok(Descriptor::Wsh(ms)),
                Err(ce) => Err(Error::Compiler(ce)),
            },
            DescriptorCtx::ShWsh => match compiler.best_compilation(self) {
                Ok(ms) => Ok(Descriptor::ShWsh(ms)),
                Err(ce) => Err(Error::Compiler(ce)),
            },
            DescriptorCtx::Tr(unspendable_key) => self.compile_tr(compiler, unspendable_key),
        }
    }

    /// Compile the policy into a single optimized Miniscript, gating on
    /// validity, safety and non-malleability. The compilation itself is
    /// the leaf compiler's.
    pub fn compile<C: LeafCompiler>(&self, compiler: &C) -> (r: Result<Miniscript, CompilerError>)
        ensures
            spec_is_valid(self@) matches Err(e) ==> r == Result::<Miniscript, CompilerError>::Err(
                CompilerError::Policy(e),
            ),
            spec_is_valid(self@) is Ok && !spec_safe_nm(self@).0 ==> r == Result::<
                Miniscript,
                CompilerError,
            >::Err(CompilerError::TopLevelNonSafe),
            spec_is_valid(self@) is Ok && spec_safe_nm(self@).0 && !spec_safe_nm(self@).1 ==> r
                == Result::<Miniscript, CompilerError>::Err(
                CompilerError::ImpossibleNonMalleableCompilation,
            ),
    {
        match self.is_valid() {
            Err(e) => {
                return Err(CompilerError::Policy(e));
            },
            Ok(()) => {},
        }
        let (safe, nonmall) = self.is_safe_nonmalleable();
        if !safe {
            return Err(CompilerError::TopLevelNonSafe);
        }
        if !nonmall {
            return Err(CompilerError::ImpossibleNonMalleableCompilation);
        }
        compiler.best_compilation(self)
    }
}

} // verus!
