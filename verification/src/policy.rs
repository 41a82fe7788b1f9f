//! Concrete spending policies: an algebraic tree of spend conditions whose
//! disjunctions carry relative satisfaction probabilities.

use vstd::prelude::*;

verus! {

broadcast use vstd::std_specs::vec::axiom_vec_index_decreases;

/// Mathematical model of a [`Policy`]: the same tree with keys and hashes
/// abstracted to character sequences.
pub enum SpecPolicy {
    /// The never-true condition.
    Unsatisfiable,
    /// The always-true condition.
    Trivial,
    /// Requires a signature for the named key.
    Key(Seq<char>),
    /// An absolute locktime restriction.
    After(u32),
    /// A relative locktime restriction.
    Older(u32),
    /// A SHA256 preimage condition.
    Sha256(Seq<char>),
    /// A double-SHA256 preimage condition.
    Hash256(Seq<char>),
    /// A RIPEMD160 preimage condition.
    Ripemd160(Seq<char>),
    /// A HASH160 preimage condition.
    Hash160(Seq<char>),
    /// All sub-policies must be satisfied.
    And(Seq<SpecPolicy>),
    /// One of the sub-policies must be satisfied; each carries a relative
    /// probability weight.
    Or(Seq<(usize, SpecPolicy)>),
    /// `k` of the sub-policies must be satisfied.
    Threshold(usize, Seq<SpecPolicy>),
}

/// Concrete policy which corresponds directly to a Miniscript structure,
/// and whose disjunctions are annotated with satisfaction probabilities
/// to assist the compiler. Keys are plain strings.
#[derive(Debug)]
pub enum Policy {
    /// The never-true condition.
    Unsatisfiable,
    /// The always-true condition.
    Trivial,
    /// A public key which must sign to satisfy the descriptor.
    Key(String),
    /// An absolute locktime restriction.
    After(u32),
    /// A relative locktime restriction.
    Older(u32),
    /// A SHA256 whose preimage must be provided.
    Sha256(String),
    /// A double-SHA256 whose preimage must be provided.
    Hash256(String),
    /// A RIPEMD160 whose preimage must be provided.
    Ripemd160(String),
    /// A HASH160 whose preimage must be provided.
    Hash160(String),
    /// A list of sub-policies, all of which must be satisfied.
    And(Vec<Policy>),
    /// A list of sub-policies, one of which must be satisfied, along with
    /// relative probabilities for each one.
    Or(Vec<(usize, Policy)>),
    /// A set of sub-policies, of which `k` must be satisfied.
    Threshold(usize, Vec<Policy>),
}

impl View for Policy {
    type V = SpecPolicy;

    open spec fn view(&self) -> SpecPolicy
        decreases self,
    {
        match self {
            Policy::Unsatisfiable => SpecPolicy::Unsatisfiable,
            Policy::Trivial => SpecPolicy::Trivial,
            Policy::Key(k) => SpecPolicy::Key(k@),
            Policy::After(n) => SpecPolicy::After(*n),
            Policy::Older(n) => SpecPolicy::Older(*n),
            Policy::Sha256(h) => SpecPolicy::Sha256(h@),
            Policy::Hash256(h) => SpecPolicy::Hash256(h@),
            Policy::Ripemd160(h) => SpecPolicy::Ripemd160(h@),
            Policy::Hash160(h) => SpecPolicy::Hash160(h@),
            Policy::And(subs) => SpecPolicy::And(pvs(*subs)),
            Policy::Or(subs) => SpecPolicy::Or(prs(*subs)),
            Policy::Threshold(k, subs) => SpecPolicy::Threshold(*k, pvs(*subs)),
        }
    }
}

/// View of a vector of policies as a sequence of policy models.
pub open spec fn pvs(v: Vec<Policy>) -> Seq<SpecPolicy>
    decreases v,
{
    Seq::new(
        v.len() as nat,
        |i: int| if 0 <= i < v.len() { v[i]@ } else { SpecPolicy::Unsatisfiable },
    )
}

/// View of a vector of weighted policies as weighted policy models.
pub open spec fn prs(v: Vec<(usize, Policy)>) -> Seq<(usize, SpecPolicy)>
    decreases v,
{
    Seq::new(
        v.len() as nat,
        |i: int|
            if 0 <= i < v.len() {
                (v[i].0, v[i].1@)
            } else {
                (0usize, SpecPolicy::Unsatisfiable)
            },
    )
}

impl DeepView for Policy {
    type V = SpecPolicy;

    open spec fn deep_view(&self) -> SpecPolicy {
        self.view()
    }
}

/// View of a sequence of strings as a sequence of character sequences.
pub open spec fn svs(s: Seq<String>) -> Seq<Seq<char>> {
    Seq::new(s.len(), |i: int| if 0 <= i < s.len() { s[i]@ } else { Seq::empty() })
}

pub broadcast proof fn lemma_svs_concat(a: Seq<String>, b: Seq<String>)
    ensures
        #[trigger] svs(a + b) == svs(a) + svs(b),
{
    assert(svs(a + b) =~= svs(a) + svs(b));
}

/// The keys of all `Key` leaves, in left-to-right traversal order.
pub open spec fn spec_keys(p: SpecPolicy) -> Seq<Seq<char>>
    decreases p,
{
    match p {
        SpecPolicy::Key(k) => seq![k],
        SpecPolicy::And(subs) => spec_keys_list(subs),
        SpecPolicy::Threshold(_k, subs) => spec_keys_list(subs),
        SpecPolicy::Or(subs) => spec_keys_pairs(subs),
        _ => Seq::empty(),
    }
}

/// The concatenation of the keys of each policy in the list, in order.
pub open spec fn spec_keys_list(s: Seq<SpecPolicy>) -> Seq<Seq<char>>
    decreases s,
{
    if s.len() == 0 {
        Seq::empty()
    } else {
        spec_keys(s[0]) + spec_keys_list(s.drop_first())
    }
}

/// The concatenation of the keys of each weighted policy in the list, in order.
pub open spec fn spec_keys_pairs(s: Seq<(usize, SpecPolicy)>) -> Seq<Seq<char>>
    decreases s,
{
    if s.len() == 0 {
        Seq::empty()
    } else {
        spec_keys(s[0].1) + spec_keys_pairs(s.drop_first())
    }
}

impl Policy {
    /// Get all keys in the policy, in left-to-right traversal order.
    pub fn keys(&self) -> (r: Vec<String>)
        ensures
            svs(r@) == spec_keys(self@),
        decreases self,
    {
        match self {
            Policy::Key(k) => {
                let mut v: Vec<String> = Vec::new();
                v.push(k.clone());
                proof {
                    assert(svs(v@) =~= seq![k@]);
                }
                v
            },
            Policy::And(subs) => {
                let r = keys_of_list(subs, 0);
                proof {
                    assert(pvs(*subs).skip(0) =~= pvs(*subs));
                }
                r
            },
            Policy::Threshold(_k, subs) => {
                let r = keys_of_list(subs, 0);
                proof {
                    assert(pvs(*subs).skip(0) =~= pvs(*subs));
                }
                r
            },
            Policy::Or(subs) => {
                let r = keys_of_pairs(subs, 0);
                proof {
                    assert(prs(*subs).skip(0) =~= prs(*subs));
                }
                r
            },
            _ => {
                let v: Vec<String> = Vec::new();
                proof {
                    assert(svs(v@) =~= Seq::<Seq<char>>::empty());
                }
                v
            },
        }
    }
}

fn keys_of_list(subs: &Vec<Policy>, i: usize) -> (r: Vec<String>)
    requires
        i <= subs.len(),
    ensures
        svs(r@) == spec_keys_list(pvs(*subs).skip(i as int)),
    decreases subs, subs@.len() - i,
{
    if i == subs.len() {
        let v: Vec<String> = Vec::new();
        proof {
            assert(pvs(*subs).skip(i as int).len() == 0);
            assert(svs(v@) =~= spec_keys_list(pvs(*subs).skip(i as int)));
        }
        v
    } else {
        let mut r = subs[i].keys();
        let mut rest = keys_of_list(subs, i + 1);
        proof {
            let s = pvs(*subs);
            assert(s.skip(i as int)[0] == s[i as int]);
            assert(s.skip(i as int).drop_first() =~= s.skip(i as int + 1));
            assert(s[i as int] == subs@[i as int]@);
        }
        let ghost ra = r@;
        let ghost rb = rest@;
        r.append(&mut rest);
        proof {
            lemma_svs_concat(ra, rb);
        }
        r
    }
}

fn keys_of_pairs(subs: &Vec<(usize, Policy)>, i: usize) -> (r: Vec<String>)
    requires
        i <= subs.len(),
    ensures
        svs(r@) == spec_keys_pairs(prs(*subs).skip(i as int)),
    decreases subs, subs@.len() - i,
{
    if i == subs.len() {
        let v: Vec<String> = Vec::new();
        proof {
            assert(prs(*subs).skip(i as int).len() == 0);
            assert(svs(v@) =~= spec_keys_pairs(prs(*subs).skip(i as int)));
        }
        v
    } else {
        let mut r = subs[i].1.keys();
        let mut rest = keys_of_pairs(subs, i + 1);
        proof {
            let s = prs(*subs);
            assert(s.skip(i as int)[0] == s[i as int]);
            assert(s.skip(i as int).drop_first() =~= s.skip(i as int + 1));
            assert(s[i as int].1 == subs@[i as int].1@);
        }
        let ghost ra = r@;
        let ghost rb = rest@;
        r.append(&mut rest);
        proof {
            lemma_svs_concat(ra, rb);
        }
        r
    }
}

fn policy_clone(a: &Policy) -> (r: Policy)
    ensures
        r@ == a@,
    decreases a,
{
    match a {
        Policy::Unsatisfiable => Policy::Unsatisfiable,
        Policy::Trivial => Policy::Trivial,
        Policy::Key(k) => Policy::Key(k.clone()),
        Policy::After(n) => Policy::After(*n),
        Policy::Older(n) => Policy::Older(*n),
        Policy::Sha256(h) => Policy::Sha256(h.clone()),
        Policy::Hash256(h) => Policy::Hash256(h.clone()),
        Policy::Ripemd160(h) => Policy::Ripemd160(h.clone()),
        Policy::Hash160(h) => Policy::Hash160(h.clone()),
        Policy::And(subs) => {
            let r = Policy::And(clone_list(subs));
            proof {
                assert(r@ matches SpecPolicy::And(s) && s =~= pvs(*subs));
            }
            r
        },
        Policy::Threshold(k, subs) => {
            let r = Policy::Threshold(*k, clone_list(subs));
            proof {
                assert(r@ matches SpecPolicy::Threshold(_kk, s) && s =~= pvs(*subs));
            }
            r
        },
        Policy::Or(subs) => {
            let r = Policy::Or(clone_pairs(subs));
            proof {
                assert(r@ matches SpecPolicy::Or(s) && s =~= prs(*subs));
            }
            r
        },
    }
}

fn clone_list(subs: &Vec<Policy>) -> (r: Vec<Policy>)
    ensures
        r.len() == subs.len(),
        forall|j: int| 0 <= j < subs.len() ==> r[j]@ == subs[j]@,
    decreases subs,
{
    let mut v: Vec<Policy> = Vec::new();
    let n = subs.len();
    for i in 0..n
        invariant
            n == subs.len(),
            v.len() == i,
            forall|j: int| 0 <= j < i ==> v[j]@ == subs[j]@,
        decreases n - i,
    {
        v.push(policy_clone(&subs[i]));
    }
    v
}

fn clone_pairs(subs: &Vec<(usize, Policy)>) -> (r: Vec<(usize, Policy)>)
    ensures
        r.len() == subs.len(),
        forall|j: int|
            0 <= j < subs.len() ==> r[j].0 == subs[j].0 && r[j].1@ == subs[j].1@,
    decreases subs,
{
    let mut v: Vec<(usize, Policy)> = Vec::new();
    let n = subs.len();
    for i in 0..n
        invariant
            n == subs.len(),
            v.len() == i,
            forall|j: int| 0 <= j < i ==> v[j].0 == subs[j].0 && v[j].1@ == subs[j].1@,
        decreases n - i,
    {
        let w = subs[i].0;
        v.push((w, policy_clone(&subs[i].1)));
    }
    v
}

impl Clone for Policy {
    /// Deep copy; the copy has the same model as the original.
    fn clone(&self) -> (r: Self)
        ensures
            r@ == self@,
    {
        policy_clone(self)
    }
}

fn policy_eq(a: &Policy, b: &Policy) -> (r: bool)
    ensures
        r == (a@ == b@),
    decreases a,
{
    match (a, b) {
        (Policy::Unsatisfiable, Policy::Unsatisfiable) => true,
        (Policy::Trivial, Policy::Trivial) => true,
        (Policy::Key(k1), Policy::Key(k2)) => {
            let r = k1.eq(k2);
            proof {
                assert(r == (a@ == b@));
            }
            r
        },
        (Policy::After(n1), Policy::After(n2)) => n1 == n2,
        (Policy::Older(n1), Policy::Older(n2)) => n1 == n2,
        (Policy::Sha256(h1), Policy::Sha256(h2)) => h1.eq(h2),
        (Policy::Hash256(h1), Policy::Hash256(h2)) => h1.eq(h2),
        (Policy::Ripemd160(h1), Policy::Ripemd160(h2)) => h1.eq(h2),
        (Policy::Hash160(h1), Policy::Hash160(h2)) => h1.eq(h2),
        (Policy::And(s1), Policy::And(s2)) => {
            let r = eq_list(s1, s2);
            proof {
                if r {
                    assert(pvs(*s1) =~= pvs(*s2));
                } else if s1.len() == s2.len() {
                    assert(exists|j: int| 0 <= j < s1.len() && s1[j]@ != s2[j]@);
                    let j = choose|j: int| 0 <= j < s1.len() && s1[j]@ != s2[j]@;
                    assert(pvs(*s1)[j] != pvs(*s2)[j]);
                } else {
                    assert(pvs(*s1).len() != pvs(*s2).len());
                }
            }
            proof {
                assert(r == (a@ == b@));
            }
            r
        },
        (Policy::Threshold(k1, s1), Policy::Threshold(k2, s2)) => {
            let r = k1 == k2 && eq_list(s1, s2);
            proof {
                if r {
                    assert(pvs(*s1) =~= pvs(*s2));
                } else if k1 == k2 {
                    if s1.len() == s2.len() {
                        assert(exists|j: int| 0 <= j < s1.len() && s1[j]@ != s2[j]@);
                        let j = choose|j: int| 0 <= j < s1.len() && s1[j]@ != s2[j]@;
                        assert(pvs(*s1)[j] != pvs(*s2)[j]);
                    } else {
                        assert(pvs(*s1).len() != pvs(*s2).len());
                    }
                }
            }
            proof {
                assert(r == (a@ == b@));
            }
            r
        },
        (Policy::Or(s1), Policy::Or(s2)) => {
            let r = eq_pairs(s1, s2);
            proof {
                if r {
                    assert(prs(*s1) =~= prs(*s2));
                } else if s1.len() == s2.len() {
                    assert(exists|j: int|
                        0 <= j < s1.len() && (s1[j].0 != s2[j].0 || s1[j].1@ != s2[j].1@));
                    let j = choose|j: int|
                        0 <= j < s1.len() && (s1[j].0 != s2[j].0 || s1[j].1@ != s2[j].1@);
                    assert(prs(*s1)[j] != prs(*s2)[j]);
                } else {
                    assert(prs(*s1).len() != prs(*s2).len());
                }
            }
            proof {
                assert(r == (a@ == b@));
            }
            r
        },
        _ => {
            proof {
                lemma_view_variants_differ(a, b);
                assert(a@ != b@);
            }
            false
        },
    }
}

proof fn lemma_view_variants_differ(a: &Policy, b: &Policy)
    requires
        !(a is Unsatisfiable && b is Unsatisfiable),
        !(a is Trivial && b is Trivial),
        !(a is Key && b is Key),
        !(a is After && b is After),
        !(a is Older && b is Older),
        !(a is Sha256 && b is Sha256),
        !(a is Hash256 && b is Hash256),
        !(a is Ripemd160 && b is Ripemd160),
        !(a is Hash160 && b is Hash160),
        !(a is And && b is And),
        !(a is Or && b is Or),
        !(a is Threshold && b is Threshold),
    ensures
        a@ != b@,
{
    match a {
        Policy::Unsatisfiable => assert(a@ is Unsatisfiable),
        Policy::Trivial => assert(a@ is Trivial),
        Policy::Key(_) => assert(a@ is Key),
        Policy::After(_) => assert(a@ is After),
        Policy::Older(_) => assert(a@ is Older),
        Policy::Sha256(_) => assert(a@ is Sha256),
        Policy::Hash256(_) => assert(a@ is Hash256),
        Policy::Ripemd160(_) => assert(a@ is Ripemd160),
        Policy::Hash160(_) => assert(a@ is Hash160),
        Policy::And(_) => assert(a@ is And),
        Policy::Or(_) => assert(a@ is Or),
        Policy::Threshold(_, _) => assert(a@ is Threshold),
    }
    match b {
        Policy::Unsatisfiable => assert(b@ is Unsatisfiable),
        Policy::Trivial => assert(b@ is Trivial),
        Policy::Key(_) => assert(b@ is Key),
        Policy::After(_) => assert(b@ is After),
        Policy::Older(_) => assert(b@ is Older),
        Policy::Sha256(_) => assert(b@ is Sha256),
        Policy::Hash256(_) => assert(b@ is Hash256),
        Policy::Ripemd160(_) => assert(b@ is Ripemd160),
        Policy::Hash160(_) => assert(b@ is Hash160),
        Policy::And(_) => assert(b@ is And),
        Policy::Or(_) => assert(b@ is Or),
        Policy::Threshold(_, _) => assert(b@ is Threshold),
    }
}

fn eq_list(s1: &Vec<Policy>, s2: &Vec<Policy>) -> (r: bool)
    ensures
        r == (s1.len() == s2.len() && forall|j: int|
            0 <= j < s1.len() ==> s1[j]@ == s2[j]@),
    decreases s1,
{
    if s1.len() != s2.len() {
        return false;
    }
    let n = s1.len();
    for i in 0..n
        invariant
            n == s1.len() == s2.len(),
            forall|j: int| 0 <= j < i ==> s1[j]@ == s2[j]@,
        decreases n - i,
    {
        if !policy_eq(&s1[i], &s2[i]) {
            return false;
        }
    }
    true
}

fn eq_pairs(s1: &Vec<(usize, Policy)>, s2: &Vec<(usize, Policy)>) -> (r: bool)
    ensures
        r == (s1.len() == s2.len() && forall|j: int|
            0 <= j < s1.len() ==> s1[j].0 == s2[j].0 && s1[j].1@ == s2[j].1@),
    decreases s1,
{
    if s1.len() != s2.len() {
        return false;
    }
    let n = s1.len();
    for i in 0..n
        invariant
            n == s1.len() == s2.len(),
            forall|j: int| 0 <= j < i ==> s1[j].0 == s2[j].0 && s1[j].1@ == s2[j].1@,
        decreases n - i,
    {
        if s1[i].0 != s2[i].0 {
            return false;
        }
        if !policy_eq(&s1[i].1, &s2[i].1) {
            return false;
        }
    }
    true
}

impl PartialEq for Policy {
    fn eq(&self, other: &Policy) -> (r: bool) {
        policy_eq(self, other)
    }
}

impl Eq for Policy {

}

impl vstd::std_specs::cmp::PartialEqSpecImpl for Policy {
    open spec fn obeys_eq_spec() -> bool {
        true
    }

    open spec fn eq_spec(&self, other: &Policy) -> bool {
        self@ == other@
    }
}

/// The tree with every `Key` leaf naming `key` replaced by `Unsatisfiable`.
pub open spec fn spec_translate_unsat_pk(p: SpecPolicy, key: Seq<char>) -> SpecPolicy
    decreases p,
{
    match p {
        SpecPolicy::Key(k) => if k == key {
            SpecPolicy::Unsatisfiable
        } else {
            SpecPolicy::Key(k)
        },
        SpecPolicy::And(s) => SpecPolicy::And(
            Seq::new(
                s.len(),
                |i: int|
                    if 0 <= i < s.len() {
                        spec_translate_unsat_pk(s[i], key)
                    } else {
                        SpecPolicy::Unsatisfiable
                    },
            ),
        ),
        SpecPolicy::Or(s) => SpecPolicy::Or(
            Seq::new(
                s.len(),
                |i: int|
                    if 0 <= i < s.len() {
                        (s[i].0, spec_translate_unsat_pk(s[i].1, key))
                    } else {
                        (0usize, SpecPolicy::Unsatisfiable)
                    },
            ),
        ),
        SpecPolicy::Threshold(k, s) => SpecPolicy::Threshold(
            k,
            Seq::new(
                s.len(),
                |i: int|
                    if 0 <= i < s.len() {
                        spec_translate_unsat_pk(s[i], key)
                    } else {
                        SpecPolicy::Unsatisfiable
                    },
            ),
        ),
        x => x,
    }
}

impl Policy {
    /// Replace every `Key` leaf carrying `key` by `Unsatisfiable`, leaving
    /// all other nodes intact. Used when the extracted Taproot internal key
    /// must not be duplicated in the script tree.
    pub fn translate_unsatisfiable_pk(self, key: &String) -> (r: Policy)
        ensures
            r@ == spec_translate_unsat_pk(self@, key@),
    {
        translate_unsat_ref(&self, key)
    }
}

fn translate_unsat_ref(p: &Policy, key: &String) -> (r: Policy)
    ensures
        r@ == spec_translate_unsat_pk(p@, key@),
    decreases p,
{
    match p {
        Policy::Key(k) => {
            if k.eq(key) {
                Policy::Unsatisfiable
            } else {
                Policy::Key(k.clone())
            }
        },
        Policy::And(subs) => {
            let r = Policy::And(translate_unsat_list(subs, key));
            proof {
                assert(r@ matches SpecPolicy::And(s)
                    && s =~= (spec_translate_unsat_pk(p@, key@))->And_0);
            }
            r
        },
        Policy::Or(subs) => {
            let r = Policy::Or(translate_unsat_pairs(subs, key));
            proof {
                assert(r@ matches SpecPolicy::Or(s)
                    && s =~= (spec_translate_unsat_pk(p@, key@))->Or_0);
            }
            r
        },
        Policy::Threshold(k, subs) => {
            let r = Policy::Threshold(*k, translate_unsat_list(subs, key));
            proof {
                assert(r@ matches SpecPolicy::Threshold(_kk, s)
                    && s =~= (spec_translate_unsat_pk(p@, key@))->Threshold_1);
            }
            r
        },
        x => policy_clone(x),
    }
}

fn translate_unsat_list(subs: &Vec<Policy>, key: &String) -> (r: Vec<Policy>)
    ensures
        r.len() == subs.len(),
        forall|j: int|
            0 <= j < subs.len() ==> r[j]@ == spec_translate_unsat_pk(pvs(*subs)[j], key@),
    decreases subs,
{
    let mut out: Vec<Policy> = Vec::new();
    let n = subs.len();
    for i in 0..n
        invariant
            n == subs.len(),
            out.len() == i,
            forall|j: int|
                0 <= j < i ==> out[j]@ == spec_translate_unsat_pk(pvs(*subs)[j], key@),
        decreases n - i,
    {
        out.push(translate_unsat_ref(&subs[i], key));
    }
    out
}

fn translate_unsat_pairs(subs: &Vec<(usize, Policy)>, key: &String) -> (r: Vec<(usize, Policy)>)
    ensures
        r.len() == subs.len(),
        forall|j: int|
            0 <= j < subs.len() ==> r[j].0 == prs(*subs)[j].0 && r[j].1@
                == spec_translate_unsat_pk(prs(*subs)[j].1, key@),
    decreases subs,
{
    let mut out: Vec<(usize, Policy)> = Vec::new();
    let n = subs.len();
    for i in 0..n
        invariant
            n == subs.len(),
            out.len() == i,
            forall|j: int|
                0 <= j < i ==> out[j].0 == prs(*subs)[j].0 && out[j].1@
                    == spec_translate_unsat_pk(prs(*subs)[j].1, key@),
        decreases n - i,
    {
        let w = subs[i].0;
        out.push((w, translate_unsat_ref(&subs[i].1, key)));
    }
    out
}

/// `pred` can return true on some string whose view is `key`.
pub open spec fn pred_true_on<F: Fn(&String) -> bool>(pred: F, key: Seq<char>) -> bool {
    exists|k: &String| k@ == key && #[trigger] call_ensures(pred, (k,), true)
}

/// `pred` can return false on some string whose view is `key`.
pub open spec fn pred_false_on<F: Fn(&String) -> bool>(pred: F, key: Seq<char>) -> bool {
    exists|k: &String| k@ == key && #[trigger] call_ensures(pred, (k,), false)
}

/// 1 when the flag is set, 0 otherwise; used as a termination measure part.
pub open spec fn bool_to_int(b: bool) -> int {
    if b {
        1
    } else {
        0
    }
}

impl Policy {
    /// Run `pred` over every key leaf in traversal order, stopping at the
    /// first key on which it returns false. Returns true iff `pred`
    /// returned true on every key (vacuously true when there is none).
    pub fn for_each_key<F: Fn(&String) -> bool>(&self, pred: F) -> (r: bool)
        requires
            forall|k: &String| #[trigger] call_requires(pred, (k,)),
        ensures
            r ==> forall|i: int|
                0 <= i < spec_keys(self@).len() ==> pred_true_on(
                    pred,
                    #[trigger] spec_keys(self@)[i],
                ),
            !r ==> exists|i: int|
                0 <= i < spec_keys(self@).len() && pred_false_on(
                    pred,
                    #[trigger] spec_keys(self@)[i],
                ),
    {
        let ks = self.keys();
        let n = ks.len();
        let mut i: usize = 0;
        let mut result: bool = true;
        while result && i < n
            invariant
                n == ks.len(),
                i <= n,
                svs(ks@) == spec_keys(self@),
                forall|k: &String| #[trigger] call_requires(pred, (k,)),
                result ==> forall|j: int|
                    0 <= j < i ==> pred_true_on(pred, #[trigger] spec_keys(self@)[j]),
                !result ==> exists|jj: int|
                    0 <= jj < spec_keys(self@).len() && pred_false_on(
                        pred,
                        #[trigger] spec_keys(self@)[jj],
                    ),
            decreases n - i, bool_to_int(result),
        {
            let ki = &ks[i];
            let ok = pred(ki);
            proof {
                assert(ki@ == spec_keys(self@)[i as int]);
            }
            if ok {
                proof {
                    assert(call_ensures(pred, (ki,), true));
                    assert(pred_true_on(pred, spec_keys(self@)[i as int]));
                }
                i = i + 1;
            } else {
                proof {
                    assert(call_ensures(pred, (ki,), false));
                    assert(pred_false_on(pred, spec_keys(self@)[i as int]));
                }
                result = false;
            }
        }
        proof {
            if result {
                assert(spec_keys(self@).len() == svs(ks@).len());
            }
        }
        result
    }

    /// Check whether the policy contains the same public key twice.
    pub fn check_duplicate_keys(&self) -> (r: Result<(), PolicyError>)
        ensures
            r == if spec_has_duplicate_keys(self@) {
                Result::<(), PolicyError>::Err(PolicyError::DuplicatePubKeys)
            } else {
                Result::<(), PolicyError>::Ok(())
            },
    {
        let ks = self.keys();
        let n = ks.len();
        for i in 0..n
            invariant
                n == ks.len(),
                svs(ks@) == spec_keys(self@),
                forall|a: int, b: int|
                    0 <= a < b < n && a < i ==> spec_keys(self@)[a] != spec_keys(self@)[b],
            decreases n - i,
        {
            for j in i + 1..n
                invariant
                    n == ks.len(),
                    i < n,
                    svs(ks@) == spec_keys(self@),
                    forall|a: int, b: int|
                        0 <= a < b < n && a < i ==> spec_keys(self@)[a] != spec_keys(self@)[b],
                    forall|b: int| i < b < j ==> spec_keys(self@)[i as int] != spec_keys(self@)[b],
                decreases n - j,
            {
                if ks[i].eq(&ks[j]) {
                    proof {
                        assert(spec_keys(self@)[i as int] == spec_keys(self@)[j as int]);
                    }
                    return Err(PolicyError::DuplicatePubKeys);
                }
            }
        }
        Ok(())
    }
}

/// True iff two distinct key leaves carry the same key.
pub open spec fn spec_has_duplicate_keys(p: SpecPolicy) -> bool {
    exists|a: int, b: int|
        0 <= a < b < spec_keys(p).len() && spec_keys(p)[a] == spec_keys(p)[b]
}

/// Detailed error type for policies.
#[derive(Copy, Clone, PartialEq, Eq, Structural, Debug)]
pub enum PolicyError {
    /// `And` fragments only support two arguments.
    NonBinaryArgAnd,
    /// `Or` fragments only support two arguments.
    NonBinaryArgOr,
    /// `Thresh` fragments can only have `1 <= k <= n`.
    IncorrectThresh,
    /// `older` or `after` fragments cannot have `n = 0`.
    ZeroTime,
    /// `older` and `after` fragments must have `n < 2^31`.
    TimeTooFar,
    /// Semantic policy error: `And` fragments must take at least two arguments.
    InsufficientArgsforAnd,
    /// Semantic policy error: `Or` fragments must take at least two arguments.
    InsufficientArgsforOr,
    /// Entailment max terminals exceeded.
    EntailmentMaxTerminals,
    /// Lifting error: the policy requires both a height-based and a
    /// time-based lock on some satisfaction path.
    HeightTimelockCombination,
    /// The policy contains the same public key twice.
    DuplicatePubKeys,
}


/// Structural validity: `And`/`Or` are binary, thresholds have
/// `1 <= k <= n`, and locktimes lie in `(0, 2^31)`; checked recursively,
/// reporting the first violation in traversal order.
pub open spec fn spec_struct_valid(p: SpecPolicy) -> Result<(), PolicyError>
    decreases p,
{
    match p {
        SpecPolicy::And(s) => if s.len() != 2 {
            Err(PolicyError::NonBinaryArgAnd)
        } else {
            spec_struct_valid_list(s)
        },
        SpecPolicy::Or(s) => if s.len() != 2 {
            Err(PolicyError::NonBinaryArgOr)
        } else {
            spec_struct_valid_pairs(s)
        },
        SpecPolicy::Threshold(k, s) => if k == 0 || k > s.len() {
            Err(PolicyError::IncorrectThresh)
        } else {
            spec_struct_valid_list(s)
        },
        SpecPolicy::After(n) => if n == 0 {
            Err(PolicyError::ZeroTime)
        } else if n >= 0x8000_0000 {
            Err(PolicyError::TimeTooFar)
        } else {
            Ok(())
        },
        SpecPolicy::Older(n) => if n == 0 {
            Err(PolicyError::ZeroTime)
        } else if n >= 0x8000_0000 {
            Err(PolicyError::TimeTooFar)
        } else {
            Ok(())
        },
        _ => Ok(()),
    }
}

/// First structural error among the listed policies, if any.
pub open spec fn spec_struct_valid_list(s: Seq<SpecPolicy>) -> Result<(), PolicyError>
    decreases s,
{
    if s.len() == 0 {
        Ok(())
    } else {
        match spec_struct_valid(s[0]) {
            Err(e) => Err(e),
            Ok(()) => spec_struct_valid_list(s.drop_first()),
        }
    }
}

/// First structural error among the listed weighted policies, if any.
pub open spec fn spec_struct_valid_pairs(s: Seq<(usize, SpecPolicy)>) -> Result<(), PolicyError>
    decreases s,
{
    if s.len() == 0 {
        Ok(())
    } else {
        match spec_struct_valid(s[0].1) {
            Err(e) => Err(e),
            Ok(()) => spec_struct_valid_pairs(s.drop_first()),
        }
    }
}

/// Overall validity: no height/time lock combination, no duplicate keys,
/// and structural well-formedness, reported in that order.
pub open spec fn spec_is_valid(p: SpecPolicy) -> Result<(), PolicyError> {
    if crate::timelock::spec_timelock_info(p).contains_combination {
        Err(PolicyError::HeightTimelockCombination)
    } else if spec_has_duplicate_keys(p) {
        Err(PolicyError::DuplicatePubKeys)
    } else {
        spec_struct_valid(p)
    }
}

impl Policy {
    /// Whether the policy is valid: `And`/`Or` binary, thresholds with
    /// `1 <= k <= n`, locktimes in `(0, 2^31)`, no duplicate keys, and no
    /// satisfaction path mixing height-based and time-based locks.
    pub fn is_valid(&self) -> (r: Result<(), PolicyError>)
        ensures
            r == spec_is_valid(self@),
    {
        match self.check_timelocks() {
            Err(e) => return Err(e),
            Ok(()) => {},
        }
        match self.check_duplicate_keys() {
            Err(e) => return Err(e),
            Ok(()) => {},
        }
        policy_struct_valid(self)
    }
}

fn policy_struct_valid(p: &Policy) -> (r: Result<(), PolicyError>)
    ensures
        r == spec_struct_valid(p@),
    decreases p,
{
    match p {
        Policy::And(subs) => {
            if subs.len() != 2 {
                Err(PolicyError::NonBinaryArgAnd)
            } else {
                let r = struct_valid_list(subs, 0);
                proof {
                    assert(pvs(*subs).skip(0) =~= pvs(*subs));
                }
                r
            }
        },
        Policy::Or(subs) => {
            if subs.len() != 2 {
                Err(PolicyError::NonBinaryArgOr)
            } else {
                let r = struct_valid_pairs(subs, 0);
                proof {
                    assert(prs(*subs).skip(0) =~= prs(*subs));
                }
                r
            }
        },
        Policy::Threshold(k, subs) => {
            if *k == 0 || *k > subs.len() {
                Err(PolicyError::IncorrectThresh)
            } else {
                let r = struct_valid_list(subs, 0);
                proof {
                    assert(pvs(*subs).skip(0) =~= pvs(*subs));
                }
                r
            }
        },
        Policy::After(n) => {
            if *n == 0 {
                Err(PolicyError::ZeroTime)
            } else if *n >= 0x8000_0000 {
                Err(PolicyError::TimeTooFar)
            } else {
                Ok(())
            }
        },
        Policy::Older(n) => {
            if *n == 0 {
                Err(PolicyError::ZeroTime)
            } else if *n >= 0x8000_0000 {
                Err(PolicyError::TimeTooFar)
            } else {
                Ok(())
            }
        },
        _ => Ok(()),
    }
}

fn struct_valid_list(subs: &Vec<Policy>, i: usize) -> (r: Result<(), PolicyError>)
    requires
        i <= subs.len(),
    ensures
        r == spec_struct_valid_list(pvs(*subs).skip(i as int)),
    decreases subs, subs@.len() - i,
{
    if i == subs.len() {
        Ok(())
    } else {
        proof {
            let s = pvs(*subs);
            assert(s.skip(i as int)[0] == s[i as int]);
            assert(s.skip(i as int).drop_first() =~= s.skip(i as int + 1));
        }
        match policy_struct_valid(&subs[i]) {
            Err(e) => Err(e),
            Ok(()) => struct_valid_list(subs, i + 1),
        }
    }
}

fn struct_valid_pairs(subs: &Vec<(usize, Policy)>, i: usize) -> (r: Result<(), PolicyError>)
    requires
        i <= subs.len(),
    ensures
        r == spec_struct_valid_pairs(prs(*subs).skip(i as int)),
    decreases subs, subs@.len() - i,
{
    if i == subs.len() {
        Ok(())
    } else {
        proof {
            let s = prs(*subs);
            assert(s.skip(i as int)[0] == s[i as int]);
            assert(s.skip(i as int).drop_first() =~= s.skip(i as int + 1));
        }
        match policy_struct_valid(&subs[i].1) {
            Err(e) => Err(e),
            Ok(()) => struct_valid_pairs(subs, i + 1),
        }
    }
}

/// How many of the first `n` policies are safe.
pub open spec fn count_safe_upto(s: Seq<SpecPolicy>, n: int) -> int
    decreases s, n,
{
    if n <= 0 || n > s.len() {
        0
    } else {
        count_safe_upto(s, n - 1) + if spec_safe_nm(s[n - 1]).0 {
            1int
        } else {
            0int
        }
    }
}

/// How many of the first `n` policies are non-malleable.
pub open spec fn count_nm_upto(s: Seq<SpecPolicy>, n: int) -> int
    decreases s, n,
{
    if n <= 0 || n > s.len() {
        0
    } else {
        count_nm_upto(s, n - 1) + if spec_safe_nm(s[n - 1]).1 {
            1int
        } else {
            0int
        }
    }
}

/// How many of the first `n` weighted policies are safe.
pub open spec fn count_safe_pairs_upto(s: Seq<(usize, SpecPolicy)>, n: int) -> int
    decreases s, n,
{
    if n <= 0 || n > s.len() {
        0
    } else {
        count_safe_pairs_upto(s, n - 1) + if spec_safe_nm(s[n - 1].1).0 {
            1int
        } else {
            0int
        }
    }
}

/// How many of the first `n` weighted policies are non-malleable.
pub open spec fn count_nm_pairs_upto(s: Seq<(usize, SpecPolicy)>, n: int) -> int
    decreases s, n,
{
    if n <= 0 || n > s.len() {
        0
    } else {
        count_nm_pairs_upto(s, n - 1) + if spec_safe_nm(s[n - 1].1).1 {
            1int
        } else {
            0int
        }
    }
}

/// `(safe, non_malleable)` of a policy, computed bottom-up: a policy is
/// safe when every satisfaction needs a signature, and non-malleable when
/// no third party can rewrite a witness.
pub open spec fn spec_safe_nm(p: SpecPolicy) -> (bool, bool)
    decreases p,
{
    match p {
        SpecPolicy::Unsatisfiable => (true, true),
        SpecPolicy::Trivial => (true, true),
        SpecPolicy::Key(_) => (true, true),
        SpecPolicy::Sha256(_) => (false, true),
        SpecPolicy::Hash256(_) => (false, true),
        SpecPolicy::Ripemd160(_) => (false, true),
        SpecPolicy::Hash160(_) => (false, true),
        SpecPolicy::After(_) => (false, true),
        SpecPolicy::Older(_) => (false, true),
        SpecPolicy::Threshold(k, s) => {
            let n = s.len() as int;
            let sc = count_safe_upto(s, n);
            let nc = count_nm_upto(s, n);
            (sc >= n - k + 1, nc == n && sc >= n - k)
        },
        SpecPolicy::And(s) => {
            let n = s.len() as int;
            (count_safe_upto(s, n) > 0, count_nm_upto(s, n) == n)
        },
        SpecPolicy::Or(s) => {
            let n = s.len() as int;
            let sc = count_safe_pairs_upto(s, n);
            let nc = count_nm_pairs_upto(s, n);
            (sc == n, sc > 0 && nc == n)
        },
    }
}

impl Policy {
    /// Whether some compilation of the policy could be safe, and whether
    /// one could be non-malleable, as the pair `(safe, non_malleable)`.
    pub fn is_safe_nonmalleable(&self) -> (r: (bool, bool))
        ensures
            r == spec_safe_nm(self@),
        decreases self,
    {
        match self {
            Policy::Unsatisfiable => (true, true),
            Policy::Trivial => (true, true),
            Policy::Key(_) => (true, true),
            Policy::Sha256(_) => (false, true),
            Policy::Hash256(_) => (false, true),
            Policy::Ripemd160(_) => (false, true),
            Policy::Hash160(_) => (false, true),
            Policy::After(_) => (false, true),
            Policy::Older(_) => (false, true),
            Policy::Threshold(k, subs) => {
                let (sc, nc) = count_safe_nm_list(subs);
                let n = subs.len();
                let safe = sc as u128 + *k as u128 >= n as u128 + 1;
                let nonmall = nc == n && sc as u128 + *k as u128 >= n as u128;
                (safe, nonmall)
            },
            Policy::And(subs) => {
                let (sc, nc) = count_safe_nm_list(subs);
                let n = subs.len();
                (sc > 0, nc == n)
            },
            Policy::Or(subs) => {
                let (sc, nc) = count_safe_nm_pairs(subs);
                let n = subs.len();
                (sc == n, sc > 0 && nc == n)
            },
        }
    }
}

fn count_safe_nm_list(subs: &Vec<Policy>) -> (r: (usize, usize))
    ensures
        r.0 == count_safe_upto(pvs(*subs), subs.len() as int),
        r.1 == count_nm_upto(pvs(*subs), subs.len() as int),
    decreases subs,
{
    let mut sc: usize = 0;
    let mut nc: usize = 0;
    let n = subs.len();
    for j in 0..n
        invariant
            n == subs.len(),
            sc == count_safe_upto(pvs(*subs), j as int),
            nc == count_nm_upto(pvs(*subs), j as int),
            sc <= j,
            nc <= j,
        decreases n - j,
    {
        let (s, m) = subs[j].is_safe_nonmalleable();
        if s {
            sc = sc + 1;
        }
        if m {
            nc = nc + 1;
        }
    }
    (sc, nc)
}

fn count_safe_nm_pairs(subs: &Vec<(usize, Policy)>) -> (r: (usize, usize))
    ensures
        r.0 == count_safe_pairs_upto(prs(*subs), subs.len() as int),
        r.1 == count_nm_pairs_upto(prs(*subs), subs.len() as int),
    decreases subs,
{
    let mut sc: usize = 0;
    let mut nc: usize = 0;
    let n = subs.len();
    for j in 0..n
        invariant
            n == subs.len(),
            sc == count_safe_pairs_upto(prs(*subs), j as int),
            nc == count_nm_pairs_upto(prs(*subs), j as int),
            sc <= j,
            nc <= j,
        decreases n - j,
    {
        let (s, m) = subs[j].1.is_safe_nonmalleable();
        if s {
            sc = sc + 1;
        }
        if m {
            nc = nc + 1;
        }
    }
    (sc, nc)
}



/// Structural well-formedness: conjunctions and disjunctions are binary,
/// and every threshold demands between one and all of its children,
/// recursively.
pub open spec fn spec_arity_ok(p: SpecPolicy) -> bool
    decreases p,
{
    match p {
        SpecPolicy::And(s) => s.len() == 2 && spec_arity_ok_list(s),
        SpecPolicy::Or(s) => s.len() == 2 && spec_arity_ok_pairs(s),
        SpecPolicy::Threshold(k, s) => 1 <= k <= s.len() && spec_arity_ok_list(s),
        _ => true,
    }
}

/// Arity holds of every policy in the list.
pub open spec fn spec_arity_ok_list(s: Seq<SpecPolicy>) -> bool
    decreases s,
{
    if s.len() == 0 {
        true
    } else {
        spec_arity_ok(s[0]) && spec_arity_ok_list(s.drop_first())
    }
}

/// Arity holds of every weighted policy in the list.
pub open spec fn spec_arity_ok_pairs(s: Seq<(usize, SpecPolicy)>) -> bool
    decreases s,
{
    if s.len() == 0 {
        true
    } else {
        spec_arity_ok(s[0].1) && spec_arity_ok_pairs(s.drop_first())
    }
}

/// Every policy the validator accepts is structurally well formed:
/// `And` and `Or` are binary and every threshold has `1 <= k <= n`,
/// at every depth.
pub proof fn lemma_valid_arity(p: SpecPolicy)
    requires
        spec_struct_valid(p) is Ok,
    ensures
        spec_arity_ok(p),
    decreases p,
{
    match p {
        SpecPolicy::And(s) => {
            lemma_valid_arity_list(s);
        },
        SpecPolicy::Threshold(_k, s) => {
            lemma_valid_arity_list(s);
        },
        SpecPolicy::Or(s) => {
            lemma_valid_arity_pairs(s);
        },
        _ => {},
    }
}

proof fn lemma_valid_arity_list(s: Seq<SpecPolicy>)
    requires
        spec_struct_valid_list(s) is Ok,
    ensures
        spec_arity_ok_list(s),
    decreases s,
{
    if s.len() > 0 {
        lemma_valid_arity(s[0]);
        lemma_valid_arity_list(s.drop_first());
    }
}

proof fn lemma_valid_arity_pairs(s: Seq<(usize, SpecPolicy)>)
    requires
        spec_struct_valid_pairs(s) is Ok,
    ensures
        spec_arity_ok_pairs(s),
    decreases s,
{
    if s.len() > 0 {
        lemma_valid_arity(s[0].1);
        lemma_valid_arity_pairs(s.drop_first());
    }
}

/// A key in the concatenated key list of some children comes from one of
/// them.
pub proof fn lemma_keys_list_elem(s: Seq<SpecPolicy>, x: Seq<char>)
    requires
        spec_keys_list(s).contains(x),
    ensures
        exists|j: int| 0 <= j < s.len() && #[trigger] spec_keys(s[j]).contains(x),
    decreases s,
{
    if s.len() > 0 {
        let whole = spec_keys_list(s);
        let i = choose|i: int| 0 <= i < whole.len() && whole[i] == x;
        if i < spec_keys(s[0]).len() {
            assert(spec_keys(s[0])[i] == x);
            assert(spec_keys(s[0]).contains(x));
        } else {
            assert(spec_keys_list(s.drop_first())[i - spec_keys(s[0]).len()] == x);
            assert(spec_keys_list(s.drop_first()).contains(x));
            lemma_keys_list_elem(s.drop_first(), x);
            let j = choose|j: int|
                0 <= j < s.drop_first().len() && #[trigger] spec_keys(
                    s.drop_first()[j],
                ).contains(x);
            assert(s.drop_first()[j] == s[j + 1]);
            assert(spec_keys(s[j + 1]).contains(x));
        }
    }
}

/// A key in the concatenated key list of weighted children comes from one
/// of them.
pub proof fn lemma_keys_pairs_elem(s: Seq<(usize, SpecPolicy)>, x: Seq<char>)
    requires
        spec_keys_pairs(s).contains(x),
    ensures
        exists|j: int| 0 <= j < s.len() && #[trigger] spec_keys(s[j].1).contains(x),
    decreases s,
{
    if s.len() > 0 {
        let whole = spec_keys_pairs(s);
        let i = choose|i: int| 0 <= i < whole.len() && whole[i] == x;
        if i < spec_keys(s[0].1).len() {
            assert(spec_keys(s[0].1)[i] == x);
            assert(spec_keys(s[0].1).contains(x));
        } else {
            assert(spec_keys_pairs(s.drop_first())[i - spec_keys(s[0].1).len()] == x);
            assert(spec_keys_pairs(s.drop_first()).contains(x));
            lemma_keys_pairs_elem(s.drop_first(), x);
            let j = choose|j: int|
                0 <= j < s.drop_first().len() && #[trigger] spec_keys(
                    s.drop_first()[j].1,
                ).contains(x);
            assert(s.drop_first()[j] == s[j + 1]);
            assert(spec_keys(s[j + 1].1).contains(x));
        }
    }
}

/// After replacing every leaf carrying `key` by `Unsatisfiable`, the key
/// list never contains `key` again.
pub proof fn lemma_translate_unsat_keys(p: SpecPolicy, key: Seq<char>)
    ensures
        !spec_keys(spec_translate_unsat_pk(p, key)).contains(key),
    decreases p,
{
    let q = spec_translate_unsat_pk(p, key);
    match p {
        SpecPolicy::Key(k) => {
            if k == key {
                assert(spec_keys(q).len() == 0);
                assert(!spec_keys(q).contains(key));
            } else {
                if spec_keys(q).contains(key) {
                    let i = choose|i: int|
                        0 <= i < spec_keys(q).len() && spec_keys(q)[i] == key;
                    assert(spec_keys(q)[0] == k);
                    assert(false);
                }
            }
        },
        SpecPolicy::And(sub) => {
            let m = q->And_0;
            if spec_keys_list(m).contains(key) {
                lemma_keys_list_elem(m, key);
                let j = choose|j: int|
                    0 <= j < m.len() && #[trigger] spec_keys(m[j]).contains(key);
                lemma_translate_unsat_keys(sub[j], key);
            }
        },
        SpecPolicy::Threshold(_k, sub) => {
            let m = q->Threshold_1;
            if spec_keys_list(m).contains(key) {
                lemma_keys_list_elem(m, key);
                let j = choose|j: int|
                    0 <= j < m.len() && #[trigger] spec_keys(m[j]).contains(key);
                lemma_translate_unsat_keys(sub[j], key);
            }
        },
        SpecPolicy::Or(sub) => {
            let m = q->Or_0;
            if spec_keys_pairs(m).contains(key) {
                lemma_keys_pairs_elem(m, key);
                let j = choose|j: int|
                    0 <= j < m.len() && #[trigger] spec_keys(m[j].1).contains(key);
                lemma_translate_unsat_keys(sub[j].1, key);
            }
        },
        _ => {
            assert(spec_keys(q).len() == 0);
        },
    }
}

/// The tree with every key renamed through `f`; hashes, locks and weights
/// stand unchanged.
pub open spec fn spec_relabel(p: SpecPolicy, f: spec_fn(Seq<char>) -> Seq<char>) -> SpecPolicy
    decreases p,
{
    match p {
        SpecPolicy::Key(k) => SpecPolicy::Key(f(k)),
        SpecPolicy::And(s) => SpecPolicy::And(
            Seq::new(
                s.len(),
                |i: int|
                    if 0 <= i < s.len() {
                        spec_relabel(s[i], f)
                    } else {
                        SpecPolicy::Unsatisfiable
                    },
            ),
        ),
        SpecPolicy::Threshold(k, s) => SpecPolicy::Threshold(
            k,
            Seq::new(
                s.len(),
                |i: int|
                    if 0 <= i < s.len() {
                        spec_relabel(s[i], f)
                    } else {
                        SpecPolicy::Unsatisfiable
                    },
            ),
        ),
        SpecPolicy::Or(s) => SpecPolicy::Or(
            Seq::new(
                s.len(),
                |i: int|
                    if 0 <= i < s.len() {
                        (s[i].0, spec_relabel(s[i].1, f))
                    } else {
                        (0usize, SpecPolicy::Unsatisfiable)
                    },
            ),
        ),
        x => x,
    }
}

/// Safety and non-malleability are purely structural: renaming the keys
/// changes neither.
pub proof fn lemma_snm_relabel(p: SpecPolicy, f: spec_fn(Seq<char>) -> Seq<char>)
    ensures
        spec_safe_nm(spec_relabel(p, f)) == spec_safe_nm(p),
    decreases p, 1int,
{
    match p {
        SpecPolicy::And(s) => {
            let m = (spec_relabel(p, f))->And_0;
            lemma_snm_relabel_counts(s, m, f, s.len() as int);
        },
        SpecPolicy::Threshold(_k, s) => {
            let m = (spec_relabel(p, f))->Threshold_1;
            lemma_snm_relabel_counts(s, m, f, s.len() as int);
        },
        SpecPolicy::Or(s) => {
            let m = (spec_relabel(p, f))->Or_0;
            lemma_snm_relabel_counts_pairs(s, m, f, s.len() as int);
        },
        _ => {},
    }
}

proof fn lemma_snm_relabel_counts(
    s: Seq<SpecPolicy>,
    m: Seq<SpecPolicy>,
    f: spec_fn(Seq<char>) -> Seq<char>,
    n: int,
)
    requires
        m.len() == s.len(),
        forall|i: int| 0 <= i < s.len() ==> #[trigger] m[i] == spec_relabel(s[i], f),
    ensures
        count_safe_upto(m, n) == count_safe_upto(s, n),
        count_nm_upto(m, n) == count_nm_upto(s, n),
    decreases s, n, 0int,
{
    if n > 0 && n <= s.len() {
        lemma_snm_relabel(s[n - 1], f);
        lemma_snm_relabel_counts(s, m, f, n - 1);
    }
}

proof fn lemma_snm_relabel_counts_pairs(
    s: Seq<(usize, SpecPolicy)>,
    m: Seq<(usize, SpecPolicy)>,
    f: spec_fn(Seq<char>) -> Seq<char>,
    n: int,
)
    requires
        m.len() == s.len(),
        forall|i: int| 0 <= i < s.len() ==> #[trigger] m[i].1 == spec_relabel(s[i].1, f),
    ensures
        count_safe_pairs_upto(m, n) == count_safe_pairs_upto(s, n),
        count_nm_pairs_upto(m, n) == count_nm_pairs_upto(s, n),
    decreases s, n, 0int,
{
    if n > 0 && n <= s.len() {
        lemma_snm_relabel(s[n - 1].1, f);
        lemma_snm_relabel_counts_pairs(s, m, f, n - 1);
    }
}

} // verus!
