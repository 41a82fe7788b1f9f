//! Key expressions: a single key or a MuSig aggregate of nested key
//! expressions, with depth-first enumeration of the leaf keys.

use vstd::prelude::*;
use crate::policy::svs;

verus! {

broadcast use vstd::std_specs::vec::axiom_vec_index_decreases;

/// Mathematical model of a [`KeyExpr`].
pub enum SpecKeyExpr {
    /// A plain key.
    SingleKey(Seq<char>),
    /// A MuSig aggregate of nested key expressions.
    MuSig(Seq<SpecKeyExpr>),
}

/// A key, or a MuSig aggregation of nested key expressions, as found inside
/// `pk` and `multi_a` fragments of a Miniscript.
#[derive(Debug)]
pub enum KeyExpr {
    /// A plain key.
    SingleKey(String),
    /// A MuSig aggregate of nested key expressions.
    MuSig(Vec<KeyExpr>),
}

impl View for KeyExpr {
    type V = SpecKeyExpr;

    open spec fn view(&self) -> SpecKeyExpr
        decreases self,
    {
        match self {
            KeyExpr::SingleKey(k) => SpecKeyExpr::SingleKey(k@),
            KeyExpr::MuSig(subs) => SpecKeyExpr::MuSig(kvs_build(*subs, 0)),
        }
    }
}

/// The models of the expressions of `v` from position `i` on, assembled
/// one by one; this recursive form is what [`View`] uses for a MuSig's
/// list.
pub open spec fn kvs_build(v: Vec<KeyExpr>, i: int) -> Seq<SpecKeyExpr>
    decreases v, v.len() - i,
{
    if i < 0 || i >= v.len() {
        Seq::empty()
    } else {
        seq![v[i]@] + kvs_build(v, i + 1)
    }
}

/// View of a vector of key expressions as a sequence of their models.
pub open spec fn kvs(v: Vec<KeyExpr>) -> Seq<SpecKeyExpr> {
    Seq::new(
        v.len() as nat,
        |i: int| if 0 <= i < v.len() { v[i]@ } else { SpecKeyExpr::MuSig(Seq::empty()) },
    )
}

/// The assembled model list equals the pointwise view of the vector's
/// suffix.
pub proof fn lemma_kvs_build(v: Vec<KeyExpr>, i: int)
    requires
        0 <= i <= v.len(),
    ensures
        kvs_build(v, i) == kvs(v).skip(i),
    decreases v.len() - i,
{
    assert(kvs(v).len() == v@.len());
    if i == v.len() {
        assert(kvs_build(v, i).len() == 0);
        assert(kvs_build(v, i) =~= kvs(v).skip(i));
    } else {
        lemma_kvs_build(v, i + 1);
        assert(kvs_build(v, i) == seq![v[i]@] + kvs_build(v, i + 1));
        assert(kvs_build(v, i) =~= kvs(v).skip(i));
    }
}

/// A MuSig node's model carries the models of its list, elementwise.
pub proof fn lemma_view_musig(k: &KeyExpr)
    requires
        *k is MuSig,
    ensures
        k@ is MuSig,
        (k@)->MuSig_0 == kvs(k->MuSig_0),
{
    let subs = k->MuSig_0;
    assert(*k == KeyExpr::MuSig(subs));
    assert((k@)->MuSig_0 == kvs_build(subs, 0));
    lemma_kvs_build(subs, 0);
    assert(kvs(subs).skip(0) =~= kvs(subs));
}

/// Elementwise facts about the vector view.
pub proof fn lemma_kvs_props(v: Vec<KeyExpr>)
    ensures
        kvs(v).len() == v@.len(),
        forall|j: int| 0 <= j < v@.len() ==> kvs(v)[j] == v@[j]@,
{
}

/// The leaf keys of a key expression, depth-first and left-to-right: a
/// single key yields itself; a MuSig yields the concatenation of its
/// children's leaves.
pub open spec fn spec_key_leaves(k: SpecKeyExpr) -> Seq<Seq<char>>
    decreases k,
{
    match k {
        SpecKeyExpr::SingleKey(s) => seq![s],
        SpecKeyExpr::MuSig(subs) => spec_key_leaves_list(subs),
    }
}

/// Concatenation of the leaves of each key expression in the list.
pub open spec fn spec_key_leaves_list(s: Seq<SpecKeyExpr>) -> Seq<Seq<char>>
    decreases s,
{
    if s.len() == 0 {
        Seq::empty()
    } else {
        spec_key_leaves(s[0]) + spec_key_leaves_list(s.drop_first())
    }
}

impl KeyExpr {
    /// The leaf keys, in depth-first, left-to-right order.
    pub fn leaves(&self) -> (r: Vec<String>)
        ensures
            svs(r@) == spec_key_leaves(self@),
        decreases self,
    {
        match self {
            KeyExpr::SingleKey(k) => {
                let mut v: Vec<String> = Vec::new();
                v.push(k.clone());
                proof {
                    assert(svs(v@) =~= seq![k@]);
                }
                v
            },
            KeyExpr::MuSig(subs) => {
                let r = leaves_of_list(subs, 0);
                proof {
                    lemma_view_musig(self);
                    assert(kvs(*subs).skip(0) =~= kvs(*subs));
                }
                r
            },
        }
    }
}

pub(crate) fn leaves_of_list(subs: &Vec<KeyExpr>, i: usize) -> (r: Vec<String>)
    requires
        i <= subs.len(),
    ensures
        svs(r@) == spec_key_leaves_list(kvs(*subs).skip(i as int)),
    decreases subs, subs@.len() - i,
{
    if i == subs.len() {
        let v: Vec<String> = Vec::new();
        proof {
            assert(kvs(*subs).skip(i as int).len() == 0);
            assert(svs(v@) =~= spec_key_leaves_list(kvs(*subs).skip(i as int)));
        }
        v
    } else {
        let mut r = subs[i].leaves();
        let mut rest = leaves_of_list(subs, i + 1);
        proof {
            let s = kvs(*subs);
            assert(s.skip(i as int)[0] == s[i as int]);
            assert(s.skip(i as int).drop_first() =~= s.skip(i as int + 1));
        }
        let ghost ra = r@;
        let ghost rb = rest@;
        r.append(&mut rest);
        proof {
            crate::policy::lemma_svs_concat(ra, rb);
        }
        r
    }
}

fn keyexpr_clone(a: &KeyExpr) -> (r: KeyExpr)
    ensures
        r@ == a@,
    decreases a,
{
    match a {
        KeyExpr::SingleKey(k) => KeyExpr::SingleKey(k.clone()),
        KeyExpr::MuSig(subs) => {
            let out = keyexpr_clone_list(subs);
            let ghost gout = out;
            let r = KeyExpr::MuSig(out);
            proof {
                lemma_view_musig(&r);
                lemma_view_musig(a);
                assert(kvs(gout) =~= kvs(*subs));
            }
            r
        },
    }
}

fn keyexpr_clone_list(subs: &Vec<KeyExpr>) -> (out: Vec<KeyExpr>)
    ensures
        out.len() == subs.len(),
        forall|j: int| 0 <= j < subs.len() ==> out[j]@ == subs[j]@,
    decreases subs,
{
    let mut out: Vec<KeyExpr> = Vec::new();
    let n = subs.len();
    for i in 0..n
        invariant
            n == subs.len(),
            out.len() == i,
            forall|j: int| 0 <= j < i ==> out[j]@ == subs[j]@,
        decreases n - i,
    {
        out.push(keyexpr_clone(&subs[i]));
    }
    out
}

impl Clone for KeyExpr {
    /// Deep copy; the copy has the same model as the original.
    fn clone(&self) -> (r: Self)
        ensures
            r@ == self@,
    {
        keyexpr_clone(self)
    }
}

fn keyexpr_eq(a: &KeyExpr, b: &KeyExpr) -> (r: bool)
    ensures
        r == (a@ == b@),
    decreases a,
{
    match (a, b) {
        (KeyExpr::SingleKey(k1), KeyExpr::SingleKey(k2)) => k1.eq(k2),
        (KeyExpr::MuSig(s1), KeyExpr::MuSig(s2)) => {
            let r = keyexpr_eq_list(s1, s2);
            proof {
                lemma_view_musig(a);
                lemma_view_musig(b);
                if r {
                    assert(kvs(*s1) =~= kvs(*s2));
                } else if s1.len() == s2.len() {
                    let j = choose|j: int| 0 <= j < s1.len() && s1[j]@ != s2[j]@;
                    assert(kvs(*s1)[j] != kvs(*s2)[j]);
                } else {
                    assert(kvs(*s1).len() != kvs(*s2).len());
                }
            }
            r
        },
        (KeyExpr::SingleKey(_), KeyExpr::MuSig(_)) => {
            proof {
                assert(a@ is SingleKey && b@ is MuSig);
            }
            false
        },
        (KeyExpr::MuSig(_), KeyExpr::SingleKey(_)) => {
            proof {
                assert(a@ is MuSig && b@ is SingleKey);
            }
            false
        },
    }
}

fn keyexpr_eq_list(s1: &Vec<KeyExpr>, s2: &Vec<KeyExpr>) -> (r: bool)
    ensures
        r == (s1.len() == s2.len() && forall|j: int|
            0 <= j < s1.len() ==> s1[j]@ == s2[j]@),
    decreases s1,
{
    if s1.len() != s2.len() {
        return false;
    }
    let n = s1.len();
    for i in 0..n
        invariant
            n == s1.len() == s2.len(),
            forall|j: int| 0 <= j < i ==> s1[j]@ == s2[j]@,
        decreases n - i,
    {
        if !keyexpr_eq(&s1[i], &s2[i]) {
            return false;
        }
    }
    true
}

impl PartialEq for KeyExpr {
    fn eq(&self, other: &KeyExpr) -> (r: bool) {
        keyexpr_eq(self, other)
    }
}

impl Eq for KeyExpr {

}

impl vstd::std_specs::cmp::PartialEqSpecImpl for KeyExpr {
    open spec fn obeys_eq_spec() -> bool {
        true
    }

    open spec fn eq_spec(&self, other: &KeyExpr) -> bool {
        self@ == other@
    }
}

} // verus!
