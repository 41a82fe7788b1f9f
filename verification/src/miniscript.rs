//! The Miniscript syntax tree consumed by the iterators: terminal
//! fragments with their branching shape and leaf-key accessors.

use vstd::prelude::*;
use crate::keyexpr::{KeyExpr, SpecKeyExpr, kvs, spec_key_leaves, spec_key_leaves_list};
use crate::policy::svs;
use crate::iter::SpecPkPkh as SpecPkPkhAlias;

verus! {

broadcast use vstd::std_specs::vec::axiom_vec_index_decreases;

/// Mathematical model of a [`Miniscript`] node.
pub enum SpecMiniscript {
    /// `pk_k`: push a key expression.
    PkK(SpecKeyExpr),
    /// `pk_h`: push the hash of a known key.
    PkH(Seq<char>),
    /// `expr_raw_pkh`: push a raw key hash whose key is not known.
    RawPkH(Seq<char>),
    /// `multi`: `k`-of-`n` classic multisignature.
    Multi(usize, Seq<Seq<char>>),
    /// `multi_a`: `k`-of-`n` Taproot multisignature over key expressions.
    MultiA(usize, Seq<SpecKeyExpr>),
    /// An absolute locktime.
    After(u32),
    /// A relative locktime.
    Older(u32),
    /// A SHA256 preimage condition.
    Sha256(Seq<char>),
    /// A double-SHA256 preimage condition.
    Hash256(Seq<char>),
    /// A RIPEMD160 preimage condition.
    Ripemd160(Seq<char>),
    /// A HASH160 preimage condition.
    Hash160(Seq<char>),
    /// The `a:` wrapper.
    Alt(Box<SpecMiniscript>),
    /// The `s:` wrapper.
    Swap(Box<SpecMiniscript>),
    /// The `c:` wrapper.
    Check(Box<SpecMiniscript>),
    /// The `d:` wrapper.
    DupIf(Box<SpecMiniscript>),
    /// The `v:` wrapper.
    Verify(Box<SpecMiniscript>),
    /// The `j:` wrapper.
    NonZero(Box<SpecMiniscript>),
    /// The `n:` wrapper.
    ZeroNotEqual(Box<SpecMiniscript>),
    /// `and_v`.
    AndV(Box<SpecMiniscript>, Box<SpecMiniscript>),
    /// `and_b`.
    AndB(Box<SpecMiniscript>, Box<SpecMiniscript>),
    /// `or_b`.
    OrB(Box<SpecMiniscript>, Box<SpecMiniscript>),
    /// `or_d`.
    OrD(Box<SpecMiniscript>, Box<SpecMiniscript>),
    /// `or_c`.
    OrC(Box<SpecMiniscript>, Box<SpecMiniscript>),
    /// `or_i`.
    OrI(Box<SpecMiniscript>, Box<SpecMiniscript>),
    /// `andor`.
    AndOr(Box<SpecMiniscript>, Box<SpecMiniscript>, Box<SpecMiniscript>),
    /// `thresh`: `k` of the listed sub-scripts.
    Thresh(usize, Seq<SpecMiniscript>),
}

/// A Miniscript syntax tree node over string keys.
#[derive(Debug, PartialEq, Eq)]
pub enum Miniscript {
    /// `pk_k`: push a key expression.
    PkK(KeyExpr),
    /// `pk_h`: push the hash of a known key.
    PkH(String),
    /// `expr_raw_pkh`: push a raw key hash whose key is not known.
    RawPkH(String),
    /// `multi`: `k`-of-`n` classic multisignature.
    Multi(usize, Vec<String>),
    /// `multi_a`: `k`-of-`n` Taproot multisignature over key expressions.
    MultiA(usize, Vec<KeyExpr>),
    /// An absolute locktime.
    After(u32),
    /// A relative locktime.
    Older(u32),
    /// A SHA256 preimage condition.
    Sha256(String),
    /// A double-SHA256 preimage condition.
    Hash256(String),
    /// A RIPEMD160 preimage condition.
    Ripemd160(String),
    /// A HASH160 preimage condition.
    Hash160(String),
    /// The `a:` wrapper.
    Alt(Box<Miniscript>),
    /// The `s:` wrapper.
    Swap(Box<Miniscript>),
    /// The `c:` wrapper.
    Check(Box<Miniscript>),
    /// The `d:` wrapper.
    DupIf(Box<Miniscript>),
    /// The `v:` wrapper.
    Verify(Box<Miniscript>),
    /// The `j:` wrapper.
    NonZero(Box<Miniscript>),
    /// The `n:` wrapper.
    ZeroNotEqual(Box<Miniscript>),
    /// `and_v`.
    AndV(Box<Miniscript>, Box<Miniscript>),
    /// `and_b`.
    AndB(Box<Miniscript>, Box<Miniscript>),
    /// `or_b`.
    OrB(Box<Miniscript>, Box<Miniscript>),
    /// `or_d`.
    OrD(Box<Miniscript>, Box<Miniscript>),
    /// `or_c`.
    OrC(Box<Miniscript>, Box<Miniscript>),
    /// `or_i`.
    OrI(Box<Miniscript>, Box<Miniscript>),
    /// `andor`.
    AndOr(Box<Miniscript>, Box<Miniscript>, Box<Miniscript>),
    /// `thresh`: `k` of the listed sub-scripts.
    Thresh(usize, Vec<Miniscript>),
}

impl View for Miniscript {
    type V = SpecMiniscript;

    open spec fn view(&self) -> SpecMiniscript
        decreases self,
    {
        match self {
            Miniscript::PkK(k) => SpecMiniscript::PkK(k@),
            Miniscript::PkH(k) => SpecMiniscript::PkH(k@),
            Miniscript::RawPkH(h) => SpecMiniscript::RawPkH(h@),
            Miniscript::Multi(k, keys) => SpecMiniscript::Multi(*k, svs(keys@)),
            Miniscript::MultiA(k, keys) => SpecMiniscript::MultiA(*k, kvs(*keys)),
            Miniscript::After(n) => SpecMiniscript::After(*n),
            Miniscript::Older(n) => SpecMiniscript::Older(*n),
            Miniscript::Sha256(h) => SpecMiniscript::Sha256(h@),
            Miniscript::Hash256(h) => SpecMiniscript::Hash256(h@),
            Miniscript::Ripemd160(h) => SpecMiniscript::Ripemd160(h@),
            Miniscript::Hash160(h) => SpecMiniscript::Hash160(h@),
            Miniscript::Alt(s) => SpecMiniscript::Alt(Box::new((**s)@)),
            Miniscript::Swap(s) => SpecMiniscript::Swap(Box::new((**s)@)),
            Miniscript::Check(s) => SpecMiniscript::Check(Box::new((**s)@)),
            Miniscript::DupIf(s) => SpecMiniscript::DupIf(Box::new((**s)@)),
            Miniscript::Verify(s) => SpecMiniscript::Verify(Box::new((**s)@)),
            Miniscript::NonZero(s) => SpecMiniscript::NonZero(Box::new((**s)@)),
            Miniscript::ZeroNotEqual(s) => SpecMiniscript::ZeroNotEqual(Box::new((**s)@)),
            Miniscript::AndV(a, b) => SpecMiniscript::AndV(Box::new((**a)@), Box::new((**b)@)),
            Miniscript::AndB(a, b) => SpecMiniscript::AndB(Box::new((**a)@), Box::new((**b)@)),
            Miniscript::OrB(a, b) => SpecMiniscript::OrB(Box::new((**a)@), Box::new((**b)@)),
            Miniscript::OrD(a, b) => SpecMiniscript::OrD(Box::new((**a)@), Box::new((**b)@)),
            Miniscript::OrC(a, b) => SpecMiniscript::OrC(Box::new((**a)@), Box::new((**b)@)),
            Miniscript::OrI(a, b) => SpecMiniscript::OrI(Box::new((**a)@), Box::new((**b)@)),
            Miniscript::AndOr(a, b, c) => SpecMiniscript::AndOr(
                Box::new((**a)@),
                Box::new((**b)@),
                Box::new((**c)@),
            ),
            Miniscript::Thresh(k, subs) => SpecMiniscript::Thresh(*k, mvs_build(*subs, 0)),
        }
    }
}

/// The models of the nodes of `v` from position `i` on, assembled one by
/// one; this recursive form is what [`View`] uses for a threshold's list.
pub open spec fn mvs_build(v: Vec<Miniscript>, i: int) -> Seq<SpecMiniscript>
    decreases v, v.len() - i,
{
    if i < 0 || i >= v.len() {
        Seq::empty()
    } else {
        seq![v[i]@] + mvs_build(v, i + 1)
    }
}

/// View of a vector of Miniscript nodes as a sequence of their models.
pub open spec fn mvs(v: Vec<Miniscript>) -> Seq<SpecMiniscript> {
    Seq::new(
        v.len() as nat,
        |i: int| if 0 <= i < v.len() { v[i]@ } else { SpecMiniscript::After(0) },
    )
}

/// View of a sequence of Miniscript nodes as a sequence of their models.
pub open spec fn mss(s: Seq<Miniscript>) -> Seq<SpecMiniscript> {
    Seq::new(s.len(), |i: int| if 0 <= i < s.len() { s[i]@ } else { SpecMiniscript::After(0) })
}

/// The direct children of a node, in order: nothing below a leaf, one node
/// below a wrapper, the operands of `and`/`or`/`andor` in order, and a
/// threshold's list in order.
pub open spec fn spec_branches(m: SpecMiniscript) -> Seq<SpecMiniscript> {
    match m {
        SpecMiniscript::Alt(s) => seq![*s],
        SpecMiniscript::Swap(s) => seq![*s],
        SpecMiniscript::Check(s) => seq![*s],
        SpecMiniscript::DupIf(s) => seq![*s],
        SpecMiniscript::Verify(s) => seq![*s],
        SpecMiniscript::NonZero(s) => seq![*s],
        SpecMiniscript::ZeroNotEqual(s) => seq![*s],
        SpecMiniscript::AndV(a, b) => seq![*a, *b],
        SpecMiniscript::AndB(a, b) => seq![*a, *b],
        SpecMiniscript::OrB(a, b) => seq![*a, *b],
        SpecMiniscript::OrD(a, b) => seq![*a, *b],
        SpecMiniscript::OrC(a, b) => seq![*a, *b],
        SpecMiniscript::OrI(a, b) => seq![*a, *b],
        SpecMiniscript::AndOr(a, b, c) => seq![*a, *b, *c],
        SpecMiniscript::Thresh(_k, subs) => subs,
        _ => Seq::empty(),
    }
}

/// The plain keys yielded at this single node by the key iterators: the
/// leaves of a `pk_k` or `multi_a` key expression, the key of a `pk_h`,
/// and a `multi`'s key list.
pub open spec fn spec_node_pks(m: SpecMiniscript) -> Seq<Seq<char>> {
    match m {
        SpecMiniscript::PkK(k) => spec_key_leaves(k),
        SpecMiniscript::PkH(k) => seq![k],
        SpecMiniscript::Multi(_k, keys) => keys,
        SpecMiniscript::MultiA(_k, keys) => spec_key_leaves_list(keys),
        _ => Seq::empty(),
    }
}

/// The keys or key hashes yielded at this single node, tagged: every plain
/// key as with [`spec_node_pks`], and a raw key hash as a hash.
pub open spec fn spec_node_pk_pkhs(m: SpecMiniscript) -> Seq<crate::iter::SpecPkPkh> {
    match m {
        SpecMiniscript::RawPkH(h) => seq![crate::iter::SpecPkPkh::Hashed(h)],
        _ => Seq::new(
            spec_node_pks(m).len(),
            |i: int|
                if 0 <= i < spec_node_pks(m).len() {
                    crate::iter::SpecPkPkh::Plain(spec_node_pks(m)[i])
                } else {
                    crate::iter::SpecPkPkh::Plain(Seq::empty())
                },
        ),
    }
}

/// The keys reachable through the direct accessor [`Miniscript::get_nth_pk`]:
/// only `pk_h` and `multi` expose keys this way; `pk_k` and `multi_a` are
/// handled through their key-expression iterators instead.
pub open spec fn spec_direct_pks(m: SpecMiniscript) -> Seq<Seq<char>> {
    match m {
        SpecMiniscript::PkH(k) => seq![k],
        SpecMiniscript::Multi(_k, keys) => keys,
        _ => Seq::empty(),
    }
}

/// The key hashes reachable through [`Miniscript::get_nth_pkh`]: the raw
/// hash of a `expr_raw_pkh` and the hashes of the keys of `pk_h` and
/// `multi`. With string keys a key is its own hash.
pub open spec fn spec_direct_pkhs(m: SpecMiniscript) -> Seq<Seq<char>> {
    match m {
        SpecMiniscript::RawPkH(h) => seq![h],
        SpecMiniscript::PkH(k) => seq![k],
        SpecMiniscript::Multi(_k, keys) => keys,
        _ => Seq::empty(),
    }
}

/// The tagged entries reachable through [`Miniscript::get_nth_pk_pkh`].
pub open spec fn spec_direct_pk_pkhs(m: SpecMiniscript) -> Seq<crate::iter::SpecPkPkh> {
    match m {
        SpecMiniscript::RawPkH(h) => seq![crate::iter::SpecPkPkh::Hashed(h)],
        SpecMiniscript::PkH(k) => seq![crate::iter::SpecPkPkh::Plain(k)],
        SpecMiniscript::Multi(_k, keys) => Seq::new(
            keys.len(),
            |i: int|
                if 0 <= i < keys.len() {
                    crate::iter::SpecPkPkh::Plain(keys[i])
                } else {
                    crate::iter::SpecPkPkh::Plain(Seq::empty())
                },
        ),
        _ => Seq::empty(),
    }
}


fn ms_clone(a: &Miniscript) -> (r: Miniscript)
    ensures
        r@ == a@,
    decreases a,
{
    match a {
        Miniscript::PkK(k) => Miniscript::PkK(k.clone()),
        Miniscript::PkH(k) => Miniscript::PkH(k.clone()),
        Miniscript::RawPkH(h) => Miniscript::RawPkH(h.clone()),
        Miniscript::Multi(k, keys) => {
            let r = Miniscript::Multi(*k, clone_strings(keys));
            proof {
                assert(r@ matches SpecMiniscript::Multi(_kk, s) && s =~= svs(keys@));
            }
            r
        },
        Miniscript::MultiA(k, keys) => {
            let r = Miniscript::MultiA(*k, clone_keyexprs(keys));
            proof {
                assert(r@ matches SpecMiniscript::MultiA(_kk, s) && s =~= kvs(*keys));
            }
            r
        },
        Miniscript::After(n) => Miniscript::After(*n),
        Miniscript::Older(n) => Miniscript::Older(*n),
        Miniscript::Sha256(h) => Miniscript::Sha256(h.clone()),
        Miniscript::Hash256(h) => Miniscript::Hash256(h.clone()),
        Miniscript::Ripemd160(h) => Miniscript::Ripemd160(h.clone()),
        Miniscript::Hash160(h) => Miniscript::Hash160(h.clone()),
        Miniscript::Alt(s) => Miniscript::Alt(Box::new(ms_clone(s))),
        Miniscript::Swap(s) => Miniscript::Swap(Box::new(ms_clone(s))),
        Miniscript::Check(s) => Miniscript::Check(Box::new(ms_clone(s))),
        Miniscript::DupIf(s) => Miniscript::DupIf(Box::new(ms_clone(s))),
        Miniscript::Verify(s) => Miniscript::Verify(Box::new(ms_clone(s))),
        Miniscript::NonZero(s) => Miniscript::NonZero(Box::new(ms_clone(s))),
        Miniscript::ZeroNotEqual(s) => Miniscript::ZeroNotEqual(Box::new(ms_clone(s))),
        Miniscript::AndV(x, y) => Miniscript::AndV(Box::new(ms_clone(x)), Box::new(ms_clone(y))),
        Miniscript::AndB(x, y) => Miniscript::AndB(Box::new(ms_clone(x)), Box::new(ms_clone(y))),
        Miniscript::OrB(x, y) => Miniscript::OrB(Box::new(ms_clone(x)), Box::new(ms_clone(y))),
        Miniscript::OrD(x, y) => Miniscript::OrD(Box::new(ms_clone(x)), Box::new(ms_clone(y))),
        Miniscript::OrC(x, y) => Miniscript::OrC(Box::new(ms_clone(x)), Box::new(ms_clone(y))),
        Miniscript::OrI(x, y) => Miniscript::OrI(Box::new(ms_clone(x)), Box::new(ms_clone(y))),
        Miniscript::AndOr(x, y, z) => Miniscript::AndOr(
            Box::new(ms_clone(x)),
            Box::new(ms_clone(y)),
            Box::new(ms_clone(z)),
        ),
        Miniscript::Thresh(k, subs) => {
            let cl = ms_clone_list(subs);
            let ghost gcl = cl;
            let r = Miniscript::Thresh(*k, cl);
            proof {
                lemma_view_thresh(&r);
                lemma_view_thresh(a);
                assert(mvs(gcl) =~= mvs(*subs));
            }
            r
        },
    }
}

fn ms_clone_list(subs: &Vec<Miniscript>) -> (out: Vec<Miniscript>)
    ensures
        out.len() == subs.len(),
        forall|j: int| 0 <= j < subs.len() ==> out[j]@ == subs[j]@,
    decreases subs,
{
    let mut out: Vec<Miniscript> = Vec::new();
    let n = subs.len();
    for i in 0..n
        invariant
            n == subs.len(),
            out.len() == i,
            forall|j: int| 0 <= j < i ==> out[j]@ == subs[j]@,
        decreases n - i,
    {
        out.push(ms_clone(&subs[i]));
    }
    out
}

fn clone_strings(keys: &Vec<String>) -> (out: Vec<String>)
    ensures
        out.len() == keys.len(),
        forall|j: int| 0 <= j < keys.len() ==> out[j]@ == keys[j]@,
{
    let mut out: Vec<String> = Vec::new();
    let n = keys.len();
    for i in 0..n
        invariant
            n == keys.len(),
            out.len() == i,
            forall|j: int| 0 <= j < i ==> out[j]@ == keys[j]@,
        decreases n - i,
    {
        out.push(keys[i].clone());
    }
    out
}

fn clone_keyexprs(keys: &Vec<KeyExpr>) -> (out: Vec<KeyExpr>)
    ensures
        out.len() == keys.len(),
        forall|j: int| 0 <= j < keys.len() ==> out[j]@ == keys[j]@,
{
    let mut out: Vec<KeyExpr> = Vec::new();
    let n = keys.len();
    for i in 0..n
        invariant
            n == keys.len(),
            out.len() == i,
            forall|j: int| 0 <= j < i ==> out[j]@ == keys[j]@,
        decreases n - i,
    {
        out.push(keys[i].clone());
    }
    out
}

impl Clone for Miniscript {
    /// Deep copy; the copy has the same model as the original.
    fn clone(&self) -> (r: Self)
        ensures
            r@ == self@,
    {
        ms_clone(self)
    }
}

impl Miniscript {
    /// Enumerate all direct child nodes of this node, as fresh copies, in
    /// order.
    pub fn branches(&self) -> (r: Vec<Miniscript>)
        ensures
            mss(r@) == spec_branches(self@),
    {
        match self {
            Miniscript::Alt(s) | Miniscript::Swap(s) | Miniscript::Check(s)
                | Miniscript::DupIf(s) | Miniscript::Verify(s) | Miniscript::NonZero(s)
                | Miniscript::ZeroNotEqual(s) => {
                let mut out: Vec<Miniscript> = Vec::new();
                out.push(ms_clone(s));
                proof {
                    assert(mss(out@) =~= spec_branches(self@));
                }
                out
            },
            Miniscript::AndV(x, y) | Miniscript::AndB(x, y) | Miniscript::OrB(x, y)
                | Miniscript::OrD(x, y) | Miniscript::OrC(x, y) | Miniscript::OrI(x, y) => {
                let mut out: Vec<Miniscript> = Vec::new();
                out.push(ms_clone(x));
                out.push(ms_clone(y));
                proof {
                    assert(mss(out@) =~= spec_branches(self@));
                }
                out
            },
            Miniscript::AndOr(x, y, z) => {
                let mut out: Vec<Miniscript> = Vec::new();
                out.push(ms_clone(x));
                out.push(ms_clone(y));
                out.push(ms_clone(z));
                proof {
                    assert(mss(out@) =~= spec_branches(self@));
                }
                out
            },
            Miniscript::Thresh(_k, subs) => {
                let out = ms_clone_list(subs);
                proof {
                    lemma_view_thresh(self);
                    assert(mss(out@) =~= mvs(*subs));
                }
                out
            },
            _ => {
                let out: Vec<Miniscript> = Vec::new();
                proof {
                    assert(mss(out@) =~= spec_branches(self@));
                }
                out
            },
        }
    }

    /// The `n`-th direct child node, as a fresh copy, if there is one.
    pub fn get_nth_child(&self, n: usize) -> (r: Option<Miniscript>)
        ensures
            match r {
                Some(c) => n < spec_branches(self@).len() && c@ == spec_branches(self@)[n as int],
                None => n >= spec_branches(self@).len(),
            },
    {
        let mut b = self.branches();
        if n < b.len() {
            let c = b.swap_remove(n);
            Some(c)
        } else {
            None
        }
    }

    /// All public keys carried by this single node (not its descendants):
    /// the leaves of a `pk_k` or `multi_a` key expression, a `pk_h` key,
    /// or a `multi` key list.
    pub fn get_leapk(&self) -> (r: Vec<String>)
        ensures
            svs(r@) == spec_node_pks(self@),
    {
        match self {
            Miniscript::PkK(k) => k.leaves(),
            Miniscript::PkH(k) => {
                let mut out: Vec<String> = Vec::new();
                out.push(k.clone());
                proof {
                    assert(svs(out@) =~= seq![k@]);
                }
                out
            },
            Miniscript::Multi(_k, keys) => {
                let out = clone_strings(keys);
                proof {
                    assert(svs(out@) =~= svs(keys@));
                }
                out
            },
            Miniscript::MultiA(_k, keys) => {
                let out = crate::keyexpr::leaves_of_list(keys, 0);
                proof {
                    assert(kvs(*keys).skip(0) =~= kvs(*keys));
                }
                out
            },
            _ => {
                let out: Vec<String> = Vec::new();
                proof {
                    assert(svs(out@) =~= Seq::<Seq<char>>::empty());
                }
                out
            },
        }
    }

    /// All key hashes carried by this single node: with string keys every
    /// key is its own hash, and a raw hash appears as itself.
    pub fn get_leapkh(&self) -> (r: Vec<String>)
        ensures
            svs(r@) == crate::iter::carried(spec_node_pk_pkhs(self@)),
    {
        match self {
            Miniscript::RawPkH(h) => {
                let mut out: Vec<String> = Vec::new();
                out.push(h.clone());
                proof {
                    assert(svs(out@) =~= crate::iter::carried(spec_node_pk_pkhs(self@)));
                }
                out
            },
            _ => {
                let out = self.get_leapk();
                proof {
                    assert(svs(out@) =~= crate::iter::carried(spec_node_pk_pkhs(self@)));
                }
                out
            },
        }
    }

    /// All keys or hashes carried by this single node, tagged by which of
    /// the two they are.
    pub fn get_leapk_pkh(&self) -> (r: Vec<crate::iter::PkPkh>)
        ensures
            crate::iter::pkvs(r@) == spec_node_pk_pkhs(self@),
    {
        match self {
            Miniscript::RawPkH(h) => {
                let mut out: Vec<crate::iter::PkPkh> = Vec::new();
                out.push(crate::iter::PkPkh::HashedPubkey(h.clone()));
                proof {
                    assert(crate::iter::pkvs(out@) =~= spec_node_pk_pkhs(self@));
                }
                out
            },
            _ => {
                let ks = self.get_leapk();
                let mut out: Vec<crate::iter::PkPkh> = Vec::new();
                let n = ks.len();
                for i in 0..n
                    invariant
                        n == ks.len(),
                        out.len() == i,
                        forall|j: int|
                            0 <= j < i ==> out[j]@ == SpecPkPkhAlias::Plain(ks[j]@),
                    decreases n - i,
                {
                    out.push(crate::iter::PkPkh::PlainPubkey(ks[i].clone()));
                }
                proof {
                    assert(crate::iter::pkvs(out@) =~= spec_node_pk_pkhs(self@));
                }
                out
            },
        }
    }

    /// The `n`-th plain key directly embedded at this node: `pk_h` and
    /// `multi` expose keys this way; `pk_k` and `multi_a` do not, as their
    /// key expressions are walked separately.
    pub fn get_nth_pk(&self, n: usize) -> (r: Option<String>)
        ensures
            match r {
                Some(k) => n < spec_direct_pks(self@).len() && k@ == spec_direct_pks(
                    self@,
                )[n as int],
                None => n >= spec_direct_pks(self@).len(),
            },
    {
        match self {
            Miniscript::PkH(key) => {
                if n == 0 {
                    Some(key.clone())
                } else {
                    None
                }
            },
            Miniscript::Multi(_k, keys) => {
                if n < keys.len() {
                    Some(keys[n].clone())
                } else {
                    None
                }
            },
            _ => None,
        }
    }

    /// The `n`-th key hash directly embedded at this node: the raw hash of
    /// an `expr_raw_pkh`, or a `pk_h`/`multi` key standing for its own
    /// hash.
    pub fn get_nth_pkh(&self, n: usize) -> (r: Option<String>)
        ensures
            match r {
                Some(k) => n < spec_direct_pkhs(self@).len() && k@ == spec_direct_pkhs(
                    self@,
                )[n as int],
                None => n >= spec_direct_pkhs(self@).len(),
            },
    {
        match self {
            Miniscript::RawPkH(hash) => {
                if n == 0 {
                    Some(hash.clone())
                } else {
                    None
                }
            },
            Miniscript::PkH(key) => {
                if n == 0 {
                    Some(key.clone())
                } else {
                    None
                }
            },
            Miniscript::Multi(_k, keys) => {
                if n < keys.len() {
                    Some(keys[n].clone())
                } else {
                    None
                }
            },
            _ => None,
        }
    }

    /// The `n`-th key or hash directly embedded at this node, tagged.
    pub fn get_nth_pk_pkh(&self, n: usize) -> (r: Option<crate::iter::PkPkh>)
        ensures
            match r {
                Some(k) => n < spec_direct_pk_pkhs(self@).len() && k@ == spec_direct_pk_pkhs(
                    self@,
                )[n as int],
                None => n >= spec_direct_pk_pkhs(self@).len(),
            },
    {
        match self {
            Miniscript::RawPkH(hash) => {
                if n == 0 {
                    Some(crate::iter::PkPkh::HashedPubkey(hash.clone()))
                } else {
                    None
                }
            },
            Miniscript::PkH(key) => {
                if n == 0 {
                    Some(crate::iter::PkPkh::PlainPubkey(key.clone()))
                } else {
                    None
                }
            },
            Miniscript::Multi(_k, keys) => {
                if n < keys.len() {
                    Some(crate::iter::PkPkh::PlainPubkey(keys[n].clone()))
                } else {
                    None
                }
            },
            _ => None,
        }
    }
}


/// A threshold node's model carries the models of its list, elementwise.
/// The assembled model list equals the pointwise view of the vector's
/// suffix.
pub proof fn lemma_mvs_build(v: Vec<Miniscript>, i: int)
    requires
        0 <= i <= v.len(),
    ensures
        mvs_build(v, i) == mvs(v).skip(i),
    decreases v.len() - i,
{
    assert(mvs(v).len() == v@.len());
    if i == v.len() {
        assert(mvs_build(v, i).len() == 0);
        assert(mvs_build(v, i) =~= mvs(v).skip(i));
    } else {
        lemma_mvs_build(v, i + 1);
        assert(mvs_build(v, i) == seq![v[i]@] + mvs_build(v, i + 1));
        assert(mvs_build(v, i) =~= mvs(v).skip(i));
    }
}

/// A threshold node's model carries the models of its list, elementwise.
pub proof fn lemma_view_thresh(m: &Miniscript)
    requires
        *m is Thresh,
    ensures
        m@ is Thresh,
        (m@)->Thresh_0 == m->Thresh_0,
        (m@)->Thresh_1 == mvs(m->Thresh_1),
{
    let k = m->Thresh_0;
    let subs = m->Thresh_1;
    assert(*m == Miniscript::Thresh(k, subs));
    assert((m@)->Thresh_1 == mvs_build(subs, 0));
    lemma_mvs_build(subs, 0);
    assert(mvs(subs).skip(0) =~= mvs(subs));
}

pub proof fn lemma_mvs_props(v: Vec<Miniscript>)
    ensures
        mvs(v).len() == v@.len(),
        forall|j: int| 0 <= j < v@.len() ==> mvs(v)[j] == v@[j]@,
{
}


} // verus!
