//! Iterators over Miniscript syntax trees: all nodes in preorder, and the
//! plain keys, key hashes, or tagged keys-or-hashes embedded in them.

use vstd::prelude::*;
use crate::miniscript::{
    Miniscript, SpecMiniscript, mvs, mss, spec_branches, spec_node_pks, spec_node_pk_pkhs,
    lemma_mvs_props, lemma_view_thresh,
};
use crate::policy::svs;

verus! {

broadcast use vstd::std_specs::vec::axiom_vec_index_decreases;

/// Model of a [`PkPkh`] entry: a plain key or a hashed key.
pub enum SpecPkPkh {
    /// A plain public key.
    Plain(Seq<char>),
    /// A hashed public key.
    Hashed(Seq<char>),
}

/// Either a key or a key hash encountered at a Miniscript node.
#[derive(Debug, PartialEq, Eq)]
pub enum PkPkh {
    /// A plain public key.
    PlainPubkey(String),
    /// A hashed public key.
    HashedPubkey(String),
}

impl View for PkPkh {
    type V = SpecPkPkh;

    open spec fn view(&self) -> SpecPkPkh {
        match self {
            PkPkh::PlainPubkey(k) => SpecPkPkh::Plain(k@),
            PkPkh::HashedPubkey(h) => SpecPkPkh::Hashed(h@),
        }
    }
}

impl Clone for PkPkh {
    /// Copy; the copy has the same model as the original.
    fn clone(&self) -> (r: Self)
        ensures
            r@ == self@,
    {
        match self {
            PkPkh::PlainPubkey(k) => PkPkh::PlainPubkey(k.clone()),
            PkPkh::HashedPubkey(h) => PkPkh::HashedPubkey(h.clone()),
        }
    }
}

impl PkPkh {
    /// The carried string, whether it arrived as a key or as a hash; with
    /// string keys a key is its own hash.
    pub fn as_key(self) -> (r: String)
        ensures
            r@ == self@->Plain_0 || r@ == self@->Hashed_0,
            self@ is Plain ==> r@ == self@->Plain_0,
            self@ is Hashed ==> r@ == self@->Hashed_0,
    {
        match self {
            PkPkh::PlainPubkey(pk) => pk,
            PkPkh::HashedPubkey(pkh) => pkh,
        }
    }
}

/// View of a vector of tagged entries as a sequence of their models.
pub open spec fn pkvs(s: Seq<PkPkh>) -> Seq<SpecPkPkh> {
    Seq::new(
        s.len(),
        |i: int| if 0 <= i < s.len() { s[i]@ } else { SpecPkPkh::Plain(Seq::empty()) },
    )
}

/// All nodes of the tree in preorder: the node itself, then the nodes of
/// each branch, left to right.
pub open spec fn spec_preorder(m: SpecMiniscript) -> Seq<SpecMiniscript>
    decreases m, 1int,
{
    seq![m] + match m {
        SpecMiniscript::Alt(s) => spec_preorder(*s),
        SpecMiniscript::Swap(s) => spec_preorder(*s),
        SpecMiniscript::Check(s) => spec_preorder(*s),
        SpecMiniscript::DupIf(s) => spec_preorder(*s),
        SpecMiniscript::Verify(s) => spec_preorder(*s),
        SpecMiniscript::NonZero(s) => spec_preorder(*s),
        SpecMiniscript::ZeroNotEqual(s) => spec_preorder(*s),
        SpecMiniscript::AndV(a, b) => spec_preorder(*a) + spec_preorder(*b),
        SpecMiniscript::AndB(a, b) => spec_preorder(*a) + spec_preorder(*b),
        SpecMiniscript::OrB(a, b) => spec_preorder(*a) + spec_preorder(*b),
        SpecMiniscript::OrD(a, b) => spec_preorder(*a) + spec_preorder(*b),
        SpecMiniscript::OrC(a, b) => spec_preorder(*a) + spec_preorder(*b),
        SpecMiniscript::OrI(a, b) => spec_preorder(*a) + spec_preorder(*b),
        SpecMiniscript::AndOr(a, b, c) => spec_preorder(*a) + spec_preorder(*b)
            + spec_preorder(*c),
        SpecMiniscript::Thresh(_k, subs) => spec_preorder_list(subs),
        _ => Seq::empty(),
    }
}

/// Concatenation of the preorders of the listed trees.
pub open spec fn spec_preorder_list(s: Seq<SpecMiniscript>) -> Seq<SpecMiniscript>
    decreases s, 0int,
{
    if s.len() == 0 {
        Seq::empty()
    } else {
        spec_preorder(s[0]) + spec_preorder_list(s.drop_first())
    }
}

/// The tagged keys and hashes of the whole tree: each node's own entries
/// (the node's keys, or its raw hash) in preorder.
pub open spec fn spec_pk_pkhs(m: SpecMiniscript) -> Seq<SpecPkPkh>
    decreases m, 1int,
{
    spec_node_pk_pkhs(m) + match m {
        SpecMiniscript::Alt(s) => spec_pk_pkhs(*s),
        SpecMiniscript::Swap(s) => spec_pk_pkhs(*s),
        SpecMiniscript::Check(s) => spec_pk_pkhs(*s),
        SpecMiniscript::DupIf(s) => spec_pk_pkhs(*s),
        SpecMiniscript::Verify(s) => spec_pk_pkhs(*s),
        SpecMiniscript::NonZero(s) => spec_pk_pkhs(*s),
        SpecMiniscript::ZeroNotEqual(s) => spec_pk_pkhs(*s),
        SpecMiniscript::AndV(a, b) => spec_pk_pkhs(*a) + spec_pk_pkhs(*b),
        SpecMiniscript::AndB(a, b) => spec_pk_pkhs(*a) + spec_pk_pkhs(*b),
        SpecMiniscript::OrB(a, b) => spec_pk_pkhs(*a) + spec_pk_pkhs(*b),
        SpecMiniscript::OrD(a, b) => spec_pk_pkhs(*a) + spec_pk_pkhs(*b),
        SpecMiniscript::OrC(a, b) => spec_pk_pkhs(*a) + spec_pk_pkhs(*b),
        SpecMiniscript::OrI(a, b) => spec_pk_pkhs(*a) + spec_pk_pkhs(*b),
        SpecMiniscript::AndOr(a, b, c) => spec_pk_pkhs(*a) + spec_pk_pkhs(*b) + spec_pk_pkhs(*c),
        SpecMiniscript::Thresh(_k, subs) => spec_pk_pkhs_list(subs),
        _ => Seq::empty(),
    }
}

/// Concatenation of the tagged keys of the listed trees.
pub open spec fn spec_pk_pkhs_list(s: Seq<SpecMiniscript>) -> Seq<SpecPkPkh>
    decreases s, 0int,
{
    if s.len() == 0 {
        Seq::empty()
    } else {
        spec_pk_pkhs(s[0]) + spec_pk_pkhs_list(s.drop_first())
    }
}

/// The plain keys among the listed tagged entries, in order.
pub open spec fn plains(s: Seq<SpecPkPkh>) -> Seq<Seq<char>>
    decreases s,
{
    if s.len() == 0 {
        Seq::empty()
    } else {
        (match s[0] {
            SpecPkPkh::Plain(k) => seq![k],
            SpecPkPkh::Hashed(_) => Seq::empty(),
        }) + plains(s.drop_first())
    }
}

/// The strings carried by the listed tagged entries, in order, whether
/// keys or hashes.
pub open spec fn carried(s: Seq<SpecPkPkh>) -> Seq<Seq<char>> {
    Seq::new(
        s.len(),
        |i: int|
            if 0 <= i < s.len() {
                match s[i] {
                    SpecPkPkh::Plain(k) => k,
                    SpecPkPkh::Hashed(h) => h,
                }
            } else {
                Seq::empty()
            },
    )
}

/// The plain keys of the whole tree in iteration order: keys of `pk_k`,
/// `pk_h`, `multi` and `multi_a` nodes in preorder, raw hashes skipped.
pub open spec fn spec_pks(m: SpecMiniscript) -> Seq<Seq<char>> {
    plains(spec_pk_pkhs(m))
}

/// The key hashes of the whole tree in iteration order: with string keys,
/// every key stands for its own hash, and raw hashes appear as themselves.
pub open spec fn spec_pkhs(m: SpecMiniscript) -> Seq<Seq<char>> {
    carried(spec_pk_pkhs(m))
}


pub broadcast proof fn lemma_pkvs_concat(a: Seq<PkPkh>, b: Seq<PkPkh>)
    ensures
        #[trigger] pkvs(a + b) == pkvs(a) + pkvs(b),
{
    assert(pkvs(a + b) =~= pkvs(a) + pkvs(b));
}

pub broadcast proof fn lemma_mss_concat(a: Seq<Miniscript>, b: Seq<Miniscript>)
    ensures
        #[trigger] mss(a + b) == mss(a) + mss(b),
{
    assert(mss(a + b) =~= mss(a) + mss(b));
}

/// Splitting a list of tagged entries splits its plain keys.
pub proof fn lemma_plains_concat(a: Seq<SpecPkPkh>, b: Seq<SpecPkPkh>)
    ensures
        plains(a + b) == plains(a) + plains(b),
    decreases a,
{
    if a.len() == 0 {
        assert(a + b =~= b);
        assert(plains(a) + plains(b) =~= plains(b));
    } else {
        lemma_plains_concat(a.drop_first(), b);
        assert((a + b).drop_first() =~= a.drop_first() + b);
        assert(plains(a) + plains(b) =~= (match a[0] {
            SpecPkPkh::Plain(k) => seq![k],
            SpecPkPkh::Hashed(_) => Seq::empty(),
        }) + (plains(a.drop_first()) + plains(b)));
    }
}

fn collect_pk_pkhs(m: &Miniscript) -> (r: Vec<PkPkh>)
    ensures
        pkvs(r@) == spec_pk_pkhs(m@),
    decreases m,
{
    let mut out = m.get_leapk_pkh();
    let ghost base = out@;
    match m {
        Miniscript::Alt(s) | Miniscript::Swap(s) | Miniscript::Check(s) | Miniscript::DupIf(s)
            | Miniscript::Verify(s) | Miniscript::NonZero(s) | Miniscript::ZeroNotEqual(s) => {
            let mut rest = collect_pk_pkhs(s);
            let ghost ra = rest@;
            out.append(&mut rest);
            proof {
                lemma_pkvs_concat(base, ra);
            }
        },
        Miniscript::AndV(x, y) | Miniscript::AndB(x, y) | Miniscript::OrB(x, y)
            | Miniscript::OrD(x, y) | Miniscript::OrC(x, y) | Miniscript::OrI(x, y) => {
            let mut rx = collect_pk_pkhs(x);
            let ghost gx = rx@;
            out.append(&mut rx);
            proof {
                lemma_pkvs_concat(base, gx);
            }
            let ghost mid = out@;
            let mut ry = collect_pk_pkhs(y);
            let ghost gy = ry@;
            out.append(&mut ry);
            proof {
                lemma_pkvs_concat(mid, gy);
            }
        },
        Miniscript::AndOr(x, y, z) => {
            let mut rx = collect_pk_pkhs(x);
            let ghost gx = rx@;
            out.append(&mut rx);
            proof {
                lemma_pkvs_concat(base, gx);
            }
            let ghost mid = out@;
            let mut ry = collect_pk_pkhs(y);
            let ghost gy = ry@;
            out.append(&mut ry);
            proof {
                lemma_pkvs_concat(mid, gy);
            }
            let ghost mid2 = out@;
            let mut rz = collect_pk_pkhs(z);
            let ghost gz = rz@;
            out.append(&mut rz);
            proof {
                lemma_pkvs_concat(mid2, gz);
            }
        },
        Miniscript::Thresh(_k, subs) => {
            let mut rest = collect_pk_pkhs_list(subs, 0);
            let ghost ra = rest@;
            out.append(&mut rest);
            proof {
                lemma_pkvs_concat(base, ra);
                assert(mvs(*subs).skip(0) =~= mvs(*subs));
                lemma_view_thresh(m);
            }
        },
        _ => {
            proof {
                assert(pkvs(out@) + Seq::<SpecPkPkh>::empty() =~= pkvs(out@));
            }
        },
    }
    out
}

fn collect_pk_pkhs_list(subs: &Vec<Miniscript>, i: usize) -> (r: Vec<PkPkh>)
    requires
        i <= subs.len(),
    ensures
        pkvs(r@) == spec_pk_pkhs_list(mvs(*subs).skip(i as int)),
    decreases subs, subs@.len() - i,
{
    if i == subs.len() {
        let v: Vec<PkPkh> = Vec::new();
        proof {
            lemma_mvs_props(*subs);
            assert(mvs(*subs).skip(i as int).len() == 0);
            assert(pkvs(v@) =~= spec_pk_pkhs_list(mvs(*subs).skip(i as int)));
        }
        v
    } else {
        let mut r = collect_pk_pkhs(&subs[i]);
        let mut rest = collect_pk_pkhs_list(subs, i + 1);
        proof {
            lemma_mvs_props(*subs);
            let s = mvs(*subs);
            assert(s.skip(i as int)[0] == s[i as int]);
            assert(s.skip(i as int).drop_first() =~= s.skip(i as int + 1));
        }
        let ghost ra = r@;
        let ghost rb = rest@;
        r.append(&mut rest);
        proof {
            lemma_pkvs_concat(ra, rb);
        }
        r
    }
}

fn collect_nodes(m: &Miniscript) -> (r: Vec<Miniscript>)
    ensures
        mss(r@) == spec_preorder(m@),
    decreases m,
{
    let mut out: Vec<Miniscript> = Vec::new();
    out.push(m.clone());
    let ghost base = out@;
    proof {
        assert(mss(base) =~= seq![m@]);
    }
    match m {
        Miniscript::Alt(s) | Miniscript::Swap(s) | Miniscript::Check(s) | Miniscript::DupIf(s)
            | Miniscript::Verify(s) | Miniscript::NonZero(s) | Miniscript::ZeroNotEqual(s) => {
            let mut rest = collect_nodes(s);
            let ghost ra = rest@;
            out.append(&mut rest);
            proof {
                lemma_mss_concat(base, ra);
            }
        },
        Miniscript::AndV(x, y) | Miniscript::AndB(x, y) | Miniscript::OrB(x, y)
            | Miniscript::OrD(x, y) | Miniscript::OrC(x, y) | Miniscript::OrI(x, y) => {
            let mut rx = collect_nodes(x);
            let ghost gx = rx@;
            out.append(&mut rx);
            proof {
                lemma_mss_concat(base, gx);
            }
            let ghost mid = out@;
            let mut ry = collect_nodes(y);
            let ghost gy = ry@;
            out.append(&mut ry);
            proof {
                lemma_mss_concat(mid, gy);
            }
        },
        Miniscript::AndOr(x, y, z) => {
            let mut rx = collect_nodes(x);
            let ghost gx = rx@;
            out.append(&mut rx);
            proof {
                lemma_mss_concat(base, gx);
            }
            let ghost mid = out@;
            let mut ry = collect_nodes(y);
            let ghost gy = ry@;
            out.append(&mut ry);
            proof {
                lemma_mss_concat(mid, gy);
            }
            let ghost mid2 = out@;
            let mut rz = collect_nodes(z);
            let ghost gz = rz@;
            out.append(&mut rz);
            proof {
                lemma_mss_concat(mid2, gz);
            }
        },
        Miniscript::Thresh(_k, subs) => {
            let mut rest = collect_nodes_list(subs, 0);
            let ghost ra = rest@;
            out.append(&mut rest);
            proof {
                lemma_mss_concat(base, ra);
                assert(mvs(*subs).skip(0) =~= mvs(*subs));
                lemma_view_thresh(m);
            }
        },
        _ => {
            proof {
                assert(mss(out@) + Seq::<SpecMiniscript>::empty() =~= mss(out@));
            }
        },
    }
    out
}

fn collect_nodes_list(subs: &Vec<Miniscript>, i: usize) -> (r: Vec<Miniscript>)
    requires
        i <= subs.len(),
    ensures
        mss(r@) == spec_preorder_list(mvs(*subs).skip(i as int)),
    decreases subs, subs@.len() - i,
{
    if i == subs.len() {
        let v: Vec<Miniscript> = Vec::new();
        proof {
            lemma_mvs_props(*subs);
            assert(mvs(*subs).skip(i as int).len() == 0);
            assert(mss(v@) =~= spec_preorder_list(mvs(*subs).skip(i as int)));
        }
        v
    } else {
        let mut r = collect_nodes(&subs[i]);
        let mut rest = collect_nodes_list(subs, i + 1);
        proof {
            lemma_mvs_props(*subs);
            let s = mvs(*subs);
            assert(s.skip(i as int)[0] == s[i as int]);
            assert(s.skip(i as int).drop_first() =~= s.skip(i as int + 1));
        }
        let ghost ra = r@;
        let ghost rb = rest@;
        r.append(&mut rest);
        proof {
            lemma_mss_concat(ra, rb);
        }
        r
    }
}

fn plains_from(items: &Vec<PkPkh>, i: usize) -> (r: Vec<String>)
    requires
        i <= items.len(),
    ensures
        svs(r@) == plains(pkvs(items@).skip(i as int)),
    decreases items@.len() - i,
{
    if i == items.len() {
        let v: Vec<String> = Vec::new();
        proof {
            assert(pkvs(items@).len() == items@.len());
            assert(pkvs(items@).skip(i as int).len() == 0);
            assert(svs(v@) =~= plains(pkvs(items@).skip(i as int)));
        }
        v
    } else {
        let mut rest = plains_from(items, i + 1);
        proof {
            let s = pkvs(items@);
            assert(s.skip(i as int)[0] == s[i as int]);
            assert(s.skip(i as int).drop_first() =~= s.skip(i as int + 1));
        }
        match &items[i] {
            PkPkh::PlainPubkey(k) => {
                rest.insert(0, k.clone());
                proof {
                    assert(svs(rest@) =~= seq![k@] + plains(pkvs(items@).skip(i as int + 1)));
                }
                rest
            },
            PkPkh::HashedPubkey(_) => {
                proof {
                    assert(svs(rest@) =~= plains(pkvs(items@).skip(i as int)));
                }
                rest
            },
        }
    }
}

fn carried_all(items: &Vec<PkPkh>) -> (r: Vec<String>)
    ensures
        svs(r@) == carried(pkvs(items@)),
{
    let mut out: Vec<String> = Vec::new();
    let n = items.len();
    for i in 0..n
        invariant
            n == items.len(),
            out.len() == i,
            forall|j: int| 0 <= j < i ==> out[j]@ == carried(pkvs(items@))[j],
        decreases n - i,
    {
        match &items[i] {
            PkPkh::PlainPubkey(k) => {
                out.push(k.clone());
            },
            PkPkh::HashedPubkey(h) => {
                out.push(h.clone());
            },
        }
    }
    proof {
        assert(svs(out@) =~= carried(pkvs(items@)));
    }
    out
}

/// Iterator over all nodes of a Miniscript tree in preorder; yields fresh
/// copies of the sub-trees.
pub struct Iter {
    items: Vec<Miniscript>,
    pos: usize,
}

impl Iter {
    /// The models of the nodes not yet yielded, in order.
    pub closed spec fn remaining(&self) -> Seq<SpecMiniscript> {
        if self.pos <= self.items.len() {
            mss(self.items@).skip(self.pos as int)
        } else {
            Seq::empty()
        }
    }

    /// An iterator positioned at the root.
    pub fn new(ms: &Miniscript) -> (r: Iter)
        ensures
            r.remaining() == spec_preorder(ms@),
    {
        let items = collect_nodes(ms);
        proof {
            assert(mss(items@).skip(0) =~= mss(items@));
        }
        Iter { items, pos: 0 }
    }

    /// The next node in preorder, if any.
    pub fn next(&mut self) -> (r: Option<Miniscript>)
        ensures
            old(self).remaining().len() == 0 ==> r is None && final(self).remaining()
                == old(self).remaining(),
            old(self).remaining().len() > 0 ==> (r matches Some(m) && m@ == old(
                self,
            ).remaining()[0] && final(self).remaining() == old(self).remaining().drop_first()),
    {
        if self.pos < self.items.len() {
            let m = self.items[self.pos].clone();
            self.pos = self.pos + 1;
            proof {
                assert(final(self).remaining() =~= old(self).remaining().drop_first());
            }
            Some(m)
        } else {
            None
        }
    }
}

/// Iterator over the plain public keys of a Miniscript tree, in preorder,
/// with the keys inside `pk`/`multi_a` key expressions enumerated
/// depth-first.
pub struct PkIter {
    items: Vec<String>,
    pos: usize,
}

impl PkIter {
    /// The keys not yet yielded, in order.
    pub closed spec fn remaining(&self) -> Seq<Seq<char>> {
        if self.pos <= self.items.len() {
            svs(self.items@).skip(self.pos as int)
        } else {
            Seq::empty()
        }
    }

    /// An iterator positioned at the first key.
    pub fn new(ms: &Miniscript) -> (r: PkIter)
        ensures
            r.remaining() == spec_pks(ms@),
    {
        let tagged = collect_pk_pkhs(ms);
        let items = plains_from(&tagged, 0);
        proof {
            assert(pkvs(tagged@).skip(0) =~= pkvs(tagged@));
            assert(svs(items@).skip(0) =~= svs(items@));
        }
        PkIter { items, pos: 0 }
    }

    /// The next key, if any.
    pub fn next(&mut self) -> (r: Option<String>)
        ensures
            old(self).remaining().len() == 0 ==> r is None && final(self).remaining()
                == old(self).remaining(),
            old(self).remaining().len() > 0 ==> (r matches Some(k) && k@ == old(
                self,
            ).remaining()[0] && final(self).remaining() == old(self).remaining().drop_first()),
    {
        if self.pos < self.items.len() {
            let k = self.items[self.pos].clone();
            self.pos = self.pos + 1;
            proof {
                assert(final(self).remaining() =~= old(self).remaining().drop_first());
            }
            Some(k)
        } else {
            None
        }
    }
}

/// Iterator over the key hashes of a Miniscript tree: every key stands for
/// its own hash, raw hashes appear as themselves.
pub struct PkhIter {
    items: Vec<String>,
    pos: usize,
}

impl PkhIter {
    /// The hashes not yet yielded, in order.
    pub closed spec fn remaining(&self) -> Seq<Seq<char>> {
        if self.pos <= self.items.len() {
            svs(self.items@).skip(self.pos as int)
        } else {
            Seq::empty()
        }
    }

    /// An iterator positioned at the first hash.
    pub fn new(ms: &Miniscript) -> (r: PkhIter)
        ensures
            r.remaining() == spec_pkhs(ms@),
    {
        let tagged = collect_pk_pkhs(ms);
        let items = carried_all(&tagged);
        proof {
            assert(svs(items@).skip(0) =~= svs(items@));
        }
        PkhIter { items, pos: 0 }
    }

    /// The next hash, if any.
    pub fn next(&mut self) -> (r: Option<String>)
        ensures
            old(self).remaining().len() == 0 ==> r is None && final(self).remaining()
                == old(self).remaining(),
            old(self).remaining().len() > 0 ==> (r matches Some(k) && k@ == old(
                self,
            ).remaining()[0] && final(self).remaining() == old(self).remaining().drop_first()),
    {
        if self.pos < self.items.len() {
            let k = self.items[self.pos].clone();
            self.pos = self.pos + 1;
            proof {
                assert(final(self).remaining() =~= old(self).remaining().drop_first());
            }
            Some(k)
        } else {
            None
        }
    }
}

/// Iterator over the keys and raw key hashes of a Miniscript tree, tagged
/// by which of the two each entry is.
pub struct PkPkhIter {
    items: Vec<PkPkh>,
    pos: usize,
}

impl PkPkhIter {
    /// The entries not yet yielded, in order.
    pub closed spec fn remaining(&self) -> Seq<SpecPkPkh> {
        if self.pos <= self.items.len() {
            pkvs(self.items@).skip(self.pos as int)
        } else {
            Seq::empty()
        }
    }

    /// An iterator positioned at the first entry.
    pub fn new(ms: &Miniscript) -> (r: PkPkhIter)
        ensures
            r.remaining() == spec_pk_pkhs(ms@),
    {
        let items = collect_pk_pkhs(ms);
        proof {
            assert(pkvs(items@).skip(0) =~= pkvs(items@));
        }
        PkPkhIter { items, pos: 0 }
    }

    /// The next entry, if any.
    pub fn next(&mut self) -> (r: Option<PkPkh>)
        ensures
            old(self).remaining().len() == 0 ==> r is None && final(self).remaining()
                == old(self).remaining(),
            old(self).remaining().len() > 0 ==> (r matches Some(k) && k@ == old(
                self,
            ).remaining()[0] && final(self).remaining() == old(self).remaining().drop_first()),
    {
        if self.pos < self.items.len() {
            let k = self.items[self.pos].clone();
            self.pos = self.pos + 1;
            proof {
                assert(final(self).remaining() =~= old(self).remaining().drop_first());
            }
            Some(k)
        } else {
            None
        }
    }

    /// All remaining plain public keys, or `None` as soon as any hashed
    /// key stands among the remaining entries, since then the full list of
    /// source keys cannot be recovered.
    pub fn pk_only(self) -> (r: Option<Vec<String>>)
        ensures
            r is None <==> exists|i: int|
                0 <= i < self.remaining().len() && #[trigger] self.remaining()[i] is Hashed,
            r matches Some(ks) ==> svs(ks@) == plains(self.remaining()),
    {
        if self.pos > self.items.len() {
            let v: Vec<String> = Vec::new();
            proof {
                assert(svs(v@) =~= plains(self.remaining()));
            }
            return Some(v);
        }
        let r = pk_only_from(&self.items, self.pos);
        proof {
            let p = self.pos as int;
            let all = pkvs(self.items@);
            let rem = self.remaining();
            assert(rem =~= all.skip(p));
            if exists|j: int| p <= j < all.len() && #[trigger] all[j] is Hashed {
                let j = choose|j: int| p <= j < all.len() && #[trigger] all[j] is Hashed;
                assert(rem[j - p] is Hashed);
            }
            if exists|i: int| 0 <= i < rem.len() && #[trigger] rem[i] is Hashed {
                let i = choose|i: int| 0 <= i < rem.len() && #[trigger] rem[i] is Hashed;
                assert(all[p + i] is Hashed);
            }
        }
        r
    }
}

fn pk_only_from(items: &Vec<PkPkh>, i: usize) -> (r: Option<Vec<String>>)
    requires
        i <= items.len(),
    ensures
        r is None <==> exists|j: int|
            i <= j < items@.len() && #[trigger] pkvs(items@)[j] is Hashed,
        r matches Some(ks) ==> svs(ks@) == plains(pkvs(items@).skip(i as int)),
    decreases items@.len() - i,
{
    if i == items.len() {
        let v: Vec<String> = Vec::new();
        proof {
            assert(pkvs(items@).len() == items@.len());
            assert(pkvs(items@).skip(i as int).len() == 0);
            assert(svs(v@) =~= plains(pkvs(items@).skip(i as int)));
        }
        Some(v)
    } else {
        match &items[i] {
            PkPkh::HashedPubkey(_) => {
                proof {
                    assert(pkvs(items@)[i as int] is Hashed);
                }
                None
            },
            PkPkh::PlainPubkey(k) => {
                match pk_only_from(items, i + 1) {
                    None => None,
                    Some(mut rest) => {
                        proof {
                            let s = pkvs(items@);
                            assert(s.skip(i as int)[0] == s[i as int]);
                            assert(s.skip(i as int).drop_first() =~= s.skip(i as int + 1));
                        }
                        rest.insert(0, k.clone());
                        proof {
                            assert(svs(rest@) =~= seq![k@] + plains(
                                pkvs(items@).skip(i as int + 1),
                            ));
                        }
                        Some(rest)
                    },
                }
            },
        }
    }
}

impl Miniscript {
    /// Iterate over all sub-trees, in preorder.
    pub fn iter(&self) -> (r: Iter)
        ensures
            r.remaining() == spec_preorder(self@),
    {
        Iter::new(self)
    }

    /// Iterate over all plain public keys, in iteration order.
    pub fn iter_pk(&self) -> (r: PkIter)
        ensures
            r.remaining() == spec_pks(self@),
    {
        PkIter::new(self)
    }

    /// Iterate over all key hashes, in iteration order.
    pub fn iter_pkh(&self) -> (r: PkhIter)
        ensures
            r.remaining() == spec_pkhs(self@),
    {
        PkhIter::new(self)
    }

    /// Iterate over all keys and raw key hashes, tagged.
    pub fn iter_pk_pkh(&self) -> (r: PkPkhIter)
        ensures
            r.remaining() == spec_pk_pkhs(self@),
    {
        PkPkhIter::new(self)
    }
}




/// The hashed entries among the listed tagged entries, in order.
pub open spec fn hasheds(s: Seq<SpecPkPkh>) -> Seq<Seq<char>>
    decreases s,
{
    if s.len() == 0 {
        Seq::empty()
    } else {
        (match s[0] {
            SpecPkPkh::Plain(_) => Seq::empty(),
            SpecPkPkh::Hashed(h) => seq![h],
        }) + hasheds(s.drop_first())
    }
}

/// Splitting a list of tagged entries splits its hashed entries.
pub proof fn lemma_hasheds_concat(a: Seq<SpecPkPkh>, b: Seq<SpecPkPkh>)
    ensures
        hasheds(a + b) == hasheds(a) + hasheds(b),
    decreases a,
{
    if a.len() == 0 {
        assert(a + b =~= b);
        assert(hasheds(a) + hasheds(b) =~= hasheds(b));
    } else {
        lemma_hasheds_concat(a.drop_first(), b);
        assert((a + b).drop_first() =~= a.drop_first() + b);
        assert(hasheds(a) + hasheds(b) =~= (match a[0] {
            SpecPkPkh::Plain(_) => Seq::<Seq<char>>::empty(),
            SpecPkPkh::Hashed(h) => seq![h],
        }) + (hasheds(a.drop_first()) + hasheds(b)));
    }
}

/// A list without hashed entries has no hashed part.
pub proof fn lemma_hasheds_all_plain(s: Seq<SpecPkPkh>)
    requires
        forall|i: int| 0 <= i < s.len() ==> !((#[trigger] s[i]) is Hashed),
    ensures
        hasheds(s) == Seq::<Seq<char>>::empty(),
    decreases s,
{
    if s.len() > 0 {
        assert(forall|i: int|
            0 <= i < s.drop_first().len() ==> !((#[trigger] s.drop_first()[i]) is Hashed));
        lemma_hasheds_all_plain(s.drop_first());
        assert(hasheds(s) =~= Seq::<Seq<char>>::empty());
    }
}

proof fn lemma_hasheds_len_nonneg(s: Seq<SpecPkPkh>)
    ensures
        hasheds(s).len() >= 0,
{
}

/// An empty hashed part means no entry is hashed.
pub proof fn lemma_hasheds_empty_plain(s: Seq<SpecPkPkh>)
    requires
        hasheds(s).len() == 0,
    ensures
        forall|i: int| 0 <= i < s.len() ==> !((#[trigger] s[i]) is Hashed),
    decreases s,
{
    if s.len() > 0 {
        if s[0] is Hashed {
            assert(hasheds(s).len() == 1 + hasheds(s.drop_first()).len());
            lemma_hasheds_len_nonneg(s.drop_first());
            assert(false);
        }
        assert(hasheds(s).len() == hasheds(s.drop_first()).len());
        lemma_hasheds_empty_plain(s.drop_first());
        assert forall|i: int| 1 <= i < s.len() implies !((#[trigger] s[i]) is Hashed) by {
            assert(s[i] == s.drop_first()[i - 1]);
            assert(!(s.drop_first()[i - 1] is Hashed));
        }
    }
}

/// Without hashed entries, the plain keys and the carried strings are the
/// same list: the key and tagged iterators then agree.
pub proof fn lemma_plains_carried_all_plain(s: Seq<SpecPkPkh>)
    requires
        forall|i: int| 0 <= i < s.len() ==> !((#[trigger] s[i]) is Hashed),
    ensures
        plains(s) == carried(s),
    decreases s,
{
    if s.len() == 0 {
        assert(plains(s) =~= carried(s));
    } else {
        assert(forall|i: int|
            0 <= i < s.drop_first().len() ==> !((#[trigger] s.drop_first()[i]) is Hashed));
        lemma_plains_carried_all_plain(s.drop_first());
        assert(carried(s).drop_first() =~= carried(s.drop_first()));
        assert(plains(s) =~= carried(s));
    }
}

/// The raw key hashes of the tree in preorder.
pub open spec fn spec_raw_hashes(m: SpecMiniscript) -> Seq<Seq<char>>
    decreases m, 1int,
{
    (match m {
        SpecMiniscript::RawPkH(h) => seq![h],
        _ => Seq::empty(),
    }) + match m {
        SpecMiniscript::Alt(s) => spec_raw_hashes(*s),
        SpecMiniscript::Swap(s) => spec_raw_hashes(*s),
        SpecMiniscript::Check(s) => spec_raw_hashes(*s),
        SpecMiniscript::DupIf(s) => spec_raw_hashes(*s),
        SpecMiniscript::Verify(s) => spec_raw_hashes(*s),
        SpecMiniscript::NonZero(s) => spec_raw_hashes(*s),
        SpecMiniscript::ZeroNotEqual(s) => spec_raw_hashes(*s),
        SpecMiniscript::AndV(a, b) => spec_raw_hashes(*a) + spec_raw_hashes(*b),
        SpecMiniscript::AndB(a, b) => spec_raw_hashes(*a) + spec_raw_hashes(*b),
        SpecMiniscript::OrB(a, b) => spec_raw_hashes(*a) + spec_raw_hashes(*b),
        SpecMiniscript::OrD(a, b) => spec_raw_hashes(*a) + spec_raw_hashes(*b),
        SpecMiniscript::OrC(a, b) => spec_raw_hashes(*a) + spec_raw_hashes(*b),
        SpecMiniscript::OrI(a, b) => spec_raw_hashes(*a) + spec_raw_hashes(*b),
        SpecMiniscript::AndOr(a, b, c) => spec_raw_hashes(*a) + spec_raw_hashes(*b)
            + spec_raw_hashes(*c),
        SpecMiniscript::Thresh(_k, subs) => spec_raw_hashes_list(subs),
        _ => Seq::empty(),
    }
}

/// Concatenation of the raw hashes of the listed trees.
pub open spec fn spec_raw_hashes_list(s: Seq<SpecMiniscript>) -> Seq<Seq<char>>
    decreases s, 0int,
{
    if s.len() == 0 {
        Seq::empty()
    } else {
        spec_raw_hashes(s[0]) + spec_raw_hashes_list(s.drop_first())
    }
}

/// The hashed entries yielded by the tagged iterator are exactly the raw
/// key hashes of the tree, in preorder: the tagged stream is the key
/// stream interleaved with the raw hashes at their nodes.
pub proof fn lemma_hasheds_are_raw(m: SpecMiniscript)
    ensures
        hasheds(spec_pk_pkhs(m)) == spec_raw_hashes(m),
    decreases m, 1int,
{
    let node = spec_node_pk_pkhs(m);
    let node_raw: Seq<Seq<char>> = match m {
        SpecMiniscript::RawPkH(h) => seq![h],
        _ => Seq::empty(),
    };
    assert(hasheds(node) == node_raw) by {
        match m {
            SpecMiniscript::RawPkH(h) => {
                assert(node =~= seq![SpecPkPkh::Hashed(h)]);
                assert(node.drop_first() =~= Seq::<SpecPkPkh>::empty());
                assert(hasheds(node.drop_first()) =~= Seq::<Seq<char>>::empty());
                assert(hasheds(node) =~= seq![h]);
            },
            _ => {
                assert(forall|i: int|
                    0 <= i < node.len() ==> !((#[trigger] node[i]) is Hashed));
                lemma_hasheds_all_plain(node);
            },
        }
    }
    match m {
        SpecMiniscript::Alt(s) | SpecMiniscript::Swap(s) | SpecMiniscript::Check(s)
            | SpecMiniscript::DupIf(s) | SpecMiniscript::Verify(s) | SpecMiniscript::NonZero(s)
            | SpecMiniscript::ZeroNotEqual(s) => {
            lemma_hasheds_are_raw(*s);
            lemma_hasheds_concat(node, spec_pk_pkhs(*s));
        },
        SpecMiniscript::AndV(a, b) | SpecMiniscript::AndB(a, b) | SpecMiniscript::OrB(a, b)
            | SpecMiniscript::OrD(a, b) | SpecMiniscript::OrC(a, b) | SpecMiniscript::OrI(
            a,
            b,
        ) => {
            lemma_hasheds_are_raw(*a);
            lemma_hasheds_are_raw(*b);
            lemma_hasheds_concat(spec_pk_pkhs(*a), spec_pk_pkhs(*b));
            lemma_hasheds_concat(node, spec_pk_pkhs(*a) + spec_pk_pkhs(*b));
            assert(spec_raw_hashes(m) =~= node_raw + (spec_raw_hashes(*a) + spec_raw_hashes(
                *b,
            )));
        },
        SpecMiniscript::AndOr(a, b, c) => {
            lemma_hasheds_are_raw(*a);
            lemma_hasheds_are_raw(*b);
            lemma_hasheds_are_raw(*c);
            lemma_hasheds_concat(spec_pk_pkhs(*b), spec_pk_pkhs(*c));
            lemma_hasheds_concat(spec_pk_pkhs(*a), spec_pk_pkhs(*b) + spec_pk_pkhs(*c));
            lemma_hasheds_concat(
                node,
                spec_pk_pkhs(*a) + (spec_pk_pkhs(*b) + spec_pk_pkhs(*c)),
            );
            assert(spec_pk_pkhs(*a) + spec_pk_pkhs(*b) + spec_pk_pkhs(*c) =~= spec_pk_pkhs(*a) + (
            spec_pk_pkhs(*b) + spec_pk_pkhs(*c)));
            assert(spec_raw_hashes(m) =~= node_raw + (spec_raw_hashes(*a) + spec_raw_hashes(*b)
                + spec_raw_hashes(*c)));
            assert(spec_raw_hashes(*a) + spec_raw_hashes(*b) + spec_raw_hashes(*c)
                =~= spec_raw_hashes(*a) + (spec_raw_hashes(*b) + spec_raw_hashes(*c)));
        },
        SpecMiniscript::Thresh(_k, subs) => {
            lemma_hasheds_are_raw_list(subs);
            lemma_hasheds_concat(node, spec_pk_pkhs_list(subs));
        },
        _ => {
            assert(spec_pk_pkhs(m) =~= node);
            assert(spec_raw_hashes(m) =~= node_raw);
        },
    }
}

proof fn lemma_hasheds_are_raw_list(s: Seq<SpecMiniscript>)
    ensures
        hasheds(spec_pk_pkhs_list(s)) == spec_raw_hashes_list(s),
    decreases s, 0int,
{
    if s.len() > 0 {
        lemma_hasheds_are_raw(s[0]);
        lemma_hasheds_are_raw_list(s.drop_first());
        lemma_hasheds_concat(spec_pk_pkhs(s[0]), spec_pk_pkhs_list(s.drop_first()));
    }
}

/// A tree without raw key hashes yields only plain keys: the tagged
/// stream carries exactly the key stream, so collecting the keys and
/// collecting the tagged entries agree on the ordered key list.
pub proof fn lemma_no_raw_pkh_agreement(m: SpecMiniscript)
    requires
        spec_raw_hashes(m).len() == 0,
    ensures
        forall|i: int| 0 <= i < spec_pk_pkhs(m).len() ==> !((#[trigger] spec_pk_pkhs(m)[i]) is Hashed),
        spec_pks(m) == spec_pkhs(m),
{
    lemma_hasheds_are_raw(m);
    lemma_hasheds_empty_plain(spec_pk_pkhs(m));
    lemma_plains_carried_all_plain(spec_pk_pkhs(m));
}

} // verus!
