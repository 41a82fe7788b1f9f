//! Conversion of a policy's keys and hashes through a user-supplied
//! translator: one callback per kind of leaf, each allowed to fail.

use vstd::prelude::*;
use crate::policy::{Policy, SpecPolicy, pvs, prs};

verus! {

broadcast use vstd::std_specs::vec::axiom_vec_index_decreases;

/// A total mapping of keys and hashes, with one callback per leaf kind.
/// Each callback's behaviour is fixed by its spec function: callers learn
/// exactly which string comes back, or that the translation fails.
pub trait Translator<E> {
    /// What [`Translator::pk`] returns, or `None` where it fails.
    spec fn key_map(&self, pk: Seq<char>) -> Option<Seq<char>>;

    /// What [`Translator::pkh`] returns, or `None` where it fails.
    spec fn pkh_map(&self, pkh: Seq<char>) -> Option<Seq<char>>;

    /// What [`Translator::sha256`] returns, or `None` where it fails.
    spec fn sha256_map(&self, h: Seq<char>) -> Option<Seq<char>>;

    /// What [`Translator::hash256`] returns, or `None` where it fails.
    spec fn hash256_map(&self, h: Seq<char>) -> Option<Seq<char>>;

    /// What [`Translator::ripemd160`] returns, or `None` where it fails.
    spec fn ripemd160_map(&self, h: Seq<char>) -> Option<Seq<char>>;

    /// What [`Translator::hash160`] returns, or `None` where it fails.
    spec fn hash160_map(&self, h: Seq<char>) -> Option<Seq<char>>;

    /// Translate a public key.
    fn pk(&self, pk: &String) -> (r: Result<String, E>)
        ensures
            match r {
                Ok(q) => self.key_map(pk@) == Some(q@),
                Err(_) => self.key_map(pk@) is None,
            },
    ;

    /// Translate a public key hash.
    fn pkh(&self, pkh: &String) -> (r: Result<String, E>)
        ensures
            match r {
                Ok(q) => self.pkh_map(pkh@) == Some(q@),
                Err(_) => self.pkh_map(pkh@) is None,
            },
    ;

    /// Translate a SHA256 image.
    fn sha256(&self, h: &String) -> (r: Result<String, E>)
        ensures
            match r {
                Ok(q) => self.sha256_map(h@) == Some(q@),
                Err(_) => self.sha256_map(h@) is None,
            },
    ;

    /// Translate a double-SHA256 image.
    fn hash256(&self, h: &String) -> (r: Result<String, E>)
        ensures
            match r {
                Ok(q) => self.hash256_map(h@) == Some(q@),
                Err(_) => self.hash256_map(h@) is None,
            },
    ;

    /// Translate a RIPEMD160 image.
    fn ripemd160(&self, h: &String) -> (r: Result<String, E>)
        ensures
            match r {
                Ok(q) => self.ripemd160_map(h@) == Some(q@),
                Err(_) => self.ripemd160_map(h@) is None,
            },
    ;

    /// Translate a HASH160 image.
    fn hash160(&self, h: &String) -> (r: Result<String, E>)
        ensures
            match r {
                Ok(q) => self.hash160_map(h@) == Some(q@),
                Err(_) => self.hash160_map(h@) is None,
            },
    ;
}

/// The policy with every key and hash passed through the translator's
/// mappings; nothing where any leaf's translation fails.
pub open spec fn spec_translate_pk<E, T: Translator<E>>(p: SpecPolicy, t: &T) -> Option<SpecPolicy>
    decreases p,
{
    match p {
        SpecPolicy::Unsatisfiable => Some(SpecPolicy::Unsatisfiable),
        SpecPolicy::Trivial => Some(SpecPolicy::Trivial),
        SpecPolicy::Key(k) => match t.key_map(k) {
            Some(q) => Some(SpecPolicy::Key(q)),
            None => None,
        },
        SpecPolicy::After(n) => Some(SpecPolicy::After(n)),
        SpecPolicy::Older(n) => Some(SpecPolicy::Older(n)),
        SpecPolicy::Sha256(h) => match t.sha256_map(h) {
            Some(q) => Some(SpecPolicy::Sha256(q)),
            None => None,
        },
        SpecPolicy::Hash256(h) => match t.hash256_map(h) {
            Some(q) => Some(SpecPolicy::Hash256(q)),
            None => None,
        },
        SpecPolicy::Ripemd160(h) => match t.ripemd160_map(h) {
            Some(q) => Some(SpecPolicy::Ripemd160(q)),
            None => None,
        },
        SpecPolicy::Hash160(h) => match t.hash160_map(h) {
            Some(q) => Some(SpecPolicy::Hash160(q)),
            None => None,
        },
        SpecPolicy::And(s) => match spec_translate_list(s, t) {
            Some(q) => Some(SpecPolicy::And(q)),
            None => None,
        },
        SpecPolicy::Threshold(k, s) => match spec_translate_list(s, t) {
            Some(q) => Some(SpecPolicy::Threshold(k, q)),
            None => None,
        },
        SpecPolicy::Or(s) => match spec_translate_pairs(s, t) {
            Some(q) => Some(SpecPolicy::Or(q)),
            None => None,
        },
    }
}

/// All children translated, or nothing when any child fails.
pub open spec fn spec_translate_list<E, T: Translator<E>>(
    s: Seq<SpecPolicy>,
    t: &T,
) -> Option<Seq<SpecPolicy>>
    decreases s,
{
    if s.len() == 0 {
        Some(Seq::empty())
    } else {
        match (spec_translate_pk(s[0], t), spec_translate_list(s.drop_first(), t)) {
            (Some(h), Some(rest)) => Some(seq![h] + rest),
            _ => None,
        }
    }
}

/// All weighted children translated, weights kept, or nothing when any
/// child fails.
pub open spec fn spec_translate_pairs<E, T: Translator<E>>(
    s: Seq<(usize, SpecPolicy)>,
    t: &T,
) -> Option<Seq<(usize, SpecPolicy)>>
    decreases s,
{
    if s.len() == 0 {
        Some(Seq::empty())
    } else {
        match (spec_translate_pk(s[0].1, t), spec_translate_pairs(s.drop_first(), t)) {
            (Some(h), Some(rest)) => Some(seq![(s[0].0, h)] + rest),
            _ => None,
        }
    }
}

impl Policy {
    /// Convert the policy to use another set of keys and hashes through
    /// the translator; the first failing leaf's error is returned.
    pub fn translate_pk<E, T: Translator<E>>(&self, t: &T) -> (r: Result<Policy, E>)
        ensures
            match spec_translate_pk(self@, t) {
                Some(q) => r matches Ok(rp) && rp@ == q,
                None => r is Err,
            },
    {
        self._translate_pk(t)
    }

    /// The recursive worker behind [`Policy::translate_pk`].
    pub fn _translate_pk<E, T: Translator<E>>(&self, t: &T) -> (r: Result<Policy, E>)
        ensures
            match spec_translate_pk(self@, t) {
                Some(q) => r matches Ok(rp) && rp@ == q,
                None => r is Err,
            },
        decreases self,
    {
        match self {
            Policy::Unsatisfiable => Ok(Policy::Unsatisfiable),
            Policy::Trivial => Ok(Policy::Trivial),
            Policy::Key(k) => match t.pk(k) {
                Ok(q) => Ok(Policy::Key(q)),
                Err(e) => Err(e),
            },
            Policy::After(n) => Ok(Policy::After(*n)),
            Policy::Older(n) => Ok(Policy::Older(*n)),
            Policy::Sha256(h) => match t.sha256(h) {
                Ok(q) => Ok(Policy::Sha256(q)),
                Err(e) => Err(e),
            },
            Policy::Hash256(h) => match t.hash256(h) {
                Ok(q) => Ok(Policy::Hash256(q)),
                Err(e) => Err(e),
            },
            Policy::Ripemd160(h) => match t.ripemd160(h) {
                Ok(q) => Ok(Policy::Ripemd160(q)),
                Err(e) => Err(e),
            },
            Policy::Hash160(h) => match t.hash160(h) {
                Ok(q) => Ok(Policy::Hash160(q)),
                Err(e) => Err(e),
            },
            Policy::And(subs) => {
                proof {
                    assert(pvs(*subs).skip(0) =~= pvs(*subs));
                }
                match translate_list(subs, 0, t) {
                Ok(q) => {
                    let r = Policy::And(q);
                    proof {
                        assert(pvs(*subs).skip(0) =~= pvs(*subs));
                        assert(spec_translate_list(pvs(*subs), t) matches Some(qq) ==> (
                        r@ matches SpecPolicy::And(ss) && ss == qq));
                    }
                    Ok(r)
                },
                Err(e) => Err(e),
            }},
            Policy::Threshold(k, subs) => {
                proof {
                    assert(pvs(*subs).skip(0) =~= pvs(*subs));
                }
                match translate_list(subs, 0, t) {
                Ok(q) => {
                    let r = Policy::Threshold(*k, q);
                    proof {
                        assert(pvs(*subs).skip(0) =~= pvs(*subs));
                        assert(spec_translate_list(pvs(*subs), t) matches Some(qq) ==> (
                        r@ matches SpecPolicy::Threshold(_kk, ss) && ss == qq));
                    }
                    Ok(r)
                },
                Err(e) => Err(e),
            }},
            Policy::Or(subs) => {
                proof {
                    assert(prs(*subs).skip(0) =~= prs(*subs));
                }
                match translate_pairs(subs, 0, t) {
                Ok(q) => {
                    let r = Policy::Or(q);
                    proof {
                        assert(prs(*subs).skip(0) =~= prs(*subs));
                        assert(spec_translate_pairs(prs(*subs), t) matches Some(qq) ==> (
                        r@ matches SpecPolicy::Or(ss) && ss == qq));
                    }
                    Ok(r)
                },
                Err(e) => Err(e),
            }},
        }
    }
}

fn translate_list<E, T: Translator<E>>(subs: &Vec<Policy>, i: usize, t: &T) -> (r: Result<
    Vec<Policy>,
    E,
>)
    requires
        i <= subs.len(),
    ensures
        match spec_translate_list(pvs(*subs).skip(i as int), t) {
            Some(q) => r matches Ok(v) && pvs(v) == q,
            None => r is Err,
        },
    decreases subs, subs@.len() - i,
{
    if i == subs.len() {
        let v: Vec<Policy> = Vec::new();
        proof {
            assert(pvs(*subs).skip(i as int).len() == 0);
            assert(pvs(v) =~= Seq::<SpecPolicy>::empty());
        }
        Ok(v)
    } else {
        proof {
            let s = pvs(*subs);
            assert(s.skip(i as int)[0] == s[i as int]);
            assert(s.skip(i as int).drop_first() =~= s.skip(i as int + 1));
            assert(s[i as int] == subs@[i as int]@);
        }
        match subs[i]._translate_pk(t) {
            Err(e) => Err(e),
            Ok(h) => {
                match translate_list(subs, i + 1, t) {
                    Err(e) => Err(e),
                    Ok(rest) => {
                        let mut out: Vec<Policy> = Vec::new();
                        out.push(h);
                        let ghost gh = out;
                        let mut rest2 = rest;
                        let ghost grest = rest2;
                        out.append(&mut rest2);
                        proof {
                            assert(pvs(out) =~= seq![gh[0]@] + pvs(grest));
                        }
                        Ok(out)
                    },
                }
            },
        }
    }
}

fn translate_pairs<E, T: Translator<E>>(subs: &Vec<(usize, Policy)>, i: usize, t: &T) -> (r: Result<
    Vec<(usize, Policy)>,
    E,
>)
    requires
        i <= subs.len(),
    ensures
        match spec_translate_pairs(prs(*subs).skip(i as int), t) {
            Some(q) => r matches Ok(v) && prs(v) == q,
            None => r is Err,
        },
    decreases subs, subs@.len() - i,
{
    if i == subs.len() {
        let v: Vec<(usize, Policy)> = Vec::new();
        proof {
            assert(prs(*subs).skip(i as int).len() == 0);
            assert(prs(v) =~= Seq::<(usize, SpecPolicy)>::empty());
        }
        Ok(v)
    } else {
        proof {
            let s = prs(*subs);
            assert(s.skip(i as int)[0] == s[i as int]);
            assert(s.skip(i as int).drop_first() =~= s.skip(i as int + 1));
            assert(s[i as int].1 == subs@[i as int].1@);
            assert(s[i as int].0 == subs@[i as int].0);
        }
        let w = subs[i].0;
        match subs[i].1._translate_pk(t) {
            Err(e) => Err(e),
            Ok(h) => {
                match translate_pairs(subs, i + 1, t) {
                    Err(e) => Err(e),
                    Ok(rest) => {
                        let mut out: Vec<(usize, Policy)> = Vec::new();
                        out.push((w, h));
                        let ghost gh = out;
                        let mut rest2 = rest;
                        let ghost grest = rest2;
                        out.append(&mut rest2);
                        proof {
                            assert(prs(out) =~= seq![(gh[0].0, gh[0].1@)] + prs(grest));
                        }
                        Ok(out)
                    },
                }
            },
        }
    }
}

/// The table's mapping: the replacement for the first matching entry;
/// a missing name maps to itself, or to nothing in strict mode.
pub open spec fn spec_lookup(
    pairs: Seq<(Seq<char>, Seq<char>)>,
    k: Seq<char>,
    strict: bool,
) -> Option<Seq<char>>
    decreases pairs,
{
    if pairs.len() == 0 {
        if strict {
            None
        } else {
            Some(k)
        }
    } else if pairs[0].0 == k {
        Some(pairs[0].1)
    } else {
        spec_lookup(pairs.drop_first(), k, strict)
    }
}

/// View of a substitution table.
pub open spec fn table_view(v: Vec<(String, String)>) -> Seq<(Seq<char>, Seq<char>)> {
    Seq::new(
        v.len() as nat,
        |i: int|
            if 0 <= i < v.len() {
                (v[i].0@, v[i].1@)
            } else {
                (Seq::empty(), Seq::empty())
            },
    )
}

/// A translator backed by a substitution table: a listed name becomes its
/// replacement; an unlisted one stays as it is, or fails the translation
/// when the table is strict. Keys and hashes share the one table.
pub struct TableTranslator {
    /// The substitutions, searched front to back.
    pub pairs: Vec<(String, String)>,
    /// Whether an unlisted name fails instead of standing unchanged.
    pub strict: bool,
}

impl TableTranslator {
    fn lookup(&self, k: &String) -> (r: Result<String, ()>)
        ensures
            match r {
                Ok(q) => spec_lookup(table_view(self.pairs), k@, self.strict) == Some(q@),
                Err(_) => spec_lookup(table_view(self.pairs), k@, self.strict) is None,
            },
    {
        let n = self.pairs.len();
        proof {
            assert(table_view(self.pairs).skip(0) =~= table_view(self.pairs));
        }
        for i in 0..n
            invariant
                n == self.pairs.len(),
                spec_lookup(table_view(self.pairs), k@, self.strict) == spec_lookup(
                    table_view(self.pairs).skip(i as int),
                    k@,
                    self.strict,
                ),
                i <= n,
            decreases n - i,
        {
            proof {
                let tv = table_view(self.pairs);
                assert(tv.skip(i as int)[0] == tv[i as int]);
                assert(tv.skip(i as int).drop_first() =~= tv.skip(i as int + 1));
            }
            if self.pairs[i].0.eq(k) {
                return Ok(self.pairs[i].1.clone());
            }
        }
        proof {
            assert(table_view(self.pairs).skip(n as int).len() == 0);
        }
        if self.strict {
            Err(())
        } else {
            Ok(k.clone())
        }
    }
}

impl Translator<()> for TableTranslator {
    open spec fn key_map(&self, pk: Seq<char>) -> Option<Seq<char>> {
        spec_lookup(table_view(self.pairs), pk, self.strict)
    }

    open spec fn pkh_map(&self, pkh: Seq<char>) -> Option<Seq<char>> {
        spec_lookup(table_view(self.pairs), pkh, self.strict)
    }

    open spec fn sha256_map(&self, h: Seq<char>) -> Option<Seq<char>> {
        spec_lookup(table_view(self.pairs), h, self.strict)
    }

    open spec fn hash256_map(&self, h: Seq<char>) -> Option<Seq<char>> {
        spec_lookup(table_view(self.pairs), h, self.strict)
    }

    open spec fn ripemd160_map(&self, h: Seq<char>) -> Option<Seq<char>> {
        spec_lookup(table_view(self.pairs), h, self.strict)
    }

    open spec fn hash160_map(&self, h: Seq<char>) -> Option<Seq<char>> {
        spec_lookup(table_view(self.pairs), h, self.strict)
    }

    fn pk(&self, pk: &String) -> (r: Result<String, ()>) {
        self.lookup(pk)
    }

    fn pkh(&self, pkh: &String) -> (r: Result<String, ()>) {
        self.lookup(pkh)
    }

    fn sha256(&self, h: &String) -> (r: Result<String, ()>) {
        self.lookup(h)
    }

    fn hash256(&self, h: &String) -> (r: Result<String, ()>) {
        self.lookup(h)
    }

    fn ripemd160(&self, h: &String) -> (r: Result<String, ()>) {
        self.lookup(h)
    }

    fn hash160(&self, h: &String) -> (r: Result<String, ()>) {
        self.lookup(h)
    }
}

/// A translator whose mappings are all the identity leaves every policy
/// unchanged.
pub proof fn lemma_translate_identity<E, T: Translator<E>>(p: SpecPolicy, t: &T)
    requires
        forall|k: Seq<char>| #[trigger] t.key_map(k) == Some(k),
        forall|k: Seq<char>| #[trigger] t.sha256_map(k) == Some(k),
        forall|k: Seq<char>| #[trigger] t.hash256_map(k) == Some(k),
        forall|k: Seq<char>| #[trigger] t.ripemd160_map(k) == Some(k),
        forall|k: Seq<char>| #[trigger] t.hash160_map(k) == Some(k),
    ensures
        spec_translate_pk(p, t) == Some(p),
    decreases p,
{
    match p {
        SpecPolicy::And(s) => {
            lemma_translate_identity_list(s, t);
        },
        SpecPolicy::Threshold(_k, s) => {
            lemma_translate_identity_list(s, t);
        },
        SpecPolicy::Or(s) => {
            lemma_translate_identity_pairs(s, t);
        },
        _ => {},
    }
}

proof fn lemma_translate_identity_list<E, T: Translator<E>>(s: Seq<SpecPolicy>, t: &T)
    requires
        forall|k: Seq<char>| #[trigger] t.key_map(k) == Some(k),
        forall|k: Seq<char>| #[trigger] t.sha256_map(k) == Some(k),
        forall|k: Seq<char>| #[trigger] t.hash256_map(k) == Some(k),
        forall|k: Seq<char>| #[trigger] t.ripemd160_map(k) == Some(k),
        forall|k: Seq<char>| #[trigger] t.hash160_map(k) == Some(k),
    ensures
        spec_translate_list(s, t) == Some(s),
    decreases s,
{
    if s.len() == 0 {
        assert(spec_translate_list(s, t) matches Some(q) && q =~= s);
    } else {
        lemma_translate_identity(s[0], t);
        lemma_translate_identity_list(s.drop_first(), t);
        assert(seq![s[0]] + s.drop_first() =~= s);
    }
}

proof fn lemma_translate_identity_pairs<E, T: Translator<E>>(s: Seq<(usize, SpecPolicy)>, t: &T)
    requires
        forall|k: Seq<char>| #[trigger] t.key_map(k) == Some(k),
        forall|k: Seq<char>| #[trigger] t.sha256_map(k) == Some(k),
        forall|k: Seq<char>| #[trigger] t.hash256_map(k) == Some(k),
        forall|k: Seq<char>| #[trigger] t.ripemd160_map(k) == Some(k),
        forall|k: Seq<char>| #[trigger] t.hash160_map(k) == Some(k),
    ensures
        spec_translate_pairs(s, t) == Some(s),
    decreases s,
{
    if s.len() == 0 {
        assert(spec_translate_pairs(s, t) matches Some(q) && q =~= s);
    } else {
        lemma_translate_identity(s[0].1, t);
        lemma_translate_identity_pairs(s.drop_first(), t);
        assert(seq![(s[0].0, s[0].1)] + s.drop_first() =~= s);
        assert((s[0].0, s[0].1) == s[0]);
    }
}

} // verus!
