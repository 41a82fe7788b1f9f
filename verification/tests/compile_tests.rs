//! Tests for the Taproot compiler pass: key extraction, pruning, the
//! probability-weighted tree, and the descriptor assembly.

use miniscript::compile::LeafCompiler;
use miniscript::{
    CompilerError, Descriptor, Error, KeyExpr, Miniscript, Policy, TapTree,
};

fn s(v: &str) -> String {
    v.to_string()
}

fn pk(k: &str) -> Policy {
    Policy::Key(s(k))
}

fn single(k: &str) -> KeyExpr {
    KeyExpr::SingleKey(s(k))
}

fn ms_pk(k: &str) -> Miniscript {
    Miniscript::Check(Box::new(Miniscript::PkK(single(k))))
}

/// A small stand-in for the external Miniscript compiler, handling the
/// leaf shapes that appear in these tests.
struct FixtureCompiler;

impl LeafCompiler for FixtureCompiler {
    fn best_compilation(&self, policy: &Policy) -> Result<Miniscript, CompilerError> {
        match policy {
            Policy::Key(k) => Ok(ms_pk(k)),
            Policy::Older(n) => Ok(Miniscript::Older(*n)),
            Policy::And(subs) if subs.len() == 2 => {
                let a = self.best_compilation(&subs[0])?;
                let b = self.best_compilation(&subs[1])?;
                Ok(Miniscript::AndV(
                    Box::new(Miniscript::Verify(Box::new(a))),
                    Box::new(b),
                ))
            }
            _ => Err(CompilerError::LimitsExceeded),
        }
    }
}

#[test]
fn extract_key_prefers_heavy_branch() {
    // the two-key conjunction behind the 99-weight arm wins
    let p = Policy::parse(
        "or(99@thresh(2,pk(hA),pk(S)),1@or(99@pk(Ca),1@and(pk(In),older(9))))",
    )
    .unwrap();
    let (ik, pruned) = p.extract_key_new(Some(s("UNSPENDABLE_KEY"))).unwrap();
    assert_eq!(ik, KeyExpr::MuSig(vec![single("hA"), single("S")]));
    // the chosen threshold is fully consumed, so it is pruned away
    assert_eq!(
        pruned,
        Policy::Or(vec![
            (99, Policy::Unsatisfiable),
            (
                1,
                Policy::Or(vec![
                    (99, pk("Ca")),
                    (1, Policy::And(vec![pk("In"), Policy::Older(9)])),
                ])
            ),
        ])
    );
}

#[test]
fn extract_key_partial_threshold_kept() {
    // a partial threshold is not replaced when chosen for the key
    let p = Policy::parse("thresh(2,pk(A),pk(B),pk(C))").unwrap();
    let (ik, pruned) = p.clone().extract_key_new(None).unwrap();
    assert_eq!(ik, KeyExpr::MuSig(vec![single("A"), single("B")]));
    assert_eq!(pruned, p);
}

#[test]
fn extract_key_fallback_unspendable() {
    // no candidate leaf: fall back to the given key
    let p = Policy::Trivial;
    let (ik, pruned) = p.extract_key_new(Some(s("U"))).unwrap();
    assert_eq!(ik, single("U"));
    assert_eq!(pruned, Policy::Trivial);
    // and fail without one
    assert_eq!(
        Policy::Trivial.extract_key_new(None),
        Err(Error::NoViableInternalKey)
    );
}

#[test]
fn compile_tr_fixture() {
    let p = Policy::parse(
        "or(99@thresh(2,pk(hA),pk(S)),1@or(99@pk(Ca),1@and(pk(In),older(9))))",
    )
    .unwrap();
    let d = p.compile_tr(&FixtureCompiler, Some(s("UNSPENDABLE_KEY"))).unwrap();
    match d {
        Descriptor::Tr(ik, Some(tree)) => {
            assert_eq!(ik, KeyExpr::MuSig(vec![single("hA"), single("S")]));
            let leaves = tree.leaves_with_depth();
            // two leaves at depth 1: and_v(vc:pk_k(In),older(9)), then pk(Ca)
            assert_eq!(leaves.len(), 2);
            assert_eq!(leaves[0].0, 1);
            assert_eq!(
                leaves[0].1,
                Miniscript::AndV(
                    Box::new(Miniscript::Verify(Box::new(ms_pk("In")))),
                    Box::new(Miniscript::Older(9)),
                )
            );
            assert_eq!(leaves[1].0, 1);
            assert_eq!(leaves[1].1, ms_pk("Ca"));
        }
        other => panic!("not a taproot descriptor with a tree: {:?}", other),
    }
}

#[test]
fn compile_tr_key_path_only() {
    // a trivial remainder gives a key-path-only descriptor
    let d = Policy::Trivial
        .compile_tr(&FixtureCompiler, Some(s("U")))
        .unwrap();
    assert_eq!(d, Descriptor::Tr(single("U"), None));
}

#[test]
fn compile_tr_gates() {
    // a hash-only policy has no safe compilation
    let p = Policy::parse("sha256(H)").unwrap();
    assert_eq!(
        p.compile_tr(&FixtureCompiler, None),
        Err(Error::Compiler(CompilerError::TopLevelNonSafe))
    );
    // invalid policies are refused before compilation
    let q = Policy::And(vec![pk("A")]);
    assert_eq!(
        q.compile_tr(&FixtureCompiler, None),
        Err(Error::Policy(miniscript::PolicyError::NonBinaryArgAnd))
    );
    // a single key policy is consumed whole by the internal key: there is
    // nothing left to compile into a script tree
    assert_eq!(
        pk("A").compile_tr(&FixtureCompiler, None),
        Err(Error::EmptyCompilation)
    );
}

#[test]
fn compile_tr_malleable_gate() {
    // safe thanks to the key, yet the hash-only disjunction is malleable
    let p = Policy::parse("and(pk(A),or(1@sha256(H),1@sha256(G)))").unwrap();
    assert_eq!(
        p.compile_tr(&FixtureCompiler, None),
        Err(Error::Compiler(
            CompilerError::ImpossibleNonMalleableCompilation
        ))
    );
}

#[test]
fn witness_size_prefix_thresholds() {
    // 300 single-byte elements need a three-byte count prefix
    let wit: Vec<Vec<u8>> = (0..300).map(|_| vec![0u8]).collect();
    assert_eq!(miniscript::util::witness_size(&wit), 303);
}

#[test]
fn compile_gates() {
    let p = Policy::parse("sha256(H)").unwrap();
    assert_eq!(
        p.compile(&FixtureCompiler),
        Err(CompilerError::TopLevelNonSafe)
    );
    let ok = Policy::parse("pk(A)").unwrap();
    assert_eq!(ok.compile(&FixtureCompiler), Ok(ms_pk("A")));
}

#[test]
fn compile_to_descriptor_contexts() {
    let p = Policy::parse("pk(A)").unwrap();
    assert_eq!(
        p.compile_to_descriptor(&FixtureCompiler, miniscript::DescriptorCtx::Bare),
        Ok(Descriptor::Bare(ms_pk("A")))
    );
    assert_eq!(
        p.compile_to_descriptor(&FixtureCompiler, miniscript::DescriptorCtx::Wsh),
        Ok(Descriptor::Wsh(ms_pk("A")))
    );
}

#[test]
fn huffman_groups_low_probability_leaves() {
    let leaves = vec![
        (60u64, Miniscript::After(1)),
        (25u64, Miniscript::After(2)),
        (15u64, Miniscript::After(3)),
    ];
    let tree = miniscript::descriptor::with_huffman_tree(leaves).unwrap();
    // the two rare leaves end up deeper than the common one
    let depths = tree.leaves_with_depth();
    assert_eq!(depths.len(), 3);
    let mut by_script: Vec<(u64, u32)> = depths
        .iter()
        .map(|(d, m)| {
            let n = match m {
                Miniscript::After(n) => *n,
                _ => unreachable!(),
            };
            (*d, n)
        })
        .collect();
    by_script.sort_by_key(|e| e.1);
    assert_eq!(by_script, vec![(1, 1), (2, 2), (2, 3)]);
}

#[test]
fn huffman_empty_input_fails() {
    assert_eq!(
        miniscript::descriptor::with_huffman_tree(vec![]),
        Err(Error::EmptyCompilation)
    );
    let t = miniscript::descriptor::with_huffman_tree(vec![(1u64, Miniscript::After(7))])
        .unwrap();
    assert_eq!(t, TapTree::Leaf(Box::new(Miniscript::After(7))));
}

#[test]
fn tapleaf_probabilities_split_by_weight() {
    let p = Policy::parse("or(3@pk(A),1@or(3@pk(B),1@pk(C)))").unwrap();
    let probs = p.to_tapleaf_prob_vec(1 << 32);
    assert_eq!(probs.len(), 3);
    let unit = 1u64 << 32;
    assert_eq!(probs[0], ((unit / 4) * 3, pk("A")));
    assert_eq!(probs[1].1, pk("B"));
    assert_eq!(probs[2].1, pk("C"));
    // the nested shares multiply: 1/4 * 3/4 and 1/4 * 1/4
    assert_eq!(probs[1].0, (unit / 4) * 3 / 4);
    assert_eq!(probs[2].0, unit / 4 / 4);
    // a one-of-n threshold splits uniformly
    let q = Policy::parse("thresh(1,pk(A),pk(B))").unwrap();
    let probs = q.to_tapleaf_prob_vec(unit);
    assert_eq!(probs[0].0, unit / 2);
    assert_eq!(probs[1].0, unit / 2);
}

#[test]
fn witness_size_counts_bytes() {
    let wit: Vec<Vec<u8>> = vec![vec![1, 2, 3], vec![], vec![9; 10]];
    // 13 bytes of data plus one byte for the element count
    assert_eq!(miniscript::util::witness_size(&wit), 14);
    let empty: Vec<Vec<u8>> = vec![];
    assert_eq!(miniscript::util::witness_size(&empty), 1);
}

#[test]
fn decimal_printing() {
    assert_eq!(miniscript::text::u64_to_string(0), "0");
    assert_eq!(miniscript::text::u64_to_string(7), "7");
    assert_eq!(miniscript::text::u64_to_string(40960), "40960");
    assert_eq!(miniscript::text::u64_to_string(18446744073709551615), "18446744073709551615");
}
