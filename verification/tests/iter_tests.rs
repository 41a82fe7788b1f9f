//! Tests for the Miniscript iterators.

use miniscript::{KeyExpr, Miniscript, PkPkh};

fn single(k: &str) -> KeyExpr {
    KeyExpr::SingleKey(k.to_string())
}

fn musig(subs: Vec<KeyExpr>) -> KeyExpr {
    KeyExpr::MuSig(subs)
}

fn pk(k: &str) -> Miniscript {
    Miniscript::Check(Box::new(Miniscript::PkK(single(k))))
}

fn pk_expr(e: KeyExpr) -> Miniscript {
    Miniscript::Check(Box::new(Miniscript::PkK(e)))
}

fn or_b(a: Miniscript, b: Miniscript) -> Miniscript {
    Miniscript::OrB(Box::new(a), Box::new(b))
}

fn swap(a: Miniscript) -> Miniscript {
    Miniscript::Swap(Box::new(a))
}

fn alt(a: Miniscript) -> Miniscript {
    Miniscript::Alt(Box::new(a))
}

fn collect_pks(ms: &Miniscript) -> Vec<String> {
    let mut it = ms.iter_pk();
    let mut out = Vec::new();
    while let Some(k) = it.next() {
        out.push(k);
    }
    out
}

fn collect_pkhs(ms: &Miniscript) -> Vec<String> {
    let mut it = ms.iter_pkh();
    let mut out = Vec::new();
    while let Some(k) = it.next() {
        out.push(k);
    }
    out
}

fn collect_pk_pkhs(ms: &Miniscript) -> Vec<PkPkh> {
    let mut it = ms.iter_pk_pkh();
    let mut out = Vec::new();
    while let Some(k) = it.next() {
        out.push(k);
    }
    out
}

#[test]
fn test_musig_iter() {
    // musig inside pk in Tap context
    let ms = or_b(pk("A"), swap(pk_expr(musig(vec![single("B"), single("C")]))));
    let mut pk_iter = miniscript::iter::PkIter::new(&ms);
    let keys = vec!["A", "B", "C"];
    for key in keys {
        assert_eq!(String::from(key), pk_iter.next().unwrap());
    }

    // complex nested musig
    let ms = or_b(
        pk("A"),
        swap(pk_expr(musig(vec![
            single("F"),
            single("B"),
            musig(vec![single("C"), musig(vec![single("D"), single("E")])]),
        ]))),
    );
    let mut pk_iter = miniscript::iter::PkIter::new(&ms);
    let keys = vec!["A", "F", "B", "C", "D", "E"];
    for key in keys {
        assert_eq!(String::from(key), pk_iter.next().unwrap());
    }

    // without musig
    let ms = or_b(pk("A"), swap(pk("B")));
    let mut pk_iter = miniscript::iter::PkIter::new(&ms);
    let keys = vec!["A", "B"];
    for key in keys {
        assert_eq!(String::from(key), pk_iter.next().unwrap());
    }

    // musig inside multi_a
    let ms = or_b(
        pk("A"),
        alt(Miniscript::MultiA(
            1,
            vec![single("B"), musig(vec![single("C"), single("D")])],
        )),
    );
    let mut pk_iter = miniscript::iter::PkIter::new(&ms);
    let keys = vec!["A", "B", "C", "D"];
    for key in keys {
        assert_eq!(String::from(key), pk_iter.next().unwrap());
    }

    // musig and normal key together
    let ms = or_b(
        pk_expr(musig(vec![single("A1"), single("A2")])),
        alt(Miniscript::MultiA(
            1,
            vec![
                single("B"),
                musig(vec![single("C"), musig(vec![single("D"), single("E")])]),
            ],
        )),
    );
    let mut pk_iter = miniscript::iter::PkIter::new(&ms);
    let keys = vec!["A1", "A2", "B", "C", "D", "E"];
    for key in keys {
        assert_eq!(String::from(key), pk_iter.next().unwrap());
    }
}

type TestData = (Miniscript, Vec<String>, Vec<String>, bool);

fn s(v: &str) -> String {
    v.to_string()
}

fn gen_testcases() -> Vec<TestData> {
    let k: Vec<String> = (0..10).map(|i| format!("K{}", i)).collect();
    let sha256_hash = s("SHA_IMAGE");
    let sha256d_hash = s("SHAD_IMAGE");
    let hash160_hash = s("H160_IMAGE");
    let ripemd160_hash = s("R160_IMAGE");

    vec![
        (Miniscript::After(1000), vec![], vec![], false),
        (Miniscript::Older(1000), vec![], vec![], false),
        (Miniscript::Sha256(sha256_hash.clone()), vec![], vec![], false),
        (Miniscript::Hash256(sha256d_hash), vec![], vec![], false),
        (Miniscript::Hash160(hash160_hash), vec![], vec![], false),
        (Miniscript::Ripemd160(ripemd160_hash), vec![], vec![], false),
        (pk("K0"), vec![k[0].clone()], vec![], true),
        (
            Miniscript::Check(Box::new(Miniscript::PkH(s("K0")))),
            vec![k[0].clone()],
            vec![],
            true,
        ),
        (
            Miniscript::AndV(
                Box::new(Miniscript::Verify(Box::new(Miniscript::Check(Box::new(
                    Miniscript::PkK(single("K0")),
                ))))),
                Box::new(Miniscript::Check(Box::new(Miniscript::PkH(s("K1"))))),
            ),
            vec![k[0].clone(), k[1].clone()],
            vec![],
            false,
        ),
        (
            Miniscript::AndB(
                Box::new(pk("K0")),
                Box::new(swap(Miniscript::NonZero(Box::new(Miniscript::Verify(
                    Box::new(Miniscript::Sha256(sha256_hash.clone())),
                ))))),
            ),
            vec![k[0].clone()],
            vec![],
            false,
        ),
        (
            Miniscript::AndOr(
                Box::new(pk("K1")),
                Box::new(Miniscript::NonZero(Box::new(Miniscript::Verify(Box::new(
                    Miniscript::Sha256(sha256_hash.clone()),
                ))))),
                Box::new(Miniscript::Check(Box::new(Miniscript::PkH(s("K2"))))),
            ),
            vec![k[1].clone(), k[2].clone()],
            vec![],
            false,
        ),
        (
            Miniscript::Multi(
                3,
                vec![s("K9"), s("K8"), s("K7"), s("K0"), s("K1")],
            ),
            vec![k[9].clone(), k[8].clone(), k[7].clone(), k[0].clone(), k[1].clone()],
            vec![],
            true,
        ),
        (
            Miniscript::Thresh(
                3,
                vec![
                    pk("K2"),
                    swap(pk("K3")),
                    swap(pk("K4")),
                    swap(pk("K5")),
                    swap(pk("K6")),
                ],
            ),
            vec![k[2].clone(), k[3].clone(), k[4].clone(), k[5].clone(), k[6].clone()],
            vec![],
            false,
        ),
        (
            Miniscript::OrD(
                Box::new(Miniscript::Multi(2, vec![s("K6"), s("K7")])),
                Box::new(Miniscript::AndV(
                    Box::new(Miniscript::Verify(Box::new(Miniscript::Multi(
                        2,
                        vec![s("K8"), s("K9")],
                    )))),
                    Box::new(Miniscript::Older(10000)),
                )),
            ),
            vec![k[6].clone(), k[7].clone(), k[8].clone(), k[9].clone()],
            vec![],
            false,
        ),
        (
            Miniscript::OrD(
                Box::new(Miniscript::Multi(
                    3,
                    vec![s("K0"), s("K2"), s("K4"), s("K6"), s("K9")],
                )),
                Box::new(Miniscript::AndV(
                    Box::new(Miniscript::Verify(Box::new(Miniscript::Thresh(
                        2,
                        vec![
                            Miniscript::Check(Box::new(Miniscript::PkH(s("K1")))),
                            alt(Miniscript::Check(Box::new(Miniscript::PkH(s("K3"))))),
                            alt(Miniscript::Check(Box::new(Miniscript::PkH(s("K5"))))),
                        ],
                    )))),
                    Box::new(Miniscript::Older(10000)),
                )),
            ),
            vec![
                k[0].clone(),
                k[2].clone(),
                k[4].clone(),
                k[6].clone(),
                k[9].clone(),
                k[1].clone(),
                k[3].clone(),
                k[5].clone(),
            ],
            vec![],
            false,
        ),
    ]
}

#[test]
fn get_keys() {
    gen_testcases()
        .into_iter()
        .for_each(|(ms, k, _, test_top_level)| {
            if !test_top_level {
                return;
            }
            let branches = ms.branches();
            let ms = branches.first().unwrap_or(&ms);
            assert_eq!(ms.get_leapk(), k);
        })
}

#[test]
fn get_hashes() {
    gen_testcases()
        .into_iter()
        .for_each(|(ms, k, h, test_top_level)| {
            if !test_top_level {
                return;
            }
            let branches = ms.branches();
            let ms = branches.first().unwrap_or(&ms);
            // with string keys, a key stands for its own hash
            let mut all: Vec<String> = k.clone();
            all.extend(h);
            assert_eq!(ms.get_leapkh(), all);
        })
}

#[test]
fn get_pubkey_and_hashes() {
    gen_testcases()
        .into_iter()
        .for_each(|(ms, k, h, test_top_level)| {
            if !test_top_level {
                return;
            }
            let branches = ms.branches();
            let ms = branches.first().unwrap_or(&ms);
            let r: Vec<PkPkh> = if k.is_empty() {
                h.into_iter().map(PkPkh::HashedPubkey).collect()
            } else {
                k.into_iter().map(PkPkh::PlainPubkey).collect()
            };
            assert_eq!(ms.get_leapk_pkh(), r);
        })
}

#[test]
fn find_keys() {
    gen_testcases().into_iter().for_each(|(ms, k, _, _)| {
        assert_eq!(collect_pks(&ms), k);
    })
}

#[test]
fn find_hashes() {
    gen_testcases().into_iter().for_each(|(ms, k, h, _)| {
        let mut all: Vec<String> = k.clone();
        all.extend(h);
        assert_eq!(collect_pkhs(&ms), all);
    })
}

#[test]
fn find_pubkeys_and_hashes() {
    gen_testcases().into_iter().for_each(|(ms, k, h, _)| {
        let mut all: Vec<PkPkh> = k.into_iter().map(PkPkh::PlainPubkey).collect();
        all.extend(h.into_iter().map(PkPkh::HashedPubkey));
        assert_eq!(collect_pk_pkhs(&ms), all);
    })
}

#[test]
fn raw_hashes_and_pk_only() {
    // plain keys first, raw hashes after, as the tagged iterator reports
    let ms = or_b(
        pk("A"),
        swap(Miniscript::Check(Box::new(Miniscript::RawPkH(s("HH"))))),
    );
    let tagged = collect_pk_pkhs(&ms);
    assert_eq!(
        tagged,
        vec![
            PkPkh::PlainPubkey(s("A")),
            PkPkh::HashedPubkey(s("HH")),
        ]
    );
    // a raw hash makes pk_only refuse
    assert_eq!(ms.iter_pk_pkh().pk_only(), None);
    // without raw hashes, pk_only agrees with the key iterator
    let ms2 = or_b(pk("A"), swap(pk("B")));
    assert_eq!(ms2.iter_pk_pkh().pk_only(), Some(vec![s("A"), s("B")]));
    assert_eq!(collect_pks(&ms2), vec![s("A"), s("B")]);
}

#[test]
fn node_iterator_order() {
    let ms = or_b(pk("A"), swap(pk("B")));
    let mut it = ms.iter();
    // preorder: or_b, c:pk_k(A), pk_k(A), s:, c:pk_k(B), pk_k(B)
    assert_eq!(it.next().unwrap(), ms);
    assert_eq!(it.next().unwrap(), pk("A"));
    assert_eq!(it.next().unwrap(), Miniscript::PkK(single("A")));
    assert_eq!(it.next().unwrap(), swap(pk("B")));
    assert_eq!(it.next().unwrap(), pk("B"));
    assert_eq!(it.next().unwrap(), Miniscript::PkK(single("B")));
    assert_eq!(it.next(), None);
}

#[test]
fn nth_child_and_accessors() {
    let ms = or_b(pk("A"), swap(pk("B")));
    assert_eq!(ms.get_nth_child(0), Some(pk("A")));
    assert_eq!(ms.get_nth_child(1), Some(swap(pk("B"))));
    assert_eq!(ms.get_nth_child(2), None);
    let multi = Miniscript::Multi(2, vec![s("X"), s("Y")]);
    assert_eq!(multi.get_nth_pk(0), Some(s("X")));
    assert_eq!(multi.get_nth_pk(1), Some(s("Y")));
    assert_eq!(multi.get_nth_pk(2), None);
    let raw = Miniscript::RawPkH(s("RH"));
    assert_eq!(raw.get_nth_pk(0), None);
    assert_eq!(raw.get_nth_pkh(0), Some(s("RH")));
    assert_eq!(raw.get_nth_pk_pkh(0), Some(PkPkh::HashedPubkey(s("RH"))));
    assert_eq!(PkPkh::PlainPubkey(s("Z")).as_key(), s("Z"));
    assert_eq!(PkPkh::HashedPubkey(s("W")).as_key(), s("W"));
}

#[test]
fn keyexpr_leaves_order() {
    // a nested aggregate yields its leaves depth-first, left to right
    let e = musig(vec![
        single("F"),
        single("B"),
        musig(vec![single("C"), musig(vec![single("D"), single("E")])]),
    ]);
    assert_eq!(e.leaves(), vec![s("F"), s("B"), s("C"), s("D"), s("E")]);
    assert_eq!(single("X").leaves(), vec![s("X")]);
}
