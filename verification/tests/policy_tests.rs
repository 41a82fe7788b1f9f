//! Tests for policy parsing, printing, validation and translation.

use miniscript::{Error, Policy, PolicyError, TableTranslator};

fn s(v: &str) -> String {
    v.to_string()
}

fn pk(k: &str) -> Policy {
    Policy::Key(s(k))
}

#[test]
fn parse_simple_policies() {
    assert_eq!(Policy::parse("pk(K)").unwrap(), pk("K"));
    assert_eq!(Policy::parse("after(1000)").unwrap(), Policy::After(1000));
    assert_eq!(Policy::parse("older(144)").unwrap(), Policy::Older(144));
    assert_eq!(Policy::parse("UNSATISFIABLE").unwrap(), Policy::Unsatisfiable);
    assert_eq!(Policy::parse("UNSATISFIABLE()").unwrap(), Policy::Unsatisfiable);
    assert_eq!(Policy::parse("TRIVIAL").unwrap(), Policy::Trivial);
    assert_eq!(
        Policy::parse("sha256(H)").unwrap(),
        Policy::Sha256(s("H"))
    );
    assert_eq!(
        Policy::parse("and(pk(A),pk(B))").unwrap(),
        Policy::And(vec![pk("A"), pk("B")])
    );
    assert_eq!(
        Policy::parse("or(99@pk(A),1@pk(B))").unwrap(),
        Policy::Or(vec![(99, pk("A")), (1, pk("B"))])
    );
    assert_eq!(
        Policy::parse("or(pk(A),pk(B))").unwrap(),
        Policy::Or(vec![(1, pk("A")), (1, pk("B"))])
    );
    assert_eq!(
        Policy::parse("thresh(2,pk(A),pk(B),older(144))").unwrap(),
        Policy::Threshold(2, vec![pk("A"), pk("B"), Policy::Older(144)])
    );
}

#[test]
fn parse_rejects_malformed() {
    assert_eq!(Policy::parse("pk(A"), Err(Error::Malformed));
    assert_eq!(Policy::parse("pk(A))"), Err(Error::Malformed));
    assert_eq!(Policy::parse("frob(A)"), Err(Error::Malformed));
    assert_eq!(
        Policy::parse("and(pk(A),pk(B),pk(C))"),
        Err(Error::Policy(PolicyError::NonBinaryArgAnd))
    );
    assert_eq!(
        Policy::parse("and(pk(A))"),
        Err(Error::Policy(PolicyError::NonBinaryArgAnd))
    );
    assert_eq!(
        Policy::parse("or(pk(A))"),
        Err(Error::Policy(PolicyError::NonBinaryArgOr))
    );
    assert_eq!(
        Policy::parse("thresh(0,pk(A))"),
        Err(Error::Policy(PolicyError::IncorrectThresh))
    );
    assert_eq!(
        Policy::parse("thresh(3,pk(A),pk(B))"),
        Err(Error::Policy(PolicyError::IncorrectThresh))
    );
    assert_eq!(
        Policy::parse("after(0)"),
        Err(Error::Policy(PolicyError::ZeroTime))
    );
    assert_eq!(
        Policy::parse("after(2147483648)"),
        Err(Error::Policy(PolicyError::TimeTooFar))
    );
    assert_eq!(
        Policy::parse("older(2147483647)").unwrap(),
        Policy::Older(2147483647)
    );
    assert_eq!(
        Policy::parse("or(1@2@pk(A),1@pk(B))"),
        Err(Error::MultiColon)
    );
    assert_eq!(
        Policy::parse("and(1@pk(A),pk(B))"),
        Err(Error::AtOutsideOr)
    );
}

#[test]
fn parse_unprintable_byte() {
    let input = format!("pk({}A)", '\u{1}');
    assert_eq!(Policy::parse(&input), Err(Error::Unprintable(0x01)));
}

#[test]
fn parse_checks_timelocks() {
    assert_eq!(
        Policy::parse("and(older(1000),after(500000000))"),
        Err(Error::Policy(PolicyError::HeightTimelockCombination))
    );
    // splitting the kinds over a disjunction is fine
    assert!(Policy::parse("or(older(1000),after(500000000))").is_ok());
}

#[test]
fn format_round_trip() {
    let texts = vec![
        "pk(K)",
        "UNSATISFIABLE",
        "TRIVIAL",
        "after(1000)",
        "older(144)",
        "sha256(H)",
        "hash256(H2)",
        "ripemd160(R)",
        "hash160(G)",
        "and(pk(A),pk(B))",
        "or(99@pk(A),1@pk(B))",
        "thresh(2,pk(A),pk(B),older(144))",
        "or(99@thresh(2,pk(hA),pk(S)),1@or(99@pk(Ca),1@and(pk(In),older(9))))",
    ];
    for t in texts {
        let p = Policy::parse(t).unwrap();
        assert_eq!(p.to_string(), t);
        let q = Policy::parse(&p.to_string()).unwrap();
        assert_eq!(q, p);
    }
}

#[test]
fn validity_checks() {
    assert_eq!(Policy::parse("pk(A)").unwrap().is_valid(), Ok(()));
    assert_eq!(
        Policy::And(vec![pk("A")]).is_valid(),
        Err(PolicyError::NonBinaryArgAnd)
    );
    assert_eq!(
        Policy::Or(vec![(1, pk("A"))]).is_valid(),
        Err(PolicyError::NonBinaryArgOr)
    );
    assert_eq!(
        Policy::Threshold(3, vec![pk("A"), pk("B")]).is_valid(),
        Err(PolicyError::IncorrectThresh)
    );
    assert_eq!(
        Policy::Threshold(2, vec![pk("A"), pk("B")]).is_valid(),
        Ok(())
    );
    assert_eq!(
        Policy::After(0).is_valid(),
        Err(PolicyError::ZeroTime)
    );
    assert_eq!(
        Policy::After(0x8000_0000).is_valid(),
        Err(PolicyError::TimeTooFar)
    );
    // duplicate keys across branches
    assert_eq!(
        Policy::And(vec![pk("A"), pk("A")]).is_valid(),
        Err(PolicyError::DuplicatePubKeys)
    );
    assert_eq!(
        Policy::parse("and(pk(A),pk(A))").unwrap().is_valid(),
        Err(PolicyError::DuplicatePubKeys)
    );
}

#[test]
fn keys_and_for_each_key() {
    let p = Policy::parse("or(1@and(pk(A),pk(B)),1@thresh(1,pk(C),older(9)))").unwrap();
    assert_eq!(p.keys(), vec![s("A"), s("B"), s("C")]);
    assert!(p.for_each_key(|_k: &String| true));
    assert!(!p.for_each_key(|_k: &String| false));
    // vacuously true without key leaves
    let q = Policy::parse("older(9)").unwrap();
    assert!(q.for_each_key(|_k: &String| false));
    // short-circuit predicate on contents
    assert!(p.for_each_key(|k: &String| k.len() == 1));
}

#[test]
fn translate_unsatisfiable_pk_removes_key() {
    let p = Policy::parse("or(1@and(pk(A),pk(B)),1@pk(A))").unwrap();
    let q = p.translate_unsatisfiable_pk(&s("A"));
    assert_eq!(
        q,
        Policy::Or(vec![
            (1, Policy::And(vec![Policy::Unsatisfiable, pk("B")])),
            (1, Policy::Unsatisfiable),
        ])
    );
    assert!(!q.keys().contains(&s("A")));
}

#[test]
fn translate_pk_identity_and_substitution() {
    let p = Policy::parse("and(pk(alice),pk(bob))").unwrap();
    // the empty lenient table is the identity
    let id = TableTranslator { pairs: vec![], strict: false };
    assert_eq!(p.translate_pk(&id).unwrap(), p);
    // substitution
    let t = TableTranslator {
        pairs: vec![(s("alice"), s("X1")), (s("bob"), s("X2"))],
        strict: false,
    };
    assert_eq!(
        p.translate_pk(&t).unwrap(),
        Policy::parse("and(pk(X1),pk(X2))").unwrap()
    );
    // a strict table fails on an unlisted name
    let strict = TableTranslator { pairs: vec![(s("alice"), s("X1"))], strict: true };
    assert_eq!(p.translate_pk(&strict), Err(()));
}

#[test]
fn safe_nonmalleable_cases() {
    assert_eq!(Policy::parse("pk(A)").unwrap().is_safe_nonmalleable(), (true, true));
    assert_eq!(Policy::parse("older(9)").unwrap().is_safe_nonmalleable(), (false, true));
    assert_eq!(
        Policy::parse("and(pk(A),older(9))").unwrap().is_safe_nonmalleable(),
        (true, true)
    );
    assert_eq!(
        Policy::parse("or(1@pk(A),1@older(9))").unwrap().is_safe_nonmalleable(),
        (false, true)
    );
    assert_eq!(
        Policy::parse("or(1@pk(A),1@pk(B))").unwrap().is_safe_nonmalleable(),
        (true, true)
    );
    assert_eq!(
        Policy::parse("thresh(2,pk(A),pk(B),older(144))")
            .unwrap()
            .is_safe_nonmalleable(),
        (true, true)
    );
    // relabeling keys leaves the structural predicate unchanged
    let p = Policy::parse("or(1@and(pk(A),older(9)),1@sha256(H))").unwrap();
    let t = TableTranslator {
        pairs: vec![(s("A"), s("ZZZ"))],
        strict: false,
    };
    let q = p.translate_pk(&t).unwrap();
    assert_eq!(p.is_safe_nonmalleable(), q.is_safe_nonmalleable());
}

#[test]
fn timelock_summary() {
    // built programmatically, since parsing already runs the check
    let p = Policy::And(vec![Policy::Older(1000), Policy::After(500000000)]);
    let info = p.check_timelocks_helper();
    assert!(info.csv_with_height);
    assert!(info.cltv_with_time);
    assert!(info.contains_combination);
    assert_eq!(
        p.check_timelocks(),
        Err(PolicyError::HeightTimelockCombination)
    );
    // the sequence type flag makes a relative lock time-based
    let q = Policy::parse("older(4194304)").unwrap();
    let info = q.check_timelocks_helper();
    assert!(info.csv_with_time);
    assert!(!info.csv_with_height);
    assert_eq!(q.check_timelocks(), Ok(()));
}
