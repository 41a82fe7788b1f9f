//! The textual policy format: printing a policy in the function-call
//! grammar, and parsing that grammar back.

use vstd::prelude::*;
use crate::errors::Error;
use crate::policy::{Policy, PolicyError, SpecPolicy, pvs, prs};
use vstd::string::StringExecFns;
use vstd::string::StrSliceExecFns;
use vstd::string::StringSliceAdditionalSpecFns;

verus! {

broadcast use vstd::std_specs::vec::axiom_vec_index_decreases;

/// The decimal digit character for a value below ten.
pub open spec fn digit_char(d: int) -> char {
    if d == 0 {
        '0'
    } else if d == 1 {
        '1'
    } else if d == 2 {
        '2'
    } else if d == 3 {
        '3'
    } else if d == 4 {
        '4'
    } else if d == 5 {
        '5'
    } else if d == 6 {
        '6'
    } else if d == 7 {
        '7'
    } else if d == 8 {
        '8'
    } else {
        '9'
    }
}

/// The canonical decimal spelling of a non-negative number.
pub open spec fn spec_dec(n: int) -> Seq<char>
    decreases n,
{
    if n < 10 {
        seq![digit_char(n)]
    } else {
        spec_dec(n / 10) + seq![digit_char(n % 10)]
    }
}

fn digit_str(d: u64) -> (r: &'static str)
    requires
        d < 10,
    ensures
        r@ == seq![digit_char(d as int)],
{
    let r: &'static str = if d == 0 {
        "0"
    } else if d == 1 {
        "1"
    } else if d == 2 {
        "2"
    } else if d == 3 {
        "3"
    } else if d == 4 {
        "4"
    } else if d == 5 {
        "5"
    } else if d == 6 {
        "6"
    } else if d == 7 {
        "7"
    } else {
        proof {
            reveal_strlit("8");
            reveal_strlit("9");
        }
        if d == 8 {
            "8"
        } else {
            "9"
        }
    };
    proof {
        reveal_strlit("0");
        reveal_strlit("1");
        reveal_strlit("2");
        reveal_strlit("3");
        reveal_strlit("4");
        reveal_strlit("5");
        reveal_strlit("6");
        reveal_strlit("7");
        reveal_strlit("8");
        reveal_strlit("9");
        assert(r@ =~= seq![digit_char(d as int)]);
    }
    r
}

/// Print a number in decimal.
pub fn u64_to_string(n: u64) -> (r: String)
    ensures
        r@ == spec_dec(n as int),
    decreases n,
{
    if n < 10 {
        digit_str(n).to_owned()
    } else {
        let mut s = u64_to_string(n / 10);
        s.append(digit_str(n % 10));
        s
    }
}


/// The head spelling `UNSATISFIABLE`.
pub open spec fn nm_unsat() -> Seq<char> {
    seq!['U', 'N', 'S', 'A', 'T', 'I', 'S', 'F', 'I', 'A', 'B', 'L', 'E']
}

/// The head spelling `TRIVIAL`.
pub open spec fn nm_trivial() -> Seq<char> {
    seq!['T', 'R', 'I', 'V', 'I', 'A', 'L']
}

/// The opening `pk(`.
pub open spec fn nm_pk() -> Seq<char> {
    seq!['p', 'k', '(']
}

/// The opening `after(`.
pub open spec fn nm_after() -> Seq<char> {
    seq!['a', 'f', 't', 'e', 'r', '(']
}

/// The opening `older(`.
pub open spec fn nm_older() -> Seq<char> {
    seq!['o', 'l', 'd', 'e', 'r', '(']
}

/// The opening `sha256(`.
pub open spec fn nm_sha256() -> Seq<char> {
    seq!['s', 'h', 'a', '2', '5', '6', '(']
}

/// The opening `hash256(`.
pub open spec fn nm_hash256() -> Seq<char> {
    seq!['h', 'a', 's', 'h', '2', '5', '6', '(']
}

/// The opening `ripemd160(`.
pub open spec fn nm_ripemd160() -> Seq<char> {
    seq!['r', 'i', 'p', 'e', 'm', 'd', '1', '6', '0', '(']
}

/// The opening `hash160(`.
pub open spec fn nm_hash160() -> Seq<char> {
    seq!['h', 'a', 's', 'h', '1', '6', '0', '(']
}

/// The opening `and(`.
pub open spec fn nm_and() -> Seq<char> {
    seq!['a', 'n', 'd', '(']
}

/// The opening `or(`.
pub open spec fn nm_or() -> Seq<char> {
    seq!['o', 'r', '(']
}

/// The opening `thresh(`.
pub open spec fn nm_thresh() -> Seq<char> {
    seq!['t', 'h', 'r', 'e', 's', 'h', '(']
}

/// The canonical text of a policy: the function-call grammar with no
/// whitespace, every `or` child prefixed by its weight and `@`.
pub open spec fn spec_fmt(p: SpecPolicy) -> Seq<char>
    decreases p, 1int,
{
    match p {
        SpecPolicy::Unsatisfiable => nm_unsat(),
        SpecPolicy::Trivial => nm_trivial(),
        SpecPolicy::Key(k) => nm_pk() + k + seq![')'],
        SpecPolicy::After(n) => nm_after() + spec_dec(n as int) + seq![')'],
        SpecPolicy::Older(n) => nm_older() + spec_dec(n as int) + seq![')'],
        SpecPolicy::Sha256(h) => nm_sha256() + h + seq![')'],
        SpecPolicy::Hash256(h) => nm_hash256() + h + seq![')'],
        SpecPolicy::Ripemd160(h) => nm_ripemd160() + h + seq![')'],
        SpecPolicy::Hash160(h) => nm_hash160() + h + seq![')'],
        SpecPolicy::And(s) => nm_and() + (if s.len() == 0 {
            Seq::empty()
        } else {
            spec_fmt(s[0]) + spec_fmt_rest(s, 1)
        }) + seq![')'],
        SpecPolicy::Or(s) => nm_or() + (if s.len() == 0 {
            Seq::empty()
        } else {
            spec_dec(s[0].0 as int) + seq!['@'] + spec_fmt(s[0].1) + spec_fmt_pairs_rest(s, 1)
        }) + seq![')'],
        SpecPolicy::Threshold(k, s) => nm_thresh() + spec_dec(k as int) + spec_fmt_rest(s, 0)
            + seq![')'],
    }
}

/// The remaining list elements, each preceded by a comma.
pub open spec fn spec_fmt_rest(s: Seq<SpecPolicy>, i: int) -> Seq<char>
    decreases s, s.len() - i, 0int,
{
    if i < 0 || i >= s.len() {
        Seq::empty()
    } else {
        seq![','] + spec_fmt(s[i]) + spec_fmt_rest(s, i + 1)
    }
}

/// The remaining weighted elements, each preceded by a comma and prefixed
/// by its weight and `@`.
pub open spec fn spec_fmt_pairs_rest(s: Seq<(usize, SpecPolicy)>, i: int) -> Seq<char>
    decreases s, s.len() - i, 0int,
{
    if i < 0 || i >= s.len() {
        Seq::empty()
    } else {
        seq![','] + spec_dec(s[i].0 as int) + seq!['@'] + spec_fmt(s[i].1) + spec_fmt_pairs_rest(
            s,
            i + 1,
        )
    }
}

impl Policy {
    /// The canonical text of the policy; parsing it yields the policy
    /// back.
    pub fn to_string(&self) -> (r: String)
        ensures
            r@ == spec_fmt(self@),
    {
        let mut out = String::new();
        write_policy(self, &mut out);
        out
    }
}

fn write_policy(p: &Policy, out: &mut String)
    ensures
        final(out)@ == old(out)@ + spec_fmt(p@),
    decreases p, 1int,
{
    match p {
        Policy::Unsatisfiable => {
            out.append("UNSATISFIABLE");
            proof {
                reveal_strlit("UNSATISFIABLE");
                assert("UNSATISFIABLE"@ =~= nm_unsat());
            }
        },
        Policy::Trivial => {
            out.append("TRIVIAL");
            proof {
                reveal_strlit("TRIVIAL");
                assert("TRIVIAL"@ =~= nm_trivial());
            }
        },
        Policy::Key(k) => {
            out.append("pk(");
            out.append(k.as_str());
            out.append(")");
            proof {
                reveal_strlit("pk(");
                reveal_strlit(")");
                assert("pk("@ =~= nm_pk());
                assert(")"@ =~= seq![')']);
            }
        },
        Policy::After(n) => {
            out.append("after(");
            let d = u64_to_string(*n as u64);
            out.append(d.as_str());
            out.append(")");
            proof {
                reveal_strlit("after(");
                reveal_strlit(")");
                assert("after("@ =~= nm_after());
                assert(")"@ =~= seq![')']);
            }
        },
        Policy::Older(n) => {
            out.append("older(");
            let d = u64_to_string(*n as u64);
            out.append(d.as_str());
            out.append(")");
            proof {
                reveal_strlit("older(");
                reveal_strlit(")");
                assert("older("@ =~= nm_older());
                assert(")"@ =~= seq![')']);
            }
        },
        Policy::Sha256(h) => {
            out.append("sha256(");
            out.append(h.as_str());
            out.append(")");
            proof {
                reveal_strlit("sha256(");
                reveal_strlit(")");
                assert("sha256("@ =~= nm_sha256());
                assert(")"@ =~= seq![')']);
            }
        },
        Policy::Hash256(h) => {
            out.append("hash256(");
            out.append(h.as_str());
            out.append(")");
            proof {
                reveal_strlit("hash256(");
                reveal_strlit(")");
                assert("hash256("@ =~= nm_hash256());
                assert(")"@ =~= seq![')']);
            }
        },
        Policy::Ripemd160(h) => {
            out.append("ripemd160(");
            out.append(h.as_str());
            out.append(")");
            proof {
                reveal_strlit("ripemd160(");
                reveal_strlit(")");
                assert("ripemd160("@ =~= nm_ripemd160());
                assert(")"@ =~= seq![')']);
            }
        },
        Policy::Hash160(h) => {
            out.append("hash160(");
            out.append(h.as_str());
            out.append(")");
            proof {
                reveal_strlit("hash160(");
                reveal_strlit(")");
                assert("hash160("@ =~= nm_hash160());
                assert(")"@ =~= seq![')']);
            }
        },
        Policy::And(subs) => {
            out.append("and(");
            if subs.len() > 0 {
                write_policy(&subs[0], out);
                write_rest(subs, 1, out);
            }
            out.append(")");
            proof {
                reveal_strlit("and(");
                reveal_strlit(")");
                assert("and("@ =~= nm_and());
                assert(")"@ =~= seq![')']);
                if subs@.len() > 0 {
                    assert(pvs(*subs)[0] == subs@[0]@);
                }
            }
        },
        Policy::Or(subs) => {
            out.append("or(");
            if subs.len() > 0 {
                let d = u64_to_string(subs[0].0 as u64);
                out.append(d.as_str());
                out.append("@");
                write_policy(&subs[0].1, out);
                write_pairs_rest(subs, 1, out);
            }
            out.append(")");
            proof {
                reveal_strlit("or(");
                reveal_strlit("@");
                reveal_strlit(")");
                assert("or("@ =~= nm_or());
                assert("@"@ =~= seq!['@']);
                assert(")"@ =~= seq![')']);
                if subs@.len() > 0 {
                    assert(prs(*subs)[0].0 == subs@[0].0);
                    assert(prs(*subs)[0].1 == subs@[0].1@);
                }
            }
        },
        Policy::Threshold(k, subs) => {
            out.append("thresh(");
            let d = u64_to_string(*k as u64);
            out.append(d.as_str());
            write_rest(subs, 0, out);
            out.append(")");
            proof {
                reveal_strlit("thresh(");
                reveal_strlit(")");
                assert("thresh("@ =~= nm_thresh());
                assert(")"@ =~= seq![')']);
            }
        },
    }
}

fn write_rest(subs: &Vec<Policy>, i: usize, out: &mut String)
    requires
        i <= subs.len(),
    ensures
        final(out)@ == old(out)@ + spec_fmt_rest(pvs(*subs), i as int),
    decreases subs, subs@.len() - i, 0int,
{
    if i < subs.len() {
        out.append(",");
        write_policy(&subs[i], out);
        write_rest(subs, i + 1, out);
        proof {
            reveal_strlit(",");
            assert(","@ =~= seq![',']);
            assert(pvs(*subs)[i as int] == subs@[i as int]@);
        }
    } else {
        proof {
            assert(old(out)@ + spec_fmt_rest(pvs(*subs), i as int) =~= old(out)@);
        }
    }
}

fn write_pairs_rest(subs: &Vec<(usize, Policy)>, i: usize, out: &mut String)
    requires
        i <= subs.len(),
    ensures
        final(out)@ == old(out)@ + spec_fmt_pairs_rest(prs(*subs), i as int),
    decreases subs, subs@.len() - i, 0int,
{
    if i < subs.len() {
        out.append(",");
        let d = u64_to_string(subs[i].0 as u64);
        out.append(d.as_str());
        out.append("@");
        write_policy(&subs[i].1, out);
        write_pairs_rest(subs, i + 1, out);
        proof {
            reveal_strlit(",");
            reveal_strlit("@");
            assert(","@ =~= seq![',']);
            assert("@"@ =~= seq!['@']);
            assert(prs(*subs)[i as int].0 == subs@[i as int].0);
            assert(prs(*subs)[i as int].1 == subs@[i as int].1@);
        }
    } else {
        proof {
            assert(old(out)@ + spec_fmt_pairs_rest(prs(*subs), i as int) =~= old(out)@);
        }
    }
}


/// Characters that may stand in a fragment name or key: everything but
/// the three delimiters.
pub open spec fn is_name_char(c: char) -> bool {
    c != '(' && c != ')' && c != ','
}

/// A decimal digit.
pub open spec fn is_digit_char(c: char) -> bool {
    48 <= c as u32 <= 57
}

/// The value of a digit character.
pub open spec fn digit_val(c: char) -> int {
    c as u32 - 48
}

/// The first position at or after `pos` holding a delimiter, or the end.
pub open spec fn name_end(s: Seq<char>, pos: int) -> int
    decreases s.len() - pos,
{
    if pos < 0 || pos >= s.len() {
        s.len() as int
    } else if !is_name_char(s[pos]) {
        pos
    } else {
        name_end(s, pos + 1)
    }
}

/// The first `@` in `[from, to)`, or `to`.
pub open spec fn first_at(s: Seq<char>, from: int, to: int) -> int
    decreases to - from,
{
    if from < 0 || from >= to || from >= s.len() {
        to
    } else if s[from] == '@' {
        from
    } else {
        first_at(s, from + 1, to)
    }
}

/// The number spelled by `[from, to)` appended to `acc`, or nothing if a
/// non-digit stands there.
pub open spec fn parse_num_rec(s: Seq<char>, from: int, to: int, acc: int) -> Option<int>
    decreases to - from,
{
    if from >= to || from < 0 || to > s.len() {
        Some(acc)
    } else if is_digit_char(s[from]) {
        parse_num_rec(s, from + 1, to, acc * 10 + digit_val(s[from]))
    } else {
        None
    }
}

/// The number spelled by the non-empty digit run `[from, to)`.
pub open spec fn spec_parse_num(s: Seq<char>, from: int, to: int) -> Option<int> {
    if from >= to {
        None
    } else {
        parse_num_rec(s, from, to, 0)
    }
}

/// Names of the recognized heads, without the opening parenthesis.
pub open spec fn hd_pk() -> Seq<char> {
    seq!['p', 'k']
}

/// The name `after`.
pub open spec fn hd_after() -> Seq<char> {
    seq!['a', 'f', 't', 'e', 'r']
}

/// The name `older`.
pub open spec fn hd_older() -> Seq<char> {
    seq!['o', 'l', 'd', 'e', 'r']
}

/// The name `sha256`.
pub open spec fn hd_sha256() -> Seq<char> {
    seq!['s', 'h', 'a', '2', '5', '6']
}

/// The name `hash256`.
pub open spec fn hd_hash256() -> Seq<char> {
    seq!['h', 'a', 's', 'h', '2', '5', '6']
}

/// The name `ripemd160`.
pub open spec fn hd_ripemd160() -> Seq<char> {
    seq!['r', 'i', 'p', 'e', 'm', 'd', '1', '6', '0']
}

/// The name `hash160`.
pub open spec fn hd_hash160() -> Seq<char> {
    seq!['h', 'a', 's', 'h', '1', '6', '0']
}

/// The name `and`.
pub open spec fn hd_and() -> Seq<char> {
    seq!['a', 'n', 'd']
}

/// The name `or`.
pub open spec fn hd_or() -> Seq<char> {
    seq!['o', 'r']
}

/// The name `thresh`.
pub open spec fn hd_thresh() -> Seq<char> {
    seq!['t', 'h', 'r', 'e', 's', 'h']
}

/// Leaf heads that take one terminal argument and build a policy from the
/// raw text between the parentheses.
pub open spec fn string_leaf(head: Seq<char>, arg: Seq<char>) -> Option<SpecPolicy> {
    if head == hd_pk() {
        Some(SpecPolicy::Key(arg))
    } else if head == hd_sha256() {
        Some(SpecPolicy::Sha256(arg))
    } else if head == hd_hash256() {
        Some(SpecPolicy::Hash256(arg))
    } else if head == hd_ripemd160() {
        Some(SpecPolicy::Ripemd160(arg))
    } else if head == hd_hash160() {
        Some(SpecPolicy::Hash160(arg))
    } else {
        None
    }
}

/// One parsed policy: its probability weight (one unless written `w@`),
/// the policy itself, and the position just past its text.
pub enum Parsed {
    /// Parsing succeeded.
    Found(usize, SpecPolicy, int),
    /// Parsing failed.
    Fail(Error),
}

/// Parse one policy at `pos`. A probability prefix `w@` is accepted only
/// when `allow_prob` holds, that is, directly under an `or`. Heads with a
/// terminal argument read the raw text to the closing parenthesis;
/// `and`/`or` demand exactly two comma-separated children; `thresh` reads
/// a number and then any number of children, demanding `1 <= k <= n`;
/// locktimes must lie in `(0, 2^31)`.
pub open spec fn spec_parse(s: Seq<char>, pos: int, allow_prob: bool) -> Parsed
    decreases s.len() - pos, 1int,
{
    let ne0 = name_end(s, pos);
    let ne = if ne0 >= pos {
        ne0
    } else {
        s.len() as int
    };
    let at1 = first_at(s, pos, ne);
    let frag = if at1 == ne {
        Parsed::Found(1usize, SpecPolicy::Trivial, pos)
    } else {
        let at2 = first_at(s, at1 + 1, ne);
        if at2 != ne {
            Parsed::Fail(Error::MultiColon)
        } else if !allow_prob {
            Parsed::Fail(Error::AtOutsideOr)
        } else {
            match spec_parse_num(s, pos, at1) {
                None => Parsed::Fail(Error::Malformed),
                Some(v) => if v > 0xffff_ffff {
                    Parsed::Fail(Error::Malformed)
                } else {
                    Parsed::Found(v as usize, SpecPolicy::Trivial, at1 + 1)
                },
            }
        }
    };
    match frag {
        Parsed::Fail(e) => Parsed::Fail(e),
        Parsed::Found(w, _unused, fs) => {
            let head = s.subrange(fs, ne);
            if head == nm_unsat() || head == nm_trivial() {
                spec_parse_zero(s, ne, w, head == nm_unsat())
            } else if string_leaf(head, Seq::empty()) is Some {
                spec_parse_strleaf(s, ne, w, head)
            } else if head == hd_after() || head == hd_older() {
                spec_parse_locktime(s, ne, w, head == hd_after())
            } else if head == hd_and() || head == hd_or() {
                spec_parse_binary(s, pos, ne, w, head == hd_and())
            } else if head == hd_thresh() {
                spec_parse_thresh(s, pos, ne, w)
            } else {
                Parsed::Fail(Error::Malformed)
            }
        },
    }
}



/// A zero-argument head: either bare or followed by an immediate `()`.
pub open spec fn spec_parse_zero(s: Seq<char>, ne: int, w: usize, is_unsat: bool) -> Parsed {
    let p = if is_unsat {
        SpecPolicy::Unsatisfiable
    } else {
        SpecPolicy::Trivial
    };
    if ne < s.len() && s[ne] == '(' {
        if ne + 1 < s.len() && s[ne + 1] == ')' {
            Parsed::Found(w, p, ne + 2)
        } else {
            Parsed::Fail(Error::Malformed)
        }
    } else {
        Parsed::Found(w, p, ne)
    }
}

/// A head taking one terminal argument, read raw up to the closing
/// parenthesis.
pub open spec fn spec_parse_strleaf(s: Seq<char>, ne: int, w: usize, head: Seq<char>) -> Parsed {
    if ne < s.len() && s[ne] == '(' {
        let te = name_end(s, ne + 1);
        if te < s.len() && s[te] == ')' {
            Parsed::Found(w, string_leaf(head, s.subrange(ne + 1, te)).unwrap(), te + 1)
        } else {
            Parsed::Fail(Error::Malformed)
        }
    } else {
        Parsed::Fail(Error::Malformed)
    }
}

/// The `after(`/`older(` production: a number in `(0, 2^31)`.
pub open spec fn spec_parse_locktime(s: Seq<char>, ne: int, w: usize, is_after: bool) -> Parsed {
    if ne < s.len() && s[ne] == '(' {
        let te = name_end(s, ne + 1);
        if te < s.len() && s[te] == ')' {
            match spec_parse_num(s, ne + 1, te) {
                None => Parsed::Fail(Error::Malformed),
                Some(v) => if v > 0xffff_ffff {
                    Parsed::Fail(Error::Malformed)
                } else if v >= 0x8000_0000 {
                    Parsed::Fail(Error::Policy(PolicyError::TimeTooFar))
                } else if v == 0 {
                    Parsed::Fail(Error::Policy(PolicyError::ZeroTime))
                } else if is_after {
                    Parsed::Found(w, SpecPolicy::After(v as u32), te + 1)
                } else {
                    Parsed::Found(w, SpecPolicy::Older(v as u32), te + 1)
                },
            }
        } else {
            Parsed::Fail(Error::Malformed)
        }
    } else {
        Parsed::Fail(Error::Malformed)
    }
}

/// The `and(`/`or(` production at head end `ne`: exactly two
/// comma-separated children, probability prefixes allowed only under `or`.
pub open spec fn spec_parse_binary(s: Seq<char>, pos: int, ne_in: int, w: usize, is_and: bool) -> Parsed
    decreases s.len() - pos, 0int,
{
    let ne = if ne_in >= pos {
        ne_in
    } else {
        s.len() as int
    };
    let arity_err = if is_and {
        Error::Policy(PolicyError::NonBinaryArgAnd)
    } else {
        Error::Policy(PolicyError::NonBinaryArgOr)
    };
    if ne < s.len() && s[ne] == '(' {
        match spec_parse(s, ne + 1, !is_and) {
            Parsed::Fail(e) => Parsed::Fail(e),
            Parsed::Found(w1, p1, q1raw) => {
                let q1 = if q1raw > ne + 1 {
                    q1raw
                } else {
                    s.len() as int + 1
                };
                if q1 < s.len() && s[q1] == ',' {
                    match spec_parse(s, q1 + 1, !is_and) {
                        Parsed::Fail(e) => Parsed::Fail(e),
                        Parsed::Found(w2, p2, q2) => {
                            if q2 < s.len() && s[q2] == ')' {
                                if is_and {
                                    Parsed::Found(w, SpecPolicy::And(seq![p1, p2]), q2 + 1)
                                } else {
                                    Parsed::Found(
                                        w,
                                        SpecPolicy::Or(seq![(w1, p1), (w2, p2)]),
                                        q2 + 1,
                                    )
                                }
                            } else if q2 < s.len() && s[q2] == ',' {
                                Parsed::Fail(arity_err)
                            } else {
                                Parsed::Fail(Error::Malformed)
                            }
                        },
                    }
                } else if q1 < s.len() && s[q1] == ')' {
                    Parsed::Fail(arity_err)
                } else {
                    Parsed::Fail(Error::Malformed)
                }
            },
        }
    } else {
        Parsed::Fail(Error::Malformed)
    }
}

/// The `thresh(` production at head end `ne`: a numeric threshold, then
/// any number of children, with `1 <= k <= n` demanded at the end.
pub open spec fn spec_parse_thresh(s: Seq<char>, pos: int, ne_in: int, w: usize) -> Parsed
    decreases s.len() - pos, 0int,
{
    let ne = if ne_in >= pos {
        ne_in
    } else {
        s.len() as int
    };
    if ne < s.len() && s[ne] == '(' {
        let te0 = name_end(s, ne + 1);
        let te = if te0 > ne && te0 <= s.len() {
            te0
        } else {
            s.len() as int
        };
        if te < s.len() && s[te] == '(' {
            Parsed::Fail(Error::Policy(PolicyError::IncorrectThresh))
        } else {
            match spec_parse_num(s, ne + 1, te) {
                None => Parsed::Fail(Error::Malformed),
                Some(v) => if v > 0xffff_ffff {
                    Parsed::Fail(Error::Malformed)
                } else {
                    match spec_thresh_args(s, te) {
                        ArgsParsed::Fail(e) => Parsed::Fail(e),
                        ArgsParsed::Found(subs, e) => {
                            if v == 0 || v > subs.len() {
                                Parsed::Fail(Error::Policy(PolicyError::IncorrectThresh))
                            } else {
                                Parsed::Found(w, SpecPolicy::Threshold(v as usize, subs), e)
                            }
                        },
                    }
                },
            }
        }
    } else {
        Parsed::Fail(Error::Policy(PolicyError::IncorrectThresh))
    }
}

/// A parsed comma-led list of children up to a closing parenthesis.
pub enum ArgsParsed {
    /// The children and the position just past the closing parenthesis.
    Found(Seq<SpecPolicy>, int),
    /// Parsing failed.
    Fail(Error),
}

/// Parse the remaining `,child` repetitions and the closing parenthesis,
/// starting at a position holding either `,` or `)`.
pub open spec fn spec_thresh_args(s: Seq<char>, pos: int) -> ArgsParsed
    decreases s.len() - pos, 0int,
{
    if pos < 0 || pos >= s.len() {
        ArgsParsed::Fail(Error::Malformed)
    } else if s[pos] == ')' {
        ArgsParsed::Found(Seq::empty(), pos + 1)
    } else if s[pos] == ',' {
        match spec_parse(s, pos + 1, false) {
            Parsed::Fail(e) => ArgsParsed::Fail(e),
            Parsed::Found(_w, p, qraw) => {
                let q = if qraw > pos + 1 {
                    qraw
                } else {
                    s.len() as int + 1
                };
                if q > s.len() {
                    ArgsParsed::Fail(Error::Malformed)
                } else {
                    match spec_thresh_args(s, q) {
                        ArgsParsed::Fail(e) => ArgsParsed::Fail(e),
                        ArgsParsed::Found(rest, e) => ArgsParsed::Found(seq![p] + rest, e),
                    }
                }
            },
        }
    } else {
        ArgsParsed::Fail(Error::Malformed)
    }
}

/// The result of parsing a whole policy text: the policy must span the
/// entire input, and its lock kinds must not conflict.
pub open spec fn spec_parse_text(s: Seq<char>) -> Result<SpecPolicy, Error> {
    match spec_parse(s, 0, false) {
        Parsed::Fail(e) => Err(e),
        Parsed::Found(_w, p, q) => if q == s.len() {
            if crate::timelock::spec_timelock_info(p).contains_combination {
                Err(Error::Policy(PolicyError::HeightTimelockCombination))
            } else {
                Ok(p)
            }
        } else {
            Err(Error::Malformed)
        },
    }
}

/// The first byte outside the printable range `[0x14, 0x7f]`, if any.
pub open spec fn spec_first_unprintable(bs: Seq<u8>, i: int) -> Option<u8>
    decreases bs.len() - i,
{
    if i < 0 || i >= bs.len() {
        None
    } else if bs[i] < 20 || bs[i] > 127 {
        Some(bs[i])
    } else {
        spec_first_unprintable(bs, i + 1)
    }
}


fn name_end_exec(s: &str, pos: usize, n: usize) -> (r: usize)
    requires
        n == s@.len(),
        pos <= n,
    ensures
        r == name_end(s@, pos as int),
        pos <= r <= n,
{
    let mut j = pos;
    while j < n
        invariant
            n == s@.len(),
            pos <= j <= n,
            name_end(s@, pos as int) == name_end(s@, j as int),
        decreases n - j,
    {
        let c = s.get_char(j);
        if c == '(' || c == ')' || c == ',' {
            return j;
        }
        j = j + 1;
    }
    j
}

fn first_at_exec(s: &str, from: usize, to: usize, n: usize) -> (r: usize)
    requires
        n == s@.len(),
        from <= to <= n,
    ensures
        r == first_at(s@, from as int, to as int),
        from <= r <= to,
{
    let mut j = from;
    while j < to
        invariant
            n == s@.len(),
            from <= j <= to <= n,
            first_at(s@, from as int, to as int) == first_at(s@, j as int, to as int),
        decreases to - j,
    {
        let c = s.get_char(j);
        if c == '@' {
            return j;
        }
        j = j + 1;
    }
    j
}

proof fn lemma_parse_num_min(s: Seq<char>, from: int, to: int, acc: int)
    requires
        acc >= 0,
    ensures
        parse_num_rec(s, from, to, acc) matches Some(v) ==> v >= acc,
    decreases to - from,
{
    if from >= to || from < 0 || to > s.len() {
    } else if is_digit_char(s[from]) {
        lemma_parse_num_min(s, from + 1, to, acc * 10 + digit_val(s[from]));
    }
}

fn parse_num32(s: &str, from: usize, to: usize, n: usize) -> (r: Option<u32>)
    requires
        n == s@.len(),
        from <= n,
        to <= n,
    ensures
        match spec_parse_num(s@, from as int, to as int) {
            Some(v) => v >= 0 && if v <= 0xffff_ffff {
                r == Some(v as u32)
            } else {
                r is None
            },
            None => r is None,
        },
{
    proof {
        if from < to {
            lemma_parse_num_min(s@, from as int, to as int, 0);
        }
    }
    if from >= to {
        return None;
    }
    let mut acc: u64 = 0;
    let mut j = from;
    while j < to
        invariant
            n == s@.len(),
            from <= j <= to <= n,
            acc <= 0xffff_ffff,
            parse_num_rec(s@, from as int, to as int, 0) == parse_num_rec(
                s@,
                j as int,
                to as int,
                acc as int,
            ),
        decreases to - j,
    {
        let c = s.get_char(j);
        let cv = c as u32;
        if cv < 48 || cv > 57 {
            return None;
        }
        let d = (cv - 48) as u64;
        acc = acc * 10 + d;
        j = j + 1;
        if acc > 0xffff_ffff {
            proof {
                lemma_parse_num_min(s@, j as int, to as int, acc as int);
            }
            return None;
        }
    }
    Some(acc as u32)
}

fn range_matches(s: &str, from: usize, to: usize, n: usize, pat: &str, m: usize) -> (r: bool)
    requires
        n == s@.len(),
        m == pat@.len(),
        from <= to <= n,
    ensures
        r == (s@.subrange(from as int, to as int) == pat@),
{
    if to - from != m {
        proof {
            assert(s@.subrange(from as int, to as int).len() == to - from);
        }
        return false;
    }
    let mut j: usize = 0;
    while j < m
        invariant
            n == s@.len(),
            m == pat@.len(),
            from <= to <= n,
            to - from == m,
            j <= m,
            forall|i: int| 0 <= i < j ==> s@.subrange(from as int, to as int)[i] == pat@[i],
        decreases m - j,
    {
        let a = s.get_char(from + j);
        let b = pat.get_char(j);
        if a != b {
            proof {
                assert(s@.subrange(from as int, to as int)[j as int] != pat@[j as int]);
            }
            return false;
        }
        j = j + 1;
    }
    proof {
        assert(s@.subrange(from as int, to as int) =~= pat@);
    }
    true
}


#[verifier::rlimit(100)]
#[verifier::spinoff_prover]
fn parse_expr(s: &str, pos: usize, allow_prob: bool, n: usize) -> (r: Result<
    (usize, Policy, usize),
    Error,
>)
    requires
        n == s@.len(),
        pos <= n,
    ensures
        match spec_parse(s@, pos as int, allow_prob) {
            Parsed::Found(w, p, q) => r matches Ok(t) && t.0 == w && t.1@ == p && t.2 == q && pos
                < t.2 <= n,
            Parsed::Fail(e) => r == Result::<(usize, Policy, usize), Error>::Err(e),
        },
    decreases n - pos, 1int,
{
    let ne = name_end_exec(s, pos, n);
    let at1 = first_at_exec(s, pos, ne, n);
    let w: usize;
    let fs: usize;
    if at1 == ne {
        w = 1;
        fs = pos;
    } else {
        let at2 = first_at_exec(s, at1 + 1, ne, n);
        if at2 != ne {
            proof {
                assert(spec_parse(s@, pos as int, allow_prob) == Parsed::Fail(Error::MultiColon));
            }
            return Err(Error::MultiColon);
        }
        if !allow_prob {
            proof {
                assert(spec_parse(s@, pos as int, allow_prob) == Parsed::Fail(Error::AtOutsideOr));
            }
            return Err(Error::AtOutsideOr);
        }
        match parse_num32(s, pos, at1, n) {
            None => {
                proof {
                    assert(spec_parse(s@, pos as int, allow_prob) == Parsed::Fail(
                        Error::Malformed,
                    ));
                }
                return Err(Error::Malformed);
            },
            Some(v) => {
                w = v as usize;
                fs = at1 + 1;
            },
        }
    }
    let ghost head = s@.subrange(fs as int, ne as int);
    proof {
        reveal_strlit("UNSATISFIABLE");
        reveal_strlit("TRIVIAL");
        reveal_strlit("pk");
        reveal_strlit("sha256");
        reveal_strlit("hash256");
        reveal_strlit("ripemd160");
        reveal_strlit("hash160");
        reveal_strlit("after");
        reveal_strlit("older");
        reveal_strlit("and");
        reveal_strlit("or");
        reveal_strlit("thresh");
        assert("UNSATISFIABLE"@ =~= nm_unsat());
        assert("TRIVIAL"@ =~= nm_trivial());
        assert("pk"@ =~= hd_pk());
        assert("sha256"@ =~= hd_sha256());
        assert("hash256"@ =~= hd_hash256());
        assert("ripemd160"@ =~= hd_ripemd160());
        assert("hash160"@ =~= hd_hash160());
        assert("after"@ =~= hd_after());
        assert("older"@ =~= hd_older());
        assert("and"@ =~= hd_and());
        assert("or"@ =~= hd_or());
        assert("thresh"@ =~= hd_thresh());
    }
    if range_matches(s, fs, ne, n, "UNSATISFIABLE", 13) || range_matches(
        s,
        fs,
        ne,
        n,
        "TRIVIAL",
        7,
    ) {
        proof {
            assert("UNSATISFIABLE"@ =~= nm_unsat());
            assert("TRIVIAL"@ =~= nm_trivial());
        }
        let is_unsat = range_matches(s, fs, ne, n, "UNSATISFIABLE", 13);
        proof {
            assert(spec_parse(s@, pos as int, allow_prob) == spec_parse_zero(
                s@,
                ne as int,
                w,
                is_unsat,
            ));
            assert(s@.subrange(fs as int, ne as int).len() == ne - fs);
            assert(pos < ne);
        }
        parse_zero(s, ne, w, is_unsat, n)
    } else if range_matches(s, fs, ne, n, "pk", 2) || range_matches(s, fs, ne, n, "sha256", 6)
        || range_matches(s, fs, ne, n, "hash256", 7) || range_matches(s, fs, ne, n, "ripemd160", 9)
        || range_matches(s, fs, ne, n, "hash160", 7) {
        proof {
            assert("pk"@ =~= hd_pk());
            assert("sha256"@ =~= hd_sha256());
            assert("hash256"@ =~= hd_hash256());
            assert("ripemd160"@ =~= hd_ripemd160());
            assert("hash160"@ =~= hd_hash160());
            assert(string_leaf(head, Seq::empty()) is Some);
            assert(spec_parse(s@, pos as int, allow_prob) == spec_parse_strleaf(
                s@,
                ne as int,
                w,
                head,
            ));
        }
        let kind: u8 = if range_matches(s, fs, ne, n, "pk", 2) {
            0
        } else if range_matches(s, fs, ne, n, "sha256", 6) {
            1
        } else if range_matches(s, fs, ne, n, "hash256", 7) {
            2
        } else if range_matches(s, fs, ne, n, "ripemd160", 9) {
            3
        } else {
            4
        };
        parse_strleaf(s, ne, w, kind, Ghost(head), n)
    } else if range_matches(s, fs, ne, n, "after", 5) || range_matches(s, fs, ne, n, "older", 5) {
        proof {
            assert("after"@ =~= hd_after());
            assert("older"@ =~= hd_older());
        }
        let is_after = range_matches(s, fs, ne, n, "after", 5);
        proof {
            assert(spec_parse(s@, pos as int, allow_prob) == spec_parse_locktime(
                s@,
                ne as int,
                w,
                is_after,
            ));
        }
        parse_locktime(s, ne, w, is_after, n)
    } else if range_matches(s, fs, ne, n, "and", 3) || range_matches(s, fs, ne, n, "or", 2) {
        proof {
            reveal_strlit("and");
            reveal_strlit("or");
            assert("and"@ =~= hd_and());
            assert("or"@ =~= hd_or());
        }
        let is_and = range_matches(s, fs, ne, n, "and", 3);
        proof {
            assert(spec_parse(s@, pos as int, allow_prob) == spec_parse_binary(
                s@,
                pos as int,
                ne as int,
                w,
                head == hd_and(),
            ));
            assert(is_and == (head == hd_and()));
        }
        match parse_binary(s, pos, ne, w, is_and, n) {
            Err(e) => Err(e),
            Ok(t) => Ok(t),
        }
    } else if range_matches(s, fs, ne, n, "thresh", 6) {
        proof {
            reveal_strlit("thresh");
            assert("thresh"@ =~= hd_thresh());
        }
        proof {
            assert(spec_parse(s@, pos as int, allow_prob) == spec_parse_thresh(
                s@,
                pos as int,
                ne as int,
                w,
            ));
        }
        match parse_thresh(s, pos, ne, w, n) {
            Err(e) => Err(e),
            Ok(t) => Ok(t),
        }
    } else {
        Err(Error::Malformed)
    }
}



fn parse_zero(s: &str, ne: usize, w: usize, is_unsat: bool, n: usize) -> (r: Result<
    (usize, Policy, usize),
    Error,
>)
    requires
        n == s@.len(),
        ne <= n,
        0 < ne,
    ensures
        match spec_parse_zero(s@, ne as int, w, is_unsat) {
            Parsed::Found(ww, p, q) => r matches Ok(t) && t.0 == ww && t.1@ == p && t.2 == q && t.2
                <= n && ne <= t.2,
            Parsed::Fail(e) => r == Result::<(usize, Policy, usize), Error>::Err(e),
        },
{
    let p = if is_unsat {
        Policy::Unsatisfiable
    } else {
        Policy::Trivial
    };
    if ne < n && s.get_char(ne) == '(' {
        if ne + 1 < n && s.get_char(ne + 1) == ')' {
            Ok((w, p, ne + 2))
        } else {
            Err(Error::Malformed)
        }
    } else {
        Ok((w, p, ne))
    }
}

fn parse_strleaf(s: &str, ne: usize, w: usize, kind: u8, head: Ghost<Seq<char>>, n: usize) -> (r:
    Result<(usize, Policy, usize), Error>)
    requires
        n == s@.len(),
        ne <= n,
        kind == 0 ==> head@ == hd_pk(),
        kind == 1 ==> head@ == hd_sha256(),
        kind == 2 ==> head@ == hd_hash256(),
        kind == 3 ==> head@ == hd_ripemd160(),
        kind >= 4 ==> head@ == hd_hash160(),
    ensures
        match spec_parse_strleaf(s@, ne as int, w, head@) {
            Parsed::Found(ww, p, q) => r matches Ok(t) && t.0 == ww && t.1@ == p && t.2 == q && t.2
                <= n && ne < t.2,
            Parsed::Fail(e) => r == Result::<(usize, Policy, usize), Error>::Err(e),
        },
{
    if ne < n && s.get_char(ne) == '(' {
        let te = name_end_exec(s, ne + 1, n);
        if te < n && s.get_char(te) == ')' {
            let arg = s.substring_char(ne + 1, te).to_owned();
            let p = if kind == 0 {
                Policy::Key(arg)
            } else if kind == 1 {
                Policy::Sha256(arg)
            } else if kind == 2 {
                Policy::Hash256(arg)
            } else if kind == 3 {
                Policy::Ripemd160(arg)
            } else {
                Policy::Hash160(arg)
            };
            proof {
                assert(p@ == string_leaf(head@, s@.subrange(ne + 1, te as int)).unwrap());
            }
            Ok((w, p, te + 1))
        } else {
            Err(Error::Malformed)
        }
    } else {
        Err(Error::Malformed)
    }
}

fn parse_locktime(s: &str, ne: usize, w: usize, is_after: bool, n: usize) -> (r: Result<
    (usize, Policy, usize),
    Error,
>)
    requires
        n == s@.len(),
        ne <= n,
    ensures
        match spec_parse_locktime(s@, ne as int, w, is_after) {
            Parsed::Found(ww, p, q) => r matches Ok(t) && t.0 == ww && t.1@ == p && t.2 == q && t.2
                <= n && ne < t.2,
            Parsed::Fail(e) => r == Result::<(usize, Policy, usize), Error>::Err(e),
        },
{
    if ne < n && s.get_char(ne) == '(' {
        let te = name_end_exec(s, ne + 1, n);
        if te < n && s.get_char(te) == ')' {
            match parse_num32(s, ne + 1, te, n) {
                None => Err(Error::Malformed),
                Some(v) => {
                    if v >= 0x8000_0000 {
                        Err(Error::Policy(PolicyError::TimeTooFar))
                    } else if v == 0 {
                        Err(Error::Policy(PolicyError::ZeroTime))
                    } else if is_after {
                        Ok((w, Policy::After(v), te + 1))
                    } else {
                        Ok((w, Policy::Older(v), te + 1))
                    }
                },
            }
        } else {
            Err(Error::Malformed)
        }
    } else {
        Err(Error::Malformed)
    }
}

#[verifier::rlimit(100)]
#[verifier::spinoff_prover]
fn parse_binary(s: &str, pos: usize, ne: usize, w: usize, is_and: bool, n: usize) -> (r: Result<
    (usize, Policy, usize),
    Error,
>)
    requires
        n == s@.len(),
        pos <= ne <= n,
    ensures
        match spec_parse_binary(s@, pos as int, ne as int, w, is_and) {
            Parsed::Found(ww, p, q) => r matches Ok(t) && t.0 == ww && t.1@ == p && t.2 == q && pos
                < t.2 <= n,
            Parsed::Fail(e) => r == Result::<(usize, Policy, usize), Error>::Err(e),
        },
    decreases n - pos, 0int,
{
    if ne < n && s.get_char(ne) == '(' {
        match parse_expr(s, ne + 1, !is_and, n) {
            Err(e) => Err(e),
            Ok((w1, p1, q1)) => {
                if q1 < n && s.get_char(q1) == ',' {
                    match parse_expr(s, q1 + 1, !is_and, n) {
                        Err(e) => Err(e),
                        Ok((w2, p2, q2)) => {
                            if q2 < n && s.get_char(q2) == ')' {
                                if is_and {
                                    let mut subs: Vec<Policy> = Vec::new();
                                    subs.push(p1);
                                    subs.push(p2);
                                    let ghost gsubs = subs;
                                    let rp = Policy::And(subs);
                                    proof {
                                        assert(rp@ matches SpecPolicy::And(ss) && ss =~= pvs(
                                            gsubs,
                                        ));
                                        assert(pvs(gsubs) =~= seq![gsubs[0]@, gsubs[1]@]);
                                    }
                                    Ok((w, rp, q2 + 1))
                                } else {
                                    let mut subs: Vec<(usize, Policy)> = Vec::new();
                                    subs.push((w1, p1));
                                    subs.push((w2, p2));
                                    let ghost gsubs = subs;
                                    let rp = Policy::Or(subs);
                                    proof {
                                        assert(rp@ matches SpecPolicy::Or(ss) && ss =~= prs(
                                            gsubs,
                                        ));
                                        assert(prs(gsubs) =~= seq![
                                            (gsubs[0].0, gsubs[0].1@),
                                            (gsubs[1].0, gsubs[1].1@),
                                        ]);
                                    }
                                    Ok((w, rp, q2 + 1))
                                }
                            } else if q2 < n && s.get_char(q2) == ',' {
                                if is_and {
                                    Err(Error::Policy(PolicyError::NonBinaryArgAnd))
                                } else {
                                    Err(Error::Policy(PolicyError::NonBinaryArgOr))
                                }
                            } else {
                                Err(Error::Malformed)
                            }
                        },
                    }
                } else if q1 < n && s.get_char(q1) == ')' {
                    if is_and {
                        Err(Error::Policy(PolicyError::NonBinaryArgAnd))
                    } else {
                        Err(Error::Policy(PolicyError::NonBinaryArgOr))
                    }
                } else {
                    Err(Error::Malformed)
                }
            },
        }
    } else {
        Err(Error::Malformed)
    }
}

#[verifier::rlimit(100)]
#[verifier::spinoff_prover]
fn parse_thresh(s: &str, pos: usize, ne: usize, w: usize, n: usize) -> (r: Result<
    (usize, Policy, usize),
    Error,
>)
    requires
        n == s@.len(),
        pos <= ne <= n,
    ensures
        match spec_parse_thresh(s@, pos as int, ne as int, w) {
            Parsed::Found(ww, p, q) => r matches Ok(t) && t.0 == ww && t.1@ == p && t.2 == q && pos
                < t.2 <= n,
            Parsed::Fail(e) => r == Result::<(usize, Policy, usize), Error>::Err(e),
        },
    decreases n - pos, 0int,
{
    if ne < n && s.get_char(ne) == '(' {
        let te = name_end_exec(s, ne + 1, n);
        if te < n && s.get_char(te) == '(' {
            Err(Error::Policy(PolicyError::IncorrectThresh))
        } else {
            match parse_num32(s, ne + 1, te, n) {
                None => Err(Error::Malformed),
                Some(v) => {
                    match parse_args(s, te, n) {
                        Err(e) => Err(e),
                        Ok((subs, e)) => {
                            proof {
                                assert(pvs(subs).len() == subs@.len());
                            }
                            if v == 0 || v as usize > subs.len() {
                                Err(Error::Policy(PolicyError::IncorrectThresh))
                            } else {
                                let ghost gsubs = subs;
                                let rp = Policy::Threshold(v as usize, subs);
                                proof {
                                    assert(rp@ is Threshold);
                                    assert((rp@)->Threshold_0 == v as usize);
                                    assert((rp@)->Threshold_1 == pvs(gsubs));
                                    assert(spec_thresh_args(s@, te as int)
                                        matches ArgsParsed::Found(ss2, _e2) && pvs(gsubs) == ss2);
                                }
                                Ok((w, rp, e))
                            }
                        },
                    }
                },
            }
        }
    } else {
        Err(Error::Policy(PolicyError::IncorrectThresh))
    }
}

#[verifier::rlimit(100)]
#[verifier::spinoff_prover]
fn parse_args(s: &str, pos: usize, n: usize) -> (r: Result<(Vec<Policy>, usize), Error>)
    requires
        n == s@.len(),
        pos <= n,
    ensures
        match spec_thresh_args(s@, pos as int) {
            ArgsParsed::Found(subs, e) => r matches Ok(t) && pvs(t.0) == subs && t.1 == e && pos
                < t.1 <= n,
            ArgsParsed::Fail(e) => r == Result::<(Vec<Policy>, usize), Error>::Err(e),
        },
    decreases n - pos, 0int,
{
    if pos >= n {
        return Err(Error::Malformed);
    }
    let c = s.get_char(pos);
    if c == ')' {
        let v: Vec<Policy> = Vec::new();
        proof {
            assert(pvs(v) =~= Seq::<SpecPolicy>::empty());
        }
        Ok((v, pos + 1))
    } else if c == ',' {
        match parse_expr(s, pos + 1, false, n) {
            Err(e) => Err(e),
            Ok((_w, p, q)) => {
                match parse_args(s, q, n) {
                    Err(e) => Err(e),
                    Ok((rest, e)) => {
                        let mut out: Vec<Policy> = Vec::new();
                        out.push(p);
                        let ghost gp = out;
                        let mut rest2 = rest;
                        let ghost grest = rest2;
                        out.append(&mut rest2);
                        proof {
                            assert(pvs(out) =~= seq![gp[0]@] + pvs(grest));
                            assert(spec_thresh_args(s@, pos as int) matches ArgsParsed::Found(
                                subs,
                                _e2,
                            ) && subs =~= pvs(out));
                        }
                        Ok((out, e))
                    },
                }
            },
        }
    } else {
        Err(Error::Malformed)
    }
}

impl Policy {
    /// Parse a policy from its text. The input must consist of printable
    /// bytes; the first byte outside `[0x14, 0x7f]` is reported. The text
    /// must follow the grammar and span the whole input, and the parsed
    /// policy must not combine height-based and time-based locks.
    pub fn parse(s: &str) -> (r: Result<Policy, Error>)
        ensures
            spec_first_unprintable(s.spec_bytes(), 0) matches Some(b) ==> r == Result::<
                Policy,
                Error,
            >::Err(Error::Unprintable(b)),
            spec_first_unprintable(s.spec_bytes(), 0) is None ==> match spec_parse_text(s@) {
                Ok(p) => r matches Ok(q) && q@ == p,
                Err(e) => r == Result::<Policy, Error>::Err(e),
            },
    {
        let bytes = s.as_bytes();
        let nb = bytes.len();
        let mut i: usize = 0;
        while i < nb
            invariant
                nb == s.spec_bytes().len(),
                bytes@ == s.spec_bytes(),
                i <= nb,
                spec_first_unprintable(s.spec_bytes(), 0) == spec_first_unprintable(
                    s.spec_bytes(),
                    i as int,
                ),
            decreases nb - i,
        {
            let b = bytes[i];
            if b < 20 || b > 127 {
                return Err(Error::Unprintable(b));
            }
            i = i + 1;
        }
        let n = s.unicode_len();
        match parse_expr(s, 0, false, n) {
            Err(e) => Err(e),
            Ok((_w, p, q)) => {
                if q != n {
                    return Err(Error::Malformed);
                }
                match p.check_timelocks() {
                    Err(pe) => Err(Error::Policy(pe)),
                    Ok(()) => Ok(p),
                }
            },
        }
    }
}



/// The scan for a name's end stops at the first delimiter.
pub proof fn lemma_name_end_from(s: Seq<char>, pos: int, e: int)
    requires
        0 <= pos <= e <= s.len(),
        forall|i: int| pos <= i < e ==> is_name_char(#[trigger] s[i]),
        e == s.len() || !is_name_char(s[e]),
    ensures
        name_end(s, pos) == e,
    decreases e - pos,
{
    if pos < e {
        lemma_name_end_from(s, pos + 1, e);
    }
}

/// The scan for an `@` passes over a range without one.
pub proof fn lemma_first_at_none(s: Seq<char>, from: int, to: int)
    requires
        0 <= from,
        to <= s.len(),
        forall|i: int| from <= i < to ==> (#[trigger] s[i]) != '@',
    ensures
        first_at(s, from, to) == to,
    decreases to - from,
{
    if from < to {
        lemma_first_at_none(s, from + 1, to);
    }
}

/// Every character of a decimal spelling is a digit.
pub proof fn lemma_dec_digits(w: int)
    requires
        w >= 0,
    ensures
        forall|i: int| 0 <= i < spec_dec(w).len() ==> is_digit_char(#[trigger] spec_dec(w)[i]),
        spec_dec(w).len() >= 1,
    decreases w,
{
    if w < 10 {
        assert(is_digit_char(digit_char(w)));
    } else {
        lemma_dec_digits(w / 10);
        assert(is_digit_char(digit_char(w % 10)));
        assert(forall|i: int|
            0 <= i < spec_dec(w / 10).len() ==> spec_dec(w)[i] == #[trigger] spec_dec(w / 10)[i]);
    }
}

/// The scale of a spelling: ten to the number of its digits.
pub open spec fn dec_scale(w: int) -> int
    decreases w,
{
    if w < 10 {
        10
    } else {
        10 * dec_scale(w / 10)
    }
}

/// Parsing digit runs composes: the first run's value feeds the second.
pub proof fn lemma_parse_num_append(s: Seq<char>, from: int, mid: int, to: int, acc: int)
    requires
        0 <= from <= mid <= to <= s.len(),
        parse_num_rec(s, from, mid, acc) is Some,
    ensures
        parse_num_rec(s, from, to, acc) == parse_num_rec(
            s,
            mid,
            to,
            parse_num_rec(s, from, mid, acc).unwrap(),
        ),
    decreases mid - from,
{
    if from < mid {
        lemma_parse_num_append(s, from + 1, mid, to, acc * 10 + digit_val(s[from]));
    }
}

/// A decimal spelling parses back to its number, continuing any prefix.
pub proof fn lemma_parse_num_dec(s: Seq<char>, from: int, to: int, w: int, acc: int)
    requires
        0 <= from <= to <= s.len(),
        w >= 0,
        acc >= 0,
        s.subrange(from, to) == spec_dec(w),
    ensures
        parse_num_rec(s, from, to, acc) == Some(acc * dec_scale(w) + w),
    decreases w,
{
    lemma_dec_digits(w);
    if w < 10 {
        assert(to - from == 1);
        assert(s[from] == spec_dec(w)[0]);
        assert(s[from] == digit_char(w));
        assert(digit_val(digit_char(w)) == w);
        assert(parse_num_rec(s, from, to, acc) == parse_num_rec(s, from + 1, to, acc * 10 + w));
    } else {
        let mid = to - 1;
        assert(s.subrange(from, mid) =~= spec_dec(w / 10)) by {
            assert(forall|i: int|
                0 <= i < spec_dec(w / 10).len() ==> spec_dec(w)[i] == #[trigger] spec_dec(
                    w / 10,
                )[i]);
            assert(forall|i: int|
                from <= i < mid ==> s[i] == #[trigger] s.subrange(from, to)[i - from]);
        }
        lemma_parse_num_dec(s, from, mid, w / 10, acc);
        lemma_parse_num_append(s, from, mid, to, acc);
        assert(s[mid] == spec_dec(w)[to - 1 - from]);
        assert(spec_dec(w)[spec_dec(w).len() - 1] == digit_char(w % 10));
        assert(digit_val(digit_char(w % 10)) == w % 10);
        let v = acc * dec_scale(w / 10) + w / 10;
        assert(parse_num_rec(s, mid, to, v) == parse_num_rec(s, to, to, v * 10 + w % 10));
        assert(v * 10 + w % 10 == acc * dec_scale(w) + w) by (nonlinear_arith)
            requires
                v == acc * dec_scale(w / 10) + w / 10,
                dec_scale(w) == 10 * dec_scale(w / 10),
                w >= 10,
        ;
    }
}

/// The scale is positive and bounds the number it scales.
pub proof fn lemma_dec_scale(w: int)
    requires
        w >= 0,
    ensures
        dec_scale(w) >= 10,
        w < dec_scale(w),
    decreases w,
{
    if w >= 10 {
        lemma_dec_scale(w / 10);
        assert(w < dec_scale(w)) by (nonlinear_arith)
            requires
                w >= 10,
                w / 10 < dec_scale(w / 10),
                dec_scale(w) == 10 * dec_scale(w / 10),
        ;
    }
}

/// A policy without children: its text involves no nesting.
pub open spec fn is_leaf_policy(p: SpecPolicy) -> bool {
    match p {
        SpecPolicy::And(_) => false,
        SpecPolicy::Or(_) => false,
        SpecPolicy::Threshold(_k, _s) => false,
        _ => true,
    }
}

/// The argument text a leaf carries, empty for the lock and bare heads.
pub open spec fn leaf_arg(p: SpecPolicy) -> Seq<char> {
    match p {
        SpecPolicy::Key(k) => k,
        SpecPolicy::Sha256(h) => h,
        SpecPolicy::Hash256(h) => h,
        SpecPolicy::Ripemd160(h) => h,
        SpecPolicy::Hash160(h) => h,
        _ => Seq::empty(),
    }
}

#[verifier::rlimit(100)]
#[verifier::spinoff_prover]
proof fn lemma_roundtrip_bare(p: SpecPolicy)
    requires
        p is Unsatisfiable || p is Trivial,
        crate::policy::spec_struct_valid(p) is Ok,
        forall|i: int| 0 <= i < leaf_arg(p).len() ==> is_name_char(#[trigger] leaf_arg(p)[i]),
    ensures
        spec_parse(spec_fmt(p), 0, false) == Parsed::Found(1usize, p, spec_fmt(p).len() as int),
{
    let s = spec_fmt(p);
    let fl = s.len() as int;
    match p {
        SpecPolicy::Unsatisfiable | SpecPolicy::Trivial => {
            assert forall|i: int| 0 <= i < fl implies is_name_char(#[trigger] s[i]) by {
                assert(s[i] == spec_fmt(p)[i]);
            }
            lemma_name_end_from(s, 0, fl);
            lemma_first_at_none(s, 0, fl);
            assert(s.subrange(0, fl) =~= spec_fmt(p));
        },
        _ => {},
    }
}

#[verifier::rlimit(100)]
#[verifier::spinoff_prover]
proof fn lemma_roundtrip_strleaf(p: SpecPolicy)
    requires
        p is Key || p is Sha256 || p is Hash256 || p is Ripemd160 || p is Hash160,
        crate::policy::spec_struct_valid(p) is Ok,
        forall|i: int| 0 <= i < leaf_arg(p).len() ==> is_name_char(#[trigger] leaf_arg(p)[i]),
    ensures
        spec_parse(spec_fmt(p), 0, false) == Parsed::Found(1usize, p, spec_fmt(p).len() as int),
{
    let s = spec_fmt(p);
    let fl = s.len() as int;
    match p {
        SpecPolicy::Key(_) | SpecPolicy::Sha256(_) | SpecPolicy::Hash256(_)
            | SpecPolicy::Ripemd160(_) | SpecPolicy::Hash160(_) => {
            let arg = leaf_arg(p);
            let hl: int = match p {
                SpecPolicy::Key(_) => 2,
                SpecPolicy::Sha256(_) => 6,
                SpecPolicy::Hash256(_) => 7,
                SpecPolicy::Ripemd160(_) => 9,
                _ => 7,
            };
            let whole: Seq<char> = match p {
                SpecPolicy::Key(k) => nm_pk() + k + seq![')'],
                SpecPolicy::Sha256(h) => nm_sha256() + h + seq![')'],
                SpecPolicy::Hash256(h) => nm_hash256() + h + seq![')'],
                SpecPolicy::Ripemd160(h) => nm_ripemd160() + h + seq![')'],
                _ => nm_hash160() + leaf_arg(p) + seq![')'],
            };
            assert(s == whole);
            let hd = s.subrange(0, hl);
            match p {
                SpecPolicy::Key(_) => {
                    assert(hd =~= hd_pk());
                },
                SpecPolicy::Sha256(_) => {
                    assert(hd =~= hd_sha256());
                },
                SpecPolicy::Hash256(_) => {
                    assert(hd =~= hd_hash256());
                },
                SpecPolicy::Ripemd160(_) => {
                    assert(hd =~= hd_ripemd160());
                },
                _ => {
                    assert(hd =~= hd_hash160());
                },
            }
            assert forall|i: int| 0 <= i < hl implies is_name_char(#[trigger] s[i]) by {
                assert(s[i] == hd[i]);
            }
            assert(s[hl] == '(');
            lemma_name_end_from(s, 0, hl);
            lemma_first_at_none(s, 0, hl);
            let te = hl + 1 + arg.len();
            assert(s.subrange(hl + 1, te) =~= arg);
            assert forall|i: int| hl + 1 <= i < te implies is_name_char(#[trigger] s[i]) by {
                assert(s[i] == arg[i - hl - 1]);
            }
            assert(s[te] == ')');
            lemma_name_end_from(s, hl + 1, te);
            assert(hd != nm_unsat() && hd != nm_trivial());
            assert(te + 1 == fl);
        },
        _ => {},
    }
}

#[verifier::rlimit(100)]
#[verifier::spinoff_prover]
proof fn lemma_roundtrip_lock(p: SpecPolicy)
    requires
        p is After || p is Older,
        crate::policy::spec_struct_valid(p) is Ok,
        forall|i: int| 0 <= i < leaf_arg(p).len() ==> is_name_char(#[trigger] leaf_arg(p)[i]),
    ensures
        spec_parse(spec_fmt(p), 0, false) == Parsed::Found(1usize, p, spec_fmt(p).len() as int),
{
    let s = spec_fmt(p);
    let fl = s.len() as int;
    match p {
        SpecPolicy::After(_) | SpecPolicy::Older(_) => {
            let num: int = match p {
                SpecPolicy::After(n) => n as int,
                _ => p->Older_0 as int,
            };
            let hl: int = 5;
            lemma_dec_digits(num);
            let whole: Seq<char> = match p {
                SpecPolicy::After(_) => nm_after() + spec_dec(num) + seq![')'],
                _ => nm_older() + spec_dec(num) + seq![')'],
            };
            assert(s == whole);
            let hd = s.subrange(0, hl);
            match p {
                SpecPolicy::After(_) => {
                    assert(hd =~= hd_after());
                },
                _ => {
                    assert(hd =~= hd_older());
                },
            }
            assert forall|i: int| 0 <= i < hl implies is_name_char(#[trigger] s[i]) by {
                assert(s[i] == hd[i]);
            }
            assert(s[hl] == '(');
            lemma_name_end_from(s, 0, hl);
            lemma_first_at_none(s, 0, hl);
            let te = hl + 1 + spec_dec(num).len();
            assert(s.subrange(hl + 1, te) =~= spec_dec(num));
            assert forall|i: int| hl + 1 <= i < te implies is_name_char(#[trigger] s[i]) by {
                assert(s[i] == spec_dec(num)[i - hl - 1]);
                assert(is_digit_char(spec_dec(num)[i - hl - 1]));
            }
            assert(s[te] == ')');
            lemma_name_end_from(s, hl + 1, te);
            lemma_parse_num_dec(s, hl + 1, te, num, 0);
            lemma_dec_scale(num);
            assert(hd != nm_unsat() && hd != nm_trivial());
            assert(string_leaf(hd, Seq::empty()) is None);
            assert(te + 1 == fl);
        },
        _ => {},
    }
}

/// Round trip on childless policies: printing a valid leaf whose key or
/// hash avoids the delimiters and parsing the text back yields the leaf
/// itself, spanning the whole text.
pub proof fn lemma_parse_roundtrip_leaf(p: SpecPolicy)
    requires
        is_leaf_policy(p),
        crate::policy::spec_struct_valid(p) is Ok,
        forall|i: int| 0 <= i < leaf_arg(p).len() ==> is_name_char(#[trigger] leaf_arg(p)[i]),
    ensures
        spec_parse(spec_fmt(p), 0, false) == Parsed::Found(1usize, p, spec_fmt(p).len() as int),
{
    match p {
        SpecPolicy::Unsatisfiable | SpecPolicy::Trivial => lemma_roundtrip_bare(p),
        SpecPolicy::Key(_) | SpecPolicy::Sha256(_) | SpecPolicy::Hash256(_)
            | SpecPolicy::Ripemd160(_) | SpecPolicy::Hash160(_) => lemma_roundtrip_strleaf(p),
        SpecPolicy::After(_) | SpecPolicy::Older(_) => lemma_roundtrip_lock(p),
        _ => {},
    }
}

} // verus!
