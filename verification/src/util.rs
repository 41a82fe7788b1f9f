//! Byte-size accounting for witness data.

use vstd::prelude::*;

verus! {

/// The length of the Bitcoin variable-length integer encoding of `n`:
/// one byte up to `0xfc`, then 3, 5 or 9 bytes as `n` grows.
pub open spec fn spec_varint_len(n: int) -> int {
    if n <= 0xfc {
        1
    } else if n <= 0xffff {
        3
    } else if n <= 0xffff_ffff {
        5
    } else {
        9
    }
}

/// Relies on `bitcoin::VarInt::len`: the encoded length is 1, 3, 5 or 9
/// bytes according to the documented thresholds.
#[verifier::external_body]
pub fn varint_len(n: usize) -> (r: usize)
    ensures
        r == spec_varint_len(n as int),
{
    bitcoin::VarInt(n as u64).len()
}

/// The sum of the lengths of the first `i` witness elements.
pub open spec fn spec_wit_sum(wit: Seq<Vec<u8>>, i: int) -> int
    decreases i,
{
    if i <= 0 || i > wit.len() {
        0
    } else {
        spec_wit_sum(wit, i - 1) + wit[i - 1].len()
    }
}

/// The total serialized size of a witness: the bytes of all elements plus
/// the length prefix for the element count.
pub fn witness_size(wit: &Vec<Vec<u8>>) -> (r: usize)
    requires
        spec_wit_sum(wit@, wit@.len() as int) + spec_varint_len(wit@.len() as int) <= usize::MAX,
    ensures
        r == spec_wit_sum(wit@, wit@.len() as int) + spec_varint_len(wit@.len() as int),
{
    let mut total: usize = 0;
    let n = wit.len();
    for i in 0..n
        invariant
            n == wit.len(),
            total == spec_wit_sum(wit@, i as int),
            spec_wit_sum(wit@, n as int) + spec_varint_len(n as int) <= usize::MAX,
        decreases n - i,
    {
        proof {
            lemma_wit_sum_mono(wit@, i + 1, n as int);
            assert(spec_varint_len(n as int) >= 1);
        }
        let l = wit[i].len();
        total = total + l;
    }
    proof {
        assert(spec_varint_len(n as int) <= 9);
    }
    let pref = varint_len(n);
    total + pref
}

proof fn lemma_wit_sum_mono(wit: Seq<Vec<u8>>, m: int, n: int)
    requires
        0 <= m <= n <= wit.len(),
    ensures
        spec_wit_sum(wit, m) <= spec_wit_sum(wit, n),
    decreases n - m,
{
    if m < n {
        lemma_wit_sum_mono(wit, m + 1, n);
    }
}

} // verus!
