use vstd::prelude::*;

verus! {

/// The XOR of all words of `s` (0 for none).
pub open spec fn xor_all(s: Seq<u32>) -> u32
    decreases s.len(),
{
    if s.len() == 0 {
        0
    } else {
        xor_all(s.drop_last()) ^ s.last()
    }
}

/// Every word of `s` XOR-ed with the mask `m`.
pub open spec fn mask_all(s: Seq<u32>, m: u32) -> Seq<u32> {
    s.map_values(|x: u32| x ^ m)
}

/// The XOR of a non-empty sequence is its first word XOR the XOR of the rest.
pub proof fn lemma_xor_all_front(s: Seq<u32>)
    requires
        s.len() >= 1,
    ensures
        xor_all(s) == s[0] ^ xor_all(s.subrange(1, s.len() as int)),
    decreases s.len(),
{
    let n = s.len() as int;
    if n == 1 {
        assert(s.drop_last() =~= Seq::<u32>::empty());
        assert(s.subrange(1, 1) =~= Seq::<u32>::empty());
        let a = s[0];
        assert(0u32 ^ a == a ^ 0u32) by (bit_vector);
    } else {
        let d = s.drop_last();
        lemma_xor_all_front(d);
        assert(d.subrange(1, n - 1) =~= s.subrange(1, n).drop_last());
        let a = s[0];
        let x = xor_all(d.subrange(1, n - 1));
        let l = s.last();
        assert((a ^ x) ^ l == a ^ (x ^ l)) by (bit_vector);
    }
}

/// A set of shares whose first share is the secret XOR the others
/// merges back to the secret.
pub proof fn lemma_merge_of_split(secret: u32, shares: Seq<u32>)
    requires
        shares.len() >= 1,
        shares[0] == secret ^ xor_all(shares.subrange(1, shares.len() as int)),
    ensures
        xor_all(shares) == secret,
{
    lemma_xor_all_front(shares);
    let x = xor_all(shares.subrange(1, shares.len() as int));
    assert((secret ^ x) ^ x == secret) by (bit_vector);
}

/// XOR-ing one mask into every share of an even number of shares leaves
/// their merge unchanged.
pub proof fn lemma_refresh_even(shares: Seq<u32>, m: u32)
    requires
        shares.len() % 2 == 0,
    ensures
        xor_all(mask_all(shares, m)) == xor_all(shares),
    decreases shares.len(),
{
    let n = shares.len() as int;
    if n > 0 {
        let rest = shares.subrange(0, n - 2);
        lemma_refresh_even(rest, m);
        let ms = mask_all(shares, m);
        assert(ms.drop_last().drop_last() =~= mask_all(rest, m));
        assert(shares.drop_last().drop_last() =~= rest);
        let a = xor_all(rest);
        let x = shares[n - 2];
        let y = shares[n - 1];
        assert(ms[n - 2] == x ^ m && ms[n - 1] == y ^ m);
        assert(xor_all(ms) == xor_all(ms.drop_last()) ^ ms[n - 1]);
        assert(xor_all(ms.drop_last()) == xor_all(ms.drop_last().drop_last()) ^ ms[n - 2]);
        assert(xor_all(shares.drop_last()) == xor_all(shares.drop_last().drop_last()) ^ x);
        assert((a ^ (x ^ m)) ^ (y ^ m) == (a ^ x) ^ y) by (bit_vector);
    } else {
        assert(mask_all(shares, m) =~= shares);
    }
}

/// Splits `s` into `n` shares whose XOR is `s`: shares `1..n` are drawn
/// from `f`, share 0 is `s` XOR the others.
pub fn split<F: Fn() -> u32>(s: u32, n: usize, f: F) -> (r: Vec<u32>)
    requires
        n >= 1,
        f.requires(()),
    ensures
        r@.len() == n,
        forall|i: int| 1 <= i < n ==> f.ensures((), #[trigger] r@[i]),
        r@[0] == s ^ xor_all(r@.subrange(1, n as int)),
        xor_all(r@) == s,
{
    let mut ret: Vec<u32> = Vec::new();
    let mut i: usize = 0;
    while i < n
        invariant
            i <= n,
            ret@.len() == i,
            f.requires(()),
            forall|j: int| 0 <= j < i ==> f.ensures((), #[trigger] ret@[j]),
        decreases n - i,
    {
        let v = f();
        ret.push(v);
        i = i + 1;
    }
    let mut acc: u32 = 0;
    let mut k: usize = 1;
    while k < n
        invariant
            1 <= k <= n,
            ret@.len() == n,
            acc == xor_all(ret@.subrange(1, k as int)),
        decreases n - k,
    {
        assert(ret@.subrange(1, k as int + 1).drop_last() =~= ret@.subrange(1, k as int));
        acc = acc ^ ret[k];
        k = k + 1;
    }
    let ghost before = ret@;
    ret.set(0, s ^ acc);
    assert(ret@.subrange(1, n as int) =~= before.subrange(1, n as int));
    proof {
        lemma_merge_of_split(s, ret@);
    }
    ret
}

/// The XOR of all shares.
pub fn merge(shares: &[u32]) -> (r: u32)
    ensures
        r == xor_all(shares@),
{
    let mut ret: u32 = 0;
    let mut i: usize = 0;
    while i < shares.len()
        invariant
            i <= shares@.len(),
            ret == xor_all(shares@.subrange(0, i as int)),
        decreases shares@.len() - i,
    {
        assert(shares@.subrange(0, i as int + 1).drop_last() =~= shares@.subrange(0, i as int));
        ret = ret ^ shares[i];
        i = i + 1;
    }
    assert(shares@.subrange(0, shares@.len() as int) =~= shares@);
    ret
}

} // verus!
