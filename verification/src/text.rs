use vstd::prelude::*;
use vstd::utf8::*;

verus! {

/// `a` and `b` agree on their first `k` bytes.
pub open spec fn common_prefix(a: Seq<u8>, b: Seq<u8>, k: int) -> bool {
    &&& 0 <= k <= a.len()
    &&& k <= b.len()
    &&& forall|j: int| 0 <= j < k ==> a[j] == b[j]
}

/// `k` is a place at which `a` is seen to come before `b`: either `a` ends
/// there and `b` goes on, or both go on and `a` holds the smaller byte.
pub open spec fn splits_before(a: Seq<u8>, b: Seq<u8>, k: int) -> bool {
    &&& common_prefix(a, b, k)
    &&& (k == a.len() && k < b.len()) || (k < a.len() && k < b.len() && a[k] < b[k])
}

/// Strict lexicographic order on byte sequences.
pub open spec fn bytes_lt(a: Seq<u8>, b: Seq<u8>) -> bool {
    exists|k: int| splits_before(a, b, k)
}

/// Strict order on texts: the lexicographic order of their UTF-8 encodings,
/// which is the order of `str` and `String`.
pub open spec fn text_lt(a: Seq<char>, b: Seq<char>) -> bool {
    bytes_lt(encode_utf8(a), encode_utf8(b))
}

pub proof fn lemma_bytes_lt_irreflexive(a: Seq<u8>)
    ensures
        !bytes_lt(a, a),
{
}

pub proof fn lemma_bytes_lt_asymmetric(a: Seq<u8>, b: Seq<u8>)
    requires
        bytes_lt(a, b),
    ensures
        !bytes_lt(b, a),
{
    let k = choose|k: int| splits_before(a, b, k);
    if bytes_lt(b, a) {
        let m = choose|m: int| splits_before(b, a, m);
        if k < m {
            assert(b[k] == a[k]);
        } else if m < k {
            assert(a[m] == b[m]);
        }
    }
}

pub proof fn lemma_bytes_lt_transitive(a: Seq<u8>, b: Seq<u8>, c: Seq<u8>)
    requires
        bytes_lt(a, b),
        bytes_lt(b, c),
    ensures
        bytes_lt(a, c),
{
    let k = choose|k: int| splits_before(a, b, k);
    let m = choose|m: int| splits_before(b, c, m);
    let n = if k <= m { k } else { m };
    assert forall|j: int| 0 <= j < n implies a[j] == c[j] by {
        assert(a[j] == b[j]);
        assert(b[j] == c[j]);
    }
    if k < m {
        assert(b[k] == c[k]);
    } else if m < k {
        assert(a[m] == b[m]);
    }
    assert(splits_before(a, c, n));
}

/// Walks both sequences from `k` to the first place where they differ.
proof fn lemma_bytes_compare_from(a: Seq<u8>, b: Seq<u8>, k: int)
    requires
        common_prefix(a, b, k),
    ensures
        a == b || bytes_lt(a, b) || bytes_lt(b, a),
    decreases a.len() - k,
{
    if k == a.len() && k == b.len() {
        assert(a =~= b);
    } else if k == a.len() {
        assert(splits_before(a, b, k));
    } else if k == b.len() {
        assert(splits_before(b, a, k));
    } else if a[k] < b[k] {
        assert(splits_before(a, b, k));
    } else if b[k] < a[k] {
        assert(splits_before(b, a, k));
    } else {
        lemma_bytes_compare_from(a, b, k + 1);
    }
}

pub proof fn lemma_bytes_lt_total(a: Seq<u8>, b: Seq<u8>)
    ensures
        a == b || bytes_lt(a, b) || bytes_lt(b, a),
{
    lemma_bytes_compare_from(a, b, 0);
}

/// Two texts with the same encoding are the same text.
pub proof fn lemma_encoding_injective(a: Seq<char>, b: Seq<char>)
    requires
        encode_utf8(a) == encode_utf8(b),
    ensures
        a == b,
{
    encode_utf8_decode_utf8(a);
    encode_utf8_decode_utf8(b);
}

/// `text_lt` is a strict total order on texts.
pub proof fn lemma_text_lt_order(a: Seq<char>, b: Seq<char>, c: Seq<char>)
    ensures
        !text_lt(a, a),
        text_lt(a, b) ==> !text_lt(b, a),
        text_lt(a, b) && text_lt(b, c) ==> text_lt(a, c),
        a == b || text_lt(a, b) || text_lt(b, a),
{
    lemma_bytes_lt_irreflexive(encode_utf8(a));
    if text_lt(a, b) {
        lemma_bytes_lt_asymmetric(encode_utf8(a), encode_utf8(b));
        if text_lt(b, c) {
            lemma_bytes_lt_transitive(encode_utf8(a), encode_utf8(b), encode_utf8(c));
        }
    }
    lemma_bytes_lt_total(encode_utf8(a), encode_utf8(b));
    if encode_utf8(a) == encode_utf8(b) {
        lemma_encoding_injective(a, b);
    }
}

/// How two texts stand to each other in the order of `text_lt`.
#[derive(Clone, Copy, Debug, PartialEq, Eq, Structural)]
pub enum Rank {
    Before,
    Same,
    After,
}

/// The rank that the order of `text_lt` gives to `a` against `b`.
pub open spec fn rank_of(a: Seq<char>, b: Seq<char>) -> Rank {
    if text_lt(a, b) {
        Rank::Before
    } else if a == b {
        Rank::Same
    } else {
        Rank::After
    }
}

/// Compares two texts byte by byte.
pub fn rank_text(a: &str, b: &str) -> (r: Rank)
    ensures
        r == rank_of(a@, b@),
        r == Rank::After ==> text_lt(b@, a@),
{
    let x = a.as_bytes();
    let y = b.as_bytes();
    let ghost xs = encode_utf8(a@);
    let ghost ys = encode_utf8(b@);
    let mut i: usize = 0;
    while i < x.len() && i < y.len()
        invariant
            x@ == xs,
            y@ == ys,
            xs == encode_utf8(a@),
            ys == encode_utf8(b@),
            common_prefix(xs, ys, i as int),
        decreases x.len() - i,
    {
        if x[i] < y[i] {
            assert(splits_before(xs, ys, i as int));
            return Rank::Before;
        }
        if y[i] < x[i] {
            assert(splits_before(ys, xs, i as int));
            proof {
                lemma_text_lt_order(b@, a@, b@);
            }
            return Rank::After;
        }
        i += 1;
    }
    if i < y.len() {
        assert(splits_before(xs, ys, i as int));
        Rank::Before
    } else if i < x.len() {
        assert(splits_before(ys, xs, i as int));
        proof {
            lemma_text_lt_order(b@, a@, b@);
        }
        Rank::After
    } else {
        proof {
            assert(xs =~= ys);
            lemma_encoding_injective(a@, b@);
        }
        Rank::Same
    }
}

} // verus!
