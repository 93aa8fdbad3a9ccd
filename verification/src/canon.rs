use vstd::prelude::*;

use crate::link::{lemma_link_lt_order, link_lt, LinkModel};

verus! {

/// Each link comes before every later one: the sequence is in order and holds
/// no link twice.
pub open spec fn strictly_sorted(s: Seq<LinkModel>) -> bool {
    forall|i: int, j: int| 0 <= i < j < s.len() ==> link_lt(s[i], s[j])
}

/// Each link is not after any later one: the sequence is in order.
pub open spec fn sorted(s: Seq<LinkModel>) -> bool {
    forall|i: int, j: int| 0 <= i < j < s.len() ==> !link_lt(s[j], s[i])
}

/// Both sequences hold the same links, how often and where does not count.
pub open spec fn same_links(a: Seq<LinkModel>, b: Seq<LinkModel>) -> bool {
    forall|l: LinkModel|
        #![trigger a.contains(l)]
        #![trigger b.contains(l)]
        a.contains(l) <==> b.contains(l)
}

/// A strictly sorted sequence with `l` put at its place, unless it holds `l`.
pub open spec fn insert_link(s: Seq<LinkModel>, l: LinkModel) -> Seq<LinkModel>
    decreases s.len(),
{
    if s.len() == 0 {
        seq![l]
    } else if s.last() == l {
        s
    } else if link_lt(s.last(), l) {
        s.push(l)
    } else {
        insert_link(s.drop_last(), l).push(s.last())
    }
}

/// The canonical form of a sequence of links: the same links, each once, in
/// the order of `link_lt`.
pub open spec fn canonical(s: Seq<LinkModel>) -> Seq<LinkModel>
    decreases s.len(),
{
    if s.len() == 0 {
        Seq::empty()
    } else {
        insert_link(canonical(s.drop_last()), s.last())
    }
}

/// Inserting keeps the order and adds exactly the inserted link.
pub proof fn lemma_insert_link(s: Seq<LinkModel>, l: LinkModel)
    requires
        strictly_sorted(s),
    ensures
        strictly_sorted(insert_link(s, l)),
        forall|x: LinkModel|
            #![trigger insert_link(s, l).contains(x)]
            #![trigger s.contains(x)]
            insert_link(s, l).contains(x) <==> (s.contains(x) || x == l),
    decreases s.len(),
{
    let r = insert_link(s, l);
    if s.len() == 0 {
        assert(r[0] == l);
        assert forall|x: LinkModel| r.contains(x) <==> (s.contains(x) || x == l) by {
            if r.contains(x) {
                let i = choose|i: int| 0 <= i < r.len() && r[i] == x;
            }
        }
    } else if s.last() == l {
        assert(s[s.len() - 1] == l);
    } else if link_lt(s.last(), l) {
        assert forall|i: int, j: int| 0 <= i < j < r.len() implies link_lt(r[i], r[j]) by {
            if j == s.len() && i < s.len() - 1 {
                lemma_link_lt_order(s[i], s.last(), l);
            }
        }
        assert forall|x: LinkModel| r.contains(x) <==> (s.contains(x) || x == l) by {
            if r.contains(x) {
                let i = choose|i: int| 0 <= i < r.len() && r[i] == x;
                if i < s.len() {
                    assert(s[i] == x);
                }
            }
            if s.contains(x) {
                let i = choose|i: int| 0 <= i < s.len() && s[i] == x;
                assert(r[i] == x);
            }
            if x == l {
                assert(r[s.len() as int] == x);
            }
        }
    } else {
        let front = s.drop_last();
        let last = s.last();
        let r0 = insert_link(front, l);
        assert(strictly_sorted(front)) by {
            assert forall|i: int, j: int| 0 <= i < j < front.len() implies link_lt(
                front[i],
                front[j],
            ) by {
                assert(front[i] == s[i] && front[j] == s[j]);
            }
        }
        lemma_insert_link(front, l);
        lemma_link_lt_order(last, l, last);
        assert(link_lt(l, last));
        assert forall|i: int, j: int| 0 <= i < j < r.len() implies link_lt(r[i], r[j]) by {
            if j == r0.len() {
                assert(r0.contains(r0[i]));
                if front.contains(r0[i]) {
                    let k = choose|k: int| 0 <= k < front.len() && front[k] == r0[i];
                    assert(s[k] == r0[i]);
                }
            } else {
                assert(r[i] == r0[i] && r[j] == r0[j]);
            }
        }
        assert forall|x: LinkModel| r.contains(x) <==> (s.contains(x) || x == l) by {
            if r.contains(x) {
                let i = choose|i: int| 0 <= i < r.len() && r[i] == x;
                if i < r0.len() {
                    assert(r0[i] == x);
                    assert(r0.contains(x));
                    if front.contains(x) {
                        let k = choose|k: int| 0 <= k < front.len() && front[k] == x;
                        assert(s[k] == x);
                    }
                } else {
                    assert(s[s.len() - 1] == x);
                }
            }
            if s.contains(x) {
                let i = choose|i: int| 0 <= i < s.len() && s[i] == x;
                if i < front.len() {
                    assert(front[i] == x);
                    assert(front.contains(x));
                    assert(r0.contains(x));
                    let k = choose|k: int| 0 <= k < r0.len() && r0[k] == x;
                    assert(r[k] == x);
                } else {
                    assert(r[r0.len() as int] == x);
                }
            }
            if x == l {
                assert(r0.contains(x));
                let k = choose|k: int| 0 <= k < r0.len() && r0[k] == x;
                assert(r[k] == x);
            }
        }
    }
}

/// The canonical form is strictly sorted and holds the same links.
pub proof fn lemma_canonical(s: Seq<LinkModel>)
    ensures
        strictly_sorted(canonical(s)),
        same_links(canonical(s), s),
    decreases s.len(),
{
    if s.len() > 0 {
        let front = s.drop_last();
        lemma_canonical(front);
        lemma_insert_link(canonical(front), s.last());
        assert forall|x: LinkModel| canonical(s).contains(x) <==> s.contains(x) by {
            if s.contains(x) {
                let i = choose|i: int| 0 <= i < s.len() && s[i] == x;
                if i < front.len() {
                    assert(front[i] == x);
                    assert(front.contains(x));
                }
            }
            if front.contains(x) {
                let i = choose|i: int| 0 <= i < front.len() && front[i] == x;
                assert(s[i] == x);
            }
            assert(s[s.len() - 1] == s.last());
        }
    } else {
        assert forall|x: LinkModel| canonical(s).contains(x) <==> s.contains(x) by {}
    }
}

/// Two strictly sorted sequences that hold the same links are equal.
pub proof fn lemma_sorted_unique(a: Seq<LinkModel>, b: Seq<LinkModel>)
    requires
        strictly_sorted(a),
        strictly_sorted(b),
        same_links(a, b),
    ensures
        a == b,
    decreases a.len(),
{
    if a.len() == 0 {
        if b.len() > 0 {
            assert(b.contains(b[0]));
            assert(a.contains(b[0]));
        }
        assert(a =~= b);
    } else {
        assert(a.contains(a[0]));
        assert(b.contains(a[0]));
        let al = a.last();
        let bl = b.last();
        assert(a.contains(al)) by {
            assert(a[a.len() - 1] == al);
        }
        assert(b.contains(bl)) by {
            assert(b[b.len() - 1] == bl);
        }
        let k = choose|k: int| 0 <= k < b.len() && b[k] == al;
        let m = choose|m: int| 0 <= m < a.len() && a[m] == bl;
        lemma_link_lt_order(al, bl, al);
        assert(al == bl);
        let a0 = a.drop_last();
        let b0 = b.drop_last();
        assert(strictly_sorted(a0)) by {
            assert forall|i: int, j: int| 0 <= i < j < a0.len() implies link_lt(a0[i], a0[j]) by {
                assert(a0[i] == a[i] && a0[j] == a[j]);
            }
        }
        assert(strictly_sorted(b0)) by {
            assert forall|i: int, j: int| 0 <= i < j < b0.len() implies link_lt(b0[i], b0[j]) by {
                assert(b0[i] == b[i] && b0[j] == b[j]);
            }
        }
        assert forall|x: LinkModel| a0.contains(x) <==> b0.contains(x) by {
            lemma_link_lt_order(x, al, x);
            if a0.contains(x) {
                let i = choose|i: int| 0 <= i < a0.len() && a0[i] == x;
                assert(a[i] == x);
                assert(a.contains(x));
                assert(link_lt(x, al));
                let j = choose|j: int| 0 <= j < b.len() && b[j] == x;
                assert(b0[j] == x);
            }
            if b0.contains(x) {
                let i = choose|i: int| 0 <= i < b0.len() && b0[i] == x;
                assert(b[i] == x);
                assert(b.contains(x));
                assert(link_lt(x, bl));
                let j = choose|j: int| 0 <= j < a.len() && a[j] == x;
                assert(a0[j] == x);
            }
        }
        lemma_sorted_unique(a0, b0);
        assert(a =~= a0.push(al));
        assert(b =~= b0.push(bl));
    }
}

/// A strictly sorted sequence that holds the links of `s` is the canonical
/// form of `s`.
pub proof fn lemma_canonical_is(out: Seq<LinkModel>, s: Seq<LinkModel>)
    requires
        strictly_sorted(out),
        same_links(out, s),
    ensures
        out == canonical(s),
{
    lemma_canonical(s);
    lemma_sorted_unique(out, canonical(s));
}

} // verus!
