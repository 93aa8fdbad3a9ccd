use vstd::prelude::*;

use crate::codec::decode_field;
use crate::laws::links_to;
use crate::link::LinkModel;
use crate::store::{distinct_ids, holds, index_of, lookup, slot_ids, slot_of, SlotModel};
use crate::store_check::{
    dead_targets, distinct_nodes, edges_of, has_node, is_dead, lemma_noting_keeps_distinct,
    links_from, lone_links, network_of, node_index, unmirrored, verdict, with_incoming,
    with_outgoing, EdgeModel, NodeModel,
};

verus! {

/// The link from `source` to `target`.
pub open spec fn edge(source: Seq<char>, target: Seq<char>) -> EdgeModel {
    EdgeModel { source, target }
}

/// Whether the network notes a link from `id` to `to` at the node of `id`.
pub open spec fn notes_out(net: Seq<NodeModel>, id: Seq<char>, to: Seq<char>) -> bool {
    exists|i: int|
        0 <= i < net.len() && (#[trigger] net[i]).id == id && net[i].outgoing.contains(to)
}

/// Whether the network notes a link from `from` to `id` at the node of `id`.
pub open spec fn notes_in(net: Seq<NodeModel>, id: Seq<char>, from: Seq<char>) -> bool {
    exists|i: int|
        0 <= i < net.len() && (#[trigger] net[i]).id == id && net[i].incoming.contains(from)
}

/// Whether one of the links starts or ends at the entry `id`.
pub open spec fn touches(edges: Seq<EdgeModel>, id: Seq<char>) -> bool {
    exists|i: int|
        0 <= i < edges.len() && ((#[trigger] edges[i]).source == id || edges[i].target == id)
}

/// A sequence of identifiers with one more holds that one and what it held.
pub proof fn lemma_ids_push_contains(s: Seq<Seq<char>>, v: Seq<char>, x: Seq<char>)
    ensures
        s.push(v).contains(x) <==> (s.contains(x) || x == v),
{
    let r = s.push(v);
    if r.contains(x) {
        let i = choose|i: int| 0 <= i < r.len() && r[i] == x;
        if i < s.len() {
            assert(s[i] == x);
        }
    }
    if s.contains(x) {
        let i = choose|i: int| 0 <= i < s.len() && s[i] == x;
        assert(r[i] == x);
    }
    if x == v {
        assert(r[s.len() as int] == x);
    }
}

/// What noting an incoming link changes: the node of `id` is there and holds
/// the link; everything else is as it was.
pub proof fn lemma_with_incoming(net: Seq<NodeModel>, id: Seq<char>, from: Seq<char>)
    ensures
        forall|k: Seq<char>|
            #![trigger has_node(with_incoming(net, id, from), k)]
            has_node(with_incoming(net, id, from), k) <==> (has_node(net, k) || k == id),
        forall|k: Seq<char>, x: Seq<char>|
            #![trigger notes_in(with_incoming(net, id, from), k, x)]
            notes_in(with_incoming(net, id, from), k, x) <==> (notes_in(net, k, x) || (k == id
                && x == from)),
        forall|k: Seq<char>, y: Seq<char>|
            #![trigger notes_out(with_incoming(net, id, from), k, y)]
            notes_out(with_incoming(net, id, from), k, y) <==> notes_out(net, k, y),
{
    let r = with_incoming(net, id, from);
    let found = has_node(net, id);
    let at = if found { node_index(net, id) } else { net.len() as int };
    assert(r.len() == if found { net.len() } else { net.len() + 1 });
    assert(r[at].id == id);
    assert forall|i: int| 0 <= i < net.len() implies (#[trigger] r[i]).id == net[i].id
        && r[i].outgoing == net[i].outgoing && (i != at ==> r[i] == net[i]) by {}
    if found {
        assert(r[at].incoming == net[at].incoming.push(from));
    } else {
        assert(r[at].incoming == seq![from]);
        assert(r[at].outgoing == Seq::<Seq<char>>::empty());
    }
    assert forall|k: Seq<char>| has_node(r, k) <==> (has_node(net, k) || k == id) by {
        if has_node(r, k) {
            let i = choose|i: int| 0 <= i < r.len() && (#[trigger] r[i]).id == k;
            if i < net.len() {
                assert(net[i].id == k);
            }
        }
        if has_node(net, k) {
            let i = choose|i: int| 0 <= i < net.len() && (#[trigger] net[i]).id == k;
            assert(r[i].id == k);
        }
    }
    assert forall|k: Seq<char>, x: Seq<char>| notes_in(r, k, x) <==> (notes_in(net, k, x) || (k
        == id && x == from)) by {
        if notes_in(r, k, x) {
            let i = choose|i: int|
                0 <= i < r.len() && (#[trigger] r[i]).id == k && r[i].incoming.contains(x);
            if i == at {
                if found {
                    lemma_ids_push_contains(net[at].incoming, from, x);
                    if net[at].incoming.contains(x) {
                        assert(net[at].id == k);
                    }
                } else {
                    assert(seq![from][0] == from);
                    let j = choose|j: int| 0 <= j < r[at].incoming.len() && r[at].incoming[j] == x;
                    assert(x == from);
                }
            } else {
                assert(net[i].id == k && net[i].incoming.contains(x));
            }
        }
        if notes_in(net, k, x) {
            let i = choose|i: int|
                0 <= i < net.len() && (#[trigger] net[i]).id == k && net[i].incoming.contains(x);
            if i == at {
                lemma_ids_push_contains(net[at].incoming, from, x);
            }
            assert(r[i].id == k && r[i].incoming.contains(x));
        }
        if k == id && x == from {
            if found {
                lemma_ids_push_contains(net[at].incoming, from, x);
            } else {
                assert(r[at].incoming[0] == from);
            }
            assert(r[at].id == k && r[at].incoming.contains(x));
        }
    }
    assert forall|k: Seq<char>, y: Seq<char>| notes_out(r, k, y) <==> notes_out(net, k, y) by {
        if notes_out(r, k, y) {
            let i = choose|i: int|
                0 <= i < r.len() && (#[trigger] r[i]).id == k && r[i].outgoing.contains(y);
            if i < net.len() {
                assert(net[i].id == k && net[i].outgoing.contains(y));
            } else {
                let j = choose|j: int| 0 <= j < r[i].outgoing.len() && r[i].outgoing[j] == y;
            }
        }
        if notes_out(net, k, y) {
            let i = choose|i: int|
                0 <= i < net.len() && (#[trigger] net[i]).id == k && net[i].outgoing.contains(y);
            assert(r[i].id == k && r[i].outgoing.contains(y));
        }
    }
}

/// What noting an outgoing link changes: the node of `id` is there and holds
/// the link; everything else is as it was.
pub proof fn lemma_with_outgoing(net: Seq<NodeModel>, id: Seq<char>, to: Seq<char>)
    ensures
        forall|k: Seq<char>|
            #![trigger has_node(with_outgoing(net, id, to), k)]
            has_node(with_outgoing(net, id, to), k) <==> (has_node(net, k) || k == id),
        forall|k: Seq<char>, y: Seq<char>|
            #![trigger notes_out(with_outgoing(net, id, to), k, y)]
            notes_out(with_outgoing(net, id, to), k, y) <==> (notes_out(net, k, y) || (k == id
                && y == to)),
        forall|k: Seq<char>, x: Seq<char>|
            #![trigger notes_in(with_outgoing(net, id, to), k, x)]
            notes_in(with_outgoing(net, id, to), k, x) <==> notes_in(net, k, x),
{
    let r = with_outgoing(net, id, to);
    let found = has_node(net, id);
    let at = if found { node_index(net, id) } else { net.len() as int };
    assert(r.len() == if found { net.len() } else { net.len() + 1 });
    assert(r[at].id == id);
    assert forall|i: int| 0 <= i < net.len() implies (#[trigger] r[i]).id == net[i].id
        && r[i].incoming == net[i].incoming && (i != at ==> r[i] == net[i]) by {}
    if found {
        assert(r[at].outgoing == net[at].outgoing.push(to));
    } else {
        assert(r[at].outgoing == seq![to]);
        assert(r[at].incoming == Seq::<Seq<char>>::empty());
    }
    assert forall|k: Seq<char>| has_node(r, k) <==> (has_node(net, k) || k == id) by {
        if has_node(r, k) {
            let i = choose|i: int| 0 <= i < r.len() && (#[trigger] r[i]).id == k;
            if i < net.len() {
                assert(net[i].id == k);
            }
        }
        if has_node(net, k) {
            let i = choose|i: int| 0 <= i < net.len() && (#[trigger] net[i]).id == k;
            assert(r[i].id == k);
        }
    }
    assert forall|k: Seq<char>, y: Seq<char>| notes_out(r, k, y) <==> (notes_out(net, k, y) || (k
        == id && y == to)) by {
        if notes_out(r, k, y) {
            let i = choose|i: int|
                0 <= i < r.len() && (#[trigger] r[i]).id == k && r[i].outgoing.contains(y);
            if i == at {
                if found {
                    lemma_ids_push_contains(net[at].outgoing, to, y);
                    if net[at].outgoing.contains(y) {
                        assert(net[at].id == k);
                    }
                } else {
                    assert(seq![to][0] == to);
                    let j = choose|j: int| 0 <= j < r[at].outgoing.len() && r[at].outgoing[j] == y;
                    assert(y == to);
                }
            } else {
                assert(net[i].id == k && net[i].outgoing.contains(y));
            }
        }
        if notes_out(net, k, y) {
            let i = choose|i: int|
                0 <= i < net.len() && (#[trigger] net[i]).id == k && net[i].outgoing.contains(y);
            if i == at {
                lemma_ids_push_contains(net[at].outgoing, to, y);
            }
            assert(r[i].id == k && r[i].outgoing.contains(y));
        }
        if k == id && y == to {
            if found {
                lemma_ids_push_contains(net[at].outgoing, to, y);
            } else {
                assert(r[at].outgoing[0] == to);
            }
            assert(r[at].id == k && r[at].outgoing.contains(y));
        }
    }
    assert forall|k: Seq<char>, x: Seq<char>| notes_in(r, k, x) <==> notes_in(net, k, x) by {
        if notes_in(r, k, x) {
            let i = choose|i: int|
                0 <= i < r.len() && (#[trigger] r[i]).id == k && r[i].incoming.contains(x);
            if i < net.len() {
                assert(net[i].id == k && net[i].incoming.contains(x));
            } else {
                let j = choose|j: int| 0 <= j < r[i].incoming.len() && r[i].incoming[j] == x;
            }
        }
        if notes_in(net, k, x) {
            let i = choose|i: int|
                0 <= i < net.len() && (#[trigger] net[i]).id == k && net[i].incoming.contains(x);
            assert(r[i].id == k && r[i].incoming.contains(x));
        }
    }
}

/// The link network notes exactly the links it was made of, each at both of
/// its ends, and has a node for exactly the entries at their ends, each
/// once.
pub proof fn lemma_network_members(edges: Seq<EdgeModel>)
    ensures
        distinct_nodes(network_of(edges)),
        forall|k: Seq<char>|
            #![trigger has_node(network_of(edges), k)]
            has_node(network_of(edges), k) <==> touches(edges, k),
        forall|k: Seq<char>, y: Seq<char>|
            #![trigger notes_out(network_of(edges), k, y)]
            notes_out(network_of(edges), k, y) <==> edges.contains(edge(k, y)),
        forall|k: Seq<char>, x: Seq<char>|
            #![trigger notes_in(network_of(edges), k, x)]
            notes_in(network_of(edges), k, x) <==> edges.contains(edge(x, k)),
    decreases edges.len(),
{
    let net = network_of(edges);
    if edges.len() == 0 {
        assert forall|k: Seq<char>| has_node(net, k) <==> touches(edges, k) by {}
        assert forall|k: Seq<char>, y: Seq<char>| notes_out(net, k, y) <==> edges.contains(
            edge(k, y),
        ) by {}
        assert forall|k: Seq<char>, x: Seq<char>| notes_in(net, k, x) <==> edges.contains(
            edge(x, k),
        ) by {}
    } else {
        let front = edges.drop_last();
        let e = edges.last();
        let n0 = network_of(front);
        let n1 = with_incoming(n0, e.target, e.source);
        lemma_network_members(front);
        lemma_noting_keeps_distinct(n0, e.target, e.source);
        lemma_noting_keeps_distinct(n1, e.source, e.target);
        lemma_with_incoming(n0, e.target, e.source);
        lemma_with_outgoing(n1, e.source, e.target);
        assert(net == with_outgoing(n1, e.source, e.target));
        assert(edges[edges.len() - 1] == e);
        assert forall|x: EdgeModel| edges.contains(x) <==> (front.contains(x) || x == e) by {
            if edges.contains(x) {
                let i = choose|i: int| 0 <= i < edges.len() && edges[i] == x;
                if i < front.len() {
                    assert(front[i] == x);
                }
            }
            if front.contains(x) {
                let i = choose|i: int| 0 <= i < front.len() && front[i] == x;
                assert(edges[i] == x);
            }
        }
        assert forall|k: Seq<char>| has_node(net, k) <==> touches(edges, k) by {
            assert(has_node(net, k) <==> (has_node(n1, k) || k == e.source));
            assert(has_node(n1, k) <==> (has_node(n0, k) || k == e.target));
            if touches(edges, k) {
                let i = choose|i: int|
                    0 <= i < edges.len() && ((#[trigger] edges[i]).source == k || edges[i].target
                        == k);
                if i < front.len() {
                    assert(front[i] == edges[i]);
                    assert(touches(front, k));
                }
            }
            if touches(front, k) {
                let i = choose|i: int|
                    0 <= i < front.len() && ((#[trigger] front[i]).source == k || front[i].target
                        == k);
                assert(edges[i] == front[i]);
            }
        }
        assert forall|k: Seq<char>, y: Seq<char>| notes_out(net, k, y) <==> edges.contains(
            edge(k, y),
        ) by {
            assert(notes_out(net, k, y) <==> (notes_out(n1, k, y) || (k == e.source && y
                == e.target)));
            assert(notes_out(n1, k, y) <==> notes_out(n0, k, y));
        }
        assert forall|k: Seq<char>, x: Seq<char>| notes_in(net, k, x) <==> edges.contains(
            edge(x, k),
        ) by {
            assert(notes_in(net, k, x) <==> notes_in(n1, k, x));
            assert(notes_in(n1, k, x) <==> (notes_in(n0, k, x) || (k == e.target && x
                == e.source)));
        }
    }
}

/// The missing entries that are named are the entries of the network that
/// are missing.
pub proof fn lemma_dead_targets_members(net: Seq<NodeModel>, s: Seq<SlotModel>)
    ensures
        forall|k: Seq<char>|
            #![trigger dead_targets(net, s).contains(k)]
            dead_targets(net, s).contains(k) <==> (has_node(net, k) && is_dead(s, k)),
    decreases net.len(),
{
    let d = dead_targets(net, s);
    if net.len() == 0 {
        assert forall|k: Seq<char>| d.contains(k) <==> (has_node(net, k) && is_dead(s, k)) by {}
    } else {
        let front = net.drop_last();
        let last = net.last();
        lemma_dead_targets_members(front, s);
        let d0 = dead_targets(front, s);
        assert(net[net.len() - 1] == last);
        assert forall|k: Seq<char>| d.contains(k) <==> (has_node(net, k) && is_dead(s, k)) by {
            lemma_ids_push_contains(d0, last.id, k);
            if has_node(net, k) {
                let i = choose|i: int| 0 <= i < net.len() && (#[trigger] net[i]).id == k;
                if i < front.len() {
                    assert(front[i].id == k);
                }
            }
            if has_node(front, k) {
                let i = choose|i: int| 0 <= i < front.len() && (#[trigger] front[i]).id == k;
                assert(net[i].id == k);
            }
        }
    }
}

/// A sequence of links with one more holds that one and what it held.
pub proof fn lemma_edges_push_contains(s: Seq<EdgeModel>, v: EdgeModel, x: EdgeModel)
    ensures
        s.push(v).contains(x) <==> (s.contains(x) || x == v),
{
    let r = s.push(v);
    if r.contains(x) {
        let i = choose|i: int| 0 <= i < r.len() && r[i] == x;
        if i < s.len() {
            assert(s[i] == x);
        }
    }
    if s.contains(x) {
        let i = choose|i: int| 0 <= i < s.len() && s[i] == x;
        assert(r[i] == x);
    }
    if x == v {
        assert(r[s.len() as int] == x);
    }
}

/// Two sequences of links put together hold what either holds.
pub proof fn lemma_edges_add_contains(a: Seq<EdgeModel>, b: Seq<EdgeModel>, x: EdgeModel)
    ensures
        (a + b).contains(x) <==> (a.contains(x) || b.contains(x)),
{
    let r = a + b;
    if r.contains(x) {
        let i = choose|i: int| 0 <= i < r.len() && r[i] == x;
        if i < a.len() {
            assert(a[i] == x);
        } else {
            assert(b[i - a.len()] == x);
        }
    }
    if a.contains(x) {
        let i = choose|i: int| 0 <= i < a.len() && a[i] == x;
        assert(r[i] == x);
    }
    if b.contains(x) {
        let i = choose|i: int| 0 <= i < b.len() && b[i] == x;
        assert(r[a.len() + i] == x);
    }
}

/// The one-way links of a node are its outgoing links that no incoming link
/// mirrors.
pub proof fn lemma_lone_links_members(node: NodeModel, n: int)
    requires
        0 <= n <= node.outgoing.len(),
    ensures
        forall|e: EdgeModel|
            #![trigger lone_links(node, n).contains(e)]
            lone_links(node, n).contains(e) <==> (e.source == node.id && node.outgoing.take(
                n,
            ).contains(e.target) && !node.incoming.contains(e.target)),
    decreases n,
{
    let l = lone_links(node, n);
    if n == 0 {
        assert forall|e: EdgeModel| l.contains(e) <==> (e.source == node.id && node.outgoing.take(
            n,
        ).contains(e.target) && !node.incoming.contains(e.target)) by {
            if node.outgoing.take(n).contains(e.target) {
                let k = choose|k: int|
                    0 <= k < node.outgoing.take(n).len() && node.outgoing.take(n)[k] == e.target;
            }
        }
    } else {
        lemma_lone_links_members(node, n - 1);
        let l0 = lone_links(node, n - 1);
        let y = node.outgoing[n - 1];
        assert(node.outgoing.take(n) =~= node.outgoing.take(n - 1).push(y));
        assert forall|e: EdgeModel| l.contains(e) <==> (e.source == node.id && node.outgoing.take(
            n,
        ).contains(e.target) && !node.incoming.contains(e.target)) by {
            lemma_ids_push_contains(node.outgoing.take(n - 1), y, e.target);
            lemma_edges_push_contains(l0, edge(node.id, y), e);
        }
    }
}

/// The one-way links that are named are the links that the network notes
/// as going out of a node and not as coming in there.
pub proof fn lemma_unmirrored_members(net: Seq<NodeModel>)
    requires
        distinct_nodes(net),
    ensures
        forall|e: EdgeModel|
            #![trigger unmirrored(net).contains(e)]
            unmirrored(net).contains(e) <==> (notes_out(net, e.source, e.target) && !notes_in(
                net,
                e.source,
                e.target,
            )),
    decreases net.len(),
{
    let u = unmirrored(net);
    if net.len() == 0 {
        assert forall|e: EdgeModel| u.contains(e) <==> (notes_out(net, e.source, e.target)
            && !notes_in(net, e.source, e.target)) by {}
    } else {
        let front = net.drop_last();
        let last = net.last();
        let n = net.len() - 1;
        assert(net[n] == last);
        assert(distinct_nodes(front)) by {
            assert forall|i: int, j: int| 0 <= i < j < front.len() implies front[i].id
                != front[j].id by {
                assert(front[i] == net[i] && front[j] == net[j]);
            }
        }
        lemma_unmirrored_members(front);
        lemma_lone_links_members(last, last.outgoing.len() as int);
        assert(last.outgoing.take(last.outgoing.len() as int) =~= last.outgoing);
        let u0 = unmirrored(front);
        let l = lone_links(last, last.outgoing.len() as int);
        assert forall|e: EdgeModel| u.contains(e) <==> (notes_out(net, e.source, e.target)
            && !notes_in(net, e.source, e.target)) by {
            lemma_edges_add_contains(u0, l, e);
            let k = e.source;
            let t = e.target;
            if notes_out(front, k, t) {
                let i = choose|i: int|
                    0 <= i < front.len() && (#[trigger] front[i]).id == k
                        && front[i].outgoing.contains(t);
                assert(net[i] == front[i]);
                assert(net[i].id != net[n].id);
            }
            if notes_in(front, k, t) {
                let i = choose|i: int|
                    0 <= i < front.len() && (#[trigger] front[i]).id == k
                        && front[i].incoming.contains(t);
                assert(net[i] == front[i]);
            }
            if notes_out(net, k, t) {
                let i = choose|i: int|
                    0 <= i < net.len() && (#[trigger] net[i]).id == k && net[i].outgoing.contains(
                        t,
                    );
                if i < n {
                    assert(front[i] == net[i]);
                    assert(notes_out(front, k, t));
                }
            }
            if notes_in(net, k, t) {
                let i = choose|i: int|
                    0 <= i < net.len() && (#[trigger] net[i]).id == k && net[i].incoming.contains(
                        t,
                    );
                if i < n {
                    assert(front[i] == net[i]);
                    assert(notes_in(front, k, t));
                }
            }
            if k == last.id {
                if notes_out(front, k, t) {
                    let i = choose|i: int|
                        0 <= i < front.len() && (#[trigger] front[i]).id == k
                            && front[i].outgoing.contains(t);
                    assert(net[i].id != net[n].id);
                }
                if notes_in(front, k, t) {
                    let i = choose|i: int|
                        0 <= i < front.len() && (#[trigger] front[i]).id == k
                            && front[i].incoming.contains(t);
                    assert(net[i].id != net[n].id);
                }
            }
        }
    }
}

/// What the outcome of a check means, in terms of the links that were
/// gathered. The check passes exactly where every link starts and ends at an
/// entry that is there and has a link back. Where it names missing entries,
/// it names exactly the missing entries at the ends of links. Where it names
/// one-way links, it names exactly the links without a link back, each with
/// the entry that lacks the link back as its target.
pub proof fn lemma_verdict_meaning(s: Seq<SlotModel>, ids: Seq<Seq<char>>)
    requires
        edges_of(s, ids) is Some,
    ensures
        !(verdict(s, ids) is Unreadable),
        verdict(s, ids) is Consistent <==> (forall|e: EdgeModel|
            #[trigger] edges_of(s, ids)->Some_0.contains(e) ==> !is_dead(s, e.source) && !is_dead(
                s,
                e.target,
            ) && edges_of(s, ids)->Some_0.contains(edge(e.target, e.source))),
        verdict(s, ids) is DeadLinks ==> verdict(s, ids)->DeadLinks_0.len() > 0 && (forall|
            k: Seq<char>,
        |
            #[trigger] verdict(s, ids)->DeadLinks_0.contains(k) <==> (is_dead(s, k) && touches(
                edges_of(s, ids)->Some_0,
                k,
            ))),
        verdict(s, ids) is OneDirectional ==> verdict(s, ids)->OneDirectional_0.len() > 0 && (
        forall|e: EdgeModel|
            #[trigger] verdict(s, ids)->OneDirectional_0.contains(e) <==> (edges_of(
                s,
                ids,
            )->Some_0.contains(e) && !edges_of(s, ids)->Some_0.contains(
                edge(e.target, e.source),
            ))),
{
    let edges = edges_of(s, ids)->Some_0;
    let net = network_of(edges);
    let dead = dead_targets(net, s);
    let lone = unmirrored(net);
    lemma_network_members(edges);
    lemma_dead_targets_members(net, s);
    lemma_unmirrored_members(net);
    assert forall|k: Seq<char>| #[trigger] dead.contains(k) <==> (is_dead(s, k) && touches(
        edges,
        k,
    )) by {
        assert(has_node(net, k) <==> touches(edges, k));
    }
    assert forall|e: EdgeModel| #[trigger] lone.contains(e) <==> (edges.contains(e)
        && !edges.contains(edge(e.target, e.source))) by {
        assert(notes_out(net, e.source, e.target) <==> edges.contains(edge(e.source, e.target)));
        assert(notes_in(net, e.source, e.target) <==> edges.contains(edge(e.target, e.source)));
        assert(e == edge(e.source, e.target));
    }
    if dead.len() > 0 {
        assert(dead.contains(dead[0]));
        let k = dead[0];
        let i = choose|i: int|
            0 <= i < edges.len() && ((#[trigger] edges[i]).source == k || edges[i].target == k);
        assert(edges.contains(edges[i]));
    } else if lone.len() > 0 {
        assert(lone.contains(lone[0]));
    } else {
        assert forall|e: EdgeModel| #[trigger] edges.contains(e) implies !is_dead(s, e.source)
            && !is_dead(s, e.target) && edges.contains(edge(e.target, e.source)) by {
            let i = choose|i: int| 0 <= i < edges.len() && edges[i] == e;
            assert(touches(edges, e.source));
            assert(touches(edges, e.target));
            if is_dead(s, e.source) {
                assert(dead.contains(e.source));
            }
            if is_dead(s, e.target) {
                assert(dead.contains(e.target));
            }
            if !edges.contains(edge(e.target, e.source)) {
                assert(lone.contains(e));
            }
        }
    }
}

/// The links that the store's entry at `i` holds.
pub open spec fn links_at(s: Seq<SlotModel>, i: int) -> Seq<LinkModel> {
    decode_field(s[i].field)->Ok_0
}

/// Every entry of the store can be read, is there on what backs the store,
/// and holds links that can be read.
pub open spec fn sound_store(s: Seq<SlotModel>) -> bool {
    forall|i: int|
        0 <= i < s.len() ==> (#[trigger] s[i]).healthy && s[i].on_backing && decode_field(
            s[i].field,
        ) is Ok
}

/// Every link of every entry names an entry of the store that holds a link
/// back.
pub open spec fn back_referenced(s: Seq<SlotModel>) -> bool {
    forall|i: int, k: int|
        0 <= i < s.len() && 0 <= k < links_at(s, i).len() ==> exists|j: int|
            0 <= j < s.len() && (#[trigger] s[j]).id == (#[trigger] links_at(s, i)[k]).target
                && links_to(links_at(s, j), s[i].id)
}

/// The links gathered from the first `n` entries of a sound store are the
/// links that those entries hold.
pub proof fn lemma_edges_members(s: Seq<SlotModel>, n: int)
    requires
        distinct_ids(s),
        sound_store(s),
        0 <= n <= s.len(),
    ensures
        edges_of(s, slot_ids(s).take(n)) is Some,
        forall|e: EdgeModel|
            #![trigger edges_of(s, slot_ids(s).take(n))->Some_0.contains(e)]
            edges_of(s, slot_ids(s).take(n))->Some_0.contains(e) <==> (exists|i: int|
                0 <= i < n && (#[trigger] s[i]).id == e.source && links_to(
                    links_at(s, i),
                    e.target,
                )),
    decreases n,
{
    let ids = slot_ids(s).take(n);
    if n == 0 {
        assert(ids =~= Seq::empty());
        assert forall|e: EdgeModel| edges_of(s, ids)->Some_0.contains(e) <==> (exists|i: int|
            0 <= i < n && (#[trigger] s[i]).id == e.source && links_to(links_at(s, i), e.target))
            by {}
    } else {
        lemma_edges_members(s, n - 1);
        let m = n - 1;
        assert(ids.drop_last() =~= slot_ids(s).take(m));
        assert(ids.last() == s[m].id);
        let before = edges_of(s, slot_ids(s).take(m))->Some_0;
        assert(holds(s, s[m].id));
        assert(index_of(s, s[m].id) == m) by {
            let j = index_of(s, s[m].id);
            assert(s[j].id == s[m].id);
        }
        assert(slot_of(s, s[m].id) == s[m]);
        assert(lookup(s, s[m].id) == Ok::<Option<SlotModel>, crate::error::StoreError>(
            Some(s[m]),
        ));
        let ls = links_at(s, m);
        let new = links_from(s[m].id, ls);
        assert(edges_of(s, ids) == Some(before + new));
        assert forall|e: EdgeModel| (before + new).contains(e) <==> (exists|i: int|
            0 <= i < n && (#[trigger] s[i]).id == e.source && links_to(links_at(s, i), e.target))
            by {
            lemma_edges_add_contains(before, new, e);
            if new.contains(e) {
                let k = choose|k: int| 0 <= k < new.len() && new[k] == e;
                assert(ls[k].target == e.target);
                assert(s[m].id == e.source && links_to(ls, e.target));
            }
            if before.contains(e) {
                let i = choose|i: int|
                    0 <= i < m && (#[trigger] s[i]).id == e.source && links_to(
                        links_at(s, i),
                        e.target,
                    );
                assert(0 <= i < n && s[i].id == e.source);
            }
            if exists|i: int|
                0 <= i < n && (#[trigger] s[i]).id == e.source && links_to(
                    links_at(s, i),
                    e.target,
                ) {
                let i = choose|i: int|
                    0 <= i < n && (#[trigger] s[i]).id == e.source && links_to(
                        links_at(s, i),
                        e.target,
                    );
                if i == m {
                    let k = choose|k: int| 0 <= k < ls.len() && (#[trigger] ls[k]).target == e.target;
                    assert(new[k] == e);
                    assert(new.contains(e));
                } else {
                    assert(0 <= i < m && s[i].id == e.source);
                    assert(before.contains(e));
                }
            }
        }
    }
}

/// A store passes the check where all its entries are there and readable
/// and every link has its link back: the state that linking by the protocol
/// keeps.
pub proof fn lemma_clean_store_is_consistent(s: Seq<SlotModel>)
    requires
        distinct_ids(s),
        sound_store(s),
        back_referenced(s),
    ensures
        verdict(s, slot_ids(s)) is Consistent,
{
    let ids = slot_ids(s);
    lemma_edges_members(s, s.len() as int);
    assert(ids.take(s.len() as int) =~= ids);
    lemma_verdict_meaning(s, ids);
    let edges = edges_of(s, ids)->Some_0;
    assert forall|e: EdgeModel| #[trigger] edges.contains(e) implies !is_dead(s, e.source)
        && !is_dead(s, e.target) && edges.contains(edge(e.target, e.source)) by {
        let i = choose|i: int|
            0 <= i < s.len() && (#[trigger] s[i]).id == e.source && links_to(
                links_at(s, i),
                e.target,
            );
        let k = choose|k: int|
            0 <= k < links_at(s, i).len() && (#[trigger] links_at(s, i)[k]).target == e.target;
        let j = choose|j: int|
            0 <= j < s.len() && (#[trigger] s[j]).id == links_at(s, i)[k].target && links_to(
                links_at(s, j),
                s[i].id,
            );
        assert(holds(s, e.source));
        assert(holds(s, e.target));
        assert(index_of(s, e.source) == i) by {
            let x = index_of(s, e.source);
            assert(s[x].id == s[i].id);
        }
        assert(index_of(s, e.target) == j) by {
            let x = index_of(s, e.target);
            assert(s[x].id == s[j].id);
        }
    }
}

} // verus!
