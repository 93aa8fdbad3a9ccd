use vstd::prelude::*;
use vstd::string::*;

use crate::codec::{decode_field, links_view};
use crate::entry::InternalLinker;
use crate::link::{Link, LinkModel};
use crate::store::{holds, lookup, slot_ids, slot_of, walked_ids, SlotModel, Store, StoreObject};
use crate::storeid::StoreId;

verus! {

/// A link with its two ends: the entry that holds it and the entry that it
/// names.
pub ghost struct EdgeModel {
    pub source: Seq<char>,
    pub target: Seq<char>,
}

/// A link from one entry to another.
#[derive(Debug)]
pub struct Edge {
    pub source: StoreId,
    pub target: StoreId,
}

impl View for Edge {
    type V = EdgeModel;

    open spec fn view(&self) -> EdgeModel {
        EdgeModel { source: self.source@, target: self.target@ }
    }
}

/// What each edge of a sequence says.
pub open spec fn edges_view(edges: Seq<Edge>) -> Seq<EdgeModel> {
    Seq::new(edges.len(), |i: int| edges[i]@)
}

/// The local part of each identifier of a sequence.
pub open spec fn ids_view(ids: Seq<StoreId>) -> Seq<Seq<char>> {
    Seq::new(ids.len(), |i: int| ids[i]@)
}

/// The edges that the links `ls` of the entry `id` make, in order.
pub open spec fn links_from(id: Seq<char>, ls: Seq<LinkModel>) -> Seq<EdgeModel> {
    Seq::new(ls.len(), |i: int| EdgeModel { source: id, target: ls[i].target })
}

/// The edges of the entries `ids`, which are taken in order: an identifier
/// that the store does not hold is passed over; an entry that cannot be read,
/// or whose links cannot, makes the whole fail.
pub open spec fn edges_of(s: Seq<SlotModel>, ids: Seq<Seq<char>>) -> Option<Seq<EdgeModel>>
    decreases ids.len(),
{
    if ids.len() == 0 {
        Some(Seq::empty())
    } else {
        match edges_of(s, ids.drop_last()) {
            None => None,
            Some(edges) => match lookup(s, ids.last()) {
                Err(_) => None,
                Ok(None) => Some(edges),
                Ok(Some(slot)) => match decode_field(slot.field) {
                    Err(_) => None,
                    Ok(ls) => Some(edges + links_from(ids.last(), ls)),
                },
            },
        }
    }
}

/// Where a failure among the first `n` identifiers is the failure of all.
pub proof fn lemma_edges_of_fails(s: Seq<SlotModel>, ids: Seq<Seq<char>>, n: int)
    requires
        0 <= n <= ids.len(),
        edges_of(s, ids.take(n)) is None,
    ensures
        edges_of(s, ids) is None,
    decreases ids.len() - n,
{
    if n < ids.len() {
        assert(ids.take(n + 1).drop_last() =~= ids.take(n));
        lemma_edges_of_fails(s, ids, n + 1);
    } else {
        assert(ids.take(n) =~= ids);
    }
}

/// The identifiers among walked objects, one more object taken in.
pub proof fn lemma_walked_ids_step(objects: Seq<StoreObject>, n: int)
    requires
        0 <= n < objects.len(),
    ensures
        walked_ids(objects.take(n + 1)) == (match objects[n] {
            StoreObject::Id(id) => walked_ids(objects.take(n)).push(id@),
            StoreObject::Collection(_) => walked_ids(objects.take(n)),
        }),
{
    assert(objects.take(n + 1).drop_last() =~= objects.take(n));
    assert(objects.take(n + 1).last() == objects[n]);
}

/// Gathers the links of the entries that a walk came by.
pub fn collect_edges(store: &Store, walked: &Vec<StoreObject>) -> (r: Option<Vec<Edge>>)
    requires
        store.wf(),
    ensures
        match edges_of(store@, walked_ids(walked@)) {
            None => r is None,
            Some(edges) => r is Some && edges_view(r->Some_0@) == edges,
        },
{
    let mut edges: Vec<Edge> = Vec::new();
    let mut i: usize = 0;
    assert(walked@.take(0) =~= Seq::empty());
    assert(edges_view(edges@) =~= Seq::empty());
    while i < walked.len()
        invariant
            i <= walked@.len(),
            store.wf(),
            edges_of(store@, walked_ids(walked@.take(i as int))) == Some(edges_view(edges@)),
        decreases walked@.len() - i,
    {
        let ghost seen = walked_ids(walked@.take(i as int));
        let ghost before = edges_view(edges@);
        proof {
            lemma_walked_ids_step(walked@, i as int);
        }
        match &walked[i] {
            StoreObject::Collection(_) => {},
            StoreObject::Id(id) => {
                let ghost now = seen.push(id@);
                assert(now.drop_last() =~= seen);
                assert(now.last() == id@);
                match store.get(id) {
                    Err(_) => {
                        proof {
                            lemma_walked_ids_take(walked@, i + 1);
                            lemma_edges_of_fails(
                                store@,
                                walked_ids(walked@),
                                walked_ids(walked@.take(i + 1)).len() as int,
                            );
                        }
                        return None;
                    },
                    Ok(None) => {},
                    Ok(Some(entry)) => match entry.get_internal_links() {
                        Err(_) => {
                            proof {
                                lemma_walked_ids_take(walked@, i + 1);
                                lemma_edges_of_fails(
                                    store@,
                                    walked_ids(walked@),
                                    walked_ids(walked@.take(i + 1)).len() as int,
                                );
                            }
                            return None;
                        },
                        Ok(links) => {
                            let held = links.collect();
                            let ghost ls = links_view(held@);
                            let mut k: usize = 0;
                            assert(before + links_from(id@, ls).take(0) =~= before);
                            while k < held.len()
                                invariant
                                    k <= held@.len(),
                                    ls == links_view(held@),
                                    edges_view(edges@) =~= before + links_from(id@, ls).take(
                                        k as int,
                                    ),
                                decreases held@.len() - k,
                            {
                                let ghost sofar = edges_view(edges@);
                                let target = held[k].get_store_id().clone().without_base();
                                edges.push(Edge { source: id.clone(), target });
                                assert(edges_view(edges@) =~= sofar.push(
                                    EdgeModel { source: id@, target: ls[k as int].target },
                                ));
                                k += 1;
                            }
                            assert(links_from(id@, ls).take(k as int) =~= links_from(id@, ls));
                        },
                    },
                }
            },
        }
        i += 1;
    }
    assert(walked@.take(i as int) =~= walked@);
    Some(edges)
}

/// The identifiers of the first `n` walked objects are the first of the
/// identifiers of all.
pub proof fn lemma_walked_ids_take(objects: Seq<StoreObject>, n: int)
    requires
        0 <= n <= objects.len(),
    ensures
        walked_ids(objects.take(n)).len() <= walked_ids(objects).len(),
        walked_ids(objects).take(walked_ids(objects.take(n)).len() as int) == walked_ids(
            objects.take(n),
        ),
    decreases objects.len() - n,
{
    if n < objects.len() {
        lemma_walked_ids_step(objects, n);
        lemma_walked_ids_take(objects, n + 1);
        let longer = walked_ids(objects.take(n + 1));
        let shorter = walked_ids(objects.take(n));
        assert(walked_ids(objects).take(shorter.len() as int) =~= walked_ids(objects).take(
            longer.len() as int,
        ).take(shorter.len() as int));
        assert(longer.take(shorter.len() as int) =~= shorter);
    } else {
        assert(objects.take(n) =~= objects);
        assert(walked_ids(objects).take(walked_ids(objects).len() as int) =~= walked_ids(objects));
    }
}

/// What the link network holds of one entry: the entries that it links to
/// and the entries that link to it, each in the order in which the links
/// were met.
pub ghost struct NodeModel {
    pub id: Seq<char>,
    pub outgoing: Seq<Seq<char>>,
    pub incoming: Seq<Seq<char>>,
}

/// The incoming and outgoing links of one entry.
#[derive(Debug)]
pub struct Linking {
    pub id: StoreId,
    pub outgoing: Vec<StoreId>,
    pub incoming: Vec<StoreId>,
}

impl View for Linking {
    type V = NodeModel;

    open spec fn view(&self) -> NodeModel {
        NodeModel {
            id: self.id@,
            outgoing: ids_view(self.outgoing@),
            incoming: ids_view(self.incoming@),
        }
    }
}

/// What each node of a network holds.
pub open spec fn network_view(net: Seq<Linking>) -> Seq<NodeModel> {
    Seq::new(net.len(), |i: int| net[i]@)
}

/// No entry has two nodes.
pub open spec fn distinct_nodes(net: Seq<NodeModel>) -> bool {
    forall|i: int, j: int| 0 <= i < j < net.len() ==> net[i].id != net[j].id
}

/// Whether the network has a node for the entry `id`.
pub open spec fn has_node(net: Seq<NodeModel>, id: Seq<char>) -> bool {
    exists|i: int| 0 <= i < net.len() && (#[trigger] net[i]).id == id
}

/// Where the network has the node for the entry `id`.
pub open spec fn node_index(net: Seq<NodeModel>, id: Seq<char>) -> int {
    choose|i: int| 0 <= i < net.len() && (#[trigger] net[i]).id == id
}

/// The network with a link from `from` noted at the node of `id`, which is
/// added at the end where the network has none.
pub open spec fn with_incoming(net: Seq<NodeModel>, id: Seq<char>, from: Seq<char>) -> Seq<
    NodeModel,
> {
    if has_node(net, id) {
        let i = node_index(net, id);
        net.update(i, NodeModel { incoming: net[i].incoming.push(from), ..net[i] })
    } else {
        net.push(NodeModel { id, outgoing: Seq::empty(), incoming: seq![from] })
    }
}

/// The network with a link to `to` noted at the node of `id`, which is added
/// at the end where the network has none.
pub open spec fn with_outgoing(net: Seq<NodeModel>, id: Seq<char>, to: Seq<char>) -> Seq<
    NodeModel,
> {
    if has_node(net, id) {
        let i = node_index(net, id);
        net.update(i, NodeModel { outgoing: net[i].outgoing.push(to), ..net[i] })
    } else {
        net.push(NodeModel { id, outgoing: seq![to], incoming: Seq::empty() })
    }
}

/// The network with one more link: noted as incoming at its target, then as
/// outgoing at its source.
pub open spec fn record(net: Seq<NodeModel>, e: EdgeModel) -> Seq<NodeModel> {
    with_outgoing(with_incoming(net, e.target, e.source), e.source, e.target)
}

/// The link network of a sequence of links.
pub open spec fn network_of(edges: Seq<EdgeModel>) -> Seq<NodeModel>
    decreases edges.len(),
{
    if edges.len() == 0 {
        Seq::empty()
    } else {
        record(network_of(edges.drop_last()), edges.last())
    }
}

/// Where the node of the entry `id` stands, if there is one.
fn find_node(net: &Vec<Linking>, id: &StoreId) -> (r: Option<usize>)
    requires
        distinct_nodes(network_view(net@)),
    ensures
        r is Some <==> has_node(network_view(net@), id@),
        r is Some ==> r->Some_0 < net@.len() && r->Some_0 == node_index(network_view(net@), id@)
            && net@[r->Some_0 as int].id@ == id@,
{
    let ghost view = network_view(net@);
    let mut i: usize = 0;
    while i < net.len()
        invariant
            i <= net@.len(),
            view == network_view(net@),
            distinct_nodes(view),
            forall|j: int| 0 <= j < i ==> (#[trigger] view[j]).id != id@,
        decreases net@.len() - i,
    {
        if net[i].id.same_entry(id) {
            assert(view[i as int].id == id@);
            return Some(i);
        }
        i += 1;
    }
    None
}

/// Noting a link at one node leaves the nodes distinct.
pub proof fn lemma_noting_keeps_distinct(net: Seq<NodeModel>, id: Seq<char>, other: Seq<char>)
    requires
        distinct_nodes(net),
    ensures
        distinct_nodes(with_incoming(net, id, other)),
        distinct_nodes(with_outgoing(net, id, other)),
{
    let a = with_incoming(net, id, other);
    let b = with_outgoing(net, id, other);
    assert forall|i: int, j: int| 0 <= i < j < a.len() implies a[i].id != a[j].id by {
        if has_node(net, id) {
            assert(a[i].id == net[i].id && a[j].id == net[j].id);
        } else if j < net.len() {
            assert(a[i] == net[i] && a[j] == net[j]);
        } else {
            assert(a[i] == net[i]);
        }
    }
    assert forall|i: int, j: int| 0 <= i < j < b.len() implies b[i].id != b[j].id by {
        if has_node(net, id) {
            assert(b[i].id == net[i].id && b[j].id == net[j].id);
        } else if j < net.len() {
            assert(b[i] == net[i] && b[j] == net[j]);
        } else {
            assert(b[i] == net[i]);
        }
    }
}

/// Notes a link from `from` at the node of `id`.
fn note_incoming(net: &mut Vec<Linking>, id: &StoreId, from: &StoreId)
    requires
        distinct_nodes(network_view(old(net)@)),
    ensures
        network_view(final(net)@) == with_incoming(network_view(old(net)@), id@, from@),
        distinct_nodes(network_view(final(net)@)),
{
    let ghost before = network_view(net@);
    proof {
        lemma_noting_keeps_distinct(before, id@, from@);
    }
    match find_node(net, id) {
        Some(i) => {
            let ghost held = ids_view(net@[i as int].incoming@);
            net[i].incoming.push(from.clone());
            proof {
                assert(ids_view(net@[i as int].incoming@) =~= held.push(from@));
                assert(network_view(net@) =~= with_incoming(before, id@, from@));
            }
        },
        None => {
            let mut incoming: Vec<StoreId> = Vec::new();
            incoming.push(from.clone());
            let node = Linking { id: id.clone(), outgoing: Vec::new(), incoming };
            proof {
                assert(ids_view(node.incoming@) =~= seq![from@]);
                assert(ids_view(node.outgoing@) =~= Seq::empty());
            }
            net.push(node);
            assert(network_view(net@) =~= with_incoming(before, id@, from@));
        },
    }
}

/// Notes a link to `to` at the node of `id`.
fn note_outgoing(net: &mut Vec<Linking>, id: &StoreId, to: &StoreId)
    requires
        distinct_nodes(network_view(old(net)@)),
    ensures
        network_view(final(net)@) == with_outgoing(network_view(old(net)@), id@, to@),
        distinct_nodes(network_view(final(net)@)),
{
    let ghost before = network_view(net@);
    proof {
        lemma_noting_keeps_distinct(before, id@, to@);
    }
    match find_node(net, id) {
        Some(i) => {
            let ghost held = ids_view(net@[i as int].outgoing@);
            net[i].outgoing.push(to.clone());
            proof {
                assert(ids_view(net@[i as int].outgoing@) =~= held.push(to@));
                assert(network_view(net@) =~= with_outgoing(before, id@, to@));
            }
        },
        None => {
            let mut outgoing: Vec<StoreId> = Vec::new();
            outgoing.push(to.clone());
            let node = Linking { id: id.clone(), outgoing, incoming: Vec::new() };
            proof {
                assert(ids_view(node.outgoing@) =~= seq![to@]);
                assert(ids_view(node.incoming@) =~= Seq::empty());
            }
            net.push(node);
            assert(network_view(net@) =~= with_outgoing(before, id@, to@));
        },
    }
}

/// Builds the link network of a sequence of links.
pub fn aggregate_link_network(edges: &Vec<Edge>) -> (net: Vec<Linking>)
    ensures
        network_view(net@) == network_of(edges_view(edges@)),
        distinct_nodes(network_view(net@)),
{
    let ghost all = edges_view(edges@);
    let mut net: Vec<Linking> = Vec::new();
    let mut i: usize = 0;
    assert(all.take(0) =~= Seq::empty());
    assert(network_view(net@) =~= Seq::empty());
    while i < edges.len()
        invariant
            i <= edges@.len(),
            all == edges_view(edges@),
            network_view(net@) == network_of(all.take(i as int)),
            distinct_nodes(network_view(net@)),
        decreases edges@.len() - i,
    {
        proof {
            assert(all.take(i + 1).drop_last() =~= all.take(i as int));
            assert(all.take(i + 1).last() == all[i as int]);
        }
        note_incoming(&mut net, &edges[i].target, &edges[i].source);
        note_outgoing(&mut net, &edges[i].source, &edges[i].target);
        i += 1;
    }
    assert(all.take(i as int) =~= all);
    net
}

/// Whether the entry `id` is missing: the store does not hold it, cannot
/// read it, or holds it while it is not there on what backs the store.
pub open spec fn is_dead(s: Seq<SlotModel>, id: Seq<char>) -> bool {
    !(holds(s, id) && slot_of(s, id).healthy && slot_of(s, id).on_backing)
}

/// The entries of the network that are missing, in the network's order.
pub open spec fn dead_targets(net: Seq<NodeModel>, s: Seq<SlotModel>) -> Seq<Seq<char>>
    decreases net.len(),
{
    if net.len() == 0 {
        Seq::empty()
    } else if is_dead(s, net.last().id) {
        dead_targets(net.drop_last(), s).push(net.last().id)
    } else {
        dead_targets(net.drop_last(), s)
    }
}

/// Among the first `n` outgoing links of a node, those that no incoming link
/// of the node mirrors, in order.
pub open spec fn lone_links(node: NodeModel, n: int) -> Seq<EdgeModel>
    decreases n,
{
    if n <= 0 || n > node.outgoing.len() {
        Seq::empty()
    } else if node.incoming.contains(node.outgoing[n - 1]) {
        lone_links(node, n - 1)
    } else {
        lone_links(node, n - 1).push(
            EdgeModel { source: node.id, target: node.outgoing[n - 1] },
        )
    }
}

/// The links of the network that go one way only, by node and then in the
/// order of the node's outgoing links. The target of such a link is the
/// entry that lacks the link back.
pub open spec fn unmirrored(net: Seq<NodeModel>) -> Seq<EdgeModel>
    decreases net.len(),
{
    if net.len() == 0 {
        Seq::empty()
    } else {
        unmirrored(net.drop_last()) + lone_links(net.last(), net.last().outgoing.len() as int)
    }
}

/// What was found wrong with one link.
#[derive(Debug)]
pub enum StoreLinkConsistencyErrorCustomData {
    /// A link names an entry that is missing.
    DeadLink { target: StoreId },
    /// `source` links to `target`, and `target` does not link back.
    OneDirectionalLink { source: StoreId, target: StoreId },
}

/// What a finding says.
pub ghost enum FindingModel {
    DeadLink { target: Seq<char> },
    OneDirectionalLink { source: Seq<char>, target: Seq<char> },
}

impl View for StoreLinkConsistencyErrorCustomData {
    type V = FindingModel;

    open spec fn view(&self) -> FindingModel {
        match self {
            StoreLinkConsistencyErrorCustomData::DeadLink { target } => FindingModel::DeadLink {
                target: target@,
            },
            StoreLinkConsistencyErrorCustomData::OneDirectionalLink { source, target } =>
                FindingModel::OneDirectionalLink { source: source@, target: target@ },
        }
    }
}

/// The words for a missing entry.
pub open spec fn dead_link_text(target: Seq<char>) -> Seq<char> {
    "Dead Link to '"@ + target + "'"@
}

/// The words for a one-way link.
pub open spec fn one_directional_text(source: Seq<char>, target: Seq<char>) -> Seq<char> {
    "Link from '"@ + source + "' to '"@ + target + "' does exist, but not other way round"@
}

impl StoreLinkConsistencyErrorCustomData {
    /// The finding in words, the entries named by their local parts.
    pub fn description(&self) -> (text: String)
        ensures
            text@ == (match self@ {
                FindingModel::DeadLink { target } => dead_link_text(target),
                FindingModel::OneDirectionalLink { source, target } => one_directional_text(
                    source,
                    target,
                ),
            }),
    {
        match self {
            StoreLinkConsistencyErrorCustomData::DeadLink { target } => {
                String::from_str("Dead Link to '").concat(target.local_part().as_str()).concat("'")
            },
            StoreLinkConsistencyErrorCustomData::OneDirectionalLink { source, target } => {
                String::from_str("Link from '").concat(source.local_part().as_str()).concat(
                    "' to '",
                ).concat(target.local_part().as_str()).concat(
                    "' does exist, but not other way round",
                )
            },
        }
    }
}

/// What each finding of a sequence says.
pub open spec fn findings_view(findings: Seq<StoreLinkConsistencyErrorCustomData>) -> Seq<
    FindingModel,
> {
    Seq::new(findings.len(), |i: int| findings[i]@)
}

/// The findings that name the missing entries `dead`.
pub open spec fn dead_findings(dead: Seq<Seq<char>>) -> Seq<FindingModel> {
    Seq::new(dead.len(), |i: int| FindingModel::DeadLink { target: dead[i] })
}

/// The findings that name the one-way links `lone`.
pub open spec fn lone_findings(lone: Seq<EdgeModel>) -> Seq<FindingModel> {
    Seq::new(
        lone.len(),
        |i: int| FindingModel::OneDirectionalLink { source: lone[i].source, target: lone[i].target },
    )
}

/// The kinds of failure of a check.
#[derive(Clone, Copy, Debug, PartialEq, Eq, Structural)]
pub enum StoreLinkConsistencyErrorKind {
    /// Links go one way only.
    StoreLinkConsistencyError,
    /// Links name entries that are missing.
    LinkHandlingError,
    /// The store, or the links of an entry, could not be read.
    StoreError,
}

/// The words for a kind of failure.
pub open spec fn kind_text(kind: StoreLinkConsistencyErrorKind) -> Seq<char> {
    match kind {
        StoreLinkConsistencyErrorKind::StoreLinkConsistencyError =>
            "Links in the store are not consistent"@,
        StoreLinkConsistencyErrorKind::LinkHandlingError => "Error in link handling"@,
        StoreLinkConsistencyErrorKind::StoreError => "Error while talking to the store"@,
    }
}

impl StoreLinkConsistencyErrorKind {
    /// The kind in words.
    pub fn description(&self) -> (text: String)
        ensures
            text@ == kind_text(*self),
    {
        match self {
            StoreLinkConsistencyErrorKind::StoreLinkConsistencyError => String::from_str(
                "Links in the store are not consistent",
            ),
            StoreLinkConsistencyErrorKind::LinkHandlingError => String::from_str(
                "Error in link handling",
            ),
            StoreLinkConsistencyErrorKind::StoreError => String::from_str(
                "Error while talking to the store",
            ),
        }
    }
}

/// Why a check failed, with everything that was found of that kind.
#[derive(Debug)]
pub struct StoreLinkConsistencyError {
    pub kind: StoreLinkConsistencyErrorKind,
    pub findings: Vec<StoreLinkConsistencyErrorCustomData>,
}

/// The outcome of a check.
pub ghost enum Verdict {
    /// Every link names an entry that is there and is mirrored.
    Consistent,
    /// An entry, or its links, could not be read.
    Unreadable,
    /// These entries are named by links and missing.
    DeadLinks(Seq<Seq<char>>),
    /// These links go one way only.
    OneDirectional(Seq<EdgeModel>),
}

/// The outcome of checking the links of the entries `ids` against the store:
/// missing entries come before one-way links, and every instance of the
/// first kind met is named.
pub open spec fn verdict(s: Seq<SlotModel>, ids: Seq<Seq<char>>) -> Verdict {
    match edges_of(s, ids) {
        None => Verdict::Unreadable,
        Some(edges) => {
            let net = network_of(edges);
            if dead_targets(net, s).len() > 0 {
                Verdict::DeadLinks(dead_targets(net, s))
            } else if unmirrored(net).len() > 0 {
                Verdict::OneDirectional(unmirrored(net))
            } else {
                Verdict::Consistent
            }
        },
    }
}

/// Whether the result `r` of a check says what the verdict `v` says.
pub open spec fn reports(r: Result<(), StoreLinkConsistencyError>, v: Verdict) -> bool {
    match v {
        Verdict::Consistent => r is Ok,
        Verdict::Unreadable => r is Err && r->Err_0.kind == StoreLinkConsistencyErrorKind::StoreError
            && r->Err_0.findings@.len() == 0,
        Verdict::DeadLinks(dead) => r is Err && r->Err_0.kind
            == StoreLinkConsistencyErrorKind::LinkHandlingError && findings_view(
            r->Err_0.findings@,
        ) == dead_findings(dead),
        Verdict::OneDirectional(lone) => r is Err && r->Err_0.kind
            == StoreLinkConsistencyErrorKind::StoreLinkConsistencyError && findings_view(
            r->Err_0.findings@,
        ) == lone_findings(lone),
    }
}

/// Names the entries of the network that are missing.
fn all_collected_storeids_exist(net: &Vec<Linking>, store: &Store) -> (dead: Vec<
    StoreLinkConsistencyErrorCustomData,
>)
    requires
        store.wf(),
    ensures
        findings_view(dead@) == dead_findings(dead_targets(network_view(net@), store@)),
{
    let ghost nodes = network_view(net@);
    let mut dead: Vec<StoreLinkConsistencyErrorCustomData> = Vec::new();
    let mut i: usize = 0;
    assert(nodes.take(0) =~= Seq::empty());
    assert(findings_view(dead@) =~= dead_findings(Seq::empty()));
    while i < net.len()
        invariant
            i <= net@.len(),
            store.wf(),
            nodes == network_view(net@),
            findings_view(dead@) == dead_findings(dead_targets(nodes.take(i as int), store@)),
        decreases net@.len() - i,
    {
        let ghost before = dead_targets(nodes.take(i as int), store@);
        let ghost found = findings_view(dead@);
        proof {
            assert(nodes.take(i + 1).drop_last() =~= nodes.take(i as int));
            assert(nodes.take(i + 1).last() == nodes[i as int]);
        }
        let id = &net[i].id;
        let alive = match store.get(id) {
            Ok(Some(_)) => store.exists_on_backing(id),
            _ => false,
        };
        if !alive {
            dead.push(StoreLinkConsistencyErrorCustomData::DeadLink { target: id.clone() });
            assert(findings_view(dead@) =~= found.push(FindingModel::DeadLink { target: id@ }));
            assert(dead_findings(before.push(id@)) =~= dead_findings(before).push(
                FindingModel::DeadLink { target: id@ },
            ));
        }
        i += 1;
    }
    assert(nodes.take(i as int) =~= nodes);
    dead
}

/// Whether one of `ids` names the entry that `id` names.
fn names(ids: &Vec<StoreId>, id: &StoreId) -> (b: bool)
    ensures
        b == ids_view(ids@).contains(id@),
{
    let ghost view = ids_view(ids@);
    let mut i: usize = 0;
    while i < ids.len()
        invariant
            i <= ids@.len(),
            view == ids_view(ids@),
            forall|j: int| 0 <= j < i ==> view[j] != id@,
        decreases ids@.len() - i,
    {
        if ids[i].same_entry(id) {
            assert(view[i as int] == id@);
            return true;
        }
        i += 1;
    }
    false
}

/// Names the links of the network that go one way only.
fn outgoing_links_exist_as_incoming_links(net: &Vec<Linking>) -> (lone: Vec<
    StoreLinkConsistencyErrorCustomData,
>)
    ensures
        findings_view(lone@) == lone_findings(unmirrored(network_view(net@))),
{
    let ghost nodes = network_view(net@);
    let mut lone: Vec<StoreLinkConsistencyErrorCustomData> = Vec::new();
    let mut i: usize = 0;
    assert(nodes.take(0) =~= Seq::empty());
    assert(findings_view(lone@) =~= lone_findings(Seq::empty()));
    while i < net.len()
        invariant
            i <= net@.len(),
            nodes == network_view(net@),
            findings_view(lone@) == lone_findings(unmirrored(nodes.take(i as int))),
        decreases net@.len() - i,
    {
        let ghost done = unmirrored(nodes.take(i as int));
        let ghost node = nodes[i as int];
        proof {
            assert(nodes.take(i + 1).drop_last() =~= nodes.take(i as int));
            assert(nodes.take(i + 1).last() == node);
            assert(done + lone_links(node, 0) =~= done);
        }
        let linking = &net[i];
        let mut k: usize = 0;
        while k < linking.outgoing.len()
            invariant
                k <= linking.outgoing@.len(),
                linking@ == node,
                findings_view(lone@) == lone_findings(done + lone_links(node, k as int)),
            decreases linking.outgoing@.len() - k,
        {
            let ghost sofar = lone_links(node, k as int);
            let ghost found = findings_view(lone@);
            let target = &linking.outgoing[k];
            assert(node.outgoing[k as int] == target@);
            if !names(&linking.incoming, target) {
                lone.push(
                    StoreLinkConsistencyErrorCustomData::OneDirectionalLink {
                        source: linking.id.clone(),
                        target: target.clone(),
                    },
                );
                proof {
                    let e = EdgeModel { source: node.id, target: target@ };
                    assert(findings_view(lone@) =~= found.push(
                        FindingModel::OneDirectionalLink { source: node.id, target: target@ },
                    ));
                    assert(done + sofar.push(e) =~= (done + sofar).push(e));
                    assert(lone_findings((done + sofar).push(e)) =~= lone_findings(
                        done + sofar,
                    ).push(FindingModel::OneDirectionalLink { source: node.id, target: target@ }));
                }
            }
            k += 1;
        }
        i += 1;
    }
    assert(nodes.take(i as int) =~= nodes);
    lone
}

/// Checks the links of the entries that a walk came by against the store.
pub fn check_links(store: &Store, walked: &Vec<StoreObject>) -> (r: Result<
    (),
    StoreLinkConsistencyError,
>)
    requires
        store.wf(),
    ensures
        reports(r, verdict(store@, walked_ids(walked@))),
{
    match collect_edges(store, walked) {
        None => Err(
            StoreLinkConsistencyError {
                kind: StoreLinkConsistencyErrorKind::StoreError,
                findings: Vec::new(),
            },
        ),
        Some(edges) => {
            let net = aggregate_link_network(&edges);
            let dead = all_collected_storeids_exist(&net, store);
            proof {
                let missing = dead_targets(network_view(net@), store@);
                assert(findings_view(dead@).len() == dead@.len());
                assert(dead_findings(missing).len() == missing.len());
            }
            if dead.len() > 0 {
                return Err(
                    StoreLinkConsistencyError {
                        kind: StoreLinkConsistencyErrorKind::LinkHandlingError,
                        findings: dead,
                    },
                );
            }
            let lone = outgoing_links_exist_as_incoming_links(&net);
            proof {
                let one_way = unmirrored(network_view(net@));
                assert(findings_view(lone@).len() == lone@.len());
                assert(lone_findings(one_way).len() == one_way.len());
            }
            if lone.len() > 0 {
                return Err(
                    StoreLinkConsistencyError {
                        kind: StoreLinkConsistencyErrorKind::StoreLinkConsistencyError,
                        findings: lone,
                    },
                );
            }
            Ok(())
        },
    }
}

/// A store whose links can be checked.
pub trait StoreLinkConsistentExt {
    /// What the store holds.
    spec fn contents(&self) -> Seq<SlotModel>;

    /// Whether the store is in order as a store.
    spec fn checkable(&self) -> bool;

    /// Checks that every link of every entry names an entry that is there
    /// and that links back.
    fn check_link_consistency(&self) -> (r: Result<(), StoreLinkConsistencyError>)
        requires
            self.checkable(),
        ensures
            reports(r, verdict(self.contents(), slot_ids(self.contents()))),
    ;
}

impl StoreLinkConsistentExt for Store {
    open spec fn contents(&self) -> Seq<SlotModel> {
        self@
    }

    open spec fn checkable(&self) -> bool {
        self.wf()
    }

    fn check_link_consistency(&self) -> (r: Result<(), StoreLinkConsistencyError>) {
        let walked = self.walk();
        check_links(self, &walked)
    }
}

} // verus!
