use itertools::Itertools;
use vstd::prelude::*;
use vstd::seq_lib::*;
use vstd::string::*;

use crate::canon::{canonical, lemma_canonical_is, same_links, sorted, strictly_sorted};
use crate::iter::LinkIter;
use crate::link::{lemma_link_lt_order, link_lt, value_of};

use crate::error::{from_store_error, store_failure, LinkErrorKind, StoreError};
use crate::link::{annotated, annotation_key, link_key, plain, Link, LinkModel};
use crate::storeid::{is_local, StoreId};
use crate::value::{
    lemma_sequence_view, lemma_table_view, values_view, FieldModel, Value, ValueModel,
};

verus! {

/// What each link of a sequence says.
pub open spec fn links_view(links: Seq<Link>) -> Seq<LinkModel> {
    Seq::new(links.len(), |i: int| links[i]@)
}

/// The target and the annotation of a table that holds exactly those two.
pub open spec fn annotated_parts(fields: Seq<FieldModel>) -> Option<(ValueModel, ValueModel)> {
    if fields.len() == 2 && fields[0].key == link_key() && fields[1].key == annotation_key() {
        Some((fields[0].value, fields[1].value))
    } else if fields.len() == 2 && fields[0].key == annotation_key() && fields[1].key
        == link_key() {
        Some((fields[1].value, fields[0].value))
    } else {
        None
    }
}

/// The link that one element of the link field stands for. A text is a plain
/// link, a table of exactly a link and an annotation, both texts, is an
/// annotated one; the target must be a local identifier.
pub open spec fn decode_element(v: ValueModel) -> Result<LinkModel, LinkErrorKind> {
    match v {
        ValueModel::Text(s) => if is_local(s) {
            Ok(plain(s))
        } else {
            Err(LinkErrorKind::StoreIdError)
        },
        ValueModel::Table(fields) => match annotated_parts(fields) {
            Some((ValueModel::Text(l), ValueModel::Text(a))) => if is_local(l) {
                Ok(annotated(l, a))
            } else {
                Err(LinkErrorKind::StoreIdError)
            },
            _ => Err(LinkErrorKind::LinkParserError),
        },
        _ => Err(LinkErrorKind::LinkParserError),
    }
}

/// The links of the elements in order, or the error of the first element
/// that stands for none.
pub open spec fn decode_each(items: Seq<ValueModel>) -> Result<Seq<LinkModel>, LinkErrorKind>
    decreases items.len(),
{
    if items.len() == 0 {
        Ok(Seq::empty())
    } else {
        match decode_each(items.drop_last()) {
            Err(e) => Err(e),
            Ok(links) => match decode_element(items.last()) {
                Err(e) => Err(e),
                Ok(l) => Ok(links.push(l)),
            },
        }
    }
}

/// Whether a value has one of the two shapes that an element of the link
/// field may have.
pub open spec fn has_link_shape(v: ValueModel) -> bool {
    v is Text || v is Table
}

/// The links that a sequence of header values stands for. An element of
/// another shape than text or table is refused before any element is read.
pub open spec fn decode_items(items: Seq<ValueModel>) -> Result<Seq<LinkModel>, LinkErrorKind> {
    if exists|i: int| 0 <= i < items.len() && !has_link_shape(#[trigger] items[i]) {
        Err(LinkErrorKind::LinkParserError)
    } else {
        decode_each(items)
    }
}

/// The links that a link field stands for: none where the field is absent,
/// an error where it is present and no sequence.
pub open spec fn decode_field(field: Option<ValueModel>) -> Result<Seq<LinkModel>, LinkErrorKind> {
    match field {
        None => Ok(Seq::empty()),
        Some(ValueModel::Sequence(items)) => decode_items(items),
        Some(_) => Err(LinkErrorKind::ExistingLinkTypeWrong),
    }
}

/// The view of an optional header value.
pub open spec fn field_view(field: Option<Value>) -> Option<ValueModel> {
    match field {
        Some(v) => Some(v@),
        None => None,
    }
}

/// Reads one element of the link field.
pub fn decode_value(v: &Value) -> (r: Result<Link, LinkErrorKind>)
    ensures
        match decode_element(v@) {
            Ok(l) => r is Ok && r->Ok_0@ == l,
            Err(e) => r == Err::<Link, LinkErrorKind>(e),
        },
{
    match v {
        Value::String(s) => match StoreId::new_baseless(s.clone()) {
            Ok(id) => Ok(Link::Id { link: id }),
            Err(_) => Err(LinkErrorKind::StoreIdError),
        },
        Value::Table(fields) => {
            let ghost model = v@->Table_0;
            proof {
                lemma_table_view(*v);
            }
            if fields.len() != 2 {
                return Err(LinkErrorKind::LinkParserError);
            }
            let link_name = String::from_str("link");
            let annotation_name = String::from_str("annotation");
            let (target, note) = if fields[0].key == link_name && fields[1].key == annotation_name {
                (&fields[0].value, &fields[1].value)
            } else if fields[0].key == annotation_name && fields[1].key == link_name {
                (&fields[1].value, &fields[0].value)
            } else {
                return Err(LinkErrorKind::LinkParserError);
            };
            assert(annotated_parts(model) == Some((target@, note@)));
            match (target, note) {
                (Value::String(l), Value::String(a)) => {
                    match StoreId::new_baseless(l.clone()) {
                        Ok(id) => Ok(Link::Annotated { link: id, annotation: a.clone() }),
                        Err(_) => Err(LinkErrorKind::StoreIdError),
                    }
                },
                _ => Err(LinkErrorKind::LinkParserError),
            }
        },
        _ => Err(LinkErrorKind::LinkParserError),
    }
}

/// Reads the elements of the link field.
pub fn decode_links(items: &Vec<Value>) -> (r: Result<Vec<Link>, LinkErrorKind>)
    ensures
        match decode_items(values_view(items@)) {
            Ok(links) => r is Ok && links_view(r->Ok_0@) == links,
            Err(e) => r == Err::<Vec<Link>, LinkErrorKind>(e),
        },
{
    let ghost models = values_view(items@);
    let mut i: usize = 0;
    while i < items.len()
        invariant
            i <= items.len(),
            models == values_view(items@),
            forall|j: int| 0 <= j < i ==> has_link_shape(#[trigger] models[j]),
        decreases items.len() - i,
    {
        let shaped = match &items[i] {
            Value::String(_) => true,
            Value::Table(_) => true,
            _ => false,
        };
        assert(shaped == has_link_shape(models[i as int]));
        if !shaped {
            return Err(LinkErrorKind::LinkParserError);
        }
        i += 1;
    }
    let mut links: Vec<Link> = Vec::new();
    let mut k: usize = 0;
    assert(models.take(0) =~= Seq::empty());
    assert(links_view(links@) =~= Seq::empty());
    while k < items.len()
        invariant
            k <= items.len(),
            models == values_view(items@),
            forall|j: int| 0 <= j < items.len() ==> has_link_shape(#[trigger] models[j]),
            decode_each(models.take(k as int)) == Ok::<Seq<LinkModel>, LinkErrorKind>(
                links_view(links@),
            ),
        decreases items.len() - k,
    {
        let ghost before = links_view(links@);
        assert(models.take(k + 1).drop_last() =~= models.take(k as int));
        assert(models.take(k + 1).last() == items@[k as int]@);
        match decode_value(&items[k]) {
            Err(e) => {
                proof {
                    lemma_decode_each_fails(models, k + 1);
                }
                return Err(e);
            },
            Ok(l) => {
                links.push(l);
                assert(links_view(links@) =~= before.push(l@));
            },
        }
        k += 1;
    }
    assert(models.take(k as int) =~= models);
    Ok(links)
}

/// An error among the first `n` elements is the error of the whole.
pub proof fn lemma_decode_each_fails(items: Seq<ValueModel>, n: int)
    requires
        0 <= n <= items.len(),
        decode_each(items.take(n)) is Err,
    ensures
        decode_each(items) == decode_each(items.take(n)),
    decreases items.len() - n,
{
    if n < items.len() {
        assert(items.take(n + 1).drop_last() =~= items.take(n));
        lemma_decode_each_fails(items, n + 1);
    } else {
        assert(items.take(n) =~= items);
    }
}

/// The header values of the canonical form of `s`.
pub open spec fn encode(s: Seq<LinkModel>) -> Seq<ValueModel> {
    Seq::new(canonical(s).len(), |i: int| value_of(canonical(s)[i]))
}

/// Sorts links with `Itertools::sorted_by` under `Link::compare`. The result
/// holds the links that were given, each as often as it was given, and none
/// of them stands before a link that the order puts ahead of it.
#[verifier::external_body]
fn sorted_links(links: Vec<Link>) -> (out: Vec<Link>)
    ensures
        links_view(out@).to_multiset() == links_view(links@).to_multiset(),
        sorted(links_view(out@)),
{
    links.into_iter().sorted_by(|a, b| a.compare(b)).collect()
}

/// Drops from a sorted sequence every link that equals the one before it.
fn dedup_sorted(links: &Vec<Link>) -> (out: Vec<Link>)
    requires
        sorted(links_view(links@)),
    ensures
        strictly_sorted(links_view(out@)),
        same_links(links_view(out@), links_view(links@)),
{
    let ghost input = links_view(links@);
    let mut out: Vec<Link> = Vec::new();
    let mut i: usize = 0;
    while i < links.len()
        invariant
            i <= links.len(),
            input == links_view(links@),
            sorted(input),
            strictly_sorted(links_view(out@)),
            forall|x: LinkModel|
                #![trigger links_view(out@).contains(x)]
                #![trigger input.take(i as int).contains(x)]
                links_view(out@).contains(x) <==> input.take(i as int).contains(x),
            i > 0 ==> out@.len() > 0 && out@.last()@ == input[i - 1],
            i == 0 ==> out@.len() == 0,
        decreases links.len() - i,
    {
        let ghost before = links_view(out@);
        let ghost seen = input.take(i as int);
        let ghost cur = input[i as int];
        assert(input.take(i + 1) =~= seen.push(cur));
        let fresh = if i == 0 {
            true
        } else {
            !links[i].eq(&links[i - 1])
        };
        if fresh {
            out.push(links[i].clone());
            proof {
                let after = links_view(out@);
                assert(after =~= before.push(cur));
                if i > 0 {
                    let prev = input[i - 1];
                    lemma_link_lt_order(prev, cur, prev);
                    assert(link_lt(prev, cur));
                    assert forall|a: int, b: int| 0 <= a < b < after.len() implies link_lt(
                        after[a],
                        after[b],
                    ) by {
                        assert(before[before.len() - 1] == prev);
                        if b == before.len() && a < before.len() - 1 {
                            lemma_link_lt_order(before[a], prev, cur);
                        } else if b < before.len() {
                            assert(after[a] == before[a] && after[b] == before[b]);
                        }
                    }
                }
                assert forall|x: LinkModel| after.contains(x) <==> input.take(i + 1).contains(
                    x,
                ) by {
                    lemma_push_contains(before, cur, x);
                    lemma_push_contains(seen, cur, x);
                }
            }
        } else {
            proof {
                assert(seen[i - 1] == cur);
                assert forall|x: LinkModel| before.contains(x) <==> input.take(i + 1).contains(
                    x,
                ) by {
                    lemma_push_contains(seen, cur, x);
                }
            }
        }
        i += 1;
    }
    assert(input.take(i as int) =~= input);
    out
}

/// A sequence with one more link holds that link and what it held before.
pub proof fn lemma_push_contains(s: Seq<LinkModel>, l: LinkModel, x: LinkModel)
    ensures
        s.push(l).contains(x) <==> (s.contains(x) || x == l),
{
    let r = s.push(l);
    if r.contains(x) {
        let i = choose|i: int| 0 <= i < r.len() && r[i] == x;
        if i < s.len() {
            assert(s[i] == x);
        }
    }
    if s.contains(x) {
        let i = choose|i: int| 0 <= i < s.len() && s[i] == x;
        assert(r[i] == x);
    }
    if x == l {
        assert(r[s.len() as int] == x);
    }
}

/// Writes links as header values in canonical form: every target named by
/// its local part, each link once, in the order of links.
pub fn encode_links(links: Vec<Link>) -> (values: Vec<Value>)
    ensures
        values_view(values@) == encode(links_view(links@)),
{
    let ghost input = links_view(links@);
    let mut stripped: Vec<Link> = Vec::new();
    let mut i: usize = 0;
    while i < links.len()
        invariant
            i <= links.len(),
            input == links_view(links@),
            links_view(stripped@) =~= input.take(i as int),
        decreases links.len() - i,
    {
        let ghost before = links_view(stripped@);
        stripped.push(links[i].clone().without_base());
        assert(links_view(stripped@) =~= before.push(input[i as int]));
        i += 1;
    }
    assert(input.take(i as int) =~= input);
    let in_order = sorted_links(stripped);
    let unique = dedup_sorted(&in_order);
    proof {
        let a = links_view(in_order@);
        a.to_multiset_ensures();
        input.to_multiset_ensures();
        assert(same_links(links_view(unique@), input)) by {
            assert forall|x: LinkModel| links_view(unique@).contains(x) <==> input.contains(
                x,
            ) by {
                assert(a.contains(x) <==> a.to_multiset().count(x) > 0);
                assert(input.contains(x) <==> input.to_multiset().count(x) > 0);
            }
        }
        lemma_canonical_is(links_view(unique@), input);
    }
    let mut values: Vec<Value> = Vec::new();
    let mut k: usize = 0;
    while k < unique.len()
        invariant
            k <= unique.len(),
            links_view(unique@) == canonical(input),
            values_view(values@) =~= encode(input).take(k as int),
        decreases unique.len() - k,
    {
        let ghost before = values_view(values@);
        let v = unique[k].to_value();
        values.push(v);
        assert(values_view(values@) =~= before.push(value_of(unique@[k as int]@)));
        assert(links_view(unique@)[k as int] == unique@[k as int]@);
        k += 1;
    }
    assert(encode(input).take(k as int) =~= encode(input));
    values
}

/// Reads what a header handed out for the link field: the failure of the
/// store handed on, no links where the field is absent, else the links that
/// the field stands for.
pub fn process_rw_result(links: Result<Option<Value>, StoreError>) -> (r: Result<
    LinkIter,
    LinkErrorKind,
>)
    ensures
        match links {
            Err(e) => r is Err && r->Err_0 == store_failure(e),
            Ok(field) => match decode_field(field_view(field)) {
                Ok(ls) => r is Ok && r->Ok_0@ == ls,
                Err(e) => r is Err && r->Err_0 == e,
            },
        },
{
    match links {
        Err(e) => Err(from_store_error(e)),
        Ok(None) => {
            let it = LinkIter::new(Vec::new());
            assert(it@ =~= Seq::empty());
            Ok(it)
        },
        Ok(Some(Value::Array(items))) => {
            proof {
                lemma_sequence_view(Value::Array(items));
            }
            match decode_links(&items) {
                Ok(ls) => Ok(LinkIter::new(ls)),
                Err(e) => Err(e),
            }
        },
        Ok(Some(_)) => Err(LinkErrorKind::ExistingLinkTypeWrong),
    }
}

} // verus!
