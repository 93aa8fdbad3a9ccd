use std::cmp::Ordering;
use vstd::prelude::*;
use vstd::string::*;

use crate::store::{holds, slot_of, Store};
use crate::storeid::{is_local, StoreId};
use crate::text::{lemma_text_lt_order, rank_text, text_lt, Rank};
use crate::value::{Field, FieldModel, Value, ValueModel};

verus! {

/// What a link says: the entry it points to, by local part, and the
/// annotation it carries, if any.
pub ghost struct LinkModel {
    pub target: Seq<char>,
    pub annotation: Option<Seq<char>>,
}

/// A reference from one entry to another, plain or annotated.
#[derive(Debug)]
pub enum Link {
    Id { link: StoreId },
    Annotated { link: StoreId, annotation: String },
}

impl View for Link {
    type V = LinkModel;

    open spec fn view(&self) -> LinkModel {
        match self {
            Link::Id { link } => LinkModel { target: link@, annotation: None },
            Link::Annotated { link, annotation } => LinkModel {
                target: link@,
                annotation: Some(annotation@),
            },
        }
    }
}

/// The plain link to `target`.
pub open spec fn plain(target: Seq<char>) -> LinkModel {
    LinkModel { target, annotation: None }
}

/// The link to `target` annotated with `annotation`.
pub open spec fn annotated(target: Seq<char>, annotation: Seq<char>) -> LinkModel {
    LinkModel { target, annotation: Some(annotation) }
}

/// The key under which an annotated link's table holds the target.
pub open spec fn link_key() -> Seq<char> {
    "link"@
}

/// The key under which an annotated link's table holds the annotation.
pub open spec fn annotation_key() -> Seq<char> {
    "annotation"@
}

/// The header value that stands for a link: the target's local part as a
/// text, or a table of annotation and target.
pub open spec fn value_of(l: LinkModel) -> ValueModel {
    match l.annotation {
        None => ValueModel::Text(l.target),
        Some(a) => ValueModel::Table(
            seq![
                FieldModel { key: annotation_key(), value: ValueModel::Text(a) },
                FieldModel { key: link_key(), value: ValueModel::Text(l.target) },
            ],
        ),
    }
}

/// The strict order of links: plain links come before annotated ones; links
/// of one form are ordered by target, then by annotation.
pub open spec fn link_lt(a: LinkModel, b: LinkModel) -> bool {
    match (a.annotation, b.annotation) {
        (None, None) => text_lt(a.target, b.target),
        (None, Some(_)) => true,
        (Some(_), None) => false,
        (Some(x), Some(y)) => text_lt(a.target, b.target) || (a.target == b.target && text_lt(
            x,
            y,
        )),
    }
}

/// `link_lt` is a strict total order.
pub proof fn lemma_link_lt_order(a: LinkModel, b: LinkModel, c: LinkModel)
    ensures
        !link_lt(a, a),
        link_lt(a, b) ==> !link_lt(b, a),
        link_lt(a, b) && link_lt(b, c) ==> link_lt(a, c),
        a == b || link_lt(a, b) || link_lt(b, a),
{
    lemma_text_lt_order(a.target, b.target, c.target);
    lemma_text_lt_order(b.target, c.target, a.target);
    lemma_text_lt_order(a.target, a.target, a.target);
    match (a.annotation, b.annotation, c.annotation) {
        (Some(x), Some(y), Some(z)) => {
            lemma_text_lt_order(x, y, z);
            lemma_text_lt_order(y, z, x);
        },
        (Some(x), Some(y), None) => {
            lemma_text_lt_order(x, y, x);
        },
        (Some(x), None, _) => {
            lemma_text_lt_order(x, x, x);
        },
        _ => {},
    }
}

impl Link {
    /// Whether the entry that the link points to is there on what backs the
    /// store.
    pub fn target_exists(&self, store: &Store) -> (b: bool)
        requires
            store.wf(),
        ensures
            b == (holds(store@, self@.target) && slot_of(store@, self@.target).on_backing),
    {
        store.exists_on_backing(self.get_store_id())
    }

    /// The target as a path, under the store root that it carries.
    pub fn to_str(&self) -> (s: String)
        ensures
            s@ == (match self.get_store_id_spec().base_text() {
                Some(b) => crate::storeid::joined(b, self@.target),
                None => self@.target,
            }),
    {
        self.get_store_id().to_str()
    }

    /// Whether the link points to the entry that `id` names.
    pub fn eq_store_id(&self, id: &StoreId) -> (b: bool)
        ensures
            b == (self@.target == id@),
    {
        self.get_store_id().same_entry(id)
    }

    /// The identifier inside the link.
    pub open spec fn get_store_id_spec(&self) -> StoreId {
        match self {
            Link::Id { link } => *link,
            Link::Annotated { link, .. } => *link,
        }
    }

    /// The identifier inside the link, which is always present.
    pub fn get_store_id(&self) -> (id: &StoreId)
        ensures
            *id == self.get_store_id_spec(),
            id@ == self@.target,
    {
        match self {
            Link::Id { link } => link,
            Link::Annotated { link, .. } => link,
        }
    }

    /// The identifier inside the link, the link given up.
    pub fn into_storeid(self) -> (id: StoreId)
        ensures
            id == self.get_store_id_spec(),
            id@ == self@.target,
    {
        match self {
            Link::Id { link } => link,
            Link::Annotated { link, .. } => link,
        }
    }

    /// The same link, its target named without a store root.
    pub fn without_base(self) -> (r: Link)
        ensures
            r@ == self@,
            r.get_store_id_spec().base_text() is None,
    {
        match self {
            Link::Id { link } => Link::Id { link: link.without_base() },
            Link::Annotated { link, annotation } => Link::Annotated {
                link: link.without_base(),
                annotation,
            },
        }
    }

    /// The same link, its target named under the store root `base`.
    pub fn with_base(self, base: String) -> (r: Link)
        ensures
            r@ == self@,
            r.get_store_id_spec().base_text() == Some(base@),
    {
        match self {
            Link::Id { link } => Link::Id { link: link.with_base(base) },
            Link::Annotated { link, annotation } => Link::Annotated {
                link: link.with_base(base),
                annotation,
            },
        }
    }

    /// The header value that stands for the link.
    pub fn to_value(&self) -> (v: Value)
        ensures
            v@ == value_of(self@),
            is_local(self@.target),
    {
        match self {
            Link::Id { link } => Value::String(link.local_part().clone()),
            Link::Annotated { link, annotation } => {
                let mut fields: Vec<Field> = Vec::new();
                fields.push(
                    Field {
                        key: String::from_str("annotation"),
                        value: Value::String(annotation.clone()),
                    },
                );
                fields.push(
                    Field {
                        key: String::from_str("link"),
                        value: Value::String(link.local_part().clone()),
                    },
                );
                let v = Value::Table(fields);
                assert(v@ == value_of(self@)) by {
                    assert(fields@[0].value@ == ValueModel::Text(annotation@));
                    assert(fields@[1].value@ == ValueModel::Text(link@));
                    assert(v@->Table_0 =~= value_of(self@)->Table_0);
                }
                v
            },
        }
    }

    /// Where `self` stands against `other` in the order of links.
    pub fn compare(&self, other: &Link) -> (o: Ordering)
        ensures
            o == Ordering::Less <==> link_lt(self@, other@),
            o == Ordering::Equal <==> self@ == other@,
            o == Ordering::Greater <==> link_lt(other@, self@),
    {
        proof {
            lemma_link_lt_order(self@, other@, self@);
        }
        match (self, other) {
            (Link::Id { link: a }, Link::Id { link: b }) => {
                match rank_text(a.local_part().as_str(), b.local_part().as_str()) {
                    Rank::Before => Ordering::Less,
                    Rank::Same => Ordering::Equal,
                    Rank::After => Ordering::Greater,
                }
            },
            (Link::Id { .. }, Link::Annotated { .. }) => Ordering::Less,
            (Link::Annotated { .. }, Link::Id { .. }) => Ordering::Greater,
            (
                Link::Annotated { link: a, annotation: x },
                Link::Annotated { link: b, annotation: y },
            ) => {
                match rank_text(a.local_part().as_str(), b.local_part().as_str()) {
                    Rank::Before => Ordering::Less,
                    Rank::After => Ordering::Greater,
                    Rank::Same => match rank_text(x.as_str(), y.as_str()) {
                        Rank::Before => Ordering::Less,
                        Rank::Same => Ordering::Equal,
                        Rank::After => Ordering::Greater,
                    },
                }
            },
        }
    }
}

impl Clone for Link {
    fn clone(&self) -> (r: Link)
        ensures
            r@ == self@,
            r.get_store_id_spec().base_text() == self.get_store_id_spec().base_text(),
    {
        match self {
            Link::Id { link } => Link::Id { link: link.clone() },
            Link::Annotated { link, annotation } => Link::Annotated {
                link: link.clone(),
                annotation: annotation.clone(),
            },
        }
    }
}

impl PartialEq for Link {
    fn eq(&self, other: &Link) -> (b: bool) {
        match (self, other) {
            (Link::Id { link: a }, Link::Id { link: b }) => a.same_entry(b),
            (
                Link::Annotated { link: a, annotation: x },
                Link::Annotated { link: b, annotation: y },
            ) => a.same_entry(b) && *x == *y,
            _ => false,
        }
    }
}

impl Eq for Link {

}

impl vstd::std_specs::cmp::PartialEqSpecImpl for Link {
    open spec fn obeys_eq_spec() -> bool {
        true
    }

    open spec fn eq_spec(&self, other: &Link) -> bool {
        self@ == other@
    }
}

impl From<StoreId> for Link {
    fn from(s: StoreId) -> (l: Link) {
        Link::Id { link: s }
    }
}

impl vstd::std_specs::convert::FromSpecImpl<StoreId> for Link {
    open spec fn obeys_from_spec() -> bool {
        true
    }

    open spec fn from_spec(s: StoreId) -> Link {
        Link::Id { link: s }
    }
}

} // verus!
