use vstd::prelude::*;

use crate::canon::{
    canonical, insert_link, lemma_canonical, lemma_canonical_is, lemma_insert_link,
    lemma_sorted_unique, same_links, strictly_sorted,
};
use crate::codec::{
    annotated_parts, decode_each, decode_element, decode_field, decode_items, encode,
    has_link_shape, lemma_push_contains,
};
use crate::entry::{field_with, field_without, pair_result, without_target, written};
use crate::link::{annotated, annotation_key, link_key, plain, value_of, LinkModel};
use crate::storeid::is_local;
use crate::value::ValueModel;

verus! {

/// Every target of `s` is a local identifier.
pub open spec fn all_local(s: Seq<LinkModel>) -> bool {
    forall|i: int| 0 <= i < s.len() ==> is_local(#[trigger] s[i].target)
}

/// Whether `s` holds a link to the entry `id`, plain or annotated.
pub open spec fn links_to(s: Seq<LinkModel>, id: Seq<char>) -> bool {
    exists|i: int| 0 <= i < s.len() && (#[trigger] s[i]).target == id
}

/// A link that was written is read back as it was.
pub proof fn lemma_value_round_trip(l: LinkModel)
    requires
        is_local(l.target),
    ensures
        decode_element(value_of(l)) == Ok::<LinkModel, crate::error::LinkErrorKind>(l),
        has_link_shape(value_of(l)),
{
    reveal_strlit("link");
    reveal_strlit("annotation");
    assert(link_key().len() == 4);
    assert(annotation_key().len() == 10);
    match l.annotation {
        None => {},
        Some(a) => {
            let fields = value_of(l)->Table_0;
            assert(fields[0].key == annotation_key());
            assert(fields[1].key == link_key());
            assert(annotated_parts(fields) == Some((ValueModel::Text(l.target), ValueModel::Text(a))));
            assert(l == annotated(l.target, a));
        },
    }
}

/// Links that are read from a header name local identifiers only.
pub proof fn lemma_decoded_are_local(items: Seq<ValueModel>)
    requires
        decode_each(items) is Ok,
    ensures
        all_local(decode_each(items)->Ok_0),
        decode_each(items)->Ok_0.len() == items.len(),
    decreases items.len(),
{
    if items.len() > 0 {
        lemma_decoded_are_local(items.drop_last());
    }
}

/// What a link field holds names local identifiers only.
pub proof fn lemma_field_links_are_local(field: Option<ValueModel>)
    requires
        decode_field(field) is Ok,
    ensures
        all_local(decode_field(field)->Ok_0),
{
    match field {
        Some(ValueModel::Sequence(items)) => {
            lemma_decoded_are_local(items);
        },
        _ => {},
    }
}

/// The values of links with local targets are read back as those links.
proof fn lemma_each_round_trip(c: Seq<LinkModel>)
    requires
        all_local(c),
    ensures
        decode_each(Seq::new(c.len(), |i: int| value_of(c[i]))) == Ok::<
            Seq<LinkModel>,
            crate::error::LinkErrorKind,
        >(c),
    decreases c.len(),
{
    let values = Seq::new(c.len(), |i: int| value_of(c[i]));
    if c.len() == 0 {
        assert(c =~= Seq::empty());
    } else {
        let front = c.drop_last();
        assert(all_local(front)) by {
            assert forall|i: int| 0 <= i < front.len() implies is_local(
                #[trigger] front[i].target,
            ) by {
                assert(front[i] == c[i]);
            }
        }
        lemma_each_round_trip(front);
        assert(values.drop_last() =~= Seq::new(front.len(), |i: int| value_of(front[i])));
        assert(values.last() == value_of(c.last()));
        assert(is_local(c[c.len() - 1].target));
        lemma_value_round_trip(c.last());
        assert(front.push(c.last()) =~= c);
    }
}

/// The canonical form of links with local targets has local targets.
pub proof fn lemma_canonical_local(s: Seq<LinkModel>)
    requires
        all_local(s),
    ensures
        all_local(canonical(s)),
{
    lemma_canonical(s);
    let c = canonical(s);
    assert forall|i: int| 0 <= i < c.len() implies is_local(#[trigger] c[i].target) by {
        assert(c.contains(c[i]));
        assert(s.contains(c[i]));
        let k = choose|k: int| 0 <= k < s.len() && s[k] == c[i];
        assert(is_local(s[k].target));
    }
}

/// Reading what was written gives the canonical form of the links written:
/// each link once, in the order of links.
pub proof fn lemma_written_is_read(s: Seq<LinkModel>)
    requires
        all_local(s),
    ensures
        decode_field(written(s)) == Ok::<Seq<LinkModel>, crate::error::LinkErrorKind>(
            canonical(s),
        ),
{
    let c = canonical(s);
    lemma_canonical_local(s);
    lemma_each_round_trip(c);
    let values = encode(s);
    assert(values =~= Seq::new(c.len(), |i: int| value_of(c[i])));
    assert forall|i: int| 0 <= i < values.len() implies has_link_shape(#[trigger] values[i]) by {
        lemma_value_round_trip(c[i]);
    }
    assert(decode_items(values) == decode_each(values));
}

/// A strictly sorted sequence is its own canonical form.
pub proof fn lemma_canonical_of_sorted(s: Seq<LinkModel>)
    requires
        strictly_sorted(s),
    ensures
        canonical(s) == s,
{
    lemma_canonical_is(s, s);
}

/// The canonical form of a sequence and one more link is the canonical form
/// of the sequence with the link put at its place.
pub proof fn lemma_canonical_push(s: Seq<LinkModel>, l: LinkModel)
    ensures
        canonical(s.push(l)) == insert_link(canonical(s), l),
{
    assert(s.push(l).drop_last() =~= s);
}

/// A link that a strictly sorted sequence lacks makes it longer by one.
pub proof fn lemma_insert_new_link(s: Seq<LinkModel>, l: LinkModel)
    requires
        strictly_sorted(s),
        !s.contains(l),
    ensures
        insert_link(s, l).len() == s.len() + 1,
    decreases s.len(),
{
    if s.len() > 0 {
        assert(s[s.len() - 1] == s.last());
        if !crate::link::link_lt(s.last(), l) {
            let front = s.drop_last();
            assert(strictly_sorted(front)) by {
                assert forall|i: int, j: int| 0 <= i < j < front.len() implies crate::link::link_lt(
                    front[i],
                    front[j],
                ) by {
                    assert(front[i] == s[i] && front[j] == s[j]);
                }
            }
            if front.contains(l) {
                let k = choose|k: int| 0 <= k < front.len() && front[k] == l;
                assert(s[k] == l);
            }
            lemma_insert_new_link(front, l);
        }
    }
}

/// A link that a strictly sorted sequence holds changes nothing.
pub proof fn lemma_insert_held_link(s: Seq<LinkModel>, l: LinkModel)
    requires
        strictly_sorted(s),
        s.contains(l),
    ensures
        insert_link(s, l) == s,
{
    lemma_insert_link(s, l);
    lemma_sorted_unique(insert_link(s, l), s);
}

/// After a link was added to an entry, the entry's links hold it: a plain
/// link to the other entry after a plain one was added, an annotated link
/// with its annotation after an annotated one was added. The entry's links
/// are the canonical form of what it held and the new link.
pub proof fn lemma_added_link_is_held(field: Option<ValueModel>, l: LinkModel)
    requires
        decode_field(field) is Ok,
        is_local(l.target),
    ensures
        decode_field(field_with(field, l)) == Ok::<Seq<LinkModel>, crate::error::LinkErrorKind>(
            canonical(decode_field(field)->Ok_0.push(l)),
        ),
        decode_field(field_with(field, l))->Ok_0.contains(l),
{
    let held = decode_field(field)->Ok_0;
    lemma_field_links_are_local(field);
    let all = held.push(l);
    assert(all_local(all)) by {
        assert forall|i: int| 0 <= i < all.len() implies is_local(#[trigger] all[i].target) by {
            if i < held.len() {
                assert(all[i] == held[i]);
            }
        }
    }
    lemma_written_is_read(all);
    lemma_canonical(all);
    assert(all[held.len() as int] == l);
    assert(all.contains(l));
}

/// Adding a link that an entry lacks makes its links one more, where the
/// entry's links were in canonical form.
pub proof fn lemma_add_grows_by_one(field: Option<ValueModel>, l: LinkModel)
    requires
        decode_field(field) is Ok,
        strictly_sorted(decode_field(field)->Ok_0),
        !decode_field(field)->Ok_0.contains(l),
        is_local(l.target),
    ensures
        decode_field(field_with(field, l))->Ok_0.len() == decode_field(field)->Ok_0.len() + 1,
{
    let held = decode_field(field)->Ok_0;
    lemma_added_link_is_held(field, l);
    lemma_canonical_push(held, l);
    lemma_canonical_of_sorted(held);
    lemma_insert_new_link(held, l);
}

/// Adding a link twice gives the link field that adding it once gives.
pub proof fn lemma_add_is_idempotent(field: Option<ValueModel>, l: LinkModel)
    requires
        decode_field(field) is Ok,
        is_local(l.target),
    ensures
        field_with(field_with(field, l), l) == field_with(field, l),
{
    let held = decode_field(field)->Ok_0;
    lemma_added_link_is_held(field, l);
    let once = canonical(held.push(l));
    lemma_canonical(held.push(l));
    lemma_canonical_push(once, l);
    lemma_canonical_of_sorted(once);
    lemma_insert_held_link(once, l);
    assert(canonical(once.push(l)) == once);
    assert(encode(once.push(l)) =~= encode(held.push(l)));
}

/// Taking the links to one entry out of a strictly sorted sequence leaves
/// it strictly sorted, with exactly the links to other entries.
pub proof fn lemma_without_target(s: Seq<LinkModel>, id: Seq<char>)
    requires
        strictly_sorted(s),
    ensures
        strictly_sorted(without_target(s, id)),
        forall|x: LinkModel|
            #![trigger without_target(s, id).contains(x)]
            without_target(s, id).contains(x) <==> (s.contains(x) && x.target != id),
    decreases s.len(),
{
    reveal(Seq::filter);
    let keep = |l: LinkModel| l.target != id;
    let r = without_target(s, id);
    if s.len() == 0 {
        assert forall|x: LinkModel| r.contains(x) <==> (s.contains(x) && x.target != id) by {}
    } else {
        let front = s.drop_last();
        let last = s.last();
        assert(strictly_sorted(front)) by {
            assert forall|i: int, j: int| 0 <= i < j < front.len() implies crate::link::link_lt(
                front[i],
                front[j],
            ) by {
                assert(front[i] == s[i] && front[j] == s[j]);
            }
        }
        lemma_without_target(front, id);
        let r0 = without_target(front, id);
        assert(r == if keep(last) { r0.push(last) } else { r0 });
        assert forall|x: LinkModel| front.contains(x) implies s.contains(x) && crate::link::link_lt(
            x,
            last,
        ) by {
            let k = choose|k: int| 0 <= k < front.len() && front[k] == x;
            assert(s[k] == x);
        }
        assert forall|x: LinkModel| s.contains(x) implies front.contains(x) || x == last by {
            let k = choose|k: int| 0 <= k < s.len() && s[k] == x;
            if k < front.len() {
                assert(front[k] == x);
            }
        }
        assert(s[s.len() - 1] == last);
        assert forall|x: LinkModel| r.contains(x) <==> (s.contains(x) && x.target != id) by {
            lemma_push_contains(r0, last, x);
        }
        if keep(last) {
            assert forall|i: int, j: int| 0 <= i < j < r.len() implies crate::link::link_lt(
                r[i],
                r[j],
            ) by {
                if j == r0.len() {
                    assert(r0.contains(r0[i]));
                    assert(front.contains(r0[i]));
                } else {
                    assert(r[i] == r0[i] && r[j] == r0[j]);
                }
            }
        }
    }
}

/// Removing the link to an entry after adding it gives back the links that
/// the entry held before, where those were in canonical form and held no
/// link to that entry.
pub proof fn lemma_remove_undoes_add(field: Option<ValueModel>, id: Seq<char>)
    requires
        decode_field(field) is Ok,
        strictly_sorted(decode_field(field)->Ok_0),
        !links_to(decode_field(field)->Ok_0, id),
        is_local(id),
    ensures
        decode_field(field_without(field_with(field, plain(id)), id)) == decode_field(field),
{
    let held = decode_field(field)->Ok_0;
    let l = plain(id);
    lemma_added_link_is_held(field, l);
    let added = canonical(held.push(l));
    lemma_canonical(held.push(l));
    lemma_without_target(added, id);
    let left = without_target(added, id);
    assert(same_links(left, held)) by {
        assert forall|x: LinkModel| left.contains(x) <==> held.contains(x) by {
            lemma_push_contains(held, l, x);
            if held.contains(x) {
                let k = choose|k: int| 0 <= k < held.len() && held[k] == x;
                assert(held[k].target != id);
            }
        }
    }
    lemma_sorted_unique(left, held);
    lemma_field_links_are_local(field);
    lemma_written_is_read(held);
    lemma_canonical_of_sorted(held);
}

/// The same links give the same header values, in whatever order and however
/// often they are given.
pub proof fn lemma_encoding_is_canonical(a: Seq<LinkModel>, b: Seq<LinkModel>)
    requires
        same_links(a, b),
    ensures
        encode(a) == encode(b),
{
    lemma_canonical(a);
    lemma_canonical(b);
    lemma_sorted_unique(canonical(a), canonical(b));
}

/// After one entry was linked to another with success, each of the two
/// holds a plain link to the other.
pub proof fn lemma_add_link_links_both(
    own: Option<ValueModel>,
    other: Option<ValueModel>,
    own_id: Seq<char>,
    other_id: Seq<char>,
)
    requires
        pair_result(own, other) is Ok,
        is_local(own_id),
        is_local(other_id),
    ensures
        decode_field(field_with(own, plain(other_id))) is Ok,
        decode_field(field_with(own, plain(other_id)))->Ok_0.contains(plain(other_id)),
        decode_field(field_with(other, plain(own_id))) is Ok,
        decode_field(field_with(other, plain(own_id)))->Ok_0.contains(plain(own_id)),
{
    lemma_added_link_is_held(own, plain(other_id));
    lemma_added_link_is_held(other, plain(own_id));
}

/// After one entry was linked to another by an annotated link, the entry
/// holds the link with its annotation, and the other entry holds a plain
/// link back: the annotation stays on one side.
pub proof fn lemma_annotation_stays_on_one_side(
    own: Option<ValueModel>,
    other: Option<ValueModel>,
    own_id: Seq<char>,
    other_id: Seq<char>,
    annotation: Seq<char>,
)
    requires
        pair_result(own, other) is Ok,
        is_local(own_id),
        is_local(other_id),
    ensures
        decode_field(field_with(own, annotated(other_id, annotation))) is Ok,
        decode_field(field_with(own, annotated(other_id, annotation)))->Ok_0.contains(
            annotated(other_id, annotation),
        ),
        decode_field(field_with(other, plain(own_id))) is Ok,
        decode_field(field_with(other, plain(own_id)))->Ok_0.contains(plain(own_id)),
        forall|note: Seq<char>|
            decode_field(field_with(other, plain(own_id)))->Ok_0.contains(
                #[trigger] annotated(own_id, note),
            ) ==> decode_field(other)->Ok_0.contains(annotated(own_id, note)),
{
    lemma_added_link_is_held(own, annotated(other_id, annotation));
    lemma_added_link_is_held(other, plain(own_id));
    let held = decode_field(other)->Ok_0;
    lemma_canonical(held.push(plain(own_id)));
    assert forall|note: Seq<char>|
        decode_field(field_with(other, plain(own_id)))->Ok_0.contains(
            #[trigger] annotated(own_id, note),
        ) implies held.contains(annotated(own_id, note)) by {
        lemma_push_contains(held, plain(own_id), annotated(own_id, note));
    }
}

} // verus!
