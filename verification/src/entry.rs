use vstd::prelude::*;

use crate::codec::{
    decode_field, decode_links, encode, encode_links, field_view, links_view,
};
use crate::error::LinkErrorKind;
use crate::iter::LinkIter;
use crate::link::{annotated, plain, Link, LinkModel};
use crate::storeid::StoreId;
use crate::value::{lemma_sequence_view, Value, ValueModel};

verus! {

/// The link field that holds the links `s` in canonical form.
pub open spec fn written(s: Seq<LinkModel>) -> Option<ValueModel> {
    Some(ValueModel::Sequence(encode(s)))
}

/// The links of `s` that do not point to `target`.
pub open spec fn without_target(s: Seq<LinkModel>, target: Seq<char>) -> Seq<LinkModel> {
    s.filter(|l: LinkModel| l.target != target)
}

/// The plain links to the given entries, in their order.
pub open spec fn plain_links(ids: Seq<Seq<char>>) -> Seq<LinkModel> {
    Seq::new(ids.len(), |i: int| plain(ids[i]))
}

/// An entry of the store as the linking sees it: where it lives, and what
/// its header holds in the field of links. Nothing else of the entry is
/// touched by linking.
#[derive(Debug)]
pub struct Entry {
    location: StoreId,
    links: Option<Value>,
}

impl Entry {
    /// The local part of the entry's identifier.
    pub closed spec fn id(&self) -> Seq<char> {
        self.location@
    }

    /// The content of the link field, if the header has one.
    pub closed spec fn field(&self) -> Option<ValueModel> {
        field_view(self.links)
    }

    /// The store root that the entry's identifier carries, if any.
    pub closed spec fn base(&self) -> Option<Seq<char>> {
        self.location.base_text()
    }

    /// An entry at `location` whose header has no link field.
    pub fn new(location: StoreId) -> (e: Entry)
        ensures
            e.id() == location@,
            e.base() == location.base_text(),
            e.field() is None,
    {
        Entry { location, links: None }
    }

    /// An entry at `location` whose header holds `field` as its link field.
    pub fn with_link_field(location: StoreId, field: Option<Value>) -> (e: Entry)
        ensures
            e.id() == location@,
            e.base() == location.base_text(),
            e.field() == field_view(field),
    {
        Entry { location, links: field }
    }

    /// Where the entry lives.
    pub fn get_location(&self) -> (id: &StoreId)
        ensures
            id@ == self.id(),
            id.base_text() == self.base(),
    {
        &self.location
    }

    /// The link field as it stands in the header.
    pub fn link_field(&self) -> (field: &Option<Value>)
        ensures
            field_view(*field) == self.field(),
    {
        &self.links
    }

    /// Replaces the link field by the canonical form of `links`.
    fn rewrite_links(&mut self, links: Vec<Link>)
        ensures
            final(self).id() == old(self).id(),
            final(self).base() == old(self).base(),
            final(self).field() == written(links_view(links@)),
    {
        let values = encode_links(links);
        let v = Value::Array(values);
        proof {
            lemma_sequence_view(v);
        }
        self.links = Some(v);
    }

    /// Reads the links that the link field holds.
    fn read_links(&self) -> (r: Result<Vec<Link>, LinkErrorKind>)
        ensures
            match decode_field(self.field()) {
                Ok(ls) => r is Ok && links_view(r->Ok_0@) == ls,
                Err(e) => r is Err && r->Err_0 == e,
            },
    {
        match &self.links {
            None => {
                let v: Vec<Link> = Vec::new();
                assert(links_view(v@) =~= Seq::empty());
                Ok(v)
            },
            Some(Value::Array(items)) => {
                proof {
                    lemma_sequence_view(self.links->Some_0);
                }
                decode_links(items)
            },
            Some(_) => Err(LinkErrorKind::ExistingLinkTypeWrong),
        }
    }
}

impl Clone for Entry {
    fn clone(&self) -> (e: Entry)
        ensures
            e.id() == self.id(),
            e.base() == self.base(),
            e.field() == self.field(),
    {
        let links = match &self.links {
            Some(v) => Some(v.clone()),
            None => None,
        };
        Entry { location: self.location.clone(), links }
    }
}

/// What one side of a pair of entries holds after a link was added to it:
/// its links and the new one, in canonical form; or the field as it was,
/// where the links could not be read.
pub open spec fn field_with(field: Option<ValueModel>, l: LinkModel) -> Option<ValueModel> {
    match decode_field(field) {
        Ok(ls) => written(ls.push(l)),
        Err(_) => field,
    }
}

/// What one side of a pair of entries holds after the links to `target`
/// were taken from it; or the field as it was, where the links could not be
/// read.
pub open spec fn field_without(field: Option<ValueModel>, target: Seq<char>) -> Option<
    ValueModel,
> {
    match decode_field(field) {
        Ok(ls) => written(without_target(ls, target)),
        Err(_) => field,
    }
}

/// The outcome of an operation on a pair of entries that first reads the
/// other entry's links and then the entry's own: the first error met, if any.
pub open spec fn pair_result(own: Option<ValueModel>, other: Option<ValueModel>) -> Result<
    (),
    LinkErrorKind,
> {
    match decode_field(other) {
        Err(e) => Err(e),
        Ok(_) => match decode_field(own) {
            Err(e) => Err(e),
            Ok(_) => Ok(()),
        },
    }
}

/// Links `target` back to the entry that `from` names.
fn add_foreign_link(target: &mut Entry, from: StoreId) -> (r: Result<(), LinkErrorKind>)
    ensures
        final(target).id() == old(target).id(),
        final(target).base() == old(target).base(),
        final(target).field() == field_with(old(target).field(), plain(from@)),
        match decode_field(old(target).field()) {
            Ok(_) => r == Ok::<(), LinkErrorKind>(()),
            Err(e) => r == Err::<(), LinkErrorKind>(e),
        },
{
    match target.read_links() {
        Err(e) => Err(e),
        Ok(mut links) => {
            let ghost before = links_view(links@);
            links.push(Link::Id { link: from });
            assert(links_view(links@) =~= before.push(plain(from@)));
            target.rewrite_links(links);
            Ok(())
        },
    }
}

/// Links `this` to `link` by `instance`, and `link` back to `this` by a
/// plain link. The other entry is written first.
fn add_internal_link_with_instance(this: &mut Entry, link: &mut Entry, instance: Link) -> (r:
    Result<(), LinkErrorKind>)
    ensures
        final(this).id() == old(this).id(),
        final(this).base() == old(this).base(),
        final(link).id() == old(link).id(),
        final(link).base() == old(link).base(),
        r == pair_result(old(this).field(), old(link).field()),
        final(link).field() == field_with(old(link).field(), plain(old(this).id())),
        final(this).field() == (if decode_field(old(link).field()) is Ok {
            field_with(old(this).field(), instance@)
        } else {
            old(this).field()
        }),
{
    let from = this.get_location().clone();
    match add_foreign_link(link, from) {
        Err(e) => Err(e),
        Ok(()) => match this.read_links() {
            Err(e) => Err(e),
            Ok(mut links) => {
                let ghost before = links_view(links@);
                links.push(instance);
                assert(links_view(links@) =~= before.push(instance@));
                this.rewrite_links(links);
                Ok(())
            },
        },
    }
}

/// The links of `links` that do not point to the entry that `id` names.
fn links_without(links: Vec<Link>, id: &StoreId) -> (out: Vec<Link>)
    ensures
        links_view(out@) == without_target(links_view(links@), id@),
{
    let ghost input = links_view(links@);
    let ghost keep = |l: LinkModel| l.target != id@;
    let mut out: Vec<Link> = Vec::new();
    let mut i: usize = 0;
    proof {
        reveal(Seq::filter);
        assert(input.take(0).filter(keep) =~= Seq::empty());
    }
    while i < links.len()
        invariant
            i <= links.len(),
            input == links_view(links@),
            keep == |l: LinkModel| l.target != id@,
            links_view(out@) =~= input.take(i as int).filter(keep),
        decreases links.len() - i,
    {
        let ghost before = links_view(out@);
        proof {
            reveal(Seq::filter);
            assert(input.take(i + 1).drop_last() =~= input.take(i as int));
            assert(input.take(i + 1).last() == input[i as int]);
        }
        if !links[i].eq_store_id(id) {
            out.push(links[i].clone());
            assert(links_view(out@) =~= before.push(input[i as int]));
        }
        i += 1;
    }
    assert(input.take(i as int) =~= input);
    out
}

/// Takes from `entry` the links that point to the entry that `id` names.
fn remove_links_to(entry: &mut Entry, id: &StoreId) -> (r: Result<(), LinkErrorKind>)
    ensures
        final(entry).id() == old(entry).id(),
        final(entry).base() == old(entry).base(),
        final(entry).field() == field_without(old(entry).field(), id@),
        match decode_field(old(entry).field()) {
            Ok(_) => r == Ok::<(), LinkErrorKind>(()),
            Err(e) => r == Err::<(), LinkErrorKind>(e),
        },
{
    match entry.read_links() {
        Err(e) => Err(e),
        Ok(links) => {
            let kept = links_without(links, id);
            entry.rewrite_links(kept);
            Ok(())
        },
    }
}

/// The protocol by which entries are linked. Every link is kept on both
/// sides: the entry that is linked to holds a plain link back.
///
/// An operation on two entries writes the other entry first and the entry
/// itself second. Where the links of one of them cannot be read the
/// operation fails there, and what it wrote before stays written.
pub trait InternalLinker: Sized {
    /// The local part of the identifier of the entry.
    spec fn linker_id(&self) -> Seq<char>;

    /// The content of the link field, if there is one.
    spec fn linker_field(&self) -> Option<ValueModel>;

    /// The store root that the entry's identifier carries, if any.
    spec fn linker_base(&self) -> Option<Seq<char>>;

    /// The links that the entry holds: none where it has no link field.
    fn get_internal_links(&self) -> (r: Result<LinkIter, LinkErrorKind>)
        ensures
            match decode_field(self.linker_field()) {
                Ok(ls) => r is Ok && r->Ok_0@ == ls,
                Err(e) => r is Err && r->Err_0 == e,
            },
    ;

    /// Links every entry of `links` back to this one, in order, and then
    /// replaces the links of this entry by plain links to all of them. Hands
    /// back the links that this entry held before.
    ///
    /// Stops at the first of `links` whose own links cannot be read: the
    /// entries before it keep their new link, the others and this entry stay
    /// as they were.
    fn set_internal_links(&mut self, links: &mut Vec<Entry>) -> (r: Result<LinkIter, LinkErrorKind>)
        ensures
            final(self).linker_id() == old(self).linker_id(),
            final(self).linker_base() == old(self).linker_base(),
            final(links)@.len() == old(links)@.len(),
            forall|i: int|
                0 <= i < old(links)@.len() ==> (#[trigger] final(links)@[i]).id() == old(links)@[i].id()
                    && final(links)@[i].base() == old(links)@[i].base(),
            forall|i: int|
                0 <= i < old(links)@.len() ==> (#[trigger] final(links)@[i]).field()
                    == linked_back(old(links)@, i, old(self).linker_id()),
            final(self).linker_field() == replaced_field(
                old(self).linker_field(),
                old(links)@,
            ),
            match replaced_result(old(self).linker_field(), old(links)@) {
                Ok(ls) => r is Ok && r->Ok_0@ == ls,
                Err(e) => r is Err && r->Err_0 == e,
            },
    ;

    /// Links this entry to `link` and `link` back to this entry, both by
    /// plain links.
    fn add_internal_link(&mut self, link: &mut Entry) -> (r: Result<(), LinkErrorKind>)
        ensures
            final(self).linker_id() == old(self).linker_id(),
            final(self).linker_base() == old(self).linker_base(),
            final(link).id() == old(link).id(),
            final(link).base() == old(link).base(),
            r == pair_result(old(self).linker_field(), old(link).field()),
            final(link).field() == field_with(
                old(link).field(),
                plain(old(self).linker_id()),
            ),
            final(self).linker_field() == (if decode_field(old(link).field()) is Ok {
                field_with(old(self).linker_field(), plain(old(link).id()))
            } else {
                old(self).linker_field()
            }),
    ;

    /// Takes from `link` every link to this entry, and from this entry every
    /// link to `link`. Where there is none, that side keeps its links.
    fn remove_internal_link(&mut self, link: &mut Entry) -> (r: Result<(), LinkErrorKind>)
        ensures
            final(self).linker_id() == old(self).linker_id(),
            final(self).linker_base() == old(self).linker_base(),
            final(link).id() == old(link).id(),
            final(link).base() == old(link).base(),
            r == pair_result(old(self).linker_field(), old(link).field()),
            final(link).field() == field_without(
                old(link).field(),
                old(self).linker_id(),
            ),
            final(self).linker_field() == (if decode_field(old(link).field()) is Ok {
                field_without(old(self).linker_field(), old(link).id())
            } else {
                old(self).linker_field()
            }),
    ;

    /// Links this entry to `link` by a link annotated with `annotation`, and
    /// `link` back to this entry by a plain link.
    fn add_internal_annotated_link(&mut self, link: &mut Entry, annotation: String) -> (r: Result<
        (),
        LinkErrorKind,
    >)
        ensures
            final(self).linker_id() == old(self).linker_id(),
            final(self).linker_base() == old(self).linker_base(),
            final(link).id() == old(link).id(),
            final(link).base() == old(link).base(),
            r == pair_result(old(self).linker_field(), old(link).field()),
            final(link).field() == field_with(
                old(link).field(),
                plain(old(self).linker_id()),
            ),
            final(self).linker_field() == (if decode_field(old(link).field()) is Ok {
                field_with(
                    old(self).linker_field(),
                    annotated(old(link).id(), annotation@),
                )
            } else {
                old(self).linker_field()
            }),
    ;
}

/// The local parts of the identifiers of the entries, in order.
pub open spec fn linker_ids(entries: Seq<Entry>) -> Seq<Seq<char>> {
    Seq::new(entries.len(), |i: int| entries[i].id())
}

/// Whether one of the first `n` entries holds links that cannot be read.
pub open spec fn unreadable_before(entries: Seq<Entry>, n: int) -> bool {
    exists|j: int| 0 <= j < n && j < entries.len() && decode_field(
        (#[trigger] entries[j]).field(),
    ) is Err
}

/// The link field of the entry at `i` after all of `entries` were to be
/// linked back to the entry `from`: the entries before the first one whose
/// links cannot be read hold the new link, the others are as they were.
pub open spec fn linked_back(entries: Seq<Entry>, i: int, from: Seq<char>) -> Option<
    ValueModel,
> {
    if unreadable_before(entries, i) {
        entries[i].field()
    } else {
        field_with(entries[i].field(), plain(from))
    }
}

/// The link field of an entry after its links were to be replaced by links
/// to `entries`: plain links to all of them, or the field as it was where
/// the links of one of them cannot be read.
pub open spec fn replaced_field(
    own: Option<ValueModel>,
    entries: Seq<Entry>,
) -> Option<ValueModel> {
    if unreadable_before(entries, entries.len() as int) {
        own
    } else {
        written(plain_links(linker_ids(entries)))
    }
}

/// What replacing an entry's links by links to `entries` hands back: the
/// error of the first of them whose links cannot be read, else the links
/// that the entry held before, as far as they can be read.
pub open spec fn replaced_result(
    own: Option<ValueModel>,
    entries: Seq<Entry>,
) -> Result<Seq<LinkModel>, LinkErrorKind> {
    if unreadable_before(entries, entries.len() as int) {
        Err(first_unreadable(entries))
    } else {
        decode_field(own)
    }
}

/// The error of the first entry whose links cannot be read.
pub open spec fn first_unreadable(entries: Seq<Entry>) -> LinkErrorKind
    decreases entries.len(),
{
    if entries.len() == 0 {
        LinkErrorKind::LinkParserError
    } else if unreadable_before(entries.drop_last(), entries.len() - 1) {
        first_unreadable(entries.drop_last())
    } else {
        match decode_field(entries.last().field()) {
            Err(e) => e,
            Ok(_) => LinkErrorKind::LinkParserError,
        }
    }
}

/// Where the first `i` entries can be read and the one at `i` cannot, its
/// error is the error of the first unreadable entry.
pub proof fn lemma_first_unreadable(entries: Seq<Entry>, i: int)
    requires
        0 <= i < entries.len(),
        !unreadable_before(entries, i),
        decode_field(entries[i].field()) is Err,
    ensures
        first_unreadable(entries) == decode_field(entries[i].field())->Err_0,
        unreadable_before(entries, entries.len() as int),
    decreases entries.len(),
{
    let front = entries.drop_last();
    let n = entries.len() - 1;
    if i == n {
        if unreadable_before(front, n) {
            let j = choose|j: int|
                0 <= j < n && j < front.len() && decode_field((#[trigger] front[j]).field()) is Err;
            assert(front[j] == entries[j]);
        }
    } else {
        assert(front[i] == entries[i]);
        if unreadable_before(front, i) {
            let j = choose|j: int|
                0 <= j < i && j < front.len() && decode_field((#[trigger] front[j]).field()) is Err;
            assert(front[j] == entries[j]);
        }
        lemma_first_unreadable(front, i);
    }
}

impl InternalLinker for Entry {
    open spec fn linker_id(&self) -> Seq<char> {
        self.id()
    }

    open spec fn linker_field(&self) -> Option<ValueModel> {
        self.field()
    }

    open spec fn linker_base(&self) -> Option<Seq<char>> {
        self.base()
    }

    fn get_internal_links(&self) -> (r: Result<LinkIter, LinkErrorKind>) {
        match self.read_links() {
            Ok(links) => Ok(LinkIter::new(links)),
            Err(e) => Err(e),
        }
    }

    fn set_internal_links(&mut self, links: &mut Vec<Entry>) -> (r: Result<
        LinkIter,
        LinkErrorKind,
    >) {
        let ghost start = links@;
        let own = self.get_location().clone();
        let mut new_links: Vec<Link> = Vec::new();
        let mut i: usize = 0;
        assert(links_view(new_links@) =~= plain_links(linker_ids(start)).take(0));
        while i < links.len()
            invariant
                i <= links@.len(),
                start == old(links)@,
                links@.len() == start.len(),
                own@ == self.id(),
                *self == *old(self),
                !unreadable_before(start, i as int),
                forall|j: int|
                    0 <= j < start.len() ==> (#[trigger] links@[j]).id() == start[j].id()
                        && links@[j].base() == start[j].base(),
                forall|j: int|
                    0 <= j < i ==> (#[trigger] links@[j]).field() == field_with(
                        start[j].field(),
                        plain(own@),
                    ),
                forall|j: int| i <= j < start.len() ==> #[trigger] links@[j] == start[j],
                links_view(new_links@) =~= plain_links(linker_ids(start)).take(i as int),
            decreases links@.len() - i,
        {
            let ghost before = links@;
            let ghost made = links_view(new_links@);
            let r = add_foreign_link(&mut links[i], own.clone());
            assert(forall|j: int| 0 <= j < start.len() && j != i ==> links@[j] == before[j]);
            match r {
                Err(e) => {
                    proof {
                        lemma_first_unreadable(start, i as int);
                        assert forall|j: int| 0 <= j < start.len() implies (
                        #[trigger] links@[j]).field() == linked_back(start, j, own@) by {
                            if j > i {
                                assert(unreadable_before(start, j));
                            }
                        }
                    }
                    return Err(e);
                },
                Ok(()) => {},
            }
            new_links.push(Link::Id { link: links[i].get_location().clone() });
            proof {
                assert(links_view(new_links@) =~= made.push(plain(start[i as int].id())));
                assert(!unreadable_before(start, i + 1));
            }
            i += 1;
        }
        proof {
            assert(plain_links(linker_ids(start)).take(i as int) =~= plain_links(
                linker_ids(start),
            ));
            assert forall|j: int| 0 <= j < start.len() implies (#[trigger] links@[j]).field()
                == linked_back(start, j, own@) by {
                if unreadable_before(start, j) {
                    let k = choose|k: int|
                        0 <= k < j && k < start.len() && decode_field(
                            (#[trigger] start[k]).field(),
                        ) is Err;
                    assert(unreadable_before(start, start.len() as int));
                }
            }
        }
        let held = self.read_links();
        self.rewrite_links(new_links);
        match held {
            Ok(v) => Ok(LinkIter::new(v)),
            Err(e) => Err(e),
        }
    }

    fn add_internal_link(&mut self, link: &mut Entry) -> (r: Result<(), LinkErrorKind>) {
        let location = Link::Id { link: link.get_location().clone() };
        add_internal_link_with_instance(self, link, location)
    }

    fn remove_internal_link(&mut self, link: &mut Entry) -> (r: Result<(), LinkErrorKind>) {
        let own_loc = self.get_location().clone().without_base();
        let other_loc = link.get_location().clone().without_base();
        match remove_links_to(link, &own_loc) {
            Err(e) => Err(e),
            Ok(()) => remove_links_to(self, &other_loc),
        }
    }

    fn add_internal_annotated_link(&mut self, link: &mut Entry, annotation: String) -> (r: Result<
        (),
        LinkErrorKind,
    >) {
        let new_link = Link::Annotated { link: link.get_location().clone(), annotation };
        add_internal_link_with_instance(self, link, new_link)
    }
}

} // verus!
