use vstd::prelude::*;

use crate::codec::{decode_field, encode, encode_links, links_view};
use crate::entry::{Entry, InternalLinker};
use crate::error::LinkErrorKind;
use crate::link::{Link, LinkModel};
use crate::store::{entry_of, holds, index_of, lookup, SlotModel, Store};
use crate::value::{values_view, Value};

verus! {

/// A finite sequence of links that is handed out once, front first.
#[derive(Debug)]
pub struct LinkIter {
    links: Vec<Link>,
    taken: usize,
}

impl View for LinkIter {
    type V = Seq<LinkModel>;

    /// The links that are still to come, in order.
    closed spec fn view(&self) -> Seq<LinkModel> {
        links_view(self.links@).skip(self.taken as int)
    }
}

impl LinkIter {
    #[verifier::type_invariant]
    closed spec fn within(&self) -> bool {
        self.taken <= self.links@.len()
    }

    /// A sequence that hands out the links of `v`.
    pub fn new(v: Vec<Link>) -> (it: LinkIter)
        ensures
            it@ == links_view(v@),
    {
        let it = LinkIter { links: v, taken: 0 };
        assert(links_view(v@).skip(0) =~= links_view(v@));
        it
    }

    /// The next link, if one is left.
    pub fn next(&mut self) -> (r: Option<Link>)
        ensures
            old(self)@.len() == 0 ==> r is None && final(self)@ == old(self)@,
            old(self)@.len() > 0 ==> r is Some && r->Some_0@ == old(self)@[0] && final(self)@
                == old(self)@.skip(1),
    {
        proof {
            use_type_invariant(&*self);
        }
        if self.taken < self.links.len() {
            let l = self.links[self.taken].clone();
            let ghost before = self@;
            self.taken = self.taken + 1;
            assert(self@ =~= before.skip(1));
            Some(l)
        } else {
            None
        }
    }

    /// Hands the links on to the stage that looks their targets up.
    pub fn into_getter(self) -> (g: GetIter)
        ensures
            g@ == self@,
    {
        GetIter::new(self)
    }

    /// Gives up the links that are left.
    pub fn stop(&mut self)
        ensures
            final(self)@ == Seq::<LinkModel>::empty(),
    {
        self.taken = self.links.len();
        assert(self@ =~= Seq::empty());
    }

    /// How many links are left.
    pub fn count(&self) -> (n: usize)
        ensures
            n == self@.len(),
    {
        proof {
            use_type_invariant(self);
        }
        self.links.len() - self.taken
    }

    /// The links that are left, in order.
    pub fn collect(self) -> (v: Vec<Link>)
        ensures
            links_view(v@) == self@,
    {
        proof {
            use_type_invariant(&self);
        }
        let mut v: Vec<Link> = Vec::new();
        let mut i: usize = self.taken;
        while i < self.links.len()
            invariant
                self.taken <= i <= self.links@.len(),
                links_view(v@) =~= links_view(self.links@).subrange(self.taken as int, i as int),
            decreases self.links@.len() - i,
        {
            let ghost before = links_view(v@);
            v.push(self.links[i].clone());
            assert(links_view(v@) =~= before.push(self.links@[i as int]@));
            i += 1;
        }
        assert(links_view(v@) =~= self@);
        v
    }
}

/// What can be written into a header as a sequence of links.
pub trait IntoValues: Sized {
    /// The links to be written.
    spec fn links(&self) -> Seq<LinkModel>;

    /// The header values of the links in canonical form: each link once, in
    /// order, its target named by its local part.
    fn into_values(self) -> (values: Vec<Value>)
        ensures
            values_view(values@) == encode(self.links()),
    ;
}

impl IntoValues for LinkIter {
    open spec fn links(&self) -> Seq<LinkModel> {
        self@
    }

    fn into_values(self) -> (values: Vec<Value>) {
        encode_links(self.collect())
    }
}

impl IntoValues for Vec<Link> {
    open spec fn links(&self) -> Seq<LinkModel> {
        links_view(self@)
    }

    fn into_values(self) -> (values: Vec<Value>) {
        encode_links(self)
    }
}

/// What one step of a stage gives: an entry or an error, or nothing where
/// the links are used up; and the links that are left.
pub ghost struct Step {
    pub yielded: Option<Result<SlotModel, LinkErrorKind>>,
    pub rest: Seq<LinkModel>,
}

/// What one step of the collecting stage gives, and the store after it.
pub ghost struct GcStep {
    pub yielded: Option<Result<SlotModel, LinkErrorKind>>,
    pub rest: Seq<LinkModel>,
    pub store: Seq<SlotModel>,
}

/// Whether `r` hands out what `yielded` says.
pub open spec fn yields(
    r: Option<Result<Entry, LinkErrorKind>>,
    yielded: Option<Result<SlotModel, LinkErrorKind>>,
) -> bool {
    match yielded {
        None => r is None,
        Some(Err(e)) => r is Some && r->Some_0 is Err && r->Some_0->Err_0 == e,
        Some(Ok(slot)) => r is Some && r->Some_0 is Ok && entry_of(r->Some_0->Ok_0, slot),
    }
}

/// One step of looking targets up: links whose target the store does not
/// hold are passed over; the first other link gives its entry, or a read
/// error where the entry cannot be read. An error ends the sequence: no link
/// is left after it.
pub open spec fn deref_next(links: Seq<LinkModel>, s: Seq<SlotModel>) -> Step
    decreases links.len(),
{
    if links.len() == 0 {
        Step { yielded: None, rest: links }
    } else {
        match lookup(s, links[0].target) {
            Ok(None) => deref_next(links.skip(1), s),
            Ok(Some(slot)) => Step { yielded: Some(Ok(slot)), rest: links.skip(1) },
            Err(_) => Step {
                yielded: Some(Err(LinkErrorKind::StoreReadError)),
                rest: Seq::empty(),
            },
        }
    }
}

/// One step of filtering: as `deref_next`, but an entry whose links `pred`
/// refuses is passed over, and one whose links cannot be read gives a read
/// error, which ends the sequence as well.
pub open spec fn filter_next(
    links: Seq<LinkModel>,
    s: Seq<SlotModel>,
    pred: spec_fn(Seq<LinkModel>) -> bool,
) -> Step
    decreases links.len(),
{
    if links.len() == 0 {
        Step { yielded: None, rest: links }
    } else {
        match lookup(s, links[0].target) {
            Ok(None) => filter_next(links.skip(1), s, pred),
            Err(_) => Step {
                yielded: Some(Err(LinkErrorKind::StoreReadError)),
                rest: Seq::empty(),
            },
            Ok(Some(slot)) => match decode_field(slot.field) {
                Err(_) => Step {
                    yielded: Some(Err(LinkErrorKind::StoreReadError)),
                    rest: Seq::empty(),
                },
                Ok(ls) => if pred(ls) {
                    Step { yielded: Some(Ok(slot)), rest: links.skip(1) }
                } else {
                    filter_next(links.skip(1), s, pred)
                },
            },
        }
    }
}

/// One step of collecting: as `deref_next`, but an entry that holds no link
/// is taken out of the store and passed over, and one whose links cannot be
/// read gives a read error, which ends the sequence as well.
pub open spec fn gc_next(links: Seq<LinkModel>, s: Seq<SlotModel>) -> GcStep
    decreases links.len(),
{
    if links.len() == 0 {
        GcStep { yielded: None, rest: links, store: s }
    } else {
        match lookup(s, links[0].target) {
            Ok(None) => gc_next(links.skip(1), s),
            Err(_) => GcStep {
                yielded: Some(Err(LinkErrorKind::StoreReadError)),
                rest: Seq::empty(),
                store: s,
            },
            Ok(Some(slot)) => match decode_field(slot.field) {
                Err(_) => GcStep {
                    yielded: Some(Err(LinkErrorKind::StoreReadError)),
                    rest: Seq::empty(),
                    store: s,
                },
                Ok(ls) => if ls.len() == 0 {
                    gc_next(links.skip(1), s.remove(index_of(s, links[0].target)))
                } else {
                    GcStep { yielded: Some(Ok(slot)), rest: links.skip(1), store: s }
                },
            },
        }
    }
}

/// A test on the links that an entry holds.
pub trait LinkPredicate {
    /// Whether an entry that holds `links` passes.
    spec fn accepts(&self, links: Seq<LinkModel>) -> bool;

    /// Tests the links of one entry.
    fn test(&self, links: &Vec<Link>) -> (b: bool)
        ensures
            b == self.accepts(links_view(links@)),
    ;
}

/// Passes the entries that hold at least one link.
#[derive(Clone, Copy, Debug)]
pub struct Linked;

/// Passes the entries that hold fewer links than the number given.
#[derive(Clone, Copy, Debug)]
pub struct LessThan(pub usize);

/// Passes the entries that hold more links than the number given.
#[derive(Clone, Copy, Debug)]
pub struct MoreThan(pub usize);

impl LinkPredicate for Linked {
    open spec fn accepts(&self, links: Seq<LinkModel>) -> bool {
        links.len() > 0
    }

    fn test(&self, links: &Vec<Link>) -> (b: bool) {
        links.len() > 0
    }
}

impl LinkPredicate for LessThan {
    open spec fn accepts(&self, links: Seq<LinkModel>) -> bool {
        links.len() < self.0
    }

    fn test(&self, links: &Vec<Link>) -> (b: bool) {
        links.len() < self.0
    }
}

impl LinkPredicate for MoreThan {
    open spec fn accepts(&self, links: Seq<LinkModel>) -> bool {
        links.len() > self.0
    }

    fn test(&self, links: &Vec<Link>) -> (b: bool) {
        links.len() > self.0
    }
}

/// Whether `f` can test every sequence of links and goes by what the links
/// say alone: two sequences that say the same get the same answer.
pub open spec fn tests_links<F: Fn(&[Link]) -> bool>(f: F) -> bool {
    &&& forall|links: &[Link]| call_requires(f, (links,))
    &&& forall|a: &[Link], b: &[Link], x: bool, y: bool|
        links_view(a@) == links_view(b@) && call_ensures(f, (a,), x) && call_ensures(f, (b,), y)
            ==> x == y
}

/// A test on links that is given as a function.
pub struct FnPredicate<F: Fn(&[Link]) -> bool> {
    f: F,
}

impl<F: Fn(&[Link]) -> bool> FnPredicate<F> {
    #[verifier::type_invariant]
    closed spec fn sound(&self) -> bool {
        tests_links(self.f)
    }

    /// The function that does the test.
    pub closed spec fn function(&self) -> F {
        self.f
    }

    /// The test that `f` does.
    pub fn new(f: F) -> (p: FnPredicate<F>)
        requires
            tests_links(f),
        ensures
            p.function() == f,
    {
        FnPredicate { f }
    }
}

impl<F: Fn(&[Link]) -> bool> LinkPredicate for FnPredicate<F> {
    open spec fn accepts(&self, links: Seq<LinkModel>) -> bool {
        exists|held: &[Link]|
            links_view(held@) == links && #[trigger] call_ensures(self.function(), (held,), true)
    }

    fn test(&self, links: &Vec<Link>) -> (b: bool) {
        proof {
            use_type_invariant(self);
        }
        let held = links.as_slice();
        let b = (self.f)(held);
        proof {
            assert(held@ == links@);
            assert(call_ensures(self.function(), (held,), b));
            if self.accepts(links_view(links@)) {
                let other = choose|other: &[Link]|
                    links_view(other@) == links_view(links@) && #[trigger] call_ensures(
                        self.function(),
                        (other,),
                        true,
                    );
                assert(links_view(other@) == links_view(held@));
                assert(b == true);
            }
            if b {
                assert(links_view(held@) == links_view(links@));
                assert(self.accepts(links_view(links@)));
            }
        }
        b
    }
}

/// The stage that looks the targets of links up in a store.
#[derive(Debug)]
pub struct GetIter {
    links: LinkIter,
}

impl View for GetIter {
    type V = Seq<LinkModel>;

    /// The links that are still to be looked up.
    closed spec fn view(&self) -> Seq<LinkModel> {
        self.links@
    }
}

impl GetIter {
    /// A stage that looks up the targets of `links`.
    pub fn new(links: LinkIter) -> (g: GetIter)
        ensures
            g@ == links@,
    {
        GetIter { links }
    }

    /// The entry of the next link whose target the store holds. After an
    /// error nothing more is handed out.
    pub fn next(&mut self, store: &Store) -> (r: Option<Result<Entry, LinkErrorKind>>)
        requires
            store.wf(),
        ensures
            yields(r, deref_next(old(self)@, store@).yielded),
            final(self)@ == deref_next(old(self)@, store@).rest,
    {
        loop
            invariant
                store.wf(),
                deref_next(self@, store@) == deref_next(old(self)@, store@),
            decreases self@.len(),
        {
            match self.links.next() {
                None => {
                    return None;
                },
                Some(l) => match store.get(l.get_store_id()) {
                    Ok(None) => {},
                    Ok(Some(e)) => {
                        return Some(Ok(e));
                    },
                    Err(_) => {
                        self.links.stop();
                        return Some(Err(LinkErrorKind::StoreReadError));
                    },
                },
            }
        }
    }

    /// Turns this stage into one that takes the entries that hold no link
    /// out of the store. Iterating it changes the store.
    pub fn delete_unlinked(self) -> (d: DeleteUnlinkedIter)
        ensures
            d@ == self@,
    {
        DeleteUnlinkedIter { inner: self }
    }

    /// Turns this stage into one that passes over the entries that hold no
    /// link. The store stays as it is.
    pub fn without_unlinked(self) -> (f: FilterLinksIter<Linked>)
        ensures
            f@ == self@,
            f.predicate() == Linked,
    {
        FilterLinksIter::new(self, Linked)
    }

    /// Turns this stage into one that passes over the entries that hold `n`
    /// links or more. The store stays as it is.
    pub fn with_less_than_n_links(self, n: usize) -> (f: FilterLinksIter<LessThan>)
        ensures
            f@ == self@,
            f.predicate() == LessThan(n),
    {
        FilterLinksIter::new(self, LessThan(n))
    }

    /// Turns this stage into one that passes over the entries that hold `n`
    /// links or fewer. The store stays as it is.
    pub fn with_more_than_n_links(self, n: usize) -> (f: FilterLinksIter<MoreThan>)
        ensures
            f@ == self@,
            f.predicate() == MoreThan(n),
    {
        FilterLinksIter::new(self, MoreThan(n))
    }

    /// Turns this stage into one that passes over the entries whose links
    /// `f` refuses. The store stays as it is.
    pub fn filtered_for_links<F: Fn(&[Link]) -> bool>(self, f: F) -> (it: FilterLinksIter<
        FnPredicate<F>,
    >)
        requires
            tests_links(f),
        ensures
            it@ == self@,
            it.predicate().function() == f,
    {
        FilterLinksIter::new(self, FnPredicate::new(f))
    }
}

/// The stage that hands on the entries whose links pass a test.
pub struct FilterLinksIter<P: LinkPredicate> {
    inner: GetIter,
    pred: P,
}

impl<P: LinkPredicate> View for FilterLinksIter<P> {
    type V = Seq<LinkModel>;

    /// The links that are still to be looked up.
    closed spec fn view(&self) -> Seq<LinkModel> {
        self.inner@
    }
}

impl<P: LinkPredicate> FilterLinksIter<P> {
    /// The test that the stage applies.
    pub closed spec fn predicate(&self) -> P {
        self.pred
    }

    /// A stage that hands on what `gi` yields and `p` accepts.
    pub fn new(gi: GetIter, p: P) -> (f: FilterLinksIter<P>)
        ensures
            f@ == gi@,
            f.predicate() == p,
    {
        FilterLinksIter { inner: gi, pred: p }
    }

    /// The next entry that the store holds and whose links pass the test.
    pub fn next(&mut self, store: &Store) -> (r: Option<Result<Entry, LinkErrorKind>>)
        requires
            store.wf(),
        ensures
            final(self).predicate() == old(self).predicate(),
            yields(
                r,
                filter_next(
                    old(self)@,
                    store@,
                    |ls: Seq<LinkModel>| old(self).predicate().accepts(ls),
                ).yielded,
            ),
            final(self)@ == filter_next(
                old(self)@,
                store@,
                |ls: Seq<LinkModel>| old(self).predicate().accepts(ls),
            ).rest,
    {
        let ghost pred = |ls: Seq<LinkModel>| old(self).predicate().accepts(ls);
        loop
            invariant
                store.wf(),
                self.pred == old(self).pred,
                pred == |ls: Seq<LinkModel>| old(self).predicate().accepts(ls),
                filter_next(self@, store@, pred) == filter_next(old(self)@, store@, pred),
            decreases self@.len(),
        {
            match self.inner.links.next() {
                None => {
                    return None;
                },
                Some(l) => match store.get(l.get_store_id()) {
                    Ok(None) => {},
                    Err(_) => {
                        self.inner.links.stop();
                        return Some(Err(LinkErrorKind::StoreReadError));
                    },
                    Ok(Some(e)) => match e.get_internal_links() {
                        Err(_) => {
                            self.inner.links.stop();
                            return Some(Err(LinkErrorKind::StoreReadError));
                        },
                        Ok(links) => {
                            let held = links.collect();
                            if self.pred.test(&held) {
                                return Some(Ok(e));
                            }
                        },
                    },
                },
            }
        }
    }
}

/// The stage that takes the entries that hold no link out of the store and
/// hands on the others.
#[derive(Debug)]
pub struct DeleteUnlinkedIter {
    inner: GetIter,
}

impl View for DeleteUnlinkedIter {
    type V = Seq<LinkModel>;

    /// The links that are still to be looked up.
    closed spec fn view(&self) -> Seq<LinkModel> {
        self.inner@
    }
}

impl DeleteUnlinkedIter {
    /// The next entry that the store holds and that holds a link. Every
    /// entry without a link that is met on the way is taken out of `store`.
    pub fn next(&mut self, store: &mut Store) -> (r: Option<Result<Entry, LinkErrorKind>>)
        requires
            old(store).wf(),
        ensures
            final(store).wf(),
            yields(r, gc_next(old(self)@, old(store)@).yielded),
            final(self)@ == gc_next(old(self)@, old(store)@).rest,
            final(store)@ == gc_next(old(self)@, old(store)@).store,
    {
        loop
            invariant
                store.wf(),
                gc_next(self@, store@) == gc_next(old(self)@, old(store)@),
            decreases self@.len(),
        {
            match self.inner.links.next() {
                None => {
                    return None;
                },
                Some(l) => match store.get(l.get_store_id()) {
                    Ok(None) => {},
                    Err(_) => {
                        self.inner.links.stop();
                        return Some(Err(LinkErrorKind::StoreReadError));
                    },
                    Ok(Some(e)) => match e.get_internal_links() {
                        Err(_) => {
                            self.inner.links.stop();
                            return Some(Err(LinkErrorKind::StoreReadError));
                        },
                        Ok(links) => {
                            if links.count() == 0 {
                                match store.delete(e.get_location()) {
                                    Ok(()) => {},
                                    Err(_) => {
                                        self.inner.links.stop();
                                        return Some(Err(LinkErrorKind::StoreWriteError));
                                    },
                                }
                            } else {
                                return Some(Ok(e));
                            }
                        },
                    },
                },
            }
        }
    }
}

} // verus!
