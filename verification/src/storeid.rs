use vstd::prelude::*;
use vstd::string::*;

verus! {

/// A text names an entry relative to the store's root when it does not begin
/// with the path separator.
pub open spec fn is_local(text: Seq<char>) -> bool {
    text.len() == 0 || text[0] != '/'
}

/// The path made of a store root and a local part: the two joined by exactly
/// one separator, or the local part alone under an empty root.
pub open spec fn joined(base: Seq<char>, local: Seq<char>) -> Seq<char> {
    if base.len() == 0 {
        local
    } else if base.last() == '/' {
        base + local
    } else {
        base + seq!['/'] + local
    }
}

/// Why a text was refused as an entry identifier.
#[derive(Clone, Copy, Debug, PartialEq, Eq, Structural)]
pub enum StoreIdError {
    /// The local part begins at the file system's root.
    LocalPartAbsolute,
}

/// The identifier of an entry: a path relative to the store's root, carried
/// with or without that root. Two identifiers are the same entry when their
/// local parts agree, whatever root either carries.
#[derive(Debug)]
pub struct StoreId {
    base: Option<String>,
    id: String,
}

impl View for StoreId {
    type V = Seq<char>;

    /// The local part.
    closed spec fn view(&self) -> Seq<char> {
        self.id@
    }
}

impl StoreId {
    #[verifier::type_invariant]
    closed spec fn local_part_is_relative(&self) -> bool {
        is_local(self.id@)
    }

    /// The store root that the identifier carries, if any.
    pub closed spec fn base_text(&self) -> Option<Seq<char>> {
        match self.base {
            Some(b) => Some(b@),
            None => None,
        }
    }

    /// Makes an identifier from an optional store root and a local part.
    pub fn new(base: Option<String>, id: String) -> (r: Result<StoreId, StoreIdError>)
        ensures
            is_local(id@) <==> r is Ok,
            r is Ok ==> r->Ok_0@ == id@ && r->Ok_0.base_text() == (match base {
                Some(b) => Some(b@),
                None => None,
            }),
            r is Err ==> r->Err_0 == StoreIdError::LocalPartAbsolute,
    {
        if !id.as_str().is_empty() && id.as_str().get_char(0) == '/' {
            Err(StoreIdError::LocalPartAbsolute)
        } else {
            Ok(StoreId { base, id })
        }
    }

    /// Makes an identifier that carries no store root.
    pub fn new_baseless(id: String) -> (r: Result<StoreId, StoreIdError>)
        ensures
            is_local(id@) <==> r is Ok,
            r is Ok ==> r->Ok_0@ == id@ && r->Ok_0.base_text() is None,
            r is Err ==> r->Err_0 == StoreIdError::LocalPartAbsolute,
    {
        StoreId::new(None, id)
    }

    /// The same entry, named without a store root.
    pub fn without_base(self) -> (r: StoreId)
        ensures
            r@ == self@,
            r.base_text() is None,
    {
        proof {
            use_type_invariant(&self);
        }
        StoreId { base: None, id: self.id }
    }

    /// The same entry, named under the store root `base`.
    pub fn with_base(self, base: String) -> (r: StoreId)
        ensures
            r@ == self@,
            r.base_text() == Some(base@),
    {
        proof {
            use_type_invariant(&self);
        }
        StoreId { base: Some(base), id: self.id }
    }

    /// Whether the identifier carries a store root.
    pub fn has_base(&self) -> (b: bool)
        ensures
            b == (self.base_text() is Some),
    {
        self.base.is_some()
    }

    /// The local part, as it is written into headers.
    pub fn local_part(&self) -> (s: &String)
        ensures
            s@ == self@,
            is_local(self@),
    {
        proof {
            use_type_invariant(self);
        }
        &self.id
    }

    /// The identifier as a path: the local part under the root it carries.
    pub fn to_str(&self) -> (s: String)
        ensures
            s@ == (match self.base_text() {
                Some(b) => joined(b, self@),
                None => self@,
            }),
    {
        match &self.base {
            None => self.id.clone(),
            Some(b) => {
                let n = b.as_str().unicode_len();
                if n == 0 {
                    self.id.clone()
                } else if b.as_str().get_char(n - 1) == '/' {
                    b.clone().concat(self.id.as_str())
                } else {
                    proof {
                        reveal_strlit("/");
                    }
                    let s = b.clone().concat("/").concat(self.id.as_str());
                    assert("/"@ =~= seq!['/']);
                    s
                }
            },
        }
    }

    /// Whether both identifiers name the same entry.
    pub fn same_entry(&self, other: &StoreId) -> (b: bool)
        ensures
            b == (self@ == other@),
    {
        self.id == other.id
    }
}

impl Clone for StoreId {
    fn clone(&self) -> (r: StoreId)
        ensures
            r@ == self@,
            r.base_text() == self.base_text(),
    {
        proof {
            use_type_invariant(self);
        }
        let base = match &self.base {
            Some(b) => Some(b.clone()),
            None => None,
        };
        StoreId { base, id: self.id.clone() }
    }
}

impl PartialEq for StoreId {
    fn eq(&self, other: &StoreId) -> (b: bool) {
        self.id == other.id
    }
}

impl Eq for StoreId {

}

impl vstd::std_specs::cmp::PartialEqSpecImpl for StoreId {
    open spec fn obeys_eq_spec() -> bool {
        true
    }

    open spec fn eq_spec(&self, other: &StoreId) -> bool {
        self@ == other@
    }
}

} // verus!
