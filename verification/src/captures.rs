//! Ordered sets of capture-parameter names.
//!
//! A pattern such as `/posts/:id/*rest` declares capture parameters.  Their
//! names are kept in declaration order in an `indexmap::IndexSet`, which
//! also provides the positional lookup used when extracting matched values.

use vstd::prelude::*;
use indexmap::IndexSet;
use crate::uri::UriError;

verus! {

#[verifier::external_type_specification]
#[verifier::external_body]
#[verifier::reject_recursive_types(T)]
#[verifier::reject_recursive_types(S)]
pub struct ExIndexSet<T, S>(IndexSet<T, S>);

/// The values held by an `IndexSet` of strings, in insertion order.
pub uninterp spec fn set_elems(s: IndexSet<String>) -> Seq<Seq<char>>;

/// Relies on indexmap's `IndexSet::new`: creates an empty set.
#[verifier::external_body]
fn names_new() -> (r: IndexSet<String>)
    ensures
        set_elems(r) == Seq::<Seq<char>>::empty(),
{
    IndexSet::new()
}

/// Relies on indexmap's `IndexSet::insert`: appends a value absent from the
/// set at the end and returns `true`; returns `false` for a present value,
/// leaving the set unchanged.  Two `String`s are equivalent exactly when
/// their characters are equal.
#[verifier::external_body]
fn names_insert(s: &mut IndexSet<String>, v: String) -> (r: bool)
    ensures
        r == !set_elems(*old(s)).contains(v@),
        r ==> set_elems(*final(s)) == set_elems(*old(s)).push(v@),
        !r ==> set_elems(*final(s)) == set_elems(*old(s)),
{
    s.insert(v)
}

/// Relies on indexmap's `IndexSet::len`: the number of values in the set.
#[verifier::external_body]
fn names_len(s: &IndexSet<String>) -> (r: usize)
    ensures
        r == set_elems(*s).len(),
{
    s.len()
}

/// Relies on indexmap's `IndexSet::get_index`: the value at an insertion-order
/// position, or `None` past the end.
#[verifier::external_body]
fn names_get_index<'a>(s: &'a IndexSet<String>, i: usize) -> (r: Option<&'a String>)
    ensures
        match r {
            Some(v) => i < set_elems(*s).len() && v@ == set_elems(*s)[i as int],
            None => i >= set_elems(*s).len(),
        },
{
    s.get_index(i)
}

/// Relies on indexmap's `IndexSet::get_index_of`: the insertion-order position
/// of the value equivalent to the argument, or `None` when the set holds none.
#[verifier::external_body]
fn names_get_index_of(s: &IndexSet<String>, v: &str) -> (r: Option<usize>)
    ensures
        match r {
            Some(i) => i < set_elems(*s).len() && set_elems(*s)[i as int] == v@,
            None => !set_elems(*s).contains(v@),
        },
{
    s.get_index_of(v)
}

/// The mathematical content of a `CaptureNames` value: the declared names in
/// order, and whether the last of them is a catch-all.
pub struct CaptureNamesV {
    pub names: Seq<Seq<char>>,
    pub has_wildcard: bool,
}

/// An ordered set of unique capture-parameter names, of which at most the
/// last may be flagged as the catch-all (wildcard) parameter.
pub struct CaptureNames {
    params: IndexSet<String>,
    has_wildcard: bool,
}

impl View for CaptureNames {
    type V = CaptureNamesV;

    closed spec fn view(&self) -> CaptureNamesV {
        CaptureNamesV { names: set_elems(self.params), has_wildcard: self.has_wildcard }
    }
}

impl CaptureNames {
    /// Well-formedness: names are pairwise distinct and non-empty.
    pub open spec fn wf(&self) -> bool {
        &&& forall|i: int, j: int|
            0 <= i < j < self@.names.len() ==> self@.names[i] != self@.names[j]
        &&& forall|i: int| 0 <= i < self@.names.len() ==> self@.names[i].len() > 0
    }

    /// Creates an empty set of names.
    pub fn new() -> (r: Self)
        ensures
            r@.names == Seq::<Seq<char>>::empty(),
            !r@.has_wildcard,
            r.wf(),
    {
        CaptureNames { params: names_new(), has_wildcard: false }
    }

    /// The number of declared names.
    pub fn len(&self) -> (r: usize)
        ensures
            r == self@.names.len(),
    {
        names_len(&self.params)
    }

    /// Whether a catch-all parameter has been declared.
    pub fn has_wildcard(&self) -> (r: bool)
        ensures
            r == self@.has_wildcard,
    {
        self.has_wildcard
    }

    /// The name at a declaration-order position.
    pub fn get(&self, i: usize) -> (r: Option<&String>)
        ensures
            match r {
                Some(v) => i < self@.names.len() && v@ == self@.names[i as int],
                None => i >= self@.names.len(),
            },
    {
        names_get_index(&self.params, i)
    }

    /// The declaration-order position of a name, used to place a captured
    /// value; `None` when the name was never declared.
    pub fn position(&self, name: &str) -> (r: Option<usize>)
        ensures
            match r {
                Some(i) => i < self@.names.len() && self@.names[i as int] == name@,
                None => !self@.names.contains(name@),
            },
    {
        names_get_index_of(&self.params, name)
    }

    /// Declares one more parameter name.  Fails when a catch-all has already
    /// been declared (nothing may follow it), when the name is empty, or when
    /// the name is already taken.
    pub fn push_name(&mut self, name: &str, wildcard: bool) -> (r: Result<(), UriError>)
        requires
            old(self).wf(),
        ensures
            final(self).wf(),
            match r {
                Ok(()) => {
                    &&& !old(self)@.has_wildcard
                    &&& name@.len() > 0
                    &&& !old(self)@.names.contains(name@)
                    &&& final(self)@.names == old(self)@.names.push(name@)
                    &&& final(self)@.has_wildcard == wildcard
                },
                Err(UriError::WildcardAlreadySet) => {
                    &&& old(self)@.has_wildcard
                    &&& final(self)@ == old(self)@
                },
                Err(UriError::EmptyParameterName) => {
                    &&& !old(self)@.has_wildcard
                    &&& name@.len() == 0
                    &&& final(self)@ == old(self)@
                },
                Err(UriError::DuplicateParameterName) => {
                    &&& !old(self)@.has_wildcard
                    &&& name@.len() > 0
                    &&& old(self)@.names.contains(name@)
                    &&& final(self)@ == old(self)@
                },
                Err(_) => false,
            },
    {
        if self.has_wildcard {
            return Err(UriError::WildcardAlreadySet);
        }
        if name.unicode_len() == 0 {
            return Err(UriError::EmptyParameterName);
        }
        let inserted = names_insert(&mut self.params, name.to_owned());
        if !inserted {
            return Err(UriError::DuplicateParameterName);
        }
        self.has_wildcard = wildcard;
        proof {
            let names = self@.names;
            let olds = old(self)@.names;
            assert forall|i: int, j: int| 0 <= i < j < names.len() implies names[i] != names[j] by {
                if j < olds.len() {
                } else {
                    assert(names[j] == name@);
                    assert(names[i] == olds[i]);
                    if names[i] == name@ {
                        assert(olds.contains(name@));
                    }
                }
            }
        }
        Ok(())
    }

    /// Builds an independent copy with the same names and flag.
    pub fn duplicate(&self) -> (r: Self)
        requires
            self.wf(),
        ensures
            r@ == self@,
            r.wf(),
    {
        let mut out = CaptureNames { params: names_new(), has_wildcard: false };
        let n = names_len(&self.params);
        let mut i: usize = 0;
        while i < n
            invariant
                n == self@.names.len(),
                i <= n,
                self.wf(),
                set_elems(out.params) == self@.names.take(i as int),
                !out.has_wildcard,
            decreases n - i,
        {
            let v = names_get_index(&self.params, i);
            match v {
                Some(v) => {
                    proof {
                        let taken = self@.names.take(i as int);
                        if taken.contains(v@) {
                            let k = choose|k: int| 0 <= k < taken.len() && taken[k] == v@;
                            assert(self@.names[k] == self@.names[i as int]);
                        }
                    }
                    let inserted = names_insert(&mut out.params, v.clone());
                    assert(inserted);
                    proof {
                        assert(set_elems(out.params) =~= self@.names.take(i as int + 1));
                    }
                }
                None => {
                    proof {
                        assert(false);
                    }
                }
            }
            i = i + 1;
        }
        proof {
            assert(self@.names.take(n as int) =~= self@.names);
        }
        out.has_wildcard = self.has_wildcard;
        assert(out@ =~= self@) by {
            assert(out@.names =~= self@.names);
        }
        out
    }
}

} // verus!
