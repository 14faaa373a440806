//! Import table domain model.

use crate::text::{dec_text, push_dec};
use vstd::prelude::*;

verus! {

/// A single imported function: by ordinal or by name.
#[derive(Debug, PartialEq, Eq)]
pub enum ImportFunction {
    Ordinal { ordinal: u16 },
    Name { hint: u16, name: String },
}

/// An imported function with its name as a character sequence.
pub enum ImportFunctionModel {
    Ordinal(u16),
    Name(u16, Seq<char>),
}

impl View for ImportFunction {
    type V = ImportFunctionModel;

    open spec fn view(&self) -> ImportFunctionModel {
        match self {
            ImportFunction::Ordinal { ordinal } => ImportFunctionModel::Ordinal(*ordinal),
            ImportFunction::Name { hint, name } => ImportFunctionModel::Name(*hint, name@),
        }
    }
}

impl Clone for ImportFunction {
    fn clone(&self) -> (r: ImportFunction)
        ensures
            r@ == self@,
    {
        match self {
            ImportFunction::Ordinal { ordinal } => ImportFunction::Ordinal { ordinal: *ordinal },
            ImportFunction::Name { hint, name } => ImportFunction::Name {
                hint: *hint,
                name: name.clone(),
            },
        }
    }
}

impl ImportFunctionModel {
    /// The symbol this import refers to: the name, or `#<ordinal>`.
    pub open spec fn shown(self) -> Seq<char> {
        match self {
            ImportFunctionModel::Ordinal(ordinal) => seq!['#'] + dec_text(ordinal as nat),
            ImportFunctionModel::Name(_, name) => name,
        }
    }
}

impl ImportFunction {
    /// An import by name, with hint 0.
    pub fn by_name(name: &str) -> (r: Self)
        ensures
            r@ == ImportFunctionModel::Name(0, name@),
    {
        ImportFunction::Name { hint: 0, name: name.to_owned() }
    }

    pub fn by_ordinal(ordinal: u16) -> (r: Self)
        ensures
            r@ == ImportFunctionModel::Ordinal(ordinal),
    {
        ImportFunction::Ordinal { ordinal }
    }

    /// The symbol this import refers to: the name, or `#<ordinal>` for ordinal imports.
    pub fn display_name(&self) -> (r: String)
        ensures
            r@ == self@.shown(),
    {
        match self {
            ImportFunction::Ordinal { ordinal } => {
                let mut s: String = String::new();
                s.push('#');
                push_dec(&mut s, *ordinal as u64);
                assert(s@ =~= self@.shown());
                s
            },
            ImportFunction::Name { name, .. } => name.clone(),
        }
    }

    pub fn name(&self) -> (r: Option<&str>)
        ensures
            match self@ {
                ImportFunctionModel::Name(_, n) => r is Some && r->0@ == n,
                ImportFunctionModel::Ordinal(_) => r is None,
            },
    {
        match self {
            ImportFunction::Name { name, .. } => Some(name.as_str()),
            ImportFunction::Ordinal { .. } => None,
        }
    }

    pub fn ordinal(&self) -> (r: Option<u16>)
        ensures
            r == match self@ {
                ImportFunctionModel::Ordinal(o) => Some(o),
                ImportFunctionModel::Name(_, _) => None,
            },
    {
        match self {
            ImportFunction::Ordinal { ordinal } => Some(*ordinal),
            ImportFunction::Name { .. } => None,
        }
    }

    /// Whether both are the same import.
    pub fn same(&self, other: &ImportFunction) -> (r: bool)
        ensures
            r == (self@ == other@),
    {
        match self {
            ImportFunction::Ordinal { ordinal } => match other {
                ImportFunction::Ordinal { ordinal: o2 } => *ordinal == *o2,
                ImportFunction::Name { .. } => false,
            },
            ImportFunction::Name { hint, name } => match other {
                ImportFunction::Ordinal { .. } => false,
                ImportFunction::Name { hint: h2, name: n2 } => *hint == *h2 && *name == *n2,
            },
        }
    }
}

/// One import descriptor: a module plus the functions imported from it.
#[derive(Debug, PartialEq, Eq)]
pub struct ImportDescriptor {
    pub name: String,
    pub functions: Vec<ImportFunction>,
}

/// A module name and its imported functions.
#[verifier::ext_equal]
pub struct ImportDescriptorModel {
    pub name: Seq<char>,
    pub functions: Seq<ImportFunctionModel>,
}

/// The views of a sequence's items.
pub open spec fn views<T: View>(s: Seq<T>) -> Seq<T::V> {
    Seq::new(s.len(), |i: int| s[i]@)
}

pub proof fn lemma_views_push<T: View>(s: Seq<T>, x: T)
    ensures
        views(s.push(x)) == views(s).push(x@),
{
    assert(views(s.push(x)) =~= views(s).push(x@));
}

impl View for ImportDescriptor {
    type V = ImportDescriptorModel;

    open spec fn view(&self) -> ImportDescriptorModel {
        ImportDescriptorModel { name: self.name@, functions: views(self.functions@) }
    }
}

impl Clone for ImportDescriptor {
    fn clone(&self) -> (r: ImportDescriptor)
        ensures
            r@ == self@,
    {
        let functions = clone_functions(&self.functions);
        ImportDescriptor { name: self.name.clone(), functions }
    }
}

/// A copy of a list of functions.
pub fn clone_functions(functions: &[ImportFunction]) -> (r: Vec<ImportFunction>)
    ensures
        views(r@) == views(functions@),
{
    let mut r: Vec<ImportFunction> = Vec::new();
    let mut i: usize = 0;
    while i < functions.len()
        invariant
            i <= functions.len(),
            views(r@) == views(functions@).take(i as int),
        decreases functions.len() - i,
    {
        let f = functions[i].clone();
        proof {
            lemma_views_push(r@, f);
        }
        r.push(f);
        i = i + 1;
        assert(views(r@) =~= views(functions@).take(i as int));
    }
    assert(views(functions@).take(functions.len() as int) =~= views(functions@));
    r
}

/// A copy of a list of descriptors.
pub fn clone_imports(imports: &[ImportDescriptor]) -> (r: Vec<ImportDescriptor>)
    ensures
        views(r@) == views(imports@),
{
    let mut r: Vec<ImportDescriptor> = Vec::new();
    let mut i: usize = 0;
    while i < imports.len()
        invariant
            i <= imports.len(),
            views(r@) == views(imports@).take(i as int),
        decreases imports.len() - i,
    {
        let d = imports[i].clone();
        proof {
            lemma_views_push(r@, d);
        }
        r.push(d);
        i = i + 1;
        assert(views(r@) =~= views(imports@).take(i as int));
    }
    assert(views(imports@).take(imports.len() as int) =~= views(imports@));
    r
}

impl ImportDescriptor {
    pub fn new(name: &str, functions: Vec<ImportFunction>) -> (r: Self)
        ensures
            r@ == (ImportDescriptorModel { name: name@, functions: views(functions@) }),
    {
        ImportDescriptor { name: name.to_owned(), functions }
    }

    /// Whether both name the same module and import the same functions in the
    /// same order.
    pub fn same(&self, other: &ImportDescriptor) -> (r: bool)
        ensures
            r == (self@ == other@),
    {
        if self.name != other.name || self.functions.len() != other.functions.len() {
            assert(self.name@ != other.name@ || views(self.functions@).len() != views(
                other.functions@,
            ).len());
            return false;
        }
        let mut i: usize = 0;
        while i < self.functions.len()
            invariant
                i <= self.functions.len(),
                self.name@ == other.name@,
                self.functions.len() == other.functions.len(),
                forall|j: int| 0 <= j < i ==> self.functions@[j]@ == other.functions@[j]@,
            decreases self.functions.len() - i,
        {
            if !self.functions[i].same(&other.functions[i]) {
                assert(views(self.functions@)[i as int] != views(other.functions@)[i as int]);
                return false;
            }
            i = i + 1;
        }
        assert(views(self.functions@) =~= views(other.functions@));
        true
    }
}

/// Whether two import tables are the same.
pub fn same_imports(a: &[ImportDescriptor], b: &[ImportDescriptor]) -> (r: bool)
    ensures
        r == (views(a@) == views(b@)),
{
    if a.len() != b.len() {
        assert(views(a@).len() != views(b@).len());
        return false;
    }
    let mut i: usize = 0;
    while i < a.len()
        invariant
            i <= a.len(),
            a.len() == b.len(),
            forall|j: int| 0 <= j < i ==> a@[j]@ == b@[j]@,
        decreases a.len() - i,
    {
        if !a[i].same(&b[i]) {
            assert(views(a@)[i as int] != views(b@)[i as int]);
            return false;
        }
        i = i + 1;
    }
    assert(views(a@) =~= views(b@));
    true
}

} // verus!
