//! The structured method table that the generator reads.
//!
//! Types and bounds are given as token sequences (`["Vec", "<", "T", ">"]`), so
//! that renaming a generic parameter is a pass over tokens.
use vstd::prelude::*;

verus! {

/// A generic type parameter and its trait bounds.
pub struct GenericParam {
    pub name: String,
    pub bounds: Vec<String>,
}

/// A named, typed parameter of a method (or a field of a message variant).
pub struct Param {
    pub name: String,
    pub ty: Vec<String>,
}

/// One method of the actor object.
pub struct MethodDescriptor {
    pub name: String,
    /// Whether the method takes `self` in some form.
    pub has_receiver: bool,
    pub params: Vec<Param>,
    pub generics: Vec<GenericParam>,
    pub is_async: bool,
    pub ret: Option<Vec<String>>,
    /// Only public methods become messages.
    pub is_public: bool,
}

/// The owning type and its methods: one of these per generated actor.
pub struct ImplSpec {
    pub owner: String,
    pub generics: Vec<GenericParam>,
    pub methods: Vec<MethodDescriptor>,
}

pub struct GenericModel {
    pub name: Seq<char>,
    pub bounds: Seq<Seq<char>>,
}

pub struct ParamModel {
    pub name: Seq<char>,
    pub ty: Seq<Seq<char>>,
}

pub struct MethodModel {
    pub name: Seq<char>,
    pub has_receiver: bool,
    pub params: Seq<ParamModel>,
    pub generics: Seq<GenericModel>,
    pub is_async: bool,
    pub ret: Option<Seq<Seq<char>>>,
    pub is_public: bool,
}

pub struct ImplModel {
    pub owner: Seq<char>,
    pub generics: Seq<GenericModel>,
    pub methods: Seq<MethodModel>,
}

pub open spec fn tokens_view(v: Seq<String>) -> Seq<Seq<char>> {
    v.map_values(|s: String| s@)
}

pub open spec fn generics_view(v: Seq<GenericParam>) -> Seq<GenericModel> {
    v.map_values(|g: GenericParam| g@)
}

pub open spec fn params_view(v: Seq<Param>) -> Seq<ParamModel> {
    v.map_values(|p: Param| p@)
}

pub open spec fn methods_view(v: Seq<MethodDescriptor>) -> Seq<MethodModel> {
    v.map_values(|m: MethodDescriptor| m@)
}

pub open spec fn opt_tokens_view(v: Option<Vec<String>>) -> Option<Seq<Seq<char>>> {
    match v {
        Some(t) => Some(tokens_view(t@)),
        None => None,
    }
}

impl View for GenericParam {
    type V = GenericModel;

    open spec fn view(&self) -> GenericModel {
        GenericModel { name: self.name@, bounds: tokens_view(self.bounds@) }
    }
}

impl View for Param {
    type V = ParamModel;

    open spec fn view(&self) -> ParamModel {
        ParamModel { name: self.name@, ty: tokens_view(self.ty@) }
    }
}

impl View for MethodDescriptor {
    type V = MethodModel;

    open spec fn view(&self) -> MethodModel {
        MethodModel {
            name: self.name@,
            has_receiver: self.has_receiver,
            params: params_view(self.params@),
            generics: generics_view(self.generics@),
            is_async: self.is_async,
            ret: opt_tokens_view(self.ret),
            is_public: self.is_public,
        }
    }
}

impl View for ImplSpec {
    type V = ImplModel;

    open spec fn view(&self) -> ImplModel {
        ImplModel {
            owner: self.owner@,
            generics: generics_view(self.generics@),
            methods: methods_view(self.methods@),
        }
    }
}

/// A copy of a token sequence.
pub fn copy_tokens(v: &Vec<String>) -> (r: Vec<String>)
    ensures
        r@ == v@,
{
    let mut r: Vec<String> = Vec::new();
    let mut i: usize = 0;
    while i < v.len()
        invariant
            i <= v@.len(),
            r@ == v@.subrange(0, i as int),
        decreases v@.len() - i,
    {
        r.push(v[i].clone());
        i = i + 1;
        assert(r@ =~= v@.subrange(0, i as int));
    }
    assert(r@ =~= v@);
    r
}

impl GenericParam {
    pub fn duplicate(&self) -> (r: GenericParam)
        ensures
            r@ == self@,
    {
        GenericParam { name: self.name.clone(), bounds: copy_tokens(&self.bounds) }
    }
}

} // verus!
