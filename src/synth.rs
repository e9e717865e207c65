//! The message synthesizer: from a method table to the artifacts of an actor.
use vstd::prelude::*;

use crate::descriptor::{
    generics_view, methods_view, opt_tokens_view, params_view, tokens_view, GenericModel, GenericParam,
    ImplModel, ImplSpec, MethodDescriptor, MethodModel, Param, ParamModel,
};

verus! {

/// What `str::to_uppercase` makes of a text.
pub uninterp spec fn upper_of(s: Seq<char>) -> Seq<char>;

/// Relies on `str::to_uppercase`: the upper-case mapping of a text, which
/// depends on its characters alone.
#[verifier::external_body]
fn to_uppercase(s: &str) -> (r: String)
    ensures
        r@ == upper_of(s@),
{
    s.to_uppercase()
}

/// The text with its first character upper-cased.
pub open spec fn capitalized(s: Seq<char>) -> Seq<char> {
    if s.len() == 0 {
        s
    } else {
        upper_of(s.subrange(0, 1)) + s.subrange(1, s.len() as int)
    }
}

/// Upper-cases the first character of `s` and keeps the rest.
pub fn capitalize(s: &str) -> (r: String)
    ensures
        r@ == capitalized(s@),
{
    let n = s.unicode_len();
    if n == 0 {
        return String::new();
    }
    let head = to_uppercase(s.substring_char(0, 1));
    head.concat(s.substring_char(1, n))
}


/// One variant of the message type: the method's parameters as fields, and,
/// for a method with a return type, the type of the reply that the variant's
/// response channel carries.
pub struct Variant {
    pub name: String,
    pub fields: Vec<Param>,
    pub reply: Option<Vec<String>>,
    pub is_async: bool,
}

pub struct VariantModel {
    pub name: Seq<char>,
    pub fields: Seq<ParamModel>,
    pub reply: Option<Seq<Seq<char>>>,
    pub is_async: bool,
}

impl View for Variant {
    type V = VariantModel;

    open spec fn view(&self) -> VariantModel {
        VariantModel {
            name: self.name@,
            fields: params_view(self.fields@),
            reply: opt_tokens_view(self.reply),
            is_async: self.is_async,
        }
    }
}

pub open spec fn variants_view(v: Seq<Variant>) -> Seq<VariantModel> {
    v.map_values(|x: Variant| x@)
}

pub open spec fn generic_names(gs: Seq<GenericModel>) -> Seq<Seq<char>> {
    gs.map_values(|g: GenericModel| g.name)
}

/// A token that names one of `names` gets `prefix` in front; any other stays.
pub open spec fn rename_token(prefix: Seq<char>, names: Seq<Seq<char>>, tok: Seq<char>) -> Seq<char> {
    if names.contains(tok) {
        prefix + tok
    } else {
        tok
    }
}

pub open spec fn renamed(prefix: Seq<char>, names: Seq<Seq<char>>, ty: Seq<Seq<char>>) -> Seq<Seq<char>> {
    ty.map_values(|t: Seq<char>| rename_token(prefix, names, t))
}

/// The prefix that a method's own generic parameters get: its capitalized name.
pub open spec fn method_prefix(m: MethodModel) -> Seq<char> {
    capitalized(m.name)
}

/// Renames the method's own generic parameters inside a type.
pub open spec fn rename_in(m: MethodModel, ty: Seq<Seq<char>>) -> Seq<Seq<char>> {
    renamed(method_prefix(m), generic_names(m.generics), ty)
}

/// A method's generic parameters as they stand on the message type.
pub open spec fn hoisted(m: MethodModel) -> Seq<GenericModel> {
    m.generics.map_values(
        |g: GenericModel| GenericModel { name: method_prefix(m) + g.name, bounds: rename_in(m, g.bounds) },
    )
}

/// The message variant of one method.
pub open spec fn variant_of(m: MethodModel) -> VariantModel {
    VariantModel {
        name: m.name,
        fields: m.params.map_values(|p: ParamModel| ParamModel { name: p.name, ty: rename_in(m, p.ty) }),
        reply: match m.ret {
            Some(t) => Some(rename_in(m, t)),
            None => None,
        },
        is_async: m.is_async,
    }
}

/// The variants of the public methods, in table order.
pub open spec fn public_variants(ms: Seq<MethodModel>) -> Seq<VariantModel>
    decreases ms.len(),
{
    if ms.len() == 0 {
        seq![]
    } else {
        let rest = public_variants(ms.drop_last());
        if ms.last().is_public {
            rest.push(variant_of(ms.last()))
        } else {
            rest
        }
    }
}

/// The generic parameters of the public methods, as declared.
pub open spec fn declared_generics(ms: Seq<MethodModel>) -> Seq<GenericModel>
    decreases ms.len(),
{
    if ms.len() == 0 {
        seq![]
    } else {
        let rest = declared_generics(ms.drop_last());
        if ms.last().is_public {
            rest + ms.last().generics
        } else {
            rest
        }
    }
}

/// The generic parameters of the public methods, renamed and hoisted.
pub open spec fn hoisted_generics(ms: Seq<MethodModel>) -> Seq<GenericModel>
    decreases ms.len(),
{
    if ms.len() == 0 {
        seq![]
    } else {
        let rest = hoisted_generics(ms.drop_last());
        if ms.last().is_public {
            rest + hoisted(ms.last())
        } else {
            rest
        }
    }
}

/// The generic parameters of the message type: the owner's, then each public
/// method's, renamed.
pub open spec fn message_generics(im: ImplModel) -> Seq<GenericModel> {
    im.generics + hoisted_generics(im.methods)
}


/// Whether `tok` is one of `names`.
pub fn contains_token(names: &Vec<String>, tok: &String) -> (r: bool)
    ensures
        r == tokens_view(names@).contains(tok@),
{
    let mut i: usize = 0;
    while i < names.len()
        invariant
            i <= names@.len(),
            forall|j: int| 0 <= j < i ==> names@[j]@ != tok@,
        decreases names@.len() - i,
    {
        if names[i].eq(tok) {
            assert(tokens_view(names@)[i as int] == tok@);
            return true;
        }
        i = i + 1;
    }
    assert(!tokens_view(names@).contains(tok@));
    false
}

/// Puts `prefix` in front of each token of `ty` that is one of `names`.
pub fn rename_tokens(prefix: &String, names: &Vec<String>, ty: &Vec<String>) -> (r: Vec<String>)
    ensures
        tokens_view(r@) == renamed(prefix@, tokens_view(names@), tokens_view(ty@)),
{
    let ghost nv = tokens_view(names@);
    let mut r: Vec<String> = Vec::new();
    let mut i: usize = 0;
    while i < ty.len()
        invariant
            i <= ty@.len(),
            r@.len() == i,
            nv == tokens_view(names@),
            forall|j: int| 0 <= j < i ==> #[trigger] r@[j]@ == rename_token(prefix@, nv, ty@[j]@),
        decreases ty@.len() - i,
    {
        let tok = &ty[i];
        if contains_token(names, tok) {
            r.push(prefix.clone().concat(tok.as_str()));
        } else {
            r.push(tok.clone());
        }
        i = i + 1;
    }
    assert(tokens_view(r@) =~= renamed(prefix@, nv, tokens_view(ty@)));
    r
}

/// The names of a list of generic parameters.
pub fn generic_name_list(gs: &Vec<GenericParam>) -> (r: Vec<String>)
    ensures
        tokens_view(r@) == generic_names(generics_view(gs@)),
{
    let mut r: Vec<String> = Vec::new();
    let mut i: usize = 0;
    while i < gs.len()
        invariant
            i <= gs@.len(),
            r@.len() == i,
            forall|j: int| 0 <= j < i ==> #[trigger] r@[j]@ == gs@[j].name@,
        decreases gs@.len() - i,
    {
        r.push(gs[i].name.clone());
        i = i + 1;
    }
    assert(tokens_view(r@) =~= generic_names(generics_view(gs@)));
    r
}

/// Gives `g` the name `prefix` + its own name, and renames the method's own
/// generic parameters (`names`) inside its bounds.
pub fn prefix_generic(prefix: &String, names: &Vec<String>, g: &GenericParam) -> (r: GenericParam)
    ensures
        r@.name == prefix@ + g@.name,
        r@.bounds == renamed(prefix@, tokens_view(names@), g@.bounds),
{
    GenericParam {
        name: prefix.clone().concat(g.name.as_str()),
        bounds: rename_tokens(prefix, names, &g.bounds),
    }
}

/// The method's generic parameters, renamed for the message type.
pub fn hoist_method_generics(m: &MethodDescriptor) -> (r: Vec<GenericParam>)
    ensures
        generics_view(r@) == hoisted(m@),
{
    let prefix = capitalize(m.name.as_str());
    let names = generic_name_list(&m.generics);
    let mut r: Vec<GenericParam> = Vec::new();
    let mut i: usize = 0;
    while i < m.generics.len()
        invariant
            i <= m.generics@.len(),
            r@.len() == i,
            prefix@ == method_prefix(m@),
            tokens_view(names@) == generic_names(m@.generics),
            forall|j: int| 0 <= j < i ==> #[trigger] r@[j]@ == hoisted(m@)[j],
        decreases m.generics@.len() - i,
    {
        let g = prefix_generic(&prefix, &names, &m.generics[i]);
        assert(m.generics@[i as int]@ == m@.generics[i as int]);
        r.push(g);
        i = i + 1;
    }
    assert(generics_view(r@) =~= hoisted(m@));
    r
}

/// The message variant of one method, with the method's generic parameters
/// renamed in every field type and in the reply type.
pub fn variant_for(m: &MethodDescriptor) -> (r: Variant)
    ensures
        r@ == variant_of(m@),
{
    let prefix = capitalize(m.name.as_str());
    let names = generic_name_list(&m.generics);
    let mut fields: Vec<Param> = Vec::new();
    let mut i: usize = 0;
    while i < m.params.len()
        invariant
            i <= m.params@.len(),
            fields@.len() == i,
            prefix@ == method_prefix(m@),
            tokens_view(names@) == generic_names(m@.generics),
            forall|j: int| 0 <= j < i ==> #[trigger] fields@[j]@ == variant_of(m@).fields[j],
        decreases m.params@.len() - i,
    {
        let p = &m.params[i];
        assert(p@ == m@.params[i as int]);
        fields.push(Param { name: p.name.clone(), ty: rename_tokens(&prefix, &names, &p.ty) });
        i = i + 1;
    }
    assert(params_view(fields@) =~= variant_of(m@).fields);
    let reply = match &m.ret {
        Some(t) => Some(rename_tokens(&prefix, &names, t)),
        None => None,
    };
    Variant { name: m.name.clone(), fields, reply, is_async: m.is_async }
}


/// The message variants of the public methods, in table order.
pub fn gen_message_variants(methods: &Vec<MethodDescriptor>) -> (r: Vec<Variant>)
    ensures
        variants_view(r@) == public_variants(methods_view(methods@)),
{
    let ghost ms = methods_view(methods@);
    let mut r: Vec<Variant> = Vec::new();
    let mut i: usize = 0;
    while i < methods.len()
        invariant
            i <= methods@.len(),
            ms == methods_view(methods@),
            variants_view(r@) == public_variants(ms.take(i as int)),
        decreases methods@.len() - i,
    {
        let m = &methods[i];
        proof {
            assert(ms.take(i + 1).drop_last() =~= ms.take(i as int));
            assert(ms.take(i + 1).last() == m@);
        }
        if m.is_public {
            let v = variant_for(m);
            r.push(v);
            assert(variants_view(r@) =~= public_variants(ms.take(i + 1)));
        }
        i = i + 1;
    }
    assert(ms.take(methods@.len() as int) =~= ms);
    r
}

/// Appends `more` to `r`.
fn append_generics(r: &mut Vec<GenericParam>, more: Vec<GenericParam>)
    ensures
        generics_view(final(r)@) == generics_view(old(r)@) + generics_view(more@),
{
    let ghost before = r@;
    let ghost added = more@;
    let mut more = more;
    r.append(&mut more);
    assert(generics_view(r@) =~= generics_view(before) + generics_view(added));
}

/// The generic parameters of the public methods, as declared, in table order.
pub fn method_generics(methods: &Vec<MethodDescriptor>) -> (r: Vec<GenericParam>)
    ensures
        generics_view(r@) == declared_generics(methods_view(methods@)),
{
    let ghost ms = methods_view(methods@);
    let mut r: Vec<GenericParam> = Vec::new();
    let mut i: usize = 0;
    while i < methods.len()
        invariant
            i <= methods@.len(),
            ms == methods_view(methods@),
            generics_view(r@) == declared_generics(ms.take(i as int)),
        decreases methods@.len() - i,
    {
        let m = &methods[i];
        proof {
            assert(ms.take(i + 1).drop_last() =~= ms.take(i as int));
            assert(ms.take(i + 1).last() == m@);
        }
        if m.is_public {
            let mut own: Vec<GenericParam> = Vec::new();
            let mut k: usize = 0;
            while k < m.generics.len()
                invariant
                    k <= m.generics@.len(),
                    own@.len() == k,
                    forall|j: int| 0 <= j < k ==> #[trigger] own@[j]@ == m.generics@[j]@,
                decreases m.generics@.len() - k,
            {
                own.push(m.generics[k].duplicate());
                k = k + 1;
            }
            assert(generics_view(own@) =~= m@.generics);
            append_generics(&mut r, own);
        }
        i = i + 1;
    }
    assert(ms.take(methods@.len() as int) =~= ms);
    r
}

/// The names of the public methods' generic parameters, as declared.
pub fn method_generic_tys(methods: &Vec<MethodDescriptor>) -> (r: Vec<String>)
    ensures
        tokens_view(r@) == generic_names(declared_generics(methods_view(methods@))),
{
    let gs = method_generics(methods);
    generic_name_list(&gs)
}

/// The public methods' generic parameters, renamed, in table order.
pub fn hoist_all(methods: &Vec<MethodDescriptor>) -> (r: Vec<GenericParam>)
    ensures
        generics_view(r@) == hoisted_generics(methods_view(methods@)),
{
    let ghost ms = methods_view(methods@);
    let mut r: Vec<GenericParam> = Vec::new();
    let mut i: usize = 0;
    while i < methods.len()
        invariant
            i <= methods@.len(),
            ms == methods_view(methods@),
            generics_view(r@) == hoisted_generics(ms.take(i as int)),
        decreases methods@.len() - i,
    {
        let m = &methods[i];
        proof {
            assert(ms.take(i + 1).drop_last() =~= ms.take(i as int));
            assert(ms.take(i + 1).last() == m@);
        }
        if m.is_public {
            let own = hoist_method_generics(m);
            append_generics(&mut r, own);
        }
        i = i + 1;
    }
    assert(ms.take(methods@.len() as int) =~= ms);
    r
}

/// The generic parameters of the message type: the owner's, then each public
/// method's, renamed.
pub fn all_generics(spec: &ImplSpec) -> (r: Vec<GenericParam>)
    ensures
        generics_view(r@) == message_generics(spec@),
{
    let mut r: Vec<GenericParam> = Vec::new();
    let mut k: usize = 0;
    while k < spec.generics.len()
        invariant
            k <= spec.generics@.len(),
            r@.len() == k,
            forall|j: int| 0 <= j < k ==> #[trigger] r@[j]@ == spec.generics@[j]@,
        decreases spec.generics@.len() - k,
    {
        r.push(spec.generics[k].duplicate());
        k = k + 1;
    }
    assert(generics_view(r@) =~= spec@.generics);
    let more = hoist_all(&spec.methods);
    append_generics(&mut r, more);
    r
}

/// The names of the message type's generic parameters, in order.
pub fn all_generic_tys(spec: &ImplSpec) -> (r: Vec<String>)
    ensures
        tokens_view(r@) == generic_names(message_generics(spec@)),
{
    let gs = all_generics(spec);
    generic_name_list(&gs)
}

/// The names of the renamed method generics, followed by the owner's.
pub fn all_generic_tys_tuple(spec: &ImplSpec) -> (r: Vec<String>)
    ensures
        tokens_view(r@) == generic_names(hoisted_generics(spec@.methods)) + generic_names(spec@.generics),
{
    let hoisted = hoist_all(&spec.methods);
    let mut r = generic_name_list(&hoisted);
    let mut owners = generic_name_list(&spec.generics);
    let ghost before = r@;
    r.append(&mut owners);
    assert(tokens_view(r@) =~= tokens_view(before) + generic_names(spec@.generics));
    r
}


/// Why a method table cannot become an actor.
#[derive(Debug)]
pub enum GenError {
    /// The named public method takes no `self`.
    MissingReceiver(String),
    /// The named public method returns a type that a response channel cannot
    /// carry (empty, a borrow, or an `impl` type).
    UnrepresentableReturn(String),
    /// Two generic parameters of the message type would have this name.
    GenericCollision(String),
}

pub enum GenFault {
    MissingReceiver(Seq<char>),
    UnrepresentableReturn(Seq<char>),
    GenericCollision(Seq<char>),
}

impl View for GenError {
    type V = GenFault;

    open spec fn view(&self) -> GenFault {
        match self {
            GenError::MissingReceiver(n) => GenFault::MissingReceiver(n@),
            GenError::UnrepresentableReturn(n) => GenFault::UnrepresentableReturn(n@),
            GenError::GenericCollision(n) => GenFault::GenericCollision(n@),
        }
    }
}

/// A return type that a response channel can carry: not empty, and with no
/// borrow and no `impl` type in it.
pub open spec fn representable(ty: Seq<Seq<char>>) -> bool {
    &&& ty.len() > 0
    &&& forall|i: int| 0 <= i < ty.len() ==> ty[i] != "&"@ && ty[i] != "impl"@
}

/// What is wrong with one public method, if anything.
pub open spec fn method_fault(m: MethodModel) -> Option<GenFault> {
    if !m.has_receiver {
        Some(GenFault::MissingReceiver(m.name))
    } else if m.ret is Some && !representable(m.ret->0) {
        Some(GenFault::UnrepresentableReturn(m.name))
    } else {
        None
    }
}

/// The fault of the first faulty public method.
pub open spec fn first_fault(ms: Seq<MethodModel>) -> Option<GenFault>
    decreases ms.len(),
{
    if ms.len() == 0 {
        None
    } else {
        match first_fault(ms.drop_last()) {
            Some(f) => Some(f),
            None => if ms.last().is_public {
                method_fault(ms.last())
            } else {
                None
            },
        }
    }
}

pub open spec fn names_distinct(s: Seq<Seq<char>>) -> bool {
    forall|i: int, j: int| 0 <= i < j < s.len() ==> s[i] != s[j]
}

pub open spec fn duplicated(s: Seq<Seq<char>>, n: Seq<char>) -> bool {
    exists|i: int, j: int| 0 <= i < j < s.len() && s[i] == n && s[j] == n
}

/// Whether a return type can be carried by a response channel.
pub fn is_representable(ty: &Vec<String>) -> (r: bool)
    ensures
        r == representable(tokens_view(ty@)),
{
    if ty.len() == 0 {
        return false;
    }
    let amp = String::from_str("&");
    let imp = String::from_str("impl");
    let mut i: usize = 0;
    while i < ty.len()
        invariant
            i <= ty@.len(),
            amp@ == "&"@,
            imp@ == "impl"@,
            forall|j: int| 0 <= j < i ==> ty@[j]@ != "&"@ && ty@[j]@ != "impl"@,
        decreases ty@.len() - i,
    {
        if ty[i].eq(&amp) || ty[i].eq(&imp) {
            assert(tokens_view(ty@)[i as int] == ty@[i as int]@);
            return false;
        }
        i = i + 1;
    }
    assert(representable(tokens_view(ty@)));
    true
}

/// The fault of the first faulty public method, if there is one.
pub fn check_methods(methods: &Vec<MethodDescriptor>) -> (r: Result<(), GenError>)
    ensures
        r is Ok <==> first_fault(methods_view(methods@)) is None,
        r matches Err(e) ==> first_fault(methods_view(methods@)) == Some(e@),
{
    let ghost ms = methods_view(methods@);
    let mut i: usize = 0;
    while i < methods.len()
        invariant
            i <= methods@.len(),
            ms == methods_view(methods@),
            first_fault(ms.take(i as int)) is None,
        decreases methods@.len() - i,
    {
        let m = &methods[i];
        proof {
            assert(ms.take(i + 1).drop_last() =~= ms.take(i as int));
            assert(ms.take(i + 1).last() == m@);
        }
        if m.is_public {
            if !m.has_receiver {
                proof { lemma_first_fault_kept(ms, i as int + 1); }
                return Err(GenError::MissingReceiver(m.name.clone()));
            }
            match &m.ret {
                Some(t) => {
                    if !is_representable(t) {
                        proof { lemma_first_fault_kept(ms, i as int + 1); }
                        return Err(GenError::UnrepresentableReturn(m.name.clone()));
                    }
                },
                None => {},
            }
        }
        i = i + 1;
    }
    assert(ms.take(methods@.len() as int) =~= ms);
    Ok(())
}

/// A fault found in a prefix of the table is the fault of the whole table.
proof fn lemma_first_fault_kept(ms: Seq<MethodModel>, k: int)
    requires
        0 <= k <= ms.len(),
        first_fault(ms.take(k)) is Some,
    ensures
        first_fault(ms) == first_fault(ms.take(k)),
    decreases ms.len() - k,
{
    if k < ms.len() {
        assert(ms.take(k + 1).drop_last() =~= ms.take(k));
        lemma_first_fault_kept(ms, k + 1);
    } else {
        assert(ms.take(k) =~= ms);
    }
}

/// A name that occurs twice in `names`, if there is one.
pub fn find_duplicate(names: &Vec<String>) -> (r: Option<String>)
    ensures
        r is None <==> names_distinct(tokens_view(names@)),
        r matches Some(n) ==> duplicated(tokens_view(names@), n@),
{
    let ghost s = tokens_view(names@);
    let mut j: usize = 0;
    while j < names.len()
        invariant
            j <= names@.len(),
            s == tokens_view(names@),
            forall|a: int, b: int| 0 <= a < b < j ==> s[a] != s[b],
        decreases names@.len() - j,
    {
        let mut i: usize = 0;
        while i < j
            invariant
                i <= j < names@.len(),
                s == tokens_view(names@),
                forall|a: int| 0 <= a < i ==> s[a] != s[j as int],
            decreases j - i,
        {
            if names[i].eq(&names[j]) {
                assert(s[i as int] == names@[i as int]@ && s[j as int] == names@[j as int]@);
                return Some(names[j].clone());
            }
            i = i + 1;
        }
        j = j + 1;
    }
    None
}

/// The generated parts of an actor: the names of its message, handle and
/// router types, the message type's generic parameters, and one variant per
/// public method. Each variant also gives the handle's call of that method
/// (its parameters, ask or tell) and the router's arm for it (await or not,
/// reply or not).
pub struct Artifacts {
    pub message_ty: String,
    pub actor_ty: String,
    pub router_ty: String,
    pub generics: Vec<GenericParam>,
    pub variants: Vec<Variant>,
}

pub struct ArtifactsModel {
    pub message_ty: Seq<char>,
    pub actor_ty: Seq<char>,
    pub router_ty: Seq<char>,
    pub generics: Seq<GenericModel>,
    pub variants: Seq<VariantModel>,
}

impl View for Artifacts {
    type V = ArtifactsModel;

    open spec fn view(&self) -> ArtifactsModel {
        ArtifactsModel {
            message_ty: self.message_ty@,
            actor_ty: self.actor_ty@,
            router_ty: self.router_ty@,
            generics: generics_view(self.generics@),
            variants: variants_view(self.variants@),
        }
    }
}

/// What a well-formed table generates.
pub open spec fn artifacts_of(im: ImplModel) -> ArtifactsModel {
    ArtifactsModel {
        message_ty: im.owner + "Message"@,
        actor_ty: im.owner + "Actor"@,
        router_ty: im.owner + "Router"@,
        generics: message_generics(im),
        variants: public_variants(im.methods),
    }
}

/// Generates the artifacts of an actor from its method table, or reports the
/// first fault: a faulty public method, else a collision among the message
/// type's generic parameters.
pub fn derive_actor(spec: &ImplSpec) -> (r: Result<Artifacts, GenError>)
    ensures
        r matches Ok(a) ==> first_fault(spec@.methods) is None
            && names_distinct(generic_names(message_generics(spec@)))
            && a@ == artifacts_of(spec@),
        r matches Err(e) ==> match first_fault(spec@.methods) {
            Some(f) => e@ == f,
            None => e@ matches GenFault::GenericCollision(n)
                && duplicated(generic_names(message_generics(spec@)), n),
        },
{
    match check_methods(&spec.methods) {
        Err(e) => return Err(e),
        Ok(()) => {},
    }
    let generics = all_generics(spec);
    let names = generic_name_list(&generics);
    match find_duplicate(&names) {
        Some(n) => return Err(GenError::GenericCollision(n)),
        None => {},
    }
    let variants = gen_message_variants(&spec.methods);
    Ok(Artifacts {
        message_ty: spec.owner.clone().concat("Message"),
        actor_ty: spec.owner.clone().concat("Actor"),
        router_ty: spec.owner.clone().concat("Router"),
        generics,
        variants,
    })
}

} // verus!
