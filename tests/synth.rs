use derive_aktor::descriptor::{GenericParam, ImplSpec, MethodDescriptor, Param};
use derive_aktor::synth::{
    all_generic_tys, all_generic_tys_tuple, all_generics, capitalize, find_duplicate, gen_message_variants,
    derive_actor, is_representable, method_generic_tys, method_generics, rename_tokens, GenError,
};

fn text(s: &str) -> String {
    s.to_string()
}

fn toks(ts: &[&str]) -> Vec<String> {
    ts.iter().map(|t| t.to_string()).collect()
}

fn generic(name: &str, bounds: &[&str]) -> GenericParam {
    GenericParam { name: text(name), bounds: toks(bounds) }
}

fn param(name: &str, ty: &[&str]) -> Param {
    Param { name: text(name), ty: toks(ty) }
}

fn method(name: &str, params: Vec<Param>, generics: Vec<GenericParam>, ret: Option<&[&str]>) -> MethodDescriptor {
    MethodDescriptor {
        name: text(name),
        has_receiver: true,
        params,
        generics,
        is_async: false,
        ret: ret.map(toks),
        is_public: true,
    }
}

fn logger_spec() -> ImplSpec {
    let mut helper = method("flush", vec![], vec![generic("T", &[])], None);
    helper.is_public = false;
    ImplSpec {
        owner: text("PrintLogger"),
        generics: vec![],
        methods: vec![
            method("info", vec![param("data", &["T"])], vec![generic("T", &["Debug", "+", "Send"])], Some(&["i32"])),
            helper,
            method("error", vec![param("data", &["T"])], vec![generic("T", &["Debug", "+", "Send"])], Some(&["i32"])),
        ],
    }
}

fn store_spec() -> ImplSpec {
    let mut query = method(
        "query",
        vec![param("key", &["U"]), param("f", &["Box", "<", "dyn", "Fn", "(", "Option", "<", "String", ">", ")", ">"])],
        vec![],
        None,
    );
    query.is_async = true;
    ImplSpec {
        owner: text("KeyValueStore"),
        generics: vec![generic("U", &["Hash", "+", "Eq"])],
        methods: vec![query, method("set", vec![param("key", &["U"]), param("value", &["String"])], vec![], None)],
    }
}

fn names(gs: &[GenericParam]) -> Vec<String> {
    gs.iter().map(|g| g.name.clone()).collect()
}

#[test]
fn capitalize_first_character() {
    assert_eq!(capitalize("info"), "Info");
    assert_eq!(capitalize("x"), "X");
    assert_eq!(capitalize("Already"), "Already");
    assert_eq!(capitalize("éclair"), "Éclair");
    assert_eq!(capitalize(""), "");
}

#[test]
fn rename_prefixes_only_own_generics() {
    let r = rename_tokens(&text("Info"), &toks(&["T"]), &toks(&["Vec", "<", "T", ",", "U", ">"]));
    assert_eq!(r, toks(&["Vec", "<", "InfoT", ",", "U", ">"]));
}

#[test]
fn generate_logger_artifacts() {
    let a = derive_actor(&logger_spec()).unwrap();
    assert_eq!(a.message_ty, "PrintLoggerMessage");
    assert_eq!(a.actor_ty, "PrintLoggerActor");
    assert_eq!(a.router_ty, "PrintLoggerRouter");
    assert_eq!(names(&a.generics), toks(&["InfoT", "ErrorT"]));
    assert_eq!(a.generics[0].bounds, toks(&["Debug", "+", "Send"]));
    assert_eq!(a.variants.len(), 2);
    assert_eq!(a.variants[0].name, "info");
    assert_eq!(a.variants[0].fields[0].name, "data");
    assert_eq!(a.variants[0].fields[0].ty, toks(&["InfoT"]));
    assert_eq!(a.variants[0].reply, Some(toks(&["i32"])));
    assert_eq!(a.variants[1].name, "error");
    assert_eq!(a.variants[1].fields[0].ty, toks(&["ErrorT"]));
}

#[test]
fn generate_store_artifacts() {
    let a = derive_actor(&store_spec()).unwrap();
    assert_eq!(a.message_ty, "KeyValueStoreMessage");
    assert_eq!(names(&a.generics), toks(&["U"]));
    assert_eq!(a.variants.len(), 2);
    assert!(a.variants[0].is_async);
    assert!(!a.variants[1].is_async);
    assert_eq!(a.variants[0].reply, None);
    assert_eq!(a.variants[0].fields.len(), 2);
    assert_eq!(a.variants[0].fields[0].ty, toks(&["U"]));
    assert_eq!(a.variants[1].fields[1].name, "value");
}

#[test]
fn message_variants_skip_private_methods() {
    let v = gen_message_variants(&logger_spec().methods);
    let names: Vec<String> = v.iter().map(|x| x.name.clone()).collect();
    assert_eq!(names, toks(&["info", "error"]));
}

#[test]
fn generic_lists() {
    let spec = logger_spec();
    assert_eq!(names(&method_generics(&spec.methods)), toks(&["T", "T"]));
    assert_eq!(method_generic_tys(&spec.methods), toks(&["T", "T"]));
    assert_eq!(names(&all_generics(&spec)), toks(&["InfoT", "ErrorT"]));
    let store = store_spec();
    let mut with_method = store_spec();
    with_method.methods.push(method("map", vec![], vec![generic("F", &[])], Some(&["F"])));
    assert_eq!(all_generic_tys(&store), toks(&["U"]));
    assert_eq!(all_generic_tys(&with_method), toks(&["U", "MapF"]));
    assert_eq!(all_generic_tys_tuple(&with_method), toks(&["MapF", "U"]));
}

#[test]
fn missing_receiver_is_reported() {
    let mut spec = logger_spec();
    spec.methods[2].has_receiver = false;
    match derive_actor(&spec) {
        Err(GenError::MissingReceiver(n)) => assert_eq!(n, "error"),
        other => panic!("unexpected {:?}", other.err()),
    }
}

#[test]
fn private_method_faults_are_ignored() {
    let mut spec = logger_spec();
    spec.methods[1].has_receiver = false;
    assert!(derive_actor(&spec).is_ok());
}

#[test]
fn borrowed_return_is_reported() {
    let mut spec = logger_spec();
    spec.methods[0].ret = Some(toks(&["&", "str"]));
    spec.methods[2].has_receiver = false;
    match derive_actor(&spec) {
        Err(GenError::UnrepresentableReturn(n)) => assert_eq!(n, "info"),
        other => panic!("unexpected {:?}", other.err()),
    }
    assert!(!is_representable(&toks(&["impl", "Future"])));
    assert!(!is_representable(&toks(&[])));
    assert!(is_representable(&toks(&["Option", "<", "String", ">"])));
}

#[test]
fn colliding_generics_are_reported() {
    let spec = ImplSpec {
        owner: text("Clash"),
        generics: vec![],
        methods: vec![
            method("a", vec![], vec![generic("BC", &[])], None),
            method("aB", vec![], vec![generic("C", &[])], None),
        ],
    };
    match derive_actor(&spec) {
        Err(GenError::GenericCollision(n)) => assert_eq!(n, "ABC"),
        other => panic!("unexpected {:?}", other.err()),
    }
    let mut owner_clash = logger_spec();
    owner_clash.generics.push(generic("InfoT", &[]));
    match derive_actor(&owner_clash) {
        Err(GenError::GenericCollision(n)) => assert_eq!(n, "InfoT"),
        other => panic!("unexpected {:?}", other.err()),
    }
}

#[test]
fn duplicates_found() {
    assert_eq!(find_duplicate(&toks(&["A", "B", "C"])), None);
    assert_eq!(find_duplicate(&toks(&["A", "B", "A"])), Some(text("A")));
    assert_eq!(find_duplicate(&toks(&[])), None);
}
