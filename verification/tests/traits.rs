use dyntable::bounds::{BoundModel, BoundedType, PredicateModel};
use dyntable::codegen::{
    as_dyn_bounds, bounds_trait_name, drop_fn_name, inherited_paths, phantom_generics, proxy_trait_name,
    self_proxy_name, vtable_bounds, vtable_fields, PhantomPart, TraitGenericModel, VTableBounds, VTableField,
};
use dyntable::dyntrait::{BodyError, DynTraitBody, DynTraitInfo, InfoError, TraitItemModel, TraitModel, VTableEntry};
use dyntable::method::{FnArgModel, MethodError, SignatureModel};
use dyntable::options::{AttrOption, AttributeOptions};
use dyntable::path::{PathSegment, TraitPath};
use dyntable::subtable::SubtableError;

type Model = TraitModel<&'static str, &'static str, &'static str>;
type Info = DynTraitInfo<&'static str, &'static str, &'static str>;

fn p(s: &str) -> TraitPath {
    TraitPath::new(false, vec![PathSegment::new(s.to_string(), String::new())])
}

fn tb(s: &str) -> BoundModel {
    BoundModel::Trait { path: p(s), modified: false, higher_ranked: false }
}

fn dyn_entry(bounded: &str, bounds: &[&str]) -> PredicateModel<&'static str> {
    PredicateModel::Type {
        bounded_ty: BoundedType::TraitObject { dyn_token: true, bounds: vec![tb(bounded)] },
        higher_ranked: false,
        bounds: bounds.iter().map(|b| tb(b)).collect(),
        node: "dyn entry",
    }
}

fn method(name: &str, has_abi: bool, by_value: bool) -> TraitItemModel<&'static str, &'static str> {
    TraitItemModel::Fn(SignatureModel {
        name: name.to_string(),
        has_abi,
        has_variadic: false,
        has_where_clause: false,
        generics: vec![],
        inputs: vec![FnArgModel::Receiver {
            typed: false,
            reference: if by_value { None } else { Some(None) },
            mutable: false,
        }],
    })
}

fn subtrait() -> Model {
    // trait Subtrait: Supertrait where dyn Supertrait:, { extern "C" fn call_subtrait(&self); }
    TraitModel {
        ident: "Subtrait".to_string(),
        supertraits: vec![tb("Supertrait")],
        where_predicates: Some(vec![dyn_entry("Supertrait", &[])]),
        items: vec![method("call_subtrait", true, false)],
    }
}

fn info(model: Model, options: Vec<AttrOption>) -> Info {
    let body = DynTraitBody::parse(model).ok().unwrap();
    DynTraitInfo::parse_trait(AttributeOptions::resolve(options).ok().unwrap(), body).ok().unwrap()
}

#[test]
fn subtrait_body() {
    let body = DynTraitBody::parse(subtrait()).ok().unwrap();
    assert_eq!(body.ident, "Subtrait");
    assert_eq!(body.subtables.len(), 1);
    assert_eq!(body.subtables[0].ident, "__vtable_Supertrait");
    assert_eq!(body.methods.len(), 1);
    assert_eq!(body.methods[0].name, "call_subtrait");
    assert_eq!(body.where_predicates.as_ref().map(|w| w.len()), Some(0));
}

#[test]
fn where_predicates_other_than_dyn_are_kept() {
    let mut m = subtrait();
    m.where_predicates = Some(vec![
        PredicateModel::Type { bounded_ty: BoundedType::Other, higher_ranked: false, bounds: vec![], node: "Self: Sized" },
        dyn_entry("Supertrait", &[]),
        PredicateModel::Type {
            bounded_ty: BoundedType::Paren(Box::new(BoundedType::TraitObject { dyn_token: true, bounds: vec![tb("Other")] })),
            higher_ranked: false,
            bounds: vec![],
            node: "(dyn Other):",
        },
    ]);
    let body = DynTraitBody::parse(m).ok().unwrap();
    assert_eq!(body.where_predicates, Some(vec!["Self: Sized", "(dyn Other):"]));
}

#[test]
fn items_other_than_types_and_methods_are_refused() {
    let mut m = subtrait();
    m.items = vec![TraitItemModel::Type("type A;"), method("f", true, false), TraitItemModel::Const];
    assert!(DynTraitBody::parse(m).err().unwrap() == BodyError::AssociatedConst { item: 2 });
    let mut m = subtrait();
    m.items = vec![TraitItemModel::Macro];
    let e = DynTraitBody::parse(m).err().unwrap();
    assert!(e == BodyError::MacroItem { item: 0 });
    let mut m = subtrait();
    m.items = vec![TraitItemModel::Other];
    assert_eq!(DynTraitBody::parse(m).err().unwrap().message(), "unknown entry");
}

#[test]
fn associated_types_are_kept() {
    let mut m = subtrait();
    m.items = vec![TraitItemModel::Type("type A: Clone;"), method("f", true, false)];
    let body = DynTraitBody::parse(m).ok().unwrap();
    assert_eq!(body.associated_types, vec!["type A: Clone;"]);
}

#[test]
fn method_errors_name_their_item() {
    let mut m = subtrait();
    m.items = vec![TraitItemModel::Type("type A;"), TraitItemModel::Fn(SignatureModel {
        name: "associated".to_string(),
        has_abi: true,
        has_variadic: false,
        has_where_clause: false,
        generics: vec![],
        inputs: vec![],
    })];
    let e = DynTraitBody::parse(m).err().unwrap();
    assert!(e == BodyError::Method { item: 1, error: MethodError::MissingSelf });
    assert_eq!(e.message(), "missing required `self` parameter");
}

#[test]
fn unrelated_dyn_entry_is_refused() {
    // trait Bounded where dyn ObjectSafe:,
    let m: Model = TraitModel {
        ident: "Bounded".to_string(),
        supertraits: vec![],
        where_predicates: Some(vec![dyn_entry("ObjectSafe", &[])]),
        items: vec![],
    };
    assert!(DynTraitBody::parse(m).err().unwrap() == BodyError::Subtable(SubtableError::Unrelated { predicate: 0 }));
}

#[test]
fn missing_abi_is_refused_unless_relaxed() {
    let mut m = subtrait();
    m.items = vec![method("a", true, false), method("b", false, false)];
    let body = DynTraitBody::parse(m).ok().unwrap();
    let e = DynTraitInfo::parse_trait(AttributeOptions::resolve(vec![]).ok().unwrap(), body).err().unwrap();
    assert!(e == InfoError::MissingAbi { method: 1 });

    let mut m = subtrait();
    m.items = vec![method("a", true, false), method("b", false, false)];
    let i = info(m, vec![AttrOption::RelaxAbi(true)]);
    assert_eq!(i.entries.len(), 3);
}

#[test]
fn vtable_name_and_entry_order() {
    let i = info(subtrait(), vec![]);
    assert_eq!(i.vtable.name, "SubtraitVTable");
    assert!(matches!(i.entries[0], VTableEntry::Subtable(_)));
    assert!(matches!(i.entries[1], VTableEntry::Method(_)));
    let i = info(subtrait(), vec![AttrOption::VTableName("Custom".to_string())]);
    assert_eq!(i.vtable.name, "Custom");
}

#[test]
fn vtable_layout() {
    let i = info(subtrait(), vec![]);
    let f = vtable_fields(&i);
    assert!(f == vec![VTableField::Drop, VTableField::Layout, VTableField::Entry { index: 0, by_ref: false }, VTableField::Entry { index: 1, by_ref: false }, VTableField::Generics]);
    let i = info(subtrait(), vec![AttrOption::Drop(None), AttrOption::EmbedLayout(false)]);
    let f = vtable_fields(&i);
    assert!(f == vec![VTableField::Entry { index: 0, by_ref: false }, VTableField::Entry { index: 1, by_ref: false }, VTableField::Generics]);
}

#[test]
fn vtable_bounds_by_count() {
    assert!(matches!(vtable_bounds(&vec![]), VTableBounds::NoBounds));
    assert!(matches!(vtable_bounds(&vec![BoundModel::Other, tb("Send")]), VTableBounds::Single(1)));
    match vtable_bounds(&vec![tb("Send"), BoundModel::Other, tb("Sync")]) {
        VTableBounds::Combined(v) => assert_eq!(v, vec![0, 2]),
        _ => panic!("two trait bounds are combined"),
    }
}

#[test]
fn container_bounds_skip_subtables() {
    // trait SendDog: Send + Animal where dyn Animal:,
    let m: Model = TraitModel {
        ident: "SendDog".to_string(),
        supertraits: vec![tb("Send"), tb("Animal")],
        where_predicates: Some(vec![dyn_entry("Animal", &[])]),
        items: vec![],
    };
    let i = info(m, vec![]);
    assert_eq!(as_dyn_bounds(&i), vec![0]);
}

#[test]
fn inherited_paths_of_a_bottle() {
    // trait Bottle: FluidContainer + ConsumableContainer
    // where dyn FluidContainer: Container, dyn ConsumableContainer:,
    let m: Model = TraitModel {
        ident: "Bottle".to_string(),
        supertraits: vec![tb("FluidContainer"), tb("ConsumableContainer")],
        where_predicates: Some(vec![dyn_entry("FluidContainer", &["Container"]), dyn_entry("ConsumableContainer", &[])]),
        items: vec![],
    };
    let i = info(m, vec![]);
    let paths: Vec<String> = inherited_paths(&i).iter().map(|p| p.segments[0].ident.clone()).collect();
    assert_eq!(paths, vec!["FluidContainer", "Container", "ConsumableContainer"]);
}

#[test]
fn generated_names() {
    let t = "MyTrait".to_string();
    assert_eq!(proxy_trait_name(&t), "__DynTrait_MyTrait");
    assert_eq!(drop_fn_name(&t), "__DynDrop_MyTrait");
    assert_eq!(bounds_trait_name(&t), "__DynBounds_MyTrait");
    assert_eq!(self_proxy_name(&t, &"take".to_string()), "__DynImpl_MyTrait_take");
}

#[test]
fn phantom_generics_of_the_vtable() {
    let none = phantom_generics(&vec![]);
    assert!(none.parts.is_empty() && none.tuple);
    let one = phantom_generics(&vec![TraitGenericModel::Type("T".to_string()), TraitGenericModel::Const("N".to_string())]);
    assert!(!one.tuple);
    assert!(matches!(&one.parts[0], PhantomPart::Type(t) if t == "T"));
    let two = phantom_generics(&vec![TraitGenericModel::Lifetime("'a".to_string()), TraitGenericModel::Type("T".to_string())]);
    assert!(two.tuple);
    assert!(matches!(&two.parts[0], PhantomPart::Lifetime(l) if l == "'a"));
}

fn main_trait() -> Model {
    // trait MainTrait: OriginalBase where &dyn OriginalBase:, { extern "C" fn mainfn(&self) -> i32; }
    TraitModel {
        ident: "MainTrait".to_string(),
        supertraits: vec![tb("OriginalBase")],
        where_predicates: Some(vec![PredicateModel::Type {
            bounded_ty: BoundedType::Reference {
                mutable: false,
                elem: Box::new(BoundedType::TraitObject { dyn_token: true, bounds: vec![tb("OriginalBase")] }),
            },
            higher_ranked: false,
            bounds: vec![],
            node: "&dyn OriginalBase:",
        }]),
        items: vec![method("mainfn", true, false)],
    }
}

#[test]
fn reference_table_is_a_pointer_field() {
    let body = DynTraitBody::parse(main_trait()).ok().unwrap();
    assert_eq!(body.subtables.len(), 1);
    assert_eq!(body.subtables[0].ident, "__vtable_OriginalBase");
    assert!(body.subtables[0].subtable.by_ref);
    assert!(body.subtables[0].subtable.path.same_as(&p("OriginalBase")));
    assert!(body.where_predicates.as_ref().unwrap().is_empty());
    let i = info(main_trait(), vec![]);
    let f = vtable_fields(&i);
    assert!(f == vec![
        VTableField::Drop,
        VTableField::Layout,
        VTableField::Entry { index: 0, by_ref: true },
        VTableField::Entry { index: 1, by_ref: false },
        VTableField::Generics,
    ]);
}

#[test]
fn reference_tables_are_inherited_as_paths() {
    // trait EnsureInheritance: MainTrait where dyn MainTrait: OriginalBase, {}
    let m = TraitModel {
        ident: "EnsureInheritance".to_string(),
        supertraits: vec![tb("MainTrait")],
        where_predicates: Some(vec![dyn_entry("MainTrait", &["OriginalBase"])]),
        items: vec![],
    };
    let i = info(m, vec![]);
    let f = vtable_fields(&i);
    assert!(f[2] == VTableField::Entry { index: 0, by_ref: false });
    let paths = inherited_paths(&i);
    assert_eq!(paths.len(), 2);
    assert!(paths[1].same_as(&p("OriginalBase")));
}
