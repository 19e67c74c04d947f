use dyntable::bounds::{
    classify_predicate, strip_dyn_entries, BoundModel, BoundPart, BoundedType, DynEntryError, DynPredicate, PredicateModel,
    WherePredicateModel,
};
use dyntable::path::{PathSegment, TraitPath};
use dyntable::subtable::{name_subtables, solve_subtables, Subtable, SubtableError};

fn path(segments: &[&str]) -> TraitPath {
    TraitPath::new(
        false,
        segments
            .iter()
            .map(|s| match s.find('<') {
                Some(i) => PathSegment::new(s[..i].to_string(), s[i..].to_string()),
                None => PathSegment::new(s.to_string(), String::new()),
            })
            .collect(),
    )
}

fn p(s: &str) -> TraitPath {
    path(&[s])
}

fn entry(bounded: &str, bounds: &[&str]) -> DynPredicate {
    DynPredicate { bounded_ty: p(bounded), by_ref: false, bounds: bounds.iter().map(|b| p(b)).collect() }
}

fn trait_bound(s: &str) -> BoundModel {
    BoundModel::Trait { path: p(s), modified: false, higher_ranked: false }
}

fn names(t: &Subtable) -> String {
    let own = t.path.segments.iter().map(|s| s.ident.clone()).collect::<Vec<_>>().join("::");
    if t.subtables.is_empty() {
        own
    } else {
        format!("{}({})", own, t.subtables.iter().map(names).collect::<Vec<_>>().join(","))
    }
}

#[test]
fn graph_of_nested_entries() {
    // where dyn A: B + C, dyn B: D
    let roots = vec![p("A")];
    let preds = vec![entry("A", &["B", "C"]), entry("B", &["D"])];
    let forest = solve_subtables(&roots, &preds).ok().unwrap();
    assert_eq!(forest.len(), 1);
    assert_eq!(names(&forest[0]), "A(B(D),C)");
}

#[test]
fn bounds_without_entry_have_no_subtable() {
    // trait T: Send + A where dyn A:
    let roots = vec![p("Send"), p("A")];
    let preds = vec![entry("A", &[])];
    let forest = solve_subtables(&roots, &preds).ok().unwrap();
    assert_eq!(forest.len(), 1);
    assert_eq!(names(&forest[0]), "A");
}

#[test]
fn fancy_bottle_paths() {
    // trait FancyBottle: Bottle where dyn Bottle: FluidContainer + ConsumableContainer,
    //     dyn FluidContainer: Container
    let roots = vec![p("Bottle")];
    let preds = vec![
        entry("Bottle", &["FluidContainer", "ConsumableContainer"]),
        entry("FluidContainer", &["Container"]),
    ];
    let forest = solve_subtables(&roots, &preds).ok().unwrap();
    assert_eq!(names(&forest[0]), "Bottle(FluidContainer(Container),ConsumableContainer)");
    let flat = forest[0].flatten();
    assert_eq!(flat.len(), 4);
    assert_eq!(forest[0].flatten_child_graph().len(), 3);
    let graph = forest[0].flatten_child_graph();
    assert_eq!(graph[0].parent.path.segments[0].ident, "Bottle");
    assert_eq!(graph[0].child.path.segments[0].ident, "FluidContainer");
    assert_eq!(graph[1].parent.path.segments[0].ident, "FluidContainer");
    assert_eq!(graph[1].child.path.segments[0].ident, "Container");
    assert_eq!(graph[2].child.path.segments[0].ident, "ConsumableContainer");
}

#[test]
fn two_paths_to_one_bound_are_refused() {
    // dyn Level1Trait1: BaseTrait, dyn Level1Trait2: BaseTrait
    let roots = vec![p("Level1Trait1"), p("Level1Trait2")];
    let preds = vec![entry("Level1Trait1", &["BaseTrait"]), entry("Level1Trait2", &["BaseTrait"])];
    let err = solve_subtables(&roots, &preds).err().unwrap();
    assert!(err == SubtableError::DuplicatePath { predicate: 1, bound: 0 });
}

#[test]
fn bound_listed_twice_in_one_entry_is_refused() {
    let roots = vec![p("A")];
    let preds = vec![entry("A", &["B", "B"])];
    let err = solve_subtables(&roots, &preds).err().unwrap();
    assert!(err == SubtableError::DuplicatePath { predicate: 0, bound: 1 });
}

#[test]
fn supertrait_listed_twice_is_refused() {
    let roots = vec![p("A")];
    let preds = vec![entry("A", &[]), entry("A", &["B"])];
    let err = solve_subtables(&roots, &preds).err().unwrap();
    assert!(err == SubtableError::AlreadyListed { predicate: 1 });
    assert_eq!(err.message(), "supertrait already listed");
}

#[test]
fn unrelated_entry_is_refused() {
    // trait Bounded where dyn ObjectSafe:
    let roots: Vec<TraitPath> = vec![];
    let preds = vec![entry("ObjectSafe", &[])];
    let err = solve_subtables(&roots, &preds).err().unwrap();
    assert!(err == SubtableError::Unrelated { predicate: 0 });
}

#[test]
fn entry_reached_through_another_is_related() {
    let roots = vec![p("A")];
    let preds = vec![entry("B", &["C"]), entry("A", &["B"])];
    let forest = solve_subtables(&roots, &preds).ok().unwrap();
    assert_eq!(names(&forest[0]), "A(B(C))");
}

#[test]
fn cyclic_entries_are_reported() {
    let roots = vec![p("A")];
    let preds = vec![entry("A", &["B"]), entry("B", &["A"])];
    let err = solve_subtables(&roots, &preds).err().unwrap();
    assert!(err == SubtableError::Cyclic { root: 0 });
}

#[test]
fn paths_with_arguments_are_distinct() {
    let roots = vec![p("Edge2<T>")];
    let preds = vec![entry("Edge2<T>", &["BaseTrait"])];
    let forest = solve_subtables(&roots, &preds).ok().unwrap();
    assert_eq!(names(&forest[0]), "Edge2(BaseTrait)");
    let other = vec![entry("Edge2<U>", &[])];
    assert!(solve_subtables(&roots, &other).err().unwrap() == SubtableError::Unrelated { predicate: 0 });
}

#[test]
fn subtables_are_named_after_their_trait() {
    let subs = vec![
        Subtable { path: p("A"), by_ref: false, subtables: vec![] },
        Subtable { path: path(&["foo", "A<u8>"]), by_ref: false, subtables: vec![] },
        Subtable { path: p("B"), by_ref: false, subtables: vec![] },
        Subtable { path: p("A"), by_ref: false, subtables: vec![] },
    ];
    let named = name_subtables(subs).ok().unwrap();
    let idents: Vec<String> = named.iter().map(|e| e.ident.clone()).collect();
    assert_eq!(idents, vec!["__vtable_A", "__vtable_A2", "__vtable_B", "__vtable_A3"]);
}

#[test]
fn numbering_goes_past_nine() {
    let subs: Vec<Subtable> = (0..12).map(|_| Subtable { path: p("X"), by_ref: false, subtables: vec![] }).collect();
    let named = name_subtables(subs).ok().unwrap();
    assert_eq!(named[11].ident, "__vtable_X12");
}

#[test]
fn subtable_without_segments_is_refused() {
    let subs = vec![
        Subtable { path: p("A"), by_ref: false, subtables: vec![] },
        Subtable { path: TraitPath::new(true, vec![]), by_ref: false, subtables: vec![] },
    ];
    assert_eq!(name_subtables(subs).err(), Some(1));
}

fn dyn_object(object: Vec<BoundModel>) -> BoundedType {
    BoundedType::TraitObject { dyn_token: true, bounds: object }
}

fn dyn_pred(object: Vec<BoundModel>, higher_ranked: bool, bounds: Vec<BoundModel>) -> PredicateModel<u32> {
    PredicateModel::Type { bounded_ty: dyn_object(object), higher_ranked, bounds, node: 0 }
}

fn ref_pred(object: Vec<BoundModel>, mutable: bool, bounds: Vec<BoundModel>) -> PredicateModel<u32> {
    PredicateModel::Type {
        bounded_ty: BoundedType::Reference { mutable, elem: Box::new(dyn_object(object)) },
        higher_ranked: false,
        bounds,
        node: 0,
    }
}

#[test]
fn dyn_entries_are_taken_out_of_the_where_clause() {
    let preds = vec![
        PredicateModel::Other(7u32),
        dyn_pred(vec![trait_bound("A")], false, vec![trait_bound("B"), trait_bound("C")]),
        PredicateModel::Other(9u32),
    ];
    let (entries, kept) = strip_dyn_entries(preds).ok().unwrap();
    assert_eq!(kept, vec![7, 9]);
    assert_eq!(entries.len(), 1);
    assert!(entries[0].bounded_ty.same_as(&p("A")));
    assert_eq!(entries[0].bounds.len(), 2);
    assert!(entries[0].bounds[1].same_as(&p("C")));
}

fn strip_err(pred: PredicateModel<u32>) -> DynEntryError {
    strip_dyn_entries(vec![PredicateModel::Other(1u32), pred]).err().unwrap()
}

#[test]
fn malformed_dyn_entries_are_refused() {
    // dyn :
    assert!(strip_err(dyn_pred(vec![], false, vec![])) == DynEntryError::MissingTrait { predicate: 1 });
    // dyn 'foo + Foo:
    let e = strip_err(dyn_pred(vec![BoundModel::Other, trait_bound("Foo")], false, vec![]));
    assert!(e == DynEntryError::ExtraTrait { predicate: 1, bound: 1 });
    assert_eq!(e.message(), "dyn bound must have exactly 1 trait");
    // dyn Foo: 'foo
    let e = strip_err(dyn_pred(vec![trait_bound("Foo")], false, vec![BoundModel::Other]));
    assert!(e == DynEntryError::NotATrait { predicate: 1, part: BoundPart::Bounds, bound: 0 });
    // for<'a> dyn Foo:
    let e = strip_err(dyn_pred(vec![trait_bound("Foo")], true, vec![]));
    assert!(e == DynEntryError::HigherRankedPredicate { predicate: 1 });
    // dyn Foo: Bar + for<'a> Baz
    let hr = BoundModel::Trait { path: p("Baz"), modified: false, higher_ranked: true };
    let e = strip_err(dyn_pred(vec![trait_bound("Foo")], false, vec![trait_bound("Bar"), hr]));
    assert!(e == DynEntryError::HigherRankedBound { predicate: 1, part: BoundPart::Bounds, bound: 1 });
    // dyn ?Sized:
    let m = BoundModel::Trait { path: p("Sized"), modified: true, higher_ranked: false };
    let e = strip_err(dyn_pred(vec![m], false, vec![]));
    assert!(e == DynEntryError::BoundModifier { predicate: 1, part: BoundPart::Object, bound: 0 });
    assert_eq!(e.message(), "dyn bound cannot have trait modifier");
}

#[test]
fn stripping_keeps_every_other_predicate() {
    let preds = vec![
        dyn_pred(vec![trait_bound("A")], false, vec![trait_bound("B")]),
        PredicateModel::Other(1u32),
        PredicateModel::Other(2u32),
        dyn_pred(vec![trait_bound("B")], false, vec![]),
        PredicateModel::Other(3u32),
    ];
    let (entries, kept) = strip_dyn_entries(preds).ok().unwrap();
    assert_eq!(kept, vec![1, 2, 3]);
    assert_eq!(entries.len() + kept.len(), 5);
    let plain = vec![PredicateModel::Other(4u32), PredicateModel::Other(5u32)];
    let (entries, kept) = strip_dyn_entries(plain).ok().unwrap();
    assert!(entries.is_empty());
    assert_eq!(kept, vec![4, 5]);
}

#[test]
fn solution_reaches_every_entry() {
    // trait T: Send + A + E where dyn A: B + C, dyn B: D, dyn E:
    let roots = vec![p("Send"), p("A"), p("E")];
    let preds = vec![entry("A", &["B", "C"]), entry("B", &["D"]), entry("E", &[])];
    let forest = solve_subtables(&roots, &preds).ok().unwrap();
    assert_eq!(forest.len(), 2);
    assert!(forest[0].path.same_as(&p("A")));
    assert!(forest[1].path.same_as(&p("E")));
    for e in &preds {
        assert!(forest.iter().any(|t| t.contains(&e.bounded_ty)));
    }
}

#[test]
fn flattening_lists_exactly_the_graph() {
    let roots = vec![p("A")];
    let preds = vec![entry("A", &["B", "C"]), entry("B", &["D"])];
    let forest = solve_subtables(&roots, &preds).ok().unwrap();
    let flat = forest[0].flatten();
    for name in ["A", "B", "C", "D", "E"] {
        let listed = flat.iter().any(|t| t.path.same_as(&p(name)));
        assert_eq!(listed, forest[0].contains(&p(name)));
    }
    assert!(!forest[0].contains(&p("E")));
}

#[test]
fn reference_entries_are_stripped_like_others() {
    let preds = vec![
        ref_pred(vec![trait_bound("A")], false, vec![trait_bound("B")]),
        PredicateModel::Other(1u32),
    ];
    let (entries, kept) = strip_dyn_entries(preds).ok().unwrap();
    assert_eq!(kept, vec![1]);
    assert!(entries[0].by_ref);
    let e = strip_dyn_entries(vec![ref_pred(vec![BoundModel::Other], false, vec![])])
    .err()
    .unwrap();
    assert!(e == DynEntryError::NotATrait { predicate: 0, part: BoundPart::Object, bound: 0 });
    let forest = solve_subtables(&vec![p("A")], &vec![DynPredicate { bounded_ty: p("A"), by_ref: true, bounds: vec![p("B")] }, entry("B", &[])])
        .ok()
        .unwrap();
    assert!(forest[0].by_ref);
    assert!(!forest[0].subtables[0].by_ref);
}

#[test]
fn only_dyn_and_shared_dyn_predicates_are_entries() {
    let parenthesised = PredicateModel::Type {
        bounded_ty: BoundedType::Paren(Box::new(dyn_object(vec![trait_bound("A")]))),
        higher_ranked: false,
        bounds: vec![],
        node: 1u32,
    };
    assert!(matches!(classify_predicate(parenthesised), WherePredicateModel::Other(1)));
    let mutable = ref_pred(vec![trait_bound("A")], true, vec![]);
    assert!(matches!(classify_predicate(mutable), WherePredicateModel::Other(0)));
    let bare = PredicateModel::Type {
        bounded_ty: BoundedType::TraitObject { dyn_token: false, bounds: vec![trait_bound("A"), trait_bound("B")] },
        higher_ranked: false,
        bounds: vec![],
        node: 2u32,
    };
    assert!(matches!(classify_predicate(bare), WherePredicateModel::Other(2)));
    let path = PredicateModel::Type { bounded_ty: BoundedType::Other, higher_ranked: false, bounds: vec![], node: 3u32 };
    assert!(matches!(classify_predicate(path), WherePredicateModel::Other(3)));
    assert!(matches!(
        classify_predicate(ref_pred(vec![trait_bound("A")], false, vec![])),
        WherePredicateModel::Dyn { by_ref: true, .. }
    ));
    assert!(matches!(
        classify_predicate(dyn_pred(vec![trait_bound("A")], true, vec![])),
        WherePredicateModel::Dyn { by_ref: false, higher_ranked: true, .. }
    ));
    // (dyn A):, dyn B:, &mut dyn C: keeps the first and the last
    let preds = vec![
        PredicateModel::Type {
            bounded_ty: BoundedType::Paren(Box::new(dyn_object(vec![trait_bound("A")]))),
            higher_ranked: false,
            bounds: vec![],
            node: 10u32,
        },
        dyn_pred(vec![trait_bound("B")], false, vec![]),
        PredicateModel::Type {
            bounded_ty: BoundedType::Reference { mutable: true, elem: Box::new(dyn_object(vec![trait_bound("C")])) },
            higher_ranked: false,
            bounds: vec![],
            node: 12u32,
        },
    ];
    let (entries, kept) = strip_dyn_entries(preds).ok().unwrap();
    assert_eq!(kept, vec![10, 12]);
    assert_eq!(entries.len(), 1);
    assert!(entries[0].bounded_ty.same_as(&p("B")));
}

#[test]
fn reference_below_the_top_level_is_refused() {
    // trait DoubleInheritingTrait: InheritingTrait
    // where dyn InheritingTrait: BaseTrait, &dyn BaseTrait:,
    let roots = vec![p("InheritingTrait")];
    let preds = vec![
        entry("InheritingTrait", &["BaseTrait"]),
        DynPredicate { bounded_ty: p("BaseTrait"), by_ref: true, bounds: vec![] },
    ];
    let e = solve_subtables(&roots, &preds).err().unwrap();
    assert!(e == SubtableError::NestedReference { predicate: 1 });
    assert_eq!(e.message(), "reference qualifiers can only be used on toplevel subtables");
    // without the reference the same entries are accepted, held by value
    let preds = vec![entry("InheritingTrait", &["BaseTrait"]), entry("BaseTrait", &[])];
    let forest = solve_subtables(&roots, &preds).ok().unwrap();
    assert!(!forest[0].by_ref);
    assert!(!forest[0].subtables[0].by_ref);
}
