use dyntable::memory::{AllocError, MemoryLayout};
use dyntable::types::{fix_vtable_associated_types, visit_type_paths, BoundLeaf, TypeTree};
use dyntable::path::{PathSegment, TraitPath};

#[test]
fn layout_of_types() {
    let l = MemoryLayout::new::<u64>();
    assert_eq!(l.size, 8);
    assert_eq!(l.align, 8);
    assert!(!l.is_zero_sized());
    let z = MemoryLayout::new::<()>();
    assert_eq!(z.size, 0);
    assert!(z.is_zero_sized());
    let a = MemoryLayout::new::<[u16; 3]>();
    assert_eq!((a.size, a.align), (6, 2));
}

#[test]
fn alloc_error_message() {
    assert_eq!(AllocError.message(), "memory allocation failed");
    assert!(AllocError == AllocError);
}

fn path(segs: &[(&str, &str)]) -> TraitPath {
    TraitPath::new(false, segs.iter().map(|(i, a)| PathSegment::new(i.to_string(), a.to_string())).collect())
}

#[test]
fn associated_type_paths_are_renamed() {
    assert_eq!(fix_vtable_associated_types(&path(&[("Self", ""), ("Item", "")])).as_deref(), Some("__DynAssociated_Item"));
    assert_eq!(fix_vtable_associated_types(&path(&[("Self", ""), ("A", ""), ("B", "")])).as_deref(), Some("__DynAssociated_A"));
    assert!(fix_vtable_associated_types(&path(&[("Self", "")])).is_none());
    assert!(fix_vtable_associated_types(&path(&[("Self", ""), ("Item", "< u8 >")])).is_none());
    assert!(fix_vtable_associated_types(&path(&[("Other", ""), ("Item", "")])).is_none());
    assert!(fix_vtable_associated_types(&TraitPath::new(true, path(&[("Self", ""), ("Item", "")]).segments)).is_none());
}

fn leaf(segs: &[(&str, &str)], node: u32) -> TypeTree<u32> {
    TypeTree::Path { path: path(segs), node }
}

#[test]
fn type_paths_are_visited_at_every_depth() {
    // (&'a Self::A, [Self::B; 3], fn(Self::C) -> u8, dyn Iterator + Self::D, macro!())
    let ty = TypeTree::Tuple {
        elems: vec![
            TypeTree::Reference { elem: Box::new(leaf(&[("Self", ""), ("A", "")], 1)), node: 2 },
            TypeTree::Array { elem: Box::new(leaf(&[("Self", ""), ("B", "")], 3)), node: 4 },
            TypeTree::BareFn {
                inputs: vec![leaf(&[("Self", ""), ("C", "")], 5)],
                output: Some(Box::new(leaf(&[("u8", "")], 6))),
                node: 7,
            },
            TypeTree::TraitObject {
                bounds: vec![BoundLeaf::Path { path: path(&[("Iterator", "")]), node: 8 }, BoundLeaf::Path {
                    path: path(&[("Self", ""), ("D", "")]),
                    node: 9,
                }],
                node: 10,
            },
            TypeTree::Opaque(11),
        ],
        node: 12,
    };
    let fixed = visit_type_paths(ty);
    let TypeTree::Tuple { elems, node } = fixed else { panic!("the tuple stays a tuple") };
    assert_eq!(node, 12);
    assert!(matches!(&elems[0], TypeTree::Reference { elem, node: 2 } if matches!(elem.as_ref(), TypeTree::Renamed { ident, node: 1 } if ident == "__DynAssociated_A")));
    assert!(matches!(&elems[1], TypeTree::Array { elem, .. } if matches!(elem.as_ref(), TypeTree::Renamed { ident, .. } if ident == "__DynAssociated_B")));
    match &elems[2] {
        TypeTree::BareFn { inputs, output, .. } => {
            assert!(matches!(&inputs[0], TypeTree::Renamed { ident, node: 5 } if ident == "__DynAssociated_C"));
            assert!(matches!(output.as_deref(), Some(TypeTree::Path { node: 6, .. })));
        },
        _ => panic!("the function type stays a function type"),
    }
    match &elems[3] {
        TypeTree::TraitObject { bounds, .. } => {
            assert!(matches!(&bounds[0], BoundLeaf::Path { node: 8, .. }));
            assert!(matches!(&bounds[1], BoundLeaf::Renamed { ident, node: 9 } if ident == "__DynAssociated_D"));
        },
        _ => panic!("the trait object stays a trait object"),
    }
    assert!(matches!(&elems[4], TypeTree::Opaque(11)));
}

fn renamed_ident(t: &TypeTree<u32>) -> Option<String> {
    match t {
        TypeTree::Renamed { ident, .. } => Some(ident.clone()),
        _ => None,
    }
}

#[test]
fn visiting_twice_changes_nothing() {
    let ty = TypeTree::Tuple {
        elems: vec![leaf(&[("Self", ""), ("Item", "")], 1), leaf(&[("Vec", "<u8>")], 2)],
        node: 3,
    };
    let once = visit_type_paths(ty);
    let twice = visit_type_paths(match &once {
        TypeTree::Tuple { elems, node } => TypeTree::Tuple {
            elems: elems
                .iter()
                .map(|e| match e {
                    TypeTree::Renamed { ident, node } => TypeTree::Renamed { ident: ident.clone(), node: *node },
                    TypeTree::Path { path, node } => TypeTree::Path { path: path.duplicate(), node: *node },
                    _ => panic!("only paths here"),
                })
                .collect(),
            node: *node,
        },
        _ => panic!("the tuple stays a tuple"),
    });
    let (TypeTree::Tuple { elems: a, .. }, TypeTree::Tuple { elems: b, .. }) = (&once, &twice) else {
        panic!("the tuple stays a tuple")
    };
    assert_eq!(renamed_ident(&a[0]).as_deref(), Some("__DynAssociated_Item"));
    assert_eq!(renamed_ident(&b[0]), renamed_ident(&a[0]));
    assert!(matches!(&b[1], TypeTree::Path { node: 2, .. }));
    assert!(matches!(&a[1], TypeTree::Path { node: 2, .. }));
}
