//! The types of a vtable method's parameters and result, and the rewriting
//! of the associated types they name.
//!
//! A vtable cannot name `Self::Item`; generated vtables take the associated
//! type as a generic parameter `__DynAssociated_Item` instead.

use vstd::prelude::*;
use crate::path::{TraitPath, PathView};

verus! {

/// The name that replaces the path `p` in a vtable, if `p` names an
/// associated type: a path without leading `::` whose first segment is a
/// plain `Self` and whose second segment has no arguments, such as
/// `Self::Item`, is replaced by `__DynAssociated_Item`.
pub open spec fn associated_type_rename(p: PathView) -> Option<Seq<char>> {
    if p.leading_colon || p.segments.len() < 2 {
        None
    } else if p.segments[0].ident != "Self"@ || p.segments[0].arguments.len() != 0 {
        None
    } else if p.segments[1].arguments.len() != 0 {
        None
    } else {
        Some("__DynAssociated_"@ + p.segments[1].ident)
    }
}

/// The identifier that replaces `path` in a vtable, if it names an
/// associated type of the trait.
pub fn fix_vtable_associated_types(path: &TraitPath) -> (r: Option<String>)
    ensures
        match r {
            Some(s) => associated_type_rename(path@) == Some(s@),
            None => associated_type_rename(path@) is None,
        },
{
    if path.leading_colon || path.segments.len() < 2 {
        return None;
    }
    let first = &path.segments[0];
    assert(path@.segments[0] == first@);
    if !(first.ident == String::from_str("Self")) || !first.arguments.as_str().is_empty() {
        return None;
    }
    let second = &path.segments[1];
    assert(path@.segments[1] == second@);
    if !second.arguments.as_str().is_empty() {
        return None;
    }
    let mut name = String::from_str("__DynAssociated_");
    name.append(second.ident.as_str());
    Some(name)
}

/// A bound inside an `impl Trait` or `dyn Trait` type.
pub enum BoundLeaf<O> {
    /// A trait bound, with the rest of the bound as payload.
    Path { path: TraitPath, node: O },
    /// A trait bound whose path was replaced by an identifier.
    Renamed { ident: String, node: O },
    /// A lifetime or other bound.
    Opaque(O),
}

/// A type, as far as its paths are concerned. Each node carries the payload
/// `O` for what the library does not read.
pub enum TypeTree<O> {
    Array { elem: Box<TypeTree<O>>, node: O },
    BareFn { inputs: Vec<TypeTree<O>>, output: Option<Box<TypeTree<O>>>, node: O },
    Group { elem: Box<TypeTree<O>>, node: O },
    ImplTrait { bounds: Vec<BoundLeaf<O>>, node: O },
    Paren { elem: Box<TypeTree<O>>, node: O },
    Path { path: TraitPath, node: O },
    /// A path type replaced by an identifier.
    Renamed { ident: String, node: O },
    Ptr { elem: Box<TypeTree<O>>, node: O },
    Reference { elem: Box<TypeTree<O>>, node: O },
    Slice { elem: Box<TypeTree<O>>, node: O },
    TraitObject { bounds: Vec<BoundLeaf<O>>, node: O },
    Tuple { elems: Vec<TypeTree<O>>, node: O },
    /// A macro or any other type whose paths are not visited.
    Opaque(O),
}

/// The value of a bound.
pub enum BoundLeafView<O> {
    Path { path: PathView, node: O },
    Renamed { ident: Seq<char>, node: O },
    Opaque(O),
}

/// The value of a type.
pub enum TypeTreeView<O> {
    Array { elem: Box<TypeTreeView<O>>, node: O },
    BareFn { inputs: Seq<TypeTreeView<O>>, output: Option<Box<TypeTreeView<O>>>, node: O },
    Group { elem: Box<TypeTreeView<O>>, node: O },
    ImplTrait { bounds: Seq<BoundLeafView<O>>, node: O },
    Paren { elem: Box<TypeTreeView<O>>, node: O },
    Path { path: PathView, node: O },
    Renamed { ident: Seq<char>, node: O },
    Ptr { elem: Box<TypeTreeView<O>>, node: O },
    Reference { elem: Box<TypeTreeView<O>>, node: O },
    Slice { elem: Box<TypeTreeView<O>>, node: O },
    TraitObject { bounds: Seq<BoundLeafView<O>>, node: O },
    Tuple { elems: Seq<TypeTreeView<O>>, node: O },
    Opaque(O),
}

impl<O> View for BoundLeaf<O> {
    type V = BoundLeafView<O>;

    open spec fn view(&self) -> BoundLeafView<O> {
        match self {
            BoundLeaf::Path { path, node } => BoundLeafView::Path { path: path@, node: *node },
            BoundLeaf::Renamed { ident, node } => BoundLeafView::Renamed { ident: ident@, node: *node },
            BoundLeaf::Opaque(node) => BoundLeafView::Opaque(*node),
        }
    }
}

/// The views of a sequence of bounds.
pub open spec fn bounds_view<O>(bs: Seq<BoundLeaf<O>>) -> Seq<BoundLeafView<O>> {
    bs.map_values(|b: BoundLeaf<O>| b@)
}

impl<O> View for TypeTree<O> {
    type V = TypeTreeView<O>;

    open spec fn view(&self) -> TypeTreeView<O> {
        type_view(*self)
    }
}

/// The value of the type `t`.
pub open spec fn type_view<O>(t: TypeTree<O>) -> TypeTreeView<O>
    decreases t,
{
    match t {
        TypeTree::Array { elem, node } => TypeTreeView::Array { elem: Box::new(type_view(*elem)), node },
        TypeTree::BareFn { inputs, output, node } => TypeTreeView::BareFn {
            inputs: Seq::new(
                inputs@.len(),
                |i: int|
                    if 0 <= i < inputs@.len() {
                        type_view(inputs@[i])
                    } else {
                        TypeTreeView::Opaque(node)
                    },
            ),
            output: match output {
                Some(o) => Some(Box::new(type_view(*o))),
                None => None,
            },
            node,
        },
        TypeTree::Group { elem, node } => TypeTreeView::Group { elem: Box::new(type_view(*elem)), node },
        TypeTree::ImplTrait { bounds, node } => TypeTreeView::ImplTrait {
            bounds: bounds_view(bounds@),
            node,
        },
        TypeTree::Paren { elem, node } => TypeTreeView::Paren { elem: Box::new(type_view(*elem)), node },
        TypeTree::Path { path, node } => TypeTreeView::Path { path: path@, node },
        TypeTree::Renamed { ident, node } => TypeTreeView::Renamed { ident: ident@, node },
        TypeTree::Ptr { elem, node } => TypeTreeView::Ptr { elem: Box::new(type_view(*elem)), node },
        TypeTree::Reference { elem, node } => TypeTreeView::Reference {
            elem: Box::new(type_view(*elem)),
            node,
        },
        TypeTree::Slice { elem, node } => TypeTreeView::Slice { elem: Box::new(type_view(*elem)), node },
        TypeTree::TraitObject { bounds, node } => TypeTreeView::TraitObject {
            bounds: bounds_view(bounds@),
            node,
        },
        TypeTree::Tuple { elems, node } => TypeTreeView::Tuple {
            elems: Seq::new(
                elems@.len(),
                |i: int|
                    if 0 <= i < elems@.len() {
                        type_view(elems@[i])
                    } else {
                        TypeTreeView::Opaque(node)
                    },
            ),
            node,
        },
        TypeTree::Opaque(node) => TypeTreeView::Opaque(node),
    }
}

/// A bound with its path renamed if it names an associated type.
pub open spec fn fix_bound<O>(b: BoundLeafView<O>) -> BoundLeafView<O> {
    match b {
        BoundLeafView::Path { path, node } => match associated_type_rename(path) {
            Some(ident) => BoundLeafView::Renamed { ident, node },
            None => BoundLeafView::Path { path, node },
        },
        other => other,
    }
}

/// A type with every path it names, at any depth, renamed if it names an
/// associated type. The paths of macros and other opaque types are kept.
pub open spec fn fix_type<O>(t: TypeTreeView<O>) -> TypeTreeView<O>
    decreases t,
{
    match t {
        TypeTreeView::Array { elem, node } => TypeTreeView::Array { elem: Box::new(fix_type(*elem)), node },
        TypeTreeView::BareFn { inputs, output, node } => TypeTreeView::BareFn {
            inputs: Seq::new(
                inputs.len(),
                |i: int|
                    if 0 <= i < inputs.len() {
                        fix_type(inputs[i])
                    } else {
                        TypeTreeView::Opaque(node)
                    },
            ),
            output: match output {
                Some(o) => Some(Box::new(fix_type(*o))),
                None => None,
            },
            node,
        },
        TypeTreeView::Group { elem, node } => TypeTreeView::Group { elem: Box::new(fix_type(*elem)), node },
        TypeTreeView::ImplTrait { bounds, node } => TypeTreeView::ImplTrait {
            bounds: bounds.map_values(|b: BoundLeafView<O>| fix_bound(b)),
            node,
        },
        TypeTreeView::Paren { elem, node } => TypeTreeView::Paren { elem: Box::new(fix_type(*elem)), node },
        TypeTreeView::Path { path, node } => match associated_type_rename(path) {
            Some(ident) => TypeTreeView::Renamed { ident, node },
            None => TypeTreeView::Path { path, node },
        },
        TypeTreeView::Ptr { elem, node } => TypeTreeView::Ptr { elem: Box::new(fix_type(*elem)), node },
        TypeTreeView::Reference { elem, node } => TypeTreeView::Reference {
            elem: Box::new(fix_type(*elem)),
            node,
        },
        TypeTreeView::Slice { elem, node } => TypeTreeView::Slice { elem: Box::new(fix_type(*elem)), node },
        TypeTreeView::TraitObject { bounds, node } => TypeTreeView::TraitObject {
            bounds: bounds.map_values(|b: BoundLeafView<O>| fix_bound(b)),
            node,
        },
        TypeTreeView::Tuple { elems, node } => TypeTreeView::Tuple {
            elems: Seq::new(
                elems.len(),
                |i: int|
                    if 0 <= i < elems.len() {
                        fix_type(elems[i])
                    } else {
                        TypeTreeView::Opaque(node)
                    },
            ),
            node,
        },
        other => other,
    }
}

proof fn lemma_list_views<O>(t: TypeTree<O>)
    ensures
        t is Tuple ==> t@->Tuple_elems == types_view(t->Tuple_elems@),
        t is BareFn ==> t@->BareFn_inputs == types_view(t->BareFn_inputs@),
{
    match t {
        TypeTree::Tuple { elems, node } => {
            assert(t@->Tuple_elems =~= types_view(elems@));
        },
        TypeTree::BareFn { inputs, output, node } => {
            assert(t@->BareFn_inputs =~= types_view(inputs@));
        },
        _ => {},
    }
}

/// The types `ts` with their paths renamed.
pub open spec fn fix_types<O>(ts: Seq<TypeTreeView<O>>) -> Seq<TypeTreeView<O>> {
    ts.map_values(|t: TypeTreeView<O>| fix_type(t))
}

/// The views of a sequence of types.
pub open spec fn types_view<O>(ts: Seq<TypeTree<O>>) -> Seq<TypeTreeView<O>> {
    ts.map_values(|t: TypeTree<O>| t@)
}

fn fix_bound_leaf<O>(b: BoundLeaf<O>) -> (r: BoundLeaf<O>)
    ensures
        r@ == fix_bound(b@),
{
    match b {
        BoundLeaf::Path { path, node } => match fix_vtable_associated_types(&path) {
            Some(ident) => BoundLeaf::Renamed { ident, node },
            None => BoundLeaf::Path { path, node },
        },
        other => other,
    }
}

fn fix_bound_leaves<O>(bs: Vec<BoundLeaf<O>>) -> (r: Vec<BoundLeaf<O>>)
    ensures
        bounds_view(r@) == bounds_view(bs@).map_values(|b: BoundLeafView<O>| fix_bound(b)),
{
    let ghost all = bs@;
    let total = bs.len();
    let mut rest = bs;
    let mut out: Vec<BoundLeaf<O>> = Vec::new();
    let mut i: usize = 0;
    while rest.len() > 0
        invariant
            all == bs@,
            all.len() == total,
            i + rest.len() == total,
            rest@ == all.skip(i as int),
            out.len() == i,
            forall|k: int| 0 <= k < i ==> #[trigger] out@[k]@ == fix_bound(all[k]@),
        decreases rest.len(),
    {
        let b = rest.remove(0);
        assert(b == all[i as int]);
        assert(rest@ =~= all.skip(i as int + 1));
        out.push(fix_bound_leaf(b));
        i = i + 1;
    }
    assert(bounds_view(out@) =~= bounds_view(all).map_values(|b: BoundLeafView<O>| fix_bound(b)));
    out
}

/// Visits every path of a type and renames those that name an associated
/// type of the trait, as a vtable needs them.
pub fn visit_type_paths<O>(ty: TypeTree<O>) -> (r: TypeTree<O>)
    ensures
        r@ == fix_type(ty@),
    decreases ty, 0nat,
{
    match ty {
        TypeTree::Array { elem, node } => TypeTree::Array { elem: Box::new(visit_type_paths(*elem)), node },
        TypeTree::BareFn { inputs, output, node } => {
            let ghost iv = types_view(inputs@);
            let inputs2 = visit_all(inputs);
            let output2 = match output {
                Some(o) => Some(Box::new(visit_type_paths(*o))),
                None => None,
            };
            let ghost iv2 = inputs2@;
            let r = TypeTree::BareFn { inputs: inputs2, output: output2, node };
            proof {
                lemma_list_views(ty);
                lemma_list_views(r);
            }
            assert forall|k: int|
                0 <= k < iv.len() implies r@->BareFn_inputs[k] == fix_type(ty@)->BareFn_inputs[k] by {
                assert(r@->BareFn_inputs[k] == iv2[k]@);
                assert(iv2[k]@ == fix_type(iv[k]));
                assert(ty@->BareFn_inputs[k] == iv[k]);
                assert(fix_type(ty@)->BareFn_inputs[k] == fix_type(ty@->BareFn_inputs[k]));
            }
            assert(r@->BareFn_inputs =~= fix_type(ty@)->BareFn_inputs);
            r
        },
        TypeTree::Group { elem, node } => TypeTree::Group { elem: Box::new(visit_type_paths(*elem)), node },
        TypeTree::ImplTrait { bounds, node } => TypeTree::ImplTrait { bounds: fix_bound_leaves(bounds), node },
        TypeTree::Paren { elem, node } => TypeTree::Paren { elem: Box::new(visit_type_paths(*elem)), node },
        TypeTree::Path { path, node } => match fix_vtable_associated_types(&path) {
            Some(ident) => TypeTree::Renamed { ident, node },
            None => TypeTree::Path { path, node },
        },
        TypeTree::Renamed { ident, node } => TypeTree::Renamed { ident, node },
        TypeTree::Ptr { elem, node } => TypeTree::Ptr { elem: Box::new(visit_type_paths(*elem)), node },
        TypeTree::Reference { elem, node } => TypeTree::Reference {
            elem: Box::new(visit_type_paths(*elem)),
            node,
        },
        TypeTree::Slice { elem, node } => TypeTree::Slice { elem: Box::new(visit_type_paths(*elem)), node },
        TypeTree::TraitObject { bounds, node } => TypeTree::TraitObject {
            bounds: fix_bound_leaves(bounds),
            node,
        },
        TypeTree::Tuple { elems, node } => {
            let ghost ev = types_view(elems@);
            let elems2 = visit_all(elems);
            let ghost ev2 = elems2@;
            let r = TypeTree::Tuple { elems: elems2, node };
            proof {
                lemma_list_views(ty);
                lemma_list_views(r);
            }
            assert(ty@->Tuple_elems.len() == ev.len());
            assert(r@->Tuple_elems.len() == ev2.len());
            assert forall|k: int| 0 <= k < ev.len() implies r@->Tuple_elems[k] == fix_type(ty@)->Tuple_elems[k] by {
                assert(r@->Tuple_elems[k] == ev2[k]@);
                assert(ev2[k]@ == fix_type(ev[k]));
                assert(ty@->Tuple_elems[k] == ev[k]);
                assert(fix_type(ty@)->Tuple_elems[k] == fix_type(ty@->Tuple_elems[k]));
            }
            assert(r@->Tuple_elems =~= fix_type(ty@)->Tuple_elems);
            r
        },
        TypeTree::Opaque(node) => TypeTree::Opaque(node),
    }
}

/// Visits the paths of each of `ts`.
fn visit_all<O>(ts: Vec<TypeTree<O>>) -> (r: Vec<TypeTree<O>>)
    ensures
        r@.len() == ts@.len(),
        forall|k: int| 0 <= k < r@.len() ==> #[trigger] r@[k]@ == fix_type(ts@[k]@),
    decreases ts, 1nat,
{
    let ghost all = ts@;
    let total = ts.len();
    let mut rest = ts;
    let mut out: Vec<TypeTree<O>> = Vec::new();
    let mut i: usize = 0;
    while rest.len() > 0
        invariant
            all == ts@,
            all.len() == total,
            i + rest.len() == total,
            rest@ == all.skip(i as int),
            out.len() == i,
            forall|k: int| 0 <= k < i ==> #[trigger] out@[k]@ == fix_type(all[k]@),
        decreases rest.len(),
    {
        let t = rest.remove(0);
        assert(t == all[i as int]);
        assert(rest@ =~= all.skip(i as int + 1));
        assert(decreases_to!(ts => t));
        out.push(visit_type_paths(t));
        i = i + 1;
    }
    out
}

proof fn lemma_fix_bound_idempotent<O>(b: BoundLeafView<O>)
    ensures
        fix_bound(fix_bound(b)) == fix_bound(b),
{
}

/// Renaming the associated types of a type a second time changes nothing:
/// no path that is left names an associated type.
pub proof fn lemma_fix_type_idempotent<O>(t: TypeTreeView<O>)
    ensures
        fix_type(fix_type(t)) == fix_type(t),
    decreases t,
{
    match t {
        TypeTreeView::Array { elem, .. } => lemma_fix_type_idempotent(*elem),
        TypeTreeView::BareFn { inputs, output, node } => {
            let ft = fix_type(t);
            assert(ft->BareFn_inputs.len() == inputs.len());
            assert forall|i: int| 0 <= i < inputs.len() implies #[trigger] fix_type(ft)->BareFn_inputs[i]
                == ft->BareFn_inputs[i] by {
                lemma_fix_type_idempotent(inputs[i]);
                assert(ft->BareFn_inputs[i] == fix_type(inputs[i]));
                assert(fix_type(ft)->BareFn_inputs[i] == fix_type(ft->BareFn_inputs[i]));
            }
            match output {
                Some(o) => lemma_fix_type_idempotent(*o),
                None => {},
            }
            assert(fix_type(fix_type(t))->BareFn_inputs =~= fix_type(t)->BareFn_inputs);
        },
        TypeTreeView::Group { elem, .. } => lemma_fix_type_idempotent(*elem),
        TypeTreeView::ImplTrait { bounds, .. } => {
            assert forall|i: int| 0 <= i < bounds.len() implies fix_bound(#[trigger] fix_bound(
                bounds[i],
            )) == fix_bound(bounds[i]) by {
                lemma_fix_bound_idempotent(bounds[i]);
            }
            assert(fix_type(fix_type(t))->ImplTrait_bounds =~= fix_type(t)->ImplTrait_bounds);
        },
        TypeTreeView::Paren { elem, .. } => lemma_fix_type_idempotent(*elem),
        TypeTreeView::Ptr { elem, .. } => lemma_fix_type_idempotent(*elem),
        TypeTreeView::Reference { elem, .. } => lemma_fix_type_idempotent(*elem),
        TypeTreeView::Slice { elem, .. } => lemma_fix_type_idempotent(*elem),
        TypeTreeView::TraitObject { bounds, .. } => {
            assert forall|i: int| 0 <= i < bounds.len() implies fix_bound(#[trigger] fix_bound(
                bounds[i],
            )) == fix_bound(bounds[i]) by {
                lemma_fix_bound_idempotent(bounds[i]);
            }
            assert(fix_type(fix_type(t))->TraitObject_bounds =~= fix_type(t)->TraitObject_bounds);
        },
        TypeTreeView::Tuple { elems, node } => {
            let ft = fix_type(t);
            assert(ft->Tuple_elems.len() == elems.len());
            assert forall|i: int| 0 <= i < elems.len() implies #[trigger] fix_type(ft)->Tuple_elems[i]
                == ft->Tuple_elems[i] by {
                lemma_fix_type_idempotent(elems[i]);
                assert(ft->Tuple_elems[i] == fix_type(elems[i]));
                assert(fix_type(ft)->Tuple_elems[i] == fix_type(ft->Tuple_elems[i]));
            }
            assert(fix_type(fix_type(t))->Tuple_elems =~= fix_type(t)->Tuple_elems);
        },
        _ => {},
    }
}

/// Whether a bound names no associated type.
pub open spec fn bound_clean<O>(b: BoundLeafView<O>) -> bool {
    match b {
        BoundLeafView::Path { path, .. } => associated_type_rename(path) is None,
        _ => true,
    }
}

/// Whether no path in `t` names an associated type, at any depth: inside
/// arrays, function types, groups, `impl` and `dyn` bounds, parentheses,
/// pointers, references, slices and tuples. Opaque types are not looked into.
pub open spec fn no_associated_paths<O>(t: TypeTreeView<O>) -> bool
    decreases t,
{
    match t {
        TypeTreeView::Array { elem, .. } => no_associated_paths(*elem),
        TypeTreeView::BareFn { inputs, output, .. } => {
            &&& forall|i: int| 0 <= i < inputs.len() ==> no_associated_paths(#[trigger] inputs[i])
            &&& match output {
                Some(o) => no_associated_paths(*o),
                None => true,
            }
        },
        TypeTreeView::Group { elem, .. } => no_associated_paths(*elem),
        TypeTreeView::ImplTrait { bounds, .. } => forall|i: int| 0 <= i < bounds.len() ==> bound_clean(#[trigger] bounds[i]),
        TypeTreeView::Paren { elem, .. } => no_associated_paths(*elem),
        TypeTreeView::Path { path, .. } => associated_type_rename(path) is None,
        TypeTreeView::Ptr { elem, .. } => no_associated_paths(*elem),
        TypeTreeView::Reference { elem, .. } => no_associated_paths(*elem),
        TypeTreeView::Slice { elem, .. } => no_associated_paths(*elem),
        TypeTreeView::TraitObject { bounds, .. } => forall|i: int| 0 <= i < bounds.len() ==> bound_clean(#[trigger] bounds[i]),
        TypeTreeView::Tuple { elems, .. } => forall|i: int| 0 <= i < elems.len() ==> no_associated_paths(#[trigger] elems[i]),
        _ => true,
    }
}

/// After renaming, a type names no associated type anywhere outside its
/// opaque parts: every `Self::Item` has become an identifier.
pub proof fn lemma_fix_type_leaves_no_associated_paths<O>(t: TypeTreeView<O>)
    ensures
        no_associated_paths(fix_type(t)),
    decreases t,
{
    match t {
        TypeTreeView::Array { elem, .. } => lemma_fix_type_leaves_no_associated_paths(*elem),
        TypeTreeView::BareFn { inputs, output, .. } => {
            let ft = fix_type(t);
            assert forall|i: int| 0 <= i < ft->BareFn_inputs.len() implies no_associated_paths(
                #[trigger] ft->BareFn_inputs[i],
            ) by {
                lemma_fix_type_leaves_no_associated_paths(inputs[i]);
            }
            match output {
                Some(o) => lemma_fix_type_leaves_no_associated_paths(*o),
                None => {},
            }
        },
        TypeTreeView::Group { elem, .. } => lemma_fix_type_leaves_no_associated_paths(*elem),
        TypeTreeView::Paren { elem, .. } => lemma_fix_type_leaves_no_associated_paths(*elem),
        TypeTreeView::Ptr { elem, .. } => lemma_fix_type_leaves_no_associated_paths(*elem),
        TypeTreeView::Reference { elem, .. } => lemma_fix_type_leaves_no_associated_paths(*elem),
        TypeTreeView::Slice { elem, .. } => lemma_fix_type_leaves_no_associated_paths(*elem),
        TypeTreeView::Tuple { elems, .. } => {
            let ft = fix_type(t);
            assert forall|i: int| 0 <= i < ft->Tuple_elems.len() implies no_associated_paths(
                #[trigger] ft->Tuple_elems[i],
            ) by {
                lemma_fix_type_leaves_no_associated_paths(elems[i]);
            }
        },
        _ => {},
    }
}

/// A path that names an associated type, `Self::Name`, becomes the
/// identifier `__DynAssociated_Name`, keeping its payload.
pub proof fn lemma_fix_type_renames_associated_path<O>(path: PathView, node: O)
    requires
        associated_type_rename(path) is Some,
    ensures
        path.segments.len() >= 2,
        path.segments[0].ident == "Self"@,
        fix_type(TypeTreeView::Path { path, node }) == (TypeTreeView::<O>::Renamed {
            ident: "__DynAssociated_"@ + path.segments[1].ident,
            node,
        }),
{
}

/// A type that names no associated type is left exactly as it is.
pub proof fn lemma_fix_type_changes_only_associated_paths<O>(t: TypeTreeView<O>)
    ensures
        no_associated_paths(t) ==> fix_type(t) == t,
    decreases t,
{
    if no_associated_paths(t) {
        match t {
            TypeTreeView::Array { elem, .. } => lemma_fix_type_changes_only_associated_paths(*elem),
            TypeTreeView::BareFn { inputs, output, .. } => {
                assert forall|i: int| 0 <= i < inputs.len() implies fix_type(#[trigger] inputs[i]) == inputs[i] by {
                    lemma_fix_type_changes_only_associated_paths(inputs[i]);
                }
                match output {
                    Some(o) => lemma_fix_type_changes_only_associated_paths(*o),
                    None => {},
                }
                assert(fix_type(t)->BareFn_inputs =~= inputs);
            },
            TypeTreeView::Group { elem, .. } => lemma_fix_type_changes_only_associated_paths(*elem),
            TypeTreeView::ImplTrait { bounds, .. } => {
                assert(bounds.map_values(|b: BoundLeafView<O>| fix_bound(b)) =~= bounds);
            },
            TypeTreeView::Paren { elem, .. } => lemma_fix_type_changes_only_associated_paths(*elem),
            TypeTreeView::Ptr { elem, .. } => lemma_fix_type_changes_only_associated_paths(*elem),
            TypeTreeView::Reference { elem, .. } => lemma_fix_type_changes_only_associated_paths(*elem),
            TypeTreeView::Slice { elem, .. } => lemma_fix_type_changes_only_associated_paths(*elem),
            TypeTreeView::TraitObject { bounds, .. } => {
                assert(bounds.map_values(|b: BoundLeafView<O>| fix_bound(b)) =~= bounds);
            },
            TypeTreeView::Tuple { elems, .. } => {
                assert forall|i: int| 0 <= i < elems.len() implies fix_type(#[trigger] elems[i]) == elems[i] by {
                    lemma_fix_type_changes_only_associated_paths(elems[i]);
                }
                assert(fix_type(t)->Tuple_elems =~= elems);
            },
            _ => {},
        }
    }
}

} // verus!
