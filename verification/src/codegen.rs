//! The decisions behind the code generated for a `#[dyntable]` trait: the
//! layout of its vtable, the bounds its vtable carries, the names of the
//! generated items, and the rewriting of associated types.

use vstd::prelude::*;
use crate::path::{TraitPath, PathView, paths_view};
use crate::bounds::BoundModel;
use crate::subtable::{
    SubtableView, subtable_refs_view, flatten_tree, tree_contains, lists_path,
    lemma_flatten_lists_graph,
};
use crate::dyntrait::{DynTraitInfo, VTableEntry, VTableEntryView, entries_view};

verus! {

/// A field of a generated vtable struct.
#[derive(PartialEq, Eq, Structural)]
pub enum VTableField {
    /// The drop function of the implementing type.
    Drop,
    /// The memory layout of the implementing type.
    Layout,
    /// The entry with this index: a subtable or a method. `by_ref` marks a
    /// subtable held by pointer rather than by value.
    Entry { index: usize, by_ref: bool },
    /// The marker that uses the trait's generic parameters.
    Generics,
}

/// The fields of a vtable, in order: the drop function if the vtable has
/// one, the layout if it is embedded, every entry in order (entry `i` held
/// by pointer when `by_ref[i]`), and the marker for the generic parameters.
pub open spec fn vtable_layout(has_drop: bool, embed_layout: bool, by_ref: Seq<bool>) -> Seq<VTableField> {
    (if has_drop { seq![VTableField::Drop] } else { Seq::empty() }) + (if embed_layout {
        seq![VTableField::Layout]
    } else {
        Seq::empty()
    }) + Seq::new(by_ref.len(), |i: int| VTableField::Entry { index: i as usize, by_ref: by_ref[i] })
        + seq![VTableField::Generics]
}

/// Whether an entry is a subtable held by pointer: one whose `dyn` entry was
/// written `&dyn`.
pub open spec fn entry_held_by_ref<T>(e: VTableEntryView<T>) -> bool {
    e matches VTableEntryView::Subtable(s) && s.subtable.by_ref
}

/// For each entry, whether it is a subtable held by pointer.
pub open spec fn entries_by_ref<T>(entries: Seq<VTableEntryView<T>>) -> Seq<bool> {
    entries.map_values(|e: VTableEntryView<T>| entry_held_by_ref(e))
}

fn held_by_ref<T>(e: &VTableEntry<T>) -> (r: bool)
    ensures
        r == entry_held_by_ref(e@),
{
    match e {
        VTableEntry::Subtable(s) => s.subtable.by_ref,
        VTableEntry::Method(_) => false,
    }
}

/// The fields of the vtable of a trait, in the order they are laid out; a
/// subtable whose `dyn` entry was written `&dyn` is a pointer field.
pub fn vtable_fields<P, A, T>(info: &DynTraitInfo<P, A, T>) -> (r: Vec<VTableField>)
    ensures
        r@ == vtable_layout(info.drop is Some, info.embed_layout, entries_by_ref(entries_view(info.entries@))),
{
    let ghost refs = entries_by_ref(entries_view(info.entries@));
    let mut fields: Vec<VTableField> = Vec::new();
    if info.drop.is_some() {
        fields.push(VTableField::Drop);
    }
    if info.embed_layout {
        fields.push(VTableField::Layout);
    }
    let ghost head = fields@;
    let mut i: usize = 0;
    while i < info.entries.len()
        invariant
            i <= info.entries.len(),
            head == (if info.drop is Some { seq![VTableField::Drop] } else { Seq::empty() }) + (
            if info.embed_layout {
                seq![VTableField::Layout]
            } else {
                Seq::empty()
            }),
            refs == entries_by_ref(entries_view(info.entries@)),
            refs.len() == info.entries.len(),
            fields@ == head + Seq::new(i as nat, |k: int| VTableField::Entry { index: k as usize, by_ref: refs[k] }),
        decreases info.entries.len() - i,
    {
        let by_ref = held_by_ref(&info.entries[i]);
        assert(by_ref == refs[i as int]);
        fields.push(VTableField::Entry { index: i, by_ref });
        assert(Seq::new((i + 1) as nat, |k: int| VTableField::Entry { index: k as usize, by_ref: refs[k] })
            =~= Seq::new(i as nat, |k: int| VTableField::Entry { index: k as usize, by_ref: refs[k] }).push(
            VTableField::Entry { index: i, by_ref },
        ));
        i = i + 1;
    }
    fields.push(VTableField::Generics);
    assert(fields@ =~= vtable_layout(info.drop is Some, info.embed_layout, refs));
    fields
}

/// A field that comes before another in a vtable keeps its place in every
/// later version of the trait that only appends entries: the position of
/// each field depends only on the fields before it.
pub proof fn lemma_vtable_layout_prefix(has_drop: bool, embed_layout: bool, refs: Seq<bool>, later: Seq<bool>)
    requires
        refs.len() <= later.len(),
        refs == later.take(refs.len() as int),
    ensures
        vtable_layout(has_drop, embed_layout, refs).drop_last() =~= vtable_layout(
            has_drop,
            embed_layout,
            later,
        ).take(vtable_layout(has_drop, embed_layout, refs).len() - 1),
{
    let a = vtable_layout(has_drop, embed_layout, refs);
    let b = vtable_layout(has_drop, embed_layout, later);
    assert forall|k: int| 0 <= k < a.len() - 1 implies a.drop_last()[k] == b.take(a.len() - 1)[k] by {
        let h = (if has_drop { 1int } else { 0int }) + (if embed_layout { 1int } else { 0int });
        if k >= h {
            assert(refs[k - h] == later[k - h]);
        }
    }
}

/// The indices of the trait bounds among the first `n` of `sts`.
pub open spec fn trait_bound_indices(sts: Seq<BoundModel>, n: nat) -> Seq<usize>
    decreases n,
{
    if n == 0 {
        Seq::empty()
    } else if sts[n - 1] is Trait {
        trait_bound_indices(sts, (n - 1) as nat).push((n - 1) as usize)
    } else {
        trait_bound_indices(sts, (n - 1) as nat)
    }
}

/// The bounds that a type associated with a vtable may be assumed to have.
pub enum VTableBounds {
    /// The trait has no trait bound.
    NoBounds,
    /// The trait has one trait bound: the supertrait at this index.
    Single(usize),
    /// The trait has several trait bounds, gathered in a helper trait: the
    /// supertraits at these indices.
    Combined(Vec<usize>),
}

/// Which supertraits the vtable's `Bounds` is made of.
pub fn vtable_bounds(supertraits: &Vec<BoundModel>) -> (r: VTableBounds)
    ensures
        ({
            let idx = trait_bound_indices(supertraits@, supertraits@.len());
            match r {
                VTableBounds::NoBounds => idx.len() == 0,
                VTableBounds::Single(i) => idx.len() == 1 && idx[0] == i,
                VTableBounds::Combined(v) => idx.len() > 1 && v@ == idx,
            }
        }),
{
    let mut idx: Vec<usize> = Vec::new();
    let mut i: usize = 0;
    while i < supertraits.len()
        invariant
            i <= supertraits.len(),
            idx@ == trait_bound_indices(supertraits@, i as nat),
        decreases supertraits.len() - i,
    {
        if let BoundModel::Trait { .. } = &supertraits[i] {
            idx.push(i);
        }
        i = i + 1;
    }
    if idx.len() == 0 {
        VTableBounds::NoBounds
    } else if idx.len() == 1 {
        VTableBounds::Single(idx[0])
    } else {
        VTableBounds::Combined(idx)
    }
}

/// Whether `p` is the path of one of the first `n` subtable entries.
pub open spec fn is_subtable_path<T>(entries: Seq<VTableEntryView<T>>, p: PathView, n: nat) -> bool
    decreases n,
{
    if n == 0 {
        false
    } else {
        is_subtable_path(entries, p, (n - 1) as nat) || (entries[n - 1] matches VTableEntryView::Subtable(
            s,
        ) && s.subtable.path == p)
    }
}

/// The indices of the first `n` supertraits that are trait bounds without a
/// subtable: a container must itself implement those traits.
pub open spec fn as_dyn_indices<T>(
    sts: Seq<BoundModel>,
    entries: Seq<VTableEntryView<T>>,
    n: nat,
) -> Seq<usize>
    decreases n,
{
    if n == 0 {
        Seq::empty()
    } else {
        match sts[n - 1] {
            BoundModel::Trait { path, .. } => if is_subtable_path(entries, path@, entries.len()) {
                as_dyn_indices(sts, entries, (n - 1) as nat)
            } else {
                as_dyn_indices(sts, entries, (n - 1) as nat).push((n - 1) as usize)
            },
            BoundModel::Other => as_dyn_indices(sts, entries, (n - 1) as nat),
        }
    }
}

fn has_subtable_path<T>(entries: &Vec<VTableEntry<T>>, p: &TraitPath) -> (r: bool)
    ensures
        r == is_subtable_path(entries_view(entries@), p@, entries@.len()),
{
    let ghost ev = entries_view(entries@);
    let mut i: usize = 0;
    let mut found = false;
    while i < entries.len()
        invariant
            i <= entries.len(),
            ev == entries_view(entries@),
            found == is_subtable_path(ev, p@, i as nat),
        decreases entries.len() - i,
    {
        match &entries[i] {
            VTableEntry::Subtable(s) => {
                if s.subtable.path.same_as(p) {
                    found = true;
                }
            },
            VTableEntry::Method(_) => {},
        }
        i = i + 1;
    }
    found
}

/// The supertraits that a container must implement itself to implement the
/// trait: the trait bounds that have no subtable, as indices.
pub fn as_dyn_bounds<P, A, T>(info: &DynTraitInfo<P, A, T>) -> (r: Vec<usize>)
    ensures
        r@ == as_dyn_indices(info.supertraits@, entries_view(info.entries@), info.supertraits@.len()),
{
    let mut out: Vec<usize> = Vec::new();
    let mut i: usize = 0;
    while i < info.supertraits.len()
        invariant
            i <= info.supertraits.len(),
            out@ == as_dyn_indices(info.supertraits@, entries_view(info.entries@), i as nat),
        decreases info.supertraits.len() - i,
    {
        match &info.supertraits[i] {
            BoundModel::Trait { path, .. } => {
                if !has_subtable_path(&info.entries, path) {
                    out.push(i);
                }
            },
            BoundModel::Other => {},
        }
        i = i + 1;
    }
    out
}

/// The paths of every subtable reached from the first `n` entries, each
/// subtable graph in preorder.
pub open spec fn inherited_paths_spec<T>(entries: Seq<VTableEntryView<T>>, n: nat) -> Seq<PathView>
    decreases n,
{
    if n == 0 {
        Seq::empty()
    } else {
        match entries[n - 1] {
            VTableEntryView::Subtable(s) => inherited_paths_spec(entries, (n - 1) as nat)
                + flatten_tree(s.subtable).map_values(|t: SubtableView| t.path),
            VTableEntryView::Method(_) => inherited_paths_spec(entries, (n - 1) as nat),
        }
    }
}

/// The paths of every subtable of a trait's vtable, direct or inherited: a
/// container's vtable must contain all of them to implement the trait.
pub fn inherited_paths<P, A, T>(info: &DynTraitInfo<P, A, T>) -> (r: Vec<TraitPath>)
    ensures
        paths_view(r@) == inherited_paths_spec(entries_view(info.entries@), info.entries@.len()),
{
    let ghost ev = entries_view(info.entries@);
    let mut out: Vec<TraitPath> = Vec::new();
    let mut i: usize = 0;
    while i < info.entries.len()
        invariant
            i <= info.entries.len(),
            ev == entries_view(info.entries@),
            paths_view(out@) == inherited_paths_spec(ev, i as nat),
        decreases info.entries.len() - i,
    {
        match &info.entries[i] {
            VTableEntry::Subtable(s) => {
                let flat = s.subtable.flatten();
                let ghost fv = subtable_refs_view(flat@);
                let mut k: usize = 0;
                let ghost start = paths_view(out@);
                while k < flat.len()
                    invariant
                        k <= flat.len(),
                        fv == subtable_refs_view(flat@),
                        paths_view(out@) == start + fv.take(k as int).map_values(
                            |t: SubtableView| t.path,
                        ),
                    decreases flat.len() - k,
                {
                    let ghost before = out@;
                    out.push(flat[k].path.duplicate());
                    assert(paths_view(out@) =~= paths_view(before).push(fv[k as int].path));
                    assert(fv.take(k as int + 1).map_values(|t: SubtableView| t.path) =~= fv.take(
                        k as int,
                    ).map_values(|t: SubtableView| t.path).push(fv[k as int].path));
                    k = k + 1;
                }
                assert(fv.take(k as int) =~= fv);
            },
            VTableEntry::Method(_) => {},
        }
        i = i + 1;
    }
    out
}

/// Whether one of the first `n` entries is a subtable whose graph holds `p`.
pub open spec fn entries_reach<T>(entries: Seq<VTableEntryView<T>>, p: PathView, n: nat) -> bool
    decreases n,
{
    if n == 0 {
        false
    } else {
        entries_reach(entries, p, (n - 1) as nat) || (entries[n - 1] matches VTableEntryView::Subtable(
            s,
        ) && tree_contains(s.subtable, p))
    }
}

proof fn lemma_paths_of_flat(f: Seq<SubtableView>, p: PathView)
    ensures
        f.map_values(|t: SubtableView| t.path).contains(p) <==> lists_path(f, p),
{
    let ps = f.map_values(|t: SubtableView| t.path);
    if ps.contains(p) {
        let i = choose|i: int| 0 <= i < ps.len() && ps[i] == p;
        assert(f[i].path == p);
    }
    if lists_path(f, p) {
        let i = choose|i: int| 0 <= i < f.len() && (#[trigger] f[i]).path == p;
        assert(ps[i] == p);
    }
}

/// The inherited paths of a vtable are exactly the paths that occur in the
/// graphs of its subtables: none is missed and none is made up.
pub proof fn lemma_inherited_paths_cover<T>(entries: Seq<VTableEntryView<T>>, p: PathView, n: nat)
    requires
        n <= entries.len(),
    ensures
        inherited_paths_spec(entries, n).contains(p) <==> entries_reach(entries, p, n),
    decreases n,
{
    if n > 0 {
        lemma_inherited_paths_cover(entries, p, (n - 1) as nat);
        let prev = inherited_paths_spec(entries, (n - 1) as nat);
        match entries[n - 1] {
            VTableEntryView::Subtable(s) => {
                let ps = flatten_tree(s.subtable).map_values(|t: SubtableView| t.path);
                lemma_paths_of_flat(flatten_tree(s.subtable), p);
                lemma_flatten_lists_graph(s.subtable, p);
                if (prev + ps).contains(p) {
                    let i = choose|i: int| 0 <= i < (prev + ps).len() && (prev + ps)[i] == p;
                    if i < prev.len() {
                        assert(prev[i] == p);
                    } else {
                        assert(ps[i - prev.len()] == p);
                    }
                }
                if prev.contains(p) {
                    let i = choose|i: int| 0 <= i < prev.len() && prev[i] == p;
                    assert((prev + ps)[i] == p);
                }
                if ps.contains(p) {
                    let i = choose|i: int| 0 <= i < ps.len() && ps[i] == p;
                    assert((prev + ps)[prev.len() + i] == p);
                }
            },
            VTableEntryView::Method(_) => {},
        }
    }
}

/// The name of a generated item: `prefix` followed by the trait's identifier.
pub open spec fn generated_name(prefix: Seq<char>, ident: Seq<char>) -> Seq<char> {
    prefix + ident
}

/// The name of the helper trait that gives each implementor its vtable:
/// `__DynTrait_{ident}`.
pub fn proxy_trait_name(ident: &String) -> (r: String)
    ensures
        r@ == generated_name("__DynTrait_"@, ident@),
{
    crate::text::concat("__DynTrait_", ident.as_str())
}

/// The name of the drop function stored in the vtable: `__DynDrop_{ident}`.
pub fn drop_fn_name(ident: &String) -> (r: String)
    ensures
        r@ == generated_name("__DynDrop_"@, ident@),
{
    crate::text::concat("__DynDrop_", ident.as_str())
}

/// The name of the trait that gathers several trait bounds:
/// `__DynBounds_{ident}`.
pub fn bounds_trait_name(ident: &String) -> (r: String)
    ensures
        r@ == generated_name("__DynBounds_"@, ident@),
{
    crate::text::concat("__DynBounds_", ident.as_str())
}

/// The name of the function that calls the method `method` of the trait
/// `ident` on a pointer to an owned `self`: `__DynImpl_{ident}_{method}`.
pub open spec fn self_proxy_name_spec(ident: Seq<char>, method: Seq<char>) -> Seq<char> {
    "__DynImpl_"@ + ident + "_"@ + method
}

/// The name of the proxy function for a method taking `self` by value.
pub fn self_proxy_name(ident: &String, method: &String) -> (r: String)
    ensures
        r@ == self_proxy_name_spec(ident@, method@),
{
    let mut name = crate::text::concat("__DynImpl_", ident.as_str());
    name.append("_");
    name.append(method.as_str());
    name
}

/// The proxy functions of two methods of a trait have the same name only if
/// the methods have the same name.
pub proof fn lemma_self_proxy_names_distinct(ident: Seq<char>, m1: Seq<char>, m2: Seq<char>)
    requires
        m1 != m2,
    ensures
        self_proxy_name_spec(ident, m1) != self_proxy_name_spec(ident, m2),
{
    let prefix = "__DynImpl_"@ + ident + "_"@;
    assert(self_proxy_name_spec(ident, m1) =~= prefix + m1);
    assert(self_proxy_name_spec(ident, m2) =~= prefix + m2);
    if prefix + m1 == prefix + m2 {
        assert((prefix + m1).skip(prefix.len() as int) =~= m1);
        assert((prefix + m2).skip(prefix.len() as int) =~= m2);
    }
}

/// A generic parameter of a trait.
pub enum TraitGenericModel {
    Lifetime(String),
    Type(String),
    Const(String),
}

/// What the vtable's generics marker holds for one generic parameter.
pub enum PhantomPart {
    /// `&'a ()` for the lifetime `'a`.
    Lifetime(String),
    /// The type parameter itself.
    Type(String),
}

/// The type the vtable's generics marker is a `PhantomData` of.
pub struct PhantomGenerics {
    /// One part per lifetime and type parameter, in order; const parameters
    /// take no part.
    pub parts: Vec<PhantomPart>,
    /// Whether the parts are written as a tuple: unless there is exactly one
    /// part (no part gives the unit type).
    pub tuple: bool,
}

/// The parts for the first `n` generic parameters.
pub open spec fn phantom_parts(params: Seq<TraitGenericModel>, n: nat) -> Seq<(bool, Seq<char>)>
    decreases n,
{
    if n == 0 {
        Seq::empty()
    } else {
        match params[n - 1] {
            TraitGenericModel::Lifetime(l) => phantom_parts(params, (n - 1) as nat).push((true, l@)),
            TraitGenericModel::Type(t) => phantom_parts(params, (n - 1) as nat).push((false, t@)),
            TraitGenericModel::Const(_) => phantom_parts(params, (n - 1) as nat),
        }
    }
}

/// The value of a part: whether it is a lifetime, and its name.
pub open spec fn phantom_part_view(p: PhantomPart) -> (bool, Seq<char>) {
    match p {
        PhantomPart::Lifetime(l) => (true, l@),
        PhantomPart::Type(t) => (false, t@),
    }
}

/// The generics marker of a vtable for a trait with generic parameters `params`.
pub fn phantom_generics(params: &Vec<TraitGenericModel>) -> (r: PhantomGenerics)
    ensures
        r.parts@.map_values(|p: PhantomPart| phantom_part_view(p)) == phantom_parts(
            params@,
            params@.len(),
        ),
        r.tuple == (r.parts@.len() != 1),
{
    let mut parts: Vec<PhantomPart> = Vec::new();
    let mut i: usize = 0;
    while i < params.len()
        invariant
            i <= params.len(),
            parts@.map_values(|p: PhantomPart| phantom_part_view(p)) == phantom_parts(
                params@,
                i as nat,
            ),
        decreases params.len() - i,
    {
        let ghost before = parts@;
        match &params[i] {
            TraitGenericModel::Lifetime(l) => {
                parts.push(PhantomPart::Lifetime(l.clone()));
                assert(parts@.map_values(|p: PhantomPart| phantom_part_view(p)) =~= before.map_values(
                    |p: PhantomPart| phantom_part_view(p),
                ).push((true, l@)));
            },
            TraitGenericModel::Type(t) => {
                parts.push(PhantomPart::Type(t.clone()));
                assert(parts@.map_values(|p: PhantomPart| phantom_part_view(p)) =~= before.map_values(
                    |p: PhantomPart| phantom_part_view(p),
                ).push((false, t@)));
            },
            TraitGenericModel::Const(_) => {},
        }
        i = i + 1;
    }
    let tuple = parts.len() != 1;
    PhantomGenerics { parts, tuple }
}

} // verus!
