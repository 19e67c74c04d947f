//! Reading a `#[dyntable]` trait: its `dyn` entries, subtables and methods,
//! and the information the generated code is made from.

use vstd::prelude::*;
use crate::path::{TraitPath, PathView, paths_view};
use crate::bounds::{
    BoundModel, PredicateModel, DynEntryError, DynPredicateView, strip_spec, strip_dyn_entries,
    dyn_predicates_view,
};
use crate::subtable::{
    SubtableEntry, SubtableEntryView, SubtableError, solve_spec, first_nameless, named_entry,
    subtable_entries_view, solve_subtables, name_subtables,
};
use crate::method::{SignatureModel, MethodEntry, MethodEntryView, MethodError, method_spec};
use crate::options::{Abi, AbiView, AttributeOptions, AttributeOptionsView, opt_abi_view};

verus! {

/// An item of a trait body.
pub enum TraitItemModel<A, T> {
    /// An associated type, carried through unchanged.
    Type(A),
    /// A method, with the payload `T` for the types of its parameters.
    Fn(SignatureModel<T>),
    /// An associated constant.
    Const,
    /// A macro invocation.
    Macro,
    /// Any other item.
    Other,
}

/// A trait as the library reads it: the payload `P` stands for where
/// clause predicates, `A` for associated types, `T` for parameter types.
pub struct TraitModel<P, A, T> {
    pub ident: String,
    pub supertraits: Vec<BoundModel>,
    /// The where clause's predicates, if the trait has a where clause.
    pub where_predicates: Option<Vec<PredicateModel<P>>>,
    pub items: Vec<TraitItemModel<A, T>>,
}

/// Why a trait body cannot be a `#[dyntable]` trait. `item` indexes the
/// items of the trait, `subtable` its subtables.
#[derive(PartialEq, Eq, Structural)]
pub enum BodyError {
    DynEntry(DynEntryError),
    Subtable(SubtableError),
    InvalidPath { subtable: usize },
    AssociatedConst { item: usize },
    MacroItem { item: usize },
    UnknownItem { item: usize },
    Method { item: usize, error: MethodError },
}

impl BodyError {
    /// The message reported to the user.
    pub open spec fn message_spec(&self) -> Seq<char> {
        match self {
            BodyError::DynEntry(e) => e.message_spec(),
            BodyError::Subtable(e) => e.message_spec(),
            BodyError::InvalidPath { .. } => "not a valid path"@,
            BodyError::AssociatedConst { .. } => "associated constants are not supported in #[dyntable] traits"@,
            BodyError::MacroItem { .. } => "macro invocations are not supported for directly creating entries in #[dyntable] traits"@,
            BodyError::UnknownItem { .. } => "unknown entry"@,
            BodyError::Method { error, .. } => error.message_spec(),
        }
    }

    /// The message reported to the user.
    pub fn message(&self) -> (r: &'static str)
        ensures
            r@ == self.message_spec(),
    {
        match self {
            BodyError::DynEntry(e) => e.message(),
            BodyError::Subtable(e) => e.message(),
            BodyError::InvalidPath { .. } => "not a valid path",
            BodyError::AssociatedConst { .. } => "associated constants are not supported in #[dyntable] traits",
            BodyError::MacroItem { .. } => "macro invocations are not supported for directly creating entries in #[dyntable] traits",
            BodyError::UnknownItem { .. } => "unknown entry",
            BodyError::Method { error, .. } => error.message(),
        }
    }
}

/// The validated body of a `#[dyntable]` trait.
pub struct DynTraitBody<P, A, T> {
    pub ident: String,
    pub supertraits: Vec<BoundModel>,
    /// The where clause's predicates other than the `dyn` entries, if the
    /// trait has a where clause.
    pub where_predicates: Option<Vec<P>>,
    pub associated_types: Vec<A>,
    pub subtables: Vec<SubtableEntry>,
    pub methods: Vec<MethodEntry<T>>,
}

/// The paths of the first `n` trait bounds among `sts`.
pub open spec fn trait_roots(sts: Seq<BoundModel>, n: nat) -> Seq<PathView>
    decreases n,
{
    if n == 0 {
        Seq::empty()
    } else {
        match sts[n - 1] {
            BoundModel::Trait { path, .. } => trait_roots(sts, (n - 1) as nat).push(path@),
            BoundModel::Other => trait_roots(sts, (n - 1) as nat),
        }
    }
}

/// The associated types and methods of the first `n` items, or the error of
/// the first item that is rejected.
pub open spec fn items_outcome<A, T>(items: Seq<TraitItemModel<A, T>>, n: nat) -> Result<
    (Seq<A>, Seq<MethodEntryView<T>>),
    BodyError,
>
    decreases n,
{
    if n == 0 {
        Ok((Seq::empty(), Seq::empty()))
    } else {
        match items_outcome(items, (n - 1) as nat) {
            Err(e) => Err(e),
            Ok((types, methods)) => {
                let i = (n - 1) as usize;
                match items[n - 1] {
                    TraitItemModel::Type(a) => Ok((types.push(a), methods)),
                    TraitItemModel::Fn(sig) => match method_spec(
                        sig.name@,
                        sig.has_abi,
                        sig.has_variadic,
                        sig.has_where_clause,
                        sig.generics@,
                        sig.inputs@,
                    ) {
                        Ok(m) => Ok((types, methods.push(m))),
                        Err(e) => Err(BodyError::Method { item: i, error: e }),
                    },
                    TraitItemModel::Const => Err(BodyError::AssociatedConst { item: i }),
                    TraitItemModel::Macro => Err(BodyError::MacroItem { item: i }),
                    TraitItemModel::Other => Err(BodyError::UnknownItem { item: i }),
                }
            },
        }
    }
}

/// The value of a trait body.
pub struct DynTraitBodyView<P, A, T> {
    pub ident: Seq<char>,
    pub supertraits: Seq<BoundModel>,
    pub where_predicates: Option<Seq<P>>,
    pub associated_types: Seq<A>,
    pub subtables: Seq<SubtableEntryView>,
    pub methods: Seq<MethodEntryView<T>>,
}

/// The views of a sequence of method entries.
pub open spec fn methods_view<T>(ms: Seq<MethodEntry<T>>) -> Seq<MethodEntryView<T>> {
    ms.map_values(|m: MethodEntry<T>| m@)
}

impl<P, A, T> View for DynTraitBody<P, A, T> {
    type V = DynTraitBodyView<P, A, T>;

    open spec fn view(&self) -> DynTraitBodyView<P, A, T> {
        DynTraitBodyView {
            ident: self.ident@,
            supertraits: self.supertraits@,
            where_predicates: match self.where_predicates {
                Some(ps) => Some(ps@),
                None => None,
            },
            associated_types: self.associated_types@,
            subtables: subtable_entries_view(self.subtables@),
            methods: methods_view(self.methods@),
        }
    }
}

/// The `dyn` entries and kept predicates of an optional where clause.
pub open spec fn where_spec<P>(wp: Option<Vec<PredicateModel<P>>>) -> Result<
    (Seq<DynPredicateView>, Option<Seq<P>>),
    DynEntryError,
> {
    match wp {
        None => Ok((Seq::empty(), None)),
        Some(ps) => match strip_spec(ps@, ps@.len()) {
            Err(e) => Err(e),
            Ok((d, k)) => Ok((d, Some(k))),
        },
    }
}

/// The body a trait reads as: the `dyn` entries are stripped from its where
/// clause and resolved against its trait bounds into subtables, each
/// subtable is named, then its items are read in order.
pub open spec fn body_spec<P, A, T>(t: TraitModel<P, A, T>) -> Result<
    DynTraitBodyView<P, A, T>,
    BodyError,
> {
    match where_spec(t.where_predicates) {
        Err(e) => Err(BodyError::DynEntry(e)),
        Ok((dyns, kept)) => match solve_spec(trait_roots(t.supertraits@, t.supertraits@.len()), dyns) {
            Err(e) => Err(BodyError::Subtable(e)),
            Ok(f) => match first_nameless(f, f.len()) {
                Some(i) => Err(BodyError::InvalidPath { subtable: i as usize }),
                None => match items_outcome(t.items@, t.items@.len()) {
                    Err(e) => Err(e),
                    Ok((types, methods)) => Ok(
                        DynTraitBodyView {
                            ident: t.ident@,
                            supertraits: t.supertraits@,
                            where_predicates: kept,
                            associated_types: types,
                            subtables: Seq::new(f.len(), |i: int| named_entry(f, i)),
                            methods,
                        },
                    ),
                },
            },
        },
    }
}

/// The paths of the trait bounds among `sts`.
fn trait_bound_paths(sts: &Vec<BoundModel>) -> (r: Vec<TraitPath>)
    ensures
        paths_view(r@) == trait_roots(sts@, sts@.len()),
{
    let mut out: Vec<TraitPath> = Vec::new();
    let mut i: usize = 0;
    while i < sts.len()
        invariant
            i <= sts.len(),
            paths_view(out@) == trait_roots(sts@, i as nat),
        decreases sts.len() - i,
    {
        let ghost before = out@;
        match &sts[i] {
            BoundModel::Trait { path, .. } => {
                out.push(path.duplicate());
                assert(paths_view(out@) =~= paths_view(before).push(path@));
            },
            BoundModel::Other => {},
        }
        i = i + 1;
    }
    out
}

proof fn lemma_items_error_sticks<A, T>(items: Seq<TraitItemModel<A, T>>, n: nat, m: nat)
    requires
        n <= m,
        items_outcome(items, n) is Err,
    ensures
        items_outcome(items, m) == items_outcome(items, n),
    decreases m,
{
    if m > n {
        lemma_items_error_sticks(items, n, (m - 1) as nat);
    }
}

/// Reads the items of a trait into associated types and methods.
fn read_items<A, T>(items: Vec<TraitItemModel<A, T>>) -> (r: Result<
    (Vec<A>, Vec<MethodEntry<T>>),
    BodyError,
>)
    ensures
        match items_outcome(items@, items@.len()) {
            Err(e) => r == Err::<(Vec<A>, Vec<MethodEntry<T>>), BodyError>(e),
            Ok((types, methods)) => (r matches Ok((ts, ms)) && ts@ == types && methods_view(ms@)
                == methods),
        },
{
    let ghost all = items@;
    let total = items.len();
    let mut rest = items;
    let mut types: Vec<A> = Vec::new();
    let mut methods: Vec<MethodEntry<T>> = Vec::new();
    let mut i: usize = 0;
    assert(methods_view(methods@) =~= Seq::<MethodEntryView<T>>::empty());
    while rest.len() > 0
        invariant
            all == items@,
            all.len() == total,
            i + rest.len() == total,
            rest@ == all.skip(i as int),
            items_outcome(all, i as nat) == Ok::<(Seq<A>, Seq<MethodEntryView<T>>), BodyError>(
                (types@, methods_view(methods@)),
            ),
        decreases rest.len(),
    {
        let item = rest.remove(0);
        assert(item == all[i as int]);
        assert(rest@ =~= all.skip(i as int + 1));
        match item {
            TraitItemModel::Type(a) => {
                types.push(a);
            },
            TraitItemModel::Fn(sig) => {
                match MethodEntry::try_from(sig) {
                    Err(e) => {
                        proof { lemma_items_error_sticks(all, (i + 1) as nat, total as nat); }
                        return Err(BodyError::Method { item: i, error: e });
                    },
                    Ok(m) => {
                        let ghost before = methods@;
                        methods.push(m);
                        assert(methods_view(methods@) =~= methods_view(before).push(m@));
                    },
                }
            },
            TraitItemModel::Const => {
                proof { lemma_items_error_sticks(all, (i + 1) as nat, total as nat); }
                return Err(BodyError::AssociatedConst { item: i });
            },
            TraitItemModel::Macro => {
                proof { lemma_items_error_sticks(all, (i + 1) as nat, total as nat); }
                return Err(BodyError::MacroItem { item: i });
            },
            TraitItemModel::Other => {
                proof { lemma_items_error_sticks(all, (i + 1) as nat, total as nat); }
                return Err(BodyError::UnknownItem { item: i });
            },
        }
        i = i + 1;
    }
    Ok((types, methods))
}

impl<P, A, T> DynTraitBody<P, A, T> {
    /// Validates a trait for `#[dyntable]`: strips the `dyn` entries from
    /// its where clause, resolves them into subtables, names the subtables,
    /// and reads its items.
    pub fn parse(t: TraitModel<P, A, T>) -> (r: Result<DynTraitBody<P, A, T>, BodyError>)
        ensures
            match body_spec(t) {
                Ok(v) => (r matches Ok(b) && b@ == v),
                Err(e) => r == Err::<DynTraitBody<P, A, T>, BodyError>(e),
            },
    {
        let TraitModel { ident, supertraits, where_predicates, items } = t;
        let (dyns, kept) = match where_predicates {
            None => (Vec::new(), None),
            Some(ps) => match strip_dyn_entries(ps) {
                Err(e) => {
                    return Err(BodyError::DynEntry(e));
                },
                Ok((d, k)) => (d, Some(k)),
            },
        };
        assert(where_spec(t.where_predicates) matches Ok((dv, kv)) && dv == dyn_predicates_view(dyns@)
            && kv == match kept {
                Some(k) => Some(k@),
                None => None::<Seq<P>>,
            }) by {
            if t.where_predicates is None {
                assert(dyn_predicates_view(dyns@) =~= Seq::<DynPredicateView>::empty());
            }
        }
        let roots = trait_bound_paths(&supertraits);
        let subtables = match solve_subtables(&roots, &dyns) {
            Err(e) => {
                return Err(BodyError::Subtable(e));
            },
            Ok(s) => s,
        };
        let entries = match name_subtables(subtables) {
            Err(i) => {
                return Err(BodyError::InvalidPath { subtable: i });
            },
            Ok(es) => es,
        };
        let (associated_types, methods) = match read_items(items) {
            Err(e) => {
                return Err(e);
            },
            Ok(r) => r,
        };
        let r = DynTraitBody {
            ident,
            supertraits,
            where_predicates: kept,
            associated_types,
            subtables: entries,
            methods,
        };
        Ok(r)
    }
}

/// The vtable generated for a trait: its representation and its name.
pub struct VTableInfo {
    pub repr: Abi,
    pub name: String,
}

/// An entry of a vtable.
pub enum VTableEntry<T> {
    /// The vtable of a bounded trait.
    Subtable(SubtableEntry),
    /// A method.
    Method(MethodEntry<T>),
}

/// The value of a vtable entry.
pub enum VTableEntryView<T> {
    Subtable(SubtableEntryView),
    Method(MethodEntryView<T>),
}

impl<T> View for VTableEntry<T> {
    type V = VTableEntryView<T>;

    open spec fn view(&self) -> VTableEntryView<T> {
        match self {
            VTableEntry::Subtable(s) => VTableEntryView::Subtable(s@),
            VTableEntry::Method(m) => VTableEntryView::Method(m@),
        }
    }
}

/// The views of a sequence of vtable entries.
pub open spec fn entries_view<T>(es: Seq<VTableEntry<T>>) -> Seq<VTableEntryView<T>> {
    es.map_values(|e: VTableEntry<T>| e@)
}

/// Everything the generated code of a `#[dyntable]` trait is made from.
pub struct DynTraitInfo<P, A, T> {
    pub vtable: VTableInfo,
    pub ident: String,
    pub supertraits: Vec<BoundModel>,
    pub where_predicates: Option<Vec<P>>,
    pub associated_types: Vec<A>,
    /// The ABI of the vtable's drop function, if it has one.
    pub drop: Option<Abi>,
    pub relax_abi: bool,
    /// Whether the vtable holds the layout of the implementing type.
    pub embed_layout: bool,
    /// The vtable's entries: the subtables, then the methods, in order.
    pub entries: Vec<VTableEntry<T>>,
}

/// The value of the information of a trait.
pub struct DynTraitInfoView<P, A, T> {
    pub repr: AbiView,
    pub vtable_name: Seq<char>,
    pub ident: Seq<char>,
    pub supertraits: Seq<BoundModel>,
    pub where_predicates: Option<Seq<P>>,
    pub associated_types: Seq<A>,
    pub drop: Option<AbiView>,
    pub relax_abi: bool,
    pub embed_layout: bool,
    pub entries: Seq<VTableEntryView<T>>,
}

impl<P, A, T> View for DynTraitInfo<P, A, T> {
    type V = DynTraitInfoView<P, A, T>;

    open spec fn view(&self) -> DynTraitInfoView<P, A, T> {
        DynTraitInfoView {
            repr: self.vtable.repr@,
            vtable_name: self.vtable.name@,
            ident: self.ident@,
            supertraits: self.supertraits@,
            where_predicates: match self.where_predicates {
                Some(ps) => Some(ps@),
                None => None,
            },
            associated_types: self.associated_types@,
            drop: opt_abi_view(self.drop),
            relax_abi: self.relax_abi,
            embed_layout: self.embed_layout,
            entries: entries_view(self.entries@),
        }
    }
}

/// Why the information of a trait cannot be gathered.
#[derive(PartialEq, Eq, Structural)]
pub enum InfoError {
    /// Method `method` has no explicit ABI and the ABI check is not relaxed.
    MissingAbi { method: usize },
}

impl InfoError {
    /// The message reported to the user.
    pub fn message(&self) -> (r: &'static str)
        ensures
            r@ == "missing explicit ABI specifier (add `relax_abi = true` to the #[dyntrait] annotation to relax this check)"@,
    {
        "missing explicit ABI specifier (add `relax_abi = true` to the #[dyntrait] annotation to relax this check)"
    }
}

/// The first of the first `n` methods without an explicit ABI.
pub open spec fn first_without_abi<T>(ms: Seq<MethodEntryView<T>>, n: nat) -> Option<nat>
    decreases n,
{
    if n == 0 {
        None
    } else {
        match first_without_abi(ms, (n - 1) as nat) {
            Some(i) => Some(i),
            None => if !ms[n - 1].has_abi {
                Some((n - 1) as nat)
            } else {
                None
            },
        }
    }
}

/// The default name of the vtable of the trait `ident`: `{ident}VTable`.
pub open spec fn default_vtable_name(ident: Seq<char>) -> Seq<char> {
    ident + "VTable"@
}

/// The information of a trait with options `o` and body `b`: unless the ABI
/// check is relaxed, every method must have an explicit ABI; the vtable is
/// named by the option or after the trait; the subtables come before the
/// methods.
pub open spec fn info_spec<P, A, T>(o: AttributeOptionsView, b: DynTraitBodyView<P, A, T>) -> Result<
    DynTraitInfoView<P, A, T>,
    InfoError,
> {
    if !o.relax_abi && first_without_abi(b.methods, b.methods.len()) is Some {
        Err(InfoError::MissingAbi { method: first_without_abi(b.methods, b.methods.len()).unwrap() as usize })
    } else {
        Ok(
            DynTraitInfoView {
                repr: o.repr,
                vtable_name: match o.vtable_name {
                    Some(n) => n,
                    None => default_vtable_name(b.ident),
                },
                ident: b.ident,
                supertraits: b.supertraits,
                where_predicates: b.where_predicates,
                associated_types: b.associated_types,
                drop: o.drop,
                relax_abi: o.relax_abi,
                embed_layout: o.embed_layout,
                entries: b.subtables.map_values(|s: SubtableEntryView| VTableEntryView::<T>::Subtable(s))
                    + b.methods.map_values(|m: MethodEntryView<T>| VTableEntryView::Method(m)),
            },
        )
    }
}

proof fn lemma_first_without_abi_none<T>(ms: Seq<MethodEntryView<T>>, n: nat)
    requires
        n <= ms.len(),
    ensures
        first_without_abi(ms, n) is None <==> forall|i: int| 0 <= i < n ==> (#[trigger] ms[i]).has_abi,
    decreases n,
{
    if n > 0 {
        lemma_first_without_abi_none(ms, (n - 1) as nat);
    }
}

/// The vtable information keeps what the options ask for: it is gathered
/// exactly when the ABI check is relaxed or every method names its ABI, and
/// then the vtable has the options' representation, drop function, layout
/// and ABI check, is named by the option or `{Trait}VTable`, and holds the
/// body's subtables, then its methods, in order.
pub proof fn lemma_info_keeps_options<P, A, T>(o: AttributeOptionsView, b: DynTraitBodyView<P, A, T>)
    ensures
        info_spec(o, b) is Ok <==> (o.relax_abi || forall|i: int|
            0 <= i < b.methods.len() ==> (#[trigger] b.methods[i]).has_abi),
        info_spec(o, b) matches Ok(v) ==> {
            &&& v.repr == o.repr
            &&& v.drop == o.drop
            &&& v.embed_layout == o.embed_layout
            &&& v.relax_abi == o.relax_abi
            &&& v.vtable_name == (match o.vtable_name {
                Some(n) => n,
                None => b.ident + "VTable"@,
            })
            &&& v.ident == b.ident
            &&& v.entries.len() == b.subtables.len() + b.methods.len()
            &&& forall|i: int|
                0 <= i < b.subtables.len() ==> #[trigger] v.entries[i] == VTableEntryView::<T>::Subtable(
                    b.subtables[i],
                )
            &&& forall|i: int|
                0 <= i < b.methods.len() ==> #[trigger] v.entries[b.subtables.len() + i]
                    == VTableEntryView::Method(b.methods[i])
        },
{
    lemma_first_without_abi_none(b.methods, b.methods.len());
    if let Ok(v) = info_spec(o, b) {
        assert forall|i: int| 0 <= i < b.methods.len() implies #[trigger] v.entries[b.subtables.len() + i]
            == VTableEntryView::Method(b.methods[i]) by {
            let k = b.subtables.len() + i;
            assert(v.entries[k] == b.methods.map_values(|m: MethodEntryView<T>| VTableEntryView::<T>::Method(m))[i]);
        }
    }
}

proof fn lemma_first_without_abi_sticks<T>(ms: Seq<MethodEntryView<T>>, n: nat, m: nat)
    requires
        n <= m,
        first_without_abi(ms, n) is Some,
    ensures
        first_without_abi(ms, m) == first_without_abi(ms, n),
    decreases m,
{
    if m > n {
        lemma_first_without_abi_sticks(ms, n, (m - 1) as nat);
    }
}

impl<P, A, T> DynTraitInfo<P, A, T> {
    /// Gathers the information of a trait from its attribute options and
    /// its validated body.
    pub fn parse_trait(options: AttributeOptions, body: DynTraitBody<P, A, T>) -> (r: Result<
        DynTraitInfo<P, A, T>,
        InfoError,
    >)
        ensures
            match info_spec(options@, body@) {
                Ok(v) => (r matches Ok(info) && info@ == v),
                Err(e) => r == Err::<DynTraitInfo<P, A, T>, InfoError>(e),
            },
    {
        let ghost mv = methods_view(body.methods@);
        if !options.relax_abi {
            let mut i: usize = 0;
            while i < body.methods.len()
                invariant
                    !options.relax_abi,
                    i <= body.methods.len(),
                    mv == methods_view(body.methods@),
                    first_without_abi(mv, i as nat) is None,
                decreases body.methods.len() - i,
            {
                if !body.methods[i].has_abi {
                    assert(first_without_abi(mv, (i + 1) as nat) == Some(i as nat));
                    proof { lemma_first_without_abi_sticks(mv, (i + 1) as nat, mv.len()); }
                    return Err(InfoError::MissingAbi { method: i });
                }
                i = i + 1;
            }
        }
        let AttributeOptions { repr, relax_abi, drop, embed_layout, vtable_name } = options;
        let DynTraitBody {
            ident,
            supertraits,
            where_predicates,
            associated_types,
            subtables,
            methods,
        } = body;
        let name = match vtable_name {
            Some(n) => n,
            None => {
                let mut n = ident.clone();
                n.append("VTable");
                n
            },
        };
        let ghost sv = subtable_entries_view(subtables@);
        let mut entries: Vec<VTableEntry<T>> = Vec::new();
        let mut rest = subtables;
        let mut i: usize = 0;
        let ns = rest.len();
        while rest.len() > 0
            invariant
                sv.len() == ns,
                i + rest.len() == ns,
                subtable_entries_view(rest@) == sv.skip(i as int),
                entries_view(entries@) == sv.take(i as int).map_values(
                    |s: SubtableEntryView| VTableEntryView::<T>::Subtable(s),
                ),
            decreases rest.len(),
        {
            let ghost old_rest = rest@;
            let e = rest.remove(0);
            assert(subtable_entries_view(old_rest)[0] == e@);
            assert(sv.skip(i as int)[0] == sv[i as int]);
            assert(subtable_entries_view(rest@) =~= sv.skip(i as int + 1)) by {
                assert(rest@ =~= old_rest.drop_first());
                assert forall|k: int|
                    0 <= k < rest@.len() implies subtable_entries_view(rest@)[k] == sv.skip(
                    i as int + 1,
                )[k] by {
                    assert(subtable_entries_view(rest@)[k] == old_rest[k + 1]@);
                    assert(subtable_entries_view(old_rest)[k + 1] == sv.skip(i as int)[k + 1]);
                }
            }
            let ghost before = entries@;
            entries.push(VTableEntry::Subtable(e));
            assert(entries_view(entries@) =~= sv.take(i as int + 1).map_values(
                |s: SubtableEntryView| VTableEntryView::<T>::Subtable(s),
            )) by {
                assert(entries_view(entries@) =~= entries_view(before).push(VTableEntryView::Subtable(e@)));
            }
            i = i + 1;
        }
        assert(sv.take(ns as int) =~= sv);
        let mut rest = methods;
        let mut k: usize = 0;
        let nm = rest.len();
        while rest.len() > 0
            invariant
                mv.len() == nm,
                k + rest.len() == nm,
                methods_view(rest@) == mv.skip(k as int),
                entries_view(entries@) == sv.map_values(
                    |s: SubtableEntryView| VTableEntryView::<T>::Subtable(s),
                ) + mv.take(k as int).map_values(|m: MethodEntryView<T>| VTableEntryView::Method(m)),
            decreases rest.len(),
        {
            let ghost old_rest = rest@;
            let m = rest.remove(0);
            assert(methods_view(old_rest)[0] == m@);
            assert(mv.skip(k as int)[0] == mv[k as int]);
            assert(methods_view(rest@) =~= mv.skip(k as int + 1)) by {
                assert(rest@ =~= old_rest.drop_first());
                assert forall|j: int|
                    0 <= j < rest@.len() implies methods_view(rest@)[j] == mv.skip(k as int + 1)[j] by {
                    assert(methods_view(rest@)[j] == old_rest[j + 1]@);
                    assert(methods_view(old_rest)[j + 1] == mv.skip(k as int)[j + 1]);
                }
            }
            let ghost before = entries@;
            entries.push(VTableEntry::Method(m));
            assert(entries_view(entries@) =~= entries_view(before).push(VTableEntryView::Method(m@)));
            assert(mv.take(k as int + 1).map_values(|m: MethodEntryView<T>| VTableEntryView::Method(m))
                =~= mv.take(k as int).map_values(|m: MethodEntryView<T>| VTableEntryView::Method(m)).push(
                VTableEntryView::Method(m@),
            ));
            k = k + 1;
        }
        assert(mv.take(nm as int) =~= mv);
        Ok(
            DynTraitInfo {
                vtable: VTableInfo { repr, name },
                ident,
                supertraits,
                where_predicates,
                associated_types,
                drop,
                relax_abi,
                embed_layout,
                entries,
            },
        )
    }
}

} // verus!
