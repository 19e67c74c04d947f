//! The `dyn` entries of a `#[dyntable]` trait's where clause.
//!
//! `where dyn A: B + C` tells the library that the bound `A` is itself a
//! dyntable trait whose vtable holds those of `B` and `C`. Such entries are
//! taken out of the where clause; every other predicate is kept in order.

use vstd::prelude::*;
use crate::path::{TraitPath, PathView, paths_view};

verus! {

/// A bound in a list of trait bounds.
pub enum BoundModel {
    /// A trait bound. `higher_ranked` marks a `for<..>` binder, `modified`
    /// a modifier such as `?`.
    Trait { path: TraitPath, modified: bool, higher_ranked: bool },
    /// A lifetime or any other bound that is not a trait.
    Other,
}

/// The bounded type of a where clause predicate, as far as telling `dyn`
/// entries apart goes.
pub enum BoundedType {
    /// A trait object: `dyn A + B`, or `A + B` written without `dyn`.
    TraitObject { dyn_token: bool, bounds: Vec<BoundModel> },
    /// A type in parentheses: `(dyn A)`.
    Paren(Box<BoundedType>),
    /// A reference: `&T`, or `&mut T` when `mutable`.
    Reference { mutable: bool, elem: Box<BoundedType> },
    /// Any other type.
    Other,
}

/// A predicate of a where clause as written. `node` is the whole predicate,
/// carried through when it is not a `dyn` entry.
pub enum PredicateModel<P> {
    /// `for<..> T: B + C`: `higher_ranked` marks the binder.
    Type { bounded_ty: BoundedType, higher_ranked: bool, bounds: Vec<BoundModel>, node: P },
    /// A lifetime predicate or any other.
    Other(P),
}

/// A predicate of a where clause, told apart: a `dyn` entry or another.
pub enum WherePredicateModel<P> {
    /// A predicate whose bounded type is a trait object written with `dyn`
    /// (not wrapped in parentheses), or a shared reference to one: `object`
    /// are the bounds inside the trait object, `by_ref` marks `&dyn A`,
    /// `higher_ranked` marks a `for<..>` binder on the predicate, and
    /// `bounds` are the bounds after the colon.
    Dyn { object: Vec<BoundModel>, by_ref: bool, higher_ranked: bool, bounds: Vec<BoundModel> },
    /// Any other predicate, carried through unchanged.
    Other(P),
}

/// A `dyn A: B + C` entry: the bounded trait `A` and the traits `B`, `C`
/// whose vtables its vtable holds. An entry written `&dyn A: ..` is
/// `by_ref`: the vtable that holds `A`'s vtable holds it by pointer, so
/// that it can be swapped for another at run time.
pub struct DynPredicate {
    pub bounded_ty: TraitPath,
    pub by_ref: bool,
    pub bounds: Vec<TraitPath>,
}

/// The value of a `dyn` entry.
pub struct DynPredicateView {
    pub bounded_ty: PathView,
    pub by_ref: bool,
    pub bounds: Seq<PathView>,
}

impl View for DynPredicate {
    type V = DynPredicateView;

    open spec fn view(&self) -> DynPredicateView {
        DynPredicateView {
            bounded_ty: self.bounded_ty@,
            by_ref: self.by_ref,
            bounds: paths_view(self.bounds@),
        }
    }
}

/// The views of a sequence of `dyn` entries.
pub open spec fn dyn_predicates_view(ps: Seq<DynPredicate>) -> Seq<DynPredicateView> {
    ps.map_values(|p: DynPredicate| p@)
}

/// Whether a predicate is a `dyn` entry: its bounded type is a trait object
/// written with `dyn`, or a shared reference to one (`&dyn A`). A trait
/// object in parentheses, `(dyn A)`, is a plain bound passed on to Rust, and
/// so are `&mut dyn A`, trait objects without `dyn` and every other predicate.
pub open spec fn classify<P>(p: PredicateModel<P>) -> WherePredicateModel<P> {
    match p {
        PredicateModel::Type { bounded_ty, higher_ranked, bounds, node } => match bounded_ty {
            BoundedType::TraitObject { dyn_token, bounds: object } => if dyn_token {
                WherePredicateModel::Dyn { object, by_ref: false, higher_ranked, bounds }
            } else {
                WherePredicateModel::Other(node)
            },
            BoundedType::Reference { mutable, elem } => if mutable {
                WherePredicateModel::Other(node)
            } else {
                match *elem {
                    BoundedType::TraitObject { dyn_token, bounds: object } => if dyn_token {
                        WherePredicateModel::Dyn { object, by_ref: true, higher_ranked, bounds }
                    } else {
                        WherePredicateModel::Other(node)
                    },
                    _ => WherePredicateModel::Other(node),
                }
            },
            _ => WherePredicateModel::Other(node),
        },
        PredicateModel::Other(node) => WherePredicateModel::Other(node),
    }
}

/// Tells a `dyn` entry apart from a predicate passed on to Rust.
pub fn classify_predicate<P>(p: PredicateModel<P>) -> (r: WherePredicateModel<P>)
    ensures
        r == classify(p),
{
    match p {
        PredicateModel::Type { bounded_ty, higher_ranked, bounds, node } => match bounded_ty {
            BoundedType::TraitObject { dyn_token, bounds: object } => if dyn_token {
                WherePredicateModel::Dyn { object, by_ref: false, higher_ranked, bounds }
            } else {
                WherePredicateModel::Other(node)
            },
            BoundedType::Reference { mutable, elem } => if mutable {
                WherePredicateModel::Other(node)
            } else {
                match *elem {
                    BoundedType::TraitObject { dyn_token, bounds: object } => if dyn_token {
                        WherePredicateModel::Dyn { object, by_ref: true, higher_ranked, bounds }
                    } else {
                        WherePredicateModel::Other(node)
                    },
                    _ => WherePredicateModel::Other(node),
                }
            },
            _ => WherePredicateModel::Other(node),
        },
        PredicateModel::Other(node) => WherePredicateModel::Other(node),
    }
}

/// Which list of a `dyn` predicate a bound stands in.
#[derive(PartialEq, Eq, Structural)]
pub enum BoundPart {
    /// Inside the trait object: `dyn A`.
    Object,
    /// After the colon: `dyn A: B + C`.
    Bounds,
}

/// Why a `dyn` entry of a where clause is rejected. `predicate` is the index
/// of the predicate in the where clause, `bound` that of the bound in its list.
#[derive(PartialEq, Eq, Structural)]
pub enum DynEntryError {
    /// The trait object holds no bound.
    MissingTrait { predicate: usize },
    /// The trait object holds more than one bound; `bound` is the second.
    ExtraTrait { predicate: usize, bound: usize },
    /// A bound has a `for<..>` binder.
    HigherRankedBound { predicate: usize, part: BoundPart, bound: usize },
    /// A bound has a modifier.
    BoundModifier { predicate: usize, part: BoundPart, bound: usize },
    /// A bound is not a trait.
    NotATrait { predicate: usize, part: BoundPart, bound: usize },
    /// The predicate has a `for<..>` binder.
    HigherRankedPredicate { predicate: usize },
}

impl DynEntryError {
    /// The message reported to the user.
    pub open spec fn message_spec(&self) -> Seq<char> {
        match self {
            DynEntryError::MissingTrait { .. } => "dyn bound must have exactly 1 trait"@,
            DynEntryError::ExtraTrait { .. } => "dyn bound must have exactly 1 trait"@,
            DynEntryError::HigherRankedBound { .. } => "dyn bound cannot have higher ranked trait bounds"@,
            DynEntryError::BoundModifier { .. } => "dyn bound cannot have trait modifier"@,
            DynEntryError::NotATrait { .. } => "dyn bound must be a trait"@,
            DynEntryError::HigherRankedPredicate { .. } => "dyn bound cannot have higher ranked trait bounds"@,
        }
    }

    /// The message reported to the user.
    pub fn message(&self) -> (r: &'static str)
        ensures
            r@ == self.message_spec(),
    {
        match self {
            DynEntryError::MissingTrait { .. } => "dyn bound must have exactly 1 trait",
            DynEntryError::ExtraTrait { .. } => "dyn bound must have exactly 1 trait",
            DynEntryError::HigherRankedBound { .. } => "dyn bound cannot have higher ranked trait bounds",
            DynEntryError::BoundModifier { .. } => "dyn bound cannot have trait modifier",
            DynEntryError::NotATrait { .. } => "dyn bound must be a trait",
            DynEntryError::HigherRankedPredicate { .. } => "dyn bound cannot have higher ranked trait bounds",
        }
    }
}

/// What is wrong with a single bound of a `dyn` entry, if anything.
pub enum BoundFault {
    HigherRanked,
    Modifier,
    NotATrait,
}

/// The fault of a bound: a binder is reported before a modifier.
pub open spec fn bound_fault(b: BoundModel) -> Option<BoundFault> {
    match b {
        BoundModel::Trait { higher_ranked, modified, .. } => {
            if higher_ranked {
                Some(BoundFault::HigherRanked)
            } else if modified {
                Some(BoundFault::Modifier)
            } else {
                None
            }
        },
        BoundModel::Other => Some(BoundFault::NotATrait),
    }
}

/// The error for bound `k` of list `part` of predicate `i` with fault `f`.
pub open spec fn fault_error(f: BoundFault, i: usize, part: BoundPart, k: usize) -> DynEntryError {
    match f {
        BoundFault::HigherRanked => DynEntryError::HigherRankedBound { predicate: i, part, bound: k },
        BoundFault::Modifier => DynEntryError::BoundModifier { predicate: i, part, bound: k },
        BoundFault::NotATrait => DynEntryError::NotATrait { predicate: i, part, bound: k },
    }
}

/// The path of a trait bound.
pub open spec fn bound_path(b: BoundModel) -> PathView {
    match b {
        BoundModel::Trait { path, .. } => path@,
        BoundModel::Other => PathView { leading_colon: false, segments: Seq::empty() },
    }
}

/// The first faulty bound among the first `n` of `bs`.
pub open spec fn first_fault(bs: Seq<BoundModel>, n: nat) -> Option<(nat, BoundFault)>
    decreases n,
{
    if n == 0 {
        None
    } else {
        match first_fault(bs, (n - 1) as nat) {
            Some(r) => Some(r),
            None => match bound_fault(bs[n - 1]) {
                Some(f) => Some(((n - 1) as nat, f)),
                None => None,
            },
        }
    }
}

/// What the `i`-th predicate of a where clause, a `dyn` one, becomes.
pub open spec fn dyn_outcome(
    object: Seq<BoundModel>,
    by_ref: bool,
    higher_ranked: bool,
    bounds: Seq<BoundModel>,
    i: usize,
) -> Result<DynPredicateView, DynEntryError> {
    if object.len() == 0 {
        Err(DynEntryError::MissingTrait { predicate: i })
    } else if object.len() > 1 {
        Err(DynEntryError::ExtraTrait { predicate: i, bound: 1 })
    } else if bound_fault(object[0]) is Some {
        Err(fault_error(bound_fault(object[0]).unwrap(), i, BoundPart::Object, 0))
    } else if higher_ranked {
        Err(DynEntryError::HigherRankedPredicate { predicate: i })
    } else {
        match first_fault(bounds, bounds.len()) {
            Some((k, f)) => Err(fault_error(f, i, BoundPart::Bounds, k as usize)),
            None => Ok(
                DynPredicateView {
                    bounded_ty: bound_path(object[0]),
                    by_ref,
                    bounds: bounds.map_values(|b: BoundModel| bound_path(b)),
                },
            ),
        }
    }
}

/// The `dyn` entries and the kept predicates of the first `n` predicates,
/// or the error of the first rejected one.
pub open spec fn strip_spec<P>(preds: Seq<PredicateModel<P>>, n: nat) -> Result<
    (Seq<DynPredicateView>, Seq<P>),
    DynEntryError,
>
    decreases n,
{
    if n == 0 {
        Ok((Seq::empty(), Seq::empty()))
    } else {
        match strip_spec(preds, (n - 1) as nat) {
            Err(e) => Err(e),
            Ok((d, k)) => match classify(preds[n - 1]) {
                WherePredicateModel::Other(q) => Ok((d, k.push(q))),
                WherePredicateModel::Dyn { object, by_ref, higher_ranked, bounds } => match dyn_outcome(
                    object@,
                    by_ref,
                    higher_ranked,
                    bounds@,
                    (n - 1) as usize,
                ) {
                    Err(e) => Err(e),
                    Ok(v) => Ok((d.push(v), k)),
                },
            },
        }
    }
}

fn check_bound(b: &BoundModel) -> (r: Option<BoundFault>)
    ensures
        r == bound_fault(*b),
{
    match b {
        BoundModel::Trait { higher_ranked, modified, .. } => {
            if *higher_ranked {
                Some(BoundFault::HigherRanked)
            } else if *modified {
                Some(BoundFault::Modifier)
            } else {
                None
            }
        },
        BoundModel::Other => Some(BoundFault::NotATrait),
    }
}

fn make_fault_error(f: BoundFault, i: usize, part: BoundPart, k: usize) -> (r: DynEntryError)
    ensures
        r == fault_error(f, i, part, k),
{
    match f {
        BoundFault::HigherRanked => DynEntryError::HigherRankedBound { predicate: i, part, bound: k },
        BoundFault::Modifier => DynEntryError::BoundModifier { predicate: i, part, bound: k },
        BoundFault::NotATrait => DynEntryError::NotATrait { predicate: i, part, bound: k },
    }
}

proof fn lemma_first_fault_none(bs: Seq<BoundModel>, n: nat)
    requires
        n <= bs.len(),
        forall|k: int| 0 <= k < n ==> bound_fault(#[trigger] bs[k]) is None,
    ensures
        first_fault(bs, n) is None,
    decreases n,
{
    if n > 0 {
        lemma_first_fault_none(bs, (n - 1) as nat);
    }
}

proof fn lemma_first_fault_at(bs: Seq<BoundModel>, n: nat, k: nat)
    requires
        k < n <= bs.len(),
        forall|j: int| 0 <= j < k ==> bound_fault(#[trigger] bs[j]) is None,
        bound_fault(bs[k as int]) is Some,
    ensures
        first_fault(bs, n) == Some((k, bound_fault(bs[k as int]).unwrap())),
    decreases n,
{
    if n > k + 1 {
        lemma_first_fault_at(bs, (n - 1) as nat, k);
    } else {
        lemma_first_fault_none(bs, k);
    }
}

/// Turns the bounds of a `dyn` entry into paths, or reports the first bad one.
fn bound_paths(bounds: Vec<BoundModel>, i: usize) -> (r: Result<Vec<TraitPath>, DynEntryError>)
    ensures
        match first_fault(bounds@, bounds@.len()) {
            Some((k, f)) => r == Err::<Vec<TraitPath>, DynEntryError>(
                fault_error(f, i, BoundPart::Bounds, k as usize),
            ),
            None => (r matches Ok(ps) && paths_view(ps@) == bounds@.map_values(
                |b: BoundModel| bound_path(b),
            )),
        },
{
    let ghost all = bounds@;
    let total = bounds.len();
    let mut rest = bounds;
    let mut out: Vec<TraitPath> = Vec::new();
    let mut k: usize = 0;
    while rest.len() > 0
        invariant
            all == bounds@,
            all.len() == total,
            k + rest.len() == all.len(),
            rest@ == all.skip(k as int),
            out.len() == k,
            forall|j: int| 0 <= j < k ==> bound_fault(#[trigger] all[j]) is None,
            forall|j: int| 0 <= j < k ==> #[trigger] out@[j]@ == bound_path(all[j]),
        decreases rest.len(),
    {
        let b = rest.remove(0);
        assert(b == all[k as int]);
        match check_bound(&b) {
            Some(f) => {
                proof { lemma_first_fault_at(all, all.len(), k as nat); }
                return Err(make_fault_error(f, i, BoundPart::Bounds, k));
            },
            None => {},
        }
        match b {
            BoundModel::Trait { path, .. } => {
                out.push(path);
            },
            BoundModel::Other => {},
        }
        k = k + 1;
        assert(rest@ =~= all.skip(k as int));
    }
    proof { lemma_first_fault_none(all, all.len()); }
    assert(paths_view(out@) =~= all.map_values(|b: BoundModel| bound_path(b)));
    Ok(out)
}

/// Checks a `dyn` entry and turns it into a `DynPredicate`.
fn dyn_predicate(
    object: Vec<BoundModel>,
    by_ref: bool,
    higher_ranked: bool,
    bounds: Vec<BoundModel>,
    i: usize,
) -> (r: Result<DynPredicate, DynEntryError>)
    ensures
        match dyn_outcome(object@, by_ref, higher_ranked, bounds@, i) {
            Ok(v) => r matches Ok(p) && p@ == v,
            Err(e) => r == Err::<DynPredicate, DynEntryError>(e),
        },
{
    let ghost obj = object@;
    if object.len() == 0 {
        return Err(DynEntryError::MissingTrait { predicate: i });
    }
    if object.len() > 1 {
        return Err(DynEntryError::ExtraTrait { predicate: i, bound: 1 });
    }
    let mut object = object;
    let first = object.remove(0);
    assert(first == obj[0]);
    match check_bound(&first) {
        Some(f) => {
            return Err(make_fault_error(f, i, BoundPart::Object, 0));
        },
        None => {},
    }
    if higher_ranked {
        return Err(DynEntryError::HigherRankedPredicate { predicate: i });
    }
    let bounded_ty = match first {
        BoundModel::Trait { path, .. } => path,
        BoundModel::Other => TraitPath::new(false, Vec::new()),
    };
    match bound_paths(bounds, i) {
        Err(e) => Err(e),
        Ok(paths) => Ok(DynPredicate { bounded_ty, by_ref, bounds: paths }),
    }
}

/// Strips the `dyn` entries out of a where clause.
///
/// On success, returns the `dyn` entries in order and the other predicates,
/// also in order; the first predicate that is a malformed `dyn` entry is
/// reported otherwise.
pub fn strip_dyn_entries<P>(predicates: Vec<PredicateModel<P>>) -> (r: Result<
    (Vec<DynPredicate>, Vec<P>),
    DynEntryError,
>)
    ensures
        match strip_spec(predicates@, predicates@.len()) {
            Ok((d, k)) => (r matches Ok((ds, ks)) && dyn_predicates_view(ds@) == d && ks@ == k),
            Err(e) => r == Err::<(Vec<DynPredicate>, Vec<P>), DynEntryError>(e),
        },
{
    let ghost all = predicates@;
    let total = predicates.len();
    let mut rest = predicates;
    let mut entries: Vec<DynPredicate> = Vec::new();
    let mut kept: Vec<P> = Vec::new();
    let mut i: usize = 0;
    assert(dyn_predicates_view(entries@) =~= Seq::<DynPredicateView>::empty());
    assert(kept@ =~= Seq::<P>::empty());
    while rest.len() > 0
        invariant
            all == predicates@,
            all.len() == total,
            i + rest.len() == all.len(),
            rest@ == all.skip(i as int),
            strip_spec(all, i as nat) == Ok::<(Seq<DynPredicateView>, Seq<P>), DynEntryError>(
                (dyn_predicates_view(entries@), kept@),
            ),
        decreases rest.len(),
    {
        let p = rest.remove(0);
        assert(p == all[i as int]);
        match classify_predicate(p) {
            WherePredicateModel::Other(q) => {
                kept.push(q);
            },
            WherePredicateModel::Dyn { object, by_ref, higher_ranked, bounds } => {
                match dyn_predicate(object, by_ref, higher_ranked, bounds, i) {
                    Err(e) => {
                        assert(strip_spec(all, (i + 1) as nat) == Err::<
                            (Seq<DynPredicateView>, Seq<P>),
                            DynEntryError,
                        >(e));
                        proof { lemma_strip_err_sticks(all, (i + 1) as nat, all.len()); }
                        return Err(e);
                    },
                    Ok(d) => {
                        entries.push(d);
                    },
                }
            },
        }
        assert(dyn_predicates_view(entries@) =~= strip_spec(all, (i + 1) as nat)->Ok_0.0);
        i = i + 1;
        assert(rest@ =~= all.skip(i as int));
    }
    Ok((entries, kept))
}

proof fn lemma_strip_err_sticks<P>(preds: Seq<PredicateModel<P>>, n: nat, m: nat)
    requires
        n <= m,
        strip_spec(preds, n) is Err,
    ensures
        strip_spec(preds, m) == strip_spec(preds, n),
    decreases m,
{
    if m > n {
        lemma_strip_err_sticks(preds, n, (m - 1) as nat);
    }
}

/// The predicates of the first `n` that are not `dyn` entries, in order.
pub open spec fn other_predicates<P>(preds: Seq<PredicateModel<P>>, n: nat) -> Seq<P>
    decreases n,
{
    if n == 0 {
        Seq::empty()
    } else {
        match classify(preds[n - 1]) {
            WherePredicateModel::Other(q) => other_predicates(preds, (n - 1) as nat).push(q),
            WherePredicateModel::Dyn { .. } => other_predicates(preds, (n - 1) as nat),
        }
    }
}

/// The predicate as written.
pub open spec fn predicate_node<P>(p: PredicateModel<P>) -> P {
    match p {
        PredicateModel::Type { node, .. } => node,
        PredicateModel::Other(node) => node,
    }
}

/// Stripping partitions the where clause: when it succeeds, every predicate
/// is either a `dyn` entry or kept, the kept ones are exactly the predicates
/// that are not `dyn` entries, in their order, and a where clause without
/// `dyn` entries is kept whole.
pub proof fn lemma_strip_partitions<P>(preds: Seq<PredicateModel<P>>, n: nat)
    requires
        n <= preds.len(),
    ensures
        strip_spec(preds, n) matches Ok((d, k)) ==> {
            &&& k == other_predicates(preds, n)
            &&& d.len() + k.len() == n
        },
        (forall|i: int| 0 <= i < n ==> #[trigger] classify(preds[i]) is Other) ==> strip_spec(preds, n)
            == Ok::<(Seq<DynPredicateView>, Seq<P>), DynEntryError>(
            (Seq::empty(), preds.take(n as int).map_values(|p: PredicateModel<P>| predicate_node(p))),
        ),
    decreases n,
{
    if n > 0 {
        lemma_strip_partitions(preds, (n - 1) as nat);
        let m = (n - 1) as nat;
        assert(preds.take(n as int).map_values(|p: PredicateModel<P>| predicate_node(p))
            =~= preds.take(m as int).map_values(|p: PredicateModel<P>| predicate_node(p)).push(
            predicate_node(preds[m as int]),
        ));
    } else {
        assert(preds.take(0).map_values(|p: PredicateModel<P>| predicate_node(p)) =~= Seq::<P>::empty());
    }
}

} // verus!
