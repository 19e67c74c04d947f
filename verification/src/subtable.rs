//! Subtables: the vtables of bounded traits embedded in a trait's vtable.

use vstd::prelude::*;
use vstd::set_lib::{set_int_range, lemma_int_range, lemma_len_subset};
use crate::path::{TraitPath, PathView, paths_view, contains_path};
use crate::bounds::{DynPredicate, DynPredicateView, dyn_predicates_view};

verus! {

/// A direct or inherited subtable: the path of a bounded trait, whether it is
/// held by pointer (a direct subtable whose `dyn` entry was written `&dyn`;
/// an inherited subtable never is), and the subtables of its own vtable.
pub struct Subtable {
    pub path: TraitPath,
    pub by_ref: bool,
    pub subtables: Vec<Subtable>,
}

/// The value of a subtable graph.
pub struct SubtableView {
    pub path: PathView,
    pub by_ref: bool,
    pub subtables: Seq<SubtableView>,
}

impl View for Subtable {
    type V = SubtableView;

    open spec fn view(&self) -> SubtableView
        decreases self,
    {
        SubtableView {
            path: self.path@,
            by_ref: self.by_ref,
            subtables: Seq::new(
                self.subtables@.len(),
                |i: int|
                    if 0 <= i < self.subtables@.len() {
                        self.subtables@[i].view()
                    } else {
                        SubtableView { path: self.path@, by_ref: false, subtables: Seq::empty() }
                    },
            ),
        }
    }
}

} // verus!

verus! {

/// The index of the first of the first `n` entries whose bounded trait is `p`.
pub open spec fn entry_index(preds: Seq<DynPredicateView>, p: PathView, n: nat) -> Option<nat>
    decreases n,
{
    if n == 0 {
        None
    } else {
        match entry_index(preds, p, (n - 1) as nat) {
            Some(j) => Some(j),
            None => if preds[n - 1].bounded_ty == p {
                Some((n - 1) as nat)
            } else {
                None
            },
        }
    }
}

/// The `dyn` entry for the trait `p`, if there is one.
pub open spec fn lookup(preds: Seq<DynPredicateView>, p: PathView) -> Option<nat> {
    entry_index(preds, p, preds.len())
}

/// Whether the `dyn` entry for the trait `p`, if there is one, was written
/// `&dyn`.
pub open spec fn entry_by_ref(preds: Seq<DynPredicateView>, p: PathView) -> bool {
    match lookup(preds, p) {
        Some(j) => preds[j as int].by_ref,
        None => false,
    }
}

/// The subtable graph of `p`, cut off below depth `fuel`, as it is
/// inherited: held by value.
pub open spec fn graph(p: PathView, preds: Seq<DynPredicateView>, fuel: nat) -> SubtableView
    decreases fuel, 0nat,
{
    SubtableView {
        path: p,
        by_ref: false,
        subtables: if fuel == 0 || lookup(preds, p) is None {
            Seq::empty()
        } else {
            let cs = preds[lookup(preds, p).unwrap() as int].bounds;
            graphs(cs, preds, (fuel - 1) as nat, cs.len())
        },
    }
}

/// The subtable graphs of the first `n` paths of `cs`, cut off below depth `fuel`.
pub open spec fn graphs(cs: Seq<PathView>, preds: Seq<DynPredicateView>, fuel: nat, n: nat) -> Seq<
    SubtableView,
>
    decreases fuel, n + 1,
{
    if n == 0 {
        Seq::empty()
    } else {
        graphs(cs, preds, fuel, (n - 1) as nat).push(graph(cs[n - 1], preds, fuel))
    }
}

/// Every chain of `dyn` entries that starts at `p` holds at most `fuel` entries.
pub open spec fn depth_bounded(p: PathView, preds: Seq<DynPredicateView>, fuel: nat) -> bool
    decreases fuel, 0nat,
{
    match lookup(preds, p) {
        None => true,
        Some(j) => fuel > 0 && all_depth_bounded(
            preds[j as int].bounds,
            preds,
            (fuel - 1) as nat,
            preds[j as int].bounds.len(),
        ),
    }
}

/// Every chain of `dyn` entries that starts at one of the first `n` paths of
/// `cs` holds at most `fuel` entries.
pub open spec fn all_depth_bounded(
    cs: Seq<PathView>,
    preds: Seq<DynPredicateView>,
    fuel: nat,
    n: nat,
) -> bool
    decreases fuel, n + 1,
{
    n == 0 || (all_depth_bounded(cs, preds, fuel, (n - 1) as nat) && depth_bounded(
        cs[n - 1],
        preds,
        fuel,
    ))
}

/// The depth to which subtable graphs are followed: a chain of `dyn` entries
/// without a cycle passes through each entry at most once.
pub open spec fn graph_fuel(preds: Seq<DynPredicateView>) -> nat {
    preds.len()
}

/// The bounds listed by the first `i` entries, in order.
pub open spec fn listed_bounds(preds: Seq<DynPredicateView>, i: nat) -> Seq<PathView>
    decreases i,
{
    if i == 0 {
        Seq::empty()
    } else {
        listed_bounds(preds, (i - 1) as nat) + preds[i - 1].bounds
    }
}

/// Bound `k` of entry `i` was already specified, by an earlier entry or
/// earlier in the same entry.
pub open spec fn specified_before(preds: Seq<DynPredicateView>, i: nat, k: nat) -> bool {
    (listed_bounds(preds, i) + preds[i as int].bounds.take(k as int)).contains(
        preds[i as int].bounds[k as int],
    )
}

/// The first of the first `n` bounds of entry `i` that was already specified.
pub open spec fn first_duplicate(preds: Seq<DynPredicateView>, i: nat, n: nat) -> Option<nat>
    decreases n,
{
    if n == 0 {
        None
    } else {
        match first_duplicate(preds, i, (n - 1) as nat) {
            Some(k) => Some(k),
            None => if specified_before(preds, i, (n - 1) as nat) {
                Some((n - 1) as nat)
            } else {
                None
            },
        }
    }
}

/// Why a set of `dyn` entries does not describe the subtables of a trait.
/// `predicate` indexes the `dyn` entries, `bound` the bounds of one entry,
/// `root` the trait bounds of the trait.
#[derive(PartialEq, Eq, Structural)]
pub enum SubtableError {
    /// A bound is specified by more than one entry, or twice in one.
    DuplicatePath { predicate: usize, bound: usize },
    /// Two entries bound the same trait.
    AlreadyListed { predicate: usize },
    /// An entry is not reached from any trait bound of the trait.
    Unrelated { predicate: usize },
    /// An entry written `&dyn` bounds a trait that is not a trait bound of
    /// the trait: only direct subtables can be held by pointer.
    NestedReference { predicate: usize },
    /// The entries reached from a trait bound form a cycle.
    Cyclic { root: usize },
}

impl SubtableError {
    /// The message reported to the user.
    pub open spec fn message_spec(&self) -> Seq<char> {
        match self {
            SubtableError::DuplicatePath { .. } => "exactly one path to an inherited trait bound must be specified (this path is a duplicate)"@,
            SubtableError::AlreadyListed { .. } => "supertrait already listed"@,
            SubtableError::Unrelated { .. } => "dyn trait bound has no relation to the defined trait. dyn bounds must match a direct trait bound or indirect trait bound (through a different dyn bound)"@,
            SubtableError::Cyclic { .. } => "dyn trait bounds form a cycle"@,
            SubtableError::NestedReference { .. } => "reference qualifiers can only be used on toplevel subtables"@,
        }
    }

    /// The message reported to the user.
    pub fn message(&self) -> (r: &'static str)
        ensures
            r@ == self.message_spec(),
    {
        match self {
            SubtableError::DuplicatePath { .. } => "exactly one path to an inherited trait bound must be specified (this path is a duplicate)",
            SubtableError::AlreadyListed { .. } => "supertrait already listed",
            SubtableError::Unrelated { .. } => "dyn trait bound has no relation to the defined trait. dyn bounds must match a direct trait bound or indirect trait bound (through a different dyn bound)",
            SubtableError::Cyclic { .. } => "dyn trait bounds form a cycle",
            SubtableError::NestedReference { .. } => "reference qualifiers can only be used on toplevel subtables",
        }
    }
}

/// The error of entry `i` alone, given the entries before it.
pub open spec fn entry_error(preds: Seq<DynPredicateView>, i: nat) -> Option<SubtableError> {
    if entry_index(preds, preds[i as int].bounded_ty, i) is Some {
        Some(SubtableError::AlreadyListed { predicate: i as usize })
    } else {
        match first_duplicate(preds, i, preds[i as int].bounds.len()) {
            Some(k) => Some(SubtableError::DuplicatePath { predicate: i as usize, bound: k as usize }),
            None => None,
        }
    }
}

/// The first error among the first `n` entries.
pub open spec fn entries_error(preds: Seq<DynPredicateView>, n: nat) -> Option<SubtableError>
    decreases n,
{
    if n == 0 {
        None
    } else {
        match entries_error(preds, (n - 1) as nat) {
            Some(e) => Some(e),
            None => entry_error(preds, (n - 1) as nat),
        }
    }
}

/// The first of the first `n` trait bounds that has an entry and whose
/// chains of entries are not bounded.
pub open spec fn first_cyclic(roots: Seq<PathView>, preds: Seq<DynPredicateView>, n: nat) -> Option<nat>
    decreases n,
{
    if n == 0 {
        None
    } else {
        match first_cyclic(roots, preds, (n - 1) as nat) {
            Some(r) => Some(r),
            None => if lookup(preds, roots[n - 1]) is Some && !depth_bounded(
                roots[n - 1],
                preds,
                graph_fuel(preds),
            ) {
                Some((n - 1) as nat)
            } else {
                None
            },
        }
    }
}

/// The subtable graph of the trait bound `p` as a direct subtable: held by
/// pointer when its `dyn` entry was written `&dyn`.
pub open spec fn top_graph(p: PathView, preds: Seq<DynPredicateView>) -> SubtableView {
    let g = graph(p, preds, graph_fuel(preds));
    SubtableView { path: g.path, by_ref: entry_by_ref(preds, p), subtables: g.subtables }
}

/// The first of the first `n` entries that is written `&dyn` but bounds a
/// trait that is not one of the trait bounds `roots`: only direct subtables
/// can be held by pointer.
pub open spec fn first_nested_ref(roots: Seq<PathView>, preds: Seq<DynPredicateView>, n: nat) -> Option<nat>
    decreases n,
{
    if n == 0 {
        None
    } else {
        match first_nested_ref(roots, preds, (n - 1) as nat) {
            Some(i) => Some(i),
            None => if preds[n - 1].by_ref && !roots.contains(preds[n - 1].bounded_ty) {
                Some((n - 1) as nat)
            } else {
                None
            },
        }
    }
}

/// The subtable graphs of the first `n` trait bounds that have an entry.
pub open spec fn forest(roots: Seq<PathView>, preds: Seq<DynPredicateView>, n: nat) -> Seq<
    SubtableView,
>
    decreases n,
{
    if n == 0 {
        Seq::empty()
    } else if lookup(preds, roots[n - 1]) is Some {
        forest(roots, preds, (n - 1) as nat).push(top_graph(roots[n - 1], preds))
    } else {
        forest(roots, preds, (n - 1) as nat)
    }
}

/// Whether the path `p` occurs in the subtable graph `t`.
pub open spec fn tree_contains(t: SubtableView, p: PathView) -> bool
    decreases t, 0nat,
{
    t.path == p || trees_contain(t.subtables, p, t.subtables.len())
}

/// Whether the path `p` occurs in one of the first `n` graphs of `ts`.
pub open spec fn trees_contain(ts: Seq<SubtableView>, p: PathView, n: nat) -> bool
    decreases ts, n + 1,
{
    if n == 0 || n > ts.len() {
        false
    } else {
        trees_contain(ts, p, (n - 1) as nat) || tree_contains(ts[n - 1], p)
    }
}

/// Whether the path `p` occurs in one of the graphs `f`.
pub open spec fn forest_contains(f: Seq<SubtableView>, p: PathView) -> bool {
    trees_contain(f, p, f.len())
}

/// The first of the first `n` entries whose bounded trait occurs in none of `f`.
pub open spec fn first_unused(preds: Seq<DynPredicateView>, f: Seq<SubtableView>, n: nat) -> Option<nat>
    decreases n,
{
    if n == 0 {
        None
    } else {
        match first_unused(preds, f, (n - 1) as nat) {
            Some(i) => Some(i),
            None => if !forest_contains(f, preds[n - 1].bounded_ty) {
                Some((n - 1) as nat)
            } else {
                None
            },
        }
    }
}

/// The subtable graphs of a trait with trait bounds `roots` and `dyn`
/// entries `preds`: one graph for each trait bound that has an entry, in the
/// order of the bounds, or the first error.
pub open spec fn solve_spec(roots: Seq<PathView>, preds: Seq<DynPredicateView>) -> Result<
    Seq<SubtableView>,
    SubtableError,
> {
    match entries_error(preds, preds.len()) {
        Some(e) => Err(e),
        None => match first_nested_ref(roots, preds, preds.len()) {
            Some(i) => Err(SubtableError::NestedReference { predicate: i as usize }),
            None => match first_cyclic(roots, preds, roots.len()) {
                Some(r) => Err(SubtableError::Cyclic { root: r as usize }),
                None => {
                    let f = forest(roots, preds, roots.len());
                    match first_unused(preds, f, preds.len()) {
                        Some(i) => Err(SubtableError::Unrelated { predicate: i as usize }),
                        None => Ok(f),
                    }
                },
            },
        },
    }
}

/// The views of a sequence of subtables.
pub open spec fn subtables_view(s: Seq<Subtable>) -> Seq<SubtableView> {
    s.map_values(|t: Subtable| t@)
}

} // verus!

verus! {

proof fn lemma_entry_index_stable(preds: Seq<DynPredicateView>, p: PathView, m: nat, n: nat)
    requires
        m <= n,
        entry_index(preds, p, m) is Some,
    ensures
        entry_index(preds, p, n) == entry_index(preds, p, m),
    decreases n,
{
    if n > m {
        lemma_entry_index_stable(preds, p, m, (n - 1) as nat);
    }
}

/// The first of the first `n` entries whose bounded trait is `p`.
fn find_entry(preds: &Vec<DynPredicate>, p: &TraitPath, n: usize) -> (r: Option<usize>)
    requires
        n <= preds.len(),
    ensures
        match r {
            Some(j) => entry_index(dyn_predicates_view(preds@), p@, n as nat) == Some(j as nat) && j
                < n,
            None => entry_index(dyn_predicates_view(preds@), p@, n as nat) is None,
        },
{
    let ghost v = dyn_predicates_view(preds@);
    let mut i: usize = 0;
    while i < n
        invariant
            i <= n <= preds.len(),
            v == dyn_predicates_view(preds@),
            entry_index(v, p@, i as nat) is None,
        decreases n - i,
    {
        if preds[i].bounded_ty.same_as(p) {
            assert(entry_index(v, p@, (i + 1) as nat) == Some(i as nat));
            proof { lemma_entry_index_stable(v, p@, (i + 1) as nat, n as nat); }
            return Some(i);
        }
        i = i + 1;
    }
    None
}

/// Whether every chain of entries from `p` holds at most `fuel` entries.
fn depth_ok(p: &TraitPath, preds: &Vec<DynPredicate>, fuel: usize) -> (r: bool)
    ensures
        r == depth_bounded(p@, dyn_predicates_view(preds@), fuel as nat),
    decreases fuel, 0nat,
{
    let ghost v = dyn_predicates_view(preds@);
    match find_entry(preds, p, preds.len()) {
        None => true,
        Some(j) => {
            if fuel == 0 {
                return false;
            }
            assert(v[j as int].bounds == paths_view(preds@[j as int].bounds@));
            all_depth_ok(&preds[j].bounds, preds, fuel - 1, preds[j].bounds.len())
        },
    }
}

/// Whether every chain of entries from one of the first `n` of `cs` holds at
/// most `fuel` entries.
fn all_depth_ok(cs: &Vec<TraitPath>, preds: &Vec<DynPredicate>, fuel: usize, n: usize) -> (r: bool)
    requires
        n <= cs.len(),
    ensures
        r == all_depth_bounded(paths_view(cs@), dyn_predicates_view(preds@), fuel as nat, n as nat),
    decreases fuel, n + 1,
{
    if n == 0 {
        true
    } else {
        let first = all_depth_ok(cs, preds, fuel, n - 1);
        if !first {
            false
        } else {
            depth_ok(&cs[n - 1], preds, fuel)
        }
    }
}

/// Recursively graphs the supertraits of `path` into nested subtables.
///
/// `dyn A: B + C, dyn B: D` graphs `A` into `A { B { D }, C }`.
fn graph_subtables(path: &TraitPath, preds: &Vec<DynPredicate>, fuel: usize) -> (r: Subtable)
    requires
        depth_bounded(path@, dyn_predicates_view(preds@), fuel as nat),
    ensures
        r@ == graph(path@, dyn_predicates_view(preds@), fuel as nat),
    decreases fuel, 0nat,
{
    let ghost v = dyn_predicates_view(preds@);
    let subtables = match find_entry(preds, path, preds.len()) {
        None => Vec::new(),
        Some(j) => {
            assert(v[j as int].bounds == paths_view(preds@[j as int].bounds@));
            graph_all(&preds[j].bounds, preds, fuel - 1, preds[j].bounds.len())
        },
    };
    let r = Subtable { path: path.duplicate(), by_ref: false, subtables };
    assert(r@.subtables =~= graph(path@, v, fuel as nat).subtables);
    r
}

/// The subtable graphs of the first `n` of `cs`.
fn graph_all(cs: &Vec<TraitPath>, preds: &Vec<DynPredicate>, fuel: usize, n: usize) -> (r: Vec<
    Subtable,
>)
    requires
        n <= cs.len(),
        all_depth_bounded(paths_view(cs@), dyn_predicates_view(preds@), fuel as nat, n as nat),
    ensures
        subtables_view(r@) == graphs(
            paths_view(cs@),
            dyn_predicates_view(preds@),
            fuel as nat,
            n as nat,
        ),
    decreases fuel, n + 1,
{
    if n == 0 {
        let r: Vec<Subtable> = Vec::new();
        assert(subtables_view(r@) =~= Seq::<SubtableView>::empty());
        r
    } else {
        let mut r = graph_all(cs, preds, fuel, n - 1);
        let t = graph_subtables(&cs[n - 1], preds, fuel);
        let ghost before = r@;
        r.push(t);
        assert(subtables_view(r@) =~= subtables_view(before).push(t@));
        r
    }
}

impl Subtable {
    /// The view of the children of this subtable.
    proof fn lemma_children_view(&self)
        ensures
            self@.subtables == subtables_view(self.subtables@),
    {
        assert(self@.subtables =~= subtables_view(self.subtables@));
    }

    /// Whether `p` occurs in this subtable graph.
    pub fn contains(&self, p: &TraitPath) -> (r: bool)
        ensures
            r == tree_contains(self@, p@),
        decreases self, 0nat,
    {
        proof { self.lemma_children_view(); }
        if self.path.same_as(p) {
            true
        } else {
            any_contains(&self.subtables, p, self.subtables.len())
        }
    }
}

/// Whether `p` occurs in one of the first `n` subtable graphs of `ts`.
fn any_contains(ts: &Vec<Subtable>, p: &TraitPath, n: usize) -> (r: bool)
    requires
        n <= ts.len(),
    ensures
        r == trees_contain(subtables_view(ts@), p@, n as nat),
    decreases ts, n + 1,
{
    if n == 0 {
        false
    } else if any_contains(ts, p, n - 1) {
        true
    } else {
        assert(decreases_to!(ts => ts@[n - 1]));
        ts[n - 1].contains(p)
    }
}

proof fn lemma_entries_error_sticks(preds: Seq<DynPredicateView>, n: nat, m: nat)
    requires
        n <= m,
        entries_error(preds, n) is Some,
    ensures
        entries_error(preds, m) == entries_error(preds, n),
    decreases m,
{
    if m > n {
        lemma_entries_error_sticks(preds, n, (m - 1) as nat);
    }
}

proof fn lemma_first_duplicate_sticks(preds: Seq<DynPredicateView>, i: nat, n: nat, m: nat)
    requires
        n <= m,
        first_duplicate(preds, i, n) is Some,
    ensures
        first_duplicate(preds, i, m) == first_duplicate(preds, i, n),
    decreases m,
{
    if m > n {
        lemma_first_duplicate_sticks(preds, i, n, (m - 1) as nat);
    }
}

proof fn lemma_first_cyclic_sticks(roots: Seq<PathView>, preds: Seq<DynPredicateView>, n: nat, m: nat)
    requires
        n <= m,
        first_cyclic(roots, preds, n) is Some,
    ensures
        first_cyclic(roots, preds, m) == first_cyclic(roots, preds, n),
    decreases m,
{
    if m > n {
        lemma_first_cyclic_sticks(roots, preds, n, (m - 1) as nat);
    }
}

proof fn lemma_first_nested_ref_sticks(roots: Seq<PathView>, preds: Seq<DynPredicateView>, n: nat, m: nat)
    requires
        n <= m,
        first_nested_ref(roots, preds, n) is Some,
    ensures
        first_nested_ref(roots, preds, m) == first_nested_ref(roots, preds, n),
    decreases m,
{
    if m > n {
        lemma_first_nested_ref_sticks(roots, preds, n, (m - 1) as nat);
    }
}

proof fn lemma_first_unused_sticks(preds: Seq<DynPredicateView>, f: Seq<SubtableView>, n: nat, m: nat)
    requires
        n <= m,
        first_unused(preds, f, n) is Some,
    ensures
        first_unused(preds, f, m) == first_unused(preds, f, n),
    decreases m,
{
    if m > n {
        lemma_first_unused_sticks(preds, f, n, (m - 1) as nat);
    }
}

/// Checks that no bounded trait is listed twice and that every bound is
/// specified once over all entries.
fn check_entries(preds: &Vec<DynPredicate>) -> (r: Option<SubtableError>)
    ensures
        r == entries_error(dyn_predicates_view(preds@), preds@.len()),
{
    let ghost v = dyn_predicates_view(preds@);
    let mut specified: Vec<TraitPath> = Vec::new();
    let mut i: usize = 0;
    while i < preds.len()
        invariant
            i <= preds.len(),
            v == dyn_predicates_view(preds@),
            entries_error(v, i as nat) is None,
            paths_view(specified@) == listed_bounds(v, i as nat),
        decreases preds.len() - i,
    {
        if find_entry(preds, &preds[i].bounded_ty, i).is_some() {
            assert(entry_error(v, i as nat) == Some(SubtableError::AlreadyListed { predicate: i }));
            proof { lemma_entries_error_sticks(v, (i + 1) as nat, v.len()); }
            return Some(SubtableError::AlreadyListed { predicate: i });
        }
        let bounds = &preds[i].bounds;
        assert(v[i as int].bounds == paths_view(bounds@));
        let mut k: usize = 0;
        while k < bounds.len()
            invariant
                i < preds.len(),
                k <= bounds.len(),
                v == dyn_predicates_view(preds@),
                bounds == &preds@[i as int].bounds,
                v[i as int].bounds == paths_view(bounds@),
                entries_error(v, i as nat) is None,
                entry_index(v, v[i as int].bounded_ty, i as nat) is None,
                first_duplicate(v, i as nat, k as nat) is None,
                paths_view(specified@) == listed_bounds(v, i as nat) + v[i as int].bounds.take(
                    k as int,
                ),
            decreases bounds.len() - k,
        {
            assert(paths_view(bounds@)[k as int] == bounds@[k as int]@);
            if contains_path(&specified, &bounds[k]) {
                assert(specified_before(v, i as nat, k as nat));
                assert(first_duplicate(v, i as nat, (k + 1) as nat) == Some(k as nat));
                proof {
                    lemma_first_duplicate_sticks(v, i as nat, (k + 1) as nat, v[i as int].bounds.len());
                }
                assert(entries_error(v, (i + 1) as nat) == Some(
                    SubtableError::DuplicatePath { predicate: i, bound: k },
                ));
                proof { lemma_entries_error_sticks(v, (i + 1) as nat, v.len()); }
                return Some(SubtableError::DuplicatePath { predicate: i, bound: k });
            }
            let ghost before = specified@;
            specified.push(bounds[k].duplicate());
            assert(paths_view(specified@) =~= paths_view(before).push(bounds@[k as int]@));
            assert(v[i as int].bounds.take((k + 1) as int) =~= v[i as int].bounds.take(
                k as int,
            ).push(v[i as int].bounds[k as int]));
            k = k + 1;
        }
        assert(v[i as int].bounds.take(k as int) =~= v[i as int].bounds);
        assert(entry_error(v, i as nat) is None);
        i = i + 1;
    }
    None
}

/// Builds the subtable graphs of a trait from its trait bounds `roots` and
/// the `dyn` entries of its where clause.
///
/// Each trait bound that has an entry becomes a graph, in the order of the
/// bounds. It is an error for a bounded trait to have two entries, for a
/// bound to be specified twice, for an entry to be reached from no trait
/// bound, and for the entries to form a cycle.
pub fn solve_subtables(roots: &Vec<TraitPath>, preds: &Vec<DynPredicate>) -> (r: Result<
    Vec<Subtable>,
    SubtableError,
>)
    ensures
        match solve_spec(paths_view(roots@), dyn_predicates_view(preds@)) {
            Ok(f) => (r matches Ok(s) && subtables_view(s@) == f),
            Err(e) => r == Err::<Vec<Subtable>, SubtableError>(e),
        },
{
    let ghost v = dyn_predicates_view(preds@);
    let ghost rv = paths_view(roots@);
    match check_entries(preds) {
        Some(e) => {
            return Err(e);
        },
        None => {},
    }
    let mut k: usize = 0;
    while k < preds.len()
        invariant
            k <= preds.len(),
            v == dyn_predicates_view(preds@),
            rv == paths_view(roots@),
            entries_error(v, v.len()) is None,
            first_nested_ref(rv, v, k as nat) is None,
        decreases preds.len() - k,
    {
        if preds[k].by_ref && !contains_path(roots, &preds[k].bounded_ty) {
            assert(first_nested_ref(rv, v, (k + 1) as nat) == Some(k as nat));
            proof { lemma_first_nested_ref_sticks(rv, v, (k + 1) as nat, v.len()); }
            return Err(SubtableError::NestedReference { predicate: k });
        }
        k = k + 1;
    }
    let mut out: Vec<Subtable> = Vec::new();
    let mut n: usize = 0;
    assert(subtables_view(out@) =~= Seq::<SubtableView>::empty());
    while n < roots.len()
        invariant
            n <= roots.len(),
            v == dyn_predicates_view(preds@),
            rv == paths_view(roots@),
            entries_error(v, v.len()) is None,
            first_nested_ref(rv, v, v.len()) is None,
            first_cyclic(rv, v, n as nat) is None,
            subtables_view(out@) == forest(rv, v, n as nat),
        decreases roots.len() - n,
    {
        assert(rv[n as int] == roots@[n as int]@);
        if let Some(j) = find_entry(preds, &roots[n], preds.len()) {
            if !depth_ok(&roots[n], preds, preds.len()) {
                assert(first_cyclic(rv, v, (n + 1) as nat) == Some(n as nat));
                proof { lemma_first_cyclic_sticks(rv, v, (n + 1) as nat, rv.len()); }
                return Err(SubtableError::Cyclic { root: n });
            }
            let mut t = graph_subtables(&roots[n], preds, preds.len());
            let ghost g = t@;
            t.by_ref = preds[j].by_ref;
            assert(t@.subtables =~= g.subtables);
            assert(t@ == top_graph(rv[n as int], v));
            let ghost before = out@;
            out.push(t);
            assert(subtables_view(out@) =~= subtables_view(before).push(t@));
        }
        n = n + 1;
    }
    let ghost f = subtables_view(out@);
    let mut i: usize = 0;
    while i < preds.len()
        invariant
            i <= preds.len(),
            v == dyn_predicates_view(preds@),
            f == subtables_view(out@),
            rv == paths_view(roots@),
            entries_error(v, v.len()) is None,
            first_nested_ref(rv, v, v.len()) is None,
            first_cyclic(rv, v, rv.len()) is None,
            f == forest(rv, v, rv.len()),
            first_unused(v, f, i as nat) is None,
        decreases preds.len() - i,
    {
        if !any_contains(&out, &preds[i].bounded_ty, out.len()) {
            assert(first_unused(v, f, (i + 1) as nat) == Some(i as nat));
            proof { lemma_first_unused_sticks(v, f, (i + 1) as nat, v.len()); }
            return Err(SubtableError::Unrelated { predicate: i });
        }
        i = i + 1;
    }
    Ok(out)
}

proof fn lemma_first_unused_none(preds: Seq<DynPredicateView>, f: Seq<SubtableView>, n: nat)
    requires
        n <= preds.len(),
        first_unused(preds, f, n) is None,
    ensures
        forall|i: int| 0 <= i < n ==> forest_contains(f, #[trigger] preds[i].bounded_ty),
    decreases n,
{
    if n > 0 {
        lemma_first_unused_none(preds, f, (n - 1) as nat);
    }
}

proof fn lemma_first_nested_ref_none(roots: Seq<PathView>, preds: Seq<DynPredicateView>, n: nat)
    requires
        n <= preds.len(),
    ensures
        first_nested_ref(roots, preds, n) is None ==> forall|i: int|
            0 <= i < n && (#[trigger] preds[i]).by_ref ==> roots.contains(preds[i].bounded_ty),
    decreases n,
{
    if n > 0 {
        lemma_first_nested_ref_none(roots, preds, (n - 1) as nat);
    }
}

proof fn lemma_forest_roots(roots: Seq<PathView>, preds: Seq<DynPredicateView>, n: nat)
    requires
        n <= roots.len(),
    ensures
        forest(roots, preds, n).len() <= n,
        forall|k: int|
            0 <= k < forest(roots, preds, n).len() ==> {
                let t = #[trigger] forest(roots, preds, n)[k];
                &&& roots.take(n as int).contains(t.path)
                &&& lookup(preds, t.path) is Some
                &&& t == top_graph(t.path, preds)
            },
    decreases n,
{
    if n > 0 {
        lemma_forest_roots(roots, preds, (n - 1) as nat);
        let prev = forest(roots, preds, (n - 1) as nat);
        assert forall|k: int| 0 <= k < forest(roots, preds, n).len() implies roots.take(
            n as int,
        ).contains(#[trigger] forest(roots, preds, n)[k].path) by {
            if k < prev.len() {
                let q = prev[k].path;
                let w = choose|w: int| 0 <= w < n - 1 && #[trigger] roots.take((n - 1) as int)[w] == q;
                assert(roots.take(n as int)[w] == q);
            } else {
                assert(roots.take(n as int)[n - 1] == roots[n - 1]);
            }
        }
    }
}

/// What a successful solution holds: one graph for each trait bound that has
/// a `dyn` entry, in the order of the bounds, each the graph of that bound,
/// held by pointer only if its own entry says so; every `dyn` entry's
/// bounded trait occurs in one of the graphs; and every entry written
/// `&dyn` bounds a trait bound.
pub proof fn lemma_solution_covers(roots: Seq<PathView>, preds: Seq<DynPredicateView>)
    ensures
        solve_spec(roots, preds) matches Ok(f) ==> {
            &&& f.len() <= roots.len()
            &&& forall|k: int|
                0 <= k < f.len() ==> {
                    &&& roots.contains(#[trigger] f[k].path)
                    &&& lookup(preds, f[k].path) is Some
                    &&& f[k] == top_graph(f[k].path, preds)
                }
            &&& forall|i: int| 0 <= i < preds.len() ==> forest_contains(f, #[trigger] preds[i].bounded_ty)
            &&& forall|i: int| 0 <= i < preds.len() && (#[trigger] preds[i]).by_ref ==> roots.contains(
                preds[i].bounded_ty,
            )
        },
{
    let f = forest(roots, preds, roots.len());
    lemma_forest_roots(roots, preds, roots.len());
    assert(roots.take(roots.len() as int) =~= roots);
    if first_unused(preds, f, preds.len()) is None {
        lemma_first_unused_none(preds, f, preds.len());
    }
    lemma_first_nested_ref_none(roots, preds, preds.len());
}

/// One step of a chain of `dyn` entries: entry `j` bounds a trait that has
/// entry `k`.
pub open spec fn entry_step(preds: Seq<DynPredicateView>, j: int, k: int) -> bool {
    exists|b: int|
        0 <= b < preds[j].bounds.len() && lookup(preds, #[trigger] preds[j].bounds[b]) == Some(k as nat)
}

/// `c` is a chain of entries, each bounding a trait whose entry is the next.
pub open spec fn is_chain(preds: Seq<DynPredicateView>, c: Seq<int>) -> bool {
    &&& forall|i: int| 0 <= i < c.len() ==> 0 <= #[trigger] c[i] < preds.len()
    &&& forall|i: int, j: int|
        0 <= i && j == i + 1 && j < c.len() ==> entry_step(preds, #[trigger] c[i], #[trigger] c[j])
}

/// The entries form a cycle: a chain that comes back to where it started.
pub open spec fn has_cycle(preds: Seq<DynPredicateView>) -> bool {
    exists|c: Seq<int>| #[trigger] is_chain(preds, c) && c.len() >= 2 && c[0] == c[c.len() - 1]
}

proof fn lemma_entry_index_bound(preds: Seq<DynPredicateView>, p: PathView, n: nat)
    ensures
        entry_index(preds, p, n) matches Some(j) ==> j < n && preds[j as int].bounded_ty == p,
    decreases n,
{
    if n > 0 {
        lemma_entry_index_bound(preds, p, (n - 1) as nat);
    }
}

proof fn lemma_some_unbounded(cs: Seq<PathView>, preds: Seq<DynPredicateView>, fuel: nat, n: nat) -> (b: int)
    requires
        n <= cs.len(),
        !all_depth_bounded(cs, preds, fuel, n),
    ensures
        0 <= b < n,
        !depth_bounded(cs[b], preds, fuel),
    decreases n,
{
    if all_depth_bounded(cs, preds, fuel, (n - 1) as nat) {
        n - 1
    } else {
        lemma_some_unbounded(cs, preds, fuel, (n - 1) as nat)
    }
}

/// A trait whose chains of entries are not bounded by `fuel` starts a chain
/// of `fuel + 1` entries.
proof fn lemma_unbounded_chain(p: PathView, preds: Seq<DynPredicateView>, fuel: nat) -> (c: Seq<int>)
    requires
        !depth_bounded(p, preds, fuel),
    ensures
        is_chain(preds, c),
        c.len() == fuel + 1,
        lookup(preds, p) == Some(c[0] as nat),
    decreases fuel,
{
    lemma_entry_index_bound(preds, p, preds.len());
    let j = lookup(preds, p).unwrap() as int;
    if fuel == 0 {
        seq![j]
    } else {
        let cs = preds[j].bounds;
        let b = lemma_some_unbounded(cs, preds, (fuel - 1) as nat, cs.len());
        let rest = lemma_unbounded_chain(cs[b], preds, (fuel - 1) as nat);
        let c = seq![j] + rest;
        assert(entry_step(preds, j, rest[0]));
        assert forall|i: int, k: int| 0 <= i && k == i + 1 && k < c.len() implies entry_step(
            preds,
            #[trigger] c[i],
            #[trigger] c[k],
        ) by {
            if i > 0 {
                assert(c[i] == rest[i - 1] && c[k] == rest[k - 1]);
            }
        }
        assert forall|i: int| 0 <= i < c.len() implies 0 <= #[trigger] c[i] < preds.len() by {
            if i > 0 {
                assert(c[i] == rest[i - 1]);
            }
        }
        c
    }
}

/// A sequence of more than `n` values below `n` repeats one.
proof fn lemma_pigeonhole(c: Seq<int>, n: int) -> (r: (int, int))
    requires
        0 <= n < c.len(),
        forall|i: int| 0 <= i < c.len() ==> 0 <= #[trigger] c[i] < n,
    ensures
        0 <= r.0 < r.1 < c.len(),
        c[r.0] == c[r.1],
{
    if c.no_duplicates() {
        c.unique_seq_to_set();
        lemma_int_range(0, n);
        assert(c.to_set().subset_of(set_int_range(0, n)));
        lemma_len_subset(c.to_set(), set_int_range(0, n));
        assert(false);
    }
    let (i, l) = choose|i: int, l: int| 0 <= i < c.len() && 0 <= l < c.len() && i != l && c[i] == c[l];
    if i < l {
        (i, l)
    } else {
        (l, i)
    }
}

proof fn lemma_entries_error_not_cyclic(preds: Seq<DynPredicateView>, n: nat)
    ensures
        entries_error(preds, n) matches Some(e) ==> !(e is Cyclic),
    decreases n,
{
    if n > 0 {
        lemma_entries_error_not_cyclic(preds, (n - 1) as nat);
    }
}

proof fn lemma_first_cyclic_found(roots: Seq<PathView>, preds: Seq<DynPredicateView>, n: nat)
    requires
        n <= roots.len(),
    ensures
        first_cyclic(roots, preds, n) matches Some(r) ==> r < n && !depth_bounded(
            roots[r as int],
            preds,
            graph_fuel(preds),
        ),
    decreases n,
{
    if n > 0 {
        lemma_first_cyclic_found(roots, preds, (n - 1) as nat);
    }
}

/// The cycle error is reported only for entries that do form a cycle: a
/// chain of entries, each bounding the trait of the next, that comes back to
/// its start. Entries without a cycle are never refused as cyclic.
pub proof fn lemma_cyclic_error_means_cycle(roots: Seq<PathView>, preds: Seq<DynPredicateView>)
    ensures
        solve_spec(roots, preds) matches Err(SubtableError::Cyclic { .. }) ==> has_cycle(preds),
{
    lemma_first_cyclic_found(roots, preds, roots.len());
    if let Some(r) = first_cyclic(roots, preds, roots.len()) {
        let n = preds.len();
        let c = lemma_unbounded_chain(roots[r as int], preds, n);
        let (i, l) = lemma_pigeonhole(c, n as int);
        let d = c.subrange(i, l + 1);
        assert forall|a: int, b: int| 0 <= a && b == a + 1 && b < d.len() implies entry_step(
            preds,
            #[trigger] d[a],
            #[trigger] d[b],
        ) by {
            assert(d[a] == c[i + a] && d[b] == c[i + b]);
        }
        assert(is_chain(preds, d));
        assert(d.len() >= 2 && d[0] == d[d.len() - 1]);
        assert(has_cycle(preds));
    } else {
        lemma_entries_error_not_cyclic(preds, preds.len());
    }
}

/// A direct subtable is held by pointer exactly when the `dyn` entry of its
/// own trait was written `&dyn`; the subtables it inherits are held by
/// value, one for each bound its entry lists, in the order listed.
pub proof fn lemma_solution_by_ref(roots: Seq<PathView>, preds: Seq<DynPredicateView>)
    ensures
        solve_spec(roots, preds) matches Ok(f) ==> forall|k: int|
            0 <= k < f.len() ==> {
                &&& lookup(preds, (#[trigger] f[k]).path) is Some
                &&& f[k].by_ref == preds[lookup(preds, f[k].path).unwrap() as int].by_ref
                &&& forall|c: int| 0 <= c < f[k].subtables.len() ==> !(#[trigger] f[k].subtables[c]).by_ref
                &&& f[k].subtables.len() == preds[lookup(preds, f[k].path).unwrap() as int].bounds.len()
                &&& forall|c: int|
                    0 <= c < f[k].subtables.len() ==> (#[trigger] f[k].subtables[c]).path == preds[lookup(
                        preds,
                        f[k].path,
                    ).unwrap() as int].bounds[c]
            },
{
    lemma_solution_covers(roots, preds);
    if let Ok(f) = solve_spec(roots, preds) {
        assert forall|k: int| 0 <= k < f.len() implies {
            &&& lookup(preds, (#[trigger] f[k]).path) is Some
            &&& f[k].by_ref == preds[lookup(preds, f[k].path).unwrap() as int].by_ref
            &&& forall|c: int| 0 <= c < f[k].subtables.len() ==> !(#[trigger] f[k].subtables[c]).by_ref
            &&& f[k].subtables.len() == preds[lookup(preds, f[k].path).unwrap() as int].bounds.len()
            &&& forall|c: int|
                0 <= c < f[k].subtables.len() ==> (#[trigger] f[k].subtables[c]).path == preds[lookup(
                    preds,
                    f[k].path,
                ).unwrap() as int].bounds[c]
        } by {
            assert(f[k] == top_graph(f[k].path, preds));
            let g = graph(f[k].path, preds, graph_fuel(preds));
            if lookup(preds, f[k].path) is Some && graph_fuel(preds) > 0 {
                let cs = preds[lookup(preds, f[k].path).unwrap() as int].bounds;
                lemma_graphs_by_value(cs, preds, (graph_fuel(preds) - 1) as nat, cs.len());
            }
        }
    }
}

proof fn lemma_graphs_by_value(cs: Seq<PathView>, preds: Seq<DynPredicateView>, fuel: nat, n: nat)
    ensures
        forall|c: int| 0 <= c < graphs(cs, preds, fuel, n).len() ==> !(#[trigger] graphs(cs, preds, fuel, n)[c]).by_ref
            && graphs(cs, preds, fuel, n)[c].path == cs[c],
        graphs(cs, preds, fuel, n).len() == n,
    decreases n,
{
    if n > 0 {
        lemma_graphs_by_value(cs, preds, fuel, (n - 1) as nat);
        let prev = graphs(cs, preds, fuel, (n - 1) as nat);
        let g = graph(cs[n - 1], preds, fuel);
        assert(graphs(cs, preds, fuel, n) == prev.push(g));
        assert(!g.by_ref);
        assert forall|c: int| 0 <= c < graphs(cs, preds, fuel, n).len() implies !(#[trigger] graphs(
            cs,
            preds,
            fuel,
            n,
        )[c]).by_ref && graphs(cs, preds, fuel, n)[c].path == cs[c] by {
            if c < prev.len() {
                assert(graphs(cs, preds, fuel, n)[c] == prev[c]);
            }
        }
    }
}

/// The subtables of the graph `t` in preorder: `t` first, then the graphs of
/// its children in order.
pub open spec fn flatten_tree(t: SubtableView) -> Seq<SubtableView>
    decreases t, 0nat,
{
    seq![t] + flatten_trees(t.subtables, t.subtables.len())
}

/// The preorders of the first `n` graphs of `ts`, one after the other.
pub open spec fn flatten_trees(ts: Seq<SubtableView>, n: nat) -> Seq<SubtableView>
    decreases ts, n + 1,
{
    if n == 0 || n > ts.len() {
        Seq::empty()
    } else {
        flatten_trees(ts, (n - 1) as nat) + flatten_tree(ts[n - 1])
    }
}

/// The parent-child relations of the graph `t`: for each child in order, the
/// pair of `t` and the child, then the relations within the child's graph.
pub open spec fn child_edges(t: SubtableView) -> Seq<(SubtableView, SubtableView)>
    decreases t, 0nat,
{
    child_edges_of(t, t.subtables, t.subtables.len())
}

/// The parent-child relations below `parent` through its first `n` children `ts`.
pub open spec fn child_edges_of(parent: SubtableView, ts: Seq<SubtableView>, n: nat) -> Seq<
    (SubtableView, SubtableView),
>
    decreases ts, n + 1,
{
    if n == 0 || n > ts.len() {
        Seq::empty()
    } else {
        child_edges_of(parent, ts, (n - 1) as nat) + seq![(parent, ts[n - 1])] + child_edges(
            ts[n - 1],
        )
    }
}

/// The views of a sequence of borrowed subtables.
pub open spec fn subtable_refs_view(s: Seq<&Subtable>) -> Seq<SubtableView> {
    s.map_values(|t: &Subtable| t@)
}

/// A parent-child relation between two subtables of a graph.
pub struct SubtableChildGraph<'a> {
    pub parent: &'a Subtable,
    pub child: &'a Subtable,
}

/// The views of a sequence of parent-child relations.
pub open spec fn child_graph_view(s: Seq<SubtableChildGraph>) -> Seq<(SubtableView, SubtableView)> {
    s.map_values(|g: SubtableChildGraph| (g.parent@, g.child@))
}

impl Subtable {
    /// This subtable and all subtables below it, in preorder.
    pub fn flatten<'s>(&'s self) -> (r: Vec<&'s Subtable>)
        ensures
            subtable_refs_view(r@) == flatten_tree(self@),
    {
        let mut subtables: Vec<&'s Subtable> = Vec::new();
        self.flatten_into(&mut subtables);
        assert(subtable_refs_view(subtables@) =~= flatten_tree(self@));
        subtables
    }

    fn flatten_into<'s>(&'s self, subtables: &mut Vec<&'s Subtable>)
        ensures
            subtable_refs_view(final(subtables)@) =~= subtable_refs_view(old(subtables)@)
                + flatten_tree(self@),
        decreases self, 0nat,
    {
        proof { self.lemma_children_view(); }
        let ghost start = subtable_refs_view(subtables@);
        subtables.push(self);
        assert(subtable_refs_view(subtables@) =~= start.push(self@));
        flatten_all_into(&self.subtables, self.subtables.len(), subtables);
        assert(seq![self@] + flatten_trees(self@.subtables, self@.subtables.len()) =~= flatten_tree(
            self@,
        ));
    }

    /// The parent-child relations of all subtables below this one.
    pub fn flatten_child_graph<'s>(&'s self) -> (r: Vec<SubtableChildGraph<'s>>)
        ensures
            child_graph_view(r@) == child_edges(self@),
    {
        let mut subtables: Vec<SubtableChildGraph<'s>> = Vec::new();
        self.flatten_into_child_graph(&mut subtables);
        assert(child_graph_view(subtables@) =~= child_edges(self@));
        subtables
    }

    fn flatten_into_child_graph<'s>(&'s self, subtables: &mut Vec<SubtableChildGraph<'s>>)
        ensures
            child_graph_view(final(subtables)@) =~= child_graph_view(old(subtables)@) + child_edges(
                self@,
            ),
        decreases self, 0nat,
    {
        proof { self.lemma_children_view(); }
        child_graph_all_into(self, &self.subtables, self.subtables.len(), subtables);
    }
}

fn flatten_all_into<'s>(ts: &'s Vec<Subtable>, n: usize, out: &mut Vec<&'s Subtable>)
    requires
        n <= ts.len(),
    ensures
        subtable_refs_view(final(out)@) =~= subtable_refs_view(old(out)@) + flatten_trees(
            subtables_view(ts@),
            n as nat,
        ),
    decreases ts, n + 1,
{
    if n > 0 {
        flatten_all_into(ts, n - 1, out);
        assert(decreases_to!(ts => ts@[n - 1]));
        ts[n - 1].flatten_into(out);
    }
}

fn child_graph_all_into<'s>(
    parent: &'s Subtable,
    ts: &'s Vec<Subtable>,
    n: usize,
    out: &mut Vec<SubtableChildGraph<'s>>,
)
    requires
        n <= ts.len(),
    ensures
        child_graph_view(final(out)@) =~= child_graph_view(old(out)@) + child_edges_of(
            parent@,
            subtables_view(ts@),
            n as nat,
        ),
    decreases ts, n + 1,
{
    if n > 0 {
        child_graph_all_into(parent, ts, n - 1, out);
        let ghost mid = child_graph_view(out@);
        out.push(SubtableChildGraph { parent, child: &ts[n - 1] });
        assert(child_graph_view(out@) =~= mid.push((parent@, ts@[n - 1]@)));
        assert(decreases_to!(ts => ts@[n - 1]));
        ts[n - 1].flatten_into_child_graph(out);
    }
}

/// A graph has one more subtable than it has parent-child relations.
pub proof fn lemma_flatten_counts_relations(t: SubtableView)
    ensures
        flatten_tree(t).len() == child_edges(t).len() + 1,
    decreases t, 0nat,
{
    lemma_flatten_trees_counts_relations(t, t.subtables, t.subtables.len());
}

proof fn lemma_flatten_trees_counts_relations(parent: SubtableView, ts: Seq<SubtableView>, n: nat)
    ensures
        flatten_trees(ts, n).len() == child_edges_of(parent, ts, n).len(),
    decreases ts, n + 1,
{
    if n > 0 && n <= ts.len() {
        lemma_flatten_trees_counts_relations(parent, ts, (n - 1) as nat);
        lemma_flatten_counts_relations(ts[n - 1]);
    }
}

/// Whether some subtable of `s` has the path `p`.
pub open spec fn lists_path(s: Seq<SubtableView>, p: PathView) -> bool {
    exists|i: int| 0 <= i < s.len() && (#[trigger] s[i]).path == p
}

proof fn lemma_lists_path_concat(a: Seq<SubtableView>, b: Seq<SubtableView>, p: PathView)
    ensures
        lists_path(a + b, p) <==> (lists_path(a, p) || lists_path(b, p)),
{
    if lists_path(a + b, p) {
        let i = choose|i: int| 0 <= i < (a + b).len() && (#[trigger] (a + b)[i]).path == p;
        if i < a.len() {
            assert(a[i] == (a + b)[i]);
        } else {
            assert(b[i - a.len()] == (a + b)[i]);
        }
    }
    if lists_path(a, p) {
        let i = choose|i: int| 0 <= i < a.len() && (#[trigger] a[i]).path == p;
        assert((a + b)[i] == a[i]);
    }
    if lists_path(b, p) {
        let i = choose|i: int| 0 <= i < b.len() && (#[trigger] b[i]).path == p;
        assert((a + b)[a.len() + i] == b[i]);
    }
}

/// The preorder of a graph lists exactly the paths that occur in the graph:
/// flattening loses no subtable and adds none.
pub proof fn lemma_flatten_lists_graph(t: SubtableView, p: PathView)
    ensures
        lists_path(flatten_tree(t), p) <==> tree_contains(t, p),
    decreases t, 0nat,
{
    lemma_flatten_trees_lists(t.subtables, p, t.subtables.len());
    lemma_lists_path_concat(seq![t], flatten_trees(t.subtables, t.subtables.len()), p);
    if t.path == p {
        assert(seq![t][0] == t);
    }
    if lists_path(seq![t], p) {
        let i = choose|i: int| 0 <= i < seq![t].len() && (#[trigger] seq![t][i]).path == p;
        assert(i == 0);
    }
}

proof fn lemma_flatten_trees_lists(ts: Seq<SubtableView>, p: PathView, n: nat)
    ensures
        lists_path(flatten_trees(ts, n), p) <==> trees_contain(ts, p, n),
    decreases ts, n + 1,
{
    if n == 0 || n > ts.len() {
        assert(!lists_path(flatten_trees(ts, n), p));
    } else {
        lemma_flatten_trees_lists(ts, p, (n - 1) as nat);
        assert(decreases_to!(ts => ts[n - 1]));
        lemma_flatten_lists_graph(ts[n - 1], p);
        lemma_lists_path_concat(flatten_trees(ts, (n - 1) as nat), flatten_tree(ts[n - 1]), p);
    }
}

/// A direct subtable of a vtable, with the identifier of its field.
pub struct SubtableEntry {
    pub ident: String,
    pub subtable: Subtable,
}

/// The value of a subtable entry.
pub struct SubtableEntryView {
    pub ident: Seq<char>,
    pub subtable: SubtableView,
}

impl View for SubtableEntry {
    type V = SubtableEntryView;

    open spec fn view(&self) -> SubtableEntryView {
        SubtableEntryView { ident: self.ident@, subtable: self.subtable@ }
    }
}

/// The views of a sequence of subtable entries.
pub open spec fn subtable_entries_view(s: Seq<SubtableEntry>) -> Seq<SubtableEntryView> {
    s.map_values(|e: SubtableEntry| e@)
}

/// The field identifier of the `occurrence`-th subtable (counted from one)
/// whose trait is named `name`: `__vtable_Name` for the first,
/// `__vtable_Name2`, `__vtable_Name3`, ... for the next ones.
pub open spec fn vtable_entry_name(name: Seq<char>, occurrence: nat) -> Seq<char> {
    if occurrence <= 1 {
        "__vtable_"@ + name
    } else {
        "__vtable_"@ + name + crate::text::decimal(occurrence)
    }
}

/// How many of the first `n` subtables have a trait named `name`.
pub open spec fn name_count(subs: Seq<SubtableView>, name: Seq<char>, n: nat) -> nat
    decreases n,
{
    if n == 0 {
        0
    } else {
        name_count(subs, name, (n - 1) as nat) + if crate::path::friendly_name(subs[n - 1].path)
            == Some(name) {
            1nat
        } else {
            0nat
        }
    }
}

/// The first of the first `n` subtables whose path has no segment.
pub open spec fn first_nameless(subs: Seq<SubtableView>, n: nat) -> Option<nat>
    decreases n,
{
    if n == 0 {
        None
    } else {
        match first_nameless(subs, (n - 1) as nat) {
            Some(i) => Some(i),
            None => if crate::path::friendly_name(subs[n - 1].path) is None {
                Some((n - 1) as nat)
            } else {
                None
            },
        }
    }
}

/// The entry of the `i`-th subtable of `subs`, all of which have a name.
pub open spec fn named_entry(subs: Seq<SubtableView>, i: int) -> SubtableEntryView {
    let name = crate::path::friendly_name(subs[i].path).unwrap();
    SubtableEntryView {
        ident: vtable_entry_name(name, name_count(subs, name, i as nat) + 1),
        subtable: subs[i],
    }
}

proof fn lemma_first_nameless_sticks(subs: Seq<SubtableView>, n: nat, m: nat)
    requires
        n <= m,
        first_nameless(subs, n) is Some,
    ensures
        first_nameless(subs, m) == first_nameless(subs, n),
    decreases m,
{
    if m > n {
        lemma_first_nameless_sticks(subs, n, (m - 1) as nat);
    }
}

/// Gives each subtable the identifier of its field in the vtable, named
/// after the trait so that no name mangling is needed; the `k`-th subtable
/// of a trait name gets a numbered identifier. Fails with the index of the
/// first subtable whose path has no segment.
pub fn name_subtables(subtables: Vec<Subtable>) -> (r: Result<Vec<SubtableEntry>, usize>)
    ensures
        match first_nameless(subtables_view(subtables@), subtables@.len()) {
            Some(i) => r == Err::<Vec<SubtableEntry>, usize>(i as usize),
            None => (r matches Ok(es) && subtable_entries_view(es@) == Seq::new(
                subtables@.len(),
                |i: int| named_entry(subtables_view(subtables@), i),
            )),
        },
{
    let ghost subs = subtables_view(subtables@);
    let total = subtables.len();
    let mut rest = subtables;
    let mut names: Vec<String> = Vec::new();
    let mut out: Vec<SubtableEntry> = Vec::new();
    let mut i: usize = 0;
    while rest.len() > 0
        invariant
            subs == subtables_view(subtables@),
            subs.len() == total,
            i + rest.len() == total,
            subtables_view(rest@) == subs.skip(i as int),
            names.len() == i,
            out.len() == i,
            first_nameless(subs, i as nat) is None,
            forall|j: int|
                0 <= j < i ==> crate::path::friendly_name(subs[j].path) == Some(
                    #[trigger] names@[j]@,
                ),
            forall|j: int| 0 <= j < i ==> #[trigger] out@[j]@ == named_entry(subs, j),
        decreases rest.len(),
    {
        let ghost old_rest = rest@;
        let t = rest.remove(0);
        assert(subtables_view(old_rest)[0] == t@);
        assert(subs.skip(i as int)[0] == subs[i as int]);
        assert(subtables_view(rest@) =~= subs.skip(i as int + 1)) by {
            assert(rest@ =~= old_rest.drop_first());
            assert forall|k: int| 0 <= k < rest@.len() implies subtables_view(rest@)[k] == subs.skip(
                i as int + 1,
            )[k] by {
                assert(subtables_view(rest@)[k] == old_rest[k + 1]@);
                assert(subtables_view(old_rest)[k + 1] == subs.skip(i as int)[k + 1]);
            }
        }
        let name = match t.path.friendly_name() {
            Some(name) => name,
            None => {
                assert(first_nameless(subs, (i + 1) as nat) == Some(i as nat));
                proof { lemma_first_nameless_sticks(subs, (i + 1) as nat, total as nat); }
                return Err(i);
            },
        };
        let mut count: usize = 0;
        let mut j: usize = 0;
        while j < i
            invariant
                j <= i,
                i < total,
                subs.len() == total,
                names.len() == i,
                count == name_count(subs, name@, j as nat),
                count <= j,
                forall|k: int|
                    0 <= k < i ==> crate::path::friendly_name(subs[k].path) == Some(
                        #[trigger] names@[k]@,
                    ),
            decreases i - j,
        {
            if names[j] == name {
                count = count + 1;
            }
            j = j + 1;
        }
        let mut ident = String::from_str("__vtable_");
        ident.append(name.as_str());
        if count > 0 {
            crate::text::push_decimal(&mut ident, count + 1);
        }
        let ghost tv = t@;
        out.push(SubtableEntry { ident, subtable: t });
        assert(out@[i as int]@ == named_entry(subs, i as int));
        names.push(name);
        i = i + 1;
    }
    assert(subtable_entries_view(out@) =~= Seq::new(total as nat, |k: int| named_entry(subs, k)));
    Ok(out)
}

proof fn lemma_name_count_grows(subs: Seq<SubtableView>, name: Seq<char>, i: nat, j: nat)
    requires
        i < j <= subs.len(),
        crate::path::friendly_name(subs[i as int].path) == Some(name),
    ensures
        name_count(subs, name, j) >= name_count(subs, name, i) + 1,
    decreases j,
{
    if j > i + 1 {
        lemma_name_count_grows(subs, name, i, (j - 1) as nat);
    }
}

/// Two subtables of traits with the same name get distinct field identifiers.
pub proof fn lemma_entry_names_distinct(subs: Seq<SubtableView>, i: int, j: int)
    requires
        0 <= i < j < subs.len(),
        crate::path::friendly_name(subs[i].path) is Some,
        crate::path::friendly_name(subs[i].path) == crate::path::friendly_name(subs[j].path),
    ensures
        named_entry(subs, i).ident != named_entry(subs, j).ident,
{
    let name = crate::path::friendly_name(subs[i].path).unwrap();
    let ci = name_count(subs, name, i as nat) + 1;
    let cj = name_count(subs, name, j as nat) + 1;
    lemma_name_count_grows(subs, name, i as nat, j as nat);
    let prefix = "__vtable_"@ + name;
    crate::text::lemma_decimal_nonempty(cj);
    if ci <= 1 {
        assert(named_entry(subs, j).ident.len() > named_entry(subs, i).ident.len());
    } else if named_entry(subs, i).ident == named_entry(subs, j).ident {
        let a = named_entry(subs, i).ident;
        assert(a.skip(prefix.len() as int) =~= crate::text::decimal(ci));
        assert(named_entry(subs, j).ident.skip(prefix.len() as int) =~= crate::text::decimal(cj));
        crate::text::lemma_decimal_injective(ci, cj);
    }
}

} // verus!
