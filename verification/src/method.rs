//! The methods of a `#[dyntable]` trait: which signatures can be called
//! through a vtable, and what a vtable entry keeps of them.

use vstd::prelude::*;
use crate::text::decimal;

verus! {

/// A generic parameter of a method.
pub enum GenericParamModel {
    /// A lifetime; `bounded` when it is followed by `: 'a + ...`.
    Lifetime { name: String, bounded: bool },
    /// A const generic parameter.
    Const,
    /// A type parameter.
    Type,
}

/// The pattern of a typed method parameter.
pub enum PatternModel {
    /// An identifier; `plain` when it has no `ref`, no `mut` and no sub-pattern.
    Ident { name: String, plain: bool },
    /// The wildcard `_`.
    Wild,
    /// Any other pattern.
    Other,
}

/// A parameter of a method signature, with the payload `T` for its type.
pub enum FnArgModel<T> {
    /// A `self` parameter: `typed` when written `self: Type`, `reference`
    /// when written `&self` or `&'a self` (with the lifetime's name), and
    /// `mutable` when written with `mut`.
    Receiver { typed: bool, reference: Option<Option<String>>, mutable: bool },
    /// A typed parameter `pat: ty`.
    Typed { pat: PatternModel, ty: T },
}

/// A method signature as the library reads it.
pub struct SignatureModel<T> {
    /// The method's name.
    pub name: String,
    /// Whether an ABI is written (`extern "C" fn`).
    pub has_abi: bool,
    /// Whether the signature ends in `...`.
    pub has_variadic: bool,
    /// Whether the method has a where clause.
    pub has_where_clause: bool,
    pub generics: Vec<GenericParamModel>,
    pub inputs: Vec<FnArgModel<T>>,
}

/// The pointer that a vtable entry receives for `self`.
#[derive(PartialEq, Eq, Structural)]
pub enum PointerType {
    Const,
    Mut,
}

impl PointerType {
    /// `*mut` for a `mut` marker, `*const` otherwise.
    pub fn from_mutability(mutable: bool) -> (r: Self)
        ensures
            r == (if mutable { PointerType::Mut } else { PointerType::Const }),
    {
        if mutable {
            PointerType::Mut
        } else {
            PointerType::Const
        }
    }
}

/// A `&self`, `&mut self` or `&'a self` receiver.
pub struct ReceiverReference {
    pub lifetime: Option<String>,
    pub mutable: bool,
}

/// How a method takes `self`.
pub enum MethodReceiver {
    Reference(ReceiverReference),
    Value,
}

/// The value of a receiver: whether it is a reference, its lifetime and
/// whether it is mutable.
pub struct ReceiverView {
    pub reference: bool,
    pub lifetime: Option<Seq<char>>,
    pub mutable: bool,
}

impl View for MethodReceiver {
    type V = ReceiverView;

    open spec fn view(&self) -> ReceiverView {
        match self {
            MethodReceiver::Reference(r) => ReceiverView {
                reference: true,
                lifetime: match r.lifetime {
                    Some(l) => Some(l@),
                    None => None,
                },
                mutable: r.mutable,
            },
            MethodReceiver::Value => ReceiverView { reference: false, lifetime: None, mutable: false },
        }
    }
}

impl MethodReceiver {
    /// The pointer type of this receiver: an owned receiver is `mut`, as it
    /// is passed to the vtable entry as a pointer.
    pub fn pointer_type(&self) -> (r: PointerType)
        ensures
            r == (if self@.reference && !self@.mutable {
                PointerType::Const
            } else {
                PointerType::Mut
            }),
    {
        match self {
            MethodReceiver::Value => PointerType::Mut,
            MethodReceiver::Reference(r) => PointerType::from_mutability(r.mutable),
        }
    }
}

/// A parameter of a vtable method, after the receiver.
pub struct MethodParam<T> {
    pub ident: String,
    pub ty: T,
}

/// A method of a `#[dyntable]` trait.
pub struct MethodEntry<T> {
    pub name: String,
    pub has_abi: bool,
    /// The names of the method's lifetime parameters, in order.
    pub lifetimes: Vec<String>,
    pub receiver: MethodReceiver,
    /// The parameters after the receiver.
    pub inputs: Vec<MethodParam<T>>,
}

/// Why a method signature cannot be a vtable entry. `param` indexes the
/// generic parameters, `arg` the parameters of the signature.
#[derive(PartialEq, Eq, Structural)]
pub enum MethodError {
    Variadic,
    WhereClause,
    BoundedLifetime { param: usize },
    ConstGeneric { param: usize },
    TypeGeneric { param: usize },
    TypedSelf { arg: usize },
    DuplicateSelf { arg: usize },
    PatternParam { arg: usize },
    SelfNotFirst { arg: usize },
    MissingSelf,
}

impl MethodError {
    /// The message reported to the user.
    pub open spec fn message_spec(&self) -> Seq<char> {
        match self {
            MethodError::Variadic => "variadics are not supported in #[dyntable] annotated traits"@,
            MethodError::WhereClause => "where clauses cannot be specified for functions in #[dyntable] traits"@,
            MethodError::BoundedLifetime { .. } => "lifetime bounds cannot be specified for function lifetime generics in #[dyntable] traits"@,
            MethodError::ConstGeneric { .. } => "const generics cannot be specified for functions in #[dyntable] traits"@,
            MethodError::TypeGeneric { .. } => "type generics cannot be specified for functions in #[dyntable] traits"@,
            MethodError::TypedSelf { .. } => "`self` parameter must use implicit type syntax (e.g. `self`, `&self`, `&mut self`)"@,
            MethodError::DuplicateSelf { .. } => "`self` is bound more than once"@,
            MethodError::PatternParam { .. } => "patterns are not supported in dyntrait methods"@,
            MethodError::SelfNotFirst { .. } => "first parameter must be `self`"@,
            MethodError::MissingSelf => "missing required `self` parameter"@,
        }
    }

    /// The message reported to the user.
    pub fn message(&self) -> (r: &'static str)
        ensures
            r@ == self.message_spec(),
    {
        match self {
            MethodError::Variadic => "variadics are not supported in #[dyntable] annotated traits",
            MethodError::WhereClause => "where clauses cannot be specified for functions in #[dyntable] traits",
            MethodError::BoundedLifetime { .. } => "lifetime bounds cannot be specified for function lifetime generics in #[dyntable] traits",
            MethodError::ConstGeneric { .. } => "const generics cannot be specified for functions in #[dyntable] traits",
            MethodError::TypeGeneric { .. } => "type generics cannot be specified for functions in #[dyntable] traits",
            MethodError::TypedSelf { .. } => "`self` parameter must use implicit type syntax (e.g. `self`, `&self`, `&mut self`)",
            MethodError::DuplicateSelf { .. } => "`self` is bound more than once",
            MethodError::PatternParam { .. } => "patterns are not supported in dyntrait methods",
            MethodError::SelfNotFirst { .. } => "first parameter must be `self`",
            MethodError::MissingSelf => "missing required `self` parameter",
        }
    }
}

/// The error of generic parameter `i`, if it is not an unbounded lifetime.
pub open spec fn generic_error(g: GenericParamModel, i: usize) -> Option<MethodError> {
    match g {
        GenericParamModel::Lifetime { bounded, .. } => if bounded {
            Some(MethodError::BoundedLifetime { param: i })
        } else {
            None
        },
        GenericParamModel::Const => Some(MethodError::ConstGeneric { param: i }),
        GenericParamModel::Type => Some(MethodError::TypeGeneric { param: i }),
    }
}

/// The first error among the first `n` generic parameters.
pub open spec fn generics_error(gs: Seq<GenericParamModel>, n: nat) -> Option<MethodError>
    decreases n,
{
    if n == 0 {
        None
    } else {
        match generics_error(gs, (n - 1) as nat) {
            Some(e) => Some(e),
            None => generic_error(gs[n - 1], (n - 1) as usize),
        }
    }
}

/// The names of the lifetimes among the first `n` generic parameters.
pub open spec fn lifetime_names(gs: Seq<GenericParamModel>, n: nat) -> Seq<Seq<char>>
    decreases n,
{
    if n == 0 {
        Seq::empty()
    } else {
        match gs[n - 1] {
            GenericParamModel::Lifetime { name, .. } => lifetime_names(gs, (n - 1) as nat).push(name@),
            _ => lifetime_names(gs, (n - 1) as nat),
        }
    }
}

/// The value of a parameter: its identifier and its type payload.
pub struct ParamView<T> {
    pub ident: Seq<char>,
    pub ty: T,
}

impl<T> View for MethodParam<T> {
    type V = ParamView<T>;

    open spec fn view(&self) -> ParamView<T> {
        ParamView { ident: self.ident@, ty: self.ty }
    }
}

/// The views of a sequence of parameters.
pub open spec fn params_view<T>(ps: Seq<MethodParam<T>>) -> Seq<ParamView<T>> {
    ps.map_values(|p: MethodParam<T>| p@)
}

/// The identifier a parameter pattern gives, or `None` for a pattern that
/// is not supported.
pub open spec fn pattern_ident(p: PatternModel) -> Option<Seq<char>> {
    match p {
        PatternModel::Ident { name, plain } => if plain {
            Some(name@)
        } else {
            None
        },
        PatternModel::Wild => Some("_"@),
        PatternModel::Other => None,
    }
}

/// The receiver and parameters read from the first `n` parameters of a
/// signature, or the error of the first parameter that is rejected.
pub open spec fn inputs_outcome<T>(inputs: Seq<FnArgModel<T>>, n: nat) -> Result<
    (Option<ReceiverView>, Seq<ParamView<T>>),
    MethodError,
>
    decreases n,
{
    if n == 0 {
        Ok((None, Seq::empty()))
    } else {
        match inputs_outcome(inputs, (n - 1) as nat) {
            Err(e) => Err(e),
            Ok((recv, params)) => {
                let i = (n - 1) as usize;
                match inputs[n - 1] {
                    FnArgModel::Receiver { typed, reference, mutable } => if typed {
                        Err(MethodError::TypedSelf { arg: i })
                    } else if recv is Some {
                        Err(MethodError::DuplicateSelf { arg: i })
                    } else {
                        Ok(
                            (
                                Some(
                                    match reference {
                                        Some(lt) => ReceiverView {
                                            reference: true,
                                            lifetime: match lt {
                                                Some(l) => Some(l@),
                                                None => None,
                                            },
                                            mutable,
                                        },
                                        None => ReceiverView {
                                            reference: false,
                                            lifetime: None,
                                            mutable: false,
                                        },
                                    },
                                ),
                                params,
                            ),
                        )
                    },
                    FnArgModel::Typed { pat, ty } => match pattern_ident(pat) {
                        None => Err(MethodError::PatternParam { arg: i }),
                        Some(ident) => if recv is None {
                            Err(MethodError::SelfNotFirst { arg: i })
                        } else {
                            Ok((recv, params.push(ParamView { ident, ty })))
                        },
                    },
                }
            },
        }
    }
}

/// The value of a method entry.
pub struct MethodEntryView<T> {
    pub name: Seq<char>,
    pub has_abi: bool,
    pub lifetimes: Seq<Seq<char>>,
    pub receiver: ReceiverView,
    pub inputs: Seq<ParamView<T>>,
}

impl<T> View for MethodEntry<T> {
    type V = MethodEntryView<T>;

    open spec fn view(&self) -> MethodEntryView<T> {
        MethodEntryView {
            name: self.name@,
            has_abi: self.has_abi,
            lifetimes: self.lifetimes@.map_values(|l: String| l@),
            receiver: self.receiver@,
            inputs: params_view(self.inputs@),
        }
    }
}

/// The method entry of a signature, or the first reason it is rejected:
/// variadics, then a where clause, then the generic parameters in order,
/// then the parameters in order, then a missing receiver.
pub open spec fn method_spec<T>(
    name: Seq<char>,
    has_abi: bool,
    has_variadic: bool,
    has_where_clause: bool,
    generics: Seq<GenericParamModel>,
    inputs: Seq<FnArgModel<T>>,
) -> Result<MethodEntryView<T>, MethodError> {
    if has_variadic {
        Err(MethodError::Variadic)
    } else if has_where_clause {
        Err(MethodError::WhereClause)
    } else {
        match generics_error(generics, generics.len()) {
            Some(e) => Err(e),
            None => match inputs_outcome(inputs, inputs.len()) {
                Err(e) => Err(e),
                Ok((None, _)) => Err(MethodError::MissingSelf),
                Ok((Some(receiver), params)) => Ok(
                    MethodEntryView {
                        name,
                        has_abi,
                        lifetimes: lifetime_names(generics, generics.len()),
                        receiver,
                        inputs: params,
                    },
                ),
            },
        }
    }
}

/// The parameter `p` is read from the signature's parameter `a`: `a` is a
/// typed parameter with the same type, named by the identifier `p` has.
pub open spec fn param_of<T>(a: FnArgModel<T>, p: ParamView<T>) -> bool {
    match a {
        FnArgModel::Typed { pat, ty } => pattern_ident(pat) == Some(p.ident) && p.ty == ty,
        FnArgModel::Receiver { .. } => false,
    }
}

/// The receiver `r` is read from the signature's parameter `a`: `a` is an
/// implicitly typed `self`, a reference exactly when `r` is, mutable and with
/// a lifetime only as a reference.
pub open spec fn receiver_of<T>(a: FnArgModel<T>, r: ReceiverView) -> bool {
    match a {
        FnArgModel::Receiver { typed, reference, mutable } => {
            &&& !typed
            &&& r.reference == reference is Some
            &&& r.mutable == (reference is Some && mutable)
            &&& r.lifetime == match reference {
                Some(Some(l)) => Some(l@),
                _ => None,
            }
        },
        FnArgModel::Typed { .. } => false,
    }
}

proof fn lemma_inputs_in_order<T>(inputs: Seq<FnArgModel<T>>, n: nat)
    requires
        n <= inputs.len(),
    ensures
        inputs_outcome(inputs, n) matches Ok((recv, params)) ==> {
            &&& (recv is Some <==> n > 0)
            &&& n > 0 ==> inputs[0] is Receiver && receiver_of(inputs[0], recv.unwrap())
            &&& params.len() == if n > 0 { n - 1 } else { 0 }
            &&& forall|k: int|
                0 <= k < params.len() ==> param_of(inputs[k + 1], #[trigger] params[k])
        },
    decreases n,
{
    if n > 0 {
        lemma_inputs_in_order(inputs, (n - 1) as nat);
        if let Ok((recv, params)) = inputs_outcome(inputs, n) {
            let (r0, p0) = inputs_outcome(inputs, (n - 1) as nat)->Ok_0;
            match inputs[n - 1] {
                FnArgModel::Receiver { .. } => {
                    assert(r0 is None);
                    assert(n == 1);
                },
                FnArgModel::Typed { pat, ty } => {
                    assert(r0 is Some);
                    assert(params == p0.push(ParamView { ident: pattern_ident(pat).unwrap(), ty }));
                    assert forall|k: int| 0 <= k < params.len() implies param_of(
                        inputs[k + 1],
                        #[trigger] params[k],
                    ) by {
                        if k < p0.len() {
                            assert(params[k] == p0[k]);
                        } else {
                            assert(k + 1 == n - 1);
                        }
                    }
                },
            }
        }
    }
}

/// A method entry keeps the signature's name, ABI marker, receiver and
/// parameters after `self`, in order: the signature must start with its
/// receiver, which the entry describes, and parameter `k` of the entry has
/// the identifier and type of parameter `k + 1` of the signature.
pub proof fn lemma_entry_params_in_order<T>(
    name: Seq<char>,
    has_abi: bool,
    has_variadic: bool,
    has_where_clause: bool,
    generics: Seq<GenericParamModel>,
    inputs: Seq<FnArgModel<T>>,
)
    ensures
        method_spec(name, has_abi, has_variadic, has_where_clause, generics, inputs) matches Ok(m) ==> {
            &&& inputs.len() > 0
            &&& inputs[0] is Receiver
            &&& receiver_of(inputs[0], m.receiver)
            &&& m.name == name
            &&& m.has_abi == has_abi
            &&& m.inputs.len() == inputs.len() - 1
            &&& forall|k: int|
                0 <= k < m.inputs.len() ==> param_of(inputs[k + 1], #[trigger] m.inputs[k])
        },
{
    lemma_inputs_in_order(inputs, inputs.len());
}

proof fn lemma_generics_error_sticks(gs: Seq<GenericParamModel>, n: nat, m: nat)
    requires
        n <= m,
        generics_error(gs, n) is Some,
    ensures
        generics_error(gs, m) == generics_error(gs, n),
    decreases m,
{
    if m > n {
        lemma_generics_error_sticks(gs, n, (m - 1) as nat);
    }
}

proof fn lemma_inputs_error_sticks<T>(inputs: Seq<FnArgModel<T>>, n: nat, m: nat)
    requires
        n <= m,
        inputs_outcome(inputs, n) is Err,
    ensures
        inputs_outcome(inputs, m) == inputs_outcome(inputs, n),
    decreases m,
{
    if m > n {
        lemma_inputs_error_sticks(inputs, n, (m - 1) as nat);
    }
}

/// Checks the generic parameters of a method and collects its lifetimes.
fn check_generics(generics: &Vec<GenericParamModel>) -> (r: Result<Vec<String>, MethodError>)
    ensures
        match generics_error(generics@, generics@.len()) {
            Some(e) => r == Err::<Vec<String>, MethodError>(e),
            None => (r matches Ok(ls) && ls@.map_values(|l: String| l@) == lifetime_names(
                generics@,
                generics@.len(),
            )),
        },
{
    let mut lifetimes: Vec<String> = Vec::new();
    let mut i: usize = 0;
    while i < generics.len()
        invariant
            i <= generics.len(),
            generics_error(generics@, i as nat) is None,
            lifetimes@.map_values(|l: String| l@) == lifetime_names(generics@, i as nat),
        decreases generics.len() - i,
    {
        let ghost before = lifetimes@;
        match &generics[i] {
            GenericParamModel::Lifetime { name, bounded } => {
                if *bounded {
                    proof { lemma_generics_error_sticks(generics@, (i + 1) as nat, generics@.len()); }
                    return Err(MethodError::BoundedLifetime { param: i });
                }
                lifetimes.push(name.clone());
                assert(lifetimes@.map_values(|l: String| l@) =~= before.map_values(|l: String| l@).push(
                    name@,
                ));
            },
            GenericParamModel::Const => {
                proof { lemma_generics_error_sticks(generics@, (i + 1) as nat, generics@.len()); }
                return Err(MethodError::ConstGeneric { param: i });
            },
            GenericParamModel::Type => {
                proof { lemma_generics_error_sticks(generics@, (i + 1) as nat, generics@.len()); }
                return Err(MethodError::TypeGeneric { param: i });
            },
        }
        i = i + 1;
    }
    Ok(lifetimes)
}

impl<T> MethodEntry<T> {
    /// Reads a method signature into a vtable method entry.
    ///
    /// The method must not be variadic, have a where clause, or have
    /// generic parameters other than unbounded lifetimes. Its first
    /// parameter must be an implicitly typed `self`, `&self` or `&mut self`,
    /// given once; the other parameters must be named by an identifier or `_`.
    pub fn try_from(sig: SignatureModel<T>) -> (r: Result<MethodEntry<T>, MethodError>)
        ensures
            match method_spec(
                sig.name@,
                sig.has_abi,
                sig.has_variadic,
                sig.has_where_clause,
                sig.generics@,
                sig.inputs@,
            ) {
                Ok(v) => (r matches Ok(m) && m@ == v),
                Err(e) => r == Err::<MethodEntry<T>, MethodError>(e),
            },
    {
        if sig.has_variadic {
            return Err(MethodError::Variadic);
        }
        if sig.has_where_clause {
            return Err(MethodError::WhereClause);
        }
        let lifetimes = match check_generics(&sig.generics) {
            Err(e) => {
                return Err(e);
            },
            Ok(ls) => ls,
        };
        let SignatureModel { name, has_abi, inputs, .. } = sig;
        let ghost all = inputs@;
        let total = inputs.len();
        let mut rest = inputs;
        let mut receiver: Option<MethodReceiver> = None;
        let mut params: Vec<MethodParam<T>> = Vec::new();
        let mut i: usize = 0;
        assert(params_view(params@) =~= Seq::<ParamView<T>>::empty());
        while rest.len() > 0
            invariant
                all == sig.inputs@,
                !sig.has_variadic,
                !sig.has_where_clause,
                generics_error(sig.generics@, sig.generics@.len()) is None,
                lifetimes@.map_values(|l: String| l@) == lifetime_names(
                    sig.generics@,
                    sig.generics@.len(),
                ),
                name@ == sig.name@,
                has_abi == sig.has_abi,
                all.len() == total,
                i + rest.len() == total,
                rest@ == all.skip(i as int),
                inputs_outcome(all, i as nat) == Ok::<
                    (Option<ReceiverView>, Seq<ParamView<T>>),
                    MethodError,
                >(
                    (
                        match receiver {
                            Some(r) => Some(r@),
                            None => None,
                        },
                        params_view(params@),
                    ),
                ),
            decreases rest.len(),
        {
            let ghost old_rest = rest@;
            let arg = rest.remove(0);
            assert(arg == all[i as int]);
            assert(rest@ =~= all.skip(i as int + 1));
            let ghost before = params@;
            match arg {
                FnArgModel::Receiver { typed, reference, mutable } => {
                    if typed {
                        proof { lemma_inputs_error_sticks(all, (i + 1) as nat, all.len()); }
                        return Err(MethodError::TypedSelf { arg: i });
                    }
                    if receiver.is_some() {
                        proof { lemma_inputs_error_sticks(all, (i + 1) as nat, all.len()); }
                        return Err(MethodError::DuplicateSelf { arg: i });
                    }
                    receiver = Some(
                        match reference {
                            Some(lifetime) => MethodReceiver::Reference(
                                ReceiverReference { lifetime, mutable },
                            ),
                            None => MethodReceiver::Value,
                        },
                    );
                },
                FnArgModel::Typed { pat, ty } => {
                    let ghost pv = pat;
                    let ident = match pat {
                        PatternModel::Ident { name, plain } => {
                            if !plain {
                                proof { lemma_inputs_error_sticks(all, (i + 1) as nat, all.len()); }
                                return Err(MethodError::PatternParam { arg: i });
                            }
                            name
                        },
                        PatternModel::Wild => String::from_str("_"),
                        PatternModel::Other => {
                            proof { lemma_inputs_error_sticks(all, (i + 1) as nat, all.len()); }
                            return Err(MethodError::PatternParam { arg: i });
                        },
                    };
                    assert(pattern_ident(pv) == Some(ident@));
                    if receiver.is_none() {
                        proof { lemma_inputs_error_sticks(all, (i + 1) as nat, all.len()); }
                        return Err(MethodError::SelfNotFirst { arg: i });
                    }
                    params.push(MethodParam { ident, ty });
                    assert(params_view(params@) =~= params_view(before).push(
                        ParamView { ident: ident@, ty: ty },
                    ));
                },
            }
            i = i + 1;
        }
        match receiver {
            None => Err(MethodError::MissingSelf),
            Some(receiver) => Ok(MethodEntry { name, has_abi, lifetimes, receiver, inputs: params }),
        }
    }
}

/// The identifier of the `i`-th parameter in generated code: `arg0`, `arg1`, ...
pub open spec fn safe_ident(i: nat) -> Seq<char> {
    "arg"@ + decimal(i)
}

/// The generated parameter identifiers of two different parameters differ,
/// so renamed parameters never clash.
pub proof fn lemma_safe_idents_distinct(i: nat, j: nat)
    requires
        i != j,
    ensures
        safe_ident(i) != safe_ident(j),
{
    reveal_strlit("arg");
    if safe_ident(i) == safe_ident(j) {
        assert(safe_ident(i).skip(3) =~= decimal(i));
        assert(safe_ident(j).skip(3) =~= decimal(j));
        crate::text::lemma_decimal_injective(i, j);
    }
}

impl<T> MethodParam<T> {
    /// Parameter names that work whatever the parameters were named (`_`
    /// included): one `arg{i}` for each parameter.
    pub fn idents_safe(inputs: &Vec<MethodParam<T>>) -> (r: Vec<String>)
        ensures
            r@.len() == inputs@.len(),
            forall|i: int| 0 <= i < r@.len() ==> #[trigger] r@[i]@ == safe_ident(i as nat),
    {
        let mut out: Vec<String> = Vec::new();
        let mut i: usize = 0;
        while i < inputs.len()
            invariant
                i <= inputs.len(),
                out@.len() == i,
                forall|k: int| 0 <= k < i ==> #[trigger] out@[k]@ == safe_ident(k as nat),
            decreases inputs.len() - i,
        {
            let mut name = String::from_str("arg");
            crate::text::push_decimal(&mut name, i);
            out.push(name);
            i = i + 1;
        }
        out
    }

    /// The parameters renamed to `arg0`, `arg1`, ..., their types kept.
    pub fn params_safe(inputs: Vec<MethodParam<T>>) -> (r: Vec<MethodParam<T>>)
        ensures
            r@.len() == inputs@.len(),
            forall|i: int|
                0 <= i < r@.len() ==> (#[trigger] r@[i]).ident@ == safe_ident(i as nat) && r@[i].ty
                    == inputs@[i].ty,
    {
        let ghost all = inputs@;
        let total = inputs.len();
        let mut rest = inputs;
        let mut out: Vec<MethodParam<T>> = Vec::new();
        let mut i: usize = 0;
        while rest.len() > 0
            invariant
                all.len() == total,
                i + rest.len() == total,
                rest@ == all.skip(i as int),
                out@.len() == i,
                forall|k: int|
                    0 <= k < i ==> (#[trigger] out@[k]).ident@ == safe_ident(k as nat) && out@[k].ty
                        == all[k].ty,
            decreases rest.len(),
        {
            let p = rest.remove(0);
            assert(p == all[i as int]);
            assert(rest@ =~= all.skip(i as int + 1));
            let mut name = String::from_str("arg");
            crate::text::push_decimal(&mut name, i);
            out.push(MethodParam { ident: name, ty: p.ty });
            i = i + 1;
        }
        out
    }
}

} // verus!
