use dyntable::method::{
    FnArgModel, GenericParamModel, MethodEntry, MethodError, MethodParam, MethodReceiver, PatternModel,
    PointerType, SignatureModel,
};

fn sig(inputs: Vec<FnArgModel<&'static str>>) -> SignatureModel<&'static str> {
    SignatureModel {
        name: "test".to_string(),
        has_abi: true,
        has_variadic: false,
        has_where_clause: false,
        generics: vec![],
        inputs,
    }
}

fn self_ref(mutable: bool) -> FnArgModel<&'static str> {
    FnArgModel::Receiver { typed: false, reference: Some(None), mutable }
}

fn self_value() -> FnArgModel<&'static str> {
    FnArgModel::Receiver { typed: false, reference: None, mutable: false }
}

fn arg(name: &str, ty: &'static str) -> FnArgModel<&'static str> {
    FnArgModel::Typed { pat: PatternModel::Ident { name: name.to_string(), plain: true }, ty }
}

fn err(s: SignatureModel<&'static str>) -> MethodError {
    MethodEntry::try_from(s).err().unwrap()
}

#[test]
fn borrowed_and_owned_receivers() {
    let m = MethodEntry::try_from(sig(vec![self_ref(true), arg("value", "i32")])).ok().unwrap();
    assert!(matches!(m.receiver, MethodReceiver::Reference(ref r) if r.mutable && r.lifetime.is_none()));
    assert!(m.receiver.pointer_type() == PointerType::Mut);
    assert_eq!(m.inputs.len(), 1);
    assert_eq!(m.inputs[0].ident, "value");
    assert_eq!(m.inputs[0].ty, "i32");

    let m = MethodEntry::try_from(sig(vec![self_ref(false)])).ok().unwrap();
    assert!(m.receiver.pointer_type() == PointerType::Const);

    let m = MethodEntry::try_from(sig(vec![self_value(), arg("value", "i32")])).ok().unwrap();
    assert!(matches!(m.receiver, MethodReceiver::Value));
    assert!(m.receiver.pointer_type() == PointerType::Mut);
}

#[test]
fn lifetimes_are_kept() {
    let mut s = sig(vec![FnArgModel::Receiver { typed: false, reference: Some(Some("'a".to_string())), mutable: false }]);
    s.generics = vec![GenericParamModel::Lifetime { name: "'a".to_string(), bounded: false }];
    let m = MethodEntry::try_from(s).ok().unwrap();
    assert_eq!(m.lifetimes, vec!["'a".to_string()]);
    assert!(matches!(m.receiver, MethodReceiver::Reference(ref r) if r.lifetime.as_deref() == Some("'a")));
}

#[test]
fn wildcard_parameter_is_named_underscore() {
    let s = sig(vec![self_ref(false), FnArgModel::Typed { pat: PatternModel::Wild, ty: "T" }]);
    let m = MethodEntry::try_from(s).ok().unwrap();
    assert_eq!(m.inputs[0].ident, "_");
}

#[test]
fn associated_function_is_refused() {
    // fn associated();
    assert!(err(sig(vec![])) == MethodError::MissingSelf);
}

#[test]
fn self_must_come_first() {
    // fn test(foo: Bar);
    assert!(err(sig(vec![arg("foo", "Bar")])) == MethodError::SelfNotFirst { arg: 0 });
}

#[test]
fn typed_self_is_refused() {
    // fn test(self: Self);
    let e = err(sig(vec![FnArgModel::Receiver { typed: true, reference: None, mutable: false }]));
    assert!(e == MethodError::TypedSelf { arg: 0 });
}

#[test]
fn self_twice_is_refused() {
    assert!(err(sig(vec![self_ref(false), self_value()])) == MethodError::DuplicateSelf { arg: 1 });
}

#[test]
fn patterns_are_refused() {
    let s = sig(vec![self_ref(false), FnArgModel::Typed { pat: PatternModel::Other, ty: "(u8, u8)" }]);
    assert!(err(s) == MethodError::PatternParam { arg: 1 });
    let s = sig(vec![
        self_ref(false),
        FnArgModel::Typed { pat: PatternModel::Ident { name: "x".to_string(), plain: false }, ty: "u8" },
    ]);
    assert!(err(s) == MethodError::PatternParam { arg: 1 });
    // a pattern error comes before the receiver check on the same parameter
    let s = sig(vec![FnArgModel::Typed { pat: PatternModel::Other, ty: "u8" }]);
    assert!(err(s) == MethodError::PatternParam { arg: 0 });
}

#[test]
fn generics_and_where_clauses_are_refused() {
    // fn foo<T>(&self, t: T);
    let mut s = sig(vec![self_ref(false), arg("t", "T")]);
    s.generics = vec![GenericParamModel::Type];
    assert!(err(s) == MethodError::TypeGeneric { param: 0 });

    let mut s = sig(vec![self_ref(false)]);
    s.generics = vec![GenericParamModel::Lifetime { name: "'a".to_string(), bounded: false }, GenericParamModel::Const];
    assert!(err(s) == MethodError::ConstGeneric { param: 1 });

    let mut s = sig(vec![self_ref(false)]);
    s.generics = vec![GenericParamModel::Lifetime { name: "'a".to_string(), bounded: true }];
    let e = err(s);
    assert!(e == MethodError::BoundedLifetime { param: 0 });
    assert_eq!(
        e.message(),
        "lifetime bounds cannot be specified for function lifetime generics in #[dyntable] traits"
    );

    // fn foo<'a>(&'a self) where 'a: 'a;
    let mut s = sig(vec![self_ref(false)]);
    s.has_where_clause = true;
    s.generics = vec![GenericParamModel::Type];
    assert!(err(s) == MethodError::WhereClause);

    let mut s = sig(vec![self_ref(false)]);
    s.has_variadic = true;
    s.has_where_clause = true;
    assert!(err(s) == MethodError::Variadic);
}

#[test]
fn safe_parameter_names() {
    let params: Vec<MethodParam<u8>> = (0..12u8).map(|i| MethodParam { ident: "_".to_string(), ty: i }).collect();
    let idents = MethodParam::idents_safe(&params);
    assert_eq!(idents[0], "arg0");
    assert_eq!(idents[11], "arg11");
    let renamed = MethodParam::params_safe(params);
    assert_eq!(renamed[3].ident, "arg3");
    assert_eq!(renamed[3].ty, 3);
    assert_eq!(renamed.len(), 12);
}

#[test]
fn safe_parameter_names_are_distinct() {
    let params: Vec<MethodParam<u8>> = (0..25u8).map(|i| MethodParam { ident: "x".to_string(), ty: i }).collect();
    let idents = MethodParam::idents_safe(&params);
    for i in 0..idents.len() {
        for j in 0..i {
            assert_ne!(idents[i], idents[j]);
        }
    }
    assert_eq!(idents[1], "arg1");
    assert_eq!(idents[11], "arg11");
}
