use dyntable::options::{
    option_kind, option_token, option_tokens, unknown_option_message, Abi, AttrOption, AttributeOptions, Expected, OptionKind, OptionToken,
    OptionsError,
};

fn abi_name(a: &Abi) -> Option<String> {
    a.as_abi()
}

#[test]
fn defaults() {
    let o = AttributeOptions::resolve(vec![]).ok().unwrap();
    assert_eq!(abi_name(&o.repr).as_deref(), Some("C"));
    assert!(!o.relax_abi);
    assert_eq!(o.drop.as_ref().and_then(abi_name).as_deref(), Some("C"));
    assert!(o.embed_layout);
    assert!(o.vtable_name.is_none());
}

#[test]
fn all_options_given() {
    // #[dyntable(repr = C, relax_abi = false, drop = "C", embed_layout = true, vtable = MyTraitVTable)]
    let o = AttributeOptions::resolve(vec![
        AttrOption::Repr(Abi::parse_struct_repr("C".to_string())),
        AttrOption::RelaxAbi(true),
        AttrOption::Drop(Abi::parse_drop("none".to_string())),
        AttrOption::EmbedLayout(false),
        AttrOption::VTableName("MyTraitVTable".to_string()),
    ])
    .ok()
    .unwrap();
    assert_eq!(abi_name(&o.repr).as_deref(), Some("C"));
    assert!(o.relax_abi);
    assert!(o.drop.is_none());
    assert!(!o.embed_layout);
    assert_eq!(o.vtable_name.as_deref(), Some("MyTraitVTable"));
}

#[test]
fn rust_repr_is_implicit() {
    let a = Abi::parse_struct_repr("Rust".to_string());
    assert!(matches!(a, Abi::ImplicitRust));
    assert!(a.as_abi().is_none());
    assert!(a.as_repr().is_none());
    assert_eq!(Abi::parse_struct_repr("transparent".to_string()).as_repr().as_deref(), Some("transparent"));
    assert_eq!(Abi::parse_drop("system".to_string()).and_then(|a| a.as_abi()).as_deref(), Some("system"));
}

#[test]
fn option_twice_is_refused() {
    let r = AttributeOptions::resolve(vec![
        AttrOption::RelaxAbi(true),
        AttrOption::EmbedLayout(true),
        AttrOption::RelaxAbi(false),
        AttrOption::EmbedLayout(false),
    ]);
    assert_eq!(r.err(), Some(2));
}

#[test]
fn option_names() {
    assert!(option_kind(&"repr".to_string()) == Some(OptionKind::Repr));
    assert!(option_kind(&"relax_abi".to_string()) == Some(OptionKind::RelaxAbi));
    assert!(option_kind(&"drop".to_string()) == Some(OptionKind::Drop));
    assert!(option_kind(&"embed_layout".to_string()) == Some(OptionKind::EmbedLayout));
    assert!(option_kind(&"vtable".to_string()) == Some(OptionKind::VTable));
    assert!(option_kind(&"abi".to_string()).is_none());
    assert_eq!(unknown_option_message(&"abi".to_string()), "Unknown option 'abi'");
}

#[test]
fn distinct_kinds_resolve_in_any_order() {
    let a = AttributeOptions::resolve(vec![
        AttrOption::VTableName("V".to_string()),
        AttrOption::EmbedLayout(false),
        AttrOption::RelaxAbi(true),
    ])
    .ok()
    .unwrap();
    let b = AttributeOptions::resolve(vec![
        AttrOption::RelaxAbi(true),
        AttrOption::VTableName("V".to_string()),
        AttrOption::EmbedLayout(false),
    ])
    .ok()
    .unwrap();
    assert_eq!(a.vtable_name, b.vtable_name);
    assert_eq!(a.embed_layout, b.embed_layout);
    assert_eq!(a.relax_abi, b.relax_abi);
    let r = AttributeOptions::resolve(vec![
        AttrOption::Drop(None),
        AttrOption::Repr(Abi::new_explicit_c()),
        AttrOption::Drop(None),
    ]);
    assert_eq!(r.err(), Some(2));
}

fn id(s: &str) -> OptionToken {
    OptionToken::Ident(s.to_string())
}

fn parse(tokens: Vec<OptionToken>) -> Result<AttributeOptions, OptionsError> {
    AttributeOptions::parse(tokens)
}

#[test]
fn documented_options_parse() {
    // repr = C, relax_abi = false, drop = "C", embed_layout = true, vtable = MyTraitVTable
    let o = parse(vec![
        id("repr"), OptionToken::Eq, id("C"), OptionToken::Comma,
        id("relax_abi"), OptionToken::Eq, OptionToken::Bool(false), OptionToken::Comma,
        id("drop"), OptionToken::Eq, OptionToken::Str("C".to_string()), OptionToken::Comma,
        id("embed_layout"), OptionToken::Eq, OptionToken::Bool(true), OptionToken::Comma,
        id("vtable"), OptionToken::Eq, id("MyTraitVTable"),
    ])
    .ok()
    .unwrap();
    assert_eq!(abi_name(&o.repr).as_deref(), Some("C"));
    assert!(!o.relax_abi);
    assert_eq!(o.drop.as_ref().and_then(abi_name).as_deref(), Some("C"));
    assert!(o.embed_layout);
    assert_eq!(o.vtable_name.as_deref(), Some("MyTraitVTable"));
    // an empty input and a trailing comma are accepted
    assert!(parse(vec![]).is_ok());
    let o = parse(vec![id("drop"), OptionToken::Eq, id("none"), OptionToken::Comma]).ok().unwrap();
    assert!(o.drop.is_none());
}

#[test]
fn malformed_options_are_refused() {
    // foo = C
    match parse(vec![id("foo"), OptionToken::Eq, id("C")]).err().unwrap() {
        OptionsError::UnknownOption { token, name } => {
            assert_eq!(token, 0);
            assert_eq!(name, "foo");
        },
        _ => panic!("unknown option expected"),
    }
    // relax_abi = true, relax_abi = false
    let e = parse(vec![
        id("relax_abi"), OptionToken::Eq, OptionToken::Bool(true), OptionToken::Comma,
        id("relax_abi"), OptionToken::Eq, OptionToken::Bool(false),
    ])
    .err()
    .unwrap();
    assert!(matches!(e, OptionsError::Repeated { token: 4 }));
    assert_eq!(e.message(7), "option can only be defined once");
    // relax_abi = yes
    let e = parse(vec![id("relax_abi"), OptionToken::Eq, id("yes")]).err().unwrap();
    assert!(matches!(e, OptionsError::Expected { token: 2, what: Expected::Bool }));
    assert_eq!(e.message(3), "expected boolean literal");
    // repr C
    let e = parse(vec![id("repr"), id("C")]).err().unwrap();
    assert!(matches!(e, OptionsError::Expected { token: 1, what: Expected::Eq }));
    // repr =
    let e = parse(vec![id("repr"), OptionToken::Eq]).err().unwrap();
    assert!(matches!(e, OptionsError::Expected { token: 2, what: Expected::Ident }));
    assert_eq!(e.message(2), "unexpected end of input, expected identifier");
    // vtable = V embed_layout = true
    let e = parse(vec![id("vtable"), OptionToken::Eq, id("V"), id("embed_layout")]).err().unwrap();
    assert!(matches!(e, OptionsError::Expected { token: 3, what: Expected::Comma }));
    // = C
    let e = parse(vec![OptionToken::Eq, id("C")]).err().unwrap();
    assert!(matches!(e, OptionsError::Expected { token: 0, what: Expected::Name }));
    // a syntax error is reported before a repeat: drop = C, drop = C, vtable
    let e = parse(vec![
        id("drop"), OptionToken::Eq, id("C"), OptionToken::Comma,
        id("drop"), OptionToken::Eq, id("C"), OptionToken::Comma,
        id("vtable"),
    ])
    .err()
    .unwrap();
    assert!(matches!(e, OptionsError::Expected { token: 9, what: Expected::Eq }));
}

#[test]
fn parsed_options_ignore_order() {
    let a = parse(vec![
        id("vtable"), OptionToken::Eq, id("V"), OptionToken::Comma,
        id("repr"), OptionToken::Eq, id("Rust"),
    ])
    .ok()
    .unwrap();
    let b = parse(vec![
        id("repr"), OptionToken::Eq, id("Rust"), OptionToken::Comma,
        id("vtable"), OptionToken::Eq, id("V"),
    ])
    .ok()
    .unwrap();
    assert_eq!(a.vtable_name, b.vtable_name);
    assert!(matches!(a.repr, Abi::ImplicitRust) && matches!(b.repr, Abi::ImplicitRust));
}

#[test]
fn tokens_are_read_from_their_text() {
    assert!(matches!(option_token("="), OptionToken::Eq));
    assert!(matches!(option_token(","), OptionToken::Comma));
    assert!(matches!(option_token("true"), OptionToken::Bool(true)));
    assert!(matches!(option_token("false"), OptionToken::Bool(false)));
    assert!(matches!(option_token("relax_abi"), OptionToken::Ident(s) if s == "relax_abi"));
    assert!(matches!(option_token("C2"), OptionToken::Ident(s) if s == "C2"));
    assert!(matches!(option_token("\"C\""), OptionToken::Str(s) if s == "C"));
    assert!(matches!(option_token("\"\""), OptionToken::Str(s) if s.is_empty()));
    assert!(matches!(option_token("\"a\\\"b\""), OptionToken::Other));
    assert!(matches!(option_token("_"), OptionToken::Other));
    assert!(matches!(option_token("1"), OptionToken::Other));
    assert!(matches!(option_token("(C)"), OptionToken::Other));
    assert!(matches!(option_token("r#type"), OptionToken::Other));
    // drop = "C", relax_abi = true read from their texts
    let texts: Vec<String> = ["drop", "=", "\"C\"", ",", "relax_abi", "=", "true"].iter().map(|t| t.to_string()).collect();
    let o = AttributeOptions::parse(option_tokens(&texts)).ok().unwrap();
    assert_eq!(o.drop.as_ref().and_then(abi_name).as_deref(), Some("C"));
    assert!(o.relax_abi);
}
