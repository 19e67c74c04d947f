//! The options of a `#[dyntable(...)]` attribute.

use vstd::prelude::*;

verus! {

/// An ABI or representation: Rust's own, left unwritten, or a named one.
pub enum Abi {
    ImplicitRust,
    Explicit(String),
}

/// The value of an ABI.
pub enum AbiView {
    ImplicitRust,
    Explicit(Seq<char>),
}

impl View for Abi {
    type V = AbiView;

    open spec fn view(&self) -> AbiView {
        match self {
            Abi::ImplicitRust => AbiView::ImplicitRust,
            Abi::Explicit(name) => AbiView::Explicit(name@),
        }
    }
}

/// The views of an optional ABI.
pub open spec fn opt_abi_view(a: Option<Abi>) -> Option<AbiView> {
    match a {
        Some(abi) => Some(abi@),
        None => None,
    }
}

/// The name written for an ABI, if it is written.
pub open spec fn abi_name(a: AbiView) -> Option<Seq<char>> {
    match a {
        AbiView::ImplicitRust => None,
        AbiView::Explicit(name) => Some(name),
    }
}

/// The ABI a struct representation `name` stands for: structs cannot have an
/// explicit Rust representation, so `Rust` is the implicit one.
pub open spec fn struct_repr(name: Seq<char>) -> AbiView {
    if name == "Rust"@ {
        AbiView::ImplicitRust
    } else {
        AbiView::Explicit(name)
    }
}

/// The drop function a `drop = name` option asks for: none for `none`.
pub open spec fn drop_abi(name: Seq<char>) -> Option<AbiView> {
    if name == "none"@ {
        None
    } else {
        Some(AbiView::Explicit(name))
    }
}

/// The ABI `parse_struct_repr` makes of `name`.
pub open spec fn repr_value(name: String) -> Abi {
    if name@ == "Rust"@ {
        Abi::ImplicitRust
    } else {
        Abi::Explicit(name)
    }
}

/// The drop function `parse_drop` makes of `name`.
pub open spec fn drop_value(name: String) -> Option<Abi> {
    if name@ == "none"@ {
        None
    } else {
        Some(Abi::Explicit(name))
    }
}

impl Abi {
    /// The `C` ABI.
    pub fn new_explicit_c() -> (r: Abi)
        ensures
            r@ == AbiView::Explicit("C"@),
    {
        Abi::Explicit(String::from_str("C"))
    }

    /// The ABI of a struct representation named `name`.
    pub fn parse_struct_repr(name: String) -> (r: Abi)
        ensures
            r@ == struct_repr(name@),
            r == repr_value(name),
    {
        if name == String::from_str("Rust") {
            Abi::ImplicitRust
        } else {
            Abi::Explicit(name)
        }
    }

    /// The drop function asked for by `drop = name`.
    pub fn parse_drop(name: String) -> (r: Option<Abi>)
        ensures
            opt_abi_view(r) == drop_abi(name@),
            r == drop_value(name),
    {
        if name == String::from_str("none") {
            None
        } else {
            Some(Abi::Explicit(name))
        }
    }

    /// The name to write in `extern "name"`, none for the Rust ABI.
    pub fn as_abi(&self) -> (r: Option<String>)
        ensures
            match r {
                Some(s) => abi_name(self@) == Some(s@),
                None => abi_name(self@) is None,
            },
    {
        match self {
            Abi::ImplicitRust => None,
            Abi::Explicit(name) => Some(name.clone()),
        }
    }

    /// The name to write in `#[repr(name)]`, none for Rust's representation.
    pub fn as_repr(&self) -> (r: Option<String>)
        ensures
            match r {
                Some(s) => abi_name(self@) == Some(s@),
                None => abi_name(self@) is None,
            },
    {
        self.as_abi()
    }

    /// A copy of this ABI.
    pub fn duplicate(&self) -> (r: Abi)
        ensures
            r@ == self@,
    {
        match self {
            Abi::ImplicitRust => Abi::ImplicitRust,
            Abi::Explicit(name) => Abi::Explicit(name.clone()),
        }
    }
}

/// The options a `#[dyntable]` attribute takes.
#[derive(PartialEq, Eq, Structural)]
pub enum OptionKind {
    Repr,
    RelaxAbi,
    Drop,
    EmbedLayout,
    VTable,
}

/// The option named `name`, if there is one.
pub open spec fn option_kind_spec(name: Seq<char>) -> Option<OptionKind> {
    if name == "repr"@ {
        Some(OptionKind::Repr)
    } else if name == "relax_abi"@ {
        Some(OptionKind::RelaxAbi)
    } else if name == "drop"@ {
        Some(OptionKind::Drop)
    } else if name == "embed_layout"@ {
        Some(OptionKind::EmbedLayout)
    } else if name == "vtable"@ {
        Some(OptionKind::VTable)
    } else {
        None
    }
}

/// The option named `name`: `repr` and `drop` take an identifier,
/// `relax_abi` and `embed_layout` a boolean, `vtable` an identifier.
pub fn option_kind(name: &String) -> (r: Option<OptionKind>)
    ensures
        r == option_kind_spec(name@),
{
    if *name == String::from_str("repr") {
        Some(OptionKind::Repr)
    } else if *name == String::from_str("relax_abi") {
        Some(OptionKind::RelaxAbi)
    } else if *name == String::from_str("drop") {
        Some(OptionKind::Drop)
    } else if *name == String::from_str("embed_layout") {
        Some(OptionKind::EmbedLayout)
    } else if *name == String::from_str("vtable") {
        Some(OptionKind::VTable)
    } else {
        None
    }
}

/// The message for an option that does not exist: `Unknown option 'name'`.
pub fn unknown_option_message(name: &String) -> (r: String)
    ensures
        r@ == "Unknown option '"@ + name@ + "'"@,
{
    let mut s = String::from_str("Unknown option '");
    s.append(name.as_str());
    s.append("'");
    s
}

/// The message for an option given twice.
pub fn duplicate_option_message() -> (r: &'static str)
    ensures
        r@ == "option can only be defined once"@,
{
    "option can only be defined once"
}

/// One option with its value.
pub enum AttrOption {
    Repr(Abi),
    RelaxAbi(bool),
    Drop(Option<Abi>),
    EmbedLayout(bool),
    VTableName(String),
}

impl AttrOption {
    /// The kind of this option.
    pub open spec fn kind(self) -> OptionKind {
        match self {
            AttrOption::Repr(_) => OptionKind::Repr,
            AttrOption::RelaxAbi(_) => OptionKind::RelaxAbi,
            AttrOption::Drop(_) => OptionKind::Drop,
            AttrOption::EmbedLayout(_) => OptionKind::EmbedLayout,
            AttrOption::VTableName(_) => OptionKind::VTable,
        }
    }
}

/// The options of a `#[dyntable]` attribute, defaults filled in.
pub struct AttributeOptions {
    pub repr: Abi,
    pub relax_abi: bool,
    pub drop: Option<Abi>,
    pub embed_layout: bool,
    pub vtable_name: Option<String>,
}

/// The value of the options.
pub struct AttributeOptionsView {
    pub repr: AbiView,
    pub relax_abi: bool,
    pub drop: Option<AbiView>,
    pub embed_layout: bool,
    pub vtable_name: Option<Seq<char>>,
}

impl View for AttributeOptions {
    type V = AttributeOptionsView;

    open spec fn view(&self) -> AttributeOptionsView {
        AttributeOptionsView {
            repr: self.repr@,
            relax_abi: self.relax_abi,
            drop: opt_abi_view(self.drop),
            embed_layout: self.embed_layout,
            vtable_name: match self.vtable_name {
                Some(n) => Some(n@),
                None => None,
            },
        }
    }
}

/// The index of the first of the first `n` options of kind `k`.
pub open spec fn first_of_kind(opts: Seq<AttrOption>, k: OptionKind, n: nat) -> Option<nat>
    decreases n,
{
    if n == 0 {
        None
    } else {
        match first_of_kind(opts, k, (n - 1) as nat) {
            Some(i) => Some(i),
            None => if opts[n - 1].kind() == k {
                Some((n - 1) as nat)
            } else {
                None
            },
        }
    }
}

/// The first of the first `n` options whose kind was given before it.
pub open spec fn first_repeat(opts: Seq<AttrOption>, n: nat) -> Option<nat>
    decreases n,
{
    if n == 0 {
        None
    } else {
        match first_repeat(opts, (n - 1) as nat) {
            Some(i) => Some(i),
            None => if first_of_kind(opts, opts[n - 1].kind(), (n - 1) as nat) is Some {
                Some((n - 1) as nat)
            } else {
                None
            },
        }
    }
}

/// The options given by `opts`, each at most once, with the defaults:
/// `repr = C`, `relax_abi = false`, `drop = C`, `embed_layout = true` and no
/// vtable name.
pub open spec fn options_spec(opts: Seq<AttrOption>) -> AttributeOptionsView {
    let n = opts.len();
    AttributeOptionsView {
        repr: match first_of_kind(opts, OptionKind::Repr, n) {
            Some(i) => match opts[i as int] {
                AttrOption::Repr(a) => a@,
                _ => AbiView::Explicit("C"@),
            },
            None => AbiView::Explicit("C"@),
        },
        relax_abi: match first_of_kind(opts, OptionKind::RelaxAbi, n) {
            Some(i) => match opts[i as int] {
                AttrOption::RelaxAbi(b) => b,
                _ => false,
            },
            None => false,
        },
        drop: match first_of_kind(opts, OptionKind::Drop, n) {
            Some(i) => match opts[i as int] {
                AttrOption::Drop(d) => opt_abi_view(d),
                _ => Some(AbiView::Explicit("C"@)),
            },
            None => Some(AbiView::Explicit("C"@)),
        },
        embed_layout: match first_of_kind(opts, OptionKind::EmbedLayout, n) {
            Some(i) => match opts[i as int] {
                AttrOption::EmbedLayout(b) => b,
                _ => true,
            },
            None => true,
        },
        vtable_name: match first_of_kind(opts, OptionKind::VTable, n) {
            Some(i) => match opts[i as int] {
                AttrOption::VTableName(s) => Some(s@),
                _ => None,
            },
            None => None,
        },
    }
}

proof fn lemma_first_of_kind_absent(opts: Seq<AttrOption>, k: OptionKind, n: nat)
    requires
        n <= opts.len(),
    ensures
        first_of_kind(opts, k, n) is None <==> forall|i: int| 0 <= i < n ==> (#[trigger] opts[i]).kind() != k,
    decreases n,
{
    if n > 0 {
        lemma_first_of_kind_absent(opts, k, (n - 1) as nat);
    }
}

/// Options are refused exactly when two of them are of the same kind: a list
/// resolves if and only if its kinds are pairwise distinct.
pub proof fn lemma_no_repeat_iff_distinct(opts: Seq<AttrOption>, n: nat)
    requires
        n <= opts.len(),
    ensures
        first_repeat(opts, n) is None <==> forall|i: int, j: int|
            0 <= i < j < n ==> (#[trigger] opts[i]).kind() != (#[trigger] opts[j]).kind(),
    decreases n,
{
    if n > 0 {
        lemma_no_repeat_iff_distinct(opts, (n - 1) as nat);
        lemma_first_of_kind_absent(opts, opts[n - 1].kind(), (n - 1) as nat);
        if first_repeat(opts, n) is None {
            assert forall|i: int, j: int| 0 <= i < j < n implies (#[trigger] opts[i]).kind() != (
            #[trigger] opts[j]).kind() by {
                if j == n - 1 {
                    assert(opts[i].kind() != opts[n - 1].kind());
                }
            }
        }
    }
}

/// `perm` lists the elements of `opts` in another order: `to` takes each
/// position of `perm` to the position of the same element in `opts`, and
/// `from` is its inverse.
pub open spec fn reorders<A>(perm: Seq<A>, opts: Seq<A>, to: Seq<int>, from: Seq<int>) -> bool {
    &&& perm.len() == opts.len()
    &&& to.len() == perm.len()
    &&& from.len() == opts.len()
    &&& forall|i: int|
        0 <= i < perm.len() ==> {
            &&& 0 <= #[trigger] to[i] < opts.len()
            &&& perm[i] == opts[to[i]]
            &&& from[to[i]] == i
        }
    &&& forall|j: int| 0 <= j < opts.len() ==> 0 <= #[trigger] from[j] < perm.len() && to[from[j]] == j
}

proof fn lemma_first_of_kind_at(opts: Seq<AttrOption>, k: OptionKind, n: nat, i: nat)
    requires
        i < n <= opts.len(),
        opts[i as int].kind() == k,
        forall|j: int| 0 <= j < i ==> (#[trigger] opts[j]).kind() != k,
    ensures
        first_of_kind(opts, k, n) == Some(i),
    decreases n,
{
    if n > i + 1 {
        lemma_first_of_kind_at(opts, k, (n - 1) as nat, i);
    } else {
        lemma_first_of_kind_absent(opts, k, i);
    }
}

/// With pairwise distinct kinds, the option of kind `k` found in `perm` is
/// the one found in `opts`.
proof fn lemma_kind_found_alike(
    perm: Seq<AttrOption>,
    opts: Seq<AttrOption>,
    to: Seq<int>,
    from: Seq<int>,
    k: OptionKind,
)
    requires
        reorders(perm, opts, to, from),
        forall|i: int, j: int|
            0 <= i < j < opts.len() ==> (#[trigger] opts[i]).kind() != (#[trigger] opts[j]).kind(),
        forall|i: int, j: int|
            0 <= i < j < perm.len() ==> (#[trigger] perm[i]).kind() != (#[trigger] perm[j]).kind(),
    ensures
        match first_of_kind(perm, k, perm.len()) {
            Some(j) => first_of_kind(opts, k, opts.len()) matches Some(i) && opts[i as int] == perm[j as int],
            None => first_of_kind(opts, k, opts.len()) is None,
        },
{
    lemma_first_of_kind_absent(perm, k, perm.len());
    lemma_first_of_kind_absent(opts, k, opts.len());
    match first_of_kind(perm, k, perm.len()) {
        Some(_) => {
            let j = choose|j: int| 0 <= j < perm.len() && (#[trigger] perm[j]).kind() == k;
            lemma_first_of_kind_at(perm, k, perm.len(), j as nat);
            let i = to[j];
            assert(opts[i] == perm[j]);
            assert forall|m: int| 0 <= m < i implies (#[trigger] opts[m]).kind() != k by {
                assert(opts[m].kind() != opts[i].kind());
            }
            lemma_first_of_kind_at(opts, k, opts.len(), i as nat);
        },
        None => {
            assert forall|i: int| 0 <= i < opts.len() implies (#[trigger] opts[i]).kind() != k by {
                assert(perm[from[i]] == opts[i]);
            }
        },
    }
}

/// The order in which options of distinct kinds are given does not matter:
/// every reordering of such a list resolves, to the same options.
pub proof fn lemma_resolve_ignores_order(
    perm: Seq<AttrOption>,
    opts: Seq<AttrOption>,
    to: Seq<int>,
    from: Seq<int>,
)
    requires
        reorders(perm, opts, to, from),
        first_repeat(opts, opts.len()) is None,
    ensures
        first_repeat(perm, perm.len()) is None,
        options_spec(perm) == options_spec(opts),
{
    lemma_no_repeat_iff_distinct(opts, opts.len());
    assert forall|i: int, j: int| 0 <= i < j < perm.len() implies (#[trigger] perm[i]).kind() != (
    #[trigger] perm[j]).kind() by {
        if perm[i].kind() == perm[j].kind() {
            assert(opts[to[i]] == perm[i] && opts[to[j]] == perm[j]);
            if to[i] < to[j] {
                assert(opts[to[i]].kind() != opts[to[j]].kind());
            } else if to[j] < to[i] {
                assert(opts[to[j]].kind() != opts[to[i]].kind());
            } else {
                assert(from[to[i]] == i && from[to[j]] == j);
            }
        }
    }
    lemma_no_repeat_iff_distinct(perm, perm.len());
    lemma_kind_found_alike(perm, opts, to, from, OptionKind::Repr);
    lemma_kind_found_alike(perm, opts, to, from, OptionKind::RelaxAbi);
    lemma_kind_found_alike(perm, opts, to, from, OptionKind::Drop);
    lemma_kind_found_alike(perm, opts, to, from, OptionKind::EmbedLayout);
    lemma_kind_found_alike(perm, opts, to, from, OptionKind::VTable);
}

/// Reading options ignores their order: two inputs that read as the same
/// options in another order are refused together or read as the same
/// options, provided each reads through (a token out of place is reported
/// where it stands).
pub proof fn lemma_parse_ignores_order(
    toks: Seq<OptionToken>,
    other: Seq<OptionToken>,
    to: Seq<int>,
    from: Seq<int>,
)
    requires
        items_from(toks, 0) is Ok,
        items_from(other, 0) is Ok,
        reorders(
            items_from(other, 0)->Ok_0.map_values(|x: (nat, AttrOption)| x.1),
            items_from(toks, 0)->Ok_0.map_values(|x: (nat, AttrOption)| x.1),
            to,
            from,
        ),
    ensures
        parse_spec(toks) is Ok <==> parse_spec(other) is Ok,
        parse_spec(toks) is Ok ==> parse_spec(other) == parse_spec(toks),
{
    let a = items_from(toks, 0)->Ok_0.map_values(|x: (nat, AttrOption)| x.1);
    let b = items_from(other, 0)->Ok_0.map_values(|x: (nat, AttrOption)| x.1);
    assert(reorders(a, b, from, to)) by {
        assert forall|j: int| 0 <= j < a.len() implies a[j] == b[from[j]] by {
            assert(b[from[j]] == a[to[from[j]]]);
        }
    }
    if first_repeat(a, a.len()) is None {
        lemma_resolve_ignores_order(b, a, to, from);
    }
    if first_repeat(b, b.len()) is None {
        lemma_resolve_ignores_order(a, b, from, to);
    }
}

proof fn lemma_first_repeat_bound(opts: Seq<AttrOption>, n: nat)
    ensures
        first_repeat(opts, n) matches Some(i) ==> i < n,
    decreases n,
{
    if n > 0 {
        lemma_first_repeat_bound(opts, (n - 1) as nat);
    }
}

proof fn lemma_first_repeat_sticks(opts: Seq<AttrOption>, n: nat, m: nat)
    requires
        n <= m,
        first_repeat(opts, n) is Some,
    ensures
        first_repeat(opts, m) == first_repeat(opts, n),
    decreases m,
{
    if m > n {
        lemma_first_repeat_sticks(opts, n, (m - 1) as nat);
    }
}

/// A token of a `#[dyntable(...)]` attribute's input.
pub enum OptionToken {
    /// An identifier other than `true` and `false`.
    Ident(String),
    /// A string literal, by its value.
    Str(String),
    /// `true` or `false`.
    Bool(bool),
    /// `=`.
    Eq,
    /// `,`.
    Comma,
    /// Any other token.
    Other,
}

/// The value of a token.
pub enum OptionTokenView {
    Ident(Seq<char>),
    Str(Seq<char>),
    Bool(bool),
    Eq,
    Comma,
    Other,
}

impl View for OptionToken {
    type V = OptionTokenView;

    open spec fn view(&self) -> OptionTokenView {
        match self {
            OptionToken::Ident(s) => OptionTokenView::Ident(s@),
            OptionToken::Str(s) => OptionTokenView::Str(s@),
            OptionToken::Bool(b) => OptionTokenView::Bool(*b),
            OptionToken::Eq => OptionTokenView::Eq,
            OptionToken::Comma => OptionTokenView::Comma,
            OptionToken::Other => OptionTokenView::Other,
        }
    }
}

/// A character that may start an identifier: an ASCII letter or `_`.
pub open spec fn ident_start(c: char) -> bool {
    ('a' <= c && c <= 'z') || ('A' <= c && c <= 'Z') || c == '_'
}

/// A character that may continue an identifier: also an ASCII digit.
pub open spec fn ident_continue(c: char) -> bool {
    ident_start(c) || ('0' <= c && c <= '9')
}

/// Whether `t` is written as an identifier (`_` alone is not one).
pub open spec fn is_identifier(t: Seq<char>) -> bool {
    &&& t.len() > 0
    &&& ident_start(t[0])
    &&& forall|i: int| 1 <= i < t.len() ==> ident_continue(#[trigger] t[i])
    &&& t != seq!['_']
}

/// The value of `t` if it is a string literal without escapes: a quote,
/// characters other than quotes and backslashes, and a quote.
pub open spec fn plain_string_literal(t: Seq<char>) -> Option<Seq<char>> {
    if t.len() >= 2 && t[0] == '"' && t[t.len() - 1] == '"' && forall|i: int|
        1 <= i < t.len() - 1 ==> #[trigger] t[i] != '"' && t[i] != '\\' {
        Some(t.subrange(1, t.len() - 1))
    } else {
        None
    }
}

/// The token written as the text `t`: `=`, `,`, `true`, `false`, an
/// identifier, a string literal without escapes, or another token.
pub open spec fn classify_token(t: Seq<char>) -> OptionTokenView {
    if t == seq!['='] {
        OptionTokenView::Eq
    } else if t == seq![','] {
        OptionTokenView::Comma
    } else if t == "true"@ {
        OptionTokenView::Bool(true)
    } else if t == "false"@ {
        OptionTokenView::Bool(false)
    } else if is_identifier(t) {
        OptionTokenView::Ident(t)
    } else {
        match plain_string_literal(t) {
            Some(v) => OptionTokenView::Str(v),
            None => OptionTokenView::Other,
        }
    }
}

fn is_ident_start(c: char) -> (r: bool)
    ensures
        r == ident_start(c),
{
    ('a' <= c && c <= 'z') || ('A' <= c && c <= 'Z') || c == '_'
}

fn is_ident_continue(c: char) -> (r: bool)
    ensures
        r == ident_continue(c),
{
    is_ident_start(c) || ('0' <= c && c <= '9')
}

fn text_is_identifier(text: &str) -> (r: bool)
    ensures
        r == is_identifier(text@),
{
    let n = text.unicode_len();
    if n == 0 || !is_ident_start(text.get_char(0)) {
        return false;
    }
    if n == 1 && text.get_char(0) == '_' {
        assert(text@ =~= seq!['_']);
        return false;
    }
    let mut i: usize = 1;
    while i < n
        invariant
            n == text@.len(),
            1 <= i <= n,
            forall|k: int| 1 <= k < i ==> ident_continue(#[trigger] text@[k]),
        decreases n - i,
    {
        if !is_ident_continue(text.get_char(i)) {
            return false;
        }
        i = i + 1;
    }
    assert(text@ != seq!['_']) by {
        if text@ == seq!['_'] {
            assert(text@[0] == '_');
        }
    }
    true
}

fn text_string_literal(text: &str) -> (r: Option<String>)
    ensures
        match plain_string_literal(text@) {
            Some(v) => r matches Some(s) && s@ == v,
            None => r is None,
        },
{
    let n = text.unicode_len();
    if n < 2 || text.get_char(0) != '"' || text.get_char(n - 1) != '"' {
        return None;
    }
    let mut i: usize = 1;
    while i < n - 1
        invariant
            n == text@.len(),
            n >= 2,
            1 <= i <= n - 1,
            forall|k: int| 1 <= k < i ==> #[trigger] text@[k] != '"' && text@[k] != '\\',
        decreases n - 1 - i,
    {
        let c = text.get_char(i);
        if c == '"' || c == '\\' {
            return None;
        }
        i = i + 1;
    }
    Some(String::from_str(text.substring_char(1, n - 1)))
}

/// The token written as `text`.
pub fn option_token(text: &str) -> (r: OptionToken)
    ensures
        r@ == classify_token(text@),
{
    let n = text.unicode_len();
    if n == 1 && text.get_char(0) == '=' {
        assert(text@ =~= seq!['=']);
        return OptionToken::Eq;
    }
    if n == 1 && text.get_char(0) == ',' {
        assert(text@ =~= seq![',']);
        return OptionToken::Comma;
    }
    assert(text@ != seq!['='] && text@ != seq![',']) by {
        if text@ == seq!['='] || text@ == seq![','] {
            assert(text@.len() == 1);
        }
    }
    let owned = String::from_str(text);
    if owned == String::from_str("true") {
        return OptionToken::Bool(true);
    }
    if owned == String::from_str("false") {
        return OptionToken::Bool(false);
    }
    if text_is_identifier(text) {
        return OptionToken::Ident(owned);
    }
    match text_string_literal(text) {
        Some(v) => OptionToken::Str(v),
        None => OptionToken::Other,
    }
}

/// The tokens written as `texts`, one for each.
pub fn option_tokens(texts: &Vec<String>) -> (r: Vec<OptionToken>)
    ensures
        r@.len() == texts@.len(),
        forall|i: int| 0 <= i < r@.len() ==> #[trigger] r@[i]@ == classify_token(texts@[i]@),
{
    let mut out: Vec<OptionToken> = Vec::new();
    let mut i: usize = 0;
    while i < texts.len()
        invariant
            i <= texts.len(),
            out@.len() == i,
            forall|k: int| 0 <= k < i ==> #[trigger] out@[k]@ == classify_token(texts@[k]@),
        decreases texts.len() - i,
    {
        out.push(option_token(texts[i].as_str()));
        i = i + 1;
    }
    out
}

/// What the parser expected where it failed.
#[derive(PartialEq, Eq, Structural)]
pub enum Expected {
    /// The name of an option.
    Name,
    /// `=` after an option's name.
    Eq,
    /// An identifier as the value of `repr` or `vtable`.
    Ident,
    /// `true` or `false` as the value of `relax_abi` or `embed_layout`.
    Bool,
    /// An identifier or a string literal as the value of `drop`.
    Abi,
    /// `,` between options.
    Comma,
}

/// Why an attribute's input is refused. `token` indexes the tokens; an index
/// equal to their number is the end of the input.
pub enum OptionsError {
    /// Another token was expected.
    Expected { token: usize, what: Expected },
    /// The option named at `token` does not exist.
    UnknownOption { token: usize, name: String },
    /// The option named at `token` was already given.
    Repeated { token: usize },
}

/// How an expected token is described to the user.
pub open spec fn expected_text(what: Expected) -> Seq<char> {
    match what {
        Expected::Name => "identifier"@,
        Expected::Eq => "`=`"@,
        Expected::Ident => "identifier"@,
        Expected::Bool => "boolean literal"@,
        Expected::Abi => "identifier or string literal"@,
        Expected::Comma => "`,`"@,
    }
}

impl OptionsError {
    /// The message reported to the user, for an input of `n` tokens.
    pub open spec fn message_spec(&self, n: nat) -> Seq<char> {
        match self {
            OptionsError::Expected { token, what } => if *token as nat >= n {
                "unexpected end of input, expected "@ + expected_text(*what)
            } else {
                "expected "@ + expected_text(*what)
            },
            OptionsError::UnknownOption { name, .. } => "Unknown option '"@ + name@ + "'"@,
            OptionsError::Repeated { .. } => "option can only be defined once"@,
        }
    }

    /// The message reported to the user, for an input of `n` tokens.
    pub fn message(&self, n: usize) -> (r: String)
        ensures
            r@ == self.message_spec(n as nat),
    {
        match self {
            OptionsError::Expected { token, what } => {
                let text = match what {
                    Expected::Name => "identifier",
                    Expected::Eq => "`=`",
                    Expected::Ident => "identifier",
                    Expected::Bool => "boolean literal",
                    Expected::Abi => "identifier or string literal",
                    Expected::Comma => "`,`",
                };
                if *token >= n {
                    crate::text::concat("unexpected end of input, expected ", text)
                } else {
                    crate::text::concat("expected ", text)
                }
            },
            OptionsError::UnknownOption { name, .. } => unknown_option_message(name),
            OptionsError::Repeated { .. } => String::from_str(duplicate_option_message()),
        }
    }
}

/// What the value of an option of kind `k` must be.
pub open spec fn value_expected(k: OptionKind) -> Expected {
    match k {
        OptionKind::Repr => Expected::Ident,
        OptionKind::RelaxAbi => Expected::Bool,
        OptionKind::Drop => Expected::Abi,
        OptionKind::EmbedLayout => Expected::Bool,
        OptionKind::VTable => Expected::Ident,
    }
}

/// The option of kind `k` with the value `t`, if `t` is a value it takes.
pub open spec fn option_value(k: OptionKind, t: OptionToken) -> Option<AttrOption> {
    match k {
        OptionKind::Repr => match t {
            OptionToken::Ident(s) => Some(AttrOption::Repr(repr_value(s))),
            _ => None,
        },
        OptionKind::RelaxAbi => match t {
            OptionToken::Bool(b) => Some(AttrOption::RelaxAbi(b)),
            _ => None,
        },
        OptionKind::Drop => match t {
            OptionToken::Ident(s) => Some(AttrOption::Drop(drop_value(s))),
            OptionToken::Str(s) => Some(AttrOption::Drop(drop_value(s))),
            _ => None,
        },
        OptionKind::EmbedLayout => match t {
            OptionToken::Bool(b) => Some(AttrOption::EmbedLayout(b)),
            _ => None,
        },
        OptionKind::VTable => match t {
            OptionToken::Ident(s) => Some(AttrOption::VTableName(s)),
            _ => None,
        },
    }
}

/// The option `name = value` that starts at token `pos`.
pub open spec fn item_at(toks: Seq<OptionToken>, pos: nat) -> Result<AttrOption, OptionsError> {
    match toks[pos as int] {
        OptionToken::Ident(name) => if pos + 1 >= toks.len() || !(toks[pos + 1int] is Eq) {
            Err(OptionsError::Expected { token: (pos + 1) as usize, what: Expected::Eq })
        } else {
            match option_kind_spec(name@) {
                None => Err(OptionsError::UnknownOption { token: pos as usize, name }),
                Some(k) => if pos + 2 >= toks.len() {
                    Err(OptionsError::Expected { token: (pos + 2) as usize, what: value_expected(k) })
                } else {
                    match option_value(k, toks[pos + 2int]) {
                        Some(o) => Ok(o),
                        None => Err(
                            OptionsError::Expected { token: (pos + 2) as usize, what: value_expected(k) },
                        ),
                    }
                },
            }
        },
        _ => Err(OptionsError::Expected { token: pos as usize, what: Expected::Name }),
    }
}

/// The options given from token `pos` on, each with the index of its name:
/// options are separated by commas, and a comma may end the list.
pub open spec fn items_from(toks: Seq<OptionToken>, pos: nat) -> Result<
    Seq<(nat, AttrOption)>,
    OptionsError,
>
    decreases toks.len() - pos,
{
    if pos >= toks.len() {
        Ok(Seq::empty())
    } else {
        match item_at(toks, pos) {
            Err(e) => Err(e),
            Ok(o) => if pos + 3 >= toks.len() {
                Ok(seq![(pos, o)])
            } else if toks[pos + 3int] is Comma {
                match items_from(toks, pos + 4) {
                    Ok(rest) => Ok(seq![(pos, o)] + rest),
                    Err(e) => Err(e),
                }
            } else {
                Err(OptionsError::Expected { token: (pos + 3) as usize, what: Expected::Comma })
            },
        }
    }
}

/// The options an attribute's input gives, or why it is refused: the first
/// token out of place, an unknown option name, or, once the whole input
/// reads, the first option given twice.
pub open spec fn parse_spec(toks: Seq<OptionToken>) -> Result<AttributeOptionsView, OptionsError> {
    match items_from(toks, 0) {
        Err(e) => Err(e),
        Ok(items) => {
            let opts = items.map_values(|x: (nat, AttrOption)| x.1);
            match first_repeat(opts, opts.len()) {
                Some(i) => Err(OptionsError::Repeated { token: items[i as int].0 as usize }),
                None => Ok(options_spec(opts)),
            }
        },
    }
}

/// The result of reading from `pos` on, after `done` was read before it.
pub open spec fn after(
    done: Seq<(nat, AttrOption)>,
    rest: Result<Seq<(nat, AttrOption)>, OptionsError>,
) -> Result<Seq<(nat, AttrOption)>, OptionsError> {
    match rest {
        Ok(r) => Ok(done + r),
        Err(e) => Err(e),
    }
}

/// The option of kind `k` with the value `t`.
fn make_option(k: OptionKind, t: OptionToken) -> (r: Option<AttrOption>)
    ensures
        r == option_value(k, t),
{
    match k {
        OptionKind::Repr => match t {
            OptionToken::Ident(s) => Some(AttrOption::Repr(Abi::parse_struct_repr(s))),
            _ => None,
        },
        OptionKind::RelaxAbi => match t {
            OptionToken::Bool(b) => Some(AttrOption::RelaxAbi(b)),
            _ => None,
        },
        OptionKind::Drop => match t {
            OptionToken::Ident(s) => Some(AttrOption::Drop(Abi::parse_drop(s))),
            OptionToken::Str(s) => Some(AttrOption::Drop(Abi::parse_drop(s))),
            _ => None,
        },
        OptionKind::EmbedLayout => match t {
            OptionToken::Bool(b) => Some(AttrOption::EmbedLayout(b)),
            _ => None,
        },
        OptionKind::VTable => match t {
            OptionToken::Ident(s) => Some(AttrOption::VTableName(s)),
            _ => None,
        },
    }
}

fn make_value_expected(k: &OptionKind) -> (r: Expected)
    ensures
        r == value_expected(*k),
{
    match k {
        OptionKind::Repr => Expected::Ident,
        OptionKind::RelaxAbi => Expected::Bool,
        OptionKind::Drop => Expected::Abi,
        OptionKind::EmbedLayout => Expected::Bool,
        OptionKind::VTable => Expected::Ident,
    }
}

/// Whether the option `o` has the value written as the token `t`.
pub open spec fn written_value(o: AttrOption, t: OptionToken) -> bool {
    match o {
        AttrOption::Repr(a) => t matches OptionToken::Ident(s) && a@ == struct_repr(s@),
        AttrOption::RelaxAbi(b) => t matches OptionToken::Bool(w) && w == b,
        AttrOption::Drop(d) => (t matches OptionToken::Ident(s) && opt_abi_view(d) == drop_abi(s@)) || (
        t matches OptionToken::Str(s) && opt_abi_view(d) == drop_abi(s@)),
        AttrOption::EmbedLayout(b) => t matches OptionToken::Bool(w) && w == b,
        AttrOption::VTableName(n) => t matches OptionToken::Ident(s) && n@ == s@,
    }
}

/// Token `i` names an option of kind `k` and is followed by `=`.
pub open spec fn names_option(toks: Seq<OptionToken>, i: int, k: OptionKind) -> bool {
    &&& 0 <= i
    &&& i + 1 < toks.len()
    &&& toks[i] matches OptionToken::Ident(n) && option_kind_spec(n@) == Some(k)
    &&& toks[i + 1] is Eq
}

/// Whether the options `v` hold, for the option of kind `k`, the value
/// written as the token `t`.
pub open spec fn holds_written(v: AttributeOptionsView, k: OptionKind, t: OptionToken) -> bool {
    match k {
        OptionKind::Repr => t matches OptionToken::Ident(s) && v.repr == struct_repr(s@),
        OptionKind::RelaxAbi => t matches OptionToken::Bool(b) && v.relax_abi == b,
        OptionKind::Drop => (t matches OptionToken::Ident(s) && v.drop == drop_abi(s@)) || (
        t matches OptionToken::Str(s) && v.drop == drop_abi(s@)),
        OptionKind::EmbedLayout => t matches OptionToken::Bool(b) && v.embed_layout == b,
        OptionKind::VTable => t matches OptionToken::Ident(s) && v.vtable_name == Some(s@),
    }
}

/// Whether the options `v` hold the default for the option of kind `k`.
pub open spec fn holds_default(v: AttributeOptionsView, k: OptionKind) -> bool {
    match k {
        OptionKind::Repr => v.repr == AbiView::Explicit("C"@),
        OptionKind::RelaxAbi => !v.relax_abi,
        OptionKind::Drop => v.drop == Some(AbiView::Explicit("C"@)),
        OptionKind::EmbedLayout => v.embed_layout,
        OptionKind::VTable => v.vtable_name is None,
    }
}

/// The option read at `(p, o)` is named at token `p` and has the value
/// written two tokens later.
pub open spec fn item_written(toks: Seq<OptionToken>, item: (nat, AttrOption)) -> bool {
    &&& names_option(toks, item.0 as int, item.1.kind())
    &&& item.0 + 2 < toks.len()
    &&& written_value(item.1, toks[item.0 + 2int])
}

proof fn lemma_option_value_written(k: OptionKind, t: OptionToken)
    ensures
        option_value(k, t) matches Some(o) ==> o.kind() == k && written_value(o, t),
{
}

/// The options read from token `pos` on are each written where they are
/// named, and every name followed by `=` from `pos` on is read.
pub open spec fn items_written_from(toks: Seq<OptionToken>, pos: nat) -> bool {
    items_from(toks, pos) matches Ok(items) ==> items_written(toks, pos, items)
}

/// The options `items` are each written where they are named, at or after
/// `pos`, and every name followed by `=` from `pos` on is one of them.
pub open spec fn items_written(toks: Seq<OptionToken>, pos: nat, items: Seq<(nat, AttrOption)>) -> bool {
    &&& forall|j: int|
        0 <= j < items.len() ==> pos <= (#[trigger] items[j]).0 && item_written(toks, items[j])
    &&& forall|i: int|
        pos <= i && i + 1 < toks.len() && #[trigger] toks[i] is Ident && toks[i + 1] is Eq
            ==> exists|j: int| 0 <= j < items.len() && (#[trigger] items[j]).0 == i
}

#[verifier::spinoff_prover]
proof fn lemma_items_written(toks: Seq<OptionToken>, pos: nat)
    ensures
        items_written_from(toks, pos),
    decreases toks.len() - pos,
{
    if pos >= toks.len() {
        assert(items_from(toks, pos) == Ok::<Seq<(nat, AttrOption)>, OptionsError>(Seq::empty()));
        return;
    }
    if item_at(toks, pos) is Err {
        return;
    }
    let o = item_at(toks, pos)->Ok_0;
    if let OptionToken::Ident(name) = toks[pos as int] {
        if let Some(k) = option_kind_spec(name@) {
            lemma_option_value_written(k, toks[pos + 2int]);
        }
    }
    assert(item_written(toks, (pos, o)));
    assert(toks[pos + 1int] is Eq);
    if pos + 3 >= toks.len() {
        let items = seq![(pos, o)];
        assert(items_from(toks, pos) == Ok::<Seq<(nat, AttrOption)>, OptionsError>(items));
        assert(items[0] == (pos, o));
        assert forall|i: int|
            pos <= i && i + 1 < toks.len() && #[trigger] toks[i] is Ident && toks[i + 1] is Eq
            implies exists|j: int| 0 <= j < items.len() && (#[trigger] items[j]).0 == i by {
            assert(i == pos);
            assert(items[0].0 == i);
        }
        assert(items_written(toks, pos, items));
    } else if toks[pos + 3int] is Comma {
        lemma_items_written(toks, pos + 4);
        if let Ok(rest) = items_from(toks, pos + 4) {
            assert(items_written(toks, (pos + 4) as nat, rest));
            let items = seq![(pos, o)] + rest;
            assert(items_from(toks, pos) == Ok::<Seq<(nat, AttrOption)>, OptionsError>(items));
            assert(items[0] == (pos, o));
            assert forall|j: int| 0 <= j < items.len() implies pos <= (#[trigger] items[j]).0
                && item_written(toks, items[j]) by {
                if j > 0 {
                    assert(items[j] == rest[j - 1]);
                }
            }
            assert forall|i: int|
                pos <= i && i + 1 < toks.len() && #[trigger] toks[i] is Ident && toks[i + 1] is Eq
                implies exists|j: int| 0 <= j < items.len() && (#[trigger] items[j]).0 == i by {
                if i == pos {
                    assert(items[0].0 == i);
                } else {
                    assert(i >= pos + 4);
                    let j0 = choose|j: int| 0 <= j < rest.len() && (#[trigger] rest[j]).0 == i;
                    assert(items[j0 + 1] == rest[j0]);
                }
            }
            assert(items_written(toks, pos, items));
        } else {
            assert(items_from(toks, pos) is Err);
        }
    } else {
        assert(items_from(toks, pos) is Err);
    }
}

proof fn lemma_first_of_kind_found(opts: Seq<AttrOption>, k: OptionKind, n: nat)
    ensures
        first_of_kind(opts, k, n) matches Some(j) ==> j < n && opts[j as int].kind() == k,
    decreases n,
{
    if n > 0 {
        lemma_first_of_kind_found(opts, k, (n - 1) as nat);
    }
}

/// Options read from tokens hold what is written: when the input reads, an
/// option named at token `i` (and followed by `=`) has in the result the
/// value written at token `i + 2`, and an option named nowhere keeps its
/// default.
pub proof fn lemma_parse_reads_written_values(toks: Seq<OptionToken>, k: OptionKind)
    requires
        parse_spec(toks) is Ok,
    ensures
        forall|i: int| #[trigger] names_option(toks, i, k) ==> i + 2 < toks.len() && holds_written(
            parse_spec(toks)->Ok_0,
            k,
            toks[i + 2],
        ),
        (forall|i: int| !#[trigger] names_option(toks, i, k)) ==> holds_default(parse_spec(toks)->Ok_0, k),
{
    lemma_items_written(toks, 0);
    let items = items_from(toks, 0)->Ok_0;
    assert(items_written(toks, 0, items));
    let opts = items.map_values(|x: (nat, AttrOption)| x.1);
    let v = parse_spec(toks)->Ok_0;
    lemma_no_repeat_iff_distinct(opts, opts.len());
    assert forall|i: int| #[trigger] names_option(toks, i, k) implies i + 2 < toks.len() && holds_written(
        v,
        k,
        toks[i + 2],
    ) by {
        assert(toks[i] is Ident);
        let j = choose|j: int| 0 <= j < items.len() && (#[trigger] items[j]).0 == i;
        assert(item_written(toks, items[j]));
        assert(opts[j] == items[j].1);
        assert(opts[j].kind() == k);
        assert forall|m: int| 0 <= m < j implies (#[trigger] opts[m]).kind() != k by {
            assert(opts[m].kind() != opts[j].kind());
        }
        lemma_first_of_kind_at(opts, k, opts.len(), j as nat);
    }
    if forall|i: int| !#[trigger] names_option(toks, i, k) {
        lemma_first_of_kind_found(opts, k, opts.len());
        if let Some(j) = first_of_kind(opts, k, opts.len()) {
            assert(item_written(toks, items[j as int]));
            assert(names_option(toks, items[j as int].0 as int, k));
        }
    }
}

/// A lone `embed_layout = b` reads as options that embed the layout exactly
/// when `b` is true, whichever `b` is written.
pub proof fn lemma_embed_layout_as_written(name: String, b: bool)
    requires
        name@ == "embed_layout"@,
    ensures
        parse_spec(seq![OptionToken::Ident(name), OptionToken::Eq, OptionToken::Bool(b)]) matches Ok(v)
            && v.embed_layout == b,
{
    let toks = seq![OptionToken::Ident(name), OptionToken::Eq, OptionToken::Bool(b)];
    reveal_strlit("embed_layout");
    reveal_strlit("repr");
    reveal_strlit("relax_abi");
    reveal_strlit("drop");
    assert(name@ != "repr"@ && name@ != "relax_abi"@ && name@ != "drop"@) by {
        assert(name@.len() == 12);
    }
    assert(option_kind_spec(name@) == Some(OptionKind::EmbedLayout));
    assert(item_at(toks, 0) == Ok::<AttrOption, OptionsError>(AttrOption::EmbedLayout(b)));
    assert(items_from(toks, 0) == Ok::<Seq<(nat, AttrOption)>, OptionsError>(
        seq![(0nat, AttrOption::EmbedLayout(b))],
    ));
    let opts = seq![(0nat, AttrOption::EmbedLayout(b))].map_values(|x: (nat, AttrOption)| x.1);
    assert(opts =~= seq![AttrOption::EmbedLayout(b)]);
    assert(first_of_kind(opts, OptionKind::EmbedLayout, 1) == Some(0nat));
    assert(first_of_kind(opts, opts[0].kind(), 0) is None);
    assert(first_repeat(opts, 0) is None);
    assert(first_repeat(opts, 1) is None);
}

/// Reads the options of an attribute's tokens.
fn read_items(tokens: Vec<OptionToken>) -> (r: Result<(Vec<usize>, Vec<AttrOption>), OptionsError>)
    ensures
        match items_from(tokens@, 0) {
            Ok(items) => (r matches Ok((names, opts)) && names@.len() == items.len() && opts@
                == items.map_values(|x: (nat, AttrOption)| x.1) && forall|i: int|
                0 <= i < items.len() ==> #[trigger] names@[i] as nat == items[i].0),
            Err(e) => r == Err::<(Vec<usize>, Vec<AttrOption>), OptionsError>(e),
        },
{
    let ghost all = tokens@;
    let total = tokens.len();
    let mut rest = tokens;
    let mut names: Vec<usize> = Vec::new();
    let mut opts: Vec<AttrOption> = Vec::new();
    let ghost mut done: Seq<(nat, AttrOption)> = Seq::empty();
    let mut pos: usize = 0;
    while rest.len() > 0
        invariant
            all == tokens@,
            all.len() == total,
            pos <= total,
            rest@ == all.skip(pos as int),
            items_from(all, 0) == after(done, items_from(all, pos as nat)),
            names@.len() == done.len(),
            opts@ == done.map_values(|x: (nat, AttrOption)| x.1),
            forall|i: int| 0 <= i < done.len() ==> #[trigger] names@[i] as nat == done[i].0,
        decreases rest.len(),
    {
        let ghost here = items_from(all, pos as nat);
        let name_tok = rest.remove(0);
        assert(name_tok == all[pos as int]);
        let name = match name_tok {
            OptionToken::Ident(name) => name,
            _ => {
                return Err(OptionsError::Expected { token: pos, what: Expected::Name });
            },
        };
        if rest.len() == 0 {
            return Err(OptionsError::Expected { token: pos + 1, what: Expected::Eq });
        }
        let eq = rest.remove(0);
        assert(eq == all[pos + 1]);
        match eq {
            OptionToken::Eq => {},
            _ => {
                return Err(OptionsError::Expected { token: pos + 1, what: Expected::Eq });
            },
        }
        let kind = match option_kind(&name) {
            Some(k) => k,
            None => {
                return Err(OptionsError::UnknownOption { token: pos, name });
            },
        };
        let expected = make_value_expected(&kind);
        if rest.len() == 0 {
            return Err(OptionsError::Expected { token: pos + 2, what: expected });
        }
        let value = rest.remove(0);
        assert(value == all[pos + 2]);
        let opt = match make_option(kind, value) {
            Some(o) => o,
            None => {
                return Err(OptionsError::Expected { token: pos + 2, what: expected });
            },
        };
        let ghost o = opt;
        let ghost p0 = pos as nat;
        let ghost d0 = done;
        assert(item_at(all, p0) == Ok::<AttrOption, OptionsError>(o));
        proof {
            done = done.push((p0, o));
        }
        names.push(pos);
        opts.push(opt);
        if rest.len() == 0 {
            pos = pos + 3;
            assert(items_from(all, p0) == Ok::<Seq<(nat, AttrOption)>, OptionsError>(seq![(p0, o)]));
            assert(items_from(all, pos as nat) == Ok::<Seq<(nat, AttrOption)>, OptionsError>(Seq::empty()));
            assert(d0 + seq![(p0, o)] =~= done + Seq::<(nat, AttrOption)>::empty());
        } else {
            let comma = rest.remove(0);
            assert(comma == all[pos + 3]);
            match comma {
                OptionToken::Comma => {},
                _ => {
                    return Err(OptionsError::Expected { token: pos + 3, what: Expected::Comma });
                },
            }
            pos = pos + 4;
            assert(items_from(all, p0) == after(seq![(p0, o)], items_from(all, pos as nat)));
            proof {
                match items_from(all, pos as nat) {
                    Ok(r) => {
                        assert(d0 + (seq![(p0, o)] + r) =~= done + r);
                    },
                    Err(_) => {},
                }
            }
        }
        assert(rest@ =~= all.skip(pos as int));
        assert(opts@ =~= done.map_values(|x: (nat, AttrOption)| x.1));
    }
    assert(done + Seq::<(nat, AttrOption)>::empty() =~= done);
    Ok((names, opts))
}

impl AttributeOptions {
    /// Gathers the given options, in order, filling in the defaults. Fails
    /// with the index of the first option whose kind was already given.
    pub fn resolve(options: Vec<AttrOption>) -> (r: Result<AttributeOptions, usize>)
        ensures
            match first_repeat(options@, options@.len()) {
                Some(i) => r == Err::<AttributeOptions, usize>(i as usize),
                None => (r matches Ok(o) && o@ == options_spec(options@)),
            },
    {
        let ghost all = options@;
        let total = options.len();
        let mut rest = options;
        let mut repr: Option<Abi> = None;
        let mut relax_abi: Option<bool> = None;
        let mut drop: Option<Option<Abi>> = None;
        let mut embed_layout: Option<bool> = None;
        let mut vtable_name: Option<String> = None;
        let mut i: usize = 0;
        while rest.len() > 0
            invariant
                all == options@,
                all.len() == total,
                i + rest.len() == total,
                rest@ == all.skip(i as int),
                first_repeat(all, i as nat) is None,
                match repr {
                    Some(a) => (first_of_kind(all, OptionKind::Repr, i as nat) matches Some(j) && all[j as int] matches AttrOption::Repr(b) && b@ == a@),
                    None => first_of_kind(all, OptionKind::Repr, i as nat) is None,
                },
                match relax_abi {
                    Some(a) => (first_of_kind(all, OptionKind::RelaxAbi, i as nat) matches Some(j) && all[j as int] == AttrOption::RelaxAbi(a)),
                    None => first_of_kind(all, OptionKind::RelaxAbi, i as nat) is None,
                },
                match drop {
                    Some(a) => (first_of_kind(all, OptionKind::Drop, i as nat) matches Some(j) && all[j as int] matches AttrOption::Drop(b) && opt_abi_view(b) == opt_abi_view(a)),
                    None => first_of_kind(all, OptionKind::Drop, i as nat) is None,
                },
                match embed_layout {
                    Some(a) => (first_of_kind(all, OptionKind::EmbedLayout, i as nat) matches Some(j) && all[j as int] == AttrOption::EmbedLayout(a)),
                    None => first_of_kind(all, OptionKind::EmbedLayout, i as nat) is None,
                },
                match vtable_name {
                    Some(a) => (first_of_kind(all, OptionKind::VTable, i as nat) matches Some(j) && all[j as int] matches AttrOption::VTableName(b) && b@ == a@),
                    None => first_of_kind(all, OptionKind::VTable, i as nat) is None,
                },
            decreases rest.len(),
        {
            let opt = rest.remove(0);
            assert(opt == all[i as int]);
            assert(rest@ =~= all.skip(i as int + 1));
            let duplicate = match opt {
                AttrOption::Repr(x) => {
                    let d = repr.is_some();
                    if !d {
                        repr = Some(x);
                    }
                    d
                },
                AttrOption::RelaxAbi(x) => {
                    let d = relax_abi.is_some();
                    if !d {
                        relax_abi = Some(x);
                    }
                    d
                },
                AttrOption::Drop(x) => {
                    let d = drop.is_some();
                    if !d {
                        drop = Some(x);
                    }
                    d
                },
                AttrOption::EmbedLayout(x) => {
                    let d = embed_layout.is_some();
                    if !d {
                        embed_layout = Some(x);
                    }
                    d
                },
                AttrOption::VTableName(x) => {
                    let d = vtable_name.is_some();
                    if !d {
                        vtable_name = Some(x);
                    }
                    d
                },
            };
            if duplicate {
                assert(first_repeat(all, (i + 1) as nat) == Some(i as nat));
                proof { lemma_first_repeat_sticks(all, (i + 1) as nat, total as nat); }
                return Err(i);
            }
            i = i + 1;
        }
        let r = AttributeOptions {
            repr: match repr {
                Some(a) => a,
                None => Abi::new_explicit_c(),
            },
            relax_abi: match relax_abi {
                Some(b) => b,
                None => false,
            },
            drop: match drop {
                Some(d) => d,
                None => Some(Abi::new_explicit_c()),
            },
            embed_layout: match embed_layout {
                Some(b) => b,
                None => true,
            },
            vtable_name,
        };
        Ok(r)
    }

    /// Reads the options of a `#[dyntable(...)]` attribute from its tokens:
    /// a comma-separated list of `name = value`, with the defaults for the
    /// options not given.
    #[verifier::spinoff_prover]
    pub fn parse(tokens: Vec<OptionToken>) -> (r: Result<AttributeOptions, OptionsError>)
        ensures
            match parse_spec(tokens@) {
                Ok(v) => (r matches Ok(o) && o@ == v),
                Err(e) => r == Err::<AttributeOptions, OptionsError>(e),
            },
    {
        let ghost items = items_from(tokens@, 0);
        match read_items(tokens) {
            Err(e) => Err(e),
            Ok((names, opts)) => {
                let ghost it = items->Ok_0;
                match AttributeOptions::resolve(opts) {
                    Ok(o) => Ok(o),
                    Err(i) => {
                        proof { lemma_first_repeat_bound(opts@, opts@.len()); }
                        assert(names@[i as int] as nat == it[i as int].0);
                        Err(OptionsError::Repeated { token: names[i] })
                    },
                }
            },
        }
    }
}

} // verus!
