# dyntable

FFI-safe trait objects: a `#[dyntable]` attribute turns a trait into a
`#[repr(C)]` vtable struct plus fat-pointer containers (`DynBox`, `DynRef`,
`DynRefMut`) whose layout is specified, so that trait objects can cross a C
ABI, a plugin boundary or a dynamic library. Trait bounds are supported
through subtables, declared in the trait's where clause:

```rust
#[dyntable]
trait MyTrait: Base1 + Base2
where
    dyn Base1: BaseOfBase, // Base1's vtable is embedded and itself holds BaseOfBase's
    &dyn Base2:,           // Base2's vtable is held by pointer and can be swapped
{
    extern "C" fn method(&self);
}
```

## Layout

- `src/` is the library, written in Verus and verified. It holds every
  decision the attribute makes, each with a contract over a mathematical
  model of the trait:
  - `options`: reading the attribute's options (`repr`, `relax_abi`,
    `drop`, `embed_layout`, `vtable`) from the text of its tokens, their
    defaults, and
    the refusal of unknown, repeated or malformed ones;
  - `bounds`: telling the `dyn A: B + C` and `&dyn A: ..` entries of a
    where clause from the predicates passed on to Rust (such as
    `(dyn A):`), and taking them out;
  - `subtable`: building the subtable graph of each trait bound from those
    entries (refusing duplicates, unrelated entries, cycles and `&dyn` below
    the top level), flattening it, and naming the vtable fields;
  - `method`: checking a method signature into a vtable entry;
  - `dyntrait`: checking a whole trait body and deriving its vtable;
  - `codegen`: the vtable's field order, the bounds it carries, and the
    names of generated items;
  - `types`: renaming associated types (`Self::Item`) inside vtable types;
  - `memory`, `vtable`: the layout type and the traits generated code
    implements.
  Laws that relate several functions (the vtable prefix stays stable as
  entries are appended, generated names never clash, reordering options
  changes nothing, flattening lists exactly the graph, ...) are public proof
  functions beside the code they speak of.
- `app/` is ordinary Rust around the library: `model.rs` turns `syn` syntax
  trees into the library's models, `expand.rs` hands the library the
  attribute's tokens and writes
  the generated code with `quote` from the library's decisions, and
  `runtime.rs` holds the containers, which work with raw pointers, and
  the `#[repr(C)]` / `#[repr(transparent)]` and `Send`/`Sync` marked copies
  of the layout and vtable wrappers that generated vtables embed. A
  proc-macro crate registers `expand::dyntable` as the attribute; generated
  code reaches `runtime.rs` through the crate name `dyntable_runtime`.
- `tests/` runs the library on concrete traits.
