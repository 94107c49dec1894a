//! Trusted boundary to the wasm engine. Everything here either declares an
//! engine type so it can appear in signatures, or wraps a single engine
//! operation behind a contract; nothing in this module is verified beyond
//! those contracts.

use vstd::prelude::*;
use vstd::seq_lib::*;

use crate::checker::StoreData;

verus! {

#[verifier::external_type_specification]
#[verifier::external_body]
pub struct ExEngine(wasmtime::Engine);

#[verifier::external_type_specification]
#[verifier::external_body]
pub struct ExModule(wasmtime::Module);

#[verifier::external_type_specification]
#[verifier::external_body]
#[verifier::reject_recursive_types(T)]
pub struct ExStore<T: 'static>(wasmtime::Store<T>);

#[verifier::external_type_specification]
#[verifier::external_body]
#[verifier::reject_recursive_types(T)]
pub struct ExLinker<T>(wasmtime::Linker<T>);

#[verifier::external_type_specification]
#[verifier::external_body]
pub struct ExInstance(wasmtime::Instance);

#[verifier::external_type_specification]
#[verifier::external_body]
pub struct ExMemory(wasmtime::Memory);

#[verifier::external_type_specification]
#[verifier::external_body]
#[verifier::reject_recursive_types(T)]
pub struct ExCaller<'a, T: 'static>(wasmtime::Caller<'a, T>);

#[verifier::external_type_specification]
#[verifier::external_body]
pub struct ExWasiP1Ctx(wasmtime_wasi::p1::WasiP1Ctx);

/// The bytes of the linear memory that instance `i` exports under `name`, as
/// held in store `s`.
pub uninterp spec fn guest_mem(
    i: wasmtime::Instance,
    name: Seq<char>,
    s: wasmtime::Store<StoreData>,
) -> Seq<u8>;

/// Whether instance `i` exports a linear memory under `name`. Exports are
/// fixed at instantiation, so this depends on the instance alone.
pub uninterp spec fn has_mem_export(i: wasmtime::Instance, name: Seq<char>) -> bool;

/// Whether instance `i` exports a function under `name`; fixed at
/// instantiation, like the memory exports.
pub uninterp spec fn has_func_export(i: wasmtime::Instance, name: Seq<char>) -> bool;

/// Whether store `s` owns instance `i`. wasmtime panics when an instance is
/// used with a store that does not own it, so every wrapper that combines the
/// two requires this; instantiation establishes it and nothing revokes it.
/// The memories of such a pair use 64 KiB pages: wasmtime's custom-page-sizes
/// feature is not part of this build.
pub uninterp spec fn compatible(i: wasmtime::Instance, s: wasmtime::Store<StoreData>) -> bool;

/// The failure messages of the checker state that store `s` carries.
pub uninterp spec fn store_failures(s: wasmtime::Store<StoreData>) -> Seq<Seq<char>>;

/// The success messages of the checker state that store `s` carries.
pub uninterp spec fn store_success(s: wasmtime::Store<StoreData>) -> Seq<Seq<char>>;

/// Whether every host function linker `l` holds either appends to the
/// checker message lists or leaves them alone, never removing or reordering.
pub uninterp spec fn appendish_imports(l: wasmtime::Linker<StoreData>) -> bool;

/// Whether every import of instance `i` only ever appends to the checker
/// message lists of the store the instance runs in.
pub uninterp spec fn append_preserving(i: wasmtime::Instance) -> bool;

/// The engine a linker was created against. Instantiating against a store
/// of another engine is a panic wasmtime documents, so the two are required
/// equal where they meet.
pub uninterp spec fn linker_engine(l: wasmtime::Linker<StoreData>) -> wasmtime::Engine;

/// The engine a store was created against.
pub uninterp spec fn store_engine(s: wasmtime::Store<StoreData>) -> wasmtime::Engine;

/// Whether none of a linker's items is bound to a particular store: host
/// functions made through `func_wrap` are engine-owned, so the linkers this
/// crate builds never hold store-bound items, excluding the other
/// instantiation panic wasmtime documents.
pub uninterp spec fn store_free_items(l: wasmtime::Linker<StoreData>) -> bool;

/// Whether an engine carries this crate's one configuration, under which
/// whether given bytes compile is a function of the bytes alone.
pub uninterp spec fn default_config(e: wasmtime::Engine) -> bool;

/// Whether `code` compiles as a module under this crate's engine
/// configuration.
pub uninterp spec fn compiles_default(code: Seq<u8>) -> bool;

/// The bytes of linear memory `m` as held in store `s`.
pub uninterp spec fn memory_bytes(m: wasmtime::Memory, s: wasmtime::Store<StoreData>) -> Seq<u8>;

/// The bytes of the memory exported as `"memory"` by the instance behind a
/// guest call.
pub uninterp spec fn caller_mem(c: wasmtime::Caller<StoreData>) -> Seq<u8>;

/// Whether the instance behind a guest call exports a memory named
/// `"memory"`.
pub uninterp spec fn caller_has_mem(c: wasmtime::Caller<StoreData>) -> bool;

/// The failure messages of the checker state behind a guest call.
pub uninterp spec fn caller_failures(c: wasmtime::Caller<StoreData>) -> Seq<Seq<char>>;

/// The success messages of the checker state behind a guest call.
pub uninterp spec fn caller_success(c: wasmtime::Caller<StoreData>) -> Seq<Seq<char>>;

/// The dataset registry behind a guest call, as a mapping.
pub uninterp spec fn caller_datasets(c: wasmtime::Caller<StoreData>) -> Map<
    Seq<char>,
    crate::checker::Dataset,
>;

/// Everything a guest call can observe of the host is the same in `a` and
/// `b`: the exported memory and the host state behind the call.
pub open spec fn caller_state_eq(
    a: wasmtime::Caller<StoreData>,
    b: wasmtime::Caller<StoreData>,
) -> bool {
    &&& caller_mem(b) == caller_mem(a)
    &&& caller_has_mem(b) == caller_has_mem(a)
    &&& caller_failures(b) == caller_failures(a)
    &&& caller_success(b) == caller_success(a)
    &&& caller_datasets(b) == caller_datasets(a)
}

/// Relies on wasmtime::Engine::new: an engine whose linear memories grow by
/// moving, with no large up-front address-space reservation, so many
/// short-lived executions can coexist in one process. A rejected
/// configuration is reported, never silently replaced.
#[verifier::external_body]
pub(crate) fn new_engine() -> (r: Result<wasmtime::Engine, String>)
    ensures
        r matches Ok(e) ==> default_config(e),
{
    let mut config = wasmtime::Config::new();
    config.memory_reservation(0);
    config.memory_guard_size(0);
    config.memory_reservation_for_growth(0);
    match wasmtime::Engine::new(&config) {
        Ok(engine) => Ok(engine),
        Err(e) => Err(e.to_string()),
    }
}

/// Relies on wasmtime::Module::new: compiles a guest module from binary (or
/// text) form; `Err` carries the compiler's message for a malformed module.
/// Whether the bytes compile depends on the engine's configuration and the
/// bytes alone, so under this crate's one configuration the outcome has a
/// name.
#[verifier::external_body]
pub(crate) fn compile_module(engine: &wasmtime::Engine, code: &[u8]) -> (r: Result<
    wasmtime::Module,
    String,
>)
    ensures
        default_config(*engine) ==> (r is Ok <==> compiles_default(code@)),
{
    match wasmtime::Module::new(engine, code) {
        Ok(m) => Ok(m),
        Err(e) => Err(e.to_string()),
    }
}

/// Relies on wasmtime::Linker::new: an empty import linker; holding no host
/// functions yet, its imports trivially only append to the checker lists.
#[verifier::external_body]
pub(crate) fn new_linker(engine: &wasmtime::Engine) -> (r: wasmtime::Linker<StoreData>)
    ensures
        appendish_imports(r),
        linker_engine(r) == *engine,
        store_free_items(r),
{
    wasmtime::Linker::new(engine)
}

/// Relies on wasmtime_wasi::p1::add_to_linker_sync: registers the system
/// interface imports, served from the `wasi` field of the store's host
/// state; none of them reads or writes the checker message lists.
#[verifier::external_body]
pub(crate) fn add_wasi_imports(linker: &mut wasmtime::Linker<StoreData>) -> (r: Result<
    (),
    String,
>)
    ensures
        appendish_imports(*old(linker)) ==> appendish_imports(*final(linker)),
        linker_engine(*final(linker)) == linker_engine(*old(linker)),
        store_free_items(*old(linker)) ==> store_free_items(*final(linker)),
{
    match wasmtime_wasi::p1::add_to_linker_sync(linker, |s: &mut StoreData| &mut s.wasi) {
        Ok(()) => Ok(()),
        Err(e) => Err(e.to_string()),
    }
}

/// Relies on wasmtime_wasi::WasiCtxBuilder::build_p1: a system-interface
/// context that passes this process's stdio and arguments through to the
/// guest.
#[verifier::external_body]
pub(crate) fn build_wasi() -> wasmtime_wasi::p1::WasiP1Ctx {
    wasmtime_wasi::WasiCtxBuilder::new().inherit_stdio().inherit_args().build_p1()
}

/// Relies on wasmtime::Linker::func_wrap: exposes `checker.fail` to the
/// guest, backed by the verified handler, whose contract says it only
/// appends one failure message; a handler error surfaces to the guest as a
/// trap with the handler's message.
#[verifier::external_body]
pub(crate) fn add_fail_import(linker: &mut wasmtime::Linker<StoreData>) -> (r: Result<
    (),
    String,
>)
    ensures
        appendish_imports(*old(linker)) ==> appendish_imports(*final(linker)),
        linker_engine(*final(linker)) == linker_engine(*old(linker)),
        store_free_items(*old(linker)) ==> store_free_items(*final(linker)),
{
    let res = linker.func_wrap(
        "checker",
        "fail",
        |mut caller: wasmtime::Caller<'_, StoreData>, ptr: i32, len: i32| {
            crate::checker::host_fail(&mut caller, ptr, len).map_err(
                |t| wasmtime::Error::msg(t.text()),
            )
        },
    );
    match res {
        Ok(_) => Ok(()),
        Err(e) => Err(e.to_string()),
    }
}

/// Relies on wasmtime::Linker::func_wrap: exposes `checker.succeed` to the
/// guest, backed by the verified handler, whose contract says it only
/// appends one success message.
#[verifier::external_body]
pub(crate) fn add_succeed_import(linker: &mut wasmtime::Linker<StoreData>) -> (r: Result<
    (),
    String,
>)
    ensures
        appendish_imports(*old(linker)) ==> appendish_imports(*final(linker)),
        linker_engine(*final(linker)) == linker_engine(*old(linker)),
        store_free_items(*old(linker)) ==> store_free_items(*final(linker)),
{
    let res = linker.func_wrap(
        "checker",
        "succeed",
        |mut caller: wasmtime::Caller<'_, StoreData>, ptr: i32, len: i32| {
            crate::checker::host_succeed(&mut caller, ptr, len).map_err(
                |t| wasmtime::Error::msg(t.text()),
            )
        },
    );
    match res {
        Ok(_) => Ok(()),
        Err(e) => Err(e.to_string()),
    }
}

/// Relies on wasmtime::Linker::func_wrap: exposes `checker.datasets` to the
/// guest, backed by the verified handler, whose contract says it mutates
/// nothing.
#[verifier::external_body]
pub(crate) fn add_datasets_import(linker: &mut wasmtime::Linker<StoreData>) -> (r: Result<
    (),
    String,
>)
    ensures
        appendish_imports(*old(linker)) ==> appendish_imports(*final(linker)),
        linker_engine(*final(linker)) == linker_engine(*old(linker)),
        store_free_items(*old(linker)) ==> store_free_items(*final(linker)),
{
    let res = linker.func_wrap(
        "checker",
        "datasets",
        |mut caller: wasmtime::Caller<'_, StoreData>, ptr: i32, len: i32| {
            crate::checker::host_datasets(&mut caller, ptr, len).map_err(
                |t| wasmtime::Error::msg(t.text()),
            )
        },
    );
    match res {
        Ok(_) => Ok(()),
        Err(e) => Err(e.to_string()),
    }
}

/// Relies on wasmtime::Store::new: a fresh store that owns `data`, so its
/// checker lists are exactly the ones `data` arrived with.
#[verifier::external_body]
pub(crate) fn new_store(engine: &wasmtime::Engine, data: StoreData) -> (r: wasmtime::Store<
    StoreData,
>)
    ensures
        store_failures(r) == crate::checker::msg_views(data.checker.failures@),
        store_success(r) == crate::checker::msg_views(data.checker.success@),
        store_engine(r) == *engine,
{
    wasmtime::Store::new(engine, data)
}

/// Relies on wasmtime::Linker::instantiate: instantiates the module against
/// the linker's imports, leaving the instance owned by the store; the
/// module's start function may already run host functions here, so with an
/// append-only linker the checker lists can only grow by appending. `Err`
/// carries the message for a missing import or a failed start. The two
/// panics wasmtime documents — a store of another engine, and a linker item
/// bound to some store — are excluded by the preconditions.
#[verifier::external_body]
pub(crate) fn instantiate(
    linker: &wasmtime::Linker<StoreData>,
    store: &mut wasmtime::Store<StoreData>,
    module: &wasmtime::Module,
) -> (r: Result<wasmtime::Instance, String>)
    requires
        linker_engine(*linker) == store_engine(*old(store)),
        store_free_items(*linker),
    ensures
        r matches Ok(i) ==> compatible(i, *final(store)),
        appendish_imports(*linker) ==> store_failures(*old(store)).is_prefix_of(
            store_failures(*final(store)),
        ) && store_success(*old(store)).is_prefix_of(store_success(*final(store))),
        r matches Ok(i) ==> (appendish_imports(*linker) ==> append_preserving(i)),
{
    match linker.instantiate(&mut *store, module) {
        Ok(i) => Ok(i),
        Err(e) => Err(e.to_string()),
    }
}

/// Relies on wasmtime::Store::into_data: hands back the host state the store
/// carried, checker lists included.
#[verifier::external_body]
pub(crate) fn store_into_data(store: wasmtime::Store<StoreData>) -> (r: StoreData)
    ensures
        crate::checker::msg_views(r.checker.failures@) == store_failures(store),
        crate::checker::msg_views(r.checker.success@) == store_success(store),
{
    store.into_data()
}

/// Relies on wasmtime::Caller::data_mut: the host state of the store the
/// guest call came in on; what the caller observes afterwards is whatever
/// was written through the returned reference, and the guest memory is
/// untouched by state access.
#[verifier::external_body]
pub(crate) fn caller_data<'a, 'b>(c: &'a mut wasmtime::Caller<'b, StoreData>) -> (r: &'a mut StoreData)
    ensures
        crate::checker::msg_views(r.checker.failures@) == caller_failures(*old(c)),
        crate::checker::msg_views(r.checker.success@) == caller_success(*old(c)),
        r.datasets.as_map() == caller_datasets(*old(c)),
        caller_failures(*final(c)) == crate::checker::msg_views(final(r).checker.failures@),
        caller_success(*final(c)) == crate::checker::msg_views(final(r).checker.success@),
        caller_datasets(*final(c)) == final(r).datasets.as_map(),
        caller_mem(*final(c)) == caller_mem(*old(c)),
        caller_has_mem(*final(c)) == caller_has_mem(*old(c)),
{
    c.data_mut()
}

/// Relies on wasmtime::Caller::get_export and wasmtime::Memory::data_size:
/// the current size in bytes of the calling instance's exported memory
/// `"memory"`; fails exactly when there is no such memory. Nothing is read
/// or written beyond that.
#[verifier::external_body]
pub(crate) fn caller_mem_size(c: &mut wasmtime::Caller<'_, StoreData>) -> (r: Result<
    usize,
    crate::checker::TrapKind,
>)
    ensures
        caller_state_eq(*old(c), *final(c)),
        match r {
            Ok(n) => caller_has_mem(*old(c)) && n == caller_mem(*old(c)).len(),
            Err(t) => t == crate::checker::TrapKind::NoMemory && !caller_has_mem(*old(c)),
        },
{
    match c.get_export("memory") {
        Some(wasmtime::Extern::Memory(m)) => {
            let n = m.data_size(&*c);
            Ok(n)
        },
        _ => Err(crate::checker::TrapKind::NoMemory),
    }
}

/// Relies on wasmtime::Caller::get_export and wasmtime::Memory::data: copies
/// the guest bytes at `[ptr, ptr+len)` out of the calling instance's
/// exported memory `"memory"`. The range check is not here: callers must
/// have established the bounds, as `get_string` does in verified code.
#[verifier::external_body]
pub(crate) fn read_guest_range(
    c: &mut wasmtime::Caller<'_, StoreData>,
    ptr: usize,
    len: usize,
) -> (r: Vec<u8>)
    requires
        caller_has_mem(*old(c)),
        ptr + len <= caller_mem(*old(c)).len(),
        ptr + len <= usize::MAX,
    ensures
        caller_state_eq(*old(c), *final(c)),
        r@ == caller_mem(*old(c)).subrange(ptr as int, (ptr + len) as int),
{
    match c.get_export("memory") {
        Some(wasmtime::Extern::Memory(m)) => m.data(&*c)[ptr..ptr + len].to_vec(),
        _ => Vec::new(),
    }
}

/// Relies on String::from_utf8: succeeds exactly on valid UTF-8 input and
/// yields its decoding.
#[verifier::external_body]
pub(crate) fn utf8_to_string(bytes: Vec<u8>) -> (r: Result<String, ()>)
    ensures
        r is Ok <==> vstd::utf8::valid_utf8(bytes@),
        r is Ok ==> r->Ok_0@ == vstd::utf8::decode_utf8(bytes@),
{
    match String::from_utf8(bytes) {
        Ok(s) => Ok(s),
        Err(_) => Err(()),
    }
}

} // verus!
