use checker_rs::checker::{Checker, Datasets, StoreData, Var};
use checker_rs::memory::{MemoryManager, WASM_PAGE_SIZE};

fn manager_for(module_text: &str) -> MemoryManager {
    let mut config = wasmtime::Config::new();
    config.memory_reservation(0);
    config.memory_guard_size(0);
    config.memory_reservation_for_growth(0);
    let engine = wasmtime::Engine::new(&config).unwrap();
    let module = wasmtime::Module::new(&engine, module_text).unwrap();
    let data = StoreData {
        checker: Checker::new(),
        datasets: Datasets::new(),
        wasi: wasmtime_wasi::WasiCtxBuilder::new().build_p1(),
    };
    let mut store = wasmtime::Store::new(&engine, data);
    let linker: wasmtime::Linker<StoreData> = wasmtime::Linker::new(&engine);
    let instance = linker.instantiate(&mut store, &module).unwrap();
    MemoryManager::new(WASM_PAGE_SIZE, "memory", store, instance)
}

#[test]
fn write_grows_by_one_page_when_record_does_not_fit() {
    // The module starts with one page, and the cursor starts at the end of
    // it, so the very first record does not fit before growth.
    let mut m = manager_for("(module (memory (export \"memory\") 1))");
    m.write(b"hello").unwrap();
    let item = m.last_item().unwrap();
    assert_eq!(item.offset, WASM_PAGE_SIZE);
    assert_eq!(item.size, 6);
    let mem = m.get().unwrap();
    assert_eq!(mem.data_size(&m.store), 2 * WASM_PAGE_SIZE);
    let mut buf = [0u8; 6];
    mem.read(&m.store, WASM_PAGE_SIZE, &mut buf).unwrap();
    assert_eq!(&buf, b"5hello");
}

#[test]
fn writes_advance_cursor_and_never_overlap() {
    let mut m = manager_for("(module (memory (export \"memory\") 2))");
    m.write(b"hello").unwrap();
    let first = m.last_item().unwrap();
    m.write(b"0123456789").unwrap();
    let second = m.last_item().unwrap();
    assert_eq!(first.offset, 65536);
    assert_eq!(first.size, 6);
    // The second record starts exactly where the first one ended.
    assert_eq!(second.offset, 65542);
    assert_eq!(second.size, 12);
    assert_eq!(m.allocations.len(), 2);
    let mem = m.get().unwrap();
    let mut buf = [0u8; 12];
    mem.read(&m.store, second.offset, &mut buf).unwrap();
    assert_eq!(&buf, b"100123456789");
}

#[test]
fn write_succeeds_when_one_page_growth_suffices() {
    let mut m = manager_for("(module (memory (export \"memory\") 1))");
    let payload = vec![9u8; 60000];
    m.write(&payload).unwrap();
    let item = m.last_item().unwrap();
    assert_eq!(item.offset, WASM_PAGE_SIZE);
    assert_eq!(item.size, 60005);
    let mem = m.get().unwrap();
    assert_eq!(mem.data_size(&m.store), 2 * WASM_PAGE_SIZE);
}

#[test]
fn write_fails_when_one_page_growth_is_not_enough() {
    let mut m = manager_for("(module (memory (export \"memory\") 1))");
    let payload = vec![9u8; 2 * WASM_PAGE_SIZE];
    assert!(m.write(&payload).is_err());
    // A failed write records nothing.
    assert!(m.last_item().is_none());
    assert_eq!(m.allocations.len(), 0);
}

#[test]
fn new_memory_creates_a_fresh_one_page_memory() {
    let m = manager_for("(module (memory (export \"memory\") 1))");
    let mut config = wasmtime::Config::new();
    config.memory_reservation(0);
    config.memory_guard_size(0);
    config.memory_reservation_for_growth(0);
    let engine = wasmtime::Engine::new(&config).unwrap();
    let data = StoreData {
        checker: Checker::new(),
        datasets: Datasets::new(),
        wasi: wasmtime_wasi::WasiCtxBuilder::new().build_p1(),
    };
    let mut other = wasmtime::Store::new(&engine, data);
    let mem = m.new_memory(&mut other).unwrap();
    assert_eq!(mem.data_size(&other), WASM_PAGE_SIZE);
    assert!(mem.data(&other).iter().all(|b| *b == 0));
}

#[test]
fn write_in_memory_registers_the_written_allocation() {
    let mut m = manager_for("(module (memory (export \"memory\") 1))");
    let mut registry = Datasets::new();
    let var = Var::Str("scores".to_string(), b"1,2,3".to_vec());
    registry.write_in_memory(var, &mut m).unwrap();
    let found = registry.lookup(&"scores".to_string()).unwrap();
    assert_eq!(found.offset, WASM_PAGE_SIZE);
    assert_eq!(found.size, 6);
    assert_eq!(m.last_item().unwrap().offset, found.offset);
    assert_eq!(registry.lookup(&"other".to_string()), None);
}

#[test]
fn write_fails_without_memory_export() {
    let mut m = manager_for("(module)");
    assert!(m.get().is_err());
    let r = m.write(b"hello");
    assert!(r.is_err());
    assert_eq!(r.unwrap_err().message, "failed to find `memory` export");
}
