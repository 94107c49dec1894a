//! The memory manager: a bump allocator that places wire records into the
//! guest's exported linear memory. The cursor only ever advances, nothing is
//! reclaimed, and every successful write is recorded as an allocation; when a
//! record does not fit, the memory is grown by exactly one page and the write
//! is retried once.

use vstd::prelude::*;

use vstd::seq_lib::*;

use crate::checker::StoreData;
use crate::wasm::{
    append_preserving, compatible, guest_mem, has_func_export, has_mem_export, memory_bytes,
    store_failures, store_success,
};
use crate::wire::wire_record;

verus! {

/// Size in bytes of one guest memory page.
pub const WASM_PAGE_SIZE: usize = 65536;

/// Error surfaced by memory management and execution operations.
#[derive(Debug)]
pub struct Error {
    pub message: String,
}

/// One allocation: the guest-memory byte offset a wire record was written
/// at, and the record's total size in bytes.
#[derive(Debug, Clone, Copy, PartialEq, Eq, Structural)]
pub struct Item {
    pub offset: usize,
    pub size: usize,
}

/// How a raw memory operation failed.
pub(crate) enum MemFail {
    NoExport,
    OutOfBounds(String),
    GrowRefused(String),
}

/// Bump allocator bound to the linear memory one instance exports. The first
/// guest page is left to the guest as scratch space: the cursor starts at
/// `WASM_PAGE_SIZE` and never moves backwards.
pub struct MemoryManager {
    pub last_alloc_ptr: usize,
    pub memory_name: String,
    pub allocations: Vec<Item>,
    pub store: wasmtime::Store<StoreData>,
    pub instance: wasmtime::Instance,
    pub payloads: Ghost<Seq<Seq<u8>>>,
}

impl MemoryManager {
    /// The bytes of the guest memory this manager writes into.
    pub open spec fn mem(self) -> Seq<u8> {
        guest_mem(self.instance, self.memory_name@, self.store)
    }

    /// Whether the instance exports the memory this manager is bound to.
    pub open spec fn has_mem(self) -> bool {
        has_mem_export(self.instance, self.memory_name@)
    }

    /// The store owns the instance, so the pair can be used together without
    /// the ownership panics wasmtime documents. Instantiation establishes
    /// this, and no operation of this manager revokes it.
    pub open spec fn compat(self) -> bool {
        compatible(self.instance, self.store)
    }

    /// The checker message lists held by this manager's store are the same
    /// in `a` and `b`: memory management never touches them.
    pub open spec fn state_lists_eq(a: Self, b: Self) -> bool {
        &&& store_failures(b.store) == store_failures(a.store)
        &&& store_success(b.store) == store_success(a.store)
    }

    /// The two managers agree on everything but the store.
    pub open spec fn book_eq(a: Self, b: Self) -> bool {
        &&& b.last_alloc_ptr == a.last_alloc_ptr
        &&& b.memory_name@ == a.memory_name@
        &&& b.allocations@ == a.allocations@
        &&& b.instance == a.instance
        &&& b.payloads@ == a.payloads@
    }

    /// Manager invariant: each allocation holds the wire record of its
    /// payload, allocations sit disjointly below the cursor, and each record
    /// is present in guest memory.
    pub open spec fn wf(self) -> bool {
        let a = self.allocations@;
        let p = self.payloads@;
        &&& p.len() == a.len()
        &&& forall|k: int|
            0 <= k < a.len() ==> (#[trigger] a[k]).size == wire_record(p[k]).len()
        &&& forall|k: int|
            0 <= k < a.len() ==> (#[trigger] a[k]).offset + a[k].size <= self.last_alloc_ptr
        &&& forall|k: int|
            0 <= k < a.len() - 1 ==> (#[trigger] a[k]).offset + a[k].size <= a[k + 1].offset
        &&& forall|k: int|
            0 <= k < a.len() ==> (#[trigger] a[k]).offset + a[k].size <= self.mem().len()
        &&& forall|k: int|
            0 <= k < a.len() ==> self.mem().subrange(
                (#[trigger] a[k]).offset as int,
                a[k].offset + a[k].size,
            ) == wire_record(p[k])
    }

    /// A fresh manager over `store` and `instance`, with its cursor at
    /// `start_offset` and nothing allocated.
    pub fn new(
        start_offset: usize,
        name: &str,
        store: wasmtime::Store<StoreData>,
        instance: wasmtime::Instance,
    ) -> (m: MemoryManager)
        ensures
            m.last_alloc_ptr == start_offset,
            m.memory_name@ == name@,
            m.allocations@.len() == 0,
            m.payloads@.len() == 0,
            m.store == store,
            m.instance == instance,
            m.wf(),
    {
        MemoryManager {
            last_alloc_ptr: start_offset,
            memory_name: name.to_owned(),
            allocations: Vec::new(),
            store,
            instance,
            payloads: Ghost(Seq::empty()),
        }
    }

    /// Relies on wasmtime::Instance::get_memory: fetches the exported linear
    /// memory. It is re-fetched on every use rather than cached, since
    /// growth invalidates references into the memory. The store must own the
    /// instance: wasmtime panics otherwise.
    #[verifier::external_body]
    pub fn get(&mut self) -> (r: Result<wasmtime::Memory, Error>)
        requires
            old(self).compat(),
        ensures
            Self::book_eq(*old(self), *final(self)),
            Self::state_lists_eq(*old(self), *final(self)),
            final(self).compat(),
            guest_mem(old(self).instance, old(self).memory_name@, final(self).store) == guest_mem(
                old(self).instance,
                old(self).memory_name@,
                old(self).store,
            ),
            r is Ok <==> has_mem_export(old(self).instance, old(self).memory_name@),
    {
        match self.instance.get_memory(&mut self.store, self.memory_name.as_str()) {
            Some(m) => Ok(m),
            None => Err(
                Error { message: "failed to find `memory` export".to_owned() },
            ),
        }
    }

    /// Relies on wasmtime::Instance::get_memory and wasmtime::Memory::write:
    /// writes `data` at `offset` in the exported memory; when the range
    /// exceeds the memory's current size nothing at all is written. The
    /// store must own the instance: wasmtime panics otherwise.
    #[verifier::external_body]
    fn raw_write(&mut self, offset: usize, data: &[u8]) -> (r: Result<(), MemFail>)
        requires
            old(self).compat(),
        ensures
            Self::book_eq(*old(self), *final(self)),
            Self::state_lists_eq(*old(self), *final(self)),
            final(self).compat(),
            match r {
                Ok(_) => {
                    &&& old(self).has_mem()
                    &&& offset + data@.len() <= old(self).mem().len()
                    &&& final(self).mem().len() == old(self).mem().len()
                    &&& forall|k: int|
                        0 <= k < offset ==> final(self).mem()[k] == old(self).mem()[k]
                    &&& forall|k: int|
                        offset <= k < offset + data@.len() ==> final(self).mem()[k] == data@[k
                            - offset]
                    &&& forall|k: int|
                        offset + data@.len() <= k < old(self).mem().len() ==> final(self).mem()[k] == old(self).mem()[k]
                },
                Err(MemFail::NoExport) => {
                    &&& !old(self).has_mem()
                    &&& final(self).mem() == old(self).mem()
                },
                Err(MemFail::OutOfBounds(_)) => {
                    &&& old(self).has_mem()
                    &&& offset + data@.len() > old(self).mem().len()
                    &&& final(self).mem() == old(self).mem()
                },
                Err(MemFail::GrowRefused(_)) => false,
            },
    {
        let mem = match self.instance.get_memory(&mut self.store, self.memory_name.as_str()) {
            Some(m) => m,
            None => {
                return Err(MemFail::NoExport);
            },
        };
        match mem.write(&mut self.store, offset, data) {
            Ok(()) => Ok(()),
            Err(e) => Err(MemFail::OutOfBounds(e.to_string())),
        }
    }

    /// Relies on wasmtime::Instance::get_memory and wasmtime::Memory::grow:
    /// grows the exported memory by exactly one page, preserving its
    /// contents; a page is 65536 bytes, since the custom-page-sizes feature
    /// is not part of this build. A refused growth leaves the memory as it
    /// was. The store must own the instance: wasmtime panics otherwise.
    #[verifier::external_body]
    fn grow_one(&mut self) -> (r: Result<(), MemFail>)
        requires
            old(self).compat(),
        ensures
            Self::book_eq(*old(self), *final(self)),
            Self::state_lists_eq(*old(self), *final(self)),
            final(self).compat(),
            match r {
                Ok(_) => {
                    &&& old(self).has_mem()
                    &&& final(self).mem().len() == old(self).mem().len() + WASM_PAGE_SIZE
                    &&& forall|k: int|
                        0 <= k < old(self).mem().len() ==> final(self).mem()[k] == old(self).mem()[k]
                },
                Err(MemFail::NoExport) => {
                    &&& !old(self).has_mem()
                    &&& final(self).mem() == old(self).mem()
                },
                Err(MemFail::GrowRefused(_)) => final(self).mem() == old(self).mem(),
                Err(MemFail::OutOfBounds(_)) => false,
            },
    {
        let mem = match self.instance.get_memory(&mut self.store, self.memory_name.as_str()) {
            Some(m) => m,
            None => {
                return Err(MemFail::NoExport);
            },
        };
        match mem.grow(&mut self.store, 1) {
            Ok(_) => Ok(()),
            Err(e) => Err(MemFail::GrowRefused(e.to_string())),
        }
    }

    /// Relies on wasmtime::Instance::get_typed_func and
    /// wasmtime::TypedFunc::call: looks up the exported zero-argument
    /// function named `func_name` and runs it to completion; `Err` carries
    /// the message of a missing or ill-typed export, or of a trap raised
    /// while the guest ran — never a panic. While the guest runs it can call
    /// the instance's imports, so with append-only imports the checker
    /// lists can only grow by appending. The store must own the instance:
    /// wasmtime panics otherwise.
    #[verifier::external_body]
    pub fn exec_func(&mut self, func_name: &str) -> (r: Result<(), Error>)
        requires
            old(self).compat(),
        ensures
            r is Ok ==> has_func_export(old(self).instance, func_name@),
            !has_func_export(old(self).instance, func_name@) ==> r is Err,
            append_preserving(old(self).instance) ==> store_failures(old(self).store).is_prefix_of(
                store_failures(final(self).store),
            ) && store_success(old(self).store).is_prefix_of(store_success(final(self).store)),
    {
        let func = match self.instance.get_typed_func::<(), ()>(&mut self.store, func_name) {
            Ok(f) => f,
            Err(e) => {
                return Err(Error { message: e.to_string() });
            },
        };
        match func.call(&mut self.store, ()) {
            Ok(()) => Ok(()),
            // The debug form keeps the cause chain, so the message a host
            // function trapped with stays visible to the caller.
            Err(e) => Err(Error { message: format!("{e:?}") }),
        }
    }

    /// Relies on wasmtime::Memory::new: creates a fresh linear memory of one
    /// initial page and no maximum, owned by `store` and independent of the
    /// guest's exported memory; wasm memory starts zeroed. A failed
    /// allocation is reported through the error's message.
    #[verifier::external_body]
    pub fn new_memory(&self, store: &mut wasmtime::Store<StoreData>) -> (r: Result<
        wasmtime::Memory,
        Error,
    >)
        ensures
            r matches Ok(m) ==> memory_bytes(m, *final(store)).len() == WASM_PAGE_SIZE,
            r matches Ok(m) ==> forall|k: int|
                0 <= k < WASM_PAGE_SIZE ==> memory_bytes(m, *final(store))[k] == 0,
    {
        let memory_type = wasmtime::MemoryType::new(1, None);
        match wasmtime::Memory::new(&mut *store, memory_type) {
            Ok(m) => Ok(m),
            Err(e) => Err(Error { message: e.to_string() }),
        }
    }

    /// Relies on wasmtime::Store::data_mut: installs the populated registry
    /// into the store's host state, where the `checker.datasets` import
    /// reads it; the checker message lists and the guest memory are not
    /// touched.
    #[verifier::external_body]
    pub(crate) fn install_datasets(&mut self, datasets: crate::checker::Datasets)
        ensures
            Self::book_eq(*old(self), *final(self)),
            Self::state_lists_eq(*old(self), *final(self)),
            old(self).compat() ==> final(self).compat(),
    {
        self.store.data_mut().datasets = datasets;
    }

    /// The most recently recorded allocation, as a value snapshot.
    pub fn last_item(&self) -> (r: Option<Item>)
        ensures
            r == if self.allocations@.len() > 0 {
                Some(self.allocations@.last())
            } else {
                Option::<Item>::None
            },
    {
        let n = self.allocations.len();
        if n > 0 {
            let it = &self.allocations[n - 1];
            Some(Item { offset: it.offset, size: it.size })
        } else {
            None
        }
    }

    /// Writes `buffer` as a wire record at the cursor, growing the memory by
    /// one page and retrying once if it does not fit; on success the
    /// allocation is recorded, the cursor advances by the record size, and
    /// every byte outside the new record is untouched. The cursor never
    /// decreases; a failed write changes no bookkeeping, and when one page
    /// would have sufficed it can only fail because the engine refused the
    /// growth, leaving the memory as it was.
    pub fn write(&mut self, buffer: &[u8]) -> (r: Result<(), Error>)
        requires
            old(self).wf(),
            old(self).compat(),
        ensures
            final(self).wf(),
            final(self).compat(),
            Self::state_lists_eq(*old(self), *final(self)),
            final(self).last_alloc_ptr >= old(self).last_alloc_ptr,
            final(self).instance == old(self).instance,
            final(self).memory_name@ == old(self).memory_name@,
            final(self).mem().len() >= old(self).mem().len(),
            forall|k: int|
                0 <= k < old(self).mem().len() && k < old(self).last_alloc_ptr ==> final(self).mem()[k] == old(self).mem()[k],
            match r {
                Ok(_) => {
                    &&& final(self).allocations@.len() == old(self).allocations@.len() + 1
                    &&& final(self).allocations@.subrange(
                        0,
                        old(self).allocations@.len() as int,
                    ) == old(self).allocations@
                    &&& final(self).allocations@.last().offset == old(self).last_alloc_ptr
                    &&& final(self).allocations@.last().size == wire_record(buffer@).len()
                    &&& final(self).payloads@ == old(self).payloads@.push(buffer@)
                    &&& final(self).last_alloc_ptr == old(self).last_alloc_ptr + wire_record(buffer@).len()
                    &&& final(self).mem().subrange(
                        old(self).last_alloc_ptr as int,
                        old(self).last_alloc_ptr + wire_record(buffer@).len(),
                    ) == wire_record(buffer@)
                    &&& (old(self).last_alloc_ptr + wire_record(buffer@).len() <= old(self).mem().len() ==> final(self).mem().len() == old(self).mem().len())
                    &&& (old(self).last_alloc_ptr + wire_record(buffer@).len() > old(self).mem().len() ==> final(self).mem().len() == old(self).mem().len()
                        + WASM_PAGE_SIZE)
                    &&& forall|k: int|
                        old(self).last_alloc_ptr + wire_record(buffer@).len() <= k < old(self).mem().len() ==> final(self).mem()[k] == old(self).mem()[k]
                },
                Err(_) => {
                    &&& final(self).allocations@ == old(self).allocations@
                    &&& final(self).payloads@ == old(self).payloads@
                    &&& final(self).last_alloc_ptr == old(self).last_alloc_ptr
                },
            },
            old(self).has_mem() && old(self).last_alloc_ptr + wire_record(buffer@).len() <= old(self).mem().len() && old(self).last_alloc_ptr + wire_record(buffer@).len() <= usize::MAX ==> r is Ok,
            old(self).has_mem() && old(self).last_alloc_ptr + wire_record(buffer@).len() <= old(self).mem().len() + WASM_PAGE_SIZE && old(self).last_alloc_ptr + wire_record(buffer@).len() <= usize::MAX ==> r is Ok || final(self).mem().len() == old(self).mem().len(),
    {
        match self.get() {
            Ok(_m) => {},
            Err(e) => {
                return Err(e);
            },
        }
        let enc: Vec<u8> = crate::wire::encode_record(buffer);
        let ptr = self.last_alloc_ptr;
        if usize::MAX - ptr < enc.len() {
            return Err(Error { message: "allocation cursor overflow".to_owned() });
        }
        match self.raw_write(ptr, enc.as_slice()) {
            Ok(()) => {},
            Err(MemFail::NoExport) => {
                return Err(Error { message: "failed to find `memory` export".to_owned() });
            },
            Err(MemFail::GrowRefused(m)) => {
                return Err(Error { message: m });
            },
            Err(MemFail::OutOfBounds(_)) => {
                match self.grow_one() {
                    Ok(()) => {},
                    Err(MemFail::GrowRefused(m)) => {
                        proof {
                            lemma_wf_prefix_preserved(*old(self), *self);
                        }
                        return Err(Error { message: m });
                    },
                    Err(MemFail::NoExport) => {
                        return Err(Error { message: "failed to find `memory` export".to_owned() });
                    },
                    Err(MemFail::OutOfBounds(m)) => {
                        return Err(Error { message: m });
                    },
                }
                match self.raw_write(ptr, enc.as_slice()) {
                    Ok(()) => {},
                    Err(MemFail::OutOfBounds(m)) => {
                        proof {
                            lemma_wf_prefix_preserved(*old(self), *self);
                        }
                        return Err(Error { message: m });
                    },
                    Err(MemFail::NoExport) => {
                        return Err(Error { message: "failed to find `memory` export".to_owned() });
                    },
                    Err(MemFail::GrowRefused(m)) => {
                        return Err(Error { message: m });
                    },
                }
            },
        }
        let size = enc.len();
        self.allocations.push(Item { offset: ptr, size });
        self.payloads = Ghost(self.payloads@.push(buffer@));
        self.last_alloc_ptr = ptr + size;
        proof {
            assert(self.allocations@.subrange(0, old(self).allocations@.len() as int)
                =~= old(self).allocations@);
            assert forall|t: int| 0 <= t < enc@.len() implies self.mem().subrange(
                ptr as int,
                ptr + enc@.len(),
            )[t] == enc@[t] by {
                assert(self.mem()[ptr + t] == enc@[(ptr + t) - ptr]);
            }
            assert(self.mem().subrange(ptr as int, ptr + enc@.len()) =~= enc@);
            lemma_wf_append(*old(self), *self, buffer@);
        }
        Ok(())
    }
}

/// Growing the memory without touching bookkeeping or existing bytes
/// preserves the manager invariant.
proof fn lemma_wf_prefix_preserved(pre: MemoryManager, post: MemoryManager)
    requires
        pre.wf(),
        MemoryManager::book_eq(pre, post),
        post.mem().len() >= pre.mem().len(),
        forall|k: int| 0 <= k < pre.mem().len() ==> post.mem()[k] == pre.mem()[k],
    ensures
        post.wf(),
{
    let a = pre.allocations@;
    assert forall|k: int| 0 <= k < a.len() implies post.mem().subrange(
        (#[trigger] a[k]).offset as int,
        a[k].offset + a[k].size,
    ) == wire_record(pre.payloads@[k]) by {
        let o = a[k].offset as int;
        let e = a[k].offset + a[k].size;
        assert(e <= pre.mem().len());
        assert forall|t: int| o <= t < e implies post.mem()[t] == pre.mem()[t] by {}
        assert(post.mem().subrange(o, e) =~= pre.mem().subrange(o, e));
    }
}

/// Appending one allocation whose record sits at the old cursor, with all
/// bytes below the cursor untouched, preserves the manager invariant.
proof fn lemma_wf_append(pre: MemoryManager, post: MemoryManager, payload: Seq<u8>)
    requires
        pre.wf(),
        post.instance == pre.instance,
        post.memory_name@ == pre.memory_name@,
        post.allocations@.len() == pre.allocations@.len() + 1,
        post.allocations@.subrange(0, pre.allocations@.len() as int) == pre.allocations@,
        post.allocations@.last().offset == pre.last_alloc_ptr,
        post.allocations@.last().size == wire_record(payload).len(),
        post.payloads@ == pre.payloads@.push(payload),
        post.last_alloc_ptr == pre.last_alloc_ptr + wire_record(payload).len(),
        post.mem().len() >= pre.mem().len(),
        forall|k: int|
            0 <= k < pre.mem().len() && k < pre.last_alloc_ptr ==> post.mem()[k] == pre.mem()[k],
        post.mem().subrange(
            pre.last_alloc_ptr as int,
            pre.last_alloc_ptr + wire_record(payload).len(),
        ) == wire_record(payload),
        pre.last_alloc_ptr + wire_record(payload).len() <= post.mem().len(),
    ensures
        post.wf(),
{
    let a = pre.allocations@;
    let b = post.allocations@;
    let n = a.len() as int;
    assert(forall|k: int| 0 <= k < n ==> b[k] == a[k]);
    assert(b[n] == b.last());
    assert forall|k: int| 0 <= k < b.len() implies post.mem().subrange(
        (#[trigger] b[k]).offset as int,
        b[k].offset + b[k].size,
    ) == wire_record(post.payloads@[k]) by {
        if k < n {
            let o = a[k].offset as int;
            let e = a[k].offset + a[k].size;
            assert(e <= pre.mem().len());
            assert(e <= pre.last_alloc_ptr);
            assert forall|t: int| o <= t < e implies post.mem()[t] == pre.mem()[t] by {}
            assert(post.mem().subrange(o, e) =~= pre.mem().subrange(o, e));
            assert(post.payloads@[k] == pre.payloads@[k]);
        } else {
            assert(post.payloads@[k] == payload);
        }
    }
}

/// Distinct allocations of one execution occupy disjoint byte ranges: the
/// cursor only ever advances past each record.
pub proof fn lemma_allocations_disjoint(m: MemoryManager, i: int, j: int)
    requires
        m.wf(),
        0 <= i < j < m.allocations@.len(),
    ensures
        m.allocations@[i].offset + m.allocations@[i].size <= m.allocations@[j].offset,
    decreases j - i,
{
    if j == i + 1 {
    } else {
        lemma_allocations_disjoint(m, i, j - 1);
    }
}

} // verus!
