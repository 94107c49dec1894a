//! Checker state and the dataset registry: the two pieces of host state one
//! execution owns. The checker state is a pair of append-only message lists
//! the guest fills through host calls; the registry maps each dataset name to
//! the allocation its content was written into.

use vstd::prelude::*;
use vstd::seq_lib::*;

use crate::memory::{Error, MemoryManager, WASM_PAGE_SIZE};
use crate::wasm::{
    caller_datasets, caller_failures, caller_has_mem, caller_mem, caller_state_eq, caller_success,
};
use crate::wire::{dec_digits, wire_record};

verus! {

/// A list of messages, each as its character sequence.
pub open spec fn msg_views(s: Seq<String>) -> Seq<Seq<char>> {
    s.map_values(|m: String| m@)
}

/// Appending a message appends its characters to the viewed list.
pub proof fn lemma_msg_views_push(s: Seq<String>, m: String)
    ensures
        msg_views(s.push(m)) == msg_views(s).push(m@),
{
    assert(msg_views(s.push(m)) =~= msg_views(s).push(m@));
}

/// A prefix of a prefix is a prefix.
proof fn lemma_prefix_trans(a: Seq<Seq<char>>, b: Seq<Seq<char>>, c: Seq<Seq<char>>)
    requires
        a.is_prefix_of(b),
        b.is_prefix_of(c),
    ensures
        a.is_prefix_of(c),
{
    assert(a =~= c.subrange(0, a.len() as int));
}

/// Pass/fail state of one execution: two append-only message lists, mutated
/// only by the host functions the guest calls, read once the entry point
/// returns.
#[derive(Debug)]
pub struct Checker {
    pub failures: Vec<String>,
    pub success: Vec<String>,
}

impl Checker {
    /// A fresh state: both lists empty.
    pub fn new() -> (c: Checker)
        ensures
            c.failures@.len() == 0,
            c.success@.len() == 0,
    {
        Checker { failures: Vec::new(), success: Vec::new() }
    }

    /// Appends one failure message, preserving everything already recorded.
    pub fn record_failure(&mut self, message: String)
        ensures
            final(self).failures@ == old(self).failures@.push(message),
            final(self).success == old(self).success,
    {
        self.failures.push(message);
    }

    /// Appends one success message, preserving everything already recorded.
    pub fn record_success(&mut self, message: String)
        ensures
            final(self).success@ == old(self).success@.push(message),
            final(self).failures == old(self).failures,
    {
        self.success.push(message);
    }
}

impl Default for Checker {
    fn default() -> (c: Checker)
        ensures
            c.failures@.len() == 0,
            c.success@.len() == 0,
    {
        Checker::new()
    }
}

/// Where one dataset lives in guest memory: the byte offset its wire record
/// starts at, and the record's total size in bytes (digit prefix + payload).
#[derive(Debug, Clone, Copy, PartialEq, Eq, Structural)]
pub struct Dataset {
    pub offset: usize,
    pub size: usize,
}

/// A named value handed to the execution to be placed into guest memory.
/// Strings are the only supported kind.
pub enum Var {
    Str(String, Vec<u8>),
}

impl Var {
    /// The dataset name this variable is registered under.
    pub open spec fn name(self) -> Seq<char> {
        match self {
            Var::Str(n, _) => n@,
        }
    }

    /// The raw payload bytes to be written.
    pub open spec fn payload(self) -> Seq<u8> {
        match self {
            Var::Str(_, b) => b@,
        }
    }
}

/// The dataset registry: name -> allocation, populated before the guest entry
/// point runs and read-only from then on. Keys are unique; `contents`
/// remembers, in ghost state, the payload registered under each name.
pub struct Datasets {
    pub items: Vec<(String, Dataset)>,
    pub contents: Ghost<Map<Seq<char>, Seq<u8>>>,
}

impl Datasets {
    /// The mapping a sequence of entries denotes: later entries win.
    pub open spec fn map_of(items: Seq<(String, Dataset)>) -> Map<Seq<char>, Dataset>
        decreases items.len(),
    {
        if items.len() == 0 {
            Map::empty()
        } else {
            Self::map_of(items.drop_last()).insert(items.last().0@, items.last().1)
        }
    }

    /// The registry as a mapping from names to allocations.
    pub open spec fn as_map(self) -> Map<Seq<char>, Dataset> {
        Self::map_of(self.items@)
    }

    /// No name occurs twice in the entry list.
    pub open spec fn keys_unique(items: Seq<(String, Dataset)>) -> bool {
        forall|i: int, j: int|
            0 <= i < j < items.len() ==> items[i].0@ != items[j].0@
    }

    /// Registry well-formedness: unique keys.
    pub open spec fn wf(self) -> bool {
        Self::keys_unique(self.items@)
    }

    /// An empty registry.
    pub fn new() -> (d: Datasets)
        ensures
            d.wf(),
            d.as_map() == Map::<Seq<char>, Dataset>::empty(),
            d.contents@ == Map::<Seq<char>, Seq<u8>>::empty(),
    {
        Datasets { items: Vec::new(), contents: Ghost(Map::empty()) }
    }

    /// The last entry holding a name is what the mapping holds for it.
    proof fn lemma_last_match(items: Seq<(String, Dataset)>, name: Seq<char>, i: int)
        requires
            0 <= i < items.len(),
            items[i].0@ == name,
            forall|k: int| i < k < items.len() ==> items[k].0@ != name,
        ensures
            Self::map_of(items).contains_key(name),
            Self::map_of(items)[name] == items[i].1,
        decreases items.len(),
    {
        if i == items.len() - 1 {
        } else {
            assert(items.drop_last()[i] == items[i]);
            assert(forall|k: int|
                i < k < items.drop_last().len() ==> items.drop_last()[k] == items[k]);
            Self::lemma_last_match(items.drop_last(), name, i);
            assert(items.last().0@ != name);
        }
    }

    /// A name no entry holds is absent from the mapping.
    proof fn lemma_no_key(items: Seq<(String, Dataset)>, name: Seq<char>)
        requires
            forall|k: int| 0 <= k < items.len() ==> items[k].0@ != name,
        ensures
            !Self::map_of(items).contains_key(name),
        decreases items.len(),
    {
        if items.len() == 0 {
        } else {
            assert(forall|k: int|
                0 <= k < items.drop_last().len() ==> items.drop_last()[k] == items[k]);
            Self::lemma_no_key(items.drop_last(), name);
            assert(items[items.len() - 1].0@ != name);
        }
    }

    /// Appending a fresh entry inserts its pair into the mapping.
    proof fn lemma_map_of_push(items: Seq<(String, Dataset)>, entry: (String, Dataset))
        ensures
            Self::map_of(items.push(entry)) == Self::map_of(items).insert(entry.0@, entry.1),
    {
        assert(items.push(entry).drop_last() =~= items);
    }

    /// Replacing the entry that holds a name updates the mapping at that name.
    proof fn lemma_map_of_update(items: Seq<(String, Dataset)>, i: int, entry: (String, Dataset))
        requires
            Self::keys_unique(items),
            0 <= i < items.len(),
            items[i].0@ == entry.0@,
        ensures
            Self::map_of(items.update(i, entry)) == Self::map_of(items).insert(entry.0@, entry.1),
        decreases items.len(),
    {
        let upd = items.update(i, entry);
        if i == items.len() - 1 {
            assert(upd.drop_last() =~= items.drop_last());
            assert(upd.last() == entry);
            assert(Self::map_of(items.drop_last()).insert(items.last().0@, items.last().1)
                .insert(entry.0@, entry.1)
                =~= Self::map_of(items.drop_last()).insert(entry.0@, entry.1));
        } else {
            assert(upd.drop_last() =~= items.drop_last().update(i, entry));
            assert(upd.last() == items.last());
            assert(forall|a: int, b: int|
                0 <= a < b < items.drop_last().len()
                    ==> items.drop_last()[a].0@ != items.drop_last()[b].0@);
            Self::lemma_map_of_update(items.drop_last(), i, entry);
            assert(items.drop_last()[i] == items[i]);
            assert(items.last().0@ != entry.0@);
            assert(Self::map_of(items.drop_last()).insert(entry.0@, entry.1)
                .insert(items.last().0@, items.last().1)
                =~= Self::map_of(items.drop_last()).insert(items.last().0@, items.last().1)
                .insert(entry.0@, entry.1));
        }
    }

    /// Inserts `d` under `name`, overwriting any allocation already there.
    pub fn register(&mut self, name: String, d: Dataset)
        requires
            old(self).wf(),
        ensures
            final(self).wf(),
            final(self).as_map() == old(self).as_map().insert(name@, d),
            final(self).contents == old(self).contents,
    {
        let n = self.items.len();
        let mut i: usize = 0;
        while i < n
            invariant
                n == self.items@.len(),
                i <= n,
                *self == *old(self),
                self.wf(),
                forall|k: int| 0 <= k < i ==> self.items@[k].0@ != name@,
            decreases n - i,
        {
            if self.items[i].0 == name {
                proof {
                    Self::lemma_map_of_update(self.items@, i as int, (name, d));
                }
                self.items[i] = (name, d);
                return;
            }
            i = i + 1;
        }
        proof {
            Self::lemma_map_of_push(self.items@, (name, d));
        }
        self.items.push((name, d));
    }

    /// Looks the name up; `Some` exactly when it was registered.
    pub fn lookup(&self, name: &String) -> (r: Option<Dataset>)
        ensures
            r == if self.as_map().contains_key(name@) {
                Some(self.as_map()[name@])
            } else {
                Option::<Dataset>::None
            },
    {
        let n = self.items.len();
        let mut i: usize = n;
        while i > 0
            invariant
                n == self.items@.len(),
                i <= n,
                forall|k: int| i <= k < n ==> self.items@[k].0@ != name@,
            decreases i,
        {
            let j = i - 1;
            if self.items[j].0 == *name {
                proof {
                    Self::lemma_last_match(self.items@, name@, j as int);
                }
                return Some(self.items[j].1);
            }
            i = j;
        }
        proof {
            Self::lemma_no_key(self.items@, name@);
        }
        None
    }
}

/// Names in a list of (name, content) pairs are pairwise distinct: the list
/// stands for a mapping.
pub open spec fn names_unique(s: Seq<(String, String)>) -> bool {
    forall|i: int, j: int| 0 <= i < j < s.len() ==> s[i].0@ != s[j].0@
}

/// Total guest memory the wire records of the first `n` pairs occupy.
pub open spec fn total_record_len(s: Seq<(String, String)>, n: int) -> int
    decreases n,
{
    if n <= 0 {
        0
    } else {
        total_record_len(s, n - 1) + wire_record(vstd::utf8::encode_utf8(s[n - 1].1@)).len()
    }
}

/// Records only add up: a longer prefix occupies at least as much.
proof fn lemma_total_record_len_mono(s: Seq<(String, String)>, i: int, j: int)
    requires
        0 <= i <= j,
    ensures
        total_record_len(s, i) <= total_record_len(s, j),
    decreases j,
{
    if i < j {
        lemma_total_record_len_mono(s, i, j - 1);
    }
}

impl Datasets {
    /// Every registered dataset points at an allocation of `m` whose
    /// recorded payload is exactly the content registered under that name.
    pub open spec fn registered_in(self, m: MemoryManager) -> bool {
        forall|n: Seq<char>| #[trigger] self.as_map().contains_key(n) ==> {
            &&& self.contents@.contains_key(n)
            &&& exists|j: int|
                0 <= j < m.allocations@.len() && (#[trigger] m.allocations@[j]).offset
                    == self.as_map()[n].offset && m.allocations@[j].size == self.as_map()[n].size
                    && m.payloads@[j] == self.contents@[n]
        }
    }

    /// Writes one variable's payload into guest memory through the manager
    /// and registers the resulting allocation under the variable's name.
    pub fn write_in_memory(&mut self, var: Var, memory_manager: &mut MemoryManager) -> (r: Result<
        (),
        Error,
    >)
        requires
            old(self).wf(),
            old(memory_manager).wf(),
            old(memory_manager).compat(),
            old(self).registered_in(*old(memory_manager)),
        ensures
            final(self).wf(),
            final(memory_manager).wf(),
            final(memory_manager).compat(),
            MemoryManager::state_lists_eq(*old(memory_manager), *final(memory_manager)),
            final(self).registered_in(*final(memory_manager)),
            final(memory_manager).instance == old(memory_manager).instance,
            final(memory_manager).memory_name@ == old(memory_manager).memory_name@,
            final(memory_manager).last_alloc_ptr >= old(memory_manager).last_alloc_ptr,
            old(memory_manager).has_mem() && old(memory_manager).last_alloc_ptr + wire_record(
                var.payload(),
            ).len() <= old(memory_manager).mem().len() && old(memory_manager).last_alloc_ptr
                + wire_record(var.payload()).len() <= usize::MAX ==> r is Ok,
            match r {
                Ok(_) => {
                    &&& final(memory_manager).allocations@.len() == old(
                        memory_manager,
                    ).allocations@.len() + 1
                    &&& final(memory_manager).last_alloc_ptr == old(memory_manager).last_alloc_ptr
                        + wire_record(var.payload()).len()
                    &&& final(memory_manager).mem().len() >= old(memory_manager).mem().len()
                    &&& final(self).as_map().contains_key(var.name())
                    &&& final(self).as_map()[var.name()].offset == old(
                        memory_manager,
                    ).last_alloc_ptr
                    &&& final(self).as_map()[var.name()].size == wire_record(var.payload()).len()
                    &&& final(self).as_map() == old(self).as_map().insert(
                        var.name(),
                        final(self).as_map()[var.name()],
                    )
                    &&& final(self).contents@ == old(self).contents@.insert(
                        var.name(),
                        var.payload(),
                    )
                },
                Err(_) => {
                    &&& final(memory_manager).allocations@ == old(memory_manager).allocations@
                    &&& final(self).as_map() == old(self).as_map()
                    &&& final(self).contents@ == old(self).contents@
                },
            },
    {
        let (name, buffer) = match var {
            Var::Str(n, b) => (n, b),
        };
        match memory_manager.write(buffer.as_slice()) {
            Ok(()) => {},
            Err(e) => {
                return Err(e);
            },
        }
        let item = match memory_manager.last_item() {
            Some(it) => it,
            None => {
                return Err(
                    Error { message: "dataset offset not pushed to memory manager".to_owned() },
                );
            },
        };
        let ghost nv = name@;
        self.register(name, Dataset { offset: item.offset, size: item.size });
        self.contents = Ghost(self.contents@.insert(nv, buffer@));
        proof {
            let pre_m = *old(memory_manager);
            let post_m = *memory_manager;
            let newj = pre_m.allocations@.len() as int;
            assert(post_m.allocations@[newj] == post_m.allocations@.last());
            assert forall|n: Seq<char>| #[trigger] self.as_map().contains_key(n) implies {
                &&& self.contents@.contains_key(n)
                &&& exists|j: int|
                    0 <= j < post_m.allocations@.len() && (#[trigger] post_m.allocations@[j]).offset
                        == self.as_map()[n].offset && post_m.allocations@[j].size
                        == self.as_map()[n].size && post_m.payloads@[j] == self.contents@[n]
            } by {
                if n == nv {
                    assert(0 <= newj < post_m.allocations@.len() && post_m.allocations@[newj].offset
                        == self.as_map()[n].offset && post_m.allocations@[newj].size
                        == self.as_map()[n].size && post_m.payloads@[newj] == self.contents@[n]);
                } else {
                    assert(old(self).as_map().contains_key(n));
                    let j = choose|j: int|
                        0 <= j < pre_m.allocations@.len() && (#[trigger] pre_m.allocations@[j]).offset
                            == old(self).as_map()[n].offset && pre_m.allocations@[j].size == old(
                            self,
                        ).as_map()[n].size && pre_m.payloads@[j] == old(self).contents@[n];
                    assert(post_m.allocations@.subrange(0, pre_m.allocations@.len() as int)[j]
                        == post_m.allocations@[j]);
                    assert(post_m.allocations@[j] == pre_m.allocations@[j]);
                }
            }
        }
        Ok(())
    }

    /// Writes every (name, content) pair of a dataset mapping into guest
    /// memory and registers each resulting allocation under its name; the
    /// pairs are processed in order and each write is independently atomic.
    pub fn from_pairs(
        &mut self,
        ds: Vec<(String, String)>,
        memory_manager: &mut MemoryManager,
    ) -> (r: Result<(), Error>)
        requires
            old(self).wf(),
            old(memory_manager).wf(),
            old(memory_manager).compat(),
            old(self).registered_in(*old(memory_manager)),
            names_unique(ds@),
        ensures
            final(self).wf(),
            final(memory_manager).wf(),
            final(memory_manager).compat(),
            MemoryManager::state_lists_eq(*old(memory_manager), *final(memory_manager)),
            final(self).registered_in(*final(memory_manager)),
            final(memory_manager).instance == old(memory_manager).instance,
            final(memory_manager).memory_name@ == old(memory_manager).memory_name@,
            final(memory_manager).last_alloc_ptr >= old(memory_manager).last_alloc_ptr,
            ds@.len() == 0 ==> r is Ok,
            old(memory_manager).has_mem() && old(memory_manager).last_alloc_ptr + total_record_len(
                ds@,
                ds@.len() as int,
            ) <= old(memory_manager).mem().len() && old(memory_manager).last_alloc_ptr
                + total_record_len(ds@, ds@.len() as int) <= usize::MAX ==> r is Ok,
            r is Ok ==> final(memory_manager).allocations@.len() == old(
                memory_manager,
            ).allocations@.len() + ds@.len(),
            r is Ok ==> forall|k: int|
                0 <= k < ds@.len() ==> {
                    &&& final(self).as_map().contains_key((#[trigger] ds@[k]).0@)
                    &&& final(self).contents@.contains_key(ds@[k].0@)
                    &&& final(self).contents@[ds@[k].0@] == vstd::utf8::encode_utf8(ds@[k].1@)
                },
    {
        let n = ds.len();
        let mut i: usize = 0;
        while i < n
            invariant
                n == ds@.len(),
                i <= n,
                names_unique(ds@),
                self.wf(),
                memory_manager.wf(),
                memory_manager.compat(),
                MemoryManager::state_lists_eq(*old(memory_manager), *memory_manager),
                memory_manager.allocations@.len() == old(memory_manager).allocations@.len() + i,
                memory_manager.last_alloc_ptr == old(memory_manager).last_alloc_ptr
                    + total_record_len(ds@, i as int),
                memory_manager.mem().len() >= old(memory_manager).mem().len(),
                self.registered_in(*memory_manager),
                memory_manager.instance == old(memory_manager).instance,
                memory_manager.memory_name@ == old(memory_manager).memory_name@,
                memory_manager.last_alloc_ptr >= old(memory_manager).last_alloc_ptr,
                forall|k: int|
                    0 <= k < i ==> {
                        &&& self.as_map().contains_key((#[trigger] ds@[k]).0@)
                        &&& self.contents@.contains_key(ds@[k].0@)
                        &&& self.contents@[ds@[k].0@] == vstd::utf8::encode_utf8(ds@[k].1@)
                    },
            decreases n - i,
        {
            let name = ds[i].0.clone();
            let content_bytes = vstd::slice::slice_to_vec(ds[i].1.as_str().as_bytes());
            let var = Var::Str(name, content_bytes);
            let ghost vp = var.payload();
            let ghost pre_m = *memory_manager;
            match self.write_in_memory(var, memory_manager) {
                Ok(()) => {
                    proof {
                        assert(total_record_len(ds@, i as int + 1) == total_record_len(
                            ds@,
                            i as int,
                        ) + wire_record(vstd::utf8::encode_utf8(ds@[i as int].1@)).len());
                    }
                },
                Err(e) => {
                    proof {
                        if old(memory_manager).has_mem() && old(memory_manager).last_alloc_ptr
                            + total_record_len(ds@, ds@.len() as int) <= old(
                            memory_manager,
                        ).mem().len() && old(memory_manager).last_alloc_ptr + total_record_len(
                            ds@,
                            ds@.len() as int,
                        ) <= usize::MAX {
                            lemma_total_record_len_mono(ds@, i as int + 1, ds@.len() as int);
                            assert(total_record_len(ds@, i as int + 1) == total_record_len(
                                ds@,
                                i as int,
                            ) + wire_record(vstd::utf8::encode_utf8(ds@[i as int].1@)).len());
                            assert(vp == vstd::utf8::encode_utf8(ds@[i as int].1@));
                            assert(pre_m.has_mem());
                            assert(pre_m.last_alloc_ptr + wire_record(vp).len() <= pre_m.mem().len());
                            assert(pre_m.last_alloc_ptr + wire_record(vp).len() <= usize::MAX);
                            assert(false);
                        }
                    }
                    return Err(e);
                },
            }
            i = i + 1;
        }
        Ok(())
    }
}

/// Round trip: a registered dataset name resolves to an allocation holding
/// the digit prefix followed by exactly the registered content, so reading
/// `size - prefix` bytes at `offset + prefix` from guest memory reproduces
/// the content, where `prefix` is the number of decimal digits of the
/// content's length.
pub proof fn lemma_dataset_round_trip(ds: Datasets, m: MemoryManager, n: Seq<char>)
    requires
        m.wf(),
        ds.registered_in(m),
        ds.as_map().contains_key(n),
    ensures
        ({
            let d = ds.as_map()[n];
            let content = ds.contents@[n];
            &&& ds.contents@.contains_key(n)
            &&& d.size == wire_record(content).len()
            &&& d.offset + d.size <= m.mem().len()
            &&& m.mem().subrange(
                d.offset + dec_digits(content.len()).len(),
                d.offset + d.size,
            ) == content
        }),
{
    let d = ds.as_map()[n];
    let content = ds.contents@[n];
    let j = choose|j: int|
        0 <= j < m.allocations@.len() && (#[trigger] m.allocations@[j]).offset == d.offset
            && m.allocations@[j].size == d.size && m.payloads@[j] == content;
    crate::wire::lemma_wire_record_parts(content);
    let o = d.offset as int;
    let e = d.offset + d.size;
    let p = dec_digits(content.len()).len() as int;
    assert(m.mem().subrange(o, e) == wire_record(content));
    assert forall|t: int| 0 <= t < e - (o + p) implies m.mem().subrange(o + p, e)[t]
        == content[t] by {
        assert(m.mem().subrange(o + p, e)[t] == m.mem()[o + p + t]);
        assert(m.mem()[o + p + t] == m.mem().subrange(o, e)[p + t]);
        assert(wire_record(content)[p + t] == wire_record(content).subrange(
            p,
            wire_record(content).len() as int,
        )[t]);
    }
    assert(m.mem().subrange(o + p, e) =~= content);
}

/// Why a host function refuses a guest call; surfaced to the guest as a trap
/// that aborts the in-flight entry invocation.
#[derive(Debug, Clone, Copy, PartialEq, Eq, Structural)]
pub enum TrapKind {
    NoMemory,
    OutOfBounds,
    InvalidUtf8,
    NoSuchDataset,
}

impl TrapKind {
    /// The message the trap carries.
    pub fn text(&self) -> (s: String)
        ensures
            s@ == match *self {
                TrapKind::NoMemory => "failed to find host memory"@,
                TrapKind::OutOfBounds => "pointer/length out of bounds"@,
                TrapKind::InvalidUtf8 => "invalid utf-8"@,
                TrapKind::NoSuchDataset => "no dataset with that name"@,
            },
    {
        match self {
            TrapKind::NoMemory => "failed to find host memory".to_owned(),
            TrapKind::OutOfBounds => "pointer/length out of bounds".to_owned(),
            TrapKind::InvalidUtf8 => "invalid utf-8".to_owned(),
            TrapKind::NoSuchDataset => "no dataset with that name".to_owned(),
        }
    }
}

/// Everything one execution's store carries: the verdict state, the dataset
/// registry the guest queries, and the guest's system-interface context.
pub struct StoreData {
    pub checker: Checker,
    pub datasets: Datasets,
    pub wasi: wasmtime_wasi::p1::WasiP1Ctx,
}

/// Reads the UTF-8 string a guest passed as a (pointer, length) pair out of
/// the guest's own exported memory: both arguments are taken as the guest's
/// unsigned 32-bit values, the range is checked against the memory's current
/// size, and the bytes must decode as UTF-8. Each refusal is exactly the
/// trap named for it, and nothing the guest can observe is changed.
pub fn get_string(
    caller: &mut wasmtime::Caller<'_, StoreData>,
    ptr: i32,
    len: i32,
) -> (r: Result<String, TrapKind>)
    ensures
        caller_state_eq(*old(caller), *final(caller)),
        ({
            let p = ptr as u32 as int;
            let l = len as u32 as int;
            let gm = caller_mem(*old(caller));
            match r {
                Ok(s) => caller_has_mem(*old(caller)) && p + l <= gm.len()
                    && vstd::utf8::valid_utf8(gm.subrange(p, p + l)) && s@
                    == vstd::utf8::decode_utf8(gm.subrange(p, p + l)),
                Err(t) => match t {
                    TrapKind::NoMemory => !caller_has_mem(*old(caller)),
                    TrapKind::OutOfBounds => caller_has_mem(*old(caller)) && p + l > gm.len(),
                    TrapKind::InvalidUtf8 => caller_has_mem(*old(caller)) && p + l <= gm.len()
                        && !vstd::utf8::valid_utf8(gm.subrange(p, p + l)),
                    TrapKind::NoSuchDataset => false,
                },
            }
        }),
{
    let n = match crate::wasm::caller_mem_size(caller) {
        Ok(n) => n,
        Err(t) => {
            return Err(t);
        },
    };
    let p = ptr as u32 as usize;
    let l = len as u32 as usize;
    if l > n || p > n - l {
        return Err(TrapKind::OutOfBounds);
    }
    let bytes = crate::wasm::read_guest_range(caller, p, l);
    match crate::wasm::utf8_to_string(bytes) {
        Ok(s) => Ok(s),
        Err(()) => Err(TrapKind::InvalidUtf8),
    }
}

/// Host function `checker.fail`: reads the message the guest points at and
/// appends it — and nothing else — to the failure list of the execution's
/// checker state; a failed read is the corresponding trap and changes
/// nothing.
pub fn host_fail(
    caller: &mut wasmtime::Caller<'_, StoreData>,
    ptr: i32,
    len: i32,
) -> (r: Result<(), TrapKind>)
    ensures
        caller_mem(*final(caller)) == caller_mem(*old(caller)),
        caller_has_mem(*final(caller)) == caller_has_mem(*old(caller)),
        caller_datasets(*final(caller)) == caller_datasets(*old(caller)),
        caller_success(*final(caller)) == caller_success(*old(caller)),
        ({
            let p = ptr as u32 as int;
            let l = len as u32 as int;
            let gm = caller_mem(*old(caller));
            match r {
                Ok(_) => caller_has_mem(*old(caller)) && p + l <= gm.len()
                    && vstd::utf8::valid_utf8(gm.subrange(p, p + l)) && caller_failures(
                    *final(caller),
                ) == caller_failures(*old(caller)).push(
                    vstd::utf8::decode_utf8(gm.subrange(p, p + l)),
                ),
                Err(t) => caller_failures(*final(caller)) == caller_failures(*old(caller))
                    && match t {
                    TrapKind::NoMemory => !caller_has_mem(*old(caller)),
                    TrapKind::OutOfBounds => caller_has_mem(*old(caller)) && p + l > gm.len(),
                    TrapKind::InvalidUtf8 => caller_has_mem(*old(caller)) && p + l <= gm.len()
                        && !vstd::utf8::valid_utf8(gm.subrange(p, p + l)),
                    TrapKind::NoSuchDataset => false,
                },
            }
        }),
{
    let msg = match get_string(caller, ptr, len) {
        Ok(s) => s,
        Err(t) => {
            return Err(t);
        },
    };
    let data = crate::wasm::caller_data(caller);
    proof {
        lemma_msg_views_push(data.checker.failures@, msg);
    }
    data.checker.record_failure(msg);
    Ok(())
}

/// Host function `checker.succeed`: reads the message the guest points at
/// and appends it — and nothing else — to the success list of the
/// execution's checker state; a failed read is the corresponding trap and
/// changes nothing.
pub fn host_succeed(
    caller: &mut wasmtime::Caller<'_, StoreData>,
    ptr: i32,
    len: i32,
) -> (r: Result<(), TrapKind>)
    ensures
        caller_mem(*final(caller)) == caller_mem(*old(caller)),
        caller_has_mem(*final(caller)) == caller_has_mem(*old(caller)),
        caller_datasets(*final(caller)) == caller_datasets(*old(caller)),
        caller_failures(*final(caller)) == caller_failures(*old(caller)),
        ({
            let p = ptr as u32 as int;
            let l = len as u32 as int;
            let gm = caller_mem(*old(caller));
            match r {
                Ok(_) => caller_has_mem(*old(caller)) && p + l <= gm.len()
                    && vstd::utf8::valid_utf8(gm.subrange(p, p + l)) && caller_success(
                    *final(caller),
                ) == caller_success(*old(caller)).push(
                    vstd::utf8::decode_utf8(gm.subrange(p, p + l)),
                ),
                Err(t) => caller_success(*final(caller)) == caller_success(*old(caller)) && match t {
                    TrapKind::NoMemory => !caller_has_mem(*old(caller)),
                    TrapKind::OutOfBounds => caller_has_mem(*old(caller)) && p + l > gm.len(),
                    TrapKind::InvalidUtf8 => caller_has_mem(*old(caller)) && p + l <= gm.len()
                        && !vstd::utf8::valid_utf8(gm.subrange(p, p + l)),
                    TrapKind::NoSuchDataset => false,
                },
            }
        }),
{
    let msg = match get_string(caller, ptr, len) {
        Ok(s) => s,
        Err(t) => {
            return Err(t);
        },
    };
    let data = crate::wasm::caller_data(caller);
    proof {
        lemma_msg_views_push(data.checker.success@, msg);
    }
    data.checker.record_success(msg);
    Ok(())
}

/// Host function `checker.datasets`: reads a dataset name the guest points
/// at, resolves it in the registry, and hands back the registered
/// allocation's offset and size as guest-visible integers; it mutates
/// nothing, and a well-read name misses exactly when it was never
/// registered.
pub fn host_datasets(
    caller: &mut wasmtime::Caller<'_, StoreData>,
    ptr: i32,
    len: i32,
) -> (r: Result<(i32, i32), TrapKind>)
    ensures
        caller_state_eq(*old(caller), *final(caller)),
        ({
            let p = ptr as u32 as int;
            let l = len as u32 as int;
            let gm = caller_mem(*old(caller));
            let nm = vstd::utf8::decode_utf8(gm.subrange(p, p + l));
            let reg = caller_datasets(*old(caller));
            match r {
                Ok(pair) => caller_has_mem(*old(caller)) && p + l <= gm.len()
                    && vstd::utf8::valid_utf8(gm.subrange(p, p + l)) && reg.contains_key(nm)
                    && pair.0 == reg[nm].offset as i32 && pair.1 == reg[nm].size as i32,
                Err(t) => match t {
                    TrapKind::NoMemory => !caller_has_mem(*old(caller)),
                    TrapKind::OutOfBounds => caller_has_mem(*old(caller)) && p + l > gm.len(),
                    TrapKind::InvalidUtf8 => caller_has_mem(*old(caller)) && p + l <= gm.len()
                        && !vstd::utf8::valid_utf8(gm.subrange(p, p + l)),
                    TrapKind::NoSuchDataset => caller_has_mem(*old(caller)) && p + l <= gm.len()
                        && vstd::utf8::valid_utf8(gm.subrange(p, p + l)) && !reg.contains_key(nm),
                },
            }
        }),
{
    let name = match get_string(caller, ptr, len) {
        Ok(s) => s,
        Err(t) => {
            return Err(t);
        },
    };
    let data = crate::wasm::caller_data(caller);
    match data.datasets.lookup(&name) {
        Some(d) => {
            let off = #[verifier::truncate] (d.offset as i32);
            let sz = #[verifier::truncate] (d.size as i32);
            Ok((off, sz))
        },
        None => Err(TrapKind::NoSuchDataset),
    }
}

/// Why one execution failed. A trap during the entry invocation carries the
/// checker state recorded up to the point of the trap, so nothing already
/// reported is lost.
#[derive(Debug)]
pub enum ExecError {
    CompileError(String),
    LinkError(String),
    InstantiateError(String),
    AllocationError(String),
    TrapError(String, Checker),
}

/// Runs one checker module from its binary (or text) form: compiles it,
/// links the system interface and the three `checker` host functions,
/// instantiates, writes every dataset into guest memory and registers it,
/// invokes the exported entry function `func`, and returns the final checker
/// state. Datasets stand for a mapping, so their names must be distinct.
/// Whatever the guest did, the state that comes back — also inside a trap
/// error — extends the seeded one: the host functions only ever append. A
/// module that does not compile is rejected at the compile stage, before
/// anything is linked, written or invoked.
pub fn exec_from_bytes(
    code: &[u8],
    func: &str,
    user_variables: Vec<(String, String)>,
    checker: Checker,
) -> (r: Result<Checker, ExecError>)
    requires
        names_unique(user_variables@),
    ensures
        r matches Ok(c) ==> msg_views(checker.failures@).is_prefix_of(msg_views(c.failures@))
            && msg_views(checker.success@).is_prefix_of(msg_views(c.success@)),
        r matches Err(ExecError::TrapError(_, c)) ==> msg_views(checker.failures@).is_prefix_of(
            msg_views(c.failures@),
        ) && msg_views(checker.success@).is_prefix_of(msg_views(c.success@)),
        !crate::wasm::compiles_default(code@) ==> r matches Err(ExecError::CompileError(_)),
{
    let ghost f0 = msg_views(checker.failures@);
    let ghost s0 = msg_views(checker.success@);
    let engine = match crate::wasm::new_engine() {
        Ok(e) => e,
        Err(e) => {
            return Err(ExecError::CompileError(e));
        },
    };
    let module = match crate::wasm::compile_module(&engine, code) {
        Ok(m) => m,
        Err(e) => {
            return Err(ExecError::CompileError(e));
        },
    };
    let mut linker = crate::wasm::new_linker(&engine);
    match crate::wasm::add_wasi_imports(&mut linker) {
        Ok(()) => {},
        Err(e) => {
            return Err(ExecError::LinkError(e));
        },
    }
    match crate::wasm::add_fail_import(&mut linker) {
        Ok(()) => {},
        Err(e) => {
            return Err(ExecError::LinkError(e));
        },
    }
    match crate::wasm::add_succeed_import(&mut linker) {
        Ok(()) => {},
        Err(e) => {
            return Err(ExecError::LinkError(e));
        },
    }
    match crate::wasm::add_datasets_import(&mut linker) {
        Ok(()) => {},
        Err(e) => {
            return Err(ExecError::LinkError(e));
        },
    }
    let wasi = crate::wasm::build_wasi();
    let data = StoreData { checker, datasets: Datasets::new(), wasi };
    let mut store = crate::wasm::new_store(&engine, data);
    let instance = match crate::wasm::instantiate(&linker, &mut store, &module) {
        Ok(i) => i,
        Err(e) => {
            return Err(ExecError::InstantiateError(e));
        },
    };
    let mut memory_manager = MemoryManager::new(WASM_PAGE_SIZE, "memory", store, instance);
    let mut datasets = Datasets::new();
    match datasets.from_pairs(user_variables, &mut memory_manager) {
        Ok(()) => {},
        Err(e) => {
            return Err(ExecError::AllocationError(e.message));
        },
    }
    memory_manager.install_datasets(datasets);
    let ghost f1 = crate::wasm::store_failures(memory_manager.store);
    let ghost s1 = crate::wasm::store_success(memory_manager.store);
    match memory_manager.exec_func(func) {
        Ok(()) => {
            let ghost f2 = crate::wasm::store_failures(memory_manager.store);
            let ghost s2 = crate::wasm::store_success(memory_manager.store);
            let out = crate::wasm::store_into_data(memory_manager.store);
            proof {
                lemma_prefix_trans(f0, f1, f2);
                lemma_prefix_trans(s0, s1, s2);
            }
            Ok(out.checker)
        },
        Err(e) => {
            let ghost f2 = crate::wasm::store_failures(memory_manager.store);
            let ghost s2 = crate::wasm::store_success(memory_manager.store);
            let out = crate::wasm::store_into_data(memory_manager.store);
            proof {
                lemma_prefix_trans(f0, f1, f2);
                lemma_prefix_trans(s0, s1, s2);
            }
            Err(ExecError::TrapError(e.message, out.checker))
        },
    }
}

/// Runs one checker module against a fresh checker state: everything stated
/// of `exec_from_bytes` holds with an empty seed, so the returned state is
/// exactly what this execution's guest reported.
pub fn exec_checker_from_bytes(
    code: &[u8],
    func: &str,
    user_variables: Vec<(String, String)>,
) -> (r: Result<Checker, ExecError>)
    requires
        names_unique(user_variables@),
    ensures
        !crate::wasm::compiles_default(code@) ==> r matches Err(ExecError::CompileError(_)),
{
    exec_from_bytes(code, func, user_variables, Checker::new())
}

} // verus!
