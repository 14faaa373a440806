//! Inline API-hook tracing.
//!
//! An x64 inline hook on a function: the first 14 bytes of the function are
//! replaced with an absolute jump to a stub, the stub logs the call (hook id +
//! first four arguments) into a shared buffer, then jumps to a trampoline that
//! executes the original prologue bytes and jumps back past the patch. This
//! forwards every call to the original, so the hooked process keeps working
//! while the calls are recorded.
//!
//! Here are the bytes that are written and the reading of the log; the caller
//! moves them to and from the process.
//!
//! Limitation: the trampoline copies the original prologue verbatim, so it is
//! only valid when those bytes are position-independent (no RIP-relative
//! addressing in the first 14 bytes) and instruction-aligned. This is the case
//! for the common `push rbp / mov rbp,rsp / sub rsp,..` prologue.

use crate::bytes::{le_bytes, le_value, lemma_le_bytes_len, push_bytes, push_le, read_le};
use crate::domain::import::{lemma_views_push, views};
use vstd::prelude::*;
use vstd::string::*;

verus! {

/// Size of the log entry: hook id + four arguments.
pub const LOG_ENTRY: usize = 40;

/// Maximum number of traced calls held in the shared log.
pub const LOG_CAP: usize = 4096;

/// The length of the absolute jump written over the function prologue.
pub const PATCH_LEN: usize = 14;

/// Stub region layout: stub at 0, trampoline after the stub.
pub const STUB_LEN: usize = 0x100;

pub const TRAMPOLINE_LEN: usize = 0x40;

/// One recorded API call.
#[derive(Debug, PartialEq, Eq)]
pub struct TraceEntry {
    pub hook_id: u64,
    pub name: String,
    pub arg1: u64,
    pub arg2: u64,
    pub arg3: u64,
    pub arg4: u64,
}

/// A recorded call with its name as a character sequence.
pub struct TraceEntryModel {
    pub hook_id: u64,
    pub name: Seq<char>,
    pub arg1: u64,
    pub arg2: u64,
    pub arg3: u64,
    pub arg4: u64,
}

impl View for TraceEntry {
    type V = TraceEntryModel;

    open spec fn view(&self) -> TraceEntryModel {
        TraceEntryModel {
            hook_id: self.hook_id,
            name: self.name@,
            arg1: self.arg1,
            arg2: self.arg2,
            arg3: self.arg3,
            arg4: self.arg4,
        }
    }
}

impl Clone for TraceEntry {
    fn clone(&self) -> (r: TraceEntry)
        ensures
            r@ == self@,
    {
        TraceEntry {
            hook_id: self.hook_id,
            name: self.name.clone(),
            arg1: self.arg1,
            arg2: self.arg2,
            arg3: self.arg3,
            arg4: self.arg4,
        }
    }
}

/// A hooked function.
#[derive(Debug, PartialEq, Eq)]
pub struct Hook {
    pub id: u64,
    pub name: String,
    pub function_addr: u64,
    /// The original prologue bytes that were overwritten (for restoring).
    pub original: [u8; 14],
}

/// A hooked function with its name as a character sequence.
pub struct HookModel {
    pub id: u64,
    pub name: Seq<char>,
    pub function_addr: u64,
    pub original: Seq<u8>,
}

impl View for Hook {
    type V = HookModel;

    open spec fn view(&self) -> HookModel {
        HookModel {
            id: self.id,
            name: self.name@,
            function_addr: self.function_addr,
            original: self.original@,
        }
    }
}

/// `jmp [rip+0]` followed by the address it jumps to.
pub open spec fn absolute_jump(target: u64) -> Seq<u8> {
    seq![0xffu8, 0x25, 0, 0, 0, 0] + le_bytes(8, target as nat)
}

/// The stub's code: it saves the four argument registers and `rax`, loads the
/// log's index, works out the address of the next entry, stores the hook id
/// and the saved arguments there, counts the index up, restores the registers
/// and jumps to the trampoline.
pub open spec fn stub_code(log_base: u64, hook_id: u64, trampoline_addr: u64) -> Seq<u8> {
    seq![0x51u8, 0x52, 0x41, 0x50, 0x41, 0x51, 0x50, 0x48, 0xb8] + le_bytes(8, log_base as nat)
        + seq![0x4cu8, 0x8b, 0x10, 0x4f, 0x8d, 0x1c, 0x92, 0x4e, 0x8d, 0x5c, 0xd8, 0x08, 0x48, 0xba]
        + le_bytes(8, hook_id as nat) + stub_stores() + absolute_jump(trampoline_addr)
}

/// The part of the stub that stores the entry, counts and restores.
pub open spec fn stub_stores() -> Seq<u8> {
    seq![
        0x49u8, 0x89, 0x13,
        0x48, 0x8b, 0x4c, 0x24, 0x20, 0x49, 0x89, 0x4b, 0x08,
        0x48, 0x8b, 0x4c, 0x24, 0x18, 0x49, 0x89, 0x4b, 0x10,
        0x48, 0x8b, 0x4c, 0x24, 0x10, 0x49, 0x89, 0x4b, 0x18,
        0x48, 0x8b, 0x4c, 0x24, 0x08, 0x49, 0x89, 0x4b, 0x20,
        0x49, 0xff, 0xc2, 0x4c, 0x89, 0x10,
        0x58, 0x41, 0x59, 0x41, 0x58, 0x5a, 0x59,
    ]
}

/// Append `jmp [rip+0]` and its target.
fn push_jump(b: &mut Vec<u8>, target: u64)
    ensures
        final(b)@ == old(b)@ + absolute_jump(target),
{
    let jump: [u8; 6] = [0xff, 0x25, 0, 0, 0, 0];
    push_bytes(b, &jump);
    push_le(b, 8, target);
    assert(b@ =~= old(b)@ + absolute_jump(target));
}

/// Build the hook stub that logs the call and forwards to `trampoline_addr`.
pub fn build_hook_stub(log_base: u64, hook_id: u64, trampoline_addr: u64) -> (b: Vec<u8>)
    ensures
        b@ == stub_code(log_base, hook_id, trampoline_addr),
        b@.len() <= STUB_LEN,
{
    let mut b: Vec<u8> = Vec::new();
    // push rcx rdx r8 r9 rax ; mov rax, imm64(log_base)
    let save: [u8; 9] = [0x51, 0x52, 0x41, 0x50, 0x41, 0x51, 0x50, 0x48, 0xb8];
    push_bytes(&mut b, &save);
    push_le(&mut b, 8, log_base);
    // mov r10, [rax] ; lea r11, [r10 + r10*4] ; lea r11, [rax + r11*8 + 8]
    // mov rdx, imm64(hook_id)
    let index: [u8; 14] = [
        0x4c, 0x8b, 0x10, 0x4f, 0x8d, 0x1c, 0x92, 0x4e, 0x8d, 0x5c, 0xd8, 0x08, 0x48, 0xba,
    ];
    push_bytes(&mut b, &index);
    push_le(&mut b, 8, hook_id);
    // mov [r11], rdx ; store the four arguments saved on the stack
    // inc r10 ; mov [rax], r10 ; pop rax r9 r8 rdx rcx
    let stores: [u8; 52] = [
        0x49, 0x89, 0x13,
        0x48, 0x8b, 0x4c, 0x24, 0x20, 0x49, 0x89, 0x4b, 0x08,
        0x48, 0x8b, 0x4c, 0x24, 0x18, 0x49, 0x89, 0x4b, 0x10,
        0x48, 0x8b, 0x4c, 0x24, 0x10, 0x49, 0x89, 0x4b, 0x18,
        0x48, 0x8b, 0x4c, 0x24, 0x08, 0x49, 0x89, 0x4b, 0x20,
        0x49, 0xff, 0xc2, 0x4c, 0x89, 0x10,
        0x58, 0x41, 0x59, 0x41, 0x58, 0x5a, 0x59,
    ];
    push_bytes(&mut b, &stores);
    push_jump(&mut b, trampoline_addr);
    proof {
        lemma_le_bytes_len(8, log_base as nat);
        lemma_le_bytes_len(8, hook_id as nat);
        lemma_le_bytes_len(8, trampoline_addr as nat);
        assert(save@ =~= seq![0x51u8, 0x52, 0x41, 0x50, 0x41, 0x51, 0x50, 0x48, 0xb8]);
        assert(index@ =~= seq![
            0x4cu8, 0x8b, 0x10, 0x4f, 0x8d, 0x1c, 0x92, 0x4e, 0x8d, 0x5c, 0xd8, 0x08, 0x48, 0xba,
        ]);
        assert(stores@ =~= stub_stores());
        assert(b@ =~= stub_code(log_base, hook_id, trampoline_addr));
    }
    b
}

/// Build the trampoline: the original prologue bytes followed by a jump back to
/// the function past the patch. The address there must fit.
pub fn build_trampoline(original: &[u8; 14], function_addr: u64) -> (b: Vec<u8>)
    requires
        function_addr + PATCH_LEN <= u64::MAX,
    ensures
        b@ == original@ + absolute_jump((function_addr + PATCH_LEN) as u64),
        b@.len() <= TRAMPOLINE_LEN,
{
    let mut b: Vec<u8> = Vec::new();
    push_bytes(&mut b, original);
    push_jump(&mut b, function_addr + PATCH_LEN as u64);
    proof {
        lemma_le_bytes_len(8, (function_addr + PATCH_LEN) as nat);
        assert(b@ =~= original@ + absolute_jump((function_addr + PATCH_LEN) as u64));
    }
    b
}

/// The absolute jump that is written over the prologue.
pub fn build_patch(region: u64) -> (b: Vec<u8>)
    ensures
        b@ == absolute_jump(region),
        b@.len() == PATCH_LEN,
{
    let mut b: Vec<u8> = Vec::new();
    push_jump(&mut b, region);
    proof {
        lemma_le_bytes_len(8, region as nat);
        assert(b@ =~= absolute_jump(region));
    }
    b
}

/// The functions hooked so far.
#[derive(Debug, PartialEq, Eq)]
pub struct HookTable {
    pub hooks: Vec<Hook>,
}

impl View for HookTable {
    type V = Seq<HookModel>;

    open spec fn view(&self) -> Seq<HookModel> {
        views(self.hooks@)
    }
}

/// Bytes to write into the process.
#[derive(Debug, PartialEq, Eq)]
pub struct MemoryWrite {
    pub at: u64,
    pub bytes: Vec<u8>,
}

/// Bytes to write into the process, as mathematical values.
pub struct MemoryWriteModel {
    pub at: u64,
    pub bytes: Seq<u8>,
}

impl View for MemoryWrite {
    type V = MemoryWriteModel;

    open spec fn view(&self) -> MemoryWriteModel {
        MemoryWriteModel { at: self.at, bytes: self.bytes@ }
    }
}

/// What installing hook `id` on a function writes, in this order: the stub and
/// the trampoline into the region, and the jump to the stub over the function's
/// first bytes.
pub open spec fn hook_writes(
    log_base: u64,
    id: u64,
    function_addr: u64,
    region: u64,
    original: Seq<u8>,
) -> Seq<MemoryWriteModel> {
    let trampoline_addr = (region + STUB_LEN) as u64;
    seq![
        MemoryWriteModel { at: region, bytes: stub_code(log_base, id, trampoline_addr) },
        MemoryWriteModel {
            at: trampoline_addr,
            bytes: original + absolute_jump((function_addr + PATCH_LEN) as u64),
        },
        MemoryWriteModel { at: function_addr, bytes: absolute_jump(region) },
    ]
}

/// What uninstalling writes: the first bytes that every function had.
pub open spec fn restoring_writes(hooks: Seq<HookModel>) -> Seq<MemoryWriteModel> {
    Seq::new(
        hooks.len(),
        |i: int| MemoryWriteModel { at: hooks[i].function_addr, bytes: hooks[i].original },
    )
}

/// Memory after one write.
pub open spec fn stored(memory: spec_fn(int) -> u8, w: MemoryWriteModel) -> spec_fn(int) -> u8 {
    |a: int|
        if w.at <= a < w.at + w.bytes.len() {
            w.bytes[a - w.at]
        } else {
            memory(a)
        }
}

/// Memory after the first `n` writes.
pub open spec fn after_writes(
    memory: spec_fn(int) -> u8,
    writes: Seq<MemoryWriteModel>,
    n: nat,
) -> spec_fn(int) -> u8
    decreases n,
{
    if n == 0 {
        memory
    } else {
        stored(after_writes(memory, writes, (n - 1) as nat), writes[n - 1])
    }
}

/// The name of the first hook with an id; empty without one.
pub open spec fn hook_name(hooks: Seq<HookModel>, id: u64) -> Seq<char>
    decreases hooks.len(),
{
    if hooks.len() == 0 {
        Seq::empty()
    } else if hooks[0].id == id {
        hooks[0].name
    } else {
        hook_name(hooks.drop_first(), id)
    }
}

/// The number of entries a log with this index holds.
pub open spec fn logged(index: u64) -> nat {
    if index <= LOG_CAP {
        index as nat
    } else {
        LOG_CAP as nat
    }
}

/// Number `k` of entry `i` of the log.
pub open spec fn logged_word(bytes: Seq<u8>, i: int, k: int) -> u64 {
    le_value(bytes.subrange(40 * i + 8 * k, 40 * i + 8 * k + 8)) as u64
}

/// Entry `i` of the log.
pub open spec fn logged_entry(hooks: Seq<HookModel>, bytes: Seq<u8>, i: int) -> TraceEntryModel {
    TraceEntryModel {
        hook_id: logged_word(bytes, i, 0),
        name: hook_name(hooks, logged_word(bytes, i, 0)),
        arg1: logged_word(bytes, i, 1),
        arg2: logged_word(bytes, i, 2),
        arg3: logged_word(bytes, i, 3),
        arg4: logged_word(bytes, i, 4),
    }
}

/// The first `n` entries of the log.
pub open spec fn logged_entries(hooks: Seq<HookModel>, bytes: Seq<u8>, n: nat) -> Seq<
    TraceEntryModel,
> {
    Seq::new(n, |i: int| logged_entry(hooks, bytes, i))
}

/// How many entries of the log to read, by the index that stands before them.
pub fn log_entries(index: u64) -> (n: usize)
    ensures
        n == logged(index),
        n <= LOG_CAP,
{
    if index <= LOG_CAP as u64 {
        index as usize
    } else {
        LOG_CAP
    }
}

impl HookTable {
    pub fn new() -> (r: Self)
        ensures
            r@.len() == 0,
    {
        HookTable { hooks: Vec::new() }
    }

    /// The id of the next hook.
    pub fn next_id(&self) -> (id: u64)
        requires
            self@.len() < u64::MAX,
        ensures
            id == self@.len() + 1,
    {
        self.hooks.len() as u64 + 1
    }

    /// Record a hook that was installed.
    pub fn record(&mut self, id: u64, name: &str, function_addr: u64, original: [u8; 14])
        ensures
            final(self)@ == old(self)@.push(
                HookModel { id, name: name@, function_addr, original: original@ },
            ),
    {
        let h = Hook { id, name: name.to_owned(), function_addr, original };
        proof {
            lemma_views_push(self.hooks@, h);
        }
        self.hooks.push(h);
    }

    /// What to write to install the next hook, on a function whose first bytes
    /// are `original`, with the stub and the trampoline in a region of its own.
    /// All addresses must fit.
    pub fn plan_hook(
        &self,
        log_base: u64,
        function_addr: u64,
        region: u64,
        original: &[u8; 14],
    ) -> (r: Vec<MemoryWrite>)
        requires
            self@.len() < u64::MAX,
            region + STUB_LEN <= u64::MAX,
            function_addr + PATCH_LEN <= u64::MAX,
        ensures
            views(r@) == hook_writes(
                log_base,
                (self@.len() + 1) as u64,
                function_addr,
                region,
                original@,
            ),
    {
        let trampoline_addr: u64 = region + STUB_LEN as u64;
        let stub = MemoryWrite {
            at: region,
            bytes: build_hook_stub(log_base, self.next_id(), trampoline_addr),
        };
        let trampoline = MemoryWrite {
            at: trampoline_addr,
            bytes: build_trampoline(original, function_addr),
        };
        let jump = MemoryWrite { at: function_addr, bytes: build_patch(region) };
        let mut r: Vec<MemoryWrite> = Vec::new();
        r.push(stub);
        r.push(trampoline);
        r.push(jump);
        assert(views(r@) =~= hook_writes(
            log_base,
            (self@.len() + 1) as u64,
            function_addr,
            region,
            original@,
        ));
        r
    }

    /// What to write to uninstall all hooks.
    pub fn plan_restore(&self) -> (r: Vec<MemoryWrite>)
        ensures
            views(r@) == restoring_writes(self@),
    {
        let mut r: Vec<MemoryWrite> = Vec::new();
        let ghost all = restoring_writes(self@);
        let mut i: usize = 0;
        assert(views(r@) =~= all.take(0));
        while i < self.hooks.len()
            invariant
                i <= self.hooks.len(),
                all == restoring_writes(self@),
                views(r@) == all.take(i as int),
            decreases self.hooks.len() - i,
        {
            let mut bytes: Vec<u8> = Vec::new();
            push_bytes(&mut bytes, &self.hooks[i].original);
            let w = MemoryWrite { at: self.hooks[i].function_addr, bytes };
            proof {
                assert(w.bytes@ =~= self.hooks@[i as int].original@);
                lemma_views_push(r@, w);
                assert(all[i as int] == w@);
            }
            r.push(w);
            i = i + 1;
            assert(views(r@) =~= all.take(i as int));
        }
        assert(all.take(i as int) =~= all);
        r
    }

    /// Forget all hooks.
    pub fn clear(&mut self)
        ensures
            final(self)@.len() == 0,
    {
        self.hooks = Vec::new();
    }

    /// The names of the hooked functions.
    pub fn hooked(&self) -> (r: Vec<String>)
        ensures
            views(r@) == Seq::new(self@.len(), |i: int| self@[i].name),
    {
        let mut r: Vec<String> = Vec::new();
        let ghost all = Seq::new(self@.len(), |i: int| self@[i].name);
        let mut i: usize = 0;
        assert(views(r@) =~= all.take(0));
        while i < self.hooks.len()
            invariant
                i <= self.hooks.len(),
                all == Seq::new(self@.len(), |i: int| self@[i].name),
                views(r@) == all.take(i as int),
            decreases self.hooks.len() - i,
        {
            let s = self.hooks[i].name.clone();
            proof {
                lemma_views_push(r@, s);
                assert(all[i as int] == s@);
            }
            r.push(s);
            i = i + 1;
            assert(views(r@) =~= all.take(i as int));
        }
        assert(all.take(i as int) =~= all);
        r
    }

    /// The name of the first hook with an id; empty without one.
    fn name_of(&self, id: u64) -> (r: String)
        ensures
            r@ == hook_name(self@, id),
    {
        let mut i: usize = 0;
        assert(self@.skip(0) =~= self@);
        while i < self.hooks.len()
            invariant
                i <= self.hooks.len(),
                hook_name(self@, id) == hook_name(self@.skip(i as int), id),
            decreases self.hooks.len() - i,
        {
            proof {
                assert(self@.skip(i as int)[0] == self.hooks@[i as int]@);
                assert(self@.skip(i as int).drop_first() =~= self@.skip(i + 1));
            }
            if self.hooks[i].id == id {
                return self.hooks[i].name.clone();
            }
            i = i + 1;
        }
        String::new()
    }

    /// The recorded calls, from the bytes of the first `n` log entries.
    pub fn decode_log(&self, bytes: &[u8], n: usize) -> (r: Vec<TraceEntry>)
        requires
            n <= LOG_CAP,
            n * LOG_ENTRY <= bytes@.len(),
        ensures
            views(r@) == logged_entries(self@, bytes@, n as nat),
    {
        let mut r: Vec<TraceEntry> = Vec::new();
        let ghost all = logged_entries(self@, bytes@, n as nat);
        let mut i: usize = 0;
        assert(views(r@) =~= all.take(0));
        while i < n
            invariant
                i <= n,
                n <= LOG_CAP,
                n * LOG_ENTRY <= bytes@.len(),
                all == logged_entries(self@, bytes@, n as nat),
                views(r@) == all.take(i as int),
            decreases n - i,
        {
            let off: usize = i * LOG_ENTRY;
            let hook_id: u64 = read_le(bytes, off, 8);
            let e = TraceEntry {
                hook_id,
                name: self.name_of(hook_id),
                arg1: read_le(bytes, off + 8, 8),
                arg2: read_le(bytes, off + 16, 8),
                arg3: read_le(bytes, off + 24, 8),
                arg4: read_le(bytes, off + 32, 8),
            };
            proof {
                lemma_views_push(r@, e);
                assert(all[i as int] == e@);
            }
            r.push(e);
            i = i + 1;
            assert(views(r@) =~= all.take(i as int));
        }
        assert(all.take(i as int) =~= all);
        r
    }
}

/// The patch and the trampoline together keep the function's first bytes: the
/// trampoline begins with the bytes that the patch overwrites, and the patch is
/// exactly as long as they are.
pub proof fn prologue_is_kept(original: Seq<u8>, function_addr: u64, region: u64)
    requires
        original.len() == PATCH_LEN,
        function_addr + PATCH_LEN <= u64::MAX,
    ensures
        absolute_jump(region).len() == original.len(),
        (original + absolute_jump((function_addr + PATCH_LEN) as u64)).take(PATCH_LEN as int)
            == original,
{
    lemma_le_bytes_len(8, region as nat);
    assert((original + absolute_jump((function_addr + PATCH_LEN) as u64)).take(PATCH_LEN as int)
        =~= original);
}

/// Whether no two hooked functions share any of the bytes that are written over.
pub open spec fn functions_apart(hooks: Seq<HookModel>) -> bool {
    forall|i: int, j: int|
        0 <= i < j < hooks.len() ==> (#[trigger] hooks[i]).function_addr + PATCH_LEN <= (
        #[trigger] hooks[j]).function_addr || hooks[j].function_addr + PATCH_LEN
            <= hooks[i].function_addr
}

/// Whether `a` is one of the bytes of a function that its hook writes over.
pub open spec fn in_patch(h: HookModel, a: int) -> bool {
    h.function_addr <= a < h.function_addr + PATCH_LEN
}

proof fn lemma_restored(memory: spec_fn(int) -> u8, hooks: Seq<HookModel>, n: nat)
    requires
        functions_apart(hooks),
        forall|i: int| 0 <= i < hooks.len() ==> (#[trigger] hooks[i]).original.len() == PATCH_LEN,
        n <= hooks.len(),
    ensures
        forall|i: int, a: int|
            0 <= i < n && #[trigger] in_patch(hooks[i], a) ==> after_writes(
                memory,
                restoring_writes(hooks),
                n,
            )(a) == hooks[i].original[a - hooks[i].function_addr],
        forall|a: int|
            (forall|i: int| 0 <= i < n ==> !in_patch(#[trigger] hooks[i], a))
                ==> #[trigger] after_writes(memory, restoring_writes(hooks), n)(a) == memory(a),
    decreases n,
{
    if n > 0 {
        lemma_restored(memory, hooks, (n - 1) as nat);
        let writes = restoring_writes(hooks);
        let before = after_writes(memory, writes, (n - 1) as nat);
        let after = after_writes(memory, writes, n);
        assert(writes[n - 1].bytes.len() == PATCH_LEN) by {
            assert(hooks[n - 1].original.len() == PATCH_LEN);
        }
        assert forall|i: int, a: int| 0 <= i < n && #[trigger] in_patch(hooks[i], a) implies after(
            a,
        ) == hooks[i].original[a - hooks[i].function_addr] by {
            if i < n - 1 {
                assert(!in_patch(hooks[n - 1], a));
                assert(after(a) == before(a));
            }
        }
        assert forall|a: int|
            (forall|i: int| 0 <= i < n ==> !in_patch(#[trigger] hooks[i], a)) implies #[trigger] after(
            a,
        ) == memory(a) by {
            assert(!in_patch(hooks[n - 1], a));
            assert(after(a) == before(a));
        }
    }
}

/// Uninstalling gives every hooked function its first bytes back and touches
/// nothing else, as long as the functions are apart.
pub proof fn uninstalling_restores_every_prologue(
    memory: spec_fn(int) -> u8,
    hooks: Seq<HookModel>,
    i: int,
    a: int,
)
    requires
        functions_apart(hooks),
        forall|j: int| 0 <= j < hooks.len() ==> (#[trigger] hooks[j]).original.len() == PATCH_LEN,
        0 <= i < hooks.len(),
    ensures
        in_patch(hooks[i], a) ==> after_writes(memory, restoring_writes(hooks), hooks.len())(a)
            == hooks[i].original[a - hooks[i].function_addr],
        (forall|j: int| 0 <= j < hooks.len() ==> !in_patch(#[trigger] hooks[j], a))
            ==> after_writes(memory, restoring_writes(hooks), hooks.len())(a) == memory(a),
{
    lemma_restored(memory, hooks, hooks.len());
}

} // verus!
