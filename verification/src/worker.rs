//! Worker/isolation supervision: which execution context runs a job, what a
//! navigation or an abort does to the contexts, and how replies, timeouts and
//! channel failures map to script results.
//!
//! An execution context is modelled by a generation number: a fresh
//! generation stands for a freshly spawned script engine whose script-visible
//! global state is empty. The host performs the spawning, killing and
//! channel I/O; this module makes every decision.

use vstd::prelude::*;
use vstd::utf8::is_leading_byte_width_1;
use vstd::utf8::partial_valid_utf8;
use vstd::utf8::partial_valid_utf8_extend_ascii_block;
use vstd::utf8::valid_utf8;
use crate::config::EngineConfig;

verus! {

/// Result of one script evaluation: a best-effort printable form of the
/// script's value or error message, and whether the script failed.
#[derive(Debug, Clone)]
pub struct ScriptResult {
    pub value: String,
    pub is_error: bool,
}

/// One evaluation request handed to an execution context: the harness-wrapped
/// source and the runtime limits to apply before evaluation.
#[derive(Debug, Clone)]
pub struct JobSpec {
    pub code: Vec<u8>,
    pub loop_limit: u64,
    pub recursion_limit: usize,
}

/// The backend of an execution context.
#[derive(Debug, Clone, Copy, PartialEq, Eq, Structural)]
pub enum WorkerKind {
    /// In-process worker thread: abort abandons the thread (best effort).
    Thread,
    /// Separate OS process: abort kills it outright (hard guarantee).
    Process,
}

/// What the host must do to its workers after a supervisor decision.
#[derive(Debug, Clone, Copy, PartialEq, Eq, Structural)]
pub struct WorkerActions {
    /// Tear down the global worker (kill the child for a process worker).
    pub drop_global: bool,
    /// Spawn a fresh global worker.
    pub spawn_global: bool,
    /// Tear down the page worker.
    pub drop_page: bool,
    /// Spawn a fresh page worker and prime it with the current harness.
    pub spawn_page: bool,
}

/// Supervisor state: which context generations are alive. Script-visible
/// globals persist exactly as long as a generation stays active.
#[derive(Debug, Clone)]
pub struct Supervisor {
    pub enable_javascript: bool,
    pub enable_js_isolation: bool,
    pub use_process_worker: bool,
    pub script_timeout_ms: u64,
    pub loop_limit: u64,
    pub recursion_limit: usize,
    /// Generation of the engine-lifetime context, if one is alive.
    pub global_gen: Option<u64>,
    /// Generation of the per-page context, if one is alive.
    pub page_gen: Option<u64>,
    /// Never-yet-used generation number.
    pub next_gen: u64,
    /// Whether a document is loaded (a page worker may then exist).
    pub page_loaded: bool,
}

impl Supervisor {
    /// Generations in use lie below `next_gen`; the two live contexts are
    /// distinct; a page context only exists under per-page isolation with a
    /// loaded page, a global context only without isolation.
    pub open spec fn wf(&self) -> bool {
        &&& (match self.global_gen {
            Some(g) => g < self.next_gen && self.enable_javascript
                && !self.enable_js_isolation,
            None => true,
        })
        &&& (match self.page_gen {
            Some(g) => g < self.next_gen && self.enable_javascript && self.enable_js_isolation
                && self.page_loaded,
            None => true,
        })
    }

    /// Start supervising: when scripting is on and per-page isolation is
    /// off, one global context is spawned up front and reused for every
    /// evaluation; with isolation on, contexts are created per navigation.
    pub fn new(config: &EngineConfig) -> (r: (Supervisor, WorkerActions))
        ensures
            r.0.wf(),
            r.0.enable_javascript == config.enable_javascript,
            r.0.enable_js_isolation == config.enable_js_isolation,
            r.0.use_process_worker == config.use_process_worker,
            r.0.script_timeout_ms == config.script_timeout_ms,
            r.0.loop_limit == config.script_loop_iteration_limit,
            r.0.recursion_limit == config.script_recursion_limit,
            !r.0.page_loaded,
            r.0.page_gen is None,
            r.0.global_gen is Some <==> (config.enable_javascript
                && !config.enable_js_isolation),
            r.1.spawn_global == (config.enable_javascript && !config.enable_js_isolation),
            !r.1.drop_global && !r.1.drop_page && !r.1.spawn_page,
    {
        let spawn_global = config.enable_javascript && !config.enable_js_isolation;
        let sup = Supervisor {
            enable_javascript: config.enable_javascript,
            enable_js_isolation: config.enable_js_isolation,
            use_process_worker: config.use_process_worker,
            script_timeout_ms: config.script_timeout_ms,
            loop_limit: config.script_loop_iteration_limit,
            recursion_limit: config.script_recursion_limit,
            global_gen: if spawn_global {
                Some(0)
            } else {
                None
            },
            page_gen: None,
            next_gen: if spawn_global {
                1
            } else {
                0
            },
            page_loaded: false,
        };
        let actions = WorkerActions {
            drop_global: false,
            spawn_global,
            drop_page: false,
            spawn_page: false,
        };
        (sup, actions)
    }

    /// The backend every spawned context uses.
    pub fn worker_kind(&self) -> (k: WorkerKind)
        ensures
            k == (if self.use_process_worker {
                WorkerKind::Process
            } else {
                WorkerKind::Thread
            }),
    {
        if self.use_process_worker {
            WorkerKind::Process
        } else {
            WorkerKind::Thread
        }
    }

    /// A navigation happened: under per-page isolation the old page context
    /// is torn down and a fresh one is primed, so nothing script-visible
    /// leaks across pages. The global context is untouched.
    pub fn on_navigate(&mut self) -> (a: WorkerActions)
        requires
            old(self).wf(),
            old(self).next_gen < u64::MAX,
        ensures
            final(self).wf(),
            final(self).page_loaded,
            final(self).global_gen == old(self).global_gen,
            // The configuration is untouched by a navigation.
            final(self).enable_javascript == old(self).enable_javascript,
            final(self).enable_js_isolation == old(self).enable_js_isolation,
            final(self).use_process_worker == old(self).use_process_worker,
            final(self).script_timeout_ms == old(self).script_timeout_ms,
            final(self).loop_limit == old(self).loop_limit,
            final(self).recursion_limit == old(self).recursion_limit,
            old(self).next_gen <= final(self).next_gen <= old(self).next_gen + 1,
            a.drop_page == (old(self).page_gen is Some),
            // Under per-page isolation a fresh page context is always primed.
            a.spawn_page == (old(self).enable_javascript
                && old(self).enable_js_isolation),
            !a.drop_global && !a.spawn_global,
            // Isolation: the new page context is a generation never used
            // before, so its script-visible globals start empty.
            a.spawn_page ==> final(self).page_gen == Some(old(self).next_gen)
                && final(self).page_gen != old(self).page_gen,
            !a.spawn_page ==> final(self).page_gen is None,
    {
        let drop_page = self.page_gen.is_some();
        self.page_loaded = true;
        let spawn_page = self.enable_javascript && self.enable_js_isolation;
        if spawn_page {
            self.page_gen = Some(self.next_gen);
            self.next_gen = self.next_gen + 1;
        } else {
            self.page_gen = None;
        }
        WorkerActions { drop_global: false, spawn_global: false, drop_page, spawn_page }
    }

    /// Which context an evaluation goes to: the page context under per-page
    /// isolation, else the global context. `None` means no context is
    /// available (scripting disabled, or no page yet under isolation).
    pub fn active_context(&self) -> (g: Option<u64>)
        ensures
            g == (if self.enable_js_isolation {
                self.page_gen
            } else {
                self.global_gen
            }),
    {
        if self.enable_js_isolation {
            self.page_gen
        } else {
            self.global_gen
        }
    }

    /// The limits applied to a context before one evaluation runs.
    pub fn job_limits(&self) -> (r: (u64, usize))
        ensures
            r.0 == self.loop_limit,
            r.1 == self.recursion_limit,
    {
        (self.loop_limit, self.recursion_limit)
    }

    /// An explicit abort: both contexts are killed and replaced. The page
    /// context is re-primed only if a page is loaded. Every replacement
    /// generation is fresh, so script-visible state set before the abort is
    /// gone.
    pub fn on_abort(&mut self) -> (a: WorkerActions)
        requires
            old(self).wf(),
            old(self).next_gen < u64::MAX - 1,
        ensures
            final(self).wf(),
            final(self).page_loaded == old(self).page_loaded,
            // The configuration is untouched by an abort.
            final(self).enable_javascript == old(self).enable_javascript,
            final(self).enable_js_isolation == old(self).enable_js_isolation,
            final(self).use_process_worker == old(self).use_process_worker,
            final(self).script_timeout_ms == old(self).script_timeout_ms,
            final(self).loop_limit == old(self).loop_limit,
            final(self).recursion_limit == old(self).recursion_limit,
            old(self).next_gen <= final(self).next_gen <= old(self).next_gen + 2,
            a.drop_global == (old(self).global_gen is Some),
            a.drop_page == (old(self).page_gen is Some),
            // Replacements are spawned exactly as the configuration demands.
            a.spawn_global == (old(self).enable_javascript
                && !old(self).enable_js_isolation),
            a.spawn_page == (old(self).enable_javascript
                && old(self).enable_js_isolation && old(self).page_loaded),
            // Whatever survives is a never-before-used generation.
            final(self).global_gen is Some ==> final(self).global_gen != old(self).global_gen
                && final(self).global_gen == Some(old(self).next_gen),
            final(self).page_gen is Some ==> final(self).page_gen != old(self).page_gen
                && final(self).page_gen->0 >= old(self).next_gen,
            final(self).global_gen is Some <==> a.spawn_global,
            final(self).page_gen is Some <==> a.spawn_page,
    {
        let drop_global = self.global_gen.is_some();
        let drop_page = self.page_gen.is_some();
        let spawn_global = self.enable_javascript && !self.enable_js_isolation;
        let spawn_page = self.enable_javascript && self.enable_js_isolation
            && self.page_loaded;
        if spawn_global {
            self.global_gen = Some(self.next_gen);
            self.next_gen = self.next_gen + 1;
        } else {
            self.global_gen = None;
        }
        if spawn_page {
            self.page_gen = Some(self.next_gen);
            self.next_gen = self.next_gen + 1;
        } else {
            self.page_gen = None;
        }
        WorkerActions { drop_global, spawn_global, drop_page, spawn_page }
    }

    /// A plain per-call timeout is not an abort: the context stays alive and
    /// is reused for the next job.
    pub fn on_reply_timeout(&mut self)
        requires
            old(self).wf(),
        ensures
            *final(self) == *old(self),
    {
    }
}

/// The decimal digits of `n`, most significant first.
pub open spec fn dec_bytes(n: u64) -> Seq<u8>
    decreases n,
{
    if n < 10 {
        seq![(48 + n) as u8]
    } else {
        dec_bytes(n / 10) + seq![(48 + n % 10) as u8]
    }
}

/// Append the decimal digits of `n`.
pub fn push_dec(out: &mut Vec<u8>, n: u64)
    ensures
        final(out)@ == old(out)@ + dec_bytes(n),
    decreases n,
{
    if n < 10 {
        out.push(48 + n as u8);
        proof {
            assert(out@ =~= old(out)@ + dec_bytes(n));
        }
    } else {
        push_dec(out, n / 10);
        out.push(48 + (n % 10) as u8);
        proof {
            assert(out@ =~= old(out)@ + dec_bytes(n));
        }
    }
}

/// The bytes of `Script timed out after <ms>ms`.
pub open spec fn timeout_message(ms: u64) -> Seq<u8> {
    seq![
        83u8, 99u8, 114u8, 105u8, 112u8, 116u8, 32u8, 116u8, 105u8, 109u8, 101u8, 100u8, 32u8,
        111u8, 117u8, 116u8, 32u8, 97u8, 102u8, 116u8, 101u8, 114u8, 32u8,
    ] + dec_bytes(ms) + seq![109u8, 115u8]
}

proof fn lemma_dec_bytes_ascii(n: u64)
    ensures
        forall|i: int| 0 <= i < dec_bytes(n).len() ==> (#[trigger] dec_bytes(n)[i]) < 128,
    decreases n,
{
    if n >= 10 {
        lemma_dec_bytes_ascii(n / 10);
        assert forall|i: int| 0 <= i < dec_bytes(n).len() implies (
        #[trigger] dec_bytes(n)[i]) < 128 by {
            if i < dec_bytes(n / 10).len() {
                assert(dec_bytes(n)[i] == dec_bytes(n / 10)[i]);
            }
        }
    }
}

/// A byte sequence of plain ASCII is valid UTF-8.
proof fn lemma_ascii_valid_utf8(v: Seq<u8>)
    requires
        forall|i: int| 0 <= i < v.len() ==> (#[trigger] v[i]) < 128,
    ensures
        valid_utf8(v),
{
    assert(v.subrange(0, 0) =~= Seq::<u8>::empty());
    assert(valid_utf8(Seq::<u8>::empty()));
    assert(partial_valid_utf8(v, 0));
    assert forall|i: int| 0 <= i < v.len() implies #[trigger] is_leading_byte_width_1(
        v[i],
    ) by {
        let b = v[i];
        assert(b < 128);
        assert(b & 0x80 == 0) by (bit_vector)
            requires
                b < 128,
        ;
    }
    partial_valid_utf8_extend_ascii_block(v, 0, v.len() as int);
    assert(v.subrange(0, v.len() as int) =~= v);
}

/// Relies on String::from_utf8_lossy: valid UTF-8 bytes come back unchanged
/// (invalid sequences would be replaced, which the callers rule out).
#[verifier::external_body]
fn bytes_to_string(v: &[u8]) -> (r: String)
    ensures
        valid_utf8(v@) ==> vstd::utf8::encode_utf8(r@) == v@,
{
    String::from_utf8_lossy(v).into_owned()
}

/// The result handed back when a context does not reply within the
/// configured evaluation timeout. The context itself is left running.
pub fn timeout_result(ms: u64) -> (r: ScriptResult)
    ensures
        r.is_error,
        vstd::utf8::encode_utf8(r.value@) == timeout_message(ms),
{
    let mut msg: Vec<u8> = Vec::new();
    msg.push(83);
    msg.push(99);
    msg.push(114);
    msg.push(105);
    msg.push(112);
    msg.push(116);
    msg.push(32);
    msg.push(116);
    msg.push(105);
    msg.push(109);
    msg.push(101);
    msg.push(100);
    msg.push(32);
    msg.push(111);
    msg.push(117);
    msg.push(116);
    msg.push(32);
    msg.push(97);
    msg.push(102);
    msg.push(116);
    msg.push(101);
    msg.push(114);
    msg.push(32);
    push_dec(&mut msg, ms);
    msg.push(109);
    msg.push(115);
    proof {
        assert(msg@ =~= timeout_message(ms));
        lemma_dec_bytes_ascii(ms);
        assert forall|i: int| 0 <= i < msg@.len() implies (#[trigger] msg@[i]) < 128 by {
            if 23 <= i < 23 + dec_bytes(ms).len() {
                assert(msg@[i] == dec_bytes(ms)[i - 23]);
            }
        }
        lemma_ascii_valid_utf8(msg@);
    }
    let value = bytes_to_string(msg.as_slice());
    ScriptResult { value, is_error: true }
}

/// The bytes of `Script thrown: `.
pub open spec fn thrown_prefix() -> Seq<u8> {
    seq![
        83u8, 99u8, 114u8, 105u8, 112u8, 116u8, 32u8, 116u8, 104u8, 114u8, 111u8, 119u8, 110u8,
        58u8, 32u8,
    ]
}

/// The result for a script that threw: the engine's error text behind a
/// fixed prefix, marked as a script failure rather than a call failure.
pub fn script_thrown_result(detail: &str) -> (r: ScriptResult)
    ensures
        r.is_error,
        vstd::utf8::encode_utf8(r.value@) == thrown_prefix() + vstd::utf8::encode_utf8(detail@),
{
    let mut msg: Vec<u8> = Vec::new();
    msg.push(83);
    msg.push(99);
    msg.push(114);
    msg.push(105);
    msg.push(112);
    msg.push(116);
    msg.push(32);
    msg.push(116);
    msg.push(104);
    msg.push(114);
    msg.push(111);
    msg.push(119);
    msg.push(110);
    msg.push(58);
    msg.push(32);
    proof {
        assert(msg@ =~= thrown_prefix());
        assert forall|i: int| 0 <= i < msg@.len() implies (#[trigger] msg@[i]) < 128 by {}
        lemma_ascii_valid_utf8(msg@);
    }
    let ghost prefix = msg@;
    let detail_bytes = detail.as_bytes();
    let n = detail_bytes.len();
    let mut i: usize = 0;
    while i < n
        invariant
            i <= n,
            n == detail_bytes@.len(),
            msg@ == prefix + detail_bytes@.subrange(0, i as int),
        decreases n - i,
    {
        msg.push(detail_bytes[i]);
        proof {
            assert(msg@ =~= prefix + detail_bytes@.subrange(0, i + 1));
        }
        i = i + 1;
    }
    proof {
        assert(detail_bytes@.subrange(0, n as int) =~= detail_bytes@);
        // The detail is the byte encoding of a string, so the concatenation
        // with the ASCII prefix is valid UTF-8.
        vstd::utf8::encode_utf8_valid_utf8(detail@);
        vstd::utf8::valid_utf8_concat(prefix, detail_bytes@);
        assert(msg@ =~= prefix + detail_bytes@);
    }
    let value = bytes_to_string(msg.as_slice());
    ScriptResult { value, is_error: true }
}

/// The bytes of `Worker closed`.
pub open spec fn worker_closed_message() -> Seq<u8> {
    seq![87u8, 111u8, 114u8, 107u8, 101u8, 114u8, 32u8, 99u8, 108u8, 111u8, 115u8, 101u8, 100u8]
}

/// The result handed back when a process-backed context's stream ends: the
/// worker closed, and the job it owed an answer fails without retry.
pub fn worker_closed_result() -> (r: ScriptResult)
    ensures
        r.is_error,
        vstd::utf8::encode_utf8(r.value@) == worker_closed_message(),
{
    let mut msg: Vec<u8> = Vec::new();
    msg.push(87);
    msg.push(111);
    msg.push(114);
    msg.push(107);
    msg.push(101);
    msg.push(114);
    msg.push(32);
    msg.push(99);
    msg.push(108);
    msg.push(111);
    msg.push(115);
    msg.push(101);
    msg.push(100);
    proof {
        assert(msg@ =~= worker_closed_message());
        assert forall|i: int| 0 <= i < msg@.len() implies (#[trigger] msg@[i]) < 128 by {}
        lemma_ascii_valid_utf8(msg@);
    }
    let value = bytes_to_string(msg.as_slice());
    ScriptResult { value, is_error: true }
}

/// Isolation law: under per-page isolation, navigating away always replaces
/// the active context with one whose generation was never used before, so a
/// global set on the old page reads as undefined on the new one. The
/// premises are exactly what `on_navigate` ensures of its pre- and
/// post-state.
pub proof fn lemma_navigation_isolates(pre: Supervisor, post: Supervisor, a: WorkerActions)
    requires
        pre.wf(),
        pre.enable_javascript,
        pre.enable_js_isolation,
        a.spawn_page == (pre.enable_javascript && pre.enable_js_isolation),
        a.spawn_page ==> post.page_gen == Some(pre.next_gen),
    ensures
        post.page_gen is Some,
        // Fresh: distinct from the old page context and from every
        // generation that was ever live before the navigation.
        match pre.page_gen {
            Some(o) => post.page_gen != Some(o),
            None => true,
        },
        match pre.global_gen {
            Some(g) => post.page_gen != Some(g),
            None => true,
        },
{
}

} // verus!
