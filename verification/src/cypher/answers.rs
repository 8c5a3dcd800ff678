//! Answers to the read queries that need the live graph: the rows they
//! print, built from what the runtime reports.  Reading the runtime is the
//! caller's part; each function here takes those readings as values.

use vstd::prelude::*;
use vstd::string::StringSliceAdditionalSpecFns;
use crate::bytebuf::{append_capped, copy_vec, dec_digits, lemma_append_capped_assoc};
use crate::protocol::VectorAddress;
use super::{CypherQueryOutcome, EndpointFilter, RuntimeEdgeType};
use super::rows::{cap80, decimal_width, spec_decimal_width, edge_type_label, edge_type_text, padded, push_vec, trim_k, trim_k_prefix, vector_text, NodeRow,
    QueryEmitter, RowBuf};
use crate::supervisor::{first_where, lemma_first_where};

verus! {

fn put_str(row: &mut RowBuf<80>, s: &str, Ghost(t): Ghost<Seq<u8>>)
    requires
        old(row).wf(),
        old(row)@ == cap80(t),
    ensures
        final(row).wf(),
        final(row)@ == cap80(t + s.spec_bytes()),
{
    row.push_str(s);
    proof { lemma_append_capped_assoc(Seq::empty(), t, s.spec_bytes(), 80); }
}

fn put_bytes(row: &mut RowBuf<80>, s: &[u8], Ghost(t): Ghost<Seq<u8>>)
    requires
        old(row).wf(),
        old(row)@ == cap80(t),
    ensures
        final(row).wf(),
        final(row)@ == cap80(t + s@),
{
    row.push_bytes(s);
    proof { lemma_append_capped_assoc(Seq::empty(), t, s@, 80); }
}

fn put_dec(row: &mut RowBuf<80>, n: u64, Ghost(t): Ghost<Seq<u8>>)
    requires
        old(row).wf(),
        old(row)@ == cap80(t),
    ensures
        final(row).wf(),
        final(row)@ == cap80(t + dec_digits(n as nat)),
{
    row.push_dec(n);
    proof { lemma_append_capped_assoc(Seq::empty(), t, dec_digits(n as nat), 80); }
}

fn put_vec(row: &mut RowBuf<80>, v: VectorAddress, Ghost(t): Ghost<Seq<u8>>)
    requires
        old(row).wf(),
        old(row)@ == cap80(t),
    ensures
        final(row).wf(),
        final(row)@ == cap80(t + vector_text(v)),
{
    push_vec(row, v);
    proof { lemma_append_capped_assoc(Seq::empty(), t, vector_text(v), 80); }
}

fn fresh_row() -> (r: RowBuf<80>)
    ensures
        r.wf(),
        r@ == cap80(Seq::empty()),
{
    let r = RowBuf::new();
    assert(r@ =~= cap80(Seq::empty()));
    r
}

/// The rows as byte sequences.
pub open spec fn rows_view(rows: Seq<Vec<u8>>) -> Seq<Seq<u8>> {
    Seq::new(rows.len(), |i: int| rows[i]@)
}

proof fn lemma_rows_view(r: Seq<Vec<u8>>, lines: Seq<Seq<u8>>)
    requires
        rows_are(r, lines),
    ensures
        rows_view(r) == lines,
{
    assert(rows_view(r) =~= lines);
}

/// Emit `rows` in order after what was emitted before.
fn emit_all<E: QueryEmitter>(emitter: &mut E, rows: &Vec<Vec<u8>>)
    ensures
        final(emitter).emitted() == old(emitter).emitted() + rows_view(rows@),
{
    let ghost start = emitter.emitted();
    let mut i: usize = 0;
    while i < rows.len()
        invariant
            i <= rows@.len(),
            emitter.emitted() == start + rows_view(rows@).take(i as int),
        decreases rows@.len() - i,
    {
        emitter.emit_row(rows[i].as_slice());
        assert(rows_view(rows@).take(i + 1) =~= rows_view(rows@).take(i as int).push(rows@[i as int]@));
        i = i + 1;
        assert(emitter.emitted() =~= start + rows_view(rows@).take(i as int));
    }
    assert(rows_view(rows@).take(rows@.len() as int) =~= rows_view(rows@));
}

/// What the runtime reports for `SHOW STATS`.
#[derive(Debug, Clone, Copy, PartialEq, Eq, Structural)]
pub struct RuntimeStats {
    pub plugin_count: usize,
    pub node_count: usize,
    pub edge_count: usize,
    pub ready_queue_len: usize,
    pub signal_queue_len: usize,
    pub journal_len: usize,
    pub journal_lifetime: u64,
    pub generation: u64,
    pub tick: u64,
    pub stable: bool,
    pub rpc_word: u64,
    pub rpc_buf: u64,
    pub deadline_overruns: u64,
}

pub open spec fn dec(n: nat) -> Seq<u8> {
    dec_digits(n)
}

/// The nine `SHOW STATS` rows.
pub open spec fn stats_lines(s: RuntimeStats) -> Seq<Seq<u8>> {
    seq![
        cap80("plugins   ".spec_bytes() + dec(s.plugin_count as nat) + " / 32".spec_bytes()),
        cap80("nodes     ".spec_bytes() + dec(s.node_count as nat) + " / 128".spec_bytes()),
        cap80("edges     ".spec_bytes() + dec(s.edge_count as nat) + " / 512".spec_bytes()),
        cap80("ready=".spec_bytes() + dec(s.ready_queue_len as nat) + "  signals=".spec_bytes()
            + dec(s.signal_queue_len as nat)),
        cap80("journal   ".spec_bytes() + dec(s.journal_len as nat) + " stored / ".spec_bytes()
            + dec(s.journal_lifetime as nat) + " lifetime".spec_bytes()),
        cap80("generation G".spec_bytes() + dec(s.generation as nat) + "  tick=".spec_bytes() + dec(s.tick as nat)),
        cap80("stable    ".spec_bytes() + (if s.stable { "yes".spec_bytes() } else { "no".spec_bytes() })),
        cap80("rpc       word=".spec_bytes() + dec(s.rpc_word as nat) + " buf=".spec_bytes() + dec(s.rpc_buf as nat)),
        cap80("deadlines overruns=".spec_bytes() + dec(s.deadline_overruns as nat)),
    ]
}

pub open spec fn rows_are(r: Seq<Vec<u8>>, lines: Seq<Seq<u8>>) -> bool {
    r.len() == lines.len() && forall|k: int| 0 <= k < r.len() ==> #[trigger] r[k]@ == lines[k]
}

/// The `SHOW STATS` rows.
#[verifier::rlimit(80)]
pub fn stats_rows(s: &RuntimeStats) -> (r: Vec<Vec<u8>>)
    ensures
        rows_are(r@, stats_lines(*s)),
{
    let mut out: Vec<Vec<u8>> = Vec::new();
    let ghost e = Seq::<u8>::empty();

    let mut row = fresh_row();
    put_str(&mut row, "plugins   ", Ghost(e));
    put_dec(&mut row, s.plugin_count as u64, Ghost("plugins   ".spec_bytes()));
    put_str(&mut row, " / 32", Ghost("plugins   ".spec_bytes() + dec(s.plugin_count as nat)));
    out.push(copy_vec(row.as_bytes()));

    let mut row = fresh_row();
    put_str(&mut row, "nodes     ", Ghost(e));
    put_dec(&mut row, s.node_count as u64, Ghost("nodes     ".spec_bytes()));
    put_str(&mut row, " / 128", Ghost("nodes     ".spec_bytes() + dec(s.node_count as nat)));
    out.push(copy_vec(row.as_bytes()));

    let mut row = fresh_row();
    put_str(&mut row, "edges     ", Ghost(e));
    put_dec(&mut row, s.edge_count as u64, Ghost("edges     ".spec_bytes()));
    put_str(&mut row, " / 512", Ghost("edges     ".spec_bytes() + dec(s.edge_count as nat)));
    out.push(copy_vec(row.as_bytes()));

    let mut row = fresh_row();
    put_str(&mut row, "ready=", Ghost(e));
    put_dec(&mut row, s.ready_queue_len as u64, Ghost("ready=".spec_bytes()));
    put_str(&mut row, "  signals=", Ghost("ready=".spec_bytes() + dec(s.ready_queue_len as nat)));
    put_dec(&mut row, s.signal_queue_len as u64,
        Ghost("ready=".spec_bytes() + dec(s.ready_queue_len as nat) + "  signals=".spec_bytes()));
    out.push(copy_vec(row.as_bytes()));

    let mut row = fresh_row();
    let ghost t = "journal   ".spec_bytes();
    put_str(&mut row, "journal   ", Ghost(e));
    put_dec(&mut row, s.journal_len as u64, Ghost(t));
    let ghost t = t + dec(s.journal_len as nat);
    put_str(&mut row, " stored / ", Ghost(t));
    let ghost t = t + " stored / ".spec_bytes();
    put_dec(&mut row, s.journal_lifetime, Ghost(t));
    let ghost t = t + dec(s.journal_lifetime as nat);
    put_str(&mut row, " lifetime", Ghost(t));
    out.push(copy_vec(row.as_bytes()));

    let mut row = fresh_row();
    let ghost t = "generation G".spec_bytes();
    put_str(&mut row, "generation G", Ghost(e));
    put_dec(&mut row, s.generation, Ghost(t));
    let ghost t = t + dec(s.generation as nat);
    put_str(&mut row, "  tick=", Ghost(t));
    let ghost t = t + "  tick=".spec_bytes();
    put_dec(&mut row, s.tick, Ghost(t));
    out.push(copy_vec(row.as_bytes()));

    let mut row = fresh_row();
    put_str(&mut row, "stable    ", Ghost(e));
    put_str(&mut row, if s.stable { "yes" } else { "no" }, Ghost("stable    ".spec_bytes()));
    out.push(copy_vec(row.as_bytes()));

    let mut row = fresh_row();
    let ghost t = "rpc       word=".spec_bytes();
    put_str(&mut row, "rpc       word=", Ghost(e));
    put_dec(&mut row, s.rpc_word, Ghost(t));
    let ghost t = t + dec(s.rpc_word as nat);
    put_str(&mut row, " buf=", Ghost(t));
    let ghost t = t + " buf=".spec_bytes();
    put_dec(&mut row, s.rpc_buf, Ghost(t));
    out.push(copy_vec(row.as_bytes()));

    let mut row = fresh_row();
    put_str(&mut row, "deadlines overruns=", Ghost(e));
    put_dec(&mut row, s.deadline_overruns, Ghost("deadlines overruns=".spec_bytes()));
    out.push(copy_vec(row.as_bytes()));

    proof {
        assert(e + "plugins   ".spec_bytes() =~= "plugins   ".spec_bytes());
        assert(e + "nodes     ".spec_bytes() =~= "nodes     ".spec_bytes());
        assert(e + "edges     ".spec_bytes() =~= "edges     ".spec_bytes());
        assert(e + "ready=".spec_bytes() =~= "ready=".spec_bytes());
        assert(e + "journal   ".spec_bytes() =~= "journal   ".spec_bytes());
        assert(e + "generation G".spec_bytes() =~= "generation G".spec_bytes());
        assert(e + "stable    ".spec_bytes() =~= "stable    ".spec_bytes());
        assert(e + "rpc       word=".spec_bytes() =~= "rpc       word=".spec_bytes());
        assert(e + "deadlines overruns=".spec_bytes() =~= "deadlines overruns=".spec_bytes());
        assert(out@.len() == 9);
    }
    out
}

/// Emit the `SHOW STATS` rows.
pub fn show_stats<E: QueryEmitter>(emitter: &mut E, s: &RuntimeStats) -> (r: CypherQueryOutcome)
    ensures
        r == (CypherQueryOutcome::Rows { count: 9 }),
        final(emitter).emitted() == old(emitter).emitted() + stats_lines(*s),
{
    let rows = stats_rows(s);
    proof { lemma_rows_view(rows@, stats_lines(*s)); }
    emit_all(emitter, &rows);
    CypherQueryOutcome::Rows { count: 9 }
}


/// An answer: the outcome and the row printed, if any.
pub type Answer = (CypherQueryOutcome, Option<Vec<u8>>);

pub open spec fn answer_is(r: Answer, outcome: CypherQueryOutcome, line: Option<Seq<u8>>) -> bool {
    &&& r.0 == outcome
    &&& match line {
        None => r.1 is None,
        Some(l) => r.1 matches Some(v) && v@ == l,
    }
}

/// `SET PRIORITY 'V' = N`, given whether the runtime knows the node and,
/// when a value was given, whether it took it.
pub open spec fn spec_set_priority(lit: Seq<u8>, value: Option<u8>, found: bool, applied: bool)
    -> (CypherQueryOutcome, Option<Seq<u8>>) {
    if !found {
        (CypherQueryOutcome::EndpointNotFound("set priority: node not found"), None)
    } else {
        match value {
            None => (CypherQueryOutcome::BadSyntax("set priority requires '= N' with N in 0..=255"), None),
            Some(n) => if !applied {
                (CypherQueryOutcome::EndpointNotFound("set priority: runtime rejected"), None)
            } else {
                (CypherQueryOutcome::Rows { count: 1 },
                    Some(cap80("set priority '".spec_bytes() + lit + "' = ".spec_bytes() + dec(n as nat))))
            },
        }
    }
}

pub fn set_priority_answer(literal: &[u8], value: Option<u8>, found: bool, applied: bool) -> (r: Answer)
    ensures
        answer_is(r, spec_set_priority(literal@, value, found, applied).0, spec_set_priority(literal@, value, found, applied).1),
{
    if !found {
        return (CypherQueryOutcome::EndpointNotFound("set priority: node not found"), None);
    }
    let n = match value {
        None => return (CypherQueryOutcome::BadSyntax("set priority requires '= N' with N in 0..=255"), None),
        Some(n) => n,
    };
    if !applied {
        return (CypherQueryOutcome::EndpointNotFound("set priority: runtime rejected"), None);
    }
    let mut row = fresh_row();
    let ghost t0 = "set priority '".spec_bytes();
    put_str(&mut row, "set priority '", Ghost(Seq::empty()));
    put_bytes(&mut row, literal, Ghost(t0));
    put_str(&mut row, "' = ", Ghost(t0 + literal@));
    put_dec(&mut row, n as u64, Ghost(t0 + literal@ + "' = ".spec_bytes()));
    proof {
        assert(Seq::<u8>::empty() + t0 =~= t0);
    }
    (CypherQueryOutcome::Rows { count: 1 }, Some(copy_vec(row.as_bytes())))
}

/// The tier a priority falls in.
pub open spec fn spec_priority_tier(p: u8) -> &'static str {
    if p >= 192 { "HIGH" } else if p >= 128 { "DEFAULT" } else if p >= 64 { "BACKGROUND" } else { "IDLE" }
}

pub fn priority_tier(p: u8) -> (r: &'static str)
    ensures
        r == spec_priority_tier(p),
{
    if p >= 192 { "HIGH" } else if p >= 128 { "DEFAULT" } else if p >= 64 { "BACKGROUND" } else { "IDLE" }
}

/// `SHOW PRIORITY 'V'`, given the node's priority if the runtime knows it.
pub open spec fn spec_show_priority(lit: Seq<u8>, priority: Option<u8>) -> (CypherQueryOutcome, Option<Seq<u8>>) {
    match priority {
        None => (CypherQueryOutcome::EndpointNotFound("show priority: node not found"), None),
        Some(p) => (CypherQueryOutcome::Rows { count: 1 },
            Some(cap80("'".spec_bytes() + lit + "' priority = ".spec_bytes() + dec(p as nat) + " (".spec_bytes()
                + spec_priority_tier(p).spec_bytes() + ")".spec_bytes()))),
    }
}

pub fn show_priority_answer(literal: &[u8], priority: Option<u8>) -> (r: Answer)
    ensures
        answer_is(r, spec_show_priority(literal@, priority).0, spec_show_priority(literal@, priority).1),
{
    let p = match priority {
        None => return (CypherQueryOutcome::EndpointNotFound("show priority: node not found"), None),
        Some(p) => p,
    };
    let tier = priority_tier(p);
    let mut row = fresh_row();
    let ghost t0 = "'".spec_bytes();
    put_str(&mut row, "'", Ghost(Seq::empty()));
    put_bytes(&mut row, literal, Ghost(t0));
    let ghost t1 = t0 + literal@;
    put_str(&mut row, "' priority = ", Ghost(t1));
    let ghost t2 = t1 + "' priority = ".spec_bytes();
    put_dec(&mut row, p as u64, Ghost(t2));
    let ghost t3 = t2 + dec(p as nat);
    put_str(&mut row, " (", Ghost(t3));
    let ghost t4 = t3 + " (".spec_bytes();
    put_str(&mut row, tier, Ghost(t4));
    let ghost t5 = t4 + tier.spec_bytes();
    put_str(&mut row, ")", Ghost(t5));
    proof {
        assert(Seq::<u8>::empty() + t0 =~= t0);
    }
    (CypherQueryOutcome::Rows { count: 1 }, Some(copy_vec(row.as_bytes())))
}

/// `RESET PRIORITY 'V'`, given whether the runtime knows the node and took
/// the default priority.
pub open spec fn spec_reset_priority(lit: Seq<u8>, found: bool, applied: bool) -> (CypherQueryOutcome, Option<Seq<u8>>) {
    if !found {
        (CypherQueryOutcome::EndpointNotFound("reset priority: node not found"), None)
    } else if !applied {
        (CypherQueryOutcome::EndpointNotFound("reset priority: runtime rejected"), None)
    } else {
        (CypherQueryOutcome::Rows { count: 1 },
            Some(cap80("reset priority '".spec_bytes() + lit + "' = 128 (DEFAULT)".spec_bytes())))
    }
}

pub fn reset_priority_answer(literal: &[u8], found: bool, applied: bool) -> (r: Answer)
    ensures
        answer_is(r, spec_reset_priority(literal@, found, applied).0, spec_reset_priority(literal@, found, applied).1),
{
    if !found {
        return (CypherQueryOutcome::EndpointNotFound("reset priority: node not found"), None);
    }
    if !applied {
        return (CypherQueryOutcome::EndpointNotFound("reset priority: runtime rejected"), None);
    }
    let mut row = fresh_row();
    let ghost t0 = "reset priority '".spec_bytes();
    put_str(&mut row, "reset priority '", Ghost(Seq::empty()));
    put_bytes(&mut row, literal, Ghost(t0));
    put_str(&mut row, "' = 128 (DEFAULT)", Ghost(t0 + literal@));
    proof {
        assert(Seq::<u8>::empty() + t0 =~= t0);
    }
    (CypherQueryOutcome::Rows { count: 1 }, Some(copy_vec(row.as_bytes())))
}

/// `SET DEADLINE 'V' = N`, given whether the runtime knows the node and,
/// when a value was given, whether it took it.
pub open spec fn spec_set_deadline(lit: Seq<u8>, value: Option<u64>, found: bool, applied: bool)
    -> (CypherQueryOutcome, Option<Seq<u8>>) {
    if !found {
        (CypherQueryOutcome::EndpointNotFound("set deadline: node not found"), None)
    } else {
        match value {
            None => (CypherQueryOutcome::BadSyntax("set deadline requires '= N' (cycles, 0 disables)"), None),
            Some(n) => if !applied {
                (CypherQueryOutcome::EndpointNotFound("set deadline: runtime rejected"), None)
            } else {
                (CypherQueryOutcome::Rows { count: 1 },
                    Some(cap80("set deadline '".spec_bytes() + lit + "' = ".spec_bytes() + dec(n as nat)
                        + " cycles".spec_bytes() + (if n == 0 { " (disabled)".spec_bytes() } else { Seq::empty() }))))
            },
        }
    }
}

pub fn set_deadline_answer(literal: &[u8], value: Option<u64>, found: bool, applied: bool) -> (r: Answer)
    ensures
        answer_is(r, spec_set_deadline(literal@, value, found, applied).0, spec_set_deadline(literal@, value, found, applied).1),
{
    if !found {
        return (CypherQueryOutcome::EndpointNotFound("set deadline: node not found"), None);
    }
    let n = match value {
        None => return (CypherQueryOutcome::BadSyntax("set deadline requires '= N' (cycles, 0 disables)"), None),
        Some(n) => n,
    };
    if !applied {
        return (CypherQueryOutcome::EndpointNotFound("set deadline: runtime rejected"), None);
    }
    let mut row = fresh_row();
    let ghost t0 = "set deadline '".spec_bytes();
    put_str(&mut row, "set deadline '", Ghost(Seq::empty()));
    put_bytes(&mut row, literal, Ghost(t0));
    let ghost t1 = t0 + literal@;
    put_str(&mut row, "' = ", Ghost(t1));
    let ghost t2 = t1 + "' = ".spec_bytes();
    put_dec(&mut row, n, Ghost(t2));
    let ghost t3 = t2 + dec(n as nat);
    put_str(&mut row, " cycles", Ghost(t3));
    let ghost t4 = t3 + " cycles".spec_bytes();
    if n == 0 {
        put_str(&mut row, " (disabled)", Ghost(t4));
    }
    proof {
        assert(Seq::<u8>::empty() + t0 =~= t0);
        assert(t4 + Seq::<u8>::empty() =~= t4);
    }
    (CypherQueryOutcome::Rows { count: 1 }, Some(copy_vec(row.as_bytes())))
}

/// `SHOW DEADLINE 'V'`, given the node's deadline if the runtime knows it.
pub open spec fn spec_show_deadline(lit: Seq<u8>, cycles: Option<u64>) -> (CypherQueryOutcome, Option<Seq<u8>>) {
    match cycles {
        None => (CypherQueryOutcome::EndpointNotFound("show deadline: node not found"), None),
        Some(c) => (CypherQueryOutcome::Rows { count: 1 },
            Some(cap80("'".spec_bytes() + lit + "' deadline = ".spec_bytes()
                + (if c == 0 { "(disabled)".spec_bytes() } else { dec(c as nat) + " cycles".spec_bytes() })))),
    }
}

pub fn show_deadline_answer(literal: &[u8], cycles: Option<u64>) -> (r: Answer)
    ensures
        answer_is(r, spec_show_deadline(literal@, cycles).0, spec_show_deadline(literal@, cycles).1),
{
    let c = match cycles {
        None => return (CypherQueryOutcome::EndpointNotFound("show deadline: node not found"), None),
        Some(c) => c,
    };
    let mut row = fresh_row();
    let ghost t0 = "'".spec_bytes();
    put_str(&mut row, "'", Ghost(Seq::empty()));
    put_bytes(&mut row, literal, Ghost(t0));
    let ghost t1 = t0 + literal@;
    put_str(&mut row, "' deadline = ", Ghost(t1));
    let ghost t2 = t1 + "' deadline = ".spec_bytes();
    if c == 0 {
        put_str(&mut row, "(disabled)", Ghost(t2));
    } else {
        put_dec(&mut row, c, Ghost(t2));
        put_str(&mut row, " cycles", Ghost(t2 + dec(c as nat)));
    }
    proof {
        assert(Seq::<u8>::empty() + t0 =~= t0);
        assert(t2 + dec(c as nat) + " cycles".spec_bytes() =~= t2 + (dec(c as nat) + " cycles".spec_bytes()));
    }
    (CypherQueryOutcome::Rows { count: 1 }, Some(copy_vec(row.as_bytes())))
}

/// What the runtime reports for an RPC invoke.
#[derive(Debug, Clone, Copy, PartialEq, Eq, Structural)]
pub enum RpcResult {
    Reply(u64),
    NoReply,
    BadStatus,
    RuntimeError,
}

/// `INVOKE 'V' WITH N`, given the runtime's reply.
pub open spec fn spec_invoke(lit: Seq<u8>, request: u64, result: RpcResult) -> (CypherQueryOutcome, Option<Seq<u8>>) {
    let head = "invoke '".spec_bytes() + lit;
    match result {
        RpcResult::Reply(v) => (CypherQueryOutcome::Rows { count: 1 },
            Some(cap80(head + "' with ".spec_bytes() + dec(request as nat) + " -> ".spec_bytes() + dec(v as nat)))),
        RpcResult::NoReply => (CypherQueryOutcome::Rows { count: 1 },
            Some(cap80(head + "': target ran but no rpc_reply".spec_bytes()))),
        RpcResult::BadStatus => (CypherQueryOutcome::Rows { count: 1 },
            Some(cap80(head + "': target dispatch returned non-OK".spec_bytes()))),
        RpcResult::RuntimeError => (CypherQueryOutcome::EndpointNotFound("invoke: target node not found or runtime error"), None),
    }
}

pub fn invoke_answer(literal: &[u8], request: u64, result: RpcResult) -> (r: Answer)
    ensures
        answer_is(r, spec_invoke(literal@, request, result).0, spec_invoke(literal@, request, result).1),
{
    if let RpcResult::RuntimeError = result {
        return (CypherQueryOutcome::EndpointNotFound("invoke: target node not found or runtime error"), None);
    }
    let mut row = fresh_row();
    let ghost t0 = "invoke '".spec_bytes();
    put_str(&mut row, "invoke '", Ghost(Seq::empty()));
    put_bytes(&mut row, literal, Ghost(t0));
    let ghost t1 = t0 + literal@;
    proof {
        assert(Seq::<u8>::empty() + t0 =~= t0);
    }
    match result {
        RpcResult::Reply(v) => {
            put_str(&mut row, "' with ", Ghost(t1));
            let ghost t2 = t1 + "' with ".spec_bytes();
            put_dec(&mut row, request, Ghost(t2));
            let ghost t3 = t2 + dec(request as nat);
            put_str(&mut row, " -> ", Ghost(t3));
            put_dec(&mut row, v, Ghost(t3 + " -> ".spec_bytes()));
        },
        RpcResult::NoReply => {
            put_str(&mut row, "': target ran but no rpc_reply", Ghost(t1));
        },
        _ => {
            put_str(&mut row, "': target dispatch returned non-OK", Ghost(t1));
        },
    }
    (CypherQueryOutcome::Rows { count: 1 }, Some(copy_vec(row.as_bytes())))
}


/// What an edge listing knows of an edge.
pub struct EdgeRow {
    pub from_vector: VectorAddress,
    pub to_vector: VectorAddress,
    pub edge_type: RuntimeEdgeType,
    pub capability_namespace: Option<Vec<u8>>,
    pub capability_binding: Option<Vec<u8>>,
}

/// The first `w` bytes of `s` (all of it when shorter).
pub open spec fn first_bytes(s: Seq<u8>, w: int) -> Seq<u8> {
    if s.len() <= w { s } else { s.subrange(0, w) }
}

/// The capability part of an edge line: `  [namespace/binding]`, each name
/// cut to 20 bytes, the binding only when there is one; nothing without a
/// namespace.
pub open spec fn capability_suffix(e: &EdgeRow) -> Seq<u8> {
    match &e.capability_namespace {
        None => Seq::empty(),
        Some(ns) => "  [".spec_bytes() + first_bytes(ns@, 20) + match &e.capability_binding {
            None => Seq::empty(),
            Some(c) => "/".spec_bytes() + first_bytes(c@, 20),
        } + "]".spec_bytes(),
    }
}

/// One edge listing line (before the 80-byte cut).
pub open spec fn edge_line(e: &EdgeRow) -> Seq<u8> {
    vector_text(e.from_vector) + " -> ".spec_bytes() + vector_text(e.to_vector) + "  ".spec_bytes()
        + edge_type_text(e.edge_type).spec_bytes() + capability_suffix(e)
}

fn first_bytes_exec(s: &[u8], w: usize) -> (r: &[u8])
    ensures
        r@ == first_bytes(s@, w as int),
{
    if s.len() <= w {
        s
    } else {
        vstd::slice::slice_subrange(s, 0, w)
    }
}

/// The listing line of one edge, cut to 80 bytes.
pub fn format_edge_row(e: &EdgeRow) -> (r: RowBuf<80>)
    ensures
        r.wf(),
        r@ == cap80(edge_line(e)),
{
    let mut row = fresh_row();
    let ghost t0 = Seq::<u8>::empty();
    put_vec(&mut row, e.from_vector, Ghost(t0));
    let ghost t1 = t0 + vector_text(e.from_vector);
    put_str(&mut row, " -> ", Ghost(t1));
    let ghost t2 = t1 + " -> ".spec_bytes();
    put_vec(&mut row, e.to_vector, Ghost(t2));
    let ghost t3 = t2 + vector_text(e.to_vector);
    put_str(&mut row, "  ", Ghost(t3));
    let ghost t4 = t3 + "  ".spec_bytes();
    put_str(&mut row, edge_type_label(e.edge_type), Ghost(t4));
    let ghost t5 = t4 + edge_type_text(e.edge_type).spec_bytes();
    match &e.capability_namespace {
        None => {
            assert(t5 + capability_suffix(e) =~= t5);
        },
        Some(ns) => {
            put_str(&mut row, "  [", Ghost(t5));
            let ghost t6 = t5 + "  [".spec_bytes();
            let nsb = first_bytes_exec(ns.as_slice(), 20);
            put_bytes(&mut row, nsb, Ghost(t6));
            let ghost t7 = t6 + first_bytes(ns@, 20);
            match &e.capability_binding {
                None => {
                    put_str(&mut row, "]", Ghost(t7));
                    assert(t7 + "]".spec_bytes() =~= t5 + capability_suffix(e));
                },
                Some(c) => {
                    put_str(&mut row, "/", Ghost(t7));
                    let cb = first_bytes_exec(c.as_slice(), 20);
                    put_bytes(&mut row, cb, Ghost(t7 + "/".spec_bytes()));
                    put_str(&mut row, "]", Ghost(t7 + "/".spec_bytes() + first_bytes(c@, 20)));
                    assert(t7 + "/".spec_bytes() + first_bytes(c@, 20) + "]".spec_bytes() =~= t5 + capability_suffix(e));
                },
            }
        },
    }
    assert(t5 + capability_suffix(e) =~= edge_line(e));
    row
}

pub open spec fn edge_selected(e: &EdgeRow, kind: Option<RuntimeEdgeType>, from: Option<VectorAddress>,
    to: Option<VectorAddress>) -> bool {
    &&& (kind matches Some(k) ==> e.edge_type == k)
    &&& (from matches Some(f) ==> e.from_vector == f)
    &&& (to matches Some(t) ==> e.to_vector == t)
}

/// The edge listing: a line per edge that passes the filters, in order.
pub open spec fn edge_lines(edges: Seq<EdgeRow>, kind: Option<RuntimeEdgeType>, from: Option<VectorAddress>,
    to: Option<VectorAddress>) -> Seq<Seq<u8>>
    decreases edges.len(),
{
    if edges.len() == 0 {
        Seq::empty()
    } else {
        let rest = edge_lines(edges.drop_last(), kind, from, to);
        let e = edges.last();
        if edge_selected(&e, kind, from, to) { rest.push(cap80(edge_line(&e))) } else { rest }
    }
}

/// The rows of the edge listing.
pub fn edge_rows(edges: &Vec<EdgeRow>, kind: Option<RuntimeEdgeType>, from: Option<VectorAddress>,
    to: Option<VectorAddress>) -> (r: Vec<Vec<u8>>)
    ensures
        rows_are(r@, edge_lines(edges@, kind, from, to)),
{
    let mut out: Vec<Vec<u8>> = Vec::new();
    let mut i: usize = 0;
    while i < edges.len()
        invariant
            i <= edges@.len(),
            rows_are(out@, edge_lines(edges@.take(i as int), kind, from, to)),
        decreases edges@.len() - i,
    {
        proof { assert(edges@.take(i + 1).drop_last() =~= edges@.take(i as int)); }
        let e = &edges[i];
        let keep = (match kind { Some(k) => e.edge_type == k, None => true })
            && (match from { Some(f) => e.from_vector == f, None => true })
            && (match to { Some(t) => e.to_vector == t, None => true });
        if keep {
            let row = format_edge_row(e);
            out.push(copy_vec(row.as_bytes()));
        }
        i = i + 1;
    }
    assert(edges@.take(edges@.len() as int) =~= edges@);
    out
}

/// Emit the edge listing; returns the row count.
pub fn show_edges<E: QueryEmitter>(emitter: &mut E, edges: &Vec<EdgeRow>, kind: Option<RuntimeEdgeType>,
    from: Option<VectorAddress>, to: Option<VectorAddress>) -> (r: CypherQueryOutcome)
    ensures
        r == (CypherQueryOutcome::Rows { count: edge_lines(edges@, kind, from, to).len() as usize }),
        final(emitter).emitted() == old(emitter).emitted() + edge_lines(edges@, kind, from, to),
{
    let rows = edge_rows(edges, kind, from, to);
    proof { lemma_rows_view(rows@, edge_lines(edges@, kind, from, to)); }
    emit_all(emitter, &rows);
    CypherQueryOutcome::Rows { count: rows.len() }
}

/// A `FROM` / `TO` filter once the runtime has said whether its vector
/// names a node (`found`, read only for a vector).
pub open spec fn spec_endpoint_check(f: EndpointFilter, found: bool) -> Result<Option<VectorAddress>, CypherQueryOutcome> {
    match f {
        EndpointFilter::Absent => Ok(None),
        EndpointFilter::Bad => Err(CypherQueryOutcome::BadSyntax("bad vector literal for FROM/TO filter")),
        EndpointFilter::At(v) => if found {
            Ok(Some(v))
        } else {
            Err(CypherQueryOutcome::EndpointNotFound("FROM/TO endpoint not found"))
        },
    }
}

pub fn endpoint_check(f: EndpointFilter, found: bool) -> (r: Result<Option<VectorAddress>, CypherQueryOutcome>)
    ensures
        r == spec_endpoint_check(f, found),
{
    match f {
        EndpointFilter::Absent => Ok(None),
        EndpointFilter::Bad => Err(CypherQueryOutcome::BadSyntax("bad vector literal for FROM/TO filter")),
        EndpointFilter::At(v) => if found {
            Ok(Some(v))
        } else {
            Err(CypherQueryOutcome::EndpointNotFound("FROM/TO endpoint not found"))
        },
    }
}

/// `SHOW EDGES` once its filters are parsed: the `FROM` filter is checked,
/// then the `TO` filter, then the matching edges are listed.
pub fn edges_answer<E: QueryEmitter>(emitter: &mut E, edges: &Vec<EdgeRow>, kind: Option<RuntimeEdgeType>,
    from: EndpointFilter, from_found: bool, to: EndpointFilter, to_found: bool) -> (r: CypherQueryOutcome)
    ensures
        r == match spec_endpoint_check(from, from_found) {
            Err(o) => o,
            Ok(f) => match spec_endpoint_check(to, to_found) {
                Err(o) => o,
                Ok(t) => CypherQueryOutcome::Rows { count: edge_lines(edges@, kind, f, t).len() as usize },
            },
        },
        final(emitter).emitted() == match spec_endpoint_check(from, from_found) {
            Err(_) => old(emitter).emitted(),
            Ok(f) => match spec_endpoint_check(to, to_found) {
                Err(_) => old(emitter).emitted(),
                Ok(t) => old(emitter).emitted() + edge_lines(edges@, kind, f, t),
            },
        },
{
    let f = match endpoint_check(from, from_found) {
        Err(o) => return o,
        Ok(f) => f,
    };
    let t = match endpoint_check(to, to_found) {
        Err(o) => return o,
        Ok(t) => t,
    };
    show_edges(emitter, edges, kind, f, t)
}


pub open spec fn has_id(id: u64) -> spec_fn((u64, Seq<u8>, nat)) -> bool {
    |e: (u64, Seq<u8>, nat)| e.0 == id
}

/// The plugins among `nodes`, in order of first appearance: id, the name
/// on its first node, and its node count.
pub open spec fn tally(nodes: Seq<NodeRow>) -> Seq<(u64, Seq<u8>, nat)>
    decreases nodes.len(),
{
    if nodes.len() == 0 {
        Seq::empty()
    } else {
        let t = tally(nodes.drop_last());
        let n = nodes.last();
        match first_where(t, has_id(n.plugin_id), 0) {
            Some(k) => t.update(k, (t[k].0, t[k].1, t[k].2 + 1)),
            None => t.push((n.plugin_id, n.plugin_name@, 1nat)),
        }
    }
}

/// One plugin line: the name without `K_` in 14 columns, `x`, the count.
pub open spec fn plugin_line(e: (u64, Seq<u8>, nat)) -> Seq<u8> {
    cap80(padded(trim_k(e.1), 14) + "x".spec_bytes() + dec(e.2))
}

pub open spec fn plugin_lines(nodes: Seq<NodeRow>) -> Seq<Seq<u8>> {
    Seq::new(tally(nodes).len(), |k: int| plugin_line(tally(nodes)[k]))
}

proof fn lemma_tally_counts(nodes: Seq<NodeRow>)
    ensures
        tally(nodes).len() <= nodes.len(),
        forall|k: int| 0 <= k < tally(nodes).len() ==> 1 <= #[trigger] tally(nodes)[k].2 <= nodes.len(),
    decreases nodes.len(),
{
    if nodes.len() > 0 {
        lemma_tally_counts(nodes.drop_last());
        let t = tally(nodes.drop_last());
        lemma_first_where(t, has_id(nodes.last().plugin_id), 0);
    }
}

fn spaces_to(n: usize) -> (r: Vec<u8>)
    ensures
        r@ == Seq::new(n as nat, |i: int| 0x20u8),
{
    let mut v: Vec<u8> = Vec::new();
    while v.len() < n
        invariant
            v@.len() <= n,
            v@ == Seq::new(v@.len(), |i: int| 0x20u8),
        decreases n - v@.len(),
    {
        v.push(0x20);
        assert(v@ =~= Seq::new(v@.len(), |i: int| 0x20u8));
    }
    v
}

/// The bytes of `s` padded with spaces (or cut) to `w` columns.
fn padded_exec(s: &[u8], w: usize) -> (r: Vec<u8>)
    ensures
        r@ == padded(s@, w as int),
{
    let take = if s.len() < w { s.len() } else { w };
    let mut out = copy_vec(vstd::slice::slice_subrange(s, 0, take));
    let pad = spaces_to(w - take);
    let mut i: usize = 0;
    while i < pad.len()
        invariant
            i <= pad@.len(),
            out@ == s@.subrange(0, take as int) + pad@.subrange(0, i as int),
        decreases pad@.len() - i,
    {
        out.push(pad[i]);
        i = i + 1;
        assert(out@ =~= s@.subrange(0, take as int) + pad@.subrange(0, i as int));
    }
    assert(pad@.subrange(0, pad@.len() as int) =~= pad@);
    out
}

fn position_of_id(ids: &Vec<u64>, id: u64) -> (k: usize)
    ensures
        k <= ids@.len(),
        k < ids@.len() ==> ids@[k as int] == id,
        forall|j: int| 0 <= j < k ==> #[trigger] ids@[j] != id,
{
    let mut k: usize = 0;
    while k < ids.len()
        invariant
            k <= ids@.len(),
            forall|j: int| 0 <= j < k ==> #[trigger] ids@[j] != id,
        decreases ids@.len() - k,
    {
        if ids[k] == id {
            return k;
        }
        k = k + 1;
    }
    k
}

/// The rows of `SHOW PLUGINS`: one per plugin with nodes, in order of first
/// appearance, with its node count.
pub fn plugin_rows(nodes: &Vec<NodeRow>) -> (r: Vec<Vec<u8>>)
    ensures
        rows_are(r@, plugin_lines(nodes@)),
{
    let mut ids: Vec<u64> = Vec::new();
    let mut names: Vec<Vec<u8>> = Vec::new();
    let mut counts: Vec<usize> = Vec::new();
    let mut i: usize = 0;
    while i < nodes.len()
        invariant
            i <= nodes@.len(),
            ids@.len() == tally(nodes@.take(i as int)).len(),
            names@.len() == ids@.len(),
            counts@.len() == ids@.len(),
            forall|k: int| 0 <= k < ids@.len() ==> #[trigger] ids@[k] == tally(nodes@.take(i as int))[k].0,
            forall|k: int| 0 <= k < ids@.len() ==> #[trigger] names@[k]@ == tally(nodes@.take(i as int))[k].1,
            forall|k: int| 0 <= k < ids@.len() ==> #[trigger] counts@[k] == tally(nodes@.take(i as int))[k].2,
        decreases nodes@.len() - i,
    {
        let ghost t = tally(nodes@.take(i as int));
        proof {
            assert(nodes@.take(i + 1).drop_last() =~= nodes@.take(i as int));
            lemma_tally_counts(nodes@.take(i as int));
            lemma_first_where(t, has_id(nodes@[i as int].plugin_id), 0);
        }
        let id = nodes[i].plugin_id;
        let k = position_of_id(&ids, id);
        proof {
            let f = first_where(t, has_id(id), 0);
            if k < ids@.len() {
                assert(has_id(id)(t[k as int]));
                if f is Some && f->Some_0 != k {
                    assert(ids@[f->Some_0] == t[f->Some_0].0);
                }
            } else if f is Some {
                assert(ids@[f->Some_0] == t[f->Some_0].0);
            }
        }
        let ghost t2 = tally(nodes@.take(i + 1));
        let ghost ids0 = ids@;
        let ghost names0 = names@;
        let ghost counts0 = counts@;
        if k < ids.len() {
            assert(first_where(t, has_id(id), 0) == Some(k as int));
            let c = counts[k];
            counts.set(k, c + 1);
            proof {
                assert(t2 == t.update(k as int, (t[k as int].0, t[k as int].1, t[k as int].2 + 1)));
                assert forall|j: int| 0 <= j < ids@.len() implies {
                    &&& ids@[j] == t2[j].0
                    &&& names@[j]@ == t2[j].1
                    &&& counts@[j] == t2[j].2
                } by {
                    assert(ids0[j] == t[j].0 && names0[j]@ == t[j].1 && counts0[j] == t[j].2);
                }
            }
        } else {
            ids.push(id);
            names.push(copy_vec(nodes[i].plugin_name.as_slice()));
            counts.push(1);
            proof {
                assert(t2 == t.push((id, nodes@[i as int].plugin_name@, 1nat)));
                assert forall|j: int| 0 <= j < ids@.len() implies {
                    &&& ids@[j] == t2[j].0
                    &&& names@[j]@ == t2[j].1
                    &&& counts@[j] == t2[j].2
                } by {
                    if j < ids0.len() {
                        assert(ids0[j] == t[j].0 && names0[j]@ == t[j].1 && counts0[j] == t[j].2);
                    }
                }
            }
        }
        i = i + 1;
    }
    assert(nodes@.take(nodes@.len() as int) =~= nodes@);
    assert forall|j: int| 0 <= j < ids@.len() implies
        names@[j]@ == #[trigger] tally(nodes@)[j].1 && counts@[j] == tally(nodes@)[j].2 by {
        assert(ids@[j] == tally(nodes@.take(nodes@.len() as int))[j].0);
    }
    let mut out: Vec<Vec<u8>> = Vec::new();
    let mut k: usize = 0;
    while k < ids.len()
        invariant
            k <= ids@.len(),
            ids@.len() == tally(nodes@).len(),
            names@.len() == ids@.len(),
            counts@.len() == ids@.len(),
            forall|j: int| 0 <= j < ids@.len() ==> {
                &&& names@[j]@ == #[trigger] tally(nodes@)[j].1
                &&& counts@[j] == tally(nodes@)[j].2
            },
            rows_are(out@, plugin_lines(nodes@).take(k as int)),
        decreases ids@.len() - k,
    {
        let name = trim_k_prefix(names[k].as_slice());
        let col = padded_exec(name.as_slice(), 14);
        let mut row = fresh_row();
        put_bytes(&mut row, col.as_slice(), Ghost(Seq::empty()));
        put_str(&mut row, "x", Ghost(col@));
        put_dec(&mut row, counts[k] as u64, Ghost(col@ + "x".spec_bytes()));
        proof {
            assert(Seq::<u8>::empty() + col@ =~= col@);
            assert(plugin_lines(nodes@)[k as int] == plugin_line(tally(nodes@)[k as int]));
        }
        out.push(copy_vec(row.as_bytes()));
        k = k + 1;
        assert(out@.len() == plugin_lines(nodes@).take(k as int).len());
    }
    assert(plugin_lines(nodes@).take(ids@.len() as int) =~= plugin_lines(nodes@));
    out
}

/// Emit the `SHOW PLUGINS` rows; returns their count.
pub fn show_plugins<E: QueryEmitter>(emitter: &mut E, nodes: &Vec<NodeRow>) -> (r: CypherQueryOutcome)
    ensures
        r == (CypherQueryOutcome::Rows { count: tally(nodes@).len() as usize }),
        final(emitter).emitted() == old(emitter).emitted() + plugin_lines(nodes@),
{
    let rows = plugin_rows(nodes);
    proof { lemma_rows_view(rows@, plugin_lines(nodes@)); }
    emit_all(emitter, &rows);
    CypherQueryOutcome::Rows { count: rows.len() }
}


/// Kinds of control-plane journal entries.
#[derive(Debug, Clone, Copy, PartialEq, Eq, Structural)]
pub enum ControlPlaneMessageKind {
    Hello,
    PluginDiscovered,
    NodeUpsert,
    EdgeUpsert,
    StateDelta,
    SnapshotChunk,
    Fault,
    Metric,
    MutationAudit,
    CausalOverflow,
    RuleApplied,
    SubscribeTriggered,
}

pub open spec fn kind_text(k: ControlPlaneMessageKind) -> &'static str {
    match k {
        ControlPlaneMessageKind::Hello => "Hello",
        ControlPlaneMessageKind::PluginDiscovered => "PluginDiscovered",
        ControlPlaneMessageKind::NodeUpsert => "NodeUpsert",
        ControlPlaneMessageKind::EdgeUpsert => "EdgeUpsert",
        ControlPlaneMessageKind::StateDelta => "StateDelta",
        ControlPlaneMessageKind::SnapshotChunk => "SnapshotChunk",
        ControlPlaneMessageKind::Fault => "Fault",
        ControlPlaneMessageKind::Metric => "Metric",
        ControlPlaneMessageKind::MutationAudit => "MutationAudit",
        ControlPlaneMessageKind::CausalOverflow => "CausalOverflow",
        ControlPlaneMessageKind::RuleApplied => "RuleApplied",
        ControlPlaneMessageKind::SubscribeTriggered => "SubscribeTriggered",
    }
}

pub fn envelope_kind_label(k: ControlPlaneMessageKind) -> (r: &'static str)
    ensures
        r == kind_text(k),
{
    match k {
        ControlPlaneMessageKind::Hello => "Hello",
        ControlPlaneMessageKind::PluginDiscovered => "PluginDiscovered",
        ControlPlaneMessageKind::NodeUpsert => "NodeUpsert",
        ControlPlaneMessageKind::EdgeUpsert => "EdgeUpsert",
        ControlPlaneMessageKind::StateDelta => "StateDelta",
        ControlPlaneMessageKind::SnapshotChunk => "SnapshotChunk",
        ControlPlaneMessageKind::Fault => "Fault",
        ControlPlaneMessageKind::Metric => "Metric",
        ControlPlaneMessageKind::MutationAudit => "MutationAudit",
        ControlPlaneMessageKind::CausalOverflow => "CausalOverflow",
        ControlPlaneMessageKind::RuleApplied => "RuleApplied",
        ControlPlaneMessageKind::SubscribeTriggered => "SubscribeTriggered",
    }
}

/// A journal entry as the runtime reports it.
#[derive(Debug, Clone, Copy, PartialEq, Eq, Structural)]
pub struct JournalEntry {
    pub kind: ControlPlaneMessageKind,
    pub arg0: u64,
    pub arg1: u64,
}

pub open spec fn journal_header(stored: nat, lifetime: u64) -> Seq<u8> {
    cap80("journal stored=".spec_bytes() + dec(stored) + " lifetime=".spec_bytes() + dec(lifetime as nat))
}

pub open spec fn journal_entry_line(i: nat, e: JournalEntry) -> Seq<u8> {
    cap80("  ".spec_bytes() + dec(i) + ": ".spec_bytes() + kind_text(e.kind).spec_bytes() + " arg0=".spec_bytes()
        + dec(e.arg0 as nat) + " arg1=".spec_bytes() + dec(e.arg1 as nat))
}

/// The lines of the entries at positions `start..end` that the runtime
/// still has.
pub open spec fn window_lines(entries: Seq<Option<JournalEntry>>, start: int, end: int) -> Seq<Seq<u8>>
    decreases end - start,
{
    if end <= start {
        Seq::empty()
    } else {
        let rest = window_lines(entries, start, end - 1);
        match entries[end - 1] {
            Some(e) => rest.push(journal_entry_line((end - 1) as nat, e)),
            None => rest,
        }
    }
}

/// `SHOW JOURNAL`: a header, then the newest `limit` stored positions
/// (all of them when fewer), oldest first, skipping those the runtime no
/// longer has.  `entries` holds one reading per stored position.
pub open spec fn journal_lines(entries: Seq<Option<JournalEntry>>, lifetime: u64, limit: usize) -> Seq<Seq<u8>> {
    let stored = entries.len();
    let take = if limit < stored { limit as int } else { stored as int };
    seq![journal_header(stored, lifetime)] + window_lines(entries, stored - take, stored as int)
}

pub fn journal_rows(entries: &Vec<Option<JournalEntry>>, lifetime: u64, limit: usize) -> (r: Vec<Vec<u8>>)
    ensures
        rows_are(r@, journal_lines(entries@, lifetime, limit)),
{
    let stored = entries.len();
    let mut out: Vec<Vec<u8>> = Vec::new();
    let mut row = fresh_row();
    let ghost t0 = "journal stored=".spec_bytes();
    put_str(&mut row, "journal stored=", Ghost(Seq::empty()));
    put_dec(&mut row, stored as u64, Ghost(t0));
    let ghost t1 = t0 + dec(stored as nat);
    put_str(&mut row, " lifetime=", Ghost(t1));
    put_dec(&mut row, lifetime, Ghost(t1 + " lifetime=".spec_bytes()));
    proof { assert(Seq::<u8>::empty() + t0 =~= t0); }
    out.push(copy_vec(row.as_bytes()));
    let take = if limit < stored { limit } else { stored };
    let start = stored - take;
    let mut i = start;
    proof { assert(window_lines(entries@, start as int, start as int) =~= Seq::<Seq<u8>>::empty()); }
    while i < stored
        invariant
            start <= i <= stored,
            stored == entries@.len(),
            rows_are(out@, seq![journal_header(stored as nat, lifetime)] + window_lines(entries@, start as int, i as int)),
        decreases stored - i,
    {
        match entries[i] {
            Some(e) => {
                let mut row = fresh_row();
                let ghost u0 = "  ".spec_bytes();
                put_str(&mut row, "  ", Ghost(Seq::empty()));
                put_dec(&mut row, i as u64, Ghost(u0));
                let ghost u1 = u0 + dec(i as nat);
                put_str(&mut row, ": ", Ghost(u1));
                let ghost u2 = u1 + ": ".spec_bytes();
                put_str(&mut row, envelope_kind_label(e.kind), Ghost(u2));
                let ghost u3 = u2 + kind_text(e.kind).spec_bytes();
                put_str(&mut row, " arg0=", Ghost(u3));
                let ghost u4 = u3 + " arg0=".spec_bytes();
                put_dec(&mut row, e.arg0, Ghost(u4));
                let ghost u5 = u4 + dec(e.arg0 as nat);
                put_str(&mut row, " arg1=", Ghost(u5));
                put_dec(&mut row, e.arg1, Ghost(u5 + " arg1=".spec_bytes()));
                proof { assert(Seq::<u8>::empty() + u0 =~= u0); }
                out.push(copy_vec(row.as_bytes()));
            },
            None => {},
        }
        i = i + 1;
        proof {
            assert(seq![journal_header(stored as nat, lifetime)] + window_lines(entries@, start as int, i as int)
                =~= match entries@[i - 1] {
                    Some(e) => (seq![journal_header(stored as nat, lifetime)] + window_lines(entries@, start as int, i - 1))
                        .push(journal_entry_line((i - 1) as nat, e)),
                    None => seq![journal_header(stored as nat, lifetime)] + window_lines(entries@, start as int, i - 1),
                });
        }
    }
    out
}

/// Emit the `SHOW JOURNAL` rows; returns their count.
pub fn show_journal<E: QueryEmitter>(emitter: &mut E, entries: &Vec<Option<JournalEntry>>, lifetime: u64,
    limit: usize) -> (r: CypherQueryOutcome)
    ensures
        r == (CypherQueryOutcome::Rows { count: journal_lines(entries@, lifetime, limit).len() as usize }),
        final(emitter).emitted() == old(emitter).emitted() + journal_lines(entries@, lifetime, limit),
{
    let rows = journal_rows(entries, lifetime, limit);
    proof { lemma_rows_view(rows@, journal_lines(entries@, lifetime, limit)); }
    emit_all(emitter, &rows);
    CypherQueryOutcome::Rows { count: rows.len() }
}

/// A capability some plugin exports, as the runtime reports it.
pub struct CapabilityRow {
    pub plugin_name: Vec<u8>,
    pub namespace: Vec<u8>,
    pub name: Vec<u8>,
    pub version: u32,
}

/// `← ` in UTF-8.
pub open spec fn provider_arrow() -> Seq<u8> {
    seq![0xE2u8, 0x86u8, 0x90u8, 0x20u8]
}

/// Columns before the provider name: namespace, name, 4 and the version's
/// digits, padded out to 32.
pub open spec fn capability_pad(c: &CapabilityRow) -> nat {
    let used = c.namespace@.len() + c.name@.len() + 4 + spec_decimal_width(c.version as nat);
    if used >= 32 { 0 } else { (32 - used) as nat }
}

/// One capability line: `namespace/name@vN`, padding, `← `, and the
/// provider's name without `K_`, cut to 16 bytes.
pub open spec fn capability_line(c: &CapabilityRow) -> Seq<u8> {
    cap80(c.namespace@ + "/".spec_bytes() + c.name@ + "@v".spec_bytes() + dec(c.version as nat)
        + Seq::new(capability_pad(c), |i: int| 0x20u8) + provider_arrow() + first_bytes(trim_k(c.plugin_name@), 16))
}

pub open spec fn capability_lines(caps: Seq<CapabilityRow>) -> Seq<Seq<u8>> {
    Seq::new(caps.len(), |k: int| capability_line(&caps[k]))
}

pub fn capability_rows(caps: &Vec<CapabilityRow>) -> (r: Vec<Vec<u8>>)
    requires
        forall|k: int| 0 <= k < caps@.len() ==> (#[trigger] caps@[k]).namespace@.len() + caps@[k].name@.len() + 32 <= usize::MAX,
    ensures
        rows_are(r@, capability_lines(caps@)),
{
    let arrow: [u8; 4] = [0xE2, 0x86, 0x90, 0x20];
    assert(arrow@ =~= provider_arrow());
    let mut out: Vec<Vec<u8>> = Vec::new();
    let mut k: usize = 0;
    while k < caps.len()
        invariant
            k <= caps@.len(),
            arrow@ == provider_arrow(),
            forall|j: int| 0 <= j < caps@.len() ==> (#[trigger] caps@[j]).namespace@.len() + caps@[j].name@.len() + 32 <= usize::MAX,
            rows_are(out@, capability_lines(caps@).take(k as int)),
        decreases caps@.len() - k,
    {
        let c = &caps[k];
        let used = c.namespace.len() + c.name.len() + 4 + decimal_width(c.version as u64);
        let pad = if used >= 32 { 0 } else { 32 - used };
        let spaces = spaces_to(pad);
        let name = trim_k_prefix(c.plugin_name.as_slice());
        let head = first_bytes_exec(name.as_slice(), 16);
        let mut row = fresh_row();
        put_bytes(&mut row, c.namespace.as_slice(), Ghost(Seq::empty()));
        let ghost t1 = c.namespace@;
        put_str(&mut row, "/", Ghost(t1));
        let ghost t2 = t1 + "/".spec_bytes();
        put_bytes(&mut row, c.name.as_slice(), Ghost(t2));
        let ghost t3 = t2 + c.name@;
        put_str(&mut row, "@v", Ghost(t3));
        let ghost t4 = t3 + "@v".spec_bytes();
        put_dec(&mut row, c.version as u64, Ghost(t4));
        let ghost t5 = t4 + dec(c.version as nat);
        put_bytes(&mut row, spaces.as_slice(), Ghost(t5));
        let ghost t6 = t5 + spaces@;
        put_bytes(&mut row, arrow.as_slice(), Ghost(t6));
        put_bytes(&mut row, head, Ghost(t6 + arrow@));
        proof {
            assert(Seq::<u8>::empty() + t1 =~= t1);
            assert(capability_lines(caps@)[k as int] == capability_line(&caps@[k as int]));
        }
        out.push(copy_vec(row.as_bytes()));
        k = k + 1;
        assert(out@.len() == capability_lines(caps@).take(k as int).len());
    }
    assert(capability_lines(caps@).take(caps@.len() as int) =~= capability_lines(caps@));
    out
}

/// Emit the `SHOW CAPABILITIES` rows; returns their count.
pub fn show_capabilities<E: QueryEmitter>(emitter: &mut E, caps: &Vec<CapabilityRow>) -> (r: CypherQueryOutcome)
    requires
        forall|k: int| 0 <= k < caps@.len() ==> (#[trigger] caps@[k]).namespace@.len() + caps@[k].name@.len() + 32 <= usize::MAX,
    ensures
        r == (CypherQueryOutcome::Rows { count: caps@.len() as usize }),
        final(emitter).emitted() == old(emitter).emitted() + capability_lines(caps@),
{
    let rows = capability_rows(caps);
    proof { lemma_rows_view(rows@, capability_lines(caps@)); }
    emit_all(emitter, &rows);
    CypherQueryOutcome::Rows { count: rows.len() }
}

} // verus!
