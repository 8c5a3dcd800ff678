//! The Cypher shell's query language: case-insensitive parsing of the
//! mutation verbs (`CREATE MOUNT`, `LINK`, `DELETE EDGE`, ...), of the
//! read verbs (`SHOW NODES`, `SET PRIORITY`, ...) and of the MATCH forms,
//! and the rows the read verbs print.
//!
//! Parsing is separated from the live graph: a query becomes a plan, and
//! the steps that need the runtime (endpoint lookups, the supervisor's
//! mutation gate) hand their answers to a verified function that settles
//! the outcome.

use vstd::prelude::*;
use vstd::string::StringSliceAdditionalSpecFns;
use crate::protocol::VectorAddress;
use crate::protocol::spec_parse_vector;
use crate::cypher::text::lower;
use self::text::{quoted_value_from, extract_quoted_value_ci, lemma_quoted_value_bounds, spec_parse_limit, parse_limit, limit_bytes, limit_word, lemma_skip_sep, lemma_next_token, lemma_quoted_word, lemma_quoted_at_from, lemma_find_from, lemma_find_byte, match_at, spec_find_ci, quoted_at_from, eq_ci,
    starts_with_ci, contains_ci, extract_quoted_at, find_byte, spec_next_token, next_token, parse_unsigned,
    parse_unsigned_range, opt_u64, opt_usize, find_ci, skip_sep, skip_eq_colon_ws, quoted_word,
    extract_quoted_value_word};

pub mod text;
pub mod rows;
pub mod answers;
pub mod detail;

verus! {

/// Node sub-domains a `SHOW NODES` filter can name.
#[derive(Debug, Clone, Copy, PartialEq, Eq, Structural)]
pub enum NodeSubDomain {
    Hardware,
    KernelDriver,
    Service,
    Compute,
    Routing,
    Vector,
}

/// Runtime edge kinds a `SHOW EDGES` filter can name.
#[derive(Debug, Clone, Copy, PartialEq, Eq, Structural)]
pub enum RuntimeEdgeType {
    Call,
    Spawn,
    Depend,
    Signal,
    Return,
    Mount,
    Sync,
    Stream,
    Use,
    Link,
}

/// `tok` equals the literal `lit`, ignoring ASCII case.
pub open spec fn tok_is(tok: Seq<u8>, lit: &str) -> bool {
    tok.len() == lit.spec_bytes().len() && match_at(tok, lit.spec_bytes(), 0)
}

fn tok_is_exec(tok: &[u8], lit: &str) -> (r: bool)
    ensures
        r == tok_is(tok@, lit),
{
    eq_ci(tok, lit.as_bytes())
}

pub open spec fn spec_class_token(tok: Seq<u8>) -> Option<NodeSubDomain> {
    if tok_is(tok, "hw") || tok_is(tok, "hardware") {
        Some(NodeSubDomain::Hardware)
    } else if tok_is(tok, "drv") || tok_is(tok, "driver") || tok_is(tok, "kerneldriver") {
        Some(NodeSubDomain::KernelDriver)
    } else if tok_is(tok, "svc") || tok_is(tok, "service") {
        Some(NodeSubDomain::Service)
    } else if tok_is(tok, "cpu") || tok_is(tok, "compute") {
        Some(NodeSubDomain::Compute)
    } else if tok_is(tok, "rtr") || tok_is(tok, "routing") || tok_is(tok, "router") {
        Some(NodeSubDomain::Routing)
    } else if tok_is(tok, "vec") || tok_is(tok, "vector") {
        Some(NodeSubDomain::Vector)
    } else {
        None
    }
}

/// The sub-domain a class token names (short or long form, any case).
pub fn match_class_token(tok: &[u8]) -> (r: Option<NodeSubDomain>)
    ensures
        r == spec_class_token(tok@),
{
    if tok_is_exec(tok, "hw") || tok_is_exec(tok, "hardware") {
        Some(NodeSubDomain::Hardware)
    } else if tok_is_exec(tok, "drv") || tok_is_exec(tok, "driver") || tok_is_exec(tok, "kerneldriver") {
        Some(NodeSubDomain::KernelDriver)
    } else if tok_is_exec(tok, "svc") || tok_is_exec(tok, "service") {
        Some(NodeSubDomain::Service)
    } else if tok_is_exec(tok, "cpu") || tok_is_exec(tok, "compute") {
        Some(NodeSubDomain::Compute)
    } else if tok_is_exec(tok, "rtr") || tok_is_exec(tok, "routing") || tok_is_exec(tok, "router") {
        Some(NodeSubDomain::Routing)
    } else if tok_is_exec(tok, "vec") || tok_is_exec(tok, "vector") {
        Some(NodeSubDomain::Vector)
    } else {
        None
    }
}

pub open spec fn spec_kind_token(tok: Seq<u8>) -> Option<RuntimeEdgeType> {
    if tok_is(tok, "call") {
        Some(RuntimeEdgeType::Call)
    } else if tok_is(tok, "spawn") {
        Some(RuntimeEdgeType::Spawn)
    } else if tok_is(tok, "depend") {
        Some(RuntimeEdgeType::Depend)
    } else if tok_is(tok, "signal") {
        Some(RuntimeEdgeType::Signal)
    } else if tok_is(tok, "return") {
        Some(RuntimeEdgeType::Return)
    } else if tok_is(tok, "mount") {
        Some(RuntimeEdgeType::Mount)
    } else if tok_is(tok, "sync") {
        Some(RuntimeEdgeType::Sync)
    } else if tok_is(tok, "stream") {
        Some(RuntimeEdgeType::Stream)
    } else if tok_is(tok, "use") {
        Some(RuntimeEdgeType::Use)
    } else if tok_is(tok, "link") {
        Some(RuntimeEdgeType::Link)
    } else {
        None
    }
}

/// The edge kind a kind token names (any case).
pub fn match_kind_token(tok: &[u8]) -> (r: Option<RuntimeEdgeType>)
    ensures
        r == spec_kind_token(tok@),
{
    if tok_is_exec(tok, "call") {
        Some(RuntimeEdgeType::Call)
    } else if tok_is_exec(tok, "spawn") {
        Some(RuntimeEdgeType::Spawn)
    } else if tok_is_exec(tok, "depend") {
        Some(RuntimeEdgeType::Depend)
    } else if tok_is_exec(tok, "signal") {
        Some(RuntimeEdgeType::Signal)
    } else if tok_is_exec(tok, "return") {
        Some(RuntimeEdgeType::Return)
    } else if tok_is_exec(tok, "mount") {
        Some(RuntimeEdgeType::Mount)
    } else if tok_is_exec(tok, "sync") {
        Some(RuntimeEdgeType::Sync)
    } else if tok_is_exec(tok, "stream") {
        Some(RuntimeEdgeType::Stream)
    } else if tok_is_exec(tok, "use") {
        Some(RuntimeEdgeType::Use)
    } else if tok_is_exec(tok, "link") {
        Some(RuntimeEdgeType::Link)
    } else {
        None
    }
}

/// The query starts with `lit`, ignoring case.
pub open spec fn starts(q: Seq<u8>, lit: &str) -> bool {
    match_at(q, lit.spec_bytes(), 0)
}

/// The query contains `lit`, ignoring case.
pub open spec fn has(q: Seq<u8>, lit: &str) -> bool {
    spec_find_ci(q, lit.spec_bytes()) is Some
}

fn starts_exec(q: &[u8], lit: &str) -> (r: bool)
    ensures
        r == starts(q@, lit),
{
    starts_with_ci(q, lit.as_bytes())
}

fn has_exec(q: &[u8], lit: &str) -> (r: bool)
    ensures
        r == has(q@, lit),
{
    contains_ci(q, lit.as_bytes())
}

/// What a mutation asks the supervisor's gate for.
#[derive(Debug, Clone, Copy, PartialEq, Eq, Structural)]
pub enum EdgeMutationKind {
    Mount,
    Use,
    Link,
    Rebind,
}

/// A parsed mutation statement.
#[derive(Debug, Clone, Copy, PartialEq, Eq)]
pub enum MutationPlan {
    /// No mutation verb in the text.
    NotCypher,
    /// A mutation verb with malformed arguments.
    BadSyntax(&'static str),
    /// `CREATE (n)`: a fresh provisional node.
    CreateNode,
    /// `DELETE EDGE 'e:V'`.
    DeleteEdge { edge: VectorAddress },
    /// `CREATE MOUNT`, `CREATE USE`, `LINK` or `REBIND USE` between two nodes.
    Connect { label: &'static str, kind: EdgeMutationKind, from: VectorAddress, to: VectorAddress },
}

/// The literal of quoted argument `n`.
pub open spec fn quoted_arg(q: Seq<u8>, n: int) -> Option<Seq<u8>> {
    match quoted_at_from(q, n, 0, 0) {
        Some(r) => Some(q.subrange(r.0, r.1)),
        None => None,
    }
}

/// An edge literal with its optional `e:` prefix removed.
pub open spec fn strip_edge_prefix(lit: Seq<u8>) -> Seq<u8> {
    if match_at(lit, seq![0x65u8, 0x3Au8], 0) { lit.subrange(2, lit.len() as int) } else { lit }
}

/// The mutation a statement asks for.  `create_node` says whether `CREATE
/// (n)` is recognised (the in-kernel shell) or not (the command bar).
pub open spec fn spec_plan_mutation(q: Seq<u8>, create_node: bool) -> MutationPlan {
    let mount = has(q, "create mount");
    let use_ = has(q, "create use");
    let link = starts(q, "link ") || starts(q, "link\t");
    let delete = has(q, "delete edge");
    let rebind = has(q, "rebind use");
    let node = create_node && has(q, "create (");
    if !(mount || use_ || link || delete || rebind || node) {
        MutationPlan::NotCypher
    } else if node {
        MutationPlan::CreateNode
    } else if delete {
        match quoted_arg(q, 0) {
            None => MutationPlan::BadSyntax("delete edge requires 'e:V' literal"),
            Some(lit) => match spec_parse_vector(strip_edge_prefix(lit)) {
                None => MutationPlan::BadSyntax("delete edge: bad edge vector"),
                Some(edge) => MutationPlan::DeleteEdge { edge },
            },
        }
    } else {
        match quoted_arg(q, 0) {
            None => MutationPlan::BadSyntax("mutation requires 'V_from' literal"),
            Some(lf) => match quoted_arg(q, 1) {
                None => MutationPlan::BadSyntax("mutation requires 'V_to' literal"),
                Some(lt) => match spec_parse_vector(lf) {
                    None => MutationPlan::BadSyntax("bad V_from"),
                    Some(from) => match spec_parse_vector(lt) {
                        None => MutationPlan::BadSyntax("bad V_to"),
                        Some(to) =>
                            if mount {
                                MutationPlan::Connect { label: "create mount", kind: EdgeMutationKind::Mount, from, to }
                            } else if use_ {
                                MutationPlan::Connect { label: "create use", kind: EdgeMutationKind::Use, from, to }
                            } else if link {
                                MutationPlan::Connect { label: "link", kind: EdgeMutationKind::Link, from, to }
                            } else {
                                MutationPlan::Connect { label: "rebind use", kind: EdgeMutationKind::Rebind, from, to }
                            },
                    },
                },
            },
        }
    }
}

fn quoted_arg_exec(q: &[u8], n: usize) -> (r: Option<(usize, usize)>)
    ensures
        quoted_arg(q@, n as int) is None ==> r is None,
        quoted_arg(q@, n as int) matches Some(lit) ==> r matches Some(p) && p.0 <= p.1 <= q@.len()
            && q@.subrange(p.0 as int, p.1 as int) == lit,
{
    proof { lemma_quoted_at_from(q@, n as int, 0, 0); }
    let ql = q.len();
    let r = extract_quoted_at(q, n);
    proof {
        match quoted_at_from(q@, n as int, 0, 0) {
            Some(x) => {
                assert(r == Some((x.0 as usize, x.1 as usize)));
                assert(q@.subrange(x.0 as usize as int, x.1 as usize as int) == q@.subrange(x.0, x.1));
            },
            None => {},
        }
    }
    r
}

fn parse_vector_range(q: &[u8], start: usize, end: usize) -> (r: Option<VectorAddress>)
    requires
        start <= end <= q@.len(),
    ensures
        r == spec_parse_vector(q@.subrange(start as int, end as int)),
{
    let v = copy_range(q, start, end);
    VectorAddress::parse(v.as_slice())
}

fn copy_range(q: &[u8], start: usize, end: usize) -> (r: Vec<u8>)
    requires
        start <= end <= q@.len(),
    ensures
        r@ == q@.subrange(start as int, end as int),
{
    let mut out: Vec<u8> = Vec::new();
    let mut i = start;
    while i < end
        invariant
            start <= i <= end <= q@.len(),
            out@ == q@.subrange(start as int, i as int),
        decreases end - i,
    {
        out.push(q[i]);
        i = i + 1;
        assert(out@ =~= q@.subrange(start as int, i as int));
    }
    out
}

/// Parse a mutation statement.
pub fn plan_mutation(query: &[u8], create_node: bool) -> (r: MutationPlan)
    ensures
        r == spec_plan_mutation(query@, create_node),
{
    let mount = has_exec(query, "create mount");
    let use_ = has_exec(query, "create use");
    let link = starts_exec(query, "link ") || starts_exec(query, "link\t");
    let delete = has_exec(query, "delete edge");
    let rebind = has_exec(query, "rebind use");
    let node = create_node && has_exec(query, "create (");
    if !(mount || use_ || link || delete || rebind || node) {
        return MutationPlan::NotCypher;
    }
    if node {
        return MutationPlan::CreateNode;
    }
    if delete {
        let (s, e) = match quoted_arg_exec(query, 0) {
            Some(p) => p,
            None => return MutationPlan::BadSyntax("delete edge requires 'e:V' literal"),
        };
        let lit = copy_range(query, s, e);
        let prefix: [u8; 2] = [0x65, 0x3A];
        assert(prefix@ =~= seq![0x65u8, 0x3Au8]);
        let edge = if starts_with_ci(lit.as_slice(), prefix.as_slice()) {
            parse_vector_range(lit.as_slice(), 2, lit.len())
        } else {
            VectorAddress::parse(lit.as_slice())
        };
        assert(lit@ =~= lit@.subrange(0, lit@.len() as int));
        return match edge {
            Some(edge) => MutationPlan::DeleteEdge { edge },
            None => MutationPlan::BadSyntax("delete edge: bad edge vector"),
        };
    }
    let (fs, fe) = match quoted_arg_exec(query, 0) {
        Some(p) => p,
        None => return MutationPlan::BadSyntax("mutation requires 'V_from' literal"),
    };
    let (ts, te) = match quoted_arg_exec(query, 1) {
        Some(p) => p,
        None => return MutationPlan::BadSyntax("mutation requires 'V_to' literal"),
    };
    let from = match parse_vector_range(query, fs, fe) {
        Some(v) => v,
        None => return MutationPlan::BadSyntax("bad V_from"),
    };
    let to = match parse_vector_range(query, ts, te) {
        Some(v) => v,
        None => return MutationPlan::BadSyntax("bad V_to"),
    };
    if mount {
        MutationPlan::Connect { label: "create mount", kind: EdgeMutationKind::Mount, from, to }
    } else if use_ {
        MutationPlan::Connect { label: "create use", kind: EdgeMutationKind::Use, from, to }
    } else if link {
        MutationPlan::Connect { label: "link", kind: EdgeMutationKind::Link, from, to }
    } else {
        MutationPlan::Connect { label: "rebind use", kind: EdgeMutationKind::Rebind, from, to }
    }
}

/// Why the supervisor's gate refused a mutation.
#[derive(Debug, Clone, Copy, PartialEq, Eq, Structural)]
pub enum MutationError {
    UnsupportedMutation,
    UnknownEndpoint(u64),
    InvalidMountTarget(u64),
    DispatcherRejected(u32),
}

/// Outcome of a command-bar mutation.
#[derive(Debug, Clone, Copy, PartialEq, Eq)]
pub enum CypherDispatchOutcome {
    NotCypher,
    BadSyntax(&'static str),
    EndpointNotFound(&'static str),
    DispatchFailed(MutationError),
    Applied(&'static str),
}

/// The outcome of a planned mutation once the runtime has been asked:
/// `first` / `second` are the ids the endpoints resolved to (the edge id
/// for `DELETE EDGE`), `gate` the supervisor's verdict.
pub open spec fn spec_mutation_outcome(plan: MutationPlan, first: Option<u64>, second: Option<u64>,
    gate: Result<(), MutationError>) -> CypherDispatchOutcome {
    match plan {
        MutationPlan::NotCypher => CypherDispatchOutcome::NotCypher,
        MutationPlan::BadSyntax(m) => CypherDispatchOutcome::BadSyntax(m),
        MutationPlan::CreateNode => CypherDispatchOutcome::NotCypher,
        MutationPlan::DeleteEdge { .. } =>
            if first is None {
                CypherDispatchOutcome::EndpointNotFound("delete edge: not found")
            } else {
                match gate {
                    Ok(()) => CypherDispatchOutcome::Applied("delete edge"),
                    Err(e) => CypherDispatchOutcome::DispatchFailed(e),
                }
            },
        MutationPlan::Connect { label, .. } =>
            if first is None {
                CypherDispatchOutcome::EndpointNotFound("V_from node not found")
            } else if second is None {
                CypherDispatchOutcome::EndpointNotFound("V_to node not found")
            } else {
                match gate {
                    Ok(()) => CypherDispatchOutcome::Applied(label),
                    Err(e) => CypherDispatchOutcome::DispatchFailed(e),
                }
            },
    }
}

pub fn mutation_outcome(plan: MutationPlan, first: Option<u64>, second: Option<u64>,
    gate: Result<(), MutationError>) -> (r: CypherDispatchOutcome)
    ensures
        r == spec_mutation_outcome(plan, first, second, gate),
{
    match plan {
        MutationPlan::NotCypher => CypherDispatchOutcome::NotCypher,
        MutationPlan::BadSyntax(m) => CypherDispatchOutcome::BadSyntax(m),
        MutationPlan::CreateNode => CypherDispatchOutcome::NotCypher,
        MutationPlan::DeleteEdge { .. } => {
            if first.is_none() {
                CypherDispatchOutcome::EndpointNotFound("delete edge: not found")
            } else {
                match gate {
                    Ok(()) => CypherDispatchOutcome::Applied("delete edge"),
                    Err(e) => CypherDispatchOutcome::DispatchFailed(e),
                }
            }
        },
        MutationPlan::Connect { label, .. } => {
            if first.is_none() {
                CypherDispatchOutcome::EndpointNotFound("V_from node not found")
            } else if second.is_none() {
                CypherDispatchOutcome::EndpointNotFound("V_to node not found")
            } else {
                match gate {
                    Ok(()) => CypherDispatchOutcome::Applied(label),
                    Err(e) => CypherDispatchOutcome::DispatchFailed(e),
                }
            }
        },
    }
}


/// Outcome of a read query.
#[derive(Debug, Clone, Copy, PartialEq, Eq)]
pub enum CypherQueryOutcome {
    /// Not a read verb.
    NotQuery,
    /// A read verb with a malformed argument.
    BadSyntax(&'static str),
    /// A quoted vector that names no node.
    EndpointNotFound(&'static str),
    /// Rows emitted.
    Rows { count: usize },
}

/// A `FROM` / `TO` filter of `SHOW EDGES`.
#[derive(Debug, Clone, Copy, PartialEq, Eq, Structural)]
pub enum EndpointFilter {
    Absent,
    /// The quoted value is not a vector literal.
    Bad,
    At(VectorAddress),
}

/// A parsed read query.  `literal` is the byte range of the quoted vector.
#[derive(Debug, Clone, Copy, PartialEq, Eq)]
pub enum QueryPlan {
    NotQuery,
    BadSyntax(&'static str),
    Stats,
    Capabilities,
    SetPriority { literal: (usize, usize), vector: VectorAddress, value: Option<u8> },
    ShowPriority { literal: (usize, usize), vector: VectorAddress },
    ResetPriority { literal: (usize, usize), vector: VectorAddress },
    SetDeadline { literal: (usize, usize), vector: VectorAddress, value: Option<u64> },
    ShowDeadline { literal: (usize, usize), vector: VectorAddress },
    Invoke { literal: (usize, usize), vector: VectorAddress, request: u64 },
    Journal { limit: usize },
    Plugins,
    Nodes { class: Option<NodeSubDomain> },
    Edges { kind: Option<RuntimeEdgeType>, from: EndpointFilter, to: EndpointFilter },
}

/// The number after the first `=`: its next token parsed as an unsigned
/// number of at most `max`.
pub open spec fn value_after_eq(q: Seq<u8>, max: nat) -> Option<nat> {
    let eq = find_byte(q, 0x3D, 0);
    if eq >= q.len() {
        None
    } else {
        match spec_next_token(q, eq + 1) {
            None => None,
            Some(t) => parse_unsigned(q.subrange(t.0, t.1), max),
        }
    }
}

/// The number after the first `with` (any case): its next token parsed as
/// a `u64`; none when the word, the token or the number is missing.
pub open spec fn with_number(q: Seq<u8>) -> Option<nat> {
    match spec_find_ci(q, seq![0x77u8, 0x69u8, 0x74u8, 0x68u8]) {
        None => None,
        Some(p) => match spec_next_token(q, p + 4) {
            None => None,
            Some(t) => parse_unsigned(q.subrange(t.0, t.1), u64::MAX as nat),
        },
    }
}

/// The request word of `INVOKE`: the number after `with`, 0 when absent.
pub open spec fn with_value(q: Seq<u8>) -> u64 {
    match with_number(q) {
        Some(v) => v as u64,
        None => 0,
    }
}

/// The journal row limit: the number after the first `limit`, 10 when
/// absent or malformed.
pub open spec fn journal_limit(q: Seq<u8>) -> usize {
    match spec_find_ci(q, limit_bytes()) {
        None => 10,
        Some(p) => match spec_next_token(q, p + 5) {
            None => 10,
            Some(t) => match parse_unsigned(q.subrange(t.0, t.1), usize::MAX as nat) {
                Some(v) => v as usize,
                None => 10,
            },
        },
    }
}

/// Where a filter's argument starts: after `<of key>`, or after
/// `<where key>` and any `=`, `:` or whitespace.
pub open spec fn filter_start(q: Seq<u8>, of_key: &str, where_key: &str) -> Option<int> {
    match spec_find_ci(q, of_key.spec_bytes()) {
        Some(i) => Some(i + of_key.spec_bytes().len()),
        None => match spec_find_ci(q, where_key.spec_bytes()) {
            Some(i) => Some(skip_sep(q, i + where_key.spec_bytes().len())),
            None => None,
        },
    }
}

pub open spec fn spec_class_filter(q: Seq<u8>) -> Result<Option<NodeSubDomain>, &'static str> {
    match filter_start(q, "of class", "where class") {
        None => Ok(None),
        Some(k) => match spec_next_token(q, k) {
            None => Err("class filter missing argument"),
            Some(t) => match spec_class_token(q.subrange(t.0, t.1)) {
                None => Err("unknown class (try Hardware/Driver/Service/Compute/Routing/Vector)"),
                Some(c) => Ok(Some(c)),
            },
        },
    }
}

pub open spec fn spec_kind_filter(q: Seq<u8>) -> Result<Option<RuntimeEdgeType>, &'static str> {
    match filter_start(q, "of kind", "where kind") {
        None => Ok(None),
        Some(k) => match spec_next_token(q, k) {
            None => Err("kind filter missing argument"),
            Some(t) => match spec_kind_token(q.subrange(t.0, t.1)) {
                None => Err("unknown kind (try Mount/Use/Signal/Call/Spawn/Link/Depend)"),
                Some(c) => Ok(Some(c)),
            },
        },
    }
}

pub open spec fn spec_endpoint_filter(q: Seq<u8>, key: &str) -> EndpointFilter {
    match quoted_word(q, key.spec_bytes()) {
        None => EndpointFilter::Absent,
        Some(r) => match spec_parse_vector(q.subrange(r.0, r.1)) {
            None => EndpointFilter::Bad,
            Some(v) => EndpointFilter::At(v),
        },
    }
}

/// The quoted vector argument of a verb: its range and parsed address, or
/// the syntax error (`missing` when there is no literal).
pub open spec fn vector_arg(q: Seq<u8>, missing: &'static str) -> Result<((int, int), VectorAddress), &'static str> {
    match quoted_at_from(q, 0, 0, 0) {
        None => Err(missing),
        Some(r) => match spec_parse_vector(q.subrange(r.0, r.1)) {
            None => Err("bad vector literal"),
            Some(v) => Ok((r, v)),
        },
    }
}

/// The read verbs that take a quoted vector argument.
#[derive(Debug, Clone, Copy, PartialEq, Eq, Structural)]
pub enum VectorVerb {
    SetPriority,
    ShowPriority,
    ResetPriority,
    SetDeadline,
    ShowDeadline,
    Invoke,
}

pub open spec fn missing_literal_message(v: VectorVerb) -> &'static str {
    match v {
        VectorVerb::SetPriority => "set priority requires 'V' literal",
        VectorVerb::ShowPriority => "show priority requires 'V' literal",
        VectorVerb::ResetPriority => "reset priority requires 'V' literal",
        VectorVerb::SetDeadline => "set deadline requires 'V' literal",
        VectorVerb::ShowDeadline => "show deadline requires 'V' literal",
        VectorVerb::Invoke => "invoke requires 'V' literal",
    }
}

pub open spec fn spec_vector_verb_plan(q: Seq<u8>, verb: VectorVerb) -> QueryPlan {
    match vector_arg(q, missing_literal_message(verb)) {
        Err(m) => QueryPlan::BadSyntax(m),
        Ok((r, v)) => {
            let literal = (r.0 as usize, r.1 as usize);
            match verb {
                VectorVerb::SetPriority => QueryPlan::SetPriority { literal, vector: v,
                    value: match value_after_eq(q, 255) { Some(n) => Some(n as u8), None => None } },
                VectorVerb::ShowPriority => QueryPlan::ShowPriority { literal, vector: v },
                VectorVerb::ResetPriority => QueryPlan::ResetPriority { literal, vector: v },
                VectorVerb::SetDeadline => QueryPlan::SetDeadline { literal, vector: v,
                    value: match value_after_eq(q, u64::MAX as nat) { Some(n) => Some(n as u64), None => None } },
                VectorVerb::ShowDeadline => QueryPlan::ShowDeadline { literal, vector: v },
                VectorVerb::Invoke => QueryPlan::Invoke { literal, vector: v, request: with_value(q) },
            }
        },
    }
}

/// Which read verbs a query starts with.
#[derive(Debug, Clone, Copy, PartialEq, Eq, Structural)]
pub struct QueryFlags {
    pub nodes: bool,
    pub edges: bool,
    pub journal: bool,
    pub plugins: bool,
    pub stats: bool,
    pub caps: bool,
    pub setp: bool,
    pub showp: bool,
    pub resetp: bool,
    pub setd: bool,
    pub showd: bool,
    pub invoke: bool,
}

pub open spec fn spec_query_flags(q: Seq<u8>) -> QueryFlags {
    QueryFlags {
        nodes: starts(q, "show nodes") || starts(q, "match nodes"),
        edges: starts(q, "show edges") || starts(q, "match edges"),
        journal: starts(q, "show journal") || starts(q, "match journal"),
        plugins: starts(q, "show plugins") || starts(q, "match plugins"),
        stats: starts(q, "show stats") || starts(q, "stats"),
        caps: starts(q, "show capabilities") || starts(q, "show caps"),
        setp: starts(q, "set priority"),
        showp: starts(q, "show priority"),
        resetp: starts(q, "reset priority"),
        setd: starts(q, "set deadline"),
        showd: starts(q, "show deadline"),
        invoke: starts(q, "invoke ") || starts(q, "invoke\t"),
    }
}

fn query_flags(q: &[u8]) -> (f: QueryFlags)
    ensures
        f == spec_query_flags(q@),
{
    QueryFlags {
        nodes: starts_exec(q, "show nodes") || starts_exec(q, "match nodes"),
        edges: starts_exec(q, "show edges") || starts_exec(q, "match edges"),
        journal: starts_exec(q, "show journal") || starts_exec(q, "match journal"),
        plugins: starts_exec(q, "show plugins") || starts_exec(q, "match plugins"),
        stats: starts_exec(q, "show stats") || starts_exec(q, "stats"),
        caps: starts_exec(q, "show capabilities") || starts_exec(q, "show caps"),
        setp: starts_exec(q, "set priority"),
        showp: starts_exec(q, "show priority"),
        resetp: starts_exec(q, "reset priority"),
        setd: starts_exec(q, "set deadline"),
        showd: starts_exec(q, "show deadline"),
        invoke: starts_exec(q, "invoke ") || starts_exec(q, "invoke\t"),
    }
}

pub open spec fn spec_plan_query(q: Seq<u8>) -> QueryPlan {
    let f = spec_query_flags(q);
    let (nodes, edges, journal, plugins, stats, caps) = (f.nodes, f.edges, f.journal, f.plugins, f.stats, f.caps);
    let (setp, showp, resetp, setd, showd, invoke) = (f.setp, f.showp, f.resetp, f.setd, f.showd, f.invoke);
    if !(nodes || edges || journal || plugins || stats || caps || setp || showp || resetp || setd || showd || invoke) {
        QueryPlan::NotQuery
    } else if stats {
        QueryPlan::Stats
    } else if caps {
        QueryPlan::Capabilities
    } else if setp {
        spec_vector_verb_plan(q, VectorVerb::SetPriority)
    } else if showp {
        spec_vector_verb_plan(q, VectorVerb::ShowPriority)
    } else if resetp {
        spec_vector_verb_plan(q, VectorVerb::ResetPriority)
    } else if setd {
        spec_vector_verb_plan(q, VectorVerb::SetDeadline)
    } else if showd {
        spec_vector_verb_plan(q, VectorVerb::ShowDeadline)
    } else if invoke {
        spec_vector_verb_plan(q, VectorVerb::Invoke)
    } else {
        spec_plan_listing(q, journal, plugins, nodes)
    }
}

fn token_value(q: &[u8], from: usize, max: u64) -> (r: Option<u64>)
    requires
        from <= q@.len(),
    ensures
        r == (match spec_next_token(q@, from as int) {
            None => None,
            Some(t) => opt_u64(parse_unsigned(q@.subrange(t.0, t.1), max as nat)),
        }),
{
    let ql = q.len();
    proof { lemma_next_token(q@, from as int); }
    match next_token(q, from) {
        None => None,
        Some((s, e)) => {
            proof {
                let t = spec_next_token(q@, from as int)->Some_0;
                assert(t.0 as usize == s && t.1 as usize == e);
                assert(q@.subrange(t.0, t.1) == q@.subrange(s as int, e as int));
            }
            parse_unsigned_range(q, s, e, max)
        },
    }
}

fn value_after_eq_exec(q: &[u8], max: u64) -> (r: Option<u64>)
    ensures
        r == opt_u64(value_after_eq(q@, max as nat)),
{
    proof { lemma_find_byte(q@, 0x3D, 0); }
    let mut eq: usize = 0;
    while eq < q.len() && q[eq] != 0x3D
        invariant
            eq <= q@.len(),
            find_byte(q@, 0x3D, 0) == find_byte(q@, 0x3D, eq as int),
        decreases q@.len() - eq,
    {
        eq = eq + 1;
    }
    if eq >= q.len() {
        return None;
    }
    token_value(q, eq + 1, max)
}

/// The deadline of `SET DEADLINE 'V' = N`: the token after the first `=`
/// parsed as a `u64`.
pub fn parse_deadline_value(q: &[u8]) -> (r: Option<u64>)
    ensures
        r == opt_u64(value_after_eq(q@, u64::MAX as nat)),
{
    value_after_eq_exec(q, u64::MAX)
}

/// The priority of `SET PRIORITY 'V' = N`: the token after the first `=`
/// parsed as a `u8`.
pub fn parse_priority_value(q: &[u8]) -> (r: Option<u8>)
    ensures
        r == (match value_after_eq(q@, 255) {
            Some(n) => Some(n as u8),
            None => None::<u8>,
        }),
{
    match value_after_eq_exec(q, 255) {
        Some(n) => Some(n as u8),
        None => None,
    }
}

/// The number after the first `with` of an `INVOKE` query.
pub fn parse_with_value(q: &[u8]) -> (r: Option<u64>)
    ensures
        r == opt_u64(with_number(q@)),
{
    let ql = q.len();
    let with_word: [u8; 4] = [0x77, 0x69, 0x74, 0x68];
    assert(with_word@ =~= seq![0x77u8, 0x69u8, 0x74u8, 0x68u8]);
    proof { lemma_find_from(q@, with_word@, 0); }
    match find_ci(q, with_word.as_slice()) {
        None => None,
        Some(p) => token_value(q, p + 4, u64::MAX),
    }
}

/// The row limit of `SHOW JOURNAL`: the number after the first `limit`,
/// 10 when absent or malformed.
pub fn parse_query_limit(q: &[u8]) -> (r: usize)
    ensures
        r == journal_limit(q@),
{
    let ql = q.len();
    let word = limit_word();
    proof { lemma_find_from(q@, limit_bytes(), 0); }
    match find_ci(q, word.as_slice()) {
        None => 10,
        Some(p) => match token_value(q, p + 5, usize::MAX as u64) {
            Some(n) => n as usize,
            None => 10,
        },
    }
}

fn vector_arg_exec(q: &[u8], missing: &'static str) -> (r: Result<((usize, usize), VectorAddress), &'static str>)
    ensures
        match vector_arg(q@, missing) {
            Err(m) => r == Err::<((usize, usize), VectorAddress), &'static str>(m),
            Ok((rg, v)) => r == Ok::<((usize, usize), VectorAddress), &'static str>(((rg.0 as usize, rg.1 as usize), v))
                && rg.0 <= rg.1 <= q@.len(),
        },
{
    proof { lemma_quoted_at_from(q@, 0, 0, 0); }
    let ql = q.len();
    let (s, e) = match extract_quoted_at(q, 0) {
        Some(p) => p,
        None => return Err(missing),
    };
    match parse_vector_range(q, s, e) {
        None => Err("bad vector literal"),
        Some(v) => Ok(((s, e), v)),
    }
}

fn filter_start_exec(q: &[u8], of_key: &str, where_key: &str) -> (r: Option<usize>)
    ensures
        r == opt_usize(filter_start(q@, of_key, where_key)),
        r matches Some(k) ==> k <= q@.len(),
        filter_start(q@, of_key, where_key) matches Some(x) ==> 0 <= x <= q@.len(),
{
    let ql = q.len();
    proof {
        lemma_find_from(q@, of_key.spec_bytes(), 0);
        lemma_find_from(q@, where_key.spec_bytes(), 0);
        match spec_find_ci(q@, where_key.spec_bytes()) {
            Some(i) => { lemma_skip_sep(q@, i + where_key.spec_bytes().len()); },
            None => {},
        }
    }
    match find_ci(q, of_key.as_bytes()) {
        Some(i) => Some(i + of_key.as_bytes().len()),
        None => match find_ci(q, where_key.as_bytes()) {
            Some(i) => Some(skip_eq_colon_ws(q, i + where_key.as_bytes().len())),
            None => None,
        },
    }
}

fn class_filter_exec(q: &[u8]) -> (r: Result<Option<NodeSubDomain>, &'static str>)
    ensures
        r == spec_class_filter(q@),
{
    let ql = q.len();
    let k = match filter_start_exec(q, "of class", "where class") {
        None => return Ok(None),
        Some(k) => k,
    };
    proof { lemma_next_token(q@, k as int); }
    match next_token(q, k) {
        None => Err("class filter missing argument"),
        Some((s, e)) => {
            proof {
                let t = spec_next_token(q@, k as int)->Some_0;
                assert(q@.subrange(t.0, t.1) == q@.subrange(s as int, e as int));
            }
            let tok = copy_range(q, s, e);
            match match_class_token(tok.as_slice()) {
                None => Err("unknown class (try Hardware/Driver/Service/Compute/Routing/Vector)"),
                Some(c) => Ok(Some(c)),
            }
        },
    }
}

fn kind_filter_exec(q: &[u8]) -> (r: Result<Option<RuntimeEdgeType>, &'static str>)
    ensures
        r == spec_kind_filter(q@),
{
    let ql = q.len();
    let k = match filter_start_exec(q, "of kind", "where kind") {
        None => return Ok(None),
        Some(k) => k,
    };
    proof { lemma_next_token(q@, k as int); }
    match next_token(q, k) {
        None => Err("kind filter missing argument"),
        Some((s, e)) => {
            proof {
                let t = spec_next_token(q@, k as int)->Some_0;
                assert(q@.subrange(t.0, t.1) == q@.subrange(s as int, e as int));
            }
            let tok = copy_range(q, s, e);
            match match_kind_token(tok.as_slice()) {
                None => Err("unknown kind (try Mount/Use/Signal/Call/Spawn/Link/Depend)"),
                Some(c) => Ok(Some(c)),
            }
        },
    }
}

fn endpoint_filter_exec(q: &[u8], key: &str) -> (r: EndpointFilter)
    ensures
        r == spec_endpoint_filter(q@, key),
{
    let ql = q.len();
    proof { lemma_quoted_word(q@, key.spec_bytes()); }
    match extract_quoted_value_word(q, key.as_bytes()) {
        None => EndpointFilter::Absent,
        Some((s, e)) => match parse_vector_range(q, s, e) {
            None => EndpointFilter::Bad,
            Some(v) => EndpointFilter::At(v),
        },
    }
}

fn plan_vector_verb(q: &[u8], verb: VectorVerb) -> (r: QueryPlan)
    ensures
        r == spec_vector_verb_plan(q@, verb),
{
    let ql = q.len();
    let missing = match verb {
        VectorVerb::SetPriority => "set priority requires 'V' literal",
        VectorVerb::ShowPriority => "show priority requires 'V' literal",
        VectorVerb::ResetPriority => "reset priority requires 'V' literal",
        VectorVerb::SetDeadline => "set deadline requires 'V' literal",
        VectorVerb::ShowDeadline => "show deadline requires 'V' literal",
        VectorVerb::Invoke => "invoke requires 'V' literal",
    };
    let (rg, v) = match vector_arg_exec(q, missing) {
        Err(m) => return QueryPlan::BadSyntax(m),
        Ok(x) => x,
    };
    match verb {
        VectorVerb::SetPriority => {
            let value = parse_priority_value(q);
            QueryPlan::SetPriority { literal: rg, vector: v, value }
        },
        VectorVerb::ShowPriority => QueryPlan::ShowPriority { literal: rg, vector: v },
        VectorVerb::ResetPriority => QueryPlan::ResetPriority { literal: rg, vector: v },
        VectorVerb::SetDeadline => QueryPlan::SetDeadline { literal: rg, vector: v, value: parse_deadline_value(q) },
        VectorVerb::ShowDeadline => QueryPlan::ShowDeadline { literal: rg, vector: v },
        VectorVerb::Invoke => {
            let request = match parse_with_value(q) {
                Some(n) => n,
                None => 0,
            };
            QueryPlan::Invoke { literal: rg, vector: v, request }
        },
    }
}

/// The listing verbs, in priority order: journal, plugins, nodes, edges.
pub open spec fn spec_plan_listing(q: Seq<u8>, journal: bool, plugins: bool, nodes: bool) -> QueryPlan {
    if journal {
        QueryPlan::Journal { limit: journal_limit(q) }
    } else if plugins {
        QueryPlan::Plugins
    } else if nodes {
        match spec_class_filter(q) {
            Err(m) => QueryPlan::BadSyntax(m),
            Ok(c) => QueryPlan::Nodes { class: c },
        }
    } else {
        match spec_kind_filter(q) {
            Err(m) => QueryPlan::BadSyntax(m),
            Ok(k) => QueryPlan::Edges { kind: k, from: spec_endpoint_filter(q, "from"), to: spec_endpoint_filter(q, "to") },
        }
    }
}

fn plan_listing(q: &[u8], journal: bool, plugins: bool, nodes: bool) -> (r: QueryPlan)
    ensures
        r == spec_plan_listing(q@, journal, plugins, nodes),
{
    let ql = q.len();
    if journal {
        return QueryPlan::Journal { limit: parse_query_limit(q) };
    }
    if plugins {
        return QueryPlan::Plugins;
    }
    if nodes {
        return match class_filter_exec(q) {
            Err(m) => QueryPlan::BadSyntax(m),
            Ok(c) => QueryPlan::Nodes { class: c },
        };
    }
    match kind_filter_exec(q) {
        Err(m) => QueryPlan::BadSyntax(m),
        Ok(k) => QueryPlan::Edges { kind: k, from: endpoint_filter_exec(q, "from"), to: endpoint_filter_exec(q, "to") },
    }
}

/// Parse a read query (`SHOW NODES`, `SET PRIORITY 'V' = N`, ...).
#[verifier::rlimit(60)]
pub fn plan_query(q: &[u8]) -> (r: QueryPlan)
    ensures
        r == spec_plan_query(q@),
{
    let ql = q.len();
    let f = query_flags(q);
    let (nodes, edges, journal, plugins, stats, caps) = (f.nodes, f.edges, f.journal, f.plugins, f.stats, f.caps);
    let (setp, showp, resetp, setd, showd, invoke) = (f.setp, f.showp, f.resetp, f.setd, f.showd, f.invoke);
    if !(nodes || edges || journal || plugins || stats || caps || setp || showp || resetp || setd || showd || invoke) {
        return QueryPlan::NotQuery;
    }
    if stats {
        return QueryPlan::Stats;
    }
    if caps {
        return QueryPlan::Capabilities;
    }
    if setp {
        return plan_vector_verb(q, VectorVerb::SetPriority);
    }
    if showp {
        return plan_vector_verb(q, VectorVerb::ShowPriority);
    }
    if resetp {
        return plan_vector_verb(q, VectorVerb::ResetPriority);
    }
    if setd {
        return plan_vector_verb(q, VectorVerb::SetDeadline);
    }
    if showd {
        return plan_vector_verb(q, VectorVerb::ShowDeadline);
    }
    if invoke {
        return plan_vector_verb(q, VectorVerb::Invoke);
    }
    plan_listing(q, journal, plugins, nodes)
}


/// Bytes `str::trim` removes around ASCII text: space and `\t`..`\r`.
pub open spec fn is_trim(b: u8) -> bool {
    b == 0x20 || (0x09 <= b <= 0x0D)
}

/// Start of `t[s..e]` with leading trim bytes skipped.
pub open spec fn trim_start(t: Seq<u8>, s: int, e: int) -> int
    decreases e - s,
{
    if s >= e || !is_trim(t[s]) { s } else { trim_start(t, s + 1, e) }
}

/// End of `t[s..e]` with trailing trim bytes dropped.
pub open spec fn trim_end(t: Seq<u8>, s: int, e: int) -> int
    decreases e - s,
{
    if e <= s || !is_trim(t[e - 1]) { e } else { trim_end(t, s, e - 1) }
}

/// `t[s..e]` trimmed.
pub open spec fn trimmed(t: Seq<u8>, s: int, e: int) -> Seq<u8> {
    let a = trim_start(t, s, e);
    t.subrange(a, trim_end(t, a, e))
}

fn trim_range(t: &[u8], s: usize, e: usize) -> (r: (usize, usize))
    requires
        s <= e <= t@.len(),
    ensures
        r.0 == trim_start(t@, s as int, e as int),
        r.1 == trim_end(t@, r.0 as int, e as int),
        s <= r.0 <= r.1 <= e,
{
    let mut a = s;
    while a < e && (t[a] == 0x20 || (0x09 <= t[a] && t[a] <= 0x0D))
        invariant
            s <= a <= e <= t@.len(),
            trim_start(t@, s as int, e as int) == trim_start(t@, a as int, e as int),
        decreases e - a,
    {
        a = a + 1;
    }
    let mut b = e;
    while b > a && (t[b - 1] == 0x20 || (0x09 <= t[b - 1] && t[b - 1] <= 0x0D))
        invariant
            a <= b <= e <= t@.len(),
            trim_end(t@, a as int, e as int) == trim_end(t@, a as int, b as int),
        decreases b - a,
    {
        b = b - 1;
    }
    (a, b)
}

/// The `vector` property of a MATCH pattern, trimmed.
pub open spec fn vector_property(q: Seq<u8>) -> Option<Seq<u8>> {
    match quoted_value_from(q, "vector".spec_bytes(), 0) {
        None => None,
        Some(r) => Some(trimmed(q, r.0, r.1)),
    }
}

/// The node vector of a MATCH pattern (a value starting with `e:` names an
/// edge, not a node).
pub open spec fn node_vector_of(q: Seq<u8>) -> Option<VectorAddress> {
    match vector_property(q) {
        None => None,
        Some(lit) => if match_at(lit, seq![0x65u8, 0x3Au8], 0) { None } else { spec_parse_vector(lit) },
    }
}

/// The edge vector of a MATCH pattern (`e:` prefix optional).
pub open spec fn edge_vector_of(q: Seq<u8>) -> Option<VectorAddress> {
    match vector_property(q) {
        None => None,
        Some(lit) => spec_parse_vector(strip_edge_prefix(lit)),
    }
}

fn vector_property_exec(q: &[u8]) -> (r: Option<Vec<u8>>)
    ensures
        vector_property(q@) is None ==> r is None,
        vector_property(q@) matches Some(lit) ==> r matches Some(v) && v@ == lit,
{
    let ql = q.len();
    let key = "vector".as_bytes();
    match extract_quoted_value_ci(q, key) {
        None => None,
        Some((s, e)) => {
            proof {
                let x = quoted_value_from(q@, "vector".spec_bytes(), 0)->Some_0;
                assert(x.0 as usize == s && x.1 as usize == e);
                lemma_quoted_value_bounds(q@, "vector".spec_bytes(), 0);
            }
            let (a, b) = trim_range(q, s, e);
            Some(copy_range(q, a, b))
        },
    }
}

fn node_vector_exec(q: &[u8]) -> (r: Option<VectorAddress>)
    ensures
        r == node_vector_of(q@),
{
    let lit = match vector_property_exec(q) {
        None => return None,
        Some(l) => l,
    };
    let prefix: [u8; 2] = [0x65, 0x3A];
    assert(prefix@ =~= seq![0x65u8, 0x3Au8]);
    if starts_with_ci(lit.as_slice(), prefix.as_slice()) {
        return None;
    }
    VectorAddress::parse(lit.as_slice())
}

fn edge_vector_exec(q: &[u8]) -> (r: Option<VectorAddress>)
    ensures
        r == edge_vector_of(q@),
{
    let lit = match vector_property_exec(q) {
        None => return None,
        Some(l) => l,
    };
    let prefix: [u8; 2] = [0x65, 0x3A];
    assert(prefix@ =~= seq![0x65u8, 0x3Au8]);
    assert(lit@ =~= lit@.subrange(0, lit@.len() as int));
    if starts_with_ci(lit.as_slice(), prefix.as_slice()) {
        parse_vector_range(lit.as_slice(), 2, lit.len())
    } else {
        VectorAddress::parse(lit.as_slice())
    }
}

/// What the in-kernel `cypher>` shell does with a committed query.
#[derive(Debug, Clone, Copy, PartialEq, Eq)]
pub enum ConsolePlan {
    /// Empty query: print the help text.
    Help,
    /// A mutation verb (including `CREATE (n)`).
    Mutation(MutationPlan),
    /// Not a MATCH query: an error, then the help text.
    NotMatch,
    /// `CALL activate(n)` on the node vector, if the pattern has one.
    Activate(Option<VectorAddress>),
    /// `CALL spawn(n)`.
    Spawn(Option<VectorAddress>),
    /// `CALL route(e)` on the edge vector.
    Route(Option<VectorAddress>),
    /// `RETURN e` with an edge vector.
    EdgeDetail(VectorAddress),
    /// `RETURN e` with a node vector: that node's edges.
    EdgesForNode { node: VectorAddress, limit: usize },
    /// `RETURN e`: the edge list.
    EdgeList { limit: usize },
    /// `RETURN n` with a node vector.
    NodeDetail(VectorAddress),
    /// `RETURN n`: the node list.
    NodeList { limit: usize },
    /// A MATCH without a supported clause.
    Unsupported,
}

pub open spec fn spec_console_plan(query: Seq<u8>) -> ConsolePlan {
    let q = trimmed(query, 0, query.len() as int);
    if q.len() == 0 {
        ConsolePlan::Help
    } else if !(spec_plan_mutation(q, true) is NotCypher) {
        ConsolePlan::Mutation(spec_plan_mutation(q, true))
    } else if !starts(q, "match") {
        ConsolePlan::NotMatch
    } else if has(q, "call activate(n)") {
        ConsolePlan::Activate(node_vector_of(q))
    } else if has(q, "call spawn(n)") {
        ConsolePlan::Spawn(node_vector_of(q))
    } else if has(q, "call route(e)") {
        ConsolePlan::Route(edge_vector_of(q))
    } else if has(q, "create (") {
        ConsolePlan::Mutation(MutationPlan::CreateNode)
    } else if has(q, "return e") {
        match edge_vector_of(q) {
            Some(ev) => ConsolePlan::EdgeDetail(ev),
            None => match node_vector_of(q) {
                Some(nv) => ConsolePlan::EdgesForNode { node: nv, limit: spec_parse_limit(q) },
                None => ConsolePlan::EdgeList { limit: spec_parse_limit(q) },
            },
        }
    } else if has(q, "return n") {
        match node_vector_of(q) {
            Some(nv) => ConsolePlan::NodeDetail(nv),
            None => ConsolePlan::NodeList { limit: spec_parse_limit(q) },
        }
    } else {
        ConsolePlan::Unsupported
    }
}

/// Decide what the shell does with a committed query.
pub fn plan_console_query(query: &[u8]) -> (r: ConsolePlan)
    ensures
        r == spec_console_plan(query@),
{
    let (a, b) = trim_range(query, 0, query.len());
    let qv = copy_range(query, a, b);
    let q = qv.as_slice();
    if q.len() == 0 {
        return ConsolePlan::Help;
    }
    let m = plan_mutation(q, true);
    match m {
        MutationPlan::NotCypher => {},
        _ => return ConsolePlan::Mutation(m),
    }
    if !starts_exec(q, "match") {
        return ConsolePlan::NotMatch;
    }
    if has_exec(q, "call activate(n)") {
        return ConsolePlan::Activate(node_vector_exec(q));
    }
    if has_exec(q, "call spawn(n)") {
        return ConsolePlan::Spawn(node_vector_exec(q));
    }
    if has_exec(q, "call route(e)") {
        return ConsolePlan::Route(edge_vector_exec(q));
    }
    if has_exec(q, "create (") {
        return ConsolePlan::Mutation(MutationPlan::CreateNode);
    }
    if has_exec(q, "return e") {
        return match edge_vector_exec(q) {
            Some(ev) => ConsolePlan::EdgeDetail(ev),
            None => match node_vector_exec(q) {
                Some(nv) => ConsolePlan::EdgesForNode { node: nv, limit: parse_limit(q) },
                None => ConsolePlan::EdgeList { limit: parse_limit(q) },
            },
        };
    }
    if has_exec(q, "return n") {
        return match node_vector_exec(q) {
            Some(nv) => ConsolePlan::NodeDetail(nv),
            None => ConsolePlan::NodeList { limit: parse_limit(q) },
        };
    }
    ConsolePlan::Unsupported
}


/// What running a planned console query came to: the runtime step (if
/// any) succeeded, the runtime refused it or did not know the node or
/// edge, or a mutation settled with this outcome.
#[derive(Debug, Clone, Copy, PartialEq, Eq)]
pub enum QueryResult {
    Done,
    Failed,
    Mutation(CypherDispatchOutcome),
}

/// The shell's running totals: MATCH queries executed and faults seen.
#[derive(Debug, Clone, Copy, PartialEq, Eq, Structural)]
pub struct ShellCounters {
    pub executions: usize,
    pub faults: usize,
}

pub open spec fn bump(x: usize) -> usize {
    if x == usize::MAX { x } else { (x + 1) as usize }
}

/// Every MATCH query and every mutation counts as an execution; the help
/// text and queries that are neither do not.
pub open spec fn counts_execution(plan: ConsolePlan) -> bool {
    !(plan is Help || plan is NotMatch)
}

/// A fault: a query that is not MATCH, an unsupported MATCH clause, a
/// mutation that failed or was not applied, or a runtime step that failed (a
/// missing vector filter is reported but not counted, and listings cannot
/// fail).
pub open spec fn counts_fault(plan: ConsolePlan, res: QueryResult) -> bool {
    match plan {
        ConsolePlan::Help => false,
        ConsolePlan::NotMatch | ConsolePlan::Unsupported => true,
        ConsolePlan::Mutation(_) => res == QueryResult::Failed || (res matches QueryResult::Mutation(o) && !(o is Applied)),
        ConsolePlan::Activate(v) | ConsolePlan::Spawn(v) | ConsolePlan::Route(v) => v is Some && res == QueryResult::Failed,
        ConsolePlan::EdgeList { .. } | ConsolePlan::NodeList { .. } => false,
        _ => res == QueryResult::Failed,
    }
}

impl ShellCounters {
    pub fn new() -> (r: Self)
        ensures
            r.executions == 0 && r.faults == 0,
    {
        ShellCounters { executions: 0, faults: 0 }
    }

    /// Count one query run under `plan` that came to `res`; the totals
    /// saturate.
    pub fn record(&mut self, plan: &ConsolePlan, res: QueryResult)
        ensures
            final(self).executions == (if counts_execution(*plan) { bump(old(self).executions) } else { old(self).executions }),
            final(self).faults == (if counts_fault(*plan, res) { bump(old(self).faults) } else { old(self).faults }),
    {
        let exec = match plan {
            ConsolePlan::Help | ConsolePlan::NotMatch => false,
            _ => true,
        };
        let fault = match plan {
            ConsolePlan::Help => false,
            ConsolePlan::NotMatch | ConsolePlan::Unsupported => true,
            ConsolePlan::Mutation(_) => match res {
                QueryResult::Mutation(CypherDispatchOutcome::Applied(_)) => false,
                QueryResult::Mutation(_) => true,
                QueryResult::Failed => true,
                QueryResult::Done => false,
            },
            ConsolePlan::Activate(v) | ConsolePlan::Spawn(v) | ConsolePlan::Route(v) => v.is_some()
                && matches!(res, QueryResult::Failed),
            ConsolePlan::EdgeList { .. } | ConsolePlan::NodeList { .. } => false,
            _ => matches!(res, QueryResult::Failed),
        };
        if exec {
            self.executions = self.executions.saturating_add(1);
        }
        if fault {
            self.faults = self.faults.saturating_add(1);
        }
    }
}

} // verus!

verus! {

/// One piece of what the shell prints: a colour change (VGA attribute),
/// fixed text, a node vector `l4.l3.l2.offset`, an edge vector
/// `e:l4.l3.l2.offset`, or a decimal number.
#[derive(Debug, Clone, Copy, PartialEq, Eq)]
pub enum ConsoleSeg {
    Color(u8),
    Text(&'static str),
    Vector(VectorAddress),
    EdgeVector(VectorAddress),
    Number(u32),
}

/// The help listing.
pub open spec fn help_segs() -> Seq<ConsoleSeg> {
    seq![
        ConsoleSeg::Color(11), ConsoleSeg::Text("cypher> supported subset\n"), ConsoleSeg::Color(7),
        ConsoleSeg::Text("  MATCH (n) RETURN n [LIMIT 6]\n"),
        ConsoleSeg::Text("  MATCH (n {vector:'6.1.0.0'}) RETURN n\n"),
        ConsoleSeg::Text("  MATCH ()-[e]-() RETURN e [LIMIT 6]\n"),
        ConsoleSeg::Text("  MATCH (n {vector:'6.1.0.0'})-[e]-() RETURN e\n"),
        ConsoleSeg::Text("  MATCH ()-[e {vector:'e:6.1.0.0'}]-() RETURN e\n"),
        ConsoleSeg::Text("  MATCH (n {vector:'6.1.0.0'}) CALL activate(n)\n"),
        ConsoleSeg::Text("  MATCH (n {vector:'6.1.0.0'}) CALL spawn(n)\n"),
        ConsoleSeg::Text("  MATCH ()-[e {vector:'e:6.1.0.0'}]-() CALL route(e)\n"),
        ConsoleSeg::Color(11), ConsoleSeg::Text("cypher> mutations (audited via supervisor gate)\n"), ConsoleSeg::Color(7),
        ConsoleSeg::Text("  CREATE MOUNT 'V_from' -> 'V_to'\n"),
        ConsoleSeg::Text("  CREATE USE 'V_from' -> 'V_to'\n"),
        ConsoleSeg::Text("  LINK 'V_node' -> 'V_iface'\n"),
        ConsoleSeg::Text("  DELETE EDGE 'e:V'\n"),
        ConsoleSeg::Text("  REBIND USE 'V_from' -> 'V_to'\n"),
        ConsoleSeg::Text("  CREATE (n)\n")
    ]
}

/// The line for a `CALL` step on node `v`: green `ok` text on success,
/// red `fail` text when the runtime refused.
pub open spec fn call_segs(ok: &'static str, fail: &'static str, v: VectorAddress, res: QueryResult) -> Seq<ConsoleSeg> {
    match res {
        QueryResult::Done => seq![ConsoleSeg::Color(10), ConsoleSeg::Text(ok), ConsoleSeg::Vector(v),
            ConsoleSeg::Text("\n"), ConsoleSeg::Color(7)],
        QueryResult::Failed => seq![ConsoleSeg::Color(12), ConsoleSeg::Text(fail), ConsoleSeg::Vector(v),
            ConsoleSeg::Text("\n"), ConsoleSeg::Color(7)],
        QueryResult::Mutation(_) => Seq::empty(),
    }
}

/// How a refusal of the supervisor's gate reads.
pub open spec fn gate_error_segs(e: MutationError) -> Seq<ConsoleSeg> {
    match e {
        MutationError::UnsupportedMutation => seq![ConsoleSeg::Text("unsupported")],
        MutationError::UnknownEndpoint(_) => seq![ConsoleSeg::Text("unknown endpoint")],
        MutationError::InvalidMountTarget(_) => seq![ConsoleSeg::Text("invalid mount target")],
        MutationError::DispatcherRejected(tag) => seq![ConsoleSeg::Text("gate("), ConsoleSeg::Number(tag),
            ConsoleSeg::Text(")")],
    }
}

/// The verb a mutation plan reports under.
pub open spec fn mutation_label(p: MutationPlan) -> &'static str {
    match p {
        MutationPlan::DeleteEdge { .. } => "delete edge",
        MutationPlan::Connect { label, .. } => label,
        _ => "mutation",
    }
}

/// A red `cypher> msg` line.
pub open spec fn fail_segs(msg: &'static str) -> Seq<ConsoleSeg> {
    seq![ConsoleSeg::Color(12), ConsoleSeg::Text("cypher> "), ConsoleSeg::Text(msg), ConsoleSeg::Text("\n"),
        ConsoleSeg::Color(7)]
}

/// What a mutation prints once settled.
pub open spec fn mutation_segs(p: MutationPlan, res: QueryResult) -> Seq<ConsoleSeg> {
    match res {
        QueryResult::Mutation(o) => match o {
            CypherDispatchOutcome::Applied(l) => seq![ConsoleSeg::Color(10), ConsoleSeg::Text("cypher> "),
                ConsoleSeg::Text(l), ConsoleSeg::Text(" ok\n"), ConsoleSeg::Color(7)],
            CypherDispatchOutcome::BadSyntax(m) => fail_segs(m),
            CypherDispatchOutcome::EndpointNotFound(m) => fail_segs(m),
            CypherDispatchOutcome::DispatchFailed(e) => seq![ConsoleSeg::Color(12), ConsoleSeg::Text("cypher> "),
                ConsoleSeg::Text(mutation_label(p)), ConsoleSeg::Text(" rejected: ")] + gate_error_segs(e)
                + seq![ConsoleSeg::Text("\n"), ConsoleSeg::Color(7)],
            CypherDispatchOutcome::NotCypher => Seq::empty(),
        },
        QueryResult::Failed => if p is CreateNode {
            seq![ConsoleSeg::Color(12), ConsoleSeg::Text("cypher> create failed\n"), ConsoleSeg::Color(7)]
        } else {
            Seq::empty()
        },
        QueryResult::Done => Seq::empty(),
    }
}

/// What the shell prints for a query run under `plan` that came to `res`,
/// where that text is fixed by the plan and the outcome.  Steps whose text
/// is made of what the runtime answered (a created node's vector, a route's
/// edge type, node and edge details and listings) print nothing here: the
/// holder of the runtime prints those.
pub open spec fn spec_console_reply(plan: ConsolePlan, res: QueryResult) -> Seq<ConsoleSeg> {
    match plan {
        ConsolePlan::Help => help_segs(),
        ConsolePlan::NotMatch => seq![ConsoleSeg::Color(12),
            ConsoleSeg::Text("cypher> only MATCH-based queries are supported in v1\n"), ConsoleSeg::Color(7)]
            + help_segs(),
        ConsolePlan::Unsupported => seq![ConsoleSeg::Color(12), ConsoleSeg::Text("cypher> unsupported MATCH clause\n"),
            ConsoleSeg::Color(7)] + help_segs(),
        ConsolePlan::Activate(v) => match v {
            None => seq![ConsoleSeg::Color(12), ConsoleSeg::Text("cypher> activate requires node vector filter\n")],
            Some(v) => call_segs("cypher> activate ok ", "cypher> activate failed ", v, res),
        },
        ConsolePlan::Spawn(v) => match v {
            None => seq![ConsoleSeg::Color(12), ConsoleSeg::Text("cypher> spawn requires node vector filter\n")],
            Some(v) => call_segs("cypher> spawn ok ", "cypher> spawn failed ", v, res),
        },
        ConsolePlan::Route(v) => match v {
            None => seq![ConsoleSeg::Color(12), ConsoleSeg::Text("cypher> route requires edge vector filter\n")],
            Some(_) => Seq::empty(),
        },
        ConsolePlan::Mutation(p) => mutation_segs(p, res),
        _ => Seq::empty(),
    }
}

fn help_vec() -> (r: Vec<ConsoleSeg>)
    ensures
        r@ == help_segs(),
{
    let r = vec![
        ConsoleSeg::Color(11), ConsoleSeg::Text("cypher> supported subset\n"), ConsoleSeg::Color(7),
        ConsoleSeg::Text("  MATCH (n) RETURN n [LIMIT 6]\n"),
        ConsoleSeg::Text("  MATCH (n {vector:'6.1.0.0'}) RETURN n\n"),
        ConsoleSeg::Text("  MATCH ()-[e]-() RETURN e [LIMIT 6]\n"),
        ConsoleSeg::Text("  MATCH (n {vector:'6.1.0.0'})-[e]-() RETURN e\n"),
        ConsoleSeg::Text("  MATCH ()-[e {vector:'e:6.1.0.0'}]-() RETURN e\n"),
        ConsoleSeg::Text("  MATCH (n {vector:'6.1.0.0'}) CALL activate(n)\n"),
        ConsoleSeg::Text("  MATCH (n {vector:'6.1.0.0'}) CALL spawn(n)\n"),
        ConsoleSeg::Text("  MATCH ()-[e {vector:'e:6.1.0.0'}]-() CALL route(e)\n"),
        ConsoleSeg::Color(11), ConsoleSeg::Text("cypher> mutations (audited via supervisor gate)\n"), ConsoleSeg::Color(7),
        ConsoleSeg::Text("  CREATE MOUNT 'V_from' -> 'V_to'\n"),
        ConsoleSeg::Text("  CREATE USE 'V_from' -> 'V_to'\n"),
        ConsoleSeg::Text("  LINK 'V_node' -> 'V_iface'\n"),
        ConsoleSeg::Text("  DELETE EDGE 'e:V'\n"),
        ConsoleSeg::Text("  REBIND USE 'V_from' -> 'V_to'\n"),
        ConsoleSeg::Text("  CREATE (n)\n")
    ];
    assert(r@ =~= help_segs());
    r
}

fn call_vec(ok: &'static str, fail: &'static str, v: VectorAddress, res: QueryResult) -> (r: Vec<ConsoleSeg>)
    ensures
        r@ == call_segs(ok, fail, v, res),
{
    match res {
        QueryResult::Done => {
            let r = vec![ConsoleSeg::Color(10), ConsoleSeg::Text(ok), ConsoleSeg::Vector(v),
                ConsoleSeg::Text("\n"), ConsoleSeg::Color(7)];
            assert(r@ =~= call_segs(ok, fail, v, res));
            r
        },
        QueryResult::Failed => {
            let r = vec![ConsoleSeg::Color(12), ConsoleSeg::Text(fail), ConsoleSeg::Vector(v),
                ConsoleSeg::Text("\n"), ConsoleSeg::Color(7)];
            assert(r@ =~= call_segs(ok, fail, v, res));
            r
        },
        QueryResult::Mutation(_) => Vec::new(),
    }
}

fn fail_vec(msg: &'static str) -> (r: Vec<ConsoleSeg>)
    ensures
        r@ == fail_segs(msg),
{
    let r = vec![ConsoleSeg::Color(12), ConsoleSeg::Text("cypher> "), ConsoleSeg::Text(msg), ConsoleSeg::Text("\n"),
        ConsoleSeg::Color(7)];
    assert(r@ =~= fail_segs(msg));
    r
}

fn mutation_vec(p: MutationPlan, res: QueryResult) -> (r: Vec<ConsoleSeg>)
    ensures
        r@ == mutation_segs(p, res),
{
    match res {
        QueryResult::Mutation(o) => match o {
            CypherDispatchOutcome::Applied(l) => {
                let r = vec![ConsoleSeg::Color(10), ConsoleSeg::Text("cypher> "), ConsoleSeg::Text(l),
                    ConsoleSeg::Text(" ok\n"), ConsoleSeg::Color(7)];
                assert(r@ =~= mutation_segs(p, res));
                r
            },
            CypherDispatchOutcome::BadSyntax(m) => fail_vec(m),
            CypherDispatchOutcome::EndpointNotFound(m) => fail_vec(m),
            CypherDispatchOutcome::DispatchFailed(e) => {
                let label: &'static str = match p {
                    MutationPlan::DeleteEdge { .. } => "delete edge",
                    MutationPlan::Connect { label, .. } => label,
                    _ => "mutation",
                };
                let mut r = vec![ConsoleSeg::Color(12), ConsoleSeg::Text("cypher> "), ConsoleSeg::Text(label),
                    ConsoleSeg::Text(" rejected: ")];
                let mut tail = match e {
                    MutationError::UnsupportedMutation => vec![ConsoleSeg::Text("unsupported")],
                    MutationError::UnknownEndpoint(_) => vec![ConsoleSeg::Text("unknown endpoint")],
                    MutationError::InvalidMountTarget(_) => vec![ConsoleSeg::Text("invalid mount target")],
                    MutationError::DispatcherRejected(tag) => vec![ConsoleSeg::Text("gate("), ConsoleSeg::Number(tag),
                        ConsoleSeg::Text(")")],
                };
                assert(tail@ =~= gate_error_segs(e));
                let ghost head = r@;
                let ghost mid = tail@;
                r.append(&mut tail);
                r.push(ConsoleSeg::Text("\n"));
                r.push(ConsoleSeg::Color(7));
                assert(r@ =~= head + mid + seq![ConsoleSeg::Text("\n"), ConsoleSeg::Color(7)]);
                r
            },
            CypherDispatchOutcome::NotCypher => Vec::new(),
        },
        QueryResult::Failed => {
            if let MutationPlan::CreateNode = p {
                let r = vec![ConsoleSeg::Color(12), ConsoleSeg::Text("cypher> create failed\n"), ConsoleSeg::Color(7)];
                assert(r@ =~= mutation_segs(p, res));
                r
            } else {
                Vec::new()
            }
        },
        QueryResult::Done => Vec::new(),
    }
}

/// What the shell prints for a query run under `plan` that came to `res`
/// (see `spec_console_reply`); the caller renders the pieces in order.
pub fn console_reply(plan: &ConsolePlan, res: QueryResult) -> (r: Vec<ConsoleSeg>)
    ensures
        r@ == spec_console_reply(*plan, res),
{
    match plan {
        ConsolePlan::Help => help_vec(),
        ConsolePlan::NotMatch => {
            let mut r = vec![ConsoleSeg::Color(12),
                ConsoleSeg::Text("cypher> only MATCH-based queries are supported in v1\n"), ConsoleSeg::Color(7)];
            let mut h = help_vec();
            r.append(&mut h);
            assert(r@ =~= spec_console_reply(*plan, res));
            r
        },
        ConsolePlan::Unsupported => {
            let mut r = vec![ConsoleSeg::Color(12), ConsoleSeg::Text("cypher> unsupported MATCH clause\n"),
                ConsoleSeg::Color(7)];
            let mut h = help_vec();
            r.append(&mut h);
            assert(r@ =~= spec_console_reply(*plan, res));
            r
        },
        ConsolePlan::Activate(v) => match v {
            None => {
                let r = vec![ConsoleSeg::Color(12), ConsoleSeg::Text("cypher> activate requires node vector filter\n")];
                assert(r@ =~= spec_console_reply(*plan, res));
                r
            },
            Some(v) => call_vec("cypher> activate ok ", "cypher> activate failed ", *v, res),
        },
        ConsolePlan::Spawn(v) => match v {
            None => {
                let r = vec![ConsoleSeg::Color(12), ConsoleSeg::Text("cypher> spawn requires node vector filter\n")];
                assert(r@ =~= spec_console_reply(*plan, res));
                r
            },
            Some(v) => call_vec("cypher> spawn ok ", "cypher> spawn failed ", *v, res),
        },
        ConsolePlan::Route(v) => match v {
            None => {
                let r = vec![ConsoleSeg::Color(12), ConsoleSeg::Text("cypher> route requires edge vector filter\n")];
                assert(r@ =~= spec_console_reply(*plan, res));
                r
            },
            Some(_) => Vec::new(),
        },
        ConsolePlan::Mutation(p) => mutation_vec(*p, res),
        _ => Vec::new(),
    }
}

} // verus!

verus! {

/// The edge operation each verb of the statement names.
pub open spec fn verb_kind(label: &'static str) -> Option<EdgeMutationKind> {
    if label == "create mount" {
        Some(EdgeMutationKind::Mount)
    } else if label == "create use" {
        Some(EdgeMutationKind::Use)
    } else if label == "link" {
        Some(EdgeMutationKind::Link)
    } else if label == "rebind use" {
        Some(EdgeMutationKind::Rebind)
    } else {
        None
    }
}

proof fn lemma_verb_labels_differ()
    ensures
        verb_kind("create mount") == Some(EdgeMutationKind::Mount),
        verb_kind("create use") == Some(EdgeMutationKind::Use),
        verb_kind("link") == Some(EdgeMutationKind::Link),
        verb_kind("rebind use") == Some(EdgeMutationKind::Rebind),
{
    broadcast use vstd::string::group_string_axioms;
    reveal_strlit("create mount");
    reveal_strlit("create use");
    reveal_strlit("link");
    reveal_strlit("rebind use");
    assert("create use"@.len() == 10 && "create mount"@.len() == 12 && "link"@.len() == 4);
    assert("create use"@ != "create mount"@);
    assert("link"@ != "create mount"@ && "link"@ != "create use"@);
    assert("rebind use"@.len() == 10 && "rebind use"@[0] == 'r' && "create use"@[0] == 'c');
    assert("rebind use"@ != "create mount"@ && "rebind use"@ != "create use"@ && "rebind use"@ != "link"@);
}

/// A planned connection always carries the edge operation its verb names:
/// a mount for CREATE MOUNT, a use edge for CREATE USE, a link for LINK and
/// a rebind of the use edge for REBIND USE.
pub proof fn lemma_connect_kind_follows_verb(q: Seq<u8>, create_node: bool)
    ensures
        spec_plan_mutation(q, create_node) matches MutationPlan::Connect { label, kind, .. }
            ==> verb_kind(label) == Some(kind),
{
    lemma_verb_labels_differ();
}

/// Two well-formed vector literals, no DELETE EDGE and no node creation:
/// the statement names a connection between `from` and `to`.
pub open spec fn connects(q: Seq<u8>, create_node: bool, from: VectorAddress, to: VectorAddress) -> bool {
    &&& has(q, "delete edge") == false
    &&& create_node ==> has(q, "create (") == false
    &&& quoted_arg(q, 0) matches Some(lf) && spec_parse_vector(lf) == Some(from)
    &&& quoted_arg(q, 1) matches Some(lt) && spec_parse_vector(lt) == Some(to)
}

/// CREATE MOUNT, wherever it stands, plans a mount between the two
/// vectors.
pub proof fn lemma_create_mount_plans_mount(q: Seq<u8>, create_node: bool, from: VectorAddress, to: VectorAddress)
    requires
        has(q, "create mount"),
        connects(q, create_node, from, to),
    ensures
        spec_plan_mutation(q, create_node) == (MutationPlan::Connect {
            label: "create mount", kind: EdgeMutationKind::Mount, from, to }),
{
}

/// CREATE USE (without CREATE MOUNT) plans a use edge between the two
/// vectors.
pub proof fn lemma_create_use_plans_use(q: Seq<u8>, create_node: bool, from: VectorAddress, to: VectorAddress)
    requires
        has(q, "create use"),
        has(q, "create mount") == false,
        connects(q, create_node, from, to),
    ensures
        spec_plan_mutation(q, create_node) == (MutationPlan::Connect {
            label: "create use", kind: EdgeMutationKind::Use, from, to }),
{
}

/// A statement opening with LINK (and no CREATE verb) plans a link between
/// the two vectors.
pub proof fn lemma_link_plans_link(q: Seq<u8>, create_node: bool, from: VectorAddress, to: VectorAddress)
    requires
        starts(q, "link ") || starts(q, "link\t"),
        has(q, "create mount") == false,
        has(q, "create use") == false,
        connects(q, create_node, from, to),
    ensures
        spec_plan_mutation(q, create_node) == (MutationPlan::Connect {
            label: "link", kind: EdgeMutationKind::Link, from, to }),
{
}

/// A statement whose only verb is REBIND USE, with two well-formed vector
/// literals, plans a rebind of the use edge between them.
pub proof fn lemma_rebind_use_plans_rebind(q: Seq<u8>, create_node: bool, from: VectorAddress, to: VectorAddress)
    requires
        has(q, "rebind use"),
        has(q, "create mount") == false,
        has(q, "create use") == false,
        !starts(q, "link ") && !starts(q, "link\t"),
        has(q, "delete edge") == false,
        create_node ==> has(q, "create (") == false,
        quoted_arg(q, 0) matches Some(lf) && spec_parse_vector(lf) == Some(from),
        quoted_arg(q, 1) matches Some(lt) && spec_parse_vector(lt) == Some(to),
    ensures
        spec_plan_mutation(q, create_node) == (MutationPlan::Connect {
            label: "rebind use", kind: EdgeMutationKind::Rebind, from, to }),
{
}

} // verus!

verus! {

/// `q` starts with the (lower-case) word `w`, ignoring the case of `q`.
pub open spec fn begins_with_folded(q: Seq<u8>, w: Seq<u8>) -> bool {
    w.len() <= q.len() && forall|i: int| 0 <= i < w.len() ==> lower(#[trigger] q[i]) == w[i]
}

/// The edge listing a query asks for: its kind filter (or the filter's
/// syntax error) and its endpoint filters.
pub open spec fn edge_listing(q: Seq<u8>) -> QueryPlan {
    match spec_kind_filter(q) {
        Err(m) => QueryPlan::BadSyntax(m),
        Ok(k) => QueryPlan::Edges { kind: k, from: spec_endpoint_filter(q, "from"), to: spec_endpoint_filter(q, "to") },
    }
}

proof fn lemma_not_starting(q: Seq<u8>, w: Seq<u8>, lit: Seq<u8>, i: int)
    requires
        begins_with_folded(q, w),
        0 <= i < w.len(),
        i < lit.len(),
        lower(lit[i]) != w[i],
    ensures
        !match_at(q, lit, 0),
{
    assert(lower(q[i]) == w[i]);
    if match_at(q, lit, 0) {
        assert(lower(q[0 + i]) == lower(lit[i]));
    }
}

proof fn lemma_starting(q: Seq<u8>, w: Seq<u8>, lit: Seq<u8>)
    requires
        begins_with_folded(q, w),
        lit.len() == w.len(),
        forall|i: int| 0 <= i < lit.len() ==> lower(#[trigger] lit[i]) == w[i],
    ensures
        match_at(q, lit, 0),
{
    assert forall|i: int| 0 <= i < lit.len() implies lower(#[trigger] q[0 + i]) == lower(lit[i]) by {
        assert(lower(q[i]) == w[i]);
        assert(lower(w[i]) == w[i]);
    }
}

proof fn lemma_read_verbs()
    ensures
        "show nodes".spec_bytes() == seq![0x73u8, 0x68u8, 0x6fu8, 0x77u8, 0x20u8, 0x6eu8, 0x6fu8, 0x64u8, 0x65u8, 0x73u8],
        "match nodes".spec_bytes() == seq![0x6du8, 0x61u8, 0x74u8, 0x63u8, 0x68u8, 0x20u8, 0x6eu8, 0x6fu8, 0x64u8, 0x65u8, 0x73u8],
        "show edges".spec_bytes() == seq![0x73u8, 0x68u8, 0x6fu8, 0x77u8, 0x20u8, 0x65u8, 0x64u8, 0x67u8, 0x65u8, 0x73u8],
        "match edges".spec_bytes() == seq![0x6du8, 0x61u8, 0x74u8, 0x63u8, 0x68u8, 0x20u8, 0x65u8, 0x64u8, 0x67u8, 0x65u8, 0x73u8],
        "show journal".spec_bytes() == seq![0x73u8, 0x68u8, 0x6fu8, 0x77u8, 0x20u8, 0x6au8, 0x6fu8, 0x75u8, 0x72u8, 0x6eu8, 0x61u8, 0x6cu8],
        "match journal".spec_bytes() == seq![0x6du8, 0x61u8, 0x74u8, 0x63u8, 0x68u8, 0x20u8, 0x6au8, 0x6fu8, 0x75u8, 0x72u8, 0x6eu8, 0x61u8, 0x6cu8],
        "show plugins".spec_bytes() == seq![0x73u8, 0x68u8, 0x6fu8, 0x77u8, 0x20u8, 0x70u8, 0x6cu8, 0x75u8, 0x67u8, 0x69u8, 0x6eu8, 0x73u8],
        "match plugins".spec_bytes() == seq![0x6du8, 0x61u8, 0x74u8, 0x63u8, 0x68u8, 0x20u8, 0x70u8, 0x6cu8, 0x75u8, 0x67u8, 0x69u8, 0x6eu8, 0x73u8],
        "show stats".spec_bytes() == seq![0x73u8, 0x68u8, 0x6fu8, 0x77u8, 0x20u8, 0x73u8, 0x74u8, 0x61u8, 0x74u8, 0x73u8],
        "stats".spec_bytes() == seq![0x73u8, 0x74u8, 0x61u8, 0x74u8, 0x73u8],
        "show capabilities".spec_bytes() == seq![0x73u8, 0x68u8, 0x6fu8, 0x77u8, 0x20u8, 0x63u8, 0x61u8, 0x70u8, 0x61u8, 0x62u8, 0x69u8, 0x6cu8, 0x69u8, 0x74u8, 0x69u8, 0x65u8, 0x73u8],
        "show caps".spec_bytes() == seq![0x73u8, 0x68u8, 0x6fu8, 0x77u8, 0x20u8, 0x63u8, 0x61u8, 0x70u8, 0x73u8],
        "set priority".spec_bytes() == seq![0x73u8, 0x65u8, 0x74u8, 0x20u8, 0x70u8, 0x72u8, 0x69u8, 0x6fu8, 0x72u8, 0x69u8, 0x74u8, 0x79u8],
        "show priority".spec_bytes() == seq![0x73u8, 0x68u8, 0x6fu8, 0x77u8, 0x20u8, 0x70u8, 0x72u8, 0x69u8, 0x6fu8, 0x72u8, 0x69u8, 0x74u8, 0x79u8],
        "reset priority".spec_bytes() == seq![0x72u8, 0x65u8, 0x73u8, 0x65u8, 0x74u8, 0x20u8, 0x70u8, 0x72u8, 0x69u8, 0x6fu8, 0x72u8, 0x69u8, 0x74u8, 0x79u8],
        "set deadline".spec_bytes() == seq![0x73u8, 0x65u8, 0x74u8, 0x20u8, 0x64u8, 0x65u8, 0x61u8, 0x64u8, 0x6cu8, 0x69u8, 0x6eu8, 0x65u8],
        "show deadline".spec_bytes() == seq![0x73u8, 0x68u8, 0x6fu8, 0x77u8, 0x20u8, 0x64u8, 0x65u8, 0x61u8, 0x64u8, 0x6cu8, 0x69u8, 0x6eu8, 0x65u8],
        "invoke ".spec_bytes() == seq![0x69u8, 0x6eu8, 0x76u8, 0x6fu8, 0x6bu8, 0x65u8, 0x20u8],
        "invoke\t".spec_bytes() == seq![0x69u8, 0x6eu8, 0x76u8, 0x6fu8, 0x6bu8, 0x65u8, 0x09u8],
{
    broadcast use vstd::string::group_string_axioms;
    reveal_strlit("show nodes");
    assert(vstd::string::is_ascii("show nodes"));
    assert("show nodes".spec_bytes() =~= seq![0x73u8, 0x68u8, 0x6fu8, 0x77u8, 0x20u8, 0x6eu8, 0x6fu8, 0x64u8, 0x65u8, 0x73u8]);
    reveal_strlit("match nodes");
    assert(vstd::string::is_ascii("match nodes"));
    assert("match nodes".spec_bytes() =~= seq![0x6du8, 0x61u8, 0x74u8, 0x63u8, 0x68u8, 0x20u8, 0x6eu8, 0x6fu8, 0x64u8, 0x65u8, 0x73u8]);
    reveal_strlit("show edges");
    assert(vstd::string::is_ascii("show edges"));
    assert("show edges".spec_bytes() =~= seq![0x73u8, 0x68u8, 0x6fu8, 0x77u8, 0x20u8, 0x65u8, 0x64u8, 0x67u8, 0x65u8, 0x73u8]);
    reveal_strlit("match edges");
    assert(vstd::string::is_ascii("match edges"));
    assert("match edges".spec_bytes() =~= seq![0x6du8, 0x61u8, 0x74u8, 0x63u8, 0x68u8, 0x20u8, 0x65u8, 0x64u8, 0x67u8, 0x65u8, 0x73u8]);
    reveal_strlit("show journal");
    assert(vstd::string::is_ascii("show journal"));
    assert("show journal".spec_bytes() =~= seq![0x73u8, 0x68u8, 0x6fu8, 0x77u8, 0x20u8, 0x6au8, 0x6fu8, 0x75u8, 0x72u8, 0x6eu8, 0x61u8, 0x6cu8]);
    reveal_strlit("match journal");
    assert(vstd::string::is_ascii("match journal"));
    assert("match journal".spec_bytes() =~= seq![0x6du8, 0x61u8, 0x74u8, 0x63u8, 0x68u8, 0x20u8, 0x6au8, 0x6fu8, 0x75u8, 0x72u8, 0x6eu8, 0x61u8, 0x6cu8]);
    reveal_strlit("show plugins");
    assert(vstd::string::is_ascii("show plugins"));
    assert("show plugins".spec_bytes() =~= seq![0x73u8, 0x68u8, 0x6fu8, 0x77u8, 0x20u8, 0x70u8, 0x6cu8, 0x75u8, 0x67u8, 0x69u8, 0x6eu8, 0x73u8]);
    reveal_strlit("match plugins");
    assert(vstd::string::is_ascii("match plugins"));
    assert("match plugins".spec_bytes() =~= seq![0x6du8, 0x61u8, 0x74u8, 0x63u8, 0x68u8, 0x20u8, 0x70u8, 0x6cu8, 0x75u8, 0x67u8, 0x69u8, 0x6eu8, 0x73u8]);
    reveal_strlit("show stats");
    assert(vstd::string::is_ascii("show stats"));
    assert("show stats".spec_bytes() =~= seq![0x73u8, 0x68u8, 0x6fu8, 0x77u8, 0x20u8, 0x73u8, 0x74u8, 0x61u8, 0x74u8, 0x73u8]);
    reveal_strlit("stats");
    assert(vstd::string::is_ascii("stats"));
    assert("stats".spec_bytes() =~= seq![0x73u8, 0x74u8, 0x61u8, 0x74u8, 0x73u8]);
    reveal_strlit("show capabilities");
    assert(vstd::string::is_ascii("show capabilities"));
    assert("show capabilities".spec_bytes() =~= seq![0x73u8, 0x68u8, 0x6fu8, 0x77u8, 0x20u8, 0x63u8, 0x61u8, 0x70u8, 0x61u8, 0x62u8, 0x69u8, 0x6cu8, 0x69u8, 0x74u8, 0x69u8, 0x65u8, 0x73u8]);
    reveal_strlit("show caps");
    assert(vstd::string::is_ascii("show caps"));
    assert("show caps".spec_bytes() =~= seq![0x73u8, 0x68u8, 0x6fu8, 0x77u8, 0x20u8, 0x63u8, 0x61u8, 0x70u8, 0x73u8]);
    reveal_strlit("set priority");
    assert(vstd::string::is_ascii("set priority"));
    assert("set priority".spec_bytes() =~= seq![0x73u8, 0x65u8, 0x74u8, 0x20u8, 0x70u8, 0x72u8, 0x69u8, 0x6fu8, 0x72u8, 0x69u8, 0x74u8, 0x79u8]);
    reveal_strlit("show priority");
    assert(vstd::string::is_ascii("show priority"));
    assert("show priority".spec_bytes() =~= seq![0x73u8, 0x68u8, 0x6fu8, 0x77u8, 0x20u8, 0x70u8, 0x72u8, 0x69u8, 0x6fu8, 0x72u8, 0x69u8, 0x74u8, 0x79u8]);
    reveal_strlit("reset priority");
    assert(vstd::string::is_ascii("reset priority"));
    assert("reset priority".spec_bytes() =~= seq![0x72u8, 0x65u8, 0x73u8, 0x65u8, 0x74u8, 0x20u8, 0x70u8, 0x72u8, 0x69u8, 0x6fu8, 0x72u8, 0x69u8, 0x74u8, 0x79u8]);
    reveal_strlit("set deadline");
    assert(vstd::string::is_ascii("set deadline"));
    assert("set deadline".spec_bytes() =~= seq![0x73u8, 0x65u8, 0x74u8, 0x20u8, 0x64u8, 0x65u8, 0x61u8, 0x64u8, 0x6cu8, 0x69u8, 0x6eu8, 0x65u8]);
    reveal_strlit("show deadline");
    assert(vstd::string::is_ascii("show deadline"));
    assert("show deadline".spec_bytes() =~= seq![0x73u8, 0x68u8, 0x6fu8, 0x77u8, 0x20u8, 0x64u8, 0x65u8, 0x61u8, 0x64u8, 0x6cu8, 0x69u8, 0x6eu8, 0x65u8]);
    reveal_strlit("invoke ");
    assert(vstd::string::is_ascii("invoke "));
    assert("invoke ".spec_bytes() =~= seq![0x69u8, 0x6eu8, 0x76u8, 0x6fu8, 0x6bu8, 0x65u8, 0x20u8]);
    reveal_strlit("invoke\t");
    assert(vstd::string::is_ascii("invoke\t"));
    assert("invoke\t".spec_bytes() =~= seq![0x69u8, 0x6eu8, 0x76u8, 0x6fu8, 0x6bu8, 0x65u8, 0x09u8]);
}

/// Only the edges verb is set in a query beginning with "match edges".
#[verifier::rlimit(80)]
proof fn lemma_flags_match_edges(q: Seq<u8>)
    requires
        begins_with_folded(q, seq![0x6du8, 0x61u8, 0x74u8, 0x63u8, 0x68u8, 0x20u8, 0x65u8, 0x64u8, 0x67u8, 0x65u8, 0x73u8]),
    ensures
        spec_query_flags(q) == (QueryFlags { nodes: false, edges: true, journal: false, plugins: false, stats: false, caps: false, setp: false, showp: false, resetp: false, setd: false, showd: false, invoke: false }),
{
    lemma_read_verbs();
    let w = seq![0x6du8, 0x61u8, 0x74u8, 0x63u8, 0x68u8, 0x20u8, 0x65u8, 0x64u8, 0x67u8, 0x65u8, 0x73u8];
    lemma_not_starting(q, w, "show nodes".spec_bytes(), 0);
    lemma_not_starting(q, w, "match nodes".spec_bytes(), 6);
    lemma_starting(q, w, "match edges".spec_bytes());
    lemma_not_starting(q, w, "show journal".spec_bytes(), 0);
    lemma_not_starting(q, w, "match journal".spec_bytes(), 6);
    lemma_not_starting(q, w, "show plugins".spec_bytes(), 0);
    lemma_not_starting(q, w, "match plugins".spec_bytes(), 6);
    lemma_not_starting(q, w, "show stats".spec_bytes(), 0);
    lemma_not_starting(q, w, "stats".spec_bytes(), 0);
    lemma_not_starting(q, w, "show capabilities".spec_bytes(), 0);
    lemma_not_starting(q, w, "show caps".spec_bytes(), 0);
    lemma_not_starting(q, w, "set priority".spec_bytes(), 0);
    lemma_not_starting(q, w, "show priority".spec_bytes(), 0);
    lemma_not_starting(q, w, "reset priority".spec_bytes(), 0);
    lemma_not_starting(q, w, "set deadline".spec_bytes(), 0);
    lemma_not_starting(q, w, "show deadline".spec_bytes(), 0);
    lemma_not_starting(q, w, "invoke ".spec_bytes(), 0);
    lemma_not_starting(q, w, "invoke\t".spec_bytes(), 0);
}

/// Only the edges verb is set in a query beginning with "show edges".
#[verifier::rlimit(80)]
proof fn lemma_flags_show_edges(q: Seq<u8>)
    requires
        begins_with_folded(q, seq![0x73u8, 0x68u8, 0x6fu8, 0x77u8, 0x20u8, 0x65u8, 0x64u8, 0x67u8, 0x65u8, 0x73u8]),
    ensures
        spec_query_flags(q) == (QueryFlags { nodes: false, edges: true, journal: false, plugins: false, stats: false, caps: false, setp: false, showp: false, resetp: false, setd: false, showd: false, invoke: false }),
{
    lemma_read_verbs();
    let w = seq![0x73u8, 0x68u8, 0x6fu8, 0x77u8, 0x20u8, 0x65u8, 0x64u8, 0x67u8, 0x65u8, 0x73u8];
    lemma_not_starting(q, w, "show nodes".spec_bytes(), 5);
    lemma_not_starting(q, w, "match nodes".spec_bytes(), 0);
    lemma_starting(q, w, "show edges".spec_bytes());
    lemma_not_starting(q, w, "show journal".spec_bytes(), 5);
    lemma_not_starting(q, w, "match journal".spec_bytes(), 0);
    lemma_not_starting(q, w, "show plugins".spec_bytes(), 5);
    lemma_not_starting(q, w, "match plugins".spec_bytes(), 0);
    lemma_not_starting(q, w, "show stats".spec_bytes(), 5);
    lemma_not_starting(q, w, "stats".spec_bytes(), 1);
    lemma_not_starting(q, w, "show capabilities".spec_bytes(), 5);
    lemma_not_starting(q, w, "show caps".spec_bytes(), 5);
    lemma_not_starting(q, w, "set priority".spec_bytes(), 1);
    lemma_not_starting(q, w, "show priority".spec_bytes(), 5);
    lemma_not_starting(q, w, "reset priority".spec_bytes(), 0);
    lemma_not_starting(q, w, "set deadline".spec_bytes(), 1);
    lemma_not_starting(q, w, "show deadline".spec_bytes(), 5);
    lemma_not_starting(q, w, "invoke ".spec_bytes(), 0);
    lemma_not_starting(q, w, "invoke\t".spec_bytes(), 0);
}

/// Only the nodes verb is set in a query beginning with "match nodes".
#[verifier::rlimit(80)]
proof fn lemma_flags_match_nodes(q: Seq<u8>)
    requires
        begins_with_folded(q, seq![0x6du8, 0x61u8, 0x74u8, 0x63u8, 0x68u8, 0x20u8, 0x6eu8, 0x6fu8, 0x64u8, 0x65u8, 0x73u8]),
    ensures
        spec_query_flags(q) == (QueryFlags { nodes: true, edges: false, journal: false, plugins: false, stats: false, caps: false, setp: false, showp: false, resetp: false, setd: false, showd: false, invoke: false }),
{
    lemma_read_verbs();
    let w = seq![0x6du8, 0x61u8, 0x74u8, 0x63u8, 0x68u8, 0x20u8, 0x6eu8, 0x6fu8, 0x64u8, 0x65u8, 0x73u8];
    lemma_starting(q, w, "match nodes".spec_bytes());
    lemma_not_starting(q, w, "show edges".spec_bytes(), 0);
    lemma_not_starting(q, w, "match edges".spec_bytes(), 6);
    lemma_not_starting(q, w, "show journal".spec_bytes(), 0);
    lemma_not_starting(q, w, "match journal".spec_bytes(), 6);
    lemma_not_starting(q, w, "show plugins".spec_bytes(), 0);
    lemma_not_starting(q, w, "match plugins".spec_bytes(), 6);
    lemma_not_starting(q, w, "show stats".spec_bytes(), 0);
    lemma_not_starting(q, w, "stats".spec_bytes(), 0);
    lemma_not_starting(q, w, "show capabilities".spec_bytes(), 0);
    lemma_not_starting(q, w, "show caps".spec_bytes(), 0);
    lemma_not_starting(q, w, "set priority".spec_bytes(), 0);
    lemma_not_starting(q, w, "show priority".spec_bytes(), 0);
    lemma_not_starting(q, w, "reset priority".spec_bytes(), 0);
    lemma_not_starting(q, w, "set deadline".spec_bytes(), 0);
    lemma_not_starting(q, w, "show deadline".spec_bytes(), 0);
    lemma_not_starting(q, w, "invoke ".spec_bytes(), 0);
    lemma_not_starting(q, w, "invoke\t".spec_bytes(), 0);
}

/// Only the nodes verb is set in a query beginning with "show nodes".
#[verifier::rlimit(80)]
proof fn lemma_flags_show_nodes(q: Seq<u8>)
    requires
        begins_with_folded(q, seq![0x73u8, 0x68u8, 0x6fu8, 0x77u8, 0x20u8, 0x6eu8, 0x6fu8, 0x64u8, 0x65u8, 0x73u8]),
    ensures
        spec_query_flags(q) == (QueryFlags { nodes: true, edges: false, journal: false, plugins: false, stats: false, caps: false, setp: false, showp: false, resetp: false, setd: false, showd: false, invoke: false }),
{
    lemma_read_verbs();
    let w = seq![0x73u8, 0x68u8, 0x6fu8, 0x77u8, 0x20u8, 0x6eu8, 0x6fu8, 0x64u8, 0x65u8, 0x73u8];
    lemma_starting(q, w, "show nodes".spec_bytes());
    lemma_not_starting(q, w, "show edges".spec_bytes(), 5);
    lemma_not_starting(q, w, "match edges".spec_bytes(), 0);
    lemma_not_starting(q, w, "show journal".spec_bytes(), 5);
    lemma_not_starting(q, w, "match journal".spec_bytes(), 0);
    lemma_not_starting(q, w, "show plugins".spec_bytes(), 5);
    lemma_not_starting(q, w, "match plugins".spec_bytes(), 0);
    lemma_not_starting(q, w, "show stats".spec_bytes(), 5);
    lemma_not_starting(q, w, "stats".spec_bytes(), 1);
    lemma_not_starting(q, w, "show capabilities".spec_bytes(), 5);
    lemma_not_starting(q, w, "show caps".spec_bytes(), 5);
    lemma_not_starting(q, w, "set priority".spec_bytes(), 1);
    lemma_not_starting(q, w, "show priority".spec_bytes(), 5);
    lemma_not_starting(q, w, "reset priority".spec_bytes(), 0);
    lemma_not_starting(q, w, "set deadline".spec_bytes(), 1);
    lemma_not_starting(q, w, "show deadline".spec_bytes(), 5);
    lemma_not_starting(q, w, "invoke ".spec_bytes(), 0);
    lemma_not_starting(q, w, "invoke\t".spec_bytes(), 0);
}

/// Only the journal verb is set in a query beginning with "match journal".
#[verifier::rlimit(80)]
proof fn lemma_flags_match_journal(q: Seq<u8>)
    requires
        begins_with_folded(q, seq![0x6du8, 0x61u8, 0x74u8, 0x63u8, 0x68u8, 0x20u8, 0x6au8, 0x6fu8, 0x75u8, 0x72u8, 0x6eu8, 0x61u8, 0x6cu8]),
    ensures
        spec_query_flags(q) == (QueryFlags { nodes: false, edges: false, journal: true, plugins: false, stats: false, caps: false, setp: false, showp: false, resetp: false, setd: false, showd: false, invoke: false }),
{
    lemma_read_verbs();
    let w = seq![0x6du8, 0x61u8, 0x74u8, 0x63u8, 0x68u8, 0x20u8, 0x6au8, 0x6fu8, 0x75u8, 0x72u8, 0x6eu8, 0x61u8, 0x6cu8];
    lemma_not_starting(q, w, "show nodes".spec_bytes(), 0);
    lemma_not_starting(q, w, "match nodes".spec_bytes(), 6);
    lemma_not_starting(q, w, "show edges".spec_bytes(), 0);
    lemma_not_starting(q, w, "match edges".spec_bytes(), 6);
    lemma_starting(q, w, "match journal".spec_bytes());
    lemma_not_starting(q, w, "show plugins".spec_bytes(), 0);
    lemma_not_starting(q, w, "match plugins".spec_bytes(), 6);
    lemma_not_starting(q, w, "show stats".spec_bytes(), 0);
    lemma_not_starting(q, w, "stats".spec_bytes(), 0);
    lemma_not_starting(q, w, "show capabilities".spec_bytes(), 0);
    lemma_not_starting(q, w, "show caps".spec_bytes(), 0);
    lemma_not_starting(q, w, "set priority".spec_bytes(), 0);
    lemma_not_starting(q, w, "show priority".spec_bytes(), 0);
    lemma_not_starting(q, w, "reset priority".spec_bytes(), 0);
    lemma_not_starting(q, w, "set deadline".spec_bytes(), 0);
    lemma_not_starting(q, w, "show deadline".spec_bytes(), 0);
    lemma_not_starting(q, w, "invoke ".spec_bytes(), 0);
    lemma_not_starting(q, w, "invoke\t".spec_bytes(), 0);
}

/// Only the journal verb is set in a query beginning with "show journal".
#[verifier::rlimit(80)]
proof fn lemma_flags_show_journal(q: Seq<u8>)
    requires
        begins_with_folded(q, seq![0x73u8, 0x68u8, 0x6fu8, 0x77u8, 0x20u8, 0x6au8, 0x6fu8, 0x75u8, 0x72u8, 0x6eu8, 0x61u8, 0x6cu8]),
    ensures
        spec_query_flags(q) == (QueryFlags { nodes: false, edges: false, journal: true, plugins: false, stats: false, caps: false, setp: false, showp: false, resetp: false, setd: false, showd: false, invoke: false }),
{
    lemma_read_verbs();
    let w = seq![0x73u8, 0x68u8, 0x6fu8, 0x77u8, 0x20u8, 0x6au8, 0x6fu8, 0x75u8, 0x72u8, 0x6eu8, 0x61u8, 0x6cu8];
    lemma_not_starting(q, w, "show nodes".spec_bytes(), 5);
    lemma_not_starting(q, w, "match nodes".spec_bytes(), 0);
    lemma_not_starting(q, w, "show edges".spec_bytes(), 5);
    lemma_not_starting(q, w, "match edges".spec_bytes(), 0);
    lemma_starting(q, w, "show journal".spec_bytes());
    lemma_not_starting(q, w, "show plugins".spec_bytes(), 5);
    lemma_not_starting(q, w, "match plugins".spec_bytes(), 0);
    lemma_not_starting(q, w, "show stats".spec_bytes(), 5);
    lemma_not_starting(q, w, "stats".spec_bytes(), 1);
    lemma_not_starting(q, w, "show capabilities".spec_bytes(), 5);
    lemma_not_starting(q, w, "show caps".spec_bytes(), 5);
    lemma_not_starting(q, w, "set priority".spec_bytes(), 1);
    lemma_not_starting(q, w, "show priority".spec_bytes(), 5);
    lemma_not_starting(q, w, "reset priority".spec_bytes(), 0);
    lemma_not_starting(q, w, "set deadline".spec_bytes(), 1);
    lemma_not_starting(q, w, "show deadline".spec_bytes(), 5);
    lemma_not_starting(q, w, "invoke ".spec_bytes(), 0);
    lemma_not_starting(q, w, "invoke\t".spec_bytes(), 0);
}

/// Only the plugins verb is set in a query beginning with "match plugins".
#[verifier::rlimit(80)]
proof fn lemma_flags_match_plugins(q: Seq<u8>)
    requires
        begins_with_folded(q, seq![0x6du8, 0x61u8, 0x74u8, 0x63u8, 0x68u8, 0x20u8, 0x70u8, 0x6cu8, 0x75u8, 0x67u8, 0x69u8, 0x6eu8, 0x73u8]),
    ensures
        spec_query_flags(q) == (QueryFlags { nodes: false, edges: false, journal: false, plugins: true, stats: false, caps: false, setp: false, showp: false, resetp: false, setd: false, showd: false, invoke: false }),
{
    lemma_read_verbs();
    let w = seq![0x6du8, 0x61u8, 0x74u8, 0x63u8, 0x68u8, 0x20u8, 0x70u8, 0x6cu8, 0x75u8, 0x67u8, 0x69u8, 0x6eu8, 0x73u8];
    lemma_not_starting(q, w, "show nodes".spec_bytes(), 0);
    lemma_not_starting(q, w, "match nodes".spec_bytes(), 6);
    lemma_not_starting(q, w, "show edges".spec_bytes(), 0);
    lemma_not_starting(q, w, "match edges".spec_bytes(), 6);
    lemma_not_starting(q, w, "show journal".spec_bytes(), 0);
    lemma_not_starting(q, w, "match journal".spec_bytes(), 6);
    lemma_starting(q, w, "match plugins".spec_bytes());
    lemma_not_starting(q, w, "show stats".spec_bytes(), 0);
    lemma_not_starting(q, w, "stats".spec_bytes(), 0);
    lemma_not_starting(q, w, "show capabilities".spec_bytes(), 0);
    lemma_not_starting(q, w, "show caps".spec_bytes(), 0);
    lemma_not_starting(q, w, "set priority".spec_bytes(), 0);
    lemma_not_starting(q, w, "show priority".spec_bytes(), 0);
    lemma_not_starting(q, w, "reset priority".spec_bytes(), 0);
    lemma_not_starting(q, w, "set deadline".spec_bytes(), 0);
    lemma_not_starting(q, w, "show deadline".spec_bytes(), 0);
    lemma_not_starting(q, w, "invoke ".spec_bytes(), 0);
    lemma_not_starting(q, w, "invoke\t".spec_bytes(), 0);
}

/// Only the plugins verb is set in a query beginning with "show plugins".
#[verifier::rlimit(80)]
proof fn lemma_flags_show_plugins(q: Seq<u8>)
    requires
        begins_with_folded(q, seq![0x73u8, 0x68u8, 0x6fu8, 0x77u8, 0x20u8, 0x70u8, 0x6cu8, 0x75u8, 0x67u8, 0x69u8, 0x6eu8, 0x73u8]),
    ensures
        spec_query_flags(q) == (QueryFlags { nodes: false, edges: false, journal: false, plugins: true, stats: false, caps: false, setp: false, showp: false, resetp: false, setd: false, showd: false, invoke: false }),
{
    lemma_read_verbs();
    let w = seq![0x73u8, 0x68u8, 0x6fu8, 0x77u8, 0x20u8, 0x70u8, 0x6cu8, 0x75u8, 0x67u8, 0x69u8, 0x6eu8, 0x73u8];
    lemma_not_starting(q, w, "show nodes".spec_bytes(), 5);
    lemma_not_starting(q, w, "match nodes".spec_bytes(), 0);
    lemma_not_starting(q, w, "show edges".spec_bytes(), 5);
    lemma_not_starting(q, w, "match edges".spec_bytes(), 0);
    lemma_not_starting(q, w, "show journal".spec_bytes(), 5);
    lemma_not_starting(q, w, "match journal".spec_bytes(), 0);
    lemma_starting(q, w, "show plugins".spec_bytes());
    lemma_not_starting(q, w, "show stats".spec_bytes(), 5);
    lemma_not_starting(q, w, "stats".spec_bytes(), 1);
    lemma_not_starting(q, w, "show capabilities".spec_bytes(), 5);
    lemma_not_starting(q, w, "show caps".spec_bytes(), 5);
    lemma_not_starting(q, w, "set priority".spec_bytes(), 1);
    lemma_not_starting(q, w, "show priority".spec_bytes(), 6);
    lemma_not_starting(q, w, "reset priority".spec_bytes(), 0);
    lemma_not_starting(q, w, "set deadline".spec_bytes(), 1);
    lemma_not_starting(q, w, "show deadline".spec_bytes(), 5);
    lemma_not_starting(q, w, "invoke ".spec_bytes(), 0);
    lemma_not_starting(q, w, "invoke\t".spec_bytes(), 0);
}

/// MATCH EDGES is SHOW EDGES under another name: a query beginning with
/// either (in any case) plans the edge listing its filters ask for, the
/// same plan for both, and never "not a query".
pub proof fn lemma_match_edges_is_show_edges(q: Seq<u8>)
    requires
        begins_with_folded(q, seq![0x6du8, 0x61, 0x74, 0x63, 0x68, 0x20, 0x65, 0x64, 0x67, 0x65, 0x73])
            || begins_with_folded(q, seq![0x73u8, 0x68, 0x6f, 0x77, 0x20, 0x65, 0x64, 0x67, 0x65, 0x73]),
    ensures
        spec_plan_query(q) == edge_listing(q),
        spec_plan_query(q) != QueryPlan::NotQuery,
{
    if begins_with_folded(q, seq![0x6du8, 0x61, 0x74, 0x63, 0x68, 0x20, 0x65, 0x64, 0x67, 0x65, 0x73]) {
        lemma_flags_match_edges(q);
    } else {
        lemma_flags_show_edges(q);
    }
}

/// The node listing a query asks for: its class filter, or the filter's
/// syntax error.
pub open spec fn node_listing(q: Seq<u8>) -> QueryPlan {
    match spec_class_filter(q) {
        Err(m) => QueryPlan::BadSyntax(m),
        Ok(c) => QueryPlan::Nodes { class: c },
    }
}

/// MATCH NODES is SHOW NODES under another name: either (in any case)
/// plans the node listing its class filter asks for.
pub proof fn lemma_match_nodes_is_show_nodes(q: Seq<u8>)
    requires
        begins_with_folded(q, seq![0x6du8, 0x61u8, 0x74u8, 0x63u8, 0x68u8, 0x20u8, 0x6eu8, 0x6fu8, 0x64u8, 0x65u8, 0x73u8]) || begins_with_folded(q, seq![0x73u8, 0x68u8, 0x6fu8, 0x77u8, 0x20u8, 0x6eu8, 0x6fu8, 0x64u8, 0x65u8, 0x73u8]),
    ensures
        spec_plan_query(q) == node_listing(q),
        spec_plan_query(q) != QueryPlan::NotQuery,
{
    if begins_with_folded(q, seq![0x6du8, 0x61u8, 0x74u8, 0x63u8, 0x68u8, 0x20u8, 0x6eu8, 0x6fu8, 0x64u8, 0x65u8, 0x73u8]) {
        lemma_flags_match_nodes(q);
    } else {
        lemma_flags_show_nodes(q);
    }
}

/// MATCH JOURNAL is SHOW JOURNAL under another name: either (in any case)
/// plans the journal with the query's limit.
pub proof fn lemma_match_journal_is_show_journal(q: Seq<u8>)
    requires
        begins_with_folded(q, seq![0x6du8, 0x61u8, 0x74u8, 0x63u8, 0x68u8, 0x20u8, 0x6au8, 0x6fu8, 0x75u8, 0x72u8, 0x6eu8, 0x61u8, 0x6cu8]) || begins_with_folded(q, seq![0x73u8, 0x68u8, 0x6fu8, 0x77u8, 0x20u8, 0x6au8, 0x6fu8, 0x75u8, 0x72u8, 0x6eu8, 0x61u8, 0x6cu8]),
    ensures
        spec_plan_query(q) == (QueryPlan::Journal { limit: journal_limit(q) }),
{
    if begins_with_folded(q, seq![0x6du8, 0x61u8, 0x74u8, 0x63u8, 0x68u8, 0x20u8, 0x6au8, 0x6fu8, 0x75u8, 0x72u8, 0x6eu8, 0x61u8, 0x6cu8]) {
        lemma_flags_match_journal(q);
    } else {
        lemma_flags_show_journal(q);
    }
}

/// MATCH PLUGINS is SHOW PLUGINS under another name: either (in any case)
/// plans the plugin listing.
pub proof fn lemma_match_plugins_is_show_plugins(q: Seq<u8>)
    requires
        begins_with_folded(q, seq![0x6du8, 0x61u8, 0x74u8, 0x63u8, 0x68u8, 0x20u8, 0x70u8, 0x6cu8, 0x75u8, 0x67u8, 0x69u8, 0x6eu8, 0x73u8]) || begins_with_folded(q, seq![0x73u8, 0x68u8, 0x6fu8, 0x77u8, 0x20u8, 0x70u8, 0x6cu8, 0x75u8, 0x67u8, 0x69u8, 0x6eu8, 0x73u8]),
    ensures
        spec_plan_query(q) == QueryPlan::Plugins,
{
    if begins_with_folded(q, seq![0x6du8, 0x61u8, 0x74u8, 0x63u8, 0x68u8, 0x20u8, 0x70u8, 0x6cu8, 0x75u8, 0x67u8, 0x69u8, 0x6eu8, 0x73u8]) {
        lemma_flags_match_plugins(q);
    } else {
        lemma_flags_show_plugins(q);
    }
}

} // verus!
