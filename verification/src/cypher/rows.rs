//! Query output: fixed-capacity text rows, the labels of node and edge
//! kinds, and the rows of the node and edge listings.

use vstd::prelude::*;
use vstd::string::StringSliceAdditionalSpecFns;
use crate::bytebuf::{append_capped, copy_vec, dec_digits, lemma_append_capped_assoc, pow10};
use crate::cuda_host::LineBuf;
use crate::protocol::VectorAddress;
use super::{NodeSubDomain, RuntimeEdgeType, CypherQueryOutcome, QueryPlan, plan_query, spec_plan_query};

verus! {

/// A row of at most `N` bytes; text past the capacity is dropped.
pub struct RowBuf<const N: usize> {
    line: LineBuf<N>,
}

impl<const N: usize> View for RowBuf<N> {
    type V = Seq<u8>;

    closed spec fn view(&self) -> Seq<u8> {
        self.line@
    }
}

impl<const N: usize> RowBuf<N> {
    pub closed spec fn wf(&self) -> bool {
        self.line.wf()
    }

    pub fn new() -> (r: Self)
        ensures
            r.wf(),
            r@ == Seq::<u8>::empty(),
    {
        RowBuf { line: LineBuf::new() }
    }

    pub fn push_bytes(&mut self, s: &[u8])
        requires
            old(self).wf(),
        ensures
            final(self).wf(),
            final(self)@ == append_capped(old(self)@, s@, N as nat),
    {
        self.line.push_bytes(s);
    }

    pub fn push_str(&mut self, s: &str)
        requires
            old(self).wf(),
        ensures
            final(self).wf(),
            final(self)@ == append_capped(old(self)@, s.spec_bytes(), N as nat),
    {
        self.line.push_str(s);
    }

    pub fn push_dec(&mut self, n: u64)
        requires
            old(self).wf(),
        ensures
            final(self).wf(),
            final(self)@ == append_capped(old(self)@, dec_digits(n as nat), N as nat),
    {
        self.line.push_dec(n);
    }

    pub fn as_bytes(&self) -> (r: &[u8])
        ensures
            r@ == self@,
    {
        self.line.as_slice()
    }
}

/// Where a query's rows go.  An implementation states, by `emitted`, the
/// rows it has received; the default says nothing of them.
pub trait QueryEmitter {
    /// The rows emitted so far, in order.
    closed spec fn emitted(&self) -> Seq<Seq<u8>> {
        Seq::empty()
    }

    /// Emit one row after those already emitted.
    fn emit_row(&mut self, row: &[u8])
        ensures
            final(self).emitted() == old(self).emitted().push(row@),
    ;
}


/// Runtime node kinds.
#[derive(Debug, Clone, Copy, PartialEq, Eq, Structural)]
pub enum RuntimeNodeType {
    Hardware,
    Driver,
    Service,
    PluginEntry,
    Compute,
    Router,
    Aggregator,
    Vector,
}

pub open spec fn node_type_text(t: RuntimeNodeType) -> &'static str {
    match t {
        RuntimeNodeType::Hardware => "HW",
        RuntimeNodeType::Driver => "DRV",
        RuntimeNodeType::Service => "SVC",
        RuntimeNodeType::PluginEntry => "PE",
        RuntimeNodeType::Compute => "CPU",
        RuntimeNodeType::Router => "RTR",
        RuntimeNodeType::Aggregator => "AGG",
        RuntimeNodeType::Vector => "VEC",
    }
}

pub fn node_type_label(t: RuntimeNodeType) -> (r: &'static str)
    ensures
        r == node_type_text(t),
{
    match t {
        RuntimeNodeType::Hardware => "HW",
        RuntimeNodeType::Driver => "DRV",
        RuntimeNodeType::Service => "SVC",
        RuntimeNodeType::PluginEntry => "PE",
        RuntimeNodeType::Compute => "CPU",
        RuntimeNodeType::Router => "RTR",
        RuntimeNodeType::Aggregator => "AGG",
        RuntimeNodeType::Vector => "VEC",
    }
}

pub open spec fn sub_domain_text(s: NodeSubDomain) -> &'static str {
    match s {
        NodeSubDomain::Hardware => "Hardware",
        NodeSubDomain::KernelDriver => "Driver",
        NodeSubDomain::Service => "Service",
        NodeSubDomain::Compute => "Compute",
        NodeSubDomain::Routing => "Routing",
        NodeSubDomain::Vector => "Vector",
    }
}

pub fn sub_domain_label(s: NodeSubDomain) -> (r: &'static str)
    ensures
        r == sub_domain_text(s),
{
    match s {
        NodeSubDomain::Hardware => "Hardware",
        NodeSubDomain::KernelDriver => "Driver",
        NodeSubDomain::Service => "Service",
        NodeSubDomain::Compute => "Compute",
        NodeSubDomain::Routing => "Routing",
        NodeSubDomain::Vector => "Vector",
    }
}

pub open spec fn edge_type_text(e: RuntimeEdgeType) -> &'static str {
    match e {
        RuntimeEdgeType::Call => "Call",
        RuntimeEdgeType::Spawn => "Spawn",
        RuntimeEdgeType::Depend => "Depend",
        RuntimeEdgeType::Signal => "Signal",
        RuntimeEdgeType::Return => "Return",
        RuntimeEdgeType::Mount => "Mount",
        RuntimeEdgeType::Sync => "Sync",
        RuntimeEdgeType::Stream => "Stream",
        RuntimeEdgeType::Use => "Use",
        RuntimeEdgeType::Link => "Link",
    }
}

pub fn edge_type_label(e: RuntimeEdgeType) -> (r: &'static str)
    ensures
        r == edge_type_text(e),
{
    match e {
        RuntimeEdgeType::Call => "Call",
        RuntimeEdgeType::Spawn => "Spawn",
        RuntimeEdgeType::Depend => "Depend",
        RuntimeEdgeType::Signal => "Signal",
        RuntimeEdgeType::Return => "Return",
        RuntimeEdgeType::Mount => "Mount",
        RuntimeEdgeType::Sync => "Sync",
        RuntimeEdgeType::Stream => "Stream",
        RuntimeEdgeType::Use => "Use",
        RuntimeEdgeType::Link => "Link",
    }
}

/// Number of decimal digits of `n` (1 for zero).
pub open spec fn spec_decimal_width(n: nat) -> nat
    decreases n,
{
    if n < 10 { 1 } else { 1 + spec_decimal_width(n / 10) }
}

pub fn decimal_width(n: u64) -> (r: usize)
    ensures
        r == spec_decimal_width(n as nat),
        r <= 20,
{
    if n == 0 {
        return 1;
    }
    let mut w: usize = 0;
    let mut v = n;
    proof { lemma_width_bound(n as nat); }
    while v > 0
        invariant
            n > 0,
            v <= n,
            w <= 20,
            v > 0 ==> w + spec_decimal_width(v as nat) == spec_decimal_width(n as nat),
            v == 0 ==> w == spec_decimal_width(n as nat),
            v > 0 ==> w + spec_decimal_width(v as nat) <= 20,
        decreases v,
    {
        proof { lemma_width_bound(v as nat); }
        w = w + 1;
        v = v / 10;
    }
    w
}

proof fn lemma_width_le(n: nat, k: nat)
    requires
        k >= 1,
        n < pow10(k),
    ensures
        spec_decimal_width(n) <= k,
    decreases n,
{
    if n >= 10 {
        if k == 1 {
            assert(pow10(1) == 10) by { reveal_with_fuel(pow10, 2); }
        }
        let j = (k - 1) as nat;
        assert(pow10(k) == 10 * pow10(j));
        assert(n / 10 < pow10(j)) by (nonlinear_arith)
            requires n < 10 * pow10(j);
        lemma_width_le(n / 10, j);
    }
}

proof fn lemma_width_bound(n: nat)
    requires
        n <= u64::MAX,
    ensures
        spec_decimal_width(n) <= 20,
{
    assert(pow10(20) == 100000000000000000000) by {
        reveal_with_fuel(pow10, 21);
    }
    lemma_width_le(n, 20);
}

/// A plugin name without its `K_` prefix.
pub open spec fn trim_k(s: Seq<u8>) -> Seq<u8> {
    if s.len() >= 2 && s[0] == 0x4B && s[1] == 0x5F { s.subrange(2, s.len() as int) } else { s }
}

pub fn trim_k_prefix(s: &[u8]) -> (r: Vec<u8>)
    ensures
        r@ == trim_k(s@),
{
    let start: usize = if s.len() >= 2 && s[0] == 0x4B && s[1] == 0x5F { 2 } else { 0 };
    let mut out: Vec<u8> = Vec::new();
    let mut i = start;
    while i < s.len()
        invariant
            start <= i <= s@.len(),
            out@ == s@.subrange(start as int, i as int),
        decreases s@.len() - i,
    {
        out.push(s[i]);
        i = i + 1;
        assert(out@ =~= s@.subrange(start as int, i as int));
    }
    proof {
        if start == 0 {
            assert(s@.subrange(0, s@.len() as int) =~= s@);
        }
    }
    out
}

/// `l4.l3.l2.offset` in decimal.
pub open spec fn vector_text(v: VectorAddress) -> Seq<u8> {
    dec_digits(v.l4 as nat) + seq![0x2Eu8] + dec_digits(v.l3 as nat) + seq![0x2Eu8]
        + dec_digits(v.l2 as nat) + seq![0x2Eu8] + dec_digits(v.offset as nat)
}

/// The first `w` bytes of `s`, padded with spaces to `w`.
pub open spec fn padded(s: Seq<u8>, w: int) -> Seq<u8> {
    let take = if s.len() < w { s.len() as int } else { w };
    s.subrange(0, take) + Seq::new((w - take) as nat, |i: int| 0x20u8)
}

/// What a node listing knows of a node.
pub struct NodeRow {
    pub vector: VectorAddress,
    pub plugin_id: u64,
    pub plugin_name: Vec<u8>,
    pub node_type: RuntimeNodeType,
    pub sub_domain: NodeSubDomain,
}

/// One node listing line (before the 80-byte cut): vector, two spaces,
/// the plugin name without `K_` in 14 columns, kind label, ` / `, class.
pub open spec fn node_line(n: &NodeRow) -> Seq<u8> {
    vector_text(n.vector) + "  ".spec_bytes() + padded(trim_k(n.plugin_name@), 14)
        + node_type_text(n.node_type).spec_bytes() + " / ".spec_bytes() + sub_domain_text(n.sub_domain).spec_bytes()
}

pub open spec fn cap80(s: Seq<u8>) -> Seq<u8> {
    append_capped(Seq::empty(), s, 80)
}

pub(crate) fn push_vec(row: &mut RowBuf<80>, v: VectorAddress)
    requires
        old(row).wf(),
    ensures
        final(row).wf(),
        final(row)@ == append_capped(old(row)@, vector_text(v), 80),
{
    let ghost o = row@;
    let dot: [u8; 1] = [0x2E];
    assert(dot@ =~= seq![0x2Eu8]);
    row.push_dec(v.l4 as u64);
    row.push_bytes(dot.as_slice());
    row.push_dec(v.l3 as u64);
    row.push_bytes(dot.as_slice());
    row.push_dec(v.l2 as u64);
    row.push_bytes(dot.as_slice());
    row.push_dec(v.offset as u64);
    proof {
        let d = seq![0x2Eu8];
        let a = dec_digits(v.l4 as nat);
        let b = dec_digits(v.l3 as nat);
        let c = dec_digits(v.l2 as nat);
        let e = dec_digits(v.offset as nat);
        lemma_append_capped_assoc(o, a, d, 80);
        lemma_append_capped_assoc(o, a + d, b, 80);
        lemma_append_capped_assoc(o, a + d + b, d, 80);
        lemma_append_capped_assoc(o, a + d + b + d, c, 80);
        lemma_append_capped_assoc(o, a + d + b + d + c, d, 80);
        lemma_append_capped_assoc(o, a + d + b + d + c + d, e, 80);
    }
}

fn spaces(n: usize) -> (r: Vec<u8>)
    ensures
        r@ == Seq::new(n as nat, |i: int| 0x20u8),
{
    let mut v: Vec<u8> = Vec::new();
    while v.len() < n
        invariant
            v@.len() <= n,
            v@ == Seq::new(v@.len(), |i: int| 0x20u8),
        decreases n - v@.len(),
    {
        v.push(0x20);
        assert(v@ =~= Seq::new(v@.len(), |i: int| 0x20u8));
    }
    v
}

fn prefix_of(s: &[u8], w: usize) -> (r: Vec<u8>)
    ensures
        r@ == s@.subrange(0, if s@.len() < w { s@.len() as int } else { w as int }),
{
    let take = if s.len() < w { s.len() } else { w };
    let mut out: Vec<u8> = Vec::new();
    let mut i: usize = 0;
    while i < take
        invariant
            take <= s@.len(),
            i <= take,
            out@ == s@.subrange(0, i as int),
        decreases take - i,
    {
        out.push(s[i]);
        i = i + 1;
        assert(out@ =~= s@.subrange(0, i as int));
    }
    out
}

/// The listing line of one node, cut to 80 bytes.
pub fn format_node_row(n: &NodeRow) -> (r: RowBuf<80>)
    ensures
        r.wf(),
        r@ == cap80(node_line(n)),
{
    let mut row: RowBuf<80> = RowBuf::new();
    push_vec(&mut row, n.vector);
    let ghost s1 = vector_text(n.vector);
    row.push_str("  ");
    let name = trim_k_prefix(n.plugin_name.as_slice());
    let head = prefix_of(name.as_slice(), 14);
    let pad = spaces(14 - head.len());
    row.push_bytes(head.as_slice());
    row.push_bytes(pad.as_slice());
    row.push_str(node_type_label(n.node_type));
    row.push_str(" / ");
    row.push_str(sub_domain_label(n.sub_domain));
    proof {
        let e = Seq::<u8>::empty();
        let a = "  ".spec_bytes();
        let h = head@;
        let p = pad@;
        let t = node_type_text(n.node_type).spec_bytes();
        let sl = " / ".spec_bytes();
        let c = sub_domain_text(n.sub_domain).spec_bytes();
        assert(padded(trim_k(n.plugin_name@), 14) =~= h + p);
        lemma_append_capped_assoc(e, s1, a, 80);
        lemma_append_capped_assoc(e, s1 + a, h, 80);
        lemma_append_capped_assoc(e, s1 + a + h, p, 80);
        lemma_append_capped_assoc(e, s1 + a + h + p, t, 80);
        lemma_append_capped_assoc(e, s1 + a + h + p + t, sl, 80);
        lemma_append_capped_assoc(e, s1 + a + h + p + t + sl, c, 80);
        assert(s1 + a + (h + p) + t + sl + c =~= s1 + a + h + p + t + sl + c);
    }
    row
}

/// The node listing: a line per node of the class (every node when no
/// class is given), in order.
pub open spec fn node_lines(nodes: Seq<NodeRow>, class: Option<NodeSubDomain>) -> Seq<Seq<u8>>
    decreases nodes.len(),
{
    if nodes.len() == 0 {
        Seq::empty()
    } else {
        let rest = node_lines(nodes.drop_last(), class);
        let n = nodes.last();
        if class matches Some(c) && n.sub_domain != c { rest } else { rest.push(cap80(node_line(&n))) }
    }
}

/// Emit the node listing; returns the row count.
pub fn show_nodes<E: QueryEmitter>(emitter: &mut E, nodes: &Vec<NodeRow>, class: Option<NodeSubDomain>)
    -> (r: CypherQueryOutcome)
    ensures
        r == (CypherQueryOutcome::Rows { count: node_lines(nodes@, class).len() as usize }),
        final(emitter).emitted() == old(emitter).emitted() + node_lines(nodes@, class),
{
    let ghost start = emitter.emitted();
    let mut count: usize = 0;
    let mut i: usize = 0;
    while i < nodes.len()
        invariant
            i <= nodes@.len(),
            emitter.emitted() == start + node_lines(nodes@.take(i as int), class),
            count == node_lines(nodes@.take(i as int), class).len(),
            count <= i,
        decreases nodes@.len() - i,
    {
        proof { assert(nodes@.take(i + 1).drop_last() =~= nodes@.take(i as int)); }
        let n = &nodes[i];
        let keep = match class {
            Some(c) => n.sub_domain == c,
            None => true,
        };
        if keep {
            let row = format_node_row(n);
            emitter.emit_row(row.as_bytes());
            count = count + 1;
        }
        assert(emitter.emitted() =~= start + node_lines(nodes@.take(i + 1), class));
        i = i + 1;
    }
    assert(nodes@.take(nodes@.len() as int) =~= nodes@);
    CypherQueryOutcome::Rows { count }
}

/// The rows of the node listing.
pub fn node_rows(nodes: &Vec<NodeRow>, class: Option<NodeSubDomain>) -> (r: Vec<Vec<u8>>)
    ensures
        r@.len() == node_lines(nodes@, class).len(),
        forall|k: int| 0 <= k < r@.len() ==> #[trigger] r@[k]@ == node_lines(nodes@, class)[k],
{
    let mut out: Vec<Vec<u8>> = Vec::new();
    let mut i: usize = 0;
    while i < nodes.len()
        invariant
            i <= nodes@.len(),
            out@.len() == node_lines(nodes@.take(i as int), class).len(),
            forall|k: int| 0 <= k < out@.len() ==> #[trigger] out@[k]@ == node_lines(nodes@.take(i as int), class)[k],
        decreases nodes@.len() - i,
    {
        proof { assert(nodes@.take(i + 1).drop_last() =~= nodes@.take(i as int)); }
        let n = &nodes[i];
        let keep = match class {
            Some(c) => n.sub_domain == c,
            None => true,
        };
        if keep {
            let row = format_node_row(n);
            let bytes = copy_vec(row.as_bytes());
            out.push(bytes);
        }
        i = i + 1;
    }
    assert(nodes@.take(nodes@.len() as int) =~= nodes@);
    out
}


/// Where a read query stands after the part that needs no live graph.
#[derive(Debug, Clone, Copy, PartialEq, Eq)]
pub enum DispatchStep {
    /// The query is answered.
    Done(CypherQueryOutcome),
    /// The plan needs the runtime's live state.
    Runtime(QueryPlan),
}

/// Run a read query as far as the node listing `nodes` lets it go: a text
/// that is no read query, a malformed one and `SHOW NODES` are answered
/// here; every other verb is handed back with its plan.
pub fn dispatch_cypher_query<E: QueryEmitter>(query: &[u8], emitter: &mut E, nodes: &Vec<NodeRow>) -> (r: DispatchStep)
    ensures
        match spec_plan_query(query@) {
            QueryPlan::NotQuery => r == DispatchStep::Done(CypherQueryOutcome::NotQuery),
            QueryPlan::BadSyntax(m) => r == DispatchStep::Done(CypherQueryOutcome::BadSyntax(m)),
            QueryPlan::Nodes { class } => r == DispatchStep::Done(CypherQueryOutcome::Rows {
                count: node_lines(nodes@, class).len() as usize }),
            p => r == DispatchStep::Runtime(p),
        },
        final(emitter).emitted() == match spec_plan_query(query@) {
            QueryPlan::Nodes { class } => old(emitter).emitted() + node_lines(nodes@, class),
            _ => old(emitter).emitted(),
        },
{
    match plan_query(query) {
        QueryPlan::NotQuery => DispatchStep::Done(CypherQueryOutcome::NotQuery),
        QueryPlan::BadSyntax(m) => DispatchStep::Done(CypherQueryOutcome::BadSyntax(m)),
        QueryPlan::Nodes { class } => DispatchStep::Done(show_nodes(emitter, nodes, class)),
        p => DispatchStep::Runtime(p),
    }
}

} // verus!
