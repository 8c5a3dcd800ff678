//! What the `cypher>` shell prints about one node or one edge: the brief
//! one-line form of a listing and the detail block of a `RETURN`, with the
//! console colours the block switches between.

use vstd::prelude::*;
use vstd::string::StringSliceAdditionalSpecFns;
use crate::bytebuf::{dec_digits, dec_vec};
use crate::protocol::VectorAddress;
use super::RuntimeEdgeType;
use super::rows::{vector_text, RuntimeNodeType};

verus! {

/// Where a node is in its life.
#[derive(Debug, Clone, Copy, PartialEq, Eq, Structural)]
pub enum NodeLifecycle {
    Discovered,
    Loaded,
    Registered,
    Allocated,
    Ready,
    Running,
    Waiting,
    Suspended,
    Terminated,
    Faulted,
}

/// The unit of a telemetry reading.
#[derive(Debug, Clone, Copy, PartialEq, Eq, Structural)]
pub enum TelemetryUnit {
    Bytes,
    KiB,
    MiB,
    Percent,
    /// A bare number.
    Plain,
}

/// One live reading of a node.
#[derive(Debug, Clone, PartialEq, Eq)]
pub struct TelemetryEntry {
    pub key: Vec<u8>,
    pub value: u64,
    pub unit: TelemetryUnit,
}

/// What the shell knows of a node.
#[derive(Debug, Clone, PartialEq, Eq)]
pub struct NodeSummary {
    pub vector: VectorAddress,
    pub plugin_name: Vec<u8>,
    pub local_node_key: Vec<u8>,
    pub node_type: RuntimeNodeType,
    pub lifecycle: NodeLifecycle,
    pub export_count: u64,
}

/// What the shell knows of an edge.
#[derive(Debug, Clone, PartialEq, Eq)]
pub struct EdgeSummary {
    pub edge_vector: VectorAddress,
    pub edge_type: RuntimeEdgeType,
    pub from_vector: VectorAddress,
    pub from_key: Vec<u8>,
    pub to_vector: VectorAddress,
    pub to_key: Vec<u8>,
    pub capability_namespace: Option<Vec<u8>>,
    pub capability_binding: Option<Vec<u8>>,
}

/// Text in one console colour.
#[derive(Debug, Clone, PartialEq, Eq)]
pub struct TextRun {
    pub color: u8,
    pub text: Vec<u8>,
}

/// Console colours: the heading of a block, its body, a sub-heading.
pub const HEADING_COLOR: u8 = 11;
pub const BODY_COLOR: u8 = 7;
pub const SUBHEADING_COLOR: u8 = 14;

pub open spec fn lifecycle_text(l: NodeLifecycle) -> &'static str {
    match l {
        NodeLifecycle::Discovered => "discover",
        NodeLifecycle::Loaded => "loaded",
        NodeLifecycle::Registered => "register",
        NodeLifecycle::Allocated => "alloc",
        NodeLifecycle::Ready => "ready",
        NodeLifecycle::Running => "run",
        NodeLifecycle::Waiting => "wait",
        NodeLifecycle::Suspended => "suspend",
        NodeLifecycle::Terminated => "term",
        NodeLifecycle::Faulted => "fault",
    }
}

pub fn lifecycle_label(l: NodeLifecycle) -> (r: &'static str)
    ensures
        r == lifecycle_text(l),
{
    match l {
        NodeLifecycle::Discovered => "discover",
        NodeLifecycle::Loaded => "loaded",
        NodeLifecycle::Registered => "register",
        NodeLifecycle::Allocated => "alloc",
        NodeLifecycle::Ready => "ready",
        NodeLifecycle::Running => "run",
        NodeLifecycle::Waiting => "wait",
        NodeLifecycle::Suspended => "suspend",
        NodeLifecycle::Terminated => "term",
        NodeLifecycle::Faulted => "fault",
    }
}

/// The shell's short lower-case name of a node kind.
pub open spec fn node_kind_text(t: RuntimeNodeType) -> &'static str {
    match t {
        RuntimeNodeType::Hardware => "hw",
        RuntimeNodeType::Driver => "drv",
        RuntimeNodeType::Service => "svc",
        RuntimeNodeType::PluginEntry => "entry",
        RuntimeNodeType::Compute => "compute",
        RuntimeNodeType::Router => "router",
        RuntimeNodeType::Aggregator => "agg",
        RuntimeNodeType::Vector => "vector",
    }
}

pub fn node_kind_label(t: RuntimeNodeType) -> (r: &'static str)
    ensures
        r == node_kind_text(t),
{
    match t {
        RuntimeNodeType::Hardware => "hw",
        RuntimeNodeType::Driver => "drv",
        RuntimeNodeType::Service => "svc",
        RuntimeNodeType::PluginEntry => "entry",
        RuntimeNodeType::Compute => "compute",
        RuntimeNodeType::Router => "router",
        RuntimeNodeType::Aggregator => "agg",
        RuntimeNodeType::Vector => "vector",
    }
}

/// The shell's lower-case name of an edge kind.
pub open spec fn edge_kind_text(e: RuntimeEdgeType) -> &'static str {
    match e {
        RuntimeEdgeType::Call => "call",
        RuntimeEdgeType::Spawn => "spawn",
        RuntimeEdgeType::Depend => "depend",
        RuntimeEdgeType::Signal => "signal",
        RuntimeEdgeType::Return => "return",
        RuntimeEdgeType::Mount => "mount",
        RuntimeEdgeType::Sync => "sync",
        RuntimeEdgeType::Stream => "stream",
        RuntimeEdgeType::Use => "use",
        RuntimeEdgeType::Link => "link",
    }
}

pub fn edge_kind_label(e: RuntimeEdgeType) -> (r: &'static str)
    ensures
        r == edge_kind_text(e),
{
    match e {
        RuntimeEdgeType::Call => "call",
        RuntimeEdgeType::Spawn => "spawn",
        RuntimeEdgeType::Depend => "depend",
        RuntimeEdgeType::Signal => "signal",
        RuntimeEdgeType::Return => "return",
        RuntimeEdgeType::Mount => "mount",
        RuntimeEdgeType::Sync => "sync",
        RuntimeEdgeType::Stream => "stream",
        RuntimeEdgeType::Use => "use",
        RuntimeEdgeType::Link => "link",
    }
}

pub open spec fn unit_suffix(u: TelemetryUnit) -> &'static str {
    match u {
        TelemetryUnit::Bytes => " B",
        TelemetryUnit::KiB => " KiB",
        TelemetryUnit::MiB => " MiB",
        TelemetryUnit::Percent => " %",
        TelemetryUnit::Plain => "",
    }
}

fn unit_suffix_of(u: TelemetryUnit) -> (r: &'static str)
    ensures
        r == unit_suffix(u),
{
    match u {
        TelemetryUnit::Bytes => " B",
        TelemetryUnit::KiB => " KiB",
        TelemetryUnit::MiB => " MiB",
        TelemetryUnit::Percent => " %",
        TelemetryUnit::Plain => "",
    }
}

/// An edge's vector: `e:` and its four parts.
pub open spec fn edge_vector_text(v: VectorAddress) -> Seq<u8> {
    "e:".spec_bytes() + vector_text(v)
}

/// `vector plugin/key kind state`, one line.
pub open spec fn node_brief_text(n: NodeSummary) -> Seq<u8> {
    vector_text(n.vector) + " ".spec_bytes() + n.plugin_name@ + "/".spec_bytes() + n.local_node_key@
        + " ".spec_bytes() + node_kind_text(n.node_type).spec_bytes() + " ".spec_bytes()
        + lifecycle_text(n.lifecycle).spec_bytes() + "\n".spec_bytes()
}

/// The edge's capability, when it names both a namespace and a binding.
pub open spec fn edge_capability(e: EdgeSummary) -> Option<(Seq<u8>, Seq<u8>)> {
    match (e.capability_namespace, e.capability_binding) {
        (Some(ns), Some(b)) => Some((ns@, b@)),
        _ => None,
    }
}

/// `e:vector kind from -> to`, then ` cap=namespace/binding` when the edge
/// carries a capability, one line.
pub open spec fn edge_brief_text(e: EdgeSummary) -> Seq<u8> {
    let cap = match edge_capability(e) {
        Some(c) => " cap=".spec_bytes() + c.0 + "/".spec_bytes() + c.1,
        None => Seq::empty(),
    };
    edge_vector_text(e.edge_vector) + " ".spec_bytes() + edge_kind_text(e.edge_type).spec_bytes()
        + " ".spec_bytes() + vector_text(e.from_vector) + " -> ".spec_bytes() + vector_text(e.to_vector) + cap
        + "\n".spec_bytes()
}

/// How many readings are shown: those before the first with an empty key.
pub open spec fn shown_readings(es: Seq<TelemetryEntry>, i: int) -> int
    decreases es.len() - i,
{
    if i < 0 || i >= es.len() {
        es.len() as int
    } else if es[i].key@.len() == 0 {
        i
    } else {
        shown_readings(es, i + 1)
    }
}

pub open spec fn reading_line(t: TelemetryEntry) -> Seq<u8> {
    "    ".spec_bytes() + t.key@ + ": ".spec_bytes() + dec_digits(t.value as nat) + unit_suffix(t.unit).spec_bytes()
        + "\n".spec_bytes()
}

pub open spec fn reading_lines(es: Seq<TelemetryEntry>) -> Seq<u8>
    decreases es.len(),
{
    if es.len() == 0 { Seq::empty() } else { reading_lines(es.drop_last()) + reading_line(es.last()) }
}

/// The detail block of a node: a heading, its vector, plugin, key, kind,
/// state and export count; then, when it reports readings, a telemetry
/// sub-heading and one line per reading up to the first with no key.
pub open spec fn node_detail_runs(n: NodeSummary, telemetry: Option<Seq<TelemetryEntry>>) -> Seq<(u8, Seq<u8>)> {
    let body = "  vector: ".spec_bytes() + vector_text(n.vector) + "\n  plugin: ".spec_bytes() + n.plugin_name@
        + "\n  key: ".spec_bytes() + n.local_node_key@ + "\n  type: ".spec_bytes()
        + node_kind_text(n.node_type).spec_bytes() + "\n  state: ".spec_bytes()
        + lifecycle_text(n.lifecycle).spec_bytes() + "\n  exports: ".spec_bytes()
        + dec_digits(n.export_count as nat) + "\n".spec_bytes();
    let head = seq![(HEADING_COLOR, "cypher> node\n".spec_bytes()), (BODY_COLOR, body)];
    match telemetry {
        Some(es) => if es.len() > 0 {
            head + seq![
                (SUBHEADING_COLOR, "  telemetry:\n".spec_bytes()),
                (BODY_COLOR, reading_lines(es.take(shown_readings(es, 0))))
            ]
        } else {
            head
        },
        None => head,
    }
}

/// The detail block of an edge: a heading, its vector, kind, both ends
/// with their keys, and its capability when it carries one.
pub open spec fn edge_detail_runs(e: EdgeSummary) -> Seq<(u8, Seq<u8>)> {
    seq![(HEADING_COLOR, "cypher> edge\n".spec_bytes()), (BODY_COLOR, edge_detail_body(e))]
}

pub open spec fn edge_detail_body(e: EdgeSummary) -> Seq<u8> {
    let cap = match edge_capability(e) {
        Some(c) => "\n  cap: ".spec_bytes() + c.0 + "/".spec_bytes() + c.1,
        None => Seq::empty(),
    };
    "  vector: ".spec_bytes() + "e:".spec_bytes() + vector_text(e.edge_vector) + "\n  type: ".spec_bytes()
        + edge_kind_text(e.edge_type).spec_bytes() + "\n  from: ".spec_bytes() + vector_text(e.from_vector)
        + " (".spec_bytes() + e.from_key@ + ")\n  to: ".spec_bytes() + vector_text(e.to_vector) + " (".spec_bytes()
        + e.to_key@ + ")".spec_bytes() + cap + "\n".spec_bytes()
}

/// The runs as plain values.
pub open spec fn runs_view(rs: Seq<TextRun>) -> Seq<(u8, Seq<u8>)> {
    Seq::new(rs.len(), |i: int| (rs[i].color, rs[i].text@))
}

fn append_bytes(out: &mut Vec<u8>, s: &[u8])
    ensures
        final(out)@ == old(out)@ + s@,
{
    let ghost o = out@;
    let mut i: usize = 0;
    while i < s.len()
        invariant
            i <= s@.len(),
            out@ == o + s@.take(i as int),
        decreases s@.len() - i,
    {
        out.push(s[i]);
        i = i + 1;
        assert(out@ =~= o + s@.take(i as int));
    }
    assert(s@.take(s@.len() as int) =~= s@);
}

fn add_str(out: &mut Vec<u8>, s: &str)
    ensures
        final(out)@ == old(out)@ + s.spec_bytes(),
{
    append_bytes(out, s.as_bytes());
}

fn add_dec(out: &mut Vec<u8>, n: u64)
    ensures
        final(out)@ == old(out)@ + dec_digits(n as nat),
{
    let d = dec_vec(n);
    append_bytes(out, d.as_slice());
}

fn add_vector(out: &mut Vec<u8>, v: VectorAddress)
    ensures
        final(out)@ == old(out)@ + vector_text(v),
{
    let ghost o = out@;
    let dot: [u8; 1] = [0x2E];
    assert(dot@ =~= seq![0x2Eu8]);
    add_dec(out, v.l4 as u64);
    append_bytes(out, &dot);
    add_dec(out, v.l3 as u64);
    append_bytes(out, &dot);
    add_dec(out, v.l2 as u64);
    append_bytes(out, &dot);
    add_dec(out, v.offset as u64);
    assert(out@ =~= o + vector_text(v));
}

/// The one-line listing form of a node.
pub fn node_brief(n: &NodeSummary) -> (r: Vec<u8>)
    ensures
        r@ == node_brief_text(*n),
{
    let mut out: Vec<u8> = Vec::new();
    add_vector(&mut out, n.vector);
    add_str(&mut out, " ");
    append_bytes(&mut out, n.plugin_name.as_slice());
    add_str(&mut out, "/");
    append_bytes(&mut out, n.local_node_key.as_slice());
    add_str(&mut out, " ");
    add_str(&mut out, node_kind_label(n.node_type));
    add_str(&mut out, " ");
    add_str(&mut out, lifecycle_label(n.lifecycle));
    add_str(&mut out, "\n");
    assert(out@ =~= node_brief_text(*n));
    out
}

/// The one-line listing form of an edge.
pub fn edge_brief(e: &EdgeSummary) -> (r: Vec<u8>)
    ensures
        r@ == edge_brief_text(*e),
{
    let mut out: Vec<u8> = Vec::new();
    add_str(&mut out, "e:");
    add_vector(&mut out, e.edge_vector);
    add_str(&mut out, " ");
    add_str(&mut out, edge_kind_label(e.edge_type));
    add_str(&mut out, " ");
    add_vector(&mut out, e.from_vector);
    add_str(&mut out, " -> ");
    add_vector(&mut out, e.to_vector);
    let ghost before_cap = out@;
    match (&e.capability_namespace, &e.capability_binding) {
        (Some(ns), Some(b)) => {
            add_str(&mut out, " cap=");
            append_bytes(&mut out, ns.as_slice());
            add_str(&mut out, "/");
            append_bytes(&mut out, b.as_slice());
        },
        _ => {},
    }
    add_str(&mut out, "\n");
    assert(out@ =~= edge_brief_text(*e));
    out
}

/// The reading lines of `es`, up to the first reading with no key.
fn reading_text(es: &[TelemetryEntry]) -> (r: Vec<u8>)
    ensures
        r@ == reading_lines(es@.take(shown_readings(es@, 0))),
{
    let mut out: Vec<u8> = Vec::new();
    let mut i: usize = 0;
    while i < es.len()
        invariant
            i <= es@.len(),
            shown_readings(es@, 0) == shown_readings(es@, i as int),
            out@ == reading_lines(es@.take(i as int)),
        decreases es@.len() - i,
    {
        let t = &es[i];
        if t.key.len() == 0 {
            return out;
        }
        add_str(&mut out, "    ");
        append_bytes(&mut out, t.key.as_slice());
        add_str(&mut out, ": ");
        add_dec(&mut out, t.value);
        add_str(&mut out, unit_suffix_of(t.unit));
        add_str(&mut out, "\n");
        assert(es@.take(i + 1).drop_last() =~= es@.take(i as int));
        i = i + 1;
    }
    out
}

/// The detail block of a node, given its readings when the node reports
/// any.
pub fn node_detail(n: &NodeSummary, telemetry: &Option<Vec<TelemetryEntry>>) -> (r: Vec<TextRun>)
    ensures
        runs_view(r@) == node_detail_runs(*n, match telemetry {
            Some(es) => Some(es@),
            None => None,
        }),
{
    let mut body: Vec<u8> = Vec::new();
    add_str(&mut body, "  vector: ");
    add_vector(&mut body, n.vector);
    add_str(&mut body, "\n  plugin: ");
    append_bytes(&mut body, n.plugin_name.as_slice());
    add_str(&mut body, "\n  key: ");
    append_bytes(&mut body, n.local_node_key.as_slice());
    add_str(&mut body, "\n  type: ");
    add_str(&mut body, node_kind_label(n.node_type));
    add_str(&mut body, "\n  state: ");
    add_str(&mut body, lifecycle_label(n.lifecycle));
    add_str(&mut body, "\n  exports: ");
    add_dec(&mut body, n.export_count);
    add_str(&mut body, "\n");
    let mut heading: Vec<u8> = Vec::new();
    add_str(&mut heading, "cypher> node\n");
    let mut runs: Vec<TextRun> = Vec::new();
    runs.push(TextRun { color: HEADING_COLOR, text: heading });
    runs.push(TextRun { color: BODY_COLOR, text: body });
    match telemetry {
        Some(es) => {
            if es.len() > 0 {
                let mut sub: Vec<u8> = Vec::new();
                add_str(&mut sub, "  telemetry:\n");
                runs.push(TextRun { color: SUBHEADING_COLOR, text: sub });
                let lines = reading_text(es.as_slice());
                runs.push(TextRun { color: BODY_COLOR, text: lines });
            }
        },
        None => {},
    }
    assert(runs_view(runs@) =~= node_detail_runs(*n, match telemetry {
        Some(es) => Some(es@),
        None => None,
    }));
    runs
}

/// The detail block of an edge.
pub fn edge_detail(e: &EdgeSummary) -> (r: Vec<TextRun>)
    ensures
        runs_view(r@) == edge_detail_runs(*e),
{
    let mut body: Vec<u8> = Vec::new();
    add_str(&mut body, "  vector: ");
    add_str(&mut body, "e:");
    add_vector(&mut body, e.edge_vector);
    add_str(&mut body, "\n  type: ");
    add_str(&mut body, edge_kind_label(e.edge_type));
    add_str(&mut body, "\n  from: ");
    add_vector(&mut body, e.from_vector);
    add_str(&mut body, " (");
    append_bytes(&mut body, e.from_key.as_slice());
    add_str(&mut body, ")\n  to: ");
    add_vector(&mut body, e.to_vector);
    add_str(&mut body, " (");
    append_bytes(&mut body, e.to_key.as_slice());
    add_str(&mut body, ")");
    match (&e.capability_namespace, &e.capability_binding) {
        (Some(ns), Some(b)) => {
            add_str(&mut body, "\n  cap: ");
            append_bytes(&mut body, ns.as_slice());
            add_str(&mut body, "/");
            append_bytes(&mut body, b.as_slice());
        },
        _ => {},
    }
    add_str(&mut body, "\n");
    assert(body@ =~= edge_detail_body(*e));
    let mut heading: Vec<u8> = Vec::new();
    add_str(&mut heading, "cypher> edge\n");
    let mut runs: Vec<TextRun> = Vec::new();
    runs.push(TextRun { color: HEADING_COLOR, text: heading });
    runs.push(TextRun { color: BODY_COLOR, text: body });
    assert(runs_view(runs@) =~= edge_detail_runs(*e));
    runs
}

} // verus!
