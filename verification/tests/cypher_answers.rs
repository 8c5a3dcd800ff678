use gos_kernel::cypher::answers::{
    capability_rows, edge_rows, edges_answer, invoke_answer, journal_rows, plugin_rows, priority_tier,
    reset_priority_answer, set_deadline_answer, set_priority_answer, show_deadline_answer, show_journal,
    show_plugins, show_priority_answer, show_stats, stats_rows, CapabilityRow, ControlPlaneMessageKind, EdgeRow,
    JournalEntry, RpcResult, RuntimeStats,
};
use gos_kernel::cypher::rows::{NodeRow, QueryEmitter, RuntimeNodeType};
use gos_kernel::cypher::{CypherQueryOutcome, EndpointFilter, NodeSubDomain, RuntimeEdgeType};
use gos_kernel::protocol::VectorAddress;

struct Sink(Vec<Vec<u8>>);

impl QueryEmitter for Sink {
    fn emit_row(&mut self, row: &[u8]) {
        self.0.push(row.to_vec());
    }
}

fn text(rows: &[Vec<u8>]) -> Vec<String> {
    rows.iter().map(|r| String::from_utf8(r.clone()).unwrap()).collect()
}

fn v(a: u16, b: u16, c: u16, d: u16) -> VectorAddress {
    VectorAddress::new(a, b, c, d)
}

#[test]
fn stats_rows_show_every_counter() {
    let s = RuntimeStats {
        plugin_count: 21, node_count: 30, edge_count: 44, ready_queue_len: 2, signal_queue_len: 5,
        journal_len: 64, journal_lifetime: 300, generation: 9, tick: 1234, stable: true, rpc_word: 3,
        rpc_buf: 1, deadline_overruns: 0,
    };
    let rows = text(&stats_rows(&s));
    assert_eq!(rows, vec![
        "plugins   21 / 32", "nodes     30 / 128", "edges     44 / 512", "ready=2  signals=5",
        "journal   64 stored / 300 lifetime", "generation G9  tick=1234", "stable    yes",
        "rpc       word=3 buf=1", "deadlines overruns=0",
    ]);
    let mut sink = Sink(Vec::new());
    assert_eq!(show_stats(&mut sink, &RuntimeStats { stable: false, ..s }), CypherQueryOutcome::Rows { count: 9 });
    assert_eq!(text(&sink.0)[6], "stable    no");
}

#[test]
fn priority_answers() {
    let (o, row) = set_priority_answer(b"1.2.0.0", Some(200), true, true);
    assert_eq!(o, CypherQueryOutcome::Rows { count: 1 });
    assert_eq!(row.unwrap(), b"set priority '1.2.0.0' = 200".to_vec());
    assert_eq!(set_priority_answer(b"1.2.0.0", Some(1), false, true),
        (CypherQueryOutcome::EndpointNotFound("set priority: node not found"), None));
    assert_eq!(set_priority_answer(b"1.2.0.0", None, true, true),
        (CypherQueryOutcome::BadSyntax("set priority requires '= N' with N in 0..=255"), None));
    assert_eq!(set_priority_answer(b"1.2.0.0", Some(1), true, false),
        (CypherQueryOutcome::EndpointNotFound("set priority: runtime rejected"), None));
    assert_eq!(priority_tier(255), "HIGH");
    assert_eq!(priority_tier(192), "HIGH");
    assert_eq!(priority_tier(128), "DEFAULT");
    assert_eq!(priority_tier(64), "BACKGROUND");
    assert_eq!(priority_tier(63), "IDLE");
    let (o, row) = show_priority_answer(b"6.2.0.0", Some(128));
    assert_eq!(o, CypherQueryOutcome::Rows { count: 1 });
    assert_eq!(row.unwrap(), b"'6.2.0.0' priority = 128 (DEFAULT)".to_vec());
    assert_eq!(show_priority_answer(b"6.2.0.0", None).0, CypherQueryOutcome::EndpointNotFound("show priority: node not found"));
    assert_eq!(reset_priority_answer(b"6.2.0.0", true, true).1.unwrap(), b"reset priority '6.2.0.0' = 128 (DEFAULT)".to_vec());
    assert_eq!(reset_priority_answer(b"6.2.0.0", true, false).0,
        CypherQueryOutcome::EndpointNotFound("reset priority: runtime rejected"));
}

#[test]
fn deadline_and_invoke_answers() {
    assert_eq!(set_deadline_answer(b"1.1.0.0", Some(5000), true, true).1.unwrap(), b"set deadline '1.1.0.0' = 5000 cycles".to_vec());
    assert_eq!(set_deadline_answer(b"1.1.0.0", Some(0), true, true).1.unwrap(),
        b"set deadline '1.1.0.0' = 0 cycles (disabled)".to_vec());
    assert_eq!(set_deadline_answer(b"1.1.0.0", None, true, true).0,
        CypherQueryOutcome::BadSyntax("set deadline requires '= N' (cycles, 0 disables)"));
    assert_eq!(show_deadline_answer(b"1.1.0.0", Some(0)).1.unwrap(), b"'1.1.0.0' deadline = (disabled)".to_vec());
    assert_eq!(show_deadline_answer(b"1.1.0.0", Some(77)).1.unwrap(), b"'1.1.0.0' deadline = 77 cycles".to_vec());
    assert_eq!(show_deadline_answer(b"1.1.0.0", None).0, CypherQueryOutcome::EndpointNotFound("show deadline: node not found"));
    let (o, row) = invoke_answer(b"2.0.0.1", 7, RpcResult::Reply(49));
    assert_eq!(o, CypherQueryOutcome::Rows { count: 1 });
    assert_eq!(row.unwrap(), b"invoke '2.0.0.1' with 7 -> 49".to_vec());
    let (o, row) = invoke_answer(b"2.0.0.1", 7, RpcResult::NoReply);
    assert_eq!(o, CypherQueryOutcome::Rows { count: 1 });
    assert_eq!(row.unwrap(), b"invoke '2.0.0.1': target ran but no rpc_reply".to_vec());
    assert_eq!(invoke_answer(b"2.0.0.1", 7, RpcResult::BadStatus).1.unwrap(),
        b"invoke '2.0.0.1': target dispatch returned non-OK".to_vec());
    assert_eq!(invoke_answer(b"2.0.0.1", 7, RpcResult::RuntimeError),
        (CypherQueryOutcome::EndpointNotFound("invoke: target node not found or runtime error"), None));
}

fn edges() -> Vec<EdgeRow> {
    vec![
        EdgeRow { from_vector: v(5, 1, 0, 0), to_vector: v(1, 1, 0, 0), edge_type: RuntimeEdgeType::Depend,
            capability_namespace: None, capability_binding: None },
        EdgeRow { from_vector: v(5, 1, 0, 0), to_vector: v(1, 2, 0, 0), edge_type: RuntimeEdgeType::Mount,
            capability_namespace: Some(b"console".to_vec()), capability_binding: Some(b"write".to_vec()) },
        EdgeRow { from_vector: v(6, 1, 0, 0), to_vector: v(1, 2, 0, 0), edge_type: RuntimeEdgeType::Mount,
            capability_namespace: Some(b"clipboard".to_vec()), capability_binding: None },
    ]
}

#[test]
fn edge_rows_filter_and_format() {
    let all = text(&edge_rows(&edges(), None, None, None));
    assert_eq!(all, vec![
        "5.1.0.0 -> 1.1.0.0  Depend",
        "5.1.0.0 -> 1.2.0.0  Mount  [console/write]",
        "6.1.0.0 -> 1.2.0.0  Mount  [clipboard]",
    ]);
    assert_eq!(edge_rows(&edges(), Some(RuntimeEdgeType::Mount), None, None).len(), 2);
    assert_eq!(edge_rows(&edges(), None, Some(v(5, 1, 0, 0)), Some(v(1, 2, 0, 0))).len(), 1);
    assert_eq!(edge_rows(&edges(), Some(RuntimeEdgeType::Call), None, None).len(), 0);
    let mut sink = Sink(Vec::new());
    assert_eq!(edges_answer(&mut sink, &edges(), None, EndpointFilter::At(v(6, 1, 0, 0)), true, EndpointFilter::Absent, false),
        CypherQueryOutcome::Rows { count: 1 });
    assert_eq!(edges_answer(&mut sink, &edges(), None, EndpointFilter::Bad, true, EndpointFilter::Absent, false),
        CypherQueryOutcome::BadSyntax("bad vector literal for FROM/TO filter"));
    assert_eq!(edges_answer(&mut sink, &edges(), None, EndpointFilter::Absent, false, EndpointFilter::At(v(9, 9, 9, 9)), false),
        CypherQueryOutcome::EndpointNotFound("FROM/TO endpoint not found"));
    assert_eq!(sink.0.len(), 1);
    let long = EdgeRow { from_vector: v(1, 1, 0, 0), to_vector: v(2, 2, 0, 0), edge_type: RuntimeEdgeType::Use,
        capability_namespace: Some(b"abcdefghijklmnopqrstuvwxyz".to_vec()), capability_binding: Some(b"b".to_vec()) };
    assert_eq!(text(&edge_rows(&vec![long], None, None, None))[0], "1.1.0.0 -> 2.2.0.0  Use  [abcdefghijklmnopqrst/b]");
}

fn node(plugin_id: u64, name: &str, l4: u16) -> NodeRow {
    NodeRow { vector: v(l4, 1, 0, 0), plugin_id, plugin_name: name.as_bytes().to_vec(),
        node_type: RuntimeNodeType::Service, sub_domain: NodeSubDomain::Service }
}

#[test]
fn plugin_rows_count_nodes_per_plugin() {
    let nodes = vec![node(1, "K_SHELL", 5), node(2, "K_VGA", 1), node(1, "K_SHELL", 5), node(3, "K_AI", 6), node(1, "K_SHELL", 5)];
    let rows = text(&plugin_rows(&nodes));
    assert_eq!(rows, vec!["SHELL         x3", "VGA           x1", "AI            x1"]);
    let mut sink = Sink(Vec::new());
    assert_eq!(show_plugins(&mut sink, &nodes), CypherQueryOutcome::Rows { count: 3 });
    assert_eq!(show_plugins(&mut sink, &Vec::new()), CypherQueryOutcome::Rows { count: 0 });
}

#[test]
fn journal_shows_newest_entries() {
    let e = |k, a| Some(JournalEntry { kind: k, arg0: a, arg1: 0 });
    let entries = vec![e(ControlPlaneMessageKind::Hello, 1), e(ControlPlaneMessageKind::NodeUpsert, 2), None,
        e(ControlPlaneMessageKind::Fault, 4)];
    let rows = text(&journal_rows(&entries, 90, 3));
    assert_eq!(rows, vec!["journal stored=4 lifetime=90", "  1: NodeUpsert arg0=2 arg1=0", "  3: Fault arg0=4 arg1=0"]);
    assert_eq!(journal_rows(&entries, 90, 10).len(), 4);
    assert_eq!(journal_rows(&entries, 90, 0).len(), 1);
    let mut sink = Sink(Vec::new());
    assert_eq!(show_journal(&mut sink, &Vec::new(), 0, 10), CypherQueryOutcome::Rows { count: 1 });
    assert_eq!(text(&sink.0), vec!["journal stored=0 lifetime=0"]);
}

#[test]
fn capability_rows_align_provider() {
    let caps = vec![
        CapabilityRow { plugin_name: b"K_VGA".to_vec(), namespace: b"console".to_vec(), name: b"write".to_vec(), version: 1 },
        CapabilityRow { plugin_name: b"K_AI".to_vec(), namespace: b"graph".to_vec(), name: b"orchestrate".to_vec(), version: 12 },
    ];
    let rows = text(&capability_rows(&caps));
    assert_eq!(rows[0], format!("console/write@v1{}← VGA", " ".repeat(32 - 17)));
    assert_eq!(rows[1], format!("graph/orchestrate@v12{}← AI", " ".repeat(32 - 22)));
}
