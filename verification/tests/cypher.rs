use gos_kernel::cypher::rows::{
    decimal_width, dispatch_cypher_query, format_node_row, node_rows, show_nodes, trim_k_prefix, DispatchStep,
    NodeRow, QueryEmitter, RowBuf, RuntimeNodeType,
};
use gos_kernel::cypher::text::{
    ascii_lower, contains_ci, eq_ci, extract_quoted_at, extract_quoted_value_ci, extract_quoted_value_word,
    find_ci, next_token, parse_limit, parse_unsigned_range, skip_eq_colon_ws, starts_with_ci,
};
use gos_kernel::cypher::{
    match_class_token, match_kind_token, mutation_outcome, parse_deadline_value, parse_priority_value,
    parse_query_limit, parse_with_value, plan_console_query, plan_mutation, plan_query, ConsolePlan,
    CypherDispatchOutcome, CypherQueryOutcome, EdgeMutationKind, EndpointFilter, MutationError, MutationPlan,
    NodeSubDomain, QueryPlan, QueryResult, RuntimeEdgeType, ShellCounters, console_reply, ConsoleSeg,
};
use gos_kernel::protocol::VectorAddress;

struct Rows(Vec<Vec<u8>>);

impl QueryEmitter for Rows {
    fn emit_row(&mut self, row: &[u8]) {
        self.0.push(row.to_vec());
    }
}

fn v(a: u16, b: u16, c: u16, d: u16) -> VectorAddress {
    VectorAddress::new(a, b, c, d)
}

#[test]
fn text_scanning_helpers() {
    assert_eq!(ascii_lower(b'Q'), b'q');
    assert!(starts_with_ci(b"SHOW nodes", b"show"));
    assert!(!starts_with_ci(b"sh", b"show"));
    assert!(eq_ci(b"Hello", b"hELLO"));
    assert!(!eq_ci(b"Hello", b"Hell"));
    assert_eq!(find_ci(b"abcLIMIT 3", b"limit"), Some(3));
    assert_eq!(find_ci(b"abc", b""), None);
    assert!(contains_ci(b"xx WITH 9", b"with"));
    assert_eq!(next_token(b"  42, x", 0), Some((2, 4)));
    assert_eq!(next_token(b"   ", 0), None);
    assert_eq!(parse_unsigned_range(b"+255", 0, 4, 255), Some(255));
    assert_eq!(parse_unsigned_range(b"256", 0, 3, 255), None);
    assert_eq!(parse_unsigned_range(b"1x", 0, 2, 255), None);
    assert_eq!(skip_eq_colon_ws(b"a = :b", 1), 5);
    assert_eq!(extract_quoted_at(b"x 'a' \"bc\"", 1), Some((7, 9)));
    assert_eq!(extract_quoted_at(b"x 'a'", 1), None);
    assert_eq!(extract_quoted_value_ci(b"{VECTOR: '1.2.3.4'}", b"vector"), Some((10, 17)));
    assert_eq!(extract_quoted_value_word(b"from '1.1.0.0' to '2.2.0.0'", b"to"), Some((19, 26)));
}

#[test]
fn match_limits_are_clamped() {
    assert_eq!(parse_limit(b"MATCH (n) RETURN n LIMIT 3"), 3);
    assert_eq!(parse_limit(b"match (n) return n"), 6);
    assert_eq!(parse_limit(b"match limit 99"), 12);
    assert_eq!(parse_limit(b"match limit 0"), 1);
    assert_eq!(parse_limit(b"match limit x"), 6);
}

#[test]
fn class_and_kind_tokens() {
    assert_eq!(match_class_token(b"HW"), Some(NodeSubDomain::Hardware));
    assert_eq!(match_class_token(b"kerneldriver"), Some(NodeSubDomain::KernelDriver));
    assert_eq!(match_class_token(b"router"), Some(NodeSubDomain::Routing));
    assert_eq!(match_class_token(b"gpu"), None);
    assert_eq!(match_kind_token(b"MOUNT"), Some(RuntimeEdgeType::Mount));
    assert_eq!(match_kind_token(b"link"), Some(RuntimeEdgeType::Link));
    assert_eq!(match_kind_token(b"nope"), None);
}

#[test]
fn mutations_parse() {
    assert_eq!(plan_mutation(b"show nodes", false), MutationPlan::NotCypher);
    assert_eq!(
        plan_mutation(b"CREATE MOUNT '1.1.0.0' -> '2.2.0.0'", false),
        MutationPlan::Connect { label: "create mount", kind: EdgeMutationKind::Mount, from: v(1, 1, 0, 0), to: v(2, 2, 0, 0) }
    );
    assert_eq!(
        plan_mutation(b"link '1.1.0.0' '3.0.0.1'", false),
        MutationPlan::Connect { label: "link", kind: EdgeMutationKind::Link, from: v(1, 1, 0, 0), to: v(3, 0, 0, 1) }
    );
    assert_eq!(plan_mutation(b"delete edge 'e:4.3.2.1'", false), MutationPlan::DeleteEdge { edge: v(4, 3, 2, 1) });
    assert_eq!(plan_mutation(b"delete edge", false), MutationPlan::BadSyntax("delete edge requires 'e:V' literal"));
    assert_eq!(plan_mutation(b"delete edge 'e:4.3'", false), MutationPlan::BadSyntax("delete edge: bad edge vector"));
    assert_eq!(plan_mutation(b"create use '1.1.0.0'", false), MutationPlan::BadSyntax("mutation requires 'V_to' literal"));
    assert_eq!(plan_mutation(b"rebind use 'x' '1.1.0.0'", false), MutationPlan::BadSyntax("bad V_from"));
    assert_eq!(plan_mutation(b"create (n:Node)", true), MutationPlan::CreateNode);
    assert_eq!(plan_mutation(b"create (n:Node)", false), MutationPlan::NotCypher);
}

#[test]
fn mutation_outcomes() {
    let plan = plan_mutation(b"create use '1.1.0.0' '2.2.0.0'", false);
    assert_eq!(mutation_outcome(plan, Some(1), Some(2), Ok(())), CypherDispatchOutcome::Applied("create use"));
    assert_eq!(mutation_outcome(plan, None, Some(2), Ok(())), CypherDispatchOutcome::EndpointNotFound("V_from node not found"));
    assert_eq!(mutation_outcome(plan, Some(1), None, Ok(())), CypherDispatchOutcome::EndpointNotFound("V_to node not found"));
    assert_eq!(
        mutation_outcome(plan, Some(1), Some(2), Err(MutationError::DispatcherRejected(3))),
        CypherDispatchOutcome::DispatchFailed(MutationError::DispatcherRejected(3))
    );
    let del = plan_mutation(b"delete edge '4.3.2.1'", false);
    assert_eq!(mutation_outcome(del, None, None, Ok(())), CypherDispatchOutcome::EndpointNotFound("delete edge: not found"));
    assert_eq!(mutation_outcome(del, Some(9), None, Ok(())), CypherDispatchOutcome::Applied("delete edge"));
}

#[test]
fn read_queries_plan() {
    assert_eq!(plan_query(b"hello"), QueryPlan::NotQuery);
    assert_eq!(plan_query(b"show stats"), QueryPlan::Stats);
    assert_eq!(plan_query(b"SHOW CAPS"), QueryPlan::Capabilities);
    assert_eq!(plan_query(b"show nodes"), QueryPlan::Nodes { class: None });
    assert_eq!(plan_query(b"show nodes of class service"), QueryPlan::Nodes { class: Some(NodeSubDomain::Service) });
    assert_eq!(
        plan_query(b"show nodes where class = banana"),
        QueryPlan::BadSyntax("unknown class (try Hardware/Driver/Service/Compute/Routing/Vector)")
    );
    assert_eq!(plan_query(b"show journal limit 3"), QueryPlan::Journal { limit: 3 });
    assert_eq!(plan_query(b"show journal"), QueryPlan::Journal { limit: 10 });
    assert_eq!(plan_query(b"show plugins"), QueryPlan::Plugins);
    assert_eq!(
        plan_query(b"set priority '1.2.0.0' = 7"),
        QueryPlan::SetPriority { literal: (14, 21), vector: v(1, 2, 0, 0), value: Some(7) }
    );
    assert_eq!(
        plan_query(b"set priority '1.2.0.0' = 300"),
        QueryPlan::SetPriority { literal: (14, 21), vector: v(1, 2, 0, 0), value: None }
    );
    assert_eq!(plan_query(b"set priority"), QueryPlan::BadSyntax("set priority requires 'V' literal"));
    assert_eq!(
        plan_query(b"invoke '6.2.0.0' with 5"),
        QueryPlan::Invoke { literal: (8, 15), vector: v(6, 2, 0, 0), request: 5 }
    );
    assert_eq!(
        plan_query(b"invoke '6.2.0.0'"),
        QueryPlan::Invoke { literal: (8, 15), vector: v(6, 2, 0, 0), request: 0 }
    );
    assert_eq!(
        plan_query(b"show edges of kind mount from '1.1.0.0' to 'x'"),
        QueryPlan::Edges { kind: Some(RuntimeEdgeType::Mount), from: EndpointFilter::At(v(1, 1, 0, 0)), to: EndpointFilter::Bad }
    );
}

#[test]
fn numeric_query_arguments() {
    assert_eq!(parse_deadline_value(b"set deadline '1.1.0.0' = 123456789012"), Some(123456789012));
    assert_eq!(parse_deadline_value(b"set deadline '1.1.0.0'"), None);
    assert_eq!(parse_priority_value(b"x = 255"), Some(255));
    assert_eq!(parse_priority_value(b"x = 256"), None);
    assert_eq!(parse_with_value(b"invoke 'v' WITH 42"), Some(42));
    assert_eq!(parse_with_value(b"invoke 'v'"), None);
    assert_eq!(parse_query_limit(b"show journal limit 25"), 25);
    assert_eq!(parse_query_limit(b"show journal limit -1"), 10);
}

#[test]
fn console_queries_plan() {
    assert_eq!(plan_console_query(b"   "), ConsolePlan::Help);
    assert_eq!(plan_console_query(b"hello"), ConsolePlan::NotMatch);
    assert_eq!(plan_console_query(b"CREATE (n:Node)"), ConsolePlan::Mutation(MutationPlan::CreateNode));
    assert_eq!(
        plan_console_query(b"MATCH (n {vector:'2.1.0.0'}) CALL activate(n)"),
        ConsolePlan::Activate(Some(v(2, 1, 0, 0)))
    );
    assert_eq!(plan_console_query(b"match (n) return n limit 4"), ConsolePlan::NodeList { limit: 4 });
    assert_eq!(plan_console_query(b"match (n {vector:'3.3.0.0'}) return n"), ConsolePlan::NodeDetail(v(3, 3, 0, 0)));
    assert_eq!(plan_console_query(b"match (e {vector:'e:1.2.3.4'}) return e"), ConsolePlan::EdgeDetail(v(1, 2, 3, 4)));
    assert_eq!(plan_console_query(b"match ()-[e]->() return e"), ConsolePlan::EdgeList { limit: 6 });
}

#[test]
fn row_buffers_and_labels() {
    let mut r = RowBuf::<8>::new();
    r.push_str("ab");
    r.push_dec(12345);
    r.push_bytes(b"zz");
    assert_eq!(r.as_bytes(), b"ab12345z");
    assert_eq!(decimal_width(0), 1);
    assert_eq!(decimal_width(999), 3);
    assert_eq!(decimal_width(u64::MAX), 20);
    assert_eq!(trim_k_prefix(b"K_SHELL"), b"SHELL".to_vec());
    assert_eq!(trim_k_prefix(b"AI"), b"AI".to_vec());
}

fn nodes() -> Vec<NodeRow> {
    vec![
        NodeRow { vector: v(1, 1, 0, 0), plugin_id: 7, plugin_name: b"K_VGA".to_vec(), node_type: RuntimeNodeType::Driver, sub_domain: NodeSubDomain::KernelDriver },
        NodeRow { vector: v(6, 2, 0, 0), plugin_id: 9, plugin_name: b"K_AI".to_vec(), node_type: RuntimeNodeType::Aggregator, sub_domain: NodeSubDomain::Service },
    ]
}

#[test]
fn node_rows_format_and_filter() {
    let n = nodes();
    assert_eq!(format_node_row(&n[0]).as_bytes(), b"1.1.0.0  VGA           DRV / Driver");
    let rows = node_rows(&n, Some(NodeSubDomain::Service));
    assert_eq!(rows, vec![b"6.2.0.0  AI            AGG / Service".to_vec()]);
    let mut e = Rows(Vec::new());
    assert_eq!(show_nodes(&mut e, &n, None), CypherQueryOutcome::Rows { count: 2 });
    assert_eq!(e.0.len(), 2);
}

#[test]
fn dispatch_answers_what_needs_no_runtime() {
    let n = nodes();
    let mut e = Rows(Vec::new());
    assert_eq!(dispatch_cypher_query(b"hello", &mut e, &n), DispatchStep::Done(CypherQueryOutcome::NotQuery));
    assert_eq!(
        dispatch_cypher_query(b"show nodes of class vector", &mut e, &n),
        DispatchStep::Done(CypherQueryOutcome::Rows { count: 0 })
    );
    assert_eq!(dispatch_cypher_query(b"show stats", &mut e, &n), DispatchStep::Runtime(QueryPlan::Stats));
}

#[test]
fn shell_counters_follow_query_outcomes() {
    let mut c = ShellCounters::new();
    c.record(&plan_console_query(b""), QueryResult::Done);
    assert_eq!((c.executions, c.faults), (0, 0));
    c.record(&plan_console_query(b"hello"), QueryResult::Done);
    assert_eq!((c.executions, c.faults), (0, 1));
    c.record(&plan_console_query(b"MATCH (n) RETURN n"), QueryResult::Done);
    assert_eq!((c.executions, c.faults), (1, 1));
    c.record(&plan_console_query(b"MATCH (n) CALL activate(n)"), QueryResult::Failed);
    assert_eq!((c.executions, c.faults), (2, 1));
    c.record(&plan_console_query(b"MATCH (n {vector:'2.1.0.0'}) CALL activate(n)"), QueryResult::Failed);
    assert_eq!((c.executions, c.faults), (3, 2));
    c.record(&plan_console_query(b"MATCH (n) WHERE x"), QueryResult::Done);
    assert_eq!((c.executions, c.faults), (4, 3));
    c.record(
        &plan_console_query(b"CREATE (n:Node)"),
        QueryResult::Mutation(CypherDispatchOutcome::Applied("create node")),
    );
    assert_eq!((c.executions, c.faults), (5, 3));
    c.record(
        &plan_console_query(b"DELETE EDGE 'e:1'"),
        QueryResult::Mutation(CypherDispatchOutcome::BadSyntax("delete edge: bad edge vector")),
    );
    assert_eq!((c.executions, c.faults), (6, 4));
    let mut full = ShellCounters { executions: usize::MAX, faults: usize::MAX };
    full.record(&ConsolePlan::Unsupported, QueryResult::Done);
    assert_eq!((full.executions, full.faults), (usize::MAX, usize::MAX));
}

#[test]
fn console_reply_prints_fixed_shell_text() {
    let r = console_reply(&plan_console_query(b"hello world"), QueryResult::Done);
    assert_eq!(r.len(), 3 + 20);
    assert_eq!(r[0], ConsoleSeg::Color(12));
    assert_eq!(r[1], ConsoleSeg::Text("cypher> only MATCH-based queries are supported in v1\n"));
    assert_eq!(r[2], ConsoleSeg::Color(7));
    assert_eq!(r[4], ConsoleSeg::Text("cypher> supported subset\n"));
    assert_eq!(r[22], ConsoleSeg::Text("  CREATE (n)\n"));
    let help = console_reply(&plan_console_query(b"  "), QueryResult::Done);
    assert_eq!(&r[3..], &help[..]);
    let u = console_reply(&plan_console_query(b"MATCH (n) WHERE x"), QueryResult::Done);
    assert_eq!(u[1], ConsoleSeg::Text("cypher> unsupported MATCH clause\n"));
    let a = console_reply(&plan_console_query(b"MATCH (n) CALL activate(n)"), QueryResult::Done);
    assert_eq!(a, vec![ConsoleSeg::Color(12), ConsoleSeg::Text("cypher> activate requires node vector filter\n")]);
    let v = VectorAddress { l4: 2, l3: 1, l2: 0, offset: 0 };
    let f = console_reply(&plan_console_query(b"MATCH (n {vector:'2.1.0.0'}) CALL spawn(n)"), QueryResult::Failed);
    assert_eq!(f, vec![ConsoleSeg::Color(12), ConsoleSeg::Text("cypher> spawn failed "), ConsoleSeg::Vector(v),
        ConsoleSeg::Text("\n"), ConsoleSeg::Color(7)]);
    let m = console_reply(&ConsolePlan::Mutation(MutationPlan::DeleteEdge { edge: v }),
        QueryResult::Mutation(CypherDispatchOutcome::DispatchFailed(MutationError::DispatcherRejected(9))));
    assert_eq!(m, vec![ConsoleSeg::Color(12), ConsoleSeg::Text("cypher> "), ConsoleSeg::Text("delete edge"),
        ConsoleSeg::Text(" rejected: "), ConsoleSeg::Text("gate("), ConsoleSeg::Number(9), ConsoleSeg::Text(")"),
        ConsoleSeg::Text("\n"), ConsoleSeg::Color(7)]);
}
