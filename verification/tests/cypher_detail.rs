use gos_kernel::cypher::detail::{
    edge_brief, edge_detail, node_brief, node_detail, EdgeSummary, NodeLifecycle, NodeSummary, TelemetryEntry,
    TelemetryUnit, TextRun, BODY_COLOR, HEADING_COLOR, SUBHEADING_COLOR,
};
use gos_kernel::cypher::rows::RuntimeNodeType;
use gos_kernel::cypher::RuntimeEdgeType;
use gos_kernel::protocol::VectorAddress;

fn v(a: u16, b: u16, c: u16, d: u16) -> VectorAddress {
    VectorAddress { l4: a, l3: b, l2: c, offset: d }
}

fn node() -> NodeSummary {
    NodeSummary {
        vector: v(6, 1, 0, 0),
        plugin_name: b"K_SHELL".to_vec(),
        local_node_key: b"shell.entry".to_vec(),
        node_type: RuntimeNodeType::PluginEntry,
        lifecycle: NodeLifecycle::Running,
        export_count: 3,
    }
}

fn edge(cap: bool) -> EdgeSummary {
    EdgeSummary {
        edge_vector: v(6, 1, 0, 2),
        edge_type: RuntimeEdgeType::Mount,
        from_vector: v(6, 1, 0, 0),
        from_key: b"shell.entry".to_vec(),
        to_vector: v(2, 0, 0, 1),
        to_key: b"vga.out".to_vec(),
        capability_namespace: if cap { Some(b"console".to_vec()) } else { None },
        capability_binding: Some(b"write".to_vec()),
    }
}

fn run(color: u8, text: &str) -> TextRun {
    TextRun { color, text: text.as_bytes().to_vec() }
}

#[test]
fn node_and_edge_briefs() {
    assert_eq!(node_brief(&node()), b"6.1.0.0 K_SHELL/shell.entry entry run\n".to_vec());
    assert_eq!(edge_brief(&edge(true)), b"e:6.1.0.2 mount 6.1.0.0 -> 2.0.0.1 cap=console/write\n".to_vec());
    // Both halves of the capability are needed to show it.
    assert_eq!(edge_brief(&edge(false)), b"e:6.1.0.2 mount 6.1.0.0 -> 2.0.0.1\n".to_vec());
}

#[test]
fn node_detail_with_and_without_readings() {
    let body = "  vector: 6.1.0.0\n  plugin: K_SHELL\n  key: shell.entry\n  type: entry\n  state: run\n  exports: 3\n";
    assert_eq!(node_detail(&node(), &None), vec![run(HEADING_COLOR, "cypher> node\n"), run(BODY_COLOR, body)]);
    assert_eq!(node_detail(&node(), &Some(vec![])), vec![run(HEADING_COLOR, "cypher> node\n"), run(BODY_COLOR, body)]);
    let readings = vec![
        TelemetryEntry { key: b"heap".to_vec(), value: 4096, unit: TelemetryUnit::Bytes },
        TelemetryEntry { key: b"load".to_vec(), value: 37, unit: TelemetryUnit::Percent },
        TelemetryEntry { key: b"ticks".to_vec(), value: 9, unit: TelemetryUnit::Plain },
        TelemetryEntry { key: vec![], value: 1, unit: TelemetryUnit::MiB },
        TelemetryEntry { key: b"hidden".to_vec(), value: 2, unit: TelemetryUnit::KiB },
    ];
    assert_eq!(
        node_detail(&node(), &Some(readings)),
        vec![
            run(HEADING_COLOR, "cypher> node\n"),
            run(BODY_COLOR, body),
            run(SUBHEADING_COLOR, "  telemetry:\n"),
            run(BODY_COLOR, "    heap: 4096 B\n    load: 37 %\n    ticks: 9\n"),
        ]
    );
}

#[test]
fn edge_detail_block() {
    assert_eq!(
        edge_detail(&edge(true)),
        vec![
            run(HEADING_COLOR, "cypher> edge\n"),
            run(
                BODY_COLOR,
                "  vector: e:6.1.0.2\n  type: mount\n  from: 6.1.0.0 (shell.entry)\n  to: 2.0.0.1 (vga.out)\n  cap: console/write\n"
            ),
        ]
    );
    assert_eq!(
        edge_detail(&edge(false))[1],
        run(BODY_COLOR, "  vector: e:6.1.0.2\n  type: mount\n  from: 6.1.0.0 (shell.entry)\n  to: 2.0.0.1 (vga.out)\n")
    );
}
