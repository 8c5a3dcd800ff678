use gos_kernel::boot::{
    abi_compatible, capability_is_exported, check_load_order, ensure_permissions, first_missing_dependency,
    permission_granted, validate_imports, validate_manifest, AbiVersion, BuiltinBootError, CapabilityName,
    PermissionKind, PermissionSpec, PluginManifest, plan_manifest_edges, ManifestEdge,
};

fn cap(ns: &str, name: &str) -> CapabilityName {
    CapabilityName { namespace: ns.as_bytes().to_vec(), name: name.as_bytes().to_vec() }
}

fn manifest(id: u64, deps: &[u64], exports: Vec<CapabilityName>, imports: Vec<CapabilityName>) -> PluginManifest {
    PluginManifest {
        plugin_id: id,
        abi_version: AbiVersion { major: 1, minor: 0, patch: 0 },
        depends_on: deps.to_vec(),
        exports,
        imports,
    }
}

#[test]
fn abi_major_must_match_and_minor_not_newer() {
    let host = AbiVersion { major: 1, minor: 2, patch: 0 };
    assert!(abi_compatible(AbiVersion { major: 1, minor: 2, patch: 9 }, host));
    assert!(abi_compatible(AbiVersion { major: 1, minor: 0, patch: 0 }, host));
    assert!(!abi_compatible(AbiVersion { major: 1, minor: 3, patch: 0 }, host));
    assert!(!abi_compatible(AbiVersion { major: 2, minor: 0, patch: 0 }, host));
    let mut m = manifest(7, &[], vec![], vec![]);
    assert_eq!(validate_manifest(&m, host), Ok(()));
    m.abi_version.major = 0;
    assert_eq!(validate_manifest(&m, host), Err(BuiltinBootError::AbiVersionMismatch(7)));
}

#[test]
fn wildcard_grants_cover_any_argument() {
    let grants = [
        PermissionSpec { kind: PermissionKind::PortIo, arg0: 0x3F8, arg1: 8 },
        PermissionSpec { kind: PermissionKind::IrqBind, arg0: u64::MAX, arg1: 0 },
        PermissionSpec { kind: PermissionKind::PhysMap, arg0: u64::MAX, arg1: u64::MAX },
    ];
    assert!(permission_granted(PermissionSpec { kind: PermissionKind::PortIo, arg0: 0x3F8, arg1: 8 }, &grants));
    assert!(!permission_granted(PermissionSpec { kind: PermissionKind::PortIo, arg0: 0x2F8, arg1: 8 }, &grants));
    assert!(permission_granted(PermissionSpec { kind: PermissionKind::IrqBind, arg0: 12, arg1: 0 }, &grants));
    assert!(!permission_granted(PermissionSpec { kind: PermissionKind::IrqBind, arg0: 12, arg1: 1 }, &grants));
    assert!(permission_granted(PermissionSpec { kind: PermissionKind::PhysMap, arg0: 0xA0000, arg1: 65536 }, &grants));
    assert!(!permission_granted(PermissionSpec { kind: PermissionKind::GraphRead, arg0: 0, arg1: 0 }, &grants));
    let ok = [PermissionSpec { kind: PermissionKind::PortIo, arg0: 0x3F8, arg1: 8 }];
    assert_eq!(ensure_permissions(3, &ok, &grants), Ok(()));
    assert_eq!(ensure_permissions(3, &[], &[]), Ok(()));
    let bad = [
        PermissionSpec { kind: PermissionKind::PortIo, arg0: 0x3F8, arg1: 8 },
        PermissionSpec { kind: PermissionKind::ScheduleHint, arg0: 0, arg1: 0 },
    ];
    assert_eq!(ensure_permissions(3, &bad, &grants), Err(BuiltinBootError::PermissionDenied(3)));
}

#[test]
fn imports_must_be_exported_by_some_plugin() {
    let vga = manifest(1, &[], vec![cap("console", "write"), cap("display", "pointer")], vec![]);
    let mouse = manifest(2, &[1], vec![], vec![cap("display", "pointer")]);
    let net = manifest(3, &[1], vec![cap("net", "uplink")], vec![cap("console", "write")]);
    let mods = vec![vga.clone(), mouse.clone(), net.clone()];
    assert!(capability_is_exported(&cap("console", "write"), &mods));
    assert!(!capability_is_exported(&cap("console", "pointer"), &mods));
    assert_eq!(validate_imports(&mods), Ok(()));
    let chat = manifest(4, &[], vec![], vec![cap("console", "write"), cap("chat", "bridge")]);
    let mods = vec![vga, mouse, net, chat];
    assert_eq!(validate_imports(&mods), Err(BuiltinBootError::UnresolvedImport(4, b"bridge".to_vec())));
}

#[test]
fn dependencies_must_load_first() {
    assert_eq!(first_missing_dependency(&[1, 2], &[true, true], &[1, 2]), None);
    assert_eq!(first_missing_dependency(&[1, 2], &[true, false], &[1, 2]), Some(2));
    assert_eq!(first_missing_dependency(&[9], &[true], &[1]), Some(9));
    assert_eq!(first_missing_dependency(&[], &[], &[]), None);

    let pic = manifest(10, &[], vec![], vec![]);
    let pit = manifest(11, &[10], vec![], vec![]);
    let idt = manifest(12, &[11, 10], vec![], vec![]);
    let ordered = vec![pic.clone(), pit.clone(), idt.clone()];
    assert_eq!(check_load_order(&ordered), Ok(vec![true, true, true]));
    let swapped = vec![pic.clone(), idt.clone(), pit.clone()];
    assert_eq!(check_load_order(&swapped), Err(BuiltinBootError::MissingDependency(11)));
    let self_dep = vec![manifest(5, &[5], vec![], vec![])];
    assert_eq!(check_load_order(&self_dep), Err(BuiltinBootError::MissingDependency(5)));
    assert_eq!(check_load_order(&[]), Ok(vec![]));
}

#[test]
fn manifest_edges_follow_dependencies_and_imports() {
    let modules = vec![
        manifest(1, &[], vec![cap("fs", "read"), cap("fs", "write")], vec![]),
        manifest(2, &[1], vec![], vec![cap("fs", "write"), cap("net", "tx")]),
        manifest(3, &[1, 2], vec![cap("fs", "write")], vec![cap("fs", "write")]),
        manifest(4, &[9], vec![], vec![]),
    ];
    let primary = [Some(100), Some(200), Some(300), None];
    let (edges, missing) = plan_manifest_edges(&modules, &primary);
    assert_eq!(missing, None);
    assert_eq!(
        edges,
        vec![
            ManifestEdge::Depend { from: 200, to: 100 },
            ManifestEdge::Mount { from: 200, to: 100, provider: 0, export: 1 },
            ManifestEdge::Depend { from: 300, to: 100 },
            ManifestEdge::Depend { from: 300, to: 200 },
            ManifestEdge::Mount { from: 300, to: 100, provider: 0, export: 1 },
        ]
    );
}

#[test]
fn manifest_edges_skip_providers_without_a_node() {
    let modules = vec![
        manifest(1, &[], vec![cap("fs", "read")], vec![]),
        manifest(2, &[], vec![cap("fs", "read")], vec![]),
        manifest(3, &[], vec![], vec![cap("fs", "read")]),
    ];
    let (edges, missing) = plan_manifest_edges(&modules, &[None, Some(20), Some(30)]);
    assert_eq!(missing, None);
    assert_eq!(edges, vec![ManifestEdge::Mount { from: 30, to: 20, provider: 1, export: 0 }]);
}

#[test]
fn manifest_edges_stop_at_a_dependency_without_a_node() {
    let modules = vec![
        manifest(1, &[], vec![], vec![]),
        manifest(2, &[1, 5, 1], vec![], vec![]),
        manifest(3, &[1], vec![], vec![]),
    ];
    let (edges, missing) = plan_manifest_edges(&modules, &[Some(10), Some(20), Some(30)]);
    assert_eq!(missing, Some(5));
    assert_eq!(edges, vec![ManifestEdge::Depend { from: 20, to: 10 }]);
    // A dependency whose plugin has no node is missing too.
    let (edges, missing) = plan_manifest_edges(&modules[..2], &[None, Some(20)]);
    assert_eq!(missing, Some(1));
    assert!(edges.is_empty());
}
