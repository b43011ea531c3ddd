use codegraph::bridge::{
    current_rid, executable_mode, locate_helper, Bridge, BridgeError, HelperCandidate,
    HelperProbe, LocateError,
};

fn cand(path: &str, is_file: bool, mode: Option<u32>) -> HelperCandidate {
    HelperCandidate { path: path.to_string(), is_file, mode }
}

fn probe(env: Option<HelperCandidate>, bundled: Vec<HelperCandidate>, dev_exists: bool) -> HelperProbe {
    HelperProbe {
        env_override: env,
        bundled,
        dev: cand("/repo/managed/publish/RoslynBridge", dev_exists, None),
        rid: "linux-x64".to_string(),
    }
}

#[test]
fn installed_bundled_layout_is_found() {
    let p = probe(
        None,
        vec![cand("/res/resources/roslyn-bridge/RoslynBridge", true, Some(0o755)), cand("/res/roslyn-bridge/RoslynBridge", false, None)],
        true,
    );
    let bridge = Bridge::init_with_resource_dir(&p).expect("resolve bundled helper");
    assert_eq!(bridge.helper_path(), "/res/resources/roslyn-bridge/RoslynBridge");
    assert_eq!(bridge.pending_mode(), None);
}

#[test]
fn flattened_bundled_layout_is_found() {
    let p = probe(
        None,
        vec![cand("/res/resources/roslyn-bridge/RoslynBridge", false, None), cand("/res/roslyn-bridge/RoslynBridge", true, Some(0o644))],
        false,
    );
    let bridge = Bridge::init_with_resource_dir(&p).expect("resolve flattened helper");
    assert_eq!(bridge.helper_path(), "/res/roslyn-bridge/RoslynBridge");
    assert_eq!(bridge.pending_mode(), Some(0o755));
}

#[test]
fn env_override_wins_over_resource_dir() {
    let p = probe(
        Some(cand("/tmp/custom-RoslynBridge", true, None)),
        vec![cand("/res/resources/roslyn-bridge/RoslynBridge", true, Some(0o755))],
        true,
    );
    let resolved = Bridge::init_with_resource_dir(&p).expect("resolve with env override");
    assert_eq!(resolved.helper_path(), "/tmp/custom-RoslynBridge");
}

#[test]
fn override_that_is_not_a_file_is_an_error() {
    let p = probe(Some(cand("/nope", false, None)), vec![], true);
    let err = Bridge::init(&p).expect_err("override must exist");
    assert_eq!(err, BridgeError::NotFoundInTree(LocateError::OverrideNotAFile("/nope".into())));
    assert!(err.message().starts_with("could not locate a RoslynBridge bundle for this platform; build one once"));
    assert_eq!(
        LocateError::OverrideNotAFile("/nope".into()).message(),
        "CODEGRAPH_ROSLYN_BRIDGE set but not a file: /nope"
    );
}

#[test]
fn init_ignores_bundles_and_falls_back_to_the_dev_tree() {
    let bundled = vec![cand("/res/roslyn-bridge/RoslynBridge", true, None)];
    let p = probe(None, bundled.clone(), true);
    assert_eq!(Bridge::init(&p).unwrap().helper_path(), "/repo/managed/publish/RoslynBridge");
    let p = probe(None, bundled, false);
    match Bridge::init(&p) {
        Err(BridgeError::NotFoundInTree(e)) => assert_eq!(
            e.message(),
            "no RoslynBridge bundle for linux-x64 at /repo/managed/publish/RoslynBridge"
        ),
        other => panic!("unexpected: {:?}", other.map(|b| b.helper_path().to_string())),
    }
    let p = probe(None, vec![], false);
    assert!(matches!(Bridge::init_with_resource_dir(&p), Err(BridgeError::NotFoundInstalled(_))));
    assert!(locate_helper(&p, true).is_err());
}

#[test]
fn execute_bits_are_restored_only_when_missing() {
    assert_eq!(executable_mode(0o644), Some(0o755));
    assert_eq!(executable_mode(0o600), Some(0o755));
    assert_eq!(executable_mode(0o100644), Some(0o100755));
    assert_eq!(executable_mode(0o744), None);
    assert_eq!(executable_mode(0o001), None);
}

#[test]
fn rids_name_the_supported_platforms() {
    assert_eq!(current_rid("linux", "x86_64"), Some("linux-x64"));
    assert_eq!(current_rid("linux", "aarch64"), Some("linux-arm64"));
    assert_eq!(current_rid("macos", "aarch64"), Some("osx-arm64"));
    assert_eq!(current_rid("macos", "x86_64"), Some("osx-x64"));
    assert_eq!(current_rid("windows", "x86_64"), Some("win-x64"));
    assert_eq!(current_rid("windows", "aarch64"), Some("win-arm64"));
    assert_eq!(current_rid("freebsd", "x86_64"), None);
}

#[test]
fn fixture_bridge_and_helper_output() {
    let bridge = Bridge::from_json("{}").expect("fixture bridge");
    assert_eq!(bridge.helper_path(), "<test-fixture>");
    assert_eq!(bridge.document_from_output("  {\"methods\":[]}\n").unwrap(), "{\"methods\":[]}");
    assert_eq!(bridge.document_from_output(" \n\t"), Err(BridgeError::EmptyOutput));
    assert_eq!(BridgeError::EmptyOutput.message(), "RoslynBridge returned no output");
}
