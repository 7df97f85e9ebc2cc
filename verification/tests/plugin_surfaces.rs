use rtok::plugin::{wasm_surfaces, Surface, WasmSurfaceError};
use rtok::wire::{adds_usage_opt_in, StreamOptions};

fn names(v: &[&str]) -> Vec<String> {
    v.iter().map(|s| s.to_string()).collect()
}

#[test]
fn wasm_manifest_surfaces_keep_the_allowed_ones_in_order() {
    let r = wasm_surfaces(&names(&["proxy", "dashboard", "mcp"])).ok().unwrap();
    assert_eq!(r, vec![Surface::Proxy, Surface::Mcp]);
}

#[test]
fn wasm_manifest_with_hook_is_refused() {
    let e = wasm_surfaces(&names(&["mcp", "hook"])).err().unwrap();
    assert_eq!(e, WasmSurfaceError::Hook);
    assert_eq!(e.message(), "wasm plugin declares hook surface");
}

#[test]
fn wasm_manifest_without_allowed_surfaces_is_refused() {
    let e = wasm_surfaces(&names(&["dashboard"])).err().unwrap();
    assert_eq!(e, WasmSurfaceError::NoneAllowed);
    assert_eq!(e.message(), "wasm plugin has no allowed surfaces");
    assert_eq!(wasm_surfaces(&Vec::new()).err().unwrap(), WasmSurfaceError::NoneAllowed);
}

#[test]
fn usage_opt_in_only_for_streams_without_a_caller_choice() {
    assert!(adds_usage_opt_in(true, true, &StreamOptions::Absent));
    assert!(adds_usage_opt_in(true, true, &StreamOptions::Object { has_include_usage: false }));
    assert!(!adds_usage_opt_in(true, true, &StreamOptions::Object { has_include_usage: true }));
    assert!(!adds_usage_opt_in(true, true, &StreamOptions::NotObject));
    assert!(!adds_usage_opt_in(true, false, &StreamOptions::Absent));
    assert!(!adds_usage_opt_in(false, true, &StreamOptions::Absent));
}
