use backtester_core::types::Side;

#[test]
fn numa_module_compiles() {
    // Smoke test: the library compiles and its public items are accessible.
    let _ = std::mem::size_of::<()>();
    assert_eq!(Side::Buy.as_i8(), 1);
}
