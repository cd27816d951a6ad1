use lau_conservation_guard::{BaseCost, OperationType};

/// The amount of a base cost in conservation units.
fn units(cost: BaseCost) -> f64 {
    cost.whole as f64 + cost.tenths as f64 / 10.0
}

#[test]
fn test_operation_type_base_cost_text_response() {
    let op = OperationType::TextResponse(42);
    assert_eq!(units(op.base_cost()), 42.0);
}

#[test]
fn test_operation_type_base_cost_code_generation() {
    let op = OperationType::CodeGeneration(100);
    assert_eq!(units(op.base_cost()), 100.0);
}

#[test]
fn test_operation_type_base_cost_tool_execution() {
    let op = OperationType::ToolExecution(15);
    assert_eq!(units(op.base_cost()), 15.0);
}

#[test]
fn test_operation_type_base_cost_phone_a_friend() {
    let op = OperationType::PhoneAFriend(7);
    assert_eq!(units(op.base_cost()), 7.0);
}

#[test]
fn test_operation_type_base_cost_provenance_commit() {
    let op = OperationType::ProvenanceCommit;
    assert_eq!(units(op.base_cost()), 1.0);
}

#[test]
fn test_operation_type_base_cost_correlation_scan() {
    let op = OperationType::CorrelationScan;
    assert_eq!(units(op.base_cost()), 5.0);
}

#[test]
fn test_operation_type_base_cost_ensign_wake() {
    let op = OperationType::EnsignWake;
    assert_eq!(units(op.base_cost()), 2.0);
}

#[test]
fn test_operation_type_base_cost_ensign_tick() {
    let op = OperationType::EnsignTick;
    assert_eq!(units(op.base_cost()), 0.5);
}

#[test]
fn test_operation_type_base_cost_deadband_check() {
    let op = OperationType::DeadbandCheck;
    assert_eq!(units(op.base_cost()), 0.1);
}

#[test]
fn test_operation_type_base_cost_room_routing() {
    let op = OperationType::RoomRouting;
    assert_eq!(units(op.base_cost()), 0.5);
}

#[test]
fn test_operation_type_base_cost_tile_create() {
    let op = OperationType::TileCreate;
    assert_eq!(units(op.base_cost()), 1.0);
}

#[test]
fn test_operation_type_base_cost_tile_query() {
    let op = OperationType::TileQuery;
    assert_eq!(units(op.base_cost()), 0.5);
}

#[test]
fn base_cost_keeps_large_payloads_exact() {
    let cost = OperationType::ToolExecution(u64::MAX).base_cost();
    assert_eq!(cost, BaseCost { whole: u64::MAX, tenths: 0 });
    assert_eq!(units(cost), u64::MAX as f64);
}

#[test]
fn fractional_base_costs_use_tenths() {
    assert_eq!(OperationType::DeadbandCheck.base_cost(), BaseCost { whole: 0, tenths: 1 });
    assert_eq!(OperationType::EnsignTick.base_cost(), BaseCost { whole: 0, tenths: 5 });
    assert_eq!(OperationType::CorrelationScan.base_cost(), BaseCost { whole: 5, tenths: 0 });
}

#[test]
fn operation_names_drop_the_payload() {
    assert_eq!(OperationType::TextResponse(10).name(), "TextResponse");
    assert_eq!(OperationType::TextResponse(20).name(), "TextResponse");
    assert_eq!(OperationType::CodeGeneration(20).name(), "CodeGeneration");
    assert_eq!(OperationType::ToolExecution(1).name(), "ToolExecution");
    assert_eq!(OperationType::PhoneAFriend(1).name(), "PhoneAFriend");
    assert_eq!(OperationType::ProvenanceCommit.name(), "ProvenanceCommit");
    assert_eq!(OperationType::CorrelationScan.name(), "CorrelationScan");
    assert_eq!(OperationType::EnsignWake.name(), "EnsignWake");
    assert_eq!(OperationType::EnsignTick.name(), "EnsignTick");
    assert_eq!(OperationType::DeadbandCheck.name(), "DeadbandCheck");
    assert_eq!(OperationType::RoomRouting.name(), "RoomRouting");
    assert_eq!(OperationType::TileCreate.name(), "TileCreate");
    assert_eq!(OperationType::TileQuery.name(), "TileQuery");
}

#[test]
fn operations_compare_by_kind_and_payload() {
    assert_eq!(OperationType::TextResponse(10), OperationType::TextResponse(10));
    assert_ne!(OperationType::TextResponse(10), OperationType::TextResponse(20));
    assert_ne!(OperationType::TextResponse(10), OperationType::CodeGeneration(10));
}
