use vstd::prelude::*;

verus! {

/// Types of operations that cost conservation units.
#[derive(Debug, Clone, PartialEq, Eq, Hash, Structural)]
pub enum OperationType {
    TextResponse(u64),
    CodeGeneration(u64),
    ToolExecution(u64),
    PhoneAFriend(u64),
    ProvenanceCommit,
    CorrelationScan,
    EnsignWake,
    EnsignTick,
    DeadbandCheck,
    RoomRouting,
    TileCreate,
    TileQuery,
}

/// A base cost written as a decimal with one fractional digit:
/// the amount is `whole + tenths / 10` conservation units.
#[derive(Debug, Clone, Copy, PartialEq, Eq, Structural)]
pub struct BaseCost {
    pub whole: u64,
    pub tenths: u8,
}

impl BaseCost {
    /// The amount in tenths of a conservation unit.
    pub open spec fn in_tenths(self) -> int {
        self.whole * 10 + self.tenths
    }

    /// A well-formed cost has a single fractional digit.
    pub open spec fn wf(self) -> bool {
        self.tenths < 10
    }
}

/// The base cost of an operation, in tenths of a conservation unit.
/// The payload-carrying kinds cost exactly their payload.
pub open spec fn base_cost_tenths(op: OperationType) -> int {
    match op {
        OperationType::TextResponse(c) => c * 10,
        OperationType::CodeGeneration(c) => c * 10,
        OperationType::ToolExecution(c) => c * 10,
        OperationType::PhoneAFriend(c) => c * 10,
        OperationType::ProvenanceCommit => 10,
        OperationType::CorrelationScan => 50,
        OperationType::EnsignWake => 20,
        OperationType::EnsignTick => 5,
        OperationType::DeadbandCheck => 1,
        OperationType::RoomRouting => 5,
        OperationType::TileCreate => 10,
        OperationType::TileQuery => 5,
    }
}

/// The name of an operation's kind, without its payload: two operations of the
/// same kind with different payloads share a name.
pub open spec fn operation_name(op: OperationType) -> Seq<char> {
    match op {
        OperationType::TextResponse(_) => "TextResponse"@,
        OperationType::CodeGeneration(_) => "CodeGeneration"@,
        OperationType::ToolExecution(_) => "ToolExecution"@,
        OperationType::PhoneAFriend(_) => "PhoneAFriend"@,
        OperationType::ProvenanceCommit => "ProvenanceCommit"@,
        OperationType::CorrelationScan => "CorrelationScan"@,
        OperationType::EnsignWake => "EnsignWake"@,
        OperationType::EnsignTick => "EnsignTick"@,
        OperationType::DeadbandCheck => "DeadbandCheck"@,
        OperationType::RoomRouting => "RoomRouting"@,
        OperationType::TileCreate => "TileCreate"@,
        OperationType::TileQuery => "TileQuery"@,
    }
}

impl OperationType {
    /// The name under which a report groups this operation's spending.
    pub fn name(&self) -> (name: String)
        ensures
            name@ == operation_name(*self),
    {
        let s: &str = match self {
            OperationType::TextResponse(_) => "TextResponse",
            OperationType::CodeGeneration(_) => "CodeGeneration",
            OperationType::ToolExecution(_) => "ToolExecution",
            OperationType::PhoneAFriend(_) => "PhoneAFriend",
            OperationType::ProvenanceCommit => "ProvenanceCommit",
            OperationType::CorrelationScan => "CorrelationScan",
            OperationType::EnsignWake => "EnsignWake",
            OperationType::EnsignTick => "EnsignTick",
            OperationType::DeadbandCheck => "DeadbandCheck",
            OperationType::RoomRouting => "RoomRouting",
            OperationType::TileCreate => "TileCreate",
            OperationType::TileQuery => "TileQuery",
        };
        s.to_owned()
    }

    /// Returns the base cost associated with this operation type.
    pub fn base_cost(&self) -> (cost: BaseCost)
        ensures
            cost.wf(),
            cost.in_tenths() == base_cost_tenths(*self),
            cost.tenths < 10,
            cost.whole * 10 + cost.tenths == base_cost_tenths(*self),
    {
        match self {
            OperationType::TextResponse(c) => BaseCost { whole: *c, tenths: 0 },
            OperationType::CodeGeneration(c) => BaseCost { whole: *c, tenths: 0 },
            OperationType::ToolExecution(c) => BaseCost { whole: *c, tenths: 0 },
            OperationType::PhoneAFriend(c) => BaseCost { whole: *c, tenths: 0 },
            OperationType::ProvenanceCommit => BaseCost { whole: 1, tenths: 0 },
            OperationType::CorrelationScan => BaseCost { whole: 5, tenths: 0 },
            OperationType::EnsignWake => BaseCost { whole: 2, tenths: 0 },
            OperationType::EnsignTick => BaseCost { whole: 0, tenths: 5 },
            OperationType::DeadbandCheck => BaseCost { whole: 0, tenths: 1 },
            OperationType::RoomRouting => BaseCost { whole: 0, tenths: 5 },
            OperationType::TileCreate => BaseCost { whole: 1, tenths: 0 },
            OperationType::TileQuery => BaseCost { whole: 0, tenths: 5 },
        }
    }
}

/// A payload-carrying operation costs exactly its payload, whatever the payload; the
/// other kinds have fixed costs (0.1 for a deadband check, 0.5 for a tick, a routing
/// or a tile query, 1 for a provenance commit or a tile creation, 2 for a wake, 5 for
/// a correlation scan), all in tenths of a unit here.
pub proof fn lemma_base_costs(c: u64)
    ensures
        base_cost_tenths(OperationType::TextResponse(c)) == 10 * c,
        base_cost_tenths(OperationType::CodeGeneration(c)) == 10 * c,
        base_cost_tenths(OperationType::ToolExecution(c)) == 10 * c,
        base_cost_tenths(OperationType::PhoneAFriend(c)) == 10 * c,
        base_cost_tenths(OperationType::ProvenanceCommit) == 10,
        base_cost_tenths(OperationType::CorrelationScan) == 50,
        base_cost_tenths(OperationType::EnsignWake) == 20,
        base_cost_tenths(OperationType::EnsignTick) == 5,
        base_cost_tenths(OperationType::DeadbandCheck) == 1,
        base_cost_tenths(OperationType::RoomRouting) == 5,
        base_cost_tenths(OperationType::TileCreate) == 10,
        base_cost_tenths(OperationType::TileQuery) == 5,
{
}

/// A payload-carrying kind's cost grows with its payload, one unit per unit of payload.
pub proof fn lemma_payload_cost_difference(a: u64, b: u64)
    ensures
        base_cost_tenths(OperationType::TextResponse(a)) - base_cost_tenths(OperationType::TextResponse(b)) == 10 * (a - b),
        base_cost_tenths(OperationType::CodeGeneration(a)) - base_cost_tenths(OperationType::CodeGeneration(b)) == 10 * (a - b),
        base_cost_tenths(OperationType::ToolExecution(a)) - base_cost_tenths(OperationType::ToolExecution(b)) == 10 * (a - b),
        base_cost_tenths(OperationType::PhoneAFriend(a)) - base_cost_tenths(OperationType::PhoneAFriend(b)) == 10 * (a - b),
{
}

/// An operation's name is the name of its kind, whatever its payload.
pub proof fn lemma_names_by_kind(c: u64)
    ensures
        operation_name(OperationType::TextResponse(c)) == "TextResponse"@,
        operation_name(OperationType::CodeGeneration(c)) == "CodeGeneration"@,
        operation_name(OperationType::ToolExecution(c)) == "ToolExecution"@,
        operation_name(OperationType::PhoneAFriend(c)) == "PhoneAFriend"@,
        operation_name(OperationType::ProvenanceCommit) == "ProvenanceCommit"@,
        operation_name(OperationType::CorrelationScan) == "CorrelationScan"@,
        operation_name(OperationType::EnsignWake) == "EnsignWake"@,
        operation_name(OperationType::EnsignTick) == "EnsignTick"@,
        operation_name(OperationType::DeadbandCheck) == "DeadbandCheck"@,
        operation_name(OperationType::RoomRouting) == "RoomRouting"@,
        operation_name(OperationType::TileCreate) == "TileCreate"@,
        operation_name(OperationType::TileQuery) == "TileQuery"@,
{
}

/// Two operations share a name exactly when they are of the same kind: the name
/// tells the kind, and the payload does not change it.
pub proof fn lemma_name_identifies_kind(a: OperationType, b: OperationType)
    ensures
        (operation_name(a) == operation_name(b)) <==> (
            (a is TextResponse && b is TextResponse)
            || (a is CodeGeneration && b is CodeGeneration)
            || (a is ToolExecution && b is ToolExecution)
            || (a is PhoneAFriend && b is PhoneAFriend)
            || (a is ProvenanceCommit && b is ProvenanceCommit)
            || (a is CorrelationScan && b is CorrelationScan)
            || (a is EnsignWake && b is EnsignWake)
            || (a is EnsignTick && b is EnsignTick)
            || (a is DeadbandCheck && b is DeadbandCheck)
            || (a is RoomRouting && b is RoomRouting)
            || (a is TileCreate && b is TileCreate)
            || (a is TileQuery && b is TileQuery)
        ),
{
    reveal_strlit("TextResponse");
    reveal_strlit("CodeGeneration");
    reveal_strlit("ToolExecution");
    reveal_strlit("PhoneAFriend");
    reveal_strlit("ProvenanceCommit");
    reveal_strlit("CorrelationScan");
    reveal_strlit("EnsignWake");
    reveal_strlit("EnsignTick");
    reveal_strlit("DeadbandCheck");
    reveal_strlit("RoomRouting");
    reveal_strlit("TileCreate");
    reveal_strlit("TileQuery");
    let na = operation_name(a);
    let nb = operation_name(b);
    if na == nb {
        assert(na.len() == nb.len());
        assert(na[0] == nb[0]);
        assert(na[1] == nb[1]);
        assert(na[4] == nb[4]);
        assert(na[6] == nb[6]);
    }
}

} // verus!
