//! Routing of Model Context Protocol requests: which tool a request
//! reaches, or which error answers it.

use vstd::prelude::*;
use crate::text::{concat, str_eq, to_string};

verus! {

/// An MCP error: JSON-RPC code and message.
#[derive(Debug)]
pub struct McpError {
    pub code: i32,
    pub message: String,
}

/// The MCP request handler of the EDA engine.
#[derive(Debug)]
pub struct McpServer;

/// Where a request goes.
#[derive(Debug)]
pub enum McpAction {
    /// List the tools.
    ListTools,
    /// Summarise the loaded board.
    ReadPcb,
    /// Place a component.
    PlaceComponent,
    /// Answer with an error.
    Fail(McpError),
}

/// The route of a request, as the contracts speak of it: the action, or
/// the error code and message.
pub open spec fn spec_route(method: Seq<char>, tool: Seq<char>, board_loaded: bool) -> Result<
    int,
    (i32, Seq<char>),
> {
    if method == "tools/list"@ {
        Ok(0)
    } else if method == "tools/call"@ {
        if tool == "read_pcb"@ {
            if board_loaded {
                Ok(1)
            } else {
                Err((-32000i32, "No active PCB layout loaded"@))
            }
        } else if tool == "place_component"@ {
            Ok(2)
        } else {
            Err((-32601i32, "Unknown MCP tool method: "@ + tool))
        }
    } else {
        Err((-32600i32, "Invalid MCP request method: "@ + method))
    }
}

/// The route an action stands for (see [`spec_route`]).
pub open spec fn action_route(a: McpAction) -> Result<int, (i32, Seq<char>)> {
    match a {
        McpAction::ListTools => Ok(0),
        McpAction::ReadPcb => Ok(1),
        McpAction::PlaceComponent => Ok(2),
        McpAction::Fail(e) => Err((e.code, e.message@)),
    }
}

/// The names and descriptions of the tools the server exposes, in order.
pub open spec fn spec_tool_catalog() -> Seq<(Seq<char>, Seq<char>)> {
    seq![
        ("read_schematic"@, "Read active schematic hierarchy, symbols, and nets"@),
        ("read_pcb"@, "Query PCB board shape, layers, footprints, and routed segments"@),
        ("query_design"@, "Execute structured design graph query across schematic and PCB layout"@),
        ("list_violations"@, "List all active ERC and DRC violations with geometric coordinates and severity"@),
        ("place_component"@, "Place or move a component footprint on the PCB layout"@),
        ("route_net"@, "Execute interactive or topological autorouting for a net"@),
        ("fix_violation"@, "Apply an automated fix strategy to resolve a DRC or ERC violation"@),
    ]
}

fn tool(name: &str, description: &str) -> (r: (String, String))
    ensures
        r.0@ == name@,
        r.1@ == description@,
{
    (to_string(name), to_string(description))
}

impl McpServer {
    /// The tools the server exposes: name and description (see
    /// [`spec_tool_catalog`]).
    pub fn tool_catalog() -> (r: Vec<(String, String)>)
        ensures
            r@.map_values(|t: (String, String)| (t.0@, t.1@)) == spec_tool_catalog(),
    {
        let mut v: Vec<(String, String)> = Vec::new();
        v.push(tool("read_schematic", "Read active schematic hierarchy, symbols, and nets"));
        v.push(tool("read_pcb", "Query PCB board shape, layers, footprints, and routed segments"));
        v.push(tool("query_design", "Execute structured design graph query across schematic and PCB layout"));
        v.push(tool("list_violations", "List all active ERC and DRC violations with geometric coordinates and severity"));
        v.push(tool("place_component", "Place or move a component footprint on the PCB layout"));
        v.push(tool("route_net", "Execute interactive or topological autorouting for a net"));
        v.push(tool("fix_violation", "Apply an automated fix strategy to resolve a DRC or ERC violation"));
        assert(v@.map_values(|t: (String, String)| (t.0@, t.1@)) =~= spec_tool_catalog());
        v
    }

    /// Routes a request by its method, the tool it calls (empty when it
    /// names none) and whether a board is loaded (see [`spec_route`]).
    pub fn route(method: &str, tool_name: &str, board_loaded: bool) -> (r: McpAction)
        ensures
            action_route(r) == spec_route(method@, tool_name@, board_loaded),
    {
        if str_eq(method, "tools/list") {
            McpAction::ListTools
        } else if str_eq(method, "tools/call") {
            if str_eq(tool_name, "read_pcb") {
                if board_loaded {
                    McpAction::ReadPcb
                } else {
                    McpAction::Fail(
                        McpError { code: -32000, message: to_string("No active PCB layout loaded") },
                    )
                }
            } else if str_eq(tool_name, "place_component") {
                McpAction::PlaceComponent
            } else {
                McpAction::Fail(
                    McpError { code: -32601, message: concat("Unknown MCP tool method: ", tool_name) },
                )
            }
        } else {
            McpAction::Fail(
                McpError { code: -32600, message: concat("Invalid MCP request method: ", method) },
            )
        }
    }
}

/// `tools/list` lists the tools whatever the tool name and board state;
/// `tools/call` of `read_pcb` reads the board exactly when one is loaded
/// (else error -32000), of `place_component` places a component, of any
/// other tool fails with -32601 naming the tool; any other method fails
/// with -32600 naming the method.
pub proof fn law_route_table(method: Seq<char>, tool: Seq<char>, loaded: bool)
    ensures
        spec_route("tools/list"@, tool, loaded) == Ok::<int, (i32, Seq<char>)>(0),
        spec_route("tools/call"@, "read_pcb"@, true) == Ok::<int, (i32, Seq<char>)>(1),
        spec_route("tools/call"@, "read_pcb"@, false) == Err::<int, (i32, Seq<char>)>(
            (-32000i32, "No active PCB layout loaded"@),
        ),
        spec_route("tools/call"@, "place_component"@, loaded) == Ok::<int, (i32, Seq<char>)>(2),
        (tool != "read_pcb"@ && tool != "place_component"@) ==> spec_route("tools/call"@, tool, loaded)
            == Err::<int, (i32, Seq<char>)>((-32601i32, "Unknown MCP tool method: "@ + tool)),
        (method != "tools/list"@ && method != "tools/call"@) ==> spec_route(method, tool, loaded)
            == Err::<int, (i32, Seq<char>)>((-32600i32, "Invalid MCP request method: "@ + method)),
{
    reveal_strlit("tools/list");
    reveal_strlit("tools/call");
    reveal_strlit("read_pcb");
    reveal_strlit("place_component");
    assert("tools/list"@[6] != "tools/call"@[6]);
    assert("read_pcb"@ != "place_component"@);
}

} // verus!
