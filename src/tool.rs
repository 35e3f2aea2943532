//! The pathway tool's identity.
use vstd::prelude::*;

verus! {

/// The cost-pathway tool: maps the least-cost pathway from each destination
/// cell of a cost-distance analysis back to its source, using the back-link
/// grid that the cost-distance analysis produced.
pub struct CostPathway {
    name: String,
    description: String,
    toolbox: String,
}

/// The tool's name.
pub open spec fn tool_name() -> Seq<char> {
    "CostPathway"@
}

/// What the tool does, in one line.
pub open spec fn tool_description() -> Seq<char> {
    "Performs cost-distance pathway analysis using a series of destination grid cells."@
}

/// The toolbox the tool is listed in.
pub open spec fn tool_toolbox() -> Seq<char> {
    "GIS Analysis/Distance Tools"@
}

impl CostPathway {
    /// The tool's name as text.
    pub closed spec fn view_name(&self) -> Seq<char> {
        self.name@
    }

    /// The tool's description as text.
    pub closed spec fn view_description(&self) -> Seq<char> {
        self.description@
    }

    /// The tool's toolbox as text.
    pub closed spec fn view_toolbox(&self) -> Seq<char> {
        self.toolbox@
    }

    /// The tool, with its name, description and toolbox.
    pub fn new() -> (r: CostPathway)
        ensures
            r.view_name() == tool_name(),
            r.view_description() == tool_description(),
            r.view_toolbox() == tool_toolbox(),
    {
        CostPathway {
            name: String::from_str("CostPathway"),
            description: String::from_str(
                "Performs cost-distance pathway analysis using a series of destination grid cells.",
            ),
            toolbox: String::from_str("GIS Analysis/Distance Tools"),
        }
    }

    /// The tool's name.
    pub fn get_tool_name(&self) -> (r: String)
        ensures
            r@ == self.view_name(),
    {
        self.name.clone()
    }

    /// What the tool does.
    pub fn get_tool_description(&self) -> (r: String)
        ensures
            r@ == self.view_description(),
    {
        self.description.clone()
    }

    /// The toolbox the tool belongs to.
    pub fn get_toolbox(&self) -> (r: String)
        ensures
            r@ == self.view_toolbox(),
    {
        self.toolbox.clone()
    }
}

} // verus!
