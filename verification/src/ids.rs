//! Identifiers of the tools that the host launches.

use vstd::prelude::*;

verus! {

/// Compile-time menu entries, in left-to-right fan order.
#[derive(Clone, Copy, Debug, PartialEq, Eq, Hash, Structural)]
pub enum ToolId {
    Time,
    Json,
    Trans,
}

/// Abstract single-instance name for the host process.
pub const HOST_INSTANCE: &'static str = "xtools-host";

/// Abstract single-instance name for the timestamp tool.
pub const TIME_INSTANCE: &'static str = "xtools-time";

/// Abstract single-instance name for the JSON tool.
pub const JSON_INSTANCE: &'static str = "xtools-json";

/// Abstract single-instance name for the translation tool.
pub const TRANS_INSTANCE: &'static str = "xtools-trans";

impl ToolId {
    /// The mark drawn on the tool's orb.
    pub fn mark(self) -> (r: &'static str)
        ensures
            self == ToolId::Time ==> r@ == "clock"@,
            self == ToolId::Json ==> r@ == "{}"@,
            self == ToolId::Trans ==> r@ == "文"@,
    {
        match self {
            ToolId::Time => "clock",
            ToolId::Json => "{}",
            ToolId::Trans => "文",
        }
    }

    /// Name of the tool's executable.
    pub fn binary_name(self) -> (r: &'static str)
        ensures
            self == ToolId::Time ==> r@ == "xtools-time"@,
            self == ToolId::Json ==> r@ == "xtools-json"@,
            self == ToolId::Trans ==> r@ == "xtools-trans"@,
    {
        match self {
            ToolId::Time => "xtools-time",
            ToolId::Json => "xtools-json",
            ToolId::Trans => "xtools-trans",
        }
    }

    /// Single-instance name of the tool.
    pub fn instance_name(self) -> (r: &'static str)
        ensures
            self == ToolId::Time ==> r@ == TIME_INSTANCE@,
            self == ToolId::Json ==> r@ == JSON_INSTANCE@,
            self == ToolId::Trans ==> r@ == TRANS_INSTANCE@,
    {
        match self {
            ToolId::Time => TIME_INSTANCE,
            ToolId::Json => JSON_INSTANCE,
            ToolId::Trans => TRANS_INSTANCE,
        }
    }
}

} // verus!
