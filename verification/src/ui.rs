//! Panel state shared with the desktop front end: copilot messages and
//! the tabs of the MCU console and telecom panels.

use vstd::prelude::*;

verus! {

/// One message of the copilot conversation.
#[derive(Debug, Clone)]
pub struct CopilotMessageEntry {
    pub is_user: bool,
    pub content: String,
    pub verified_parts: Vec<String>,
}

/// The tabs of the MCU and protocol console.
#[derive(Debug, Clone, Copy, PartialEq, Eq, Structural)]
pub enum McuConsoleTab {
    UartTerminal,
    MqttInspector,
    NetworkStatus,
}

impl Default for McuConsoleTab {
    /// The UART terminal.
    fn default() -> (r: Self)
        ensures
            r == McuConsoleTab::UartTerminal,
    {
        McuConsoleTab::UartTerminal
    }
}

/// The tabs of the telecom and RF panel.
#[derive(Debug, Clone, Copy, PartialEq, Eq, Structural)]
pub enum TelecomTab {
    SmithChart,
    EyeDiagram,
    Constellation,
}

impl Default for TelecomTab {
    /// The Smith chart.
    fn default() -> (r: Self)
        ensures
            r == TelecomTab::SmithChart,
    {
        TelecomTab::SmithChart
    }
}

} // verus!
