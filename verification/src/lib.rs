//! Orchestration core for a terminal application that hosts several
//! interactive panes in one viewport: the layout tree that partitions the
//! screen, the pane registry and identifier lifecycle, the focus-cycling
//! state machine, the per-iteration decisions of the event loop, and the
//! job-completion fan-out rules.

pub mod editor;
pub mod jobs;
pub mod layout;
pub mod orchestrator;
pub mod themes;
