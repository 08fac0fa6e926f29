pub mod block;
pub mod edge;
pub mod graph;
pub mod loop_analysis;
pub mod node;
pub mod order;
pub mod pass;
pub mod schedule;
pub mod structure;
pub mod transfer;

pub use block::{BlockType, ThrillerBlock};
pub use edge::{AttachedEdge, ThrillerEdge};
pub use graph::ThrillerGraph;
pub use loop_analysis::LoopGroup;
pub use node::{NodeRef, ThrillerNode, ThrillerNodeInner};
pub use pass::{AllocateEdge, AllocateVar, GraphPass};
pub use schedule::{ScheduleNode, ScheduleTree};
