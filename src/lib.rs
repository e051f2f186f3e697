//! Composable widgets drawn onto a character grid through a nested
//! coordinate-transform and clipping context.

pub mod cell;
pub mod surface;
pub mod frame;
pub mod context;
pub mod laws;
pub mod draw;
pub mod widget;
pub mod layout;
pub mod transform;
pub mod window;
pub mod controls;
pub mod table;
pub mod main_loop;
pub mod confinement;

pub use context::DrawingContext;
pub use transform::{FixedSize, Translated, offset, sized};
pub use widget::{Node, Widget};
pub use draw::Spacer;
