//! A dynamic theme library: named style entries (colors, borders, and
//! multi-state widget styles) are resolved from a declarative, name-indexed
//! description into a fully concrete object graph, and canonicalized back
//! into a minimal, deduplicated declarative description.

pub mod application;
pub mod border;
pub mod button;
pub mod canon;
pub mod color;
pub mod container;
pub mod error;
pub mod fixpoint;
pub mod laws;
pub mod panegrid;
pub mod picklist;
pub mod progressbar;
pub mod scrollable;
pub mod slots;
pub mod table;
pub mod textinput;
pub mod theme;
pub mod tooltip;

pub mod serial;

pub use application::Application;
pub use border::Border;
pub use button::{Button, ButtonState};
pub use color::Color;
pub use container::Container;
pub use error::Error;
pub use panegrid::{PaneGrid, PaneGridState};
pub use picklist::{Picklist, PicklistMenu, PicklistState};
pub use progressbar::ProgressBar;
pub use scrollable::{Scrollable, ScrollableState};
pub use table::Table;
pub use textinput::{TextInput, TextInputState};
pub use tooltip::Tooltip;

pub use theme::Theme;
