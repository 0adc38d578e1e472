//! The declarative form of a theme.
//!
//! Every type here describes style entries by naming other entries: a
//! border names its color, a composite entry's state slot is either a
//! literal definition, the name of a peer entry to inherit from, or absent.
//! Resolution turns this form into the concrete types of the crate root;
//! canonicalization produces it back from them.

use vstd::prelude::*;

use crate::color::Color;
use crate::table::Table;

verus! {

/// Declarative application style: the two global colors, by name.
#[derive(Clone, Debug)]
pub struct Application {
    /// Key to the background color.
    pub background_color: String,
    /// Key to the text color.
    pub text_color: String,
}

/// Declarative border: a color name and the opaque numeric payload
/// (radius and width as IEEE 754 single-precision bit patterns).
#[derive(Clone, Debug)]
pub struct Border {
    /// Key to the border color.
    pub color: String,
    /// Radius of the border.
    pub radius: u32,
    /// Width of the border.
    pub width: u32,
}

/// One state slot of a declarative button.
#[derive(Clone, Debug)]
pub struct ButtonState {
    /// Key to the background color.
    pub background: String,
    /// Key to the text color.
    pub text: String,
    /// Key to the border theme.
    pub border: String,
}

/// A state slot of a composite button entry.
#[derive(Clone, Debug)]
pub enum ButtonComponent {
    /// The state is given literally.
    Defined(ButtonState),
    /// The state is inherited from the like slot of another button entry.
    Inherited(String),
    /// The state is not given; it is filled from the entry's first
    /// resolved slot.
    Absent,
}

/// Declarative button: four state slots, in order active, hovered,
/// pressed, disabled.
#[derive(Clone, Debug)]
pub struct Button {
    /// Active state.
    pub active: ButtonComponent,
    /// Hovered state.
    pub hovered: ButtonComponent,
    /// Pressed state.
    pub pressed: ButtonComponent,
    /// Disabled state.
    pub disabled: ButtonComponent,
}

/// Declarative container: a background color name and a border name.
#[derive(Clone, Debug)]
pub struct Container {
    /// Key to the background color.
    pub color: String,
    /// Key to the border definition.
    pub border: String,
}

/// One state slot of a declarative pane grid: the split line.
#[derive(Clone, Debug)]
pub struct PaneGridState {
    /// Key to the color of the line.
    pub color: String,
    /// Width of the line (an IEEE 754 single-precision bit pattern).
    pub width: u32,
}

/// A state slot of a composite pane grid entry.
#[derive(Clone, Debug)]
pub enum PaneGridComponent {
    /// The state is given literally.
    Defined(PaneGridState),
    /// The state is inherited from the like slot of another pane grid
    /// entry.
    Inherited(String),
    /// The state is not given.
    Absent,
}

/// Declarative pane grid: two state slots, in order picked, hovered.
#[derive(Clone, Debug)]
pub struct PaneGrid {
    /// Picked state.
    pub picked: PaneGridComponent,
    /// Hovered state.
    pub hovered: PaneGridComponent,
}

/// One state slot of a declarative pick list.
#[derive(Clone, Debug)]
pub struct PicklistState {
    /// Key to the background color.
    pub background: String,
    /// Key to the text color.
    pub text: String,
    /// Key to the placeholder color.
    pub placeholder: String,
    /// Key to the border theme.
    pub border: String,
    /// Key to the handle color.
    pub handle: String,
}

/// The menu part of a declarative pick list.
#[derive(Clone, Debug)]
pub struct PicklistMenu {
    /// Key to the background color.
    pub background: String,
    /// Key to the text color.
    pub text: String,
    /// Key to the border theme.
    pub border: String,
    /// Key to the selected background color.
    pub sbackground: String,
    /// Key to the selected text color.
    pub stext: String,
}

/// A state slot of a composite pick list entry.
#[derive(Clone, Debug)]
pub enum PicklistStateComponent {
    /// The state is given literally.
    Defined(PicklistState),
    /// The state is inherited from the like slot of another pick list
    /// entry.
    Inherited(String),
    /// The state is not given.
    Absent,
}

/// The menu of a pick list entry: given literally or inherited whole.
/// A menu is never absent.
#[derive(Clone, Debug)]
pub enum PicklistMenuComponent {
    /// The menu is given literally.
    Defined(PicklistMenu),
    /// The menu is inherited from another pick list entry.
    Inherited(String),
}

/// Declarative pick list: two state slots (active, hovered) and a menu.
#[derive(Clone, Debug)]
pub struct Picklist {
    /// Active state.
    pub active: PicklistStateComponent,
    /// Hovered state.
    pub hovered: PicklistStateComponent,
    /// Menu theme.
    pub menu: PicklistMenuComponent,
}

/// Declarative progress bar: two color names and the opaque radius.
#[derive(Clone, Debug)]
pub struct ProgressBar {
    /// Key to the background color.
    pub background: String,
    /// Key to the bar color.
    pub bar: String,
    /// Border radius (an IEEE 754 single-precision bit pattern).
    pub radius: u32,
}

/// One state slot of a declarative scrollable.
#[derive(Clone, Debug)]
pub struct ScrollableState {
    /// Key to the background color.
    pub color: String,
    /// Key to the border theme.
    pub border: String,
    /// Key to the scroller color.
    pub scolor: String,
    /// Key to the scroller border.
    pub sborder: String,
}

/// A state slot of a composite scrollable entry.
#[derive(Clone, Debug)]
pub enum ScrollableComponent {
    /// The state is given literally.
    Defined(ScrollableState),
    /// The state is inherited from the like slot of another scrollable
    /// entry.
    Inherited(String),
    /// The state is not given.
    Absent,
}

/// Declarative scrollable: three state slots, in order active, hovered,
/// dragging.
#[derive(Clone, Debug)]
pub struct Scrollable {
    /// Active state.
    pub active: ScrollableComponent,
    /// Hovered state.
    pub hovered: ScrollableComponent,
    /// Dragging state.
    pub dragging: ScrollableComponent,
}

/// One state slot of a declarative text input.
#[derive(Clone, Debug)]
pub struct TextInputState {
    /// Key to the background color.
    pub background: String,
    /// Key to the border theme.
    pub border: String,
}

/// A state slot of a composite text input entry.
#[derive(Clone, Debug)]
pub enum TextInputComponent {
    /// The state is given literally.
    Defined(TextInputState),
    /// The state is inherited from the like slot of another text input
    /// entry.
    Inherited(String),
    /// The state is not given.
    Absent,
}

/// Declarative text input: three state slots (active, hovered, focused)
/// and three plain color references.
#[derive(Clone, Debug)]
pub struct TextInput {
    /// Active state.
    pub active: TextInputComponent,
    /// Hovered state.
    pub hovered: TextInputComponent,
    /// Focused state.
    pub focused: TextInputComponent,
    /// Key to the placeholder color.
    pub placeholder: String,
    /// Key to the value color.
    pub value: String,
    /// Key to the selection color.
    pub selection: String,
}

/// Declarative tooltip: two color names and a border name.
#[derive(Clone, Debug)]
pub struct Tooltip {
    /// Key to the background color.
    pub background: String,
    /// Key to the text color.
    pub text: String,
    /// Key to the border definition.
    pub border: String,
}

/// The declarative form of a whole theme: every style entry refers to the
/// others by name.
#[derive(Clone, Debug)]
pub struct Theme {
    /// Name of this theme.
    pub name: String,
    /// Brief description of this theme.
    pub description: String,
    /// General application style.
    pub application: Application,
    /// Maps name keys to border entries.
    pub border: Table<Border>,
    /// Maps name keys to button entries.
    pub button: Table<Button>,
    /// Maps name keys to concrete colors.
    pub color: Table<Color>,
    /// Maps name keys to container entries.
    pub container: Table<Container>,
    /// Maps name keys to pane grid entries.
    pub panegrid: Table<PaneGrid>,
    /// Maps name keys to pick list entries.
    pub picklist: Table<Picklist>,
    /// Maps name keys to progress bar entries.
    pub progressbar: Table<ProgressBar>,
    /// Maps name keys to scrollable entries.
    pub scrollable: Table<Scrollable>,
    /// Maps name keys to text input entries.
    pub textinput: Table<TextInput>,
    /// Maps name keys to tooltip entries.
    pub tooltip: Table<Tooltip>,
}

impl Theme {
    /// Well-formed: every table is.
    pub open spec fn wf(&self) -> bool {
        &&& self.border.wf()
        &&& self.button.wf()
        &&& self.color.wf()
        &&& self.container.wf()
        &&& self.panegrid.wf()
        &&& self.picklist.wf()
        &&& self.progressbar.wf()
        &&& self.scrollable.wf()
        &&& self.textinput.wf()
        &&& self.tooltip.wf()
    }

    /// Creates an empty declarative theme.
    pub fn new() -> (r: Theme)
        ensures
            r.wf(),
            r.name@ == Seq::<char>::empty(),
            r.description@ == Seq::<char>::empty(),
            r.application.background_color@ == Seq::<char>::empty(),
            r.application.text_color@ == Seq::<char>::empty(),
            r.border@ == Map::<Seq<char>, Border>::empty(),
            r.button@ == Map::<Seq<char>, Button>::empty(),
            r.color@ == Map::<Seq<char>, Color>::empty(),
            r.container@ == Map::<Seq<char>, Container>::empty(),
            r.panegrid@ == Map::<Seq<char>, PaneGrid>::empty(),
            r.picklist@ == Map::<Seq<char>, Picklist>::empty(),
            r.progressbar@ == Map::<Seq<char>, ProgressBar>::empty(),
            r.scrollable@ == Map::<Seq<char>, Scrollable>::empty(),
            r.textinput@ == Map::<Seq<char>, TextInput>::empty(),
            r.tooltip@ == Map::<Seq<char>, Tooltip>::empty(),
    {
        Theme {
            name: String::new(),
            description: String::new(),
            application: Application {
                background_color: String::new(),
                text_color: String::new(),
            },
            border: Table::new(),
            button: Table::new(),
            color: Table::new(),
            container: Table::new(),
            panegrid: Table::new(),
            picklist: Table::new(),
            progressbar: Table::new(),
            scrollable: Table::new(),
            textinput: Table::new(),
            tooltip: Table::new(),
        }
    }
}


impl Default for Theme {
    /// The empty declarative theme.
    fn default() -> (r: Theme)
        ensures
            r.wf(),
            r.color@ == Map::<Seq<char>, Color>::empty(),
            r.button@ == Map::<Seq<char>, Button>::empty(),
    {
        Theme::new()
    }
}

} // verus!
