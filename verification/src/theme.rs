//! The resolved theme: every entry holds concrete values.

use vstd::prelude::*;

use crate::application::Application;
use crate::application::application_spec;
use crate::border::Border;
use crate::border::border_spec;
use crate::border::borders_resolvable;
use crate::border::borders_resolved;
use crate::button::Button;
use crate::button::button_dangling;
use crate::button::button_empty;
use crate::button::button_has_inherited;
use crate::button::buttons_resolvable;
use crate::button::buttons_resolved;
use crate::color::Color;
use crate::container::Container;
use crate::container::containers_resolvable;
use crate::container::containers_resolved;
use crate::error::Error;
use crate::panegrid::PaneGrid;
use crate::panegrid::panegrid_dangling;
use crate::panegrid::panegrid_empty;
use crate::panegrid::panegrid_has_inherited;
use crate::panegrid::panegrids_resolvable;
use crate::panegrid::panegrids_resolved;
use crate::picklist::Picklist;
use crate::picklist::picklist_dangling;
use crate::picklist::picklist_empty;
use crate::picklist::picklist_has_inherited;
use crate::picklist::picklists_resolvable;
use crate::picklist::picklists_resolved;
use crate::progressbar::ProgressBar;
use crate::progressbar::progressbars_resolvable;
use crate::progressbar::progressbars_resolved;
use crate::scrollable::Scrollable;
use crate::scrollable::scrollable_dangling;
use crate::scrollable::scrollable_empty;
use crate::scrollable::scrollable_has_inherited;
use crate::scrollable::scrollables_resolvable;
use crate::scrollable::scrollables_resolved;
use crate::serial;
use crate::table::Table;
use crate::textinput::TextInput;
use crate::textinput::textinput_dangling;
use crate::textinput::textinput_empty;
use crate::textinput::textinput_has_inherited;
use crate::textinput::textinputs_resolvable;
use crate::textinput::textinputs_resolved;
use crate::tooltip::Tooltip;
use crate::tooltip::tooltips_resolvable;
use crate::tooltip::tooltips_resolved;

verus! {

/// What one border entry resolves to, when it resolves.
pub open spec fn border_value(b: serial::Border, cm: Map<Seq<char>, Color>) -> Border {
    match border_spec(b, cm) {
        Some(x) => x,
        None => arbitrary(),
    }
}

/// The resolved border table a declarative theme determines, entry by
/// entry.
pub open spec fn borders_of(s: serial::Theme) -> Map<Seq<char>, Border> {
    Map::new(
        |k: Seq<char>| s.border@.contains_key(k),
        |k: Seq<char>| border_value(s.border@[k], s.color@),
    )
}

/// How a resolved theme relates to the declarative theme it was resolved
/// from: colors copied verbatim, every other table resolved entry by
/// entry, the composite tables against themselves as the final peer maps.
pub open spec fn parse_ok(s: serial::Theme, t: Theme) -> bool {
    &&& t.name@ == s.name@
    &&& t.description@ == s.description@
    &&& t.color@ == s.color@
    &&& t.color.key_seq() == s.color.key_seq()
    &&& application_spec(s.application, s.color@) == Some(t.application)
    &&& borders_resolved(s.border@, s.color@, t.border@)
    &&& containers_resolved(s.container@, s.color@, t.border@, t.container@)
    &&& tooltips_resolved(s.tooltip@, s.color@, t.border@, t.tooltip@)
    &&& progressbars_resolved(s.progressbar@, s.color@, t.progressbar@)
    &&& buttons_resolved(s.button@, s.color@, t.border@, t.button@)
    &&& panegrids_resolved(s.panegrid@, s.color@, t.panegrid@)
    &&& picklists_resolved(s.picklist@, s.color@, t.border@, t.picklist@)
    &&& scrollables_resolved(s.scrollable@, s.color@, t.border@, t.scrollable@)
    &&& textinputs_resolved(s.textinput@, s.color@, t.border@, t.textinput@)
}

/// Whether a declarative theme resolves: the application style and every
/// value table entry resolve, and every composite entry is reached by the
/// fixed point of its kind.
pub open spec fn theme_resolvable(s: serial::Theme) -> bool {
    &&& application_spec(s.application, s.color@) is Some
    &&& borders_resolvable(s.border@, s.color@)
    &&& containers_resolvable(s.container@, s.color@, borders_of(s))
    &&& tooltips_resolvable(s.tooltip@, s.color@, borders_of(s))
    &&& progressbars_resolvable(s.progressbar@, s.color@)
    &&& buttons_resolvable(s.button@, s.color@, borders_of(s))
    &&& panegrids_resolvable(s.panegrid@, s.color@)
    &&& picklists_resolvable(s.picklist@, s.color@, borders_of(s))
    &&& scrollables_resolvable(s.scrollable@, s.color@, borders_of(s))
    &&& textinputs_resolvable(s.textinput@, s.color@, borders_of(s))
}

/// Some reference of the theme dangles: a name that no table supplies.
pub open spec fn theme_dangling(s: serial::Theme) -> bool {
    ||| application_spec(s.application, s.color@) is None
    ||| !borders_resolvable(s.border@, s.color@)
    ||| !containers_resolvable(s.container@, s.color@, borders_of(s))
    ||| !tooltips_resolvable(s.tooltip@, s.color@, borders_of(s))
    ||| !progressbars_resolvable(s.progressbar@, s.color@)
    ||| button_dangling(s.button@, s.color@, borders_of(s))
    ||| panegrid_dangling(s.panegrid@, s.color@)
    ||| picklist_dangling(s.picklist@, s.color@, borders_of(s))
    ||| scrollable_dangling(s.scrollable@, s.color@, borders_of(s))
    ||| textinput_dangling(s.textinput@, s.color@, borders_of(s))
}

/// The named entry is a composite entry with every state slot absent.
pub open spec fn theme_empty_entry(s: serial::Theme, entry: Seq<char>) -> bool {
    ||| (s.button@.contains_key(entry) && button_empty(s.button@[entry]))
    ||| (s.panegrid@.contains_key(entry) && panegrid_empty(s.panegrid@[entry]))
    ||| (s.picklist@.contains_key(entry) && picklist_empty(s.picklist@[entry]))
    ||| (s.scrollable@.contains_key(entry) && scrollable_empty(s.scrollable@[entry]))
    ||| (s.textinput@.contains_key(entry) && textinput_empty(s.textinput@[entry]))
}

/// The named entry is a composite entry that inherits and never resolved.
pub open spec fn theme_cycle_entry(s: serial::Theme, entry: Seq<char>) -> bool {
    ||| (s.button@.contains_key(entry) && button_has_inherited(s.button@[entry]))
    ||| (s.panegrid@.contains_key(entry) && panegrid_has_inherited(s.panegrid@[entry]))
    ||| (s.picklist@.contains_key(entry) && picklist_has_inherited(s.picklist@[entry]))
    ||| (s.scrollable@.contains_key(entry) && scrollable_has_inherited(s.scrollable@[entry]))
    ||| (s.textinput@.contains_key(entry) && textinput_has_inherited(s.textinput@[entry]))
}

/// What each error of resolution attests of the declarative theme.
pub open spec fn error_witness(s: serial::Theme, e: Error) -> bool {
    match e {
        Error::MalformedValue { .. } => false,
        Error::UnknownReference { .. } => theme_dangling(s),
        Error::NoDefinedState { entry } => theme_empty_entry(s, entry@),
        Error::UnresolvableCycle { entry } => theme_cycle_entry(s, entry@),
    }
}

/// A resolved theme.  Every entry of every table holds concrete values;
/// no name reference is left.
#[derive(Clone, Debug)]
pub struct Theme {
    /// Name of this theme.
    pub name: String,
    /// Brief description of this theme.
    pub description: String,
    /// General application style.
    pub application: Application,
    /// Maps name keys to border themes.
    pub border: Table<Border>,
    /// Maps name keys to button themes.
    pub button: Table<Button>,
    /// Maps name keys to colors.
    pub color: Table<Color>,
    /// Maps name keys to container themes.
    pub container: Table<Container>,
    /// Maps name keys to pane grid themes.
    pub panegrid: Table<PaneGrid>,
    /// Maps name keys to pick list themes.
    pub picklist: Table<Picklist>,
    /// Maps name keys to progress bar themes.
    pub progressbar: Table<ProgressBar>,
    /// Maps name keys to scrollable themes.
    pub scrollable: Table<Scrollable>,
    /// Maps name keys to text input themes.
    pub textinput: Table<TextInput>,
    /// Maps name keys to tooltip themes.
    pub tooltip: Table<Tooltip>,
}

impl Theme {
    /// Well-formed: every table is.
    pub open spec fn wf(&self) -> bool {
        &&& self.border.wf()
        &&& self.button.wf()
        &&& self.color.wf()
        &&& self.container.wf()
        &&& self.panegrid.wf()
        &&& self.picklist.wf()
        &&& self.progressbar.wf()
        &&& self.scrollable.wf()
        &&& self.textinput.wf()
        &&& self.tooltip.wf()
    }

    /// Creates an empty theme.
    pub fn new() -> (r: Theme)
        ensures
            r.wf(),
            r.name@ == Seq::<char>::empty(),
            r.description@ == Seq::<char>::empty(),
            r.border@ == Map::<Seq<char>, Border>::empty(),
            r.button@ == Map::<Seq<char>, Button>::empty(),
            r.color@ == Map::<Seq<char>, Color>::empty(),
            r.container@ == Map::<Seq<char>, Container>::empty(),
            r.panegrid@ == Map::<Seq<char>, PaneGrid>::empty(),
            r.picklist@ == Map::<Seq<char>, Picklist>::empty(),
            r.progressbar@ == Map::<Seq<char>, ProgressBar>::empty(),
            r.scrollable@ == Map::<Seq<char>, Scrollable>::empty(),
            r.textinput@ == Map::<Seq<char>, TextInput>::empty(),
            r.tooltip@ == Map::<Seq<char>, Tooltip>::empty(),
    {
        Theme {
            name: String::new(),
            description: String::new(),
            application: Application {
                background_color: Color::black(),
                text_color: Color::black(),
            },
            border: Table::new(),
            button: Table::new(),
            color: Table::new(),
            container: Table::new(),
            panegrid: Table::new(),
            picklist: Table::new(),
            progressbar: Table::new(),
            scrollable: Table::new(),
            textinput: Table::new(),
            tooltip: Table::new(),
        }
    }

    /// Attempts to create a theme from its declarative version.
    ///
    /// Colors are copied verbatim; borders and the leaf style kinds are
    /// resolved in one pass each, since they only reference the value
    /// tables; each composite style kind is resolved by repeated passes
    /// until every entry is resolved or no entry makes progress, so that
    /// entries may inherit from entries defined before or after them.
    /// Resolution succeeds exactly when every reference resolves and the
    /// inheritance chains close; it never depends on the order in which
    /// entries were defined.  Failures stop resolution at once, uniformly:
    /// the first broken entry is reported, attributed by name.
    pub fn parse(serial: &serial::Theme) -> (r: Result<Theme, Error>)
        requires
            serial.wf(),
        ensures
            (r is Ok) == theme_resolvable(*serial),
            match r {
                Ok(t) => t.wf() && parse_ok(*serial, t),
                Err(e) => error_witness(*serial, e),
            },
    {
        let colors = serial.color.duplicate();
        let application = match Application::create_in(&serial.application, &colors) {
            Ok(a) => a,
            Err(e) => {
                return Err(e);
            },
        };
        let borders = match Border::resolve_table(&serial.border, &colors) {
            Ok(b) => b,
            Err(e) => {
                return Err(e);
            },
        };
        proof {
            assert(borders@ =~= borders_of(*serial));
        }
        let progressbar = match ProgressBar::resolve_table(&serial.progressbar, &colors) {
            Ok(p) => p,
            Err(e) => {
                return Err(e);
            },
        };
        let container = match Container::resolve_table(&serial.container, &colors, &borders) {
            Ok(c) => c,
            Err(e) => {
                return Err(e);
            },
        };
        let tooltip = match Tooltip::resolve_table(&serial.tooltip, &colors, &borders) {
            Ok(t) => t,
            Err(e) => {
                return Err(e);
            },
        };
        let button = match Button::resolve_table(&serial.button, &colors, &borders) {
            Ok(b) => b,
            Err(e) => {
                return Err(e);
            },
        };
        let panegrid = match PaneGrid::resolve_table(&serial.panegrid, &colors) {
            Ok(p) => p,
            Err(e) => {
                return Err(e);
            },
        };
        let picklist = match Picklist::resolve_table(&serial.picklist, &colors, &borders) {
            Ok(p) => p,
            Err(e) => {
                return Err(e);
            },
        };
        let scrollable = match Scrollable::resolve_table(&serial.scrollable, &colors, &borders) {
            Ok(s) => s,
            Err(e) => {
                return Err(e);
            },
        };
        let textinput = match TextInput::resolve_table(&serial.textinput, &colors, &borders) {
            Ok(t) => t,
            Err(e) => {
                return Err(e);
            },
        };
        Ok(
            Theme {
                name: serial.name.clone(),
                description: serial.description.clone(),
                application,
                border: borders,
                button,
                color: colors,
                container,
                panegrid,
                picklist,
                progressbar,
                scrollable,
                textinput,
                tooltip,
            },
        )
    }

    /// Looks a button theme up by name.
    pub fn get_button(&self, k: &String) -> (r: Option<&Button>)
        requires
            self.wf(),
        ensures
            match r {
                Some(v) => self.button@.contains_key(k@) && *v == self.button@[k@],
                None => !self.button@.contains_key(k@),
            },
    {
        self.button.get(k)
    }

    /// Looks a container theme up by name.
    pub fn get_container(&self, k: &String) -> (r: Option<&Container>)
        requires
            self.wf(),
        ensures
            match r {
                Some(v) => self.container@.contains_key(k@) && *v == self.container@[k@],
                None => !self.container@.contains_key(k@),
            },
    {
        self.container.get(k)
    }

    /// Looks a pane grid theme up by name.
    pub fn get_panegrid(&self, k: &String) -> (r: Option<&PaneGrid>)
        requires
            self.wf(),
        ensures
            match r {
                Some(v) => self.panegrid@.contains_key(k@) && *v == self.panegrid@[k@],
                None => !self.panegrid@.contains_key(k@),
            },
    {
        self.panegrid.get(k)
    }

    /// Looks a progress bar theme up by name.
    pub fn get_progressbar(&self, k: &String) -> (r: Option<&ProgressBar>)
        requires
            self.wf(),
        ensures
            match r {
                Some(v) => self.progressbar@.contains_key(k@) && *v == self.progressbar@[k@],
                None => !self.progressbar@.contains_key(k@),
            },
    {
        self.progressbar.get(k)
    }

    /// Looks a scrollable theme up by name.
    pub fn get_scrollable(&self, k: &String) -> (r: Option<&Scrollable>)
        requires
            self.wf(),
        ensures
            match r {
                Some(v) => self.scrollable@.contains_key(k@) && *v == self.scrollable@[k@],
                None => !self.scrollable@.contains_key(k@),
            },
    {
        self.scrollable.get(k)
    }

    /// Looks a text input theme up by name.
    pub fn get_textinput(&self, k: &String) -> (r: Option<&TextInput>)
        requires
            self.wf(),
        ensures
            match r {
                Some(v) => self.textinput@.contains_key(k@) && *v == self.textinput@[k@],
                None => !self.textinput@.contains_key(k@),
            },
    {
        self.textinput.get(k)
    }
}


impl Default for Theme {
    /// The empty theme.
    fn default() -> (r: Theme)
        ensures
            r.wf(),
            r.color@ == Map::<Seq<char>, Color>::empty(),
            r.button@ == Map::<Seq<char>, Button>::empty(),
    {
        Theme::new()
    }
}

} // verus!
