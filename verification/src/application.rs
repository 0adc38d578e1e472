//! Application theme.

use vstd::prelude::*;

use crate::color::Color;
use crate::error::Error;
use crate::serial;
use crate::table::Table;
use crate::theme::Theme;

verus! {

/// The resolved application style: the two global colors.
#[derive(Clone, Copy, Debug, PartialEq, Eq, Structural)]
pub struct Application {
    /// Background color of the application.
    pub background_color: Color,
    /// Text color of the application.
    pub text_color: Color,
}

/// What a declarative application style resolves to under a color table:
/// both named colors verbatim; nothing when either name dangles.
pub open spec fn application_spec(s: serial::Application, cm: Map<Seq<char>, Color>) -> Option<
    Application,
> {
    if cm.contains_key(s.background_color@) && cm.contains_key(s.text_color@) {
        Some(
            Application {
                background_color: cm[s.background_color@],
                text_color: cm[s.text_color@],
            },
        )
    } else {
        None
    }
}

impl Application {
    /// Resolves a declarative application style against a color table.
    pub(crate) fn create_in(s: &serial::Application, colors: &Table<Color>) -> (r: Result<
        Application,
        Error,
    >)
        requires
            colors.wf(),
        ensures
            match r {
                Ok(a) => application_spec(*s, colors@) == Some(a),
                Err(e) => application_spec(*s, colors@) is None && (
                e matches Error::UnknownReference { name } && name@ == (if !colors@.contains_key(
                    s.background_color@,
                ) {
                    s.background_color@
                } else {
                    s.text_color@
                })),
            },
    {
        let background_color = match colors.get(&s.background_color) {
            Some(c) => *c,
            None => {
                return Err(Error::UnknownReference { name: s.background_color.clone() });
            },
        };
        let text_color = match colors.get(&s.text_color) {
            Some(c) => *c,
            None => {
                return Err(Error::UnknownReference { name: s.text_color.clone() });
            },
        };
        Ok(Application { background_color, text_color })
    }

    /// Attempts to create an application theme from its declarative
    /// version.
    pub fn create(s: &serial::Application, theme: &Theme) -> (r: Result<Application, Error>)
        requires
            theme.wf(),
        ensures
            match r {
                Ok(a) => application_spec(*s, theme.color@) == Some(a),
                Err(e) => application_spec(*s, theme.color@) is None && (
                e matches Error::UnknownReference { .. }),
            },
    {
        Self::create_in(s, &theme.color)
    }
}

} // verus!
