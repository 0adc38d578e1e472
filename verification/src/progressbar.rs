//! Progress bar theme.

use vstd::prelude::*;

use crate::color::Color;
use crate::error::Error;
use crate::serial;
use crate::table::Table;
use crate::theme::Theme;

verus! {

/// A resolved progress bar: concrete colors and the opaque radius.
#[derive(Clone, Copy, Debug, PartialEq, Eq, Structural)]
pub struct ProgressBar {
    /// Background color.
    pub background: Color,
    /// Bar color.
    pub bar: Color,
    /// Border radius (an IEEE 754 single-precision bit pattern).
    pub radius: u32,
}

/// What a declarative progress bar resolves to under a color table;
/// nothing when a name dangles.
pub open spec fn progressbar_spec(s: serial::ProgressBar, cm: Map<Seq<char>, Color>) -> Option<
    ProgressBar,
> {
    if cm.contains_key(s.background@) && cm.contains_key(s.bar@) {
        Some(ProgressBar { background: cm[s.background@], bar: cm[s.bar@], radius: s.radius })
    } else {
        None
    }
}

/// Whether every progress bar entry of the table resolves under the
/// color table.
pub open spec fn progressbars_resolvable(
    sm: Map<Seq<char>, serial::ProgressBar>,
    cm: Map<Seq<char>, Color>,
) -> bool {
    forall|k: Seq<char>| #[trigger] sm.contains_key(k) ==> progressbar_spec(sm[k], cm) is Some
}

/// How a resolved progress bar table relates to its declarative table.
pub open spec fn progressbars_resolved(
    sm: Map<Seq<char>, serial::ProgressBar>,
    cm: Map<Seq<char>, Color>,
    km: Map<Seq<char>, ProgressBar>,
) -> bool {
    &&& km.dom() =~= sm.dom()
    &&& forall|k: Seq<char>| #[trigger] km.contains_key(k) ==> progressbar_spec(sm[k], cm) == Some(
        km[k],
    )
}

impl ProgressBar {
    /// Resolves a declarative progress bar against a color table.
    pub(crate) fn create_in(s: &serial::ProgressBar, colors: &Table<Color>) -> (r: Result<
        ProgressBar,
        Error,
    >)
        requires
            colors.wf(),
        ensures
            match r {
                Ok(p) => progressbar_spec(*s, colors@) == Some(p),
                Err(e) => progressbar_spec(*s, colors@) is None && (
                e matches Error::UnknownReference { name } && name@ == (if !colors@.contains_key(
                    s.background@,
                ) {
                    s.background@
                } else {
                    s.bar@
                })),
            },
    {
        let background = match colors.get(&s.background) {
            Some(c) => *c,
            None => {
                return Err(Error::UnknownReference { name: s.background.clone() });
            },
        };
        let bar = match colors.get(&s.bar) {
            Some(c) => *c,
            None => {
                return Err(Error::UnknownReference { name: s.bar.clone() });
            },
        };
        Ok(ProgressBar { background, bar, radius: s.radius })
    }

    /// Resolves a whole declarative progress bar table in one pass.
    pub(crate) fn resolve_table(src: &Table<serial::ProgressBar>, colors: &Table<Color>) -> (r:
        Result<Table<ProgressBar>, Error>)
        requires
            src.wf(),
            colors.wf(),
        ensures
            match r {
                Ok(out) => out.wf() && progressbars_resolved(src@, colors@, out@),
                Err(e) => !progressbars_resolvable(src@, colors@) && (
                e matches Error::UnknownReference { .. }),
            },
            (r is Ok) == progressbars_resolvable(src@, colors@),
    {
        let n = src.len();
        let mut out: Table<ProgressBar> = Table::new();
        for i in 0..n
            invariant
                n == src.spec_len(),
                src.wf(),
                colors.wf(),
                out.wf(),
                forall|k: Seq<char>| #[trigger] out@.contains_key(k) ==> src@.contains_key(k),
                forall|j: int| 0 <= j < i ==> out@.contains_key(src.key_seq()[j]),
                forall|k: Seq<char>|
                    #[trigger] out@.contains_key(k) ==> progressbar_spec(src@[k], colors@) == Some(
                        out@[k],
                    ),
        {
            let name = src.key_at(i);
            let entry = src.val_at(i);
            proof {
                src.lemma_entry(i as int);
            }
            match Self::create_in(entry, colors) {
                Ok(p) => {
                    out.insert(name.clone(), p);
                },
                Err(e) => {
                    return Err(e);
                },
            }
        }
        proof {
            assert forall|k: Seq<char>| src@.contains_key(k) implies out@.contains_key(k) by {
                src.lemma_dom(k);
                let j = choose|j: int|
                    0 <= j < src.key_seq().len() && src.key_seq()[j] == k;
                assert(out@.contains_key(src.key_seq()[j]));
            }
            assert(out@.dom() =~= src@.dom());
        }
        Ok(out)
    }

    /// Attempts to create a progress bar theme from its declarative
    /// version.
    pub fn create(s: &serial::ProgressBar, theme: &Theme) -> (r: Result<ProgressBar, Error>)
        requires
            theme.wf(),
        ensures
            match r {
                Ok(p) => progressbar_spec(*s, theme.color@) == Some(p),
                Err(e) => progressbar_spec(*s, theme.color@) is None && (
                e matches Error::UnknownReference { .. }),
            },
    {
        Self::create_in(s, &theme.color)
    }
}

} // verus!
