//! Tooltip theme.

use vstd::prelude::*;

use crate::border::Border;
use crate::color::Color;
use crate::error::Error;
use crate::serial;
use crate::table::Table;
use crate::theme::Theme;

verus! {

/// A resolved tooltip: concrete background and text colors and a border.
#[derive(Clone, Copy, Debug, PartialEq, Eq, Structural)]
pub struct Tooltip {
    /// Background color.
    pub background: Color,
    /// Text color.
    pub text: Color,
    /// Border theme.
    pub border: Border,
}

/// What a declarative tooltip resolves to under a color table and a
/// resolved border table; nothing when a name dangles.
pub open spec fn tooltip_spec(
    s: serial::Tooltip,
    cm: Map<Seq<char>, Color>,
    bm: Map<Seq<char>, Border>,
) -> Option<Tooltip> {
    if cm.contains_key(s.background@) && cm.contains_key(s.text@) && bm.contains_key(s.border@) {
        Some(Tooltip { background: cm[s.background@], text: cm[s.text@], border: bm[s.border@] })
    } else {
        None
    }
}

/// Whether every tooltip entry of the table resolves under the value
/// tables.
pub open spec fn tooltips_resolvable(
    sm: Map<Seq<char>, serial::Tooltip>,
    cm: Map<Seq<char>, Color>,
    bm: Map<Seq<char>, Border>,
) -> bool {
    forall|k: Seq<char>| #[trigger] sm.contains_key(k) ==> tooltip_spec(sm[k], cm, bm) is Some
}

/// How a resolved tooltip table relates to its declarative table.
pub open spec fn tooltips_resolved(
    sm: Map<Seq<char>, serial::Tooltip>,
    cm: Map<Seq<char>, Color>,
    bm: Map<Seq<char>, Border>,
    km: Map<Seq<char>, Tooltip>,
) -> bool {
    &&& km.dom() =~= sm.dom()
    &&& forall|k: Seq<char>| #[trigger] km.contains_key(k) ==> tooltip_spec(sm[k], cm, bm) == Some(
        km[k],
    )
}

impl Tooltip {
    /// Resolves a declarative tooltip against the value tables.
    pub(crate) fn create_in(
        s: &serial::Tooltip,
        colors: &Table<Color>,
        borders: &Table<Border>,
    ) -> (r: Result<Tooltip, Error>)
        requires
            colors.wf(),
            borders.wf(),
        ensures
            match r {
                Ok(t) => tooltip_spec(*s, colors@, borders@) == Some(t),
                Err(e) => tooltip_spec(*s, colors@, borders@) is None && (
                e matches Error::UnknownReference { name } && name@ == (if !colors@.contains_key(
                    s.background@,
                ) {
                    s.background@
                } else if !colors@.contains_key(s.text@) {
                    s.text@
                } else {
                    s.border@
                })),
            },
    {
        let background = match colors.get(&s.background) {
            Some(c) => *c,
            None => {
                return Err(Error::UnknownReference { name: s.background.clone() });
            },
        };
        let text = match colors.get(&s.text) {
            Some(c) => *c,
            None => {
                return Err(Error::UnknownReference { name: s.text.clone() });
            },
        };
        let border = match borders.get(&s.border) {
            Some(b) => *b,
            None => {
                return Err(Error::UnknownReference { name: s.border.clone() });
            },
        };
        Ok(Tooltip { background, text, border })
    }

    /// Resolves a whole declarative tooltip table in one pass.
    pub(crate) fn resolve_table(
        src: &Table<serial::Tooltip>,
        colors: &Table<Color>,
        borders: &Table<Border>,
    ) -> (r: Result<Table<Tooltip>, Error>)
        requires
            src.wf(),
            colors.wf(),
            borders.wf(),
        ensures
            match r {
                Ok(out) => out.wf() && tooltips_resolved(src@, colors@, borders@, out@),
                Err(e) => !tooltips_resolvable(src@, colors@, borders@) && (
                e matches Error::UnknownReference { .. }),
            },
            (r is Ok) == tooltips_resolvable(src@, colors@, borders@),
    {
        let n = src.len();
        let mut out: Table<Tooltip> = Table::new();
        for i in 0..n
            invariant
                n == src.spec_len(),
                src.wf(),
                colors.wf(),
                borders.wf(),
                out.wf(),
                forall|k: Seq<char>| #[trigger] out@.contains_key(k) ==> src@.contains_key(k),
                forall|j: int| 0 <= j < i ==> out@.contains_key(src.key_seq()[j]),
                forall|k: Seq<char>|
                    #[trigger] out@.contains_key(k) ==> tooltip_spec(src@[k], colors@, borders@)
                        == Some(out@[k]),
        {
            let name = src.key_at(i);
            let entry = src.val_at(i);
            proof {
                src.lemma_entry(i as int);
            }
            match Self::create_in(entry, colors, borders) {
                Ok(t) => {
                    out.insert(name.clone(), t);
                },
                Err(e) => {
                    return Err(e);
                },
            }
        }
        proof {
            assert forall|k: Seq<char>| src@.contains_key(k) implies out@.contains_key(k) by {
                src.lemma_dom(k);
                let j = choose|j: int|
                    0 <= j < src.key_seq().len() && src.key_seq()[j] == k;
                assert(out@.contains_key(src.key_seq()[j]));
            }
            assert(out@.dom() =~= src@.dom());
        }
        Ok(out)
    }

    /// Attempts to create a tooltip theme from its declarative version.
    pub fn create(s: &serial::Tooltip, theme: &Theme) -> (r: Result<Tooltip, Error>)
        requires
            theme.wf(),
        ensures
            match r {
                Ok(t) => tooltip_spec(*s, theme.color@, theme.border@) == Some(t),
                Err(e) => tooltip_spec(*s, theme.color@, theme.border@) is None && (
                e matches Error::UnknownReference { .. }),
            },
    {
        Self::create_in(s, &theme.color, &theme.border)
    }
}

} // verus!
