//! Border theme.

use vstd::prelude::*;

use crate::color::Color;
use crate::error::Error;
use crate::serial;
use crate::table::Table;
use crate::theme::Theme;

verus! {

/// A resolved border: a concrete color plus the opaque numeric payload
/// (radius and width as IEEE 754 single-precision bit patterns).
#[derive(Clone, Copy, Debug, PartialEq, Eq, Structural)]
pub struct Border {
    /// Color of the border.
    pub color: Color,
    /// Radius of the border.
    pub radius: u32,
    /// Width of the border.
    pub width: u32,
}

/// What a declarative border resolves to under a color table: the named
/// color verbatim, the payload unchanged; nothing when the name dangles.
pub open spec fn border_spec(s: serial::Border, cm: Map<Seq<char>, Color>) -> Option<Border> {
    if cm.contains_key(s.color@) {
        Some(Border { color: cm[s.color@], radius: s.radius, width: s.width })
    } else {
        None
    }
}

/// Whether every border entry of the table resolves under the color
/// table.
pub open spec fn borders_resolvable(
    sm: Map<Seq<char>, serial::Border>,
    cm: Map<Seq<char>, Color>,
) -> bool {
    forall|k: Seq<char>| #[trigger] sm.contains_key(k) ==> border_spec(sm[k], cm) is Some
}

/// How a resolved border table relates to its declarative table: the
/// same names, each bound to what its entry resolves to.
pub open spec fn borders_resolved(
    sm: Map<Seq<char>, serial::Border>,
    cm: Map<Seq<char>, Color>,
    bm: Map<Seq<char>, Border>,
) -> bool {
    &&& bm.dom() =~= sm.dom()
    &&& forall|k: Seq<char>| #[trigger] bm.contains_key(k) ==> border_spec(sm[k], cm) == Some(
        bm[k],
    )
}

impl Border {
    /// Resolves a declarative border against a color table.
    pub(crate) fn create_in(s: &serial::Border, colors: &Table<Color>) -> (r: Result<
        Border,
        Error,
    >)
        requires
            colors.wf(),
        ensures
            match r {
                Ok(b) => border_spec(*s, colors@) == Some(b),
                Err(e) => border_spec(*s, colors@) is None && (e matches Error::UnknownReference {
                    name,
                } && name@ == s.color@),
            },
    {
        match colors.get(&s.color) {
            Some(c) => Ok(Border { color: *c, radius: s.radius, width: s.width }),
            None => Err(Error::UnknownReference { name: s.color.clone() }),
        }
    }

    /// Resolves a whole declarative border table in one pass.
    pub(crate) fn resolve_table(src: &Table<serial::Border>, colors: &Table<Color>) -> (r: Result<
        Table<Border>,
        Error,
    >)
        requires
            src.wf(),
            colors.wf(),
        ensures
            match r {
                Ok(out) => out.wf() && borders_resolved(src@, colors@, out@),
                Err(e) => !borders_resolvable(src@, colors@) && (
                e matches Error::UnknownReference { .. }),
            },
            (r is Ok) == borders_resolvable(src@, colors@),
    {
        let n = src.len();
        let mut out: Table<Border> = Table::new();
        for i in 0..n
            invariant
                n == src.spec_len(),
                src.wf(),
                colors.wf(),
                out.wf(),
                forall|k: Seq<char>| #[trigger] out@.contains_key(k) ==> src@.contains_key(k),
                forall|j: int| 0 <= j < i ==> out@.contains_key(src.key_seq()[j]),
                forall|k: Seq<char>|
                    #[trigger] out@.contains_key(k) ==> border_spec(src@[k], colors@) == Some(
                        out@[k],
                    ),
        {
            let name = src.key_at(i);
            let entry = src.val_at(i);
            proof {
                src.lemma_entry(i as int);
            }
            match Self::create_in(entry, colors) {
                Ok(b) => {
                    out.insert(name.clone(), b);
                },
                Err(e) => {
                    return Err(e);
                },
            }
        }
        proof {
            assert forall|k: Seq<char>| src@.contains_key(k) implies out@.contains_key(k) by {
                src.lemma_dom(k);
                let j = choose|j: int|
                    0 <= j < src.key_seq().len() && src.key_seq()[j] == k;
                assert(out@.contains_key(src.key_seq()[j]));
            }
            assert(out@.dom() =~= src@.dom());
        }
        Ok(out)
    }

    /// Attempts to create a border theme from its declarative version.
    pub fn create(s: &serial::Border, theme: &Theme) -> (r: Result<Border, Error>)
        requires
            theme.wf(),
        ensures
            match r {
                Ok(b) => border_spec(*s, theme.color@) == Some(b),
                Err(e) => border_spec(*s, theme.color@) is None && (
                e matches Error::UnknownReference { name } && name@ == s.color@),
            },
    {
        Self::create_in(s, &theme.color)
    }
}

} // verus!
