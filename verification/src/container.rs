//! Container theme.

use vstd::prelude::*;

use crate::border::Border;
use crate::color::Color;
use crate::error::Error;
use crate::serial;
use crate::table::Table;
use crate::theme::Theme;

verus! {

/// A resolved container: a concrete background color and border.
#[derive(Clone, Copy, Debug, PartialEq, Eq, Structural)]
pub struct Container {
    /// Background of the container.
    pub color: Color,
    /// Border of the container.
    pub border: Border,
}

/// What a declarative container resolves to under a color table and a
/// resolved border table; nothing when either name dangles.
pub open spec fn container_spec(
    s: serial::Container,
    cm: Map<Seq<char>, Color>,
    bm: Map<Seq<char>, Border>,
) -> Option<Container> {
    if cm.contains_key(s.color@) && bm.contains_key(s.border@) {
        Some(Container { color: cm[s.color@], border: bm[s.border@] })
    } else {
        None
    }
}

/// Whether every container entry of the table resolves under the value
/// tables.
pub open spec fn containers_resolvable(
    sm: Map<Seq<char>, serial::Container>,
    cm: Map<Seq<char>, Color>,
    bm: Map<Seq<char>, Border>,
) -> bool {
    forall|k: Seq<char>| #[trigger] sm.contains_key(k) ==> container_spec(sm[k], cm, bm) is Some
}

/// How a resolved container table relates to its declarative table.
pub open spec fn containers_resolved(
    sm: Map<Seq<char>, serial::Container>,
    cm: Map<Seq<char>, Color>,
    bm: Map<Seq<char>, Border>,
    km: Map<Seq<char>, Container>,
) -> bool {
    &&& km.dom() =~= sm.dom()
    &&& forall|k: Seq<char>| #[trigger] km.contains_key(k) ==> container_spec(sm[k], cm, bm)
        == Some(km[k])
}

impl Container {
    /// Resolves a declarative container against the value tables.
    pub(crate) fn create_in(
        s: &serial::Container,
        colors: &Table<Color>,
        borders: &Table<Border>,
    ) -> (r: Result<Container, Error>)
        requires
            colors.wf(),
            borders.wf(),
        ensures
            match r {
                Ok(c) => container_spec(*s, colors@, borders@) == Some(c),
                Err(e) => container_spec(*s, colors@, borders@) is None && (
                e matches Error::UnknownReference { name } && name@ == (if !colors@.contains_key(
                    s.color@,
                ) {
                    s.color@
                } else {
                    s.border@
                })),
            },
    {
        let color = match colors.get(&s.color) {
            Some(c) => *c,
            None => {
                return Err(Error::UnknownReference { name: s.color.clone() });
            },
        };
        let border = match borders.get(&s.border) {
            Some(b) => *b,
            None => {
                return Err(Error::UnknownReference { name: s.border.clone() });
            },
        };
        Ok(Container { color, border })
    }

    /// Resolves a whole declarative container table in one pass.
    pub(crate) fn resolve_table(
        src: &Table<serial::Container>,
        colors: &Table<Color>,
        borders: &Table<Border>,
    ) -> (r: Result<Table<Container>, Error>)
        requires
            src.wf(),
            colors.wf(),
            borders.wf(),
        ensures
            match r {
                Ok(out) => out.wf() && containers_resolved(src@, colors@, borders@, out@),
                Err(e) => !containers_resolvable(src@, colors@, borders@) && (
                e matches Error::UnknownReference { .. }),
            },
            (r is Ok) == containers_resolvable(src@, colors@, borders@),
    {
        let n = src.len();
        let mut out: Table<Container> = Table::new();
        for i in 0..n
            invariant
                n == src.spec_len(),
                src.wf(),
                colors.wf(),
                borders.wf(),
                out.wf(),
                forall|k: Seq<char>| #[trigger] out@.contains_key(k) ==> src@.contains_key(k),
                forall|j: int| 0 <= j < i ==> out@.contains_key(src.key_seq()[j]),
                forall|k: Seq<char>|
                    #[trigger] out@.contains_key(k) ==> container_spec(src@[k], colors@, borders@)
                        == Some(out@[k]),
        {
            let name = src.key_at(i);
            let entry = src.val_at(i);
            proof {
                src.lemma_entry(i as int);
            }
            match Self::create_in(entry, colors, borders) {
                Ok(c) => {
                    out.insert(name.clone(), c);
                },
                Err(e) => {
                    return Err(e);
                },
            }
        }
        proof {
            assert forall|k: Seq<char>| src@.contains_key(k) implies out@.contains_key(k) by {
                src.lemma_dom(k);
                let j = choose|j: int|
                    0 <= j < src.key_seq().len() && src.key_seq()[j] == k;
                assert(out@.contains_key(src.key_seq()[j]));
            }
            assert(out@.dom() =~= src@.dom());
        }
        Ok(out)
    }

    /// Attempts to create a container theme from its declarative version.
    pub fn create(s: &serial::Container, theme: &Theme) -> (r: Result<Container, Error>)
        requires
            theme.wf(),
        ensures
            match r {
                Ok(c) => container_spec(*s, theme.color@, theme.border@) == Some(c),
                Err(e) => container_spec(*s, theme.color@, theme.border@) is None && (
                e matches Error::UnknownReference { .. }),
            },
    {
        Self::create_in(s, &theme.color, &theme.border)
    }
}

} // verus!
