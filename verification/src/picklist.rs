//! Pick list theme.

use vstd::prelude::*;

use crate::border::Border;
use crate::color::Color;
use crate::error::Error;
use crate::fixpoint::all_resolvable;
use crate::fixpoint::lemma_never_ready;
use crate::fixpoint::lemma_reach_step;
use crate::fixpoint::lemma_stall;
use crate::fixpoint::monotone;
use crate::fixpoint::reach;
use crate::fixpoint::resolvable;
use crate::serial;
use crate::slots::first_of2;
use crate::slots::slot_or;
use crate::table::Table;
use crate::theme::Theme;

verus! {

/// One resolved pick list state.
#[derive(Clone, Copy, Debug, PartialEq, Eq, Structural)]
pub struct PicklistState {
    /// Background color.
    pub background: Color,
    /// Text color.
    pub text: Color,
    /// Placeholder color.
    pub placeholder: Color,
    /// Border theme.
    pub border: Border,
    /// Handle color.
    pub handle: Color,
}

/// A resolved pick list menu.
#[derive(Clone, Copy, Debug, PartialEq, Eq, Structural)]
pub struct PicklistMenu {
    /// Background color.
    pub background: Color,
    /// Text color.
    pub text: Color,
    /// Border theme.
    pub border: Border,
    /// Selected background color.
    pub sbackground: Color,
    /// Selected text color.
    pub stext: Color,
}

/// A resolved pick list entry.
#[derive(Clone, Copy, Debug)]
pub struct Picklist {
    /// State themes of the pick list, in order: active, hovered.
    pub state: [PicklistState; 2],
    /// Menu style.
    pub menu: PicklistMenu,
}

/// What a literal pick list state resolves to under the value tables;
/// nothing when a name dangles.
pub open spec fn picklist_state_spec(
    s: serial::PicklistState,
    cm: Map<Seq<char>, Color>,
    bm: Map<Seq<char>, Border>,
) -> Option<PicklistState> {
    if cm.contains_key(s.background@) && cm.contains_key(s.text@) && cm.contains_key(
        s.placeholder@,
    ) && bm.contains_key(s.border@) && cm.contains_key(s.handle@) {
        Some(
            PicklistState {
                background: cm[s.background@],
                text: cm[s.text@],
                placeholder: cm[s.placeholder@],
                border: bm[s.border@],
                handle: cm[s.handle@],
            },
        )
    } else {
        None
    }
}

/// What a literal pick list menu resolves to under the value tables;
/// nothing when a name dangles.
pub open spec fn picklist_menu_spec(
    s: serial::PicklistMenu,
    cm: Map<Seq<char>, Color>,
    bm: Map<Seq<char>, Border>,
) -> Option<PicklistMenu> {
    if cm.contains_key(s.background@) && cm.contains_key(s.text@) && bm.contains_key(s.border@)
        && cm.contains_key(s.sbackground@) && cm.contains_key(s.stext@) {
        Some(
            PicklistMenu {
                background: cm[s.background@],
                text: cm[s.text@],
                border: bm[s.border@],
                sbackground: cm[s.sbackground@],
                stext: cm[s.stext@],
            },
        )
    } else {
        None
    }
}

/// Whether one state slot of a pick list entry can resolve.
pub open spec fn picklist_slot_ok(
    c: serial::PicklistStateComponent,
    cm: Map<Seq<char>, Color>,
    bm: Map<Seq<char>, Border>,
    peers: Set<Seq<char>>,
) -> bool {
    match c {
        serial::PicklistStateComponent::Defined(d) => picklist_state_spec(d, cm, bm) is Some,
        serial::PicklistStateComponent::Inherited(n) => peers.contains(n@),
        serial::PicklistStateComponent::Absent => true,
    }
}

/// Whether the menu of a pick list entry can resolve.  A menu is never
/// absent, so it always demands something.
pub open spec fn picklist_menu_ok(
    c: serial::PicklistMenuComponent,
    cm: Map<Seq<char>, Color>,
    bm: Map<Seq<char>, Border>,
    peers: Set<Seq<char>>,
) -> bool {
    match c {
        serial::PicklistMenuComponent::Defined(m) => picklist_menu_spec(m, cm, bm) is Some,
        serial::PicklistMenuComponent::Inherited(n) => peers.contains(n@),
    }
}

/// Whether a pick list entry can resolve once the entries named `peers`
/// are resolved: both state slots and the menu can resolve, and at least
/// one state slot is not absent.
pub open spec fn picklist_creatable(
    s: serial::Picklist,
    cm: Map<Seq<char>, Color>,
    bm: Map<Seq<char>, Border>,
    peers: Set<Seq<char>>,
) -> bool {
    &&& picklist_slot_ok(s.active, cm, bm, peers)
    &&& picklist_slot_ok(s.hovered, cm, bm, peers)
    &&& picklist_menu_ok(s.menu, cm, bm, peers)
    &&& !(s.active is Absent && s.hovered is Absent)
}

/// The value one state slot resolves to under the resolved peer map `km`.
pub open spec fn picklist_slot_val(
    c: serial::PicklistStateComponent,
    i: int,
    cm: Map<Seq<char>, Color>,
    bm: Map<Seq<char>, Border>,
    km: Map<Seq<char>, Picklist>,
) -> Option<PicklistState> {
    match c {
        serial::PicklistStateComponent::Defined(d) => picklist_state_spec(d, cm, bm),
        serial::PicklistStateComponent::Inherited(n) => if km.contains_key(n@) {
            Some(km[n@].state@[i])
        } else {
            None
        },
        serial::PicklistStateComponent::Absent => None,
    }
}

/// The menu a pick list entry resolves to under the resolved peer map:
/// a literal menu resolves on its own, an inherited menu copies the
/// peer's whole menu.
pub open spec fn picklist_menu_val(
    c: serial::PicklistMenuComponent,
    cm: Map<Seq<char>, Color>,
    bm: Map<Seq<char>, Border>,
    km: Map<Seq<char>, Picklist>,
) -> Option<PicklistMenu> {
    match c {
        serial::PicklistMenuComponent::Defined(m) => picklist_menu_spec(m, cm, bm),
        serial::PicklistMenuComponent::Inherited(n) => if km.contains_key(n@) {
            Some(km[n@].menu)
        } else {
            None
        },
    }
}

/// How a resolved pick list entry relates to its declarative entry.
pub open spec fn picklist_ok(
    s: serial::Picklist,
    cm: Map<Seq<char>, Color>,
    bm: Map<Seq<char>, Border>,
    km: Map<Seq<char>, Picklist>,
    r: Picklist,
) -> bool {
    let v0 = picklist_slot_val(s.active, 0, cm, bm, km);
    let v1 = picklist_slot_val(s.hovered, 1, cm, bm, km);
    let d = first_of2(v0, v1);
    &&& picklist_creatable(s, cm, bm, km.dom())
    &&& r.state@ =~= seq![slot_or(v0, d), slot_or(v1, d)]
    &&& picklist_menu_val(s.menu, cm, bm, km) == Some(r.menu)
}

/// An entry that once resolved against a peer map stays resolved the same
/// way against any extension of it.
pub proof fn lemma_picklist_ok_mono(
    s: serial::Picklist,
    cm: Map<Seq<char>, Color>,
    bm: Map<Seq<char>, Border>,
    k1: Map<Seq<char>, Picklist>,
    k2: Map<Seq<char>, Picklist>,
    r: Picklist,
)
    requires
        picklist_ok(s, cm, bm, k1, r),
        k1.submap_of(k2),
    ensures
        picklist_ok(s, cm, bm, k2, r),
{
    assert(picklist_slot_val(s.active, 0, cm, bm, k1) == picklist_slot_val(
        s.active,
        0,
        cm,
        bm,
        k2,
    ));
    assert(picklist_slot_val(s.hovered, 1, cm, bm, k1) == picklist_slot_val(
        s.hovered,
        1,
        cm,
        bm,
        k2,
    ));
    assert(picklist_menu_val(s.menu, cm, bm, k1) == picklist_menu_val(s.menu, cm, bm, k2));
}

/// Whatever entries are resolved, resolving more never makes an entry
/// less creatable.
pub proof fn lemma_picklist_creatable_mono(
    s: serial::Picklist,
    cm: Map<Seq<char>, Color>,
    bm: Map<Seq<char>, Border>,
    p1: Set<Seq<char>>,
    p2: Set<Seq<char>>,
)
    requires
        picklist_creatable(s, cm, bm, p1),
        p1.subset_of(p2),
    ensures
        picklist_creatable(s, cm, bm, p2),
{
}

/// Whether every reference of a pick list entry other than waiting peers
/// can resolve: both state slots and the menu.
pub open spec fn picklist_refs_ok(
    s: serial::Picklist,
    cm: Map<Seq<char>, Color>,
    bm: Map<Seq<char>, Border>,
    peers: Set<Seq<char>>,
) -> bool {
    &&& picklist_slot_ok(s.active, cm, bm, peers)
    &&& picklist_slot_ok(s.hovered, cm, bm, peers)
    &&& picklist_menu_ok(s.menu, cm, bm, peers)
}

/// A pick list entry with both state slots absent: nothing can fill it.
pub open spec fn picklist_empty(s: serial::Picklist) -> bool {
    s.active is Absent && s.hovered is Absent
}

/// A pick list entry with at least one inheriting part.
pub open spec fn picklist_has_inherited(s: serial::Picklist) -> bool {
    ||| s.active is Inherited
    ||| s.hovered is Inherited
    ||| s.menu is Inherited
}

/// Every inheriting part of the entry names a peer in `peers`.
pub open spec fn picklist_peers_in(s: serial::Picklist, peers: Set<Seq<char>>) -> bool {
    &&& (s.active matches serial::PicklistStateComponent::Inherited(y) ==> peers.contains(y@))
    &&& (s.hovered matches serial::PicklistStateComponent::Inherited(y) ==> peers.contains(y@))
    &&& (s.menu matches serial::PicklistMenuComponent::Inherited(y) ==> peers.contains(y@))
}

/// Some inheriting part of the entry names a peer outside the table: a
/// dangling reference that no pass can supply.
pub open spec fn picklist_dangling_peer(s: serial::Picklist, dom: Set<Seq<char>>) -> bool {
    ||| (s.active matches serial::PicklistStateComponent::Inherited(y) && !dom.contains(y@))
    ||| (s.hovered matches serial::PicklistStateComponent::Inherited(y) && !dom.contains(y@))
    ||| (s.menu matches serial::PicklistMenuComponent::Inherited(y) && !dom.contains(y@))
}

/// Some inheriting part of the entry names a peer that exists but is not
/// yet resolved: the entry must wait for another pass.
pub open spec fn picklist_pending(
    s: serial::Picklist,
    dom: Set<Seq<char>>,
    peers: Set<Seq<char>>,
) -> bool {
    ||| (s.active matches serial::PicklistStateComponent::Inherited(y) && dom.contains(y@)
        && !peers.contains(y@))
    ||| (s.hovered matches serial::PicklistStateComponent::Inherited(y) && dom.contains(y@)
        && !peers.contains(y@))
    ||| (s.menu matches serial::PicklistMenuComponent::Inherited(y) && dom.contains(y@)
        && !peers.contains(y@))
}

/// Some entry of the table references a name that resolution can never
/// supply.
pub open spec fn picklist_dangling(
    sm: Map<Seq<char>, serial::Picklist>,
    cm: Map<Seq<char>, Color>,
    bm: Map<Seq<char>, Border>,
) -> bool {
    exists|n: Seq<char>|
        #[trigger] sm.contains_key(n) && !picklist_refs_ok(sm[n], cm, bm, sm.dom())
}

/// The readiness predicate of pick list resolution.
pub open spec fn picklist_ready_fn(
    sm: Map<Seq<char>, serial::Picklist>,
    cm: Map<Seq<char>, Color>,
    bm: Map<Seq<char>, Border>,
) -> spec_fn(Set<Seq<char>>, Seq<char>) -> bool {
    |done: Set<Seq<char>>, n: Seq<char>|
        sm.contains_key(n) && picklist_creatable(sm[n], cm, bm, done)
}

/// Whether every pick list entry of the table resolves.
pub open spec fn picklists_resolvable(
    sm: Map<Seq<char>, serial::Picklist>,
    cm: Map<Seq<char>, Color>,
    bm: Map<Seq<char>, Border>,
) -> bool {
    all_resolvable(picklist_ready_fn(sm, cm, bm), sm.dom())
}

/// How a resolved pick list table relates to its declarative table.
pub open spec fn picklists_resolved(
    sm: Map<Seq<char>, serial::Picklist>,
    cm: Map<Seq<char>, Color>,
    bm: Map<Seq<char>, Border>,
    km: Map<Seq<char>, Picklist>,
) -> bool {
    &&& km.dom() =~= sm.dom()
    &&& forall|n: Seq<char>|
        #[trigger] km.contains_key(n) ==> picklist_ok(sm[n], cm, bm, km, km[n])
}

/// Pick list readiness is monotone in the resolved set.
pub proof fn lemma_picklist_ready_monotone(
    sm: Map<Seq<char>, serial::Picklist>,
    cm: Map<Seq<char>, Color>,
    bm: Map<Seq<char>, Border>,
)
    ensures
        monotone(picklist_ready_fn(sm, cm, bm)),
{
    let ready = picklist_ready_fn(sm, cm, bm);
    assert forall|s1: Set<Seq<char>>, s2: Set<Seq<char>>, n: Seq<char>|
        s1.subset_of(s2) && #[trigger] ready(s1, n) implies #[trigger] ready(s2, n) by {
        lemma_picklist_creatable_mono(sm[n], cm, bm, s1, s2);
    }
}

/// A hard failure of entry creation is independent of the resolved set.
proof fn lemma_picklist_hard_error(
    s: serial::Picklist,
    cm: Map<Seq<char>, Color>,
    bm: Map<Seq<char>, Border>,
    avail: Set<Seq<char>>,
    other: Set<Seq<char>>,
)
    requires
        !picklist_creatable(s, cm, bm, avail),
        picklist_peers_in(s, avail),
    ensures
        !picklist_creatable(s, cm, bm, other),
{
}

/// A reference failure with every inherited peer available lies in a
/// literal reference, so it persists whatever peers are resolved.
proof fn lemma_picklist_hard_refs(
    s: serial::Picklist,
    cm: Map<Seq<char>, Color>,
    bm: Map<Seq<char>, Border>,
    avail: Set<Seq<char>>,
    other: Set<Seq<char>>,
)
    requires
        !picklist_refs_ok(s, cm, bm, avail),
        picklist_peers_in(s, avail),
    ensures
        !picklist_refs_ok(s, cm, bm, other),
{
}

impl PicklistState {
    /// Resolves a literal pick list state against the value tables.
    pub(crate) fn from_in(
        s: &serial::PicklistState,
        colors: &Table<Color>,
        borders: &Table<Border>,
    ) -> (r: Result<PicklistState, Error>)
        requires
            colors.wf(),
            borders.wf(),
        ensures
            match r {
                Ok(v) => picklist_state_spec(*s, colors@, borders@) == Some(v),
                Err(e) => picklist_state_spec(*s, colors@, borders@) is None && (
                e matches Error::UnknownReference { .. }),
            },
    {
        let background = match colors.get(&s.background) {
            Some(c) => *c,
            None => {
                return Err(Error::UnknownReference { name: s.background.clone() });
            },
        };
        let text = match colors.get(&s.text) {
            Some(c) => *c,
            None => {
                return Err(Error::UnknownReference { name: s.text.clone() });
            },
        };
        let placeholder = match colors.get(&s.placeholder) {
            Some(c) => *c,
            None => {
                return Err(Error::UnknownReference { name: s.placeholder.clone() });
            },
        };
        let border = match borders.get(&s.border) {
            Some(b) => *b,
            None => {
                return Err(Error::UnknownReference { name: s.border.clone() });
            },
        };
        let handle = match colors.get(&s.handle) {
            Some(c) => *c,
            None => {
                return Err(Error::UnknownReference { name: s.handle.clone() });
            },
        };
        Ok(PicklistState { background, text, placeholder, border, handle })
    }
}

impl PicklistMenu {
    /// Resolves a literal pick list menu against the value tables.
    pub(crate) fn from_in(
        s: &serial::PicklistMenu,
        colors: &Table<Color>,
        borders: &Table<Border>,
    ) -> (r: Result<PicklistMenu, Error>)
        requires
            colors.wf(),
            borders.wf(),
        ensures
            match r {
                Ok(v) => picklist_menu_spec(*s, colors@, borders@) == Some(v),
                Err(e) => picklist_menu_spec(*s, colors@, borders@) is None && (
                e matches Error::UnknownReference { .. }),
            },
    {
        let background = match colors.get(&s.background) {
            Some(c) => *c,
            None => {
                return Err(Error::UnknownReference { name: s.background.clone() });
            },
        };
        let text = match colors.get(&s.text) {
            Some(c) => *c,
            None => {
                return Err(Error::UnknownReference { name: s.text.clone() });
            },
        };
        let border = match borders.get(&s.border) {
            Some(b) => *b,
            None => {
                return Err(Error::UnknownReference { name: s.border.clone() });
            },
        };
        let sbackground = match colors.get(&s.sbackground) {
            Some(c) => *c,
            None => {
                return Err(Error::UnknownReference { name: s.sbackground.clone() });
            },
        };
        let stext = match colors.get(&s.stext) {
            Some(c) => *c,
            None => {
                return Err(Error::UnknownReference { name: s.stext.clone() });
            },
        };
        Ok(PicklistMenu { background, text, border, sbackground, stext })
    }
}

impl Picklist {
    /// Resolves one state slot of a pick list entry.
    fn state(
        c: &serial::PicklistStateComponent,
        colors: &Table<Color>,
        borders: &Table<Border>,
        peers: &Table<Picklist>,
        index: usize,
    ) -> (r: Result<Option<PicklistState>, Error>)
        requires
            colors.wf(),
            borders.wf(),
            peers.wf(),
            index < 2,
        ensures
            match r {
                Ok(v) => picklist_slot_ok(*c, colors@, borders@, peers@.dom()) && v
                    == picklist_slot_val(*c, index as int, colors@, borders@, peers@),
                Err(e) => !picklist_slot_ok(*c, colors@, borders@, peers@.dom()) && (
                e matches Error::UnknownReference { .. }),
            },
    {
        match c {
            serial::PicklistStateComponent::Defined(d) => match PicklistState::from_in(
                d,
                colors,
                borders,
            ) {
                Ok(s) => Ok(Some(s)),
                Err(e) => Err(e),
            },
            serial::PicklistStateComponent::Inherited(n) => match peers.get(n) {
                Some(p) => Ok(Some(p.state[index])),
                None => Err(Error::UnknownReference { name: n.clone() }),
            },
            serial::PicklistStateComponent::Absent => Ok(None),
        }
    }

    /// Resolves the menu of a pick list entry.
    fn menu(
        c: &serial::PicklistMenuComponent,
        colors: &Table<Color>,
        borders: &Table<Border>,
        peers: &Table<Picklist>,
    ) -> (r: Result<PicklistMenu, Error>)
        requires
            colors.wf(),
            borders.wf(),
            peers.wf(),
        ensures
            match r {
                Ok(v) => picklist_menu_ok(*c, colors@, borders@, peers@.dom())
                    && picklist_menu_val(*c, colors@, borders@, peers@) == Some(v),
                Err(e) => !picklist_menu_ok(*c, colors@, borders@, peers@.dom()) && (
                e matches Error::UnknownReference { .. }),
            },
    {
        match c {
            serial::PicklistMenuComponent::Defined(m) => PicklistMenu::from_in(
                m,
                colors,
                borders,
            ),
            serial::PicklistMenuComponent::Inherited(n) => match peers.get(n) {
                Some(p) => Ok(p.menu),
                None => Err(Error::UnknownReference { name: n.clone() }),
            },
        }
    }

    /// Resolves a declarative pick list entry against the value tables
    /// and the already resolved peers.  On a `NoDefinedState` failure the
    /// entry name is left empty; the caller attributes it.
    pub(crate) fn create_in(
        s: &serial::Picklist,
        colors: &Table<Color>,
        borders: &Table<Border>,
        peers: &Table<Picklist>,
    ) -> (r: Result<Picklist, Error>)
        requires
            colors.wf(),
            borders.wf(),
            peers.wf(),
        ensures
            (r is Ok) == picklist_creatable(*s, colors@, borders@, peers@.dom()),
            match r {
                Ok(v) => picklist_ok(*s, colors@, borders@, peers@, v),
                Err(e) => match e {
                    Error::UnknownReference { .. } => !(picklist_slot_ok(
                        s.active,
                        colors@,
                        borders@,
                        peers@.dom(),
                    ) && picklist_slot_ok(s.hovered, colors@, borders@, peers@.dom())
                        && picklist_menu_ok(s.menu, colors@, borders@, peers@.dom())),
                    Error::NoDefinedState { .. } => s.active is Absent && s.hovered is Absent,
                    _ => false,
                },
            },
    {
        let active = match Self::state(&s.active, colors, borders, peers, 0) {
            Ok(v) => v,
            Err(e) => {
                return Err(e);
            },
        };
        let hovered = match Self::state(&s.hovered, colors, borders, peers, 1) {
            Ok(v) => v,
            Err(e) => {
                return Err(e);
            },
        };
        let menu = match Self::menu(&s.menu, colors, borders, peers) {
            Ok(v) => v,
            Err(e) => {
                return Err(e);
            },
        };
        // Default-fill policy: the first resolved slot is the fallback.
        let fallback = if let Some(d) = active {
            d
        } else if let Some(d) = hovered {
            d
        } else {
            return Err(Error::NoDefinedState { entry: String::new() });
        };
        Ok(
            Picklist {
                state: [
                    match active {
                        Some(v) => v,
                        None => fallback,
                    },
                    match hovered {
                        Some(v) => v,
                        None => fallback,
                    },
                ],
                menu,
            },
        )
    }

    /// Attempts to create a pick list theme from its declarative version,
    /// against a theme whose pick list table holds the resolved peers.
    pub fn create(s: &serial::Picklist, theme: &Theme) -> (r: Result<Picklist, Error>)
        requires
            theme.wf(),
        ensures
            (r is Ok) == picklist_creatable(
                *s,
                theme.color@,
                theme.border@,
                theme.picklist@.dom(),
            ),
            match r {
                Ok(v) => picklist_ok(*s, theme.color@, theme.border@, theme.picklist@, v),
                Err(e) => !(e matches Error::MalformedValue { .. }) && !(
                e matches Error::UnresolvableCycle { .. }),
            },
    {
        Self::create_in(s, &theme.color, &theme.border, &theme.picklist)
    }

    /// Whether one state slot's inherited peer is resolved: yes; not yet;
    /// or never (a dangling reference).
    fn peer_ok(
        c: &serial::PicklistStateComponent,
        src: &Table<serial::Picklist>,
        done: &Table<Picklist>,
    ) -> (r: Result<bool, Error>)
        requires
            src.wf(),
            done.wf(),
        ensures
            match r {
                Ok(true) => (*c matches serial::PicklistStateComponent::Inherited(y)
                    ==> done@.contains_key(y@)),
                Ok(false) => (*c matches serial::PicklistStateComponent::Inherited(y)
                    && src@.contains_key(y@) && !done@.contains_key(y@)),
                Err(e) => (e matches Error::UnknownReference { name } && (
                *c matches serial::PicklistStateComponent::Inherited(y) && !src@.contains_key(y@)
                    && name@ == y@)),
            },
    {
        match c {
            serial::PicklistStateComponent::Inherited(y) => {
                if done.contains(y) {
                    Ok(true)
                } else if src.contains(y) {
                    Ok(false)
                } else {
                    Err(Error::UnknownReference { name: y.clone() })
                }
            },
            _ => Ok(true),
        }
    }

    /// Whether the menu's inherited peer is resolved: yes; not yet; or
    /// never (a dangling reference).
    fn menu_peer_ok(
        c: &serial::PicklistMenuComponent,
        src: &Table<serial::Picklist>,
        done: &Table<Picklist>,
    ) -> (r: Result<bool, Error>)
        requires
            src.wf(),
            done.wf(),
        ensures
            match r {
                Ok(true) => (*c matches serial::PicklistMenuComponent::Inherited(y)
                    ==> done@.contains_key(y@)),
                Ok(false) => (*c matches serial::PicklistMenuComponent::Inherited(y)
                    && src@.contains_key(y@) && !done@.contains_key(y@)),
                Err(e) => (e matches Error::UnknownReference { name } && (
                *c matches serial::PicklistMenuComponent::Inherited(y) && !src@.contains_key(y@)
                    && name@ == y@)),
            },
    {
        match c {
            serial::PicklistMenuComponent::Inherited(y) => {
                if done.contains(y) {
                    Ok(true)
                } else if src.contains(y) {
                    Ok(false)
                } else {
                    Err(Error::UnknownReference { name: y.clone() })
                }
            },
            _ => Ok(true),
        }
    }

    /// Whether every inherited peer of the entry is resolved; `Ok(false)`
    /// defers the entry to a later pass, an error reports a dangling peer.
    fn peers_available(
        s: &serial::Picklist,
        src: &Table<serial::Picklist>,
        done: &Table<Picklist>,
    ) -> (r: Result<bool, Error>)
        requires
            src.wf(),
            done.wf(),
        ensures
            match r {
                Ok(true) => picklist_peers_in(*s, done@.dom()),
                Ok(false) => picklist_pending(*s, src@.dom(), done@.dom()),
                Err(e) => (e matches Error::UnknownReference { .. }) && picklist_dangling_peer(
                    *s,
                    src@.dom(),
                ),
            },
    {
        let mut pending = false;
        match Self::peer_ok(&s.active, src, done) {
            Ok(b) => {
                if !b {
                    pending = true;
                }
            },
            Err(e) => {
                return Err(e);
            },
        }
        match Self::peer_ok(&s.hovered, src, done) {
            Ok(b) => {
                if !b {
                    pending = true;
                }
            },
            Err(e) => {
                return Err(e);
            },
        }
        match Self::menu_peer_ok(&s.menu, src, done) {
            Ok(b) => {
                if !b {
                    pending = true;
                }
            },
            Err(e) => {
                return Err(e);
            },
        }
        Ok(!pending)
    }

    /// The name of some entry of `src` that is not yet resolved in
    /// `done`, if any is left.
    fn first_unresolved(src: &Table<serial::Picklist>, done: &Table<Picklist>) -> (r: Option<
        String,
    >)
        requires
            src.wf(),
            done.wf(),
        ensures
            match r {
                None => forall|k: Seq<char>|
                    #[trigger] src@.contains_key(k) ==> done@.contains_key(k),
                Some(nm) => src@.contains_key(nm@) && !done@.contains_key(nm@),
            },
    {
        let n = src.len();
        for i in 0..n
            invariant
                n == src.spec_len(),
                src.wf(),
                done.wf(),
                forall|j: int| 0 <= j < i ==> done@.contains_key(src.key_seq()[j]),
        {
            let name = src.key_at(i);
            if !done.contains(name) {
                proof {
                    src.lemma_entry(i as int);
                }
                return Some(name.clone());
            }
        }
        proof {
            assert forall|k: Seq<char>| src@.contains_key(k) implies done@.contains_key(k) by {
                src.lemma_dom(k);
                let j = choose|j: int|
                    0 <= j < src.key_seq().len() && src.key_seq()[j] == k;
                assert(done@.contains_key(src.key_seq()[j]));
            }
        }
        None
    }

    /// Resolves a whole declarative pick list table: passes over the
    /// entries until every entry is resolved or a pass makes no progress.
    #[verifier::loop_isolation(false)]
    pub(crate) fn resolve_table(
        src: &Table<serial::Picklist>,
        colors: &Table<Color>,
        borders: &Table<Border>,
    ) -> (r: Result<Table<Picklist>, Error>)
        requires
            src.wf(),
            colors.wf(),
            borders.wf(),
        ensures
            match r {
                Ok(out) => out.wf() && picklists_resolved(src@, colors@, borders@, out@)
                    && picklists_resolvable(src@, colors@, borders@),
                Err(e) => !picklists_resolvable(src@, colors@, borders@) && match e {
                    Error::MalformedValue { .. } => false,
                    Error::UnknownReference { .. } => picklist_dangling(src@, colors@, borders@),
                    Error::NoDefinedState { entry } => src@.contains_key(entry@)
                        && picklist_empty(src@[entry@]),
                    Error::UnresolvableCycle { entry } => src@.contains_key(entry@)
                        && picklist_has_inherited(src@[entry@]),
                },
            },
    {
        let ghost sm = src@;
        let ghost cm = colors@;
        let ghost bm = borders@;
        let ghost ready = picklist_ready_fn(sm, cm, bm);
        proof {
            lemma_picklist_ready_monotone(sm, cm, bm);
        }
        let n = src.len();
        let mut done: Table<Picklist> = Table::new();
        let ghost mut fuel: nat = 0;
        loop
            invariant
                done.wf(),
                done.spec_len() <= sm.dom().len(),
                forall|k: Seq<char>| #[trigger] done@.contains_key(k) ==> sm.contains_key(k),
                done@.dom().subset_of(reach(ready, sm.dom(), fuel)),
                forall|k: Seq<char>|
                    #[trigger] done@.contains_key(k) ==> picklist_ok(
                        sm[k],
                        cm,
                        bm,
                        done@,
                        done@[k],
                    ),
            decreases sm.dom().len() + 1 - done.spec_len(),
        {
            let before = done.len();
            proof {
                crate::table::lemma_table_len_le(&done, src);
                src.lemma_card();
            }
            for i in 0..n
                invariant
                    done.wf(),
                    before <= done.spec_len(),
                    done.spec_len() <= sm.dom().len(),
                    forall|k: Seq<char>| #[trigger] done@.contains_key(k) ==> sm.contains_key(k),
                    done@.dom().subset_of(reach(ready, sm.dom(), fuel)),
                    forall|k: Seq<char>|
                        #[trigger] done@.contains_key(k) ==> picklist_ok(
                            sm[k],
                            cm,
                            bm,
                            done@,
                            done@[k],
                        ),
                    done.spec_len() == before ==> forall|j: int|
                        0 <= j < i ==> (!done@.contains_key(#[trigger] src.key_seq()[j])
                            ==> picklist_pending(sm[src.key_seq()[j]], sm.dom(), done@.dom())),
            {
                let name = src.key_at(i);
                proof {
                    src.lemma_entry(i as int);
                }
                if !done.contains(name) {
                    let entry = src.val_at(i);
                    match Self::peers_available(entry, src, &done) {
                        Err(e) => {
                            proof {
                                assert forall|s: Set<Seq<char>>|
                                    s.subset_of(sm.dom()) implies !ready(s, name@) by {
                                    assert(!picklist_refs_ok(*entry, cm, bm, s));
                                }
                                lemma_never_ready(ready, sm.dom(), name@);
                                assert(!picklist_refs_ok(sm[name@], cm, bm, sm.dom()));
                            }
                            return Err(e);
                        },
                        Ok(false) => {
                            // The entry waits for an unresolved peer; a later
                            // pass retries it.
                        },
                        Ok(true) => {
                            match Self::create_in(entry, colors, borders, &done) {
                                Ok(b) => {
                                    proof {
                                        assert(ready(done@.dom(), name@));
                                        lemma_reach_step(ready, sm.dom(), done@.dom(), fuel, name@);
                                        fuel = fuel + 1;
                                    }
                                    let ghost old_done = done@;
                                    done.insert(name.clone(), b);
                                    proof {
                                        crate::table::lemma_table_len_le(&done, src);
                                        assert(done@.dom() =~= old_done.dom().insert(name@));
                                        assert(old_done.submap_of(done@));
                                        assert forall|k: Seq<char>|
                                            #[trigger] done@.contains_key(k) implies picklist_ok(
                                            sm[k],
                                            cm,
                                            bm,
                                            done@,
                                            done@[k],
                                        ) by {
                                            if k == name@ {
                                                lemma_picklist_ok_mono(
                                                    sm[k],
                                                    cm,
                                                    bm,
                                                    old_done,
                                                    done@,
                                                    b,
                                                );
                                            } else {
                                                lemma_picklist_ok_mono(
                                                    sm[k],
                                                    cm,
                                                    bm,
                                                    old_done,
                                                    done@,
                                                    old_done[k],
                                                );
                                            }
                                        }
                                    }
                                },
                                Err(e) => {
                                    proof {
                                        assert forall|s: Set<Seq<char>>|
                                            s.subset_of(sm.dom()) implies !ready(s, name@) by {
                                            lemma_picklist_hard_error(
                                                *entry,
                                                cm,
                                                bm,
                                                done@.dom(),
                                                s,
                                            );
                                        }
                                        lemma_never_ready(ready, sm.dom(), name@);
                                        if e matches Error::UnknownReference { .. } {
                                            lemma_picklist_hard_refs(
                                                *entry,
                                                cm,
                                                bm,
                                                done@.dom(),
                                                sm.dom(),
                                            );
                                        }
                                    }
                                    let e2 = match e {
                                        Error::NoDefinedState { .. } => Error::NoDefinedState {
                                            entry: name.clone(),
                                        },
                                        other => other,
                                    };
                                    return Err(e2);
                                },
                            }
                        },
                    }
                }
            }
            match Self::first_unresolved(src, &done) {
                None => {
                    proof {
                        assert(done@.dom() =~= sm.dom());
                        assert forall|k: Seq<char>| #[trigger]
                            sm.dom().contains(k) implies resolvable(ready, sm.dom(), k) by {
                            assert(reach(ready, sm.dom(), fuel).contains(k));
                        }
                    }
                    return Ok(done);
                },
                Some(nm) => {
                    if done.len() == before {
                        proof {
                            assert forall|m: Seq<char>|
                                sm.dom().contains(m) && !done@.dom().contains(m) implies !ready(
                                done@.dom(),
                                m,
                            ) by {
                                src.lemma_dom(m);
                                let j = choose|j: int|
                                    0 <= j < src.key_seq().len() && src.key_seq()[j] == m;
                                assert(picklist_pending(sm[m], sm.dom(), done@.dom()));
                            }
                            assert forall|f: nat|
                                !reach(ready, sm.dom(), f).contains(nm@) by {
                                lemma_stall(ready, sm.dom(), done@.dom(), f);
                            }
                            assert(!resolvable(ready, sm.dom(), nm@));
                            assert(picklist_pending(sm[nm@], sm.dom(), done@.dom()));
                        }
                        return Err(Error::UnresolvableCycle { entry: nm });
                    }
                },
            }
        }
    }
}

} // verus!
