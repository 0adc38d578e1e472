//! Button theme.

use vstd::prelude::*;

use crate::border::Border;
use crate::color::Color;
use crate::error::Error;
use crate::fixpoint::all_resolvable;
use crate::fixpoint::lemma_never_ready;
use crate::fixpoint::lemma_reach_step;
use crate::fixpoint::lemma_stall;
use crate::fixpoint::monotone;
use crate::fixpoint::reach;
use crate::fixpoint::resolvable;
use crate::serial;
use crate::slots::first_of4;
use crate::slots::slot_or;
use crate::table::Table;
use crate::theme::Theme;

verus! {

/// One resolved button state: concrete colors and border.
#[derive(Clone, Copy, Debug, PartialEq, Eq, Structural)]
pub struct ButtonState {
    /// Background color.
    pub background: Color,
    /// Text color.
    pub text: Color,
    /// Border theme.
    pub border: Border,
}

/// A resolved button entry.
#[derive(Clone, Copy, Debug)]
pub struct Button {
    /// State themes of the button, in order: active, hovered, pressed,
    /// disabled.
    pub state: [ButtonState; 4],
}

/// What a literal button state resolves to under the value tables;
/// nothing when a name dangles.
pub open spec fn button_state_spec(
    s: serial::ButtonState,
    cm: Map<Seq<char>, Color>,
    bm: Map<Seq<char>, Border>,
) -> Option<ButtonState> {
    if cm.contains_key(s.background@) && cm.contains_key(s.text@) && bm.contains_key(s.border@) {
        Some(
            ButtonState {
                background: cm[s.background@],
                text: cm[s.text@],
                border: bm[s.border@],
            },
        )
    } else {
        None
    }
}

/// Whether one slot of a button entry can resolve: a literal slot needs
/// its names in the value tables, an inheriting slot needs its peer among
/// `peers`, an absent slot asks nothing.
pub open spec fn button_slot_ok(
    c: serial::ButtonComponent,
    cm: Map<Seq<char>, Color>,
    bm: Map<Seq<char>, Border>,
    peers: Set<Seq<char>>,
) -> bool {
    match c {
        serial::ButtonComponent::Defined(d) => button_state_spec(d, cm, bm) is Some,
        serial::ButtonComponent::Inherited(n) => peers.contains(n@),
        serial::ButtonComponent::Absent => true,
    }
}

/// Whether a button entry can resolve once the entries named `peers` are
/// resolved: every slot can resolve, and at least one slot is not absent.
pub open spec fn button_creatable(
    s: serial::Button,
    cm: Map<Seq<char>, Color>,
    bm: Map<Seq<char>, Border>,
    peers: Set<Seq<char>>,
) -> bool {
    &&& button_slot_ok(s.active, cm, bm, peers)
    &&& button_slot_ok(s.hovered, cm, bm, peers)
    &&& button_slot_ok(s.pressed, cm, bm, peers)
    &&& button_slot_ok(s.disabled, cm, bm, peers)
    &&& !(s.active is Absent && s.hovered is Absent && s.pressed is Absent
        && s.disabled is Absent)
}

/// The value one slot resolves to under the resolved peer map `km`:
/// a literal slot resolves on its own, an inheriting slot copies the
/// peer's slot at the same index, an absent slot resolves to nothing.
pub open spec fn button_slot_val(
    c: serial::ButtonComponent,
    i: int,
    cm: Map<Seq<char>, Color>,
    bm: Map<Seq<char>, Border>,
    km: Map<Seq<char>, Button>,
) -> Option<ButtonState> {
    match c {
        serial::ButtonComponent::Defined(d) => button_state_spec(d, cm, bm),
        serial::ButtonComponent::Inherited(n) => if km.contains_key(n@) {
            Some(km[n@].state@[i])
        } else {
            None
        },
        serial::ButtonComponent::Absent => None,
    }
}

/// How a resolved button entry relates to its declarative entry, under
/// the value tables and the resolved peer map: each slot holds its own
/// resolved value, and every slot that resolved to nothing holds the
/// first resolved value instead.
pub open spec fn button_ok(
    s: serial::Button,
    cm: Map<Seq<char>, Color>,
    bm: Map<Seq<char>, Border>,
    km: Map<Seq<char>, Button>,
    r: Button,
) -> bool {
    let v0 = button_slot_val(s.active, 0, cm, bm, km);
    let v1 = button_slot_val(s.hovered, 1, cm, bm, km);
    let v2 = button_slot_val(s.pressed, 2, cm, bm, km);
    let v3 = button_slot_val(s.disabled, 3, cm, bm, km);
    let d = first_of4(v0, v1, v2, v3);
    &&& button_creatable(s, cm, bm, km.dom())
    &&& r.state@ =~= seq![slot_or(v0, d), slot_or(v1, d), slot_or(v2, d), slot_or(v3, d)]
}

/// An entry that once resolved against a peer map stays resolved the same
/// way against any extension of it.
pub proof fn lemma_button_ok_mono(
    s: serial::Button,
    cm: Map<Seq<char>, Color>,
    bm: Map<Seq<char>, Border>,
    k1: Map<Seq<char>, Button>,
    k2: Map<Seq<char>, Button>,
    r: Button,
)
    requires
        button_ok(s, cm, bm, k1, r),
        k1.submap_of(k2),
    ensures
        button_ok(s, cm, bm, k2, r),
{
    assert(button_slot_val(s.active, 0, cm, bm, k1) == button_slot_val(s.active, 0, cm, bm, k2));
    assert(button_slot_val(s.hovered, 1, cm, bm, k1) == button_slot_val(
        s.hovered,
        1,
        cm,
        bm,
        k2,
    ));
    assert(button_slot_val(s.pressed, 2, cm, bm, k1) == button_slot_val(
        s.pressed,
        2,
        cm,
        bm,
        k2,
    ));
    assert(button_slot_val(s.disabled, 3, cm, bm, k1) == button_slot_val(
        s.disabled,
        3,
        cm,
        bm,
        k2,
    ));
}

/// Whatever entries are resolved, resolving more never makes an entry
/// less creatable.
pub proof fn lemma_button_creatable_mono(
    s: serial::Button,
    cm: Map<Seq<char>, Color>,
    bm: Map<Seq<char>, Border>,
    p1: Set<Seq<char>>,
    p2: Set<Seq<char>>,
)
    requires
        button_creatable(s, cm, bm, p1),
        p1.subset_of(p2),
    ensures
        button_creatable(s, cm, bm, p2),
{
}

/// Whether every slot of a button entry can resolve against `peers`.
pub open spec fn button_slots_ok(
    s: serial::Button,
    cm: Map<Seq<char>, Color>,
    bm: Map<Seq<char>, Border>,
    peers: Set<Seq<char>>,
) -> bool {
    &&& button_slot_ok(s.active, cm, bm, peers)
    &&& button_slot_ok(s.hovered, cm, bm, peers)
    &&& button_slot_ok(s.pressed, cm, bm, peers)
    &&& button_slot_ok(s.disabled, cm, bm, peers)
}

/// A button entry with every slot absent: nothing can fill it.
pub open spec fn button_empty(s: serial::Button) -> bool {
    s.active is Absent && s.hovered is Absent && s.pressed is Absent && s.disabled is Absent
}

/// A button entry with at least one inheriting slot.
pub open spec fn button_has_inherited(s: serial::Button) -> bool {
    ||| s.active is Inherited
    ||| s.hovered is Inherited
    ||| s.pressed is Inherited
    ||| s.disabled is Inherited
}

/// Every inheriting slot of the entry names a peer in `peers`.
pub open spec fn button_peers_in(s: serial::Button, peers: Set<Seq<char>>) -> bool {
    &&& (s.active matches serial::ButtonComponent::Inherited(y) ==> peers.contains(y@))
    &&& (s.hovered matches serial::ButtonComponent::Inherited(y) ==> peers.contains(y@))
    &&& (s.pressed matches serial::ButtonComponent::Inherited(y) ==> peers.contains(y@))
    &&& (s.disabled matches serial::ButtonComponent::Inherited(y) ==> peers.contains(y@))
}

/// Some inheriting slot of the entry names a peer outside the table: a
/// dangling reference that no pass can supply.
pub open spec fn button_dangling_peer(s: serial::Button, dom: Set<Seq<char>>) -> bool {
    ||| (s.active matches serial::ButtonComponent::Inherited(y) && !dom.contains(y@))
    ||| (s.hovered matches serial::ButtonComponent::Inherited(y) && !dom.contains(y@))
    ||| (s.pressed matches serial::ButtonComponent::Inherited(y) && !dom.contains(y@))
    ||| (s.disabled matches serial::ButtonComponent::Inherited(y) && !dom.contains(y@))
}

/// Some inheriting slot of the entry names a peer that exists but is not
/// yet resolved: the entry must wait for another pass.
pub open spec fn button_pending(
    s: serial::Button,
    dom: Set<Seq<char>>,
    peers: Set<Seq<char>>,
) -> bool {
    ||| (s.active matches serial::ButtonComponent::Inherited(y) && dom.contains(y@)
        && !peers.contains(y@))
    ||| (s.hovered matches serial::ButtonComponent::Inherited(y) && dom.contains(y@)
        && !peers.contains(y@))
    ||| (s.pressed matches serial::ButtonComponent::Inherited(y) && dom.contains(y@)
        && !peers.contains(y@))
    ||| (s.disabled matches serial::ButtonComponent::Inherited(y) && dom.contains(y@)
        && !peers.contains(y@))
}

/// Some entry of the table references a name that resolution can never
/// supply: a literal slot's dangling color or border, or an inheriting
/// slot whose peer is not in the table at all.
pub open spec fn button_dangling(
    sm: Map<Seq<char>, serial::Button>,
    cm: Map<Seq<char>, Color>,
    bm: Map<Seq<char>, Border>,
) -> bool {
    exists|n: Seq<char>| #[trigger] sm.contains_key(n) && !button_slots_ok(sm[n], cm, bm, sm.dom())
}

/// The readiness predicate of button resolution: an entry is ready once
/// the peers it inherits from are resolved and its literal slots resolve.
pub open spec fn button_ready_fn(
    sm: Map<Seq<char>, serial::Button>,
    cm: Map<Seq<char>, Color>,
    bm: Map<Seq<char>, Border>,
) -> spec_fn(Set<Seq<char>>, Seq<char>) -> bool {
    |done: Set<Seq<char>>, n: Seq<char>| sm.contains_key(n) && button_creatable(sm[n], cm, bm, done)
}

/// Whether every button entry of the table resolves.
pub open spec fn buttons_resolvable(
    sm: Map<Seq<char>, serial::Button>,
    cm: Map<Seq<char>, Color>,
    bm: Map<Seq<char>, Border>,
) -> bool {
    all_resolvable(button_ready_fn(sm, cm, bm), sm.dom())
}

/// How a resolved button table relates to its declarative table: the same
/// names, each bound to a resolved entry that its declarative entry and
/// the whole resolved table justify.
pub open spec fn buttons_resolved(
    sm: Map<Seq<char>, serial::Button>,
    cm: Map<Seq<char>, Color>,
    bm: Map<Seq<char>, Border>,
    km: Map<Seq<char>, Button>,
) -> bool {
    &&& km.dom() =~= sm.dom()
    &&& forall|n: Seq<char>| #[trigger] km.contains_key(n) ==> button_ok(sm[n], cm, bm, km, km[n])
}

/// Button readiness is monotone in the resolved set.
pub proof fn lemma_button_ready_monotone(
    sm: Map<Seq<char>, serial::Button>,
    cm: Map<Seq<char>, Color>,
    bm: Map<Seq<char>, Border>,
)
    ensures
        monotone(button_ready_fn(sm, cm, bm)),
{
    let ready = button_ready_fn(sm, cm, bm);
    assert forall|s1: Set<Seq<char>>, s2: Set<Seq<char>>, n: Seq<char>|
        s1.subset_of(s2) && #[trigger] ready(s1, n) implies #[trigger] ready(s2, n) by {
        lemma_button_creatable_mono(sm[n], cm, bm, s1, s2);
    }
}

impl ButtonState {
    /// Resolves a literal button state against the value tables.
    pub(crate) fn from_in(
        s: &serial::ButtonState,
        colors: &Table<Color>,
        borders: &Table<Border>,
    ) -> (r: Result<ButtonState, Error>)
        requires
            colors.wf(),
            borders.wf(),
        ensures
            match r {
                Ok(b) => button_state_spec(*s, colors@, borders@) == Some(b),
                Err(e) => button_state_spec(*s, colors@, borders@) is None && (
                e matches Error::UnknownReference { .. }),
            },
    {
        let background = match colors.get(&s.background) {
            Some(c) => *c,
            None => {
                return Err(Error::UnknownReference { name: s.background.clone() });
            },
        };
        let text = match colors.get(&s.text) {
            Some(c) => *c,
            None => {
                return Err(Error::UnknownReference { name: s.text.clone() });
            },
        };
        let border = match borders.get(&s.border) {
            Some(b) => *b,
            None => {
                return Err(Error::UnknownReference { name: s.border.clone() });
            },
        };
        Ok(ButtonState { background, text, border })
    }
}

impl Button {
    /// Resolves one slot of a button entry against the value tables and
    /// the already resolved peers.
    fn state(
        c: &serial::ButtonComponent,
        colors: &Table<Color>,
        borders: &Table<Border>,
        peers: &Table<Button>,
        index: usize,
    ) -> (r: Result<Option<ButtonState>, Error>)
        requires
            colors.wf(),
            borders.wf(),
            peers.wf(),
            index < 4,
        ensures
            match r {
                Ok(v) => button_slot_ok(*c, colors@, borders@, peers@.dom()) && v
                    == button_slot_val(*c, index as int, colors@, borders@, peers@),
                Err(e) => !button_slot_ok(*c, colors@, borders@, peers@.dom()) && (
                e matches Error::UnknownReference { .. }),
            },
    {
        match c {
            serial::ButtonComponent::Defined(d) => match ButtonState::from_in(
                d,
                colors,
                borders,
            ) {
                Ok(s) => Ok(Some(s)),
                Err(e) => Err(e),
            },
            serial::ButtonComponent::Inherited(n) => match peers.get(n) {
                Some(p) => Ok(Some(p.state[index])),
                None => Err(Error::UnknownReference { name: n.clone() }),
            },
            serial::ButtonComponent::Absent => Ok(None),
        }
    }

    /// Resolves a declarative button entry against the value tables and
    /// the already resolved peers.  On a `NoDefinedState` failure the
    /// entry name is left empty; the caller attributes it.
    pub(crate) fn create_in(
        s: &serial::Button,
        colors: &Table<Color>,
        borders: &Table<Border>,
        peers: &Table<Button>,
    ) -> (r: Result<Button, Error>)
        requires
            colors.wf(),
            borders.wf(),
            peers.wf(),
        ensures
            (r is Ok) == button_creatable(*s, colors@, borders@, peers@.dom()),
            match r {
                Ok(b) => button_ok(*s, colors@, borders@, peers@, b),
                Err(e) => match e {
                    Error::UnknownReference { .. } => !(button_slot_ok(
                        s.active,
                        colors@,
                        borders@,
                        peers@.dom(),
                    ) && button_slot_ok(s.hovered, colors@, borders@, peers@.dom())
                        && button_slot_ok(s.pressed, colors@, borders@, peers@.dom())
                        && button_slot_ok(s.disabled, colors@, borders@, peers@.dom())),
                    Error::NoDefinedState { .. } => s.active is Absent && s.hovered is Absent
                        && s.pressed is Absent && s.disabled is Absent,
                    _ => false,
                },
            },
    {
        let active = match Self::state(&s.active, colors, borders, peers, 0) {
            Ok(v) => v,
            Err(e) => {
                return Err(e);
            },
        };
        let hovered = match Self::state(&s.hovered, colors, borders, peers, 1) {
            Ok(v) => v,
            Err(e) => {
                return Err(e);
            },
        };
        let pressed = match Self::state(&s.pressed, colors, borders, peers, 2) {
            Ok(v) => v,
            Err(e) => {
                return Err(e);
            },
        };
        let disabled = match Self::state(&s.disabled, colors, borders, peers, 3) {
            Ok(v) => v,
            Err(e) => {
                return Err(e);
            },
        };
        // Default-fill policy: the first resolved slot is the fallback.
        let fallback = if let Some(d) = active {
            d
        } else if let Some(d) = hovered {
            d
        } else if let Some(d) = pressed {
            d
        } else if let Some(d) = disabled {
            d
        } else {
            return Err(Error::NoDefinedState { entry: String::new() });
        };
        Ok(
            Button {
                state: [
                    match active {
                        Some(v) => v,
                        None => fallback,
                    },
                    match hovered {
                        Some(v) => v,
                        None => fallback,
                    },
                    match pressed {
                        Some(v) => v,
                        None => fallback,
                    },
                    match disabled {
                        Some(v) => v,
                        None => fallback,
                    },
                ],
            },
        )
    }

    /// Attempts to create a button theme from its declarative version,
    /// against a theme whose button table holds the resolved peers.
    pub fn create(s: &serial::Button, theme: &Theme) -> (r: Result<Button, Error>)
        requires
            theme.wf(),
        ensures
            (r is Ok) == button_creatable(*s, theme.color@, theme.border@, theme.button@.dom()),
            match r {
                Ok(b) => button_ok(*s, theme.color@, theme.border@, theme.button@, b),
                Err(e) => !(e matches Error::MalformedValue { .. }) && !(
                e matches Error::UnresolvableCycle { .. }),
            },
    {
        Self::create_in(s, &theme.color, &theme.border, &theme.button)
    }

    /// Whether one slot's inherited peer is resolved: yes; not yet (the
    /// peer exists but is unresolved); or never (the peer is not in the
    /// table, a dangling reference).
    fn peer_ok(
        c: &serial::ButtonComponent,
        src: &Table<serial::Button>,
        done: &Table<Button>,
    ) -> (r: Result<bool, Error>)
        requires
            src.wf(),
            done.wf(),
        ensures
            match r {
                Ok(true) => (*c matches serial::ButtonComponent::Inherited(y)
                    ==> done@.contains_key(y@)),
                Ok(false) => (*c matches serial::ButtonComponent::Inherited(y)
                    && src@.contains_key(y@) && !done@.contains_key(y@)),
                Err(e) => (e matches Error::UnknownReference { name } && (
                *c matches serial::ButtonComponent::Inherited(y) && !src@.contains_key(y@)
                    && name@ == y@)),
            },
    {
        match c {
            serial::ButtonComponent::Inherited(y) => {
                if done.contains(y) {
                    Ok(true)
                } else if src.contains(y) {
                    Ok(false)
                } else {
                    Err(Error::UnknownReference { name: y.clone() })
                }
            },
            _ => Ok(true),
        }
    }

    /// Whether every inherited peer of the entry is resolved; `Ok(false)`
    /// defers the entry to a later pass, an error reports a dangling peer.
    fn peers_available(
        s: &serial::Button,
        src: &Table<serial::Button>,
        done: &Table<Button>,
    ) -> (r: Result<bool, Error>)
        requires
            src.wf(),
            done.wf(),
        ensures
            match r {
                Ok(true) => button_peers_in(*s, done@.dom()),
                Ok(false) => button_pending(*s, src@.dom(), done@.dom()),
                Err(e) => (e matches Error::UnknownReference { .. }) && button_dangling_peer(
                    *s,
                    src@.dom(),
                ),
            },
    {
        let mut pending = false;
        match Self::peer_ok(&s.active, src, done) {
            Ok(b) => {
                if !b {
                    pending = true;
                }
            },
            Err(e) => {
                return Err(e);
            },
        }
        match Self::peer_ok(&s.hovered, src, done) {
            Ok(b) => {
                if !b {
                    pending = true;
                }
            },
            Err(e) => {
                return Err(e);
            },
        }
        match Self::peer_ok(&s.pressed, src, done) {
            Ok(b) => {
                if !b {
                    pending = true;
                }
            },
            Err(e) => {
                return Err(e);
            },
        }
        match Self::peer_ok(&s.disabled, src, done) {
            Ok(b) => {
                if !b {
                    pending = true;
                }
            },
            Err(e) => {
                return Err(e);
            },
        }
        Ok(!pending)
    }

    /// The name of some entry of `src` that is not yet resolved in
    /// `done`, if any is left.
    fn first_unresolved(src: &Table<serial::Button>, done: &Table<Button>) -> (r: Option<String>)
        requires
            src.wf(),
            done.wf(),
        ensures
            match r {
                None => forall|k: Seq<char>|
                    #[trigger] src@.contains_key(k) ==> done@.contains_key(k),
                Some(nm) => src@.contains_key(nm@) && !done@.contains_key(nm@),
            },
    {
        let n = src.len();
        for i in 0..n
            invariant
                n == src.spec_len(),
                src.wf(),
                done.wf(),
                forall|j: int| 0 <= j < i ==> done@.contains_key(src.key_seq()[j]),
        {
            let name = src.key_at(i);
            if !done.contains(name) {
                proof {
                    src.lemma_entry(i as int);
                }
                return Some(name.clone());
            }
        }
        proof {
            assert forall|k: Seq<char>| src@.contains_key(k) implies done@.contains_key(k) by {
                src.lemma_dom(k);
                let j = choose|j: int|
                    0 <= j < src.key_seq().len() && src.key_seq()[j] == k;
                assert(done@.contains_key(src.key_seq()[j]));
            }
        }
        None
    }

    /// Resolves a whole declarative button table: passes over the entries
    /// until every entry is resolved or a pass makes no progress.
    #[verifier::loop_isolation(false)]
    pub(crate) fn resolve_table(
        src: &Table<serial::Button>,
        colors: &Table<Color>,
        borders: &Table<Border>,
    ) -> (r: Result<Table<Button>, Error>)
        requires
            src.wf(),
            colors.wf(),
            borders.wf(),
        ensures
            match r {
                Ok(out) => out.wf() && buttons_resolved(src@, colors@, borders@, out@)
                    && buttons_resolvable(src@, colors@, borders@),
                Err(e) => !buttons_resolvable(src@, colors@, borders@) && match e {
                    Error::MalformedValue { .. } => false,
                    Error::UnknownReference { .. } => button_dangling(src@, colors@, borders@),
                    Error::NoDefinedState { entry } => src@.contains_key(entry@) && button_empty(
                        src@[entry@],
                    ),
                    Error::UnresolvableCycle { entry } => src@.contains_key(entry@)
                        && button_has_inherited(src@[entry@]),
                },
            },
    {
        let ghost sm = src@;
        let ghost cm = colors@;
        let ghost bm = borders@;
        let ghost ready = button_ready_fn(sm, cm, bm);
        proof {
            lemma_button_ready_monotone(sm, cm, bm);
        }
        let n = src.len();
        let mut done: Table<Button> = Table::new();
        let ghost mut fuel: nat = 0;
        loop
            invariant
                done.wf(),
                done.spec_len() <= sm.dom().len(),
                forall|k: Seq<char>| #[trigger] done@.contains_key(k) ==> sm.contains_key(k),
                done@.dom().subset_of(reach(ready, sm.dom(), fuel)),
                forall|k: Seq<char>|
                    #[trigger] done@.contains_key(k) ==> button_ok(sm[k], cm, bm, done@, done@[k]),
            decreases sm.dom().len() + 1 - done.spec_len(),
        {
            let before = done.len();
            proof {
                crate::table::lemma_table_len_le(&done, src);
                src.lemma_card();
            }
            for i in 0..n
                invariant
                    done.wf(),
                    before <= done.spec_len(),
                    done.spec_len() <= sm.dom().len(),
                    forall|k: Seq<char>| #[trigger] done@.contains_key(k) ==> sm.contains_key(k),
                    done@.dom().subset_of(reach(ready, sm.dom(), fuel)),
                    forall|k: Seq<char>|
                        #[trigger] done@.contains_key(k) ==> button_ok(
                            sm[k],
                            cm,
                            bm,
                            done@,
                            done@[k],
                        ),
                    done.spec_len() == before ==> forall|j: int|
                        0 <= j < i ==> (!done@.contains_key(#[trigger] src.key_seq()[j])
                            ==> button_pending(sm[src.key_seq()[j]], sm.dom(), done@.dom())),
            {
                let name = src.key_at(i);
                proof {
                    src.lemma_entry(i as int);
                }
                if !done.contains(name) {
                    let entry = src.val_at(i);
                    match Self::peers_available(entry, src, &done) {
                        Err(e) => {
                            proof {
                                assert forall|s: Set<Seq<char>>|
                                    s.subset_of(sm.dom()) implies !ready(s, name@) by {
                                    assert(!button_slots_ok(*entry, cm, bm, s));
                                }
                                lemma_never_ready(ready, sm.dom(), name@);
                                assert(!button_slots_ok(sm[name@], cm, bm, sm.dom()));
                            }
                            return Err(e);
                        },
                        Ok(false) => {
                            // The entry waits for an unresolved peer; a later
                            // pass retries it.
                        },
                        Ok(true) => {
                            match Self::create_in(entry, colors, borders, &done) {
                                Ok(b) => {
                                    proof {
                                        assert(ready(done@.dom(), name@));
                                        lemma_reach_step(ready, sm.dom(), done@.dom(), fuel, name@);
                                        fuel = fuel + 1;
                                    }
                                    let ghost old_done = done@;
                                    done.insert(name.clone(), b);
                                    proof {
                                        crate::table::lemma_table_len_le(&done, src);
                                        assert(done@.dom() =~= old_done.dom().insert(name@));
                                        assert(old_done.submap_of(done@));
                                        assert forall|k: Seq<char>|
                                            #[trigger] done@.contains_key(k) implies button_ok(
                                            sm[k],
                                            cm,
                                            bm,
                                            done@,
                                            done@[k],
                                        ) by {
                                            if k == name@ {
                                                lemma_button_ok_mono(
                                                    sm[k],
                                                    cm,
                                                    bm,
                                                    old_done,
                                                    done@,
                                                    b,
                                                );
                                            } else {
                                                lemma_button_ok_mono(
                                                    sm[k],
                                                    cm,
                                                    bm,
                                                    old_done,
                                                    done@,
                                                    old_done[k],
                                                );
                                            }
                                        }
                                    }
                                },
                                Err(e) => {
                                    proof {
                                        assert forall|s: Set<Seq<char>>|
                                            s.subset_of(sm.dom()) implies !ready(s, name@) by {
                                            lemma_button_hard_error(*entry, cm, bm, done@.dom(), s);
                                        }
                                        lemma_never_ready(ready, sm.dom(), name@);
                                        if e matches Error::UnknownReference { .. } {
                                            lemma_button_hard_slots(
                                                *entry,
                                                cm,
                                                bm,
                                                done@.dom(),
                                                sm.dom(),
                                            );
                                        }
                                    }
                                    let e2 = match e {
                                        Error::NoDefinedState { .. } => Error::NoDefinedState {
                                            entry: name.clone(),
                                        },
                                        other => other,
                                    };
                                    return Err(e2);
                                },
                            }
                        },
                    }
                }
            }
            match Self::first_unresolved(src, &done) {
                None => {
                    proof {
                        assert(done@.dom() =~= sm.dom());
                        assert forall|k: Seq<char>| #[trigger]
                            sm.dom().contains(k) implies resolvable(ready, sm.dom(), k) by {
                            assert(reach(ready, sm.dom(), fuel).contains(k));
                        }
                    }
                    return Ok(done);
                },
                Some(nm) => {
                    if done.len() == before {
                        proof {
                            assert forall|m: Seq<char>|
                                sm.dom().contains(m) && !done@.dom().contains(m) implies !ready(
                                done@.dom(),
                                m,
                            ) by {
                                src.lemma_dom(m);
                                let j = choose|j: int|
                                    0 <= j < src.key_seq().len() && src.key_seq()[j] == m;
                                assert(button_pending(sm[m], sm.dom(), done@.dom()));
                            }
                            assert forall|f: nat|
                                !reach(ready, sm.dom(), f).contains(nm@) by {
                                lemma_stall(ready, sm.dom(), done@.dom(), f);
                            }
                            assert(!resolvable(ready, sm.dom(), nm@));
                            assert(button_pending(sm[nm@], sm.dom(), done@.dom()));
                        }
                        return Err(Error::UnresolvableCycle { entry: nm });
                    }
                },
            }
        }
    }
}

/// A hard failure of entry creation is independent of the resolved set:
/// when every inherited peer was available and creation still failed, the
/// entry can never be created.
proof fn lemma_button_hard_error(
    s: serial::Button,
    cm: Map<Seq<char>, Color>,
    bm: Map<Seq<char>, Border>,
    avail: Set<Seq<char>>,
    other: Set<Seq<char>>,
)
    requires
        !button_creatable(s, cm, bm, avail),
        button_peers_in(s, avail),
    ensures
        !button_creatable(s, cm, bm, other),
{
}

/// A slot failure with every inherited peer available lies in a literal
/// slot, so it persists whatever peers are resolved.
proof fn lemma_button_hard_slots(
    s: serial::Button,
    cm: Map<Seq<char>, Color>,
    bm: Map<Seq<char>, Border>,
    avail: Set<Seq<char>>,
    other: Set<Seq<char>>,
)
    requires
        !button_slots_ok(s, cm, bm, avail),
        button_peers_in(s, avail),
    ensures
        !button_slots_ok(s, cm, bm, other),
{
}

} // verus!
