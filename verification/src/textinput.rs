//! Text input theme.

use vstd::prelude::*;

use crate::border::Border;
use crate::color::Color;
use crate::error::Error;
use crate::fixpoint::all_resolvable;
use crate::fixpoint::lemma_never_ready;
use crate::fixpoint::lemma_reach_step;
use crate::fixpoint::lemma_stall;
use crate::fixpoint::monotone;
use crate::fixpoint::reach;
use crate::fixpoint::resolvable;
use crate::serial;
use crate::slots::first_of3;
use crate::slots::slot_or;
use crate::table::Table;
use crate::theme::Theme;

verus! {

/// One resolved text input state.
#[derive(Clone, Copy, Debug, PartialEq, Eq, Structural)]
pub struct TextInputState {
    /// Background color.
    pub background: Color,
    /// Border theme.
    pub border: Border,
}

/// A resolved text input entry.
#[derive(Clone, Copy, Debug)]
pub struct TextInput {
    /// State themes of the text input, in order: active, hovered, focused.
    pub state: [TextInputState; 3],
    /// Plain colors, in order: placeholder, value, selection.
    pub colors: [Color; 3],
}

/// What a literal text input state resolves to under the value tables;
/// nothing when a name dangles.
pub open spec fn textinput_state_spec(
    s: serial::TextInputState,
    cm: Map<Seq<char>, Color>,
    bm: Map<Seq<char>, Border>,
) -> Option<TextInputState> {
    if cm.contains_key(s.background@) && bm.contains_key(s.border@) {
        Some(TextInputState { background: cm[s.background@], border: bm[s.border@] })
    } else {
        None
    }
}

/// Whether one slot of a text input entry can resolve.
pub open spec fn textinput_slot_ok(
    c: serial::TextInputComponent,
    cm: Map<Seq<char>, Color>,
    bm: Map<Seq<char>, Border>,
    peers: Set<Seq<char>>,
) -> bool {
    match c {
        serial::TextInputComponent::Defined(d) => textinput_state_spec(d, cm, bm) is Some,
        serial::TextInputComponent::Inherited(n) => peers.contains(n@),
        serial::TextInputComponent::Absent => true,
    }
}

/// Whether a text input entry can resolve once the entries named `peers`
/// are resolved: every slot can resolve, at least one slot is not absent,
/// and the three plain color names are in the color table.
pub open spec fn textinput_creatable(
    s: serial::TextInput,
    cm: Map<Seq<char>, Color>,
    bm: Map<Seq<char>, Border>,
    peers: Set<Seq<char>>,
) -> bool {
    &&& textinput_slot_ok(s.active, cm, bm, peers)
    &&& textinput_slot_ok(s.hovered, cm, bm, peers)
    &&& textinput_slot_ok(s.focused, cm, bm, peers)
    &&& !(s.active is Absent && s.hovered is Absent && s.focused is Absent)
    &&& cm.contains_key(s.placeholder@)
    &&& cm.contains_key(s.value@)
    &&& cm.contains_key(s.selection@)
}

/// The value one slot resolves to under the resolved peer map `km`.
pub open spec fn textinput_slot_val(
    c: serial::TextInputComponent,
    i: int,
    cm: Map<Seq<char>, Color>,
    bm: Map<Seq<char>, Border>,
    km: Map<Seq<char>, TextInput>,
) -> Option<TextInputState> {
    match c {
        serial::TextInputComponent::Defined(d) => textinput_state_spec(d, cm, bm),
        serial::TextInputComponent::Inherited(n) => if km.contains_key(n@) {
            Some(km[n@].state@[i])
        } else {
            None
        },
        serial::TextInputComponent::Absent => None,
    }
}

/// How a resolved text input entry relates to its declarative entry.
pub open spec fn textinput_ok(
    s: serial::TextInput,
    cm: Map<Seq<char>, Color>,
    bm: Map<Seq<char>, Border>,
    km: Map<Seq<char>, TextInput>,
    r: TextInput,
) -> bool {
    let v0 = textinput_slot_val(s.active, 0, cm, bm, km);
    let v1 = textinput_slot_val(s.hovered, 1, cm, bm, km);
    let v2 = textinput_slot_val(s.focused, 2, cm, bm, km);
    let d = first_of3(v0, v1, v2);
    &&& textinput_creatable(s, cm, bm, km.dom())
    &&& r.state@ =~= seq![slot_or(v0, d), slot_or(v1, d), slot_or(v2, d)]
    &&& r.colors@ =~= seq![cm[s.placeholder@], cm[s.value@], cm[s.selection@]]
}

/// An entry that once resolved against a peer map stays resolved the same
/// way against any extension of it.
pub proof fn lemma_textinput_ok_mono(
    s: serial::TextInput,
    cm: Map<Seq<char>, Color>,
    bm: Map<Seq<char>, Border>,
    k1: Map<Seq<char>, TextInput>,
    k2: Map<Seq<char>, TextInput>,
    r: TextInput,
)
    requires
        textinput_ok(s, cm, bm, k1, r),
        k1.submap_of(k2),
    ensures
        textinput_ok(s, cm, bm, k2, r),
{
    assert(textinput_slot_val(s.active, 0, cm, bm, k1) == textinput_slot_val(
        s.active,
        0,
        cm,
        bm,
        k2,
    ));
    assert(textinput_slot_val(s.hovered, 1, cm, bm, k1) == textinput_slot_val(
        s.hovered,
        1,
        cm,
        bm,
        k2,
    ));
    assert(textinput_slot_val(s.focused, 2, cm, bm, k1) == textinput_slot_val(
        s.focused,
        2,
        cm,
        bm,
        k2,
    ));
}

/// Whatever entries are resolved, resolving more never makes an entry
/// less creatable.
pub proof fn lemma_textinput_creatable_mono(
    s: serial::TextInput,
    cm: Map<Seq<char>, Color>,
    bm: Map<Seq<char>, Border>,
    p1: Set<Seq<char>>,
    p2: Set<Seq<char>>,
)
    requires
        textinput_creatable(s, cm, bm, p1),
        p1.subset_of(p2),
    ensures
        textinput_creatable(s, cm, bm, p2),
{
}

/// Whether every reference of a text input entry other than waiting
/// peers can resolve: each slot, and the three plain color names.
pub open spec fn textinput_refs_ok(
    s: serial::TextInput,
    cm: Map<Seq<char>, Color>,
    bm: Map<Seq<char>, Border>,
    peers: Set<Seq<char>>,
) -> bool {
    &&& textinput_slot_ok(s.active, cm, bm, peers)
    &&& textinput_slot_ok(s.hovered, cm, bm, peers)
    &&& textinput_slot_ok(s.focused, cm, bm, peers)
    &&& cm.contains_key(s.placeholder@)
    &&& cm.contains_key(s.value@)
    &&& cm.contains_key(s.selection@)
}

/// A text input entry with every slot absent: nothing can fill it.
pub open spec fn textinput_empty(s: serial::TextInput) -> bool {
    s.active is Absent && s.hovered is Absent && s.focused is Absent
}

/// A text input entry with at least one inheriting slot.
pub open spec fn textinput_has_inherited(s: serial::TextInput) -> bool {
    ||| s.active is Inherited
    ||| s.hovered is Inherited
    ||| s.focused is Inherited
}

/// Every inheriting slot of the entry names a peer in `peers`.
pub open spec fn textinput_peers_in(s: serial::TextInput, peers: Set<Seq<char>>) -> bool {
    &&& (s.active matches serial::TextInputComponent::Inherited(y) ==> peers.contains(y@))
    &&& (s.hovered matches serial::TextInputComponent::Inherited(y) ==> peers.contains(y@))
    &&& (s.focused matches serial::TextInputComponent::Inherited(y) ==> peers.contains(y@))
}

/// Some inheriting slot of the entry names a peer outside the table: a
/// dangling reference that no pass can supply.
pub open spec fn textinput_dangling_peer(s: serial::TextInput, dom: Set<Seq<char>>) -> bool {
    ||| (s.active matches serial::TextInputComponent::Inherited(y) && !dom.contains(y@))
    ||| (s.hovered matches serial::TextInputComponent::Inherited(y) && !dom.contains(y@))
    ||| (s.focused matches serial::TextInputComponent::Inherited(y) && !dom.contains(y@))
}

/// Some inheriting slot of the entry names a peer that exists but is not
/// yet resolved: the entry must wait for another pass.
pub open spec fn textinput_pending(
    s: serial::TextInput,
    dom: Set<Seq<char>>,
    peers: Set<Seq<char>>,
) -> bool {
    ||| (s.active matches serial::TextInputComponent::Inherited(y) && dom.contains(y@)
        && !peers.contains(y@))
    ||| (s.hovered matches serial::TextInputComponent::Inherited(y) && dom.contains(y@)
        && !peers.contains(y@))
    ||| (s.focused matches serial::TextInputComponent::Inherited(y) && dom.contains(y@)
        && !peers.contains(y@))
}

/// Some entry of the table references a name that resolution can never
/// supply.
pub open spec fn textinput_dangling(
    sm: Map<Seq<char>, serial::TextInput>,
    cm: Map<Seq<char>, Color>,
    bm: Map<Seq<char>, Border>,
) -> bool {
    exists|n: Seq<char>|
        #[trigger] sm.contains_key(n) && !textinput_refs_ok(sm[n], cm, bm, sm.dom())
}

/// The readiness predicate of text input resolution.
pub open spec fn textinput_ready_fn(
    sm: Map<Seq<char>, serial::TextInput>,
    cm: Map<Seq<char>, Color>,
    bm: Map<Seq<char>, Border>,
) -> spec_fn(Set<Seq<char>>, Seq<char>) -> bool {
    |done: Set<Seq<char>>, n: Seq<char>|
        sm.contains_key(n) && textinput_creatable(sm[n], cm, bm, done)
}

/// Whether every text input entry of the table resolves.
pub open spec fn textinputs_resolvable(
    sm: Map<Seq<char>, serial::TextInput>,
    cm: Map<Seq<char>, Color>,
    bm: Map<Seq<char>, Border>,
) -> bool {
    all_resolvable(textinput_ready_fn(sm, cm, bm), sm.dom())
}

/// How a resolved text input table relates to its declarative table.
pub open spec fn textinputs_resolved(
    sm: Map<Seq<char>, serial::TextInput>,
    cm: Map<Seq<char>, Color>,
    bm: Map<Seq<char>, Border>,
    km: Map<Seq<char>, TextInput>,
) -> bool {
    &&& km.dom() =~= sm.dom()
    &&& forall|n: Seq<char>|
        #[trigger] km.contains_key(n) ==> textinput_ok(sm[n], cm, bm, km, km[n])
}

/// Text input readiness is monotone in the resolved set.
pub proof fn lemma_textinput_ready_monotone(
    sm: Map<Seq<char>, serial::TextInput>,
    cm: Map<Seq<char>, Color>,
    bm: Map<Seq<char>, Border>,
)
    ensures
        monotone(textinput_ready_fn(sm, cm, bm)),
{
    let ready = textinput_ready_fn(sm, cm, bm);
    assert forall|s1: Set<Seq<char>>, s2: Set<Seq<char>>, n: Seq<char>|
        s1.subset_of(s2) && #[trigger] ready(s1, n) implies #[trigger] ready(s2, n) by {
        lemma_textinput_creatable_mono(sm[n], cm, bm, s1, s2);
    }
}

/// A hard failure of entry creation is independent of the resolved set.
proof fn lemma_textinput_hard_error(
    s: serial::TextInput,
    cm: Map<Seq<char>, Color>,
    bm: Map<Seq<char>, Border>,
    avail: Set<Seq<char>>,
    other: Set<Seq<char>>,
)
    requires
        !textinput_creatable(s, cm, bm, avail),
        textinput_peers_in(s, avail),
    ensures
        !textinput_creatable(s, cm, bm, other),
{
}

/// A reference failure with every inherited peer available lies in a
/// literal reference, so it persists whatever peers are resolved.
proof fn lemma_textinput_hard_refs(
    s: serial::TextInput,
    cm: Map<Seq<char>, Color>,
    bm: Map<Seq<char>, Border>,
    avail: Set<Seq<char>>,
    other: Set<Seq<char>>,
)
    requires
        !textinput_refs_ok(s, cm, bm, avail),
        textinput_peers_in(s, avail),
    ensures
        !textinput_refs_ok(s, cm, bm, other),
{
}

impl TextInputState {
    /// Resolves a literal text input state against the value tables.
    pub(crate) fn from_in(
        s: &serial::TextInputState,
        colors: &Table<Color>,
        borders: &Table<Border>,
    ) -> (r: Result<TextInputState, Error>)
        requires
            colors.wf(),
            borders.wf(),
        ensures
            match r {
                Ok(v) => textinput_state_spec(*s, colors@, borders@) == Some(v),
                Err(e) => textinput_state_spec(*s, colors@, borders@) is None && (
                e matches Error::UnknownReference { .. }),
            },
    {
        let background = match colors.get(&s.background) {
            Some(c) => *c,
            None => {
                return Err(Error::UnknownReference { name: s.background.clone() });
            },
        };
        let border = match borders.get(&s.border) {
            Some(b) => *b,
            None => {
                return Err(Error::UnknownReference { name: s.border.clone() });
            },
        };
        Ok(TextInputState { background, border })
    }
}

impl TextInput {
    /// Resolves one slot of a text input entry.
    fn state(
        c: &serial::TextInputComponent,
        colors: &Table<Color>,
        borders: &Table<Border>,
        peers: &Table<TextInput>,
        index: usize,
    ) -> (r: Result<Option<TextInputState>, Error>)
        requires
            colors.wf(),
            borders.wf(),
            peers.wf(),
            index < 3,
        ensures
            match r {
                Ok(v) => textinput_slot_ok(*c, colors@, borders@, peers@.dom()) && v
                    == textinput_slot_val(*c, index as int, colors@, borders@, peers@),
                Err(e) => !textinput_slot_ok(*c, colors@, borders@, peers@.dom()) && (
                e matches Error::UnknownReference { .. }),
            },
    {
        match c {
            serial::TextInputComponent::Defined(d) => match TextInputState::from_in(
                d,
                colors,
                borders,
            ) {
                Ok(s) => Ok(Some(s)),
                Err(e) => Err(e),
            },
            serial::TextInputComponent::Inherited(n) => match peers.get(n) {
                Some(p) => Ok(Some(p.state[index])),
                None => Err(Error::UnknownReference { name: n.clone() }),
            },
            serial::TextInputComponent::Absent => Ok(None),
        }
    }

    /// Resolves a declarative text input entry against the value tables
    /// and the already resolved peers.  On a `NoDefinedState` failure the
    /// entry name is left empty; the caller attributes it.
    pub(crate) fn create_in(
        s: &serial::TextInput,
        colors: &Table<Color>,
        borders: &Table<Border>,
        peers: &Table<TextInput>,
    ) -> (r: Result<TextInput, Error>)
        requires
            colors.wf(),
            borders.wf(),
            peers.wf(),
        ensures
            (r is Ok) == textinput_creatable(*s, colors@, borders@, peers@.dom()),
            match r {
                Ok(v) => textinput_ok(*s, colors@, borders@, peers@, v),
                Err(e) => match e {
                    Error::UnknownReference { .. } => !(textinput_slot_ok(
                        s.active,
                        colors@,
                        borders@,
                        peers@.dom(),
                    ) && textinput_slot_ok(s.hovered, colors@, borders@, peers@.dom())
                        && textinput_slot_ok(s.focused, colors@, borders@, peers@.dom())
                        && colors@.contains_key(s.placeholder@) && colors@.contains_key(s.value@)
                        && colors@.contains_key(s.selection@)),
                    Error::NoDefinedState { .. } => s.active is Absent && s.hovered is Absent
                        && s.focused is Absent,
                    _ => false,
                },
            },
    {
        let active = match Self::state(&s.active, colors, borders, peers, 0) {
            Ok(v) => v,
            Err(e) => {
                return Err(e);
            },
        };
        let hovered = match Self::state(&s.hovered, colors, borders, peers, 1) {
            Ok(v) => v,
            Err(e) => {
                return Err(e);
            },
        };
        let focused = match Self::state(&s.focused, colors, borders, peers, 2) {
            Ok(v) => v,
            Err(e) => {
                return Err(e);
            },
        };
        let placeholder = match colors.get(&s.placeholder) {
            Some(c) => *c,
            None => {
                return Err(Error::UnknownReference { name: s.placeholder.clone() });
            },
        };
        let value = match colors.get(&s.value) {
            Some(c) => *c,
            None => {
                return Err(Error::UnknownReference { name: s.value.clone() });
            },
        };
        let selection = match colors.get(&s.selection) {
            Some(c) => *c,
            None => {
                return Err(Error::UnknownReference { name: s.selection.clone() });
            },
        };
        // Default-fill policy: the first resolved slot is the fallback.
        let fallback = if let Some(d) = active {
            d
        } else if let Some(d) = hovered {
            d
        } else if let Some(d) = focused {
            d
        } else {
            return Err(Error::NoDefinedState { entry: String::new() });
        };
        Ok(
            TextInput {
                state: [
                    match active {
                        Some(v) => v,
                        None => fallback,
                    },
                    match hovered {
                        Some(v) => v,
                        None => fallback,
                    },
                    match focused {
                        Some(v) => v,
                        None => fallback,
                    },
                ],
                colors: [placeholder, value, selection],
            },
        )
    }

    /// Attempts to create a text input theme from its declarative version,
    /// against a theme whose text input table holds the resolved peers.
    pub fn create(s: &serial::TextInput, theme: &Theme) -> (r: Result<TextInput, Error>)
        requires
            theme.wf(),
        ensures
            (r is Ok) == textinput_creatable(
                *s,
                theme.color@,
                theme.border@,
                theme.textinput@.dom(),
            ),
            match r {
                Ok(v) => textinput_ok(*s, theme.color@, theme.border@, theme.textinput@, v),
                Err(e) => !(e matches Error::MalformedValue { .. }) && !(
                e matches Error::UnresolvableCycle { .. }),
            },
    {
        Self::create_in(s, &theme.color, &theme.border, &theme.textinput)
    }

    /// Whether one slot's inherited peer is resolved: yes; not yet; or
    /// never (a dangling reference).
    fn peer_ok(
        c: &serial::TextInputComponent,
        src: &Table<serial::TextInput>,
        done: &Table<TextInput>,
    ) -> (r: Result<bool, Error>)
        requires
            src.wf(),
            done.wf(),
        ensures
            match r {
                Ok(true) => (*c matches serial::TextInputComponent::Inherited(y)
                    ==> done@.contains_key(y@)),
                Ok(false) => (*c matches serial::TextInputComponent::Inherited(y)
                    && src@.contains_key(y@) && !done@.contains_key(y@)),
                Err(e) => (e matches Error::UnknownReference { name } && (
                *c matches serial::TextInputComponent::Inherited(y) && !src@.contains_key(y@)
                    && name@ == y@)),
            },
    {
        match c {
            serial::TextInputComponent::Inherited(y) => {
                if done.contains(y) {
                    Ok(true)
                } else if src.contains(y) {
                    Ok(false)
                } else {
                    Err(Error::UnknownReference { name: y.clone() })
                }
            },
            _ => Ok(true),
        }
    }

    /// Whether every inherited peer of the entry is resolved; `Ok(false)`
    /// defers the entry to a later pass, an error reports a dangling peer.
    fn peers_available(
        s: &serial::TextInput,
        src: &Table<serial::TextInput>,
        done: &Table<TextInput>,
    ) -> (r: Result<bool, Error>)
        requires
            src.wf(),
            done.wf(),
        ensures
            match r {
                Ok(true) => textinput_peers_in(*s, done@.dom()),
                Ok(false) => textinput_pending(*s, src@.dom(), done@.dom()),
                Err(e) => (e matches Error::UnknownReference { .. }) && textinput_dangling_peer(
                    *s,
                    src@.dom(),
                ),
            },
    {
        let mut pending = false;
        match Self::peer_ok(&s.active, src, done) {
            Ok(b) => {
                if !b {
                    pending = true;
                }
            },
            Err(e) => {
                return Err(e);
            },
        }
        match Self::peer_ok(&s.hovered, src, done) {
            Ok(b) => {
                if !b {
                    pending = true;
                }
            },
            Err(e) => {
                return Err(e);
            },
        }
        match Self::peer_ok(&s.focused, src, done) {
            Ok(b) => {
                if !b {
                    pending = true;
                }
            },
            Err(e) => {
                return Err(e);
            },
        }
        Ok(!pending)
    }

    /// The name of some entry of `src` that is not yet resolved in
    /// `done`, if any is left.
    fn first_unresolved(src: &Table<serial::TextInput>, done: &Table<TextInput>) -> (r: Option<
        String,
    >)
        requires
            src.wf(),
            done.wf(),
        ensures
            match r {
                None => forall|k: Seq<char>|
                    #[trigger] src@.contains_key(k) ==> done@.contains_key(k),
                Some(nm) => src@.contains_key(nm@) && !done@.contains_key(nm@),
            },
    {
        let n = src.len();
        for i in 0..n
            invariant
                n == src.spec_len(),
                src.wf(),
                done.wf(),
                forall|j: int| 0 <= j < i ==> done@.contains_key(src.key_seq()[j]),
        {
            let name = src.key_at(i);
            if !done.contains(name) {
                proof {
                    src.lemma_entry(i as int);
                }
                return Some(name.clone());
            }
        }
        proof {
            assert forall|k: Seq<char>| src@.contains_key(k) implies done@.contains_key(k) by {
                src.lemma_dom(k);
                let j = choose|j: int|
                    0 <= j < src.key_seq().len() && src.key_seq()[j] == k;
                assert(done@.contains_key(src.key_seq()[j]));
            }
        }
        None
    }

    /// Resolves a whole declarative text input table: passes over the
    /// entries until every entry is resolved or a pass makes no progress.
    #[verifier::loop_isolation(false)]
    pub(crate) fn resolve_table(
        src: &Table<serial::TextInput>,
        colors: &Table<Color>,
        borders: &Table<Border>,
    ) -> (r: Result<Table<TextInput>, Error>)
        requires
            src.wf(),
            colors.wf(),
            borders.wf(),
        ensures
            match r {
                Ok(out) => out.wf() && textinputs_resolved(src@, colors@, borders@, out@)
                    && textinputs_resolvable(src@, colors@, borders@),
                Err(e) => !textinputs_resolvable(src@, colors@, borders@) && match e {
                    Error::MalformedValue { .. } => false,
                    Error::UnknownReference { .. } => textinput_dangling(src@, colors@, borders@),
                    Error::NoDefinedState { entry } => src@.contains_key(entry@)
                        && textinput_empty(src@[entry@]),
                    Error::UnresolvableCycle { entry } => src@.contains_key(entry@)
                        && textinput_has_inherited(src@[entry@]),
                },
            },
    {
        let ghost sm = src@;
        let ghost cm = colors@;
        let ghost bm = borders@;
        let ghost ready = textinput_ready_fn(sm, cm, bm);
        proof {
            lemma_textinput_ready_monotone(sm, cm, bm);
        }
        let n = src.len();
        let mut done: Table<TextInput> = Table::new();
        let ghost mut fuel: nat = 0;
        loop
            invariant
                done.wf(),
                done.spec_len() <= sm.dom().len(),
                forall|k: Seq<char>| #[trigger] done@.contains_key(k) ==> sm.contains_key(k),
                done@.dom().subset_of(reach(ready, sm.dom(), fuel)),
                forall|k: Seq<char>|
                    #[trigger] done@.contains_key(k) ==> textinput_ok(
                        sm[k],
                        cm,
                        bm,
                        done@,
                        done@[k],
                    ),
            decreases sm.dom().len() + 1 - done.spec_len(),
        {
            let before = done.len();
            proof {
                crate::table::lemma_table_len_le(&done, src);
                src.lemma_card();
            }
            for i in 0..n
                invariant
                    done.wf(),
                    before <= done.spec_len(),
                    done.spec_len() <= sm.dom().len(),
                    forall|k: Seq<char>| #[trigger] done@.contains_key(k) ==> sm.contains_key(k),
                    done@.dom().subset_of(reach(ready, sm.dom(), fuel)),
                    forall|k: Seq<char>|
                        #[trigger] done@.contains_key(k) ==> textinput_ok(
                            sm[k],
                            cm,
                            bm,
                            done@,
                            done@[k],
                        ),
                    done.spec_len() == before ==> forall|j: int|
                        0 <= j < i ==> (!done@.contains_key(#[trigger] src.key_seq()[j])
                            ==> textinput_pending(sm[src.key_seq()[j]], sm.dom(), done@.dom())),
            {
                let name = src.key_at(i);
                proof {
                    src.lemma_entry(i as int);
                }
                if !done.contains(name) {
                    let entry = src.val_at(i);
                    match Self::peers_available(entry, src, &done) {
                        Err(e) => {
                            proof {
                                assert forall|s: Set<Seq<char>>|
                                    s.subset_of(sm.dom()) implies !ready(s, name@) by {
                                    assert(!textinput_refs_ok(*entry, cm, bm, s));
                                }
                                lemma_never_ready(ready, sm.dom(), name@);
                                assert(!textinput_refs_ok(sm[name@], cm, bm, sm.dom()));
                            }
                            return Err(e);
                        },
                        Ok(false) => {
                            // The entry waits for an unresolved peer; a later
                            // pass retries it.
                        },
                        Ok(true) => {
                            match Self::create_in(entry, colors, borders, &done) {
                                Ok(b) => {
                                    proof {
                                        assert(ready(done@.dom(), name@));
                                        lemma_reach_step(ready, sm.dom(), done@.dom(), fuel, name@);
                                        fuel = fuel + 1;
                                    }
                                    let ghost old_done = done@;
                                    done.insert(name.clone(), b);
                                    proof {
                                        crate::table::lemma_table_len_le(&done, src);
                                        assert(done@.dom() =~= old_done.dom().insert(name@));
                                        assert(old_done.submap_of(done@));
                                        assert forall|k: Seq<char>|
                                            #[trigger] done@.contains_key(k) implies textinput_ok(
                                            sm[k],
                                            cm,
                                            bm,
                                            done@,
                                            done@[k],
                                        ) by {
                                            if k == name@ {
                                                lemma_textinput_ok_mono(
                                                    sm[k],
                                                    cm,
                                                    bm,
                                                    old_done,
                                                    done@,
                                                    b,
                                                );
                                            } else {
                                                lemma_textinput_ok_mono(
                                                    sm[k],
                                                    cm,
                                                    bm,
                                                    old_done,
                                                    done@,
                                                    old_done[k],
                                                );
                                            }
                                        }
                                    }
                                },
                                Err(e) => {
                                    proof {
                                        assert forall|s: Set<Seq<char>>|
                                            s.subset_of(sm.dom()) implies !ready(s, name@) by {
                                            lemma_textinput_hard_error(
                                                *entry,
                                                cm,
                                                bm,
                                                done@.dom(),
                                                s,
                                            );
                                        }
                                        lemma_never_ready(ready, sm.dom(), name@);
                                        if e matches Error::UnknownReference { .. } {
                                            lemma_textinput_hard_refs(
                                                *entry,
                                                cm,
                                                bm,
                                                done@.dom(),
                                                sm.dom(),
                                            );
                                        }
                                    }
                                    let e2 = match e {
                                        Error::NoDefinedState { .. } => Error::NoDefinedState {
                                            entry: name.clone(),
                                        },
                                        other => other,
                                    };
                                    return Err(e2);
                                },
                            }
                        },
                    }
                }
            }
            match Self::first_unresolved(src, &done) {
                None => {
                    proof {
                        assert(done@.dom() =~= sm.dom());
                        assert forall|k: Seq<char>| #[trigger]
                            sm.dom().contains(k) implies resolvable(ready, sm.dom(), k) by {
                            assert(reach(ready, sm.dom(), fuel).contains(k));
                        }
                    }
                    return Ok(done);
                },
                Some(nm) => {
                    if done.len() == before {
                        proof {
                            assert forall|m: Seq<char>|
                                sm.dom().contains(m) && !done@.dom().contains(m) implies !ready(
                                done@.dom(),
                                m,
                            ) by {
                                src.lemma_dom(m);
                                let j = choose|j: int|
                                    0 <= j < src.key_seq().len() && src.key_seq()[j] == m;
                                assert(textinput_pending(sm[m], sm.dom(), done@.dom()));
                            }
                            assert forall|f: nat|
                                !reach(ready, sm.dom(), f).contains(nm@) by {
                                lemma_stall(ready, sm.dom(), done@.dom(), f);
                            }
                            assert(!resolvable(ready, sm.dom(), nm@));
                            assert(textinput_pending(sm[nm@], sm.dom(), done@.dom()));
                        }
                        return Err(Error::UnresolvableCycle { entry: nm });
                    }
                },
            }
        }
    }
}

} // verus!
