//! Pane grid theme.

use vstd::prelude::*;

use crate::color::Color;
use crate::error::Error;
use crate::fixpoint::all_resolvable;
use crate::fixpoint::lemma_never_ready;
use crate::fixpoint::lemma_reach_step;
use crate::fixpoint::lemma_stall;
use crate::fixpoint::monotone;
use crate::fixpoint::reach;
use crate::fixpoint::resolvable;
use crate::serial;
use crate::slots::first_of2;
use crate::slots::slot_or;
use crate::table::Table;
use crate::theme::Theme;

verus! {

/// One resolved pane grid state: the split line.
#[derive(Clone, Copy, Debug, PartialEq, Eq, Structural)]
pub struct PaneGridState {
    /// Line color.
    pub color: Color,
    /// Line width (an IEEE 754 single-precision bit pattern).
    pub width: u32,
}

/// A resolved pane grid entry.
#[derive(Clone, Copy, Debug)]
pub struct PaneGrid {
    /// State themes of the pane grid, in order: picked, hovered.
    pub state: [PaneGridState; 2],
}

/// What a literal pane grid state resolves to under the color table;
/// nothing when the name dangles.
pub open spec fn panegrid_state_spec(s: serial::PaneGridState, cm: Map<Seq<char>, Color>) -> Option<
    PaneGridState,
> {
    if cm.contains_key(s.color@) {
        Some(PaneGridState { color: cm[s.color@], width: s.width })
    } else {
        None
    }
}

/// Whether one slot of a pane grid entry can resolve.
pub open spec fn panegrid_slot_ok(
    c: serial::PaneGridComponent,
    cm: Map<Seq<char>, Color>,
    peers: Set<Seq<char>>,
) -> bool {
    match c {
        serial::PaneGridComponent::Defined(d) => panegrid_state_spec(d, cm) is Some,
        serial::PaneGridComponent::Inherited(n) => peers.contains(n@),
        serial::PaneGridComponent::Absent => true,
    }
}

/// Whether a pane grid entry can resolve once the entries named `peers`
/// are resolved.
pub open spec fn panegrid_creatable(
    s: serial::PaneGrid,
    cm: Map<Seq<char>, Color>,
    peers: Set<Seq<char>>,
) -> bool {
    &&& panegrid_slot_ok(s.picked, cm, peers)
    &&& panegrid_slot_ok(s.hovered, cm, peers)
    &&& !(s.picked is Absent && s.hovered is Absent)
}

/// The value one slot resolves to under the resolved peer map `km`.
pub open spec fn panegrid_slot_val(
    c: serial::PaneGridComponent,
    i: int,
    cm: Map<Seq<char>, Color>,
    km: Map<Seq<char>, PaneGrid>,
) -> Option<PaneGridState> {
    match c {
        serial::PaneGridComponent::Defined(d) => panegrid_state_spec(d, cm),
        serial::PaneGridComponent::Inherited(n) => if km.contains_key(n@) {
            Some(km[n@].state@[i])
        } else {
            None
        },
        serial::PaneGridComponent::Absent => None,
    }
}

/// How a resolved pane grid entry relates to its declarative entry.
pub open spec fn panegrid_ok(
    s: serial::PaneGrid,
    cm: Map<Seq<char>, Color>,
    km: Map<Seq<char>, PaneGrid>,
    r: PaneGrid,
) -> bool {
    let v0 = panegrid_slot_val(s.picked, 0, cm, km);
    let v1 = panegrid_slot_val(s.hovered, 1, cm, km);
    let d = first_of2(v0, v1);
    &&& panegrid_creatable(s, cm, km.dom())
    &&& r.state@ =~= seq![slot_or(v0, d), slot_or(v1, d)]
}

/// An entry that once resolved against a peer map stays resolved the same
/// way against any extension of it.
pub proof fn lemma_panegrid_ok_mono(
    s: serial::PaneGrid,
    cm: Map<Seq<char>, Color>,
    k1: Map<Seq<char>, PaneGrid>,
    k2: Map<Seq<char>, PaneGrid>,
    r: PaneGrid,
)
    requires
        panegrid_ok(s, cm, k1, r),
        k1.submap_of(k2),
    ensures
        panegrid_ok(s, cm, k2, r),
{
    assert(panegrid_slot_val(s.picked, 0, cm, k1) == panegrid_slot_val(s.picked, 0, cm, k2));
    assert(panegrid_slot_val(s.hovered, 1, cm, k1) == panegrid_slot_val(s.hovered, 1, cm, k2));
}

/// Whatever entries are resolved, resolving more never makes an entry
/// less creatable.
pub proof fn lemma_panegrid_creatable_mono(
    s: serial::PaneGrid,
    cm: Map<Seq<char>, Color>,
    p1: Set<Seq<char>>,
    p2: Set<Seq<char>>,
)
    requires
        panegrid_creatable(s, cm, p1),
        p1.subset_of(p2),
    ensures
        panegrid_creatable(s, cm, p2),
{
}

/// Whether every slot of a pane grid entry can resolve against `peers`.
pub open spec fn panegrid_slots_ok(
    s: serial::PaneGrid,
    cm: Map<Seq<char>, Color>,
    peers: Set<Seq<char>>,
) -> bool {
    &&& panegrid_slot_ok(s.picked, cm, peers)
    &&& panegrid_slot_ok(s.hovered, cm, peers)
}

/// A pane grid entry with every slot absent: nothing can fill it.
pub open spec fn panegrid_empty(s: serial::PaneGrid) -> bool {
    s.picked is Absent && s.hovered is Absent
}

/// A pane grid entry with at least one inheriting slot.
pub open spec fn panegrid_has_inherited(s: serial::PaneGrid) -> bool {
    ||| s.picked is Inherited
    ||| s.hovered is Inherited
}

/// Every inheriting slot of the entry names a peer in `peers`.
pub open spec fn panegrid_peers_in(s: serial::PaneGrid, peers: Set<Seq<char>>) -> bool {
    &&& (s.picked matches serial::PaneGridComponent::Inherited(y) ==> peers.contains(y@))
    &&& (s.hovered matches serial::PaneGridComponent::Inherited(y) ==> peers.contains(y@))
}

/// Some inheriting slot of the entry names a peer outside the table: a
/// dangling reference that no pass can supply.
pub open spec fn panegrid_dangling_peer(s: serial::PaneGrid, dom: Set<Seq<char>>) -> bool {
    ||| (s.picked matches serial::PaneGridComponent::Inherited(y) && !dom.contains(y@))
    ||| (s.hovered matches serial::PaneGridComponent::Inherited(y) && !dom.contains(y@))
}

/// Some inheriting slot of the entry names a peer that exists but is not
/// yet resolved: the entry must wait for another pass.
pub open spec fn panegrid_pending(
    s: serial::PaneGrid,
    dom: Set<Seq<char>>,
    peers: Set<Seq<char>>,
) -> bool {
    ||| (s.picked matches serial::PaneGridComponent::Inherited(y) && dom.contains(y@)
        && !peers.contains(y@))
    ||| (s.hovered matches serial::PaneGridComponent::Inherited(y) && dom.contains(y@)
        && !peers.contains(y@))
}

/// Some entry of the table references a name that resolution can never
/// supply.
pub open spec fn panegrid_dangling(
    sm: Map<Seq<char>, serial::PaneGrid>,
    cm: Map<Seq<char>, Color>,
) -> bool {
    exists|n: Seq<char>| #[trigger] sm.contains_key(n) && !panegrid_slots_ok(sm[n], cm, sm.dom())
}

/// The readiness predicate of pane grid resolution.
pub open spec fn panegrid_ready_fn(
    sm: Map<Seq<char>, serial::PaneGrid>,
    cm: Map<Seq<char>, Color>,
) -> spec_fn(Set<Seq<char>>, Seq<char>) -> bool {
    |done: Set<Seq<char>>, n: Seq<char>| sm.contains_key(n) && panegrid_creatable(sm[n], cm, done)
}

/// Whether every pane grid entry of the table resolves.
pub open spec fn panegrids_resolvable(
    sm: Map<Seq<char>, serial::PaneGrid>,
    cm: Map<Seq<char>, Color>,
) -> bool {
    all_resolvable(panegrid_ready_fn(sm, cm), sm.dom())
}

/// How a resolved pane grid table relates to its declarative table.
pub open spec fn panegrids_resolved(
    sm: Map<Seq<char>, serial::PaneGrid>,
    cm: Map<Seq<char>, Color>,
    km: Map<Seq<char>, PaneGrid>,
) -> bool {
    &&& km.dom() =~= sm.dom()
    &&& forall|n: Seq<char>| #[trigger] km.contains_key(n) ==> panegrid_ok(sm[n], cm, km, km[n])
}

/// Pane grid readiness is monotone in the resolved set.
pub proof fn lemma_panegrid_ready_monotone(
    sm: Map<Seq<char>, serial::PaneGrid>,
    cm: Map<Seq<char>, Color>,
)
    ensures
        monotone(panegrid_ready_fn(sm, cm)),
{
    let ready = panegrid_ready_fn(sm, cm);
    assert forall|s1: Set<Seq<char>>, s2: Set<Seq<char>>, n: Seq<char>|
        s1.subset_of(s2) && #[trigger] ready(s1, n) implies #[trigger] ready(s2, n) by {
        lemma_panegrid_creatable_mono(sm[n], cm, s1, s2);
    }
}

/// A hard failure of entry creation is independent of the resolved set.
proof fn lemma_panegrid_hard_error(
    s: serial::PaneGrid,
    cm: Map<Seq<char>, Color>,
    avail: Set<Seq<char>>,
    other: Set<Seq<char>>,
)
    requires
        !panegrid_creatable(s, cm, avail),
        panegrid_peers_in(s, avail),
    ensures
        !panegrid_creatable(s, cm, other),
{
}

/// A slot failure with every inherited peer available lies in a literal
/// slot, so it persists whatever peers are resolved.
proof fn lemma_panegrid_hard_slots(
    s: serial::PaneGrid,
    cm: Map<Seq<char>, Color>,
    avail: Set<Seq<char>>,
    other: Set<Seq<char>>,
)
    requires
        !panegrid_slots_ok(s, cm, avail),
        panegrid_peers_in(s, avail),
    ensures
        !panegrid_slots_ok(s, cm, other),
{
}

impl PaneGridState {
    /// Resolves a literal pane grid state against the color table.
    pub(crate) fn from_in(s: &serial::PaneGridState, colors: &Table<Color>) -> (r: Result<
        PaneGridState,
        Error,
    >)
        requires
            colors.wf(),
        ensures
            match r {
                Ok(p) => panegrid_state_spec(*s, colors@) == Some(p),
                Err(e) => panegrid_state_spec(*s, colors@) is None && (
                e matches Error::UnknownReference { .. }),
            },
    {
        match colors.get(&s.color) {
            Some(c) => Ok(PaneGridState { color: *c, width: s.width }),
            None => Err(Error::UnknownReference { name: s.color.clone() }),
        }
    }
}

impl PaneGrid {
    /// Resolves one slot of a pane grid entry.
    fn state(
        c: &serial::PaneGridComponent,
        colors: &Table<Color>,
        peers: &Table<PaneGrid>,
        index: usize,
    ) -> (r: Result<Option<PaneGridState>, Error>)
        requires
            colors.wf(),
            peers.wf(),
            index < 2,
        ensures
            match r {
                Ok(v) => panegrid_slot_ok(*c, colors@, peers@.dom()) && v == panegrid_slot_val(
                    *c,
                    index as int,
                    colors@,
                    peers@,
                ),
                Err(e) => !panegrid_slot_ok(*c, colors@, peers@.dom()) && (
                e matches Error::UnknownReference { .. }),
            },
    {
        match c {
            serial::PaneGridComponent::Defined(d) => match PaneGridState::from_in(d, colors) {
                Ok(s) => Ok(Some(s)),
                Err(e) => Err(e),
            },
            serial::PaneGridComponent::Inherited(n) => match peers.get(n) {
                Some(p) => Ok(Some(p.state[index])),
                None => Err(Error::UnknownReference { name: n.clone() }),
            },
            serial::PaneGridComponent::Absent => Ok(None),
        }
    }

    /// Resolves a declarative pane grid entry against the color table and
    /// the already resolved peers.  On a `NoDefinedState` failure the
    /// entry name is left empty; the caller attributes it.
    pub(crate) fn create_in(
        s: &serial::PaneGrid,
        colors: &Table<Color>,
        peers: &Table<PaneGrid>,
    ) -> (r: Result<PaneGrid, Error>)
        requires
            colors.wf(),
            peers.wf(),
        ensures
            (r is Ok) == panegrid_creatable(*s, colors@, peers@.dom()),
            match r {
                Ok(p) => panegrid_ok(*s, colors@, peers@, p),
                Err(e) => match e {
                    Error::UnknownReference { .. } => !(panegrid_slot_ok(
                        s.picked,
                        colors@,
                        peers@.dom(),
                    ) && panegrid_slot_ok(s.hovered, colors@, peers@.dom())),
                    Error::NoDefinedState { .. } => s.picked is Absent && s.hovered is Absent,
                    _ => false,
                },
            },
    {
        let picked = match Self::state(&s.picked, colors, peers, 0) {
            Ok(v) => v,
            Err(e) => {
                return Err(e);
            },
        };
        let hovered = match Self::state(&s.hovered, colors, peers, 1) {
            Ok(v) => v,
            Err(e) => {
                return Err(e);
            },
        };
        // Default-fill policy: the first resolved slot is the fallback.
        let fallback = if let Some(d) = picked {
            d
        } else if let Some(d) = hovered {
            d
        } else {
            return Err(Error::NoDefinedState { entry: String::new() });
        };
        Ok(
            PaneGrid {
                state: [
                    match picked {
                        Some(v) => v,
                        None => fallback,
                    },
                    match hovered {
                        Some(v) => v,
                        None => fallback,
                    },
                ],
            },
        )
    }

    /// Attempts to create a pane grid theme from its declarative version,
    /// against a theme whose pane grid table holds the resolved peers.
    pub fn create(s: &serial::PaneGrid, theme: &Theme) -> (r: Result<PaneGrid, Error>)
        requires
            theme.wf(),
        ensures
            (r is Ok) == panegrid_creatable(*s, theme.color@, theme.panegrid@.dom()),
            match r {
                Ok(p) => panegrid_ok(*s, theme.color@, theme.panegrid@, p),
                Err(e) => !(e matches Error::MalformedValue { .. }) && !(
                e matches Error::UnresolvableCycle { .. }),
            },
    {
        Self::create_in(s, &theme.color, &theme.panegrid)
    }

    /// Whether one slot's inherited peer is resolved: yes; not yet; or
    /// never (a dangling reference).
    fn peer_ok(
        c: &serial::PaneGridComponent,
        src: &Table<serial::PaneGrid>,
        done: &Table<PaneGrid>,
    ) -> (r: Result<bool, Error>)
        requires
            src.wf(),
            done.wf(),
        ensures
            match r {
                Ok(true) => (*c matches serial::PaneGridComponent::Inherited(y)
                    ==> done@.contains_key(y@)),
                Ok(false) => (*c matches serial::PaneGridComponent::Inherited(y)
                    && src@.contains_key(y@) && !done@.contains_key(y@)),
                Err(e) => (e matches Error::UnknownReference { name } && (
                *c matches serial::PaneGridComponent::Inherited(y) && !src@.contains_key(y@)
                    && name@ == y@)),
            },
    {
        match c {
            serial::PaneGridComponent::Inherited(y) => {
                if done.contains(y) {
                    Ok(true)
                } else if src.contains(y) {
                    Ok(false)
                } else {
                    Err(Error::UnknownReference { name: y.clone() })
                }
            },
            _ => Ok(true),
        }
    }

    /// Whether every inherited peer of the entry is resolved; `Ok(false)`
    /// defers the entry to a later pass, an error reports a dangling peer.
    fn peers_available(
        s: &serial::PaneGrid,
        src: &Table<serial::PaneGrid>,
        done: &Table<PaneGrid>,
    ) -> (r: Result<bool, Error>)
        requires
            src.wf(),
            done.wf(),
        ensures
            match r {
                Ok(true) => panegrid_peers_in(*s, done@.dom()),
                Ok(false) => panegrid_pending(*s, src@.dom(), done@.dom()),
                Err(e) => (e matches Error::UnknownReference { .. }) && panegrid_dangling_peer(
                    *s,
                    src@.dom(),
                ),
            },
    {
        let mut pending = false;
        match Self::peer_ok(&s.picked, src, done) {
            Ok(b) => {
                if !b {
                    pending = true;
                }
            },
            Err(e) => {
                return Err(e);
            },
        }
        match Self::peer_ok(&s.hovered, src, done) {
            Ok(b) => {
                if !b {
                    pending = true;
                }
            },
            Err(e) => {
                return Err(e);
            },
        }
        Ok(!pending)
    }

    /// The name of some entry of `src` that is not yet resolved in
    /// `done`, if any is left.
    fn first_unresolved(src: &Table<serial::PaneGrid>, done: &Table<PaneGrid>) -> (r: Option<
        String,
    >)
        requires
            src.wf(),
            done.wf(),
        ensures
            match r {
                None => forall|k: Seq<char>|
                    #[trigger] src@.contains_key(k) ==> done@.contains_key(k),
                Some(nm) => src@.contains_key(nm@) && !done@.contains_key(nm@),
            },
    {
        let n = src.len();
        for i in 0..n
            invariant
                n == src.spec_len(),
                src.wf(),
                done.wf(),
                forall|j: int| 0 <= j < i ==> done@.contains_key(src.key_seq()[j]),
        {
            let name = src.key_at(i);
            if !done.contains(name) {
                proof {
                    src.lemma_entry(i as int);
                }
                return Some(name.clone());
            }
        }
        proof {
            assert forall|k: Seq<char>| src@.contains_key(k) implies done@.contains_key(k) by {
                src.lemma_dom(k);
                let j = choose|j: int|
                    0 <= j < src.key_seq().len() && src.key_seq()[j] == k;
                assert(done@.contains_key(src.key_seq()[j]));
            }
        }
        None
    }

    /// Resolves a whole declarative pane grid table: passes over the
    /// entries until every entry is resolved or a pass makes no progress.
    #[verifier::loop_isolation(false)]
    pub(crate) fn resolve_table(src: &Table<serial::PaneGrid>, colors: &Table<Color>) -> (r: Result<
        Table<PaneGrid>,
        Error,
    >)
        requires
            src.wf(),
            colors.wf(),
        ensures
            match r {
                Ok(out) => out.wf() && panegrids_resolved(src@, colors@, out@)
                    && panegrids_resolvable(src@, colors@),
                Err(e) => !panegrids_resolvable(src@, colors@) && match e {
                    Error::MalformedValue { .. } => false,
                    Error::UnknownReference { .. } => panegrid_dangling(src@, colors@),
                    Error::NoDefinedState { entry } => src@.contains_key(entry@)
                        && panegrid_empty(src@[entry@]),
                    Error::UnresolvableCycle { entry } => src@.contains_key(entry@)
                        && panegrid_has_inherited(src@[entry@]),
                },
            },
    {
        let ghost sm = src@;
        let ghost cm = colors@;
        let ghost ready = panegrid_ready_fn(sm, cm);
        proof {
            lemma_panegrid_ready_monotone(sm, cm);
        }
        let n = src.len();
        let mut done: Table<PaneGrid> = Table::new();
        let ghost mut fuel: nat = 0;
        loop
            invariant
                done.wf(),
                done.spec_len() <= sm.dom().len(),
                forall|k: Seq<char>| #[trigger] done@.contains_key(k) ==> sm.contains_key(k),
                done@.dom().subset_of(reach(ready, sm.dom(), fuel)),
                forall|k: Seq<char>|
                    #[trigger] done@.contains_key(k) ==> panegrid_ok(sm[k], cm, done@, done@[k]),
            decreases sm.dom().len() + 1 - done.spec_len(),
        {
            let before = done.len();
            proof {
                crate::table::lemma_table_len_le(&done, src);
                src.lemma_card();
            }
            for i in 0..n
                invariant
                    done.wf(),
                    before <= done.spec_len(),
                    done.spec_len() <= sm.dom().len(),
                    forall|k: Seq<char>| #[trigger] done@.contains_key(k) ==> sm.contains_key(k),
                    done@.dom().subset_of(reach(ready, sm.dom(), fuel)),
                    forall|k: Seq<char>|
                        #[trigger] done@.contains_key(k) ==> panegrid_ok(
                            sm[k],
                            cm,
                            done@,
                            done@[k],
                        ),
                    done.spec_len() == before ==> forall|j: int|
                        0 <= j < i ==> (!done@.contains_key(#[trigger] src.key_seq()[j])
                            ==> panegrid_pending(sm[src.key_seq()[j]], sm.dom(), done@.dom())),
            {
                let name = src.key_at(i);
                proof {
                    src.lemma_entry(i as int);
                }
                if !done.contains(name) {
                    let entry = src.val_at(i);
                    match Self::peers_available(entry, src, &done) {
                        Err(e) => {
                            proof {
                                assert forall|s: Set<Seq<char>>|
                                    s.subset_of(sm.dom()) implies !ready(s, name@) by {
                                    assert(!panegrid_slots_ok(*entry, cm, s));
                                }
                                lemma_never_ready(ready, sm.dom(), name@);
                                assert(!panegrid_slots_ok(sm[name@], cm, sm.dom()));
                            }
                            return Err(e);
                        },
                        Ok(false) => {
                            // The entry waits for an unresolved peer; a later
                            // pass retries it.
                        },
                        Ok(true) => {
                            match Self::create_in(entry, colors, &done) {
                                Ok(b) => {
                                    proof {
                                        assert(ready(done@.dom(), name@));
                                        lemma_reach_step(ready, sm.dom(), done@.dom(), fuel, name@);
                                        fuel = fuel + 1;
                                    }
                                    let ghost old_done = done@;
                                    done.insert(name.clone(), b);
                                    proof {
                                        crate::table::lemma_table_len_le(&done, src);
                                        assert(done@.dom() =~= old_done.dom().insert(name@));
                                        assert(old_done.submap_of(done@));
                                        assert forall|k: Seq<char>|
                                            #[trigger] done@.contains_key(k) implies panegrid_ok(
                                            sm[k],
                                            cm,
                                            done@,
                                            done@[k],
                                        ) by {
                                            if k == name@ {
                                                lemma_panegrid_ok_mono(sm[k], cm, old_done, done@, b);
                                            } else {
                                                lemma_panegrid_ok_mono(
                                                    sm[k],
                                                    cm,
                                                    old_done,
                                                    done@,
                                                    old_done[k],
                                                );
                                            }
                                        }
                                    }
                                },
                                Err(e) => {
                                    proof {
                                        assert forall|s: Set<Seq<char>>|
                                            s.subset_of(sm.dom()) implies !ready(s, name@) by {
                                            lemma_panegrid_hard_error(*entry, cm, done@.dom(), s);
                                        }
                                        lemma_never_ready(ready, sm.dom(), name@);
                                        if e matches Error::UnknownReference { .. } {
                                            lemma_panegrid_hard_slots(
                                                *entry,
                                                cm,
                                                done@.dom(),
                                                sm.dom(),
                                            );
                                        }
                                    }
                                    let e2 = match e {
                                        Error::NoDefinedState { .. } => Error::NoDefinedState {
                                            entry: name.clone(),
                                        },
                                        other => other,
                                    };
                                    return Err(e2);
                                },
                            }
                        },
                    }
                }
            }
            match Self::first_unresolved(src, &done) {
                None => {
                    proof {
                        assert(done@.dom() =~= sm.dom());
                        assert forall|k: Seq<char>| #[trigger]
                            sm.dom().contains(k) implies resolvable(ready, sm.dom(), k) by {
                            assert(reach(ready, sm.dom(), fuel).contains(k));
                        }
                    }
                    return Ok(done);
                },
                Some(nm) => {
                    if done.len() == before {
                        proof {
                            assert forall|m: Seq<char>|
                                sm.dom().contains(m) && !done@.dom().contains(m) implies !ready(
                                done@.dom(),
                                m,
                            ) by {
                                src.lemma_dom(m);
                                let j = choose|j: int|
                                    0 <= j < src.key_seq().len() && src.key_seq()[j] == m;
                                assert(panegrid_pending(sm[m], sm.dom(), done@.dom()));
                            }
                            assert forall|f: nat|
                                !reach(ready, sm.dom(), f).contains(nm@) by {
                                lemma_stall(ready, sm.dom(), done@.dom(), f);
                            }
                            assert(!resolvable(ready, sm.dom(), nm@));
                            assert(panegrid_pending(sm[nm@], sm.dom(), done@.dom()));
                        }
                        return Err(Error::UnresolvableCycle { entry: nm });
                    }
                },
            }
        }
    }
}

} // verus!
