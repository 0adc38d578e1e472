//! The laws of resolution and canonicalization.
//!
//! Each proof function here states a property of the engine that holds
//! for every input of the stated shape, proved from the contracts of the
//! resolver and the canonicalizer alone.

use vstd::prelude::*;

use crate::border::border_spec;
use crate::button::Button;
use crate::button::button_ok;
use crate::button::button_ready_fn;
use crate::button::button_state_spec;
use crate::button::buttons_resolvable;
use crate::canon::canon_ok;
use crate::color::Color;
use crate::container::container_spec;
use crate::error::Error;
use crate::fixpoint::reach;
use crate::serial;
use crate::table::Table;
use crate::theme::Theme;
use crate::theme::borders_of;
use crate::theme::error_witness;
use crate::theme::parse_ok;
use crate::theme::theme_cycle_entry;
use crate::theme::theme_dangling;
use crate::theme::theme_empty_entry;
use crate::theme::theme_resolvable;

verus! {

/// Resolving a border against a value table yields the table's color
/// value verbatim, with the opaque payload unchanged.
pub proof fn lemma_border_takes_table_color(b: serial::Border, cm: Map<Seq<char>, Color>)
    requires
        cm.contains_key(b.color@),
    ensures
        border_spec(b, cm) matches Some(r) && r.color == cm[b.color@] && r.radius == b.radius
            && r.width == b.width,
{
}

/// Default fill from the first defined state: a composite entry with one
/// literal first slot and every other slot absent resolves to that
/// state's value in every slot.
pub proof fn lemma_default_fill(
    s: serial::Button,
    cm: Map<Seq<char>, Color>,
    bm: Map<Seq<char>, crate::border::Border>,
    km: Map<Seq<char>, Button>,
    r: Button,
    a: serial::ButtonState,
)
    requires
        s.active == serial::ButtonComponent::Defined(a),
        s.hovered is Absent,
        s.pressed is Absent,
        s.disabled is Absent,
        button_ok(s, cm, bm, km, r),
    ensures
        button_state_spec(a, cm, bm) == Some(r.state@[0]),
        r.state@[1] == r.state@[0],
        r.state@[2] == r.state@[0],
        r.state@[3] == r.state@[0],
{
}

/// An entry inheriting a slot from a fully literal peer takes the peer's
/// resolved slot value, whatever order the two entries stand in their
/// table: the resolved value is pinned by the table's contents alone.
pub proof fn lemma_inherited_slot_order_independent(
    s: serial::Theme,
    t: Theme,
    x: Seq<char>,
    y: String,
    a: serial::ButtonState,
)
    requires
        parse_ok(s, t),
        s.button@.contains_key(x),
        s.button@[x].active == serial::ButtonComponent::Inherited(y),
        s.button@.contains_key(y@),
        s.button@[y@].active == serial::ButtonComponent::Defined(a),
    ensures
        t.button@.contains_key(x),
        t.button@.contains_key(y@),
        t.button@[x].state@[0] == t.button@[y@].state@[0],
        button_state_spec(a, s.color@, t.border@) == Some(t.button@[y@].state@[0]),
{
    assert(t.button@.contains_key(x));
    assert(t.button@.contains_key(y@));
    assert(button_ok(s.button@[x], s.color@, t.border@, t.button@, t.button@[x]));
    assert(button_ok(s.button@[y@], s.color@, t.border@, t.button@, t.button@[y@]));
}

/// A two-entry inheritance cycle never resolves: neither entry is ever
/// ready, so the fixed point leaves both behind, whatever the value
/// tables hold.  (The resolver itself terminates by construction, so the
/// cycle is reported, never spun on.)
pub proof fn lemma_cycle_unresolvable(
    sm: Map<Seq<char>, serial::Button>,
    cm: Map<Seq<char>, Color>,
    bm: Map<Seq<char>, crate::border::Border>,
    x: Seq<char>,
    y: Seq<char>,
)
    requires
        sm.contains_key(x),
        sm.contains_key(y),
        (sm[x].active matches serial::ButtonComponent::Inherited(n) && n@ == y),
        (sm[x].hovered matches serial::ButtonComponent::Inherited(n) && n@ == y),
        (sm[x].pressed matches serial::ButtonComponent::Inherited(n) && n@ == y),
        (sm[x].disabled matches serial::ButtonComponent::Inherited(n) && n@ == y),
        (sm[y].active matches serial::ButtonComponent::Inherited(n) && n@ == x),
        (sm[y].hovered matches serial::ButtonComponent::Inherited(n) && n@ == x),
        (sm[y].pressed matches serial::ButtonComponent::Inherited(n) && n@ == x),
        (sm[y].disabled matches serial::ButtonComponent::Inherited(n) && n@ == x),
    ensures
        !buttons_resolvable(sm, cm, bm),
{
    assert forall|f: nat| !reach(button_ready_fn(sm, cm, bm), sm.dom(), f).contains(x)
        && !reach(button_ready_fn(sm, cm, bm), sm.dom(), f).contains(y) by {
        lemma_cycle_out_of_reach(sm, cm, bm, x, y, f);
    }
    assert(!crate::fixpoint::resolvable(button_ready_fn(sm, cm, bm), sm.dom(), x));
}

proof fn lemma_cycle_out_of_reach(
    sm: Map<Seq<char>, serial::Button>,
    cm: Map<Seq<char>, Color>,
    bm: Map<Seq<char>, crate::border::Border>,
    x: Seq<char>,
    y: Seq<char>,
    f: nat,
)
    requires
        sm.contains_key(x),
        sm.contains_key(y),
        (sm[x].active matches serial::ButtonComponent::Inherited(n) && n@ == y),
        (sm[y].active matches serial::ButtonComponent::Inherited(n) && n@ == x),
    ensures
        !reach(button_ready_fn(sm, cm, bm), sm.dom(), f).contains(x),
        !reach(button_ready_fn(sm, cm, bm), sm.dom(), f).contains(y),
    decreases f,
{
    if f > 0 {
        lemma_cycle_out_of_reach(sm, cm, bm, x, y, (f - 1) as nat);
    }
}

/// The fixed point converges to one answer: however the passes happened
/// to order the entries, two resolved button tables that both satisfy
/// the resolution relation for the same resolvable declarative table
/// hold the same state values, entry by entry.
pub proof fn lemma_button_resolution_unique(
    sm: Map<Seq<char>, serial::Button>,
    cm: Map<Seq<char>, Color>,
    bm: Map<Seq<char>, crate::border::Border>,
    k1: Map<Seq<char>, Button>,
    k2: Map<Seq<char>, Button>,
)
    requires
        crate::button::buttons_resolved(sm, cm, bm, k1),
        crate::button::buttons_resolved(sm, cm, bm, k2),
        buttons_resolvable(sm, cm, bm),
    ensures
        forall|n: Seq<char>| #[trigger] sm.contains_key(n) ==> k1[n].state@ =~= k2[n].state@,
{
    assert forall|n: Seq<char>| #[trigger] sm.contains_key(n) implies k1[n].state@
        =~= k2[n].state@ by {
        assert(crate::fixpoint::resolvable(button_ready_fn(sm, cm, bm), sm.dom(), n));
        let f = choose|f: nat| reach(button_ready_fn(sm, cm, bm), sm.dom(), f).contains(n);
        lemma_button_resolution_unique_fuel(sm, cm, bm, k1, k2, f);
    }
}

#[verifier::rlimit(50)]
proof fn lemma_button_resolution_unique_fuel(
    sm: Map<Seq<char>, serial::Button>,
    cm: Map<Seq<char>, Color>,
    bm: Map<Seq<char>, crate::border::Border>,
    k1: Map<Seq<char>, Button>,
    k2: Map<Seq<char>, Button>,
    f: nat,
)
    requires
        crate::button::buttons_resolved(sm, cm, bm, k1),
        crate::button::buttons_resolved(sm, cm, bm, k2),
    ensures
        forall|n: Seq<char>|
            #[trigger] reach(button_ready_fn(sm, cm, bm), sm.dom(), f).contains(n) ==> k1[n].state@
                =~= k2[n].state@,
    decreases f,
{
    let ready = button_ready_fn(sm, cm, bm);
    if f > 0 {
        lemma_button_resolution_unique_fuel(sm, cm, bm, k1, k2, (f - 1) as nat);
        let prev = reach(ready, sm.dom(), (f - 1) as nat);
        assert forall|n: Seq<char>| #[trigger] reach(ready, sm.dom(), f).contains(n) implies
            k1[n].state@ =~= k2[n].state@ by {
            if !prev.contains(n) {
                assert(sm.contains_key(n));
                assert(crate::button::button_creatable(sm[n], cm, bm, prev));
                crate::fixpoint::lemma_reach_in_dom(ready, sm.dom(), (f - 1) as nat);
                assert forall|y: Seq<char>| #[trigger] prev.contains(y) implies k1.contains_key(
                    y,
                ) && k2.contains_key(y) by {
                    assert(sm.dom().contains(y));
                }
                assert(button_ok(sm[n], cm, bm, k1, k1[n]));
                assert(button_ok(sm[n], cm, bm, k2, k2[n]));
                lemma_button_entry_unique(sm[n], cm, bm, k1, k2, k1[n], k2[n], prev);
            }
        }
    }
}

/// One entry whose inherited peers already agree between the two tables
/// resolves to the same states in both.
proof fn lemma_button_entry_unique(
    s: serial::Button,
    cm: Map<Seq<char>, Color>,
    bm: Map<Seq<char>, crate::border::Border>,
    k1: Map<Seq<char>, Button>,
    k2: Map<Seq<char>, Button>,
    r1: Button,
    r2: Button,
    prev: Set<Seq<char>>,
)
    requires
        crate::button::button_creatable(s, cm, bm, prev),
        button_ok(s, cm, bm, k1, r1),
        button_ok(s, cm, bm, k2, r2),
        forall|y: Seq<char>| #[trigger] prev.contains(y) ==> k1.contains_key(y),
        forall|y: Seq<char>| #[trigger] prev.contains(y) ==> k2.contains_key(y),
        forall|y: Seq<char>| #[trigger] prev.contains(y) ==> k1[y].state@ =~= k2[y].state@,
    ensures
        r1.state@ =~= r2.state@,
{
    lemma_button_slot_unique(s.active, 0, cm, bm, k1, k2, prev);
    lemma_button_slot_unique(s.hovered, 1, cm, bm, k1, k2, prev);
    lemma_button_slot_unique(s.pressed, 2, cm, bm, k1, k2, prev);
    lemma_button_slot_unique(s.disabled, 3, cm, bm, k1, k2, prev);
}

/// A slot whose inherited peer already agrees between the two tables
/// resolves to the same value in both.
proof fn lemma_button_slot_unique(
    c: serial::ButtonComponent,
    i: int,
    cm: Map<Seq<char>, Color>,
    bm: Map<Seq<char>, crate::border::Border>,
    k1: Map<Seq<char>, Button>,
    k2: Map<Seq<char>, Button>,
    prev: Set<Seq<char>>,
)
    requires
        crate::button::button_slot_ok(c, cm, bm, prev),
        forall|y: Seq<char>| #[trigger] prev.contains(y) ==> k1.contains_key(y),
        forall|y: Seq<char>| #[trigger] prev.contains(y) ==> k2.contains_key(y),
        forall|y: Seq<char>| #[trigger] prev.contains(y) ==> k1[y].state@ =~= k2[y].state@,
        0 <= i < 4,
    ensures
        crate::button::button_slot_val(c, i, cm, bm, k1) == crate::button::button_slot_val(
            c,
            i,
            cm,
            bm,
            k2,
        ),
{
    match c {
        serial::ButtonComponent::Inherited(y) => {
            assert(prev.contains(y@));
            assert(k1[y@].state@[i] == k2[y@].state@[i]);
        },
        _ => {},
    }
}

/// A theme holding a two-entry button inheritance cycle does not
/// resolve, and resolution reports the failure as an unresolvable cycle
/// when nothing else in the theme is broken: no reference dangles and no
/// composite entry is entirely absent.
pub proof fn lemma_cycle_reported(
    s: serial::Theme,
    r: Result<Theme, Error>,
    x: Seq<char>,
    y: Seq<char>,
)
    requires
        (r is Ok) == theme_resolvable(s),
        (r matches Err(e) ==> error_witness(s, e)),
        s.button@.contains_key(x),
        s.button@.contains_key(y),
        (sm_slot_all_inherit(s.button@[x], y)),
        (sm_slot_all_inherit(s.button@[y], x)),
        !theme_dangling(s),
        forall|n: Seq<char>| !theme_empty_entry(s, n),
    ensures
        r matches Err(Error::UnresolvableCycle { .. }),
{
    lemma_cycle_unresolvable(s.button@, s.color@, borders_of(s), x, y);
    assert(!theme_resolvable(s));
    match r {
        Ok(_) => {},
        Err(e) => match e {
            Error::MalformedValue { .. } => {
                assert(false);
            },
            Error::UnknownReference { .. } => {
                assert(theme_dangling(s));
                assert(false);
            },
            Error::NoDefinedState { entry } => {
                assert(theme_empty_entry(s, entry@));
                assert(false);
            },
            Error::UnresolvableCycle { .. } => {},
        },
    }
}

/// Every state slot of the entry inherits from the named peer.
pub open spec fn sm_slot_all_inherit(s: serial::Button, peer: Seq<char>) -> bool {
    &&& (s.active matches serial::ButtonComponent::Inherited(n) && n@ == peer)
    &&& (s.hovered matches serial::ButtonComponent::Inherited(n) && n@ == peer)
    &&& (s.pressed matches serial::ButtonComponent::Inherited(n) && n@ == peer)
    &&& (s.disabled matches serial::ButtonComponent::Inherited(n) && n@ == peer)
}

/// A composite entry with every state slot absent makes the whole theme
/// unresolvable, and resolution reports it as `NoDefinedState` when
/// nothing else in the theme is broken: no reference dangles and no
/// entry of any kind inherits.
pub proof fn lemma_empty_entry_reported(s: serial::Theme, r: Result<Theme, Error>, x: Seq<char>)
    requires
        (r is Ok) == theme_resolvable(s),
        (r matches Err(e) ==> error_witness(s, e)),
        s.button@.contains_key(x),
        crate::button::button_empty(s.button@[x]),
        !theme_dangling(s),
        forall|n: Seq<char>| !theme_cycle_entry(s, n),
    ensures
        r matches Err(Error::NoDefinedState { .. }),
{
    let ready = button_ready_fn(s.button@, s.color@, borders_of(s));
    assert forall|st: Set<Seq<char>>| st.subset_of(s.button@.dom()) implies !ready(st, x) by {}
    crate::fixpoint::lemma_never_ready(ready, s.button@.dom(), x);
    assert(!buttons_resolvable(s.button@, s.color@, borders_of(s)));
    assert(!theme_resolvable(s));
    match r {
        Ok(_) => {},
        Err(e) => match e {
            Error::MalformedValue { .. } => {
                assert(false);
            },
            Error::UnknownReference { .. } => {
                assert(theme_dangling(s));
                assert(false);
            },
            Error::NoDefinedState { .. } => {},
            Error::UnresolvableCycle { entry } => {
                assert(theme_cycle_entry(s, entry@));
                assert(false);
            },
        },
    }
}

/// Two resolved themes with the same concrete style values, entry by
/// entry and state slot by state slot.  The value tables themselves may
/// differ: canonicalization renames them.
pub open spec fn same_styles(a: Theme, b: Theme) -> bool {
    &&& a.application == b.application
    &&& a.button@.dom() =~= b.button@.dom()
    &&& forall|k: Seq<char>|
        #[trigger] a.button@.contains_key(k) ==> b.button@[k].state@ =~= a.button@[k].state@
    &&& a.container@.dom() =~= b.container@.dom()
    &&& forall|k: Seq<char>|
        #[trigger] a.container@.contains_key(k) ==> b.container@[k] == a.container@[k]
    &&& a.panegrid@.dom() =~= b.panegrid@.dom()
    &&& forall|k: Seq<char>|
        #[trigger] a.panegrid@.contains_key(k) ==> b.panegrid@[k].state@ =~= a.panegrid@[k].state@
    &&& a.picklist@.dom() =~= b.picklist@.dom()
    &&& forall|k: Seq<char>|
        #[trigger] a.picklist@.contains_key(k) ==> b.picklist@[k].state@ =~= a.picklist@[k].state@
            && b.picklist@[k].menu == a.picklist@[k].menu
    &&& a.progressbar@.dom() =~= b.progressbar@.dom()
    &&& forall|k: Seq<char>|
        #[trigger] a.progressbar@.contains_key(k) ==> b.progressbar@[k] == a.progressbar@[k]
    &&& a.scrollable@.dom() =~= b.scrollable@.dom()
    &&& forall|k: Seq<char>|
        #[trigger] a.scrollable@.contains_key(k) ==> b.scrollable@[k].state@
            =~= a.scrollable@[k].state@
    &&& a.textinput@.dom() =~= b.textinput@.dom()
    &&& forall|k: Seq<char>|
        #[trigger] a.textinput@.contains_key(k) ==> b.textinput@[k].state@
            =~= a.textinput@[k].state@ && b.textinput@[k].colors@ =~= a.textinput@[k].colors@
    &&& a.tooltip@.dom() =~= b.tooltip@.dom()
    &&& forall|k: Seq<char>|
        #[trigger] a.tooltip@.contains_key(k) ==> b.tooltip@[k] == a.tooltip@[k]
}

/// Round-trip idempotence: canonicalizing a resolved theme and resolving
/// the canonical form again reproduces the same concrete style values,
/// entry by entry and state slot by state slot.  `canon_ok` is what
/// `canonicalize` ensures of its output `c`; `parse_ok` is what `parse`
/// ensures of its result `t2` on `c` (canonical themes always resolve).
pub proof fn lemma_round_trip(t: Theme, c: serial::Theme, t2: Theme)
    requires
        canon_ok(t, c),
        parse_ok(c, t2),
    ensures
        same_styles(t, t2),
{
    let cm = c.color@;
    let bm = t2.border@;
    assert forall|k: Seq<char>| #[trigger] c.border@.contains_key(k) implies bm.contains_key(k)
        && border_spec(c.border@[k], cm) == Some(bm[k]) by {}
    assert forall|k: Seq<char>| #[trigger] t.button@.contains_key(k) implies
        t2.button@.contains_key(k) && t2.button@[k].state@ =~= t.button@[k].state@ by {
        assert(c.button@.contains_key(k));
        assert(t2.button@.contains_key(k));
        let rs = c.button@[k];
        let orig = t.button@[k];
        assert(crate::canon::canon_button_ok(rs, cm, c.border@, orig));
        assert(button_ok(rs, cm, bm, t2.button@, t2.button@[k]));
        match rs.active {
            serial::ButtonComponent::Defined(d) => {
                assert(bm[d.border@] == orig.state@[0].border);
                assert(button_state_spec(d, cm, bm) == Some(orig.state@[0]));
            },
            _ => {
                assert(false);
            },
        }
        match rs.hovered {
            serial::ButtonComponent::Defined(d) => {
                assert(bm[d.border@] == orig.state@[1].border);
                assert(button_state_spec(d, cm, bm) == Some(orig.state@[1]));
            },
            _ => {
                assert(false);
            },
        }
        match rs.pressed {
            serial::ButtonComponent::Defined(d) => {
                assert(bm[d.border@] == orig.state@[2].border);
                assert(button_state_spec(d, cm, bm) == Some(orig.state@[2]));
            },
            _ => {
                assert(false);
            },
        }
        match rs.disabled {
            serial::ButtonComponent::Defined(d) => {
                assert(bm[d.border@] == orig.state@[3].border);
                assert(button_state_spec(d, cm, bm) == Some(orig.state@[3]));
            },
            _ => {
                assert(false);
            },
        }
        assert(t2.button@[k].state@ =~= orig.state@);
    }
    assert(t.button@.dom() =~= t2.button@.dom());
    assert forall|k: Seq<char>| #[trigger] t.container@.contains_key(k) implies
        t2.container@.contains_key(k) && t2.container@[k] == t.container@[k] by {
        assert(c.container@.contains_key(k));
        assert(t2.container@.contains_key(k));
        let rs = c.container@[k];
        let orig = t.container@[k];
        assert(crate::canon::canon_container_ok(rs, cm, c.border@, orig));
        assert(bm[rs.border@] == orig.border);
        assert(container_spec(rs, cm, bm) == Some(t2.container@[k]));
        assert(container_spec(rs, cm, bm) == Some(orig));
    }
    assert(t.container@.dom() =~= t2.container@.dom());
    assert forall|k: Seq<char>| #[trigger] t.panegrid@.contains_key(k) implies
        t2.panegrid@.contains_key(k) && t2.panegrid@[k].state@ =~= t.panegrid@[k].state@ by {
        assert(c.panegrid@.contains_key(k));
        assert(t2.panegrid@.contains_key(k));
        let rs = c.panegrid@[k];
        let orig = t.panegrid@[k];
        assert(crate::canon::canon_panegrid_ok(rs, cm, orig));
        assert(crate::panegrid::panegrid_ok(rs, cm, t2.panegrid@, t2.panegrid@[k]));
        match rs.picked {
            serial::PaneGridComponent::Defined(d) => {
                assert(crate::panegrid::panegrid_state_spec(d, cm) == Some(orig.state@[0]));
            },
            _ => {
                assert(false);
            },
        }
        match rs.hovered {
            serial::PaneGridComponent::Defined(d) => {
                assert(crate::panegrid::panegrid_state_spec(d, cm) == Some(orig.state@[1]));
            },
            _ => {
                assert(false);
            },
        }
        assert(t2.panegrid@[k].state@ =~= orig.state@);
    }
    assert(t.panegrid@.dom() =~= t2.panegrid@.dom());
    assert forall|k: Seq<char>| #[trigger] t.picklist@.contains_key(k) implies
        t2.picklist@.contains_key(k) && t2.picklist@[k].state@ =~= t.picklist@[k].state@
        && t2.picklist@[k].menu == t.picklist@[k].menu by {
        assert(c.picklist@.contains_key(k));
        assert(t2.picklist@.contains_key(k));
        let rs = c.picklist@[k];
        let orig = t.picklist@[k];
        assert(crate::canon::canon_picklist_ok(rs, cm, c.border@, orig));
        assert(crate::picklist::picklist_ok(rs, cm, bm, t2.picklist@, t2.picklist@[k]));
        match rs.active {
            serial::PicklistStateComponent::Defined(d) => {
                assert(bm[d.border@] == orig.state@[0].border);
                assert(crate::picklist::picklist_state_spec(d, cm, bm) == Some(orig.state@[0]));
            },
            _ => {
                assert(false);
            },
        }
        match rs.hovered {
            serial::PicklistStateComponent::Defined(d) => {
                assert(bm[d.border@] == orig.state@[1].border);
                assert(crate::picklist::picklist_state_spec(d, cm, bm) == Some(orig.state@[1]));
            },
            _ => {
                assert(false);
            },
        }
        match rs.menu {
            serial::PicklistMenuComponent::Defined(d) => {
                assert(bm[d.border@] == orig.menu.border);
                assert(crate::picklist::picklist_menu_spec(d, cm, bm) == Some(orig.menu));
            },
            _ => {
                assert(false);
            },
        }
        assert(t2.picklist@[k].state@ =~= orig.state@);
    }
    assert(t.picklist@.dom() =~= t2.picklist@.dom());
    assert forall|k: Seq<char>| #[trigger] t.progressbar@.contains_key(k) implies
        t2.progressbar@.contains_key(k) && t2.progressbar@[k] == t.progressbar@[k] by {
        assert(c.progressbar@.contains_key(k));
        assert(t2.progressbar@.contains_key(k));
        let rs = c.progressbar@[k];
        let orig = t.progressbar@[k];
        assert(crate::canon::canon_progressbar_ok(rs, cm, orig));
        assert(crate::progressbar::progressbar_spec(rs, cm) == Some(t2.progressbar@[k]));
        assert(crate::progressbar::progressbar_spec(rs, cm) == Some(orig));
    }
    assert(t.progressbar@.dom() =~= t2.progressbar@.dom());
    assert forall|k: Seq<char>| #[trigger] t.scrollable@.contains_key(k) implies
        t2.scrollable@.contains_key(k) && t2.scrollable@[k].state@ =~= t.scrollable@[k].state@ by {
        assert(c.scrollable@.contains_key(k));
        assert(t2.scrollable@.contains_key(k));
        let rs = c.scrollable@[k];
        let orig = t.scrollable@[k];
        assert(crate::canon::canon_scrollable_ok(rs, cm, c.border@, orig));
        assert(crate::scrollable::scrollable_ok(rs, cm, bm, t2.scrollable@, t2.scrollable@[k]));
        match rs.active {
            serial::ScrollableComponent::Defined(d) => {
                assert(bm[d.border@] == orig.state@[0].border);
                assert(bm[d.sborder@] == orig.state@[0].sborder);
                assert(crate::scrollable::scrollable_state_spec(d, cm, bm) == Some(
                    orig.state@[0],
                ));
            },
            _ => {
                assert(false);
            },
        }
        match rs.hovered {
            serial::ScrollableComponent::Defined(d) => {
                assert(bm[d.border@] == orig.state@[1].border);
                assert(bm[d.sborder@] == orig.state@[1].sborder);
                assert(crate::scrollable::scrollable_state_spec(d, cm, bm) == Some(
                    orig.state@[1],
                ));
            },
            _ => {
                assert(false);
            },
        }
        match rs.dragging {
            serial::ScrollableComponent::Defined(d) => {
                assert(bm[d.border@] == orig.state@[2].border);
                assert(bm[d.sborder@] == orig.state@[2].sborder);
                assert(crate::scrollable::scrollable_state_spec(d, cm, bm) == Some(
                    orig.state@[2],
                ));
            },
            _ => {
                assert(false);
            },
        }
        assert(t2.scrollable@[k].state@ =~= orig.state@);
    }
    assert(t.scrollable@.dom() =~= t2.scrollable@.dom());
    assert forall|k: Seq<char>| #[trigger] t.textinput@.contains_key(k) implies
        t2.textinput@.contains_key(k) && t2.textinput@[k].state@ =~= t.textinput@[k].state@
        && t2.textinput@[k].colors@ =~= t.textinput@[k].colors@ by {
        assert(c.textinput@.contains_key(k));
        assert(t2.textinput@.contains_key(k));
        let rs = c.textinput@[k];
        let orig = t.textinput@[k];
        assert(crate::canon::canon_textinput_ok(rs, cm, c.border@, orig));
        assert(crate::textinput::textinput_ok(rs, cm, bm, t2.textinput@, t2.textinput@[k]));
        match rs.active {
            serial::TextInputComponent::Defined(d) => {
                assert(bm[d.border@] == orig.state@[0].border);
                assert(crate::textinput::textinput_state_spec(d, cm, bm) == Some(orig.state@[0]));
            },
            _ => {
                assert(false);
            },
        }
        match rs.hovered {
            serial::TextInputComponent::Defined(d) => {
                assert(bm[d.border@] == orig.state@[1].border);
                assert(crate::textinput::textinput_state_spec(d, cm, bm) == Some(orig.state@[1]));
            },
            _ => {
                assert(false);
            },
        }
        match rs.focused {
            serial::TextInputComponent::Defined(d) => {
                assert(bm[d.border@] == orig.state@[2].border);
                assert(crate::textinput::textinput_state_spec(d, cm, bm) == Some(orig.state@[2]));
            },
            _ => {
                assert(false);
            },
        }
        assert(t2.textinput@[k].state@ =~= orig.state@);
        assert(t2.textinput@[k].colors@ =~= orig.colors@);
    }
    assert(t.textinput@.dom() =~= t2.textinput@.dom());
    assert forall|k: Seq<char>| #[trigger] t.tooltip@.contains_key(k) implies
        t2.tooltip@.contains_key(k) && t2.tooltip@[k] == t.tooltip@[k] by {
        assert(c.tooltip@.contains_key(k));
        assert(t2.tooltip@.contains_key(k));
        let rs = c.tooltip@[k];
        let orig = t.tooltip@[k];
        assert(crate::canon::canon_tooltip_ok(rs, cm, c.border@, orig));
        assert(bm[rs.border@] == orig.border);
        assert(crate::tooltip::tooltip_spec(rs, cm, bm) == Some(t2.tooltip@[k]));
        assert(crate::tooltip::tooltip_spec(rs, cm, bm) == Some(orig));
    }
    assert(t.tooltip@.dom() =~= t2.tooltip@.dom());
    assert(t.application == t2.application);
}

/// In a canonicalized theme no two color entries hold the same value:
/// every use of one concrete color across the whole theme refers to the
/// single table entry holding it.
pub proof fn lemma_canonical_dedup(ct: Table<Color>, n1: Seq<char>, n2: Seq<char>)
    requires
        crate::canon::color_table_canonical(ct),
        ct@.contains_key(n1),
        ct@.contains_key(n2),
        ct@[n1] == ct@[n2],
    ensures
        n1 == n2,
{
    ct.lemma_dom(n1);
    ct.lemma_dom(n2);
    let i1 = choose|i: int| 0 <= i < ct.key_seq().len() && ct.key_seq()[i] == n1;
    let i2 = choose|i: int| 0 <= i < ct.key_seq().len() && ct.key_seq()[i] == n2;
    ct.lemma_entry(i1);
    ct.lemma_entry(i2);
    if i1 != i2 {
        assert(ct.val_seq()[i1] != ct.val_seq()[i2]);
        assert(false);
    }
}


/// The fixed point converges to one answer for pane grids as well.
pub proof fn lemma_panegrid_resolution_unique(
    sm: Map<Seq<char>, serial::PaneGrid>,
    cm: Map<Seq<char>, Color>,
    k1: Map<Seq<char>, crate::panegrid::PaneGrid>,
    k2: Map<Seq<char>, crate::panegrid::PaneGrid>,
)
    requires
        crate::panegrid::panegrids_resolved(sm, cm, k1),
        crate::panegrid::panegrids_resolved(sm, cm, k2),
        crate::panegrid::panegrids_resolvable(sm, cm),
    ensures
        forall|n: Seq<char>| #[trigger] sm.contains_key(n) ==> k1[n].state@ =~= k2[n].state@,
{
    assert forall|n: Seq<char>| #[trigger] sm.contains_key(n) implies k1[n].state@
        =~= k2[n].state@ by {
        let ready = crate::panegrid::panegrid_ready_fn(sm, cm);
        assert(crate::fixpoint::resolvable(ready, sm.dom(), n));
        let f = choose|f: nat| reach(ready, sm.dom(), f).contains(n);
        lemma_panegrid_resolution_unique_fuel(sm, cm, k1, k2, f);
    }
}

#[verifier::rlimit(50)]
proof fn lemma_panegrid_resolution_unique_fuel(
    sm: Map<Seq<char>, serial::PaneGrid>,
    cm: Map<Seq<char>, Color>,
    k1: Map<Seq<char>, crate::panegrid::PaneGrid>,
    k2: Map<Seq<char>, crate::panegrid::PaneGrid>,
    f: nat,
)
    requires
        crate::panegrid::panegrids_resolved(sm, cm, k1),
        crate::panegrid::panegrids_resolved(sm, cm, k2),
    ensures
        forall|n: Seq<char>|
            #[trigger] reach(crate::panegrid::panegrid_ready_fn(sm, cm), sm.dom(), f).contains(n)
                ==> k1[n].state@ =~= k2[n].state@,
    decreases f,
{
    let ready = crate::panegrid::panegrid_ready_fn(sm, cm);
    if f > 0 {
        lemma_panegrid_resolution_unique_fuel(sm, cm, k1, k2, (f - 1) as nat);
        let prev = reach(ready, sm.dom(), (f - 1) as nat);
        assert forall|n: Seq<char>| #[trigger] reach(ready, sm.dom(), f).contains(n) implies
            k1[n].state@ =~= k2[n].state@ by {
            if !prev.contains(n) {
                assert(sm.contains_key(n));
                assert(crate::panegrid::panegrid_creatable(sm[n], cm, prev));
                crate::fixpoint::lemma_reach_in_dom(ready, sm.dom(), (f - 1) as nat);
                assert forall|y: Seq<char>| #[trigger] prev.contains(y) implies k1.contains_key(
                    y,
                ) && k2.contains_key(y) by {
                    assert(sm.dom().contains(y));
                }
                assert(crate::panegrid::panegrid_ok(sm[n], cm, k1, k1[n]));
                assert(crate::panegrid::panegrid_ok(sm[n], cm, k2, k2[n]));
                lemma_panegrid_slot_unique(sm[n].picked, 0, cm, k1, k2, prev);
                lemma_panegrid_slot_unique(sm[n].hovered, 1, cm, k1, k2, prev);
            }
        }
    }
}

proof fn lemma_panegrid_slot_unique(
    c: serial::PaneGridComponent,
    i: int,
    cm: Map<Seq<char>, Color>,
    k1: Map<Seq<char>, crate::panegrid::PaneGrid>,
    k2: Map<Seq<char>, crate::panegrid::PaneGrid>,
    prev: Set<Seq<char>>,
)
    requires
        crate::panegrid::panegrid_slot_ok(c, cm, prev),
        forall|y: Seq<char>| #[trigger] prev.contains(y) ==> k1.contains_key(y),
        forall|y: Seq<char>| #[trigger] prev.contains(y) ==> k2.contains_key(y),
        forall|y: Seq<char>| #[trigger] prev.contains(y) ==> k1[y].state@ =~= k2[y].state@,
        0 <= i < 2,
    ensures
        crate::panegrid::panegrid_slot_val(c, i, cm, k1) == crate::panegrid::panegrid_slot_val(
            c,
            i,
            cm,
            k2,
        ),
{
    match c {
        serial::PaneGridComponent::Inherited(y) => {
            assert(prev.contains(y@));
            assert(k1[y@].state@[i] == k2[y@].state@[i]);
        },
        _ => {},
    }
}

/// The fixed point converges to one answer for scrollables as well.
pub proof fn lemma_scrollable_resolution_unique(
    sm: Map<Seq<char>, serial::Scrollable>,
    cm: Map<Seq<char>, Color>,
    bm: Map<Seq<char>, crate::border::Border>,
    k1: Map<Seq<char>, crate::scrollable::Scrollable>,
    k2: Map<Seq<char>, crate::scrollable::Scrollable>,
)
    requires
        crate::scrollable::scrollables_resolved(sm, cm, bm, k1),
        crate::scrollable::scrollables_resolved(sm, cm, bm, k2),
        crate::scrollable::scrollables_resolvable(sm, cm, bm),
    ensures
        forall|n: Seq<char>| #[trigger] sm.contains_key(n) ==> k1[n].state@ =~= k2[n].state@,
{
    assert forall|n: Seq<char>| #[trigger] sm.contains_key(n) implies k1[n].state@
        =~= k2[n].state@ by {
        let ready = crate::scrollable::scrollable_ready_fn(sm, cm, bm);
        assert(crate::fixpoint::resolvable(ready, sm.dom(), n));
        let f = choose|f: nat| reach(ready, sm.dom(), f).contains(n);
        lemma_scrollable_resolution_unique_fuel(sm, cm, bm, k1, k2, f);
    }
}

#[verifier::rlimit(50)]
proof fn lemma_scrollable_resolution_unique_fuel(
    sm: Map<Seq<char>, serial::Scrollable>,
    cm: Map<Seq<char>, Color>,
    bm: Map<Seq<char>, crate::border::Border>,
    k1: Map<Seq<char>, crate::scrollable::Scrollable>,
    k2: Map<Seq<char>, crate::scrollable::Scrollable>,
    f: nat,
)
    requires
        crate::scrollable::scrollables_resolved(sm, cm, bm, k1),
        crate::scrollable::scrollables_resolved(sm, cm, bm, k2),
    ensures
        forall|n: Seq<char>|
            #[trigger] reach(
                crate::scrollable::scrollable_ready_fn(sm, cm, bm),
                sm.dom(),
                f,
            ).contains(n) ==> k1[n].state@ =~= k2[n].state@,
    decreases f,
{
    let ready = crate::scrollable::scrollable_ready_fn(sm, cm, bm);
    if f > 0 {
        lemma_scrollable_resolution_unique_fuel(sm, cm, bm, k1, k2, (f - 1) as nat);
        let prev = reach(ready, sm.dom(), (f - 1) as nat);
        assert forall|n: Seq<char>| #[trigger] reach(ready, sm.dom(), f).contains(n) implies
            k1[n].state@ =~= k2[n].state@ by {
            if !prev.contains(n) {
                assert(sm.contains_key(n));
                assert(crate::scrollable::scrollable_creatable(sm[n], cm, bm, prev));
                crate::fixpoint::lemma_reach_in_dom(ready, sm.dom(), (f - 1) as nat);
                assert forall|y: Seq<char>| #[trigger] prev.contains(y) implies k1.contains_key(
                    y,
                ) && k2.contains_key(y) by {
                    assert(sm.dom().contains(y));
                }
                assert(crate::scrollable::scrollable_ok(sm[n], cm, bm, k1, k1[n]));
                assert(crate::scrollable::scrollable_ok(sm[n], cm, bm, k2, k2[n]));
                lemma_scrollable_slot_unique(sm[n].active, 0, cm, bm, k1, k2, prev);
                lemma_scrollable_slot_unique(sm[n].hovered, 1, cm, bm, k1, k2, prev);
                lemma_scrollable_slot_unique(sm[n].dragging, 2, cm, bm, k1, k2, prev);
            }
        }
    }
}

proof fn lemma_scrollable_slot_unique(
    c: serial::ScrollableComponent,
    i: int,
    cm: Map<Seq<char>, Color>,
    bm: Map<Seq<char>, crate::border::Border>,
    k1: Map<Seq<char>, crate::scrollable::Scrollable>,
    k2: Map<Seq<char>, crate::scrollable::Scrollable>,
    prev: Set<Seq<char>>,
)
    requires
        crate::scrollable::scrollable_slot_ok(c, cm, bm, prev),
        forall|y: Seq<char>| #[trigger] prev.contains(y) ==> k1.contains_key(y),
        forall|y: Seq<char>| #[trigger] prev.contains(y) ==> k2.contains_key(y),
        forall|y: Seq<char>| #[trigger] prev.contains(y) ==> k1[y].state@ =~= k2[y].state@,
        0 <= i < 3,
    ensures
        crate::scrollable::scrollable_slot_val(c, i, cm, bm, k1)
            == crate::scrollable::scrollable_slot_val(c, i, cm, bm, k2),
{
    match c {
        serial::ScrollableComponent::Inherited(y) => {
            assert(prev.contains(y@));
            assert(k1[y@].state@[i] == k2[y@].state@[i]);
        },
        _ => {},
    }
}

/// The fixed point converges to one answer for text inputs as well.
pub proof fn lemma_textinput_resolution_unique(
    sm: Map<Seq<char>, serial::TextInput>,
    cm: Map<Seq<char>, Color>,
    bm: Map<Seq<char>, crate::border::Border>,
    k1: Map<Seq<char>, crate::textinput::TextInput>,
    k2: Map<Seq<char>, crate::textinput::TextInput>,
)
    requires
        crate::textinput::textinputs_resolved(sm, cm, bm, k1),
        crate::textinput::textinputs_resolved(sm, cm, bm, k2),
        crate::textinput::textinputs_resolvable(sm, cm, bm),
    ensures
        forall|n: Seq<char>|
            #[trigger] sm.contains_key(n) ==> k1[n].state@ =~= k2[n].state@ && k1[n].colors@
                =~= k2[n].colors@,
{
    assert forall|n: Seq<char>| #[trigger] sm.contains_key(n) implies k1[n].state@
        =~= k2[n].state@ && k1[n].colors@ =~= k2[n].colors@ by {
        let ready = crate::textinput::textinput_ready_fn(sm, cm, bm);
        assert(crate::fixpoint::resolvable(ready, sm.dom(), n));
        let f = choose|f: nat| reach(ready, sm.dom(), f).contains(n);
        lemma_textinput_resolution_unique_fuel(sm, cm, bm, k1, k2, f);
        assert(crate::textinput::textinput_ok(sm[n], cm, bm, k1, k1[n]));
        assert(crate::textinput::textinput_ok(sm[n], cm, bm, k2, k2[n]));
    }
}

#[verifier::rlimit(50)]
proof fn lemma_textinput_resolution_unique_fuel(
    sm: Map<Seq<char>, serial::TextInput>,
    cm: Map<Seq<char>, Color>,
    bm: Map<Seq<char>, crate::border::Border>,
    k1: Map<Seq<char>, crate::textinput::TextInput>,
    k2: Map<Seq<char>, crate::textinput::TextInput>,
    f: nat,
)
    requires
        crate::textinput::textinputs_resolved(sm, cm, bm, k1),
        crate::textinput::textinputs_resolved(sm, cm, bm, k2),
    ensures
        forall|n: Seq<char>|
            #[trigger] reach(
                crate::textinput::textinput_ready_fn(sm, cm, bm),
                sm.dom(),
                f,
            ).contains(n) ==> k1[n].state@ =~= k2[n].state@,
    decreases f,
{
    let ready = crate::textinput::textinput_ready_fn(sm, cm, bm);
    if f > 0 {
        lemma_textinput_resolution_unique_fuel(sm, cm, bm, k1, k2, (f - 1) as nat);
        let prev = reach(ready, sm.dom(), (f - 1) as nat);
        assert forall|n: Seq<char>| #[trigger] reach(ready, sm.dom(), f).contains(n) implies
            k1[n].state@ =~= k2[n].state@ by {
            if !prev.contains(n) {
                assert(sm.contains_key(n));
                assert(crate::textinput::textinput_creatable(sm[n], cm, bm, prev));
                crate::fixpoint::lemma_reach_in_dom(ready, sm.dom(), (f - 1) as nat);
                assert forall|y: Seq<char>| #[trigger] prev.contains(y) implies k1.contains_key(
                    y,
                ) && k2.contains_key(y) by {
                    assert(sm.dom().contains(y));
                }
                assert(crate::textinput::textinput_ok(sm[n], cm, bm, k1, k1[n]));
                assert(crate::textinput::textinput_ok(sm[n], cm, bm, k2, k2[n]));
                lemma_textinput_slot_unique(sm[n].active, 0, cm, bm, k1, k2, prev);
                lemma_textinput_slot_unique(sm[n].hovered, 1, cm, bm, k1, k2, prev);
                lemma_textinput_slot_unique(sm[n].focused, 2, cm, bm, k1, k2, prev);
            }
        }
    }
}

proof fn lemma_textinput_slot_unique(
    c: serial::TextInputComponent,
    i: int,
    cm: Map<Seq<char>, Color>,
    bm: Map<Seq<char>, crate::border::Border>,
    k1: Map<Seq<char>, crate::textinput::TextInput>,
    k2: Map<Seq<char>, crate::textinput::TextInput>,
    prev: Set<Seq<char>>,
)
    requires
        crate::textinput::textinput_slot_ok(c, cm, bm, prev),
        forall|y: Seq<char>| #[trigger] prev.contains(y) ==> k1.contains_key(y),
        forall|y: Seq<char>| #[trigger] prev.contains(y) ==> k2.contains_key(y),
        forall|y: Seq<char>| #[trigger] prev.contains(y) ==> k1[y].state@ =~= k2[y].state@,
        0 <= i < 3,
    ensures
        crate::textinput::textinput_slot_val(c, i, cm, bm, k1)
            == crate::textinput::textinput_slot_val(c, i, cm, bm, k2),
{
    match c {
        serial::TextInputComponent::Inherited(y) => {
            assert(prev.contains(y@));
            assert(k1[y@].state@[i] == k2[y@].state@[i]);
        },
        _ => {},
    }
}

/// The fixed point converges to one answer for pick lists as well,
/// menus included.
pub proof fn lemma_picklist_resolution_unique(
    sm: Map<Seq<char>, serial::Picklist>,
    cm: Map<Seq<char>, Color>,
    bm: Map<Seq<char>, crate::border::Border>,
    k1: Map<Seq<char>, crate::picklist::Picklist>,
    k2: Map<Seq<char>, crate::picklist::Picklist>,
)
    requires
        crate::picklist::picklists_resolved(sm, cm, bm, k1),
        crate::picklist::picklists_resolved(sm, cm, bm, k2),
        crate::picklist::picklists_resolvable(sm, cm, bm),
    ensures
        forall|n: Seq<char>|
            #[trigger] sm.contains_key(n) ==> k1[n].state@ =~= k2[n].state@ && k1[n].menu
                == k2[n].menu,
{
    assert forall|n: Seq<char>| #[trigger] sm.contains_key(n) implies k1[n].state@
        =~= k2[n].state@ && k1[n].menu == k2[n].menu by {
        let ready = crate::picklist::picklist_ready_fn(sm, cm, bm);
        assert(crate::fixpoint::resolvable(ready, sm.dom(), n));
        let f = choose|f: nat| reach(ready, sm.dom(), f).contains(n);
        lemma_picklist_resolution_unique_fuel(sm, cm, bm, k1, k2, f);
    }
}

#[verifier::rlimit(50)]
proof fn lemma_picklist_resolution_unique_fuel(
    sm: Map<Seq<char>, serial::Picklist>,
    cm: Map<Seq<char>, Color>,
    bm: Map<Seq<char>, crate::border::Border>,
    k1: Map<Seq<char>, crate::picklist::Picklist>,
    k2: Map<Seq<char>, crate::picklist::Picklist>,
    f: nat,
)
    requires
        crate::picklist::picklists_resolved(sm, cm, bm, k1),
        crate::picklist::picklists_resolved(sm, cm, bm, k2),
    ensures
        forall|n: Seq<char>|
            #[trigger] reach(
                crate::picklist::picklist_ready_fn(sm, cm, bm),
                sm.dom(),
                f,
            ).contains(n) ==> k1[n].state@ =~= k2[n].state@ && k1[n].menu == k2[n].menu,
    decreases f,
{
    let ready = crate::picklist::picklist_ready_fn(sm, cm, bm);
    if f > 0 {
        lemma_picklist_resolution_unique_fuel(sm, cm, bm, k1, k2, (f - 1) as nat);
        let prev = reach(ready, sm.dom(), (f - 1) as nat);
        assert forall|n: Seq<char>| #[trigger] reach(ready, sm.dom(), f).contains(n) implies
            k1[n].state@ =~= k2[n].state@ && k1[n].menu == k2[n].menu by {
            if !prev.contains(n) {
                assert(sm.contains_key(n));
                assert(crate::picklist::picklist_creatable(sm[n], cm, bm, prev));
                crate::fixpoint::lemma_reach_in_dom(ready, sm.dom(), (f - 1) as nat);
                assert forall|y: Seq<char>| #[trigger] prev.contains(y) implies k1.contains_key(
                    y,
                ) && k2.contains_key(y) by {
                    assert(sm.dom().contains(y));
                }
                assert(crate::picklist::picklist_ok(sm[n], cm, bm, k1, k1[n]));
                assert(crate::picklist::picklist_ok(sm[n], cm, bm, k2, k2[n]));
                lemma_picklist_slot_unique(sm[n].active, 0, cm, bm, k1, k2, prev);
                lemma_picklist_slot_unique(sm[n].hovered, 1, cm, bm, k1, k2, prev);
                lemma_picklist_menu_unique(sm[n].menu, cm, bm, k1, k2, prev);
            }
        }
    }
}

proof fn lemma_picklist_slot_unique(
    c: serial::PicklistStateComponent,
    i: int,
    cm: Map<Seq<char>, Color>,
    bm: Map<Seq<char>, crate::border::Border>,
    k1: Map<Seq<char>, crate::picklist::Picklist>,
    k2: Map<Seq<char>, crate::picklist::Picklist>,
    prev: Set<Seq<char>>,
)
    requires
        crate::picklist::picklist_slot_ok(c, cm, bm, prev),
        forall|y: Seq<char>| #[trigger] prev.contains(y) ==> k1.contains_key(y),
        forall|y: Seq<char>| #[trigger] prev.contains(y) ==> k2.contains_key(y),
        forall|y: Seq<char>| #[trigger] prev.contains(y) ==> k1[y].state@ =~= k2[y].state@,
        0 <= i < 2,
    ensures
        crate::picklist::picklist_slot_val(c, i, cm, bm, k1)
            == crate::picklist::picklist_slot_val(c, i, cm, bm, k2),
{
    match c {
        serial::PicklistStateComponent::Inherited(y) => {
            assert(prev.contains(y@));
            assert(k1[y@].state@[i] == k2[y@].state@[i]);
        },
        _ => {},
    }
}

proof fn lemma_picklist_menu_unique(
    c: serial::PicklistMenuComponent,
    cm: Map<Seq<char>, Color>,
    bm: Map<Seq<char>, crate::border::Border>,
    k1: Map<Seq<char>, crate::picklist::Picklist>,
    k2: Map<Seq<char>, crate::picklist::Picklist>,
    prev: Set<Seq<char>>,
)
    requires
        crate::picklist::picklist_menu_ok(c, cm, bm, prev),
        forall|y: Seq<char>| #[trigger] prev.contains(y) ==> k1.contains_key(y),
        forall|y: Seq<char>| #[trigger] prev.contains(y) ==> k2.contains_key(y),
        forall|y: Seq<char>| #[trigger] prev.contains(y) ==> k1[y].menu == k2[y].menu,
    ensures
        crate::picklist::picklist_menu_val(c, cm, bm, k1) == crate::picklist::picklist_menu_val(
            c,
            cm,
            bm,
            k2,
        ),
{
    match c {
        serial::PicklistMenuComponent::Inherited(y) => {
            assert(prev.contains(y@));
        },
        _ => {},
    }
}

} // verus!
