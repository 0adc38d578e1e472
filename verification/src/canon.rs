//! Canonicalization: the inverse transform.
//!
//! Given a fully resolved theme, rebuild a minimal declarative theme:
//! every concrete color and border in use is interned under a synthetic
//! name (`color_<n>`, `border_<n>`), reusing the name of an entry that
//! already holds the same value, and every style entry is re-expressed
//! with literal (`Defined`) slots pointing at those names.  Identical
//! values collapse to one name across the whole theme.

use vstd::prelude::*;

use crate::application::Application;
use crate::border::Border;
use crate::border::border_spec;
use crate::button::Button;
use crate::button::ButtonState;
use crate::color::Color;
use crate::container::Container;
use crate::panegrid::PaneGrid;
use crate::panegrid::PaneGridState;
use crate::picklist::Picklist;
use crate::picklist::PicklistMenu;
use crate::picklist::PicklistState;
use crate::progressbar::ProgressBar;
use crate::scrollable::Scrollable;
use crate::scrollable::ScrollableState;
use crate::button::button_ready_fn;
use crate::button::buttons_resolvable;
use crate::container::containers_resolvable;
use crate::fixpoint::reach;
use crate::fixpoint::resolvable;
use crate::panegrid::panegrid_ready_fn;
use crate::panegrid::panegrids_resolvable;
use crate::picklist::picklist_ready_fn;
use crate::picklist::picklists_resolvable;
use crate::progressbar::progressbars_resolvable;
use crate::scrollable::scrollable_ready_fn;
use crate::scrollable::scrollables_resolvable;
use crate::serial;
use crate::table::Table;
use crate::textinput::TextInput;
use crate::textinput::TextInputState;
use crate::textinput::textinput_ready_fn;
use crate::textinput::textinputs_resolvable;
use crate::theme::Theme;
use crate::theme::borders_of;
use crate::theme::theme_resolvable;
use crate::tooltip::Tooltip;
use crate::tooltip::tooltips_resolvable;

verus! {

/// The decimal digit character of a value below ten.
pub open spec fn decimal_digit(d: nat) -> char {
    if d == 0 {
        '0'
    } else if d == 1 {
        '1'
    } else if d == 2 {
        '2'
    } else if d == 3 {
        '3'
    } else if d == 4 {
        '4'
    } else if d == 5 {
        '5'
    } else if d == 6 {
        '6'
    } else if d == 7 {
        '7'
    } else if d == 8 {
        '8'
    } else {
        '9'
    }
}

/// The decimal rendering of a number, most significant digit first.
pub open spec fn decimal_of(n: nat) -> Seq<char>
    decreases n,
{
    if n < 10 {
        seq![decimal_digit(n)]
    } else {
        decimal_of(n / 10).push(decimal_digit(n % 10))
    }
}

/// A decimal rendering is never empty, and has two or more characters
/// exactly for values of ten and above.
proof fn lemma_decimal_len(n: nat)
    ensures
        decimal_of(n).len() >= 1,
        n >= 10 ==> decimal_of(n).len() >= 2,
    decreases n,
{
    if n >= 10 {
        lemma_decimal_len(n / 10);
    }
}

/// Two numbers with the same decimal rendering are the same number.
proof fn lemma_decimal_injective(a: nat, b: nat)
    requires
        decimal_of(a) == decimal_of(b),
    ensures
        a == b,
    decreases a,
{
    if a < 10 && b < 10 {
        assert(decimal_of(a)[0] == decimal_digit(a));
        assert(decimal_of(b)[0] == decimal_digit(b));
    } else if a >= 10 && b >= 10 {
        assert(decimal_of(a).last() == decimal_digit(a % 10));
        assert(decimal_of(b).last() == decimal_digit(b % 10));
        assert(decimal_of(a).drop_last() =~= decimal_of(a / 10));
        assert(decimal_of(b).drop_last() =~= decimal_of(b / 10));
        lemma_decimal_injective(a / 10, b / 10);
        assert(a % 10 == b % 10);
    } else {
        lemma_decimal_len(a);
        lemma_decimal_len(b);
        if a < 10 {
            assert(decimal_of(a).len() == 1);
            assert(decimal_of(b).len() >= 2);
        } else {
            assert(decimal_of(b).len() == 1);
            assert(decimal_of(a).len() >= 2);
        }
    }
}

/// The synthetic name of the color table entry at a position.
pub open spec fn color_name_of(n: nat) -> Seq<char> {
    "color_"@ + decimal_of(n)
}

/// The synthetic name of the border table entry at a position.
pub open spec fn border_name_of(n: nat) -> Seq<char> {
    "border_"@ + decimal_of(n)
}

/// Synthetic color names are pairwise distinct.
proof fn lemma_color_name_injective(a: nat, b: nat)
    requires
        color_name_of(a) == color_name_of(b),
    ensures
        a == b,
{
    let p = "color_"@;
    assert(decimal_of(a) =~= color_name_of(a).subrange(
        p.len() as int,
        color_name_of(a).len() as int,
    ));
    assert(decimal_of(b) =~= color_name_of(b).subrange(
        p.len() as int,
        color_name_of(b).len() as int,
    ));
    lemma_decimal_injective(a, b);
}

/// Synthetic border names are pairwise distinct.
proof fn lemma_border_name_injective(a: nat, b: nat)
    requires
        border_name_of(a) == border_name_of(b),
    ensures
        a == b,
{
    let p = "border_"@;
    assert(decimal_of(a) =~= border_name_of(a).subrange(
        p.len() as int,
        border_name_of(a).len() as int,
    ));
    assert(decimal_of(b) =~= border_name_of(b).subrange(
        p.len() as int,
        border_name_of(b).len() as int,
    ));
    lemma_decimal_injective(a, b);
}

/// Relies on std's `format!` with the `Display` implementation for
/// `usize`, which renders the value in decimal, most significant digit
/// first, matching `decimal_of`.
#[verifier::external_body]
fn decimal_string(n: usize) -> (r: String)
    ensures
        r@ == decimal_of(n as nat),
{
    format!("{}", n)
}

/// Builds the synthetic name of the color table entry at a position.
fn color_name(n: usize) -> (r: String)
    ensures
        r@ == color_name_of(n as nat),
{
    let mut s = "color_".to_string();
    s.append(decimal_string(n).as_str());
    s
}

/// Builds the synthetic name of the border table entry at a position.
fn border_name(n: usize) -> (r: String)
    ensures
        r@ == border_name_of(n as nat),
{
    let mut s = "border_".to_string();
    s.append(decimal_string(n).as_str());
    s
}

/// A canonical color table: entry `i` is named `color_<i>`, and no two
/// entries hold the same color.  The second clause is the deduplication
/// guarantee: one name per distinct color value.
pub open spec fn color_table_canonical(t: Table<Color>) -> bool {
    &&& t.wf()
    &&& forall|i: int| 0 <= i < t.spec_len() ==> t.key_seq()[i] == color_name_of(i as nat)
    &&& forall|i: int, j: int|
        0 <= i < j < t.spec_len() ==> t.val_seq()[i] != t.val_seq()[j]
}

/// Whether two declarative border entries are the same record.
pub open spec fn border_entry_same(a: serial::Border, b: serial::Border) -> bool {
    a.color@ == b.color@ && a.radius == b.radius && a.width == b.width
}

/// A canonical border table: entry `i` is named `border_<i>`, and no two
/// entries hold the same record.
pub open spec fn border_table_canonical(t: Table<serial::Border>) -> bool {
    &&& t.wf()
    &&& forall|i: int| 0 <= i < t.spec_len() ==> t.key_seq()[i] == border_name_of(i as nat)
    &&& forall|i: int, j: int|
        0 <= i < j < t.spec_len() ==> !border_entry_same(t.val_seq()[i], t.val_seq()[j])
}

/// One map of named values extends another: every binding of the first
/// stands unchanged in the second.
pub open spec fn extends<V>(m1: Map<Seq<char>, V>, m2: Map<Seq<char>, V>) -> bool {
    forall|k: Seq<char>| #[trigger] m1.contains_key(k) ==> m2.contains_key(k) && m2[k] == m1[k]
}

/// Extension is transitive.
pub proof fn lemma_extends_trans<V>(
    m1: Map<Seq<char>, V>,
    m2: Map<Seq<char>, V>,
    m3: Map<Seq<char>, V>,
)
    requires
        extends(m1, m2),
        extends(m2, m3),
    ensures
        extends(m1, m3),
{
}

/// A name bound to this color in the table.
pub open spec fn names_color(cm: Map<Seq<char>, Color>, n: Seq<char>, c: Color) -> bool {
    cm.contains_key(n) && cm[n] == c
}

/// A name bound to a border record that resolves to this border.
pub open spec fn names_border(
    bt: Map<Seq<char>, serial::Border>,
    cm: Map<Seq<char>, Color>,
    n: Seq<char>,
    b: Border,
) -> bool {
    bt.contains_key(n) && border_spec(bt[n], cm) == Some(b)
}

/// What a name denotes survives any extension of the tables.
pub proof fn lemma_names_mono(
    cm1: Map<Seq<char>, Color>,
    cm2: Map<Seq<char>, Color>,
    bt1: Map<Seq<char>, serial::Border>,
    bt2: Map<Seq<char>, serial::Border>,
)
    requires
        extends(cm1, cm2),
        extends(bt1, bt2),
    ensures
        forall|n: Seq<char>, c: Color| #[trigger] names_color(cm1, n, c) ==> names_color(cm2, n, c),
        forall|n: Seq<char>, b: Border|
            #[trigger] names_border(bt1, cm1, n, b) ==> names_border(bt2, cm2, n, b),
{
    assert forall|n: Seq<char>, b: Border| #[trigger] names_border(bt1, cm1, n, b) implies
        names_border(bt2, cm2, n, b) by {
        assert(bt2[n] == bt1[n]);
        assert(cm1.contains_key(bt1[n].color@));
    }
}

/// Interns a color: returns the name of the table entry holding this
/// value, minting a fresh `color_<n>` entry when no entry holds it yet.
fn get_color_name(colors: &mut Table<Color>, c: &Color) -> (r: String)
    requires
        color_table_canonical(*old(colors)),
    ensures
        color_table_canonical(*final(colors)),
        names_color(final(colors)@, r@, *c),
        extends(old(colors)@, final(colors)@),
        forall|k: Seq<char>|
            #[trigger] final(colors)@.contains_key(k) ==> old(colors)@.contains_key(k) || k == r@,
        old(colors)@.contains_value(*c) ==> *final(colors) == *old(colors),
{
    let n = colors.len();
    for i in 0..n
        invariant
            n == colors.spec_len(),
            color_table_canonical(*colors),
            colors == old(colors),
            forall|j: int| 0 <= j < i ==> colors.val_seq()[j] != *c,
    {
        proof {
            colors.lemma_entry(i as int);
        }
        if *colors.val_at(i) == *c {
            return colors.key_at(i).clone();
        }
    }
    let name = color_name(n);
    proof {
        colors.lemma_dom(name@);
        if colors.key_seq().contains(name@) {
            let j = choose|j: int|
                0 <= j < colors.key_seq().len() && colors.key_seq()[j] == name@;
            lemma_color_name_injective(j as nat, n as nat);
        }
        if colors@.contains_value(*c) {
            let k = choose|k: Seq<char>| colors@.contains_key(k) && colors@[k] == *c;
            colors.lemma_dom(k);
            let j = choose|j: int|
                0 <= j < colors.key_seq().len() && colors.key_seq()[j] == k;
            colors.lemma_entry(j);
        }
    }
    let ghost oldt = *colors;
    colors.insert(name.clone(), *c);
    proof {
        assert forall|i: int, j: int|
            0 <= i < j < colors.spec_len() implies colors.val_seq()[i] != colors.val_seq()[j] by {
            oldt.lemma_entry(i);
        }
        assert forall|k: Seq<char>| oldt@.contains_key(k) implies colors@.contains_key(k)
            && colors@[k] == oldt@[k] by {}
        colors.lemma_entry(colors.spec_len() - 1);
    }
    name
}

/// Interns a resolved border: interns its color, then returns the name
/// of the border table entry whose record resolves to this border,
/// minting a fresh `border_<n>` entry when none does.
fn get_border_name(
    colors: &mut Table<Color>,
    borders: &mut Table<serial::Border>,
    b: &Border,
) -> (r: String)
    requires
        color_table_canonical(*old(colors)),
        border_table_canonical(*old(borders)),
        forall|k: Seq<char>|
            #[trigger] old(borders)@.contains_key(k) ==> border_spec(old(borders)@[k], old(colors)@)
                is Some,
    ensures
        color_table_canonical(*final(colors)),
        border_table_canonical(*final(borders)),
        extends(old(colors)@, final(colors)@),
        extends(old(borders)@, final(borders)@),
        names_border(final(borders)@, final(colors)@, r@, *b),
        forall|k: Seq<char>|
            #[trigger] final(borders)@.contains_key(k) ==> old(borders)@.contains_key(k) || k
                == r@,
        forall|k: Seq<char>|
            #[trigger] final(borders)@.contains_key(k) ==> border_spec(
                final(borders)@[k],
                final(colors)@,
            ) is Some,
    {
    let color_key = get_color_name(colors, &b.color);
    proof {
        assert forall|k: Seq<char>| #[trigger] borders@.contains_key(k) implies border_spec(
            borders@[k],
            colors@,
        ) is Some by {
            assert(old(colors)@.contains_key(borders@[k].color@));
        }
    }
    let n = borders.len();
    for i in 0..n
        invariant
            n == borders.spec_len(),
            color_table_canonical(*colors),
            border_table_canonical(*borders),
            borders == old(borders),
            names_color(colors@, color_key@, b.color),
            forall|j: int|
                0 <= j < i ==> !(borders.val_seq()[j].color@ == color_key@
                    && borders.val_seq()[j].radius == b.radius && borders.val_seq()[j].width
                    == b.width),
            extends(old(colors)@, colors@),
            forall|k: Seq<char>|
                #[trigger] borders@.contains_key(k) ==> border_spec(borders@[k], colors@) is Some,
    {
        proof {
            borders.lemma_entry(i as int);
        }
        let entry = borders.val_at(i);
        if entry.color == color_key && entry.radius == b.radius && entry.width == b.width {
            proof {
                assert(border_spec(borders@[borders.key_seq()[i as int]], colors@) == Some(*b));
            }
            return borders.key_at(i).clone();
        }
    }
    let name = border_name(n);
    proof {
        borders.lemma_dom(name@);
        if borders.key_seq().contains(name@) {
            let j = choose|j: int|
                0 <= j < borders.key_seq().len() && borders.key_seq()[j] == name@;
            lemma_border_name_injective(j as nat, n as nat);
        }
    }
    let ghost oldt = *borders;
    let entry = serial::Border { color: color_key, radius: b.radius, width: b.width };
    borders.insert(name.clone(), entry);
    proof {
        assert forall|i: int, j: int|
            0 <= i < j < borders.spec_len() implies !border_entry_same(
            borders.val_seq()[i],
            borders.val_seq()[j],
        ) by {
            oldt.lemma_entry(i);
        }
        borders.lemma_entry(borders.spec_len() - 1);
        assert(border_spec(borders@[name@], colors@) == Some(*b));
    }
    name
}

/// The names of a canonical button state denote the original's values.
pub open spec fn canon_button_state_ok(
    d: serial::ButtonState,
    cm: Map<Seq<char>, Color>,
    bt: Map<Seq<char>, serial::Border>,
    orig: ButtonState,
) -> bool {
    &&& names_color(cm, d.background@, orig.background)
    &&& names_color(cm, d.text@, orig.text)
    &&& names_border(bt, cm, d.border@, orig.border)
}

/// A canonical button entry: every slot literal, denoting the original's
/// slot values.
pub open spec fn canon_button_ok(
    rs: serial::Button,
    cm: Map<Seq<char>, Color>,
    bt: Map<Seq<char>, serial::Border>,
    orig: Button,
) -> bool {
    &&& (rs.active matches serial::ButtonComponent::Defined(d) && canon_button_state_ok(
        d,
        cm,
        bt,
        orig.state@[0],
    ))
    &&& (rs.hovered matches serial::ButtonComponent::Defined(d) && canon_button_state_ok(
        d,
        cm,
        bt,
        orig.state@[1],
    ))
    &&& (rs.pressed matches serial::ButtonComponent::Defined(d) && canon_button_state_ok(
        d,
        cm,
        bt,
        orig.state@[2],
    ))
    &&& (rs.disabled matches serial::ButtonComponent::Defined(d) && canon_button_state_ok(
        d,
        cm,
        bt,
        orig.state@[3],
    ))
}

/// The names of a canonical pane grid state denote the original's values.
pub open spec fn canon_panegrid_state_ok(
    d: serial::PaneGridState,
    cm: Map<Seq<char>, Color>,
    orig: PaneGridState,
) -> bool {
    &&& names_color(cm, d.color@, orig.color)
    &&& d.width == orig.width
}

/// A canonical pane grid entry.
pub open spec fn canon_panegrid_ok(
    rs: serial::PaneGrid,
    cm: Map<Seq<char>, Color>,
    orig: PaneGrid,
) -> bool {
    &&& (rs.picked matches serial::PaneGridComponent::Defined(d) && canon_panegrid_state_ok(
        d,
        cm,
        orig.state@[0],
    ))
    &&& (rs.hovered matches serial::PaneGridComponent::Defined(d) && canon_panegrid_state_ok(
        d,
        cm,
        orig.state@[1],
    ))
}

/// The names of a canonical pick list state denote the original's values.
pub open spec fn canon_picklist_state_ok(
    d: serial::PicklistState,
    cm: Map<Seq<char>, Color>,
    bt: Map<Seq<char>, serial::Border>,
    orig: PicklistState,
) -> bool {
    &&& names_color(cm, d.background@, orig.background)
    &&& names_color(cm, d.text@, orig.text)
    &&& names_color(cm, d.placeholder@, orig.placeholder)
    &&& names_border(bt, cm, d.border@, orig.border)
    &&& names_color(cm, d.handle@, orig.handle)
}

/// The names of a canonical pick list menu denote the original's values.
pub open spec fn canon_picklist_menu_ok(
    d: serial::PicklistMenu,
    cm: Map<Seq<char>, Color>,
    bt: Map<Seq<char>, serial::Border>,
    orig: PicklistMenu,
) -> bool {
    &&& names_color(cm, d.background@, orig.background)
    &&& names_color(cm, d.text@, orig.text)
    &&& names_border(bt, cm, d.border@, orig.border)
    &&& names_color(cm, d.sbackground@, orig.sbackground)
    &&& names_color(cm, d.stext@, orig.stext)
}

/// A canonical pick list entry.
pub open spec fn canon_picklist_ok(
    rs: serial::Picklist,
    cm: Map<Seq<char>, Color>,
    bt: Map<Seq<char>, serial::Border>,
    orig: Picklist,
) -> bool {
    &&& (rs.active matches serial::PicklistStateComponent::Defined(d) && canon_picklist_state_ok(
        d,
        cm,
        bt,
        orig.state@[0],
    ))
    &&& (rs.hovered matches serial::PicklistStateComponent::Defined(d) && canon_picklist_state_ok(
        d,
        cm,
        bt,
        orig.state@[1],
    ))
    &&& (rs.menu matches serial::PicklistMenuComponent::Defined(d) && canon_picklist_menu_ok(
        d,
        cm,
        bt,
        orig.menu,
    ))
}

/// The names of a canonical scrollable state denote the original's
/// values.
pub open spec fn canon_scrollable_state_ok(
    d: serial::ScrollableState,
    cm: Map<Seq<char>, Color>,
    bt: Map<Seq<char>, serial::Border>,
    orig: ScrollableState,
) -> bool {
    &&& names_color(cm, d.color@, orig.color)
    &&& names_border(bt, cm, d.border@, orig.border)
    &&& names_color(cm, d.scolor@, orig.scolor)
    &&& names_border(bt, cm, d.sborder@, orig.sborder)
}

/// A canonical scrollable entry.
pub open spec fn canon_scrollable_ok(
    rs: serial::Scrollable,
    cm: Map<Seq<char>, Color>,
    bt: Map<Seq<char>, serial::Border>,
    orig: Scrollable,
) -> bool {
    &&& (rs.active matches serial::ScrollableComponent::Defined(d) && canon_scrollable_state_ok(
        d,
        cm,
        bt,
        orig.state@[0],
    ))
    &&& (rs.hovered matches serial::ScrollableComponent::Defined(d) && canon_scrollable_state_ok(
        d,
        cm,
        bt,
        orig.state@[1],
    ))
    &&& (rs.dragging matches serial::ScrollableComponent::Defined(d) && canon_scrollable_state_ok(
        d,
        cm,
        bt,
        orig.state@[2],
    ))
}

/// The names of a canonical text input state denote the original's
/// values.
pub open spec fn canon_textinput_state_ok(
    d: serial::TextInputState,
    cm: Map<Seq<char>, Color>,
    bt: Map<Seq<char>, serial::Border>,
    orig: TextInputState,
) -> bool {
    &&& names_color(cm, d.background@, orig.background)
    &&& names_border(bt, cm, d.border@, orig.border)
}

/// A canonical text input entry.
pub open spec fn canon_textinput_ok(
    rs: serial::TextInput,
    cm: Map<Seq<char>, Color>,
    bt: Map<Seq<char>, serial::Border>,
    orig: TextInput,
) -> bool {
    &&& (rs.active matches serial::TextInputComponent::Defined(d) && canon_textinput_state_ok(
        d,
        cm,
        bt,
        orig.state@[0],
    ))
    &&& (rs.hovered matches serial::TextInputComponent::Defined(d) && canon_textinput_state_ok(
        d,
        cm,
        bt,
        orig.state@[1],
    ))
    &&& (rs.focused matches serial::TextInputComponent::Defined(d) && canon_textinput_state_ok(
        d,
        cm,
        bt,
        orig.state@[2],
    ))
    &&& names_color(cm, rs.placeholder@, orig.colors@[0])
    &&& names_color(cm, rs.value@, orig.colors@[1])
    &&& names_color(cm, rs.selection@, orig.colors@[2])
}

/// A canonical container entry.
pub open spec fn canon_container_ok(
    rs: serial::Container,
    cm: Map<Seq<char>, Color>,
    bt: Map<Seq<char>, serial::Border>,
    orig: Container,
) -> bool {
    &&& names_color(cm, rs.color@, orig.color)
    &&& names_border(bt, cm, rs.border@, orig.border)
}

/// A canonical tooltip entry.
pub open spec fn canon_tooltip_ok(
    rs: serial::Tooltip,
    cm: Map<Seq<char>, Color>,
    bt: Map<Seq<char>, serial::Border>,
    orig: Tooltip,
) -> bool {
    &&& names_color(cm, rs.background@, orig.background)
    &&& names_color(cm, rs.text@, orig.text)
    &&& names_border(bt, cm, rs.border@, orig.border)
}

/// A canonical progress bar entry.
pub open spec fn canon_progressbar_ok(
    rs: serial::ProgressBar,
    cm: Map<Seq<char>, Color>,
    orig: ProgressBar,
) -> bool {
    &&& names_color(cm, rs.background@, orig.background)
    &&& names_color(cm, rs.bar@, orig.bar)
    &&& rs.radius == orig.radius
}

/// A canonical application entry.
pub open spec fn canon_application_ok(
    rs: serial::Application,
    cm: Map<Seq<char>, Color>,
    orig: Application,
) -> bool {
    &&& names_color(cm, rs.background_color@, orig.background_color)
    &&& names_color(cm, rs.text_color@, orig.text_color)
}

/// Every record of the border table resolves under the color table.
pub open spec fn borders_wrt(
    bt: Map<Seq<char>, serial::Border>,
    cm: Map<Seq<char>, Color>,
) -> bool {
    forall|k: Seq<char>| #[trigger] bt.contains_key(k) ==> border_spec(bt[k], cm) is Some
}

/// Border records keep resolving when the color table grows.
pub proof fn lemma_wrt_mono(
    bt: Map<Seq<char>, serial::Border>,
    cm1: Map<Seq<char>, Color>,
    cm2: Map<Seq<char>, Color>,
)
    requires
        borders_wrt(bt, cm1),
        extends(cm1, cm2),
    ensures
        borders_wrt(bt, cm2),
{
    assert forall|k: Seq<char>| #[trigger] bt.contains_key(k) implies border_spec(bt[k], cm2)
        is Some by {
        assert(cm1.contains_key(bt[k].color@));
    }
}

/// Interns one button state.
fn canon_button_state(
    colors: &mut Table<Color>,
    borders: &mut Table<serial::Border>,
    st: &ButtonState,
) -> (r: serial::ButtonState)
    requires
        color_table_canonical(*old(colors)),
        border_table_canonical(*old(borders)),
        borders_wrt(old(borders)@, old(colors)@),
    ensures
        color_table_canonical(*final(colors)),
        border_table_canonical(*final(borders)),
        borders_wrt(final(borders)@, final(colors)@),
        extends(old(colors)@, final(colors)@),
        extends(old(borders)@, final(borders)@),
        canon_button_state_ok(r, final(colors)@, final(borders)@, *st),
{
    let ghost c0 = colors@;
    let background = get_color_name(colors, &st.background);
    proof {
        lemma_wrt_mono(borders@, c0, colors@);
    }
    let ghost c1 = colors@;
    let text = get_color_name(colors, &st.text);
    proof {
        lemma_wrt_mono(borders@, c1, colors@);
    }
    let ghost c2 = colors@;
    let ghost b2 = borders@;
    let border = get_border_name(colors, borders, &st.border);
    proof {
        lemma_extends_trans(c0, c1, c2);
        lemma_extends_trans(c0, c2, colors@);
        lemma_names_mono(c1, colors@, b2, borders@);
        lemma_names_mono(c2, colors@, b2, borders@);
    }
    serial::ButtonState { background, text, border }
}

/// Interns one pane grid state.
fn canon_panegrid_state(colors: &mut Table<Color>, st: &PaneGridState) -> (r:
    serial::PaneGridState)
    requires
        color_table_canonical(*old(colors)),
    ensures
        color_table_canonical(*final(colors)),
        extends(old(colors)@, final(colors)@),
        canon_panegrid_state_ok(r, final(colors)@, *st),
{
    let color = get_color_name(colors, &st.color);
    serial::PaneGridState { color, width: st.width }
}

/// Interns one pick list state.
fn canon_picklist_state(
    colors: &mut Table<Color>,
    borders: &mut Table<serial::Border>,
    st: &PicklistState,
) -> (r: serial::PicklistState)
    requires
        color_table_canonical(*old(colors)),
        border_table_canonical(*old(borders)),
        borders_wrt(old(borders)@, old(colors)@),
    ensures
        color_table_canonical(*final(colors)),
        border_table_canonical(*final(borders)),
        borders_wrt(final(borders)@, final(colors)@),
        extends(old(colors)@, final(colors)@),
        extends(old(borders)@, final(borders)@),
        canon_picklist_state_ok(r, final(colors)@, final(borders)@, *st),
{
    let ghost c0 = colors@;
    let background = get_color_name(colors, &st.background);
    proof {
        lemma_wrt_mono(borders@, c0, colors@);
    }
    let ghost c1 = colors@;
    let text = get_color_name(colors, &st.text);
    proof {
        lemma_wrt_mono(borders@, c1, colors@);
    }
    let ghost c2 = colors@;
    let placeholder = get_color_name(colors, &st.placeholder);
    proof {
        lemma_wrt_mono(borders@, c2, colors@);
    }
    let ghost c3 = colors@;
    let ghost b3 = borders@;
    let border = get_border_name(colors, borders, &st.border);
    let ghost c4 = colors@;
    let ghost b4 = borders@;
    let handle = get_color_name(colors, &st.handle);
    proof {
        lemma_wrt_mono(borders@, c4, colors@);
        lemma_extends_trans(c0, c1, c2);
        lemma_extends_trans(c0, c2, c3);
        lemma_extends_trans(c0, c3, c4);
        lemma_extends_trans(c0, c4, colors@);
        lemma_extends_trans(c1, c2, c3);
        lemma_extends_trans(c1, c3, c4);
        lemma_extends_trans(c1, c4, colors@);
        lemma_extends_trans(c2, c3, c4);
        lemma_extends_trans(c2, c4, colors@);
        lemma_extends_trans(c3, c4, colors@);
        lemma_extends_trans(b3, b4, borders@);
        lemma_names_mono(c1, colors@, b3, borders@);
        lemma_names_mono(c2, colors@, b3, borders@);
        lemma_names_mono(c3, colors@, b3, borders@);
        lemma_names_mono(c4, colors@, b4, borders@);
    }
    serial::PicklistState { background, text, placeholder, border, handle }
}

/// Interns one pick list menu.
fn canon_picklist_menu(
    colors: &mut Table<Color>,
    borders: &mut Table<serial::Border>,
    st: &PicklistMenu,
) -> (r: serial::PicklistMenu)
    requires
        color_table_canonical(*old(colors)),
        border_table_canonical(*old(borders)),
        borders_wrt(old(borders)@, old(colors)@),
    ensures
        color_table_canonical(*final(colors)),
        border_table_canonical(*final(borders)),
        borders_wrt(final(borders)@, final(colors)@),
        extends(old(colors)@, final(colors)@),
        extends(old(borders)@, final(borders)@),
        canon_picklist_menu_ok(r, final(colors)@, final(borders)@, *st),
{
    let ghost c0 = colors@;
    let background = get_color_name(colors, &st.background);
    proof {
        lemma_wrt_mono(borders@, c0, colors@);
    }
    let ghost c1 = colors@;
    let text = get_color_name(colors, &st.text);
    proof {
        lemma_wrt_mono(borders@, c1, colors@);
    }
    let ghost c2 = colors@;
    let ghost b2 = borders@;
    let border = get_border_name(colors, borders, &st.border);
    let ghost c3 = colors@;
    let ghost b3 = borders@;
    let sbackground = get_color_name(colors, &st.sbackground);
    proof {
        lemma_wrt_mono(borders@, c3, colors@);
    }
    let ghost c4 = colors@;
    let stext = get_color_name(colors, &st.stext);
    proof {
        lemma_wrt_mono(borders@, c4, colors@);
        lemma_extends_trans(c0, c1, c2);
        lemma_extends_trans(c0, c2, c3);
        lemma_extends_trans(c0, c3, c4);
        lemma_extends_trans(c0, c4, colors@);
        lemma_extends_trans(c1, c2, c3);
        lemma_extends_trans(c1, c3, c4);
        lemma_extends_trans(c1, c4, colors@);
        lemma_extends_trans(c2, c3, c4);
        lemma_extends_trans(c2, c4, colors@);
        lemma_extends_trans(c3, c4, colors@);
        lemma_extends_trans(b2, b3, borders@);
        lemma_names_mono(c1, colors@, b2, borders@);
        lemma_names_mono(c2, colors@, b2, borders@);
        lemma_names_mono(c3, colors@, b3, borders@);
        lemma_names_mono(c4, colors@, b3, borders@);
    }
    serial::PicklistMenu { background, text, border, sbackground, stext }
}

/// Interns one scrollable state.
fn canon_scrollable_state(
    colors: &mut Table<Color>,
    borders: &mut Table<serial::Border>,
    st: &ScrollableState,
) -> (r: serial::ScrollableState)
    requires
        color_table_canonical(*old(colors)),
        border_table_canonical(*old(borders)),
        borders_wrt(old(borders)@, old(colors)@),
    ensures
        color_table_canonical(*final(colors)),
        border_table_canonical(*final(borders)),
        borders_wrt(final(borders)@, final(colors)@),
        extends(old(colors)@, final(colors)@),
        extends(old(borders)@, final(borders)@),
        canon_scrollable_state_ok(r, final(colors)@, final(borders)@, *st),
{
    let ghost c0 = colors@;
    let color = get_color_name(colors, &st.color);
    proof {
        lemma_wrt_mono(borders@, c0, colors@);
    }
    let ghost c1 = colors@;
    let ghost b1 = borders@;
    let border = get_border_name(colors, borders, &st.border);
    let ghost c2 = colors@;
    let ghost b2 = borders@;
    let scolor = get_color_name(colors, &st.scolor);
    proof {
        lemma_wrt_mono(borders@, c2, colors@);
    }
    let ghost c3 = colors@;
    let ghost b3 = borders@;
    let sborder = get_border_name(colors, borders, &st.sborder);
    proof {
        lemma_extends_trans(c0, c1, c2);
        lemma_extends_trans(c0, c2, c3);
        lemma_extends_trans(c0, c3, colors@);
        lemma_extends_trans(c1, c2, c3);
        lemma_extends_trans(c1, c3, colors@);
        lemma_extends_trans(c2, c3, colors@);
        lemma_extends_trans(b1, b2, b3);
        lemma_extends_trans(b1, b3, borders@);
        lemma_extends_trans(b2, b3, borders@);
        lemma_names_mono(c1, colors@, b1, borders@);
        lemma_names_mono(c2, colors@, b2, borders@);
        lemma_names_mono(c3, colors@, b3, borders@);
    }
    serial::ScrollableState { color, border, scolor, sborder }
}

/// Interns one text input state.
fn canon_textinput_state(
    colors: &mut Table<Color>,
    borders: &mut Table<serial::Border>,
    st: &TextInputState,
) -> (r: serial::TextInputState)
    requires
        color_table_canonical(*old(colors)),
        border_table_canonical(*old(borders)),
        borders_wrt(old(borders)@, old(colors)@),
    ensures
        color_table_canonical(*final(colors)),
        border_table_canonical(*final(borders)),
        borders_wrt(final(borders)@, final(colors)@),
        extends(old(colors)@, final(colors)@),
        extends(old(borders)@, final(borders)@),
        canon_textinput_state_ok(r, final(colors)@, final(borders)@, *st),
{
    let ghost c0 = colors@;
    let background = get_color_name(colors, &st.background);
    proof {
        lemma_wrt_mono(borders@, c0, colors@);
    }
    let ghost c1 = colors@;
    let ghost b1 = borders@;
    let border = get_border_name(colors, borders, &st.border);
    proof {
        lemma_extends_trans(c0, c1, colors@);
        lemma_names_mono(c1, colors@, b1, borders@);
    }
    serial::TextInputState { background, border }
}

/// Interns a whole resolved button table.
fn canon_buttons(
    colors: &mut Table<Color>,
    borders: &mut Table<serial::Border>,
    src: &Table<Button>,
) -> (out: Table<serial::Button>)
    requires
        src.wf(),
        color_table_canonical(*old(colors)),
        border_table_canonical(*old(borders)),
        borders_wrt(old(borders)@, old(colors)@),
    ensures
        color_table_canonical(*final(colors)),
        border_table_canonical(*final(borders)),
        borders_wrt(final(borders)@, final(colors)@),
        extends(old(colors)@, final(colors)@),
        extends(old(borders)@, final(borders)@),
        out.wf(),
        out@.dom() =~= src@.dom(),
        forall|k: Seq<char>|
            #[trigger] out@.contains_key(k) ==> canon_button_ok(
                out@[k],
                final(colors)@,
                final(borders)@,
                src@[k],
            ),
{
    let n = src.len();
    let mut out: Table<serial::Button> = Table::new();
    for i in 0..n
        invariant
            src.wf(),
            out.wf(),
            n == src.spec_len(),
            color_table_canonical(*colors),
            border_table_canonical(*borders),
            borders_wrt(borders@, colors@),
            extends(old(colors)@, colors@),
            extends(old(borders)@, borders@),
            forall|k: Seq<char>| #[trigger] out@.contains_key(k) ==> src@.contains_key(k),
            forall|j: int| 0 <= j < i ==> out@.contains_key(src.key_seq()[j]),
            forall|k: Seq<char>|
                #[trigger] out@.contains_key(k) ==> canon_button_ok(
                    out@[k],
                    colors@,
                    borders@,
                    src@[k],
                ),
    {
        let name = src.key_at(i);
        let entry = src.val_at(i);
        proof {
            src.lemma_entry(i as int);
        }
        let ghost c0 = colors@;
        let ghost b0 = borders@;
        let s0 = canon_button_state(colors, borders, &entry.state[0]);
        let ghost c1 = colors@;
        let ghost b1 = borders@;
        let s1 = canon_button_state(colors, borders, &entry.state[1]);
        let ghost c2 = colors@;
        let ghost b2 = borders@;
        let s2 = canon_button_state(colors, borders, &entry.state[2]);
        let ghost c3 = colors@;
        let ghost b3 = borders@;
        let s3 = canon_button_state(colors, borders, &entry.state[3]);
        proof {
            lemma_extends_trans(c0, c1, c2);
            lemma_extends_trans(c0, c2, c3);
            lemma_extends_trans(c0, c3, colors@);
            lemma_extends_trans(c1, c2, c3);
            lemma_extends_trans(c1, c3, colors@);
            lemma_extends_trans(c2, c3, colors@);
            lemma_extends_trans(b0, b1, b2);
            lemma_extends_trans(b0, b2, b3);
            lemma_extends_trans(b0, b3, borders@);
            lemma_extends_trans(b1, b2, b3);
            lemma_extends_trans(b1, b3, borders@);
            lemma_extends_trans(b2, b3, borders@);
            lemma_names_mono(c0, colors@, b0, borders@);
            lemma_names_mono(c1, colors@, b1, borders@);
            lemma_names_mono(c2, colors@, b2, borders@);
            lemma_names_mono(c3, colors@, b3, borders@);
            lemma_extends_trans(old(colors)@, c0, colors@);
            lemma_extends_trans(old(borders)@, b0, borders@);
        }
        let b = serial::Button {
            active: serial::ButtonComponent::Defined(s0),
            hovered: serial::ButtonComponent::Defined(s1),
            pressed: serial::ButtonComponent::Defined(s2),
            disabled: serial::ButtonComponent::Defined(s3),
        };
        out.insert(name.clone(), b);
    }
    proof {
        assert forall|k: Seq<char>| src@.contains_key(k) implies out@.contains_key(k) by {
            src.lemma_dom(k);
            let j = choose|j: int| 0 <= j < src.key_seq().len() && src.key_seq()[j] == k;
            assert(out@.contains_key(src.key_seq()[j]));
        }
        assert(out@.dom() =~= src@.dom());
    }
    out
}

/// Interns a whole resolved pane grid table.
fn canon_panegrids(colors: &mut Table<Color>, src: &Table<PaneGrid>) -> (out: Table<
    serial::PaneGrid,
>)
    requires
        src.wf(),
        color_table_canonical(*old(colors)),
    ensures
        color_table_canonical(*final(colors)),
        extends(old(colors)@, final(colors)@),
        out.wf(),
        out@.dom() =~= src@.dom(),
        forall|k: Seq<char>|
            #[trigger] out@.contains_key(k) ==> canon_panegrid_ok(out@[k], final(colors)@, src@[k]),
{
    let n = src.len();
    let mut out: Table<serial::PaneGrid> = Table::new();
    for i in 0..n
        invariant
            src.wf(),
            out.wf(),
            n == src.spec_len(),
            color_table_canonical(*colors),
            extends(old(colors)@, colors@),
            forall|k: Seq<char>| #[trigger] out@.contains_key(k) ==> src@.contains_key(k),
            forall|j: int| 0 <= j < i ==> out@.contains_key(src.key_seq()[j]),
            forall|k: Seq<char>|
                #[trigger] out@.contains_key(k) ==> canon_panegrid_ok(out@[k], colors@, src@[k]),
    {
        let name = src.key_at(i);
        let entry = src.val_at(i);
        proof {
            src.lemma_entry(i as int);
        }
        let ghost c0 = colors@;
        let s0 = canon_panegrid_state(colors, &entry.state[0]);
        let ghost c1 = colors@;
        let s1 = canon_panegrid_state(colors, &entry.state[1]);
        proof {
            lemma_extends_trans(c0, c1, colors@);
            lemma_names_mono(c0, colors@, Map::empty(), Map::empty());
            lemma_names_mono(c1, colors@, Map::empty(), Map::empty());
            lemma_extends_trans(old(colors)@, c0, colors@);
        }
        let p = serial::PaneGrid {
            picked: serial::PaneGridComponent::Defined(s0),
            hovered: serial::PaneGridComponent::Defined(s1),
        };
        out.insert(name.clone(), p);
    }
    proof {
        assert forall|k: Seq<char>| src@.contains_key(k) implies out@.contains_key(k) by {
            src.lemma_dom(k);
            let j = choose|j: int| 0 <= j < src.key_seq().len() && src.key_seq()[j] == k;
            assert(out@.contains_key(src.key_seq()[j]));
        }
        assert(out@.dom() =~= src@.dom());
    }
    out
}

/// Interns a whole resolved pick list table.
fn canon_picklists(
    colors: &mut Table<Color>,
    borders: &mut Table<serial::Border>,
    src: &Table<Picklist>,
) -> (out: Table<serial::Picklist>)
    requires
        src.wf(),
        color_table_canonical(*old(colors)),
        border_table_canonical(*old(borders)),
        borders_wrt(old(borders)@, old(colors)@),
    ensures
        color_table_canonical(*final(colors)),
        border_table_canonical(*final(borders)),
        borders_wrt(final(borders)@, final(colors)@),
        extends(old(colors)@, final(colors)@),
        extends(old(borders)@, final(borders)@),
        out.wf(),
        out@.dom() =~= src@.dom(),
        forall|k: Seq<char>|
            #[trigger] out@.contains_key(k) ==> canon_picklist_ok(
                out@[k],
                final(colors)@,
                final(borders)@,
                src@[k],
            ),
{
    let n = src.len();
    let mut out: Table<serial::Picklist> = Table::new();
    for i in 0..n
        invariant
            src.wf(),
            out.wf(),
            n == src.spec_len(),
            color_table_canonical(*colors),
            border_table_canonical(*borders),
            borders_wrt(borders@, colors@),
            extends(old(colors)@, colors@),
            extends(old(borders)@, borders@),
            forall|k: Seq<char>| #[trigger] out@.contains_key(k) ==> src@.contains_key(k),
            forall|j: int| 0 <= j < i ==> out@.contains_key(src.key_seq()[j]),
            forall|k: Seq<char>|
                #[trigger] out@.contains_key(k) ==> canon_picklist_ok(
                    out@[k],
                    colors@,
                    borders@,
                    src@[k],
                ),
    {
        let name = src.key_at(i);
        let entry = src.val_at(i);
        proof {
            src.lemma_entry(i as int);
        }
        let ghost c0 = colors@;
        let ghost b0 = borders@;
        let s0 = canon_picklist_state(colors, borders, &entry.state[0]);
        let ghost c1 = colors@;
        let ghost b1 = borders@;
        let s1 = canon_picklist_state(colors, borders, &entry.state[1]);
        let ghost c2 = colors@;
        let ghost b2 = borders@;
        let m = canon_picklist_menu(colors, borders, &entry.menu);
        proof {
            lemma_extends_trans(c0, c1, c2);
            lemma_extends_trans(c0, c2, colors@);
            lemma_extends_trans(c1, c2, colors@);
            lemma_extends_trans(b0, b1, b2);
            lemma_extends_trans(b0, b2, borders@);
            lemma_extends_trans(b1, b2, borders@);
            lemma_names_mono(c0, colors@, b0, borders@);
            lemma_names_mono(c1, colors@, b1, borders@);
            lemma_names_mono(c2, colors@, b2, borders@);
            lemma_extends_trans(old(colors)@, c0, colors@);
            lemma_extends_trans(old(borders)@, b0, borders@);
        }
        let p = serial::Picklist {
            active: serial::PicklistStateComponent::Defined(s0),
            hovered: serial::PicklistStateComponent::Defined(s1),
            menu: serial::PicklistMenuComponent::Defined(m),
        };
        out.insert(name.clone(), p);
    }
    proof {
        assert forall|k: Seq<char>| src@.contains_key(k) implies out@.contains_key(k) by {
            src.lemma_dom(k);
            let j = choose|j: int| 0 <= j < src.key_seq().len() && src.key_seq()[j] == k;
            assert(out@.contains_key(src.key_seq()[j]));
        }
        assert(out@.dom() =~= src@.dom());
    }
    out
}

/// Interns a whole resolved scrollable table.
fn canon_scrollables(
    colors: &mut Table<Color>,
    borders: &mut Table<serial::Border>,
    src: &Table<Scrollable>,
) -> (out: Table<serial::Scrollable>)
    requires
        src.wf(),
        color_table_canonical(*old(colors)),
        border_table_canonical(*old(borders)),
        borders_wrt(old(borders)@, old(colors)@),
    ensures
        color_table_canonical(*final(colors)),
        border_table_canonical(*final(borders)),
        borders_wrt(final(borders)@, final(colors)@),
        extends(old(colors)@, final(colors)@),
        extends(old(borders)@, final(borders)@),
        out.wf(),
        out@.dom() =~= src@.dom(),
        forall|k: Seq<char>|
            #[trigger] out@.contains_key(k) ==> canon_scrollable_ok(
                out@[k],
                final(colors)@,
                final(borders)@,
                src@[k],
            ),
{
    let n = src.len();
    let mut out: Table<serial::Scrollable> = Table::new();
    for i in 0..n
        invariant
            src.wf(),
            out.wf(),
            n == src.spec_len(),
            color_table_canonical(*colors),
            border_table_canonical(*borders),
            borders_wrt(borders@, colors@),
            extends(old(colors)@, colors@),
            extends(old(borders)@, borders@),
            forall|k: Seq<char>| #[trigger] out@.contains_key(k) ==> src@.contains_key(k),
            forall|j: int| 0 <= j < i ==> out@.contains_key(src.key_seq()[j]),
            forall|k: Seq<char>|
                #[trigger] out@.contains_key(k) ==> canon_scrollable_ok(
                    out@[k],
                    colors@,
                    borders@,
                    src@[k],
                ),
    {
        let name = src.key_at(i);
        let entry = src.val_at(i);
        proof {
            src.lemma_entry(i as int);
        }
        let ghost c0 = colors@;
        let ghost b0 = borders@;
        let s0 = canon_scrollable_state(colors, borders, &entry.state[0]);
        let ghost c1 = colors@;
        let ghost b1 = borders@;
        let s1 = canon_scrollable_state(colors, borders, &entry.state[1]);
        let ghost c2 = colors@;
        let ghost b2 = borders@;
        let s2 = canon_scrollable_state(colors, borders, &entry.state[2]);
        proof {
            lemma_extends_trans(c0, c1, c2);
            lemma_extends_trans(c0, c2, colors@);
            lemma_extends_trans(c1, c2, colors@);
            lemma_extends_trans(b0, b1, b2);
            lemma_extends_trans(b0, b2, borders@);
            lemma_extends_trans(b1, b2, borders@);
            lemma_names_mono(c0, colors@, b0, borders@);
            lemma_names_mono(c1, colors@, b1, borders@);
            lemma_names_mono(c2, colors@, b2, borders@);
            lemma_extends_trans(old(colors)@, c0, colors@);
            lemma_extends_trans(old(borders)@, b0, borders@);
        }
        let s = serial::Scrollable {
            active: serial::ScrollableComponent::Defined(s0),
            hovered: serial::ScrollableComponent::Defined(s1),
            dragging: serial::ScrollableComponent::Defined(s2),
        };
        out.insert(name.clone(), s);
    }
    proof {
        assert forall|k: Seq<char>| src@.contains_key(k) implies out@.contains_key(k) by {
            src.lemma_dom(k);
            let j = choose|j: int| 0 <= j < src.key_seq().len() && src.key_seq()[j] == k;
            assert(out@.contains_key(src.key_seq()[j]));
        }
        assert(out@.dom() =~= src@.dom());
    }
    out
}

/// Interns a whole resolved text input table.
fn canon_textinputs(
    colors: &mut Table<Color>,
    borders: &mut Table<serial::Border>,
    src: &Table<TextInput>,
) -> (out: Table<serial::TextInput>)
    requires
        src.wf(),
        color_table_canonical(*old(colors)),
        border_table_canonical(*old(borders)),
        borders_wrt(old(borders)@, old(colors)@),
    ensures
        color_table_canonical(*final(colors)),
        border_table_canonical(*final(borders)),
        borders_wrt(final(borders)@, final(colors)@),
        extends(old(colors)@, final(colors)@),
        extends(old(borders)@, final(borders)@),
        out.wf(),
        out@.dom() =~= src@.dom(),
        forall|k: Seq<char>|
            #[trigger] out@.contains_key(k) ==> canon_textinput_ok(
                out@[k],
                final(colors)@,
                final(borders)@,
                src@[k],
            ),
{
    let n = src.len();
    let mut out: Table<serial::TextInput> = Table::new();
    for i in 0..n
        invariant
            src.wf(),
            out.wf(),
            n == src.spec_len(),
            color_table_canonical(*colors),
            border_table_canonical(*borders),
            borders_wrt(borders@, colors@),
            extends(old(colors)@, colors@),
            extends(old(borders)@, borders@),
            forall|k: Seq<char>| #[trigger] out@.contains_key(k) ==> src@.contains_key(k),
            forall|j: int| 0 <= j < i ==> out@.contains_key(src.key_seq()[j]),
            forall|k: Seq<char>|
                #[trigger] out@.contains_key(k) ==> canon_textinput_ok(
                    out@[k],
                    colors@,
                    borders@,
                    src@[k],
                ),
    {
        let name = src.key_at(i);
        let entry = src.val_at(i);
        proof {
            src.lemma_entry(i as int);
        }
        let ghost c0 = colors@;
        let ghost b0 = borders@;
        let s0 = canon_textinput_state(colors, borders, &entry.state[0]);
        let ghost c1 = colors@;
        let ghost b1 = borders@;
        let s1 = canon_textinput_state(colors, borders, &entry.state[1]);
        let ghost c2 = colors@;
        let ghost b2 = borders@;
        let s2 = canon_textinput_state(colors, borders, &entry.state[2]);
        let ghost c3 = colors@;
        let ghost b3 = borders@;
        let placeholder = get_color_name(colors, &entry.colors[0]);
        proof {
            lemma_wrt_mono(borders@, c3, colors@);
        }
        let ghost c4 = colors@;
        let value = get_color_name(colors, &entry.colors[1]);
        proof {
            lemma_wrt_mono(borders@, c4, colors@);
        }
        let ghost c5 = colors@;
        let selection = get_color_name(colors, &entry.colors[2]);
        proof {
            lemma_wrt_mono(borders@, c5, colors@);
            lemma_extends_trans(c0, c1, c2);
            lemma_extends_trans(c0, c2, c3);
            lemma_extends_trans(c0, c3, c4);
            lemma_extends_trans(c0, c4, c5);
            lemma_extends_trans(c0, c5, colors@);
            lemma_extends_trans(c1, c2, c3);
            lemma_extends_trans(c1, c3, c4);
            lemma_extends_trans(c1, c4, c5);
            lemma_extends_trans(c1, c5, colors@);
            lemma_extends_trans(c2, c3, c4);
            lemma_extends_trans(c2, c4, c5);
            lemma_extends_trans(c2, c5, colors@);
            lemma_extends_trans(c3, c4, c5);
            lemma_extends_trans(c3, c5, colors@);
            lemma_extends_trans(c4, c5, colors@);
            lemma_extends_trans(b0, b1, b2);
            lemma_extends_trans(b0, b2, borders@);
            lemma_extends_trans(b1, b2, borders@);
            lemma_names_mono(c0, colors@, b0, borders@);
            lemma_names_mono(c1, colors@, b1, borders@);
            lemma_names_mono(c2, colors@, b2, borders@);
            lemma_names_mono(c3, colors@, b3, borders@);
            lemma_names_mono(c4, colors@, b3, borders@);
            lemma_names_mono(c5, colors@, b3, borders@);
            lemma_extends_trans(old(colors)@, c0, colors@);
            lemma_extends_trans(old(borders)@, b0, borders@);
        }
        let t = serial::TextInput {
            active: serial::TextInputComponent::Defined(s0),
            hovered: serial::TextInputComponent::Defined(s1),
            focused: serial::TextInputComponent::Defined(s2),
            placeholder,
            value,
            selection,
        };
        out.insert(name.clone(), t);
    }
    proof {
        assert forall|k: Seq<char>| src@.contains_key(k) implies out@.contains_key(k) by {
            src.lemma_dom(k);
            let j = choose|j: int| 0 <= j < src.key_seq().len() && src.key_seq()[j] == k;
            assert(out@.contains_key(src.key_seq()[j]));
        }
        assert(out@.dom() =~= src@.dom());
    }
    out
}

/// Interns a whole resolved container table.
fn canon_containers(
    colors: &mut Table<Color>,
    borders: &mut Table<serial::Border>,
    src: &Table<Container>,
) -> (out: Table<serial::Container>)
    requires
        src.wf(),
        color_table_canonical(*old(colors)),
        border_table_canonical(*old(borders)),
        borders_wrt(old(borders)@, old(colors)@),
    ensures
        color_table_canonical(*final(colors)),
        border_table_canonical(*final(borders)),
        borders_wrt(final(borders)@, final(colors)@),
        extends(old(colors)@, final(colors)@),
        extends(old(borders)@, final(borders)@),
        out.wf(),
        out@.dom() =~= src@.dom(),
        forall|k: Seq<char>|
            #[trigger] out@.contains_key(k) ==> canon_container_ok(
                out@[k],
                final(colors)@,
                final(borders)@,
                src@[k],
            ),
{
    let n = src.len();
    let mut out: Table<serial::Container> = Table::new();
    for i in 0..n
        invariant
            src.wf(),
            out.wf(),
            n == src.spec_len(),
            color_table_canonical(*colors),
            border_table_canonical(*borders),
            borders_wrt(borders@, colors@),
            extends(old(colors)@, colors@),
            extends(old(borders)@, borders@),
            forall|k: Seq<char>| #[trigger] out@.contains_key(k) ==> src@.contains_key(k),
            forall|j: int| 0 <= j < i ==> out@.contains_key(src.key_seq()[j]),
            forall|k: Seq<char>|
                #[trigger] out@.contains_key(k) ==> canon_container_ok(
                    out@[k],
                    colors@,
                    borders@,
                    src@[k],
                ),
    {
        let name = src.key_at(i);
        let entry = src.val_at(i);
        proof {
            src.lemma_entry(i as int);
        }
        let ghost c0 = colors@;
        let ghost b0 = borders@;
        let color = get_color_name(colors, &entry.color);
        proof {
            lemma_wrt_mono(borders@, c0, colors@);
        }
        let ghost c1 = colors@;
        let border = get_border_name(colors, borders, &entry.border);
        proof {
            lemma_extends_trans(c0, c1, colors@);
            lemma_names_mono(c1, colors@, b0, borders@);
            lemma_names_mono(c0, colors@, b0, borders@);
            lemma_extends_trans(old(colors)@, c0, colors@);
            lemma_extends_trans(old(borders)@, b0, borders@);
        }
        let c = serial::Container { color, border };
        out.insert(name.clone(), c);
    }
    proof {
        assert forall|k: Seq<char>| src@.contains_key(k) implies out@.contains_key(k) by {
            src.lemma_dom(k);
            let j = choose|j: int| 0 <= j < src.key_seq().len() && src.key_seq()[j] == k;
            assert(out@.contains_key(src.key_seq()[j]));
        }
        assert(out@.dom() =~= src@.dom());
    }
    out
}

/// Interns a whole resolved tooltip table.
fn canon_tooltips(
    colors: &mut Table<Color>,
    borders: &mut Table<serial::Border>,
    src: &Table<Tooltip>,
) -> (out: Table<serial::Tooltip>)
    requires
        src.wf(),
        color_table_canonical(*old(colors)),
        border_table_canonical(*old(borders)),
        borders_wrt(old(borders)@, old(colors)@),
    ensures
        color_table_canonical(*final(colors)),
        border_table_canonical(*final(borders)),
        borders_wrt(final(borders)@, final(colors)@),
        extends(old(colors)@, final(colors)@),
        extends(old(borders)@, final(borders)@),
        out.wf(),
        out@.dom() =~= src@.dom(),
        forall|k: Seq<char>|
            #[trigger] out@.contains_key(k) ==> canon_tooltip_ok(
                out@[k],
                final(colors)@,
                final(borders)@,
                src@[k],
            ),
{
    let n = src.len();
    let mut out: Table<serial::Tooltip> = Table::new();
    for i in 0..n
        invariant
            src.wf(),
            out.wf(),
            n == src.spec_len(),
            color_table_canonical(*colors),
            border_table_canonical(*borders),
            borders_wrt(borders@, colors@),
            extends(old(colors)@, colors@),
            extends(old(borders)@, borders@),
            forall|k: Seq<char>| #[trigger] out@.contains_key(k) ==> src@.contains_key(k),
            forall|j: int| 0 <= j < i ==> out@.contains_key(src.key_seq()[j]),
            forall|k: Seq<char>|
                #[trigger] out@.contains_key(k) ==> canon_tooltip_ok(
                    out@[k],
                    colors@,
                    borders@,
                    src@[k],
                ),
    {
        let name = src.key_at(i);
        let entry = src.val_at(i);
        proof {
            src.lemma_entry(i as int);
        }
        let ghost c0 = colors@;
        let ghost b0 = borders@;
        let background = get_color_name(colors, &entry.background);
        proof {
            lemma_wrt_mono(borders@, c0, colors@);
        }
        let ghost c1 = colors@;
        let text = get_color_name(colors, &entry.text);
        proof {
            lemma_wrt_mono(borders@, c1, colors@);
        }
        let ghost c2 = colors@;
        let border = get_border_name(colors, borders, &entry.border);
        proof {
            lemma_extends_trans(c0, c1, c2);
            lemma_extends_trans(c0, c2, colors@);
            lemma_extends_trans(c1, c2, colors@);
            lemma_names_mono(c0, colors@, b0, borders@);
            lemma_names_mono(c1, colors@, b0, borders@);
            lemma_names_mono(c2, colors@, b0, borders@);
            lemma_extends_trans(old(colors)@, c0, colors@);
            lemma_extends_trans(old(borders)@, b0, borders@);
        }
        let t = serial::Tooltip { background, text, border };
        out.insert(name.clone(), t);
    }
    proof {
        assert forall|k: Seq<char>| src@.contains_key(k) implies out@.contains_key(k) by {
            src.lemma_dom(k);
            let j = choose|j: int| 0 <= j < src.key_seq().len() && src.key_seq()[j] == k;
            assert(out@.contains_key(src.key_seq()[j]));
        }
        assert(out@.dom() =~= src@.dom());
    }
    out
}

/// Interns a whole resolved progress bar table.
fn canon_progressbars(colors: &mut Table<Color>, src: &Table<ProgressBar>) -> (out: Table<
    serial::ProgressBar,
>)
    requires
        src.wf(),
        color_table_canonical(*old(colors)),
    ensures
        color_table_canonical(*final(colors)),
        extends(old(colors)@, final(colors)@),
        out.wf(),
        out@.dom() =~= src@.dom(),
        forall|k: Seq<char>|
            #[trigger] out@.contains_key(k) ==> canon_progressbar_ok(
                out@[k],
                final(colors)@,
                src@[k],
            ),
{
    let n = src.len();
    let mut out: Table<serial::ProgressBar> = Table::new();
    for i in 0..n
        invariant
            src.wf(),
            out.wf(),
            n == src.spec_len(),
            color_table_canonical(*colors),
            extends(old(colors)@, colors@),
            forall|k: Seq<char>| #[trigger] out@.contains_key(k) ==> src@.contains_key(k),
            forall|j: int| 0 <= j < i ==> out@.contains_key(src.key_seq()[j]),
            forall|k: Seq<char>|
                #[trigger] out@.contains_key(k) ==> canon_progressbar_ok(out@[k], colors@, src@[k]),
    {
        let name = src.key_at(i);
        let entry = src.val_at(i);
        proof {
            src.lemma_entry(i as int);
        }
        let ghost c0 = colors@;
        let background = get_color_name(colors, &entry.background);
        let ghost c1 = colors@;
        let bar = get_color_name(colors, &entry.bar);
        proof {
            lemma_extends_trans(c0, c1, colors@);
            lemma_names_mono(c0, colors@, Map::empty(), Map::empty());
            lemma_names_mono(c1, colors@, Map::empty(), Map::empty());
            lemma_extends_trans(old(colors)@, c0, colors@);
        }
        let p = serial::ProgressBar { background, bar, radius: entry.radius };
        out.insert(name.clone(), p);
    }
    proof {
        assert forall|k: Seq<char>| src@.contains_key(k) implies out@.contains_key(k) by {
            src.lemma_dom(k);
            let j = choose|j: int| 0 <= j < src.key_seq().len() && src.key_seq()[j] == k;
            assert(out@.contains_key(src.key_seq()[j]));
        }
        assert(out@.dom() =~= src@.dom());
    }
    out
}

/// How a canonicalized declarative theme relates to the resolved theme
/// it was derived from: canonical, deduplicated value tables, and every
/// style entry re-expressed with literal slots whose names denote the
/// original's concrete values.
pub open spec fn canon_ok(t: Theme, r: serial::Theme) -> bool {
    &&& r.wf()
    &&& r.name@ == t.name@
    &&& r.description@ == t.description@
    &&& color_table_canonical(r.color)
    &&& border_table_canonical(r.border)
    &&& borders_wrt(r.border@, r.color@)
    &&& canon_application_ok(r.application, r.color@, t.application)
    &&& r.button@.dom() =~= t.button@.dom()
    &&& forall|k: Seq<char>|
        #[trigger] r.button@.contains_key(k) ==> canon_button_ok(
            r.button@[k],
            r.color@,
            r.border@,
            t.button@[k],
        )
    &&& r.container@.dom() =~= t.container@.dom()
    &&& forall|k: Seq<char>|
        #[trigger] r.container@.contains_key(k) ==> canon_container_ok(
            r.container@[k],
            r.color@,
            r.border@,
            t.container@[k],
        )
    &&& r.panegrid@.dom() =~= t.panegrid@.dom()
    &&& forall|k: Seq<char>|
        #[trigger] r.panegrid@.contains_key(k) ==> canon_panegrid_ok(
            r.panegrid@[k],
            r.color@,
            t.panegrid@[k],
        )
    &&& r.picklist@.dom() =~= t.picklist@.dom()
    &&& forall|k: Seq<char>|
        #[trigger] r.picklist@.contains_key(k) ==> canon_picklist_ok(
            r.picklist@[k],
            r.color@,
            r.border@,
            t.picklist@[k],
        )
    &&& r.progressbar@.dom() =~= t.progressbar@.dom()
    &&& forall|k: Seq<char>|
        #[trigger] r.progressbar@.contains_key(k) ==> canon_progressbar_ok(
            r.progressbar@[k],
            r.color@,
            t.progressbar@[k],
        )
    &&& r.scrollable@.dom() =~= t.scrollable@.dom()
    &&& forall|k: Seq<char>|
        #[trigger] r.scrollable@.contains_key(k) ==> canon_scrollable_ok(
            r.scrollable@[k],
            r.color@,
            r.border@,
            t.scrollable@[k],
        )
    &&& r.textinput@.dom() =~= t.textinput@.dom()
    &&& forall|k: Seq<char>|
        #[trigger] r.textinput@.contains_key(k) ==> canon_textinput_ok(
            r.textinput@[k],
            r.color@,
            r.border@,
            t.textinput@[k],
        )
    &&& r.tooltip@.dom() =~= t.tooltip@.dom()
    &&& forall|k: Seq<char>|
        #[trigger] r.tooltip@.contains_key(k) ==> canon_tooltip_ok(
            r.tooltip@[k],
            r.color@,
            r.border@,
            t.tooltip@[k],
        )
}

impl Theme {
    /// Collapses a resolved theme back into a minimal declarative theme.
    ///
    /// Every concrete color and border in use is interned into fresh
    /// value tables with name reuse by value: identical values collapse
    /// to a single synthetic name (`color_<n>`, `border_<n>`) across the
    /// whole theme.  Every composite entry is re-expressed with literal
    /// slots, one per state.  The output always resolves, and resolving
    /// it reproduces the values of this theme, entry by entry and slot by
    /// slot.
    pub fn canonicalize(&self) -> (r: serial::Theme)
        requires
            self.wf(),
        ensures
            r.wf(),
            canon_ok(*self, r),
            theme_resolvable(r),
    {
        let mut colors: Table<Color> = Table::new();
        let mut borders: Table<serial::Border> = Table::new();
        let ghost c0 = colors@;
        let ghost b0 = borders@;
        let background_color = get_color_name(&mut colors, &self.application.background_color);
        let ghost c0x = colors@;
        let text_color = get_color_name(&mut colors, &self.application.text_color);
        let application = serial::Application { background_color, text_color };
        proof {
            lemma_names_mono(c0x, colors@, b0, borders@);
        }
        let ghost c1 = colors@;
        let ghost b1 = borders@;
        let button = canon_buttons(&mut colors, &mut borders, &self.button);
        let ghost c2 = colors@;
        let ghost b2 = borders@;
        let container = canon_containers(&mut colors, &mut borders, &self.container);
        let ghost c3 = colors@;
        let ghost b3 = borders@;
        let panegrid = canon_panegrids(&mut colors, &self.panegrid);
        proof {
            lemma_wrt_mono(borders@, c3, colors@);
        }
        let ghost c4 = colors@;
        let ghost b4 = borders@;
        let picklist = canon_picklists(&mut colors, &mut borders, &self.picklist);
        let ghost c5 = colors@;
        let ghost b5 = borders@;
        let progressbar = canon_progressbars(&mut colors, &self.progressbar);
        proof {
            lemma_wrt_mono(borders@, c5, colors@);
        }
        let ghost c6 = colors@;
        let ghost b6 = borders@;
        let scrollable = canon_scrollables(&mut colors, &mut borders, &self.scrollable);
        let ghost c7 = colors@;
        let ghost b7 = borders@;
        let textinput = canon_textinputs(&mut colors, &mut borders, &self.textinput);
        let ghost c8 = colors@;
        let ghost b8 = borders@;
        let tooltip = canon_tooltips(&mut colors, &mut borders, &self.tooltip);
        proof {
            lemma_extends_trans(c7, c8, colors@);
            lemma_extends_trans(c6, c7, colors@);
            lemma_extends_trans(c5, c6, colors@);
            lemma_extends_trans(c4, c5, colors@);
            lemma_extends_trans(c3, c4, colors@);
            lemma_extends_trans(c2, c3, colors@);
            lemma_extends_trans(c1, c2, colors@);
            lemma_extends_trans(b7, b8, borders@);
            lemma_extends_trans(b6, b7, borders@);
            lemma_extends_trans(b5, b6, borders@);
            lemma_extends_trans(b4, b5, borders@);
            lemma_extends_trans(b3, b4, borders@);
            lemma_extends_trans(b2, b3, borders@);
            lemma_extends_trans(b1, b2, borders@);
            lemma_names_mono(c1, colors@, b1, borders@);
            lemma_names_mono(c2, colors@, b2, borders@);
            lemma_names_mono(c3, colors@, b3, borders@);
            lemma_names_mono(c4, colors@, b4, borders@);
            lemma_names_mono(c5, colors@, b5, borders@);
            lemma_names_mono(c6, colors@, b6, borders@);
            lemma_names_mono(c7, colors@, b7, borders@);
            lemma_names_mono(c8, colors@, b8, borders@);
        }
        let r = serial::Theme {
            name: self.name.clone(),
            description: self.description.clone(),
            application,
            border: borders,
            button,
            color: colors,
            container,
            panegrid,
            picklist,
            progressbar,
            scrollable,
            textinput,
            tooltip,
        };
        proof {
            lemma_canon_resolvable(*self, r);
        }
        r
    }
}

/// A canonicalized theme always resolves: every reference it writes
/// names an entry of its own tables, and every composite entry is fully
/// literal, so the first resolution pass resolves it.
proof fn lemma_canon_resolvable(t: Theme, r: serial::Theme)
    requires
        canon_ok(t, r),
    ensures
        theme_resolvable(r),
{
    let cm = r.color@;
    let bm = borders_of(r);
    assert forall|n: Seq<char>| r.button@.dom().contains(n) implies resolvable(
        button_ready_fn(r.button@, cm, bm),
        r.button@.dom(),
        n,
    ) by {
        let ready = button_ready_fn(r.button@, cm, bm);
        let dom = r.button@.dom();
        assert(canon_button_ok(r.button@[n], cm, r.border@, t.button@[n]));
        assert(ready(reach(ready, dom, 0), n));
        assert(reach(ready, dom, 1).contains(n));
    }
    assert(buttons_resolvable(r.button@, cm, bm));
    assert forall|n: Seq<char>| r.panegrid@.dom().contains(n) implies resolvable(
        panegrid_ready_fn(r.panegrid@, cm),
        r.panegrid@.dom(),
        n,
    ) by {
        let ready = panegrid_ready_fn(r.panegrid@, cm);
        let dom = r.panegrid@.dom();
        assert(canon_panegrid_ok(r.panegrid@[n], cm, t.panegrid@[n]));
        assert(ready(reach(ready, dom, 0), n));
        assert(reach(ready, dom, 1).contains(n));
    }
    assert(panegrids_resolvable(r.panegrid@, cm));
    assert forall|n: Seq<char>| r.picklist@.dom().contains(n) implies resolvable(
        picklist_ready_fn(r.picklist@, cm, bm),
        r.picklist@.dom(),
        n,
    ) by {
        let ready = picklist_ready_fn(r.picklist@, cm, bm);
        let dom = r.picklist@.dom();
        assert(canon_picklist_ok(r.picklist@[n], cm, r.border@, t.picklist@[n]));
        assert(ready(reach(ready, dom, 0), n));
        assert(reach(ready, dom, 1).contains(n));
    }
    assert(picklists_resolvable(r.picklist@, cm, bm));
    assert forall|n: Seq<char>| r.scrollable@.dom().contains(n) implies resolvable(
        scrollable_ready_fn(r.scrollable@, cm, bm),
        r.scrollable@.dom(),
        n,
    ) by {
        let ready = scrollable_ready_fn(r.scrollable@, cm, bm);
        let dom = r.scrollable@.dom();
        assert(canon_scrollable_ok(r.scrollable@[n], cm, r.border@, t.scrollable@[n]));
        assert(ready(reach(ready, dom, 0), n));
        assert(reach(ready, dom, 1).contains(n));
    }
    assert(scrollables_resolvable(r.scrollable@, cm, bm));
    assert forall|n: Seq<char>| r.textinput@.dom().contains(n) implies resolvable(
        textinput_ready_fn(r.textinput@, cm, bm),
        r.textinput@.dom(),
        n,
    ) by {
        let ready = textinput_ready_fn(r.textinput@, cm, bm);
        let dom = r.textinput@.dom();
        assert(canon_textinput_ok(r.textinput@[n], cm, r.border@, t.textinput@[n]));
        assert(ready(reach(ready, dom, 0), n));
        assert(reach(ready, dom, 1).contains(n));
    }
    assert(textinputs_resolvable(r.textinput@, cm, bm));
    assert(containers_resolvable(r.container@, cm, bm));
    assert(tooltips_resolvable(r.tooltip@, cm, bm));
    assert(progressbars_resolvable(r.progressbar@, cm));
}

} // verus!
