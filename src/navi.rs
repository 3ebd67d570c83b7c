//! The navigation panel beside an item's outline: which actions an item
//! offers, their labels, and the panel's size.
use crate::line::LineState;
use vstd::prelude::*;

verus! {

/// An action offered in the navigation panel.
#[derive(Clone, Copy, Debug, PartialEq, Eq, Structural)]
pub enum NaviAction {
    StructInner,
    EnumInner,
    TraitInner,
    ITABImpls,
    Item,
    BackToHome,
}

impl Default for NaviAction {
    fn default() -> (r: NaviAction)
        ensures
            r == NaviAction::BackToHome,
    {
        NaviAction::BackToHome
    }
}

/// The label of an action.
pub open spec fn navi_text(a: NaviAction) -> Seq<char> {
    match a {
        NaviAction::StructInner => "Fields"@,
        NaviAction::EnumInner => "Varaints"@,
        NaviAction::TraitInner => "Implementors"@,
        NaviAction::ITABImpls => "Impls"@,
        NaviAction::Item => "Current Item"@,
        NaviAction::BackToHome => "Back To Home"@,
    }
}

impl NaviAction {
    pub fn text(self) -> (r: &'static str)
        ensures
            r@ == navi_text(self),
    {
        match self {
            NaviAction::StructInner => "Fields",
            NaviAction::EnumInner => "Varaints",
            NaviAction::TraitInner => "Implementors",
            NaviAction::ITABImpls => "Impls",
            NaviAction::Item => "Current Item",
            NaviAction::BackToHome => "Back To Home",
        }
    }

    /// The width of the label, in characters.
    pub fn len(self) -> (r: u16)
        ensures
            r == navi_text(self).len(),
            r <= 12,
    {
        proof {
            reveal_strlit("Fields");
            reveal_strlit("Varaints");
            reveal_strlit("Implementors");
            reveal_strlit("Impls");
            reveal_strlit("Current Item");
            reveal_strlit("Back To Home");
        }
        match self {
            NaviAction::StructInner => 6,
            NaviAction::EnumInner => 8,
            NaviAction::TraitInner => 12,
            NaviAction::ITABImpls => 5,
            NaviAction::Item => 12,
            NaviAction::BackToHome => 12,
        }
    }
}

impl LineState for NaviAction {
    type State = NaviAction;

    open spec fn line_state(&self) -> NaviAction {
        *self
    }

    fn state(&self) -> (r: NaviAction) {
        *self
    }

    fn is_identical(&self, state: &NaviAction) -> (r: bool) {
        *self == *state
    }
}

/// The kinds of items whose inner parts the panel can show.
#[derive(Clone, Copy, Debug, PartialEq, Eq, Structural)]
pub enum Kind {
    Struct,
    Enum,
    Trait,
    Union,
}

/// The actions that an item of a kind offers, in panel order.
pub open spec fn kind_lines(k: Kind) -> Seq<NaviAction> {
    match k {
        Kind::Struct | Kind::Union => seq![
            NaviAction::Item,
            NaviAction::StructInner,
            NaviAction::ITABImpls,
            NaviAction::BackToHome,
        ],
        Kind::Enum => seq![
            NaviAction::Item,
            NaviAction::EnumInner,
            NaviAction::ITABImpls,
            NaviAction::BackToHome,
        ],
        Kind::Trait => seq![NaviAction::Item, NaviAction::TraitInner, NaviAction::BackToHome],
    }
}

impl Kind {
    pub fn lines(self) -> (r: Vec<NaviAction>)
        ensures
            r@ == kind_lines(self),
    {
        let r = match self {
            Kind::Struct | Kind::Union => vec![
                NaviAction::Item,
                NaviAction::StructInner,
                NaviAction::ITABImpls,
                NaviAction::BackToHome,
            ],
            Kind::Enum => vec![
                NaviAction::Item,
                NaviAction::EnumInner,
                NaviAction::ITABImpls,
                NaviAction::BackToHome,
            ],
            Kind::Trait => vec![NaviAction::Item, NaviAction::TraitInner, NaviAction::BackToHome],
        };
        assert(r@ =~= kind_lines(self));
        r
    }
}

/// The larger of two integers.
pub open spec fn max_of(a: int, b: int) -> int {
    if a < b {
        b
    } else {
        a
    }
}

/// The widest label among `s`, 0 when `s` is empty.
pub open spec fn widest(s: Seq<NaviAction>) -> int
    decreases s.len(),
{
    if s.len() == 0 {
        0
    } else {
        max_of(widest(s.drop_last()), navi_text(s.last()).len() as int)
    }
}

fn widest_label(v: &Vec<NaviAction>) -> (r: u16)
    ensures
        r == widest(v@),
        r <= 12,
{
    let mut m: u16 = 0;
    let mut i: usize = 0;
    assert(v@.take(0) =~= Seq::<NaviAction>::empty());
    while i < v.len()
        invariant
            i <= v@.len(),
            m == widest(v@.take(i as int)),
            m <= 12,
        decreases v@.len() - i,
    {
        assert(v@.take(i + 1).drop_last() =~= v@.take(i as int));
        let w = v[i].len();
        if w > m {
            m = w;
        }
        i = i + 1;
    }
    assert(v@.take(v@.len() as int) =~= v@);
    m
}

/// The panel's height: the longest list of actions, and a border line.
pub fn height() -> (r: u16)
    ensures
        r == max_of(
            max_of(kind_lines(Kind::Struct).len() as int, kind_lines(Kind::Enum).len() as int),
            kind_lines(Kind::Trait).len() as int,
        ) + 1,
{
    let a = Kind::Struct.lines().len();
    let b = Kind::Enum.lines().len();
    let c = Kind::Trait.lines().len();
    let mut m = if a < b {
        b
    } else {
        a
    };
    if m < c {
        m = c;
    }
    m as u16 + 1
}

/// The panel's width: the widest label of any action, and five columns
/// for the marker and the borders.
pub fn width() -> (r: u16)
    ensures
        r == max_of(
            max_of(widest(kind_lines(Kind::Struct)), widest(kind_lines(Kind::Enum))),
            widest(kind_lines(Kind::Trait)),
        ) + 5,
{
    let a = widest_label(&Kind::Struct.lines());
    let b = widest_label(&Kind::Enum.lines());
    let c = widest_label(&Kind::Trait.lines());
    let mut m = if a < b {
        b
    } else {
        a
    };
    if m < c {
        m = c;
    }
    m + 5
}

/// What the outline shows: the module tree, or an item's inner parts.
#[derive(Clone, Copy, Debug, PartialEq, Eq, Structural)]
pub enum OutlineKind {
    Modules,
    InnerItem,
}

impl Default for OutlineKind {
    fn default() -> (r: OutlineKind)
        ensures
            r == OutlineKind::Modules,
    {
        OutlineKind::Modules
    }
}

} // verus!
