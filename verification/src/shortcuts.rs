//! Keyboard shortcuts.
//!
//! One table is behind both the handler and the help window, so that no shortcut
//! can be listed and not work, or work and not be listed.

use vstd::prelude::*;

verus! {

/// A key that a shortcut may use.
#[derive(Clone, Copy, PartialEq, Eq, Debug, Structural)]
pub enum Key {
    Num1,
    Num2,
    Num3,
    Num4,
    Num5,
    ArrowUp,
    ArrowDown,
    Slash,
    A,
    Questionmark,
    R,
    Space,
    OpenBracket,
    CloseBracket,
    C,
    Z,
    X,
    V,
    F,
    B,
    S,
    M,
    L,
    T,
    Q,
    P,
    Enter,
    Backspace,
}

/// The modifier keys that are down.
#[derive(Clone, Copy, PartialEq, Eq, Debug, Structural)]
pub struct Modifiers {
    pub alt: bool,
    pub ctrl: bool,
    pub shift: bool,
    /// The command key of a Mac.
    pub mac_cmd: bool,
    /// The command key of a Mac, or control elsewhere.
    pub command: bool,
}

#[derive(Clone, Copy, PartialEq, Eq, Debug, Structural)]
pub enum Act {
    ViewChart,
    ViewDerivatives,
    ViewPortfolio,
    ViewLog,
    ViewRaw,
    PrevInstrument,
    NextInstrument,
    FocusSearch,
    FocusAdd,
    Help,
    Refresh,
    RefreshQuotes,
    TogglePause,
    PrevTimeframe,
    NextTimeframe,
    ToggleCandles,
    Sma20,
    Sma50,
    Sma200,
    ResetZoom,
    SideBuy,
    SideSell,
    TypeMarket,
    TypeLimit,
    TypeStop,
    ToggleSizeMode,
    CyclePrice,
    Preview,
    CancelOrder,
    ArmTrail,
}

#[derive(Clone, Copy, Debug)]
pub struct Binding {
    pub act: Act,
    pub key: Key,
    pub mods: Modifiers,
    /// How the chord is written in the help window.
    pub shown: &'static str,
    pub label: &'static str,
    pub group: &'static str,
}

pub const NAV: &'static str = "Navigation";

pub const DATA: &'static str = "Data";

pub const CHART: &'static str = "Chart";

pub const TICKET: &'static str = "Ticket";

pub const ORDERS: &'static str = "Positions and orders";

/// No modifier, shift alone, or the command key alone.
pub open spec fn plain() -> Modifiers {
    Modifiers { alt: false, ctrl: false, shift: false, mac_cmd: false, command: false }
}

pub open spec fn shift() -> Modifiers {
    Modifiers { shift: true, ..plain() }
}

pub open spec fn command() -> Modifiers {
    Modifiers { command: true, ..plain() }
}

/// What a binding is.
pub struct BindingView {
    pub act: Act,
    pub key: Key,
    pub mods: Modifiers,
    pub shown: Seq<char>,
    pub label: Seq<char>,
    pub group: Seq<char>,
}

impl Binding {
    pub open spec fn view(self) -> BindingView {
        BindingView {
            act: self.act,
            key: self.key,
            mods: self.mods,
            shown: self.shown@,
            label: self.label@,
            group: self.group@,
        }
    }
}

/// The chord of an action.
pub open spec fn chord(a: Act) -> (Key, Modifiers) {
    match a {
        Act::ViewChart => (Key::Num1, plain()),
        Act::ViewDerivatives => (Key::Num2, plain()),
        Act::ViewPortfolio => (Key::Num3, plain()),
        Act::ViewLog => (Key::Num4, plain()),
        Act::ViewRaw => (Key::Num5, plain()),
        Act::PrevInstrument => (Key::ArrowUp, plain()),
        Act::NextInstrument => (Key::ArrowDown, plain()),
        Act::FocusSearch => (Key::Slash, plain()),
        Act::FocusAdd => (Key::A, plain()),
        Act::Help => (Key::Questionmark, shift()),
        Act::Refresh => (Key::R, plain()),
        Act::RefreshQuotes => (Key::R, shift()),
        Act::TogglePause => (Key::Space, plain()),
        Act::PrevTimeframe => (Key::OpenBracket, plain()),
        Act::NextTimeframe => (Key::CloseBracket, plain()),
        Act::ToggleCandles => (Key::C, plain()),
        Act::Sma20 => (Key::Z, plain()),
        Act::Sma50 => (Key::X, plain()),
        Act::Sma200 => (Key::V, plain()),
        Act::ResetZoom => (Key::F, plain()),
        Act::SideBuy => (Key::B, plain()),
        Act::SideSell => (Key::S, plain()),
        Act::TypeMarket => (Key::M, plain()),
        Act::TypeLimit => (Key::L, plain()),
        Act::TypeStop => (Key::T, plain()),
        Act::ToggleSizeMode => (Key::Q, plain()),
        Act::CyclePrice => (Key::P, plain()),
        Act::Preview => (Key::Enter, plain()),
        Act::CancelOrder => (Key::Backspace, command()),
        Act::ArmTrail => (Key::T, shift()),
    }
}

/// How the chord of an action is written, what it does, and the group that the
/// help window lists it in.
pub open spec fn caption(a: Act) -> (Seq<char>, Seq<char>, Seq<char>) {
    match a {
        Act::ViewChart => ("1"@, "Chart"@, NAV@),
        Act::ViewDerivatives => ("2"@, "Derivatives"@, NAV@),
        Act::ViewPortfolio => ("3"@, "Portfolio"@, NAV@),
        Act::ViewLog => ("4"@, "Log"@, NAV@),
        Act::ViewRaw => ("5"@, "Raw"@, NAV@),
        Act::PrevInstrument => ("Up"@, "Previous instrument"@, NAV@),
        Act::NextInstrument => ("Down"@, "Next instrument"@, NAV@),
        Act::FocusSearch => ("/"@, "Focus the search field"@, NAV@),
        Act::FocusAdd => ("A"@, "Focus the add ISIN field"@, NAV@),
        Act::Help => ("?"@, "This window"@, NAV@),
        Act::Refresh => ("R"@, "Refresh everything"@, DATA@),
        Act::RefreshQuotes => ("Shift R"@, "Refresh quotes only"@, DATA@),
        Act::TogglePause => ("Space"@, "Pause or resume polling"@, DATA@),
        Act::PrevTimeframe => ("["@, "Previous timeframe"@, CHART@),
        Act::NextTimeframe => ("]"@, "Next timeframe"@, CHART@),
        Act::ToggleCandles => ("C"@, "Candles or line"@, CHART@),
        Act::Sma20 => ("Z"@, "Toggle SMA 20"@, CHART@),
        Act::Sma50 => ("X"@, "Toggle SMA 50"@, CHART@),
        Act::Sma200 => ("V"@, "Toggle SMA 200"@, CHART@),
        Act::ResetZoom => ("F"@, "Reset zoom"@, CHART@),
        Act::SideBuy => ("B"@, "Side buy"@, TICKET@),
        Act::SideSell => ("S"@, "Side sell"@, TICKET@),
        Act::TypeMarket => ("M"@, "Market order"@, TICKET@),
        Act::TypeLimit => ("L"@, "Limit order"@, TICKET@),
        Act::TypeStop => ("T"@, "Stop order"@, TICKET@),
        Act::ToggleSizeMode => ("Q"@, "Size by shares or amount"@, TICKET@),
        Act::CyclePrice => ("P"@, "Limit price: bid, mid, ask"@, TICKET@),
        Act::Preview => ("Enter"@, "Preview, places nothing"@, TICKET@),
        Act::CancelOrder => ("Cmd Backspace"@, "Cancel selected working order"@, ORDERS@),
        Act::ArmTrail => ("Shift T"@, "Arm a trail on the selection"@, ORDERS@),
    }
}

/// The binding of an action.
pub open spec fn binding_of(a: Act) -> BindingView {
    BindingView {
        act: a,
        key: chord(a).0,
        mods: chord(a).1,
        shown: caption(a).0,
        label: caption(a).1,
        group: caption(a).2,
    }
}

/// The actions in the order of the help window.
pub open spec fn acts() -> Seq<Act> {
    seq![
        Act::ViewChart,
        Act::ViewDerivatives,
        Act::ViewPortfolio,
        Act::ViewLog,
        Act::ViewRaw,
        Act::PrevInstrument,
        Act::NextInstrument,
        Act::FocusSearch,
        Act::FocusAdd,
        Act::Help,
        Act::Refresh,
        Act::RefreshQuotes,
        Act::TogglePause,
        Act::PrevTimeframe,
        Act::NextTimeframe,
        Act::ToggleCandles,
        Act::Sma20,
        Act::Sma50,
        Act::Sma200,
        Act::ResetZoom,
        Act::SideBuy,
        Act::SideSell,
        Act::TypeMarket,
        Act::TypeLimit,
        Act::TypeStop,
        Act::ToggleSizeMode,
        Act::CyclePrice,
        Act::Preview,
        Act::CancelOrder,
        Act::ArmTrail,
    ]
}

/// The place of an action in the help window.
pub open spec fn place(a: Act) -> int {
    match a {
        Act::ViewChart => 0,
        Act::ViewDerivatives => 1,
        Act::ViewPortfolio => 2,
        Act::ViewLog => 3,
        Act::ViewRaw => 4,
        Act::PrevInstrument => 5,
        Act::NextInstrument => 6,
        Act::FocusSearch => 7,
        Act::FocusAdd => 8,
        Act::Help => 9,
        Act::Refresh => 10,
        Act::RefreshQuotes => 11,
        Act::TogglePause => 12,
        Act::PrevTimeframe => 13,
        Act::NextTimeframe => 14,
        Act::ToggleCandles => 15,
        Act::Sma20 => 16,
        Act::Sma50 => 17,
        Act::Sma200 => 18,
        Act::ResetZoom => 19,
        Act::SideBuy => 20,
        Act::SideSell => 21,
        Act::TypeMarket => 22,
        Act::TypeLimit => 23,
        Act::TypeStop => 24,
        Act::ToggleSizeMode => 25,
        Act::CyclePrice => 26,
        Act::Preview => 27,
        Act::CancelOrder => 28,
        Act::ArmTrail => 29,
    }
}

fn bind(
    act: Act,
    key: Key,
    mods: Modifiers,
    words: (&'static str, &'static str, &'static str),
) -> (r: Binding)
    ensures
        r.view() == (BindingView {
            act,
            key,
            mods,
            shown: words.0@,
            label: words.1@,
            group: words.2@,
        }),
{
    Binding { act, key, mods, shown: words.0, label: words.1, group: words.2 }
}

/// The binding of an action.
pub fn binding(act: Act) -> (r: Binding)
    ensures
        r.view() == binding_of(act),
{
    let none = Modifiers { alt: false, ctrl: false, shift: false, mac_cmd: false, command: false };
    let shift = Modifiers { shift: true, ..none };
    let command = Modifiers { command: true, ..none };
    match act {
        Act::ViewChart => bind(act, Key::Num1, none, ("1", "Chart", NAV)),
        Act::ViewDerivatives => bind(act, Key::Num2, none, ("2", "Derivatives", NAV)),
        Act::ViewPortfolio => bind(act, Key::Num3, none, ("3", "Portfolio", NAV)),
        Act::ViewLog => bind(act, Key::Num4, none, ("4", "Log", NAV)),
        Act::ViewRaw => bind(act, Key::Num5, none, ("5", "Raw", NAV)),
        Act::PrevInstrument => bind(act, Key::ArrowUp, none, ("Up", "Previous instrument", NAV)),
        Act::NextInstrument => bind(act, Key::ArrowDown, none, ("Down", "Next instrument", NAV)),
        Act::FocusSearch => bind(act, Key::Slash, none, ("/", "Focus the search field", NAV)),
        Act::FocusAdd => bind(act, Key::A, none, ("A", "Focus the add ISIN field", NAV)),
        Act::Help => bind(act, Key::Questionmark, shift, ("?", "This window", NAV)),
        Act::Refresh => bind(act, Key::R, none, ("R", "Refresh everything", DATA)),
        Act::RefreshQuotes => bind(act, Key::R, shift, ("Shift R", "Refresh quotes only", DATA)),
        Act::TogglePause => bind(act, Key::Space, none, ("Space", "Pause or resume polling", DATA)),
        Act::PrevTimeframe => bind(act, Key::OpenBracket, none, ("[", "Previous timeframe", CHART)),
        Act::NextTimeframe => bind(act, Key::CloseBracket, none, ("]", "Next timeframe", CHART)),
        Act::ToggleCandles => bind(act, Key::C, none, ("C", "Candles or line", CHART)),
        Act::Sma20 => bind(act, Key::Z, none, ("Z", "Toggle SMA 20", CHART)),
        Act::Sma50 => bind(act, Key::X, none, ("X", "Toggle SMA 50", CHART)),
        Act::Sma200 => bind(act, Key::V, none, ("V", "Toggle SMA 200", CHART)),
        Act::ResetZoom => bind(act, Key::F, none, ("F", "Reset zoom", CHART)),
        Act::SideBuy => bind(act, Key::B, none, ("B", "Side buy", TICKET)),
        Act::SideSell => bind(act, Key::S, none, ("S", "Side sell", TICKET)),
        Act::TypeMarket => bind(act, Key::M, none, ("M", "Market order", TICKET)),
        Act::TypeLimit => bind(act, Key::L, none, ("L", "Limit order", TICKET)),
        Act::TypeStop => bind(act, Key::T, none, ("T", "Stop order", TICKET)),
        Act::ToggleSizeMode => bind(act, Key::Q, none, ("Q", "Size by shares or amount", TICKET)),
        Act::CyclePrice => bind(act, Key::P, none, ("P", "Limit price: bid, mid, ask", TICKET)),
        Act::Preview => bind(act, Key::Enter, none, ("Enter", "Preview, places nothing", TICKET)),
        Act::CancelOrder => bind(
            act,
            Key::Backspace,
            command,
            ("Cmd Backspace", "Cancel selected working order", ORDERS),
        ),
        Act::ArmTrail => bind(
            act,
            Key::T,
            shift,
            ("Shift T", "Arm a trail on the selection", ORDERS),
        ),
    }
}

/// The table of shortcuts.
pub fn bindings() -> (r: Vec<Binding>)
    ensures
        r@.len() == acts().len(),
        forall|i: int| 0 <= i < acts().len() ==> (#[trigger] r@[i]).view() == binding_of(acts()[i]),
{
    let order: Vec<Act> = vec![
        Act::ViewChart,
        Act::ViewDerivatives,
        Act::ViewPortfolio,
        Act::ViewLog,
        Act::ViewRaw,
        Act::PrevInstrument,
        Act::NextInstrument,
        Act::FocusSearch,
        Act::FocusAdd,
        Act::Help,
        Act::Refresh,
        Act::RefreshQuotes,
        Act::TogglePause,
        Act::PrevTimeframe,
        Act::NextTimeframe,
        Act::ToggleCandles,
        Act::Sma20,
        Act::Sma50,
        Act::Sma200,
        Act::ResetZoom,
        Act::SideBuy,
        Act::SideSell,
        Act::TypeMarket,
        Act::TypeLimit,
        Act::TypeStop,
        Act::ToggleSizeMode,
        Act::CyclePrice,
        Act::Preview,
        Act::CancelOrder,
        Act::ArmTrail,
    ];
    assert(order@ =~= acts());
    let mut out: Vec<Binding> = Vec::new();
    for i in 0..order.len()
        invariant
            order@ == acts(),
            out@.len() == i,
            forall|k: int| 0 <= k < i ==> (#[trigger] out@[k]).view() == binding_of(acts()[k]),
    {
        out.push(binding(order[i]));
    }
    out
}

/// The groups that the help window lists, in order.
pub open spec fn group_names() -> Seq<Seq<char>> {
    seq![NAV@, DATA@, CHART@, TICKET@, ORDERS@]
}

pub fn groups() -> (r: Vec<&'static str>)
    ensures
        r@.map_values(|g: &'static str| g@) == group_names(),
{
    let r: Vec<&'static str> = vec![NAV, DATA, CHART, TICKET, ORDERS];
    assert(r@.map_values(|g: &'static str| g@) =~= group_names());
    r
}

/// What has no shortcut, and why, so that the help window shows that it is meant.
pub open spec fn reasons() -> Seq<(Seq<char>, Seq<char>)> {
    seq![
        (
            "Submit an order"@,
            "stays behind typing CONFIRM, so a stray keypress can never fill"@,
        ),
        ("Move a trailing stop"@, "cancels a live stop, so it costs a deliberate click"@),
    ]
}

pub fn unbound() -> (r: Vec<(&'static str, &'static str)>)
    ensures
        r@.map_values(|p: (&'static str, &'static str)| (p.0@, p.1@)) == reasons(),
{
    let r: Vec<(&'static str, &'static str)> = vec![
        ("Submit an order", "stays behind typing CONFIRM, so a stray keypress can never fill"),
        ("Move a trailing stop", "cancels a live stop, so it costs a deliberate click"),
    ];
    assert(r@.map_values(|p: (&'static str, &'static str)| (p.0@, p.1@)) =~= reasons());
    r
}

/// Whether the modifiers that are down are those of a pattern. Alt and shift must
/// be just as the pattern has them. A pattern of the Mac's command key wants that
/// key, and control as it has it; any other wants what it has of control and
/// command, and neither of them where it has neither.
pub open spec fn matches(held: Modifiers, pattern: Modifiers) -> bool {
    &&& held.alt == pattern.alt
    &&& held.shift == pattern.shift
    &&& if pattern.mac_cmd {
        held.mac_cmd && held.ctrl == pattern.ctrl
    } else if !pattern.ctrl && !pattern.command {
        !held.ctrl && !held.command
    } else {
        (pattern.ctrl ==> held.ctrl) && (pattern.command ==> held.command)
    }
}

/// `egui::Modifiers::matches_exact`, of the modifiers that are down and a pattern.
/// Claims what `matches` says.
#[verifier::external_body]
fn matches_exact(held: Modifiers, pattern: Modifiers) -> (r: bool)
    ensures
        r == matches(held, pattern),
{
    let (h, p) = (held, pattern);
    let held = egui::Modifiers {
        alt: h.alt, ctrl: h.ctrl, shift: h.shift, mac_cmd: h.mac_cmd, command: h.command,
    };
    let pattern = egui::Modifiers {
        alt: p.alt, ctrl: p.ctrl, shift: p.shift, mac_cmd: p.mac_cmd, command: p.command,
    };
    held.matches_exact(pattern)
}

/// Whether the chord of an action is pressed.
pub open spec fn is_pressed(a: Act, keys: Seq<Key>, held: Modifiers) -> bool {
    keys.contains(chord(a).0) && matches(held, chord(a).1)
}

/// The first action from the `i`th on whose chord is pressed.
pub open spec fn first_pressed(i: int, keys: Seq<Key>, held: Modifiers) -> Option<Act>
    decreases acts().len() - i,
{
    if i < 0 || i >= acts().len() {
        None
    } else if is_pressed(acts()[i], keys, held) {
        Some(acts()[i])
    } else {
        first_pressed(i + 1, keys, held)
    }
}

/// The action whose chord is pressed, given the keys that were pressed and the
/// modifiers that are down. There is none while a text is being typed: a letter
/// of it is no shortcut.
pub fn pressed(typing: bool, keys: &Vec<Key>, held: Modifiers) -> (r: Option<Act>)
    ensures
        r == if typing {
            None
        } else {
            first_pressed(0, keys@, held)
        },
{
    if typing {
        return None;
    }
    let table = bindings();
    for i in 0..table.len()
        invariant
            !typing,
            table@.len() == acts().len(),
            forall|k: int|
                0 <= k < acts().len() ==> (#[trigger] table@[k]).view() == binding_of(acts()[k]),
            first_pressed(0, keys@, held) == first_pressed(i as int, keys@, held),
    {
        let b = table[i];
        assert(b.view() == binding_of(acts()[i as int]));
        let mut down = false;
        for k in 0..keys.len()
            invariant
                down == keys@.take(k as int).contains(b.key),
        {
            assert(keys@.take(k + 1) =~= keys@.take(k as int).push(keys@[k as int]));
            let ghost before = keys@.take(k as int);
            let ghost after = keys@.take(k + 1);
            proof {
                if before.contains(b.key) {
                    let j = choose|j: int| 0 <= j < before.len() && before[j] == b.key;
                    assert(after[j] == b.key);
                }
                assert(after[k as int] == keys@[k as int]);
            }
            if keys[k] == b.key {
                down = true;
            }
        }
        assert(keys@.take(keys@.len() as int) =~= keys@);
        if down && matches_exact(held, b.mods) {
            return Some(b.act);
        }
    }
    None
}

/// Every action is in the table once.
pub proof fn law_every_action_is_bound_once(a: Act)
    ensures
        0 <= place(a) < acts().len(),
        acts()[place(a)] == a,
        forall|i: int| 0 <= i < acts().len() && acts()[i] == a ==> i == place(a),
{
}

/// No two actions share a chord.
pub proof fn law_chords_are_unique(a: Act, b: Act)
    requires
        chord(a) == chord(b),
    ensures
        a == b,
{
}

/// A key pressed with some modifiers calls for one action at most.
pub proof fn law_a_key_calls_for_one_action(a: Act, b: Act, key: Key, held: Modifiers)
    requires
        is_pressed(a, seq![key], held),
        is_pressed(b, seq![key], held),
    ensures
        a == b,
{
    assert(chord(a).0 == key);
    assert(chord(b).0 == key);
    law_chords_are_unique(a, b);
}

/// Every action is in a group that the help window lists.
pub proof fn law_every_action_is_in_a_group(a: Act)
    ensures
        group_names().contains(caption(a).2),
{
    let g = group_names();
    assert(g[0] == NAV@ && g[1] == DATA@ && g[2] == CHART@ && g[3] == TICKET@ && g[4] == ORDERS@);
}

/// Every group that the help window lists has an action.
pub proof fn law_no_group_is_empty(i: int)
    requires
        0 <= i < group_names().len(),
    ensures
        exists|a: Act| #[trigger] caption(a).2 == group_names()[i],
{
    assert(caption(Act::ViewChart).2 == NAV@);
    assert(caption(Act::Refresh).2 == DATA@);
    assert(caption(Act::Sma20).2 == CHART@);
    assert(caption(Act::SideBuy).2 == TICKET@);
    assert(caption(Act::ArmTrail).2 == ORDERS@);
}

/// Cancelling an order takes a modifier, so that no bare key does it.
pub proof fn law_cancelling_takes_a_modifier(keys: Seq<Key>, held: Modifiers)
    requires
        is_pressed(Act::CancelOrder, keys, held),
    ensures
        held.command,
{
}

} // verus!
