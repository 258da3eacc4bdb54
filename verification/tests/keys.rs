use scalable_terminal::shortcuts::{
    bindings, groups, pressed, unbound, Act, Key, Modifiers,
};

const NONE: Modifiers = Modifiers {
    alt: false,
    ctrl: false,
    shift: false,
    mac_cmd: false,
    command: false,
};

/// Two actions on the same chord means one of them silently never fires, and
/// the help window would list both as working.
#[test]
fn shortcut_chords_are_unique() {
    let mut seen: Vec<(Key, bool, bool, bool)> = Vec::new();
    for b in bindings() {
        let chord = (b.key, b.mods.shift, b.mods.command, b.mods.alt);
        assert!(
            !seen.contains(&chord),
            "{:?} is bound twice: {} / {}",
            b.key,
            b.label,
            b.shown
        );
        seen.push(chord);
    }
    assert_eq!(seen.len(), bindings().len());
}

/// The help window renders by group, so a binding in no known group would be
/// invisible while still working.
#[test]
fn every_shortcut_appears_in_the_help_window() {
    for b in bindings() {
        assert!(
            groups().contains(&b.group),
            "{} is in group {:?}, which the help window does not render",
            b.label,
            b.group
        );
        assert!(!b.shown.is_empty(), "{} has no printable chord", b.label);
        assert!(!b.label.is_empty());
    }
    for g in groups() {
        assert!(
            bindings().iter().any(|b| b.group == g),
            "group {g:?} is rendered but empty"
        );
    }
}

/// Submitting an order must never be reachable from the keyboard. The only
/// order related binding is Preview, which runs phase one and places nothing.
#[test]
fn no_shortcut_can_place_an_order() {
    let order_acts: Vec<Act> = bindings()
        .iter()
        .map(|b| b.act)
        .filter(|a| matches!(a, Act::Preview | Act::CancelOrder | Act::ArmTrail))
        .collect();
    assert!(order_acts.contains(&Act::Preview));

    // Cancelling is destructive, so it must carry a modifier rather than sit on
    // a bare key next to the arrows used for navigation.
    let table = bindings();
    let cancel = table.iter().find(|b| b.act == Act::CancelOrder).unwrap();
    assert!(cancel.mods.command, "cancel must require a modifier");

    // Nothing in the table describes itself as submitting or confirming.
    for b in bindings() {
        let l = b.label.to_lowercase();
        assert!(
            !(l.contains("submit") || l.contains("confirm") || l.contains("move stop")),
            "{} must not be bound to a key",
            b.label
        );
    }

    // And the omission is documented rather than accidental.
    assert!(unbound().iter().any(|(what, _)| what.contains("Submit")));
    assert!(
        unbound()
            .iter()
            .any(|(what, _)| what.contains("trailing stop"))
    );
    assert!(unbound().iter().all(|(_, why)| !why.is_empty()));
}

#[test]
fn a_chord_calls_for_its_action() {
    let shift = Modifiers { shift: true, ..NONE };
    assert_eq!(pressed(false, &vec![Key::R], NONE), Some(Act::Refresh));
    assert_eq!(pressed(false, &vec![Key::R], shift), Some(Act::RefreshQuotes));
    assert_eq!(pressed(false, &vec![Key::T], NONE), Some(Act::TypeStop));
    assert_eq!(pressed(false, &vec![Key::T], shift), Some(Act::ArmTrail));
    assert_eq!(pressed(false, &vec![Key::Questionmark], shift), Some(Act::Help));
    assert_eq!(pressed(false, &vec![Key::Questionmark], NONE), None);
    assert_eq!(pressed(false, &vec![], NONE), None);
    // The first of the table wins when several keys are pressed at once.
    assert_eq!(pressed(false, &vec![Key::B, Key::Num3], NONE), Some(Act::ViewPortfolio));
}

#[test]
fn no_letter_of_a_text_is_a_shortcut() {
    assert_eq!(pressed(true, &vec![Key::A], NONE), None);
    assert_eq!(pressed(false, &vec![Key::A], NONE), Some(Act::FocusAdd));
}

#[test]
fn modifiers_must_match() {
    // Control is command on Linux and Windows, and either may come with it.
    let linux = Modifiers { ctrl: true, command: true, ..NONE };
    let mac = Modifiers { mac_cmd: true, command: true, ..NONE };
    assert_eq!(pressed(false, &vec![Key::Backspace], linux), Some(Act::CancelOrder));
    assert_eq!(pressed(false, &vec![Key::Backspace], mac), Some(Act::CancelOrder));
    assert_eq!(pressed(false, &vec![Key::Backspace], NONE), None);
    assert_eq!(
        pressed(false, &vec![Key::Backspace], Modifiers { shift: true, ..linux }),
        None
    );
    assert_eq!(pressed(false, &vec![Key::R], linux), None);
    assert_eq!(pressed(false, &vec![Key::R], Modifiers { alt: true, ..NONE }), None);
}
