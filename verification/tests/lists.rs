use scalable_terminal::workspace::{ListId, WatchList, Workspace};

/// Local lists exist so a held instrument can be tracked anywhere: the broker
/// refuses those, which is the whole reason this store is separate.
#[test]
fn local_lists_accept_anything_and_stay_deduplicated() {
    let mut l = WatchList::new("Momentum");
    assert!(l.add("de000a2e4t77"), "new entry");
    assert_eq!(l.isins, vec!["DE000A2E4T77"], "normalised to upper case");

    assert!(!l.add("DE000A2E4T77"), "already present");
    assert!(!l.add("  de000a2e4t77  "), "same after trimming");
    assert_eq!(l.isins.len(), 1);

    assert!(!l.add("   "), "blank is not an instrument");
    assert!(!l.add(""));
    assert_eq!(l.isins.len(), 1);

    // A held instrument is fine here, unlike on the broker list.
    assert!(l.add("JP3228600007"));
    l.remove("DE000A2E4T77");
    assert_eq!(l.isins, vec!["JP3228600007"]);
    l.remove("NOT_THERE");
    assert_eq!(l.isins.len(), 1);
}

/// Order is the user's ranking, so it has to be data rather than incidental.
#[test]
fn reordering_is_clamped_and_order_preserving() {
    let mut l = WatchList::new("L");
    for i in ["A", "B", "C", "D"] {
        l.add(i);
    }

    l.move_by("C", -1);
    assert_eq!(l.isins, vec!["A", "C", "B", "D"]);

    // Past either end clamps rather than wrapping or panicking.
    l.move_by("A", -5);
    assert_eq!(l.isins, vec!["A", "C", "B", "D"]);
    l.move_by("D", 9);
    assert_eq!(l.isins, vec!["A", "C", "B", "D"]);

    l.move_by("A", 3);
    assert_eq!(l.isins, vec!["C", "B", "D", "A"]);

    l.move_by("MISSING", 1);
    assert_eq!(l.isins.len(), 4, "unknown entry changes nothing");
}

#[test]
fn reordering_clamps_however_far_it_goes() {
    let mut l = WatchList::new("L");
    for i in ["A", "B", "C"] {
        l.add(i);
    }
    l.move_by("C", isize::MAX);
    assert_eq!(l.isins, vec!["A", "B", "C"]);
    l.move_by("C", isize::MIN);
    assert_eq!(l.isins, vec!["C", "A", "B"]);
}

/// Deleting a list shifts every index after it. Leaving the active selection
/// alone would silently switch the user to a different list.
#[test]
fn deleting_a_list_rewrites_the_active_selection() {
    let mut w = Workspace::default();
    assert_eq!(w.active, ListId::Broker);
    w.create("Momentum");
    w.create("CAN SLIM");
    w.create("Income");

    // Deleting a list before the active one shifts it down.
    w.active = ListId::Local(2);
    w.delete(0);
    assert_eq!(w.active, ListId::Local(1));
    assert_eq!(w.name_of(w.active), "Income");

    // Deleting the active list falls back rather than dangling.
    w.delete(1);
    assert_eq!(w.active, ListId::Broker);

    // Out of range deletes are ignored.
    let before = w.lists.len();
    w.delete(99);
    assert_eq!(w.lists.len(), before);
}

/// A stored file can name a list that no longer exists. Without repair the
/// strip would come up empty with no way back.
#[test]
fn a_stale_active_list_falls_back_to_the_broker() {
    let mut w = Workspace {
        active: ListId::Local(7),
        ..Default::default()
    };
    w.repair();
    assert_eq!(w.active, ListId::Broker);

    w.create("Only");
    w.active = ListId::Local(0);
    w.repair();
    assert_eq!(w.active, ListId::Local(0), "a valid selection survives");
}

/// Holdings must always be priced, whichever list is on screen, or position
/// profit is marked against a stale quote.
#[test]
fn rows_and_poll_set_cover_the_right_instruments() {
    let broker = vec!["AAA".to_string(), "BBB".to_string()];
    let held = vec!["HELD1".to_string(), "HELD2".to_string()];

    let mut w = Workspace::default();

    // The broker list shows holdings too, since they cannot be stored on it.
    let rows = w.rows(&broker, &held);
    assert_eq!(rows, vec!["AAA", "BBB", "HELD1", "HELD2"]);

    w.active = ListId::Positions;
    assert_eq!(w.rows(&broker, &held), held);

    let id = w.create("Momentum");
    w.local_mut(id).unwrap().add("AAA");
    w.active = id;
    assert_eq!(
        w.rows(&broker, &held),
        vec!["AAA"],
        "only what the list holds"
    );

    // But polling still covers holdings, and never duplicates.
    let poll = w.poll_set(&broker, &held);
    assert_eq!(poll, vec!["AAA", "HELD1", "HELD2"]);

    w.local_mut(id).unwrap().add("HELD1");
    let poll = w.poll_set(&broker, &held);
    assert_eq!(
        poll.iter().filter(|i| *i == "HELD1").count(),
        1,
        "deduplicated"
    );
}

#[test]
fn names_of_lists() {
    let mut w = Workspace::default();
    let id = w.create("Income");
    assert_eq!(w.name_of(ListId::Broker), "Scalable account");
    assert_eq!(w.name_of(ListId::Positions), "Positions");
    assert_eq!(w.name_of(id), "Income");
    assert_eq!(w.name_of(ListId::Local(3)), "(missing)");
    assert!(w.local(id).is_some());
    assert!(w.local(ListId::Local(3)).is_none());
    assert!(w.local(ListId::Broker).is_none());
    assert!(w.local_mut(ListId::Positions).is_none());
    w.active = ListId::Local(3);
    assert!(w.rows(&vec![], &vec!["H".to_string()]).is_empty());
}

#[test]
fn upper_case_follows_unicode() {
    let mut l = WatchList::new("L");
    assert!(l.add("\u{a0}straße\u{2003}"));
    assert_eq!(l.isins, vec!["STRASSE"]);
}

#[test]
fn white_space_is_what_unicode_says() {
    let listed = |c: char| {
        matches!(
            c as u32,
            0x9..=0xd
                | 0x20
                | 0x85
                | 0xa0
                | 0x1680
                | 0x2000..=0x200a
                | 0x2028
                | 0x2029
                | 0x202f
                | 0x205f
                | 0x3000
        )
    };
    for c in '\0'..=char::MAX {
        assert_eq!(c.is_whitespace(), listed(c));
    }
    assert_eq!(scalable_terminal::text::trim(" \u{85}\ta b\u{3000}\n"), "a b");
    assert_eq!(scalable_terminal::text::trim("\u{2003} \u{a0}"), "");
}

#[test]
fn ascii_is_raised_letter_by_letter() {
    let small: String = ('\0'..='\u{7f}').filter(|c| !c.is_whitespace()).collect();
    let mut l = WatchList::new("L");
    assert!(l.add(&small));
    assert_eq!(l.isins[0], small.to_ascii_uppercase());
}
