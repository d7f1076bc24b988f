use localview::console::{group, ConsoleEntry, ConsoleLevel};

fn entry(message: &str, source: Option<&str>) -> ConsoleEntry {
    ConsoleEntry {
        level: ConsoleLevel::Warning,
        message: message.into(),
        stack: None,
        source: source.map(str::to_string),
        action_ref: None,
    }
}

#[test]
fn deduplicates() {
    let e = ConsoleEntry {
        level: ConsoleLevel::Warning,
        message: "React warning".into(),
        stack: None,
        source: Some("App.tsx".into()),
        action_ref: None,
    };
    let g = group(&[e.clone(), e]);
    assert_eq!(g[0].count, 2);
}

#[test]
fn whitespace_does_not_split_a_group_and_groups_are_ordered_by_fingerprint() {
    let g = group(&[
        entry("b  message", None),
        entry("  a\tmessage ", Some("x.js")),
        entry("b message", None),
    ]);
    assert_eq!(g.len(), 2);
    assert_eq!(g[0].fingerprint, "a message|x.js");
    assert_eq!(g[0].message, "  a\tmessage ");
    assert_eq!(g[1].fingerprint, "b message|");
    assert_eq!(g[1].count, 2);
    assert_eq!(g[1].message, "b  message");
}

#[test]
fn counts_add_up_to_the_entries() {
    let entries = vec![
        entry("x", None),
        entry("y", None),
        entry("x", Some("s")),
        entry("x", None),
    ];
    let g = group(&entries);
    let total: u32 = g.iter().map(|item| item.count).sum();
    assert_eq!(total as usize, entries.len());
}
