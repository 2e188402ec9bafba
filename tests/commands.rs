use youkebox::commands::{Command, CommandTable};

fn s(x: &str) -> String {
    x.to_string()
}

#[test]
fn new_table_is_empty() {
    let t = CommandTable::new();
    assert_eq!(t.get(&s("a")), None);
    assert_eq!(t.get(&s("")), None);
}

#[test]
fn set_then_get() {
    let mut t = CommandTable::new();
    t.set(&s("a"), Command::Skip);
    assert_eq!(t.get(&s("a")), Some(Command::Skip));
    t.set(&s("a"), Command::Play);
    assert_eq!(t.get(&s("a")), Some(Command::Play));
    assert_eq!(t.get(&s("b")), None);
}

#[test]
fn initialize_keeps_existing_entry() {
    let mut t = CommandTable::new();
    t.initialize(&s("a"));
    assert_eq!(t.get(&s("a")), Some(Command::Play));
    t.set(&s("a"), Command::Skip);
    t.initialize(&s("a"));
    assert_eq!(t.get(&s("a")), Some(Command::Skip));
}

#[test]
fn skip_sets_existing_entry_only() {
    let mut t = CommandTable::new();
    t.skip(&s("a"));
    assert_eq!(t.get(&s("a")), None);
    t.set(&s("a"), Command::Play);
    t.skip(&s("a"));
    assert_eq!(t.get(&s("a")), Some(Command::Skip));
}
