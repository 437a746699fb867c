use kakukuma::blocks;
use kakukuma::cell::{Cell, Rgb};
use kakukuma::history::CellMutation;
use kakukuma::oplog::{
    active_entries, append, log_path, make_entry, pop_for_undo, push_for_redo, read_log, LogCell,
    LogEntry, OpLog, OplogError,
};

fn make_mutation(x: usize, y: usize) -> CellMutation {
    CellMutation {
        x,
        y,
        old: Cell::default(),
        new: Cell {
            ch: blocks::FULL,
            fg: Some(Rgb::new(255, 0, 0)),
            bg: None,
        },
    }
}

fn entry(cmd: &str, x: usize, y: usize) -> LogEntry {
    make_entry(cmd, &[make_mutation(x, y)], String::from("2024-01-01T00:00:00Z"))
}

#[test]
fn test_log_path_derivation() {
    let p = log_path("art.kaku");
    assert_eq!(p, "art.kaku.log");

    let p = log_path("/tmp/my art.kaku");
    assert_eq!(p, "/tmp/my art.kaku.log");
}

#[test]
fn test_log_cell_roundtrip() {
    let cell = Cell {
        ch: blocks::FULL,
        fg: Some(Rgb::new(255, 128, 0)),
        bg: Some(Rgb::new(0, 0, 255)),
    };
    let log_cell = LogCell::from_cell(&cell);
    let restored = log_cell.to_cell();
    assert_eq!(restored.ch, cell.ch);
    assert_eq!(restored.fg, cell.fg);
    assert_eq!(restored.bg, cell.bg);
}

#[test]
fn test_color_name_format() {
    // a wrapper that handed its argument back unchanged would fail this
    let name = Rgb::new(255, 128, 0).name();
    assert_eq!(name, "#FF8000");
    assert_eq!(kakukuma::cell::parse_hex_color("#FF8000"), Some(Rgb::new(255, 128, 0)));
    assert_eq!(kakukuma::cell::parse_hex_color("#ff8000"), Some(Rgb::new(255, 128, 0)));
    assert_eq!(kakukuma::cell::parse_hex_color("FF8000"), None);
    assert_eq!(kakukuma::cell::parse_hex_color("#FF800"), None);
    assert_eq!(kakukuma::cell::parse_hex_color("#GG0000"), None);
}

#[test]
fn test_init_and_read_empty() {
    let log = OpLog::new();
    let (header, entries) = read_log(&log);
    assert_eq!(header.pointer, 0);
    assert_eq!(header.total, 0);
    assert!(entries.is_empty());
}

#[test]
fn test_append_and_read() {
    let mut log = OpLog::new();
    append(&mut log, entry("draw pencil 5,5", 5, 5));

    let (header, entries) = read_log(&log);
    assert_eq!(header.pointer, 1);
    assert_eq!(header.total, 1);
    assert_eq!(entries.len(), 1);
    assert_eq!(entries[0].command, "draw pencil 5,5");
    assert_eq!(entries[0].mutations.len(), 1);
    assert_eq!(entries[0].mutations[0].x, 5);
}

#[test]
fn test_undo_pointer_movement() {
    let mut log = OpLog::new();
    append(&mut log, entry("draw pencil 0,0", 0, 0));
    append(&mut log, entry("draw pencil 1,1", 1, 1));
    append(&mut log, entry("draw pencil 2,2", 2, 2));

    let undone = pop_for_undo(&mut log, 1).unwrap();
    assert_eq!(undone.len(), 1);
    assert_eq!(undone[0].command, "draw pencil 2,2");

    let (header, _) = read_log(&log);
    assert_eq!(header.pointer, 2);
    assert_eq!(header.total, 3);

    let active = active_entries(&log);
    assert_eq!(active.len(), 2);
}

#[test]
fn test_redo_restores_pointer() {
    let mut log = OpLog::new();
    append(&mut log, entry("draw pencil 0,0", 0, 0));
    append(&mut log, entry("draw pencil 1,1", 1, 1));

    pop_for_undo(&mut log, 1).unwrap();

    let redone = push_for_redo(&mut log, 1).unwrap();
    assert_eq!(redone.len(), 1);
    assert_eq!(redone[0].command, "draw pencil 1,1");

    let (header, _) = read_log(&log);
    assert_eq!(header.pointer, 2);
}

// After an undo, a fresh append discards the undone entries: redo fails.
#[test]
fn test_new_append_clears_redo_entries() {
    let mut log = OpLog::new();
    append(&mut log, entry("cmd 1", 0, 0));
    append(&mut log, entry("cmd 2", 1, 1));
    append(&mut log, entry("cmd 3", 2, 2));

    pop_for_undo(&mut log, 2).unwrap();
    append(&mut log, entry("cmd 4", 3, 3));

    let (header, entries) = read_log(&log);
    assert_eq!(header.pointer, 2);
    assert_eq!(header.total, 2);
    assert_eq!(entries.len(), 2);
    assert_eq!(entries[0].command, "cmd 1");
    assert_eq!(entries[1].command, "cmd 4");

    assert!(matches!(push_for_redo(&mut log, 1), Err(OplogError::NothingToRedo)));
}

// Appending past the cap keeps exactly the most recent entries.
#[test]
fn test_pruning_at_cap() {
    let mut log = OpLog::new();
    for i in 0..300 {
        append(&mut log, entry(&format!("cmd {}", i), i % 48, 0));
    }

    let (header, entries) = read_log(&log);
    assert_eq!(entries.len(), 256);
    assert_eq!(header.pointer, 256);
    assert_eq!(entries[0].command, "cmd 44");
    assert_eq!(entries[entries.len() - 1].command, "cmd 299");
}

#[test]
fn test_undo_on_empty_log() {
    let mut log = OpLog::new();
    assert!(matches!(pop_for_undo(&mut log, 1), Err(OplogError::NothingToUndo)));
}

#[test]
fn test_redo_with_nothing_undone() {
    let mut log = OpLog::new();
    append(&mut log, entry("cmd 1", 0, 0));
    assert!(matches!(push_for_redo(&mut log, 1), Err(OplogError::NothingToRedo)));
}

#[test]
fn test_multi_undo() {
    let mut log = OpLog::new();
    for i in 0..5 {
        append(&mut log, entry(&format!("cmd {}", i), i, 0));
    }

    let undone = pop_for_undo(&mut log, 3).unwrap();
    assert_eq!(undone.len(), 3);

    let (header, _) = read_log(&log);
    assert_eq!(header.pointer, 2);
}

// The pointer never passes below zero nor above the total, however large
// the requested count.
#[test]
fn test_pointer_bounds() {
    let mut log = OpLog::new();
    for i in 0..4 {
        append(&mut log, entry(&format!("cmd {}", i), i, 0));
    }

    let undone = pop_for_undo(&mut log, 1000).unwrap();
    assert_eq!(undone.len(), 4);
    let (header, _) = read_log(&log);
    assert_eq!(header.pointer, 0);

    let redone = push_for_redo(&mut log, 1000).unwrap();
    assert_eq!(redone.len(), 4);
    let (header, _) = read_log(&log);
    assert_eq!(header.pointer, 4);
    assert_eq!(header.total, 4);
}

// Encoding mutations into an entry and decoding them back preserves every
// coordinate and cell.
#[test]
fn test_entry_mutations_roundtrip() {
    let ms = vec![make_mutation(3, 4), make_mutation(5, 6)];
    let e = make_entry("draw line", &ms, String::from("2024-01-01T00:00:00Z"));
    let decoded = kakukuma::oplog::decode_mutations(&e);
    assert_eq!(decoded.len(), 2);
    for (a, b) in ms.iter().zip(decoded.iter()) {
        assert_eq!((a.x, a.y), (b.x, b.y));
        assert_eq!(a.old, b.old);
        assert_eq!(a.new, b.new);
    }
}
