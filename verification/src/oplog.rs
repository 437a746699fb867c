//! The persisted operation log for the stateless command-line front-end:
//! a pointer-addressed, append-only record of operations. Entries below the
//! pointer are active; entries at or above it are undone and kept for redo.
//! The file envelope (one JSON record per line) is read and written by the
//! front-end; the pointer arithmetic, truncation and pruning live here.

use vstd::prelude::*;
use vstd::string::StringExecFns;

use crate::cell::{hex_name_spec, parse_hex_spec, Cell};
use crate::history::CellMutation;

verus! {

/// Cap on stored entries; the oldest are pruned beyond it.
pub const MAX_LOG_ENTRIES: usize = 256;

/// The log file's first record: the undo pointer and the entry count.
#[derive(Clone, Copy, PartialEq, Eq, Structural, Debug)]
pub struct LogHeader {
    pub pointer: usize,
    pub total: usize,
}

/// A cell in the log's external representation: the glyph as one character
/// and each color as a portable string.
#[derive(Clone, Debug)]
pub struct LogCell {
    pub ch: char,
    pub fg: Option<String>,
    pub bg: Option<String>,
}

/// One recorded mutation in external representation.
#[derive(Clone, Debug)]
pub struct LogMutation {
    pub x: usize,
    pub y: usize,
    pub old: LogCell,
    pub new: LogCell,
}

/// One recorded operation: when it ran, what command produced it, and the
/// mutations it applied.
#[derive(Clone, Debug)]
pub struct LogEntry {
    pub timestamp: String,
    pub command: String,
    pub mutations: Vec<LogMutation>,
}

/// The in-memory image of a log file: the undo pointer and all entries.
pub struct OpLog {
    pub pointer: usize,
    pub entries: Vec<LogEntry>,
}

/// The two ways a log operation can refuse to move the pointer.
#[derive(Clone, Copy, PartialEq, Eq, Structural, Debug)]
pub enum OplogError {
    NothingToUndo,
    NothingToRedo,
}

impl OpLog {
    /// Entries below the pointer are active; the rest await redo.
    pub open spec fn wf(&self) -> bool {
        self.pointer <= self.entries@.len()
    }

    /// A fresh, empty log.
    pub fn new() -> (log: OpLog)
        ensures
            log.wf(),
            log.pointer == 0,
            log.entries@ == Seq::<LogEntry>::empty(),
    {
        let log = OpLog { pointer: 0, entries: Vec::new() };
        proof {
            assert(log.entries@ =~= Seq::<LogEntry>::empty());
        }
        log
    }
}

/// The entries after an append: everything at or past the pointer is
/// discarded, the entry is added, and the oldest entries beyond the cap
/// are dropped from the front.
pub open spec fn appended_entries(p: int, es: Seq<LogEntry>, e: LogEntry) -> Seq<LogEntry> {
    let t = es.take(p).push(e);
    if t.len() > MAX_LOG_ENTRIES {
        t.skip(t.len() - MAX_LOG_ENTRIES)
    } else {
        t
    }
}

/// Append an entry: a fresh append after an undo discards the undone
/// entries, the cap prunes from the oldest end, and the pointer lands at
/// the new total, leaving nothing to redo.
pub fn append(log: &mut OpLog, entry: LogEntry)
    requires
        old(log).wf(),
    ensures
        final(log).wf(),
        final(log).entries@ == appended_entries(
            old(log).pointer as int,
            old(log).entries@,
            entry,
        ),
        final(log).pointer == final(log).entries@.len(),
        final(log).entries@.len() <= MAX_LOG_ENTRIES,
        final(log).entries@.last() == entry,
{
    let p = log.pointer;
    log.entries.truncate(p);
    log.entries.push(entry);
    if log.entries.len() > MAX_LOG_ENTRIES {
        let excess = log.entries.len() - MAX_LOG_ENTRIES;
        let ghost before = log.entries@;
        let kept: Vec<LogEntry> = log.entries.split_off(excess);
        proof {
            assert(kept@ =~= before.skip(excess as int));
        }
        log.entries = kept;
    }
    log.pointer = log.entries.len();
    proof {
        assert(final(log).entries@ =~= appended_entries(
            old(log).pointer as int,
            old(log).entries@,
            entry,
        ));
    }
}

/// Move the pointer back for undo: it drops by at most its own value — it
/// can never pass below zero — and the entries that fell out of the active
/// range are returned, oldest first, with no entry content rewritten. With
/// the pointer at zero there is nothing to undo and nothing changes.
pub fn pop_for_undo(log: &mut OpLog, count: usize) -> (r: Result<Vec<LogEntry>, OplogError>)
    requires
        old(log).wf(),
    ensures
        final(log).wf(),
        final(log).entries@ == old(log).entries@,
        old(log).pointer == 0 ==> r == Result::<Vec<LogEntry>, OplogError>::Err(
            OplogError::NothingToUndo,
        ) && final(log).pointer == old(log).pointer,
        old(log).pointer > 0 ==> {
            let k = if count <= old(log).pointer {
                count as int
            } else {
                old(log).pointer as int
            };
            &&& final(log).pointer == old(log).pointer - k
            &&& r matches Ok(v) && v@.len() == k && (forall|i: int|
                0 <= i < k ==> entry_eq(
                    #[trigger] v@[i],
                    old(log).entries@[old(log).pointer - k + i],
                ))
        },
{
    if log.pointer == 0 {
        return Err(OplogError::NothingToUndo);
    }
    let actual = if count <= log.pointer {
        count
    } else {
        log.pointer
    };
    let new_pointer = log.pointer - actual;
    let mut undone: Vec<LogEntry> = Vec::new();
    let mut i = new_pointer;
    while i < log.pointer
        invariant
            new_pointer <= i <= log.pointer,
            log.wf(),
            log == old(log),
            undone@.len() == i - new_pointer,
            forall|j: int|
                0 <= j < undone@.len() ==> entry_eq(
                    #[trigger] undone@[j],
                    log.entries@[new_pointer + j],
                ),
        decreases log.pointer - i,
    {
        undone.push(clone_entry(&log.entries[i]));
        i = i + 1;
    }
    log.pointer = new_pointer;
    Ok(undone)
}

/// Move the pointer forward for redo: it grows by at most the number of
/// undone entries — it can never pass the total — and the re-activated
/// entries are returned in order. With nothing undone there is nothing to
/// redo and nothing changes.
pub fn push_for_redo(log: &mut OpLog, count: usize) -> (r: Result<Vec<LogEntry>, OplogError>)
    requires
        old(log).wf(),
    ensures
        final(log).wf(),
        final(log).entries@ == old(log).entries@,
        old(log).pointer == old(log).entries@.len() ==> r == Result::<
            Vec<LogEntry>,
            OplogError,
        >::Err(OplogError::NothingToRedo) && final(log).pointer == old(log).pointer,
        old(log).pointer < old(log).entries@.len() ==> {
            let undone = old(log).entries@.len() - old(log).pointer;
            let k = if count <= undone {
                count as int
            } else {
                undone as int
            };
            &&& final(log).pointer == old(log).pointer + k
            &&& final(log).pointer <= final(log).entries@.len()
            &&& r matches Ok(v) && v@.len() == k && (forall|i: int|
                0 <= i < k ==> entry_eq(#[trigger] v@[i], old(log).entries@[old(log).pointer + i]))
        },
{
    let undone_count = log.entries.len() - log.pointer;
    if undone_count == 0 {
        return Err(OplogError::NothingToRedo);
    }
    let actual = if count <= undone_count {
        count
    } else {
        undone_count
    };
    let new_pointer = log.pointer + actual;
    let mut redone: Vec<LogEntry> = Vec::new();
    let mut i = log.pointer;
    while i < new_pointer
        invariant
            log.pointer <= i <= new_pointer,
            new_pointer <= log.entries@.len(),
            log == old(log),
            redone@.len() == i - log.pointer,
            forall|j: int|
                0 <= j < redone@.len() ==> entry_eq(
                    #[trigger] redone@[j],
                    log.entries@[log.pointer + j],
                ),
        decreases new_pointer - i,
    {
        redone.push(clone_entry(&log.entries[i]));
        i = i + 1;
    }
    log.pointer = new_pointer;
    Ok(redone)
}

/// The active entries: everything below the pointer, in order.
pub fn active_entries(log: &OpLog) -> (r: Vec<LogEntry>)
    requires
        log.wf(),
    ensures
        r@.len() == log.pointer,
        forall|i: int|
            0 <= i < log.pointer ==> entry_eq(#[trigger] r@[i], log.entries@[i]),
{
    let mut r: Vec<LogEntry> = Vec::new();
    let mut i: usize = 0;
    while i < log.pointer
        invariant
            i <= log.pointer,
            log.wf(),
            r@.len() == i,
            forall|j: int| 0 <= j < i ==> entry_eq(#[trigger] r@[j], log.entries@[j]),
        decreases log.pointer - i,
    {
        r.push(clone_entry(&log.entries[i]));
        i = i + 1;
    }
    r
}

/// The header and a copy of every entry, active and undone.
pub fn read_log(log: &OpLog) -> (r: (LogHeader, Vec<LogEntry>))
    requires
        log.wf(),
    ensures
        r.0 == (LogHeader { pointer: log.pointer, total: log.entries@.len() as usize }),
        r.1@.len() == log.entries@.len(),
        forall|i: int|
            0 <= i < log.entries@.len() ==> entry_eq(#[trigger] r.1@[i], log.entries@[i]),
{
    let header = LogHeader { pointer: log.pointer, total: log.entries.len() };
    let mut out: Vec<LogEntry> = Vec::new();
    let mut i: usize = 0;
    while i < log.entries.len()
        invariant
            i <= log.entries@.len(),
            out@.len() == i,
            forall|j: int| 0 <= j < i ==> entry_eq(#[trigger] out@[j], log.entries@[j]),
        decreases log.entries@.len() - i,
    {
        out.push(clone_entry(&log.entries[i]));
        i = i + 1;
    }
    (header, out)
}

/// Derive the log file's path from the project file's path by the fixed
/// suffix.
pub fn log_path(project_path: &str) -> (r: String)
    ensures
        r@ == project_path@ + ".log"@,
{
    let mut p = String::from_str(project_path);
    p.append(".log");
    p
}

/// An exact copy of a log cell.
fn clone_log_cell(c: &LogCell) -> (r: LogCell)
    ensures
        r == *c,
{
    LogCell {
        ch: c.ch,
        fg: match &c.fg {
            Some(s) => Some(s.clone()),
            None => None,
        },
        bg: match &c.bg {
            Some(s) => Some(s.clone()),
            None => None,
        },
    }
}

/// An exact copy of a log mutation.
fn clone_log_mutation(m: &LogMutation) -> (r: LogMutation)
    ensures
        r == *m,
{
    LogMutation { x: m.x, y: m.y, old: clone_log_cell(&m.old), new: clone_log_cell(&m.new) }
}

/// Two entries hold the same record.
pub open spec fn entry_eq(a: LogEntry, b: LogEntry) -> bool {
    &&& a.timestamp == b.timestamp
    &&& a.command == b.command
    &&& a.mutations@ == b.mutations@
}

/// A record-for-record copy of a log entry.
pub fn clone_entry(e: &LogEntry) -> (r: LogEntry)
    ensures
        entry_eq(r, *e),
{
    let mut mutations: Vec<LogMutation> = Vec::new();
    let mut i: usize = 0;
    while i < e.mutations.len()
        invariant
            i <= e.mutations@.len(),
            mutations@ =~= e.mutations@.subrange(0, i as int),
        decreases e.mutations@.len() - i,
    {
        mutations.push(clone_log_mutation(&e.mutations[i]));
        i = i + 1;
        proof {
            assert(mutations@ =~= e.mutations@.subrange(0, i as int));
        }
    }
    proof {
        assert(e.mutations@.subrange(0, e.mutations@.len() as int) =~= e.mutations@);
        assert(mutations@ == e.mutations@);
    }
    LogEntry { timestamp: e.timestamp.clone(), command: e.command.clone(), mutations }
}

/// A log cell carries a cell's glyph and the portable names of its colors.
pub open spec fn log_cell_matches(lc: LogCell, c: Cell) -> bool {
    &&& lc.ch == c.ch
    &&& match c.fg {
        Some(rgb) => lc.fg matches Some(s) && s@ == hex_name_spec(rgb),
        None => lc.fg is None,
    }
    &&& match c.bg {
        Some(rgb) => lc.bg matches Some(s) && s@ == hex_name_spec(rgb),
        None => lc.bg is None,
    }
}

/// The cell a log cell decodes to: each color name is parsed back, and an
/// unparsable name decodes to no color.
pub open spec fn log_cell_decodes(lc: LogCell, c: Cell) -> bool {
    &&& c.ch == lc.ch
    &&& c.fg == (match lc.fg {
        Some(s) => parse_hex_spec(s@),
        None => None,
    })
    &&& c.bg == (match lc.bg {
        Some(s) => parse_hex_spec(s@),
        None => None,
    })
}

impl LogCell {
    /// Encode a cell into the external representation.
    pub fn from_cell(cell: &Cell) -> (r: LogCell)
        ensures
            log_cell_matches(r, *cell),
    {
        LogCell {
            ch: cell.ch,
            fg: match &cell.fg {
                Some(rgb) => Some(rgb.name()),
                None => None,
            },
            bg: match &cell.bg {
                Some(rgb) => Some(rgb.name()),
                None => None,
            },
        }
    }

    /// Decode the external representation back into a cell.
    pub fn to_cell(&self) -> (r: Cell)
        ensures
            log_cell_decodes(*self, r),
    {
        Cell {
            ch: self.ch,
            fg: match &self.fg {
                Some(s) => crate::cell::parse_hex_color(s.as_str()),
                None => None,
            },
            bg: match &self.bg {
                Some(s) => crate::cell::parse_hex_color(s.as_str()),
                None => None,
            },
        }
    }
}

/// **Log cell round trip**: decoding an encoded cell gives back exactly
/// the cell, color for color.
pub proof fn lemma_log_cell_roundtrip(lc: LogCell, c: Cell, d: Cell)
    requires
        log_cell_matches(lc, c),
        log_cell_decodes(lc, d),
    ensures
        d == c,
{
    match c.fg {
        Some(rgb) => {
            crate::cell::lemma_hex_roundtrip(rgb);
        },
        None => {},
    }
    match c.bg {
        Some(rgb) => {
            crate::cell::lemma_hex_roundtrip(rgb);
        },
        None => {},
    }
}

/// Decode an entry's mutations back to cell mutations, each cell parsed
/// from its portable form.
pub fn decode_mutations(e: &LogEntry) -> (r: Vec<CellMutation>)
    ensures
        r@.len() == e.mutations@.len(),
        forall|i: int|
            0 <= i < r@.len() ==> (#[trigger] r@[i]).x == e.mutations@[i].x && r@[i].y
                == e.mutations@[i].y && log_cell_decodes(e.mutations@[i].old, r@[i].old)
                && log_cell_decodes(e.mutations@[i].new, r@[i].new),
{
    let mut r: Vec<CellMutation> = Vec::new();
    let mut i: usize = 0;
    while i < e.mutations.len()
        invariant
            i <= e.mutations@.len(),
            r@.len() == i,
            forall|j: int|
                0 <= j < i ==> (#[trigger] r@[j]).x == e.mutations@[j].x && r@[j].y
                    == e.mutations@[j].y && log_cell_decodes(e.mutations@[j].old, r@[j].old)
                    && log_cell_decodes(e.mutations@[j].new, r@[j].new),
        decreases e.mutations@.len() - i,
    {
        let m = &e.mutations[i];
        r.push(CellMutation { x: m.x, y: m.y, old: m.old.to_cell(), new: m.new.to_cell() });
        i = i + 1;
    }
    r
}

/// A log mutation carries one cell mutation, both cells encoded.
pub open spec fn log_mutation_matches(lm: LogMutation, m: CellMutation) -> bool {
    &&& lm.x == m.x
    &&& lm.y == m.y
    &&& log_cell_matches(lm.old, m.old)
    &&& log_cell_matches(lm.new, m.new)
}

impl LogMutation {
    /// Encode a cell mutation into the external representation.
    pub fn from_cell_mutation(m: &CellMutation) -> (r: LogMutation)
        ensures
            log_mutation_matches(r, *m),
    {
        LogMutation {
            x: m.x,
            y: m.y,
            old: LogCell::from_cell(&m.old),
            new: LogCell::from_cell(&m.new),
        }
    }
}

/// Build a log entry for a command from the mutations it applied, encoding
/// each mutation in order, stamped with the given time.
pub fn make_entry(command: &str, mutations: &[CellMutation], timestamp: String) -> (r: LogEntry)
    ensures
        r.command@ == command@,
        r.timestamp == timestamp,
        r.mutations@.len() == mutations@.len(),
        forall|i: int|
            0 <= i < mutations@.len() ==> log_mutation_matches(
                #[trigger] r.mutations@[i],
                mutations@[i],
            ),
{
    let mut ms: Vec<LogMutation> = Vec::new();
    let mut i: usize = 0;
    while i < mutations.len()
        invariant
            i <= mutations@.len(),
            ms@.len() == i,
            forall|j: int|
                0 <= j < i ==> log_mutation_matches(#[trigger] ms@[j], mutations@[j]),
        decreases mutations@.len() - i,
    {
        ms.push(LogMutation::from_cell_mutation(&mutations[i]));
        i = i + 1;
    }
    LogEntry {
        timestamp,
        command: String::from_str(command),
        mutations: ms,
    }
}

/// **Redo-clear law** (persisted): `append` leaves the pointer at the
/// total, and with the pointer at the total nothing is undone, so a
/// following redo must refuse.
pub proof fn lemma_append_clears_redo(log: OpLog)
    requires
        log.wf(),
        log.pointer == log.entries@.len(),
    ensures
        log.entries@.len() - log.pointer == 0,
{
}

/// **Pruning law**: appending past the entry cap keeps exactly the cap's
/// worth of most-recent entries; the oldest are dropped first.
pub proof fn lemma_append_prunes(p: int, es: Seq<LogEntry>, e: LogEntry)
    requires
        0 <= p <= es.len(),
    ensures
        appended_entries(p, es, e).len() == if p + 1 > MAX_LOG_ENTRIES {
            MAX_LOG_ENTRIES as int
        } else {
            p + 1
        },
        appended_entries(p, es, e).last() == e,
        forall|i: int|
            0 <= i < appended_entries(p, es, e).len() - 1 ==> #[trigger] appended_entries(
                p,
                es,
                e,
            )[i] == es[p - (appended_entries(p, es, e).len() - 1) + i],
{
    let t = es.take(p).push(e);
    if t.len() > MAX_LOG_ENTRIES {
        let out = t.skip(t.len() - MAX_LOG_ENTRIES);
        assert(out.last() == t.last());
    }
}

} // verus!
