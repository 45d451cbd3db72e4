//! Initialization sequencer.
//!
//! The panel needs a vendor-given ordered table of entries replayed exactly
//! once before it renders: a `Command` entry sends an opcode byte and its
//! parameter bytes through the bit-serial encoder, a `Delay` entry blocks for
//! the given number of milliseconds. Order and delay magnitudes carry the
//! panel's power-sequencing requirements and are never reordered, merged or
//! shortened. A bus fault anywhere is fatal to initialization: the sequencer
//! never skips ahead or retries, it only records where bring-up failed.
//!
//! The sequencer decides; the hardware shell acts. For the current entry the
//! sequencer hands out the planned bus actions, the shell performs them and
//! reports back, and the sequencer moves strictly forward:
//! `NotStarted -> Running(index) -> Complete | Failed(index)`.

use vstd::prelude::*;

use crate::encoder::command_writes;
use crate::encoder::encode_command_writes;
use crate::errors::InitSequenceError;
use crate::errors::BusError;

verus! {

/// One entry of the panel's initialization table: a command byte with its
/// ordered parameter bytes, or a blocking delay in milliseconds.
pub enum TableEntry {
    Command(u8, Vec<u8>),
    Delay(u32),
}

/// Mathematical shape of a table entry.
pub enum TableEntryView {
    Command(u8, Seq<u8>),
    Delay(u32),
}

impl View for TableEntry {
    type V = TableEntryView;

    open spec fn view(&self) -> TableEntryView {
        match self {
            TableEntry::Command(opcode, params) => TableEntryView::Command(*opcode, params@),
            TableEntry::Delay(ms) => TableEntryView::Delay(*ms),
        }
    }
}

/// One action the hardware shell must perform: a write of the expander's
/// output register, or a blocking wait in milliseconds.
#[derive(Clone, Copy, PartialEq, Eq, Structural, Debug)]
pub enum BusAction {
    Write(u8),
    Wait(u32),
}

/// The ordered bus actions of one table entry: every register write of the
/// entry's command, or its single wait.
pub open spec fn entry_actions(e: TableEntryView) -> Seq<BusAction> {
    match e {
        TableEntryView::Command(opcode, params) => command_writes(opcode, params).map_values(
            |v: u8| BusAction::Write(v),
        ),
        TableEntryView::Delay(ms) => seq![BusAction::Wait(ms)],
    }
}

/// The ordered bus actions of a whole table, entry after entry.
pub open spec fn table_actions(t: Seq<TableEntry>) -> Seq<BusAction>
    decreases t.len(),
{
    if t.len() == 0 {
        seq![]
    } else {
        table_actions(t.drop_last()) + entry_actions(t.last()@)
    }
}

/// Computes the bus actions of one table entry.
pub fn plan_entry(e: &TableEntry) -> (acts: Vec<BusAction>)
    ensures
        acts@ == entry_actions(e@),
{
    match e {
        TableEntry::Command(opcode, params) => {
            let writes = encode_command_writes(*opcode, params);
            let mut acts: Vec<BusAction> = Vec::new();
            let mut k: usize = 0;
            while k < writes.len()
                invariant
                    k <= writes@.len(),
                    acts@ == writes@.take(k as int).map_values(|v: u8| BusAction::Write(v)),
                decreases writes@.len() - k,
            {
                acts.push(BusAction::Write(writes[k]));
                proof {
                    assert(writes@.take(k + 1).map_values(|v: u8| BusAction::Write(v)) =~= writes@
                        .take(k as int).map_values(|v: u8| BusAction::Write(v)).push(
                        BusAction::Write(writes@[k as int]),
                    ));
                }
                k = k + 1;
            }
            proof {
                assert(writes@.take(writes@.len() as int) =~= writes@);
            }
            acts
        },
        TableEntry::Delay(ms) => {
            let mut acts: Vec<BusAction> = Vec::new();
            acts.push(BusAction::Wait(*ms));
            proof {
                assert(acts@ =~= entry_actions(e@));
            }
            acts
        },
    }
}

/// Computes the bus actions of a whole table, in table order. This is the
/// fault-free plan: replaying it on a bus that never fails initializes the
/// panel; fault handling lives in `InitSequencer`.
pub fn plan_table(table: &Vec<TableEntry>) -> (acts: Vec<BusAction>)
    ensures
        acts@ == table_actions(table@),
{
    let mut acts: Vec<BusAction> = Vec::new();
    let mut k: usize = 0;
    while k < table.len()
        invariant
            k <= table@.len(),
            acts@ == table_actions(table@.take(k as int)),
        decreases table@.len() - k,
    {
        let entry_acts = plan_entry(&table[k]);
        let mut i: usize = 0;
        while i < entry_acts.len()
            invariant
                i <= entry_acts@.len(),
                acts@ == table_actions(table@.take(k as int)) + entry_acts@.take(i as int),
                k < table@.len(),
                entry_acts@ == entry_actions(table@[k as int]@),
            decreases entry_acts@.len() - i,
        {
            acts.push(entry_acts[i]);
            proof {
                assert(table_actions(table@.take(k as int)) + entry_acts@.take(i + 1)
                    =~= (table_actions(table@.take(k as int)) + entry_acts@.take(i as int)).push(
                    entry_acts@[i as int],
                ));
            }
            i = i + 1;
        }
        proof {
            assert(entry_acts@.take(entry_acts@.len() as int) =~= entry_acts@);
            assert(table@.take(k + 1).drop_last() =~= table@.take(k as int));
            assert(table@.take(k + 1).last() == table@[k as int]);
        }
        k = k + 1;
    }
    proof {
        assert(table@.take(table@.len() as int) =~= table@);
    }
    acts
}

/// Where the sequencer stands: it moves strictly forward and never resumes
/// after a failure.
#[derive(Clone, Copy, PartialEq, Eq, Structural, Debug)]
pub enum SequencerState {
    NotStarted,
    Running(usize),
    Complete,
    Failed(usize),
}

/// Replays the initialization table once, entry by entry, through the
/// hardware shell: `next_actions` hands out the current entry's plan,
/// `advance` consumes the shell's report and steps the state machine.
pub struct InitSequencer {
    pub table: Vec<TableEntry>,
    pub state: SequencerState,
}

impl InitSequencer {
    /// A running or failed index always points into the table.
    pub open spec fn wf(self) -> bool {
        match self.state {
            SequencerState::NotStarted => true,
            SequencerState::Running(i) => i < self.table@.len(),
            SequencerState::Complete => true,
            SequencerState::Failed(i) => i < self.table@.len(),
        }
    }

    /// Takes ownership of the panel's initialization table, not yet started.
    pub fn new(table: Vec<TableEntry>) -> (s: Self)
        ensures
            s.wf(),
            s.state == SequencerState::NotStarted,
            s.table@ == table@,
    {
        InitSequencer { table, state: SequencerState::NotStarted }
    }

    /// Starts the one-time replay: the sequencer stands at the first entry,
    /// or is already complete when the table is empty.
    pub fn begin(&mut self)
        requires
            old(self).wf(),
            old(self).state == SequencerState::NotStarted,
        ensures
            final(self).wf(),
            final(self).table@ == old(self).table@,
            final(self).state == if old(self).table@.len() == 0 {
                SequencerState::Complete
            } else {
                SequencerState::Running(0usize)
            },
    {
        if self.table.len() == 0 {
            self.state = SequencerState::Complete;
        } else {
            self.state = SequencerState::Running(0);
        }
    }

    /// The bus actions of the entry the sequencer stands at; nothing once it
    /// is complete or failed.
    pub fn next_actions(&self) -> (acts: Option<Vec<BusAction>>)
        requires
            self.wf(),
        ensures
            match self.state {
                SequencerState::Running(i) => acts matches Some(a) && a@ == entry_actions(
                    self.table@[i as int]@,
                ),
                _ => acts is None,
            },
    {
        match self.state {
            SequencerState::Running(i) => Some(plan_entry(&self.table[i])),
            _ => None,
        }
    }

    /// Consumes the shell's report on the current entry: on success the
    /// sequencer moves to the next entry (or completes after the last one);
    /// on a bus fault it fails at the current index, with no resume path.
    pub fn advance(&mut self, ok: bool)
        requires
            old(self).wf(),
            old(self).state matches SequencerState::Running(_),
        ensures
            final(self).wf(),
            final(self).table@ == old(self).table@,
            old(self).state matches SequencerState::Running(i) ==> final(self).state == if !ok {
                SequencerState::Failed(i)
            } else if i + 1 == old(self).table@.len() {
                SequencerState::Complete
            } else {
                SequencerState::Running((i + 1) as usize)
            },
    {
        match self.state {
            SequencerState::Running(i) => {
                let n = self.table.len();
                assert(i < n);
                if !ok {
                    self.state = SequencerState::Failed(i);
                } else if i + 1 == n {
                    self.state = SequencerState::Complete;
                } else {
                    self.state = SequencerState::Running(i + 1);
                }
            },
            _ => {},
        }
    }

    /// The result of initialization: success once complete, the failing
    /// table index once failed, nothing while still under way.
    pub fn outcome(&self) -> (r: Option<Result<(), InitSequenceError>>)
        ensures
            match self.state {
                SequencerState::Complete => r == Some(Ok::<(), InitSequenceError>(())),
                SequencerState::Failed(i) => r == Some(
                    Err::<(), InitSequenceError>(InitSequenceError { index: i, error: BusError }),
                ),
                _ => r is None,
            },
    {
        match self.state {
            SequencerState::Complete => Some(Ok(())),
            SequencerState::Failed(i) => Some(Err(InitSequenceError { index: i, error: BusError })),
            _ => None,
        }
    }
}

} // verus!
