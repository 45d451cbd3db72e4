use panel_driver::encoder::encode_command_writes;
use panel_driver::errors::InitSequenceError;
use panel_driver::sequencer::plan_table;
use panel_driver::sequencer::BusAction;
use panel_driver::sequencer::InitSequencer;
use panel_driver::sequencer::SequencerState;
use panel_driver::sequencer::TableEntry;

fn write_actions(opcode: u8, params: &[u8]) -> Vec<BusAction> {
    encode_command_writes(opcode, &params.to_vec())
        .into_iter()
        .map(BusAction::Write)
        .collect()
}

#[test]
fn timing_entries_block_in_order() {
    // Sleep-out, long wait, display-on, short wait: the plan must hold the
    // 120 ms wait between the two commands and the 20 ms wait after the
    // second, before anything else may happen.
    let table = vec![
        TableEntry::Command(0x11, vec![]),
        TableEntry::Delay(120),
        TableEntry::Command(0x29, vec![]),
        TableEntry::Delay(20),
    ];
    let plan = plan_table(&table);

    let mut expected = write_actions(0x11, &[]);
    expected.push(BusAction::Wait(120));
    expected.extend(write_actions(0x29, &[]));
    expected.push(BusAction::Wait(20));
    assert_eq!(plan, expected);

    // Independently of how commands encode: exactly two waits, 120 then 20,
    // the first strictly between the commands, the second last of all.
    let waits: Vec<(usize, u32)> = plan
        .iter()
        .enumerate()
        .filter_map(|(i, a)| match a {
            BusAction::Wait(ms) => Some((i, *ms)),
            BusAction::Write(_) => None,
        })
        .collect();
    assert_eq!(waits.len(), 2);
    assert_eq!(waits[0].1, 120);
    assert_eq!(waits[1].1, 20);
    assert!(waits[0].0 > 0, "writes of the first command come before the long wait");
    assert!(waits[1].0 > waits[0].0 + 1, "writes of the second command sit between the waits");
    assert_eq!(waits[1].0, plan.len() - 1, "the short wait ends the sequence");
}

#[test]
fn sequencer_replays_table_front_to_back() {
    let table = vec![
        TableEntry::Command(0xF0, vec![0x55, 0xAA, 0x52, 0x08, 0x00]),
        TableEntry::Delay(120),
        TableEntry::Command(0x29, vec![]),
    ];
    let mut seq = InitSequencer::new(table);
    assert_eq!(seq.state, SequencerState::NotStarted);
    assert_eq!(seq.outcome(), None);

    seq.begin();
    let mut replayed: Vec<BusAction> = Vec::new();
    let mut steps = 0;
    while let Some(actions) = seq.next_actions() {
        replayed.extend(actions);
        seq.advance(true);
        steps += 1;
        assert!(steps <= 3, "strictly forward, one visit per entry");
    }
    assert_eq!(seq.state, SequencerState::Complete);
    assert_eq!(seq.outcome(), Some(Ok(())));
    assert_eq!(steps, 3);

    let table_again = vec![
        TableEntry::Command(0xF0, vec![0x55, 0xAA, 0x52, 0x08, 0x00]),
        TableEntry::Delay(120),
        TableEntry::Command(0x29, vec![]),
    ];
    assert_eq!(replayed, plan_table(&table_again));
}

#[test]
fn bus_fault_fails_at_the_faulting_entry() {
    let table = vec![
        TableEntry::Command(0x11, vec![]),
        TableEntry::Delay(120),
        TableEntry::Command(0x29, vec![]),
    ];
    let mut seq = InitSequencer::new(table);
    seq.begin();
    assert_eq!(seq.state, SequencerState::Running(0));
    seq.advance(true);
    assert_eq!(seq.state, SequencerState::Running(1));
    seq.advance(false);
    assert_eq!(seq.state, SequencerState::Failed(1));
    match seq.outcome() {
        Some(Err(InitSequenceError { index, .. })) => assert_eq!(index, 1),
        other => panic!("expected a failure at entry 1, got {:?}", other),
    }
    assert_eq!(seq.next_actions(), None, "no resume path after a failure");
}

#[test]
fn empty_table_completes_at_once() {
    let mut seq = InitSequencer::new(vec![]);
    seq.begin();
    assert_eq!(seq.state, SequencerState::Complete);
    assert_eq!(seq.outcome(), Some(Ok(())));
}

#[test]
fn delay_entry_plans_a_single_wait() {
    let plan = plan_table(&vec![TableEntry::Delay(5)]);
    assert_eq!(plan, vec![BusAction::Wait(5)]);
}
