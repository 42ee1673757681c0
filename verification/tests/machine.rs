use lmc::assembler::Assembler;
use lmc::lmc::{parse_input, Execution, LMCError, LMC};
use lmc::logger::{LogEvent, LogLevel};
use lmc::numbers::{Flag, NumberError, ThreeDigitNumber, TwoDigitNumber};

fn word(v: i16) -> ThreeDigitNumber {
    ThreeDigitNumber::new(v).unwrap()
}

fn program(words: &[i16]) -> Vec<ThreeDigitNumber> {
    words.iter().map(|v| word(*v)).collect()
}

fn machine(words: &[i16], max_cycles: usize) -> LMC {
    let mut lmc = LMC::new(false, false, false, max_cycles);
    lmc.load_program(&program(words)).unwrap();
    lmc
}

fn info(message: &str) -> LogEvent {
    LogEvent { level: LogLevel::Info, message: message.to_string() }
}

fn debug(message: &str) -> LogEvent {
    LogEvent { level: LogLevel::Debug, message: message.to_string() }
}

fn address(v: u8) -> TwoDigitNumber {
    TwoDigitNumber::new(v).unwrap()
}

#[test]
fn a_new_machine_is_all_zero() {
    let lmc = LMC::new(false, true, true, 50);
    assert_eq!(lmc.accumulator(), word(0));
    assert_eq!(lmc.counter(), address(0));
    assert_eq!(lmc.flag(), None);
    assert_eq!(lmc.get_output(), None);
    assert_eq!(lmc.max_cycles(), 50);
    assert_eq!(lmc.cycles(), 0);
    assert_eq!(lmc.pending_inputs(), 0);
    for a in 0..100u8 {
        assert_eq!(lmc.mailbox(address(a)), word(0));
    }
    assert_eq!(lmc.logger(), lmc::logger::Logger::new(false, true));
}

#[test]
fn end_to_end_example_halts_after_writing_eight() {
    let mut source: Vec<String> = [
        "LOOP LDA FIRST",
        "ADD SECOND",
        "STO RESULT",
        "OUT",
        "HLT",
        "FIRST DAT 5",
        "SECOND DAT 3",
        "RESULT DAT 0",
    ]
    .iter()
    .map(|l| l.to_string())
    .collect();
    let words = Assembler::new(false, false)
        .try_assemble(&mut source)
        .unwrap()
        .unwrap();
    let mut lmc = LMC::new(false, false, false, 1000);
    lmc.load_program(&words).unwrap();
    assert_eq!(lmc.execute_program(), Ok(Execution::Halted));
    assert_eq!(lmc.get_output(), Some(word(8)));
    assert_eq!(lmc.take_shown(), vec![word(8)]);
    assert_eq!(lmc.mailbox(address(7)), word(8));
    assert_eq!(lmc.counter(), address(4));
    assert_eq!(lmc.cycles(), 5);
    assert_eq!(lmc.show_output(), Some("8".to_string()));
}

#[test]
fn load_program_leaves_the_other_mailboxes() {
    let mut lmc = machine(&[111, 222, 333], 10);
    lmc.load_program(&program(&[9])).unwrap();
    assert_eq!(lmc.mailbox(address(0)), word(9));
    assert_eq!(lmc.mailbox(address(1)), word(222));
    assert_eq!(lmc.mailbox(address(2)), word(333));
    assert_eq!(lmc.mailbox(address(3)), word(0));
    lmc.load_program(&program(&[])).unwrap();
    assert_eq!(lmc.mailbox(address(0)), word(9));
}

#[test]
fn load_program_refuses_more_than_a_hundred_words() {
    let mut lmc = machine(&[123], 10);
    assert_eq!(
        lmc.load_program(&program(&[1; 101])),
        Err(LMCError::ProgramTooLarge(101))
    );
    assert_eq!(lmc.mailbox(address(0)), word(123));
    assert_eq!(lmc.mailbox(address(1)), word(0));
    assert_eq!(lmc.load_program(&program(&[7; 100])), Ok(()));
    assert_eq!(lmc.mailbox(address(99)), word(7));
}

#[test]
fn a_self_branch_fails_when_the_count_reaches_the_maximum() {
    for n in [1usize, 2, 3, 10, 1000] {
        let mut lmc = machine(&[600], n);
        assert_eq!(lmc.execute_program(), Err(LMCError::MaxCyclesHit(n)));
        assert_eq!(lmc.cycles(), n);
        assert_eq!(lmc.counter(), address(0));
    }
}

#[test]
fn the_cycle_whose_count_is_the_maximum_is_not_carried_out() {
    // LDA 3, OUT, HLT takes three cycles: a maximum of three stops it
    // before the halt, a maximum of four lets it halt.
    let words = [503, 902, 0, 42];
    let mut lmc = machine(&words, 3);
    assert_eq!(lmc.execute_program(), Err(LMCError::MaxCyclesHit(3)));
    assert_eq!(lmc.get_output(), Some(word(42)));
    assert_eq!(lmc.counter(), address(2));
    let mut lmc = machine(&words, 4);
    assert_eq!(lmc.execute_program(), Ok(Execution::Halted));
    assert_eq!(lmc.cycles(), 3);
    let mut lmc = machine(&words, 1);
    assert_eq!(lmc.execute_program(), Err(LMCError::MaxCyclesHit(1)));
    assert_eq!(lmc.get_output(), None);
    assert_eq!(lmc.accumulator(), word(0));
}

#[test]
fn each_run_has_a_fresh_budget() {
    let mut lmc = machine(&[503, 902, 0, 42], 4);
    for _ in 0..5 {
        assert_eq!(lmc.execute_program(), Ok(Execution::Halted));
        assert_eq!(lmc.cycles(), 3);
        lmc.reset_counter();
    }
    lmc.set_max_cycles(2);
    assert_eq!(lmc.max_cycles(), 2);
    assert_eq!(lmc.execute_program(), Err(LMCError::MaxCyclesHit(2)));
}

#[test]
fn in_reads_from_the_queue_first() {
    let mut lmc = machine(&[901, 902, 901, 902, 0], 100);
    lmc.load_input(&program(&[11]));
    lmc.load_input(&program(&[22, 33]));
    assert_eq!(lmc.pending_inputs(), 3);
    assert_eq!(lmc.execute_program(), Ok(Execution::Halted));
    assert_eq!(lmc.get_output(), Some(word(22)));
    assert_eq!(lmc.take_shown(), vec![word(11), word(22)]);
    assert_eq!(lmc.pending_inputs(), 1);
}

#[test]
fn in_with_an_empty_queue_takes_the_value_from_outside() {
    let mut lmc = machine(&[901, 0], 100);
    assert_eq!(lmc.execute_program(), Ok(Execution::AwaitingInput));
    assert_eq!(lmc.counter(), address(0));
    assert_eq!(lmc.cycles(), 1);
    assert_eq!(lmc.resume("007"), Ok(Execution::Halted));
    assert_eq!(lmc.accumulator().value(), 7);
    assert_eq!(lmc.accumulator().flag(), None);
    assert_eq!(lmc.counter(), address(1));
    assert_eq!(lmc.cycles(), 2);
}

#[test]
fn in_refuses_a_value_that_is_no_integer() {
    let mut lmc = machine(&[901, 0], 100);
    lmc.load_program(&program(&[901, 0])).unwrap();
    assert_eq!(lmc.execute_program(), Ok(Execution::AwaitingInput));
    assert_eq!(
        lmc.resume("abc"),
        Err(LMCError::IOError("invalid digit found in string".to_string()))
    );
    assert_eq!(lmc.accumulator(), word(0));
    assert_eq!(lmc.counter(), address(0));
    assert_eq!(
        lmc.resume("\n"),
        Err(LMCError::IOError(
            "cannot parse integer from empty string".to_string()
        ))
    );
    assert_eq!(
        lmc.resume("99999999999999999999"),
        Err(LMCError::IOError(
            "number too large to fit in target type".to_string()
        ))
    );
    assert_eq!(
        lmc.resume("12 34"),
        Err(LMCError::IOError("invalid digit found in string".to_string()))
    );
}

#[test]
fn in_refuses_a_value_out_of_range() {
    let mut lmc = machine(&[901, 0], 100);
    assert_eq!(lmc.execute_program(), Ok(Execution::AwaitingInput));
    assert_eq!(
        lmc.resume("1000"),
        Err(LMCError::NumberError(NumberError::OutOfBounds(1000)))
    );
    assert_eq!(
        lmc.resume("-1\n"),
        Err(LMCError::NumberError(NumberError::OutOfBounds(-1)))
    );
    assert_eq!(
        lmc.resume("40000"),
        Err(LMCError::NumberError(NumberError::OutOfBounds(40000)))
    );
    assert_eq!(
        lmc.resume("99999"),
        Err(LMCError::NumberError(NumberError::OutOfBounds(99999)))
    );
    assert_eq!(
        lmc.resume("-9223372036854775808"),
        Err(LMCError::NumberError(NumberError::OutOfBounds(i64::MIN)))
    );
    assert_eq!(lmc.accumulator(), word(0));
    assert_eq!(lmc.counter(), address(0));
    // The run is still waiting, and a good value lets it go on.
    assert_eq!(lmc.resume(" 999 \r\n"), Ok(Execution::Halted));
    assert_eq!(lmc.accumulator(), word(999));
}

#[test]
fn parse_input_reads_a_trimmed_line() {
    assert_eq!(parse_input("007"), Ok(word(7)));
    assert_eq!(parse_input("  12\n"), Ok(word(12)));
    assert_eq!(parse_input("+5"), Ok(word(5)));
    assert_eq!(
        parse_input("abc"),
        Err(LMCError::IOError("invalid digit found in string".to_string()))
    );
    assert_eq!(
        parse_input("1000"),
        Err(LMCError::NumberError(NumberError::OutOfBounds(1000)))
    );
    assert_eq!(
        parse_input("-32769"),
        Err(LMCError::NumberError(NumberError::OutOfBounds(-32769)))
    );
    assert_eq!(
        parse_input("40000"),
        Err(LMCError::NumberError(NumberError::OutOfBounds(40000)))
    );
    assert_eq!(
        parse_input("9223372036854775807"),
        Err(LMCError::NumberError(NumberError::OutOfBounds(i64::MAX)))
    );
    assert_eq!(
        parse_input("9223372036854775808"),
        Err(LMCError::IOError(
            "number too large to fit in target type".to_string()
        ))
    );
    assert_eq!(
        parse_input("-9223372036854775809"),
        Err(LMCError::IOError(
            "number too small to fit in target type".to_string()
        ))
    );
    assert_eq!(
        parse_input(""),
        Err(LMCError::IOError(
            "cannot parse integer from empty string".to_string()
        ))
    );
}

#[test]
fn accept_input_serves_one_in() {
    let mut lmc = machine(&[901, 0], 100);
    assert_eq!(lmc.accept_input("42"), Ok(()));
    assert_eq!(lmc.accumulator(), word(42));
    assert_eq!(lmc.counter(), address(1));
    assert_eq!(
        lmc.accept_input("x"),
        Err(LMCError::IOError("invalid digit found in string".to_string()))
    );
    assert_eq!(lmc.accumulator(), word(42));
    assert_eq!(lmc.counter(), address(1));
}

#[test]
fn a_run_that_waits_keeps_its_budget() {
    // IN, BR 0: each cycle pair asks for one value.
    let mut lmc = machine(&[901, 600], 4);
    assert_eq!(lmc.execute_program(), Ok(Execution::AwaitingInput));
    assert_eq!(lmc.cycles(), 1);
    assert_eq!(lmc.resume("1"), Ok(Execution::AwaitingInput));
    assert_eq!(lmc.cycles(), 3);
    assert_eq!(lmc.resume("2"), Err(LMCError::MaxCyclesHit(4)));
    assert_eq!(lmc.accumulator(), word(2));
}

#[test]
fn brp_branches_on_zero_without_a_flag() {
    let mut lmc = machine(&[], 10);
    assert_eq!(lmc.accumulator(), word(0));
    assert_eq!(lmc.flag(), None);
    assert_eq!(lmc.brp(42), Ok(()));
    assert_eq!(lmc.counter(), address(42));
}

#[test]
fn brp_falls_through_only_on_neg() {
    // LDA 5; SUB 6 (3 - 5 raises NEG); BRP 4; HLT; HLT; 3; 5
    let mut lmc = machine(&[505, 206, 804, 0, 0, 3, 5], 100);
    assert_eq!(lmc.execute_program(), Ok(Execution::Halted));
    assert_eq!(lmc.flag(), Some(Flag::NEG));
    assert_eq!(lmc.accumulator().value(), 998);
    assert_eq!(lmc.counter(), address(3));
    // LDA 5; ADD 6 (999 + 5 raises OVERFLOW); BRP 4; HLT; HLT; 999; 5
    let mut lmc = machine(&[505, 106, 804, 0, 0, 999, 5], 100);
    assert_eq!(lmc.execute_program(), Ok(Execution::Halted));
    assert_eq!(lmc.flag(), Some(Flag::OVERFLOW));
    assert_eq!(lmc.accumulator().value(), 4);
    assert_eq!(lmc.counter(), address(4));
    // BRP 2 on a fresh machine: zero, no flag, so it branches.
    let mut lmc = machine(&[802, 0, 0], 100);
    assert_eq!(lmc.execute_program(), Ok(Execution::Halted));
    assert_eq!(lmc.counter(), address(2));
}

#[test]
fn lda_clears_the_flag() {
    // LDA 4; SUB 5 (NEG); LDA 4; HLT; 1; 2
    let mut lmc = machine(&[504, 205, 504, 0, 1, 2], 100);
    assert_eq!(lmc.execute_program(), Ok(Execution::Halted));
    assert_eq!(lmc.flag(), None);
    assert_eq!(lmc.accumulator(), word(1));
}

#[test]
fn single_instructions_do_what_they_say() {
    let mut lmc = machine(&[0, 0, 0, 0, 0, 0, 0, 0, 0, 0, 250, 900], 10);
    assert_eq!(lmc.lda(10), Ok(()));
    assert_eq!(lmc.accumulator(), word(250));
    assert_eq!(lmc.counter(), address(1));
    assert_eq!(lmc.add(11), Ok(()));
    assert_eq!(lmc.accumulator().value(), 150);
    assert_eq!(lmc.flag(), Some(Flag::OVERFLOW));
    assert_eq!(lmc.counter(), address(2));
    assert_eq!(lmc.sub(10), Ok(()));
    assert_eq!(lmc.accumulator().value(), 900);
    assert_eq!(lmc.flag(), Some(Flag::NEG));
    assert_eq!(lmc.sto(20), Ok(()));
    assert_eq!(lmc.mailbox(address(20)).value(), 900);
    assert_eq!(lmc.counter(), address(4));
    assert_eq!(lmc.brz(30), Ok(()));
    assert_eq!(lmc.counter(), address(5));
    assert_eq!(lmc.brp(31), Ok(()));
    assert_eq!(lmc.counter(), address(6));
    lmc.br(99);
    assert_eq!(lmc.counter(), address(99));
    assert_eq!(lmc.write_output(), Ok(()));
    assert_eq!(lmc.get_output().map(|n| n.value()), Some(900));
    assert_eq!(lmc.counter(), address(0));
    assert_eq!(lmc.read_input(), Ok(false));
    assert_eq!(lmc.counter(), address(0));
    lmc.load_input(&program(&[0]));
    assert_eq!(lmc.read_input(), Ok(true));
    assert_eq!(lmc.accumulator(), word(0));
    assert_eq!(lmc.counter(), address(1));
    assert_eq!(lmc.brz(50), Ok(()));
    assert_eq!(lmc.counter(), address(50));
}

#[test]
fn the_counter_wraps_from_the_last_mailbox_to_the_first() {
    let mut words = vec![0i16; 100];
    words[0] = 699; // BR 99
    words[1] = 0; // HLT
    words[99] = 902; // OUT, then the counter wraps to 0
    let mut lmc = machine(&words, 5);
    assert_eq!(lmc.execute_program(), Err(LMCError::MaxCyclesHit(5)));
    assert_eq!(lmc.get_output(), Some(word(0)));
}

#[test]
fn words_that_are_no_instruction_are_refused() {
    let mut lmc = machine(&[400], 10);
    assert_eq!(
        lmc.execute_program(),
        Err(LMCError::InvalidOpcode("004".to_string()))
    );
    let mut lmc = machine(&[499], 10);
    assert_eq!(
        lmc.execute_program(),
        Err(LMCError::InvalidOpcode("004".to_string()))
    );
    for w in [900, 903, 999] {
        let mut lmc = machine(&[w], 10);
        assert_eq!(
            lmc.execute_program(),
            Err(LMCError::InvalidOpcode("909".to_string()))
        );
        assert_eq!(lmc.counter(), address(0));
    }
}

#[test]
fn hlt_ignores_its_operand() {
    let mut lmc = machine(&[57], 10);
    assert_eq!(lmc.execute_program(), Ok(Execution::Halted));
    assert_eq!(lmc.counter(), address(0));
    assert_eq!(lmc.cycles(), 1);
}

#[test]
fn only_the_last_output_is_kept_in_the_slot() {
    // LDA 5; OUT; LDA 6; OUT; HLT; 1; 2
    let mut lmc = machine(&[505, 902, 506, 902, 0, 1, 2], 100);
    assert_eq!(lmc.execute_program(), Ok(Execution::Halted));
    assert_eq!(lmc.get_output(), Some(word(2)));
    assert_eq!(lmc.take_shown(), vec![word(1), word(2)]);
    assert_eq!(lmc.take_shown(), vec![]);
    assert_eq!(lmc.get_output(), Some(word(2)));
}

#[test]
fn a_quiet_machine_shows_nothing() {
    let mut lmc = LMC::new(false, false, true, 100);
    lmc.load_program(&program(&[505, 902, 0, 0, 0, 77])).unwrap();
    assert_eq!(lmc.execute_program(), Ok(Execution::Halted));
    assert_eq!(lmc.get_output(), Some(word(77)));
    assert_eq!(lmc.take_shown(), vec![]);
    assert_eq!(lmc.show_output(), None);
    let lmc = LMC::new(false, false, false, 100);
    assert_eq!(lmc.show_output(), None);
}

#[test]
fn reset_counter_touches_nothing_else() {
    let mut lmc = machine(&[505, 902, 901, 0, 0, 77], 100);
    lmc.load_input(&program(&[5, 6]));
    assert_eq!(lmc.execute_program(), Ok(Execution::Halted));
    assert_eq!(lmc.counter(), address(3));
    lmc.reset_counter();
    assert_eq!(lmc.counter(), address(0));
    assert_eq!(lmc.accumulator(), word(5));
    assert_eq!(lmc.get_output(), Some(word(77)));
    assert_eq!(lmc.pending_inputs(), 1);
    assert_eq!(lmc.mailbox(address(5)), word(77));
    assert_eq!(lmc.max_cycles(), 100);
}

#[test]
fn sto_keeps_the_flag_of_the_stored_word() {
    // LDA 5; SUB 6 (NEG, 998); STO 7; HLT; 0; 3; 5; 0
    let mut lmc = machine(&[505, 206, 307, 0, 0, 3, 5, 0], 100);
    assert_eq!(lmc.execute_program(), Ok(Execution::Halted));
    let stored = lmc.mailbox(address(7));
    assert_eq!(stored.value(), 998);
    assert_eq!(stored.flag(), Some(Flag::NEG));
}

#[test]
fn machine_errors_are_written_out() {
    assert_eq!(
        LMCError::ProgramTooLarge(101).to_string(),
        "program too large: got 101 instructions"
    );
    assert_eq!(
        LMCError::IOError("invalid digit found in string".to_string()).to_string(),
        "IO error: invalid digit found in string"
    );
    assert_eq!(
        LMCError::InvalidOpcode("004".to_string()).to_string(),
        "invalid opcode: 004"
    );
    assert_eq!(
        LMCError::NumberError(NumberError::OutOfBounds(1000)).to_string(),
        "number error: number out of bounds: got 1000"
    );
    assert_eq!(
        LMCError::MaxCyclesHit(500).to_string(),
        "max cycles hit: 500"
    );
    assert_eq!(
        LMCError::from(NumberError::OutOfBounds(-7)),
        LMCError::NumberError(NumberError::OutOfBounds(-7))
    );
}

#[test]
fn a_maximum_of_zero_stops_nothing() {
    // A new machine halts at once: its first mailbox holds HLT.
    let mut lmc = LMC::new(false, false, false, 0);
    assert_eq!(lmc.execute_program(), Ok(Execution::Halted));
    assert_eq!(lmc.cycles(), 1);
    let mut lmc = machine(&[505, 902, 0, 0, 0, 42], 0);
    assert_eq!(lmc.execute_program(), Ok(Execution::Halted));
    assert_eq!(lmc.get_output(), Some(word(42)));
    assert_eq!(lmc.cycles(), 3);
    for (w, code) in [(400, "004"), (903, "909")] {
        let mut lmc = machine(&[w], 0);
        assert_eq!(
            lmc.execute_program(),
            Err(LMCError::InvalidOpcode(code.to_string()))
        );
        assert_eq!(lmc.counter(), address(0));
        assert_eq!(lmc.accumulator(), word(0));
        assert_eq!(lmc.get_output(), None);
    }
    let mut lmc = machine(&[901, 0], 0);
    assert_eq!(lmc.execute_program(), Ok(Execution::AwaitingInput));
    assert_eq!(lmc.resume("5"), Ok(Execution::Halted));
    assert_eq!(lmc.accumulator(), word(5));
}

#[test]
fn a_maximum_of_one_stops_the_first_cycle() {
    let mut lmc = LMC::new(false, false, false, 1);
    assert_eq!(lmc.execute_program(), Err(LMCError::MaxCyclesHit(1)));
    let mut lmc = LMC::new(false, false, false, 2);
    assert_eq!(lmc.execute_program(), Ok(Execution::Halted));
}

#[test]
fn a_run_can_be_gone_on_with_after_the_maximum_was_hit() {
    // Past the maximum the count never equals it again.
    let mut lmc = machine(&[901, 0], 1);
    assert_eq!(lmc.execute_program(), Err(LMCError::MaxCyclesHit(1)));
    assert_eq!(lmc.cycles(), 1);
    assert_eq!(lmc.run(), Ok(Execution::AwaitingInput));
    assert_eq!(lmc.resume("3"), Ok(Execution::Halted));
    assert_eq!(lmc.cycles(), 3);
}

#[test]
fn a_run_logs_its_progress_and_its_detail() {
    let mut lmc = LMC::new(true, true, false, 100);
    lmc.load_program(&program(&[505, 106, 307, 902, 0, 999, 3, 0]))
        .unwrap();
    assert_eq!(lmc.execute_program(), Ok(Execution::Halted));
    assert_eq!(
        lmc.take_events(),
        vec![
            info("Loading program with 8 instructions"),
            info("executing program..."),
            debug("executing instruction: 505 (opcode: 5, operand: 05)"),
            debug("loading from 5: 999"),
            debug("incrementing counter by 1\n"),
            debug("executing instruction: 106 (opcode: 1, operand: 06)"),
            debug("adding: 999 + 003"),
            debug("setting flag: OVERFLOW"),
            debug("incrementing counter by 1\n"),
            debug("executing instruction: 307 (opcode: 3, operand: 07)"),
            debug("storing to 7: 002"),
            debug("incrementing counter by 1\n"),
            debug("executing instruction: 902 (opcode: 9, operand: 02)"),
            debug("executing instruction: 000 (opcode: 0, operand: 00)"),
            info("program halted after 5 cycles"),
        ]
    );
    assert_eq!(lmc.take_events(), vec![]);
    lmc.reset_counter();
    assert_eq!(lmc.take_events(), vec![debug("resetting counter to 0\n")]);
}

#[test]
fn branches_are_logged_as_they_go() {
    let mut lmc = LMC::new(false, true, true, 100);
    lmc.load_program(&program(&[209, 805, 705, 508, 706, 0, 807, 605, 0, 1]))
        .unwrap();
    assert_eq!(lmc.execute_program(), Ok(Execution::Halted));
    assert_eq!(lmc.cycles(), 8);
    assert_eq!(
        lmc.take_events(),
        vec![
            debug("executing instruction: 209 (opcode: 2, operand: 09)"),
            debug("subtracting: 000 - 001"),
            debug("setting flag: NEG"),
            debug("incrementing counter by 1\n"),
            debug("executing instruction: 805 (opcode: 8, operand: 05)"),
            debug("branch positive: incrementing counter by 1\n"),
            debug("executing instruction: 705 (opcode: 7, operand: 05)"),
            debug("branch zero: incrementing counter by 1\n"),
            debug("executing instruction: 508 (opcode: 5, operand: 08)"),
            debug("loading from 8: 000"),
            debug("incrementing counter by 1\n"),
            debug("executing instruction: 706 (opcode: 7, operand: 06)"),
            debug("branch zero: setting counter to 6\n"),
            debug("executing instruction: 807 (opcode: 8, operand: 07)"),
            debug("branch positive: setting counter to 07\n"),
            debug("executing instruction: 605 (opcode: 6, operand: 05)"),
            debug("branch: setting counter to 5\n"),
            debug("executing instruction: 000 (opcode: 0, operand: 00)"),
        ]
    );
}

#[test]
fn a_verbose_machine_logs_progress_only() {
    let mut lmc = LMC::new(true, false, true, 100);
    assert_eq!(
        lmc.load_program(&program(&[0; 101])),
        Err(LMCError::ProgramTooLarge(101))
    );
    lmc.load_program(&program(&[901, 0])).unwrap();
    assert_eq!(lmc.execute_program(), Ok(Execution::AwaitingInput));
    assert_eq!(lmc.resume("4"), Ok(Execution::Halted));
    lmc.reset_counter();
    assert_eq!(
        lmc.take_events(),
        vec![
            info("Loading program with 101 instructions"),
            info("Loading program with 2 instructions"),
            info("executing program..."),
            info("program halted after 2 cycles"),
        ]
    );
}

#[test]
fn a_silent_machine_logs_nothing() {
    let mut lmc = machine(&[505, 106, 307, 902, 600, 999, 3, 0], 50);
    assert_eq!(lmc.execute_program(), Err(LMCError::MaxCyclesHit(50)));
    lmc.reset_counter();
    assert_eq!(lmc.take_events(), vec![]);
}
