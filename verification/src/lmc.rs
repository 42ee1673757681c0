//! The machine: one hundred mailboxes, an accumulator, a program counter, an
//! input queue and an output slot, driven by a fetch-execute loop.
//!
//! The machine itself reads and writes nothing. A run that needs a value
//! which the input queue does not hold stops and says so; the caller reads
//! the value and hands its text to [`LMC::resume`]. What the machine would
//! show is kept until the caller takes it with [`LMC::take_shown`], and the
//! events that it logs until the caller takes them with
//! [`LMC::take_events`].

use crate::logger::{entries, Entry, LogEvent, LogLevel, Logger};
use crate::numbers::{
    flag_name, number_error_message, three_digit_difference, three_digit_sum, two_digit_sum,
    words, Flag, NumberError, ThreeDigitNumber, TwoDigitNumber, Word,
};
use crate::text::{
    decimal, fault_message, padded_decimal, parse_i64, parse_i64_text, push_decimal,
    push_padded_decimal, trim, trimmed,
};
use std::collections::VecDeque;
use vstd::array::*;
use vstd::prelude::*;
use vstd::string::*;

verus! {

/// Why the machine refused a program or stopped a run.
#[derive(Debug, PartialEq, Eq)]
pub enum LMCError {
    /// A value read from outside is no three-digit number.
    NumberError(NumberError),
    /// The program has more words than the machine has mailboxes; their
    /// number is given.
    ProgramTooLarge(usize),
    /// A value read from outside is no integer; the reason is given.
    IOError(String),
    /// The word fetched is no instruction; its code is given.
    InvalidOpcode(String),
    /// The run used up its cycles; their number is given.
    MaxCyclesHit(usize),
}

/// The mathematical content of an [`LMCError`].
pub ghost enum LMCFault {
    NumberError(NumberError),
    ProgramTooLarge(int),
    IOError(Seq<char>),
    InvalidOpcode(Seq<char>),
    MaxCyclesHit(int),
}

impl View for LMCError {
    type V = LMCFault;

    open spec fn view(&self) -> LMCFault {
        match self {
            LMCError::NumberError(e) => LMCFault::NumberError(*e),
            LMCError::ProgramTooLarge(n) => LMCFault::ProgramTooLarge(*n as int),
            LMCError::IOError(s) => LMCFault::IOError(s@),
            LMCError::InvalidOpcode(s) => LMCFault::InvalidOpcode(s@),
            LMCError::MaxCyclesHit(n) => LMCFault::MaxCyclesHit(*n as int),
        }
    }
}

/// The words in which a fault of the machine is reported.
pub open spec fn machine_fault_message(fault: LMCFault) -> Seq<char> {
    match fault {
        LMCFault::ProgramTooLarge(n) => "program too large: got "@ + decimal(n as nat)
            + " instructions"@,
        LMCFault::IOError(reason) => "IO error: "@ + reason,
        LMCFault::InvalidOpcode(code) => "invalid opcode: "@ + code,
        LMCFault::NumberError(e) => "number error: "@ + number_error_message(e),
        LMCFault::MaxCyclesHit(n) => "max cycles hit: "@ + decimal(n as nat),
    }
}

impl LMCError {
    /// The words in which the fault is reported.
    pub fn to_string(&self) -> (s: String)
        ensures
            s@ == machine_fault_message(self@),
    {
        match self {
            LMCError::ProgramTooLarge(n) => {
                let mut s = "program too large: got ".to_owned();
                push_decimal(&mut s, *n as u64);
                s.append(" instructions");
                s
            },
            LMCError::IOError(reason) => {
                let mut s = "IO error: ".to_owned();
                s.append(reason.as_str());
                s
            },
            LMCError::InvalidOpcode(code) => {
                let mut s = "invalid opcode: ".to_owned();
                s.append(code.as_str());
                s
            },
            LMCError::NumberError(e) => {
                let mut s = "number error: ".to_owned();
                s.append(e.to_string().as_str());
                s
            },
            LMCError::MaxCyclesHit(n) => {
                let mut s = "max cycles hit: ".to_owned();
                push_decimal(&mut s, *n as u64);
                s
            },
        }
    }
}

impl From<NumberError> for LMCError {
    /// A refused number, as a fault of the machine.
    fn from(error: NumberError) -> (e: Self) {
        LMCError::NumberError(error)
    }
}

impl vstd::std_specs::convert::FromSpecImpl<NumberError> for LMCError {
    open spec fn obeys_from_spec() -> bool {
        true
    }

    open spec fn from_spec(error: NumberError) -> Self {
        LMCError::NumberError(error)
    }
}

/// How a run came to rest without a fault.
#[derive(Debug, PartialEq, Eq, Clone, Copy, Structural)]
pub enum Execution {
    /// The program halted.
    Halted,
    /// The program asks for a value and the input queue holds none.
    AwaitingInput,
}

/// How a run came to rest.
pub ghost enum Outcome {
    Halted,
    AwaitingInput,
    Failed(LMCFault),
}

/// The mathematical content of what a run returns.
pub open spec fn outcome_view(r: Result<Execution, LMCError>) -> Outcome {
    match r {
        Ok(Execution::Halted) => Outcome::Halted,
        Ok(Execution::AwaitingInput) => Outcome::AwaitingInput,
        Err(e) => Outcome::Failed(e@),
    }
}

/// The state of the machine.
pub ghost struct Machine {
    /// The hundred mailboxes.
    pub mailboxes: Seq<Word>,
    /// The accumulator.
    pub accumulator: Word,
    /// The values waiting to be read, the next one first.
    pub inputs: Seq<Word>,
    /// The value last written out.
    pub output: Option<Word>,
    /// The address of the next instruction.
    pub counter: int,
    /// The flag of the last addition or subtraction.
    pub flag: Option<Flag>,
    /// Whether values written out are kept from being shown.
    pub quiet: bool,
    /// The number of cycles at which a run is stopped.
    pub max_cycles: int,
    /// The number of cycles that the run has started.
    pub cycles: int,
    /// The values written out that are yet to be shown, the oldest first.
    pub shown: Seq<Word>,
    /// The settings of the log.
    pub logger: Logger,
    /// The events logged that are yet to be written, the oldest first.
    pub log: Seq<Entry>,
}

/// The three digits in which a word is logged.
pub open spec fn word_text(w: Word) -> Seq<char> {
    padded_decimal(w.value as nat, 3)
}

/// The event of a program being loaded.
pub open spec fn loading_program_message(n: int) -> Seq<char> {
    "Loading program with "@ + decimal(n as nat) + " instructions"@
}

/// The event of an instruction being fetched.
pub open spec fn instruction_message(word: Word) -> Seq<char> {
    "executing instruction: "@ + word_text(word) + " (opcode: "@ + decimal(
        (word.value / 100) as nat,
    ) + ", operand: "@ + padded_decimal((word.value % 100) as nat, 2) + ")"@
}

/// The event of a program halting.
pub open spec fn halted_message(cycles: int) -> Seq<char> {
    "program halted after "@ + decimal(cycles as nat) + " cycles"@
}

/// The event of an addition.
pub open spec fn adding_message(accumulator: Word, value: Word) -> Seq<char> {
    "adding: "@ + word_text(accumulator) + " + "@ + word_text(value)
}

/// The event of a subtraction.
pub open spec fn subtracting_message(accumulator: Word, value: Word) -> Seq<char> {
    "subtracting: "@ + word_text(accumulator) + " - "@ + word_text(value)
}

/// The event of a flag being raised.
pub open spec fn flag_message(flag: Flag) -> Seq<char> {
    "setting flag: "@ + flag_name(flag)
}

/// The event of the counter moving on.
pub open spec fn incrementing_message() -> Seq<char> {
    "incrementing counter by 1\n"@
}

/// The event of a mailbox being written.
pub open spec fn storing_message(operand: int, value: Word) -> Seq<char> {
    "storing to "@ + decimal(operand as nat) + ": "@ + word_text(value)
}

/// The event of a mailbox being read.
pub open spec fn loading_message(operand: int, value: Word) -> Seq<char> {
    "loading from "@ + decimal(operand as nat) + ": "@ + word_text(value)
}

/// The event of a branch.
pub open spec fn branch_message(operand: int) -> Seq<char> {
    "branch: setting counter to "@ + decimal(operand as nat) + "\n"@
}

/// The event of a branch on zero that is taken.
pub open spec fn branch_zero_message(operand: int) -> Seq<char> {
    "branch zero: setting counter to "@ + decimal(operand as nat) + "\n"@
}

/// The event of a branch on zero that is not taken.
pub open spec fn branch_zero_skipped_message() -> Seq<char> {
    "branch zero: incrementing counter by 1\n"@
}

/// The event of a branch on positive that is taken.
pub open spec fn branch_positive_message(operand: int) -> Seq<char> {
    "branch positive: setting counter to "@ + padded_decimal(operand as nat, 2) + "\n"@
}

/// The event of a branch on positive that is not taken.
pub open spec fn branch_positive_skipped_message() -> Seq<char> {
    "branch positive: incrementing counter by 1\n"@
}

/// The event of the counter being reset.
pub open spec fn resetting_message() -> Seq<char> {
    "resetting counter to 0\n"@
}

/// The event of a run beginning.
pub open spec fn executing_message() -> Seq<char> {
    "executing program..."@
}

impl Machine {
    /// Whether the state is one that a machine can be in.
    pub open spec fn well_formed(self) -> bool {
        &&& self.mailboxes.len() == 100
        &&& forall|i: int| 0 <= i < 100 ==> 0 <= (#[trigger] self.mailboxes[i]).value <= 999
        &&& forall|i: int|
            0 <= i < self.inputs.len() ==> 0 <= (#[trigger] self.inputs[i]).value <= 999
        &&& 0 <= self.accumulator.value <= 999
        &&& 0 <= self.counter <= 99
        &&& 0 <= self.cycles <= usize::MAX
        &&& 0 <= self.max_cycles <= usize::MAX
    }

    /// The machine but for its log and its count of cycles: what a program
    /// can tell.
    pub open spec fn same_but_for_log_and_count(self, other: Machine) -> bool {
        self == (Machine { log: self.log, cycles: self.cycles, ..other })
    }

    /// An event is noted in the log, where events of its level are shown.
    pub open spec fn note(self, level: LogLevel, message: Seq<char>) -> Machine {
        Machine { log: self.logger.noted(self.log, level, message), ..self }
    }

    /// The counter moved to the next mailbox; after the last it is the first.
    pub open spec fn advance(self) -> Machine {
        Machine { counter: two_digit_sum(self.counter, 1).value, ..self }
    }

    /// The counter set to `operand`.
    pub open spec fn jump(self, operand: int) -> Machine {
        Machine { counter: operand, ..self }
    }

    /// The counter moved on, and the event of it noted.
    pub open spec fn step(self) -> Machine {
        self.note(LogLevel::Debug, incrementing_message()).advance()
    }

    /// ADD: the mailbox is added to the accumulator and the flag is that of
    /// the addition.
    pub open spec fn add(self, operand: int) -> Machine {
        let value = self.mailboxes[operand];
        let sum = three_digit_sum(self.accumulator.value, value.value);
        let begun = self.note(LogLevel::Debug, adding_message(self.accumulator, value));
        let added = Machine { accumulator: sum, flag: sum.flag, ..begun };
        match sum.flag {
            Some(flag) => added.note(LogLevel::Debug, flag_message(flag)).step(),
            None => added.step(),
        }
    }

    /// SUB: the mailbox is subtracted from the accumulator and the flag is
    /// that of the subtraction.
    pub open spec fn sub(self, operand: int) -> Machine {
        let value = self.mailboxes[operand];
        let difference = three_digit_difference(self.accumulator.value, value.value);
        let begun = self.note(LogLevel::Debug, subtracting_message(self.accumulator, value));
        let subtracted = Machine { accumulator: difference, flag: difference.flag, ..begun };
        match difference.flag {
            Some(flag) => subtracted.note(LogLevel::Debug, flag_message(flag)).step(),
            None => subtracted.step(),
        }
    }

    /// STO: the accumulator is copied into the mailbox.
    pub open spec fn sto(self, operand: int) -> Machine {
        Machine { mailboxes: self.mailboxes.update(operand, self.accumulator), ..self }.note(
            LogLevel::Debug,
            storing_message(operand, self.accumulator),
        ).step()
    }

    /// LDA: the mailbox is copied into the accumulator and the flag is
    /// cleared.
    pub open spec fn lda(self, operand: int) -> Machine {
        Machine { accumulator: self.mailboxes[operand], flag: None, ..self }.note(
            LogLevel::Debug,
            loading_message(operand, self.mailboxes[operand]),
        ).step()
    }

    /// BR: the counter is set to the operand.
    pub open spec fn br(self, operand: int) -> Machine {
        self.note(LogLevel::Debug, branch_message(operand)).jump(operand)
    }

    /// BRZ: the counter is set to the operand if the accumulator is zero.
    pub open spec fn brz(self, operand: int) -> Machine {
        if self.accumulator.value == 0 {
            self.note(LogLevel::Debug, branch_zero_message(operand)).jump(operand)
        } else {
            self.note(LogLevel::Debug, branch_zero_skipped_message()).advance()
        }
    }

    /// BRP: the counter is set to the operand unless the flag is `NEG`.
    pub open spec fn brp(self, operand: int) -> Machine {
        if self.flag == Some(Flag::NEG) {
            self.note(LogLevel::Debug, branch_positive_skipped_message()).advance()
        } else {
            self.note(LogLevel::Debug, branch_positive_message(operand)).jump(operand)
        }
    }

    /// The value `value` is put into the accumulator, as IN does.
    pub open spec fn accept(self, value: Word) -> Machine {
        Machine { accumulator: value, ..self }.advance()
    }

    /// IN, where the input queue holds a value: its first value is taken
    /// into the accumulator.
    pub open spec fn read_input(self) -> Machine {
        Machine { inputs: self.inputs.skip(1), ..self }.accept(self.inputs[0])
    }

    /// OUT: the accumulator is copied into the output slot, and is to be
    /// shown unless the machine is quiet.
    pub open spec fn write_output(self) -> Machine {
        Machine {
            output: Some(self.accumulator),
            shown: if self.quiet {
                self.shown
            } else {
                self.shown.push(self.accumulator)
            },
            ..self
        }.advance()
    }

    /// The instruction at the counter, carried out: the hundreds digit of
    /// the word is the operation, the other two are the operand. Gives the
    /// state that the instruction leaves and, where the run comes to rest
    /// with it, how.
    pub open spec fn execute(self) -> (Machine, Option<Outcome>) {
        let word = self.mailboxes[self.counter];
        let opcode = word.value / 100;
        let operand = word.value % 100;
        let fetched = self.note(LogLevel::Debug, instruction_message(word));
        if opcode == 1 {
            (fetched.add(operand), None)
        } else if opcode == 2 {
            (fetched.sub(operand), None)
        } else if opcode == 3 {
            (fetched.sto(operand), None)
        } else if opcode == 5 {
            (fetched.lda(operand), None)
        } else if opcode == 6 {
            (fetched.br(operand), None)
        } else if opcode == 7 {
            (fetched.brz(operand), None)
        } else if opcode == 8 {
            (fetched.brp(operand), None)
        } else if opcode == 9 {
            if operand == 1 {
                if fetched.inputs.len() > 0 {
                    (fetched.read_input(), None)
                } else {
                    (fetched, Some(Outcome::AwaitingInput))
                }
            } else if operand == 2 {
                (fetched.write_output(), None)
            } else {
                (fetched, Some(Outcome::Failed(LMCFault::InvalidOpcode("909"@))))
            }
        } else if opcode == 0 {
            (
                fetched.note(LogLevel::Info, halted_message(fetched.cycles)),
                Some(Outcome::Halted),
            )
        } else {
            (fetched, Some(Outcome::Failed(LMCFault::InvalidOpcode("004"@))))
        }
    }

    /// The fetch-execute loop from this state on: where the machine comes to
    /// rest, and how. Each cycle is counted before its instruction is
    /// fetched, and the cycle whose count is the maximum is not carried out:
    /// the run fails with the count. A maximum that the count never equals,
    /// such as zero, stops nothing; the run then ends at the latest when the
    /// count can grow no more, and fails with the count as well.
    pub open spec fn run(self) -> (Machine, Outcome)
        decreases usize::MAX - self.cycles,
    {
        if self.cycles >= usize::MAX {
            (self, Outcome::Failed(LMCFault::MaxCyclesHit(self.cycles)))
        } else {
            let counted = Machine { cycles: self.cycles + 1, ..self };
            if counted.cycles == counted.max_cycles {
                (counted, Outcome::Failed(LMCFault::MaxCyclesHit(counted.cycles)))
            } else {
                let (next, rest) = counted.execute();
                match rest {
                    None => next.run(),
                    Some(outcome) => (next, outcome),
                }
            }
        }
    }

    /// A run from a fresh count of cycles.
    pub open spec fn start(self) -> Machine {
        Machine { cycles: 0, ..self }.note(LogLevel::Info, executing_message())
    }
}

/// The value that a line read from outside denotes: the line is trimmed and
/// read as a signed decimal integer, which must be a three-digit number. A
/// text that is no integer, or one of more than 64 bits, is a fault of the
/// input; an integer out of range is a fault of the number.
pub open spec fn input_word(line: Seq<char>) -> Result<Word, LMCFault> {
    match parse_i64_text(trimmed(line)) {
        Err(fault) => Err(LMCFault::IOError(fault_message(fault))),
        Ok(v) => if 0 <= v <= 999 {
            Ok(Word { value: v, flag: None })
        } else {
            Err(LMCFault::NumberError(NumberError::OutOfBounds(v as i64)))
        },
    }
}

/// Reads the value that a line read from outside denotes.
pub fn parse_input(line: &str) -> (r: Result<ThreeDigitNumber, LMCError>)
    ensures
        match input_word(line@) {
            Ok(w) => r matches Ok(x) && x@ == w,
            Err(f) => r matches Err(e) && e@ == f,
        },
{
    let text = trim(line);
    match parse_i64(text.as_str()) {
        Ok(number) => {
            if 0 <= number && number <= 999 {
                match ThreeDigitNumber::new(number as i16) {
                    Ok(number) => Ok(number),
                    Err(e) => Err(LMCError::from(e)),
                }
            } else {
                Err(LMCError::from(NumberError::OutOfBounds(number)))
            }
        },
        Err(fault) => Err(LMCError::IOError(fault.message())),
    }
}

/// The event of an instruction being fetched, in words.
fn instruction_text(word: ThreeDigitNumber) -> (s: String)
    ensures
        s@ == instruction_message(word@),
{
    let value = word.value();
    let mut s = "executing instruction: ".to_owned();
    s.append(word.to_string().as_str());
    s.append(" (opcode: ");
    push_decimal(&mut s, (value / 100) as u64);
    s.append(", operand: ");
    push_padded_decimal(&mut s, (value % 100) as u64, 2);
    s.append(")");
    s
}

/// The event of an addition or a subtraction, in words.
fn operation_text(name: &str, accumulator: ThreeDigitNumber, sign: &str, value: ThreeDigitNumber) -> (s:
    String)
    ensures
        s@ == name@ + word_text(accumulator@) + sign@ + word_text(value@),
{
    let mut s = name.to_owned();
    s.append(accumulator.to_string().as_str());
    s.append(sign);
    s.append(value.to_string().as_str());
    s
}

/// The event of a mailbox being written or read, in words.
fn mailbox_text(name: &str, operand: usize, value: ThreeDigitNumber) -> (s: String)
    ensures
        s@ == name@ + decimal(operand as nat) + ": "@ + word_text(value@),
{
    let mut s = name.to_owned();
    push_decimal(&mut s, operand as u64);
    s.append(": ");
    s.append(value.to_string().as_str());
    s
}

/// The event of a counter being set, in words.
fn counter_text(name: &str, operand: usize) -> (s: String)
    ensures
        s@ == name@ + decimal(operand as nat) + "\n"@,
{
    let mut s = name.to_owned();
    push_decimal(&mut s, operand as u64);
    s.append("\n");
    s
}

/// The event of a number of things, in words.
fn count_text(name: &str, n: usize, unit: &str) -> (s: String)
    ensures
        s@ == name@ + decimal(n as nat) + unit@,
{
    let mut s = name.to_owned();
    push_decimal(&mut s, n as u64);
    s.append(unit);
    s
}

/// The machine.
pub struct LMC {
    mailboxes: [ThreeDigitNumber; 100],
    calculator: ThreeDigitNumber,
    in_basket: VecDeque<ThreeDigitNumber>,
    out_basket: Option<ThreeDigitNumber>,
    counter: TwoDigitNumber,
    flag: Option<Flag>,
    logger: Logger,
    quiet: bool,
    max_cycles: usize,
    cycles: usize,
    shown: Vec<ThreeDigitNumber>,
    events: Vec<LogEvent>,
}

impl View for LMC {
    type V = Machine;

    closed spec fn view(&self) -> Machine {
        Machine {
            mailboxes: words(self.mailboxes@),
            accumulator: self.calculator@,
            inputs: words(self.in_basket@),
            output: match self.out_basket {
                Some(n) => Some(n@),
                None => None,
            },
            counter: self.counter@.value,
            flag: self.flag,
            quiet: self.quiet,
            max_cycles: self.max_cycles as int,
            cycles: self.cycles as int,
            shown: words(self.shown@),
            logger: self.logger,
            log: entries(self.events@),
        }
    }
}

impl LMC {
    /// A machine with every mailbox and the accumulator at zero, the counter
    /// at the first mailbox, nothing to read, nothing written and nothing
    /// logged.
    pub fn new(verbose: bool, debug: bool, quiet: bool, max_cycles: usize) -> (lmc: Self)
        ensures
            lmc@ == (Machine {
                mailboxes: Seq::new(100, |i: int| Word { value: 0, flag: None }),
                accumulator: Word { value: 0, flag: None },
                inputs: Seq::empty(),
                output: None,
                counter: 0,
                flag: None,
                quiet,
                max_cycles: max_cycles as int,
                cycles: 0,
                shown: Seq::empty(),
                logger: Logger::new_spec(verbose, debug),
                log: Seq::empty(),
            }),
            lmc@.well_formed(),
    {
        let zero = ThreeDigitNumber::new(0).unwrap();
        let lmc = LMC {
            mailboxes: [zero; 100],
            calculator: zero,
            in_basket: VecDeque::new(),
            out_basket: None,
            counter: TwoDigitNumber::new(0).unwrap(),
            flag: None,
            logger: Logger::new(verbose, debug),
            quiet,
            max_cycles,
            cycles: 0,
            shown: Vec::new(),
            events: Vec::new(),
        };
        proof {
            assert(lmc@.mailboxes == Seq::new(100, |i: int| Word { value: 0, flag: None }));
            assert(lmc@.inputs == Seq::<Word>::empty());
            assert(lmc@.shown == Seq::<Word>::empty());
            assert(lmc@.log == Seq::<Entry>::empty());
        }
        lmc
    }

    /// The settings of the log.
    pub fn logger(&self) -> (l: Logger)
        ensures
            l == self@.logger,
    {
        self.logger
    }

    /// Notes an event in the log, where events of its level are shown.
    fn note(&mut self, level: LogLevel, message: String)
        ensures
            final(self)@ == old(self)@.note(level, message@),
            old(self)@.well_formed() ==> final(self)@.well_formed(),
    {
        let logger = self.logger;
        logger.note(&mut self.events, level, message);
    }

    /// Copies `program` into the first mailboxes and leaves the others as
    /// they are; a program of more than a hundred words is refused and no
    /// mailbox is changed. The loading is logged either way.
    pub fn load_program(&mut self, program: &Vec<ThreeDigitNumber>) -> (r: Result<(), LMCError>)
        ensures
            ({
                let noted = old(self)@.note(
                    LogLevel::Info,
                    loading_program_message(program@.len() as int),
                );
                &&& program@.len() > 100 ==> (r matches Err(e) && e@ == LMCFault::ProgramTooLarge(
                    program@.len() as int,
                )) && final(self)@ == noted
                &&& program@.len() <= 100 ==> r is Ok && final(self)@ == (Machine {
                    mailboxes: words(program@) + noted.mailboxes.skip(program@.len() as int),
                    ..noted
                })
            }),
            old(self)@.well_formed() ==> final(self)@.well_formed(),
    {
        if self.logger.enabled(&LogLevel::Info) {
            self.note(
                LogLevel::Info,
                count_text("Loading program with ", program.len(), " instructions"),
            );
        }
        let ghost noted = self@;
        if program.len() > 100 {
            return Err(LMCError::ProgramTooLarge(program.len()));
        }
        let mut i: usize = 0;
        proof {
            assert(self@.mailboxes == words(program@.take(0)) + self@.mailboxes.skip(0));
        }
        while i < program.len()
            invariant
                i <= program@.len() <= 100,
                noted.mailboxes.len() == 100,
                old(self)@.well_formed() ==> noted.well_formed(),
                noted.well_formed() ==> self@.well_formed(),
                self@ == (Machine {
                    mailboxes: words(program@.take(i as int)) + noted.mailboxes.skip(i as int),
                    ..noted
                }),
            decreases program@.len() - i,
        {
            let ghost before = self@.mailboxes;
            let word = program[i];
            // Reading the value brings its bounds into the proof.
            let _ = word.value();
            self.mailboxes[i] = word;
            proof {
                assert(self@.mailboxes == before.update(i as int, program@[i as int]@));
                assert(self@.mailboxes == words(program@.take(i + 1)) + noted.mailboxes.skip(
                    i + 1,
                ));
            }
            i += 1;
        }
        proof {
            assert(program@.take(i as int) == program@);
        }
        Ok(())
    }

    /// Puts `input` behind the values that are already waiting to be read.
    pub fn load_input(&mut self, input: &Vec<ThreeDigitNumber>)
        ensures
            final(self)@ == (Machine {
                inputs: old(self)@.inputs + words(input@),
                ..old(self)@
            }),
            old(self)@.well_formed() ==> final(self)@.well_formed(),
    {
        let mut i: usize = 0;
        proof {
            assert(self@.inputs == self@.inputs + words(input@.take(0)));
        }
        while i < input.len()
            invariant
                i <= input@.len(),
                old(self)@.well_formed() ==> self@.well_formed(),
                self@ == (Machine {
                    inputs: old(self)@.inputs + words(input@.take(i as int)),
                    ..old(self)@
                }),
            decreases input@.len() - i,
        {
            let ghost before = self@.inputs;
            let value = input[i];
            // Reading the value brings its bounds into the proof.
            let _ = value.value();
            self.in_basket.push_back(value);
            proof {
                assert(self@.inputs == before.push(input@[i as int]@));
                assert(self@.inputs == old(self)@.inputs + words(input@.take(i + 1)));
            }
            i += 1;
        }
        proof {
            assert(input@.take(i as int) == input@);
        }
    }

    /// The value last written out, if any was.
    pub fn get_output(&self) -> (r: Option<ThreeDigitNumber>)
        ensures
            match r {
                Some(n) => self@.output == Some(n@),
                None => self@.output is None,
            },
    {
        self.out_basket
    }

    /// What the machine shows of its output slot: the value last written
    /// out, in decimal digits without leading zeros, and nothing where the
    /// machine is quiet or no value was written out.
    pub fn show_output(&self) -> (line: Option<String>)
        ensures
            match line {
                Some(s) => !self@.quiet && self@.output is Some && s@ == decimal(
                    self@.output->Some_0.value as nat,
                ),
                None => self@.quiet || self@.output is None,
            },
    {
        if self.quiet {
            return None;
        }
        match self.out_basket {
            Some(number) => {
                let mut s = String::new();
                push_decimal(&mut s, number.value() as u64);
                Some(s)
            },
            None => None,
        }
    }

    /// Sets the counter to the first mailbox, logs it, and leaves the rest
    /// as it is.
    pub fn reset_counter(&mut self)
        ensures
            final(self)@ == old(self)@.note(LogLevel::Debug, resetting_message()).jump(0),
            old(self)@.well_formed() ==> final(self)@.well_formed(),
    {
        if self.logger.enabled(&LogLevel::Debug) {
            self.note(LogLevel::Debug, "resetting counter to 0\n".to_owned());
        }
        self.counter = TwoDigitNumber::new(0).unwrap();
    }

    /// Sets the number of cycles at which a run is stopped.
    pub fn set_max_cycles(&mut self, max_cycles: usize)
        ensures
            final(self)@ == (Machine { max_cycles: max_cycles as int, ..old(self)@ }),
            old(self)@.well_formed() ==> final(self)@.well_formed(),
    {
        self.max_cycles = max_cycles;
    }

    /// The accumulator.
    pub fn accumulator(&self) -> (n: ThreeDigitNumber)
        ensures
            n@ == self@.accumulator,
    {
        self.calculator
    }

    /// The address of the next instruction.
    pub fn counter(&self) -> (n: TwoDigitNumber)
        ensures
            n@ == (Word { value: self@.counter, flag: None }),
    {
        TwoDigitNumber::new(self.counter.value()).unwrap()
    }

    /// The flag of the last addition or subtraction.
    pub fn flag(&self) -> (f: Option<Flag>)
        ensures
            f == self@.flag,
    {
        self.flag
    }

    /// The mailbox at `address`.
    pub fn mailbox(&self, address: TwoDigitNumber) -> (n: ThreeDigitNumber)
        ensures
            0 <= address@.value < 100,
            n@ == self@.mailboxes[address@.value],
    {
        self.mailboxes[address.value() as usize]
    }

    /// The number of cycles at which a run is stopped.
    pub fn max_cycles(&self) -> (n: usize)
        ensures
            n == self@.max_cycles,
    {
        self.max_cycles
    }

    /// The number of cycles that the run has started.
    pub fn cycles(&self) -> (n: usize)
        ensures
            n == self@.cycles,
    {
        self.cycles
    }

    /// The number of values waiting to be read.
    pub fn pending_inputs(&self) -> (n: usize)
        ensures
            n == self@.inputs.len(),
    {
        self.in_basket.len()
    }

    /// Hands out the values written out that are yet to be shown, the oldest
    /// first, and keeps none of them.
    pub fn take_shown(&mut self) -> (values: Vec<ThreeDigitNumber>)
        ensures
            words(values@) == old(self)@.shown,
            final(self)@ == (Machine { shown: Seq::empty(), ..old(self)@ }),
            old(self)@.well_formed() ==> final(self)@.well_formed(),
    {
        let mut values: Vec<ThreeDigitNumber> = Vec::new();
        std::mem::swap(&mut values, &mut self.shown);
        proof {
            assert(self@.shown == Seq::<Word>::empty());
        }
        values
    }

    /// Hands out the events logged that are yet to be written, the oldest
    /// first, and keeps none of them.
    pub fn take_events(&mut self) -> (events: Vec<LogEvent>)
        ensures
            entries(events@) == old(self)@.log,
            final(self)@ == (Machine { log: Seq::empty(), ..old(self)@ }),
            old(self)@.well_formed() ==> final(self)@.well_formed(),
    {
        let mut events: Vec<LogEvent> = Vec::new();
        std::mem::swap(&mut events, &mut self.events);
        proof {
            assert(self@.log == Seq::<Entry>::empty());
        }
        events
    }

    fn step_counter(&mut self)
        ensures
            final(self)@ == old(self)@.advance(),
            old(self)@.well_formed() ==> final(self)@.well_formed(),
    {
        self.counter.add_assign(TwoDigitNumber::new(1).unwrap());
    }

    fn step_noted(&mut self)
        ensures
            final(self)@ == old(self)@.step(),
            old(self)@.well_formed() ==> final(self)@.well_formed(),
    {
        if self.logger.enabled(&LogLevel::Debug) {
            self.note(LogLevel::Debug, "incrementing counter by 1\n".to_owned());
        }
        self.step_counter();
    }

    fn set_counter(&mut self, operand: usize)
        requires
            operand < 100,
        ensures
            final(self)@ == old(self)@.jump(operand as int),
            old(self)@.well_formed() ==> final(self)@.well_formed(),
    {
        self.counter = TwoDigitNumber::new(operand as u8).unwrap();
    }

    fn note_flag(&mut self)
        ensures
            final(self)@ == (match old(self)@.flag {
                Some(flag) => old(self)@.note(LogLevel::Debug, flag_message(flag)),
                None => old(self)@,
            }),
            old(self)@.well_formed() ==> final(self)@.well_formed(),
    {
        match self.flag {
            Some(flag) => {
                if self.logger.enabled(&LogLevel::Debug) {
                    let mut s = "setting flag: ".to_owned();
                    s.append(flag.to_string().as_str());
                    self.note(LogLevel::Debug, s);
                }
            },
            None => {},
        }
    }

    /// ADD: adds the mailbox at `operand` to the accumulator, sets the flag
    /// to that of the addition, and moves the counter on.
    pub fn add(&mut self, operand: usize) -> (r: Result<(), LMCError>)
        requires
            operand < 100,
        ensures
            r is Ok,
            final(self)@ == old(self)@.add(operand as int),
            old(self)@.well_formed() ==> final(self)@.well_formed(),
    {
        let value = self.mailboxes[operand];
        if self.logger.enabled(&LogLevel::Debug) {
            self.note(LogLevel::Debug, operation_text("adding: ", self.calculator, " + ", value));
        }
        self.calculator.add_assign(value);
        self.flag = self.calculator.flag();
        self.note_flag();
        self.step_noted();
        Ok(())
    }

    /// SUB: subtracts the mailbox at `operand` from the accumulator, sets
    /// the flag to that of the subtraction, and moves the counter on.
    pub fn sub(&mut self, operand: usize) -> (r: Result<(), LMCError>)
        requires
            operand < 100,
        ensures
            r is Ok,
            final(self)@ == old(self)@.sub(operand as int),
            old(self)@.well_formed() ==> final(self)@.well_formed(),
    {
        let value = self.mailboxes[operand];
        if self.logger.enabled(&LogLevel::Debug) {
            self.note(
                LogLevel::Debug,
                operation_text("subtracting: ", self.calculator, " - ", value),
            );
        }
        self.calculator.sub_assign(value);
        self.flag = self.calculator.flag();
        self.note_flag();
        self.step_noted();
        Ok(())
    }

    /// STO: copies the accumulator into the mailbox at `operand` and moves
    /// the counter on.
    pub fn sto(&mut self, operand: usize) -> (r: Result<(), LMCError>)
        requires
            operand < 100,
        ensures
            r is Ok,
            final(self)@ == old(self)@.sto(operand as int),
            old(self)@.well_formed() ==> final(self)@.well_formed(),
    {
        let value = self.calculator;
        self.mailboxes[operand] = value;
        proof {
            assert(self@.mailboxes == old(self)@.mailboxes.update(operand as int, value@));
        }
        if self.logger.enabled(&LogLevel::Debug) {
            self.note(LogLevel::Debug, mailbox_text("storing to ", operand, value));
        }
        self.step_noted();
        Ok(())
    }

    /// LDA: copies the mailbox at `operand` into the accumulator, clears the
    /// flag, and moves the counter on.
    pub fn lda(&mut self, operand: usize) -> (r: Result<(), LMCError>)
        requires
            operand < 100,
        ensures
            r is Ok,
            final(self)@ == old(self)@.lda(operand as int),
            old(self)@.well_formed() ==> final(self)@.well_formed(),
    {
        let value = self.mailboxes[operand];
        self.calculator = value;
        self.flag = None;
        if self.logger.enabled(&LogLevel::Debug) {
            self.note(LogLevel::Debug, mailbox_text("loading from ", operand, value));
        }
        self.step_noted();
        Ok(())
    }

    /// BR: sets the counter to `operand`.
    pub fn br(&mut self, operand: usize)
        requires
            operand < 100,
        ensures
            final(self)@ == old(self)@.br(operand as int),
            old(self)@.well_formed() ==> final(self)@.well_formed(),
    {
        if self.logger.enabled(&LogLevel::Debug) {
            self.note(LogLevel::Debug, counter_text("branch: setting counter to ", operand));
        }
        self.set_counter(operand);
    }

    /// BRZ: sets the counter to `operand` if the accumulator is zero, and
    /// moves it on otherwise.
    pub fn brz(&mut self, operand: usize) -> (r: Result<(), LMCError>)
        requires
            operand < 100,
        ensures
            r is Ok,
            final(self)@ == old(self)@.brz(operand as int),
            old(self)@.well_formed() ==> final(self)@.well_formed(),
    {
        if self.calculator.value() == 0 {
            if self.logger.enabled(&LogLevel::Debug) {
                self.note(
                    LogLevel::Debug,
                    counter_text("branch zero: setting counter to ", operand),
                );
            }
            self.set_counter(operand);
        } else {
            if self.logger.enabled(&LogLevel::Debug) {
                self.note(
                    LogLevel::Debug,
                    "branch zero: incrementing counter by 1\n".to_owned(),
                );
            }
            self.step_counter();
        }
        Ok(())
    }

    /// BRP: moves the counter on if the flag is `NEG`, and sets it to
    /// `operand` otherwise: with no flag, and with `OVERFLOW`, it branches.
    pub fn brp(&mut self, operand: usize) -> (r: Result<(), LMCError>)
        requires
            operand < 100,
        ensures
            r is Ok,
            final(self)@ == old(self)@.brp(operand as int),
            old(self)@.flag != Some(Flag::NEG) ==> final(self)@.counter == operand,
            old(self)@.well_formed() ==> final(self)@.well_formed(),
    {
        match self.flag {
            Some(Flag::NEG) => {
                if self.logger.enabled(&LogLevel::Debug) {
                    self.note(
                        LogLevel::Debug,
                        "branch positive: incrementing counter by 1\n".to_owned(),
                    );
                }
                self.step_counter();
            },
            _ => {
                if self.logger.enabled(&LogLevel::Debug) {
                    let mut s = "branch positive: setting counter to ".to_owned();
                    push_padded_decimal(&mut s, operand as u64, 2);
                    s.append("\n");
                    self.note(LogLevel::Debug, s);
                }
                self.set_counter(operand);
            },
        }
        Ok(())
    }

    /// IN, as far as the input queue serves it: takes the first value that
    /// is waiting into the accumulator, moves the counter on and returns
    /// `true`; where none is waiting, changes nothing and returns `false`.
    pub fn read_input(&mut self) -> (r: Result<bool, LMCError>)
        ensures
            r matches Ok(taken) && taken == (old(self)@.inputs.len() > 0),
            old(self)@.inputs.len() > 0 ==> final(self)@ == old(self)@.read_input(),
            old(self)@.inputs.len() == 0 ==> final(self)@ == old(self)@,
            old(self)@.well_formed() ==> final(self)@.well_formed(),
    {
        let ghost before = self@.inputs;
        match self.in_basket.pop_front() {
            Some(number) => {
                proof {
                    assert(self@.inputs == before.skip(1));
                }
                self.calculator = number;
                self.step_counter();
                Ok(true)
            },
            None => Ok(false),
        }
    }

    /// IN, served from outside: reads the value that `line` denotes into
    /// the accumulator and moves the counter on. A line that denotes no
    /// three-digit number is refused and nothing is changed.
    pub fn accept_input(&mut self, line: &str) -> (r: Result<(), LMCError>)
        ensures
            match input_word(line@) {
                Ok(w) => r is Ok && final(self)@ == old(self)@.accept(w),
                Err(f) => r matches Err(e) && e@ == f && final(self)@ == old(self)@,
            },
            old(self)@.well_formed() ==> final(self)@.well_formed(),
    {
        match parse_input(line) {
            Ok(number) => {
                self.calculator = number;
                self.step_counter();
                Ok(())
            },
            Err(e) => Err(e),
        }
    }

    /// OUT: copies the accumulator into the output slot, keeps it to be
    /// shown unless the machine is quiet, and moves the counter on.
    pub fn write_output(&mut self) -> (r: Result<(), LMCError>)
        ensures
            r is Ok,
            final(self)@ == old(self)@.write_output(),
            old(self)@.well_formed() ==> final(self)@.well_formed(),
    {
        self.out_basket = Some(self.calculator);
        if !self.quiet {
            let ghost before = self@.shown;
            self.shown.push(self.calculator);
            proof {
                assert(self@.shown == before.push(self@.accumulator));
            }
        }
        self.step_counter();
        Ok(())
    }

    /// Goes on with the run: fetches and carries out instructions until the
    /// program halts, asks for a value that the input queue does not hold,
    /// fetches a word that is no instruction, or has used up its cycles.
    ///
    /// A run that waits for a value can be gone on with by [`LMC::resume`].
    pub fn run(&mut self) -> (r: Result<Execution, LMCError>)
        ensures
            final(self)@ == old(self)@.run().0,
            outcome_view(r) == old(self)@.run().1,
            final(self)@.max_cycles == old(self)@.max_cycles,
            final(self)@.logger == old(self)@.logger,
            old(self)@.cycles <= final(self)@.cycles,
            r matches Ok(Execution::AwaitingInput) ==> final(self)@.inputs.len() == 0,
            old(self)@.well_formed() ==> final(self)@.well_formed(),
    {
        proof {
            lemma_run_keeps_the_budget(self@);
        }
        self.fetch_execute()
    }

    fn fetch_execute(&mut self) -> (r: Result<Execution, LMCError>)
        ensures
            final(self)@ == old(self)@.run().0,
            outcome_view(r) == old(self)@.run().1,
            old(self)@.well_formed() ==> final(self)@.well_formed(),
    {
        loop
            invariant
                self@.run() == old(self)@.run(),
                old(self)@.well_formed() ==> self@.well_formed(),
            decreases usize::MAX - self@.cycles,
        {
            if self.cycles == usize::MAX {
                return Err(LMCError::MaxCyclesHit(self.cycles));
            }
            self.cycles += 1;
            if self.max_cycles == self.cycles {
                return Err(LMCError::MaxCyclesHit(self.cycles));
            }
            let instruction = self.mailboxes[self.counter.value() as usize];
            let opcode: i16 = instruction.value() / 100;
            let operand: usize = (instruction.value() % 100) as usize;
            if self.logger.enabled(&LogLevel::Debug) {
                self.note(LogLevel::Debug, instruction_text(instruction));
            }
            if opcode == 1 {
                match self.add(operand) {
                    Ok(_) => {},
                    Err(e) => {
                        return Err(e);
                    },
                }
            } else if opcode == 2 {
                match self.sub(operand) {
                    Ok(_) => {},
                    Err(e) => {
                        return Err(e);
                    },
                }
            } else if opcode == 3 {
                match self.sto(operand) {
                    Ok(_) => {},
                    Err(e) => {
                        return Err(e);
                    },
                }
            } else if opcode == 5 {
                match self.lda(operand) {
                    Ok(_) => {},
                    Err(e) => {
                        return Err(e);
                    },
                }
            } else if opcode == 6 {
                self.br(operand);
            } else if opcode == 7 {
                match self.brz(operand) {
                    Ok(_) => {},
                    Err(e) => {
                        return Err(e);
                    },
                }
            } else if opcode == 8 {
                match self.brp(operand) {
                    Ok(_) => {},
                    Err(e) => {
                        return Err(e);
                    },
                }
            } else if opcode == 9 {
                if operand == 1 {
                    match self.read_input() {
                        Ok(true) => {},
                        Ok(false) => {
                            return Ok(Execution::AwaitingInput);
                        },
                        Err(e) => {
                            return Err(e);
                        },
                    }
                } else if operand == 2 {
                    match self.write_output() {
                        Ok(_) => {},
                        Err(e) => {
                            return Err(e);
                        },
                    }
                } else {
                    return Err(LMCError::InvalidOpcode("909".to_owned()));
                }
            } else if opcode == 0 {
                if self.logger.enabled(&LogLevel::Info) {
                    self.note(
                        LogLevel::Info,
                        count_text("program halted after ", self.cycles, " cycles"),
                    );
                }
                return Ok(Execution::Halted);
            } else {
                return Err(LMCError::InvalidOpcode("004".to_owned()));
            }
        }
    }

    /// Runs the program from the counter on, with a fresh count of cycles:
    /// until it halts, asks for a value that the input queue does not hold,
    /// fetches a word that is no instruction, or has used up its cycles.
    pub fn execute_program(&mut self) -> (r: Result<Execution, LMCError>)
        ensures
            final(self)@ == old(self)@.start().run().0,
            outcome_view(r) == old(self)@.start().run().1,
            final(self)@.max_cycles == old(self)@.max_cycles,
            final(self)@.logger == old(self)@.logger,
            r matches Ok(Execution::AwaitingInput) ==> final(self)@.inputs.len() == 0,
            old(self)@.well_formed() ==> final(self)@.well_formed(),
    {
        self.cycles = 0;
        if self.logger.enabled(&LogLevel::Info) {
            self.note(LogLevel::Info, "executing program...".to_owned());
        }
        self.run()
    }

    /// Serves the pending IN with the value that `line` denotes and goes on
    /// with the run, with the count of cycles that the run has reached. A
    /// line that denotes no three-digit number ends the run with the fault
    /// and changes nothing.
    pub fn resume(&mut self, line: &str) -> (r: Result<Execution, LMCError>)
        ensures
            match input_word(line@) {
                Ok(w) => final(self)@ == old(self)@.accept(w).run().0 && outcome_view(r) == old(
                    self,
                )@.accept(w).run().1,
                Err(f) => r matches Err(e) && e@ == f && final(self)@ == old(self)@,
            },
            final(self)@.max_cycles == old(self)@.max_cycles,
            final(self)@.logger == old(self)@.logger,
            r matches Ok(Execution::AwaitingInput) ==> final(self)@.inputs.len() == 0,
            old(self)@.well_formed() ==> final(self)@.well_formed(),
    {
        match self.accept_input(line) {
            Ok(_) => self.run(),
            Err(e) => Err(e),
        }
    }
}

/// An instruction changes neither the settings of the machine nor its count
/// of cycles, and leaves a well-formed machine well formed. With a log that
/// shows no detail it logs nothing, but for a halt.
pub proof fn lemma_execute_keeps_well_formed(m: Machine)
    requires
        m.well_formed(),
    ensures
        m.execute().0.well_formed(),
        m.execute().0.cycles == m.cycles,
        m.execute().0.max_cycles == m.max_cycles,
        m.execute().0.quiet == m.quiet,
        m.execute().0.logger == m.logger,
        !m.logger.debug && !(m.execute().1 == Some(Outcome::Halted)) ==> m.execute().0.log
            == m.log,
{
    let word = m.mailboxes[m.counter];
    let operand = word.value % 100;
    assert(0 <= operand < 100);
    assert(0 <= m.mailboxes[operand].value <= 999);
    let next = m.execute().0;
    assert(next.mailboxes.len() == 100);
    assert forall|i: int| 0 <= i < 100 implies 0 <= (#[trigger] next.mailboxes[i]).value
        <= 999 by {
        assert(0 <= m.mailboxes[i].value <= 999);
    }
    if word.value / 100 == 9 && operand == 1 && m.inputs.len() > 0 {
        assert(0 <= m.inputs[0].value <= 999);
        assert forall|i: int| 0 <= i < next.inputs.len() implies 0 <= (
        #[trigger] next.inputs[i]).value <= 999 by {
            assert(next.inputs[i] == m.inputs[i + 1]);
        }
    }
}

/// A run leaves the maximum, the quiet setting and the settings of the log
/// as they are and never lowers the count of cycles. It fails with the
/// count at the maximum only when the count has reached the maximum, and it
/// waits for a value only when the input queue holds none.
pub proof fn lemma_run_keeps_the_budget(m: Machine)
    ensures
        m.run().0.max_cycles == m.max_cycles,
        m.run().0.quiet == m.quiet,
        m.run().0.logger == m.logger,
        m.cycles <= m.run().0.cycles,
        m.cycles < usize::MAX ==> m.cycles < m.run().0.cycles <= usize::MAX,
        m.run().1 == Outcome::Failed(LMCFault::MaxCyclesHit(m.max_cycles)) ==> m.run().0.cycles
            == m.max_cycles,
        m.run().1 is AwaitingInput ==> m.run().0.inputs.len() == 0,
    decreases usize::MAX - m.cycles,
{
    if m.cycles < usize::MAX {
        let counted = Machine { cycles: m.cycles + 1, ..m };
        if counted.cycles != counted.max_cycles {
            let (next, rest) = counted.execute();
            if rest is None {
                lemma_run_keeps_the_budget(next);
            }
        }
    }
}

/// A program that branches to itself is stopped by the maximum of cycles
/// and by nothing else: where the count is below the maximum, the run ends
/// with that fault when the count reaches the maximum, neither earlier nor
/// later, and leaves the machine as it was but for its log, which is as it
/// was too where it shows no detail.
pub proof fn lemma_self_branch_uses_up_the_budget(m: Machine)
    requires
        m.well_formed(),
        m.cycles < m.max_cycles,
        m.mailboxes[m.counter].value == 600 + m.counter,
    ensures
        m.run().1 == Outcome::Failed(LMCFault::MaxCyclesHit(m.max_cycles)),
        m.run().0.cycles == m.max_cycles,
        m.run().0.same_but_for_log_and_count(m),
        !m.logger.debug ==> m.run().0.log == m.log,
    decreases m.max_cycles - m.cycles,
{
    let counted = Machine { cycles: m.cycles + 1, ..m };
    if counted.cycles != counted.max_cycles {
        let (next, rest) = counted.execute();
        assert(rest is None);
        assert(next.same_but_for_log_and_count(m));
        lemma_self_branch_uses_up_the_budget(next);
    }
}

/// The one-line program `BR 0`, run from the first mailbox with a maximum
/// of `n` cycles, fails with the maximum hit when the count reaches `n`.
pub proof fn lemma_branch_to_zero_uses_up_the_budget(m: Machine, n: int)
    requires
        m.well_formed(),
        m.counter == 0,
        m.mailboxes[0].value == 600,
        m.max_cycles == n,
        0 < n,
    ensures
        m.start().run().1 == Outcome::Failed(LMCFault::MaxCyclesHit(n)),
        m.start().run().0.cycles == n,
        m.start().run().0.same_but_for_log_and_count(m),
{
    lemma_self_branch_uses_up_the_budget(m.start());
}

/// Every maximum but one lets the first instruction of a run be carried
/// out, zero included: a program that halts at once halts, and a word that
/// is no instruction is refused, with the machine left as it was but for
/// its log and its count of cycles.
pub proof fn lemma_first_instruction_is_carried_out(m: Machine)
    requires
        m.well_formed(),
        m.max_cycles != 1,
    ensures
        ({
            let word = m.mailboxes[m.counter].value;
            let (rest, outcome) = m.start().run();
            &&& word / 100 == 0 ==> outcome == Outcome::Halted && rest.cycles == 1
                && rest.same_but_for_log_and_count(m)
            &&& word / 100 == 4 ==> outcome == Outcome::Failed(LMCFault::InvalidOpcode("004"@))
                && rest.cycles == 1 && rest.same_but_for_log_and_count(m)
            &&& word / 100 == 9 && word % 100 != 1 && word % 100 != 2 ==> outcome
                == Outcome::Failed(LMCFault::InvalidOpcode("909"@)) && rest.cycles == 1
                && rest.same_but_for_log_and_count(m)
        }),
{
}

/// BRP branches unless the flag is `NEG`: with no flag it branches whatever
/// the accumulator holds, zero included, and with `OVERFLOW` it branches
/// too. Only the counter and the log change.
pub proof fn lemma_brp_branches_unless_negative(m: Machine, operand: int)
    ensures
        m.flag != Some(Flag::NEG) ==> m.brp(operand).counter == operand,
        m.flag is None && m.accumulator.value == 0 ==> m.brp(operand).counter == operand,
        m.flag == Some(Flag::OVERFLOW) ==> m.brp(operand).counter == operand,
        m.flag == Some(Flag::NEG) ==> m.brp(operand).counter == two_digit_sum(m.counter, 1).value,
        m.brp(operand) == (Machine {
            counter: m.brp(operand).counter,
            log: m.brp(operand).log,
            ..m
        }),
{
}

} // verus!
