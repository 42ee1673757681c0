//! The two-pass assembler: from mnemonic source lines to machine words.
//!
//! The first pass binds each label to the index of the line that declares
//! it; the second pass encodes each line as one word, resolving operands
//! through the labels.

use crate::logger::{entries, Entry, LogEvent, LogLevel, Logger};
use crate::numbers::{three_digit_sum, words, ThreeDigitNumber, TwoDigitNumber, Word};
use crate::text::{
    decimal, padded_decimal, parse_i64, parse_i64_text, push_decimal, same_text,
    split_whitespace, texts, tokens, trim, trimmed,
};
use vstd::prelude::*;
use vstd::string::*;

verus! {

/// Why a source text could not be assembled.
#[derive(Debug, PartialEq, Eq)]
pub enum AssemblerError {
    /// A token stands where a mnemonic is needed and is none.
    InvalidOpcode(String),
    /// An operand names a label that no line declares.
    InvalidLabel(String),
    /// A line has a number of tokens other than one, two or three; the
    /// number and the line are given.
    InvalidNumberOfMneumonics(usize, String),
    /// No line is left once comments and blank lines are removed.
    EmptyInput,
    /// More lines are left than the machine has mailboxes; their number is
    /// given.
    TooManyLinesOfInput(usize),
}

/// The mathematical content of an [`AssemblerError`].
pub ghost enum AssemblerFault {
    InvalidOpcode(Seq<char>),
    InvalidLabel(Seq<char>),
    InvalidNumberOfMneumonics(int, Seq<char>),
    EmptyInput,
    TooManyLinesOfInput(int),
}

impl View for AssemblerError {
    type V = AssemblerFault;

    open spec fn view(&self) -> AssemblerFault {
        match self {
            AssemblerError::InvalidOpcode(s) => AssemblerFault::InvalidOpcode(s@),
            AssemblerError::InvalidLabel(s) => AssemblerFault::InvalidLabel(s@),
            AssemblerError::InvalidNumberOfMneumonics(n, s) => {
                AssemblerFault::InvalidNumberOfMneumonics(*n as int, s@)
            },
            AssemblerError::EmptyInput => AssemblerFault::EmptyInput,
            AssemblerError::TooManyLinesOfInput(n) => AssemblerFault::TooManyLinesOfInput(
                *n as int,
            ),
        }
    }
}

/// The words in which a fault of the assembler is reported.
pub open spec fn assembler_fault_message(fault: AssemblerFault) -> Seq<char> {
    match fault {
        AssemblerFault::InvalidOpcode(opcode) => "invalid opcode: got "@ + opcode,
        AssemblerFault::InvalidLabel(label) => "invalid label: got "@ + label,
        AssemblerFault::InvalidNumberOfMneumonics(n, line) => {
            "invalid number of mneumonics in line "@ + decimal(n as nat) + ": "@ + line
        },
        AssemblerFault::EmptyInput => "empty input"@,
        AssemblerFault::TooManyLinesOfInput(n) => "too many lines of input: got "@ + decimal(
            n as nat,
        ),
    }
}

impl AssemblerError {
    /// The words in which the fault is reported.
    pub fn to_string(&self) -> (s: String)
        ensures
            s@ == assembler_fault_message(self@),
    {
        match self {
            AssemblerError::InvalidOpcode(opcode) => {
                let mut s = "invalid opcode: got ".to_owned();
                s.append(opcode.as_str());
                s
            },
            AssemblerError::InvalidLabel(label) => {
                let mut s = "invalid label: got ".to_owned();
                s.append(label.as_str());
                s
            },
            AssemblerError::InvalidNumberOfMneumonics(n, line) => {
                let mut s = "invalid number of mneumonics in line ".to_owned();
                push_decimal(&mut s, *n as u64);
                s.append(": ");
                s.append(line.as_str());
                s
            },
            AssemblerError::EmptyInput => "empty input".to_owned(),
            AssemblerError::TooManyLinesOfInput(n) => {
                let mut s = "too many lines of input: got ".to_owned();
                push_decimal(&mut s, *n as u64);
                s
            },
        }
    }
}

/// The mnemonics of the machine.
#[allow(non_camel_case_types)]
#[allow(clippy::upper_case_acronyms)]
#[derive(Debug, PartialEq, Eq, Clone, Copy, Structural)]
pub enum OPCODES {
    /// 1xx: add a mailbox to the accumulator.
    ADD,
    /// 2xx: subtract a mailbox from the accumulator.
    SUB,
    /// 3xx: store the accumulator in a mailbox.
    STO,
    /// 5xx: load a mailbox into the accumulator.
    LDA,
    /// 6xx: branch.
    BR,
    /// 7xx: branch if the accumulator is zero.
    BRZ,
    /// 8xx: branch unless the last operation went negative.
    BRP,
    /// 901: read a value into the accumulator.
    IN,
    /// 902: write the accumulator out.
    OUT,
    /// 000: halt.
    HLT,
    /// A data cell, not an instruction.
    DAT,
}

/// The word that a mnemonic stands for when it has no operand.
pub open spec fn base_code(op: OPCODES) -> int {
    match op {
        OPCODES::ADD => 100,
        OPCODES::SUB => 200,
        OPCODES::STO => 300,
        OPCODES::LDA => 500,
        OPCODES::BR => 600,
        OPCODES::BRZ => 700,
        OPCODES::BRP => 800,
        OPCODES::IN => 901,
        OPCODES::OUT => 902,
        OPCODES::HLT => 0,
        OPCODES::DAT => 0,
    }
}

/// The mnemonic that a token spells, letter for letter and in upper case.
pub open spec fn mnemonic(token: Seq<char>) -> Option<OPCODES> {
    if token == "ADD"@ {
        Some(OPCODES::ADD)
    } else if token == "SUB"@ {
        Some(OPCODES::SUB)
    } else if token == "STO"@ {
        Some(OPCODES::STO)
    } else if token == "LDA"@ {
        Some(OPCODES::LDA)
    } else if token == "BR"@ {
        Some(OPCODES::BR)
    } else if token == "BRZ"@ {
        Some(OPCODES::BRZ)
    } else if token == "BRP"@ {
        Some(OPCODES::BRP)
    } else if token == "IN"@ {
        Some(OPCODES::IN)
    } else if token == "OUT"@ {
        Some(OPCODES::OUT)
    } else if token == "HLT"@ {
        Some(OPCODES::HLT)
    } else if token == "DAT"@ {
        Some(OPCODES::DAT)
    } else {
        None
    }
}

impl OPCODES {
    /// The word that the mnemonic stands for when it has no operand.
    pub fn to_number(&self) -> (r: ThreeDigitNumber)
        ensures
            r@ == (Word { value: base_code(*self), flag: None }),
    {
        let code: i16 = match self {
            OPCODES::ADD => 100,
            OPCODES::SUB => 200,
            OPCODES::STO => 300,
            OPCODES::LDA => 500,
            OPCODES::BR => 600,
            OPCODES::BRZ => 700,
            OPCODES::BRP => 800,
            OPCODES::IN => 901,
            OPCODES::OUT => 902,
            OPCODES::HLT => 0,
            OPCODES::DAT => 0,
        };
        ThreeDigitNumber::new(code).unwrap()
    }

    /// The mnemonic that `opcode` spells; any other text is refused and
    /// handed back in the error.
    pub fn from_str(opcode: &str) -> (r: Result<OPCODES, AssemblerError>)
        ensures
            match mnemonic(opcode@) {
                Some(op) => r == Ok::<OPCODES, AssemblerError>(op),
                None => r is Err && r->Err_0@ == AssemblerFault::InvalidOpcode(opcode@),
            },
    {
        if same_text(opcode, "ADD") {
            Ok(OPCODES::ADD)
        } else if same_text(opcode, "SUB") {
            Ok(OPCODES::SUB)
        } else if same_text(opcode, "STO") {
            Ok(OPCODES::STO)
        } else if same_text(opcode, "LDA") {
            Ok(OPCODES::LDA)
        } else if same_text(opcode, "BR") {
            Ok(OPCODES::BR)
        } else if same_text(opcode, "BRZ") {
            Ok(OPCODES::BRZ)
        } else if same_text(opcode, "BRP") {
            Ok(OPCODES::BRP)
        } else if same_text(opcode, "IN") {
            Ok(OPCODES::IN)
        } else if same_text(opcode, "OUT") {
            Ok(OPCODES::OUT)
        } else if same_text(opcode, "HLT") {
            Ok(OPCODES::HLT)
        } else if same_text(opcode, "DAT") {
            Ok(OPCODES::DAT)
        } else {
            Err(AssemblerError::InvalidOpcode(opcode.to_owned()))
        }
    }
}

/// The bindings that a list of declarations leaves: a later declaration of a
/// name replaces an earlier one.
pub open spec fn bindings(entries: Seq<(String, TwoDigitNumber)>) -> Map<Seq<char>, int>
    decreases entries.len(),
{
    if entries.len() == 0 {
        Map::empty()
    } else {
        bindings(entries.drop_last()).insert(entries.last().0@, entries.last().1@.value)
    }
}

/// Declarations behind position `n` that do not name `name` leave its
/// binding as the first `n` declarations made it.
pub proof fn lemma_bindings_tail(entries: Seq<(String, TwoDigitNumber)>, name: Seq<char>, n: int)
    requires
        0 <= n <= entries.len(),
        forall|k: int| n <= k < entries.len() ==> (#[trigger] entries[k]).0@ != name,
    ensures
        bindings(entries).dom().contains(name) == bindings(entries.take(n)).dom().contains(name),
        bindings(entries).dom().contains(name) ==> bindings(entries)[name] == bindings(
            entries.take(n),
        )[name],
    decreases entries.len() - n,
{
    if n == entries.len() {
        assert(entries.take(n) == entries);
    } else {
        let shorter = entries.drop_last();
        assert(shorter.take(n) == entries.take(n));
        lemma_bindings_tail(shorter, name, n);
    }
}

/// The labels of a program: each name with the address of the line that
/// declares it.
pub struct LabelTable {
    entries: Vec<(String, TwoDigitNumber)>,
}

impl View for LabelTable {
    type V = Map<Seq<char>, int>;

    closed spec fn view(&self) -> Map<Seq<char>, int> {
        bindings(self.entries@)
    }
}

impl LabelTable {
    /// A table without labels.
    pub fn new() -> (t: Self)
        ensures
            t@ == Map::<Seq<char>, int>::empty(),
    {
        LabelTable { entries: Vec::new() }
    }

    /// Binds `name` to `line`, replacing what `name` was bound to before.
    pub fn insert(&mut self, name: String, line: TwoDigitNumber)
        ensures
            final(self)@ == old(self)@.insert(name@, line@.value),
    {
        proof {
            assert(self.entries@.push((name, line)).drop_last() == self.entries@);
        }
        self.entries.push((name, line));
    }

    /// The line that `name` is bound to, if it is bound.
    pub fn get(&self, name: &str) -> (r: Option<TwoDigitNumber>)
        ensures
            match r {
                Some(line) => self@.dom().contains(name@) && self@[name@] == line@.value,
                None => !self@.dom().contains(name@),
            },
    {
        let mut i: usize = self.entries.len();
        while i > 0
            invariant
                i <= self.entries@.len(),
                forall|k: int|
                    i <= k < self.entries@.len() ==> (#[trigger] self.entries@[k]).0@ != name@,
            decreases i,
        {
            if same_text(self.entries[i - 1].0.as_str(), name) {
                proof {
                    lemma_bindings_tail(self.entries@, name@, i as int);
                    assert(self.entries@.take(i as int).drop_last() == self.entries@.take(i - 1));
                }
                return Some(self.entries[i - 1].1);
            }
            i -= 1;
        }
        proof {
            lemma_bindings_tail(self.entries@, name@, 0);
        }
        None
    }
}

/// The word of a mnemonic that stands without an operand.
pub open spec fn plain_word(op: OPCODES) -> Word {
    Word { value: base_code(op), flag: None }
}

/// The word of a mnemonic whose operand names a label: the base code plus
/// the address of the label, by three-digit addition.
pub open spec fn operand_word(op: OPCODES, operand: Seq<char>, labels: Map<Seq<char>, int>) -> Result<
    Word,
    AssemblerFault,
> {
    if labels.dom().contains(operand) {
        Ok(three_digit_sum(base_code(op), labels[operand]))
    } else {
        Err(AssemblerFault::InvalidLabel(operand))
    }
}

/// The word that a data literal denotes: a signed decimal integer that is a
/// three-digit number. Other texts denote no word.
pub open spec fn literal_word(text: Seq<char>) -> Option<Word> {
    match parse_i64_text(text) {
        Ok(v) => if 0 <= v <= 999 {
            Some(Word { value: v, flag: None })
        } else {
            None
        },
        Err(_) => None,
    }
}

/// What the first pass makes of one line: the label that the line declares,
/// if it declares one.
///
/// A line of one token is a bare mnemonic. In a line of two tokens the first
/// is a label unless it is a mnemonic, and then the second must be one. In a
/// line of three tokens the first is a label.
pub open spec fn declared_label(line: Seq<char>) -> Result<Option<Seq<char>>, AssemblerFault> {
    let t = tokens(line);
    if t.len() == 1 {
        Ok(None)
    } else if t.len() == 2 {
        if mnemonic(t[0]) is Some {
            Ok(None)
        } else if mnemonic(t[1]) is Some {
            Ok(Some(t[0]))
        } else {
            Err(AssemblerFault::InvalidOpcode(t[1]))
        }
    } else if t.len() == 3 {
        Ok(Some(t[0]))
    } else {
        Err(AssemblerFault::InvalidNumberOfMneumonics(t.len() as int, line))
    }
}

/// The labels that the first `n` lines declare, each bound to the index of
/// its line; where a name is declared twice the later line wins. The first
/// line that the first pass refuses ends it.
pub open spec fn declared_labels(lines: Seq<Seq<char>>, n: int) -> Result<
    Map<Seq<char>, int>,
    AssemblerFault,
>
    decreases n,
{
    if n <= 0 {
        Ok(Map::empty())
    } else {
        match declared_labels(lines, n - 1) {
            Err(e) => Err(e),
            Ok(labels) => match declared_label(lines[n - 1]) {
                Err(e) => Err(e),
                Ok(None) => Ok(labels),
                Ok(Some(name)) => Ok(labels.insert(name, n - 1)),
            },
        }
    }
}

/// What the second pass makes of one line: its word, the fault that refuses
/// it, or nothing where the line declares a data cell whose literal denotes
/// no word.
pub open spec fn encoded_line(line: Seq<char>, labels: Map<Seq<char>, int>) -> Option<
    Result<Word, AssemblerFault>,
> {
    let t = tokens(line);
    if t.len() == 1 {
        match mnemonic(t[0]) {
            Some(op) => Some(Ok(plain_word(op))),
            None => Some(Err(AssemblerFault::InvalidOpcode(t[0]))),
        }
    } else if t.len() == 2 {
        match mnemonic(t[0]) {
            Some(op) => Some(operand_word(op, t[1], labels)),
            None => match mnemonic(t[1]) {
                Some(op) => Some(Ok(plain_word(op))),
                None => Some(Err(AssemblerFault::InvalidOpcode(t[1]))),
            },
        }
    } else if t.len() == 3 {
        match mnemonic(t[1]) {
            None => Some(Err(AssemblerFault::InvalidOpcode(t[1]))),
            Some(OPCODES::DAT) => match literal_word(t[2]) {
                Some(w) => Some(Ok(w)),
                None => None,
            },
            Some(op) => Some(operand_word(op, t[2], labels)),
        }
    } else {
        Some(Err(AssemblerFault::InvalidNumberOfMneumonics(t.len() as int, line)))
    }
}

/// What the second pass makes of the first `n` lines: one word for each, in
/// order. The first line that yields no word ends it.
pub open spec fn encoded_lines(lines: Seq<Seq<char>>, labels: Map<Seq<char>, int>, n: int) -> Option<
    Result<Seq<Word>, AssemblerFault>,
>
    decreases n,
{
    if n <= 0 {
        Some(Ok(Seq::empty()))
    } else {
        match encoded_lines(lines, labels, n - 1) {
            Some(Ok(ws)) => match encoded_line(lines[n - 1], labels) {
                Some(Ok(w)) => Some(Ok(ws.push(w))),
                Some(Err(e)) => Some(Err(e)),
                None => None,
            },
            other => other,
        }
    }
}

/// A fault in the first pass is final: the lines behind the one that caused
/// it are not looked at.
pub proof fn lemma_first_pass_stops(lines: Seq<Seq<char>>, k: int, n: int)
    requires
        k <= n,
        declared_labels(lines, k) is Err,
    ensures
        declared_labels(lines, n) == declared_labels(lines, k),
    decreases n - k,
{
    if k < n {
        lemma_first_pass_stops(lines, k, n - 1);
    }
}

/// A line that yields no word ends the second pass: the lines behind it are
/// not looked at.
pub proof fn lemma_second_pass_stops(
    lines: Seq<Seq<char>>,
    labels: Map<Seq<char>, int>,
    k: int,
    n: int,
)
    requires
        k <= n,
        !(encoded_lines(lines, labels, k) matches Some(Ok(_))),
    ensures
        encoded_lines(lines, labels, n) == encoded_lines(lines, labels, k),
    decreases n - k,
{
    if k < n {
        lemma_second_pass_stops(lines, labels, k, n - 1);
    }
}

/// The lines that are assembled: each line trimmed, and the lines that are
/// then empty left out.
pub open spec fn source_lines(stripped: Seq<Seq<char>>) -> Seq<Seq<char>> {
    stripped.map_values(|l: Seq<char>| trimmed(l)).filter(|l: Seq<char>| l.len() > 0)
}

/// The program that trimmed, non-empty lines assemble to: both passes, one
/// after the other.
pub open spec fn assembled(lines: Seq<Seq<char>>) -> Option<Result<Seq<Word>, AssemblerFault>> {
    if lines.len() == 0 {
        Some(Err(AssemblerFault::EmptyInput))
    } else if lines.len() > 100 {
        Some(Err(AssemblerFault::TooManyLinesOfInput(lines.len() as int)))
    } else {
        match declared_labels(lines, lines.len() as int) {
            Err(e) => Some(Err(e)),
            Ok(labels) => encoded_lines(lines, labels, lines.len() as int),
        }
    }
}

/// What `regex::Regex::new(pattern)` followed by `replace_all(text,
/// replacement)` on the compiled expression returns: the text with every
/// match replaced, or nothing where `pattern` is refused.
pub uninterp spec fn regex_replace_all(
    pattern: Seq<char>,
    text: Seq<char>,
    replacement: Seq<char>,
) -> Option<Seq<char>>;

/// A line without its comment: what is left once the expression `#.*$` is
/// replaced by nothing.
pub open spec fn without_comment(line: Seq<char>) -> Option<Seq<char>> {
    regex_replace_all("#.*$"@, line, ""@)
}

/// Whether every line of `source` can be stripped of its comment.
pub open spec fn strippable(source: Seq<Seq<char>>) -> bool {
    forall|i: int| 0 <= i < source.len() ==> (#[trigger] without_comment(source[i])) is Some
}

/// The program that a source text assembles to: its lines are stripped of
/// comments, trimmed, and assembled. There is none where a comment cannot
/// be stripped or a data literal denotes no word.
pub open spec fn assembly(source: Seq<Seq<char>>) -> Option<Result<Seq<Word>, AssemblerFault>> {
    if strippable(source) {
        assembled(source_lines(source.map_values(|l: Seq<char>| without_comment(l)->Some_0)))
    } else {
        None
    }
}

/// The mathematical content of what an assembly returns.
pub open spec fn program_view(r: Result<Vec<ThreeDigitNumber>, AssemblerError>) -> Result<
    Seq<Word>,
    AssemblerFault,
> {
    match r {
        Ok(v) => Ok(words(v@)),
        Err(e) => Err(e@),
    }
}

/// The mathematical content of what an attempted assembly returns.
pub open spec fn attempt_view(r: Option<Result<Vec<ThreeDigitNumber>, AssemblerError>>) -> Option<
    Result<Seq<Word>, AssemblerFault>,
> {
    match r {
        Some(p) => Some(program_view(p)),
        None => None,
    }
}

/// Compiles `pattern` with `regex::Regex::new` and calls
/// `regex::Regex::replace_all` on `text` with the replacement text
/// `replacement`. The contract gives what comes back a name and claims
/// nothing else of it: the text with the matches replaced where the pattern
/// compiles, nothing where it does not.
#[verifier::external_body]
fn replace_all(pattern: &str, text: &str, replacement: &str) -> (r: Option<String>)
    ensures
        match r {
            Some(s) => regex_replace_all(pattern@, text@, replacement@) == Some(s@),
            None => regex_replace_all(pattern@, text@, replacement@) is None,
        },
{
    match regex::Regex::new(pattern) {
        Ok(re) => Some(re.replace_all(text, replacement).into_owned()),
        Err(_) => None,
    }
}

/// The lines of `source` without their comments, or nothing where a comment
/// cannot be stripped.
pub fn strip_comments(source: &Vec<String>) -> (r: Option<Vec<String>>)
    ensures
        r is Some == strippable(texts(source@)),
        r matches Some(v) ==> texts(v@) == texts(source@).map_values(
            |l: Seq<char>| without_comment(l)->Some_0,
        ),
{
    let mut out: Vec<String> = Vec::new();
    let mut i: usize = 0;
    while i < source.len()
        invariant
            i <= source@.len(),
            out@.len() == i,
            forall|k: int|
                0 <= k < i ==> without_comment(#[trigger] texts(source@)[k]) == Some(out@[k]@),
        decreases source@.len() - i,
    {
        match replace_all("#.*$", source[i].as_str(), "") {
            Some(line) => {
                out.push(line);
            },
            None => {
                assert(without_comment(texts(source@)[i as int]) is None);
                return None;
            },
        }
        i += 1;
    }
    proof {
        assert(texts(out@) =~= texts(source@).map_values(
            |l: Seq<char>| without_comment(l)->Some_0,
        ));
    }
    Some(out)
}

/// The lines that are assembled: each line trimmed, and the lines that are
/// then empty left out.
pub fn prepare(stripped: &Vec<String>) -> (r: Vec<String>)
    ensures
        texts(r@) == source_lines(texts(stripped@)),
        forall|k: int| 0 <= k < r@.len() ==> (#[trigger] r@[k])@.len() > 0,
{
    let ghost keep = |l: Seq<char>| l.len() > 0;
    let ghost all = texts(stripped@).map_values(|l: Seq<char>| trimmed(l));
    let mut out: Vec<String> = Vec::new();
    let mut i: usize = 0;
    while i < stripped.len()
        invariant
            i <= stripped@.len(),
            all == texts(stripped@).map_values(|l: Seq<char>| trimmed(l)),
            keep == |l: Seq<char>| l.len() > 0,
            texts(out@) == all.take(i as int).filter(keep),
            forall|k: int| 0 <= k < out@.len() ==> (#[trigger] out@[k])@.len() > 0,
        decreases stripped@.len() - i,
    {
        let line = trim(stripped[i].as_str());
        proof {
            assert(all.take(i + 1).drop_last() == all.take(i as int));
            assert(all.take(i + 1).last() == line@);
            reveal(Seq::filter);
            assert(texts(out@.push(line)) == texts(out@).push(line@));
        }
        if !line.as_str().is_empty() {
            out.push(line);
        }
        i += 1;
    }
    proof {
        assert(all.take(i as int) == all);
    }
    out
}

/// The event of a label being bound.
pub open spec fn inserting_message(name: Seq<char>, index: int) -> Seq<char> {
    "inserting label "@ + name + " at index "@ + decimal(index as nat)
}

/// The event of a line being encoded.
pub open spec fn encoded_message(index: int, word: Word) -> Seq<char> {
    decimal(index as nat) + ":\t"@ + padded_decimal(word.value as nat, 3)
}

/// Whether the word of a line is logged: the word of every line but one of
/// two tokens whose first is a label.
pub open spec fn logs_word(line: Seq<char>) -> bool {
    let t = tokens(line);
    !(t.len() == 2 && mnemonic(t[0]) is None)
}

/// The log after the first pass over the first `n` lines: each label bound
/// is noted, up to the line that the pass refuses.
pub open spec fn first_pass_log(logger: Logger, lines: Seq<Seq<char>>, n: int, log: Seq<Entry>) -> Seq<
    Entry,
>
    decreases n,
{
    if n <= 0 {
        log
    } else {
        let before = first_pass_log(logger, lines, n - 1, log);
        match declared_labels(lines, n - 1) {
            Err(_) => before,
            Ok(_) => match declared_label(lines[n - 1]) {
                Ok(Some(name)) => logger.noted(
                    before,
                    LogLevel::Debug,
                    inserting_message(name, n - 1),
                ),
                _ => before,
            },
        }
    }
}

/// The log after the second pass over the first `n` lines: each word that
/// is logged is noted, up to the line that yields none.
pub open spec fn second_pass_log(
    logger: Logger,
    lines: Seq<Seq<char>>,
    labels: Map<Seq<char>, int>,
    n: int,
    log: Seq<Entry>,
) -> Seq<Entry>
    decreases n,
{
    if n <= 0 {
        log
    } else {
        let before = second_pass_log(logger, lines, labels, n - 1, log);
        match encoded_lines(lines, labels, n - 1) {
            Some(Ok(_)) => match encoded_line(lines[n - 1], labels) {
                Some(Ok(w)) => if logs_word(lines[n - 1]) {
                    logger.noted(before, LogLevel::Debug, encoded_message(n - 1, w))
                } else {
                    before
                },
                _ => before,
            },
            _ => before,
        }
    }
}

/// The log after trimmed, non-empty lines are assembled: the passes are
/// noted as they begin, and each notes its own events.
pub open spec fn assembled_log(logger: Logger, lines: Seq<Seq<char>>, log: Seq<Entry>) -> Seq<
    Entry,
> {
    if lines.len() == 0 || lines.len() > 100 {
        log
    } else {
        let first = first_pass_log(
            logger,
            lines,
            lines.len() as int,
            logger.noted(log, LogLevel::Info, "starting first pass..."@),
        );
        match declared_labels(lines, lines.len() as int) {
            Err(_) => first,
            Ok(labels) => second_pass_log(
                logger,
                lines,
                labels,
                lines.len() as int,
                logger.noted(first, LogLevel::Info, "starting second pass..."@),
            ),
        }
    }
}

/// The log after lines that hold no comments are assembled.
pub open spec fn lines_log(logger: Logger, stripped: Seq<Seq<char>>, log: Seq<Entry>) -> Seq<
    Entry,
> {
    assembled_log(
        logger,
        source_lines(stripped),
        logger.noted(log, LogLevel::Debug, "removing empty lines..."@),
    )
}

/// The log after a source text that can be stripped of its comments is
/// assembled.
pub open spec fn assembly_log(logger: Logger, source: Seq<Seq<char>>, log: Seq<Entry>) -> Seq<
    Entry,
> {
    lines_log(
        logger,
        source.map_values(|l: Seq<char>| without_comment(l)->Some_0),
        logger.noted(
            logger.noted(log, LogLevel::Info, "assembling program into machine code..."@),
            LogLevel::Debug,
            "stripping comments..."@,
        ),
    )
}

/// A fault in the first pass ends its log as well.
pub proof fn lemma_first_pass_log_stops(
    logger: Logger,
    lines: Seq<Seq<char>>,
    k: int,
    n: int,
    log: Seq<Entry>,
)
    requires
        k <= n,
        declared_labels(lines, k) is Err,
    ensures
        first_pass_log(logger, lines, n, log) == first_pass_log(logger, lines, k, log),
    decreases n - k,
{
    if k < n {
        lemma_first_pass_stops(lines, k, n - 1);
        lemma_first_pass_log_stops(logger, lines, k, n - 1, log);
    }
}

/// A line that yields no word ends the log of the second pass as well.
pub proof fn lemma_second_pass_log_stops(
    logger: Logger,
    lines: Seq<Seq<char>>,
    labels: Map<Seq<char>, int>,
    k: int,
    n: int,
    log: Seq<Entry>,
)
    requires
        k <= n,
        !(encoded_lines(lines, labels, k) matches Some(Ok(_))),
    ensures
        second_pass_log(logger, lines, labels, n, log) == second_pass_log(
            logger,
            lines,
            labels,
            k,
            log,
        ),
    decreases n - k,
{
    if k < n {
        lemma_second_pass_stops(lines, labels, k, n - 1);
        lemma_second_pass_log_stops(logger, lines, labels, k, n - 1, log);
    }
}

/// The first pass: the labels that the lines declare, each bound to the
/// index of its line. Each binding is noted in `log`.
pub fn collect_labels(lines: &Vec<String>, logger: &Logger, log: &mut Vec<LogEvent>) -> (r: Result<
    LabelTable,
    AssemblerError,
>)
    requires
        lines@.len() <= 100,
    ensures
        match declared_labels(texts(lines@), lines@.len() as int) {
            Ok(labels) => r matches Ok(t) && t@ == labels,
            Err(e) => r matches Err(x) && x@ == e,
        },
        entries(final(log)@) == first_pass_log(
            *logger,
            texts(lines@),
            lines@.len() as int,
            entries(old(log)@),
        ),
{
    let mut labels = LabelTable::new();
    let mut i: usize = 0;
    while i < lines.len()
        invariant
            i <= lines@.len() <= 100,
            declared_labels(texts(lines@), i as int) == Ok::<Map<Seq<char>, int>, AssemblerFault>(
                labels@,
            ),
            entries(log@) == first_pass_log(*logger, texts(lines@), i as int, entries(old(log)@)),
        decreases lines@.len() - i,
    {
        let line = lines[i].as_str();
        let mut parts = split_whitespace(line);
        let n = parts.len();
        let ghost all = texts(parts@);
        assert(all.len() == n);
        if n == 2 {
            let second = parts.pop().unwrap();
            let first = parts.pop().unwrap();
            assert(first@ == all[0] && second@ == all[1]);
            if OPCODES::from_str(first.as_str()).is_err() {
                match OPCODES::from_str(second.as_str()) {
                    Ok(_) => {
                        note_label(logger, log, first.as_str(), i);
                        labels.insert(first, TwoDigitNumber::new(i as u8).unwrap());
                    },
                    Err(e) => {
                        proof {
                            lemma_first_pass_stops(texts(lines@), i + 1, lines@.len() as int);
                            lemma_first_pass_log_stops(
                                *logger,
                                texts(lines@),
                                i + 1,
                                lines@.len() as int,
                                entries(old(log)@),
                            );
                        }
                        return Err(e);
                    },
                }
            }
        } else if n == 3 {
            parts.truncate(1);
            let first = parts.pop().unwrap();
            assert(first@ == all[0]);
            note_label(logger, log, first.as_str(), i);
            labels.insert(first, TwoDigitNumber::new(i as u8).unwrap());
        } else if n != 1 {
            proof {
                lemma_first_pass_stops(texts(lines@), i + 1, lines@.len() as int);
                lemma_first_pass_log_stops(
                    *logger,
                    texts(lines@),
                    i + 1,
                    lines@.len() as int,
                    entries(old(log)@),
                );
            }
            return Err(AssemblerError::InvalidNumberOfMneumonics(n, line.to_owned()));
        }
        i += 1;
    }
    Ok(labels)
}

/// Notes that `name` is bound to the line `index`.
fn note_label(logger: &Logger, log: &mut Vec<LogEvent>, name: &str, index: usize)
    ensures
        entries(final(log)@) == logger.noted(
            entries(old(log)@),
            LogLevel::Debug,
            inserting_message(name@, index as int),
        ),
{
    if logger.enabled(&LogLevel::Debug) {
        let mut s = "inserting label ".to_owned();
        s.append(name);
        s.append(" at index ");
        push_decimal(&mut s, index as u64);
        logger.note(log, LogLevel::Debug, s);
    }
}

/// Notes that the line `index` is encoded as `word`.
fn note_word(logger: &Logger, log: &mut Vec<LogEvent>, index: usize, word: ThreeDigitNumber)
    ensures
        entries(final(log)@) == logger.noted(
            entries(old(log)@),
            LogLevel::Debug,
            encoded_message(index as int, word@),
        ),
{
    if logger.enabled(&LogLevel::Debug) {
        let mut s = String::new();
        push_decimal(&mut s, index as u64);
        s.append(":\t");
        s.append(word.to_string().as_str());
        proof {
            assert(s@ == encoded_message(index as int, word@));
        }
        logger.note(log, LogLevel::Debug, s);
    }
}

/// The word of `op` with an operand that names a label.
fn resolve(op: OPCODES, operand: String, labels: &LabelTable) -> (r: Result<
    ThreeDigitNumber,
    AssemblerError,
>)
    ensures
        match operand_word(op, operand@, labels@) {
            Ok(w) => r matches Ok(x) && x@ == w,
            Err(e) => r matches Err(x) && x@ == e,
        },
{
    match labels.get(operand.as_str()) {
        Some(address) => {
            let value = ThreeDigitNumber::new(address.value() as i16).unwrap();
            Ok(op.to_number().add(value).unwrap())
        },
        None => Err(AssemblerError::InvalidLabel(operand)),
    }
}

/// The second pass on one line: its word, the fault that refuses it, or
/// nothing where the line declares a data cell whose literal denotes no
/// word.
pub fn encode_line(line: &str, labels: &LabelTable) -> (r: Option<
    Result<ThreeDigitNumber, AssemblerError>,
>)
    ensures
        match encoded_line(line@, labels@) {
            Some(Ok(w)) => r matches Some(Ok(x)) && x@ == w,
            Some(Err(e)) => r matches Some(Err(x)) && x@ == e,
            None => r is None,
        },
{
    match encode(line, labels) {
        Some(Ok(pair)) => Some(Ok(pair.0)),
        Some(Err(e)) => Some(Err(e)),
        None => None,
    }
}

/// The second pass on one line, with whether the word is logged.
fn encode(line: &str, labels: &LabelTable) -> (r: Option<
    Result<(ThreeDigitNumber, bool), AssemblerError>,
>)
    ensures
        match encoded_line(line@, labels@) {
            Some(Ok(w)) => r matches Some(Ok(x)) && x.0@ == w && x.1 == logs_word(line@),
            Some(Err(e)) => r matches Some(Err(x)) && x@ == e,
            None => r is None,
        },
{
    let mut parts = split_whitespace(line);
    let n = parts.len();
    let ghost all = texts(parts@);
    assert(all.len() == n);
    if n == 1 {
        let only = parts.pop().unwrap();
        assert(only@ == all[0]);
        match OPCODES::from_str(only.as_str()) {
            Ok(op) => Some(Ok((op.to_number(), true))),
            Err(e) => Some(Err(e)),
        }
    } else if n == 2 {
        let second = parts.pop().unwrap();
        let first = parts.pop().unwrap();
        assert(first@ == all[0] && second@ == all[1]);
        match OPCODES::from_str(first.as_str()) {
            Ok(op) => match resolve(op, second, labels) {
                Ok(word) => Some(Ok((word, true))),
                Err(e) => Some(Err(e)),
            },
            Err(_) => match OPCODES::from_str(second.as_str()) {
                Ok(op) => Some(Ok((op.to_number(), false))),
                Err(e) => Some(Err(e)),
            },
        }
    } else if n == 3 {
        let third = parts.pop().unwrap();
        let second = parts.pop().unwrap();
        assert(second@ == all[1] && third@ == all[2]);
        match OPCODES::from_str(second.as_str()) {
            Err(e) => Some(Err(e)),
            Ok(OPCODES::DAT) => match parse_i64(third.as_str()) {
                Ok(v) => {
                    if 0 <= v && v <= 999 {
                        match ThreeDigitNumber::new(v as i16) {
                            Ok(w) => Some(Ok((w, true))),
                            Err(_) => None,
                        }
                    } else {
                        None
                    }
                },
                Err(_) => None,
            },
            Ok(op) => match resolve(op, third, labels) {
                Ok(word) => Some(Ok((word, true))),
                Err(e) => Some(Err(e)),
            },
        }
    } else {
        Some(Err(AssemblerError::InvalidNumberOfMneumonics(n, line.to_owned())))
    }
}

/// Assembles lines that hold no comments, noting what happens in `log`.
fn attempt_lines(logger: &Logger, stripped: &Vec<String>, log: &mut Vec<LogEvent>) -> (r: Option<
    Result<Vec<ThreeDigitNumber>, AssemblerError>,
>)
    ensures
        attempt_view(r) == assembled(source_lines(texts(stripped@))),
        entries(final(log)@) == lines_log(*logger, texts(stripped@), entries(old(log)@)),
{
    if logger.enabled(&LogLevel::Debug) {
        logger.note(log, LogLevel::Debug, "removing empty lines...".to_owned());
    }
    let lines = prepare(stripped);
    if lines.len() == 0 {
        return Some(Err(AssemblerError::EmptyInput));
    }
    if lines.len() > 100 {
        return Some(Err(AssemblerError::TooManyLinesOfInput(lines.len())));
    }
    if logger.enabled(&LogLevel::Info) {
        logger.note(log, LogLevel::Info, "starting first pass...".to_owned());
    }
    let labels = match collect_labels(&lines, logger, log) {
        Ok(labels) => labels,
        Err(e) => {
            return Some(Err(e));
        },
    };
    if logger.enabled(&LogLevel::Info) {
        logger.note(log, LogLevel::Info, "starting second pass...".to_owned());
    }
    let ghost begun = entries(log@);
    let mut out: Vec<ThreeDigitNumber> = Vec::new();
    let mut i: usize = 0;
    proof {
        assert(words(out@) == Seq::<Word>::empty());
    }
    while i < lines.len()
        invariant
            i <= lines@.len(),
            0 < lines@.len() <= 100,
            texts(lines@) == source_lines(texts(stripped@)),
            declared_labels(texts(lines@), lines@.len() as int) == Ok::<
                Map<Seq<char>, int>,
                AssemblerFault,
            >(labels@),
            encoded_lines(texts(lines@), labels@, i as int) == Some(
                Ok::<Seq<Word>, AssemblerFault>(words(out@)),
            ),
            entries(log@) == second_pass_log(*logger, texts(lines@), labels@, i as int, begun),
            second_pass_log(*logger, texts(lines@), labels@, lines@.len() as int, begun)
                == lines_log(*logger, texts(stripped@), entries(old(log)@)),
        decreases lines@.len() - i,
    {
        match encode(lines[i].as_str(), &labels) {
            Some(Ok(pair)) => {
                proof {
                    assert(words(out@.push(pair.0)) == words(out@).push(pair.0@));
                }
                if pair.1 {
                    note_word(logger, log, i, pair.0);
                }
                out.push(pair.0);
            },
            Some(Err(e)) => {
                proof {
                    lemma_second_pass_stops(texts(lines@), labels@, i + 1, lines@.len() as int);
                    lemma_second_pass_log_stops(
                        *logger,
                        texts(lines@),
                        labels@,
                        i + 1,
                        lines@.len() as int,
                        begun,
                    );
                }
                return Some(Err(e));
            },
            None => {
                proof {
                    lemma_second_pass_stops(texts(lines@), labels@, i + 1, lines@.len() as int);
                    lemma_second_pass_log_stops(
                        *logger,
                        texts(lines@),
                        labels@,
                        i + 1,
                        lines@.len() as int,
                        begun,
                    );
                }
                return None;
            },
        }
        i += 1;
    }
    Some(Ok(out))
}

/// The assembler: the settings of its log, and the events logged that are
/// yet to be written. What it assembles depends on neither.
pub struct Assembler {
    logger: Logger,
    events: Vec<LogEvent>,
}

/// The mathematical content of an [`Assembler`].
pub ghost struct AssemblerView {
    /// The settings of the log.
    pub logger: Logger,
    /// The events logged that are yet to be written, the oldest first.
    pub log: Seq<Entry>,
}

impl View for Assembler {
    type V = AssemblerView;

    closed spec fn view(&self) -> AssemblerView {
        AssemblerView { logger: self.logger, log: entries(self.events@) }
    }
}

impl Assembler {
    /// An assembler whose log shows progress when `verbose` and detail when
    /// `debug`, and holds nothing yet.
    pub fn new(verbose: bool, debug: bool) -> (a: Self)
        ensures
            a@ == (AssemblerView { logger: Logger::new_spec(verbose, debug), log: Seq::empty() }),
    {
        let a = Assembler { logger: Logger::new(verbose, debug), events: Vec::new() };
        proof {
            assert(a@.log == Seq::<Entry>::empty());
        }
        a
    }

    /// The settings of the log.
    pub fn logger(&self) -> (l: Logger)
        ensures
            l == self@.logger,
    {
        self.logger
    }

    /// Hands out the events logged that are yet to be written, the oldest
    /// first, and keeps none of them.
    pub fn take_events(&mut self) -> (events: Vec<LogEvent>)
        ensures
            entries(events@) == old(self)@.log,
            final(self)@ == (AssemblerView { log: Seq::empty(), ..old(self)@ }),
    {
        let mut events: Vec<LogEvent> = Vec::new();
        std::mem::swap(&mut events, &mut self.events);
        proof {
            assert(self@.log == Seq::<Entry>::empty());
        }
        events
    }

    /// Assembles lines that hold no comments: trims them, leaves the empty
    /// ones out, and runs both passes. Returns the words in the order of the
    /// lines, the fault that ended a pass, or nothing where a data literal
    /// denotes no word. What happens is logged as far as it gets.
    pub fn assemble_lines(&mut self, stripped: &Vec<String>) -> (r: Option<
        Result<Vec<ThreeDigitNumber>, AssemblerError>,
    >)
        ensures
            attempt_view(r) == assembled(source_lines(texts(stripped@))),
            final(self)@ == (AssemblerView {
                log: lines_log(old(self)@.logger, texts(stripped@), old(self)@.log),
                ..old(self)@
            }),
    {
        let logger = self.logger;
        attempt_lines(&logger, stripped, &mut self.events)
    }

    /// Assembles a source text where that can be done, and returns nothing
    /// and logs nothing where it cannot: where a comment cannot be stripped
    /// or a data literal denotes no word.
    pub fn try_assemble(&mut self, input: &mut Vec<String>) -> (r: Option<
        Result<Vec<ThreeDigitNumber>, AssemblerError>,
    >)
        ensures
            *final(input) == *old(input),
            attempt_view(r) == assembly(texts(old(input)@)),
            r is Some ==> final(self)@ == (AssemblerView {
                log: assembly_log(old(self)@.logger, texts(old(input)@), old(self)@.log),
                ..old(self)@
            }),
            r is None ==> final(self)@ == old(self)@,
    {
        if self.can_assemble(input) {
            Some(self.assemble(input))
        } else {
            None
        }
    }

    /// Whether a source text can be assembled: whether every comment can be
    /// stripped and every data literal that the second pass reaches denotes a
    /// word. Nothing is logged.
    pub fn can_assemble(&self, input: &Vec<String>) -> (b: bool)
        ensures
            b == assembly(texts(input@)) is Some,
    {
        match strip_comments(input) {
            Some(stripped) => {
                let silent = Logger::new(false, false);
                let mut scratch: Vec<LogEvent> = Vec::new();
                attempt_lines(&silent, &stripped, &mut scratch).is_some()
            },
            None => false,
        }
    }

    /// Assembles a source text: strips the comment of each line, trims the
    /// lines, leaves the empty ones out, binds the labels and encodes each
    /// line as one word. Returns the words in the order of the lines, or the
    /// fault that ended a pass, and logs what happens.
    pub fn assemble(&mut self, input: &mut Vec<String>) -> (r: Result<
        Vec<ThreeDigitNumber>,
        AssemblerError,
    >)
        requires
            assembly(texts(old(input)@)) is Some,
        ensures
            *final(input) == *old(input),
            Some(program_view(r)) == assembly(texts(old(input)@)),
            final(self)@ == (AssemblerView {
                log: assembly_log(old(self)@.logger, texts(old(input)@), old(self)@.log),
                ..old(self)@
            }),
    {
        let logger = self.logger;
        if logger.enabled(&LogLevel::Info) {
            logger.note(
                &mut self.events,
                LogLevel::Info,
                "assembling program into machine code...".to_owned(),
            );
        }
        if logger.enabled(&LogLevel::Debug) {
            logger.note(&mut self.events, LogLevel::Debug, "stripping comments...".to_owned());
        }
        let stripped = strip_comments(input).unwrap();
        attempt_lines(&logger, &stripped, &mut self.events).unwrap()
    }
}

/// The same source assembles to the same program, whatever assembler does
/// it: two texts that agree line by line have one assembly, and two results
/// of attempting them hold the same words, or the same fault, or are both
/// nothing.
pub proof fn lemma_assembly_is_a_function(
    first: Seq<Seq<char>>,
    second: Seq<Seq<char>>,
    r1: Option<Result<Vec<ThreeDigitNumber>, AssemblerError>>,
    r2: Option<Result<Vec<ThreeDigitNumber>, AssemblerError>>,
)
    requires
        first.len() == second.len(),
        forall|i: int| 0 <= i < first.len() ==> first[i] == second[i],
        attempt_view(r1) == assembly(first),
        attempt_view(r2) == assembly(second),
    ensures
        assembly(first) == assembly(second),
        attempt_view(r1) == attempt_view(r2),
        r1 matches Some(Ok(v1)) ==> r2 matches Some(Ok(v2)) && v1@.len() == v2@.len() && forall|
            i: int,
        |
            0 <= i < v1@.len() ==> (#[trigger] v1@[i])@ == v2@[i]@,
        r1 matches Some(Err(e1)) ==> r2 matches Some(Err(e2)) && e1@ == e2@,
        r1 is None <==> r2 is None,
{
    assert(first =~= second);
    if let Some(Ok(v1)) = r1 {
        let v2 = r2->Some_0->Ok_0;
        assert(words(v1@) == words(v2@));
        assert forall|i: int| 0 <= i < v1@.len() implies (#[trigger] v1@[i])@ == v2@[i]@ by {
            assert(words(v1@)[i] == words(v2@)[i]);
        }
    }
}

/// Assembling the same source twice gives the same output: where a source
/// can be assembled, every source that agrees with it line by line can be,
/// and two results of assembling them are both the same words, one for one,
/// or both the same fault.
pub proof fn lemma_assemble_is_deterministic(
    first: Seq<Seq<char>>,
    second: Seq<Seq<char>>,
    r1: Result<Vec<ThreeDigitNumber>, AssemblerError>,
    r2: Result<Vec<ThreeDigitNumber>, AssemblerError>,
)
    requires
        first.len() == second.len(),
        forall|i: int| 0 <= i < first.len() ==> first[i] == second[i],
        assembly(first) is Some,
        Some(program_view(r1)) == assembly(first),
        Some(program_view(r2)) == assembly(second),
    ensures
        assembly(second) is Some,
        program_view(r1) == program_view(r2),
        r1 matches Ok(v1) ==> r2 matches Ok(v2) && v1@.len() == v2@.len() && forall|i: int|
            0 <= i < v1@.len() ==> (#[trigger] v1@[i])@ == v2@[i]@,
        r1 matches Err(e1) ==> r2 matches Err(e2) && e1@ == e2@,
{
    lemma_assembly_is_a_function(first, second, Some(r1), Some(r2));
}

} // verus!
