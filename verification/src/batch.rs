//! The textual forms that programs and batch trials are kept in: a listing
//! of machine words, and the descriptor of a trial.
//!
//! A listing holds one word per line, or several on a line with commas
//! between them. A descriptor is one line of four fields with semicolons
//! between them: the name of the trial, the values to queue before each run
//! with commas between them, the value expected in the output slot or
//! nothing, and the number of runs.

use crate::numbers::{number_error_message, words, NumberError, ThreeDigitNumber, Word};
use crate::text::{
    fault_message, fields, parse_i64, parse_i64_text, parse_usize, parse_usize_text, split, texts,
    trim, trimmed, IntegerFault,
};
use vstd::prelude::*;
use vstd::string::*;

verus! {

/// Why a listing or a descriptor could not be read.
#[derive(Debug, PartialEq, Eq)]
pub enum BatchError {
    /// A descriptor has fewer than four fields; the line is given.
    InvalidFormat(String),
    /// The number of runs is no unsigned integer.
    InvalidIterations(IntegerFault),
    /// A value is no integer.
    InvalidInput(IntegerFault),
    /// A value is no three-digit number.
    NumberError(NumberError),
}

/// The mathematical content of a [`BatchError`].
pub ghost enum BatchFault {
    InvalidFormat(Seq<char>),
    InvalidIterations(IntegerFault),
    InvalidInput(IntegerFault),
    NumberError(NumberError),
}

impl View for BatchError {
    type V = BatchFault;

    open spec fn view(&self) -> BatchFault {
        match self {
            BatchError::InvalidFormat(line) => BatchFault::InvalidFormat(line@),
            BatchError::InvalidIterations(fault) => BatchFault::InvalidIterations(*fault),
            BatchError::InvalidInput(fault) => BatchFault::InvalidInput(*fault),
            BatchError::NumberError(e) => BatchFault::NumberError(*e),
        }
    }
}

/// The words in which a fault of a listing or a descriptor is reported.
pub open spec fn batch_fault_message(fault: BatchFault) -> Seq<char> {
    match fault {
        BatchFault::InvalidFormat(line) => "Invalid test file format: "@ + line,
        BatchFault::InvalidIterations(f) => "Invalid number of iterations: "@ + fault_message(f),
        BatchFault::InvalidInput(f) => "Invalid input value: "@ + fault_message(f),
        BatchFault::NumberError(e) => number_error_message(e),
    }
}

impl BatchError {
    /// The words in which the fault is reported.
    pub fn to_string(&self) -> (s: String)
        ensures
            s@ == batch_fault_message(self@),
    {
        match self {
            BatchError::InvalidFormat(line) => {
                let mut s = "Invalid test file format: ".to_owned();
                s.append(line.as_str());
                s
            },
            BatchError::InvalidIterations(fault) => {
                let mut s = "Invalid number of iterations: ".to_owned();
                s.append(fault.message().as_str());
                s
            },
            BatchError::InvalidInput(fault) => {
                let mut s = "Invalid input value: ".to_owned();
                s.append(fault.message().as_str());
                s
            },
            BatchError::NumberError(e) => e.to_string(),
        }
    }
}

/// The word that a text denotes: a signed decimal integer that is a
/// three-digit number.
pub open spec fn value_of(text: Seq<char>) -> Result<Word, BatchFault> {
    match parse_i64_text(text) {
        Err(fault) => Err(BatchFault::InvalidInput(fault)),
        Ok(v) => if 0 <= v <= 999 {
            Ok(Word { value: v, flag: None })
        } else {
            Err(BatchFault::NumberError(NumberError::OutOfBounds(v as i64)))
        },
    }
}

/// The words that a list of texts denotes, in order. The first text that
/// denotes no word ends the reading with its fault.
pub open spec fn values_of(list: Seq<Seq<char>>) -> Result<Seq<Word>, BatchFault>
    decreases list.len(),
{
    if list.len() == 0 {
        Ok(Seq::empty())
    } else {
        match values_of(list.drop_last()) {
            Err(e) => Err(e),
            Ok(ws) => match value_of(list.last()) {
                Ok(w) => Ok(ws.push(w)),
                Err(e) => Err(e),
            },
        }
    }
}

/// A text that denotes no word ends the reading: the texts behind it are
/// not looked at.
pub proof fn lemma_values_stop(list: Seq<Seq<char>>, n: int)
    requires
        0 <= n <= list.len(),
        values_of(list.take(n)) is Err,
    ensures
        values_of(list) == values_of(list.take(n)),
    decreases list.len() - n,
{
    if n == list.len() {
        assert(list.take(n) == list);
    } else {
        assert(list.drop_last().take(n) == list.take(n));
        lemma_values_stop(list.drop_last(), n);
    }
}

/// Reads the word that `text` denotes.
pub fn parse_value(text: &str) -> (r: Result<ThreeDigitNumber, BatchError>)
    ensures
        match value_of(text@) {
            Ok(w) => r matches Ok(x) && x@ == w,
            Err(f) => r matches Err(e) && e@ == f,
        },
{
    match parse_i64(text) {
        Ok(v) => {
            if 0 <= v && v <= 999 {
                match ThreeDigitNumber::new(v as i16) {
                    Ok(number) => Ok(number),
                    Err(e) => Err(BatchError::NumberError(e)),
                }
            } else {
                Err(BatchError::NumberError(NumberError::OutOfBounds(v)))
            }
        },
        Err(fault) => Err(BatchError::InvalidInput(fault)),
    }
}

/// Reads the words that the texts of `list` denote, in order.
pub fn parse_values(list: &Vec<String>) -> (r: Result<Vec<ThreeDigitNumber>, BatchError>)
    ensures
        match values_of(texts(list@)) {
            Ok(ws) => r matches Ok(v) && words(v@) == ws,
            Err(f) => r matches Err(e) && e@ == f,
        },
{
    let mut out: Vec<ThreeDigitNumber> = Vec::new();
    let mut i: usize = 0;
    proof {
        assert(words(out@) == Seq::<Word>::empty());
    }
    while i < list.len()
        invariant
            i <= list@.len(),
            values_of(texts(list@).take(i as int)) == Ok::<Seq<Word>, BatchFault>(words(out@)),
        decreases list@.len() - i,
    {
        proof {
            assert(texts(list@).take(i + 1).drop_last() == texts(list@).take(i as int));
        }
        match parse_value(list[i].as_str()) {
            Ok(number) => {
                proof {
                    assert(words(out@.push(number)) == words(out@).push(number@));
                }
                out.push(number);
            },
            Err(e) => {
                proof {
                    lemma_values_stop(texts(list@), i + 1);
                }
                return Err(e);
            },
        }
        i += 1;
    }
    proof {
        assert(texts(list@).take(i as int) == texts(list@));
    }
    Ok(out)
}

/// The texts of the words of a listing: the fields of each of its first `n`
/// lines, trimmed, in order.
pub open spec fn listing_fields(lines: Seq<Seq<char>>, n: int) -> Seq<Seq<char>>
    decreases n,
{
    if n <= 0 {
        Seq::empty()
    } else {
        listing_fields(lines, n - 1) + fields(lines[n - 1], ',').map_values(
            |f: Seq<char>| trimmed(f),
        )
    }
}

/// The program that a listing holds: the words of its lines, in order.
pub open spec fn listing(lines: Seq<Seq<char>>) -> Result<Seq<Word>, BatchFault> {
    values_of(listing_fields(lines, lines.len() as int))
}

/// Reads the program that a listing holds: one word from each line, or
/// several where a line holds commas. The first text that denotes no word
/// ends the reading with its fault.
pub fn parse_program(lines: &Vec<String>) -> (r: Result<Vec<ThreeDigitNumber>, BatchError>)
    ensures
        match listing(texts(lines@)) {
            Ok(ws) => r matches Ok(v) && words(v@) == ws,
            Err(f) => r matches Err(e) && e@ == f,
        },
{
    let mut list: Vec<String> = Vec::new();
    let mut i: usize = 0;
    proof {
        assert(texts(list@) == Seq::<Seq<char>>::empty());
    }
    while i < lines.len()
        invariant
            i <= lines@.len(),
            texts(list@) == listing_fields(texts(lines@), i as int),
        decreases lines@.len() - i,
    {
        let parts = split(lines[i].as_str(), ',');
        let ghost before = texts(list@);
        let ghost wanted = fields(lines@[i as int]@, ',').map_values(|f: Seq<char>| trimmed(f));
        let mut j: usize = 0;
        proof {
            assert(before + wanted.take(0) == before);
        }
        while j < parts.len()
            invariant
                j <= parts@.len(),
                texts(parts@) == fields(lines@[i as int]@, ','),
                wanted == fields(lines@[i as int]@, ',').map_values(|f: Seq<char>| trimmed(f)),
                texts(list@) == before + wanted.take(j as int),
            decreases parts@.len() - j,
        {
            let field = trim(parts[j].as_str());
            proof {
                assert(texts(parts@)[j as int] == parts@[j as int]@);
                assert(texts(list@.push(field)) == texts(list@).push(field@));
                assert(before + wanted.take(j + 1) == (before + wanted.take(j as int)).push(
                    wanted[j as int],
                ));
            }
            list.push(field);
            j += 1;
        }
        proof {
            assert(wanted.take(j as int) == wanted);
        }
        i += 1;
    }
    parse_values(&list)
}

/// One batch trial.
#[derive(Debug, PartialEq, Eq)]
pub struct Test {
    name: String,
    input: Option<Vec<ThreeDigitNumber>>,
    result: Option<ThreeDigitNumber>,
    iterations: usize,
}

/// The mathematical content of a [`Test`].
pub ghost struct Trial {
    /// The name of the trial.
    pub name: Seq<char>,
    /// The values to queue before each run, if there are any.
    pub input: Option<Seq<Word>>,
    /// The value expected in the output slot, where one is expected.
    pub result: Option<Word>,
    /// The number of runs.
    pub iterations: int,
}

impl View for Test {
    type V = Trial;

    closed spec fn view(&self) -> Trial {
        Trial {
            name: self.name@,
            input: match self.input {
                Some(v) => Some(words(v@)),
                None => None,
            },
            result: match self.result {
                Some(n) => Some(n@),
                None => None,
            },
            iterations: self.iterations as int,
        }
    }
}

/// Whether an output slot is what a trial expects: where no value is
/// expected every output is, and where one is expected the slot must hold
/// that value.
pub open spec fn meets(expected: Option<Word>, output: Option<Word>) -> bool {
    match expected {
        None => true,
        Some(e) => output matches Some(o) && o.value == e.value,
    }
}

impl Test {
    /// The trial called `name` that queues `input` before each of
    /// `iterations` runs and expects `result`.
    pub fn new(
        name: &String,
        input: Option<Vec<ThreeDigitNumber>>,
        result: Option<ThreeDigitNumber>,
        iterations: usize,
    ) -> (t: Test)
        ensures
            t@ == (Trial {
                name: name@,
                input: match input {
                    Some(v) => Some(words(v@)),
                    None => None,
                },
                result: match result {
                    Some(n) => Some(n@),
                    None => None,
                },
                iterations: iterations as int,
            }),
    {
        Test { name: name.clone(), input, result, iterations }
    }

    /// The name of the trial.
    pub fn name(&self) -> (s: &String)
        ensures
            s@ == self@.name,
    {
        &self.name
    }

    /// The values to queue before each run, if there are any.
    pub fn input(&self) -> (v: &Option<Vec<ThreeDigitNumber>>)
        ensures
            match *v {
                Some(values) => self@.input == Some(words(values@)),
                None => self@.input is None,
            },
    {
        &self.input
    }

    /// The value expected in the output slot, where one is expected.
    pub fn result(&self) -> (r: Option<ThreeDigitNumber>)
        ensures
            match r {
                Some(n) => self@.result == Some(n@),
                None => self@.result is None,
            },
    {
        self.result
    }

    /// The number of runs.
    pub fn iterations(&self) -> (n: usize)
        ensures
            n == self@.iterations,
    {
        self.iterations
    }

    /// Whether `output` is what the trial expects.
    pub fn accepts(&self, output: Option<ThreeDigitNumber>) -> (b: bool)
        ensures
            b == meets(
                self@.result,
                match output {
                    Some(n) => Some(n@),
                    None => None,
                },
            ),
    {
        match self.result {
            None => true,
            Some(expected) => match output {
                Some(got) => got.value() == expected.value(),
                None => false,
            },
        }
    }
}

/// The trial that a descriptor describes.
///
/// The line is trimmed and cut at its semicolons. Its first field is the
/// name, its second the values to queue with commas between them, its third
/// the value expected, and its fourth the number of runs; further fields
/// are not looked at. A third field that is no integer means that no value
/// is expected.
pub open spec fn trial_of(line: Seq<char>) -> Result<Trial, BatchFault> {
    let parts = fields(trimmed(line), ';');
    if parts.len() < 4 {
        Err(BatchFault::InvalidFormat(line))
    } else {
        match parse_usize_text(parts[3]) {
            Err(fault) => Err(BatchFault::InvalidIterations(fault)),
            Ok(iterations) => match values_of(fields(parts[1], ',')) {
                Err(e) => Err(e),
                Ok(values) => {
                    let input = if values.len() == 0 {
                        None
                    } else {
                        Some(values)
                    };
                    match parse_i64_text(parts[2]) {
                        Err(_) => Ok(Trial { name: parts[0], input, result: None, iterations }),
                        Ok(_) => match value_of(parts[2]) {
                            Err(e) => Err(e),
                            Ok(w) => Ok(
                                Trial { name: parts[0], input, result: Some(w), iterations },
                            ),
                        },
                    }
                },
            },
        }
    }
}

/// Reads the trial that a descriptor describes.
pub fn parse_test(line: &str) -> (r: Result<Test, BatchError>)
    ensures
        match trial_of(line@) {
            Ok(trial) => r matches Ok(t) && t@ == trial,
            Err(f) => r matches Err(e) && e@ == f,
        },
{
    let text = trim(line);
    let parts = split(text.as_str(), ';');
    if parts.len() < 4 {
        return Err(BatchError::InvalidFormat(line.to_owned()));
    }
    proof {
        assert(texts(parts@)[0] == parts@[0]@);
        assert(texts(parts@)[1] == parts@[1]@);
        assert(texts(parts@)[2] == parts@[2]@);
        assert(texts(parts@)[3] == parts@[3]@);
    }
    let iterations = match parse_usize(parts[3].as_str()) {
        Ok(iterations) => iterations,
        Err(fault) => {
            return Err(BatchError::InvalidIterations(fault));
        },
    };
    let list = split(parts[1].as_str(), ',');
    let values = match parse_values(&list) {
        Ok(values) => values,
        Err(e) => {
            return Err(e);
        },
    };
    let result = match parse_value(parts[2].as_str()) {
        Ok(number) => Some(number),
        Err(BatchError::InvalidInput(_)) => None,
        Err(e) => {
            return Err(e);
        },
    };
    let input = if values.len() == 0 {
        None
    } else {
        Some(values)
    };
    Ok(Test::new(&parts[0], input, result, iterations))
}

/// The trials of a list of texts.
pub open spec fn trials(v: Seq<Test>) -> Seq<Trial> {
    Seq::new(v.len(), |i: int| v[i]@)
}

/// The trials that the first `n` descriptors describe, in order. The first
/// descriptor that describes none ends the reading with its fault.
pub open spec fn trials_of(lines: Seq<Seq<char>>, n: int) -> Result<Seq<Trial>, BatchFault>
    decreases n,
{
    if n <= 0 {
        Ok(Seq::empty())
    } else {
        match trials_of(lines, n - 1) {
            Err(e) => Err(e),
            Ok(ts) => match trial_of(lines[n - 1]) {
                Ok(t) => Ok(ts.push(t)),
                Err(e) => Err(e),
            },
        }
    }
}

/// A descriptor that describes no trial ends the reading: the lines behind
/// it are not looked at.
pub proof fn lemma_trials_stop(lines: Seq<Seq<char>>, k: int, n: int)
    requires
        k <= n,
        trials_of(lines, k) is Err,
    ensures
        trials_of(lines, n) == trials_of(lines, k),
    decreases n - k,
{
    if k < n {
        lemma_trials_stop(lines, k, n - 1);
    }
}

/// Reads the trials that the descriptors `lines` describe, in order.
pub fn parse_tests(lines: &Vec<String>) -> (r: Result<Vec<Test>, BatchError>)
    ensures
        match trials_of(texts(lines@), lines@.len() as int) {
            Ok(ts) => r matches Ok(v) && trials(v@) == ts,
            Err(f) => r matches Err(e) && e@ == f,
        },
{
    let mut out: Vec<Test> = Vec::new();
    let mut i: usize = 0;
    proof {
        assert(trials(out@) == Seq::<Trial>::empty());
    }
    while i < lines.len()
        invariant
            i <= lines@.len(),
            trials_of(texts(lines@), i as int) == Ok::<Seq<Trial>, BatchFault>(trials(out@)),
        decreases lines@.len() - i,
    {
        match parse_test(lines[i].as_str()) {
            Ok(test) => {
                proof {
                    assert(trials(out@.push(test)) == trials(out@).push(test@));
                }
                out.push(test);
            },
            Err(e) => {
                proof {
                    lemma_trials_stop(texts(lines@), i + 1, lines@.len() as int);
                }
                return Err(e);
            },
        }
        i += 1;
    }
    Ok(out)
}

} // verus!
