use crate::text::{decimal, push_decimal, str_eq, trim_white_space, trimmed};
use crate::types::{TiffConvertConfig, TiffFileConfig};
use vstd::prelude::*;
use vstd::string::StringExecFns;
use vstd::string::StringSliceAdditionalSpecFns;
use vstd::utf8::encode_utf8;

verus! {

/// Whether every file of `after` is the file of `before` at the same place
/// with `dir` as its output path.
pub open spec fn redirected(before: Seq<TiffFileConfig>, after: Seq<TiffFileConfig>, dir: Seq<char>) -> bool {
    &&& after.len() == before.len()
    &&& forall|i: int|
        0 <= i < before.len() ==> {
            &&& (#[trigger] after[i]).output_path@ == dir
            &&& after[i].path == before[i].path
            &&& after[i].output_name == before[i].output_name
            &&& after[i].color_mode == before[i].color_mode
        }
}

/// Sends the output of every file of a conversion to `dir`.
pub fn with_output_dir(config: TiffConvertConfig, dir: &str) -> (updated: TiffConvertConfig)
    ensures
        updated.global_settings == config.global_settings,
        redirected(config.files@, updated.files@, dir@),
{
    let mut updated = config;
    let mut i: usize = 0;
    while i < updated.files.len()
        invariant
            i <= updated.files@.len(),
            updated.global_settings == config.global_settings,
            updated.files@.len() == config.files@.len(),
            forall|k: int|
                0 <= k < i ==> {
                    &&& (#[trigger] updated.files@[k]).output_path@ == dir@
                    &&& updated.files@[k].path == config.files@[k].path
                    &&& updated.files@[k].output_name == config.files@[k].output_name
                    &&& updated.files@[k].color_mode == config.files@[k].color_mode
                },
            forall|k: int| i <= k < updated.files@.len() ==> updated.files@[k] == config.files@[k],
        decreases updated.files@.len() - i,
    {
        updated.files[i].output_path = String::from_str(dir);
        i += 1;
    }
    updated
}

/// The name of the `counter`-th stand-in for an output directory that is
/// already there: the name, a space, and the number in brackets.
pub open spec fn numbered_dir_name(base: Seq<char>, counter: u64) -> Seq<char> {
    base + " ("@ + decimal(counter as nat) + ")"@
}

/// The name of the `counter`-th stand-in for an output directory that is
/// already there.
pub fn numbered_dir(base: &str, counter: u64) -> (name: String)
    ensures
        name@ == numbered_dir_name(base@, counter),
{
    let mut name = String::from_str(base);
    name.append(" (");
    push_decimal(&mut name, counter);
    name.append(")");
    name
}

/// The places where the editor is looked for, newest release first.
pub open spec fn install_paths() -> Seq<Seq<char>> {
    seq![
        "C:\\Program Files\\Adobe\\Adobe Photoshop 2025\\Photoshop.exe"@,
        "C:\\Program Files\\Adobe\\Adobe Photoshop 2024\\Photoshop.exe"@,
        "C:\\Program Files\\Adobe\\Adobe Photoshop 2023\\Photoshop.exe"@,
        "C:\\Program Files\\Adobe\\Adobe Photoshop 2022\\Photoshop.exe"@,
        "C:\\Program Files\\Adobe\\Adobe Photoshop 2021\\Photoshop.exe"@,
        "C:\\Program Files\\Adobe\\Adobe Photoshop 2020\\Photoshop.exe"@,
        "C:\\Program Files\\Adobe\\Adobe Photoshop CC 2019\\Photoshop.exe"@,
        "C:\\Program Files\\Adobe\\Adobe Photoshop CC 2018\\Photoshop.exe"@,
        "C:\\Program Files\\Adobe\\Adobe Photoshop CC\\Photoshop.exe"@,
        "C:\\Program Files (x86)\\Adobe\\Adobe Photoshop 2025\\Photoshop.exe"@,
        "C:\\Program Files (x86)\\Adobe\\Adobe Photoshop 2024\\Photoshop.exe"@,
        "C:\\Program Files (x86)\\Adobe\\Adobe Photoshop 2023\\Photoshop.exe"@,
    ]
}

/// The places where the editor is looked for, newest release first.
pub fn photoshop_install_paths() -> (paths: Vec<&'static str>)
    ensures
        paths@.len() == install_paths().len(),
        forall|i: int| 0 <= i < paths@.len() ==> (#[trigger] paths@[i])@ == install_paths()[i],
{
    let mut paths: Vec<&'static str> = Vec::new();
    paths.push("C:\\Program Files\\Adobe\\Adobe Photoshop 2025\\Photoshop.exe");
    paths.push("C:\\Program Files\\Adobe\\Adobe Photoshop 2024\\Photoshop.exe");
    paths.push("C:\\Program Files\\Adobe\\Adobe Photoshop 2023\\Photoshop.exe");
    paths.push("C:\\Program Files\\Adobe\\Adobe Photoshop 2022\\Photoshop.exe");
    paths.push("C:\\Program Files\\Adobe\\Adobe Photoshop 2021\\Photoshop.exe");
    paths.push("C:\\Program Files\\Adobe\\Adobe Photoshop 2020\\Photoshop.exe");
    paths.push("C:\\Program Files\\Adobe\\Adobe Photoshop CC 2019\\Photoshop.exe");
    paths.push("C:\\Program Files\\Adobe\\Adobe Photoshop CC 2018\\Photoshop.exe");
    paths.push("C:\\Program Files\\Adobe\\Adobe Photoshop CC\\Photoshop.exe");
    paths.push("C:\\Program Files (x86)\\Adobe\\Adobe Photoshop 2025\\Photoshop.exe");
    paths.push("C:\\Program Files (x86)\\Adobe\\Adobe Photoshop 2024\\Photoshop.exe");
    paths.push("C:\\Program Files (x86)\\Adobe\\Adobe Photoshop 2023\\Photoshop.exe");
    paths
}

/// The first of `paths` that is there: `exists` says of each path, in
/// order, whether it is. A path without a mark counts as not there.
pub fn find_photoshop_path(paths: &Vec<&'static str>, exists: &Vec<bool>) -> (found: Option<
    &'static str,
>)
    ensures
        match found {
            Some(path) => exists|i: int|
                0 <= i < paths@.len() && i < exists@.len() && exists@[i] && paths@[i] == path && forall|
                    j: int,
                | 0 <= j < i ==> !exists@[j],
            None => forall|i: int| 0 <= i < paths@.len() && i < exists@.len() ==> !exists@[i],
        },
{
    let mut i: usize = 0;
    while i < paths.len() && i < exists.len()
        invariant
            forall|j: int| 0 <= j < i ==> !exists@[j],
            i <= paths@.len(),
            i <= exists@.len(),
        decreases paths@.len() - i,
    {
        if exists[i] {
            return Some(paths[i]);
        }
        i += 1;
    }
    None
}

/// Polls without news after which the wait for the first sign of life of
/// the editor is given up: ten minutes at two polls a second.
pub const INITIAL_TIMEOUT_POLLS: u64 = 1200;

/// Polls without news after which the wait for the results is given up once
/// the last file is reported done: two minutes at two polls a second.
pub const FINAL_TIMEOUT_POLLS: u64 = 240;

/// Polls between two reminders that the wait goes on.
pub const REMINDER_POLLS: u64 = 60;

/// The number that the bytes of a decimal numeral write.
pub open spec fn number_value(digits: Seq<u8>) -> nat
    decreases digits.len(),
{
    if digits.len() == 0 {
        0
    } else {
        (number_value(digits.drop_last()) * 10 + (digits.last() - 0x30)) as nat
    }
}

/// Whether `digits` holds decimal digits only.
pub open spec fn all_digits(digits: Seq<u8>) -> bool {
    forall|i: int| 0 <= i < digits.len() ==> 0x30 <= #[trigger] digits[i] <= 0x39
}

/// The number that the decimal numeral `digits` writes; none if `digits` is
/// empty, holds anything but decimal digits, or writes a number that does
/// not fit.
pub open spec fn numeral_value(digits: Seq<u8>) -> Option<u64> {
    if digits.len() > 0 && all_digits(digits) && number_value(digits) <= u64::MAX {
        Some(number_value(digits) as u64)
    } else {
        None
    }
}

/// The number that `text` writes, read the way `u64` is parsed: an optional
/// plus sign, then decimal digits only and at least one; none for any other
/// text and for a number that does not fit.
pub open spec fn parsed_number(text: Seq<u8>) -> Option<u64> {
    if text.len() > 0 && text[0] == 0x2b {
        numeral_value(text.skip(1))
    } else {
        numeral_value(text)
    }
}

/// Where the first slash of `text` stands, if there is one.
pub open spec fn first_slash(text: Seq<u8>) -> Option<int> {
    if exists|i: int| 0 <= i < text.len() && text[i] == 0x2f {
        Some(choose|i: int| 0 <= i < text.len() && text[i] == 0x2f && forall|j: int| 0 <= j < i ==> text[j] != 0x2f)
    } else {
        None
    }
}

/// The two counts of a progress report of the form `done/total`.
pub open spec fn progress_counts(text: Seq<u8>) -> Option<(u64, u64)> {
    match first_slash(text) {
        None => None,
        Some(at) => match (parsed_number(text.take(at)), parsed_number(text.skip(at + 1))) {
            (Some(done), Some(total)) => Some((done, total)),
            _ => None,
        },
    }
}

proof fn lemma_number_value_grows(digits: Seq<u8>, more: u8)
    requires
        all_digits(digits),
        0x30 <= more <= 0x39,
    ensures
        number_value(digits.push(more)) == number_value(digits) * 10 + (more - 0x30),
        all_digits(digits.push(more)),
{
    assert(digits.push(more).drop_last() =~= digits);
}

proof fn lemma_number_value_never_shrinks(digits: Seq<u8>, upto: int)
    requires
        all_digits(digits),
        0 <= upto <= digits.len(),
    ensures
        number_value(digits.take(upto)) <= number_value(digits),
    decreases digits.len() - upto,
{
    if upto < digits.len() {
        assert(all_digits(digits.take(upto))) by {
            assert forall|i: int| 0 <= i < upto implies 0x30 <= #[trigger] digits.take(upto)[i]
                <= 0x39 by {
                assert(digits.take(upto)[i] == digits[i]);
            }
        }
        assert(digits.take(upto + 1) =~= digits.take(upto).push(digits[upto]));
        lemma_number_value_grows(digits.take(upto), digits[upto]);
        lemma_number_value_never_shrinks(digits, upto + 1);
    } else {
        assert(digits.take(upto) =~= digits);
    }
}

/// Reads the number that `text[from..to]` writes.
fn parse_number(text: &[u8], from: usize, to: usize) -> (number: Option<u64>)
    requires
        from <= to <= text@.len(),
    ensures
        number == parsed_number(text@.subrange(from as int, to as int)),
{
    let ghost whole = text@.subrange(from as int, to as int);
    let mut at: usize = from;
    if at < to && text[at] == 0x2b {
        at += 1;
    }
    let ghost digits = text@.subrange(at as int, to as int);
    proof {
        if at > from {
            assert(whole[0] == 0x2b);
            assert(whole.skip(1) =~= digits);
        } else {
            assert(whole =~= digits);
            if whole.len() > 0 {
                assert(whole[0] == text@[from as int]);
            }
        }
    }
    if at == to {
        return None;
    }
    let start = at;
    let mut value: u64 = 0;
    while at < to
        invariant
            start <= at <= to,
            to <= text@.len(),
            start < to,
            parsed_number(text@.subrange(from as int, to as int)) == numeral_value(digits),
            digits == text@.subrange(start as int, to as int),
            all_digits(digits.take(at - start)),
            value == number_value(digits.take(at - start)),
        decreases to - at,
    {
        let byte = text[at];
        proof {
            assert(digits[at - start] == byte);
            assert(digits.take(at - start + 1) =~= digits.take(at - start).push(byte));
        }
        if byte < 0x30 || byte > 0x39 {
            proof {
                assert(!all_digits(digits));
            }
            return None;
        }
        proof {
            lemma_number_value_grows(digits.take(at - start), byte);
        }
        let digit = (byte - 0x30) as u64;
        if value > (u64::MAX - digit) / 10 {
            proof {
                if all_digits(digits) {
                    lemma_number_value_never_shrinks(digits, at - start + 1);
                }
            }
            return None;
        }
        value = value * 10 + digit;
        at += 1;
    }
    proof {
        assert(digits.take(at - start) =~= digits);
    }
    Some(value)
}

/// Reads a progress report of the form `done/total`.
pub fn parse_progress(text: &[u8]) -> (counts: Option<(u64, u64)>)
    ensures
        counts == progress_counts(text@),
{
    let mut at: usize = 0;
    while at < text.len() && text[at] != 0x2f
        invariant
            at <= text@.len(),
            forall|j: int| 0 <= j < at ==> text@[j] != 0x2f,
        decreases text@.len() - at,
    {
        at += 1;
    }
    if at == text.len() {
        return None;
    }
    proof {
        let found = first_slash(text@)->0;
        assert(found == at) by {
            if found < at {
                assert(text@[found] != 0x2f);
            } else if found > at {
                assert(text@[at as int] == 0x2f);
            }
        }
        assert(text@.take(at as int) =~= text@.subrange(0, at as int));
        assert(text@.skip(at + 1) =~= text@.subrange(at + 1, text@.len() as int));
    }
    let done = parse_number(text, 0, at);
    let total = parse_number(text, at + 1, text.len());
    match (done, total) {
        (Some(done), Some(total)) => Some((done, total)),
        _ => None,
    }
}

/// Whether `text` holds `word` somewhere.
pub open spec fn holds_word(text: Seq<u8>, word: Seq<u8>) -> bool {
    exists|i: int| 0 <= i && i + word.len() <= text.len() && #[trigger] text.subrange(i, i + word.len()) == word
}

/// The bytes of the word `results`.
pub open spec fn results_word() -> Seq<u8> {
    seq![0x72u8, 0x65u8, 0x73u8, 0x75u8, 0x6cu8, 0x74u8, 0x73u8]
}

/// Whether the file of results is complete enough to be read: it opens,
/// after white space, with a brace and holds the word `results`.
pub open spec fn results_complete(content: Seq<char>) -> bool {
    &&& encode_utf8(trimmed(content)).len() > 0
    &&& encode_utf8(trimmed(content))[0] == 0x7b
    &&& holds_word(encode_utf8(content), results_word())
}

fn holds_results_word(text: &[u8]) -> (holds: bool)
    ensures
        holds == holds_word(text@, results_word()),
{
    if text.len() < 7 {
        return false;
    }
    let mut at: usize = 0;
    while at <= text.len() - 7
        invariant
            text@.len() >= 7,
            at <= text@.len() - 6,
            forall|i: int| 0 <= i < at ==> #[trigger] text@.subrange(i, i + 7) != results_word(),
        decreases text@.len() - at,
    {
        let found = text[at] == 0x72 && text[at + 1] == 0x65 && text[at + 2] == 0x73 && text[at + 3]
            == 0x75 && text[at + 4] == 0x6c && text[at + 5] == 0x74 && text[at + 6] == 0x73;
        proof {
            let window = text@.subrange(at as int, at + 7);
            if found {
                assert(window =~= results_word());
            } else {
                assert(window[0] == text@[at as int]);
                assert(window[1] == text@[at + 1]);
                assert(window[2] == text@[at + 2]);
                assert(window[3] == text@[at + 3]);
                assert(window[4] == text@[at + 4]);
                assert(window[5] == text@[at + 5]);
                assert(window[6] == text@[at + 6]);
            }
        }
        if found {
            return true;
        }
        at += 1;
    }
    false
}

/// Whether the file of results is complete enough to be read.
pub fn results_ready(content: &str) -> (ready: bool)
    ensures
        ready == results_complete(content@),
{
    let inner = trim_white_space(content).as_bytes();
    inner.len() > 0 && inner[0] == 0x7b && holds_results_word(content.as_bytes())
}

/// What is known of a conversion that is being waited for.
#[derive(Debug)]
pub struct PollState {
    last_progress: String,
    polls_since_progress: u64,
    all_done: bool,
}

/// The state of a wait as a mathematical value.
pub struct PollView {
    /// The last progress report, without the white space at its ends; empty
    /// as long as there was none.
    pub last_progress: Seq<char>,
    /// Polls since the progress report last changed.
    pub polls_since_progress: u64,
    /// Whether the last file was reported done.
    pub all_done: bool,
}

impl View for PollState {
    type V = PollView;

    closed spec fn view(&self) -> PollView {
        PollView {
            last_progress: self.last_progress@,
            polls_since_progress: self.polls_since_progress,
            all_done: self.all_done,
        }
    }
}

/// What to do after a poll.
#[derive(Debug, Clone, Copy, PartialEq, Eq, Structural)]
pub enum PollDecision {
    /// The results are there: read them.
    Ready,
    /// Give up: the editor never reported anything, if `started` is false,
    /// or it stopped short of writing the results.
    TimedOut { started: bool },
    /// Wait and poll again; `remind` says whether it is time to say that the
    /// wait goes on.
    Wait { remind: bool },
}

/// The state after a progress report was read.
///
/// A report that is empty once trimmed, or that is the last report again,
/// changes nothing. A new report is kept and starts the count of polls
/// anew. If it has the form `done/total`, the last file is done exactly if
/// `done` has reached a `total` that is not zero.
pub open spec fn with_progress(state: PollView, report: Seq<char>) -> PollView {
    let inner = trimmed(report);
    if inner.len() == 0 || inner == state.last_progress {
        state
    } else {
        PollView {
            last_progress: inner,
            polls_since_progress: 0,
            all_done: match progress_counts(encode_utf8(inner)) {
                Some((done, total)) => done >= total && total > 0,
                None => state.all_done,
            },
        }
    }
}

/// Polls without news after which the wait is given up: few once the last
/// file is done, more before the first report, and none at all in between.
pub open spec fn timeout_polls(state: PollView) -> u64 {
    if state.all_done {
        FINAL_TIMEOUT_POLLS
    } else if state.last_progress.len() == 0 {
        INITIAL_TIMEOUT_POLLS
    } else {
        u64::MAX
    }
}

/// What a poll leads to: the state afterwards, and what to do.
///
/// Results that are complete end the wait. Otherwise the progress report,
/// if there is one, is taken in, the poll is counted, and the wait is given
/// up if the count has reached the timeout.
pub open spec fn polled(state: PollView, results: Option<Seq<char>>, progress: Option<Seq<char>>) -> (
    PollView,
    PollDecision,
) {
    if results is Some && results_complete(results->0) {
        (state, PollDecision::Ready)
    } else {
        let taken = match progress {
            Some(report) => with_progress(state, report),
            None => state,
        };
        let counted = PollView {
            polls_since_progress: if taken.polls_since_progress < u64::MAX {
                (taken.polls_since_progress + 1) as u64
            } else {
                u64::MAX
            },
            ..taken
        };
        if counted.polls_since_progress >= timeout_polls(counted) {
            (counted, PollDecision::TimedOut { started: counted.last_progress.len() > 0 })
        } else {
            (
                counted,
                PollDecision::Wait {
                    remind: counted.polls_since_progress % REMINDER_POLLS == 0,
                },
            )
        }
    }
}

impl PollState {
    /// The state of a wait that has just begun.
    pub fn new() -> (state: Self)
        ensures
            state@ == (PollView {
                last_progress: Seq::<char>::empty(),
                polls_since_progress: 0,
                all_done: false,
            }),
    {
        PollState { last_progress: String::new(), polls_since_progress: 0, all_done: false }
    }

    /// The last progress report, without the white space at its ends; empty
    /// as long as there was none.
    pub fn last_progress(&self) -> (report: &str)
        ensures
            report@ == self@.last_progress,
    {
        self.last_progress.as_str()
    }

    /// Polls since the progress report last changed.
    pub fn polls_since_progress(&self) -> (polls: u64)
        ensures
            polls == self@.polls_since_progress,
    {
        self.polls_since_progress
    }

    fn take_progress(&mut self, report: &str)
        ensures
            final(self)@ == with_progress(old(self)@, report@),
    {
        let inner = trim_white_space(report);
        if inner.is_empty() || str_eq(inner, self.last_progress.as_str()) {
            return ;
        }
        if let Some((done, total)) = parse_progress(inner.as_bytes()) {
            self.all_done = done >= total && total > 0;
        }
        self.last_progress = String::from_str(inner);
        self.polls_since_progress = 0;
    }

    /// Takes in what one poll found: the content of the file of results and
    /// of the progress report, as far as each could be read.
    pub fn observe(&mut self, results: Option<&str>, progress: Option<&str>) -> (decision:
        PollDecision)
        ensures
            (final(self)@, decision) == polled(
                old(self)@,
                match results {
                    Some(text) => Some(text@),
                    None => None,
                },
                match progress {
                    Some(text) => Some(text@),
                    None => None,
                },
            ),
    {
        if let Some(content) = results {
            if results_ready(content) {
                return PollDecision::Ready;
            }
        }
        if let Some(report) = progress {
            self.take_progress(report);
        }
        if self.polls_since_progress < u64::MAX {
            self.polls_since_progress += 1;
        }
        let timeout = if self.all_done {
            FINAL_TIMEOUT_POLLS
        } else if self.last_progress.as_str().is_empty() {
            INITIAL_TIMEOUT_POLLS
        } else {
            u64::MAX
        };
        if self.polls_since_progress >= timeout {
            PollDecision::TimedOut { started: !self.last_progress.as_str().is_empty() }
        } else {
            PollDecision::Wait { remind: self.polls_since_progress % REMINDER_POLLS == 0 }
        }
    }
}

} // verus!
