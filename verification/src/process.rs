//! The decisions that a directory walk takes for each file it meets, and
//! the count it keeps. The walk itself, and every touch of the file system,
//! is the caller's: it hands in what it found and carries out what comes
//! back.

use vstd::prelude::*;
use vstd::string::StringExecFns;
use crate::config::Limit;
use crate::rules::{normalized, transform};
use crate::text::{chars_of, string_of};

verus! {

/// How the processing of one file ended.
#[derive(Clone, Debug, PartialEq, Eq)]
pub enum RenameOutcome {
    /// The file was renamed.
    Success,
    /// The file keeps its name.
    NoAction,
    /// The file could not be renamed; the message says why.
    Error(String),
}

/// A [`RenameOutcome`] with its message as a sequence of characters.
pub enum OutcomeView {
    Success,
    NoAction,
    Error(Seq<char>),
}

impl View for RenameOutcome {
    type V = OutcomeView;

    open spec fn view(&self) -> OutcomeView {
        match self {
            RenameOutcome::Success => OutcomeView::Success,
            RenameOutcome::NoAction => OutcomeView::NoAction,
            RenameOutcome::Error(message) => OutcomeView::Error(message@),
        }
    }
}

/// The message of the outcome for a file whose new name is taken.
pub open spec fn exists_message(name: Seq<char>) -> Seq<char> {
    "Error renaming file '"@ + name + "', file exists!"@
}

/// The message of the outcome for a file whose renaming failed.
pub open spec fn failure_message(name: Seq<char>, cause: Seq<char>) -> Seq<char> {
    "Error renaming file '"@ + name + "': "@ + cause
}

/// The line that announces a renaming which a dry run does not perform.
pub open spec fn dry_run_line(name: Seq<char>, new_name: Seq<char>) -> Seq<char> {
    "Will be renamed: '"@ + name + "' -> '"@ + new_name + "'"@
}

/// The line that reports a renaming in a verbose run.
pub open spec fn renamed_line(name: Seq<char>, new_name: Seq<char>) -> Seq<char> {
    "Renamed: '"@ + name + "' -> '"@ + new_name + "'"@
}

/// The line that reports an outcome's error.
pub open spec fn error_line(message: Seq<char>) -> Seq<char> {
    "Error: "@ + message
}

fn same_text(a: &str, b: &str) -> (same: bool)
    ensures
        same == (a@ == b@),
{
    let x = chars_of(a);
    let y = chars_of(b);
    if x.len() != y.len() {
        return false;
    }
    let mut i: usize = 0;
    while i < x.len()
        invariant
            i <= x.len(),
            x@ == a@,
            y@ == b@,
            x.len() == y.len(),
            forall|j: int| 0 <= j < i ==> x@[j] == y@[j],
        decreases x.len() - i,
    {
        if x[i] != y[i] {
            assert(a@[i as int] != b@[i as int]);
            return false;
        }
        i += 1;
    }
    assert(a@ =~= b@);
    true
}

fn quoted_pair(head: &str, name: &str, new_name: &str) -> (line: String)
    ensures
        line@ == head@ + name@ + "' -> '"@ + new_name@ + "'"@,
{
    let mut line = String::from_str(head);
    line.append(name);
    line.append("' -> '");
    line.append(new_name);
    line.append("'");
    line
}

/// What is known of one file once its processing has ended: the outcome,
/// a line for standard output and a line for the diagnostic stream, where
/// there is one.
#[derive(Clone, Debug, PartialEq, Eq)]
pub struct Report {
    pub outcome: RenameOutcome,
    pub notice: Option<String>,
    pub diagnostic: Option<String>,
}

/// A [`Report`] with its texts as sequences of characters.
pub struct ReportView {
    pub outcome: OutcomeView,
    pub notice: Option<Seq<char>>,
    pub diagnostic: Option<Seq<char>>,
}

/// The characters of a text that may be absent.
pub open spec fn text_view(text: Option<String>) -> Option<Seq<char>> {
    match text {
        Some(t) => Some(t@),
        None => None,
    }
}

impl View for Report {
    type V = ReportView;

    open spec fn view(&self) -> ReportView {
        ReportView {
            outcome: self.outcome@,
            notice: text_view(self.notice),
            diagnostic: text_view(self.diagnostic),
        }
    }
}

/// What the walk does next with a file.
#[derive(Clone, Debug, PartialEq, Eq)]
pub enum Step {
    /// Nothing more: the file's processing has ended.
    Done(Report),
    /// Rename the file to this name, in its own directory.
    Rename(String),
}

/// A [`Step`] with its texts as sequences of characters.
pub enum StepView {
    Done(ReportView),
    Rename(Seq<char>),
}

impl View for Step {
    type V = StepView;

    open spec fn view(&self) -> StepView {
        match self {
            Step::Done(report) => StepView::Done(report@),
            Step::Rename(to) => StepView::Rename(to@),
        }
    }
}

/// The step for a file called `name` whose normalized name is `new_name`.
/// A file that has its normalized name is left alone. A new name that is
/// taken in the file's directory is an error, in a dry run too. A dry run
/// announces the renaming and leaves the file alone. Otherwise the file is
/// to be renamed.
pub open spec fn decision(
    name: Seq<char>,
    new_name: Seq<char>,
    destination_exists: bool,
    dry_run: bool,
) -> StepView {
    if new_name == name {
        StepView::Done(
            ReportView { outcome: OutcomeView::NoAction, notice: None, diagnostic: None },
        )
    } else if destination_exists {
        StepView::Done(
            ReportView {
                outcome: OutcomeView::Error(exists_message(name)),
                notice: None,
                diagnostic: None,
            },
        )
    } else if dry_run {
        StepView::Done(
            ReportView {
                outcome: OutcomeView::NoAction,
                notice: Some(dry_run_line(name, new_name)),
                diagnostic: None,
            },
        )
    } else {
        StepView::Rename(new_name)
    }
}

/// The report for a file after the attempt to rename it, which failed for
/// `failure` if that is given. A failure is an error that also goes to the
/// diagnostic stream; a success is announced in a verbose run.
pub open spec fn conclusion(
    name: Seq<char>,
    new_name: Seq<char>,
    failure: Option<Seq<char>>,
    verbose: bool,
) -> ReportView {
    match failure {
        Some(cause) => ReportView {
            outcome: OutcomeView::Error(failure_message(name, cause)),
            notice: None,
            diagnostic: Some(failure_message(name, cause)),
        },
        None => ReportView {
            outcome: OutcomeView::Success,
            notice: if verbose {
                Some(renamed_line(name, new_name))
            } else {
                None
            },
            diagnostic: None,
        },
    }
}

/// The new name that a file called `name` is to get: its normalized name,
/// unless it has that name already.
pub open spec fn proposal(name: Seq<char>, limit: Option<Limit>) -> Option<Seq<char>> {
    if normalized(name, limit) == name {
        None
    } else {
        Some(normalized(name, limit))
    }
}

/// Proposes a new name for a file, see [`proposal`]. Where there is none,
/// the file's outcome is [`RenameOutcome::NoAction`] and nothing is left to
/// do for it.
pub fn propose(name: &str, limit: Option<Limit>) -> (new_name: Option<String>)
    ensures
        text_view(new_name) == proposal(name@, limit),
{
    let new_name = transform(name, limit);
    if same_text(new_name.as_str(), name) {
        None
    } else {
        Some(new_name)
    }
}

/// Decides what to do with a file, see [`decision`]. Whether the new name is
/// taken matters only where it differs from the old one.
pub fn decide(name: &str, new_name: &str, destination_exists: bool, dry_run: bool) -> (step: Step)
    ensures
        step@ == decision(name@, new_name@, destination_exists, dry_run),
{
    if same_text(new_name, name) {
        Step::Done(Report { outcome: RenameOutcome::NoAction, notice: None, diagnostic: None })
    } else if destination_exists {
        let mut message = String::from_str("Error renaming file '");
        message.append(name);
        message.append("', file exists!");
        Step::Done(
            Report { outcome: RenameOutcome::Error(message), notice: None, diagnostic: None },
        )
    } else if dry_run {
        let line = quoted_pair("Will be renamed: '", name, new_name);
        Step::Done(
            Report { outcome: RenameOutcome::NoAction, notice: Some(line), diagnostic: None },
        )
    } else {
        Step::Rename(String::from_str(new_name))
    }
}

/// Reports on a file after the attempt to rename it, see [`conclusion`].
pub fn conclude(name: &str, new_name: &str, failure: Option<&str>, verbose: bool) -> (report:
    Report)
    ensures
        report@ == conclusion(
            name@,
            new_name@,
            match failure {
                Some(cause) => Some(cause@),
                None => None,
            },
            verbose,
        ),
{
    match failure {
        Some(cause) => {
            let mut message = String::from_str("Error renaming file '");
            message.append(name);
            message.append("': ");
            message.append(cause);
            let diagnostic = message.clone();
            Report {
                outcome: RenameOutcome::Error(message),
                notice: None,
                diagnostic: Some(diagnostic),
            }
        },
        None => {
            let notice = if verbose {
                Some(quoted_pair("Renamed: '", name, new_name))
            } else {
                None
            };
            Report { outcome: RenameOutcome::Success, notice, diagnostic: None }
        },
    }
}

/// The line for the diagnostic stream that an outcome asks for: one for an
/// error, none otherwise.
pub open spec fn error_report(outcome: OutcomeView) -> Option<Seq<char>> {
    match outcome {
        OutcomeView::Error(message) => Some(error_line(message)),
        _ => None,
    }
}

/// The line that reports an outcome's error, see [`error_report`].
pub fn report_error(outcome: &RenameOutcome) -> (line: Option<String>)
    ensures
        text_view(line) == error_report(outcome@),
{
    match outcome {
        RenameOutcome::Error(message) => {
            let mut line = String::from_str("Error: ");
            line.append(message.as_str());
            Some(line)
        },
        _ => None,
    }
}

/// The decimal digit for a number below ten.
pub open spec fn digit(d: nat) -> char {
    (('0' as u8) + d) as char
}

/// A number written in decimal digits, without leading zeros.
pub open spec fn decimal(n: nat) -> Seq<char>
    decreases n,
{
    if n < 10 {
        seq![digit(n)]
    } else {
        decimal(n / 10).push(digit(n % 10))
    }
}

fn push_decimal(n: u64, out: &mut Vec<char>)
    ensures
        final(out)@ == old(out)@ + decimal(n as nat),
    decreases n,
{
    if n >= 10 {
        push_decimal(n / 10, out);
    }
    let d: u8 = (n % 10) as u8;
    out.push((('0' as u8) + d) as char);
}

/// The number of files that a count goes up by for an outcome: one for a
/// success, none for anything else.
pub open spec fn counted(outcome: OutcomeView) -> nat {
    match outcome {
        OutcomeView::Success => 1,
        _ => 0,
    }
}

/// The line that closes a run in which `renamed` files were renamed.
pub open spec fn summary_line(renamed: nat) -> Seq<char> {
    "Processed "@ + decimal(renamed) + " files"@
}

/// The count of the files that a run has renamed.
#[derive(Clone, Copy, Debug, PartialEq, Eq)]
pub struct RunSummary {
    renamed: u64,
}

impl View for RunSummary {
    type V = nat;

    closed spec fn view(&self) -> nat {
        self.renamed as nat
    }
}

impl RunSummary {
    /// The summary of a run that has met no file yet.
    pub fn new() -> (summary: RunSummary)
        ensures
            summary@ == 0,
    {
        RunSummary { renamed: 0 }
    }

    /// Takes one file's outcome into the count.
    pub fn record(&mut self, outcome: &RenameOutcome)
        requires
            old(self)@ + counted(outcome@) <= u64::MAX,
        ensures
            final(self)@ == old(self)@ + counted(outcome@),
    {
        match outcome {
            RenameOutcome::Success => {
                self.renamed = self.renamed + 1;
            },
            _ => {},
        }
    }

    /// The number of files renamed so far.
    pub fn renamed(&self) -> (renamed: u64)
        ensures
            renamed == self@,
    {
        self.renamed
    }

    /// The line that closes the run, see [`summary_line`].
    pub fn line(&self) -> (line: String)
        ensures
            line@ == summary_line(self@),
    {
        let mut digits: Vec<char> = Vec::new();
        push_decimal(self.renamed, &mut digits);
        let mut line = String::from_str("Processed ");
        line.append(string_of(digits).as_str());
        line.append(" files");
        line
    }
}

} // verus!
