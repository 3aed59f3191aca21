//! The command-line tools of the audio server: what is asked of them and what
//! their answers mean.

use vstd::prelude::*;
use vstd::utf8::{decode_utf8, valid_utf8};
use crate::error::{BackendError, BackendErrorView};
use crate::text::{
    cat, contains_text, is_white_space, lower, owned, parts_are_found_wherever_they_stand,
    text_contains, texts, to_lower, trim, trimmed, trimming_takes_the_white_space_at_the_ends,
};

verus! {

/// A program and the arguments it is run with. Its locale is `C`.
#[derive(Debug, PartialEq, Eq)]
pub struct CommandLine {
    pub program: &'static str,
    pub args: Vec<String>,
}

impl View for CommandLine {
    type V = (Seq<char>, Seq<Seq<char>>);

    open spec fn view(&self) -> (Seq<char>, Seq<Seq<char>>) {
        (self.program@, texts(self.args@))
    }
}

/// What became of a command.
#[derive(Debug)]
pub enum CommandOutcome {
    /// It could not be run, for this reason.
    NotStarted(String),
    /// It ran and ended.
    Finished {
        success: bool,
        /// How it ended, in words.
        status: String,
        stdout: Vec<u8>,
        stderr: Vec<u8>,
    },
}

/// The text that `String::from_utf8_lossy` reads from bytes.
pub uninterp spec fn lossy_text(bytes: Seq<u8>) -> Seq<char>;

/// What `String::from_utf8` says of bytes that are not UTF-8.
pub uninterp spec fn utf8_fault(bytes: Seq<u8>) -> Seq<char>;

/// `String::from_utf8_lossy` makes a text of any bytes, and of UTF-8 the text
/// that it encodes. How other bytes are replaced is not stated.
#[verifier::external_body]
fn read_lossy(bytes: &Vec<u8>) -> (r: String)
    ensures
        r@ == lossy_text(bytes@),
        valid_utf8(bytes@) ==> r@ == decode_utf8(bytes@),
{
    String::from_utf8_lossy(bytes).into_owned()
}

/// `String::from_utf8` accepts UTF-8 and nothing else, and gives the text that
/// it encodes. The wording of its error is named, not stated.
#[verifier::external_body]
fn read_utf8(bytes: Vec<u8>) -> (r: Result<String, String>)
    ensures
        match r {
            Ok(s) => valid_utf8(bytes@) && s@ == decode_utf8(bytes@),
            Err(e) => !valid_utf8(bytes@) && e@ == utf8_fault(bytes@),
        },
{
    String::from_utf8(bytes).map_err(|err| err.to_string())
}

/// The reason that a failed program gives: its error output, or else how it
/// ended.
pub open spec fn failure_reason(status: Seq<char>, complaint: Seq<char>) -> Seq<char> {
    let t = trim(complaint);
    if t.len() == 0 {
        "exit status "@ + status
    } else {
        t
    }
}

/// What a program printed, or why there is nothing to read.
pub open spec fn printed(program: Seq<char>, outcome: CommandOutcome) -> Result<
    Seq<char>,
    BackendErrorView,
> {
    match outcome {
        CommandOutcome::NotStarted(reason) => Err(BackendErrorView::Io(program, reason@)),
        CommandOutcome::Finished { success, status, stdout, stderr } => if !success {
            Err(
                BackendErrorView::CommandFailed(
                    program,
                    failure_reason(status@, lossy_text(stderr@)),
                ),
            )
        } else if valid_utf8(stdout@) {
            Ok(decode_utf8(stdout@))
        } else {
            Err(BackendErrorView::InvalidOutput(program, utf8_fault(stdout@)))
        },
    }
}

/// A text outcome, by its view.
pub open spec fn text_outcome(r: Result<String, BackendError>) -> Result<
    Seq<char>,
    BackendErrorView,
> {
    match r {
        Ok(s) => Ok(s@),
        Err(e) => Err(e@),
    }
}

/// Why a program failed, given how it ended and what it printed as its error
/// output.
pub fn reason_for_failure(status: &str, complaint: &str) -> (r: String)
    ensures
        r@ == failure_reason(status@, complaint@),
{
    let t = trimmed(complaint);
    if t.as_str().is_empty() {
        cat("exit status ", status)
    } else {
        t
    }
}

/// The text that `program` printed.
pub fn run_text(program: &'static str, outcome: CommandOutcome) -> (r: Result<String, BackendError>)
    ensures
        text_outcome(r) == printed(program@, outcome),
{
    match outcome {
        CommandOutcome::NotStarted(reason) => Err(BackendError::Io(program, reason)),
        CommandOutcome::Finished { success, status, stdout, stderr } => {
            if !success {
                let complaint = read_lossy(&stderr);
                let reason = reason_for_failure(status.as_str(), complaint.as_str());
                Err(BackendError::CommandFailed(program, reason))
            } else {
                match read_utf8(stdout) {
                    Ok(s) => Ok(s),
                    Err(fault) => Err(BackendError::InvalidOutput(program, fault)),
                }
            }
        },
    }
}

/// What comes of a request to make a link. A link that exists already is as
/// good as made.
pub open spec fn link_made(answer: Result<Seq<char>, BackendErrorView>) -> Result<
    (),
    BackendErrorView,
> {
    match answer {
        Ok(_) => Ok(()),
        Err(BackendErrorView::CommandFailed(program, stderr)) => if contains_text(
            lower(stderr),
            "exists"@,
        ) {
            Ok(())
        } else {
            Err(BackendErrorView::CommandFailed(program, stderr))
        },
        Err(e) => Err(e),
    }
}

/// The words by which `pw-link` says that there is no such link.
pub open spec fn tells_absence(stderr: Seq<char>) -> bool {
    ||| contains_text(lower(stderr), "no such file"@)
    ||| contains_text(lower(stderr), "not found"@)
    ||| contains_text(lower(stderr), "does not exist"@)
}

/// What comes of a request to remove a link. A link that is not there is as
/// good as removed.
pub open spec fn link_removed(answer: Result<Seq<char>, BackendErrorView>) -> Result<
    (),
    BackendErrorView,
> {
    match answer {
        Ok(_) => Ok(()),
        Err(BackendErrorView::CommandFailed(_, stderr)) => if tells_absence(stderr) {
            Ok(())
        } else {
            Err(BackendErrorView::CommandFailed("pw-link"@, stderr))
        },
        Err(e) => Err(e),
    }
}

/// The command that links two ports.
pub fn link_command(output_path: &str, input_path: &str) -> (c: CommandLine)
    ensures
        c@ == ("pw-link"@, seq![output_path@, input_path@]),
{
    let c = CommandLine { program: "pw-link", args: vec![owned(output_path), owned(input_path)] };
    assert(c@.1 =~= seq![output_path@, input_path@]);
    c
}

/// The command that unlinks two ports.
pub fn unlink_command(output_path: &str, input_path: &str) -> (c: CommandLine)
    ensures
        c@ == ("pw-link"@, seq!["-d"@, output_path@, input_path@]),
{
    let c = CommandLine {
        program: "pw-link",
        args: vec![owned("-d"), owned(output_path), owned(input_path)],
    };
    assert(c@.1 =~= seq!["-d"@, output_path@, input_path@]);
    c
}

/// What an answer to [`link_command`] means.
pub fn read_link_answer(answer: Result<String, BackendError>) -> (r: Result<(), BackendError>)
    ensures
        crate::error::outcome(r) == link_made(text_outcome(answer)),
{
    match answer {
        Ok(_) => Ok(()),
        Err(err) => match err {
            BackendError::CommandFailed(program, stderr) => {
                let lowered = to_lower(stderr.as_str());
                if text_contains(lowered.as_str(), "exists") {
                    Ok(())
                } else {
                    Err(BackendError::CommandFailed(program, stderr))
                }
            },
            other => Err(other),
        },
    }
}

/// What an answer to [`unlink_command`] means.
pub fn read_unlink_answer(answer: Result<String, BackendError>) -> (r: Result<(), BackendError>)
    ensures
        crate::error::outcome(r) == link_removed(text_outcome(answer)),
{
    match answer {
        Ok(_) => Ok(()),
        Err(err) => match err {
            BackendError::CommandFailed(_, stderr) => {
                let lowered = to_lower(stderr.as_str());
                if text_contains(lowered.as_str(), "no such file") || text_contains(
                    lowered.as_str(),
                    "not found",
                ) || text_contains(lowered.as_str(), "does not exist") {
                    Ok(())
                } else {
                    Err(BackendError::CommandFailed("pw-link", stderr))
                }
            },
            other => Err(other),
        },
    }
}

/// What the outcome of [`link_command`] means.
pub fn create_link(outcome: CommandOutcome) -> (r: Result<(), BackendError>)
    ensures
        crate::error::outcome(r) == link_made(printed("pw-link"@, outcome)),
{
    read_link_answer(run_text("pw-link", outcome))
}

/// What the outcome of [`unlink_command`] means.
pub fn remove_link(outcome: CommandOutcome) -> (r: Result<(), BackendError>)
    ensures
        crate::error::outcome(r) == link_removed(printed("pw-link"@, outcome)),
{
    read_unlink_answer(run_text("pw-link", outcome))
}

/// A command that ran to success and printed UTF-8 always makes its link and
/// always removes it; one that could not be run never does.
pub proof fn plain_outcomes_decide(outcome: CommandOutcome)
    ensures
        outcome matches CommandOutcome::Finished { success, stdout, .. } && success && valid_utf8(
            stdout@,
        ) ==> link_made(printed("pw-link"@, outcome)) is Ok && link_removed(
            printed("pw-link"@, outcome),
        ) is Ok,
        outcome is NotStarted ==> link_made(printed("pw-link"@, outcome)) is Err && link_removed(
            printed("pw-link"@, outcome),
        ) is Err,
{
}

/// A program that failed is blamed for what it complained of, without the white
/// space around it, or else for how it ended.
pub proof fn failures_are_blamed_on_the_complaint(
    status: Seq<char>,
    before: Seq<char>,
    complaint: Seq<char>,
    after: Seq<char>,
)
    requires
        forall|i: int| 0 <= i < before.len() ==> is_white_space(#[trigger] before[i]),
        forall|i: int| 0 <= i < after.len() ==> is_white_space(#[trigger] after[i]),
        complaint.len() > 0 ==> !is_white_space(complaint[0]) && !is_white_space(complaint.last()),
    ensures
        failure_reason(status, before + complaint + after) == (if complaint.len() > 0 {
            complaint
        } else {
            "exit status "@ + status
        }),
{
    trimming_takes_the_white_space_at_the_ends(before, complaint, after);
}

/// What a program printed is read where it succeeded and printed UTF-8; a
/// program that failed, one that printed anything else and one that could not be
/// run are told apart, each by its name.
pub proof fn outcomes_of_programs_are_told_apart(
    program: Seq<char>,
    reason: String,
    status: String,
    stdout: Vec<u8>,
    stderr: Vec<u8>,
)
    ensures
        printed(program, CommandOutcome::NotStarted(reason)) == Err::<Seq<char>, BackendErrorView>(
            BackendErrorView::Io(program, reason@),
        ),
        ({
            let ran = printed(
                program,
                CommandOutcome::Finished { success: true, status, stdout, stderr },
            );
            &&& valid_utf8(stdout@) ==> ran == Ok::<Seq<char>, BackendErrorView>(
                decode_utf8(stdout@),
            )
            &&& !valid_utf8(stdout@) ==> ran == Err::<Seq<char>, BackendErrorView>(
                BackendErrorView::InvalidOutput(program, utf8_fault(stdout@)),
            )
        }),
        printed(
            program,
            CommandOutcome::Finished { success: false, status, stdout, stderr },
        ) == Err::<Seq<char>, BackendErrorView>(
            BackendErrorView::CommandFailed(
                program,
                failure_reason(status@, lossy_text(stderr@)),
            ),
        ),
{
}

/// A link that exists already counts as made, and one that is not there as
/// removed, in whatever case that is said and whatever is said around it.
pub proof fn what_is_so_already_counts_as_done(
    program: Seq<char>,
    a: Seq<char>,
    said: Seq<char>,
    b: Seq<char>,
)
    ensures
        lower(said) == "exists"@ ==> link_made(
            Err(BackendErrorView::CommandFailed(program, a + said + b)),
        ) is Ok,
        lower(said) == "no such file"@ || lower(said) == "not found"@ || lower(said)
            == "does not exist"@ ==> link_removed(
            Err(BackendErrorView::CommandFailed(program, a + said + b)),
        ) is Ok,
{
    assert(lower(a + said + b) =~= lower(a) + lower(said) + lower(b));
    parts_are_found_wherever_they_stand(lower(a), lower(said), lower(b));
}

/// Any other answer is what came of the link: a success is one, and a fault
/// stays the fault that it was, by its own words.
pub proof fn other_faults_of_links_stay(
    text: Seq<char>,
    program: Seq<char>,
    said: Seq<char>,
    e: BackendErrorView,
)
    requires
        !(e is CommandFailed),
    ensures
        link_made(Ok(text)) is Ok,
        link_removed(Ok(text)) is Ok,
        link_made(Err(e)) == Err::<(), BackendErrorView>(e),
        link_removed(Err(e)) == Err::<(), BackendErrorView>(e),
        !contains_text(lower(said), "exists"@) ==> link_made(
            Err(BackendErrorView::CommandFailed(program, said)),
        ) == Err::<(), BackendErrorView>(BackendErrorView::CommandFailed(program, said)),
        !contains_text(lower(said), "no such file"@) && !contains_text(
            lower(said),
            "not found"@,
        ) && !contains_text(lower(said), "does not exist"@) ==> link_removed(
            Err(BackendErrorView::CommandFailed("pw-link"@, said)),
        ) == Err::<(), BackendErrorView>(BackendErrorView::CommandFailed("pw-link"@, said)),
{
}

/// Two ports are linked and unlinked by the same tool with the same two paths,
/// the output before the input; a `-d` before them makes the difference.
pub proof fn unlinking_takes_one_word_more(
    output: &str,
    input: &str,
    link: CommandLine,
    unlink: CommandLine,
)
    requires
        call_ensures(link_command, (output, input), link),
        call_ensures(unlink_command, (output, input), unlink),
    ensures
        link@.0 == "pw-link"@ && unlink@.0 == "pw-link"@,
        link@.1 == seq![output@, input@],
        unlink@.1 == seq!["-d"@] + link@.1,
{
    assert(unlink@.1 =~= seq!["-d"@] + link@.1);
}

} // verus!
