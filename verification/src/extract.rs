//! What to do with an entry whose file may exist already.
//!
//! Extraction goes entry by entry. For each one the caller says whether the
//! target exists and gets the step to take; where the step is to ask, the
//! caller asks and hands the answer back. Whether existing files are
//! overwritten is the one thing that is carried from entry to entry.
use vstd::prelude::*;
use crate::tar::text::same_text;

verus! {

/// The step to take for one entry.
#[derive(Debug, Clone, Copy, PartialEq, Eq, Structural)]
pub enum Step {
    /// Write the file; `overwritten` tells whether one was there before.
    Write { overwritten: bool },
    /// Leave the existing file as it is.
    Skip,
    /// Ask whether to overwrite the existing file.
    Ask,
}

/// An answer to the question whether to overwrite a file.
#[derive(Debug, Clone, Copy, PartialEq, Eq, Structural)]
pub enum Answer {
    /// Overwrite this file and all that follow.
    All,
    /// Overwrite this file.
    Yes,
    /// Keep this file.
    No,
}

/// The step for an entry, before anything is asked.
pub open spec fn step_for(exists: bool, overwrite: bool, use_prompt: bool) -> Step {
    if !exists {
        Step::Write { overwritten: false }
    } else if overwrite {
        Step::Write { overwritten: true }
    } else if use_prompt {
        Step::Ask
    } else {
        Step::Skip
    }
}

/// What an answer means. The answer is taken as it stands: the caller has
/// trimmed it and put it in lower case.
pub open spec fn answer_of(text: Seq<char>) -> Answer {
    if text == seq!['a'] || text == seq!['a', 'l', 'l'] {
        Answer::All
    } else if text == seq!['y'] || text == seq!['y', 'e', 's'] {
        Answer::Yes
    } else {
        Answer::No
    }
}

/// The step for an entry whose file exists, after the answer.
pub open spec fn step_after(answer: Answer) -> Step {
    match answer {
        Answer::All => Step::Write { overwritten: true },
        Answer::Yes => Step::Write { overwritten: true },
        Answer::No => Step::Skip,
    }
}

/// Whether existing files are overwritten from here on, after the answer.
pub open spec fn overwrite_after(answer: Answer, overwrite: bool) -> bool {
    overwrite || answer == Answer::All
}

/// The step for an entry, before anything is asked.
pub fn on_entry(exists: bool, overwrite: bool, use_prompt: bool) -> (step: Step)
    ensures
        step == step_for(exists, overwrite, use_prompt),
{
    if !exists {
        Step::Write { overwritten: false }
    } else if overwrite {
        Step::Write { overwritten: true }
    } else if use_prompt {
        Step::Ask
    } else {
        Step::Skip
    }
}

/// Reads an answer that was trimmed and put in lower case.
pub fn read_answer(text: &str) -> (answer: Answer)
    ensures
        answer == answer_of(text@),
{
    proof {
        reveal_strlit("a");
        reveal_strlit("all");
        reveal_strlit("y");
        reveal_strlit("yes");
        assert("a"@ =~= seq!['a']);
        assert("all"@ =~= seq!['a', 'l', 'l']);
        assert("y"@ =~= seq!['y']);
        assert("yes"@ =~= seq!['y', 'e', 's']);
    }
    if same_text(text, "a") || same_text(text, "all") {
        Answer::All
    } else if same_text(text, "y") || same_text(text, "yes") {
        Answer::Yes
    } else {
        Answer::No
    }
}

/// The step for an entry whose file exists, after the answer, and whether
/// existing files are overwritten from here on.
pub fn on_answer(answer: Answer, overwrite: bool) -> (next: (Step, bool))
    ensures
        next.0 == step_after(answer),
        next.1 == overwrite_after(answer, overwrite),
{
    match answer {
        Answer::All => (Step::Write { overwritten: true }, true),
        Answer::Yes => (Step::Write { overwritten: true }, overwrite),
        Answer::No => (Step::Skip, overwrite),
    }
}

} // verus!
