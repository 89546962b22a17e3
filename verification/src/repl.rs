//! The read-eval-print loop: numbering of the prompts and what to do with each thing read.
//! Reading lines and running code is up to the program that embeds this library.
use vstd::prelude::*;
use crate::text::{owned, concat};

verus! {

/// The state of the loop: the number of the current line, and whether debugging output was
/// asked for.
pub struct Repl {
    pub line: i32,
    pub debug: bool,
}

/// What reading a line gave.
pub enum ReplEvent {
    Line(String),
    /// Ctrl-C.
    Interrupted,
    /// Ctrl-D.
    Eof,
    /// Reading failed, with the reason.
    Failed(String),
}

/// What to do next.
pub enum ReplAction {
    /// Record the line in the history and run it.
    Run(String),
    /// Print the message and stop.
    Stop(String),
}

/// A loop at line 0.
pub fn build_repl(debug: bool) -> (r: Repl)
    ensures
        r.line == 0,
        r.debug == debug,
{
    Repl { line: 0, debug }
}

/// The message printed when reading failed.
pub open spec fn read_failure(reason: Seq<char>) -> Seq<char> {
    "Error: "@ + reason
}

impl Repl {
    /// Moves to the next line and returns its number, shown in the prompt.
    pub fn next_line(&mut self) -> (r: i32)
        requires
            old(self).line < i32::MAX,
        ensures
            final(self).line == old(self).line + 1,
            final(self).debug == old(self).debug,
            r == final(self).line,
    {
        self.line = self.line + 1;
        self.line
    }

    /// What to do with what was read: run a line; stop on Ctrl-C ("CTRL-C"), Ctrl-D
    /// ("CTRL-D") or a failure ("Error: <reason>").
    pub fn handle(&self, event: ReplEvent) -> (r: ReplAction)
        ensures
            match event {
                ReplEvent::Line(l) => r == ReplAction::Run(l),
                ReplEvent::Interrupted => r matches ReplAction::Stop(m) && m@ == "CTRL-C"@,
                ReplEvent::Eof => r matches ReplAction::Stop(m) && m@ == "CTRL-D"@,
                ReplEvent::Failed(reason) => r matches ReplAction::Stop(m) && m@ == read_failure(reason@),
            },
    {
        match event {
            ReplEvent::Line(l) => ReplAction::Run(l),
            ReplEvent::Interrupted => ReplAction::Stop(owned("CTRL-C")),
            ReplEvent::Eof => ReplAction::Stop(owned("CTRL-D")),
            ReplEvent::Failed(reason) => ReplAction::Stop(concat("Error: ", reason.as_str())),
        }
    }
}

} // verus!
