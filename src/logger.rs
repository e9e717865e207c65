//! A logger run as an actor: each call records a line for the host to print
//! and answers with a status code.
use vstd::prelude::*;

use crate::runtime::{Handle, Handler};

verus! {

/// Collects log lines, oldest first, until the host takes them.
pub struct PrintLogger {
    lines: Vec<String>,
    self_actor: Option<Handle>,
}

/// The calls of a [`PrintLogger`] actor.
#[derive(Debug)]
pub enum PrintLoggerMessage {
    Info { data: String },
    Error { data: String },
}

pub open spec fn texts_view(v: Seq<String>) -> Seq<Seq<char>> {
    v.map_values(|s: String| s@)
}

impl PrintLogger {
    /// The lines recorded and not yet taken.
    pub closed spec fn output(&self) -> Seq<Seq<char>> {
        texts_view(self.lines@)
    }

    pub fn new() -> (r: PrintLogger)
        ensures
            r.output().len() == 0,
            r.self_handle() is None,
    {
        PrintLogger { lines: Vec::new(), self_actor: None }
    }

    fn record(&mut self, data: String)
        ensures
            final(self).output() == old(self).output().push(data@),
            final(self).self_handle() == old(self).self_handle(),
    {
        let ghost before = self.lines@;
        self.lines.push(data);
        assert(texts_view(self.lines@) =~= texts_view(before).push(data@));
    }

    /// The answer to an informational line: 0. The line itself is printed by
    /// the host, from the output that the actor's handler records.
    pub fn info(&self, data: &String) -> (r: i32)
        ensures
            r == 0,
    {
        0
    }

    /// The answer to an error line: -1. The line itself is printed by the
    /// host, from the output that the actor's handler records.
    pub fn error(&self, data: &String) -> (r: i32)
        ensures
            r == -1,
    {
        -1
    }

    /// The handle to its own actor that the logger holds, if any.
    pub closed spec fn self_handle(&self) -> Option<Handle> {
        self.self_actor
    }

    /// The lines recorded and not yet taken, oldest first.
    pub fn lines(&self) -> (r: &Vec<String>)
        ensures
            texts_view(r@) == self.output(),
    {
        &self.lines
    }

    /// Hands over the recorded lines, oldest first, and forgets them.
    pub fn take_output(&mut self) -> (r: Vec<String>)
        ensures
            texts_view(r@) == old(self).output(),
            final(self).output().len() == 0,
    {
        let mut r: Vec<String> = Vec::new();
        std::mem::swap(&mut r, &mut self.lines);
        r
    }
}

impl Handler for PrintLogger {
    type Msg = PrintLoggerMessage;
    type Reply = i32;
    type Fault = String;

    fn handle(&mut self, msg: &PrintLoggerMessage) -> (r: Result<i32, String>)
        ensures
            match *msg {
                PrintLoggerMessage::Info { data } => r is Ok && r->Ok_0 == 0 && final(self).output()
                    == old(self).output().push(data@),
                PrintLoggerMessage::Error { data } => r is Ok && r->Ok_0 == -1 && final(self).output()
                    == old(self).output().push(data@),
            },
            final(self).self_handle() == old(self).self_handle(),
    {
        match msg {
            PrintLoggerMessage::Info { data } => {
                self.record(data.clone());
                Ok(self.info(data))
            },
            PrintLoggerMessage::Error { data } => {
                self.record(data.clone());
                Ok(self.error(data))
            },
        }
    }

    fn on_error(&mut self, fault: String, msg: &PrintLoggerMessage)
        ensures
            final(self).output() == old(self).output().push(fault@),
            final(self).self_handle() == old(self).self_handle(),
    {
        self.record(fault);
    }

    fn on_idle(&mut self) {
    }

    fn set_self_handle(&mut self, handle: Handle) {
        self.self_actor = Some(handle);
    }

    fn retire(&mut self, msg: PrintLoggerMessage) -> Vec<Handle> {
        Vec::new()
    }

    fn close(&mut self) -> Vec<Handle> {
        let mut held: Vec<Handle> = Vec::new();
        match self.self_actor.take() {
            Some(h) => held.push(h),
            None => {},
        }
        held
    }
}

} // verus!
