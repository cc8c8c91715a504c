//! What a review is set up with.
use crate::text::{lit, put};
use crate::uci::proto::{Command, Stage};
use vstd::prelude::*;
use vstd::string::*;

verus! {

/// The settings of the program.
#[derive(Debug)]
pub struct Config {
    /// The engine to consult.
    pub engine: Option<Engine>,
    /// The limits of a review.
    pub rev: Rev,
    /// What is logged.
    pub logging: Logging,
}

/// The engine to consult.
#[derive(Debug)]
pub struct Engine {
    /// A name for the engine in logs.
    pub name: String,
    /// The program to run.
    pub command: String,
    /// Its arguments.
    pub args: Vec<String>,
    /// The directory to run it in.
    pub pwd: Option<String>,
    /// The options to set once the engine has started: names and values.
    pub options: Vec<(String, String)>,
    /// Whether to switch the engine's debug mode on.
    pub debug: bool,
}

/// The limits of the search for one move.
#[derive(Debug)]
pub struct Rev {
    /// The depth to search to.
    pub depth: Option<u8>,
    /// The time to search for, in milliseconds.
    pub time: Option<u64>,
}

/// What is logged.
#[derive(Debug)]
pub struct Logging {
    /// The filter directives to apply.
    pub filter: Vec<String>,
}

impl Default for Rev {
    fn default() -> (r: Rev)
        ensures
            r.depth is None,
            r.time is None,
    {
        Rev { depth: None, time: None }
    }
}

impl Default for Logging {
    fn default() -> (r: Logging)
        ensures
            r.filter@.len() == 0,
    {
        Logging { filter: Vec::new() }
    }
}

impl Default for Config {
    fn default() -> (r: Config)
        ensures
            r.engine is None,
            r.rev.depth is None,
            r.rev.time is None,
            r.logging.filter@.len() == 0,
    {
        Config { engine: None, rev: Rev::default(), logging: Logging::default() }
    }
}

/// The line that sets the option `name` to `value`.
pub open spec fn option_line(name: Seq<char>, value: Seq<char>) -> Seq<u8> {
    lit("setoption name ") + vstd::utf8::encode_utf8(name) + lit(" value ")
        + vstd::utf8::encode_utf8(value)
}

impl Engine {
    /// The lines that configure the engine once it has answered `uci`:
    /// `debug` where debug mode is asked for, then one line for each option,
    /// in their order.
    pub open spec fn setup_lines(&self) -> Seq<Seq<u8>> {
        let options = Seq::new(
            self.options.len() as nat,
            |i: int| option_line(self.options[i].0@, self.options[i].1@),
        );
        if self.debug {
            seq![lit("debug")] + options
        } else {
            options
        }
    }

    /// The commands that configure the engine once it has answered `uci`:
    /// `Debug` first where debug mode is asked for, then one `SetOption`
    /// for each option. A conversation that is ready takes each of them
    /// and stays ready.
    pub fn setup(&self) -> (r: Vec<Command>)
        ensures
            r@.len() == self.setup_lines().len(),
            forall|i: int| 0 <= i < r@.len() ==> (#[trigger] r@[i]).wire() == self.setup_lines()[i],
            forall|i: int|
                0 <= i < r@.len() ==> ((#[trigger] r@[i]) is Debug <==> self.debug && i == 0) && (
                r@[i] is SetOption <==> !(self.debug && i == 0)),
            forall|i: int|
                0 <= i < r@.len() ==> Stage::Ready.sent(#[trigger] r@[i]) == Some(Stage::Ready),
    {
        let mut r: Vec<Command> = Vec::new();
        if self.debug {
            r.push(Command::Debug);
        }
        let ghost head = r@;
        let mut i: usize = 0;
        while i < self.options.len()
            invariant
                i <= self.options.len(),
                head.len() == (if self.debug {
                    1int
                } else {
                    0int
                }),
                r@.len() == head.len() + i,
                forall|k: int| 0 <= k < r@.len() ==> (#[trigger] r@[k]).wire() == self.setup_lines()[k],
                forall|k: int|
                    0 <= k < r@.len() ==> ((#[trigger] r@[k]) is Debug <==> self.debug && k == 0)
                        && (r@[k] is SetOption <==> !(self.debug && k == 0)),
            decreases self.options.len() - i,
        {
            let mut name: Vec<u8> = Vec::new();
            put(&mut name, self.options[i].0.as_str().as_bytes());
            let mut value: Vec<u8> = Vec::new();
            put(&mut value, self.options[i].1.as_str().as_bytes());
            let command = Command::SetOption(name, value);
            assert(command.wire() =~= option_line(
                self.options[i as int].0@,
                self.options[i as int].1@,
            ));
            r.push(command);
            i += 1;
        }
        r
    }
}

} // verus!
