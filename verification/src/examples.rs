use vstd::prelude::*;

use crate::log::{level_text, LogLevel};
use crate::numfmt::{append_decimal, dec};

verus! {

/// A log request for the console logger actor.
#[derive(Debug, Clone)]
pub struct ConsoleLogRequest {
    /// Severity.
    pub level: LogLevel,
    /// Name of the component that logged.
    pub source: String,
    /// The message.
    pub text: String,
}

/// The console logger's rules: every request becomes one line
/// `<timestamp> [<LEVEL>] [<source>] <text>`.
#[derive(Debug, Clone, Copy)]
pub struct ConsoleLogHandler;

/// The line written for a request.
pub open spec fn console_line(timestamp: Seq<char>, level: LogLevel, source: Seq<char>, text: Seq<char>) -> Seq<char> {
    timestamp + " ["@ + level_text(level) + "] ["@ + source + "] "@ + text
}

impl ConsoleLogHandler {
    /// The console logger.
    pub fn new() -> (r: Self)
        ensures
            r == ConsoleLogHandler,
    {
        ConsoleLogHandler
    }

    /// The line for `req` stamped `timestamp`.
    pub fn line_for(&self, timestamp: &str, req: &ConsoleLogRequest) -> (r: String)
        ensures
            r@ == console_line(timestamp@, req.level, req.source@, req.text@),
    {
        let mut s = String::from_str(timestamp);
        s.append(" [");
        let label = req.level.to_string();
        s.append(label.as_str());
        s.append("] [");
        s.append(req.source.as_str());
        s.append("] ");
        s.append(req.text.as_str());
        proof {
            assert(s@ =~= console_line(timestamp@, req.level, req.source@, req.text@));
        }
        s
    }
}

/// A request to greet someone.
#[derive(Debug)]
pub struct GreetRequest {
    /// Who to greet.
    pub name: String,
}

/// The greeter's state: how many greetings it has given.
#[derive(Debug, Clone, Copy)]
pub struct Greeter {
    count: u32,
}

/// The line of greeting number `count` for `name`.
pub open spec fn greeting_line(count: u32, name: Seq<char>) -> Seq<char> {
    "  ["@ + dec(count as nat) + "] Hello, "@ + name + "!"@
}

/// The line written when the greeter stops after `count` greetings.
pub open spec fn stop_line(count: u32) -> Seq<char> {
    "[greeter] Greeter stopped after "@ + dec(count as nat) + " greetings"@
}

impl Greeter {
    /// Greetings given so far.
    pub closed spec fn count_spec(&self) -> u32 {
        self.count
    }

    /// A greeter that has greeted nobody.
    pub fn new() -> (r: Self)
        ensures
            r.count_spec() == 0,
    {
        Greeter { count: 0 }
    }

    /// Greetings given so far.
    pub fn count(&self) -> (r: u32)
        ensures
            r == self.count_spec(),
    {
        self.count
    }

    /// Greets the requester: counts the greeting and gives its line.
    pub fn greet(&mut self, req: &GreetRequest) -> (r: String)
        requires
            old(self).count_spec() < u32::MAX,
        ensures
            final(self).count_spec() == old(self).count_spec() + 1,
            r@ == greeting_line(final(self).count_spec(), req.name@),
    {
        self.count = self.count + 1;
        let mut s = String::from_str("  [");
        append_decimal(&mut s, self.count as u64);
        s.append("] Hello, ");
        s.append(req.name.as_str());
        s.append("!");
        proof {
            assert(s@ =~= greeting_line(self.count, req.name@));
        }
        s
    }

    /// The line written when the greeter stops.
    pub fn stop_message(&self) -> (r: String)
        ensures
            r@ == stop_line(self.count_spec()),
    {
        let mut s = String::from_str("[greeter] Greeter stopped after ");
        append_decimal(&mut s, self.count as u64);
        s.append(" greetings");
        proof {
            assert(s@ =~= stop_line(self.count));
        }
        s
    }
}

/// The marketing name of a GPU architecture from its compute capability.
pub fn architecture_name(major: u32, minor: u32) -> (r: &'static str)
    ensures
        r@ == if (major == 7 && minor == 0) || (major == 7 && minor == 2) {
            "Volta"@
        } else if major == 7 && minor == 5 {
            "Turing"@
        } else if major == 8 && minor == 0 {
            "Ampere"@
        } else if major == 8 && minor == 6 {
            "Ampere (GA10x)"@
        } else if major == 8 && minor == 7 {
            "Ampere (Orin)"@
        } else if major == 8 && minor == 9 {
            "Ada Lovelace"@
        } else if major == 9 && minor == 0 {
            "Hopper"@
        } else if major == 10 && minor == 0 {
            "Blackwell"@
        } else {
            "Unknown"@
        },
{
    if (major == 7 && minor == 0) || (major == 7 && minor == 2) {
        "Volta"
    } else if major == 7 && minor == 5 {
        "Turing"
    } else if major == 8 && minor == 0 {
        "Ampere"
    } else if major == 8 && minor == 6 {
        "Ampere (GA10x)"
    } else if major == 8 && minor == 7 {
        "Ampere (Orin)"
    } else if major == 8 && minor == 9 {
        "Ada Lovelace"
    } else if major == 9 && minor == 0 {
        "Hopper"
    } else if major == 10 && minor == 0 {
        "Blackwell"
    } else {
        "Unknown"
    }
}

} // verus!
