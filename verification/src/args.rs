//! The invocation's request: which task to run, on which sink, with which
//! step, and where the identity record lives.  The one piece of logic here
//! is turning the request into the mixer command line; an unknown task
//! name is a usage error and no command at all.

use vstd::prelude::*;
use vstd::string::StringExecFns;
use crate::digits::{i64_to_string, int_digits};
use crate::text::str_eq;

verus! {

/// The task name was none of `up`, `down`, `mute`, `noop`.
#[derive(Clone, Copy, Debug, PartialEq, Eq, Structural)]
pub enum ArgsError {
    UnknownTask,
}

/// One invocation's request, as resolved from the command line.
#[derive(Debug)]
pub struct Args {
    /// Path of the identity record.
    pub db_path: String,
    /// Step by which to raise or lower the volume.
    pub interval: i32,
    /// Sink on which to perform the task.
    pub sink: String,
    /// Task name: `up`, `down`, `mute` or `noop`.
    pub task: String,
}

/// The mixer command for a request, or `None` for an unknown task: raise
/// or lower the sink's volume by the signed step, toggle its mute state,
/// or run the do-nothing command.
pub open spec fn command_spec(a: Args) -> Option<Seq<Seq<char>>> {
    if a.task@ == "up"@ {
        Some(seq![
            "pactl"@,
            "set-sink-volume"@,
            a.sink@,
            seq!['+'] + int_digits(a.interval as int),
        ])
    } else if a.task@ == "down"@ {
        Some(seq![
            "pactl"@,
            "set-sink-volume"@,
            a.sink@,
            seq!['-'] + int_digits(a.interval as int),
        ])
    } else if a.task@ == "mute"@ {
        Some(seq!["pactl"@, "set-sink-mute"@, a.sink@, "toggle"@])
    } else if a.task@ == "noop"@ {
        Some(seq!["true"@])
    } else {
        None
    }
}

impl Args {
    /// The command line to hand the subprocess runner for this request,
    /// or the usage error for a task name the tool does not know.
    pub fn get_command_or_die(&self) -> (r: Result<Vec<String>, ArgsError>)
        ensures
            match r {
                Ok(cmd) => command_spec(*self)
                    == Some(cmd@.map_values(|s: String| s@)),
                Err(e) => command_spec(*self) is None && e == ArgsError::UnknownTask,
            },
    {
        let ghost dv = |s: String| s@;
        if str_eq(self.task.as_str(), "up") {
            let mut step = "+".to_owned();
            step.append(i64_to_string(self.interval as i64).as_str());
            proof {
                reveal_strlit("+");
                assert(step@ =~= seq!['+'] + int_digits(self.interval as int));
            }
            let cmd = vec![
                "pactl".to_owned(),
                "set-sink-volume".to_owned(),
                self.sink.clone(),
                step,
            ];
            proof {
                assert(cmd@.map_values(dv) =~~= command_spec(*self)->Some_0);
            }
            Ok(cmd)
        } else if str_eq(self.task.as_str(), "down") {
            let mut step = "-".to_owned();
            step.append(i64_to_string(self.interval as i64).as_str());
            proof {
                reveal_strlit("-");
                assert(step@ =~= seq!['-'] + int_digits(self.interval as int));
            }
            let cmd = vec![
                "pactl".to_owned(),
                "set-sink-volume".to_owned(),
                self.sink.clone(),
                step,
            ];
            proof {
                assert(cmd@.map_values(dv) =~~= command_spec(*self)->Some_0);
            }
            Ok(cmd)
        } else if str_eq(self.task.as_str(), "mute") {
            let cmd = vec![
                "pactl".to_owned(),
                "set-sink-mute".to_owned(),
                self.sink.clone(),
                "toggle".to_owned(),
            ];
            proof {
                assert(cmd@.map_values(dv) =~~= command_spec(*self)->Some_0);
            }
            Ok(cmd)
        } else if str_eq(self.task.as_str(), "noop") {
            let cmd = vec!["true".to_owned()];
            proof {
                assert(cmd@.map_values(dv) =~~= command_spec(*self)->Some_0);
            }
            Ok(cmd)
        } else {
            Err(ArgsError::UnknownTask)
        }
    }
}

} // verus!
