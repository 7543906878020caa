//! The surface an interactive host implements around the engine: reading,
//! prompting, and running statements. The engine itself performs no I/O;
//! a host brings these methods and drives the read loop.

use vstd::prelude::*;

verus! {

/// The interactive host's obligations. `execute_script` runs a whole script
/// text; `execute_interactive` enters the read loop and does not return;
/// `terminate_script_quotes` checks that a script's statements are
/// terminated and yields the exit status; `readln` reads one line, `prompt`
/// and `prompt_fn` render the prompt, `save_command` records a line in the
/// history, and `reset_flow` clears flow-control state after an error.
pub trait Binary {
    fn execute_script(&mut self, script: &str);

    fn execute_interactive(self);

    fn terminate_script_quotes(&mut self, lines: Vec<u8>) -> i32;

    fn readln(&mut self) -> Option<String>;

    fn prompt(&mut self) -> String;

    fn prompt_fn(&mut self) -> Option<String>;

    fn save_command(&mut self, command: &str);

    fn reset_flow(&mut self);
}

} // verus!
