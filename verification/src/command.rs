//! The `drop` daemon command: a client announces it is done with a
//! workspace. Parsing the request's argument list and applying it to the
//! daemon state are decided here; carrying the datagram to the daemon is
//! the transport's business.

use crate::state::DaemonState;
use crate::text::{i32_to_string, parse_i32, spec_i32_string, valid_i32_string, i32_string_val};
use crate::DaemonError;
use vstd::prelude::*;
use vstd::string::*;

verus! {

/// A request to deregister a client (by its pid) from a workspace root.
pub struct Drop {
    pub pid: i32,
    pub root: String,
}

impl Drop {
    /// The command word this request travels under.
    pub const KEY: &'static str = "drop";

    /// Parses the argument list of a `drop` request: a decimal pid and a
    /// workspace root. Anything shorter, or a pid that is no in-range
    /// decimal, is the requesting client's own error and is rejected.
    pub fn try_from(args: &Vec<String>) -> (r: Result<Drop, DaemonError>)
        ensures
            r matches Ok(d) ==> args@.len() >= 2 && valid_i32_string(args@[0]@) && d.pid as int
                == i32_string_val(args@[0]@) && d.root@ == args@[1]@,
            r matches Err(e) ==> e is StateError && (args@.len() < 2 || !valid_i32_string(
                args@[0]@,
            )),
    {
        if args.len() < 2 {
            return Err(DaemonError::StateError);
        }
        match parse_i32(args[0].as_str()) {
            Some(pid) => Ok(Drop { pid, root: args[1].clone() }),
            None => Err(DaemonError::StateError),
        }
    }

    /// The datagram a client sends to drop a workspace: the command word,
    /// the pid in decimal, and the root.
    pub fn request(pid: i32, root: String) -> (args: Vec<String>)
        ensures
            args@.map_values(|s: String| s@) == seq![
                "drop"@,
                spec_i32_string(pid as int),
                root@,
            ],
    {
        let mut args: Vec<String> = Vec::new();
        args.push(String::from_str("drop"));
        args.push(i32_to_string(pid));
        args.push(root);
        proof {
            assert(args@.map_values(|s: String| s@) =~= seq![
                "drop"@,
                spec_i32_string(pid as int),
                args@[2]@,
            ]);
        }
        args
    }

    /// Applies the request to the daemon state: one client fewer on the
    /// workspace; `Ok(true)` says the last client left and the caller
    /// owes the project a teardown.
    pub fn handle(&self, state: &mut DaemonState) -> (r: Result<bool, DaemonError>)
        requires
            old(state).wf(),
        ensures
            final(state).wf(),
            r matches Ok(removed) ==> {
                &&& old(state).contains_root(self.root@)
                &&& (removed <==> old(state).count_of(self.root@) == 1)
                &&& (removed ==> !final(state).contains_root(self.root@))
                &&& (!removed ==> final(state).count_of(self.root@) == old(state).count_of(
                    self.root@,
                ) - 1)
            },
            r matches Err(e) ==> e is StateError && !old(state).contains_root(self.root@)
                && *final(state) == *old(state),
    {
        state.drop_client(self.root.as_str())
    }
}

} // verus!
