//! The background-task state machine: at most one indexing task system-wide,
//! a cooperative cancellation flag, and the last-completion timestamp used
//! by incremental scans.
//!
//! The state machine decides; spawning, sleeping and aborting are the
//! caller's side effects, driven by the `ScanPlan` this module hands out.

use crate::error::{AppError, AppResult};
use crate::strutil::{spec_trim, str_eq_str, trim_ascii};
use vstd::prelude::*;
use vstd::string::StringExecFns;

verus! {

/// Owns the single background indexing slot.
#[derive(Debug)]
pub struct ThreadManager {
    pub running: bool,
    pub should_cancel: bool,
    pub last_indexed: Option<u64>,
}

/// What the caller must run when a new scan was started: the force flag and
/// the incremental cutoff to pass to the walker.
#[derive(Debug)]
pub struct ScanPlan {
    pub force_write: bool,
    pub last_indexed: Option<u64>,
}

/// The response of the index endpoint.
#[derive(Debug)]
pub struct JsonTaskIndexResponse {
    pub status: String,
    pub task_running: bool,
    pub message: String,
    pub last_indexed: Option<u64>,
}

/// The response of the cancel endpoint.
#[derive(Debug)]
pub struct JsonTaskCancelResponse {
    pub status: String,
    pub message: String,
    pub task_running: bool,
}

/// Whether a force parameter is accepted: empty, `true` or `false` after
/// trimming.
pub open spec fn force_param_valid(raw: Option<Seq<char>>) -> bool {
    let t = spec_trim(match raw {
        Some(s) => s,
        None => "false"@,
    });
    t == ""@ || t == "true"@ || t == "false"@
}

/// The force flag a parameter denotes.
pub open spec fn force_param_value(raw: Option<Seq<char>>) -> bool {
    spec_trim(
        match raw {
            Some(s) => s,
            None => "false"@,
        },
    ) == "true"@
}

impl ThreadManager {
    /// A fresh manager: idle, not cancelled, never completed a scan.
    pub fn new() -> (tm: ThreadManager)
        ensures
            !tm.running,
            !tm.should_cancel,
            tm.last_indexed is None,
    {
        ThreadManager { running: false, should_cancel: false, last_indexed: None }
    }

    /// Signals the running task to stop at its next check.
    pub fn request_cancellation(&mut self)
        ensures
            final(self).should_cancel,
            final(self).running == old(self).running,
            final(self).last_indexed == old(self).last_indexed,
    {
        self.should_cancel = true;
    }

    /// Whether the running task should stop cooperatively.
    pub fn should_stop(&self) -> (r: bool)
        ensures
            r == self.should_cancel,
    {
        self.should_cancel
    }

    /// Handles an index request. Rejects a malformed force parameter.
    /// Single-flight: when a task is already running, nothing changes and no
    /// plan is handed out; otherwise the slot is taken, the cancellation
    /// flag is cleared, and the caller receives the plan to run.
    pub fn index_files(&mut self, force: Option<&str>) -> (r: AppResult<
        (JsonTaskIndexResponse, Option<ScanPlan>),
    >)
        ensures
            match r {
                Ok((resp, plan)) => {
                    &&& force_param_valid(
                        match force {
                            Some(s) => Some(s@),
                            None => None,
                        },
                    )
                    &&& resp.status@ == "success"@
                    &&& resp.task_running == old(self).running
                    &&& resp.last_indexed == old(self).last_indexed
                    &&& final(self).last_indexed == old(self).last_indexed
                    &&& if old(self).running {
                        &&& *final(self) == *old(self)
                        &&& plan is None
                        &&& resp.message@ == "Indexation task is already running"@
                    } else {
                        &&& final(self).running
                        &&& !final(self).should_cancel
                        &&& resp.message@ == "Started new indexation task"@
                        &&& plan matches Some(p) && p.force_write == force_param_value(
                            match force {
                                Some(s) => Some(s@),
                                None => None,
                            },
                        ) && p.last_indexed == (
                        if p.force_write {
                            None
                        } else {
                            old(self).last_indexed
                        })
                    }
                },
                Err(e) => {
                    &&& e matches AppError::ValidationError(m) && m@
                        == "Force parameter must be 'true' or 'false'"@
                    &&& !force_param_valid(
                        match force {
                            Some(s) => Some(s@),
                            None => None,
                        },
                    )
                    &&& *final(self) == *old(self)
                },
            },
    {
        let raw = match force {
            Some(s) => s,
            None => "false",
        };
        let force_param = trim_ascii(raw);
        let fp = force_param.as_str();
        proof {
            reveal_strlit("false");
            reveal_strlit("true");
            reveal_strlit("");
        }
        let is_empty = str_eq_str(fp, "");
        let is_true = str_eq_str(fp, "true");
        let is_false = str_eq_str(fp, "false");
        if !is_empty && !is_true && !is_false {
            proof {
                reveal_strlit("Force parameter must be 'true' or 'false'");
            }
            return Err(AppError::validation("Force parameter must be 'true' or 'false'"));
        }
        let force_write = is_true;

        let task_running = self.running;
        let mut plan: Option<ScanPlan> = None;
        if !task_running {
            self.should_cancel = false;
            self.running = true;
            let last = if force_write {
                None
            } else {
                self.last_indexed
            };
            plan = Some(ScanPlan { force_write, last_indexed: last });
        }
        proof {
            reveal_strlit("success");
            reveal_strlit("Indexation task is already running");
            reveal_strlit("Started new indexation task");
        }
        let message = if task_running {
            String::from_str("Indexation task is already running")
        } else {
            String::from_str("Started new indexation task")
        };
        Ok(
            (
                JsonTaskIndexResponse {
                    status: String::from_str("success"),
                    task_running,
                    message,
                    last_indexed: self.last_indexed,
                },
                plan,
            ),
        )
    }

    /// Handles a cancel request: when a task is running, sets the
    /// cooperative flag and frees the slot (the caller aborts the handle
    /// after its grace delay); afterwards no task is reported running.
    pub fn cancel_task(&mut self) -> (resp: JsonTaskCancelResponse)
        ensures
            !final(self).running,
            final(self).last_indexed == old(self).last_indexed,
            !resp.task_running,
            if old(self).running {
                &&& final(self).should_cancel
                &&& resp.status@ == "success"@
                &&& resp.message@ == "Indexation task has been canceled"@
            } else {
                &&& final(self).should_cancel == old(self).should_cancel
                &&& resp.status@ == "info"@
                &&& resp.message@ == "No indexation task was running"@
            },
    {
        proof {
            reveal_strlit("success");
            reveal_strlit("info");
            reveal_strlit("Indexation task has been canceled");
            reveal_strlit("No indexation task was running");
        }
        if self.running {
            self.should_cancel = true;
            self.running = false;
            JsonTaskCancelResponse {
                status: String::from_str("success"),
                message: String::from_str("Indexation task has been canceled"),
                task_running: false,
            }
        } else {
            JsonTaskCancelResponse {
                status: String::from_str("info"),
                message: String::from_str("No indexation task was running"),
                task_running: false,
            }
        }
    }

    /// Records the natural completion of a scan at the given wall-clock
    /// time and frees the slot.
    pub fn complete_scan(&mut self, now: u64)
        ensures
            !final(self).running,
            final(self).should_cancel == old(self).should_cancel,
            final(self).last_indexed == Some(now),
    {
        self.last_indexed = Some(now);
        self.running = false;
    }

    /// Reports whether a task is running and when one last completed.
    pub fn status(&self) -> (r: (bool, Option<u64>))
        ensures
            r.0 == self.running,
            r.1 == self.last_indexed,
    {
        (self.running, self.last_indexed)
    }
}

impl Default for ThreadManager {
    /// The same state as `new`.
    fn default() -> (tm: ThreadManager)
        ensures
            !tm.running,
            !tm.should_cancel,
            tm.last_indexed is None,
    {
        ThreadManager::new()
    }
}

} // verus!
