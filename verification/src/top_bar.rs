//! The system bar's account of which application is in front.
use crate::platform::{AppInfo, ProcessId};
use vstd::prelude::*;

verus! {

/// The name the system bar shows when no application is in front.
pub const DESKTOP_NAME: &'static str = "Binder";

/// The first position of `processes` that holds `process`.
pub open spec fn first_running_as(processes: Seq<Option<ProcessId>>, process: ProcessId) -> Option<int>
    decreases processes.len(),
{
    if processes.len() == 0 {
        None
    } else {
        match first_running_as(processes.drop_last(), process) {
            Some(i) => Some(i),
            None => if processes.last() == Some(process) {
                Some(processes.len() - 1)
            } else {
                None
            },
        }
    }
}

/// The name shown for the application in front: the first installed
/// application whose process owns the focused window, or the desktop's own
/// name. `processes` gives, for each application, the process the platform
/// runs it as.
pub open spec fn front_name(apps: Seq<AppInfo>, processes: Seq<Option<ProcessId>>, focused: Option<ProcessId>) -> Seq<char> {
    match focused {
        Some(process) => match first_running_as(processes, process) {
            Some(i) => apps[i].name@,
            None => DESKTOP_NAME@,
        },
        None => DESKTOP_NAME@,
    }
}

proof fn lemma_first_running_as(processes: Seq<Option<ProcessId>>, process: ProcessId, n: int)
    requires
        0 <= n < processes.len(),
        processes[n] == Some(process),
        forall|j: int| 0 <= j < n ==> processes[j] != Some(process),
    ensures
        first_running_as(processes, process) == Some(n),
    decreases processes.len(),
{
    if n < processes.len() - 1 {
        lemma_first_running_as(processes.drop_last(), process, n);
    } else {
        lemma_not_running_as(processes.drop_last(), process);
    }
}

proof fn lemma_not_running_as(processes: Seq<Option<ProcessId>>, process: ProcessId)
    requires
        forall|j: int| 0 <= j < processes.len() ==> processes[j] != Some(process),
    ensures
        first_running_as(processes, process) is None,
    decreases processes.len(),
{
    if processes.len() > 0 {
        lemma_not_running_as(processes.drop_last(), process);
    }
}

/// The name of the application in front, for the system bar.
pub fn active_application_name(apps: &[AppInfo], processes: &[Option<ProcessId>], focused: Option<ProcessId>) -> (name: String)
    requires
        processes@.len() == apps@.len(),
    ensures
        name@ == front_name(apps@, processes@, focused),
{
    let process = match focused {
        Some(process) => process,
        None => return DESKTOP_NAME.to_owned(),
    };
    let mut i: usize = 0;
    while i < processes.len()
        invariant
            i <= processes@.len() == apps@.len(),
            focused == Some(process),
            forall|j: int| 0 <= j < i ==> processes@[j] != Some(process),
        decreases processes@.len() - i,
    {
        if processes[i] == Some(process) {
            proof {
                lemma_first_running_as(processes@, process, i as int);
            }
            return apps[i].name.clone();
        }
        i = i + 1;
    }
    proof {
        lemma_not_running_as(processes@, process);
    }
    DESKTOP_NAME.to_owned()
}

} // verus!
