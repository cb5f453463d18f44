//! The computations of the instrumented demo tasks.

use vstd::prelude::*;

verus! {

/// The sum of `x` and `y`; a sum beyond `u32` is refused, as the addition
/// overflows.
pub fn add_numbers(x: u32, y: u32) -> (r: u32)
    requires
        x + y <= u32::MAX,
    ensures
        r == x + y,
{
    x + y
}

/// Whether the task named `task_name` may go on: the task named `fail` is
/// refused with `"Invalid input"`, any other may.
pub fn process_task(task_name: &str) -> (r: Result<(), &'static str>)
    ensures
        task_name@ == "fail"@ ==> (r matches Err(e) && e@ == "Invalid input"@),
        task_name@ != "fail"@ ==> r is Ok,
{
    if task_name.to_owned() == "fail".to_owned() {
        Err("Invalid input")
    } else {
        Ok(())
    }
}

} // verus!
