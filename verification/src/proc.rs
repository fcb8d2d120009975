use vstd::prelude::*;

verus! {

/// Options threaded through evaluation.  `resolve_names_to_executables`
/// selects the symbol resolver's mode; the remaining switches belong to
/// the process collaborator that will run resolved commands.
#[derive(Copy, Clone, Debug, PartialEq, Eq, Structural)]
pub struct ProcessOptions {
    pub exit_on_error: bool,
    pub exit_on_success: bool,
    pub strip_ansi: bool,
    pub resolve_names_to_executables: bool,
}

impl Default for ProcessOptions {
    /// All switches off; symbols resolve as variables.
    fn default() -> (r: ProcessOptions)
        ensures
            r == (ProcessOptions {
                exit_on_error: false,
                exit_on_success: false,
                strip_ansi: false,
                resolve_names_to_executables: false,
            }),
    {
        ProcessOptions {
            exit_on_error: false,
            exit_on_success: false,
            strip_ansi: false,
            resolve_names_to_executables: false,
        }
    }
}

} // verus!
