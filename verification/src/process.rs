//! Running programs and handling temporary files, through tokio's process and
//! file-system APIs driven to completion on a private current-thread runtime.
//!
//! What these calls return depends on the machine (which programs exist, what
//! they print, the file system), so their contracts promise nothing about it;
//! the functions that use them are verified for every outcome. None of them may
//! be called from inside a running tokio runtime, where driving a second
//! runtime panics.
use vstd::prelude::*;

verus! {

#[verifier::external_type_specification]
#[verifier::external_body]
pub struct ExRuntime(tokio::runtime::Runtime);

/// What a finished program reported: whether it exited successfully, and the
/// bytes it wrote to stdout and stderr.
pub struct ProcessOutput {
    pub success: bool,
    pub stdout: Vec<u8>,
    pub stderr: Vec<u8>,
}

/// A current-thread tokio runtime with its I/O and time drivers
/// (`tokio::runtime::Builder::new_current_thread().enable_all().build()`),
/// or the text of the error it reports.
#[verifier::external_body]
pub(crate) fn new_runtime() -> Result<tokio::runtime::Runtime, String> {
    tokio::runtime::Builder::new_current_thread().enable_all().build().map_err(|e| e.to_string())
}

/// A program that was run: the program and the arguments it was given, and
/// what it reported. Only `run_process` makes one, so the program and
/// arguments it holds are those the run was made with.
pub struct ProcessRun {
    tool: String,
    args: Vec<String>,
    result: Result<ProcessOutput, String>,
}

impl ProcessRun {
    /// The program that was run.
    pub closed spec fn program(self) -> Seq<char> {
        self.tool@
    }

    /// The arguments the program was given, in order.
    pub closed spec fn arguments(self) -> Seq<Seq<char>> {
        self.args@.map_values(|a: String| a@)
    }

    /// What the program reported (`Err` when it could not be started).
    pub closed spec fn outcome(self) -> Result<ProcessOutput, String> {
        self.result
    }

    /// What the program reported, borrowed.
    pub fn result(&self) -> (r: &Result<ProcessOutput, String>)
        ensures
            *r == self.outcome(),
    {
        &self.result
    }

    /// What the program reported.
    pub fn into_result(self) -> (r: Result<ProcessOutput, String>)
        ensures
            r == self.outcome(),
    {
        self.result
    }
}

/// Runs `tool` with `args` to completion, capturing its stdout and stderr
/// (`tokio::process::Command::output`, spawned inside the runtime's context);
/// `Err` holds the text of the error when the program could not be started.
/// The run comes back with the program and arguments it was made with.
#[verifier::external_body]
pub(crate) fn run_process(rt: &tokio::runtime::Runtime, tool: &str, args: &Vec<String>) -> (r: ProcessRun)
    ensures
        r.program() == tool@,
        r.arguments() == args@.map_values(|a: String| a@),
{
    let _context = rt.enter();
    let out = rt.block_on(tokio::process::Command::new(tool).args(args).output());
    let result = match out {
        Ok(o) => Ok(ProcessOutput { success: o.status.success(), stdout: o.stdout, stderr: o.stderr }),
        Err(e) => Err(e.to_string()),
    };
    ProcessRun { tool: tool.to_string(), args: args.clone(), result }
}

/// A file that was written: its path, what was written to it, and whether
/// the write succeeded. Only `write_file` makes one, so the path and contents
/// it holds are those the write was made with.
pub struct FileWrite {
    path: String,
    contents: String,
    result: Result<(), String>,
}

impl FileWrite {
    /// The path of the file.
    pub closed spec fn target(self) -> Seq<char> {
        self.path@
    }

    /// What was written to the file.
    pub closed spec fn written(self) -> Seq<char> {
        self.contents@
    }

    /// Whether the write succeeded (`Err` holds the text of the error).
    pub closed spec fn outcome(self) -> Result<(), String> {
        self.result
    }

    /// Whether the write failed.
    pub fn is_err(&self) -> (r: bool)
        ensures
            r == self.outcome() is Err,
    {
        self.result.is_err()
    }

    /// The text of the error, when the write failed.
    pub fn error_text(&self) -> (r: String)
        requires
            self.outcome() is Err,
        ensures
            r@ == self.outcome()->Err_0@,
    {
        match &self.result {
            Err(e) => e.clone(),
            Ok(_) => String::new(),
        }
    }
}

/// Writes `contents` to the file at `path` (`tokio::fs::write`); `Err` holds
/// the text of the error. The write comes back with the path and contents it
/// was made with.
#[verifier::external_body]
pub(crate) fn write_file(rt: &tokio::runtime::Runtime, path: &str, contents: &str) -> (r: FileWrite)
    ensures
        r.target() == path@,
        r.written() == contents@,
{
    let result = rt.block_on(tokio::fs::write(path, contents)).map_err(|e| e.to_string());
    FileWrite { path: path.to_string(), contents: contents.to_string(), result }
}

/// Creates the directory `path` and its parents (`tokio::fs::create_dir_all`).
#[verifier::external_body]
pub(crate) fn create_dir_all(rt: &tokio::runtime::Runtime, path: &str) -> Result<(), String> {
    rt.block_on(tokio::fs::create_dir_all(path)).map_err(|e| e.to_string())
}

/// Removes the file at `path` (`tokio::fs::remove_file`).
#[verifier::external_body]
pub(crate) fn remove_file(rt: &tokio::runtime::Runtime, path: &str) -> Result<(), String> {
    rt.block_on(tokio::fs::remove_file(path)).map_err(|e| e.to_string())
}

/// Removes the directory `path` with everything in it (`tokio::fs::remove_dir_all`).
#[verifier::external_body]
pub(crate) fn remove_dir_all(rt: &tokio::runtime::Runtime, path: &str) -> Result<(), String> {
    rt.block_on(tokio::fs::remove_dir_all(path)).map_err(|e| e.to_string())
}

/// The characters of `bytes` read as UTF-8, each invalid sequence replaced by
/// U+FFFD (`String::from_utf8_lossy`).
pub uninterp spec fn lossy_utf8(bytes: Seq<u8>) -> Seq<char>;

/// `String::from_utf8_lossy(bytes)`: per its documentation, valid UTF-8 is
/// decoded as it is.
#[verifier::external_body]
pub(crate) fn utf8_lossy(bytes: &Vec<u8>) -> (r: String)
    ensures
        r@ == lossy_utf8(bytes@),
        vstd::utf8::valid_utf8(bytes@) ==> r@ == vstd::utf8::decode_utf8(bytes@),
{
    String::from_utf8_lossy(bytes).to_string()
}

} // verus!
