//! The command line: its commands and options, and the operating mode they
//! select.

use vstd::prelude::*;

verus! {

/// The parsed command line.
#[derive(Debug)]
pub struct Cli {
    pub command: Option<Commands>,
    /// The program file to run.
    pub file: Option<String>,
    /// `--address host:port`.
    pub address: Option<String>,
    /// `--port PORT`.
    pub port: Option<u16>,
    pub test: bool,
    pub run: bool,
    pub serve: bool,
    pub verbose: bool,
    pub trace: bool,
    pub inspect: bool,
    pub inspect_port: u16,
    /// Everything after `--`, forwarded to the script.
    pub script_args: Vec<String>,
}

/// Subcommands.
#[derive(Debug)]
pub enum Commands {
    /// Initialize a project.
    Init { directory: Option<String>, claude: bool, codex: bool, gemini: bool },
    /// Database migrations.
    Migrate { action: MigrateAction },
}

/// Migration subcommands.
#[derive(Debug)]
pub enum MigrateAction {
    Create { name: String },
    Up { steps: Option<usize> },
    Down { steps: usize },
    Status,
    Force { version: String },
}

/// What the process does.
#[derive(Debug)]
pub enum OperationMode {
    Init,
    Migrate,
    /// Run `main` when the file defines it, else serve.
    Auto(String),
    Run(String),
    Serve(String),
    Test(String),
    Inspect(String),
    TestInspect(String),
    Help,
}

/// The mode a command line selects: a subcommand first; then, with a file,
/// tests and the inspector (together or alone), serving when asked or
/// when an address or port is given, running, or the automatic choice;
/// without a file, help.
pub open spec fn mode_of(c: Cli) -> OperationMode {
    match c.command {
        Some(Commands::Init { .. }) => OperationMode::Init,
        Some(Commands::Migrate { .. }) => OperationMode::Migrate,
        None => match c.file {
            Some(f) => if c.test && c.inspect {
                OperationMode::TestInspect(f)
            } else if c.inspect {
                OperationMode::Inspect(f)
            } else if c.test {
                OperationMode::Test(f)
            } else if c.serve || c.port is Some || c.address is Some {
                OperationMode::Serve(f)
            } else if c.run {
                OperationMode::Run(f)
            } else {
                OperationMode::Auto(f)
            },
            None => OperationMode::Help,
        },
    }
}

/// A copy of a string with the same characters.
fn copy_string(s: &String) -> (r: String)
    ensures
        r@ == s@,
{
    crate::text::string_of(crate::text::chars_of(s.as_str()).as_slice())
}

/// The mode with its file replaced by one with the same characters.
pub open spec fn same_mode(a: OperationMode, b: OperationMode) -> bool {
    match (a, b) {
        (OperationMode::Auto(x), OperationMode::Auto(y)) => x@ == y@,
        (OperationMode::Run(x), OperationMode::Run(y)) => x@ == y@,
        (OperationMode::Serve(x), OperationMode::Serve(y)) => x@ == y@,
        (OperationMode::Test(x), OperationMode::Test(y)) => x@ == y@,
        (OperationMode::Inspect(x), OperationMode::Inspect(y)) => x@ == y@,
        (OperationMode::TestInspect(x), OperationMode::TestInspect(y)) => x@ == y@,
        (OperationMode::Init, OperationMode::Init) => true,
        (OperationMode::Migrate, OperationMode::Migrate) => true,
        (OperationMode::Help, OperationMode::Help) => true,
        _ => false,
    }
}

impl Cli {
    /// The operating mode the command line selects.
    pub fn mode(&self) -> (r: OperationMode)
        ensures
            same_mode(r, mode_of(*self)),
    {
        match &self.command {
            Some(Commands::Init { .. }) => OperationMode::Init,
            Some(Commands::Migrate { .. }) => OperationMode::Migrate,
            None => match &self.file {
                Some(file) => {
                    let f = copy_string(file);
                    if self.test && self.inspect {
                        OperationMode::TestInspect(f)
                    } else if self.inspect {
                        OperationMode::Inspect(f)
                    } else if self.test {
                        OperationMode::Test(f)
                    } else if self.serve || self.port.is_some() || self.address.is_some() {
                        OperationMode::Serve(f)
                    } else if self.run {
                        OperationMode::Run(f)
                    } else {
                        OperationMode::Auto(f)
                    }
                },
                None => OperationMode::Help,
            },
        }
    }
}

} // verus!
