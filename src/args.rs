use vstd::prelude::*;

verus! {

/// When to color the output.
#[derive(Copy, Clone, PartialEq, Eq, Structural, PartialOrd, Ord, Debug)]
pub enum ColorMode {
    Never,
    Auto,
    Always,
}

/// Whether control characters are written as escapes.
#[derive(Copy, Clone, PartialEq, Eq, Structural, PartialOrd, Ord, Debug)]
pub enum EscapeMode {
    No,
    Yes,
}

/// The order in which records are listed.
#[derive(Copy, Clone, PartialEq, Eq, Structural, PartialOrd, Ord, Debug)]
pub enum KeyOrder {
    Unordered,
    Asc,
    Desc,
}

} // verus!

verus! {

/// `std::path::PathBuf`, the path given to `--load`: carried, never looked into.
#[verifier::external_type_specification]
#[verifier::external_body]
pub struct ExPathBuf(std::path::PathBuf);

/// A debugger whose helper script can be printed.
#[derive(Copy, Clone, PartialEq, Eq, Structural, PartialOrd, Ord, Debug)]
pub enum DebuggerHelper {
    Gdb,
}

/// The options of one run.
#[derive(Debug)]
pub struct Args {
    /// Use NUL as delimiter instead of newline.
    pub null: bool,
    /// Read the environment of this process instead of the own one.
    pub pid: Option<u32>,
    /// Print a script that reads another process's environment through a debugger.
    pub debugger_helper: Option<DebuggerHelper>,
    /// When to color the output.
    pub color: ColorMode,
    /// The order of the records.
    pub key_order: KeyOrder,
    /// Whether to escape control characters; unset means no.
    pub escape: Option<EscapeMode>,
    /// Read the environment from this file (`-` for standard input).
    pub load: Option<std::path::PathBuf>,
    /// Write JSON.
    pub json: bool,
    /// Print only these variables, and only their values.
    pub variables: Vec<String>,
}

/// A combination of options that cannot be used together.
#[derive(Copy, Clone, PartialEq, Eq, Structural, Debug)]
pub enum ArgConflict {
    NullWithRichFormat,
    SortedVariables,
    DebuggerHelperWithOthers,
    PidWithLoad,
    NullWithLoad,
    NullWithJson,
    JsonWithRichFormat,
}

/// The first conflict among the options, checked in a fixed order.
pub open spec fn conflict_of(a: Args) -> Option<ArgConflict> {
    let rich = a.color == ColorMode::Always || a.escape == Some(EscapeMode::Yes);
    if a.null && rich {
        Some(ArgConflict::NullWithRichFormat)
    } else if a.variables@.len() > 0 && a.key_order != KeyOrder::Unordered {
        Some(ArgConflict::SortedVariables)
    } else if a.debugger_helper is Some && (a.null || a.color == ColorMode::Always || a.escape is Some
        || a.variables@.len() > 0 || a.key_order != KeyOrder::Unordered || a.json) {
        Some(ArgConflict::DebuggerHelperWithOthers)
    } else if a.pid is Some && a.load is Some {
        Some(ArgConflict::PidWithLoad)
    } else if a.null && a.load is Some {
        Some(ArgConflict::NullWithLoad)
    } else if a.json && a.null {
        Some(ArgConflict::NullWithJson)
    } else if a.json && rich {
        Some(ArgConflict::JsonWithRichFormat)
    } else {
        None
    }
}

impl ArgConflict {
    /// What is told to the user.
    pub fn message(&self) -> &'static str {
        match self {
            ArgConflict::NullWithRichFormat => "Null mode cannot be used together with other rich-format switches",
            ArgConflict::SortedVariables => "VARIABLES cannot be sorted",
            ArgConflict::DebuggerHelperWithOthers => "--debugger-helper does not work with other arguments",
            ArgConflict::PidWithLoad => "--pid and --load cannot be used together",
            ArgConflict::NullWithLoad => "--null and --load cannot be used together",
            ArgConflict::NullWithJson => "--null and --json cannot be used together",
            ArgConflict::JsonWithRichFormat => "JSON mode cannot be used together with other rich-format switches",
        }
    }
}

impl Args {
    /// The first pair of options that cannot be used together, if any.
    pub fn conflict(&self) -> (r: Option<ArgConflict>)
        ensures
            r == conflict_of(*self),
    {
        let rich = self.color == ColorMode::Always || self.escape == Some(EscapeMode::Yes);
        if self.null && rich {
            Some(ArgConflict::NullWithRichFormat)
        } else if self.variables.len() > 0 && self.key_order != KeyOrder::Unordered {
            Some(ArgConflict::SortedVariables)
        } else if self.debugger_helper.is_some() && (self.null || self.color == ColorMode::Always
            || self.escape.is_some() || self.variables.len() > 0 || self.key_order
            != KeyOrder::Unordered || self.json) {
            Some(ArgConflict::DebuggerHelperWithOthers)
        } else if self.pid.is_some() && self.load.is_some() {
            Some(ArgConflict::PidWithLoad)
        } else if self.null && self.load.is_some() {
            Some(ArgConflict::NullWithLoad)
        } else if self.json && self.null {
            Some(ArgConflict::NullWithJson)
        } else if self.json && rich {
            Some(ArgConflict::JsonWithRichFormat)
        } else {
            None
        }
    }

    /// Whether colors are switched off for the whole run: when asked for,
    /// or when records end in NUL and color is left to be decided.
    pub fn colors_off(&self) -> (r: bool)
        ensures
            r == (self.color == ColorMode::Never || (self.null && self.color == ColorMode::Auto)),
    {
        self.color == ColorMode::Never || (self.null && self.color == ColorMode::Auto)
    }
}

} // verus!
