//! What to do and where: the operation named on the command line, the
//! backing file and the anchor directory.

use vstd::prelude::*;

use crate::opts::Opts;

verus! {

/// Why a command line could not be turned into a configuration.
#[derive(Debug, Clone, Copy, PartialEq, Eq, Structural)]
pub enum ConfigError {
    /// `add` got this many arguments instead of two.
    AddArity(usize),
    /// `rm` got this many arguments instead of one.
    RemoveArity(usize),
    /// A print got this many arguments instead of none or one.
    PrintArity(usize),
    /// No backing file was given and no home directory is known.
    NoHome,
    /// No anchor was given and the current directory is unknown.
    NoCurrentDir,
}

/// An operation on the store.
#[derive(Debug, PartialEq, Clone)]
pub enum Operation {
    /// Print the value of one key, or every visible binding.
    Print(Option<String>),
    /// Bind a key to a value at the anchor.
    Add(String, String),
    /// Unbind a key at the anchor.
    Remove(String),
}

/// The operation that a command line's words name, or why they name none.
pub open spec fn operation_of(a: Seq<String>) -> Result<Operation, ConfigError> {
    if a.len() == 0 {
        Ok(Operation::Print(None))
    } else if a[0]@ == "add"@ {
        if a.len() == 3 {
            Ok(Operation::Add(a[1], a[2]))
        } else {
            Err(ConfigError::AddArity((a.len() - 1) as usize))
        }
    } else if a[0]@ == "rm"@ {
        if a.len() == 2 {
            Ok(Operation::Remove(a[1]))
        } else {
            Err(ConfigError::RemoveArity((a.len() - 1) as usize))
        }
    } else if a.len() > 1 {
        Err(ConfigError::PrintArity((a.len() - 1) as usize))
    } else {
        Ok(Operation::Print(Some(a[0])))
    }
}

impl Operation {
    /// Reads an operation from the command line's words: none prints every
    /// binding, `add K V` binds, `rm K` unbinds, and a single other word `K`
    /// prints the value of `K`.
    pub fn from_args(value: Vec<String>) -> (r: Result<Operation, ConfigError>)
        ensures
            r == operation_of(value@),
    {
        let mut value = value;
        if value.len() == 0 {
            return Ok(Operation::Print(None));
        }
        let add = "add".to_owned();
        let rm = "rm".to_owned();
        if value[0] == add {
            if value.len() != 3 {
                return Err(ConfigError::AddArity(value.len() - 1));
            }
            let v = value.remove(2);
            let k = value.remove(1);
            return Ok(Operation::Add(k, v));
        }
        if value[0] == rm {
            if value.len() != 2 {
                return Err(ConfigError::RemoveArity(value.len() - 1));
            }
            let k = value.remove(1);
            return Ok(Operation::Remove(k));
        }
        if value.len() > 1 {
            return Err(ConfigError::PrintArity(value.len() - 1));
        }
        let k = value.remove(0);
        Ok(Operation::Print(Some(k)))
    }
}

/// What `std::path::PathBuf::push` makes of `base` and `part`.
pub uninterp spec fn pushed(base: Seq<char>, part: Seq<char>) -> Seq<char>;

/// Relies on `std::path::PathBuf::push`: `part` added to `base` as a further
/// path component.
#[verifier::external_body]
fn push_path(base: String, part: &str) -> (r: String)
    ensures
        r@ == pushed(base@, part@),
{
    let mut p = std::path::PathBuf::from(base);
    p.push(part);
    p.to_string_lossy().into_owned()
}

/// The backing file where none is given: `projector/projector.json` under
/// the home directory.
pub open spec fn default_config(home: Seq<char>) -> Seq<char> {
    pushed(pushed(home, "projector"@), "projector.json"@)
}

/// The backing file: the one given, else the default under `home`.
pub fn get_config(config: Option<String>, home: Option<String>) -> (r: Result<String, ConfigError>)
    ensures
        match config {
            Some(c) => r == Ok::<String, ConfigError>(c),
            None => match home {
                Some(h) => r is Ok && r->Ok_0@ == default_config(h@),
                None => r == Err::<String, ConfigError>(ConfigError::NoHome),
            },
        },
{
    if let Some(v) = config {
        return Ok(v);
    }
    match home {
        Some(h) => {
            let location = push_path(h, "projector");
            let location = push_path(location, "projector.json");
            Ok(location)
        },
        None => Err(ConfigError::NoHome),
    }
}

/// The anchor directory: the one given, else the current directory.
pub fn get_pwd(pwd: Option<String>, cwd: Option<String>) -> (r: Result<String, ConfigError>)
    ensures
        match pwd {
            Some(p) => r == Ok::<String, ConfigError>(p),
            None => match cwd {
                Some(c) => r == Ok::<String, ConfigError>(c),
                None => r == Err::<String, ConfigError>(ConfigError::NoCurrentDir),
            },
        },
{
    if let Some(v) = pwd {
        return Ok(v);
    }
    match cwd {
        Some(c) => Ok(c),
        None => Err(ConfigError::NoCurrentDir),
    }
}

/// An operation with the backing file and the anchor directory it works on.
#[derive(Debug, Clone)]
pub struct Config {
    pub operation: Operation,
    pub pwd: String,
    pub config: String,
}

impl Config {
    /// Reads a configuration from the command line, with the home and current
    /// directories of the process for what it leaves out. The operation is
    /// checked first, then the backing file, then the anchor.
    pub fn from_opts(value: Opts, home: Option<String>, cwd: Option<String>) -> (r: Result<
        Config,
        ConfigError,
    >)
        ensures
            operation_of(value.args@) is Err ==> r == Err::<Config, ConfigError>(
                operation_of(value.args@)->Err_0,
            ),
            operation_of(value.args@) is Ok && value.config is None && home is None ==> r == Err::<
                Config,
                ConfigError,
            >(ConfigError::NoHome),
            operation_of(value.args@) is Ok && (value.config is Some || home is Some)
                && value.pwd is None && cwd is None ==> r == Err::<Config, ConfigError>(
                ConfigError::NoCurrentDir,
            ),
            r is Ok ==> {
                &&& Ok::<Operation, ConfigError>(r->Ok_0.operation) == operation_of(value.args@)
                &&& r->Ok_0.config@ == (match value.config {
                    Some(c) => c@,
                    None => default_config(home->0@),
                })
                &&& r->Ok_0.pwd == (match value.pwd {
                    Some(p) => p,
                    None => cwd->0,
                })
            },
            operation_of(value.args@) is Ok && (value.config is Some || home is Some) && (
            value.pwd is Some || cwd is Some) ==> r is Ok,
    {
        let operation = match Operation::from_args(value.args) {
            Ok(o) => o,
            Err(e) => return Err(e),
        };
        let config = match get_config(value.config, home) {
            Ok(c) => c,
            Err(e) => return Err(e),
        };
        let pwd = match get_pwd(value.pwd, cwd) {
            Ok(p) => p,
            Err(e) => return Err(e),
        };
        Ok(Config { operation, pwd, config })
    }
}

} // verus!
