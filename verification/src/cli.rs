//! The command line.
use crate::text;
use vstd::prelude::*;
use vstd::string::*;

verus! {

/// Where the configuration is.
#[derive(Debug, Clone, Copy, PartialEq, Eq, Structural)]
pub enum ConfigPath {
    /// At the usual place.
    Default,
    /// At the path in the argument with that index.
    Argument(usize),
}

/// What the command line asks for.
#[derive(Debug, Clone, Copy, PartialEq, Eq, Structural)]
pub enum Command {
    /// To run, or only to check the configuration.
    Run { path: ConfigPath, check: bool },
    /// To print the version.
    Version,
    /// To print how the program is used.
    Help,
}

/// Why a command line is refused. The number is the index of an argument.
#[derive(Debug, Clone, Copy, PartialEq, Eq, Structural)]
pub enum ArgsError {
    NotUtf8(usize),
    /// There is no path behind `--config`.
    MissingPath,
    Unknown(usize),
}

/// The usual place of the configuration.
pub fn default_path() -> (path: &'static str)
    ensures
        path@ == "/etc/macmapd/config.toml"@,
{
    "/etc/macmapd/config.toml"
}

/// The text of an argument, if it is one.
pub open spec fn argument(args: Seq<Option<String>>, i: int) -> Option<Seq<char>> {
    match args[i] {
        Some(arg) => Some(arg@),
        None => None,
    }
}

/// What the arguments from `i` on ask for, where `path` and `check` stand for those
/// before. An argument that is not UTF-8 is `None`; as a path it is accepted.
pub open spec fn command(args: Seq<Option<String>>, i: int, path: ConfigPath, check: bool) -> Result<
    Command,
    ArgsError,
>
    decreases args.len() - i,
{
    if i >= args.len() {
        Ok(Command::Run { path, check })
    } else {
        match argument(args, i) {
            None => Err(ArgsError::NotUtf8(i as usize)),
            Some(arg) => if arg == "check-config"@ {
                command(args, i + 1, path, true)
            } else if arg == "--config"@ {
                if i + 1 >= args.len() {
                    Err(ArgsError::MissingPath)
                } else {
                    command(args, i + 2, ConfigPath::Argument((i + 1) as usize), check)
                }
            } else if arg == "--version"@ || arg == "-V"@ {
                Ok(Command::Version)
            } else if arg == "--help"@ || arg == "-h"@ {
                Ok(Command::Help)
            } else {
                Err(ArgsError::Unknown(i as usize))
            },
        }
    }
}

/// Reads the command line, without the name of the program.
pub fn parse_args(args: &Vec<Option<String>>) -> (parsed: Result<Command, ArgsError>)
    ensures
        parsed == command(args@, 0, ConfigPath::Default, false),
        parsed matches Ok(Command::Run { path: ConfigPath::Argument(i), check: _ }) ==> i
            < args@.len(),
{
    let mut path = ConfigPath::Default;
    let mut check: bool = false;
    let mut i: usize = 0;
    while i < args.len()
        invariant
            i <= args@.len(),
            path matches ConfigPath::Argument(j) ==> j < args@.len(),
            command(args@, i as int, path, check) == command(
                args@,
                0,
                ConfigPath::Default,
                false,
            ),
        decreases args.len() - i,
    {
        let arg: &str = match &args[i] {
            Some(arg) => arg.as_str(),
            None => {
                return Err(ArgsError::NotUtf8(i));
            },
        };
        if text::str_eq(arg, "check-config") {
            check = true;
            i = i + 1;
        } else if text::str_eq(arg, "--config") {
            if i + 1 >= args.len() {
                return Err(ArgsError::MissingPath);
            }
            path = ConfigPath::Argument(i + 1);
            i = i + 2;
        } else if text::str_eq(arg, "--version") || text::str_eq(arg, "-V") {
            return Ok(Command::Version);
        } else if text::str_eq(arg, "--help") || text::str_eq(arg, "-h") {
            return Ok(Command::Help);
        } else {
            return Err(ArgsError::Unknown(i));
        }
    }
    Ok(Command::Run { path, check })
}

/// Whether an argument stands at that place and has that text.
pub open spec fn says(args: Seq<Option<String>>, i: int, word: Seq<char>) -> bool {
    0 <= i < args.len() && args[i] is Some && args[i]->0@ == word
}

proof fn lemma_words()
    ensures
        "check-config"@.len() == 12,
        "--config"@.len() == 8,
        "--version"@.len() == 9,
        "-V"@.len() == 2,
        "--help"@.len() == 6,
        "-h"@.len() == 2,
        "-V"@ != "-h"@,
{
    reveal_strlit("check-config");
    reveal_strlit("--config");
    reveal_strlit("--version");
    reveal_strlit("-V");
    reveal_strlit("--help");
    reveal_strlit("-h");
    assert("-V"@[1] == 'V');
    assert("-h"@[1] == 'h');
}

/// The last path counts, and `check-config` counts wherever it stands.
pub proof fn law_arguments(args: Seq<Option<String>>, i: int, path: ConfigPath, check: bool)
    requires
        0 <= i,
        args.len() <= usize::MAX,
    ensures
        i >= args.len() ==> command(args, i, path, check) == Ok::<Command, ArgsError>(
            Command::Run { path, check },
        ),
        says(args, i, "check-config"@) ==> command(args, i, path, check) == command(
            args,
            i + 1,
            path,
            true,
        ),
        says(args, i, "--config"@) && i + 1 < args.len() ==> forall|j: usize|
            j == i + 1 ==> command(args, i, path, check) == #[trigger] command(
                args,
                i + 2,
                ConfigPath::Argument(j),
                check,
            ),
        says(args, i, "--config"@) && i + 1 == args.len() ==> command(args, i, path, check)
            == Err::<Command, ArgsError>(ArgsError::MissingPath),
{
    lemma_words();
}

/// The version and the help are printed as soon as they are asked for, whatever comes
/// behind, and the first argument that is none of these is refused.
pub proof fn law_other_arguments(args: Seq<Option<String>>, i: int, path: ConfigPath, check: bool)
    requires
        0 <= i < args.len() <= usize::MAX,
    ensures
        ({
            let asked = command(args, i, path, check);
            let known = says(args, i, "check-config"@) || says(args, i, "--config"@) || says(
                args,
                i,
                "--version"@,
            ) || says(args, i, "-V"@) || says(args, i, "--help"@) || says(args, i, "-h"@);
            &&& says(args, i, "--version"@) || says(args, i, "-V"@) ==> asked == Ok::<
                Command,
                ArgsError,
            >(Command::Version)
            &&& says(args, i, "--help"@) || says(args, i, "-h"@) ==> asked == Ok::<
                Command,
                ArgsError,
            >(Command::Help)
            &&& args[i] is None ==> (asked matches Err(ArgsError::NotUtf8(n)) && n == i)
            &&& args[i] is Some && !known ==> (asked matches Err(ArgsError::Unknown(n)) && n
                == i)
        }),
{
    lemma_words();
}

} // verus!
