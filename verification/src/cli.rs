//! Command-line surface: the help text, the names of the configuration
//! override variables, and the decision which action an invocation asks
//! for.

use vstd::prelude::*;
use vstd::string::StringExecFns;

verus! {

/// Default file name of the project-local configuration.
pub const LOCAL_CONFIG_DEFAULT_NAME: &'static str = ".binlink.toml";

/// Default file name of the machine-wide configuration.
pub const BASE_CONFIG_DEFAULT_NAME: &'static str = "binlink.toml";

/// Environment variable overriding the local configuration's file name.
pub const BINLINK_LOCAL_CONFIG_NAME_EVAR: &'static str = "BINLINK_LOCAL_CONFIG_NAME";

/// Environment variable overriding the machine-wide configuration's path.
pub const BINLINK_BASE_CONFIG_PATH_EVAR: &'static str = "BINLINK_BASE_CONFIG_PATH";

/// The extra help text shown after the generated usage.
pub open spec fn help_text() -> Seq<char> {
    "export BINLINK_LOCAL_CONFIG_NAME to override local config name\nexport BINLINK_BASE_CONFIG_PATH to override global config path\n"@
}

/// The help text shown after the generated usage.
pub struct Args {
    pub help: String,
}

impl Args {
    /// Build the help text: how to override the two configuration
    /// locations through the environment.
    pub fn make() -> (r: Args)
        ensures
            r.help@ == help_text(),
    {
        Args {
            help: String::from_str(
                "export BINLINK_LOCAL_CONFIG_NAME to override local config name\nexport BINLINK_BASE_CONFIG_PATH to override global config path\n",
            ),
        }
    }
}

/// What one invocation asks the program to do.
pub enum Action {
    /// Create a shim symlink for every resolved name.
    CreateLinks,
    /// Print the built-in example configuration.
    ShowExample,
    /// Print the usage and the help text.
    ShowHelp,
    /// Become the binary the invoked name resolves to.
    Dispatch,
}

/// Which action an invocation asks for: invoked under the tool's own name,
/// the subcommand decides; under any other name, that name is dispatched.
pub fn choose_action(invoked: &String, subcommand: Option<&String>) -> (r: Action)
    ensures
        invoked@ != "binlink"@ ==> r is Dispatch,
        invoked@ == "binlink"@ ==> match subcommand {
            Some(sc) => (sc@ == "link"@ ==> r is CreateLinks) && (sc@ == "example"@
                ==> r is ShowExample) && (sc@ != "link"@ && sc@ != "example"@ ==> r is ShowHelp),
            None => r is ShowHelp,
        },
{
    proof {
        reveal_strlit("link");
        reveal_strlit("example");
        assert("link"@.len() == 4);
        assert("example"@.len() == 7);
        assert("link"@ != "example"@);
    }
    let own = String::from_str("binlink");
    if *invoked == own {
        match subcommand {
            Some(sc) => {
                if *sc == String::from_str("link") {
                    Action::CreateLinks
                } else if *sc == String::from_str("example") {
                    Action::ShowExample
                } else {
                    Action::ShowHelp
                }
            },
            None => Action::ShowHelp,
        }
    } else {
        Action::Dispatch
    }
}

} // verus!
