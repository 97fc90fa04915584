//! The command line of the compact `okf` launcher, which has no options of its
//! own and no `install`: `okf [server|gui|search ...]`, parsed by `clap` against
//! [`compact_command`]. Without a subcommand it starts the API, the web UI and
//! semantic search side by side on their default addresses.
use vstd::prelude::*;
use vstd::string::*;

use crate::cli::{
    command_from, command_result, gui_command, gui_command_spec, lemma_options_valid, run_clap, search_command,
    search_command_spec, server_command, server_command_spec, valid_command, ClapOutcome, ClapOutcomeView,
    CliError, CliErrorKind, CliErrorView, CommandModel, CommandSpec, CommandSpecView, GuiArgs, SearchArgs,
    ServerArgs,
};
use crate::text::views;

verus! {

/// A subcommand of the compact launcher.
#[derive(Debug)]
pub enum Command {
    /// Start the REST API only.
    Server(ServerArgs),
    /// Start the web UI only.
    Gui(GuiArgs),
    /// Start the semantic search API only.
    Search(SearchArgs),
}

/// The compact launcher's command line.
#[derive(Debug)]
pub struct Cli {
    pub command: Option<Command>,
}

impl View for Command {
    type V = CommandModel;

    open spec fn view(&self) -> CommandModel {
        match self {
            Command::Server(a) => CommandModel::Server { data: a.data@, bind: a.bind@ },
            Command::Gui(a) => CommandModel::Gui { api_base_url: a.api_base_url@, bind: a.bind@ },
            Command::Search(a) => CommandModel::Search { data: a.data@, bind: a.bind@ },
        }
    }
}

/// The compact `okf` command: no options of its own; `server`, `gui` and
/// `search`.
pub open spec fn compact_command() -> CommandSpecView {
    CommandSpecView {
        name: "okf"@,
        version: "0.1.0"@,
        about: "Unified OKF launcher"@,
        options: seq![],
        subcommands: seq![server_command(), gui_command(), search_command()],
    }
}

/// The compact launcher's subcommand for what `clap` answered: the error
/// when it gave none; else the subcommand, if any, defaults filling in what
/// has no value. A subcommand the compact launcher does not know (`install`
/// among them) is refused as an invalid subcommand, with its name as the
/// message.
pub open spec fn launcher_result(o: ClapOutcomeView) -> Result<Option<CommandModel>, CliErrorView> {
    match o {
        ClapOutcomeView::Failed { kind, message } => Err(CliErrorView { kind, message }),
        ClapOutcomeView::Matched { values, subcommand } => match subcommand {
            None => Ok(None),
            Some((n, vs)) => match command_result(n, vs, false) {
                Some(c) => Ok(Some(c)),
                None => Err(CliErrorView { kind: CliErrorKind::InvalidSubcommand, message: n }),
            },
        },
    }
}

/// A compact parse result as plain values.
pub open spec fn launcher_result_view(r: Result<Cli, CliError>) -> Result<Option<CommandModel>, CliErrorView> {
    match r {
        Ok(c) => Ok(
            match c.command {
                Some(x) => Some(x@),
                None => None,
            },
        ),
        Err(e) => Err(e@),
    }
}

/// The compact launcher's command line for what `clap` answered (see
/// [`launcher_result`]).
pub fn launcher_from_outcome(o: ClapOutcome) -> (r: Result<Cli, CliError>)
    ensures
        launcher_result_view(r) == launcher_result(o@),
{
    match o {
        ClapOutcome::Failed { kind, message } => Err(CliError { kind, message }),
        ClapOutcome::Matched { values, subcommand } => match subcommand {
            None => Ok(Cli { command: None }),
            Some((n, vs)) => match command_from(n.as_str(), &vs, false) {
                Some(crate::cli::Command::Server(a)) => Ok(Cli { command: Some(Command::Server(a)) }),
                Some(crate::cli::Command::Gui(a)) => Ok(Cli { command: Some(Command::Gui(a)) }),
                Some(crate::cli::Command::Search(a)) => Ok(Cli { command: Some(Command::Search(a)) }),
                _ => Err(CliError { kind: CliErrorKind::InvalidSubcommand, message: n }),
            },
        },
    }
}

/// The command [`compact_command`].
pub fn compact_command_spec() -> (r: CommandSpec)
    ensures
        r@ == compact_command(),
{
    let options = Vec::new();
    let subcommands = vec![server_command_spec(), gui_command_spec(), search_command_spec()];
    let r = CommandSpec { name: "okf", version: "0.1.0", about: "Unified OKF launcher", options, subcommands };
    assert(crate::cli::options_view(r.options@) =~= compact_command().options);
    assert(r.subcommands@.map_values(|s: crate::cli::SubcommandSpec| s@) =~= compact_command().subcommands);
    r
}

/// The compact command is one `clap` accepts.
pub proof fn lemma_compact_command_valid()
    ensures
        valid_command(compact_command()),
{
    lemma_options_valid();
    reveal_strlit("help");
    reveal_strlit("server");
    reveal_strlit("gui");
    reveal_strlit("search");
    let c = compact_command();
    let n = seq!["server"@, "gui"@, "search"@];
    assert forall|i: int| 0 <= i < 3 implies (#[trigger] c.subcommands[i]).name == n[i] by {
        assert(c.subcommands[0] == server_command());
        assert(c.subcommands[1] == gui_command());
        assert(c.subcommands[2] == search_command());
    }
    assert(c.options =~= Seq::<crate::cli::OptionSpecView>::empty());
    assert("server"@[2] != "search"@[2]);
    assert forall|i: int| 0 <= i < 3 implies n[i][0] != "help"@[0] && n[i].len() > 0 by {}
    assert forall|i: int, j: int| 0 <= i < j < 3 implies n[i] != n[j] by {
        if !(i == 0 && j == 2) {
            assert(n[i][0] != n[j][0]);
        } else {
            assert(n[i][2] != n[j][2]);
        }
    }
}

impl Cli {
    /// Parse the compact launcher's command line (`args[0]` is the program
    /// name) with `clap`, against [`compact_command`] (see
    /// [`launcher_result`]).
    pub fn try_parse_from(args: &Vec<String>) -> (r: Result<Cli, CliError>)
        ensures
            launcher_result_view(r) == launcher_result(crate::cli::clap_outcome(compact_command(), views(args@))),
    {
        let spec = compact_command_spec();
        proof {
            lemma_compact_command_valid();
        }
        let o = run_clap(&spec, args);
        launcher_from_outcome(o)
    }
}

/// What the compact launcher starts without a subcommand.
#[derive(Debug)]
pub struct LaunchPlan {
    pub data: String,
    pub server_bind: String,
    pub gui_bind: String,
    /// Where the web UI reaches the API: the API's own address.
    pub api_base_url: String,
    pub search_bind: String,
}

/// The API, the web UI and semantic search on their default addresses, serving
/// `./docs`, with the UI pointed at the API.
pub fn launch_plan() -> (r: LaunchPlan)
    ensures
        r.data@ == "./docs"@,
        r.server_bind@ == "127.0.0.1:8080"@,
        r.gui_bind@ == "127.0.0.1:8081"@,
        r.api_base_url@ == "http://"@ + r.server_bind@,
        r.search_bind@ == "127.0.0.1:8082"@,
{
    let server_bind = "127.0.0.1:8080".to_string();
    let mut api_base_url = "http://".to_string();
    api_base_url.append(server_bind.as_str());
    LaunchPlan {
        data: "./docs".to_string(),
        server_bind,
        gui_bind: "127.0.0.1:8081".to_string(),
        api_base_url,
        search_bind: "127.0.0.1:8082".to_string(),
    }
}

} // verus!
