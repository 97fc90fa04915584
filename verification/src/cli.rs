//! The `okf` launcher's command line: `okf [--data DIR] [--bind ADDR]
//! [server|gui|search|install ...]`. The command is described as plain values
//! ([`CommandSpec`]); `clap` parses the arguments against that description, and
//! what it answers ([`ClapOutcome`]) is turned into the launcher's [`Cli`] here.
use vstd::prelude::*;
use vstd::string::*;

use clap::error::ErrorKind;
use clap::ArgMatches;
use clap::Command as ClapCommand;

use crate::front_matter::opt_view;
use crate::text::{chars_of, eq_str, string_of_range, views};

verus! {

/// A long option `--long <VALUE_NAME>` of a command, kept under `id`, with a
/// line of help and a default value.
pub struct OptionSpec {
    pub id: &'static str,
    pub long: &'static str,
    pub value_name: &'static str,
    pub help: &'static str,
    pub default: &'static str,
}

/// An [`OptionSpec`] as plain values.
pub struct OptionSpecView {
    pub id: Seq<char>,
    pub long: Seq<char>,
    pub value_name: Seq<char>,
    pub help: Seq<char>,
    pub default: Seq<char>,
}

impl View for OptionSpec {
    type V = OptionSpecView;

    open spec fn view(&self) -> OptionSpecView {
        OptionSpecView {
            id: self.id@,
            long: self.long@,
            value_name: self.value_name@,
            help: self.help@,
            default: self.default@,
        }
    }
}

/// The options of a list, as plain values.
pub open spec fn options_view(os: Seq<OptionSpec>) -> Seq<OptionSpecView> {
    os.map_values(|o: OptionSpec| o@)
}

/// A subcommand: its name, a line about it, and its options.
pub struct SubcommandSpec {
    pub name: &'static str,
    pub about: &'static str,
    pub options: Vec<OptionSpec>,
}

/// A [`SubcommandSpec`] as plain values.
pub struct SubcommandSpecView {
    pub name: Seq<char>,
    pub about: Seq<char>,
    pub options: Seq<OptionSpecView>,
}

impl View for SubcommandSpec {
    type V = SubcommandSpecView;

    open spec fn view(&self) -> SubcommandSpecView {
        SubcommandSpecView { name: self.name@, about: self.about@, options: options_view(self.options@) }
    }
}

/// A command: its name, version, a line about it, its options and its
/// subcommands.
pub struct CommandSpec {
    pub name: &'static str,
    pub version: &'static str,
    pub about: &'static str,
    pub options: Vec<OptionSpec>,
    pub subcommands: Vec<SubcommandSpec>,
}

/// A [`CommandSpec`] as plain values.
pub struct CommandSpecView {
    pub name: Seq<char>,
    pub version: Seq<char>,
    pub about: Seq<char>,
    pub options: Seq<OptionSpecView>,
    pub subcommands: Seq<SubcommandSpecView>,
}

impl View for CommandSpec {
    type V = CommandSpecView;

    open spec fn view(&self) -> CommandSpecView {
        CommandSpecView {
            name: self.name@,
            version: self.version@,
            about: self.about@,
            options: options_view(self.options@),
            subcommands: self.subcommands@.map_values(|s: SubcommandSpec| s@),
        }
    }
}

/// The names `clap` keeps for its own help and version flags.
pub open spec fn reserved_name(s: Seq<char>) -> bool {
    s == "help"@ || s == "version"@
}

/// An option `clap` accepts: id and long name not empty and not reserved,
/// the long name not starting with `-`.
pub open spec fn option_ok(o: OptionSpecView) -> bool {
    &&& o.id.len() > 0
    &&& o.long.len() > 0
    &&& o.long[0] != '-'
    &&& !reserved_name(o.id)
    &&& !reserved_name(o.long)
}

/// Options `clap` accepts side by side: each one it accepts, and ids and long
/// names each used once.
pub open spec fn valid_options(os: Seq<OptionSpecView>) -> bool {
    &&& forall|i: int| 0 <= i < os.len() ==> option_ok(#[trigger] os[i])
    &&& forall|i: int, j: int| 0 <= i < j < os.len() ==> (#[trigger] os[i]).id != (#[trigger] os[j]).id && os[i].long != os[j].long
}

/// A command `clap` accepts: valid options on the command and on each
/// subcommand, and subcommand names that are not empty, not `help` (the
/// subcommand `clap` adds) and each used once.
pub open spec fn valid_command(c: CommandSpecView) -> bool {
    &&& valid_options(c.options)
    &&& forall|i: int|
        0 <= i < c.subcommands.len() ==> {
            &&& (#[trigger] c.subcommands[i]).name.len() > 0
            &&& c.subcommands[i].name != "help"@
            &&& valid_options(c.subcommands[i].options)
        }
    &&& forall|i: int, j: int|
        0 <= i < j < c.subcommands.len() ==> (#[trigger] c.subcommands[i]).name != (#[trigger] c.subcommands[j]).name
}

/// The kind of a parse that gave no command line: `clap`'s `ErrorKind` for
/// the kinds a command of long options with defaults can give, `Other` for
/// the rest (those of required arguments, value counts, `=` rules, I/O and
/// formatting, and any `clap` adds later).
#[derive(Clone, Copy, Debug, PartialEq, Eq, Structural)]
pub enum CliErrorKind {
    InvalidValue,
    UnknownArgument,
    InvalidSubcommand,
    ValueValidation,
    TooManyValues,
    ArgumentConflict,
    MissingRequiredArgument,
    DisplayHelp,
    DisplayHelpOnMissingArgumentOrSubcommand,
    DisplayVersion,
    Other,
}

/// The value an option got, by its id (`None` when it has none).
pub struct MatchedValue {
    pub id: String,
    pub value: Option<String>,
}

/// What `clap` answered: the option values of the command and, if one was
/// given, the subcommand's name and option values; or why the arguments gave
/// no command line (help and version requests among them) and the text `clap`
/// prints for it.
pub enum ClapOutcome {
    Matched { values: Vec<MatchedValue>, subcommand: Option<(String, Vec<MatchedValue>)> },
    Failed { kind: CliErrorKind, message: String },
}

/// A [`ClapOutcome`] as plain values.
pub enum ClapOutcomeView {
    Matched {
        values: Seq<(Seq<char>, Option<Seq<char>>)>,
        subcommand: Option<(Seq<char>, Seq<(Seq<char>, Option<Seq<char>>)>)>,
    },
    Failed { kind: CliErrorKind, message: Seq<char> },
}

/// Option values as plain `(id, value)` pairs.
pub open spec fn matched_view(v: Seq<MatchedValue>) -> Seq<(Seq<char>, Option<Seq<char>>)> {
    v.map_values(|m: MatchedValue| (m.id@, opt_view(m.value)))
}

impl View for ClapOutcome {
    type V = ClapOutcomeView;

    open spec fn view(&self) -> ClapOutcomeView {
        match self {
            ClapOutcome::Matched { values, subcommand } => ClapOutcomeView::Matched {
                values: matched_view(values@),
                subcommand: match subcommand {
                    Some(s) => Some((s.0@, matched_view(s.1@))),
                    None => None,
                },
            },
            ClapOutcome::Failed { kind, message } => ClapOutcomeView::Failed { kind: *kind, message: message@ },
        }
    }
}

/// What `clap` answers when the command `command` describes is given the
/// arguments `args` (`args[0]` the program name).
pub uninterp spec fn clap_outcome(command: CommandSpecView, args: Seq<Seq<char>>) -> ClapOutcomeView;

#[verifier::external_type_specification]
#[verifier::external_body]
pub struct ExClapCommand(ClapCommand);

#[verifier::external_type_specification]
#[verifier::external_body]
pub struct ExClapArgMatches(ArgMatches);

#[verifier::external_type_specification]
#[verifier::external_body]
pub struct ExClapErrorKind(ErrorKind);

/// The `clap::Command` that `spec` describes, option by option and subcommand
/// by subcommand.
#[verifier::external_body]
fn to_clap(spec: &CommandSpec) -> ClapCommand {
    let arg = |o: &OptionSpec| clap::Arg::new(o.id).long(o.long).value_name(o.value_name).help(o.help).default_value(o.default);
    let sub = |s: &SubcommandSpec| ClapCommand::new(s.name).about(s.about).args(s.options.iter().map(arg));
    ClapCommand::new(spec.name).version(spec.version).about(spec.about).args(spec.options.iter().map(arg)).subcommands(
        spec.subcommands.iter().map(sub),
    )
}

/// The option values in `m`, id by id.
#[verifier::external_body]
fn values_of(m: &ArgMatches) -> Vec<MatchedValue> {
    m.ids().map(|id| MatchedValue { id: id.as_str().to_string(), value: m.try_get_one::<String>(id.as_str()).ok().flatten().cloned() }).collect()
}

/// The library's name for `clap`'s error kind `k`.
#[verifier::external_body]
fn kind_of(k: ErrorKind) -> CliErrorKind {
    match k {
        ErrorKind::InvalidValue => CliErrorKind::InvalidValue,
        ErrorKind::UnknownArgument => CliErrorKind::UnknownArgument,
        ErrorKind::InvalidSubcommand => CliErrorKind::InvalidSubcommand,
        ErrorKind::ValueValidation => CliErrorKind::ValueValidation,
        ErrorKind::TooManyValues => CliErrorKind::TooManyValues,
        ErrorKind::ArgumentConflict => CliErrorKind::ArgumentConflict,
        ErrorKind::MissingRequiredArgument => CliErrorKind::MissingRequiredArgument,
        ErrorKind::DisplayHelp => CliErrorKind::DisplayHelp,
        ErrorKind::DisplayHelpOnMissingArgumentOrSubcommand => CliErrorKind::DisplayHelpOnMissingArgumentOrSubcommand,
        ErrorKind::DisplayVersion => CliErrorKind::DisplayVersion,
        _ => CliErrorKind::Other,
    }
}

/// `clap::Command::try_get_matches_from`, on the command `spec` describes and
/// the arguments `args`: what comes back is named by [`clap_outcome`], a
/// function of the description and the arguments alone (the error and help
/// texts are taken without styling, and this build of `clap` reads neither the
/// environment nor the terminal's width). Which arguments `clap` accepts, and
/// what it then reports, is not stated. `clap` panics on a description that
/// breaks its rules ([`valid_command`] leaves those out).
#[verifier::external_body]
pub(crate) fn run_clap(spec: &CommandSpec, args: &Vec<String>) -> (r: ClapOutcome)
    requires
        valid_command(spec@),
    ensures
        r@ == clap_outcome(spec@, views(args@)),
{
    match to_clap(spec).try_get_matches_from(args.iter()) {
        Ok(m) => ClapOutcome::Matched { values: values_of(&m), subcommand: m.subcommand().map(|(n, s)| (n.to_string(), values_of(s))) },
        Err(e) => ClapOutcome::Failed { kind: kind_of(e.kind()), message: e.render().to_string() },
    }
}

/// Why the arguments gave no command line: the kind, and the text `clap`
/// prints for it (the help or version text for those requests).
#[derive(Debug)]
pub struct CliError {
    pub kind: CliErrorKind,
    pub message: String,
}

/// A [`CliError`] as plain values.
pub struct CliErrorView {
    pub kind: CliErrorKind,
    pub message: Seq<char>,
}

impl View for CliError {
    type V = CliErrorView;

    open spec fn view(&self) -> CliErrorView {
        CliErrorView { kind: self.kind, message: self.message@ }
    }
}

impl CliError {
    /// Whether the arguments asked for help or the version rather than being
    /// wrong (such a message goes to standard output, and the program ends
    /// successfully).
    pub fn is_request(&self) -> (r: bool)
        ensures
            r == (self.kind == CliErrorKind::DisplayHelp || self.kind == CliErrorKind::DisplayVersion),
    {
        match self.kind {
            CliErrorKind::DisplayHelp | CliErrorKind::DisplayVersion => true,
            _ => false,
        }
    }
}

/// `./docs`, the default bundle directory.
pub open spec fn default_data() -> Seq<char> {
    "./docs"@
}

/// `127.0.0.1:8080`, the default address of the API (and of everything
/// together).
pub open spec fn default_bind() -> Seq<char> {
    "127.0.0.1:8080"@
}

/// `http://127.0.0.1:8080`, the default API base URL of the web UI.
pub open spec fn default_api_base_url() -> Seq<char> {
    "http://127.0.0.1:8080"@
}

/// `127.0.0.1:8081`, the default address of the web UI.
pub open spec fn default_gui_bind() -> Seq<char> {
    "127.0.0.1:8081"@
}

/// `127.0.0.1:8082`, the default address of semantic search.
pub open spec fn default_search_bind() -> Seq<char> {
    "127.0.0.1:8082"@
}

/// `.agents/skills`, the default directory skills are installed into.
pub open spec fn default_skills_dir() -> Seq<char> {
    ".agents/skills"@
}

/// The value given, or the default.
pub open spec fn or_default(o: Option<Seq<char>>, d: Seq<char>) -> Seq<char> {
    match o {
        Some(v) => v,
        None => d,
    }
}

/// The value of the first entry of `vs` with id `id` (`None` when there is no
/// such entry, or it has no value).
pub open spec fn lookup(vs: Seq<(Seq<char>, Option<Seq<char>>)>, id: Seq<char>) -> Option<Seq<char>>
    decreases vs.len(),
{
    if vs.len() == 0 {
        None
    } else if vs[0].0 == id {
        vs[0].1
    } else {
        lookup(vs.drop_first(), id)
    }
}

/// `--data` and `--bind` of `server`.
#[derive(Debug)]
pub struct ServerArgs {
    /// Directory containing the bundle.
    pub data: String,
    /// Address to listen on.
    pub bind: String,
}

/// `--api-base-url` and `--bind` of `gui`.
#[derive(Debug)]
pub struct GuiArgs {
    /// Base URL of the REST API.
    pub api_base_url: String,
    /// Address to listen on.
    pub bind: String,
}

/// `--data` and `--bind` of `search`.
#[derive(Debug)]
pub struct SearchArgs {
    /// Directory containing the bundle.
    pub data: String,
    /// Address to listen on.
    pub bind: String,
}

/// `--dir` of `install`.
#[derive(Debug)]
pub struct InstallArgs {
    /// Directory to install skills into.
    pub dir: String,
}

/// A subcommand of the launcher.
#[derive(Debug)]
pub enum Command {
    /// Start the REST API only.
    Server(ServerArgs),
    /// Start the web UI only.
    Gui(GuiArgs),
    /// Start the semantic search API only.
    Search(SearchArgs),
    /// Install the bundled agent skills.
    Install(InstallArgs),
}

/// The launcher's command line.
#[derive(Debug)]
pub struct Cli {
    /// Directory containing the bundle.
    pub data: String,
    /// Address to listen on.
    pub bind: String,
    pub command: Option<Command>,
}

/// A subcommand as plain values.
pub enum CommandModel {
    Server { data: Seq<char>, bind: Seq<char> },
    Gui { api_base_url: Seq<char>, bind: Seq<char> },
    Search { data: Seq<char>, bind: Seq<char> },
    Install { dir: Seq<char> },
}

/// A command line as plain values.
pub struct CliModel {
    pub data: Seq<char>,
    pub bind: Seq<char>,
    pub command: Option<CommandModel>,
}

impl View for Command {
    type V = CommandModel;

    open spec fn view(&self) -> CommandModel {
        match self {
            Command::Server(a) => CommandModel::Server { data: a.data@, bind: a.bind@ },
            Command::Gui(a) => CommandModel::Gui { api_base_url: a.api_base_url@, bind: a.bind@ },
            Command::Search(a) => CommandModel::Search { data: a.data@, bind: a.bind@ },
            Command::Install(a) => CommandModel::Install { dir: a.dir@ },
        }
    }
}

impl View for Cli {
    type V = CliModel;

    open spec fn view(&self) -> CliModel {
        CliModel {
            data: self.data@,
            bind: self.bind@,
            command: match self.command {
                Some(c) => Some(c@),
                None => None,
            },
        }
    }
}

/// The subcommand `name` with the option values `vs`, defaults filling in
/// what has no value: `server`, `gui`, `search`, and, when `full`, `install`
/// (`None` for any other name).
pub open spec fn command_result(name: Seq<char>, vs: Seq<(Seq<char>, Option<Seq<char>>)>, full: bool) -> Option<
    CommandModel,
> {
    if name == "server"@ {
        Some(CommandModel::Server { data: or_default(lookup(vs, "data"@), default_data()), bind: or_default(lookup(vs, "bind"@), default_bind()) })
    } else if name == "gui"@ {
        Some(
            CommandModel::Gui {
                api_base_url: or_default(lookup(vs, "api_base_url"@), default_api_base_url()),
                bind: or_default(lookup(vs, "bind"@), default_gui_bind()),
            },
        )
    } else if name == "search"@ {
        Some(
            CommandModel::Search {
                data: or_default(lookup(vs, "data"@), default_data()),
                bind: or_default(lookup(vs, "bind"@), default_search_bind()),
            },
        )
    } else if full && name == "install"@ {
        Some(CommandModel::Install { dir: or_default(lookup(vs, "dir"@), default_skills_dir()) })
    } else {
        None
    }
}

/// The launcher's command line for what `clap` answered: the error when it
/// gave none; else `--data` and `--bind` and the subcommand, defaults filling
/// in what has no value. A subcommand the launcher does not know is refused
/// as an invalid subcommand, with its name as the message.
pub open spec fn cli_result(o: ClapOutcomeView) -> Result<CliModel, CliErrorView> {
    match o {
        ClapOutcomeView::Failed { kind, message } => Err(CliErrorView { kind, message }),
        ClapOutcomeView::Matched { values, subcommand } => {
            let data = or_default(lookup(values, "data"@), default_data());
            let bind = or_default(lookup(values, "bind"@), default_bind());
            match subcommand {
                None => Ok(CliModel { data, bind, command: None }),
                Some((n, vs)) => match command_result(n, vs, true) {
                    Some(c) => Ok(CliModel { data, bind, command: Some(c) }),
                    None => Err(CliErrorView { kind: CliErrorKind::InvalidSubcommand, message: n }),
                },
            }
        },
    }
}

/// A parse result as plain values.
pub open spec fn cli_result_view(r: Result<Cli, CliError>) -> Result<CliModel, CliErrorView> {
    match r {
        Ok(c) => Ok(c@),
        Err(e) => Err(e@),
    }
}

/// The value of the first entry of `vs` with id `id` (see [`lookup`]).
pub fn lookup_value(vs: &Vec<MatchedValue>, id: &str) -> (r: Option<String>)
    ensures
        opt_view(r) == lookup(matched_view(vs@), id@),
{
    let ghost all = matched_view(vs@);
    assert(all.subrange(0, all.len() as int) =~= all);
    let mut i: usize = 0;
    while i < vs.len()
        invariant
            i <= vs@.len(),
            all == matched_view(vs@),
            lookup(all, id@) == lookup(all.subrange(i as int, all.len() as int), id@),
        decreases vs.len() - i,
    {
        let ghost rest = all.subrange(i as int, all.len() as int);
        assert(rest[0] == all[i as int]);
        if eq_str(vs[i].id.as_str(), id) {
            return match &vs[i].value {
                Some(v) => Some(v.clone()),
                None => None,
            };
        }
        assert(rest.drop_first() =~= all.subrange(i + 1, all.len() as int));
        i = i + 1;
    }
    assert(all.subrange(i as int, all.len() as int) =~= Seq::<(Seq<char>, Option<Seq<char>>)>::empty());
    None
}

/// The value given, or the default `d`.
fn value_or(o: Option<String>, d: &str) -> (r: String)
    ensures
        r@ == or_default(opt_view(o), d@),
{
    match o {
        Some(v) => v,
        None => d.to_string(),
    }
}

/// The subcommand `name` with the option values `vs` (see [`command_result`]).
pub fn command_from(name: &str, vs: &Vec<MatchedValue>, full: bool) -> (r: Option<Command>)
    ensures
        match r {
            Some(c) => command_result(name@, matched_view(vs@), full) == Some(c@),
            None => command_result(name@, matched_view(vs@), full) is None,
        },
{
    if eq_str(name, "server") {
        Some(
            Command::Server(
                ServerArgs { data: value_or(lookup_value(vs, "data"), "./docs"), bind: value_or(lookup_value(vs, "bind"), "127.0.0.1:8080") },
            ),
        )
    } else if eq_str(name, "gui") {
        Some(
            Command::Gui(
                GuiArgs {
                    api_base_url: value_or(lookup_value(vs, "api_base_url"), "http://127.0.0.1:8080"),
                    bind: value_or(lookup_value(vs, "bind"), "127.0.0.1:8081"),
                },
            ),
        )
    } else if eq_str(name, "search") {
        Some(
            Command::Search(
                SearchArgs { data: value_or(lookup_value(vs, "data"), "./docs"), bind: value_or(lookup_value(vs, "bind"), "127.0.0.1:8082") },
            ),
        )
    } else if full && eq_str(name, "install") {
        Some(Command::Install(InstallArgs { dir: value_or(lookup_value(vs, "dir"), ".agents/skills") }))
    } else {
        None
    }
}

/// The launcher's command line for what `clap` answered (see [`cli_result`]).
pub fn cli_from_outcome(o: ClapOutcome) -> (r: Result<Cli, CliError>)
    ensures
        cli_result_view(r) == cli_result(o@),
{
    match o {
        ClapOutcome::Failed { kind, message } => Err(CliError { kind, message }),
        ClapOutcome::Matched { values, subcommand } => {
            let data = value_or(lookup_value(&values, "data"), "./docs");
            let bind = value_or(lookup_value(&values, "bind"), "127.0.0.1:8080");
            match subcommand {
                None => Ok(Cli { data, bind, command: None }),
                Some((n, vs)) => match command_from(n.as_str(), &vs, true) {
                    Some(c) => Ok(Cli { data, bind, command: Some(c) }),
                    None => Err(CliError { kind: CliErrorKind::InvalidSubcommand, message: n }),
                },
            }
        },
    }
}

/// `--data <DATA>`: the bundle directory, `./docs` by default.
pub open spec fn data_option() -> OptionSpecView {
    OptionSpecView {
        id: "data"@,
        long: "data"@,
        value_name: "DATA"@,
        help: "Directory containing the OKF bundle"@,
        default: "./docs"@,
    }
}

/// `--bind <BIND>`: the address to listen on, `default` by default.
pub open spec fn bind_option(default: Seq<char>) -> OptionSpecView {
    OptionSpecView { id: "bind"@, long: "bind"@, value_name: "BIND"@, help: "Address to listen on"@, default }
}

/// `--api-base-url <API_BASE_URL>`: where the web UI reaches the API.
pub open spec fn api_base_url_option() -> OptionSpecView {
    OptionSpecView {
        id: "api_base_url"@,
        long: "api-base-url"@,
        value_name: "API_BASE_URL"@,
        help: "Base URL of the OKF REST API"@,
        default: "http://127.0.0.1:8080"@,
    }
}

/// `--dir <DIR>`: where `install` puts the skills.
pub open spec fn dir_option() -> OptionSpecView {
    OptionSpecView {
        id: "dir"@,
        long: "dir"@,
        value_name: "DIR"@,
        help: "Directory to install skills into"@,
        default: ".agents/skills"@,
    }
}

/// `server`: the REST API alone.
pub open spec fn server_command() -> SubcommandSpecView {
    SubcommandSpecView {
        name: "server"@,
        about: "Start the REST API only"@,
        options: seq![data_option(), bind_option("127.0.0.1:8080"@)],
    }
}

/// `gui`: the web UI alone.
pub open spec fn gui_command() -> SubcommandSpecView {
    SubcommandSpecView {
        name: "gui"@,
        about: "Start the web UI only"@,
        options: seq![api_base_url_option(), bind_option("127.0.0.1:8081"@)],
    }
}

/// `search`: semantic search alone.
pub open spec fn search_command() -> SubcommandSpecView {
    SubcommandSpecView {
        name: "search"@,
        about: "Start the semantic search API only"@,
        options: seq![data_option(), bind_option("127.0.0.1:8082"@)],
    }
}

/// `install`: the bundled agent skills, written to a directory.
pub open spec fn install_command() -> SubcommandSpecView {
    SubcommandSpecView { name: "install"@, about: "Install the agent skills bundled in this binary"@, options: seq![dir_option()] }
}

/// The `okf` command: `--data` and `--bind`, and the four subcommands.
pub open spec fn okf_command() -> CommandSpecView {
    CommandSpecView {
        name: "okf"@,
        version: "0.1.0"@,
        about: "Unified OKF launcher"@,
        options: seq![data_option(), bind_option("127.0.0.1:8080"@)],
        subcommands: seq![server_command(), gui_command(), search_command(), install_command()],
    }
}

/// The option [`data_option`].
pub(crate) fn data_option_spec() -> (r: OptionSpec)
    ensures
        r@ == data_option(),
{
    OptionSpec { id: "data", long: "data", value_name: "DATA", help: "Directory containing the OKF bundle", default: "./docs" }
}

/// The option [`bind_option`] with the default `default`.
pub(crate) fn bind_option_spec(default: &'static str) -> (r: OptionSpec)
    ensures
        r@ == bind_option(default@),
{
    OptionSpec { id: "bind", long: "bind", value_name: "BIND", help: "Address to listen on", default }
}

/// The subcommand [`server_command`].
pub(crate) fn server_command_spec() -> (r: SubcommandSpec)
    ensures
        r@ == server_command(),
{
    let options = vec![data_option_spec(), bind_option_spec("127.0.0.1:8080")];
    let r = SubcommandSpec { name: "server", about: "Start the REST API only", options };
    assert(options_view(r.options@) =~= server_command().options);
    r
}

/// The subcommand [`gui_command`].
pub(crate) fn gui_command_spec() -> (r: SubcommandSpec)
    ensures
        r@ == gui_command(),
{
    let api = OptionSpec {
        id: "api_base_url",
        long: "api-base-url",
        value_name: "API_BASE_URL",
        help: "Base URL of the OKF REST API",
        default: "http://127.0.0.1:8080",
    };
    let options = vec![api, bind_option_spec("127.0.0.1:8081")];
    let r = SubcommandSpec { name: "gui", about: "Start the web UI only", options };
    assert(options_view(r.options@) =~= gui_command().options);
    r
}

/// The subcommand [`search_command`].
pub(crate) fn search_command_spec() -> (r: SubcommandSpec)
    ensures
        r@ == search_command(),
{
    let options = vec![data_option_spec(), bind_option_spec("127.0.0.1:8082")];
    let r = SubcommandSpec { name: "search", about: "Start the semantic search API only", options };
    assert(options_view(r.options@) =~= search_command().options);
    r
}

/// The `okf` command [`okf_command`].
pub fn okf_command_spec() -> (r: CommandSpec)
    ensures
        r@ == okf_command(),
{
    let dir = OptionSpec {
        id: "dir",
        long: "dir",
        value_name: "DIR",
        help: "Directory to install skills into",
        default: ".agents/skills",
    };
    let install_options = vec![dir];
    let install = SubcommandSpec {
        name: "install",
        about: "Install the agent skills bundled in this binary",
        options: install_options,
    };
    assert(options_view(install.options@) =~= install_command().options);
    let options = vec![data_option_spec(), bind_option_spec("127.0.0.1:8080")];
    let subcommands = vec![server_command_spec(), gui_command_spec(), search_command_spec(), install];
    let r = CommandSpec { name: "okf", version: "0.1.0", about: "Unified OKF launcher", options, subcommands };
    assert(options_view(r.options@) =~= okf_command().options);
    assert(r.subcommands@.map_values(|s: SubcommandSpec| s@) =~= okf_command().subcommands);
    r
}

/// Two options `clap` accepts, with different ids and long names, side by
/// side.
proof fn lemma_pair_valid(a: OptionSpecView, b: OptionSpecView)
    requires
        option_ok(a),
        option_ok(b),
        a.id != b.id,
        a.long != b.long,
    ensures
        valid_options(seq![a, b]),
{
    let s = seq![a, b];
    assert(s[0] == a && s[1] == b);
}

/// The launcher's options are ones `clap` accepts.
proof fn lemma_options_ok(bind_default: Seq<char>)
    ensures
        option_ok(data_option()),
        option_ok(bind_option(bind_default)),
        option_ok(api_base_url_option()),
        option_ok(dir_option()),
        data_option().id != bind_option(bind_default).id,
        data_option().long != bind_option(bind_default).long,
        api_base_url_option().id != bind_option(bind_default).id,
        api_base_url_option().long != bind_option(bind_default).long,
{
    reveal_strlit("data");
    reveal_strlit("bind");
    reveal_strlit("api_base_url");
    reveal_strlit("api-base-url");
    reveal_strlit("dir");
    reveal_strlit("help");
    reveal_strlit("version");
    assert("data"@[0] != "bind"@[0]);
    assert("api_base_url"@[0] != "bind"@[0]);
    assert("api-base-url"@[0] != "bind"@[0]);
    assert("data"@ != "help"@) by {
        assert("data"@[0] != "help"@[0]);
    }
    assert("bind"@ != "help"@) by {
        assert("bind"@[0] != "help"@[0]);
    }
}

/// The options of the launcher and of its subcommands are ones `clap` accepts.
pub(crate) proof fn lemma_options_valid()
    ensures
        valid_options(seq![data_option(), bind_option("127.0.0.1:8080"@)]),
        valid_options(server_command().options),
        valid_options(gui_command().options),
        valid_options(search_command().options),
        valid_options(install_command().options),
{
    lemma_options_ok("127.0.0.1:8080"@);
    lemma_options_ok("127.0.0.1:8081"@);
    lemma_options_ok("127.0.0.1:8082"@);
    lemma_pair_valid(data_option(), bind_option("127.0.0.1:8080"@));
    lemma_pair_valid(api_base_url_option(), bind_option("127.0.0.1:8081"@));
    lemma_pair_valid(data_option(), bind_option("127.0.0.1:8082"@));
    let d = seq![dir_option()];
    assert(d[0] == dir_option());
}

/// The `okf` command is one `clap` accepts.
pub proof fn lemma_okf_command_valid()
    ensures
        valid_command(okf_command()),
{
    lemma_options_valid();
    reveal_strlit("help");
    reveal_strlit("server");
    reveal_strlit("gui");
    reveal_strlit("search");
    reveal_strlit("install");
    let c = okf_command();
    let n = seq!["server"@, "gui"@, "search"@, "install"@];
    assert forall|i: int| 0 <= i < 4 implies (#[trigger] c.subcommands[i]).name == n[i] by {
        assert(c.subcommands[0] == server_command());
        assert(c.subcommands[1] == gui_command());
        assert(c.subcommands[2] == search_command());
        assert(c.subcommands[3] == install_command());
    }
    assert("server"@[2] != "search"@[2]);
    assert forall|i: int| 0 <= i < 4 implies n[i][0] != "help"@[0] && n[i].len() > 0 by {}
    assert forall|i: int, j: int| 0 <= i < j < 4 implies n[i] != n[j] by {
        if !(i == 0 && j == 2) {
            assert(n[i][0] != n[j][0]);
        } else {
            assert(n[i][2] != n[j][2]);
        }
    }
}

impl Cli {
    /// Parse the launcher's command line (`args[0]` is the program name) with
    /// `clap`, against the command [`okf_command`] (see [`cli_result`]).
    pub fn try_parse_from(args: &Vec<String>) -> (r: Result<Cli, CliError>)
        ensures
            cli_result_view(r) == cli_result(clap_outcome(okf_command(), views(args@))),
    {
        let spec = okf_command_spec();
        proof {
            lemma_okf_command_valid();
        }
        let o = run_clap(&spec, args);
        cli_from_outcome(o)
    }
}

/// The API base URL the web UI uses when everything is served on `bind`: the
/// loopback address with the port of `bind` (what follows its last `:`).
pub open spec fn loopback_api_url(bind: Seq<char>) -> Seq<char> {
    "http://127.0.0.1:"@ + bind.subrange(crate::text::last_index_of(bind, ':') + 1, bind.len() as int)
}

/// The API base URL for everything served on `bind` (see
/// [`loopback_api_url`]).
pub fn api_base_url_for(bind: &str) -> (r: String)
    ensures
        r@ == loopback_api_url(bind@),
{
    let v = chars_of(bind);
    proof {
        crate::text::lemma_last_index_of(v@, ':');
    }
    let n = v.len();
    let start = match crate::text::rfind_char(&v, ':') {
        Some(i) => i + 1,
        None => 0,
    };
    let port = string_of_range(&v, start, n);
    let mut r = "http://127.0.0.1:".to_string();
    r.append(port.as_str());
    r
}

} // verus!
