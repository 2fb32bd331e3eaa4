//! The configuration: what the command line asks for, what a file says, and
//! what holds where neither says anything. Paths are the bytes that the system
//! has for them.

use vstd::prelude::*;

use crate::text::lossy;

verus! {

/// The file that is read unless the command line names another one.
pub const DEFAULT_PATH: &'static str = "/etc/agentx-ifstack.toml";

/// How much is logged.
#[derive(Clone, Copy, Debug, PartialEq, Eq, Structural)]
pub enum LogLevel {
    Error,
    Warn,
    Info,
    Debug,
    Trace,
}

/// The levels of the `log` crate.
#[verifier::external_type_specification]
pub struct ExLevelFilter(log::LevelFilter);

impl LogLevel {
    /// The level of the `log` crate that lets this much through.
    pub fn filter(self) -> (filter: log::LevelFilter)
        ensures
            filter == match self {
                LogLevel::Error => log::LevelFilter::Error,
                LogLevel::Warn => log::LevelFilter::Warn,
                LogLevel::Info => log::LevelFilter::Info,
                LogLevel::Debug => log::LevelFilter::Debug,
                LogLevel::Trace => log::LevelFilter::Trace,
            },
    {
        match self {
            LogLevel::Error => log::LevelFilter::Error,
            LogLevel::Warn => log::LevelFilter::Warn,
            LogLevel::Info => log::LevelFilter::Info,
            LogLevel::Debug => log::LevelFilter::Debug,
            LogLevel::Trace => log::LevelFilter::Trace,
        }
    }
}

/// What is configured.
#[derive(Debug)]
pub struct Config {
    pub socket: Vec<u8>,
    pub reconcile: u64,
    pub priority: u8,
    pub log_level: LogLevel,
}

/// The value of a [`Config`].
pub struct ConfigView {
    pub socket: Seq<u8>,
    pub reconcile: u64,
    pub priority: u8,
    pub log_level: LogLevel,
}

impl View for Config {
    type V = ConfigView;

    open spec fn view(&self) -> ConfigView {
        ConfigView {
            socket: self.socket@,
            reconcile: self.reconcile,
            priority: self.priority,
            log_level: self.log_level,
        }
    }
}

/// The bytes of a text.
pub open spec fn bytes_of(text: Seq<char>) -> Seq<u8> {
    vstd::utf8::encode_utf8(text)
}

/// What holds where nothing is said.
pub open spec fn built_in() -> ConfigView {
    ConfigView {
        socket: bytes_of("/var/agentx/master"@),
        reconcile: 3600,
        priority: 127,
        log_level: LogLevel::Info,
    }
}

impl Default for Config {
    /// What holds where nothing is said.
    fn default() -> (config: Self)
        ensures
            config@ == built_in(),
    {
        Self {
            socket: "/var/agentx/master".as_bytes_vec(),
            reconcile: 3600,
            priority: 127,
            log_level: LogLevel::Info,
        }
    }
}

/// What the command line asks for.
#[derive(Debug)]
pub enum Arguments {
    Help,
    Version,
    Run { path: Option<Vec<u8>>, socket: Option<Vec<u8>> },
}

/// The value of [`Arguments`].
pub enum ArgumentsView {
    Help,
    Version,
    Run { path: Option<Seq<u8>>, socket: Option<Seq<u8>> },
}

/// The value of a list of bytes that may be missing.
pub open spec fn optional(bytes: Option<Vec<u8>>) -> Option<Seq<u8>> {
    match bytes {
        Some(bytes) => Some(bytes@),
        None => None,
    }
}

impl View for Arguments {
    type V = ArgumentsView;

    open spec fn view(&self) -> ArgumentsView {
        match *self {
            Arguments::Help => ArgumentsView::Help,
            Arguments::Version => ArgumentsView::Version,
            Arguments::Run { path, socket } => ArgumentsView::Run {
                path: optional(path),
                socket: optional(socket),
            },
        }
    }
}

/// Whether an argument can be the value of an option: it is not empty, and does
/// not look like an option itself.
pub open spec fn is_value(argument: Seq<u8>) -> bool {
    argument.len() > 0 && !(argument.len() >= 2 && argument[0] == 0x2d && argument[1] == 0x2d)
}

/// What the arguments from position `i` on ask for, after a path and a socket
/// that were named before; or why they make no sense. A later value of an option
/// replaces an earlier one, and what comes behind a request for help or for the
/// version does not matter.
pub open spec fn asked_for(
    arguments: Seq<Seq<u8>>,
    i: int,
    path: Option<Seq<u8>>,
    socket: Option<Seq<u8>>,
) -> Result<ArgumentsView, Seq<char>>
    decreases arguments.len() - i,
{
    if i >= arguments.len() {
        Ok(ArgumentsView::Run { path, socket })
    } else {
        let argument = arguments[i];
        if argument == bytes_of("--help"@) || argument == bytes_of("-h"@) {
            Ok(ArgumentsView::Help)
        } else if argument == bytes_of("--version"@) {
            Ok(ArgumentsView::Version)
        } else if argument == bytes_of("--config"@) {
            if i + 1 < arguments.len() && is_value(arguments[i + 1]) {
                asked_for(arguments, i + 2, Some(arguments[i + 1]), socket)
            } else {
                Err("--config requires a path"@)
            }
        } else if argument == bytes_of("--socket"@) {
            if i + 1 < arguments.len() && is_value(arguments[i + 1]) {
                asked_for(arguments, i + 2, path, Some(arguments[i + 1]))
            } else {
                Err("--socket requires a path"@)
            }
        } else {
            Err("Unknown argument: "@ + crate::text::lossy_text(argument))
        }
    }
}

/// The values of a list of arguments.
pub open spec fn argument_views(arguments: Seq<Vec<u8>>) -> Seq<Seq<u8>> {
    arguments.map_values(|argument: Vec<u8>| argument@)
}

/// Whether some bytes are those of a text.
fn is_text(bytes: &Vec<u8>, text: &str) -> (same: bool)
    ensures
        same == (bytes@ == bytes_of(text@)),
{
    let expected: &[u8] = text.as_bytes();
    if bytes.len() != expected.len() {
        return false;
    }
    let mut i: usize = 0;
    while i < bytes.len()
        invariant
            i <= bytes@.len() == expected@.len(),
            expected@ == bytes_of(text@),
            forall|j: int| 0 <= j < i ==> bytes@[j] == expected@[j],
        decreases bytes@.len() - i,
    {
        if bytes[i] != expected[i] {
            return false;
        }
        i = i + 1;
    }
    assert(bytes@ =~= expected@);
    true
}

/// Whether an argument can be the value of an option.
fn can_be_value(argument: &Vec<u8>) -> (value: bool)
    ensures
        value == is_value(argument@),
{
    argument.len() > 0 && !(argument.len() >= 2 && argument[0] == 0x2d && argument[1] == 0x2d)
}

/// Makes sense of the command line, without the name of the program.
pub fn parse_arguments(arguments: &Vec<Vec<u8>>) -> (parsed: Result<Arguments, String>)
    ensures
        match parsed {
            Ok(asked) => asked_for(argument_views(arguments@), 0, None, None) == Ok::<
                ArgumentsView,
                Seq<char>,
            >(asked@),
            Err(text) => asked_for(argument_views(arguments@), 0, None, None) == Err::<
                ArgumentsView,
                Seq<char>,
            >(text@),
        },
{
    let ghost views = argument_views(arguments@);
    let mut path: Option<Vec<u8>> = None;
    let mut socket: Option<Vec<u8>> = None;
    let mut i: usize = 0;
    while i < arguments.len()
        invariant
            i <= arguments@.len(),
            views == argument_views(arguments@),
            asked_for(views, 0, None, None) == asked_for(
                views,
                i as int,
                optional(path),
                optional(socket),
            ),
        decreases arguments@.len() - i,
    {
        let argument: &Vec<u8> = &arguments[i];
        assert(views[i as int] == argument@);
        if is_text(argument, "--help") || is_text(argument, "-h") {
            return Ok(Arguments::Help);
        }
        if is_text(argument, "--version") {
            return Ok(Arguments::Version);
        }
        let names_path: bool = is_text(argument, "--config");
        if names_path || is_text(argument, "--socket") {
            assert(i + 1 < arguments@.len() ==> views[i + 1] == arguments@[i + 1]@);
            if arguments.len() - i < 2 || !can_be_value(&arguments[i + 1]) {
                let text: &str = if names_path {
                    "--config requires a path"
                } else {
                    "--socket requires a path"
                };
                return Err(text.to_owned());
            }
            let value: Vec<u8> = arguments[i + 1].clone();
            assert(value@ =~= arguments@[i + 1]@);
            if names_path {
                path = Some(value);
            } else {
                socket = Some(value);
            }
            i = i + 2;
        } else {
            let mut text: String = "Unknown argument: ".to_owned();
            text.append(lossy(argument.as_slice()).as_str());
            return Err(text);
        }
    }
    Ok(Arguments::Run { path, socket })
}

/// The file to read: the one that the command line names, or else the default
/// one.
pub open spec fn selected(path: Option<Seq<u8>>, default_path: Seq<u8>) -> Seq<u8> {
    match path {
        Some(path) => path,
        None => default_path,
    }
}

/// The file to read.
pub fn selected_path(path: &Option<Vec<u8>>, default_path: &Vec<u8>) -> (selection: Vec<u8>)
    ensures
        selection@ == selected(optional(*path), default_path@),
{
    match path {
        Some(path) => {
            let selection: Vec<u8> = path.clone();
            assert(selection@ =~= path@);
            selection
        },
        None => {
            let selection: Vec<u8> = default_path.clone();
            assert(selection@ =~= default_path@);
            selection
        },
    }
}

/// What came of reading the file: what it says, or why it says nothing.
#[derive(Debug)]
pub enum FileOutcome {
    Said(Config),
    Absent(String),
    Unreadable(String),
    Invalid(String),
}

/// What to do.
#[derive(Debug)]
pub enum Action {
    Run(Config),
    Help,
    Version,
}

/// What the file, and the socket that the command line names, amount to; or why
/// they cannot be made use of. Only the default file may be absent. The socket of
/// the command line takes the place of that of the file before anything is
/// checked.
pub open spec fn effective(
    path: Option<Seq<u8>>,
    socket: Option<Seq<u8>>,
    default_path: Seq<u8>,
    file: FileOutcome,
) -> Result<ConfigView, Seq<char>> {
    let shown = crate::text::lossy_text(selected(path, default_path));
    let said = match file {
        FileOutcome::Said(config) => Ok(config@),
        FileOutcome::Absent(reason) => if path is None {
            Ok(built_in())
        } else {
            Err("config "@ + shown + ": "@ + reason@)
        },
        FileOutcome::Unreadable(reason) => Err("config "@ + shown + ": "@ + reason@),
        FileOutcome::Invalid(reason) => Err(shown + ": "@ + reason@),
    };
    match said {
        Err(reason) => Err(reason),
        Ok(config) => {
            let config = match socket {
                Some(socket) => ConfigView { socket, ..config },
                None => config,
            };
            match config_fault(config) {
                Some(reason) => Err(reason),
                None => Ok(config),
            }
        },
    }
}

/// What is wrong with a configuration, if anything is.
pub open spec fn config_fault(config: ConfigView) -> Option<Seq<char>> {
    if config.socket.len() == 0 {
        Some("socket must not be empty"@)
    } else if config.reconcile == 0 {
        Some("reconcile must be at least 1 second"@)
    } else if config.priority == 0 {
        Some("priority must be between 1 and 255"@)
    } else {
        None
    }
}

/// Checks a configuration.
pub fn validate(config: &Config) -> (valid: Result<(), String>)
    ensures
        match valid {
            Ok(()) => config_fault(config@) is None,
            Err(reason) => config_fault(config@) == Some(reason@),
        },
{
    if config.socket.len() == 0 {
        return Err("socket must not be empty".to_owned());
    }
    if config.reconcile == 0 {
        return Err("reconcile must be at least 1 second".to_owned());
    }
    if config.priority == 0 {
        return Err("priority must be between 1 and 255".to_owned());
    }
    Ok(())
}

/// The text of a path, a colon and a reason.
fn about_path(start: &str, path: &Vec<u8>, reason: &String) -> (text: String)
    ensures
        text@ == start@ + crate::text::lossy_text(path@) + ": "@ + reason@,
{
    let mut text: String = start.to_owned();
    text.append(lossy(path.as_slice()).as_str());
    text.append(": ");
    text.append(reason.as_str());
    text
}

/// Settles what to do, given what the command line asks for and what came of
/// reading the file. Help and the version are given without regard to the file.
pub fn load(asked: Arguments, default_path: &Vec<u8>, file: FileOutcome) -> (settled: Result<
    Action,
    String,
>)
    ensures
        match asked {
            Arguments::Help => settled matches Ok(Action::Help),
            Arguments::Version => settled matches Ok(Action::Version),
            Arguments::Run { path, socket } => match settled {
                Ok(Action::Run(config)) => effective(
                    optional(path),
                    optional(socket),
                    default_path@,
                    file,
                ) == Ok::<ConfigView, Seq<char>>(config@),
                Ok(_) => false,
                Err(reason) => effective(
                    optional(path),
                    optional(socket),
                    default_path@,
                    file,
                ) == Err::<ConfigView, Seq<char>>(reason@),
            },
        },
{
    let (path, socket): (Option<Vec<u8>>, Option<Vec<u8>>) = match asked {
        Arguments::Help => {
            return Ok(Action::Help);
        },
        Arguments::Version => {
            return Ok(Action::Version);
        },
        Arguments::Run { path, socket } => (path, socket),
    };
    let selection: Vec<u8> = selected_path(&path, default_path);
    let mut config: Config = match file {
        FileOutcome::Said(config) => config,
        FileOutcome::Absent(reason) => {
            if path.is_some() {
                return Err(about_path("config ", &selection, &reason));
            }
            Config::default()
        },
        FileOutcome::Unreadable(reason) => {
            return Err(about_path("config ", &selection, &reason));
        },
        FileOutcome::Invalid(reason) => {
            proof {
                reveal_strlit("");
                assert(""@ + crate::text::lossy_text(selection@) =~= crate::text::lossy_text(
                    selection@,
                ));
            }
            return Err(about_path("", &selection, &reason));
        },
    };
    if let Some(socket) = socket {
        config.socket = socket;
    }
    match validate(&config) {
        Ok(()) => Ok(Action::Run(config)),
        Err(reason) => Err(reason),
    }
}

/// A socket that the command line names hides that of the file, even if that is
/// no socket at all.
pub proof fn a_named_socket_hides_that_of_the_file(
    path: Option<Seq<u8>>,
    socket: Seq<u8>,
    default_path: Seq<u8>,
    one: Config,
    another: Config,
)
    requires
        one.reconcile == another.reconcile,
        one.priority == another.priority,
        one.log_level == another.log_level,
    ensures
        effective(path, Some(socket), default_path, FileOutcome::Said(one)) == effective(
            path,
            Some(socket),
            default_path,
            FileOutcome::Said(another),
        ),
{
}

/// The two options can be given in either order.
pub proof fn options_can_be_given_in_either_order(path: Seq<u8>, socket: Seq<u8>)
    requires
        is_value(path),
        is_value(socket),
    ensures
        asked_for(
            seq![bytes_of("--config"@), path, bytes_of("--socket"@), socket],
            0,
            None,
            None,
        ) == asked_for(
            seq![bytes_of("--socket"@), socket, bytes_of("--config"@), path],
            0,
            None,
            None,
        ),
        asked_for(
            seq![bytes_of("--config"@), path, bytes_of("--socket"@), socket],
            0,
            None,
            None,
        ) == Ok::<ArgumentsView, Seq<char>>(
            ArgumentsView::Run { path: Some(path), socket: Some(socket) },
        ),
{
    lemma_options_differ();
    reveal_with_fuel(asked_for, 3);
}

/// What is run with is always usable.
pub proof fn an_effective_configuration_has_no_fault(
    path: Option<Seq<u8>>,
    socket: Option<Seq<u8>>,
    default_path: Seq<u8>,
    file: FileOutcome,
)
    ensures
        effective(path, socket, default_path, file) matches Ok(config) ==> config_fault(config)
            is None,
{
}

pub(crate) proof fn lemma_options_differ()
    ensures
        bytes_of("--socket"@) != bytes_of("--config"@),
        bytes_of("--socket"@) != bytes_of("--help"@),
        bytes_of("--socket"@) != bytes_of("-h"@),
        bytes_of("--socket"@) != bytes_of("--version"@),
        bytes_of("--config"@) != bytes_of("--help"@),
        bytes_of("--config"@) != bytes_of("-h"@),
        bytes_of("--config"@) != bytes_of("--version"@),
{
    reveal_strlit("--socket");
    reveal_strlit("--config");
    reveal_strlit("--help");
    reveal_strlit("-h");
    reveal_strlit("--version");
    vstd::utf8::is_ascii_chars_encode_utf8("--socket"@);
    vstd::utf8::is_ascii_chars_encode_utf8("--config"@);
    vstd::utf8::is_ascii_chars_encode_utf8("--help"@);
    vstd::utf8::is_ascii_chars_encode_utf8("-h"@);
    vstd::utf8::is_ascii_chars_encode_utf8("--version"@);
    assert(bytes_of("--socket"@)[2] == 's' as u8);
    assert(bytes_of("--config"@)[2] == 'c' as u8);
    assert(bytes_of("--help"@)[2] == 'h' as u8);
    assert(bytes_of("--version"@)[2] == 'v' as u8);
    assert(bytes_of("-h"@).len() == 2);
}

/// A socket that the command line names changes the socket and nothing else of what
/// the file says; without one, what the file says is run with as it is.
pub proof fn a_named_socket_changes_the_socket_only(
    path: Option<Seq<u8>>,
    socket: Option<Seq<u8>>,
    default_path: Seq<u8>,
    config: Config,
    run: ConfigView,
)
    requires
        effective(path, socket, default_path, FileOutcome::Said(config)) == Ok::<
            ConfigView,
            Seq<char>,
        >(run),
    ensures
        run.socket == match socket {
            Some(socket) => socket,
            None => config.socket@,
        },
        run.reconcile == config.reconcile,
        run.priority == config.priority,
        run.log_level == config.log_level,
{
}

/// What a file says is run with exactly if there is a socket, of the command line or
/// else of the file, and neither the interval nor the priority is zero.
pub proof fn what_a_file_says_is_run_with_if_it_is_usable(
    path: Option<Seq<u8>>,
    socket: Option<Seq<u8>>,
    default_path: Seq<u8>,
    config: Config,
)
    ensures
        effective(path, socket, default_path, FileOutcome::Said(config)) is Ok <==> {
            &&& config.reconcile >= 1
            &&& config.priority >= 1
            &&& match socket {
                Some(socket) => socket.len() > 0,
                None => config.socket@.len() > 0,
            }
        },
{
}

/// Without a default file the built-in values are run with, but for a socket that the
/// command line names.
pub proof fn an_absent_default_file_leaves_the_built_in_values(
    socket: Option<Seq<u8>>,
    default_path: Seq<u8>,
    reason: String,
)
    requires
        socket matches Some(socket) ==> socket.len() > 0,
    ensures
        effective(None, socket, default_path, FileOutcome::Absent(reason)) matches Ok(run) && {
            &&& run.socket == match socket {
                Some(socket) => socket,
                None => vstd::utf8::encode_utf8("/var/agentx/master"@),
            }
            &&& run.reconcile == 3600
            &&& run.priority == 127
            &&& run.log_level == LogLevel::Info
        },
{
    reveal_strlit("/var/agentx/master");
    vstd::utf8::is_ascii_chars_encode_utf8("/var/agentx/master"@);
}

/// A file that the command line names has to be there; and a file that is there has to
/// be readable and make sense, whoever names it, and whatever socket is named.
pub proof fn a_file_is_never_passed_over(
    path: Option<Seq<u8>>,
    socket: Option<Seq<u8>>,
    default_path: Seq<u8>,
    reason: String,
)
    ensures
        path is Some ==> effective(path, socket, default_path, FileOutcome::Absent(reason)) is Err,
        effective(path, socket, default_path, FileOutcome::Unreadable(reason)) is Err,
        effective(path, socket, default_path, FileOutcome::Invalid(reason)) is Err,
{
}

/// The file that is read is the one that the command line names.
pub proof fn a_named_file_is_read_in_place_of_the_default_one(
    path: Seq<u8>,
    default_path: Seq<u8>,
)
    ensures
        selected(Some(path), default_path) == path,
        selected(None, default_path) == default_path,
{
}

/// What the later arguments ask for, after a path and a socket that were named before
/// them.
pub open spec fn after_naming(
    asked: Result<ArgumentsView, Seq<char>>,
    path: Option<Seq<u8>>,
    socket: Option<Seq<u8>>,
) -> Result<ArgumentsView, Seq<char>> {
    match asked {
        Ok(ArgumentsView::Run { path: later_path, socket: later_socket }) => Ok(
            ArgumentsView::Run {
                path: if later_path is Some {
                    later_path
                } else {
                    path
                },
                socket: if later_socket is Some {
                    later_socket
                } else {
                    socket
                },
            },
        ),
        _ => asked,
    }
}

/// What was named before matters only where nothing is named later; and arguments mean
/// the same wherever they stand.
pub proof fn later_names_count(
    arguments: Seq<Seq<u8>>,
    i: int,
    path: Option<Seq<u8>>,
    socket: Option<Seq<u8>>,
)
    requires
        0 <= i <= arguments.len(),
    ensures
        asked_for(arguments, i, path, socket) == after_naming(
            asked_for(arguments.skip(i), 0, None, None),
            path,
            socket,
        ),
    decreases arguments.len() - i,
{
    let rest = arguments.skip(i);
    if i < arguments.len() {
        assert(rest[0] == arguments[i]);
        if i + 1 < arguments.len() {
            let value = arguments[i + 1];
            assert(rest[1] == value);
            assert(rest.skip(2) =~= arguments.skip(i + 2));
            later_names_count(arguments, i + 2, Some(value), socket);
            later_names_count(arguments, i + 2, path, Some(value));
            later_names_count(rest, 2, Some(value), None);
            later_names_count(rest, 2, None, Some(value));
        }
    }
}

} // verus!
