//! The command line.
use vstd::prelude::*;

use crate::config;
use crate::control::reply;
use crate::control::reply::{ControlRequest, DEFAULT_CONTROL_SOCKET};
use crate::wire::same_text;

verus! {

/// Where the configuration stands unless the command line says otherwise.
pub const DEFAULT_CONFIG_PATH: &'static str = "/etc/ospfd/config.yaml";

/// Where the forwarder listens unless the command line says otherwise.
pub const DEFAULT_API_SOCKET: &'static str = "/run/vpp/api.sock";

/// How packets come in and go out.
#[derive(Clone, Copy, Debug, PartialEq, Eq, Structural)]
pub enum IoBackend {
    /// Raw sockets of the kernel.
    Raw,
    /// The punt socket of the forwarder.
    Punt,
}

/// How the answer to a query is printed.
#[derive(Clone, Copy, Debug, PartialEq, Eq, Structural)]
pub enum OutputFormat {
    Text,
    Json,
}

/// What the daemon is started with.
#[derive(Debug)]
pub struct RunArgs {
    pub config_path: String,
    pub vpp_api_socket: String,
    /// The control socket of the default VRF; the lock file of the process stands beside it.
    pub control_socket: String,
    pub io_backend: IoBackend,
    /// Accepted and ignored: one process serves every VRF.
    pub vrf_deprecated: Option<String>,
}

/// What the daemon is started with.
pub struct RunArgsView {
    pub config_path: Seq<char>,
    pub vpp_api_socket: Seq<char>,
    pub control_socket: Seq<char>,
    pub io_backend: IoBackend,
    pub vrf_deprecated: Option<Seq<char>>,
}

impl View for RunArgs {
    type V = RunArgsView;

    open spec fn view(&self) -> RunArgsView {
        RunArgsView {
            config_path: self.config_path@,
            vpp_api_socket: self.vpp_api_socket@,
            control_socket: self.control_socket@,
            io_backend: self.io_backend,
            vrf_deprecated: config::opt_text(self.vrf_deprecated),
        }
    }
}

/// A query.
#[derive(Debug)]
pub struct QueryArgs {
    pub control_socket: String,
    pub request: ControlRequest,
    pub output: OutputFormat,
}

/// What a query asks.
pub struct QueryArgsView {
    pub control_socket: Seq<char>,
    pub request: reply::ControlRequestView,
    pub output: OutputFormat,
}

impl View for QueryArgs {
    type V = QueryArgsView;

    open spec fn view(&self) -> QueryArgsView {
        QueryArgsView {
            control_socket: self.control_socket@,
            request: self.request@,
            output: self.output,
        }
    }
}

/// What to do.
#[derive(Debug)]
pub enum Command {
    Run(RunArgs),
    Query(QueryArgs),
}

/// What to do.
pub enum CommandView {
    Run(RunArgsView),
    Query(QueryArgsView),
}

impl View for Command {
    type V = CommandView;

    open spec fn view(&self) -> CommandView {
        match *self {
            Command::Run(a) => CommandView::Run(a@),
            Command::Query(a) => CommandView::Query(a@),
        }
    }
}

/// Why a command line is not obeyed.
#[derive(Debug)]
pub enum CliError {
    /// Nothing was asked. A daemon is never started by accident, because a second one would take
    /// the sockets of a running one away.
    NoArguments,
    /// The usage was asked for.
    Help,
    /// The option needs a value.
    MissingValue { option: String },
    UnknownBackend { value: String },
    UnknownArgument { value: String },
    MissingSubject,
    UnknownOutput { value: String },
    UnknownQueryArgument { value: String },
    UnknownSubject { value: String },
}

/// Why a command line is not obeyed.
pub enum CliErrorView {
    NoArguments,
    Help,
    MissingValue { option: Seq<char> },
    UnknownBackend { value: Seq<char> },
    UnknownArgument { value: Seq<char> },
    MissingSubject,
    UnknownOutput { value: Seq<char> },
    UnknownQueryArgument { value: Seq<char> },
    UnknownSubject { value: Seq<char> },
}

impl View for CliError {
    type V = CliErrorView;

    open spec fn view(&self) -> CliErrorView {
        match *self {
            CliError::NoArguments => CliErrorView::NoArguments,
            CliError::Help => CliErrorView::Help,
            CliError::MissingValue { option } => CliErrorView::MissingValue { option: option@ },
            CliError::UnknownBackend { value } => CliErrorView::UnknownBackend { value: value@ },
            CliError::UnknownArgument { value } => CliErrorView::UnknownArgument { value: value@ },
            CliError::MissingSubject => CliErrorView::MissingSubject,
            CliError::UnknownOutput { value } => CliErrorView::UnknownOutput { value: value@ },
            CliError::UnknownQueryArgument { value } => CliErrorView::UnknownQueryArgument {
                value: value@,
            },
            CliError::UnknownSubject { value } => CliErrorView::UnknownSubject { value: value@ },
        }
    }
}

/// The characters of the arguments.
pub open spec fn texts(args: Seq<String>) -> Seq<Seq<char>> {
    Seq::new(args.len(), |i: int| args[i]@)
}

/// The backend that a word names.
pub open spec fn backend_named(w: Seq<char>) -> Option<IoBackend> {
    if w == "raw"@ {
        Some(IoBackend::Raw)
    } else if w == "punt"@ {
        Some(IoBackend::Punt)
    } else {
        None
    }
}

/// The format that a word names.
pub open spec fn output_named(w: Seq<char>) -> Option<OutputFormat> {
    if w == "text"@ {
        Some(OutputFormat::Text)
    } else if w == "json"@ {
        Some(OutputFormat::Json)
    } else {
        None
    }
}

/// What the daemon is started with if nothing is said.
pub open spec fn default_run() -> RunArgsView {
    RunArgsView {
        config_path: DEFAULT_CONFIG_PATH@,
        vpp_api_socket: DEFAULT_API_SOCKET@,
        control_socket: DEFAULT_CONTROL_SOCKET@,
        io_backend: IoBackend::Raw,
        vrf_deprecated: None,
    }
}

/// What the arguments from `i` on make of `acc`. Later options win; the first argument that is
/// wrong decides the error.
pub open spec fn run_from(args: Seq<Seq<char>>, i: int, acc: RunArgsView) -> Result<
    RunArgsView,
    CliErrorView,
>
    decreases args.len() - i,
{
    if i < 0 || i >= args.len() {
        Ok(acc)
    } else if args[i] == "--help"@ || args[i] == "-h"@ {
        Err(CliErrorView::Help)
    } else if args[i] != "--config"@ && args[i] != "--vpp-api"@ && args[i] != "--control-socket"@
        && args[i] != "--vrf"@ && args[i] != "--io"@ {
        Err(CliErrorView::UnknownArgument { value: args[i] })
    } else if i + 1 >= args.len() {
        Err(CliErrorView::MissingValue { option: args[i] })
    } else if args[i] == "--config"@ {
        run_from(args, i + 2, RunArgsView { config_path: args[i + 1], ..acc })
    } else if args[i] == "--vpp-api"@ {
        run_from(args, i + 2, RunArgsView { vpp_api_socket: args[i + 1], ..acc })
    } else if args[i] == "--control-socket"@ {
        run_from(args, i + 2, RunArgsView { control_socket: args[i + 1], ..acc })
    } else if args[i] == "--vrf"@ {
        run_from(args, i + 2, RunArgsView { vrf_deprecated: Some(args[i + 1]), ..acc })
    } else {
        match backend_named(args[i + 1]) {
            Some(b) => run_from(args, i + 2, RunArgsView { io_backend: b, ..acc }),
            None => Err(CliErrorView::UnknownBackend { value: args[i + 1] }),
        }
    }
}

/// The options of a query.
pub struct QueryOptionsView {
    pub control_socket: Seq<char>,
    pub area: Option<Seq<char>>,
    pub ls_type: Option<Seq<char>>,
    pub output: OutputFormat,
}

/// The options of a query if nothing is said.
pub open spec fn default_query() -> QueryOptionsView {
    QueryOptionsView {
        control_socket: DEFAULT_CONTROL_SOCKET@,
        area: None,
        ls_type: None,
        output: OutputFormat::Text,
    }
}

/// What the arguments from `i` on make of `acc`.
pub open spec fn query_from(args: Seq<Seq<char>>, i: int, acc: QueryOptionsView) -> Result<
    QueryOptionsView,
    CliErrorView,
>
    decreases args.len() - i,
{
    if i < 0 || i >= args.len() {
        Ok(acc)
    } else if args[i] != "--control-socket"@ && args[i] != "--area"@ && args[i] != "--type"@
        && args[i] != "-o"@ && args[i] != "--output"@ {
        Err(CliErrorView::UnknownQueryArgument { value: args[i] })
    } else if i + 1 >= args.len() {
        Err(CliErrorView::MissingValue { option: args[i] })
    } else if args[i] == "--control-socket"@ {
        query_from(args, i + 2, QueryOptionsView { control_socket: args[i + 1], ..acc })
    } else if args[i] == "--area"@ {
        query_from(args, i + 2, QueryOptionsView { area: Some(args[i + 1]), ..acc })
    } else if args[i] == "--type"@ {
        query_from(args, i + 2, QueryOptionsView { ls_type: Some(args[i + 1]), ..acc })
    } else {
        match output_named(args[i + 1]) {
            Some(f) => query_from(args, i + 2, QueryOptionsView { output: f, ..acc }),
            None => Err(CliErrorView::UnknownOutput { value: args[i + 1] }),
        }
    }
}

/// The request that a subject stands for; only a database request has filters.
pub open spec fn request_for(
    subject: Seq<char>,
    area: Option<Seq<char>>,
    ls_type: Option<Seq<char>>,
) -> Option<reply::ControlRequestView> {
    if subject == "status"@ {
        Some(reply::ControlRequestView::Status)
    } else if subject == "neighbors"@ {
        Some(reply::ControlRequestView::Neighbors)
    } else if subject == "interfaces"@ {
        Some(reply::ControlRequestView::Interfaces)
    } else if subject == "database"@ {
        Some(reply::ControlRequestView::Database { area, ls_type })
    } else if subject == "routes"@ {
        Some(reply::ControlRequestView::Routes)
    } else if subject == "status6"@ {
        Some(reply::ControlRequestView::Status6)
    } else if subject == "neighbors6"@ {
        Some(reply::ControlRequestView::Neighbors6)
    } else if subject == "interfaces6"@ {
        Some(reply::ControlRequestView::Interfaces6)
    } else if subject == "database6"@ {
        Some(reply::ControlRequestView::Database6 { area, ls_type })
    } else if subject == "routes6"@ {
        Some(reply::ControlRequestView::Routes6)
    } else {
        None
    }
}

/// The query that the arguments stand for: the word `query`, then the subject, then the options.
pub open spec fn query_of(args: Seq<Seq<char>>) -> Result<QueryArgsView, CliErrorView> {
    if args.len() < 2 {
        Err(CliErrorView::MissingSubject)
    } else {
        match query_from(args, 2, default_query()) {
            Err(e) => Err(e),
            Ok(o) => match request_for(args[1], o.area, o.ls_type) {
                Some(request) => Ok(
                    QueryArgsView { control_socket: o.control_socket, request, output: o.output },
                ),
                None => Err(CliErrorView::UnknownSubject { value: args[1] }),
            },
        }
    }
}

/// What the arguments ask for.
pub open spec fn command_of(args: Seq<Seq<char>>) -> Result<CommandView, CliErrorView> {
    if args.len() == 0 {
        Err(CliErrorView::NoArguments)
    } else if args[0] == "query"@ {
        match query_of(args) {
            Ok(q) => Ok(CommandView::Query(q)),
            Err(e) => Err(e),
        }
    } else {
        match run_from(args, 0, default_run()) {
            Ok(r) => Ok(CommandView::Run(r)),
            Err(e) => Err(e),
        }
    }
}

/// Whether a result is the one that is wanted.
pub open spec fn agree<T: View>(got: Result<T, CliError>, want: Result<T::V, CliErrorView>) -> bool {
    match (got, want) {
        (Ok(a), Ok(b)) => a@ == b,
        (Err(e), Err(f)) => e@ == f,
        _ => false,
    }
}

fn parse_run_args(args: &Vec<String>) -> (r: Result<RunArgs, CliError>)
    ensures
        agree(r, run_from(texts(args@), 0, default_run())),
{
    let ghost all = texts(args@);
    let mut run = RunArgs {
        config_path: DEFAULT_CONFIG_PATH.to_owned(),
        vpp_api_socket: DEFAULT_API_SOCKET.to_owned(),
        control_socket: DEFAULT_CONTROL_SOCKET.to_owned(),
        io_backend: IoBackend::Raw,
        vrf_deprecated: None,
    };
    let mut i: usize = 0;
    while i < args.len()
        invariant
            i <= args@.len(),
            all == texts(args@),
            run_from(all, 0, default_run()) == run_from(all, i as int, run@),
        decreases args.len() - i,
    {
        let arg: &str = args[i].as_str();
        assert(all[i as int] == arg@);
        if same_text(arg, "--help") || same_text(arg, "-h") {
            return Err(CliError::Help);
        }
        let config = same_text(arg, "--config");
        let api = same_text(arg, "--vpp-api");
        let socket = same_text(arg, "--control-socket");
        let vrf = same_text(arg, "--vrf");
        if !config && !api && !socket && !vrf && !same_text(arg, "--io") {
            return Err(CliError::UnknownArgument { value: arg.to_owned() });
        }
        if args.len() - i < 2 {
            return Err(CliError::MissingValue { option: arg.to_owned() });
        }
        let value: &str = args[i + 1].as_str();
        assert(all[i + 1] == value@);
        if config {
            run.config_path = value.to_owned();
        } else if api {
            run.vpp_api_socket = value.to_owned();
        } else if socket {
            run.control_socket = value.to_owned();
        } else if vrf {
            run.vrf_deprecated = Some(value.to_owned());
        } else if same_text(value, "raw") {
            run.io_backend = IoBackend::Raw;
        } else if same_text(value, "punt") {
            run.io_backend = IoBackend::Punt;
        } else {
            return Err(CliError::UnknownBackend { value: value.to_owned() });
        }
        i = i + 2;
    }
    Ok(run)
}

/// A copy of the subject's request.
fn build_request(
    subject: &str,
    area: Option<String>,
    ls_type: Option<String>,
) -> (r: Option<ControlRequest>)
    ensures
        match (r, request_for(subject@, config::opt_text(area), config::opt_text(ls_type))) {
            (Some(q), Some(v)) => q@ == v,
            (None, None) => true,
            _ => false,
        },
{
    if same_text(subject, "status") {
        Some(ControlRequest::Status)
    } else if same_text(subject, "neighbors") {
        Some(ControlRequest::Neighbors)
    } else if same_text(subject, "interfaces") {
        Some(ControlRequest::Interfaces)
    } else if same_text(subject, "database") {
        Some(ControlRequest::Database { area, ls_type })
    } else if same_text(subject, "routes") {
        Some(ControlRequest::Routes)
    } else if same_text(subject, "status6") {
        Some(ControlRequest::Status6)
    } else if same_text(subject, "neighbors6") {
        Some(ControlRequest::Neighbors6)
    } else if same_text(subject, "interfaces6") {
        Some(ControlRequest::Interfaces6)
    } else if same_text(subject, "database6") {
        Some(ControlRequest::Database6 { area, ls_type })
    } else if same_text(subject, "routes6") {
        Some(ControlRequest::Routes6)
    } else {
        None
    }
}

/// The query that the arguments stand for: the word `query`, then the subject, then the options.
pub fn parse_query_args(args: &Vec<String>) -> (r: Result<QueryArgs, CliError>)
    ensures
        agree(r, query_of(texts(args@))),
{
    let ghost all = texts(args@);
    if args.len() < 2 {
        return Err(CliError::MissingSubject);
    }
    let mut control_socket: String = DEFAULT_CONTROL_SOCKET.to_owned();
    let mut area: Option<String> = None;
    let mut ls_type: Option<String> = None;
    let mut output = OutputFormat::Text;
    let mut i: usize = 2;
    while i < args.len()
        invariant
            2 <= args@.len(),
            all == texts(args@),
            query_from(all, 2, default_query()) == query_from(
                all,
                i as int,
                QueryOptionsView {
                    control_socket: control_socket@,
                    area: config::opt_text(area),
                    ls_type: config::opt_text(ls_type),
                    output,
                },
            ),
        decreases args.len() - i,
    {
        let arg: &str = args[i].as_str();
        assert(all[i as int] == arg@);
        let socket = same_text(arg, "--control-socket");
        let by_area = same_text(arg, "--area");
        let by_type = same_text(arg, "--type");
        if !socket && !by_area && !by_type && !same_text(arg, "-o") && !same_text(arg, "--output") {
            return Err(CliError::UnknownQueryArgument { value: arg.to_owned() });
        }
        if args.len() - i < 2 {
            return Err(CliError::MissingValue { option: arg.to_owned() });
        }
        let value: &str = args[i + 1].as_str();
        assert(all[i + 1] == value@);
        if socket {
            control_socket = value.to_owned();
        } else if by_area {
            area = Some(value.to_owned());
        } else if by_type {
            ls_type = Some(value.to_owned());
        } else if same_text(value, "text") {
            output = OutputFormat::Text;
        } else if same_text(value, "json") {
            output = OutputFormat::Json;
        } else {
            return Err(CliError::UnknownOutput { value: value.to_owned() });
        }
        i = i + 2;
    }
    assert(all[1] == args@[1]@);
    match build_request(args[1].as_str(), area, ls_type) {
        Some(request) => Ok(QueryArgs { control_socket, request, output }),
        None => Err(CliError::UnknownSubject { value: args[1].as_str().to_owned() }),
    }
}

/// What the arguments ask for.
pub fn parse_args(args: &Vec<String>) -> (r: Result<Command, CliError>)
    ensures
        agree(r, command_of(texts(args@))),
{
    if args.len() == 0 {
        return Err(CliError::NoArguments);
    }
    if same_text(args[0].as_str(), "query") {
        match parse_query_args(args) {
            Ok(q) => Ok(Command::Query(q)),
            Err(e) => Err(e),
        }
    } else {
        match parse_run_args(args) {
            Ok(a) => Ok(Command::Run(a)),
            Err(e) => Err(e),
        }
    }
}

/// What an option without its value is met with.
pub open spec fn missing_text(option: Seq<char>) -> Seq<char> {
    if option == "--config"@ || option == "--control-socket"@ {
        option + " requires a path"@
    } else if option == "--vpp-api"@ {
        option + " requires a socket path"@
    } else if option == "--vrf"@ {
        option + " requires a name"@
    } else if option == "--io"@ {
        option + " requires 'raw' or 'punt'"@
    } else if option == "-o"@ || option == "--output"@ {
        "-o/--output requires 'text' or 'json'"@
    } else {
        option + " requires a value"@
    }
}

fn missing_message(option: &str) -> (r: String)
    ensures
        r@ == missing_text(option@),
{
    if same_text(option, "--config") || same_text(option, "--control-socket") {
        joined(option, " requires a path")
    } else if same_text(option, "--vpp-api") {
        joined(option, " requires a socket path")
    } else if same_text(option, "--vrf") {
        joined(option, " requires a name")
    } else if same_text(option, "--io") {
        joined(option, " requires 'raw' or 'punt'")
    } else if same_text(option, "-o") || same_text(option, "--output") {
        "-o/--output requires 'text' or 'json'".to_owned()
    } else {
        joined(option, " requires a value")
    }
}

impl CliErrorView {
    /// What is printed in front of the usage.
    pub open spec fn text(self) -> Seq<char> {
        match self {
            CliErrorView::NoArguments => ""@,
            CliErrorView::Help => ""@,
            CliErrorView::MissingValue { option } => missing_text(option),
            CliErrorView::UnknownBackend { value } => "Unknown --io value: "@ + value
                + " (expected raw|punt)"@,
            CliErrorView::UnknownArgument { value } => "Unknown argument: "@ + value,
            CliErrorView::MissingSubject =>
                "query requires a subject (status, neighbors, ...)"@,
            CliErrorView::UnknownOutput { value } => "Unknown output format: "@ + value
                + " (expected text|json)"@,
            CliErrorView::UnknownQueryArgument { value } => "Unknown query argument: "@ + value,
            CliErrorView::UnknownSubject { value } => "Unknown query subject: "@ + value,
        }
    }
}

/// The two texts one behind the other.
fn joined(front: &str, back: &str) -> (r: String)
    ensures
        r@ == front@ + back@,
{
    let mut s: String = front.to_owned();
    s.append(back);
    s
}

impl CliError {
    /// The exit status: usage that was asked for is no failure.
    pub fn exit_code(&self) -> (c: i32)
        ensures
            c == (if self@ == CliErrorView::Help {
                0int
            } else {
                1
            }),
    {
        match self {
            CliError::Help => 0,
            _ => 1,
        }
    }

    /// What is printed in front of the usage.
    pub fn message(&self) -> (r: String)
        ensures
            r@ == self@.text(),
    {
        match self {
            CliError::NoArguments => "".to_owned(),
            CliError::Help => "".to_owned(),
            CliError::MissingValue { option } => missing_message(option.as_str()),
            CliError::UnknownBackend { value } => joined(
                joined("Unknown --io value: ", value.as_str()).as_str(),
                " (expected raw|punt)",
            ),
            CliError::UnknownArgument { value } => joined("Unknown argument: ", value.as_str()),
            CliError::MissingSubject =>
                "query requires a subject (status, neighbors, ...)".to_owned(),
            CliError::UnknownOutput { value } => joined(
                joined("Unknown output format: ", value.as_str()).as_str(),
                " (expected text|json)",
            ),
            CliError::UnknownQueryArgument { value } => joined(
                "Unknown query argument: ",
                value.as_str(),
            ),
            CliError::UnknownSubject { value } => joined(
                "Unknown query subject: ",
                value.as_str(),
            ),
        }
    }
}

/// Where the control socket of a VRF stands.
pub open spec fn socket_of(vrf: Option<Seq<char>>) -> Seq<char> {
    match vrf {
        None => DEFAULT_CONTROL_SOCKET@,
        Some(v) => "/run/ospfd@"@ + v + ".sock"@,
    }
}

/// Where the control socket of a VRF stands.
pub fn control_socket_path(vrf_name: &Option<String>) -> (r: String)
    ensures
        r@ == socket_of(config::opt_text(*vrf_name)),
{
    match vrf_name {
        None => DEFAULT_CONTROL_SOCKET.to_owned(),
        Some(v) => joined(joined("/run/ospfd@", v.as_str()).as_str(), ".sock"),
    }
}

/// The name under which the instance of a VRF announces routes.
pub fn client_name(vrf_name: &Option<String>) -> (r: String)
    ensures
        r@ == (match config::opt_text(*vrf_name) {
            None => "ospfd"@,
            Some(v) => "ospfd@"@ + v,
        }),
{
    match vrf_name {
        None => "ospfd".to_owned(),
        Some(v) => joined("ospfd@", v.as_str()),
    }
}

/// Where the lock file of the process stands.
pub fn lock_path(control_socket: &str) -> (r: String)
    ensures
        r@ == control_socket@ + ".lock"@,
{
    joined(control_socket, ".lock")
}

/// VRFs with different names have different control sockets, and none has that of the default
/// VRF.
pub proof fn lemma_socket_distinct(a: Option<Seq<char>>, b: Option<Seq<char>>)
    requires
        a != b,
    ensures
        socket_of(a) != socket_of(b),
{
    reveal_strlit("/run/ospfd.sock");
    reveal_strlit("/run/ospfd@");
    reveal_strlit(".sock");
    match (a, b) {
        (Some(x), Some(y)) => {
            let s = socket_of(a);
            let t = socket_of(b);
            if s == t {
                assert(s.len() == 11 + x.len() + 5);
                assert(t.len() == 11 + y.len() + 5);
                assert(s.subrange(11, 11 + x.len() as int) =~= x);
                assert(t.subrange(11, 11 + y.len() as int) =~= y);
            }
        },
        (None, Some(_)) => {
            assert(socket_of(a)[10] == '.');
            assert(socket_of(b)[10] == '@');
        },
        (Some(_), None) => {
            assert(socket_of(b)[10] == '.');
            assert(socket_of(a)[10] == '@');
        },
        _ => {},
    }
}

} // verus!
