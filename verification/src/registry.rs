//! Servers of tools: their kinds and addresses, the tools they offer, and the routes by which the
//! model reaches them.

use vstd::prelude::*;
use vstd::utf8::encode_utf8;

use crate::config::{
    agrees_check, has_server, server_id_error, validate_mcp_server_id, McpConfig, McpServerConfig,
    ServerModel,
};
use crate::hashing::{
    hash_of, hex_text, hexadecimal, law_hexadecimal_has_its_width, text_hash, HASH_SEED,
};
use crate::json::{json_string, quote, Json};
use crate::numbers::{decimal, decimal_text, size_text};
use crate::order::{
    ascending, before, lemma_before_total, lemma_before_transitive, same_texts, sorted_texts,
    text_before,
};
use crate::pipeline::{qualified_name, qualify_tool_name};
use crate::text::{
    after_prefix, agrees, chars_of, copy_texts, has_part, holds_text, join, joined, lemma_grown,
    lemma_pair_behind, lemma_split_at_last, lemma_views_push, rsplit_once_char, same, split_at_last,
    trim, trimmed, view_option, views, without_prefix,
};
use crate::tools::{
    outcome_name, CallModel, DefinitionModel, ToolCall, ToolDefinition, ToolOutcome,
};

verus! {

broadcast use lemma_views_push;

// Kinds of servers.

/// The address of a local server of tools.
pub const MCP_SERVER_URL: &'static str = "http://127.0.0.1:8000/mcp";

/// The servers that the program can run itself.
#[derive(Debug, Clone, Copy, PartialEq, Eq, Structural)]
pub enum McpServerKind {
    Github,
    Reporting,
    Workspace,
    Calendar,
    Ai,
    Telegram,
    Orchestrator,
}

/// The name of a kind of server.
pub open spec fn kind_name(kind: McpServerKind) -> Seq<char> {
    match kind {
        McpServerKind::Github => "github"@,
        McpServerKind::Reporting => "reporting"@,
        McpServerKind::Workspace => "workspace"@,
        McpServerKind::Calendar => "calendar"@,
        McpServerKind::Ai => "ai"@,
        McpServerKind::Telegram => "telegram"@,
        McpServerKind::Orchestrator => "orchestrator"@,
    }
}

/// The kind of server with a name.
pub open spec fn kind_named(value: Seq<char>) -> Result<McpServerKind, Seq<char>> {
    if value == "github"@ {
        Ok(McpServerKind::Github)
    } else if value == "reporting"@ {
        Ok(McpServerKind::Reporting)
    } else if value == "workspace"@ {
        Ok(McpServerKind::Workspace)
    } else if value == "calendar"@ {
        Ok(McpServerKind::Calendar)
    } else if value == "ai"@ {
        Ok(McpServerKind::Ai)
    } else if value == "telegram"@ {
        Ok(McpServerKind::Telegram)
    } else if value == "orchestrator"@ {
        Ok(McpServerKind::Orchestrator)
    } else {
        Err("неизвестный MCP-сервер: "@ + value)
    }
}

/// A kind of server shows what a mathematical result says.
pub open spec fn agrees_kind(
    r: Result<McpServerKind, String>,
    s: Result<McpServerKind, Seq<char>>,
) -> bool {
    match (r, s) {
        (Ok(kind), Ok(model)) => kind == model,
        (Err(message), Err(model)) => message@ == model,
        _ => false,
    }
}

impl McpServerKind {
    /// The name of the kind.
    pub fn as_str(self) -> (r: &'static str)
        ensures
            r@ == kind_name(self),
    {
        match self {
            McpServerKind::Github => "github",
            McpServerKind::Reporting => "reporting",
            McpServerKind::Workspace => "workspace",
            McpServerKind::Calendar => "calendar",
            McpServerKind::Ai => "ai",
            McpServerKind::Telegram => "telegram",
            McpServerKind::Orchestrator => "orchestrator",
        }
    }

    /// The kind with a name.
    pub fn parse(value: &str) -> (r: Result<McpServerKind, String>)
        ensures
            agrees_kind(r, kind_named(value@)),
    {
        if same(value, "github") {
            Ok(McpServerKind::Github)
        } else if same(value, "reporting") {
            Ok(McpServerKind::Reporting)
        } else if same(value, "workspace") {
            Ok(McpServerKind::Workspace)
        } else if same(value, "calendar") {
            Ok(McpServerKind::Calendar)
        } else if same(value, "ai") {
            Ok(McpServerKind::Ai)
        } else if same(value, "telegram") {
            Ok(McpServerKind::Telegram)
        } else if same(value, "orchestrator") {
            Ok(McpServerKind::Orchestrator)
        } else {
            Err("неизвестный MCP-сервер: ".to_owned().concat(value))
        }
    }
}

/// The name of a kind leads back to the kind.
pub proof fn law_kind_round_trip(kind: McpServerKind)
    ensures
        kind_named(kind_name(kind)) == Ok::<McpServerKind, Seq<char>>(kind),
{
    reveal_strlit("github");
    reveal_strlit("reporting");
    reveal_strlit("workspace");
    reveal_strlit("calendar");
    reveal_strlit("ai");
    reveal_strlit("telegram");
    reveal_strlit("orchestrator");
    assert("github"@.len() == 6 && "ai"@.len() == 2 && "orchestrator"@.len() == 12);
    assert("reporting"@.len() == 9 && "workspace"@.len() == 9);
    assert("calendar"@.len() == 8 && "telegram"@.len() == 8);
    assert("reporting"@[0] == 'r' && "workspace"@[0] == 'w');
    assert("calendar"@[0] == 'c' && "telegram"@[0] == 't');
}

// How the program is started.

/// How the program is started.
#[derive(Debug, PartialEq, Eq)]
pub enum StartupMode {
    Interactive(bool),
    Server(McpServerKind, String),
}

/// How the program is started, mathematically.
pub ghost enum StartupModel {
    Interactive(bool),
    Server(McpServerKind, Seq<char>),
}

impl View for StartupMode {
    type V = StartupModel;

    open spec fn view(&self) -> StartupModel {
        match self {
            StartupMode::Interactive(dump_metrics) => StartupModel::Interactive(*dump_metrics),
            StartupMode::Server(kind, address) => StartupModel::Server(*kind, address@),
        }
    }
}

/// Whether the arguments, none of which starts a server, ask for the log of metrics.
pub open spec fn metrics_flag(args: Seq<Seq<char>>) -> Result<bool, Seq<char>>
    decreases args.len(),
{
    if args.len() == 0 {
        Ok(false)
    } else {
        match metrics_flag(args.drop_last()) {
            Err(message) => Err(message),
            Ok(given) => if args.last() != "--dump-metrics"@ {
                Err(
                    "неизвестный аргумент: "@ + args.last()
                        + ". Доступны --dump-metrics и --mcp-server <kind> --addr <loopback:port>"@,
                )
            } else if given {
                Err("аргумент указан более одного раза: "@ + args.last())
            } else {
                Ok(true)
            },
        }
    }
}

/// How the arguments ask to start the program.
pub open spec fn startup_in(args: Seq<Seq<char>>) -> Result<StartupModel, Seq<char>> {
    if args.len() > 0 && args[0] == "--mcp-server"@ {
        if args.len() == 4 && args[2] == "--addr"@ {
            match kind_named(args[1]) {
                Err(message) => Err(message),
                Ok(kind) => Ok(StartupModel::Server(kind, args[3])),
            }
        } else {
            Err("использование: --mcp-server <kind> --addr <loopback:port>"@)
        }
    } else {
        match metrics_flag(args) {
            Err(message) => Err(message),
            Ok(flag) => Ok(StartupModel::Interactive(flag)),
        }
    }
}

proof fn lemma_metrics_error(args: Seq<Seq<char>>, n: int)
    requires
        0 <= n <= args.len(),
        metrics_flag(args.take(n)) is Err,
    ensures
        metrics_flag(args) == metrics_flag(args.take(n)),
    decreases args.len(),
{
    if n == args.len() {
        assert(args.take(n) =~= args);
    } else {
        assert(args.drop_last().take(n) =~= args.take(n));
        lemma_metrics_error(args.drop_last(), n);
    }
}

/// Reads how the arguments ask to start the program. The address of a server is not read here.
pub fn parse_startup_mode(args: &Vec<String>) -> (r: Result<StartupMode, String>)
    ensures
        agrees(r, startup_in(views(args@))),
{
    let ghost model = views(args@);
    if args.len() > 0 && same(args[0].as_str(), "--mcp-server") {
        if args.len() != 4 || !same(args[2].as_str(), "--addr") {
            return Err("использование: --mcp-server <kind> --addr <loopback:port>".to_owned());
        }
        return match McpServerKind::parse(args[1].as_str()) {
            Ok(kind) => Ok(StartupMode::Server(kind, args[3].clone())),
            Err(message) => Err(message),
        };
    }
    let mut dump_metrics = false;
    let mut i: usize = 0;
    proof {
        assert(model.take(0).len() == 0);
    }
    while i < args.len()
        invariant
            i <= args@.len(),
            model == views(args@),
            !(model.len() > 0 && model[0] == "--mcp-server"@),
            metrics_flag(model.take(i as int)) == Ok::<bool, Seq<char>>(dump_metrics),
        decreases args.len() - i,
    {
        proof {
            assert(model.take(i + 1).drop_last() =~= model.take(i as int));
            assert(model.take(i + 1).last() == args@[i as int]@);
        }
        if !same(args[i].as_str(), "--dump-metrics") {
            proof {
                lemma_metrics_error(model, i + 1);
            }
            return Err(
                "неизвестный аргумент: ".to_owned().concat(args[i].as_str()).concat(
                    ". Доступны --dump-metrics и --mcp-server <kind> --addr <loopback:port>",
                ),
            );
        }
        if dump_metrics {
            proof {
                lemma_metrics_error(model, i + 1);
            }
            return Err(
                "аргумент указан более одного раза: ".to_owned().concat(args[i].as_str()),
            );
        }
        dump_metrics = true;
        i += 1;
    }
    proof {
        assert(model.take(i as int) =~= model);
    }
    Ok(StartupMode::Interactive(dump_metrics))
}

/// Whether the arguments ask for the log of metrics.
pub fn parse_dump_metrics_flag(args: &Vec<String>) -> (r: Result<bool, String>)
    ensures
        match (r, startup_in(views(args@))) {
            (Ok(flag), Ok(StartupModel::Interactive(model))) => flag == model,
            (Err(message), Ok(StartupModel::Server(_, _))) => message@
                == "режим MCP-сервера нельзя использовать как флаг метрик"@,
            (Err(message), Err(model)) => message@ == model,
            _ => false,
        },
{
    match parse_startup_mode(args) {
        Ok(StartupMode::Interactive(dump_metrics)) => Ok(dump_metrics),
        Ok(StartupMode::Server(_, _)) => Err(
            "режим MCP-сервера нельзя использовать как флаг метрик".to_owned(),
        ),
        Err(message) => Err(message),
    }
}

/// Checks the address of a server: `loopback` says whether the address, if it is one, is local.
pub fn check_bind_address(loopback: Option<bool>) -> (r: Result<(), String>)
    ensures
        r is Ok <==> loopback == Some(true),
        r is Err ==> r->Err_0@ == if loopback is None {
            "некорректный адрес MCP-сервера"@
        } else {
            "MCP-сервер должен слушать loopback-адрес"@
        },
{
    match loopback {
        None => Err("некорректный адрес MCP-сервера".to_owned()),
        Some(local) => if local {
            Ok(())
        } else {
            Err("MCP-сервер должен слушать loopback-адрес".to_owned())
        },
    }
}

// Addresses.

/// What is read of an address.
#[derive(Debug, PartialEq, Eq)]
pub struct UrlParts {
    pub scheme: String,
    pub has_host: bool,
    pub text: String,
}

/// What is read of an address, mathematically.
pub ghost struct UrlModel {
    pub scheme: Seq<char>,
    pub has_host: bool,
    pub text: Seq<char>,
}

impl View for UrlParts {
    type V = UrlModel;

    open spec fn view(&self) -> UrlModel {
        UrlModel { scheme: self.scheme@, has_host: self.has_host, text: self.text@ }
    }
}

/// What `reqwest::Url` reads of an address.
pub uninterp spec fn url_parts(value: Seq<char>) -> Option<UrlModel>;

/// Reads an address with `reqwest::Url::parse`: its scheme, whether it names a host, and its
/// normalised text; or nothing, where it is no address.
#[verifier::external_body]
pub(crate) fn read_url(value: &str) -> (r: Option<UrlParts>)
    ensures
        view_option(r) == url_parts(value@),
{
    match reqwest::Url::parse(value) {
        Ok(url) => Some(
            UrlParts {
                scheme: url.scheme().to_owned(),
                has_host: url.host_str().is_some(),
                text: url.to_string(),
            },
        ),
        Err(_) => None,
    }
}

/// The address that was read, or why it is refused.
pub open spec fn accepted_url(parts: Option<UrlModel>) -> Result<Seq<char>, Seq<char>> {
    match parts {
        None => Err("адрес MCP некорректен"@),
        Some(parts) => if parts.scheme != "http"@ && parts.scheme != "https"@ {
            Err("адрес MCP должен начинаться с http:// или https://"@)
        } else if !parts.has_host {
            Err("в адресе MCP не указан хост"@)
        } else {
            Ok(parts.text)
        },
    }
}

/// Checks an address that was read.
pub fn accept_url(parts: Option<UrlParts>) -> (r: Result<String, String>)
    ensures
        agrees(r, accepted_url(view_option(parts))),
{
    match parts {
        None => Err("адрес MCP некорректен".to_owned()),
        Some(parts) => if !same(parts.scheme.as_str(), "http") && !same(
            parts.scheme.as_str(),
            "https",
        ) {
            Err("адрес MCP должен начинаться с http:// или https://".to_owned())
        } else if !parts.has_host {
            Err("в адресе MCP не указан хост".to_owned())
        } else {
            Ok(parts.text)
        },
    }
}

/// Checks the address of a server of tools and gives its normalised form.
pub fn validate_mcp_url(value: &str) -> (r: Result<String, String>)
    ensures
        agrees(r, accepted_url(url_parts(trim(value@)))),
{
    accept_url(read_url(trimmed(value).as_str()))
}

// Tools of a server.

/// What a server tells of a tool.
#[derive(Debug, PartialEq, Eq)]
pub struct McpToolInfo {
    pub name: String,
    pub description: Option<String>,
    pub input_schema: Json,
    pub read_only: bool,
    pub destructive: bool,
}

impl View for McpToolInfo {
    type V = DefinitionModel;

    open spec fn view(&self) -> DefinitionModel {
        DefinitionModel {
            name: self.name@,
            description: view_option(self.description),
            input_schema: self.input_schema@,
            read_only: self.read_only,
            destructive: self.destructive,
        }
    }
}

/// The names of tools.
pub open spec fn tool_names(tools: Seq<DefinitionModel>) -> Seq<Seq<char>> {
    Seq::new(tools.len(), |i: int| tools[i].name)
}

fn names_of(tools: &Vec<McpToolInfo>) -> (r: Vec<String>)
    ensures
        views(r@) == tool_names(views(tools@)),
{
    let ghost all = tool_names(views(tools@));
    let mut names: Vec<String> = Vec::new();
    let mut i: usize = 0;
    while i < tools.len()
        invariant
            i <= tools@.len(),
            all == tool_names(views(tools@)),
            views(names@) == all.take(i as int),
        decreases tools.len() - i,
    {
        let name = tools[i].name.clone();
        proof {
            assert(all.take(i as int).push(name@) =~= all.take(i + 1));
        }
        names.push(name);
        i += 1;
    }
    proof {
        assert(all.take(i as int) =~= all);
    }
    names
}

/// Those of the names that are among others.
pub open spec fn names_among(names: Seq<Seq<char>>, others: Seq<Seq<char>>) -> Seq<Seq<char>>
    decreases names.len(),
{
    if names.len() == 0 {
        Seq::empty()
    } else if others.contains(names.last()) {
        names_among(names.drop_last(), others).push(names.last())
    } else {
        names_among(names.drop_last(), others)
    }
}

/// The names of disabled tools that the server still has, each once and in order.
pub fn reconcile_disabled_tools(available: &Vec<McpToolInfo>, disabled: &Vec<String>) -> (r: Vec<
    String,
>)
    ensures
        ascending(views(r@)),
        same_texts(views(r@), names_among(views(disabled@), tool_names(views(available@)))),
{
    let names = names_of(available);
    let ghost model = views(disabled@);
    let ghost others = tool_names(views(available@));
    let mut kept: Vec<String> = Vec::new();
    let mut i: usize = 0;
    proof {
        assert(model.take(0).len() == 0);
        assert(views(kept@) =~= Seq::<Seq<char>>::empty());
    }
    while i < disabled.len()
        invariant
            i <= disabled@.len(),
            model == views(disabled@),
            others == views(names@),
            views(kept@) == names_among(model.take(i as int), others),
        decreases disabled.len() - i,
    {
        proof {
            assert(model.take(i + 1).drop_last() =~= model.take(i as int));
            assert(model.take(i + 1).last() == disabled@[i as int]@);
        }
        if holds_text(names.as_slice(), disabled[i].as_str()) {
            kept.push(disabled[i].clone());
        }
        i += 1;
    }
    proof {
        assert(model.take(i as int) =~= model);
    }
    sorted_texts(&kept)
}

/// The tools that are not disabled.
pub open spec fn enabled_tools(
    tools: Seq<DefinitionModel>,
    disabled: Seq<Seq<char>>,
) -> Seq<DefinitionModel>
    decreases tools.len(),
{
    if tools.len() == 0 {
        Seq::empty()
    } else if disabled.contains(tools.last().name) {
        enabled_tools(tools.drop_last(), disabled)
    } else {
        enabled_tools(tools.drop_last(), disabled).push(tools.last())
    }
}

fn copy_definition(tool: &McpToolInfo) -> (r: ToolDefinition)
    ensures
        r@ == tool@,
{
    let description = match &tool.description {
        Some(text) => Some(text.clone()),
        None => None,
    };
    ToolDefinition {
        name: tool.name.clone(),
        description,
        input_schema: tool.input_schema.copy(),
        read_only: tool.read_only,
        destructive: tool.destructive,
    }
}

/// The definitions of the tools that are not disabled.
pub fn enabled_tool_definitions(available: &Vec<McpToolInfo>, disabled: &Vec<String>) -> (r: Vec<
    ToolDefinition,
>)
    ensures
        views(r@) == enabled_tools(views(available@), views(disabled@)),
{
    let ghost model = views(available@);
    let mut out: Vec<ToolDefinition> = Vec::new();
    let mut i: usize = 0;
    proof {
        assert(model.take(0).len() == 0);
        assert(views(out@) =~= Seq::<DefinitionModel>::empty());
    }
    while i < available.len()
        invariant
            i <= available@.len(),
            model == views(available@),
            views(out@) == enabled_tools(model.take(i as int), views(disabled@)),
        decreases available.len() - i,
    {
        proof {
            assert(model.take(i + 1).drop_last() =~= model.take(i as int));
            assert(model.take(i + 1).last() == available@[i as int]@);
        }
        if !holds_text(disabled.as_slice(), available[i].name.as_str()) {
            out.push(copy_definition(&available[i]));
        }
        i += 1;
    }
    proof {
        assert(model.take(i as int) =~= model);
    }
    out
}

/// The names of the tools at these positions; a position without a tool is passed over.
pub open spec fn names_at(tools: Seq<DefinitionModel>, selected: Seq<usize>) -> Seq<Seq<char>>
    decreases selected.len(),
{
    if selected.len() == 0 {
        Seq::empty()
    } else if selected.last() < tools.len() {
        names_at(tools, selected.drop_last()).push(tools[selected.last() as int].name)
    } else {
        names_at(tools, selected.drop_last())
    }
}

/// The names of the tools at these positions, each once and in order.
pub fn selected_tool_names(tools: &Vec<McpToolInfo>, selected: &Vec<usize>) -> (r: Vec<String>)
    ensures
        ascending(views(r@)),
        same_texts(views(r@), names_at(views(tools@), selected@)),
{
    let ghost model = views(tools@);
    let mut names: Vec<String> = Vec::new();
    let mut i: usize = 0;
    proof {
        assert(selected@.take(0).len() == 0);
        assert(views(names@) =~= Seq::<Seq<char>>::empty());
    }
    while i < selected.len()
        invariant
            i <= selected@.len(),
            model == views(tools@),
            views(names@) == names_at(model, selected@.take(i as int)),
        decreases selected.len() - i,
    {
        proof {
            assert(selected@.take(i + 1).drop_last() =~= selected@.take(i as int));
            assert(selected@.take(i + 1).last() == selected@[i as int]);
        }
        let at = selected[i];
        if at < tools.len() {
            names.push(tools[at].name.clone());
        }
        i += 1;
    }
    proof {
        assert(selected@.take(i as int) =~= selected@);
    }
    sorted_texts(&names)
}

/// The names of the tools that are not selected.
pub open spec fn unselected_names(
    tools: Seq<DefinitionModel>,
    selected: Seq<usize>,
) -> Seq<Seq<char>> {
    tool_names(enabled_tools(tools, names_at(tools, selected)))
}

/// The names of the tools that a choice leaves disabled, each once and in order.
pub fn disabled_by_choice(tools: &Vec<McpToolInfo>, selected: &Vec<usize>) -> (r: Vec<String>)
    ensures
        ascending(views(r@)),
        same_texts(views(r@), unselected_names(views(tools@), selected@)),
{
    let enabled = selected_tool_names(tools, selected);
    let ghost model = views(tools@);
    let ghost chosen = names_at(model, selected@);
    let mut names: Vec<String> = Vec::new();
    let mut i: usize = 0;
    proof {
        assert(model.take(0).len() == 0);
        assert(views(names@) =~= tool_names(enabled_tools(model.take(0), chosen)));
    }
    while i < tools.len()
        invariant
            i <= tools@.len(),
            model == views(tools@),
            same_texts(views(enabled@), chosen),
            views(names@) == tool_names(enabled_tools(model.take(i as int), chosen)),
        decreases tools.len() - i,
    {
        let ghost before = enabled_tools(model.take(i as int), chosen);
        proof {
            assert(model.take(i + 1).drop_last() =~= model.take(i as int));
            assert(model.take(i + 1).last() == tools@[i as int]@);
        }
        let name = tools[i].name.clone();
        if !holds_text(enabled.as_slice(), name.as_str()) {
            proof {
                assert(!chosen.contains(name@));
                assert(tool_names(before).push(name@) =~= tool_names(
                    before.push(model[i as int]),
                ));
            }
            names.push(name);
        } else {
            proof {
                assert(chosen.contains(name@));
            }
        }
        i += 1;
    }
    proof {
        assert(model.take(i as int) =~= model);
    }
    sorted_texts(&names)
}

/// The line of a tool in a menu.
pub fn tool_label(tool: &McpToolInfo) -> (r: String)
    ensures
        r@ == match tool@.description {
            Some(text) => tool@.name + " — "@ + text,
            None => tool@.name,
        },
{
    match &tool.description {
        Some(text) => tool.name.clone().concat(" — ").concat(text.as_str()),
        None => tool.name.clone(),
    }
}

/// What is shown of the disabled tools.
pub fn disabled_text(disabled: &Vec<String>) -> (r: String)
    ensures
        r@ == if disabled@.len() == 0 {
            "нет"@
        } else {
            join(views(disabled@), ", "@)
        },
{
    if disabled.len() == 0 {
        "нет".to_owned()
    } else {
        joined(disabled.as_slice(), ", ")
    }
}

// Registered servers.

/// The servers in the order of their identifiers; a server stands behind those that are not greater.
pub open spec fn server_inserted(servers: Seq<ServerModel>, server: ServerModel) -> Seq<ServerModel>
    decreases servers.len(),
{
    if servers.len() > 0 && before(server.id, servers.last().id) {
        server_inserted(servers.drop_last(), server).push(servers.last())
    } else {
        servers.push(server)
    }
}

/// The servers sorted by their identifiers.
pub open spec fn servers_sorted(servers: Seq<ServerModel>) -> Seq<ServerModel>
    decreases servers.len(),
{
    if servers.len() == 0 {
        servers
    } else {
        server_inserted(servers_sorted(servers.drop_last()), servers.last())
    }
}

/// The identifiers of servers.
pub open spec fn server_ids(servers: Seq<ServerModel>) -> Seq<Seq<char>> {
    Seq::new(servers.len(), |i: int| servers[i].id)
}

fn insert_server(servers: &mut Vec<McpServerConfig>, server: McpServerConfig)
    ensures
        views(final(servers)@) == server_inserted(views(old(servers)@), server@),
{
    let ghost start = views(servers@);
    let ghost view = server@;
    let mut at: usize = servers.len();
    proof {
        assert(start.take(at as int) =~= start);
        assert(start.skip(at as int).len() == 0);
        assert(server_inserted(start, view) =~= server_inserted(start.take(at as int), view)
            + start.skip(at as int));
    }
    while at > 0 && text_before(server.id.as_str(), servers[at - 1].id.as_str())
        invariant
            at <= servers@.len(),
            start == views(servers@),
            start == views(old(servers)@),
            view == server@,
            server_inserted(start, view) == server_inserted(start.take(at as int), view)
                + start.skip(at as int),
        decreases at,
    {
        proof {
            let head = start.take(at as int);
            assert(head.drop_last() =~= start.take(at - 1));
            assert(head.last() == servers@[at - 1]@);
            assert(server_inserted(head.drop_last(), view).push(head.last()) + start.skip(
                at as int,
            ) =~= server_inserted(start.take(at - 1), view) + start.skip(at - 1));
        }
        at -= 1;
    }
    proof {
        let head = start.take(at as int);
        if at > 0 {
            assert(head.last() == servers@[at - 1]@);
        }
        assert(server_inserted(head, view) == head.push(view));
        assert(head.push(view) + start.skip(at as int) =~= start.insert(at as int, view));
    }
    servers.insert(at, server);
    proof {
        assert(views(servers@) =~= start.insert(at as int, view));
    }
}

fn sort_servers(servers: &Vec<McpServerConfig>) -> (r: Vec<McpServerConfig>)
    ensures
        views(r@) == servers_sorted(views(servers@)),
{
    let ghost model = views(servers@);
    let mut out: Vec<McpServerConfig> = Vec::new();
    let mut i: usize = 0;
    proof {
        assert(model.take(0).len() == 0);
        assert(views(out@) =~= servers_sorted(model.take(0)));
    }
    while i < servers.len()
        invariant
            i <= servers@.len(),
            model == views(servers@),
            views(out@) == servers_sorted(model.take(i as int)),
        decreases servers.len() - i,
    {
        proof {
            assert(model.take(i + 1).drop_last() =~= model.take(i as int));
            assert(model.take(i + 1).last() == servers@[i as int]@);
        }
        insert_server(&mut out, servers[i].clone());
        i += 1;
    }
    proof {
        assert(model.take(i as int) =~= model);
    }
    out
}

/// Why a server cannot be registered under an identifier.
pub open spec fn registration_error(servers: Seq<ServerModel>, id: Seq<char>) -> Option<Seq<char>> {
    match server_id_error(id) {
        Some(message) => Some(message),
        None => if has_server(servers, id) {
            Some("MCP-сервер с ID «"@ + id + "» уже зарегистрирован"@)
        } else {
            None
        },
    }
}

/// Checks the identifier of a server that is to be registered.
pub fn check_registration(config: &McpConfig, id: &str) -> (r: Result<(), String>)
    ensures
        agrees_check(r, registration_error(config@, id@)),
{
    if let Err(message) = validate_mcp_server_id(id) {
        return Err(message);
    }
    let ghost model = config@;
    let mut i: usize = 0;
    while i < config.servers.len()
        invariant
            i <= config.servers@.len(),
            model == config@,
            model == views(config.servers@),
            server_id_error(id@) is None,
            forall|k: int| 0 <= k < i ==> (#[trigger] model[k]).id != id@,
        decreases config.servers.len() - i,
    {
        if same(config.servers[i].id.as_str(), id) {
            proof {
                assert(model[i as int].id == id@);
            }
            return Err(
                "MCP-сервер с ID «".to_owned().concat(id).concat("» уже зарегистрирован"),
            );
        }
        proof {
            assert(model[i as int].id == config.servers@[i as int].id@);
        }
        i += 1;
    }
    Ok(())
}

/// The server that is registered: all its tools are enabled.
pub open spec fn new_server(id: Seq<char>, url: Seq<char>) -> ServerModel {
    ServerModel { id, url, disabled_tools: Seq::empty() }
}

impl McpConfig {
    /// Registers a server with all its tools enabled.
    pub fn register(&mut self, id: String, url: String)
        ensures
            final(self)@ == servers_sorted(old(self)@.push(new_server(id@, url@))),
    {
        let ghost start = self@;
        let server = McpServerConfig { id, url, disabled_tools: Vec::new() };
        let ghost view = server@;
        proof {
            assert(view.disabled_tools =~= Seq::empty());
        }
        self.servers.push(server);
        let sorted = sort_servers(&self.servers);
        self.servers = sorted;
    }

    /// Forgets the server at a position.
    pub fn forget(&mut self, index: usize)
        requires
            index < old(self)@.len(),
        ensures
            final(self)@ == old(self)@.remove(index as int),
    {
        let ghost start = self@;
        self.servers.remove(index);
        proof {
            assert(self@ =~= start.remove(index as int));
        }
    }

    /// Changes the address of the server at a position.
    pub fn move_server(&mut self, index: usize, url: String)
        requires
            index < old(self)@.len(),
        ensures
            final(self)@ == old(self)@.update(
                index as int,
                ServerModel { url: url@, ..old(self)@[index as int] },
            ),
    {
        let ghost start = self@;
        let server = McpServerConfig {
            id: self.servers[index].id.clone(),
            url,
            disabled_tools: copy_texts(self.servers[index].disabled_tools.as_slice()),
        };
        let ghost view = server@;
        self.servers.set(index, server);
        proof {
            assert(self@ =~= start.update(index as int, view));
        }
    }

    /// Changes which tools of the server at a position are disabled.
    pub fn disable_tools(&mut self, index: usize, disabled: Vec<String>)
        requires
            index < old(self)@.len(),
        ensures
            final(self)@ == old(self)@.update(
                index as int,
                ServerModel { disabled_tools: views(disabled@), ..old(self)@[index as int] },
            ),
    {
        let ghost start = self@;
        let server = McpServerConfig {
            id: self.servers[index].id.clone(),
            url: self.servers[index].url.clone(),
            disabled_tools: disabled,
        };
        let ghost view = server@;
        self.servers.set(index, server);
        proof {
            assert(self@ =~= start.update(index as int, view));
        }
    }
}

proof fn lemma_inserted_sorted(servers: Seq<ServerModel>, server: ServerModel)
    requires
        ascending(server_ids(servers)),
        !has_server(servers, server.id),
    ensures
        ascending(server_ids(server_inserted(servers, server))),
        server_inserted(servers, server).len() == servers.len() + 1,
        forall|id: Seq<char>|
            has_server(server_inserted(servers, server), id) <==> has_server(servers, id) || id
                == server.id,
    decreases servers.len(),
{
    let after = server_inserted(servers, server);
    let ids = server_ids(servers);
    if servers.len() > 0 && before(server.id, servers.last().id) {
        let head = servers.drop_last();
        let last = servers.last();
        assert forall|i: int, j: int| 0 <= i < j < server_ids(head).len() implies before(
            #[trigger] server_ids(head)[i],
            #[trigger] server_ids(head)[j],
        ) by {
            assert(before(ids[i], ids[j]));
        }
        if has_server(head, server.id) {
            let k = choose|k: int| 0 <= k < head.len() && (#[trigger] head[k]).id == server.id;
            assert(servers[k].id == server.id);
        }
        lemma_inserted_sorted(head, server);
        let inner = server_inserted(head, server);
        assert forall|i: int, j: int| 0 <= i < j < server_ids(after).len() implies before(
            #[trigger] server_ids(after)[i],
            #[trigger] server_ids(after)[j],
        ) by {
            if j < inner.len() {
                assert(before(server_ids(inner)[i], server_ids(inner)[j]));
            } else {
                assert(has_server(inner, inner[i].id));
                if inner[i].id != server.id {
                    assert(has_server(head, inner[i].id));
                    let k = choose|k: int|
                        0 <= k < head.len() && (#[trigger] head[k]).id == inner[i].id;
                    assert(before(ids[k], ids[servers.len() - 1]));
                }
            }
        }
        assert forall|id: Seq<char>| has_server(after, id) implies has_server(servers, id) || id
            == server.id by {
            let k = choose|k: int| 0 <= k < after.len() && (#[trigger] after[k]).id == id;
            if k < inner.len() {
                assert(inner[k].id == id);
                assert(has_server(inner, id));
                if id != server.id {
                    assert(has_server(head, id));
                    let m = choose|m: int| 0 <= m < head.len() && (#[trigger] head[m]).id == id;
                    assert(servers[m].id == id);
                }
            } else {
                assert(servers[servers.len() - 1].id == id);
            }
        }
        assert forall|id: Seq<char>| has_server(servers, id) || id == server.id implies has_server(
            after,
            id,
        ) by {
            if id == last.id {
                assert(after[after.len() - 1].id == id);
            } else {
                if id != server.id {
                    let k = choose|k: int|
                        0 <= k < servers.len() && (#[trigger] servers[k]).id == id;
                    assert(head[k].id == id);
                }
                assert(has_server(head, id) || id == server.id);
                assert(has_server(server_inserted(head, server), id));
                let m = choose|m: int| 0 <= m < inner.len() && (#[trigger] inner[m]).id == id;
                assert(after[m].id == id);
            }
        }
    } else {
        assert forall|i: int, j: int| 0 <= i < j < server_ids(after).len() implies before(
            #[trigger] server_ids(after)[i],
            #[trigger] server_ids(after)[j],
        ) by {
            if j < servers.len() {
                assert(before(ids[i], ids[j]));
            } else {
                let last = servers.last();
                assert(servers[servers.len() - 1].id == last.id);
                lemma_before_total(server.id, last.id);
                assert(before(last.id, server.id));
                if i < servers.len() - 1 {
                    assert(before(ids[i], ids[servers.len() - 1]));
                    lemma_before_transitive(ids[i], last.id, server.id);
                }
            }
        }
        assert forall|id: Seq<char>| has_server(after, id) <==> has_server(servers, id) || id
            == server.id by {
            if has_server(after, id) {
                let k = choose|k: int| 0 <= k < after.len() && (#[trigger] after[k]).id == id;
                if k < servers.len() {
                    assert(servers[k].id == id);
                }
            }
            if has_server(servers, id) {
                let k = choose|k: int| 0 <= k < servers.len() && (#[trigger] servers[k]).id == id;
                assert(after[k].id == id);
            }
            if id == server.id {
                assert(after[servers.len() as int].id == id);
            }
        }
    }
}

proof fn lemma_sorted_servers(servers: Seq<ServerModel>)
    requires
        forall|i: int, j: int|
            0 <= i < j < servers.len() ==> (#[trigger] servers[i]).id != (
            #[trigger] servers[j]).id,
    ensures
        ascending(server_ids(servers_sorted(servers))),
        servers_sorted(servers).len() == servers.len(),
        forall|id: Seq<char>|
            has_server(servers_sorted(servers), id) <==> has_server(servers, id),
    decreases servers.len(),
{
    if servers.len() > 0 {
        let head = servers.drop_last();
        assert forall|i: int, j: int| 0 <= i < j < head.len() implies (#[trigger] head[i]).id != (
        #[trigger] head[j]).id by {
            assert(servers[i].id != servers[j].id);
        }
        lemma_sorted_servers(head);
        let sorted = servers_sorted(head);
        let last = servers.last();
        if has_server(sorted, last.id) {
            assert(has_server(head, last.id));
            let k = choose|k: int| 0 <= k < head.len() && (#[trigger] head[k]).id == last.id;
            assert(servers[k].id != servers[servers.len() - 1].id);
        }
        lemma_inserted_sorted(sorted, last);
        assert forall|id: Seq<char>|
            has_server(servers_sorted(servers), id) <==> has_server(servers, id) by {
            if has_server(servers, id) && id != last.id {
                let k = choose|k: int| 0 <= k < servers.len() && (#[trigger] servers[k]).id == id;
                assert(head[k].id == id);
                assert(has_server(head, id));
            }
            if has_server(head, id) {
                let k = choose|k: int| 0 <= k < head.len() && (#[trigger] head[k]).id == id;
                assert(servers[k].id == id);
            }
            if id == last.id {
                assert(servers[servers.len() - 1].id == id);
            }
        }
    }
}

/// Registering a server under a new identifier keeps all the others, and leaves the servers in the
/// order of their identifiers.
pub proof fn law_registration_keeps_servers(
    servers: Seq<ServerModel>,
    id: Seq<char>,
    url: Seq<char>,
)
    requires
        forall|i: int, j: int|
            0 <= i < j < servers.len() ==> (#[trigger] servers[i]).id != (
            #[trigger] servers[j]).id,
        registration_error(servers, id) is None,
    ensures
        ({
            let after = servers_sorted(servers.push(new_server(id, url)));
            &&& ascending(server_ids(after))
            &&& after.len() == servers.len() + 1
            &&& forall|other: Seq<char>|
                has_server(after, other) <==> has_server(servers, other) || other == id
        }),
{
    let all = servers.push(new_server(id, url));
    assert forall|i: int, j: int| 0 <= i < j < all.len() implies (#[trigger] all[i]).id != (
    #[trigger] all[j]).id by {
        if j < servers.len() {
            assert(servers[i].id != servers[j].id);
        } else {
            if servers[i].id == id {
                assert(has_server(servers, id));
            }
        }
    }
    lemma_sorted_servers(all);
    assert forall|other: Seq<char>|
        has_server(servers_sorted(all), other) <==> has_server(servers, other) || other == id by {
        if has_server(all, other) {
            let k = choose|k: int| 0 <= k < all.len() && (#[trigger] all[k]).id == other;
            if k < servers.len() {
                assert(servers[k].id == other);
            }
        }
        if has_server(servers, other) {
            let k = choose|k: int| 0 <= k < servers.len() && (#[trigger] servers[k]).id == other;
            assert(all[k].id == other);
        }
        if other == id {
            assert(all[servers.len() as int].id == other);
        }
    }
}

/// The line of a server in the menu of servers; `tools` is how many tools it offers, if it answers.
pub fn server_label(server: &McpServerConfig, tools: Option<usize>) -> (r: String)
    ensures
        r@ == server@.id + " — "@ + server@.url + " ("@ + (match tools {
            Some(n) => "доступен, "@ + decimal(n as nat) + " tools"@,
            None => "недоступен"@,
        }) + ")"@,
{
    let state = match tools {
        Some(n) => "доступен, ".to_owned().concat(size_text(n).as_str()).concat(" tools"),
        None => "недоступен".to_owned(),
    };
    server.id.clone().concat(" — ").concat(server.url.as_str()).concat(" (").concat(
        state.as_str(),
    ).concat(")")
}

/// The servers other than one.
pub open spec fn servers_without(servers: Seq<ServerModel>, id: Seq<char>) -> Seq<ServerModel>
    decreases servers.len(),
{
    if servers.len() == 0 {
        Seq::empty()
    } else if servers.last().id == id {
        servers_without(servers.drop_last(), id)
    } else {
        servers_without(servers.drop_last(), id).push(servers.last())
    }
}

/// The servers other than one.
pub fn other_servers(servers: &Vec<McpServerConfig>, id: &str) -> (r: Vec<McpServerConfig>)
    ensures
        views(r@) == servers_without(views(servers@), id@),
{
    let ghost model = views(servers@);
    let mut out: Vec<McpServerConfig> = Vec::new();
    let mut i: usize = 0;
    proof {
        assert(model.take(0).len() == 0);
        assert(views(out@) =~= Seq::<ServerModel>::empty());
    }
    while i < servers.len()
        invariant
            i <= servers@.len(),
            model == views(servers@),
            views(out@) == servers_without(model.take(i as int), id@),
        decreases servers.len() - i,
    {
        proof {
            assert(model.take(i + 1).drop_last() =~= model.take(i as int));
            assert(model.take(i + 1).last() == servers@[i as int]@);
        }
        if !same(servers[i].id.as_str(), id) {
            out.push(servers[i].clone());
        }
        i += 1;
    }
    proof {
        assert(model.take(i as int) =~= model);
    }
    out
}

// Routes.

/// How a public name reaches a tool.
#[derive(Debug, PartialEq, Eq)]
pub struct ToolRoute {
    pub server_id: String,
    pub native_name: String,
    pub definition: ToolDefinition,
}

/// How a public name reaches a tool, mathematically.
pub ghost struct RouteModel {
    pub server_id: Seq<char>,
    pub native_name: Seq<char>,
    pub definition: DefinitionModel,
}

impl View for ToolRoute {
    type V = RouteModel;

    open spec fn view(&self) -> RouteModel {
        RouteModel {
            server_id: self.server_id@,
            native_name: self.native_name@,
            definition: self.definition@,
        }
    }
}

/// The routes to tools, in the order of their public names, and what went wrong while they were
/// made.
#[derive(Debug, PartialEq, Eq)]
pub struct McpRouter {
    pub routes: Vec<ToolRoute>,
    pub warnings: Vec<String>,
}

/// The routes and warnings, mathematically.
pub ghost struct RouterModel {
    pub routes: Seq<RouteModel>,
    pub warnings: Seq<Seq<char>>,
}

impl View for McpRouter {
    type V = RouterModel;

    open spec fn view(&self) -> RouterModel {
        RouterModel { routes: views(self.routes@), warnings: views(self.warnings@) }
    }
}

/// The position of a public name among the routes: how many stand before it.
pub open spec fn route_place(routes: Seq<RouteModel>, name: Seq<char>) -> nat
    decreases routes.len(),
{
    if routes.len() == 0 || !before(routes[0].definition.name, name) {
        0
    } else {
        1 + route_place(routes.skip(1), name)
    }
}

/// The route of a public name.
pub open spec fn route_of(routes: Seq<RouteModel>, name: Seq<char>) -> Option<RouteModel> {
    let at = route_place(routes, name) as int;
    if at < routes.len() && routes[at].definition.name == name {
        Some(routes[at])
    } else {
        None
    }
}

/// The route of a tool of a server.
pub open spec fn tool_route(server: Seq<char>, tool: DefinitionModel) -> RouteModel {
    RouteModel {
        server_id: server,
        native_name: tool.name,
        definition: DefinitionModel { name: qualified_name(server, tool.name), ..tool },
    }
}

/// The router with the route of one more tool, or with a warning that its name is taken.
pub open spec fn with_tool(r: RouterModel, server: Seq<char>, tool: DefinitionModel) -> RouterModel {
    let name = qualified_name(server, tool.name);
    if route_of(r.routes, name) is Some {
        RouterModel {
            warnings: r.warnings.push("повторяющийся маршрут MCP: "@ + name),
            ..r
        }
    } else {
        RouterModel {
            routes: r.routes.insert(route_place(r.routes, name) as int, tool_route(server, tool)),
            ..r
        }
    }
}

/// The router with the routes of the tools of a server.
pub open spec fn with_tools(r: RouterModel, server: Seq<char>, tools: Seq<DefinitionModel>) -> RouterModel
    decreases tools.len(),
{
    if tools.len() == 0 {
        r
    } else {
        with_tool(with_tools(r, server, tools.drop_last()), server, tools.last())
    }
}

proof fn lemma_route_place(routes: Seq<RouteModel>, name: Seq<char>)
    ensures
        route_place(routes, name) <= routes.len(),
    decreases routes.len(),
{
    if routes.len() > 0 && before(routes[0].definition.name, name) {
        lemma_route_place(routes.skip(1), name);
    }
}

fn find_place(routes: &Vec<ToolRoute>, name: &str) -> (r: usize)
    ensures
        r == route_place(views(routes@), name@),
        r <= routes@.len(),
{
    let ghost model = views(routes@);
    let mut i: usize = 0;
    proof {
        lemma_route_place(model, name@);
        assert(model.skip(0) =~= model);
    }
    while i < routes.len() && text_before(routes[i].definition.name.as_str(), name)
        invariant
            i <= routes@.len(),
            model == views(routes@),
            route_place(model, name@) == i + route_place(model.skip(i as int), name@),
        decreases routes.len() - i,
    {
        proof {
            assert(model.skip(i as int).skip(1) =~= model.skip(i + 1));
        }
        i += 1;
    }
    i
}

impl McpRouter {
    /// A router without routes.
    pub fn new() -> (r: McpRouter)
        ensures
            r@.routes.len() == 0,
            r@.warnings.len() == 0,
    {
        McpRouter { routes: Vec::new(), warnings: Vec::new() }
    }

    fn add_tool(&mut self, server_id: &str, tool: &ToolDefinition)
        ensures
            final(self)@ == with_tool(old(self)@, server_id@, tool@),
    {
        let ghost start = self@;
        let name = qualify_tool_name(server_id, tool.name.as_str());
        let at = find_place(&self.routes, name.as_str());
        if at < self.routes.len() && same(self.routes[at].definition.name.as_str(), name.as_str()) {
            self.warnings.push("повторяющийся маршрут MCP: ".to_owned().concat(name.as_str()));
            return;
        }
        let mut definition = tool.copy();
        let native_name = definition.name;
        definition.name = name;
        let route = ToolRoute { server_id: server_id.to_owned(), native_name, definition };
        let ghost view = route@;
        self.routes.insert(at, route);
        proof {
            assert(self@.routes =~= start.routes.insert(at as int, view));
        }
    }

    /// Adds the routes of the enabled tools of a server that answered.
    pub fn add_server(&mut self, server: &McpServerConfig, tools: &Vec<McpToolInfo>)
        ensures
            final(self)@ == with_tools(
                old(self)@,
                server@.id,
                enabled_tools(views(tools@), server@.disabled_tools),
            ),
    {
        let ghost start = self@;
        let definitions = enabled_tool_definitions(tools, &server.disabled_tools);
        let ghost model = views(definitions@);
        let mut i: usize = 0;
        proof {
            assert(model.take(0).len() == 0);
        }
        while i < definitions.len()
            invariant
                i <= definitions@.len(),
                model == views(definitions@),
                start == old(self)@,
                self@ == with_tools(start, server@.id, model.take(i as int)),
            decreases definitions.len() - i,
        {
            proof {
                assert(model.take(i + 1).drop_last() =~= model.take(i as int));
                assert(model.take(i + 1).last() == definitions@[i as int]@);
            }
            self.add_tool(server.id.as_str(), &definitions[i]);
            i += 1;
        }
        proof {
            assert(model.take(i as int) =~= model);
        }
    }

    /// Notes that a server did not answer.
    pub fn add_failure(&mut self, server_id: &str, error: &str)
        ensures
            final(self)@ == (RouterModel {
                warnings: old(self)@.warnings.push(server_id@ + ": "@ + error@),
                ..old(self)@
            }),
    {
        self.warnings.push(server_id.to_owned().concat(": ").concat(error));
    }

    /// Whether there is no route.
    pub fn is_empty(&self) -> (r: bool)
        ensures
            r == (self@.routes.len() == 0),
    {
        self.routes.len() == 0
    }

    /// The route of a public name.
    pub fn route(&self, public_name: &str) -> (r: Option<&ToolRoute>)
        ensures
            match r {
                Some(route) => route_of(self@.routes, public_name@) == Some(route@),
                None => route_of(self@.routes, public_name@) is None,
            },
    {
        let at = find_place(&self.routes, public_name);
        if at < self.routes.len() && same(
            self.routes[at].definition.name.as_str(),
            public_name,
        ) {
            Some(&self.routes[at])
        } else {
            None
        }
    }

    /// The definitions of all tools, under their public names.
    pub fn definitions(&self) -> (r: Vec<ToolDefinition>)
        ensures
            views(r@) == route_definitions(self@.routes),
    {
        let ghost all = route_definitions(self@.routes);
        let mut out: Vec<ToolDefinition> = Vec::new();
        let mut i: usize = 0;
        while i < self.routes.len()
            invariant
                i <= self.routes@.len(),
                all == route_definitions(views(self.routes@)),
                views(out@) == all.take(i as int),
            decreases self.routes.len() - i,
        {
            let copy = self.routes[i].definition.copy();
            proof {
                assert(all.take(i as int).push(copy@) =~= all.take(i + 1));
            }
            out.push(copy);
            i += 1;
        }
        proof {
            assert(all.take(i as int) =~= all);
        }
        out
    }

    /// The server that a call goes to, and the call as that server knows it.
    pub fn native_call(&self, call: &ToolCall) -> (r: Result<(String, ToolCall), String>)
        ensures
            match (r, route_of(self@.routes, call@.name)) {
                (Ok(target), Some(route)) => target.0@ == route.server_id && target.1@ == (
                CallModel { name: route.native_name, ..call@ }),
                (Err(message), None) => message@ == "MCP-инструмент «"@ + call@.name
                    + "» не разрешён"@,
                _ => false,
            },
    {
        match self.route(call.name.as_str()) {
            Some(route) => Ok(
                (
                    route.server_id.clone(),
                    ToolCall {
                        id: call.id.clone(),
                        name: route.native_name.clone(),
                        arguments: call.arguments.copy(),
                    },
                ),
            ),
            None => Err(
                "MCP-инструмент «".to_owned().concat(call.name.as_str()).concat("» не разрешён"),
            ),
        }
    }
}

/// The definitions of routes.
pub open spec fn route_definitions(routes: Seq<RouteModel>) -> Seq<DefinitionModel> {
    Seq::new(routes.len(), |i: int| routes[i].definition)
}

/// The public names of routes.
pub open spec fn route_names(routes: Seq<RouteModel>) -> Seq<Seq<char>> {
    Seq::new(routes.len(), |i: int| routes[i].definition.name)
}

proof fn lemma_place_splits(routes: Seq<RouteModel>, name: Seq<char>)
    requires
        ascending(route_names(routes)),
    ensures
        forall|i: int|
            0 <= i < route_place(routes, name) ==> before(
                (#[trigger] routes[i]).definition.name,
                name,
            ),
        forall|i: int|
            route_place(routes, name) <= i < routes.len() ==> !before(
                (#[trigger] routes[i]).definition.name,
                name,
            ),
    decreases routes.len(),
{
    let names = route_names(routes);
    if routes.len() > 0 {
        if before(routes[0].definition.name, name) {
            let rest = routes.skip(1);
            assert forall|i: int, j: int| 0 <= i < j < route_names(rest).len() implies before(
                #[trigger] route_names(rest)[i],
                #[trigger] route_names(rest)[j],
            ) by {
                assert(before(names[i + 1], names[j + 1]));
            }
            lemma_place_splits(rest, name);
            lemma_route_place(routes, name);
            assert forall|i: int| 0 <= i < route_place(routes, name) implies before(
                (#[trigger] routes[i]).definition.name,
                name,
            ) by {
                if i > 0 {
                    assert(routes[i] == rest[i - 1]);
                }
            }
            assert forall|i: int| route_place(routes, name) <= i < routes.len() implies !before(
                (#[trigger] routes[i]).definition.name,
                name,
            ) by {
                assert(routes[i] == rest[i - 1]);
            }
        } else {
            assert forall|i: int| 0 <= i < routes.len() implies !before(
                (#[trigger] routes[i]).definition.name,
                name,
            ) by {
                if i > 0 {
                    assert(before(names[0], names[i]));
                    if before(names[i], name) {
                        lemma_before_transitive(names[0], names[i], name);
                    }
                }
            }
        }
    }
}

/// Adding a tool keeps the routes in the order of their names, each name once.
pub proof fn law_routes_stay_in_order(r: RouterModel, server: Seq<char>, tool: DefinitionModel)
    requires
        ascending(route_names(r.routes)),
    ensures
        ascending(route_names(with_tool(r, server, tool).routes)),
{
    let name = qualified_name(server, tool.name);
    let routes = r.routes;
    let after = with_tool(r, server, tool).routes;
    if route_of(routes, name) is None {
        lemma_place_splits(routes, name);
        lemma_route_place(routes, name);
        let at = route_place(routes, name) as int;
        let names = route_names(routes);
        let all = route_names(after);
        assert forall|i: int, j: int| 0 <= i < j < all.len() implies before(
            #[trigger] all[i],
            #[trigger] all[j],
        ) by {
            if i < at && j < at {
                assert(before(names[i], names[j]));
            } else if i < at && j > at {
                assert(before(names[i], names[j - 1]));
            } else if i > at {
                assert(before(names[i - 1], names[j - 1]));
            } else if i == at {
                lemma_before_total(routes[j - 1].definition.name, name);
                if routes[j - 1].definition.name == name {
                    if j - 1 > at {
                        assert(before(names[at], names[j - 1]));
                    }
                }
            }
        }
    }
}

/// A tool whose name is not taken gets a route, and no other route is lost.
pub proof fn law_added_tool_is_reached(
    r: RouterModel,
    server: Seq<char>,
    tool: DefinitionModel,
    other: Seq<char>,
)
    requires
        ascending(route_names(r.routes)),
        route_of(r.routes, qualified_name(server, tool.name)) is None,
    ensures
        route_of(with_tool(r, server, tool).routes, other) == if other == qualified_name(
            server,
            tool.name,
        ) {
            Some(tool_route(server, tool))
        } else {
            route_of(r.routes, other)
        },
{
    let name = qualified_name(server, tool.name);
    let routes = r.routes;
    let after = with_tool(r, server, tool).routes;
    law_routes_stay_in_order(r, server, tool);
    lemma_route_place(routes, name);
    lemma_route_place(routes, other);
    lemma_route_place(after, other);
    lemma_place_splits(routes, name);
    lemma_place_splits(routes, other);
    lemma_place_splits(after, other);
    let at = route_place(routes, name) as int;
    let from = route_place(routes, other) as int;
    let to = route_place(after, other) as int;
    assert(after[at].definition.name == name);
    lemma_before_total(name, other);
    lemma_before_total(other, other);
    if other == name {
        if to < at {
            assert(after[to] == routes[to]);
        }
        if to > at {
            assert(before(after[at].definition.name, other));
        }
    } else if before(name, other) {
        if at >= to {
            assert(!before(after[at].definition.name, other));
        }
        if from < at {
            assert(before(routes[from].definition.name, name));
            lemma_before_transitive(routes[from].definition.name, name, other);
        }
        if to < from + 1 {
            assert(to > at);
            assert(after[to] == routes[to - 1]);
        }
        if to > from + 1 {
            assert(after[from + 1] == routes[from]);
        }
    } else {
        if at < to {
            assert(before(after[at].definition.name, other));
        }
        if from > at {
            assert(before(routes[at].definition.name, other));
            lemma_before_total(routes[at].definition.name, name);
            if before(name, routes[at].definition.name) {
                lemma_before_transitive(name, routes[at].definition.name, other);
                lemma_before_transitive(name, other, name);
            } else {
                assert(!before(routes[at].definition.name, name));
            }
            lemma_before_total(name, name);
        }
        if to < from {
            assert(after[to] == routes[to] || to == at);
            if to == at {
                assert(from <= at);
            }
        }
        if to > from {
            assert(after[from] == routes[from]);
        }
        if to == from && to < after.len() {
            if to < at {
                assert(after[to] == routes[to]);
            } else {
                assert(to == at);
                if from < routes.len() && routes[from].definition.name == other {
                    assert(!before(routes[at].definition.name, name));
                    assert(before(other, name));
                }
            }
        }
    }
}

// Traces of calls.

/// The trace of a call: three hashes of its number.
pub open spec fn correlation_of(id: Seq<char>) -> Seq<char> {
    let bytes = encode_utf8(id);
    "00-"@ + hexadecimal(hash_of(bytes, HASH_SEED) as nat, 16) + hexadecimal(
        hash_of(bytes, 0x84222325cbf29ce4) as nat,
        16,
    ) + "-"@ + hexadecimal(hash_of(bytes, 0x9e3779b97f4a7c15) as nat, 16) + "-01"@
}

/// The trace of a call.
pub fn mcp_correlation_id(value: &str) -> (r: String)
    ensures
        r@ == correlation_of(value@),
{
    let first = text_hash(value, HASH_SEED);
    let second = text_hash(value, 0x84222325cbf29ce4);
    let parent = text_hash(value, 0x9e3779b97f4a7c15);
    "00-".to_owned().concat(hex_text(first, 16).as_str()).concat(
        hex_text(second, 16).as_str(),
    ).concat("-").concat(hex_text(parent, 16).as_str()).concat("-01")
}

/// The step that the number of a call names.
pub open spec fn step_in_call(id: Seq<char>) -> Option<Seq<char>> {
    match split_at_last(id, ':') {
        Some(parts) => Some(parts.1),
        None => None,
    }
}

/// The step that the number of a call names.
pub fn call_step(id: &str) -> (r: Option<String>)
    ensures
        view_option(r) == step_in_call(id@),
{
    match rsplit_once_char(id, ':') {
        Some(parts) => Some(parts.1),
        None => None,
    }
}

/// A character as it may stand in the baggage of a call.
pub open spec fn safe_char(c: char) -> char {
    if 'a' <= c <= 'z' || 'A' <= c <= 'Z' || '0' <= c <= '9' || c == '_' || c == '-' {
        c
    } else {
        '_'
    }
}

/// What is sent with a call about its step.
pub open spec fn baggage_of(step: Seq<char>) -> Seq<char> {
    "fox-step="@ + Seq::new(step.len(), |i: int| safe_char(step[i]))
}

/// What is sent with a call about its step.
pub fn step_baggage(step: &str) -> (r: String)
    ensures
        r@ == baggage_of(step@),
{
    let chars = chars_of(step);
    let ghost all = Seq::new(step@.len(), |i: int| safe_char(step@[i]));
    let mut safe = String::new();
    let mut i: usize = 0;
    while i < chars.len()
        invariant
            i <= chars@.len(),
            chars@ == step@,
            all == Seq::new(step@.len(), |i: int| safe_char(step@[i])),
            safe@ == all.take(i as int),
        decreases chars.len() - i,
    {
        let c = chars[i];
        let kept = if ('a' <= c && c <= 'z') || ('A' <= c && c <= 'Z') || ('0' <= c && c <= '9')
            || c == '_' || c == '-' {
            c
        } else {
            '_'
        };
        proof {
            assert(all.take(i as int).push(kept) =~= all.take(i + 1));
        }
        safe.push(kept);
        i += 1;
    }
    proof {
        assert(all.take(i as int) =~= all);
    }
    "fox-step=".to_owned().concat(safe.as_str())
}

/// The step that the baggage of a call names.
pub fn baggage_step(baggage: &str) -> (r: Option<String>)
    ensures
        view_option(r) == after_prefix(baggage@, "fox-step="@),
{
    without_prefix(baggage, "fox-step=")
}

/// A step whose name is safe is carried by the baggage of a call as it is.
pub proof fn law_step_is_carried(step: Seq<char>)
    requires
        forall|i: int| 0 <= i < step.len() ==> safe_char(#[trigger] step[i]) == step[i],
    ensures
        after_prefix(baggage_of(step), "fox-step="@) == Some(step),
{
    let head = "fox-step="@;
    assert(head =~= baggage_of(step).take(head.len() as int));
    assert(baggage_of(step).skip(head.len() as int) =~= step);
}

/// The line that is logged of a call: its metadata, never its arguments or its result.
pub open spec fn call_line(
    event: Seq<char>,
    correlation_id: Seq<char>,
    server_id: Seq<char>,
    tool: Seq<char>,
    step_id: Option<Seq<char>>,
    outcome: Option<ToolOutcome>,
    duration_ms: Option<u64>,
) -> Seq<char> {
    let head = "{\"event\":"@ + json_string(event) + ",\"correlation_id\":"@ + json_string(
        correlation_id,
    ) + ",\"server_id\":"@ + json_string(server_id) + ",\"tool\":"@ + json_string(tool);
    let with_step = match step_id {
        Some(step) => head + ",\"step_id\":"@ + json_string(step),
        None => head,
    };
    let with_outcome = match outcome {
        Some(outcome) => with_step + ",\"outcome\":"@ + json_string(outcome_name(outcome)),
        None => with_step,
    };
    let with_duration = match duration_ms {
        Some(ms) => with_outcome + ",\"duration_ms\":"@ + decimal(ms as nat),
        None => with_outcome,
    };
    with_duration + "}"@
}

/// The line that is logged of a call.
pub fn log_local_call(
    event: &str,
    correlation_id: &str,
    server_id: &str,
    tool: &str,
    step_id: Option<&str>,
    outcome: Option<ToolOutcome>,
    duration_ms: Option<u64>,
) -> (r: String)
    ensures
        r@ == call_line(
            event@,
            correlation_id@,
            server_id@,
            tool@,
            match step_id {
                Some(step) => Some(step@),
                None => None,
            },
            outcome,
            duration_ms,
        ),
{
    let mut line = "{\"event\":".to_owned().concat(quote(event).as_str()).concat(
        ",\"correlation_id\":",
    ).concat(quote(correlation_id).as_str()).concat(",\"server_id\":").concat(
        quote(server_id).as_str(),
    ).concat(",\"tool\":").concat(quote(tool).as_str());
    if let Some(step) = step_id {
        line = line.concat(",\"step_id\":").concat(quote(step).as_str());
    }
    if let Some(outcome) = outcome {
        line = line.concat(",\"outcome\":").concat(quote(outcome.name()).as_str());
    }
    if let Some(ms) = duration_ms {
        line = line.concat(",\"duration_ms\":").concat(decimal_text(ms).as_str());
    }
    line.concat("}")
}

/// The line that is logged of a server that was started.
pub fn server_started_line(kind: McpServerKind, address: &str) -> (r: String)
    ensures
        r@ == "{\"address\":"@ + json_string(address@) + ",\"event\":"@ + json_string(
            "mcp_server_started"@,
        ) + ",\"server_id\":"@ + json_string(kind_name(kind)) + "}"@,
{
    "{\"address\":".to_owned().concat(quote(address).as_str()).concat(",\"event\":").concat(
        quote("mcp_server_started").as_str(),
    ).concat(",\"server_id\":").concat(quote(kind.as_str()).as_str()).concat("}")
}

/// The identifier that was entered for a server, if any was, or why it is refused.
pub fn entered_server_id(value: &str) -> (r: Result<Option<String>, String>)
    ensures
        match r {
            Ok(None) => trim(value@).len() == 0,
            Ok(Some(id)) => trim(value@).len() > 0 && id@ == trim(value@) && server_id_error(
                trim(value@),
            ) is None,
            Err(message) => trim(value@).len() > 0 && server_id_error(trim(value@)) == Some(
                message@,
            ),
        },
{
    let id = trimmed(value);
    if id.as_str().unicode_len() == 0 {
        return Ok(None);
    }
    match validate_mcp_server_id(id.as_str()) {
        Ok(_) => Ok(Some(id)),
        Err(message) => Err(message),
    }
}

/// Tools are switched on unless they are switched off by name; servers are taken out by their name;
/// the names that remain are those that are among the others. All keep their order.
pub proof fn law_tools_and_servers_are_picked_by_name(
    tools: Seq<DefinitionModel>,
    servers: Seq<ServerModel>,
    names: Seq<Seq<char>>,
    others: Seq<Seq<char>>,
    id: Seq<char>,
)
    ensures
        enabled_tools(tools, others) == tools.filter(
            |tool: DefinitionModel| !others.contains(tool.name),
        ),
        servers_without(servers, id) == servers.filter(|server: ServerModel| server.id != id),
        names_among(names, others) == names.filter(|name: Seq<char>| others.contains(name)),
    decreases tools.len() + servers.len() + names.len(),
{
    reveal(Seq::filter);
    if tools.len() > 0 {
        law_tools_and_servers_are_picked_by_name(tools.drop_last(), servers, names, others, id);
    } else if servers.len() > 0 {
        law_tools_and_servers_are_picked_by_name(tools, servers.drop_last(), names, others, id);
    } else if names.len() > 0 {
        law_tools_and_servers_are_picked_by_name(tools, servers, names.drop_last(), others, id);
    }
}

/// The tools that were picked stay switched on, all others are switched off.
pub proof fn law_unpicked_tools_are_switched_off(
    tools: Seq<DefinitionModel>,
    selected: Seq<usize>,
    place: usize,
)
    requires
        place < tools.len(),
        forall|j: int, k: int|
            0 <= j < k < tools.len() ==> (#[trigger] tools[j]).name != (#[trigger] tools[k]).name,
    ensures
        unselected_names(tools, selected).contains(tools[place as int].name)
            <==> !selected.contains(place),
{
    let names = names_at(tools, selected);
    let off = enabled_tools(tools, names);
    let tool = tools[place as int];
    lemma_names_at(tools, selected);
    lemma_enabled(tools, names);
    if unselected_names(tools, selected).contains(tool.name) {
        let at = choose|at: int|
            0 <= at < unselected_names(tools, selected).len() && unselected_names(
                tools,
                selected,
            )[at] == tool.name;
        assert(off.contains(off[at]));
        assert(off[at].name == tool.name);
    } else {
        if !names.contains(tool.name) {
            assert(tools.contains(tool));
            assert(off.contains(tool));
            let at = choose|at: int| 0 <= at < off.len() && off[at] == tool;
            assert(unselected_names(tools, selected)[at] == tool.name);
        }
        let other = choose|other: usize|
            selected.contains(other) && other < tools.len() && (#[trigger] tools[other as int]).name
                == tool.name;
        assert(other == place) by {
            if other as int != place as int {
                assert(tools[other as int].name != tools[place as int].name);
            }
        }
    }
}

/// The enabled tools are those whose names are not switched off.
proof fn lemma_enabled(tools: Seq<DefinitionModel>, disabled: Seq<Seq<char>>)
    ensures
        forall|tool: DefinitionModel| #[trigger]
            enabled_tools(tools, disabled).contains(tool) <==> tools.contains(tool)
                && !disabled.contains(tool.name),
    decreases tools.len(),
{
    let all = enabled_tools(tools, disabled);
    if tools.len() > 0 {
        let head = tools.drop_last();
        let earlier = enabled_tools(head, disabled);
        lemma_enabled(head, disabled);
        assert forall|tool: DefinitionModel| #[trigger] all.contains(tool) <==> tools.contains(tool)
            && !disabled.contains(tool.name) by {
            if all.contains(tool) {
                let at = choose|at: int| 0 <= at < all.len() && all[at] == tool;
                if at < earlier.len() {
                    assert(earlier[at] == tool);
                    assert(earlier.contains(tool));
                    let k = choose|k: int| 0 <= k < head.len() && head[k] == tool;
                    assert(tools[k] == tool);
                } else {
                    assert(tools[tools.len() - 1] == tool);
                }
            }
            if tools.contains(tool) && !disabled.contains(tool.name) {
                let k = choose|k: int| 0 <= k < tools.len() && tools[k] == tool;
                if k < head.len() {
                    assert(head[k] == tool);
                    assert(earlier.contains(tool));
                    let at = choose|at: int| 0 <= at < earlier.len() && earlier[at] == tool;
                    assert(all[at] == tool);
                } else {
                    assert(all.last() == tool);
                }
            }
        }
    }
}

/// The names at the picked places are those of the tools there.
proof fn lemma_names_at(tools: Seq<DefinitionModel>, selected: Seq<usize>)
    ensures
        forall|place: usize|
            selected.contains(place) && place < tools.len() ==> names_at(tools, selected).contains(
                (#[trigger] tools[place as int]).name,
            ),
        forall|name: Seq<char>| #[trigger]
            names_at(tools, selected).contains(name) ==> exists|place: usize|
                selected.contains(place) && place < tools.len() && (
                #[trigger] tools[place as int]).name == name,
    decreases selected.len(),
{
    if selected.len() > 0 {
        let head = selected.drop_last();
        let last = selected.last();
        let earlier = names_at(tools, head);
        let all = names_at(tools, selected);
        lemma_names_at(tools, head);
        assert forall|place: usize|
            selected.contains(place) && place < tools.len() implies all.contains(
            (#[trigger] tools[place as int]).name,
        ) by {
            if head.contains(place) {
                let at = choose|at: int|
                    0 <= at < earlier.len() && earlier[at] == tools[place as int].name;
                assert(all[at] == tools[place as int].name);
            } else {
                let at = choose|at: int| 0 <= at < selected.len() && selected[at] == place;
                if at < head.len() {
                    assert(head[at] == place);
                }
                assert(place == last);
                assert(all.last() == tools[place as int].name);
            }
        }
        assert forall|name: Seq<char>| #[trigger] all.contains(name) implies exists|place: usize|
            selected.contains(place) && place < tools.len() && (#[trigger] tools[place as int]).name
                == name by {
            if earlier.contains(name) {
                let place = choose|place: usize|
                    head.contains(place) && place < tools.len() && (
                    #[trigger] tools[place as int]).name == name;
                let at = choose|at: int| 0 <= at < head.len() && head[at] == place;
                assert(selected[at] == place);
                assert(tools[place as int].name == name);
            } else {
                let at = choose|at: int| 0 <= at < all.len() && all[at] == name;
                if at < earlier.len() {
                    assert(earlier[at] == name);
                }
                assert(selected[selected.len() - 1] == last);
                assert(tools[last as int].name == name);
            }
        }
    }
}

/// Sorting the servers only changes their order.
pub proof fn law_no_server_is_lost(servers: Seq<ServerModel>)
    ensures
        servers_sorted(servers).to_multiset() == servers.to_multiset(),
    decreases servers.len(),
{
    broadcast use vstd::seq_lib::group_to_multiset_ensures;

    if servers.len() > 0 {
        let head = servers.drop_last();
        law_no_server_is_lost(head);
        lemma_server_put(servers_sorted(head), servers.last());
        assert(servers =~= head.push(servers.last()));
    }
}

/// Putting a server in its place adds it and no more.
proof fn lemma_server_put(servers: Seq<ServerModel>, server: ServerModel)
    ensures
        server_inserted(servers, server).to_multiset() == servers.to_multiset().insert(server),
    decreases servers.len(),
{
    broadcast use vstd::seq_lib::group_to_multiset_ensures;

    if servers.len() > 0 && before(server.id, servers.last().id) {
        lemma_server_put(servers.drop_last(), server);
        assert(servers =~= servers.drop_last().push(servers.last()));
        assert(server_inserted(servers, server).to_multiset() =~= servers.to_multiset().insert(
            server,
        ));
    }
}

/// A tool is offered under the name of its server and its own; all else about it stays, and a call
/// goes to that server under the tool's own name.
pub proof fn law_route_leads_to_the_tool(server: Seq<char>, tool: DefinitionModel)
    ensures
        tool_route(server, tool).server_id == server,
        tool_route(server, tool).native_name == tool.name,
        tool_route(server, tool).definition.name == server + "__"@ + tool.name,
        tool_route(server, tool).definition.description == tool.description,
        tool_route(server, tool).definition.input_schema == tool.input_schema,
        tool_route(server, tool).definition.read_only == tool.read_only,
        tool_route(server, tool).definition.destructive == tool.destructive,
{
}

/// Every tool of a server can be reached, and every tool that could be reached before still can.
pub proof fn law_every_tool_is_reached(
    r: RouterModel,
    server: Seq<char>,
    tools: Seq<DefinitionModel>,
    i: int,
    other: Seq<char>,
)
    requires
        ascending(route_names(r.routes)),
        forall|j: int, k: int|
            0 <= j < k < tools.len() ==> (#[trigger] tools[j]).name != (#[trigger] tools[k]).name,
        forall|k: int|
            0 <= k < tools.len() ==> route_of(
                r.routes,
                qualified_name(server, (#[trigger] tools[k]).name),
            ) is None,
    ensures
        ascending(route_names(with_tools(r, server, tools).routes)),
        0 <= i < tools.len() ==> route_of(
            with_tools(r, server, tools).routes,
            qualified_name(server, tools[i].name),
        ) == Some(tool_route(server, tools[i])),
        (forall|k: int|
            0 <= k < tools.len() ==> qualified_name(server, (#[trigger] tools[k]).name) != other)
            ==> route_of(with_tools(r, server, tools).routes, other) == route_of(r.routes, other),
        with_tools(r, server, tools).warnings == r.warnings,
    decreases tools.len(),
{
    if tools.len() > 0 {
        let head = tools.drop_last();
        let last = tools.last();
        let name = qualified_name(server, last.name);
        let earlier = with_tools(r, server, head);
        assert forall|j: int, k: int| 0 <= j < k < head.len() implies (#[trigger] head[j]).name != (
        #[trigger] head[k]).name by {
            assert(tools[j].name != tools[k].name);
        }
        assert forall|k: int| 0 <= k < head.len() implies route_of(
            r.routes,
            qualified_name(server, (#[trigger] head[k]).name),
        ) is None by {
            assert(head[k] == tools[k]);
        }
        assert forall|k: int| 0 <= k < head.len() implies qualified_name(
            server,
            (#[trigger] head[k]).name,
        ) != name by {
            assert(tools[k].name != tools[tools.len() - 1].name);
            lemma_names_differ(server, head[k].name, last.name);
        }
        law_every_tool_is_reached(r, server, head, i, name);
        assert(tools[tools.len() - 1] == last);
        assert(route_of(earlier.routes, name) is None);
        law_routes_stay_in_order(earlier, server, last);
        if 0 <= i < head.len() {
            assert(head[i] == tools[i]);
            law_added_tool_is_reached(
                earlier,
                server,
                last,
                qualified_name(server, tools[i].name),
            );
        } else {
            law_added_tool_is_reached(earlier, server, last, name);
        }
        if forall|k: int|
            0 <= k < tools.len() ==> qualified_name(server, (#[trigger] tools[k]).name) != other {
            assert forall|k: int| 0 <= k < head.len() implies qualified_name(
                server,
                (#[trigger] head[k]).name,
            ) != other by {
                assert(head[k] == tools[k]);
            }
            law_every_tool_is_reached(r, server, head, i, other);
            law_added_tool_is_reached(earlier, server, last, other);
        }
    }
}

/// Different tools of a server have different full names.
proof fn lemma_names_differ(server: Seq<char>, a: Seq<char>, b: Seq<char>)
    requires
        a != b,
    ensures
        qualified_name(server, a) != qualified_name(server, b),
{
    let n = (server + "__"@).len() as int;
    assert(qualified_name(server, a).skip(n) =~= a);
    assert(qualified_name(server, b).skip(n) =~= b);
}

/// The program starts a server when it is told to, of the kind and at the address that were named;
/// else it talks to its user, and shows metrics when it is told to.
pub proof fn law_arguments_decide_the_start(kind: McpServerKind, address: Seq<char>)
    ensures
        startup_in(seq!["--mcp-server"@, kind_name(kind), "--addr"@, address]) == Ok::<
            StartupModel,
            Seq<char>,
        >(StartupModel::Server(kind, address)),
        startup_in(Seq::empty()) == Ok::<StartupModel, Seq<char>>(StartupModel::Interactive(false)),
        startup_in(seq!["--dump-metrics"@]) == Ok::<StartupModel, Seq<char>>(
            StartupModel::Interactive(true),
        ),
{
    law_kind_round_trip(kind);
    reveal_strlit("--mcp-server");
    reveal_strlit("--dump-metrics");
    assert("--mcp-server"@.len() != "--dump-metrics"@.len());
    let given = seq!["--dump-metrics"@];
    assert(given.drop_last() =~= Seq::empty());
    assert(metrics_flag(given.drop_last()) == Ok::<bool, Seq<char>>(false));
}

/// What is logged of a call names the call, its server, its tool and its step, and says how it went.
pub proof fn law_logged_call_is_named(
    event: Seq<char>,
    correlation_id: Seq<char>,
    server_id: Seq<char>,
    tool: Seq<char>,
    step_id: Option<Seq<char>>,
    outcome: Option<ToolOutcome>,
    duration_ms: Option<u64>,
)
    ensures
        ({
            let told = call_line(
                event,
                correlation_id,
                server_id,
                tool,
                step_id,
                outcome,
                duration_ms,
            );
            &&& has_part(told, "{\"event\":"@ + json_string(event))
            &&& has_part(told, ",\"correlation_id\":"@ + json_string(correlation_id))
            &&& has_part(told, ",\"server_id\":"@ + json_string(server_id))
            &&& has_part(told, ",\"tool\":"@ + json_string(tool))
            &&& step_id matches Some(step) ==> has_part(
                told,
                ",\"step_id\":"@ + json_string(step),
            )
            &&& outcome matches Some(outcome) ==> has_part(
                told,
                ",\"outcome\":"@ + json_string(outcome_name(outcome)),
            )
            &&& duration_ms matches Some(ms) ==> has_part(
                told,
                ",\"duration_ms\":"@ + decimal(ms as nat),
            )
        }),
{
    let h1 = lemma_pair_behind(Seq::empty(), "{\"event\":"@, json_string(event));
    assert(Seq::<char>::empty() + "{\"event\":"@ =~= "{\"event\":"@);
    let h2 = lemma_pair_behind(h1, ",\"correlation_id\":"@, json_string(correlation_id));
    let h3 = lemma_pair_behind(h2, ",\"server_id\":"@, json_string(server_id));
    let h4 = lemma_pair_behind(h3, ",\"tool\":"@, json_string(tool));
    let h5 = match step_id {
        Some(step) => lemma_pair_behind(h4, ",\"step_id\":"@, json_string(step)),
        None => h4,
    };
    let h6 = match outcome {
        Some(outcome) => lemma_pair_behind(
            h5,
            ",\"outcome\":"@,
            json_string(outcome_name(outcome)),
        ),
        None => h5,
    };
    let h7 = match duration_ms {
        Some(ms) => lemma_pair_behind(h6, ",\"duration_ms\":"@, decimal(ms as nat)),
        None => h6,
    };
    lemma_grown(h7, "}"@);
}

/// An address is accepted as it is when it is one of the web and names a host.
pub proof fn law_accepted_address_names_a_host(parts: UrlModel)
    ensures
        accepted_url(Some(parts)) is Ok <==> (parts.scheme == "http"@ || parts.scheme == "https"@)
            && parts.has_host,
        accepted_url(Some(parts)) matches Ok(text) ==> text == parts.text,
        accepted_url(None) is Err,
{
}

/// The step of a call is what stands behind the last colon of its name.
pub proof fn law_step_is_named_in_its_call(call: Seq<char>, step: Seq<char>)
    requires
        !step.contains(':'),
    ensures
        step_in_call(call + ":"@ + step) == Some(step),
{
    reveal_strlit(":");
    let whole = call + ":"@ + step;
    let at = call.len() as int;
    assert(whole[at] == ':');
    assert forall|i: int| at < i < whole.len() implies #[trigger] whole[i] != ':' by {
        assert(whole[i] == step[i - at - 1]);
    }
    lemma_split_at_last(whole, ':', at);
    assert(whole.skip(at + 1) =~= step);
}

/// The mark of a call has the form of a trace: two numbers of fixed width between its version and its
/// flags.
pub proof fn law_call_is_marked_as_a_trace(id: Seq<char>)
    ensures
        correlation_of(id).len() == 55,
        "00-"@.is_prefix_of(correlation_of(id)),
        "-01"@.is_suffix_of(correlation_of(id)),
        correlation_of(id)[35] == '-',
{
    let bytes = encode_utf8(id);
    let first = hash_of(bytes, HASH_SEED) as nat;
    let second = hash_of(bytes, 0x84222325cbf29ce4) as nat;
    let third = hash_of(bytes, 0x9e3779b97f4a7c15) as nat;
    law_hexadecimal_has_its_width(first, 16, 0);
    law_hexadecimal_has_its_width(second, 16, 0);
    law_hexadecimal_has_its_width(third, 16, 0);
    reveal_strlit("00-");
    reveal_strlit("-");
    reveal_strlit("-01");
    let mark = correlation_of(id);
    assert(mark.len() == 55);
    assert(mark.subrange(0, 3) =~= "00-"@);
    assert(mark.subrange(52, 55) =~= "-01"@);
}

/// The tools that are offered are those that can be reached, in their order.
pub proof fn law_offered_tools_can_be_reached(routes: Seq<RouteModel>, i: int)
    requires
        0 <= i < routes.len(),
    ensures
        route_definitions(routes).len() == routes.len(),
        route_definitions(routes)[i].name == routes[i].definition.name,
        route_definitions(routes)[i].input_schema == routes[i].definition.input_schema,
        route_definitions(routes)[i].read_only == routes[i].definition.read_only,
{
}

} // verus!
