//! The configuration: providers with their keys and models, response modes and MCP servers.

use vstd::prelude::*;

use crate::text::{
    agrees, chars_of, contains_text, copy_texts, has_part, is_blank, lemma_views_push, same, trim,
    trimmed, view_option, views,
};

verus! {

broadcast use lemma_views_push;

pub const CONFIG_FILE: &'static str = ".fox-llm.json";

pub const MODES_FILE: &'static str = "fox-modes.json";

pub const SESSIONS_FILE: &'static str = ".fox-sessions.db";

pub const SCHEDULER_FILE: &'static str = ".fox-scheduler.db";

pub const METRICS_LOG_FILE: &'static str = "fox-metrics.log";

pub const OPENAI_KEYS_URL: &'static str = "https://platform.openai.com/api-keys";

pub const CLAUDE_KEYS_URL: &'static str = "https://console.anthropic.com/settings/keys";

pub const OPENAI_MODELS_URL: &'static str = "https://api.openai.com/v1/models";

pub const CLAUDE_MODELS_URL: &'static str = "https://api.anthropic.com/v1/models";

/// The greatest number of messages that a context window may hold.
pub const CONTEXT_MESSAGES_MAX: usize = 1000;

/// The number of messages that a context window holds unless it is set.
pub fn default_context_messages() -> (r: usize)
    ensures
        r == 10,
{
    10
}

/// A provider of language models.
#[derive(Debug, Clone, Copy, PartialEq, Eq, Structural)]
pub enum Provider {
    Openai,
    Claude,
}

/// How an API key is obtained.
#[derive(Debug, Clone, Copy, PartialEq, Eq, Structural)]
pub enum AuthMethod {
    CreateInWeb,
    ExistingKey,
}

/// How the context of a dialogue is kept short.
#[derive(Debug, Clone, Copy, PartialEq, Eq, Structural)]
pub enum CompressionStrategy {
    Summary,
    SlidingWindow,
    StickyFacts,
    Branching,
}

/// How the second provider is called: for the user, and where it is stored. The program says it.
#[derive(Debug, PartialEq, Eq)]
pub struct ProviderName {
    pub title: String,
    pub key: String,
}

/// How the second provider is called, mathematically.
pub ghost struct NameModel {
    pub title: Seq<char>,
    pub key: Seq<char>,
}

impl View for ProviderName {
    type V = NameModel;

    open spec fn view(&self) -> NameModel {
        NameModel { title: self.title@, key: self.key@ }
    }
}

impl Clone for ProviderName {
    fn clone(&self) -> (r: Self)
        ensures
            r@ == self@,
    {
        ProviderName { title: self.title.clone(), key: self.key.clone() }
    }
}

/// The name of a provider for the user.
pub open spec fn provider_title(provider: Provider, second: NameModel) -> Seq<char> {
    match provider {
        Provider::Openai => "OpenAI"@,
        Provider::Claude => second.title,
    }
}

/// The name under which a provider is stored.
pub open spec fn provider_key(provider: Provider, second: NameModel) -> Seq<char> {
    match provider {
        Provider::Openai => "openai"@,
        Provider::Claude => second.key,
    }
}

/// The provider that is stored under a name.
pub open spec fn provider_stored(value: Seq<char>, second: NameModel) -> Result<
    Provider,
    Seq<char>,
> {
    if value == "openai"@ {
        Ok(Provider::Openai)
    } else if value == second.key {
        Ok(Provider::Claude)
    } else {
        Err("неизвестный провайдер в сохранённой сессии: "@ + value)
    }
}

impl Provider {
    /// The providers, in the order in which they are offered.
    pub fn all() -> (r: [Provider; 2])
        ensures
            r@ == seq![Provider::Openai, Provider::Claude],
    {
        let r = [Provider::Openai, Provider::Claude];
        proof {
            assert(r@ =~= seq![Provider::Openai, Provider::Claude]);
        }
        r
    }

    /// The page on which a key is created.
    pub fn key_url(self) -> (r: &'static str)
        ensures
            r@ == match self {
                Provider::Openai => OPENAI_KEYS_URL@,
                Provider::Claude => CLAUDE_KEYS_URL@,
            },
    {
        match self {
            Provider::Openai => OPENAI_KEYS_URL,
            Provider::Claude => CLAUDE_KEYS_URL,
        }
    }

    /// The name for the user.
    pub fn title(self, second: &ProviderName) -> (r: &str)
        ensures
            r@ == provider_title(self, second@),
    {
        match self {
            Provider::Openai => "OpenAI",
            Provider::Claude => second.title.as_str(),
        }
    }
}

/// The name under which a provider is stored.
pub fn provider_id(provider: Provider, second: &ProviderName) -> (r: &str)
    ensures
        r@ == provider_key(provider, second@),
{
    match provider {
        Provider::Openai => "openai",
        Provider::Claude => second.key.as_str(),
    }
}

/// The provider that is stored under a name.
pub fn parse_provider(value: &str, second: &ProviderName) -> (r: Result<Provider, String>)
    ensures
        match (r, provider_stored(value@, second@)) {
            (Ok(provider), Ok(model)) => provider == model,
            (Err(message), Err(model)) => message@ == model,
            _ => false,
        },
{
    if same(value, "openai") {
        Ok(Provider::Openai)
    } else if same(value, second.key.as_str()) {
        Ok(Provider::Claude)
    } else {
        Err("неизвестный провайдер в сохранённой сессии: ".to_owned().concat(value))
    }
}

/// The stored name of a provider is read back as that provider, as long as the two are stored under
/// different names.
pub proof fn law_provider_round_trip(provider: Provider, second: NameModel)
    requires
        second.key != "openai"@,
    ensures
        provider_stored(provider_key(provider, second), second) == Ok::<Provider, Seq<char>>(
            provider,
        ),
{
}

/// The name of a strategy.
pub open spec fn strategy_name(strategy: CompressionStrategy) -> Seq<char> {
    match strategy {
        CompressionStrategy::Summary => "summary"@,
        CompressionStrategy::SlidingWindow => "sliding-window"@,
        CompressionStrategy::StickyFacts => "sticky-facts"@,
        CompressionStrategy::Branching => "branching"@,
    }
}

/// The strategy that a word stands for.
pub open spec fn strategy_named(value: Seq<char>) -> Result<CompressionStrategy, Seq<char>> {
    if value == "summary"@ {
        Ok(CompressionStrategy::Summary)
    } else if value == "sliding"@ || value == "sliding-window"@ {
        Ok(CompressionStrategy::SlidingWindow)
    } else if value == "facts"@ || value == "sticky-facts"@ {
        Ok(CompressionStrategy::StickyFacts)
    } else if value == "branching"@ {
        Ok(CompressionStrategy::Branching)
    } else {
        Err("неизвестная стратегия: "@ + value)
    }
}

impl CompressionStrategy {
    /// The name of the strategy.
    pub fn name(self) -> (r: &'static str)
        ensures
            r@ == strategy_name(self),
    {
        match self {
            CompressionStrategy::Summary => "summary",
            CompressionStrategy::SlidingWindow => "sliding-window",
            CompressionStrategy::StickyFacts => "sticky-facts",
            CompressionStrategy::Branching => "branching",
        }
    }
}

/// The strategy that a word stands for.
pub fn parse_compression_strategy(value: &str) -> (r: Result<CompressionStrategy, String>)
    ensures
        match (r, strategy_named(value@)) {
            (Ok(strategy), Ok(model)) => strategy == model,
            (Err(message), Err(model)) => message@ == model,
            _ => false,
        },
{
    if same(value, "summary") {
        Ok(CompressionStrategy::Summary)
    } else if same(value, "sliding") || same(value, "sliding-window") {
        Ok(CompressionStrategy::SlidingWindow)
    } else if same(value, "facts") || same(value, "sticky-facts") {
        Ok(CompressionStrategy::StickyFacts)
    } else if same(value, "branching") {
        Ok(CompressionStrategy::Branching)
    } else {
        Err("неизвестная стратегия: ".to_owned().concat(value))
    }
}

/// The name of a strategy is read back as that strategy.
pub proof fn law_strategy_round_trip(strategy: CompressionStrategy)
    ensures
        strategy_named(strategy_name(strategy)) == Ok::<CompressionStrategy, Seq<char>>(strategy),
{
    reveal_strlit("summary");
    reveal_strlit("sliding");
    reveal_strlit("sliding-window");
    reveal_strlit("facts");
    reveal_strlit("sticky-facts");
    reveal_strlit("branching");
    assert("summary"@.len() == 7);
    assert("sliding"@.len() == 7 && "sliding"@[1] == 'l');
    assert("sliding-window"@.len() == 14);
    assert("facts"@.len() == 5);
    assert("sticky-facts"@.len() == 12);
    assert("branching"@.len() == 9);
}

// MCP servers.

/// A server that offers tools.
#[derive(Debug, PartialEq, Eq)]
pub struct McpServerConfig {
    pub id: String,
    pub url: String,
    pub disabled_tools: Vec<String>,
}

/// A server, mathematically.
pub ghost struct ServerModel {
    pub id: Seq<char>,
    pub url: Seq<char>,
    pub disabled_tools: Seq<Seq<char>>,
}

impl View for McpServerConfig {
    type V = ServerModel;

    open spec fn view(&self) -> ServerModel {
        ServerModel { id: self.id@, url: self.url@, disabled_tools: views(self.disabled_tools@) }
    }
}

impl Clone for McpServerConfig {
    fn clone(&self) -> (r: Self)
        ensures
            r@ == self@,
    {
        McpServerConfig {
            id: self.id.clone(),
            url: self.url.clone(),
            disabled_tools: copy_texts(self.disabled_tools.as_slice()),
        }
    }
}

/// The servers that offer tools.
#[derive(Debug, PartialEq, Eq)]
pub struct McpConfig {
    pub servers: Vec<McpServerConfig>,
}

impl View for McpConfig {
    type V = Seq<ServerModel>;

    open spec fn view(&self) -> Seq<ServerModel> {
        views(self.servers@)
    }
}

impl Clone for McpConfig {
    fn clone(&self) -> (r: Self)
        ensures
            r@ == self@,
    {
        let servers = self.servers.clone();
        proof {
            assert(views(servers@) =~= views(self.servers@));
        }
        McpConfig { servers }
    }
}

impl Default for McpConfig {
    fn default() -> (r: Self)
        ensures
            r@ == Seq::<ServerModel>::empty(),
    {
        let r = McpConfig { servers: Vec::new() };
        proof {
            assert(r@ =~= Seq::<ServerModel>::empty());
        }
        r
    }
}

/// The characters that an identifier of a server may hold.
pub open spec fn is_id_char(c: char) -> bool {
    'a' <= c <= 'z' || '0' <= c <= '9' || c == '_'
}

/// Why an identifier of a server is refused, if it is.
pub open spec fn server_id_error(value: Seq<char>) -> Option<Seq<char>> {
    if value.len() == 0 {
        Some("ID MCP-сервера не должен быть пустым"@)
    } else if has_part(value, "__"@) {
        Some("ID MCP-сервера не должен содержать __"@)
    } else if exists|i: int| 0 <= i < value.len() && !is_id_char(#[trigger] value[i]) {
        Some("ID MCP-сервера может содержать только строчные ASCII-буквы, цифры и _"@)
    } else {
        None
    }
}

/// A check shows what a mathematical one says: no complaint, or the same message.
pub open spec fn agrees_check(r: Result<(), String>, s: Option<Seq<char>>) -> bool {
    match (r, s) {
        (Ok(_), None) => true,
        (Err(message), Some(model)) => message@ == model,
        _ => false,
    }
}

/// Checks an identifier of a server.
pub fn validate_mcp_server_id(value: &str) -> (r: Result<(), String>)
    ensures
        agrees_check(r, server_id_error(value@)),
{
    if value.is_empty() {
        return Err("ID MCP-сервера не должен быть пустым".to_owned());
    }
    if contains_text(value, "__") {
        return Err("ID MCP-сервера не должен содержать __".to_owned());
    }
    let chars = chars_of(value);
    let mut i: usize = 0;
    while i < chars.len()
        invariant
            i <= chars@.len(),
            chars@ == value@,
            value@.len() > 0,
            !has_part(value@, "__"@),
            forall|k: int| 0 <= k < i ==> is_id_char(#[trigger] value@[k]),
        decreases chars.len() - i,
    {
        let c = chars[i];
        if !(('a' <= c && c <= 'z') || ('0' <= c && c <= '9') || c == '_') {
            proof {
                assert(!is_id_char(value@[i as int]));
            }
            return Err(
                "ID MCP-сервера может содержать только строчные ASCII-буквы, цифры и _".to_owned(),
            );
        }
        i += 1;
    }
    Ok(())
}

/// Whether one of the servers has this identifier.
pub open spec fn has_server(servers: Seq<ServerModel>, id: Seq<char>) -> bool {
    exists|i: int| 0 <= i < servers.len() && (#[trigger] servers[i]).id == id
}

/// Why a list of servers is refused, if it is: the first bad or repeated identifier.
pub open spec fn servers_error(servers: Seq<ServerModel>) -> Option<Seq<char>>
    decreases servers.len(),
{
    if servers.len() == 0 {
        None
    } else {
        let head = servers.drop_last();
        let id = servers.last().id;
        match servers_error(head) {
            Some(message) => Some(message),
            None => match server_id_error(id) {
                Some(message) => Some(message),
                None => if has_server(head, id) {
                    Some("повторяющийся ID MCP-сервера: "@ + id)
                } else {
                    None
                },
            },
        }
    }
}

proof fn lemma_servers_error(servers: Seq<ServerModel>, n: int)
    requires
        0 <= n <= servers.len(),
        servers_error(servers.take(n)) is Some,
    ensures
        servers_error(servers) == servers_error(servers.take(n)),
    decreases servers.len(),
{
    if n == servers.len() {
        assert(servers.take(n) =~= servers);
    } else {
        assert(servers.drop_last().take(n) =~= servers.take(n));
        lemma_servers_error(servers.drop_last(), n);
    }
}

/// An accepted list of servers has well-formed and different identifiers.
pub proof fn law_accepted_servers_are_distinct(servers: Seq<ServerModel>)
    requires
        servers_error(servers) is None,
    ensures
        forall|i: int|
            0 <= i < servers.len() ==> server_id_error((#[trigger] servers[i]).id) is None,
        forall|i: int, j: int|
            0 <= i < j < servers.len() ==> (#[trigger] servers[i]).id != (#[trigger] servers[j]).id,
    decreases servers.len(),
{
    if servers.len() > 0 {
        let head = servers.drop_last();
        law_accepted_servers_are_distinct(head);
        assert forall|i: int| 0 <= i < servers.len() implies server_id_error(
            (#[trigger] servers[i]).id,
        ) is None by {
            if i < head.len() {
                assert(servers[i] == head[i]);
            }
        }
        assert forall|i: int, j: int| 0 <= i < j < servers.len() implies (#[trigger] servers[i]).id
            != (#[trigger] servers[j]).id by {
            assert(servers[i] == head[i]);
            if j < head.len() {
                assert(servers[j] == head[j]);
            } else {
                assert(head[i].id != servers.last().id);
            }
        }
    }
}

impl McpConfig {
    /// Checks the identifiers of the servers.
    pub fn validate(&self) -> (r: Result<(), String>)
        ensures
            agrees_check(r, servers_error(self@)),
    {
        let ghost model = self@;
        let mut i: usize = 0;
        proof {
            assert(model.take(0).len() == 0);
        }
        while i < self.servers.len()
            invariant
                i <= self.servers@.len(),
                model == views(self.servers@),
                servers_error(model.take(i as int)) is None,
            decreases self.servers.len() - i,
        {
            proof {
                assert(model.take(i + 1).drop_last() =~= model.take(i as int));
                assert(model.take(i + 1).last() == model[i as int]);
            }
            if let Err(message) = validate_mcp_server_id(self.servers[i].id.as_str()) {
                proof {
                    lemma_servers_error(model, i + 1);
                }
                return Err(message);
            }
            let mut j: usize = 0;
            while j < i
                invariant
                    j <= i,
                    i < self.servers@.len(),
                    model == views(self.servers@),
                    servers_error(model.take(i as int)) is None,
                    server_id_error(model[i as int].id) is None,
                    model.take(i + 1).drop_last() == model.take(i as int),
                    model.take(i + 1).last() == model[i as int],
                    forall|k: int| 0 <= k < j ==> (#[trigger] model[k]).id != model[i as int].id,
                decreases i - j,
            {
                if same(self.servers[j].id.as_str(), self.servers[i].id.as_str()) {
                    proof {
                        assert(model.take(i as int)[j as int].id == model[i as int].id);
                        assert(has_server(model.take(i as int), model[i as int].id));
                        lemma_servers_error(model, i + 1);
                    }
                    return Err(
                        "повторяющийся ID MCP-сервера: ".to_owned().concat(
                            self.servers[i].id.as_str(),
                        ),
                    );
                }
                j += 1;
            }
            proof {
                assert(!has_server(model.take(i as int), model[i as int].id)) by {
                    if has_server(model.take(i as int), model[i as int].id) {
                        let k = choose|k: int|
                            0 <= k < model.take(i as int).len() && (#[trigger] model.take(
                                i as int,
                            )[k]).id == model[i as int].id;
                        assert(model[k].id != model[i as int].id);
                    }
                }
            }
            i += 1;
        }
        proof {
            assert(model.take(i as int) =~= model);
        }
        Ok(())
    }
}

// Response modes.

/// Instructions that can be chosen for the answers.
#[derive(Debug, PartialEq, Eq)]
pub struct ResponseMode {
    pub name: String,
    pub instructions: String,
}

/// A response mode, mathematically.
pub ghost struct ModeModel {
    pub name: Seq<char>,
    pub instructions: Seq<char>,
}

impl View for ResponseMode {
    type V = ModeModel;

    open spec fn view(&self) -> ModeModel {
        ModeModel { name: self.name@, instructions: self.instructions@ }
    }
}

impl Clone for ResponseMode {
    fn clone(&self) -> (r: Self)
        ensures
            r@ == self@,
    {
        ResponseMode { name: self.name.clone(), instructions: self.instructions.clone() }
    }
}

/// The response modes.
#[derive(Debug, PartialEq, Eq)]
pub struct ModesConfig {
    pub modes: Vec<ResponseMode>,
}

impl View for ModesConfig {
    type V = Seq<ModeModel>;

    open spec fn view(&self) -> Seq<ModeModel> {
        views(self.modes@)
    }
}

impl Default for ModesConfig {
    fn default() -> (r: Self)
        ensures
            r@ == Seq::<ModeModel>::empty(),
    {
        let r = ModesConfig { modes: Vec::new() };
        proof {
            assert(r@ =~= Seq::<ModeModel>::empty());
        }
        r
    }
}

/// The name of the active mode, or what stands for none.
pub open spec fn active_mode_name(modes: Seq<ModeModel>, active: Option<usize>) -> Seq<char> {
    match active {
        Some(index) if index < modes.len() => modes[index as int].name,
        _ => "Без ограничений"@,
    }
}

/// The name of the active mode for the user.
pub fn mode_name(config: &ModesConfig, active_mode: Option<usize>) -> (r: &str)
    ensures
        r@ == active_mode_name(config@, active_mode),
{
    match active_mode {
        Some(index) => if index < config.modes.len() {
            config.modes[index].name.as_str()
        } else {
            "Без ограничений"
        },
        None => "Без ограничений",
    }
}

/// The position of the first mode with a name, or the number of modes.
pub open spec fn mode_index(modes: Seq<ModeModel>, name: Seq<char>) -> nat
    decreases modes.len(),
{
    if modes.len() == 0 || modes[0].name == name {
        0
    } else {
        1 + mode_index(modes.skip(1), name)
    }
}

proof fn lemma_mode_index(modes: Seq<ModeModel>, name: Seq<char>, at: int)
    requires
        0 <= at <= modes.len(),
        at < modes.len() ==> modes[at].name == name,
        forall|i: int| 0 <= i < at ==> (#[trigger] modes[i]).name != name,
    ensures
        mode_index(modes, name) == at,
    decreases modes.len(),
{
    if at > 0 {
        assert(modes[0].name != name);
        let rest = modes.skip(1);
        assert forall|i: int| 0 <= i < at - 1 implies (#[trigger] rest[i]).name != name by {
            assert(rest[i] == modes[i + 1]);
        }
        lemma_mode_index(rest, name, at - 1);
    }
}

impl ModesConfig {
    /// The position of the mode with a name.
    pub fn position(&self, name: &str) -> (r: Option<usize>)
        ensures
            ({
                let at = mode_index(self@, name@);
                match r {
                    Some(index) => index == at && at < self@.len(),
                    None => at == self@.len(),
                }
            }),
    {
        let ghost model = self@;
        let mut i: usize = 0;
        while i < self.modes.len()
            invariant
                i <= self.modes@.len(),
                model == views(self.modes@),
                forall|k: int| 0 <= k < i ==> (#[trigger] model[k]).name != name@,
            decreases self.modes.len() - i,
        {
            if same(self.modes[i].name.as_str(), name) {
                proof {
                    lemma_mode_index(model, name@, i as int);
                }
                return Some(i);
            }
            proof {
                assert(model[i as int].name != name@);
            }
            i += 1;
        }
        proof {
            lemma_mode_index(model, name@, i as int);
        }
        None
    }

    /// Stores a mode under its name: in the place of the mode that has the name, or at the end.
    /// Gives the place.
    pub fn put(&mut self, mode: ResponseMode) -> (r: usize)
        ensures
            ({
                let at = mode_index(old(self)@, mode@.name);
                &&& r == at
                &&& final(self)@ == if at < old(self)@.len() {
                    old(self)@.update(at as int, mode@)
                } else {
                    old(self)@.push(mode@)
                }
            }),
    {
        let ghost model = self@;
        match self.position(mode.name.as_str()) {
            Some(index) => {
                let ghost view = mode@;
                self.modes.set(index, mode);
                proof {
                    assert(self@ =~= model.update(index as int, view));
                }
                index
            },
            None => {
                self.modes.push(mode);
                self.modes.len() - 1
            },
        }
    }
}

/// What the choice of a mode leads to.
#[derive(Debug, Clone, Copy, PartialEq, Eq, Structural)]
pub enum ModeChoice {
    Unrestricted,
    Saved(usize),
    Create,
}

/// The choices offered: no mode, the saved modes in their order, and a new one.
pub fn mode_choice(selected: usize, saved: usize) -> (r: ModeChoice)
    ensures
        r == if selected == 0 {
            ModeChoice::Unrestricted
        } else if selected <= saved {
            ModeChoice::Saved((selected - 1) as usize)
        } else {
            ModeChoice::Create
        },
{
    if selected == 0 {
        ModeChoice::Unrestricted
    } else if selected <= saved {
        ModeChoice::Saved(selected - 1)
    } else {
        ModeChoice::Create
    }
}

/// The trimmed name of a new mode, or why it is refused.
pub open spec fn new_mode_name(name: Seq<char>) -> Result<Seq<char>, Seq<char>> {
    let name = trim(name);
    if name.len() == 0 {
        Err("название не может быть пустым"@)
    } else if name == "Без ограничений"@ {
        Err("режим с названием «"@ + name + "» уже существует"@)
    } else {
        Ok(name)
    }
}

/// Checks the name of a new mode.
pub fn validate_mode_name(name: &str) -> (r: Result<String, String>)
    ensures
        agrees(r, new_mode_name(name@)),
{
    let name = trimmed(name);
    if name.as_str().is_empty() {
        return Err("название не может быть пустым".to_owned());
    }
    if same(name.as_str(), "Без ограничений") {
        return Err(
            "режим с названием «".to_owned().concat(name.as_str()).concat("» уже существует"),
        );
    }
    Ok(name)
}

// The configuration.

/// The settings of one provider. The temperature is kept as the text of a number.
#[derive(Debug, PartialEq, Eq)]
pub struct ProviderConfig {
    pub provider: Provider,
    pub api_key: Option<String>,
    pub model: String,
    pub temperature: String,
}

/// The settings of one provider, mathematically.
pub ghost struct ProviderModel {
    pub provider: Provider,
    pub api_key: Option<Seq<char>>,
    pub model: Seq<char>,
    pub temperature: Seq<char>,
}

impl View for ProviderConfig {
    type V = ProviderModel;

    open spec fn view(&self) -> ProviderModel {
        ProviderModel {
            provider: self.provider,
            api_key: view_option(self.api_key),
            model: self.model@,
            temperature: self.temperature@,
        }
    }
}

/// The configuration of the application.
#[derive(Debug, PartialEq, Eq)]
pub struct Config {
    pub compression_strategy: CompressionStrategy,
    pub context_messages: usize,
    pub last_provider: Option<Provider>,
    pub last_mode: Option<String>,
    pub providers: Vec<ProviderConfig>,
    pub mcp: McpConfig,
    pub second: ProviderName,
}

/// The configuration, mathematically.
pub ghost struct ConfigModel {
    pub compression_strategy: CompressionStrategy,
    pub context_messages: usize,
    pub last_provider: Option<Provider>,
    pub last_mode: Option<Seq<char>>,
    pub providers: Seq<ProviderModel>,
    pub mcp: Seq<ServerModel>,
    pub second: NameModel,
}

impl View for Config {
    type V = ConfigModel;

    open spec fn view(&self) -> ConfigModel {
        ConfigModel {
            compression_strategy: self.compression_strategy,
            context_messages: self.context_messages,
            last_provider: self.last_provider,
            last_mode: view_option(self.last_mode),
            providers: views(self.providers@),
            mcp: self.mcp@,
            second: self.second@,
        }
    }
}

/// A configuration in the form that earlier releases wrote.
#[derive(Debug, PartialEq, Eq)]
pub struct LegacyConfig {
    pub last_provider: Option<Provider>,
    pub openai_api_key: Option<String>,
    pub claude_api_key: Option<String>,
    pub openai_model: String,
    pub claude_model: String,
}

/// The OpenAI model unless another is set.
pub fn default_openai_model() -> (r: String)
    ensures
        r@ == "gpt-5.6-luna"@,
{
    "gpt-5.6-luna".to_owned()
}

/// The model of the second provider unless another is set.
pub fn default_claude_model(second: &ProviderName) -> (r: String)
    ensures
        r@ == second@.key + "-sonnet-5"@,
{
    second.key.clone().concat("-sonnet-5")
}

/// The temperature unless another is set.
pub fn default_temperature_text() -> (r: String)
    ensures
        r@ == "1.0"@,
{
    "1.0".to_owned()
}

/// A configuration whose two providers have these keys and models and nothing else is set.
pub open spec fn fresh_config(
    last_provider: Option<Provider>,
    openai_key: Option<Seq<char>>,
    openai_model: Seq<char>,
    claude_key: Option<Seq<char>>,
    claude_model: Seq<char>,
    second: NameModel,
) -> ConfigModel {
    ConfigModel {
        compression_strategy: CompressionStrategy::Summary,
        context_messages: 10,
        last_provider,
        last_mode: None,
        providers: seq![
            ProviderModel {
                provider: Provider::Openai,
                api_key: openai_key,
                model: openai_model,
                temperature: "1.0"@,
            },
            ProviderModel {
                provider: Provider::Claude,
                api_key: claude_key,
                model: claude_model,
                temperature: "1.0"@,
            },
        ],
        mcp: Seq::empty(),
        second,
    }
}

/// Brings a configuration of an earlier release into the current form.
pub fn migrate_legacy(legacy: LegacyConfig, second: ProviderName) -> (r: Config)
    ensures
        r@ == fresh_config(
            legacy.last_provider,
            view_option(legacy.openai_api_key),
            legacy.openai_model@,
            view_option(legacy.claude_api_key),
            legacy.claude_model@,
            second@,
        ),
{
    let mut providers: Vec<ProviderConfig> = Vec::new();
    providers.push(
        ProviderConfig {
            provider: Provider::Openai,
            api_key: legacy.openai_api_key,
            model: legacy.openai_model,
            temperature: default_temperature_text(),
        },
    );
    providers.push(
        ProviderConfig {
            provider: Provider::Claude,
            api_key: legacy.claude_api_key,
            model: legacy.claude_model,
            temperature: default_temperature_text(),
        },
    );
    let r = Config {
        compression_strategy: CompressionStrategy::Summary,
        context_messages: default_context_messages(),
        last_provider: legacy.last_provider,
        last_mode: None,
        providers,
        mcp: McpConfig::default(),
        second,
    };
    proof {
        let want = fresh_config(
            legacy.last_provider,
            view_option(legacy.openai_api_key),
            legacy.openai_model@,
            view_option(legacy.claude_api_key),
            legacy.claude_model@,
            second@,
        );
        assert(r@.providers =~= want.providers);
    }
    r
}

impl Config {
    /// The configuration before anything is set.
    pub fn fresh(second: ProviderName) -> (r: Config)
        ensures
            r@ == fresh_config(
                None,
                None,
                "gpt-5.6-luna"@,
                None,
                second@.key + "-sonnet-5"@,
                second@,
            ),
    {
        let claude_model = default_claude_model(&second);
        migrate_legacy(
            LegacyConfig {
                last_provider: None,
                openai_api_key: None,
                claude_api_key: None,
                openai_model: default_openai_model(),
                claude_model,
            },
            second,
        )
    }
}

/// The position of the first settings of a provider, or their number.
pub open spec fn provider_index(providers: Seq<ProviderModel>, provider: Provider) -> nat
    decreases providers.len(),
{
    if providers.len() == 0 || providers[0].provider == provider {
        0
    } else {
        1 + provider_index(providers.skip(1), provider)
    }
}

proof fn lemma_provider_index(providers: Seq<ProviderModel>, provider: Provider, at: int)
    requires
        0 <= at <= providers.len(),
        at < providers.len() ==> providers[at].provider == provider,
        forall|i: int| 0 <= i < at ==> (#[trigger] providers[i]).provider != provider,
    ensures
        provider_index(providers, provider) == at,
    decreases providers.len(),
{
    if at > 0 {
        assert(providers[0].provider != provider);
        let rest = providers.skip(1);
        assert forall|i: int| 0 <= i < at - 1 implies (#[trigger] rest[i]).provider
            != provider by {
            assert(rest[i] == providers[i + 1]);
        }
        lemma_provider_index(rest, provider, at - 1);
    }
}

/// The settings of a provider.
pub open spec fn provider_settings(config: ConfigModel, provider: Provider) -> Option<
    ProviderModel,
> {
    let at = provider_index(config.providers, provider) as int;
    if at < config.providers.len() {
        Some(config.providers[at])
    } else {
        None
    }
}

/// The key of a provider, if one is set.
pub open spec fn provider_api_key(config: ConfigModel, provider: Provider) -> Option<Seq<char>> {
    match provider_settings(config, provider) {
        Some(settings) => match settings.api_key {
            Some(key) if trim(key).len() > 0 => Some(key),
            _ => None,
        },
        None => None,
    }
}

/// The model of a provider, or why there is none.
pub open spec fn provider_model(config: ConfigModel, provider: Provider) -> Result<
    Seq<char>,
    Seq<char>,
> {
    match provider_settings(config, provider) {
        Some(settings) if trim(settings.model).len() > 0 => Ok(settings.model),
        _ => Err("для "@ + provider_title(provider, config.second) + " не указана модель"@),
    }
}

/// The temperature of a provider, or why there is none.
pub open spec fn provider_temperature(config: ConfigModel, provider: Provider) -> Result<
    Seq<char>,
    Seq<char>,
> {
    match provider_settings(config, provider) {
        Some(settings) => Ok(settings.temperature),
        None => Err(no_provider(config, provider)),
    }
}

/// The message that a provider has no settings.
pub open spec fn no_provider(config: ConfigModel, provider: Provider) -> Seq<char> {
    "не найдена конфигурация для "@ + provider_title(provider, config.second)
}

/// The configuration with the settings of a provider replaced.
pub open spec fn with_settings(
    config: ConfigModel,
    provider: Provider,
    settings: ProviderModel,
) -> ConfigModel {
    ConfigModel {
        providers: config.providers.update(
            provider_index(config.providers, provider) as int,
            settings,
        ),
        ..config
    }
}

impl Config {
    fn find(&self, provider: Provider) -> (r: usize)
        ensures
            r == provider_index(self@.providers, provider),
            r <= self.providers@.len(),
    {
        let ghost model = self@.providers;
        let mut i: usize = 0;
        while i < self.providers.len() && self.providers[i].provider != provider
            invariant
                i <= self.providers@.len(),
                model == views(self.providers@),
                forall|k: int| 0 <= k < i ==> (#[trigger] model[k]).provider != provider,
            decreases self.providers.len() - i,
        {
            proof {
                assert(model[i as int].provider != provider);
            }
            i += 1;
        }
        proof {
            lemma_provider_index(model, provider, i as int);
        }
        i
    }

    /// The settings of a provider.
    pub fn provider(&self, provider: Provider) -> (r: Option<&ProviderConfig>)
        ensures
            match r {
                Some(settings) => provider_settings(self@, provider) == Some(settings@),
                None => provider_settings(self@, provider) is None,
            },
    {
        let at = self.find(provider);
        if at < self.providers.len() {
            Some(&self.providers[at])
        } else {
            None
        }
    }

    /// The key of a provider, if one is set.
    pub fn key(&self, provider: Provider) -> (r: Option<&str>)
        ensures
            match r {
                Some(key) => provider_api_key(self@, provider) == Some(key@),
                None => provider_api_key(self@, provider) is None,
            },
    {
        match self.provider(provider) {
            Some(settings) => match &settings.api_key {
                Some(key) => if is_blank(key.as_str()) {
                    None
                } else {
                    Some(key.as_str())
                },
                None => None,
            },
            None => None,
        }
    }

    /// The model of a provider.
    pub fn model(&self, provider: Provider) -> (r: Result<&str, String>)
        ensures
            match (r, provider_model(self@, provider)) {
                (Ok(name), Ok(model)) => name@ == model,
                (Err(message), Err(model)) => message@ == model,
                _ => false,
            },
    {
        let message = "для ".to_owned().concat(provider.title(&self.second)).concat(" не указана модель");
        match self.provider(provider) {
            Some(settings) => if is_blank(settings.model.as_str()) {
                Err(message)
            } else {
                Ok(settings.model.as_str())
            },
            None => Err(message),
        }
    }

    /// The temperature of a provider.
    pub fn temperature(&self, provider: Provider) -> (r: Result<&str, String>)
        ensures
            match (r, provider_temperature(self@, provider)) {
                (Ok(text), Ok(model)) => text@ == model,
                (Err(message), Err(model)) => message@ == model,
                _ => false,
            },
    {
        match self.provider(provider) {
            Some(settings) => Ok(settings.temperature.as_str()),
            None => Err("не найдена конфигурация для ".to_owned().concat(provider.title(&self.second))),
        }
    }

    /// Sets the key of a provider that has settings.
    pub fn set_key(&mut self, provider: Provider, key: String)
        ensures
            final(self)@ == match provider_settings(old(self)@, provider) {
                Some(settings) => with_settings(
                    old(self)@,
                    provider,
                    ProviderModel { api_key: Some(key@), ..settings },
                ),
                None => old(self)@,
            },
    {
        let at = self.find(provider);
        let ghost model = self@.providers;
        if at < self.providers.len() {
            let settings = ProviderConfig {
                provider: self.providers[at].provider,
                api_key: Some(key),
                model: self.providers[at].model.clone(),
                temperature: self.providers[at].temperature.clone(),
            };
            let ghost view = settings@;
            self.providers.set(at, settings);
            proof {
                assert(self@.providers =~= model.update(at as int, view));
            }
        }
    }

    /// Sets the model of a provider.
    pub fn set_model(&mut self, provider: Provider, model: String) -> (r: Result<(), String>)
        ensures
            match provider_settings(old(self)@, provider) {
                Some(settings) => r is Ok && final(self)@ == with_settings(
                    old(self)@,
                    provider,
                    ProviderModel { model: model@, ..settings },
                ),
                None => r is Err && r->Err_0@ == no_provider(old(self)@, provider) && final(self)@
                    == old(self)@,
            },
    {
        let at = self.find(provider);
        let ghost providers = self@.providers;
        if at == self.providers.len() {
            return Err("не найдена конфигурация для ".to_owned().concat(provider.title(&self.second)));
        }
        let api_key = match &self.providers[at].api_key {
            Some(key) => Some(key.clone()),
            None => None,
        };
        let settings = ProviderConfig {
            provider: self.providers[at].provider,
            api_key,
            model,
            temperature: self.providers[at].temperature.clone(),
        };
        let ghost view = settings@;
        self.providers.set(at, settings);
        proof {
            assert(self@.providers =~= providers.update(at as int, view));
        }
        Ok(())
    }

    /// Sets the temperature of a provider.
    pub fn set_temperature(&mut self, provider: Provider, temperature: String) -> (r: Result<
        (),
        String,
    >)
        ensures
            match provider_settings(old(self)@, provider) {
                Some(settings) => r is Ok && final(self)@ == with_settings(
                    old(self)@,
                    provider,
                    ProviderModel { temperature: temperature@, ..settings },
                ),
                None => r is Err && r->Err_0@ == no_provider(old(self)@, provider) && final(self)@
                    == old(self)@,
            },
    {
        let at = self.find(provider);
        let ghost providers = self@.providers;
        if at == self.providers.len() {
            return Err("не найдена конфигурация для ".to_owned().concat(provider.title(&self.second)));
        }
        let api_key = match &self.providers[at].api_key {
            Some(key) => Some(key.clone()),
            None => None,
        };
        let settings = ProviderConfig {
            provider: self.providers[at].provider,
            api_key,
            model: self.providers[at].model.clone(),
            temperature,
        };
        let ghost view = settings@;
        self.providers.set(at, settings);
        proof {
            assert(self@.providers =~= providers.update(at as int, view));
        }
        Ok(())
    }

    /// Checks a configuration that was read from its file.
    pub fn check(&self) -> (r: Result<(), String>)
        ensures
            agrees_check(
                r,
                if self.context_messages > CONTEXT_MESSAGES_MAX {
                    Some("размер окна вне диапазона"@)
                } else {
                    servers_error(self@.mcp)
                },
            ),
    {
        if self.context_messages > CONTEXT_MESSAGES_MAX {
            return Err("размер окна вне диапазона".to_owned());
        }
        self.mcp.validate()
    }
}

/// Setting the model of a provider changes that model and nothing that belongs to the other one.
pub proof fn law_settings_are_independent(
    config: ConfigModel,
    provider: Provider,
    settings: ProviderModel,
    other: Provider,
)
    requires
        other != provider,
        settings.provider == provider,
        provider_settings(config, provider) is Some,
    ensures
        provider_settings(with_settings(config, provider, settings), provider) == Some(settings),
        provider_settings(with_settings(config, provider, settings), other) == provider_settings(
            config,
            other,
        ),
{
    let before = config.providers;
    let after = with_settings(config, provider, settings).providers;
    lemma_provider_found(before, provider);
    lemma_provider_found(before, other);
    let at = provider_index(before, provider) as int;
    let place = provider_index(before, other) as int;
    assert forall|i: int| 0 <= i < before.len() implies (#[trigger] after[i]).provider
        == before[i].provider by {}
    lemma_provider_index(after, provider, at);
    lemma_provider_index(after, other, place);
}

/// Settings that belong to the provider are found after they were set, at the same place.
pub proof fn lemma_provider_kept(config: ConfigModel, provider: Provider, settings: ProviderModel)
    requires
        settings.provider == provider,
        provider_settings(config, provider) is Some,
    ensures
        provider_index(with_settings(config, provider, settings).providers, provider)
            == provider_index(config.providers, provider),
        provider_settings(with_settings(config, provider, settings), provider) == Some(settings),
{
    let before = config.providers;
    let after = with_settings(config, provider, settings).providers;
    lemma_provider_found(before, provider);
    let at = provider_index(before, provider) as int;
    assert forall|i: int| 0 <= i < at implies (#[trigger] after[i]).provider != provider by {
        assert(after[i] == before[i]);
    }
    lemma_provider_index(after, provider, at);
}

/// `provider_index` is the least position of the provider.
pub proof fn lemma_provider_found(providers: Seq<ProviderModel>, provider: Provider)
    ensures
        provider_index(providers, provider) <= providers.len(),
        provider_index(providers, provider) < providers.len() ==> providers[provider_index(
            providers,
            provider,
        ) as int].provider == provider,
        forall|i: int|
            0 <= i < provider_index(providers, provider) ==> (#[trigger] providers[i]).provider
                != provider,
    decreases providers.len(),
{
    if providers.len() > 0 && providers[0].provider != provider {
        lemma_provider_found(providers.skip(1), provider);
        assert forall|i: int| 0 <= i < provider_index(providers, provider) implies (
        #[trigger] providers[i]).provider != provider by {
            if i > 0 {
                assert(providers[i] == providers.skip(1)[i - 1]);
            }
        }
    }
}

/// A response mode is found by its name: the first that has it; the name that is shown is its own.
pub proof fn law_mode_is_found_by_name(modes: Seq<ModeModel>, name: Seq<char>, i: int)
    ensures
        mode_index(modes, name) <= modes.len(),
        mode_index(modes, name) < modes.len() ==> modes[mode_index(modes, name) as int].name
            == name,
        0 <= i < modes.len() && modes[i].name == name ==> mode_index(modes, name) <= i,
        0 <= i < modes.len() && i <= usize::MAX ==> active_mode_name(modes, Some(i as usize))
            == modes[i].name,
        active_mode_name(modes, None) == "Без ограничений"@,
    decreases modes.len(),
{
    if modes.len() > 0 {
        law_mode_is_found_by_name(modes.skip(1), name, i - 1);
        if 0 < i < modes.len() {
            assert(modes.skip(1)[i - 1] == modes[i]);
        }
    }
}

/// The name of a new mode is taken without the white space around it, unless it is blank or reserved.
pub proof fn law_new_mode_has_a_name(name: Seq<char>)
    ensures
        match new_mode_name(name) {
            Ok(taken) => taken == trim(name) && taken.len() > 0 && taken != "Без ограничений"@,
            Err(_) => trim(name).len() == 0 || trim(name) == "Без ограничений"@,
        },
{
}

/// A new configuration has the given keys and models, each with its own provider.
pub proof fn law_new_configuration_has_the_given_keys(
    last_provider: Option<Provider>,
    openai_key: Option<Seq<char>>,
    openai_model: Seq<char>,
    claude_key: Option<Seq<char>>,
    claude_model: Seq<char>,
    second: NameModel,
)
    ensures
        ({
            let config = fresh_config(
                last_provider,
                openai_key,
                openai_model,
                claude_key,
                claude_model,
                second,
            );
            &&& config.last_provider == last_provider
            &&& provider_settings(config, Provider::Openai) matches Some(settings)
                && settings.api_key == openai_key && settings.model == openai_model
            &&& provider_settings(config, Provider::Claude) matches Some(settings)
                && settings.api_key == claude_key && settings.model == claude_model
            &&& config.mcp.len() == 0
        }),
{
    let config = fresh_config(
        last_provider,
        openai_key,
        openai_model,
        claude_key,
        claude_model,
        second,
    );
    lemma_provider_index(config.providers, Provider::Openai, 0);
    lemma_provider_index(config.providers, Provider::Claude, 1);
}

} // verus!
