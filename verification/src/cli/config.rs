//! The configuration of a project.
use crate::engine::scheduler::SchedulerConfig;
use crate::engine::settings::VerifyConfig;
use crate::repo::languages::RepoLanguages;
use crate::score::Score;
use crate::text::chars;
use crate::text::chars::{concat2, concat3, own, same};
use crate::text::find;
use crate::text::number;
use crate::text::number::parse_i64;
use crate::text::split;
use crate::text::split::{join, split_char};
use vstd::prelude::*;
use vstd::string::*;

verus! {

broadcast use chars::lemma_texts_push, chars::lemma_texts_empty;

/// The configuration of a project.
#[derive(Debug, Clone)]
pub struct MercuryConfig {
    pub api: ApiConfig,
    pub scheduler: SchedulerConfigToml,
    pub thermal: ThermalConfig,
    pub annealing: AnnealingConfig,
    pub verification: VerificationConfig,
    pub constitutional: ConstitutionalConfig,
    pub repo: RepoConfig,
}

/// How the services are reached.
#[derive(Debug, Clone, PartialEq, Eq)]
pub struct ApiConfig {
    pub mercury2_endpoint: String,
    pub mercury_edit_endpoint: String,
    pub api_key_env: String,
}

/// What a command may use.
#[derive(Debug, Clone, PartialEq, Eq)]
pub struct SchedulerConfigToml {
    pub max_concurrency: usize,
    /// What a command may cost, in billionths of a dollar.
    pub max_cost_per_command: i128,
    pub max_agents_per_command: usize,
    pub retry_limit: u32,
    pub backoff_base_ms: u64,
}

/// How heat is measured.
#[derive(Debug, Clone)]
pub struct ThermalConfig {
    pub decay_half_life_seconds: Score,
    pub aggregation_method: String,
    pub rescan_on_git_pull: bool,
    pub hot_threshold: Score,
    pub cool_threshold: Score,
    pub lock_cool_zones: bool,
}

/// How heat spreads and fades.
#[derive(Debug, Clone)]
pub struct AnnealingConfig {
    pub enable_global_momentum: bool,
    pub initial_temperature: Score,
    pub cooling_rate: Score,
    pub min_modification_threshold: Score,
}

/// How candidates are verified.
#[derive(Debug, Clone, PartialEq, Eq)]
pub struct VerificationConfig {
    pub parse_before_write: bool,
    pub test_after_write: bool,
    pub lint_after_write: bool,
    pub mercury2_critique_on_failure: bool,
    pub test_command: String,
    pub lint_command: String,
}

/// What every edit is to respect.
#[derive(Debug, Clone, PartialEq, Eq)]
pub struct ConstitutionalConfig {
    pub style_guide: String,
    pub architecture_rules: String,
    pub naming_conventions: String,
}

/// What is indexed.
#[derive(Debug, Clone, Copy, PartialEq, Eq, Structural)]
pub struct RepoConfig {
    pub languages: RepoLanguagesConfig,
}

/// Which languages are indexed.
#[derive(Debug, Clone, Copy, PartialEq, Eq, Structural)]
pub struct RepoLanguagesConfig {
    pub rust: bool,
    pub python: bool,
    pub typescript: bool,
    pub go: bool,
    pub java: bool,
}

impl Default for RepoLanguagesConfig {
    /// Rust alone.
    fn default() -> (r: RepoLanguagesConfig)
        ensures
            r == (RepoLanguagesConfig {
                rust: true,
                python: false,
                typescript: false,
                go: false,
                java: false,
            }),
    {
        RepoLanguagesConfig { rust: true, python: false, typescript: false, go: false, java: false }
    }
}

impl Default for RepoConfig {
    /// Rust alone.
    fn default() -> (r: RepoConfig)
        ensures
            r.languages == (RepoLanguagesConfig {
                rust: true,
                python: false,
                typescript: false,
                go: false,
                java: false,
            }),
    {
        RepoConfig { languages: RepoLanguagesConfig::default() }
    }
}

/// A rule under its name, if there is one.
pub open spec fn rule(name: Seq<char>, content: Seq<char>) -> Seq<Seq<char>> {
    if content.len() == 0 {
        Seq::empty()
    } else {
        seq![name + content]
    }
}

/// What every edit is told to respect.
pub open spec fn constitution(c: ConstitutionalConfig) -> Seq<char> {
    split::joined(
        rule("Style guide: "@, c.style_guide@) + rule(
            "Architecture rules: "@,
            c.architecture_rules@,
        ) + rule("Naming conventions: "@, c.naming_conventions@),
        "\n"@,
    )
}

fn push_rule(parts: &mut Vec<String>, name: &str, content: &str)
    ensures
        chars::texts(final(parts)@) == chars::texts(old(parts)@) + rule(name@, content@),
{
    let ghost before = chars::texts(parts@);
    if !content.is_empty() {
        parts.push(concat2(name, content));
    }
    proof {
        assert(chars::texts(parts@) =~= before + rule(name@, content@));
    }
}

impl MercuryConfig {
    /// What every edit is told to respect.
    pub fn constitutional_prompt(&self) -> (r: String)
        ensures
            r@ == constitution(self.constitutional),
    {
        let c = &self.constitutional;
        let mut parts: Vec<String> = Vec::new();
        push_rule(&mut parts, "Style guide: ", c.style_guide.as_str());
        push_rule(&mut parts, "Architecture rules: ", c.architecture_rules.as_str());
        push_rule(&mut parts, "Naming conventions: ", c.naming_conventions.as_str());
        proof {
            assert(chars::texts(parts@) =~= rule("Style guide: "@, c.style_guide@) + rule(
                "Architecture rules: "@,
                c.architecture_rules@,
            ) + rule("Naming conventions: "@, c.naming_conventions@));
        }
        join(parts.as_slice(), "\n")
    }

    /// Which languages are indexed.
    pub fn repo_languages(&self) -> (r: RepoLanguages)
        ensures
            r.rust == self.repo.languages.rust,
            r.python == self.repo.languages.python,
            r.typescript == self.repo.languages.typescript,
            r.go == self.repo.languages.go,
            r.java == self.repo.languages.java,
    {
        RepoLanguages {
            rust: self.repo.languages.rust,
            python: self.repo.languages.python,
            typescript: self.repo.languages.typescript,
            go: self.repo.languages.go,
            java: self.repo.languages.java,
        }
    }

    /// What the scheduler goes by.
    pub fn to_scheduler_config(&self) -> (r: SchedulerConfig)
        ensures
            r.max_concurrency == self.scheduler.max_concurrency,
            r.max_cost_per_command == self.scheduler.max_cost_per_command,
            r.retry_limit == self.scheduler.retry_limit,
            r.backoff_base_ms == self.scheduler.backoff_base_ms,
            r.decay_half_life_seconds == self.thermal.decay_half_life_seconds,
            r.hot_threshold == self.thermal.hot_threshold,
            r.cool_threshold == self.thermal.cool_threshold,
    {
        SchedulerConfig {
            max_concurrency: self.scheduler.max_concurrency,
            max_cost_per_command: self.scheduler.max_cost_per_command,
            retry_limit: self.scheduler.retry_limit,
            backoff_base_ms: self.scheduler.backoff_base_ms,
            decay_half_life_seconds: Score { rank: self.thermal.decay_half_life_seconds.rank },
            hot_threshold: Score { rank: self.thermal.hot_threshold.rank },
            cool_threshold: Score { rank: self.thermal.cool_threshold.rank },
        }
    }

    /// How candidates are verified.
    pub fn build_verify_config(&self) -> (r: VerifyConfig)
        ensures
            r.parse_before_write == self.verification.parse_before_write,
            r.test_after_write == self.verification.test_after_write,
            r.lint_after_write == self.verification.lint_after_write,
            r.mercury2_critique_on_failure == self.verification.mercury2_critique_on_failure,
            r.test_command@ == self.verification.test_command@,
            r.lint_command@ == self.verification.lint_command@,
    {
        let v = &self.verification;
        VerifyConfig {
            parse_before_write: v.parse_before_write,
            test_after_write: v.test_after_write,
            lint_after_write: v.lint_after_write,
            mercury2_critique_on_failure: v.mercury2_critique_on_failure,
            test_command: own(v.test_command.as_str()),
            lint_command: own(v.lint_command.as_str()),
        }
    }
}

/// What the value of a key is.
#[derive(Debug, Clone, Copy, PartialEq, Eq, Structural)]
pub enum ConfigValueKind {
    Text,
    Bool,
    Integer,
    Float,
}

/// A key that can be set, and what its value is.
#[derive(Debug, Clone, Copy, PartialEq, Eq)]
pub struct ConfigKey {
    pub key: &'static str,
    pub kind: ConfigValueKind,
}

/// The keys that can be set.
pub open spec fn known_keys() -> Seq<(Seq<char>, ConfigValueKind)> {
    seq![
        ("api.mercury2_endpoint"@, ConfigValueKind::Text),
        ("api.mercury_edit_endpoint"@, ConfigValueKind::Text),
        ("api.api_key_env"@, ConfigValueKind::Text),
        ("scheduler.max_concurrency"@, ConfigValueKind::Integer),
        ("scheduler.max_cost_per_command"@, ConfigValueKind::Float),
        ("scheduler.max_agents_per_command"@, ConfigValueKind::Integer),
        ("scheduler.retry_limit"@, ConfigValueKind::Integer),
        ("scheduler.backoff_base_ms"@, ConfigValueKind::Integer),
        ("thermal.decay_half_life_seconds"@, ConfigValueKind::Float),
        ("thermal.aggregation_method"@, ConfigValueKind::Text),
        ("thermal.rescan_on_git_pull"@, ConfigValueKind::Bool),
        ("thermal.hot_threshold"@, ConfigValueKind::Float),
        ("thermal.cool_threshold"@, ConfigValueKind::Float),
        ("thermal.lock_cool_zones"@, ConfigValueKind::Bool),
        ("annealing.enable_global_momentum"@, ConfigValueKind::Bool),
        ("annealing.initial_temperature"@, ConfigValueKind::Float),
        ("annealing.cooling_rate"@, ConfigValueKind::Float),
        ("annealing.min_modification_threshold"@, ConfigValueKind::Float),
        ("verification.parse_before_write"@, ConfigValueKind::Bool),
        ("verification.test_after_write"@, ConfigValueKind::Bool),
        ("verification.lint_after_write"@, ConfigValueKind::Bool),
        ("verification.mercury2_critique_on_failure"@, ConfigValueKind::Bool),
        ("verification.test_command"@, ConfigValueKind::Text),
        ("verification.lint_command"@, ConfigValueKind::Text),
        ("repo.languages.rust"@, ConfigValueKind::Bool),
        ("repo.languages.python"@, ConfigValueKind::Bool),
        ("repo.languages.typescript"@, ConfigValueKind::Bool),
        ("repo.languages.go"@, ConfigValueKind::Bool),
        ("repo.languages.java"@, ConfigValueKind::Bool),
        ("constitutional.style_guide"@, ConfigValueKind::Text),
        ("constitutional.architecture_rules"@, ConfigValueKind::Text),
        ("constitutional.naming_conventions"@, ConfigValueKind::Text),
    ]
}

/// What a list of keys stands for.
pub open spec fn keys_view(v: Seq<ConfigKey>) -> Seq<(Seq<char>, ConfigValueKind)> {
    Seq::new(v.len(), |i: int| (v[i].key@, v[i].kind))
}

/// The keys that can be set.
pub fn supported_config_keys() -> (r: Vec<ConfigKey>)
    ensures
        keys_view(r@) == known_keys(),
{
    let r = vec![
        ConfigKey { key: "api.mercury2_endpoint", kind: ConfigValueKind::Text },
        ConfigKey { key: "api.mercury_edit_endpoint", kind: ConfigValueKind::Text },
        ConfigKey { key: "api.api_key_env", kind: ConfigValueKind::Text },
        ConfigKey { key: "scheduler.max_concurrency", kind: ConfigValueKind::Integer },
        ConfigKey { key: "scheduler.max_cost_per_command", kind: ConfigValueKind::Float },
        ConfigKey { key: "scheduler.max_agents_per_command", kind: ConfigValueKind::Integer },
        ConfigKey { key: "scheduler.retry_limit", kind: ConfigValueKind::Integer },
        ConfigKey { key: "scheduler.backoff_base_ms", kind: ConfigValueKind::Integer },
        ConfigKey { key: "thermal.decay_half_life_seconds", kind: ConfigValueKind::Float },
        ConfigKey { key: "thermal.aggregation_method", kind: ConfigValueKind::Text },
        ConfigKey { key: "thermal.rescan_on_git_pull", kind: ConfigValueKind::Bool },
        ConfigKey { key: "thermal.hot_threshold", kind: ConfigValueKind::Float },
        ConfigKey { key: "thermal.cool_threshold", kind: ConfigValueKind::Float },
        ConfigKey { key: "thermal.lock_cool_zones", kind: ConfigValueKind::Bool },
        ConfigKey { key: "annealing.enable_global_momentum", kind: ConfigValueKind::Bool },
        ConfigKey { key: "annealing.initial_temperature", kind: ConfigValueKind::Float },
        ConfigKey { key: "annealing.cooling_rate", kind: ConfigValueKind::Float },
        ConfigKey { key: "annealing.min_modification_threshold", kind: ConfigValueKind::Float },
        ConfigKey { key: "verification.parse_before_write", kind: ConfigValueKind::Bool },
        ConfigKey { key: "verification.test_after_write", kind: ConfigValueKind::Bool },
        ConfigKey { key: "verification.lint_after_write", kind: ConfigValueKind::Bool },
        ConfigKey { key: "verification.mercury2_critique_on_failure", kind: ConfigValueKind::Bool },
        ConfigKey { key: "verification.test_command", kind: ConfigValueKind::Text },
        ConfigKey { key: "verification.lint_command", kind: ConfigValueKind::Text },
        ConfigKey { key: "repo.languages.rust", kind: ConfigValueKind::Bool },
        ConfigKey { key: "repo.languages.python", kind: ConfigValueKind::Bool },
        ConfigKey { key: "repo.languages.typescript", kind: ConfigValueKind::Bool },
        ConfigKey { key: "repo.languages.go", kind: ConfigValueKind::Bool },
        ConfigKey { key: "repo.languages.java", kind: ConfigValueKind::Bool },
        ConfigKey { key: "constitutional.style_guide", kind: ConfigValueKind::Text },
        ConfigKey { key: "constitutional.architecture_rules", kind: ConfigValueKind::Text },
        ConfigKey { key: "constitutional.naming_conventions", kind: ConfigValueKind::Text },
    ];
    proof {
        assert(keys_view(r@) =~= known_keys());
    }
    r
}

/// What the value of a key is, among the given keys.
pub open spec fn kind_among(keys: Seq<(Seq<char>, ConfigValueKind)>, key: Seq<char>, i: int) ->
    Option<ConfigValueKind>
    decreases keys.len() - i,
{
    if i < 0 || i >= keys.len() {
        None
    } else if keys[i].0 == key {
        Some(keys[i].1)
    } else {
        kind_among(keys, key, i + 1)
    }
}

/// What the value of a key is, if the key can be set.
pub fn supported_config_value_kind(key: &str) -> (r: Option<ConfigValueKind>)
    ensures
        r == kind_among(known_keys(), key@, 0),
{
    let keys = supported_config_keys();
    let ghost all = known_keys();
    let mut i: usize = 0;
    while i < keys.len()
        invariant
            keys_view(keys@) == all,
            all == known_keys(),
            i <= keys@.len(),
            kind_among(all, key@, 0) == kind_among(all, key@, i as int),
        decreases keys@.len() - i,
    {
        proof {
            assert(all[i as int] == (keys@[i as int].key@, keys@[i as int].kind));
        }
        if same(keys[i].key, key) {
            return Some(keys[i].kind);
        }
        i = i + 1;
    }
    None
}

/// The names of the keys that can be set.
pub open spec fn key_names() -> Seq<Seq<char>> {
    Seq::new(known_keys().len(), |i: int| known_keys()[i].0)
}

/// The names of the keys that can be set, in one text.
pub fn supported_config_keys_help() -> (r: String)
    ensures
        r@ == split::joined(key_names(), ", "@),
{
    let keys = supported_config_keys();
    let ghost all = known_keys();
    let mut names: Vec<String> = Vec::new();
    let mut i: usize = 0;
    while i < keys.len()
        invariant
            keys_view(keys@) == all,
            i <= keys@.len(),
            names@.len() == i,
            forall|j: int| 0 <= j < i ==> (#[trigger] names@[j])@ == all[j].0,
        decreases keys@.len() - i,
    {
        proof {
            assert(all[i as int] == (keys@[i as int].key@, keys@[i as int].kind));
        }
        names.push(own(keys[i].key));
        i = i + 1;
    }
    proof {
        assert(chars::texts(names@) =~= key_names());
    }
    join(names.as_slice(), ", ")
}

/// What a key that cannot be set is answered.
pub fn unsupported_key(key: &str) -> (r: String)
    ensures
        r@ == "unsupported config key '"@ + key@ + "'. Supported keys: "@ + split::joined(
            key_names(),
            ", "@,
        ),
{
    let mut s = concat3("unsupported config key '", key, "'. Supported keys: ");
    s.append(supported_config_keys_help().as_str());
    s
}

/// A value for a key.
#[derive(Debug, Clone, PartialEq, Eq)]
pub enum ConfigValue {
    Text(String),
    Bool(bool),
    Integer(i64),
    /// A number with a fraction, as it is written.
    Float(String),
}

/// What a [`ConfigValue`] stands for.
#[verifier::ext_equal]
pub enum ValueView {
    Text(Seq<char>),
    Bool(bool),
    Integer(int),
    Float(Seq<char>),
}

impl View for ConfigValue {
    type V = ValueView;

    open spec fn view(&self) -> ValueView {
        match *self {
            ConfigValue::Text(t) => ValueView::Text(t@),
            ConfigValue::Bool(b) => ValueView::Bool(b),
            ConfigValue::Integer(n) => ValueView::Integer(n as int),
            ConfigValue::Float(t) => ValueView::Float(t@),
        }
    }
}

/// What a value that does not fit is answered.
pub open spec fn expected(what: Seq<char>, raw: Seq<char>) -> Seq<char> {
    "expected "@ + what + " value for config key, got '"@ + raw + "'"@
}

/// The value that a text stands for. A number with a fraction is kept as it is written.
pub open spec fn read_value(raw: Seq<char>, kind: ConfigValueKind) -> Result<ValueView, Seq<char>> {
    match kind {
        ConfigValueKind::Text => Ok(ValueView::Text(raw)),
        ConfigValueKind::Bool => if raw == "true"@ {
            Ok(ValueView::Bool(true))
        } else if raw == "false"@ {
            Ok(ValueView::Bool(false))
        } else {
            Err(expected("a boolean"@, raw))
        },
        ConfigValueKind::Integer => match number::parsed_integer(raw) {
            Some(n) => Ok(ValueView::Integer(n)),
            None => Err(expected("an integer"@, raw)),
        },
        ConfigValueKind::Float => Ok(ValueView::Float(raw)),
    }
}

/// What the outcome stands for.
pub open spec fn value_view(r: Result<ConfigValue, String>) -> Result<ValueView, Seq<char>> {
    match r {
        Ok(v) => Ok(v@),
        Err(e) => Err(e@),
    }
}

/// What a value that does not fit is answered.
pub fn expected_value(what: &str, raw: &str) -> (r: String)
    ensures
        r@ == expected(what@, raw@),
{
    let mut s = concat3("expected ", what, " value for config key, got '");
    s.append(raw);
    s.append("'");
    s
}

/// The value that a text stands for. A number with a fraction is kept as it is written.
pub fn parse_config_item(raw: &str, kind: ConfigValueKind) -> (r: Result<ConfigValue, String>)
    ensures
        value_view(r) == read_value(raw@, kind),
{
    match kind {
        ConfigValueKind::Text => Ok(ConfigValue::Text(own(raw))),
        ConfigValueKind::Bool => {
            if same(raw, "true") {
                Ok(ConfigValue::Bool(true))
            } else if same(raw, "false") {
                Ok(ConfigValue::Bool(false))
            } else {
                Err(expected_value("a boolean", raw))
            }
        },
        ConfigValueKind::Integer => match parse_i64(raw) {
            Some(n) => Ok(ConfigValue::Integer(n)),
            None => Err(expected_value("an integer", raw)),
        },
        ConfigValueKind::Float => Ok(ConfigValue::Float(own(raw))),
    }
}

/// What stands at a step on the way to a key.
#[derive(Debug, Clone, Copy, PartialEq, Eq, Structural)]
pub enum TableEntry {
    Missing,
    Table,
    Other,
}

/// What is done at a step on the way to a key.
#[derive(Debug, Clone, PartialEq, Eq)]
pub enum TableStep {
    /// Make a table there and go into it.
    Create,
    /// Go into the table.
    Enter,
    /// Give up.
    Refuse(String),
}

/// The names on the way to a key, the last of which is its own.
pub fn config_key_path(key: &str) -> (r: Vec<String>)
    ensures
        chars::texts(r@) == split::pieces(key@, '.'),
        r@.len() > 0,
{
    let r = split_char(key, '.');
    proof {
        find::lemma_index_from(key@, '.', 0);
        assert(split::pieces_from(key@, '.', 0).len() > 0);
        assert(chars::texts(r@).len() == r@.len());
    }
    r
}

/// What is said where a name on the way to a key leads to no table.
pub open spec fn not_a_table(part: Seq<char>, key: Seq<char>) -> Seq<char> {
    "config path '"@ + part + "' is not a table and cannot contain '"@ + key + "'"@
}

/// What is done at a step on the way to a key.
pub fn table_step(entry: TableEntry, part: &str, key: &str) -> (r: TableStep)
    ensures
        match r {
            TableStep::Create => entry is Missing,
            TableStep::Enter => entry is Table,
            TableStep::Refuse(e) => entry is Other && e@ == not_a_table(part@, key@),
        },
{
    match entry {
        TableEntry::Missing => TableStep::Create,
        TableEntry::Table => TableStep::Enter,
        TableEntry::Other => {
            let mut s = concat3("config path '", part, "' is not a table and cannot contain '");
            s.append(key);
            s.append("'");
            TableStep::Refuse(s)
        },
    }
}

/// The configuration of a new project.
pub const DEFAULT_CONFIG: &'static str = "[api]\n\
mercury2_endpoint = \"https://api.inceptionlabs.ai/v1/chat/completions\"\n\
mercury_edit_endpoint = \"https://api.inceptionlabs.ai/v1\"\n\
api_key_env = \"INCEPTION_API_KEY\"\n\
\n\
[scheduler]\n\
max_concurrency = 20\n\
max_cost_per_command = 0.50\n\
max_agents_per_command = 100\n\
retry_limit = 3\n\
backoff_base_ms = 500\n\
\n\
[thermal]\n\
decay_half_life_seconds = 300\n\
aggregation_method = \"log_sum_exp\"\n\
rescan_on_git_pull = true\n\
hot_threshold = 0.7\n\
cool_threshold = 0.3\n\
lock_cool_zones = true\n\
\n\
[annealing]\n\
enable_global_momentum = true\n\
initial_temperature = 1.0\n\
cooling_rate = 0.02\n\
min_modification_threshold = 0.1\n\
\n\
[verification]\n\
parse_before_write = true\n\
test_after_write = true\n\
lint_after_write = true\n\
mercury2_critique_on_failure = true\n\
test_command = \"cargo test\"\n\
lint_command = \"cargo clippy\"\n\
\n\
[repo.languages]\n\
rust = true\n\
python = false\n\
typescript = false\n\
go = false\n\
java = false\n\
\n\
[constitutional]\n\
style_guide = \"\"\n\
architecture_rules = \"\"\n\
naming_conventions = \"\"\n\
";

proof fn lemma_kind_is_listed(keys: Seq<(Seq<char>, ConfigValueKind)>, key: Seq<char>, i: int)
    requires
        0 <= i,
    ensures
        match kind_among(keys, key, i) {
            Some(k) => keys.contains((key, k)),
            None => forall|j: int| i <= j < keys.len() ==> (#[trigger] keys[j]).0 != key,
        },
    decreases keys.len() - i,
{
    if i < keys.len() && keys[i].0 != key {
        lemma_kind_is_listed(keys, key, i + 1);
    }
}

/// A key can be set exactly if it is among the known ones.
pub proof fn law_only_known_keys_can_be_set(key: Seq<char>)
    ensures
        kind_among(known_keys(), key, 0) is Some <==> key_names().contains(key),
{
    lemma_kind_is_listed(known_keys(), key, 0);
    if kind_among(known_keys(), key, 0) is Some {
        let k = kind_among(known_keys(), key, 0).unwrap();
        let j = choose|j: int| 0 <= j < known_keys().len() && known_keys()[j] == (key, k);
        assert(key_names()[j] == key);
    }
    if key_names().contains(key) {
        let j = choose|j: int| 0 <= j < key_names().len() && key_names()[j] == key;
        assert(known_keys()[j].0 == key);
    }
}

} // verus!
