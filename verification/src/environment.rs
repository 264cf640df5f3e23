//! A server environment: a table of named variables gathered from
//! several sources, with snapshot and restore, `${name}` / `$name` text
//! expansion, and validation of required names.
//!
//! Reading the process environment or a dotenv file is I/O and happens
//! outside the library; the values arrive here as plain pairs.

use vstd::prelude::*;
use vstd::string::StringExecFns;

use crate::text::{
    chars_to_string, is_word_char, lemma_find_char, push_str_chars, spec_dec, spec_find_char,
    str_to_chars, usize_to_dec, word_char,
};
use crate::vars::VarTable;

verus! {

/// Environment variable names that matter to a protocol server built on
/// this library.
pub const MCP_ENVIRONMENT_VARIABLES: [&'static str; 8] = [
    "MCP_SERVER_NAME",
    "MCP_SERVER_VERSION",
    "MCP_LOG_LEVEL",
    "MCP_CONFIG_PATH",
    "MCP_DATA_DIR",
    "MCP_TEMP_DIR",
    "MCP_MAX_MESSAGE_SIZE",
    "MCP_TIMEOUT_SECONDS",
];

/// Where a batch of variables came from.
pub enum EnvironmentSource {
    EnvFile(String),
    ProcessEnv,
    ServerConfig(String),
    Custom(VarTable),
}

/// Errors of the environment layer.
#[derive(Debug)]
pub enum EnvironmentError {
    EnvFileLoad { path: String, message: String },
    MissingMcpVariable { var_name: String },
    InvalidMcpConfig { message: String },
    McpValidationFailed { message: String },
    SnapshotError { message: String },
}

/// The rendering of an environment error as one line of text.
pub open spec fn spec_env_error_message(e: EnvironmentError) -> Seq<char> {
    match e {
        EnvironmentError::EnvFileLoad { path, message } => "Failed to load .env file "@ + path@
            + ": "@ + message@,
        EnvironmentError::MissingMcpVariable { var_name } =>
            "Missing required MCP environment variable: "@ + var_name@,
        EnvironmentError::InvalidMcpConfig { message } =>
            "Invalid MCP environment configuration: "@ + message@,
        EnvironmentError::McpValidationFailed { message } =>
            "MCP environment validation failed: "@ + message@,
        EnvironmentError::SnapshotError { message } => "Environment snapshot error: "@
            + message@,
    }
}

impl EnvironmentError {
    /// The error as one line of text.
    pub fn message(&self) -> (s: String)
        ensures
            s@ == spec_env_error_message(*self),
    {
        match self {
            EnvironmentError::EnvFileLoad { path, message } => {
                let mut s = String::from_str("Failed to load .env file ");
                s.append(path.as_str());
                s.append(": ");
                s.append(message.as_str());
                s
            },
            EnvironmentError::MissingMcpVariable { var_name } => {
                let mut s = String::from_str("Missing required MCP environment variable: ");
                s.append(var_name.as_str());
                s
            },
            EnvironmentError::InvalidMcpConfig { message } => {
                let mut s = String::from_str("Invalid MCP environment configuration: ");
                s.append(message.as_str());
                s
            },
            EnvironmentError::McpValidationFailed { message } => {
                let mut s = String::from_str("MCP environment validation failed: ");
                s.append(message.as_str());
                s
            },
            EnvironmentError::SnapshotError { message } => {
                let mut s = String::from_str("Environment snapshot error: ");
                s.append(message.as_str());
                s
            },
        }
    }
}

/// A collected environment: its variables, the sources they came from
/// in order, and at most one saved snapshot of the variables.
pub struct McpEnvironment {
    pub variables: VarTable,
    pub sources: Vec<EnvironmentSource>,
    pub snapshot: Option<VarTable>,
}

/// The map after binding a sequence of pairs in order, later pairs
/// overriding earlier ones.
pub open spec fn spec_insert_pairs(
    m: Map<Seq<char>, Seq<char>>,
    pairs: Seq<(String, String)>,
) -> Map<Seq<char>, Seq<char>>
    decreases pairs.len(),
{
    if pairs.len() == 0 {
        m
    } else {
        spec_insert_pairs(m.insert(pairs[0].0@, pairs[0].1@), pairs.skip(1))
    }
}

impl McpEnvironment {
    /// Well-formedness: the variable tables keep one entry per name.
    pub open spec fn wf(&self) -> bool {
        &&& self.variables.wf()
        &&& (match self.snapshot {
            Some(s) => s.wf(),
            None => true,
        })
    }

    /// An environment with no variables, no sources and no snapshot.
    pub fn new() -> (r: McpEnvironment)
        ensures
            r.wf(),
            r.variables@ == Map::<Seq<char>, Seq<char>>::empty(),
            r.sources@.len() == 0,
            r.snapshot is None,
    {
        McpEnvironment { variables: VarTable::new(), sources: Vec::new(), snapshot: None }
    }

    /// Absorbs the process environment, handed in as plain pairs, and
    /// records the source.
    pub fn load_process_env(&mut self, vars: Vec<(String, String)>)
        requires
            old(self).wf(),
        ensures
            final(self).wf(),
            final(self).variables@ == spec_insert_pairs(old(self).variables@, vars@),
            final(self).sources@ == old(self).sources@.push(EnvironmentSource::ProcessEnv),
            final(self).snapshot == old(self).snapshot,
    {
        self.absorb_pairs(&vars);
        self.sources.push(EnvironmentSource::ProcessEnv);
    }

    /// Binds every pair, in order.
    fn absorb_pairs(&mut self, vars: &Vec<(String, String)>)
        requires
            old(self).wf(),
        ensures
            final(self).wf(),
            final(self).variables@ == spec_insert_pairs(old(self).variables@, vars@),
            final(self).sources@ == old(self).sources@,
            final(self).snapshot == old(self).snapshot,
    {
        let mut i: usize = 0;
        proof {
            assert(vars@.skip(0) =~= vars@);
        }
        while i < vars.len()
            invariant
                0 <= i <= vars@.len(),
                self.wf(),
                spec_insert_pairs(old(self).variables@, vars@) == spec_insert_pairs(
                    self.variables@,
                    vars@.skip(i as int),
                ),
                self.sources@ == old(self).sources@,
                self.snapshot == old(self).snapshot,
            decreases vars@.len() - i,
        {
            let ghost rest = vars@.skip(i as int);
            proof {
                assert(rest[0] == vars@[i as int]);
                assert(rest.skip(1) =~= vars@.skip(i + 1));
            }
            let pair = &vars[i];
            self.variables.insert(pair.0.clone(), pair.1.clone());
            i = i + 1;
        }
        proof {
            assert(vars@.skip(vars@.len() as int) =~= Seq::<(String, String)>::empty());
        }
    }

    /// Binds the variables of a named server configuration and records
    /// the source under that name.
    pub fn set_server_config(&mut self, config_name: String, vars: VarTable)
        requires
            old(self).wf(),
        ensures
            final(self).wf(),
            final(self).variables@ == spec_insert_pairs(
                old(self).variables@,
                vars.entries_seq(),
            ),
            final(self).sources@ == old(self).sources@.push(
                EnvironmentSource::ServerConfig(config_name),
            ),
            final(self).snapshot == old(self).snapshot,
    {
        let entries = self.table_to_pairs(&vars);
        self.absorb_pairs(&entries);
        self.sources.push(EnvironmentSource::ServerConfig(config_name));
    }

    /// Binds a custom batch of variables and records it as a source.
    pub fn set_custom(&mut self, vars: VarTable)
        requires
            old(self).wf(),
        ensures
            final(self).wf(),
            final(self).variables@ == spec_insert_pairs(
                old(self).variables@,
                vars.entries_seq(),
            ),
            final(self).snapshot == old(self).snapshot,
            final(self).sources@.len() == old(self).sources@.len() + 1,
            final(self).sources@.last() matches EnvironmentSource::Custom(t) && t.entries_seq()
                == vars.entries_seq(),
            final(self).sources@.take(old(self).sources@.len() as int) == old(self).sources@,
    {
        let entries = self.table_to_pairs(&vars);
        self.absorb_pairs(&entries);
        let ghost pre = self.sources@;
        self.sources.push(EnvironmentSource::Custom(vars));
        proof {
            assert(self.sources@.take(pre.len() as int) =~= pre);
        }
    }

    /// The entries of a table as owned pairs.
    fn table_to_pairs(&self, vars: &VarTable) -> (r: Vec<(String, String)>)
        ensures
            r@.len() == vars.entries_seq().len(),
            forall|k: int|
                0 <= k < r@.len() ==> r@[k].0@ == vars.entries_seq()[k].0@ && r@[k].1@
                    == vars.entries_seq()[k].1@,
            r@ == vars.entries_seq(),
    {
        let mut out: Vec<(String, String)> = Vec::new();
        let n = vars.entry_count();
        let mut i: usize = 0;
        while i < n
            invariant
                0 <= i <= n,
                n == vars.entries_seq().len(),
                out@.len() == i,
                out@ == vars.entries_seq().take(i as int),
            decreases n - i,
        {
            let entry = vars.entry_at(i);
            let pair = (entry.0.clone(), entry.1.clone());
            proof {
                assert(pair == vars.entries_seq()[i as int]);
            }
            out.push(pair);
            proof {
                assert(out@ =~= vars.entries_seq().take(i + 1));
            }
            i = i + 1;
        }
        proof {
            assert(out@ =~= vars.entries_seq());
        }
        out
    }

    /// Looks a variable up.
    pub fn get(&self, key: &str) -> (r: Option<&String>)
        requires
            self.wf(),
        ensures
            match r {
                Some(v) => self.variables@.contains_key(key@) && v@ == self.variables@[key@],
                None => !self.variables@.contains_key(key@),
            },
    {
        self.variables.get(key)
    }

    /// Binds one variable.
    pub fn set(&mut self, key: String, value: String)
        requires
            old(self).wf(),
        ensures
            final(self).wf(),
            final(self).variables@ == old(self).variables@.insert(key@, value@),
            final(self).sources@ == old(self).sources@,
            final(self).snapshot == old(self).snapshot,
    {
        self.variables.insert(key, value);
    }

    /// Saves a copy of the current variables, replacing any earlier
    /// snapshot.
    pub fn create_snapshot(&mut self)
        requires
            old(self).wf(),
        ensures
            final(self).wf(),
            final(self).variables@ == old(self).variables@,
            final(self).sources@ == old(self).sources@,
            final(self).snapshot matches Some(s) && s@ == old(self).variables@,
    {
        let copy = self.variables.duplicate();
        self.snapshot = Some(copy);
    }

    /// Restores the variables from the snapshot; fails when none was
    /// saved.
    pub fn restore_from_snapshot(&mut self) -> (r: Result<(), EnvironmentError>)
        requires
            old(self).wf(),
        ensures
            final(self).wf(),
            final(self).sources@ == old(self).sources@,
            final(self).snapshot == old(self).snapshot,
            old(self).snapshot matches Some(s) ==> (r is Ok && final(self).variables@ == s@),
            old(self).snapshot is None ==> (r matches Err(e) && (e
                matches EnvironmentError::SnapshotError { message } && message@
                == "No snapshot available to restore from"@) && final(self).variables@ == old(
                self,
            ).variables@),
    {
        match &self.snapshot {
            Some(s) => {
                let copy = s.duplicate();
                self.variables = copy;
                Ok(())
            },
            None => Err(
                EnvironmentError::SnapshotError {
                    message: String::from_str("No snapshot available to restore from"),
                },
            ),
        }
    }

    /// Forgets the snapshot.
    pub fn clear_snapshot(&mut self)
        ensures
            final(self).variables == old(self).variables,
            final(self).sources@ == old(self).sources@,
            final(self).snapshot is None,
    {
        self.snapshot = None;
    }
}

impl Default for McpEnvironment {
    /// The default environment is the empty one.
    fn default() -> (r: Self)
        ensures
            r.wf(),
            r.variables@ == Map::<Seq<char>, Seq<char>>::empty(),
            r.sources@.len() == 0,
            r.snapshot is None,
    {
        McpEnvironment::new()
    }
}

/// The display label of one source.
pub open spec fn spec_source_label(s: EnvironmentSource) -> Seq<char> {
    match s {
        EnvironmentSource::ProcessEnv => "ProcessEnv"@,
        EnvironmentSource::EnvFile(p) => "EnvFile("@ + p@ + ")"@,
        EnvironmentSource::ServerConfig(n) => "ServerConfig("@ + n@ + ")"@,
        EnvironmentSource::Custom(_) => "Custom"@,
    }
}

/// The source labels from position `k` on, comma-joined.
pub open spec fn spec_source_labels(ss: Seq<EnvironmentSource>, k: int) -> Seq<char>
    decreases ss.len() - k,
{
    if k < 0 || k >= ss.len() {
        Seq::empty()
    } else if k == ss.len() - 1 {
        spec_source_label(ss[k])
    } else {
        spec_source_label(ss[k]) + ", "@ + spec_source_labels(ss, k + 1)
    }
}

/// The names the introspection report looks for, each with the key it
/// reports it under.
pub open spec fn spec_mcp_info_pairs() -> Seq<(Seq<char>, Seq<char>)> {
    seq![
        ("MCP_SERVER_NAME"@, "mcp_mcp_server_name"@),
        ("MCP_SERVER_VERSION"@, "mcp_mcp_server_version"@),
        ("MCP_LOG_LEVEL"@, "mcp_mcp_log_level"@),
        ("MCP_CONFIG_PATH"@, "mcp_mcp_config_path"@),
        ("MCP_DATA_DIR"@, "mcp_mcp_data_dir"@),
        ("MCP_TEMP_DIR"@, "mcp_mcp_temp_dir"@),
        ("MCP_MAX_MESSAGE_SIZE"@, "mcp_mcp_max_message_size"@),
        ("MCP_TIMEOUT_SECONDS"@, "mcp_mcp_timeout_seconds"@),
    ]
}

/// The introspection entries for the watched names from position `k`
/// on, added to `m`.
pub open spec fn spec_add_mcp_info(
    m: Map<Seq<char>, Seq<char>>,
    vars: Map<Seq<char>, Seq<char>>,
    k: int,
) -> Map<Seq<char>, Seq<char>>
    decreases spec_mcp_info_pairs().len() - k,
{
    if k < 0 || k >= spec_mcp_info_pairs().len() {
        m
    } else {
        let p = spec_mcp_info_pairs()[k];
        let m2 = if vars.contains_key(p.0) {
            m.insert(p.1, vars[p.0])
        } else {
            m
        };
        spec_add_mcp_info(m2, vars, k + 1)
    }
}

/// What the introspection report holds.
pub open spec fn spec_env_info(env: McpEnvironment) -> Map<Seq<char>, Seq<char>> {
    let base = Map::<Seq<char>, Seq<char>>::empty().insert(
        "source_count"@,
        spec_dec(env.sources@.len() as nat),
    ).insert("variable_count"@, spec_dec(env.variables.entries_seq().len() as nat)).insert(
        "has_snapshot"@,
        if env.snapshot is Some {
            "true"@
        } else {
            "false"@
        },
    ).insert("sources"@, spec_source_labels(env.sources@, 0));
    spec_add_mcp_info(base, env.variables@, 0)
}

impl McpEnvironment {
    /// Reports the environment for introspection: how many sources and
    /// variables it holds, whether a snapshot exists, the source labels,
    /// and the value of each watched name that is present.
    pub fn get_environment_info(&self) -> (r: VarTable)
        requires
            self.wf(),
        ensures
            r.wf(),
            r@ == spec_env_info(*self),
    {
        let mut info = VarTable::new();
        info.insert(String::from_str("source_count"), usize_to_dec(self.sources.len()));
        info.insert(
            String::from_str("variable_count"),
            usize_to_dec(self.variables.entry_count()),
        );
        info.insert(
            String::from_str("has_snapshot"),
            match &self.snapshot {
                Some(_) => String::from_str("true"),
                None => String::from_str("false"),
            },
        );
        let mut labels = String::new();
        let n = self.sources.len();
        let mut i: usize = 0;
        proof {
            if n > 0 {
                assert(labels@ =~= Seq::<char>::empty());
            }
        }
        while i < n
            invariant
                0 <= i <= n,
                n == self.sources@.len(),
                labels@ + spec_source_labels(self.sources@, i as int) == spec_source_labels(
                    self.sources@,
                    0,
                ),
            decreases n - i,
        {
            match &self.sources[i] {
                EnvironmentSource::ProcessEnv => labels.append("ProcessEnv"),
                EnvironmentSource::EnvFile(p) => {
                    labels.append("EnvFile(");
                    labels.append(p.as_str());
                    labels.append(")");
                },
                EnvironmentSource::ServerConfig(cn) => {
                    labels.append("ServerConfig(");
                    labels.append(cn.as_str());
                    labels.append(")");
                },
                EnvironmentSource::Custom(_) => labels.append("Custom"),
            }
            if i + 1 < n {
                labels.append(", ");
            }
            proof {
                if i + 1 < n {
                    assert(spec_source_labels(self.sources@, i as int) =~= spec_source_label(
                        self.sources@[i as int],
                    ) + ", "@ + spec_source_labels(self.sources@, i + 1));
                } else {
                    assert(spec_source_labels(self.sources@, i + 1) =~= Seq::<char>::empty());
                    assert(spec_source_labels(self.sources@, i as int) =~= spec_source_label(
                        self.sources@[i as int],
                    ));
                }
                assert(labels@ + spec_source_labels(self.sources@, i + 1) =~= spec_source_labels(
                    self.sources@,
                    0,
                ));
            }
            i = i + 1;
        }
        proof {
            assert(spec_source_labels(self.sources@, i as int) =~= Seq::<char>::empty());
            assert(labels@ =~= spec_source_labels(self.sources@, 0));
        }
        info.insert(String::from_str("sources"), labels);
        let ghost base = info@;
        let uppers = MCP_ENVIRONMENT_VARIABLES;
        let lowers = [
            "mcp_mcp_server_name",
            "mcp_mcp_server_version",
            "mcp_mcp_log_level",
            "mcp_mcp_config_path",
            "mcp_mcp_data_dir",
            "mcp_mcp_temp_dir",
            "mcp_mcp_max_message_size",
            "mcp_mcp_timeout_seconds",
        ];
        let mut k: usize = 0;
        proof {
            assert(spec_add_mcp_info(base, self.variables@, 0) == spec_env_info(*self));
        }
        while k < 8
            invariant
                0 <= k <= 8,
                self.wf(),
                info.wf(),
                uppers@.len() == 8,
                lowers@.len() == 8,
                forall|j: int|
                    0 <= j < 8 ==> uppers@[j]@ == spec_mcp_info_pairs()[j].0 && lowers@[j]@
                        == spec_mcp_info_pairs()[j].1,
                uppers@ == MCP_ENVIRONMENT_VARIABLES@,
                spec_add_mcp_info(base, self.variables@, 0) == spec_add_mcp_info(
                    info@,
                    self.variables@,
                    k as int,
                ),
            decreases 8 - k,
        {
            match self.variables.get(uppers[k]) {
                Some(v) => {
                    info.insert(String::from_str(lowers[k]), v.clone());
                },
                None => {},
            }
            k = k + 1;
        }
        proof {
            assert(spec_add_mcp_info(info@, self.variables@, 8) == info@);
        }
        info
    }
}

/// The length of the leading run of identifier characters.
pub open spec fn spec_word_run(s: Seq<char>) -> int
    decreases s.len(),
{
    if s.len() == 0 || !is_word_char(s[0]) {
        0
    } else {
        1 + spec_word_run(s.skip(1))
    }
}

pub proof fn lemma_word_run(s: Seq<char>)
    ensures
        0 <= spec_word_run(s) <= s.len(),
        forall|j: int| 0 <= j < spec_word_run(s) ==> is_word_char(s[j]),
        spec_word_run(s) < s.len() ==> !is_word_char(s[spec_word_run(s)]),
    decreases s.len(),
{
    if s.len() > 0 && is_word_char(s[0]) {
        lemma_word_run(s.skip(1));
        assert forall|j: int| 0 <= j < spec_word_run(s) implies is_word_char(s[j]) by {
            if j > 0 {
                assert(s[j] == s.skip(1)[j - 1]);
            }
        }
        if spec_word_run(s) < s.len() {
            assert(s[spec_word_run(s)] == s.skip(1)[spec_word_run(s) - 1]);
        }
    }
}

/// One expansion pass over the text: a `${name}` span is replaced by the
/// bound value (empty when unbound), a `$name` span of identifier
/// characters likewise; everything else is copied. The flag reports
/// whether any replacement happened.
pub open spec fn spec_expand_pass(s: Seq<char>, m: Map<Seq<char>, Seq<char>>) -> (Seq<char>, bool)
    decreases s.len(),
{
    if s.len() == 0 {
        (Seq::empty(), false)
    } else if s.len() >= 2 && s[0] == '$' && s[1] == '{' {
        match spec_find_char(s.skip(2), '}') {
            Some(j) => {
                // the bound keeps the recursion well-founded; it always
                // holds of a found character
                if 0 <= j && 2 + j + 1 <= s.len() {
                    let name = s.subrange(2, 2 + j);
                    let rep = if m.contains_key(name) {
                        m[name]
                    } else {
                        Seq::empty()
                    };
                    let rest = spec_expand_pass(s.skip(2 + j + 1), m);
                    (rep + rest.0, true)
                } else {
                    let rest = spec_expand_pass(s.skip(1), m);
                    (seq![s[0]] + rest.0, rest.1)
                }
            },
            None => {
                let rest = spec_expand_pass(s.skip(1), m);
                (seq![s[0]] + rest.0, rest.1)
            },
        }
    } else if s[0] == '$' && spec_word_run(s.skip(1)) > 0 {
        let k = spec_word_run(s.skip(1));
        if 1 + k <= s.len() {
            let name = s.subrange(1, 1 + k);
            let rep = if m.contains_key(name) {
                m[name]
            } else {
                Seq::empty()
            };
            let rest = spec_expand_pass(s.skip(1 + k), m);
            (rep + rest.0, true)
        } else {
            let rest = spec_expand_pass(s.skip(1), m);
            (seq![s[0]] + rest.0, rest.1)
        }
    } else {
        let rest = spec_expand_pass(s.skip(1), m);
        (seq![s[0]] + rest.0, rest.1)
    }
}

/// Up to `budget` expansion passes, stopping at the first that changes
/// nothing: the final text and how many passes ran.
pub open spec fn spec_expand_steps(s: Seq<char>, m: Map<Seq<char>, Seq<char>>, budget: nat) -> (
    Seq<char>,
    nat,
)
    decreases budget,
{
    if budget == 0 {
        (s, 0)
    } else {
        let p = spec_expand_pass(s, m);
        if p.1 {
            let rest = spec_expand_steps(p.0, m, (budget - 1) as nat);
            (rest.0, rest.1 + 1)
        } else {
            (p.0, 1)
        }
    }
}

/// Counts the identifier characters from `from` on.
fn word_run_from(v: &Vec<char>, from: usize) -> (k: usize)
    requires
        from <= v@.len(),
    ensures
        k == spec_word_run(v@.skip(from as int)),
        from + k <= v@.len(),
{
    let ghost s = v@.skip(from as int);
    proof {
        lemma_word_run(s);
    }
    let n = v.len();
    let mut k: usize = 0;
    while from + k < n && word_char(v[from + k])
        invariant
            0 <= k,
            from + k <= n,
            n == v@.len(),
            s == v@.skip(from as int),
            forall|j: int| 0 <= j < k ==> is_word_char(s[j]),
        decreases n - from - k,
    {
        proof {
            assert(s[k as int] == v@[from + k]);
        }
        k = k + 1;
    }
    proof {
        lemma_word_run(s);
        if from + k < n {
            assert(s[k as int] == v@[from + k]);
            assert(!is_word_char(s[k as int]));
        }
        if spec_word_run(s) < k {
            assert(is_word_char(s[spec_word_run(s)]));
            assert(!is_word_char(s[spec_word_run(s)]));
        }
        if spec_word_run(s) > k {
            assert(is_word_char(s[k as int]));
        }
    }
    k
}

/// Runs one expansion pass over the text.
fn expand_pass(v: &Vec<char>, table: &VarTable) -> (r: (Vec<char>, bool))
    requires
        table.wf(),
    ensures
        r.0@ == spec_expand_pass(v@, table@).0,
        r.1 == spec_expand_pass(v@, table@).1,
{
    let ghost m = table@;
    let ghost full = spec_expand_pass(v@, m);
    let mut out: Vec<char> = Vec::new();
    let mut changed = false;
    let mut i: usize = 0;
    proof {
        assert(v@.skip(0) =~= v@);
        assert(out@ + full.0 =~= full.0);
    }
    while i < v.len()
        invariant
            0 <= i <= v@.len(),
            m == table@,
            table.wf(),
            full == spec_expand_pass(v@, m),
            full.0 == out@ + spec_expand_pass(v@.skip(i as int), m).0,
            full.1 == (changed || spec_expand_pass(v@.skip(i as int), m).1),
        decreases v@.len() - i,
    {
        let ghost s = v@.skip(i as int);
        let ghost out0 = out@;
        proof {
            assert(s[0] == v@[i as int]);
            assert(s.skip(1) =~= v@.skip(i + 1));
            if s.len() >= 2 {
                assert(s[1] == v@[i + 1]);
            }
        }
        let n = v.len();
        let mut plain = true;
        if n - i >= 2 && v[i] == '$' && v[i + 1] == '{' {
            proof {
                assert(s.skip(2) =~= v@.skip(i + 2));
            }
            let close = find_brace(v, i + 2);
            match close {
                Some(jj) => {
                    proof {
                        lemma_find_char(s.skip(2), '}');
                        assert(spec_find_char(s.skip(2), '}') == Some(jj - (i + 2) as int));
                        assert(jj < v@.len());
                        assert(s.subrange(2, 2 + (jj - (i + 2))) =~= v@.subrange(
                            i + 2,
                            jj as int,
                        ));
                        assert(s.skip(2 + (jj - (i + 2)) + 1) =~= v@.skip(jj + 1));
                    }
                    let name = crate::text::chars_range_to_string(v, i + 2, jj);
                    match table.get(name.as_str()) {
                        Some(val) => {
                            push_str_chars(&mut out, val.as_str());
                        },
                        None => {},
                    }
                    changed = true;
                    i = jj + 1;
                    plain = false;
                    proof {
                        let rep: Seq<char> = if m.contains_key(name@) {
                            m[name@]
                        } else {
                            Seq::empty()
                        };
                        assert(out@ =~= out0 + rep);
                        assert(spec_expand_pass(s, m).0 == rep + spec_expand_pass(
                            v@.skip(i as int),
                            m,
                        ).0);
                        assert(spec_expand_pass(s, m).1);
                        assert(out@ + spec_expand_pass(v@.skip(i as int), m).0 =~= out0
                            + spec_expand_pass(s, m).0);
                    }
                },
                None => {
                    proof {
                        assert(spec_expand_pass(s, m).0 == seq![s[0]] + spec_expand_pass(
                            s.skip(1),
                            m,
                        ).0);
                    }
                },
            }
        } else if v[i] == '$' {
            let k = word_run_from(v, i + 1);
            if k > 0 {
                proof {
                    assert(spec_word_run(s.skip(1)) == k);
                    assert(s.subrange(1, 1 + k as int) =~= v@.subrange(i + 1, i + 1 + k));
                    assert(s.skip(1 + k as int) =~= v@.skip(i + 1 + k));
                }
                let name = crate::text::chars_range_to_string(v, i + 1, i + 1 + k);
                match table.get(name.as_str()) {
                    Some(val) => {
                        push_str_chars(&mut out, val.as_str());
                    },
                    None => {},
                }
                changed = true;
                i = i + 1 + k;
                plain = false;
                proof {
                    let rep: Seq<char> = if m.contains_key(name@) {
                        m[name@]
                    } else {
                        Seq::empty()
                    };
                    assert(out@ =~= out0 + rep);
                    assert(spec_expand_pass(s, m).0 == rep + spec_expand_pass(
                        v@.skip(i as int),
                        m,
                    ).0);
                    assert(spec_expand_pass(s, m).1);
                    assert(out@ + spec_expand_pass(v@.skip(i as int), m).0 =~= out0
                        + spec_expand_pass(s, m).0);
                }
            } else {
                proof {
                    assert(spec_word_run(s.skip(1)) == 0);
                    assert(spec_expand_pass(s, m).0 == seq![s[0]] + spec_expand_pass(
                        s.skip(1),
                        m,
                    ).0);
                }
            }
        } else {
            proof {
                if s.len() >= 2 && s[0] == '$' && s[1] == '{' {
                    assert(false);
                }
                assert(spec_expand_pass(s, m).0 == seq![s[0]] + spec_expand_pass(
                    s.skip(1),
                    m,
                ).0);
            }
        }
        if plain {
            out.push(v[i]);
            i = i + 1;
            proof {
                assert(out@ =~= out0.push(s[0]));
                assert(out@ + spec_expand_pass(v@.skip(i as int), m).0 =~= out0 + (seq![s[0]]
                    + spec_expand_pass(s.skip(1), m).0));
            }
        }
    }
    proof {
        assert(v@.skip(v@.len() as int) =~= Seq::<char>::empty());
        assert(spec_expand_pass(Seq::empty(), m).0 =~= Seq::<char>::empty());
        assert(out@ =~= full.0);
    }
    (out, changed)
}

/// Finds the first `'}'` at or after `from`.
fn find_brace(v: &Vec<char>, from: usize) -> (r: Option<usize>)
    requires
        from <= v@.len(),
    ensures
        r == match spec_find_char(v@.skip(from as int), '}') {
            Some(j) => Some((from + j) as usize),
            None => None::<usize>,
        },
{
    let ghost s = v@.skip(from as int);
    let n = v.len();
    let mut k: usize = from;
    while k < n
        invariant
            from <= k <= n,
            n == v@.len(),
            s == v@.skip(from as int),
            forall|j: int| 0 <= j < k - from ==> s[j] != '}',
        decreases n - k,
    {
        proof {
            assert(s[k - from] == v@[k as int]);
        }
        if v[k] == '}' {
            proof {
                lemma_find_char(s, '}');
                match spec_find_char(s, '}') {
                    Some(j) => {
                        if j < k - from {
                            assert(s[j] != '}');
                        }
                        if j > k - from {
                            assert(s[k - from] != '}');
                        }
                    },
                    None => {
                        assert(s[k - from] != '}');
                    },
                }
            }
            return Some(k);
        }
        k = k + 1;
    }
    proof {
        lemma_find_char(s, '}');
        match spec_find_char(s, '}') {
            Some(j) => {
                assert(s[j] != '}');
            },
            None => {},
        }
    }
    None
}

impl McpEnvironment {
    /// Expands `${name}` and `$name` references against the variables,
    /// passing over the text until nothing changes, ten passes at most;
    /// exhausting the passes — as a circular reference does — is an
    /// error. An unbound name expands to nothing.
    pub fn expand_variables(&self, text: &str) -> (r: Result<String, EnvironmentError>)
        requires
            self.wf(),
        ensures
            ({
                let st = spec_expand_steps(text@, self.variables@, 10);
                match r {
                    Ok(s) => st.1 < 10 && s@ == st.0,
                    Err(e) => st.1 >= 10 && (e
                        matches EnvironmentError::InvalidMcpConfig { message } && message@
                        == "Too many variable expansion iterations - possible circular reference"@),
                }
            }),
    {
        let ghost m = self.variables@;
        let mut cur = str_to_chars(text);
        let mut iterations: usize = 0;
        let mut changed = true;
        while changed && iterations < 10
            invariant
                0 <= iterations <= 10,
                m == self.variables@,
                self.wf(),
                changed ==> spec_expand_steps(text@, m, 10) == (
                    spec_expand_steps(cur@, m, (10 - iterations) as nat).0,
                    (spec_expand_steps(cur@, m, (10 - iterations) as nat).1 + iterations) as nat,
                ),
                !changed ==> spec_expand_steps(text@, m, 10) == (cur@, iterations as nat),
            decreases 10 - iterations,
        {
            let ghost budget = (10 - iterations) as nat;
            let step = expand_pass(&cur, &self.variables);
            proof {
                assert(spec_expand_steps(cur@, m, budget) == if spec_expand_pass(cur@, m).1 {
                    (
                        spec_expand_steps(spec_expand_pass(cur@, m).0, m, (budget - 1) as nat).0,
                        (spec_expand_steps(
                            spec_expand_pass(cur@, m).0,
                            m,
                            (budget - 1) as nat,
                        ).1 + 1) as nat,
                    )
                } else {
                    (spec_expand_pass(cur@, m).0, 1nat)
                });
            }
            cur = step.0;
            changed = step.1;
            iterations = iterations + 1;
        }
        if iterations >= 10 {
            return Err(
                EnvironmentError::InvalidMcpConfig {
                    message: String::from_str(
                        "Too many variable expansion iterations - possible circular reference",
                    ),
                },
            );
        }
        Ok(chars_to_string(&cur))
    }
}

/// The names among `reqs`, in order, that the environment does not bind.
pub open spec fn spec_missing_names(
    vars: Map<Seq<char>, Seq<char>>,
    reqs: Seq<Seq<char>>,
) -> Seq<Seq<char>>
    decreases reqs.len(),
{
    if reqs.len() == 0 {
        Seq::empty()
    } else if vars.contains_key(reqs[0]) {
        spec_missing_names(vars, reqs.skip(1))
    } else {
        seq![reqs[0]] + spec_missing_names(vars, reqs.skip(1))
    }
}

/// Names from position `k` on, comma-joined.
pub open spec fn spec_join_names(names: Seq<Seq<char>>, k: int) -> Seq<char>
    decreases names.len() - k,
{
    if k < 0 || k >= names.len() {
        Seq::empty()
    } else if k == names.len() - 1 {
        names[k]
    } else {
        names[k] + ", "@ + spec_join_names(names, k + 1)
    }
}

/// Checks that the environment binds every required name; the error
/// lists the missing ones, in order, comma-joined.
pub fn validate_mcp_environment(environment: &McpEnvironment, requirements: &[&str]) -> (r:
    Result<(), EnvironmentError>)
    requires
        environment.wf(),
    ensures
        ({
            let missing = spec_missing_names(environment.variables@, requirements.deep_view());
            match r {
                Ok(_) => missing.len() == 0,
                Err(e) => missing.len() > 0 && (e
                    matches EnvironmentError::McpValidationFailed { message } && message@
                    == "Missing required variables: "@ + spec_join_names(missing, 0)),
            }
        }),
{
    let ghost reqs = requirements.deep_view();
    let mut missing: Vec<String> = Vec::new();
    let mut i: usize = 0;
    proof {
        assert(reqs.skip(0) =~= reqs);
        assert(missing@.map_values(|s: String| s@) + spec_missing_names(
            environment.variables@,
            reqs,
        ) =~= spec_missing_names(environment.variables@, reqs));
    }
    while i < requirements.len()
        invariant
            0 <= i <= requirements@.len(),
            reqs == requirements.deep_view(),
            reqs.len() == requirements@.len(),
            forall|j: int| 0 <= j < reqs.len() ==> reqs[j] == requirements@[j]@,
            environment.wf(),
            spec_missing_names(environment.variables@, reqs) == missing@.map_values(
                |s: String| s@,
            ) + spec_missing_names(environment.variables@, reqs.skip(i as int)),
        decreases requirements@.len() - i,
    {
        let ghost rest = reqs.skip(i as int);
        let ghost pre = missing@.map_values(|s: String| s@);
        proof {
            assert(rest[0] == reqs[i as int]);
            assert(rest.skip(1) =~= reqs.skip(i + 1));
        }
        let name = requirements[i];
        match environment.get(name) {
            Some(_) => {},
            None => {
                missing.push(name.to_owned());
                proof {
                    assert(missing@.map_values(|s: String| s@) =~= pre.push(name@));
                    assert(pre.push(name@) + spec_missing_names(
                        environment.variables@,
                        reqs.skip(i + 1),
                    ) =~= pre + (seq![name@] + spec_missing_names(
                        environment.variables@,
                        reqs.skip(i + 1),
                    )));
                }
            },
        }
        i = i + 1;
    }
    proof {
        assert(reqs.skip(reqs.len() as int) =~= Seq::<Seq<char>>::empty());
    }
    if missing.len() == 0 {
        proof {
            assert(spec_missing_names(environment.variables@, reqs) =~= Seq::<Seq<char>>::empty());
        }
        return Ok(());
    }
    let ghost mseq = missing@.map_values(|s: String| s@);
    let mut msg = String::from_str("Missing required variables: ");
    let n = missing.len();
    let mut j: usize = 0;
    proof {
        assert(spec_missing_names(environment.variables@, reqs) =~= mseq);
        assert(msg@ + spec_join_names(mseq, 0) =~= "Missing required variables: "@
            + spec_join_names(mseq, 0));
    }
    while j < n
        invariant
            0 <= j <= n,
            n == missing@.len(),
            mseq == missing@.map_values(|s: String| s@),
            mseq.len() == n,
            msg@ + spec_join_names(mseq, j as int) == "Missing required variables: "@
                + spec_join_names(mseq, 0),
        decreases n - j,
    {
        msg.append(missing[j].as_str());
        if j + 1 < n {
            msg.append(", ");
        }
        proof {
            if j + 1 < n {
                assert(spec_join_names(mseq, j as int) =~= mseq[j as int] + ", "@
                    + spec_join_names(mseq, j + 1));
            } else {
                assert(spec_join_names(mseq, j + 1) =~= Seq::<char>::empty());
                assert(spec_join_names(mseq, j as int) =~= mseq[j as int]);
            }
        }
        j = j + 1;
    }
    proof {
        assert(spec_join_names(mseq, j as int) =~= Seq::<char>::empty());
        assert(msg@ =~= "Missing required variables: "@ + spec_join_names(mseq, 0));
    }
    Err(EnvironmentError::McpValidationFailed { message: msg })
}

} // verus!
