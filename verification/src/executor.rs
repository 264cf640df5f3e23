//! The execution engine: runs a named recipe with positional arguments,
//! resolving parameter bindings, executing declared dependencies first,
//! substituting parameters and variables into the body, and dispatching
//! the body's command lines one by one through a system shell.
//!
//! Everything the engine decides — lookup, argument binding, the text
//! substitution, which lines are dispatched, how outputs are joined and
//! which exit code wins — is specified exactly. What a shell command
//! prints or returns is outside any model: the one trusted wrapper that
//! spawns the shell promises nothing, and the engine's contract states
//! what holds whatever came back.

use vstd::prelude::*;
use vstd::string::StringExecFns;

use crate::text::{
    append_joined, chars_range_to_string, chars_to_string, lemma_charvecs_deep_view, push_range,
    push_str_chars, spec_dec, spec_join, spec_lines, spec_str_views, spec_trim, split_lines,
    str_eq, str_to_chars, trim_bounds, usize_to_dec,
};
use crate::parser::spec_strip_quotes;
use crate::vars::VarTable;
use crate::{Justfile, JustfileModel, ParamModel, Recipe, RecipeModel};

verus! {

/// The outcome of one execution: the aggregated standard output and
/// standard error text, the final exit code, and the wall-clock duration
/// in milliseconds including dependencies.
#[derive(Debug, Clone)]
pub struct ExecutionResult {
    pub stdout: String,
    pub stderr: String,
    pub exit_code: i32,
    pub duration_ms: u64,
}

/// Errors of the execution engine.
///
/// A non-zero exit code of a shell command is not an error: it is
/// reported as data in `ExecutionResult`. `CircularDependency` is raised
/// when the dependency recursion exceeds the number of recipes, which
/// can only happen on a dependency cycle.
#[derive(Debug)]
pub enum ExecutionError {
    RecipeNotFound { recipe_name: String },
    InvalidArguments { recipe_name: String, message: String },
    DependencyFailed { recipe_name: String, dependency: String, source: Box<ExecutionError> },
    ExecutionFailed { recipe_name: String, message: String },
    SubstitutionFailed { message: String },
    CircularDependency { recipe_name: String },
}

/// The rendering of an error as one line of text, dependency failures
/// nesting the text of their cause.
pub open spec fn spec_error_message(e: ExecutionError) -> Seq<char>
    decreases e,
{
    match e {
        ExecutionError::RecipeNotFound { recipe_name } => "Recipe '"@ + recipe_name@
            + "' not found"@,
        ExecutionError::InvalidArguments { recipe_name, message } =>
            "Invalid arguments for recipe '"@ + recipe_name@ + "': "@ + message@,
        ExecutionError::DependencyFailed { recipe_name, dependency, source } => "Dependency '"@
            + dependency@ + "' failed for recipe '"@ + recipe_name@ + "': "@
            + spec_error_message(*source),
        ExecutionError::ExecutionFailed { recipe_name, message } =>
            "Execution failed for recipe '"@ + recipe_name@ + "': "@ + message@,
        ExecutionError::SubstitutionFailed { message } => "Parameter substitution failed: "@
            + message@,
        ExecutionError::CircularDependency { recipe_name } =>
            "Circular dependency detected for recipe '"@ + recipe_name@ + "'"@,
    }
}

impl ExecutionError {
    /// The error as one line of text.
    pub fn message(&self) -> (s: String)
        ensures
            s@ == spec_error_message(*self),
        decreases *self,
    {
        match self {
            ExecutionError::RecipeNotFound { recipe_name } => {
                let mut s = String::from_str("Recipe '");
                s.append(recipe_name.as_str());
                s.append("' not found");
                s
            },
            ExecutionError::InvalidArguments { recipe_name, message } => {
                let mut s = String::from_str("Invalid arguments for recipe '");
                s.append(recipe_name.as_str());
                s.append("': ");
                s.append(message.as_str());
                s
            },
            ExecutionError::DependencyFailed { recipe_name, dependency, source } => {
                let mut s = String::from_str("Dependency '");
                s.append(dependency.as_str());
                s.append("' failed for recipe '");
                s.append(recipe_name.as_str());
                s.append("': ");
                let inner = source.message();
                s.append(inner.as_str());
                s
            },
            ExecutionError::ExecutionFailed { recipe_name, message } => {
                let mut s = String::from_str("Execution failed for recipe '");
                s.append(recipe_name.as_str());
                s.append("': ");
                s.append(message.as_str());
                s
            },
            ExecutionError::SubstitutionFailed { message } => {
                let mut s = String::from_str("Parameter substitution failed: ");
                s.append(message.as_str());
                s
            },
            ExecutionError::CircularDependency { recipe_name } => {
                let mut s = String::from_str("Circular dependency detected for recipe '");
                s.append(recipe_name.as_str());
                s.append("'");
                s
            },
        }
    }
}

/// The position of the first recipe bearing a name, if any.
pub open spec fn spec_find_recipe(rs: Seq<RecipeModel>, name: Seq<char>) -> Option<int>
    decreases rs.len(),
{
    if rs.len() == 0 {
        None
    } else if rs[0].name == name {
        Some(0)
    } else {
        match spec_find_recipe(rs.skip(1), name) {
            Some(i) => Some(i + 1),
            None => None,
        }
    }
}

pub proof fn lemma_find_recipe(rs: Seq<RecipeModel>, name: Seq<char>)
    ensures
        match spec_find_recipe(rs, name) {
            Some(i) => 0 <= i < rs.len() && rs[i].name == name && forall|j: int|
                0 <= j < i ==> rs[j].name != name,
            None => forall|j: int| 0 <= j < rs.len() ==> rs[j].name != name,
        },
    decreases rs.len(),
{
    if rs.len() > 0 && rs[0].name != name {
        lemma_find_recipe(rs.skip(1), name);
        match spec_find_recipe(rs.skip(1), name) {
            Some(i) => {
                assert(rs[i + 1] == rs.skip(1)[i]);
                assert forall|j: int| 0 <= j < i + 1 implies rs[j].name != name by {
                    if j > 0 {
                        assert(rs[j] == rs.skip(1)[j - 1]);
                    }
                }
            },
            None => {
                assert forall|j: int| 0 <= j < rs.len() implies rs[j].name != name by {
                    if j > 0 {
                        assert(rs[j] == rs.skip(1)[j - 1]);
                    }
                }
            },
        }
    }
}

/// Finds the first recipe with the requested name.
pub fn find_recipe<'a>(justfile: &'a Justfile, recipe_name: &str) -> (r: Result<
    &'a Recipe,
    ExecutionError,
>)
    ensures
        match spec_find_recipe(justfile@.recipes, recipe_name@) {
            Some(i) => r matches Ok(rec) && rec@ == justfile@.recipes[i],
            None => r matches Err(e) && e matches ExecutionError::RecipeNotFound {
                recipe_name: n,
            } && n@ == recipe_name@,
        },
{
    let ghost rs = justfile@.recipes;
    let mut i: usize = 0;
    while i < justfile.recipes.len()
        invariant
            0 <= i <= justfile.recipes@.len(),
            rs == justfile@.recipes,
            rs.len() == justfile.recipes@.len(),
            forall|j: int| 0 <= j < i ==> rs[j].name != recipe_name@,
        decreases justfile.recipes@.len() - i,
    {
        let rec = &justfile.recipes[i];
        if str_eq(rec.name.as_str(), recipe_name) {
            proof {
                lemma_find_recipe(rs, recipe_name@);
                assert(rs[i as int].name == recipe_name@);
                match spec_find_recipe(rs, recipe_name@) {
                    Some(k) => {
                        if k < i {
                            assert(rs[k].name != recipe_name@);
                        }
                        if k > i {
                            assert(rs[i as int].name != recipe_name@);
                        }
                    },
                    None => {
                        assert(rs[i as int].name != recipe_name@);
                    },
                }
            }
            return Ok(rec);
        }
        i = i + 1;
    }
    proof {
        lemma_find_recipe(rs, recipe_name@);
        match spec_find_recipe(rs, recipe_name@) {
            Some(k) => {
                assert(rs[k].name != recipe_name@);
            },
            None => {},
        }
    }
    Err(ExecutionError::RecipeNotFound { recipe_name: recipe_name.to_owned() })
}

/// The message of the error for too many positional arguments.
pub open spec fn spec_too_many_msg(n_params: nat, n_args: nat) -> Seq<char> {
    "Expected at most "@ + spec_dec(n_params) + " arguments, got "@ + spec_dec(n_args)
}

/// The message of the error for a required parameter left unbound.
pub open spec fn spec_missing_msg(name: Seq<char>) -> Seq<char> {
    "Missing required parameter: "@ + name
}

/// The first parameter at or after position `k` without a default.
pub open spec fn spec_first_missing(params: Seq<ParamModel>, k: int) -> Option<int>
    decreases params.len() - k,
{
    if k < 0 || k >= params.len() {
        None
    } else if params[k].default_value is None {
        Some(k)
    } else {
        spec_first_missing(params, k + 1)
    }
}

pub proof fn lemma_first_missing(params: Seq<ParamModel>, k: int)
    requires
        0 <= k,
    ensures
        match spec_first_missing(params, k) {
            Some(i) => k <= i < params.len() && params[i].default_value is None && forall|j: int|
                k <= j < i ==> params[j].default_value is Some,
            None => forall|j: int| k <= j < params.len() ==> params[j].default_value is Some,
        },
    decreases params.len() - k,
{
    if k < params.len() && params[k].default_value is Some {
        lemma_first_missing(params, k + 1);
    }
}

/// The value bound to the parameter at position `i`: the positional
/// argument there, or the parameter's default.
pub open spec fn spec_bound_value(params: Seq<ParamModel>, args: Seq<Seq<char>>, i: int) -> Seq<
    char,
> {
    if i < args.len() {
        args[i]
    } else {
        params[i].default_value->Some_0
    }
}

/// The bindings of the first `n` parameters, bound in position order,
/// later bindings of a repeated name overwriting earlier ones.
pub open spec fn spec_bind_map(params: Seq<ParamModel>, args: Seq<Seq<char>>, n: int) -> Map<
    Seq<char>,
    Seq<char>,
>
    decreases n,
{
    if n <= 0 {
        Map::empty()
    } else {
        spec_bind_map(params, args, n - 1).insert(
            params[n - 1].name,
            spec_bound_value(params, args, n - 1),
        )
    }
}

/// What binding arguments to parameters yields: the bindings, or the
/// message of the error.
pub open spec fn spec_validate(params: Seq<ParamModel>, args: Seq<Seq<char>>) -> Result<
    Map<Seq<char>, Seq<char>>,
    Seq<char>,
> {
    if args.len() > params.len() {
        Err(spec_too_many_msg(params.len(), args.len()))
    } else {
        match spec_first_missing(params, args.len() as int) {
            Some(i) => Err(spec_missing_msg(params[i].name)),
            None => Ok(spec_bind_map(params, args, params.len() as int)),
        }
    }
}

/// Binds positional arguments to a recipe's parameters.
///
/// Fails when more arguments than parameters are supplied, or when a
/// parameter beyond the supplied arguments has no default; otherwise
/// every parameter is bound to its argument or default, in order.
pub fn validate_arguments(recipe: &Recipe, args: &[String]) -> (r: Result<
    VarTable,
    ExecutionError,
>)
    ensures
        match spec_validate(recipe@.parameters, spec_str_views(args@)) {
            Ok(m) => r matches Ok(t) && t@ == m && t.wf(),
            Err(msg) => r matches Err(e) && e matches ExecutionError::InvalidArguments {
                recipe_name,
                message,
            } && recipe_name@ == recipe@.name && message@ == msg,
        },
{
    let ghost params = recipe@.parameters;
    let ghost argvs = spec_str_views(args@);
    let n_params = recipe.parameters.len();
    let n_args = args.len();
    proof {
        assert(params.len() == recipe.parameters@.len());
        assert(argvs.len() == args@.len());
    }
    if n_args > n_params {
        let mut msg = String::from_str("Expected at most ");
        let d1 = usize_to_dec(n_params);
        msg.append(d1.as_str());
        msg.append(" arguments, got ");
        let d2 = usize_to_dec(n_args);
        msg.append(d2.as_str());
        return Err(
            ExecutionError::InvalidArguments {
                recipe_name: recipe.name.clone(),
                message: msg,
            },
        );
    }
    let mut table = VarTable::new();
    let mut i: usize = 0;
    while i < n_args
        invariant
            0 <= i <= n_args,
            n_args == args@.len() <= params.len() == recipe.parameters@.len(),
            n_params == recipe.parameters@.len(),
            params == recipe@.parameters,
            argvs == spec_str_views(args@),
            table.wf(),
            table@ == spec_bind_map(params, argvs, i as int),
        decreases n_args - i,
    {
        let key = recipe.parameters[i].name.clone();
        let value = args[i].clone();
        proof {
            assert(params[i as int].name == recipe.parameters@[i as int]@.name);
            assert(argvs[i as int] == args@[i as int]@);
            assert(spec_bound_value(params, argvs, i as int) == argvs[i as int]);
        }
        table.insert(key, value);
        i = i + 1;
    }
    while i < n_params
        invariant
            n_args <= i <= n_params,
            n_args == args@.len(),
            n_params == recipe.parameters@.len(),
            params == recipe@.parameters,
            argvs == spec_str_views(args@),
            args@.len() <= params.len(),
            table.wf(),
            table@ == spec_bind_map(params, argvs, i as int),
            forall|j: int| n_args <= j < i ==> params[j].default_value is Some,
        decreases n_params - i,
    {
        let param = &recipe.parameters[i];
        match &param.default_value {
            Some(d) => {
                let key = param.name.clone();
                let value = d.clone();
                proof {
                    assert(params[i as int].name == recipe.parameters@[i as int]@.name);
                    assert(params[i as int].default_value matches Some(dv) && dv == d@);
                    assert(spec_bound_value(params, argvs, i as int) == d@);
                }
                table.insert(key, value);
            },
            None => {
                proof {
                    assert(params[i as int].default_value is None);
                    lemma_first_missing(params, n_args as int);
                    match spec_first_missing(params, n_args as int) {
                        Some(m) => {
                            if m < i {
                                assert(params[m].default_value is Some);
                            }
                            if m > i {
                                assert(params[i as int].default_value is Some);
                            }
                        },
                        None => {
                            assert(params[i as int].default_value is Some);
                        },
                    }
                    assert(spec_first_missing(params, n_args as int) == Some(i as int));
                }
                let mut msg = String::from_str("Missing required parameter: ");
                msg.append(param.name.as_str());
                return Err(
                    ExecutionError::InvalidArguments {
                        recipe_name: recipe.name.clone(),
                        message: msg,
                    },
                );
            },
        }
        i = i + 1;
    }
    proof {
        lemma_first_missing(params, n_args as int);
        match spec_first_missing(params, n_args as int) {
            Some(m) => {
                assert(params[m].default_value is Some);
            },
            None => {},
        }
    }
    Ok(table)
}

/// Whether a closing `" }}"` marker starts at position `k`.
pub open spec fn spec_close_at(s: Seq<char>, k: int) -> bool {
    0 <= k && k + 3 <= s.len() && s[k] == ' ' && s[k + 1] == '}' && s[k + 2] == '}'
}

/// The position of the first closing `" }}"` marker, if any.
pub open spec fn spec_find_close(s: Seq<char>) -> Option<int>
    decreases s.len(),
{
    if s.len() < 3 {
        None
    } else if s[0] == ' ' && s[1] == '}' && s[2] == '}' {
        Some(0)
    } else {
        match spec_find_close(s.skip(1)) {
            Some(j) => Some(j + 1),
            None => None,
        }
    }
}

pub proof fn lemma_find_close(s: Seq<char>)
    ensures
        match spec_find_close(s) {
            Some(j) => spec_close_at(s, j) && forall|k: int| 0 <= k < j ==> !spec_close_at(s, k),
            None => forall|k: int| !spec_close_at(s, k),
        },
    decreases s.len(),
{
    if s.len() < 3 {
    } else if s[0] == ' ' && s[1] == '}' && s[2] == '}' {
    } else {
        lemma_find_close(s.skip(1));
        assert forall|k: int| 1 <= k && k + 3 <= s.len() implies (spec_close_at(s, k)
            == spec_close_at(s.skip(1), k - 1)) by {
            assert(s.skip(1)[k - 1] == s[k]);
            assert(s.skip(1)[k] == s[k + 1]);
            assert(s.skip(1)[k + 1] == s[k + 2]);
        }
        match spec_find_close(s.skip(1)) {
            Some(j) => {
                assert(spec_close_at(s.skip(1), j));
                assert(spec_close_at(s, j + 1));
                assert forall|k: int| 0 <= k < j + 1 implies !spec_close_at(s, k) by {
                    if k > 0 {
                        assert(!spec_close_at(s.skip(1), k - 1));
                    }
                }
            },
            None => {
                assert forall|k: int| true implies !spec_close_at(s, k) by {
                    if k > 0 {
                        assert(!spec_close_at(s.skip(1), k - 1));
                    }
                }
            },
        }
    }
}

/// Finds the first closing `" }}"` marker at or after `from`.
fn find_close(v: &Vec<char>, from: usize) -> (r: Option<usize>)
    requires
        from <= v@.len(),
    ensures
        r == match spec_find_close(v@.skip(from as int)) {
            Some(j) => Some((from + j) as usize),
            None => None::<usize>,
        },
{
    let ghost s = v@.skip(from as int);
    let n = v.len();
    let mut k: usize = from;
    while k < n && n - k >= 3
        invariant
            from <= k,
            k <= n + 3,
            n == v@.len(),
            s == v@.skip(from as int),
            forall|j: int| 0 <= j < k - from ==> !spec_close_at(s, j),
        decreases n - k,
    {
        proof {
            assert(s[k - from] == v@[k as int]);
            assert(s[k - from + 1] == v@[k + 1]);
            assert(s[k - from + 2] == v@[k + 2]);
        }
        if v[k] == ' ' && v[k + 1] == '}' && v[k + 2] == '}' {
            proof {
                lemma_find_close(s);
                assert(spec_close_at(s, k - from));
                match spec_find_close(s) {
                    Some(j) => {
                        if j < k - from {
                            assert(!spec_close_at(s, j));
                        }
                        if j > k - from {
                            assert(!spec_close_at(s, k - from));
                        }
                    },
                    None => {
                        assert(!spec_close_at(s, k - from));
                    },
                }
            }
            return Some(k);
        }
        k = k + 1;
    }
    proof {
        lemma_find_close(s);
        match spec_find_close(s) {
            Some(j) => {
                assert(spec_close_at(s, j));
                assert(j + 3 <= s.len());
                assert(!spec_close_at(s, j));
            },
            None => {},
        }
    }
    None
}

/// The single-pass substitution scan. At each position, a span of the
/// form `{{ name }}` whose name is bound as a parameter is replaced by
/// the bound value; one bound as a variable is replaced by the
/// variable's value with one layer of outer quotes stripped; any other
/// text, an unbound span included, is copied as it stands.
pub open spec fn spec_subst_scan(
    s: Seq<char>,
    binds: Map<Seq<char>, Seq<char>>,
    vars: Map<Seq<char>, Seq<char>>,
) -> Seq<char>
    decreases s.len(),
{
    if s.len() == 0 {
        Seq::empty()
    } else if s.len() >= 3 && s[0] == '{' && s[1] == '{' && s[2] == ' ' {
        match spec_find_close(s.skip(3)) {
            Some(j) => {
                // the bound keeps the recursion well-founded; `lemma_find_close`
                // shows it always holds of a found marker
                if 0 <= j && j + 6 <= s.len() {
                    let name = s.subrange(3, 3 + j);
                    if binds.contains_key(name) {
                        binds[name] + spec_subst_scan(s.skip(j + 6), binds, vars)
                    } else if vars.contains_key(name) {
                        spec_strip_quotes(vars[name]) + spec_subst_scan(s.skip(j + 6), binds, vars)
                    } else {
                        seq![s[0]] + spec_subst_scan(s.skip(1), binds, vars)
                    }
                } else {
                    seq![s[0]] + spec_subst_scan(s.skip(1), binds, vars)
                }
            },
            None => seq![s[0]] + spec_subst_scan(s.skip(1), binds, vars),
        }
    } else {
        seq![s[0]] + spec_subst_scan(s.skip(1), binds, vars)
    }
}

/// Whether an opening `"{{"` marker occurs anywhere.
pub open spec fn spec_has_open(s: Seq<char>) -> bool {
    exists|k: int| 0 <= k && k + 2 <= s.len() && #[trigger] s[k] == '{' && s[k + 1] == '{'
}

/// Whether a closing `"}}"` marker occurs anywhere.
pub open spec fn spec_has_close(s: Seq<char>) -> bool {
    exists|k: int| 0 <= k && k + 2 <= s.len() && #[trigger] s[k] == '}' && s[k + 1] == '}'
}

/// Whether substitution of a body resolves: the scanned text must not
/// retain both an opening and a closing marker.
pub open spec fn spec_subst_ok(
    body: Seq<char>,
    binds: Map<Seq<char>, Seq<char>>,
    vars: Map<Seq<char>, Seq<char>>,
) -> bool {
    let t = spec_subst_scan(body, binds, vars);
    !(spec_has_open(t) && spec_has_close(t))
}

/// Searches for two adjacent given characters.
fn has_pair(v: &Vec<char>, a: char, b: char) -> (r: bool)
    ensures
        r == exists|k: int| 0 <= k && k + 2 <= v@.len() && #[trigger] v@[k] == a && v@[k + 1]
            == b,
{
    let n = v.len();
    if n < 2 {
        return false;
    }
    let mut k: usize = 0;
    while k < n && n - k >= 2
        invariant
            0 <= k,
            k <= n,
            n == v@.len(),
            forall|j: int|
                0 <= j < k ==> !(j + 2 <= v@.len() && #[trigger] v@[j] == a && v@[j + 1] == b),
        decreases n - k,
    {
        if v[k] == a && v[k + 1] == b {
            proof {
                assert(0 <= k && k + 2 <= v@.len() && v@[k as int] == a && v@[k + 1] == b);
            }
            return true;
        }
        k = k + 1;
    }
    false
}

/// Substitutes bound parameters and variables into a recipe body.
///
/// The result is exactly the single-pass scan `spec_subst_scan`; when
/// both an opening and a closing marker survive the scan, the whole
/// substitution fails instead.
pub fn substitute_parameters(body: &str, param_values: &VarTable, variables: &VarTable) -> (r:
    Result<String, ExecutionError>)
    requires
        param_values.wf(),
        variables.wf(),
    ensures
        ({
            let t = spec_subst_scan(body@, param_values@, variables@);
            match r {
                Ok(s) => s@ == t && spec_subst_ok(body@, param_values@, variables@),
                Err(e) => !spec_subst_ok(body@, param_values@, variables@) && (e
                    matches ExecutionError::SubstitutionFailed { message } && message@
                    == "Unresolved parameter or variable references found"@),
            }
        }),
{
    let ghost bm = param_values@;
    let ghost vm = variables@;
    let vb = str_to_chars(body);
    let mut out: Vec<char> = Vec::new();
    let mut i: usize = 0;
    proof {
        assert(vb@.skip(0) =~= vb@);
        assert(out@ + spec_subst_scan(vb@, bm, vm) =~= spec_subst_scan(vb@, bm, vm));
    }
    while i < vb.len()
        invariant
            0 <= i <= vb@.len(),
            vb@ == body@,
            param_values.wf(),
            variables.wf(),
            bm == param_values@,
            vm == variables@,
            spec_subst_scan(vb@, bm, vm) == out@ + spec_subst_scan(vb@.skip(i as int), bm, vm),
        decreases vb@.len() - i,
    {
        let ghost s = vb@.skip(i as int);
        let ghost out0 = out@;
        proof {
            assert(s[0] == vb@[i as int]);
            assert(s.skip(1) =~= vb@.skip(i + 1));
            if s.len() >= 3 {
                assert(s[1] == vb@[i + 1]);
                assert(s[2] == vb@[i + 2]);
            }
        }
        let mut plain = true;
        if vb.len() - i >= 3 && vb[i] == '{' && vb[i + 1] == '{' && vb[i + 2] == ' ' {
            proof {
                assert(s.skip(3) =~= vb@.skip(i + 3));
            }
            match find_close(&vb, i + 3) {
                Some(jj) => {
                    proof {
                        lemma_find_close(s.skip(3));
                        assert(spec_find_close(s.skip(3)) == Some(jj - (i + 3) as int));
                        assert(spec_close_at(s.skip(3), jj - (i + 3)));
                        assert(jj + 3 <= vb@.len());
                        assert(s.subrange(3, 3 + (jj - (i + 3))) =~= vb@.subrange(
                            i + 3,
                            jj as int,
                        ));
                        assert(s.skip((jj - (i + 3)) + 6) =~= vb@.skip(jj + 3));
                    }
                    let name = chars_range_to_string(&vb, i + 3, jj);
                    match param_values.get(name.as_str()) {
                        Some(val) => {
                            push_str_chars(&mut out, val.as_str());
                            i = jj + 3;
                            plain = false;
                            proof {
                                assert(spec_subst_scan(s, bm, vm) == bm[name@]
                                    + spec_subst_scan(vb@.skip(i as int), bm, vm));
                                assert(out@ =~= out0 + bm[name@]);
                                assert(out@ + spec_subst_scan(vb@.skip(i as int), bm, vm) =~= out0
                                    + spec_subst_scan(s, bm, vm));
                            }
                        },
                        None => {
                            match variables.get(name.as_str()) {
                                Some(val) => {
                                    let vc = str_to_chars(val.as_str());
                                    let to = vc.len();
                                    let (qlo, qhi) = if to >= 2 && vc[0] == vc[to - 1] && (vc[0]
                                        == '"' || vc[0] == '\'') {
                                        (1, to - 1)
                                    } else {
                                        (0, to)
                                    };
                                    push_range(&mut out, &vc, qlo, qhi);
                                    i = jj + 3;
                                    plain = false;
                                    proof {
                                        assert(vc@.subrange(qlo as int, qhi as int)
                                            =~= spec_strip_quotes(vm[name@]));
                                        assert(spec_subst_scan(s, bm, vm) == spec_strip_quotes(
                                            vm[name@],
                                        ) + spec_subst_scan(vb@.skip(i as int), bm, vm));
                                        assert(out@ =~= out0 + spec_strip_quotes(vm[name@]));
                                        assert(out@ + spec_subst_scan(vb@.skip(i as int), bm, vm)
                                            =~= out0 + spec_subst_scan(s, bm, vm));
                                    }
                                },
                                None => {
                                    proof {
                                        assert(spec_subst_scan(s, bm, vm) == seq![s[0]]
                                            + spec_subst_scan(s.skip(1), bm, vm));
                                    }
                                },
                            }
                        },
                    }
                },
                None => {
                    proof {
                        assert(spec_subst_scan(s, bm, vm) == seq![s[0]] + spec_subst_scan(
                            s.skip(1),
                            bm,
                            vm,
                        ));
                    }
                },
            }
        } else {
            proof {
                if s.len() >= 3 && s[0] == '{' && s[1] == '{' && s[2] == ' ' {
                    assert(i + 3 <= vb@.len());
                    assert(false);
                }
                assert(spec_subst_scan(s, bm, vm) == seq![s[0]] + spec_subst_scan(
                    s.skip(1),
                    bm,
                    vm,
                ));
            }
        }
        if plain {
            out.push(vb[i]);
            i = i + 1;
            proof {
                assert(out@ =~= out0.push(s[0]));
                assert(out@ + spec_subst_scan(vb@.skip(i as int), bm, vm) =~= out0 + (seq![s[0]]
                    + spec_subst_scan(s.skip(1), bm, vm)));
            }
        }
    }
    proof {
        assert(vb@.skip(vb@.len() as int) =~= Seq::<char>::empty());
        assert(spec_subst_scan(Seq::empty(), bm, vm) == Seq::<char>::empty());
        assert(out@ =~= spec_subst_scan(vb@, bm, vm));
    }
    if has_pair(&out, '{', '{') && has_pair(&out, '}', '}') {
        return Err(
            ExecutionError::SubstitutionFailed {
                message: String::from_str("Unresolved parameter or variable references found"),
            },
        );
    }
    Ok(chars_to_string(&out))
}

/// A reading of the monotonic clock, used to measure how long a
/// recipe's own commands took.
#[verifier::external_type_specification]
#[verifier::external_body]
pub struct ExInstant(std::time::Instant);

/// Relies on `std::time::Instant::now`: a reading of the monotonic
/// clock. Time depends on the machine, so nothing is promised.
#[verifier::external_body]
fn instant_now() -> std::time::Instant {
    std::time::Instant::now()
}

/// Relies on `std::time::Instant::elapsed`: the time since the reading,
/// converted to whole milliseconds (saturating). Time depends on the
/// machine, so nothing is promised.
#[verifier::external_body]
fn elapsed_millis(start: &std::time::Instant) -> u64 {
    let ms = start.elapsed().as_millis();
    if ms > u64::MAX as u128 {
        u64::MAX
    } else {
        ms as u64
    }
}

/// Relies on `duct::cmd`: runs `sh -c <line>` in `dir` as one blocking
/// process, both streams captured and decoded lossily, a non-zero exit
/// status not treated as an error; the exit code is `None` when the
/// shell was ended by a signal. What a command prints or returns depends
/// on the machine, so nothing is promised of the outcome.
#[verifier::external_body]
fn run_shell_line(line: &String, dir: &str) -> (r: Result<(String, String, Option<i32>), String>) {
    let expr = duct::cmd("sh", vec!["-c".to_string(), line.clone()])
        .dir(dir)
        .stdout_capture()
        .stderr_capture()
        .unchecked();
    match expr.run() {
        Ok(o) => Ok(
            (
                String::from_utf8_lossy(&o.stdout).into_owned(),
                String::from_utf8_lossy(&o.stderr).into_owned(),
                o.status.code(),
            ),
        ),
        Err(e) => Err(e.to_string()),
    }
}

/// Saturating addition of durations.
fn add_millis(a: u64, b: u64) -> (r: u64)
    ensures
        r == if a + b > u64::MAX {
            u64::MAX as int
        } else {
            a + b
        },
{
    if a > u64::MAX - b {
        u64::MAX
    } else {
        a + b
    }
}

/// One command line of a recipe body: whether it is quiet (prefixed
/// `'@'`), and its text.
pub ghost struct CommandModel {
    pub quiet: bool,
    pub text: Seq<char>,
}

/// How one body line is dispatched: a line that trims to nothing or to a
/// comment is skipped; otherwise one leading tab, else one leading run
/// of four spaces, is stripped, and a leading `'@'` marks the command
/// quiet.
pub open spec fn spec_command_of_line(l: Seq<char>) -> Option<CommandModel> {
    let t = spec_trim(l);
    if t.len() == 0 || t[0] == '#' {
        None
    } else {
        let stripped = if l.len() >= 1 && l[0] == '\t' {
            l.skip(1)
        } else if l.len() >= 4 && l[0] == ' ' && l[1] == ' ' && l[2] == ' ' && l[3] == ' ' {
            l.skip(4)
        } else {
            l
        };
        if stripped.len() >= 1 && stripped[0] == '@' {
            Some(CommandModel { quiet: true, text: stripped.skip(1) })
        } else {
            Some(CommandModel { quiet: false, text: stripped })
        }
    }
}

/// The commands of a sequence of body lines, in order.
pub open spec fn spec_commands(lines: Seq<Seq<char>>) -> Seq<CommandModel>
    decreases lines.len(),
{
    if lines.len() == 0 {
        Seq::empty()
    } else {
        match spec_command_of_line(lines[0]) {
            Some(c) => seq![c] + spec_commands(lines.skip(1)),
            None => spec_commands(lines.skip(1)),
        }
    }
}

/// The commands of a substituted recipe body.
pub open spec fn spec_body_commands(body: Seq<char>) -> Seq<CommandModel> {
    spec_commands(spec_lines(body))
}

/// Folds one command's captured output into the running accumulation: a
/// quiet command contributes nothing to the aggregated standard output,
/// while its standard error is always kept; an empty piece never adds a
/// separator.
pub fn accumulate_command(
    stdout_acc: &mut String,
    stderr_acc: &mut String,
    quiet: bool,
    out: &str,
    err: &str,
)
    ensures
        final(stdout_acc)@ == if quiet {
            old(stdout_acc)@
        } else {
            spec_join(old(stdout_acc)@, out@)
        },
        final(stderr_acc)@ == spec_join(old(stderr_acc)@, err@),
{
    if !quiet {
        append_joined(stdout_acc, out);
    }
    append_joined(stderr_acc, err);
}

/// Dispatches the lines of a substituted body one by one through the
/// shell, stopping at the first non-zero exit code.
///
/// The outputs of the commands are outside any model, so the contract
/// states what holds whatever came back: a body without commands yields
/// an empty, successful result, and a body of only quiet commands
/// contributes no standard output. A failure to spawn the shell is the
/// only error.
pub fn execute_commands(body: &str, working_dir: &str, recipe_name: &str) -> (r: Result<
    ExecutionResult,
    ExecutionError,
>)
    ensures
        spec_body_commands(body@).len() == 0 ==> (r matches Ok(res) && res.stdout@.len() == 0
            && res.stderr@.len() == 0 && res.exit_code == 0),
        r matches Ok(res) ==> ((forall|k: int|
            0 <= k < spec_body_commands(body@).len() ==> spec_body_commands(body@)[k].quiet)
            ==> res.stdout@.len() == 0),
        r matches Err(e) ==> e matches ExecutionError::ExecutionFailed { recipe_name: n, .. }
            && n@ == recipe_name@,
{
    let start = instant_now();
    let vb = str_to_chars(body);
    let lines = split_lines(&vb);
    let ghost ls = spec_lines(body@);
    proof {
        lemma_charvecs_deep_view(&lines);
    }
    let ghost cmds = spec_commands(ls);
    let mut stdout_acc = String::new();
    let mut stderr_acc = String::new();
    let mut exit_code: i32 = 0;
    let ghost mut done: Seq<CommandModel> = Seq::empty();
    let mut i: usize = 0;
    proof {
        assert(ls.skip(0) =~= ls);
        assert(done + spec_commands(ls) =~= spec_commands(ls));
    }
    while i < lines.len()
        invariant
            0 <= i <= lines@.len(),
            lines.deep_view() == ls,
            lines.deep_view().len() == lines@.len(),
            forall|k: int| 0 <= k < lines@.len() ==> lines.deep_view()[k] == lines@[k]@,
            ls == spec_lines(body@),
            cmds == spec_commands(ls),
            cmds == done + spec_commands(ls.skip(i as int)),
            done.len() == 0 ==> stdout_acc@.len() == 0 && stderr_acc@.len() == 0 && exit_code
                == 0,
            (forall|k: int| 0 <= k < done.len() ==> done[k].quiet) ==> stdout_acc@.len() == 0,
        decreases lines@.len() - i,
    {
        let line = &lines[i];
        let ghost lv = ls[i as int];
        let n = line.len();
        proof {
            assert(lv == line@);
            assert(ls.skip(i as int)[0] == ls[i as int]);
            assert(ls.skip(i as int).skip(1) =~= ls.skip(i + 1));
        }
        let (lo, hi) = trim_bounds(line, 0, n);
        proof {
            assert(line@.subrange(0, n as int) =~= line@);
            assert(line@.subrange(lo as int, hi as int) == spec_trim(lv));
        }
        if lo == hi || line[lo] == '#' {
            proof {
                if lo < hi {
                    assert(spec_trim(lv)[0] == line@[lo as int]);
                }
                assert(spec_command_of_line(lv) is None);
                assert(spec_commands(ls.skip(i as int)) == spec_commands(ls.skip(i + 1)));
            }
            i = i + 1;
        } else {
            let cs: usize = if n >= 1 && line[0] == '\t' {
                1
            } else if n >= 4 && line[0] == ' ' && line[1] == ' ' && line[2] == ' ' && line[3]
                == ' ' {
                4
            } else {
                0
            };
            let quiet = n - cs >= 1 && line[cs] == '@';
            let text_start = if quiet {
                cs + 1
            } else {
                cs
            };
            let cmd_text = chars_range_to_string(line, text_start, n);
            let ghost cmd = CommandModel { quiet, text: cmd_text@ };
            proof {
                assert(spec_trim(lv)[0] == line@[lo as int]);
                assert(spec_trim(lv).len() > 0 && spec_trim(lv)[0] != '#');
                if cs == 1 {
                    assert(lv.skip(1) =~= lv.subrange(1, n as int));
                } else if cs == 4 {
                    assert(lv.skip(4) =~= lv.subrange(4, n as int));
                } else {
                    assert(lv.skip(0) =~= lv.subrange(0, n as int));
                }
                if quiet {
                    assert(lv.subrange(cs as int, n as int).skip(1) =~= lv.subrange(
                        text_start as int,
                        n as int,
                    ));
                }
                assert(spec_command_of_line(lv) == Some(cmd));
                assert(spec_commands(ls.skip(i as int)) == seq![cmd] + spec_commands(
                    ls.skip(i + 1),
                ));
            }
            match run_shell_line(&cmd_text, working_dir) {
                Ok(outcome) => {
                    let (out, err, code_opt) = outcome;
                    let ghost done0 = done;
                    accumulate_command(
                        &mut stdout_acc,
                        &mut stderr_acc,
                        quiet,
                        out.as_str(),
                        err.as_str(),
                    );
                    proof {
                        done = done0.push(cmd);
                        assert(done0 + (seq![cmd] + spec_commands(ls.skip(i + 1))) =~= done
                            + spec_commands(ls.skip(i + 1)));
                        if forall|q: int| 0 <= q < done.len() ==> done[q].quiet {
                            assert(done[done.len() - 1] == cmd);
                            assert forall|q: int| 0 <= q < done0.len() implies done0[q].quiet by {
                                assert(done0[q] == done[q]);
                            }
                        }
                    }
                    let code = match code_opt {
                        Some(c) => c,
                        None => -1,
                    };
                    i = i + 1;
                    if code != 0 {
                        exit_code = code;
                        proof {
                            assert(done.len() > 0);
                        }
                        break;
                    }
                },
                Err(m) => {
                    proof {
                        assert(cmds.len() >= done.len() + 1);
                    }
                    return Err(
                        ExecutionError::ExecutionFailed {
                            recipe_name: recipe_name.to_owned(),
                            message: m,
                        },
                    );
                },
            }
        }
    }
    proof {
        if i >= lines@.len() && exit_code == 0 {
            assert(ls.skip(ls.len() as int) =~= Seq::<Seq<char>>::empty());
        }
        assert(spec_body_commands(body@) == cmds);
        if cmds.len() == 0 {
            assert(done.len() == 0);
        }
        if forall|k: int|
            0 <= k < spec_body_commands(body@).len() ==> spec_body_commands(body@)[k].quiet {
            assert forall|k: int| 0 <= k < done.len() implies done[k].quiet by {
                assert(done[k] == cmds[k]);
                assert(spec_body_commands(body@)[k].quiet);
            }
            assert(stdout_acc@.len() == 0);
        }
    }
    let duration = elapsed_millis(&start);
    Ok(
        ExecutionResult {
            stdout: stdout_acc,
            stderr: stderr_acc,
            exit_code,
            duration_ms: duration,
        },
    )
}

/// The error names the requested recipe as not found.
pub open spec fn spec_is_not_found(e: ExecutionError, name: Seq<char>) -> bool {
    e matches ExecutionError::RecipeNotFound { recipe_name } && recipe_name@ == name
}

/// The error reports invalid arguments for the recipe, with the message.
pub open spec fn spec_is_invalid_args(e: ExecutionError, name: Seq<char>, msg: Seq<char>) -> bool {
    e matches ExecutionError::InvalidArguments { recipe_name, message } && recipe_name@ == name
        && message@ == msg
}

/// The error reports the failure of one of the recipe's dependencies.
pub open spec fn spec_is_dep_failed(e: ExecutionError, name: Seq<char>, deps: Seq<Seq<char>>) -> bool {
    e matches ExecutionError::DependencyFailed { recipe_name, dependency, .. } && recipe_name@
        == name && deps.contains(dependency@)
}

/// The error reports residual unresolved substitution markers.
pub open spec fn spec_is_subst_failed(e: ExecutionError) -> bool {
    e is SubstitutionFailed
}

/// The error reports that the shell could not be spawned for the recipe.
pub open spec fn spec_is_exec_failed(e: ExecutionError, name: Seq<char>) -> bool {
    e matches ExecutionError::ExecutionFailed { recipe_name, .. } && recipe_name@ == name
}

/// The contract of one execution call.
///
/// An unknown name fails with `RecipeNotFound`, and with nothing else.
/// For the first recipe of that name, a binding failure surfaces as
/// `InvalidArguments` with the exact message, if and only if binding
/// fails. With the arguments bound, any error is a dependency failure
/// naming one of the recipe's own dependencies, a substitution failure
/// (exactly when the substitution scan leaves markers — guaranteed in
/// both directions once there are no dependencies to fail first), or a
/// failure to spawn the shell. A recipe without dependencies whose
/// substituted body holds no command lines succeeds with empty output
/// and exit code zero.
pub open spec fn spec_execute_post(
    jf: JustfileModel,
    name: Seq<char>,
    args: Seq<Seq<char>>,
    r: Result<ExecutionResult, ExecutionError>,
) -> bool {
    let found = spec_find_recipe(jf.recipes, name);
    let rec = jf.recipes[found->Some_0];
    let val = spec_validate(rec.parameters, args);
    let binds = val->Ok_0;
    &&& (found is None ==> (r matches Err(e) && spec_is_not_found(e, name)))
    &&& (found is Some && val is Err ==> (r matches Err(e) && spec_is_invalid_args(
        e,
        name,
        val->Err_0,
    )))
    &&& (found is Some && val is Ok && r is Err ==> (r matches Err(e) && (spec_is_dep_failed(
        e,
        name,
        rec.dependencies,
    ) || spec_is_subst_failed(e) || spec_is_exec_failed(e, name))))
    &&& (found is Some && val is Ok && r is Err ==> (r matches Err(e) && (spec_is_subst_failed(e)
        ==> !spec_subst_ok(rec.body, binds, jf.variables))))
    &&& (found is Some && val is Ok && r is Ok ==> spec_subst_ok(rec.body, binds, jf.variables))
    &&& (found is Some && val is Ok && rec.dependencies.len() == 0 && !spec_subst_ok(
        rec.body,
        binds,
        jf.variables,
    ) ==> (r matches Err(e) && spec_is_subst_failed(e)))
    &&& (found is Some && val is Ok && rec.dependencies.len() == 0 && spec_subst_ok(
        rec.body,
        binds,
        jf.variables,
    ) && spec_body_commands(spec_subst_scan(rec.body, binds, jf.variables)).len() == 0 ==> (r
        matches Ok(res) && res.stdout@.len() == 0 && res.stderr@.len() == 0 && res.exit_code
        == 0))
}

/// Executes one recipe, `fuel` bounding the depth of the dependency
/// recursion.
#[verifier::rlimit(100)]
fn execute_inner(
    justfile: &Justfile,
    recipe_name: &str,
    args: &[String],
    working_dir: &str,
    fuel: usize,
) -> (r: Result<ExecutionResult, ExecutionError>)
    requires
        justfile.wf(),
    ensures
        fuel == 0 ==> (r matches Err(e) && (e matches ExecutionError::CircularDependency {
            recipe_name: n,
        } && n@ == recipe_name@)),
        fuel > 0 ==> spec_execute_post(justfile@, recipe_name@, spec_str_views(args@), r),
    decreases fuel,
{
    if fuel == 0 {
        return Err(ExecutionError::CircularDependency { recipe_name: recipe_name.to_owned() });
    }
    let recipe = match find_recipe(justfile, recipe_name) {
        Ok(rec) => rec,
        Err(e) => {
            return Err(e);
        },
    };
    let ghost idx = spec_find_recipe(justfile@.recipes, recipe_name@)->Some_0;
    proof {
        lemma_find_recipe(justfile@.recipes, recipe_name@);
    }
    let binds = match validate_arguments(recipe, args) {
        Ok(t) => t,
        Err(e) => {
            return Err(e);
        },
    };
    let mut dep_stdout = String::new();
    let mut dep_stderr = String::new();
    let mut dep_exit: i32 = 0;
    let mut dep_duration: u64 = 0;
    let mut di: usize = 0;
    while di < recipe.dependencies.len()
        invariant
            justfile.wf(),
            0 <= di <= recipe.dependencies@.len(),
            0 <= idx < justfile@.recipes.len(),
            spec_find_recipe(justfile@.recipes, recipe_name@) == Some(idx),
            recipe@ == justfile@.recipes[idx],
            justfile@.recipes[idx].name == recipe_name@,
            binds.wf(),
            spec_validate(justfile@.recipes[idx].parameters, spec_str_views(args@)) == Ok::<
                Map<Seq<char>, Seq<char>>,
                Seq<char>,
            >(binds@),
            recipe@.dependencies.len() == recipe.dependencies@.len(),
            recipe@.dependencies.len() == 0 ==> dep_stdout@.len() == 0 && dep_stderr@.len() == 0
                && dep_exit == 0,
            fuel >= 1,
        decreases recipe.dependencies@.len() - di,
    {
        let dep = &recipe.dependencies[di];
        let no_args: [String; 0] = [];
        match execute_inner(justfile, dep.as_str(), &no_args, working_dir, fuel - 1) {
            Ok(dres) => {
                append_joined(&mut dep_stdout, dres.stdout.as_str());
                append_joined(&mut dep_stderr, dres.stderr.as_str());
                dep_duration = add_millis(dep_duration, dres.duration_ms);
                if dres.exit_code != 0 {
                    dep_exit = dres.exit_code;
                }
            },
            Err(e) => {
                proof {
                    crate::text::lemma_strings_deep_view(&recipe.dependencies);
                    assert(recipe@.dependencies[di as int] == recipe.dependencies@[di as int]@);
                    assert(recipe@.dependencies.contains(dep@));
                }
                return Err(
                    ExecutionError::DependencyFailed {
                        recipe_name: recipe_name.to_owned(),
                        dependency: dep.clone(),
                        source: Box::new(e),
                    },
                );
            },
        }
        di = di + 1;
    }
    let substituted = match substitute_parameters(
        recipe.body.as_str(),
        &binds,
        &justfile.variables,
    ) {
        Ok(s) => s,
        Err(e) => {
            proof {
                let jfv = justfile@;
                let nm = recipe_name@;
                let avs = spec_str_views(args@);
                let rec = jfv.recipes[idx];
                assert(spec_find_recipe(jfv.recipes, nm) == Some(idx));
                assert(spec_validate(rec.parameters, avs) == Ok::<
                    Map<Seq<char>, Seq<char>>,
                    Seq<char>,
                >(binds@));
                assert(spec_is_subst_failed(e));
                assert(rec.body == recipe.body@);
                assert(!spec_subst_ok(rec.body, binds@, jfv.variables));
                assert(spec_execute_post(jfv, nm, avs, Err::<ExecutionResult, ExecutionError>(e)));
            }
            return Err(e);
        },
    };
    let own = match execute_commands(substituted.as_str(), working_dir, recipe_name) {
        Ok(res) => res,
        Err(e) => {
            return Err(e);
        },
    };
    let mut stdout = dep_stdout;
    append_joined(&mut stdout, own.stdout.as_str());
    let mut stderr = dep_stderr;
    append_joined(&mut stderr, own.stderr.as_str());
    let exit_code = if own.exit_code != 0 {
        own.exit_code
    } else {
        dep_exit
    };
    let duration_ms = add_millis(own.duration_ms, dep_duration);
    Ok(ExecutionResult { stdout, stderr, exit_code, duration_ms })
}

/// Executes the named recipe with positional arguments in a working
/// directory: binds the arguments to the recipe's parameters, executes
/// its dependencies in declaration order (each with no arguments),
/// substitutes parameters and variables into the body, dispatches the
/// body's command lines through the shell stopping at the first failing
/// one, and returns the aggregated outputs. The dependency output comes
/// first, newline-joined; the recipe's own exit code wins unless it is
/// zero and a dependency recorded a non-zero one.
pub fn execute_recipe(
    justfile: &Justfile,
    recipe_name: &str,
    args: &[String],
    working_dir: &str,
) -> (r: Result<ExecutionResult, ExecutionError>)
    requires
        justfile.wf(),
    ensures
        spec_execute_post(justfile@, recipe_name@, spec_str_views(args@), r),
{
    let n = justfile.recipes.len();
    let fuel = if n < usize::MAX {
        n + 1
    } else {
        n
    };
    execute_inner(justfile, recipe_name, args, working_dir, fuel)
}

} // verus!
