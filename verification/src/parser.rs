//! The recipe parser: turns the raw text of a task definition file into
//! the structured `Justfile` model.
//!
//! Each physical line is classified independently, in order of
//! precedence: blank, comment, variable assignment, recipe header, body
//! line, and otherwise an error naming the line. The whole parse is
//! specified as a fold of `spec_parse_step` over the physical lines, and
//! `parse_justfile_str` returns exactly that fold's outcome.

use vstd::prelude::*;
use vstd::string::StringExecFns;

use crate::text::{
    append_chars, chars_range_to_string, chars_to_string, copy_range, find_char, is_word_char,
    lemma_charvecs_deep_view, lemma_find_char, lemma_strings_deep_view, push_char,
    spec_find_char, spec_lines, spec_split_ws, spec_trim, split_lines, split_ws_range,
    str_to_chars, trim_bounds, word_char,
};
use crate::vars::VarTable;
use crate::{Justfile, JustfileModel, ParamModel, Parameter, Recipe, RecipeModel};

verus! {

/// Errors of the parser. A `ParseError` carries the 1-based number of
/// the offending line and a description of it.
#[derive(Debug)]
pub enum ParserError {
    ParseError { line: usize, message: String },
    InvalidRecipe { message: String },
}

/// Interpretation of a trimmed line as a variable assignment: the text
/// left of the first `'='` trims to a non-empty identifier, the value is
/// the trimmed remainder, kept verbatim.
pub open spec fn spec_var_assign(t: Seq<char>) -> Option<(Seq<char>, Seq<char>)> {
    match spec_find_char(t, '=') {
        Some(e) => {
            let k = spec_trim(t.subrange(0, e));
            let v = spec_trim(t.skip(e + 1));
            if k.len() > 0 && (forall|j: int| 0 <= j < k.len() ==> is_word_char(k[j])) {
                Some((k, v))
            } else {
                None
            }
        },
        None => None,
    }
}

/// One layer of matching outer quotes removed, if present.
pub open spec fn spec_strip_quotes(v: Seq<char>) -> Seq<char> {
    if v.len() >= 2 && v[0] == v[v.len() - 1] && (v[0] == '"' || v[0] == '\'') {
        v.subrange(1, v.len() - 1)
    } else {
        v
    }
}

/// Interpretation of one header token as a parameter. A token with `'='`
/// names a parameter with a default (quotes stripped one layer); a bare
/// token is a required parameter, a leading `'*'` marker being dropped.
pub open spec fn spec_param(tok: Seq<char>) -> ParamModel {
    match spec_find_char(tok, '=') {
        Some(e) => ParamModel {
            name: tok.subrange(0, e),
            default_value: Some(spec_strip_quotes(tok.skip(e + 1))),
        },
        None => ParamModel {
            name: if tok.len() > 0 && tok[0] == '*' {
                tok.skip(1)
            } else {
                tok
            },
            default_value: None,
        },
    }
}

/// Interpretation of a trimmed line as a recipe header: a line with a
/// `':'` whose part before the colon splits into at least one token. The
/// first token is the name, the rest are parameters, and the remainder
/// after the colon splits into dependency names.
pub open spec fn spec_recipe_header(t: Seq<char>) -> Option<
    (Seq<char>, Seq<ParamModel>, Seq<Seq<char>>),
> {
    match spec_find_char(t, ':') {
        Some(c) => {
            let toks = spec_split_ws(t.subrange(0, c));
            if toks.len() == 0 {
                None
            } else {
                Some(
                    (
                        toks[0],
                        toks.skip(1).map_values(|tk: Seq<char>| spec_param(tk)),
                        spec_split_ws(t.skip(c + 1)),
                    ),
                )
            }
        },
        None => None,
    }
}

/// A raw line that belongs to the recipe being collected: it starts with
/// a tab or with four literal spaces.
pub open spec fn spec_is_body_line(l: Seq<char>) -> bool {
    (l.len() >= 1 && l[0] == '\t') || (l.len() >= 4 && l[0] == ' ' && l[1] == ' ' && l[2] == ' '
        && l[3] == ' ')
}

/// The message of the parse error for an unrecognised line.
pub open spec fn spec_unexpected_msg(t: Seq<char>) -> Seq<char> {
    "Unexpected content: "@ + t
}

/// The parser's running state: finished recipes, the variables seen so
/// far, the recipe whose body lines are being collected, and the most
/// recent non-empty comment, pending as documentation.
pub ghost struct ParseState {
    pub recipes: Seq<RecipeModel>,
    pub variables: Map<Seq<char>, Seq<char>>,
    pub current: Option<RecipeModel>,
    pub pending_doc: Option<Seq<char>>,
}

pub open spec fn spec_init_state() -> ParseState {
    ParseState {
        recipes: Seq::empty(),
        variables: Map::empty(),
        current: None,
        pending_doc: None,
    }
}

/// The finished recipe sequence: the in-progress recipe, if any, is
/// appended at the end.
pub open spec fn spec_flush(st: ParseState) -> Seq<RecipeModel> {
    match st.current {
        Some(r) => st.recipes.push(r),
        None => st.recipes,
    }
}

/// One line's effect on the parser state, or the message of the error it
/// raises.
pub open spec fn spec_parse_step(st: ParseState, l: Seq<char>) -> Result<ParseState, Seq<char>> {
    let t = spec_trim(l);
    if t.len() == 0 {
        Ok(st)
    } else if t[0] == '#' {
        let c = spec_trim(t.skip(1));
        if c.len() > 0 {
            Ok(
                ParseState {
                    recipes: st.recipes,
                    variables: st.variables,
                    current: st.current,
                    pending_doc: Some(c),
                },
            )
        } else {
            Ok(st)
        }
    } else {
        match spec_var_assign(t) {
            Some(kv) => Ok(
                ParseState {
                    recipes: st.recipes,
                    variables: st.variables.insert(kv.0, kv.1),
                    current: st.current,
                    pending_doc: st.pending_doc,
                },
            ),
            None => match spec_recipe_header(t) {
                Some(h) => Ok(
                    ParseState {
                        recipes: spec_flush(st),
                        variables: st.variables,
                        current: Some(
                            RecipeModel {
                                name: h.0,
                                parameters: h.1,
                                documentation: st.pending_doc,
                                body: Seq::empty(),
                                dependencies: h.2,
                            },
                        ),
                        pending_doc: None,
                    },
                ),
                None => {
                    if spec_is_body_line(l) {
                        match st.current {
                            Some(r) => Ok(
                                ParseState {
                                    recipes: st.recipes,
                                    variables: st.variables,
                                    current: Some(
                                        RecipeModel {
                                            name: r.name,
                                            parameters: r.parameters,
                                            documentation: r.documentation,
                                            body: if r.body.len() == 0 {
                                                l
                                            } else {
                                                r.body + seq!['\n'] + l
                                            },
                                            dependencies: r.dependencies,
                                        },
                                    ),
                                    pending_doc: st.pending_doc,
                                },
                            ),
                            None => Ok(st),
                        }
                    } else {
                        Err(spec_unexpected_msg(t))
                    }
                },
            },
        }
    }
}

/// The fold of `spec_parse_step` over the lines from position `i` on.
/// An error carries the 1-based line number.
pub open spec fn spec_parse_from(lines: Seq<Seq<char>>, st: ParseState, i: int) -> Result<
    JustfileModel,
    (int, Seq<char>),
>
    decreases lines.len() - i,
{
    if i < 0 || i >= lines.len() {
        Ok(JustfileModel { recipes: spec_flush(st), variables: st.variables })
    } else {
        match spec_parse_step(st, lines[i]) {
            Ok(st2) => spec_parse_from(lines, st2, i + 1),
            Err(msg) => Err((i + 1, msg)),
        }
    }
}

/// What parsing a whole text yields.
pub open spec fn spec_parse(text: Seq<char>) -> Result<JustfileModel, (int, Seq<char>)> {
    spec_parse_from(spec_lines(text), spec_init_state(), 0)
}

/// The state that the executable parser variables describe.
pub open spec fn spec_state_of(
    recipes: Seq<Recipe>,
    variables: VarTable,
    current: Option<Recipe>,
    doc: Option<String>,
) -> ParseState {
    ParseState {
        recipes: recipes.map_values(|r: Recipe| r@),
        variables: variables@,
        current: match current {
            Some(r) => Some(r@),
            None => None,
        },
        pending_doc: match doc {
            Some(d) => Some(d@),
            None => None,
        },
    }
}

/// Whether every character in the range is an identifier character.
fn all_word_chars(v: &Vec<char>, from: usize, to: usize) -> (r: bool)
    requires
        from <= to <= v@.len(),
    ensures
        r == (forall|j: int| from <= j < to ==> is_word_char(v@[j])),
{
    let mut i: usize = from;
    while i < to
        invariant
            from <= i <= to <= v@.len(),
            forall|j: int| from <= j < i ==> is_word_char(v@[j]),
        decreases to - i,
    {
        if !word_char(v[i]) {
            return false;
        }
        i = i + 1;
    }
    true
}

/// Parses one whitespace-free header token as a parameter.
fn parse_parameter(tok: &Vec<char>) -> (p: Parameter)
    ensures
        p@ == spec_param(tok@),
{
    match find_char(tok, '=') {
        Some(e) => {
            let to = tok.len();
            proof {
                lemma_find_char(tok@, '=');
                assert(e < to);
            }
            let name = chars_range_to_string(tok, 0, e);
            let from = e + 1;
            let (dlo, dhi) = if to - from >= 2 && tok[from] == tok[to - 1] && (tok[from] == '"'
                || tok[from] == '\'') {
                (from + 1, to - 1)
            } else {
                (from, to)
            };
            let default = chars_range_to_string(tok, dlo, dhi);
            proof {
                let d = tok@.skip(from as int);
                assert(d =~= tok@.subrange(from as int, to as int));
                if d.len() >= 2 && d[0] == d[d.len() - 1] && (d[0] == '"' || d[0] == '\'') {
                    assert(spec_strip_quotes(d) =~= tok@.subrange(dlo as int, dhi as int));
                } else {
                    assert(spec_strip_quotes(d) =~= tok@.subrange(dlo as int, dhi as int));
                }
            }
            Parameter { name, default_value: Some(default) }
        },
        None => {
            if tok.len() > 0 && tok[0] == '*' {
                let name = chars_range_to_string(tok, 1, tok.len());
                proof {
                    assert(tok@.subrange(1, tok@.len() as int) =~= tok@.skip(1));
                }
                Parameter { name, default_value: None }
            } else {
                let name = chars_range_to_string(tok, 0, tok.len());
                proof {
                    assert(tok@.subrange(0, tok@.len() as int) =~= tok@);
                }
                Parameter { name, default_value: None }
            }
        },
    }
}

/// Parses the parameter tokens of a header (all tokens after the name).
fn parse_params(toks: &Vec<Vec<char>>) -> (params: Vec<Parameter>)
    requires
        toks@.len() >= 1,
    ensures
        params@.map_values(|p: Parameter| p@) == toks.deep_view().skip(1).map_values(
            |tk: Seq<char>| spec_param(tk),
        ),
{
    let mut params: Vec<Parameter> = Vec::new();
    let mut j: usize = 1;
    while j < toks.len()
        invariant
            1 <= j <= toks@.len(),
            params@.len() == j - 1,
            forall|k: int| 0 <= k < j - 1 ==> params@[k]@ == spec_param(toks@[k + 1]@),
        decreases toks@.len() - j,
    {
        let p = parse_parameter(&toks[j]);
        params.push(p);
        j = j + 1;
    }
    proof {
        lemma_charvecs_deep_view(toks);
        let full = toks.deep_view().skip(1).map_values(|tk: Seq<char>| spec_param(tk));
        assert forall|k: int| 0 <= k < params@.len() implies params@.map_values(
            |p: Parameter| p@,
        )[k] == full[k] by {
            assert(toks.deep_view().skip(1)[k] == toks.deep_view()[k + 1]);
            assert(full[k] == spec_param(toks@[k + 1]@));
        }
        assert(params@.map_values(|p: Parameter| p@) =~= full);
    }
    params
}

/// Turns a token list into owned strings.
fn tokens_to_strings(toks: &Vec<Vec<char>>) -> (out: Vec<String>)
    ensures
        out.deep_view() == toks.deep_view(),
{
    let mut out: Vec<String> = Vec::new();
    let mut j: usize = 0;
    while j < toks.len()
        invariant
            0 <= j <= toks@.len(),
            out@.len() == j,
            forall|k: int| 0 <= k < j ==> out@[k]@ == toks@[k]@,
        decreases toks@.len() - j,
    {
        let s = chars_to_string(&toks[j]);
        out.push(s);
        j = j + 1;
    }
    proof {
        lemma_charvecs_deep_view(toks);
        lemma_strings_deep_view(&out);
        assert(out.deep_view() =~= toks.deep_view());
    }
    out
}

/// Applies one line to the parser state, mirroring `spec_parse_step`.
#[verifier::rlimit(60)]
fn parse_line(
    recipes: &mut Vec<Recipe>,
    variables: &mut VarTable,
    current: Option<Recipe>,
    doc: Option<String>,
    line: &Vec<char>,
) -> (r: Result<(Option<Recipe>, Option<String>), String>)
    requires
        old(variables).wf(),
    ensures
        final(variables).wf(),
        match r {
            Ok(cd) => spec_parse_step(
                spec_state_of(old(recipes)@, *old(variables), current, doc),
                line@,
            ) == Ok::<ParseState, Seq<char>>(
                spec_state_of(final(recipes)@, *final(variables), cd.0, cd.1),
            ),
            Err(m) => spec_parse_step(
                spec_state_of(old(recipes)@, *old(variables), current, doc),
                line@,
            ) == Err::<ParseState, Seq<char>>(m@),
        },
{
    let ghost st0 = spec_state_of(recipes@, *variables, current, doc);
    let n = line.len();
    let (lo, hi) = trim_bounds(line, 0, n);
    let ghost t = spec_trim(line@);
    proof {
        assert(line@.subrange(0, n as int) =~= line@);
        assert(line@.subrange(lo as int, hi as int) == t);
    }
    if lo == hi {
        proof {
            assert(t.len() == 0);
        }
        return Ok((current, doc));
    }
    proof {
        assert(t[0] == line@[lo as int]);
    }
    if line[lo] == '#' {
        let (clo, chi) = trim_bounds(line, lo + 1, hi);
        proof {
            assert(line@.subrange(lo as int, hi as int).skip(1) =~= line@.subrange(
                lo + 1,
                hi as int,
            ));
            assert(line@.subrange(clo as int, chi as int) == spec_trim(t.skip(1)));
        }
        if clo < chi {
            let d = chars_range_to_string(line, clo, chi);
            return Ok((current, Some(d)));
        } else {
            proof {
                assert(spec_trim(t.skip(1)).len() == 0);
            }
            return Ok((current, doc));
        }
    }
    let tv = copy_range(line, lo, hi);
    proof {
        assert(tv@ == t);
    }
    match find_char(&tv, '=') {
        Some(e) => {
            proof {
                lemma_find_char(tv@, '=');
            }
            let (klo, khi) = trim_bounds(&tv, 0, e);
            proof {
                assert(t.subrange(0, e as int) =~= tv@.subrange(0, e as int));
                assert(tv@.subrange(klo as int, khi as int) == spec_trim(t.subrange(0, e as int)));
            }
            if klo < khi && all_word_chars(&tv, klo, khi) {
                let (vlo, vhi) = trim_bounds(&tv, e + 1, tv.len());
                proof {
                    assert(t.skip(e + 1) =~= tv@.subrange(e + 1, tv@.len() as int));
                    assert(tv@.subrange(vlo as int, vhi as int) == spec_trim(t.skip(e + 1)));
                    let k = spec_trim(t.subrange(0, e as int));
                    assert forall|j: int| 0 <= j < k.len() implies is_word_char(k[j]) by {
                        assert(k[j] == tv@[klo + j]);
                    }
                }
                let key = chars_range_to_string(&tv, klo, khi);
                let value = chars_range_to_string(&tv, vlo, vhi);
                variables.insert(key, value);
                return Ok((current, doc));
            }
            proof {
                let k = spec_trim(t.subrange(0, e as int));
                if klo < khi {
                    let j = choose|j: int| klo <= j < khi && !is_word_char(tv@[j]);
                    assert(k[j - klo] == tv@[j]);
                }
                assert(spec_var_assign(t) is None);
            }
        },
        None => {
            proof {
                assert(spec_var_assign(t) is None);
            }
        },
    }
    match find_char(&tv, ':') {
        Some(c) => {
            proof {
                lemma_find_char(tv@, ':');
            }
            let toks = split_ws_range(&tv, 0, c);
            proof {
                assert(t.subrange(0, c as int) =~= tv@.subrange(0, c as int));
            }
            if toks.len() > 0 {
                proof {
                    lemma_charvecs_deep_view(&toks);
                }
                let name = chars_to_string(&toks[0]);
                let params = parse_params(&toks);
                let dtoks = split_ws_range(&tv, c + 1, tv.len());
                proof {
                    assert(t.skip(c + 1) =~= tv@.subrange(c + 1, tv@.len() as int));
                }
                let deps = tokens_to_strings(&dtoks);
                match current {
                    Some(prev) => recipes.push(prev),
                    None => {},
                }
                let rec = Recipe {
                    name,
                    parameters: params,
                    documentation: doc,
                    body: String::new(),
                    dependencies: deps,
                };
                proof {
                    let h = spec_recipe_header(t);
                    assert(h is Some);
                    assert(rec@.name == h->Some_0.0);
                    assert(rec@.parameters == h->Some_0.1);
                    assert(rec@.dependencies == h->Some_0.2);
                    assert(rec@.body =~= Seq::<char>::empty());
                    match st0.current {
                        Some(prev) => {
                            assert(recipes@.map_values(|r: Recipe| r@) =~= st0.recipes.push(
                                prev,
                            ));
                        },
                        None => {
                            assert(recipes@.map_values(|r: Recipe| r@) =~= st0.recipes);
                        },
                    }
                }
                return Ok((Some(rec), None));
            }
            proof {
                assert(spec_recipe_header(t) is None);
            }
        },
        None => {
            proof {
                assert(spec_recipe_header(t) is None);
            }
        },
    }
    let is_body = if line.len() >= 1 && line[0] == '\t' {
        true
    } else {
        line.len() >= 4 && line[0] == ' ' && line[1] == ' ' && line[2] == ' ' && line[3] == ' '
    };
    proof {
        assert(is_body == spec_is_body_line(line@));
    }
    if is_body {
        match current {
            Some(mut rec) => {
                let ghost b0 = rec.body@;
                if !rec.body.as_str().is_empty() {
                    push_char(&mut rec.body, '\n');
                }
                append_chars(&mut rec.body, line, 0, n);
                proof {
                    assert(line@.subrange(0, n as int) =~= line@);
                    if b0.len() == 0 {
                        assert(rec.body@ =~= line@);
                    } else {
                        assert(rec.body@ =~= b0 + seq!['\n'] + line@);
                    }
                }
                return Ok((Some(rec), doc));
            },
            None => {
                return Ok((None, doc));
            },
        }
    }
    let mut msg = String::from_str("Unexpected content: ");
    append_chars(&mut msg, &tv, 0, tv.len());
    proof {
        assert(msg@ =~= spec_unexpected_msg(t));
    }
    Err(msg)
}

/// Parses the text of a task definition file.
///
/// The result is exactly what the line-fold specification `spec_parse`
/// yields: the recipes in order of appearance with their parameters,
/// documentation, bodies and dependencies, and the variable table; or a
/// parse error carrying the 1-based number of the first unrecognised
/// line and its message.
pub fn parse_justfile_str(content: &str) -> (r: Result<Justfile, ParserError>)
    ensures
        match spec_parse(content@) {
            Ok(m) => r matches Ok(jf) && jf@ == m && jf.wf(),
            Err(e) => r matches Err(pe) && pe matches ParserError::ParseError {
                line,
                message,
            } && line == e.0 && message@ == e.1,
        },
{
    let chars = str_to_chars(content);
    let lines = split_lines(&chars);
    let ghost ls = spec_lines(content@);
    proof {
        lemma_charvecs_deep_view(&lines);
        assert(lines.deep_view() == ls);
    }
    let mut recipes: Vec<Recipe> = Vec::new();
    let mut variables = VarTable::new();
    let mut current: Option<Recipe> = None;
    let mut doc: Option<String> = None;
    let mut i: usize = 0;
    proof {
        assert(recipes@.map_values(|r: Recipe| r@) =~= Seq::<RecipeModel>::empty());
        assert(spec_state_of(recipes@, variables, current, doc) == spec_init_state());
    }
    while i < lines.len()
        invariant
            0 <= i <= lines@.len(),
            lines.deep_view() == ls,
            lines.deep_view().len() == lines@.len(),
            forall|k: int| 0 <= k < lines@.len() ==> lines.deep_view()[k] == lines@[k]@,
            ls == spec_lines(content@),
            variables.wf(),
            spec_parse_from(ls, spec_init_state(), 0) == spec_parse_from(
                ls,
                spec_state_of(recipes@, variables, current, doc),
                i as int,
            ),
        decreases lines@.len() - i,
    {
        let line = &lines[i];
        let ghost st_pre = spec_state_of(recipes@, variables, current, doc);
        let step = parse_line(&mut recipes, &mut variables, current, doc, line);
        match step {
            Ok(cd) => {
                let (c2, d2) = cd;
                current = c2;
                doc = d2;
                proof {
                    assert(line@ == ls[i as int]);
                    assert(spec_parse_from(ls, st_pre, i as int) == spec_parse_from(
                        ls,
                        spec_state_of(recipes@, variables, current, doc),
                        i + 1,
                    ));
                }
                i = i + 1;
            },
            Err(message) => {
                proof {
                    assert(line@ == ls[i as int]);
                    assert(spec_parse_from(ls, st_pre, i as int) == Err::<
                        JustfileModel,
                        (int, Seq<char>),
                    >((i + 1, message@)));
                }
                return Err(ParserError::ParseError { line: i + 1, message });
            },
        }
    }
    let ghost st_end = spec_state_of(recipes@, variables, current, doc);
    match current {
        Some(last) => {
            proof {
                assert(spec_flush(st_end) == recipes@.map_values(|r: Recipe| r@).push(last@));
            }
            let ghost pre = recipes@;
            recipes.push(last);
            proof {
                assert(recipes@.map_values(|r: Recipe| r@) =~= pre.map_values(
                    |r: Recipe| r@,
                ).push(recipes@.last()@));
            }
        },
        None => {},
    }
    let jf = Justfile { recipes, variables };
    proof {
        assert(jf@.recipes == spec_flush(st_end));
        assert(jf@.variables == st_end.variables);
    }
    Ok(jf)
}

} // verus!
