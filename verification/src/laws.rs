//! General properties of the parser and the execution engine, stated and
//! proved once and for all inputs. Each law is a public proof function
//! whose premises are only the property's own assumptions.

use vstd::prelude::*;

use crate::executor::{
    spec_execute_post, spec_find_recipe, spec_first_missing, spec_is_invalid_args,
    spec_subst_scan, spec_too_many_msg, spec_validate, ExecutionError, ExecutionResult,
    spec_close_at, spec_find_close, lemma_find_close,
};
use crate::parser::{spec_strip_quotes, spec_var_assign};
use crate::text::{
    is_space_char, is_word_char, lemma_find_char, lemma_trim_to_bounds, spec_find_char,
    spec_join, spec_trim,
};
use crate::JustfileModel;

verus! {

/// A word character is never a whitespace character.
pub proof fn lemma_word_not_space(c: char)
    requires
        is_word_char(c),
    ensures
        !is_space_char(c),
{
}

/// Law: a recipe that declares no parameters, executed with no
/// arguments, never fails with invalid arguments.
pub proof fn lemma_no_params_no_invalid_arguments(
    jf: JustfileModel,
    name: Seq<char>,
    r: Result<ExecutionResult, ExecutionError>,
    i: int,
)
    requires
        spec_execute_post(jf, name, Seq::empty(), r),
        spec_find_recipe(jf.recipes, name) == Some(i),
        jf.recipes[i].parameters.len() == 0,
    ensures
        !(r matches Err(e) && e is InvalidArguments),
{
    let params = jf.recipes[i].parameters;
    let args = Seq::<Seq<char>>::empty();
    assert(spec_first_missing(params, 0) is None);
    assert(spec_validate(params, args) is Ok);
}

/// Law: supplying more positional arguments than the recipe declares
/// parameters always fails with invalid arguments, whatever the
/// arguments hold, and the message names both counts.
pub proof fn lemma_too_many_arguments_rejected(
    jf: JustfileModel,
    name: Seq<char>,
    args: Seq<Seq<char>>,
    r: Result<ExecutionResult, ExecutionError>,
    i: int,
)
    requires
        spec_execute_post(jf, name, args, r),
        spec_find_recipe(jf.recipes, name) == Some(i),
        args.len() > jf.recipes[i].parameters.len(),
    ensures
        r matches Err(e) && spec_is_invalid_args(
            e,
            name,
            spec_too_many_msg(jf.recipes[i].parameters.len(), args.len()),
        ),
{
    let params = jf.recipes[i].parameters;
    assert(spec_validate(params, args) == Err::<Map<Seq<char>, Seq<char>>, Seq<char>>(
        spec_too_many_msg(params.len(), args.len()),
    ));
}

/// Law: outputs joined under the newline rule keep their order — three
/// non-empty captured outputs accumulate to the first, one newline, the
/// second, one newline, the third.
pub proof fn lemma_join_preserves_order(a: Seq<char>, b: Seq<char>, c: Seq<char>)
    requires
        a.len() > 0,
        b.len() > 0,
        c.len() > 0,
    ensures
        spec_join(spec_join(a, b), c) == a + seq!['\n'] + b + seq!['\n'] + c,
{
    assert(spec_join(a, b) == a + seq!['\n'] + b);
    assert(spec_join(spec_join(a, b), c) =~= a + seq!['\n'] + b + seq!['\n'] + c);
}

/// Law, parsing half of the quote round trip: a line binding a variable
/// to a double-quoted value stores the value verbatim, quotes included.
pub proof fn lemma_parse_keeps_quotes(name: Seq<char>, v: Seq<char>)
    requires
        name.len() > 0,
        forall|j: int| 0 <= j < name.len() ==> is_word_char(name[j]),
    ensures
        spec_var_assign(name + " = \""@ + v + "\""@) == Some(
            (name, "\""@ + v + "\""@),
        ),
{
    reveal_strlit(" = \"");
    reveal_strlit("\"");
    reveal_strlit("=");
    let quoted = "\""@ + v + "\""@;
    let t = name + " = \""@ + v + "\""@;
    let e = name.len() as int + 1;
    assert(t.len() == name.len() + 4 + v.len() + 1);
    assert forall|j: int| 0 <= j < name.len() implies t[j] == name[j] by {}
    assert(t[name.len() as int] == ' ');
    assert(t[e] == '=');
    assert(t[e + 1] == ' ');
    assert(t[e + 2] == '"');
    assert(t[t.len() - 1] == '"');
    assert forall|j: int| 0 <= j < e implies t[j] != '=' by {
        if j < name.len() {
            assert(is_word_char(t[j]));
        }
    }
    lemma_find_char(t, '=');
    match spec_find_char(t, '=') {
        Some(k) => {
            if k < e {
                assert(t[k] != '=');
            }
            if k > e {
                assert(t[e] != '=');
            }
            assert(k == e);
        },
        None => {
            assert(t[e] != '=');
        },
    }
    let lhs = t.subrange(0, e);
    assert(lhs =~= name + seq![' ']);
    lemma_trim_to_bounds(lhs);
    assert(lhs.drop_last() =~= name);
    assert(crate::text::spec_trim_to(lhs) == crate::text::spec_trim_to(name));
    assert(!is_space_char(name[name.len() - 1])) by {
        lemma_word_not_space(name[name.len() - 1]);
    }
    assert(crate::text::spec_trim_to(name) == name.len());
    assert(!is_space_char(name[0])) by {
        lemma_word_not_space(name[0]);
    }
    assert(crate::text::spec_trim_from(lhs) == 0);
    assert(spec_trim(lhs) =~= name);
    let rhs = t.skip(e + 1);
    assert(rhs =~= seq![' '] + quoted);
    assert(rhs[0] == ' ');
    assert(rhs.skip(1) =~= quoted);
    assert(crate::text::spec_trim_from(rhs) == 1 + crate::text::spec_trim_from(quoted));
    assert(quoted[0] == '"' && !is_space_char('"'));
    assert(crate::text::spec_trim_from(quoted) == 0);
    assert(rhs[rhs.len() - 1] == '"');
    assert(crate::text::spec_trim_to(rhs) == rhs.len());
    assert(spec_trim(rhs) =~= quoted);
    assert forall|j: int| 0 <= j < spec_trim(lhs).len() implies is_word_char(
        spec_trim(lhs)[j],
    ) by {
        assert(spec_trim(lhs)[j] == name[j]);
    }
}

/// Law, substitution half of the quote round trip: substituting
/// `{{ name }}` where the variables bind `name` to a double-quoted value
/// and no parameter binds it yields the bare value — the outer quotes
/// are stripped exactly once.
pub proof fn lemma_substitute_strips_quotes(
    name: Seq<char>,
    v: Seq<char>,
    binds: Map<Seq<char>, Seq<char>>,
    vars: Map<Seq<char>, Seq<char>>,
)
    requires
        name.len() > 0,
        forall|j: int| 0 <= j < name.len() ==> is_word_char(name[j]),
        !binds.contains_key(name),
        vars.contains_key(name),
        vars[name] == "\""@ + v + "\""@,
    ensures
        spec_subst_scan("{{ "@ + name + " }}"@, binds, vars) == v,
{
    reveal_strlit("{{ ");
    reveal_strlit(" }}");
    reveal_strlit("\"");
    let s = "{{ "@ + name + " }}"@;
    assert(s.len() == name.len() + 6);
    assert(s[0] == '{' && s[1] == '{' && s[2] == ' ');
    let tail = s.skip(3);
    assert(tail =~= name + " }}"@);
    assert(tail.len() == name.len() + 3);
    let j = name.len() as int;
    assert(tail[j] == ' ' && tail[j + 1] == '}' && tail[j + 2] == '}');
    assert(spec_close_at(tail, j));
    assert forall|k: int| 0 <= k < j implies !spec_close_at(tail, k) by {
        assert(tail[k] == name[k]);
        lemma_word_not_space(name[k]);
    }
    lemma_find_close(tail);
    match spec_find_close(tail) {
        Some(k) => {
            if k < j {
                assert(!spec_close_at(tail, k));
            }
            if k > j {
                assert(!spec_close_at(tail, j));
            }
            assert(k == j);
        },
        None => {
            assert(!spec_close_at(tail, j));
        },
    }
    assert(s.subrange(3, 3 + j) =~= name);
    let quoted = "\""@ + v + "\""@;
    assert(quoted.len() == v.len() + 2);
    assert(quoted[0] == '"' && quoted[quoted.len() - 1] == '"');
    assert(spec_strip_quotes(quoted) =~= v);
    assert(s.skip(j + 6) =~= Seq::<char>::empty());
    assert(spec_subst_scan(s.skip(j + 6), binds, vars) == Seq::<char>::empty());
    assert(spec_subst_scan(s, binds, vars) =~= v);
}

/// Law: the full quote round trip. A variable written `name = "v"`
/// parses to the quoted text, and substituting `{{ name }}` against the
/// parsed binding yields exactly `v`: the quotes written in the source
/// are stripped once, at substitution time.
pub proof fn lemma_variable_quote_round_trip(
    name: Seq<char>,
    v: Seq<char>,
    binds: Map<Seq<char>, Seq<char>>,
    vars0: Map<Seq<char>, Seq<char>>,
)
    requires
        name.len() > 0,
        forall|j: int| 0 <= j < name.len() ==> is_word_char(name[j]),
        !binds.contains_key(name),
    ensures
        spec_var_assign(name + " = \""@ + v + "\""@) == Some((name, "\""@ + v + "\""@)),
        spec_subst_scan("{{ "@ + name + " }}"@, binds, vars0.insert(name, "\""@ + v + "\""@))
            == v,
{
    lemma_parse_keeps_quotes(name, v);
    let vars = vars0.insert(name, "\""@ + v + "\""@);
    lemma_substitute_strips_quotes(name, v, binds, vars);
}

} // verus!
