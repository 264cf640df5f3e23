//! Argument validation and signature help: checks positional arguments
//! against a recipe's parameters without executing anything, and renders
//! a human-readable description of the recipe's signature.

use vstd::prelude::*;
use vstd::string::StringExecFns;

use crate::text::{spec_dec, usize_to_dec};
use crate::{ParamModel, Recipe};

verus! {

/// One finding of the validator: the parameter concerned (`"<extra>"`
/// for surplus arguments) and a message.
pub struct ValidationError {
    pub parameter: String,
    pub message: String,
}

/// Mathematical model of a validation finding.
pub ghost struct ValidationErrorModel {
    pub parameter: Seq<char>,
    pub message: Seq<char>,
}

impl View for ValidationError {
    type V = ValidationErrorModel;

    open spec fn view(&self) -> ValidationErrorModel {
        ValidationErrorModel { parameter: self.parameter@, message: self.message@ }
    }
}

/// The outcome of validation: `is_valid` holds exactly when the error
/// list is empty.
pub struct ValidationResult {
    pub is_valid: bool,
    pub errors: Vec<ValidationError>,
}

/// One parameter as signature help presents it.
pub struct ParameterInfo {
    pub name: String,
    pub required: bool,
    pub default_value: Option<String>,
    pub description: Option<String>,
}

/// Mathematical model of a presented parameter.
pub ghost struct ParameterInfoModel {
    pub name: Seq<char>,
    pub required: bool,
    pub default_value: Option<Seq<char>>,
    pub description: Option<Seq<char>>,
}

impl View for ParameterInfo {
    type V = ParameterInfoModel;

    open spec fn view(&self) -> ParameterInfoModel {
        ParameterInfoModel {
            name: self.name@,
            required: self.required,
            default_value: match self.default_value {
                Some(d) => Some(d@),
                None => None,
            },
            description: match self.description {
                Some(d) => Some(d@),
                None => None,
            },
        }
    }
}

/// A recipe's signature, ready for display.
pub struct SignatureHelp {
    pub recipe_name: String,
    pub parameters: Vec<ParameterInfo>,
    pub documentation: Option<String>,
}

/// Mathematical model of signature help.
pub ghost struct SignatureHelpModel {
    pub recipe_name: Seq<char>,
    pub parameters: Seq<ParameterInfoModel>,
    pub documentation: Option<Seq<char>>,
}

impl View for SignatureHelp {
    type V = SignatureHelpModel;

    open spec fn view(&self) -> SignatureHelpModel {
        SignatureHelpModel {
            recipe_name: self.recipe_name@,
            parameters: self.parameters@.map_values(|p: ParameterInfo| p@),
            documentation: match self.documentation {
                Some(d) => Some(d@),
                None => None,
            },
        }
    }
}

/// Errors of the validator.
pub enum ValidationSnafu {
    RecipeNotFound { recipe_name: String },
}

/// The finding for surplus positional arguments.
pub open spec fn spec_extra_error(n_params: nat, n_args: nat) -> ValidationErrorModel {
    ValidationErrorModel {
        parameter: "<extra>"@,
        message: "Too many arguments: expected at most "@ + spec_dec(n_params) + ", got "@
            + spec_dec(n_args),
    }
}

/// The finding for one unbound required parameter.
pub open spec fn spec_missing_error(name: Seq<char>) -> ValidationErrorModel {
    ValidationErrorModel {
        parameter: name,
        message: "Missing required parameter: "@ + name,
    }
}

/// The findings for every required parameter at or after position `k`.
pub open spec fn spec_missing_list(params: Seq<ParamModel>, k: int) -> Seq<ValidationErrorModel>
    decreases params.len() - k,
{
    if k < 0 || k >= params.len() {
        Seq::empty()
    } else if params[k].default_value is None {
        seq![spec_missing_error(params[k].name)] + spec_missing_list(params, k + 1)
    } else {
        spec_missing_list(params, k + 1)
    }
}

/// All findings for a call with `n_args` positional arguments.
pub open spec fn spec_validation_errors(params: Seq<ParamModel>, n_args: nat) -> Seq<
    ValidationErrorModel,
> {
    let head: Seq<ValidationErrorModel> = if n_args > params.len() {
        seq![spec_extra_error(params.len(), n_args)]
    } else {
        Seq::empty()
    };
    head + spec_missing_list(params, n_args as int)
}

/// Validates positional arguments against a recipe's parameters: one
/// finding for surplus arguments, and one per required parameter left
/// unbound, in declaration order. The verdict is valid exactly when
/// there are no findings.
pub fn validate_arguments(recipe: &Recipe, args: &[String]) -> (r: ValidationResult)
    ensures
        r.errors@.map_values(|e: ValidationError| e@) == spec_validation_errors(
            recipe@.parameters,
            args@.len() as nat,
        ),
        r.is_valid == (spec_validation_errors(recipe@.parameters, args@.len() as nat).len()
            == 0),
{
    let ghost params = recipe@.parameters;
    let ghost full = spec_validation_errors(params, args@.len() as nat);
    let n_params = recipe.parameters.len();
    let n_args = args.len();
    let mut errors: Vec<ValidationError> = Vec::new();
    if n_args > n_params {
        let mut msg = String::from_str("Too many arguments: expected at most ");
        let d1 = usize_to_dec(n_params);
        msg.append(d1.as_str());
        msg.append(", got ");
        let d2 = usize_to_dec(n_args);
        msg.append(d2.as_str());
        errors.push(ValidationError { parameter: String::from_str("<extra>"), message: msg });
    }
    let ghost head = errors@.map_values(|e: ValidationError| e@);
    proof {
        if n_args > n_params {
            assert(head =~= seq![spec_extra_error(params.len(), args@.len() as nat)]);
        } else {
            assert(head =~= Seq::<ValidationErrorModel>::empty());
        }
    }
    let mut i: usize = n_args;
    if i > n_params {
        i = n_params + 1;
        proof {
            assert(spec_missing_list(params, n_args as int) =~= Seq::<
                ValidationErrorModel,
            >::empty());
            assert(spec_missing_list(params, i as int) =~= Seq::<ValidationErrorModel>::empty());
        }
    }
    while i < n_params
        invariant
            0 <= i,
            n_params == recipe.parameters@.len(),
            params == recipe@.parameters,
            head + spec_missing_list(params, n_args as int) == full,
            errors@.map_values(|e: ValidationError| e@) == head + spec_missing_list(
                params,
                n_args as int,
            ).take(errors@.len() - head.len()),
            head.len() <= errors@.len(),
            spec_missing_list(params, n_args as int) == spec_missing_list(
                params,
                n_args as int,
            ).take(errors@.len() - head.len()) + spec_missing_list(params, i as int),
        decreases n_params - i,
    {
        let param = &recipe.parameters[i];
        let ghost pre = errors@.map_values(|e: ValidationError| e@);
        let ghost taken = spec_missing_list(params, n_args as int).take(
            errors@.len() - head.len(),
        );
        match &param.default_value {
            Some(_) => {
                proof {
                    assert(params[i as int].default_value is Some);
                    assert(spec_missing_list(params, i as int) == spec_missing_list(
                        params,
                        i + 1,
                    ));
                }
            },
            None => {
                let mut msg = String::from_str("Missing required parameter: ");
                msg.append(param.name.as_str());
                let err = ValidationError { parameter: param.name.clone(), message: msg };
                proof {
                    assert(params[i as int].default_value is None);
                    assert(err@ == spec_missing_error(params[i as int].name));
                    assert(spec_missing_list(params, i as int) == seq![
                        spec_missing_error(params[i as int].name),
                    ] + spec_missing_list(params, i + 1));
                }
                errors.push(err);
                proof {
                    assert(errors@.map_values(|e: ValidationError| e@) =~= pre.push(
                        spec_missing_error(params[i as int].name),
                    ));
                    assert(taken.push(spec_missing_error(params[i as int].name))
                        =~= spec_missing_list(params, n_args as int).take(
                        errors@.len() - head.len(),
                    ));
                    assert(pre.push(spec_missing_error(params[i as int].name)) =~= head
                        + spec_missing_list(params, n_args as int).take(
                        errors@.len() - head.len(),
                    ));
                    assert(spec_missing_list(params, n_args as int) =~= spec_missing_list(
                        params,
                        n_args as int,
                    ).take(errors@.len() - head.len()) + spec_missing_list(params, i + 1));
                }
            },
        }
        i = i + 1;
    }
    proof {
        assert(spec_missing_list(params, i as int) =~= Seq::<ValidationErrorModel>::empty());
        assert(errors@.map_values(|e: ValidationError| e@) =~= full);
    }
    let is_valid = errors.len() == 0;
    proof {
        assert(errors@.map_values(|e: ValidationError| e@).len() == errors@.len());
    }
    ValidationResult { is_valid, errors }
}

/// The presentation of one parameter: required when it has no default.
pub open spec fn spec_param_info(p: ParamModel) -> ParameterInfoModel {
    ParameterInfoModel {
        name: p.name,
        required: p.default_value is None,
        default_value: p.default_value,
        description: None,
    }
}

/// Collects a recipe's signature for display: its name, each parameter
/// with whether it is required and its default, and the documentation.
pub fn get_signature_help(recipe: &Recipe) -> (r: SignatureHelp)
    ensures
        r@.recipe_name == recipe@.name,
        r@.parameters == recipe@.parameters.map_values(|p: ParamModel| spec_param_info(p)),
        r@.documentation == recipe@.documentation,
{
    let mut parameters: Vec<ParameterInfo> = Vec::new();
    let mut i: usize = 0;
    while i < recipe.parameters.len()
        invariant
            0 <= i <= recipe.parameters@.len(),
            parameters@.len() == i,
            forall|k: int|
                0 <= k < i ==> parameters@[k]@ == spec_param_info(recipe@.parameters[k]),
        decreases recipe.parameters@.len() - i,
    {
        let p = &recipe.parameters[i];
        let info = ParameterInfo {
            name: p.name.clone(),
            required: match &p.default_value {
                Some(_) => false,
                None => true,
            },
            default_value: match &p.default_value {
                Some(d) => Some(d.clone()),
                None => None,
            },
            description: None,
        };
        proof {
            assert(info@ == spec_param_info(recipe@.parameters[i as int]));
        }
        parameters.push(info);
        i = i + 1;
    }
    let help = SignatureHelp {
        recipe_name: recipe.name.clone(),
        parameters,
        documentation: match &recipe.documentation {
            Some(d) => Some(d.clone()),
            None => None,
        },
    };
    proof {
        assert(help@.parameters =~= recipe@.parameters.map_values(
            |p: ParamModel| spec_param_info(p),
        ));
    }
    help
}

/// One parameter as it appears in the signature line: `name` when
/// required, `name=default` otherwise (an absent default shown empty).
pub open spec fn spec_sig_token(p: ParameterInfoModel) -> Seq<char> {
    if p.required {
        p.name
    } else {
        p.name + "="@ + (match p.default_value {
            Some(d) => d,
            None => Seq::empty(),
        })
    }
}

/// The signature tokens from position `k` on, comma-joined.
pub open spec fn spec_sig_tokens(ps: Seq<ParameterInfoModel>, k: int) -> Seq<char>
    decreases ps.len() - k,
{
    if k < 0 || k >= ps.len() {
        Seq::empty()
    } else if k == ps.len() - 1 {
        spec_sig_token(ps[k])
    } else {
        spec_sig_token(ps[k]) + ", "@ + spec_sig_tokens(ps, k + 1)
    }
}

/// The default shown in a parameter's detail line: the word `none` for
/// an absent or empty default.
pub open spec fn spec_default_display(d: Option<Seq<char>>) -> Seq<char> {
    match d {
        Some(v) => if v.len() == 0 {
            "none"@
        } else {
            v
        },
        None => "none"@,
    }
}

/// One parameter's detail line.
pub open spec fn spec_param_detail(p: ParameterInfoModel) -> Seq<char> {
    "\n  "@ + p.name + (if p.required {
        " (required)"@
    } else {
        " (optional, default: "@ + spec_default_display(p.default_value) + ")"@
    }) + (match p.description {
        Some(d) => " - "@ + d,
        None => Seq::empty(),
    })
}

/// The detail lines from position `k` on.
pub open spec fn spec_param_details(ps: Seq<ParameterInfoModel>, k: int) -> Seq<char>
    decreases ps.len() - k,
{
    if k < 0 || k >= ps.len() {
        Seq::empty()
    } else {
        spec_param_detail(ps[k]) + spec_param_details(ps, k + 1)
    }
}

/// The whole rendering of signature help.
pub open spec fn spec_format_help(h: SignatureHelpModel) -> Seq<char> {
    let sig = h.recipe_name + "("@ + spec_sig_tokens(h.parameters, 0) + ")"@;
    let doc_part: Seq<char> = match h.documentation {
        Some(d) => "\n\n"@ + d,
        None => Seq::empty(),
    };
    let params_part: Seq<char> = if h.parameters.len() > 0 {
        (if h.documentation is Some {
            "\n\nParameters:"@
        } else {
            "\nParameters:"@
        }) + spec_param_details(h.parameters, 0)
    } else {
        Seq::empty()
    };
    sig + doc_part + params_part
}

/// Renders signature help as display text: the signature line, then the
/// documentation, then one detail line per parameter.
pub fn format_signature_help(help: &SignatureHelp) -> (r: String)
    ensures
        r@ == spec_format_help(help@),
{
    let ghost ps = help@.parameters;
    let mut out = String::new();
    out.append(help.recipe_name.as_str());
    out.append("(");
    let n = help.parameters.len();
    let mut i: usize = 0;
    proof {
        assert(ps.len() == n);
        if n > 0 {
            assert(out@ =~= help@.recipe_name + "("@ + Seq::<char>::empty());
        }
    }
    while i < n
        invariant
            0 <= i <= n,
            n == help.parameters@.len(),
            ps == help@.parameters,
            out@ + spec_sig_tokens(ps, i as int) == help@.recipe_name + "("@ + spec_sig_tokens(
                ps,
                0,
            ),
            i > 0 ==> i <= n,
        decreases n - i,
    {
        let p = &help.parameters[i];
        proof {
            assert(p@ == ps[i as int]);
        }
        if p.required {
            out.append(p.name.as_str());
        } else {
            out.append(p.name.as_str());
            out.append("=");
            match &p.default_value {
                Some(d) => out.append(d.as_str()),
                None => {},
            }
        }
        if i + 1 < n {
            out.append(", ");
        }
        proof {
            if i + 1 < n {
                assert(spec_sig_tokens(ps, i as int) =~= spec_sig_token(ps[i as int]) + ", "@
                    + spec_sig_tokens(ps, i + 1));
            } else {
                assert(spec_sig_tokens(ps, i as int) =~= spec_sig_token(ps[i as int])
                    + Seq::<char>::empty());
                assert(spec_sig_tokens(ps, i + 1) =~= Seq::<char>::empty());
            }
            match ps[i as int].default_value {
                Some(d) => {
                    assert(spec_sig_token(ps[i as int]) == if ps[i as int].required {
                        ps[i as int].name
                    } else {
                        ps[i as int].name + "="@ + d
                    });
                },
                None => {},
            }
        }
        i = i + 1;
    }
    out.append(")");
    proof {
        assert(spec_sig_tokens(ps, i as int) =~= Seq::<char>::empty());
        assert(out@ =~= help@.recipe_name + "("@ + spec_sig_tokens(ps, 0) + ")"@);
    }
    let ghost sig = out@;
    match &help.documentation {
        Some(d) => {
            out.append("\n\n");
            out.append(d.as_str());
        },
        None => {},
    }
    let ghost with_doc = out@;
    if help.parameters.len() > 0 {
        match &help.documentation {
            Some(_) => out.append("\n\nParameters:"),
            None => out.append("\nParameters:"),
        }
        let mut j: usize = 0;
        let ghost base = out@;
        while j < help.parameters.len()
            invariant
                0 <= j <= help.parameters@.len(),
                ps == help@.parameters,
                ps.len() == help.parameters@.len(),
                out@ + spec_param_details(ps, j as int) == base + spec_param_details(ps, 0),
            decreases help.parameters@.len() - j,
        {
            let p = &help.parameters[j];
            proof {
                assert(p@ == ps[j as int]);
            }
            out.append("\n  ");
            out.append(p.name.as_str());
            if p.required {
                out.append(" (required)");
            } else {
                out.append(" (optional, default: ");
                match &p.default_value {
                    Some(d) => {
                        if d.as_str().is_empty() {
                            out.append("none");
                        } else {
                            out.append(d.as_str());
                        }
                    },
                    None => out.append("none"),
                }
                out.append(")");
            }
            match &p.description {
                Some(d) => {
                    out.append(" - ");
                    out.append(d.as_str());
                },
                None => {},
            }
            proof {
                assert(spec_param_details(ps, j as int) =~= spec_param_detail(ps[j as int])
                    + spec_param_details(ps, j + 1));
            }
            j = j + 1;
        }
        proof {
            assert(spec_param_details(ps, j as int) =~= Seq::<char>::empty());
            assert(out@ =~= base + spec_param_details(ps, 0));
        }
    }
    proof {
        assert(out@ =~= spec_format_help(help@));
    }
    out
}

/// The verdict of `validate_arguments` with signature help appended to
/// the first finding's message.
pub open spec fn spec_with_help(
    errors: Seq<ValidationErrorModel>,
    helptext: Seq<char>,
) -> Seq<ValidationErrorModel> {
    if errors.len() == 0 {
        errors
    } else {
        errors.update(
            0,
            ValidationErrorModel {
                parameter: errors[0].parameter,
                message: errors[0].message + "\n\nExpected signature:\n"@ + helptext,
            },
        )
    }
}

/// Validates arguments and, when invalid, appends the recipe's expected
/// signature to the first finding's message.
pub fn validate_with_help(recipe: &Recipe, args: &[String]) -> (r: ValidationResult)
    ensures
        r.is_valid == (spec_validation_errors(recipe@.parameters, args@.len() as nat).len()
            == 0),
        r.errors@.map_values(|e: ValidationError| e@) == spec_with_help(
            spec_validation_errors(recipe@.parameters, args@.len() as nat),
            spec_format_help(
                SignatureHelpModel {
                    recipe_name: recipe@.name,
                    parameters: recipe@.parameters.map_values(
                        |p: ParamModel| spec_param_info(p),
                    ),
                    documentation: recipe@.documentation,
                },
            ),
        ),
{
    let ghost full = spec_validation_errors(recipe@.parameters, args@.len() as nat);
    let mut result = validate_arguments(recipe, args);
    if !result.is_valid {
        let help = get_signature_help(recipe);
        let formatted = format_signature_help(&help);
        if result.errors.len() > 0 {
            let ghost pre = result.errors@.map_values(|e: ValidationError| e@);
            let first = result.errors.remove(0);
            let mut msg = first.message;
            msg.append("\n\nExpected signature:\n");
            msg.append(formatted.as_str());
            let updated = ValidationError { parameter: first.parameter, message: msg };
            result.errors.insert(0, updated);
            proof {
                assert(result.errors@.map_values(|e: ValidationError| e@) =~= spec_with_help(
                    pre,
                    formatted@,
                ));
            }
        }
    }
    result
}

} // verus!
