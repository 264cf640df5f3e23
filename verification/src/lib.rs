//! A small make-like task runner: a parser for justfile-style task
//! definitions and an engine that executes a named task with arguments,
//! resolving parameters, dependencies and text substitution.

use vstd::prelude::*;

pub mod environment;
pub mod executor;
pub mod laws;
pub mod parser;
pub mod text;
pub mod validator;
pub mod vars;

pub use vars::VarTable;

verus! {

/// One named parameter of a recipe. A parameter without a default value is
/// required at execution time.
#[derive(Debug, Clone)]
pub struct Parameter {
    pub name: String,
    pub default_value: Option<String>,
}

/// Mathematical model of a parameter: its name and optional default.
pub ghost struct ParamModel {
    pub name: Seq<char>,
    pub default_value: Option<Seq<char>>,
}

impl View for Parameter {
    type V = ParamModel;

    open spec fn view(&self) -> ParamModel {
        ParamModel {
            name: self.name@,
            default_value: match self.default_value {
                Some(d) => Some(d@),
                None => None,
            },
        }
    }
}

/// One named task: its parameters, nearest preceding comment, raw body
/// text and the names of the tasks it depends on.
#[derive(Debug, Clone)]
pub struct Recipe {
    pub name: String,
    pub parameters: Vec<Parameter>,
    pub documentation: Option<String>,
    pub body: String,
    pub dependencies: Vec<String>,
}

/// Mathematical model of a recipe.
pub ghost struct RecipeModel {
    pub name: Seq<char>,
    pub parameters: Seq<ParamModel>,
    pub documentation: Option<Seq<char>>,
    pub body: Seq<char>,
    pub dependencies: Seq<Seq<char>>,
}

impl View for Recipe {
    type V = RecipeModel;

    open spec fn view(&self) -> RecipeModel {
        RecipeModel {
            name: self.name@,
            parameters: self.parameters@.map_values(|p: Parameter| p@),
            documentation: match self.documentation {
                Some(d) => Some(d@),
                None => None,
            },
            body: self.body@,
            dependencies: self.dependencies.deep_view(),
        }
    }
}

/// The parsed document: its recipes in order of appearance, and its
/// top-level variables.
#[derive(Debug)]
pub struct Justfile {
    pub recipes: Vec<Recipe>,
    pub variables: VarTable,
}

/// Mathematical model of a parsed document.
pub ghost struct JustfileModel {
    pub recipes: Seq<RecipeModel>,
    pub variables: Map<Seq<char>, Seq<char>>,
}

impl View for Justfile {
    type V = JustfileModel;

    open spec fn view(&self) -> JustfileModel {
        JustfileModel {
            recipes: self.recipes@.map_values(|r: Recipe| r@),
            variables: self.variables@,
        }
    }
}

impl Justfile {
    /// Well-formedness: the variable table keeps one entry per name.
    pub open spec fn wf(&self) -> bool {
        self.variables.wf()
    }
}

} // verus!
