use vstd::prelude::*;
use vstd::string::*;

use crate::compiler::CompilationError;

verus! {

/// Nested reference to a JSON element.
pub struct JsonElement<'t> {
    pub sub: Option<&'t JsonElement<'t>>,
}

/// Reference to a variable's value.
#[derive(Clone, Debug)]
pub struct VariableReference {
    pub id: String,
}

/// A value as the model carries it: a path into a JSON element, a reference
/// to a variable holding it, or the pure value itself.
pub enum Data<'t> {
    Json(JsonElement<'t>),
    Variable(VariableReference),
    Value(String),
}

pub struct PrintOperation<'t> {
    pub content: Data<'t>,
}

pub struct FetchOperation<'t> {
    pub from: Data<'t>,
    pub arguments: Vec<Data<'t>>,
}

pub struct InsertOperation<'t> {
    pub content: Data<'t>,
}

pub struct CallOperation<'t> {
    pub template: Data<'t>,
    pub params: Vec<Data<'t>>,
}

pub enum TemplateOperation<'t> {
    Print(PrintOperation<'t>),
    Fetch(FetchOperation<'t>),
    Insert(InsertOperation<'t>),
    Call(CallOperation<'t>),
}

/// One template: its identifier, the operations it performs and the
/// variables defined in it.
pub struct Template<'t> {
    pub operations: Vec<TemplateOperation<'t>>,
    pub variables: Vec<VariableReference>,
    pub id: String,
}

impl<'t> Template<'t> {
    pub fn new(id: String) -> (r: Template<'t>)
        ensures
            r.operations@.len() == 0,
            r.variables@.len() == 0,
            r.id == id,
    {
        Template { operations: Vec::new(), variables: Vec::new(), id }
    }

    /// Looks the variable up among this template's definitions; an unknown
    /// name is an error, if and only if no definition carries it.
    pub fn get_variable_by_id(&self, id: String) -> (r: Result<
        VariableReference,
        CompilationError,
    >)
        ensures
            r is Ok <==> exists|i: int|
                0 <= i < self.variables@.len() && self.variables@[i].id@ == id@,
            r matches Ok(v) ==> v.id@ == id@,
            r matches Err(e) ==> {
                &&& e.name@ == "ERR_UNDEFINED_VARIABLE"@
                &&& e.desc@ == "cannot use variable '"@ + id@ + "'"@
                &&& e.cause@ == "variable '"@ + id@ + "' has not been defined in template '"@
                    + self.id@ + "'"@
                &&& e.suggestion@ == "define variable '"@ + id@ + "' before its use"@
                &&& e.view is None
                &&& e.position is None
            },
    {
        let n = self.variables.len();
        let mut i: usize = 0;
        while i < n
            invariant
                0 <= i <= n,
                n == self.variables@.len(),
                forall|j: int| 0 <= j < i ==> self.variables@[j].id@ != id@,
            decreases n - i,
        {
            if str_eq_string(&self.variables[i].id, &id) {
                return Ok(VariableReference { id: self.variables[i].id.clone() });
            }
            i = i + 1;
        }

        let mut desc = String::from_str("cannot use variable '");
        desc.append(id.as_str());
        desc.append("'");
        let mut cause = String::from_str("variable '");
        cause.append(id.as_str());
        cause.append("' has not been defined in template '");
        cause.append(self.id.as_str());
        cause.append("'");
        let mut suggestion = String::from_str("define variable '");
        suggestion.append(id.as_str());
        suggestion.append("' before its use");
        Err(
            CompilationError {
                name: String::from_str("ERR_UNDEFINED_VARIABLE"),
                desc,
                cause,
                suggestion,
                view: None,
                position: None,
            },
        )
    }
}

/// Compares two owned strings by their characters.
fn str_eq_string(a: &String, b: &String) -> (r: bool)
    ensures
        r == (a@ == b@),
{
    crate::strings::str_eq(a.as_str(), b.as_str())
}

/// The populated model: every template of one compilation.
pub struct CoreModel<'t> {
    pub templates: Vec<Template<'t>>,
}

impl<'t> CoreModel<'t> {
    pub fn new() -> (r: CoreModel<'t>)
        ensures
            r.templates@.len() == 0,
    {
        CoreModel { templates: Vec::new() }
    }
}

} // verus!
