pub mod environment;

use crate::ast::texts_view;
use crate::ast::BlockStatement;
use crate::ast::StatementView;
use crate::text::boolean_text;
use crate::text::boolean_to_string;
use crate::text::decimal;
use crate::text::integer_to_string;
use std::rc::Rc;
use vstd::prelude::*;
use vstd::std_specs::cmp::PartialEqSpecImpl;
use vstd::string::*;

verus! {

/// The functions that the language provides without a definition in the
/// program.
#[derive(Debug, PartialEq, Eq, Structural, Clone, Copy)]
pub enum BuiltinFunction {
    /// `len(string)`: the number of characters of a string.
    Len,
    /// `print(value)`: writes the value on a line of its own, and yields null.
    Print,
}

/// A value at run time.
#[derive(Debug)]
pub enum Object<'ast> {
    Integer(i64),
    Boolean(bool),
    String(String),
    Null,
    /// Carries the value of a `return` up through the enclosing blocks.
    ReturnValue(Rc<Object<'ast>>),
    /// A closure: the body it borrows from the syntax tree, and the handle of
    /// its own scope, which stands inside the scope that the function literal
    /// was evaluated in. No two closures have the same scope, so the handle
    /// tells them apart.
    Function { parameter_names: Vec<String>, body: &'ast BlockStatement, env: usize },
    BuiltinFunction(BuiltinFunction),
}

/// The mathematical content of a run-time value.
pub enum ObjectView {
    Integer(i64),
    Boolean(bool),
    String(Seq<char>),
    Null,
    ReturnValue(Box<ObjectView>),
    Function { parameter_names: Seq<Seq<char>>, body: Seq<StatementView>, env: nat },
    BuiltinFunction(BuiltinFunction),
}

/// The content of a value.
pub open spec fn object_view(o: Object) -> ObjectView
    decreases o,
{
    match o {
        Object::Integer(value) => ObjectView::Integer(value),
        Object::Boolean(value) => ObjectView::Boolean(value),
        Object::String(value) => ObjectView::String(value@),
        Object::Null => ObjectView::Null,
        Object::ReturnValue(inner) => ObjectView::ReturnValue(Box::new(object_view(*inner))),
        Object::Function { parameter_names, body, env } => ObjectView::Function {
            parameter_names: texts_view(parameter_names),
            body: body@,
            env: env as nat,
        },
        Object::BuiltinFunction(builtin) => ObjectView::BuiltinFunction(builtin),
    }
}

impl<'ast> View for Object<'ast> {
    type V = ObjectView;

    open spec fn view(&self) -> ObjectView {
        object_view(*self)
    }
}

/// The content of each value of a list.
pub open spec fn objects_view(objects: Seq<Rc<Object>>) -> Seq<ObjectView> {
    Seq::new(objects.len(), |i: int| objects[i]@)
}

impl ObjectView {
    /// The name of the value's type, as messages give it.
    pub open spec fn kind_name(self) -> Seq<char> {
        match self {
            ObjectView::Integer(_) => "Integer"@,
            ObjectView::Boolean(_) => "Boolean"@,
            ObjectView::Null => "Null"@,
            ObjectView::ReturnValue(_) => "Return value"@,
            ObjectView::String(_) => "String"@,
            ObjectView::Function { .. } => "Function"@,
            ObjectView::BuiltinFunction(_) => "BuiltinFunction"@,
        }
    }

    /// How the value is shown to the user.
    pub open spec fn display(self) -> Seq<char>
        decreases self,
    {
        match self {
            ObjectView::Integer(value) => decimal(value as int),
            ObjectView::Boolean(value) => boolean_text(value),
            ObjectView::Null => "null"@,
            ObjectView::String(value) => value,
            ObjectView::ReturnValue(inner) => "Return value: "@ + inner.display(),
            ObjectView::Function { .. } => "Function"@,
            ObjectView::BuiltinFunction(_) => "Builtin Function"@,
        }
    }

    /// Equality of values: integers, booleans and strings are equal where
    /// they hold the same; null equals null; a carried return value is
    /// compared by what it carries; a closure equals itself only, which its
    /// scope tells; a built-in function equals nothing.
    pub open spec fn equals(self, other: ObjectView) -> bool
        decreases self,
    {
        match (self, other) {
            (ObjectView::Integer(l), ObjectView::Integer(r)) => l == r,
            (ObjectView::Boolean(l), ObjectView::Boolean(r)) => l == r,
            (ObjectView::Null, ObjectView::Null) => true,
            (ObjectView::ReturnValue(l), ObjectView::ReturnValue(r)) => l.equals(*r),
            (ObjectView::String(l), ObjectView::String(r)) => l == r,
            (ObjectView::Function { env: l, .. }, ObjectView::Function { env: r, .. }) => l == r,
            _ => false,
        }
    }
}

/// Another handle on the same value. `Rc::clone` hands back a pointer to the
/// allocation that its argument points to, so the two hold one value.
#[verifier::external_body]
pub(crate) fn share<'ast>(object: &Rc<Object<'ast>>) -> (shared: Rc<Object<'ast>>)
    ensures
        shared == *object,
{
    Rc::clone(object)
}

/// A copy of a list of texts.
pub fn copy_texts(texts: &Vec<String>) -> (copy: Vec<String>)
    ensures
        texts_view(copy) == texts_view(*texts),
{
    let mut copy: Vec<String> = Vec::new();
    let mut i: usize = 0;
    while i < texts.len()
        invariant
            i <= texts.len(),
            copy.len() == i,
            forall|k: int| 0 <= k < i ==> copy[k]@ == texts[k]@,
        decreases texts.len() - i,
    {
        copy.push(texts[i].clone());
        i = i + 1;
    }
    assert(texts_view(copy) =~= texts_view(*texts));
    copy
}

impl<'ast> Object<'ast> {
    /// The name of the value's type, as messages give it.
    pub fn kind_name(&self) -> (name: String)
        ensures
            name@ == self@.kind_name(),
    {
        let name = match self {
            Object::Integer(_) => "Integer",
            Object::Boolean(_) => "Boolean",
            Object::Null => "Null",
            Object::ReturnValue(_) => "Return value",
            Object::String(_) => "String",
            Object::Function { .. } => "Function",
            Object::BuiltinFunction(_) => "BuiltinFunction",
        };
        String::from_str(name)
    }

    /// The value as it is shown to the user.
    pub fn to_string(&self) -> (text: String)
        ensures
            text@ == self@.display(),
        decreases self,
    {
        match self {
            Object::Integer(value) => integer_to_string(*value),
            Object::Boolean(value) => boolean_to_string(*value),
            Object::Null => String::from_str("null"),
            Object::String(value) => value.clone(),
            Object::ReturnValue(inner) => {
                let mut text = String::from_str("Return value: ");
                let shown = inner.to_string();
                text.append(shown.as_str());
                text
            },
            Object::Function { .. } => String::from_str("Function"),
            Object::BuiltinFunction(_) => String::from_str("Builtin Function"),
        }
    }

    /// Whether two values are equal.
    pub fn equals(&self, other: &Object<'ast>) -> (same: bool)
        ensures
            same == self@.equals(other@),
        decreases self,
    {
        match (self, other) {
            (Object::Integer(l), Object::Integer(r)) => *l == *r,
            (Object::Boolean(l), Object::Boolean(r)) => *l == *r,
            (Object::Null, Object::Null) => true,
            (Object::ReturnValue(l), Object::ReturnValue(r)) => l.equals(r),
            (Object::String(l), Object::String(r)) => *l == *r,
            (Object::Function { env: l, .. }, Object::Function { env: r, .. }) => *l == *r,
            _ => false,
        }
    }
}

impl<'ast> PartialEq for Object<'ast> {
    fn eq(&self, other: &Object<'ast>) -> (same: bool) {
        self.equals(other)
    }
}

impl<'ast> PartialEqSpecImpl for Object<'ast> {
    open spec fn obeys_eq_spec() -> bool {
        true
    }

    open spec fn eq_spec(&self, other: &Object<'ast>) -> bool {
        self@.equals(other@)
    }
}

} // verus!
