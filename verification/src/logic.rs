use crate::object::Object;
use crate::object::ObjectView;
use std::rc::Rc;
use vstd::prelude::*;
use vstd::string::*;

verus! {

/// The operators that stand before an operand.
#[derive(Debug, PartialEq, Eq, Structural, Clone, Copy)]
pub enum PrefixOperator {
    Bang,
    Minus,
}

/// The operators that stand between two operands.
#[derive(Debug, PartialEq, Eq, Structural, Clone, Copy)]
pub enum InfixOperator {
    Plus,
    Minus,
    Multiply,
    Divide,
    Gt,
    Lt,
    Eq,
    NotEq,
}

impl PrefixOperator {
    /// How the operator is written.
    pub open spec fn symbol(self) -> Seq<char> {
        match self {
            PrefixOperator::Bang => "!"@,
            PrefixOperator::Minus => "-"@,
        }
    }

    /// The operator as it is written.
    pub fn to_string(&self) -> (text: String)
        ensures
            text@ == self.symbol(),
    {
        match self {
            PrefixOperator::Bang => String::from_str("!"),
            PrefixOperator::Minus => String::from_str("-"),
        }
    }
}

impl InfixOperator {
    /// How the operator is written.
    pub open spec fn symbol(self) -> Seq<char> {
        match self {
            InfixOperator::Plus => "+"@,
            InfixOperator::Minus => "-"@,
            InfixOperator::Multiply => "*"@,
            InfixOperator::Divide => "/"@,
            InfixOperator::Gt => ">"@,
            InfixOperator::Lt => "<"@,
            InfixOperator::Eq => "=="@,
            InfixOperator::NotEq => "!="@,
        }
    }

    /// The operator as it is written.
    pub fn to_string(&self) -> (text: String)
        ensures
            text@ == self.symbol(),
    {
        match self {
            InfixOperator::Plus => String::from_str("+"),
            InfixOperator::Minus => String::from_str("-"),
            InfixOperator::Multiply => String::from_str("*"),
            InfixOperator::Divide => String::from_str("/"),
            InfixOperator::Gt => String::from_str(">"),
            InfixOperator::Lt => String::from_str("<"),
            InfixOperator::Eq => String::from_str("=="),
            InfixOperator::NotEq => String::from_str("!="),
        }
    }
}

/// The content of what an operator yields: a value, or the message of an
/// error.
pub open spec fn outcome_view(outcome: Result<Object, String>) -> Result<ObjectView, Seq<char>> {
    match outcome {
        Ok(object) => Ok(object@),
        Err(message) => Err(message@),
    }
}

/// The message for a prefix operator before an operand it does not take.
pub open spec fn prefix_error(operand: ObjectView, operator: PrefixOperator) -> Seq<char> {
    "The prefix "@ + operator.symbol() + " cannot appear before type "@ + operand.kind_name()
}

/// The 64-bit signed integer that a number wraps to: the one that differs
/// from it by a multiple of 2^64.
pub open spec fn wrapped(n: int) -> i64 {
    if n % 0x1_0000_0000_0000_0000 > i64::MAX {
        (n % 0x1_0000_0000_0000_0000 - 0x1_0000_0000_0000_0000) as i64
    } else {
        (n % 0x1_0000_0000_0000_0000) as i64
    }
}

/// The quotient of two integers, rounded toward zero.
pub open spec fn truncated_quotient(left: int, right: int) -> int
    recommends
        right != 0,
{
    if left >= 0 && right > 0 {
        left / right
    } else if left < 0 && right < 0 {
        (-left) / (-right)
    } else if left < 0 {
        -((-left) / right)
    } else {
        -(left / (-right))
    }
}

/// What a prefix operator yields: `-` negates an integer, wrapping where
/// the result does not fit, `!` negates a boolean, and every other
/// combination is an error.
pub open spec fn prefix_result(operand: ObjectView, operator: PrefixOperator) -> Result<
    ObjectView,
    Seq<char>,
> {
    match (operator, operand) {
        (PrefixOperator::Minus, ObjectView::Integer(value)) => Ok(
            ObjectView::Integer(wrapped(-value)),
        ),
        (PrefixOperator::Bang, ObjectView::Boolean(value)) => Ok(ObjectView::Boolean(!value)),
        _ => Err(prefix_error(operand, operator)),
    }
}

/// The message for an infix operator between operands it does not take.
pub open spec fn infix_error(left: ObjectView, operator: InfixOperator, right: ObjectView) -> Seq<
    char,
> {
    "Cannot evaluate infix expression "@ + left.display() + " "@ + operator.symbol() + " "@
        + right.display()
}

/// What an infix operator yields. `==` and `!=` compare any two values.
/// Between integers `+ - * /` wrap where the result does not fit, `/` rounds
/// toward zero and is an error where the divisor is zero, `<` and `>`
/// compare. `+` joins two strings. Every other combination is an error.
pub open spec fn infix_result(left: ObjectView, operator: InfixOperator, right: ObjectView) -> Result<
    ObjectView,
    Seq<char>,
> {
    match (left, operator, right) {
        (_, InfixOperator::Eq, _) => Ok(ObjectView::Boolean(left.equals(right))),
        (_, InfixOperator::NotEq, _) => Ok(ObjectView::Boolean(!left.equals(right))),
        (ObjectView::Integer(l), InfixOperator::Plus, ObjectView::Integer(r)) => Ok(
            ObjectView::Integer(wrapped(l + r)),
        ),
        (ObjectView::Integer(l), InfixOperator::Minus, ObjectView::Integer(r)) => Ok(
            ObjectView::Integer(wrapped(l - r)),
        ),
        (ObjectView::Integer(l), InfixOperator::Multiply, ObjectView::Integer(r)) => Ok(
            ObjectView::Integer(wrapped(l * r)),
        ),
        (ObjectView::Integer(l), InfixOperator::Divide, ObjectView::Integer(r)) => if r == 0 {
            Err(infix_error(left, operator, right))
        } else {
            Ok(ObjectView::Integer(wrapped(truncated_quotient(l as int, r as int))))
        },
        (ObjectView::Integer(l), InfixOperator::Gt, ObjectView::Integer(r)) => Ok(
            ObjectView::Boolean(l > r),
        ),
        (ObjectView::Integer(l), InfixOperator::Lt, ObjectView::Integer(r)) => Ok(
            ObjectView::Boolean(l < r),
        ),
        (ObjectView::String(l), InfixOperator::Plus, ObjectView::String(r)) => Ok(
            ObjectView::String(l + r),
        ),
        _ => Err(infix_error(left, operator, right)),
    }
}

/// The sum of two integers, wrapped.
fn wrapping_sum(left: i64, right: i64) -> (sum: i64)
    ensures
        sum == wrapped(left + right),
{
    left.wrapping_add(right)
}

/// The difference of two integers, wrapped.
fn wrapping_difference(left: i64, right: i64) -> (difference: i64)
    ensures
        difference == wrapped(left - right),
{
    left.wrapping_sub(right)
}

/// The product of two integers, wrapped.
fn wrapping_product(left: i64, right: i64) -> (product: i64)
    ensures
        product == wrapped(left * right),
{
    left.wrapping_mul(right)
}

/// The quotient of two integers, rounded toward zero and wrapped.
fn wrapping_quotient(left: i64, right: i64) -> (quotient: i64)
    requires
        right != 0,
    ensures
        quotient == wrapped(truncated_quotient(left as int, right as int)),
{
    match left.checked_div(right) {
        Some(quotient) => quotient,
        None => i64::MIN,
    }
}

fn prefix_error_message(operand: &Object, operator: &PrefixOperator) -> (message: String)
    ensures
        message@ == prefix_error(operand@, *operator),
{
    let mut message = String::from_str("The prefix ");
    message.append(operator.to_string().as_str());
    message.append(" cannot appear before type ");
    message.append(operand.kind_name().as_str());
    assert(message@ =~= prefix_error(operand@, *operator));
    message
}

fn infix_error_message(left: &Object, operator: &InfixOperator, right: &Object) -> (message:
    String)
    ensures
        message@ == infix_error(left@, *operator, right@),
{
    let mut message = String::from_str("Cannot evaluate infix expression ");
    message.append(left.to_string().as_str());
    message.append(" ");
    message.append(operator.to_string().as_str());
    message.append(" ");
    message.append(right.to_string().as_str());
    assert(message@ =~= infix_error(left@, *operator, right@));
    message
}

/// Applies a prefix operator to a value.
pub fn eval_prefix<'a>(operand: Rc<Object<'a>>, operator: &PrefixOperator) -> (outcome: Result<
    Object<'a>,
    String,
>)
    ensures
        outcome_view(outcome) == prefix_result(operand@, *operator),
{
    match (operator, &*operand) {
        (PrefixOperator::Minus, Object::Integer(value)) => Ok(
            Object::Integer(wrapping_difference(0, *value)),
        ),
        (PrefixOperator::Bang, Object::Boolean(value)) => Ok(Object::Boolean(!*value)),
        _ => Err(prefix_error_message(&*operand, operator)),
    }
}

/// Applies an infix operator to two values.
pub fn eval_infix<'a>(left: Rc<Object<'a>>, op: &InfixOperator, right: Rc<Object<'a>>) -> (outcome:
    Result<Object<'a>, String>)
    ensures
        outcome_view(outcome) == infix_result(left@, *op, right@),
{
    match (&*left, op, &*right) {
        (_, InfixOperator::Eq, _) => Ok(Object::Boolean(left.equals(&*right))),
        (_, InfixOperator::NotEq, _) => Ok(Object::Boolean(!left.equals(&*right))),
        (Object::Integer(l), InfixOperator::Plus, Object::Integer(r)) => Ok(
            Object::Integer(wrapping_sum(*l, *r)),
        ),
        (Object::Integer(l), InfixOperator::Minus, Object::Integer(r)) => Ok(
            Object::Integer(wrapping_difference(*l, *r)),
        ),
        (Object::Integer(l), InfixOperator::Multiply, Object::Integer(r)) => Ok(
            Object::Integer(wrapping_product(*l, *r)),
        ),
        (Object::Integer(l), InfixOperator::Divide, Object::Integer(r)) => {
            if *r == 0 {
                Err(infix_error_message(&*left, op, &*right))
            } else {
                Ok(Object::Integer(wrapping_quotient(*l, *r)))
            }
        },
        (Object::Integer(l), InfixOperator::Gt, Object::Integer(r)) => Ok(
            Object::Boolean(*l > *r),
        ),
        (Object::Integer(l), InfixOperator::Lt, Object::Integer(r)) => Ok(
            Object::Boolean(*l < *r),
        ),
        (Object::String(l), InfixOperator::Plus, Object::String(r)) => {
            let mut joined = l.clone();
            joined.append(r.as_str());
            Ok(Object::String(joined))
        },
        _ => Err(infix_error_message(&*left, op, &*right)),
    }
}

} // verus!
