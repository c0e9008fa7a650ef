//! The value algebra: equality, ordering and arithmetic of two values.
use vstd::prelude::*;
use crate::datavalue::{DataValue, DataValueType, Number, ValueView};
use crate::error::{Error, ErrorView};
use crate::floating::{check_equal, check_less, check_zero, equal, from_int, int_bits, is_zero, less};
use crate::text::{chars_of, push_text, same_text};

verus! {

/// How one value stands to another.
#[derive(Debug, Clone, Copy, PartialEq, Eq, Structural)]
pub enum Order {
    Less,
    Equal,
    Greater,
}

/// Whether text `a` comes before text `b` in lexicographic order of their
/// characters.
pub open spec fn text_less(a: Seq<char>, b: Seq<char>) -> bool
    decreases a.len(),
{
    if b.len() == 0 {
        false
    } else if a.len() == 0 {
        true
    } else if a[0] != b[0] {
        (a[0] as u32) < (b[0] as u32)
    } else {
        text_less(a.drop_first(), b.drop_first())
    }
}

impl ValueView {
    /// Equality of two values. Numbers are equal when they are numerically
    /// equal, an integer standing for the nearest float where the other is a
    /// float. Arrays are equal position by position. Objects are equal when
    /// they have as many pairs and each key of the left one is found in the
    /// right one, its first pair there holding an equal value. Values of
    /// different kinds are unequal.
    pub open spec fn equals(self, other: ValueView) -> bool
        decreases self,
    {
        match self {
            ValueView::Null => other is Null,
            ValueView::Bool(a) => other == ValueView::Bool(a),
            ValueView::Integer(a) => match other {
                ValueView::Integer(b) => a == b,
                ValueView::Float(b) => equal(int_bits(a as int) as u64, b),
                _ => false,
            },
            ValueView::Float(a) => match other {
                ValueView::Integer(b) => equal(a, int_bits(b as int) as u64),
                ValueView::Float(b) => equal(a, b),
                _ => false,
            },
            ValueView::String(a) => other == ValueView::String(a),
            ValueView::Array(a) => match other {
                ValueView::Array(b) => a.len() == b.len() && forall|i: int|
                    0 <= i < a.len() ==> (#[trigger] a[i]).equals(b[i]),
                _ => false,
            },
            ValueView::Object(a) => match other {
                ValueView::Object(b) => a.len() == b.len() && forall|i: int|
                    0 <= i < a.len() ==> match other.get((#[trigger] a[i]).0) {
                        Some(v) => a[i].1.equals(v),
                        None => false,
                    },
                _ => false,
            },
            ValueView::DateTime(a) => other == ValueView::DateTime(a),
            ValueView::Duration(a) => other == ValueView::Duration(a),
        }
    }

    /// Whether this value is below the other: defined for two numbers, an
    /// integer standing for the nearest float where the other is a float,
    /// and for two strings, in lexicographic order. No other pair is ordered.
    pub open spec fn less_than(self, other: ValueView) -> Option<bool> {
        match (self, other) {
            (ValueView::Integer(a), ValueView::Integer(b)) => Some(a < b),
            (ValueView::Float(a), ValueView::Float(b)) => Some(less(a, b)),
            (ValueView::Integer(a), ValueView::Float(b)) => Some(
                less(int_bits(a as int) as u64, b),
            ),
            (ValueView::Float(a), ValueView::Integer(b)) => Some(
                less(a, int_bits(b as int) as u64),
            ),
            (ValueView::String(a), ValueView::String(b)) => Some(text_less(a, b)),
            _ => None,
        }
    }

    /// How this value stands to the other, where the two are ordered: below
    /// it, equal to it, or else above it.
    pub open spec fn compare(self, other: ValueView) -> Option<Order> {
        match self.less_than(other) {
            Some(true) => Some(Order::Less),
            Some(false) => if self.equals(other) {
                Some(Order::Equal)
            } else {
                Some(Order::Greater)
            },
            None => None,
        }
    }
}

/// No text comes before itself, and of two texts at most one comes before
/// the other.
pub proof fn lemma_text_less_asymmetric(a: Seq<char>, b: Seq<char>)
    ensures
        text_less(a, b) ==> !text_less(b, a),
        !text_less(a, a),
    decreases a.len(),
{
    if a.len() > 0 {
        lemma_text_less_asymmetric(a.drop_first(), a.drop_first());
        if b.len() > 0 {
            lemma_text_less_asymmetric(a.drop_first(), b.drop_first());
        }
    }
}

/// Of two different texts one comes before the other.
pub proof fn lemma_text_less_total(a: Seq<char>, b: Seq<char>)
    ensures
        a != b ==> text_less(a, b) || text_less(b, a),
    decreases a.len(),
{
    if a.len() > 0 && b.len() > 0 {
        if a[0] == b[0] {
            lemma_text_less_total(a.drop_first(), b.drop_first());
            if a.drop_first() == b.drop_first() {
                assert(a =~= seq![a[0]] + a.drop_first());
                assert(b =~= seq![b[0]] + b.drop_first());
            }
        } else {
            vstd::utf8::char_u32_cast(a[0], a[0] as u32);
            vstd::utf8::char_u32_cast(b[0], b[0] as u32);
        }
    } else if a.len() == 0 && b.len() == 0 {
        assert(a =~= b);
    }
}

/// The order of texts is transitive.
pub proof fn lemma_text_less_transitive(a: Seq<char>, b: Seq<char>, c: Seq<char>)
    requires
        text_less(a, b),
        text_less(b, c),
    ensures
        text_less(a, c),
    decreases a.len(),
{
    if a.len() > 0 && b.len() > 0 && c.len() > 0 {
        if a[0] == b[0] && b[0] == c[0] {
            lemma_text_less_transitive(a.drop_first(), b.drop_first(), c.drop_first());
        }
    }
}

/// Where one value is below another, the other is not below it; and no
/// value is below one that it equals.
pub proof fn lemma_less_than_is_strict(a: ValueView, b: ValueView)
    ensures
        a.less_than(b) == Some(true) ==> b.less_than(a) == Some(false),
        a.less_than(b) == Some(true) ==> !a.equals(b),
        a.less_than(b) is Some <==> b.less_than(a) is Some,
{
    match (a, b) {
        (ValueView::String(x), ValueView::String(y)) => {
            lemma_text_less_asymmetric(x, y);
        },
        _ => {},
    }
}

/// Whether the characters `a` come before the characters `b`.
fn chars_less(a: &Vec<char>, b: &Vec<char>) -> (r: bool)
    ensures
        r == text_less(a@, b@),
{
    let mut i: usize = 0;
    assert(a@.skip(0) =~= a@ && b@.skip(0) =~= b@);
    while i < a.len() && i < b.len()
        invariant
            i <= a@.len(),
            i <= b@.len(),
            text_less(a@, b@) == text_less(a@.skip(i as int), b@.skip(i as int)),
        decreases a@.len() - i,
    {
        assert(a@.skip(i as int)[0] == a@[i as int]);
        assert(b@.skip(i as int)[0] == b@[i as int]);
        assert(a@.skip(i as int).drop_first() =~= a@.skip(i + 1));
        assert(b@.skip(i as int).drop_first() =~= b@.skip(i + 1));
        if a[i] != b[i] {
            return (a[i] as u32) < (b[i] as u32);
        }
        i = i + 1;
    }
    i < b.len()
}

/// Equality of two values; see [`ValueView::equals`].
pub fn equals(left: &DataValue, right: &DataValue) -> (r: bool)
    ensures
        r == left@.equals(right@),
    decreases left,
{
    match left {
        DataValue::Null => match right {
            DataValue::Null => true,
            _ => false,
        },
        DataValue::Bool(a) => match right {
            DataValue::Bool(b) => *a == *b,
            _ => false,
        },
        DataValue::Number(Number::Integer(a)) => match right {
            DataValue::Number(Number::Integer(b)) => *a == *b,
            DataValue::Number(Number::Float(b)) => check_equal(from_int(*a), *b),
            _ => false,
        },
        DataValue::Number(Number::Float(a)) => match right {
            DataValue::Number(Number::Integer(b)) => check_equal(*a, from_int(*b)),
            DataValue::Number(Number::Float(b)) => check_equal(*a, *b),
            _ => false,
        },
        DataValue::String(a) => match right {
            DataValue::String(b) => same_text(a.as_str(), b.as_str()),
            _ => false,
        },
        DataValue::Array(a) => match right {
            DataValue::Array(b) => {
                if a.len() != b.len() {
                    return false;
                }
                let mut i: usize = 0;
                while i < a.len()
                    invariant
                        i <= a@.len(),
                        a@.len() == b@.len(),
                        *left == DataValue::Array(*a),
                        *right == DataValue::Array(*b),
                        forall|j: int|
                            0 <= j < i ==> (#[trigger] left@->Array_0[j]).equals(
                                right@->Array_0[j],
                            ),
                    decreases a@.len() - i,
                {
                    assert(decreases_to!(*left => left->Array_0));
                    assert(decreases_to!(*a => a@[i as int]));
                    if !equals(&a[i], &b[i]) {
                        assert(!left@->Array_0[i as int].equals(right@->Array_0[i as int]));
                        return false;
                    }
                    i = i + 1;
                }
                true
            },
            _ => false,
        },
        DataValue::Object(a) => match right {
            DataValue::Object(b) => {
                if a.len() != b.len() {
                    return false;
                }
                let mut i: usize = 0;
                while i < a.len()
                    invariant
                        i <= a@.len(),
                        a@.len() == b@.len(),
                        *left == DataValue::Object(*a),
                        *right == DataValue::Object(*b),
                        forall|j: int|
                            0 <= j < i ==> match right@.get((#[trigger] left@->Object_0[j]).0) {
                                Some(v) => left@->Object_0[j].1.equals(v),
                                None => false,
                            },
                    decreases a@.len() - i,
                {
                    assert(decreases_to!(*left => left->Object_0));
                    assert(decreases_to!(*a => a@[i as int]));
                    assert(left@->Object_0[i as int] == (a@[i as int].0@, a@[i as int].1@));
                    let same = match right.get(a[i].0.as_str()) {
                        Some(found) => equals(&a[i].1, found),
                        None => false,
                    };
                    if !same {
                        return false;
                    }
                    i = i + 1;
                }
                true
            },
            _ => false,
        },
        DataValue::DateTime(a) => match right {
            DataValue::DateTime(b) => *a == *b,
            _ => false,
        },
        DataValue::Duration(a) => match right {
            DataValue::Duration(b) => *a == *b,
            _ => false,
        },
    }
}

/// How `left` stands to `right`, where the two are ordered; see
/// [`ValueView::compare`].
pub fn compare(left: &DataValue, right: &DataValue) -> (r: Option<Order>)
    ensures
        r == left@.compare(right@),
{
    match less_than(left, right) {
        Some(true) => Some(Order::Less),
        Some(false) => if equals(left, right) {
            Some(Order::Equal)
        } else {
            Some(Order::Greater)
        },
        None => None,
    }
}

/// Whether `left` is below `right`, where the two are ordered; see
/// [`ValueView::less_than`].
pub fn less_than(left: &DataValue, right: &DataValue) -> (r: Option<bool>)
    ensures
        r == left@.less_than(right@),
{
    match (left, right) {
        (DataValue::Number(Number::Integer(a)), DataValue::Number(Number::Integer(b))) => Some(
            *a < *b,
        ),
        (DataValue::Number(Number::Float(a)), DataValue::Number(Number::Float(b))) => Some(
            check_less(*a, *b),
        ),
        (DataValue::Number(Number::Integer(a)), DataValue::Number(Number::Float(b))) => Some(
            check_less(from_int(*a), *b),
        ),
        (DataValue::Number(Number::Float(a)), DataValue::Number(Number::Integer(b))) => Some(
            check_less(*a, from_int(*b)),
        ),
        (DataValue::String(a), DataValue::String(b)) => {
            let x = chars_of(a.as_str());
            let y = chars_of(b.as_str());
            Some(chars_less(&x, &y))
        },
        _ => None,
    }
}

/// One of the four arithmetic operators.
#[derive(Debug, Clone, Copy, PartialEq, Eq, Structural)]
pub enum Operator {
    Add,
    Sub,
    Mul,
    Div,
}

/// What an arithmetic operator yields: the result itself, or the one
/// floating-point operation that makes it. This library holds floats as
/// bit patterns and computes none; the caller applies `op` to the two
/// operands and holds the result as a `Float`.
#[derive(Debug)]
pub enum Outcome {
    Value(DataValue),
    Float { op: Operator, left: u64, right: u64 },
}

/// The mathematical content of an [`Outcome`].
pub enum OutcomeView {
    Value(ValueView),
    Float { op: Operator, left: u64, right: u64 },
}

impl View for Outcome {
    type V = OutcomeView;

    open spec fn view(&self) -> OutcomeView {
        match *self {
            Outcome::Value(v) => OutcomeView::Value(v@),
            Outcome::Float { op, left, right } => OutcomeView::Float { op, left, right },
        }
    }
}

impl Outcome {
    /// The result, where no floating-point operation is left to do.
    pub fn value(self) -> (r: Option<DataValue>)
        ensures
            match self@ {
                OutcomeView::Value(v) => r matches Some(d) && d@ == v,
                OutcomeView::Float { .. } => r is None,
            },
    {
        match self {
            Outcome::Value(v) => Some(v),
            Outcome::Float { .. } => None,
        }
    }
}

/// The name of a kind of value, as error messages write it.
pub open spec fn kind_name(t: DataValueType) -> Seq<char> {
    match t {
        DataValueType::Null => "Null"@,
        DataValueType::Bool => "Bool"@,
        DataValueType::Integer => "Integer"@,
        DataValueType::Float => "Float"@,
        DataValueType::String => "String"@,
        DataValueType::Array => "Array"@,
        DataValueType::Object => "Object"@,
        DataValueType::DateTime => "DateTime"@,
        DataValueType::Duration => "Duration"@,
    }
}

/// The error of an arithmetic operator whose operands are not two numbers:
/// it names the kinds of both operands.
pub open spec fn operands_mismatch(left: DataValueType, right: DataValueType) -> ErrorView {
    ErrorView::ExpectedType {
        expected: "Integer or Float"@,
        found: kind_name(left) + " and "@ + kind_name(right),
    }
}

/// The error of `not` on a value that is no boolean.
pub open spec fn operand_mismatch(found: DataValueType) -> ErrorView {
    ErrorView::ExpectedType { expected: "Bool"@, found: kind_name(found) }
}

/// The error of a division by a number equal to zero.
pub open spec fn division_by_zero() -> ErrorView {
    ErrorView::Custom("Division by zero"@)
}

/// Whether `v` is a number equal to zero: the integer 0 or a float zero of
/// either sign.
pub open spec fn is_zero_number(v: ValueView) -> bool {
    match v {
        ValueView::Integer(i) => i == 0,
        ValueView::Float(bits) => is_zero(bits),
        _ => false,
    }
}

/// The exact integer that `op` makes of two integers, where there is one:
/// always for `+ - *`, and for `/` when the divisor divides the dividend.
pub open spec fn integer_result(op: Operator, a: int, b: int) -> Option<int> {
    match op {
        Operator::Add => Some(a + b),
        Operator::Sub => Some(a - b),
        Operator::Mul => Some(a * b),
        Operator::Div => if b != 0 && a % b == 0 {
            Some(a / b)
        } else {
            None
        },
    }
}

/// Whether `op` can be applied to the two values: the exact result of two
/// integers must fit in 64 bits.
pub open spec fn in_range(op: Operator, left: ValueView, right: ValueView) -> bool {
    match (left, right) {
        (ValueView::Integer(a), ValueView::Integer(b)) => match integer_result(
            op,
            a as int,
            b as int,
        ) {
            Some(n) => i64::MIN <= n <= i64::MAX,
            None => true,
        },
        _ => true,
    }
}

/// What `op` yields on two values. A division by a number equal to zero
/// fails, whatever the dividend. Two integers yield their exact integer
/// result where there is one, else the division of the two as floats. Any
/// other two numbers yield the operation on the two as floats, an integer
/// standing for the nearest float. Anything else is a mismatch.
pub open spec fn arithmetic(op: Operator, left: ValueView, right: ValueView) -> Result<
    OutcomeView,
    ErrorView,
> {
    if op == Operator::Div && is_zero_number(right) {
        Err(division_by_zero())
    } else {
        match (left, right) {
            (ValueView::Integer(a), ValueView::Integer(b)) => match integer_result(
                op,
                a as int,
                b as int,
            ) {
                Some(n) => Ok(OutcomeView::Value(ValueView::Integer(n as i64))),
                None => Ok(
                    OutcomeView::Float {
                        op,
                        left: int_bits(a as int) as u64,
                        right: int_bits(b as int) as u64,
                    },
                ),
            },
            (ValueView::Integer(a), ValueView::Float(b)) => Ok(
                OutcomeView::Float { op, left: int_bits(a as int) as u64, right: b },
            ),
            (ValueView::Float(a), ValueView::Integer(b)) => Ok(
                OutcomeView::Float { op, left: a, right: int_bits(b as int) as u64 },
            ),
            (ValueView::Float(a), ValueView::Float(b)) => Ok(
                OutcomeView::Float { op, left: a, right: b },
            ),
            _ => Err(operands_mismatch(left.tag(), right.tag())),
        }
    }
}

/// What `not` yields: the negation of a boolean, a mismatch for anything else.
pub open spec fn negation(v: ValueView) -> Result<ValueView, ErrorView> {
    match v {
        ValueView::Bool(b) => Ok(ValueView::Bool(!b)),
        _ => Err(operand_mismatch(v.tag())),
    }
}

/// The name of a kind of value.
pub fn name_of(t: DataValueType) -> (s: &'static str)
    ensures
        s@ == kind_name(t),
{
    match t {
        DataValueType::Null => "Null",
        DataValueType::Bool => "Bool",
        DataValueType::Integer => "Integer",
        DataValueType::Float => "Float",
        DataValueType::String => "String",
        DataValueType::Array => "Array",
        DataValueType::Object => "Object",
        DataValueType::DateTime => "DateTime",
        DataValueType::Duration => "Duration",
    }
}

/// The mismatch error for operands of kinds `left` and `right`.
fn mismatch_of(left: DataValueType, right: DataValueType) -> (e: Error)
    ensures
        e@ == operands_mismatch(left, right),
{
    let mut found = String::new();
    push_text(&mut found, name_of(left));
    push_text(&mut found, " and ");
    push_text(&mut found, name_of(right));
    Error::expected_type("Integer or Float", found.as_str())
}

/// What `op` makes of two integers.
fn integer_arithmetic(op: Operator, a: i64, b: i64) -> (r: Outcome)
    requires
        !(op == Operator::Div && b == 0),
        in_range(op, ValueView::Integer(a), ValueView::Integer(b)),
    ensures
        Ok::<OutcomeView, ErrorView>(r@) == arithmetic(
            op,
            ValueView::Integer(a),
            ValueView::Integer(b),
        ),
{
    match op {
        Operator::Add => Outcome::Value(DataValue::Number(Number::Integer(a + b))),
        Operator::Sub => Outcome::Value(DataValue::Number(Number::Integer(a - b))),
        Operator::Mul => Outcome::Value(DataValue::Number(Number::Integer(a * b))),
        Operator::Div => divide_integers(a, b),
    }
}

/// The absolute value of `i`.
fn magnitude_of_int(i: i64) -> (m: u64)
    ensures
        m == (if i < 0 {
            -(i as int)
        } else {
            i as int
        }),
{
    if i < 0 {
        ((-(i + 1)) as u64) + 1
    } else {
        i as u64
    }
}

/// A multiple of a divisor has remainder zero, and its quotient is the other factor.
proof fn lemma_division_of_multiple(b: int, q: int)
    requires
        b != 0,
    ensures
        (b * q) % b == 0,
        (b * q) / b == q,
{
    assert((b * q) % b == 0 && (b * q) / b == q) by (nonlinear_arith)
        requires
            b != 0,
    ;
}

/// A dividend is its divisor times the quotient, plus the remainder.
proof fn lemma_division_identity(a: int, b: int)
    requires
        b != 0,
    ensures
        a == b * (a / b) + a % b,
{
    assert(a == b * (a / b) + a % b) by (nonlinear_arith)
        requires
            b != 0,
    ;
}

/// The quotient of two integers: an integer where the division is exact,
/// else the division of the two as floats.
fn divide_integers(a: i64, b: i64) -> (r: Outcome)
    requires
        b != 0,
        in_range(Operator::Div, ValueView::Integer(a), ValueView::Integer(b)),
    ensures
        Ok::<OutcomeView, ErrorView>(r@) == arithmetic(
            Operator::Div,
            ValueView::Integer(a),
            ValueView::Integer(b),
        ),
{
    let ma = magnitude_of_int(a);
    let mb = magnitude_of_int(b);
    let negative = (a < 0) != (b < 0);
    if ma % mb == 0 {
        let k = ma / mb;
        let ghost q: int = if negative {
            -(k as int)
        } else {
            k as int
        };
        proof {
            lemma_division_identity(ma as int, mb as int);
            assert((a as int) == (b as int) * q) by (nonlinear_arith)
                requires
                    ma == mb * k,
                    ma == (if a < 0 {
                        -(a as int)
                    } else {
                        a as int
                    }),
                    mb == (if b < 0 {
                        -(b as int)
                    } else {
                        b as int
                    }),
                    q == (if (a < 0) != (b < 0) {
                        -(k as int)
                    } else {
                        k as int
                    }),
            ;
            lemma_division_of_multiple(b as int, q);
        }
        let quotient: i64 = if negative {
            if k == 0x8000_0000_0000_0000 {
                i64::MIN
            } else {
                -(k as i64)
            }
        } else {
            k as i64
        };
        Outcome::Value(DataValue::Number(Number::Integer(quotient)))
    } else {
        proof {
            if (a as int) % (b as int) == 0 {
                let e = (a as int) / (b as int);
                lemma_division_identity(a as int, b as int);
                let me: int = if e < 0 {
                    -e
                } else {
                    e
                };
                assert((ma as int) == (mb as int) * me) by (nonlinear_arith)
                    requires
                        (a as int) == (b as int) * e,
                        ma == (if a < 0 {
                            -(a as int)
                        } else {
                            a as int
                        }),
                        mb == (if b < 0 {
                            -(b as int)
                        } else {
                            b as int
                        }),
                        me == (if e < 0 {
                            -e
                        } else {
                            e
                        }),
                ;
                lemma_division_of_multiple(mb as int, me);
                assert(false);
            }
        }
        Outcome::Float { op: Operator::Div, left: from_int(a), right: from_int(b) }
    }
}

/// Applies `op` to two values; see [`arithmetic`].
pub fn apply(op: Operator, left: DataValue, right: DataValue) -> (r: Result<Outcome, Error>)
    requires
        in_range(op, left@, right@),
    ensures
        match arithmetic(op, left@, right@) {
            Ok(outcome) => r matches Ok(o) && o@ == outcome,
            Err(error) => r matches Err(e) && e@ == error,
        },
{
    match op {
        Operator::Div => {
            let zero = match &right {
                DataValue::Number(Number::Integer(b)) => *b == 0,
                DataValue::Number(Number::Float(b)) => check_zero(*b),
                _ => false,
            };
            if zero {
                return Err(Error::custom("Division by zero"));
            }
        },
        _ => {},
    }
    match (&left, &right) {
        (DataValue::Number(Number::Integer(a)), DataValue::Number(Number::Integer(b))) => Ok(
            integer_arithmetic(op, *a, *b),
        ),
        (DataValue::Number(Number::Integer(a)), DataValue::Number(Number::Float(b))) => Ok(
            Outcome::Float { op, left: from_int(*a), right: *b },
        ),
        (DataValue::Number(Number::Float(a)), DataValue::Number(Number::Integer(b))) => Ok(
            Outcome::Float { op, left: *a, right: from_int(*b) },
        ),
        (DataValue::Number(Number::Float(a)), DataValue::Number(Number::Float(b))) => Ok(
            Outcome::Float { op, left: *a, right: *b },
        ),
        _ => Err(mismatch_of(left.get_type(), right.get_type())),
    }
}

/// The negation of a boolean; see [`negation`].
pub fn negate(value: DataValue) -> (r: Result<DataValue, Error>)
    ensures
        match negation(value@) {
            Ok(v) => r matches Ok(d) && d@ == v,
            Err(error) => r matches Err(e) && e@ == error,
        },
{
    match value {
        DataValue::Bool(b) => Ok(DataValue::Bool(!b)),
        other => Err(Error::expected_type("Bool", name_of(other.get_type()))),
    }
}

} // verus!
