use crate::complexity::parenthesized;
use crate::expression::{EvaluatedExpr, Expression};
use crate::operation::{is_operator_greater_than, Operation, OperationKind};
use vstd::prelude::*;

verus! {

/// The decimal digit for `d < 10`.
pub open spec fn digit(d: nat) -> char {
    if d == 0 {
        '0'
    } else if d == 1 {
        '1'
    } else if d == 2 {
        '2'
    } else if d == 3 {
        '3'
    } else if d == 4 {
        '4'
    } else if d == 5 {
        '5'
    } else if d == 6 {
        '6'
    } else if d == 7 {
        '7'
    } else if d == 8 {
        '8'
    } else {
        '9'
    }
}

/// The decimal digits of `n`, without leading zeros.
pub open spec fn natural_text(n: nat) -> Seq<char>
    decreases n,
{
    if n < 10 {
        seq![digit(n)]
    } else {
        natural_text(n / 10) + seq![digit(n % 10)]
    }
}

/// The decimal text of `n`, with a minus sign when it is negative.
pub open spec fn integer_text(n: int) -> Seq<char> {
    if n < 0 {
        seq!['-'] + natural_text((-n) as nat)
    } else {
        natural_text(n as nat)
    }
}

/// The operator between its operands, with a space on each side.
pub open spec fn operator_text(kind: OperationKind) -> Seq<char> {
    let symbol = match kind {
        OperationKind::Add => '+',
        OperationKind::Subtract => '-',
        OperationKind::Multiply => '*',
        OperationKind::Divide => '/',
        OperationKind::Power => '^',
    };
    seq![' ', symbol, ' ']
}

/// The infix text of an expression.
pub open spec fn text(x: Expression) -> Seq<char>
    decreases x, 0nat,
{
    match x {
        Expression::Num(n) => integer_text(n as int),
        Expression::Op(op) => child_text(op.left.expression, op.kind, true) + operator_text(op.kind)
            + child_text(op.right.expression, op.kind, false),
    }
}

/// The text of a child under `parent`, in parentheses where it needs them.
pub open spec fn child_text(x: Expression, parent: OperationKind, is_left: bool) -> Seq<char>
    decreases x, 1nat,
{
    match x {
        Expression::Num(n) => integer_text(n as int),
        Expression::Op(op) => if parenthesized(op.kind, parent, is_left) {
            seq!['('] + text(x) + seq![')']
        } else {
            text(x)
        },
    }
}

/// Relies on `String`'s `FromIterator<char>`: the string holds the characters
/// in their order.
#[verifier::external_body]
fn collect_string(chars: &Vec<char>) -> (s: String)
    ensures
        s@ == chars@,
{
    chars.iter().collect()
}

fn digit_char(d: u32) -> (c: char)
    requires
        d < 10,
    ensures
        c == digit(d as nat),
{
    match d {
        0 => '0',
        1 => '1',
        2 => '2',
        3 => '3',
        4 => '4',
        5 => '5',
        6 => '6',
        7 => '7',
        8 => '8',
        _ => '9',
    }
}

fn write_natural(out: &mut Vec<char>, n: u32)
    ensures
        final(out)@ == old(out)@ + natural_text(n as nat),
    decreases n,
{
    if n >= 10 {
        write_natural(out, n / 10);
    }
    out.push(digit_char(n % 10));
    proof {
        if n < 10 {
            assert(n % 10 == n);
        }
        assert(final(out)@ =~= old(out)@ + natural_text(n as nat));
    }
}

fn write_integer(out: &mut Vec<char>, n: i32)
    ensures
        final(out)@ == old(out)@ + integer_text(n as int),
{
    if n < 0 {
        out.push('-');
        let magnitude: u32 = if n == i32::MIN {
            2147483648
        } else {
            (-n) as u32
        };
        write_natural(out, magnitude);
        proof {
            assert(final(out)@ =~= old(out)@ + integer_text(n as int));
        }
    } else {
        write_natural(out, n as u32);
    }
}

fn write_operator(out: &mut Vec<char>, kind: OperationKind)
    ensures
        final(out)@ == old(out)@ + operator_text(kind),
{
    let symbol = match kind {
        OperationKind::Add => '+',
        OperationKind::Subtract => '-',
        OperationKind::Multiply => '*',
        OperationKind::Divide => '/',
        OperationKind::Power => '^',
    };
    out.push(' ');
    out.push(symbol);
    out.push(' ');
    proof {
        assert(final(out)@ =~= old(out)@ + operator_text(kind));
    }
}

impl Expression {
    fn write_text(&self, out: &mut Vec<char>)
        ensures
            final(out)@ == old(out)@ + text(*self),
        decreases self, 0nat,
    {
        match self {
            Expression::Num(num) => write_integer(out, *num),
            Expression::Op(op) => op.write_text(out),
        }
    }

    fn write_text_child(&self, out: &mut Vec<char>, parent_op: OperationKind, is_left: bool)
        ensures
            final(out)@ == old(out)@ + child_text(*self, parent_op, is_left),
        decreases self, 1nat,
    {
        match self {
            Expression::Num(num) => write_integer(out, *num),
            Expression::Op(op) => op.write_text_child(out, parent_op, is_left),
        }
    }

    /// The infix text of the expression.
    pub fn to_text(&self) -> (s: String)
        ensures
            s@ == text(*self),
    {
        let mut out: Vec<char> = Vec::new();
        self.write_text(&mut out);
        proof {
            assert(out@ =~= text(*self));
        }
        collect_string(&out)
    }

    /// The text of the expression as a child under `parent_op`, in
    /// parentheses where it needs them.
    pub fn to_text_child(&self, parent_op: OperationKind, is_left: bool) -> (s: String)
        ensures
            s@ == child_text(*self, parent_op, is_left),
    {
        let mut out: Vec<char> = Vec::new();
        self.write_text_child(&mut out, parent_op, is_left);
        proof {
            assert(out@ =~= child_text(*self, parent_op, is_left));
        }
        collect_string(&out)
    }
}

impl Operation {
    fn write_text(&self, out: &mut Vec<char>)
        ensures
            final(out)@ == old(out)@ + child_text(self.left.expression, self.kind, true)
                + operator_text(self.kind) + child_text(self.right.expression, self.kind, false),
        decreases self, 0nat,
    {
        self.left.expression.write_text_child(out, self.kind, true);
        write_operator(out, self.kind);
        self.right.expression.write_text_child(out, self.kind, false);
        proof {
            assert(final(out)@ =~= old(out)@ + child_text(self.left.expression, self.kind, true)
                + operator_text(self.kind) + child_text(self.right.expression, self.kind, false));
        }
    }

    fn write_text_child(&self, out: &mut Vec<char>, parent_op: OperationKind, is_left: bool)
        ensures
            final(out)@ == old(out)@ + if parenthesized(self.kind, parent_op, is_left) {
                seq!['('] + text(Expression::Op(Box::new(*self))) + seq![')']
            } else {
                text(Expression::Op(Box::new(*self)))
            },
        decreases self, 1nat,
    {
        let use_parentheses = is_operator_greater_than(self.kind, parent_op) || (!is_left
            && !matches!(parent_op, OperationKind::Add | OperationKind::Multiply));
        if use_parentheses {
            out.push('(');
            self.write_text(out);
            out.push(')');
        } else {
            self.write_text(out);
        }
        proof {
            assert(final(out)@ =~= old(out)@ + if use_parentheses {
                seq!['('] + text(Expression::Op(Box::new(*self))) + seq![')']
            } else {
                text(Expression::Op(Box::new(*self)))
            });
        }
    }

    /// The infix text of this node.
    pub fn to_text(&self) -> (s: String)
        ensures
            s@ == text(Expression::Op(Box::new(*self))),
    {
        let mut out: Vec<char> = Vec::new();
        self.write_text(&mut out);
        proof {
            assert(out@ =~= text(Expression::Op(Box::new(*self))));
        }
        collect_string(&out)
    }

    /// The text of this node as a child under `parent_op`, in parentheses
    /// where it needs them.
    pub fn to_text_child(&self, parent_op: OperationKind, is_left: bool) -> (s: String)
        ensures
            s@ == child_text(Expression::Op(Box::new(*self)), parent_op, is_left),
    {
        let mut out: Vec<char> = Vec::new();
        self.write_text_child(&mut out, parent_op, is_left);
        proof {
            assert(out@ =~= child_text(Expression::Op(Box::new(*self)), parent_op, is_left));
        }
        collect_string(&out)
    }
}

impl EvaluatedExpr {
    /// The infix text of the expression.
    pub fn to_text(&self) -> (s: String)
        ensures
            s@ == text(self.expression),
    {
        self.expression.to_text()
    }
}

} // verus!
