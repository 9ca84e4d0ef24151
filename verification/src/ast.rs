//! The expression tree, its scalar values and operators, and their views.

use vstd::prelude::*;
use crate::error::ValueKind;

verus! {

/// A terminal value of the language.
#[derive(Clone, Debug, PartialEq, Eq, PartialOrd, Hash)]
pub enum Value {
    Str(String),
    Bool(bool),
    Int(i64),
}

/// The mathematical content of a [`Value`].
pub enum ValueView {
    Str(Seq<char>),
    Bool(bool),
    Int(int),
}

impl ValueView {
    pub open spec fn kind(self) -> ValueKind {
        match self {
            ValueView::Str(_) => ValueKind::Str,
            ValueView::Bool(_) => ValueKind::Bool,
            ValueView::Int(_) => ValueKind::Int,
        }
    }
}

impl View for Value {
    type V = ValueView;

    open spec fn view(&self) -> ValueView {
        match self {
            Value::Str(s) => ValueView::Str(s@),
            Value::Bool(b) => ValueView::Bool(*b),
            Value::Int(i) => ValueView::Int(*i as int),
        }
    }
}

impl Value {
    /// Which of the three shapes this value has.
    pub fn kind(&self) -> (k: ValueKind)
        ensures
            k == self@.kind(),
    {
        match self {
            Value::Str(_) => ValueKind::Str,
            Value::Bool(_) => ValueKind::Bool,
            Value::Int(_) => ValueKind::Int,
        }
    }

    /// An independent copy holding the same content.
    pub fn duplicate(&self) -> (r: Value)
        ensures
            r@ == self@,
    {
        match self {
            Value::Str(s) => Value::Str(s.clone()),
            Value::Bool(b) => Value::Bool(*b),
            Value::Int(i) => Value::Int(*i),
        }
    }
}

#[derive(Clone, Copy, Debug, PartialEq, Eq, PartialOrd, Hash, Structural)]
pub enum UnaryOp {
    Neg,
    Not,
    StrToInt,
    IntToStr,
}

#[derive(Clone, Copy, Debug, PartialEq, Eq, PartialOrd, Hash, Structural)]
pub enum BinaryOp {
    Add,
    Sub,
    Mult,
    Div,
    Mod,
    Lt,
    Gt,
    Eq,
    Or,
    And,
    Cat,
    Take,
    Drop,
    Apply,
}

/// Whether two strings hold the same characters.
pub fn same_text(a: &str, b: &str) -> (r: bool)
    ensures
        r == (a@ == b@),
{
    let n: usize = a.unicode_len();
    if n != b.unicode_len() {
        return false;
    }
    let mut i: usize = 0;
    while i < n
        invariant
            n == a@.len(),
            n == b@.len(),
            i <= n,
            a@.take(i as int) == b@.take(i as int),
        decreases n - i,
    {
        if a.get_char(i) != b.get_char(i) {
            return false;
        }
        assert(a@.take(i + 1) =~= a@.take(i as int).push(a@[i as int]));
        assert(b@.take(i + 1) =~= b@.take(i as int).push(b@[i as int]));
        i = i + 1;
    }
    assert(a@ =~= a@.take(n as int));
    assert(b@ =~= b@.take(n as int));
    true
}

impl UnaryOp {
    /// The operator that a code character stands for.
    pub open spec fn of_code(c: char) -> Option<UnaryOp> {
        if c == '-' {
            Some(UnaryOp::Neg)
        } else if c == '!' {
            Some(UnaryOp::Not)
        } else if c == '#' {
            Some(UnaryOp::StrToInt)
        } else if c == '$' {
            Some(UnaryOp::IntToStr)
        } else {
            None
        }
    }

    /// The operator that a token body stands for: the body must be exactly one
    /// code character.
    pub open spec fn of_text(s: Seq<char>) -> Option<UnaryOp> {
        if s.len() == 1 {
            Self::of_code(s[0])
        } else {
            None
        }
    }

    /// The operator that `source` stands for, if it stands for one.
    pub fn lookup(source: &str) -> (r: Option<UnaryOp>)
        ensures
            r == Self::of_text(source@),
    {
        if source.unicode_len() != 1 {
            return None;
        }
        let c = source.get_char(0);
        if c == '-' {
            Some(UnaryOp::Neg)
        } else if c == '!' {
            Some(UnaryOp::Not)
        } else if c == '#' {
            Some(UnaryOp::StrToInt)
        } else if c == '$' {
            Some(UnaryOp::IntToStr)
        } else {
            None
        }
    }

    /// The operator that the code `source` stands for.
    pub fn from_str(source: &str) -> (r: UnaryOp)
        requires
            Self::of_text(source@) is Some,
        ensures
            Some(r) == Self::of_text(source@),
    {
        match Self::lookup(source) {
            Some(op) => op,
            None => UnaryOp::Neg,
        }
    }
}

impl BinaryOp {
    /// The code character of the operator.
    pub open spec fn code(self) -> char {
        match self {
            BinaryOp::Add => '+',
            BinaryOp::Sub => '-',
            BinaryOp::Mult => '*',
            BinaryOp::Div => '/',
            BinaryOp::Mod => '%',
            BinaryOp::Lt => '<',
            BinaryOp::Gt => '>',
            BinaryOp::Eq => '=',
            BinaryOp::Or => '|',
            BinaryOp::And => '&',
            BinaryOp::Cat => '.',
            BinaryOp::Take => 'T',
            BinaryOp::Drop => 'D',
            BinaryOp::Apply => '$',
        }
    }

    /// The operator that a code character stands for.
    pub open spec fn of_code(c: char) -> Option<BinaryOp> {
        if c == '+' {
            Some(BinaryOp::Add)
        } else if c == '-' {
            Some(BinaryOp::Sub)
        } else if c == '*' {
            Some(BinaryOp::Mult)
        } else if c == '/' {
            Some(BinaryOp::Div)
        } else if c == '%' {
            Some(BinaryOp::Mod)
        } else if c == '<' {
            Some(BinaryOp::Lt)
        } else if c == '>' {
            Some(BinaryOp::Gt)
        } else if c == '=' {
            Some(BinaryOp::Eq)
        } else if c == '|' {
            Some(BinaryOp::Or)
        } else if c == '&' {
            Some(BinaryOp::And)
        } else if c == '.' {
            Some(BinaryOp::Cat)
        } else if c == 'T' {
            Some(BinaryOp::Take)
        } else if c == 'D' {
            Some(BinaryOp::Drop)
        } else if c == '$' {
            Some(BinaryOp::Apply)
        } else {
            None
        }
    }

    /// The operator that a token body stands for: the body must be exactly one
    /// code character.
    pub open spec fn of_text(s: Seq<char>) -> Option<BinaryOp> {
        if s.len() == 1 {
            Self::of_code(s[0])
        } else {
            None
        }
    }

    /// The operator that a lower-case name stands for.
    pub open spec fn of_name(s: Seq<char>) -> Option<BinaryOp> {
        if s == "add"@ {
            Some(BinaryOp::Add)
        } else if s == "sub"@ {
            Some(BinaryOp::Sub)
        } else if s == "mult"@ {
            Some(BinaryOp::Mult)
        } else if s == "div"@ {
            Some(BinaryOp::Div)
        } else if s == "mod"@ {
            Some(BinaryOp::Mod)
        } else if s == "lt"@ {
            Some(BinaryOp::Lt)
        } else if s == "gt"@ {
            Some(BinaryOp::Gt)
        } else if s == "eq"@ {
            Some(BinaryOp::Eq)
        } else if s == "or"@ {
            Some(BinaryOp::Or)
        } else if s == "and"@ {
            Some(BinaryOp::And)
        } else if s == "cat"@ {
            Some(BinaryOp::Cat)
        } else if s == "take"@ {
            Some(BinaryOp::Take)
        } else if s == "drop"@ {
            Some(BinaryOp::Drop)
        } else if s == "apply"@ {
            Some(BinaryOp::Apply)
        } else {
            None
        }
    }

    /// The operator's code as a one-character string.
    pub fn as_str(&self) -> (r: &'static str)
        ensures
            r@ == seq![self.code()],
    {
        let r = match self {
            BinaryOp::Add => {
                proof {
                    reveal_strlit("+");
                }
                "+"
            },
            BinaryOp::Sub => {
                proof {
                    reveal_strlit("-");
                }
                "-"
            },
            BinaryOp::Mult => {
                proof {
                    reveal_strlit("*");
                }
                "*"
            },
            BinaryOp::Div => {
                proof {
                    reveal_strlit("/");
                }
                "/"
            },
            BinaryOp::Mod => {
                proof {
                    reveal_strlit("%");
                }
                "%"
            },
            BinaryOp::Lt => {
                proof {
                    reveal_strlit("<");
                }
                "<"
            },
            BinaryOp::Gt => {
                proof {
                    reveal_strlit(">");
                }
                ">"
            },
            BinaryOp::Eq => {
                proof {
                    reveal_strlit("=");
                }
                "="
            },
            BinaryOp::Or => {
                proof {
                    reveal_strlit("|");
                }
                "|"
            },
            BinaryOp::And => {
                proof {
                    reveal_strlit("&");
                }
                "&"
            },
            BinaryOp::Cat => {
                proof {
                    reveal_strlit(".");
                }
                "."
            },
            BinaryOp::Take => {
                proof {
                    reveal_strlit("T");
                }
                "T"
            },
            BinaryOp::Drop => {
                proof {
                    reveal_strlit("D");
                }
                "D"
            },
            BinaryOp::Apply => {
                proof {
                    reveal_strlit("$");
                }
                "$"
            },
        };
        assert(r@ =~= seq![self.code()]);
        r
    }

    /// The operator that `source` stands for, if it stands for one.
    pub fn lookup(source: &str) -> (r: Option<BinaryOp>)
        ensures
            r == Self::of_text(source@),
    {
        if source.unicode_len() != 1 {
            return None;
        }
        let c = source.get_char(0);
        if c == '+' {
            Some(BinaryOp::Add)
        } else if c == '-' {
            Some(BinaryOp::Sub)
        } else if c == '*' {
            Some(BinaryOp::Mult)
        } else if c == '/' {
            Some(BinaryOp::Div)
        } else if c == '%' {
            Some(BinaryOp::Mod)
        } else if c == '<' {
            Some(BinaryOp::Lt)
        } else if c == '>' {
            Some(BinaryOp::Gt)
        } else if c == '=' {
            Some(BinaryOp::Eq)
        } else if c == '|' {
            Some(BinaryOp::Or)
        } else if c == '&' {
            Some(BinaryOp::And)
        } else if c == '.' {
            Some(BinaryOp::Cat)
        } else if c == 'T' {
            Some(BinaryOp::Take)
        } else if c == 'D' {
            Some(BinaryOp::Drop)
        } else if c == '$' {
            Some(BinaryOp::Apply)
        } else {
            None
        }
    }

    /// The operator that the code `source` stands for.
    pub fn from_str(source: &str) -> (r: BinaryOp)
        requires
            Self::of_text(source@) is Some,
        ensures
            Some(r) == Self::of_text(source@),
    {
        match Self::lookup(source) {
            Some(op) => op,
            None => BinaryOp::Add,
        }
    }

    /// The operator that the lower-case name `name` stands for.
    pub fn from_name(name: &str) -> (r: BinaryOp)
        requires
            Self::of_name(name@) is Some,
        ensures
            Some(r) == Self::of_name(name@),
    {
        if same_text(name, "add") {
            BinaryOp::Add
        } else if same_text(name, "sub") {
            BinaryOp::Sub
        } else if same_text(name, "mult") {
            BinaryOp::Mult
        } else if same_text(name, "div") {
            BinaryOp::Div
        } else if same_text(name, "mod") {
            BinaryOp::Mod
        } else if same_text(name, "lt") {
            BinaryOp::Lt
        } else if same_text(name, "gt") {
            BinaryOp::Gt
        } else if same_text(name, "eq") {
            BinaryOp::Eq
        } else if same_text(name, "or") {
            BinaryOp::Or
        } else if same_text(name, "and") {
            BinaryOp::And
        } else if same_text(name, "cat") {
            BinaryOp::Cat
        } else if same_text(name, "take") {
            BinaryOp::Take
        } else if same_text(name, "drop") {
            BinaryOp::Drop
        } else {
            BinaryOp::Apply
        }
    }

    /// Reading an operator's code gives the operator back.
    pub proof fn lemma_code_round_trip(self)
        ensures
            Self::of_text(seq![self.code()]) == Some(self),
    {
    }
}

/// A unary operator applied to an operand.
#[derive(Debug, PartialEq, Eq, PartialOrd, Hash)]
pub struct Unary {
    pub op: UnaryOp,
    pub val: Box<Expr>,
}

/// A binary operator applied to two operands.
#[derive(Debug, PartialEq, Eq, PartialOrd, Hash)]
pub struct Binary {
    pub op: BinaryOp,
    pub first: Box<Expr>,
    pub second: Box<Expr>,
}

/// A conditional with its guard and two branches.
#[derive(Debug, PartialEq, Eq, PartialOrd, Hash)]
pub struct If {
    pub condition: Box<Expr>,
    pub if_true: Box<Expr>,
    pub if_false: Box<Expr>,
}

/// A function of one parameter. The field `body` is the identifier that the
/// parameter is bound under; the field `arg` is the expression the function
/// returns.
#[derive(Debug, PartialEq, Eq, PartialOrd, Hash)]
pub struct Lambda {
    pub body: i64,
    pub arg: Box<Expr>,
}

/// A reference to the parameter bound under the given identifier.
#[derive(Clone, Copy, Debug, PartialEq, Eq, PartialOrd, Hash)]
pub struct Variable(pub i64);

#[derive(Debug, PartialEq, Eq, PartialOrd, Hash)]
pub enum Expr {
    Value(Value),
    Unary(Unary),
    Binary(Binary),
    Lambda(Lambda),
    If(If),
    Variable(Variable),
}

/// The mathematical content of an [`Expr`]: the same tree with every string
/// replaced by its sequence of characters.
pub enum ExprView {
    Value(ValueView),
    Unary(UnaryOp, Box<ExprView>),
    Binary(BinaryOp, Box<ExprView>, Box<ExprView>),
    /// The binder's identifier, then the expression the function returns.
    Lambda(i64, Box<ExprView>),
    /// The guard, the branch taken when it is true, the branch taken when it is false.
    If(Box<ExprView>, Box<ExprView>, Box<ExprView>),
    Variable(i64),
}

impl Expr {
    pub open spec fn model(&self) -> ExprView
        decreases self,
    {
        match self {
            Expr::Value(v) => ExprView::Value(v@),
            Expr::Unary(u) => ExprView::Unary(u.op, Box::new(u.val.model())),
            Expr::Binary(b) => ExprView::Binary(
                b.op,
                Box::new(b.first.model()),
                Box::new(b.second.model()),
            ),
            Expr::Lambda(l) => ExprView::Lambda(l.body, Box::new(l.arg.model())),
            Expr::If(c) => ExprView::If(
                Box::new(c.condition.model()),
                Box::new(c.if_true.model()),
                Box::new(c.if_false.model()),
            ),
            Expr::Variable(v) => ExprView::Variable(v.0),
        }
    }

    /// An independent copy of the whole tree.
    pub fn duplicate(&self) -> (r: Expr)
        ensures
            r@ == self@,
        decreases self,
    {
        match self {
            Expr::Value(v) => Expr::Value(v.duplicate()),
            Expr::Unary(u) => Expr::Unary(Unary { op: u.op, val: Box::new(u.val.duplicate()) }),
            Expr::Binary(b) => Expr::Binary(
                Binary {
                    op: b.op,
                    first: Box::new(b.first.duplicate()),
                    second: Box::new(b.second.duplicate()),
                },
            ),
            Expr::Lambda(l) => Expr::Lambda(Lambda { body: l.body, arg: Box::new(l.arg.duplicate()) }),
            Expr::If(c) => Expr::If(
                If {
                    condition: Box::new(c.condition.duplicate()),
                    if_true: Box::new(c.if_true.duplicate()),
                    if_false: Box::new(c.if_false.duplicate()),
                },
            ),
            Expr::Variable(v) => Expr::Variable(Variable(v.0)),
        }
    }
}

impl Clone for Expr {
    fn clone(&self) -> (r: Expr)
        ensures
            r@ == self@,
    {
        self.duplicate()
    }
}

impl Clone for Unary {
    fn clone(&self) -> (r: Unary)
        ensures
            r.op == self.op,
            r.val@ == self.val@,
    {
        Unary { op: self.op, val: Box::new(self.val.duplicate()) }
    }
}

impl Clone for Binary {
    fn clone(&self) -> (r: Binary)
        ensures
            r.op == self.op,
            r.first@ == self.first@,
            r.second@ == self.second@,
    {
        Binary {
            op: self.op,
            first: Box::new(self.first.duplicate()),
            second: Box::new(self.second.duplicate()),
        }
    }
}

impl Clone for If {
    fn clone(&self) -> (r: If)
        ensures
            r.condition@ == self.condition@,
            r.if_true@ == self.if_true@,
            r.if_false@ == self.if_false@,
    {
        If {
            condition: Box::new(self.condition.duplicate()),
            if_true: Box::new(self.if_true.duplicate()),
            if_false: Box::new(self.if_false.duplicate()),
        }
    }
}

impl Clone for Lambda {
    fn clone(&self) -> (r: Lambda)
        ensures
            r.body == self.body,
            r.arg@ == self.arg@,
    {
        Lambda { body: self.body, arg: Box::new(self.arg.duplicate()) }
    }
}

impl View for Expr {
    type V = ExprView;

    open spec fn view(&self) -> ExprView {
        self.model()
    }
}

} // verus!
