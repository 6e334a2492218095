use vstd::prelude::*;

verus! {

/// A binary arithmetic operator.
#[derive(Clone, Copy, Debug, PartialEq, Eq, Structural)]
pub enum Operator {
    Add,
    Sub,
    Mul,
    Div,
}

/// The characters that denote an operator.
pub open spec fn is_operator_char(c: char) -> bool {
    c == '+' || c == '-' || c == '*' || c == '/'
}

/// The operator that an operator character denotes.
pub open spec fn operator_of(c: char) -> Operator {
    if c == '+' {
        Operator::Add
    } else if c == '-' {
        Operator::Sub
    } else if c == '*' {
        Operator::Mul
    } else {
        Operator::Div
    }
}

impl Operator {
    /// Binding strength: addition and subtraction bind at level 1,
    /// multiplication and division at level 2.
    pub open spec fn prec(self) -> u8 {
        match self {
            Operator::Add | Operator::Sub => 1,
            Operator::Mul | Operator::Div => 2,
        }
    }

    /// The character that writes this operator.
    pub open spec fn spec_symbol(self) -> char {
        match self {
            Operator::Add => '+',
            Operator::Sub => '-',
            Operator::Mul => '*',
            Operator::Div => '/',
        }
    }

    pub fn from_char(c: char) -> (r: Operator)
        requires
            is_operator_char(c),
        ensures
            r == operator_of(c),
            r.spec_symbol() == c,
    {
        if c == '+' {
            Operator::Add
        } else if c == '-' {
            Operator::Sub
        } else if c == '*' {
            Operator::Mul
        } else {
            Operator::Div
        }
    }

    pub fn precedence(&self) -> (r: u8)
        ensures
            r == self.prec(),
    {
        match self {
            Operator::Add | Operator::Sub => 1,
            Operator::Mul | Operator::Div => 2,
        }
    }

    pub fn symbol(&self) -> (r: char)
        ensures
            r == self.spec_symbol(),
            operator_of(r) == *self,
    {
        match self {
            Operator::Add => '+',
            Operator::Sub => '-',
            Operator::Mul => '*',
            Operator::Div => '/',
        }
    }
}

/// The position of a number literal in the input line, as a half-open range
/// of character indices.
#[derive(Clone, Copy, Debug, PartialEq, Eq, Structural)]
pub struct Span {
    pub start: usize,
    pub end: usize,
}

/// One lexical unit of an expression.
#[derive(Clone, Copy, Debug, PartialEq, Eq, Structural)]
pub enum Token {
    Num(Span),
    Oper(Operator),
    ParenOpen,
    ParenClose,
}

/// The characters that make a token on their own.
pub open spec fn is_symbol_char(c: char) -> bool {
    is_operator_char(c) || c == '(' || c == ')'
}

/// The token that a symbol character makes.
pub open spec fn token_of(c: char) -> Token {
    if c == '(' {
        Token::ParenOpen
    } else if c == ')' {
        Token::ParenClose
    } else {
        Token::Oper(operator_of(c))
    }
}

impl Token {
    pub open spec fn spec_is_paren(self) -> bool {
        self is ParenOpen || self is ParenClose
    }

    pub fn from_char(c: char) -> (r: Token)
        requires
            is_symbol_char(c),
        ensures
            r == token_of(c),
    {
        if c == '(' {
            Token::ParenOpen
        } else if c == ')' {
            Token::ParenClose
        } else {
            Token::Oper(Operator::from_char(c))
        }
    }

    /// Whether this operator binds less tightly than `other`; false where
    /// `other` is no operator.
    pub fn is_lower(&self, other: &Token) -> (r: bool)
        requires
            *self is Oper,
        ensures
            r == (other is Oper && self->Oper_0.prec() < other->Oper_0.prec()),
    {
        match (self, other) {
            (Token::Oper(a), Token::Oper(b)) => a.precedence() < b.precedence(),
            _ => false,
        }
    }

    pub fn is_num(&self) -> (r: bool)
        ensures
            r == (*self is Num),
    {
        matches!(self, Token::Num(_))
    }

    pub fn is_oper(&self) -> (r: bool)
        ensures
            r == (*self is Oper),
    {
        matches!(self, Token::Oper(_))
    }

    pub fn is_paren(&self) -> (r: bool)
        ensures
            r == self.spec_is_paren(),
    {
        matches!(self, Token::ParenOpen | Token::ParenClose)
    }
}

/// A sequence of tokens, in input order or in postfix order.
pub struct Tokens(pub Vec<Token>);

impl View for Tokens {
    type V = Seq<Token>;

    open spec fn view(&self) -> Seq<Token> {
        self.0@
    }
}

} // verus!
