//! Comparison operators of predicates.

use vstd::prelude::*;
use crate::value::{cell_eq, cell_lt, Cell, CellValue};

verus! {

/// A comparison operator.
#[derive(Debug, Clone, Copy, PartialEq, Eq, Structural)]
pub enum Op {
    Eq,
    Lt,
    Lte,
    Gt,
    Gte,
}

impl Op {
    /// The operator that a piece of text spells: one of `=`, `<`, `<=`, `>`,
    /// `>=`.
    pub open spec fn parse(s: Seq<char>) -> Option<Op> {
        if s.len() == 1 && s[0] == '=' {
            Some(Op::Eq)
        } else if s.len() == 1 && s[0] == '<' {
            Some(Op::Lt)
        } else if s.len() == 2 && s[0] == '<' && s[1] == '=' {
            Some(Op::Lte)
        } else if s.len() == 1 && s[0] == '>' {
            Some(Op::Gt)
        } else if s.len() == 2 && s[0] == '>' && s[1] == '=' {
            Some(Op::Gte)
        } else {
            None
        }
    }

    /// Reads an operator from its spelling. Any other text is an error.
    pub fn from_str(s: &str) -> (r: Result<Op, ()>)
        ensures
            r == match Op::parse(s@) {
                Some(op) => Ok::<Op, ()>(op),
                None => Err(()),
            },
    {
        let n: usize = s.unicode_len();
        if n == 1 {
            let c = s.get_char(0);
            if c == '=' {
                Ok(Op::Eq)
            } else if c == '<' {
                Ok(Op::Lt)
            } else if c == '>' {
                Ok(Op::Gt)
            } else {
                Err(())
            }
        } else if n == 2 {
            let c = s.get_char(0);
            let d = s.get_char(1);
            if d == '=' && c == '<' {
                Ok(Op::Lte)
            } else if d == '=' && c == '>' {
                Ok(Op::Gte)
            } else {
                Err(())
            }
        } else {
            Err(())
        }
    }

    /// `lhs op rhs`, for two values of one type. Numbers compare as numbers
    /// (a NaN compares false with everything), strings byte by byte in
    /// lexicographic order. False for values of different types.
    pub open spec fn holds(self, lhs: CellValue, rhs: CellValue) -> bool {
        match self {
            Op::Eq => cell_eq(lhs, rhs),
            Op::Lt => cell_lt(lhs, rhs),
            Op::Lte => cell_lt(lhs, rhs) || cell_eq(lhs, rhs),
            Op::Gt => cell_lt(rhs, lhs),
            Op::Gte => cell_lt(rhs, lhs) || cell_eq(lhs, rhs),
        }
    }

    /// Returns true if `lhs op rhs` is true.
    pub fn eval(&self, lhs: &Cell, rhs: &Cell) -> (r: bool)
        ensures
            r == self.holds(lhs@, rhs@),
    {
        match self {
            Op::Eq => lhs.same(rhs),
            Op::Lt => lhs.lt(rhs),
            Op::Lte => lhs.lt(rhs) || lhs.same(rhs),
            Op::Gt => rhs.lt(lhs),
            Op::Gte => rhs.lt(lhs) || lhs.same(rhs),
        }
    }
}

} // verus!
