//! The syntax tree: cons cells over numbers, the empty list and the four
//! operator tags.

use vstd::prelude::*;

verus! {

/// A node of the syntax tree.
///
/// An application `(op a b ..)` is a `Pair` whose `car` is the operator tag
/// and whose `cdr` is the list of operands: a chain of `Pair`s, one operand
/// in each `car`, that ends in `Nil`.
#[derive(Debug, PartialEq, Eq)]
pub enum Expr {
    Number(i32),
    Nil,
    Pair { car: Box<Expr>, cdr: Box<Expr> },
    OpAdd,
    OpMul,
    OpSub,
    OpDiv,
}

impl Expr {
    /// Whether the node is one of the four operator tags.
    pub open spec fn is_operator(self) -> bool {
        self is OpAdd || self is OpMul || self is OpSub || self is OpDiv
    }

    /// The cons cell of `car` and `cdr`.
    pub open spec fn cons(car: Expr, cdr: Expr) -> Expr {
        Expr::Pair { car: Box::new(car), cdr: Box::new(cdr) }
    }

    /// The chain of cons cells that holds `items` in order and ends in `tail`.
    pub open spec fn chain(items: Seq<Expr>, tail: Expr) -> Expr
        decreases items.len(),
    {
        if items.len() == 0 {
            tail
        } else {
            Expr::cons(items[0], Expr::chain(items.skip(1), tail))
        }
    }

    /// The proper list of `items`.
    pub open spec fn list_of(items: Seq<Expr>) -> Expr {
        Expr::chain(items, Expr::Nil)
    }

    /// What the parser builds: a number, or an operator applied to a proper
    /// list of well-formed operands.
    pub open spec fn well_formed(self) -> bool
        decreases self,
    {
        match self {
            Expr::Number(_) => true,
            Expr::Pair { car, cdr } => car.is_operator() && cdr.well_formed_list(),
            _ => false,
        }
    }

    /// A chain of cons cells that ends in `Nil` and holds a well-formed
    /// expression in each cell.
    pub open spec fn well_formed_list(self) -> bool
        decreases self,
    {
        match self {
            Expr::Nil => true,
            Expr::Pair { car, cdr } => car.well_formed() && cdr.well_formed_list(),
            _ => false,
        }
    }

    /// Whether no number in the tree is below zero. The numbers that can be
    /// written as literals are these.
    pub open spec fn natural(self) -> bool
        decreases self,
    {
        match self {
            Expr::Number(n) => n >= 0,
            Expr::Pair { car, cdr } => car.natural() && cdr.natural(),
            _ => true,
        }
    }

    /// Moving the last item of a chain into its tail leaves the chain as it
    /// was.
    pub proof fn lemma_chain_push(items: Seq<Expr>, last: Expr, tail: Expr)
        ensures
            Expr::chain(items.push(last), tail) == Expr::chain(items, Expr::cons(last, tail)),
        decreases items.len(),
    {
        if items.len() == 0 {
            assert(items.push(last).skip(1) =~= Seq::<Expr>::empty());
            assert(Expr::chain(items.push(last).skip(1), tail) == tail);
        } else {
            Self::lemma_chain_push(items.skip(1), last, tail);
            assert(items.push(last).skip(1) =~= items.skip(1).push(last));
        }
    }

    /// Builds the proper list of `items`.
    pub fn list(items: Vec<Expr>) -> (r: Expr)
        ensures
            r == Expr::list_of(items@),
    {
        let mut items = items;
        let ghost all = items@;
        let mut list = Expr::Nil;
        while items.len() > 0
            invariant
                Expr::chain(items@, list) == Expr::list_of(all),
            decreases items.len(),
        {
            let ghost before = items@;
            let last = items.pop().unwrap();
            proof {
                assert(before =~= items@.push(last));
                Self::lemma_chain_push(items@, last, list);
            }
            list = Expr::Pair { car: Box::new(last), cdr: Box::new(list) };
        }
        list
    }
}

} // verus!
