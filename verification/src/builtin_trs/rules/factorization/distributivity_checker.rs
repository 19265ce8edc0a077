use crate::rewriting_core::terms::term::RewritableLanguageOperatorSymbol;
use crate::rewriting_core::model::some_function_of;
use vstd::prelude::*;

verus! {

/// Something that knows which binary operators distribute over which.
pub trait DistributivityChecker<LOS: RewritableLanguageOperatorSymbol> {
    /// `op` is a binary operator.
    open spec fn binary(&self, op: LOS) -> bool {
        some_function_of::<Self, _, _>("binary", (self, op))
    }

    /// `op` is associative.
    open spec fn associative(&self, op: LOS) -> bool {
        some_function_of::<Self, _, _>("associative", (self, op))
    }

    /// `op` is commutative.
    open spec fn commutative(&self, op: LOS) -> bool {
        some_function_of::<Self, _, _>("commutative", (self, op))
    }

    /// `op1` is left distributive over `op2`: for any x, y and z,
    /// `op1(x,op2(y,z))` is `op2(op1(x,y),op1(x,z))`.
    open spec fn left_distributive_over(&self, op1: LOS, op2: LOS) -> bool {
        some_function_of::<Self, _, _>("left_distributive_over", (self, op1, op2))
    }

    /// `op1` is right distributive over `op2`: for any x, y and z,
    /// `op1(op2(y,z),x)` is `op2(op1(y,x),op1(z,x))`.
    open spec fn right_distributive_over(&self, op1: LOS, op2: LOS) -> bool {
        some_function_of::<Self, _, _>("right_distributive_over", (self, op1, op2))
    }

    /// The symbol of the empty operation: what is left of an operand once
    /// the whole of it is factored out.
    open spec fn empty_operation_symbol(&self) -> LOS {
        some_function_of::<Self, _, _>("empty_operation_symbol", self)
    }

    fn is_binary(&self, op: &LOS) -> (binary: bool)
        ensures
            binary == self.binary(*op),
    ;

    fn is_associative(&self, op: &LOS) -> (associative: bool)
        ensures
            associative == self.associative(*op),
    ;

    fn is_commutative(&self, op: &LOS) -> (commutative: bool)
        ensures
            commutative == self.commutative(*op),
    ;

    fn is_left_distributive_over(&self, op1: &LOS, op2: &LOS) -> (distributive: bool)
        ensures
            distributive == self.left_distributive_over(*op1, *op2),
    ;

    fn is_right_distributive_over(&self, op1: &LOS, op2: &LOS) -> (distributive: bool)
        ensures
            distributive == self.right_distributive_over(*op1, *op2),
    ;

    fn get_empty_operation_symbol(&self) -> (symbol: LOS)
        ensures
            symbol == self.empty_operation_symbol(),
    ;
}

} // verus!
