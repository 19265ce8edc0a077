use crate::rewriting_core::terms::position::PositionInLanguageTerm;
use vstd::prelude::*;
use vstd::std_specs::cmp::PartialEqSpec;
use vstd::std_specs::cmp::PartialEqSpecImpl;

verus! {

/// The symbols that label the nodes of a term.
///
/// Two symbols are the same symbol exactly when `==` says so, and a clone of a
/// symbol is that symbol: an implementation vouches for both.
pub trait RewritableLanguageOperatorSymbol: Clone + PartialEq + Eq + core::hash::Hash + core::fmt::Debug + Sized {
    proof fn symbol_laws()
        ensures
            Self::obeys_eq_spec(),
            forall|a: Self, b: Self| #[trigger] a.eq_spec(&b) <==> a == b,
            forall|a: Self, b: Self| #[trigger] cloned(a, b) ==> a == b,
    ;
}

/// Numbers serve as operator symbols.
impl RewritableLanguageOperatorSymbol for u64 {
    proof fn symbol_laws() {
    }
}

/// Whether `op1` and `op2` are the same symbol.
pub fn is_same_symbol<LOS: RewritableLanguageOperatorSymbol>(op1: &LOS, op2: &LOS) -> (same: bool)
    ensures
        same == (*op1 == *op2),
{
    proof {
        LOS::symbol_laws();
    }
    op1 == op2
}

/// A copy of the symbol `op`.
pub fn clone_symbol<LOS: RewritableLanguageOperatorSymbol>(op: &LOS) -> (copy: LOS)
    ensures
        copy == *op,
{
    let copy = op.clone();
    proof {
        LOS::symbol_laws();
        assert(cloned(*op, copy));
    }
    copy
}

/// The mathematical model of a term: an operator symbol above a finite sequence
/// of sub-terms.
pub struct TermModel<LOS> {
    pub operator: LOS,
    pub sub_terms: Seq<TermModel<LOS>>,
}

/// A concrete term of the language under consideration.
#[derive(Debug, Hash)]
pub struct LanguageTerm<LOS: RewritableLanguageOperatorSymbol> {
    pub operator: LOS,
    pub sub_terms: Vec<LanguageTerm<LOS>>,
}

/// The model of a concrete term.
pub open spec fn model_of<LOS: RewritableLanguageOperatorSymbol>(term: LanguageTerm<LOS>) -> TermModel<
    LOS,
>
    decreases term,
{
    TermModel {
        operator: term.operator,
        sub_terms: Seq::new(
            term.sub_terms@.len(),
            |i: int|
                if 0 <= i < term.sub_terms@.len() {
                    model_of(term.sub_terms@[i])
                } else {
                    arbitrary()
                },
        ),
    }
}

/// The term with `operator` at its root above `sub_terms`.
pub open spec fn node<LOS>(operator: LOS, sub_terms: Seq<TermModel<LOS>>) -> TermModel<LOS> {
    TermModel { operator, sub_terms }
}

/// `term` is an application of a binary operator: it has two sub-terms.
pub open spec fn is_binary_node<LOS>(term: TermModel<LOS>) -> bool {
    term.sub_terms.len() == 2
}

/// The models of a sequence of concrete terms.
pub open spec fn models_of<LOS: RewritableLanguageOperatorSymbol>(terms: Seq<LanguageTerm<LOS>>) -> Seq<
    TermModel<LOS>,
> {
    Seq::new(terms.len(), |i: int| terms[i]@)
}

/// The sub-term of `term` found by following `path` from its root, if every
/// index on the way is in range.
pub open spec fn sub_term_at<LOS>(term: TermModel<LOS>, path: Seq<usize>) -> Option<TermModel<LOS>>
    decreases path.len(),
{
    if path.len() == 0 {
        Some(term)
    } else if path[0] < term.sub_terms.len() {
        sub_term_at(term.sub_terms[path[0] as int], path.drop_first())
    } else {
        None
    }
}

/// The operator above the node at `path` in `term`: `None` at the root, and
/// where the path to the parent leaves the term.
pub open spec fn parent_operator_at<LOS>(term: TermModel<LOS>, path: Seq<usize>) -> Option<LOS> {
    if path.len() == 0 {
        None
    } else {
        match sub_term_at(term, path.drop_last()) {
            Some(parent) => Some(parent.operator),
            None => None,
        }
    }
}

/// `term` with the sub-term at `path` replaced by `replacement`; `term` itself
/// where `path` leaves the term.
pub open spec fn replace_at<LOS>(term: TermModel<LOS>, path: Seq<usize>, replacement: TermModel<LOS>) -> TermModel<LOS>
    decreases path.len(),
{
    if path.len() == 0 {
        replacement
    } else if path[0] < term.sub_terms.len() {
        TermModel {
            operator: term.operator,
            sub_terms: term.sub_terms.update(
                path[0] as int,
                replace_at(term.sub_terms[path[0] as int], path.drop_first(), replacement),
            ),
        }
    } else {
        term
    }
}

/// Every node of `term` has few enough sub-terms for a machine index to
/// address each of them: this holds of the model of every concrete term.
pub open spec fn is_addressable<LOS>(term: TermModel<LOS>) -> bool
    decreases term,
{
    &&& term.sub_terms.len() <= usize::MAX
    &&& forall|i: int| 0 <= i < term.sub_terms.len() ==> is_addressable(#[trigger] term.sub_terms[i])
}

/// The model of a concrete term is addressable.
pub proof fn lemma_model_is_addressable<LOS: RewritableLanguageOperatorSymbol>(term: LanguageTerm<LOS>)
    ensures
        is_addressable(term@),
    decreases term,
{
    assert(term@.sub_terms.len() == term.sub_terms.len());
    assert forall|i: int| 0 <= i < term@.sub_terms.len() implies is_addressable(#[trigger] term@.sub_terms[i]) by {
        assert(term@.sub_terms[i] == term.sub_terms@[i]@);
        lemma_model_is_addressable(term.sub_terms@[i]);
    }
}

/// Following `path` and then stepping to the `n`-th sub-term is following
/// `path` extended by `n`.
pub proof fn lemma_sub_term_of_child<LOS>(term: TermModel<LOS>, path: Seq<usize>, n: usize)
    ensures
        sub_term_at(term, path.push(n)) == match sub_term_at(term, path) {
            Some(found) => if n < found.sub_terms.len() {
                Some(found.sub_terms[n as int])
            } else {
                None
            },
            None => None,
        },
    decreases path.len(),
{
    if path.len() == 0 {
        assert(path.push(n).drop_first() =~= path);
        assert(sub_term_at(term, path) == Some(term));
        if n < term.sub_terms.len() {
            assert(sub_term_at(term.sub_terms[n as int], path) == Some(term.sub_terms[n as int]));
        }
    } else {
        assert(path.push(n).drop_first() =~= path.drop_first().push(n));
        if path[0] < term.sub_terms.len() {
            lemma_sub_term_of_child(term.sub_terms[path[0] as int], path.drop_first(), n);
        }
    }
}

impl<LOS: RewritableLanguageOperatorSymbol> View for LanguageTerm<LOS> {
    type V = TermModel<LOS>;

    open spec fn view(&self) -> TermModel<LOS> {
        model_of(*self)
    }
}

impl<LOS: RewritableLanguageOperatorSymbol> Clone for LanguageTerm<LOS> {
    fn clone(&self) -> (copy: Self)
        ensures
            copy@ == self@,
        decreases self,
    {
        let mut sub_terms: Vec<LanguageTerm<LOS>> = Vec::new();
        let mut i: usize = 0;
        while i < self.sub_terms.len()
            invariant
                i <= self.sub_terms.len(),
                sub_terms.len() == i,
                forall|j: int| 0 <= j < i ==> sub_terms[j]@ == self.sub_terms[j]@,
            decreases self.sub_terms.len() - i,
        {
            let sub_term = self.sub_terms[i].clone();
            sub_terms.push(sub_term);
            i += 1;
        }
        let operator = self.operator.clone();
        proof {
            LOS::symbol_laws();
            assert(cloned(self.operator, operator));
        }
        let copy = LanguageTerm { operator, sub_terms };
        assert(copy@.sub_terms =~= self@.sub_terms);
        copy
    }
}

impl<LOS: RewritableLanguageOperatorSymbol> PartialEq for LanguageTerm<LOS> {
    fn eq(&self, other: &Self) -> (same: bool)
        decreases self,
    {
        proof {
            LOS::symbol_laws();
        }
        if !(self.operator == other.operator) {
            return false;
        }
        if self.sub_terms.len() != other.sub_terms.len() {
            assert(self@.sub_terms.len() != other@.sub_terms.len());
            return false;
        }
        let mut i: usize = 0;
        while i < self.sub_terms.len()
            invariant
                i <= self.sub_terms.len(),
                self.sub_terms.len() == other.sub_terms.len(),
                forall|j: int| 0 <= j < i ==> self.sub_terms[j]@ == other.sub_terms[j]@,
            decreases self.sub_terms.len() - i,
        {
            if !self.sub_terms[i].eq(&other.sub_terms[i]) {
                assert(self@.sub_terms[i as int] != other@.sub_terms[i as int]);
                return false;
            }
            i += 1;
        }
        assert(self@.sub_terms =~= other@.sub_terms);
        true
    }
}

impl<LOS: RewritableLanguageOperatorSymbol> PartialEqSpecImpl for LanguageTerm<LOS> {
    open spec fn obeys_eq_spec() -> bool {
        true
    }

    open spec fn eq_spec(&self, other: &Self) -> bool {
        self@ == other@
    }
}

impl<LOS: RewritableLanguageOperatorSymbol> Eq for LanguageTerm<LOS> {

}

impl<LOS: RewritableLanguageOperatorSymbol> LanguageTerm<LOS> {
    /// The term with `operator` at its root above `sub_terms`.
    pub fn new(operator: LOS, sub_terms: Vec<LanguageTerm<LOS>>) -> (term: Self)
        ensures
            term.operator == operator,
            term.sub_terms == sub_terms,
            term@.operator == operator,
            term@.sub_terms == models_of(sub_terms@),
    {
        let term = Self { operator, sub_terms };
        assert(term@.sub_terms =~= models_of(sub_terms@));
        term
    }

    /// The term with `operator` above the two sub-terms `left` and `right`.
    pub fn new_binary(operator: LOS, left: LanguageTerm<LOS>, right: LanguageTerm<LOS>) -> (term: Self)
        ensures
            term@ == node(operator, seq![left@, right@]),
    {
        let mut sub_terms: Vec<LanguageTerm<LOS>> = Vec::new();
        sub_terms.push(left);
        sub_terms.push(right);
        let term = Self::new(operator, sub_terms);
        assert(term@.sub_terms =~= seq![left@, right@]);
        term
    }

    /// The term with `operator` above the single sub-term `sub_term`.
    pub fn new_unary(operator: LOS, sub_term: LanguageTerm<LOS>) -> (term: Self)
        ensures
            term@ == node(operator, seq![sub_term@]),
    {
        let mut sub_terms: Vec<LanguageTerm<LOS>> = Vec::new();
        sub_terms.push(sub_term);
        let term = Self::new(operator, sub_terms);
        assert(term@.sub_terms =~= seq![sub_term@]);
        term
    }

    /// A copy of the operator at the root.
    pub fn clone_operator(&self) -> (operator: LOS)
        ensures
            operator == self@.operator,
    {
        let operator = self.operator.clone();
        proof {
            LOS::symbol_laws();
            assert(cloned(self.operator, operator));
        }
        operator
    }

    /// Whether `operator` stands at the root.
    pub fn has_operator(&self, operator: &LOS) -> (has: bool)
        ensures
            has == (self@.operator == *operator),
    {
        proof {
            LOS::symbol_laws();
        }
        &self.operator == operator
    }

    /// The two sub-terms, where there are exactly two.
    pub fn as_binary(&self) -> (operands: Option<(&Self, &Self)>)
        ensures
            operands.is_some() == is_binary_node(self@),
            operands matches Some((left, right)) ==> self@.sub_terms == seq![left@, right@],
    {
        if self.sub_terms.len() == 2 {
            let left = &self.sub_terms[0];
            let right = &self.sub_terms[1];
            assert(self@.sub_terms =~= seq![left@, right@]);
            Some((left, right))
        } else {
            None
        }
    }

    /// The single sub-term, where there is exactly one.
    pub fn as_unary(&self) -> (operand: Option<&Self>)
        ensures
            operand.is_some() == (self@.sub_terms.len() == 1),
            operand matches Some(sub_term) ==> self@.sub_terms == seq![sub_term@],
    {
        if self.sub_terms.len() == 1 {
            let sub_term = &self.sub_terms[0];
            assert(self@.sub_terms =~= seq![sub_term@]);
            Some(sub_term)
        } else {
            None
        }
    }

    /// The operator above the node at `pos`, if there is such a node.
    pub fn get_parent_operator_at_position<'a>(&'a self, pos: &PositionInLanguageTerm) -> (operator: Option<&'a LOS>)
        ensures
            match operator {
                Some(parent_operator) => parent_operator_at(self@, pos@) == Some(*parent_operator),
                None => parent_operator_at(self@, pos@).is_none(),
            },
    {
        match pos.get_parent_position() {
            None => None,
            Some(parent_position) => {
                match self.get_sub_term_at_position(&parent_position) {
                    None => None,
                    Some(parent_term) => Some(&parent_term.operator),
                }
            },
        }
    }

    /// The sub-term at `pos`, or `None` where `pos` leaves the term.
    pub fn get_sub_term_at_position<'a>(&'a self, pos: &PositionInLanguageTerm) -> (found: Option<&'a Self>)
        ensures
            match found {
                Some(sub_term) => sub_term_at(self@, pos@) == Some(sub_term@),
                None => sub_term_at(self@, pos@).is_none(),
            },
    {
        self.get_sub_term_at_position_rec(pos.get_absolute_coordinates_from_root())
    }

    fn get_sub_term_at_position_rec<'a>(&'a self, abs_pos: &[usize]) -> (found: Option<&'a Self>)
        ensures
            match found {
                Some(sub_term) => sub_term_at(self@, abs_pos@) == Some(sub_term@),
                None => sub_term_at(self@, abs_pos@).is_none(),
            },
    {
        let mut current: &'a Self = self;
        let mut i: usize = 0;
        assert(abs_pos@.subrange(0, abs_pos@.len() as int) =~= abs_pos@);
        while i < abs_pos.len()
            invariant
                i <= abs_pos@.len(),
                sub_term_at(self@, abs_pos@) == sub_term_at(current@, abs_pos@.subrange(i as int, abs_pos@.len() as int)),
            decreases abs_pos@.len() - i,
        {
            let child_index = abs_pos[i];
            let ghost rest = abs_pos@.subrange(i as int, abs_pos@.len() as int);
            assert(rest[0] == child_index);
            assert(rest.drop_first() =~= abs_pos@.subrange(i + 1, abs_pos@.len() as int));
            if child_index < current.sub_terms.len() {
                current = &current.sub_terms[child_index];
            } else {
                return None;
            }
            i += 1;
        }
        assert(abs_pos@.subrange(i as int, abs_pos@.len() as int).len() == 0);
        Some(current)
    }
}

} // verus!
