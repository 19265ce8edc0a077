use vstd::prelude::*;
use vstd::std_specs::cmp::PartialEqSpecImpl;

verus! {

/// A position in a term: the path of child indices that leads from the root of
/// the term to one of its sub-terms. The empty path is the root.
#[derive(Debug, Hash)]
pub struct PositionInLanguageTerm {
    absolute_coordinates_from_root: Vec<usize>,
}

impl View for PositionInLanguageTerm {
    type V = Seq<usize>;

    closed spec fn view(&self) -> Seq<usize> {
        self.absolute_coordinates_from_root@
    }
}

impl Clone for PositionInLanguageTerm {
    fn clone(&self) -> (copy: Self)
        ensures
            copy@ == self@,
    {
        PositionInLanguageTerm {
            absolute_coordinates_from_root: self.absolute_coordinates_from_root.clone(),
        }
    }
}

impl PartialEq for PositionInLanguageTerm {
    fn eq(&self, other: &Self) -> (same: bool) {
        let n = self.absolute_coordinates_from_root.len();
        if n != other.absolute_coordinates_from_root.len() {
            return false;
        }
        let mut i: usize = 0;
        while i < n
            invariant
                i <= n,
                n == self@.len(),
                n == other@.len(),
                forall|j: int| 0 <= j < i ==> self@[j] == other@[j],
            decreases n - i,
        {
            if self.absolute_coordinates_from_root[i] != other.absolute_coordinates_from_root[i] {
                return false;
            }
            i += 1;
        }
        assert(self@ =~= other@);
        true
    }
}

impl PartialEqSpecImpl for PositionInLanguageTerm {
    open spec fn obeys_eq_spec() -> bool {
        true
    }

    open spec fn eq_spec(&self, other: &Self) -> bool {
        self@ == other@
    }
}

impl Eq for PositionInLanguageTerm {

}

impl PositionInLanguageTerm {
    /// The position reached by following `absolute_coordinates_from_root` from the root.
    pub fn from_absolute_coordinates(absolute_coordinates_from_root: Vec<usize>) -> (position: Self)
        ensures
            position@ == absolute_coordinates_from_root@,
    {
        Self { absolute_coordinates_from_root }
    }

    /// The position of the parent node; the root has none.
    pub fn get_parent_position(&self) -> (parent: Option<Self>)
        ensures
            self@.len() == 0 ==> parent.is_none(),
            self@.len() > 0 ==> parent.is_some() && parent.unwrap()@ == self@.drop_last(),
    {
        let depth = self.absolute_coordinates_from_root.len();
        if depth == 0 {
            None
        } else {
            let mut coordinates: Vec<usize> = Vec::new();
            let mut i: usize = 0;
            while i < depth - 1
                invariant
                    depth == self@.len(),
                    depth > 0,
                    i <= depth - 1,
                    coordinates@ == self@.subrange(0, i as int),
                decreases depth - i,
            {
                coordinates.push(self.absolute_coordinates_from_root[i]);
                assert(coordinates@ =~= self@.subrange(0, i + 1));
                i += 1;
            }
            assert(self@.subrange(0, depth - 1) =~= self@.drop_last());
            Some(Self::from_absolute_coordinates(coordinates))
        }
    }

    /// The number of steps from the root to this position.
    pub fn get_depth(&self) -> (depth: usize)
        ensures
            depth == self@.len(),
    {
        self.absolute_coordinates_from_root.len()
    }

    /// The position of the root of a term.
    pub fn get_root_position() -> (root: Self)
        ensures
            root@ == Seq::<usize>::empty(),
    {
        PositionInLanguageTerm { absolute_coordinates_from_root: Vec::new() }
    }

    /// The position of the `n`-th child of the node at this position.
    pub fn get_position_of_nth_child(&self, n: usize) -> (child: Self)
        ensures
            child@ == self@.push(n),
    {
        let mut absolute_coords = self.absolute_coordinates_from_root.clone();
        absolute_coords.push(n);
        Self::from_absolute_coordinates(absolute_coords)
    }

    /// If this is the position of `x` in `y`, the result is the position of `x`
    /// in a term that has `y` as its `n`-th child.
    pub fn position_as_nth_sub_term(self, n: usize) -> (outer: Self)
        ensures
            outer@ == seq![n] + self@,
    {
        let mut absolute_coords = self.absolute_coordinates_from_root;
        absolute_coords.insert(0, n);
        assert(absolute_coords@ =~= seq![n] + self@);
        Self::from_absolute_coordinates(absolute_coords)
    }

    /// The child indices to follow from the root, in order.
    pub fn get_absolute_coordinates_from_root(&self) -> (coordinates: &[usize])
        ensures
            coordinates@ == self@,
    {
        self.absolute_coordinates_from_root.as_slice()
    }
}

} // verus!
