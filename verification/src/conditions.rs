//! The comparisons that a rule applies between a query value and a cell value.

use vstd::prelude::*;
use crate::values::RuleValue;

verus! {

/// A comparison of a query value (`value1`) with a cell value (`value2`).
pub trait Condition<T: RuleValue> {
    spec fn holds(&self, value1: T, value2: T) -> bool;

    fn check(&self, value1: &T, value2: &T) -> (r: bool)
        ensures
            r == self.holds(*value1, *value2),
    ;
}

/// `value1 == value2`.
pub struct EqualCondition {}

impl<T: RuleValue> Condition<T> for EqualCondition {
    open spec fn holds(&self, value1: T, value2: T) -> bool {
        value1.spec_same(value2)
    }

    fn check(&self, value1: &T, value2: &T) -> (r: bool) {
        value1.same(value2)
    }
}

/// `value1 > value2`.
pub struct GreaterThanCondition {}

impl<T: RuleValue> Condition<T> for GreaterThanCondition {
    open spec fn holds(&self, value1: T, value2: T) -> bool {
        value2.spec_less(value1)
    }

    fn check(&self, value1: &T, value2: &T) -> (r: bool) {
        value2.less(value1)
    }
}

/// `value1 >= value2`.
pub struct GreaterThanOrEqualCondition {}

impl<T: RuleValue> Condition<T> for GreaterThanOrEqualCondition {
    open spec fn holds(&self, value1: T, value2: T) -> bool {
        value2.spec_less(value1) || value1.spec_same(value2)
    }

    fn check(&self, value1: &T, value2: &T) -> (r: bool) {
        value2.less(value1) || value1.same(value2)
    }
}

/// `value1 < value2`.
pub struct LessThanCondition {}

impl<T: RuleValue> Condition<T> for LessThanCondition {
    open spec fn holds(&self, value1: T, value2: T) -> bool {
        value1.spec_less(value2)
    }

    fn check(&self, value1: &T, value2: &T) -> (r: bool) {
        value1.less(value2)
    }
}

/// `value1 <= value2`.
pub struct LessThanOrEqualCondition {}

impl<T: RuleValue> Condition<T> for LessThanOrEqualCondition {
    open spec fn holds(&self, value1: T, value2: T) -> bool {
        value1.spec_less(value2) || value1.spec_same(value2)
    }

    fn check(&self, value1: &T, value2: &T) -> (r: bool) {
        value1.less(value2) || value1.same(value2)
    }
}

/// The strict conditions are strict: `<` and `>` never accept a query value
/// that is the same as the cell (nor one compared with itself), and never
/// both accept one pair.
pub proof fn law_strict_conditions<T: RuleValue>(query: T, cell: T)
    ensures
        query.spec_same(cell) ==> !Condition::<T>::holds(&LessThanCondition {  }, query, cell)
            && !Condition::<T>::holds(&GreaterThanCondition {  }, query, cell),
        !Condition::<T>::holds(&LessThanCondition {  }, query, query),
        !Condition::<T>::holds(&GreaterThanCondition {  }, query, query),
        !(Condition::<T>::holds(&LessThanCondition {  }, query, cell) && Condition::<T>::holds(
            &GreaterThanCondition {  },
            query,
            cell,
        )),
{
    T::lemma_strict_order(query, cell);
    T::lemma_strict_order(query, query);
}

} // verus!
