//! Decision tables: a table of rules, one column per query field, one row per
//! variant; a query selects the variants whose every rule accepts it.

pub mod values;
pub mod conditions;
pub mod json;
pub mod datetime;
pub mod json_parseable;
pub mod error;
pub mod text;
pub mod decession_table;
pub mod xlsx_dt_data_source;

use vstd::prelude::*;
use crate::values::RuleValue;

verus! {

/// How a `Condition` compares its stored value with a checked value.
#[derive(PartialEq, Eq, Debug, Copy, Clone)]
pub enum ConditionType {
    Equal,
    MoreThan,
    MoreEqualThan,
    LessThan,
    LessEqualThan,
    Interval,
}

/// A stored value and the comparison that `check` applies to it.
pub struct Condition<T: RuleValue> {
    condition_type: ConditionType,
    value: T,
}

/// Whether `stored`, compared by `condition_type` with `value`, holds; the
/// stored value stands on the left: `MoreThan` holds when `stored > value`.
/// `Interval` never holds.
pub open spec fn condition_holds<T: RuleValue>(
    condition_type: ConditionType,
    stored: T,
    value: T,
) -> bool {
    match condition_type {
        ConditionType::Equal => stored.spec_same(value),
        ConditionType::MoreThan => value.spec_less(stored),
        ConditionType::MoreEqualThan => value.spec_less(stored) || stored.spec_same(value),
        ConditionType::LessThan => stored.spec_less(value),
        ConditionType::LessEqualThan => stored.spec_less(value) || stored.spec_same(value),
        ConditionType::Interval => false,
    }
}

impl<T: RuleValue> Condition<T> {
    pub closed spec fn kind(&self) -> ConditionType {
        self.condition_type
    }

    pub closed spec fn stored(&self) -> T {
        self.value
    }

    pub fn new(condition_type: ConditionType, value: T) -> (r: Self)
        ensures
            r.kind() == condition_type,
            r.stored() == value,
    {
        Self { condition_type, value }
    }

    pub fn check(&self, value: T) -> (r: bool)
        ensures
            r == condition_holds(self.kind(), self.stored(), value),
    {
        match self.condition_type {
            ConditionType::Equal => self.value.same(&value),
            ConditionType::MoreThan => value.less(&self.value),
            ConditionType::MoreEqualThan => value.less(&self.value) || self.value.same(&value),
            ConditionType::LessThan => self.value.less(&value),
            ConditionType::LessEqualThan => self.value.less(&value) || self.value.same(&value),
            ConditionType::Interval => false,
        }
    }
}

/// A condition together with the result that it selects.
pub struct Rule<T: RuleValue> {
    pub condition: Condition<T>,
    pub result_id: usize,
}

} // verus!
