//! Rules, the decision table built from them, and the data sources it is
//! built from.

use vstd::prelude::*;
use crate::conditions::{
    Condition,
    EqualCondition,
    GreaterThanCondition,
    GreaterThanOrEqualCondition,
    LessThanCondition,
    LessThanOrEqualCondition,
};
use crate::error::DtError;
use crate::json::{JsonScalar, JsonValue};
use crate::json_parseable::JsonParseable;
use crate::values::{F32Key, F64Key, RuleValue, Timestamp};

verus! {

broadcast use vstd::seq_lib::group_seq_properties;

/// The comparison named in a column's condition row.
#[derive(Clone, Copy, Debug, PartialEq, Eq)]
pub enum ValueCondition {
    LessThan,
    GreaterThan,
    LessOrEqual,
    GreaterOrEqual,
    Equal,
}

/// One of the five comparisons.
pub enum AnyCondition {
    Equal(EqualCondition),
    GreaterThan(GreaterThanCondition),
    GreaterThanOrEqual(GreaterThanOrEqualCondition),
    LessThan(LessThanCondition),
    LessThanOrEqual(LessThanOrEqualCondition),
}

impl<T: RuleValue> Condition<T> for AnyCondition {
    open spec fn holds(&self, value1: T, value2: T) -> bool {
        match self {
            AnyCondition::Equal(c) => c.holds(value1, value2),
            AnyCondition::GreaterThan(c) => c.holds(value1, value2),
            AnyCondition::GreaterThanOrEqual(c) => c.holds(value1, value2),
            AnyCondition::LessThan(c) => c.holds(value1, value2),
            AnyCondition::LessThanOrEqual(c) => c.holds(value1, value2),
        }
    }

    fn check(&self, value1: &T, value2: &T) -> (r: bool) {
        match self {
            AnyCondition::Equal(c) => c.check(value1, value2),
            AnyCondition::GreaterThan(c) => c.check(value1, value2),
            AnyCondition::GreaterThanOrEqual(c) => c.check(value1, value2),
            AnyCondition::LessThan(c) => c.check(value1, value2),
            AnyCondition::LessThanOrEqual(c) => c.check(value1, value2),
        }
    }
}

/// The comparison that a condition row names.
pub open spec fn condition_for(condition: ValueCondition) -> AnyCondition {
    match condition {
        ValueCondition::LessThan => AnyCondition::LessThan(LessThanCondition {  }),
        ValueCondition::LessOrEqual => AnyCondition::LessThanOrEqual(LessThanOrEqualCondition {  }),
        ValueCondition::GreaterThan => AnyCondition::GreaterThan(GreaterThanCondition {  }),
        ValueCondition::GreaterOrEqual => AnyCondition::GreaterThanOrEqual(
            GreaterThanOrEqualCondition {  },
        ),
        ValueCondition::Equal => AnyCondition::Equal(EqualCondition {  }),
    }
}

pub fn map_conditions(condition: &ValueCondition) -> (r: AnyCondition)
    ensures
        r == condition_for(*condition),
{
    match condition {
        ValueCondition::LessThan => AnyCondition::LessThan(LessThanCondition {  }),
        ValueCondition::LessOrEqual => AnyCondition::LessThanOrEqual(LessThanOrEqualCondition {  }),
        ValueCondition::GreaterThan => AnyCondition::GreaterThan(GreaterThanCondition {  }),
        ValueCondition::GreaterOrEqual => AnyCondition::GreaterThanOrEqual(
            GreaterThanOrEqualCondition {  },
        ),
        ValueCondition::Equal => AnyCondition::Equal(EqualCondition {  }),
    }
}

/// Whether a cell accepts the query value `t`: an empty cell (a wildcard)
/// accepts every value, any other cell when the condition holds between `t`
/// and the cell's value.
pub open spec fn value_accepts<T: RuleValue>(c: AnyCondition, t: T, v: Option<T>) -> bool {
    match v {
        None => true,
        Some(x) => <AnyCondition as Condition<T>>::holds(&c, t, x),
    }
}

/// The predicate on variant numbers `x` that the cells `vals` give for the query
/// value `t`, where the first cell belongs to variant `offset`.
pub open spec fn accepting<T: RuleValue>(
    c: AnyCondition,
    vals: Seq<Option<T>>,
    t: T,
    offset: int,
) -> spec_fn(usize) -> bool {
    |x: usize| value_accepts(c, t, vals[x - offset])
}

/// The `n` numbers from `start` on.
pub open spec fn positions(start: int, n: nat) -> Seq<usize> {
    Seq::new(n, |k: int| (start + k) as usize)
}

/// `s.filter(f).filter(g)` keeps what both keep.
pub proof fn lemma_filter_filter(s: Seq<usize>, f: spec_fn(usize) -> bool, g: spec_fn(usize) -> bool)
    ensures
        s.filter(f).filter(g) == s.filter(|x: usize| f(x) && g(x)),
    decreases s.len(),
{
    reveal(Seq::filter);
    if s.len() > 0 {
        lemma_filter_filter(s.drop_last(), f, g);
        let h = |x: usize| f(x) && g(x);
        if f(s.last()) {
            s.drop_last().filter(f).lemma_filter_push(s.last(), g);
            assert(s.filter(f) == s.drop_last().filter(f).push(s.last()));
        }
    }
}

/// Filters that agree on every element of `s` keep the same elements.
pub proof fn lemma_filter_agree(s: Seq<usize>, f: spec_fn(usize) -> bool, g: spec_fn(usize) -> bool)
    requires
        forall|i: int| 0 <= i < s.len() ==> f(#[trigger] s[i]) == g(s[i]),
    ensures
        s.filter(f) == s.filter(g),
    decreases s.len(),
{
    reveal(Seq::filter);
    if s.len() > 0 {
        assert forall|i: int| 0 <= i < s.drop_last().len() implies f(
            #[trigger] s.drop_last()[i],
        ) == g(s.drop_last()[i]) by {
            assert(s.drop_last()[i] == s[i]);
        }
        lemma_filter_agree(s.drop_last(), f, g);
    }
}

/// A value of the query and the variants it selected, kept by a rule.
pub struct CacheEntry<T> {
    key: T,
    indices: Vec<usize>,
}

/// One column of a decision table: the query field it reads, the comparison
/// it applies, and one cell per variant (`None` for a wildcard), with the
/// answers already computed for query values seen before.
pub struct Rule<T: RuleValue + JsonParseable> {
    field_name: String,
    condition: AnyCondition,
    values: Vec<Option<T>>,
    cache: Vec<CacheEntry<T>>,
}

impl<T: RuleValue + JsonParseable> Rule<T> {
    pub closed spec fn name(self) -> Seq<char> {
        self.field_name@
    }

    pub closed spec fn field_string(self) -> String {
        self.field_name
    }

    pub closed spec fn cond(self) -> AnyCondition {
        self.condition
    }

    pub closed spec fn vals(self) -> Seq<Option<T>> {
        self.values@
    }

    pub closed spec fn cache_len(self) -> nat {
        self.cache@.len()
    }

    /// What the rule remembers: each query value it was asked, with the
    /// answer it gave, in the order they were asked.
    pub closed spec fn memory(self) -> Seq<(T, Seq<usize>)> {
        self.cache@.map_values(|e: CacheEntry<T>| (e.key, e.indices@))
    }

    /// The rule remembers an answer for a value the same as `t`.
    pub open spec fn remembers(self, t: T) -> bool {
        exists|j: int| 0 <= j < self.memory().len() && (#[trigger] self.memory()[j]).0.spec_same(t)
    }

    /// Every remembered answer is the answer for its query value, and no two
    /// remembered query values are the same.
    pub open spec fn wf(self) -> bool {
        &&& self.memory().len() == self.cache_len()
        &&& forall|j: int|
            0 <= j < self.memory().len() ==> (#[trigger] self.memory()[j]).1 == self.all_matches(
                self.memory()[j].0,
            )
        &&& forall|i: int, j: int|
            0 <= i < j < self.memory().len() ==> !(#[trigger] self.memory()[i]).0.spec_same(
                (#[trigger] self.memory()[j]).0,
            )
    }

    /// The cell of variant `i` accepts the query value `t`.
    pub open spec fn accepts(self, t: T, i: int) -> bool {
        value_accepts(self.cond(), t, self.vals()[i])
    }

    pub open spec fn acceptor(self, t: T) -> spec_fn(usize) -> bool {
        accepting(self.cond(), self.vals(), t, 0)
    }

    /// The variants, in order, whose cells accept `t`.
    pub open spec fn all_matches(self, t: T) -> Seq<usize> {
        positions(0, self.vals().len()).filter(self.acceptor(t))
    }

    /// The query's field read as this rule's value type.
    pub open spec fn parsed(self, q: JsonValue) -> Result<T, DtError> {
        match q.field(self.name()) {
            None => Err(DtError::FieldNotFound { field: self.field_string() }),
            Some(x) => match T::parse_spec(x) {
                Ok(t) => Ok(t),
                Err(reason) => Err(DtError::QueryConversion { field: self.field_string(), reason }),
            },
        }
    }

    pub open spec fn query_error(self, q: JsonValue) -> Option<DtError> {
        match self.parsed(q) {
            Ok(_) => None,
            Err(e) => Some(e),
        }
    }

    /// The cell of variant `i` accepts the query `q`; no cell accepts a query
    /// that cannot be read.
    pub open spec fn accepts_query(self, q: JsonValue, i: int) -> bool {
        match self.parsed(q) {
            Ok(t) => self.accepts(t, i),
            Err(_) => false,
        }
    }

    pub open spec fn query_acceptor(self, q: JsonValue) -> spec_fn(usize) -> bool {
        |i: usize| self.accepts_query(q, i as int)
    }

    pub fn new(field_name: String, condition: AnyCondition, values: Vec<Option<T>>) -> (r: Rule<T>)
        ensures
            r.name() == field_name@,
            r.cond() == condition,
            r.vals() == values@,
            r.field_string() == field_name,
            r.cache_len() == 0,
            r.wf(),
    {
        Rule { field_name, condition, values, cache: Vec::new() }
    }

    pub fn parse_in_value(&self, value: &JsonValue) -> (r: Result<T, DtError>)
        ensures
            r == self.parsed(*value),
    {
        match value.get(self.field_name.as_str()) {
            None => Err(DtError::FieldNotFound { field: self.field_name.clone() }),
            Some(x) => match T::parse(x) {
                Ok(t) => Ok(t),
                Err(reason) => Err(
                    DtError::QueryConversion { field: self.field_name.clone(), reason },
                ),
            },
        }
    }

    /// The numbers, counted from `start_at`, of the cells in `values` that
    /// accept `t_value`, in order.
    pub fn check_slice(&self, values: &[Option<T>], t_value: &T, start_at: usize) -> (r: Vec<usize>)
        requires
            start_at + values@.len() <= usize::MAX,
        ensures
            r@ == positions(start_at as int, values@.len()).filter(
                accepting(self.cond(), values@, *t_value, start_at as int),
            ),
    {
        Self::check_slice_destructed(&self.condition, values, t_value, start_at)
    }

    pub fn check_slice_destructed(
        condition: &AnyCondition,
        values: &[Option<T>],
        t_value: &T,
        start_at: usize,
    ) -> (r: Vec<usize>)
        requires
            start_at + values@.len() <= usize::MAX,
        ensures
            r@ == positions(start_at as int, values@.len()).filter(
                accepting(*condition, values@, *t_value, start_at as int),
            ),
    {
        let ghost pred = accepting(*condition, values@, *t_value, start_at as int);
        let mut result: Vec<usize> = Vec::new();
        let mut index: usize = 0;
        while index < values.len()
            invariant
                index <= values@.len(),
                start_at + values@.len() <= usize::MAX,
                pred == accepting(*condition, values@, *t_value, start_at as int),
                result@ == positions(start_at as int, index as nat).filter(pred),
            decreases values@.len() - index,
        {
            let ghost before = positions(start_at as int, index as nat);
            assert(positions(start_at as int, (index + 1) as nat) =~= before.push(
                (start_at + index) as usize,
            ));
            proof {
                before.lemma_filter_push((start_at + index) as usize, pred);
            }
            let keep = match &values[index] {
                Some(val) => condition.check(t_value, val),
                None => true,
            };
            if keep {
                result.push(start_at + index);
            }
            index = index + 1;
        }
        result
    }

    /// The numbers in `indices` whose cells accept `t_value`, in order.
    pub fn check_indices_slice(&self, t_value: &T, indices: &[usize]) -> (r: Vec<usize>)
        requires
            forall|k: int| 0 <= k < indices@.len() ==> #[trigger] indices@[k] < self.vals().len(),
        ensures
            r@ == indices@.filter(self.acceptor(*t_value)),
    {
        assert(indices@.subrange(0, indices@.len() as int) =~= indices@);
        self.check_indices_range(t_value, indices, 0, indices.len())
    }

    /// The numbers in `indices[start..end]` whose cells accept `t_value`.
    fn check_indices_range(&self, t_value: &T, indices: &[usize], start: usize, end: usize) -> (r:
        Vec<usize>)
        requires
            start <= end <= indices@.len(),
            forall|k: int| 0 <= k < indices@.len() ==> #[trigger] indices@[k] < self.vals().len(),
        ensures
            r@ == indices@.subrange(start as int, end as int).filter(self.acceptor(*t_value)),
    {
        let ghost pred = self.acceptor(*t_value);
        let mut result: Vec<usize> = Vec::new();
        let mut k: usize = start;
        while k < end
            invariant
                start <= k <= end <= indices@.len(),
                forall|j: int| 0 <= j < indices@.len() ==> #[trigger] indices@[j] < self.vals().len(),
                pred == self.acceptor(*t_value),
                result@ == indices@.subrange(start as int, k as int).filter(pred),
            decreases end - k,
        {
            let ghost before = indices@.subrange(start as int, k as int);
            assert(indices@.subrange(start as int, k + 1) =~= before.push(indices@[k as int]));
            proof {
                before.lemma_filter_push(indices@[k as int], pred);
            }
            let i = indices[k];
            let keep = match &self.values[i] {
                Some(val) => self.condition.check(t_value, val),
                None => true,
            };
            if keep {
                result.push(i);
            }
            k = k + 1;
        }
        result
    }

    /// What a well-formed rule remembers for a value is the answer for it:
    /// asking again for a remembered value gives the remembered answer,
    /// which is the answer `check_all` gives.
    pub proof fn law_remembered_answer_is_the_answer(self, t: T)
        requires
            self.wf(),
            self.remembers(t),
        ensures
            exists|j: int|
                0 <= j < self.memory().len() && (#[trigger] self.memory()[j]).0.spec_same(t)
                    && self.memory()[j].1 == self.all_matches(t),
    {
        let j = choose|j: int| 0 <= j < self.memory().len() && (#[trigger] self.memory()[j]).0.spec_same(t);
        self.lemma_same_matches(self.memory()[j].0, t);
    }

    /// The answer for a value is the answer for any value that is the same.
    proof fn lemma_same_matches(self, a: T, b: T)
        requires
            a.spec_same(b),
        ensures
            self.all_matches(a) == self.all_matches(b),
    {
        let s = positions(0, self.vals().len());
        assert forall|i: int| 0 <= i < s.len() implies self.acceptor(a)(#[trigger] s[i])
            == self.acceptor(b)(s[i]) by {
            let v = self.vals()[s[i] as int];
            if let Some(x) = v {
                T::lemma_same_agrees(a, b, x);
            }
        }
        lemma_filter_agree(s, self.acceptor(a), self.acceptor(b));
    }

    /// The variants whose cells accept the query's value, in order.
    pub fn check_all(&self, value: &JsonValue) -> (r: Result<Vec<usize>, DtError>)
        ensures
            match self.parsed(*value) {
                Err(e) => r == Err::<Vec<usize>, DtError>(e),
                Ok(t) => r matches Ok(v) && v@ == self.all_matches(t),
            },
    {
        let t_value = self.parse_in_value(value)?;
        // the number of cells fits a `usize`, so numbering them from 0 cannot overflow
        let _count = self.values.len();
        let result = self.check_slice(self.values.as_slice(), &t_value, 0);
        Ok(result)
    }

    /// The numbers in `indices` whose cells accept the query's value, in order.
    pub fn check_indices(&self, value: &JsonValue, indices: &Vec<usize>) -> (r: Result<
        Vec<usize>,
        DtError,
    >)
        requires
            forall|k: int| 0 <= k < indices@.len() ==> #[trigger] indices@[k] < self.vals().len(),
        ensures
            match self.parsed(*value) {
                Err(e) => r == Err::<Vec<usize>, DtError>(e),
                Ok(t) => r matches Ok(v) && v@ == indices@.filter(self.acceptor(t)),
            },
    {
        let t_value = self.parse_in_value(value)?;
        let result = self.check_indices_slice(&t_value, indices.as_slice());
        Ok(result)
    }

    /// As `check_indices`, with `indices` cut into `threads_count` chunks
    /// (and a shorter last one) whose answers are joined in order; when there
    /// are fewer indices than chunks, no index is kept. The chunks are
    /// evaluated one after another.
    pub fn check_all_multi_thread(&self, value: &JsonValue, indices: &Vec<usize>, threads_count: u8) -> (r:
        Result<Vec<usize>, DtError>)
        requires
            threads_count > 0,
            indices@.len() / (threads_count as nat) > 0 ==> forall|k: int|
                0 <= k < indices@.len() ==> #[trigger] indices@[k] < self.vals().len(),
        ensures
            match self.parsed(*value) {
                Err(e) => r == Err::<Vec<usize>, DtError>(e),
                Ok(t) => r matches Ok(v) && v@ == (if indices@.len() / (threads_count as nat) == 0 {
                    Seq::<usize>::empty()
                } else {
                    indices@.filter(self.acceptor(t))
                }),
            },
    {
        let t_value = self.parse_in_value(value)?;
        let len = indices.len();
        let chunk_size = len / (threads_count as usize);
        if chunk_size == 0 {
            return Ok(Vec::new());
        }
        let ghost pred = self.acceptor(t_value);
        let mut result: Vec<usize> = Vec::new();
        let mut start: usize = 0;
        while start < len
            invariant
                start <= len == indices@.len(),
                chunk_size > 0,
                forall|k: int| 0 <= k < indices@.len() ==> #[trigger] indices@[k] < self.vals().len(),
                pred == self.acceptor(t_value),
                result@ == indices@.subrange(0, start as int).filter(pred),
            decreases len - start,
        {
            let end = if len - start < chunk_size {
                len
            } else {
                start + chunk_size
            };
            let mut part = self.check_indices_range(&t_value, indices.as_slice(), start, end);
            proof {
                let a = indices@.subrange(0, start as int);
                let b = indices@.subrange(start as int, end as int);
                assert(indices@.subrange(0, end as int) =~= a + b);
                Seq::filter_distributes_over_add(a, b, pred);
            }
            result.append(&mut part);
            start = end;
        }
        assert(indices@.subrange(0, len as int) =~= indices@);
        Ok(result)
    }

    /// As `check_all`; the answer for each query value is remembered and
    /// given again when the same value comes back.
    pub fn check_all_cached(&mut self, value: &JsonValue) -> (r: Result<Vec<usize>, DtError>)
        requires
            old(self).wf(),
        ensures
            final(self).wf(),
            final(self).name() == old(self).name(),
            final(self).field_string() == old(self).field_string(),
            final(self).cond() == old(self).cond(),
            final(self).vals() == old(self).vals(),
            match old(self).parsed(*value) {
                Err(e) => r == Err::<Vec<usize>, DtError>(e) && *final(self) == *old(self),
                Ok(t) => r matches Ok(v) && v@ == old(self).all_matches(t) && (if old(self).remembers(t) {
                    *final(self) == *old(self)
                } else {
                    final(self).memory() == old(self).memory().push((t, v@))
                }) && (t.spec_same(t) ==> final(self).remembers(t)),
            },
    {
        let t_value = match self.parse_in_value(value) {
            Ok(t) => t,
            Err(e) => {
                return Err(e);
            },
        };
        let mut j: usize = 0;
        while j < self.cache.len()
            invariant
                self.wf(),
                *self == *old(self),
                self.parsed(*value) == Ok::<T, DtError>(t_value),
                j <= self.cache@.len(),
                forall|k: int| 0 <= k < j ==> !(#[trigger] self.memory()[k]).0.spec_same(t_value),
            decreases self.cache@.len() - j,
        {
            if self.cache[j].key.same(&t_value) {
                let found = self.cache[j].indices.clone();
                proof {
                    assert(self.memory()[j as int] == (self.cache@[j as int].key, self.cache@[j as int].indices@));
                    assert(self.cache@[j as int].indices@ == self.all_matches(self.cache@[j as int].key));
                    self.lemma_same_matches(self.cache@[j as int].key, t_value);
                    assert(found@ =~= self.cache@[j as int].indices@);
                }
                assert(self.memory()[j as int].0 == self.cache@[j as int].key);
                return Ok(found);
            }
            assert(self.memory()[j as int].0 == self.cache@[j as int].key);
            j = j + 1;
        }
        let ghost before = self.memory();
        // the number of cells fits a `usize`, so numbering them from 0 cannot overflow
        let _count = self.values.len();
        let result = Self::check_slice_destructed(&self.condition, self.values.as_slice(), &t_value, 0);
        let remembered = result.clone();
        assert(remembered@ =~= result@);
        let key = t_value.duplicate();
        self.cache.push(CacheEntry { key, indices: remembered });
        proof {
            assert(self.memory() =~= before.push((t_value, result@)));
            assert(self.memory()[before.len() as int].0 == t_value);
            assert forall|i: int, k: int| 0 <= i < k < self.memory().len() implies !(
            #[trigger] self.memory()[i]).0.spec_same((#[trigger] self.memory()[k]).0) by {
                if k == before.len() {
                    assert(self.memory()[i] == before[i]);
                } else {
                    assert(self.memory()[i] == before[i] && self.memory()[k] == before[k]);
                }
            }
        }
        Ok(result)
    }
}

impl<T: RuleValue + JsonParseable> Rule<T> {
    /// `check_all_cached` seen through the rule's reading of a query: the
    /// rule is otherwise unchanged, and so is what it accepts.
    fn cached_check(&mut self, value: &JsonValue) -> (r: Result<Vec<usize>, DtError>)
        requires
            old(self).wf(),
        ensures
            final(self).wf(),
            final(self).name() == old(self).name(),
            final(self).field_string() == old(self).field_string(),
            final(self).cond() == old(self).cond(),
            final(self).vals() == old(self).vals(),
            final(self).query_acceptor(*value) == old(self).query_acceptor(*value),
            match old(self).query_error(*value) {
                Some(e) => r == Err::<Vec<usize>, DtError>(e),
                None => r matches Ok(v) && v@ == positions(0, old(self).vals().len()).filter(
                    old(self).query_acceptor(*value),
                ),
            },
    {
        let ghost before = *self;
        let res = self.check_all_cached(value);
        proof {
            assert(before.query_acceptor(*value) =~= self.query_acceptor(*value));
            if let Ok(t) = before.parsed(*value) {
                assert(before.query_acceptor(*value) =~= before.acceptor(t));
            }
        }
        res
    }
}

/// A rule of any of the value types a column can have.
pub enum AnyRule {
    U8(Rule<u8>),
    U16(Rule<u16>),
    U32(Rule<u32>),
    U64(Rule<u64>),
    I8(Rule<i8>),
    I16(Rule<i16>),
    I32(Rule<i32>),
    I64(Rule<i64>),
    F32(Rule<F32Key>),
    F64(Rule<F64Key>),
    Str(Rule<String>),
    Bool(Rule<bool>),
    DateTime(Rule<Timestamp>),
}

/// The cells of a column, of any value type.
pub enum ColumnValues {
    U8(Seq<Option<u8>>),
    U16(Seq<Option<u16>>),
    U32(Seq<Option<u32>>),
    U64(Seq<Option<u64>>),
    I8(Seq<Option<i8>>),
    I16(Seq<Option<i16>>),
    I32(Seq<Option<i32>>),
    I64(Seq<Option<i64>>),
    F32(Seq<Option<F32Key>>),
    F64(Seq<Option<F64Key>>),
    Str(Seq<Option<String>>),
    Bool(Seq<Option<bool>>),
    DateTime(Seq<Option<Timestamp>>),
}

impl ColumnValues {
    pub open spec fn len(self) -> nat {
        match self {
            ColumnValues::U8(s) => s.len(),
            ColumnValues::U16(s) => s.len(),
            ColumnValues::U32(s) => s.len(),
            ColumnValues::U64(s) => s.len(),
            ColumnValues::I8(s) => s.len(),
            ColumnValues::I16(s) => s.len(),
            ColumnValues::I32(s) => s.len(),
            ColumnValues::I64(s) => s.len(),
            ColumnValues::F32(s) => s.len(),
            ColumnValues::F64(s) => s.len(),
            ColumnValues::Str(s) => s.len(),
            ColumnValues::Bool(s) => s.len(),
            ColumnValues::DateTime(s) => s.len(),
        }
    }
}

impl AnyRule {
    pub open spec fn name(self) -> Seq<char> {
        match self {
            AnyRule::U8(r) => r.name(),
            AnyRule::U16(r) => r.name(),
            AnyRule::U32(r) => r.name(),
            AnyRule::U64(r) => r.name(),
            AnyRule::I8(r) => r.name(),
            AnyRule::I16(r) => r.name(),
            AnyRule::I32(r) => r.name(),
            AnyRule::I64(r) => r.name(),
            AnyRule::F32(r) => r.name(),
            AnyRule::F64(r) => r.name(),
            AnyRule::Str(r) => r.name(),
            AnyRule::Bool(r) => r.name(),
            AnyRule::DateTime(r) => r.name(),
        }
    }

    pub open spec fn field_string(self) -> String {
        match self {
            AnyRule::U8(r) => r.field_string(),
            AnyRule::U16(r) => r.field_string(),
            AnyRule::U32(r) => r.field_string(),
            AnyRule::U64(r) => r.field_string(),
            AnyRule::I8(r) => r.field_string(),
            AnyRule::I16(r) => r.field_string(),
            AnyRule::I32(r) => r.field_string(),
            AnyRule::I64(r) => r.field_string(),
            AnyRule::F32(r) => r.field_string(),
            AnyRule::F64(r) => r.field_string(),
            AnyRule::Str(r) => r.field_string(),
            AnyRule::Bool(r) => r.field_string(),
            AnyRule::DateTime(r) => r.field_string(),
        }
    }

    pub open spec fn cond(self) -> AnyCondition {
        match self {
            AnyRule::U8(r) => r.cond(),
            AnyRule::U16(r) => r.cond(),
            AnyRule::U32(r) => r.cond(),
            AnyRule::U64(r) => r.cond(),
            AnyRule::I8(r) => r.cond(),
            AnyRule::I16(r) => r.cond(),
            AnyRule::I32(r) => r.cond(),
            AnyRule::I64(r) => r.cond(),
            AnyRule::F32(r) => r.cond(),
            AnyRule::F64(r) => r.cond(),
            AnyRule::Str(r) => r.cond(),
            AnyRule::Bool(r) => r.cond(),
            AnyRule::DateTime(r) => r.cond(),
        }
    }

    /// The cells of the rule, with their type.
    pub open spec fn column(self) -> ColumnValues {
        match self {
            AnyRule::U8(r) => ColumnValues::U8(r.vals()),
            AnyRule::U16(r) => ColumnValues::U16(r.vals()),
            AnyRule::U32(r) => ColumnValues::U32(r.vals()),
            AnyRule::U64(r) => ColumnValues::U64(r.vals()),
            AnyRule::I8(r) => ColumnValues::I8(r.vals()),
            AnyRule::I16(r) => ColumnValues::I16(r.vals()),
            AnyRule::I32(r) => ColumnValues::I32(r.vals()),
            AnyRule::I64(r) => ColumnValues::I64(r.vals()),
            AnyRule::F32(r) => ColumnValues::F32(r.vals()),
            AnyRule::F64(r) => ColumnValues::F64(r.vals()),
            AnyRule::Str(r) => ColumnValues::Str(r.vals()),
            AnyRule::Bool(r) => ColumnValues::Bool(r.vals()),
            AnyRule::DateTime(r) => ColumnValues::DateTime(r.vals()),
        }
    }

    pub open spec fn values_len(self) -> nat {
        self.column().len()
    }

    /// How many answers the rule remembers.
    pub open spec fn cache_len(self) -> nat {
        match self {
            AnyRule::U8(r) => r.cache_len(),
            AnyRule::U16(r) => r.cache_len(),
            AnyRule::U32(r) => r.cache_len(),
            AnyRule::U64(r) => r.cache_len(),
            AnyRule::I8(r) => r.cache_len(),
            AnyRule::I16(r) => r.cache_len(),
            AnyRule::I32(r) => r.cache_len(),
            AnyRule::I64(r) => r.cache_len(),
            AnyRule::F32(r) => r.cache_len(),
            AnyRule::F64(r) => r.cache_len(),
            AnyRule::Str(r) => r.cache_len(),
            AnyRule::Bool(r) => r.cache_len(),
            AnyRule::DateTime(r) => r.cache_len(),
        }
    }

    pub open spec fn wf(self) -> bool {
        match self {
            AnyRule::U8(r) => r.wf(),
            AnyRule::U16(r) => r.wf(),
            AnyRule::U32(r) => r.wf(),
            AnyRule::U64(r) => r.wf(),
            AnyRule::I8(r) => r.wf(),
            AnyRule::I16(r) => r.wf(),
            AnyRule::I32(r) => r.wf(),
            AnyRule::I64(r) => r.wf(),
            AnyRule::F32(r) => r.wf(),
            AnyRule::F64(r) => r.wf(),
            AnyRule::Str(r) => r.wf(),
            AnyRule::Bool(r) => r.wf(),
            AnyRule::DateTime(r) => r.wf(),
        }
    }

    pub open spec fn query_error(self, q: JsonValue) -> Option<DtError> {
        match self {
            AnyRule::U8(r) => r.query_error(q),
            AnyRule::U16(r) => r.query_error(q),
            AnyRule::U32(r) => r.query_error(q),
            AnyRule::U64(r) => r.query_error(q),
            AnyRule::I8(r) => r.query_error(q),
            AnyRule::I16(r) => r.query_error(q),
            AnyRule::I32(r) => r.query_error(q),
            AnyRule::I64(r) => r.query_error(q),
            AnyRule::F32(r) => r.query_error(q),
            AnyRule::F64(r) => r.query_error(q),
            AnyRule::Str(r) => r.query_error(q),
            AnyRule::Bool(r) => r.query_error(q),
            AnyRule::DateTime(r) => r.query_error(q),
        }
    }

    pub open spec fn accepts_query(self, q: JsonValue, i: int) -> bool {
        match self {
            AnyRule::U8(r) => r.accepts_query(q, i),
            AnyRule::U16(r) => r.accepts_query(q, i),
            AnyRule::U32(r) => r.accepts_query(q, i),
            AnyRule::U64(r) => r.accepts_query(q, i),
            AnyRule::I8(r) => r.accepts_query(q, i),
            AnyRule::I16(r) => r.accepts_query(q, i),
            AnyRule::I32(r) => r.accepts_query(q, i),
            AnyRule::I64(r) => r.accepts_query(q, i),
            AnyRule::F32(r) => r.accepts_query(q, i),
            AnyRule::F64(r) => r.accepts_query(q, i),
            AnyRule::Str(r) => r.accepts_query(q, i),
            AnyRule::Bool(r) => r.accepts_query(q, i),
            AnyRule::DateTime(r) => r.accepts_query(q, i),
        }
    }

    /// The variants whose cells accept the query `q`.
    pub open spec fn acceptor(self, q: JsonValue) -> spec_fn(usize) -> bool {
        |i: usize| self.accepts_query(q, i as int)
    }

    /// `a` and `b` are the same rule, whatever they remember.
    pub open spec fn same_rule(a: AnyRule, b: AnyRule) -> bool {
        a.field_string() == b.field_string() && a.name() == b.name() && a.cond() == b.cond()
            && a.column() == b.column()
    }

    pub open spec fn is_cacheable(self) -> bool {
        !(self is F32 || self is F64)
    }
}

/// The checks that a decision table asks of each of its rules.
pub trait RuleTrait {
    spec fn spec_wf(&self) -> bool;

    spec fn spec_len(&self) -> nat;

    spec fn spec_query_error(&self, q: JsonValue) -> Option<DtError>;

    spec fn spec_acceptor(&self, q: JsonValue) -> spec_fn(usize) -> bool;

    /// Every variant whose cell accepts the query, in order.
    fn check_all(&self, value: &JsonValue) -> (r: Result<Vec<usize>, DtError>)
        ensures
            match self.spec_query_error(*value) {
                Some(e) => r == Err::<Vec<usize>, DtError>(e),
                None => r matches Ok(v) && v@ == positions(0, self.spec_len()).filter(
                    self.spec_acceptor(*value),
                ),
            },
    ;

    /// As `check_indices` when `indices` has at least `threads_count`
    /// elements; no index otherwise.
    fn check_all_multi_thread(&self, value: &JsonValue, indices: &Vec<usize>, threads_count: u8) -> (r:
        Result<Vec<usize>, DtError>)
        requires
            threads_count > 0,
            indices@.len() / (threads_count as nat) > 0 ==> forall|k: int|
                0 <= k < indices@.len() ==> #[trigger] indices@[k] < self.spec_len(),
        ensures
            match self.spec_query_error(*value) {
                Some(e) => r == Err::<Vec<usize>, DtError>(e),
                None => r matches Ok(v) && v@ == (if indices@.len() / (threads_count as nat) == 0 {
                    Seq::<usize>::empty()
                } else {
                    indices@.filter(self.spec_acceptor(*value))
                }),
            },
    ;

    /// The numbers in `indices` whose cells accept the query, in order.
    fn check_indices(&self, value: &JsonValue, indices: &Vec<usize>) -> (r: Result<Vec<usize>, DtError>)
        requires
            forall|k: int| 0 <= k < indices@.len() ==> #[trigger] indices@[k] < self.spec_len(),
        ensures
            match self.spec_query_error(*value) {
                Some(e) => r == Err::<Vec<usize>, DtError>(e),
                None => r matches Ok(v) && v@ == indices@.filter(self.spec_acceptor(*value)),
            },
    ;
}

/// A rule that remembers its answers.
pub trait CachedRuleTrait: RuleTrait + Sized {
    spec fn spec_same_rule(a: Self, b: Self) -> bool;

    fn check_all_cached(&mut self, value: &JsonValue) -> (r: Result<Vec<usize>, DtError>)
        requires
            old(self).spec_wf(),
        ensures
            final(self).spec_wf(),
            Self::spec_same_rule(*old(self), *final(self)),
            final(self).spec_len() == old(self).spec_len(),
            final(self).spec_query_error(*value) == old(self).spec_query_error(*value),
            final(self).spec_acceptor(*value) == old(self).spec_acceptor(*value),
            match old(self).spec_query_error(*value) {
                Some(e) => r == Err::<Vec<usize>, DtError>(e),
                None => r matches Ok(v) && v@ == positions(0, old(self).spec_len()).filter(
                    old(self).spec_acceptor(*value),
                ),
            },
    ;
}

impl RuleTrait for AnyRule {
    open spec fn spec_wf(&self) -> bool {
        self.wf()
    }

    open spec fn spec_len(&self) -> nat {
        self.values_len()
    }

    open spec fn spec_query_error(&self, q: JsonValue) -> Option<DtError> {
        self.query_error(q)
    }

    open spec fn spec_acceptor(&self, q: JsonValue) -> spec_fn(usize) -> bool {
        self.acceptor(q)
    }

    fn check_all(&self, value: &JsonValue) -> (r: Result<Vec<usize>, DtError>) {
        match self {
            AnyRule::U8(r) => {
                let res = r.check_all(value);
                proof {
                    if let Ok(t) = r.parsed(*value) {
                        assert(self.acceptor(*value) =~= r.acceptor(t));
                    }
                }
                res
            },
            AnyRule::U16(r) => {
                let res = r.check_all(value);
                proof {
                    if let Ok(t) = r.parsed(*value) {
                        assert(self.acceptor(*value) =~= r.acceptor(t));
                    }
                }
                res
            },
            AnyRule::U32(r) => {
                let res = r.check_all(value);
                proof {
                    if let Ok(t) = r.parsed(*value) {
                        assert(self.acceptor(*value) =~= r.acceptor(t));
                    }
                }
                res
            },
            AnyRule::U64(r) => {
                let res = r.check_all(value);
                proof {
                    if let Ok(t) = r.parsed(*value) {
                        assert(self.acceptor(*value) =~= r.acceptor(t));
                    }
                }
                res
            },
            AnyRule::I8(r) => {
                let res = r.check_all(value);
                proof {
                    if let Ok(t) = r.parsed(*value) {
                        assert(self.acceptor(*value) =~= r.acceptor(t));
                    }
                }
                res
            },
            AnyRule::I16(r) => {
                let res = r.check_all(value);
                proof {
                    if let Ok(t) = r.parsed(*value) {
                        assert(self.acceptor(*value) =~= r.acceptor(t));
                    }
                }
                res
            },
            AnyRule::I32(r) => {
                let res = r.check_all(value);
                proof {
                    if let Ok(t) = r.parsed(*value) {
                        assert(self.acceptor(*value) =~= r.acceptor(t));
                    }
                }
                res
            },
            AnyRule::I64(r) => {
                let res = r.check_all(value);
                proof {
                    if let Ok(t) = r.parsed(*value) {
                        assert(self.acceptor(*value) =~= r.acceptor(t));
                    }
                }
                res
            },
            AnyRule::F32(r) => {
                let res = r.check_all(value);
                proof {
                    if let Ok(t) = r.parsed(*value) {
                        assert(self.acceptor(*value) =~= r.acceptor(t));
                    }
                }
                res
            },
            AnyRule::F64(r) => {
                let res = r.check_all(value);
                proof {
                    if let Ok(t) = r.parsed(*value) {
                        assert(self.acceptor(*value) =~= r.acceptor(t));
                    }
                }
                res
            },
            AnyRule::Str(r) => {
                let res = r.check_all(value);
                proof {
                    if let Ok(t) = r.parsed(*value) {
                        assert(self.acceptor(*value) =~= r.acceptor(t));
                    }
                }
                res
            },
            AnyRule::Bool(r) => {
                let res = r.check_all(value);
                proof {
                    if let Ok(t) = r.parsed(*value) {
                        assert(self.acceptor(*value) =~= r.acceptor(t));
                    }
                }
                res
            },
            AnyRule::DateTime(r) => {
                let res = r.check_all(value);
                proof {
                    if let Ok(t) = r.parsed(*value) {
                        assert(self.acceptor(*value) =~= r.acceptor(t));
                    }
                }
                res
            },
        }
    }

    fn check_all_multi_thread(&self, value: &JsonValue, indices: &Vec<usize>, threads_count: u8) -> (r:
        Result<Vec<usize>, DtError>) {
        match self {
            AnyRule::U8(r) => {
                let res = r.check_all_multi_thread(value, indices, threads_count);
                proof {
                    if let Ok(t) = r.parsed(*value) {
                        assert(self.acceptor(*value) =~= r.acceptor(t));
                    }
                }
                res
            },
            AnyRule::U16(r) => {
                let res = r.check_all_multi_thread(value, indices, threads_count);
                proof {
                    if let Ok(t) = r.parsed(*value) {
                        assert(self.acceptor(*value) =~= r.acceptor(t));
                    }
                }
                res
            },
            AnyRule::U32(r) => {
                let res = r.check_all_multi_thread(value, indices, threads_count);
                proof {
                    if let Ok(t) = r.parsed(*value) {
                        assert(self.acceptor(*value) =~= r.acceptor(t));
                    }
                }
                res
            },
            AnyRule::U64(r) => {
                let res = r.check_all_multi_thread(value, indices, threads_count);
                proof {
                    if let Ok(t) = r.parsed(*value) {
                        assert(self.acceptor(*value) =~= r.acceptor(t));
                    }
                }
                res
            },
            AnyRule::I8(r) => {
                let res = r.check_all_multi_thread(value, indices, threads_count);
                proof {
                    if let Ok(t) = r.parsed(*value) {
                        assert(self.acceptor(*value) =~= r.acceptor(t));
                    }
                }
                res
            },
            AnyRule::I16(r) => {
                let res = r.check_all_multi_thread(value, indices, threads_count);
                proof {
                    if let Ok(t) = r.parsed(*value) {
                        assert(self.acceptor(*value) =~= r.acceptor(t));
                    }
                }
                res
            },
            AnyRule::I32(r) => {
                let res = r.check_all_multi_thread(value, indices, threads_count);
                proof {
                    if let Ok(t) = r.parsed(*value) {
                        assert(self.acceptor(*value) =~= r.acceptor(t));
                    }
                }
                res
            },
            AnyRule::I64(r) => {
                let res = r.check_all_multi_thread(value, indices, threads_count);
                proof {
                    if let Ok(t) = r.parsed(*value) {
                        assert(self.acceptor(*value) =~= r.acceptor(t));
                    }
                }
                res
            },
            AnyRule::F32(r) => {
                let res = r.check_all_multi_thread(value, indices, threads_count);
                proof {
                    if let Ok(t) = r.parsed(*value) {
                        assert(self.acceptor(*value) =~= r.acceptor(t));
                    }
                }
                res
            },
            AnyRule::F64(r) => {
                let res = r.check_all_multi_thread(value, indices, threads_count);
                proof {
                    if let Ok(t) = r.parsed(*value) {
                        assert(self.acceptor(*value) =~= r.acceptor(t));
                    }
                }
                res
            },
            AnyRule::Str(r) => {
                let res = r.check_all_multi_thread(value, indices, threads_count);
                proof {
                    if let Ok(t) = r.parsed(*value) {
                        assert(self.acceptor(*value) =~= r.acceptor(t));
                    }
                }
                res
            },
            AnyRule::Bool(r) => {
                let res = r.check_all_multi_thread(value, indices, threads_count);
                proof {
                    if let Ok(t) = r.parsed(*value) {
                        assert(self.acceptor(*value) =~= r.acceptor(t));
                    }
                }
                res
            },
            AnyRule::DateTime(r) => {
                let res = r.check_all_multi_thread(value, indices, threads_count);
                proof {
                    if let Ok(t) = r.parsed(*value) {
                        assert(self.acceptor(*value) =~= r.acceptor(t));
                    }
                }
                res
            },
        }
    }

    fn check_indices(&self, value: &JsonValue, indices: &Vec<usize>) -> (r: Result<Vec<usize>, DtError>) {
        match self {
            AnyRule::U8(r) => {
                let res = r.check_indices(value, indices);
                proof {
                    if let Ok(t) = r.parsed(*value) {
                        assert(self.acceptor(*value) =~= r.acceptor(t));
                    }
                }
                res
            },
            AnyRule::U16(r) => {
                let res = r.check_indices(value, indices);
                proof {
                    if let Ok(t) = r.parsed(*value) {
                        assert(self.acceptor(*value) =~= r.acceptor(t));
                    }
                }
                res
            },
            AnyRule::U32(r) => {
                let res = r.check_indices(value, indices);
                proof {
                    if let Ok(t) = r.parsed(*value) {
                        assert(self.acceptor(*value) =~= r.acceptor(t));
                    }
                }
                res
            },
            AnyRule::U64(r) => {
                let res = r.check_indices(value, indices);
                proof {
                    if let Ok(t) = r.parsed(*value) {
                        assert(self.acceptor(*value) =~= r.acceptor(t));
                    }
                }
                res
            },
            AnyRule::I8(r) => {
                let res = r.check_indices(value, indices);
                proof {
                    if let Ok(t) = r.parsed(*value) {
                        assert(self.acceptor(*value) =~= r.acceptor(t));
                    }
                }
                res
            },
            AnyRule::I16(r) => {
                let res = r.check_indices(value, indices);
                proof {
                    if let Ok(t) = r.parsed(*value) {
                        assert(self.acceptor(*value) =~= r.acceptor(t));
                    }
                }
                res
            },
            AnyRule::I32(r) => {
                let res = r.check_indices(value, indices);
                proof {
                    if let Ok(t) = r.parsed(*value) {
                        assert(self.acceptor(*value) =~= r.acceptor(t));
                    }
                }
                res
            },
            AnyRule::I64(r) => {
                let res = r.check_indices(value, indices);
                proof {
                    if let Ok(t) = r.parsed(*value) {
                        assert(self.acceptor(*value) =~= r.acceptor(t));
                    }
                }
                res
            },
            AnyRule::F32(r) => {
                let res = r.check_indices(value, indices);
                proof {
                    if let Ok(t) = r.parsed(*value) {
                        assert(self.acceptor(*value) =~= r.acceptor(t));
                    }
                }
                res
            },
            AnyRule::F64(r) => {
                let res = r.check_indices(value, indices);
                proof {
                    if let Ok(t) = r.parsed(*value) {
                        assert(self.acceptor(*value) =~= r.acceptor(t));
                    }
                }
                res
            },
            AnyRule::Str(r) => {
                let res = r.check_indices(value, indices);
                proof {
                    if let Ok(t) = r.parsed(*value) {
                        assert(self.acceptor(*value) =~= r.acceptor(t));
                    }
                }
                res
            },
            AnyRule::Bool(r) => {
                let res = r.check_indices(value, indices);
                proof {
                    if let Ok(t) = r.parsed(*value) {
                        assert(self.acceptor(*value) =~= r.acceptor(t));
                    }
                }
                res
            },
            AnyRule::DateTime(r) => {
                let res = r.check_indices(value, indices);
                proof {
                    if let Ok(t) = r.parsed(*value) {
                        assert(self.acceptor(*value) =~= r.acceptor(t));
                    }
                }
                res
            },
        }
    }
}

impl CachedRuleTrait for AnyRule {
    open spec fn spec_same_rule(a: Self, b: Self) -> bool {
        AnyRule::same_rule(a, b)
    }

    /// Rules of floating-point values do not remember their answers.
    fn check_all_cached(&mut self, value: &JsonValue) -> (r: Result<Vec<usize>, DtError>) {
        match self {
            AnyRule::U8(r) => {
                let ghost before = *r;
                let res = r.cached_check(value);
                proof {
                    assert(old(self).acceptor(*value) =~= before.query_acceptor(*value));
                    assert(self.acceptor(*value) =~= r.query_acceptor(*value));
                }
                res
            },
            AnyRule::U16(r) => {
                let ghost before = *r;
                let res = r.cached_check(value);
                proof {
                    assert(old(self).acceptor(*value) =~= before.query_acceptor(*value));
                    assert(self.acceptor(*value) =~= r.query_acceptor(*value));
                }
                res
            },
            AnyRule::U32(r) => {
                let ghost before = *r;
                let res = r.cached_check(value);
                proof {
                    assert(old(self).acceptor(*value) =~= before.query_acceptor(*value));
                    assert(self.acceptor(*value) =~= r.query_acceptor(*value));
                }
                res
            },
            AnyRule::U64(r) => {
                let ghost before = *r;
                let res = r.cached_check(value);
                proof {
                    assert(old(self).acceptor(*value) =~= before.query_acceptor(*value));
                    assert(self.acceptor(*value) =~= r.query_acceptor(*value));
                }
                res
            },
            AnyRule::I8(r) => {
                let ghost before = *r;
                let res = r.cached_check(value);
                proof {
                    assert(old(self).acceptor(*value) =~= before.query_acceptor(*value));
                    assert(self.acceptor(*value) =~= r.query_acceptor(*value));
                }
                res
            },
            AnyRule::I16(r) => {
                let ghost before = *r;
                let res = r.cached_check(value);
                proof {
                    assert(old(self).acceptor(*value) =~= before.query_acceptor(*value));
                    assert(self.acceptor(*value) =~= r.query_acceptor(*value));
                }
                res
            },
            AnyRule::I32(r) => {
                let ghost before = *r;
                let res = r.cached_check(value);
                proof {
                    assert(old(self).acceptor(*value) =~= before.query_acceptor(*value));
                    assert(self.acceptor(*value) =~= r.query_acceptor(*value));
                }
                res
            },
            AnyRule::I64(r) => {
                let ghost before = *r;
                let res = r.cached_check(value);
                proof {
                    assert(old(self).acceptor(*value) =~= before.query_acceptor(*value));
                    assert(self.acceptor(*value) =~= r.query_acceptor(*value));
                }
                res
            },
            AnyRule::F32(r) => {
                let ghost before = *r;
                let res = r.cached_check(value);
                proof {
                    assert(old(self).acceptor(*value) =~= before.query_acceptor(*value));
                    assert(self.acceptor(*value) =~= r.query_acceptor(*value));
                }
                res
            },
            AnyRule::F64(r) => {
                let ghost before = *r;
                let res = r.cached_check(value);
                proof {
                    assert(old(self).acceptor(*value) =~= before.query_acceptor(*value));
                    assert(self.acceptor(*value) =~= r.query_acceptor(*value));
                }
                res
            },
            AnyRule::Str(r) => {
                let ghost before = *r;
                let res = r.cached_check(value);
                proof {
                    assert(old(self).acceptor(*value) =~= before.query_acceptor(*value));
                    assert(self.acceptor(*value) =~= r.query_acceptor(*value));
                }
                res
            },
            AnyRule::Bool(r) => {
                let ghost before = *r;
                let res = r.cached_check(value);
                proof {
                    assert(old(self).acceptor(*value) =~= before.query_acceptor(*value));
                    assert(self.acceptor(*value) =~= r.query_acceptor(*value));
                }
                res
            },
            AnyRule::DateTime(r) => {
                let ghost before = *r;
                let res = r.cached_check(value);
                proof {
                    assert(old(self).acceptor(*value) =~= before.query_acceptor(*value));
                    assert(self.acceptor(*value) =~= r.query_acceptor(*value));
                }
                res
            },
        }
    }
}

/// The floating-point width of a decimal column.
#[derive(Clone, Copy, Debug, PartialEq, Eq)]
pub enum DecimalType {
    F32,
    F64,
}

/// What a column of integers holds: whether any is negative, and the largest.
#[derive(Clone, Copy, Debug, PartialEq, Eq)]
pub struct IntegerData {
    has_negative: bool,
    max_value: i128,
}

impl IntegerData {
    pub closed spec fn spec_has_negative(self) -> bool {
        self.has_negative
    }

    pub closed spec fn spec_max_value(self) -> i128 {
        self.max_value
    }

    pub closed spec fn spec_new(has_negative: bool, max_value: i128) -> IntegerData {
        IntegerData { has_negative, max_value }
    }

    pub fn new(has_negative: bool, max_value: i128) -> (r: IntegerData)
        ensures
            r == IntegerData::spec_new(has_negative, max_value),
            r.spec_has_negative() == has_negative,
            r.spec_max_value() == max_value,
    {
        IntegerData { has_negative, max_value }
    }

    pub fn has_negative(&self) -> (r: bool)
        ensures
            r == self.spec_has_negative(),
    {
        self.has_negative
    }

    pub fn max_value(&self) -> (r: i128)
        ensures
            r == self.spec_max_value(),
    {
        self.max_value
    }
}

/// What a column of strings holds: the longest, in bytes, and whether any
/// character is outside ASCII.
#[derive(Clone, Copy, Debug, PartialEq, Eq)]
pub struct StringData {
    max_length: usize,
    contains_utf: bool,
}

impl StringData {
    pub closed spec fn spec_max_length(self) -> usize {
        self.max_length
    }

    pub closed spec fn spec_contains_utf(self) -> bool {
        self.contains_utf
    }

    pub closed spec fn spec_new(max_length: usize, contains_utf: bool) -> StringData {
        StringData { max_length, contains_utf }
    }

    pub fn new(max_length: usize, contains_utf: bool) -> (r: StringData)
        ensures
            r == StringData::spec_new(max_length, contains_utf),
            r.spec_max_length() == max_length,
            r.spec_contains_utf() == contains_utf,
    {
        StringData { max_length, contains_utf }
    }

    pub fn max_length(&self) -> (r: usize)
        ensures
            r == self.spec_max_length(),
    {
        self.max_length
    }

    pub fn contains_utf(&self) -> (r: bool)
        ensures
            r == self.spec_contains_utf(),
    {
        self.contains_utf
    }
}

#[derive(Clone, Copy, Debug, PartialEq, Eq)]
pub enum NumberType {
    Integer(IntegerData),
    Decimal(DecimalType),
}

/// A UTC offset, in seconds east of UTC, strictly within one day either way.
#[derive(Clone, Copy, Debug, PartialEq, Eq)]
pub struct TimeZoneOffset {
    secs: i32,
}

impl TimeZoneOffset {
    #[verifier::type_invariant]
    spec fn within_a_day(self) -> bool {
        -86_400 < self.secs < 86_400
    }

    pub closed spec fn spec_secs(self) -> i32 {
        self.secs
    }

    pub closed spec fn spec_of(secs: i32) -> TimeZoneOffset {
        TimeZoneOffset { secs }
    }

    pub proof fn lemma_of_secs(o: TimeZoneOffset)
        ensures
            o == TimeZoneOffset::spec_of(o.spec_secs()),
    {
    }

    /// The offset of `secs` seconds east of UTC, where chrono's
    /// `FixedOffset::east_opt` accepts it.
    pub fn east_opt(secs: i32) -> (r: Option<TimeZoneOffset>)
        ensures
            match r {
                Some(o) => -86_400 < secs < 86_400 && o.spec_secs() == secs && o
                    == TimeZoneOffset::spec_of(secs),
                None => !(-86_400 < secs < 86_400),
            },
    {
        match crate::datetime::fixed_offset_east(secs) {
            Some(s) => Some(TimeZoneOffset { secs: s }),
            None => None,
        }
    }

    pub fn secs(&self) -> (r: i32)
        ensures
            r == self.spec_secs(),
            -86_400 < r < 86_400,
    {
        proof {
            use_type_invariant(self);
        }
        self.secs
    }
}

/// The type of a column's values.
#[derive(Clone, Copy, Debug, PartialEq, Eq)]
pub enum ValueType {
    String(StringData),
    Number(NumberType),
    DateTime(TimeZoneOffset),
    Boolean,
}

/// What a data source says of a column: the query field it reads, the
/// comparison, and the type of its values.
#[derive(Clone, Debug)]
pub struct RuleData {
    field_name: String,
    condition: ValueCondition,
    pub field_type: ValueType,
}

impl RuleData {
    pub closed spec fn spec_field_name(self) -> String {
        self.field_name
    }

    pub closed spec fn spec_field_type(self) -> ValueType {
        self.field_type
    }

    pub closed spec fn spec_condition(self) -> ValueCondition {
        self.condition
    }

    pub fn new(field_name: String, condition: ValueCondition, field_type: ValueType) -> (r: RuleData)
        ensures
            r.spec_field_name() == field_name,
            r.spec_condition() == condition,
            r.spec_field_type() == field_type,
    {
        RuleData { field_name, condition, field_type }
    }

    pub fn field_name(&self) -> (r: &String)
        ensures
            *r == self.spec_field_name(),
    {
        &self.field_name
    }

    pub fn condition(&self) -> (r: ValueCondition)
        ensures
            r == self.spec_condition(),
    {
        self.condition
    }

    pub fn field_type(&self) -> (r: &ValueType)
        ensures
            *r == self.spec_field_type(),
    {
        &self.field_type
    }
}

/// The kind of rule, and so of values, that a column of this type gets.
#[derive(Clone, Copy, Debug, PartialEq, Eq)]
pub enum ColumnKind {
    U8,
    U16,
    U32,
    U64,
    I8,
    I16,
    I32,
    I64,
    F32,
    F64,
    Str,
    Bool,
    DateTime,
}

/// Integer columns take the narrowest type that holds their largest value:
/// signed types when a value is negative, unsigned ones otherwise.
pub open spec fn kind_of(t: ValueType) -> ColumnKind {
    match t {
        ValueType::String(_) => ColumnKind::Str,
        ValueType::Boolean => ColumnKind::Bool,
        ValueType::DateTime(_) => ColumnKind::DateTime,
        ValueType::Number(NumberType::Decimal(DecimalType::F64)) => ColumnKind::F64,
        ValueType::Number(NumberType::Decimal(DecimalType::F32)) => ColumnKind::F32,
        ValueType::Number(NumberType::Integer(d)) => if d.spec_has_negative() {
            if d.spec_max_value() <= 127 {
                ColumnKind::I8
            } else if d.spec_max_value() <= 32767 {
                ColumnKind::I16
            } else if d.spec_max_value() <= 2147483647 {
                ColumnKind::I32
            } else {
                ColumnKind::I64
            }
        } else {
            if d.spec_max_value() <= 255 {
                ColumnKind::U8
            } else if d.spec_max_value() <= 65535 {
                ColumnKind::U16
            } else if d.spec_max_value() <= 4294967295 {
                ColumnKind::U32
            } else {
                ColumnKind::U64
            }
        },
    }
}

/// The integer type a column of integers gets holds the column's largest
/// value and is the narrowest that does: signed exactly when the column has
/// a negative value, and each wider type only for a largest value that the
/// narrower one cannot hold.
pub proof fn law_integer_kind_holds_the_column(d: IntegerData)
    ensures
        ({
            let k = kind_of(ValueType::Number(NumberType::Integer(d)));
            let m = d.spec_max_value();
            if d.spec_has_negative() {
                ||| k == ColumnKind::I8 && m <= i8::MAX
                ||| k == ColumnKind::I16 && i8::MAX < m <= i16::MAX
                ||| k == ColumnKind::I32 && i16::MAX < m <= i32::MAX
                ||| k == ColumnKind::I64 && i32::MAX < m
            } else {
                ||| k == ColumnKind::U8 && m <= u8::MAX
                ||| k == ColumnKind::U16 && u8::MAX < m <= u16::MAX
                ||| k == ColumnKind::U32 && u16::MAX < m <= u32::MAX
                ||| k == ColumnKind::U64 && u32::MAX < m
            }
        }),
{
}

pub open spec fn is_decimal(t: ValueType) -> bool {
    t matches ValueType::Number(NumberType::Decimal(_))
}

pub fn value_kind(t: &ValueType) -> (r: ColumnKind)
    ensures
        r == kind_of(*t),
{
    match t {
        ValueType::String(_) => ColumnKind::Str,
        ValueType::Boolean => ColumnKind::Bool,
        ValueType::DateTime(_) => ColumnKind::DateTime,
        ValueType::Number(NumberType::Decimal(DecimalType::F64)) => ColumnKind::F64,
        ValueType::Number(NumberType::Decimal(DecimalType::F32)) => ColumnKind::F32,
        ValueType::Number(NumberType::Integer(d)) => {
            let max = d.max_value();
            if d.has_negative() {
                if max <= 127 {
                    ColumnKind::I8
                } else if max <= 32767 {
                    ColumnKind::I16
                } else if max <= 2147483647 {
                    ColumnKind::I32
                } else {
                    ColumnKind::I64
                }
            } else {
                if max <= 255 {
                    ColumnKind::U8
                } else if max <= 65535 {
                    ColumnKind::U16
                } else if max <= 4294967295 {
                    ColumnKind::U32
                } else {
                    ColumnKind::U64
                }
            }
        },
    }
}

pub open spec fn seq_result<X>(r: Result<Vec<X>, DtError>) -> Result<Seq<X>, DtError> {
    match r {
        Ok(v) => Ok(v@),
        Err(e) => Err(e),
    }
}

pub open spec fn strings_view(v: Seq<String>) -> Seq<Seq<char>> {
    v.map_values(|s: String| s@)
}

/// Where a decision table's columns and results come from.
pub trait DecisionTableSource {
    /// The source is in a state in which its variants and results can be read.
    spec fn spec_ready(&self) -> bool;

    /// The cells of rule `rule_num` can be read.
    spec fn spec_values_ready(&self, rule_num: usize) -> bool;

    spec fn spec_rules_count(&self) -> Result<usize, DtError>;

    spec fn spec_variants_count(&self) -> Result<usize, DtError>;

    spec fn spec_rule_data(&self, rule_num: usize) -> Result<RuleData, DtError>;

    spec fn spec_result_datas(&self) -> Result<Seq<Seq<char>>, DtError>;

    spec fn spec_u8_values(&self, rule_num: usize) -> Result<Seq<Option<u8>>, DtError>;

    spec fn spec_u16_values(&self, rule_num: usize) -> Result<Seq<Option<u16>>, DtError>;

    spec fn spec_u32_values(&self, rule_num: usize) -> Result<Seq<Option<u32>>, DtError>;

    spec fn spec_u64_values(&self, rule_num: usize) -> Result<Seq<Option<u64>>, DtError>;

    spec fn spec_i8_values(&self, rule_num: usize) -> Result<Seq<Option<i8>>, DtError>;

    spec fn spec_i16_values(&self, rule_num: usize) -> Result<Seq<Option<i16>>, DtError>;

    spec fn spec_i32_values(&self, rule_num: usize) -> Result<Seq<Option<i32>>, DtError>;

    spec fn spec_i64_values(&self, rule_num: usize) -> Result<Seq<Option<i64>>, DtError>;

    spec fn spec_f32_values(&self, rule_num: usize) -> Result<Seq<Option<F32Key>>, DtError>;

    spec fn spec_f64_values(&self, rule_num: usize) -> Result<Seq<Option<F64Key>>, DtError>;

    spec fn spec_string_values(&self, rule_num: usize) -> Result<Seq<Option<String>>, DtError>;

    spec fn spec_bool_values(&self, rule_num: usize) -> Result<Seq<Option<bool>>, DtError>;

    spec fn spec_date_time_values(&self, rule_num: usize) -> Result<Seq<Option<Timestamp>>, DtError>;

    fn get_rules_count(&self) -> (r: Result<usize, DtError>)
        ensures
            r == self.spec_rules_count(),
    ;

    fn get_variants_count(&self) -> (r: Result<usize, DtError>)
        requires
            self.spec_ready(),
        ensures
            r == self.spec_variants_count(),
    ;

    fn get_rule_data(&self, rule_num: usize) -> (r: Result<&RuleData, DtError>)
        ensures
            match r {
                Ok(d) => self.spec_rule_data(rule_num) == Ok::<RuleData, DtError>(*d),
                Err(e) => self.spec_rule_data(rule_num) == Err::<RuleData, DtError>(e),
            },
    ;

    fn get_result_datas(&self) -> (r: Result<Vec<String>, DtError>)
        requires
            self.spec_ready(),
        ensures
            match r {
                Ok(v) => self.spec_result_datas() == Ok::<Seq<Seq<char>>, DtError>(strings_view(v@)),
                Err(e) => self.spec_result_datas() == Err::<Seq<Seq<char>>, DtError>(e),
            },
    ;

    fn get_u8_rule_values(&self, rule_num: usize) -> (r: Result<Vec<Option<u8>>, DtError>)
        requires
            self.spec_values_ready(rule_num),
        ensures
            seq_result(r) == self.spec_u8_values(rule_num),
    ;

    fn get_u16_rule_values(&self, rule_num: usize) -> (r: Result<Vec<Option<u16>>, DtError>)
        requires
            self.spec_values_ready(rule_num),
        ensures
            seq_result(r) == self.spec_u16_values(rule_num),
    ;

    fn get_u32_rule_values(&self, rule_num: usize) -> (r: Result<Vec<Option<u32>>, DtError>)
        requires
            self.spec_values_ready(rule_num),
        ensures
            seq_result(r) == self.spec_u32_values(rule_num),
    ;

    fn get_u64_rule_values(&self, rule_num: usize) -> (r: Result<Vec<Option<u64>>, DtError>)
        requires
            self.spec_values_ready(rule_num),
        ensures
            seq_result(r) == self.spec_u64_values(rule_num),
    ;

    fn get_i8_rule_values(&self, rule_num: usize) -> (r: Result<Vec<Option<i8>>, DtError>)
        requires
            self.spec_values_ready(rule_num),
        ensures
            seq_result(r) == self.spec_i8_values(rule_num),
    ;

    fn get_i16_rule_values(&self, rule_num: usize) -> (r: Result<Vec<Option<i16>>, DtError>)
        requires
            self.spec_values_ready(rule_num),
        ensures
            seq_result(r) == self.spec_i16_values(rule_num),
    ;

    fn get_i32_rule_values(&self, rule_num: usize) -> (r: Result<Vec<Option<i32>>, DtError>)
        requires
            self.spec_values_ready(rule_num),
        ensures
            seq_result(r) == self.spec_i32_values(rule_num),
    ;

    fn get_i64_rule_values(&self, rule_num: usize) -> (r: Result<Vec<Option<i64>>, DtError>)
        requires
            self.spec_values_ready(rule_num),
        ensures
            seq_result(r) == self.spec_i64_values(rule_num),
    ;

    fn get_f32_rule_values(&self, rule_num: usize) -> (r: Result<Vec<Option<F32Key>>, DtError>)
        requires
            self.spec_values_ready(rule_num),
        ensures
            seq_result(r) == self.spec_f32_values(rule_num),
    ;

    fn get_f64_rule_values(&self, rule_num: usize) -> (r: Result<Vec<Option<F64Key>>, DtError>)
        requires
            self.spec_values_ready(rule_num),
        ensures
            seq_result(r) == self.spec_f64_values(rule_num),
    ;

    fn get_string_rule_values(&self, rule_num: usize) -> (r: Result<Vec<Option<String>>, DtError>)
        requires
            self.spec_values_ready(rule_num),
        ensures
            seq_result(r) == self.spec_string_values(rule_num),
    ;

    fn get_bool_rule_values(&self, rule_num: usize) -> (r: Result<Vec<Option<bool>>, DtError>)
        requires
            self.spec_values_ready(rule_num),
        ensures
            seq_result(r) == self.spec_bool_values(rule_num),
    ;

    fn get_date_time_rule_values(&self, rule_num: usize) -> (r: Result<Vec<Option<Timestamp>>, DtError>)
        requires
            (self.spec_rule_data(rule_num) matches Ok(rd) && rd.spec_field_type() is DateTime) ==> self.spec_values_ready(
                rule_num,
            ),
        ensures
            seq_result(r) == self.spec_date_time_values(rule_num),
    ;
}

/// The cells that a source gives for rule `i` of type `t`.
pub open spec fn column_of<S: DecisionTableSource>(src: S, i: usize, t: ValueType) -> Result<
    ColumnValues,
    DtError,
> {
    match kind_of(t) {
        ColumnKind::U8 => match src.spec_u8_values(i) {
            Ok(s) => Ok(ColumnValues::U8(s)),
            Err(e) => Err(e),
        },
        ColumnKind::U16 => match src.spec_u16_values(i) {
            Ok(s) => Ok(ColumnValues::U16(s)),
            Err(e) => Err(e),
        },
        ColumnKind::U32 => match src.spec_u32_values(i) {
            Ok(s) => Ok(ColumnValues::U32(s)),
            Err(e) => Err(e),
        },
        ColumnKind::U64 => match src.spec_u64_values(i) {
            Ok(s) => Ok(ColumnValues::U64(s)),
            Err(e) => Err(e),
        },
        ColumnKind::I8 => match src.spec_i8_values(i) {
            Ok(s) => Ok(ColumnValues::I8(s)),
            Err(e) => Err(e),
        },
        ColumnKind::I16 => match src.spec_i16_values(i) {
            Ok(s) => Ok(ColumnValues::I16(s)),
            Err(e) => Err(e),
        },
        ColumnKind::I32 => match src.spec_i32_values(i) {
            Ok(s) => Ok(ColumnValues::I32(s)),
            Err(e) => Err(e),
        },
        ColumnKind::I64 => match src.spec_i64_values(i) {
            Ok(s) => Ok(ColumnValues::I64(s)),
            Err(e) => Err(e),
        },
        ColumnKind::F32 => match src.spec_f32_values(i) {
            Ok(s) => Ok(ColumnValues::F32(s)),
            Err(e) => Err(e),
        },
        ColumnKind::F64 => match src.spec_f64_values(i) {
            Ok(s) => Ok(ColumnValues::F64(s)),
            Err(e) => Err(e),
        },
        ColumnKind::Str => match src.spec_string_values(i) {
            Ok(s) => Ok(ColumnValues::Str(s)),
            Err(e) => Err(e),
        },
        ColumnKind::Bool => match src.spec_bool_values(i) {
            Ok(s) => Ok(ColumnValues::Bool(s)),
            Err(e) => Err(e),
        },
        ColumnKind::DateTime => match src.spec_date_time_values(i) {
            Ok(s) => Ok(ColumnValues::DateTime(s)),
            Err(e) => Err(e),
        },
    }
}

/// Reading rule `i` of a source into a table of `n` variants: its cells, and
/// their count.
pub open spec fn rule_outcome<S: DecisionTableSource>(src: S, i: usize, n: usize, rd: RuleData) -> Result<
    (),
    DtError,
> {
    match column_of(src, i, rd.spec_field_type()) {
        Err(e) => Err(e),
        Ok(c) => if c.len() != n {
            Err(
                DtError::ValueCountMismatch {
                    field: rd.spec_field_name(),
                    found: c.len() as usize,
                    required: n,
                },
            )
        } else {
            Ok(())
        },
    }
}

/// Whether rule `i` is read without error, and whether it is one that caches.
pub open spec fn rule_step<S: DecisionTableSource>(src: S, i: usize, n: usize) -> Result<bool, DtError> {
    match src.spec_rule_data(i) {
        Err(e) => Err(e),
        Ok(rd) => match rule_outcome(src, i, n, rd) {
            Err(e) => Err(e),
            Ok(_) => Ok(!is_decimal(rd.spec_field_type())),
        },
    }
}

/// The numbers of the first `k` rules, split into those that do not cache
/// and those that do, or the first error met in reading them.
pub open spec fn partition_rules<S: DecisionTableSource>(src: S, n: usize, k: int) -> Result<
    (Seq<usize>, Seq<usize>),
    DtError,
>
    decreases k,
{
    if k <= 0 {
        Ok((Seq::empty(), Seq::empty()))
    } else {
        match partition_rules(src, n, k - 1) {
            Err(e) => Err(e),
            Ok((plain, cached)) => match rule_step(src, (k - 1) as usize, n) {
                Err(e) => Err(e),
                Ok(true) => Ok((plain, cached.push((k - 1) as usize))),
                Ok(false) => Ok((plain.push((k - 1) as usize), cached)),
            },
        }
    }
}

/// `rule` is rule `i` of the source: its field, comparison and cells, and
/// it remembers no answer yet.
pub open spec fn built_from<S: DecisionTableSource>(src: S, i: usize, rule: AnyRule) -> bool {
    match src.spec_rule_data(i) {
        Ok(rd) => {
            &&& rule.field_string() == rd.spec_field_name()
            &&& rule.name() == rd.spec_field_name()@
            &&& rule.cond() == condition_for(rd.spec_condition())
            &&& column_of(src, i, rd.spec_field_type()) == Ok::<ColumnValues, DtError>(rule.column())
            &&& rule.wf()
            &&& rule.cache_len() == 0
        },
        Err(_) => false,
    }
}

/// The two rule builders build one rule: two rules built from rule `i` of a
/// source (as `create_rule_for_type` and `create_cached_rule_for_type` build
/// them) read the same field with the same comparison over the same cells,
/// and neither remembers any answer.
pub proof fn law_builders_build_one_rule<S: DecisionTableSource>(src: S, i: usize, a: AnyRule, b: AnyRule)
    requires
        built_from(src, i, a),
        built_from(src, i, b),
    ensures
        AnyRule::same_rule(a, b),
        a.cache_len() == 0,
        b.cache_len() == 0,
{
}

/// What building a table from a source gives: the number of variants, the
/// numbers of the rules that do not cache and of those that do, and the
/// results; or the first error met.
pub open spec fn create_outcome<S: DecisionTableSource>(src: S) -> Result<
    (usize, Seq<usize>, Seq<usize>, Seq<Seq<char>>),
    DtError,
> {
    match src.spec_variants_count() {
        Err(e) => Err(e),
        Ok(n) => match src.spec_rules_count() {
            Err(e) => Err(e),
            Ok(rc) => match partition_rules(src, n, rc as int) {
                Err(e) => Err(e),
                Ok((plain, cached)) => match src.spec_result_datas() {
                    Err(e) => Err(e),
                    Ok(data) => if n != data.len() {
                        Err(DtError::VariantsCountMismatch { found: data.len() as usize, required: n })
                    } else {
                        Ok((n, plain, cached, data))
                    },
                },
            },
        },
    }
}

proof fn lemma_partition_error<S: DecisionTableSource>(src: S, n: usize, i: int, k: int, e: DtError)
    requires
        0 <= i <= k,
        partition_rules(src, n, i) == Err::<(Seq<usize>, Seq<usize>), DtError>(e),
    ensures
        partition_rules(src, n, k) == Err::<(Seq<usize>, Seq<usize>), DtError>(e),
    decreases k - i,
{
    if i < k {
        lemma_partition_error(src, n, i, k - 1, e);
    }
}

/// A rule of type `T` from rule data and cells, when there is one cell per variant.
pub fn create_rule<T: RuleValue + JsonParseable>(
    rule_data: &RuleData,
    values: Vec<Option<T>>,
    variants_count: usize,
) -> (r: Result<Rule<T>, DtError>)
    ensures
        values@.len() != variants_count ==> r == Err::<Rule<T>, DtError>(
            DtError::ValueCountMismatch {
                field: rule_data.spec_field_name(),
                found: values@.len() as usize,
                required: variants_count,
            },
        ),
        values@.len() == variants_count ==> (r matches Ok(rule) && rule.field_string()
            == rule_data.spec_field_name() && rule.name() == rule_data.spec_field_name()@
            && rule.cond() == condition_for(rule_data.spec_condition()) && rule.vals() == values@
            && rule.wf() && rule.cache_len() == 0),
{
    if values.len() != variants_count {
        return Err(
            DtError::ValueCountMismatch {
                field: rule_data.field_name().clone(),
                found: values.len(),
                required: variants_count,
            },
        );
    }
    Ok(Rule::new(rule_data.field_name().clone(), map_conditions(&rule_data.condition()), values))
}

/// Rule `rule_num` of the source, whatever its type.
#[verifier::spinoff_prover]
#[verifier::rlimit(40)]
pub fn create_rule_for_type<S: DecisionTableSource>(data_source: &S, rule_num: usize, variants_count: usize) -> (r:
    Result<AnyRule, DtError>)
    requires
        data_source.spec_values_ready(rule_num),
    ensures
        match data_source.spec_rule_data(rule_num) {
            Err(e) => r == Err::<AnyRule, DtError>(e),
            Ok(rd) => match rule_outcome(*data_source, rule_num, variants_count, rd) {
                Err(e) => r == Err::<AnyRule, DtError>(e),
                Ok(_) => r matches Ok(rule) && built_from(*data_source, rule_num, rule),
            },
        },
{
    let rule_data = data_source.get_rule_data(rule_num)?;
    match value_kind(&rule_data.field_type) {
        ColumnKind::U8 => {
            let values = data_source.get_u8_rule_values(rule_num)?;
            let rule = create_rule(rule_data, values, variants_count)?;
            Ok(AnyRule::U8(rule))
        },
        ColumnKind::U16 => {
            let values = data_source.get_u16_rule_values(rule_num)?;
            let rule = create_rule(rule_data, values, variants_count)?;
            Ok(AnyRule::U16(rule))
        },
        ColumnKind::U32 => {
            let values = data_source.get_u32_rule_values(rule_num)?;
            let rule = create_rule(rule_data, values, variants_count)?;
            Ok(AnyRule::U32(rule))
        },
        ColumnKind::U64 => {
            let values = data_source.get_u64_rule_values(rule_num)?;
            let rule = create_rule(rule_data, values, variants_count)?;
            Ok(AnyRule::U64(rule))
        },
        ColumnKind::I8 => {
            let values = data_source.get_i8_rule_values(rule_num)?;
            let rule = create_rule(rule_data, values, variants_count)?;
            Ok(AnyRule::I8(rule))
        },
        ColumnKind::I16 => {
            let values = data_source.get_i16_rule_values(rule_num)?;
            let rule = create_rule(rule_data, values, variants_count)?;
            Ok(AnyRule::I16(rule))
        },
        ColumnKind::I32 => {
            let values = data_source.get_i32_rule_values(rule_num)?;
            let rule = create_rule(rule_data, values, variants_count)?;
            Ok(AnyRule::I32(rule))
        },
        ColumnKind::I64 => {
            let values = data_source.get_i64_rule_values(rule_num)?;
            let rule = create_rule(rule_data, values, variants_count)?;
            Ok(AnyRule::I64(rule))
        },
        ColumnKind::F32 => {
            let values = data_source.get_f32_rule_values(rule_num)?;
            let rule = create_rule(rule_data, values, variants_count)?;
            Ok(AnyRule::F32(rule))
        },
        ColumnKind::F64 => {
            let values = data_source.get_f64_rule_values(rule_num)?;
            let rule = create_rule(rule_data, values, variants_count)?;
            Ok(AnyRule::F64(rule))
        },
        ColumnKind::Str => {
            let values = data_source.get_string_rule_values(rule_num)?;
            let rule = create_rule(rule_data, values, variants_count)?;
            Ok(AnyRule::Str(rule))
        },
        ColumnKind::Bool => {
            let values = data_source.get_bool_rule_values(rule_num)?;
            let rule = create_rule(rule_data, values, variants_count)?;
            Ok(AnyRule::Bool(rule))
        },
        ColumnKind::DateTime => {
            let values = data_source.get_date_time_rule_values(rule_num)?;
            let rule = create_rule(rule_data, values, variants_count)?;
            Ok(AnyRule::DateTime(rule))
        },
    }
}

/// Rule `rule_num` of the source when it is one that caches; none for a
/// decimal column, whose cells are not read here.
pub fn create_cached_rule_for_type<S: DecisionTableSource>(
    data_source: &S,
    rule_num: usize,
    variants_count: usize,
) -> (r: Result<Option<AnyRule>, DtError>)
    requires
        (data_source.spec_rule_data(rule_num) matches Ok(rd) && !is_decimal(rd.spec_field_type()))
            ==> data_source.spec_values_ready(rule_num),
    ensures
        match data_source.spec_rule_data(rule_num) {
            Err(e) => r == Err::<Option<AnyRule>, DtError>(e),
            Ok(rd) => if is_decimal(rd.spec_field_type()) {
                r == Ok::<Option<AnyRule>, DtError>(None)
            } else {
                match rule_outcome(*data_source, rule_num, variants_count, rd) {
                    Err(e) => r == Err::<Option<AnyRule>, DtError>(e),
                    Ok(_) => r matches Ok(Some(rule)) && built_from(*data_source, rule_num, rule)
                        && rule.is_cacheable(),
                }
            },
        },
{
    let rule_data = data_source.get_rule_data(rule_num)?;
    match value_kind(&rule_data.field_type) {
        ColumnKind::U8 => {
            let values = data_source.get_u8_rule_values(rule_num)?;
            let rule = create_rule(rule_data, values, variants_count)?;
            Ok(Some(AnyRule::U8(rule)))
        },
        ColumnKind::U16 => {
            let values = data_source.get_u16_rule_values(rule_num)?;
            let rule = create_rule(rule_data, values, variants_count)?;
            Ok(Some(AnyRule::U16(rule)))
        },
        ColumnKind::U32 => {
            let values = data_source.get_u32_rule_values(rule_num)?;
            let rule = create_rule(rule_data, values, variants_count)?;
            Ok(Some(AnyRule::U32(rule)))
        },
        ColumnKind::U64 => {
            let values = data_source.get_u64_rule_values(rule_num)?;
            let rule = create_rule(rule_data, values, variants_count)?;
            Ok(Some(AnyRule::U64(rule)))
        },
        ColumnKind::I8 => {
            let values = data_source.get_i8_rule_values(rule_num)?;
            let rule = create_rule(rule_data, values, variants_count)?;
            Ok(Some(AnyRule::I8(rule)))
        },
        ColumnKind::I16 => {
            let values = data_source.get_i16_rule_values(rule_num)?;
            let rule = create_rule(rule_data, values, variants_count)?;
            Ok(Some(AnyRule::I16(rule)))
        },
        ColumnKind::I32 => {
            let values = data_source.get_i32_rule_values(rule_num)?;
            let rule = create_rule(rule_data, values, variants_count)?;
            Ok(Some(AnyRule::I32(rule)))
        },
        ColumnKind::I64 => {
            let values = data_source.get_i64_rule_values(rule_num)?;
            let rule = create_rule(rule_data, values, variants_count)?;
            Ok(Some(AnyRule::I64(rule)))
        },
        ColumnKind::F32 => Ok(None),
        ColumnKind::F64 => Ok(None),
        ColumnKind::Str => {
            let values = data_source.get_string_rule_values(rule_num)?;
            let rule = create_rule(rule_data, values, variants_count)?;
            Ok(Some(AnyRule::Str(rule)))
        },
        ColumnKind::Bool => {
            let values = data_source.get_bool_rule_values(rule_num)?;
            let rule = create_rule(rule_data, values, variants_count)?;
            Ok(Some(AnyRule::Bool(rule)))
        },
        ColumnKind::DateTime => {
            let values = data_source.get_date_time_rule_values(rule_num)?;
            let rule = create_rule(rule_data, values, variants_count)?;
            Ok(Some(AnyRule::DateTime(rule)))
        },
    }
}

/// A sequence whose items can be read by their position.
pub trait OrderedSeq<T: View> {
    spec fn spec_len(&self) -> nat;

    spec fn spec_item(&self, index: int) -> Option<T::V>;

    fn item(&self, index: usize) -> (r: Option<T>)
        ensures
            match r {
                Some(x) => self.spec_item(index as int) == Some(x@),
                None => self.spec_item(index as int) == None::<T::V>,
            },
    ;

    fn len(&self) -> (r: usize)
        ensures
            r == self.spec_len(),
    ;
}

impl OrderedSeq<String> for Vec<String> {
    open spec fn spec_len(&self) -> nat {
        self@.len()
    }

    open spec fn spec_item(&self, index: int) -> Option<Seq<char>> {
        if 0 <= index < self@.len() {
            Some(self@[index]@)
        } else {
            None
        }
    }

    fn item(&self, index: usize) -> (r: Option<String>) {
        if index < self.len() {
            Some(self[index].clone())
        } else {
            None
        }
    }

    fn len(&self) -> (r: usize) {
        self.len()
    }
}

/// `"name": "value"`.
pub open spec fn csv_entry(name: Seq<char>, value: Seq<char>) -> Seq<char> {
    seq!['"'] + name + seq!['"', ':', ' ', '"'] + value + seq!['"']
}

/// The first `k` entries of a row, each but the last of the names followed
/// by `, `.
pub open spec fn csv_fields(names: Seq<Seq<char>>, row: Seq<Seq<char>>, k: nat) -> Seq<char>
    decreases k,
{
    if k == 0 {
        Seq::empty()
    } else {
        csv_fields(names, row, (k - 1) as nat) + csv_entry(names[k - 1], row[k - 1]) + (if k
            < names.len() {
            seq![',', ' ']
        } else {
            Seq::empty()
        })
    }
}

/// A row as a JSON-like object: its values paired with the names in order,
/// as far as both go, between braces.
pub open spec fn csv_row(names: Seq<Seq<char>>, row: Seq<Seq<char>>) -> Seq<char> {
    let k = if names.len() <= row.len() {
        names.len()
    } else {
        row.len()
    };
    seq!['{'] + csv_fields(names, row, k) + seq!['}']
}

/// Results read as rows of named values.
pub struct CSVData {
    names: Vec<String>,
    data: Vec<Vec<String>>,
}

impl CSVData {
    pub closed spec fn spec_names(self) -> Seq<Seq<char>> {
        strings_view(self.names@)
    }

    pub closed spec fn spec_rows(self) -> Seq<Seq<Seq<char>>> {
        self.data@.map_values(|row: Vec<String>| strings_view(row@))
    }

    pub fn new(names: Vec<String>, data: Vec<Vec<String>>) -> (r: CSVData)
        ensures
            r.spec_names() == strings_view(names@),
            r.spec_rows() == data@.map_values(|row: Vec<String>| strings_view(row@)),
    {
        CSVData { names, data }
    }
}

impl OrderedSeq<String> for CSVData {
    open spec fn spec_len(&self) -> nat {
        self.spec_rows().len()
    }

    open spec fn spec_item(&self, index: int) -> Option<Seq<char>> {
        if 0 <= index < self.spec_rows().len() {
            Some(csv_row(self.spec_names(), self.spec_rows()[index]))
        } else {
            None
        }
    }

    fn item(&self, index: usize) -> (r: Option<String>) {
        if index >= self.data.len() {
            return None;
        }
        let row = &self.data[index];
        let ghost names = self.spec_names();
        let ghost values = strings_view(row@);
        let mut result = String::new();
        proof {
            reveal_strlit("{");
            reveal_strlit("}");
            reveal_strlit("\"");
            reveal_strlit("\": \"");
            reveal_strlit(", ");
            assert("{"@ =~= seq!['{']);
            assert("}"@ =~= seq!['}']);
            assert("\""@ =~= seq!['"']);
            assert("\": \""@ =~= seq!['"', ':', ' ', '"']);
            assert(", "@ =~= seq![',', ' ']);
        }
        result.append("{");
        let n = if self.names.len() <= row.len() {
            self.names.len()
        } else {
            row.len()
        };
        let mut i: usize = 0;
        while i < n
            invariant
                i <= n,
                n <= self.names@.len(),
                n <= row@.len(),
                names == strings_view(self.names@),
                values == strings_view(row@),
                result@ == seq!['{'] + csv_fields(names, values, i as nat),
            decreases n - i,
        {
            proof {
                reveal_strlit("\"");
                reveal_strlit("\": \"");
                reveal_strlit(", ");
                assert("\""@ =~= seq!['"']);
                assert("\": \""@ =~= seq!['"', ':', ' ', '"']);
                assert(", "@ =~= seq![',', ' ']);
            }
            assert(names[i as int] == self.names@[i as int]@);
            assert(values[i as int] == row@[i as int]@);
            result.append("\"");
            result.append(self.names[i].as_str());
            result.append("\": \"");
            result.append(row[i].as_str());
            result.append("\"");
            if i + 1 < self.names.len() {
                result.append(", ");
            }
            proof {
                assert(result@ =~= seq!['{'] + csv_fields(names, values, (i + 1) as nat));
            }
            i = i + 1;
        }
        result.append("}");
        proof {
            assert(self.spec_rows()[index as int] == values);
            assert(result@ =~= csv_row(names, values));
        }
        Some(result)
    }

    fn len(&self) -> (r: usize) {
        self.data.len()
    }
}

/// Every rule of `rules` accepts the query `q` at the variant.
pub open spec fn all_accept(rules: Seq<AnyRule>, q: JsonValue) -> spec_fn(usize) -> bool {
    |i: usize| forall|k: int| 0 <= k < rules.len() ==> #[trigger] rules[k].accepts_query(q, i as int)
}

/// The error of the first rule of `rules` that cannot read the query.
pub open spec fn first_error(rules: Seq<AnyRule>, q: JsonValue) -> Option<DtError>
    decreases rules.len(),
{
    if rules.len() == 0 {
        None
    } else {
        match first_error(rules.drop_last(), q) {
            Some(e) => Some(e),
            None => rules.last().query_error(q),
        }
    }
}

/// A first error of a prefix is the first error of the whole.
pub proof fn lemma_first_error_prefix(rules: Seq<AnyRule>, q: JsonValue, j: int)
    requires
        0 <= j <= rules.len(),
        first_error(rules.take(j), q) is Some,
    ensures
        first_error(rules, q) == first_error(rules.take(j), q),
    decreases rules.len() - j,
{
    if j < rules.len() {
        assert(rules.drop_last().take(j) =~= rules.take(j));
        lemma_first_error_prefix(rules.drop_last(), q, j);
    } else {
        assert(rules.take(j) =~= rules);
    }
}

/// Filtering by the rules one after another keeps what all of them accept.
pub proof fn lemma_all_accept_push(rules: Seq<AnyRule>, r: AnyRule, q: JsonValue, s: Seq<usize>)
    ensures
        s.filter(all_accept(rules, q)).filter(r.acceptor(q)) == s.filter(all_accept(rules.push(r), q)),
{
    lemma_filter_filter(s, all_accept(rules, q), r.acceptor(q));
    let both = |x: usize| all_accept(rules, q)(x) && r.acceptor(q)(x);
    assert forall|x: usize| #[trigger] both(x) == all_accept(rules.push(r), q)(x) by {
        if both(x) {
            assert forall|k: int| 0 <= k < rules.push(r).len() implies #[trigger] rules.push(
                r,
            )[k].accepts_query(q, x as int) by {
                if k < rules.len() {
                    assert(rules.push(r)[k] == rules[k]);
                }
            }
        }
        if all_accept(rules.push(r), q)(x) {
            assert forall|k: int| 0 <= k < rules.len() implies #[trigger] rules[k].accepts_query(
                q,
                x as int,
            ) by {
                assert(rules.push(r)[k] == rules[k]);
            }
            assert(rules.push(r)[rules.len() as int] == r);
        }
    }
    assert(both =~= all_accept(rules.push(r), q));
}

/// No rule: every variant is kept.
pub proof fn lemma_all_accept_empty(q: JsonValue, s: Seq<usize>)
    ensures
        s.filter(all_accept(Seq::<AnyRule>::empty(), q)) == s,
    decreases s.len(),
{
    reveal(Seq::filter);
    if s.len() > 0 {
        lemma_all_accept_empty(q, s.drop_last());
    }
}

/// What `positions(0, n).filter(f)` holds lies below `n`.
pub proof fn lemma_filtered_positions(n: nat, f: spec_fn(usize) -> bool)
    ensures
        forall|k: int|
            0 <= k < positions(0, n).filter(f).len() ==> #[trigger] positions(0, n).filter(f)[k]
                < n && f(positions(0, n).filter(f)[k]),
        forall|x: usize| x < n ==> (positions(0, n).filter(f).contains(x) <==> f(x)),
{
    let p = positions(0, n);
    assert forall|k: int| 0 <= k < p.filter(f).len() implies #[trigger] p.filter(f)[k] < n && f(
        p.filter(f)[k],
    ) by {
        p.lemma_filter_pred(f, k);
        assert(p.filter(f).contains(p.filter(f)[k]));
        p.lemma_filter_contains_rev(f, p.filter(f)[k]);
    }
    assert forall|x: usize| x < n implies (p.filter(f).contains(x) <==> f(x)) by {
        assert(p[x as int] == x);
        if f(x) {
            p.lemma_filter_contains(f, x as int);
        }
        if p.filter(f).contains(x) {
            let k = choose|k: int| 0 <= k < p.filter(f).len() && p.filter(f)[k] == x;
            p.lemma_filter_pred(f, k);
        }
    }
}

/// When the first rules read the query, the first error is that of the others.
pub proof fn lemma_first_error_plain(a: Seq<AnyRule>, b: Seq<AnyRule>, q: JsonValue)
    requires
        first_error(a, q) is None,
    ensures
        first_error(a + b, q) == first_error(b, q),
    decreases b.len(),
{
    if b.len() == 0 {
        assert(a + b =~= a);
    } else {
        assert((a + b).drop_last() =~= a + b.drop_last());
        lemma_first_error_plain(a, b.drop_last(), q);
    }
}

/// Rules that are the same read queries alike and accept alike.
pub proof fn lemma_same_rule_agrees(a: AnyRule, b: AnyRule, q: JsonValue)
    requires
        AnyRule::same_rule(a, b),
    ensures
        a.query_error(q) == b.query_error(q),
        a.acceptor(q) == b.acceptor(q),
        a.values_len() == b.values_len(),
{
    match (a, b) {
        (AnyRule::U8(x), AnyRule::U8(y)) => {
            assert(x.query_acceptor(q) =~= y.query_acceptor(q));
        },
        (AnyRule::U16(x), AnyRule::U16(y)) => {
            assert(x.query_acceptor(q) =~= y.query_acceptor(q));
        },
        (AnyRule::U32(x), AnyRule::U32(y)) => {
            assert(x.query_acceptor(q) =~= y.query_acceptor(q));
        },
        (AnyRule::U64(x), AnyRule::U64(y)) => {
            assert(x.query_acceptor(q) =~= y.query_acceptor(q));
        },
        (AnyRule::I8(x), AnyRule::I8(y)) => {
            assert(x.query_acceptor(q) =~= y.query_acceptor(q));
        },
        (AnyRule::I16(x), AnyRule::I16(y)) => {
            assert(x.query_acceptor(q) =~= y.query_acceptor(q));
        },
        (AnyRule::I32(x), AnyRule::I32(y)) => {
            assert(x.query_acceptor(q) =~= y.query_acceptor(q));
        },
        (AnyRule::I64(x), AnyRule::I64(y)) => {
            assert(x.query_acceptor(q) =~= y.query_acceptor(q));
        },
        (AnyRule::F32(x), AnyRule::F32(y)) => {
            assert(x.query_acceptor(q) =~= y.query_acceptor(q));
        },
        (AnyRule::F64(x), AnyRule::F64(y)) => {
            assert(x.query_acceptor(q) =~= y.query_acceptor(q));
        },
        (AnyRule::Str(x), AnyRule::Str(y)) => {
            assert(x.query_acceptor(q) =~= y.query_acceptor(q));
        },
        (AnyRule::Bool(x), AnyRule::Bool(y)) => {
            assert(x.query_acceptor(q) =~= y.query_acceptor(q));
        },
        (AnyRule::DateTime(x), AnyRule::DateTime(y)) => {
            assert(x.query_acceptor(q) =~= y.query_acceptor(q));
        },
        _ => {},
    }
    assert(a.acceptor(q) =~= b.acceptor(q));
}

/// The sequence `s` without the elements that `t` lacks.
fn intersect(s: &Vec<usize>, t: &Vec<usize>) -> (r: Vec<usize>)
    ensures
        r@ == s@.filter(|x: usize| t@.contains(x)),
{
    let ghost pred = |x: usize| t@.contains(x);
    let mut result: Vec<usize> = Vec::new();
    let mut k: usize = 0;
    while k < s.len()
        invariant
            k <= s@.len(),
            pred == (|x: usize| t@.contains(x)),
            result@ == s@.take(k as int).filter(pred),
        decreases s@.len() - k,
    {
        proof {
            assert(s@.take(k + 1) =~= s@.take(k as int).push(s@[k as int]));
            s@.take(k as int).lemma_filter_push(s@[k as int], pred);
        }
        let x = s[k];
        let mut found = false;
        let mut j: usize = 0;
        while j < t.len()
            invariant
                j <= t@.len(),
                found == (exists|m: int| 0 <= m < j && t@[m] == x),
            decreases t@.len() - j,
        {
            if t[j] == x {
                found = true;
            }
            j = j + 1;
        }
        if found {
            result.push(x);
        }
        k = k + 1;
    }
    assert(s@.take(s@.len() as int) =~= s@);
    result
}


/// A stage of the parallel check can run: at most 2000 indices are checked
/// in place, and more are cut into `(count / 4000) as u8` chunks, which must
/// not be zero.
pub open spec fn stage_ok(count: nat) -> bool {
    count <= 2000 || (count / 4000) % 256 != 0
}

/// Each stage `m` in `lo..hi` of checking the rules `all` in turn over `n`
/// variants that is reached (rules `0..=m` read the query) can run on the
/// variants that the rules before it accept.
pub open spec fn stages_ok(all: Seq<AnyRule>, n: nat, q: JsonValue, lo: int, hi: int) -> bool {
    forall|m: int|
        lo <= m < hi && first_error(all.take(m + 1), q) is None ==> stage_ok(
            #[trigger] positions(0, n).filter(all_accept(all.take(m), q)).len(),
        )
}

/// Filters `indices`, the variants that the rules `all.take(offset)` accept,
/// by `rules`, which are `all[offset..]`.
fn filter_by_rules(
    rules: &Vec<AnyRule>,
    value: &JsonValue,
    indices: Vec<usize>,
    n: usize,
    parallel: bool,
    Ghost(all): Ghost<Seq<AnyRule>>,
    Ghost(offset): Ghost<int>,
) -> (r: Result<Vec<usize>, DtError>)
    requires
        0 <= offset,
        offset + rules@.len() <= all.len(),
        forall|j: int| 0 <= j < rules@.len() ==> all[offset + j] == #[trigger] rules@[j],
        forall|j: int| 0 <= j < rules@.len() ==> (#[trigger] rules@[j]).values_len() == n,
        first_error(all.take(offset), *value) is None,
        indices@ == positions(0, n as nat).filter(all_accept(all.take(offset), *value)),
        parallel ==> forall|m: int|
            offset <= m < offset + rules@.len() && first_error(all.take(m + 1), *value) is None
                ==> stage_ok(#[trigger] positions(0, n as nat).filter(all_accept(all.take(m), *value)).len()),
    ensures
        match first_error(all.take(offset + rules@.len()), *value) {
            Some(e) => r == Err::<Vec<usize>, DtError>(e),
            None => r matches Ok(v) && v@ == positions(0, n as nat).filter(
                all_accept(all.take(offset + rules@.len()), *value),
            ),
        },
{
    let ghost q = *value;
    let mut indices = indices;
    let mut j: usize = 0;
    while j < rules.len()
        invariant
            0 <= offset,
            offset + rules@.len() <= all.len(),
            forall|j: int| 0 <= j < rules@.len() ==> all[offset + j] == #[trigger] rules@[j],
            forall|j: int| 0 <= j < rules@.len() ==> (#[trigger] rules@[j]).values_len() == n,
            parallel ==> forall|m: int|
                offset <= m < offset + rules@.len() && first_error(all.take(m + 1), *value) is None
                    ==> stage_ok(#[trigger] positions(0, n as nat).filter(all_accept(all.take(m), *value)).len()),
            q == *value,
            j <= rules@.len(),
            first_error(all.take(offset + j), q) is None,
            indices@ == positions(0, n as nat).filter(all_accept(all.take(offset + j), q)),
        decreases rules@.len() - j,
    {
        let ghost m = offset + j;
        proof {
            lemma_filtered_positions(n as nat, all_accept(all.take(m), q));
            assert(all[m] == rules@[j as int]);
            assert(all.take(m + 1) =~= all.take(m).push(all[m]));
            assert(all.take(m + 1).drop_last() =~= all.take(m));
        }
        let step = if parallel && indices.len() > 2000 {
            let threads_count = ((indices.len() / 4000) % 256) as u8;
            proof {
                if first_error(all.take(m + 1), q) is None {
                    assert(stage_ok(positions(0, n as nat).filter(all_accept(all.take(m), q)).len()));
                    let c = indices@.len();
                    assert(threads_count as int <= c / 4000);
                    assert(c / (threads_count as nat) >= 1) by (nonlinear_arith)
                        requires
                            threads_count as int <= c / 4000,
                            threads_count > 0,
                            c > 2000,
                    ;
                }
            }
            if threads_count == 0 {
                proof {
                    assert(first_error(all.take(m + 1), q) is Some);
                }
                rules[j].check_indices(value, &indices)
            } else {
                rules[j].check_all_multi_thread(value, &indices, threads_count)
            }
        } else {
            rules[j].check_indices(value, &indices)
        };
        match step {
            Ok(indices_new) => {
                proof {
                    lemma_all_accept_push(all.take(m), all[m], q, positions(0, n as nat));
                }
                indices = indices_new;
            },
            Err(e) => {
                proof {
                    lemma_first_error_prefix(all.take(offset + rules@.len()), q, m + 1);
                    assert(all.take(offset + rules@.len()).take(m + 1) =~= all.take(m + 1));
                }
                return Err(e);
            },
        }
        j = j + 1;
    }
    indices_ok(indices)
}

/// Runs the stages of `rules`, which are `all[offset..]`, one after another
/// as the parallel check would: the variants left at the end when every
/// stage can run and every rule reads the query; `Err(true)` when a rule
/// cannot read the query, all stages before it being able to run; and
/// `Err(false)` when a stage that is reached cannot run.
fn stages_defined(
    rules: &Vec<AnyRule>,
    value: &JsonValue,
    indices: Vec<usize>,
    n: usize,
    Ghost(all): Ghost<Seq<AnyRule>>,
    Ghost(offset): Ghost<int>,
) -> (r: Result<Vec<usize>, bool>)
    requires
        0 <= offset,
        offset + rules@.len() <= all.len(),
        forall|j: int| 0 <= j < rules@.len() ==> all[offset + j] == #[trigger] rules@[j],
        forall|j: int| 0 <= j < rules@.len() ==> (#[trigger] rules@[j]).values_len() == n,
        first_error(all.take(offset), *value) is None,
        indices@ == positions(0, n as nat).filter(all_accept(all.take(offset), *value)),
    ensures
        match r {
            Ok(v) => {
                &&& first_error(all.take(offset + rules@.len()), *value) is None
                &&& v@ == positions(0, n as nat).filter(all_accept(all.take(offset + rules@.len()), *value))
                &&& forall|m: int|
                    offset <= m < offset + rules@.len() ==> stage_ok(
                        #[trigger] positions(0, n as nat).filter(all_accept(all.take(m), *value)).len(),
                    )
            },
            Err(b) => b == stages_ok(all, n as nat, *value, offset, all.len() as int),
        },
{
    let ghost q = *value;
    let mut indices = indices;
    let mut j: usize = 0;
    while j < rules.len()
        invariant
            0 <= offset,
            offset + rules@.len() <= all.len(),
            forall|j: int| 0 <= j < rules@.len() ==> all[offset + j] == #[trigger] rules@[j],
            forall|j: int| 0 <= j < rules@.len() ==> (#[trigger] rules@[j]).values_len() == n,
            q == *value,
            j <= rules@.len(),
            first_error(all.take(offset + j), q) is None,
            indices@ == positions(0, n as nat).filter(all_accept(all.take(offset + j), q)),
            forall|m: int|
                offset <= m < offset + j ==> stage_ok(
                    #[trigger] positions(0, n as nat).filter(all_accept(all.take(m), q)).len(),
                ),
        decreases rules@.len() - j,
    {
        let ghost m = offset + j;
        proof {
            lemma_filtered_positions(n as nat, all_accept(all.take(m), q));
            assert(all[m] == rules@[j as int]);
            assert(all.take(m + 1) =~= all.take(m).push(all[m]));
            assert(all.take(m + 1).drop_last() =~= all.take(m));
        }
        let count = indices.len();
        match rules[j].check_indices(value, &indices) {
            Err(_) => {
                proof {
                    assert forall|k: int|
                        offset <= k < all.len() && first_error(all.take(k + 1), q) is None implies stage_ok(
                        #[trigger] positions(0, n as nat).filter(all_accept(all.take(k), q)).len(),
                    ) by {
                        if k >= m {
                            lemma_first_error_prefix(all.take(k + 1), q, m + 1);
                            assert(all.take(k + 1).take(m + 1) =~= all.take(m + 1));
                        }
                    }
                }
                return Err(true);
            },
            Ok(indices_new) => {
                if !(count <= 2000 || (count / 4000) % 256 != 0) {
                    return Err(false);
                }
                proof {
                    lemma_all_accept_push(all.take(m), all[m], q, positions(0, n as nat));
                }
                indices = indices_new;
            },
        }
        j = j + 1;
    }
    Ok(indices)
}

fn indices_ok(v: Vec<usize>) -> (r: Result<Vec<usize>, DtError>)
    ensures
        r == Ok::<Vec<usize>, DtError>(v),
{
    Ok(v)
}

/// A decision table: rules over the variants of a table, and the result of
/// each variant.
pub struct DecisionTable {
    rules: Vec<AnyRule>,
    cached_rules: Vec<AnyRule>,
    data: Vec<String>,
    variants_count: usize,
}

impl DecisionTable {
    /// The rules that do not remember answers (those of decimal columns).
    pub closed spec fn plain_rules(self) -> Seq<AnyRule> {
        self.rules@
    }

    /// The rules that remember answers.
    pub closed spec fn cached(self) -> Seq<AnyRule> {
        self.cached_rules@
    }

    pub closed spec fn results(self) -> Seq<Seq<char>> {
        strings_view(self.data@)
    }

    pub closed spec fn variants(self) -> nat {
        self.variants_count as nat
    }

    /// A table always keeps its shape: see `wf`.
    #[verifier::type_invariant]
    spec fn keeps_shape(self) -> bool {
        self.wf()
    }

    /// Every rule has one cell per variant and remembers only right answers,
    /// and every variant has a result.
    pub closed spec fn wf(self) -> bool {
        &&& self.data@.len() == self.variants_count
        &&& forall|k: int|
            0 <= k < self.rules@.len() ==> (#[trigger] self.rules@[k]).wf() && self.rules@[k].values_len()
                == self.variants_count
        &&& forall|k: int|
            0 <= k < self.cached_rules@.len() ==> (#[trigger] self.cached_rules@[k]).wf()
                && self.cached_rules@[k].values_len() == self.variants_count
    }

    pub open spec fn all_rules(self) -> Seq<AnyRule> {
        self.plain_rules() + self.cached()
    }

    /// The variants, in order, that every rule of `rules` accepts for `q`.
    pub open spec fn selected_by(self, rules: Seq<AnyRule>, q: JsonValue) -> Seq<usize> {
        positions(0, self.variants()).filter(all_accept(rules, q))
    }

    /// The results of the variants `sel`.
    pub open spec fn answer(self, sel: Seq<usize>) -> Seq<Seq<char>> {
        sel.map_values(|i: usize| self.results()[i as int])
    }

    /// Every stage of the parallel check that is reached can run.
    pub open spec fn parallel_defined(self, q: JsonValue) -> bool {
        stages_ok(self.all_rules(), self.variants(), q, 0, self.all_rules().len() as int)
    }

    /// `b` is `a`, whatever its rules remember.
    pub open spec fn same_table(a: DecisionTable, b: DecisionTable) -> bool {
        &&& a.variants() == b.variants()
        &&& a.results() == b.results()
        &&& a.plain_rules() == b.plain_rules()
        &&& a.cached().len() == b.cached().len()
        &&& forall|k: int|
            0 <= k < a.cached().len() ==> AnyRule::same_rule(#[trigger] a.cached()[k], b.cached()[k])
    }

    /// Builds the table from a source: each rule in turn (a decimal column's
    /// rule does not cache, any other does), then the results, whose number
    /// must be that of the variants.
    pub fn create<S: DecisionTableSource>(data_source: S) -> (r: Result<DecisionTable, DtError>)
        requires
            data_source.spec_ready(),
            forall|i: usize|
                (data_source.spec_rules_count() matches Ok(c) && i < c) ==> #[trigger] data_source.spec_values_ready(i),
        ensures
            match create_outcome(data_source) {
                Err(e) => r is Err && r == Err::<DecisionTable, DtError>(e),
                Ok((n, plain, cached, data)) => r matches Ok(dt) && {
                    &&& dt.wf()
                    &&& dt.variants() == n
                    &&& dt.results() == data
                    &&& dt.plain_rules().len() == plain.len()
                    &&& dt.cached().len() == cached.len()
                    &&& forall|j: int|
                        0 <= j < plain.len() ==> built_from(
                            data_source,
                            #[trigger] plain[j],
                            dt.plain_rules()[j],
                        )
                    &&& forall|j: int|
                        0 <= j < cached.len() ==> built_from(
                            data_source,
                            #[trigger] cached[j],
                            dt.cached()[j],
                        )
                },
            },
    {
        let variants_count = data_source.get_variants_count()?;
        let rules_count = data_source.get_rules_count()?;
        let mut rules: Vec<AnyRule> = Vec::new();
        let mut cached_rules: Vec<AnyRule> = Vec::new();
        let ghost mut plain_nums: Seq<usize> = Seq::empty();
        let ghost mut cached_nums: Seq<usize> = Seq::empty();
        let mut i: usize = 0;
        while i < rules_count
            invariant
                i <= rules_count,
                data_source.spec_ready(),
                forall|i: usize|
                    (data_source.spec_rules_count() matches Ok(c) && i < c) ==> #[trigger] data_source.spec_values_ready(i),
                data_source.spec_variants_count() == Ok::<usize, DtError>(variants_count),
                data_source.spec_rules_count() == Ok::<usize, DtError>(rules_count),
                partition_rules(data_source, variants_count, i as int) == Ok::<
                    (Seq<usize>, Seq<usize>),
                    DtError,
                >((plain_nums, cached_nums)),
                rules@.len() == plain_nums.len(),
                cached_rules@.len() == cached_nums.len(),
                forall|j: int|
                    0 <= j < plain_nums.len() ==> built_from(
                        data_source,
                        #[trigger] plain_nums[j],
                        rules@[j],
                    ) && rules@[j].values_len() == variants_count,
                forall|j: int|
                    0 <= j < cached_nums.len() ==> built_from(
                        data_source,
                        #[trigger] cached_nums[j],
                        cached_rules@[j],
                    ),
                forall|j: int|
                    0 <= j < cached_nums.len() ==> (#[trigger] cached_rules@[j]).values_len() == variants_count,
            decreases rules_count - i,
        {
            match create_cached_rule_for_type(&data_source, i, variants_count) {
                Err(e) => {
                    proof {
                        lemma_partition_error(data_source, variants_count, i + 1, rules_count as int, e);
                    }
                    return Err(e);
                },
                Ok(Some(rule)) => {
                    assert(built_from(data_source, i, rule));
                    assert(rule.values_len() == variants_count);
                    let ghost old_nums = cached_nums;
                    let ghost old_rules = cached_rules@;
                    proof {
                        cached_nums = cached_nums.push(i);
                    }
                    cached_rules.push(rule);
                    proof {
                        assert(cached_nums[old_nums.len() as int] == i);
                        assert forall|j: int| 0 <= j < cached_nums.len() implies built_from(
                            data_source,
                            #[trigger] cached_nums[j],
                            cached_rules@[j],
                        ) && cached_rules@[j].values_len() == variants_count by {
                            if j < old_nums.len() {
                                assert(cached_nums[j] == old_nums[j]);
                                assert(cached_rules@[j] == old_rules[j]);
                            }
                        }
                    }
                },
                Ok(None) => {
                    let ghost old_cached_nums = cached_nums;
                    match create_rule_for_type(&data_source, i, variants_count) {
                        Err(e) => {
                            proof {
                                lemma_partition_error(
                                    data_source,
                                    variants_count,
                                    i + 1,
                                    rules_count as int,
                                    e,
                                );
                            }
                            return Err(e);
                        },
                        Ok(rule) => {
                            let ghost old_nums = plain_nums;
                            let ghost old_rules = rules@;
                            proof {
                                plain_nums = plain_nums.push(i);
                            }
                            rules.push(rule);
                            proof {
                                assert(plain_nums[old_nums.len() as int] == i);
                                assert forall|j: int| 0 <= j < plain_nums.len() implies built_from(
                                    data_source,
                                    #[trigger] plain_nums[j],
                                    rules@[j],
                                ) && rules@[j].values_len() == variants_count by {
                                    if j < old_nums.len() {
                                        assert(plain_nums[j] == old_nums[j]);
                                        assert(rules@[j] == old_rules[j]);
                                    }
                                }
                                assert(cached_nums == old_cached_nums);
                            }
                        },
                    }
                },
            }
            i = i + 1;
        }
        proof {
            assert forall|k: int| 0 <= k < rules@.len() implies (#[trigger] rules@[k]).wf()
                && rules@[k].values_len() == variants_count by {
                assert(built_from(data_source, plain_nums[k], rules@[k]));
            }
            assert forall|k: int| 0 <= k < cached_rules@.len() implies (
            #[trigger] cached_rules@[k]).wf() && cached_rules@[k].values_len() == variants_count by {
                assert(built_from(data_source, cached_nums[k], cached_rules@[k]));
            }
        }
        let data = data_source.get_result_datas()?;
        proof {
            assert(strings_view(data@).len() == data@.len());
        }
        if variants_count != data.len() {
            return Err(
                DtError::VariantsCountMismatch { found: data.len(), required: variants_count },
            );
        }
        assert(data@.len() == variants_count);
        let dt = DecisionTable { rules, cached_rules, data, variants_count };
        assert(create_outcome(data_source) == Ok::<
            (usize, Seq<usize>, Seq<usize>, Seq<Seq<char>>),
            DtError,
        >((variants_count, plain_nums, cached_nums, strings_view(dt.data@))));
        assert(dt.wf());
        Ok(dt)
    }

    /// The results of the variants in `indices`, in order; an error names the
    /// first index that has no result.
    fn map_indices_to_values(&self, indices: &Vec<usize>) -> (r: Result<Vec<String>, DtError>)
        ensures
            match r {
                Ok(v) => (forall|k: int|
                    0 <= k < indices@.len() ==> #[trigger] indices@[k] < self.data@.len())
                    && strings_view(v@) == indices@.map_values(|i: usize| self.results()[i as int]),
                Err(e) => exists|k: int|
                    0 <= k < indices@.len() && #[trigger] indices@[k] >= self.data@.len() && e
                        == DtError::IndexOutOfBounds { index: indices@[k] } && forall|m: int|
                        0 <= m < k ==> indices@[m] < self.data@.len(),
            },
    {
        let mut result: Vec<String> = Vec::new();
        let mut k: usize = 0;
        while k < indices.len()
            invariant
                k <= indices@.len(),
                forall|m: int| 0 <= m < k ==> #[trigger] indices@[m] < self.data@.len(),
                strings_view(result@) == indices@.take(k as int).map_values(
                    |i: usize| self.results()[i as int],
                ),
            decreases indices@.len() - k,
        {
            let i = indices[k];
            match self.data.item(i) {
                Some(s) => {
                    let ghost before = result@;
                    result.push(s);
                    proof {
                        assert(indices@.take(k + 1) =~= indices@.take(k as int).push(i));
                        assert(self.results()[i as int] == self.data@[i as int]@);
                        assert(strings_view(result@) =~= strings_view(before).push(s@));
                        assert(strings_view(result@) =~= indices@.take(k + 1).map_values(
                            |i: usize| self.results()[i as int],
                        ));
                    }
                },
                None => {
                    return Err(DtError::IndexOutOfBounds { index: i });
                },
            }
            k = k + 1;
        }
        assert(indices@.take(indices@.len() as int) =~= indices@);
        Ok(result)
    }

    /// The results of the variants that every rule accepts for the query, in
    /// the table's order; or the error of the first rule that cannot read the
    /// query, rules of decimal columns first.
    pub fn check_all(&self, value: &JsonValue) -> (r: Result<Vec<String>, DtError>)
        ensures
            match first_error(self.all_rules(), *value) {
                Some(e) => r == Err::<Vec<String>, DtError>(e),
                None => r matches Ok(v) && strings_view(v@) == self.answer(
                    self.selected_by(self.all_rules(), *value),
                ),
            },
    {
        proof {
            use_type_invariant(self);
        }
        self.check_rules(value, false)
    }


    /// As `check_all`, with the big stages cut into chunks: a stage that has
    /// more than 2000 variants left cuts them into `(count / 4000) as u8`
    /// chunks, so `requires` leaves out the queries for which that count is
    /// zero at a stage that is reached.
    pub fn check_all_parallel(&self, value: &JsonValue) -> (r: Result<Vec<String>, DtError>)
        requires
            self.parallel_defined(*value),
        ensures
            match first_error(self.all_rules(), *value) {
                Some(e) => r == Err::<Vec<String>, DtError>(e),
                None => r matches Ok(v) && strings_view(v@) == self.answer(
                    self.selected_by(self.all_rules(), *value),
                ),
            },
    {
        proof {
            use_type_invariant(self);
        }
        self.check_rules(value, true)
    }

    /// Whether every stage of `check_all_parallel` that is reached for
    /// `value` can run.
    pub fn parallel_check_defined(&self, value: &JsonValue) -> (r: bool)
        ensures
            r == self.parallel_defined(*value),
    {
        proof {
            use_type_invariant(self);
        }
        let ghost all = self.all_rules();
        let ghost q = *value;
        let n = self.variants_count;
        let indices = self.all_variants();
        proof {
            lemma_all_accept_empty(q, positions(0, n as nat));
            assert(all.take(0) =~= Seq::<AnyRule>::empty());
            assert forall|j: int| 0 <= j < self.rules@.len() implies all[0 + j] == #[trigger] self.rules@[j] by {}
            assert forall|j: int| 0 <= j < self.cached_rules@.len() implies all[self.rules@.len() + j] == #[trigger] self.cached_rules@[j] by {}
            assert forall|m: int| 0 <= m < all.len() implies #[trigger] self.selected_by(all.take(m), q)
                == positions(0, n as nat).filter(all_accept(all.take(m), q)) by {}
        }
        match stages_defined(&self.rules, value, indices, n, Ghost(all), Ghost(0)) {
            Err(b) => b,
            Ok(ix) => match stages_defined(&self.cached_rules, value, ix, n, Ghost(all), Ghost(self.rules@.len() as int)) {
                Err(b) => b,
                Ok(_) => true,
            },
        }
    }

    /// The rules that remember answers first, then the others: the results
    /// of the variants that every rule accepts, in order; the error of the
    /// first rule that cannot read the query; or `NoRules` when the table has
    /// no rule that remembers answers. Only what the rules remember changes.
    pub fn check_all_cached(&mut self, value: &JsonValue) -> (r: Result<Vec<String>, DtError>)
        ensures
            final(self).wf(),
            DecisionTable::same_table(*old(self), *final(self)),
            match first_error(old(self).cached(), *value) {
                Some(e) => r == Err::<Vec<String>, DtError>(e),
                None => if old(self).cached().len() == 0 {
                    r == Err::<Vec<String>, DtError>(DtError::NoRules)
                } else {
                    match first_error(old(self).plain_rules(), *value) {
                        Some(e) => r == Err::<Vec<String>, DtError>(e),
                        None => r matches Ok(v) && strings_view(v@) == old(self).answer(
                            old(self).selected_by(old(self).cached() + old(self).plain_rules(), *value),
                        ),
                    }
                },
            },
    {
        proof {
            use_type_invariant(&*self);
        }
        let ghost q = *value;
        let ghost start = *self;
        let ghost cached = start.cached();
        let n = self.variants_count;
        let mut cached_rules: Vec<AnyRule> = Vec::new();
        std::mem::swap(&mut cached_rules, &mut self.cached_rules);
        let stage = self.cached_stage(&mut cached_rules, value);
        self.cached_rules = cached_rules;
        proof {
            assert forall|k: int| 0 <= k < start.cached().len() implies AnyRule::same_rule(
                #[trigger] start.cached()[k],
                self.cached()[k],
            ) by {}
            assert(DecisionTable::same_table(start, *self));
        }
        let indices = match stage {
            Err(e) => {
                return Err(e);
            },
            Ok(None) => {
                return Err(DtError::NoRules);
            },
            Ok(Some(ix)) => ix,
        };
        proof {
            assert(cached.take(cached.len() as int) =~= cached);
        }
        let ghost all = cached + self.plain_rules();
        proof {
            assert(all.take(cached.len() as int) =~= cached);
            assert forall|k: int| 0 <= k < self.rules@.len() implies all[cached.len() + k]
                == #[trigger] self.rules@[k] by {}
        }
        let filtered = filter_by_rules(&self.rules, value, indices, n, false, Ghost(all), Ghost(cached.len() as int));
        proof {
            assert(all.take(all.len() as int) =~= all);
            lemma_first_error_plain(cached, self.plain_rules(), q);
        }
        let indices = filtered?;
        proof {
            lemma_filtered_positions(n as nat, all_accept(all, q));
        }
        self.map_indices_to_values(&indices)
    }

    /// Asks each rule of `cached_rules` in turn, letting it remember the
    /// answer: the variants that all of them accept, in order; `None` when
    /// there is no rule; or the error of the first rule that cannot read the
    /// query.
    fn cached_stage(&self, cached_rules: &mut Vec<AnyRule>, value: &JsonValue) -> (r: Result<
        Option<Vec<usize>>,
        DtError,
    >)
        requires
            forall|k: int|
                0 <= k < old(cached_rules)@.len() ==> (#[trigger] old(cached_rules)@[k]).wf()
                    && old(cached_rules)@[k].values_len() == self.variants(),
        ensures
            final(cached_rules)@.len() == old(cached_rules)@.len(),
            forall|k: int|
                0 <= k < old(cached_rules)@.len() ==> AnyRule::same_rule(
                    #[trigger] old(cached_rules)@[k],
                    final(cached_rules)@[k],
                ),
            forall|k: int|
                0 <= k < final(cached_rules)@.len() ==> (#[trigger] final(cached_rules)@[k]).wf()
                    && final(cached_rules)@[k].values_len() == self.variants(),
            match first_error(old(cached_rules)@, *value) {
                Some(e) => r == Err::<Option<Vec<usize>>, DtError>(e),
                None => if old(cached_rules)@.len() == 0 {
                    r == Ok::<Option<Vec<usize>>, DtError>(None)
                } else {
                    r matches Ok(Some(ix)) && ix@ == positions(0, self.variants()).filter(
                        all_accept(old(cached_rules)@, *value),
                    )
                },
            },
    {
        let ghost q = *value;
        let ghost cached = cached_rules@;
        let n = self.variants_count;
        let mut indices: Option<Vec<usize>> = None;
        let mut j: usize = 0;
        while j < cached_rules.len()
            invariant
                cached == old(cached_rules)@,
                cached_rules@.len() == cached.len(),
                forall|k: int|
                    0 <= k < cached.len() ==> AnyRule::same_rule(#[trigger] cached[k], cached_rules@[k]),
                forall|k: int|
                    0 <= k < cached_rules@.len() ==> (#[trigger] cached_rules@[k]).wf()
                        && cached_rules@[k].values_len() == n,
                q == *value,
                n == self.variants(),
                j <= cached_rules@.len(),
                first_error(cached.take(j as int), q) is None,
                j == 0 <==> indices is None,
                indices matches Some(ix) ==> ix@ == positions(0, n as nat).filter(
                    all_accept(cached.take(j as int), q),
                ),
            decreases cached_rules@.len() - j,
        {
            proof {
                lemma_same_rule_agrees(cached[j as int], cached_rules@[j as int], q);
                assert(cached.take(j + 1) =~= cached.take(j as int).push(cached[j as int]));
                assert(cached.take(j + 1).drop_last() =~= cached.take(j as int));
            }
            let ghost rules_before = cached_rules@;
            let answer = cached_rules[j].check_all_cached(value);
            proof {
                assert forall|k: int| 0 <= k < cached_rules@.len() && k != j implies cached_rules@[k]
                    == rules_before[k] by {}
                assert forall|k: int| 0 <= k < cached.len() implies AnyRule::same_rule(
                    #[trigger] cached[k],
                    cached_rules@[k],
                ) by {
                    if k != j {
                        assert(cached_rules@[k] == rules_before[k]);
                    }
                }
                assert forall|k: int| 0 <= k < cached_rules@.len() implies (
                #[trigger] cached_rules@[k]).wf() && cached_rules@[k].values_len() == n by {
                    if k != j {
                        assert(cached_rules@[k] == rules_before[k]);
                    }
                }
            }
            let new_ix = match answer {
                Ok(ix) => ix,
                Err(e) => {
                    proof {
                        lemma_first_error_prefix(cached, q, j + 1);
                    }
                    return Err(e);
                },
            };
            proof {
                lemma_filtered_positions(n as nat, cached[j as int].acceptor(q));
                lemma_filtered_positions(n as nat, all_accept(cached.take(j as int), q));
                lemma_all_accept_push(cached.take(j as int), cached[j as int], q, positions(0, n as nat));
            }
            indices = match indices {
                None => {
                    proof {
                        lemma_all_accept_empty(q, positions(0, n as nat));
                        assert(cached.take(0) =~= Seq::<AnyRule>::empty());
                    }
                    Some(new_ix)
                },
                Some(old_ix) => {
                    let both = intersect(&old_ix, &new_ix);
                    proof {
                        let p = positions(0, n as nat);
                        let a = all_accept(cached.take(j as int), q);
                        let b = cached[j as int].acceptor(q);
                        let in_new = |x: usize| new_ix@.contains(x);
                        lemma_filter_filter(p, a, in_new);
                        lemma_filter_filter(p, a, b);
                        assert forall|k: int| 0 <= k < p.len() implies (|x: usize| a(x) && in_new(x))(
                            #[trigger] p[k],
                        ) == (|x: usize| a(x) && b(x))(p[k]) by {
                            assert(p[k] < n);
                        }
                        lemma_filter_agree(p, |x: usize| a(x) && in_new(x), |x: usize| a(x) && b(x));
                    }
                    Some(both)
                },
            };
            j = j + 1;
        }
        proof {
            assert(cached.take(cached.len() as int) =~= cached);
        }
        Ok(indices)
    }

    /// Every variant, in order.
    fn all_variants(&self) -> (r: Vec<usize>)
        ensures
            r@ == positions(0, self.variants()),
    {
        let n = self.variants_count;
        let mut indices: Vec<usize> = Vec::new();
        let mut i: usize = 0;
        while i < n
            invariant
                i <= n,
                n == self.variants(),
                indices@ == positions(0, i as nat),
            decreases n - i,
        {
            assert(positions(0, (i + 1) as nat) =~= positions(0, i as nat).push(i));
            indices.push(i);
            i = i + 1;
        }
        indices
    }

    /// `check_all`, or `check_all_parallel` when `parallel`.
    fn check_rules(&self, value: &JsonValue, parallel: bool) -> (r: Result<Vec<String>, DtError>)
        requires
            self.wf(),
            parallel ==> self.parallel_defined(*value),
        ensures
            match first_error(self.all_rules(), *value) {
                Some(e) => r == Err::<Vec<String>, DtError>(e),
                None => r matches Ok(v) && strings_view(v@) == self.answer(
                    self.selected_by(self.all_rules(), *value),
                ),
            },
    {
        let ghost all = self.all_rules();
        let ghost q = *value;
        let n = self.variants_count;
        let indices = self.all_variants();
        proof {
            if parallel {
                assert forall|m: int|
                    0 <= m < all.len() && first_error(all.take(m + 1), q) is None implies stage_ok(
                    #[trigger] positions(0, n as nat).filter(all_accept(all.take(m), q)).len(),
                ) by {
                    assert(self.selected_by(all.take(m), q) == positions(0, n as nat).filter(
                        all_accept(all.take(m), q),
                    ));
                }
            }
            lemma_all_accept_empty(q, positions(0, n as nat));
            assert(all.take(0) =~= Seq::<AnyRule>::empty());
            assert forall|j: int| 0 <= j < self.rules@.len() implies all[0 + j] == #[trigger] self.rules@[j] by {}
            assert forall|j: int| 0 <= j < self.cached_rules@.len() implies all[self.rules@.len() + j] == #[trigger] self.cached_rules@[j] by {}
        }
        let indices = filter_by_rules(&self.rules, value, indices, n, parallel, Ghost(all), Ghost(0));
        let indices = match indices {
            Ok(ix) => ix,
            Err(e) => {
                proof {
                    lemma_first_error_prefix(all, q, self.rules@.len() as int);
                }
                return Err(e);
            },
        };
        let indices = filter_by_rules(&self.cached_rules, value, indices, n, parallel, Ghost(all), Ghost(self.rules@.len() as int));
        proof {
            assert(all.take(all.len() as int) =~= all);
        }
        let indices = indices?;
        proof {
            lemma_filtered_positions(n as nat, all_accept(all, q));
        }
        self.map_indices_to_values(&indices)
    }
}

/// The rules of `a` and `b` read a query alike and accept alike, one by one.
pub open spec fn rules_agree(a: Seq<AnyRule>, b: Seq<AnyRule>, q: JsonValue) -> bool {
    &&& a.len() == b.len()
    &&& forall|k: int|
        #![trigger a[k], b[k]]
        0 <= k < a.len() ==> a[k].query_error(q) == b[k].query_error(q) && a[k].acceptor(q) == b[k].acceptor(
            q,
        )
}

/// No rule fails to read the query exactly when none of them does, one by one.
pub proof fn lemma_first_error_none(rules: Seq<AnyRule>, q: JsonValue)
    ensures
        (first_error(rules, q) is None) == (forall|k: int|
            0 <= k < rules.len() ==> (#[trigger] rules[k]).query_error(q) is None),
    decreases rules.len(),
{
    if rules.len() > 0 {
        let init = rules.drop_last();
        lemma_first_error_none(init, q);
        assert forall|k: int| 0 <= k < init.len() implies #[trigger] init[k] == rules[k] by {}
        if first_error(rules, q) is None {
            assert forall|k: int| 0 <= k < rules.len() implies (#[trigger] rules[k]).query_error(q) is None by {
                if k < init.len() {
                    assert(init[k] == rules[k]);
                }
            }
        }
    }
}

proof fn lemma_first_error_agree(a: Seq<AnyRule>, b: Seq<AnyRule>, q: JsonValue)
    requires
        rules_agree(a, b, q),
    ensures
        first_error(a, q) == first_error(b, q),
    decreases a.len(),
{
    if a.len() > 0 {
        assert(rules_agree(a.drop_last(), b.drop_last(), q)) by {
            assert forall|k: int| 0 <= k < a.drop_last().len() implies a.drop_last()[k] == a[k] && b.drop_last()[k]
                == b[k] by {}
        }
        lemma_first_error_agree(a.drop_last(), b.drop_last(), q);
        assert(a.last() == a[a.len() - 1] && b.last() == b[b.len() - 1]);
    }
}

proof fn lemma_all_accept_agree(a: Seq<AnyRule>, b: Seq<AnyRule>, q: JsonValue)
    requires
        rules_agree(a, b, q),
    ensures
        all_accept(a, q) == all_accept(b, q),
{
    assert forall|x: usize| #[trigger] all_accept(a, q)(x) == all_accept(b, q)(x) by {
        assert forall|k: int| 0 <= k < a.len() implies #[trigger] a[k].accepts_query(q, x as int)
            == b[k].accepts_query(q, x as int) by {
            assert(a[k].acceptor(q)(x) == b[k].acceptor(q)(x));
        }
        if all_accept(a, q)(x) {
            assert forall|k: int| 0 <= k < b.len() implies #[trigger] b[k].accepts_query(q, x as int) by {
                assert(a[k].accepts_query(q, x as int));
            }
        }
        if all_accept(b, q)(x) {
            assert forall|k: int| 0 <= k < a.len() implies #[trigger] a[k].accepts_query(q, x as int) by {
                assert(b[k].accepts_query(q, x as int));
            }
        }
    }
    assert(all_accept(a, q) =~= all_accept(b, q));
}

proof fn lemma_all_accept_swap(a: Seq<AnyRule>, b: Seq<AnyRule>, q: JsonValue)
    ensures
        all_accept(a + b, q) == all_accept(b + a, q),
{
    assert forall|x: usize| #[trigger] all_accept(a + b, q)(x) == all_accept(b + a, q)(x) by {
        if all_accept(a + b, q)(x) {
            assert forall|k: int| 0 <= k < (b + a).len() implies #[trigger] (b + a)[k].accepts_query(
                q,
                x as int,
            ) by {
                if k < b.len() {
                    assert((b + a)[k] == (a + b)[a.len() + k]);
                    assert((a + b)[a.len() + k].accepts_query(q, x as int));
                } else {
                    assert((b + a)[k] == (a + b)[k - b.len()]);
                    assert((a + b)[k - b.len()].accepts_query(q, x as int));
                }
            }
        }
        if all_accept(b + a, q)(x) {
            assert forall|k: int| 0 <= k < (a + b).len() implies #[trigger] (a + b)[k].accepts_query(
                q,
                x as int,
            ) by {
                if k < a.len() {
                    assert((a + b)[k] == (b + a)[b.len() + k]);
                    assert((b + a)[b.len() + k].accepts_query(q, x as int));
                } else {
                    assert((a + b)[k] == (b + a)[k - a.len()]);
                    assert((b + a)[k - a.len()].accepts_query(q, x as int));
                }
            }
        }
    }
    assert(all_accept(a + b, q) =~= all_accept(b + a, q));
}

/// The order in which a table's rules are asked does not change what is
/// selected: `check_all_cached`, which asks the rules that remember answers
/// first, selects the variants that `check_all` selects, and no rule fails
/// to read the query in the one order exactly when none does in the other.
pub proof fn law_rule_order_irrelevant(t: DecisionTable, q: JsonValue)
    ensures
        t.selected_by(t.cached() + t.plain_rules(), q) == t.selected_by(t.all_rules(), q),
        (first_error(t.all_rules(), q) is None) == (first_error(t.cached(), q) is None && first_error(
            t.plain_rules(),
            q,
        ) is None),
{
    lemma_all_accept_swap(t.cached(), t.plain_rules(), q);
    let a = t.plain_rules();
    let c = t.cached();
    lemma_first_error_none(a + c, q);
    lemma_first_error_none(a, q);
    lemma_first_error_none(c, q);
    if first_error(a, q) is None && first_error(c, q) is None {
        assert forall|k: int| 0 <= k < (a + c).len() implies (#[trigger] (a + c)[k]).query_error(q) is None by {
            if k < a.len() {
                assert((a + c)[k] == a[k]);
            } else {
                assert((a + c)[k] == c[k - a.len()]);
            }
        }
    }
    if first_error(a + c, q) is None {
        assert forall|k: int| 0 <= k < a.len() implies (#[trigger] a[k]).query_error(q) is None by {
            assert((a + c)[k] == a[k]);
        }
        assert forall|k: int| 0 <= k < c.len() implies (#[trigger] c[k]).query_error(q) is None by {
            assert((a + c)[a.len() + k] == c[k]);
        }
    }
}

/// What the rules of a table remember never changes its answers: two tables
/// that are the same but for what their rules remember (as `check_all_cached`
/// leaves a table) fail on the same queries with the same errors and select
/// the same results, in either order of the rules.
pub proof fn law_memory_does_not_change_answers(a: DecisionTable, b: DecisionTable, q: JsonValue)
    requires
        DecisionTable::same_table(a, b),
    ensures
        first_error(a.all_rules(), q) == first_error(b.all_rules(), q),
        first_error(a.cached(), q) == first_error(b.cached(), q),
        first_error(a.plain_rules(), q) == first_error(b.plain_rules(), q),
        a.answer(a.selected_by(a.all_rules(), q)) == b.answer(b.selected_by(b.all_rules(), q)),
        a.answer(a.selected_by(a.cached() + a.plain_rules(), q)) == b.answer(
            b.selected_by(b.cached() + b.plain_rules(), q),
        ),
{
    let (pa, ca, pb, cb) = (a.plain_rules(), a.cached(), b.plain_rules(), b.cached());
    assert forall|k: int| 0 <= k < ca.len() implies ca[k].query_error(q) == cb[k].query_error(q)
        && ca[k].acceptor(q) == cb[k].acceptor(q) by {
        lemma_same_rule_agrees(ca[k], cb[k], q);
    }
    assert(rules_agree(ca, cb, q));
    assert(rules_agree(pa, pb, q));
    assert(rules_agree(pa + ca, pb + cb, q)) by {
        assert forall|k: int| 0 <= k < (pa + ca).len() implies (pa + ca)[k].query_error(q) == (pb
            + cb)[k].query_error(q) && (pa + ca)[k].acceptor(q) == (pb + cb)[k].acceptor(q) by {
            if k >= pa.len() {
                assert((pa + ca)[k] == ca[k - pa.len()]);
                assert((pb + cb)[k] == cb[k - pa.len()]);
            }
        }
    }
    assert(rules_agree(ca + pa, cb + pb, q)) by {
        assert forall|k: int| 0 <= k < (ca + pa).len() implies (ca + pa)[k].query_error(q) == (cb
            + pb)[k].query_error(q) && (ca + pa)[k].acceptor(q) == (cb + pb)[k].acceptor(q) by {
            if k < ca.len() {
                assert((ca + pa)[k] == ca[k]);
                assert((cb + pb)[k] == cb[k]);
            }
        }
    }
    lemma_first_error_agree(pa + ca, pb + cb, q);
    lemma_first_error_agree(ca, cb, q);
    lemma_all_accept_agree(pa + ca, pb + cb, q);
    lemma_all_accept_agree(ca + pa, cb + pb, q);
}

/// A table's selection comes in the table's order, each variant once: it
/// holds exactly the variants that every rule accepts, in increasing order.
pub proof fn law_selection_in_table_order(t: DecisionTable, rules: Seq<AnyRule>, q: JsonValue)
    ensures
        forall|i: int, j: int|
            0 <= i < j < t.selected_by(rules, q).len() ==> #[trigger] t.selected_by(rules, q)[i]
                < #[trigger] t.selected_by(rules, q)[j],
        forall|x: usize|
            #![trigger t.selected_by(rules, q).contains(x)]
            t.selected_by(rules, q).contains(x) <==> x < t.variants() && all_accept(rules, q)(x),
{
    let p = positions(0, t.variants());
    let f = all_accept(rules, q);
    lemma_filtered_positions(t.variants(), f);
    lemma_filter_increasing(p, f);
}

/// Filtering an increasing sequence keeps it increasing.
proof fn lemma_filter_increasing(s: Seq<usize>, f: spec_fn(usize) -> bool)
    requires
        forall|i: int, j: int| 0 <= i < j < s.len() ==> #[trigger] s[i] < #[trigger] s[j],
    ensures
        forall|i: int, j: int|
            0 <= i < j < s.filter(f).len() ==> #[trigger] s.filter(f)[i] < #[trigger] s.filter(f)[j],
    decreases s.len(),
{
    reveal(Seq::filter);
    if s.len() > 0 {
        let init = s.drop_last();
        assert forall|i: int, j: int| 0 <= i < j < init.len() implies #[trigger] init[i] < #[trigger] init[j] by {
            assert(init[i] == s[i] && init[j] == s[j]);
        }
        lemma_filter_increasing(init, f);
        if f(s.last()) {
            let fi = init.filter(f);
            assert(s.filter(f) == fi.push(s.last()));
            assert forall|k: int| 0 <= k < fi.len() implies #[trigger] fi[k] < s.last() by {
                init.lemma_filter_pred(f, k);
                assert(init.filter(f).contains(fi[k]));
                init.lemma_filter_contains_rev(f, fi[k]);
                let m = choose|m: int| 0 <= m < init.len() && init[m] == fi[k];
                assert(s[m] < s[s.len() - 1]);
            }
            assert forall|i: int, j: int| 0 <= i < j < s.filter(f).len() implies #[trigger] s.filter(f)[i]
                < #[trigger] s.filter(f)[j] by {
                if j == fi.len() {
                    assert(fi[i] < s.last());
                } else {
                    assert(fi[i] < fi[j]);
                }
            }
        } else {
            assert(s.filter(f) == init.filter(f));
        }
    }
}

} // verus!
