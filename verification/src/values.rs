//! The values that decision-table rules compare, with their orders.

use vstd::prelude::*;

verus! {

/// A value that a rule can hold and compare a query value against.
///
/// `spec_less` is the strict order of the value type and `spec_same` its
/// equality, as Rust's `<` and `==` compute them on the type the value stands for.
pub trait RuleValue: Sized {
    spec fn spec_less(self, other: Self) -> bool;

    spec fn spec_same(self, other: Self) -> bool;

    fn less(&self, other: &Self) -> (r: bool)
        ensures
            r == self.spec_less(*other),
    ;

    fn same(&self, other: &Self) -> (r: bool)
        ensures
            r == self.spec_same(*other),
    ;

    fn duplicate(&self) -> (r: Self)
        ensures
            r == *self,
    ;

    /// Values that are the same compare alike with every value.
    proof fn lemma_same_agrees(a: Self, b: Self, c: Self)
        requires
            a.spec_same(b),
        ensures
            a.spec_less(c) == b.spec_less(c),
            c.spec_less(a) == c.spec_less(b),
            a.spec_same(c) == b.spec_same(c),
            c.spec_same(a) == c.spec_same(b),
    ;

    /// `<` is a strict order: no value is less than itself, two values are
    /// never each less than the other, and values that are the same are not
    /// less than one another. So a strict condition (`<`, `>`) never accepts
    /// a query value that is the same as the cell.
    proof fn lemma_strict_order(a: Self, b: Self)
        ensures
            !a.spec_less(a),
            a.spec_less(b) ==> !b.spec_less(a),
            a.spec_same(b) ==> !a.spec_less(b) && !b.spec_less(a),
    ;
}


impl RuleValue for u8 {
    open spec fn spec_less(self, other: Self) -> bool {
        self < other
    }

    open spec fn spec_same(self, other: Self) -> bool {
        self == other
    }

    fn less(&self, other: &Self) -> (r: bool) {
        *self < *other
    }

    fn same(&self, other: &Self) -> (r: bool) {
        *self == *other
    }

    fn duplicate(&self) -> (r: Self) {
        *self
    }

    proof fn lemma_same_agrees(a: Self, b: Self, c: Self) {
    }

    proof fn lemma_strict_order(a: Self, b: Self) {
    }
}

impl RuleValue for u16 {
    open spec fn spec_less(self, other: Self) -> bool {
        self < other
    }

    open spec fn spec_same(self, other: Self) -> bool {
        self == other
    }

    fn less(&self, other: &Self) -> (r: bool) {
        *self < *other
    }

    fn same(&self, other: &Self) -> (r: bool) {
        *self == *other
    }

    fn duplicate(&self) -> (r: Self) {
        *self
    }

    proof fn lemma_same_agrees(a: Self, b: Self, c: Self) {
    }

    proof fn lemma_strict_order(a: Self, b: Self) {
    }
}

impl RuleValue for u32 {
    open spec fn spec_less(self, other: Self) -> bool {
        self < other
    }

    open spec fn spec_same(self, other: Self) -> bool {
        self == other
    }

    fn less(&self, other: &Self) -> (r: bool) {
        *self < *other
    }

    fn same(&self, other: &Self) -> (r: bool) {
        *self == *other
    }

    fn duplicate(&self) -> (r: Self) {
        *self
    }

    proof fn lemma_same_agrees(a: Self, b: Self, c: Self) {
    }

    proof fn lemma_strict_order(a: Self, b: Self) {
    }
}

impl RuleValue for u64 {
    open spec fn spec_less(self, other: Self) -> bool {
        self < other
    }

    open spec fn spec_same(self, other: Self) -> bool {
        self == other
    }

    fn less(&self, other: &Self) -> (r: bool) {
        *self < *other
    }

    fn same(&self, other: &Self) -> (r: bool) {
        *self == *other
    }

    fn duplicate(&self) -> (r: Self) {
        *self
    }

    proof fn lemma_same_agrees(a: Self, b: Self, c: Self) {
    }

    proof fn lemma_strict_order(a: Self, b: Self) {
    }
}

impl RuleValue for i8 {
    open spec fn spec_less(self, other: Self) -> bool {
        self < other
    }

    open spec fn spec_same(self, other: Self) -> bool {
        self == other
    }

    fn less(&self, other: &Self) -> (r: bool) {
        *self < *other
    }

    fn same(&self, other: &Self) -> (r: bool) {
        *self == *other
    }

    fn duplicate(&self) -> (r: Self) {
        *self
    }

    proof fn lemma_same_agrees(a: Self, b: Self, c: Self) {
    }

    proof fn lemma_strict_order(a: Self, b: Self) {
    }
}

impl RuleValue for i16 {
    open spec fn spec_less(self, other: Self) -> bool {
        self < other
    }

    open spec fn spec_same(self, other: Self) -> bool {
        self == other
    }

    fn less(&self, other: &Self) -> (r: bool) {
        *self < *other
    }

    fn same(&self, other: &Self) -> (r: bool) {
        *self == *other
    }

    fn duplicate(&self) -> (r: Self) {
        *self
    }

    proof fn lemma_same_agrees(a: Self, b: Self, c: Self) {
    }

    proof fn lemma_strict_order(a: Self, b: Self) {
    }
}

impl RuleValue for i32 {
    open spec fn spec_less(self, other: Self) -> bool {
        self < other
    }

    open spec fn spec_same(self, other: Self) -> bool {
        self == other
    }

    fn less(&self, other: &Self) -> (r: bool) {
        *self < *other
    }

    fn same(&self, other: &Self) -> (r: bool) {
        *self == *other
    }

    fn duplicate(&self) -> (r: Self) {
        *self
    }

    proof fn lemma_same_agrees(a: Self, b: Self, c: Self) {
    }

    proof fn lemma_strict_order(a: Self, b: Self) {
    }
}

impl RuleValue for i64 {
    open spec fn spec_less(self, other: Self) -> bool {
        self < other
    }

    open spec fn spec_same(self, other: Self) -> bool {
        self == other
    }

    fn less(&self, other: &Self) -> (r: bool) {
        *self < *other
    }

    fn same(&self, other: &Self) -> (r: bool) {
        *self == *other
    }

    fn duplicate(&self) -> (r: Self) {
        *self
    }

    proof fn lemma_same_agrees(a: Self, b: Self, c: Self) {
    }

    proof fn lemma_strict_order(a: Self, b: Self) {
    }
}

impl RuleValue for bool {
    /// `false < true`, as Rust orders `bool`.
    open spec fn spec_less(self, other: Self) -> bool {
        !self && other
    }

    open spec fn spec_same(self, other: Self) -> bool {
        self == other
    }

    fn less(&self, other: &Self) -> (r: bool) {
        !*self && *other
    }

    fn same(&self, other: &Self) -> (r: bool) {
        *self == *other
    }

    fn duplicate(&self) -> (r: Self) {
        *self
    }

    proof fn lemma_same_agrees(a: Self, b: Self, c: Self) {
    }

    proof fn lemma_strict_order(a: Self, b: Self) {
    }
}

/// Lexicographic order on character sequences: `a` comes first when it is a
/// proper prefix of `b`, or when at the first position where they differ its
/// character has the smaller code point.
pub open spec fn chars_less(a: Seq<char>, b: Seq<char>) -> bool {
    exists|k: int|
        #![trigger a.take(k), b.take(k)]
        0 <= k <= a.len() && k <= b.len() && a.take(k) == b.take(k) && ((k == a.len() && k
            < b.len()) || (k < a.len() && k < b.len() && (a[k] as u32) < (b[k] as u32)))
}

/// Lexicographic order is strict: irreflexive and asymmetric, and equal
/// sequences are not ordered.
proof fn lemma_chars_less_strict(a: Seq<char>, b: Seq<char>)
    ensures
        !chars_less(a, a),
        chars_less(a, b) ==> !chars_less(b, a),
        a == b ==> !chars_less(a, b),
{
    if chars_less(a, b) && chars_less(b, a) {
        let k1 = choose|k: int|
            #![trigger a.take(k), b.take(k)]
            0 <= k <= a.len() && k <= b.len() && a.take(k) == b.take(k) && ((k == a.len() && k
                < b.len()) || (k < a.len() && k < b.len() && (a[k] as u32) < (b[k] as u32)));
        let k2 = choose|k: int|
            #![trigger b.take(k), a.take(k)]
            0 <= k <= b.len() && k <= a.len() && b.take(k) == a.take(k) && ((k == b.len() && k
                < a.len()) || (k < b.len() && k < a.len() && (b[k] as u32) < (a[k] as u32)));
        if k1 < k2 {
            assert(a.take(k2)[k1] == a[k1]);
            assert(b.take(k2)[k1] == b[k1]);
        } else if k2 < k1 {
            assert(a.take(k1)[k2] == a[k2]);
            assert(b.take(k1)[k2] == b[k2]);
        }
    }
}

/// At the first position `i` where `a` and `b` differ, or where one ends,
/// the order of `a` and `b` is decided.
proof fn lemma_chars_less_at(a: Seq<char>, b: Seq<char>, i: int)
    requires
        0 <= i <= a.len(),
        i <= b.len(),
        a.take(i) == b.take(i),
        i < a.len() && i < b.len() ==> a[i] != b[i],
    ensures
        chars_less(a, b) == ((i == a.len() && i < b.len()) || (i < a.len() && i < b.len() && (a[i] as u32)
            < (b[i] as u32))),
{
    if chars_less(a, b) {
        let k = choose|k: int|
            #![trigger a.take(k), b.take(k)]
            0 <= k <= a.len() && k <= b.len() && a.take(k) == b.take(k) && ((k == a.len() && k
                < b.len()) || (k < a.len() && k < b.len() && (a[k] as u32) < (b[k] as u32)));
        if k < i {
            assert(a.take(i)[k] == a[k]);
            assert(b.take(i)[k] == b[k]);
        } else if k > i {
            assert(a.take(k)[i] == a[i]);
            assert(b.take(k)[i] == b[i]);
        }
    }
}

/// `<` on strings: lexicographic by characters, which is the order of
/// their UTF-8 bytes.
fn str_less(a: &str, b: &str) -> (r: bool)
    ensures
        r == chars_less(a@, b@),
{
    let x = crate::text::chars_of(a);
    let y = crate::text::chars_of(b);
    let mut i: usize = 0;
    while i < x.len() && i < y.len()
        invariant
            i <= x@.len(),
            i <= y@.len(),
            x@ == a@,
            y@ == b@,
            x@.take(i as int) == y@.take(i as int),
        ensures
            i <= x@.len(),
            i <= y@.len(),
            x@.take(i as int) == y@.take(i as int),
            i < x@.len() && i < y@.len() ==> x@[i as int] != y@[i as int],
        decreases x@.len() - i,
    {
        if x[i] != y[i] {
            break;
        }
        proof {
            assert(x@.take(i + 1) =~= x@.take(i as int).push(x@[i as int]));
            assert(y@.take(i + 1) =~= y@.take(i as int).push(y@[i as int]));
        }
        i = i + 1;
    }
    proof {
        lemma_chars_less_at(x@, y@, i as int);
    }
    if i < x.len() && i < y.len() {
        (x[i] as u32) < (y[i] as u32)
    } else {
        i == x.len() && i < y.len()
    }
}

impl RuleValue for String {
    open spec fn spec_less(self, other: Self) -> bool {
        chars_less(self@, other@)
    }

    open spec fn spec_same(self, other: Self) -> bool {
        self@ == other@
    }

    fn less(&self, other: &Self) -> (r: bool) {
        str_less(self.as_str(), other.as_str())
    }

    fn same(&self, other: &Self) -> (r: bool) {
        *self == *other
    }

    fn duplicate(&self) -> (r: Self) {
        self.clone()
    }

    proof fn lemma_same_agrees(a: Self, b: Self, c: Self) {
    }

    proof fn lemma_strict_order(a: Self, b: Self) {
        lemma_chars_less_strict(a@, b@);
    }
}

/// An instant in time, as seconds since the Unix epoch and the nanoseconds
/// within that second; this is how a date-time with a fixed offset compares:
/// by the instant it denotes, whatever its offset.
#[derive(Clone, Copy, Debug, PartialEq, Eq)]
pub struct Timestamp {
    pub secs: i64,
    pub nanos: u32,
}

impl RuleValue for Timestamp {
    open spec fn spec_less(self, other: Self) -> bool {
        self.secs < other.secs || (self.secs == other.secs && self.nanos < other.nanos)
    }

    open spec fn spec_same(self, other: Self) -> bool {
        self.secs == other.secs && self.nanos == other.nanos
    }

    fn less(&self, other: &Self) -> (r: bool) {
        self.secs < other.secs || (self.secs == other.secs && self.nanos < other.nanos)
    }

    fn same(&self, other: &Self) -> (r: bool) {
        self.secs == other.secs && self.nanos == other.nanos
    }

    fn duplicate(&self) -> (r: Self) {
        *self
    }

    proof fn lemma_same_agrees(a: Self, b: Self, c: Self) {
    }

    proof fn lemma_strict_order(a: Self, b: Self) {
    }
}

/// What stands for a floating-point number in a rule: an integer key in the
/// order of the numbers, and whether the number is NaN.
///
/// For numbers `x` and `y` that are not NaN, `x < y` exactly when the key of
/// `x` is below that of `y`, and `x == y` exactly when the keys are equal
/// (both zeros share one key). A NaN compares neither less, greater nor equal
/// to anything, as IEEE 754 says.
#[derive(Clone, Copy, Debug, PartialEq, Eq)]
pub struct FloatKey {
    pub is_nan: bool,
    pub key: u64,
}

impl RuleValue for FloatKey {
    open spec fn spec_less(self, other: Self) -> bool {
        !self.is_nan && !other.is_nan && self.key < other.key
    }

    open spec fn spec_same(self, other: Self) -> bool {
        !self.is_nan && !other.is_nan && self.key == other.key
    }

    fn less(&self, other: &Self) -> (r: bool) {
        !self.is_nan && !other.is_nan && self.key < other.key
    }

    fn same(&self, other: &Self) -> (r: bool) {
        !self.is_nan && !other.is_nan && self.key == other.key
    }

    fn duplicate(&self) -> (r: Self) {
        *self
    }

    proof fn lemma_same_agrees(a: Self, b: Self, c: Self) {
    }

    proof fn lemma_strict_order(a: Self, b: Self) {
    }
}


/// A `f32` value of a rule, held by its key.
#[derive(Clone, Copy, Debug, PartialEq, Eq)]
pub struct F32Key(pub FloatKey);

impl RuleValue for F32Key {
    open spec fn spec_less(self, other: Self) -> bool {
        self.0.spec_less(other.0)
    }

    open spec fn spec_same(self, other: Self) -> bool {
        self.0.spec_same(other.0)
    }

    fn less(&self, other: &Self) -> (r: bool) {
        self.0.less(&other.0)
    }

    fn same(&self, other: &Self) -> (r: bool) {
        self.0.same(&other.0)
    }

    fn duplicate(&self) -> (r: Self) {
        *self
    }

    proof fn lemma_same_agrees(a: Self, b: Self, c: Self) {
    }

    proof fn lemma_strict_order(a: Self, b: Self) {
    }
}

/// A `f64` value of a rule, held by its key.
#[derive(Clone, Copy, Debug, PartialEq, Eq)]
pub struct F64Key(pub FloatKey);

impl RuleValue for F64Key {
    open spec fn spec_less(self, other: Self) -> bool {
        self.0.spec_less(other.0)
    }

    open spec fn spec_same(self, other: Self) -> bool {
        self.0.spec_same(other.0)
    }

    fn less(&self, other: &Self) -> (r: bool) {
        self.0.less(&other.0)
    }

    fn same(&self, other: &Self) -> (r: bool) {
        self.0.same(&other.0)
    }

    fn duplicate(&self) -> (r: Self) {
        *self
    }

    proof fn lemma_same_agrees(a: Self, b: Self, c: Self) {
    }

    proof fn lemma_strict_order(a: Self, b: Self) {
    }
}

} // verus!
