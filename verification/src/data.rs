//! The payloads that a name can carry, and the two wrappers that hold them.
//!
//! A name for an abstract polytope carries no geometric data at all, while a
//! name for a concrete polytope records centers, regularity and the kind of a
//! quadrilateral. [`AbsData`] and [`ConData`] are the two wrappers: the first
//! holds nothing and agrees with every value, the second holds one value and
//! compares by it.
use vstd::prelude::*;

verus! {

/// A value that a wrapper may hold: it has a mathematical view, and can be
/// compared and copied in executable code in a way that respects that view.
pub trait Payload: View + Sized {
    /// Whether two payloads denote the same value.
    fn same(&self, other: &Self) -> (b: bool)
        ensures
            b == (self@ == other@),
    ;

    /// A copy of the payload.
    fn duplicate(&self) -> (r: Self)
        ensures
            r@ == self@,
    ;
}

/// Any quadrilateral that isn't irregular. These result from prisms and
/// tegums of a dyad.
#[derive(Clone, Copy, Debug, PartialEq, Eq, Structural)]
pub enum Quadrilateral {
    /// A square.
    Square,
    /// A rectangle.
    Rectangle,
    /// An orthodiagonal quadrilateral (a dyadic duotegum).
    Orthodiagonal,
}

impl View for Quadrilateral {
    type V = Quadrilateral;

    open spec fn view(&self) -> Quadrilateral {
        *self
    }
}

impl Payload for Quadrilateral {
    fn same(&self, other: &Self) -> (b: bool) {
        *self == *other
    }

    fn duplicate(&self) -> (r: Self) {
        *self
    }
}

impl Default for Quadrilateral {
    fn default() -> (r: Self)
        ensures
            r == Quadrilateral::Square,
    {
        Quadrilateral::Square
    }
}

/// A point of space, given by integer coordinates in a fixed unit of length.
/// Its view is the sequence of its coordinates.
#[derive(Debug)]
pub struct Point {
    /// The coordinates of the point.
    pub coords: Vec<i64>,
}

impl View for Point {
    type V = Seq<i64>;

    open spec fn view(&self) -> Seq<i64> {
        self.coords@
    }
}

/// The squared Euclidean distance between two points of the same dimension.
pub open spec fn dist2(a: Seq<i64>, b: Seq<i64>) -> nat
    decreases a.len(),
{
    if a.len() == 0 || b.len() == 0 {
        0
    } else {
        let d = a.last() - b.last();
        dist2(a.drop_last(), b.drop_last()) + (d * d) as nat
    }
}

/// Whether two points have the same dimension and lie strictly closer than
/// `eps` to one another.
pub open spec fn close(a: Seq<i64>, b: Seq<i64>, eps: nat) -> bool {
    a.len() == b.len() && dist2(a, b) < eps * eps
}

/// The squared distance between the first `k` coordinates never exceeds the
/// squared distance between the points.
pub proof fn lemma_dist2_prefix(a: Seq<i64>, b: Seq<i64>, k: int)
    requires
        a.len() == b.len(),
        0 <= k <= a.len(),
    ensures
        dist2(a.take(k), b.take(k)) <= dist2(a, b),
    decreases a.len() - k,
{
    if k == a.len() {
        assert(a.take(k) =~= a);
        assert(b.take(k) =~= b);
    } else {
        lemma_dist2_prefix(a, b, k + 1);
        assert(a.take(k + 1).drop_last() =~= a.take(k));
        assert(b.take(k + 1).drop_last() =~= b.take(k));
    }
}

impl Point {
    /// The point with the given coordinates.
    pub fn new(coords: Vec<i64>) -> (r: Self)
        ensures
            r@ == coords@,
    {
        Point { coords }
    }

    /// Whether `self` and `other` have the same dimension and lie strictly
    /// closer than `eps` to one another.
    pub fn within(&self, other: &Point, eps: u64) -> (b: bool)
        ensures
            b == close(self@, other@, eps as nat),
    {
        let n = self.coords.len();
        if n != other.coords.len() || eps == 0 {
            return false;
        }
        assert(eps * eps <= 0xFFFF_FFFF_FFFF_FFFF * 0xFFFF_FFFF_FFFF_FFFF) by (nonlinear_arith)
            requires
                0 <= eps <= 0xFFFF_FFFF_FFFF_FFFF,
        ;
        let bound: u128 = (eps as u128) * (eps as u128);
        let mut acc: u128 = 0;
        let mut i: usize = 0;
        assert(self@.take(0).len() == 0);
        assert(0 < eps * eps) by (nonlinear_arith)
            requires
                eps > 0,
        ;
        while i < n
            invariant
                n == self.coords.len(),
                n == other.coords.len(),
                i <= n,
                bound == eps * eps,
                acc == dist2(self@.take(i as int), other@.take(i as int)),
                acc < bound,
            decreases n - i,
        {
            let x: i128 = self.coords[i] as i128 - other.coords[i] as i128;
            let d: u128 = if x < 0 {
                (-x) as u128
            } else {
                x as u128
            };
            proof {
                lemma_dist2_prefix(self@, other@, i + 1);
                assert(self@.take(i + 1).drop_last() =~= self@.take(i as int));
                assert(other@.take(i + 1).drop_last() =~= other@.take(i as int));
                assert(self@.take(i + 1).last() == self@[i as int]);
                assert(other@.take(i + 1).last() == other@[i as int]);
                assert(d * d == x * x) by (nonlinear_arith)
                    requires
                        d == x || d == -x,
                ;
            }
            if d >= eps as u128 {
                assert(d * d >= eps * eps) by (nonlinear_arith)
                    requires
                        d >= eps,
                        eps >= 0,
                ;
                return false;
            }
            assert(d * d < eps * eps) by (nonlinear_arith)
                requires
                    0 <= d < eps,
            ;
            let sq: u128 = d * d;
            if sq >= bound - acc {
                return false;
            }
            acc = acc + sq;
            i = i + 1;
        }
        assert(self@.take(n as int) =~= self@);
        assert(other@.take(n as int) =~= other@);
        true
    }
}

impl Payload for Point {
    fn same(&self, other: &Self) -> (b: bool) {
        let n = self.coords.len();
        if n != other.coords.len() {
            return false;
        }
        let mut i: usize = 0;
        while i < n
            invariant
                n == self.coords.len(),
                n == other.coords.len(),
                i <= n,
                forall|j: int| 0 <= j < i ==> self@[j] == other@[j],
            decreases n - i,
        {
            if self.coords[i] != other.coords[i] {
                return false;
            }
            i = i + 1;
        }
        assert(self@ =~= other@);
        true
    }

    fn duplicate(&self) -> (r: Self) {
        let mut coords: Vec<i64> = Vec::new();
        let mut i: usize = 0;
        while i < self.coords.len()
            invariant
                i <= self.coords.len(),
                coords@ =~= self@.take(i as int),
            decreases self.coords.len() - i,
        {
            coords.push(self.coords[i]);
            i = i + 1;
        }
        assert(self@.take(self.coords.len() as int) =~= self@);
        Point { coords }
    }
}

/// Whether a name refers to a regular polytope, and around which center.
#[derive(Debug)]
pub enum Regular {
    /// The polytope is regular.
    Yes {
        /// The center of the polytope.
        center: Point,
    },
    /// The polytope is not regular.
    No,
}

/// The view of a [`Regular`]: the center is seen as its coordinates.
pub enum RegularView {
    /// The polytope is regular around `center`.
    Yes { center: Seq<i64> },
    /// The polytope is not regular.
    No,
}

impl View for Regular {
    type V = RegularView;

    open spec fn view(&self) -> RegularView {
        match self {
            Regular::Yes { center } => RegularView::Yes { center: center@ },
            Regular::No => RegularView::No,
        }
    }
}

impl Payload for Regular {
    fn same(&self, other: &Self) -> (b: bool) {
        match (self, other) {
            (Regular::Yes { center: a }, Regular::Yes { center: b }) => a.same(b),
            (Regular::No, Regular::No) => true,
            _ => false,
        }
    }

    fn duplicate(&self) -> (r: Self) {
        match self {
            Regular::Yes { center } => Regular::Yes { center: center.duplicate() },
            Regular::No => Regular::No,
        }
    }
}

impl Clone for Point {
    fn clone(&self) -> (r: Self)
        ensures
            r@ == self@,
    {
        self.duplicate()
    }
}

impl PartialEq for Point {
    fn eq(&self, other: &Self) -> (r: bool) {
        self.same(other)
    }
}

impl vstd::std_specs::cmp::PartialEqSpecImpl for Point {
    open spec fn obeys_eq_spec() -> bool {
        true
    }

    open spec fn eq_spec(&self, other: &Self) -> bool {
        self@ == other@
    }
}

impl Clone for Regular {
    fn clone(&self) -> (r: Self)
        ensures
            r@ == self@,
    {
        self.duplicate()
    }
}

impl PartialEq for Regular {
    fn eq(&self, other: &Self) -> (r: bool) {
        self.same(other)
    }
}

impl vstd::std_specs::cmp::PartialEqSpecImpl for Regular {
    open spec fn obeys_eq_spec() -> bool {
        true
    }

    open spec fn eq_spec(&self, other: &Self) -> bool {
        self@ == other@
    }
}

/// The regularity of a polytope that is regular around a center.
impl From<Point> for Regular {
    fn from(center: Point) -> (r: Regular) {
        Regular::Yes { center }
    }
}

impl vstd::std_specs::convert::FromSpecImpl<Point> for Regular {
    open spec fn obeys_from_spec() -> bool {
        true
    }

    open spec fn from_spec(center: Point) -> Regular {
        Regular::Yes { center }
    }
}

/// We don't treat something as regular by default.
impl Default for Regular {
    fn default() -> (r: Self)
        ensures
            r@ == RegularView::No,
    {
        Regular::No
    }
}

/// Data attached to a name. It is either an [`AbsData`], which stores nothing
/// and agrees with anything, or a [`ConData`], which stores an actual value
/// that comparisons go by.
///
/// The model of a wrapper is `None` where nothing is held and `Some` of the
/// held value's view otherwise.
pub trait NameData<T: Payload>: Sized {
    /// The value held, if any.
    spec fn held(&self) -> Option<T>;

    /// The view of the value held, if any.
    spec fn value(&self) -> Option<T::V>;

    /// The view of the value held is the view of that value.
    proof fn lemma_value(&self)
        ensures
            self.value() == match self.held() {
                Some(t) => Some(t@),
                None => None,
            },
    ;

    /// Applies a function to the value held, or returns `other` where
    /// nothing is held.
    fn apply_or<U, F: FnOnce(&T) -> U>(&self, f: F, other: U) -> (r: U)
        requires
            self.held() matches Some(t) ==> f.requires((&t,)),
        ensures
            match self.held() {
                Some(t) => f.ensures((&t,), r),
                None => r == other,
            },
    ;

    /// Applies a function to the value held. Nothing can be applied to a
    /// wrapper that holds nothing.
    fn apply<U, F: FnOnce(&T) -> U>(&self, f: F) -> (r: U)
        requires
            self.held() matches Some(t) && f.requires((&t,)),
        ensures
            self.held() matches Some(t) && f.ensures((&t,), r),
    ;

    /// A wrapper for `value`: it holds `value` or nothing.
    fn new(value: T) -> (r: Self)
        ensures
            r.value() is Some ==> r.value() == Some(value@),
    ;

    /// Whether `self` holds `value`. A wrapper that holds nothing pretends
    /// to hold any value.
    fn contains(&self, value: &T) -> (b: bool)
        ensures
            b == match self.value() {
                Some(v) => v == value@,
                None => true,
            },
    ;

    /// Whether `self` holds `value`, or `other` where nothing is held.
    fn is_or(&self, value: &T, other: bool) -> (b: bool)
        ensures
            b == match self.value() {
                Some(v) => v == value@,
                None => other,
            },
    ;

    /// Whether the two wrappers hold equal values, or `other` where nothing
    /// is held.
    fn eq_or(&self, value: &Self, other: bool) -> (b: bool)
        ensures
            b == match (self.value(), value.value()) {
                (Some(v), Some(w)) => v == w,
                _ => other,
            },
    ;

    /// Whether a value is held.
    fn is_held(&self) -> (b: bool)
        ensures
            b == (self.value() is Some),
    ;

    /// The value held, or `value` where nothing is held.
    fn unwrap_or(self, value: T) -> (r: T)
        ensures
            r@ == match self.value() {
                Some(v) => v,
                None => value@,
            },
    ;

    /// The value held. Nothing may be forced out of a wrapper that holds
    /// nothing.
    fn unwrap(self) -> (r: T)
        requires
            self.value() is Some,
        ensures
            self.value() == Some(r@),
    ;

    /// A reference to the value held.
    fn unwrap_ref(&self) -> (r: &T)
        requires
            self.value() is Some,
        ensures
            self.value() == Some(r@),
    ;

    /// Whether the two wrappers are the same: both hold nothing, or both
    /// hold the same value.
    fn same(&self, other: &Self) -> (b: bool)
        ensures
            b == (self.value() == other.value()),
    ;

    /// A copy of the wrapper.
    fn duplicate(&self) -> (r: Self)
        ensures
            r.value() == self.value(),
    ;
}

/// Phantom data attached to the name of an abstract polytope. It stores
/// nothing, compares as equal to anything, and satisfies any test.
#[derive(Clone, Copy, Debug, PartialEq, Eq, Structural)]
pub struct AbsData;

/// The default value is the only possible value.
impl Default for AbsData {
    fn default() -> (r: Self) {
        AbsData
    }
}

impl<T: Payload> NameData<T> for AbsData {
    open spec fn held(&self) -> Option<T> {
        None
    }

    open spec fn value(&self) -> Option<T::V> {
        None
    }

    proof fn lemma_value(&self) {
    }

    fn apply_or<U, F: FnOnce(&T) -> U>(&self, f: F, other: U) -> (r: U) {
        other
    }

    fn apply<U, F: FnOnce(&T) -> U>(&self, f: F) -> (r: U) {
        vstd::pervasive::unreached()
    }

    fn new(value: T) -> (r: Self) {
        AbsData
    }

    fn contains(&self, value: &T) -> (b: bool) {
        true
    }

    fn is_or(&self, value: &T, other: bool) -> (b: bool) {
        other
    }

    fn eq_or(&self, value: &Self, other: bool) -> (b: bool) {
        other
    }

    fn is_held(&self) -> (b: bool) {
        false
    }

    fn unwrap_or(self, value: T) -> (r: T) {
        value
    }

    fn unwrap(self) -> (r: T) {
        vstd::pervasive::unreached()
    }

    fn unwrap_ref(&self) -> (r: &T) {
        vstd::pervasive::unreached()
    }

    fn same(&self, other: &Self) -> (b: bool) {
        true
    }

    fn duplicate(&self) -> (r: Self) {
        AbsData
    }
}

/// Data attached to the name of a concrete polytope: one value, by which
/// comparisons go.
#[derive(Debug)]
pub struct ConData<T>(pub T);

impl<T: Payload> NameData<T> for ConData<T> {
    open spec fn held(&self) -> Option<T> {
        Some(self.0)
    }

    open spec fn value(&self) -> Option<T::V> {
        Some(self.0@)
    }

    proof fn lemma_value(&self) {
    }

    fn apply_or<U, F: FnOnce(&T) -> U>(&self, f: F, other: U) -> (r: U) {
        f(&self.0)
    }

    fn apply<U, F: FnOnce(&T) -> U>(&self, f: F) -> (r: U) {
        f(&self.0)
    }

    fn new(value: T) -> (r: Self)
        ensures
            r.value() == Some(value@),
    {
        ConData(value)
    }

    fn contains(&self, value: &T) -> (b: bool) {
        self.0.same(value)
    }

    fn is_or(&self, value: &T, other: bool) -> (b: bool) {
        self.0.same(value)
    }

    fn eq_or(&self, value: &Self, other: bool) -> (b: bool) {
        self.0.same(&value.0)
    }

    fn is_held(&self) -> (b: bool) {
        true
    }

    fn unwrap_or(self, value: T) -> (r: T) {
        self.0
    }

    fn unwrap(self) -> (r: T) {
        self.0
    }

    fn unwrap_ref(&self) -> (r: &T) {
        &self.0
    }

    fn same(&self, other: &Self) -> (b: bool) {
        self.0.same(&other.0)
    }

    fn duplicate(&self) -> (r: Self) {
        ConData(self.0.duplicate())
    }
}

impl<T: Payload> Clone for ConData<T> {
    fn clone(&self) -> (r: Self)
        ensures
            r.0@ == self.0@,
    {
        ConData(self.0.duplicate())
    }
}

impl<T: Payload> PartialEq for ConData<T> {
    fn eq(&self, other: &Self) -> (r: bool) {
        self.0.same(&other.0)
    }
}

impl<T: Payload> vstd::std_specs::cmp::PartialEqSpecImpl for ConData<T> {
    open spec fn obeys_eq_spec() -> bool {
        true
    }

    open spec fn eq_spec(&self, other: &Self) -> bool {
        self.0@ == other.0@
    }
}

} // verus!
