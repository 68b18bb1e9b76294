use vstd::prelude::*;

verus! {

/// The kind of a value. `Vec` nests arbitrarily; `Any` is a placeholder for a
/// type that is not known yet, tagged with a binding number; `Unresolved`
/// marks a failed type resolution.
#[derive(Debug, Hash, Eq)]
pub enum VariableType {
    Int,
    Pos,
    Color,
    String,
    Effect,
    Direction,
    Vec(Box<VariableType>),
    Any(usize),
    /// Type for user defined structures
    Component(usize),
    /// Error type for type inference
    Unresolved,
}

impl VariableType {
    /// Whether a placeholder occurs anywhere in the type.
    pub open spec fn ambiguous(self) -> bool
        decreases self,
    {
        match self {
            VariableType::Any(_) => true,
            VariableType::Vec(x) => x.ambiguous(),
            _ => false,
        }
    }

    /// Whether the type is fully known: it holds neither a placeholder nor
    /// the failure marker.
    pub open spec fn concrete(self) -> bool
        decreases self,
    {
        match self {
            VariableType::Any(_) => false,
            VariableType::Unresolved => false,
            VariableType::Vec(x) => x.concrete(),
            _ => true,
        }
    }

    /// The loose equality that `==` computes: two placeholders are equal
    /// whatever their bindings.
    pub open spec fn loosely_equal(self, other: Self) -> bool
        decreases self,
    {
        match (self, other) {
            (VariableType::Component(x), VariableType::Component(y)) => x == y,
            (VariableType::Any(_), VariableType::Any(_)) => true,
            (VariableType::Vec(x), VariableType::Vec(y)) => x.loosely_equal(*y),
            (VariableType::Int, VariableType::Int) => true,
            (VariableType::Pos, VariableType::Pos) => true,
            (VariableType::Color, VariableType::Color) => true,
            (VariableType::String, VariableType::String) => true,
            (VariableType::Effect, VariableType::Effect) => true,
            (VariableType::Direction, VariableType::Direction) => true,
            (VariableType::Unresolved, VariableType::Unresolved) => true,
            _ => false,
        }
    }

    /// The binding number of the placeholder inside, if there is one.
    pub open spec fn binding(self) -> Option<usize>
        decreases self,
    {
        match self {
            VariableType::Any(x) => Some(x),
            VariableType::Vec(x) => x.binding(),
            _ => None,
        }
    }

    /// Loose equality together with equal bindings.
    pub open spec fn strictly_equal(self, other: Self) -> bool {
        self.loosely_equal(other) && self.binding() == other.binding()
    }

    /// The number of `Vec` layers around the innermost type.
    pub open spec fn depth(self) -> nat
        decreases self,
    {
        match self {
            VariableType::Vec(x) => x.depth() + 1,
            _ => 0,
        }
    }

    /// The type with `levels` layers of `Vec` taken off, as far as there are
    /// that many.
    pub open spec fn unwrapped(self, levels: nat) -> Self
        decreases levels,
    {
        if levels == 0 {
            self
        } else {
            match self {
                VariableType::Vec(x) => x.unwrapped((levels - 1) as nat),
                _ => self,
            }
        }
    }

    /// The type with the binding `b` of its placeholder turned into
    /// `usize::MAX - b`.
    pub open spec fn inverted(self) -> Self
        decreases self,
    {
        match self {
            VariableType::Any(x) => VariableType::Any((usize::MAX - x) as usize),
            VariableType::Vec(x) => VariableType::Vec(Box::new(x.inverted())),
            _ => self,
        }
    }

    /// The binding that `set_binding` stores for a requested number: the
    /// smaller of the number and its inversion.
    pub open spec fn folded_binding(x: usize) -> usize {
        if x <= usize::MAX - x {
            x
        } else {
            (usize::MAX - x) as usize
        }
    }

    /// The type with the binding of its placeholder replaced.
    pub open spec fn rebound(self, x: usize) -> Self
        decreases self,
    {
        match self {
            VariableType::Any(_) => VariableType::Any(Self::folded_binding(x)),
            VariableType::Vec(v) => VariableType::Vec(Box::new(v.rebound(x))),
            _ => self,
        }
    }

    /// The type with the placeholder bound to `binding` replaced by
    /// `new_type`.
    pub open spec fn substituted(self, binding: usize, new_type: Self) -> Self
        decreases self,
    {
        match self {
            VariableType::Any(x) => if x == binding {
                new_type
            } else {
                self
            },
            VariableType::Vec(v) => VariableType::Vec(Box::new(v.substituted(binding, new_type))),
            _ => self,
        }
    }

    /// Every type is a subset of a placeholder, and a `Vec` of a `Vec` whose
    /// element type it is a subset of.
    pub open spec fn subset_of(self, other: Self) -> bool
        decreases self,
    {
        match (self, other) {
            (_, VariableType::Any(_)) => true,
            (VariableType::Vec(a), VariableType::Vec(b)) => a.subset_of(*b),
            _ => false,
        }
    }

    /// The most specific type that both types admit.
    ///
    /// The failure marker admits nothing. Two `Vec`s meet in the `Vec` of
    /// what their elements meet in. Two placeholders meet in the left one. A
    /// placeholder and another type meet in that type, unless that type
    /// holds a placeholder of the same binding. Otherwise the two types must
    /// be equal.
    pub open spec fn intersection(self, other: Self) -> Option<Self>
        decreases self,
    {
        match (self, other) {
            (VariableType::Unresolved, _) => None,
            (_, VariableType::Unresolved) => None,
            (VariableType::Vec(x), VariableType::Vec(y)) => match x.intersection(*y) {
                Some(t) => Some(VariableType::Vec(Box::new(t))),
                None => None,
            },
            (VariableType::Any(_), VariableType::Any(_)) => Some(self),
            (VariableType::Any(x), t) => if t.binding() == Some(x) {
                None
            } else {
                Some(t)
            },
            (t, VariableType::Any(x)) => if t.binding() == Some(x) {
                None
            } else {
                Some(t)
            },
            _ => if self.loosely_equal(other) {
                Some(self)
            } else {
                None
            },
        }
    }

    /// Returns whether a contains Any
    /// Int -> false
    /// Any(_) -> true
    /// [Any(_)] -> true
    pub fn is_ambiguous(&self) -> (r: bool)
        ensures
            r == self.ambiguous(),
        decreases *self,
    {
        match self {
            VariableType::Any(_) => true,
            VariableType::Vec(x) => x.is_ambiguous(),
            _ => false,
        }
    }

    /// Pos + Int -> nothing
    /// Int + Int -> Int
    /// Any(1) + Int -> Int
    /// [Any(1)] + [[Int]] -> [[Int]]
    /// Any(1) + Any(2) -> Any(1)
    /// Any(1) + [Any(1)] -> nothing
    pub fn intersect(&self, other: &Self) -> (r: Option<Self>)
        ensures
            r == self.intersection(*other),
        decreases *self,
    {
        match (self, other) {
            (VariableType::Unresolved, _) => None,
            (_, VariableType::Unresolved) => None,
            (VariableType::Vec(x), VariableType::Vec(y)) => {
                match x.intersect(y) {
                    Some(t) => Some(VariableType::Vec(Box::new(t))),
                    None => None,
                }
            },
            (VariableType::Any(_), VariableType::Any(_)) => Some(self.clone()),
            (VariableType::Any(x), t) => {
                match t.get_binding() {
                    Some(y) => if y == *x {
                        None
                    } else {
                        Some(t.clone())
                    },
                    None => Some(t.clone()),
                }
            },
            (t, VariableType::Any(x)) => {
                match t.get_binding() {
                    Some(y) => if y == *x {
                        None
                    } else {
                        Some(t.clone())
                    },
                    None => Some(t.clone()),
                }
            },
            _ => {
                if self.loosely_matches(other) {
                    Some(self.clone())
                } else {
                    None
                }
            },
        }
    }

    /// Int in Int -> false
    /// Int in Pos -> false
    /// Int in Any(1) -> true
    /// Any(1) in Int -> false
    /// Any(1) in Any(2) -> true
    /// [Int] in [Any(1)] -> true
    /// [Int] in Any(1) -> true
    pub fn is_subset_of(&self, other: &Self) -> (r: bool)
        ensures
            r == self.subset_of(*other),
        decreases *self,
    {
        match (self, other) {
            (_, VariableType::Any(_)) => true,
            (VariableType::Vec(a), VariableType::Vec(b)) => a.is_subset_of(b),
            _ => false,
        }
    }

    /// Get binding of ambiguous types
    /// Any(1) -> 1
    /// [[Any(3)]] -> 3
    /// Int -> nothing
    pub fn get_binding(&self) -> (r: Option<usize>)
        ensures
            r == self.binding(),
        decreases *self,
    {
        match self {
            VariableType::Any(x) => Some(*x),
            VariableType::Vec(x) => x.get_binding(),
            _ => None,
        }
    }

    /// For ambiguous types: convert binding x into MAX-x, so that bindings
    /// from different contexts do not get mixed up.
    pub fn with_inverted_binding(&self) -> (r: Self)
        ensures
            r == self.inverted(),
        decreases *self,
    {
        match self {
            VariableType::Any(x) => VariableType::Any(usize::MAX - *x),
            VariableType::Vec(x) => VariableType::Vec(Box::new(x.with_inverted_binding())),
            _ => self.clone(),
        }
    }

    /// The type with the binding replaced, as a new value.
    pub fn with_binding(&self, x: usize) -> (r: Self)
        ensures
            r == self.rebound(x),
        decreases *self,
    {
        match self {
            VariableType::Any(_) => {
                let inv: usize = usize::MAX - x;
                if x <= inv {
                    VariableType::Any(x)
                } else {
                    VariableType::Any(inv)
                }
            },
            VariableType::Vec(v) => VariableType::Vec(Box::new(v.with_binding(x))),
            _ => self.clone(),
        }
    }

    /// Set binding of ambiguous type.
    /// If the type is not ambiguous, nothing happens
    /// Any(x) + 42 -> Any(42)
    /// [[Any(y)]] + 1 -> [[Any(1)]]
    /// Pos + 22 -> Pos
    pub fn set_binding(&mut self, x: usize)
        ensures
            *final(self) == old(self).rebound(x),
    {
        let next = self.with_binding(x);
        *self = next;
    }

    /// The type with the placeholder of the given binding replaced, as a new
    /// value.
    pub fn with_binding_type(&self, binding: usize, new_type: &Self) -> (r: Self)
        ensures
            r == self.substituted(binding, *new_type),
        decreases *self,
    {
        match self {
            VariableType::Any(x) => {
                if *x != binding {
                    self.clone()
                } else {
                    new_type.clone()
                }
            },
            VariableType::Vec(v) => VariableType::Vec(
                Box::new(v.with_binding_type(binding, new_type)),
            ),
            _ => self.clone(),
        }
    }

    /// If the binding number matches, switch ambiguous type for a new one
    /// Any(1).set_binding_type(1, Int) -> Int
    /// Any(1).set_binding_type(2, Int) -> Any(1)
    /// [Any(1)].set_binding_type(1, Int) -> [Int]
    pub fn set_binding_type(&mut self, binding: usize, new_type: &Self)
        ensures
            *final(self) == old(self).substituted(binding, *new_type),
    {
        let next = self.with_binding_type(binding, new_type);
        *self = next;
    }

    /// The loose equality of `==`, as a function.
    pub fn loosely_matches(&self, other: &Self) -> (r: bool)
        ensures
            r == self.loosely_equal(*other),
        decreases *self,
    {
        match (self, other) {
            (VariableType::Component(x), VariableType::Component(y)) => *x == *y,
            (VariableType::Any(_), VariableType::Any(_)) => true,
            (VariableType::Vec(x), VariableType::Vec(y)) => x.loosely_matches(y),
            (VariableType::Int, VariableType::Int) => true,
            (VariableType::Pos, VariableType::Pos) => true,
            (VariableType::Color, VariableType::Color) => true,
            (VariableType::String, VariableType::String) => true,
            (VariableType::Effect, VariableType::Effect) => true,
            (VariableType::Direction, VariableType::Direction) => true,
            (VariableType::Unresolved, VariableType::Unresolved) => true,
            _ => false,
        }
    }

    /// strictly_matches(Any(0), Any(1)) -> false
    /// normally Any(0) == Any(1) -> true
    pub fn strictly_matches(&self, other: &Self) -> (r: bool)
        ensures
            r == self.strictly_equal(*other),
            r == (*self == *other),
    {
        proof {
            lemma_strict_is_identity(*self, *other);
        }
        let same_binding = match (self.get_binding(), other.get_binding()) {
            (Some(a), Some(b)) => a == b,
            (None, None) => true,
            _ => false,
        };
        self.loosely_matches(other) && same_binding
    }

    /// Int -> 0
    /// [Pos] -> 1
    /// [[[Any(42)]]] -> 3
    ///
    /// A depth that does not fit the machine word is reported as
    /// `usize::MAX`.
    pub fn get_depth(&self) -> (r: usize)
        ensures
            self.depth() <= usize::MAX ==> r == self.depth(),
            self.depth() > usize::MAX ==> r == usize::MAX,
        decreases *self,
    {
        match self {
            VariableType::Vec(nx) => {
                let inner: usize = nx.get_depth();
                if inner < usize::MAX {
                    inner + 1
                } else {
                    inner
                }
            },
            _ => 0,
        }
    }

    /// The number of `Vec` layers around the placeholder of an ambiguous
    /// type, which is the depth that it shares with every type it can stand
    /// for. `other` is the type it is compared with; it does not change the
    /// result.
    pub fn common_depth(&self, other: &Self) -> (r: usize)
        requires
            self.ambiguous(),
        ensures
            self.depth() <= usize::MAX ==> r == self.depth(),
            self.depth() > usize::MAX ==> r == usize::MAX,
    {
        self.get_depth()
    }

    /// The type without as many layers of `Vec` as `pattern` has, or
    /// nothing if it has fewer.
    pub fn unwrap_like(&self, pattern: &Self) -> (r: Option<Self>)
        ensures
            r == (if self.depth() >= pattern.depth() {
                Some(self.unwrapped(pattern.depth()))
            } else {
                None
            }),
        decreases *pattern,
    {
        match pattern {
            VariableType::Vec(p) => match self {
                VariableType::Vec(x) => x.unwrap_like(p),
                _ => None,
            },
            _ => Some(self.clone()),
        }
    }

    /// Takes `depth` layers of `Vec` off the type, which must have that
    /// many.
    pub fn unwrap_depth(&self, depth: usize) -> (r: Self)
        requires
            depth <= self.depth(),
        ensures
            r == self.unwrapped(depth as nat),
        decreases depth,
    {
        if depth == 0 {
            self.clone()
        } else {
            match self {
                VariableType::Vec(nx) => nx.unwrap_depth(depth - 1),
                _ => self.clone(),
            }
        }
    }
}

impl Clone for VariableType {
    fn clone(&self) -> (r: Self)
        ensures
            r == *self,
        decreases *self,
    {
        match self {
            VariableType::Int => VariableType::Int,
            VariableType::Pos => VariableType::Pos,
            VariableType::Color => VariableType::Color,
            VariableType::String => VariableType::String,
            VariableType::Effect => VariableType::Effect,
            VariableType::Direction => VariableType::Direction,
            VariableType::Vec(x) => {
                let inner: VariableType = (**x).clone();
                VariableType::Vec(Box::new(inner))
            },
            VariableType::Any(b) => VariableType::Any(*b),
            VariableType::Component(c) => VariableType::Component(*c),
            VariableType::Unresolved => VariableType::Unresolved,
        }
    }
}

impl PartialEq for VariableType {
    fn eq(&self, other: &Self) -> (r: bool) {
        self.loosely_matches(other)
    }
}

impl vstd::std_specs::cmp::PartialEqSpecImpl for VariableType {
    open spec fn obeys_eq_spec() -> bool {
        true
    }

    open spec fn eq_spec(&self, other: &Self) -> bool {
        self.loosely_equal(*other)
    }
}

/// Two types that are loosely equal and carry the same binding are the same
/// type, and the other way round.
pub proof fn lemma_strict_is_identity(a: VariableType, b: VariableType)
    ensures
        a.strictly_equal(b) == (a == b),
    decreases a,
{
    match (a, b) {
        (VariableType::Vec(x), VariableType::Vec(y)) => {
            lemma_strict_is_identity(*x, *y);
        },
        _ => {},
    }
}

/// Loose equality is reflexive.
pub proof fn lemma_loosely_equal_reflexive(a: VariableType)
    ensures
        a.loosely_equal(a),
    decreases a,
{
    match a {
        VariableType::Vec(x) => {
            lemma_loosely_equal_reflexive(*x);
        },
        _ => {},
    }
}

/// Loose equality is symmetric.
pub proof fn lemma_loosely_equal_symmetric(a: VariableType, b: VariableType)
    ensures
        a.loosely_equal(b) == b.loosely_equal(a),
    decreases a,
{
    match (a, b) {
        (VariableType::Vec(x), VariableType::Vec(y)) => {
            lemma_loosely_equal_symmetric(*x, *y);
        },
        _ => {},
    }
}

/// Loose equality is transitive.
pub proof fn lemma_loosely_equal_transitive(a: VariableType, b: VariableType, c: VariableType)
    requires
        a.loosely_equal(b),
        b.loosely_equal(c),
    ensures
        a.loosely_equal(c),
    decreases a,
{
    match (a, b, c) {
        (VariableType::Vec(x), VariableType::Vec(y), VariableType::Vec(z)) => {
            lemma_loosely_equal_transitive(*x, *y, *z);
        },
        _ => {},
    }
}

/// Among types without a placeholder, loose equality is identity.
pub proof fn lemma_loosely_equal_unambiguous(a: VariableType, b: VariableType)
    requires
        !a.ambiguous(),
        a.loosely_equal(b),
    ensures
        a == b,
    decreases a,
{
    match (a, b) {
        (VariableType::Vec(x), VariableType::Vec(y)) => {
            lemma_loosely_equal_unambiguous(*x, *y);
        },
        _ => {},
    }
}

/// Inverting the binding twice gives the type back.
pub proof fn lemma_inverted_twice(a: VariableType)
    ensures
        a.inverted().inverted() == a,
        a.inverted().ambiguous() == a.ambiguous(),
        a.inverted().depth() == a.depth(),
    decreases a,
{
    match a {
        VariableType::Vec(x) => {
            lemma_inverted_twice(*x);
        },
        _ => {},
    }
}

/// A type holds a placeholder exactly if it has a binding.
pub proof fn lemma_ambiguous_has_binding(a: VariableType)
    ensures
        a.ambiguous() == a.binding().is_some(),
    decreases a,
{
    match a {
        VariableType::Vec(x) => {
            lemma_ambiguous_has_binding(*x);
        },
        _ => {},
    }
}

} // verus!
