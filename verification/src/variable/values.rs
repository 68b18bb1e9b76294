use crate::variable::types::VariableType;
use crate::variable::{Variable, VariableLocation};
use vstd::prelude::*;

verus! {

/// A colour: its red, green and blue parts.
#[derive(Clone, Copy, Debug, Hash, PartialEq, Eq, Structural)]
pub struct Rgb {
    pub r: u8,
    pub g: u8,
    pub b: u8,
}

impl Rgb {
    pub fn new(r: u8, g: u8, b: u8) -> (p: Self)
        ensures
            p == (Rgb { r, g, b }),
    {
        Rgb { r, g, b }
    }

    pub fn black() -> (p: Self)
        ensures
            p == (Rgb { r: 0, g: 0, b: 0 }),
    {
        Rgb { r: 0, g: 0, b: 0 }
    }
}

#[derive(Clone, Copy, Debug, Hash, PartialEq, Eq, Structural)]
pub enum Direction {
    Left,
    Right,
    Up,
    Down,
}

#[derive(Clone, Copy, Debug, Hash, PartialEq, Eq, Structural)]
pub enum Effect {
    Blur,
    Random,
    Inverse,
}

/// A value of the language. A `Vec` holds variables, each of which either
/// carries its value or names a variable of the scope.
#[derive(Debug)]
pub enum VariableValue {
    Any(usize),  // helper type for translator
    Int(i32),
    Pos(usize, usize),
    String(String),
    Color(Rgb),
    Effect(Effect),
    Direction(Direction),
    /// Type for user defined structures
    Component(usize),
    Vec(Vec<Variable>),
}

/// What a value is to the contracts.
pub enum ValueView {
    Any(usize),
    Int(i32),
    Pos(usize, usize),
    String(Seq<char>),
    Color(Rgb),
    Effect(Effect),
    Direction(Direction),
    Component(usize),
    Vec(Seq<VariableView>),
}

/// What a variable is to the contracts.
pub struct VariableView {
    pub name: Seq<char>,
    pub location: VariableLocation,
    pub val: Option<ValueView>,
    pub typ: VariableType,
}

/// The view of a value.
pub open spec fn value_view(v: VariableValue) -> ValueView
    decreases v,
{
    match v {
        VariableValue::Any(x) => ValueView::Any(x),
        VariableValue::Int(i) => ValueView::Int(i),
        VariableValue::Pos(x, y) => ValueView::Pos(x, y),
        VariableValue::String(s) => ValueView::String(s@),
        VariableValue::Color(c) => ValueView::Color(c),
        VariableValue::Effect(e) => ValueView::Effect(e),
        VariableValue::Direction(d) => ValueView::Direction(d),
        VariableValue::Component(c) => ValueView::Component(c),
        VariableValue::Vec(l) => ValueView::Vec(
            Seq::new(
                l.len() as nat,
                |i: int|
                    if 0 <= i < l.len() {
                        variable_view(l[i])
                    } else {
                        VariableView {
                            name: Seq::empty(),
                            location: VariableLocation::Scope,
                            val: None,
                            typ: VariableType::Unresolved,
                        }
                    },
            ),
        ),
    }
}

/// The view of a variable.
pub open spec fn variable_view(v: Variable) -> VariableView
    decreases v,
{
    VariableView {
        name: v.name@,
        location: v.location,
        val: match v.val {
            Some(x) => Some(value_view(x)),
            None => None,
        },
        typ: v.typ,
    }
}

/// The views of a list of variables.
pub open spec fn variables_view(l: Seq<Variable>) -> Seq<VariableView> {
    l.map_values(|v: Variable| variable_view(v))
}

impl View for VariableValue {
    type V = ValueView;

    open spec fn view(&self) -> ValueView {
        value_view(*self)
    }
}

impl View for Variable {
    type V = VariableView;

    open spec fn view(&self) -> VariableView {
        variable_view(*self)
    }
}

/// Whether the first `n` variables have the declared type `t`, loosely.
pub open spec fn all_typed(l: Seq<VariableView>, t: VariableType, n: nat) -> bool
    decreases n,
{
    n == 0 || (all_typed(l, t, (n - 1) as nat) && l[n - 1].typ.loosely_equal(t))
}

impl ValueView {
    /// Whether two values are of the same kind.
    pub open spec fn same_kind(self, other: ValueView) -> bool {
        match (self, other) {
            (ValueView::Any(_), ValueView::Any(_)) => true,
            (ValueView::Int(_), ValueView::Int(_)) => true,
            (ValueView::Pos(_, _), ValueView::Pos(_, _)) => true,
            (ValueView::String(_), ValueView::String(_)) => true,
            (ValueView::Color(_), ValueView::Color(_)) => true,
            (ValueView::Effect(_), ValueView::Effect(_)) => true,
            (ValueView::Direction(_), ValueView::Direction(_)) => true,
            (ValueView::Component(_), ValueView::Component(_)) => true,
            (ValueView::Vec(_), ValueView::Vec(_)) => true,
            _ => false,
        }
    }

    /// The type of the value. A `Vec` has the type of a `Vec` of the
    /// declared type of its variables; where it is empty or its variables
    /// differ in their declared types, its type is unresolved.
    pub open spec fn type_of(self) -> VariableType {
        match self {
            ValueView::Int(_) => VariableType::Int,
            ValueView::Pos(_, _) => VariableType::Pos,
            ValueView::Color(_) => VariableType::Color,
            ValueView::String(_) => VariableType::String,
            ValueView::Effect(_) => VariableType::Effect,
            ValueView::Direction(_) => VariableType::Direction,
            ValueView::Component(i) => VariableType::Component(i),
            ValueView::Any(i) => VariableType::Any(i),
            ValueView::Vec(l) => {
                if l.len() > 0 && all_typed(l, l[0].typ, l.len()) {
                    VariableType::Vec(Box::new(l[0].typ))
                } else {
                    VariableType::Unresolved
                }
            },
        }
    }
}

impl VariableType {
    /// Whether a value of the type can be made up: the type does not hold
    /// the failure marker.
    pub open spec fn resolved(self) -> bool
        decreases self,
    {
        match self {
            VariableType::Unresolved => false,
            VariableType::Vec(x) => x.resolved(),
            _ => true,
        }
    }

    /// The value that a variable of the type starts with.
    pub open spec fn default_view(self) -> ValueView
        decreases self,
    {
        match self {
            VariableType::Vec(x) => ValueView::Vec(
                seq![
                    VariableView {
                        name: Seq::empty(),
                        location: VariableLocation::Static,
                        val: Some(x.default_view()),
                        typ: x.default_view().type_of(),
                    },
                ],
            ),
            VariableType::Int => ValueView::Int(0),
            VariableType::Pos => ValueView::Pos(0, 0),
            VariableType::Direction => ValueView::Direction(Direction::Left),
            VariableType::Color => ValueView::Color(Rgb { r: 0, g: 0, b: 0 }),
            VariableType::String => ValueView::String(Seq::empty()),
            VariableType::Effect => ValueView::Effect(Effect::Blur),
            VariableType::Any(x) => ValueView::Any(x),
            VariableType::Component(x) => ValueView::Component(x),
            VariableType::Unresolved => ValueView::Any(0),
        }
    }

    /// Returns default value for given type, which must not hold the
    /// failure marker
    /// Int -> Int(0)
    /// Pos -> Pos(0,0)
    /// [Int] -> [Int(0)]
    pub fn default(&self) -> (r: VariableValue)
        requires
            self.resolved(),
        ensures
            r@ == self.default_view(),
        decreases *self,
    {
        match self {
            VariableType::Vec(x) => {
                let mut elements: Vec<Variable> = Vec::new();
                elements.push(x.default().to_var());
                proof {
                    lemma_vec_view(elements);
                    assert(variables_view(elements@) =~= seq![elements@[0]@]);
                }
                VariableValue::Vec(elements)
            },
            VariableType::Int => VariableValue::Int(0),
            VariableType::Pos => VariableValue::Pos(0, 0),
            VariableType::Direction => VariableValue::Direction(Direction::Left),
            VariableType::Color => VariableValue::Color(Rgb::black()),
            VariableType::String => VariableValue::String(String::new()),
            VariableType::Effect => VariableValue::Effect(Effect::Blur),
            VariableType::Any(x) => VariableValue::Any(*x),
            VariableType::Component(x) => VariableValue::Component(*x),
            VariableType::Unresolved => VariableValue::Any(0),
        }
    }
}

/// The view of a `Vec` value is the list of the views of its variables.
pub proof fn lemma_vec_view(l: Vec<Variable>)
    ensures
        value_view(VariableValue::Vec(l)) == ValueView::Vec(variables_view(l@)),
{
    assert(value_view(VariableValue::Vec(l))->Vec_0 =~= variables_view(l@));
}

impl VariableValue {
    /// Whether the two values are of the same kind.
    pub fn type_check(&self, v2: &Self) -> (r: bool)
        ensures
            r == self@.same_kind(v2@),
    {
        match (self, v2) {
            (VariableValue::Any(_), VariableValue::Any(_)) => true,
            (VariableValue::Int(_), VariableValue::Int(_)) => true,
            (VariableValue::Pos(_, _), VariableValue::Pos(_, _)) => true,
            (VariableValue::String(_), VariableValue::String(_)) => true,
            (VariableValue::Color(_), VariableValue::Color(_)) => true,
            (VariableValue::Effect(_), VariableValue::Effect(_)) => true,
            (VariableValue::Direction(_), VariableValue::Direction(_)) => true,
            (VariableValue::Component(_), VariableValue::Component(_)) => true,
            (VariableValue::Vec(_), VariableValue::Vec(_)) => true,
            _ => false,
        }
    }

    /// The value of a variable that has none yet.
    pub fn empty() -> (r: Self)
        ensures
            r@ == ValueView::Any(0),
    {
        VariableValue::Any(0)
    }

    /// The type of the value; see `ValueView::type_of`.
    pub fn get_type(&self) -> (r: VariableType)
        ensures
            r == self@.type_of(),
    {
        match self {
            VariableValue::Int(_) => VariableType::Int,
            VariableValue::Pos(_, _) => VariableType::Pos,
            VariableValue::Color(_) => VariableType::Color,
            VariableValue::String(_) => VariableType::String,
            VariableValue::Effect(_) => VariableType::Effect,
            VariableValue::Direction(_) => VariableType::Direction,
            VariableValue::Component(i) => VariableType::Component(*i),
            VariableValue::Vec(v) => {
                proof {
                    lemma_vec_view(*v);
                }
                if v.len() == 0 {
                    return VariableType::Unresolved;
                }
                let ghost views = variables_view(v@);
                let t = v[0].get_type();
                let mut i: usize = 1;
                assert(all_typed(views, *t, 1)) by {
                    crate::variable::types::lemma_loosely_equal_reflexive(*t);
                    assert(all_typed(views, *t, 0));
                }
                while i < v.len()
                    invariant
                        1 <= i <= v.len(),
                        views == variables_view(v@),
                        self@ == ValueView::Vec(views),
                        *t == views[0].typ,
                        all_typed(views, *t, i as nat),
                    decreases v.len() - i,
                {
                    if !v[i].get_type().loosely_matches(t) {
                        proof {
                            assert(views[i as int].typ == v@[i as int].typ);
                            assert(!all_typed(views, *t, (i + 1) as nat));
                            lemma_all_typed_fails(views, *t, (i + 1) as nat, views.len());
                        }
                        return VariableType::Unresolved;
                    }
                    i += 1;
                }
                VariableType::Vec(Box::new(t.clone()))
            },
            VariableValue::Any(i) => VariableType::Any(*i),
        }
    }

    /// A variable that carries this value.
    pub fn to_var(&self) -> (r: Variable)
        ensures
            r@ == (VariableView {
                name: Seq::empty(),
                location: VariableLocation::Static,
                val: Some(self@),
                typ: self@.type_of(),
            }),
    {
        Variable::new_static(self.clone())
    }
}

impl Clone for VariableValue {
    fn clone(&self) -> (r: Self)
        ensures
            r@ == self@,
        decreases *self,
    {
        match self {
            VariableValue::Any(x) => VariableValue::Any(*x),
            VariableValue::Int(i) => VariableValue::Int(*i),
            VariableValue::Pos(x, y) => VariableValue::Pos(*x, *y),
            VariableValue::String(s) => VariableValue::String(s.clone()),
            VariableValue::Color(c) => VariableValue::Color(*c),
            VariableValue::Effect(e) => VariableValue::Effect(*e),
            VariableValue::Direction(d) => VariableValue::Direction(*d),
            VariableValue::Component(c) => VariableValue::Component(*c),
            VariableValue::Vec(l) => {
                let mut out: Vec<Variable> = Vec::new();
                let mut i: usize = 0;
                while i < l.len()
                    invariant
                        i <= l.len(),
                        *self == VariableValue::Vec(*l),
                        out@.len() == i,
                        forall|k: int| 0 <= k < i ==> (#[trigger] out@[k])@ == l@[k]@,
                    decreases l.len() - i,
                {
                    let item = &l[i];
                    proof {
                        vstd::std_specs::vec::axiom_vec_index_decreases(*l, i as int);
                        assert((*self)->Vec_0 == *l);
                        assert(decreases_to!(*self => (*self)->Vec_0));
                    }
                    out.push(item.clone());
                    i += 1;
                }
                proof {
                    lemma_vec_view(out);
                    lemma_vec_view(*l);
                    assert(variables_view(out@) =~= variables_view(l@));
                }
                VariableValue::Vec(out)
            },
        }
    }
}

/// Where the first `k` variables are not all of a type, the first `n` are
/// not.
pub proof fn lemma_all_typed_fails(l: Seq<VariableView>, t: VariableType, k: nat, n: nat)
    requires
        !all_typed(l, t, k),
        k <= n,
    ensures
        !all_typed(l, t, n),
    decreases n,
{
    if k < n {
        lemma_all_typed_fails(l, t, k, (n - 1) as nat);
    }
}

/// Whether the two values are the same: of the same kind, with the same
/// contents.
pub fn same_value(a: &VariableValue, b: &VariableValue) -> (r: bool)
    ensures
        r == (a@ == b@),
    decreases *a,
{
    match (a, b) {
        (VariableValue::Any(x), VariableValue::Any(y)) => *x == *y,
        (VariableValue::Int(x), VariableValue::Int(y)) => *x == *y,
        (VariableValue::Pos(x1, y1), VariableValue::Pos(x2, y2)) => *x1 == *x2 && *y1 == *y2,
        (VariableValue::String(x), VariableValue::String(y)) => *x == *y,
        (VariableValue::Color(x), VariableValue::Color(y)) => *x == *y,
        (VariableValue::Effect(x), VariableValue::Effect(y)) => *x == *y,
        (VariableValue::Direction(x), VariableValue::Direction(y)) => *x == *y,
        (VariableValue::Component(x), VariableValue::Component(y)) => *x == *y,
        (VariableValue::Vec(x), VariableValue::Vec(y)) => {
            proof {
                lemma_vec_view(*x);
                lemma_vec_view(*y);
            }
            if x.len() != y.len() {
                assert(variables_view(x@).len() != variables_view(y@).len());
                return false;
            }
            let mut i: usize = 0;
            while i < x.len()
                invariant
                    i <= x.len(),
                    x@.len() == y@.len(),
                    *a == VariableValue::Vec(*x),
                    a@ == ValueView::Vec(variables_view(x@)),
                    b@ == ValueView::Vec(variables_view(y@)),
                    forall|k: int| 0 <= k < i ==> (#[trigger] x@[k])@ == y@[k]@,
                decreases x.len() - i,
            {
                let left = &x[i];
                proof {
                    vstd::std_specs::vec::axiom_vec_index_decreases(*x, i as int);
                    assert((*a)->Vec_0 == *x);
                    assert(decreases_to!(*a => (*a)->Vec_0));
                }
                if !same_variable(left, &y[i]) {
                    assert(variables_view(x@)[i as int] != variables_view(y@)[i as int]);
                    return false;
                }
                i += 1;
            }
            assert(variables_view(x@) =~= variables_view(y@));
            true
        },
        _ => false,
    }
}

/// Whether the two variables are the same: of the same name, location and
/// declared type, with the same value.
pub fn same_variable(a: &Variable, b: &Variable) -> (r: bool)
    ensures
        r == (a@ == b@),
    decreases *a,
{
    if !(a.name == b.name) {
        return false;
    }
    if !(a.location == b.location) {
        return false;
    }
    if !a.typ.strictly_matches(&b.typ) {
        return false;
    }
    match (&a.val, &b.val) {
        (Some(x), Some(y)) => same_value(x, y),
        (None, None) => true,
        _ => false,
    }
}

impl PartialEq for VariableValue {
    fn eq(&self, other: &Self) -> (r: bool) {
        same_value(self, other)
    }
}

impl vstd::std_specs::cmp::PartialEqSpecImpl for VariableValue {
    open spec fn obeys_eq_spec() -> bool {
        true
    }

    open spec fn eq_spec(&self, other: &Self) -> bool {
        self@ == other@
    }
}

} // verus!
