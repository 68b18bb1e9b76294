use crate::context::{Context, ContextView, Shape};
use crate::error::RuntimeError;
use crate::event::activeness::Activeness;
use crate::event::arithmetic::{
    magnitude, move_phase, move_restricted, place_behind, rotated_left, rotated_right,
    saturated_sum, saturating_add, saturating_sub, shifted, wrapped,
};
use crate::variable::stack::{Layers, Stack};
use crate::variable::values::{
    lemma_vec_view, variables_view, Direction, ValueView, VariableValue, VariableView,
};
use crate::variable::Variable;
use vstd::arithmetic::div_mod::{lemma_fundamental_div_mod, lemma_fundamental_div_mod_converse};
use vstd::prelude::*;

verus! {

/// The value of a parameter in a frame of the given size.
pub open spec fn param_value(var: VariableView, context: ContextView, layers: Layers) -> Result<
    ValueView,
    RuntimeError,
> {
    var.value(context.width, context.height, layers)
}

/// The position after a move by `step` in the direction `d`. A restricted
/// move stops at the edges of the frame; any other move leaves the frame at
/// one edge to come in at the other, which a frame without points on that
/// axis does not allow.
pub open spec fn moved_position(
    x: usize,
    y: usize,
    d: Direction,
    step: i32,
    context: ContextView,
    restricted: bool,
) -> Result<(int, int), RuntimeError> {
    let w = context.width as int;
    let h = context.height as int;
    if restricted {
        match d {
            Direction::Left => Ok((shifted(x as int, -(step as int), w), y as int)),
            Direction::Right => Ok((shifted(x as int, step as int, w), y as int)),
            Direction::Up => Ok((x as int, shifted(y as int, -(step as int), h))),
            Direction::Down => Ok((x as int, shifted(y as int, step as int, h))),
        }
    } else {
        match d {
            Direction::Left => if w == 0 {
                Err(RuntimeError::EmptyFrame)
            } else {
                Ok((wrapped(x as int, -(step as int), w), y as int))
            },
            Direction::Right => if w == 0 {
                Err(RuntimeError::EmptyFrame)
            } else {
                Ok((wrapped(x as int, step as int, w), y as int))
            },
            Direction::Up => if h == 0 {
                Err(RuntimeError::EmptyFrame)
            } else {
                Ok((x as int, wrapped(y as int, -(step as int), h)))
            },
            Direction::Down => if h == 0 {
                Err(RuntimeError::EmptyFrame)
            } else {
                Ok((x as int, wrapped(y as int, step as int, h)))
            },
        }
    }
}

/// The scope after `move <Pos> <Direction> by <Int>`, restricted or not: the
/// first parameter gets the moved position.
pub open spec fn moved(
    params: Seq<VariableView>,
    context: ContextView,
    layers: Layers,
    restricted: bool,
) -> Result<Layers, RuntimeError> {
    if params.len() != 3 {
        Err(RuntimeError::ParameterCount)
    } else {
        match param_value(params[0], context, layers) {
            Err(e) => Err(e),
            Ok(pos) => match param_value(params[1], context, layers) {
                Err(e) => Err(e),
                Ok(d) => match param_value(params[2], context, layers) {
                    Err(e) => Err(e),
                    Ok(step) => match (pos, d, step) {
                        (
                            ValueView::Pos(x, y),
                            ValueView::Direction(dir),
                            ValueView::Int(i),
                        ) => match moved_position(x, y, dir, i, context, restricted) {
                            Ok((nx, ny)) => params[0].assigned(
                                layers,
                                ValueView::Pos(nx as usize, ny as usize),
                            ),
                            Err(e) => Err(e),
                        },
                        _ => Err(RuntimeError::TypeMismatch),
                    },
                },
            },
        }
    }
}

/// The flags after `activate <String>` or `deactivate <String>`: the action
/// that the parameter names is active or not as `val` says.
pub open spec fn activeness_set(
    params: Seq<VariableView>,
    context: ContextView,
    layers: Layers,
    flags: Map<Seq<char>, bool>,
    val: bool,
) -> Result<Map<Seq<char>, bool>, RuntimeError> {
    if params.len() != 1 {
        Err(RuntimeError::ParameterCount)
    } else {
        match param_value(params[0], context, layers) {
            Err(e) => Err(e),
            Ok(ValueView::String(l)) => if flags.contains_key(l) {
                Ok(flags.insert(l, val))
            } else {
                Err(RuntimeError::UnknownAction)
            },
            Ok(_) => Err(RuntimeError::TypeMismatch),
        }
    }
}

/// The flags after `toggle <String>`: the action that the parameter names is
/// active if it was not, and the other way round.
pub open spec fn activeness_toggled(
    params: Seq<VariableView>,
    context: ContextView,
    layers: Layers,
    flags: Map<Seq<char>, bool>,
) -> Result<Map<Seq<char>, bool>, RuntimeError> {
    if params.len() != 1 {
        Err(RuntimeError::ParameterCount)
    } else {
        match param_value(params[0], context, layers) {
            Err(e) => Err(e),
            Ok(ValueView::String(l)) => if flags.contains_key(l) {
                Ok(flags.insert(l, !flags[l]))
            } else {
                Err(RuntimeError::UnknownAction)
            },
            Ok(_) => Err(RuntimeError::TypeMismatch),
        }
    }
}

/// The scope after `add <Int> to <Int>` or `sub <Int> from <Int>`: the
/// second parameter gets the sum, or the difference, held at the ends of the
/// 32-bit range.
pub open spec fn summed(
    params: Seq<VariableView>,
    context: ContextView,
    layers: Layers,
    subtract: bool,
) -> Result<Layers, RuntimeError> {
    if params.len() < 2 {
        Err(RuntimeError::ParameterCount)
    } else {
        match param_value(params[0], context, layers) {
            Err(e) => Err(e),
            Ok(v1) => match param_value(params[1], context, layers) {
                Err(e) => Err(e),
                Ok(v2) => match (v1, v2) {
                    (ValueView::Int(i1), ValueView::Int(i2)) => params[1].assigned(
                        layers,
                        ValueView::Int(
                            saturated_sum(
                                i2 as int,
                                if subtract {
                                    -(i1 as int)
                                } else {
                                    i1 as int
                                },
                            ) as i32,
                        ),
                    ),
                    _ => Err(RuntimeError::TypeMismatch),
                },
            },
        }
    }
}

/// The scope after `set <T> to <T>`: the first parameter gets the value of
/// the second.
pub open spec fn value_set(params: Seq<VariableView>, context: ContextView, layers: Layers) -> Result<
    Layers,
    RuntimeError,
> {
    if params.len() != 2 {
        Err(RuntimeError::ParameterCount)
    } else {
        match param_value(params[1], context, layers) {
            Err(e) => Err(e),
            Ok(new_val) => params[0].assigned(layers, new_val),
        }
    }
}

/// The scope after `top [<T>] into <T>`: the second parameter gets the value
/// of the first element of the collection.
pub open spec fn top_taken(params: Seq<VariableView>, context: ContextView, layers: Layers) -> Result<
    Layers,
    RuntimeError,
> {
    if params.len() != 2 {
        Err(RuntimeError::ParameterCount)
    } else {
        match param_value(params[0], context, layers) {
            Err(e) => Err(e),
            Ok(ValueView::Vec(v)) => if v.len() == 0 {
                Err(RuntimeError::EmptyCollection)
            } else {
                match param_value(v[0], context, layers) {
                    Err(e) => Err(e),
                    Ok(top) => params[1].assigned(layers, top),
                }
            },
            Ok(_) => Err(RuntimeError::TypeMismatch),
        }
    }
}

/// The number of places of a rotation by `step`: a step that is not
/// positive rotates nothing.
pub open spec fn rotation_places(step: i32) -> int {
    if step > 0 {
        step as int
    } else {
        0
    }
}

/// The scope after `rotate [<T>] <Direction> by <Int>`, where a missing
/// third parameter counts as 1: the collection has its elements moved round
/// by that many places, to the left or to the right. An empty collection is
/// left alone.
pub open spec fn rotated(params: Seq<VariableView>, context: ContextView, layers: Layers) -> Result<
    Layers,
    RuntimeError,
> {
    if params.len() != 2 && params.len() != 3 {
        Err(RuntimeError::ParameterCount)
    } else {
        match param_value(params[0], context, layers) {
            Err(e) => Err(e),
            Ok(v_val) => match param_value(params[1], context, layers) {
                Err(e) => Err(e),
                Ok(d_val) => {
                    let step_val = if params.len() == 2 {
                        Ok(ValueView::Int(1))
                    } else {
                        param_value(params[2], context, layers)
                    };
                    match step_val {
                        Err(e) => Err(e),
                        Ok(ValueView::Int(step)) => match (v_val, d_val) {
                            (ValueView::Vec(arr), ValueView::Direction(d)) => match d {
                                Direction::Left => if arr.len() == 0 {
                                    Ok(layers)
                                } else {
                                    params[0].assigned(
                                        layers,
                                        ValueView::Vec(rotated_left(arr, rotation_places(step))),
                                    )
                                },
                                Direction::Right => if arr.len() == 0 {
                                    Ok(layers)
                                } else {
                                    params[0].assigned(
                                        layers,
                                        ValueView::Vec(rotated_right(arr, rotation_places(step))),
                                    )
                                },
                                _ => Err(RuntimeError::TypeMismatch),
                            },
                            _ => Err(RuntimeError::TypeMismatch),
                        },
                        Ok(_) => Err(RuntimeError::TypeMismatch),
                    }
                },
            },
        }
    }
}

/// What is drawn for a value: a filled rectangle or an outline for a
/// colour, an effect for an effect.
pub open spec fn shape_of(kind: DrawKind, v: ValueView) -> Option<Shape> {
    match (kind, v) {
        (DrawKind::Filled, ValueView::Color(c)) => Some(Shape::Rect(c)),
        (DrawKind::Outline, ValueView::Color(c)) => Some(Shape::RectOutline(c)),
        (DrawKind::Effect, ValueView::Effect(e)) => Some(Shape::EffectRect(e)),
        _ => None,
    }
}

/// The context after `draw <Color|Effect> rectangle [outline] from <Pos> to
/// <Pos>`: one more drawing call for the current frame.
pub open spec fn drawn(
    params: Seq<VariableView>,
    context: ContextView,
    layers: Layers,
    kind: DrawKind,
) -> Result<ContextView, RuntimeError> {
    if params.len() != 3 {
        Err(RuntimeError::ParameterCount)
    } else {
        match param_value(params[1], context, layers) {
            Err(e) => Err(e),
            Ok(tl) => match param_value(params[2], context, layers) {
                Err(e) => Err(e),
                Ok(br) => match param_value(params[0], context, layers) {
                    Err(e) => Err(e),
                    Ok(c) => match shape_of(kind, c) {
                        None => Err(RuntimeError::TypeMismatch),
                        Some(shape) => match (tl, br) {
                            (ValueView::Pos(l, t), ValueView::Pos(r, b)) => context.drawn(
                                (l, t),
                                (r, b),
                                shape,
                            ),
                            _ => Err(RuntimeError::TypeMismatch),
                        },
                    },
                },
            },
        }
    }
}

/// Which of the drawing operations is meant.
#[derive(Clone, Copy, Debug, PartialEq, Eq, Structural)]
pub enum DrawKind {
    Filled,
    Outline,
    Effect,
}

/// `activate <String>` and `deactivate <String>`; see `activeness_set`.
pub fn set_activeness(
    context: &Context,
    scope: &Stack,
    action_activeness: &mut Activeness,
    params: &Vec<Variable>,
    val: bool,
) -> (r: Result<(), RuntimeError>)
    ensures
        match activeness_set(
            variables_view(params@),
            context@,
            scope@,
            old(action_activeness)@,
            val,
        ) {
            Ok(flags) => r is Ok && final(action_activeness)@ == flags,
            Err(e) => r == Err::<(), RuntimeError>(e) && final(action_activeness)@ == old(
                action_activeness,
            )@,
        },
{
    if params.len() != 1 {
        return Err(RuntimeError::ParameterCount);
    }
    let label_val = params[0].get_value(context, scope)?;
    match label_val {
        VariableValue::String(l) => {
            if action_activeness.get(l.as_str()).is_none() {
                return Err(RuntimeError::UnknownAction);
            }
            action_activeness.insert(l, val);
            Ok(())
        },
        _ => Err(RuntimeError::TypeMismatch),
    }
}

/// `toggle <String>`; see `activeness_toggled`.
pub fn toggle_activeness(
    context: &Context,
    scope: &Stack,
    action_activeness: &mut Activeness,
    params: &Vec<Variable>,
) -> (r: Result<(), RuntimeError>)
    ensures
        match activeness_toggled(
            variables_view(params@),
            context@,
            scope@,
            old(action_activeness)@,
        ) {
            Ok(flags) => r is Ok && final(action_activeness)@ == flags,
            Err(e) => r == Err::<(), RuntimeError>(e) && final(action_activeness)@ == old(
                action_activeness,
            )@,
        },
{
    if params.len() != 1 {
        return Err(RuntimeError::ParameterCount);
    }
    let label_val = params[0].get_value(context, scope)?;
    match label_val {
        VariableValue::String(l) => {
            match action_activeness.get(l.as_str()) {
                Some(b) => {
                    action_activeness.insert(l, !b);
                    Ok(())
                },
                None => Err(RuntimeError::UnknownAction),
            }
        },
        _ => Err(RuntimeError::TypeMismatch),
    }
}

/// `add <Int> to <Int>`; see `summed`.
pub fn add(context: &Context, scope: &mut Stack, params: &Vec<Variable>) -> (r: Result<
    (),
    RuntimeError,
>)
    ensures
        match summed(variables_view(params@), context@, old(scope)@, false) {
            Ok(layers) => r is Ok && final(scope)@ == layers,
            Err(e) => r == Err::<(), RuntimeError>(e) && final(scope)@ == old(scope)@,
        },
{
    if params.len() < 2 {
        return Err(RuntimeError::ParameterCount);
    }
    let v1 = params[0].get_value(context, scope)?;
    let v2 = params[1].get_value(context, scope)?;
    match (v1, v2) {
        (VariableValue::Int(i1), VariableValue::Int(i2)) => {
            params[1].set_value(context, scope, VariableValue::Int(saturating_add(i2, i1)))
        },
        _ => Err(RuntimeError::TypeMismatch),
    }
}

/// `sub <Int> from <Int>`; see `summed`.
pub fn sub(context: &Context, scope: &mut Stack, params: &Vec<Variable>) -> (r: Result<
    (),
    RuntimeError,
>)
    ensures
        match summed(variables_view(params@), context@, old(scope)@, true) {
            Ok(layers) => r is Ok && final(scope)@ == layers,
            Err(e) => r == Err::<(), RuntimeError>(e) && final(scope)@ == old(scope)@,
        },
{
    if params.len() < 2 {
        return Err(RuntimeError::ParameterCount);
    }
    let v1 = params[0].get_value(context, scope)?;
    let v2 = params[1].get_value(context, scope)?;
    match (v1, v2) {
        (VariableValue::Int(i1), VariableValue::Int(i2)) => {
            params[1].set_value(context, scope, VariableValue::Int(saturating_sub(i2, i1)))
        },
        _ => Err(RuntimeError::TypeMismatch),
    }
}

/// `set <T> to <T>`; see `value_set`.
pub fn set(context: &Context, scope: &mut Stack, params: &Vec<Variable>) -> (r: Result<
    (),
    RuntimeError,
>)
    ensures
        match value_set(variables_view(params@), context@, old(scope)@) {
            Ok(layers) => r is Ok && final(scope)@ == layers,
            Err(e) => r == Err::<(), RuntimeError>(e) && final(scope)@ == old(scope)@,
        },
{
    if params.len() != 2 {
        return Err(RuntimeError::ParameterCount);
    }
    let new_val = params[1].get_value(context, scope)?;
    params[0].set_value(context, scope, new_val)
}

/// `top [<T>] into <T>`; see `top_taken`.
pub fn top_into(context: &Context, scope: &mut Stack, params: &Vec<Variable>) -> (r: Result<
    (),
    RuntimeError,
>)
    ensures
        match top_taken(variables_view(params@), context@, old(scope)@) {
            Ok(layers) => r is Ok && final(scope)@ == layers,
            Err(e) => r == Err::<(), RuntimeError>(e) && final(scope)@ == old(scope)@,
        },
{
    if params.len() != 2 {
        return Err(RuntimeError::ParameterCount);
    }
    let v_val = params[0].get_value(context, scope)?;
    match v_val {
        VariableValue::Vec(v) => {
            proof {
                lemma_vec_view(v);
            }
            if v.len() == 0 {
                return Err(RuntimeError::EmptyCollection);
            }
            assert(variables_view(v@)[0] == v@[0]@);
            let top = v[0].get_value(context, scope)?;
            params[1].set_value(context, scope, top)
        },
        _ => Err(RuntimeError::TypeMismatch),
    }
}

/// The variables moved round by `places` to the left.
pub fn rotate_left(arr: &Vec<Variable>, places: usize) -> (r: Vec<Variable>)
    requires
        arr@.len() > 0,
    ensures
        variables_view(r@) == rotated_left(variables_view(arr@), places as int),
{
    let n = arr.len();
    let k = places % n;
    let mut out: Vec<Variable> = Vec::new();
    let mut i: usize = 0;
    while i < n
        invariant
            i <= n,
            n == arr@.len(),
            k == places % n,
            k < n,
            out@.len() == i,
            forall|j: int|
                0 <= j < i ==> (#[trigger] out@[j])@ == arr@[(j + places) % (n as int)]@,
        decreases n - i,
    {
        let from = place_behind(i, k, n);
        proof {
            lemma_mod_add_reduce(i as int, places as int, n as int);
        }
        out.push(arr[from].clone());
        i += 1;
    }
    proof {
        let goal = rotated_left(variables_view(arr@), places as int);
        assert forall|j: int| 0 <= j < n implies #[trigger] variables_view(out@)[j] == goal[j] by {
            vstd::arithmetic::div_mod::lemma_mod_bound(j + places, n as int);
        }
        assert(variables_view(out@) =~= goal);
    }
    out
}

/// The variables moved round by `places` to the right.
pub fn rotate_right(arr: &Vec<Variable>, places: usize) -> (r: Vec<Variable>)
    requires
        arr@.len() > 0,
    ensures
        variables_view(r@) == rotated_right(variables_view(arr@), places as int),
{
    let n = arr.len();
    let k = places % n;
    let back = if k == 0 {
        0
    } else {
        n - k
    };
    let mut out: Vec<Variable> = Vec::new();
    let mut i: usize = 0;
    while i < n
        invariant
            i <= n,
            n == arr@.len(),
            k == places % n,
            k < n,
            back < n,
            back == (if k == 0 {
                0
            } else {
                n - k
            }),
            out@.len() == i,
            forall|j: int|
                0 <= j < i ==> (#[trigger] out@[j])@ == arr@[(j - places) % (n as int)]@,
        decreases n - i,
    {
        let from = place_behind(i, back, n);
        proof {
            lemma_mod_sub_reduce(i as int, places as int, n as int);
        }
        out.push(arr[from].clone());
        i += 1;
    }
    proof {
        let goal = rotated_right(variables_view(arr@), places as int);
        assert forall|j: int| 0 <= j < n implies #[trigger] variables_view(out@)[j] == goal[j] by {
            vstd::arithmetic::div_mod::lemma_mod_bound(j - places, n as int);
        }
        assert(variables_view(out@) =~= goal);
    }
    out
}

/// Going `k` places on is going `k` places on, counted round the sequence.
proof fn lemma_mod_add_reduce(i: int, k: int, n: int)
    requires
        n > 0,
    ensures
        (i + k) % n == (i + k % n) % n,
{
    lemma_fundamental_div_mod(k, n);
    lemma_fundamental_div_mod(i + k % n, n);
    let q1 = k / n;
    let q2 = (i + k % n) / n;
    let r = (i + k % n) % n;
    vstd::arithmetic::div_mod::lemma_mod_bound(i + k % n, n);
    assert(i + k == n * (q1 + q2) + r) by (nonlinear_arith)
        requires
            k == n * q1 + k % n,
            i + k % n == n * q2 + r,
    ;
    lemma_fundamental_div_mod_converse(i + k, n, q1 + q2, r);
}

/// Going `k` places back is going on by what is left of the round.
proof fn lemma_mod_sub_reduce(i: int, k: int, n: int)
    requires
        n > 0,
    ensures
        (i - k) % n == (i + (if k % n == 0 {
            0
        } else {
            n - k % n
        })) % n,
{
    lemma_fundamental_div_mod(k, n);
    let q1 = k / n;
    let m = k % n;
    vstd::arithmetic::div_mod::lemma_mod_bound(k, n);
    let back = if m == 0 {
        0
    } else {
        n - m
    };
    lemma_fundamental_div_mod(i + back, n);
    let q2 = (i + back) / n;
    let r = (i + back) % n;
    vstd::arithmetic::div_mod::lemma_mod_bound(i + back, n);
    if m == 0 {
        assert(i - k == n * (q2 - q1) + r) by (nonlinear_arith)
            requires
                k == n * q1 + m,
                m == 0,
                i + back == n * q2 + r,
                back == 0,
        ;
        lemma_fundamental_div_mod_converse(i - k, n, q2 - q1, r);
    } else {
        assert(i - k == n * (q2 - q1 - 1) + r) by (nonlinear_arith)
            requires
                k == n * q1 + m,
                i + back == n * q2 + r,
                back == n - m,
        ;
        lemma_fundamental_div_mod_converse(i - k, n, q2 - q1 - 1, r);
    }
}

/// `rotate [<T>] <Direction> by <Int>`; see `rotated`.
pub fn rotate_vec(context: &Context, scope: &mut Stack, params: &Vec<Variable>) -> (r: Result<
    (),
    RuntimeError,
>)
    ensures
        match rotated(variables_view(params@), context@, old(scope)@) {
            Ok(layers) => r is Ok && final(scope)@ == layers,
            Err(e) => r == Err::<(), RuntimeError>(e) && final(scope)@ == old(scope)@,
        },
{
    if params.len() != 2 && params.len() != 3 {
        return Err(RuntimeError::ParameterCount);
    }
    let v_val = params[0].get_value(context, scope)?;
    let d_val = params[1].get_value(context, scope)?;
    let step_val = if params.len() == 2 {
        1
    } else {
        match params[2].get_value(context, scope)? {
            VariableValue::Int(i) => i,
            _ => {
                return Err(RuntimeError::TypeMismatch);
            },
        }
    };
    let places = if step_val > 0 {
        magnitude(step_val)
    } else {
        0
    };
    match (v_val, d_val) {
        (VariableValue::Vec(arr), VariableValue::Direction(d)) => {
            proof {
                lemma_vec_view(arr);
            }
            match d {
                Direction::Left => {
                    if arr.len() == 0 {
                        return Ok(());
                    }
                    let turned = rotate_left(&arr, places);
                    proof {
                        lemma_vec_view(turned);
                    }
                    params[0].set_value(context, scope, VariableValue::Vec(turned))
                },
                Direction::Right => {
                    if arr.len() == 0 {
                        return Ok(());
                    }
                    let turned = rotate_right(&arr, places);
                    proof {
                        lemma_vec_view(turned);
                    }
                    params[0].set_value(context, scope, VariableValue::Vec(turned))
                },
                _ => Err(RuntimeError::TypeMismatch),
            }
        },
        _ => Err(RuntimeError::TypeMismatch),
    }
}

/// The three drawing operations; see `drawn`.
fn draw(context: &mut Context, scope: &Stack, params: &Vec<Variable>, kind: DrawKind) -> (r: Result<
    (),
    RuntimeError,
>)
    ensures
        match drawn(variables_view(params@), old(context)@, scope@, kind) {
            Ok(c) => r is Ok && final(context)@ == c,
            Err(e) => r == Err::<(), RuntimeError>(e) && final(context)@ == old(context)@,
        },
{
    if params.len() != 3 {
        return Err(RuntimeError::ParameterCount);
    }
    let tl_val = params[1].get_value(context, scope)?;
    let br_val = params[2].get_value(context, scope)?;
    let c_val = params[0].get_value(context, scope)?;
    let shape = match (kind, c_val) {
        (DrawKind::Filled, VariableValue::Color(c)) => Shape::Rect(c),
        (DrawKind::Outline, VariableValue::Color(c)) => Shape::RectOutline(c),
        (DrawKind::Effect, VariableValue::Effect(e)) => Shape::EffectRect(e),
        _ => {
            return Err(RuntimeError::TypeMismatch);
        },
    };
    match (tl_val, br_val) {
        (VariableValue::Pos(l, t), VariableValue::Pos(r, b)) => context.draw((l, t), (r, b), shape),
        _ => Err(RuntimeError::TypeMismatch),
    }
}

/// `draw <Color> rectangle from <Pos> to <Pos>`; see `drawn`.
pub fn draw_rect(context: &mut Context, scope: &Stack, params: &Vec<Variable>) -> (r: Result<
    (),
    RuntimeError,
>)
    ensures
        match drawn(variables_view(params@), old(context)@, scope@, DrawKind::Filled) {
            Ok(c) => r is Ok && final(context)@ == c,
            Err(e) => r == Err::<(), RuntimeError>(e) && final(context)@ == old(context)@,
        },
{
    draw(context, scope, params, DrawKind::Filled)
}

/// `draw <Effect> rectangle from <Pos> to <Pos>`; see `drawn`.
pub fn draw_effect_rect(context: &mut Context, scope: &Stack, params: &Vec<Variable>) -> (r: Result<
    (),
    RuntimeError,
>)
    ensures
        match drawn(variables_view(params@), old(context)@, scope@, DrawKind::Effect) {
            Ok(c) => r is Ok && final(context)@ == c,
            Err(e) => r == Err::<(), RuntimeError>(e) && final(context)@ == old(context)@,
        },
{
    draw(context, scope, params, DrawKind::Effect)
}

/// `draw <Color> rectangle outline from <Pos> to <Pos>`; see `drawn`.
pub fn draw_rect_outline(context: &mut Context, scope: &Stack, params: &Vec<Variable>) -> (r: Result<
    (),
    RuntimeError,
>)
    ensures
        match drawn(variables_view(params@), old(context)@, scope@, DrawKind::Outline) {
            Ok(c) => r is Ok && final(context)@ == c,
            Err(e) => r == Err::<(), RuntimeError>(e) && final(context)@ == old(context)@,
        },
{
    draw(context, scope, params, DrawKind::Outline)
}

/// The position after a move; see `moved_position`.
fn move_position(
    x: usize,
    y: usize,
    d: Direction,
    step: i32,
    context: &Context,
    restricted: bool,
) -> (r: Result<(usize, usize), RuntimeError>)
    ensures
        match moved_position(x, y, d, step, context@, restricted) {
            Ok((nx, ny)) => r is Ok && r->Ok_0.0 == nx && r->Ok_0.1 == ny,
            Err(e) => r == Err::<(usize, usize), RuntimeError>(e),
        },
{
    let width = context.get_width();
    let height = context.get_height();
    if restricted {
        match d {
            Direction::Left => Ok((move_restricted(x, step, true, width), y)),
            Direction::Right => Ok((move_restricted(x, step, false, width), y)),
            Direction::Up => Ok((x, move_restricted(y, step, true, height))),
            Direction::Down => Ok((x, move_restricted(y, step, false, height))),
        }
    } else {
        match d {
            Direction::Left => {
                if width == 0 {
                    return Err(RuntimeError::EmptyFrame);
                }
                Ok((move_phase(x, step, true, width), y))
            },
            Direction::Right => {
                if width == 0 {
                    return Err(RuntimeError::EmptyFrame);
                }
                Ok((move_phase(x, step, false, width), y))
            },
            Direction::Up => {
                if height == 0 {
                    return Err(RuntimeError::EmptyFrame);
                }
                Ok((x, move_phase(y, step, true, height)))
            },
            Direction::Down => {
                if height == 0 {
                    return Err(RuntimeError::EmptyFrame);
                }
                Ok((x, move_phase(y, step, false, height)))
            },
        }
    }
}

/// The two moves; see `moved`.
fn move_by(context: &Context, scope: &mut Stack, params: &Vec<Variable>, restricted: bool) -> (r:
    Result<(), RuntimeError>)
    ensures
        match moved(variables_view(params@), context@, old(scope)@, restricted) {
            Ok(layers) => r is Ok && final(scope)@ == layers,
            Err(e) => r == Err::<(), RuntimeError>(e) && final(scope)@ == old(scope)@,
        },
{
    if params.len() != 3 {
        return Err(RuntimeError::ParameterCount);
    }
    let pos_val = params[0].get_value(context, scope)?;
    let d_val = params[1].get_value(context, scope)?;
    let step_val = params[2].get_value(context, scope)?;
    match (pos_val, d_val, step_val) {
        (VariableValue::Pos(x, y), VariableValue::Direction(d), VariableValue::Int(step)) => {
            let (nx, ny) = move_position(x, y, d, step, context, restricted)?;
            params[0].set_value(context, scope, VariableValue::Pos(nx, ny))
        },
        _ => Err(RuntimeError::TypeMismatch),
    }
}

/// `move <Pos> <Direction> by <Int>`, wrapping round the frame; see `moved`.
pub fn move_pos_phase(context: &Context, scope: &mut Stack, params: &Vec<Variable>) -> (r: Result<
    (),
    RuntimeError,
>)
    ensures
        match moved(variables_view(params@), context@, old(scope)@, false) {
            Ok(layers) => r is Ok && final(scope)@ == layers,
            Err(e) => r == Err::<(), RuntimeError>(e) && final(scope)@ == old(scope)@,
        },
{
    move_by(context, scope, params, false)
}

/// `restricted move <Pos> <Direction> by <Int>`, stopping at the edges of
/// the frame; see `moved`.
pub fn move_pos(context: &Context, scope: &mut Stack, params: &Vec<Variable>) -> (r: Result<
    (),
    RuntimeError,
>)
    ensures
        match moved(variables_view(params@), context@, old(scope)@, true) {
            Ok(layers) => r is Ok && final(scope)@ == layers,
            Err(e) => r == Err::<(), RuntimeError>(e) && final(scope)@ == old(scope)@,
        },
{
    move_by(context, scope, params, true)
}

} // verus!
