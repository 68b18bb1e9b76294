use vstd::arithmetic::div_mod::{lemma_fundamental_div_mod, lemma_fundamental_div_mod_converse};
use vstd::prelude::*;

verus! {

/// The sum of two numbers, held at the ends of the 32-bit range.
pub open spec fn saturated_sum(a: int, b: int) -> int {
    if a + b > i32::MAX {
        i32::MAX as int
    } else if a + b < i32::MIN {
        i32::MIN as int
    } else {
        a + b
    }
}

/// A coordinate after a step of `delta` that stops at the edges: a step
/// towards the origin stops at 0, a step away from it stops at `bound`.
pub open spec fn shifted(x: int, delta: int, bound: int) -> int {
    if delta <= 0 {
        if x + delta < 0 {
            0
        } else {
            x + delta
        }
    } else {
        if x + delta > bound {
            bound
        } else {
            x + delta
        }
    }
}

/// A coordinate after a step of `delta` that leaves one edge to come in at
/// the other, on an axis of `size` points.
pub open spec fn wrapped(x: int, delta: int, size: int) -> int {
    (x + delta) % size
}

/// The sequence with its first `k` elements put behind the others, `k`
/// counted round the sequence.
pub open spec fn rotated_left<T>(s: Seq<T>, k: int) -> Seq<T> {
    Seq::new(s.len(), |i: int| s[(i + k) % (s.len() as int)])
}

/// The sequence with its last `k` elements put in front of the others, `k`
/// counted round the sequence.
pub open spec fn rotated_right<T>(s: Seq<T>, k: int) -> Seq<T> {
    Seq::new(s.len(), |i: int| s[(i - k) % (s.len() as int)])
}

/// `a + b`, where a sum beyond the 32-bit range is the end of the range.
pub fn saturating_add(a: i32, b: i32) -> (r: i32)
    ensures
        r == saturated_sum(a as int, b as int),
{
    match a.checked_add(b) {
        Some(sum) => sum,
        None => if b > 0 {
            i32::MAX
        } else {
            i32::MIN
        },
    }
}

/// `b - a`, where a difference beyond the 32-bit range is the end of the
/// range.
pub fn saturating_sub(b: i32, a: i32) -> (r: i32)
    ensures
        r == saturated_sum(b as int, -(a as int)),
{
    match b.checked_sub(a) {
        Some(difference) => difference,
        None => if a < 0 {
            i32::MAX
        } else {
            i32::MIN
        },
    }
}

/// The size of a step without its direction.
pub fn magnitude(step: i32) -> (r: usize)
    ensures
        r == (if step >= 0 {
            step as int
        } else {
            -(step as int)
        }),
{
    if step >= 0 {
        step as usize
    } else {
        let wide: i64 = -(step as i64);
        wide as usize
    }
}

/// The coordinate `x` after a step of `step` that stops at the edges. The
/// step leads towards the origin if `towards_origin` is set and the step is
/// not negative, or if neither holds; it leads away from it otherwise.
pub fn move_restricted(x: usize, step: i32, towards_origin: bool, bound: usize) -> (r: usize)
    ensures
        r == shifted(
            x as int,
            if towards_origin {
                -(step as int)
            } else {
                step as int
            },
            bound as int,
        ),
{
    let m = magnitude(step);
    let back = (towards_origin && step >= 0) || (!towards_origin && step < 0);
    if back {
        if x >= m {
            x - m
        } else {
            0
        }
    } else {
        if m == 0 {
            return x;
        }
        match x.checked_add(m) {
            Some(t) => if t > bound {
                bound
            } else {
                t
            },
            None => bound,
        }
    }
}

/// The coordinate `x` after a step of `step` that wraps round an axis of
/// `size` points, which must not be 0. The step leads towards the origin if
/// `towards_origin` is set.
pub fn move_phase(x: usize, step: i32, towards_origin: bool, size: usize) -> (r: usize)
    requires
        size > 0,
    ensures
        r == wrapped(
            x as int,
            if towards_origin {
                -(step as int)
            } else {
                step as int
            },
            size as int,
        ),
{
    let m = magnitude(step);
    let back = (towards_origin && step >= 0) || (!towards_origin && step < 0);
    let a = x % size;
    let b = m % size;
    let ghost delta: int = if towards_origin {
        -(step as int)
    } else {
        step as int
    };
    proof {
        lemma_fundamental_div_mod(x as int, size as int);
        lemma_fundamental_div_mod(m as int, size as int);
    }
    let ghost qx = (x as int) / (size as int);
    let ghost qm = (m as int) / (size as int);
    if back {
        assert(delta == -(m as int));
        if a >= b {
            let r = a - b;
            proof {
                assert(x + delta == (size as int) * (qx - qm) + r) by (nonlinear_arith)
                    requires
                        x == (size as int) * qx + a,
                        m == (size as int) * qm + b,
                        delta == -(m as int),
                        r == a - b,
                ;
                lemma_fundamental_div_mod_converse(x + delta, size as int, qx - qm, r as int);
            }
            r
        } else {
            let r = a + (size - b);
            proof {
                assert(x + delta == (size as int) * (qx - qm - 1) + r) by (nonlinear_arith)
                    requires
                        x == (size as int) * qx + a,
                        m == (size as int) * qm + b,
                        delta == -(m as int),
                        r == a + (size - b),
                ;
                lemma_fundamental_div_mod_converse(x + delta, size as int, qx - qm - 1, r as int);
            }
            r
        }
    } else {
        assert(delta == m as int);
        if a >= size - b {
            let r = a - (size - b);
            proof {
                assert(x + delta == (size as int) * (qx + qm + 1) + r) by (nonlinear_arith)
                    requires
                        x == (size as int) * qx + a,
                        m == (size as int) * qm + b,
                        delta == m as int,
                        r == a - (size - b),
                ;
                lemma_fundamental_div_mod_converse(x + delta, size as int, qx + qm + 1, r as int);
            }
            r
        } else {
            let r = a + b;
            proof {
                assert(x + delta == (size as int) * (qx + qm) + r) by (nonlinear_arith)
                    requires
                        x == (size as int) * qx + a,
                        m == (size as int) * qm + b,
                        delta == m as int,
                        r == a + b,
                ;
                lemma_fundamental_div_mod_converse(x + delta, size as int, qx + qm, r as int);
            }
            r
        }
    }
}

/// The place in a sequence of `len` elements that is `k` places behind the
/// place `i`, counted round the sequence.
pub fn place_behind(i: usize, k: usize, len: usize) -> (r: usize)
    requires
        i < len,
        k < len,
    ensures
        r == (i + k) % (len as int),
        r < len,
{
    if i >= len - k {
        let r = i - (len - k);
        proof {
            lemma_fundamental_div_mod_converse(i + k, len as int, 1, r as int);
        }
        r
    } else {
        let r = i + k;
        proof {
            lemma_fundamental_div_mod_converse(i + k, len as int, 0, r as int);
        }
        r
    }
}

/// A restricted step towards the origin from the origin stays at the origin.
pub proof fn lemma_shift_stops_at_origin(x: int, step: int, bound: int)
    requires
        0 <= x,
        0 <= step,
    ensures
        0 <= shifted(x, -step, bound) <= x,
        x <= step ==> shifted(x, -step, bound) == 0,
{
}

/// A restricted step away from the origin ends at the bound at the latest,
/// if it started within it.
pub proof fn lemma_shift_stops_at_bound(x: int, step: int, bound: int)
    requires
        0 <= x <= bound,
        0 <= step,
    ensures
        x <= shifted(x, step, bound) <= bound,
        x + step >= bound ==> shifted(x, step, bound) == bound,
{
}

/// A wrapping step ends on the axis.
pub proof fn lemma_wrap_stays_on_axis(x: int, delta: int, size: int)
    requires
        size > 0,
    ensures
        0 <= wrapped(x, delta, size) < size,
{
    vstd::arithmetic::div_mod::lemma_mod_bound(x + delta, size);
}

/// Rotating to the left and back to the right by as much gives the sequence
/// back.
pub proof fn lemma_rotate_back<T>(s: Seq<T>, k: int)
    ensures
        rotated_right(rotated_left(s, k), k) == s,
        rotated_left(rotated_right(s, k), k) == s,
{
    let n = s.len() as int;
    if n > 0 {
        assert forall|i: int| 0 <= i < n implies rotated_right(rotated_left(s, k), k)[i]
            == s[i] by {
            let j = (i - k) % n;
            vstd::arithmetic::div_mod::lemma_mod_bound(i - k, n);
            lemma_mod_shift_back(i, -k, n);
        }
        assert forall|i: int| 0 <= i < n implies rotated_left(rotated_right(s, k), k)[i]
            == s[i] by {
            let j = (i + k) % n;
            vstd::arithmetic::div_mod::lemma_mod_bound(i + k, n);
            lemma_mod_shift_back(i, k, n);
        }
    }
    assert(rotated_right(rotated_left(s, k), k) =~= s);
    assert(rotated_left(rotated_right(s, k), k) =~= s);
}

/// Going `k` places round and `k` places back ends where it started.
proof fn lemma_mod_shift_back(i: int, k: int, n: int)
    requires
        n > 0,
        0 <= i < n,
    ensures
        (((i + k) % n) - k) % n == i,
{
    lemma_fundamental_div_mod(i + k, n);
    let q = (i + k) / n;
    let r = (i + k) % n;
    assert(r - k == n * (-q) + i) by (nonlinear_arith)
        requires
            i + k == n * q + r,
    ;
    lemma_fundamental_div_mod_converse(r - k, n, -q, i);
}

/// Rotating by the length of the sequence, or by nothing, changes nothing;
/// an empty sequence stays empty.
pub proof fn lemma_rotate_identity<T>(s: Seq<T>)
    ensures
        rotated_left(s, 0) == s,
        rotated_left(s, s.len() as int) == s,
        s.len() == 0 ==> forall|k: int| #[trigger] rotated_left(s, k) == s,
{
    let n = s.len() as int;
    if n > 0 {
        assert forall|i: int| 0 <= i < n implies rotated_left(s, 0)[i] == s[i] by {
            lemma_fundamental_div_mod_converse(i, n, 0, i);
        }
        assert forall|i: int| 0 <= i < n implies rotated_left(s, n)[i] == s[i] by {
            lemma_fundamental_div_mod_converse(i + n, n, 1, i);
        }
    } else {
        assert forall|k: int| #[trigger] rotated_left(s, k) == s by {
            assert(rotated_left(s, k) =~= s);
        }
    }
    assert(rotated_left(s, 0) =~= s);
    assert(rotated_left(s, n) =~= s);
}

/// Rotating by one place, `k` times over, is rotating by `k` places.
pub proof fn lemma_rotate_steps<T>(s: Seq<T>, k: nat)
    ensures
        rotated_left(rotated_left(s, k as int), 1) == rotated_left(s, (k + 1) as int),
{
    let n = s.len() as int;
    if n > 0 {
        assert forall|i: int| 0 <= i < n implies rotated_left(rotated_left(s, k as int), 1)[i]
            == rotated_left(s, (k + 1) as int)[i] by {
            vstd::arithmetic::div_mod::lemma_mod_bound(i + 1, n);
            let j = (i + 1) % n;
            let q1 = (i + 1) / n;
            lemma_fundamental_div_mod(i + 1, n);
            vstd::arithmetic::div_mod::lemma_mod_bound(j + k, n);
            let r = (j + k) % n;
            let q2 = (j + k) / n;
            lemma_fundamental_div_mod(j + k, n);
            assert(i + (k + 1) == n * (q1 + q2) + r) by (nonlinear_arith)
                requires
                    i + 1 == n * q1 + j,
                    j + k == n * q2 + r,
            ;
            lemma_fundamental_div_mod_converse(i + (k + 1), n, q1 + q2, r);
        }
    }
    assert(rotated_left(rotated_left(s, k as int), 1) =~= rotated_left(s, (k + 1) as int));
}

} // verus!
