use vstd::prelude::*;

verus! {

/// The integer operations of the VM.
#[derive(Clone, Copy, Debug, PartialEq, Eq, Structural)]
pub enum IntOp {
    Add,
    Sub,
    Mul,
    Div,
    Mod,
}

pub open spec fn abs_int(x: int) -> int {
    if x < 0 { -x } else { x }
}

/// Division rounding toward zero, as Rust's `/` on integers.
pub open spec fn trunc_div(x: int, y: int) -> int {
    if (x < 0) != (y < 0) { -(abs_int(x) / abs_int(y)) } else { abs_int(x) / abs_int(y) }
}

/// The remainder that goes with `trunc_div`: it has the sign of `x`.
pub open spec fn trunc_rem(x: int, y: int) -> int {
    if x < 0 { -(abs_int(x) % abs_int(y)) } else { abs_int(x) % abs_int(y) }
}

/// The mathematical result of an integer operation; `None` for a zero
/// divisor.
pub open spec fn int_op_result(op: IntOp, x: int, y: int) -> Option<int> {
    match op {
        IntOp::Add => Some(x + y),
        IntOp::Sub => Some(x - y),
        IntOp::Mul => Some(x * y),
        IntOp::Div => if y == 0 { None } else { Some(trunc_div(x, y)) },
        IntOp::Mod => if y == 0 { None } else { Some(trunc_rem(x, y)) },
    }
}

/// The message of a zero divisor: `Mod` says modulo, the others division.
pub open spec fn zero_divisor_message(op: IntOp) -> Seq<char> {
    if op == IntOp::Mod { "Modulo by zero"@ } else { "Division by zero"@ }
}

pub open spec fn fits_i64(v: int) -> bool {
    i64::MIN <= v <= i64::MAX
}

fn magnitude(x: i64) -> (r: u64)
    ensures
        r as int == abs_int(x as int),
{
    if x >= 0 {
        x as u64
    } else if x == i64::MIN {
        9223372036854775808u64
    } else {
        (-x) as u64
    }
}

/// Applies `op`: `Err(true)` for a zero divisor, `Err(false)` when the
/// result does not fit in an `i64`.
pub fn int_op(op: IntOp, x: i64, y: i64) -> (r: Result<i64, bool>)
    ensures
        match int_op_result(op, x as int, y as int) {
            None => r == Err::<i64, bool>(true),
            Some(v) => if fits_i64(v) { r == Ok::<i64, bool>(v as i64) } else { r == Err::<i64, bool>(false) },
        },
{
    match op {
        IntOp::Add => match x.checked_add(y) {
            Some(v) => Ok(v),
            None => Err(false),
        },
        IntOp::Sub => match x.checked_sub(y) {
            Some(v) => Ok(v),
            None => Err(false),
        },
        IntOp::Mul => match x.checked_mul(y) {
            Some(v) => Ok(v),
            None => Err(false),
        },
        IntOp::Div => {
            if y == 0 {
                return Err(true);
            }
            let q = magnitude(x) / magnitude(y);
            let neg = (x < 0) != (y < 0);
            if neg {
                if q <= 9223372036854775808u64 {
                    let r: i128 = -(q as i128);
                    Ok(r as i64)
                } else {
                    Err(false)
                }
            } else {
                if q <= 9223372036854775807u64 {
                    Ok(q as i64)
                } else {
                    Err(false)
                }
            }
        },
        IntOp::Mod => {
            if y == 0 {
                return Err(true);
            }
            let my = magnitude(y);
            let m = magnitude(x) % my;
            assert(m < my);
            if x < 0 {
                let r: i128 = -(m as i128);
                Ok(r as i64)
            } else {
                Ok(m as i64)
            }
        },
    }
}


/// Integer addition, subtraction and multiplication, as the VM computes
/// them before checking the result fits: addition is commutative with 0 as
/// its unit, subtraction undoes it, and multiplication is commutative,
/// with `x * 0 == 0` and `x * (y + 1) == x * y + x`.
pub proof fn law_int_ring(x: int, y: int)
    ensures
        int_op_result(IntOp::Add, x, y) == int_op_result(IntOp::Add, y, x),
        int_op_result(IntOp::Add, x, 0) == Some(x),
        int_op_result(IntOp::Sub, int_op_result(IntOp::Add, x, y)->Some_0, y) == Some(x),
        int_op_result(IntOp::Sub, x, x) == Some(0int),
        int_op_result(IntOp::Mul, x, y) == int_op_result(IntOp::Mul, y, x),
        int_op_result(IntOp::Mul, x, 0) == Some(0int),
        int_op_result(IntOp::Mul, x, y + 1) == Some(int_op_result(IntOp::Mul, x, y)->Some_0 + x),
{
    assert(x * (y + 1) == x * y + x) by (nonlinear_arith);
    assert(x * y == y * x) by (nonlinear_arith);
}

/// Integer division and remainder round toward zero, as Rust's `/` and `%`:
/// a zero divisor has no result (and its error names the operation); else
/// `x == q * y + r` with `|r| < |y|`, the remainder zero or of the sign of
/// `x`, and the quotient no larger in size than `x / y` exactly.
pub proof fn law_int_division(x: int, y: int)
    ensures
        int_op_result(IntOp::Div, x, 0) is None,
        int_op_result(IntOp::Mod, x, 0) is None,
        zero_divisor_message(IntOp::Div) == "Division by zero"@,
        zero_divisor_message(IntOp::Mod) == "Modulo by zero"@,
        y != 0 ==> ({
            let q = int_op_result(IntOp::Div, x, y)->Some_0;
            let r = int_op_result(IntOp::Mod, x, y)->Some_0;
            &&& int_op_result(IntOp::Div, x, y) is Some
            &&& int_op_result(IntOp::Mod, x, y) is Some
            &&& x == q * y + r
            &&& abs_int(r) < abs_int(y)
            &&& (r == 0 || ((r < 0) == (x < 0)))
            &&& abs_int(q * y) <= abs_int(x)
        }),
{
    if y != 0 {
        let ax = abs_int(x);
        let ay = abs_int(y);
        let d = ax / ay;
        let m = ax % ay;
        assert(ax == d * ay + m && 0 <= m < ay && d >= 0) by (nonlinear_arith)
            requires ay > 0, ax >= 0, d == ax / ay, m == ax % ay;
        let q = trunc_div(x, y);
        let r = trunc_rem(x, y);
        if x >= 0 && y > 0 {
            assert(q * y == d * ay);
        } else if x >= 0 && y < 0 {
            assert(q * y == (-d) * (-ay));
            assert((-d) * (-ay) == d * ay) by (nonlinear_arith);
        } else if x < 0 && y > 0 {
            assert(q * y == (-d) * ay);
            assert((-d) * ay == -(d * ay)) by (nonlinear_arith);
        } else {
            assert(q * y == d * (-ay));
            assert(d * (-ay) == -(d * ay)) by (nonlinear_arith);
        }
        assert(d * ay >= 0) by (nonlinear_arith)
            requires d >= 0, ay > 0;
    }
}
} // verus!
