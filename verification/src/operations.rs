//! The arithmetic table: how `^ + - * / //` combine scalars, vectors and
//! matrices, with shape checking.

use vstd::prelude::*;
use vstd::string::*;
use crate::number::{
    Number, RatV, ArithError, rat_wf, rat_add_v, rat_sub_v, rat_mul_v, rat_div_v, rat_pow_v,
    rat_zero,
};
use crate::executor::{MathType, ValueV, ErrV, ExecutionError, rats_view, cols_view, rats_wf,
    value_wf, mat_wf};
use crate::tree_builder::str_eq;

verus! {

/// The evaluation error of a scalar arithmetic error.
pub open spec fn arith_err(e: ArithError) -> ErrV {
    match e {
        ArithError::DivisionByZero => ErrV::DivisionByZero,
        ArithError::Overflow => ErrV::NumericOverflow,
        ArithError::NotRepresentable => ErrV::InvalidOperation("non-integer exponent"@),
    }
}

/// Maps a scalar arithmetic error onto an evaluation error.
pub fn arith_to_exec(e: ArithError) -> (r: ExecutionError)
    ensures
        r@ == arith_err(e),
{
    match e {
        ArithError::DivisionByZero => ExecutionError::DivisionByZero,
        ArithError::Overflow => ExecutionError::NumericOverflow,
        ArithError::NotRepresentable => ExecutionError::InvalidOperation(
            String::from_str("non-integer exponent"),
        ),
    }
}

/// Elementwise sum or difference of two equally long scalar lists, from
/// position `i` on.
pub open spec fn vec_ew_v(a: Seq<RatV>, b: Seq<RatV>, i: int, sub: bool) -> Result<
    Seq<RatV>,
    ArithError,
>
    decreases a.len() - i,
{
    if i < 0 || i >= a.len() {
        Ok(Seq::<RatV>::empty())
    } else {
        let h = if sub {
            rat_sub_v(a[i], b[i])
        } else {
            rat_add_v(a[i], b[i])
        };
        match h {
            Err(e) => Err(e),
            Ok(x) => match vec_ew_v(a, b, i + 1, sub) {
                Err(e) => Err(e),
                Ok(t) => Ok(seq![x] + t),
            },
        }
    }
}

/// Scales every element of a scalar list by `k`, multiplying or dividing,
/// from position `i` on.
pub open spec fn vec_scale_v(s: Seq<RatV>, i: int, k: RatV, divide: bool) -> Result<
    Seq<RatV>,
    ArithError,
>
    decreases s.len() - i,
{
    if i < 0 || i >= s.len() {
        Ok(Seq::<RatV>::empty())
    } else {
        let h = if divide {
            rat_div_v(s[i], k)
        } else {
            rat_mul_v(s[i], k)
        };
        match h {
            Err(e) => Err(e),
            Ok(x) => match vec_scale_v(s, i + 1, k, divide) {
                Err(e) => Err(e),
                Ok(t) => Ok(seq![x] + t),
            },
        }
    }
}

/// Elementwise sum or difference of two equally shaped column lists.
pub open spec fn mat_ew_v(a: Seq<Seq<RatV>>, b: Seq<Seq<RatV>>, i: int, sub: bool) -> Result<
    Seq<Seq<RatV>>,
    ArithError,
>
    decreases a.len() - i,
{
    if i < 0 || i >= a.len() {
        Ok(Seq::<Seq<RatV>>::empty())
    } else {
        match vec_ew_v(a[i], b[i], 0, sub) {
            Err(e) => Err(e),
            Ok(c) => match mat_ew_v(a, b, i + 1, sub) {
                Err(e) => Err(e),
                Ok(t) => Ok(seq![c] + t),
            },
        }
    }
}

/// Scales every column of a column list by `k`.
pub open spec fn mat_scale_v(m: Seq<Seq<RatV>>, i: int, k: RatV, divide: bool) -> Result<
    Seq<Seq<RatV>>,
    ArithError,
>
    decreases m.len() - i,
{
    if i < 0 || i >= m.len() {
        Ok(Seq::<Seq<RatV>>::empty())
    } else {
        match vec_scale_v(m[i], 0, k, divide) {
            Err(e) => Err(e),
            Ok(c) => match mat_scale_v(m, i + 1, k, divide) {
                Err(e) => Err(e),
                Ok(t) => Ok(seq![c] + t),
            },
        }
    }
}

/// The dot product of matrix row `row` with a vector, accumulated left to
/// right from column `col`.
pub open spec fn dot_v(cols: Seq<Seq<RatV>>, v: Seq<RatV>, row: int, col: int, acc: RatV) -> Result<
    RatV,
    ArithError,
>
    decreases cols.len() - col,
{
    if col < 0 || col >= cols.len() {
        Ok(acc)
    } else {
        match rat_mul_v(cols[col][row], v[col]) {
            Err(e) => Err(e),
            Ok(p) => match rat_add_v(acc, p) {
                Err(e) => Err(e),
                Ok(a2) => dot_v(cols, v, row, col + 1, a2),
            },
        }
    }
}

/// The matrix-vector product: one dot product per row, from `row` on.
pub open spec fn matvec_v(cols: Seq<Seq<RatV>>, v: Seq<RatV>, row: int, height: int) -> Result<
    Seq<RatV>,
    ArithError,
>
    decreases height - row,
{
    if row < 0 || row >= height {
        Ok(Seq::<RatV>::empty())
    } else {
        match dot_v(cols, v, row, 0, rat_zero()) {
            Err(e) => Err(e),
            Ok(d) => match matvec_v(cols, v, row + 1, height) {
                Err(e) => Err(e),
                Ok(t) => Ok(seq![d] + t),
            },
        }
    }
}

/// The matrix product: the left matrix applied to each right column, from
/// column `j` on.
pub open spec fn matmul_v(a: Seq<Seq<RatV>>, b: Seq<Seq<RatV>>, j: int, height: int) -> Result<
    Seq<Seq<RatV>>,
    ArithError,
>
    decreases b.len() - j,
{
    if j < 0 || j >= b.len() {
        Ok(Seq::<Seq<RatV>>::empty())
    } else {
        match matvec_v(a, b[j], 0, height) {
            Err(e) => Err(e),
            Ok(c) => match matmul_v(a, b, j + 1, height) {
                Err(e) => Err(e),
                Ok(t) => Ok(seq![c] + t),
            },
        }
    }
}

/// The row count of a column list.
pub open spec fn mheight(m: Seq<Seq<RatV>>) -> int {
    if m.len() == 0 {
        0
    } else {
        m[0].len() as int
    }
}

/// The arithmetic table: what an operator token yields on two values, or
/// which error it reports.
pub open spec fn operate_v(a: ValueV, op: Seq<char>, b: ValueV) -> Result<ValueV, ErrV> {
    if op == "^"@ {
        match (a, b) {
            (ValueV::Number(x), ValueV::Number(y)) => match rat_pow_v(x, y) {
                Ok(r) => Ok(ValueV::Number(r)),
                Err(e) => Err(arith_err(e)),
            },
            _ => Err(ErrV::InvalidOperation("power of non-scalar operands"@)),
        }
    } else if op == "+"@ || op == "-"@ {
        let sub = op == "-"@;
        match (a, b) {
            (ValueV::Number(x), ValueV::Number(y)) => {
                let h = if sub {
                    rat_sub_v(x, y)
                } else {
                    rat_add_v(x, y)
                };
                match h {
                    Ok(r) => Ok(ValueV::Number(r)),
                    Err(e) => Err(arith_err(e)),
                }
            },
            (ValueV::Vector(x), ValueV::Vector(y)) => {
                if x.len() != y.len() {
                    Err(ErrV::InvalidOperation("elementwise on vectors of different size"@))
                } else {
                    match vec_ew_v(x, y, 0, sub) {
                        Ok(r) => Ok(ValueV::Vector(r)),
                        Err(e) => Err(arith_err(e)),
                    }
                }
            },
            (ValueV::Matrix(x), ValueV::Matrix(y)) => {
                if x.len() != y.len() || mheight(x) != mheight(y) {
                    Err(ErrV::InvalidOperation("elementwise on matrices of different size"@))
                } else {
                    match mat_ew_v(x, y, 0, sub) {
                        Ok(r) => Ok(ValueV::Matrix(r)),
                        Err(e) => Err(arith_err(e)),
                    }
                }
            },
            _ => Err(ErrV::InvalidOperation("elementwise on mixed shapes"@)),
        }
    } else if op == "*"@ {
        match (a, b) {
            (ValueV::Number(x), ValueV::Number(y)) => match rat_mul_v(x, y) {
                Ok(r) => Ok(ValueV::Number(r)),
                Err(e) => Err(arith_err(e)),
            },
            (ValueV::Number(x), ValueV::Vector(y)) => match vec_scale_v(y, 0, x, false) {
                Ok(r) => Ok(ValueV::Vector(r)),
                Err(e) => Err(arith_err(e)),
            },
            (ValueV::Number(x), ValueV::Matrix(y)) => match mat_scale_v(y, 0, x, false) {
                Ok(r) => Ok(ValueV::Matrix(r)),
                Err(e) => Err(arith_err(e)),
            },
            (ValueV::Vector(x), ValueV::Number(y)) => match vec_scale_v(x, 0, y, false) {
                Ok(r) => Ok(ValueV::Vector(r)),
                Err(e) => Err(arith_err(e)),
            },
            (ValueV::Matrix(x), ValueV::Number(y)) => match mat_scale_v(x, 0, y, false) {
                Ok(r) => Ok(ValueV::Matrix(r)),
                Err(e) => Err(arith_err(e)),
            },
            (ValueV::Matrix(x), ValueV::Vector(y)) => {
                if x.len() != y.len() {
                    Err(ErrV::InvalidOperation("matrix width does not match vector height"@))
                } else {
                    match matvec_v(x, y, 0, mheight(x)) {
                        Ok(r) => Ok(ValueV::Vector(r)),
                        Err(e) => Err(arith_err(e)),
                    }
                }
            },
            (ValueV::Matrix(x), ValueV::Matrix(y)) => {
                if x.len() != mheight(y) {
                    Err(ErrV::InvalidOperation("matrix widths do not match"@))
                } else {
                    match matmul_v(x, y, 0, mheight(x)) {
                        Ok(r) => Ok(ValueV::Matrix(r)),
                        Err(e) => Err(arith_err(e)),
                    }
                }
            },
            _ => Err(ErrV::InvalidOperation("product of these shapes"@)),
        }
    } else if op == "/"@ {
        match (a, b) {
            (ValueV::Number(x), ValueV::Number(y)) => match rat_div_v(x, y) {
                Ok(r) => Ok(ValueV::Number(r)),
                Err(e) => Err(arith_err(e)),
            },
            (ValueV::Vector(x), ValueV::Number(y)) => match vec_scale_v(x, 0, y, true) {
                Ok(r) => Ok(ValueV::Vector(r)),
                Err(e) => Err(arith_err(e)),
            },
            (ValueV::Matrix(x), ValueV::Number(y)) => match mat_scale_v(x, 0, y, true) {
                Ok(r) => Ok(ValueV::Matrix(r)),
                Err(e) => Err(arith_err(e)),
            },
            _ => Err(ErrV::InvalidOperation("quotient of these shapes"@)),
        }
    } else if op == "//"@ {
        Err(ErrV::InvalidOperation("the operator '//' is reserved"@))
    } else {
        Err(ErrV::UnknownOperator(op))
    }
}

/// Elementwise sum or difference of the tails of two scalar lists.
fn vec_ew(a: &Vec<Number>, b: &Vec<Number>, i: usize, sub: bool) -> (r: Result<
    Vec<Number>,
    ArithError,
>)
    requires
        a@.len() == b@.len(),
        rats_wf(rats_view(a@)),
        rats_wf(rats_view(b@)),
        i <= a@.len(),
    ensures
        match r {
            Ok(out) => vec_ew_v(rats_view(a@), rats_view(b@), i as int, sub) == Ok::<
                Seq<RatV>,
                ArithError,
            >(rats_view(out@)) && rats_wf(rats_view(out@)) && out@.len() == a@.len() - i,
            Err(e) => vec_ew_v(rats_view(a@), rats_view(b@), i as int, sub) == Err::<
                Seq<RatV>,
                ArithError,
            >(e),
        },
    decreases a@.len() - i,
{
    if i >= a.len() {
        proof {
            assert(rats_view(Seq::<Number>::empty()) =~= Seq::<RatV>::empty());
        }
        return Ok(Vec::new());
    }
    proof {
        assert(rat_wf(rats_view(a@)[i as int]));
        assert(rat_wf(rats_view(b@)[i as int]));
    }
    let h = if sub {
        a[i].sub(b[i])
    } else {
        a[i].add(b[i])
    };
    let x = match h {
        Ok(x) => x,
        Err(e) => {
            return Err(e);
        },
    };
    let t = match vec_ew(a, b, i + 1, sub) {
        Ok(t) => t,
        Err(e) => {
            return Err(e);
        },
    };
    let ghost t0 = rats_view(t@);
    let mut out = t;
    out.insert(0, x);
    proof {
        assert(rats_view(out@) =~= seq![x@] + t0);
    }
    Ok(out)
}

/// Scales the tail of a scalar list by `k`.
fn vec_scale(s: &Vec<Number>, i: usize, k: Number, divide: bool) -> (r: Result<
    Vec<Number>,
    ArithError,
>)
    requires
        rats_wf(rats_view(s@)),
        rat_wf(k@),
        i <= s@.len(),
    ensures
        match r {
            Ok(out) => vec_scale_v(rats_view(s@), i as int, k@, divide) == Ok::<
                Seq<RatV>,
                ArithError,
            >(rats_view(out@)) && rats_wf(rats_view(out@)) && out@.len() == s@.len() - i,
            Err(e) => vec_scale_v(rats_view(s@), i as int, k@, divide) == Err::<
                Seq<RatV>,
                ArithError,
            >(e),
        },
    decreases s@.len() - i,
{
    if i >= s.len() {
        proof {
            assert(rats_view(Seq::<Number>::empty()) =~= Seq::<RatV>::empty());
        }
        return Ok(Vec::new());
    }
    proof {
        assert(rat_wf(rats_view(s@)[i as int]));
    }
    let h = if divide {
        s[i].div(k)
    } else {
        s[i].mul(k)
    };
    let x = match h {
        Ok(x) => x,
        Err(e) => {
            return Err(e);
        },
    };
    let t = match vec_scale(s, i + 1, k, divide) {
        Ok(t) => t,
        Err(e) => {
            return Err(e);
        },
    };
    let ghost t0 = rats_view(t@);
    let mut out = t;
    out.insert(0, x);
    proof {
        assert(rats_view(out@) =~= seq![x@] + t0);
    }
    Ok(out)
}

/// Elementwise sum or difference of the tails of two column lists.
fn mat_ew(a: &Vec<Vec<Number>>, b: &Vec<Vec<Number>>, i: usize, sub: bool) -> (r: Result<
    Vec<Vec<Number>>,
    ArithError,
>)
    requires
        a@.len() == b@.len(),
        value_wf(ValueV::Matrix(cols_view(a@))),
        value_wf(ValueV::Matrix(cols_view(b@))),
        mheight(cols_view(a@)) == mheight(cols_view(b@)),
        i <= a@.len(),
    ensures
        match r {
            Ok(out) => mat_ew_v(cols_view(a@), cols_view(b@), i as int, sub) == Ok::<
                Seq<Seq<RatV>>,
                ArithError,
            >(cols_view(out@)) && out@.len() == a@.len() - i && (forall|j: int|
                0 <= j < out@.len() ==> rats_wf(#[trigger] cols_view(out@)[j]) && cols_view(
                    out@,
                )[j].len() == mheight(cols_view(a@))),
            Err(e) => mat_ew_v(cols_view(a@), cols_view(b@), i as int, sub) == Err::<
                Seq<Seq<RatV>>,
                ArithError,
            >(e),
        },
    decreases a@.len() - i,
{
    if i >= a.len() {
        proof {
            assert(cols_view(Seq::<Vec<Number>>::empty()) =~= Seq::<Seq<RatV>>::empty());
        }
        return Ok(Vec::new());
    }
    proof {
        assert(mat_wf(cols_view(a@)));
        assert(mat_wf(cols_view(b@)));
        assert(rats_wf(cols_view(a@)[i as int]));
        assert(rats_wf(cols_view(b@)[i as int]));
        assert(cols_view(a@)[i as int].len() == mheight(cols_view(a@)));
        assert(cols_view(b@)[i as int].len() == mheight(cols_view(b@)));
    }
    let c = match vec_ew(&a[i], &b[i], 0, sub) {
        Ok(c) => c,
        Err(e) => {
            return Err(e);
        },
    };
    let t = match mat_ew(a, b, i + 1, sub) {
        Ok(t) => t,
        Err(e) => {
            return Err(e);
        },
    };
    let ghost t0 = cols_view(t@);
    let mut out = t;
    out.insert(0, c);
    proof {
        assert(cols_view(out@) =~= seq![rats_view(out@[0]@)] + t0);
    }
    Ok(out)
}

/// Scales the tail of a column list by `k`.
fn mat_scale(m: &Vec<Vec<Number>>, i: usize, k: Number, divide: bool) -> (r: Result<
    Vec<Vec<Number>>,
    ArithError,
>)
    requires
        value_wf(ValueV::Matrix(cols_view(m@))),
        rat_wf(k@),
        i <= m@.len(),
    ensures
        match r {
            Ok(out) => mat_scale_v(cols_view(m@), i as int, k@, divide) == Ok::<
                Seq<Seq<RatV>>,
                ArithError,
            >(cols_view(out@)) && out@.len() == m@.len() - i && (forall|j: int|
                0 <= j < out@.len() ==> rats_wf(#[trigger] cols_view(out@)[j]) && cols_view(
                    out@,
                )[j].len() == mheight(cols_view(m@))),
            Err(e) => mat_scale_v(cols_view(m@), i as int, k@, divide) == Err::<
                Seq<Seq<RatV>>,
                ArithError,
            >(e),
        },
    decreases m@.len() - i,
{
    if i >= m.len() {
        proof {
            assert(cols_view(Seq::<Vec<Number>>::empty()) =~= Seq::<Seq<RatV>>::empty());
        }
        return Ok(Vec::new());
    }
    proof {
        assert(mat_wf(cols_view(m@)));
        assert(rats_wf(cols_view(m@)[i as int]));
        assert(cols_view(m@)[i as int].len() == mheight(cols_view(m@)));
    }
    let c = match vec_scale(&m[i], 0, k, divide) {
        Ok(c) => c,
        Err(e) => {
            return Err(e);
        },
    };
    let t = match mat_scale(m, i + 1, k, divide) {
        Ok(t) => t,
        Err(e) => {
            return Err(e);
        },
    };
    let ghost t0 = cols_view(t@);
    let mut out = t;
    out.insert(0, c);
    proof {
        assert(cols_view(out@) =~= seq![rats_view(out@[0]@)] + t0);
    }
    Ok(out)
}

/// The dot product of matrix row `row` with a vector, accumulated from
/// column `col`.
fn dot(cols: &Vec<Vec<Number>>, v: &Vec<Number>, row: usize, col: usize, acc: Number) -> (r:
    Result<Number, ArithError>)
    requires
        value_wf(ValueV::Matrix(cols_view(cols@))),
        rats_wf(rats_view(v@)),
        v@.len() == cols@.len(),
        rat_wf(acc@),
        col <= cols@.len(),
        cols@.len() > 0 ==> row < cols@[0]@.len(),
    ensures
        match r {
            Ok(d) => dot_v(cols_view(cols@), rats_view(v@), row as int, col as int, acc@) == Ok::<
                RatV,
                ArithError,
            >(d@) && rat_wf(d@),
            Err(e) => dot_v(cols_view(cols@), rats_view(v@), row as int, col as int, acc@)
                == Err::<RatV, ArithError>(e),
        },
    decreases cols@.len() - col,
{
    if col >= cols.len() {
        return Ok(acc);
    }
    proof {
        assert(mat_wf(cols_view(cols@)));
        assert(rats_wf(cols_view(cols@)[col as int]));
        assert(cols_view(cols@)[col as int].len() == mheight(cols_view(cols@)));
        assert(rat_wf(cols_view(cols@)[col as int][row as int]));
        assert(rat_wf(rats_view(v@)[col as int]));
    }
    let p = match cols[col][row].mul(v[col]) {
        Ok(p) => p,
        Err(e) => {
            return Err(e);
        },
    };
    let a2 = match acc.add(p) {
        Ok(a2) => a2,
        Err(e) => {
            return Err(e);
        },
    };
    dot(cols, v, row, col + 1, a2)
}

/// The matrix-vector product from row `row` on.
fn matvec(cols: &Vec<Vec<Number>>, v: &Vec<Number>, row: usize, height: usize) -> (r: Result<
    Vec<Number>,
    ArithError,
>)
    requires
        value_wf(ValueV::Matrix(cols_view(cols@))),
        rats_wf(rats_view(v@)),
        v@.len() == cols@.len(),
        row <= height,
        height == mheight(cols_view(cols@)),
    ensures
        match r {
            Ok(out) => matvec_v(cols_view(cols@), rats_view(v@), row as int, height as int)
                == Ok::<Seq<RatV>, ArithError>(rats_view(out@)) && rats_wf(rats_view(out@))
                && out@.len() == height - row,
            Err(e) => matvec_v(cols_view(cols@), rats_view(v@), row as int, height as int)
                == Err::<Seq<RatV>, ArithError>(e),
        },
    decreases height - row,
{
    if row >= height {
        proof {
            assert(rats_view(Seq::<Number>::empty()) =~= Seq::<RatV>::empty());
        }
        return Ok(Vec::new());
    }
    let d = match dot(cols, v, row, 0, Number { num: 0, den: 1 }) {
        Ok(d) => d,
        Err(e) => {
            return Err(e);
        },
    };
    let t = match matvec(cols, v, row + 1, height) {
        Ok(t) => t,
        Err(e) => {
            return Err(e);
        },
    };
    let ghost t0 = rats_view(t@);
    let mut out = t;
    out.insert(0, d);
    proof {
        assert(rats_view(out@) =~= seq![d@] + t0);
    }
    Ok(out)
}

/// The matrix product from right column `j` on.
fn matmul(a: &Vec<Vec<Number>>, b: &Vec<Vec<Number>>, j: usize, height: usize) -> (r: Result<
    Vec<Vec<Number>>,
    ArithError,
>)
    requires
        value_wf(ValueV::Matrix(cols_view(a@))),
        value_wf(ValueV::Matrix(cols_view(b@))),
        a@.len() == mheight(cols_view(b@)),
        j <= b@.len(),
        height == mheight(cols_view(a@)),
    ensures
        match r {
            Ok(out) => matmul_v(cols_view(a@), cols_view(b@), j as int, height as int) == Ok::<
                Seq<Seq<RatV>>,
                ArithError,
            >(cols_view(out@)) && out@.len() == b@.len() - j && (forall|t: int|
                0 <= t < out@.len() ==> rats_wf(#[trigger] cols_view(out@)[t]) && cols_view(
                    out@,
                )[t].len() == height),
            Err(e) => matmul_v(cols_view(a@), cols_view(b@), j as int, height as int) == Err::<
                Seq<Seq<RatV>>,
                ArithError,
            >(e),
        },
    decreases b@.len() - j,
{
    if j >= b.len() {
        proof {
            assert(cols_view(Seq::<Vec<Number>>::empty()) =~= Seq::<Seq<RatV>>::empty());
        }
        return Ok(Vec::new());
    }
    proof {
        assert(mat_wf(cols_view(b@)));
        assert(rats_wf(cols_view(b@)[j as int]));
        assert(cols_view(b@)[j as int].len() == mheight(cols_view(b@)));
    }
    let c = match matvec(a, &b[j], 0, height) {
        Ok(c) => c,
        Err(e) => {
            return Err(e);
        },
    };
    let t = match matmul(a, b, j + 1, height) {
        Ok(t) => t,
        Err(e) => {
            return Err(e);
        },
    };
    let ghost t0 = cols_view(t@);
    let mut out = t;
    out.insert(0, c);
    proof {
        assert(cols_view(out@) =~= seq![rats_view(out@[0]@)] + t0);
    }
    Ok(out)
}

impl MathType {
    /// Applies a binary arithmetic operator token to two values, by the
    /// arithmetic table.
    pub fn operate(&self, operator: &str, rhs: MathType) -> (r: Result<MathType, ExecutionError>)
        requires
            value_wf(self@),
            value_wf(rhs@),
        ensures
            match r {
                Ok(v) => operate_v(self@, operator@, rhs@) == Ok::<ValueV, ErrV>(v@) && value_wf(
                    v@,
                ),
                Err(e) => operate_v(self@, operator@, rhs@) == Err::<ValueV, ErrV>(e@),
            },
    {
        if str_eq(operator, "^") {
            match (self, &rhs) {
                (MathType::Number(x), MathType::Number(y)) => match x.pow(*y) {
                    Ok(c) => Ok(MathType::Number(c)),
                    Err(e) => Err(arith_to_exec(e)),
                },
                _ => Err(
                    ExecutionError::InvalidOperation(
                        String::from_str("power of non-scalar operands"),
                    ),
                ),
            }
        } else if str_eq(operator, "+") || str_eq(operator, "-") {
            let sub = str_eq(operator, "-");
            match (self, &rhs) {
                (MathType::Number(x), MathType::Number(y)) => {
                    let h = if sub {
                        x.sub(*y)
                    } else {
                        x.add(*y)
                    };
                    match h {
                        Ok(c) => Ok(MathType::Number(c)),
                        Err(e) => Err(arith_to_exec(e)),
                    }
                },
                (MathType::Vector(x), MathType::Vector(y)) => {
                    if x.len() != y.len() {
                        Err(
                            ExecutionError::InvalidOperation(
                                String::from_str("elementwise on vectors of different size"),
                            ),
                        )
                    } else {
                        match vec_ew(x, y, 0, sub) {
                            Ok(c) => Ok(MathType::Vector(c)),
                            Err(e) => Err(arith_to_exec(e)),
                        }
                    }
                },
                (MathType::Matrix(x), MathType::Matrix(y)) => {
                    let hx = if x.len() == 0 {
                        0
                    } else {
                        x[0].len()
                    };
                    let hy = if y.len() == 0 {
                        0
                    } else {
                        y[0].len()
                    };
                    if x.len() != y.len() || hx != hy {
                        Err(
                            ExecutionError::InvalidOperation(
                                String::from_str("elementwise on matrices of different size"),
                            ),
                        )
                    } else {
                        match mat_ew(x, y, 0, sub) {
                            Ok(c) => Ok(MathType::Matrix(c)),
                            Err(e) => Err(arith_to_exec(e)),
                        }
                    }
                },
                _ => Err(
                    ExecutionError::InvalidOperation(
                        String::from_str("elementwise on mixed shapes"),
                    ),
                ),
            }
        } else if str_eq(operator, "*") {
            match (self, &rhs) {
                (MathType::Number(x), MathType::Number(y)) => match x.mul(*y) {
                    Ok(c) => Ok(MathType::Number(c)),
                    Err(e) => Err(arith_to_exec(e)),
                },
                (MathType::Number(x), MathType::Vector(y)) => match vec_scale(y, 0, *x, false) {
                    Ok(c) => Ok(MathType::Vector(c)),
                    Err(e) => Err(arith_to_exec(e)),
                },
                (MathType::Number(x), MathType::Matrix(y)) => match mat_scale(y, 0, *x, false) {
                    Ok(c) => Ok(MathType::Matrix(c)),
                    Err(e) => Err(arith_to_exec(e)),
                },
                (MathType::Vector(x), MathType::Number(y)) => match vec_scale(x, 0, *y, false) {
                    Ok(c) => Ok(MathType::Vector(c)),
                    Err(e) => Err(arith_to_exec(e)),
                },
                (MathType::Matrix(x), MathType::Number(y)) => match mat_scale(x, 0, *y, false) {
                    Ok(c) => Ok(MathType::Matrix(c)),
                    Err(e) => Err(arith_to_exec(e)),
                },
                (MathType::Matrix(x), MathType::Vector(y)) => {
                    if x.len() != y.len() {
                        Err(
                            ExecutionError::InvalidOperation(
                                String::from_str("matrix width does not match vector height"),
                            ),
                        )
                    } else {
                        let h = if x.len() == 0 {
                            0
                        } else {
                            x[0].len()
                        };
                        match matvec(x, y, 0, h) {
                            Ok(c) => Ok(MathType::Vector(c)),
                            Err(e) => Err(arith_to_exec(e)),
                        }
                    }
                },
                (MathType::Matrix(x), MathType::Matrix(y)) => {
                    let hy = if y.len() == 0 {
                        0
                    } else {
                        y[0].len()
                    };
                    if x.len() != hy {
                        Err(
                            ExecutionError::InvalidOperation(
                                String::from_str("matrix widths do not match"),
                            ),
                        )
                    } else {
                        let hx = if x.len() == 0 {
                            0
                        } else {
                            x[0].len()
                        };
                        match matmul(x, y, 0, hx) {
                            Ok(c) => Ok(MathType::Matrix(c)),
                            Err(e) => Err(arith_to_exec(e)),
                        }
                    }
                },
                _ => Err(
                    ExecutionError::InvalidOperation(String::from_str("product of these shapes")),
                ),
            }
        } else if str_eq(operator, "/") {
            match (self, &rhs) {
                (MathType::Number(x), MathType::Number(y)) => match x.div(*y) {
                    Ok(c) => Ok(MathType::Number(c)),
                    Err(e) => Err(arith_to_exec(e)),
                },
                (MathType::Vector(x), MathType::Number(y)) => match vec_scale(x, 0, *y, true) {
                    Ok(c) => Ok(MathType::Vector(c)),
                    Err(e) => Err(arith_to_exec(e)),
                },
                (MathType::Matrix(x), MathType::Number(y)) => match mat_scale(x, 0, *y, true) {
                    Ok(c) => Ok(MathType::Matrix(c)),
                    Err(e) => Err(arith_to_exec(e)),
                },
                _ => Err(
                    ExecutionError::InvalidOperation(String::from_str("quotient of these shapes")),
                ),
            }
        } else if str_eq(operator, "//") {
            Err(ExecutionError::InvalidOperation(String::from_str("the operator '//' is reserved")))
        } else {
            Err(ExecutionError::UnknownOperator(String::from_str(operator)))
        }
    }
}

} // verus!
