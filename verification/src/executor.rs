//! Evaluator data model: errors, the scalar/vector/matrix value type, and
//! the mutable environment of variables and user-defined functions.

use vstd::prelude::*;
use vstd::string::*;
use vstd::pervasive::VecAdditionalExecFns;
use crate::number::{Number, RatV, ArithError, rat_wf};
use crate::tree_builder::{
    Node, NodeV, node_view, nodes_view, str_eq, nv_size, nvs_size, nv_is_str,
    nv_is_unary_operator, nvs_flat, lemma_nvs_size_elem, lemma_nv_size_pos, lemma_nodes_view,
};
use crate::operations::operate_v;

verus! {

/// Errors of evaluation.
#[derive(Debug)]
pub enum ExecutionError {
    /// A ternary group's middle token is no recognized operator.
    UnknownOperator(String),
    /// A group has a shape the evaluator does not dispatch on.
    UnknownExpression(String),
    /// A leaf is neither a numeric literal nor a bound name.
    UnknownIdentifier(String),
    /// A shape or type mismatch, an invalid assignment target, or an exact
    /// result outside the rational numbers.
    InvalidOperation(String),
    /// A bracket literal element that is not a scalar.
    InvalidVectorContents(String),
    /// A bracket literal whose columns have unequal lengths.
    MatrixUnequalRowLengths,
    /// A user function applied to the wrong number of arguments: declared
    /// parameter count, then argument count.
    WrongNumFunctionArgs(usize, usize),
    /// Reserved for named built-in functions; the catalog is empty, so this
    /// is never produced.
    BadFunctionArgs(String),
    /// Division by an exact zero.
    DivisionByZero,
    /// An exact result that does not fit a 64-bit fraction.
    NumericOverflow,
    /// User-function calls nested beyond the call-depth budget.
    RecursionLimitExceeded,
}

/// The mathematical shape of an evaluation error.
pub ghost enum ErrV {
    UnknownOperator(Seq<char>),
    UnknownExpression(Seq<char>),
    UnknownIdentifier(Seq<char>),
    InvalidOperation(Seq<char>),
    InvalidVectorContents(Seq<char>),
    MatrixUnequalRowLengths,
    WrongNumFunctionArgs(int, int),
    BadFunctionArgs(Seq<char>),
    DivisionByZero,
    NumericOverflow,
    RecursionLimitExceeded,
}

impl View for ExecutionError {
    type V = ErrV;

    open spec fn view(&self) -> ErrV {
        match self {
            ExecutionError::UnknownOperator(s) => ErrV::UnknownOperator(s@),
            ExecutionError::UnknownExpression(s) => ErrV::UnknownExpression(s@),
            ExecutionError::UnknownIdentifier(s) => ErrV::UnknownIdentifier(s@),
            ExecutionError::InvalidOperation(s) => ErrV::InvalidOperation(s@),
            ExecutionError::InvalidVectorContents(s) => ErrV::InvalidVectorContents(s@),
            ExecutionError::MatrixUnequalRowLengths => ErrV::MatrixUnequalRowLengths,
            ExecutionError::WrongNumFunctionArgs(a, b) => ErrV::WrongNumFunctionArgs(
                *a as int,
                *b as int,
            ),
            ExecutionError::BadFunctionArgs(s) => ErrV::BadFunctionArgs(s@),
            ExecutionError::DivisionByZero => ErrV::DivisionByZero,
            ExecutionError::NumericOverflow => ErrV::NumericOverflow,
            ExecutionError::RecursionLimitExceeded => ErrV::RecursionLimitExceeded,
        }
    }
}

/// A value: a scalar, a vector, or a matrix stored as its columns.
#[derive(Debug, PartialEq)]
pub enum MathType {
    Number(Number),
    Vector(Vec<Number>),
    Matrix(Vec<Vec<Number>>),
}

/// The mathematical shape of a value.
pub ghost enum ValueV {
    Number(RatV),
    Vector(Seq<RatV>),
    Matrix(Seq<Seq<RatV>>),
}

/// The fractions of a scalar list.
pub open spec fn rats_view(s: Seq<Number>) -> Seq<RatV> {
    s.map_values(|x: Number| x@)
}

/// The fractions of a column list.
pub open spec fn cols_view(m: Seq<Vec<Number>>) -> Seq<Seq<RatV>> {
    m.map_values(|c: Vec<Number>| rats_view(c@))
}

impl View for MathType {
    type V = ValueV;

    open spec fn view(&self) -> ValueV {
        match self {
            MathType::Number(x) => ValueV::Number(x@),
            MathType::Vector(v) => ValueV::Vector(rats_view(v@)),
            MathType::Matrix(m) => ValueV::Matrix(cols_view(m@)),
        }
    }
}

/// Every fraction of a list is well formed.
pub open spec fn rats_wf(s: Seq<RatV>) -> bool {
    forall|i: int| 0 <= i < s.len() ==> rat_wf(s[i])
}

/// Well-formed matrix columns: well-formed fractions, all columns of equal
/// length.
pub open spec fn mat_wf(m: Seq<Seq<RatV>>) -> bool {
    forall|i: int| 0 <= i < m.len() ==> rats_wf(#[trigger] m[i]) && m[i].len() == m[0].len()
}

/// A well-formed value: well-formed fractions, and matrix columns of equal
/// length.
pub open spec fn value_wf(v: ValueV) -> bool {
    match v {
        ValueV::Number(r) => rat_wf(r),
        ValueV::Vector(s) => rats_wf(s),
        ValueV::Matrix(m) => mat_wf(m),
    }
}

impl MathType {
    /// A deep copy of this value.
    pub fn dup(&self) -> (r: MathType)
        ensures
            r@ == self@,
    {
        match self {
            MathType::Number(x) => MathType::Number(*x),
            MathType::Vector(v) => MathType::Vector(copy_numbers(v)),
            MathType::Matrix(m) => {
                let mut cols: Vec<Vec<Number>> = Vec::new();
                let mut i: usize = 0;
                while i < m.len()
                    invariant
                        i <= m@.len(),
                        cols@.len() == i,
                        forall|j: int| 0 <= j < i ==> cols@[j]@ == m@[j]@,
                    decreases m@.len() - i,
                {
                    cols.push(copy_numbers(&m[i]));
                    i += 1;
                }
                proof {
                    assert(cols_view(cols@) =~= cols_view(m@));
                }
                MathType::Matrix(cols)
            },
        }
    }
}

/// Copies a scalar list.
pub fn copy_numbers(v: &Vec<Number>) -> (r: Vec<Number>)
    ensures
        r@ == v@,
{
    let mut out: Vec<Number> = Vec::new();
    let mut i: usize = 0;
    while i < v.len()
        invariant
            i <= v@.len(),
            out@.len() == i,
            forall|j: int| 0 <= j < i ==> out@[j] == v@[j],
        decreases v@.len() - i,
    {
        out.push(v[i]);
        i += 1;
    }
    proof {
        assert(out@ =~= v@);
    }
    out
}

/// The trigonometric mode of an environment; read-only data for this core.
#[derive(Debug, Clone, Copy, PartialEq, Eq, Structural)]
pub enum TrigMode {
    Rad,
    Deg,
}

/// Variable bindings, user function definitions, and display settings.
pub struct Environment {
    pub user_vars: Vec<(String, MathType)>,
    pub user_functions: Vec<(String, (Node, Node))>,
    pub trig_mode: TrigMode,
    pub digit_cap: u8,
}

/// The mathematical shape of an environment.
pub ghost struct EnvV {
    pub vars: Seq<(Seq<char>, ValueV)>,
    pub funs: Seq<(Seq<char>, (NodeV, NodeV))>,
    pub trig_mode: TrigMode,
    pub digit_cap: u8,
}

impl View for Environment {
    type V = EnvV;

    open spec fn view(&self) -> EnvV {
        EnvV {
            vars: self.user_vars@.map_values(|p: (String, MathType)| (p.0@, p.1@)),
            funs: self.user_functions@.map_values(
                |p: (String, (Node, Node))| (p.0@, (node_view(p.1.0), node_view(p.1.1))),
            ),
            trig_mode: self.trig_mode,
            digit_cap: self.digit_cap,
        }
    }
}

/// Every variable of an environment holds a well-formed value.
pub open spec fn env_wf(e: EnvV) -> bool {
    forall|i: int| 0 <= i < e.vars.len() ==> value_wf(#[trigger] e.vars[i].1)
}

/// The first binding of a name, scanned front to back.
pub open spec fn vars_lookup(vars: Seq<(Seq<char>, ValueV)>, name: Seq<char>) -> Option<ValueV>
    decreases vars.len(),
{
    if vars.len() == 0 {
        None
    } else if vars[0].0 == name {
        Some(vars[0].1)
    } else {
        vars_lookup(vars.drop_first(), name)
    }
}

/// Replaces the first binding of a name, or appends a new one.
pub open spec fn vars_insert(
    vars: Seq<(Seq<char>, ValueV)>,
    name: Seq<char>,
    val: ValueV,
) -> Seq<(Seq<char>, ValueV)>
    decreases vars.len(),
{
    if vars.len() == 0 {
        seq![(name, val)]
    } else if vars[0].0 == name {
        seq![(name, val)] + vars.drop_first()
    } else {
        seq![vars[0]] + vars_insert(vars.drop_first(), name, val)
    }
}

/// The first definition of a function name.
pub open spec fn funs_lookup(funs: Seq<(Seq<char>, (NodeV, NodeV))>, name: Seq<char>) -> Option<
    (NodeV, NodeV),
>
    decreases funs.len(),
{
    if funs.len() == 0 {
        None
    } else if funs[0].0 == name {
        Some(funs[0].1)
    } else {
        funs_lookup(funs.drop_first(), name)
    }
}

proof fn lemma_vars_insert_update(
    vars: Seq<(Seq<char>, ValueV)>,
    name: Seq<char>,
    val: ValueV,
    i: int,
)
    requires
        0 <= i < vars.len(),
        vars[i].0 == name,
        forall|j: int| 0 <= j < i ==> #[trigger] vars[j].0 != name,
    ensures
        vars_insert(vars, name, val) == vars.update(i, (name, val)),
    decreases i,
{
    if i == 0 {
        assert(seq![(name, val)] + vars.drop_first() =~= vars.update(0, (name, val)));
    } else {
        lemma_vars_insert_update(vars.drop_first(), name, val, i - 1);
        assert(vars.drop_first().update(i - 1, (name, val)) =~= vars.update(
            i,
            (name, val),
        ).drop_first());
        assert(seq![vars[0]] + vars.update(i, (name, val)).drop_first() =~= vars.update(
            i,
            (name, val),
        ));
    }
}

proof fn lemma_vars_insert_append(vars: Seq<(Seq<char>, ValueV)>, name: Seq<char>, val: ValueV)
    requires
        forall|j: int| 0 <= j < vars.len() ==> #[trigger] vars[j].0 != name,
    ensures
        vars_insert(vars, name, val) == vars.push((name, val)),
    decreases vars.len(),
{
    if vars.len() == 0 {
        assert(seq![(name, val)] =~= vars.push((name, val)));
    } else {
        lemma_vars_insert_append(vars.drop_first(), name, val);
        assert(seq![vars[0]] + vars.drop_first().push((name, val)) =~= vars.push((name, val)));
    }
}

impl Environment {
    /// The value bound to a variable name, if any.
    #[verifier::loop_isolation(false)]
    pub fn lookup_var(&self, name: &String) -> (r: Option<MathType>)
        ensures
            match r {
                Some(v) => vars_lookup(self@.vars, name@) == Some(v@),
                None => vars_lookup(self@.vars, name@) is None,
            },
    {
        proof {
            assert(self@.vars.skip(0) =~= self@.vars);
        }
        let mut i: usize = 0;
        while i < self.user_vars.len()
            invariant
                i <= self.user_vars@.len(),
                self@.vars.len() == self.user_vars@.len(),
                vars_lookup(self@.vars, name@) == vars_lookup(
                    self@.vars.skip(i as int),
                    name@,
                ),
            decreases self.user_vars@.len() - i,
        {
            let entry = &self.user_vars[i];
            let hit = str_eq(entry.0.as_str(), name.as_str());
            proof {
                assert(self@.vars.skip(i as int)[0] == self@.vars[i as int]);
                assert(self@.vars.skip(i as int).drop_first() =~= self@.vars.skip(
                    i as int + 1,
                ));
            }
            if hit {
                return Some(entry.1.dup());
            }
            i += 1;
        }
        proof {
            assert(self@.vars.skip(self.user_vars@.len() as int).len() == 0);
        }
        None
    }

    /// Binds a name to a value, replacing its first binding if one exists.
    #[verifier::loop_isolation(false)]
    pub fn insert_var(&mut self, name: String, value: MathType)
        ensures
            final(self)@.vars == vars_insert(old(self)@.vars, name@, value@),
            final(self)@.funs == old(self)@.funs,
            final(self).trig_mode == old(self).trig_mode,
            final(self).digit_cap == old(self).digit_cap,
    {
        let ghost vars0 = self@.vars;
        let mut i: usize = 0;
        while i < self.user_vars.len()
            invariant
                i <= self.user_vars@.len(),
                self@.vars.len() == self.user_vars@.len(),
                self@.vars == vars0,
                self@.funs == old(self)@.funs,
                self.trig_mode == old(self).trig_mode,
                self.digit_cap == old(self).digit_cap,
                forall|j: int| 0 <= j < i ==> #[trigger] vars0[j].0 != name@,
            decreases self.user_vars@.len() - i,
        {
            let hit = str_eq(self.user_vars[i].0.as_str(), name.as_str());
            if hit {
                proof {
                    lemma_vars_insert_update(vars0, name@, value@, i as int);
                }
                self.user_vars.set(i, (name, value));
                proof {
                    assert(self@.vars =~= vars0.update(i as int, (name@, value@)));
                }
                return ;
            }
            i += 1;
        }
        proof {
            lemma_vars_insert_append(vars0, name@, value@);
        }
        self.user_vars.push((name, value));
        proof {
            assert(self@.vars =~= vars0.push((name@, value@)));
        }
    }

    /// The definition of a function name, if any: its parameter tree and its
    /// body tree.
    #[verifier::loop_isolation(false)]
    pub fn lookup_function(&self, name: &String) -> (r: Option<(Node, Node)>)
        ensures
            match r {
                Some(d) => funs_lookup(self@.funs, name@) == Some(
                    (node_view(d.0), node_view(d.1)),
                ),
                None => funs_lookup(self@.funs, name@) is None,
            },
    {
        proof {
            assert(self@.funs.skip(0) =~= self@.funs);
        }
        let mut i: usize = 0;
        while i < self.user_functions.len()
            invariant
                i <= self.user_functions@.len(),
                self@.funs.len() == self.user_functions@.len(),
                funs_lookup(self@.funs, name@) == funs_lookup(
                    self@.funs.skip(i as int),
                    name@,
                ),
            decreases self.user_functions@.len() - i,
        {
            let entry = &self.user_functions[i];
            let hit = str_eq(entry.0.as_str(), name.as_str());
            proof {
                assert(self@.funs.skip(i as int)[0] == self@.funs[i as int]);
                assert(self@.funs.skip(i as int).drop_first() =~= self@.funs.skip(
                    i as int + 1,
                ));
            }
            if hit {
                return Some((entry.1.0.duplicate(), entry.1.1.duplicate()));
            }
            i += 1;
        }
        proof {
            assert(self@.funs.skip(self.user_functions@.len() as int).len() == 0);
        }
        None
    }

    /// An independent copy of this environment, as handed to a called
    /// function: the callee sees the caller's bindings, and mutations made
    /// in the copy do not propagate back.
    #[verifier::loop_isolation(false)]
    pub fn snapshot(&self) -> (r: Environment)
        ensures
            r@ == self@,
    {
        let mut vars: Vec<(String, MathType)> = Vec::new();
        let mut i: usize = 0;
        while i < self.user_vars.len()
            invariant
                i <= self.user_vars@.len(),
                vars@.len() == i,
                forall|j: int|
                    0 <= j < i ==> #[trigger] vars@[j].0@ == self.user_vars@[j].0@ && vars@[j].1@
                        == self.user_vars@[j].1@,
            decreases self.user_vars@.len() - i,
        {
            let entry = &self.user_vars[i];
            vars.push((entry.0.clone(), entry.1.dup()));
            i += 1;
        }
        let mut funs: Vec<(String, (Node, Node))> = Vec::new();
        let mut k: usize = 0;
        while k < self.user_functions.len()
            invariant
                k <= self.user_functions@.len(),
                funs@.len() == k,
                forall|j: int|
                    0 <= j < k ==> #[trigger] funs@[j].0@ == self.user_functions@[j].0@
                        && node_view(funs@[j].1.0) == node_view(self.user_functions@[j].1.0)
                        && node_view(funs@[j].1.1) == node_view(self.user_functions@[j].1.1),
            decreases self.user_functions@.len() - k,
        {
            let entry = &self.user_functions[k];
            funs.push((entry.0.clone(), (entry.1.0.duplicate(), entry.1.1.duplicate())));
            k += 1;
        }
        let r = Environment {
            user_vars: vars,
            user_functions: funs,
            trig_mode: self.trig_mode,
            digit_cap: self.digit_cap,
        };
        proof {
            assert(r@.vars =~= self@.vars);
            assert(r@.funs =~= self@.funs);
        }
        r
    }
}

impl Default for Environment {
    /// A fresh environment: decimal approximations of the constants pi and
    /// e, a zero rolling result, no user functions, degree mode, nine
    /// display digits.
    fn default() -> (r: Self)
        ensures
            r@.vars == default_vars(),
            r@.funs == Seq::<(Seq<char>, (NodeV, NodeV))>::empty(),
            r.trig_mode == TrigMode::Deg,
            r.digit_cap == 9u8,
            env_wf(r@),
    {
        let mut vars: Vec<(String, MathType)> = Vec::new();
        vars.push(
            (
                String::from_str("pi"),
                MathType::Number(Number { num: 3141592653589793, den: 1000000000000000 }),
            ),
        );
        vars.push(
            (
                String::from_str("PI"),
                MathType::Number(Number { num: 3141592653589793, den: 1000000000000000 }),
            ),
        );
        vars.push(
            (
                String::from_str("e"),
                MathType::Number(Number { num: 2718281828459045, den: 1000000000000000 }),
            ),
        );
        vars.push(
            (
                String::from_str("E"),
                MathType::Number(Number { num: 2718281828459045, den: 1000000000000000 }),
            ),
        );
        vars.push((String::from_str("ans"), MathType::Number(Number { num: 0, den: 1 })));
        let r = Environment {
            user_vars: vars,
            user_functions: Vec::new(),
            trig_mode: TrigMode::Deg,
            digit_cap: 9,
        };
        proof {
            assert(r@.vars =~= default_vars());
            assert(r@.funs =~= Seq::<(Seq<char>, (NodeV, NodeV))>::empty());
        }
        r
    }
}

/// The variable bindings of a fresh environment.
pub open spec fn default_vars() -> Seq<(Seq<char>, ValueV)> {
    seq![
        ("pi"@, ValueV::Number(RatV { n: 3141592653589793, d: 1000000000000000 })),
        ("PI"@, ValueV::Number(RatV { n: 3141592653589793, d: 1000000000000000 })),
        ("e"@, ValueV::Number(RatV { n: 2718281828459045, d: 1000000000000000 })),
        ("E"@, ValueV::Number(RatV { n: 2718281828459045, d: 1000000000000000 })),
        ("ans"@, ValueV::Number(RatV { n: 0, d: 1 })),
    ]
}

// ------------------------------------------------------------------
// Numeric literals.
// ------------------------------------------------------------------

/// One pass over the characters of a literal, accumulating the numerator
/// magnitude and the denominator power of ten.
pub open spec fn num_rec(
    t: Seq<char>,
    i: int,
    seen_dot: bool,
    any_digit: bool,
    num: int,
    den: int,
) -> Option<RatV>
    decreases t.len() - i,
{
    if i < 0 || i >= t.len() {
        if any_digit {
            Some(RatV { n: num, d: den })
        } else {
            None
        }
    } else {
        let c = t[i];
        if c == '.' {
            if seen_dot {
                None
            } else {
                num_rec(t, i + 1, true, any_digit, num, den)
            }
        } else if 48 <= c as int <= 57 {
            let v = num * 10 + (c as int - 48);
            let d2 = if seen_dot {
                den * 10
            } else {
                den
            };
            if v > i64::MAX || d2 > i64::MAX {
                None
            } else {
                num_rec(t, i + 1, seen_dot, true, v, d2)
            }
        } else {
            None
        }
    }
}

/// The exact fraction denoted by a decimal literal with an optional sign
/// and at most one decimal point, if the token is one and it fits.
pub open spec fn parse_number_v(t: Seq<char>) -> Option<RatV> {
    if t.len() == 0 {
        None
    } else if t[0] == '-' {
        match num_rec(t, 1, false, false, 0, 1) {
            Some(r) => Some(RatV { n: -r.n, d: r.d }),
            None => None,
        }
    } else if t[0] == '+' {
        num_rec(t, 1, false, false, 0, 1)
    } else {
        num_rec(t, 0, false, false, 0, 1)
    }
}

/// Parses a token as a decimal literal into an exact fraction.
#[verifier::loop_isolation(false)]
pub fn parse_number(t: &str) -> (r: Option<Number>)
    ensures
        match r {
            Some(x) => parse_number_v(t@) == Some(x@) && rat_wf(x@),
            None => parse_number_v(t@) is None,
        },
{
    let n = t.unicode_len();
    if n == 0 {
        return None;
    }
    let first = t.get_char(0);
    let neg = first == '-';
    let mut i: usize = if neg || first == '+' {
        1
    } else {
        0
    };
    let ghost start = i as int;
    let mut seen_dot = false;
    let mut any_digit = false;
    let mut num: i64 = 0;
    let mut den: i64 = 1;
    while i < n
        invariant
            n == t@.len(),
            start <= i <= n,
            0 <= num <= i64::MAX,
            1 <= den <= i64::MAX,
            num_rec(t@, start, false, false, 0, 1) == num_rec(
                t@,
                i as int,
                seen_dot,
                any_digit,
                num as int,
                den as int,
            ),
        decreases n - i,
    {
        let c = t.get_char(i);
        if c == '.' {
            if seen_dot {
                return None;
            }
            seen_dot = true;
        } else {
            let u = c as u32;
            if 48 <= u && u <= 57 {
                let v: i128 = (num as i128) * 10 + ((u - 48) as i128);
                let d2: i128 = if seen_dot {
                    (den as i128) * 10
                } else {
                    den as i128
                };
                if v > i64::MAX as i128 || d2 > i64::MAX as i128 {
                    return None;
                }
                num = v as i64;
                den = d2 as i64;
                any_digit = true;
            } else {
                return None;
            }
        }
        i += 1;
    }
    if !any_digit {
        return None;
    }
    if neg {
        Some(Number { num: -num, den })
    } else {
        Some(Number { num, den })
    }
}

// ------------------------------------------------------------------
// Argument splitting and parameter binding.
// ------------------------------------------------------------------

/// Splits a sibling list on top-level commas into argument pieces.
pub open spec fn split_rec(
    ch: Seq<NodeV>,
    i: int,
    cur: Seq<NodeV>,
    acc: Seq<Seq<NodeV>>,
) -> Seq<Seq<NodeV>>
    decreases ch.len() - i,
{
    if i < 0 || i >= ch.len() {
        acc.push(cur)
    } else if nv_is_str(ch[i], ","@) {
        split_rec(ch, i + 1, Seq::<NodeV>::empty(), acc.push(cur))
    } else {
        split_rec(ch, i + 1, cur.push(ch[i]), acc)
    }
}

/// The comma-separated pieces of an argument list.
pub open spec fn split_commas(ch: Seq<NodeV>) -> Seq<Seq<NodeV>> {
    split_rec(ch, 0, Seq::<NodeV>::empty(), Seq::<Seq<NodeV>>::empty())
}

/// Total size of a list of pieces.
pub open spec fn pieces_size(pieces: Seq<Seq<NodeV>>) -> nat
    decreases pieces.len(),
{
    if pieces.len() == 0 {
        0
    } else {
        nvs_size(pieces[0]) + pieces_size(pieces.drop_first())
    }
}

pub proof fn lemma_pieces_size_elem(pieces: Seq<Seq<NodeV>>, i: int)
    requires
        0 <= i < pieces.len(),
    ensures
        nvs_size(pieces[i]) <= pieces_size(pieces),
    decreases pieces.len(),
{
    if i > 0 {
        lemma_pieces_size_elem(pieces.drop_first(), i - 1);
    }
}

proof fn lemma_pieces_size_snoc(pieces: Seq<Seq<NodeV>>, cur: Seq<NodeV>)
    ensures
        pieces_size(pieces.push(cur)) == pieces_size(pieces) + nvs_size(cur),
    decreases pieces.len(),
{
    assert(pieces_size(pieces.push(cur)) == nvs_size(pieces.push(cur)[0]) + pieces_size(
        pieces.push(cur).drop_first(),
    ));
    if pieces.len() == 0 {
        assert(pieces.push(cur)[0] == cur);
        assert(pieces.push(cur).drop_first() =~= Seq::<Seq<NodeV>>::empty());
        assert(pieces_size(Seq::<Seq<NodeV>>::empty()) == 0);
    } else {
        assert(pieces.push(cur)[0] == pieces[0]);
        assert(pieces.push(cur).drop_first() =~= pieces.drop_first().push(cur));
        lemma_pieces_size_snoc(pieces.drop_first(), cur);
        assert(pieces_size(pieces) == nvs_size(pieces[0]) + pieces_size(pieces.drop_first()));
    }
}

proof fn lemma_nvs_size_suffix(ch: Seq<NodeV>, i: int)
    requires
        0 <= i < ch.len(),
    ensures
        nvs_size(ch.subrange(i, ch.len() as int)) == nv_size(ch[i]) + nvs_size(
            ch.subrange(i + 1, ch.len() as int),
        ),
{
    assert(ch.subrange(i, ch.len() as int)[0] == ch[i]);
    assert(ch.subrange(i, ch.len() as int).drop_first() =~= ch.subrange(
        i + 1,
        ch.len() as int,
    ));
}

proof fn lemma_split_rec_size(ch: Seq<NodeV>, i: int, cur: Seq<NodeV>, acc: Seq<Seq<NodeV>>)
    requires
        0 <= i <= ch.len(),
    ensures
        pieces_size(split_rec(ch, i, cur, acc)) <= pieces_size(acc) + nvs_size(cur) + nvs_size(
            ch.subrange(i, ch.len() as int),
        ),
    decreases ch.len() - i,
{
    if i >= ch.len() {
        lemma_pieces_size_snoc(acc, cur);
        assert(ch.subrange(i, ch.len() as int) =~= Seq::<NodeV>::empty());
    } else {
        lemma_nvs_size_suffix(ch, i);
        if nv_is_str(ch[i], ","@) {
            lemma_pieces_size_snoc(acc, cur);
            lemma_split_rec_size(ch, i + 1, Seq::<NodeV>::empty(), acc.push(cur));
            lemma_nv_size_pos(ch[i]);
        } else {
            lemma_split_rec_size(ch, i + 1, cur.push(ch[i]), acc);
            assert(nvs_size(cur.push(ch[i])) == nvs_size(cur) + nv_size(ch[i])) by {
                lemma_nvs_size_snoc(cur, ch[i]);
            };
        }
    }
}

proof fn lemma_nvs_size_snoc(s: Seq<NodeV>, x: NodeV)
    ensures
        nvs_size(s.push(x)) == nvs_size(s) + nv_size(x),
    decreases s.len(),
{
    assert(nvs_size(s.push(x)) == nv_size(s.push(x)[0]) + nvs_size(s.push(x).drop_first()));
    if s.len() == 0 {
        assert(s.push(x)[0] == x);
        assert(s.push(x).drop_first() =~= Seq::<NodeV>::empty());
        assert(nvs_size(Seq::<NodeV>::empty()) == 0);
    } else {
        assert(s.push(x)[0] == s[0]);
        assert(s.push(x).drop_first() =~= s.drop_first().push(x));
        lemma_nvs_size_snoc(s.drop_first(), x);
        assert(nvs_size(s) == nv_size(s[0]) + nvs_size(s.drop_first()));
    }
}

/// The pieces of a list are no larger than the list itself.
pub proof fn lemma_split_commas_size(ch: Seq<NodeV>)
    ensures
        pieces_size(split_commas(ch)) <= nvs_size(ch),
{
    if ch.len() == 0 {
        lemma_split_rec_size(ch, 0, Seq::<NodeV>::empty(), Seq::<Seq<NodeV>>::empty());
        assert(ch.subrange(0, 0) =~= ch);
    } else {
        lemma_split_rec_size(ch, 0, Seq::<NodeV>::empty(), Seq::<Seq<NodeV>>::empty());
        assert(ch.subrange(0, ch.len() as int) =~= ch);
    }
}

/// The declared parameter names of a function definition: every plain leaf
/// of the parameter tree except commas.
pub open spec fn param_names_rec(sub: Seq<NodeV>, i: int, acc: Seq<Seq<char>>) -> Seq<Seq<char>>
    decreases sub.len() - i,
{
    if i < 0 || i >= sub.len() {
        acc
    } else {
        match sub[i] {
            NodeV::Exp(_) => param_names_rec(sub, i + 1, acc),
            NodeV::Tkn(t) => if t == ","@ {
                param_names_rec(sub, i + 1, acc)
            } else {
                param_names_rec(sub, i + 1, acc.push(t))
            },
        }
    }
}

/// The declared parameter names of a function definition.
pub open spec fn param_names(params: NodeV) -> Seq<Seq<char>> {
    match params {
        NodeV::Tkn(t) => seq![t],
        NodeV::Exp(sub) => param_names_rec(sub, 0, Seq::<Seq<char>>::empty()),
    }
}

/// Binds parameter names to argument values, in order, over a variable
/// list.
pub open spec fn bind_params(
    vars: Seq<(Seq<char>, ValueV)>,
    names: Seq<Seq<char>>,
    args: Seq<ValueV>,
    i: int,
) -> Seq<(Seq<char>, ValueV)>
    decreases names.len() - i,
{
    if i < 0 || i >= names.len() {
        vars
    } else {
        bind_params(vars_insert(vars, names[i], args[i]), names, args, i + 1)
    }
}

// ------------------------------------------------------------------
// The evaluator.
// ------------------------------------------------------------------

/// The call-depth budget of one top-level evaluation: each user-function
/// application spends one unit.
pub const RECURSION_LIMIT: u64 = 64;

/// What evaluating a tree yields, and the environment it leaves behind.
pub open spec fn eval_node(n: NodeV, env: EnvV, fuel: nat) -> (Result<ValueV, ErrV>, EnvV)
    decreases fuel, nv_size(n), 1int, 0int,
    via eval_node_dec
{
    match n {
        NodeV::Tkn(t) => match parse_number_v(t) {
            Some(x) => (Ok(ValueV::Number(x)), env),
            None => match vars_lookup(env.vars, t) {
                Some(v) => (Ok(v), env),
                None => (Err(ErrV::UnknownIdentifier(t)), env),
            },
        },
        NodeV::Exp(ch) => {
            if ch.len() > 0 && nv_is_str(ch[0], "["@) {
                eval_literal(ch, 1, Seq::<Seq<RatV>>::empty(), 1, env, fuel)
            } else if ch.len() == 0 {
                (Ok(ValueV::Number(RatV { n: 0, d: 1 })), env)
            } else if ch.len() == 1 {
                eval_node(ch[0], env, fuel)
            } else if ch.len() == 2 {
                let l = ch[0];
                let rnode = ch[1];
                if nv_is_unary_operator(l) {
                    match eval_node(rnode, env, fuel) {
                        (Err(e), e2) => (Err(e), e2),
                        (Ok(v), e2) => match operate_v(
                            v,
                            "*"@,
                            ValueV::Number(RatV { n: -1, d: 1 }),
                        ) {
                            Ok(r) => (Ok(r), e2),
                            Err(er) => (Err(er), e2),
                        },
                    }
                } else {
                    match l {
                        NodeV::Tkn(name) => {
                            let argres = match rnode {
                                NodeV::Tkn(_) => match eval_node(rnode, env, fuel) {
                                    (Ok(v), e2) => (
                                        Ok::<Seq<ValueV>, ErrV>(seq![v]),
                                        e2,
                                    ),
                                    (Err(er), e2) => (Err::<Seq<ValueV>, ErrV>(er), e2),
                                },
                                NodeV::Exp(sub) => eval_args(split_commas(sub), 0, env, fuel),
                            };
                            match argres {
                                (Err(er), _) => (Err(er), env),
                                (Ok(args), e2) => match funs_lookup(env.funs, name) {
                                    Some(def) => {
                                        let names = param_names(def.0);
                                        if names.len() != args.len() {
                                            (
                                                Err(
                                                    ErrV::WrongNumFunctionArgs(
                                                        names.len() as int,
                                                        args.len() as int,
                                                    ),
                                                ),
                                                env,
                                            )
                                        } else if fuel == 0 {
                                            (Err(ErrV::RecursionLimitExceeded), env)
                                        } else {
                                            let callee = EnvV {
                                                vars: bind_params(e2.vars, names, args, 0),
                                                ..e2
                                            };
                                            let inner = eval_node(
                                                def.1,
                                                callee,
                                                (fuel - 1) as nat,
                                            );
                                            (inner.0, env)
                                        }
                                    },
                                    None => (Err(ErrV::UnknownIdentifier(name)), env),
                                },
                            }
                        },
                        NodeV::Exp(_) => (Err(ErrV::UnknownExpression(nvs_flat(ch))), env),
                    }
                }
            } else if ch.len() == 3 {
                let op = ch[1];
                match op {
                    NodeV::Tkn(t) => {
                        if t == "="@ || t == "=>"@ {
                            let namenode = if t == "="@ {
                                ch[0]
                            } else {
                                ch[2]
                            };
                            let valuenode = if t == "="@ {
                                ch[2]
                            } else {
                                ch[0]
                            };
                            match namenode {
                                NodeV::Exp(_) => (
                                    Err(ErrV::InvalidOperation("invalid variable name"@)),
                                    env,
                                ),
                                NodeV::Tkn(name) => match eval_node(valuenode, env, fuel) {
                                    (Err(e), e2) => (Err(e), e2),
                                    (Ok(v), e2) => (
                                        Ok(v),
                                        EnvV { vars: vars_insert(e2.vars, name, v), ..e2 },
                                    ),
                                },
                            }
                        } else {
                            match eval_node(ch[0], env, fuel) {
                                (Err(e), e2) => (Err(e), e2),
                                (Ok(lv), e2) => match eval_node(ch[2], e2, fuel) {
                                    (Err(e), e3) => (Err(e), e3),
                                    (Ok(rv), e3) => match operate_v(lv, t, rv) {
                                        Ok(res) => (Ok(res), e3),
                                        Err(er) => (Err(er), e3),
                                    },
                                },
                            }
                        }
                    },
                    NodeV::Exp(_) => (Err(ErrV::UnknownExpression(nvs_flat(ch))), env),
                }
            } else {
                (Err(ErrV::UnknownExpression(nvs_flat(ch))), env)
            }
        },
    }
}

#[via_fn]
proof fn eval_node_dec(n: NodeV, env: EnvV, fuel: nat) {
    match n {
        NodeV::Tkn(_) => {},
        NodeV::Exp(ch) => {
            if ch.len() > 0 {
                lemma_nvs_size_elem(ch, 0);
            }
            if ch.len() == 2 {
                lemma_nvs_size_elem(ch, 0);
                lemma_nvs_size_elem(ch, 1);
                lemma_nv_size_pos(ch[0]);
                lemma_nv_size_pos(ch[1]);
                assert(nvs_size(ch) == nv_size(ch[0]) + nvs_size(ch.drop_first()));
                assert(ch.drop_first()[0] == ch[1]);
                assert(ch.drop_first().drop_first() =~= Seq::<NodeV>::empty());
                assert(nvs_size(Seq::<NodeV>::empty()) == 0);
                assert(nvs_size(ch.drop_first()) == nv_size(ch[1]));
                match ch[1] {
                    NodeV::Exp(sub) => {
                        lemma_split_commas_size(sub);
                    },
                    NodeV::Tkn(_) => {},
                }
            }
            if ch.len() == 3 {
                lemma_nvs_size_elem(ch, 0);
                lemma_nvs_size_elem(ch, 2);
            }
        },
    }
}

/// Builds a bracket literal: commas and the closing marker are skipped, a
/// semicolon starts a new row, and every other child must evaluate to a
/// scalar, appended to the column at the running index.
pub open spec fn eval_literal(
    ch: Seq<NodeV>,
    i: int,
    cols: Seq<Seq<RatV>>,
    col: int,
    env: EnvV,
    fuel: nat,
) -> (Result<ValueV, ErrV>, EnvV)
    decreases fuel, 1 + nvs_size(ch), 0int, ch.len() - i,
    via eval_literal_dec
{
    if i < 0 || i >= ch.len() {
        if !(forall|j: int| 0 <= j < cols.len() ==> #[trigger] cols[j].len() == cols[0].len()) {
            (Err(ErrV::MatrixUnequalRowLengths), env)
        } else if cols.len() == 0 {
            (Ok(ValueV::Vector(Seq::<RatV>::empty())), env)
        } else if cols.len() == 1 {
            (Ok(ValueV::Vector(cols[0])), env)
        } else {
            (Ok(ValueV::Matrix(cols)), env)
        }
    } else {
        let nd = ch[i];
        if nv_is_str(nd, ","@) || nv_is_str(nd, "]"@) {
            eval_literal(ch, i + 1, cols, col, env, fuel)
        } else if nv_is_str(nd, ";"@) {
            eval_literal(ch, i + 1, cols, 0, env, fuel)
        } else {
            match eval_node(nd, env, fuel) {
                (Err(e), e2) => (Err(e), e2),
                (Ok(v), e2) => match v {
                    ValueV::Number(r) => {
                        let cols2 = if 0 <= col < cols.len() {
                            cols.update(col, cols[col].push(r))
                        } else {
                            cols.push(seq![r])
                        };
                        eval_literal(ch, i + 1, cols2, col + 1, e2, fuel)
                    },
                    ValueV::Vector(_) => (Err(ErrV::InvalidVectorContents("vector"@)), e2),
                    ValueV::Matrix(_) => (Err(ErrV::InvalidVectorContents("matrix"@)), e2),
                },
            }
        }
    }
}

#[via_fn]
proof fn eval_literal_dec(
    ch: Seq<NodeV>,
    i: int,
    cols: Seq<Seq<RatV>>,
    col: int,
    env: EnvV,
    fuel: nat,
) {
    if 0 <= i < ch.len() {
        lemma_nvs_size_elem(ch, i);
    }
}

/// Evaluates argument pieces left to right, each as a grouped
/// sub-expression of its own.
pub open spec fn eval_args(pieces: Seq<Seq<NodeV>>, i: int, env: EnvV, fuel: nat) -> (Result<
    Seq<ValueV>,
    ErrV,
>, EnvV)
    decreases fuel, 2 + pieces_size(pieces), 0int, pieces.len() - i,
    via eval_args_dec
{
    if i < 0 || i >= pieces.len() {
        (Ok(Seq::<ValueV>::empty()), env)
    } else {
        match eval_node(NodeV::Exp(pieces[i]), env, fuel) {
            (Err(e), e2) => (Err(e), e2),
            (Ok(v), e2) => match eval_args(pieces, i + 1, e2, fuel) {
                (Err(e), e3) => (Err(e), e3),
                (Ok(rest), e3) => (Ok(seq![v] + rest), e3),
            },
        }
    }
}

#[via_fn]
proof fn eval_args_dec(pieces: Seq<Seq<NodeV>>, i: int, env: EnvV, fuel: nat) {
    if 0 <= i < pieces.len() {
        lemma_pieces_size_elem(pieces, i);
    }
}

/// What evaluating a tree against an environment yields, at the standard
/// call-depth budget.
pub open spec fn spec_execute_expression_tree(n: NodeV, env: EnvV) -> (Result<ValueV, ErrV>, EnvV) {
    eval_node(n, env, RECURSION_LIMIT as nat)
}

/// The shape of an evaluation outcome.
pub open spec fn res_of(r: Result<MathType, ExecutionError>) -> Result<ValueV, ErrV> {
    match r {
        Ok(v) => Ok(v@),
        Err(e) => Err(e@),
    }
}

/// The shapes of a value list.
pub open spec fn vals_view(s: Seq<MathType>) -> Seq<ValueV> {
    s.map_values(|m: MathType| m@)
}

/// Every value of a list is well formed.
pub open spec fn vals_wf(s: Seq<ValueV>) -> bool {
    forall|i: int| 0 <= i < s.len() ==> value_wf(#[trigger] s[i])
}

/// The shapes of a list of argument pieces.
pub open spec fn pieces_view(p: Seq<Vec<Node>>) -> Seq<Seq<NodeV>> {
    p.map_values(|vv: Vec<Node>| nodes_view(vv@))
}

/// A looked-up value of a well-formed variable list is well formed.
proof fn lemma_vars_lookup_wf(vars: Seq<(Seq<char>, ValueV)>, name: Seq<char>)
    requires
        forall|i: int| 0 <= i < vars.len() ==> value_wf(#[trigger] vars[i].1),
        vars_lookup(vars, name) is Some,
    ensures
        value_wf(vars_lookup(vars, name).unwrap()),
    decreases vars.len(),
{
    if vars.len() > 0 && vars[0].0 != name {
        assert(forall|i: int|
            0 <= i < vars.drop_first().len() ==> value_wf(
                #[trigger] vars.drop_first()[i].1,
            ));
        lemma_vars_lookup_wf(vars.drop_first(), name);
    }
}

/// Inserting a well-formed value keeps a variable list well formed.
proof fn lemma_vars_insert_wf(vars: Seq<(Seq<char>, ValueV)>, name: Seq<char>, val: ValueV)
    requires
        forall|i: int| 0 <= i < vars.len() ==> value_wf(#[trigger] vars[i].1),
        value_wf(val),
    ensures
        forall|i: int|
            0 <= i < vars_insert(vars, name, val).len() ==> value_wf(
                #[trigger] vars_insert(vars, name, val)[i].1,
            ),
    decreases vars.len(),
{
    let res = vars_insert(vars, name, val);
    if vars.len() == 0 {
        assert forall|i: int| 0 <= i < res.len() implies value_wf(res[i].1) by {
            assert(res[i] == (name, val));
        }
    } else if vars[0].0 == name {
        assert forall|i: int| 0 <= i < res.len() implies value_wf(res[i].1) by {
            if i == 0 {
                assert(res[0] == (name, val));
            } else {
                assert(res[i] == vars.drop_first()[i - 1]);
                assert(vars.drop_first()[i - 1] == vars[i]);
                assert(value_wf(vars[i].1));
            }
        }
    } else {
        assert(forall|i: int|
            0 <= i < vars.drop_first().len() ==> value_wf(
                #[trigger] vars.drop_first()[i].1,
            ));
        lemma_vars_insert_wf(vars.drop_first(), name, val);
        let inner = vars_insert(vars.drop_first(), name, val);
        assert forall|i: int| 0 <= i < res.len() implies value_wf(res[i].1) by {
            if i == 0 {
                assert(res[0] == vars[0]);
                assert(value_wf(vars[0].1));
            } else {
                assert(res[i] == inner[i - 1]);
            }
        }
    }
}

/// A deep copy of a node list.
fn duplicate_nodes(v: &Vec<Node>) -> (r: Vec<Node>)
    ensures
        nodes_view(r@) == nodes_view(v@),
{
    let mut out: Vec<Node> = Vec::new();
    let mut i: usize = 0;
    while i < v.len()
        invariant
            i <= v@.len(),
            out@.len() == i,
            forall|j: int| 0 <= j < i ==> node_view(out@[j]) == node_view(v@[j]),
        decreases v@.len() - i,
    {
        let d = v[i].duplicate();
        out.push(d);
        i += 1;
    }
    proof {
        lemma_nodes_view(out@);
        lemma_nodes_view(v@);
        assert(nodes_view(out@) =~= nodes_view(v@));
    }
    out
}

/// Splits an argument list on its top-level commas.
#[verifier::loop_isolation(false)]
fn split_args(sub: &Vec<Node>) -> (r: Vec<Vec<Node>>)
    ensures
        pieces_view(r@) == split_commas(nodes_view(sub@)),
{
    let ghost v = nodes_view(sub@);
    proof {
        lemma_nodes_view(sub@);
    }
    let mut acc: Vec<Vec<Node>> = Vec::new();
    let mut cur: Vec<Node> = Vec::new();
    let mut i: usize = 0;
    proof {
        assert(pieces_view(acc@) =~= Seq::<Seq<NodeV>>::empty());
        assert(nodes_view(cur@) =~= Seq::<NodeV>::empty());
    }
    while i < sub.len()
        invariant
            i <= sub@.len(),
            split_rec(v, i as int, nodes_view(cur@), pieces_view(acc@)) == split_commas(v),
        decreases sub@.len() - i,
    {
        let ghost acc0 = pieces_view(acc@);
        let ghost cur0 = nodes_view(cur@);
        if sub[i].is_str(",") {
            acc.push(cur);
            cur = Vec::new();
            proof {
                assert(pieces_view(acc@) =~= acc0.push(cur0));
                assert(nodes_view(cur@) =~= Seq::<NodeV>::empty());
            }
        } else {
            let ghost curs = cur@;
            cur.push(sub[i].duplicate());
            proof {
                crate::tree_builder::lemma_nodes_view_unsnoc(cur@);
                assert(cur@.drop_last() =~= curs);
                assert(nodes_view(cur@) == cur0.push(v[i as int]));
            }
        }
        i += 1;
    }
    let ghost accf = pieces_view(acc@);
    let ghost curf = nodes_view(cur@);
    acc.push(cur);
    proof {
        assert(pieces_view(acc@) =~= accf.push(curf));
    }
    acc
}

/// The declared parameter names of a function definition.
#[verifier::loop_isolation(false)]
fn get_param_names(params: &Node) -> (r: Vec<String>)
    ensures
        crate::tokens::tokens_view(r@) == param_names(node_view(*params)),
{
    match params {
        Node::Tkn(t) => {
            let mut out: Vec<String> = Vec::new();
            out.push(t.clone());
            proof {
                assert(crate::tokens::tokens_view(out@) =~= seq![t@]);
            }
            out
        },
        Node::Exp(sub) => {
            let ghost v = nodes_view(sub@);
            proof {
                lemma_nodes_view(sub@);
                assert(node_view(*params) == NodeV::Exp(v));
            }
            let mut out: Vec<String> = Vec::new();
            let mut i: usize = 0;
            proof {
                assert(crate::tokens::tokens_view(out@) =~= Seq::<Seq<char>>::empty());
            }
            while i < sub.len()
                invariant
                    i <= sub@.len(),
                    param_names_rec(v, i as int, crate::tokens::tokens_view(out@))
                        == param_names_rec(v, 0, Seq::<Seq<char>>::empty()),
                decreases sub@.len() - i,
            {
                let ghost out0 = crate::tokens::tokens_view(out@);
                match &sub[i] {
                    Node::Exp(_) => {},
                    Node::Tkn(t) => {
                        if !str_eq(t.as_str(), ",") {
                            out.push(t.clone());
                            proof {
                                assert(crate::tokens::tokens_view(out@) =~= out0.push(t@));
                            }
                        }
                    },
                }
                i += 1;
            }
            out
        },
    }
}

/// Binds parameter names to argument values in order, inside this
/// environment.
#[verifier::loop_isolation(false)]
fn bind_arguments(env: &mut Environment, names: &Vec<String>, args: Vec<MathType>)
    requires
        names@.len() == args@.len(),
        env_wf(old(env)@),
        vals_wf(vals_view(args@)),
    ensures
        final(env)@.vars == bind_params(
            old(env)@.vars,
            crate::tokens::tokens_view(names@),
            vals_view(args@),
            0,
        ),
        final(env)@.funs == old(env)@.funs,
        final(env).trig_mode == old(env).trig_mode,
        final(env).digit_cap == old(env).digit_cap,
        env_wf(final(env)@),
{
    let ghost namesv = crate::tokens::tokens_view(names@);
    let ghost argsv = vals_view(args@);
    let mut rest = args;
    let mut i: usize = 0;
    while i < names.len()
        invariant
            i <= names@.len(),
            rest@.len() == names@.len() - i,
            forall|j: int| 0 <= j < rest@.len() ==> rest@[j]@ == argsv[j + i],
            bind_params(env@.vars, namesv, argsv, i as int) == bind_params(
                old(env)@.vars,
                namesv,
                argsv,
                0,
            ),
            env@.funs == old(env)@.funs,
            env.trig_mode == old(env).trig_mode,
            env.digit_cap == old(env).digit_cap,
            env_wf(env@),
        decreases names@.len() - i,
    {
        let ghost vars0 = env@.vars;
        let a = rest.remove(0);
        proof {
            assert(a@ == argsv[i as int]);
            assert(vals_wf(argsv));
            assert(value_wf(argsv[i as int]));
            lemma_vars_insert_wf(vars0, namesv[i as int], a@);
        }
        env.insert_var(names[i].clone(), a);
        i += 1;
    }
}

/// Evaluates an expression tree against the environment, spending one unit
/// of call-depth budget on each user-function application.
#[verifier::rlimit(100)]
fn eval(node: &Node, env: &mut Environment, fuel: u64) -> (r: Result<MathType, ExecutionError>)
    requires
        env_wf(old(env)@),
    ensures
        ({
            let sp = eval_node(node_view(*node), old(env)@, fuel as nat);
            &&& res_of(r) == sp.0
            &&& final(env)@ == sp.1
            &&& env_wf(final(env)@)
            &&& match r {
                Ok(v) => value_wf(v@),
                Err(_) => true,
            }
        }),
    decreases fuel, nv_size(node_view(*node)), 1int, 0int,
{
    match node {
        Node::Tkn(t) => {
            match parse_number(t.as_str()) {
                Some(x) => Ok(MathType::Number(x)),
                None => {
                    match env.lookup_var(t) {
                        Some(v) => {
                            proof {
                                lemma_vars_lookup_wf(env@.vars, t@);
                            }
                            Ok(v)
                        },
                        None => Err(ExecutionError::UnknownIdentifier(t.clone())),
                    }
                },
            }
        },
        Node::Exp(subnodes) => {
            let ghost ch = nodes_view(subnodes@);
            proof {
                lemma_nodes_view(subnodes@);
                assert(node_view(*node) == NodeV::Exp(ch));
            }
            if subnodes.len() > 0 && subnodes[0].is_str("[") {
                proof {
                    assert(nvs_size(ch) < nv_size(node_view(*node)));
                }
                let empty_cols: Vec<Vec<Number>> = Vec::new();
                proof {
                    assert(cols_view(empty_cols@) =~= Seq::<Seq<RatV>>::empty());
                }
                eval_literal_exec(subnodes, 1, empty_cols, 1, env, fuel)
            } else if subnodes.len() == 0 {
                Ok(MathType::Number(Number { num: 0, den: 1 }))
            } else if subnodes.len() == 1 {
                proof {
                    lemma_nvs_size_elem(ch, 0);
                }
                eval(&subnodes[0], env, fuel)
            } else if subnodes.len() == 2 {
                proof {
                    lemma_nvs_size_elem(ch, 0);
                    lemma_nvs_size_elem(ch, 1);
                    lemma_nv_size_pos(ch[0]);
                    lemma_nv_size_pos(ch[1]);
                    assert(nvs_size(ch) == nv_size(ch[0]) + nvs_size(ch.drop_first()));
                    assert(ch.drop_first()[0] == ch[1]);
                    assert(ch.drop_first().drop_first() =~= Seq::<NodeV>::empty());
                    assert(nvs_size(Seq::<NodeV>::empty()) == 0);
                    assert(nvs_size(ch.drop_first()) == nv_size(ch[1]));
                }
                if subnodes[0].is_unary_operator() {
                    let v = match eval(&subnodes[1], env, fuel) {
                        Ok(v) => v,
                        Err(e) => {
                            return Err(e);
                        },
                    };
                    match v.operate("*", MathType::Number(Number { num: -1, den: 1 })) {
                        Ok(res) => Ok(res),
                        Err(e) => Err(e),
                    }
                } else {
                    match &subnodes[0] {
                        Node::Tkn(name) => {
                            let mut call_env = env.snapshot();
                            let argres: Result<Vec<MathType>, ExecutionError> = match &subnodes[1] {
                                Node::Tkn(_) => {
                                    match eval(&subnodes[1], &mut call_env, fuel) {
                                        Ok(v) => {
                                            let mut single: Vec<MathType> = Vec::new();
                                            single.push(v);
                                            proof {
                                                assert(vals_view(single@) =~= seq![
                                                    single@[0]@,
                                                ]);
                                            }
                                            Ok(single)
                                        },
                                        Err(e) => Err(e),
                                    }
                                },
                                Node::Exp(sub) => {
                                    let pieces = split_args(sub);
                                    proof {
                                        assert(ch[1] == NodeV::Exp(nodes_view(sub@)));
                                        lemma_split_commas_size(nodes_view(sub@));
                                    }
                                    eval_args_exec(&pieces, 0, &mut call_env, fuel)
                                },
                            };
                            let args = match argres {
                                Ok(a) => a,
                                Err(e) => {
                                    return Err(e);
                                },
                            };
                            let ghost e2 = call_env@;
                            let ghost argsv = vals_view(args@);
                            match env.lookup_function(name) {
                                Some(def) => {
                                    let names = get_param_names(&def.0);
                                    let ghost namesv = crate::tokens::tokens_view(names@);
                                    proof {
                                        assert(namesv.len() == names@.len());
                                        assert(argsv.len() == args@.len());
                                    }
                                    if names.len() != args.len() {
                                        return Err(
                                            ExecutionError::WrongNumFunctionArgs(
                                                names.len(),
                                                args.len(),
                                            ),
                                        );
                                    }
                                    if fuel == 0 {
                                        return Err(ExecutionError::RecursionLimitExceeded);
                                    }
                                    bind_arguments(&mut call_env, &names, args);
                                    proof {
                                        assert(call_env@ == EnvV {
                                            vars: bind_params(e2.vars, namesv, argsv, 0),
                                            funs: e2.funs,
                                            trig_mode: e2.trig_mode,
                                            digit_cap: e2.digit_cap,
                                        });
                                    }
                                    match eval(&def.1, &mut call_env, fuel - 1) {
                                        Ok(v) => Ok(v),
                                        Err(e) => Err(e),
                                    }
                                },
                                None => Err(ExecutionError::UnknownIdentifier(name.clone())),
                            }
                        },
                        Node::Exp(_) => Err(
                            ExecutionError::UnknownExpression(node.flat_string()),
                        ),
                    }
                }
            } else if subnodes.len() == 3 {
                proof {
                    lemma_nvs_size_elem(ch, 0);
                    lemma_nvs_size_elem(ch, 1);
                    lemma_nvs_size_elem(ch, 2);
                }
                let assign = match &subnodes[1] {
                    Node::Tkn(t) => {
                        if str_eq(t.as_str(), "=") || str_eq(t.as_str(), "=>") {
                            Some(str_eq(t.as_str(), "=>"))
                        } else {
                            None
                        }
                    },
                    Node::Exp(_) => None,
                };
                match assign {
                    Some(reversed) => {
                        let name_idx: usize = if reversed {
                            2
                        } else {
                            0
                        };
                        let val_idx: usize = if reversed {
                            0
                        } else {
                            2
                        };
                        proof {
                            reveal_strlit("=");
                            reveal_strlit("=>");
                        }
                        match &subnodes[name_idx] {
                            Node::Exp(_) => Err(
                                ExecutionError::InvalidOperation(
                                    String::from_str("invalid variable name"),
                                ),
                            ),
                            Node::Tkn(name) => {
                                let nm = name.clone();
                                let v = match eval(&subnodes[val_idx], env, fuel) {
                                    Ok(v) => v,
                                    Err(e) => {
                                        return Err(e);
                                    },
                                };
                                let stored = v.dup();
                                proof {
                                    lemma_vars_insert_wf(env@.vars, nm@, stored@);
                                }
                                env.insert_var(nm, stored);
                                Ok(v)
                            },
                        }
                    },
                    None => {
                        match &subnodes[1] {
                            Node::Tkn(opstr) => {
                                let lv = match eval(&subnodes[0], env, fuel) {
                                    Ok(v) => v,
                                    Err(e) => {
                                        return Err(e);
                                    },
                                };
                                let rv = match eval(&subnodes[2], env, fuel) {
                                    Ok(v) => v,
                                    Err(e) => {
                                        return Err(e);
                                    },
                                };
                                match lv.operate(opstr.as_str(), rv) {
                                    Ok(res) => Ok(res),
                                    Err(e) => Err(e),
                                }
                            },
                            Node::Exp(_) => Err(
                                ExecutionError::UnknownExpression(node.flat_string()),
                            ),
                        }
                    },
                }
            } else {
                Err(ExecutionError::UnknownExpression(node.flat_string()))
            }
        },
    }
}

/// Builds a bracket literal from the children after the opening marker.
fn eval_literal_exec(
    ch: &Vec<Node>,
    i: usize,
    cols: Vec<Vec<Number>>,
    col: usize,
    env: &mut Environment,
    fuel: u64,
) -> (r: Result<MathType, ExecutionError>)
    requires
        env_wf(old(env)@),
        i <= ch@.len(),
        col <= i,
        forall|j: int| 0 <= j < cols@.len() ==> rats_wf(#[trigger] cols_view(cols@)[j]),
    ensures
        ({
            let sp = eval_literal(
                nodes_view(ch@),
                i as int,
                cols_view(cols@),
                col as int,
                old(env)@,
                fuel as nat,
            );
            &&& res_of(r) == sp.0
            &&& final(env)@ == sp.1
            &&& env_wf(final(env)@)
            &&& match r {
                Ok(v) => value_wf(v@),
                Err(_) => true,
            }
        }),
    decreases fuel, 1 + nvs_size(nodes_view(ch@)), 0int, ch@.len() - i,
{
    let ghost chv = nodes_view(ch@);
    proof {
        lemma_nodes_view(ch@);
    }
    if i >= ch.len() {
        let height: usize = if cols.len() > 0 {
            cols[0].len()
        } else {
            0
        };
        let mut equal = true;
        let mut j: usize = 0;
        while j < cols.len()
            invariant
                j <= cols@.len(),
                cols@.len() > 0 ==> height == cols@[0]@.len(),
                equal ==> (forall|k: int|
                    0 <= k < j ==> #[trigger] cols_view(cols@)[k].len() == height),
                !equal ==> !(forall|k: int|
                    0 <= k < cols_view(cols@).len() ==> #[trigger] cols_view(cols@)[k].len()
                        == cols_view(cols@)[0].len()),
            decreases cols@.len() - j,
        {
            if cols[j].len() != height {
                proof {
                    assert(cols_view(cols@)[j as int].len() != cols_view(cols@)[0].len());
                }
                equal = false;
            }
            j += 1;
        }
        if !equal {
            return Err(ExecutionError::MatrixUnequalRowLengths);
        }
        proof {
            assert(forall|k: int|
                0 <= k < cols_view(cols@).len() ==> #[trigger] cols_view(cols@)[k].len()
                    == cols_view(cols@)[0].len());
        }
        if cols.len() == 0 {
            proof {
                assert(rats_view(Seq::<Number>::empty()) =~= Seq::<RatV>::empty());
            }
            return Ok(MathType::Vector(Vec::new()));
        }
        let mut c = cols;
        if c.len() == 1 {
            let first = c.remove(0);
            return Ok(MathType::Vector(first));
        }
        return Ok(MathType::Matrix(c));
    }
    let nd = &ch[i];
    if nd.is_str(",") || nd.is_str("]") {
        return eval_literal_exec(ch, i + 1, cols, col, env, fuel);
    }
    if nd.is_str(";") {
        return eval_literal_exec(ch, i + 1, cols, 0, env, fuel);
    }
    proof {
        lemma_nvs_size_elem(chv, i as int);
    }
    let v = match eval(nd, env, fuel) {
        Ok(v) => v,
        Err(e) => {
            return Err(e);
        },
    };
    match v {
        MathType::Number(x) => {
            let ghost cols0 = cols_view(cols@);
            let mut c = cols;
            let ghost colsq = c@;
            if col < c.len() {
                let mut column = c.remove(col);
                column.push(x);
                let ghost newcol = column@;
                c.insert(col, column);
                proof {
                    let target = cols0.update(col as int, cols0[col as int].push(x@));
                    assert(c@.len() == colsq.len());
                    assert forall|k: int| 0 <= k < c@.len() implies cols_view(c@)[k]
                        == target[k] by {
                        if k < col {
                            assert(c@[k] == colsq.remove(col as int)[k]);
                            assert(colsq.remove(col as int)[k] == colsq[k]);
                        } else if k == col {
                            assert(c@[k]@ == newcol);
                        } else {
                            assert(c@[k] == colsq.remove(col as int)[k - 1]);
                            assert(colsq.remove(col as int)[k - 1] == colsq[k]);
                        }
                    }
                    assert(cols_view(c@) =~= target);
                }
            } else {
                let mut column: Vec<Number> = Vec::new();
                column.push(x);
                c.push(column);
                proof {
                    assert(rats_view(c@.last()@) =~= seq![x@]);
                    assert(cols_view(c@) =~= cols0.push(seq![x@]));
                }
            }
            eval_literal_exec(ch, i + 1, c, col + 1, env, fuel)
        },
        MathType::Vector(_) => Err(
            ExecutionError::InvalidVectorContents(String::from_str("vector")),
        ),
        MathType::Matrix(_) => Err(
            ExecutionError::InvalidVectorContents(String::from_str("matrix")),
        ),
    }
}

/// Evaluates argument pieces left to right.
fn eval_args_exec(
    pieces: &Vec<Vec<Node>>,
    i: usize,
    env: &mut Environment,
    fuel: u64,
) -> (r: Result<Vec<MathType>, ExecutionError>)
    requires
        env_wf(old(env)@),
        i <= pieces@.len(),
    ensures
        ({
            let sp = eval_args(pieces_view(pieces@), i as int, old(env)@, fuel as nat);
            &&& (match r {
                Ok(vs) => sp.0 == Ok::<Seq<ValueV>, ErrV>(vals_view(vs@)) && vals_wf(
                    vals_view(vs@),
                ),
                Err(e) => sp.0 == Err::<Seq<ValueV>, ErrV>(e@),
            })
            &&& final(env)@ == sp.1
            &&& env_wf(final(env)@)
        }),
    decreases fuel, 2 + pieces_size(pieces_view(pieces@)), 0int, pieces@.len() - i,
{
    if i >= pieces.len() {
        proof {
            assert(vals_view(Seq::<MathType>::empty()) =~= Seq::<ValueV>::empty());
        }
        return Ok(Vec::new());
    }
    proof {
        lemma_pieces_size_elem(pieces_view(pieces@), i as int);
    }
    let piece = duplicate_nodes(&pieces[i]);
    let pnode = Node::Exp(piece);
    proof {
        assert(node_view(pnode) == NodeV::Exp(pieces_view(pieces@)[i as int]));
    }
    let v = match eval(&pnode, env, fuel) {
        Ok(v) => v,
        Err(e) => {
            return Err(e);
        },
    };
    let rest = match eval_args_exec(pieces, i + 1, env, fuel) {
        Ok(rest) => rest,
        Err(e) => {
            return Err(e);
        },
    };
    let ghost rest0 = vals_view(rest@);
    let mut out = rest;
    out.insert(0, v);
    proof {
        assert(vals_view(out@) =~= seq![out@[0]@] + rest0);
    }
    Ok(out)
}

/// Evaluates a finished expression tree against the environment: literals,
/// variables, unary minus, function application, assignment and the
/// arithmetic table, with a fixed call-depth budget.
pub fn execute_expression_tree(root_node: &Node, environment: &mut Environment) -> (r: Result<
    MathType,
    ExecutionError,
>)
    requires
        env_wf(old(environment)@),
    ensures
        ({
            let sp = spec_execute_expression_tree(node_view(*root_node), old(environment)@);
            &&& res_of(r) == sp.0
            &&& final(environment)@ == sp.1
            &&& env_wf(final(environment)@)
            &&& match r {
                Ok(v) => value_wf(v@),
                Err(_) => true,
            }
        }),
{
    eval(root_node, environment, RECURSION_LIMIT)
}

} // verus!
