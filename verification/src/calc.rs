//! The calculators: which operation a calculator input names, how the WebAssembly
//! calculator's one-line expression splits into operands and operator, and its replies.
//! The floating-point arithmetic itself is done by the caller.
use vstd::prelude::*;
use crate::text;
use crate::json::{self, JsonValue};

verus! {

/// Adds, subtracts, multiplies or divides two numbers.
pub struct ChumpCalculator;

/// An arithmetic operation.
pub enum CalcOp {
    Add,
    Subtract,
    Multiply,
    Divide,
}

/// The operation a (trimmed, lower-cased) operation name stands for.
pub open spec fn calc_op(op: Seq<char>) -> Option<CalcOp> {
    if op == "add"@ || op == "addition"@ {
        Some(CalcOp::Add)
    } else if op == "subtract"@ || op == "subtraction"@ {
        Some(CalcOp::Subtract)
    } else if op == "multiply"@ || op == "multiplication"@ {
        Some(CalcOp::Multiply)
    } else if op == "divide"@ || op == "division"@ {
        Some(CalcOp::Divide)
    } else {
        None
    }
}

impl ChumpCalculator {
    /// The operation name of an input, trimmed and lower-cased.
    pub fn op_name(input: &JsonValue) -> (r: Result<String, String>)
        ensures
            match json::str_field(*input, "operation"@) {
                Some(o) => r matches Ok(x) && x@ == text::lowercase(text::trim(o)),
                None => r matches Err(e) && e@ == "missing operation"@,
            },
    {
        match input.str_field("operation") {
            Some(o) => Ok(text::string_of(&text::lowercase_vec(&text::trim_str(o.as_str())))),
            None => Err(String::from_str("missing operation")),
        }
    }

    /// The operation named, or `unknown operation: {op}`.
    pub fn operation(op: &str) -> (r: Result<CalcOp, String>)
        ensures
            match calc_op(op@) {
                Some(c) => r == Ok::<CalcOp, String>(c),
                None => r matches Err(e) && e@ == "unknown operation: "@ + op@,
            },
    {
        let v = text::chars_of(op);
        if text::is_lit(&v, "add") || text::is_lit(&v, "addition") {
            Ok(CalcOp::Add)
        } else if text::is_lit(&v, "subtract") || text::is_lit(&v, "subtraction") {
            Ok(CalcOp::Subtract)
        } else if text::is_lit(&v, "multiply") || text::is_lit(&v, "multiplication") {
            Ok(CalcOp::Multiply)
        } else if text::is_lit(&v, "divide") || text::is_lit(&v, "division") {
            Ok(CalcOp::Divide)
        } else {
            let mut m = text::lit("unknown operation: ");
            text::push_str(&mut m, op);
            Err(text::string_of(&m))
        }
    }
}

/// Evaluates a one-line expression in a WebAssembly module run without host access.
pub struct WasmCalcTool;

/// The expression of an input, trimmed (empty when there is none).
pub open spec fn expression_of(input: JsonValue) -> Seq<char> {
    match json::str_field(input, "expression"@) {
        Some(e) => text::trim(e),
        None => Seq::empty(),
    }
}

impl WasmCalcTool {
    /// What the module reads on stdin: the expression and a newline; or the reply for a
    /// blank expression.
    pub fn stdin(input: &JsonValue) -> (r: Result<String, String>)
        ensures
            expression_of(*input).len() == 0 ==> (r matches Err(e) && e@ == "Error: empty expression"@),
            expression_of(*input).len() > 0 ==> (r matches Ok(s) && s@ == expression_of(*input) + seq!['\n']),
    {
        let e = match input.str_field("expression") {
            Some(e) => text::trim_str(e.as_str()),
            None => Vec::new(),
        };
        if e.len() == 0 {
            return Err(String::from_str("Error: empty expression"));
        }
        let mut v = e;
        v.push('\n');
        Ok(text::string_of(&v))
    }

    /// The reply when the module is missing.
    pub fn module_missing() -> (r: String)
        ensures
            r@ == "Error: calculator.wasm not found. Build it from wasm/calc-wasm (see docs/WASM_TOOLS.md)."@,
    {
        String::from_str("Error: calculator.wasm not found. Build it from wasm/calc-wasm (see docs/WASM_TOOLS.md).")
    }

    /// The reply made of the module's output: its trimmed stdout, or its stderr when
    /// stdout is blank and stderr is not empty.
    pub fn reply(stdout: &str, stderr: &str) -> (r: String)
        ensures
            r@ == if text::trim(stdout@).len() == 0 && stderr@.len() > 0 {
                "stderr: "@ + text::trim(stderr@)
            } else {
                text::trim(stdout@)
            },
    {
        let out = text::trim_str(stdout);
        if out.len() == 0 && !stderr.is_empty() {
            let mut m = text::lit("stderr: ");
            text::push_vec(&mut m, &text::trim_str(stderr));
            text::string_of(&m)
        } else {
            text::string_of(&out)
        }
    }
}

/// Why an expression does not split into two operands and an operator.
pub enum ExprError {
    Empty,
    MultipleOps,
    /// A character that is neither part of a number, an operator, nor whitespace.
    BadChar(char),
    NoOperator,
}

pub open spec fn is_op(c: char) -> bool {
    c == '+' || c == '-' || c == '*' || c == '/'
}

/// Characters that go into the number being read: digits, `.`, and `-` at its start.
pub open spec fn takes(cur: Seq<char>, c: char) -> bool {
    ('0' <= c <= '9') || c == '.' || (c == '-' && cur.len() == 0)
}

/// The state after reading `s`: the first operand and operator once seen, and the text
/// of the number being read; or the error.
pub open spec fn expr_scan(s: Seq<char>) -> Result<(Option<(Seq<char>, char)>, Seq<char>), ExprError>
    decreases s.len(),
{
    if s.len() == 0 {
        Ok((None, Seq::empty()))
    } else {
        match expr_scan(s.drop_last()) {
            Err(e) => Err(e),
            Ok((first, cur)) => {
                let c = s.last();
                if takes(cur, c) {
                    Ok((first, cur.push(c)))
                } else if is_op(c) {
                    if first is Some {
                        Err(ExprError::MultipleOps)
                    } else {
                        Ok((Some((cur, c)), Seq::empty()))
                    }
                } else if !text::is_ws(c) {
                    Err(ExprError::BadChar(c))
                } else {
                    Ok((first, cur))
                }
            },
        }
    }
}

/// The operand texts and the operator of a trimmed expression line (each operand is then
/// read as a float, 0 when it is not one).
pub open spec fn split_expression_spec(s: Seq<char>) -> Result<(Seq<char>, char, Seq<char>), ExprError> {
    let t = text::trim(s);
    if t.len() == 0 {
        Err(ExprError::Empty)
    } else {
        match expr_scan(t) {
            Err(e) => Err(e),
            Ok((None, _)) => Err(ExprError::NoOperator),
            Ok((Some((a, op)), b)) => Ok((a, op, b)),
        }
    }
}

/// Every character of `s` is an ASCII digit or a decimal point.
pub open spec fn number_text(s: Seq<char>) -> bool {
    forall|i: int| 0 <= i < s.len() ==> ('0' <= #[trigger] s[i] <= '9' || s[i] == '.')
}

/// An operand as written: a digit, a decimal point or a minus sign, then digits and
/// decimal points.
pub open spec fn operand(s: Seq<char>) -> bool {
    &&& s.len() > 0
    &&& ('0' <= s[0] <= '9' || s[0] == '.' || s[0] == '-')
    &&& number_text(s.skip(1))
}

pub open spec fn is_operator(c: char) -> bool {
    c == '+' || c == '-' || c == '*' || c == '/'
}

proof fn lemma_scan_number(
    p: Seq<char>,
    d: Seq<char>,
    first: Option<(Seq<char>, char)>,
    cur: Seq<char>,
)
    requires
        expr_scan(p) == Ok::<(Option<(Seq<char>, char)>, Seq<char>), ExprError>((first, cur)),
        cur.len() > 0,
        number_text(d),
    ensures
        expr_scan(p + d) == Ok::<(Option<(Seq<char>, char)>, Seq<char>), ExprError>((first, cur + d)),
    decreases d.len(),
{
    if d.len() == 0 {
        assert(p + d =~= p);
        assert(cur + d =~= cur);
    } else {
        lemma_scan_number(p, d.drop_last(), first, cur);
        assert((p + d).drop_last() =~= p + d.drop_last());
        assert((p + d).last() == d.last());
        assert(number_text(d) ==> ('0' <= d[d.len() - 1] <= '9' || d[d.len() - 1] == '.'));
        assert((cur + d.drop_last()).push(d.last()) =~= cur + d);
    }
}

proof fn lemma_scan_operand(p: Seq<char>, a: Seq<char>, first: Option<(Seq<char>, char)>)
    requires
        expr_scan(p) == Ok::<(Option<(Seq<char>, char)>, Seq<char>), ExprError>((first, Seq::empty())),
        operand(a),
    ensures
        expr_scan(p + a) == Ok::<(Option<(Seq<char>, char)>, Seq<char>), ExprError>((first, a)),
{
    let q = p.push(a[0]);
    assert(q.drop_last() =~= p);
    assert(expr_scan(q) == Ok::<(Option<(Seq<char>, char)>, Seq<char>), ExprError>(
        (first, seq![a[0]]),
    )) by {
        assert(Seq::<char>::empty().push(a[0]) =~= seq![a[0]]);
    }
    lemma_scan_number(q, a.skip(1), first, seq![a[0]]);
    assert(q + a.skip(1) =~= p + a);
    assert(seq![a[0]] + a.skip(1) =~= a);
}

/// Every character of `w` is whitespace.
pub open spec fn all_ws(w: Seq<char>) -> bool {
    forall|i: int| 0 <= i < w.len() ==> text::is_ws(#[trigger] w[i])
}

proof fn lemma_scan_ws(p: Seq<char>, w: Seq<char>, st: (Option<(Seq<char>, char)>, Seq<char>))
    requires
        expr_scan(p) == Ok::<(Option<(Seq<char>, char)>, Seq<char>), ExprError>(st),
        all_ws(w),
    ensures
        expr_scan(p + w) == Ok::<(Option<(Seq<char>, char)>, Seq<char>), ExprError>(st),
    decreases w.len(),
{
    if w.len() == 0 {
        assert(p + w =~= p);
    } else {
        lemma_scan_ws(p, w.drop_last(), st);
        assert((p + w).drop_last() =~= p + w.drop_last());
        assert((p + w).last() == w.last());
        assert(text::is_ws(w[w.len() - 1]));
    }
}

/// After an operand, an operator starts the second operand.
proof fn lemma_scan_operator(p: Seq<char>, a: Seq<char>, op: char)
    requires
        expr_scan(p) == Ok::<(Option<(Seq<char>, char)>, Seq<char>), ExprError>((None, a)),
        a.len() > 0,
        is_operator(op),
    ensures
        expr_scan(p.push(op)) == Ok::<(Option<(Seq<char>, char)>, Seq<char>), ExprError>(
            (Some((a, op)), Seq::empty()),
        ),
{
    assert(p.push(op).drop_last() =~= p);
}

/// Once the scan fails it fails the same way whatever follows.
proof fn lemma_scan_err_extends(p: Seq<char>, q: Seq<char>, e: ExprError)
    requires
        expr_scan(p) == Err::<(Option<(Seq<char>, char)>, Seq<char>), ExprError>(e),
    ensures
        expr_scan(p + q) == Err::<(Option<(Seq<char>, char)>, Seq<char>), ExprError>(e),
{
    assert((p + q).take(p.len() as int) =~= p);
    lemma_scan_err_stays(p + q, p.len() as int, e);
}

/// A line that starts and ends with characters other than whitespace is read as it is.
proof fn lemma_trim_keeps(s: Seq<char>)
    requires
        s.len() > 0,
        !text::is_ws(s[0]),
        !text::is_ws(s.last()),
    ensures
        text::trim(s) == s,
{
    assert(text::trim_start(s) == s);
    assert(text::trim_end(s) == s);
}

/// The four operations are read: for any two operands (digits and decimal points, each
/// with an optional leading minus) with any of `+`, `-`, `*` and `/` between them and any
/// whitespace around the operator, the line splits into the first operand, the operator
/// and the second operand.
pub proof fn lemma_binary_expressions_split(a: Seq<char>, w1: Seq<char>, op: char, w2: Seq<char>, b: Seq<char>)
    requires
        operand(a),
        operand(b),
        all_ws(w1),
        all_ws(w2),
        op == '+' || op == '-' || op == '*' || op == '/',
    ensures
        split_expression_spec((a + w1).push(op) + w2 + b) == Ok::<(Seq<char>, char, Seq<char>), ExprError>(
            (a, op, b),
        ),
{
    let s = (a + w1).push(op) + w2 + b;
    assert(expr_scan(Seq::<char>::empty()) == Ok::<(Option<(Seq<char>, char)>, Seq<char>), ExprError>(
        (None, Seq::empty()),
    ));
    lemma_scan_operand(Seq::<char>::empty(), a, None);
    assert(Seq::<char>::empty() + a =~= a);
    lemma_scan_ws(a, w1, (None, a));
    lemma_scan_operator(a + w1, a, op);
    lemma_scan_ws((a + w1).push(op), w2, (Some((a, op)), Seq::<char>::empty()));
    lemma_scan_operand((a + w1).push(op) + w2, b, Some((a, op)));
    assert(s[0] == a[0]);
    assert(s.last() == b.last());
    assert(b.last() == b.skip(1)[b.len() - 2] || b.len() == 1);
    lemma_trim_keeps(s);
}

/// A line with one operand and no operator is refused as having none.
pub proof fn lemma_no_operator(a: Seq<char>)
    requires
        operand(a),
    ensures
        split_expression_spec(a) == Err::<(Seq<char>, char, Seq<char>), ExprError>(ExprError::NoOperator),
{
    assert(expr_scan(Seq::<char>::empty()) == Ok::<(Option<(Seq<char>, char)>, Seq<char>), ExprError>(
        (None, Seq::empty()),
    ));
    lemma_scan_operand(Seq::<char>::empty(), a, None);
    assert(Seq::<char>::empty() + a =~= a);
    assert(a.last() == a.skip(1)[a.len() - 2] || a.len() == 1);
    lemma_trim_keeps(a);
}

/// Only one operation per line: two operators between three operands are refused,
/// whatever follows.
pub proof fn lemma_multiple_operators(a: Seq<char>, op1: char, b: Seq<char>, op2: char, rest: Seq<char>)
    requires
        operand(a),
        operand(b),
        is_operator(op1),
        is_operator(op2),
        rest.len() > 0,
        !text::is_ws(rest.last()),
    ensures
        split_expression_spec(a.push(op1) + b.push(op2) + rest) == Err::<(Seq<char>, char, Seq<char>), ExprError>(
            ExprError::MultipleOps,
        ),
{
    let s = a.push(op1) + b.push(op2) + rest;
    assert(expr_scan(Seq::<char>::empty()) == Ok::<(Option<(Seq<char>, char)>, Seq<char>), ExprError>(
        (None, Seq::empty()),
    ));
    lemma_scan_operand(Seq::<char>::empty(), a, None);
    assert(Seq::<char>::empty() + a =~= a);
    lemma_scan_operator(a, a, op1);
    lemma_scan_operand(a.push(op1), b, Some((a, op1)));
    let p = a.push(op1) + b;
    assert(p.push(op2).drop_last() =~= p);
    assert(expr_scan(p.push(op2)) == Err::<(Option<(Seq<char>, char)>, Seq<char>), ExprError>(
        ExprError::MultipleOps,
    ));
    lemma_scan_err_extends(p.push(op2), rest, ExprError::MultipleOps);
    assert(p.push(op2) + rest =~= s);
    assert(s[0] == a[0]);
    assert(s.last() == rest.last());
    lemma_trim_keeps(s);
}

/// A line that starts with anything but a number, a sign, an operator or whitespace is
/// refused on that character.
pub proof fn lemma_bad_first_char(s: Seq<char>)
    requires
        s.len() > 0,
        !text::is_ws(s[0]),
        !('0' <= s[0] <= '9' || s[0] == '.' || is_operator(s[0])),
    ensures
        split_expression_spec(s) == Err::<(Seq<char>, char, Seq<char>), ExprError>(ExprError::BadChar(s[0])),
{
    lemma_trim_end_first(s);
    let t = text::trim(s);
    assert(text::trim_start(s) == s);
    assert(t.take(1) =~= Seq::<char>::empty().push(s[0]));
    assert(Seq::<char>::empty().push(s[0]).drop_last() =~= Seq::<char>::empty());
    assert(expr_scan(Seq::<char>::empty()) == Ok::<(Option<(Seq<char>, char)>, Seq<char>), ExprError>(
        (None, Seq::empty()),
    ));
    assert(expr_scan(t.take(1)) == Err::<(Option<(Seq<char>, char)>, Seq<char>), ExprError>(
        ExprError::BadChar(s[0]),
    ));
    lemma_scan_err_stays(t, 1, ExprError::BadChar(s[0]));
}

proof fn lemma_trim_end_first(s: Seq<char>)
    requires
        s.len() > 0,
        !text::is_ws(s[0]),
    ensures
        text::trim_end(s).len() > 0,
        text::trim_end(s)[0] == s[0],
    decreases s.len(),
{
    if text::is_ws(s.last()) {
        assert(s.len() > 1);
        assert(s.drop_last()[0] == s[0]);
        lemma_trim_end_first(s.drop_last());
    }
}

impl ExprError {
    pub fn message(&self) -> (r: Option<String>)
        ensures
            match self {
                ExprError::Empty => r matches Some(m) && m@ == "error: empty"@,
                ExprError::MultipleOps => r matches Some(m) && m@ == "error: multiple ops"@,
                ExprError::NoOperator => r matches Some(m) && m@ == "error: no operator"@,
                ExprError::BadChar(_) => r is None,
            },
    {
        match self {
            ExprError::Empty => Some(String::from_str("error: empty")),
            ExprError::MultipleOps => Some(String::from_str("error: multiple ops")),
            ExprError::NoOperator => Some(String::from_str("error: no operator")),
            ExprError::BadChar(_) => None,
        }
    }
}

/// Splits an expression line into the first operand, the operator and the second operand.
pub fn split_expression(s: &str) -> (r: Result<(String, char, String), ExprError>)
    ensures
        match split_expression_spec(s@) {
            Ok((a, op, b)) => r matches Ok((x, o, y)) && x@ == a && o == op && y@ == b,
            Err(e) => r matches Err(f) && f == e,
        },
{
    let t = text::trim_str(s);
    if t.len() == 0 {
        return Err(ExprError::Empty);
    }
    let mut first: Option<(Vec<char>, char)> = None;
    let mut cur: Vec<char> = Vec::new();
    let mut i: usize = 0;
    while i < t.len()
        invariant
            i <= t.len(),
            t@ == text::trim(s@),
            t@.len() > 0,
            expr_scan(t@.take(i as int)) == Ok::<(Option<(Seq<char>, char)>, Seq<char>), ExprError>(
                (
                    match first {
                        Some((a, o)) => Some((a@, o)),
                        None => None,
                    },
                    cur@,
                ),
            ),
        decreases t.len() - i,
    {
        let c = t[i];
        assert(t@.take(i + 1).drop_last() =~= t@.take(i as int));
        assert(t@.take(i + 1).last() == c);
        if ('0' <= c && c <= '9') || c == '.' || (c == '-' && cur.len() == 0) {
            cur.push(c);
        } else if c == '+' || c == '-' || c == '*' || c == '/' {
            if first.is_some() {
                proof {
                    lemma_scan_err_stays(t@, (i + 1) as int, ExprError::MultipleOps);
                }
                return Err(ExprError::MultipleOps);
            }
            let a = cur;
            cur = Vec::new();
            first = Some((a, c));
        } else if !text::is_ws_exec(c) {
            proof {
                lemma_scan_err_stays(t@, (i + 1) as int, ExprError::BadChar(c));
            }
            return Err(ExprError::BadChar(c));
        }
        i = i + 1;
    }
    assert(t@.take(t@.len() as int) =~= t@);
    match first {
        None => Err(ExprError::NoOperator),
        Some((a, o)) => Ok((text::string_of(&a), o, text::string_of(&cur))),
    }
}

/// Once the scan has failed, it fails the same way to the end.
proof fn lemma_scan_err_stays(s: Seq<char>, i: int, e: ExprError)
    requires
        0 <= i <= s.len(),
        expr_scan(s.take(i)) == Err::<(Option<(Seq<char>, char)>, Seq<char>), ExprError>(e),
    ensures
        expr_scan(s) == Err::<(Option<(Seq<char>, char)>, Seq<char>), ExprError>(e),
    decreases s.len() - i,
{
    if i < s.len() {
        assert(s.take(i + 1).drop_last() =~= s.take(i));
        lemma_scan_err_stays(s, i + 1, e);
    } else {
        assert(s.take(i) =~= s);
    }
}

} // verus!
