//! The arithmetic bridge: decodes a math request into one of four operations
//! on two `i64` operands, and frames the answer once the native operation has
//! computed it. A zero divisor is refused here, before the native divide.
use vstd::prelude::*;
use crate::text::{chars_eq, dec_int, push_decimal_i64, to_chars, chars_to_string};
use crate::json::{decode_math, parse_json_math};
use crate::http::{json_response, serve_json};

verus! {

/// The four native operations.
#[derive(PartialEq, Eq, Structural, Clone, Copy, Debug)]
pub enum MathOp {
    Add,
    Sub,
    Mul,
    Div,
}

/// The operation an operator token names.
pub open spec fn op_of(token: Seq<char>) -> Option<MathOp> {
    if token == seq!['+'] {
        Some(MathOp::Add)
    } else if token == seq!['-'] {
        Some(MathOp::Sub)
    } else if token == seq!['*'] {
        Some(MathOp::Mul)
    } else if token == seq!['/'] {
        Some(MathOp::Div)
    } else {
        None
    }
}

/// The operator symbol of an operation.
pub open spec fn symbol_of(op: MathOp) -> char {
    match op {
        MathOp::Add => '+',
        MathOp::Sub => '-',
        MathOp::Mul => '*',
        MathOp::Div => '/',
    }
}

/// A decoded math request, ready for the native operation.
#[derive(PartialEq, Eq, Structural, Clone, Copy, Debug)]
pub struct MathCall {
    pub op: MathOp,
    pub arg1: i64,
    pub arg2: i64,
}

/// The operation that a math body asks for: `None` where the body is
/// malformed, the operator is not one of `+ - * /`, or it divides by zero.
pub open spec fn math_call_of(body: Seq<char>) -> Option<MathCall> {
    match decode_math(body) {
        Some((token, a, b)) => match op_of(token) {
            Some(op) => if op == MathOp::Div && b == 0 {
                None
            } else {
                Some(MathCall { op, arg1: a, arg2: b })
            },
            None => None,
        },
        None => None,
    }
}

/// A malformed math body is refused: one not enclosed in braces, with a
/// pair lacking a colon, with an operand missing or not an `i64`, with an
/// operator other than `+ - * /`, or dividing by zero.
pub proof fn lemma_malformed_math_refused(body: Seq<char>)
    requires
        decode_math(body) is None || op_of(decode_math(body)->Some_0.0) is None || (op_of(
            decode_math(body)->Some_0.0,
        ) == Some(MathOp::Div) && decode_math(body)->Some_0.2 == 0),
    ensures
        math_call_of(body) is None,
{
}

/// Decodes the body of `POST /math`. `None` stands for the 400 response.
pub fn post_math(body: &str) -> (r: Option<MathCall>)
    ensures
        r == math_call_of(body@),
{
    let (token, a, b) = match parse_json_math(body) {
        Some(m) => m,
        None => return None,
    };
    let t = to_chars(token.as_str());
    let plus: Vec<char> = vec!['+'];
    let minus: Vec<char> = vec!['-'];
    let times: Vec<char> = vec!['*'];
    let slash: Vec<char> = vec!['/'];
    proof {
        assert(plus@ =~= seq!['+']);
        assert(minus@ =~= seq!['-']);
        assert(times@ =~= seq!['*']);
        assert(slash@ =~= seq!['/']);
    }
    let op = if chars_eq(&t, &plus) {
        MathOp::Add
    } else if chars_eq(&t, &minus) {
        MathOp::Sub
    } else if chars_eq(&t, &times) {
        MathOp::Mul
    } else if chars_eq(&t, &slash) {
        MathOp::Div
    } else {
        proof {
            assert(op_of(t@) is None);
        }
        return None;
    };
    if op == MathOp::Div && b == 0 {
        return None;
    }
    Some(MathCall { op, arg1: a, arg2: b })
}

/// The body of a math answer:
/// `{"result":<r>,"expression":"<a> <op> <b> = <r>"}`.
pub open spec fn math_body(call: MathCall, result: i64) -> Seq<char> {
    "{\"result\":"@ + dec_int(result as int) + ",\"expression\":\""@ + dec_int(call.arg1 as int)
        + seq![' ', symbol_of(call.op), ' '] + dec_int(call.arg2 as int) + " = "@ + dec_int(
        result as int,
    ) + "\"}"@
}

/// The 200 response for `call`, given the native operation's `result`.
pub fn math_response(call: &MathCall, result: i64) -> (r: String)
    ensures
        r@ == json_response(math_body(*call, result)),
{
    let mut v: Vec<char> = Vec::new();
    push_decimal_i64(&mut v, call.arg1);
    v.push(' ');
    v.push(
        match call.op {
            MathOp::Add => '+',
            MathOp::Sub => '-',
            MathOp::Mul => '*',
            MathOp::Div => '/',
        },
    );
    v.push(' ');
    push_decimal_i64(&mut v, call.arg2);
    let mut rv: Vec<char> = Vec::new();
    push_decimal_i64(&mut rv, result);
    let rs = chars_to_string(&rv);
    let mut body = String::from_str("{\"result\":");
    body.append(rs.as_str());
    body.append(",\"expression\":\"");
    body.append(chars_to_string(&v).as_str());
    body.append(" = ");
    body.append(rs.as_str());
    body.append("\"}");
    proof {
        assert(body@ =~= math_body(*call, result));
    }
    serve_json(body.as_str())
}

} // verus!
