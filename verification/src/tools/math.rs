//! The `calculate` tool: one expression in, one exact decimal out.

use vstd::prelude::*;
use crate::cells::{CoreError, ErrSpec};
use crate::dec::{decimal_display, normalize_pair};
use crate::json::{Json, obj_insert};
use crate::mathexpr::{eval, eval_spec, no_names, expr_err_message};
use crate::text::{concat, concat3};
use crate::workspace::json_is_str;

verus! {

fn lit(s: &str) -> (r: String)
    ensures
        r@ == s@,
{
    s.to_owned()
}

/// What `calculate` answers.
pub open spec fn calculate_post(args: Json, r: Result<(Json, String), CoreError>) -> bool {
    &&& (match args.get_spec("expression"@) {
        Some(Json::Str(e)) => match eval_spec(e@, no_names()) {
            Ok(v) => r matches Ok((j, s)) && {
                let out = decimal_display(normalize_pair(v));
                &&& j.get_spec("expression"@) matches Some(x) && json_is_str(x, e@)
                &&& j.get_spec("result"@) matches Some(x) && json_is_str(x, out)
                &&& s@ == "calculate "@ + e@ + " = "@ + out
            },
            Err(x) => r matches Err(err) && err.spec() == ErrSpec::Expr(expr_err_message(x)),
        },
        _ => r matches Err(err) && err.spec() == ErrSpec::BadArg("'expression' is required"@),
    })
}

/// Evaluates the `expression` argument exactly; answers the expression and its
/// normalized value.
pub fn calculate(args: &Json) -> (r: Result<(Json, String), CoreError>)
    ensures
        calculate_post(*args, r),
{
    let expr = match args.get("expression") {
        Some(v) => match v.as_str() {
            Some(s) => s,
            None => {
                return Err(CoreError::BadArg(lit("'expression' is required")));
            },
        },
        None => {
            return Err(CoreError::BadArg(lit("'expression' is required")));
        },
    };
    let v = match eval(expr.as_str()) {
        Ok(v) => v,
        Err(e) => {
            return Err(e);
        },
    };
    let out = v.normalize().to_text();
    proof {
        reveal_strlit("expression");
        reveal_strlit("result");
        assert("expression"@[0] != "result"@[0]);
    }
    let mut obj: Vec<(String, Json)> = Vec::new();
    obj_insert(&mut obj, lit("expression"), Json::Str(lit(expr.as_str())));
    obj_insert(&mut obj, lit("result"), Json::Str(lit(out.as_str())));
    let s = concat3("calculate ", expr.as_str(), " = ");
    let summary = concat(s.as_str(), out.as_str());
    Ok((Json::Object(obj), summary))
}

} // verus!
