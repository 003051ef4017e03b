//! Mode one: quantile analysis of stocks ranked by a factor value.
use vstd::prelude::*;

use crate::args::UntArg;

pub mod emotion;
pub mod manager;
pub mod momentum;
pub mod risk;
pub mod technical;

verus! {

pub const BASIC_DERIVED: &'static str = "基础科目及衍生类因子";
pub const QUALITY: &'static str = "质量类因子";
pub const PER_SHARE: &'static str = "每股指标因子";
pub const STYLE_RISK: &'static str = "风险因子";
pub const EMOTION: &'static str = "情绪类因子";
pub const GROWTH: &'static str = "成长类因子";
pub const RISK: &'static str = "风险类因子";
pub const TECHNICAL: &'static str = "技术指标因子";
pub const MOMENTUM: &'static str = "动量类因子";

#[verifier::external_type_specification]
#[verifier::external_body]
pub struct ExValidationError(validator::ValidationError);

/// The code of a `validator` error.
pub uninterp spec fn validation_code(e: validator::ValidationError) -> Seq<char>;

/// The message of a `validator` error, when it has one.
pub uninterp spec fn validation_message(e: validator::ValidationError) -> Option<Seq<char>>;

/// Calls `validator::ValidationError::new`, which sets the error code to
/// `code` and leaves the message empty; the contract says so over the names
/// `validation_code` and `validation_message`.
#[verifier::external_body]
pub(crate) fn validation_error(code: &'static str) -> (r: validator::ValidationError)
    ensures
        validation_code(r) == code@,
        validation_message(r) is None,
{
    validator::ValidationError::new(code)
}

/// Calls `validator::ValidationError::with_message`, which sets the message
/// and keeps the code.
#[verifier::external_body]
pub(crate) fn with_message(error: validator::ValidationError, message: &'static str) -> (r: validator::ValidationError)
    ensures
        validation_code(r) == validation_code(error),
        validation_message(r) == Some(message@),
{
    error.with_message(message.into())
}

/// A broken rule on request parameters: the error code and its message.
#[derive(Debug, Clone, Copy)]
pub struct RuleError {
    /// Machine-readable code of the rule.
    pub code: &'static str,
    /// Message shown to the caller.
    pub message: &'static str,
}

/// The `validator` error carrying the code and message of a broken rule.
pub fn validation_error_of(error: RuleError) -> (r: validator::ValidationError)
    ensures
        validation_code(r) == error.code@,
        validation_message(r) == Some(error.message@),
{
    with_message(validation_error(error.code), error.message)
}

/// A period argument is valid when it spans at least two trading days;
/// otherwise the error has code `period_min`.
pub fn validate_period(period: &UntArg) -> (r: Result<(), RuleError>)
    ensures
        r is Ok <==> period.value >= 2,
        r matches Err(e) ==> e.code@ == "period_min"@ && e.message@ == "周期必须大于等于 2"@,
{
    if period.value >= 2 {
        Ok(())
    } else {
        Err(RuleError { code: "period_min", message: "周期必须大于等于 2" })
    }
}

} // verus!
