//! The application-level error type of the surrounding tooling.

use vstd::prelude::*;

use vstd::string::StringExecFns;

verus! {

/// An application error: either free-form or tied to a network response
/// code.
#[derive(Debug)]
pub enum AppError {
    Custom { message: String },
    Network { code: u16, message: String },
}

impl AppError {
    /// A network error with its response code.
    pub fn network_error(code: u16, message: &str) -> (e: AppError)
        ensures
            e matches AppError::Network { code: c, message: m } && c == code && m@ == message@,
    {
        AppError::Network { code, message: message.to_owned() }
    }

    /// A free-form error.
    pub fn custom_error(message: &str) -> (e: AppError)
        ensures
            e matches AppError::Custom { message: m } && m@ == message@,
    {
        AppError::Custom { message: message.to_owned() }
    }

    /// Human-readable form of the error.
    pub fn describe(&self) -> (r: String)
        ensures
            self matches AppError::Custom { message: m } ==> r@ == "自定义错误: "@ + m@,
            self matches AppError::Network { code: c, message: m } ==> r@ == "网络错误 "@
                + crate::text::dec_digits(c as nat) + ": "@ + m@,
    {
        match self {
            AppError::Custom { message } => "自定义错误: ".to_owned().concat(message.as_str()),
            AppError::Network { code, message } => {
                let num = crate::text::dec_string(*code as u64);
                "网络错误 ".to_owned().concat(num.as_str()).concat(": ").concat(message.as_str())
            },
        }
    }
}

} // verus!
