//! The errors that the search core reports.

use vstd::prelude::*;
use vstd::string::StringExecFns;

verus! {

/// What can go wrong while a request is set up or a file is read.
#[derive(Debug, Clone)]
pub enum LogSearchError {
    /// A configuration value is not acceptable.
    ConfigError(String),
    /// A path could not be looked up.
    FileAccessError { path: String, reason: String },
    /// A regular expression did not compile.
    RegexError { pattern: String, reason: String },
    /// Bytes could not be decoded as text.
    EncodingError { path: String, reason: String },
    /// A timestamp could not be read.
    TimeParseError { input: String },
    /// A search ran out of time.
    TimeoutError,
    /// The request itself is malformed.
    InvalidRequest(String),
    /// A read from the file system failed.
    Io(String),
}

/// `head`, then `a`, then `mid`, then `b`.
pub open spec fn spec_joined(head: Seq<char>, a: Seq<char>, mid: Seq<char>, b: Seq<char>) -> Seq<
    char,
> {
    head + a + mid + b
}

fn joined(head: &str, a: &str, mid: &str, b: &str) -> (r: String)
    ensures
        r@ == spec_joined(head@, a@, mid@, b@),
{
    let mut out = String::from_str(head);
    out.append(a);
    out.append(mid);
    out.append(b);
    out
}

impl LogSearchError {
    /// The text of the error, as it is shown to a caller.
    pub open spec fn spec_message(self) -> Seq<char> {
        match self {
            LogSearchError::ConfigError(m) => "配置错误: "@ + m@,
            LogSearchError::FileAccessError { path, reason } => spec_joined(
                "文件访问错误: "@,
                path@,
                " - "@,
                reason@,
            ),
            LogSearchError::RegexError { pattern, reason } => spec_joined(
                "正则表达式错误: "@,
                pattern@,
                " - "@,
                reason@,
            ),
            LogSearchError::EncodingError { path, reason } => spec_joined(
                "编码检测失败: "@,
                path@,
                " - "@,
                reason@,
            ),
            LogSearchError::TimeParseError { input } => "时间解析错误: "@ + input@,
            LogSearchError::TimeoutError => "搜索超时"@,
            LogSearchError::InvalidRequest(m) => "无效请求: "@ + m@,
            LogSearchError::Io(m) => m@,
        }
    }

    /// Renders the error as text.
    pub fn message(&self) -> (r: String)
        ensures
            r@ == self.spec_message(),
    {
        match self {
            LogSearchError::ConfigError(m) => {
                let mut out = String::from_str("配置错误: ");
                out.append(m.as_str());
                out
            },
            LogSearchError::FileAccessError { path, reason } => joined(
                "文件访问错误: ",
                path.as_str(),
                " - ",
                reason.as_str(),
            ),
            LogSearchError::RegexError { pattern, reason } => joined(
                "正则表达式错误: ",
                pattern.as_str(),
                " - ",
                reason.as_str(),
            ),
            LogSearchError::EncodingError { path, reason } => joined(
                "编码检测失败: ",
                path.as_str(),
                " - ",
                reason.as_str(),
            ),
            LogSearchError::TimeParseError { input } => {
                let mut out = String::from_str("时间解析错误: ");
                out.append(input.as_str());
                out
            },
            LogSearchError::TimeoutError => String::from_str("搜索超时"),
            LogSearchError::InvalidRequest(m) => {
                let mut out = String::from_str("无效请求: ");
                out.append(m.as_str());
                out
            },
            LogSearchError::Io(m) => m.clone(),
        }
    }
}

} // verus!
