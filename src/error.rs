//! Errors of the library, with their user-facing text and classification.

use vstd::prelude::*;
use crate::text::{has_substring, contains_text};

verus! {

/// What went wrong, with the detail text of each kind.
#[derive(Debug, Clone, PartialEq, Eq)]
pub enum AppError {
    Config(String),
    ConfigWatch(String),
    Connection(String),
    Pool(String),
    Query(String),
    DatabaseNotConnected,
    DataProcessing(String),
    Validation(String),
    NotFound(String),
    Io(String),
    Json(String),
    TomlParse(String),
    TomlSerialize(String),
    Internal(String),
}

/// The user-facing text of an error: a label for its kind, then its detail.
pub open spec fn error_text(e: AppError) -> Seq<char> {
    match e {
        AppError::Config(m) => "配置错误: "@ + m@,
        AppError::ConfigWatch(m) => "配置文件监听错误: "@ + m@,
        AppError::Connection(m) => "数据库连接错误: "@ + m@,
        AppError::Pool(m) => "连接池错误: "@ + m@,
        AppError::Query(m) => "查询执行错误: "@ + m@,
        AppError::DatabaseNotConnected => "数据库未连接"@,
        AppError::DataProcessing(m) => "数据处理错误: "@ + m@,
        AppError::Validation(m) => "验证错误: "@ + m@,
        AppError::NotFound(m) => "未找到: "@ + m@,
        AppError::Io(m) => "IO 错误: "@ + m@,
        AppError::Json(m) => "JSON 序列化错误: "@ + m@,
        AppError::TomlParse(m) => "TOML 解析错误: "@ + m@,
        AppError::TomlSerialize(m) => "TOML 序列化错误: "@ + m@,
        AppError::Internal(m) => "内部错误: "@ + m@,
    }
}

/// The connection-failure text for a driver message, with a hint for the
/// failures that users can fix.
pub open spec fn connection_hint_text(err: Seq<char>, database: Seq<char>) -> Seq<char> {
    if has_substring(err, "4060"@) {
        "数据库 '"@ + database + "' 不存在或无访问权限。请检查数据库名称是否正确。原始错误: "@ + err
    } else if has_substring(err, "18456"@) {
        "用户名或密码错误。原始错误: "@ + err
    } else if has_substring(err, "Login failed"@) {
        "登录失败，请检查用户名和密码。原始错误: "@ + err
    } else {
        "SQL Server 连接失败: "@ + err
    }
}

fn labelled(label: &str, detail: &String) -> (r: String)
    ensures
        r@ == label@ + detail@,
{
    let mut s = String::from_str(label);
    s.append(detail.as_str());
    s
}

impl AppError {
    /// Classifies a connection failure by the driver's message.
    pub fn connection_with_hint(err: &str, database: &str) -> (r: Self)
        ensures
            r matches AppError::Connection(m) && m@ == connection_hint_text(err@, database@),
    {
        let mut s: String;
        if contains_text(err, "4060") {
            s = String::from_str("数据库 '");
            s.append(database);
            s.append("' 不存在或无访问权限。请检查数据库名称是否正确。原始错误: ");
        } else if contains_text(err, "18456") {
            s = String::from_str("用户名或密码错误。原始错误: ");
        } else if contains_text(err, "Login failed") {
            s = String::from_str("登录失败，请检查用户名和密码。原始错误: ");
        } else {
            s = String::from_str("SQL Server 连接失败: ");
        }
        s.append(err);
        AppError::Connection(s)
    }

    /// Connection and pool failures may pass when tried again.
    pub fn is_retryable(&self) -> (r: bool)
        ensures
            r == (self is Connection || self is Pool),
    {
        match self {
            AppError::Connection(_) | AppError::Pool(_) => true,
            _ => false,
        }
    }

    /// Errors whose text is meant for the user.
    pub fn is_user_facing(&self) -> (r: bool)
        ensures
            r == (self is Config || self is Connection || self is Validation || self is NotFound),
    {
        match self {
            AppError::Config(_) | AppError::Connection(_) | AppError::Validation(_) | AppError::NotFound(_) => true,
            _ => false,
        }
    }

    /// The user-facing text.
    pub fn message(&self) -> (r: String)
        ensures
            r@ == error_text(*self),
    {
        match self {
            AppError::Config(m) => labelled("配置错误: ", m),
            AppError::ConfigWatch(m) => labelled("配置文件监听错误: ", m),
            AppError::Connection(m) => labelled("数据库连接错误: ", m),
            AppError::Pool(m) => labelled("连接池错误: ", m),
            AppError::Query(m) => labelled("查询执行错误: ", m),
            AppError::DatabaseNotConnected => String::from_str("数据库未连接"),
            AppError::DataProcessing(m) => labelled("数据处理错误: ", m),
            AppError::Validation(m) => labelled("验证错误: ", m),
            AppError::NotFound(m) => labelled("未找到: ", m),
            AppError::Io(m) => labelled("IO 错误: ", m),
            AppError::Json(m) => labelled("JSON 序列化错误: ", m),
            AppError::TomlParse(m) => labelled("TOML 解析错误: ", m),
            AppError::TomlSerialize(m) => labelled("TOML 序列化错误: ", m),
            AppError::Internal(m) => labelled("内部错误: ", m),
        }
    }
}

} // verus!
