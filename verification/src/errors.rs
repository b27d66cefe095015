//! Failures of a transfer and of a task.

use vstd::prelude::*;

use crate::text::{dec_string, decimal, joined};

verus! {

/// Failure of an HTTP transfer.
#[derive(Debug)]
pub enum HttpError {
    /// The caller cancelled the transfer.
    Cancelled,
    /// The server answered with a failure status.
    Http(u16),
    /// The answer broke the protocol.
    Protocol(String),
    /// The body is not a playlist.
    NotPlaylist,
    /// Local storage failed.
    Io(String),
    /// The body ended before the requested range did.
    ShortRead,
    /// The server does not serve ranges.
    NotSplittable(String),
    /// The server did not answer in time.
    Timeout,
    /// No connection could be made.
    Connect(String),
}

impl Clone for HttpError {
    fn clone(&self) -> (r: Self)
        ensures
            r == *self,
    {
        match self {
            HttpError::Cancelled => HttpError::Cancelled,
            HttpError::Http(code) => HttpError::Http(*code),
            HttpError::Protocol(m) => HttpError::Protocol(m.clone()),
            HttpError::NotPlaylist => HttpError::NotPlaylist,
            HttpError::Io(m) => HttpError::Io(m.clone()),
            HttpError::ShortRead => HttpError::ShortRead,
            HttpError::NotSplittable(m) => HttpError::NotSplittable(m.clone()),
            HttpError::Timeout => HttpError::Timeout,
            HttpError::Connect(m) => HttpError::Connect(m.clone()),
        }
    }
}

impl HttpError {
    /// The code that clients see: 0 no failure, 2 time out, 3 not found, 5 network, 1
    /// anything else.
    pub open spec fn code(&self) -> i64 {
        match self {
            HttpError::Cancelled => 0,
            HttpError::Timeout => 2,
            HttpError::Http(status) => if *status == 404 { 3 } else { 5 },
            HttpError::Io(_) => 1,
            _ => 5,
        }
    }

    /// The code that clients see.
    pub fn error_code(&self) -> (r: i64)
        ensures
            r == self.code(),
    {
        match self {
            HttpError::Cancelled => 0,
            HttpError::Timeout => 2,
            HttpError::Http(status) => if *status == 404 { 3 } else { 5 },
            HttpError::Io(_) => 1,
            _ => 5,
        }
    }

    /// What users are told.
    pub open spec fn words(&self) -> Seq<char> {
        match self {
            HttpError::Cancelled => "下载已取消"@,
            HttpError::Http(status) => "HTTP "@ + decimal(*status as nat),
            HttpError::Protocol(m) => m@,
            HttpError::NotPlaylist => "内容不是 M3U8 播放列表"@,
            HttpError::Io(m) => "IO 错误: "@ + m@,
            HttpError::ShortRead => "响应提前结束"@,
            HttpError::NotSplittable(m) => "服务器不支持分段: "@ + m@,
            HttpError::Timeout => "请求超时"@,
            HttpError::Connect(m) => "连接失败: "@ + m@,
        }
    }

    /// What users are told.
    pub fn message(&self) -> (r: String)
        ensures
            r@ == self.words(),
    {
        match self {
            HttpError::Cancelled => "下载已取消".to_owned(),
            HttpError::Http(status) => joined("HTTP ", dec_string(*status as u64).as_str()),
            HttpError::Protocol(m) => m.clone(),
            HttpError::NotPlaylist => "内容不是 M3U8 播放列表".to_owned(),
            HttpError::Io(m) => joined("IO 错误: ", m.as_str()),
            HttpError::ShortRead => "响应提前结束".to_owned(),
            HttpError::NotSplittable(m) => joined("服务器不支持分段: ", m.as_str()),
            HttpError::Timeout => "请求超时".to_owned(),
            HttpError::Connect(m) => joined("连接失败: ", m.as_str()),
        }
    }
}

/// Failure of a task.
#[derive(Debug)]
pub enum TaskFailure {
    Http(HttpError),
    /// The file does not match its checksum.
    Checksum(String),
    /// A BitTorrent download failed.
    Bt(String),
    /// The user cancelled the task.
    Cancelled,
}

impl TaskFailure {
    /// The code that clients see.
    pub open spec fn code(&self) -> i64 {
        match self {
            TaskFailure::Http(e) => e.code(),
            TaskFailure::Checksum(_) => 9,
            TaskFailure::Bt(_) => 1,
            TaskFailure::Cancelled => 0,
        }
    }

    /// Whether the user stopped the task.
    pub open spec fn by_user(&self) -> bool {
        match self {
            TaskFailure::Http(e) => e is Cancelled,
            TaskFailure::Cancelled => true,
            _ => false,
        }
    }

    /// What is said of the failure. `http` is the transfer layer's wording of an HTTP
    /// failure.
    pub open spec fn words(&self, http: Seq<char>) -> Seq<char> {
        match self {
            TaskFailure::Http(_) => http,
            TaskFailure::Checksum(m) => m@,
            TaskFailure::Bt(m) => m@,
            TaskFailure::Cancelled => "已取消"@,
        }
    }

    /// Whether the same address is worth another try: the connection broke, timed out,
    /// or the server failed.
    pub open spec fn transient(&self) -> bool {
        match self {
            TaskFailure::Http(e) => match e {
                HttpError::Timeout => true,
                HttpError::Connect(_) => true,
                HttpError::Protocol(_) => true,
                HttpError::ShortRead => true,
                HttpError::Http(status) => *status >= 500,
                _ => false,
            },
            _ => false,
        }
    }

    /// The code that clients see: 0 no failure, 2 time out, 3 not found, 5 network, 9
    /// checksum, 1 anything else.
    pub fn error_code(&self) -> (r: i64)
        ensures
            r == self.code(),
    {
        match self {
            TaskFailure::Http(e) => e.error_code(),
            TaskFailure::Checksum(_) => 9,
            TaskFailure::Bt(_) => 1,
            TaskFailure::Cancelled => 0,
        }
    }

    /// Whether the user stopped the task.
    pub fn is_cancelled(&self) -> (r: bool)
        ensures
            r == self.by_user(),
    {
        match self {
            TaskFailure::Http(e) => match e {
                HttpError::Cancelled => true,
                _ => false,
            },
            TaskFailure::Cancelled => true,
            _ => false,
        }
    }

    /// What is said of the failure. `http` is the transfer layer's wording of an HTTP
    /// failure.
    pub fn message(&self, http: &str) -> (r: String)
        ensures
            r@ == self.words(http@),
    {
        match self {
            TaskFailure::Http(_) => http.to_owned(),
            TaskFailure::Checksum(m) => m.clone(),
            TaskFailure::Bt(m) => m.clone(),
            TaskFailure::Cancelled => "已取消".to_owned(),
        }
    }
}

/// Whether the same address is worth another try.
pub fn is_transient_failure(f: &TaskFailure) -> (r: bool)
    ensures
        r == f.transient(),
{
    match f {
        TaskFailure::Http(e) => match e {
            HttpError::Timeout => true,
            HttpError::Connect(_) => true,
            HttpError::Protocol(_) => true,
            HttpError::ShortRead => true,
            HttpError::Http(status) => *status >= 500,
            _ => false,
        },
        _ => false,
    }
}

/// A failure that the user caused is never tried again, and shows no error code.
pub proof fn law_cancelled_is_no_error(f: TaskFailure)
    requires
        f.by_user(),
    ensures
        !f.transient(),
        f.code() == 0,
{
}

/// The codes that clients know: one for a page that is not there, one for a server or a
/// connection that failed, one for a time out, one for a file that could not be written,
/// one for a file that does not match its checksum. Only a download that the user stopped
/// has none.
pub proof fn law_codes_tell_failures_apart(f: TaskFailure)
    ensures
        f.code() == 0 <==> match f {
            TaskFailure::Cancelled => true,
            TaskFailure::Http(e) => e is Cancelled,
            _ => false,
        },
        f.code() == 3 <==> match f {
            TaskFailure::Http(HttpError::Http(s)) => s == 404,
            _ => false,
        },
        f.code() == 2 <==> match f {
            TaskFailure::Http(e) => e is Timeout,
            _ => false,
        },
        f.code() == 9 <==> f is Checksum,
        f.code() == 1 <==> f is Bt || match f {
            TaskFailure::Http(e) => e is Io,
            _ => false,
        },
        f.code() == 0 || f.code() == 1 || f.code() == 2 || f.code() == 3 || f.code() == 5 || f.code()
            == 9,
{
}

/// Another try is worth it where the connection or the server failed, and not where the
/// request itself was refused or the disk failed.
pub proof fn law_another_try_is_worth_it(f: TaskFailure)
    ensures
        f.transient() <==> match f {
            TaskFailure::Http(HttpError::Http(s)) => s >= 500,
            TaskFailure::Http(e) => e is Timeout || e is Connect || e is Protocol || e is ShortRead,
            _ => false,
        },
        f.by_user() ==> !f.transient(),
{
}

} // verus!
