//! The library's error type and the text of each error.

use vstd::prelude::*;

use crate::text::{dec_string, dec_text};

verus! {

/// Errors of SPF parsing and resolution.
#[derive(Debug, Clone)]
pub enum SpfError {
    DnsQueryFailed { domain: String, message: String },
    NoSpfRecord(String),
    MultipleSpfRecords(String),
    DnsLookupLimitExceeded { count: u32, domain: String },
    CircularReference { chain: Vec<String> },
    MalformedSpf { domain: String, reason: String },
    InvalidIp(String),
    InvalidCidr(String),
    Other(String),
}

/// Result of a fallible SPF operation.
pub type SpfResult<T> = Result<T, SpfError>;

/// The mathematical content of an [`SpfError`].
pub enum ErrView {
    DnsQueryFailed { domain: Seq<char>, message: Seq<char> },
    NoSpfRecord(Seq<char>),
    MultipleSpfRecords(Seq<char>),
    DnsLookupLimitExceeded { count: u32, domain: Seq<char> },
    CircularReference { chain: Seq<Seq<char>> },
    MalformedSpf { domain: Seq<char>, reason: Seq<char> },
    InvalidIp(Seq<char>),
    InvalidCidr(Seq<char>),
    Other(Seq<char>),
}

/// Views of a sequence of strings.
pub open spec fn strings_view(v: Seq<String>) -> Seq<Seq<char>> {
    v.map_values(|s: String| s@)
}

impl View for SpfError {
    type V = ErrView;

    open spec fn view(&self) -> ErrView {
        match self {
            SpfError::DnsQueryFailed { domain, message } => ErrView::DnsQueryFailed {
                domain: domain@,
                message: message@,
            },
            SpfError::NoSpfRecord(d) => ErrView::NoSpfRecord(d@),
            SpfError::MultipleSpfRecords(d) => ErrView::MultipleSpfRecords(d@),
            SpfError::DnsLookupLimitExceeded { count, domain } => ErrView::DnsLookupLimitExceeded {
                count: *count,
                domain: domain@,
            },
            SpfError::CircularReference { chain } => ErrView::CircularReference {
                chain: strings_view(chain@),
            },
            SpfError::MalformedSpf { domain, reason } => ErrView::MalformedSpf {
                domain: domain@,
                reason: reason@,
            },
            SpfError::InvalidIp(s) => ErrView::InvalidIp(s@),
            SpfError::InvalidCidr(s) => ErrView::InvalidCidr(s@),
            SpfError::Other(s) => ErrView::Other(s@),
        }
    }
}

/// The strings of `list` joined by `sep`.
pub open spec fn join_text(list: Seq<Seq<char>>, sep: Seq<char>) -> Seq<char>
    decreases list.len(),
{
    if list.len() == 0 {
        Seq::empty()
    } else if list.len() == 1 {
        list[0]
    } else {
        join_text(list.drop_last(), sep) + sep + list.last()
    }
}

/// The message of an error.
pub open spec fn error_text(e: ErrView) -> Seq<char> {
    match e {
        ErrView::DnsQueryFailed { domain, message } => "DNS 查询失败 ("@ + domain + "): "@ + message,
        ErrView::NoSpfRecord(d) => "未找到 SPF 记录: "@ + d,
        ErrView::MultipleSpfRecords(d) => "域名 "@ + d + " 存在多条 SPF 记录（违反 RFC 7208 §4.5）"@,
        ErrView::DnsLookupLimitExceeded { count, domain } => "DNS 查询次数已达上限 ("@ + dec_text(
            count as nat,
        ) + "/10)，域名: "@ + domain,
        ErrView::CircularReference { chain } => "检测到循环引用: "@ + join_text(chain, " → "@),
        ErrView::MalformedSpf { domain, reason } => "SPF 记录格式错误 ("@ + domain + "): "@ + reason,
        ErrView::InvalidIp(s) => "无效的 IP 地址: "@ + s,
        ErrView::InvalidCidr(s) => "无效的 CIDR 表示: "@ + s,
        ErrView::Other(s) => s,
    }
}

/// The strings of `list` joined by `sep`.
pub fn join_strings(list: &Vec<String>, sep: &str) -> (r: String)
    ensures
        r@ == join_text(strings_view(list@), sep@),
{
    let mut r = String::new();
    let ghost views = strings_view(list@);
    let mut i: usize = 0;
    while i < list.len()
        invariant
            views == strings_view(list@),
            views.len() == list@.len(),
            i <= list.len(),
            r@ == join_text(views.take(i as int), sep@),
        decreases list.len() - i,
    {
        assert(views.take(i + 1).drop_last() =~= views.take(i as int));
        if i == 0 {
            assert(views.take(1) =~= seq![list@[0]@]);
        } else {
            r.append(sep);
        }
        r.append(list[i].as_str());
        i = i + 1;
    }
    assert(views.take(list.len() as int) =~= views);
    r
}

impl SpfError {
    /// The error's message, as its `Display` writes it.
    pub fn message(&self) -> (r: String)
        ensures
            r@ == error_text(self@),
    {
        match self {
            SpfError::DnsQueryFailed { domain, message } => {
                let mut r = String::from_str("DNS 查询失败 (");
                r.append(domain.as_str());
                r.append("): ");
                r.append(message.as_str());
                r
            },
            SpfError::NoSpfRecord(d) => {
                let mut r = String::from_str("未找到 SPF 记录: ");
                r.append(d.as_str());
                r
            },
            SpfError::MultipleSpfRecords(d) => {
                let mut r = String::from_str("域名 ");
                r.append(d.as_str());
                r.append(" 存在多条 SPF 记录（违反 RFC 7208 §4.5）");
                r
            },
            SpfError::DnsLookupLimitExceeded { count, domain } => {
                let mut r = String::from_str("DNS 查询次数已达上限 (");
                let c = dec_string(*count);
                r.append(c.as_str());
                r.append("/10)，域名: ");
                r.append(domain.as_str());
                r
            },
            SpfError::CircularReference { chain } => {
                let mut r = String::from_str("检测到循环引用: ");
                let j = join_strings(chain, " → ");
                r.append(j.as_str());
                r
            },
            SpfError::MalformedSpf { domain, reason } => {
                let mut r = String::from_str("SPF 记录格式错误 (");
                r.append(domain.as_str());
                r.append("): ");
                r.append(reason.as_str());
                r
            },
            SpfError::InvalidIp(s) => {
                let mut r = String::from_str("无效的 IP 地址: ");
                r.append(s.as_str());
                r
            },
            SpfError::InvalidCidr(s) => {
                let mut r = String::from_str("无效的 CIDR 表示: ");
                r.append(s.as_str());
                r
            },
            SpfError::Other(s) => String::from_str(s.as_str()),
        }
    }
}

} // verus!
