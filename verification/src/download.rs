//! The request that fetches an artifact, resuming after the bytes that are
//! already on disk.

use vstd::prelude::*;

verus! {

/// What `reqwest::Url::parse` makes of `input`: the serialization of the
/// parsed URL, or the message of the parse error.
pub uninterp spec fn parsed_url(input: Seq<char>) -> Result<Seq<char>, Seq<char>>;

/// Calls `reqwest::Url::parse` on `url`. For a URL that parses, the result
/// is its serialization as `Url::as_str` returns it; for one that does not,
/// the parse error in the words of its `Display`. Both depend on `url`
/// alone, and nothing more is claimed of them.
#[verifier::external_body]
fn parse_url(url: &str) -> (parsed: Result<String, String>)
    ensures
        text_outcome(parsed) == parsed_url(url@),
{
    match reqwest::Url::parse(url) {
        Ok(parsed) => Ok(parsed.as_str().to_string()),
        Err(e) => Err(e.to_string()),
    }
}

/// The character values of a parse outcome.
pub open spec fn text_outcome(parsed: Result<String, String>) -> Result<Seq<char>, Seq<char>> {
    match parsed {
        Ok(serialization) => Ok(serialization@),
        Err(reason) => Err(reason@),
    }
}

/// The request to send for an artifact.
#[derive(Debug, PartialEq, Eq)]
pub struct DownloadRequest {
    /// The URL to get, in its parsed and serialized form.
    pub url: String,
    /// The number of bytes that are on disk already. The request asks for
    /// the bytes from there on, and what arrives is appended.
    pub resume_from: Option<u64>,
}

/// Mathematical value of a [`DownloadRequest`].
pub struct DownloadRequestView {
    pub url: Seq<char>,
    pub resume_from: Option<u64>,
}

impl View for DownloadRequest {
    type V = DownloadRequestView;

    open spec fn view(&self) -> DownloadRequestView {
        DownloadRequestView { url: self.url@, resume_from: self.resume_from }
    }
}

/// Why no request can be sent.
#[derive(Debug, PartialEq, Eq)]
pub enum DownloadError {
    /// The URL does not parse; `reason` is the parser's message.
    InvalidUrl { reason: String },
}

/// The character values of a planned request or of the reason why there is
/// none.
pub open spec fn plan_view(plan: Result<DownloadRequest, DownloadError>) -> Result<
    DownloadRequestView,
    Seq<char>,
> {
    match plan {
        Ok(request) => Ok(request@),
        Err(DownloadError::InvalidUrl { reason }) => Err(reason@),
    }
}

/// The request for a URL that was parsed with the outcome `parsed`, where
/// `existing` is the length of the file on disk, if there is one.
pub open spec fn download_plan(
    parsed: Result<Seq<char>, Seq<char>>,
    existing: Option<u64>,
) -> Result<DownloadRequestView, Seq<char>> {
    match parsed {
        Ok(url) => Ok(DownloadRequestView { url, resume_from: existing }),
        Err(reason) => Err(reason),
    }
}

/// The decimal digit of `d`, for `d` below ten.
pub open spec fn digit(d: nat) -> char {
    if d == 0 {
        '0'
    } else if d == 1 {
        '1'
    } else if d == 2 {
        '2'
    } else if d == 3 {
        '3'
    } else if d == 4 {
        '4'
    } else if d == 5 {
        '5'
    } else if d == 6 {
        '6'
    } else if d == 7 {
        '7'
    } else if d == 8 {
        '8'
    } else {
        '9'
    }
}

/// The decimal numeral of `n`, without leading zeros.
pub open spec fn decimal(n: nat) -> Seq<char>
    decreases n,
{
    if n < 10 {
        seq![digit(n)]
    } else {
        decimal(n / 10).push(digit(n % 10))
    }
}

/// The value of the `Range` header that asks for the bytes from `offset` on.
pub open spec fn range_header(offset: nat) -> Seq<char> {
    seq!['b', 'y', 't', 'e', 's', '='] + decimal(offset) + seq!['-']
}

/// What a server that honours the `Range` header sends back where the
/// artifact is `content` and the request resumes at `offset`.
pub open spec fn range_body(content: Seq<u8>, offset: nat) -> Seq<u8> {
    content.skip(offset as int)
}

/// What comes back for a request of the artifact `content`: the rest of it
/// where the request resumes and the answer is partial, else the whole.
pub open spec fn response_body(content: Seq<u8>, resume_from: Option<u64>, partial: bool) -> Seq<
    u8,
> {
    match resume_from {
        Some(offset) => if partial {
            range_body(content, offset as nat)
        } else {
            content
        },
        None => content,
    }
}

/// How what arrives goes to the file.
#[derive(Clone, Copy, Debug, PartialEq, Eq)]
pub enum WriteMode {
    /// It is written behind what the file holds.
    Append,
    /// The file is emptied first.
    Restart,
}

/// How to write the answer to a request: an answer to a request that
/// resumes has to be partial to go behind the bytes on disk; one that is
/// not holds the whole artifact and takes their place.
pub open spec fn writing(resume_from: Option<u64>, partial: bool) -> WriteMode {
    if resume_from is Some && !partial {
        WriteMode::Restart
    } else {
        WriteMode::Append
    }
}

/// The file after `body` was written in the way `mode` to a file that
/// held `on_disk`.
pub open spec fn written(on_disk: Seq<u8>, body: Seq<u8>, mode: WriteMode) -> Seq<u8> {
    match mode {
        WriteMode::Append => on_disk + body,
        WriteMode::Restart => body,
    }
}

fn digit_str(d: u64) -> (s: &'static str)
    requires
        d < 10,
    ensures
        s@ == seq![digit(d as nat)],
{
    proof {
        reveal_strlit("0");
        reveal_strlit("1");
        reveal_strlit("2");
        reveal_strlit("3");
        reveal_strlit("4");
        reveal_strlit("5");
        reveal_strlit("6");
        reveal_strlit("7");
        reveal_strlit("8");
        reveal_strlit("9");
    }
    let s = if d == 0 {
        "0"
    } else if d == 1 {
        "1"
    } else if d == 2 {
        "2"
    } else if d == 3 {
        "3"
    } else if d == 4 {
        "4"
    } else if d == 5 {
        "5"
    } else if d == 6 {
        "6"
    } else if d == 7 {
        "7"
    } else if d == 8 {
        "8"
    } else {
        "9"
    };
    assert(s@ =~= seq![digit(d as nat)]);
    s
}

/// Writes `n` in decimal.
pub fn decimal_string(n: u64) -> (s: String)
    ensures
        s@ == decimal(n as nat),
    decreases n,
{
    if n < 10 {
        String::from_str(digit_str(n))
    } else {
        let mut s = decimal_string(n / 10);
        s.append(digit_str(n % 10));
        assert(s@ =~= decimal(n as nat));
        s
    }
}

impl DownloadRequest {
    /// How to write the answer to this request, where `partial` says
    /// whether the server sent a part of the artifact only.
    pub fn write_mode(&self, partial: bool) -> (mode: WriteMode)
        ensures
            mode == writing(self.resume_from, partial),
    {
        if self.resume_from.is_some() && !partial {
            WriteMode::Restart
        } else {
            WriteMode::Append
        }
    }

    /// The value of the `Range` header to send, if the request resumes.
    pub fn range(&self) -> (header: Option<String>)
        ensures
            match self.resume_from {
                Some(offset) => header is Some && header->0@ == range_header(offset as nat),
                None => header is None,
            },
    {
        match self.resume_from {
            Some(offset) => {
                proof {
                    reveal_strlit("bytes=");
                    reveal_strlit("-");
                }
                let mut header = String::from_str("bytes=");
                let digits = decimal_string(offset);
                header.append(digits.as_str());
                header.append("-");
                assert(header@ =~= range_header(offset as nat));
                Some(header)
            },
            None => None,
        }
    }
}

/// The request for a URL whose parse gave `parsed`.
pub fn plan_download(parsed: Result<String, String>, existing: Option<u64>) -> (plan: Result<
    DownloadRequest,
    DownloadError,
>)
    ensures
        plan_view(plan) == download_plan(text_outcome(parsed), existing),
{
    match parsed {
        Ok(url) => Ok(DownloadRequest { url, resume_from: existing }),
        Err(reason) => Err(DownloadError::InvalidUrl { reason }),
    }
}

/// The request that fetches `url` to a file of which `existing` bytes are on
/// disk (`None` where there is no file). A URL that does not parse is
/// refused before anything is sent.
pub fn download(url: &str, existing: Option<u64>) -> (plan: Result<DownloadRequest, DownloadError>)
    ensures
        plan_view(plan) == download_plan(parsed_url(url@), existing),
{
    plan_download(parse_url(url), existing)
}

/// A download that resumes brings the file to the whole artifact: where the
/// first `existing` bytes of `content` are on disk, the request of
/// [`download`] resumes at `existing`, and what comes back, written as
/// [`DownloadRequest::write_mode`] says, leaves `content` in the file,
/// whether the server honoured the range or sent the whole artifact.
pub proof fn lemma_resume_completes(
    content: Seq<u8>,
    url: Seq<char>,
    existing: u64,
    partial: bool,
)
    requires
        existing <= content.len(),
        parsed_url(url) is Ok,
    ensures
        download_plan(parsed_url(url), Some(existing)) is Ok,
        download_plan(parsed_url(url), Some(existing))->Ok_0.resume_from == Some(existing),
        content.take(existing as int) + range_body(content, existing as nat) == content,
        written(
            content.take(existing as int),
            response_body(content, Some(existing), partial),
            writing(Some(existing), partial),
        ) == content,
{
    assert(content.take(existing as int) + content.skip(existing as int) =~= content);
}

/// A download from the start leaves the whole artifact in the file.
pub proof fn lemma_fresh_download_completes(content: Seq<u8>, partial: bool)
    ensures
        written(Seq::empty(), response_body(content, None, partial), writing(None, partial))
            == content,
{
    assert(Seq::<u8>::empty() + content =~= content);
}

} // verus!
