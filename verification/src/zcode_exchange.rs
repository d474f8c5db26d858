//! The exchange with the service that tells a quota: the command that asks it, and its answer.
//!
//! The service is asked with curl. The key goes to curl's standard input, never on its command
//! line, where other users of the machine could see it.

use crate::diagnostic::{report, Diagnostic, Report};
use crate::text::{
    concat, decimal, digit_char, last_of, law_numerals_read_back, law_parsed_numerals, law_parts_at_the_last,
    lemma_last_of, one_of, opt_text, parse_u16, parsed_u16, rsplit_once, signed_decimal, split_at_last, take_chars, texts,
    to_decimal, to_signed_decimal, trim, trimmed,
    without_plus,
};
use crate::zcode_plan::{unsafe_key, QuotaRequest};
use vstd::prelude::*;
use vstd::string::StringExecFns;

verus! {

/// How long curl may take, in milliseconds.
pub const COMMAND_TIMEOUT_MS: u64 = 15_000;

/// How much of the answer of a service that refuses is shown, in characters.
pub const SHOWN_ANSWER: usize = 200;

/// The arguments with which curl asks at a URL.
pub open spec fn curl_args(url: Seq<char>) -> Seq<Seq<char>> {
    seq![
        "--silent"@,
        "--show-error"@,
        "--output"@,
        "-"@,
        "--write-out"@,
        "\n%{http_code}"@,
        "--connect-timeout"@,
        "5"@,
        "--max-time"@,
        "10"@,
        "--retry"@,
        "0"@,
        "--config"@,
        "-"@,
        url,
    ]
}

/// The arguments with which curl sends a request.
pub fn curl_arguments(request: &QuotaRequest) -> (args: Vec<String>)
    ensures
        texts(args@) == curl_args(request.url@),
{
    let args: Vec<String> = vec![
        "--silent".to_owned(),
        "--show-error".to_owned(),
        "--output".to_owned(),
        "-".to_owned(),
        "--write-out".to_owned(),
        "\n%{http_code}".to_owned(),
        "--connect-timeout".to_owned(),
        "5".to_owned(),
        "--max-time".to_owned(),
        "10".to_owned(),
        "--retry".to_owned(),
        "0".to_owned(),
        "--config".to_owned(),
        "-".to_owned(),
        request.url.clone(),
    ];
    proof {
        assert(texts(args@) =~= curl_args(request.url@));
    }
    args
}

/// What curl is told on its standard input: the header that carries a key.
pub open spec fn config_text(api_key: Seq<char>) -> Seq<char> {
    "header = \"Authorization: "@ + api_key + "\"\n"@
}

/// What curl is told on its standard input.
pub fn curl_config(request: &QuotaRequest) -> (config: String)
    ensures
        config@ == config_text(request.api_key@),
{
    let mut config: String = concat("header = \"Authorization: ", request.api_key.as_str());
    config.append("\"\n");
    config
}

/// The failure to reach the service.
pub open spec fn network_report(detail: Seq<char>) -> Report {
    report("CRV-504"@, "ZCode 配额服务不可达"@, detail)
}

/// The failure to reach the service.
pub fn zcode_network_failure(detail: &str) -> (diagnostic: Diagnostic)
    ensures
        diagnostic@ == network_report(detail@),
{
    Diagnostic::new("CRV-504", "ZCode 配额服务不可达").with_detail(detail)
}

/// What curl is said to have exited with.
pub open spec fn exit_text(exit_code: Option<i32>) -> Seq<char> {
    match exit_code {
        Some(code) => signed_decimal(code as int),
        None => "unknown"@,
    }
}

/// At most the first characters of a text that are shown.
pub open spec fn shown_start(text: Seq<char>) -> Seq<char> {
    if text.len() > SHOWN_ANSWER {
        text.take(SHOWN_ANSWER as int)
    } else {
        text
    }
}

/// The answer in what curl printed: everything before the last line, which holds the status.
pub open spec fn answer_in(succeeded: bool, exit_code: Option<i32>, text: Seq<char>) -> Result<
    Seq<char>,
    Report,
> {
    if !succeeded {
        Err(network_report("curl 退出状态: "@ + exit_text(exit_code)))
    } else {
        match split_at_last(text, '\n') {
            None => Err(network_report("curl 未返回 HTTP 状态行"@)),
            Some((body, status_line)) => match parsed_u16(trimmed(status_line)) {
                None => Err(network_report("无法解析 HTTP 状态: "@ + status_line)),
                Some(status) => if status == 200 {
                    Ok(body)
                } else {
                    Err(refusal_report(status, body))
                },
            },
        }
    }
}

/// The failure of a service that answers with a status other than success.
pub open spec fn refusal_report(status: u16, body: Seq<char>) -> Report {
    report(
        "CRV-505"@,
        "ZCode 配额服务返回异常状态"@,
        "HTTP "@ + decimal(status as nat) + ": "@ + shown_start(trimmed(body)),
    )
}

fn show_start(text: &str) -> (start: &str)
    ensures
        start@ == shown_start(text@),
{
    if text.unicode_len() > SHOWN_ANSWER {
        take_chars(text, SHOWN_ANSWER)
    } else {
        text
    }
}

/// The answer in what curl printed.
pub fn parse_curl_output(process_succeeded: bool, exit_code: Option<i32>, text: &str) -> (result:
    Result<String, Diagnostic>)
    ensures
        match answer_in(process_succeeded, exit_code, text@) {
            Ok(body) => result is Ok && result->Ok_0@ == body,
            Err(failure) => result is Err && result->Err_0@ == failure,
        },
{
    if !process_succeeded {
        let code: String = match exit_code {
            Some(code) => to_signed_decimal(code),
            None => "unknown".to_owned(),
        };
        let detail: String = concat("curl 退出状态: ", code.as_str());
        return Err(zcode_network_failure(detail.as_str()));
    }
    match rsplit_once(text, '\n') {
        None => Err(zcode_network_failure("curl 未返回 HTTP 状态行")),
        Some((body, status_line)) => match parse_u16(trim(status_line)) {
            None => {
                let detail: String = concat("无法解析 HTTP 状态: ", status_line);
                Err(zcode_network_failure(detail.as_str()))
            },
            Some(status) => {
                if status == 200 {
                    return Ok(body.to_owned());
                }
                let number: String = to_decimal(status as u64);
                let mut detail: String = concat("HTTP ", number.as_str());
                detail.append(": ");
                detail.append(show_start(trim(body)));
                Err(
                    Diagnostic::new("CRV-505", "ZCode 配额服务返回异常状态").with_detail(
                        detail.as_str(),
                    ),
                )
            },
        },
    }
}

/// What came of running curl.
#[derive(Debug)]
pub enum FetchOutcome {
    /// It could not be started, or its end could not be awaited.
    Failed(String),
    /// It did not end in time.
    TimedOut,
    /// It ended.
    Finished { succeeded: bool, exit_code: Option<i32>, text: String },
}

/// The answer that running curl gives.
pub open spec fn fetched(outcome: FetchOutcome) -> Result<Seq<char>, Report> {
    match outcome {
        FetchOutcome::Failed(error) => Err(network_report(error@)),
        FetchOutcome::TimedOut => Err(network_report("请求超时"@)),
        FetchOutcome::Finished { succeeded, exit_code, text } => answer_in(
            succeeded,
            exit_code,
            text@,
        ),
    }
}

/// The answer that running curl gives.
pub fn fetch_quota_body(outcome: &FetchOutcome) -> (result: Result<String, Diagnostic>)
    ensures
        match fetched(*outcome) {
            Ok(body) => result is Ok && result->Ok_0@ == body,
            Err(failure) => result is Err && result->Err_0@ == failure,
        },
{
    match outcome {
        FetchOutcome::Failed(error) => Err(zcode_network_failure(error.as_str())),
        FetchOutcome::TimedOut => Err(zcode_network_failure("请求超时")),
        FetchOutcome::Finished { succeeded, exit_code, text } => parse_curl_output(
            *succeeded,
            *exit_code,
            text.as_str(),
        ),
    }
}

/// What the service answered comes back unchanged, whatever lines it holds, where the status is
/// that of success; with any other status it is refused.
pub proof fn law_an_answer_comes_back_unchanged(body: Seq<char>, status: u16, exit_code: Option<i32>)
    ensures
        answer_in(true, exit_code, body + seq!['\n'] + decimal(status as nat)) == (if status == 200 {
            Ok::<Seq<char>, Report>(body)
        } else {
            Err(refusal_report(status, body))
        }),
{
    let line = decimal(status as nat);
    law_numerals_read_back(status as nat);
    law_parsed_numerals(status);
    assert forall|i: int| 0 <= i < line.len() implies line[i] != '\n' by {
        assert(crate::text::digit_char(line[i]));
    }
    law_parts_at_the_last(body, '\n', line);
}

/// The command line does not depend on the key: for requests to one URL, with whatever keys,
/// curl gets the same arguments.
pub proof fn law_the_key_is_not_on_the_command_line(
    first: QuotaRequest,
    first_args: Vec<String>,
    second: QuotaRequest,
    second_args: Vec<String>,
)
    requires
        first.url@ == second.url@,
        call_ensures(curl_arguments, (&first,), first_args),
        call_ensures(curl_arguments, (&second,), second_args),
    ensures
        texts(first_args@) == texts(second_args@),
{
}

/// A key that is accepted stays within the quotes of the one line that curl is told: the line
/// ends where the text ends, and nothing between the quotes is one.
pub proof fn law_an_accepted_key_stays_quoted(api_key: Seq<char>)
    requires
        !unsafe_key(api_key),
    ensures
        forall|i: int|
            0 <= i < config_text(api_key).len() ==> (#[trigger] config_text(api_key)[i] == '\n'
                <==> i == config_text(api_key).len() - 1),
        forall|i: int|
            0 <= i < config_text(api_key).len() ==> (#[trigger] config_text(api_key)[i] == '"'
                <==> i == "header = "@.len() || i == config_text(api_key).len() - 2),
{
    reveal_strlit("header = \"Authorization: ");
    reveal_strlit("header = ");
    reveal_strlit("\"\n");
    let start = "header = \"Authorization: "@;
    let text = config_text(api_key);
    assert forall|i: int| 0 <= i < text.len() implies (text[i] == '\n' <==> i == text.len() - 1)
        && (text[i] == '"' <==> i == "header = "@.len() || i == text.len() - 2) by {
        if i < start.len() {
            assert(text[i] == start[i]);
        } else if i < start.len() + api_key.len() {
            assert(text[i] == api_key[i - start.len()]);
            assert(api_key.contains(text[i]));
        } else {
            assert(text[i] == "\"\n"@[i - start.len() - api_key.len()]);
        }
    }
}

/// What curl printed is the answer, a line feed and the status: with the status 200 the answer
/// comes back as it is; with another the failure tells the status, and of the answer no more than
/// its first two hundred characters, white space around it aside.
pub proof fn law_the_status_decides(
    text: &str,
    body: Seq<char>,
    line: Seq<char>,
    status: u16,
    exit_code: Option<i32>,
    result: Result<String, Diagnostic>,
)
    requires
        call_ensures(parse_curl_output, (true, exit_code, text), result),
        text@ == body + seq!['\n'] + line,
        !line.contains('\n'),
        trimmed(line) == decimal(status as nat),
    ensures
        status == 200 ==> (result matches Ok(answer) && answer@ == body),
        status != 200 ==> (result matches Err(diagnostic) && diagnostic.code@ == "CRV-505"@ && (
        diagnostic.detail matches Some(detail) && exists|shown: Seq<char>|
            detail@ == #[trigger] ("HTTP "@ + decimal(status as nat) + ": "@ + shown)
                && shown.len() <= 200 && shown == trimmed(body).take(shown.len() as int) && (
            shown.len() < 200 ==> shown == trimmed(body)))),
{
    law_parts_at_the_last(body, '\n', line);
    law_parsed_numerals(status);
    if status != 200 {
        let diagnostic = result->Err_0;
        assert(diagnostic@.detail == opt_text(diagnostic.detail));
        let shown = shown_start(trimmed(body));
        assert(shown =~= trimmed(body).take(shown.len() as int));
        assert(diagnostic.detail->Some_0@ == "HTTP "@ + decimal(status as nat) + ": "@ + shown);
    }
}

/// Without success of curl, without a line feed in what it printed, or without a number below
/// `2^16` in the last line the service counts as out of reach.
pub proof fn law_without_a_status_there_is_no_answer(
    succeeded: bool,
    text: &str,
    body: Seq<char>,
    line: Seq<char>,
    exit_code: Option<i32>,
    result: Result<String, Diagnostic>,
)
    requires
        call_ensures(parse_curl_output, (succeeded, exit_code, text), result),
    ensures
        !succeeded || !text@.contains('\n') ==> (result matches Err(diagnostic) && diagnostic.code@
            == "CRV-504"@),
        succeeded && text@ == body + seq!['\n'] + line && !line.contains('\n') && !(exists|k: int|
            0 <= k < trimmed(line).len() && '0' <= #[trigger] trimmed(line)[k] <= '9') ==> (
        result matches Err(diagnostic) && diagnostic.code@ == "CRV-504"@ && (
        diagnostic.detail matches Some(detail) && exists|before: Seq<char>|
            detail@ == #[trigger] (before + line))),
{
    if let Err(diagnostic) = result {
        assert(diagnostic@.code == diagnostic.code@);
        assert(diagnostic@.detail == opt_text(diagnostic.detail));
    }
    if succeeded && !text@.contains('\n') {
        lemma_last_of(text@, one_of(seq!['\n']));
        let at = last_of(text@, one_of(seq!['\n']));
        if at >= 0 {
            assert(text@[at] == '\n');
        }
    }
    if succeeded && text@ == body + seq!['\n'] + line && !line.contains('\n') && !(exists|k: int|
        0 <= k < trimmed(line).len() && '0' <= #[trigger] trimmed(line)[k] <= '9') {
        law_parts_at_the_last(body, '\n', line);
        let inner = trimmed(line);
        if parsed_u16(inner) is Some {
            let digits = without_plus(inner);
            assert(digit_char(digits[0]));
            if inner[0] == '+' {
                assert(digits[0] == inner[1]);
            }
        }
        assert(parsed_u16(inner) is None);
    }
}

/// What came of running curl: a failure of its own tells its words, a time-out is one, and what it
/// printed is read.
pub proof fn law_running_curl_gives_its_answer(
    outcome: FetchOutcome,
    parsed: Result<String, Diagnostic>,
    result: Result<String, Diagnostic>,
)
    requires
        call_ensures(fetch_quota_body, (&outcome,), result),
        outcome matches FetchOutcome::Finished { succeeded, exit_code, text } ==> exists|inner: &str|
            inner@ == text@ && #[trigger] call_ensures(
                parse_curl_output,
                (succeeded, exit_code, inner),
                parsed,
            ),
    ensures
        outcome matches FetchOutcome::Failed(error) ==> (result matches Err(diagnostic)
            && diagnostic.code@ == "CRV-504"@ && opt_text(diagnostic.detail) == Some(error@)),
        outcome is TimedOut ==> (result matches Err(diagnostic) && diagnostic.code@ == "CRV-504"@),
        outcome is Finished ==> match (result, parsed) {
            (Ok(a), Ok(b)) => a@ == b@,
            (Err(a), Err(b)) => a.code@ == b.code@ && opt_text(a.detail) == opt_text(b.detail),
            _ => false,
        },
{
    if let Err(diagnostic) = result {
        assert(diagnostic@.code == diagnostic.code@);
        assert(diagnostic@.detail == opt_text(diagnostic.detail));
    }
    if let Err(diagnostic) = parsed {
        assert(diagnostic@.code == diagnostic.code@);
        assert(diagnostic@.detail == opt_text(diagnostic.detail));
    }
}

/// What curl is asked to do: it asks at the URL of the request, which is its last argument; it
/// reads the rest of its settings from its standard input; it prints the answer and then, on a
/// line of its own, the status; it gives up after ten seconds, or five without a connection, and
/// does not try again.
pub proof fn law_curl_asks_at_the_url(request: QuotaRequest, args: Vec<String>)
    requires
        call_ensures(curl_arguments, (&request,), args),
    ensures
        args@.len() > 0 && args@.last()@ == request.url@,
        exists|k: int|
            0 <= k < args@.len() - 2 && (#[trigger] args@[k])@ == "--config"@ && args@[k + 1]@
                == "-"@,
        exists|k: int|
            0 <= k < args@.len() - 2 && (#[trigger] args@[k])@ == "--output"@ && args@[k + 1]@
                == "-"@,
        exists|k: int|
            0 <= k < args@.len() - 2 && (#[trigger] args@[k])@ == "--write-out"@ && args@[k + 1]@
                == "\n%{http_code}"@,
        exists|k: int|
            0 <= k < args@.len() - 2 && (#[trigger] args@[k])@ == "--max-time"@ && args@[k + 1]@
                == "10"@,
        exists|k: int|
            0 <= k < args@.len() - 2 && (#[trigger] args@[k])@ == "--connect-timeout"@ && args@[k
                + 1]@ == "5"@,
        exists|k: int|
            0 <= k < args@.len() - 2 && (#[trigger] args@[k])@ == "--retry"@ && args@[k + 1]@
                == "0"@,
{
    let list = texts(args@);
    assert(list.len() == 15);
    assert(list[2] == args@[2]@ && list[3] == args@[3]@);
    assert(list[4] == args@[4]@ && list[5] == args@[5]@);
    assert(list[6] == args@[6]@ && list[7] == args@[7]@);
    assert(list[8] == args@[8]@ && list[9] == args@[9]@);
    assert(list[10] == args@[10]@ && list[11] == args@[11]@);
    assert(list[12] == args@[12]@ && list[13] == args@[13]@);
    assert(list[14] == args@[14]@);
}

/// The key is handed over as the value of the authorization header, as it is.
pub proof fn law_the_key_is_the_authorization(request: QuotaRequest, config: String)
    requires
        call_ensures(curl_config, (&request,), config),
    ensures
        config@ == "header = \"Authorization: "@ + request.api_key@ + "\"\n"@,
{
}

} // verus!
