//! The conversation with the Codex app-server, line by line.
//!
//! The meter greets the server, asks for the rate limits, and then listens for a moment for
//! updates to the answer. Reading and writing are not done here: a [`Session`] is told what
//! happened and says what to do next.

use crate::diagnostic::{plain_report, report, Diagnostic, Report};
use crate::json::{
    copied, empty_object, encode, from_number, from_text, get_member, get_str, get_u64, is_object,
    json_bytes, json_document, json_member, json_object, json_str, json_text, json_u64, member_str,
    member_u64, parse_json, set_member, show,
};
use crate::text::{contains, holds_text, lower, opt_text, same_text, to_lower};
use serde_json::Value;
use vstd::prelude::*;

verus! {

/// The number of lines after the answer that may still bring updates.
pub const UPDATE_LINES: u8 = 4;

/// The id of the greeting.
pub const GREETING_ID: u64 = 1;

/// The id of the question for the rate limits.
pub const LIMITS_ID: u64 = 2;

/// A line feed.
pub const LINE_FEED: u8 = 10;

/// The members of an object by which an update replaces those of the answer.
pub open spec fn limit_key(key: Seq<char>) -> bool {
    key == "primary"@ || key == "secondary"@ || key == "rateLimitReachedType"@ || key
        == "planType"@
}

/// Rate limits after an update: the members that an update may bring are taken from it where it
/// has them.
pub open spec fn updated_limits(
    limits: Map<Seq<char>, Value>,
    update: Map<Seq<char>, Value>,
) -> Map<Seq<char>, Value> {
    Map::new(
        |key: Seq<char>|
            limits.contains_key(key) || (limit_key(key) && update.contains_key(key)),
        |key: Seq<char>|
            if limit_key(key) && update.contains_key(key) {
                update[key]
            } else {
                limits[key]
            },
    )
}

/// The members of the object under a key, where there is an object.
pub open spec fn member_object(value: Value, key: Seq<char>) -> Option<Map<Seq<char>, Value>> {
    match json_member(value, key) {
        Some(member) => json_object(member),
        None => None,
    }
}

/// `after` is `before` with `update` merged into it: rate limits member by member, reset credits
/// as a whole, and nothing else. Unless both are objects nothing changes.
pub open spec fn is_merged(before: Value, update: Value, after: Value) -> bool {
    if json_object(before) is Some && json_object(update) is Some {
        &&& json_object(after) is Some
        &&& json_member(after, "rateLimitResetCredits"@) == (match json_member(
            update,
            "rateLimitResetCredits"@,
        ) {
            Some(credits) => Some(credits),
            None => json_member(before, "rateLimitResetCredits"@),
        })
        &&& match (member_object(before, "rateLimits"@), member_object(update, "rateLimits"@)) {
            (Some(limits), Some(changes)) => member_object(after, "rateLimits"@) == Some(
                updated_limits(limits, changes),
            ),
            _ => json_member(after, "rateLimits"@) == json_member(before, "rateLimits"@),
        }
        &&& forall|key: Seq<char>|
            key != "rateLimits"@ && key != "rateLimitResetCredits"@ ==> #[trigger] json_member(
                after,
                key,
            ) == json_member(before, key)
    } else {
        after == before
    }
}

/// Takes one member over from an update, where it has one.
fn take_over(limits: &mut Value, update: &Value, key: &str)
    requires
        json_object(*old(limits)) is Some,
        json_object(*update) is Some,
    ensures
        json_object(*final(limits)) == (match json_member(*update, key@) {
            Some(member) => Some(json_object(*old(limits))->Some_0.insert(key@, member)),
            None => json_object(*old(limits)),
        }),
{
    if let Some(member) = get_member(update, key) {
        set_member(limits, key, copied(member));
    }
}

/// Merges an update into the answer.
pub fn merge_sparse_update(base: &mut Value, update: &Value)
    ensures
        is_merged(*old(base), *update, *final(base)),
{
    if !is_object(base) || !is_object(update) {
        return;
    }
    proof {
        reveal_strlit("rateLimits");
        reveal_strlit("rateLimitResetCredits");
        assert("rateLimits"@.len() != "rateLimitResetCredits"@.len());
    }
    let ghost before = *base;
    let limits: Option<Value> = match get_member(base, "rateLimits") {
        Some(limits) => Some(copied(limits)),
        None => None,
    };
    if let (Some(limits), Some(changes)) = (limits, get_member(update, "rateLimits")) {
        if is_object(&limits) && is_object(changes) {
            let ghost old_limits = json_object(limits)->Some_0;
            let ghost update_limits = json_object(*changes)->Some_0;
            let mut merged = limits;
            take_over(&mut merged, changes, "primary");
            take_over(&mut merged, changes, "secondary");
            take_over(&mut merged, changes, "rateLimitReachedType");
            take_over(&mut merged, changes, "planType");
            proof {
                reveal_strlit("primary");
                reveal_strlit("secondary");
                reveal_strlit("rateLimitReachedType");
                reveal_strlit("planType");
                assert("primary"@.len() != "secondary"@.len());
                assert("primary"@.len() != "planType"@.len());
                assert("secondary"@.len() != "planType"@.len());
                assert("rateLimitReachedType"@.len() != "planType"@.len());
                assert("rateLimitReachedType"@.len() != "primary"@.len());
                assert("rateLimitReachedType"@.len() != "secondary"@.len());
                assert(json_object(merged)->Some_0 =~= updated_limits(old_limits, update_limits));
            }
            set_member(base, "rateLimits", merged);
        }
    }
    proof {
        let middle = *base;
        assert forall|key: Seq<char>| key != "rateLimits"@ implies #[trigger] json_member(
            middle,
            key,
        ) == json_member(before, key) by {}
    }
    if let Some(credits) = get_member(update, "rateLimitResetCredits") {
        set_member(base, "rateLimitResetCredits", copied(credits));
    }
}

/// A JSON object with exactly these keys.
pub open spec fn has_keys(value: Value, keys: Set<Seq<char>>) -> bool {
    json_object(value) is Some && json_object(value)->Some_0.dom() == keys
}

/// The name of the meter, as it introduces itself.
pub open spec fn is_client_info(info: Value, version: Seq<char>) -> bool {
    &&& has_keys(info, set!["name"@, "title"@, "version"@])
    &&& member_str(info, "name"@) == Some("codex_credits_view"@)
    &&& member_str(info, "title"@) == Some("QuoDex"@)
    &&& member_str(info, "version"@) == Some(version)
}

/// The greeting: `initialize` with the name of the meter.
pub open spec fn is_greeting(message: Value, version: Seq<char>) -> bool {
    &&& has_keys(message, set!["method"@, "id"@, "params"@])
    &&& member_str(message, "method"@) == Some("initialize"@)
    &&& member_u64(message, "id"@) == Some(GREETING_ID)
    &&& json_member(message, "params"@) matches Some(params) && {
        &&& has_keys(params, set!["clientInfo"@])
        &&& json_member(params, "clientInfo"@) matches Some(info) && is_client_info(info, version)
    }
}

/// The notice that the greeting was understood.
pub open spec fn is_notice(message: Value) -> bool {
    &&& has_keys(message, set!["method"@, "params"@])
    &&& member_str(message, "method"@) == Some("initialized"@)
    &&& json_member(message, "params"@) matches Some(params) && has_keys(params, set![])
}

/// The question for the rate limits.
pub open spec fn is_question(message: Value) -> bool {
    &&& has_keys(message, set!["method"@, "id"@])
    &&& member_str(message, "method"@) == Some("account/rateLimits/read"@)
    &&& member_u64(message, "id"@) == Some(LIMITS_ID)
}

/// The greeting.
pub fn greeting(version: &str) -> (message: Value)
    ensures
        is_greeting(message, version@),
{
    let mut info = empty_object();
    set_member(&mut info, "name", from_text("codex_credits_view"));
    set_member(&mut info, "title", from_text("QuoDex"));
    set_member(&mut info, "version", from_text(version));
    let mut params = empty_object();
    set_member(&mut params, "clientInfo", info);
    let ghost all_params = params;
    let mut message = empty_object();
    set_member(&mut message, "method", from_text("initialize"));
    set_member(&mut message, "id", from_number(GREETING_ID));
    set_member(&mut message, "params", params);
    proof {
        reveal_strlit("name");
        reveal_strlit("title");
        reveal_strlit("version");
        reveal_strlit("method");
        reveal_strlit("id");
        reveal_strlit("params");
        assert("name"@.len() != "title"@.len() && "title"@.len() != "version"@.len());
        assert("name"@.len() != "version"@.len());
        assert("method"@[0] != "params"@[0]);
        assert("id"@.len() != "method"@.len() && "id"@.len() != "params"@.len());
        assert(json_object(info)->Some_0.dom() =~= set!["name"@, "title"@, "version"@]);
        assert(json_object(all_params)->Some_0.dom() =~= set!["clientInfo"@]);
        assert(json_object(message)->Some_0.dom() =~= set!["method"@, "id"@, "params"@]);
    }
    message
}

/// The notice that the greeting was understood.
pub fn notice() -> (message: Value)
    ensures
        is_notice(message),
{
    let params = empty_object();
    let mut message = empty_object();
    set_member(&mut message, "method", from_text("initialized"));
    set_member(&mut message, "params", params);
    proof {
        reveal_strlit("method");
        reveal_strlit("params");
        assert("method"@[0] != "params"@[0]);
        assert(json_object(params)->Some_0.dom() =~= set![]);
        assert(json_object(message)->Some_0.dom() =~= set!["method"@, "params"@]);
    }
    message
}

/// The question for the rate limits.
pub fn question() -> (message: Value)
    ensures
        is_question(message),
{
    let mut message = empty_object();
    set_member(&mut message, "method", from_text("account/rateLimits/read"));
    set_member(&mut message, "id", from_number(LIMITS_ID));
    proof {
        reveal_strlit("method");
        reveal_strlit("id");
        assert("id"@.len() != "method"@.len());
        assert(json_object(message)->Some_0.dom() =~= set!["method"@, "id"@]);
    }
    message
}

/// The line of a message, or the failure to encode it.
pub open spec fn line_of(message: Value) -> Result<Seq<u8>, Report> {
    match json_bytes(message) {
        Ok(bytes) => Ok(bytes.push(LINE_FEED)),
        Err(error) => Err(report("CRV-104"@, "无法编码 app-server 请求"@, error)),
    }
}

/// One line: it ends with a line feed, and holds no other.
pub open spec fn single_line(line: Seq<u8>) -> bool {
    line.len() > 0 && line.last() == LINE_FEED && !line.drop_last().contains(LINE_FEED)
}

/// The line of a message.
pub fn message_line(message: &Value) -> (line: Result<Vec<u8>, Diagnostic>)
    ensures
        match line {
            Ok(line) => line_of(*message) == Ok::<Seq<u8>, Report>(line@) && single_line(line@),
            Err(diagnostic) => line_of(*message) == Err::<Seq<u8>, Report>(diagnostic@),
        },
{
    match encode(message) {
        Ok(bytes) => {
            let ghost content = bytes@;
            let mut line = bytes;
            line.push(LINE_FEED);
            proof {
                assert(line@.drop_last() =~= content);
            }
            Ok(line)
        },
        Err(error) => Err(
            Diagnostic::new("CRV-104", "无法编码 app-server 请求").with_detail(error.as_str()),
        ),
    }
}

/// What a line means to a meter that waits for an answer.
pub enum Verdict {
    /// Not the answer.
    Skip,
    /// The answer.
    Answer(Value),
    /// A refusal, or a line that cannot be understood.
    Fail(Diagnostic),
}

/// The failure that an error of the server is shown as.
pub open spec fn refusal(detail: Seq<char>) -> Report {
    if holds_text(lower(detail), "logged"@) || holds_text(lower(detail), "auth"@) {
        report("CRV-202"@, "Codex 尚未登录"@, detail)
    } else {
        report("CRV-108"@, "app-server 拒绝了配额请求"@, detail)
    }
}

/// `verdict` is what `message` means to a meter that waits for the answer with `id`.
pub open spec fn judges(message: Value, id: u64, verdict: Verdict) -> bool {
    if member_u64(message, "id"@) != Some(id) {
        verdict is Skip
    } else {
        match json_member(message, "error"@) {
            Some(error) => verdict matches Verdict::Fail(diagnostic) && diagnostic@ == refusal(
                json_text(error),
            ),
            None => match json_member(message, "result"@) {
                Some(result) => verdict == Verdict::Answer(result),
                None => verdict matches Verdict::Fail(diagnostic) && diagnostic@ == plain_report(
                    "CRV-109"@,
                    "app-server 响应缺少 result"@,
                ),
            },
        }
    }
}

/// The failure of a line that is no JSON.
pub open spec fn no_json(error: Seq<char>) -> Report {
    report("CRV-107"@, "app-server 返回了无效 JSON"@, error)
}

/// `verdict` is what `line` means to a meter that waits for the answer with `id`.
pub open spec fn judges_line(line: Seq<char>, id: u64, verdict: Verdict) -> bool {
    match json_document(line) {
        Ok(message) => judges(message, id, verdict),
        Err(error) => verdict matches Verdict::Fail(diagnostic) && diagnostic@ == no_json(error),
    }
}

/// What a message means to a meter that waits for the answer with `id`.
pub fn judge_message(message: &Value, id: u64) -> (verdict: Verdict)
    ensures
        judges(*message, id, verdict),
{
    match get_u64(message, "id") {
        Some(found) => {
            if found != id {
                return Verdict::Skip;
            }
        },
        None => {
            return Verdict::Skip;
        },
    }
    if let Some(error) = get_member(message, "error") {
        let detail = show(error);
        let lowered = to_lower(detail.as_str());
        if contains(lowered.as_str(), "logged") || contains(lowered.as_str(), "auth") {
            return Verdict::Fail(
                Diagnostic::new("CRV-202", "Codex 尚未登录").with_detail(detail.as_str()),
            );
        }
        return Verdict::Fail(
            Diagnostic::new("CRV-108", "app-server 拒绝了配额请求").with_detail(detail.as_str()),
        );
    }
    match get_member(message, "result") {
        Some(result) => Verdict::Answer(copied(result)),
        None => Verdict::Fail(Diagnostic::new("CRV-109", "app-server 响应缺少 result")),
    }
}

fn no_json_failure(error: &str) -> (diagnostic: Diagnostic)
    ensures
        diagnostic@ == no_json(error@),
{
    Diagnostic::new("CRV-107", "app-server 返回了无效 JSON").with_detail(error)
}

/// What a line means to a meter that waits for the answer with `id`.
pub fn judge_line(line: &str, id: u64) -> (verdict: Verdict)
    ensures
        judges_line(line@, id, verdict),
{
    match parse_json(line) {
        Ok(message) => judge_message(&message, id),
        Err(error) => Verdict::Fail(no_json_failure(error.as_str())),
    }
}

/// `after` is the answer after a message: changed where the message is an update, and otherwise
/// the same.
pub open spec fn is_updated(before: Value, message: Value, after: Value) -> bool {
    if member_str(message, "method"@) == Some("account/rateLimits/updated"@) {
        match json_member(message, "params"@) {
            Some(params) => is_merged(before, params, after),
            None => after == before,
        }
    } else {
        after == before
    }
}

/// Applies a message to the answer.
pub fn apply_message(result: &mut Value, message: &Value)
    ensures
        is_updated(*old(result), *message, *final(result)),
{
    if let Some(method) = get_str(message, "method") {
        if same_text(method.as_str(), "account/rateLimits/updated") {
            if let Some(params) = get_member(message, "params") {
                merge_sparse_update(result, params);
            }
        }
    }
}

/// Where the conversation stands.
pub enum Session {
    /// The greeting was sent.
    Greeting,
    /// The question for the rate limits was sent.
    Asking,
    /// The answer is here; up to `left` more lines may update it.
    Collecting { left: u8, result: Value },
}

/// What happened while the meter waited for a line.
pub enum SessionEvent {
    Line(String),
    /// The server closed its output.
    Closed,
    ReadFailed(String),
    TimedOut,
}

/// What the meter does next.
pub enum SessionStep {
    /// Wait for the next line.
    Wait(Session),
    /// Write the lines, then wait.
    Send(Session, Vec<Vec<u8>>),
    /// The conversation is over and has this answer.
    Finish(Value),
    /// The conversation is over and has failed.
    Fail(Diagnostic),
}

/// The step writes these messages, each as one line, and then waits in `session`; where some
/// cannot be encoded, it fails with the failure of the first of them.
pub open spec fn sends(messages: Seq<Value>, session: Session, step: SessionStep) -> bool {
    match step {
        SessionStep::Send(next, lines) => {
            &&& next == session
            &&& lines@.len() == messages.len()
            &&& forall|i: int|
                0 <= i < messages.len() ==> line_of(#[trigger] messages[i]) == Ok::<
                    Seq<u8>,
                    Report,
                >(lines@[i]@) && single_line(lines@[i]@)
        },
        SessionStep::Fail(diagnostic) => exists|i: int|
            0 <= i < messages.len() && line_of(#[trigger] messages[i]) == Err::<
                Seq<u8>,
                Report,
            >(diagnostic@) && forall|j: int| 0 <= j < i ==> line_of(#[trigger] messages[j]) is Ok,
        _ => false,
    }
}

/// The step fails with this report.
pub open spec fn fails(step: SessionStep, failure: Report) -> bool {
    step matches SessionStep::Fail(diagnostic) && diagnostic@ == failure
}

/// `step` is what follows when the server does not answer.
pub open spec fn is_silence(event: SessionEvent, step: SessionStep) -> bool {
    match event {
        SessionEvent::Line(_) => false,
        SessionEvent::Closed => fails(
            step,
            plain_report("CRV-110"@, "app-server 在返回配额前结束"@),
        ),
        SessionEvent::ReadFailed(error) => fails(
            step,
            report("CRV-106"@, "无法读取 app-server 响应"@, error@),
        ),
        SessionEvent::TimedOut => fails(step, plain_report("CRV-111"@, "读取 Codex 配额超时"@)),
    }
}

/// The messages that follow the greeting.
pub open spec fn asks(step: SessionStep) -> bool {
    exists|messages: Seq<Value>|
        messages.len() == 2 && is_notice(messages[0]) && is_question(messages[1])
            && #[trigger] sends(messages, Session::Asking, step)
}

/// `step` is what follows after one line more, with the answer now `result` and `left` lines
/// before it.
pub open spec fn is_after_update(left: u8, result: Value, step: SessionStep) -> bool {
    if left <= 1 {
        step == SessionStep::Finish(result)
    } else {
        step == SessionStep::Wait(Session::Collecting { left: (left - 1) as u8, result })
    }
}

/// `step` is what follows when `event` happens after the greeting.
pub open spec fn is_next_greeted(event: SessionEvent, step: SessionStep) -> bool {
    match event {
        SessionEvent::Line(line) => exists|verdict: Verdict|
            #[trigger] judges_line(line@, GREETING_ID, verdict) && match verdict {
                Verdict::Skip => step == SessionStep::Wait(Session::Greeting),
                Verdict::Answer(_) => asks(step),
                Verdict::Fail(diagnostic) => fails(step, diagnostic@),
            },
        _ => is_silence(event, step),
    }
}

/// `step` is what follows when `event` happens after the question.
pub open spec fn is_next_asked(event: SessionEvent, step: SessionStep) -> bool {
    match event {
        SessionEvent::Line(line) => exists|verdict: Verdict|
            #[trigger] judges_line(line@, LIMITS_ID, verdict) && match verdict {
                Verdict::Skip => step == SessionStep::Wait(Session::Asking),
                Verdict::Answer(result) => step == SessionStep::Wait(
                    Session::Collecting { left: UPDATE_LINES, result },
                ),
                Verdict::Fail(diagnostic) => fails(step, diagnostic@),
            },
        _ => is_silence(event, step),
    }
}

/// `step` is what follows when `message` comes after the answer.
pub open spec fn is_next_heard(left: u8, result: Value, message: Value, step: SessionStep) -> bool {
    exists|after: Value|
        #[trigger] is_updated(result, message, after) && is_after_update(left, after, step)
}

/// `step` is what follows when `event` happens after the answer.
pub open spec fn is_next_answered(
    left: u8,
    result: Value,
    event: SessionEvent,
    step: SessionStep,
) -> bool {
    match event {
        SessionEvent::Line(line) => match json_document(line@) {
            Ok(message) => is_next_heard(left, result, message, step),
            Err(error) => fails(step, no_json(error)),
        },
        SessionEvent::ReadFailed(error) => fails(
            step,
            report("CRV-106"@, "无法读取 app-server 更新"@, error@),
        ),
        _ => step == SessionStep::Finish(result),
    }
}

/// `step` is what follows when `event` happens in `session`.
pub open spec fn is_next(session: Session, event: SessionEvent, step: SessionStep) -> bool {
    match session {
        Session::Greeting => is_next_greeted(event, step),
        Session::Asking => is_next_asked(event, step),
        Session::Collecting { left, result } => is_next_answered(left, result, event, step),
    }
}

/// The failure of a server that does not answer.
fn silence(event: SessionEvent) -> (step: SessionStep)
    requires
        !(event is Line),
    ensures
        is_silence(event, step),
{
    match event {
        SessionEvent::ReadFailed(error) => SessionStep::Fail(
            Diagnostic::new("CRV-106", "无法读取 app-server 响应").with_detail(error.as_str()),
        ),
        SessionEvent::TimedOut => SessionStep::Fail(
            Diagnostic::new("CRV-111", "读取 Codex 配额超时"),
        ),
        _ => SessionStep::Fail(Diagnostic::new("CRV-110", "app-server 在返回配额前结束")),
    }
}

impl Session {
    /// Opens the conversation: sends the greeting.
    pub fn open(version: &str) -> (step: SessionStep)
        ensures
            exists|messages: Seq<Value>|
                messages.len() == 1 && is_greeting(messages[0], version@) && #[trigger] sends(
                    messages,
                    Session::Greeting,
                    step,
                ),
    {
        let message = greeting(version);
        let ghost messages = seq![message];
        match message_line(&message) {
            Ok(line) => {
                let step = SessionStep::Send(Session::Greeting, vec![line]);
                proof {
                    assert(messages[0] == message);
                    assert(sends(messages, Session::Greeting, step));
                }
                step
            },
            Err(diagnostic) => {
                let step = SessionStep::Fail(diagnostic);
                proof {
                    assert(messages[0] == message);
                    assert(sends(messages, Session::Greeting, step));
                }
                step
            },
        }
    }

    /// Sends what follows the greeting.
    fn ask() -> (step: SessionStep)
        ensures
            asks(step),
    {
        let first = notice();
        let second = question();
        let ghost messages = seq![first, second];
        proof {
            assert(messages[0] == first && messages[1] == second);
        }
        let line: Vec<u8> = match message_line(&first) {
            Ok(line) => line,
            Err(diagnostic) => {
                let step = SessionStep::Fail(diagnostic);
                proof {
                    assert(sends(messages, Session::Asking, step));
                }
                return step;
            },
        };
        match message_line(&second) {
            Ok(other) => {
                let step = SessionStep::Send(Session::Asking, vec![line, other]);
                proof {
                    assert(sends(messages, Session::Asking, step));
                }
                step
            },
            Err(diagnostic) => {
                let step = SessionStep::Fail(diagnostic);
                proof {
                    assert(sends(messages, Session::Asking, step));
                }
                step
            },
        }
    }

    fn next_greeted(event: SessionEvent) -> (step: SessionStep)
        ensures
            is_next_greeted(event, step),
    {
        match event {
            SessionEvent::Line(line) => {
                let verdict = judge_line(line.as_str(), GREETING_ID);
                let ghost judged = verdict;
                let step = match verdict {
                    Verdict::Skip => SessionStep::Wait(Session::Greeting),
                    Verdict::Answer(_) => Session::ask(),
                    Verdict::Fail(diagnostic) => SessionStep::Fail(diagnostic),
                };
                assert(judges_line(line@, GREETING_ID, judged));
                step
            },
            _ => silence(event),
        }
    }

    fn next_asked(event: SessionEvent) -> (step: SessionStep)
        ensures
            is_next_asked(event, step),
    {
        match event {
            SessionEvent::Line(line) => {
                let verdict = judge_line(line.as_str(), LIMITS_ID);
                let ghost judged = verdict;
                let step = match verdict {
                    Verdict::Skip => SessionStep::Wait(Session::Asking),
                    Verdict::Answer(result) => SessionStep::Wait(
                        Session::Collecting { left: UPDATE_LINES, result },
                    ),
                    Verdict::Fail(diagnostic) => SessionStep::Fail(diagnostic),
                };
                assert(judges_line(line@, LIMITS_ID, judged));
                step
            },
            _ => silence(event),
        }
    }

    fn next_answered(left: u8, result: Value, event: SessionEvent) -> (step: SessionStep)
        ensures
            is_next_answered(left, result, event, step),
    {
        match event {
            SessionEvent::Line(line) => match parse_json(line.as_str()) {
                Ok(message) => {
                    let ghost before = result;
                    let mut after = result;
                    apply_message(&mut after, &message);
                    let ghost updated = after;
                    let step = if left <= 1 {
                        SessionStep::Finish(after)
                    } else {
                        SessionStep::Wait(Session::Collecting { left: left - 1, result: after })
                    };
                    assert(is_updated(before, message, updated));
                    assert(is_after_update(left, updated, step));
                    step
                },
                Err(error) => SessionStep::Fail(no_json_failure(error.as_str())),
            },
            SessionEvent::ReadFailed(error) => SessionStep::Fail(
                Diagnostic::new("CRV-106", "无法读取 app-server 更新").with_detail(error.as_str()),
            ),
            _ => SessionStep::Finish(result),
        }
    }

    /// What to do after an event.
    pub fn next(self, event: SessionEvent) -> (step: SessionStep)
        ensures
            is_next(self, event, step),
    {
        match self {
            Session::Greeting => Session::next_greeted(event),
            Session::Asking => Session::next_asked(event),
            Session::Collecting { left, result } => Session::next_answered(left, result, event),
        }
    }
}

/// Why the conversation could not begin, or could not go on.
pub enum ChannelFailure {
    /// The process did not start.
    Start(String),
    /// The process has no input.
    NoInput,
    /// The process has no output.
    NoOutput,
    /// A line could not be written.
    Write(String),
}

/// The failure of a channel as it is shown.
pub open spec fn channel_report(failure: ChannelFailure) -> Report {
    match failure {
        ChannelFailure::Start(error) => report("CRV-101"@, "无法启动配额数据进程"@, error@),
        ChannelFailure::NoInput => plain_report("CRV-102"@, "配额数据进程没有可写输入通道"@),
        ChannelFailure::NoOutput => plain_report("CRV-103"@, "配额数据进程没有可读输出通道"@),
        ChannelFailure::Write(error) => report("CRV-105"@, "无法写入 app-server 请求"@, error@),
    }
}

/// The failure of a channel as it is shown.
pub fn channel_failure(failure: ChannelFailure) -> (diagnostic: Diagnostic)
    ensures
        diagnostic@ == channel_report(failure),
{
    match failure {
        ChannelFailure::Start(error) => Diagnostic::new(
            "CRV-101",
            "无法启动配额数据进程",
        ).with_detail(error.as_str()),
        ChannelFailure::NoInput => Diagnostic::new("CRV-102", "配额数据进程没有可写输入通道"),
        ChannelFailure::NoOutput => Diagnostic::new("CRV-103", "配额数据进程没有可读输出通道"),
        ChannelFailure::Write(error) => Diagnostic::new(
            "CRV-105",
            "无法写入 app-server 请求",
        ).with_detail(error.as_str()),
    }
}

/// A line that is not the awaited answer leaves the conversation where it stands.
pub proof fn law_other_messages_are_skipped(line: String, message: Value, step: SessionStep)
    requires
        json_document(line@) == Ok::<Value, Seq<char>>(message),
    ensures
        member_u64(message, "id"@) != Some(GREETING_ID) && is_next(
            Session::Greeting,
            SessionEvent::Line(line),
            step,
        ) ==> step == SessionStep::Wait(Session::Greeting),
        member_u64(message, "id"@) != Some(LIMITS_ID) && is_next(
            Session::Asking,
            SessionEvent::Line(line),
            step,
        ) ==> step == SessionStep::Wait(Session::Asking),
{
}

/// An answer that carries an error never becomes a reading.
pub proof fn law_errors_are_not_answers(
    session: Session,
    line: String,
    message: Value,
    step: SessionStep,
)
    requires
        session is Greeting || session is Asking,
        json_document(line@) == Ok::<Value, Seq<char>>(message),
        member_u64(message, "id"@) == Some(
            if session is Greeting {
                GREETING_ID
            } else {
                LIMITS_ID
            },
        ),
        json_member(message, "error"@) is Some,
        is_next(session, SessionEvent::Line(line), step),
    ensures
        fails(step, refusal(json_text(json_member(message, "error"@)->Some_0))),
{
}

/// Once the answer is here the conversation only gets shorter: every further line leaves fewer
/// lines to wait for, so that it ends after at most as many.
pub proof fn law_collecting_ends(
    left: u8,
    result: Value,
    event: SessionEvent,
    step: SessionStep,
)
    requires
        is_next(Session::Collecting { left, result }, event, step),
    ensures
        !(step is Send),
        step matches SessionStep::Wait(next) ==> next matches Session::Collecting {
            left: fewer,
            result: _,
        } && fewer < left,
{
}

/// An update changes only the rate limits that it contains.
pub proof fn law_update_keeps_what_it_does_not_contain(
    before: Value,
    update: Value,
    after: Value,
    key: Seq<char>,
)
    requires
        is_merged(before, update, after),
        member_object(before, "rateLimits"@) is Some,
        match member_object(update, "rateLimits"@) {
            Some(changes) => !changes.contains_key(key) || (key != "primary"@ && key
                != "secondary"@ && key != "rateLimitReachedType"@ && key != "planType"@),
            None => true,
        },
    ensures
        member_object(after, "rateLimits"@) is Some,
        member_object(after, "rateLimits"@)->Some_0.contains_key(key) == member_object(
            before,
            "rateLimits"@,
        )->Some_0.contains_key(key),
        member_object(before, "rateLimits"@)->Some_0.contains_key(key) ==> member_object(
            after,
            "rateLimits"@,
        )->Some_0[key] == member_object(before, "rateLimits"@)->Some_0[key],
{
}

/// An update that came twice changes no more than one that came once.
pub proof fn law_update_twice_is_update_once(
    before: Value,
    update: Value,
    once: Value,
    twice: Value,
)
    requires
        is_merged(before, update, once),
        is_merged(once, update, twice),
    ensures
        json_member(twice, "rateLimitResetCredits"@) == json_member(once, "rateLimitResetCredits"@),
        member_object(twice, "rateLimits"@) == member_object(once, "rateLimits"@),
        forall|key: Seq<char>|
            key != "rateLimits"@ ==> #[trigger] json_member(twice, key) == json_member(once, key),
{
    if json_object(before) is Some && json_object(update) is Some {
        if let (Some(limits), Some(changes)) = (
            member_object(before, "rateLimits"@),
            member_object(update, "rateLimits"@),
        ) {
            assert(updated_limits(updated_limits(limits, changes), changes) =~= updated_limits(
                limits,
                changes,
            ));
        }
    }
}

/// Whatever else an update holds: the primary and the secondary window, the kind of limit that
/// was reached and the plan are taken over from it, each one that it has.
pub proof fn law_an_update_brings_its_limits(
    before: Value,
    update: Value,
    after: Value,
    limits: Map<Seq<char>, Value>,
    changes: Map<Seq<char>, Value>,
    key: Seq<char>,
)
    requires
        is_merged(before, update, after),
        json_object(before) matches Some(members) && members.contains_key("rateLimits"@)
            && json_object(members["rateLimits"@]) == Some(limits),
        json_object(update) matches Some(members) && members.contains_key("rateLimits"@)
            && json_object(members["rateLimits"@]) == Some(changes),
        key == "primary"@ || key == "secondary"@ || key == "rateLimitReachedType"@ || key
            == "planType"@,
        changes.contains_key(key),
    ensures
        json_object(after) matches Some(members) && members.contains_key("rateLimits"@) && (
        json_object(members["rateLimits"@]) matches Some(merged) && merged.contains_key(key)
            && merged[key] == changes[key]),
{
    assert(member_object(before, "rateLimits"@) == Some(limits));
    assert(member_object(update, "rateLimits"@) == Some(changes));
    assert(member_object(after, "rateLimits"@) is Some);
}

/// The reset credits are those of the update where it tells some, and otherwise those from
/// before. Rate limits that either side does not hold as an object stay as they were, and so does
/// every other member.
pub proof fn law_an_update_brings_its_reset_credits(
    before: Value,
    update: Value,
    after: Value,
    members: Map<Seq<char>, Value>,
    changes: Map<Seq<char>, Value>,
)
    requires
        is_merged(before, update, after),
        json_object(before) == Some(members),
        json_object(update) == Some(changes),
    ensures
        json_object(after) matches Some(merged) && {
            &&& changes.contains_key("rateLimitResetCredits"@) ==> merged.contains_key(
                "rateLimitResetCredits"@,
            ) && merged["rateLimitResetCredits"@] == changes["rateLimitResetCredits"@]
            &&& forall|key: Seq<char>|
                key != "rateLimits"@ && (key != "rateLimitResetCredits"@ || !changes.contains_key(
                    key,
                )) ==> (#[trigger] merged.contains_key(key) <==> members.contains_key(key)) && (
                members.contains_key(key) ==> merged[key] == members[key])
            &&& !(members.contains_key("rateLimits"@) && json_object(
                members["rateLimits"@],
            ) is Some && changes.contains_key("rateLimits"@) && json_object(
                changes["rateLimits"@],
            ) is Some) ==> (merged.contains_key("rateLimits"@) <==> members.contains_key(
                "rateLimits"@,
            )) && (members.contains_key("rateLimits"@) ==> merged["rateLimits"@]
                == members["rateLimits"@])
        },
{
    let merged = json_object(after)->Some_0;
    assert forall|key: Seq<char>|
        key != "rateLimits"@ && (key != "rateLimitResetCredits"@ || !changes.contains_key(
            key,
        )) implies (#[trigger] merged.contains_key(key) <==> members.contains_key(key)) && (
    members.contains_key(key) ==> merged[key] == members[key]) by {
        assert(json_member(after, key) == json_member(before, key));
    }
}

/// What is no object is neither changed nor brings a change.
pub proof fn law_only_objects_are_merged(before: Value, update: Value, after: Value)
    requires
        is_merged(before, update, after),
        json_object(before) is None || json_object(update) is None,
    ensures
        after == before,
{
}

/// The answer to the question, which has the number two and a result, is taken as it is; up to
/// four more lines may then update it.
pub proof fn law_the_answer_is_taken(
    line: String,
    message: Value,
    members: Map<Seq<char>, Value>,
    step: SessionStep,
)
    requires
        call_ensures(Session::next, (Session::Asking, SessionEvent::Line(line)), step),
        json_document(line@) == Ok::<Value, Seq<char>>(message),
        json_object(message) == Some(members),
        members.contains_key("id"@) && json_u64(members["id"@]) == Some(2u64),
        !members.contains_key("error"@),
        members.contains_key("result"@),
    ensures
        step == SessionStep::Wait(Session::Collecting { left: 4, result: members["result"@] }),
{
    assert(is_next(Session::Asking, SessionEvent::Line(line), step));
}

/// The answer to the greeting, which has the number one and a result, is followed by two lines,
/// the notice and the question, unless one of them cannot be encoded.
pub proof fn law_the_greeting_is_followed_by_the_question(
    line: String,
    message: Value,
    members: Map<Seq<char>, Value>,
    step: SessionStep,
)
    requires
        call_ensures(Session::next, (Session::Greeting, SessionEvent::Line(line)), step),
        json_document(line@) == Ok::<Value, Seq<char>>(message),
        json_object(message) == Some(members),
        members.contains_key("id"@) && json_u64(members["id"@]) == Some(1u64),
        !members.contains_key("error"@),
        members.contains_key("result"@),
    ensures
        exists|first: Value, second: Value|
            #![trigger json_bytes(first), json_bytes(second)]
            member_str(first, "method"@) == Some("initialized"@) && member_str(second, "method"@)
                == Some("account/rateLimits/read"@) && member_u64(second, "id"@) == Some(2u64)
                && match (json_bytes(first), json_bytes(second)) {
                (Ok(one), Ok(two)) => step matches SessionStep::Send(next, sent) && next
                    == Session::Asking && sent@.len() == 2 && sent@[0]@ == one.push(10)
                    && sent@[1]@ == two.push(10),
                (Ok(_), Err(error)) => step matches SessionStep::Fail(diagnostic)
                    && diagnostic.code@ == "CRV-104"@ && opt_text(diagnostic.detail) == Some(error),
                (Err(error), _) => step matches SessionStep::Fail(diagnostic) && diagnostic.code@
                    == "CRV-104"@ && opt_text(diagnostic.detail) == Some(error),
            },
{
    assert(is_next(Session::Greeting, SessionEvent::Line(line), step));
    assert(asks(step));
    let messages = choose|messages: Seq<Value>|
        messages.len() == 2 && is_notice(messages[0]) && is_question(messages[1])
            && #[trigger] sends(messages, Session::Asking, step);
    let first = messages[0];
    let second = messages[1];
    assert(line_of(messages[0]) == line_of(first));
    assert(line_of(messages[1]) == line_of(second));
    if let SessionStep::Fail(diagnostic) = step {
        assert(diagnostic@.code == diagnostic.code@);
        assert(diagnostic@.detail == opt_text(diagnostic.detail));
    }
    assert(json_bytes(first) == json_bytes(first) && json_bytes(second) == json_bytes(second));
}

/// How an awaited answer fails: with an error of the server, which means that nobody is signed in
/// where it speaks of that; without a result; or as a line that is no JSON.
pub proof fn law_answers_fail_by_what_they_hold(session: Session, line: String, step: SessionStep)
    requires
        session is Greeting || session is Asking,
        call_ensures(Session::next, (session, SessionEvent::Line(line)), step),
    ensures
        json_document(line@) matches Err(error) ==> (step matches SessionStep::Fail(diagnostic)
            && diagnostic.code@ == "CRV-107"@ && opt_text(diagnostic.detail) == Some(error)),
        json_document(line@) matches Ok(message) ==> (json_object(message) matches Some(members)
            ==> {
            let awaited = members.contains_key("id"@) && json_u64(members["id"@]) == Some(
                if session is Greeting {
                    1u64
                } else {
                    2u64
                },
            );
            &&& awaited && members.contains_key("error"@) ==> {
                let shown = json_text(members["error"@]);
                &&& step matches SessionStep::Fail(diagnostic) && opt_text(diagnostic.detail)
                    == Some(shown) && if holds_text(lower(shown), "logged"@) || holds_text(
                    lower(shown),
                    "auth"@,
                ) {
                    diagnostic.code@ == "CRV-202"@
                } else {
                    diagnostic.code@ == "CRV-108"@
                }
            }
            &&& awaited && !members.contains_key("error"@) && !members.contains_key("result"@)
                ==> (step matches SessionStep::Fail(diagnostic) && diagnostic.code@ == "CRV-109"@)
            &&& !awaited ==> step == SessionStep::Wait(session)
        }),
        json_document(line@) matches Ok(message) ==> json_object(message) is None ==> step
            == SessionStep::Wait(session),
{
    assert(is_next(session, SessionEvent::Line(line), step));
    if let SessionStep::Fail(diagnostic) = step {
        assert(diagnostic@.code == diagnostic.code@);
        assert(diagnostic@.detail == opt_text(diagnostic.detail));
    }
}

/// A server that falls silent before the answer is a failure, by what happened; after the answer
/// the answer stands.
pub proof fn law_silence_before_and_after_the_answer(
    session: Session,
    event: SessionEvent,
    step: SessionStep,
)
    requires
        call_ensures(Session::next, (session, event), step),
    ensures
        session matches Session::Collecting { left: _, result } ==> event is Closed
            || event is TimedOut ==> step == SessionStep::Finish(result),
        !(session is Collecting) && event is Closed ==> (step matches SessionStep::Fail(diagnostic)
            && diagnostic.code@ == "CRV-110"@ && diagnostic.detail is None),
        !(session is Collecting) && event is TimedOut ==> (step matches SessionStep::Fail(
            diagnostic,
        ) && diagnostic.code@ == "CRV-111"@ && diagnostic.detail is None),
        event matches SessionEvent::ReadFailed(error) ==> (step matches SessionStep::Fail(
            diagnostic,
        ) && diagnostic.code@ == "CRV-106"@ && opt_text(diagnostic.detail) == Some(error@)),
{
    assert(is_next(session, event, step));
    if let SessionStep::Fail(diagnostic) = step {
        assert(diagnostic@.code == diagnostic.code@);
        assert(diagnostic@.detail == opt_text(diagnostic.detail));
    }
}

/// Every line after the answer takes one from those that are left: a notice of changed rate limits
/// is merged into the answer, and everything else leaves the answer as it is.
pub proof fn law_lines_after_the_answer(
    left: u8,
    result: Value,
    line: String,
    message: Value,
    step: SessionStep,
)
    requires
        call_ensures(
            Session::next,
            (Session::Collecting { left, result }, SessionEvent::Line(line)),
            step,
        ),
        json_document(line@) == Ok::<Value, Seq<char>>(message),
    ensures
        ({
            let after = match step {
                SessionStep::Finish(after) => after,
                SessionStep::Wait(Session::Collecting { left: _, result: after }) => after,
                _ => result,
            };
            &&& left <= 1 ==> step == SessionStep::Finish(after)
            &&& left > 1 ==> step == SessionStep::Wait(
                Session::Collecting { left: (left - 1) as u8, result: after },
            )
            &&& json_object(message) matches Some(members) ==> members.contains_key("method"@)
                && json_str(members["method"@]) == Some("account/rateLimits/updated"@)
                && members.contains_key("params"@) ==> is_merged(
                result,
                members["params"@],
                after,
            )
            &&& !(json_object(message) matches Some(members) && members.contains_key("method"@)
                && json_str(members["method"@]) == Some("account/rateLimits/updated"@)
                && members.contains_key("params"@)) ==> after == result
        }),
{
    assert(is_next(Session::Collecting { left, result }, SessionEvent::Line(line), step));
    assert(is_next_heard(left, result, message, step));
    let after = choose|after: Value|
        #[trigger] is_updated(result, message, after) && is_after_update(left, after, step);
    assert(is_updated(result, message, after));
}

/// A channel that fails is told by what failed.
pub proof fn law_channel_failures_are_told_apart(failure: ChannelFailure, diagnostic: Diagnostic)
    requires
        call_ensures(channel_failure, (failure,), diagnostic),
    ensures
        failure matches ChannelFailure::Start(error) ==> diagnostic.code@ == "CRV-101"@ && opt_text(
            diagnostic.detail,
        ) == Some(error@),
        failure is NoInput ==> diagnostic.code@ == "CRV-102"@ && diagnostic.detail is None,
        failure is NoOutput ==> diagnostic.code@ == "CRV-103"@ && diagnostic.detail is None,
        failure matches ChannelFailure::Write(error) ==> diagnostic.code@ == "CRV-105"@ && opt_text(
            diagnostic.detail,
        ) == Some(error@),
{
    assert(diagnostic@ == channel_report(failure));
    assert(diagnostic@.code == diagnostic.code@);
    assert(diagnostic@.detail == opt_text(diagnostic.detail));
}

/// Merging in place makes the answer the merged one.
pub proof fn law_merging_changes_the_answer_in_place(base: &mut Value, update: Value)
    requires
        call_ensures(merge_sparse_update, (base, &update), ()),
    ensures
        is_merged(*old(base), update, *final(base)),
{
}

} // verus!
