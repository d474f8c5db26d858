//! What helper commands print: process lists, proxy settings and probe results.

use crate::diagnostic::{report, Diagnostic, Report};
use crate::double::{
    is_multiple, lemma_scaled_bounds, nearest_whole, rounds_to, scaled, Double,
};
use crate::text::{
    begins_with, concat, decimal, digit_char, first_of, holds_text, last_of,
    law_numerals_read_back, law_parsed_numerals, law_parts_at_the_first, law_parts_at_the_last,
    law_words_read_back, lemma_first_of_is, lemma_last_of, lemma_parts_at_the_first,
    lemma_trimmed_twice, lemma_without_leading_is, lemma_without_trailing_is, lines, lower, lower_char,
    one_of,
    opt_text, parse_u16, parsed_u16, pieces, rsplit_once, same_ignoring_case, same_text, solid,
    split_any, split_at_first, split_at_last, split_lines, split_once, split_words, strip,
    strip_prefix, stripped, take_chars, texts, to_lower, trim, trimmed, white_char, words,
};
use vstd::arithmetic::div_mod::{lemma_fundamental_div_mod, lemma_mod_bound};
use vstd::arithmetic::power2::{lemma_pow2_pos, pow2};
use vstd::prelude::*;
use vstd::string::StringExecFns;

verus! {

/// A command that ended.
#[derive(Debug, Clone)]
pub struct CommandOutput {
    pub success: bool,
    pub stdout: String,
}

/// A command that gave no output.
#[derive(Debug, Clone)]
pub enum CommandFailure {
    TimedOut,
    Failed(String),
}

/// The failure of a command, under the code and message of what it was for.
pub open spec fn command_report(
    failure: CommandFailure,
    code: Seq<char>,
    message: Seq<char>,
) -> Report {
    match failure {
        CommandFailure::TimedOut => report(code, message, "The check timed out"@),
        CommandFailure::Failed(error) => report(code, message, error@),
    }
}

/// The failure of a command, under the code and message of what it was for.
pub fn command_failure(failure: &CommandFailure, code: &'static str, message: &str) -> (diagnostic:
    Diagnostic)
    ensures
        diagnostic@ == command_report(*failure, code@, message@),
{
    match failure {
        CommandFailure::TimedOut => Diagnostic::new(code, message).with_detail(
            "The check timed out",
        ),
        CommandFailure::Failed(error) => Diagnostic::new(code, message).with_detail(error.as_str()),
    }
}

/// What the first text gives for which `find` gives something.
pub open spec fn find_map(
    list: Seq<Seq<char>>,
    find: spec_fn(Seq<char>) -> Option<Seq<char>>,
) -> Option<Seq<char>>
    decreases list.len(),
{
    if list.len() == 0 {
        None
    } else {
        match find(list[0]) {
            Some(found) => Some(found),
            None => find_map(list.skip(1), find),
        }
    }
}

/// The first text that gives something decides.
proof fn lemma_find_map(
    list: Seq<Seq<char>>,
    find: spec_fn(Seq<char>) -> Option<Seq<char>>,
    at: int,
)
    requires
        0 <= at <= list.len(),
        forall|i: int| 0 <= i < at ==> find(#[trigger] list[i]) is None,
        at < list.len() ==> find(list[at]) is Some,
    ensures
        find_map(list, find) == (if at < list.len() {
            find(list[at])
        } else {
            None
        }),
    decreases list.len(),
{
    if list.len() > 0 && at > 0 {
        let rest = list.skip(1);
        assert forall|i: int| 0 <= i < at - 1 implies find(#[trigger] rest[i]) is None by {
            assert(rest[i] == list[i + 1]);
        }
        lemma_find_map(rest, find, at - 1);
    }
}

/// The names of processes, none of them twice.
#[derive(Debug)]
pub struct ProcessSet {
    names: Vec<String>,
}

impl View for ProcessSet {
    type V = Set<Seq<char>>;

    closed spec fn view(&self) -> Set<Seq<char>> {
        texts(self.names@).to_set()
    }
}

impl ProcessSet {
    #[verifier::type_invariant]
    closed spec fn well_formed(self) -> bool {
        texts(self.names@).no_duplicates()
    }

    /// No processes.
    pub fn new() -> (set: ProcessSet)
        ensures
            set@ == Set::<Seq<char>>::empty(),
    {
        let set = ProcessSet { names: Vec::new() };
        proof {
            assert(set@ =~= Set::<Seq<char>>::empty());
        }
        set
    }

    /// Whether a process is in the set.
    pub fn contains(&self, name: &str) -> (holds: bool)
        ensures
            holds == self@.contains(name@),
    {
        let mut i: usize = 0;
        while i < self.names.len()
            invariant
                i <= self.names.len(),
                forall|j: int| 0 <= j < i ==> (#[trigger] self.names@[j])@ != name@,
            decreases self.names.len() - i,
        {
            if same_text(self.names[i].as_str(), name) {
                proof {
                    assert(texts(self.names@)[i as int] == name@);
                }
                return true;
            }
            i = i + 1;
        }
        proof {
            if texts(self.names@).contains(name@) {
                let k = choose|k: int|
                    0 <= k < texts(self.names@).len() && texts(self.names@)[k] == name@;
                assert(self.names@[k]@ == name@);
            }
        }
        false
    }

    /// The set with one process more.
    pub fn with(self, name: String) -> (set: ProcessSet)
        ensures
            set@ == self@.insert(name@),
    {
        proof {
            use_type_invariant(&self);
        }
        if self.contains(name.as_str()) {
            proof {
                assert(self@.insert(name@) =~= self@);
            }
            return self;
        }
        let ghost before = texts(self.names@);
        let ghost old_set = self@;
        let mut names = self.names;
        names.push(name);
        proof {
            let after = texts(names@);
            assert(after =~= before.push(name@));
            assert forall|i: int, j: int|
                0 <= i < after.len() && 0 <= j < after.len() && i != j implies after[i]
                != after[j] by {
                if i == before.len() {
                    assert(before.contains(before[j]));
                }
                if j == before.len() {
                    assert(before.contains(before[i]));
                }
            }
            assert forall|other: Seq<char>|
                after.contains(other) == (before.contains(other) || other == name@) by {
                if before.contains(other) {
                    let k = choose|k: int| 0 <= k < before.len() && before[k] == other;
                    assert(after[k] == other);
                }
                if other == name@ {
                    assert(after[before.len() as int] == other);
                }
            }
            assert(after.to_set() =~= old_set.insert(name@));
        }
        ProcessSet { names }
    }
}

/// The process that a line of `ps` names.
pub open spec fn ps_name(line: Seq<char>) -> Option<Seq<char>> {
    let name = lower(trimmed(line));
    if name.len() > 0 {
        Some(name)
    } else {
        None
    }
}

/// The process that a line of `tasklist` names: its first field, which stands in quotes.
pub open spec fn tasklist_name(line: Seq<char>) -> Option<Seq<char>> {
    let inner = trimmed(line);
    if begins_with(inner, "\""@) {
        let rest = inner.skip(1);
        Some(lower(rest.take(first_of(rest, one_of(seq!['"'])))))
    } else {
        None
    }
}

/// The processes that lines name, each by what `name` finds in it.
pub open spec fn names_in(
    list: Seq<Seq<char>>,
    name: spec_fn(Seq<char>) -> Option<Seq<char>>,
) -> Set<Seq<char>> {
    Set::new(
        |found: Seq<char>|
            exists|i: int| 0 <= i < list.len() && name(#[trigger] list[i]) == Some(found),
    )
}

/// One line more adds the process that it names.
proof fn lemma_names_in(
    list: Seq<Seq<char>>,
    name: spec_fn(Seq<char>) -> Option<Seq<char>>,
    i: int,
)
    requires
        0 <= i < list.len(),
    ensures
        names_in(list.take(i + 1), name) == (match name(list[i]) {
            Some(found) => names_in(list.take(i), name).insert(found),
            None => names_in(list.take(i), name),
        }),
{
    let before = list.take(i);
    let after = list.take(i + 1);
    let right = match name(list[i]) {
        Some(found) => names_in(before, name).insert(found),
        None => names_in(before, name),
    };
    assert forall|found: Seq<char>| names_in(after, name).contains(found) == right.contains(
        found,
    ) by {
        if names_in(after, name).contains(found) {
            let k = choose|k: int| 0 <= k < after.len() && name(#[trigger] after[k]) == Some(found);
            if k < i {
                assert(before[k] == after[k]);
            }
        }
        if names_in(before, name).contains(found) {
            let k = choose|k: int|
                0 <= k < before.len() && name(#[trigger] before[k]) == Some(found);
            assert(after[k] == before[k]);
        }
        assert(after[i] == list[i]);
    }
    assert(names_in(after, name) =~= right);
}

/// The processes in the output of `ps`.
pub fn parse_process_list(raw: &str) -> (processes: ProcessSet)
    ensures
        processes@ == names_in(lines(raw@), |line: Seq<char>| ps_name(line)),
{
    let list = split_lines(raw);
    let ghost name = |line: Seq<char>| ps_name(line);
    let mut processes = ProcessSet::new();
    let mut i: usize = 0;
    proof {
        assert(names_in(texts(list@).take(0), name) =~= Set::<Seq<char>>::empty());
    }
    while i < list.len()
        invariant
            i <= list.len(),
            name == (|line: Seq<char>| ps_name(line)),
            processes@ == names_in(texts(list@).take(i as int), name),
        decreases list.len() - i,
    {
        let found = to_lower(trim(list[i].as_str()));
        proof {
            lemma_names_in(texts(list@), name, i as int);
            assert(texts(list@)[i as int] == list@[i as int]@);
        }
        if !found.as_str().is_empty() {
            processes = processes.with(found);
        }
        i = i + 1;
    }
    proof {
        assert(texts(list@).take(i as int) =~= texts(list@));
    }
    processes
}

/// The processes in the output of `tasklist`.
pub fn parse_tasklist(raw: &str) -> (processes: ProcessSet)
    ensures
        processes@ == names_in(lines(raw@), |line: Seq<char>| tasklist_name(line)),
{
    let list = split_lines(raw);
    let quote: Vec<char> = vec!['"'];
    let ghost name = |line: Seq<char>| tasklist_name(line);
    let mut processes = ProcessSet::new();
    let mut i: usize = 0;
    proof {
        assert(quote@ =~= seq!['"']);
        assert(names_in(texts(list@).take(0), name) =~= Set::<Seq<char>>::empty());
    }
    while i < list.len()
        invariant
            i <= list.len(),
            quote@ == seq!['"'],
            name == (|line: Seq<char>| tasklist_name(line)),
            processes@ == names_in(texts(list@).take(i as int), name),
        decreases list.len() - i,
    {
        proof {
            lemma_names_in(texts(list@), name, i as int);
            assert(texts(list@)[i as int] == list@[i as int]@);
            reveal_strlit("\"");
        }
        if let Some(rest) = strip_prefix(trim(list[i].as_str()), "\"") {
            let at: usize = crate::text::find_any(rest, &quote);
            let found = to_lower(take_chars(rest, at));
            processes = processes.with(found);
        }
        i = i + 1;
    }
    proof {
        assert(texts(list@).take(i as int) =~= texts(list@));
    }
    processes
}

/// A line of the registry that switches the system proxy on.
pub open spec fn enables_proxy(line: Seq<char>) -> bool {
    let tokens = words(line);
    &&& tokens.len() >= 3
    &&& lower(tokens[0]) == lower("ProxyEnable"@)
    &&& lower(tokens[1]) == lower("REG_DWORD"@)
    &&& lower(tokens[2]) == lower("0x1"@)
}

/// Whether the registry switches the system proxy on.
pub fn registry_flag_is_enabled(raw: &str) -> (enabled: bool)
    ensures
        enabled == exists|i: int|
            0 <= i < lines(raw@).len() && enables_proxy(#[trigger] lines(raw@)[i]),
{
    let list = split_lines(raw);
    let mut i: usize = 0;
    while i < list.len()
        invariant
            i <= list.len(),
            texts(list@) == lines(raw@),
            forall|j: int| 0 <= j < i ==> !enables_proxy(#[trigger] lines(raw@)[j]),
        decreases list.len() - i,
    {
        let tokens = split_words(list[i].as_str());
        proof {
            assert(texts(list@)[i as int] == list@[i as int]@);
            assert(texts(tokens@).len() == tokens@.len());
            assert(forall|k: int|
                0 <= k < tokens@.len() ==> #[trigger] tokens@[k]@ == texts(tokens@)[k]);
        }
        if tokens.len() >= 3 && same_ignoring_case(tokens[0].as_str(), "ProxyEnable")
            && same_ignoring_case(tokens[1].as_str(), "REG_DWORD") && same_ignoring_case(
            tokens[2].as_str(),
            "0x1",
        ) {
            assert(enables_proxy(lines(raw@)[i as int]));
            return true;
        }
        i = i + 1;
    }
    false
}

/// The value in a line of the registry that holds a string.
pub open spec fn registry_string(line: Seq<char>) -> Option<Seq<char>> {
    match split_at_first(line, "REG_SZ"@) {
        Some((_, value)) => Some(trimmed(value)),
        None => None,
    }
}

/// The server in a proxy setting for one protocol.
pub open spec fn server_for(segment: Seq<char>, protocol: Seq<char>) -> Option<Seq<char>> {
    let inner = trimmed(segment);
    if begins_with(inner, protocol) {
        Some(inner.skip(protocol.len() as int))
    } else {
        None
    }
}

/// The server for one protocol in a proxy setting that lists several.
pub open spec fn listed_server(value: Seq<char>, protocol: Seq<char>) -> Option<Seq<char>> {
    find_map(
        pieces(value, one_of(seq![';'])),
        |segment: Seq<char>| server_for(segment, protocol),
    )
}

/// The server that a proxy setting means: the one for secure connections, else the one for
/// plain connections, else the whole setting.
pub open spec fn server_in(value: Seq<char>) -> Seq<char> {
    match listed_server(value, "https="@) {
        Some(server) => trimmed(server),
        None => match listed_server(value, "http="@) {
            Some(server) => trimmed(server),
            None => trimmed(value),
        },
    }
}

/// The proxy server in the registry.
pub open spec fn registry_server(raw: Seq<char>) -> Option<Seq<char>> {
    match find_map(lines(raw), |line: Seq<char>| registry_string(line)) {
        Some(value) => if server_in(value).len() > 0 {
            Some(server_in(value))
        } else {
            None
        },
        None => None,
    }
}

/// The server for one protocol in a proxy setting that lists several.
fn find_server(value: &str, protocol: &str) -> (server: Option<String>)
    ensures
        opt_text(server) == listed_server(value@, protocol@),
{
    let semicolon: Vec<char> = vec![';'];
    proof {
        assert(semicolon@ =~= seq![';']);
    }
    let segments = split_any(value, &semicolon);
    let ghost list = pieces(value@, one_of(seq![';']));
    let ghost find = |segment: Seq<char>| server_for(segment, protocol@);
    let mut i: usize = 0;
    while i < segments.len()
        invariant
            i <= segments.len(),
            texts(segments@) == list,
            find == (|segment: Seq<char>| server_for(segment, protocol@)),
            list == pieces(value@, one_of(seq![';'])),
            forall|j: int| 0 <= j < i ==> find(#[trigger] list[j]) is None,
        decreases segments.len() - i,
    {
        let inner: &str = trim(segments[i].as_str());
        proof {
            assert(list[i as int] == segments@[i as int]@);
        }
        if let Some(server) = strip_prefix(inner, protocol) {
            proof {
                lemma_find_map(list, find, i as int);
            }
            return Some(server.to_owned());
        }
        i = i + 1;
    }
    proof {
        lemma_find_map(list, find, i as int);
    }
    None
}

/// The proxy server in the registry.
pub fn extract_proxy_server(raw: &str) -> (server: Option<String>)
    ensures
        opt_text(server) == registry_server(raw@),
{
    let rows = split_lines(raw);
    let ghost list = lines(raw@);
    let ghost find = |line: Seq<char>| registry_string(line);
    let mut i: usize = 0;
    while i < rows.len()
        invariant
            i <= rows.len(),
            texts(rows@) == list,
            list == lines(raw@),
            find == (|line: Seq<char>| registry_string(line)),
            forall|j: int| 0 <= j < i ==> find(#[trigger] list[j]) is None,
        decreases rows.len() - i,
    {
        proof {
            assert(list[i as int] == rows@[i as int]@);
        }
        if let Some((_, after)) = split_once(rows[i].as_str(), "REG_SZ") {
            proof {
                lemma_find_map(list, find, i as int);
            }
            let value: &str = trim(after);
            let server: String = match find_server(value, "https=") {
                Some(server) => trim(server.as_str()).to_owned(),
                None => match find_server(value, "http=") {
                    Some(server) => trim(server.as_str()).to_owned(),
                    None => trim(value).to_owned(),
                },
            };
            if server.as_str().is_empty() {
                return None;
            }
            return Some(server);
        }
        i = i + 1;
    }
    proof {
        lemma_find_map(list, find, i as int);
    }
    None
}

/// The value in a line that names the field, with a colon between them.
pub open spec fn field_in(line: Seq<char>, name: Seq<char>) -> Option<Seq<char>> {
    match split_at_first(line, ":"@) {
        Some((key, value)) => if lower(trimmed(key)) == lower(name) {
            Some(trimmed(value))
        } else {
            None
        },
        None => None,
    }
}

/// The value of the first line that names the field.
pub open spec fn field(raw: Seq<char>, name: Seq<char>) -> Option<Seq<char>> {
    find_map(lines(raw), |line: Seq<char>| field_in(line, name))
}

/// The proxy for secure connections in the output of `scutil`: its host and port, where it is
/// switched on.
pub open spec fn scutil_proxy(raw: Seq<char>) -> Option<Seq<char>> {
    match field(raw, "HTTPSEnable"@) {
        Some(flag) => if lower(flag) != lower("1"@) {
            None
        } else {
            match field(raw, "HTTPSProxy"@) {
                Some(host) => if host.len() == 0 {
                    None
                } else {
                    let port = match field(raw, "HTTPSPort"@) {
                        Some(port) => port,
                        None => "80"@,
                    };
                    Some(host + ":"@ + port)
                },
                None => None,
            }
        },
        None => None,
    }
}

/// The value of the first line that names the field.
fn find_field(raw: &str, name: &str) -> (value: Option<String>)
    ensures
        opt_text(value) == field(raw@, name@),
{
    let rows = split_lines(raw);
    let ghost list = lines(raw@);
    let ghost find = |line: Seq<char>| field_in(line, name@);
    let mut i: usize = 0;
    while i < rows.len()
        invariant
            i <= rows.len(),
            texts(rows@) == list,
            list == lines(raw@),
            find == (|line: Seq<char>| field_in(line, name@)),
            forall|j: int| 0 <= j < i ==> find(#[trigger] list[j]) is None,
        decreases rows.len() - i,
    {
        proof {
            assert(list[i as int] == rows@[i as int]@);
        }
        if let Some((key, value)) = split_once(rows[i].as_str(), ":") {
            if same_ignoring_case(trim(key), name) {
                proof {
                    lemma_find_map(list, find, i as int);
                }
                return Some(trim(value).to_owned());
            }
        }
        i = i + 1;
    }
    proof {
        lemma_find_map(list, find, i as int);
    }
    None
}

/// The proxy for secure connections in the output of `scutil`.
pub fn extract_scutil_proxy(raw: &str) -> (proxy: Option<String>)
    ensures
        opt_text(proxy) == scutil_proxy(raw@),
{
    let enabled: bool = match find_field(raw, "HTTPSEnable") {
        Some(flag) => same_ignoring_case(flag.as_str(), "1"),
        None => false,
    };
    if !enabled {
        return None;
    }
    let host: String = match find_field(raw, "HTTPSProxy") {
        Some(host) => host,
        None => {
            return None;
        },
    };
    if host.as_str().is_empty() {
        return None;
    }
    let port: String = match find_field(raw, "HTTPSPort") {
        Some(port) => port,
        None => "80".to_owned(),
    };
    let mut proxy = concat(host.as_str(), ":");
    proxy.append(port.as_str());
    Some(proxy)
}

/// A proxy address without the scheme that it may begin with.
pub open spec fn without_scheme(proxy: Seq<char>) -> Seq<char> {
    let inner = trimmed(proxy);
    if begins_with(inner, "http://"@) {
        inner.skip("http://"@.len() as int)
    } else if begins_with(inner, "https://"@) {
        inner.skip("https://"@.len() as int)
    } else {
        inner
    }
}

/// A proxy on this machine: a loopback host and a port above zero.
pub open spec fn loopback(proxy: Seq<char>) -> bool {
    match split_at_last(without_scheme(proxy), ':') {
        Some((host, port)) => {
            let bare = stripped(host, one_of(seq!['[', ']']));
            &&& bare == "127.0.0.1"@ || bare == "localhost"@ || bare == "::1"@
            &&& parsed_u16(port) matches Some(number) && number > 0
        },
        None => false,
    }
}

/// Whether a proxy is on this machine.
pub fn is_loopback_proxy(proxy: &str) -> (holds: bool)
    ensures
        holds == loopback(proxy@),
{
    let inner: &str = trim(proxy);
    let endpoint: &str = match strip_prefix(inner, "http://") {
        Some(rest) => rest,
        None => match strip_prefix(inner, "https://") {
            Some(rest) => rest,
            None => inner,
        },
    };
    match rsplit_once(endpoint, ':') {
        Some((host, port)) => {
            let brackets: Vec<char> = vec!['[', ']'];
            proof {
                assert(brackets@ =~= seq!['[', ']']);
            }
            let bare: &str = strip(host, &brackets);
            let known: bool = same_text(bare, "127.0.0.1") || same_text(bare, "localhost")
                || same_text(bare, "::1");
            match parse_u16(port) {
                Some(number) => known && number > 0,
                None => false,
            }
        },
        None => false,
    }
}

/// What a probe of a route gave.
#[derive(Debug, Clone)]
pub struct RouteProbeResult {
    pub http_status: u16,
    pub latency_ms: u64,
    pub body: String,
}

/// The line of figures that ends the output of a probe, as words.
pub open spec fn figures(raw: Seq<char>) -> Seq<Seq<char>> {
    match split_at_last(raw, '\n') {
        Some((_, last)) => words(last),
        None => seq![],
    }
}

/// The seconds that a probe took, as it prints them: the second word of its last line.
pub open spec fn seconds_field(raw: Seq<char>) -> Option<Seq<char>> {
    if figures(raw).len() >= 2 {
        Some(figures(raw)[1])
    } else {
        None
    }
}

/// The seconds that a probe took, as it prints them.
pub fn latency_field(raw: &str) -> (seconds: Option<String>)
    ensures
        opt_text(seconds) == seconds_field(raw@),
{
    match rsplit_once(raw, '\n') {
        Some((_, last)) => {
            let fields = split_words(last);
            proof {
                assert(texts(fields@).len() == fields@.len());
            }
            if fields.len() >= 2 {
                proof {
                    assert(fields@[1]@ == texts(fields@)[1]);
                }
                Some(fields[1].clone())
            } else {
                None
            }
        },
        None => None,
    }
}

/// `latency` is a number of seconds as whole milliseconds, the nearest.
pub open spec fn is_milliseconds(seconds: Double, latency: u64) -> bool {
    exists|product: Double|
        #[trigger] is_multiple(seconds, 1000, product) && latency == nearest_whole(product)
}

/// `result` is what a probe printed, where its figures are read as `seconds`: a status, a
/// latency that is neither negative nor infinite, and the trimmed rest.
pub open spec fn is_probe_result(
    raw: Seq<char>,
    seconds: Option<Double>,
    result: Option<RouteProbeResult>,
) -> bool {
    let owed = figures(raw).len() >= 2 && parsed_u16(figures(raw)[0]) is Some && seconds is Some
        && seconds->Some_0.finite() && seconds->Some_0.value() >= 0;
    match result {
        Some(result) => {
            &&& owed
            &&& Some(result.http_status) == parsed_u16(figures(raw)[0])
            &&& is_milliseconds(seconds->Some_0, result.latency_ms)
            &&& split_at_last(raw, '\n') matches Some((body, _)) && result.body@ == trimmed(body)
        },
        None => !owed,
    }
}

/// What a probe printed. `seconds` is the number that its [`latency_field`] denotes.
pub fn parse_curl_output(raw: &str, seconds: Option<Double>) -> (result: Option<RouteProbeResult>)
    ensures
        is_probe_result(raw@, seconds, result),
{
    let (body, last) = match rsplit_once(raw, '\n') {
        Some(halves) => halves,
        None => {
            return None;
        },
    };
    let fields = split_words(last);
    proof {
        assert(texts(fields@).len() == fields@.len());
    }
    if fields.len() < 2 {
        return None;
    }
    proof {
        assert(fields@[0]@ == texts(fields@)[0]);
    }
    let http_status: u16 = match parse_u16(fields[0].as_str()) {
        Some(status) => status,
        None => {
            return None;
        },
    };
    let seconds: Double = match seconds {
        Some(seconds) => seconds,
        None => {
            return None;
        },
    };
    let zero = Double { bits: 0 };
    proof {
        lemma_scaled_bounds(0);
    }
    if !seconds.is_finite() || seconds.lt(&zero) {
        return None;
    }
    let product = seconds.times(1000);
    let latency_ms: u64 = product.round();
    proof {
        assert(is_multiple(seconds, 1000, product));
    }
    Some(RouteProbeResult { http_status, latency_ms, body: trim(body).to_owned() })
}

/// What a probe prints is read back: its status, and the trimmed reply before it, whatever lines
/// that holds.
pub proof fn law_a_probe_reads_back(
    body: Seq<char>,
    status: u16,
    shown_seconds: Seq<char>,
    seconds: Double,
    result: Option<RouteProbeResult>,
)
    requires
        shown_seconds.len() > 0,
        solid(shown_seconds),
        seconds.finite(),
        seconds.value() >= 0,
        is_probe_result(
            body + seq!['\n'] + (decimal(status as nat) + seq![' '] + shown_seconds),
            Some(seconds),
            result,
        ),
    ensures
        seconds_field(body + seq!['\n'] + (decimal(status as nat) + seq![' '] + shown_seconds))
            == Some(shown_seconds),
        result matches Some(probe) && probe.http_status == status && probe.body@ == trimmed(body),
{
    let shown_status = decimal(status as nat);
    let last = shown_status + seq![' '] + shown_seconds;
    law_numerals_read_back(status as nat);
    law_parsed_numerals(status);
    assert forall|i: int| 0 <= i < shown_status.len() implies !white_char(#[trigger] shown_status[i]) by {
        assert(digit_char(shown_status[i]));
    }
    assert forall|i: int| 0 <= i < last.len() implies last[i] != '\n' by {
        if i < shown_status.len() {
            assert(last[i] == shown_status[i]);
        } else if i > shown_status.len() {
            assert(last[i] == shown_seconds[i - shown_status.len() - 1]);
        }
    }
    law_parts_at_the_last(body, '\n', last);
    law_words_read_back(shown_status, shown_seconds);
}

/// The running processes in the output of `ps`: each line that is not blank names one, white space
/// around it aside and in lower case.
pub proof fn law_each_line_of_ps_names_a_process(raw: &str, processes: ProcessSet, name: Seq<char>)
    requires
        call_ensures(parse_process_list, (raw,), processes),
    ensures
        processes@.contains(name) <==> name.len() > 0 && exists|i: int|
            0 <= i < lines(raw@).len() && name == lower(trimmed(#[trigger] lines(raw@)[i])),
{
    let list = lines(raw@);
    let find = |line: Seq<char>| ps_name(line);
    if processes@.contains(name) {
        let i = choose|i: int| 0 <= i < list.len() && find(#[trigger] list[i]) == Some(name);
        assert(name == lower(trimmed(list[i])));
    }
    if name.len() > 0 && exists|i: int|
        0 <= i < list.len() && name == lower(trimmed(#[trigger] list[i])) {
        let i = choose|i: int| 0 <= i < list.len() && name == lower(trimmed(#[trigger] list[i]));
        assert(find(list[i]) == Some(name));
    }
}

/// The running processes in the output of `tasklist`: a line that begins with a quotation mark
/// names what stands up to the next one, in lower case; no other line names any.
pub proof fn law_quotes_name_a_process(raw: &str, processes: ProcessSet, name: Seq<char>)
    requires
        call_ensures(parse_tasklist, (raw,), processes),
        !name.contains('"'),
    ensures
        forall|i: int, rest: Seq<char>|
            0 <= i < lines(raw@).len() && trimmed(#[trigger] lines(raw@)[i]) == #[trigger] (seq!['"']
                + name + seq!['"'] + rest) ==> processes@.contains(lower(name)),
        (forall|i: int|
            0 <= i < lines(raw@).len() ==> (trimmed(#[trigger] lines(raw@)[i]).len() == 0 || trimmed(
                lines(raw@)[i],
            )[0] != '"')) ==> processes@ == Set::<Seq<char>>::empty(),
{
    let list = lines(raw@);
    let find = |line: Seq<char>| tasklist_name(line);
    let class = one_of(seq!['"']);
    reveal_strlit("\"");
    assert(seq!['"'][0] == '"');
    assert forall|i: int, rest: Seq<char>|
        0 <= i < list.len() && trimmed(#[trigger] list[i]) == #[trigger] (seq!['"'] + name
            + seq!['"'] + rest) implies processes@.contains(lower(name)) by {
        let inner = trimmed(list[i]);
        assert(inner.subrange(0, 1) =~= "\""@);
        let after = inner.skip(1);
        let n = name.len() as int;
        assert forall|k: int| 0 <= k < n implies !class(#[trigger] after[k]) by {
            assert(after[k] == name[k]);
            assert(name.contains(name[k]));
        }
        assert(after[n] == '"');
        assert(class(after[n]));
        lemma_first_of_is(after, class, n);
        assert(after.take(n) =~= name);
        assert(find(list[i]) == Some(lower(name)));
    }
    if forall|i: int|
        0 <= i < list.len() ==> (trimmed(#[trigger] list[i]).len() == 0 || trimmed(list[i])[0]
            != '"') {
        assert forall|found: Seq<char>| !processes@.contains(found) by {
            if processes@.contains(found) {
                let i = choose|i: int|
                    0 <= i < list.len() && find(#[trigger] list[i]) == Some(found);
                assert(trimmed(list[i]).subrange(0, 1)[0] == '"');
            }
        }
        assert(processes@ =~= Set::<Seq<char>>::empty());
    }
}

/// A line of the registry has the proxy on where it says so in three words: the name of the flag,
/// its type, and the number one, in whatever case; and without such a line the proxy is not on.
pub proof fn law_the_registry_flag_is_three_words(line: Seq<char>, raw: &str, enabled: bool)
    requires
        call_ensures(registry_flag_is_enabled, (raw,), enabled),
    ensures
        enables_proxy(line) <==> words(line).len() >= 3 && lower(words(line)[0]) == "proxyenable"@
            && lower(words(line)[1]) == "reg_dword"@ && lower(words(line)[2]) == "0x1"@,
        enabled ==> exists|i: int|
            0 <= i < lines(raw@).len() && enables_proxy(#[trigger] lines(raw@)[i]),
{
    reveal_strlit("ProxyEnable");
    reveal_strlit("REG_DWORD");
    reveal_strlit("0x1");
    reveal_strlit("proxyenable");
    reveal_strlit("reg_dword");
    assert(lower("ProxyEnable"@) =~= "proxyenable"@);
    assert(lower("REG_DWORD"@) =~= "reg_dword"@);
    assert(lower("0x1"@) =~= "0x1"@);
}

/// What a line of the registry holds as a string follows its type, white space around it aside;
/// and of a setting that lists servers by protocol the one for secure connections is meant, else
/// the one for plain ones; a setting that lists none is the server itself.
pub proof fn law_the_registry_server_follows_its_type(
    raw: &str,
    server: Option<String>,
    before: Seq<char>,
    value: Seq<char>,
    at: int,
)
    requires
        call_ensures(extract_proxy_server, (raw,), server),
        0 <= at < lines(raw@).len(),
        forall|i: int| 0 <= i < at ==> !holds_text(#[trigger] lines(raw@)[i], "REG_SZ"@),
        lines(raw@)[at] == before + "REG_SZ"@ + value,
        forall|k: int|
            0 <= k < before.len() ==> (#[trigger] lines(raw@)[at].subrange(k, k + 6)) != "REG_SZ"@,
        !trimmed(value).contains(';'),
    ensures
        ({
            let setting = trimmed(value);
            &&& !begins_with(setting, "https="@) && !begins_with(setting, "http="@)
                && trimmed(setting).len() > 0 ==> opt_text(server) == Some(trimmed(setting))
            &&& forall|host: Seq<char>|
                trimmed(setting) == #[trigger] ("https="@ + host) && trimmed(host).len() > 0
                    ==> opt_text(server) == Some(trimmed(host))
            &&& trimmed(setting).len() == 0 ==> server is None
        }),
{
    let list = lines(raw@);
    let find = |line: Seq<char>| registry_string(line);
    reveal_strlit("REG_SZ");
    reveal_strlit("https=");
    reveal_strlit("http=");
    assert forall|i: int| 0 <= i < at implies find(#[trigger] list[i]) is None by {
        lemma_parts_at_the_first(list[i], "REG_SZ"@);
        if split_at_first(list[i], "REG_SZ"@) is Some {
            assert(holds_text(list[i], "REG_SZ"@));
        }
    }
    assert forall|k: int| 0 <= k < before.len() implies #[trigger] (before + "REG_SZ"@
        + value).subrange(k, k + "REG_SZ"@.len()) != "REG_SZ"@ by {
        assert(list[at].subrange(k, k + 6) != "REG_SZ"@);
    }
    law_parts_at_the_first(before, "REG_SZ"@, value);
    assert(find(list[at]) == Some(trimmed(value)));
    lemma_find_map(list, find, at);
    let setting = trimmed(value);
    let class = one_of(seq![';']);
    assert(seq![';'][0] == ';');
    assert forall|i: int| 0 <= i < setting.len() implies !class(#[trigger] setting[i]) by {
        assert(setting.contains(setting[i]));
    }
    lemma_first_of_is(setting, class, setting.len() as int);
    let segments = pieces(setting, class);
    assert(segments =~= seq![setting]);
    let secure = |segment: Seq<char>| server_for(segment, "https="@);
    let plain = |segment: Seq<char>| server_for(segment, "http="@);
    assert(segments[0] == setting);
    lemma_trimmed_twice(value);
    if begins_with(trimmed(setting), "https="@) {
        lemma_find_map(segments, secure, 0);
        assert forall|host: Seq<char>| trimmed(setting) == #[trigger] ("https="@
            + host) implies trimmed(setting).skip(6) == host by {
            assert(trimmed(setting).skip(6) =~= host);
        }
    } else {
        lemma_find_map(segments, secure, 1);
        if begins_with(trimmed(setting), "http="@) {
            lemma_find_map(segments, plain, 0);
        } else {
            lemma_find_map(segments, plain, 1);
        }
        assert forall|host: Seq<char>| trimmed(setting) != #[trigger] ("https="@ + host) by {
            if trimmed(setting) == "https="@ + host {
                assert(trimmed(setting).subrange(0, 6) =~= "https="@);
            }
        }
    }
}

/// A proxy is on this machine where its host is `127.0.0.1`, `localhost` or `::1`, in brackets or
/// not, and its port a number above zero; a scheme before it and white space around it do not
/// matter. No other host is on this machine.
pub proof fn law_loopback_hosts(
    proxy: &str,
    holds: bool,
    scheme: Seq<char>,
    host: Seq<char>,
    port: u16,
    bracketed: bool,
)
    requires
        call_ensures(is_loopback_proxy, (proxy,), holds),
        scheme == ""@ || scheme == "http://"@ || scheme == "https://"@,
        host.len() > 0,
        !host.contains('['),
        !host.contains(']'),
        trimmed(proxy@) == scheme + ((if bracketed {
            seq!['['] + host + seq![']']
        } else {
            host
        }) + seq![':'] + decimal(port as nat)),
        scheme == ""@ ==> !begins_with(trimmed(proxy@), "http://"@) && !begins_with(
            trimmed(proxy@),
            "https://"@,
        ),
    ensures
        holds <==> port > 0 && (host == "127.0.0.1"@ || host == "localhost"@ || host == "::1"@),
{
    reveal_strlit("");
    reveal_strlit("http://");
    reveal_strlit("https://");
    let digits = decimal(port as nat);
    law_numerals_read_back(port as nat);
    law_parsed_numerals(port);
    let named = if bracketed {
        seq!['['] + host + seq![']']
    } else {
        host
    };
    let rest = named + seq![':'] + digits;
    let inner = trimmed(proxy@);
    assert(inner == scheme + rest);
    assert(without_scheme(proxy@) == rest) by {
        if scheme == "http://"@ {
            assert(inner.subrange(0, 7) =~= "http://"@);
            assert(inner.skip(7) =~= rest);
        } else if scheme == "https://"@ {
            assert(inner.subrange(0, 8) =~= "https://"@);
            assert(inner[4] == 's');
            if begins_with(inner, "http://"@) {
                assert(inner.subrange(0, 7)[4] == ':');
            }
            assert(inner.skip(8) =~= rest);
        } else {
            assert(inner =~= rest);
        }
    }
    assert(!digits.contains(':')) by {
        if digits.contains(':') {
            let k = choose|k: int| 0 <= k < digits.len() && digits[k] == ':';
            assert(digit_char(digits[k]));
        }
    }
    law_parts_at_the_last(named, ':', digits);
    let class = one_of(seq!['[', ']']);
    let marks = seq!['[', ']'];
    assert(marks[0] == '[' && marks[1] == ']');
    assert(class('[') && class(']'));
    assert forall|i: int| 0 <= i < host.len() implies !class(#[trigger] host[i]) by {
        assert(host.contains(host[i]));
        if marks.contains(host[i]) {
            let k = choose|k: int| 0 <= k < marks.len() && marks[k] == host[i];
        }
    }
    assert(stripped(named, class) == host) by {
        let n = host.len() as int;
        if bracketed {
            assert(named[0] == '[' && named[1] == host[0]);
            lemma_without_leading_is(named, class, 1);
            let tail = named.skip(1);
            assert(tail[n] == ']' && tail[n - 1] == host[n - 1]);
            lemma_without_trailing_is(tail, class, n);
            assert(tail.take(n) =~= host);
        } else {
            lemma_without_leading_is(named, class, 0);
            let tail = named.skip(0);
            assert(tail =~= host);
            assert(tail[n - 1] == host[n - 1]);
            lemma_without_trailing_is(tail, class, n);
            assert(tail.take(n) =~= host);
        }
    }
}

/// A probe's latency is its seconds a thousandfold, correctly rounded, as the nearest whole number
/// of milliseconds. There is no result without two figures, a status and seconds that are finite
/// and not below zero.
pub proof fn law_latency_is_in_milliseconds(
    raw: &str,
    seconds: Double,
    result: Option<RouteProbeResult>,
)
    requires
        call_ensures(parse_curl_output, (raw, Some(seconds)), result),
    ensures
        result matches Some(probe) ==> {
            &&& seconds.finite()
            &&& seconds.value() >= 0
            &&& exists|product: int|
                #[trigger] rounds_to(seconds.value() * 1000, 1, product) && (probe.latency_ms
                    < u64::MAX && seconds.value() > 0 ==> (2 * probe.latency_ms - 1) * pow2(1074)
                    <= 2 * scaled(product) < (2 * probe.latency_ms + 1) * pow2(1074))
        },
        !seconds.finite() || seconds.value() < 0 ==> result is None,
        !raw@.contains('\n') ==> result is None,
{
    assert(is_probe_result(raw@, Some(seconds), result));
    lemma_pow2_pos(1074);
    lemma_scaled_bounds(seconds.magnitude());
    if let Some(probe) = result {
        assert(is_milliseconds(seconds, probe.latency_ms));
        let product = choose|product: Double|
            #[trigger] is_multiple(seconds, 1000, product) && probe.latency_ms == nearest_whole(
                product,
            );
        let unit = pow2(1074) as int;
        let m = product.magnitude();
        lemma_scaled_bounds(m);
        assert(scaled(seconds.magnitude()) == seconds.value());
        assert(rounds_to(seconds.value() * 1000, 1, m));
        if probe.latency_ms < u64::MAX && seconds.value() > 0 {
            let number = 2 * scaled(m) + unit;
            let whole = number / (2 * unit);
            lemma_fundamental_div_mod(number, 2 * unit);
            lemma_mod_bound(number, 2 * unit);
            let rest = number % (2 * unit);
            assert((2 * whole - 1) * unit <= 2 * scaled(m) < (2 * whole + 1) * unit)
                by (nonlinear_arith)
                requires
                    2 * scaled(m) + unit == (2 * unit) * whole + rest,
                    0 <= rest < 2 * unit,
            ;
            assert(!product.negative() && !product.nan());
            assert(probe.latency_ms == whole);
        }
    }
    if !raw@.contains('\n') {
        let class = one_of(seq!['\n']);
        lemma_last_of(raw@, class);
        let at = last_of(raw@, class);
        if at >= 0 {
            assert(raw@[at] == '\n');
        }
    }
}

/// A line names a field before its first colon, white space around the name and its case aside, and
/// tells its value after that colon.
pub proof fn law_fields_stand_before_a_colon(key: Seq<char>, value: Seq<char>, name: Seq<char>)
    requires
        !key.contains(':'),
    ensures
        lower(trimmed(key)) == lower(name) ==> field_in(key + seq![':'] + value, name) == Some(
            trimmed(value),
        ),
        lower(trimmed(key)) != lower(name) ==> field_in(key + seq![':'] + value, name) is None,
        field_in(key, name) is None,
{
    reveal_strlit(":");
    let mark = ":"@;
    assert(mark =~= seq![':']);
    let whole = key + mark + value;
    assert forall|k: int| 0 <= k < key.len() implies #[trigger] whole.subrange(k, k + mark.len())
        != mark by {
        assert(whole.subrange(k, k + 1)[0] == key[k]);
        assert(key.contains(key[k]));
    }
    law_parts_at_the_first(key, mark, value);
    lemma_parts_at_the_first(key, mark);
    if split_at_first(key, mark) is Some {
        let at = split_at_first(key, mark)->Some_0.0.len() as int;
        assert(key[at] == mark[0]);
        assert(key.contains(':'));
    }
}

/// The first line that names a field tells it.
pub proof fn law_the_first_line_tells_a_field(raw: Seq<char>, name: Seq<char>, at: int)
    requires
        0 <= at <= lines(raw).len(),
        forall|i: int| 0 <= i < at ==> field_in(#[trigger] lines(raw)[i], name) is None,
        at < lines(raw).len() ==> field_in(lines(raw)[at], name) is Some,
    ensures
        field(raw, name) == if at < lines(raw).len() {
            field_in(lines(raw)[at], name)
        } else {
            None
        },
{
    let find = |line: Seq<char>| field_in(line, name);
    assert forall|i: int| 0 <= i < at implies find(#[trigger] lines(raw)[i]) is None by {}
    lemma_find_map(lines(raw), find, at);
}

/// The proxy that `scutil` shows is the host and the port of the proxy for secure connections, or
/// the port 80 where none is told. There is one exactly where that proxy is switched on with `1`
/// and its host is told.
pub proof fn law_scutil_shows_the_secure_proxy(raw: &str, proxy: Option<String>)
    requires
        call_ensures(extract_scutil_proxy, (raw,), proxy),
    ensures
        proxy is Some <==> field(raw@, "HTTPSEnable"@) == Some("1"@) && (field(
            raw@,
            "HTTPSProxy"@,
        ) matches Some(host) && host.len() > 0),
        proxy matches Some(shown) ==> shown@ == field(raw@, "HTTPSProxy"@)->Some_0 + ":"@ + (
        match field(raw@, "HTTPSPort"@) {
            Some(port) => port,
            None => "80"@,
        }),
{
    reveal_strlit("1");
    if let Some(flag) = field(raw@, "HTTPSEnable"@) {
        assert(lower(flag) == lower("1"@) <==> flag == "1"@) by {
            if lower(flag) == lower("1"@) {
                assert(flag.len() == lower(flag).len() && lower(flag).len() == 1);
                assert(lower("1"@)[0] == '1');
                assert(lower(flag)[0] == lower_char(flag[0]));
                assert(flag =~= "1"@);
            }
        }
    }
}

/// A command that failed is told under the code and the message of what it was for: by its own
/// words, or as one that took too long.
pub proof fn law_command_failures_keep_their_purpose(
    failure: CommandFailure,
    code: &'static str,
    message: &str,
    diagnostic: Diagnostic,
)
    requires
        call_ensures(command_failure, (&failure, code, message), diagnostic),
    ensures
        diagnostic.code@ == code@,
        diagnostic.message@ == message@,
        failure matches CommandFailure::Failed(error) ==> opt_text(diagnostic.detail) == Some(
            error@,
        ),
        failure is TimedOut ==> opt_text(diagnostic.detail) == Some("The check timed out"@),
{
    assert(diagnostic@.code == diagnostic.code@ && diagnostic@.message == diagnostic.message@
        && diagnostic@.detail == opt_text(diagnostic.detail));
}

} // verus!
