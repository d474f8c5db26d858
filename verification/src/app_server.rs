//! The Codex app-server: the command that starts it, and the account that it is signed in to.

use crate::codex_install::{binary_name, codex_binary_name};
use crate::environment::{lookup, Environment};
use crate::json::{
    get_member, get_str, json_document, json_member, json_object, json_str, json_string_list,
    member_str, parse_json, parse_string_list,
};
use crate::paths::{FilePath, OperatingSystem, PathModel};
use crate::text::{opt_text, same_text, texts};
use serde_json::Value;
use vstd::prelude::*;

verus! {

/// How the app-server is started.
#[derive(Debug, Clone)]
pub struct AppServerCommand {
    pub executable: String,
    pub args: Vec<String>,
    pub environment: Vec<(String, String)>,
}

/// The texts of an [`AppServerCommand`].
#[verifier::ext_equal]
pub struct CommandModel {
    pub executable: Seq<char>,
    pub args: Seq<Seq<char>>,
    pub environment: Seq<(Seq<char>, Seq<char>)>,
}

impl View for AppServerCommand {
    type V = CommandModel;

    open spec fn view(&self) -> CommandModel {
        CommandModel {
            executable: self.executable@,
            args: texts(self.args@),
            environment: Seq::new(
                self.environment@.len(),
                |i: int| (self.environment@[i].0@, self.environment@[i].1@),
            ),
        }
    }
}

/// The arguments in a setting that holds them as a JSON list; those of the app-server where
/// there is no such list.
pub open spec fn args_of(list: Option<Seq<Seq<char>>>) -> Seq<Seq<char>> {
    match list {
        Some(list) => list,
        None => seq!["app-server"@],
    }
}

/// The stand-in for the app-server that answers from a script.
pub open spec fn fixture_command(
    variables: Seq<(Seq<char>, Seq<char>)>,
    fixture_script: Seq<char>,
) -> CommandModel {
    CommandModel {
        executable: match lookup(variables, "CODEX_CREDITS_FIXTURE_NODE"@) {
            Some(node) => node,
            None => "node"@,
        },
        args: seq![fixture_script],
        environment: seq![],
    }
}

/// The command that the environment asks for: the executable that it names; else, in a debug
/// build that is not told to go live, the stand-in; else the Codex command line that was found,
/// or its bare name.
pub open spec fn command_for(
    variables: Seq<(Seq<char>, Seq<char>)>,
    debug_build: bool,
    fixture_script: Seq<char>,
    resolved: Option<Seq<char>>,
    os: OperatingSystem,
) -> CommandModel {
    match lookup(variables, "CODEX_CREDITS_APP_SERVER_EXECUTABLE"@) {
        Some(executable) => CommandModel {
            executable,
            args: match lookup(variables, "CODEX_CREDITS_APP_SERVER_ARGS"@) {
                Some(raw) => args_of(json_string_list(raw)),
                None => args_of(None),
            },
            environment: seq![],
        },
        None => if debug_build && lookup(variables, "CODEX_CREDITS_USE_LIVE"@) != Some("1"@) {
            fixture_command(variables, fixture_script)
        } else {
            CommandModel {
                executable: match resolved {
                    Some(executable) => executable,
                    None => binary_name(os),
                },
                args: args_of(None),
                environment: seq![],
            }
        },
    }
}

/// The script of the stand-in, seen from the package's directory.
pub fn fixture_path(manifest_dir: &str) -> (path: FilePath)
    ensures
        path@ == (PathModel {
            base: manifest_dir@,
            parts: seq![".."@, "fixtures"@, "app-server-fixture.mjs"@],
        }),
{
    let path = FilePath::new(manifest_dir).join("..").join("fixtures").join(
        "app-server-fixture.mjs",
    );
    proof {
        assert(path@.parts =~= seq![".."@, "fixtures"@, "app-server-fixture.mjs"@]);
    }
    path
}

/// The arguments that a decoded list gives.
pub fn args_from_list(list: Option<Vec<String>>) -> (args: Vec<String>)
    ensures
        match list {
            Some(list) => texts(args@) == args_of(Some(texts(list@))),
            None => texts(args@) == args_of(None),
        },
{
    match list {
        Some(list) => list,
        None => {
            let args: Vec<String> = vec!["app-server".to_owned()];
            proof {
                assert(texts(args@) =~= seq!["app-server"@]);
            }
            args
        },
    }
}

impl AppServerCommand {
    /// The command that the environment asks for. `fixture_script` is the script of the
    /// stand-in, `resolved` the Codex command line that was found.
    pub fn from_environment(
        environment: &Environment,
        debug_build: bool,
        fixture_script: &str,
        resolved: Option<String>,
        os: OperatingSystem,
    ) -> (command: AppServerCommand)
        ensures
            command@ == command_for(
                environment@,
                debug_build,
                fixture_script@,
                opt_text(resolved),
                os,
            ),
    {
        if let Some(executable) = environment.get("CODEX_CREDITS_APP_SERVER_EXECUTABLE") {
            let list: Option<Vec<String>> = match environment.get("CODEX_CREDITS_APP_SERVER_ARGS") {
                Some(raw) => parse_string_list(raw.as_str()),
                None => None,
            };
            let command = AppServerCommand {
                executable,
                args: args_from_list(list),
                environment: Vec::new(),
            };
            proof {
                assert(command@.environment =~= seq![]);
            }
            return command;
        }
        let live: bool = match environment.get("CODEX_CREDITS_USE_LIVE") {
            Some(value) => same_text(value.as_str(), "1"),
            None => false,
        };
        if debug_build && !live {
            return AppServerCommand::fixture(environment, fixture_script);
        }
        let executable: String = match resolved {
            Some(executable) => executable,
            None => codex_binary_name(os).to_owned(),
        };
        let command = AppServerCommand {
            executable,
            args: args_from_list(None),
            environment: Vec::new(),
        };
        proof {
            assert(command@.environment =~= seq![]);
        }
        command
    }

    /// The stand-in for the app-server.
    pub fn fixture(environment: &Environment, fixture_script: &str) -> (command: AppServerCommand)
        ensures
            command@ == fixture_command(environment@, fixture_script@),
    {
        let executable: String = match environment.get("CODEX_CREDITS_FIXTURE_NODE") {
            Some(node) => node,
            None => "node".to_owned(),
        };
        let command = AppServerCommand {
            executable,
            args: vec![fixture_script.to_owned()],
            environment: Vec::new(),
        };
        proof {
            assert(command@.args =~= seq![fixture_script@]);
            assert(command@.environment =~= seq![]);
        }
        command
    }

    /// The stand-in, told to play a scenario.
    pub fn fixture_scenario(environment: &Environment, fixture_script: &str, scenario: &str) -> (
    command: AppServerCommand)
        ensures
            command@ == (CommandModel {
                environment: seq![("CODEX_CREDITS_FIXTURE_SCENARIO"@, scenario@)],
                ..fixture_command(environment@, fixture_script@)
            }),
    {
        let mut command = AppServerCommand::fixture(environment, fixture_script);
        let ghost before = command@;
        command.environment.push(
            ("CODEX_CREDITS_FIXTURE_SCENARIO".to_owned(), scenario.to_owned()),
        );
        proof {
            assert(before.environment.len() == 0);
            assert(command@.environment =~= seq![
                ("CODEX_CREDITS_FIXTURE_SCENARIO"@, scenario@),
            ]);
        }
        command
    }
}

/// The account that the content of a login file names: that of its ChatGPT tokens.
pub open spec fn account_of(login: Value) -> Option<Seq<char>> {
    match json_member(login, "tokens"@) {
        Some(tokens) => member_str(tokens, "account_id"@),
        None => None,
    }
}

/// The account that a decoded login file names.
pub fn account_id_of(login: &Value) -> (account_id: Option<String>)
    ensures
        opt_text(account_id) == account_of(*login),
{
    match get_member(login, "tokens") {
        Some(tokens) => get_str(tokens, "account_id"),
        None => None,
    }
}

/// The account that the content of a login file names; `None` where it is not known.
pub fn read_account_id(content: &str) -> (account_id: Option<String>)
    ensures
        opt_text(account_id) == match json_document(content@) {
            Ok(login) => account_of(login),
            Err(_) => None,
        },
{
    match parse_json(content) {
        Ok(login) => account_id_of(&login),
        Err(_) => None,
    }
}

/// What is started: the executable that the environment names, with the arguments that it lists;
/// else the stand-in, in a debug build unless the environment says `1` to going live; else the
/// command line that was found, or its bare name.
pub proof fn law_what_is_started(
    environment: Environment,
    debug_build: bool,
    fixture_script: &str,
    resolved: Option<String>,
    os: OperatingSystem,
    command: AppServerCommand,
)
    requires
        call_ensures(
            AppServerCommand::from_environment,
            (&environment, debug_build, fixture_script, resolved, os),
            command,
        ),
    ensures
        command.environment@.len() == 0,
        lookup(environment@, "CODEX_CREDITS_APP_SERVER_EXECUTABLE"@) matches Some(named) ==> {
            &&& command.executable@ == named
            &&& lookup(environment@, "CODEX_CREDITS_APP_SERVER_ARGS"@) matches Some(raw) ==> (
            json_string_list(raw) matches Some(list) ==> texts(command.args@) == list)
            &&& !(lookup(environment@, "CODEX_CREDITS_APP_SERVER_ARGS"@) matches Some(raw)
                && json_string_list(raw) is Some) ==> command.args@.len() == 1
                && command.args@[0]@ == "app-server"@
        },
        lookup(environment@, "CODEX_CREDITS_APP_SERVER_EXECUTABLE"@) is None ==> {
            let stands_in = debug_build && lookup(environment@, "CODEX_CREDITS_USE_LIVE"@) != Some(
                "1"@,
            );
            &&& command.args@.len() == 1
            &&& stands_in ==> command.args@[0]@ == fixture_script@ && command.executable@ == (
            match lookup(environment@, "CODEX_CREDITS_FIXTURE_NODE"@) {
                Some(node) => node,
                None => "node"@,
            })
            &&& !stands_in ==> command.args@[0]@ == "app-server"@ && command.executable@ == (
            match resolved {
                Some(found) => found@,
                None => if os == OperatingSystem::Windows {
                    "codex.exe"@
                } else {
                    "codex"@
                },
            })
        },
{
    let model = command@;
    assert(model.environment.len() == command.environment@.len());
    assert(model.args.len() == command.args@.len());
    if command.args@.len() == 1 {
        assert(model.args[0] == command.args@[0]@);
    }
    assert(model.executable == command.executable@);
}

/// A scenario is told to the stand-in in its environment, and changes nothing else of it.
pub proof fn law_a_scenario_is_told_in_the_environment(
    environment: Environment,
    fixture_script: &str,
    scenario: &str,
    plain: AppServerCommand,
    told: AppServerCommand,
)
    requires
        call_ensures(AppServerCommand::fixture, (&environment, fixture_script), plain),
        call_ensures(
            AppServerCommand::fixture_scenario,
            (&environment, fixture_script, scenario),
            told,
        ),
    ensures
        told.executable@ == plain.executable@,
        texts(told.args@) == texts(plain.args@),
        plain.environment@.len() == 0,
        told.environment@.len() == 1,
        told.environment@[0].0@ == "CODEX_CREDITS_FIXTURE_SCENARIO"@,
        told.environment@[0].1@ == scenario@,
{
    assert(plain@.environment.len() == plain.environment@.len());
    assert(told@.environment.len() == told.environment@.len());
    assert(told@.environment[0] == (told.environment@[0].0@, told.environment@[0].1@));
    assert(told@.args == texts(told.args@) && plain@.args == texts(plain.args@));
    assert(told@.executable == told.executable@ && plain@.executable == plain.executable@);
}

/// The account of a login file is the text at `tokens`, `account_id`; without such a text, or
/// without a file that can be decoded, it is not known.
pub proof fn law_the_account_stands_with_the_tokens(content: &str, account_id: Option<String>)
    requires
        call_ensures(read_account_id, (content,), account_id),
    ensures
        account_id matches Some(id) ==> (json_document(content@) matches Ok(login) && (json_object(
            login,
        ) matches Some(members) && members.contains_key("tokens"@) && (json_object(
            members["tokens"@],
        ) matches Some(tokens) && tokens.contains_key("account_id"@) && json_str(
            tokens["account_id"@],
        ) == Some(id@)))),
        account_id is None ==> !(json_document(content@) matches Ok(login) && (json_object(
            login,
        ) matches Some(members) && members.contains_key("tokens"@) && (json_object(
            members["tokens"@],
        ) matches Some(tokens) && tokens.contains_key("account_id"@) && json_str(
            tokens["account_id"@],
        ) is Some))),
{
}

} // verus!
