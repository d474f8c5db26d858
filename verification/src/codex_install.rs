//! Where the Codex command line and its login file are looked for.

use crate::environment::{first_value, lookup, Environment};
use crate::ordered::{as_map, has_key, in_order, lemma_map_at, Ordered};
use crate::paths::{
    find_present, first_present, lemma_what_is_present, path_models, FilePath, OperatingSystem,
    PathModel,
};
use crate::text::{begins_with, opt_text, starts_with, texts};
use vstd::prelude::*;

verus! {

/// The file name of the Codex command line.
pub open spec fn binary_name(os: OperatingSystem) -> Seq<char> {
    match os {
        OperatingSystem::Windows => "codex.exe"@,
        _ => "codex"@,
    }
}

/// The file name of the Codex command line.
pub fn codex_binary_name(os: OperatingSystem) -> (name: &'static str)
    ensures
        name@ == binary_name(os),
{
    match os {
        OperatingSystem::Windows => "codex.exe",
        _ => "codex",
    }
}

/// The login file: below `CODEX_HOME` where that is set, else below the home directory.
pub open spec fn auth_path(variables: Seq<(Seq<char>, Seq<char>)>) -> Option<PathModel> {
    match lookup(variables, "CODEX_HOME"@) {
        Some(home) => Some(PathModel { base: home, parts: seq!["auth.json"@] }),
        None => match first_value(lookup(variables, "HOME"@), lookup(variables, "USERPROFILE"@)) {
            Some(home) => Some(PathModel { base: home, parts: seq![".codex"@, "auth.json"@] }),
            None => None,
        },
    }
}

/// The login file.
pub fn codex_auth_path(environment: &Environment) -> (path: Option<FilePath>)
    ensures
        match path {
            Some(path) => auth_path(environment@) == Some(path@),
            None => auth_path(environment@) is None,
        },
{
    match environment.get("CODEX_HOME") {
        Some(home) => {
            let path = FilePath::new(home.as_str()).join("auth.json");
            proof {
                assert(path@.parts =~= seq!["auth.json"@]);
            }
            Some(path)
        },
        None => match environment.get_either("HOME", "USERPROFILE") {
            Some(home) => {
                let path = FilePath::new(home.as_str()).join(".codex").join("auth.json");
                proof {
                    assert(path@.parts =~= seq![".codex"@, "auth.json"@]);
                }
                Some(path)
            },
            None => None,
        },
    }
}

/// The command line that the npm package brings along, for this machine.
pub open spec fn project_runtime(
    manifest_dir: Seq<char>,
    os: OperatingSystem,
    arm: bool,
) -> PathModel {
    let (package, vendor) = match os {
        OperatingSystem::Windows => ("codex-win32-x64"@, "x86_64-pc-windows-msvc"@),
        OperatingSystem::MacOs => if arm {
            ("codex-darwin-arm64"@, "aarch64-apple-darwin"@)
        } else {
            ("codex-darwin-x64"@, "x86_64-apple-darwin"@)
        },
        OperatingSystem::Other => ("codex-linux-x64"@, "x86_64-unknown-linux-musl"@),
    };
    PathModel {
        base: manifest_dir,
        parts: seq![
            ".."@,
            "node_modules"@,
            "@openai"@,
            package,
            "vendor"@,
            vendor,
            "bin"@,
            binary_name(os),
        ],
    }
}

/// The command line that the npm package brings along, for this machine.
pub fn project_local_runtime(manifest_dir: &str, os: OperatingSystem, arm: bool) -> (path: FilePath)
    ensures
        path@ == project_runtime(manifest_dir@, os, arm),
{
    let (package, vendor) = match os {
        OperatingSystem::Windows => ("codex-win32-x64", "x86_64-pc-windows-msvc"),
        OperatingSystem::MacOs => if arm {
            ("codex-darwin-arm64", "aarch64-apple-darwin")
        } else {
            ("codex-darwin-x64", "x86_64-apple-darwin")
        },
        OperatingSystem::Other => ("codex-linux-x64", "x86_64-unknown-linux-musl"),
    };
    let path = FilePath::new(manifest_dir).join("..").join("node_modules").join("@openai").join(
        package,
    ).join("vendor").join(vendor).join("bin").join(codex_binary_name(os));
    proof {
        assert(path@ =~= project_runtime(manifest_dir@, os, arm));
    }
    path
}

/// The command lines that come with the meter: beside its executable, and, in a debug build,
/// the one of the npm package.
pub open spec fn local_runtimes(
    executable_dir: Option<Seq<char>>,
    debug_build: bool,
    manifest_dir: Seq<char>,
    os: OperatingSystem,
    arm: bool,
) -> Seq<PathModel> {
    let beside = match executable_dir {
        Some(dir) => seq![
            PathModel { base: dir, parts: seq!["codex-runtime"@, "bin"@, binary_name(os)] },
        ],
        None => seq![],
    };
    if debug_build {
        beside.push(project_runtime(manifest_dir, os, arm))
    } else {
        beside
    }
}

/// The command lines that come with the meter.
pub fn local_runtime_candidates(
    executable_dir: Option<String>,
    debug_build: bool,
    manifest_dir: &str,
    os: OperatingSystem,
    arm: bool,
) -> (candidates: Vec<FilePath>)
    ensures
        path_models(candidates@) == local_runtimes(
            opt_text(executable_dir),
            debug_build,
            manifest_dir@,
            os,
            arm,
        ),
{
    let mut candidates: Vec<FilePath> = Vec::new();
    if let Some(dir) = &executable_dir {
        let path = FilePath::new(dir.as_str()).join("codex-runtime").join("bin").join(
            codex_binary_name(os),
        );
        proof {
            assert(path@.parts =~= seq!["codex-runtime"@, "bin"@, binary_name(os)]);
        }
        candidates.push(path);
    }
    if debug_build {
        candidates.push(project_local_runtime(manifest_dir, os, arm));
    }
    proof {
        assert(path_models(candidates@) =~= local_runtimes(
            opt_text(executable_dir),
            debug_build,
            manifest_dir@,
            os,
            arm,
        ));
    }
    candidates
}

/// The command line inside the desktop application of a name.
pub open spec fn bundled_in(base: Seq<char>, folders: Seq<Seq<char>>, app: Seq<char>) -> PathModel {
    PathModel { base, parts: folders + seq![app, "Contents/Resources/codex"@] }
}

/// The command lines inside the desktop applications, of the machine and of the user.
pub open spec fn bundled_runtimes(os: OperatingSystem, home: Option<Seq<char>>) -> Seq<PathModel> {
    if os == OperatingSystem::MacOs {
        let machine = seq![
            bundled_in("/Applications"@, seq![], "ChatGPT.app"@),
            bundled_in("/Applications"@, seq![], "Codex.app"@),
        ];
        match home {
            Some(home) => machine + seq![
                bundled_in(home, seq!["Applications"@], "ChatGPT.app"@),
                bundled_in(home, seq!["Applications"@], "Codex.app"@),
            ],
            None => machine,
        }
    } else {
        seq![]
    }
}

/// The command lines inside the desktop applications.
pub fn desktop_app_bundled_candidates(os: OperatingSystem, home: &Option<String>) -> (candidates:
    Vec<FilePath>)
    ensures
        path_models(candidates@) == bundled_runtimes(os, opt_text(*home)),
{
    let mut candidates: Vec<FilePath> = Vec::new();
    if os == OperatingSystem::MacOs {
        let first = FilePath::new("/Applications").join("ChatGPT.app").join(
            "Contents/Resources/codex",
        );
        let second = FilePath::new("/Applications").join("Codex.app").join(
            "Contents/Resources/codex",
        );
        proof {
            assert(first@ =~= bundled_in("/Applications"@, seq![], "ChatGPT.app"@));
            assert(second@ =~= bundled_in("/Applications"@, seq![], "Codex.app"@));
        }
        candidates.push(first);
        candidates.push(second);
        if let Some(home) = home {
            let third = FilePath::new(home.as_str()).join("Applications").join("ChatGPT.app").join(
                "Contents/Resources/codex",
            );
            let fourth = FilePath::new(home.as_str()).join("Applications").join("Codex.app").join(
                "Contents/Resources/codex",
            );
            proof {
                assert(third@ =~= bundled_in(home@, seq!["Applications"@], "ChatGPT.app"@));
                assert(fourth@ =~= bundled_in(home@, seq!["Applications"@], "Codex.app"@));
            }
            candidates.push(third);
            candidates.push(fourth);
        }
    }
    proof {
        assert(path_models(candidates@) =~= bundled_runtimes(os, opt_text(*home)));
    }
    candidates
}

/// The usual install locations, for a meter that was started without a login shell's search
/// path: first the desktop applications.
pub open spec fn usual_locations(os: OperatingSystem, home: Option<Seq<char>>) -> Seq<PathModel> {
    let machine = bundled_runtimes(os, home) + seq![
        PathModel { base: "/opt/homebrew/bin"@, parts: seq![binary_name(os)] },
        PathModel { base: "/usr/local/bin"@, parts: seq![binary_name(os)] },
    ];
    match home {
        Some(home) => machine + seq![
            PathModel { base: home, parts: seq![".local/bin"@, binary_name(os)] },
            PathModel { base: home, parts: seq!["bin"@, binary_name(os)] },
        ],
        None => machine,
    }
}

/// The usual install locations.
pub fn extra_executable_candidates(os: OperatingSystem, environment: &Environment) -> (candidates:
    Vec<FilePath>)
    ensures
        path_models(candidates@) == usual_locations(os, lookup(environment@, "HOME"@)),
{
    let binary = codex_binary_name(os);
    let home = environment.get("HOME");
    let mut candidates = desktop_app_bundled_candidates(os, &home);
    let ghost bundled = path_models(candidates@);
    let first = FilePath::new("/opt/homebrew/bin").join(binary);
    let second = FilePath::new("/usr/local/bin").join(binary);
    proof {
        assert(first@.parts =~= seq![binary@]);
        assert(second@.parts =~= seq![binary@]);
    }
    candidates.push(first);
    candidates.push(second);
    if let Some(home) = &home {
        let third = FilePath::new(home.as_str()).join(".local/bin").join(binary);
        let fourth = FilePath::new(home.as_str()).join("bin").join(binary);
        proof {
            assert(third@.parts =~= seq![".local/bin"@, binary@]);
            assert(fourth@.parts =~= seq!["bin"@, binary@]);
        }
        candidates.push(third);
        candidates.push(fourth);
    }
    proof {
        assert(path_models(candidates@) =~= usual_locations(os, opt_text(home)));
    }
    candidates
}

/// A package folder of the Codex store application.
pub open spec fn store_package(name: Seq<char>) -> bool {
    begins_with(name, "OpenAI.Codex_"@)
}

/// The command line in a package folder of the store application.
pub open spec fn store_runtime(program_files: Seq<char>, name: Seq<char>) -> PathModel {
    PathModel {
        base: program_files,
        parts: seq!["WindowsApps"@, name, "app"@, "resources"@, "codex.exe"@],
    }
}

/// The command lines of the store application, in the order of their package folders. `names`
/// are the folders that there are.
pub fn store_candidates(program_files: &str, names: &Vec<String>) -> (candidates: Ordered<FilePath>)
    ensures
        in_order(candidates.entries()),
        forall|name: Seq<char>|
            as_map(candidates.entries()).contains_key(name) <==> store_package(name) && texts(
                names@,
            ).contains(name),
        forall|i: int|
            0 <= i < candidates.entries().len() ==> (#[trigger] candidates.entries()[i]).1@
                == store_runtime(program_files@, candidates.entries()[i].0@),
{
    let mut candidates: Ordered<FilePath> = Ordered::new();
    let mut i: usize = 0;
    proof {
        assert(texts(names@).take(0) =~= seq![]);
    }
    while i < names.len()
        invariant
            i <= names.len(),
            in_order(candidates.entries()),
            forall|name: Seq<char>| #[trigger]
                as_map(candidates.entries()).contains_key(name) <==> store_package(name) && texts(
                    names@,
                ).take(i as int).contains(name),
            forall|name: Seq<char>| #[trigger]
                as_map(candidates.entries()).contains_key(name) ==> as_map(
                    candidates.entries(),
                )[name]@ == store_runtime(program_files@, name),
        decreases names.len() - i,
    {
        let name: String = names[i].clone();
        let ghost before = texts(names@).take(i as int);
        let ghost after = texts(names@).take(i + 1);
        let ghost old_map = as_map(candidates.entries());
        proof {
            assert(after =~= before.push(name@));
            assert forall|other: Seq<char>|
                after.contains(other) == (before.contains(other) || other == name@) by {
                if before.contains(other) {
                    let k = choose|k: int| 0 <= k < before.len() && before[k] == other;
                    assert(after[k] == other);
                }
                if other == name@ {
                    assert(after[i as int] == other);
                }
            }
        }
        if starts_with(name.as_str(), "OpenAI.Codex_") {
            let path = FilePath::new(program_files).join("WindowsApps").join(name.as_str()).join(
                "app",
            ).join("resources").join("codex.exe");
            proof {
                assert(path@ =~= store_runtime(program_files@, name@));
            }
            candidates = candidates.insert(name, path);
            proof {
                assert(as_map(candidates.entries()) == old_map.insert(name@, path));
            }
        }
        i = i + 1;
    }
    proof {
        assert(texts(names@).take(i as int) =~= texts(names@));
        assert forall|k: int| 0 <= k < candidates.entries().len() implies (
        #[trigger] candidates.entries()[k]).1@ == store_runtime(
            program_files@,
            candidates.entries()[k].0@,
        ) by {
            lemma_map_at(candidates.entries(), k);
        }
    }
    candidates
}

/// An executable in each of the folders.
pub open spec fn in_folders(executable: Seq<char>, folders: Seq<Seq<char>>) -> Seq<PathModel> {
    Seq::new(folders.len(), |i: int| PathModel { base: folders[i], parts: seq![executable] })
}

/// An executable in each of the folders of a search path.
pub fn find_on_path(executable: &str, folders: &Vec<String>) -> (candidates: Vec<FilePath>)
    ensures
        path_models(candidates@) == in_folders(executable@, texts(folders@)),
{
    let mut candidates: Vec<FilePath> = Vec::new();
    let mut i: usize = 0;
    while i < folders.len()
        invariant
            i <= folders.len(),
            candidates.len() == i,
            forall|j: int|
                0 <= j < i ==> (#[trigger] candidates@[j])@ == in_folders(
                    executable@,
                    texts(folders@),
                )[j],
        decreases folders.len() - i,
    {
        let path = FilePath::new(folders[i].as_str()).join(executable);
        proof {
            assert(path@ =~= in_folders(executable@, texts(folders@))[i as int]);
        }
        candidates.push(path);
        i = i + 1;
    }
    proof {
        assert(path_models(candidates@) =~= in_folders(executable@, texts(folders@)));
    }
    candidates
}

/// The place of the first candidate that is a file: what comes with the meter before the search
/// path, and that before the further locations. Each list says which of its candidates are
/// files.
pub enum Found {
    Local(usize),
    OnPath(usize),
    Further(usize),
    Nowhere,
}

/// The place of the first candidate that is a file.
pub fn resolve_codex_executable(
    local: &Vec<bool>,
    on_path: &Vec<bool>,
    further: &Vec<bool>,
) -> (found: Found)
    ensures
        match found {
            Found::Local(at) => first_present(local@) == Some(at as int),
            Found::OnPath(at) => first_present(local@) is None && first_present(on_path@) == Some(
                at as int,
            ),
            Found::Further(at) => first_present(local@) is None && first_present(on_path@) is None
                && first_present(further@) == Some(at as int),
            Found::Nowhere => first_present(local@) is None && first_present(on_path@) is None
                && first_present(further@) is None,
        },
{
    match find_present(local) {
        Some(at) => Found::Local(at),
        None => match find_present(on_path) {
            Some(at) => Found::OnPath(at),
            None => match find_present(further) {
                Some(at) => Found::Further(at),
                None => Found::Nowhere,
            },
        },
    }
}

/// A release build never looks where it was built: its candidates do not depend on that place.
pub proof fn law_release_builds_do_not_depend_on_their_origin(
    executable_dir: Option<Seq<char>>,
    one_dir: Seq<char>,
    other_dir: Seq<char>,
    os: OperatingSystem,
    arm: bool,
)
    ensures
        local_runtimes(executable_dir, false, one_dir, os, arm) == local_runtimes(
            executable_dir,
            false,
            other_dir,
            os,
            arm,
        ),
{
}

/// The command lines inside the desktop applications go before the other install locations.
pub proof fn law_desktop_applications_go_first(os: OperatingSystem, home: Option<Seq<char>>)
    ensures
        bundled_runtimes(os, home).len() <= usual_locations(os, home).len(),
        usual_locations(os, home).take(bundled_runtimes(os, home).len() as int)
            == bundled_runtimes(os, home),
{
    assert(usual_locations(os, home).take(bundled_runtimes(os, home).len() as int)
        =~= bundled_runtimes(os, home));
}

/// The command line is `codex`, and `codex.exe` on Windows only.
pub proof fn law_the_command_line_is_named_by_the_system(os: OperatingSystem, name: &'static str)
    requires
        call_ensures(codex_binary_name, (os,), name),
    ensures
        name@ == if os is Windows {
            "codex.exe"@
        } else {
            "codex"@
        },
{
}

/// The login file stands in `CODEX_HOME` itself, or in `.codex` of the user's home; without either
/// directory there is none.
pub proof fn law_the_login_file_stands_in_a_home(environment: Environment, path: Option<FilePath>)
    requires
        call_ensures(codex_auth_path, (&environment,), path),
    ensures
        lookup(environment@, "CODEX_HOME"@) matches Some(home) ==> (path matches Some(file)
            && file@.base == home && file@.parts == seq!["auth.json"@]),
        lookup(environment@, "CODEX_HOME"@) is None ==> (lookup(
            environment@,
            "HOME"@,
        ) matches Some(home) ==> (path matches Some(file) && file@.base == home && file@.parts
            == seq![".codex"@, "auth.json"@])),
        lookup(environment@, "CODEX_HOME"@) is None && lookup(environment@, "HOME"@) is None ==> (
        lookup(environment@, "USERPROFILE"@) matches Some(home) ==> (path matches Some(file)
            && file@.base == home && file@.parts == seq![".codex"@, "auth.json"@])),
        lookup(environment@, "CODEX_HOME"@) is None && lookup(environment@, "HOME"@) is None
            && lookup(environment@, "USERPROFILE"@) is None ==> path is None,
{
}

/// The command lines that come with the meter: the one beside its executable, where that is known,
/// and in a debug build, after it, the one of the npm package for this system and processor.
pub proof fn law_what_comes_with_the_meter(
    executable_dir: Option<String>,
    debug_build: bool,
    manifest_dir: &str,
    os: OperatingSystem,
    arm: bool,
    candidates: Vec<FilePath>,
)
    requires
        call_ensures(
            local_runtime_candidates,
            (executable_dir, debug_build, manifest_dir, os, arm),
            candidates,
        ),
    ensures
        candidates@.len() == (if executable_dir is Some {
            1int
        } else {
            0
        }) + (if debug_build {
            1int
        } else {
            0
        }),
        executable_dir matches Some(dir) ==> candidates@[0]@.base == dir@
            && candidates@[0]@.parts == seq![
            "codex-runtime"@,
            "bin"@,
            if os is Windows {
                "codex.exe"@
            } else {
                "codex"@
            },
        ],
        debug_build ==> {
            let path = candidates@.last()@;
            &&& path.base == manifest_dir@
            &&& path.parts.len() == 8
            &&& path.parts.take(3) == seq![".."@, "node_modules"@, "@openai"@]
            &&& path.parts[4] == "vendor"@ && path.parts[6] == "bin"@
            &&& os is Windows ==> path.parts[3] == "codex-win32-x64"@ && path.parts[5]
                == "x86_64-pc-windows-msvc"@ && path.parts[7] == "codex.exe"@
            &&& os is MacOs && arm ==> path.parts[3] == "codex-darwin-arm64"@ && path.parts[5]
                == "aarch64-apple-darwin"@ && path.parts[7] == "codex"@
            &&& os is MacOs && !arm ==> path.parts[3] == "codex-darwin-x64"@ && path.parts[5]
                == "x86_64-apple-darwin"@ && path.parts[7] == "codex"@
            &&& os is Other ==> path.parts[3] == "codex-linux-x64"@ && path.parts[5]
                == "x86_64-unknown-linux-musl"@ && path.parts[7] == "codex"@
        },
{
    let models = path_models(candidates@);
    assert(models.len() == candidates@.len());
    if candidates@.len() > 0 {
        assert(models[0] == candidates@[0]@);
        assert(models.last() == candidates@.last()@);
    }
    if debug_build {
        let path = candidates@.last()@;
        assert(path == project_runtime(manifest_dir@, os, arm));
        assert(path.parts.take(3) =~= seq![".."@, "node_modules"@, "@openai"@]);
    }
}

/// The usual places: on a Mac first the two desktop applications, of the machine and then of the
/// user; then the two folders of the machine; and then the two of the user, where a home is known.
pub proof fn law_the_usual_places(
    os: OperatingSystem,
    environment: Environment,
    candidates: Vec<FilePath>,
)
    requires
        call_ensures(extra_executable_candidates, (os, &environment), candidates),
    ensures
        ({
            let home = lookup(environment@, "HOME"@);
            let apps = if os is MacOs {
                if home is Some {
                    4int
                } else {
                    2
                }
            } else {
                0
            };
            let name = if os is Windows {
                "codex.exe"@
            } else {
                "codex"@
            };
            &&& candidates@.len() == apps + 2 + (if home is Some {
                2int
            } else {
                0
            })
            &&& os is MacOs ==> candidates@[0]@.base == "/Applications"@ && candidates@[0]@.parts
                == seq!["ChatGPT.app"@, "Contents/Resources/codex"@] && candidates@[1]@.base
                == "/Applications"@ && candidates@[1]@.parts == seq![
                "Codex.app"@,
                "Contents/Resources/codex"@,
            ]
            &&& candidates@[apps]@.base == "/opt/homebrew/bin"@ && candidates@[apps]@.parts
                == seq![name]
            &&& candidates@[apps + 1]@.base == "/usr/local/bin"@ && candidates@[apps + 1]@.parts
                == seq![name]
            &&& home matches Some(dir) ==> candidates@[apps + 2]@.base == dir && candidates@[apps
                + 2]@.parts == seq![".local/bin"@, name] && candidates@[apps + 3]@.base == dir
                && candidates@[apps + 3]@.parts == seq!["bin"@, name]
            &&& os is MacOs ==> (home matches Some(dir) ==> candidates@[2]@.base == dir
                && candidates@[2]@.parts == seq![
                "Applications"@,
                "ChatGPT.app"@,
                "Contents/Resources/codex"@,
            ] && candidates@[3]@.base == dir && candidates@[3]@.parts == seq![
                "Applications"@,
                "Codex.app"@,
                "Contents/Resources/codex"@,
            ])
        }),
{
    let models = path_models(candidates@);
    let home = lookup(environment@, "HOME"@);
    assert(models.len() == candidates@.len());
    assert forall|i: int| 0 <= i < candidates@.len() implies #[trigger] candidates@[i]@
        == models[i] by {}
    let chat = seq!["ChatGPT.app"@, "Contents/Resources/codex"@];
    let codex = seq!["Codex.app"@, "Contents/Resources/codex"@];
    if os is MacOs {
        assert(models[0] == bundled_in("/Applications"@, seq![], "ChatGPT.app"@));
        assert(models[1] == bundled_in("/Applications"@, seq![], "Codex.app"@));
        assert(Seq::<Seq<char>>::empty() + chat =~= chat);
        assert(Seq::<Seq<char>>::empty() + codex =~= codex);
        if let Some(dir) = home {
            assert(models[2] == bundled_in(dir, seq!["Applications"@], "ChatGPT.app"@));
            assert(models[3] == bundled_in(dir, seq!["Applications"@], "Codex.app"@));
            assert(seq!["Applications"@] + chat =~= seq![
                "Applications"@,
                "ChatGPT.app"@,
                "Contents/Resources/codex"@,
            ]);
            assert(seq!["Applications"@] + codex =~= seq![
                "Applications"@,
                "Codex.app"@,
                "Contents/Resources/codex"@,
            ]);
        }
    }
}

/// Of the store application every package folder whose name begins with `OpenAI.Codex_` has a
/// command line, once, and no other folder has one.
pub proof fn law_store_packages_are_told_by_their_names(
    program_files: &str,
    names: Vec<String>,
    candidates: Ordered<FilePath>,
)
    requires
        call_ensures(store_candidates, (program_files, &names), candidates),
    ensures
        forall|k: int, rest: Seq<char>|
            0 <= k < names@.len() && (#[trigger] names@[k])@ == #[trigger] ("OpenAI.Codex_"@ + rest)
                ==> exists|i: int|
                0 <= i < candidates.entries().len() && (#[trigger] candidates.entries()[i]).0@
                    == names@[k]@,
        forall|i: int|
            0 <= i < candidates.entries().len() ==> {
                let (name, path) = #[trigger] candidates.entries()[i];
                &&& exists|k: int| 0 <= k < names@.len() && (#[trigger] names@[k])@ == name@
                &&& exists|rest: Seq<char>| name@ == #[trigger] ("OpenAI.Codex_"@ + rest)
                &&& path@.base == program_files@
                &&& path@.parts == seq![
                    "WindowsApps"@,
                    name@,
                    "app"@,
                    "resources"@,
                    "codex.exe"@,
                ]
            },
{
    let entries = candidates.entries();
    let list = texts(names@);
    let start = "OpenAI.Codex_"@;
    assert forall|k: int, rest: Seq<char>|
        0 <= k < names@.len() && (#[trigger] names@[k])@ == #[trigger] (start
            + rest) implies exists|i: int|
        0 <= i < entries.len() && (#[trigger] entries[i]).0@ == names@[k]@ by {
        let name = names@[k]@;
        assert(name.subrange(0, start.len() as int) =~= start);
        assert(list[k] == name);
        assert(store_package(name) && list.contains(name));
        assert(as_map(entries).contains_key(name));
        assert(has_key(entries, name));
    }
    assert forall|i: int| 0 <= i < entries.len() implies {
        let (name, path) = #[trigger] entries[i];
        &&& exists|k: int| 0 <= k < names@.len() && (#[trigger] names@[k])@ == name@
        &&& exists|rest: Seq<char>| name@ == #[trigger] (start + rest)
        &&& path@.base == program_files@
        &&& path@.parts == seq!["WindowsApps"@, name@, "app"@, "resources"@, "codex.exe"@]
    } by {
        let (name, path) = entries[i];
        lemma_map_at(entries, i);
        assert(as_map(entries).contains_key(name@));
        assert(store_package(name@) ==> list.contains(name@));
        if !store_package(name@) {
            assert(!as_map(entries).contains_key(name@));
        }
        let k = choose|k: int| 0 <= k < list.len() && list[k] == name@;
        assert(names@[k]@ == name@);
        assert(name@ =~= start + name@.skip(start.len() as int));
    }
}

/// An executable is looked for in every folder of the search path, in their order.
pub proof fn law_every_folder_is_searched(
    executable: &str,
    folders: Vec<String>,
    candidates: Vec<FilePath>,
)
    requires
        call_ensures(find_on_path, (executable, &folders), candidates),
    ensures
        candidates@.len() == folders@.len(),
        forall|i: int|
            0 <= i < folders@.len() ==> (#[trigger] candidates@[i])@.base == folders@[i]@
                && candidates@[i]@.parts == seq![executable@],
{
    let models = path_models(candidates@);
    assert(models.len() == candidates@.len());
    assert forall|i: int| 0 <= i < folders@.len() implies (#[trigger] candidates@[i])@.base
        == folders@[i]@ && candidates@[i]@.parts == seq![executable@] by {
        assert(models[i] == candidates@[i]@);
    }
}

/// The command line that is taken is there, and none that goes before it is: those that come with
/// the meter go before those on the search path, and these before the further ones.
pub proof fn law_the_first_that_is_there_is_taken(
    local: Vec<bool>,
    on_path: Vec<bool>,
    further: Vec<bool>,
    found: Found,
)
    requires
        call_ensures(resolve_codex_executable, (&local, &on_path, &further), found),
    ensures
        found is Local <==> exists|i: int| 0 <= i < local@.len() && #[trigger] local@[i],
        found is OnPath || found is Local <==> (exists|i: int|
            0 <= i < local@.len() && #[trigger] local@[i]) || (exists|i: int|
            0 <= i < on_path@.len() && #[trigger] on_path@[i]),
        found is Nowhere <==> !(exists|i: int| 0 <= i < local@.len() && #[trigger] local@[i])
            && !(exists|i: int| 0 <= i < on_path@.len() && #[trigger] on_path@[i]) && !(exists|
            i: int,
        |
            0 <= i < further@.len() && #[trigger] further@[i]),
        match found {
            Found::Local(at) => at < local@.len() && local@[at as int] && forall|j: int|
                0 <= j < at ==> !#[trigger] local@[j],
            Found::OnPath(at) => at < on_path@.len() && on_path@[at as int] && forall|j: int|
                0 <= j < at ==> !#[trigger] on_path@[j],
            Found::Further(at) => at < further@.len() && further@[at as int] && forall|j: int|
                0 <= j < at ==> !#[trigger] further@[j],
            Found::Nowhere => true,
        },
{
    lemma_what_is_present(local@);
    lemma_what_is_present(on_path@);
    lemma_what_is_present(further@);
}

} // verus!
