//! The command line of the `tgn` tool: which command to run, with what.
use vstd::prelude::*;
use crate::lexer::{str_chars, string_from_chars, chars_between};
use crate::text::{to_uppercase, uppercase_spec, concat, concat_spec, is_ascii_text, ascii_upper};
use crate::ast::texts_view;
use crate::evaluator::builtins::starts_with;

verus! {

/// A command of the `tgn` tool.
pub enum Command {
    /// No command: the interactive console.
    Repl,
    /// `run <file> [--key value]...`: the flags, keys upper-cased, in order.
    Run { file: String, flags: Vec<(String, String)> },
    /// `run` without a file.
    MissingRunFile,
    /// `init [--folder <name>]`.
    Init { target_dir: String, project_name: String },
    /// `absorb <url>`.
    Absorb { url: String },
    /// `absorb` without an address.
    MissingAbsorbUrl,
    Help,
    Unknown { command: String },
}

/// Model of a command.
pub enum SCommand {
    Repl,
    Run { file: Seq<char>, flags: Seq<(Seq<char>, Seq<char>)> },
    MissingRunFile,
    Init { target_dir: Seq<char>, project_name: Seq<char> },
    Absorb { url: Seq<char> },
    MissingAbsorbUrl,
    Help,
    Unknown { command: Seq<char> },
}

pub open spec fn flags_view(v: Seq<(String, String)>) -> Seq<(Seq<char>, Seq<char>)> {
    Seq::new(v.len(), |i: int| (v[i].0@, v[i].1@))
}

impl View for Command {
    type V = SCommand;

    open spec fn view(&self) -> SCommand {
        match self {
            Command::Repl => SCommand::Repl,
            Command::Run { file, flags } => SCommand::Run { file: file@, flags: flags_view(flags@) },
            Command::MissingRunFile => SCommand::MissingRunFile,
            Command::Init { target_dir, project_name } => SCommand::Init {
                target_dir: target_dir@,
                project_name: project_name@,
            },
            Command::Absorb { url } => SCommand::Absorb { url: url@ },
            Command::MissingAbsorbUrl => SCommand::MissingAbsorbUrl,
            Command::Help => SCommand::Help,
            Command::Unknown { command } => SCommand::Unknown { command: command@ },
        }
    }
}

/// The `--key value` pairs of `run` from argument `i` on: each key without its
/// dashes and upper-cased; an argument that is not a key with a value after it
/// is passed over.
pub open spec fn run_flags_spec(args: Seq<Seq<char>>, i: int) -> Seq<(Seq<char>, Seq<char>)>
    decreases args.len() - i,
{
    if i < 0 || i >= args.len() {
        Seq::empty()
    } else if starts_with(args[i], "--"@) && i + 1 < args.len() {
        seq![(uppercase_spec(args[i].skip(2)), args[i + 1])] + run_flags_spec(args, i + 2)
    } else {
        run_flags_spec(args, i + 1)
    }
}

/// Every argument is ASCII text.
pub open spec fn all_ascii(args: Seq<Seq<char>>) -> bool {
    forall|k: int| 0 <= k < args.len() ==> is_ascii_text(#[trigger] args[k])
}

/// `run_flags_spec` for ASCII arguments, where upper-casing a key turns
/// `a`..`z` into `A`..`Z` and keeps every other character.
pub open spec fn run_flags_ascii_spec(args: Seq<Seq<char>>, i: int) -> Seq<(Seq<char>, Seq<char>)>
    decreases args.len() - i,
{
    if i < 0 || i >= args.len() {
        Seq::empty()
    } else if starts_with(args[i], "--"@) && i + 1 < args.len() {
        seq![(ascii_upper(args[i].skip(2)), args[i + 1])] + run_flags_ascii_spec(args, i + 2)
    } else {
        run_flags_ascii_spec(args, i + 1)
    }
}

/// The folder named by the first `--folder <name>` from argument `i` on.
pub open spec fn folder_arg_spec(args: Seq<Seq<char>>, i: int) -> Option<Seq<char>>
    decreases args.len() - i,
{
    if i < 0 || i >= args.len() {
        None
    } else if args[i] == "--folder"@ && i + 1 < args.len() {
        Some(args[i + 1])
    } else {
        folder_arg_spec(args, i + 1)
    }
}

/// The command that the arguments (program name first) ask for.
pub open spec fn parse_command_spec(args: Seq<Seq<char>>) -> SCommand {
    if args.len() < 2 {
        SCommand::Repl
    } else {
        let cmd = args[1];
        if cmd == "run"@ {
            if args.len() < 3 {
                SCommand::MissingRunFile
            } else {
                SCommand::Run { file: args[2], flags: run_flags_spec(args, 3) }
            }
        } else if cmd == "init"@ {
            match folder_arg_spec(args, 2) {
                Some(f) => SCommand::Init { target_dir: f, project_name: f },
                None => SCommand::Init { target_dir: "."@, project_name: "jutsu_api"@ },
            }
        } else if cmd == "absorb"@ {
            if args.len() < 3 {
                SCommand::MissingAbsorbUrl
            } else {
                SCommand::Absorb { url: args[2] }
            }
        } else if cmd == "help"@ {
            SCommand::Help
        } else {
            SCommand::Unknown { command: cmd }
        }
    }
}

fn is_flag(arg: &String) -> (b: bool)
    ensures
        b == starts_with(arg@, "--"@),
{
    proof {
        reveal_strlit("--");
    }
    let s = str_chars(arg.as_str());
    if s.len() < 2 {
        return false;
    }
    if s[0] == '-' && s[1] == '-' {
        assert(s@.subrange(0, 2) =~= "--"@);
        true
    } else {
        assert(s@.subrange(0, 2)[0] == s@[0] && s@.subrange(0, 2)[1] == s@[1]);
        false
    }
}

fn run_flags(args: &Vec<String>, i: usize) -> (r: Vec<(String, String)>)
    requires
        i <= args.len(),
    ensures
        flags_view(r@) == run_flags_spec(texts_view(args@), i as int),
        all_ascii(texts_view(args@)) ==> flags_view(r@) == run_flags_ascii_spec(
            texts_view(args@),
            i as int,
        ),
    decreases args.len() - i,
{
    if i >= args.len() {
        let r: Vec<(String, String)> = Vec::new();
        assert(flags_view(r@) =~= Seq::<(Seq<char>, Seq<char>)>::empty());
        return r;
    }
    proof {
        reveal_strlit("--");
    }
    if is_flag(&args[i]) && i + 1 < args.len() {
        let s = str_chars(args[i].as_str());
        let key_chars = chars_between(&s, 2, s.len());
        let key_name = string_from_chars(&key_chars);
        assert(key_name@ == texts_view(args@)[i as int].skip(2));
        proof {
            if all_ascii(texts_view(args@)) {
                let a = texts_view(args@)[i as int];
                assert(is_ascii_text(a));
                assert forall|j: int| 0 <= j < key_name@.len() implies (#[trigger] key_name@[j] as u32)
                    < 128 by {
                    assert(key_name@[j] == a[j + 2]);
                }
            }
        }
        let key = to_uppercase(key_name.as_str());
        let value = args[i + 1].clone();
        let rest = run_flags(args, i + 2);
        let mut r: Vec<(String, String)> = Vec::new();
        let ghost pair = (key@, value@);
        r.push((key, value));
        let mut rest = rest;
        let ghost rest_view = flags_view(rest@);
        r.append(&mut rest);
        assert(flags_view(r@) =~= seq![pair] + rest_view);
        r
    } else {
        run_flags(args, i + 1)
    }
}

fn folder_arg(args: &Vec<String>, i: usize) -> (r: Option<String>)
    requires
        i <= args.len(),
    ensures
        match r {
            Some(f) => folder_arg_spec(texts_view(args@), i as int) == Some(f@),
            None => folder_arg_spec(texts_view(args@), i as int) is None,
        },
    decreases args.len() - i,
{
    if i >= args.len() {
        return None;
    }
    if args[i] == String::from_str("--folder") && i + 1 < args.len() {
        Some(args[i + 1].clone())
    } else {
        folder_arg(args, i + 1)
    }
}

/// Reads the command line (program name first).
pub fn parse_command(args: &Vec<String>) -> (c: Command)
    ensures
        c@ == parse_command_spec(texts_view(args@)),
        all_ascii(texts_view(args@)) ==> (c@ matches SCommand::Run { flags, .. } ==> flags
            == run_flags_ascii_spec(texts_view(args@), 3)),
{
    if args.len() < 2 {
        return Command::Repl;
    }
    let cmd = &args[1];
    if *cmd == String::from_str("run") {
        if args.len() < 3 {
            Command::MissingRunFile
        } else {
            Command::Run { file: args[2].clone(), flags: run_flags(args, 3) }
        }
    } else if *cmd == String::from_str("init") {
        match folder_arg(args, 2) {
            Some(f) => Command::Init { target_dir: f.clone(), project_name: f },
            None => Command::Init {
                target_dir: String::from_str("."),
                project_name: String::from_str("jutsu_api"),
            },
        }
    } else if *cmd == String::from_str("absorb") {
        if args.len() < 3 {
            Command::MissingAbsorbUrl
        } else {
            Command::Absorb { url: args[2].clone() }
        }
    } else if *cmd == String::from_str("help") {
        Command::Help
    } else {
        Command::Unknown { command: cmd.clone() }
    }
}

/// The files that `init` writes for a project.
pub struct ProjectLayout {
    pub api_dir: String,
    pub toml_path: String,
    pub toml_content: String,
    pub gitignore_path: String,
    pub main_ju_path: String,
    pub gitignore_content: String,
    pub main_ju_content: String,
}

/// The folder prefix of a project's files: none for the current directory,
/// else the folder and a slash.
pub open spec fn base_path_spec(target_dir: Seq<char>) -> Seq<char> {
    if target_dir == "."@ {
        Seq::empty()
    } else {
        target_dir + "/"@
    }
}

/// The contents of `tgn.toml` for a project.
pub open spec fn project_toml_spec(name: Seq<char>) -> Seq<char> {
    "[package]\nname = \""@ + name
        + "\"\nversion = \"0.1.0\"\nauthor = \"Jutsu Developer\"\ndescription = \"A native AI inference API powered by Jutsu Language\"\n\n[models]\n# Define the AI models required for this project\n# Tengen will download them into the global cache using 'tgn absorb'\n# qwen = \"qwen1_5-0_5b-chat-q4_0.gguf\"\n"@
}

fn join2(a: &str, b: &str) -> (r: String)
    ensures
        r@ == a@ + b@,
{
    let parts = vec![a, b];
    let r = concat(&parts);
    proof {
        reveal_with_fuel(concat_spec, 3);
        let v = Seq::new(parts@.len(), |i: int| parts@[i]@);
        assert(v.drop_last().drop_last() =~= Seq::<Seq<char>>::empty());
        assert(concat_spec(v) =~= a@ + b@);
    }
    r
}

/// Where `init` puts a project's files, and its `tgn.toml`.
pub fn project_layout(target_dir: &str, project_name: &str) -> (l: ProjectLayout)
    ensures
        l.api_dir@ == base_path_spec(target_dir@) + "api"@,
        l.toml_path@ == base_path_spec(target_dir@) + "tgn.toml"@,
        l.toml_content@ == project_toml_spec(project_name@),
        l.gitignore_path@ == base_path_spec(target_dir@) + ".gitignore"@,
        l.main_ju_path@ == base_path_spec(target_dir@) + "api"@ + "/main.ju"@,
        l.gitignore_content@ == gitignore_template(),
        l.main_ju_content@ == main_ju_template(),
{
    let base = if String::from_str(target_dir) == String::from_str(".") {
        String::new()
    } else {
        join2(target_dir, "/")
    };
    let api_dir = join2(base.as_str(), "api");
    let toml_content = join2(
        join2("[package]\nname = \"", project_name).as_str(),
        "\"\nversion = \"0.1.0\"\nauthor = \"Jutsu Developer\"\ndescription = \"A native AI inference API powered by Jutsu Language\"\n\n[models]\n# Define the AI models required for this project\n# Tengen will download them into the global cache using 'tgn absorb'\n# qwen = \"qwen1_5-0_5b-chat-q4_0.gguf\"\n",
    );
    ProjectLayout {
        api_dir: api_dir.clone(),
        toml_path: join2(base.as_str(), "tgn.toml"),
        toml_content,
        gitignore_path: join2(base.as_str(), ".gitignore"),
        main_ju_path: join2(api_dir.as_str(), "/main.ju"),
        gitignore_content: String::from_str("# Tengen cache and AI models\n.tgn_cache/\n*.gguf\n*.log\n"),
        main_ju_content: String::from_str(
            "// Tengen API Entry Point\nprint(\"====================================\")\nprint(\"  Jutsu Engine: API Initialized     \")\nprint(\"====================================\")\n\n// Example of a 2D Tensor\nlet weights = tensor([\n    [0.5, 0.1],\n    [-0.2, 0.9]\n], grad=true)\n\nprint(\"Base Matrix:\")\nprint(weights)\n\n// Dynamic port injection from Tengen CLI (defaults to 8080 if not provided)\nlet server_port = PORT\n\n// To deploy a concurrent HTTP AI Server, uncomment the veil block:\n// veil(port = server_port) {\n//     let req = recv()\n//     if req != \"EMPTY_PING\" {\n//         reply(\"Hello from Jutsu API!\")\n//     }\n// }\n",
        ),
    }
}

/// The `.gitignore` of a new project.
pub open spec fn gitignore_template() -> Seq<char> {
    "# Tengen cache and AI models\n.tgn_cache/\n*.gguf\n*.log\n"@
}

/// The sample `api/main.ju` of a new project.
pub open spec fn main_ju_template() -> Seq<char> {
    "// Tengen API Entry Point\nprint(\"====================================\")\nprint(\"  Jutsu Engine: API Initialized     \")\nprint(\"====================================\")\n\n// Example of a 2D Tensor\nlet weights = tensor([\n    [0.5, 0.1],\n    [-0.2, 0.9]\n], grad=true)\n\nprint(\"Base Matrix:\")\nprint(weights)\n\n// Dynamic port injection from Tengen CLI (defaults to 8080 if not provided)\nlet server_port = PORT\n\n// To deploy a concurrent HTTP AI Server, uncomment the veil block:\n// veil(port = server_port) {\n//     let req = recv()\n//     if req != \"EMPTY_PING\" {\n//         reply(\"Hello from Jutsu API!\")\n//     }\n// }\n"@
}

} // verus!
