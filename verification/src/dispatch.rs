//! Reading the command loop's input and choosing what runs.

use vstd::prelude::*;
use vstd::string::*;
use crate::text::{same_text, trim, trim_spec};

verus! {

/// The built-in commands run in a child process.
#[derive(Clone, Copy, PartialEq, Eq, Structural)]
pub enum Builtin {
    Echo,
    Ls,
    Cat,
    Mkdir,
    Rm,
    Cp,
    Pwd,
    Mv,
}

/// What the child process does.
pub enum ChildCommand {
    Run(Builtin),
    /// Print this line: the command is unknown.
    NotFound(String),
}

/// What a command line leads to.
pub enum Dispatch {
    /// The line has no words.
    Nothing,
    /// `cd`, run in the shell process itself.
    ChangeDirectory,
    /// Anything else, run in a child process.
    Fork(ChildCommand),
}

/// The built-in command named `name`, if any.
pub open spec fn builtin_named(name: Seq<char>) -> Option<Builtin> {
    if name == "echo"@ {
        Some(Builtin::Echo)
    } else if name == "ls"@ {
        Some(Builtin::Ls)
    } else if name == "cat"@ {
        Some(Builtin::Cat)
    } else if name == "mkdir"@ {
        Some(Builtin::Mkdir)
    } else if name == "rm"@ {
        Some(Builtin::Rm)
    } else if name == "cp"@ {
        Some(Builtin::Cp)
    } else if name == "pwd"@ {
        Some(Builtin::Pwd)
    } else if name == "mv"@ {
        Some(Builtin::Mv)
    } else {
        None
    }
}

fn lookup(name: &str) -> (r: Option<Builtin>)
    ensures
        r == builtin_named(name@),
{
    if same_text(name, "echo") {
        Some(Builtin::Echo)
    } else if same_text(name, "ls") {
        Some(Builtin::Ls)
    } else if same_text(name, "cat") {
        Some(Builtin::Cat)
    } else if same_text(name, "mkdir") {
        Some(Builtin::Mkdir)
    } else if same_text(name, "rm") {
        Some(Builtin::Rm)
    } else if same_text(name, "cp") {
        Some(Builtin::Cp)
    } else if same_text(name, "pwd") {
        Some(Builtin::Pwd)
    } else if same_text(name, "mv") {
        Some(Builtin::Mv)
    } else {
        None
    }
}

/// Chooses what the words of a command line lead to; the first word names
/// the command, the rest are its operands.
pub fn dispatch(parts: &Vec<String>) -> (r: Dispatch)
    ensures
        parts@.len() == 0 ==> r is Nothing,
        parts@.len() > 0 && parts@[0]@ == "cd"@ ==> r is ChangeDirectory,
        parts@.len() > 0 && parts@[0]@ != "cd"@ ==> match builtin_named(parts@[0]@) {
            Some(b) => r == Dispatch::Fork(ChildCommand::Run(b)),
            None => r matches Dispatch::Fork(ChildCommand::NotFound(m))
                && m@ == "Command '"@ + parts@[0]@ + "' not found"@,
        },
{
    if parts.len() == 0 {
        return Dispatch::Nothing;
    }
    let cmd = parts[0].as_str();
    if same_text(cmd, "cd") {
        return Dispatch::ChangeDirectory;
    }
    match lookup(cmd) {
        Some(b) => Dispatch::Fork(ChildCommand::Run(b)),
        None => Dispatch::Fork(ChildCommand::NotFound(crate::output::concat3("Command '", cmd, "' not found"))),
    }
}

/// What the command loop does with one read.
pub enum ReplStep {
    /// Input has ended.
    EndOfInput,
    /// The user asked to leave.
    Exit,
    /// A blank line.
    Skip,
    /// Run this command line (trimmed).
    Run(String),
}

/// Decides what one read of the command loop leads to: `bytes_read` is
/// what the read reported, `line` what it gave.
pub fn repl_step(line: &str, bytes_read: usize) -> (r: ReplStep)
    ensures
        bytes_read == 0 ==> r is EndOfInput,
        bytes_read > 0 && trim_spec(line@) == "exit"@ ==> r is Exit,
        bytes_read > 0 && trim_spec(line@).len() == 0 ==> r is Skip,
        bytes_read > 0 && trim_spec(line@) != "exit"@ && trim_spec(line@).len() > 0
            ==> (r matches ReplStep::Run(c) && c@ == trim_spec(line@)),
{
    if bytes_read == 0 {
        return ReplStep::EndOfInput;
    }
    let t = trim(line);
    proof {
        reveal_strlit("exit");
    }
    if same_text(t.as_str(), "exit") {
        ReplStep::Exit
    } else if t.as_str().unicode_len() == 0 {
        ReplStep::Skip
    } else {
        ReplStep::Run(t)
    }
}

/// The command name of each built-in.
pub open spec fn builtin_name(b: Builtin) -> Seq<char> {
    match b {
        Builtin::Echo => "echo"@,
        Builtin::Ls => "ls"@,
        Builtin::Cat => "cat"@,
        Builtin::Mkdir => "mkdir"@,
        Builtin::Rm => "rm"@,
        Builtin::Cp => "cp"@,
        Builtin::Pwd => "pwd"@,
        Builtin::Mv => "mv"@,
    }
}

/// The command names are distinct from one another and from `cd`.
proof fn lemma_command_names_distinct()
    ensures
        "echo"@ != "ls"@,
        "echo"@ != "cat"@,
        "echo"@ != "mkdir"@,
        "echo"@ != "rm"@,
        "echo"@ != "cp"@,
        "echo"@ != "pwd"@,
        "echo"@ != "mv"@,
        "echo"@ != "cd"@,
        "ls"@ != "cat"@,
        "ls"@ != "mkdir"@,
        "ls"@ != "rm"@,
        "ls"@ != "cp"@,
        "ls"@ != "pwd"@,
        "ls"@ != "mv"@,
        "ls"@ != "cd"@,
        "cat"@ != "mkdir"@,
        "cat"@ != "rm"@,
        "cat"@ != "cp"@,
        "cat"@ != "pwd"@,
        "cat"@ != "mv"@,
        "cat"@ != "cd"@,
        "mkdir"@ != "rm"@,
        "mkdir"@ != "cp"@,
        "mkdir"@ != "pwd"@,
        "mkdir"@ != "mv"@,
        "mkdir"@ != "cd"@,
        "rm"@ != "cp"@,
        "rm"@ != "pwd"@,
        "rm"@ != "mv"@,
        "rm"@ != "cd"@,
        "cp"@ != "pwd"@,
        "cp"@ != "mv"@,
        "cp"@ != "cd"@,
        "pwd"@ != "mv"@,
        "pwd"@ != "cd"@,
        "mv"@ != "cd"@,
{
    reveal_strlit("echo");
    reveal_strlit("ls");
    reveal_strlit("cat");
    reveal_strlit("mkdir");
    reveal_strlit("rm");
    reveal_strlit("cp");
    reveal_strlit("pwd");
    reveal_strlit("mv");
    reveal_strlit("cd");
    assert("echo"@ != "ls"@) by { assert("echo"@.len() != "ls"@.len()); }
    assert("echo"@ != "cat"@) by { assert("echo"@.len() != "cat"@.len()); }
    assert("echo"@ != "mkdir"@) by { assert("echo"@.len() != "mkdir"@.len()); }
    assert("echo"@ != "rm"@) by { assert("echo"@.len() != "rm"@.len()); }
    assert("echo"@ != "cp"@) by { assert("echo"@.len() != "cp"@.len()); }
    assert("echo"@ != "pwd"@) by { assert("echo"@.len() != "pwd"@.len()); }
    assert("echo"@ != "mv"@) by { assert("echo"@.len() != "mv"@.len()); }
    assert("echo"@ != "cd"@) by { assert("echo"@.len() != "cd"@.len() || "echo"@[0] != "cd"@[0] || "echo"@[1] != "cd"@[1]); }
    assert("ls"@ != "cat"@) by { assert("ls"@.len() != "cat"@.len()); }
    assert("ls"@ != "mkdir"@) by { assert("ls"@.len() != "mkdir"@.len()); }
    assert("ls"@ != "rm"@) by { assert("ls"@[0] != "rm"@[0]); }
    assert("ls"@ != "cp"@) by { assert("ls"@[0] != "cp"@[0]); }
    assert("ls"@ != "pwd"@) by { assert("ls"@.len() != "pwd"@.len()); }
    assert("ls"@ != "mv"@) by { assert("ls"@[0] != "mv"@[0]); }
    assert("ls"@ != "cd"@) by { assert("ls"@.len() != "cd"@.len() || "ls"@[0] != "cd"@[0] || "ls"@[1] != "cd"@[1]); }
    assert("cat"@ != "mkdir"@) by { assert("cat"@.len() != "mkdir"@.len()); }
    assert("cat"@ != "rm"@) by { assert("cat"@.len() != "rm"@.len()); }
    assert("cat"@ != "cp"@) by { assert("cat"@.len() != "cp"@.len()); }
    assert("cat"@ != "pwd"@) by { assert("cat"@[0] != "pwd"@[0]); }
    assert("cat"@ != "mv"@) by { assert("cat"@.len() != "mv"@.len()); }
    assert("cat"@ != "cd"@) by { assert("cat"@.len() != "cd"@.len() || "cat"@[0] != "cd"@[0] || "cat"@[1] != "cd"@[1]); }
    assert("mkdir"@ != "rm"@) by { assert("mkdir"@.len() != "rm"@.len()); }
    assert("mkdir"@ != "cp"@) by { assert("mkdir"@.len() != "cp"@.len()); }
    assert("mkdir"@ != "pwd"@) by { assert("mkdir"@.len() != "pwd"@.len()); }
    assert("mkdir"@ != "mv"@) by { assert("mkdir"@.len() != "mv"@.len()); }
    assert("mkdir"@ != "cd"@) by { assert("mkdir"@.len() != "cd"@.len() || "mkdir"@[0] != "cd"@[0] || "mkdir"@[1] != "cd"@[1]); }
    assert("rm"@ != "cp"@) by { assert("rm"@[0] != "cp"@[0]); }
    assert("rm"@ != "pwd"@) by { assert("rm"@.len() != "pwd"@.len()); }
    assert("rm"@ != "mv"@) by { assert("rm"@[0] != "mv"@[0]); }
    assert("rm"@ != "cd"@) by { assert("rm"@.len() != "cd"@.len() || "rm"@[0] != "cd"@[0] || "rm"@[1] != "cd"@[1]); }
    assert("cp"@ != "pwd"@) by { assert("cp"@.len() != "pwd"@.len()); }
    assert("cp"@ != "mv"@) by { assert("cp"@[0] != "mv"@[0]); }
    assert("cp"@ != "cd"@) by { assert("cp"@.len() != "cd"@.len() || "cp"@[0] != "cd"@[0] || "cp"@[1] != "cd"@[1]); }
    assert("pwd"@ != "mv"@) by { assert("pwd"@.len() != "mv"@.len()); }
    assert("pwd"@ != "cd"@) by { assert("pwd"@.len() != "cd"@.len() || "pwd"@[0] != "cd"@[0] || "pwd"@[1] != "cd"@[1]); }
    assert("mv"@ != "cd"@) by { assert("mv"@.len() != "cd"@.len() || "mv"@[0] != "cd"@[0] || "mv"@[1] != "cd"@[1]); }
}

/// A built-in is chosen exactly by its own name: every built-in's name
/// selects that built-in, and a word that selects a built-in is its name.
pub proof fn law_builtin_chosen_by_its_name(b: Builtin, name: Seq<char>)
    ensures
        builtin_named(builtin_name(b)) == Some(b),
        builtin_named(name) == Some(b) ==> name == builtin_name(b),
{
    lemma_command_names_distinct();
}

/// A command line runs the built-in whose name is its first word: when
/// `dispatch` forks to run a built-in, that built-in's name is the first
/// word, and a first word naming a built-in (other than `cd`) runs it.
pub proof fn law_dispatch_runs_the_named_builtin(parts: Seq<Seq<char>>, r: Dispatch, b: Builtin)
    requires
        parts.len() == 0 ==> r is Nothing,
        parts.len() > 0 && parts[0] == "cd"@ ==> r is ChangeDirectory,
        parts.len() > 0 && parts[0] != "cd"@ ==> match builtin_named(parts[0]) {
            Some(x) => r == Dispatch::Fork(ChildCommand::Run(x)),
            None => r matches Dispatch::Fork(ChildCommand::NotFound(m))
                && m@ == "Command '"@ + parts[0] + "' not found"@,
        },
    ensures
        r == Dispatch::Fork(ChildCommand::Run(b)) ==> parts.len() > 0 && parts[0] == builtin_name(b),
        parts.len() > 0 && parts[0] == builtin_name(b) ==> r == Dispatch::Fork(ChildCommand::Run(b)),
{
    lemma_command_names_distinct();
    if parts.len() > 0 {
        law_builtin_chosen_by_its_name(b, parts[0]);
    }
}

} // verus!
