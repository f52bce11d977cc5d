//! What an update of this program comes to. There is no channel that it updates
//! itself through: it is installed by its bundle alone, and no other installer's
//! command is ever run for it.

use crate::text;
use vstd::prelude::*;
use vstd::string::*;

verus! {

/// How a program was installed.
#[derive(Debug, Clone, Copy, PartialEq, Eq, Structural)]
pub enum InstallMethod {
    Other,
    Npm,
    Bun,
    Brew,
    StandaloneUnix,
    StandaloneWindows,
}

/// An update to carry out.
#[derive(Debug, Clone, Copy, PartialEq, Eq, Structural)]
pub enum UpdateAction {
    /// Run the installer of the bundle again.
    RerunMillieInstaller,
}

/// The words of a command as a shell reads them back, each quoted where it must be;
/// none where they cannot be written so.
pub uninterp spec fn shell_joined(words: Seq<Seq<char>>) -> Option<Seq<char>>;

pub open spec fn has_nul(words: Seq<Seq<char>>) -> bool {
    exists|i: int, k: int|
        0 <= i < words.len() && 0 <= k < (#[trigger] words[i]).len() && #[trigger] words[i][k]
            == '\0'
}

/// `shlex::try_join`: the words with a space between each two, quoted where a shell
/// needs it. It fails on a word that holds a null character, and on nothing else. How
/// words are quoted is left to its name.
#[verifier::external_body]
fn try_join(words: &Vec<String>) -> (r: Option<String>)
    ensures
        text::optional(r) == shell_joined(text::strings(words@)),
        r is None <==> has_nul(text::strings(words@)),
{
    shlex::try_join(words.iter().map(|w| w.as_str())).ok()
}

/// The command line of a command and its arguments.
pub open spec fn command_line(command: Seq<char>, args: Seq<Seq<char>>) -> Seq<char> {
    match shell_joined(seq![command] + args) {
        Some(line) => line,
        None => command + " "@ + text::join(args, " "@),
    }
}

/// The command line of a command and its arguments: quoted for a shell, or where
/// that cannot be, as it is.
pub fn shell_command(command: &str, args: &Vec<String>) -> (r: String)
    ensures
        r@ == command_line(command@, text::strings(args@)),
{
    let ghost all = text::strings(args@);
    let mut words: Vec<String> = Vec::new();
    words.push(command.to_string());
    let mut i: usize = 0;
    assert(text::strings(words@) =~= seq![command@] + all.take(0));
    while i < args.len()
        invariant
            i <= args@.len(),
            all == text::strings(args@),
            text::strings(words@) == seq![command@] + all.take(i as int),
        decreases args@.len() - i,
    {
        let ghost before = words@;
        let word = args[i].clone();
        words.push(word);
        assert(text::strings(words@) =~= text::strings(before).push(word@));
        assert(seq![command@] + all.take(i + 1) =~= (seq![command@] + all.take(i as int)).push(
            all[i as int],
        ));
        i += 1;
    }
    assert(all.take(i as int) =~= all);
    match try_join(&words) {
        Some(line) => line,
        None => {
            let mut out = command.to_string();
            out.append(" ");
            out.append(text::join_strings(args, " ").as_str());
            out
        },
    }
}

pub open spec fn installer_hint() -> Seq<char> {
    "echo 'Update Millie by re-running install.sh from a newer Millie bundle.'"@
}

impl UpdateAction {
    /// The update that a way of installing calls for: never any, since each of them
    /// belongs to another program's releases.
    pub fn from_install_context(method: InstallMethod) -> (r: Option<UpdateAction>)
        ensures
            r is None,
    {
        None
    }

    /// The program and the arguments that carry the update out.
    pub fn command_args(self) -> (r: (&'static str, Vec<&'static str>))
        ensures
            r.0@ == "sh"@,
            r.1@.len() == 2,
            r.1@[0]@ == "-c"@,
            r.1@[1]@ == installer_hint(),
    {
        match self {
            UpdateAction::RerunMillieInstaller => {
                let mut args: Vec<&'static str> = Vec::new();
                args.push("-c");
                args.push(
                    "echo 'Update Millie by re-running install.sh from a newer Millie bundle.'",
                );
                ("sh", args)
            },
        }
    }

    /// The command as a line for a shell.
    pub fn command_str(self) -> (r: String)
        ensures
            r@ == command_line("sh"@, seq!["-c"@, installer_hint()]),
    {
        let (command, args) = self.command_args();
        let mut words: Vec<String> = Vec::new();
        let mut i: usize = 0;
        while i < args.len()
            invariant
                i <= args@.len(),
                words@.len() == i,
                forall|k: int| 0 <= k < i ==> (#[trigger] words@[k])@ == args@[k]@,
            decreases args@.len() - i,
        {
            words.push(args[i].to_string());
            i += 1;
        }
        assert(text::strings(words@) =~= seq!["-c"@, installer_hint()]);
        shell_command(command, &words)
    }
}

} // verus!
