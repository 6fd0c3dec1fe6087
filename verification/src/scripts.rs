//! What a pane runs: the Bash rcfile of its actions, its PowerShell script,
//! and the `ssh` command carrying the Bash rcfile to a host.
use vstd::prelude::*;
use crate::encode::{base64, base64_encode};
use crate::model::ResolvedPane;
use crate::quote::{powershell_quote, powershell_quoted, shell_quote, shell_quoted};
use crate::text::{
    all_whitespace, decimal, decimal_string, lemma_trim_empty, push_str, string_from, texts_of,
    trim, trim_str,
};
use crate::validate::{host_ok, valid_host, ERR_HOST};

verus! {

pub const BASH_HEAD: &'static str = "# Generated by RunTerm\n[[ -f ~/.bashrc ]] && source ~/.bashrc\n__runterm_actions() {\n    trap 'return 130' INT\n";
pub const BASH_CD: &'static str = "    if ! builtin cd -- ";
pub const BASH_CD_FAILED: &'static str = "; then\n      printf '%s\\n' 'RunTerm : dossier inaccessible.' >&2\n      return 1\n    fi\n";
pub const BASH_HISTORY: &'static str = "    builtin history -s -- ";
pub const NEWLINE: &'static str = "\n";
pub const BASH_EVAL: &'static str = "    builtin eval -- ";
pub const BASH_STATUS: &'static str = "\n    local __rt_status=$?\n    if (( __rt_status != 0 )); then\n      printf 'RunTerm : action ";
pub const BASH_STOP: &'static str = " interrompue (code %s).\\n' \"$__rt_status\" >&2\n      return \"$__rt_status\"\n    fi\n";
pub const BASH_TAIL: &'static str = r#"    return 0
}
__runterm_old_prompt=$(declare -p PROMPT_COMMAND 2>/dev/null)
__runterm_startup() {
    unset PROMPT_COMMAND
    if [[ -n $__runterm_old_prompt ]]; then
        builtin eval -- "${__runterm_old_prompt/declare /declare -g }"
    fi
    unset __runterm_old_prompt
    local __runterm_old_int=$(trap -p INT)
    __runterm_actions
    trap - INT
    [[ -n $__runterm_old_int ]] && builtin eval -- "$__runterm_old_int"
    unset -f __runterm_actions __runterm_startup
}
PROMPT_COMMAND=__runterm_startup
"#;

pub const PS_HEAD: &'static str = "# Generated by RunTerm\n$__runterm_ok = $true\ntry { Set-Location -LiteralPath ";
pub const PS_CD_FAILED: &'static str = " -ErrorAction Stop }\ncatch { $__runterm_ok = $false; [Console]::Error.WriteLine('RunTerm : dossier inaccessible.') }\n";
pub const PS_ACTION: &'static str = "if ($__runterm_ok) {\n    $global:LASTEXITCODE = 0\n    try {\n        . ([scriptblock]::Create(";
pub const PS_CHECK: &'static str = "))\n        if (-not $? -or $global:LASTEXITCODE) {\n            $__runterm_ok = $false\n            [Console]::Error.WriteLine(\"RunTerm : action ";
pub const PS_CATCH: &'static str = " interrompue (code $global:LASTEXITCODE).\")\n        }\n    } catch {\n        $__runterm_ok = $false\n        [Console]::Error.WriteLine(\"RunTerm : action ";
pub const PS_END: &'static str = " interrompue : $_\")\n    }\n}\n";
pub const PS_TAIL: &'static str = "Remove-Variable __runterm_ok\n";

pub const SSH_START: &'static str = "exec ssh -t -- ";
pub const SSH_SPACE: &'static str = " ";
pub const SSH_REMOTE: &'static str = "exec bash -lc 'exec bash --rcfile <(base64 -d <<<$1) -i' runterm ";
pub const ERR_NO_HOST: &'static str = "Hôte SSH absent.";

/// Bash lines of action number `n` (from 1): pushed on the history list,
/// then run, a failure returning to the prompt.
pub open spec fn bash_action(n: nat, command: Seq<char>) -> Seq<char> {
    BASH_HISTORY@ + shell_quoted(trim(command)) + NEWLINE@ + BASH_EVAL@ + shell_quoted(command)
        + BASH_STATUS@ + decimal(n) + BASH_STOP@
}

/// Bash lines of every action; blank ones are left out but keep their number.
pub open spec fn bash_actions(commands: Seq<Seq<char>>) -> Seq<char>
    decreases commands.len(),
{
    if commands.len() == 0 {
        Seq::empty()
    } else {
        bash_actions(commands.drop_last()) + if all_whitespace(commands.last()) {
            Seq::empty()
        } else {
            bash_action(commands.len(), commands.last())
        }
    }
}

/// The interactive rcfile of a pane.
pub open spec fn bash_script(directory: Seq<char>, commands: Seq<Seq<char>>) -> Seq<char> {
    BASH_HEAD@ + BASH_CD@ + shell_quoted(directory) + BASH_CD_FAILED@ + bash_actions(commands)
        + BASH_TAIL@
}

/// PowerShell lines of action number `n`.
pub open spec fn powershell_action(n: nat, command: Seq<char>) -> Seq<char> {
    PS_ACTION@ + powershell_quoted(command) + PS_CHECK@ + decimal(n) + PS_CATCH@ + decimal(n)
        + PS_END@
}

pub open spec fn powershell_actions(commands: Seq<Seq<char>>) -> Seq<char>
    decreases commands.len(),
{
    if commands.len() == 0 {
        Seq::empty()
    } else {
        powershell_actions(commands.drop_last()) + if all_whitespace(commands.last()) {
            Seq::empty()
        } else {
            powershell_action(commands.len(), commands.last())
        }
    }
}

/// The PowerShell script of a pane, `directory` being a Windows path.
pub open spec fn powershell_text(directory: Seq<char>, commands: Seq<Seq<char>>) -> Seq<char> {
    PS_HEAD@ + powershell_quoted(directory) + PS_CD_FAILED@ + powershell_actions(commands)
        + PS_TAIL@
}

/// The command run in WSL to open a pane on `host`, or the error refusing the host.
pub open spec fn ssh_text(host: Seq<char>, script: Seq<char>) -> Result<Seq<char>, Seq<char>> {
    if !host_ok(host) {
        Err(ERR_HOST@)
    } else if host.len() == 0 {
        Err(ERR_NO_HOST@)
    } else {
        Ok(
            SSH_START@ + shell_quoted(host) + SSH_SPACE@ + shell_quoted(
                SSH_REMOTE@ + base64(vstd::utf8::encode_utf8(script)),
            ),
        )
    }
}

/// An interactive rcfile: actions share the shell, and failure/INT returns to its prompt.
pub fn pane_script(pane: &ResolvedPane) -> (script: String)
    ensures
        script@ == bash_script(pane.directory@, texts_of(pane.commands@)),
{
    let mut script = string_from(BASH_HEAD);
    push_str(&mut script, BASH_CD);
    let quoted = shell_quote(pane.directory.as_str());
    push_str(&mut script, quoted.as_str());
    push_str(&mut script, BASH_CD_FAILED);
    let ghost head = script@;
    let ghost cmds = texts_of(pane.commands@);
    let mut index: usize = 0;
    while index < pane.commands.len()
        invariant
            index <= pane.commands.len(),
            cmds == texts_of(pane.commands@),
            script@ == head + bash_actions(cmds.take(index as int)),
        decreases pane.commands.len() - index,
    {
        let command = pane.commands[index].as_str();
        proof {
            assert(cmds.take(index + 1).drop_last() =~= cmds.take(index as int));
            assert(cmds.take(index + 1).last() == command@);
        }
        let trimmed = trim_str(command);
        proof {
            lemma_trim_empty(command@);
        }
        if !trimmed.as_str().is_empty() {
            // The action is pushed on the history list so the up arrow recalls it,
            // as if the user had typed it. Trimmed, because a leading space keeps
            // the entry out of the history under the common `HISTCONTROL=ignoreboth`.
            let ghost before = script@;
            push_str(&mut script, BASH_HISTORY);
            push_str(&mut script, shell_quote(trimmed.as_str()).as_str());
            push_str(&mut script, NEWLINE);
            push_str(&mut script, BASH_EVAL);
            push_str(&mut script, shell_quote(command).as_str());
            push_str(&mut script, BASH_STATUS);
            push_str(&mut script, decimal_string(index + 1).as_str());
            push_str(&mut script, BASH_STOP);
            assert(script@ =~= before + bash_action((index + 1) as nat, command@));
        } else {
            assert(script@ =~= script@ + Seq::<char>::empty());
        }
        index += 1;
    }
    assert(cmds.take(index as int) =~= cmds);
    // Run only once, after Bash has completed initialization and enabled job control.
    // Restore scalar/array PROMPT_COMMAND before actions so user prompts keep working.
    push_str(&mut script, BASH_TAIL);
    script
}

/// Runs in the top-level scope of `powershell -NoExit`, so variables and
/// functions defined by an action stay available; the first failing action
/// (exception, `$?` false or non-zero `$LASTEXITCODE`) stops the sequence.
/// `directory` is a Windows path.
pub fn powershell_script(pane: &ResolvedPane, directory: &str) -> (script: String)
    ensures
        script@ == powershell_text(directory@, texts_of(pane.commands@)),
{
    let mut script = string_from(PS_HEAD);
    push_str(&mut script, powershell_quote(directory).as_str());
    push_str(&mut script, PS_CD_FAILED);
    let ghost head = script@;
    let ghost cmds = texts_of(pane.commands@);
    let mut index: usize = 0;
    while index < pane.commands.len()
        invariant
            index <= pane.commands.len(),
            cmds == texts_of(pane.commands@),
            script@ == head + powershell_actions(cmds.take(index as int)),
        decreases pane.commands.len() - index,
    {
        let command = pane.commands[index].as_str();
        proof {
            assert(cmds.take(index + 1).drop_last() =~= cmds.take(index as int));
            assert(cmds.take(index + 1).last() == command@);
            lemma_trim_empty(command@);
        }
        let trimmed = trim_str(command);
        if !trimmed.as_str().is_empty() {
            let n = decimal_string(index + 1);
            let ghost before = script@;
            push_str(&mut script, PS_ACTION);
            push_str(&mut script, powershell_quote(command).as_str());
            push_str(&mut script, PS_CHECK);
            push_str(&mut script, n.as_str());
            push_str(&mut script, PS_CATCH);
            push_str(&mut script, n.as_str());
            push_str(&mut script, PS_END);
            assert(script@ =~= before + powershell_action((index + 1) as nat, command@));
        } else {
            assert(script@ =~= script@ + Seq::<char>::empty());
        }
        index += 1;
    }
    assert(cmds.take(index as int) =~= cmds);
    push_str(&mut script, PS_TAIL);
    script
}

/// Bash command, run by `bash -lic` in WSL, connecting to `host` and running
/// `script` there as the rcfile of an interactive Bash, like [`pane_script`]
/// in WSL. The script travels in base64 inside the remote command, so nothing
/// is written on the host and authentication happens in the pane.
pub fn ssh_command(host: &str, script: &str) -> (r: Result<String, String>)
    ensures
        match (r, ssh_text(host@, script@)) {
            (Ok(c), Ok(t)) => c@ == t,
            (Err(e), Err(t)) => e@ == t,
            _ => false,
        },
{
    if let Err(e) = valid_host(host) {
        return Err(e);
    }
    if host.is_empty() {
        return Err(string_from(ERR_NO_HOST));
    }
    // Parsed by the user's login shell on the host (sh, bash, zsh or fish):
    // only single quotes, and no `"`, which Windows Terminal may not relay.
    let mut remote = string_from(SSH_REMOTE);
    push_str(&mut remote, base64_encode(script.as_bytes()).as_str());
    let mut command = string_from(SSH_START);
    push_str(&mut command, shell_quote(host).as_str());
    push_str(&mut command, SSH_SPACE);
    push_str(&mut command, shell_quote(remote.as_str()).as_str());
    Ok(command)
}

} // verus!
