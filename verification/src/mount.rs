//! The elevated scheduled task that attaches physical disks to WSL: names and script texts.
use vstd::prelude::*;
use crate::text::{append_chars, chars_of, replace_all, replace_chars, string_of};

verus! {

/// The name of the scheduled task that runs `wsl --mount` with administrator rights.
pub const TASK_NAME: &'static str = "WSLKeeperMountTask";

/// `s` in double quotes for a Windows command line, with each `"` escaped as `\"`.
pub open spec fn quote_cmd_spec(s: Seq<char>) -> Seq<char> {
    seq!['"'] + replace_all(s, seq!['"'], seq!['\\', '"']) + seq!['"']
}

/// `s` in PowerShell single quotes, with each `'` doubled.
pub open spec fn ps_single_quote_spec(s: Seq<char>) -> Seq<char> {
    seq!['\''] + replace_all(s, seq!['\''], seq!['\'', '\'']) + seq!['\'']
}

/// Quotes `s` for a Windows command line.
pub fn quote_cmd(s: &str) -> (r: String)
    ensures
        r@ == quote_cmd_spec(s@),
{
    string_of(&quote_cmd_chars(s))
}

fn quote_cmd_chars(s: &str) -> (r: Vec<char>)
    ensures
        r@ == quote_cmd_spec(s@),
{
    let mut pat: Vec<char> = Vec::new();
    pat.push('"');
    let mut rep: Vec<char> = Vec::new();
    rep.push('\\');
    rep.push('"');
    assert(pat@ =~= seq!['"']);
    assert(rep@ =~= seq!['\\', '"']);
    let body = replace_chars(&chars_of(s), &pat, &rep);
    let mut out: Vec<char> = Vec::new();
    out.push('"');
    append_chars(&mut out, &body);
    out.push('"');
    assert(out@ =~= quote_cmd_spec(s@));
    out
}

/// Quotes `s` as a PowerShell single-quoted string.
pub fn ps_single_quote(s: &str) -> (r: String)
    ensures
        r@ == ps_single_quote_spec(s@),
{
    string_of(&ps_single_quote_chars(s))
}

fn ps_single_quote_chars(s: &str) -> (r: Vec<char>)
    ensures
        r@ == ps_single_quote_spec(s@),
{
    let mut pat: Vec<char> = Vec::new();
    pat.push('\'');
    let mut rep: Vec<char> = Vec::new();
    rep.push('\'');
    rep.push('\'');
    assert(pat@ =~= seq!['\'']);
    assert(rep@ =~= seq!['\'', '\'']);
    let body = replace_chars(&chars_of(s), &pat, &rep);
    let mut out: Vec<char> = Vec::new();
    out.push('\'');
    append_chars(&mut out, &body);
    out.push('\'');
    assert(out@ =~= ps_single_quote_spec(s@));
    out
}

/// The text of the script that registers the scheduled task, before the task name.
pub const CREATE_TASK_HEAD: &'static str = r#"$ErrorActionPreference = 'Stop'
$taskName = '"#;

/// The text between the task name and the helper script's path.
pub const CREATE_TASK_MIDDLE: &'static str = r#"'
$helper = '"#;

/// The text after the helper script's path.
pub const CREATE_TASK_TAIL: &'static str = r#"'
$action = New-ScheduledTaskAction -Execute 'powershell.exe' -Argument ('-NoProfile -ExecutionPolicy Bypass -WindowStyle Hidden -File "' + $helper + '"')
$principal = New-ScheduledTaskPrincipal -UserId $env:USERNAME -LogonType Interactive -RunLevel Highest
$settings = New-ScheduledTaskSettingsSet -AllowStartIfOnBatteries -DontStopIfGoingOnBatteries -StartWhenAvailable -DontStopOnIdleEnd -Hidden
Register-ScheduledTask -TaskName $taskName -Action $action -Principal $principal -Settings $settings -Force | Out-Null
"#;

/// The script that registers the task running `helper_path` with highest privileges.
pub open spec fn create_task_script_spec(helper_path: Seq<char>) -> Seq<char> {
    CREATE_TASK_HEAD@ + TASK_NAME@ + CREATE_TASK_MIDDLE@ + replace_all(
        helper_path,
        seq!['\''],
        seq!['\'', '\''],
    ) + CREATE_TASK_TAIL@
}

/// The script that registers the scheduled task for the helper at `helper_path`.
pub fn create_task_script(helper_path: &str) -> (r: String)
    ensures
        r@ == create_task_script_spec(helper_path@),
{
    let mut pat: Vec<char> = Vec::new();
    pat.push('\'');
    let mut rep: Vec<char> = Vec::new();
    rep.push('\'');
    rep.push('\'');
    assert(pat@ =~= seq!['\'']);
    assert(rep@ =~= seq!['\'', '\'']);
    let mut out = chars_of(CREATE_TASK_HEAD);
    append_chars(&mut out, &chars_of(TASK_NAME));
    append_chars(&mut out, &chars_of(CREATE_TASK_MIDDLE));
    append_chars(&mut out, &replace_chars(&chars_of(helper_path), &pat, &rep));
    append_chars(&mut out, &chars_of(CREATE_TASK_TAIL));
    string_of(&out)
}

/// The PowerShell command that runs the task-creation script elevated (a UAC prompt).
pub open spec fn elevation_command_spec(script_path: Seq<char>) -> Seq<char> {
    "Start-Process -FilePath powershell.exe -Verb RunAs -Wait -ArgumentList "@
        + ps_single_quote_spec(
        "-NoProfile -ExecutionPolicy Bypass -File "@ + quote_cmd_spec(script_path),
    )
}

/// The command that runs the script at `script_path` with administrator rights.
pub fn elevation_command(script_path: &str) -> (r: String)
    ensures
        r@ == elevation_command_spec(script_path@),
{
    let mut args = chars_of("-NoProfile -ExecutionPolicy Bypass -File ");
    append_chars(&mut args, &quote_cmd_chars(script_path));
    let args_text = string_of(&args);
    let mut out = chars_of("Start-Process -FilePath powershell.exe -Verb RunAs -Wait -ArgumentList ");
    append_chars(&mut out, &ps_single_quote_chars(args_text.as_str()));
    string_of(&out)
}

} // verus!
