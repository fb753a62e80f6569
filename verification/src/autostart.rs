//! Start-at-login through the per-user `Run` registry value: the command line
//! that is registered, how a registered command is read back, and what to do
//! when the registration is missing, stale or disabled. The registry itself
//! is read and written by the host.
use vstd::prelude::*;
use vstd::string::*;
use crate::text::{
    chars_of, find_char, find_char_from, is_white_space, is_white_space_exec, owned, skip_ws_backward, skip_ws_forward, slice_vec, string_of,
    trim_vec, trim_ws,
};

verus! {

/// Argument appended to the registered command line: start hidden in the tray.
pub const HIDDEN_ARG: &'static str = "--autostart-hidden";

/// The byte that marks a startup entry as disabled under `StartupApproved\Run`.
pub const STARTUP_DISABLED_FLAG: u8 = 3;

/// This process was started by the login entry (its arguments hold `HIDDEN_ARG`).
pub fn is_hidden_launch(args: &Vec<String>) -> (r: bool)
    ensures
        r == exists|i: int| 0 <= i < args@.len() && #[trigger] args@[i]@ == HIDDEN_ARG@,
{
    let mut i: usize = 0;
    while i < args.len()
        invariant
            i <= args@.len(),
            forall|j: int| 0 <= j < i ==> #[trigger] args@[j]@ != HIDDEN_ARG@,
        decreases args@.len() - i,
    {
        if crate::text::str_eq(args[i].as_str(), HIDDEN_ARG) {
            return true;
        }
        i = i + 1;
    }
    false
}

/// `"<exe>" --autostart-hidden`: the quoted executable path and the hidden flag.
pub fn launch_command_line(exe_path: &str) -> (r: String)
    ensures
        r@ == seq!['"'] + exe_path@ + seq!['"', ' '] + HIDDEN_ARG@,
{
    let mut s = owned("\"");
    s.append(exe_path);
    s.append("\" ");
    s.append(HIDDEN_ARG);
    proof {
        reveal_strlit("\"");
        reveal_strlit("\" ");
    }
    assert(s@ =~= seq!['"'] + exe_path@ + seq!['"', ' '] + HIDDEN_ARG@);
    s
}

/// Index of the first white space character in `s` at or after `i` (or `s.len()`).
pub open spec fn word_end(s: Seq<char>, i: int) -> int
    decreases s.len() - i,
{
    if i < 0 || i >= s.len() {
        s.len() as int
    } else if is_white_space(s[i]) {
        i
    } else {
        word_end(s, i + 1)
    }
}

/// `str::split_whitespace().next()`: the first white-space separated word.
pub open spec fn first_word(s: Seq<char>) -> Option<Seq<char>> {
    let a = skip_ws_forward(s, 0);
    if a >= s.len() {
        None
    } else {
        Some(s.subrange(a, word_end(s, a)))
    }
}

/// The executable of a registered command line: the text inside the leading
/// quotes (trimmed), or else the first word.
pub open spec fn spec_exe_path_from_command(cmd: Seq<char>) -> Option<Seq<char>> {
    let t = trim_ws(cmd);
    if t.len() > 0 && t[0] == '"' {
        let rest = t.drop_first();
        match find_char_from(rest, '"', 0) {
            Some(e) => Some(trim_ws(rest.take(e))),
            None => None,
        }
    } else {
        first_word(t)
    }
}

/// Index of the first non-white-space character at or after `from`.
fn skip_ws(v: &Vec<char>, from: usize) -> (r: usize)
    requires
        from <= v@.len(),
    ensures
        r as int == skip_ws_forward(v@, from as int),
        r <= v@.len(),
{
    let mut i = from;
    while i < v.len() && is_white_space_exec(v[i])
        invariant
            from <= i <= v@.len(),
            skip_ws_forward(v@, from as int) == skip_ws_forward(v@, i as int),
        decreases v@.len() - i,
    {
        i = i + 1;
    }
    i
}

/// Index of the first white-space character at or after `from`.
fn find_ws(v: &Vec<char>, from: usize) -> (r: usize)
    requires
        from <= v@.len(),
    ensures
        r as int == word_end(v@, from as int),
        from <= r <= v@.len(),
{
    let mut i = from;
    while i < v.len() && !is_white_space_exec(v[i])
        invariant
            from <= i <= v@.len(),
            word_end(v@, from as int) == word_end(v@, i as int),
        decreases v@.len() - i,
    {
        i = i + 1;
    }
    i
}

/// The executable path named by a `Run` command line.
pub fn exe_path_from_command(cmd_line: &str) -> (r: Option<String>)
    ensures
        r matches Some(p) ==> spec_exe_path_from_command(cmd_line@) == Some(p@),
        r is None ==> spec_exe_path_from_command(cmd_line@) is None,
{
    let chars = chars_of(cmd_line);
    let (a, b) = trim_vec(&chars);
    let t = slice_vec(&chars, a, b);
    if t.len() > 0 && t[0] == '"' {
        let rest = slice_vec(&t, 1, t.len());
        assert(rest@ =~= t@.drop_first());
        match find_char(&rest, '"', 0) {
            Some(e) => {
                let inner = slice_vec(&rest, 0, e);
                assert(inner@ =~= rest@.take(e as int));
                let (p, q) = trim_vec(&inner);
                Some(string_of(&inner, p, q))
            },
            None => None,
        }
    } else {
        let s = skip_ws(&t, 0);
        if s >= t.len() {
            return None;
        }
        let e = find_ws(&t, s);
        Some(string_of(&t, s, e))
    }
}


/// ASCII lower case of one character (other characters unchanged).
pub open spec fn ascii_lower(c: char) -> char {
    if 'A' <= c && c <= 'Z' { ((c as u32) + 32) as char } else { c }
}

/// `str::eq_ignore_ascii_case`.
pub open spec fn eq_ignore_ascii_case(a: Seq<char>, b: Seq<char>) -> bool {
    a.len() == b.len() && forall|i: int| 0 <= i < a.len() ==> ascii_lower(#[trigger] a[i]) == ascii_lower(b[i])
}

fn ascii_lower_exec(c: char) -> (r: char)
    ensures
        r == ascii_lower(c),
{
    if 'A' <= c && c <= 'Z' {
        let b: u8 = (c as u32 + 32) as u8;
        b as char
    } else {
        c
    }
}

pub fn str_eq_ignore_ascii_case(a: &str, b: &str) -> (r: bool)
    ensures
        r == eq_ignore_ascii_case(a@, b@),
{
    let x = chars_of(a);
    let y = chars_of(b);
    if x.len() != y.len() {
        return false;
    }
    let mut i: usize = 0;
    while i < x.len()
        invariant
            x@ == a@,
            y@ == b@,
            x@.len() == y@.len(),
            i <= x@.len(),
            forall|j: int| 0 <= j < i ==> ascii_lower(#[trigger] a@[j]) == ascii_lower(b@[j]),
        decreases x@.len() - i,
    {
        if ascii_lower_exec(x[i]) != ascii_lower_exec(y[i]) {
            return false;
        }
        i = i + 1;
    }
    true
}

/// The registered command names the running executable (case-insensitively;
/// an unknown current path never matches).
pub open spec fn spec_run_path_matches(run_command: Option<Seq<char>>, current_exe: Seq<char>) -> bool {
    match run_command {
        Some(cmd) => match spec_exe_path_from_command(cmd) {
            Some(p) => current_exe.len() > 0 && eq_ignore_ascii_case(p, current_exe),
            None => false,
        },
        None => false,
    }
}

pub open spec fn opt_view(s: Option<&str>) -> Option<Seq<char>> {
    match s {
        Some(x) => Some(x@),
        None => None,
    }
}

/// Whether the `Run` value read from the registry points at `current_exe`.
pub fn run_path_matches_current(run_command: Option<&str>, current_exe: &str) -> (r: bool)
    ensures
        r == spec_run_path_matches(opt_view(run_command), current_exe@),
{
    let cmd = match run_command {
        Some(c) => c,
        None => return false,
    };
    let reg_exe = match exe_path_from_command(cmd) {
        Some(p) => p,
        None => return false,
    };
    current_exe.unicode_len() > 0 && str_eq_ignore_ascii_case(reg_exe.as_str(), current_exe)
}

/// The `StartupApproved\Run` value marks the entry disabled (first byte 0x03).
pub open spec fn spec_os_disabled(approved: Option<Seq<u8>>) -> bool {
    approved matches Some(bytes) && bytes.len() > 0 && bytes[0] == STARTUP_DISABLED_FLAG
}

pub fn is_os_disabled(approved: Option<&Vec<u8>>) -> (r: bool)
    ensures
        r == spec_os_disabled(match approved { Some(v) => Some(v@), None => None }),
{
    match approved {
        Some(bytes) => bytes.len() > 0 && bytes[0] == STARTUP_DISABLED_FLAG,
        None => false,
    }
}

/// The real start-at-login state from what the registry holds:
/// `(registered for this executable, disabled by the system)`.
pub fn probe(run_command: Option<&str>, current_exe: &str, approved: Option<&Vec<u8>>) -> (r: (bool, bool))
    ensures
        r.0 == spec_run_path_matches(opt_view(run_command), current_exe@),
        r.1 == spec_os_disabled(match approved { Some(v) => Some(v@), None => None }),
{
    (run_path_matches_current(run_command, current_exe), is_os_disabled(approved))
}

/// Why the `Run` value must be rewritten at start-up.
#[derive(Clone, Copy, Debug, PartialEq, Eq, Structural)]
pub enum RunKeyRepair {
    /// no `Run` value at all
    Missing,
    /// the value points at another executable (the program moved)
    WrongPath,
}

/// Self-repair at start-up when start-at-login is on: rewrite the `Run` value
/// when it is missing or names another executable; `None` when it is fine.
pub fn ensure_registered(run_command: Option<&str>, current_exe: &str) -> (r: Option<RunKeyRepair>)
    ensures
        run_command is None ==> r == Some(RunKeyRepair::Missing),
        run_command is Some ==> (r == if spec_run_path_matches(opt_view(run_command), current_exe@) {
            None
        } else {
            Some(RunKeyRepair::WrongPath)
        }),
{
    if run_command.is_none() {
        return Some(RunKeyRepair::Missing);
    }
    if !run_path_matches_current(run_command, current_exe) {
        return Some(RunKeyRepair::WrongPath);
    }
    None
}

/// One registry / task-scheduler operation of `apply`.
#[derive(Clone, Copy, Debug, PartialEq, Eq, Structural)]
pub enum AutostartStep {
    /// delete the `Run` value
    RemoveRunKey,
    /// delete the scheduled task left by the former elevated mode
    RemoveLegacyTask,
    /// write the `Run` value with `launch_command_line`
    WriteRunKey,
    /// delete the "disabled" mark under `StartupApproved\Run`
    ClearDisabledMark,
}

/// Switching start-at-login: first clear every existing registration, then,
/// when enabling, write the `Run` value and drop a "disabled" mark left by the
/// task manager (otherwise the entry stays skipped at login).
pub fn apply(enabled: bool) -> (steps: Vec<AutostartStep>)
    ensures
        enabled ==> steps@ == seq![
            AutostartStep::RemoveRunKey,
            AutostartStep::RemoveLegacyTask,
            AutostartStep::WriteRunKey,
            AutostartStep::ClearDisabledMark,
        ],
        !enabled ==> steps@ == seq![AutostartStep::RemoveRunKey, AutostartStep::RemoveLegacyTask],
{
    let mut steps: Vec<AutostartStep> = Vec::new();
    steps.push(AutostartStep::RemoveRunKey);
    steps.push(AutostartStep::RemoveLegacyTask);
    if enabled {
        steps.push(AutostartStep::WriteRunKey);
        steps.push(AutostartStep::ClearDisabledMark);
    }
    assert(enabled ==> steps@ =~= seq![
        AutostartStep::RemoveRunKey,
        AutostartStep::RemoveLegacyTask,
        AutostartStep::WriteRunKey,
        AutostartStep::ClearDisabledMark,
    ]);
    assert(!enabled ==> steps@ =~= seq![AutostartStep::RemoveRunKey, AutostartStep::RemoveLegacyTask]);
    steps
}

proof fn lemma_find_first(s: Seq<char>, c: char, i: int, n: int)
    requires
        0 <= i <= n < s.len(),
        s[n] == c,
        forall|j: int| i <= j < n ==> s[j] != c,
    ensures
        find_char_from(s, c, i) == Some(n),
    decreases n - i,
{
    if i < n {
        lemma_find_first(s, c, i + 1, n);
    }
}

/// The command line registered for an executable reads back as that
/// executable's path (trimmed), for every path without quotes; so the next
/// start finds the registration in place exactly when the path is
/// non-empty and has no surrounding white space (as an absolute executable
/// path has).
pub proof fn law_registered_command_points_at_exe(exe: Seq<char>)
    requires
        forall|i: int| 0 <= i < exe.len() ==> exe[i] != '"',
    ensures
        spec_exe_path_from_command(seq!['"'] + exe + seq!['"', ' '] + HIDDEN_ARG@) == Some(trim_ws(exe)),
        spec_run_path_matches(Some(seq!['"'] + exe + seq!['"', ' '] + HIDDEN_ARG@), exe) == (exe.len() > 0
            && eq_ignore_ascii_case(trim_ws(exe), exe)),
        exe.len() > 0 && trim_ws(exe) == exe ==> spec_run_path_matches(
            Some(seq!['"'] + exe + seq!['"', ' '] + HIDDEN_ARG@),
            exe,
        ),
{
    reveal_strlit("--autostart-hidden");
    let cmd = seq!['"'] + exe + seq!['"', ' '] + HIDDEN_ARG@;
    let n = cmd.len() as int;
    assert(!is_white_space(cmd[0]));
    assert(cmd[n - 1] == 'n');
    assert(skip_ws_forward(cmd, 0) == 0);
    assert(skip_ws_backward(cmd, 0, n) == n);
    assert(cmd.subrange(0, n) =~= cmd);
    assert(trim_ws(cmd) == cmd);
    let rest = cmd.drop_first();
    assert(rest[exe.len() as int] == '"');
    assert forall|j: int| 0 <= j < exe.len() implies rest[j] != '"' by {
        assert(rest[j] == exe[j]);
    }
    lemma_find_first(rest, '"', 0, exe.len() as int);
    assert(rest.take(exe.len() as int) =~= exe);
    assert(eq_ignore_ascii_case(exe, exe));
}

} // verus!
