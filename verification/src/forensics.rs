//! The text of the forensic dumps.
use vstd::prelude::*;
use crate::procs::nul_to_space;
use crate::text::{trim, trimmed, opt_chars, push_str, push_dec_i32, dec_int, owned};

verus! {

/// What was read about one process for the process table.
pub struct ProcessRow {
    pub pid: i32,
    /// `/proc/<pid>/comm` (empty when unreadable).
    pub comm: String,
    /// The target of `/proc/<pid>/exe` (empty when unreadable).
    pub exe: String,
    /// `/proc/<pid>/cmdline` (empty when unreadable).
    pub cmdline: String,
}

/// A line of the process table: id, trimmed name, executable and command
/// line (NULs as spaces, trimmed), separated by tabs.
pub open spec fn row_text(pid: i32, comm: Seq<char>, exe: Seq<char>, cmdline: Seq<char>) -> Seq<char> {
    dec_int(pid as int) + "\t"@ + trim(comm) + "\t"@ + exe + "\t"@ + trim(nul_to_space(cmdline))
        + "\n"@
}

/// The process table: a header, then one line per row, in order.
pub open spec fn table_text(rows: Seq<(i32, Seq<char>, Seq<char>, Seq<char>)>, n: int) -> Seq<char>
    decreases n,
{
    if n <= 0 {
        "pid\tcomm\texe\tcmdline\n"@
    } else {
        let r = rows[n - 1];
        table_text(rows, n - 1) + row_text(r.0, r.1, r.2, r.3)
    }
}

/// The contents of the rows.
pub open spec fn row_views(v: Seq<ProcessRow>) -> Seq<(i32, Seq<char>, Seq<char>, Seq<char>)> {
    v.map_values(|r: ProcessRow| (r.pid, r.comm@, r.exe@, r.cmdline@))
}

/// The process table of the forensic dump (see `table_text`).
pub fn process_table(rows: &Vec<ProcessRow>) -> (s: String)
    ensures
        s@ == table_text(row_views(rows@), rows@.len() as int),
{
    let ghost rv = row_views(rows@);
    let mut s = owned("pid\tcomm\texe\tcmdline\n");
    let mut i: usize = 0;
    while i < rows.len()
        invariant
            i <= rows@.len(),
            rv == row_views(rows@),
            s@ == table_text(rv, i as int),
        decreases rows@.len() - i,
    {
        let r = &rows[i];
        assert(rv[i as int] == (r.pid, r.comm@, r.exe@, r.cmdline@));
        let mut line = String::new();
        push_dec_i32(&mut line, r.pid);
        push_str(&mut line, "\t");
        push_str(&mut line, trimmed(r.comm.as_str()).as_str());
        push_str(&mut line, "\t");
        push_str(&mut line, r.exe.as_str());
        push_str(&mut line, "\t");
        push_str(&mut line, crate::procs::read_cmdline(r.cmdline.as_str()).as_str());
        push_str(&mut line, "\n");
        push_str(&mut s, line.as_str());
        i = i + 1;
    }
    s
}

/// A kernel setting as the dump writes it: trimmed, empty when unreadable.
pub open spec fn setting_text(raw: Option<Seq<char>>) -> Seq<char> {
    match raw {
        Some(t) => trim(t),
        None => seq![],
    }
}

fn setting(raw: Option<&str>) -> (r: String)
    ensures
        r@ == setting_text(opt_chars(raw)),
{
    match raw {
        Some(t) => trimmed(t),
        None => String::new(),
    }
}

/// The kernel settings of the forensic dump.
pub open spec fn sys_state(
    tainted: Option<Seq<char>>,
    modules_disabled: Option<Seq<char>>,
    kptr_restrict: Option<Seq<char>>,
    ptrace_scope: Option<Seq<char>>,
) -> Seq<char> {
    "tainted="@ + setting_text(tainted) + "\nmodules_disabled="@ + setting_text(modules_disabled)
        + "\nkptr_restrict="@ + setting_text(kptr_restrict) + "\nptrace_scope="@ + setting_text(
        ptrace_scope,
    ) + "\n"@
}

/// The kernel settings of the forensic dump (see `sys_state`).
pub fn sys_state_text(
    tainted: Option<&str>,
    modules_disabled: Option<&str>,
    kptr_restrict: Option<&str>,
    ptrace_scope: Option<&str>,
) -> (s: String)
    ensures
        s@ == sys_state(
            opt_chars(tainted),
            opt_chars(modules_disabled),
            opt_chars(kptr_restrict),
            opt_chars(ptrace_scope),
        ),
{
    let mut s = owned("tainted=");
    push_str(&mut s, setting(tainted).as_str());
    push_str(&mut s, "\nmodules_disabled=");
    push_str(&mut s, setting(modules_disabled).as_str());
    push_str(&mut s, "\nkptr_restrict=");
    push_str(&mut s, setting(kptr_restrict).as_str());
    push_str(&mut s, "\nptrace_scope=");
    push_str(&mut s, setting(ptrace_scope).as_str());
    push_str(&mut s, "\n");
    s
}

} // verus!
