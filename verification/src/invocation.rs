//! The command classifier: finding the subcommand in a forwarded argument
//! vector while skipping global flags and the values they consume, and
//! partitioning the vector around it.

use vstd::prelude::*;

verus! {

/// Which configuration scope an invocation works against.
#[derive(Clone, Copy, Debug, PartialEq, Eq, Structural)]
pub enum ConfigScope {
    Local,
    Global,
}

/// What a trigger invocation's own arguments ask for.
#[derive(Clone, Copy, Debug, PartialEq, Eq, Structural)]
pub enum TriggerAction {
    /// No arguments: print the currently active authors.
    ShowActive,
    /// Print every configured author.
    List,
    /// Clear the active state.
    Clear,
    /// Print name and version.
    Version,
    /// Treat the arguments as initials and activate them.
    Activate,
}

/// A global flag that consumes the following token as its value.
pub open spec fn consumes_value(a: Seq<char>) -> bool {
    ||| a == "-c"@
    ||| a == "--exec-path"@
    ||| a == "--git-dir"@
    ||| a == "--work-tree"@
    ||| a == "--namespace"@
    ||| a == "--super-prefix"@
    ||| a == "--list-cmds"@
    ||| a == "-C"@
}

/// An informational flag that counts as the subcommand itself.
pub open spec fn is_info_flag(a: Seq<char>) -> bool {
    a == "--version"@ || a == "--help"@
}

/// The index of the subcommand: the first token, scanning from `i`, that is
/// neither a flag nor a value consumed by one, or an informational flag;
/// `args.len()` when there is none.
pub open spec fn find_cmd_from(args: Seq<Seq<char>>, i: int) -> int
    decreases args.len() + 1 - i,
{
    if i < 0 || i >= args.len() {
        args.len() as int
    } else if consumes_value(args[i]) {
        find_cmd_from(args, i + 2)
    } else if is_info_flag(args[i]) {
        i
    } else if args[i].len() > 0 && args[i][0] == '-' {
        find_cmd_from(args, i + 1)
    } else {
        i
    }
}

/// The argument vector with every alternate-scope flag removed.
pub open spec fn strip_global_spec(args: Seq<Seq<char>>) -> Seq<Seq<char>> {
    args.filter(|a: Seq<char>| a != "--global"@)
}

/// An argument vector partitioned around its subcommand.
pub struct Invocation {
    /// Global, when an alternate-scope flag was present.
    pub scope: ConfigScope,
    /// The tokens before the subcommand.
    pub global_args: Vec<String>,
    /// The subcommand itself; empty when none was found.
    pub command: String,
    /// The tokens after the subcommand.
    pub command_args: Vec<String>,
}

/// Whether an invocation of [`classify`] on `args` yields `r`: the scope
/// flag decides the scope and is stripped, and the rest is partitioned
/// around the token [`find_cmd_from`] picks.
pub open spec fn classify_spec(args: Seq<Seq<char>>, r: Invocation) -> bool {
    let f = strip_global_spec(args);
    let c = find_cmd_from(f, 0);
    &&& (r.scope is Global) == args.contains("--global"@)
    &&& if c < f.len() {
        &&& r.command@ == f[c]
        &&& r.global_args.deep_view() == f.take(c)
        &&& r.command_args.deep_view() == f.skip(c + 1)
    } else {
        &&& r.command@ == Seq::<char>::empty()
        &&& r.global_args.deep_view() == f
        &&& r.command_args.deep_view() == Seq::<Seq<char>>::empty()
    }
}

/// Strips the alternate-scope flag, finds the subcommand, and partitions the
/// argument vector into what stands before and after it.
pub fn classify(args: &Vec<String>) -> (r: Invocation)
    ensures
        classify_spec(args.deep_view(), r),
{
    let ghost dv = args.deep_view();
    let mut global_seen = false;
    let mut filtered: Vec<String> = Vec::new();
    let mut i: usize = 0;
    proof {
        assert(dv.take(0) =~= Seq::<Seq<char>>::empty());
        reveal(Seq::filter);
        assert(filtered.deep_view() =~= strip_global_spec(dv.take(0)));
    }
    while i < args.len()
        invariant
            args.deep_view() == dv,
            0 <= i <= dv.len(),
            filtered.deep_view() == strip_global_spec(dv.take(i as int)),
            global_seen == exists|j: int| 0 <= j < i && dv[j] == "--global"@,
        decreases dv.len() - i,
    {
        let a = &args[i];
        let is_global = crate::strutil::str_eq(a.as_str(), "--global");
        proof {
            reveal(Seq::filter);
            assert(dv.take(i + 1).drop_last() =~= dv.take(i as int));
            assert(dv.take(i + 1).last() == dv[i as int]);
        }
        if is_global {
            global_seen = true;
            proof {
                assert(dv[i as int] == "--global"@);
                assert(filtered.deep_view() =~= strip_global_spec(dv.take(i + 1)));
            }
        } else {
            let ghost old_f = filtered.deep_view();
            filtered.push(a.clone());
            proof {
                assert(filtered.deep_view() =~= old_f.push(dv[i as int]));
                assert(filtered.deep_view() =~= strip_global_spec(dv.take(i + 1)));
            }
        }
        i += 1;
    }
    proof {
        assert(dv.take(dv.len() as int) =~= dv);
        if global_seen {
            assert(dv.contains("--global"@));
        }
        if dv.contains("--global"@) {
            let j = choose|j: int| 0 <= j < dv.len() && dv[j] == "--global"@;
            assert(exists|j: int| 0 <= j < i && dv[j] == "--global"@);
        }
    }
    let scope = if global_seen {
        ConfigScope::Global
    } else {
        ConfigScope::Local
    };
    let ghost f = strip_global_spec(dv);
    let cmd_idx = find_subcommand(&filtered);
    let n = filtered.len();
    if cmd_idx < n {
        let command = filtered[cmd_idx].clone();
        let mut global_args: Vec<String> = Vec::new();
        let mut command_args: Vec<String> = Vec::new();
        let mut k: usize = 0;
        proof {
            assert(global_args.deep_view() =~= f.take(0));
        }
        while k < cmd_idx
            invariant
                filtered.deep_view() == f,
                0 <= k <= cmd_idx < f.len(),
                global_args.deep_view() == f.take(k as int),
            decreases cmd_idx - k,
        {
            let ghost old_g = global_args.deep_view();
            global_args.push(filtered[k].clone());
            proof {
                assert(global_args.deep_view() =~= old_g.push(f[k as int]));
                assert(global_args.deep_view() =~= f.take(k + 1));
            }
            k += 1;
        }
        let mut k2: usize = cmd_idx + 1;
        proof {
            assert(command_args.deep_view() =~= f.skip(cmd_idx + 1).take(0));
        }
        while k2 < n
            invariant
                filtered.deep_view() == f,
                cmd_idx + 1 <= k2 <= f.len(),
                n == f.len(),
                cmd_idx < f.len(),
                command_args.deep_view() == f.skip(cmd_idx + 1).take(k2 - cmd_idx - 1),
            decreases n - k2,
        {
            let ghost old_c = command_args.deep_view();
            command_args.push(filtered[k2].clone());
            proof {
                assert(f.skip(cmd_idx + 1).take(k2 - cmd_idx) =~= old_c.push(f[k2 as int]));
                assert(command_args.deep_view() =~= f.skip(cmd_idx + 1).take(k2 - cmd_idx));
            }
            k2 += 1;
        }
        proof {
            assert(f.skip(cmd_idx + 1).take(n - cmd_idx - 1) =~= f.skip(cmd_idx + 1));
        }
        Invocation { scope, global_args, command, command_args }
    } else {
        let command = String::new();
        let command_args: Vec<String> = Vec::new();
        proof {
            assert(command_args.deep_view() =~= Seq::<Seq<char>>::empty());
        }
        Invocation { scope, global_args: filtered, command, command_args }
    }
}

/// The index [`find_cmd_from`] names, as an executable scan; `args.len()`
/// when no token qualifies.
pub fn find_subcommand(args: &Vec<String>) -> (r: usize)
    ensures
        r == find_cmd_from(args.deep_view(), 0),
        r <= args.len(),
{
    let ghost dv = args.deep_view();
    let mut i: usize = 0;
    while i < args.len()
        invariant
            args.deep_view() == dv,
            0 <= i <= dv.len(),
            find_cmd_from(dv, 0) == find_cmd_from(dv, i as int),
        decreases dv.len() - i,
    {
        let a = args[i].as_str();
        if crate::strutil::str_eq(a, "-c") || crate::strutil::str_eq(a, "--exec-path")
            || crate::strutil::str_eq(a, "--git-dir") || crate::strutil::str_eq(a, "--work-tree")
            || crate::strutil::str_eq(a, "--namespace") || crate::strutil::str_eq(
            a,
            "--super-prefix",
        ) || crate::strutil::str_eq(a, "--list-cmds") || crate::strutil::str_eq(a, "-C") {
            proof {
                assert(consumes_value(dv[i as int]));
                assert(find_cmd_from(dv, i as int) == find_cmd_from(dv, i + 2));
                if i + 2 > dv.len() {
                    assert(find_cmd_from(dv, i + 2) == dv.len());
                    assert(find_cmd_from(dv, dv.len() as int) == dv.len());
                }
            }
            if args.len() - i >= 2 {
                i += 2;
            } else {
                i = args.len();
            }
        } else if crate::strutil::str_eq(a, "--version") || crate::strutil::str_eq(a, "--help") {
            proof {
                assert(is_info_flag(dv[i as int]));
                assert(find_cmd_from(dv, i as int) == i);
            }
            return i;
        } else if a.unicode_len() > 0 && a.get_char(0) == '-' {
            proof {
                assert(!consumes_value(dv[i as int]) && !is_info_flag(dv[i as int]));
                assert(dv[i as int].len() > 0 && dv[i as int][0] == '-');
                assert(find_cmd_from(dv, i as int) == find_cmd_from(dv, i + 1));
            }
            i += 1;
        } else {
            proof {
                assert(!consumes_value(dv[i as int]) && !is_info_flag(dv[i as int]));
                assert(!(dv[i as int].len() > 0 && dv[i as int][0] == '-'));
                assert(find_cmd_from(dv, i as int) == i);
            }
            return i;
        }
    }
    args.len()
}

/// Whether `cmd` is one of the trigger words that manage the active set.
pub fn is_trigger_command(cmd: &str) -> (r: bool)
    ensures
        r == (cmd@ == "with"@ || cmd@ == "together"@),
{
    crate::strutil::str_eq(cmd, "with") || crate::strutil::str_eq(cmd, "together")
}

/// What a trigger invocation's arguments ask for: nothing prints the active
/// authors; exactly one of the known flags lists, clears or prints the
/// version; anything else is a list of initials to activate.
pub open spec fn trigger_action_spec(args: Seq<Seq<char>>) -> TriggerAction {
    if args.len() == 0 {
        TriggerAction::ShowActive
    } else if args.len() == 1 && args[0] == "--list"@ {
        TriggerAction::List
    } else if args.len() == 1 && args[0] == "--clear"@ {
        TriggerAction::Clear
    } else if args.len() == 1 && args[0] == "--version"@ {
        TriggerAction::Version
    } else {
        TriggerAction::Activate
    }
}

/// Dispatches a trigger invocation's own arguments.
pub fn trigger_action(args: &Vec<String>) -> (r: TriggerAction)
    ensures
        r == trigger_action_spec(args.deep_view()),
{
    if args.len() == 0 {
        TriggerAction::ShowActive
    } else if args.len() == 1 && crate::strutil::str_eq(args[0].as_str(), "--list") {
        TriggerAction::List
    } else if args.len() == 1 && crate::strutil::str_eq(args[0].as_str(), "--clear") {
        TriggerAction::Clear
    } else if args.len() == 1 && crate::strutil::str_eq(args[0].as_str(), "--version") {
        TriggerAction::Version
    } else {
        TriggerAction::Activate
    }
}

/// Whether committer rewriting must be suppressed: a merge, or command
/// arguments that already amend a previous commit.
pub fn suppresses_signoff(command: &str, command_args: &Vec<String>) -> (r: bool)
    ensures
        r == (command@ == "merge"@ || command_args.deep_view().contains("--amend"@)),
{
    let ghost dv = command_args.deep_view();
    if crate::strutil::str_eq(command, "merge") {
        return true;
    }
    let mut i: usize = 0;
    while i < command_args.len()
        invariant
            command_args.deep_view() == dv,
            0 <= i <= dv.len(),
            forall|j: int| 0 <= j < i ==> dv[j] != "--amend"@,
        decreases dv.len() - i,
    {
        if crate::strutil::str_eq(command_args[i].as_str(), "--amend") {
            proof {
                assert(dv[i as int] == "--amend"@);
            }
            return true;
        }
        i += 1;
    }
    proof {
        if dv.contains("--amend"@) {
            let j = choose|j: int| 0 <= j < dv.len() && dv[j] == "--amend"@;
        }
    }
    false
}

} // verus!
