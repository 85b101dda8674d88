//! The commit-message augmentation engine's pure parts: detecting how the
//! caller supplies the commit message, building co-author trailers, and
//! rewriting argument vectors so the wrapped tool picks the augmented
//! message up. Reading a file or standard input and writing the scratch
//! file stay outside the library; these functions work on the values read.

use vstd::prelude::*;

use crate::author::{Author, AuthorSpec};
use crate::strutil::{join, join_spec, str_eq};

verus! {

/// How the caller supplies the commit message, as the original argument
/// vector shows it.
pub enum CommitMessageInputMethod {
    /// A message file; the payload is its path.
    File(String),
    /// An explicit message argument.
    Message,
    /// The message of a previous commit, reused unchanged.
    ReuseCommit,
    /// The message of a previous commit, reopened in the editor.
    ReuseCommitAndEdit,
    /// The message is read from standard input.
    Stdin,
    /// No message argument: the editor decides.
    Editor,
}

/// The mathematical value of a [`CommitMessageInputMethod`].
pub enum InputMethodSpec {
    File(Seq<char>),
    Message,
    ReuseCommit,
    ReuseCommitAndEdit,
    Stdin,
    Editor,
}

/// Whether the executable method value carries the spec one.
pub open spec fn method_matches(r: CommitMessageInputMethod, s: InputMethodSpec) -> bool {
    match (r, s) {
        (CommitMessageInputMethod::File(p), InputMethodSpec::File(q)) => p@ == q,
        (CommitMessageInputMethod::Message, InputMethodSpec::Message) => true,
        (CommitMessageInputMethod::ReuseCommit, InputMethodSpec::ReuseCommit) => true,
        (
            CommitMessageInputMethod::ReuseCommitAndEdit,
            InputMethodSpec::ReuseCommitAndEdit,
        ) => true,
        (CommitMessageInputMethod::Stdin, InputMethodSpec::Stdin) => true,
        (CommitMessageInputMethod::Editor, InputMethodSpec::Editor) => true,
        _ => false,
    }
}

/// The first message-supplying flag decides, scanning from `i`: a file flag
/// takes the following token as its path, a lone `-` there meaning standard
/// input; a file flag with nothing after it is ignored. No recognized flag
/// means the editor.
pub open spec fn detect_from(args: Seq<Seq<char>>, i: int) -> InputMethodSpec
    decreases args.len() + 1 - i,
{
    if i < 0 || i >= args.len() {
        InputMethodSpec::Editor
    } else if args[i] == "-F"@ || args[i] == "--file"@ {
        if i + 1 < args.len() {
            if args[i + 1] == "-"@ {
                InputMethodSpec::Stdin
            } else {
                InputMethodSpec::File(args[i + 1])
            }
        } else {
            InputMethodSpec::Editor
        }
    } else if args[i] == "-F-"@ {
        InputMethodSpec::Stdin
    } else if args[i] == "-C"@ || args[i] == "--reuse-message"@ {
        InputMethodSpec::ReuseCommit
    } else if args[i] == "-c"@ || args[i] == "--reedit-message"@ {
        InputMethodSpec::ReuseCommitAndEdit
    } else if args[i] == "-m"@ || args[i] == "--message"@ {
        InputMethodSpec::Message
    } else {
        detect_from(args, i + 1)
    }
}

/// The method the whole argument vector announces.
pub open spec fn detect_spec(args: Seq<Seq<char>>) -> InputMethodSpec {
    detect_from(args, 0)
}

/// Scans the command arguments for the first message-supplying flag.
pub fn commit_message_input_method(args: &Vec<String>) -> (r: CommitMessageInputMethod)
    ensures
        method_matches(r, detect_spec(args.deep_view())),
{
    let ghost dv = args.deep_view();
    let mut i: usize = 0;
    while i < args.len()
        invariant
            args.deep_view() == dv,
            0 <= i <= dv.len(),
            detect_spec(dv) == detect_from(dv, i as int),
        decreases dv.len() - i,
    {
        let a = args[i].as_str();
        if str_eq(a, "-F") || str_eq(a, "--file") {
            if i + 1 < args.len() {
                if str_eq(args[i + 1].as_str(), "-") {
                    return CommitMessageInputMethod::Stdin;
                } else {
                    return CommitMessageInputMethod::File(args[i + 1].clone());
                }
            } else {
                proof {
                    assert(detect_from(dv, i as int) == InputMethodSpec::Editor);
                }
                return CommitMessageInputMethod::Editor;
            }
        } else if str_eq(a, "-F-") {
            return CommitMessageInputMethod::Stdin;
        } else if str_eq(a, "-C") || str_eq(a, "--reuse-message") {
            return CommitMessageInputMethod::ReuseCommit;
        } else if str_eq(a, "-c") || str_eq(a, "--reedit-message") {
            return CommitMessageInputMethod::ReuseCommitAndEdit;
        } else if str_eq(a, "-m") || str_eq(a, "--message") {
            return CommitMessageInputMethod::Message;
        }
        proof {
            assert(detect_from(dv, i as int) == detect_from(dv, i + 1));
        }
        i += 1;
    }
    CommitMessageInputMethod::Editor
}

/// The attribution line for one co-author.
pub open spec fn trailer_spec(a: AuthorSpec) -> Seq<char> {
    "Co-authored-by: "@ + a.name + " <"@ + a.email + ">"@
}

/// The attribution lines for every author after the first.
pub open spec fn trailers_spec(authors: Seq<AuthorSpec>) -> Seq<Seq<char>> {
    if authors.len() == 0 {
        Seq::empty()
    } else {
        authors.skip(1).map_values(|a: AuthorSpec| trailer_spec(a))
    }
}

/// The co-author line for one author.
pub fn co_author_trailer(a: &Author) -> (r: String)
    ensures
        r@ == trailer_spec(a@),
{
    String::from_str("Co-authored-by: ").concat(a.name.as_str()).concat(" <").concat(
        a.email.as_str(),
    ).concat(">")
}

/// One co-author line per author after the first, in order.
pub fn co_author_trailers(authors: &Vec<Author>) -> (r: Vec<String>)
    ensures
        r.deep_view() == trailers_spec(authors.deep_view()),
{
    let ghost dv = authors.deep_view();
    let mut r: Vec<String> = Vec::new();
    if authors.len() == 0 {
        proof {
            assert(r.deep_view() =~= trailers_spec(dv));
        }
        return r;
    }
    let mut i: usize = 1;
    proof {
        assert(r.deep_view() =~= dv.skip(1).take(0).map_values(|a: AuthorSpec| trailer_spec(a)));
    }
    while i < authors.len()
        invariant
            authors.deep_view() == dv,
            1 <= i <= dv.len(),
            r.deep_view() == dv.skip(1).take(i - 1).map_values(|a: AuthorSpec| trailer_spec(a)),
        decreases authors.len() - i,
    {
        let ghost old_r = r.deep_view();
        r.push(co_author_trailer(&authors[i]));
        proof {
            assert(dv.skip(1).take(i as int) =~= dv.skip(1).take(i - 1).push(dv[i as int]));
            assert(r.deep_view() =~= old_r.push(trailer_spec(dv[i as int])));
            assert(r.deep_view() =~= dv.skip(1).take(i as int).map_values(
                |a: AuthorSpec| trailer_spec(a),
            ));
        }
        i += 1;
    }
    proof {
        assert(dv.skip(1).take(dv.len() - 1) =~= dv.skip(1));
        assert(r.deep_view() =~= trailers_spec(dv));
    }
    r
}

/// A fresh copy of an argument vector.
fn copy_args(args: &Vec<String>) -> (r: Vec<String>)
    ensures
        r.deep_view() == args.deep_view(),
        r@.len() == args@.len(),
{
    let ghost dv = args.deep_view();
    let mut r: Vec<String> = Vec::new();
    let mut i: usize = 0;
    while i < args.len()
        invariant
            args.deep_view() == dv,
            0 <= i <= dv.len(),
            r@.len() == i,
            r.deep_view() == dv.take(i as int),
        decreases dv.len() - i,
    {
        let ghost old_r = r.deep_view();
        r.push(args[i].clone());
        proof {
            assert(r.deep_view() =~= old_r.push(dv[i as int]));
            assert(r.deep_view() =~= dv.take(i + 1));
        }
        i += 1;
    }
    proof {
        assert(dv.take(dv.len() as int) =~= dv);
    }
    r
}

/// The arguments with an explicit message argument holding the trailer
/// block appended.
pub fn append_message_args(args: &Vec<String>, block: &str) -> (r: Vec<String>)
    ensures
        r.deep_view() == args.deep_view() + seq!["-m"@, block@],
{
    let mut r = copy_args(args);
    let ghost mid = r.deep_view();
    r.push(String::from_str("-m"));
    r.push(block.to_owned());
    proof {
        assert(r.deep_view() =~= args.deep_view() + seq!["-m"@, block@]);
    }
    r
}

/// The arguments with a template flag pointing at the scratch file appended.
pub fn append_template_args(args: &Vec<String>, scratch_path: &str) -> (r: Vec<String>)
    ensures
        r.deep_view() == args.deep_view() + seq!["-t"@, scratch_path@],
{
    let mut r = copy_args(args);
    r.push(String::from_str("-t"));
    r.push(scratch_path.to_owned());
    proof {
        assert(r.deep_view() =~= args.deep_view() + seq!["-t"@, scratch_path@]);
    }
    r
}

/// What an interactive-editor template holds: a blank opening for the
/// message, then the trailer block.
pub fn editor_template(block: &str) -> (r: String)
    ensures
        r@ == "\n\n"@ + block@,
{
    String::from_str("\n\n").concat(block)
}

/// The message lines followed by a blank separator line and the trailers,
/// joined into the content the scratch file receives.
pub fn augmented_message(lines: &Vec<String>, trailers: &Vec<String>) -> (r: String)
    ensures
        r@ == join_spec(
            lines.deep_view() + seq![Seq::<char>::empty()] + trailers.deep_view(),
            "\n"@,
        ),
{
    let mut all = copy_args(lines);
    all.push(String::new());
    let mut i: usize = 0;
    let ghost tdv = trailers.deep_view();
    let ghost base = lines.deep_view() + seq![Seq::<char>::empty()];
    proof {
        assert(all.deep_view() =~= base + tdv.take(0));
    }
    while i < trailers.len()
        invariant
            trailers.deep_view() == tdv,
            0 <= i <= tdv.len(),
            all.deep_view() == base + tdv.take(i as int),
        decreases tdv.len() - i,
    {
        let ghost old_all = all.deep_view();
        all.push(trailers[i].clone());
        proof {
            assert(all.deep_view() =~= old_all.push(tdv[i as int]));
            assert(all.deep_view() =~= base + tdv.take(i + 1));
        }
        i += 1;
    }
    proof {
        assert(base + tdv.take(tdv.len() as int) =~= base + tdv);
    }
    join(&all, "\n")
}

/// Whether a token is a file flag whose value names the message file.
pub open spec fn is_file_flag(a: Seq<char>) -> bool {
    a == "-F"@ || a == "--file"@
}

/// Whether a token is a file flag or the fused stdin form.
pub open spec fn is_file_or_stdin_flag(a: Seq<char>) -> bool {
    is_file_flag(a) || a == "-F-"@
}

/// The first index at which a file flag stands, from `i`; `args.len()` when
/// none does. `stdin_too` also accepts the fused stdin form.
pub open spec fn first_flag_from(args: Seq<Seq<char>>, stdin_too: bool, i: int) -> int
    decreases args.len() + 1 - i,
{
    if i < 0 || i >= args.len() {
        args.len() as int
    } else if is_file_flag(args[i]) || (stdin_too && args[i] == "-F-"@) {
        i
    } else {
        first_flag_from(args, stdin_too, i + 1)
    }
}

/// The executable scan [`first_flag_from`] names.
fn find_first_flag(args: &Vec<String>, stdin_too: bool) -> (r: usize)
    ensures
        r == first_flag_from(args.deep_view(), stdin_too, 0),
        r <= args.len(),
{
    let ghost dv = args.deep_view();
    let mut i: usize = 0;
    while i < args.len()
        invariant
            args.deep_view() == dv,
            0 <= i <= dv.len(),
            first_flag_from(dv, stdin_too, 0) == first_flag_from(dv, stdin_too, i as int),
        decreases dv.len() - i,
    {
        let a = args[i].as_str();
        if str_eq(a, "-F") || str_eq(a, "--file") || (stdin_too && str_eq(a, "-F-")) {
            proof {
                assert(first_flag_from(dv, stdin_too, i as int) == i);
            }
            return i;
        }
        proof {
            assert(first_flag_from(dv, stdin_too, i as int) == first_flag_from(
                dv,
                stdin_too,
                i + 1,
            ));
        }
        i += 1;
    }
    args.len()
}

/// What rewriting the file-supplied case yields: the value after the first
/// file flag replaced by the scratch path; the arguments unchanged when no
/// file flag has a following value.
pub open spec fn rewrite_file_spec(args: Seq<Seq<char>>, scratch: Seq<char>) -> Seq<Seq<char>> {
    let f = first_flag_from(args, false, 0);
    if f + 1 < args.len() {
        args.update(f + 1, scratch)
    } else {
        args
    }
}

/// Points the first file flag's value at the scratch file.
pub fn rewrite_file_args(args: &Vec<String>, scratch_path: &str) -> (r: Vec<String>)
    ensures
        r.deep_view() == rewrite_file_spec(args.deep_view(), scratch_path@),
{
    let ghost dv = args.deep_view();
    let f = find_first_flag(args, false);
    let mut r = copy_args(args);
    if f < args.len() && f + 1 < args.len() {
        r.set(f + 1, scratch_path.to_owned());
        proof {
            assert(r.deep_view() =~= dv.update(f + 1, scratch_path@));
        }
    } else {
        proof {
            assert(r.deep_view() =~= rewrite_file_spec(dv, scratch_path@));
        }
    }
    r
}

/// What rewriting the stdin-supplied case yields: a fused stdin flag is
/// split into a file flag and the scratch path; otherwise the token after
/// the first file flag (the lone `-`) is replaced by the scratch path; the
/// arguments unchanged when no such flag stands.
pub open spec fn rewrite_stdin_spec(args: Seq<Seq<char>>, scratch: Seq<char>) -> Seq<Seq<char>> {
    let f = first_flag_from(args, true, 0);
    if f < args.len() {
        if args[f] == "-F-"@ {
            args.update(f, "-F"@).insert(f + 1, scratch)
        } else if f + 1 < args.len() {
            args.update(f + 1, scratch)
        } else {
            args
        }
    } else {
        args
    }
}

/// Rewrites a stdin-reading invocation to read the scratch file instead.
pub fn rewrite_stdin_args(args: &Vec<String>, scratch_path: &str) -> (r: Vec<String>)
    ensures
        r.deep_view() == rewrite_stdin_spec(args.deep_view(), scratch_path@),
{
    let ghost dv = args.deep_view();
    let f = find_first_flag(args, true);
    let mut r = copy_args(args);
    if f < args.len() {
        if str_eq(args[f].as_str(), "-F-") {
            r.set(f, String::from_str("-F"));
            r.insert(f + 1, scratch_path.to_owned());
            proof {
                assert(r.deep_view() =~= dv.update(f as int, "-F"@).insert(
                    f + 1,
                    scratch_path@,
                ));
            }
        } else if f + 1 < args.len() {
            r.set(f + 1, scratch_path.to_owned());
            proof {
                assert(r.deep_view() =~= dv.update(f + 1, scratch_path@));
            }
        } else {
            proof {
                assert(r.deep_view() =~= rewrite_stdin_spec(dv, scratch_path@));
            }
        }
    } else {
        proof {
            assert(r.deep_view() =~= rewrite_stdin_spec(dv, scratch_path@));
        }
    }
    r
}

/// What an invocation needs done to carry the co-author trailers, decided
/// from the argument vector; reading and writing files is the caller's.
pub enum AugmentPlan {
    /// Nothing to inject: suppressed, a lone author, or a reused message.
    NoChange,
    /// Append an explicit message argument holding this trailer block.
    AppendMessage { block: String },
    /// Write this content to the scratch file and append a template flag
    /// pointing at it.
    WriteTemplate { content: String },
    /// Read the named message file, stage its lines plus the trailers in
    /// the scratch file, and point the file flag's value at it.
    ReadFile { path: String, trailers: Vec<String> },
    /// Read standard input, stage its lines plus the trailers in the
    /// scratch file, and rewrite the stdin flag into a file flag.
    ReadStdin { trailers: Vec<String> },
}

/// Whether `plan` is the right augmentation for these authors and
/// arguments: nothing when suppressed or fewer than two authors or a reused
/// message; otherwise what the detected input method calls for.
pub open spec fn plan_matches(
    plan: AugmentPlan,
    authors: Seq<AuthorSpec>,
    args: Seq<Seq<char>>,
    no_signoff: bool,
) -> bool {
    if no_signoff || authors.len() <= 1 {
        plan is NoChange
    } else {
        let block = join_spec(trailers_spec(authors), "\n"@);
        match detect_spec(args) {
            InputMethodSpec::Message => plan matches AugmentPlan::AppendMessage { block: b } && b@
                == block,
            InputMethodSpec::Editor => plan matches AugmentPlan::WriteTemplate { content } && (
            content@ == "\n\n"@ + block),
            InputMethodSpec::ReuseCommit => plan is NoChange,
            InputMethodSpec::ReuseCommitAndEdit => plan is NoChange,
            InputMethodSpec::Stdin => plan matches AugmentPlan::ReadStdin { trailers } && (
            trailers.deep_view() == trailers_spec(authors)),
            InputMethodSpec::File(p) => plan matches AugmentPlan::ReadFile { path, trailers } && (
            path@ == p && trailers.deep_view() == trailers_spec(authors)),
        }
    }
}

} // verus!
