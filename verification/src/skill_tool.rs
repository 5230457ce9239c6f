use vstd::prelude::*;

use crate::args::{positional_args, positional_spec, ArgValue, ToolArgs};
use crate::output::{failure, is_failure, joined, ToolResult};
use crate::text::{chars_of, decimal, decimal_chars, replace_all, replace_chars, string_from_chars, views};

verus! {

/// Seconds a skill tool may run before it is stopped.
pub const SKILL_TOOL_TIMEOUT_SECS: u64 = 300;

/// `${k}`: the braced placeholder for the `k`-th positional argument.
pub open spec fn braced_placeholder(k: nat) -> Seq<char> {
    seq!['$', '{'] + decimal(k) + seq!['}']
}

/// `$k`: the bare placeholder for the `k`-th positional argument.
pub open spec fn bare_placeholder(k: nat) -> Seq<char> {
    seq!['$'] + decimal(k)
}

/// `command` after substituting the arguments in order: for the `k`-th
/// argument (counting from one), first every `${k}` and then every `$k`
/// of the text so far is replaced by it.
pub open spec fn substitute(command: Seq<char>, args: Seq<Seq<char>>) -> Seq<char>
    decreases args.len(),
{
    if args.len() == 0 {
        command
    } else {
        let k = args.len();
        let before = substitute(command, args.drop_last());
        replace_all(
            replace_all(before, braced_placeholder(k), args.last()),
            bare_placeholder(k),
            args.last(),
        )
    }
}

/// A tool that a skill defines: what the executor reads of it.
#[derive(Clone)]
pub struct SkillTool {
    pub name: String,
    pub description: String,
    /// How the tool runs; only `shell` is supported.
    pub kind: String,
    /// The command line, with `${1}`/`$1`-style placeholders.
    pub command: String,
    /// The directory the command runs in, when the skill sets one.
    pub location: Option<String>,
}

/// What the executor reads of the security policy: the workspace directory
/// that a command without its own location runs in.
#[derive(Clone)]
pub struct SecurityPolicy {
    pub workspace_dir: String,
}

/// Runs one skill tool.
#[derive(Clone)]
pub struct SkillToolExecutor {
    pub tool: SkillTool,
    pub security: SecurityPolicy,
}

fn placeholder_chars(k: usize, braced: bool) -> (r: Vec<char>)
    ensures
        r@ == (if braced { braced_placeholder(k as nat) } else { bare_placeholder(k as nat) }),
{
    let mut r: Vec<char> = Vec::new();
    r.push('$');
    if braced {
        r.push('{');
    }
    let digits = decimal_chars(k);
    let mut j: usize = 0;
    let ghost start = r@;
    while j < digits.len()
        invariant
            j <= digits@.len(),
            r@ == start + digits@.take(j as int),
        decreases digits@.len() - j,
    {
        r.push(digits[j]);
        assert(digits@.take(j + 1) =~= digits@.take(j as int).push(digits@[j as int]));
        j = j + 1;
    }
    assert(digits@.take(digits@.len() as int) =~= digits@);
    if braced {
        r.push('}');
        assert(r@ =~= braced_placeholder(k as nat));
    } else {
        assert(r@ =~= bare_placeholder(k as nat));
    }
    r
}

impl SkillToolExecutor {
    /// An executor for `tool` under `security`.
    pub fn new(tool: SkillTool, security: SecurityPolicy) -> (r: Self)
        ensures
            r.tool == tool,
            r.security == security,
    {
        Self { tool, security }
    }

    /// `command` with the positional `args` substituted for their
    /// placeholders, as `substitute` says.
    pub fn substitute_args(&self, command: &str, args: &[String]) -> (r: String)
        ensures
            r@ == substitute(command@, views(args@)),
    {
        let mut result = chars_of(command);
        let n = args.len();
        let mut i: usize = 0;
        while i < n
            invariant
                i <= n,
                n == args@.len(),
                result@ == substitute(command@, views(args@.take(i as int))),
            decreases n - i,
        {
            let arg = chars_of(args[i].as_str());
            let braced = placeholder_chars(i + 1, true);
            result = replace_chars(&result, &braced, &arg);
            let bare = placeholder_chars(i + 1, false);
            result = replace_chars(&result, &bare, &arg);
            proof {
                let vs = views(args@.take(i + 1));
                assert(vs.drop_last() =~= views(args@.take(i as int)));
                assert(vs.last() == args@[i as int]@);
            }
            i = i + 1;
        }
        assert(args@.take(n as int) =~= args@);
        string_from_chars(&result)
    }
}

/// What the caller is to do next for a call.
pub enum ExecStep {
    /// Ask the security policy whether `command` may run, with the given
    /// approval flag, and pass the answer to `on_verdict`.
    Validate { command: String, approved: bool },
    /// Build `command` as a shell command in `workspace_dir`, with the
    /// environment cleared but for the variables in `inherited_env` that
    /// are set, run it for at most `timeout_secs` seconds, and pass what
    /// came of it to `on_outcome`.
    Run { command: String, workspace_dir: String, inherited_env: Vec<String>, timeout_secs: u64 },
    /// The call is over, with this result.
    Done(ToolResult),
}

/// The security policy's answer on a command.
pub enum Verdict {
    Allowed,
    /// Refused, for this reason.
    Blocked(String),
}

/// The environment variables a command inherits when they are set.
pub open spec fn inherited_env_names() -> Seq<Seq<char>> {
    seq!["PATH"@, "HOME"@, "USER"@, "SHELL"@, "LANG"@, "TERM"@]
}

fn inherited_env() -> (r: Vec<String>)
    ensures
        views(r@) == inherited_env_names(),
{
    let mut r: Vec<String> = Vec::new();
    r.push("PATH".to_owned());
    r.push("HOME".to_owned());
    r.push("USER".to_owned());
    r.push("SHELL".to_owned());
    r.push("LANG".to_owned());
    r.push("TERM".to_owned());
    assert(views(r@) =~= inherited_env_names());
    r
}

/// The message of a call to a tool of another kind than `shell`.
pub open spec fn unsupported_kind_message(kind: Seq<char>) -> Seq<char> {
    "Unsupported skill tool kind: "@ + kind
}

/// The message of a call whose command the security policy refused.
pub open spec fn security_block_message(reason: Seq<char>) -> Seq<char> {
    "Security block: "@ + reason
}

impl SkillToolExecutor {
    /// The command a call runs: the tool's command with the call's
    /// positional arguments substituted.
    pub open spec fn command_for(&self, args: ToolArgs) -> Seq<char> {
        substitute(self.tool.command@, positional_spec(args))
    }

    /// The tool's name.
    pub fn name(&self) -> (r: &str)
        ensures
            r@ == self.tool.name@,
    {
        self.tool.name.as_str()
    }

    /// The tool's description.
    pub fn description(&self) -> (r: &str)
        ensures
            r@ == self.tool.description@,
    {
        self.tool.description.as_str()
    }

    /// The first step of a call with `args`: a tool of another kind than
    /// `shell` fails at once; otherwise the command, with the positional
    /// arguments substituted, goes to the security policy, unapproved.
    pub fn start(&self, args: &ToolArgs) -> (r: ExecStep)
        ensures
            self.tool.kind@ != "shell"@ ==> (r matches ExecStep::Done(res) && is_failure(
                res,
                unsupported_kind_message(self.tool.kind@),
            )),
            self.tool.kind@ == "shell"@ ==> (r matches ExecStep::Validate { command, approved }
                && command@ == substitute(self.tool.command@, positional_spec(*args)) && !approved),
    {
        let positional = positional_args(args);
        let command = if positional.len() == 0 {
            proof {
                assert(positional_spec(*args) =~= Seq::<Seq<char>>::empty());
            }
            self.tool.command.clone()
        } else {
            self.substitute_args(self.tool.command.as_str(), positional.as_slice())
        };
        if self.tool.kind != "shell".to_owned() {
            let msg = joined("Unsupported skill tool kind: ", self.tool.kind.as_str());
            return ExecStep::Done(failure(msg));
        }
        ExecStep::Validate { command, approved: false }
    }

    /// The step after the security policy answered on `command`: a refused
    /// command fails with the reason; an allowed one runs in the tool's own
    /// directory, or else in the workspace directory.
    pub fn on_verdict(&self, command: String, verdict: Verdict) -> (r: ExecStep)
        ensures
            verdict matches Verdict::Blocked(reason) ==> (r matches ExecStep::Done(res)
                && is_failure(res, security_block_message(reason@))),
            verdict matches Verdict::Allowed ==> (r matches ExecStep::Run {
                command: c,
                workspace_dir,
                inherited_env,
                timeout_secs,
            } && c@ == command@ && workspace_dir@ == (match self.tool.location {
                Some(dir) => dir@,
                None => self.security.workspace_dir@,
            }) && views(inherited_env@) == inherited_env_names() && timeout_secs
                == SKILL_TOOL_TIMEOUT_SECS),
    {
        match verdict {
            Verdict::Blocked(reason) => {
                let msg = joined("Security block: ", reason.as_str());
                ExecStep::Done(failure(msg))
            },
            Verdict::Allowed => {
                let workspace_dir = match &self.tool.location {
                    Some(dir) => dir.clone(),
                    None => self.security.workspace_dir.clone(),
                };
                ExecStep::Run {
                    command,
                    workspace_dir,
                    inherited_env: inherited_env(),
                    timeout_secs: SKILL_TOOL_TIMEOUT_SECS,
                }
            },
        }
    }
}

/// Substituting no arguments leaves a command as it is.
pub proof fn law_no_arguments_keeps_command(command: Seq<char>)
    ensures
        substitute(command, Seq::empty()) == command,
{
}

/// A command with no `$` in it is left as it is, whatever the arguments.
pub proof fn law_command_without_placeholders_unchanged(command: Seq<char>, args: Seq<Seq<char>>)
    requires
        !command.contains('$'),
    ensures
        substitute(command, args) == command,
    decreases args.len(),
{
    if args.len() > 0 {
        let k = args.len();
        law_command_without_placeholders_unchanged(command, args.drop_last());
        assert(braced_placeholder(k)[0] == '$');
        assert(bare_placeholder(k)[0] == '$');
        crate::text::lemma_replace_all_absent(command, braced_placeholder(k), args.last());
        crate::text::lemma_replace_all_absent(command, bare_placeholder(k), args.last());
    }
}

/// A command that is just the placeholder `${1}` or `$1` becomes the first
/// argument, where that argument holds no `$`.
pub proof fn law_single_placeholder_takes_argument(arg: Seq<char>, braced: bool)
    requires
        !arg.contains('$'),
    ensures
        substitute(
            if braced { braced_placeholder(1) } else { bare_placeholder(1) },
            seq![arg],
        ) == arg,
{
    let args = seq![arg];
    assert(args.drop_last() =~= Seq::<Seq<char>>::empty());
    assert(decimal(1) == seq!['1']);
    let b = braced_placeholder(1);
    let p = bare_placeholder(1);
    assert(b =~= seq!['$', '{', '1', '}']);
    assert(p =~= seq!['$', '1']);
    assert(b.take(4) =~= b);
    assert(b.skip(4) =~= Seq::<char>::empty());
    assert(replace_all(Seq::<char>::empty(), b, arg) == Seq::<char>::empty());
    assert(p.take(2) =~= p);
    assert(p.skip(2) =~= Seq::<char>::empty());
    assert(replace_all(Seq::<char>::empty(), p, arg) == Seq::<char>::empty());
    assert(args.last() == arg);
    assert(args.len() == 1);
    assert(substitute(b, args.drop_last()) == b);
    assert(substitute(p, args.drop_last()) == p);
    if braced {
        assert(replace_all(b, b, arg) =~= arg);
        crate::text::lemma_replace_all_absent(arg, p, arg);
        assert(substitute(b, args) == replace_all(replace_all(b, b, arg), p, arg));
    } else {
        assert(b.len() > p.len());
        assert(replace_all(p, b, arg) == p);
        assert(replace_all(p, p, arg) =~= arg);
        assert(substitute(p, args) == replace_all(replace_all(p, b, arg), p, arg));
    }
}

/// The command a shell call sends to the security policy is the tool's
/// command with all the call's positional arguments substituted, whatever
/// their number and whatever the form of the call.
pub proof fn law_command_is_substituted(exec: SkillToolExecutor, args: ToolArgs)
    ensures
        exec.command_for(args) == substitute(exec.tool.command@, positional_spec(args)),
{
}

/// A call that is a bare string substitutes that string as the one
/// argument.
pub proof fn law_bare_string_call_is_one_argument(exec: SkillToolExecutor, s: String)
    ensures
        exec.command_for(ToolArgs::Str(s)) == substitute(exec.tool.command@, seq![s@]),
{
    crate::args::law_call_forms(s, ArgValue::Other);
}

/// In `p + ${k} + q`, with no `$` in `p` or `q`, the only `$` is the one
/// that opens `${k}`.
proof fn lemma_only_dollar(p: Seq<char>, q: Seq<char>, k: nat, i: int)
    requires
        !p.contains('$'),
        !q.contains('$'),
        0 <= i < (p + braced_placeholder(k) + q).len(),
        (p + braced_placeholder(k) + q)[i] == '$',
    ensures
        i == p.len(),
{
    let b = braced_placeholder(k);
    let c = p + b + q;
    let d = decimal(k);
    crate::text::law_decimal_notation(k);
    if i < p.len() {
        assert(c[i] == p[i]);
        assert(p.contains(p[i]));
    } else if i < p.len() + b.len() {
        let t = i - p.len();
        assert(c[i] == b[t]);
        if t == 1 {
            assert(b[1] == '{');
        } else if 2 <= t < 2 + d.len() {
            assert(b[t] == d[t - 2]);
            assert('0' <= d[t - 2] <= '9');
        } else if t == 2 + d.len() {
            assert(b[t] == '}');
        }
    } else {
        assert(c[i] == q[i - p.len() - b.len()]);
        assert(q.contains(q[i - p.len() - b.len()]));
    }
}

/// No placeholder but `${k}` itself occurs in `p + ${k} + q`, where `p` and
/// `q` hold no `$`.
proof fn lemma_other_placeholders_absent(p: Seq<char>, q: Seq<char>, k: nat, pat: Seq<char>, j: nat)
    requires
        !p.contains('$'),
        !q.contains('$'),
        pat == bare_placeholder(j) || (pat == braced_placeholder(j) && j != k),
    ensures
        forall|i: int|
            0 <= i && i + pat.len() <= (p + braced_placeholder(k) + q).len() ==> #[trigger] (p
                + braced_placeholder(k) + q).subrange(i, i + pat.len()) != pat,
{
    let b = braced_placeholder(k);
    let c = p + b + q;
    let dk = decimal(k);
    let dj = decimal(j);
    crate::text::law_decimal_notation(k);
    crate::text::law_decimal_notation(j);
    assert forall|i: int| 0 <= i && i + pat.len() <= c.len() implies #[trigger] c.subrange(
        i,
        i + pat.len(),
    ) != pat by {
        if c.subrange(i, i + pat.len()) == pat {
            assert(pat[0] == '$');
            assert(c[i] == c.subrange(i, i + pat.len())[0]);
            lemma_only_dollar(p, q, k, i);
            let n = p.len() as int;
            assert(c[n + 1] == '{');
            if pat == bare_placeholder(j) {
                assert(pat[1] == dj[0]);
                assert(c.subrange(i, i + pat.len())[1] == c[n + 1]);
                assert('0' <= dj[0] <= '9');
            } else {
                if dj.len() < dk.len() {
                    let t: int = 2 + dj.len() as int;
                    assert(pat[t] == '}');
                    assert(c[n + t] == dk[t - 2]);
                    assert(c.subrange(i, i + pat.len())[t] == c[n + t]);
                    assert('0' <= dk[t - 2] <= '9');
                } else if dj.len() > dk.len() {
                    let t: int = 2 + dk.len() as int;
                    assert(pat[t] == dj[t - 2]);
                    assert(c[n + t] == '}');
                    assert(c.subrange(i, i + pat.len())[t] == c[n + t]);
                    assert('0' <= dj[t - 2] <= '9');
                } else {
                    assert forall|t: int| 0 <= t < dj.len() implies dj[t] == dk[t] by {
                        assert(pat[t + 2] == dj[t]);
                        assert(c[n + t + 2] == dk[t]);
                        assert(c.subrange(i, i + pat.len())[t + 2] == c[n + t + 2]);
                    }
                    assert(dj =~= dk);
                    crate::text::lemma_decimal_injective(j, k);
                }
            }
        }
    }
}

/// The passes for the arguments before the `k`-th leave `p + ${k} + q`
/// untouched.
proof fn lemma_earlier_passes_keep(p: Seq<char>, q: Seq<char>, k: nat, args: Seq<Seq<char>>, t: nat)
    requires
        !p.contains('$'),
        !q.contains('$'),
        t < k,
        t <= args.len(),
    ensures
        substitute(p + braced_placeholder(k) + q, args.take(t as int)) == p + braced_placeholder(k)
            + q,
    decreases t,
{
    let c = p + braced_placeholder(k) + q;
    if t == 0 {
        assert(args.take(0) =~= Seq::<Seq<char>>::empty());
    } else {
        lemma_earlier_passes_keep(p, q, k, args, (t - 1) as nat);
        let a = args.take(t as int);
        assert(a.drop_last() =~= args.take(t - 1));
        assert(a.len() == t);
        lemma_other_placeholders_absent(p, q, k, braced_placeholder(t), t);
        crate::text::lemma_replace_all_no_occurrence(c, braced_placeholder(t), a.last());
        lemma_other_placeholders_absent(p, q, k, bare_placeholder(t), t);
        crate::text::lemma_replace_all_no_occurrence(c, bare_placeholder(t), a.last());
    }
}

/// The placeholder `${k}`, between two texts without `$`, becomes the
/// `k`-th argument (counting from one), where that argument holds no `$`,
/// however many arguments there are.
pub proof fn law_braced_placeholder_takes_its_argument(
    p: Seq<char>,
    q: Seq<char>,
    args: Seq<Seq<char>>,
    k: nat,
)
    requires
        1 <= k <= args.len(),
        !p.contains('$'),
        !q.contains('$'),
        !args[k - 1].contains('$'),
    ensures
        substitute(p + braced_placeholder(k) + q, args) == p + args[k - 1] + q,
{
    let b = braced_placeholder(k);
    let bare = bare_placeholder(k);
    let c = p + b + q;
    let a = args[k - 1];
    lemma_earlier_passes_keep(p, q, k, args, (k - 1) as nat);
    let ak = args.take(k as int);
    assert(ak.drop_last() =~= args.take(k - 1));
    assert(ak.last() == a);
    assert(b[0] == '$');
    assert(bare[0] == '$');
    assert(c =~= p + (b + q));
    crate::text::lemma_replace_all_skips_prefix(p, b + q, b, a);
    crate::text::lemma_replace_all_leading_match(b, q, a);
    crate::text::lemma_replace_all_absent(q, b, a);
    let once = p + a + q;
    assert(replace_all(c, b, a) =~= once);
    assert(!once.contains('$')) by {
        if once.contains('$') {
            let j = choose|j: int| 0 <= j < once.len() && once[j] == '$';
            if j < p.len() {
                assert(p[j] == '$');
            } else if j < p.len() + a.len() {
                assert(a[j - p.len()] == '$');
            } else {
                assert(q[j - p.len() - a.len()] == '$');
            }
        }
    }
    crate::text::lemma_replace_all_absent(once, bare, a);
    assert(substitute(c, ak) == once);
    lemma_later_passes_keep_from(c, once, args, k);
}

/// The passes for the arguments after the `k`-th leave a text without `$`
/// untouched.
proof fn lemma_later_passes_keep_from(c: Seq<char>, once: Seq<char>, args: Seq<Seq<char>>, k: nat)
    requires
        !once.contains('$'),
        k <= args.len(),
        substitute(c, args.take(k as int)) == once,
    ensures
        substitute(c, args) == once,
{
    lemma_later_from(c, once, args, args.len(), k);
    assert(args.take(args.len() as int) =~= args);
}

proof fn lemma_later_from(c: Seq<char>, once: Seq<char>, args: Seq<Seq<char>>, t: nat, k: nat)
    requires
        !once.contains('$'),
        k <= t <= args.len(),
        substitute(c, args.take(k as int)) == once,
    ensures
        substitute(c, args.take(t as int)) == once,
    decreases t,
{
    if t > k {
        lemma_later_from(c, once, args, (t - 1) as nat, k);
        let a = args.take(t as int);
        assert(a.drop_last() =~= args.take(t - 1));
        assert(braced_placeholder(t)[0] == '$');
        assert(bare_placeholder(t)[0] == '$');
        crate::text::lemma_replace_all_absent(once, braced_placeholder(t), a.last());
        crate::text::lemma_replace_all_absent(once, bare_placeholder(t), a.last());
    }
}

} // verus!
