//! Running a recipe's hooks: what a hook may see of the daemon's environment, how often starting it
//! is tried again, how much it may print, and what its end means. A hook gets a JSON document on
//! standard input and answers with one on standard output. A hook that exits with a failure, takes
//! too long, prints too much or prints no JSON has failed, and nothing of it is left running.

use crate::outside::{
    duration_line, duration_text, json_document, json_from_slice, lossy, lossy_text,
};
use crate::store::texts;
use crate::text::{cat2, cat3, cat5, decimal, decimal_text, has_prefix, has_suffix, owned};
use vstd::prelude::*;

verus! {

/// The time in milliseconds that a hook may take by default.
pub const DEFAULT_TIMEOUT_MS: u64 = 120_000;

/// Cap on the bytes that a hook may print, on each of its two outputs.
pub const OUTPUT_CAP: usize = 1048576;

/// The time in milliseconds that a hook may take to exit once its outputs are closed, or once it was
/// killed.
pub const EXIT_TIMEOUT_MS: u64 = 5000;

/// How often starting a hook is tried again.
pub const SPAWN_RETRIES: u32 = 5;

/// The error of a program that is still open for writing.
pub const ETXTBSY: i32 = 26;

/// The error of a resource that is short for the moment.
pub const EAGAIN: i32 = 11;

// ---- the environment -------------------------------------------------------------------------

/// The variables that every hook is given where the daemon has them: what a shell script needs to
/// find tools.
pub open spec fn base_names() -> Seq<Seq<char>> {
    seq!["PATH"@, "HOME"@, "LANG"@, "LC_ALL"@, "TZ"@, "TMPDIR"@]
}

/// The variables that a hook is given where the daemon has them: the base ones, then those that its
/// recipe declares.
pub open spec fn hook_names(declared: Seq<Seq<char>>) -> Seq<Seq<char>> {
    base_names() + declared
}

/// The pairs of the names that have a value, in order.
pub open spec fn forwarded(names: Seq<Seq<char>>, values: Seq<Option<Seq<char>>>) -> Seq<
    (Seq<char>, Seq<char>),
>
    decreases names.len(),
{
    if names.len() == 0 {
        Seq::empty()
    } else {
        let rest = forwarded(names.drop_last(), values.drop_last());
        match values.last() {
            Some(v) => rest.push((names.last(), v)),
            None => rest,
        }
    }
}

/// Pairs of texts as mathematical values.
pub open spec fn pairs(env: Seq<(String, String)>) -> Seq<(Seq<char>, Seq<char>)> {
    env.map_values(|p: (String, String)| (p.0@, p.1@))
}

/// Optional texts as mathematical values.
pub open spec fn optional_texts(values: Seq<Option<String>>) -> Seq<Option<Seq<char>>> {
    values.map_values(
        |v: Option<String>|
            match v {
                Some(s) => Some(s@),
                None => None,
            },
    )
}

/// Whether `value` is what `get` may answer for `name`.
pub open spec fn may_answer<F: Fn(&str) -> Option<String>>(
    get: F,
    name: Seq<char>,
    value: Option<String>,
) -> bool {
    exists|n: &str| n@ == name && #[trigger] call_ensures(get, (n,), value)
}

/// Whether `values` are what `get` may answer for `names`, one for each.
pub open spec fn answered<F: Fn(&str) -> Option<String>>(
    get: F,
    names: Seq<Seq<char>>,
    values: Seq<Option<String>>,
) -> bool {
    &&& values.len() == names.len()
    &&& forall|i: int|
        0 <= i < names.len() ==> #[trigger] may_answer(get, names[i], values[i])
}

fn base_hook_env() -> (r: Vec<String>)
    ensures
        texts(r@) == base_names(),
{
    let mut v: Vec<String> = Vec::new();
    v.push(owned("PATH"));
    v.push(owned("HOME"));
    v.push(owned("LANG"));
    v.push(owned("LC_ALL"));
    v.push(owned("TZ"));
    v.push(owned("TMPDIR"));
    assert(texts(v@) =~= base_names());
    v
}

/// The environment of a hook: of the base names and then the declared ones, those for which `get`
/// has a value, each with it. Nothing else is forwarded.
pub fn hook_env_from<F: Fn(&str) -> Option<String>>(get: F, declared: &[String]) -> (r: Vec<
    (String, String),
>)
    requires
        forall|name: &str| call_requires(get, (name,)),
    ensures
        exists|values: Seq<Option<String>>|
            #![trigger optional_texts(values)]
            answered(get, hook_names(texts(declared@)), values) && pairs(r@) == forwarded(
                hook_names(texts(declared@)),
                optional_texts(values),
            ),
{
    let mut names = base_hook_env();
    let mut i: usize = 0;
    while i < declared.len()
        invariant
            i <= declared@.len(),
            texts(names@) == base_names() + texts(declared@.take(i as int)),
        decreases declared@.len() - i,
    {
        let ghost so_far = names@;
        names.push(declared[i].clone());
        proof {
            assert(texts(names@) =~= texts(so_far).push(declared@[i as int]@));
            assert(texts(declared@.take(i + 1)) =~= texts(declared@.take(i as int)).push(
                declared@[i as int]@,
            ));
        }
        i = i + 1;
    }
    assert(declared@.take(i as int) =~= declared@);
    let ghost all = hook_names(texts(declared@));
    let mut env: Vec<(String, String)> = Vec::new();
    let ghost mut values: Seq<Option<String>> = Seq::empty();
    let mut k: usize = 0;
    assert(all.take(0) =~= Seq::empty());
    while k < names.len()
        invariant
            k <= names@.len(),
            texts(names@) == all,
            forall|name: &str| call_requires(get, (name,)),
            answered(get, all.take(k as int), values),
            pairs(env@) == forwarded(all.take(k as int), optional_texts(values)),
        decreases names@.len() - k,
    {
        let name: &str = names[k].as_str();
        let value = get(name);
        let ghost before = values;
        let ghost given = env@;
        proof {
            values = values.push(value);
            let next = all.take(k + 1);
            assert(next.drop_last() =~= all.take(k as int));
            assert(next.last() == name@);
            assert(optional_texts(values).drop_last() =~= optional_texts(before));
            assert(call_ensures(get, (name,), values[k as int]));
            assert forall|j: int| 0 <= j < next.len() implies #[trigger] may_answer(
                get,
                next[j],
                values[j],
            ) by {
                if j < k {
                    assert(may_answer(get, all.take(k as int)[j], before[j]));
                }
            }
        }
        if let Some(v) = value {
            env.push((names[k].clone(), v));
            assert(pairs(env@) =~= pairs(given).push((name@, v@)));
        }
        k = k + 1;
    }
    assert(all.take(k as int) =~= all);
    assert(optional_texts(values) == optional_texts(values));
    env
}

/// Every variable that a hook is given is a base one or one that its recipe declares.
pub proof fn only_listed_names_are_forwarded(
    declared: Seq<Seq<char>>,
    values: Seq<Option<Seq<char>>>,
    i: int,
)
    requires
        values.len() == hook_names(declared).len(),
        0 <= i < forwarded(hook_names(declared), values).len(),
    ensures
        hook_names(declared).contains(forwarded(hook_names(declared), values)[i].0),
{
    lemma_forwarded(hook_names(declared), values, i);
}

proof fn lemma_forwarded(names: Seq<Seq<char>>, values: Seq<Option<Seq<char>>>, i: int)
    requires
        values.len() == names.len(),
        0 <= i < forwarded(names, values).len(),
    ensures
        names.contains(forwarded(names, values)[i].0),
    decreases names.len(),
{
    if names.len() > 0 {
        let rest = forwarded(names.drop_last(), values.drop_last());
        if i < rest.len() {
            lemma_forwarded(names.drop_last(), values.drop_last(), i);
            let k = choose|k: int|
                0 <= k < names.drop_last().len() && names.drop_last()[k] == rest[i].0;
            assert(names[k] == rest[i].0);
        } else {
            assert(names[names.len() - 1] == names.last());
        }
    }
}

/// Nothing of the daemon's own namespace `LNRENT`, which may hold its seed, reaches a hook whose
/// recipe declares none of it.
pub proof fn daemon_namespace_is_withheld(
    declared: Seq<Seq<char>>,
    values: Seq<Option<Seq<char>>>,
    i: int,
)
    requires
        values.len() == hook_names(declared).len(),
        forall|k: int|
            0 <= k < declared.len() ==> !has_prefix(#[trigger] declared[k], "LNRENT"@),
        0 <= i < forwarded(hook_names(declared), values).len(),
    ensures
        !has_prefix(forwarded(hook_names(declared), values)[i].0, "LNRENT"@),
{
    only_listed_names_are_forwarded(declared, values, i);
    let names = hook_names(declared);
    let name = forwarded(names, values)[i].0;
    let k = choose|k: int| 0 <= k < names.len() && names[k] == name;
    reveal_strlit("LNRENT");
    reveal_strlit("PATH");
    reveal_strlit("HOME");
    reveal_strlit("LANG");
    reveal_strlit("LC_ALL");
    reveal_strlit("TZ");
    reveal_strlit("TMPDIR");
    if has_prefix(name, "LNRENT"@) {
        assert(name.take(6)[1] == 'N');
        assert(name.take(6)[0] == 'L');
        if k >= 6 {
            assert(names[k] == declared[k - 6]);
        }
    }
}

// ---- starting --------------------------------------------------------------------------------

/// After how many milliseconds starting a hook is tried again, if it is (see [`spawn_retry`]).
pub open spec fn retry_after(attempt: u32, os_error: Option<i32>) -> Option<u64> {
    if attempt < SPAWN_RETRIES && (os_error == Some(ETXTBSY) || os_error == Some(EAGAIN)) {
        Some((10 * (attempt + 1)) as u64)
    } else {
        None
    }
}

/// Tells whether starting a hook is to be tried again after `attempt` further tries, and then after
/// how many milliseconds: only where the program was busy or resources were short.
pub fn spawn_retry(attempt: u32, os_error: Option<i32>) -> (r: Option<u64>)
    ensures
        r == retry_after(attempt, os_error),
{
    let passing = match os_error {
        Some(e) => e == ETXTBSY || e == EAGAIN,
        None => false,
    };
    if attempt < SPAWN_RETRIES && passing {
        Some(10 * (attempt as u64 + 1))
    } else {
        None
    }
}

/// The process group of a hook, for as long as it is to be killed when the hook is left.
#[derive(Debug)]
pub struct HookProcessGroup {
    pub pgid: Option<i32>,
}

impl HookProcessGroup {
    /// The group that a hook leads.
    pub fn new(pid: Option<i32>) -> (r: HookProcessGroup)
        ensures
            r.pgid == pid,
    {
        HookProcessGroup { pgid: pid }
    }

    /// Lets the group be.
    pub fn disarm(&mut self)
        ensures
            final(self).pgid is None,
    {
        self.pgid = None;
    }
}

// ---- reading ---------------------------------------------------------------------------------

/// An output of a hook while it is read, never longer than its cap.
#[derive(Debug)]
pub struct OutputReader {
    bytes: Vec<u8>,
    cap: usize,
}

/// [`OutputReader`] as a mathematical value.
pub struct OutputView {
    pub bytes: Seq<u8>,
    pub cap: usize,
}

impl View for OutputReader {
    type V = OutputView;

    closed spec fn view(&self) -> OutputView {
        OutputView { bytes: self.bytes@, cap: self.cap }
    }
}

impl OutputReader {
    /// Whether what was read is within the cap.
    pub open spec fn wf(&self) -> bool {
        self@.bytes.len() <= self@.cap
    }

    /// Starts to read.
    pub fn new(cap: usize) -> (r: OutputReader)
        ensures
            r.wf(),
            r@ == (OutputView { bytes: Seq::empty(), cap }),
    {
        OutputReader { bytes: Vec::new(), cap }
    }

    /// Takes the next bytes in, unless they would go past the cap.
    pub fn push(&mut self, chunk: &[u8]) -> (r: Result<(), String>)
        requires
            old(self).wf(),
        ensures
            final(self).wf(),
            match r {
                Ok(()) => final(self)@ == (OutputView {
                    bytes: old(self)@.bytes + chunk@,
                    cap: old(self)@.cap,
                }),
                Err(e) => old(self)@.bytes.len() + chunk@.len() > old(self)@.cap && final(self)@
                    == old(self)@ && e@ == "output exceeded the "@ + decimal(old(self)@.cap as int)
                    + "-byte cap"@,
            },
    {
        let room: usize = self.cap - self.bytes.len();
        if chunk.len() > room {
            return Err(
                cat3("output exceeded the ", &decimal_text(self.cap as i128), "-byte cap"),
            );
        }
        self.bytes.extend_from_slice(chunk);
        assert(self@.bytes =~= old(self)@.bytes + chunk@);
        Ok(())
    }

    /// What was read.
    pub fn into_bytes(self) -> (r: Vec<u8>)
        ensures
            r@ == self@.bytes,
    {
        self.bytes
    }
}

// ---- the end ---------------------------------------------------------------------------------

/// A successful run: the JSON document that the hook printed.
#[derive(Debug)]
pub struct HookOutput {
    pub stdout_json: serde_json::Value,
}

/// Why a hook failed, in words, with what is behind it where there is more to say.
#[derive(Clone, Debug)]
pub struct HookFailure {
    pub message: String,
    pub cause: Option<String>,
}

/// What is to be done about a hook that is left.
#[derive(Clone, Copy, Debug, PartialEq, Eq, Structural)]
pub enum Cleanup {
    /// Kill its process group and wait for it.
    Reap,
    /// Kill what is left of its process group.
    KillGroup,
    /// Nothing.
    Leave,
}

/// How a run of a hook ended.
#[derive(Debug)]
pub struct HookEnd {
    pub result: Result<HookOutput, HookFailure>,
    pub cleanup: Cleanup,
}

/// What came of reading the two outputs of a hook.
#[derive(Debug)]
pub enum HookRead {
    TimedOut,
    /// One of them went past the cap or could not be read.
    Failed(String),
    Closed { stdout: Vec<u8>, stderr: Vec<u8> },
}

/// What came of waiting for a hook to exit.
#[derive(Clone, Debug)]
pub enum HookExit {
    TimedOut,
    Failed(String),
    Exited { success: bool, code: Option<i32> },
}

/// A run that ended with a failure.
pub open spec fn is_failure(end: HookEnd, message: Seq<char>, cleanup: Cleanup) -> bool {
    end.result matches Err(f) && f.message@ == message && f.cause is None && end.cleanup == cleanup
}

fn failure(message: String, cleanup: Cleanup) -> (r: HookEnd)
    ensures
        is_failure(r, message@, cleanup),
{
    HookEnd { result: Err(HookFailure { message, cause: None }), cleanup }
}

/// What the reading of a hook's outputs means. Where it went wrong the hook is killed, since it may
/// still be running.
pub fn after_read(hook: &str, timeout_ms: u64, read: HookRead) -> (r: Result<
    (Vec<u8>, Vec<u8>),
    HookEnd,
>)
    ensures
        match read {
            HookRead::TimedOut => r matches Err(end) && is_failure(
                end,
                "hook "@ + hook@ + " timed out after "@ + duration_line(timeout_ms),
                Cleanup::Reap,
            ),
            HookRead::Failed(e) => r matches Err(end) && is_failure(
                end,
                "hook "@ + hook@ + ": "@ + e@,
                Cleanup::Reap,
            ),
            HookRead::Closed { stdout, stderr } => r == Ok::<(Vec<u8>, Vec<u8>), HookEnd>(
                (stdout, stderr),
            ),
        },
{
    match read {
        HookRead::TimedOut => {
            let m = cat3("hook ", hook, " timed out after ");
            Err(failure(cat2(&m, &duration_text(timeout_ms)), Cleanup::Reap))
        },
        HookRead::Failed(e) => {
            let m = cat3("hook ", hook, ": ");
            Err(failure(cat2(&m, &e), Cleanup::Reap))
        },
        HookRead::Closed { stdout, stderr } => Ok((stdout, stderr)),
    }
}

/// How an optional exit code is written for debugging.
pub open spec fn code_line(code: Option<i32>) -> Seq<char> {
    match code {
        Some(n) => "Some("@ + decimal(n as int) + ")"@,
        None => "None"@,
    }
}

fn code_text(code: Option<i32>) -> (r: String)
    ensures
        r@ == code_line(code),
{
    match code {
        Some(n) => cat3("Some(", &decimal_text(n as i128), ")"),
        None => owned("None"),
    }
}

/// Whether a run ended as it must, given how the hook exited and what its outputs were read as: on
/// standard error the text `said`, on standard output the document `parsed` or the words of why it
/// is none.
pub open spec fn ended(
    end: HookEnd,
    hook: Seq<char>,
    exit: HookExit,
    said: Seq<char>,
    parsed: Result<serde_json::Value, Seq<char>>,
) -> bool {
    match exit {
        HookExit::TimedOut => is_failure(
            end,
            "hook "@ + hook + " did not exit after closing its output"@,
            Cleanup::Reap,
        ),
        HookExit::Failed(e) => {
            &&& end.result matches Err(f)
            &&& f.message@ == "waiting on hook"@
            &&& f.cause == Some(e)
            &&& end.cleanup == Cleanup::KillGroup
        },
        HookExit::Exited { success, code } => if !success {
            is_failure(
                end,
                "hook "@ + hook + " failed (exit "@ + code_line(code) + "): "@ + said,
                Cleanup::KillGroup,
            )
        } else {
            match parsed {
                Err(e) => is_failure(
                    end,
                    "hook "@ + hook + " stdout is not JSON: "@ + e,
                    Cleanup::KillGroup,
                ),
                Ok(v) => {
                    &&& end.result matches Ok(out)
                    &&& out.stdout_json == v
                    &&& end.cleanup == Cleanup::Leave
                },
            }
        },
    }
}

/// What the words of a parse are as a mathematical value.
pub open spec fn parsed_view(p: Result<serde_json::Value, String>) -> Result<
    serde_json::Value,
    Seq<char>,
> {
    match p {
        Ok(v) => Ok(v),
        Err(e) => Err(e@),
    }
}

/// What the exit of a hook means, given what its outputs were read as. A hook that failed is left
/// with nothing of its group running; one that succeeded is let be.
pub fn hook_end(
    hook: &str,
    exit: HookExit,
    said: &str,
    parsed: Result<serde_json::Value, String>,
) -> (r: HookEnd)
    ensures
        ended(r, hook@, exit, said@, parsed_view(parsed)),
{
    match exit {
        HookExit::TimedOut => failure(
            cat3("hook ", hook, " did not exit after closing its output"),
            Cleanup::Reap,
        ),
        HookExit::Failed(e) => HookEnd {
            result: Err(HookFailure { message: owned("waiting on hook"), cause: Some(e) }),
            cleanup: Cleanup::KillGroup,
        },
        HookExit::Exited { success, code } => {
            if !success {
                let m = cat5("hook ", hook, " failed (exit ", &code_text(code), "): ");
                return failure(cat2(&m, said), Cleanup::KillGroup);
            }
            match parsed {
                Err(e) => {
                    let m = cat3("hook ", hook, " stdout is not JSON: ");
                    failure(cat2(&m, &e), Cleanup::KillGroup)
                },
                Ok(v) => HookEnd {
                    result: Ok(HookOutput { stdout_json: v }),
                    cleanup: Cleanup::Leave,
                },
            }
        },
    }
}

/// What the exit of a hook means that printed `stdout` and `stderr`.
pub fn after_exit(hook: &str, exit: HookExit, stdout: &Vec<u8>, stderr: &Vec<u8>) -> (r: HookEnd)
    ensures
        ended(r, hook@, exit, lossy(stderr@), json_document(stdout@)),
{
    hook_end(hook, exit, &lossy_text(stderr), json_from_slice(stdout))
}

/// A hook succeeds if and only if it exited with success and printed JSON, and a hook that failed is
/// never let be.
pub proof fn failed_hook_is_cleaned_up(
    end: HookEnd,
    hook: Seq<char>,
    exit: HookExit,
    said: Seq<char>,
    parsed: Result<serde_json::Value, Seq<char>>,
)
    requires
        ended(end, hook, exit, said, parsed),
    ensures
        end.result is Ok <==> (parsed is Ok && (exit matches HookExit::Exited { success, .. }
            && success)),
        end.result is Err <==> end.cleanup != Cleanup::Leave,
{
}

/// The base variables, one by one.
pub proof fn base_variables_one_by_one(name: Seq<char>)
    ensures
        base_names().contains(name) <==> name == "PATH"@ || name == "HOME"@ || name == "LANG"@
            || name == "LC_ALL"@ || name == "TZ"@ || name == "TMPDIR"@,
{
    let b = base_names();
    assert(b[0] == "PATH"@ && b[1] == "HOME"@ && b[2] == "LANG"@ && b[3] == "LC_ALL"@ && b[4]
        == "TZ"@ && b[5] == "TMPDIR"@);
}

/// Every variable that a hook may have and that the daemon has reaches it, with its own value.
pub proof fn listed_names_are_forwarded(
    declared: Seq<Seq<char>>,
    values: Seq<Option<Seq<char>>>,
    i: int,
)
    requires
        values.len() == hook_names(declared).len(),
        0 <= i < values.len(),
        values[i] is Some,
    ensures
        forwarded(hook_names(declared), values).contains((hook_names(declared)[i], values[i]->0)),
        i < 6 ==> hook_names(declared)[i] == base_names()[i],
        i >= 6 ==> hook_names(declared)[i] == declared[i - 6],
{
    lemma_value_is_forwarded(hook_names(declared), values, i);
}

proof fn lemma_value_is_forwarded(names: Seq<Seq<char>>, values: Seq<Option<Seq<char>>>, i: int)
    requires
        values.len() == names.len(),
        0 <= i < values.len(),
        values[i] is Some,
    ensures
        forwarded(names, values).contains((names[i], values[i]->0)),
    decreases names.len(),
{
    let all = forwarded(names, values);
    let rest = forwarded(names.drop_last(), values.drop_last());
    let x = (names[i], values[i]->0);
    if i < names.len() - 1 {
        lemma_value_is_forwarded(names.drop_last(), values.drop_last(), i);
        let k = choose|k: int| 0 <= k < rest.len() && rest[k] == x;
        assert(all[k] == x);
    } else {
        assert(all[rest.len() as int] == x);
    }
}

/// What is done with what a hook leaves, by how it exited: one that does not exit is killed and waited
/// for; what is left of one that failed, or printed no JSON, is killed; one that succeeded is let be.
pub proof fn cleanup_by_exit(
    end: HookEnd,
    hook: Seq<char>,
    exit: HookExit,
    said: Seq<char>,
    parsed: Result<serde_json::Value, Seq<char>>,
)
    requires
        ended(end, hook, exit, said, parsed),
    ensures
        exit is TimedOut <==> end.cleanup == Cleanup::Reap,
        exit is Failed ==> end.cleanup == Cleanup::KillGroup,
        exit matches HookExit::Exited { success, code } ==> (end.cleanup == Cleanup::Leave <==> success
            && parsed is Ok),
        end.result matches Ok(out) ==> parsed == Ok::<serde_json::Value, Seq<char>>(
            out.stdout_json,
        ),
{
}

/// Starting a hook is tried again five times at most, and only where its program was busy (26) or
/// resources were short (11); each time it is waited for ten milliseconds longer.
pub proof fn busy_program_is_started_again(attempt: u32, os_error: Option<i32>)
    ensures
        retry_after(attempt, os_error) is Some <==> attempt < 5 && (os_error == Some(26i32)
            || os_error == Some(11i32)),
        retry_after(attempt, os_error) matches Some(ms) ==> ms == 10 * attempt + 10,
{
}

/// The limits of a hook: two minutes, a mebibyte of output, and five seconds to exit.
pub proof fn limits_of_a_hook()
    ensures
        DEFAULT_TIMEOUT_MS == 2 * 60 * 1000,
        OUTPUT_CAP == 1024 * 1024,
        EXIT_TIMEOUT_MS == 5 * 1000,
{
}

/// What a hook's failure says: it names the hook, unless waiting for it failed, and only then is there a
/// cause besides; where the hook exited with a failure the words end with what it said.
pub proof fn failure_names_the_hook(
    end: HookEnd,
    hook: Seq<char>,
    exit: HookExit,
    said: Seq<char>,
    parsed: Result<serde_json::Value, Seq<char>>,
)
    requires
        ended(end, hook, exit, said, parsed),
        end.result is Err,
    ensures
        exit matches HookExit::Failed(e) ==> end.result->Err_0.cause == Some(e),
        !(exit is Failed) ==> end.result->Err_0.cause is None,
        !(exit is Failed) ==> has_prefix(end.result->Err_0.message@, "hook "@ + hook),
        exit matches HookExit::Exited { success, code } ==> (!success ==> has_suffix(
            end.result->Err_0.message@,
            said,
        )),
{
    let m = end.result->Err_0.message@;
    let head = "hook "@ + hook;
    if !(exit is Failed) {
        assert(m.take(head.len() as int) =~= head);
    }
    if let HookExit::Exited { success, code } = exit {
        if !success {
            assert(m.skip(m.len() - said.len()) =~= said);
        }
    }
}

} // verus!
