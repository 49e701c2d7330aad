//! What is asked of the `omp` CLI, and what its answers mean.
//!
//! The process is run with an argument vector (never through a shell string),
//! with a short timeout; running it is left to the caller.

use crate::model::Host;
use crate::text::{
    chars, decimal, decimal_i32, decimal_u64, is_blank, is_space, lossy_text, occurrences,
    occurrences_add, occurrences_none, signed_decimal, trim, trimmed,
    trimming_takes_the_white_space_around, utf8_lossy, views,
};
use std::path::PathBuf;
use vstd::prelude::*;
use vstd::string::*;

verus! {

/// `std::path::PathBuf`, carried through from the command line to the process.
#[verifier::external_type_specification]
#[verifier::external_body]
pub struct ExPathBuf(std::path::PathBuf);

/// How many seconds one run of `omp` may take.
pub const TIMEOUT_SECS: u64 = 5;

/// How many seconds a launch is watched for an early end.
pub const LAUNCH_WATCH_SECS: u64 = 2;

/// How many characters of a failed run's stderr are reported.
pub const STDERR_LIMIT: usize = 500;

/// The link that is asked for.
#[derive(Debug, Clone, Copy, PartialEq, Eq, Structural)]
pub enum Access {
    View,
    Control,
}

/// Why `omp` gave no answer.
#[derive(Debug, PartialEq, Eq)]
pub enum OmpError {
    NotFound(String),
    Spawn(String),
    Timeout,
    Exit { code: Option<i32>, stderr: String },
    Parse(String),
}

/// The words for an exit code; none means that a signal ended the process.
pub open spec fn code_text(code: Option<i32>) -> Seq<char> {
    match code {
        Some(c) => signed_decimal(c as int),
        None => "signal"@,
    }
}

/// What an error says.
pub open spec fn error_text(e: OmpError) -> Seq<char> {
    match e {
        OmpError::NotFound(msg) => "omp not found: "@ + msg@,
        OmpError::Spawn(msg) => "failed to run omp: "@ + msg@,
        OmpError::Timeout => "omp timed out after "@ + decimal(TIMEOUT_SECS as nat) + "s"@,
        OmpError::Exit { code, stderr } => "omp exited with "@ + code_text(code) + ": "@ + stderr@,
        OmpError::Parse(msg) => "could not parse omp output: "@ + msg@,
    }
}

impl OmpError {
    /// What the error says.
    pub fn message(&self) -> (r: String)
        ensures
            r@ == error_text(*self),
    {
        match self {
            OmpError::NotFound(msg) => {
                let mut r: String = "omp not found: ".to_owned();
                r.append(msg.as_str());
                r
            },
            OmpError::Spawn(msg) => {
                let mut r: String = "failed to run omp: ".to_owned();
                r.append(msg.as_str());
                r
            },
            OmpError::Timeout => {
                let mut r: String = "omp timed out after ".to_owned();
                r.append(decimal_u64(TIMEOUT_SECS).as_str());
                r.append("s");
                r
            },
            OmpError::Exit { code, stderr } => {
                let mut r: String = "omp exited with ".to_owned();
                match code {
                    Some(c) => r.append(decimal_i32(*c).as_str()),
                    None => r.append("signal"),
                }
                r.append(": ");
                r.append(stderr.as_str());
                r
            },
            OmpError::Parse(msg) => {
                let mut r: String = "could not parse omp output: ".to_owned();
                r.append(msg.as_str());
                r
            },
        }
    }
}

/// What came of running a process.
#[derive(Debug)]
pub enum RunOutcome {
    /// It did not end in time.
    TimedOut,
    /// It could not be run; `not_found` tells a missing executable apart.
    Failed { not_found: bool, message: String },
    /// It ended.
    Finished { success: bool, code: Option<i32>, stdout: Vec<u8>, stderr: Vec<u8> },
}

/// The first `n` characters of `s`, or all of it where it is shorter.
pub open spec fn first_chars(s: Seq<char>, n: nat) -> Seq<char> {
    if s.len() <= n {
        s
    } else {
        s.take(n as int)
    }
}

/// The first `n` characters of `s`, or all of it where it is shorter.
pub(crate) fn keep_first(s: &str, n: usize) -> (r: &str)
    ensures
        r@ == first_chars(s@, n as nat),
{
    if s.unicode_len() <= n {
        s
    } else {
        let r = s.substring_char(0, n);
        assert(r@ =~= s@.take(n as int));
        r
    }
}

/// What is reported of a failed run's stderr.
pub open spec fn reported_stderr(stderr: Seq<u8>) -> Seq<char> {
    first_chars(trimmed(lossy_text(stderr)), STDERR_LIMIT as nat)
}

/// The outcome of a run as a result: the stdout of a successful one, else the
/// error that tells what happened.
pub open spec fn is_run_result(outcome: RunOutcome, r: Result<String, OmpError>) -> bool {
    match outcome {
        RunOutcome::TimedOut => r == Err::<String, OmpError>(OmpError::Timeout),
        RunOutcome::Failed { not_found, message } => r == Err::<String, OmpError>(
            if not_found {
                OmpError::NotFound(message)
            } else {
                OmpError::Spawn(message)
            },
        ),
        RunOutcome::Finished { success, code, stdout, stderr } => if success {
            r matches Ok(out) && out@ == lossy_text(stdout@)
        } else {
            r matches Err(OmpError::Exit { code: c, stderr: text }) && c == code && text@
                == reported_stderr(stderr@)
        },
    }
}

/// The result of a run of `omp`.
pub fn run_result(outcome: RunOutcome) -> (r: Result<String, OmpError>)
    ensures
        is_run_result(outcome, r),
{
    match outcome {
        RunOutcome::TimedOut => Err(OmpError::Timeout),
        RunOutcome::Failed { not_found, message } => if not_found {
            Err(OmpError::NotFound(message))
        } else {
            Err(OmpError::Spawn(message))
        },
        RunOutcome::Finished { success, code, stdout, stderr } => if success {
            Ok(utf8_lossy(stdout.as_slice()))
        } else {
            let text = utf8_lossy(stderr.as_slice());
            let text = trim(text.as_str());
            let stderr = keep_first(text, STDERR_LIMIT).to_owned();
            Err(OmpError::Exit { code, stderr })
        },
    }
}

/// No report of a failed run is longer than the limit.
pub proof fn reported_stderr_is_short(stderr: Seq<u8>)
    ensures
        reported_stderr(stderr).len() <= STDERR_LIMIT,
{
}

/// The real thing: runs the `omp` executable.
#[derive(Debug, Clone)]
pub struct RealOmp {
    pub explicit: Option<PathBuf>,
}

impl Default for RealOmp {
    fn default() -> (r: Self)
        ensures
            r.explicit is None,
    {
        RealOmp { explicit: None }
    }
}

/// What to do next on the way to the `omp` executable.
#[derive(Debug)]
pub enum Resolve<'a> {
    /// Run this one.
    Run(&'a PathBuf),
    /// Look this name up on `PATH` first.
    LookUp(&'static str),
    /// There is none.
    Failed(OmpError),
}

/// The executable that is run, as far as it is known: none means that a name is to
/// be looked up, or that there is no executable.
pub open spec fn executable(
    explicit: Option<PathBuf>,
    omp_exe: Option<Result<PathBuf, String>>,
    omp: Option<Result<PathBuf, String>>,
) -> Option<PathBuf> {
    match (explicit, omp_exe, omp) {
        (Some(path), _, _) => Some(path),
        (None, Some(Ok(path)), _) => Some(path),
        (None, Some(Err(_)), Some(Ok(path))) => Some(path),
        _ => None,
    }
}

impl RealOmp {
    pub fn new(explicit: Option<PathBuf>) -> (r: Self)
        ensures
            r.explicit == explicit,
    {
        RealOmp { explicit }
    }

    /// Explicit path first, then PATH lookup preferring `omp.exe` over `omp.cmd`.
    /// `omp_exe` and `omp` are what the lookups of these names gave, where they
    /// were made.
    pub fn resolve<'a>(
        &'a self,
        omp_exe: &'a Option<Result<PathBuf, String>>,
        omp: &'a Option<Result<PathBuf, String>>,
    ) -> (r: Resolve<'a>)
        ensures
            r is Run <==> executable(self.explicit, *omp_exe, *omp) is Some,
            r matches Resolve::Run(path) ==> Some(*path) == executable(
                self.explicit,
                *omp_exe,
                *omp,
            ),
            match (self.explicit, *omp_exe, *omp) {
                (Some(path), _, _) => r == Resolve::Run(&path),
                (None, None, _) => r matches Resolve::LookUp(name) && name@ == "omp.exe"@,
                (None, Some(Ok(path)), _) => r == Resolve::Run(&path),
                (None, Some(Err(_)), None) => r matches Resolve::LookUp(name) && name@ == "omp"@,
                (None, Some(Err(_)), Some(Ok(path))) => r == Resolve::Run(&path),
                (None, Some(Err(_)), Some(Err(e))) => r == Resolve::Failed(OmpError::NotFound(e)),
            },
    {
        if let Some(path) = &self.explicit {
            return Resolve::Run(path);
        }
        match omp_exe {
            None => Resolve::LookUp("omp.exe"),
            Some(Ok(path)) => Resolve::Run(path),
            Some(Err(_)) => match omp {
                None => Resolve::LookUp("omp"),
                Some(Ok(path)) => Resolve::Run(path),
                Some(Err(e)) => Resolve::Failed(OmpError::NotFound(e.clone())),
            },
        }
    }
}

/// The arguments that list the sessions.
pub fn list_args() -> (r: Vec<String>)
    ensures
        views(r@) == seq!["collab"@, "list"@, "--json"@],
{
    let mut r: Vec<String> = Vec::new();
    r.push("collab".to_owned());
    r.push("list".to_owned());
    r.push("--json".to_owned());
    assert(views(r@) =~= seq!["collab"@, "list"@, "--json"@]);
    r
}

/// The arguments that ask for a link.
pub open spec fn link_arguments(instance_id: Seq<char>, access: Access) -> Seq<Seq<char>> {
    seq!["collab"@, "link"@, instance_id, "--json"@] + (match access {
        Access::View => seq!["--view"@],
        Access::Control => seq![],
    })
}

/// The arguments that ask for a link to the session.
pub fn link_args(instance_id: &str, access: Access) -> (r: Vec<String>)
    ensures
        views(r@) == link_arguments(instance_id@, access),
{
    let mut r: Vec<String> = Vec::new();
    r.push("collab".to_owned());
    r.push("link".to_owned());
    r.push(instance_id.to_owned());
    r.push("--json".to_owned());
    if access == Access::View {
        r.push("--view".to_owned());
    }
    assert(views(r@) =~= link_arguments(instance_id@, access));
    r
}

/// The sessions that a parse gave, or its error.
pub open spec fn list_of(parsed: Result<Vec<Host>, String>) -> Result<Vec<Host>, OmpError> {
    match parsed {
        Ok(hosts) => Ok(hosts),
        Err(message) => Err(OmpError::Parse(message)),
    }
}

/// The link that a parse gave, if it gave one.
pub open spec fn link_of(parsed: Option<String>) -> Option<Seq<char>> {
    match parsed {
        Some(url) => Some(url@),
        None => None,
    }
}

/// The list of sessions from a finished run and the parse of its output.
pub fn list_result(parsed: Result<Vec<Host>, String>) -> (r: Result<Vec<Host>, OmpError>)
    ensures
        r == list_of(parsed),
        match parsed {
            Ok(hosts) => r == Ok::<Vec<Host>, OmpError>(hosts),
            Err(message) => r == Err::<Vec<Host>, OmpError>(OmpError::Parse(message)),
        },
{
    match parsed {
        Ok(hosts) => Ok(hosts),
        Err(message) => Err(OmpError::Parse(message)),
    }
}

/// The link from the parse of a finished run's output, which holds the secret:
/// where it could not be parsed, the error says nothing of it.
pub fn link_result(parsed: Option<String>) -> (r: Result<String, OmpError>)
    ensures
        r is Ok <==> link_of(parsed) is Some,
        r matches Ok(url) ==> Some(url@) == link_of(parsed),
        match parsed {
            Some(url) => r == Ok::<String, OmpError>(url),
            None => r matches Err(OmpError::Parse(message)) && message@
                == "unexpected link output"@,
        },
{
    match parsed {
        Some(url) => Ok(url),
        None => Err(OmpError::Parse("unexpected link output".to_owned())),
    }
}

/// The arguments that start a session.
pub open spec fn start_arguments(cwd: Seq<char>, model: Option<Seq<char>>) -> Seq<Seq<char>> {
    seq!["--cwd"@, cwd] + (match model {
        Some(m) => seq!["--model"@, m],
        None => seq![],
    })
}

/// The arguments that start a session in the checkout, with omp's default model
/// where none is given.
pub fn start_args(cwd: &str, model: Option<&str>) -> (r: Vec<String>)
    ensures
        views(r@) == start_arguments(
            cwd@,
            match model {
                Some(m) => Some(m@),
                None => None,
            },
        ),
{
    let mut r: Vec<String> = Vec::new();
    r.push("--cwd".to_owned());
    r.push(cwd.to_owned());
    if let Some(m) = model {
        r.push("--model".to_owned());
        r.push(m.to_owned());
    }
    assert(views(r@) =~= start_arguments(
        cwd@,
        match model {
            Some(m) => Some(m@),
            None => None,
        },
    ));
    r
}

/// A control character.
pub open spec fn is_control(c: char) -> bool {
    c <= '\u{1f}' || '\u{7f}' <= c <= '\u{9f}'
}

/// A character that `cmd.exe` would not take as it stands within quotes.
pub open spec fn is_special(c: char) -> bool {
    c == '"' || c == '%' || c == '!' || is_control(c)
}

/// A text that `cmd.exe` hands on unchanged when it is quoted.
pub open spec fn is_quotable(s: Seq<char>) -> bool {
    &&& forall|i: int| 0 <= i < s.len() ==> !is_special(#[trigger] s[i])
    &&& s.len() > 0 ==> s.last() != '\\'
}

/// `s` in double quotes.
pub open spec fn quoted(s: Seq<char>) -> Seq<char> {
    seq!['"'] + s + seq!['"']
}

/// Whether `cmd.exe` hands the text on unchanged when it is quoted.
pub fn can_quote(s: &str) -> (r: bool)
    ensures
        r == is_quotable(s@),
{
    let v = chars(s);
    for i in 0..v.len()
        invariant
            v@ == s@,
            forall|k: int| 0 <= k < i ==> !is_special(#[trigger] s@[k]),
    {
        let c = v[i];
        if c == '"' || c == '%' || c == '!' || c <= '\u{1f}' || ('\u{7f}' <= c && c <= '\u{9f}') {
            assert(is_special(s@[i as int]));
            return false;
        }
    }
    v.len() == 0 || v[v.len() - 1] != '\\'
}

fn quote(s: &str) -> (r: String)
    ensures
        r@ == quoted(s@),
{
    let mut r: String = String::new();
    r.push('"');
    r.append(s);
    r.push('"');
    assert(r@ =~= quoted(s@));
    r
}

/// The arguments for `cmd.exe` that start a session in a console of its own:
/// `start` with an empty title, minimized, and the quoted command.
pub open spec fn console_arguments(
    exe: Seq<char>,
    cwd: Seq<char>,
    model: Option<Seq<char>>,
) -> Seq<Seq<char>> {
    seq!["/c"@, "start"@, "\"\""@, "/min"@, quoted(exe)] + start_arguments(cwd, model).map_values(
        |a: Seq<char>| quoted(a),
    )
}

/// The arguments for `cmd.exe` that start a session; a path or model that it
/// would not hand on unchanged is refused.
pub fn console_args(exe: &str, cwd: &str, model: Option<&str>) -> (r: Result<Vec<String>, OmpError>)
    ensures
        ({
            let m = match model {
                Some(m) => Some(m@),
                None => None,
            };
            if is_quotable(cwd@) && (m matches Some(m) ==> is_quotable(m)) {
                r matches Ok(args) && views(args@) == console_arguments(exe@, cwd@, m)
            } else {
                r matches Err(OmpError::Spawn(message)) && message@
                    == "refusing an argument that cmd.exe cannot pass on"@
            }
        }),
{
    let fit = can_quote(cwd) && match model {
        Some(m) => can_quote(m),
        None => true,
    };
    if !fit {
        return Err(
            OmpError::Spawn("refusing an argument that cmd.exe cannot pass on".to_owned()),
        );
    }
    let ghost m = match model {
        Some(m) => Some(m@),
        None => None,
    };
    let ghost want = console_arguments(exe@, cwd@, m);
    let plain = start_args(cwd, model);
    let ghost tail = start_arguments(cwd@, m).map_values(|a: Seq<char>| quoted(a));
    let mut r: Vec<String> = Vec::new();
    r.push("/c".to_owned());
    r.push("start".to_owned());
    r.push("\"\"".to_owned());
    r.push("/min".to_owned());
    r.push(quote(exe));
    assert(views(r@) =~= want.take(5));
    for i in 0..plain.len()
        invariant
            views(plain@) == start_arguments(cwd@, m),
            want == console_arguments(exe@, cwd@, m),
            views(r@) == want.take(5 + i),
    {
        let ghost before = r@;
        r.push(quote(plain[i].as_str()));
        assert(views(r@) =~= views(before).push(r@.last()@));
        assert(views(plain@)[i as int] == plain@[i as int]@);
        assert(want[5 + i] == quoted(plain@[i as int]@));
        assert(want.take(6 + i) =~= want.take(5 + i).push(want[5 + i]));
    }
    assert(views(plain@).len() == plain@.len());
    assert(want.take(want.len() as int) =~= want);
    Ok(r)
}

/// A quoted argument that is not refused holds two double quotes, so it cannot
/// end early.
pub proof fn quoted_argument_ends_once(s: Seq<char>)
    requires
        is_quotable(s),
    ensures
        occurrences(quoted(s), '"') == 2,
{
    let q = seq!['"'];
    assert(q.drop_last() =~= Seq::<char>::empty());
    assert(occurrences(q.drop_last(), '"') == 0);
    assert(occurrences(q, '"') == 1);
    assert forall|i: int| 0 <= i < s.len() implies s[i] != '"' by {
        assert(!is_special(s[i]));
    }
    occurrences_none(s, '"');
    occurrences_add(q, s, '"');
    occurrences_add(q + s, q, '"');
}

/// A launch succeeded where the process still runs, or ended with success.
pub open spec fn is_launched(seen: Option<RunOutcome>) -> bool {
    match seen {
        None => true,
        Some(outcome) => outcome is Finished && outcome->success,
    }
}

/// What became of a launch; `seen` is the outcome of the process where it ended,
/// or could not be run, while the launch was watched.
pub fn launch_result(seen: Option<RunOutcome>) -> (r: Result<(), OmpError>)
    ensures
        r is Ok <==> is_launched(seen),
        match (seen, r) {
            (None, _) => r is Ok,
            (Some(outcome), Ok(_)) => outcome matches RunOutcome::Finished { success: true, .. },
            (Some(outcome), Err(e)) => is_run_result(outcome, Err(e)),
        },
{
    match seen {
        None => Ok(()),
        Some(outcome) => match run_result(outcome) {
            Ok(_) => Ok(()),
            Err(e) => Err(e),
        },
    }
}

/// The first characters of a text are its beginning: as many as asked for, or all.
pub proof fn the_first_characters_are_the_beginning(s: Seq<char>, n: nat, i: int)
    ensures
        first_chars(s, n).len() == if s.len() <= n {
            s.len()
        } else {
            n
        },
        0 <= i < first_chars(s, n).len() ==> first_chars(s, n)[i] == s[i],
{
}

/// What a failed run left on stderr is reported without the white space around it,
/// up to 500 characters of it.
pub proof fn stderr_is_reported_from_its_beginning(
    stderr: Seq<u8>,
    a: Seq<char>,
    s: Seq<char>,
    b: Seq<char>,
    i: int,
)
    requires
        lossy_text(stderr) == a + s + b,
        is_blank(a),
        is_blank(b),
        s.len() > 0,
        !is_space(s[0]),
        !is_space(s.last()),
    ensures
        reported_stderr(stderr).len() == if s.len() <= 500 {
            s.len()
        } else {
            500
        },
        0 <= i < reported_stderr(stderr).len() ==> reported_stderr(stderr)[i] == s[i],
{
    trimming_takes_the_white_space_around(a, s, b);
}

/// Every error says all of its message, behind an opening that does not depend on
/// it; and an exit tells its code.
pub proof fn every_error_says_its_message(m: String, code: Option<i32>)
    ensures
        m@.is_suffix_of(error_text(OmpError::NotFound(m))),
        error_text(OmpError::NotFound(m)).len() == 15 + m@.len(),
        m@.is_suffix_of(error_text(OmpError::Spawn(m))),
        error_text(OmpError::Spawn(m)).len() == 19 + m@.len(),
        m@.is_suffix_of(error_text(OmpError::Parse(m))),
        error_text(OmpError::Parse(m)).len() == 28 + m@.len(),
        ({
            let told = match code {
                Some(c) => signed_decimal(c as int),
                None => "signal"@,
            };
            let text = error_text(OmpError::Exit { code, stderr: m });
            &&& text.len() == 16 + told.len() + 2 + m@.len()
            &&& text.subrange(16, 16 + told.len() as int) == told
            &&& m@.is_suffix_of(text)
        }),
{
    reveal_strlit("omp not found: ");
    reveal_strlit("failed to run omp: ");
    reveal_strlit("could not parse omp output: ");
    reveal_strlit("omp exited with ");
    reveal_strlit(": ");
    let told = match code {
        Some(c) => signed_decimal(c as int),
        None => "signal"@,
    };
    let n = error_text(OmpError::NotFound(m));
    let s = error_text(OmpError::Spawn(m));
    let p = error_text(OmpError::Parse(m));
    let x = error_text(OmpError::Exit { code, stderr: m });
    assert(n.subrange(n.len() - m@.len(), n.len() as int) =~= m@);
    assert(s.subrange(s.len() - m@.len(), s.len() as int) =~= m@);
    assert(p.subrange(p.len() - m@.len(), p.len() as int) =~= m@);
    assert(x.subrange(x.len() - m@.len(), x.len() as int) =~= m@);
    assert(x.subrange(16, 16 + told.len() as int) =~= told);
}

/// A run succeeds if and only if the process ended with success, whatever it left
/// on stderr, and then with what it left on stdout. Every other outcome is told
/// apart.
pub proof fn a_run_succeeds_with_what_is_on_stdout(
    outcome: RunOutcome,
    r: Result<String, OmpError>,
)
    requires
        is_run_result(outcome, r),
    ensures
        r is Ok <==> outcome is Finished && outcome->success,
        r matches Ok(out) ==> out@ == lossy_text(outcome->stdout@),
        r matches Err(OmpError::Timeout) <==> outcome is TimedOut,
        r matches Err(OmpError::NotFound(m)) <==> outcome is Failed && outcome->not_found,
        r matches Err(OmpError::Spawn(m)) <==> outcome is Failed && !outcome->not_found,
        r matches Err(OmpError::NotFound(m)) ==> m == outcome->message,
        r matches Err(OmpError::Spawn(m)) ==> m == outcome->message,
        r matches Err(OmpError::Exit { code, stderr }) ==> code == outcome->code && stderr@
            == reported_stderr(outcome->stderr@),
{
}

/// A link is asked for by the whole instance id, in one argument, and to view if and
/// only if that is asked for.
pub proof fn a_link_is_asked_for_by_id(id: Seq<char>, access: Access)
    ensures
        link_arguments(id, access).len() == if access is View {
            5nat
        } else {
            4nat
        },
        link_arguments(id, access)[0] == "collab"@,
        link_arguments(id, access)[1] == "link"@,
        link_arguments(id, access)[2] == id,
        link_arguments(id, access)[3] == "--json"@,
        access is View ==> link_arguments(id, access)[4] == "--view"@,
{
}

/// A session is started in the whole directory, and with the whole model where one
/// is given, each in one argument.
pub proof fn a_session_is_started_with_directory_and_model(
    cwd: Seq<char>,
    model: Option<Seq<char>>,
)
    ensures
        start_arguments(cwd, model).len() == if model is Some {
            4nat
        } else {
            2nat
        },
        start_arguments(cwd, model)[0] == "--cwd"@,
        start_arguments(cwd, model)[1] == cwd,
        model matches Some(m) ==> start_arguments(cwd, model)[2] == "--model"@ && start_arguments(
            cwd,
            model,
        )[3] == m,
{
}

/// What `cmd.exe` is handed: `start` with an empty title, minimized, and then the
/// executable and each argument, whole and between double quotes.
pub proof fn the_console_gets_each_argument_quoted(
    exe: Seq<char>,
    cwd: Seq<char>,
    model: Option<Seq<char>>,
    k: int,
)
    ensures
        ({
            let all = console_arguments(exe, cwd, model);
            let plain = start_arguments(cwd, model);
            &&& all.len() == 5 + plain.len()
            &&& all[0] == "/c"@
            &&& all[1] == "start"@
            &&& all[2] == "\"\""@
            &&& all[3] == "/min"@
            &&& all[4] == seq!['"'] + exe + seq!['"']
            &&& 0 <= k < plain.len() ==> all[5 + k] == seq!['"'] + plain[k] + seq!['"']
        }),
{
}

/// What is refused for `cmd.exe`: double quotes, percent signs, exclamation marks and
/// control characters anywhere, and a backslash at the end. Nothing else is.
pub proof fn only_these_texts_are_refused(s: Seq<char>)
    ensures
        is_quotable(s) <==> {
            &&& forall|i: int|
                0 <= i < s.len() ==> {
                    let n = #[trigger] s[i] as int;
                    n != 34 && n != 37 && n != 33 && n >= 32 && !(127 <= n <= 159)
                }
            &&& s.len() > 0 ==> s[s.len() - 1] != '\\'
        },
{
    if is_quotable(s) {
        assert forall|i: int| 0 <= i < s.len() implies {
            let n = #[trigger] s[i] as int;
            n != 34 && n != 37 && n != 33 && n >= 32 && !(127 <= n <= 159)
        } by {
            assert(!is_special(s[i]));
        }
    }
}

/// A path that is given is run, whatever is on `PATH`; and `omp.exe` is preferred
/// over `omp`, which counts only where `omp.exe` is not found.
pub proof fn a_given_path_is_run_first(
    path: PathBuf,
    exe: PathBuf,
    omp: PathBuf,
    a: Option<Result<PathBuf, String>>,
    b: Option<Result<PathBuf, String>>,
    why: String,
)
    ensures
        executable(Some(path), a, b) == Some(path),
        executable(None, Some(Ok(exe)), b) == Some(exe),
        executable(None, Some(Err(why)), Some(Ok(omp))) == Some(omp),
        executable(None, Some(Err(why)), Some(Err(why))) is None,
        executable(None, None, b) is None,
{
}

/// A launch that could not be run, timed out or ended with failure did not succeed,
/// whatever it printed; every other one did.
pub proof fn a_launch_fails_only_where_it_was_seen_to(
    success: bool,
    code: Option<i32>,
    stdout: Vec<u8>,
    stderr: Vec<u8>,
    not_found: bool,
    message: String,
)
    ensures
        is_launched(None),
        is_launched(Some(RunOutcome::Finished { success, code, stdout, stderr })) <==> success,
        !is_launched(Some(RunOutcome::TimedOut)),
        !is_launched(Some(RunOutcome::Failed { not_found, message })),
{
}

/// What was parsed is handed on whole: every session in its place, and every
/// character of a link. Only what could not be parsed is an error.
pub proof fn what_was_parsed_is_handed_on(hosts: Vec<Host>, url: String, message: String)
    ensures
        list_of(Ok(hosts)) matches Ok(sent) && sent@ == hosts@,
        list_of(Err(message)) matches Err(OmpError::Parse(m)) && m@ == message@,
        link_of(Some(url)) == Some(url@),
        link_of(None) is None,
{
}

} // verus!
