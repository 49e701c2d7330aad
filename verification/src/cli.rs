//! Decisions and texts of the command line.

use vstd::prelude::*;
use vstd::string::*;

verus! {

/// What the command line asks for.
#[derive(Debug, PartialEq, Eq)]
pub enum Command {
    /// Serve the dashboard over HTTP.
    Serve,
    /// Print the live sessions on the terminal.
    List,
    /// Check for and install a newer release.
    SelfUpdate,
}

impl Command {
    /// Whether a newer release is looked for in the background. Not for
    /// `self-update` itself: it already does its own explicit check, and the two
    /// would race the same call.
    pub fn checks_for_updates(&self) -> (r: bool)
        ensures
            r == !(*self is SelfUpdate),
    {
        match self {
            Command::SelfUpdate => false,
            _ => true,
        }
    }
}

/// Whether Tailscale is to be asked for this machine's address: only where none
/// is given.
pub fn needs_tailscale(bind: Option<&str>) -> (r: bool)
    ensures
        r == (bind is None),
{
    bind.is_none()
}

/// A message as it stands on stderr.
pub open spec fn line_text(msg: Seq<char>) -> Seq<char> {
    "omp-deck: "@ + msg
}

/// A message on stderr.
pub fn message_line(msg: &str) -> (r: String)
    ensures
        r@ == line_text(msg@),
        r@ == "omp-deck: "@ + msg@,
{
    let mut r: String = "omp-deck: ".to_owned();
    r.append(msg);
    r
}

/// The words for an address that cannot be listened on.
pub open spec fn bind_error(addr: Seq<char>, error: Seq<char>) -> Seq<char> {
    "cannot bind "@ + addr + ": "@ + error
}

/// The error for an address that cannot be listened on.
pub fn cannot_bind(addr: &str, error: &str) -> (r: String)
    ensures
        r@ == bind_error(addr@, error@),
        r@ == "cannot bind "@ + addr@ + ": "@ + error@,
{
    let mut r: String = "cannot bind ".to_owned();
    r.append(addr);
    r.append(": ");
    r.append(error);
    r
}

/// The web address of the dashboard.
pub open spec fn url_text(local: Seq<char>) -> Seq<char> {
    "http://"@ + local + "/"@
}

/// The dashboard's address, as it is printed on stdout.
pub fn dashboard_url(local: &str) -> (r: String)
    ensures
        r@ == url_text(local@),
        r@ == "http://"@ + local@ + "/"@,
{
    let mut r: String = "http://".to_owned();
    r.append(local);
    r.append("/");
    r
}

/// What is printed holds what it is about, whole: a message behind the program's
/// name, an address and what is wrong with it, and the address of the dashboard
/// between `http://` and a slash.
pub proof fn what_is_printed_is_whole(a: Seq<char>, b: Seq<char>, i: int)
    ensures
        line_text(a).len() == 10 + a.len(),
        0 <= i < a.len() ==> line_text(a)[10 + i] == a[i],
        bind_error(a, b).len() == 12 + a.len() + 2 + b.len(),
        0 <= i < a.len() ==> bind_error(a, b)[12 + i] == a[i],
        0 <= i < b.len() ==> bind_error(a, b)[14 + a.len() + i] == b[i],
        url_text(a).len() == 8 + a.len(),
        0 <= i < a.len() ==> url_text(a)[7 + i] == a[i],
        url_text(a).last() == '/',
{
    reveal_strlit("omp-deck: ");
    reveal_strlit("cannot bind ");
    reveal_strlit(": ");
    reveal_strlit("http://");
    reveal_strlit("/");
}

} // verus!
