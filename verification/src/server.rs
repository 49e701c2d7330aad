//! What each request is answered. Nothing is cached and nothing is logged: link
//! URLs are secrets that only ever appear in a `location` header, fetched fresh
//! per request.
//!
//! Asking `omp` and sending the answer are left to the caller: a request that
//! needs `omp` is taken in steps, each of which says what to ask next or what
//! to answer.

use crate::model::Host;
use crate::omp::{error_text, Access, OmpError};
use crate::page::{HEAD, TAIL};
use crate::repos::{repo_texts, Cache, Repo, RepoText};
use crate::text::{a_beginning_has_a_rest, begins_with, same, starts_with, views};
use crate::view::{
    a_card_shows_its_session, an_error_page_shows_its_message, are_parts, body_html, card_html,
    card_with, cards_html, error_html, every_session_has_its_card, html_decoded, page_html,
    percent_decoded, render_error, render_page, CardParts,
};
use vstd::prelude::*;
use vstd::string::*;
use vstd::utf8::*;

verus! {

pub const OK: u16 = 200;

pub const ACCEPTED: u16 = 202;

pub const FOUND: u16 = 302;

pub const BAD_REQUEST: u16 = 400;

pub const NOT_FOUND: u16 = 404;

pub const BAD_GATEWAY: u16 = 502;

pub const NO_ROOTS_HINT: &'static str =
    "No repository roots configured. Add [repos] roots = [\"...\"] to      the omp-deck config file (see the README).";

/// What "new session" may offer: the scanned checkouts and the configured
/// model candidates. Nothing outside these is ever handed to `omp`.
pub struct Launcher {
    pub repos: Cache,
    pub models: Vec<String>,
}

/// A header; its name is in lower case.
#[derive(Debug, PartialEq, Eq)]
pub struct Header {
    pub name: String,
    pub value: String,
}

/// The body of a response.
#[derive(Debug, PartialEq, Eq)]
pub enum Body {
    /// No body.
    Nothing,
    /// Plain text.
    Text(String),
    /// An HTML page.
    Html(String),
    /// As JSON: `{"version": 1, "hosts": [..]}`.
    Hosts(Vec<Host>),
    /// As JSON: `{"repos": [..], "hint": ..}`.
    Repos { repos: Vec<Repo>, hint: Option<&'static str> },
    /// As JSON: `{"models": [..]}`.
    Models(Vec<String>),
    /// As JSON: `{"started": true}`.
    Started,
    /// As JSON: `{"stopped": true}`.
    Stopped,
    /// As JSON: `{"error": ".."}`.
    Error(String),
}

/// What is sent back.
#[derive(Debug, PartialEq, Eq)]
pub struct Response {
    pub status: u16,
    pub headers: Vec<Header>,
    pub body: Body,
}

/// A header as text.
pub struct HeaderText {
    pub name: Seq<char>,
    pub value: Seq<char>,
}

impl View for Header {
    type V = HeaderText;

    open spec fn view(&self) -> HeaderText {
        HeaderText { name: self.name@, value: self.value@ }
    }
}

/// A body as text.
pub enum BodyText {
    Nothing,
    Text(Seq<char>),
    Html(Seq<char>),
    Hosts(Seq<Host>),
    Repos { repos: Seq<RepoText>, hint: Option<Seq<char>> },
    Models(Seq<Seq<char>>),
    Started,
    Stopped,
    Error(Seq<char>),
}

impl View for Body {
    type V = BodyText;

    open spec fn view(&self) -> BodyText {
        match *self {
            Body::Nothing => BodyText::Nothing,
            Body::Text(s) => BodyText::Text(s@),
            Body::Html(s) => BodyText::Html(s@),
            Body::Hosts(hosts) => BodyText::Hosts(hosts@),
            Body::Repos { repos, hint } => BodyText::Repos {
                repos: repo_texts(repos@),
                hint: match hint {
                    Some(s) => Some(s@),
                    None => None,
                },
            },
            Body::Models(models) => BodyText::Models(views(models@)),
            Body::Started => BodyText::Started,
            Body::Stopped => BodyText::Stopped,
            Body::Error(s) => BodyText::Error(s@),
        }
    }
}

/// A response as text.
pub struct Answer {
    pub status: u16,
    pub headers: Seq<HeaderText>,
    pub body: BodyText,
}

/// The headers as text.
pub open spec fn header_texts(headers: Seq<Header>) -> Seq<HeaderText> {
    Seq::new(headers.len(), |i: int| headers[i]@)
}

impl View for Response {
    type V = Answer;

    open spec fn view(&self) -> Answer {
        Answer {
            status: self.status,
            headers: header_texts(self.headers@),
            body: self.body@,
        }
    }
}

/// A response without headers of its own.
pub open spec fn bare(status: u16, body: BodyText) -> Answer {
    Answer { status, headers: Seq::empty(), body }
}

fn respond(status: u16, body: Body) -> (r: Response)
    ensures
        r@ == bare(status, body@),
{
    let headers: Vec<Header> = Vec::new();
    assert(header_texts(headers@) =~= Seq::<HeaderText>::empty());
    Response { status, headers, body }
}

/// A plain text response.
pub fn plain(status: u16, msg: &str) -> (r: Response)
    ensures
        r@ == bare(status, BodyText::Text(msg@)),
{
    respond(status, Body::Text(msg.to_owned()))
}

/// The headers without those of this name.
pub open spec fn without(headers: Seq<HeaderText>, name: Seq<char>) -> Seq<HeaderText>
    decreases headers.len(),
{
    if headers.len() == 0 {
        Seq::empty()
    } else {
        let before = without(headers.drop_last(), name);
        if headers.last().name == name {
            before
        } else {
            before.push(headers.last())
        }
    }
}

/// The headers with this one in place of those of the same name.
pub open spec fn with_header(headers: Seq<HeaderText>, name: Seq<char>, value: Seq<char>) -> Seq<
    HeaderText,
> {
    without(headers, name).push(HeaderText { name, value })
}

/// The headers of a response that is neither cached nor gives a referrer away.
pub open spec fn hardened(headers: Seq<HeaderText>) -> Seq<HeaderText> {
    with_header(
        with_header(headers, "cache-control"@, "no-store"@),
        "referrer-policy"@,
        "no-referrer"@,
    )
}

fn set_header(headers: Vec<Header>, name: &str, value: &str) -> (r: Vec<Header>)
    ensures
        header_texts(r@) == with_header(header_texts(headers@), name@, value@),
{
    let mut r: Vec<Header> = Vec::new();
    let ghost all = header_texts(headers@);
    assert(header_texts(r@) =~= without(all.take(0), name@));
    for i in 0..headers.len()
        invariant
            all == header_texts(headers@),
            header_texts(r@) == without(all.take(i as int), name@),
    {
        assert(all.take(i + 1).drop_last() =~= all.take(i as int));
        let h = &headers[i];
        if !same(h.name.as_str(), name) {
            let ghost before = r@;
            r.push(Header { name: h.name.clone(), value: h.value.clone() });
            assert(header_texts(r@) =~= header_texts(before).push(headers@[i as int]@));
        }
    }
    assert(all.take(all.len() as int) =~= all);
    let ghost before = r@;
    let new = Header { name: name.to_owned(), value: value.to_owned() };
    r.push(new);
    assert(header_texts(r@) =~= header_texts(before).push(new@));
    r
}

/// Forbids caching the response, and sending a referrer from it.
pub fn harden(res: Response) -> (r: Response)
    ensures
        r@ == (Answer { headers: hardened(res@.headers), ..res@ }),
{
    let Response { status, headers, body } = res;
    let headers = set_header(headers, "cache-control", "no-store");
    let headers = set_header(headers, "referrer-policy", "no-referrer");
    Response { status, headers, body }
}

/// The answer to `GET /`: the dashboard, or the page that shows the error.
pub open spec fn index_answer(listed: Result<Vec<Host>, OmpError>, now: i64) -> Answer {
    match listed {
        Ok(hosts) => bare(OK, BodyText::Html(page_html(body_html(hosts@, now)))),
        Err(e) => bare(BAD_GATEWAY, BodyText::Html(page_html(error_html(error_text(e))))),
    }
}

/// Answers `GET /` with what `omp` listed.
pub fn index(listed: Result<Vec<Host>, OmpError>, now_ms: i64) -> (r: Response)
    ensures
        r@ == index_answer(listed, now_ms),
{
    match listed {
        Ok(hosts) => respond(OK, Body::Html(render_page(&hosts, now_ms))),
        Err(e) => respond(BAD_GATEWAY, Body::Html(render_error(e.message().as_str()))),
    }
}

/// The answer to `GET /api/hosts`.
pub open spec fn hosts_answer(listed: Result<Vec<Host>, OmpError>) -> Answer {
    match listed {
        Ok(hosts) => bare(OK, BodyText::Hosts(hosts@)),
        Err(e) => bare(BAD_GATEWAY, BodyText::Error(error_text(e))),
    }
}

/// Answers `GET /api/hosts` with what `omp` listed.
pub fn api_hosts(listed: Result<Vec<Host>, OmpError>) -> (r: Response)
    ensures
        r@ == hosts_answer(listed),
{
    match listed {
        Ok(hosts) => respond(OK, Body::Hosts(hosts)),
        Err(e) => respond(BAD_GATEWAY, Body::Error(e.message())),
    }
}

/// The answer to `GET /api/repos`.
pub open spec fn repos_answer(roots: nat, repos: Seq<RepoText>) -> Answer {
    bare(
        OK,
        BodyText::Repos {
            repos,
            hint: if roots == 0 {
                Some(NO_ROOTS_HINT@)
            } else {
                None
            },
        },
    )
}

/// Answers `GET /api/repos` with the checkouts at hand; where no root is
/// configured, with a hint.
pub fn api_repos(launcher: &Launcher, repos: &Vec<Repo>) -> (r: Response)
    ensures
        r@ == repos_answer(launcher.repos.roots@.len(), repo_texts(repos@)),
        r@ == bare(
            OK,
            BodyText::Repos {
                repos: repo_texts(repos@),
                hint: if launcher.repos.roots@.len() == 0 {
                    Some(NO_ROOTS_HINT@)
                } else {
                    None
                },
            },
        ),
{
    let hint: Option<&'static str> = if launcher.repos.has_roots() {
        None
    } else {
        Some(NO_ROOTS_HINT)
    };
    let mut copy: Vec<Repo> = Vec::new();
    for i in 0..repos.len()
        invariant
            repo_texts(copy@) == repo_texts(repos@).take(i as int),
    {
        let ghost before = copy@;
        let repo = repos[i].clone();
        copy.push(repo);
        assert(repo_texts(copy@) =~= repo_texts(before).push(repos@[i as int]@));
    }
    assert(repo_texts(copy@) =~= repo_texts(repos@));
    respond(OK, Body::Repos { repos: copy, hint })
}

/// Answers `GET /api/models` with the configured candidates.
pub fn api_models(launcher: &Launcher) -> (r: Response)
    ensures
        r@ == bare(OK, BodyText::Models(views(launcher.models@))),
{
    let mut copy: Vec<String> = Vec::new();
    for i in 0..launcher.models.len()
        invariant
            views(copy@) == views(launcher.models@).take(i as int),
    {
        let ghost before = copy@;
        copy.push(launcher.models[i].clone());
        assert(views(copy@) =~= views(before).push(launcher.models@[i as int]@));
    }
    assert(views(copy@) =~= views(launcher.models@));
    respond(OK, Body::Models(copy))
}

/// The first session with this instance id.
pub open spec fn session(hosts: Seq<Host>, id: Seq<char>) -> Option<Host>
    decreases hosts.len(),
{
    if hosts.len() == 0 {
        None
    } else if hosts.first().instance_id@ == id {
        Some(hosts.first())
    } else {
        session(hosts.drop_first(), id)
    }
}

fn find_session<'a>(hosts: &'a Vec<Host>, id: &str) -> (r: Option<&'a Host>)
    ensures
        match session(hosts@, id@) {
            Some(host) => r == Some(&host),
            None => r is None,
        },
{
    assert(hosts@.skip(0) =~= hosts@);
    for i in 0..hosts.len()
        invariant
            session(hosts@, id@) == session(hosts@.skip(i as int), id@),
    {
        assert(hosts@.skip(i as int).drop_first() =~= hosts@.skip(i + 1));
        if same(hosts[i].instance_id.as_str(), id) {
            return Some(&hosts[i]);
        }
    }
    None
}

/// Whether `b` may stand in a header value.
pub open spec fn is_header_byte(b: u8) -> bool {
    32 <= b && b != 127 || b == 9
}

/// Whether these bytes make a header value.
pub open spec fn is_header_text(bytes: Seq<u8>) -> bool {
    forall|i: int| 0 <= i < bytes.len() ==> is_header_byte(#[trigger] bytes[i])
}

/// Calls `axum::http::HeaderValue::from_str`, which takes a text if and only if
/// no byte of it is DEL or, except for the tab, a control character.
#[verifier::external_body]
fn is_header_value(s: &str) -> (r: bool)
    ensures
        r == is_header_text(encode_utf8(s@)),
{
    axum::http::HeaderValue::from_str(s).is_ok()
}

/// The next step of `GET /go/<instanceId>/<kind>`.
#[derive(Debug, PartialEq, Eq)]
pub enum Go {
    /// Ask `omp` for its sessions.
    List(Access),
    /// Ask `omp` for this link.
    Link { instance_id: String, access: Access },
    /// Send this.
    Answer(Response),
}

/// The kind of link that a path asks for.
pub open spec fn kind_of(kind: Seq<char>) -> Option<Access> {
    if kind == "view"@ {
        Some(Access::View)
    } else if kind == "control"@ {
        Some(Access::Control)
    } else {
        None
    }
}

/// A step towards the answer to `GET /go/<instanceId>/<kind>`, as text.
pub ghost enum GoText {
    List(Access),
    Link { id: Seq<char>, access: Access },
    Answer(Answer),
}

impl View for Go {
    type V = GoText;

    open spec fn view(&self) -> GoText {
        match *self {
            Go::List(access) => GoText::List(access),
            Go::Link { instance_id, access } => GoText::Link { id: instance_id@, access },
            Go::Answer(a) => GoText::Answer(a@),
        }
    }
}

/// The step that a kind of link leads to.
pub open spec fn go_next(kind: Seq<char>) -> GoText {
    match kind_of(kind) {
        Some(access) => GoText::List(access),
        None => GoText::Answer(bare(NOT_FOUND, BodyText::Text("unknown link kind"@))),
    }
}

/// The step that a list of sessions leads to.
pub open spec fn listed_next(
    id: Seq<char>,
    access: Access,
    listed: Result<Vec<Host>, OmpError>,
) -> GoText {
    match listed {
        Err(e) => GoText::Answer(bare(BAD_GATEWAY, BodyText::Text(error_text(e)))),
        Ok(hosts) => match session(hosts@, id) {
            None => GoText::Answer(
                bare(NOT_FOUND, BodyText::Text("no such live omp session"@)),
            ),
            Some(host) => GoText::Link { id: host.instance_id@, access },
        },
    }
}

/// Starts to answer `GET /go/<instanceId>/<kind>`.
pub fn go(kind: &str) -> (r: Go)
    ensures
        r@ == go_next(kind@),
        match kind_of(kind@) {
            Some(access) => r == Go::List(access),
            None => r matches Go::Answer(a) && a@ == bare(
                NOT_FOUND,
                BodyText::Text("unknown link kind"@),
            ),
        },
{
    if same(kind, "view") {
        Go::List(Access::View)
    } else if same(kind, "control") {
        Go::List(Access::Control)
    } else {
        Go::Answer(plain(NOT_FOUND, "unknown link kind"))
    }
}

/// Goes on with what `omp` listed. Only ever hand `omp` a value that `omp`
/// itself just reported.
pub fn go_listed(instance_id: &str, access: Access, listed: Result<Vec<Host>, OmpError>) -> (r: Go)
    ensures
        r@ == listed_next(instance_id@, access, listed),
        match listed {
            Err(e) => r matches Go::Answer(a) && a@ == bare(
                BAD_GATEWAY,
                BodyText::Text(error_text(e)),
            ),
            Ok(hosts) => match session(hosts@, instance_id@) {
                None => r matches Go::Answer(a) && a@ == bare(
                    NOT_FOUND,
                    BodyText::Text("no such live omp session"@),
                ),
                Some(host) => r == (Go::Link { instance_id: host.instance_id, access }),
            },
        },
{
    match listed {
        Err(e) => Go::Answer(plain(BAD_GATEWAY, e.message().as_str())),
        Ok(hosts) => match find_session(&hosts, instance_id) {
            None => Go::Answer(plain(NOT_FOUND, "no such live omp session")),
            Some(host) => Go::Link { instance_id: host.instance_id.clone(), access },
        },
    }
}

/// The answer with what `omp` returned for the link: a redirect to it, where it
/// is a web address that fits in a header.
pub open spec fn link_answer(linked: Result<String, OmpError>) -> Answer {
    match linked {
        Err(e) => bare(
            BAD_GATEWAY,
            BodyText::Text(
                if e is Exit || e is Parse {
                    "could not get link: "@ + error_text(e)
                } else {
                    error_text(e)
                },
            ),
        ),
        Ok(url) => if !begins_with(url@, "https://"@) && !begins_with(url@, "http://"@) {
            bare(BAD_GATEWAY, BodyText::Text("omp returned an unexpected link"@))
        } else if !is_header_text(encode_utf8(url@)) {
            bare(BAD_GATEWAY, BodyText::Text("omp returned an unusable link"@))
        } else {
            Answer {
                status: FOUND,
                headers: seq![HeaderText { name: "location"@, value: url@ }],
                body: BodyText::Nothing,
            }
        },
    }
}

/// Ends with what `omp` returned for the link.
pub fn go_linked(linked: Result<String, OmpError>) -> (r: Response)
    ensures
        r@ == link_answer(linked),
{
    match linked {
        Err(e) => {
            let msg = e.message();
            match e {
                // The session may have restarted between list and link.
                OmpError::Exit { .. } | OmpError::Parse(_) => {
                    let mut text: String = "could not get link: ".to_owned();
                    text.append(msg.as_str());
                    plain(BAD_GATEWAY, text.as_str())
                },
                _ => plain(BAD_GATEWAY, msg.as_str()),
            }
        },
        Ok(url) => {
            if !(starts_with(url.as_str(), "https://") || starts_with(url.as_str(), "http://")) {
                return plain(BAD_GATEWAY, "omp returned an unexpected link");
            }
            if !is_header_value(url.as_str()) {
                return plain(BAD_GATEWAY, "omp returned an unusable link");
            }
            let mut headers: Vec<Header> = Vec::new();
            headers.push(Header { name: "location".to_owned(), value: url });
            assert(header_texts(headers@) =~= seq![
                HeaderText { name: "location"@, value: url@ },
            ]);
            Response { status: FOUND, headers, body: Body::Nothing }
        },
    }
}

/// The next step of `POST /api/sessions`.
#[derive(Debug, PartialEq, Eq)]
pub enum Start {
    /// Start `omp` in this checkout, with this model or its default.
    Run { cwd: String, model: Option<String> },
    /// Send this.
    Answer(Response),
}

/// Whether a checkout with this path is listed.
pub open spec fn is_checkout(repos: Seq<Repo>, path: Seq<char>) -> bool {
    exists|i: int| 0 <= i < repos.len() && (#[trigger] repos[i]).path@ == path
}

/// Whether this model is a candidate.
pub open spec fn is_candidate(models: Seq<String>, model: Seq<char>) -> bool {
    exists|i: int| 0 <= i < models.len() && (#[trigger] models[i])@ == model
}

/// The model that a request names, if any.
pub open spec fn asked_model(model: Option<&str>) -> Option<Seq<char>> {
    match model {
        Some(m) => if m@.len() == 0 {
            None
        } else {
            Some(m@)
        },
        None => None,
    }
}

/// A step towards the answer to `POST /api/sessions`, as text.
pub ghost enum StartText {
    Run { cwd: Seq<char>, model: Option<Seq<char>> },
    Answer(Answer),
}

impl View for Start {
    type V = StartText;

    open spec fn view(&self) -> StartText {
        match *self {
            Start::Run { cwd, model } => StartText::Run {
                cwd: cwd@,
                model: match model {
                    Some(m) => Some(m@),
                    None => None,
                },
            },
            Start::Answer(a) => StartText::Answer(a@),
        }
    }
}

/// The step that a request for a session leads to.
pub open spec fn start_next(
    repos: Seq<Repo>,
    models: Seq<String>,
    path: Seq<char>,
    model: Option<&str>,
) -> StartText {
    if !is_checkout(repos, path) {
        StartText::Answer(bare(NOT_FOUND, BodyText::Text("not a known checkout"@)))
    } else {
        match asked_model(model) {
            Some(m) => if is_candidate(models, m) {
                StartText::Run { cwd: path, model: Some(m) }
            } else {
                StartText::Answer(bare(BAD_REQUEST, BodyText::Text("not a configured model"@)))
            },
            None => StartText::Run { cwd: path, model: None },
        }
    }
}

/// Starts to answer `POST /api/sessions`. Only ever start `omp` in a checkout
/// the scan itself just listed, with a model the config names; the values
/// passed on are ours, not the request's.
pub fn api_start(launcher: &Launcher, repos: &Vec<Repo>, path: &str, model: Option<&str>) -> (r:
    Start)
    ensures
        r@ == start_next(repos@, launcher.models@, path@, model),
        if !is_checkout(repos@, path@) {
            r matches Start::Answer(a) && a@ == bare(
                NOT_FOUND,
                BodyText::Text("not a known checkout"@),
            )
        } else {
            match asked_model(model) {
                None => r matches Start::Run { cwd, model: None } && cwd@ == path@,
                Some(m) => if is_candidate(launcher.models@, m) {
                    r matches Start::Run { cwd, model: Some(chosen) } && cwd@ == path@ && chosen@
                        == m
                } else {
                    r matches Start::Answer(a) && a@ == bare(
                        BAD_REQUEST,
                        BodyText::Text("not a configured model"@),
                    )
                },
            }
        },
{
    let mut at: usize = 0;
    while at < repos.len() && !same(repos[at].path.as_str(), path)
        invariant
            at <= repos@.len(),
            forall|k: int| 0 <= k < at ==> (#[trigger] repos@[k]).path@ != path@,
        decreases repos@.len() - at,
    {
        at = at + 1;
    }
    if at == repos.len() {
        return Start::Answer(plain(NOT_FOUND, "not a known checkout"));
    }
    let cwd = repos[at].path.clone();
    let asked = match model {
        None => return Start::Run { cwd, model: None },
        Some(m) => m,
    };
    if asked.unicode_len() == 0 {
        return Start::Run { cwd, model: None };
    }
    for i in 0..launcher.models.len()
        invariant
            forall|k: int| 0 <= k < i ==> (#[trigger] launcher.models@[k])@ != asked@,
            model == Some(asked),
            asked@.len() > 0,
            is_checkout(repos@, path@),
            cwd@ == path@,
    {
        if same(launcher.models[i].as_str(), asked) {
            return Start::Run { cwd, model: Some(launcher.models[i].clone()) };
        }
    }
    Start::Answer(plain(BAD_REQUEST, "not a configured model"))
}

/// The answer to a launch.
pub open spec fn started_answer(started: Result<(), OmpError>) -> Answer {
    match started {
        Ok(_) => bare(ACCEPTED, BodyText::Started),
        Err(e) => bare(BAD_GATEWAY, BodyText::Error(error_text(e))),
    }
}

/// Ends with what came of the launch.
pub fn api_started(started: Result<(), OmpError>) -> (r: Response)
    ensures
        r@ == started_answer(started),
{
    match started {
        Ok(_) => respond(ACCEPTED, Body::Started),
        Err(e) => respond(BAD_GATEWAY, Body::Error(e.message())),
    }
}

/// The next step of `DELETE /api/sessions/<instanceId>`.
#[derive(Debug, PartialEq, Eq)]
pub enum Stop {
    /// End this process.
    Kill(u32),
    /// Send this.
    Answer(Response),
}

/// A step towards the answer to `DELETE /api/sessions/<instanceId>`, as text.
pub ghost enum StopText {
    Kill(u32),
    Answer(Answer),
}

impl View for Stop {
    type V = StopText;

    open spec fn view(&self) -> StopText {
        match *self {
            Stop::Kill(pid) => StopText::Kill(pid),
            Stop::Answer(a) => StopText::Answer(a@),
        }
    }
}

/// The step that a list of sessions leads to.
pub open spec fn stop_next(id: Seq<char>, listed: Result<Vec<Host>, OmpError>) -> StopText {
    match listed {
        Err(e) => StopText::Answer(bare(BAD_GATEWAY, BodyText::Text(error_text(e)))),
        Ok(hosts) => match session(hosts@, id) {
            None => StopText::Answer(
                bare(NOT_FOUND, BodyText::Text("no such live omp session"@)),
            ),
            Some(host) => match host.pid {
                None => StopText::Answer(
                    bare(
                        BAD_GATEWAY,
                        BodyText::Text("omp did not report a pid for this session"@),
                    ),
                ),
                Some(pid) => StopText::Kill(pid),
            },
        },
    }
}

/// Goes on to answer `DELETE /api/sessions/<instanceId>` with what `omp` listed.
/// Only ever kill a pid `omp` itself just reported for this instance id, never
/// one taken from the request.
pub fn api_stop(instance_id: &str, listed: Result<Vec<Host>, OmpError>) -> (r: Stop)
    ensures
        r@ == stop_next(instance_id@, listed),
        match listed {
            Err(e) => r matches Stop::Answer(a) && a@ == bare(
                BAD_GATEWAY,
                BodyText::Text(error_text(e)),
            ),
            Ok(hosts) => match session(hosts@, instance_id@) {
                None => r matches Stop::Answer(a) && a@ == bare(
                    NOT_FOUND,
                    BodyText::Text("no such live omp session"@),
                ),
                Some(host) => match host.pid {
                    None => r matches Stop::Answer(a) && a@ == bare(
                        BAD_GATEWAY,
                        BodyText::Text("omp did not report a pid for this session"@),
                    ),
                    Some(pid) => r == Stop::Kill(pid),
                },
            },
        },
{
    match listed {
        Err(e) => Stop::Answer(plain(BAD_GATEWAY, e.message().as_str())),
        Ok(hosts) => match find_session(&hosts, instance_id) {
            None => Stop::Answer(plain(NOT_FOUND, "no such live omp session")),
            Some(host) => match host.pid {
                None => Stop::Answer(
                    plain(BAD_GATEWAY, "omp did not report a pid for this session"),
                ),
                Some(pid) => Stop::Kill(pid),
            },
        },
    }
}

/// The answer to a stop.
pub open spec fn stopped_answer(stopped: Result<(), OmpError>) -> Answer {
    match stopped {
        Ok(_) => bare(ACCEPTED, BodyText::Stopped),
        Err(e) => bare(BAD_GATEWAY, BodyText::Error(error_text(e))),
    }
}

/// Ends with what came of the stop.
pub fn api_stopped(stopped: Result<(), OmpError>) -> (r: Response)
    ensures
        r@ == stopped_answer(stopped),
{
    match stopped {
        Ok(_) => respond(ACCEPTED, Body::Stopped),
        Err(e) => respond(BAD_GATEWAY, Body::Error(e.message())),
    }
}

/// The values of the headers of this name.
pub open spec fn values(headers: Seq<HeaderText>, name: Seq<char>) -> Seq<Seq<char>>
    decreases headers.len(),
{
    if headers.len() == 0 {
        Seq::empty()
    } else {
        let before = values(headers.drop_last(), name);
        if headers.last().name == name {
            before.push(headers.last().value)
        } else {
            before
        }
    }
}

proof fn without_keeps_the_others(headers: Seq<HeaderText>, name: Seq<char>, other: Seq<char>)
    ensures
        values(without(headers, name), other) == if other == name {
            Seq::<Seq<char>>::empty()
        } else {
            values(headers, other)
        },
    decreases headers.len(),
{
    if headers.len() > 0 {
        let before = headers.drop_last();
        without_keeps_the_others(before, name, other);
        if headers.last().name != name {
            assert(without(before, name).push(headers.last()).drop_last() =~= without(
                before,
                name,
            ));
        }
    }
}

proof fn with_header_sets_one(
    headers: Seq<HeaderText>,
    name: Seq<char>,
    value: Seq<char>,
    other: Seq<char>,
)
    ensures
        values(with_header(headers, name, value), other) == if other == name {
            seq![value]
        } else {
            values(headers, other)
        },
{
    without_keeps_the_others(headers, name, other);
    let new = HeaderText { name, value };
    assert(without(headers, name).push(new).drop_last() =~= without(headers, name));
}

/// A hardened response forbids caching and referrers, whatever its headers said
/// before, and keeps every other header.
pub proof fn hardened_responses_are_private(headers: Seq<HeaderText>, name: Seq<char>)
    ensures
        values(hardened(headers), name) == if name == "cache-control"@ {
            seq!["no-store"@]
        } else if name == "referrer-policy"@ {
            seq!["no-referrer"@]
        } else {
            values(headers, name)
        },
{
    reveal_strlit("cache-control");
    reveal_strlit("referrer-policy");
    assert("cache-control"@.len() != "referrer-policy"@.len());
    let once = with_header(headers, "cache-control"@, "no-store"@);
    with_header_sets_one(headers, "cache-control"@, "no-store"@, name);
    with_header_sets_one(once, "referrer-policy"@, "no-referrer"@, name);
}

/// The link that `omp` returned shows nowhere but in the `location` header.
pub proof fn a_link_shows_only_in_location(url: String)
    ensures
        ({
            let a = link_answer(Ok(url));
            ||| a.body == BodyText::Nothing && a.headers == seq![
                HeaderText { name: "location"@, value: url@ },
            ]
            ||| a.headers.len() == 0 && a.body == BodyText::Text(
                "omp returned an unexpected link"@,
            )
            ||| a.headers.len() == 0 && a.body == BodyText::Text("omp returned an unusable link"@)
        }),
{
}

/// A session is found if and only if `omp` listed one with this instance id, and
/// it is one of those listed: what `omp` is asked for, and which process is
/// ended, never comes from the request.
pub proof fn only_listed_sessions_are_found(hosts: Seq<Host>, id: Seq<char>)
    ensures
        match session(hosts, id) {
            Some(host) => hosts.contains(host) && host.instance_id@ == id,
            None => forall|i: int|
                0 <= i < hosts.len() ==> (#[trigger] hosts[i]).instance_id@ != id,
        },
    decreases hosts.len(),
{
    if hosts.len() > 0 {
        let rest = hosts.drop_first();
        only_listed_sessions_are_found(rest, id);
        assert(hosts[0] == hosts.first());
        match session(rest, id) {
            Some(host) => {
                let i = choose|i: int| 0 <= i < rest.len() && rest[i] == host;
                assert(hosts[i + 1] == host);
            },
            None => {
                assert forall|i: int| 0 <= i < hosts.len() && hosts.first().instance_id@
                    != id implies (#[trigger] hosts[i]).instance_id@ != id by {
                    if i > 0 {
                        assert(rest[i - 1] == hosts[i]);
                    }
                }
            },
        }
    }
}

/// A failure of `omp` is answered with 502, and a list, be it empty, with 200:
/// neither looks like the other.
pub proof fn a_failure_is_no_empty_list(e: OmpError, hosts: Vec<Host>, now: i64)
    ensures
        index_answer(Err(e), now).status == BAD_GATEWAY,
        hosts_answer(Err(e)).status == BAD_GATEWAY,
        index_answer(Ok(hosts), now).status == OK,
        hosts_answer(Ok(hosts)).status == OK,
        hosts_answer(Err(e)).body == BodyText::Error(error_text(e)),
{
}

/// The first of the sessions with an instance id is the one that is found.
pub proof fn the_first_with_an_id_is_found(hosts: Seq<Host>, i: int)
    requires
        0 <= i < hosts.len(),
        forall|j: int|
            0 <= j < i ==> (#[trigger] hosts[j]).instance_id@ != hosts[i].instance_id@,
    ensures
        session(hosts, hosts[i].instance_id@) == Some(hosts[i]),
    decreases hosts.len(),
{
    if i > 0 {
        let rest = hosts.drop_first();
        assert(hosts[0] == hosts.first());
        assert(rest[i - 1] == hosts[i]);
        assert forall|j: int| 0 <= j < i - 1 implies (#[trigger] rest[j]).instance_id@ != rest[i
            - 1].instance_id@ by {
            assert(rest[j] == hosts[j + 1]);
        }
        the_first_with_an_id_is_found(rest, i - 1);
    }
}

/// The links and the close button of a card lead back to its session: the id in
/// them, decoded as a path segment is, finds a session with the same instance id,
/// and the very session where no other one listed before has that id.
pub proof fn a_card_leads_back_to_its_session(hosts: Seq<Host>, i: int, now: i64)
    requires
        0 <= i < hosts.len(),
    ensures
        exists|p: CardParts|
            {
                let id = decode_utf8(percent_decoded(p.id));
                &&& #[trigger] are_parts(p, hosts[i])
                &&& card_html(hosts[i], now) == card_with(p, hosts[i], now)
                &&& session(hosts, id) matches Some(host) && host.instance_id@
                    == hosts[i].instance_id@
                &&& (forall|j: int|
                    0 <= j < i ==> (#[trigger] hosts[j]).instance_id@ != hosts[i].instance_id@)
                    ==> session(hosts, id) == Some(hosts[i])
            },
{
    a_card_shows_its_session(hosts[i], now);
    let p = choose|p: CardParts| #[trigger]
        are_parts(p, hosts[i]) && card_html(hosts[i], now) == card_with(p, hosts[i], now);
    encode_utf8_decode_utf8(hosts[i].instance_id@);
    only_listed_sessions_are_found(hosts, hosts[i].instance_id@);
    if forall|j: int|
        0 <= j < i ==> (#[trigger] hosts[j]).instance_id@ != hosts[i].instance_id@ {
        the_first_with_an_id_is_found(hosts, i);
    }
}

/// The dashboard of a list that `omp` gave is sent with 200 and holds the card of
/// every session.
pub proof fn the_dashboard_holds_every_card(hosts: Vec<Host>, now: i64, i: int)
    requires
        0 <= i < hosts@.len(),
    ensures
        index_answer(Ok(hosts), now).status == 200,
        index_answer(Ok(hosts), now).headers.len() == 0,
        index_answer(Ok(hosts), now).body matches BodyText::Html(page) && exists|
            a: Seq<char>,
            b: Seq<char>,
        |
            page == #[trigger] (a + card_html(hosts@[i], now) + b),
{
    every_session_has_its_card(hosts@, now, i);
    let open = "<main class=\"grid\">\n"@;
    let before = cards_html(hosts@.take(i), now);
    let card = card_html(hosts@[i], now);
    let behind = cards_html(hosts@.skip(i + 1), now);
    in_the_middle(HEAD@, open, before, card, behind, "</main>\n"@, TAIL@);
}

proof fn in_the_middle(
    h: Seq<char>,
    o: Seq<char>,
    x: Seq<char>,
    c: Seq<char>,
    y: Seq<char>,
    m: Seq<char>,
    t: Seq<char>,
)
    ensures
        h + (o + (x + c + y) + m) + t == (h + o + x) + c + (y + m + t),
{
    assert(h + (o + (x + c + y) + m) + t =~= (h + o + x) + c + (y + m + t));
}

/// Where `omp` failed, the page is sent with 502 and shows what the error says, as
/// it reads; and the list is answered with 502 and the same words.
pub proof fn a_failure_is_shown(e: OmpError, now: i64)
    ensures
        index_answer(Err(e), now).status == 502,
        index_answer(Err(e), now).headers.len() == 0,
        index_answer(Err(e), now).body matches BodyText::Html(page) && exists|
            a: Seq<char>,
            shown: Seq<char>,
            b: Seq<char>,
        |
            page == #[trigger] (a + shown + b) && html_decoded(shown) == error_text(e),
        hosts_answer(Err(e)).status == 502,
        hosts_answer(Err(e)).headers.len() == 0,
        hosts_answer(Err(e)).body == BodyText::Error(error_text(e)),
{
    let message = error_text(e);
    an_error_page_shows_its_message(message);
    let open = "<div class=\"error\"><strong>could not list omp sessions</strong>\n<pre>"@;
    let close = "</pre></div>\n"@;
    let shown = choose|shown: Seq<char>| #[trigger]
        html_decoded(shown) == message && page_html(error_html(message)) == HEAD@ + open + shown
            + close + TAIL@;
    let a = HEAD@ + open;
    let b = close + TAIL@;
    assert(page_html(error_html(message)) =~= a + shown + b);
}

/// The list of sessions is sent whole and in order.
pub proof fn the_list_is_sent_whole(hosts: Vec<Host>)
    ensures
        hosts_answer(Ok(hosts)).status == 200,
        hosts_answer(Ok(hosts)).headers.len() == 0,
        hosts_answer(Ok(hosts)).body matches BodyText::Hosts(sent) && sent.len() == hosts@.len()
            && forall|i: int| 0 <= i < sent.len() ==> sent[i] == hosts@[i],
{
}

/// A launch and a stop are answered with 202 if and only if they succeeded, and
/// else with 502 and what the error says.
pub proof fn only_a_success_is_accepted(r: Result<(), OmpError>)
    ensures
        r is Ok ==> started_answer(r) == bare(202, BodyText::Started) && stopped_answer(r) == bare(
            202,
            BodyText::Stopped,
        ),
        r matches Err(e) ==> started_answer(r) == bare(502, BodyText::Error(error_text(e)))
            && stopped_answer(r) == bare(502, BodyText::Error(error_text(e))),
        forall|status: u16, body: BodyText|
            {
                let a = #[trigger] bare(status, body);
                a.status == status && a.body == body && a.headers.len() == 0
            },
{
}

/// Two kinds of link can be asked for, by their names as they are.
pub proof fn there_are_two_kinds_of_link(kind: Seq<char>)
    ensures
        kind_of(kind) == Some(Access::View) <==> kind == "view"@,
        kind_of(kind) == Some(Access::Control) <==> kind == "control"@,
{
    reveal_strlit("view");
    reveal_strlit("control");
    assert("view"@.len() != "control"@.len());
}

/// A model that is not named, or named with nothing, is none; every other one is
/// asked for by its whole name. What is a checkout or a candidate is in the list,
/// letter for letter.
pub proof fn what_is_asked_for_is_taken_letter_for_letter(
    model: &str,
    repos: Seq<Repo>,
    models: Seq<String>,
    s: Seq<char>,
)
    ensures
        asked_model(None) is None,
        asked_model(Some(model)) is None <==> model@.len() == 0,
        model@.len() > 0 ==> asked_model(Some(model)) == Some(model@),
        is_checkout(repos, s) <==> repo_texts(repos).map_values(|r: RepoText| r.path).contains(s),
        is_candidate(models, s) <==> views(models).contains(s),
{
    let paths = repo_texts(repos).map_values(|r: RepoText| r.path);
    if is_checkout(repos, s) {
        let i = choose|i: int| 0 <= i < repos.len() && (#[trigger] repos[i]).path@ == s;
        assert(paths[i] == s);
    }
    if paths.contains(s) {
        let i = choose|i: int| 0 <= i < paths.len() && paths[i] == s;
        assert(repos[i].path@ == s);
    }
    if is_candidate(models, s) {
        let i = choose|i: int| 0 <= i < models.len() && (#[trigger] models[i])@ == s;
        assert(views(models)[i] == s);
    }
    if views(models).contains(s) {
        let i = choose|i: int| 0 <= i < views(models).len() && views(models)[i] == s;
        assert(models[i]@ == s);
    }
}

/// A character that may stand in a header.
pub open spec fn is_header_char(c: char) -> bool {
    c as int == 9 || (c as int >= 32 && c as int != 127)
}

/// A link is followed if and only if it is a web address without control
/// characters; then to exactly this link. Any other is answered with 502.
pub proof fn a_web_link_is_followed(url: String)
    ensures
        ({
            let a = link_answer(Ok(url));
            let web = exists|rest: Seq<char>|
                url@ == #[trigger] ("https://"@ + rest) || url@ == "http://"@ + rest;
            let plain = forall|i: int| 0 <= i < url@.len() ==> is_header_char(#[trigger] url@[i]);
            if web && plain {
                &&& a.status == 302
                &&& a.body == BodyText::Nothing
                &&& a.headers.len() == 1
                &&& a.headers[0].name == "location"@
                &&& a.headers[0].value == url@
            } else {
                a.status == 502 && a.headers.len() == 0
            }
        }),
{
    let s = url@;
    header_chars_make_header_text(s);
    a_beginning_has_a_rest(s, "https://"@);
    a_beginning_has_a_rest(s, "http://"@);
    let web = exists|rest: Seq<char>| s == #[trigger] ("https://"@ + rest) || s == "http://"@ + rest;
    if begins_with(s, "http://"@) {
        let rest = choose|rest: Seq<char>| s == #[trigger] ("http://"@ + rest);
        let other = "https://"@ + rest;
        assert(s == other || s == "http://"@ + rest);
        assert(web);
    }
    if begins_with(s, "https://"@) {
        let rest = choose|rest: Seq<char>| s == #[trigger] ("https://"@ + rest);
        assert(s == "https://"@ + rest);
        assert(web);
    }
    assert(web == (begins_with(s, "https://"@) || begins_with(s, "http://"@)));
}

/// Of an error while a link was asked for, the answer holds all that the error
/// says, and a hint where the session may just have restarted.
pub proof fn a_failed_link_says_why(e: OmpError)
    ensures
        link_answer(Err(e)).status == 502,
        link_answer(Err(e)).headers.len() == 0,
        link_answer(Err(e)).body matches BodyText::Text(text) && exists|before: Seq<char>|
            text == #[trigger] (before + error_text(e)) && (before.len() == 0 <==> !(e is Exit || e
                is Parse)),
{
    reveal_strlit("could not get link: ");
    let none = Seq::<char>::empty();
    assert(none + error_text(e) =~= error_text(e));
    assert("could not get link: "@ + error_text(e) == "could not get link: "@ + error_text(e));
}

proof fn header_chars_make_header_text(s: Seq<char>)
    ensures
        is_header_text(encode_utf8(s)) <==> forall|i: int|
            0 <= i < s.len() ==> is_header_char(#[trigger] s[i]),
    decreases s.len(),
{
    let bytes = encode_utf8(s);
    if s.len() > 0 {
        let rest = s.drop_first();
        header_chars_make_header_text(rest);
        let first = encode_scalar(s[0] as u32);
        let behind = encode_utf8(rest);
        assert(bytes =~= first + behind);
        header_char_makes_header_bytes(s[0]);
        if is_header_text(bytes) {
            assert forall|i: int| 0 <= i < first.len() implies is_header_byte(#[trigger] first[i]) by {
                assert(bytes[i] == first[i]);
            }
            assert forall|i: int| 0 <= i < behind.len() implies is_header_byte(
                #[trigger] behind[i],
            ) by {
                assert(bytes[first.len() + i] == behind[i]);
            }
            assert forall|i: int| 0 <= i < s.len() implies is_header_char(#[trigger] s[i]) by {
                if i > 0 {
                    assert(rest[i - 1] == s[i]);
                }
            }
        }
        if forall|i: int| 0 <= i < s.len() ==> is_header_char(#[trigger] s[i]) {
            assert(is_header_char(s[0]));
            assert forall|i: int| 0 <= i < rest.len() implies is_header_char(#[trigger] rest[i]) by {
                assert(rest[i] == s[i + 1]);
            }
            assert forall|i: int| 0 <= i < bytes.len() implies is_header_byte(#[trigger] bytes[i]) by {
                if i < first.len() {
                    assert(bytes[i] == first[i]);
                } else {
                    assert(bytes[i] == behind[i - first.len()]);
                }
            }
        }
    }
}

/// The bytes of one character may stand in a header if and only if the character
/// may: a character of several bytes has no small one.
proof fn header_char_makes_header_bytes(c: char)
    ensures
        is_header_char(c) <==> is_header_text(encode_scalar(c as u32)),
{
    let v = c as u32;
    let bytes = encode_scalar(v);
    if v <= 0x7f {
        assert(v & 0x7f == v) by (bit_vector)
            requires
                v <= 0x7f,
        ;
        assert(bytes =~= seq![v as u8]);
        assert(bytes[0] == v as u8);
        if is_header_text(bytes) {
            assert(is_header_byte(bytes[0]));
        }
    } else {
        assert(0x80u8 | ((v & 0x3f) as u8) >= 0x80) by (bit_vector);
        assert(0x80u8 | (((v >> 6) & 0x3f) as u8) >= 0x80) by (bit_vector);
        assert(0x80u8 | (((v >> 12) & 0x3f) as u8) >= 0x80) by (bit_vector);
        assert(0xc0u8 | ((v >> 6) & 0x1f) as u8 >= 0x80) by (bit_vector);
        assert(0xe0u8 | ((v >> 12) & 0x0f) as u8 >= 0x80) by (bit_vector);
        assert(0xf0u8 | ((v >> 18) & 0x07) as u8 >= 0x80) by (bit_vector);
        assert forall|i: int| 0 <= i < bytes.len() implies is_header_byte(#[trigger] bytes[i]) by {
            assert(bytes[i] >= 0x80);
        }
    }
}

/// What the contracts say of a response is said of its own status, headers and
/// body.
pub proof fn a_response_shows_what_it_holds(r: Response, i: int)
    ensures
        r@.status == r.status,
        r@.headers.len() == r.headers@.len(),
        0 <= i < r.headers@.len() ==> r@.headers[i].name == r.headers@[i].name@
            && r@.headers[i].value == r.headers@[i].value@,
        match r.body {
            Body::Nothing => r@.body == BodyText::Nothing,
            Body::Text(s) => r@.body == BodyText::Text(s@),
            Body::Html(s) => r@.body == BodyText::Html(s@),
            Body::Hosts(hosts) => r@.body == BodyText::Hosts(hosts@),
            Body::Repos { repos, hint } => r@.body matches BodyText::Repos { repos: texts, hint: h }
                && texts.len() == repos@.len() && (0 <= i < texts.len() ==> texts[i].name
                == repos@[i].name@ && texts[i].path == repos@[i].path@) && (h is Some == hint is Some)
                && (hint matches Some(s) ==> h->0 == s@),
            Body::Models(models) => r@.body matches BodyText::Models(texts) && texts.len()
                == models@.len() && (0 <= i < texts.len() ==> texts[i] == models@[i]@),
            Body::Started => r@.body == BodyText::Started,
            Body::Stopped => r@.body == BodyText::Stopped,
            Body::Error(s) => r@.body == BodyText::Error(s@),
        },
{
}

/// A link is asked of `omp` if and only if `omp` just listed a session with the
/// instance id that was asked for, and then for that id and the access that was
/// asked for. An id that is not listed is answered with 404, and a failure of `omp`
/// with 502 and its words.
pub proof fn a_link_is_asked_for_listed_sessions_only(
    id: Seq<char>,
    access: Access,
    hosts: Vec<Host>,
    e: OmpError,
)
    ensures
        ({
            let next = listed_next(id, access, Ok(hosts));
            if exists|i: int|
                0 <= i < hosts@.len() && (#[trigger] hosts@[i]).instance_id@ == id {
                next == (GoText::Link { id, access })
            } else {
                next matches GoText::Answer(a) && a.status == 404 && a.headers.len() == 0
            }
        }),
        listed_next(id, access, Err(e)) matches GoText::Answer(a) && a.status == 502
            && a.headers.len() == 0 && a.body == BodyText::Text(error_text(e)),
{
    only_listed_sessions_are_found(hosts@, id);
    if let Some(host) = session(hosts@, id) {
        let i = choose|i: int| 0 <= i < hosts@.len() && hosts@[i] == host;
        assert(hosts@[i].instance_id@ == id);
    }
}

/// Of the path of a link, only `view` and `control` go on; every other kind is
/// answered with 404 before `omp` is asked.
pub proof fn other_kinds_of_link_are_unknown(kind: Seq<char>)
    ensures
        kind == "view"@ ==> go_next(kind) == GoText::List(Access::View),
        kind == "control"@ ==> go_next(kind) == GoText::List(Access::Control),
        kind != "view"@ && kind != "control"@ ==> (go_next(kind) matches GoText::Answer(a)
            && a.status == 404 && a.headers.len() == 0),
{
    there_are_two_kinds_of_link(kind);
}

/// `omp` is started if and only if the path that was asked for is that of a listed
/// checkout and the model, where one is named, is a configured one: there, and with
/// that model or with none. A path that is not listed is answered with 404, whatever
/// the model, and else a model that is not configured with 400.
pub proof fn omp_starts_only_where_and_as_listed(
    repos: Seq<Repo>,
    models: Seq<String>,
    path: Seq<char>,
    model: Option<&str>,
)
    ensures
        ({
            let next = start_next(repos, models, path, model);
            let known = exists|i: int| 0 <= i < repos.len() && (#[trigger] repos[i]).path@ == path;
            let named = model is Some && model->0@.len() > 0;
            let configured = exists|i: int|
                0 <= i < models.len() && (#[trigger] models[i])@ == model->0@;
            if !known {
                next matches StartText::Answer(a) && a.status == 404 && a.headers.len() == 0
            } else if !named {
                next == (StartText::Run { cwd: path, model: None })
            } else if configured {
                next == (StartText::Run { cwd: path, model: Some(model->0@) })
            } else {
                next matches StartText::Answer(a) && a.status == 400 && a.headers.len() == 0
            }
        }),
{
}

/// A process is ended if and only if `omp` just listed a session with the instance
/// id that was asked for and told its pid: it is the pid of the first such session.
pub proof fn only_the_pid_of_a_listed_session_is_ended(
    id: Seq<char>,
    hosts: Vec<Host>,
    i: int,
    e: OmpError,
)
    ensures
        (forall|j: int| 0 <= j < hosts@.len() ==> (#[trigger] hosts@[j]).instance_id@ != id) ==> (
        stop_next(id, Ok(hosts)) matches StopText::Answer(a) && a.status == 404 && a.headers.len()
            == 0),
        0 <= i < hosts@.len() && hosts@[i].instance_id@ == id && (forall|j: int|
            0 <= j < i ==> (#[trigger] hosts@[j]).instance_id@ != id) ==> match hosts@[i].pid {
            Some(pid) => stop_next(id, Ok(hosts)) == StopText::Kill(pid),
            None => stop_next(id, Ok(hosts)) matches StopText::Answer(a) && a.status == 502
                && a.headers.len() == 0,
        },
        stop_next(id, Err(e)) matches StopText::Answer(a) && a.status == 502 && a.headers.len() == 0
            && a.body == BodyText::Text(error_text(e)),
{
    only_listed_sessions_are_found(hosts@, id);
    if let Some(host) = session(hosts@, id) {
        let k = choose|k: int| 0 <= k < hosts@.len() && hosts@[k] == host;
        assert(hosts@[k].instance_id@ == id);
    }
    if 0 <= i < hosts@.len() && hosts@[i].instance_id@ == id && (forall|j: int|
        0 <= j < i ==> (#[trigger] hosts@[j]).instance_id@ != id) {
        the_first_with_an_id_is_found(hosts@, i);
    }
}

/// The checkouts are sent whole and in order, with a hint if and only if there is no
/// root to look below.
pub proof fn the_checkouts_are_sent_whole(roots: nat, repos: Seq<RepoText>)
    ensures
        repos_answer(roots, repos).status == 200,
        repos_answer(roots, repos).headers.len() == 0,
        repos_answer(roots, repos).body matches BodyText::Repos { repos: sent, hint } && sent
            == repos && (hint is Some <==> roots == 0),
{
}

/// What the contracts say of a step is said of the step itself.
pub proof fn a_step_shows_what_it_holds(g: Go, s: Start, k: Stop)
    ensures
        g matches Go::Link { instance_id, access } ==> g@ == (GoText::Link {
            id: instance_id@,
            access,
        }),
        g matches Go::List(access) ==> g@ == GoText::List(access),
        g matches Go::Answer(a) ==> g@ == GoText::Answer(a@),
        s matches Start::Run { cwd, model } ==> (s@ matches StartText::Run { cwd: c, model: m } && c
            == cwd@ && (m is Some <==> model is Some) && (model matches Some(x) ==> m->0 == x@)),
        s matches Start::Answer(a) ==> s@ == StartText::Answer(a@),
        k matches Stop::Kill(pid) ==> k@ == StopText::Kill(pid),
        k matches Stop::Answer(a) ==> k@ == StopText::Answer(a@),
{
}

} // verus!
