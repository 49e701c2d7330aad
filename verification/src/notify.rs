//! Background poller that posts a Discord notification the first time a live
//! `omp` collab session gets a title (`sessionName`). Only runs when a
//! webhook URL is configured (`--discord-webhook` / `OMP_DECK_DISCORD_WEBHOOK`).
//!
//! A session has no title for a short while after it starts (`display_name`
//! falls back to the cwd leaf until `omp` names it), so this waits for the
//! real title rather than notifying on first sight of the instance.

use crate::model::{a_title_is_a_name_that_is_not_blank, shown_name, title, Host};
use crate::omp::{error_text, first_chars, keep_first, Access, OmpError};
use crate::text::is_space;
use vstd::hash_set::StringHashSet;
use vstd::prelude::*;
use vstd::slice::slice_subrange;
use vstd::string::*;

verus! {

/// How often, in seconds, the background poller re-checks `omp collab list`.
/// Matches the dashboard page's own auto-reload interval.
pub const POLL_INTERVAL_SECS: u64 = 15;

/// Upper bound, in seconds, on one webhook POST, so an unresponsive endpoint
/// cannot stall the poll loop forever.
pub const POST_TIMEOUT_SECS: u64 = 10;

/// Discord's hard cap on the characters of a message's `content` field.
pub const DISCORD_CONTENT_LIMIT: usize = 2000;

/// The instance ids of the sessions that were announced.
pub struct Notified {
    ids: StringHashSet,
}

impl View for Notified {
    type V = Set<Seq<char>>;

    closed spec fn view(&self) -> Set<Seq<char>> {
        self.ids@
    }
}

impl Notified {
    pub fn new() -> (r: Self)
        ensures
            r@ == Set::<Seq<char>>::empty(),
    {
        Notified { ids: StringHashSet::new() }
    }

    pub fn contains(&self, id: &str) -> (r: bool)
        ensures
            r == self@.contains(id@),
    {
        self.ids.contains(id)
    }

    pub fn insert(&mut self, id: String)
        ensures
            final(self)@ == old(self)@.insert(id@),
    {
        self.ids.insert(id);
    }
}

/// A session to announce: it has a title and was not announced.
pub open spec fn is_due(host: Host, told: Set<Seq<char>>) -> bool {
    title(host) is Some && !told.contains(host.instance_id@)
}

/// The sessions to announce, in their order.
pub open spec fn due(hosts: Seq<Host>, told: Set<Seq<char>>) -> Seq<Host>
    decreases hosts.len(),
{
    if hosts.len() == 0 {
        Seq::empty()
    } else {
        let before = due(hosts.drop_last(), told);
        if is_due(hosts.last(), told) {
            before.push(hosts.last())
        } else {
            before
        }
    }
}

/// Hosts that just got a title and have not been notified about yet.
pub fn newly_titled(hosts: &[Host], notified: &Notified) -> (r: Vec<Host>)
    ensures
        r@ == due(hosts@, notified@),
{
    let mut r: Vec<Host> = Vec::new();
    for i in 0..hosts.len()
        invariant
            r@ == due(hosts@.take(i as int), notified@),
    {
        assert(hosts@.take(i + 1).drop_last() =~= hosts@.take(i as int));
        let host = &hosts[i];
        if !notified.contains(host.instance_id.as_str()) && host.is_titled() {
            r.push(host.clone());
        }
    }
    assert(hosts@.take(hosts@.len() as int) =~= hosts@);
    r
}

/// Which mentions a message may make.
#[derive(Debug, PartialEq, Eq)]
pub struct AllowedMentions {
    pub parse: Vec<String>,
}

/// The body of a webhook POST.
#[derive(Debug, PartialEq, Eq)]
pub struct Payload {
    pub content: String,
    pub allowed_mentions: AllowedMentions,
}

/// The announcement of a session, before it is cut.
pub open spec fn announcement(host: Host, url: Seq<char>) -> Seq<char> {
    "omp collab session started: **"@ + shown_name(host) + "**\n"@ + url
}

/// What is posted about a session.
pub open spec fn is_payload(p: Payload, host: Host, url: Seq<char>) -> bool {
    &&& p.content@ == first_chars(announcement(host, url), DISCORD_CONTENT_LIMIT as nat)
    &&& p.allowed_mentions.parse@.len() == 0
}

/// The Discord webhook payload for a newly titled session. Mentions in the
/// session's title (`@everyone`, `@here`, role/user pings) are suppressed:
/// the title comes from `omp`, effectively an untrusted string, and a ping
/// storm is not an acceptable side effect of naming a session. `content` is
/// cut to Discord's limit, past which the webhook POST would otherwise fail
/// with 400.
pub fn payload(host: &Host, url: &str) -> (r: Payload)
    ensures
        is_payload(r, *host, url@),
{
    let mut content: String = "omp collab session started: **".to_owned();
    content.append(host.display_name());
    content.append("**\n");
    content.append(url);
    Payload {
        content: keep_first(content.as_str(), DISCORD_CONTENT_LIMIT).to_owned(),
        allowed_mentions: AllowedMentions { parse: Vec::new() },
    }
}

/// The content of a payload never has more characters than Discord allows. It is
/// a beginning of the announcement, and all of it where that has no more.
pub proof fn payload_never_exceeds_the_limit(p: Payload, host: Host, url: Seq<char>)
    requires
        is_payload(p, host, url),
    ensures
        p.content@.len() <= DISCORD_CONTENT_LIMIT,
        p.content@.is_prefix_of(announcement(host, url)),
        announcement(host, url).len() <= DISCORD_CONTENT_LIMIT ==> p.content@ == announcement(
            host,
            url,
        ),
{
}

/// A status by which a webhook takes what was posted.
pub open spec fn is_success(status: int) -> bool {
    200 <= status <= 299
}

/// Whether this status of a webhook's answer says that it took the announcement:
/// anything but a 2xx (429, 5xx, 404 ...) is a failure.
pub fn is_taken(status: u16) -> (r: bool)
    ensures
        r == is_success(status as int),
        r == (200 <= status <= 299),
{
    200 <= status && status <= 299
}

/// The instance ids of these sessions.
pub open spec fn ids(hosts: Seq<Host>) -> Set<Seq<char>>
    decreases hosts.len(),
{
    if hosts.len() == 0 {
        Set::empty()
    } else {
        ids(hosts.drop_last()).insert(hosts.last().instance_id@)
    }
}

/// Where the poller stands. The sessions still to announce in the current pass
/// come in order, the one at hand first.
pub ghost enum Stage {
    /// Waits for the list of the sessions that are running already.
    Baseline,
    /// Sleeps before it asks for that list again.
    Retry,
    /// Sleeps before the next pass.
    Idle,
    /// Waits for the list that starts a pass.
    Listing,
    /// Waits for the control link of the first of these sessions.
    Linking { due: Seq<Host> },
    /// Waits for the webhook to take the announcement of the first of them.
    Posting { due: Seq<Host>, url: Seq<char> },
}

/// What happened.
pub enum Event {
    /// The sleep is over.
    Woke,
    /// `omp` was asked for its sessions.
    Listed(Result<Vec<Host>, OmpError>),
    /// `omp` was asked for a link.
    Linked(Result<String, OmpError>),
    /// The webhook was called. The error holds no webhook URL.
    Posted(Result<(), String>),
}

/// What is to be done next.
#[derive(Debug, PartialEq, Eq)]
pub enum Action {
    /// Sleep this many seconds.
    Sleep(u64),
    /// Ask `omp` for its sessions.
    List,
    /// Ask `omp` for a link.
    Link { instance_id: String, access: Access },
    /// Call the webhook.
    Post(Payload),
}

/// What is left of a pass.
pub open spec fn remaining(due: Seq<Host>) -> Stage {
    if due.len() == 0 {
        Stage::Idle
    } else {
        Stage::Linking { due }
    }
}

/// Where an event leads: the sessions announced so far, and the stage. Once a
/// session is announced, the pass leaves out what else is listed of it. An event
/// that the stage does not wait for changes nothing.
pub open spec fn after(told: Set<Seq<char>>, stage: Stage, event: Event) -> (Set<Seq<char>>, Stage) {
    match (stage, event) {
        (Stage::Baseline, Event::Listed(Ok(hosts))) => (
            told.union(ids(due(hosts@, told))),
            Stage::Idle,
        ),
        (Stage::Baseline, Event::Listed(Err(_))) => (told, Stage::Retry),
        (Stage::Retry, Event::Woke) => (told, Stage::Baseline),
        (Stage::Idle, Event::Woke) => (told, Stage::Listing),
        (Stage::Listing, Event::Listed(Ok(hosts))) => (told, remaining(due(hosts@, told))),
        (Stage::Listing, Event::Listed(Err(_))) => (told, Stage::Idle),
        (Stage::Linking { due }, Event::Linked(Ok(url))) => (told, Stage::Posting { due, url: url@ }),
        (Stage::Linking { due }, Event::Linked(Err(_))) => (told, remaining(due.drop_first())),
        (Stage::Posting { due: all, url }, Event::Posted(Ok(_))) => {
            let told = told.insert(all.first().instance_id@);
            (told, remaining(due(all.drop_first(), told)))
        },
        (Stage::Posting { due, url }, Event::Posted(Err(_))) => (told, remaining(due.drop_first())),
        _ => (told, stage),
    }
}

/// The line that an event leaves in the log, if any.
pub open spec fn log_line(stage: Stage, event: Event) -> Option<Seq<char>> {
    match (stage, event) {
        (Stage::Baseline, Event::Listed(Err(e))) | (Stage::Listing, Event::Listed(Err(e))) => Some(
            "omp-deck: discord notify: could not list sessions: "@ + error_text(e),
        ),
        (Stage::Linking { due }, Event::Linked(Err(e))) => Some(
            "omp-deck: discord notify: could not get link for "@ + due.first().instance_id@ + ": "@
                + error_text(e),
        ),
        (Stage::Posting { due, url }, Event::Posted(Err(e))) => Some(
            "omp-deck: discord notify failed for "@ + due.first().instance_id@ + ": "@ + e@,
        ),
        _ => None,
    }
}

/// What is done in a stage.
pub open spec fn is_action(a: Action, stage: Stage) -> bool {
    match stage {
        Stage::Baseline | Stage::Listing => a is List,
        Stage::Retry | Stage::Idle => a == Action::Sleep(POLL_INTERVAL_SECS),
        Stage::Linking { due } => a matches Action::Link { instance_id, access } && instance_id@
            == due.first().instance_id@ && access == Access::Control,
        Stage::Posting { due, url } => a matches Action::Post(p) && is_payload(p, due.first(), url),
    }
}

enum State {
    Baseline,
    Retry,
    Idle,
    Listing,
    Linking { due: Vec<Host>, at: usize },
    Posting { due: Vec<Host>, at: usize, url: String },
}

/// The poller: which action is next, and what an event changes. Running the
/// actions is left to the caller.
pub struct Notifier {
    notified: Notified,
    state: State,
}

fn could_not_list(e: &OmpError) -> (r: String)
    ensures
        r@ == "omp-deck: discord notify: could not list sessions: "@ + error_text(*e),
{
    let mut r: String = "omp-deck: discord notify: could not list sessions: ".to_owned();
    r.append(e.message().as_str());
    r
}

fn could_not_link(id: &str, e: &OmpError) -> (r: String)
    ensures
        r@ == "omp-deck: discord notify: could not get link for "@ + id@ + ": "@ + error_text(*e),
{
    let mut r: String = "omp-deck: discord notify: could not get link for ".to_owned();
    r.append(id);
    r.append(": ");
    r.append(e.message().as_str());
    r
}

fn could_not_post(id: &str, e: &str) -> (r: String)
    ensures
        r@ == "omp-deck: discord notify failed for "@ + id@ + ": "@ + e@,
{
    let mut r: String = "omp-deck: discord notify failed for ".to_owned();
    r.append(id);
    r.append(": ");
    r.append(e);
    r
}

/// The state of a pass over `due` from the `at`th session on.
fn go_on(due: Vec<Host>, at: usize) -> (r: State)
    requires
        at <= due@.len(),
    ensures
        r.stage() == remaining(due@.skip(at as int)),
        r.valid(),
{
    if at < due.len() {
        State::Linking { due, at }
    } else {
        State::Idle
    }
}

impl State {
    spec fn stage(self) -> Stage {
        match self {
            State::Baseline => Stage::Baseline,
            State::Retry => Stage::Retry,
            State::Idle => Stage::Idle,
            State::Listing => Stage::Listing,
            State::Linking { due, at } => Stage::Linking { due: due@.skip(at as int) },
            State::Posting { due, at, url } => Stage::Posting {
                due: due@.skip(at as int),
                url: url@,
            },
        }
    }

    spec fn valid(self) -> bool {
        match self {
            State::Linking { due, at } => at < due@.len(),
            State::Posting { due, at, url } => at < due@.len(),
            _ => true,
        }
    }
}

impl Notifier {
    /// Inside a pass there is a session at hand.
    #[verifier::type_invariant]
    spec fn valid(self) -> bool {
        self.state.valid()
    }

    /// The instance ids of the sessions that are not announced any more.
    pub closed spec fn told(self) -> Set<Seq<char>> {
        self.notified@
    }

    pub closed spec fn stage(self) -> Stage {
        self.state.stage()
    }

    pub fn new() -> (r: Self)
        ensures
            r.told() == Set::<Seq<char>>::empty(),
            r.stage() == Stage::Baseline,
    {
        Notifier { notified: Notified::new(), state: State::Baseline }
    }

    /// Whether the session with this instance id is not announced any more.
    pub fn has_notified(&self, id: &str) -> (r: bool)
        ensures
            r == self.told().contains(id@),
    {
        self.notified.contains(id)
    }

    /// What is to be done now.
    pub fn action(&self) -> (r: Action)
        ensures
            is_action(r, self.stage()),
    {
        proof {
            use_type_invariant(self);
        }
        match &self.state {
            State::Baseline => Action::List,
            State::Listing => Action::List,
            State::Retry => Action::Sleep(POLL_INTERVAL_SECS),
            State::Idle => Action::Sleep(POLL_INTERVAL_SECS),
            State::Linking { due, at } => Action::Link {
                instance_id: due[*at].instance_id.clone(),
                access: Access::Control,
            },
            State::Posting { due, at, url } => Action::Post(payload(&due[*at], url.as_str())),
        }
    }

    /// Takes note of what came of the action, and returns the line to log.
    pub fn step(self, event: Event) -> (r: (Notifier, Option<String>))
        ensures
            (r.0.told(), r.0.stage()) == after(self.told(), self.stage(), event),
            match log_line(self.stage(), event) {
                Some(line) => r.1 matches Some(s) && s@ == line,
                None => r.1 is None,
            },
    {
        proof {
            use_type_invariant(&self);
        }
        let Notifier { notified, state } = self;
        let mut notified = notified;
        let mut line: Option<String> = None;
        let state = match (state, event) {
            (State::Baseline, Event::Listed(Ok(hosts))) => {
                baseline(&mut notified, &hosts);
                State::Idle
            },
            (State::Baseline, Event::Listed(Err(e))) => {
                line = Some(could_not_list(&e));
                State::Retry
            },
            (State::Retry, Event::Woke) => State::Baseline,
            (State::Idle, Event::Woke) => State::Listing,
            (State::Listing, Event::Listed(Ok(hosts))) => {
                let due = newly_titled(&hosts, &notified);
                assert(due@.skip(0) =~= due@);
                go_on(due, 0)
            },
            (State::Listing, Event::Listed(Err(e))) => {
                line = Some(could_not_list(&e));
                State::Idle
            },
            (State::Linking { due, at }, Event::Linked(Ok(url))) => State::Posting { due, at, url },
            (State::Linking { due, at }, Event::Linked(Err(e))) => {
                assert(at < due.len());
                assert(due@.skip(at as int).drop_first() =~= due@.skip(at + 1));
                line = Some(could_not_link(due[at].instance_id.as_str(), &e));
                go_on(due, at + 1)
            },
            (State::Posting { due, at, url }, Event::Posted(Ok(_))) => {
                assert(at < due.len());
                notified.insert(due[at].instance_id.clone());
                let rest = newly_titled(
                    slice_subrange(due.as_slice(), at + 1, due.len()),
                    &notified,
                );
                assert(due@.skip(at as int).drop_first() =~= due@.subrange(
                    at + 1,
                    due@.len() as int,
                ));
                assert(rest@.skip(0) =~= rest@);
                go_on(rest, 0)
            },
            (State::Posting { due, at, url }, Event::Posted(Err(e))) => {
                assert(at < due.len());
                assert(due@.skip(at as int).drop_first() =~= due@.skip(at + 1));
                line = Some(could_not_post(due[at].instance_id.as_str(), e.as_str()));
                go_on(due, at + 1)
            },
            (state, _) => state,
        };
        (Notifier { notified, state }, line)
    }
}

/// Records every session that is already titled as notified, so a restart does
/// not announce sessions that were running before it.
pub fn baseline(notified: &mut Notified, hosts: &[Host])
    ensures
        final(notified)@ == old(notified)@.union(ids(due(hosts@, old(notified)@))),
{
    let titled = newly_titled(hosts, notified);
    let ghost told = notified@;
    assert(titled@.take(0) =~= Seq::<Host>::empty());
    for i in 0..titled.len()
        invariant
            notified@ == told.union(ids(titled@.take(i as int))),
    {
        assert(titled@.take(i + 1).drop_last() =~= titled@.take(i as int));
        notified.insert(titled[i].instance_id.clone());
    }
    assert(titled@.take(titled@.len() as int) =~= titled@);
}

/// Where a sequence of events leads.
pub open spec fn run(told: Set<Seq<char>>, stage: Stage, events: Seq<Event>) -> (
    Set<Seq<char>>,
    Stage,
)
    decreases events.len(),
{
    if events.len() == 0 {
        (told, stage)
    } else {
        let (t, s) = run(told, stage, events.drop_last());
        after(t, s, events.last())
    }
}

/// The sessions still to announce in the current pass.
pub open spec fn pending(stage: Stage) -> Seq<Host> {
    match stage {
        Stage::Linking { due } => due,
        Stage::Posting { due, url } => due,
        _ => Seq::empty(),
    }
}

/// In a pass there is a session at hand.
pub open spec fn is_stage(stage: Stage) -> bool {
    stage is Linking || stage is Posting ==> pending(stage).len() > 0
}

/// No session still to announce in the current pass was announced before.
pub open spec fn fresh(told: Set<Seq<char>>, stage: Stage) -> bool {
    forall|i: int|
        0 <= i < pending(stage).len() ==> !told.contains(
            (#[trigger] pending(stage)[i]).instance_id@,
        )
}

/// What came of announcing one session.
pub enum Outcome {
    /// There was no link.
    NoLink(OmpError),
    /// The webhook call failed.
    NotPosted(String, String),
    /// The webhook took it.
    Posted(String),
}

/// The events of one outcome.
pub open spec fn outcome_events(o: Outcome) -> Seq<Event> {
    match o {
        Outcome::NoLink(e) => seq![Event::Linked(Err(e))],
        Outcome::NotPosted(url, e) => seq![Event::Linked(Ok(url)), Event::Posted(Err(e))],
        Outcome::Posted(url) => seq![Event::Linked(Ok(url)), Event::Posted(Ok(()))],
    }
}

/// The events of a pass over what is listed of sessions, with what comes of each:
/// what is listed of a session that was announced by then is left out.
pub open spec fn pass_events(
    told: Set<Seq<char>>,
    all: Seq<Host>,
    outcomes: Seq<Outcome>,
) -> Seq<Event>
    decreases all.len(),
{
    if all.len() == 0 {
        Seq::empty()
    } else {
        let id = all.first().instance_id@;
        if told.contains(id) {
            pass_events(told, all.drop_first(), outcomes.drop_first())
        } else {
            let later = if outcomes.first() is Posted {
                told.insert(id)
            } else {
                told
            };
            outcome_events(outcomes.first()) + pass_events(
                later,
                all.drop_first(),
                outcomes.drop_first(),
            )
        }
    }
}

/// The instance ids of the sessions whose outcome is that the webhook took them.
pub open spec fn posted_ids(due: Seq<Host>, outcomes: Seq<Outcome>) -> Set<Seq<char>> {
    Set::new(
        |id: Seq<char>|
            exists|i: int|
                0 <= i < due.len() && outcomes[i] is Posted && id == (
                #[trigger] due[i]).instance_id@,
    )
}

/// Exactly those listed sessions are announced that have a title and were not
/// announced.
pub proof fn due_is_exact(hosts: Seq<Host>, told: Set<Seq<char>>, host: Host)
    ensures
        due(hosts, told).contains(host) <==> hosts.contains(host) && is_due(host, told),
    decreases hosts.len(),
{
    if hosts.len() > 0 {
        let before = hosts.drop_last();
        due_is_exact(before, told, host);
        assert(hosts =~= before.push(hosts.last()));
        let d = due(before, told);
        if before.contains(host) {
            let i = choose|i: int| 0 <= i < before.len() && before[i] == host;
            assert(hosts[i] == host);
        }
        if hosts.contains(host) && host != hosts.last() {
            let i = choose|i: int| 0 <= i < hosts.len() && hosts[i] == host;
            assert(before[i] == host);
        }
        if hosts.last() == host {
            assert(hosts[hosts.len() - 1] == host);
        }
        if is_due(hosts.last(), told) {
            let e = d.push(hosts.last());
            assert(e[d.len() as int] == hosts.last());
            if d.contains(host) {
                let i = choose|i: int| 0 <= i < d.len() && d[i] == host;
                assert(e[i] == host);
            }
            if e.contains(host) && host != hosts.last() {
                let i = choose|i: int| 0 <= i < e.len() && e[i] == host;
                assert(d[i] == host);
            }
        }
    }
}

/// The ids of a list of sessions are those that occur in it.
proof fn ids_are_those_listed(hosts: Seq<Host>, host: Host)
    requires
        hosts.contains(host),
    ensures
        ids(hosts).contains(host.instance_id@),
    decreases hosts.len(),
{
    let i = choose|i: int| 0 <= i < hosts.len() && hosts[i] == host;
    if i < hosts.len() - 1 {
        assert(hosts.drop_last()[i] == host);
        ids_are_those_listed(hosts.drop_last(), host);
    }
}

/// Once the sessions due of a list are recorded, with whatever else, nothing of
/// that list is due: the sessions that were titled at the start are not
/// announced, and a second pass over the same sessions is silent.
pub proof fn recorded_sessions_are_not_due(
    hosts: Seq<Host>,
    told: Set<Seq<char>>,
    later: Set<Seq<char>>,
)
    requires
        told.union(ids(due(hosts, told))).subset_of(later),
    ensures
        due(hosts, later).len() == 0,
{
    if due(hosts, later).len() > 0 {
        let host = due(hosts, later)[0];
        assert(due(hosts, later).contains(host));
        due_is_exact(hosts, later, host);
        due_is_exact(hosts, told, host);
        if is_due(host, told) {
            ids_are_those_listed(due(hosts, told), host);
        }
        assert(later.contains(host.instance_id@));
    }
}

/// A session is recorded only when the list at the start shows it titled, or
/// when the webhook took its announcement. None is ever forgotten.
pub proof fn only_a_successful_post_counts(told: Set<Seq<char>>, stage: Stage, event: Event)
    ensures
        match (stage, event) {
            (Stage::Baseline, Event::Listed(Ok(hosts))) => after(told, stage, event).0
                == told.union(ids(due(hosts@, told))),
            (Stage::Posting { due, url }, Event::Posted(Ok(_))) => after(told, stage, event).0
                == told.insert(due.first().instance_id@),
            _ => after(told, stage, event).0 == told,
        },
        told.subset_of(after(told, stage, event).0),
{
}

/// No session that was announced is forgotten, whatever happens.
pub proof fn announced_sessions_stay_announced(
    told: Set<Seq<char>>,
    stage: Stage,
    events: Seq<Event>,
)
    ensures
        told.subset_of(run(told, stage, events).0),
    decreases events.len(),
{
    if events.len() > 0 {
        announced_sessions_stay_announced(told, stage, events.drop_last());
        let (t, s) = run(told, stage, events.drop_last());
        only_a_successful_post_counts(t, s, events.last());
    }
}

/// A session that awaits its link or its announcement came with the last list,
/// titled and not announced: it was awaiting it before the event too, or the
/// event brought the list.
pub proof fn only_listed_sessions_are_pending(
    told: Set<Seq<char>>,
    stage: Stage,
    event: Event,
    host: Host,
)
    requires
        is_stage(stage),
        pending(after(told, stage, event).1).contains(host),
    ensures
        ({
            ||| pending(stage).contains(host)
            ||| event matches Event::Listed(Ok(hosts)) && hosts@.contains(host) && is_due(host, told)
        }),
{
    let next = pending(after(told, stage, event).1);
    let i = choose|i: int| 0 <= i < next.len() && next[i] == host;
    match (stage, event) {
        (Stage::Listing, Event::Listed(Ok(hosts))) => {
            due_is_exact(hosts@, told, host);
        },
        (Stage::Linking { due }, Event::Linked(Err(_))) => {
            assert(due[i + 1] == host);
        },
        (Stage::Posting { due, url }, Event::Posted(Err(_))) => {
            assert(due[i + 1] == host);
        },
        (Stage::Posting { due: all, url }, Event::Posted(Ok(_))) => {
            let rest = all.drop_first();
            due_is_exact(rest, told.insert(all.first().instance_id@), host);
            let k = choose|k: int| 0 <= k < rest.len() && rest[k] == host;
            assert(all[k + 1] == host);
        },
        _ => {},
    }
}

/// An event keeps the sessions still to announce apart from those announced.
proof fn an_event_keeps_fresh(told: Set<Seq<char>>, stage: Stage, event: Event)
    requires
        fresh(told, stage),
        is_stage(stage),
    ensures
        fresh(after(told, stage, event).0, after(told, stage, event).1),
        is_stage(after(told, stage, event).1),
{
    let (t, s) = after(told, stage, event);
    let all = pending(stage);
    let next = pending(s);
    match (stage, event) {
        (Stage::Listing, Event::Listed(Ok(hosts))) => {
            due_is_fresh(hosts@, t);
        },
        (Stage::Posting { due, url }, Event::Posted(Ok(_))) => {
            due_is_fresh(all.drop_first(), t);
        },
        (Stage::Linking { due }, Event::Linked(Err(_)))
        | (Stage::Posting { due, url: _ }, Event::Posted(Err(_))) => {
            assert forall|i: int| 0 <= i < next.len() implies !t.contains(
                (#[trigger] next[i]).instance_id@,
            ) by {
                assert(all[i + 1] == next[i]);
            }
        },
        _ => {},
    }
}

/// What is due was not announced.
proof fn due_is_fresh(hosts: Seq<Host>, told: Set<Seq<char>>)
    ensures
        forall|i: int|
            0 <= i < due(hosts, told).len() ==> !told.contains(
                (#[trigger] due(hosts, told)[i]).instance_id@,
            ),
{
    let d = due(hosts, told);
    assert forall|i: int| 0 <= i < d.len() implies !told.contains(
        (#[trigger] d[i]).instance_id@,
    ) by {
        assert(d.contains(d[i]));
        due_is_exact(hosts, told, d[i]);
    }
}

/// From the start on, whatever happens, a link is asked for and an announcement
/// is posted only for a session that was not announced before.
pub proof fn only_new_sessions_are_pending(events: Seq<Event>)
    ensures
        ({
            let (told, stage) = run(Set::empty(), Stage::Baseline, events);
            &&& is_stage(stage)
            &&& fresh(told, stage)
        }),
    decreases events.len(),
{
    if events.len() > 0 {
        only_new_sessions_are_pending(events.drop_last());
        let (t, s) = run(Set::empty(), Stage::Baseline, events.drop_last());
        an_event_keeps_fresh(t, s, events.last());
    }
}

/// The instance id of the session whose announcement the webhook took with the
/// `i`th event since the start, if it did.
pub open spec fn announced_by(events: Seq<Event>, i: int) -> Option<Seq<char>> {
    let (told, stage) = run(Set::empty(), Stage::Baseline, events.take(i));
    if stage is Posting && events[i] matches Event::Posted(Ok(_)) {
        Some(pending(stage).first().instance_id@)
    } else {
        None
    }
}

/// Each session is announced once, whatever happens and whatever is listed: no
/// two announcements that the webhook took are of the same session.
pub proof fn a_session_is_announced_once(events: Seq<Event>, i: int, j: int)
    requires
        0 <= i < j < events.len(),
        announced_by(events, i) is Some,
        announced_by(events, j) is Some,
    ensures
        announced_by(events, i) != announced_by(events, j),
{
    let (t, s) = run(Set::empty(), Stage::Baseline, events.take(i));
    let (t1, s1) = run(Set::empty(), Stage::Baseline, events.take(i + 1));
    let (t2, s2) = run(Set::empty(), Stage::Baseline, events.take(j));
    assert(events.take(i + 1).drop_last() =~= events.take(i));
    assert(t1.contains(pending(s).first().instance_id@));
    let between = events.subrange(i + 1, j);
    assert(events.take(j) =~= events.take(i + 1) + between);
    run_add(Set::empty(), Stage::Baseline, events.take(i + 1), between);
    announced_sessions_stay_announced(t1, s1, between);
    only_new_sessions_are_pending(events.take(j));
    assert(!t2.contains(pending(s2)[0].instance_id@));
}

proof fn run_add(told: Set<Seq<char>>, stage: Stage, a: Seq<Event>, b: Seq<Event>)
    ensures
        run(told, stage, a + b) == ({
            let (t, s) = run(told, stage, a);
            run(t, s, b)
        }),
    decreases b.len(),
{
    if b.len() == 0 {
        assert(a + b =~= a);
    } else {
        assert((a + b).drop_last() =~= a + b.drop_last());
        run_add(told, stage, a, b.drop_last());
    }
}

/// What is due of a list is its first session, where that is due, and what is
/// due of the others.
proof fn due_first(all: Seq<Host>, told: Set<Seq<char>>)
    requires
        all.len() > 0,
    ensures
        due(all, told) == if is_due(all.first(), told) {
            seq![all.first()] + due(all.drop_first(), told)
        } else {
            due(all.drop_first(), told)
        },
    decreases all.len(),
{
    let before = all.drop_last();
    if before.len() == 0 {
        assert(all.drop_first() =~= Seq::<Host>::empty());
        assert(due(before, told) =~= Seq::<Host>::empty());
    } else {
        due_first(before, told);
        assert(all.drop_first().drop_last() =~= before.drop_first());
        assert(all.drop_first().last() == all.last());
    }
    assert(due(all, told) =~= if is_due(all.first(), told) {
        seq![all.first()] + due(all.drop_first(), told)
    } else {
        due(all.drop_first(), told)
    });
}

/// What is due later is due of what was due before.
proof fn due_again(all: Seq<Host>, told: Set<Seq<char>>, later: Set<Seq<char>>)
    requires
        told.subset_of(later),
    ensures
        due(due(all, told), later) == due(all, later),
    decreases all.len(),
{
    if all.len() > 0 {
        let before = all.drop_last();
        due_again(before, told, later);
        if is_due(all.last(), told) {
            assert(due(all, told).drop_last() =~= due(before, told));
        }
    }
}

/// A pass ends with exactly those sessions recorded that the webhook took, and
/// then sleeps. A failure does not end it, and leaves the session to be
/// announced by a later pass.
pub proof fn a_pass_records_what_was_posted(
    hosts: Seq<Host>,
    told: Set<Seq<char>>,
    outcomes: Seq<Outcome>,
)
    requires
        outcomes.len() == due(hosts, told).len(),
    ensures
        run(told, remaining(due(hosts, told)), pass_events(told, due(hosts, told), outcomes)) == (
            told.union(posted_ids(due(hosts, told), outcomes)),
            Stage::Idle,
        ),
{
    let d = due(hosts, told);
    due_again(hosts, told, told);
    assert forall|i: int| 0 <= i < d.len() implies title(#[trigger] d[i]) is Some by {
        assert(d.contains(d[i]));
        due_is_exact(hosts, told, d[i]);
    }
    a_pass_goes_on(told, d, outcomes);
}

proof fn a_pass_goes_on(told: Set<Seq<char>>, all: Seq<Host>, outcomes: Seq<Outcome>)
    requires
        outcomes.len() == all.len(),
        forall|i: int| 0 <= i < all.len() ==> title(#[trigger] all[i]) is Some,
    ensures
        run(told, remaining(due(all, told)), pass_events(told, all, outcomes)) == (
            told.union(posted_ids(all, outcomes)),
            Stage::Idle,
        ),
    decreases all.len(),
{
    if all.len() == 0 {
        assert(told.union(posted_ids(all, outcomes)) =~= told);
    } else {
        let rest = all.drop_first();
        let o = outcomes.first();
        let id = all.first().instance_id@;
        let skipped = told.contains(id);
        let t = if o is Posted {
            told.insert(id)
        } else {
            told
        };
        assert(title(all[0]) is Some);
        assert forall|i: int| 0 <= i < rest.len() implies title(#[trigger] rest[i]) is Some by {
            assert(all[i + 1] == rest[i]);
        }
        due_first(all, told);
        a_pass_goes_on(t, rest, outcomes.drop_first());
        if skipped {
            assert(t =~= told);
        } else {
            let first = outcome_events(o);
            let d = due(all, told);
            assert(d.drop_first() =~= due(rest, told));
            due_again(rest, told, t);
            reveal_with_fuel(run, 3);
            assert(first.drop_last() =~= if o is NoLink {
                seq![]
            } else {
                seq![first[0]]
            });
            assert(seq![first[0]].drop_last() =~= seq![]);
            assert(run(told, remaining(d), first) == (t, remaining(due(rest, t))));
            run_add(told, remaining(d), first, pass_events(t, rest, outcomes.drop_first()));
        }
        posted_ids_first(told, all, outcomes);
    }
}

/// What a pass records is what its first session adds and what the others do.
proof fn posted_ids_first(told: Set<Seq<char>>, all: Seq<Host>, outcomes: Seq<Outcome>)
    requires
        all.len() > 0,
        outcomes.len() == all.len(),
    ensures
        told.union(posted_ids(all, outcomes)) == (if outcomes.first() is Posted {
            told.insert(all.first().instance_id@)
        } else {
            told
        }).union(posted_ids(all.drop_first(), outcomes.drop_first())),
{
    let rest = all.drop_first();
    let whole = told.union(posted_ids(all, outcomes));
    let split = (if outcomes.first() is Posted {
        told.insert(all.first().instance_id@)
    } else {
        told
    }).union(posted_ids(rest, outcomes.drop_first()));
    assert forall|id: Seq<char>| whole.contains(id) == split.contains(id) by {
        if posted_ids(all, outcomes).contains(id) {
            let i = choose|i: int|
                0 <= i < all.len() && outcomes[i] is Posted && id == (
                #[trigger] all[i]).instance_id@;
            if i > 0 {
                assert(rest[i - 1] == all[i]);
                assert(outcomes.drop_first()[i - 1] == outcomes[i]);
            }
        }
        if posted_ids(rest, outcomes.drop_first()).contains(id) {
            let i = choose|i: int|
                0 <= i < rest.len() && outcomes.drop_first()[i] is Posted && id == (
                #[trigger] rest[i]).instance_id@;
            assert(all[i + 1] == rest[i]);
        }
        if outcomes.first() is Posted {
            assert(posted_ids(all, outcomes).contains(all[0].instance_id@));
        }
    }
    assert(whole =~= split);
}

/// A session whose link or announcement failed in a pass, each time it was tried,
/// is due again in the next one, where it is still listed.
pub proof fn a_failed_session_is_due_again(
    hosts: Seq<Host>,
    told: Set<Seq<char>>,
    outcomes: Seq<Outcome>,
    i: int,
)
    requires
        outcomes.len() == due(hosts, told).len(),
        0 <= i < outcomes.len(),
        forall|j: int|
            0 <= j < outcomes.len() && (#[trigger] due(hosts, told)[j]).instance_id@ == due(
                hosts,
                told,
            )[i].instance_id@ ==> outcomes[j] !is Posted,
    ensures
        due(hosts, told.union(posted_ids(due(hosts, told), outcomes))).contains(
            due(hosts, told)[i],
        ),
{
    let d = due(hosts, told);
    let later = told.union(posted_ids(d, outcomes));
    assert(d.contains(d[i]));
    due_is_exact(hosts, told, d[i]);
    due_is_exact(hosts, later, d[i]);
}

/// Where every announcement of a pass was posted, a pass over the same sessions
/// posts nothing.
pub proof fn a_second_pass_is_silent(
    hosts: Seq<Host>,
    told: Set<Seq<char>>,
    outcomes: Seq<Outcome>,
)
    requires
        outcomes.len() == due(hosts, told).len(),
        forall|i: int| 0 <= i < outcomes.len() ==> (#[trigger] outcomes[i]) is Posted,
    ensures
        remaining(due(hosts, told.union(posted_ids(due(hosts, told), outcomes)))) == Stage::Idle,
{
    let d = due(hosts, told);
    let later = told.union(posted_ids(d, outcomes));
    if due(hosts, later).len() > 0 {
        let host = due(hosts, later)[0];
        assert(due(hosts, later).contains(host));
        due_is_exact(hosts, later, host);
        due_is_exact(hosts, told, host);
        let i = choose|i: int| 0 <= i < d.len() && d[i] == host;
        assert(outcomes[i] is Posted);
        assert(later.contains(d[i].instance_id@));
    }
}

/// What is due goes session by session, in order: one is due if and only if its
/// name holds something other than white space and it was not announced.
pub proof fn what_is_due_goes_session_by_session(
    a: Seq<Host>,
    host: Host,
    b: Seq<Host>,
    told: Set<Seq<char>>,
)
    ensures
        due(a + b, told) == due(a, told) + due(b, told),
        due(seq![host], told) == if !told.contains(host.instance_id@) && (
        host.session_name matches Some(name) && exists|i: int|
            0 <= i < name@.len() && !is_space(#[trigger] name@[i])) {
            seq![host]
        } else {
            Seq::empty()
        },
    decreases b.len(),
{
    a_title_is_a_name_that_is_not_blank(host);
    let one = seq![host];
    assert(one.drop_last() =~= Seq::<Host>::empty());
    assert(due(one.drop_last(), told) =~= Seq::<Host>::empty());
    assert(one.last() == host);
    assert(Seq::<Host>::empty().push(host) =~= one);
    if b.len() == 0 {
        assert(a + b =~= a);
        assert(due(b, told) =~= Seq::<Host>::empty());
    } else {
        assert((a + b).drop_last() =~= a + b.drop_last());
        what_is_due_goes_session_by_session(a, host, b.drop_last(), told);
    }
    assert(due(a + b, told) =~= due(a, told) + due(b, told));
}

/// An announcement begins with the session's name, between asterisks, and ends with
/// the link, both whole; what is posted is its first 2000 characters, without
/// mentions.
pub proof fn an_announcement_names_the_session_and_the_link(
    p: Payload,
    host: Host,
    url: Seq<char>,
    i: int,
)
    requires
        is_payload(p, host, url),
    ensures
        ({
            let name = shown_name(host);
            let all = announcement(host, url);
            &&& all.len() == 30 + name.len() + 3 + url.len()
            &&& all.take(30) == "omp collab session started: **"@
            &&& 0 <= i < name.len() ==> all[30 + i] == name[i]
            &&& all.subrange(30 + name.len() as int, 33 + name.len() as int) == seq!['*', '*', '\n']
            &&& 0 <= i < url.len() ==> all[33 + name.len() + i] == url[i]
            &&& p.content@.len() == if all.len() <= 2000 {
                all.len()
            } else {
                2000
            }
            &&& 0 <= i < p.content@.len() ==> p.content@[i] == all[i]
            &&& p.allowed_mentions.parse@.len() == 0
        }),
{
    reveal_strlit("omp collab session started: **");
    reveal_strlit("**\n");
    let all = announcement(host, url);
    let n = shown_name(host).len() as int;
    assert(all.take(30) =~= "omp collab session started: **"@);
    assert(all.subrange(30 + n, 33 + n) =~= seq!['*', '*', '\n']);
}

/// The ids of a list are those of its sessions and no others.
pub proof fn the_ids_are_those_of_the_sessions(hosts: Seq<Host>, id: Seq<char>)
    ensures
        ids(hosts).contains(id) <==> exists|i: int|
            0 <= i < hosts.len() && (#[trigger] hosts[i]).instance_id@ == id,
    decreases hosts.len(),
{
    if hosts.len() > 0 {
        let before = hosts.drop_last();
        the_ids_are_those_of_the_sessions(before, id);
        if exists|i: int| 0 <= i < hosts.len() && (#[trigger] hosts[i]).instance_id@ == id {
            let i = choose|i: int| 0 <= i < hosts.len() && (#[trigger] hosts[i]).instance_id@ == id;
            if i < before.len() {
                assert(before[i] == hosts[i]);
            }
        }
        if exists|i: int| 0 <= i < before.len() && (#[trigger] before[i]).instance_id@ == id {
            let i = choose|i: int|
                0 <= i < before.len() && (#[trigger] before[i]).instance_id@ == id;
            assert(hosts[i] == before[i]);
        }
        assert(hosts[hosts.len() - 1] == hosts.last());
    }
}

/// The poller goes round: it lists until the first list comes, then sleeps and lists
/// in turn, whether or not a list comes; and it goes through what is due, session by
/// session, with the link that it was given.
pub proof fn the_poller_goes_round(
    told: Set<Seq<char>>,
    e: OmpError,
    hosts: Vec<Host>,
    all: Seq<Host>,
    url: String,
)
    ensures
        after(told, Stage::Baseline, Event::Listed(Err(e))) == (told, Stage::Retry),
        after(told, Stage::Retry, Event::Woke) == (told, Stage::Baseline),
        after(told, Stage::Baseline, Event::Listed(Ok(hosts))).1 == Stage::Idle,
        after(told, Stage::Idle, Event::Woke) == (told, Stage::Listing),
        after(told, Stage::Listing, Event::Listed(Err(e))) == (told, Stage::Idle),
        after(told, Stage::Listing, Event::Listed(Ok(hosts))).0 == told,
        pending(after(told, Stage::Listing, Event::Listed(Ok(hosts))).1) == due(hosts@, told),
        due(hosts@, told).len() == 0 <==> after(told, Stage::Listing, Event::Listed(Ok(hosts))).1
            == Stage::Idle,
        after(told, Stage::Linking { due: all }, Event::Linked(Ok(url))) == (
            told,
            Stage::Posting { due: all, url: url@ },
        ),
        all.len() > 0 ==> {
            let next = after(told, Stage::Linking { due: all }, Event::Linked(Err(e)));
            next.0 == told && pending(next.1) == all.drop_first() && is_stage(next.1)
        },
        all.len() > 0 ==> {
            let next = after(told, Stage::Posting { due: all, url: url@ }, Event::Posted(Err(url)));
            next.0 == told && pending(next.1) == all.drop_first() && is_stage(next.1)
        },
        all.len() > 0 ==> {
            let next = after(told, Stage::Posting { due: all, url: url@ }, Event::Posted(Ok(())));
            &&& next.0 == told.insert(all[0].instance_id@)
            &&& pending(next.1) == due(all.drop_first(), next.0)
            &&& is_stage(next.1)
        },
{
    assert(all.len() == 1 ==> all.drop_first() =~= Seq::<Host>::empty());
    assert(all.len() > 0 && due(all.drop_first(), told.insert(all[0].instance_id@)).len() == 0
        ==> due(all.drop_first(), told.insert(all[0].instance_id@)) =~= Seq::<Host>::empty());
    assert(pending(Stage::Idle) =~= Seq::<Host>::empty());
    if due(hosts@, told).len() == 0 {
        assert(due(hosts@, told) =~= Seq::<Host>::empty());
    }
}

/// After the first list, exactly those are recorded of which the list shows a
/// session with a name that is not blank, and those that were recorded before.
pub proof fn the_first_list_is_recorded(told: Set<Seq<char>>, hosts: Vec<Host>, id: Seq<char>)
    ensures
        after(told, Stage::Baseline, Event::Listed(Ok(hosts))).0.contains(id) <==> told.contains(id)
            || exists|i: int|
            0 <= i < hosts@.len() && (#[trigger] hosts@[i]).instance_id@ == id && title(hosts@[i])
                is Some,
{
    let d = due(hosts@, told);
    the_ids_are_those_of_the_sessions(d, id);
    if exists|i: int| 0 <= i < d.len() && (#[trigger] d[i]).instance_id@ == id {
        let k = choose|i: int| 0 <= i < d.len() && (#[trigger] d[i]).instance_id@ == id;
        assert(d.contains(d[k]));
        due_is_exact(hosts@, told, d[k]);
        let i = choose|i: int| 0 <= i < hosts@.len() && hosts@[i] == d[k];
        assert(hosts@[i].instance_id@ == id);
    }
    if !told.contains(id) && exists|i: int|
        0 <= i < hosts@.len() && (#[trigger] hosts@[i]).instance_id@ == id && title(hosts@[i])
            is Some {
        let i = choose|i: int|
            0 <= i < hosts@.len() && (#[trigger] hosts@[i]).instance_id@ == id && title(hosts@[i])
                is Some;
        assert(hosts@.contains(hosts@[i]));
        due_is_exact(hosts@, told, hosts@[i]);
        let k = choose|k: int| 0 <= k < d.len() && d[k] == hosts@[i];
        assert(d[k].instance_id@ == id);
    }
}

/// What is done in a stage: sleep 15 seconds, list, ask for the control link of the
/// session at hand, or post its announcement.
pub proof fn what_is_done_is_for_the_session_at_hand(a: Action, stage: Stage)
    requires
        is_action(a, stage),
    ensures
        stage is Baseline || stage is Listing <==> a is List,
        stage is Retry || stage is Idle <==> a == Action::Sleep(15),
        stage is Linking <==> a is Link,
        stage is Posting <==> a is Post,
        a matches Action::Link { instance_id, access } ==> instance_id@ == pending(
            stage,
        ).first().instance_id@ && access is Control,
        a matches Action::Post(p) ==> is_payload(p, pending(stage).first(), stage->url),
{
}

/// What a logged line ends with: the session that it is about, where it is about
/// one, and what the error says.
pub open spec fn failure_told(stage: Stage, event: Event) -> Seq<char> {
    match event {
        Event::Listed(Err(e)) => error_text(e),
        Event::Linked(Err(e)) => pending(stage).first().instance_id@ + ": "@ + error_text(e),
        Event::Posted(Err(e)) => pending(stage).first().instance_id@ + ": "@ + e@,
        _ => Seq::empty(),
    }
}

/// A line is logged if and only if something failed that was waited for; it ends
/// with what the error says, and names the session that it is about.
pub proof fn every_failure_is_logged(stage: Stage, event: Event)
    ensures
        log_line(stage, event) is Some <==> match event {
            Event::Listed(Err(_)) => stage is Baseline || stage is Listing,
            Event::Linked(Err(_)) => stage is Linking,
            Event::Posted(Err(_)) => stage is Posting,
            _ => false,
        },
        log_line(stage, event) matches Some(line) ==> failure_told(stage, event).is_suffix_of(line),
{
    if let Some(line) = log_line(stage, event) {
        let told = failure_told(stage, event);
        let start = match (stage, event) {
            (Stage::Linking { due }, Event::Linked(Err(e))) => {
                "omp-deck: discord notify: could not get link for "@
            },
            (Stage::Posting { due, url }, Event::Posted(Err(e))) => {
                "omp-deck: discord notify failed for "@
            },
            _ => "omp-deck: discord notify: could not list sessions: "@,
        };
        assert(line =~= start + told);
        assert(line.subrange(line.len() - told.len(), line.len() as int) =~= told);
    }
}

/// The webhook takes what was posted by the hundred statuses that begin with a two,
/// and by no other.
pub proof fn a_success_begins_with_a_two(status: int)
    ensures
        is_success(status) <==> status / 100 == 2,
{
}

} // verus!
