//! Pure presentation: relative time, HTML escaping, page and table rendering.

use crate::model::{label_of_model, shown_name, Host};
use crate::page::{HEAD, TAIL};
use crate::text::{
    decimal, decimal_is_digits, decimal_u64, digit, digit_char, is_space, join, join_strings,
    occurrences, occurrences_add, occurrences_none, pad, padded, trim_end, trimmed_end,
    trimmed_end_is_prefix, views,
};
use vstd::prelude::*;
use vstd::string::*;
use vstd::utf8::*;

verus! {

/// What stands for `c` in escaped text.
pub open spec fn escaped_char(c: char) -> Seq<char> {
    if c == '&' {
        "&amp;"@
    } else if c == '<' {
        "&lt;"@
    } else if c == '>' {
        "&gt;"@
    } else if c == '"' {
        "&quot;"@
    } else if c == '\'' {
        "&#39;"@
    } else {
        seq![c]
    }
}

/// `s` with each character escaped.
pub open spec fn escaped(s: Seq<char>) -> Seq<char>
    decreases s.len(),
{
    if s.len() == 0 {
        Seq::empty()
    } else {
        escaped(s.drop_last()) + escaped_char(s.last())
    }
}

/// Escape text for use in HTML element content and double-quoted attributes.
pub fn escape_html(s: &str) -> (r: String)
    ensures
        r@ == escaped(s@),
{
    let mut out: String = String::new();
    for c in it: s.chars()
        invariant
            it.seq() == s@,
            out@ == escaped(s@.take(it.index() as int)),
    {
        proof {
            let i = it.index() as int;
            assert(s@.take(i + 1).drop_last() == s@.take(i));
            assert(s@.take(i + 1).last() == c);
        }
        match c {
            '&' => out.append("&amp;"),
            '<' => out.append("&lt;"),
            '>' => out.append("&gt;"),
            '"' => out.append("&quot;"),
            '\'' => out.append("&#39;"),
            c => out.push(c),
        }
    }
    assert(s@.take(s@.len() as int) == s@);
    out
}

/// The bytes that stand for themselves in a path segment.
pub open spec fn is_unreserved(b: u8) -> bool {
    ||| 'a' as u8 <= b <= 'z' as u8
    ||| 'A' as u8 <= b <= 'Z' as u8
    ||| '0' as u8 <= b <= '9' as u8
    ||| b == '-' as u8
    ||| b == '_' as u8
    ||| b == '.' as u8
    ||| b == '~' as u8
}

/// What stands for `b` in a path segment.
pub open spec fn encoded_byte(b: u8) -> Seq<char> {
    if is_unreserved(b) {
        seq![b as char]
    } else {
        seq!['%', digit((b / 16) as nat), digit((b % 16) as nat)]
    }
}

/// `bytes` with each byte percent-encoded where it is reserved.
pub open spec fn encoded(bytes: Seq<u8>) -> Seq<char>
    decreases bytes.len(),
{
    if bytes.len() == 0 {
        Seq::empty()
    } else {
        encoded_byte(bytes[0]) + encoded(bytes.drop_first())
    }
}

/// `s` as a path segment: its UTF-8 bytes, percent-encoded.
pub open spec fn segment(s: Seq<char>) -> Seq<char> {
    encoded(encode_utf8(s))
}

/// Percent-encode everything but unreserved characters, for use as a path segment.
pub fn encode_segment(s: &str) -> (r: String)
    ensures
        r@ == segment(s@),
{
    let bytes = s.as_bytes();
    let mut out: String = String::new();
    assert(bytes@.skip(0) == bytes@);
    for i in 0..bytes.len()
        invariant
            bytes@ == encode_utf8(s@),
            out@ + encoded(bytes@.skip(i as int)) == segment(s@),
    {
        let b = bytes[i];
        assert(bytes@.skip(i as int).drop_first() == bytes@.skip(i + 1));
        if (97 <= b && b <= 122) || (65 <= b && b <= 90) || (48 <= b && b <= 57) || b == 45 || b
            == 95 || b == 46 || b == 126 {
            out.push(b as char);
        } else {
            out.push('%');
            out.push(digit_char(b / 16));
            out.push(digit_char(b % 16));
        }
        assert(out@ + encoded(bytes@.skip(i + 1)) == segment(s@));
    }
    out
}

/// `now` minus `started`, held within what 64 bits can say.
pub open spec fn age_ms(started: i64, now: i64) -> int {
    let age = now - started;
    if age < i64::MIN {
        i64::MIN as int
    } else if age > i64::MAX {
        i64::MAX as int
    } else {
        age
    }
}

/// An age in words: nothing below ten seconds is told apart, and larger ages
/// are given in whole seconds, minutes, hours or days.
pub open spec fn age_text(started: i64, now: i64) -> Seq<char> {
    let age = age_ms(started, now);
    let secs = (age / 1000) as nat;
    if age < 10_000 {
        "just now"@
    } else if secs < 60 {
        decimal(secs) + "s ago"@
    } else if secs < 3600 {
        decimal(secs / 60) + "m ago"@
    } else if secs < 86_400 {
        decimal(secs / 3600) + "h ago"@
    } else {
        decimal(secs / 86_400) + "d ago"@
    }
}

/// "5m ago" style age of `started_ms` as seen at `now_ms`.
pub fn relative_time(started_ms: i64, now_ms: i64) -> (r: String)
    ensures
        r@ == age_text(started_ms, now_ms),
{
    let age: i64 = match now_ms.checked_sub(started_ms) {
        Some(age) => age,
        None => if started_ms < 0 {
            i64::MAX
        } else {
            i64::MIN
        },
    };
    if age < 10_000 {
        return "just now".to_owned();
    }
    let secs: u64 = age as u64 / 1000;
    let (count, unit): (u64, &str) = if secs < 60 {
        (secs, "s ago")
    } else if secs < 3600 {
        (secs / 60, "m ago")
    } else if secs < 86_400 {
        (secs / 3600, "h ago")
    } else {
        (secs / 86_400, "d ago")
    };
    let mut r: String = decimal_u64(count);
    r.append(unit);
    r
}

/// When a session started, in words.
pub open spec fn started_text(host: Host, now: i64) -> Seq<char> {
    match host.started_at {
        None => "unknown"@,
        Some(t) => age_text(t, now),
    }
}

/// When the session started, as seen at `now_ms`; "unknown" where omp did not say.
pub fn started_label(host: &Host, now_ms: i64) -> (r: String)
    ensures
        r@ == started_text(*host, now_ms),
{
    match host.started_at {
        None => "unknown".to_owned(),
        Some(t) => relative_time(t, now_ms),
    }
}

/// Status of a host, most attention-worthy first.
#[derive(Debug, Clone, Copy, PartialEq, Eq, Structural)]
pub enum Status {
    InputRequired,
    Busy,
    Idle,
}

/// The status of a host: an open question counts before work, and work before
/// idling.
pub open spec fn status_of(host: Host) -> Status {
    if host.input_required {
        Status::InputRequired
    } else if host.busy {
        Status::Busy
    } else {
        Status::Idle
    }
}

/// The words for a status.
pub open spec fn status_label(status: Status) -> Seq<char> {
    match status {
        Status::InputRequired => "input required"@,
        Status::Busy => "busy"@,
        Status::Idle => "idle"@,
    }
}

/// The style class of a status.
pub open spec fn status_class(status: Status) -> Seq<char> {
    match status {
        Status::InputRequired => "input"@,
        Status::Busy => "busy"@,
        Status::Idle => "idle"@,
    }
}

impl Status {
    pub fn of(host: &Host) -> (r: Self)
        ensures
            r == status_of(*host),
    {
        if host.input_required {
            Status::InputRequired
        } else if host.busy {
            Status::Busy
        } else {
            Status::Idle
        }
    }

    pub fn label(self) -> (r: &'static str)
        ensures
            r@ == status_label(self),
    {
        match self {
            Status::InputRequired => "input required",
            Status::Busy => "busy",
            Status::Idle => "idle",
        }
    }

    pub fn class(self) -> (r: &'static str)
        ensures
            r@ == status_class(self),
    {
        match self {
            Status::InputRequired => "input",
            Status::Busy => "busy",
            Status::Idle => "idle",
        }
    }
}

/// The link of one kind (`view` or `control`) to the session with the encoded
/// instance id `id`.
pub open spec fn link_html(id: Seq<char>, kind: Seq<char>) -> Seq<char> {
    "<a class=\""@ + kind + "\" href=\"/go/"@ + id + "/"@ + kind
        + "\" target=\"_blank\" rel=\"noopener noreferrer\">"@ + kind + "</a>"@
}

/// How many take part in a session, in words.
pub open spec fn participants_text(host: Host) -> Seq<char> {
    decimal(host.participants as nat) + " participant"@ + (if host.participants == 1 {
        ""@
    } else {
        "s"@
    })
}

/// The small print of a card: the model where it is known, the participants
/// and the age.
pub open spec fn meta_parts(host: Host, now: i64) -> Seq<Seq<char>> {
    let rest = seq![participants_text(host), "started "@ + started_text(host, now)];
    match label_of_model(host) {
        Some(label) => seq![escaped(label)] + rest,
        None => rest,
    }
}

/// The card of one session.
pub open spec fn card_html(host: Host, now: i64) -> Seq<char> {
    let class = status_class(status_of(host));
    let id = segment(host.instance_id@);
    "<article class=\"card "@ + class + "\">\n<header><h2>"@ + escaped(shown_name(host))
        + "</h2><span class=\"badge "@ + class + "\">"@ + status_label(status_of(host))
        + "</span></header>\n<p class=\"cwd\">"@ + escaped(host.cwd@)
        + "</p>\n<p class=\"meta\">"@ + join(meta_parts(host, now), " &middot; "@)
        + "</p>\n<p class=\"links\">"@ + link_html(id, "view"@) + link_html(id, "control"@)
        + "<button type=\"button\" class=\"stop\" data-id=\""@ + id
        + "\">close</button></p>\n</article>\n"@
}

/// The cards of the sessions, in their order.
pub open spec fn cards_html(hosts: Seq<Host>, now: i64) -> Seq<char>
    decreases hosts.len(),
{
    if hosts.len() == 0 {
        Seq::empty()
    } else {
        cards_html(hosts.drop_last(), now) + card_html(hosts.last(), now)
    }
}

/// The note in place of cards when there is no session.
pub open spec fn empty_note() -> Seq<char> {
    "<div class=\"note\"><p><strong>no live omp sessions</strong></p>\n<p>Start an interactive <code>omp</code>. To have sessions show up here without typing /collab, run <code>omp config set collab.autoStart control</code>.</p></div>\n"@
}

/// The body of the dashboard: a card per session, or the note that there is none.
pub open spec fn body_html(hosts: Seq<Host>, now: i64) -> Seq<char> {
    if hosts.len() == 0 {
        empty_note()
    } else {
        "<main class=\"grid\">\n"@ + cards_html(hosts, now) + "</main>\n"@
    }
}

/// The body of the page when the sessions could not be listed.
pub open spec fn error_html(message: Seq<char>) -> Seq<char> {
    "<div class=\"error\"><strong>could not list omp sessions</strong>\n<pre>"@ + escaped(message)
        + "</pre></div>\n"@
}

/// The page with `body` in it.
pub open spec fn page_html(body: Seq<char>) -> Seq<char> {
    HEAD@ + body + TAIL@
}

fn link(id: &str, kind: &str) -> (r: String)
    ensures
        r@ == link_html(id@, kind@),
{
    let mut r: String = "<a class=\"".to_owned();
    r.append(kind);
    r.append("\" href=\"/go/");
    r.append(id);
    r.append("/");
    r.append(kind);
    r.append("\" target=\"_blank\" rel=\"noopener noreferrer\">");
    r.append(kind);
    r.append("</a>");
    r
}

/// The small print of a card, piece by piece.
fn meta(host: &Host, now_ms: i64) -> (r: Vec<String>)
    ensures
        views(r@) == meta_parts(*host, now_ms),
{
    let mut meta: Vec<String> = Vec::new();
    if let Some(model) = host.model_label() {
        meta.push(escape_html(model.as_str()));
    }
    let mut participants: String = decimal_u64(host.participants as u64);
    participants.append(" participant");
    participants.append(
        if host.participants == 1 {
            ""
        } else {
            "s"
        },
    );
    meta.push(participants);
    let mut started: String = "started ".to_owned();
    started.append(started_label(host, now_ms).as_str());
    meta.push(started);
    assert(views(meta@) =~= meta_parts(*host, now_ms));
    meta
}

/// The card of one session.
pub fn render_card(host: &Host, now_ms: i64) -> (r: String)
    ensures
        r@ == card_html(*host, now_ms),
{
    let status = Status::of(host);
    let id = encode_segment(host.instance_id.as_str());
    let mut r: String = "<article class=\"card ".to_owned();
    r.append(status.class());
    r.append("\">\n<header><h2>");
    r.append(escape_html(host.display_name()).as_str());
    r.append("</h2><span class=\"badge ");
    r.append(status.class());
    r.append("\">");
    r.append(status.label());
    r.append("</span></header>\n<p class=\"cwd\">");
    r.append(escape_html(host.cwd.as_str()).as_str());
    r.append("</p>\n<p class=\"meta\">");
    r.append(join_strings(&meta(host, now_ms), " &middot; ").as_str());
    r.append("</p>\n<p class=\"links\">");
    r.append(link(id.as_str(), "view").as_str());
    r.append(link(id.as_str(), "control").as_str());
    r.append("<button type=\"button\" class=\"stop\" data-id=\"");
    r.append(id.as_str());
    r.append("\">close</button></p>\n</article>\n");
    r
}

/// The page with `body` in it.
pub fn wrap(body: &str) -> (r: String)
    ensures
        r@ == page_html(body@),
{
    let mut r: String = HEAD.to_owned();
    r.append(body);
    r.append(TAIL);
    r
}

/// The dashboard page for a successfully fetched host list.
pub fn render_page(hosts: &[Host], now_ms: i64) -> (r: String)
    ensures
        r@ == page_html(body_html(hosts@, now_ms)),
{
    if hosts.len() == 0 {
        return wrap(
            "<div class=\"note\"><p><strong>no live omp sessions</strong></p>\n<p>Start an interactive <code>omp</code>. To have sessions show up here without typing /collab, run <code>omp config set collab.autoStart control</code>.</p></div>\n",
        );
    }
    let mut cards: String = String::new();
    for i in 0..hosts.len()
        invariant
            cards@ == cards_html(hosts@.take(i as int), now_ms),
    {
        assert(hosts@.take(i + 1).drop_last() == hosts@.take(i as int));
        cards.append(render_card(&hosts[i], now_ms).as_str());
    }
    assert(hosts@.take(hosts@.len() as int) == hosts@);
    let mut body: String = "<main class=\"grid\">\n".to_owned();
    body.append(cards.as_str());
    body.append("</main>\n");
    wrap(body.as_str())
}

/// The dashboard page when the host list could not be fetched.
pub fn render_error(message: &str) -> (r: String)
    ensures
        r@ == page_html(error_html(message@)),
{
    let mut body: String =
        "<div class=\"error\"><strong>could not list omp sessions</strong>\n<pre>".to_owned();
    body.append(escape_html(message).as_str());
    body.append("</pre></div>\n");
    wrap(body.as_str())
}

/// The cells of the table's first line.
pub open spec fn header_row() -> Seq<Seq<char>> {
    seq!["NAME"@, "STATUS"@, "PARTICIPANTS"@, "STARTED"@, "MODEL"@, "CWD"@]
}

/// The cells of a session's line.
pub open spec fn host_row(host: Host, now: i64) -> Seq<Seq<char>> {
    seq![
        shown_name(host),
        status_label(status_of(host)),
        decimal(host.participants as nat),
        started_text(host, now),
        match label_of_model(host) {
            Some(label) => label,
            None => Seq::empty(),
        },
        host.cwd@,
    ]
}

/// The cells of the table: the header, then a line per session.
pub open spec fn table_rows(hosts: Seq<Host>, now: i64) -> Seq<Seq<Seq<char>>> {
    seq![header_row()] + hosts.map_values(|h: Host| host_row(h, now))
}

/// The width of column `col`: that of its widest cell.
pub open spec fn column_width(rows: Seq<Seq<Seq<char>>>, col: int) -> nat
    decreases rows.len(),
{
    if rows.len() == 0 {
        0
    } else {
        let before = column_width(rows.drop_last(), col);
        if rows.last()[col].len() > before {
            rows.last()[col].len()
        } else {
            before
        }
    }
}

/// A line of the table: the cells, each filled up to the width of its column,
/// two blanks apart, without blanks at the end.
pub open spec fn table_line(
    rows: Seq<Seq<Seq<char>>>,
    row: Seq<Seq<char>>,
) -> Seq<char> {
    trimmed_end(
        join(Seq::new(row.len(), |c: int| padded(row[c], column_width(rows, c))), "  "@),
    ) + "\n"@
}

/// The first `n` lines of the table.
pub open spec fn table_lines(rows: Seq<Seq<Seq<char>>>, n: nat) -> Seq<char>
    decreases n,
{
    if n == 0 {
        Seq::empty()
    } else {
        table_lines(rows, (n - 1) as nat) + table_line(rows, rows[n - 1])
    }
}

/// The table of the sessions, or a line that says there is none.
pub open spec fn table_text(hosts: Seq<Host>, now: i64) -> Seq<char> {
    if hosts.len() == 0 {
        "no live omp sessions\n"@
    } else {
        table_lines(table_rows(hosts, now), hosts.len() + 1)
    }
}

/// The views of the cells of a table.
pub open spec fn cells(rows: Seq<Vec<String>>) -> Seq<Seq<Seq<char>>> {
    rows.map_values(|row: Vec<String>| views(row@))
}

fn header() -> (r: Vec<String>)
    ensures
        views(r@) == header_row(),
{
    let mut r: Vec<String> = Vec::new();
    r.push("NAME".to_owned());
    r.push("STATUS".to_owned());
    r.push("PARTICIPANTS".to_owned());
    r.push("STARTED".to_owned());
    r.push("MODEL".to_owned());
    r.push("CWD".to_owned());
    assert(views(r@) =~= header_row());
    r
}

fn row_of(host: &Host, now_ms: i64) -> (r: Vec<String>)
    ensures
        views(r@) == host_row(*host, now_ms),
{
    let mut r: Vec<String> = Vec::new();
    r.push(host.display_name().to_owned());
    r.push(Status::of(host).label().to_owned());
    r.push(decimal_u64(host.participants as u64));
    r.push(started_label(host, now_ms));
    r.push(
        match host.model_label() {
            Some(label) => label,
            None => String::new(),
        },
    );
    r.push(host.cwd.clone());
    assert(views(r@) =~= host_row(*host, now_ms));
    r
}

/// The width of a column.
fn width_of(rows: &Vec<Vec<String>>, col: usize) -> (w: usize)
    requires
        forall|i: int| 0 <= i < rows@.len() ==> col < (#[trigger] rows@[i])@.len(),
    ensures
        w == column_width(cells(rows@), col as int),
{
    let mut w: usize = 0;
    let ghost all = cells(rows@);
    for i in 0..rows.len()
        invariant
            all == cells(rows@),
            forall|i: int| 0 <= i < rows@.len() ==> col < (#[trigger] rows@[i])@.len(),
            w == column_width(all.take(i as int), col as int),
    {
        assert(all.take(i + 1).drop_last() == all.take(i as int));
        let n = rows[i][col].as_str().unicode_len();
        assert(all[i as int][col as int] == rows@[i as int]@[col as int]@);
        if n > w {
            w = n;
        }
    }
    assert(all.take(rows@.len() as int) == all);
    w
}

/// A line of the table.
fn line_of(rows: &Vec<Vec<String>>, i: usize, widths: &Vec<usize>) -> (r: String)
    requires
        i < rows@.len(),
        widths@.len() == rows@[i as int]@.len(),
        forall|c: int|
            0 <= c < widths@.len() ==> #[trigger] widths@[c] == column_width(cells(rows@), c),
    ensures
        r@ == table_line(cells(rows@), cells(rows@)[i as int]),
{
    let row = &rows[i];
    let ghost all = cells(rows@);
    let ghost want = Seq::new(
        all[i as int].len(),
        |c: int| padded(all[i as int][c], column_width(all, c)),
    );
    let mut line: Vec<String> = Vec::new();
    for c in 0..row.len()
        invariant
            i < rows@.len(),
            *row == rows@[i as int],
            all == cells(rows@),
            widths@.len() == row@.len(),
            forall|c: int| 0 <= c < widths@.len() ==> #[trigger] widths@[c] == column_width(all, c),
            want == Seq::new(
                all[i as int].len(),
                |c: int| padded(all[i as int][c], column_width(all, c)),
            ),
            views(line@) == want.take(c as int),
    {
        let ghost before = line@;
        line.push(pad(row[c].as_str(), widths[c]));
        assert(views(line@) =~= views(before).push(line@.last()@));
        assert(all[i as int][c as int] == row@[c as int]@);
        assert(want.take(c + 1) =~= want.take(c as int).push(want[c as int]));
    }
    assert(want.take(row@.len() as int) == want);
    let joined = join_strings(&line, "  ");
    let mut r: String = trim_end(joined.as_str()).to_owned();
    r.append("\n");
    r
}

/// Plain-text table for `omp-deck list`.
pub fn render_table(hosts: &[Host], now_ms: i64) -> (r: String)
    ensures
        r@ == table_text(hosts@, now_ms),
{
    if hosts.len() == 0 {
        return "no live omp sessions\n".to_owned();
    }
    let mut rows: Vec<Vec<String>> = Vec::new();
    rows.push(header());
    let ghost want = table_rows(hosts@, now_ms);
    assert(cells(rows@) =~= want.take(1));
    for i in 0..hosts.len()
        invariant
            want == table_rows(hosts@, now_ms),
            cells(rows@) == want.take(i + 1),
    {
        let ghost before = rows@;
        rows.push(row_of(&hosts[i], now_ms));
        assert(cells(rows@) =~= cells(before).push(views(rows@.last()@)));
        assert(want[i + 1] == host_row(hosts@[i as int], now_ms));
        assert(want.take(i + 2) =~= want.take(i + 1).push(want[i + 1]));
    }
    assert(want.take(want.len() as int) == want);
    assert forall|i: int| 0 <= i < rows@.len() implies (#[trigger] rows@[i])@.len() == 6 by {
        assert(cells(rows@)[i] == want[i]);
        assert(views(rows@[i]@).len() == rows@[i]@.len());
    }
    let mut widths: Vec<usize> = Vec::new();
    for c in 0..6usize
        invariant
            forall|i: int| 0 <= i < rows@.len() ==> (#[trigger] rows@[i])@.len() == 6,
            widths@.len() == c,
            forall|k: int| 0 <= k < c ==> #[trigger] widths@[k] == column_width(cells(rows@), k),
    {
        widths.push(width_of(&rows, c));
    }
    let mut out: String = String::new();
    for i in 0..rows.len()
        invariant
            forall|i: int| 0 <= i < rows@.len() ==> (#[trigger] rows@[i])@.len() == 6,
            widths@.len() == 6,
            forall|k: int| 0 <= k < 6 ==> #[trigger] widths@[k] == column_width(cells(rows@), k),
            out@ == table_lines(cells(rows@), i as nat),
    {
        out.append(line_of(&rows, i, &widths).as_str());
    }
    out
}

/// Escaped text holds none of the characters that end element content or a
/// quoted attribute.
pub proof fn escaped_text_holds_no_markup(s: Seq<char>, i: int)
    requires
        0 <= i < escaped(s).len(),
    ensures
        escaped(s)[i] != '<',
        escaped(s)[i] != '>',
        escaped(s)[i] != '"',
        escaped(s)[i] != '\'',
    decreases s.len(),
{
    reveal_strlit("&amp;");
    reveal_strlit("&lt;");
    reveal_strlit("&gt;");
    reveal_strlit("&quot;");
    reveal_strlit("&#39;");
    let before = escaped(s.drop_last());
    if i < before.len() {
        escaped_text_holds_no_markup(s.drop_last(), i);
    } else {
        assert(escaped(s)[i] == escaped_char(s.last())[i - before.len()]);
    }
}

/// Escaping a text is escaping its parts.
pub proof fn escaped_add(a: Seq<char>, b: Seq<char>)
    ensures
        escaped(a + b) == escaped(a) + escaped(b),
    decreases b.len(),
{
    if b.len() == 0 {
        assert(a + b == a);
    } else {
        assert((a + b).drop_last() == a + b.drop_last());
        escaped_add(a, b.drop_last());
        assert(escaped(a + b) == escaped(a) + escaped(b));
    }
}

/// Escaping loses nothing: different texts stay different.
pub proof fn escaping_is_injective(a: Seq<char>, b: Seq<char>)
    requires
        escaped(a) == escaped(b),
    ensures
        a == b,
    decreases a.len(),
{
    reveal_strlit("&amp;");
    reveal_strlit("&lt;");
    reveal_strlit("&gt;");
    reveal_strlit("&quot;");
    reveal_strlit("&#39;");
    if a.len() > 0 && b.len() > 0 {
        let (ca, cb) = (escaped_char(a[0]), escaped_char(b[0]));
        escaped_first(a);
        escaped_first(b);
        let t = escaped(a);
        assert(t[0] == ca[0] && t[0] == cb[0]);
        if t[0] == '&' {
            assert(t[1] == ca[1] && t[1] == cb[1]);
        }
        assert(a[0] == b[0]);
        assert(escaped(a.drop_first()) == t.skip(ca.len() as int));
        assert(escaped(b.drop_first()) == t.skip(ca.len() as int));
        escaping_is_injective(a.drop_first(), b.drop_first());
        assert(a == seq![a[0]] + a.drop_first());
        assert(b == seq![b[0]] + b.drop_first());
    } else {
        if a.len() > 0 {
            escaped_first(a);
            assert(escaped(a).len() > 0);
            assert(escaped(b).len() == 0);
        }
        if b.len() > 0 {
            escaped_first(b);
            assert(escaped(b).len() > 0);
            assert(escaped(a).len() == 0);
        }
        assert(a =~= b);
    }
}

proof fn escaped_first(s: Seq<char>)
    requires
        s.len() > 0,
    ensures
        escaped(s) == escaped_char(s[0]) + escaped(s.drop_first()),
        escaped_char(s[0]).len() > 0,
{
    reveal_strlit("&amp;");
    reveal_strlit("&lt;");
    reveal_strlit("&gt;");
    reveal_strlit("&quot;");
    reveal_strlit("&#39;");
    let first = seq![s[0]];
    assert(s == first + s.drop_first());
    escaped_add(first, s.drop_first());
    assert(first.drop_last() == Seq::<char>::empty());
    assert(escaped(first.drop_last()) == Seq::<char>::empty());
    assert(escaped(first) == escaped_char(s[0]));
}

/// A path segment holds only unreserved characters and percent signs; so it
/// never ends the segment or the attribute that it stands in.
pub proof fn segment_is_unreserved(s: Seq<char>, i: int)
    requires
        0 <= i < segment(s).len(),
    ensures
        segment(s)[i] == '%' || (segment(s)[i] as int <= 127 && is_unreserved(segment(s)[i] as u8)),
{
    encoded_is_unreserved(encode_utf8(s), i);
}

proof fn encoded_is_unreserved(bytes: Seq<u8>, i: int)
    requires
        0 <= i < encoded(bytes).len(),
    ensures
        encoded(bytes)[i] == '%' || (encoded(bytes)[i] as int <= 127 && is_unreserved(
            encoded(bytes)[i] as u8,
        )),
    decreases bytes.len(),
{
    let first = encoded_byte(bytes[0]);
    if i < first.len() {
        assert(encoded(bytes)[i] == first[i]);
    } else {
        encoded_is_unreserved(bytes.drop_first(), i - first.len());
    }
}

/// The value of a hexadecimal digit in upper case.
pub open spec fn digit_value(c: char) -> int {
    if c <= '9' {
        c as int - '0' as int
    } else {
        c as int - 'A' as int + 10
    }
}

/// The bytes that a percent-encoded text stands for.
pub open spec fn percent_decoded(s: Seq<char>) -> Seq<u8>
    decreases s.len(),
{
    if s.len() == 0 {
        Seq::empty()
    } else if s[0] == '%' && s.len() >= 3 {
        seq![(digit_value(s[1]) * 16 + digit_value(s[2])) as u8] + percent_decoded(s.skip(3))
    } else {
        seq![s[0] as u8] + percent_decoded(s.skip(1))
    }
}

/// A path segment stands for the text it was made of: decoding gives its UTF-8
/// bytes back, and from those the text.
pub proof fn segment_round_trip(s: Seq<char>)
    ensures
        percent_decoded(segment(s)) == encode_utf8(s),
        decode_utf8(percent_decoded(segment(s))) == s,
{
    encoded_round_trip(encode_utf8(s));
    encode_utf8_decode_utf8(s);
}

proof fn encoded_round_trip(bytes: Seq<u8>)
    ensures
        percent_decoded(encoded(bytes)) == bytes,
    decreases bytes.len(),
{
    if bytes.len() > 0 {
        let b = bytes[0];
        let rest = encoded(bytes.drop_first());
        encoded_round_trip(bytes.drop_first());
        assert(encoded(bytes).skip(encoded_byte(b).len() as int) == rest);
        assert(bytes == seq![b] + bytes.drop_first());
        if !is_unreserved(b) {
            let (h, l) = ((b / 16) as nat, (b % 16) as nat);
            assert(encoded(bytes)[1] == digit(h));
            assert(encoded(bytes)[2] == digit(l));
            assert(digit_value(digit(h)) == h && digit_value(digit(l)) == l);
        } else {
            assert(encoded(bytes)[0] == b as char);
        }
    }
}

/// The dashboard shows the card of every session, whole and in its place: before
/// it stand the cards of the sessions listed before, and behind it those of the
/// sessions listed after.
pub proof fn every_session_has_its_card(hosts: Seq<Host>, now: i64, i: int)
    requires
        0 <= i < hosts.len(),
    ensures
        page_html(body_html(hosts, now)) == HEAD@ + ("<main class=\"grid\">\n"@ + (cards_html(
            hosts.take(i),
            now,
        ) + card_html(hosts[i], now) + cards_html(hosts.skip(i + 1), now)) + "</main>\n"@) + TAIL@,
{
    assert(hosts =~= hosts.take(i + 1) + hosts.skip(i + 1));
    cards_add(hosts.take(i + 1), hosts.skip(i + 1), now);
    assert(hosts.take(i + 1).drop_last() =~= hosts.take(i));
}

/// The cards of a list are those of its parts.
proof fn cards_add(a: Seq<Host>, b: Seq<Host>, now: i64)
    ensures
        cards_html(a + b, now) == cards_html(a, now) + cards_html(b, now),
    decreases b.len(),
{
    if b.len() == 0 {
        assert(a + b =~= a);
    } else {
        assert((a + b).drop_last() =~= a + b.drop_last());
        cards_add(a, b.drop_last(), now);
        assert(cards_html(a + b, now) =~= cards_html(a, now) + cards_html(b, now));
    }
}

/// Whatever the sessions call themselves, their models and their directories,
/// the pages of as many sessions hold as many opening and closing angle brackets
/// and as many quotes: nothing that a session reports adds markup.
pub proof fn sessions_cannot_add_markup(
    a: Seq<Host>,
    now_a: i64,
    b: Seq<Host>,
    now_b: i64,
    c: char,
)
    requires
        a.len() == b.len(),
        c == '<' || c == '>' || c == '"' || c == '\'',
    ensures
        occurrences(page_html(body_html(a, now_a)), c) == occurrences(
            page_html(body_html(b, now_b)),
            c,
        ),
{
    if a.len() > 0 {
        let open = "<main class=\"grid\">\n"@;
        cards_markup(a, now_a, b, now_b, c);
        occurrences_add(open, cards_html(a, now_a), c);
        occurrences_add(open, cards_html(b, now_b), c);
        occurrences_add(open + cards_html(a, now_a), "</main>\n"@, c);
        occurrences_add(open + cards_html(b, now_b), "</main>\n"@, c);
    }
    page_markup(body_html(a, now_a), body_html(b, now_b), c);
}

/// Whatever an error says, its page holds as many angle brackets and quotes as
/// that of any other error.
pub proof fn errors_cannot_add_markup(a: Seq<char>, b: Seq<char>, c: char)
    requires
        c == '<' || c == '>' || c == '"' || c == '\'',
    ensures
        occurrences(page_html(error_html(a)), c) == occurrences(page_html(error_html(b)), c),
{
    let open = "<div class=\"error\"><strong>could not list omp sessions</strong>\n<pre>"@;
    escaped_markup(a, c);
    escaped_markup(b, c);
    occurrences_add(open, escaped(a), c);
    occurrences_add(open, escaped(b), c);
    occurrences_add(open + escaped(a), "</pre></div>\n"@, c);
    occurrences_add(open + escaped(b), "</pre></div>\n"@, c);
    page_markup(error_html(a), error_html(b), c);
}

/// Pages whose bodies hold `c` equally often do so too.
proof fn page_markup(a: Seq<char>, b: Seq<char>, c: char)
    requires
        occurrences(a, c) == occurrences(b, c),
    ensures
        occurrences(page_html(a), c) == occurrences(page_html(b), c),
{
    occurrences_add(HEAD@, a, c);
    occurrences_add(HEAD@, b, c);
    occurrences_add(HEAD@ + a, TAIL@, c);
    occurrences_add(HEAD@ + b, TAIL@, c);
}

proof fn cards_markup(a: Seq<Host>, now_a: i64, b: Seq<Host>, now_b: i64, c: char)
    requires
        a.len() == b.len(),
        c == '<' || c == '>' || c == '"' || c == '\'',
    ensures
        occurrences(cards_html(a, now_a), c) == occurrences(cards_html(b, now_b), c),
    decreases a.len(),
{
    if a.len() > 0 {
        card_markup(a.last(), now_a, c);
        card_markup(b.last(), now_b, c);
        occurrences_add(cards_html(a.drop_last(), now_a), card_html(a.last(), now_a), c);
        occurrences_add(cards_html(b.drop_last(), now_b), card_html(b.last(), now_b), c);
        cards_markup(a.drop_last(), now_a, b.drop_last(), now_b, c);
    }
}

/// How often `c` stands in the part of a card that is the same for all sessions.
spec fn card_frame_markup(c: char) -> nat {
    occurrences("<article class=\"card "@, c) + occurrences("\">\n<header><h2>"@, c)
        + occurrences("</h2><span class=\"badge "@, c) + occurrences("\">"@, c) + occurrences(
        "</span></header>\n<p class=\"cwd\">"@,
        c,
    ) + occurrences("</p>\n<p class=\"meta\">"@, c) + occurrences("</p>\n<p class=\"links\">"@, c)
        + 2 * link_frame_markup(c) + occurrences(
        "<button type=\"button\" class=\"stop\" data-id=\""@,
        c,
    ) + occurrences("\">close</button></p>\n</article>\n"@, c)
}

/// How often `c` stands in the part of a link that is the same for all sessions.
spec fn link_frame_markup(c: char) -> nat {
    occurrences("<a class=\""@, c) + occurrences("\" href=\"/go/"@, c) + occurrences("/"@, c)
        + occurrences("\" target=\"_blank\" rel=\"noopener noreferrer\">"@, c) + occurrences(
        "</a>"@,
        c,
    )
}

proof fn link_markup(id: Seq<char>, kind: Seq<char>, c: char)
    requires
        occurrences(id, c) == 0,
        occurrences(kind, c) == 0,
    ensures
        occurrences(link_html(id, kind), c) == link_frame_markup(c),
{
    let t1 = "<a class=\""@;
    let t2 = t1 + kind;
    let t3 = t2 + "\" href=\"/go/"@;
    let t4 = t3 + id;
    let t5 = t4 + "/"@;
    let t6 = t5 + kind;
    let t7 = t6 + "\" target=\"_blank\" rel=\"noopener noreferrer\">"@;
    let t8 = t7 + kind;
    occurrences_add(t1, kind, c);
    occurrences_add(t2, "\" href=\"/go/"@, c);
    occurrences_add(t3, id, c);
    occurrences_add(t4, "/"@, c);
    occurrences_add(t5, kind, c);
    occurrences_add(t6, "\" target=\"_blank\" rel=\"noopener noreferrer\">"@, c);
    occurrences_add(t7, kind, c);
    occurrences_add(t8, "</a>"@, c);
}

proof fn escaped_markup(s: Seq<char>, c: char)
    requires
        c == '<' || c == '>' || c == '"' || c == '\'',
    ensures
        occurrences(escaped(s), c) == 0,
{
    assert forall|i: int| 0 <= i < escaped(s).len() implies escaped(s)[i] != c by {
        escaped_text_holds_no_markup(s, i);
    }
    occurrences_none(escaped(s), c);
}

proof fn segment_markup(s: Seq<char>, c: char)
    requires
        c == '<' || c == '>' || c == '"' || c == '\'',
    ensures
        occurrences(segment(s), c) == 0,
{
    assert forall|i: int| 0 <= i < segment(s).len() implies segment(s)[i] != c by {
        segment_is_unreserved(s, i);
    }
    occurrences_none(segment(s), c);
}

proof fn decimal_markup(n: nat, c: char)
    requires
        !('0' <= c <= '9'),
    ensures
        occurrences(decimal(n), c) == 0,
{
    assert forall|i: int| 0 <= i < decimal(n).len() implies decimal(n)[i] != c by {
        decimal_is_digits(n, i);
    }
    occurrences_none(decimal(n), c);
}

proof fn started_markup(host: Host, now: i64, c: char)
    requires
        c == '<' || c == '>' || c == '"' || c == '\'' || c == '\n',
    ensures
        occurrences(started_text(host, now), c) == 0,
{
    reveal_strlit("unknown");
    reveal_strlit("just now");
    reveal_strlit("s ago");
    reveal_strlit("m ago");
    reveal_strlit("h ago");
    reveal_strlit("d ago");
    occurrences_none("unknown"@, c);
    occurrences_none("just now"@, c);
    occurrences_none("s ago"@, c);
    occurrences_none("m ago"@, c);
    occurrences_none("h ago"@, c);
    occurrences_none("d ago"@, c);
    if let Some(t) = host.started_at {
        let secs = (age_ms(t, now) / 1000) as nat;
        decimal_markup(secs, c);
        decimal_markup(secs / 60, c);
        decimal_markup(secs / 3600, c);
        decimal_markup(secs / 86_400, c);
        occurrences_add(decimal(secs), "s ago"@, c);
        occurrences_add(decimal(secs / 60), "m ago"@, c);
        occurrences_add(decimal(secs / 3600), "h ago"@, c);
        occurrences_add(decimal(secs / 86_400), "d ago"@, c);
    }
}

proof fn status_markup(status: Status, c: char)
    requires
        c == '<' || c == '>' || c == '"' || c == '\'' || c == '\n',
    ensures
        occurrences(status_class(status), c) == 0,
        occurrences(status_label(status), c) == 0,
{
    reveal_strlit("input");
    reveal_strlit("busy");
    reveal_strlit("idle");
    reveal_strlit("input required");
    occurrences_none(status_class(status), c);
    occurrences_none(status_label(status), c);
}

proof fn join_markup(parts: Seq<Seq<char>>, sep: Seq<char>, c: char)
    requires
        occurrences(sep, c) == 0,
        forall|i: int| 0 <= i < parts.len() ==> occurrences(#[trigger] parts[i], c) == 0,
    ensures
        occurrences(join(parts, sep), c) == 0,
    decreases parts.len(),
{
    if parts.len() > 1 {
        let before = parts.drop_last();
        assert forall|i: int| 0 <= i < before.len() implies occurrences(
            #[trigger] before[i],
            c,
        ) == 0 by {
            assert(before[i] == parts[i]);
        }
        join_markup(before, sep, c);
        occurrences_add(join(before, sep), sep, c);
        occurrences_add(join(before, sep) + sep, parts.last(), c);
    }
}

proof fn meta_markup(host: Host, now: i64, c: char)
    requires
        c == '<' || c == '>' || c == '"' || c == '\'',
    ensures
        occurrences(join(meta_parts(host, now), " &middot; "@), c) == 0,
{
    reveal_strlit(" &middot; ");
    reveal_strlit(" participant");
    reveal_strlit("");
    reveal_strlit("s");
    reveal_strlit("started ");
    occurrences_none(" &middot; "@, c);
    occurrences_none(" participant"@, c);
    occurrences_none(""@, c);
    occurrences_none("s"@, c);
    occurrences_none("started "@, c);
    let n = decimal(host.participants as nat);
    decimal_markup(host.participants as nat, c);
    occurrences_add(n, " participant"@, c);
    occurrences_add(n + " participant"@, ""@, c);
    occurrences_add(n + " participant"@, "s"@, c);
    started_markup(host, now, c);
    occurrences_add("started "@, started_text(host, now), c);
    if let Some(label) = label_of_model(host) {
        escaped_markup(label, c);
    }
    let parts = meta_parts(host, now);
    assert forall|i: int| 0 <= i < parts.len() implies occurrences(#[trigger] parts[i], c)
        == 0 by {
        if label_of_model(host) is Some {
            assert(i == 0 || i == 1 || i == 2);
        } else {
            assert(i == 0 || i == 1);
        }
    }
    join_markup(parts, " &middot; "@, c);
}

proof fn card_markup(host: Host, now: i64, c: char)
    requires
        c == '<' || c == '>' || c == '"' || c == '\'',
    ensures
        occurrences(card_html(host, now), c) == card_frame_markup(c),
{
    let class = status_class(status_of(host));
    let label = status_label(status_of(host));
    let id = segment(host.instance_id@);
    let name = escaped(shown_name(host));
    let cwd = escaped(host.cwd@);
    let meta = join(meta_parts(host, now), " &middot; "@);
    status_markup(status_of(host), c);
    segment_markup(host.instance_id@, c);
    escaped_markup(shown_name(host), c);
    escaped_markup(host.cwd@, c);
    meta_markup(host, now, c);
    reveal_strlit("view");
    reveal_strlit("control");
    occurrences_none("view"@, c);
    occurrences_none("control"@, c);
    link_markup(id, "view"@, c);
    link_markup(id, "control"@, c);
    let t1 = "<article class=\"card "@;
    let t2 = t1 + class;
    let t3 = t2 + "\">\n<header><h2>"@;
    let t4 = t3 + name;
    let t5 = t4 + "</h2><span class=\"badge "@;
    let t6 = t5 + class;
    let t7 = t6 + "\">"@;
    let t8 = t7 + label;
    let t9 = t8 + "</span></header>\n<p class=\"cwd\">"@;
    let t10 = t9 + cwd;
    let t11 = t10 + "</p>\n<p class=\"meta\">"@;
    let t12 = t11 + meta;
    let t13 = t12 + "</p>\n<p class=\"links\">"@;
    let t14 = t13 + link_html(id, "view"@);
    let t15 = t14 + link_html(id, "control"@);
    let t16 = t15 + "<button type=\"button\" class=\"stop\" data-id=\""@;
    let t17 = t16 + id;
    occurrences_add(t1, class, c);
    occurrences_add(t2, "\">\n<header><h2>"@, c);
    occurrences_add(t3, name, c);
    occurrences_add(t4, "</h2><span class=\"badge "@, c);
    occurrences_add(t5, class, c);
    occurrences_add(t6, "\">"@, c);
    occurrences_add(t7, label, c);
    occurrences_add(t8, "</span></header>\n<p class=\"cwd\">"@, c);
    occurrences_add(t9, cwd, c);
    occurrences_add(t10, "</p>\n<p class=\"meta\">"@, c);
    occurrences_add(t11, meta, c);
    occurrences_add(t12, "</p>\n<p class=\"links\">"@, c);
    occurrences_add(t13, link_html(id, "view"@), c);
    occurrences_add(t14, link_html(id, "control"@), c);
    occurrences_add(t15, "<button type=\"button\" class=\"stop\" data-id=\""@, c);
    occurrences_add(t16, id, c);
    occurrences_add(t17, "\">close</button></p>\n</article>\n"@, c);
}

/// The cells of the table that come from a session hold no line break.
pub open spec fn is_one_line(host: Host) -> bool {
    &&& occurrences(shown_name(host), '\n') == 0
    &&& occurrences(host.cwd@, '\n') == 0
    &&& label_of_model(host) matches Some(label) ==> occurrences(label, '\n') == 0
}

/// The table has a line per session, and one more: the header, or the line that
/// says there is none.
pub proof fn table_has_a_line_per_session(hosts: Seq<Host>, now: i64)
    requires
        forall|i: int| 0 <= i < hosts.len() ==> is_one_line(#[trigger] hosts[i]),
    ensures
        occurrences(table_text(hosts, now), '\n') == hosts.len() + 1,
{
    if hosts.len() == 0 {
        reveal_strlit("no live omp sessions\n");
        let text = "no live omp sessions\n"@;
        let line = text.drop_last();
        assert forall|i: int| 0 <= i < line.len() implies line[i] != '\n' by {}
        occurrences_none(line, '\n');
    } else {
        let rows = table_rows(hosts, now);
        assert forall|i: int, c: int| 0 <= i < rows.len() && 0 <= c < rows[i].len() implies
            occurrences(#[trigger] rows[i][c], '\n') == 0 by {
            if i == 0 {
                header_markup(c);
            } else {
                assert(is_one_line(hosts[i - 1]));
                row_markup(hosts[i - 1], now, c);
            }
        }
        lines_markup(rows, rows.len());
    }
}

proof fn header_markup(c: int)
    requires
        0 <= c < header_row().len(),
    ensures
        occurrences(header_row()[c], '\n') == 0,
{
    reveal_strlit("NAME");
    reveal_strlit("STATUS");
    reveal_strlit("PARTICIPANTS");
    reveal_strlit("STARTED");
    reveal_strlit("MODEL");
    reveal_strlit("CWD");
    occurrences_none(header_row()[c], '\n');
}

proof fn row_markup(host: Host, now: i64, c: int)
    requires
        is_one_line(host),
        0 <= c < host_row(host, now).len(),
    ensures
        occurrences(host_row(host, now)[c], '\n') == 0,
{
    status_markup(status_of(host), '\n');
    decimal_markup(host.participants as nat, '\n');
    started_markup(host, now, '\n');
    assert(c == 0 || c == 1 || c == 2 || c == 3 || c == 4 || c == 5);
}

proof fn lines_markup(rows: Seq<Seq<Seq<char>>>, n: nat)
    requires
        n <= rows.len(),
        forall|i: int, c: int|
            0 <= i < rows.len() && 0 <= c < rows[i].len() ==> occurrences(
                #[trigger] rows[i][c],
                '\n',
            ) == 0,
    ensures
        occurrences(table_lines(rows, n), '\n') == n,
    decreases n,
{
    if n > 0 {
        let row = rows[n - 1];
        let filled = Seq::new(row.len(), |c: int| padded(row[c], column_width(rows, c)));
        assert forall|c: int| 0 <= c < filled.len() implies occurrences(#[trigger] filled[c], '\n')
            == 0 by {
            let blanks = filled[c].skip(row[c].len() as int);
            assert(filled[c] =~= row[c] + blanks);
            assert forall|i: int| 0 <= i < blanks.len() implies blanks[i] != '\n' by {}
            occurrences_none(blanks, '\n');
            occurrences_add(row[c], blanks, '\n');
            assert(occurrences(rows[n - 1][c], '\n') == 0);
        }
        reveal_strlit("  ");
        occurrences_none("  "@, '\n');
        join_markup(filled, "  "@, '\n');
        let line = join(filled, "  "@);
        let kept = trimmed_end(line);
        trimmed_end_is_prefix(line);
        occurrences_add(kept, line.skip(kept.len() as int), '\n');
        assert(line =~= kept + line.skip(kept.len() as int));
        reveal_strlit("\n");
        assert("\n"@.drop_last().len() == 0);
        assert(occurrences("\n"@.drop_last(), '\n') == 0);
        assert(occurrences("\n"@, '\n') == 1);
        occurrences_add(kept, "\n"@, '\n');
        lines_markup(rows, (n - 1) as nat);
        occurrences_add(table_lines(rows, (n - 1) as nat), table_line(rows, row), '\n');
    }
}

/// The cells before column `c` of a row, filled up and joined.
pub open spec fn before_column(
    rows: Seq<Seq<Seq<char>>>,
    row: Seq<Seq<char>>,
    c: int,
) -> Seq<char> {
    join(Seq::new(c as nat, |k: int| padded(row[k], column_width(rows, k))), "  "@)
}

/// The columns line up: what stands before a column is equally long in any two
/// rows.
pub proof fn columns_line_up(hosts: Seq<Host>, now: i64, i: int, j: int, c: int)
    requires
        0 <= i < table_rows(hosts, now).len(),
        0 <= j < table_rows(hosts, now).len(),
        0 <= c <= 6,
    ensures
        before_column(table_rows(hosts, now), table_rows(hosts, now)[i], c).len() == before_column(
            table_rows(hosts, now),
            table_rows(hosts, now)[j],
            c,
        ).len(),
    decreases c,
{
    let rows = table_rows(hosts, now);
    if c > 0 {
        columns_line_up(hosts, now, i, j, c - 1);
        let a = Seq::new(c as nat, |k: int| padded(rows[i][k], column_width(rows, k)));
        let b = Seq::new(c as nat, |k: int| padded(rows[j][k], column_width(rows, k)));
        assert(a.drop_last() =~= Seq::new(
            (c - 1) as nat,
            |k: int| padded(rows[i][k], column_width(rows, k)),
        ));
        assert(b.drop_last() =~= Seq::new(
            (c - 1) as nat,
            |k: int| padded(rows[j][k], column_width(rows, k)),
        ));
        column_holds_cell(rows, i, c - 1);
        column_holds_cell(rows, j, c - 1);
    }
}

/// No cell is wider than its column.
proof fn column_holds_cell(rows: Seq<Seq<Seq<char>>>, i: int, c: int)
    requires
        0 <= i < rows.len(),
    ensures
        rows[i][c].len() <= column_width(rows, c),
    decreases rows.len(),
{
    if i < rows.len() - 1 {
        column_holds_cell(rows.drop_last(), i, c);
    }
}

/// The text that HTML stands for, as far as it holds the five entities that
/// escaping makes.
pub open spec fn html_decoded(s: Seq<char>) -> Seq<char>
    decreases s.len(),
{
    if s.len() == 0 {
        Seq::empty()
    } else if s[0] != '&' {
        seq![s[0]] + html_decoded(s.skip(1))
    } else if s.len() >= 5 && s.take(5) == seq!['&', 'a', 'm', 'p', ';'] {
        seq!['&'] + html_decoded(s.skip(5))
    } else if s.len() >= 4 && s.take(4) == seq!['&', 'l', 't', ';'] {
        seq!['<'] + html_decoded(s.skip(4))
    } else if s.len() >= 4 && s.take(4) == seq!['&', 'g', 't', ';'] {
        seq!['>'] + html_decoded(s.skip(4))
    } else if s.len() >= 6 && s.take(6) == seq!['&', 'q', 'u', 'o', 't', ';'] {
        seq!['"'] + html_decoded(s.skip(6))
    } else if s.len() >= 5 && s.take(5) == seq!['&', '#', '3', '9', ';'] {
        seq!['\''] + html_decoded(s.skip(5))
    } else {
        seq!['&'] + html_decoded(s.skip(1))
    }
}

/// Escaped text stands for the text it was made of.
pub proof fn escaped_text_shows_the_text(s: Seq<char>)
    ensures
        html_decoded(escaped(s)) == s,
    decreases s.len(),
{
    if s.len() > 0 {
        reveal_strlit("&amp;");
        reveal_strlit("&lt;");
        reveal_strlit("&gt;");
        reveal_strlit("&quot;");
        reveal_strlit("&#39;");
        escaped_first(s);
        escaped_text_shows_the_text(s.drop_first());
        let e = escaped_char(s[0]);
        let rest = escaped(s.drop_first());
        let t = e + rest;
        assert(t.skip(e.len() as int) =~= rest);
        assert(t.take(e.len() as int) =~= e);
        assert(t[0] == e[0]);
        assert(s =~= seq![s[0]] + s.drop_first());
        if s[0] == '&' {
            assert(t.take(5) =~= seq!['&', 'a', 'm', 'p', ';']);
        } else if s[0] == '<' {
            assert(t.take(4) =~= seq!['&', 'l', 't', ';']);
            assert(t.len() >= 5 ==> t.take(5)[1] == 'l');
            assert(seq!['&', 'a', 'm', 'p', ';'][1] == 'a');
        } else if s[0] == '>' {
            assert(t.take(4) =~= seq!['&', 'g', 't', ';']);
            assert(t.len() >= 5 ==> t.take(5)[1] == 'g');
            assert(seq!['&', 'a', 'm', 'p', ';'][1] == 'a');
            assert(seq!['&', 'l', 't', ';'][1] == 'l');
            assert(t.take(4)[1] == 'g');
        } else if s[0] == '"' {
            assert(t.take(6) =~= seq!['&', 'q', 'u', 'o', 't', ';']);
            assert(t.take(5)[1] == 'q' && t.take(4)[1] == 'q');
            assert(seq!['&', 'a', 'm', 'p', ';'][1] == 'a');
            assert(seq!['&', 'l', 't', ';'][1] == 'l');
            assert(seq!['&', 'g', 't', ';'][1] == 'g');
        } else if s[0] == '\'' {
            assert(t.take(5) =~= seq!['&', '#', '3', '9', ';']);
            assert(t.take(5)[1] == '#' && t.take(4)[1] == '#');
            assert(t.len() >= 6 ==> t.take(6)[1] == '#');
            assert(seq!['&', 'a', 'm', 'p', ';'][1] == 'a');
            assert(seq!['&', 'l', 't', ';'][1] == 'l');
            assert(seq!['&', 'g', 't', ';'][1] == 'g');
            assert(seq!['&', 'q', 'u', 'o', 't', ';'][1] == 'q');
        }
    }
}

/// Letters, digits, hyphens, underscores, dots and tildes stand for themselves in a
/// path segment.
pub proof fn unreserved_text_stays_as_it_is(s: Seq<char>)
    requires
        forall|i: int|
            0 <= i < s.len() ==> {
                let c = #[trigger] s[i];
                'a' <= c <= 'z' || 'A' <= c <= 'Z' || '0' <= c <= '9' || c == '-' || c == '_' || c
                    == '.' || c == '~'
            },
    ensures
        segment(s) == s,
    decreases s.len(),
{
    if s.len() > 0 {
        let rest = s.drop_first();
        let c = s[0];
        assert forall|i: int| 0 <= i < rest.len() implies {
            let c = #[trigger] rest[i];
            'a' <= c <= 'z' || 'A' <= c <= 'Z' || '0' <= c <= '9' || c == '-' || c == '_' || c
                == '.' || c == '~'
        } by {
            assert(rest[i] == s[i + 1]);
        }
        unreserved_text_stays_as_it_is(rest);
        let b = c as u8;
        let v = c as u32;
        assert(v & 0x7f == v) by (bit_vector)
            requires
                v <= 0x7f,
        ;
        assert(encode_scalar(v) =~= seq![b]);
        let bytes = encode_utf8(s);
        assert(bytes == seq![b] + encode_utf8(rest));
        assert(bytes[0] == b);
        assert(bytes.drop_first() =~= encode_utf8(rest));
        assert(is_unreserved(b));
        assert(encoded(bytes) =~= seq![c] + segment(rest));
        assert(s =~= seq![c] + rest);
    }
}

/// An age is told in whole seconds, minutes, hours or days, in the largest unit of
/// which it has at least one; below ten seconds it is not told apart.
pub proof fn an_age_is_told_in_whole_units(started: i64, now: i64, n: nat, ms: int)
    requires
        i64::MIN <= now - started <= i64::MAX,
    ensures
        now - started < 10_000 ==> age_text(started, now) == "just now"@,
        10 <= n < 60 && 0 <= ms < 1000 && now - started == n * 1000 + ms ==> age_text(started, now)
            == decimal(n) + "s ago"@,
        1 <= n < 60 && 0 <= ms < 60_000 && now - started == n * 60_000 + ms ==> age_text(
            started,
            now,
        ) == decimal(n) + "m ago"@,
        1 <= n < 24 && 0 <= ms < 3_600_000 && now - started == n * 3_600_000 + ms ==> age_text(
            started,
            now,
        ) == decimal(n) + "h ago"@,
        1 <= n && 0 <= ms < 86_400_000 && now - started == n * 86_400_000 + ms ==> age_text(
            started,
            now,
        ) == decimal(n) + "d ago"@,
{
    let age = now - started;
    if age >= 10_000 {
        let secs = (age / 1000) as nat;
        if 1 <= n && 0 <= ms < 60_000 && age == n * 60_000 + ms {
            assert(secs / 60 == n);
        }
        if 1 <= n && 0 <= ms < 3_600_000 && age == n * 3_600_000 + ms {
            assert(secs / 3600 == n);
        }
        if 1 <= n && 0 <= ms < 86_400_000 && age == n * 86_400_000 + ms {
            assert(secs / 86_400 == n);
        }
    }
}

/// An age that no 64-bit number holds is told like the nearest that one does.
pub proof fn an_age_beyond_the_clock_is_told_like_the_nearest(started: i64, now: i64)
    ensures
        now - started > i64::MAX ==> age_text(started, now) == age_text(0, i64::MAX),
        now - started < i64::MIN ==> age_text(started, now) == "just now"@,
{
}

/// A session that waits for input is told so, whether or not it works; one that
/// works is busy; and every other one is idle. Nothing else matters.
pub proof fn the_status_is_what_needs_attention_most(host: Host)
    ensures
        status_of(host) == Status::InputRequired <==> host.input_required,
        status_of(host) == Status::Busy <==> host.busy && !host.input_required,
        status_of(host) == Status::Idle <==> !host.busy && !host.input_required,
{
}

/// The parts of a card that come from its session.
pub ghost struct CardParts {
    /// What stands for the name.
    pub name: Seq<char>,
    /// What stands for the working directory.
    pub cwd: Seq<char>,
    /// What stands for the model.
    pub model: Seq<char>,
    /// What stands for the instance id, in the links and at the close button.
    pub id: Seq<char>,
}

/// These parts stand for what is known of the session: as HTML for its name, its
/// directory and its model, and as a path segment for its instance id.
pub open spec fn are_parts(p: CardParts, host: Host) -> bool {
    &&& html_decoded(p.name) == shown_name(host)
    &&& html_decoded(p.cwd) == host.cwd@
    &&& label_of_model(host) matches Some(label) ==> html_decoded(p.model) == label
    &&& percent_decoded(p.id) == encode_utf8(host.instance_id@)
}

/// A card with these parts: the name as a heading, the badge, the directory, the
/// small print, a link to view, a link to control and a button to close, all three
/// with the same id.
pub open spec fn card_with(p: CardParts, host: Host, now: i64) -> Seq<char> {
    let badge = match (host.input_required, host.busy) {
        (true, _) => ("input"@, "input required"@),
        (false, true) => ("busy"@, "busy"@),
        (false, false) => ("idle"@, "idle"@),
    };
    let model = if label_of_model(host) is Some {
        p.model + " &middot; "@
    } else {
        Seq::empty()
    };
    let people = decimal(host.participants as nat) + (if host.participants == 1 {
        " participant"@
    } else {
        " participants"@
    });
    let since = match host.started_at {
        Some(t) => age_text(t, now),
        None => "unknown"@,
    };
    "<article class=\"card "@ + badge.0 + "\">\n<header><h2>"@ + p.name
        + "</h2><span class=\"badge "@ + badge.0 + "\">"@ + badge.1
        + "</span></header>\n<p class=\"cwd\">"@ + p.cwd + "</p>\n<p class=\"meta\">"@ + model
        + people + " &middot; started "@ + since
        + "</p>\n<p class=\"links\"><a class=\"view\" href=\"/go/"@ + p.id
        + "/view\" target=\"_blank\" rel=\"noopener noreferrer\">view</a><a class=\"control\" href=\"/go/"@
        + p.id
        + "/control\" target=\"_blank\" rel=\"noopener noreferrer\">control</a><button type=\"button\" class=\"stop\" data-id=\""@
        + p.id + "\">close</button></p>\n</article>\n"@
}

/// The card of a session shows that session: its name, its directory and its model
/// read as they are, the badge tells its status, and the links and the button name
/// its instance id.
pub proof fn a_card_shows_its_session(host: Host, now: i64)
    ensures
        exists|p: CardParts| #[trigger]
            are_parts(p, host) && card_html(host, now) == card_with(p, host, now),
{
    let label = match label_of_model(host) {
        Some(label) => label,
        None => Seq::empty(),
    };
    let p = CardParts {
        name: escaped(shown_name(host)),
        cwd: escaped(host.cwd@),
        model: escaped(label),
        id: segment(host.instance_id@),
    };
    escaped_text_shows_the_text(shown_name(host));
    escaped_text_shows_the_text(host.cwd@);
    escaped_text_shows_the_text(label);
    segment_round_trip(host.instance_id@);
    assert(are_parts(p, host));
    card_frame_reads(p.id);
    meta_reads(host, now);
    let class = status_class(status_of(host));
    let head = "<article class=\"card "@ + class + "\">\n<header><h2>"@ + p.name
        + "</h2><span class=\"badge "@ + class + "\">"@ + status_label(status_of(host))
        + "</span></header>\n<p class=\"cwd\">"@ + p.cwd + "</p>\n<p class=\"meta\">"@;
    let meta = join(meta_parts(host, now), " &middot; "@);
    let links = "</p>\n<p class=\"links\">"@ + link_html(p.id, "view"@) + link_html(
        p.id,
        "control"@,
    ) + "<button type=\"button\" class=\"stop\" data-id=\""@;
    let end = p.id + "\">close</button></p>\n</article>\n"@;
    assert(card_html(host, now) =~= head + meta + links + end);
    let model = if label_of_model(host) is Some {
        p.model + " &middot; "@
    } else {
        Seq::empty()
    };
    let people = decimal(host.participants as nat) + (if host.participants == 1 {
        " participant"@
    } else {
        " participants"@
    });
    assert(meta == model + people + " &middot; started "@ + started_text(host, now));
    card_reads(p, host, now, head, model, people, links);
}

/// A card with these parts is put together of its head, its small print and its
/// links.
proof fn card_reads(
    p: CardParts,
    host: Host,
    now: i64,
    head: Seq<char>,
    model: Seq<char>,
    people: Seq<char>,
    links: Seq<char>,
)
    requires
        head == "<article class=\"card "@ + status_class(status_of(host))
            + "\">\n<header><h2>"@ + p.name + "</h2><span class=\"badge "@ + status_class(
            status_of(host),
        ) + "\">"@ + status_label(status_of(host)) + "</span></header>\n<p class=\"cwd\">"@
            + p.cwd + "</p>\n<p class=\"meta\">"@,
        model == if label_of_model(host) is Some {
            p.model + " &middot; "@
        } else {
            Seq::empty()
        },
        people == decimal(host.participants as nat) + (if host.participants == 1 {
            " participant"@
        } else {
            " participants"@
        }),
        links == "</p>\n<p class=\"links\"><a class=\"view\" href=\"/go/"@ + p.id
            + "/view\" target=\"_blank\" rel=\"noopener noreferrer\">view</a><a class=\"control\" href=\"/go/"@
            + p.id
            + "/control\" target=\"_blank\" rel=\"noopener noreferrer\">control</a><button type=\"button\" class=\"stop\" data-id=\""@,
    ensures
        card_with(p, host, now) == head + (model + people + " &middot; started "@ + started_text(
            host,
            now,
        )) + links + (p.id + "\">close</button></p>\n</article>\n"@),
{
    let since = started_text(host, now);
    let l1 = "</p>\n<p class=\"links\"><a class=\"view\" href=\"/go/"@;
    let l2 =
        "/view\" target=\"_blank\" rel=\"noopener noreferrer\">view</a><a class=\"control\" href=\"/go/"@;
    let l3 =
        "/control\" target=\"_blank\" rel=\"noopener noreferrer\">control</a><button type=\"button\" class=\"stop\" data-id=\""@;
    let close = "\">close</button></p>\n</article>\n"@;
    let started = " &middot; started "@;
    assert(card_with(p, host, now) == head + model + people + started + since + l1 + p.id + l2
        + p.id + l3 + p.id + close);
    assert(head + model + people + started + since =~= head + (model + people + started + since));
    let small = head + (model + people + started + since);
    assert(small + l1 + p.id + l2 + p.id + l3 =~= small + (l1 + p.id + l2 + p.id + l3));
    assert(small + links + p.id + close =~= small + links + (p.id + close));
}

proof fn card_frame_reads(id: Seq<char>)
    ensures
        "</p>\n<p class=\"links\">"@ + link_html(id, "view"@) + link_html(id, "control"@)
            + "<button type=\"button\" class=\"stop\" data-id=\""@
            == "</p>\n<p class=\"links\"><a class=\"view\" href=\"/go/"@ + id
            + "/view\" target=\"_blank\" rel=\"noopener noreferrer\">view</a><a class=\"control\" href=\"/go/"@
            + id
            + "/control\" target=\"_blank\" rel=\"noopener noreferrer\">control</a><button type=\"button\" class=\"stop\" data-id=\""@,
{
    reveal_strlit("</p>\n<p class=\"links\">");
    reveal_strlit("<button type=\"button\" class=\"stop\" data-id=\"");
    reveal_strlit("</p>\n<p class=\"links\"><a class=\"view\" href=\"/go/");
    reveal_strlit(
        "/view\" target=\"_blank\" rel=\"noopener noreferrer\">view</a><a class=\"control\" href=\"/go/",
    );
    reveal_strlit(
        "/control\" target=\"_blank\" rel=\"noopener noreferrer\">control</a><button type=\"button\" class=\"stop\" data-id=\"",
    );
    reveal_strlit("<a class=\"");
    reveal_strlit("\" href=\"/go/");
    reveal_strlit("/");
    reveal_strlit("\" target=\"_blank\" rel=\"noopener noreferrer\">");
    reveal_strlit("</a>");
    reveal_strlit("view");
    reveal_strlit("control");
    let one = "</p>\n<p class=\"links\">"@ + ("<a class=\""@ + "view"@ + "\" href=\"/go/"@);
    assert(one =~= "</p>\n<p class=\"links\"><a class=\"view\" href=\"/go/"@);
    let two = "/"@ + "view"@ + "\" target=\"_blank\" rel=\"noopener noreferrer\">"@ + "view"@
        + "</a>"@ + ("<a class=\""@ + "control"@ + "\" href=\"/go/"@);
    assert(two
        =~= "/view\" target=\"_blank\" rel=\"noopener noreferrer\">view</a><a class=\"control\" href=\"/go/"@);
    let three = "/"@ + "control"@ + "\" target=\"_blank\" rel=\"noopener noreferrer\">"@
        + "control"@ + "</a>"@ + "<button type=\"button\" class=\"stop\" data-id=\""@;
    assert(three
        =~= "/control\" target=\"_blank\" rel=\"noopener noreferrer\">control</a><button type=\"button\" class=\"stop\" data-id=\""@);
    assert("</p>\n<p class=\"links\">"@ + link_html(id, "view"@) + link_html(id, "control"@)
        + "<button type=\"button\" class=\"stop\" data-id=\""@ =~= one + id + two + id + three);
}

proof fn meta_reads(host: Host, now: i64)
    ensures
        join(meta_parts(host, now), " &middot; "@) == (match label_of_model(host) {
            Some(label) => escaped(label) + " &middot; "@,
            None => Seq::empty(),
        }) + (decimal(host.participants as nat) + (if host.participants == 1 {
            " participant"@
        } else {
            " participants"@
        })) + " &middot; started "@ + started_text(host, now),
{
    reveal_strlit(" &middot; ");
    reveal_strlit(" &middot; started ");
    reveal_strlit("started ");
    reveal_strlit(" participant");
    reveal_strlit(" participants");
    reveal_strlit("s");
    reveal_strlit("");
    let dot = " &middot; "@;
    let parts = meta_parts(host, now);
    let people = participants_text(host);
    let since = "started "@ + started_text(host, now);
    assert(people =~= decimal(host.participants as nat) + (if host.participants == 1 {
        " participant"@
    } else {
        " participants"@
    }));
    assert(dot + "started "@ =~= " &middot; started "@);
    assert(dot + since =~= " &middot; started "@ + started_text(host, now));
    if let Some(label) = label_of_model(host) {
        let two = parts.drop_last();
        let one = two.drop_last();
        assert(one =~= seq![escaped(label)]);
        assert(join(one, dot) == escaped(label));
        assert(join(two, dot) == escaped(label) + dot + people);
        assert(join(parts, dot) == escaped(label) + dot + people + dot + since);
        assert(join(parts, dot) =~= escaped(label) + dot + people + (dot + since));
    } else {
        let one = parts.drop_last();
        assert(one =~= seq![people]);
        assert(join(one, dot) == people);
        assert(join(parts, dot) == people + dot + since);
        assert(join(parts, dot) =~= Seq::<char>::empty() + people + (dot + since));
    }
    assert(join(parts, dot) =~= (match label_of_model(host) {
        Some(label) => escaped(label) + dot,
        None => Seq::empty(),
    }) + people + " &middot; started "@ + started_text(host, now));
}

/// The page of an error shows the whole message, as it reads, in the middle of one
/// frame.
pub proof fn an_error_page_shows_its_message(message: Seq<char>)
    ensures
        exists|shown: Seq<char>| #[trigger]
            html_decoded(shown) == message && page_html(error_html(message)) == HEAD@
                + "<div class=\"error\"><strong>could not list omp sessions</strong>\n<pre>"@
                + shown + "</pre></div>\n"@ + TAIL@,
{
    escaped_text_shows_the_text(message);
    let open = "<div class=\"error\"><strong>could not list omp sessions</strong>\n<pre>"@;
    assert(page_html(error_html(message)) =~= HEAD@ + open + escaped(message)
        + "</pre></div>\n"@ + TAIL@);
}

/// The cell of the table in line `i` (the header first) and column `c`: of session
/// `i - 1` its name, its status, how many take part, its age, its model and its
/// working directory.
pub open spec fn cell_of(hosts: Seq<Host>, now: i64, i: int, c: int) -> Seq<char> {
    if i == 0 {
        if c == 0 {
            "NAME"@
        } else if c == 1 {
            "STATUS"@
        } else if c == 2 {
            "PARTICIPANTS"@
        } else if c == 3 {
            "STARTED"@
        } else if c == 4 {
            "MODEL"@
        } else {
            "CWD"@
        }
    } else {
        let host = hosts[i - 1];
        if c == 0 {
            shown_name(host)
        } else if c == 1 {
            if host.input_required {
                "input required"@
            } else if host.busy {
                "busy"@
            } else {
                "idle"@
            }
        } else if c == 2 {
            decimal(host.participants as nat)
        } else if c == 3 {
            match host.started_at {
                Some(t) => age_text(t, now),
                None => "unknown"@,
            }
        } else if c == 4 {
            match label_of_model(host) {
                Some(label) => label,
                None => Seq::empty(),
            }
        } else {
            host.cwd@
        }
    }
}

/// A line shows these cells from these columns on, with blanks between them. White
/// space at its end is left out.
pub open spec fn is_line_of(line: Seq<char>, row: Seq<Seq<char>>, starts: Seq<int>) -> bool {
    &&& line.len() > 0 ==> !is_space(line.last())
    &&& forall|c: int, k: int|
        #![trigger row[c][k]]
        0 <= c < 6 && 0 <= k < row[c].len() ==> if starts[c] + k < line.len() {
            line[starts[c] + k] == row[c][k]
        } else {
            is_space(row[c][k])
        }
    &&& forall|c: int, x: int|
        #![trigger starts[c], line[x]]
        0 <= c < 5 && starts[c] + row[c].len() <= x < starts[c + 1] && x < line.len() ==> line[x]
            == ' '
    &&& line.len() <= starts[5] + row[5].len()
}

/// The lines in order, each with a line break behind it.
pub open spec fn all_lines(lines: Seq<Seq<char>>) -> Seq<char>
    decreases lines.len(),
{
    if lines.len() == 0 {
        Seq::empty()
    } else {
        all_lines(lines.drop_last()) + lines.last().push('\n')
    }
}

/// The column behind this one starts two blanks behind its widest cell.
pub open spec fn is_column(starts: Seq<int>, hosts: Seq<Host>, now: i64, c: int) -> bool {
    &&& forall|i: int|
        0 <= i <= hosts.len() ==> starts[c] + (#[trigger] cell_of(hosts, now, i, c)).len() + 2
            <= starts[c + 1]
    &&& exists|i: int|
        0 <= i <= hosts.len() && starts[c] + (#[trigger] cell_of(hosts, now, i, c)).len() + 2
            == starts[c + 1]
}

/// The columns start at these places.
pub open spec fn are_columns(starts: Seq<int>, hosts: Seq<Host>, now: i64) -> bool {
    &&& starts.len() == 6
    &&& starts[0] == 0
    &&& forall|c: int| 0 <= c < 5 ==> #[trigger] is_column(starts, hosts, now, c)
}

/// The cells of a line of the table.
pub open spec fn row_at(hosts: Seq<Host>, now: i64, i: int) -> Seq<Seq<char>> {
    Seq::new(6, |c: int| cell_of(hosts, now, i, c))
}

/// The table has a header and, in order, one line for each session, made of the
/// cells of that session; and the cells of a column start at one place, two blanks
/// behind the widest cell of the column before.
pub proof fn the_table_shows_every_session(hosts: Seq<Host>, now: i64)
    requires
        hosts.len() > 0,
    ensures
        exists|starts: Seq<int>, lines: Seq<Seq<char>>|
            {
                &&& #[trigger] are_columns(starts, hosts, now)
                &&& #[trigger] lines.len() == hosts.len() + 1
                &&& table_text(hosts, now) == all_lines(lines)
                &&& forall|i: int|
                    0 <= i <= hosts.len() ==> is_line_of(
                        #[trigger] lines[i],
                        row_at(hosts, now, i),
                        starts,
                    )
            },
{
    let rows = table_rows(hosts, now);
    let n = rows.len();
    rows_are_cells(hosts, now);
    let starts = Seq::new(6, |c: int| start_of(rows, c));
    let lines = Seq::new(n, |i: int| line_at(rows, i));
    assert forall|c: int| 0 <= c < 5 implies #[trigger] is_column(starts, hosts, now, c) by {
        columns_start_behind(hosts, now, c);
        assert(starts[c] == start_of(rows, c));
        assert(starts[c + 1] == start_of(rows, c + 1));
        let w = choose|i: int|
            0 <= i <= hosts.len() && start_of(rows, c) + (#[trigger] cell_of(
                hosts,
                now,
                i,
                c,
            )).len() + 2 == start_of(rows, c + 1);
        assert(starts[c] + cell_of(hosts, now, w, c).len() + 2 == starts[c + 1]);
    }
    assert(starts[0] == start_of(rows, 0));
    assert(are_columns(starts, hosts, now));
    lines_are_all(rows, n);
    assert(lines =~= Seq::new(n, |i: int| line_at(rows, i)));
    assert forall|i: int| 0 <= i <= hosts.len() implies is_line_of(
        #[trigger] lines[i],
        row_at(hosts, now, i),
        starts,
    ) by {
        assert(rows[i] == row_at(hosts, now, i));
        line_shows_cells(rows, i, starts);
    }
    assert(lines.len() == hosts.len() + 1);
}

proof fn columns_start_behind(hosts: Seq<Host>, now: i64, c: int)
    requires
        0 <= c < 5,
    ensures
        ({
            let rows = table_rows(hosts, now);
            &&& forall|i: int|
                0 <= i <= hosts.len() ==> start_of(rows, c) + (#[trigger] cell_of(
                    hosts,
                    now,
                    i,
                    c,
                )).len() + 2 <= start_of(rows, c + 1)
            &&& exists|i: int|
                0 <= i <= hosts.len() && start_of(rows, c) + (#[trigger] cell_of(
                    hosts,
                    now,
                    i,
                    c,
                )).len() + 2 == start_of(rows, c + 1)
        }),
{
    let rows = table_rows(hosts, now);
    rows_are_cells(hosts, now);
    assert forall|i: int| 0 <= i <= hosts.len() implies start_of(rows, c) + (#[trigger] cell_of(
        hosts,
        now,
        i,
        c,
    )).len() + 2 <= start_of(rows, c + 1) by {
        column_holds_cell(rows, i, c);
        assert(rows[i] == row_at(hosts, now, i));
        assert(rows[i][c] == cell_of(hosts, now, i, c));
    }
    let w = widest_of(rows, c);
    assert(rows[w] == row_at(hosts, now, w));
    assert(cell_of(hosts, now, w, c) == rows[w][c]);
}

/// A line of the table without its line break.
spec fn line_at(rows: Seq<Seq<Seq<char>>>, i: int) -> Seq<char> {
    trimmed_end(filled(rows, rows[i], 6))
}

/// The first `n` cells of a row, each filled up, two blanks apart.
spec fn filled(rows: Seq<Seq<Seq<char>>>, row: Seq<Seq<char>>, n: nat) -> Seq<char> {
    join(Seq::new(n, |c: int| padded(row[c], column_width(rows, c))), "  "@)
}

/// Where a column starts.
spec fn start_of(rows: Seq<Seq<Seq<char>>>, c: int) -> int
    decreases c,
{
    if c <= 0 {
        0
    } else {
        start_of(rows, c - 1) + column_width(rows, c - 1) + 2
    }
}

proof fn rows_are_cells(hosts: Seq<Host>, now: i64)
    ensures
        table_rows(hosts, now).len() == hosts.len() + 1,
        forall|i: int|
            0 <= i <= hosts.len() ==> #[trigger] table_rows(hosts, now)[i] == row_at(hosts, now, i),
{
    let rows = table_rows(hosts, now);
    assert forall|i: int| 0 <= i <= hosts.len() implies #[trigger] rows[i] == row_at(
        hosts,
        now,
        i,
    ) by {
        if i == 0 {
            assert(rows[0] =~= row_at(hosts, now, 0));
        } else {
            assert(rows[i] == host_row(hosts[i - 1], now));
            assert(rows[i] =~= row_at(hosts, now, i));
        }
    }
}

/// Some cell is as wide as its column.
proof fn widest_of(rows: Seq<Seq<Seq<char>>>, c: int) -> (i: int)
    requires
        rows.len() > 0,
    ensures
        0 <= i < rows.len(),
        rows[i][c].len() == column_width(rows, c),
    decreases rows.len(),
{
    let before = rows.drop_last();
    if before.len() == 0 {
        assert(column_width(before, c) == 0);
        0
    } else if rows.last()[c].len() > column_width(before, c) {
        rows.len() - 1
    } else {
        widest_of(before, c)
    }
}

proof fn lines_are_all(rows: Seq<Seq<Seq<char>>>, n: nat)
    requires
        n <= rows.len(),
        forall|i: int| 0 <= i < rows.len() ==> (#[trigger] rows[i]).len() == 6,
    ensures
        table_lines(rows, n) == all_lines(Seq::new(n, |i: int| line_at(rows, i))),
    decreases n,
{
    let lines = Seq::new(n, |i: int| line_at(rows, i));
    if n > 0 {
        let m = (n - 1) as nat;
        lines_are_all(rows, m);
        assert(lines.drop_last() =~= Seq::new(m, |i: int| line_at(rows, i)));
        reveal_strlit("\n");
        let row = rows[n - 1];
        assert(Seq::new(row.len(), |c: int| padded(row[c], column_width(rows, c))) =~= Seq::new(
            6,
            |c: int| padded(row[c], column_width(rows, c)),
        ));
        assert(table_line(rows, row) =~= lines.last().push('\n'));
    }
}

/// A row is filled cell by cell.
proof fn filled_grows(rows: Seq<Seq<Seq<char>>>, i: int, n: nat)
    requires
        0 <= i < rows.len(),
        n > 0,
    ensures
        n == 1 ==> filled(rows, rows[i], n) == padded(rows[i][0], column_width(rows, 0)),
        n > 1 ==> filled(rows, rows[i], n) == filled(rows, rows[i], (n - 1) as nat) + "  "@
            + padded(rows[i][n - 1], column_width(rows, n - 1)),
        filled(rows, rows[i], n).len() == start_of(rows, n - 1) + column_width(rows, n - 1),
    decreases n,
{
    reveal_strlit("  ");
    let row = rows[i];
    let cells = Seq::new(n, |c: int| padded(row[c], column_width(rows, c)));
    column_holds_cell(rows, i, n - 1);
    if n > 1 {
        let m = (n - 1) as nat;
        filled_grows(rows, i, m);
        assert(cells.drop_last() =~= Seq::new(m, |c: int| padded(row[c], column_width(rows, c))));
    }
}

/// A cell of a row stands in its column.
proof fn filled_shows_cell(rows: Seq<Seq<Seq<char>>>, i: int, n: nat, c: int, k: int)
    requires
        0 <= i < rows.len(),
        0 <= c < n,
        0 <= k < rows[i][c].len(),
    ensures
        0 <= start_of(rows, c) + k < filled(rows, rows[i], n).len(),
        filled(rows, rows[i], n)[start_of(rows, c) + k] == rows[i][c][k],
    decreases n,
{
    reveal_strlit("  ");
    filled_grows(rows, i, n);
    column_holds_cell(rows, i, c);
    start_is_not_negative(rows, c);
    if c < n - 1 {
        let m = (n - 1) as nat;
        filled_shows_cell(rows, i, m, c, k);
    } else if n > 1 {
        filled_grows(rows, i, (n - 1) as nat);
    }
}

/// Behind a cell of a row stand blanks up to the next column.
proof fn filled_shows_blank(rows: Seq<Seq<Seq<char>>>, i: int, n: nat, c: int, x: int)
    requires
        0 <= i < rows.len(),
        0 <= c < n,
        start_of(rows, c) + rows[i][c].len() <= x < start_of(rows, c) + column_width(rows, c) + 2,
        x < filled(rows, rows[i], n).len(),
    ensures
        filled(rows, rows[i], n)[x] == ' ',
    decreases n,
{
    reveal_strlit("  ");
    filled_grows(rows, i, n);
    start_is_not_negative(rows, c);
    if c < n - 1 {
        let m = (n - 1) as nat;
        filled_grows(rows, i, m);
        if x < filled(rows, rows[i], m).len() {
            filled_shows_blank(rows, i, m, c, x);
        } else {
            starts_grow(rows, c, n - 1);
        }
    } else if n > 1 {
        filled_grows(rows, i, (n - 1) as nat);
    }
}

proof fn start_is_not_negative(rows: Seq<Seq<Seq<char>>>, c: int)
    ensures
        start_of(rows, c) >= 0,
    decreases c,
{
    if c > 0 {
        start_is_not_negative(rows, c - 1);
    }
}

proof fn starts_grow(rows: Seq<Seq<Seq<char>>>, c: int, d: int)
    requires
        0 <= c < d,
    ensures
        start_of(rows, c) + column_width(rows, c) + 2 <= start_of(rows, d),
    decreases d - c,
{
    if c + 1 < d {
        starts_grow(rows, c, d - 1);
    }
}

proof fn line_shows_cells(rows: Seq<Seq<Seq<char>>>, i: int, starts: Seq<int>)
    requires
        0 <= i < rows.len(),
        rows[i].len() == 6,
        starts == Seq::new(6, |c: int| start_of(rows, c)),
    ensures
        is_line_of(line_at(rows, i), rows[i], starts),
{
    let row = rows[i];
    let all = filled(rows, row, 6);
    let line = line_at(rows, i);
    filled_grows(rows, i, 6);
    trimmed_end_is_prefix(all);
    what_is_trimmed_is_white(all);
    assert forall|x: int| 0 <= x < line.len() implies #[trigger] line[x] == all[x] by {
        assert(line == all.take(line.len() as int));
    }
    assert forall|c: int, k: int|
        #![trigger row[c][k]]
        0 <= c < 6 && 0 <= k < row[c].len() implies if starts[c] + k < line.len() {
        line[starts[c] + k] == row[c][k]
    } else {
        is_space(row[c][k])
    } by {
        filled_shows_cell(rows, i, 6, c, k);
        let x = start_of(rows, c) + k;
        assert(starts[c] == start_of(rows, c));
        if x < line.len() {
            assert(line[x] == all[x]);
        } else {
            assert(is_space(all[x]));
        }
    }
    assert forall|c: int, x: int|
        #![trigger starts[c], line[x]]
        0 <= c < 5 && starts[c] + row[c].len() <= x < starts[c + 1] && x < line.len() implies line[x]
        == ' ' by {
        assert(starts[c] == start_of(rows, c));
        assert(starts[c + 1] == start_of(rows, c + 1));
        start_is_not_negative(rows, c);
        filled_shows_blank(rows, i, 6, c, x);
        assert(line[x] == all[x]);
    }
    assert(line.len() <= starts[5] + row[5].len()) by {
        if line.len() > starts[5] + row[5].len() {
            let x = line.len() - 1;
            assert(starts[5] == start_of(rows, 5));
            start_is_not_negative(rows, 5);
            filled_shows_blank(rows, i, 6, 5, x);
            assert(line[x] == all[x]);
        }
    }
}

/// What trimming leaves does not end in white space, and what it takes is white
/// space.
proof fn what_is_trimmed_is_white(s: Seq<char>)
    ensures
        trimmed_end(s).len() > 0 ==> !is_space(trimmed_end(s).last()),
        forall|i: int| trimmed_end(s).len() <= i < s.len() ==> is_space(#[trigger] s[i]),
    decreases s.len(),
{
    if s.len() > 0 && is_space(s.last()) {
        what_is_trimmed_is_white(s.drop_last());
        assert forall|i: int| trimmed_end(s).len() <= i < s.len() implies is_space(
            #[trigger] s[i],
        ) by {
            if i < s.len() - 1 {
                assert(s.drop_last()[i] == s[i]);
            }
        }
    }
}

/// Without a session the page says so, and how to have sessions show up, and holds
/// no card: it is the same at all times.
pub proof fn a_page_without_sessions_says_so(now: i64, later: i64)
    ensures
        page_html(body_html(Seq::empty(), now)) == page_html(body_html(Seq::empty(), later)),
        page_html(body_html(Seq::empty(), now)) == HEAD@
            + "<div class=\"note\"><p><strong>no live omp sessions</strong></p>\n<p>Start an interactive <code>omp</code>. To have sessions show up here without typing /collab, run <code>omp config set collab.autoStart control</code>.</p></div>\n"@
            + TAIL@,
        table_text(Seq::empty(), now) == "no live omp sessions\n"@,
{
}

} // verus!
