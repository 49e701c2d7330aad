//! What `omp collab list --json` reports about the live sessions.
//!
//! There is deliberately no URL field on [`Host`]: link URLs carry secrets and
//! must never be part of anything that gets serialized to the API.

use crate::text::{
    chars, is_blank, is_space, only_blank_texts_trim_to_nothing, trim, trimmed,
    trimming_takes_the_white_space_around,
};
use vstd::prelude::*;
use vstd::string::*;

verus! {

/// What the published link of a session grants.
#[derive(Debug, Clone, Copy, PartialEq, Eq, Structural)]
pub enum Access {
    Control,
    View,
    Unknown,
}

impl Default for Access {
    fn default() -> (r: Self)
        ensures
            r == Access::Control,
    {
        Access::Control
    }
}

/// The model that a session runs on.
#[derive(Debug, PartialEq, Eq)]
pub struct Model {
    pub provider: String,
    pub id: String,
}

impl Clone for Model {
    fn clone(&self) -> (r: Self)
        ensures
            r == *self,
    {
        Model { provider: self.provider.clone(), id: self.id.clone() }
    }
}

impl Default for Model {
    fn default() -> (r: Self)
        ensures
            r.provider@ == Seq::<char>::empty(),
            r.id@ == Seq::<char>::empty(),
    {
        Model { provider: String::new(), id: String::new() }
    }
}

/// One live session.
#[derive(Debug, PartialEq, Eq)]
pub struct Host {
    pub instance_id: String,
    pub generation: u64,
    pub pid: Option<u32>,
    pub session_id: String,
    pub session_name: Option<String>,
    pub cwd: String,
    pub model: Option<Model>,
    pub started_at: Option<i64>,
    pub participants: u32,
    pub relay_connected: bool,
    pub input_required: bool,
    pub busy: bool,
    pub access: Access,
}

impl Clone for Host {
    fn clone(&self) -> (r: Self)
        ensures
            r == *self,
    {
        Host {
            instance_id: self.instance_id.clone(),
            generation: self.generation,
            pid: self.pid,
            session_id: self.session_id.clone(),
            session_name: match &self.session_name {
                Some(name) => Some(name.clone()),
                None => None,
            },
            cwd: self.cwd.clone(),
            model: match &self.model {
                Some(model) => Some(model.clone()),
                None => None,
            },
            started_at: self.started_at,
            participants: self.participants,
            relay_connected: self.relay_connected,
            input_required: self.input_required,
            busy: self.busy,
            access: self.access,
        }
    }
}

/// A separator of Windows or POSIX paths.
pub open spec fn is_separator(c: char) -> bool {
    c == '\\' || c == '/'
}

/// `path` without the separators at its end.
pub open spec fn without_trailing_separators(path: Seq<char>) -> Seq<char>
    decreases path.len(),
{
    if path.len() > 0 && is_separator(path.last()) {
        without_trailing_separators(path.drop_last())
    } else {
        path
    }
}

/// What follows the last separator of `path`, or all of it where there is none.
pub open spec fn after_last_separator(path: Seq<char>) -> Seq<char>
    decreases path.len(),
{
    if path.len() == 0 || is_separator(path.last()) {
        Seq::empty()
    } else {
        after_last_separator(path.drop_last()).push(path.last())
    }
}

/// The last component of a Windows or POSIX path, ignoring trailing separators.
pub open spec fn leaf(path: Seq<char>) -> Seq<char> {
    after_last_separator(without_trailing_separators(path))
}

/// The name that `omp` gave the session, where it gave one that is not blank.
pub open spec fn title(host: Host) -> Option<Seq<char>> {
    match host.session_name {
        Some(name) => if trimmed(name@).len() > 0 {
            Some(trimmed(name@))
        } else {
            None
        },
        None => None,
    }
}

/// The name a session is shown under: its title, else the last component of
/// its working directory, else its instance id.
pub open spec fn shown_name(host: Host) -> Seq<char> {
    match title(host) {
        Some(name) => name,
        None => if leaf(host.cwd@).len() > 0 {
            leaf(host.cwd@)
        } else {
            host.instance_id@
        },
    }
}

/// `provider/id`, or the one of the two that is not empty, or nothing.
pub open spec fn label_of_model(host: Host) -> Option<Seq<char>> {
    match host.model {
        None => None,
        Some(m) => if m.provider@.len() == 0 && m.id@.len() == 0 {
            None
        } else if m.provider@.len() == 0 {
            Some(m.id@)
        } else if m.id@.len() == 0 {
            Some(m.provider@)
        } else {
            Some(m.provider@ + "/"@ + m.id@)
        },
    }
}

/// Last component of a Windows or POSIX path, ignoring trailing separators.
pub fn last_component(path: &str) -> (r: &str)
    ensures
        r@ == leaf(path@),
{
    let v = chars(path);
    let mut end: usize = v.len();
    assert(path@.take(end as int) == path@);
    while end > 0 && (v[end - 1] == '\\' || v[end - 1] == '/')
        invariant
            end <= v@.len(),
            v@ == path@,
            without_trailing_separators(path@) == without_trailing_separators(
                path@.take(end as int),
            ),
        decreases end,
    {
        assert(path@.take(end as int).drop_last() == path@.take(end - 1));
        end = end - 1;
    }
    let ghost body = path@.take(end as int);
    let mut start: usize = end;
    assert(body.take(start as int) == body);
    assert(body.skip(start as int) == Seq::<char>::empty());
    while start > 0 && v[start - 1] != '\\' && v[start - 1] != '/'
        invariant
            start <= end <= v@.len(),
            v@ == path@,
            body == path@.take(end as int),
            after_last_separator(body) == after_last_separator(body.take(start as int))
                + body.skip(start as int),
        decreases start,
    {
        assert(body.take(start as int).drop_last() == body.take(start - 1));
        assert(after_last_separator(body.take(start - 1)).push(body[start - 1]) + body.skip(
            start as int,
        ) == after_last_separator(body.take(start - 1)) + body.skip(start - 1));
        start = start - 1;
    }
    assert(after_last_separator(body.take(start as int)) == Seq::<char>::empty());
    assert(path@.subrange(start as int, end as int) == body.skip(start as int));
    path.substring_char(start, end)
}

impl Host {
    /// The session title, or the last path component of `cwd` while omp has not named it yet.
    pub fn display_name(&self) -> (r: &str)
        ensures
            r@ == shown_name(*self),
    {
        if let Some(name) = &self.session_name {
            let name = trim(name.as_str());
            if !name.is_empty() {
                return name;
            }
        }
        let dir = last_component(self.cwd.as_str());
        if dir.is_empty() {
            self.instance_id.as_str()
        } else {
            dir
        }
    }

    /// Whether `omp` gave the session a name that is not blank.
    pub fn is_titled(&self) -> (r: bool)
        ensures
            r == (title(*self) is Some),
    {
        match &self.session_name {
            Some(name) => !trim(name.as_str()).is_empty(),
            None => false,
        }
    }

    /// `provider/id`, when omp reported a model.
    pub fn model_label(&self) -> (r: Option<String>)
        ensures
            r is Some == label_of_model(*self) is Some,
            r matches Some(label) ==> label@ == label_of_model(*self)->0,
    {
        match &self.model {
            None => None,
            Some(m) => {
                if m.provider.as_str().is_empty() {
                    if m.id.as_str().is_empty() {
                        None
                    } else {
                        Some(m.id.clone())
                    }
                } else if m.id.as_str().is_empty() {
                    Some(m.provider.clone())
                } else {
                    let mut label: String = m.provider.clone();
                    label.append("/");
                    label.append(m.id.as_str());
                    Some(label)
                }
            },
        }
    }
}

/// A path and the same path with a separator after it have the same last
/// component.
pub proof fn trailing_separator_does_not_count(path: Seq<char>, c: char)
    requires
        is_separator(c),
    ensures
        leaf(path.push(c)) == leaf(path),
{
    assert(path.push(c).drop_last() == path);
}

/// The last component of a path holds no separator.
pub proof fn leaf_holds_no_separator(path: Seq<char>, i: int)
    requires
        0 <= i < leaf(path).len(),
    ensures
        !is_separator(leaf(path)[i]),
{
    after_last_separator_holds_no_separator(without_trailing_separators(path), i);
}

proof fn after_last_separator_holds_no_separator(path: Seq<char>, i: int)
    requires
        0 <= i < after_last_separator(path).len(),
    ensures
        !is_separator(after_last_separator(path)[i]),
    decreases path.len(),
{
    if i < after_last_separator(path).len() - 1 {
        after_last_separator_holds_no_separator(path.drop_last(), i);
    }
}

/// A session with an instance id is never shown without a name.
pub proof fn every_session_has_a_name(host: Host)
    requires
        host.instance_id@.len() > 0,
    ensures
        shown_name(host).len() > 0,
{
}

/// A session has a title exactly when it has a name with something other than
/// white space in it. Nothing else that is known of the session matters.
pub proof fn a_title_is_a_name_that_is_not_blank(host: Host)
    ensures
        title(host) is Some <==> (host.session_name matches Some(name) && exists|i: int|
            0 <= i < name@.len() && !is_space(#[trigger] name@[i])),
{
    if let Some(name) = host.session_name {
        only_blank_texts_trim_to_nothing(name@);
    }
}

/// The title is the name without the white space around it, and a session with a
/// title is shown under it, whatever its directory.
pub proof fn a_titled_session_is_shown_under_its_title(
    host: Host,
    name: String,
    a: Seq<char>,
    s: Seq<char>,
    b: Seq<char>,
)
    requires
        host.session_name == Some(name),
        name@ == a + s + b,
        is_blank(a),
        is_blank(b),
        s.len() > 0,
        !is_space(s[0]),
        !is_space(s.last()),
    ensures
        title(host) == Some(s),
        shown_name(host) == s,
{
    trimming_takes_the_white_space_around(a, s, b);
}

/// Sessions with the same name have the same title, or both have none.
pub proof fn only_the_name_makes_a_title(x: Host, y: Host)
    requires
        x.session_name == y.session_name,
    ensures
        title(x) == title(y),
{
}

/// The last component of a path is what stands behind the last separator, but
/// for separators at the end.
pub proof fn the_leaf_follows_the_last_separator(
    dir: Seq<char>,
    name: Seq<char>,
    seps: Seq<char>,
)
    requires
        dir.len() > 0 ==> dir.last() == '/' || dir.last() == '\\',
        forall|i: int| 0 <= i < name.len() ==> name[i] != '/' && name[i] != '\\',
        forall|i: int| 0 <= i < seps.len() ==> seps[i] == '/' || seps[i] == '\\',
        name.len() > 0,
    ensures
        leaf(dir + name + seps) == name,
        leaf(seps).len() == 0,
{
    separators_do_not_count(dir + name, seps);
    assert((dir + name).last() == name.last());
    leaf_of_the_rest(dir, name);
    let none = Seq::<char>::empty();
    assert(none + seps =~= seps);
    separators_do_not_count(none, seps);
}

proof fn separators_do_not_count(path: Seq<char>, seps: Seq<char>)
    requires
        forall|i: int| 0 <= i < seps.len() ==> seps[i] == '/' || seps[i] == '\\',
    ensures
        without_trailing_separators(path + seps) == without_trailing_separators(path),
    decreases seps.len(),
{
    if seps.len() == 0 {
        assert(path + seps =~= path);
    } else {
        assert((path + seps).drop_last() =~= path + seps.drop_last());
        assert(seps[seps.len() - 1] == (path + seps).last());
        separators_do_not_count(path, seps.drop_last());
    }
}

proof fn leaf_of_the_rest(dir: Seq<char>, name: Seq<char>)
    requires
        dir.len() > 0 ==> dir.last() == '/' || dir.last() == '\\',
        forall|i: int| 0 <= i < name.len() ==> name[i] != '/' && name[i] != '\\',
    ensures
        after_last_separator(dir + name) == name,
    decreases name.len(),
{
    if name.len() == 0 {
        assert(dir + name =~= dir);
    } else {
        assert((dir + name).drop_last() =~= dir + name.drop_last());
        leaf_of_the_rest(dir, name.drop_last());
        assert(name =~= name.drop_last().push(name.last()));
    }
}

/// A session without a title is shown under the last component of its working
/// directory, and under its instance id where there is none.
pub proof fn an_untitled_session_is_shown_under_its_directory(
    host: Host,
    dir: Seq<char>,
    name: Seq<char>,
    seps: Seq<char>,
)
    requires
        host.session_name matches Some(n) ==> is_blank(n@),
        dir.len() > 0 ==> dir.last() == '/' || dir.last() == '\\',
        forall|i: int| 0 <= i < name.len() ==> name[i] != '/' && name[i] != '\\',
        forall|i: int| 0 <= i < seps.len() ==> seps[i] == '/' || seps[i] == '\\',
        name.len() > 0,
    ensures
        host.cwd@ == dir + name + seps ==> shown_name(host) == name,
        host.cwd@ == seps ==> shown_name(host) == host.instance_id@,
{
    the_leaf_follows_the_last_separator(dir, name, seps);
    if let Some(n) = host.session_name {
        only_blank_texts_trim_to_nothing(n@);
    }
}

/// The label of a model has the provider first and the id last, whole, with one
/// slash between them where there are both. There is none where both are empty.
pub proof fn a_model_label_holds_provider_and_id(host: Host)
    ensures
        host.model is None ==> label_of_model(host) is None,
        host.model matches Some(m) ==> {
            let (p, id) = (m.provider@, m.id@);
            &&& label_of_model(host) is None <==> p.len() + id.len() == 0
            &&& label_of_model(host) matches Some(label) ==> {
                &&& p.is_prefix_of(label)
                &&& id.is_suffix_of(label)
                &&& if p.len() > 0 && id.len() > 0 {
                    label.len() == p.len() + 1 + id.len() && label[p.len() as int] == '/'
                } else {
                    label.len() == p.len() + id.len()
                }
            }
        },
{
    reveal_strlit("/");
    if let Some(m) = host.model {
        let (p, id) = (m.provider@, m.id@);
        if let Some(label) = label_of_model(host) {
            assert(label.subrange(0, p.len() as int) =~= p);
            assert(label.subrange(label.len() - id.len(), label.len() as int) =~= id);
        }
    }
}

} // verus!
