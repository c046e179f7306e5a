//! What the interface hands to a run: the chosen inputs and the configuration file in use.
//! It is passed to the run explicitly instead of living in process-wide state.

use vstd::prelude::*;

verus! {

/// A chosen input: record list, template, and whether QR codes are drawn.
pub type Selection = (String, String, bool);

pub open spec fn selection_views(v: Seq<Selection>) -> Seq<(Seq<char>, Seq<char>, bool)> {
    v.map_values(|s: Selection| (s.0@, s.1@, s.2))
}

/// The state shared between the interface and a run.
pub struct Session {
    pub selections: Option<Vec<Selection>>,
    pub config_path: Option<String>,
}

impl Session {
    /// A session with nothing chosen.
    pub fn new() -> (r: Session)
        ensures
            r.selections is None,
            r.config_path is None,
    {
        Session { selections: None, config_path: None }
    }
}

/// Replaces the chosen inputs.
pub fn set_current_selections(session: &mut Session, selections: Vec<Selection>)
    ensures
        final(session).selections == Some(selections),
        final(session).config_path == old(session).config_path,
{
    session.selections = Some(selections);
}

fn clone_selections(v: &Vec<Selection>) -> (r: Vec<Selection>)
    ensures
        selection_views(r@) == selection_views(v@),
{
    let mut r: Vec<Selection> = Vec::new();
    let mut i: usize = 0;
    while i < v.len()
        invariant
            i <= v.len(),
            selection_views(r@) == selection_views(v@.subrange(0, i as int)),
        decreases v.len() - i,
    {
        let s = &v[i];
        let a = s.0.clone();
        let b = s.1.clone();
        let ghost before = r@;
        r.push((a, b, s.2));
        assert(v@.subrange(0, i + 1) =~= v@.subrange(0, i as int).push(v@[i as int]));
        assert(selection_views(r@) =~= selection_views(before).push((a@, b@, s.2)));
        i += 1;
        assert(selection_views(r@) =~= selection_views(v@.subrange(0, i as int)));
    }
    assert(v@.subrange(0, v.len() as int) =~= v@);
    r
}

/// A copy of the chosen inputs, if any were chosen.
pub fn get_current_selections(session: &Session) -> (r: Option<Vec<Selection>>)
    ensures
        match (r, session.selections) {
            (Some(a), Some(b)) => selection_views(a@) == selection_views(b@),
            (None, None) => true,
            _ => false,
        },
{
    match &session.selections {
        Some(v) => Some(clone_selections(v)),
        None => None,
    }
}

/// Records the configuration file in use.
pub fn set_current_config_path(session: &mut Session, path: &str)
    ensures
        final(session).config_path matches Some(p) && p@ == path@,
        final(session).selections == old(session).selections,
{
    session.config_path = Some(path.to_owned());
}

/// The configuration file in use, if one was recorded.
pub fn get_current_config_path(session: &Session) -> (r: Option<String>)
    ensures
        match (r, session.config_path) {
            (Some(a), Some(b)) => a@ == b@,
            (None, None) => true,
            _ => false,
        },
{
    match &session.config_path {
        Some(p) => Some(p.clone()),
        None => None,
    }
}

} // verus!
