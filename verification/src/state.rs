//! The per-run state: which list is active, and whether the state has
//! changed since it was last saved.

use crate::codec::dec_chars;
use crate::codec::enc_chars;
use crate::codec::lemma_dec_chars_exact;
use crate::codec::lemma_dec_chars_of_enc;
use crate::codec::read_chars;
use crate::codec::write_chars;
use vstd::prelude::*;

verus! {

/// The mathematical content of a [`State`].
pub struct StateView {
    pub active_list: Seq<char>,
    pub changed: bool,
}

/// The active-list cursor. Only the list name is persisted; the changed
/// mark tracks whether a save is due.
#[derive(Debug, Clone, PartialEq, Eq)]
pub struct State {
    active_list: String,
    changed: bool,
}

impl View for State {
    type V = StateView;

    closed spec fn view(&self) -> StateView {
        StateView { active_list: self.active_list@, changed: self.changed }
    }
}

impl Default for State {
    /// A fresh state: the list named `default` is active, nothing is
    /// pending a save.
    fn default() -> (r: State)
        ensures
            r@.active_list == "default"@,
            !r@.changed,
    {
        State { active_list: String::from_str("default"), changed: false }
    }
}

impl State {
    /// The active list's name.
    pub fn active_list(&self) -> (r: &str)
        ensures
            r@ == self@.active_list,
    {
        self.active_list.as_str()
    }

    /// Make another list the active one; the state is then due a save.
    pub fn set_active_list(&mut self, active_list: String)
        ensures
            final (self)@.active_list == active_list@,
            final (self)@.changed,
    {
        self.active_list = active_list;
        self.changed = true;
    }

    /// Whether the state changed since it was last saved.
    pub fn changed(&self) -> (r: bool)
        ensures
            r == self@.changed,
    {
        self.changed
    }

    /// Note that the state was just written out.
    pub fn mark_saved(&mut self)
        ensures
            final (self)@.active_list == old(self)@.active_list,
            !final (self)@.changed,
    {
        self.changed = false;
    }
}

/// The state in its stored document form. The changed mark is not
/// persisted.
pub open spec fn enc_state(v: StateView) -> Seq<char> {
    enc_chars(v.active_list)
}

/// Parse a stored state document; a parsed state is never due a save.
pub open spec fn dec_state(s: Seq<char>) -> Option<StateView> {
    match dec_chars(s, 0) {
        None => None,
        Some((active_list, p)) => if p == s.len() {
            Some(StateView { active_list, changed: false })
        } else {
            None
        },
    }
}

/// Saving the state and parsing the document back yields the same
/// active list, with no save due.
pub proof fn lemma_state_roundtrip(v: StateView)
    requires
        v.active_list.len() <= u64::MAX,
    ensures
        dec_state(enc_state(v)) == Some(StateView { active_list: v.active_list, changed: false }),
{
    let s = enc_state(v);
    crate::codec::lemma_enc_chars_len(v.active_list);
    assert(s.subrange(0, s.len() as int) =~= s);
    lemma_dec_chars_of_enc(s, 0, v.active_list);
}

/// A state document parses only as the one state it encodes.
pub proof fn lemma_state_exact(s: Seq<char>, v: StateView)
    requires
        dec_state(s) == Some(v),
    ensures
        s == enc_state(v),
        !v.changed,
{
    let (active_list, p) = dec_chars(s, 0).unwrap();
    lemma_dec_chars_exact(s, 0, active_list, p);
    assert(s.subrange(0, s.len() as int) =~= s);
}

impl State {
    /// The state in its stored document form.
    pub fn to_document(&self) -> (r: String)
        ensures
            r@ == enc_state(self@),
    {
        let mut out = String::new();
        write_chars(&mut out, self.active_list.as_str());
        proof {
            assert(out@ =~= enc_state(self@));
        }
        out
    }

    /// Parse a stored state document, as [`dec_state`] says.
    pub fn parse_document(doc: &str) -> (r: Option<State>)
        ensures
            r is Some <==> dec_state(doc@) is Some,
            r matches Some(v) ==> dec_state(doc@) == Some(v@),
    {
        let len = doc.unicode_len();
        match read_chars(doc, 0) {
            None => None,
            Some((active_list, p)) => {
                if p != len {
                    proof {
                        assert(dec_state(doc@) is None);
                    }
                    return None;
                }
                Some(State { active_list, changed: false })
            },
        }
    }
}

} // verus!
