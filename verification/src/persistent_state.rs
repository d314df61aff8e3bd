//! The persisted selection cursor: which list and which target within it
//! are current. A target index is only ever meaningful under a selected
//! list, so changing or clearing the list clears the target with it, and
//! selecting a target with no list selected changes nothing.

use crate::codec::dec_opt_chars;
use crate::codec::dec_opt_num;
use crate::codec::enc_opt_chars;
use crate::codec::enc_opt_num;
use crate::codec::lemma_dec_opt_chars_exact;
use crate::codec::lemma_dec_opt_chars_of_enc;
use crate::codec::lemma_dec_opt_num_exact;
use crate::codec::lemma_dec_opt_num_of_enc;
use crate::codec::lemma_enc_opt_chars_len;
use crate::codec::lemma_subrange_join;
use crate::codec::lemma_subrange_split;
use crate::codec::read_opt_chars;
use crate::codec::read_opt_num;
use crate::codec::write_opt_chars;
use crate::codec::write_opt_num;
use vstd::prelude::*;

verus! {

/// The mathematical content of a [`PersistentState`].
pub struct SelectionView {
    pub list: Option<Seq<char>>,
    pub target: Option<u64>,
}

impl SelectionView {
    /// A target index is only meaningful when a list is selected.
    pub open spec fn inv(self) -> bool {
        self.target is Some ==> self.list is Some
    }
}

/// Selecting a list keeps it and drops any target selection.
pub open spec fn spec_set_list(s: SelectionView, l: Seq<char>) -> SelectionView {
    SelectionView { list: Some(l), target: None }
}

/// Clearing the list drops both selections.
pub open spec fn spec_clear_list(s: SelectionView) -> SelectionView {
    SelectionView { list: None, target: None }
}

/// Selecting a target keeps the list; with no list selected it changes
/// nothing.
pub open spec fn spec_set_target(s: SelectionView, i: u64) -> SelectionView {
    if s.list is Some {
        SelectionView { list: s.list, target: Some(i) }
    } else {
        s
    }
}

/// Whatever was selected before, choosing a list, then a target, then
/// another list leaves no target selected; and selecting a target with
/// no list selected is the identity.
pub proof fn lemma_selection_invalidation(s: SelectionView, x: Seq<char>, i: u64, y: Seq<char>)
    ensures
        spec_set_list(spec_set_target(spec_set_list(s, x), i), y).target is None,
        s.list is None ==> spec_set_target(s, i) == s,
{
}

/// The persisted cursor over lists and targets.
#[derive(Debug, Clone, PartialEq, Eq)]
pub struct PersistentState {
    list: Option<String>,
    target: Option<usize>,
}

impl View for PersistentState {
    type V = SelectionView;

    closed spec fn view(&self) -> SelectionView {
        SelectionView {
            list: match self.list {
                Some(ref l) => Some(l@),
                None => None,
            },
            target: match self.target {
                Some(t) => Some(t as u64),
                None => None,
            },
        }
    }
}

impl Default for PersistentState {
    /// The state before anything was selected.
    fn default() -> (r: PersistentState)
        ensures
            r@.list is None,
            r@.target is None,
            r@.inv(),
    {
        PersistentState { list: None, target: None }
    }
}

impl PersistentState {
    /// The selected list's name, if one is selected.
    pub fn list(&self) -> (r: Option<&str>)
        ensures
            (match r {
                Some(l) => self@.list matches Some(vl) && l@ == vl,
                None => self@.list is None,
            }),
    {
        match &self.list {
            Some(l) => Some(l.as_str()),
            None => None,
        }
    }

    /// Select a list; any selected target becomes stale and is dropped.
    pub fn set_list(&mut self, list: &str)
        ensures
            final (self)@ == spec_set_list(old(self)@, list@),
            final (self)@.inv(),
    {
        self.list = Some(String::from_str(list));
        self.target = None;
    }

    /// Deselect the list, and with it any selected target.
    pub fn clear_list(&mut self)
        ensures
            final (self)@ == spec_clear_list(old(self)@),
            final (self)@.inv(),
    {
        self.list = None;
        self.target = None;
    }

    /// The selected target index, if one is selected.
    pub fn target(&self) -> (r: Option<usize>)
        ensures
            (match r {
                Some(t) => self@.target == Some(t as u64),
                None => self@.target is None,
            }),
    {
        self.target
    }

    /// Select a target within the selected list; with no list selected
    /// this changes nothing.
    pub fn set_target(&mut self, index: usize)
        ensures
            final (self)@ == spec_set_target(old(self)@, index as u64),
            old(self)@.inv() ==> final (self)@.inv(),
    {
        if self.list.is_some() {
            self.target = Some(index);
        }
    }
}

/// The cursor in its stored document form.
pub open spec fn enc_selection(v: SelectionView) -> Seq<char> {
    enc_opt_chars(v.list) + enc_opt_num(v.target)
}

/// Parse a stored cursor document. Trailing text, an index that does not
/// fit the machine, or a target selection without a list selection
/// rejects the document.
pub open spec fn dec_selection(s: Seq<char>) -> Option<SelectionView> {
    match dec_opt_chars(s, 0) {
        None => None,
        Some((list, p1)) => match dec_opt_num(s, p1) {
            None => None,
            Some((target, p2)) => if p2 == s.len() && (target matches Some(t) ==> t
                <= usize::MAX) && (SelectionView { list, target }).inv() {
                Some(SelectionView { list, target })
            } else {
                None
            },
        },
    }
}

/// Saving the cursor and parsing the document back yields the same
/// cursor.
pub proof fn lemma_selection_roundtrip(v: SelectionView)
    requires
        v.inv(),
        (v.list matches Some(l) ==> l.len() <= u64::MAX),
        (v.target matches Some(t) ==> t <= usize::MAX),
    ensures
        dec_selection(enc_selection(v)) == Some(v),
{
    let s = enc_selection(v);
    let a = enc_opt_chars(v.list);
    let b = enc_opt_num(v.target);
    lemma_enc_opt_chars_len(v.list);
    assert(s.subrange(0, s.len() as int) =~= s);
    lemma_subrange_split(s, 0, a, b);
    lemma_dec_opt_chars_of_enc(s, 0, v.list);
    lemma_dec_opt_num_of_enc(s, a.len() as int, v.target);
}

/// A cursor document parses only as the one cursor it encodes.
pub proof fn lemma_selection_exact(s: Seq<char>, v: SelectionView)
    requires
        dec_selection(s) == Some(v),
    ensures
        s == enc_selection(v),
        v.inv(),
{
    let (list, p1) = dec_opt_chars(s, 0).unwrap();
    lemma_dec_opt_chars_exact(s, 0, list, p1);
    let (target, p2) = dec_opt_num(s, p1).unwrap();
    lemma_dec_opt_num_exact(s, p1, target, p2);
    lemma_subrange_join(s, 0, p1, p2);
    assert(s.subrange(0, s.len() as int) =~= s);
}

impl PersistentState {
    /// The cursor in its stored document form.
    pub fn to_document(&self) -> (r: String)
        ensures
            r@ == enc_selection(self@),
    {
        let mut out = String::new();
        write_opt_chars(&mut out, &self.list);
        let t64: Option<u64> = match self.target {
            Some(t) => Some(t as u64),
            None => None,
        };
        write_opt_num(&mut out, &t64);
        proof {
            assert(out@ =~= enc_selection(self@));
        }
        out
    }

    /// Parse a stored cursor document, as [`dec_selection`] says.
    pub fn parse_document(doc: &str) -> (r: Option<PersistentState>)
        ensures
            r is Some <==> dec_selection(doc@) is Some,
            r matches Some(v) ==> dec_selection(doc@) == Some(v@) && v@.inv(),
    {
        let len = doc.unicode_len();
        match read_opt_chars(doc, 0) {
            None => None,
            Some((list, p1)) => match read_opt_num(doc, p1) {
                None => None,
                Some((target, p2)) => {
                    if p2 != len {
                        proof {
                            assert(dec_selection(doc@) is None);
                        }
                        return None;
                    }
                    let tsz: Option<usize> = match target {
                        None => None,
                        Some(t) => {
                            if t > usize::MAX as u64 {
                                proof {
                                    assert(dec_selection(doc@) is None);
                                }
                                return None;
                            }
                            Some(t as usize)
                        },
                    };
                    if tsz.is_some() && list.is_none() {
                        proof {
                            assert(!(SelectionView {
                                list: dec_opt_chars(doc@, 0).unwrap().0,
                                target: dec_opt_num(doc@, p1 as int).unwrap().0,
                            }).inv());
                            assert(dec_selection(doc@) is None);
                        }
                        return None;
                    }
                    let st = PersistentState { list, target: tsz };
                    proof {
                        assert(st@ == dec_selection(doc@).unwrap());
                    }
                    Some(st)
                },
            },
        }
    }
}

/// The cursor described in two lines, with `none` standing for an empty
/// selection.
pub open spec fn render_selection(v: SelectionView) -> Seq<char> {
    "current list:   "@ + (match v.list {
        Some(l) => l,
        None => "none"@,
    }) + "\ncurrent target: "@ + (match v.target {
        Some(t) => crate::hexnum::decimal_seq(t as nat),
        None => "none"@,
    })
}

impl PersistentState {
    /// Two lines describing the cursor.
    pub fn render(&self) -> (r: String)
        ensures
            r@ == render_selection(self@),
    {
        let mut out = String::from_str("current list:   ");
        match &self.list {
            Some(l) => out.append(l.as_str()),
            None => out.append("none"),
        }
        out.append("\ncurrent target: ");
        match self.target {
            Some(t) => {
                let d = crate::hexnum::decimal_string(t as u64);
                out.append(d.as_str());
            },
            None => out.append("none"),
        }
        proof {
            assert(out@ =~= render_selection(self@));
        }
        out
    }
}

} // verus!
