//! A download list's metadata record: its name and a free-text
//! description.

use crate::codec::dec_chars;
use crate::codec::enc_chars;
use crate::codec::lemma_dec_chars_exact;
use crate::codec::lemma_dec_chars_of_enc;
use crate::codec::lemma_enc_chars_len;
use crate::codec::lemma_subrange_join;
use crate::codec::lemma_subrange_split;
use crate::codec::read_chars;
use crate::codec::write_chars;
use crate::strutil::str_eq;
use crate::target_list::LoadError;
use vstd::prelude::*;

verus! {

/// The mathematical content of a [`DownloadList`].
pub struct DownloadListView {
    pub name: Seq<char>,
    pub description: Seq<char>,
}

/// A named download list's metadata.
#[derive(Debug, Clone, PartialEq, Eq)]
pub struct DownloadList {
    name: String,
    description: String,
}

impl View for DownloadList {
    type V = DownloadListView;

    closed spec fn view(&self) -> DownloadListView {
        DownloadListView { name: self.name@, description: self.description@ }
    }
}

impl DownloadList {
    /// A fresh record under `name` with an empty description.
    pub fn new(name: String) -> (r: DownloadList)
        ensures
            r@.name == name@,
            r@.description.len() == 0,
    {
        DownloadList { name, description: String::new() }
    }

    /// The record's name.
    pub fn name(&self) -> (r: &str)
        ensures
            r@ == self@.name,
    {
        self.name.as_str()
    }

    /// The record's description.
    pub fn description(&self) -> (r: &str)
        ensures
            r@ == self@.description,
    {
        self.description.as_str()
    }

    /// Replace the description.
    pub fn set_description(&mut self, description: String)
        ensures
            final (self)@.name == old(self)@.name,
            final (self)@.description == description@,
    {
        self.description = description;
    }
}

/// The record in its stored document form.
pub open spec fn enc_download_list(v: DownloadListView) -> Seq<char> {
    enc_chars(v.name) + enc_chars(v.description)
}

/// Parse a stored record document. Trailing text rejects the document.
pub open spec fn dec_download_list(s: Seq<char>) -> Option<DownloadListView> {
    match dec_chars(s, 0) {
        None => None,
        Some((name, p1)) => match dec_chars(s, p1) {
            None => None,
            Some((description, p2)) => if p2 == s.len() {
                Some(DownloadListView { name, description })
            } else {
                None
            },
        },
    }
}

/// Saving a record and parsing the document back yields the same record.
pub proof fn lemma_download_list_roundtrip(v: DownloadListView)
    requires
        v.name.len() <= u64::MAX,
        v.description.len() <= u64::MAX,
    ensures
        dec_download_list(enc_download_list(v)) == Some(v),
{
    let s = enc_download_list(v);
    lemma_enc_chars_len(v.name);
    lemma_enc_chars_len(v.description);
    assert(s.subrange(0, s.len() as int) =~= s);
    lemma_subrange_split(s, 0, enc_chars(v.name), enc_chars(v.description));
    lemma_dec_chars_of_enc(s, 0, v.name);
    lemma_dec_chars_of_enc(s, enc_chars(v.name).len() as int, v.description);
}

/// A record document parses only as the one record it encodes.
pub proof fn lemma_download_list_exact(s: Seq<char>, v: DownloadListView)
    requires
        dec_download_list(s) == Some(v),
    ensures
        s == enc_download_list(v),
{
    let (name, p1) = dec_chars(s, 0).unwrap();
    lemma_dec_chars_exact(s, 0, name, p1);
    let (description, p2) = dec_chars(s, p1).unwrap();
    lemma_dec_chars_exact(s, p1, description, p2);
    lemma_subrange_join(s, 0, p1, p2);
    assert(s.subrange(0, s.len() as int) =~= s);
}

impl DownloadList {
    /// The record in its stored document form.
    pub fn to_document(&self) -> (r: String)
        ensures
            r@ == enc_download_list(self@),
    {
        let mut out = String::new();
        write_chars(&mut out, self.name.as_str());
        write_chars(&mut out, self.description.as_str());
        proof {
            assert(out@ =~= enc_download_list(self@));
        }
        out
    }

    /// Parse a stored record document, as [`dec_download_list`] says.
    pub fn parse_document(doc: &str) -> (r: Option<DownloadList>)
        ensures
            r is Some <==> dec_download_list(doc@) is Some,
            r matches Some(v) ==> dec_download_list(doc@) == Some(v@),
    {
        let len = doc.unicode_len();
        match read_chars(doc, 0) {
            None => None,
            Some((name, p1)) => match read_chars(doc, p1) {
                None => None,
                Some((description, p2)) => {
                    if p2 != len {
                        proof {
                            assert(dec_download_list(doc@) is None);
                        }
                        return None;
                    }
                    Some(DownloadList { name, description })
                },
            },
        }
    }

    /// Load the record named `name` from a stored document: parse it and
    /// check the embedded name against the requested one.
    pub fn from_document(name: &str, doc: &str) -> (r: Result<DownloadList, LoadError>)
        ensures
            r is Ok <==> (dec_download_list(doc@) matches Some(v) && v.name == name@),
            r matches Ok(l) ==> dec_download_list(doc@) == Some(l@) && l@.name == name@,
            r matches Err(e) ==> (match e {
                LoadError::ParseFailed => dec_download_list(doc@) is None,
                LoadError::NameMismatch => dec_download_list(doc@) matches Some(v) && v.name
                    != name@,
            }),
    {
        match DownloadList::parse_document(doc) {
            None => Err(LoadError::ParseFailed),
            Some(l) => {
                if str_eq(l.name(), name) {
                    Ok(l)
                } else {
                    Err(LoadError::NameMismatch)
                }
            },
        }
    }
}

} // verus!
