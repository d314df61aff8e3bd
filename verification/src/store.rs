//! Naming conventions of the record store: one file per record, named
//! after the record with a fixed suffix, all in one directory. The store
//! itself — creating, locking, reading and writing those files — lives
//! with the caller; what is here is every decision about names and
//! paths.

use crate::engine::path_concat;
use crate::engine::path_join;
use crate::strutil::concat_str;
use crate::strutil::str_eq;
use vstd::prelude::*;

verus! {

/// The suffix every record file carries.
pub open spec fn record_suffix() -> Seq<char> {
    seq!['.', 'j', 's', 'o', 'n']
}

/// Whether a file name carries the record suffix.
pub open spec fn has_record_suffix(file: Seq<char>) -> bool {
    file.len() >= 5 && file.subrange(file.len() - 5, file.len() as int) == record_suffix()
}

/// The file name with the record suffix removed.
pub open spec fn record_stem(file: Seq<char>) -> Seq<char>
    recommends
        has_record_suffix(file),
{
    file.subrange(0, file.len() - 5)
}

/// The record file name for `name`.
pub fn record_file_name(name: &str) -> (r: String)
    ensures
        r@ == name@ + record_suffix(),
{
    let r = concat_str(name, ".json");
    proof {
        reveal_strlit(".json");
        assert(".json"@ =~= record_suffix());
    }
    r
}

/// The full path of the record named `name` inside `directory`.
pub fn path_in_directory(directory: &str, name: &str) -> (r: String)
    ensures
        r@ == path_concat(directory@, name@ + record_suffix()),
{
    let file = record_file_name(name);
    path_join(directory, file.as_str())
}

/// Strip the record suffix from a file name, if it carries one.
pub fn strip_record_suffix(file: &str) -> (r: Option<String>)
    ensures
        r is Some <==> has_record_suffix(file@),
        r matches Some(st) ==> st@ == record_stem(file@),
{
    proof {
        reveal_strlit(".json");
        assert(".json"@ =~= record_suffix());
    }
    let len = file.unicode_len();
    if len < 5 {
        return None;
    }
    let tail = file.substring_char(len - 5, len);
    if !str_eq(tail, ".json") {
        return None;
    }
    let stem = file.substring_char(0, len - 5);
    Some(String::from_str(stem))
}

/// Making a record file name and stripping its suffix gives the name
/// back: directory listings round-trip store names.
pub proof fn lemma_record_name_roundtrip(name: Seq<char>)
    ensures
        has_record_suffix(name + record_suffix()),
        record_stem(name + record_suffix()) == name,
{
    let file = name + record_suffix();
    assert(file.subrange(file.len() - 5, file.len() as int) =~= record_suffix());
    assert(file.subrange(0, file.len() - 5) =~= name);
}

/// The record names among a directory's file names, in listing order:
/// the stems of the names that carry the record suffix; other entries
/// are skipped.
pub open spec fn record_names_spec(files: Seq<Seq<char>>) -> Seq<Seq<char>>
    decreases files.len(),
{
    if files.len() == 0 {
        Seq::empty()
    } else {
        let rest = record_names_spec(files.drop_last());
        if has_record_suffix(files.last()) {
            rest.push(record_stem(files.last()))
        } else {
            rest
        }
    }
}

/// Collect the record names among `files`, as [`record_names_spec`]
/// says.
pub fn record_names(files: &Vec<String>) -> (r: Vec<String>)
    ensures
        r@.map_values(|n: String| n@) == record_names_spec(files@.map_values(|f: String| f@)),
{
    let ghost fviews = files@.map_values(|f: String| f@);
    let mut out: Vec<String> = Vec::new();
    let mut k: usize = 0;
    proof {
        assert(fviews.subrange(0, 0) =~= Seq::<Seq<char>>::empty());
        assert(out@.map_values(|n: String| n@) =~= record_names_spec(fviews.subrange(0, 0)));
    }
    while k < files.len()
        invariant
            k <= files@.len(),
            fviews == files@.map_values(|f: String| f@),
            fviews.len() == files@.len(),
            out@.map_values(|n: String| n@) == record_names_spec(fviews.subrange(0, k as int)),
        decreases files@.len() - k,
    {
        let ghost pre = fviews.subrange(0, k as int);
        let ghost now = fviews.subrange(0, k + 1);
        proof {
            assert(now.drop_last() =~= pre);
            assert(now.last() == fviews[k as int]);
            assert(fviews[k as int] == files@[k as int]@);
        }
        match strip_record_suffix(files[k].as_str()) {
            Some(stem) => {
                out.push(stem);
                proof {
                    assert(out@.map_values(|n: String| n@) =~= record_names_spec(now));
                }
            },
            None => {
                proof {
                    assert(record_names_spec(now) == record_names_spec(pre));
                }
            },
        }
        k = k + 1;
    }
    proof {
        assert(fviews.subrange(0, fviews.len() as int) =~= fviews);
    }
    out
}

} // verus!
