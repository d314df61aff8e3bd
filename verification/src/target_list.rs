//! A named, ordered list of download targets, and its stored document
//! form: the record that the store keeps in one file per list.

use crate::codec::dec_chars;
use crate::codec::dec_num;
use crate::codec::dec_opt_chars;
use crate::codec::dec_str_list;
use crate::codec::enc_chars;
use crate::codec::enc_num;
use crate::codec::enc_opt_chars;
use crate::codec::enc_str_list;
use crate::codec::lemma_dec_chars_exact;
use crate::codec::lemma_dec_chars_of_enc;
use crate::codec::lemma_dec_num_exact;
use crate::codec::lemma_dec_num_of_enc;
use crate::codec::lemma_dec_opt_chars_exact;
use crate::codec::lemma_dec_opt_chars_of_enc;
use crate::codec::lemma_dec_str_list_exact;
use crate::codec::lemma_dec_str_list_of_enc;
use crate::codec::lemma_subrange_join;
use crate::codec::lemma_subrange_split;
use crate::codec::read_chars;
use crate::codec::read_num;
use crate::codec::read_opt_chars;
use crate::codec::read_str_list;
use crate::codec::write_chars;
use crate::codec::write_num;
use crate::codec::write_opt_chars;
use crate::codec::write_str_list;
use crate::names::creatable_list_name;
use crate::names::is_creatable_list_name;
use crate::strutil::str_eq;
use crate::target::Target;
use crate::target::TargetView;
use vstd::prelude::*;

verus! {

/// The mathematical content of a [`TargetList`].
pub struct TargetListView {
    pub name: Seq<char>,
    pub comment: Option<Seq<char>>,
    pub targets: Seq<TargetView>,
}

/// The machine-size bounds that every value held in memory meets.
pub open spec fn target_len_ok(t: TargetView) -> bool {
    &&& t.urls.len() <= u64::MAX
    &&& (forall|j: int| 0 <= j < t.urls.len() ==> #[trigger] t.urls[j].len() <= u64::MAX)
    &&& t.file.len() <= u64::MAX
    &&& (t.comment matches Some(c) ==> c.len() <= u64::MAX)
}

impl TargetListView {
    /// Structural well-formedness: every target names at least one URL.
    pub open spec fn wf(self) -> bool {
        forall|i: int| 0 <= i < self.targets.len() ==> (#[trigger] self.targets[i]).wf()
    }

    /// The machine-size bounds that every value held in memory meets.
    pub open spec fn len_ok(self) -> bool {
        &&& self.name.len() <= u64::MAX
        &&& (self.comment matches Some(c) ==> c.len() <= u64::MAX)
        &&& self.targets.len() <= u64::MAX
        &&& (forall|i: int|
            0 <= i < self.targets.len() ==> target_len_ok(#[trigger] self.targets[i]))
    }
}

/// A named, ordered collection of targets.
#[derive(Debug, Clone, PartialEq, Eq)]
pub struct TargetList {
    name: String,
    comment: Option<String>,
    targets: Vec<Target>,
}

impl View for TargetList {
    type V = TargetListView;

    closed spec fn view(&self) -> TargetListView {
        TargetListView {
            name: self.name@,
            comment: match self.comment {
                Some(ref c) => Some(c@),
                None => None,
            },
            targets: self.targets@.map_values(|t: Target| t@),
        }
    }
}

/// Why a list could not be created.
#[derive(Debug, Clone, Copy, PartialEq, Eq, Structural)]
pub enum ListNameError {
    /// The name is not a well-formed list name, or is the reserved
    /// sentinel.
    Forbidden,
}

/// Why a stored document could not be loaded as the requested list.
#[derive(Debug, Clone, Copy, PartialEq, Eq, Structural)]
pub enum LoadError {
    /// The document is not, in full, the encoding of one list.
    ParseFailed,
    /// The document parses, but embeds a different name than requested.
    NameMismatch,
}

impl TargetList {
    /// Create an empty list under a validated name.
    pub fn new(name: &str, comment: Option<&str>) -> (r: Result<TargetList, ListNameError>)
        ensures
            r is Ok <==> creatable_list_name(name@),
            r matches Ok(l) ==> {
                &&& l@.name == name@
                &&& l@.comment == (match comment {
                    Some(c) => Some(c@),
                    None => None::<Seq<char>>,
                })
                &&& l@.targets.len() == 0
                &&& l@.wf()
            },
    {
        if !is_creatable_list_name(name) {
            return Err(ListNameError::Forbidden);
        }
        let c = match comment {
            Some(c) => Some(String::from_str(c)),
            None => None,
        };
        let l = TargetList { name: String::from_str(name), comment: c, targets: Vec::new() };
        proof {
            assert(l@.targets =~= Seq::<TargetView>::empty());
        }
        Ok(l)
    }

    /// The list's name.
    pub fn name(&self) -> (r: &str)
        ensures
            r@ == self@.name,
    {
        self.name.as_str()
    }

    /// The list's comment, if any.
    pub fn comment(&self) -> (r: &Option<String>)
        ensures
            (match r {
                Some(c) => self@.comment matches Some(vc) && c@ == vc,
                None => self@.comment is None,
            }),
    {
        &self.comment
    }

    /// Append a target; its index is the previous target count.
    pub fn add_target(&mut self, t: Target)
        ensures
            final (self)@.name == old(self)@.name,
            final (self)@.comment == old(self)@.comment,
            final (self)@.targets == old(self)@.targets.push(t@),
    {
        self.targets.push(t);
        proof {
            assert(final (self)@.targets =~= old(self)@.targets.push(t@));
        }
    }

    /// How many targets the list holds.
    pub fn target_count(&self) -> (r: usize)
        ensures
            r == self@.targets.len(),
    {
        self.targets.len()
    }

    /// The target at index `i`.
    pub fn target_at(&self, i: usize) -> (r: &Target)
        requires
            i < self@.targets.len(),
        ensures
            r@ == self@.targets[i as int],
    {
        &self.targets[i]
    }

    /// All targets, in order.
    pub fn targets(&self) -> (r: &Vec<Target>)
        ensures
            r@.map_values(|t: Target| t@) == self@.targets,
    {
        &self.targets
    }

    /// Assemble a list from already-parsed parts.
    fn from_parts(name: String, comment: Option<String>, targets: Vec<Target>) -> (r: TargetList)
        ensures
            r@.name == name@,
            r@.comment == (match comment {
                Some(ref c) => Some(c@),
                None => None::<Seq<char>>,
            }),
            r@.targets == targets@.map_values(|t: Target| t@),
    {
        TargetList { name, comment, targets }
    }
}

/// One target in its stored form.
pub open spec fn enc_target(t: TargetView) -> Seq<char> {
    enc_num(t.urls.len() as u64) + enc_str_list(t.urls) + enc_chars(t.file) + enc_opt_chars(
        t.comment,
    )
}

/// A sequence of targets in its stored form, first target first.
pub open spec fn enc_target_seq(ts: Seq<TargetView>) -> Seq<char>
    decreases ts.len(),
{
    if ts.len() == 0 {
        Seq::empty()
    } else {
        enc_target(ts[0]) + enc_target_seq(ts.drop_first())
    }
}

/// A whole list in its stored document form.
pub open spec fn enc_target_list(l: TargetListView) -> Seq<char> {
    enc_chars(l.name) + enc_opt_chars(l.comment) + enc_num(l.targets.len() as u64)
        + enc_target_seq(l.targets)
}

/// Parse one target at `pos`. A target with no URLs is rejected.
pub open spec fn dec_target(s: Seq<char>, pos: int) -> Option<(TargetView, int)> {
    match dec_num(s, pos) {
        None => None,
        Some((n, p1)) => if n == 0 {
            None
        } else {
            match dec_str_list(s, p1, n as nat) {
                None => None,
                Some((urls, p2)) => match dec_chars(s, p2) {
                    None => None,
                    Some((file, p3)) => match dec_opt_chars(s, p3) {
                        None => None,
                        Some((comment, p4)) => Some((TargetView { urls, file, comment }, p4)),
                    },
                },
            }
        },
    }
}

/// Parse `count` targets at `pos`.
pub open spec fn dec_target_seq(s: Seq<char>, pos: int, count: nat) -> Option<
    (Seq<TargetView>, int),
>
    decreases count,
{
    if count == 0 {
        Some((Seq::empty(), pos))
    } else {
        match dec_target(s, pos) {
            None => None,
            Some((t, p1)) => match dec_target_seq(s, p1, (count - 1) as nat) {
                None => None,
                Some((ts, p2)) => Some((seq![t] + ts, p2)),
            },
        }
    }
}

/// Parse a whole document. Trailing text rejects the document.
pub open spec fn dec_target_list(s: Seq<char>) -> Option<TargetListView> {
    match dec_chars(s, 0) {
        None => None,
        Some((name, p1)) => match dec_opt_chars(s, p1) {
            None => None,
            Some((comment, p2)) => match dec_num(s, p2) {
                None => None,
                Some((n, p3)) => match dec_target_seq(s, p3, n as nat) {
                    None => None,
                    Some((ts, p4)) => if p4 == s.len() {
                        Some(TargetListView { name, comment, targets: ts })
                    } else {
                        None
                    },
                },
            },
        },
    }
}

pub proof fn lemma_dec_target_of_enc(s: Seq<char>, pos: int, t: TargetView)
    requires
        0 <= pos,
        t.wf(),
        target_len_ok(t),
        pos + enc_target(t).len() <= s.len(),
        s.subrange(pos, pos + enc_target(t).len()) == enc_target(t),
    ensures
        dec_target(s, pos) == Some((t, pos + enc_target(t).len())),
{
    let a = enc_num(t.urls.len() as u64);
    let b = enc_str_list(t.urls);
    let c = enc_chars(t.file);
    let d = enc_opt_chars(t.comment);
    crate::codec::lemma_enc_num_len(t.urls.len() as u64);
    crate::codec::lemma_enc_chars_len(t.file);
    crate::codec::lemma_enc_opt_chars_len(t.comment);
    assert(enc_target(t) == a + b + c + d);
    assert(a + b + c + d =~= (a + (b + (c + d))));
    lemma_subrange_split(s, pos, a, b + (c + d));
    lemma_subrange_split(s, pos + a.len(), b, c + d);
    lemma_subrange_split(s, pos + a.len() + b.len() as int, c, d);
    lemma_dec_num_of_enc(s, pos, t.urls.len() as u64);
    let p1 = pos + a.len();
    lemma_dec_str_list_of_enc(s, p1, t.urls);
    let p2 = p1 + b.len();
    lemma_dec_chars_of_enc(s, p2, t.file);
    let p3 = p2 + c.len();
    lemma_dec_opt_chars_of_enc(s, p3, t.comment);
}

pub proof fn lemma_dec_target_exact(s: Seq<char>, pos: int, t: TargetView, p: int)
    requires
        dec_target(s, pos) == Some((t, p)),
    ensures
        t.wf(),
        target_len_ok(t),
        p == pos + enc_target(t).len(),
        0 <= pos <= p <= s.len(),
        s.subrange(pos, p) == enc_target(t),
{
    let (n, p1) = dec_num(s, pos).unwrap();
    lemma_dec_num_exact(s, pos, n, p1);
    let (urls, p2) = dec_str_list(s, p1, n as nat).unwrap();
    lemma_dec_str_list_exact(s, p1, n as nat, urls, p2);
    let (file, p3) = dec_chars(s, p2).unwrap();
    lemma_dec_chars_exact(s, p2, file, p3);
    let (comment, p4) = dec_opt_chars(s, p3).unwrap();
    lemma_dec_opt_chars_exact(s, p3, comment, p4);
    assert(t.urls == urls && t.file == file && t.comment == comment);
    assert(urls.len() == n);
    lemma_subrange_join(s, pos, p1, p2);
    lemma_subrange_join(s, pos, p2, p3);
    lemma_subrange_join(s, pos, p3, p4);
}

pub proof fn lemma_dec_target_seq_of_enc(s: Seq<char>, pos: int, ts: Seq<TargetView>)
    requires
        0 <= pos,
        forall|i: int| 0 <= i < ts.len() ==> (#[trigger] ts[i]).wf(),
        forall|i: int| 0 <= i < ts.len() ==> target_len_ok(#[trigger] ts[i]),
        pos + enc_target_seq(ts).len() <= s.len(),
        s.subrange(pos, pos + enc_target_seq(ts).len()) == enc_target_seq(ts),
    ensures
        dec_target_seq(s, pos, ts.len()) == Some((ts, pos + enc_target_seq(ts).len())),
    decreases ts.len(),
{
    if ts.len() == 0 {
        assert(ts =~= Seq::<TargetView>::empty());
    } else {
        let head = enc_target(ts[0]);
        let rest = enc_target_seq(ts.drop_first());
        lemma_subrange_split(s, pos, head, rest);
        lemma_dec_target_of_enc(s, pos, ts[0]);
        assert(forall|i: int| 0 <= i < ts.drop_first().len() ==> (#[trigger] ts.drop_first()[i]).wf());
        assert(forall|i: int|
            0 <= i < ts.drop_first().len() ==> target_len_ok(#[trigger] ts.drop_first()[i]));
        lemma_dec_target_seq_of_enc(s, pos + head.len(), ts.drop_first());
        assert(seq![ts[0]] + ts.drop_first() =~= ts);
    }
}

pub proof fn lemma_dec_target_seq_exact(
    s: Seq<char>,
    pos: int,
    count: nat,
    ts: Seq<TargetView>,
    p: int,
)
    requires
        0 <= pos <= s.len(),
        dec_target_seq(s, pos, count) == Some((ts, p)),
    ensures
        ts.len() == count,
        forall|i: int| 0 <= i < ts.len() ==> (#[trigger] ts[i]).wf(),
        forall|i: int| 0 <= i < ts.len() ==> target_len_ok(#[trigger] ts[i]),
        p == pos + enc_target_seq(ts).len(),
        pos <= p <= s.len(),
        s.subrange(pos, p) == enc_target_seq(ts),
    decreases count,
{
    if count == 0 {
        assert(s.subrange(pos, pos) =~= enc_target_seq(ts));
    } else {
        let (t, p1) = dec_target(s, pos).unwrap();
        lemma_dec_target_exact(s, pos, t, p1);
        let (rest, p2) = dec_target_seq(s, p1, (count - 1) as nat).unwrap();
        lemma_dec_target_seq_exact(s, p1, (count - 1) as nat, rest, p2);
        assert(ts == seq![t] + rest);
        assert(ts[0] == t);
        assert(ts.drop_first() =~= rest);
        lemma_subrange_join(s, pos, p1, p2);
    }
}

/// Saving a list and parsing the document back yields the same list: the
/// round trip is the identity on every well-formed list.
pub proof fn lemma_document_roundtrip(l: TargetListView)
    requires
        l.wf(),
        l.len_ok(),
    ensures
        dec_target_list(enc_target_list(l)) == Some(l),
{
    let s = enc_target_list(l);
    let a = enc_chars(l.name);
    let b = enc_opt_chars(l.comment);
    let c = enc_num(l.targets.len() as u64);
    let d = enc_target_seq(l.targets);
    crate::codec::lemma_enc_chars_len(l.name);
    crate::codec::lemma_enc_opt_chars_len(l.comment);
    crate::codec::lemma_enc_num_len(l.targets.len() as u64);
    assert(s == a + b + c + d);
    assert(s.subrange(0, s.len() as int) =~= s);
    assert(a + b + c + d =~= a + (b + (c + d)));
    lemma_subrange_split(s, 0, a, b + (c + d));
    lemma_subrange_split(s, a.len() as int, b, c + d);
    lemma_subrange_split(s, a.len() + b.len() as int, c, d);
    lemma_dec_chars_of_enc(s, 0, l.name);
    let p1 = a.len() as int;
    lemma_dec_opt_chars_of_enc(s, p1, l.comment);
    let p2 = p1 + b.len();
    lemma_dec_num_of_enc(s, p2, l.targets.len() as u64);
    let p3 = p2 + c.len();
    lemma_dec_target_seq_of_enc(s, p3, l.targets);
}

/// A document parses only as the one list it is the encoding of.
pub proof fn lemma_document_exact(s: Seq<char>, l: TargetListView)
    requires
        dec_target_list(s) == Some(l),
    ensures
        s == enc_target_list(l),
        l.wf(),
        l.len_ok(),
{
    let (name, p1) = dec_chars(s, 0).unwrap();
    lemma_dec_chars_exact(s, 0, name, p1);
    let (comment, p2) = dec_opt_chars(s, p1).unwrap();
    lemma_dec_opt_chars_exact(s, p1, comment, p2);
    let (n, p3) = dec_num(s, p2).unwrap();
    lemma_dec_num_exact(s, p2, n, p3);
    let (ts, p4) = dec_target_seq(s, p3, n as nat).unwrap();
    lemma_dec_target_seq_exact(s, p3, n as nat, ts, p4);
    lemma_subrange_join(s, 0, p1, p2);
    lemma_subrange_join(s, 0, p2, p3);
    lemma_subrange_join(s, 0, p3, p4);
    assert(s.subrange(0, s.len() as int) =~= s);
}

/// Append one target's stored form to `out`.
pub fn write_target(out: &mut String, t: &Target)
    ensures
        final (out)@ == old(out)@ + enc_target(t@),
{
    let urls = t.urls();
    write_num(out, urls.len() as u64);
    write_str_list(out, urls);
    write_chars(out, t.file().as_str());
    let cref = t.comment();
    write_opt_chars(out, cref);
    proof {
        assert((match *cref {
            Some(ref c) => Some(c@),
            None => None::<Seq<char>>,
        }) == t@.comment);
        assert(final (out)@ =~= old(out)@ + enc_target(t@));
    }
}

/// Encoding one more target extends the stored form at its end.
pub proof fn lemma_enc_target_seq_push(ts: Seq<TargetView>, t: TargetView)
    ensures
        enc_target_seq(ts.push(t)) == enc_target_seq(ts) + enc_target(t),
    decreases ts.len(),
{
    assert(enc_target_seq(ts.push(t)) == enc_target(ts.push(t)[0]) + enc_target_seq(
        ts.push(t).drop_first(),
    ));
    if ts.len() == 0 {
        assert(ts.push(t)[0] == t);
        let tail = ts.push(t).drop_first();
        assert(tail =~= Seq::<TargetView>::empty());
        assert(enc_target_seq(tail) == Seq::<char>::empty());
        assert(enc_target(t) + Seq::<char>::empty() =~= enc_target(t));
        assert(Seq::<char>::empty() + enc_target(t) =~= enc_target(t));
    } else {
        let tail = ts.push(t).drop_first();
        assert(tail =~= ts.drop_first().push(t));
        lemma_enc_target_seq_push(ts.drop_first(), t);
        assert(enc_target_seq(tail) == enc_target_seq(ts.drop_first()) + enc_target(t));
        assert(ts.push(t)[0] == ts[0]);
        assert(enc_target(ts[0]) + (enc_target_seq(ts.drop_first()) + enc_target(t)) =~= (
        enc_target(ts[0]) + enc_target_seq(ts.drop_first())) + enc_target(t));
    }
}

/// Prefix the target list inside a parse result.
pub open spec fn join_target_prefix(pre: Seq<TargetView>, r: Option<(Seq<TargetView>, int)>) -> Option<
    (Seq<TargetView>, int),
> {
    match r {
        None => None,
        Some((l, p)) => Some((pre + l, p)),
    }
}

/// Read one target at `pos`, as [`dec_target`] says.
pub fn read_target(s: &str, pos: usize) -> (r: Option<(Target, usize)>)
    requires
        pos <= s@.len(),
    ensures
        r is Some <==> dec_target(s@, pos as int) is Some,
        r matches Some((t, p)) ==> dec_target(s@, pos as int) matches Some(x) && t@ == x.0 && p
            as int == x.1 && p <= s@.len(),
{
    match read_num(s, pos) {
        None => None,
        Some((n, p1)) => {
            if n == 0 {
                return None;
            }
            match read_str_list(s, p1, n) {
                None => None,
                Some((urls, p2)) => match read_chars(s, p2) {
                    None => None,
                    Some((file, p3)) => match read_opt_chars(s, p3) {
                        None => None,
                        Some((comment, p4)) => {
                            let ghost x = dec_target(s@, pos as int).unwrap();
                            proof {
                                assert((match comment {
                                    Some(ref c) => Some(c@),
                                    None => None::<Seq<char>>,
                                }) == x.0.comment);
                            }
                            let t = Target::from_parts(urls, file, comment);
                            proof {
                                assert(t@ == x.0);
                            }
                            Some((t, p4))
                        },
                    },
                },
            }
        },
    }
}

/// Read `count` targets at `pos`, as [`dec_target_seq`] says.
pub fn read_target_seq(s: &str, pos: usize, count: u64) -> (r: Option<(Vec<Target>, usize)>)
    requires
        pos <= s@.len(),
    ensures
        r is Some <==> dec_target_seq(s@, pos as int, count as nat) is Some,
        r matches Some((v, p)) ==> dec_target_seq(s@, pos as int, count as nat) matches Some(x)
            && v@.map_values(|t: Target| t@) == x.0 && p as int == x.1 && p <= s@.len(),
{
    let mut out: Vec<Target> = Vec::new();
    let mut p = pos;
    let mut k: u64 = 0;
    proof {
        assert(out@.map_values(|t: Target| t@) =~= Seq::<TargetView>::empty());
        match dec_target_seq(s@, pos as int, count as nat) {
            None => {},
            Some((l, pp)) => {
                assert(Seq::<TargetView>::empty() + l =~= l);
            },
        }
    }
    while k < count
        invariant
            k <= count,
            p <= s@.len(),
            out@.len() == k,
            dec_target_seq(s@, pos as int, count as nat) == join_target_prefix(
                out@.map_values(|t: Target| t@),
                dec_target_seq(s@, p as int, (count - k) as nat),
            ),
        decreases count - k,
    {
        match read_target(s, p) {
            None => {
                proof {
                    assert(dec_target_seq(s@, p as int, (count - k) as nat) is None);
                }
                return None;
            },
            Some((t, p2)) => {
                proof {
                    let pre = out@.map_values(|u: Target| u@);
                    let (dt, dp) = dec_target(s@, p as int).unwrap();
                    assert(dt == t@ && dp == p2 as int);
                    let restr = dec_target_seq(s@, p2 as int, (count - k - 1) as nat);
                    assert(dec_target_seq(s@, p as int, (count - k) as nat) == join_target_prefix(
                        seq![t@],
                        restr,
                    ));
                    assert(out@.push(t).map_values(|u: Target| u@) =~= pre + seq![t@]);
                    match restr {
                        None => {},
                        Some((l, pp)) => {
                            assert((pre + seq![t@]) + l =~= pre + (seq![t@] + l));
                        },
                    }
                }
                out.push(t);
                p = p2;
                k = k + 1;
            },
        }
    }
    proof {
        let pre = out@.map_values(|t: Target| t@);
        assert(dec_target_seq(s@, p as int, 0) == Some((Seq::<TargetView>::empty(), p as int)));
        assert(pre + Seq::<TargetView>::empty() =~= pre);
    }
    Some((out, p))
}

impl TargetList {
    /// The list in its stored document form.
    pub fn to_document(&self) -> (r: String)
        ensures
            r@ == enc_target_list(self@),
    {
        let mut out = String::new();
        write_chars(&mut out, self.name.as_str());
        write_opt_chars(&mut out, &self.comment);
        write_num(&mut out, self.targets.len() as u64);
        proof {
            assert((match self.comment {
                Some(ref c) => Some(c@),
                None => None::<Seq<char>>,
            }) == self@.comment);
        }
        let ghost header = out@;
        let ghost tviews = self@.targets;
        let mut k: usize = 0;
        proof {
            assert(tviews.subrange(0, 0) =~= Seq::<TargetView>::empty());
            assert(out@ =~= header + enc_target_seq(tviews.subrange(0, 0)));
        }
        while k < self.targets.len()
            invariant
                k <= self.targets.len(),
                tviews == self@.targets,
                tviews.len() == self.targets.len(),
                out@ == header + enc_target_seq(tviews.subrange(0, k as int)),
            decreases self.targets.len() - k,
        {
            write_target(&mut out, &self.targets[k]);
            proof {
                let pre = tviews.subrange(0, k as int);
                let now = tviews.subrange(0, k + 1);
                assert(self.targets@.map_values(|t: Target| t@)[k as int] == self.targets@[k as int]@);
                lemma_enc_target_seq_push(pre, tviews[k as int]);
                assert(now =~= pre.push(tviews[k as int]));
                assert(out@ =~= header + enc_target_seq(now));
            }
            k = k + 1;
        }
        proof {
            assert(tviews.subrange(0, tviews.len() as int) =~= tviews);
            assert(out@ =~= enc_target_list(self@));
        }
        out
    }

    /// Parse a whole document, as [`dec_target_list`] says: the document
    /// is accepted precisely when it is, in full, the encoding of one
    /// list.
    pub fn parse_document(doc: &str) -> (r: Option<TargetList>)
        ensures
            r is Some <==> dec_target_list(doc@) is Some,
            r matches Some(l) ==> dec_target_list(doc@) == Some(l@),
    {
        let len = doc.unicode_len();
        match read_chars(doc, 0) {
            None => None,
            Some((name, p1)) => match read_opt_chars(doc, p1) {
                None => None,
                Some((comment, p2)) => match read_num(doc, p2) {
                    None => None,
                    Some((n, p3)) => match read_target_seq(doc, p3, n) {
                        None => None,
                        Some((targets, p4)) => {
                            if p4 != len {
                                proof {
                                    assert(dec_target_list(doc@) is None);
                                }
                                return None;
                            }
                            let ghost lv = dec_target_list(doc@).unwrap();
                            proof {
                                assert((match comment {
                                    Some(ref c) => Some(c@),
                                    None => None::<Seq<char>>,
                                }) == lv.comment);
                            }
                            let l = TargetList::from_parts(name, comment, targets);
                            proof {
                                assert(l@ == lv);
                            }
                            Some(l)
                        },
                    },
                },
            },
        }
    }

    /// Load the list named `name` from a stored document: parse it and
    /// check the embedded name against the requested one.
    pub fn from_document(name: &str, doc: &str) -> (r: Result<TargetList, LoadError>)
        ensures
            r is Ok <==> (dec_target_list(doc@) matches Some(lv) && lv.name == name@),
            r matches Ok(l) ==> dec_target_list(doc@) == Some(l@) && l@.name == name@,
            r matches Err(e) ==> (match e {
                LoadError::ParseFailed => dec_target_list(doc@) is None,
                LoadError::NameMismatch => dec_target_list(doc@) matches Some(lv) && lv.name
                    != name@,
            }),
    {
        match TargetList::parse_document(doc) {
            None => Err(LoadError::ParseFailed),
            Some(l) => {
                if str_eq(l.name(), name) {
                    Ok(l)
                } else {
                    Err(LoadError::NameMismatch)
                }
            },
        }
    }
}

} // verus!
