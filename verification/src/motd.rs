//! The MOTD record and its wire form.
//!
//! A record is written as its message alone, or as the message, a newline, the
//! marker `MOTDURL=` and the URL. `decode_spec` is the inverse of `encode_spec`
//! on the strings of that shape, and the laws at the end of this file say so.

use vstd::prelude::*;
use vstd::std_specs::iter::IteratorSpec;
use vstd::string::StrSliceExecFns;
use vstd::string::StringExecFns;

verus! {

/// A message of the day: one line of text and an optional clickable URL.
#[derive(Debug)]
pub struct Motd {
    pub message: String,
    pub url: Option<String>,
}

/// What a `Motd` is to the contracts: its two texts as sequences of characters.
pub struct MotdView {
    pub message: Seq<char>,
    pub url: Option<Seq<char>>,
}

impl View for Motd {
    type V = MotdView;

    open spec fn view(&self) -> MotdView {
        MotdView {
            message: self.message@,
            url: match self.url {
                Some(u) => Some(u@),
                None => None,
            },
        }
    }
}

impl DeepView for Motd {
    type V = MotdView;

    open spec fn deep_view(&self) -> MotdView {
        self@
    }
}

/// The newline that separates the message from the URL segment.
pub open spec fn newline() -> Seq<char> {
    seq!['\n']
}

/// The marker that opens the URL segment: `MOTDURL=`.
pub open spec fn url_marker() -> Seq<char> {
    seq!['M', 'O', 'T', 'D', 'U', 'R', 'L', '=']
}

/// `s` holds no newline, so that splitting it on the newline gives `s` itself.
pub open spec fn is_line(s: Seq<char>) -> bool {
    forall|i: int| 0 <= i < s.len() ==> s[i] != '\n'
}

/// A record whose wire form reads back as the same record: neither text holds
/// a newline.
pub open spec fn well_formed(m: MotdView) -> bool {
    &&& is_line(m.message)
    &&& m.url matches Some(u) ==> is_line(u)
}

/// The wire form of a record.
pub open spec fn encode_spec(m: MotdView) -> Seq<char> {
    match m.url {
        Some(u) => m.message + newline() + url_marker() + u,
        None => m.message,
    }
}

/// The position of the first newline of `s`, where it has one.
pub open spec fn first_newline(s: Seq<char>) -> int {
    choose|i: int| 0 <= i < s.len() && s[i] == '\n' && is_line(s.subrange(0, i))
}

/// What a wire form reads back as. `s` is split on the newline. One segment is
/// a message without a URL. Two segments are a message and a URL, if the second
/// one opens with `MOTDURL=`. Everything else is no record.
pub open spec fn decode_spec(s: Seq<char>) -> Option<MotdView> {
    if is_line(s) {
        Some(MotdView { message: s, url: None })
    } else {
        let cut = first_newline(s);
        let tail = s.subrange(cut + 1, s.len() as int);
        if is_line(tail) && url_marker().is_prefix_of(tail) {
            Some(
                MotdView {
                    message: s.subrange(0, cut),
                    url: Some(tail.subrange(url_marker().len() as int, tail.len() as int)),
                },
            )
        } else {
            None
        }
    }
}

impl Motd {
    /// Reads a record back from its wire form. What is not the wire form of a
    /// record comes back whole as the error.
    pub fn parse(s: &str) -> (res: Result<Motd, String>)
        ensures
            res is Ok <==> decode_spec(s@) is Some,
            match res {
                Ok(m) => decode_spec(s@) == Some(m@),
                Err(raw) => raw@ == s@,
            },
    {
        match find_newline(s) {
            None => Ok(Motd { message: s.to_owned(), url: None }),
            Some(cut) => {
                proof {
                    lemma_first_newline(s@, cut as int);
                }
                let len = s.unicode_len();
                let tail = s.substring_char(cut + 1, len);
                if find_newline(tail).is_none() && has_url_marker(tail) {
                    let message = s.substring_char(0, cut).to_owned();
                    let url = tail.substring_char(8, tail.unicode_len()).to_owned();
                    Ok(Motd { message, url: Some(url) })
                } else {
                    Err(s.to_owned())
                }
            },
        }
    }

    /// The wire form of this record: the message, followed, where there is a
    /// URL, by a newline, `MOTDURL=` and the URL.
    pub fn to_string(&self) -> (res: String)
        ensures
            res@ == encode_spec(self@),
    {
        let mut out = self.message.clone();
        match &self.url {
            Some(url) => {
                proof {
                    reveal_strlit("\nMOTDURL=");
                    assert("\nMOTDURL="@ =~= newline() + url_marker());
                }
                out.append("\nMOTDURL=");
                out.append(url.as_str());
                assert(out@ =~= encode_spec(self@));
            },
            None => {},
        }
        out
    }
}

/// Finds the first newline of `s`, by its position counted in characters.
fn find_newline(s: &str) -> (pos: Option<usize>)
    ensures
        match pos {
            Some(i) => i < s@.len() && s@[i as int] == '\n' && is_line(s@.subrange(0, i as int)),
            None => is_line(s@),
        },
{
    let n = s.unicode_len();
    let mut rest = s.chars();
    let mut i: usize = 0;
    loop
        invariant
            n == s@.len(),
            i <= n,
            rest.remaining() == s@.subrange(i as int, n as int),
            is_line(s@.subrange(0, i as int)),
        decreases n - i,
    {
        match rest.next() {
            None => {
                assert(s@.subrange(0, i as int) =~= s@);
                return None;
            },
            Some(c) => {
                assert(c == s@.subrange(i as int, n as int)[0]);
                if c == '\n' {
                    return Some(i);
                }
                assert(s@.subrange(i as int, n as int).drop_first() =~= s@.subrange(
                    i + 1,
                    n as int,
                ));
                proof {
                    let head = s@.subrange(0, i + 1);
                    assert forall|j: int| 0 <= j < head.len() implies head[j] != '\n' by {
                        if j < i {
                            assert(s@.subrange(0, i as int)[j] == head[j]);
                        }
                    }
                }
                i += 1;
            },
        }
    }
}

/// Whether `s` opens with the marker `MOTDURL=`.
fn has_url_marker(s: &str) -> (b: bool)
    ensures
        b == url_marker().is_prefix_of(s@),
{
    if s.unicode_len() < 8 {
        return false;
    }
    let head = s.substring_char(0, 8).to_owned();
    let marker = "MOTDURL=".to_owned();
    proof {
        reveal_strlit("MOTDURL=");
        assert("MOTDURL="@ =~= url_marker());
    }
    head == marker
}

/// The first newline is where a newline stands with none before it.
pub proof fn lemma_first_newline(s: Seq<char>, i: int)
    requires
        0 <= i < s.len(),
        s[i] == '\n',
        is_line(s.subrange(0, i)),
    ensures
        first_newline(s) == i,
        !is_line(s),
{
    let j = first_newline(s);
    assert(0 <= j < s.len() && s[j] == '\n' && is_line(s.subrange(0, j)));
    if j < i {
        assert(s.subrange(0, i)[j] == '\n');
    }
    if i < j {
        assert(s.subrange(0, j)[i] == '\n');
    }
}

/// A text that is not a line has a first newline: a newline with none before it.
pub proof fn lemma_first_newline_exists(s: Seq<char>)
    requires
        !is_line(s),
    ensures
        0 <= first_newline(s) < s.len(),
        s[first_newline(s)] == '\n',
        is_line(s.subrange(0, first_newline(s))),
{
    let k = choose|k: int| 0 <= k < s.len() && s[k] == '\n';
    lemma_newline_before(s, k);
}

proof fn lemma_newline_before(s: Seq<char>, k: int)
    requires
        0 <= k < s.len(),
        s[k] == '\n',
    ensures
        exists|i: int| 0 <= i < s.len() && s[i] == '\n' && is_line(s.subrange(0, i)),
    decreases k,
{
    let head = s.subrange(0, k);
    if !is_line(head) {
        let j = choose|j: int| 0 <= j < head.len() && head[j] == '\n';
        assert(s[j] == head[j]);
        lemma_newline_before(s, j);
    }
}

/// Reading back the wire form of a record gives the record again, for every
/// record whose message and URL hold no newline.
pub proof fn decode_inverts_encode(m: MotdView)
    requires
        well_formed(m),
    ensures
        decode_spec(encode_spec(m)) == Some(m),
{
    let s = encode_spec(m);
    match m.url {
        None => {},
        Some(u) => {
            let cut = m.message.len() as int;
            assert(s.subrange(0, cut) =~= m.message);
            lemma_first_newline(s, cut);
            let tail = s.subrange(cut + 1, s.len() as int);
            assert(tail =~= url_marker() + u);
            assert(tail.subrange(0, url_marker().len() as int) =~= url_marker());
            assert(tail.subrange(url_marker().len() as int, tail.len() as int) =~= u);
        },
    }
}

/// Writing the record that a string reads back as gives the string again, for
/// every string that reads back as a record. Such a record is well formed.
pub proof fn encode_inverts_decode(s: Seq<char>)
    requires
        decode_spec(s) is Some,
    ensures
        encode_spec(decode_spec(s)->0) == s,
        well_formed(decode_spec(s)->0),
{
    if !is_line(s) {
        lemma_first_newline_exists(s);
        let cut = first_newline(s);
        let tail = s.subrange(cut + 1, s.len() as int);
        let u = tail.subrange(url_marker().len() as int, tail.len() as int);
        assert(tail =~= url_marker() + u);
        assert(s =~= s.subrange(0, cut) + newline() + url_marker() + u);
        assert forall|i: int| 0 <= i < u.len() implies u[i] != '\n' by {
            assert(u[i] == tail[i + url_marker().len()]);
        }
    }
}

/// The strings that read back as a record are the wire forms of the records
/// without a newline in their texts, and no others.
pub proof fn accepted_are_the_wire_forms(s: Seq<char>)
    ensures
        decode_spec(s) is Some <==> exists|m: MotdView| well_formed(m) && encode_spec(m) == s,
{
    if decode_spec(s) is Some {
        encode_inverts_decode(s);
        let m = decode_spec(s)->0;
        assert(well_formed(m) && encode_spec(m) == s);
    }
    if exists|m: MotdView| well_formed(m) && encode_spec(m) == s {
        let m = choose|m: MotdView| well_formed(m) && encode_spec(m) == s;
        decode_inverts_encode(m);
    }
}

/// Two records without a newline in their texts that are written alike are
/// the same record.
pub proof fn encode_is_injective(a: MotdView, b: MotdView)
    requires
        well_formed(a),
        well_formed(b),
        encode_spec(a) == encode_spec(b),
    ensures
        a == b,
{
    decode_inverts_encode(a);
    decode_inverts_encode(b);
}

/// A string with two newlines, that is one of three segments or more, is no
/// record.
pub proof fn three_segments_rejected(s: Seq<char>, i: int, j: int)
    requires
        0 <= i < j < s.len(),
        s[i] == '\n',
        s[j] == '\n',
    ensures
        decode_spec(s) is None,
{
    lemma_first_newline_exists(s);
    let cut = first_newline(s);
    if i < cut {
        assert(s.subrange(0, cut)[i] == '\n');
    }
    let tail = s.subrange(cut + 1, s.len() as int);
    assert(tail[j - cut - 1] == '\n');
}

/// A string of two segments whose second does not open with `MOTDURL=` is no
/// record.
pub proof fn unmarked_segment_rejected(head: Seq<char>, tail: Seq<char>)
    requires
        is_line(head),
        !url_marker().is_prefix_of(tail),
    ensures
        decode_spec(head + newline() + tail) is None,
{
    let s = head + newline() + tail;
    let cut = head.len() as int;
    assert(first_newline(s) == cut && !is_line(s)) by {
        assert(s.subrange(0, cut) =~= head);
        lemma_first_newline(s, cut);
    }
    assert(s.subrange(cut + 1, s.len() as int) == tail) by {
        assert(s.subrange(cut + 1, s.len() as int) =~= tail);
    }
}

} // verus!
