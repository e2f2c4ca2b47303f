//! The storage mapping: the MOTDs of a language are the members of one set in
//! a key-value store, each member the wire form of a record.
//!
//! This module decides what is asked of the store and reads what the store
//! answers. It never talks to the store: a `Command` says which round trip to
//! make, and `get_motds` takes the members that came back.

use crate::motd::{decode_spec, encode_spec, Motd, MotdView};
use crate::transport::{
    ascii_bytes, ascii_text, from_redis, is_ascii_bytes, is_ascii_text, to_redis,
    windows_1252_bytes, windows_1252_text,
};
use vstd::prelude::*;
use vstd::string::StringExecFns;

verus! {

/// What opens every collection key: `league:motd:`.
pub open spec fn key_prefix() -> Seq<char> {
    seq!['l', 'e', 'a', 'g', 'u', 'e', ':', 'm', 'o', 't', 'd', ':']
}

/// The key of the collection that holds the MOTDs of a language.
pub open spec fn key_spec(lang: Seq<char>) -> Seq<char> {
    key_prefix() + lang
}

/// The key of the collection that holds the MOTDs of `lang`. The language code
/// is taken as it is.
pub fn motd_key(lang: &str) -> (key: String)
    ensures
        key@ == key_spec(lang@),
{
    proof {
        reveal_strlit("league:motd:");
        assert("league:motd:"@ =~= key_prefix());
    }
    let mut key = "league:motd:".to_owned();
    key.append(lang);
    key
}

/// Two languages share a collection only if they are the same language.
pub proof fn key_is_injective(a: Seq<char>, b: Seq<char>)
    requires
        key_spec(a) == key_spec(b),
    ensures
        a == b,
{
    let n = key_prefix().len() as int;
    assert(key_spec(a).subrange(n, key_spec(a).len() as int) =~= a);
    assert(key_spec(b).subrange(n, key_spec(b).len() as int) =~= b);
}

/// The member that stands for a record in its collection: the record's wire
/// form in the store's text transport.
pub open spec fn member_spec(m: MotdView) -> Seq<u8> {
    windows_1252_bytes(encode_spec(m))
}

/// The member that stands for `motd` in its collection. Where the wire form is
/// plain ASCII the member is that text byte by byte.
pub fn member_of(motd: &Motd) -> (member: Vec<u8>)
    ensures
        member@ == member_spec(motd@),
        is_ascii_text(encode_spec(motd@)) ==> member@ == ascii_bytes(encode_spec(motd@)),
{
    let text = motd.to_string();
    let member = to_redis(text.as_str());
    assert(is_ascii_text(text@) ==> member@ =~= ascii_bytes(text@));
    member
}

/// One round trip asked of the key-value store. Each names the collection by
/// its key; a member is the bytes that the store holds for a record.
#[derive(Debug)]
pub enum Command {
    /// List the members of the collection.
    Members { key: String },
    /// Add a member to the collection.
    Add { key: String, member: Vec<u8> },
    /// Remove a member from the collection.
    Remove { key: String, member: Vec<u8> },
}

/// A `Command` as the contracts see it.
pub enum CommandView {
    Members { key: Seq<char> },
    Add { key: Seq<char>, member: Seq<u8> },
    Remove { key: Seq<char>, member: Seq<u8> },
}

impl View for Command {
    type V = CommandView;

    open spec fn view(&self) -> CommandView {
        match self {
            Command::Members { key } => CommandView::Members { key: key@ },
            Command::Add { key, member } => CommandView::Add { key: key@, member: member@ },
            Command::Remove { key, member } => CommandView::Remove { key: key@, member: member@ },
        }
    }
}

/// The command that lists the MOTDs of a language.
pub open spec fn list_spec(lang: Seq<char>) -> CommandView {
    CommandView::Members { key: key_spec(lang) }
}

/// The command that adds a record to the MOTDs of a language.
pub open spec fn add_spec(lang: Seq<char>, m: MotdView) -> CommandView {
    CommandView::Add { key: key_spec(lang), member: member_spec(m) }
}

/// The command that removes a record from the MOTDs of a language.
pub open spec fn remove_spec(lang: Seq<char>, m: MotdView) -> CommandView {
    CommandView::Remove { key: key_spec(lang), member: member_spec(m) }
}

/// The round trip that fetches the members of the collection of `lang`. Its
/// answer goes to `get_motds`.
pub fn list_members(lang: &str) -> (cmd: Command)
    ensures
        cmd@ == list_spec(lang@),
{
    Command::Members { key: motd_key(lang) }
}

/// The round trip that adds `motd` to the collection of `lang`.
pub fn add_motd(lang: &str, motd: &Motd) -> (cmd: Command)
    ensures
        cmd@ == add_spec(lang@, motd@),
        is_ascii_text(encode_spec(motd@)) ==> cmd@ == (CommandView::Add {
            key: key_spec(lang@),
            member: ascii_bytes(encode_spec(motd@)),
        }),
{
    Command::Add { key: motd_key(lang), member: member_of(motd) }
}

/// The round trip that removes `motd` from the collection of `lang`. The store
/// removes the member whose bytes are those of `motd`, wherever it stands.
pub fn remove_motd(lang: &str, motd: &Motd) -> (cmd: Command)
    ensures
        cmd@ == remove_spec(lang@, motd@),
        is_ascii_text(encode_spec(motd@)) ==> cmd@ == (CommandView::Remove {
            key: key_spec(lang@),
            member: ascii_bytes(encode_spec(motd@)),
        }),
{
    Command::Remove { key: motd_key(lang), member: member_of(motd) }
}

/// The records that a list of wire forms holds, in the order of the list. A
/// text that is no wire form adds nothing.
pub open spec fn records_of(texts: Seq<Seq<char>>) -> Seq<MotdView>
    decreases texts.len(),
{
    if texts.len() == 0 {
        Seq::empty()
    } else {
        let before = records_of(texts.drop_last());
        match decode_spec(texts.last()) {
            Some(m) => before.push(m),
            None => before,
        }
    }
}

/// The texts that the members of a collection stand for.
pub open spec fn texts_of(members: Seq<Seq<u8>>) -> Seq<Seq<char>> {
    members.map_values(|member: Seq<u8>| windows_1252_text(member))
}

/// The records that the members of a collection stand for.
pub open spec fn listed(members: Seq<Seq<u8>>) -> Seq<MotdView> {
    records_of(texts_of(members))
}

/// Every member is plain ASCII.
pub open spec fn all_ascii(members: Seq<Seq<u8>>) -> bool {
    forall|i: int| 0 <= i < members.len() ==> is_ascii_bytes(#[trigger] members[i])
}

/// Reads the MOTDs out of the members that the store gave for a collection,
/// in the order in which it gave them. A member that is no wire form of a
/// record is left out, and the others are read all the same. Where the members
/// are plain ASCII the records are those of the members taken as text.
pub fn get_motds(members: &Vec<Vec<u8>>) -> (motds: Vec<Motd>)
    ensures
        motds.deep_view() == listed(members.deep_view()),
        all_ascii(members.deep_view()) ==> motds.deep_view() == records_of(
            members.deep_view().map_values(|member: Seq<u8>| ascii_text(member)),
        ),
{
    let ghost raw = members.deep_view();
    let ghost texts = texts_of(raw);
    let mut motds: Vec<Motd> = Vec::new();
    let mut i: usize = 0;
    while i < members.len()
        invariant
            i <= members.len(),
            raw == members.deep_view(),
            texts == texts_of(raw),
            motds.deep_view() == records_of(texts.subrange(0, i as int)),
            forall|j: int|
                0 <= j < i && is_ascii_bytes(#[trigger] raw[j]) ==> texts[j] == ascii_text(raw[j]),
        decreases members.len() - i,
    {
        let text = from_redis(&members[i]);
        proof {
            assert(raw[i as int] =~= members[i as int]@);
            assert(text@ == texts[i as int]);
            assert(is_ascii_bytes(raw[i as int]) ==> text@ =~= ascii_text(raw[i as int]));
            assert(texts.subrange(0, i + 1).drop_last() =~= texts.subrange(0, i as int));
        }
        let ghost before = motds.deep_view();
        match Motd::parse(text.as_str()) {
            Ok(motd) => {
                motds.push(motd);
                assert(motds.deep_view() =~= before.push(motd@));
            },
            Err(_) => {},
        }
        i += 1;
    }
    proof {
        assert(texts.subrange(0, i as int) =~= texts);
        if all_ascii(raw) {
            assert(texts =~= raw.map_values(|member: Seq<u8>| ascii_text(member)));
        }
    }
    motds
}

} // verus!
