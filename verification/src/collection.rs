//! The collection of a language as the contracts see it, and what the commands
//! of the storage mapping do to it.
//!
//! A collection is a set of members: the store keeps each member once, in no
//! order, and a collection without members is the same as none. The store
//! itself is outside this library; the laws here say what follows for a store
//! that keeps its collections so.

use crate::motd::{decode_spec, encode_inverts_decode, MotdView};
use crate::store::{
    add_spec, key_is_injective, key_spec, listed, member_spec, records_of, remove_spec, texts_of,
    CommandView,
};
use crate::transport::windows_1252_text;
use vstd::prelude::*;

verus! {

/// The members of the collection at `key` once the store has carried out
/// `cmd`, where `before` are the members it held until then.
pub open spec fn members_after(cmd: CommandView, key: Seq<char>, before: Set<Seq<u8>>) -> Set<
    Seq<u8>,
> {
    match cmd {
        CommandView::Members { key: _ } => before,
        CommandView::Add { key: at, member } => if at == key {
            before.insert(member)
        } else {
            before
        },
        CommandView::Remove { key: at, member } => if at == key {
            before.remove(member)
        } else {
            before
        },
    }
}

/// `listing` is what the store may answer when asked for the members of a
/// collection that holds `members`: each member once, in some order.
pub open spec fn lists(listing: Seq<Seq<u8>>, members: Set<Seq<u8>>) -> bool {
    listing.no_duplicates() && listing.to_set() == members
}

/// Adding a record twice leaves the collection as adding it once does: it
/// holds the record's member, and whatever the store answers when asked for
/// the members holds that member at exactly one place.
pub proof fn add_twice_is_add_once(
    lang: Seq<char>,
    m: MotdView,
    before: Set<Seq<u8>>,
    listing: Seq<Seq<u8>>,
)
    requires
        lists(
            listing,
            members_after(
                add_spec(lang, m),
                key_spec(lang),
                members_after(add_spec(lang, m), key_spec(lang), before),
            ),
        ),
    ensures
        members_after(
            add_spec(lang, m),
            key_spec(lang),
            members_after(add_spec(lang, m), key_spec(lang), before),
        ) == members_after(add_spec(lang, m), key_spec(lang), before),
        members_after(add_spec(lang, m), key_spec(lang), before).contains(member_spec(m)),
        exists|i: int|
            0 <= i < listing.len() && listing[i] == member_spec(m) && forall|j: int|
                0 <= j < listing.len() && listing[j] == member_spec(m) ==> j == i,
{
    let once = members_after(add_spec(lang, m), key_spec(lang), before);
    let twice = members_after(add_spec(lang, m), key_spec(lang), once);
    assert(twice =~= once);
    assert(listing.to_set().contains(member_spec(m)));
    let i = choose|i: int| 0 <= i < listing.len() && listing[i] == member_spec(m);
    assert(forall|j: int| 0 <= j < listing.len() && listing[j] == member_spec(m) ==> j == i);
}

/// Removing a record that the collection does not hold leaves the collection
/// as it was.
pub proof fn remove_absent_is_noop(lang: Seq<char>, m: MotdView, before: Set<Seq<u8>>)
    requires
        !before.contains(member_spec(m)),
    ensures
        members_after(remove_spec(lang, m), key_spec(lang), before) == before,
{
    assert(before.remove(member_spec(m)) =~= before);
}

/// A command for one language leaves the collection of every other language
/// as it was.
pub proof fn other_languages_untouched(
    lang: Seq<char>,
    other: Seq<char>,
    m: MotdView,
    before: Set<Seq<u8>>,
)
    requires
        lang != other,
    ensures
        members_after(add_spec(lang, m), key_spec(other), before) == before,
        members_after(remove_spec(lang, m), key_spec(other), before) == before,
{
    if key_spec(lang) == key_spec(other) {
        key_is_injective(lang, other);
    }
}

/// The records of two lists of texts, one after the other, are the records of
/// the first followed by those of the second.
pub proof fn records_of_concat(a: Seq<Seq<char>>, b: Seq<Seq<char>>)
    ensures
        records_of(a + b) == records_of(a) + records_of(b),
    decreases b.len(),
{
    if b.len() == 0 {
        assert(a + b =~= a);
        assert(records_of(a) + records_of(b) =~= records_of(a));
    } else {
        records_of_concat(a, b.drop_last());
        assert((a + b).drop_last() =~= a + b.drop_last());
        assert((a + b).last() == b.last());
        match decode_spec(b.last()) {
            Some(m) => {
                assert((records_of(a) + records_of(b.drop_last())).push(m) =~= records_of(a)
                    + records_of(b.drop_last()).push(m));
            },
            None => {},
        }
    }
}

/// A text that is no wire form of a record changes nothing in what is read
/// from the others.
pub proof fn unreadable_text_is_skipped(
    ahead: Seq<Seq<char>>,
    unreadable: Seq<char>,
    behind: Seq<Seq<char>>,
)
    requires
        decode_spec(unreadable) is None,
    ensures
        records_of(ahead + seq![unreadable] + behind) == records_of(ahead + behind),
{
    let one = seq![unreadable];
    assert(records_of(one) == Seq::<MotdView>::empty()) by {
        assert(one.last() == unreadable);
        assert(records_of(one.drop_last()) == Seq::<MotdView>::empty());
    }
    assert(records_of(ahead + one) == records_of(ahead)) by {
        records_of_concat(ahead, one);
        assert(records_of(ahead) + Seq::<MotdView>::empty() =~= records_of(ahead));
    }
    records_of_concat(ahead + one, behind);
    records_of_concat(ahead, behind);
}

/// A member that is no wire form of a record changes nothing in what is read
/// from the others: they are listed as if it were not there.
pub proof fn malformed_member_is_skipped(
    ahead: Seq<Seq<u8>>,
    malformed: Seq<u8>,
    behind: Seq<Seq<u8>>,
)
    requires
        decode_spec(windows_1252_text(malformed)) is None,
    ensures
        listed(ahead + seq![malformed] + behind) == listed(ahead + behind),
{
    let unreadable = windows_1252_text(malformed);
    assert(texts_of(ahead + seq![malformed] + behind) == texts_of(ahead) + seq![unreadable]
        + texts_of(behind)) by {
        assert(texts_of(ahead + seq![malformed] + behind) =~= texts_of(ahead) + seq![unreadable]
            + texts_of(behind));
    }
    assert(texts_of(ahead + behind) == texts_of(ahead) + texts_of(behind)) by {
        assert(texts_of(ahead + behind) =~= texts_of(ahead) + texts_of(behind));
    }
    unreadable_text_is_skipped(texts_of(ahead), unreadable, texts_of(behind));
}

/// Every text that is the wire form of a record has that record among those
/// read from the list.
pub proof fn well_formed_text_is_listed(texts: Seq<Seq<char>>, i: int)
    requires
        0 <= i < texts.len(),
        decode_spec(texts[i]) is Some,
    ensures
        records_of(texts).contains(decode_spec(texts[i])->0),
    decreases texts.len(),
{
    let rest = records_of(texts.drop_last());
    if i == texts.len() - 1 {
        let all = rest.push(decode_spec(texts[i])->0);
        assert(all[rest.len() as int] == decode_spec(texts[i])->0);
    } else {
        well_formed_text_is_listed(texts.drop_last(), i);
        let k = choose|k: int| 0 <= k < rest.len() && rest[k] == decode_spec(texts[i])->0;
        match decode_spec(texts.last()) {
            Some(m) => {
                assert(rest.push(m)[k] == rest[k]);
            },
            None => {},
        }
    }
}

/// Every member that is the wire form of a record has that record among those
/// listed, whatever else the collection holds.
pub proof fn well_formed_member_is_listed(members: Seq<Seq<u8>>, i: int)
    requires
        0 <= i < members.len(),
        decode_spec(windows_1252_text(members[i])) is Some,
    ensures
        listed(members).contains(decode_spec(windows_1252_text(members[i]))->0),
{
    well_formed_text_is_listed(texts_of(members), i);
}

/// Every record read from a list of texts is what one of the texts reads as.
pub proof fn listed_record_has_source(texts: Seq<Seq<char>>, k: int)
    requires
        0 <= k < records_of(texts).len(),
    ensures
        exists|i: int| 0 <= i < texts.len() && decode_spec(texts[i]) == Some(records_of(texts)[k]),
    decreases texts.len(),
{
    let rest = records_of(texts.drop_last());
    if k < rest.len() {
        listed_record_has_source(texts.drop_last(), k);
        let i = choose|i: int|
            0 <= i < texts.drop_last().len() && decode_spec(texts.drop_last()[i]) == Some(rest[k]);
        assert(texts[i] == texts.drop_last()[i]);
    } else {
        assert(decode_spec(texts[texts.len() - 1]) == Some(records_of(texts)[k]));
    }
}

/// Texts that differ read as records that differ: a list that holds no text
/// twice gives no record twice.
pub proof fn distinct_texts_give_distinct_records(texts: Seq<Seq<char>>)
    requires
        texts.no_duplicates(),
    ensures
        records_of(texts).no_duplicates(),
    decreases texts.len(),
{
    if texts.len() > 0 {
        let init = texts.drop_last();
        let rest = records_of(init);
        distinct_texts_give_distinct_records(init);
        match decode_spec(texts.last()) {
            Some(m) => {
                assert forall|k: int| 0 <= k < rest.len() implies rest[k] != m by {
                    listed_record_has_source(init, k);
                    let i = choose|i: int|
                        0 <= i < init.len() && decode_spec(init[i]) == Some(rest[k]);
                    if rest[k] == m {
                        encode_inverts_decode(init[i]);
                        encode_inverts_decode(texts.last());
                        assert(texts[i] == texts[texts.len() - 1]);
                    }
                }
            },
            None => {},
        }
    }
}

} // verus!
