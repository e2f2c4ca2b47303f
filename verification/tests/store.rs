use league_motd::store::{add_motd, get_motds, list_members, member_of, motd_key, remove_motd, Command};
use league_motd::Motd;

fn record(message: &str, url: Option<&str>) -> Motd {
    Motd { message: message.to_string(), url: url.map(|u| u.to_string()) }
}

fn added(lang: &str, m: &Motd) -> (String, Vec<u8>) {
    match add_motd(lang, m) {
        Command::Add { key, member } => (key, member),
        _ => panic!("not an add"),
    }
}

fn removed(lang: &str, m: &Motd) -> (String, Vec<u8>) {
    match remove_motd(lang, m) {
        Command::Remove { key, member } => (key, member),
        _ => panic!("not a remove"),
    }
}

#[test]
fn key_is_prefix_and_language() {
    assert_eq!(motd_key("de"), "league:motd:de");
    assert_eq!(motd_key("en"), "league:motd:en");
}

#[test]
fn key_takes_any_language_as_it_is() {
    assert_eq!(motd_key(""), "league:motd:");
    assert_eq!(motd_key("pt-BR"), "league:motd:pt-BR");
    assert_eq!(motd_key(" x:y\n"), "league:motd: x:y\n");
    assert_eq!(motd_key("\u{65e5}"), "league:motd:\u{65e5}");
}

#[test]
fn keys_of_two_languages_differ() {
    assert_ne!(motd_key("de"), motd_key("en"));
}

#[test]
fn list_asks_for_the_members_at_the_key() {
    match list_members("de") {
        Command::Members { key } => assert_eq!(key, "league:motd:de"),
        _ => panic!("not a listing"),
    }
}

#[test]
fn add_sends_the_wire_form_to_the_key() {
    let (key, member) = added("de", &record("Hallo Welt", Some("http://example.com")));
    assert_eq!(key, "league:motd:de");
    assert_eq!(member, b"Hallo Welt\nMOTDURL=http://example.com".to_vec());
}

#[test]
fn remove_sends_the_wire_form_to_the_key() {
    let (key, member) = removed("en", &record("Hello", None));
    assert_eq!(key, "league:motd:en");
    assert_eq!(member, b"Hello".to_vec());
}

#[test]
fn remove_names_the_member_that_add_wrote() {
    let m = record("Gr\u{fc}\u{df}e", Some("http://example.com"));
    assert_eq!(added("de", &m), removed("de", &m));
}

#[test]
fn adding_twice_sends_the_same_member() {
    let m = record("Hallo Welt", Some("http://example.com"));
    let first = added("de", &m);
    let second = added("de", &m);
    assert_eq!(first, second);
    let mut collection: Vec<Vec<u8>> = Vec::new();
    for (_, member) in [first, second] {
        if !collection.contains(&member) {
            collection.push(member);
        }
    }
    assert_eq!(collection.len(), 1);
    let listed = get_motds(&collection);
    assert_eq!(listed.len(), 1);
    assert_eq!(listed[0].message, "Hallo Welt");
    assert_eq!(listed[0].url.as_deref(), Some("http://example.com"));
}

#[test]
fn removing_an_absent_member_leaves_the_others() {
    let kept = member_of(&record("kept", None));
    let (_, absent) = removed("de", &record("absent", None));
    let mut collection = vec![kept.clone()];
    collection.retain(|member| *member != absent);
    assert_eq!(collection, vec![kept]);
}

#[test]
fn member_is_one_byte_for_each_character() {
    assert_eq!(member_of(&record("\u{e9}", None)), vec![0xe9]);
    assert_eq!(member_of(&record("\u{20ac}", None)), vec![0x80]);
    assert_eq!(member_of(&record("a\u{fc}b", Some("\u{df}"))), b"a\xfcb\nMOTDURL=\xdf".to_vec());
}

#[test]
fn member_has_a_question_mark_for_what_the_code_page_lacks() {
    assert_eq!(member_of(&record("\u{65e5}\u{672c}", None)), b"??".to_vec());
    assert_eq!(member_of(&record("a\u{1f600}b", None)), b"a?b".to_vec());
}

#[test]
fn member_of_an_empty_message_is_empty() {
    assert_eq!(member_of(&record("", None)), Vec::<u8>::new());
}

#[test]
fn get_motds_of_no_members_is_empty() {
    assert!(get_motds(&Vec::new()).is_empty());
}

#[test]
fn get_motds_reads_each_member() {
    let members = vec![
        b"Hallo Welt\nMOTDURL=http://example.com".to_vec(),
        b"second".to_vec(),
        b"".to_vec(),
    ];
    let motds = get_motds(&members);
    assert_eq!(motds.len(), 3);
    assert_eq!(motds[0].message, "Hallo Welt");
    assert_eq!(motds[0].url.as_deref(), Some("http://example.com"));
    assert_eq!(motds[1].message, "second");
    assert_eq!(motds[1].url, None);
    assert_eq!(motds[2].message, "");
    assert_eq!(motds[2].url, None);
}

#[test]
fn get_motds_keeps_the_order_of_the_members() {
    let forward = get_motds(&vec![b"a".to_vec(), b"b".to_vec(), b"c".to_vec()]);
    let backward = get_motds(&vec![b"c".to_vec(), b"b".to_vec(), b"a".to_vec()]);
    let names = |v: &Vec<Motd>| v.iter().map(|m| m.message.clone()).collect::<Vec<_>>();
    assert_eq!(names(&forward), vec!["a", "b", "c"]);
    assert_eq!(names(&backward), vec!["c", "b", "a"]);
}

#[test]
fn get_motds_leaves_out_malformed_members() {
    let members = vec![
        b"good".to_vec(),
        b"a\nb".to_vec(),
        b"also good\nMOTDURL=u".to_vec(),
        b"a\nb\nc".to_vec(),
        b"x\n".to_vec(),
        b"last".to_vec(),
    ];
    let motds = get_motds(&members);
    assert_eq!(motds.len(), 3);
    assert_eq!(motds[0].message, "good");
    assert_eq!(motds[1].message, "also good");
    assert_eq!(motds[1].url.as_deref(), Some("u"));
    assert_eq!(motds[2].message, "last");
}

#[test]
fn get_motds_of_malformed_members_alone_is_empty() {
    assert!(get_motds(&vec![b"a\nb".to_vec(), b"\n\n".to_vec()]).is_empty());
}

#[test]
fn get_motds_reads_bytes_in_the_code_page() {
    let motds = get_motds(&vec![vec![0xe9], vec![0x80], b"Gr\xfc\xdfe\nMOTDURL=\xe4".to_vec()]);
    assert_eq!(motds.len(), 3);
    assert_eq!(motds[0].message, "\u{e9}");
    assert_eq!(motds[1].message, "\u{20ac}");
    assert_eq!(motds[2].message, "Gr\u{fc}\u{df}e");
    assert_eq!(motds[2].url.as_deref(), Some("\u{e4}"));
}

#[test]
fn get_motds_reads_every_byte_as_some_character() {
    let motds = get_motds(&vec![vec![0x81, 0x8d, 0x8f, 0x90, 0x9d, 0xff, 0x00]]);
    assert_eq!(motds.len(), 1);
    assert_eq!(motds[0].message.chars().count(), 7);
}

#[test]
fn added_record_is_listed_again() {
    let m = record("Hallo Welt", Some("http://example.com"));
    let (key, member) = added("de", &m);
    assert_eq!(key, motd_key("de"));
    assert_eq!(member, b"Hallo Welt\nMOTDURL=http://example.com".to_vec());
    let motds = get_motds(&vec![member]);
    assert_eq!(motds.len(), 1);
    assert_eq!(motds[0].message, "Hallo Welt");
    assert_eq!(motds[0].url, Some("http://example.com".to_string()));
}

#[test]
fn added_record_in_the_code_page_is_listed_again() {
    let m = record("Sch\u{f6}ne Gr\u{fc}\u{df}e \u{20ac}", Some("http://example.com/\u{e4}"));
    let motds = get_motds(&vec![member_of(&m)]);
    assert_eq!(motds.len(), 1);
    assert_eq!(motds[0].message, m.message);
    assert_eq!(motds[0].url, m.url);
}
