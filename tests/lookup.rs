use opath::fields::nth_field;
use opath::pid::{parse_decimal_u32, Pid};
use opath::scan::{
    classify_entry, collect_holders, lookup_snapshot, DescriptorEntry, EntryOutcome, ScanError,
};

fn entry(path: &str, referent: Option<&str>) -> DescriptorEntry {
    DescriptorEntry {
        path: path.as_bytes().to_vec(),
        referent: referent.map(|r| r.as_bytes().to_vec()),
    }
}

fn raw(pids: &[Pid]) -> Vec<u32> {
    pids.iter().map(|p| p.as_raw()).collect()
}

#[test]
fn it_works() {
    assert_eq!(2 + 2, 4);
}

#[test]
fn parses_plain_decimal() {
    assert_eq!(parse_decimal_u32(b"1234"), Some(1234));
    assert_eq!(parse_decimal_u32(b"0"), Some(0));
    assert_eq!(parse_decimal_u32(b"007"), Some(7));
}

#[test]
fn parses_leading_plus_like_std() {
    assert_eq!(parse_decimal_u32(b"+42"), Some(42));
    assert_eq!(parse_decimal_u32(b"+42"), "+42".parse::<u32>().ok());
}

#[test]
fn parse_rejects_non_numbers() {
    assert_eq!(parse_decimal_u32(b""), None);
    assert_eq!(parse_decimal_u32(b"+"), None);
    assert_eq!(parse_decimal_u32(b"-1"), None);
    assert_eq!(parse_decimal_u32(b"self"), None);
    assert_eq!(parse_decimal_u32(b"12a"), None);
    assert_eq!(parse_decimal_u32(b" 12"), None);
}

#[test]
fn parse_bounds_of_u32() {
    assert_eq!(parse_decimal_u32(b"4294967295"), Some(u32::MAX));
    assert_eq!(parse_decimal_u32(b"4294967296"), None);
    assert_eq!(parse_decimal_u32(b"99999999999"), None);
}

#[test]
fn parse_agrees_with_std() {
    for s in ["1", "65535", "+0", "00", "4294967295", "4294967296", "", "x1", "1x", "--1"] {
        assert_eq!(parse_decimal_u32(s.as_bytes()), s.parse::<u32>().ok(), "{}", s);
    }
}

#[test]
fn fields_of_descriptor_path() {
    let p = b"/proc/123/fd/4";
    assert_eq!(nth_field(p, 0), Some(vec![]));
    assert_eq!(nth_field(p, 1), Some(b"proc".to_vec()));
    assert_eq!(nth_field(p, 2), Some(b"123".to_vec()));
    assert_eq!(nth_field(p, 4), Some(b"4".to_vec()));
    assert_eq!(nth_field(p, 5), None);
}

#[test]
fn fields_match_split() {
    for s in ["", "/", "a", "a//b", "/proc/self/fd/0", "x/y/"] {
        let parts: Vec<&str> = s.split('/').collect();
        for k in 0..6 {
            let expected = parts.get(k).map(|f| f.as_bytes().to_vec());
            assert_eq!(nth_field(s.as_bytes(), k), expected, "{} {}", s, k);
        }
    }
}

#[test]
fn classify_each_outcome() {
    let t: &[u8] = b"/tmp/target";
    assert_eq!(
        classify_entry(t, &entry("/proc/77/fd/3", Some("/tmp/target"))),
        EntryOutcome::Holder(Pid(77))
    );
    assert_eq!(classify_entry(t, &entry("/proc/77/fd/3", None)), EntryOutcome::Unreadable);
    assert_eq!(
        classify_entry(t, &entry("/proc/77/fd/3", Some("/tmp/other"))),
        EntryOutcome::OtherTarget
    );
    assert_eq!(
        classify_entry(t, &entry("/proc/77/fd/3", Some("/tmp/target/"))),
        EntryOutcome::OtherTarget
    );
    assert_eq!(
        classify_entry(t, &entry("/proc/self/fd/3", Some("/tmp/target"))),
        EntryOutcome::BadPidSegment
    );
    assert_eq!(
        classify_entry(t, &entry("/proc", Some("/tmp/target"))),
        EntryOutcome::BadPidSegment
    );
}

#[test]
fn collect_keeps_entry_order_and_skips_noise() {
    let t: &[u8] = b"/var/log/app.log";
    let entries = vec![
        entry("/proc/1/fd/0", Some("/dev/null")),
        entry("/proc/300/fd/7", Some("/var/log/app.log")),
        entry("/proc/301/fd/2", None),
        entry("/proc/thread-self/fd/1", Some("/var/log/app.log")),
        entry("/proc/42/fd/9", Some("/var/log/app.log")),
        entry("/proc/300/fd/8", Some("/var/log/app.log")),
    ];
    assert_eq!(raw(&collect_holders(t, &entries)), vec![300, 42, 300]);
}

#[test]
fn self_process_is_found() {
    let own: u32 = 4321;
    let t: &[u8] = b"/tmp/.tmpAbC123";
    let entries = vec![
        entry("/proc/4321/fd/0", Some("/dev/pts/0")),
        entry("/proc/4321/fd/3", Some("/tmp/.tmpAbC123")),
    ];
    let found = lookup_snapshot(Some(t), &entries).unwrap();
    assert!(raw(&found).contains(&own));
}

#[test]
fn other_process_found_and_observer_not() {
    let observer: u32 = 500;
    let child: u32 = 501;
    let t: &[u8] = b"/tmp/.opath_tmp";
    let entries = vec![
        entry("/proc/500/fd/1", Some("/dev/pts/1")),
        entry("/proc/501/fd/3", Some("/tmp/.opath_tmp")),
    ];
    let found = raw(&lookup_snapshot(Some(t), &entries).unwrap());
    assert_eq!(found, vec![child]);
    assert!(!found.contains(&observer));
}

#[test]
fn no_holder_is_empty_not_error() {
    let entries = vec![entry("/proc/9/fd/0", Some("/dev/null")), entry("/proc/9/fd/1", None)];
    assert_eq!(lookup_snapshot(Some(&b"/etc/hosts"[..]), &entries), Ok(vec![]));
    assert_eq!(lookup_snapshot(Some(&b"/etc/hosts"[..]), &[]), Ok(vec![]));
}

#[test]
fn unresolvable_target_is_error() {
    let entries = vec![entry("/proc/9/fd/0", Some("/dev/null"))];
    assert_eq!(lookup_snapshot(None, &entries), Err(ScanError::TargetUnresolvable));
    assert_eq!(lookup_snapshot(None, &[]), Err(ScanError::TargetUnresolvable));
}

#[test]
fn same_canonical_form_same_result() {
    let entries = vec![entry("/proc/12/fd/5", Some("/home/u/notes.txt"))];
    let from_relative = "/home/u/notes.txt".as_bytes().to_vec();
    let from_absolute = b"/home/u/notes.txt".to_vec();
    assert_eq!(
        lookup_snapshot(Some(from_relative.as_slice()), &entries),
        lookup_snapshot(Some(from_absolute.as_slice()), &entries)
    );
}

#[test]
fn reordered_snapshot_same_holder_set() {
    let t: &[u8] = b"/srv/data";
    let a = vec![
        entry("/proc/7/fd/3", Some("/srv/data")),
        entry("/proc/8/fd/3", Some("/srv/other")),
        entry("/proc/9/fd/4", Some("/srv/data")),
    ];
    let b = vec![
        entry("/proc/9/fd/4", Some("/srv/data")),
        entry("/proc/7/fd/3", Some("/srv/data")),
        entry("/proc/8/fd/3", Some("/srv/other")),
    ];
    let mut ra = raw(&collect_holders(t, &a));
    let mut rb = raw(&collect_holders(t, &b));
    ra.sort();
    rb.sort();
    assert_eq!(ra, vec![7, 9]);
    assert_eq!(ra, rb);
}

#[test]
fn open_then_closed_scenario() {
    let own: u32 = 2024;
    let t: &[u8] = b"/tmp/.tmpXyZ";
    let open = vec![
        entry("/proc/2024/fd/0", Some("/dev/null")),
        entry("/proc/2024/fd/3", Some("/tmp/.tmpXyZ")),
    ];
    assert_eq!(raw(&lookup_snapshot(Some(t), &open).unwrap()), vec![own]);
    let closed = vec![entry("/proc/2024/fd/0", Some("/dev/null"))];
    assert_eq!(lookup_snapshot(Some(t), &closed), Ok(vec![]));
}

#[test]
fn child_holder_scenario() {
    let child: u32 = 31337;
    let t: &[u8] = b"/tmp/.opath_tmp";
    let entries = vec![
        entry("/proc/31336/fd/0", Some("/dev/pts/2")),
        entry("/proc/31337/fd/3", Some("/tmp/.opath_tmp")),
    ];
    assert_eq!(raw(&lookup_snapshot(Some(t), &entries).unwrap()), vec![child]);
}
