use macmapd::cli::{default_path, parse_args, ArgsError, Command, ConfigPath};
use macmapd::clients::Clients;
use macmapd::runtime::{Shared, Source};
use macmapd::sync::{
    accept_chunk, load_saved, parse_saved, record_poll, record_read_error, record_start_failure,
    temporary_name, Action, Phase, Poller, RemoteCache, Response, MAX_CSV_BYTES,
};
use std::sync::Arc;

const BODY: &str =
    "dc1,host.example,example.internal,uefi,1500,AA:BB:CC:DD:EE:02,10.0.0.2,24,10.0.0.1\n";

/// What the HTTP client says of an error status.
const REPORT: &str = "HTTP status client error (404 Not Found) for url (http://localhost/)";

/// Runs one poll and tells whether it succeeded.
fn poll(
    shared: &mut Shared,
    poller: &mut Poller,
    status: u16,
    body: &str,
    saved: bool,
    unix_now: u64,
) -> bool {
    let (good, bad) = (shared.sync_success, shared.sync_errors);
    let mut chunks = body.as_bytes().chunks(7);
    let mut action = poller.begin();
    loop {
        action = match action {
            Action::Wait => break,
            Action::Request => {
                let length = Some(body.len() as u64);
                poller.on_head(shared, status, REPORT, length, Some(b"\"1\"".to_vec()), None, unix_now)
            }
            Action::Receive => match chunks.next() {
                Some(chunk) => poller.on_chunk(shared, chunk),
                None => poller.on_end(shared, unix_now),
            },
            Action::Save => {
                assert_eq!(poller.pending().unwrap(), body.as_bytes());
                if saved {
                    poller.on_saved(shared, unix_now)
                } else {
                    poller.on_save_failed(shared, "disk full".to_owned())
                }
            }
        };
    }
    assert!(matches!(poller.phase, Phase::Idle));
    assert!(poller.pending().is_none());
    assert_eq!(shared.sync_success + shared.sync_errors, good + bad + 1);
    shared.sync_success > good
}

#[test]
fn invalid_remote_update_preserves_snapshot_and_saved_state() {
    let mut shared = Shared::new();
    let mut poller = Poller::new();
    assert!(poller.cache.validators().0.is_none());
    assert!(poll(&mut shared, &mut poller, 200, BODY, true, 1000));
    let etag = poller.cache.validators().0.map(|etag| etag.as_slice());
    assert_eq!(etag, Some(&b"\"1\""[..]));
    assert!(poller.cache.validators().1.is_none());
    assert_eq!(shared.status.source, Some(Source::Remote));
    assert_eq!(shared.status.data_since, Some(1000));
    let snapshot = shared.snapshot.clone().unwrap();
    assert_eq!(snapshot.records.len(), 1);
    for (status, text) in [
        (200, "broken CSV"),
        (204, ""),
        (206, BODY),
        (302, ""),
        (404, ""),
        (500, ""),
    ] {
        assert!(!poll(&mut shared, &mut poller, status, text, true, 2000), "{status}");
        assert!(Arc::ptr_eq(&snapshot, shared.snapshot.as_ref().unwrap()));
        assert_eq!(shared.status.data_since, Some(1000));
        assert_eq!(shared.status.last_success, Some(1000));
        assert_eq!(poller.cache.body.as_deref(), Some(BODY.as_bytes()));
    }
    assert!(poll(&mut shared, &mut poller, 304, "", true, 3000));
    assert!(Arc::ptr_eq(&snapshot, shared.snapshot.as_ref().unwrap()));
}

#[test]
fn tables_are_used_once_they_are_saved() {
    let mut shared = Shared::new();
    let mut poller = Poller::new();
    assert!(!poll(&mut shared, &mut poller, 200, BODY, false, 1000));
    assert!(shared.snapshot.is_none());
    assert_eq!(shared.state_write_errors, 1);
    assert_eq!(
        shared.status.last_error.as_deref(),
        Some("save client snapshot: disk full")
    );
    assert!(poll(&mut shared, &mut poller, 200, BODY, true, 2000));
    assert_eq!(shared.status.last_error, None);
    assert!(poll(&mut shared, &mut poller, 200, BODY, false, 3000));
    assert_eq!(shared.state_write_errors, 1);
    assert_eq!(shared.status.data_since, Some(2000));
    assert_eq!(shared.status.last_success, Some(3000));
    assert!(poll(&mut shared, &mut poller, 200, "", true, 4000));
    assert_eq!(shared.snapshot.as_ref().unwrap().records.len(), 0);
    assert_eq!(shared.status.data_since, Some(4000));
}

#[test]
fn failed_transfers_end_the_poll() {
    let mut shared = Shared::new();
    let mut poller = Poller::new();
    assert_eq!(poller.begin(), Action::Request);
    assert_eq!(poller.begin(), Action::Wait);
    assert_eq!(poller.on_chunk(&mut shared, b"x"), Action::Wait);
    assert_eq!(poller.on_end(&mut shared, 1), Action::Wait);
    assert_eq!(poller.on_saved(&mut shared, 1), Action::Wait);
    assert_eq!(poller.on_save_failed(&mut shared, String::new()), Action::Wait);
    assert!(matches!(poller.phase, Phase::Requested));
    assert_eq!(shared.sync_success + shared.sync_errors, 0);
    assert_eq!(poller.on_failed(&mut shared, "fetch CSV".to_owned()), Action::Wait);
    assert!(matches!(poller.phase, Phase::Idle));
    assert_eq!(shared.sync_errors, 1);
    assert_eq!(poller.on_head(&mut shared, 200, "", None, None, None, 1), Action::Wait);
    poller.begin();
    assert_eq!(
        poller.on_head(&mut shared, 200, "", None, None, Some(b"then".to_vec()), 1),
        Action::Receive
    );
    let large = vec![b'a'; MAX_CSV_BYTES];
    assert_eq!(poller.on_chunk(&mut shared, &large), Action::Receive);
    assert_eq!(poller.on_chunk(&mut shared, b"b"), Action::Wait);
    assert_eq!(
        shared.status.last_error.as_deref(),
        Some("CSV exceeds size limit")
    );
    assert_eq!(shared.sync_errors, 2);
}

#[test]
fn response_faults() {
    let empty = RemoteCache::default();
    for (status, length, message) in [
        (304, None, "304 received without a previously downloaded snapshot"),
        (400, None, REPORT),
        (404, None, REPORT),
        (599, None, REPORT),
        (204, None, "expected HTTP 200 or cached 304, received 204 No Content"),
        (206, None, "expected HTTP 200 or cached 304, received 206 Partial Content"),
        (302, None, "expected HTTP 200 or cached 304, received 302 Found"),
        (600, None, "expected HTTP 200 or cached 304, received 600 <unknown status code>"),
        (99, None, "expected HTTP 200 or cached 304, received 99"),
        (200, Some(MAX_CSV_BYTES as u64 + 1), "CSV exceeds size limit"),
    ] {
        assert_eq!(empty.on_response(status, REPORT, length).unwrap_err().message(), message);
    }
    assert_eq!(
        empty.on_response(200, "", Some(MAX_CSV_BYTES as u64)).unwrap(),
        Response::Download
    );
    assert_eq!(empty.on_response(200, "", None).unwrap(), Response::Download);
    assert_eq!(
        empty.check_body(&vec![0xff]).unwrap_err().message(),
        "CSV is not UTF-8: invalid utf-8 sequence of 1 bytes from index 0"
    );
    assert_eq!(
        parse_saved(b"a,\xc3").unwrap_err().message(),
        "incomplete utf-8 byte sequence from index 2"
    );
    assert_eq!(
        empty.check_body(&BODY.replace("uefi", "x").into_bytes()).unwrap_err().message(),
        "CSV line 1: boot_type must be bios or uefi"
    );
}

#[test]
fn bodies_are_limited() {
    let mut body = vec![b'a'; MAX_CSV_BYTES - 2];
    assert!(accept_chunk(&mut body, b"bc").is_ok());
    assert_eq!(body.len(), MAX_CSV_BYTES);
    assert!(accept_chunk(&mut body, b"").is_ok());
    assert_eq!(
        accept_chunk(&mut body, b"d").unwrap_err().message(),
        "CSV exceeds size limit"
    );
    assert_eq!(body.len(), MAX_CSV_BYTES);
    body.push(b'd');
    assert_eq!(
        parse_saved(&body).unwrap_err().message(),
        "saved CSV exceeds size limit"
    );
}

#[test]
fn saved_tables_are_used_until_a_poll_succeeds() {
    let mut shared = Shared::new();
    load_saved(&mut shared, BODY.as_bytes()).unwrap();
    assert_eq!(shared.snapshot.as_ref().unwrap().records.len(), 1);
    assert_eq!(shared.status.source, Some(Source::State));
    assert_eq!(shared.status.last_success, None);
    assert_eq!(shared.status.data_since, None);
    record_poll(&mut shared, Err("fetch CSV".to_owned()), 5);
    assert_eq!(shared.sync_errors, 1);
    assert_eq!(shared.status.last_error.as_deref(), Some("fetch CSV"));
    assert_eq!(shared.status.last_success, None);
    assert!(shared.snapshot.is_some());
    record_poll(&mut shared, Ok(()), 6);
    assert_eq!(shared.sync_success, 1);
    assert_eq!(shared.status.last_error, None);
    assert_eq!(shared.status.last_success, Some(6));
}

#[test]
fn saved_bodies_are_read_back_after_a_restart() {
    let mut shared = Shared::new();
    let mut poller = Poller::new();
    assert!(poll(&mut shared, &mut poller, 200, BODY, true, 1000));
    let mut restarted = Shared::new();
    load_saved(&mut restarted, poller.cache.body.as_ref().unwrap()).unwrap();
    let (before, after) = (shared.snapshot.unwrap(), restarted.snapshot.unwrap());
    assert_eq!(before.records.len(), after.records.len());
    for (mac, client) in &before.records {
        let again = &after.records[mac];
        assert_eq!(format!("{client:?}"), format!("{again:?}"));
    }
    assert_eq!(restarted.status.source, Some(Source::State));
}

#[test]
fn unusable_saved_tables_are_reported() {
    let mut shared = Shared::new();
    assert!(load_saved(&mut shared, b"broken").is_err());
    assert!(shared.snapshot.is_none());
    assert_eq!(shared.state_read_errors, 1);
    assert_eq!(
        shared.status.last_error.as_deref(),
        Some("CSV line 1")
    );
    let double = format!("{BODY}{BODY}");
    assert!(load_saved(&mut shared, double.as_bytes()).is_err());
    assert_eq!(
        shared.status.last_error.as_deref(),
        Some("CSV line 2: duplicate MAC")
    );
    assert!(load_saved(&mut shared, format!("{BODY}a,b").as_bytes()).is_err());
    assert_eq!(shared.status.last_error.as_deref(), Some("CSV record 2"));
    assert!(load_saved(&mut shared, &[0xff]).is_err());
    assert_eq!(
        shared.status.last_error.as_deref(),
        Some("invalid utf-8 sequence of 1 bytes from index 0")
    );
    record_read_error(&mut shared, "denied".to_owned());
    assert_eq!(shared.state_read_errors, 5);
    record_start_failure(&mut shared, "no client".to_owned());
    assert_eq!(shared.status.last_error.as_deref(), Some("no client"));
    assert_eq!(shared.sync_errors, 0);
    assert_eq!(Clients::default().records.len(), 0);
}

#[test]
fn temporary_names() {
    assert_eq!(temporary_name("clients.csv", 42, 7), ".clients.csv.42.7.tmp");
}

fn arguments(args: &[&str]) -> Vec<Option<String>> {
    args.iter().map(|arg| Some(arg.to_string())).collect()
}

#[test]
fn default_and_overridden_config_paths() {
    assert_eq!(
        parse_args(&arguments(&[])).unwrap(),
        Command::Run { path: ConfigPath::Default, check: false }
    );
    assert_eq!(default_path(), "/etc/macmapd/config.toml");
    let args = arguments(&["--config", "/tmp/custom.toml"]);
    let Command::Run { path: ConfigPath::Argument(index), check } = parse_args(&args).unwrap()
    else {
        panic!("no path");
    };
    assert_eq!(args[index].as_deref(), Some("/tmp/custom.toml"));
    assert!(!check);
}

#[test]
fn command_lines() {
    let parse = |args: &[&str]| parse_args(&arguments(args));
    assert_eq!(
        parse(&["--config", "a", "check-config", "--config", "b"]),
        Ok(Command::Run { path: ConfigPath::Argument(4), check: true })
    );
    assert_eq!(parse(&["--version", "what"]), Ok(Command::Version));
    assert_eq!(parse(&["-V"]), Ok(Command::Version));
    assert_eq!(parse(&["check-config", "-h"]), Ok(Command::Help));
    assert_eq!(parse(&["--help"]), Ok(Command::Help));
    assert_eq!(parse(&["--config"]), Err(ArgsError::MissingPath));
    assert_eq!(parse(&["check-config", "what"]), Err(ArgsError::Unknown(1)));
    assert_eq!(parse_args(&vec![None]), Err(ArgsError::NotUtf8(0)));
    assert_eq!(
        parse_args(&vec![Some("--config".to_owned()), None]),
        Ok(Command::Run { path: ConfigPath::Argument(1), check: false })
    );
}
