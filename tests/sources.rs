use data_source::framer::{Action, Fill};
use data_source::offline::{FileDataSource, FileTarget};
use data_source::online::{check_live_parts, check_live_uri};
use data_source::selector::{select_from_parts, select_source, SourceKind};
use data_source::uri::SourceError;

#[test]
fn new_file_source_is_not_readable() {
    let mut s = FileDataSource::new();
    assert!(!s.readable());
    assert!(matches!(s.next_action(), Action::Finish));
}

#[test]
fn file_source_rejects_tcp_uri() {
    let mut s = FileDataSource::new();
    let r = s.open("tcp://localhost/no_such_ring");
    assert!(matches!(r, Err(SourceError::SchemeMismatch)));
    assert!(!s.readable());
}

#[test]
fn file_source_rejects_malformed_uri() {
    let mut s = FileDataSource::new();
    assert!(matches!(s.open("no scheme here"), Err(SourceError::UriParse)));
}

#[test]
fn file_source_resolves_path() {
    let mut s = FileDataSource::new();
    match s.open("file:///tmp/run-0001.evt") {
        Ok(FileTarget::Path(p)) => assert_eq!(p, "/tmp/run-0001.evt"),
        _ => panic!("expected a path"),
    }
    assert!(s.readable());
    s.close();
    assert!(!s.readable());
    s.close();
    assert!(!s.readable());
}

#[test]
fn file_source_reads_then_closes_at_end() {
    let mut s = FileDataSource::new();
    assert!(s.open("file:///tmp/run.evt").is_ok());
    assert!(matches!(s.next_action(), Action::Fill));
    let mut f = 13u32.to_le_bytes().to_vec();
    f.extend(7u32.to_le_bytes());
    f.extend(0u32.to_le_bytes());
    f.push(0x55);
    s.supply(Fill::Data(f));
    match s.next_action() {
        Action::Deliver(r) => {
            assert_eq!(r.type_id, 7);
            assert_eq!(r.payload, vec![0x55]);
        }
        _ => panic!("expected a record"),
    }
    assert!(matches!(s.next_action(), Action::Fill));
    s.supply(Fill::End);
    assert!(matches!(s.next_action(), Action::Finish));
    assert!(!s.readable());
}

#[test]
fn live_check_rejects_file_uri() {
    assert_eq!(check_live_uri("file:///tmp/run.evt"), Err(SourceError::SchemeMismatch));
    assert_eq!(check_live_uri("tcp://localhost/fox"), Ok(()));
    assert_eq!(check_live_uri("::"), Err(SourceError::UriParse));
}

#[test]
fn selector_picks_by_scheme() {
    assert_eq!(select_source("tcp://localhost/fox"), Ok(SourceKind::Live));
    assert_eq!(select_source("file:///tmp/run.evt"), Ok(SourceKind::Finite));
    assert_eq!(select_source("http://example.com/"), Err(SourceError::SchemeMismatch));
    assert_eq!(select_source("not a uri"), Err(SourceError::UriParse));
}

#[test]
fn decisions_on_parsed_parts() {
    let parts = |s: &str, p: &str| Some((s.to_string(), String::new(), p.to_string()));
    assert!(matches!(
        FileDataSource::target_from_parts(parts("file", "-")),
        Ok(FileTarget::Stdin)
    ));
    assert!(matches!(
        FileDataSource::target_from_parts(Some(("file".to_string(), "-".to_string(), "/".to_string()))),
        Ok(FileTarget::Stdin)
    ));
    assert!(matches!(
        FileDataSource::target_from_parts(parts("tcp", "/ring")),
        Err(SourceError::SchemeMismatch)
    ));
    assert!(matches!(FileDataSource::target_from_parts(None), Err(SourceError::UriParse)));
    assert_eq!(check_live_parts(parts("tcp", "/ring")), Ok(()));
    assert_eq!(check_live_parts(parts("file", "/x")), Err(SourceError::SchemeMismatch));
    assert_eq!(select_from_parts(parts("ftp", "/x")), Err(SourceError::SchemeMismatch));
    assert_eq!(select_from_parts(None), Err(SourceError::UriParse));
}

#[test]
fn file_uri_dash_is_stdin() {
    assert!(matches!(FileDataSource::resolve("file://-"), Ok(FileTarget::Stdin)));
    match FileDataSource::resolve("file:///tmp/-x") {
        Ok(FileTarget::Path(p)) => assert_eq!(p, "/tmp/-x"),
        _ => panic!("expected a path"),
    }
}

#[test]
fn failed_open_keeps_open_source() {
    let mut s = FileDataSource::new();
    assert!(s.open("file:///tmp/run.evt").is_ok());
    s.supply(Fill::Data(vec![1, 2, 3]));
    assert!(matches!(s.open("tcp://localhost/ring"), Err(SourceError::SchemeMismatch)));
    assert!(s.readable());
    assert_eq!(s.buffered(), 3);
    assert!(matches!(s.open("not a uri"), Err(SourceError::UriParse)));
    assert!(s.readable());
    assert_eq!(s.buffered(), 3);
    assert!(s.open("file:///tmp/other.evt").is_ok());
    assert_eq!(s.buffered(), 0);
}
