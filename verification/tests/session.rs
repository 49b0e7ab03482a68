use std::io::Read;
use std::io::Seek;
use std::io::SeekFrom;
use std::io::Write;
use std::sync::mpsc;
use std::time::Duration;

use json_utils::state::JsonUtils;
use notify::Watcher;

fn parsed(text: &str) -> JsonUtils {
    let mut st = JsonUtils::new();
    st.load_text(text.to_string());
    st
}

#[test]
fn externalize_with_no_text_is_refused() {
    let mut st = JsonUtils::new();
    assert!(st.request_externalize().is_none());
    assert_eq!(st.error_message, "No JSON content to edit");
}

#[test]
fn externalize_hands_out_the_raw_text() {
    let mut st = parsed("{\"a\":1}");
    let content = st.request_externalize();
    assert_eq!(content.unwrap(), "{\"a\":1}");
    assert_eq!(st.raw_input, "{\"a\":1}");
}

#[test]
fn session_established_message_names_the_file() {
    let mut st = parsed("{\"a\":1}");
    st.note_session_established("/tmp/example.json");
    assert_eq!(
        st.error_message,
        "Edit this file: /tmp/example.json\nFile is being watched for changes..."
    );
}

#[test]
fn session_failure_surfaces_the_diagnostic() {
    let mut st = parsed("{\"a\":1}");
    st.note_session_failed("could not create the file".to_string());
    assert_eq!(st.error_message, "could not create the file");
    assert!(st.is_valid);
}

#[test]
fn reconcile_unchanged_content_does_nothing() {
    let mut st = parsed("{\"a\":1}");
    let formatted = st.formatted_json.clone();
    st.reconcile_file_content("{\"a\":1}".to_string());
    assert!(st.is_valid);
    assert_eq!(st.formatted_json, formatted);
    assert_eq!(st.raw_input, "{\"a\":1}");
}

#[test]
fn reconcile_changed_content_reparses() {
    let mut st = parsed("hi");
    assert!(!st.is_valid);
    st.reconcile_file_content("bye".to_string());
    assert_eq!(st.raw_input, "bye");
    assert!(!st.is_valid);
    assert!(st.error_message.starts_with("Invalid JSON: "));
    st.reconcile_file_content("{\"now\": \"valid\"}".to_string());
    assert!(st.is_valid);
    assert_eq!(st.raw_input, "{\"now\": \"valid\"}");
}

#[test]
fn reinit_flag_round_trip() {
    let mut st = parsed("{\"a\":1}");
    assert!(!st.needs_terminal_reinit);
    st.mark_terminal_reinit();
    assert!(st.needs_terminal_reinit);
    st.ack_terminal_reinit();
    assert!(!st.needs_terminal_reinit);
}

#[test]
fn out_of_band_edit_is_reconciled_after_one_poll() {
    // The scenario of an externalized document edited behind the viewer's
    // back: write "hi" to the watched temp file, edit it to "bye", wait
    // for one change notification, re-read and reconcile.
    let mut st = parsed("hi");
    let content = st.request_externalize().expect("there is text to edit");

    let mut file = tempfile::NamedTempFile::new().expect("temp file");
    file.write_all(content.as_bytes()).expect("write");
    file.flush().expect("flush");

    let (tx, rx) = mpsc::channel();
    let mut watcher = notify::recommended_watcher(tx).expect("watcher");
    watcher
        .watch(file.path(), notify::RecursiveMode::NonRecursive)
        .expect("watch");

    // The out-of-band edit: the file now reads "bye".
    let edited = file.as_file_mut();
    edited.set_len(0).expect("truncate");
    edited.seek(SeekFrom::Start(0)).expect("seek");
    edited.write_all("bye".as_bytes()).expect("edit");
    edited.flush().expect("flush");

    // One poll cycle: a notification arrives, the file is re-read, and
    // the changed content replaces the raw text and is re-parsed.
    let event = rx.recv_timeout(Duration::from_secs(10));
    assert!(event.is_ok(), "no change notification arrived");

    let mut reread = String::new();
    let mut reopened = file.reopen().expect("reopen");
    reopened.read_to_string(&mut reread).expect("read");
    assert_eq!(reread, "bye");

    st.reconcile_file_content(reread);
    assert_eq!(st.raw_input, "bye");
    assert!(!st.is_valid);
    assert!(st.error_message.starts_with("Invalid JSON: "));
}
