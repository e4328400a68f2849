use replicated_log::digest::Digest;
use replicated_log::handlers::{client_submit, digest_read, peer_relay_receive, DigestResponse};
use replicated_log::log::MessageLog;

const SHA256_OF_NOTHING: &str = "E3B0C44298FC1C149AFBF4C8996FB92427AE41E4649B934CA495991B7852B855";
const SHA256_OF_AB: &str = "FB8E20FC2E4C3F248C60C39BD652F3C1347298BB977B8B4D5903B85055620603";

fn summary(response: DigestResponse) -> Digest {
    match response {
        DigestResponse::Summary(digest) => digest,
        DigestResponse::Unavailable => panic!("no digest"),
    }
}

#[test]
fn client_submit_stores_and_starts_a_broadcast() {
    let mut log = MessageLog::new();
    let peers = vec![9002, 9003];
    let submission = client_submit(Some(&mut log), &peers, "hello");
    assert_eq!(submission.response, "hello");
    assert_eq!(log.snapshot(), vec!["hello".to_string()]);
    let broadcast = submission.broadcast.unwrap();
    assert_eq!(broadcast.attempts(), 0);
    let request = broadcast.next_request().unwrap();
    assert_eq!(request.port, 9002);
    assert_eq!(request.message, "hello");
}

#[test]
fn client_submit_appends_behind_earlier_messages() {
    let mut log = MessageLog::new();
    let peers = vec![9001];
    client_submit(Some(&mut log), &peers, "one");
    client_submit(Some(&mut log), &peers, "two");
    client_submit(Some(&mut log), &peers, "one");
    assert_eq!(log.snapshot(), vec!["one".to_string(), "two".to_string(), "one".to_string()]);
}

#[test]
fn client_submit_without_the_log_still_answers() {
    let peers = vec![9002, 9003];
    let submission = client_submit(None, &peers, "lost");
    assert_eq!(submission.response, "lost");
    assert!(submission.broadcast.is_none());
}

#[test]
fn client_submit_returns_the_text_verbatim() {
    let mut log = MessageLog::new();
    let text = "  spaces\tand\nlines \"quotes\" {braces} \\ é 日本  ";
    let submission = client_submit(Some(&mut log), &Vec::new(), text);
    assert_eq!(submission.response, text);
    assert_eq!(log.snapshot(), vec![text.to_string()]);
    let submission = client_submit(Some(&mut log), &Vec::new(), "");
    assert_eq!(submission.response, "");
    assert_eq!(log.len(), 2);
}

#[test]
fn peer_relay_receive_stores_and_answers() {
    let mut log = MessageLog::new();
    let response = peer_relay_receive(Some(&mut log), "relayed");
    assert_eq!(response, "relayed");
    assert_eq!(log.snapshot(), vec!["relayed".to_string()]);
}

#[test]
fn peer_relay_receive_without_the_log_still_answers() {
    assert_eq!(peer_relay_receive(None, "lost"), "lost");
}

#[test]
fn peer_relay_receive_returns_the_text_verbatim() {
    let mut log = MessageLog::new();
    let text = "\n \"x\"\t é ";
    assert_eq!(peer_relay_receive(Some(&mut log), text), text);
    assert_eq!(log.snapshot(), vec![text.to_string()]);
}

#[test]
fn digest_read_covers_both_logs() {
    let mut client = MessageLog::new();
    let mut peer = MessageLog::new();
    client.append("b".to_string());
    peer.append("a".to_string());
    let digest = summary(digest_read(Some(&client), Some(&peer)));
    assert_eq!(digest.count, 2);
    assert_eq!(digest.hash_hex, SHA256_OF_AB);
}

#[test]
fn digest_read_of_empty_logs() {
    let client = MessageLog::new();
    let peer = MessageLog::new();
    let digest = summary(digest_read(Some(&client), Some(&peer)));
    assert_eq!(digest.count, 0);
    assert_eq!(digest.hash_hex, SHA256_OF_NOTHING);
}

#[test]
fn digest_read_without_a_log_is_an_error() {
    let log = MessageLog::new();
    assert!(matches!(digest_read(None, Some(&log)), DigestResponse::Unavailable));
    assert!(matches!(digest_read(Some(&log), None), DigestResponse::Unavailable));
    assert!(matches!(digest_read(None, None), DigestResponse::Unavailable));
}

#[test]
fn digest_read_leaves_the_logs_alone() {
    let mut client = MessageLog::new();
    client.append("b".to_string());
    client.append("a".to_string());
    let peer = MessageLog::new();
    let _ = digest_read(Some(&client), Some(&peer));
    assert_eq!(client.snapshot(), vec!["b".to_string(), "a".to_string()]);
}

#[test]
fn the_summary_body_holds_digest_and_count() {
    let response = DigestResponse::Summary(Digest { hash_hex: "AB12".to_string(), count: 42 });
    assert_eq!(response.to_json(), "{ \"digest\": \"AB12\", \"count\": 42 }");
}

#[test]
fn the_body_of_an_empty_node() {
    let client = MessageLog::new();
    let peer = MessageLog::new();
    let body = digest_read(Some(&client), Some(&peer)).to_json();
    assert_eq!(
        body,
        "{ \"digest\": \"E3B0C44298FC1C149AFBF4C8996FB92427AE41E4649B934CA495991B7852B855\", \"count\": 0 }"
    );
}

#[test]
fn the_error_body_holds_the_error_text() {
    assert_eq!(
        DigestResponse::Unavailable.to_json(),
        "{ \"error\": \"Error retrieving digest\" }"
    );
}

#[test]
fn both_bodies_are_json_objects() {
    let summary: serde_json::Value = serde_json::from_str(
        &DigestResponse::Summary(Digest { hash_hex: "0F".to_string(), count: 3 }).to_json(),
    )
    .unwrap();
    assert_eq!(summary["digest"], "0F");
    assert_eq!(summary["count"], 3);
    let error: serde_json::Value =
        serde_json::from_str(&DigestResponse::Unavailable.to_json()).unwrap();
    assert_eq!(error["error"], "Error retrieving digest");
}
