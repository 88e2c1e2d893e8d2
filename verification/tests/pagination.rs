use agorusta::messages::{collect_history, ChannelLog, Message};

fn msg(id: &str, channel: &str, ts: i64) -> Message {
    Message {
        id: id.to_string(),
        channel_id: channel.to_string(),
        author_id: "u1".to_string(),
        author_username: "alice".to_string(),
        content: format!("message at {}", ts),
        created_at: ts,
    }
}

fn log_with(channel: &str, timestamps: &[i64]) -> ChannelLog {
    let mut log = ChannelLog::new(channel.to_string());
    for (i, ts) in timestamps.iter().enumerate() {
        log.append(msg(&format!("m{}", i), channel, *ts));
    }
    log
}

#[test]
fn pagination_completeness_all_page_sizes() {
    let n = 6usize;
    let timestamps: Vec<i64> = (1..=n as i64).map(|i| i * 100).collect();
    let log = log_with("c1", &timestamps);
    for k in 1..=n + 5 {
        let all = collect_history(&log, k);
        assert_eq!(all.len(), n);
        for (i, m) in all.iter().enumerate() {
            assert_eq!(m.created_at, ((n - i) as i64) * 100);
        }
    }
}

#[test]
fn pagination_stability_under_concurrent_insert() {
    let mut log = log_with("c1", &[100, 200, 300, 400]);
    let first = log.page(2, Some(300));
    // A newer message arrives between page fetches.
    log.append(msg("late", "c1", 500));
    let second = log.page(2, Some(300));
    assert_eq!(first.messages.len(), second.messages.len());
    for (a, b) in first.messages.iter().zip(second.messages.iter()) {
        assert_eq!(a.id, b.id);
        assert_eq!(a.created_at, b.created_at);
    }
    assert_eq!(first.has_more, second.has_more);
    assert_eq!(first.next_cursor, second.next_cursor);
}

#[test]
fn end_to_end_two_pages() {
    let log = log_with("c1", &[100, 200, 300]);
    let page1 = log.page(2, None);
    assert_eq!(page1.messages.len(), 2);
    assert_eq!(page1.messages[0].created_at, 300);
    assert_eq!(page1.messages[1].created_at, 200);
    assert!(page1.has_more);
    assert_eq!(page1.next_cursor, Some(200));
    let page2 = log.page(2, page1.next_cursor);
    assert_eq!(page2.messages.len(), 1);
    assert_eq!(page2.messages[0].created_at, 100);
    assert!(!page2.has_more);
    assert_eq!(page2.next_cursor, None);
}

#[test]
fn limit_is_clamped_to_1_and_100() {
    let timestamps: Vec<i64> = (1..=120).map(|i| i as i64).collect();
    let log = log_with("c1", &timestamps);
    let low = log.page(0, None);
    assert_eq!(low.messages.len(), 1);
    let high = log.page(1000, None);
    assert_eq!(high.messages.len(), 100);
    assert!(high.has_more);
    assert_eq!(high.next_cursor, Some(21));
}

#[test]
fn empty_log_page_is_empty() {
    let log = ChannelLog::new("c1".to_string());
    let page = log.page(50, None);
    assert!(page.messages.is_empty());
    assert!(!page.has_more);
    assert_eq!(page.next_cursor, None);
}

#[test]
fn cursor_is_exclusive() {
    let log = log_with("c1", &[100, 200, 300]);
    let page = log.page(10, Some(200));
    assert_eq!(page.messages.len(), 1);
    assert_eq!(page.messages[0].created_at, 100);
}

#[test]
fn equal_timestamps_all_served() {
    let log = log_with("c1", &[100, 200, 200, 300]);
    let page = log.page(10, None);
    assert_eq!(page.messages.len(), 4);
    assert_eq!(page.messages[0].created_at, 300);
    assert_eq!(page.messages[3].created_at, 100);
}
