use ytmusic_manager::listing::{select_subscription, truncate_description, GotoError};
use ytmusic_manager::subscribe::{
    classify_failure, quota_backoff_ms, server_backoff_ms, FailureClass, SubscribeError, SubscribeSession, SubscribeStep,
};
use ytmusic_manager::urls::{channel_details_url, music_url, search_url};

fn failure(text: &str) -> Result<(), String> {
    Err(text.to_string())
}

#[test]
fn duplicate_subscription_counts_as_success() {
    let mut s = SubscribeSession::new(3);
    assert!(s.may_attempt());
    assert_eq!(s.record(&failure("The subscription already exists: subscriptionDuplicate")), SubscribeStep::Subscribed);
}

#[test]
fn quota_failures_back_off_exponentially_then_give_up() {
    let mut s = SubscribeSession::new(3);
    let mut attempts = 0;
    let mut delays = Vec::new();
    let error = loop {
        assert!(s.may_attempt());
        attempts += 1;
        match s.record(&failure("Bad Request: quotaExceeded")) {
            SubscribeStep::RetryAfter { delay_ms } => delays.push(delay_ms),
            SubscribeStep::GiveUp { delay_ms, error } => {
                delays.push(delay_ms);
                break error;
            }
            SubscribeStep::Subscribed => panic!("quota failure is no success"),
        }
    };
    assert_eq!(attempts, 3);
    assert_eq!(delays, vec![1000, 2000, 4000]);
    assert_eq!(error, SubscribeError::QuotaExceeded { retries: 3 });
}

#[test]
fn server_failures_back_off_linearly() {
    let mut s = SubscribeSession::new(2);
    assert_eq!(s.record(&failure("backendError")), SubscribeStep::RetryAfter { delay_ms: 1000 });
    assert_eq!(
        s.record(&failure("internal error")),
        SubscribeStep::GiveUp { delay_ms: 1500, error: SubscribeError::ServerError { retries: 2 } }
    );
}

#[test]
fn fatal_failures_stop_at_once() {
    let mut s = SubscribeSession::new(5);
    assert_eq!(
        s.record(&failure("403 forbidden")),
        SubscribeStep::GiveUp { delay_ms: 0, error: SubscribeError::PermissionDenied }
    );
    let mut s = SubscribeSession::new(5);
    assert_eq!(
        s.record(&failure("channelNotFound")),
        SubscribeStep::GiveUp { delay_ms: 0, error: SubscribeError::ChannelNotFound }
    );
    let mut s = SubscribeSession::new(5);
    assert_eq!(s.record(&failure("weird")), SubscribeStep::GiveUp { delay_ms: 0, error: SubscribeError::Rejected });
    assert_eq!(s.attempt, 0);
}

#[test]
fn success_ends_the_session() {
    let mut s = SubscribeSession::new(1);
    assert_eq!(s.record(&Ok(())), SubscribeStep::Subscribed);
}

#[test]
fn no_attempt_allowed_without_retries() {
    let s = SubscribeSession::new(0);
    assert!(!s.may_attempt());
}

#[test]
fn failure_classes_follow_rule_order() {
    assert_eq!(classify_failure("rateLimitExceeded"), FailureClass::QuotaExceeded);
    assert_eq!(classify_failure("quotaExceeded 403"), FailureClass::QuotaExceeded);
    assert_eq!(classify_failure("HTTP 403"), FailureClass::PermissionDenied);
    assert_eq!(classify_failure("404 page"), FailureClass::ChannelNotFound);
    assert_eq!(classify_failure("you are already subscribed"), FailureClass::Duplicate);
    assert_eq!(classify_failure("backend"), FailureClass::ServerError);
    assert_eq!(classify_failure(""), FailureClass::Other);
}

#[test]
fn backoff_formulas() {
    assert_eq!(quota_backoff_ms(0), 1000);
    assert_eq!(quota_backoff_ms(5), 32000);
    assert_eq!(quota_backoff_ms(200), u64::MAX);
    assert_eq!(server_backoff_ms(0), 1000);
    assert_eq!(server_backoff_ms(4), 3000);
}

#[test]
fn search_url_encodes_the_term() {
    assert_eq!(
        search_url("AC/DC & Friends", "KEY"),
        "https://www.googleapis.com/youtube/v3/search?part=snippet&q=AC%2FDC%20%26%20Friends&type=channel&maxResults=10&key=KEY"
    );
    assert_eq!(
        search_url("Björk", "K"),
        "https://www.googleapis.com/youtube/v3/search?part=snippet&q=Bj%C3%B6rk&type=channel&maxResults=10&key=K"
    );
}

#[test]
fn channel_urls() {
    assert_eq!(
        channel_details_url("UC1", "K"),
        "https://www.googleapis.com/youtube/v3/channels?part=snippet,statistics&id=UC1&key=K"
    );
    assert_eq!(music_url("UC1"), "https://music.youtube.com/channel/UC1");
}

#[test]
fn descriptions_are_cut_after_117_characters() {
    let long = "x".repeat(121);
    let cut = truncate_description(&long, false);
    assert_eq!(cut, format!("{}...", "x".repeat(117)));
    assert_eq!(truncate_description(&long, true), long);
    let exact = "y".repeat(120);
    assert_eq!(truncate_description(&exact, false), exact);
}

#[test]
fn subscription_numbers_start_from_one() {
    assert_eq!(select_subscription(0, 5, 5), Err(GotoError::ZeroNumber));
    assert_eq!(select_subscription(6, 5, 5), Err(GotoError::OutOfRange { available: 5 }));
    assert_eq!(select_subscription(4, 5, 3), Err(GotoError::NotListed { number: 4 }));
    assert_eq!(select_subscription(1, 5, 5), Ok(0));
    assert_eq!(select_subscription(5, 5, 5), Ok(4));
}
