use gun::json::Json;
use gun::strmap::StrMap;
use gun::webrtc::{
    answer_sdp, classify_rtc, offer_sdp, rtc_signal_message, should_connect, unescape_sdp, RtcAction, SdpKind,
    WebRTCOptions,
};

fn rtc_object(pairs: Vec<(&str, Json)>) -> Json {
    let mut m = StrMap::new();
    for (k, v) in pairs {
        m.insert(k.to_string(), v);
    }
    Json::Object(m)
}

fn rtc_wrap(rtc: Json) -> Json {
    rtc_object(vec![("ok", rtc_object(vec![("rtc", rtc)]))])
}

fn rtc_text(s: &str) -> Json {
    Json::String(s.to_string())
}

#[test]
fn signalling_messages_are_classified() {
    let none = rtc_object(vec![("put", Json::Null)]);
    assert!(matches!(classify_rtc(&none, "me"), Ok(RtcAction::Ignore)));
    let own = rtc_wrap(rtc_object(vec![("id", rtc_text("me"))]));
    assert!(matches!(classify_rtc(&own, "me"), Ok(RtcAction::Ignore)));
    let discover = rtc_wrap(rtc_object(vec![("id", rtc_text("p1"))]));
    assert!(matches!(classify_rtc(&discover, "me"), Ok(RtcAction::Discover("p1"))));
    let offer = rtc_wrap(rtc_object(vec![("id", rtc_text("p1")), ("offer", Json::Null)]));
    assert!(matches!(classify_rtc(&offer, "me"), Ok(RtcAction::Offer("p1"))));
    let answer = rtc_wrap(rtc_object(vec![("id", rtc_text("p1")), ("answer", Json::Null), ("offer", Json::Null)]));
    assert!(matches!(classify_rtc(&answer, "me"), Ok(RtcAction::Answer("p1"))));
    let cand = rtc_wrap(rtc_object(vec![("id", rtc_text("p1")), ("candidate", Json::Null), ("answer", Json::Null)]));
    assert!(matches!(classify_rtc(&cand, "me"), Ok(RtcAction::Candidate("p1"))));
    let no_id = rtc_wrap(rtc_object(vec![("offer", Json::Null)]));
    assert!(classify_rtc(&no_id, "me").is_err());
}

#[test]
fn escaped_line_breaks_become_real_ones() {
    assert_eq!(unescape_sdp("v=0\\r\\no=- 1"), "v=0\r\no=- 1");
    assert_eq!(unescape_sdp("no breaks"), "no breaks");
    assert_eq!(unescape_sdp("\\r"), "\\r");
}

#[test]
fn offer_and_answer_sdp_are_read() {
    let rtc = rtc_object(vec![
        ("id", rtc_text("p1")),
        ("offer", rtc_object(vec![("sdp", rtc_text("a\\r\\nb")), ("type", rtc_text("offer"))])),
    ]);
    assert_eq!(offer_sdp(&rtc).ok(), Some("a\r\nb".to_string()));
    assert!(answer_sdp(&rtc).is_err());
    let ans = rtc_object(vec![("answer", rtc_object(vec![("sdp", rtc_text("x"))]))]);
    assert_eq!(answer_sdp(&ans).ok(), Some("x"));
}

#[test]
fn connections_are_limited() {
    let opts = WebRTCOptions::default();
    assert!(should_connect(false, 0, &opts));
    assert!(should_connect(false, 54, &opts));
    assert!(!should_connect(false, 55, &opts));
    assert!(!should_connect(true, 0, &opts));
}

#[test]
fn signal_message_carries_the_description() {
    let m = rtc_signal_message("me", SdpKind::Answer, "sdp-text".to_string());
    let rtc = m.get("ok").and_then(|o| o.get("rtc")).unwrap();
    assert_eq!(rtc.get("id"), Some(&rtc_text("me")));
    let ans = rtc.get("answer").unwrap();
    assert_eq!(ans.get("sdp"), Some(&rtc_text("sdp-text")));
    assert_eq!(ans.get("type"), Some(&rtc_text("answer")));
    assert!(rtc.get("offer").is_none());
}
