use mqttpal::HtmxHeaders;

fn headers(pairs: &[(&str, Option<&str>)]) -> Vec<(String, Option<String>)> {
    pairs
        .iter()
        .map(|(n, v)| (n.to_string(), v.map(|v| v.to_string())))
        .collect()
}

#[test]
fn request_headers_are_read() {
    let hx = HtmxHeaders::from_headers_map(&headers(&[
        ("hx-request", Some("true")),
        ("hx-boosted", Some("false")),
        ("hx-current-url", Some("http://localhost/login/")),
        ("hx-target", Some("main")),
        ("hx-trigger", Some("btn")),
        ("accept", Some("text/html")),
    ]))
    .unwrap();
    assert!(hx.request());
    assert!(!hx.boosted());
    assert!(!hx.history_restore_request());
    assert_eq!(hx.current_url(), &Some("http://localhost/login/".to_string()));
    assert_eq!(hx.target(), &Some("main".to_string()));
    assert_eq!(hx.trigger(), &Some("btn".to_string()));
    assert_eq!(hx.prompt(), &None);
    assert_eq!(hx.trigger_name(), &None);
    assert_eq!(hx.write_headers(), vec![("hx-trigger".to_string(), "btn".to_string())]);
}

#[test]
fn no_headers_means_no_htmx() {
    let hx = HtmxHeaders::from_headers_map(&vec![]).unwrap();
    assert!(!hx.request());
    assert!(!hx.boosted());
    assert!(hx.write_headers().is_empty());
    let d = HtmxHeaders::default();
    assert!(!d.request());
    assert_eq!(d.current_url(), &None);
}

#[test]
fn first_of_repeated_headers_counts() {
    let hx = HtmxHeaders::from_headers_map(&headers(&[
        ("hx-prompt", Some("first")),
        ("hx-prompt", Some("second")),
        ("hx-history-restore-request", Some("true")),
    ]))
    .unwrap();
    assert_eq!(hx.prompt(), &Some("first".to_string()));
    assert!(hx.history_restore_request());
}

#[test]
fn malformed_headers_are_refused() {
    assert!(HtmxHeaders::from_headers_map(&headers(&[("hx-request", Some("yes"))])).is_none());
    assert!(HtmxHeaders::from_headers_map(&headers(&[("hx-request", Some("True"))])).is_none());
    assert!(HtmxHeaders::from_headers_map(&headers(&[("hx-target", None)])).is_none());
    assert!(HtmxHeaders::from_headers_map(&headers(&[("x-other", None)])).is_some());
}

#[test]
fn response_headers_are_written_in_order() {
    let mut hx = HtmxHeaders::default();
    hx.set_trigger_after_swap("swapped");
    hx.set_redirect("/login/");
    hx.set_push_url("/dashboard/");
    hx.set_retarget("#form-errors");
    hx.set_reswap("innerHtml");
    hx.set_trigger("done");
    hx.set_location("/here");
    hx.set_refresh("true");
    hx.set_replace_url("/r");
    hx.set_reselect("#part");
    hx.set_trigger_after_settle("settled");
    hx.set_redirect("/");
    let expected: Vec<(String, String)> = [
        ("hx-location", "/here"),
        ("hx-push-url", "/dashboard/"),
        ("hx-redirect", "/"),
        ("hx-refresh", "true"),
        ("hx-replace-url", "/r"),
        ("hx-reswap", "innerHtml"),
        ("hx-reselect", "#part"),
        ("hx-retarget", "#form-errors"),
        ("hx-trigger", "done"),
        ("hx-trigger-after-settle", "settled"),
        ("hx-trigger-after-swap", "swapped"),
    ]
    .iter()
    .map(|(n, v)| (n.to_string(), v.to_string()))
    .collect();
    assert_eq!(hx.write_headers(), expected);
    assert!(!hx.request());
    assert_eq!(hx.trigger(), &None);
}
