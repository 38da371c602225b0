use nexterm_client::notification::notification_summary;

#[test]
fn the_summary_is_prefixed_with_the_application_name() {
    assert_eq!(notification_summary("Build done"), "Nexterm: Build done");
    assert_eq!(notification_summary(""), "Nexterm: ");
    assert_eq!(notification_summary("完了"), "Nexterm: 完了");
}
