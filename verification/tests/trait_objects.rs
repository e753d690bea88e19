use rust_from_python::trait_objects::{
    create_notifier, create_notifier_with_config, AnyNotifier, EmailNotifier, NotificationManager,
    Notifier, SlackNotifier, SmsNotifier,
};

#[test]
fn test_single_notifier() {
    let email = EmailNotifier::new("test@test.com");
    assert_eq!(email.name(), "test@test.com");
    assert_eq!(email.kind_name(), "EmailNotifier");
}

#[test]
fn test_trait_object_creation() {
    let n: Box<dyn Notifier> = Box::new(SmsNotifier::new("+86-000"));
    assert_eq!(n.name(), "+86-000");
    assert_eq!(n.kind_name(), "SmsNotifier");
}

#[test]
fn test_factory() {
    let n = create_notifier("email");
    assert_eq!(n.kind_name(), "EmailNotifier");
    let n = create_notifier("sms");
    assert_eq!(n.kind_name(), "SmsNotifier");
}

#[test]
fn test_factory_with_config() {
    let n = create_notifier_with_config("email", "hello@world.com").unwrap();
    assert_eq!(n.name(), "hello@world.com");
}

#[test]
fn test_manager_register_and_count() {
    let mut mgr = NotificationManager::new();
    assert_eq!(mgr.count(), 0);
    mgr.register(AnyNotifier::Email(EmailNotifier::new("a@b.com")));
    assert_eq!(mgr.count(), 1);
    mgr.register(AnyNotifier::Sms(SmsNotifier::new("+86-111")));
    assert_eq!(mgr.count(), 2);
}

#[test]
fn test_mixed_trait_objects() {
    let notifiers: Vec<Box<dyn Notifier>> = vec![
        Box::new(EmailNotifier::new("e@e.com")),
        Box::new(SmsNotifier::new("+86-123")),
    ];
    assert_eq!(notifiers.len(), 2);
    assert_eq!(notifiers[0].kind_name(), "EmailNotifier");
    assert_eq!(notifiers[1].kind_name(), "SmsNotifier");
}

#[test]
fn test_describe_default_impl() {
    let email = EmailNotifier::new("x@y.com");
    let desc = email.describe();
    assert!(desc.contains("x@y.com"));
    assert!(desc.contains("EmailNotifier"));
}

#[test]
fn describe_is_name_and_kind() {
    let slack = SlackNotifier::new("alerts", "https://hooks/x");
    assert_eq!(slack.describe(), "alerts (type: SlackNotifier)");
    let boxed: Box<dyn Notifier> = Box::new(create_notifier("slack"));
    assert_eq!(boxed.describe(), "ops-alerts (type: SlackNotifier)");
}

#[test]
fn notification_lines() {
    assert_eq!(
        EmailNotifier::new("a@b.c").notification("hi"),
        "📧 [EMAIL] 发送邮件到 a@b.c: hi"
    );
    assert_eq!(SmsNotifier::new("+1").notification("yo"), "📱 [SMS]  发送短信到 +1: yo");
    assert_eq!(
        SlackNotifier::new("ch", "w").notification("m"),
        "💬 [SLACK] 发送到频道 #ch (webhook: w): m"
    );
}

#[test]
fn slack_config_is_split_at_one_comma() {
    let n = create_notifier_with_config("slack", " ops-alerts , https://hooks.slack.com/yyy ").unwrap();
    match n {
        AnyNotifier::Slack(s) => {
            assert_eq!(s.channel, "ops-alerts");
            assert_eq!(s.webhook, "https://hooks.slack.com/yyy");
        }
        _ => panic!("expected a Slack notifier"),
    }
    let err = create_notifier_with_config("slack", "no-comma").err().unwrap();
    assert_eq!(err, "Slack 需要格式: 'channel,webhook'");
    assert!(create_notifier_with_config("slack", "a,b,c").is_err());
    let n = create_notifier_with_config("slack", ",").unwrap();
    assert_eq!(n.name(), "");
}

#[test]
fn unknown_kind_is_refused() {
    let err = create_notifier_with_config("pager", "x").err().unwrap();
    assert_eq!(err, "未知的通知器类型: 'pager'");
}

#[test]
fn factory_presets() {
    assert_eq!(create_notifier("email").name(), "admin@example.com");
    assert_eq!(create_notifier("sms").name(), "+86-138-0000-0000");
    assert_eq!(create_notifier("slack").name(), "ops-alerts");
}
