//! Notifiers of several kinds behind one trait: e-mail, SMS and Slack, the
//! factories that pick one by name, and a manager that keeps them.  Sending
//! (printing the notification line) is done by the program around it.

use vstd::prelude::*;
use vstd::string::*;
use crate::text::{str_eq, trim, trim_str};

verus! {

/// Something that sends notifications somewhere.
pub trait Notifier {
    /// Where it sends to.
    spec fn target(&self) -> Seq<char>;

    /// The name of its kind.
    spec fn kind(&self) -> Seq<char>;

    /// The line that sending `message` shows.
    spec fn notification_text(&self, message: Seq<char>) -> Seq<char>;

    /// The line that sending `message` shows.
    fn notification(&self, message: &str) -> (r: String)
        ensures
            r@ == self.notification_text(message@),
    ;

    /// Where it sends to.
    fn name(&self) -> (r: &str)
        ensures
            r@ == self.target(),
    ;

    /// The name of its kind.
    fn kind_name(&self) -> (r: &str)
        ensures
            r@ == self.kind(),
    ;

    /// `"<name> (type: <kind name>)"`.
    fn describe(&self) -> (r: String)
        ensures
            r@ == self.target() + " (type: "@ + self.kind() + ")"@,
    {
        let mut s = String::from_str(self.name());
        s.append(" (type: ");
        s.append(self.kind_name());
        s.append(")");
        s
    }
}

/// Sends e-mail.
pub struct EmailNotifier {
    /// The address mail goes to.
    pub address: String,
}

impl EmailNotifier {
    /// A notifier for `address`.
    pub fn new(address: &str) -> (n: EmailNotifier)
        ensures
            n.address@ == address@,
    {
        EmailNotifier { address: String::from_str(address) }
    }
}

impl Notifier for EmailNotifier {
    open spec fn target(&self) -> Seq<char> {
        self.address@
    }

    open spec fn kind(&self) -> Seq<char> {
        "EmailNotifier"@
    }

    open spec fn notification_text(&self, message: Seq<char>) -> Seq<char> {
        "📧 [EMAIL] 发送邮件到 "@ + self.address@ + ": "@ + message
    }

    fn notification(&self, message: &str) -> (r: String) {
        let mut s = String::from_str("📧 [EMAIL] 发送邮件到 ");
        s.append(self.address.as_str());
        s.append(": ");
        s.append(message);
        s
    }

    fn name(&self) -> (r: &str) {
        self.address.as_str()
    }

    fn kind_name(&self) -> (r: &str) {
        "EmailNotifier"
    }
}

/// Sends text messages.
pub struct SmsNotifier {
    /// The phone number messages go to.
    pub phone: String,
}

impl SmsNotifier {
    /// A notifier for `phone`.
    pub fn new(phone: &str) -> (n: SmsNotifier)
        ensures
            n.phone@ == phone@,
    {
        SmsNotifier { phone: String::from_str(phone) }
    }
}

impl Notifier for SmsNotifier {
    open spec fn target(&self) -> Seq<char> {
        self.phone@
    }

    open spec fn kind(&self) -> Seq<char> {
        "SmsNotifier"@
    }

    open spec fn notification_text(&self, message: Seq<char>) -> Seq<char> {
        "📱 [SMS]  发送短信到 "@ + self.phone@ + ": "@ + message
    }

    fn notification(&self, message: &str) -> (r: String) {
        let mut s = String::from_str("📱 [SMS]  发送短信到 ");
        s.append(self.phone.as_str());
        s.append(": ");
        s.append(message);
        s
    }

    fn name(&self) -> (r: &str) {
        self.phone.as_str()
    }

    fn kind_name(&self) -> (r: &str) {
        "SmsNotifier"
    }
}

/// Posts to a Slack channel through a webhook.
pub struct SlackNotifier {
    /// The channel posted to.
    pub channel: String,
    /// The webhook posted through.
    pub webhook: String,
}

impl SlackNotifier {
    /// A notifier for `channel` through `webhook`.
    pub fn new(channel: &str, webhook: &str) -> (n: SlackNotifier)
        ensures
            n.channel@ == channel@,
            n.webhook@ == webhook@,
    {
        SlackNotifier { channel: String::from_str(channel), webhook: String::from_str(webhook) }
    }
}

impl Notifier for SlackNotifier {
    open spec fn target(&self) -> Seq<char> {
        self.channel@
    }

    open spec fn kind(&self) -> Seq<char> {
        "SlackNotifier"@
    }

    open spec fn notification_text(&self, message: Seq<char>) -> Seq<char> {
        "💬 [SLACK] 发送到频道 #"@ + self.channel@ + " (webhook: "@ + self.webhook@ + "): "@
            + message
    }

    fn notification(&self, message: &str) -> (r: String) {
        let mut s = String::from_str("💬 [SLACK] 发送到频道 #");
        s.append(self.channel.as_str());
        s.append(" (webhook: ");
        s.append(self.webhook.as_str());
        s.append("): ");
        s.append(message);
        s
    }

    fn name(&self) -> (r: &str) {
        self.channel.as_str()
    }

    fn kind_name(&self) -> (r: &str) {
        "SlackNotifier"
    }
}

/// A notifier of one of the three kinds, chosen at run time: what the
/// factories hand back.  It is itself a `Notifier`, and can be boxed as a
/// trait object.
pub enum AnyNotifier {
    Email(EmailNotifier),
    Sms(SmsNotifier),
    Slack(SlackNotifier),
}

impl Notifier for AnyNotifier {
    open spec fn target(&self) -> Seq<char> {
        match self {
            AnyNotifier::Email(n) => n.target(),
            AnyNotifier::Sms(n) => n.target(),
            AnyNotifier::Slack(n) => n.target(),
        }
    }

    open spec fn kind(&self) -> Seq<char> {
        match self {
            AnyNotifier::Email(n) => n.kind(),
            AnyNotifier::Sms(n) => n.kind(),
            AnyNotifier::Slack(n) => n.kind(),
        }
    }

    open spec fn notification_text(&self, message: Seq<char>) -> Seq<char> {
        match self {
            AnyNotifier::Email(n) => n.notification_text(message),
            AnyNotifier::Sms(n) => n.notification_text(message),
            AnyNotifier::Slack(n) => n.notification_text(message),
        }
    }

    fn notification(&self, message: &str) -> (r: String) {
        match self {
            AnyNotifier::Email(n) => n.notification(message),
            AnyNotifier::Sms(n) => n.notification(message),
            AnyNotifier::Slack(n) => n.notification(message),
        }
    }

    fn name(&self) -> (r: &str) {
        match self {
            AnyNotifier::Email(n) => n.name(),
            AnyNotifier::Sms(n) => n.name(),
            AnyNotifier::Slack(n) => n.name(),
        }
    }

    fn kind_name(&self) -> (r: &str) {
        match self {
            AnyNotifier::Email(n) => n.kind_name(),
            AnyNotifier::Sms(n) => n.kind_name(),
            AnyNotifier::Slack(n) => n.kind_name(),
        }
    }
}

/// `kind` is one of the kinds the factories know.
pub open spec fn known_kind(kind: Seq<char>) -> bool {
    kind == "email"@ || kind == "sms"@ || kind == "slack"@
}

/// The notifier of a known kind, with its preset address: `"email"` mails
/// `admin@example.com`, `"sms"` texts `+86-138-0000-0000`, `"slack"` posts to
/// `ops-alerts`.
pub fn create_notifier(kind: &str) -> (n: AnyNotifier)
    requires
        known_kind(kind@),
    ensures
        kind@ == "email"@ ==> (n matches AnyNotifier::Email(e) && e.address@
            == "admin@example.com"@),
        kind@ == "sms"@ ==> (n matches AnyNotifier::Sms(s) && s.phone@ == "+86-138-0000-0000"@),
        kind@ == "slack"@ ==> (n matches AnyNotifier::Slack(s) && s.channel@ == "ops-alerts"@
            && s.webhook@ == "https://hooks.slack.com/services/xxx"@),
{
    proof {
        reveal_strlit("email");
        reveal_strlit("sms");
        reveal_strlit("slack");
        assert("email"@.len() == 5 && "sms"@.len() == 3 && "slack"@.len() == 5);
        assert("email"@[1] != "slack"@[1]);
    }
    if str_eq(kind, "email") {
        AnyNotifier::Email(EmailNotifier::new("admin@example.com"))
    } else if str_eq(kind, "sms") {
        AnyNotifier::Sms(SmsNotifier::new("+86-138-0000-0000"))
    } else {
        AnyNotifier::Slack(SlackNotifier::new("ops-alerts", "https://hooks.slack.com/services/xxx"))
    }
}

/// `config` holds exactly one `','`, at `i`.
pub open spec fn single_comma_at(config: Seq<char>, i: int) -> bool {
    &&& 0 <= i < config.len()
    &&& config[i] == ','
    &&& forall|j: int| 0 <= j < config.len() && j != i ==> config[j] != ','
}

/// The message for a Slack configuration without exactly one `','`.
pub open spec fn slack_format_message() -> Seq<char> {
    "Slack 需要格式: 'channel,webhook'"@
}

/// The message for an unknown kind.
pub open spec fn unknown_kind_message(kind: Seq<char>) -> Seq<char> {
    "未知的通知器类型: '"@ + kind + "'"@
}

/// The notifier of kind `kind` configured by `config`: the address for
/// `"email"`, the phone number for `"sms"`, and `"channel,webhook"` for
/// `"slack"` (each part trimmed).  A Slack configuration without exactly one
/// `','`, and an unknown kind, are refused with a message.
pub fn create_notifier_with_config(kind: &str, config: &str) -> (r: Result<AnyNotifier, String>)
    ensures
        kind@ == "email"@ ==> (r matches Ok(AnyNotifier::Email(e)) && e.address@ == config@),
        kind@ == "sms"@ ==> (r matches Ok(AnyNotifier::Sms(s)) && s.phone@ == config@),
        kind@ == "slack"@ ==> (if exists|i: int| single_comma_at(config@, i) {
            let i = choose|i: int| single_comma_at(config@, i);
            r matches Ok(AnyNotifier::Slack(s)) && s.channel@ == trim(config@.take(i))
                && s.webhook@ == trim(config@.skip(i + 1))
        } else {
            r matches Err(m) && m@ == slack_format_message()
        }),
        !known_kind(kind@) ==> (r matches Err(m) && m@ == unknown_kind_message(kind@)),
{
    proof {
        reveal_strlit("email");
        reveal_strlit("sms");
        reveal_strlit("slack");
        assert("email"@.len() == 5 && "sms"@.len() == 3 && "slack"@.len() == 5);
        assert("email"@[1] != "slack"@[1]);
    }
    if str_eq(kind, "email") {
        Ok(AnyNotifier::Email(EmailNotifier::new(config)))
    } else if str_eq(kind, "sms") {
        Ok(AnyNotifier::Sms(SmsNotifier::new(config)))
    } else if str_eq(kind, "slack") {
        let cs = crate::text::chars_of(config);
        let mut comma: usize = 0;
        let mut count: usize = 0;
        let mut i: usize = 0;
        while i < cs.len()
            invariant
                i <= cs@.len(),
                cs@ == config@,
                count <= i,
                count == 0 ==> forall|j: int| 0 <= j < i ==> config@[j] != ',',
                count == 1 ==> single_comma_at(config@.take(i as int), comma as int),
                count >= 2 ==> !exists|k: int| single_comma_at(config@, k),
                count >= 1 ==> comma < i && config@[comma as int] == ',',
            decreases cs@.len() - i,
        {
            if cs[i] == ',' {
                if count == 0 {
                    comma = i;
                    count = 1;
                } else if count == 1 {
                    proof {
                        assert forall|k: int| !single_comma_at(config@, k) by {
                            if single_comma_at(config@, k) {
                                if k != comma {
                                    assert(config@[comma as int] != ',');
                                } else {
                                    assert(config@[i as int] != ',');
                                }
                            }
                        }
                    }
                    count = 2;
                }
            }
            i = i + 1;
            proof {
                if count == 1 {
                    assert forall|j: int| 0 <= j < i && j != comma implies config@.take(i as int)[j]
                        != ',' by {
                        if j < i - 1 {
                            assert(config@.take(i - 1)[j] == config@[j]);
                        }
                    }
                }
            }
        }
        if count != 1 {
            proof {
                if count == 0 {
                    assert forall|k: int| !single_comma_at(config@, k) by {
                        if single_comma_at(config@, k) {
                            assert(config@[k] != ',');
                        }
                    }
                }
            }
            return Err(String::from_str("Slack 需要格式: 'channel,webhook'"));
        }
        assert(config@.take(i as int) =~= config@);
        proof {
            let k = choose|k: int| single_comma_at(config@, k);
            if k != comma {
                assert(config@[k] != ',');
            }
        }
        let channel = trim_str(config.substring_char(0, comma));
        let webhook = trim_str(config.substring_char(comma + 1, cs.len()));
        assert(config@.subrange(0, comma as int) =~= config@.take(comma as int));
        assert(config@.subrange(comma + 1, cs@.len() as int) =~= config@.skip(comma + 1));
        Ok(AnyNotifier::Slack(SlackNotifier::new(channel, webhook)))
    } else {
        let mut m = String::from_str("未知的通知器类型: '");
        m.append(kind);
        m.append("'");
        Err(m)
    }
}

/// Keeps registered notifiers, in the order they were registered.  It holds
/// notifiers of the three kinds this library defines (`AnyNotifier`), not
/// trait objects of any type, so a caller's own `Notifier` type cannot be
/// registered.
pub struct NotificationManager {
    notifiers: Vec<AnyNotifier>,
}

impl NotificationManager {
    /// The registered notifiers, in order.
    pub closed spec fn registered(&self) -> Seq<AnyNotifier> {
        self.notifiers@
    }

    /// A manager with no notifiers.
    pub fn new() -> (m: NotificationManager)
        ensures
            m.registered().len() == 0,
    {
        NotificationManager { notifiers: Vec::new() }
    }

    /// Adds `notifier` after those registered so far.
    pub fn register(&mut self, notifier: AnyNotifier)
        ensures
            final(self).registered() == old(self).registered().push(notifier),
    {
        self.notifiers.push(notifier);
    }

    /// The registered notifiers, in order.
    pub fn notifiers(&self) -> (r: &Vec<AnyNotifier>)
        ensures
            r@ == self.registered(),
    {
        &self.notifiers
    }

    /// The number of registered notifiers.
    pub fn count(&self) -> (n: usize)
        ensures
            n == self.registered().len(),
    {
        self.notifiers.len()
    }
}

} // verus!
