//! Push messages: what a post to a device says, and the notification it becomes.

use a2::request::payload::Payload;
use serde_json::Value;
use vstd::prelude::*;

use crate::json::{json_string, string_value};
use crate::push::{
    add_custom_data, build, new_builder, payload_contents, with_body, with_content_available,
    with_sound, with_title, Notification, Priority, PushRequest, PushType,
};
use crate::text::{decimal, decimal_text, same_text};

verus! {

broadcast use vstd::string::group_string_axioms;

/// Message posted to an `apns_<token>` channel. Either raw TXT (treated as
/// LED text, delivered as a silent background push), or JSON:
/// `{"leds": "...", "title": "...", "text": "...", "alert": "...",
///   "pattern": "...", "data": {...}}`
///
/// The push is a visible alert only when `title`, `text`, or `alert` is set;
/// otherwise it is a background push (`content-available: 1`) carrying the
/// custom keys.
pub struct ApnsMessage {
    pub leds: String,
    /// Under the JSON key `LEDS.txt`.
    pub leds_txt: String,
    /// Under the JSON key `LEDS.TXT`.
    pub leds_txt_upper: String,
    pub title: String,
    pub text: String,
    pub alert: String,
    pub pattern: String,
    pub data: Option<Value>,
}

impl Default for ApnsMessage {
    fn default() -> (msg: ApnsMessage)
        ensures
            msg.is_plain(Seq::empty()),
    {
        ApnsMessage {
            leds: String::new(),
            leds_txt: String::new(),
            leds_txt_upper: String::new(),
            title: String::new(),
            text: String::new(),
            alert: String::new(),
            pattern: String::new(),
            data: None,
        }
    }
}

impl ApnsMessage {
    /// Does the message hold an LED text and nothing else?
    pub open spec fn is_plain(self, leds: Seq<char>) -> bool {
        &&& self.leds@ == leds
        &&& self.leds_txt@.len() == 0
        &&& self.leds_txt_upper@.len() == 0
        &&& self.title@.len() == 0
        &&& self.text@.len() == 0
        &&& self.alert@.len() == 0
        &&& self.pattern@.len() == 0
        &&& self.data is None
    }

    /// The LED text: the first of its three keys that is set.
    pub open spec fn spec_led_text(self) -> Seq<char> {
        if self.leds@.len() > 0 {
            self.leds@
        } else if self.leds_txt@.len() > 0 {
            self.leds_txt@
        } else {
            self.leds_txt_upper@
        }
    }

    /// The text of the alert; `text` goes before `alert`.
    pub open spec fn alert_body(self) -> Seq<char> {
        if self.text@.len() > 0 {
            self.text@
        } else {
            self.alert@
        }
    }

    /// Is the push to be shown?
    pub open spec fn is_alert(self) -> bool {
        self.alert_body().len() > 0 || self.title@.len() > 0
    }

    /// What the device is told. Every push asks for background delivery; an
    /// alert has a title, `SidePulse` if no other is given, and a sound.
    pub open spec fn notification(self) -> Notification {
        Notification {
            content_available: true,
            title: if !self.is_alert() {
                None
            } else if self.title@.len() > 0 {
                Some(self.title@)
            } else {
                Some("SidePulse"@)
            },
            body: if self.alert_body().len() > 0 {
                Some(self.alert_body())
            } else {
                None
            },
            sound: if self.is_alert() {
                Some("default"@)
            } else {
                None
            },
        }
    }

    /// The custom keys that go with a push: those that are set.
    pub open spec fn custom_data(self) -> Map<Seq<char>, Value> {
        let none = Map::<Seq<char>, Value>::empty();
        let leds = if self.spec_led_text().len() > 0 {
            none.insert("leds"@, json_string(self.spec_led_text()))
        } else {
            none
        };
        let pattern = if self.pattern@.len() > 0 {
            leds.insert("pattern"@, json_string(self.pattern@))
        } else {
            leds
        };
        match self.data {
            Some(data) => pattern.insert("data"@, data),
            None => pattern,
        }
    }

    /// The push that the message becomes.
    pub open spec fn request(self, token: Seq<char>, topic: Seq<char>) -> PushRequest {
        PushRequest {
            token,
            topic,
            push_type: if self.is_alert() {
                PushType::Alert
            } else {
                PushType::Background
            },
            priority: if self.is_alert() {
                Priority::High
            } else {
                Priority::Normal
            },
            notification: self.notification(),
            data: self.custom_data(),
        }
    }

    /// The message that a body says, given what it is when read as JSON with
    /// these keys: a body that cannot be read so is an LED text.
    pub fn parse(body: &str, decoded: Option<ApnsMessage>) -> (msg: ApnsMessage)
        ensures
            match decoded {
                Some(m) => msg == m,
                None => msg.is_plain(body@),
            },
    {
        match decoded {
            Some(msg) => msg,
            None => ApnsMessage {
                leds: body.to_string(),
                leds_txt: String::new(),
                leds_txt_upper: String::new(),
                title: String::new(),
                text: String::new(),
                alert: String::new(),
                pattern: String::new(),
                data: None,
            },
        }
    }

    /// The LED text: the first of its three keys that is set.
    pub fn led_text(&self) -> (text: &str)
        ensures
            text@ == self.spec_led_text(),
    {
        if !self.leds.as_str().is_empty() {
            self.leds.as_str()
        } else if !self.leds_txt.as_str().is_empty() {
            self.leds_txt.as_str()
        } else {
            self.leds_txt_upper.as_str()
        }
    }
}

/// The push that a message becomes.
pub fn build_payload<'a>(token: &'a str, msg: &'a ApnsMessage, topic: &'a str) -> (r: Result<
    Payload<'a>,
    String,
>)
    ensures
        r matches Ok(payload) && payload_contents(payload) == msg.request(token@, topic@),
{
    let alert_body: &'a str = if !msg.text.as_str().is_empty() {
        msg.text.as_str()
    } else {
        msg.alert.as_str()
    };
    let is_alert: bool = !alert_body.is_empty() || !msg.title.as_str().is_empty();

    // Include the background-update flag on every notification. Alert pushes
    // still use the alert push type and high priority, but iOS can also wake
    // the app to process the custom LED data.
    let mut builder = with_content_available(new_builder());
    if is_alert {
        let title: &'a str = if msg.title.as_str().is_empty() {
            "SidePulse"
        } else {
            msg.title.as_str()
        };
        builder = with_sound(with_title(builder, title), "default");
        if !alert_body.is_empty() {
            builder = with_body(builder, alert_body);
        }
    }
    let push_type: PushType = if is_alert { PushType::Alert } else { PushType::Background };
    let priority: Priority = if is_alert { Priority::High } else { Priority::Normal };
    let mut payload = build(builder, token, topic, push_type, priority);

    let led_text: &str = msg.led_text();
    if !led_text.is_empty() {
        let value: Value = string_value(led_text.to_string());
        if let Err(e) = add_custom_data(&mut payload, "leds", &value) {
            return Err(e);
        }
    }
    if !msg.pattern.as_str().is_empty() {
        let value: Value = string_value(msg.pattern.clone());
        if let Err(e) = add_custom_data(&mut payload, "pattern", &value) {
            return Err(e);
        }
    }
    if let Some(data) = &msg.data {
        if let Err(e) = add_custom_data(&mut payload, "data", data) {
            return Err(e);
        }
    }
    Ok(payload)
}

/// The environment variables that set up push notifications; `None` where one
/// is not set.
pub struct ApnsEnv {
    /// `APNS_KEY_PATH`.
    pub key_path: Option<String>,
    /// `APNS_AUTH_KEY`, another name for `APNS_KEY_PATH`.
    pub auth_key: Option<String>,
    /// `APNS_KEY_ID`.
    pub key_id: Option<String>,
    /// `APNS_TEAM_ID`.
    pub team_id: Option<String>,
    /// `APNS_TOPIC`.
    pub topic: Option<String>,
    /// `APNS_BUNDLE_ID`, another name for `APNS_TOPIC`.
    pub bundle_id: Option<String>,
    /// `APNS_SANDBOX`.
    pub sandbox: Option<String>,
    /// `APNS_ENV`.
    pub env: Option<String>,
}

/// How push notifications are sent.
pub struct Apns {
    /// The file that holds the signing key.
    pub key_path: String,
    pub key_id: String,
    pub team_id: String,
    pub topic: String,
    /// Are they sent to the sandbox instead of the production service?
    pub sandbox: bool,
}

/// A variable under the first of two names that is set.
pub fn env_any(first: Option<String>, second: Option<String>) -> (var: Option<String>)
    ensures
        var == (if first is Some { first } else { second }),
{
    match first {
        Some(value) => Some(value),
        None => second,
    }
}

/// Is a variable set to a text?
fn is_set_to(var: &Option<String>, text: &str) -> (yes: bool)
    ensures
        yes == (var matches Some(value) && value@ == text@),
{
    match var {
        Some(value) => same_text(value.as_str(), text),
        None => false,
    }
}

impl ApnsEnv {
    /// The key file, under either of its names.
    pub open spec fn any_key(self) -> Option<String> {
        if self.key_path is Some { self.key_path } else { self.auth_key }
    }

    /// The topic, under either of its names.
    pub open spec fn any_topic(self) -> Option<String> {
        if self.topic is Some { self.topic } else { self.bundle_id }
    }

    /// Is the sandbox asked for?
    pub open spec fn wants_sandbox(self) -> bool {
        ||| self.sandbox matches Some(value) && (value@ == "1"@ || value@ == "true"@)
        ||| self.env matches Some(value) && value@ == "sandbox"@
    }
}

impl Apns {
    /// Returns `Ok(None)` when the variables are absent (feature disabled), and
    /// `Err` when a key is named but one of the others is missing.
    pub fn from_env(vars: ApnsEnv) -> (r: Result<Option<Apns>, String>)
        ensures
            match r {
                Ok(None) => vars.any_key() is None,
                Ok(Some(apns)) => {
                    &&& vars.any_key() == Some(apns.key_path)
                    &&& vars.key_id == Some(apns.key_id)
                    &&& vars.team_id == Some(apns.team_id)
                    &&& vars.any_topic() == Some(apns.topic)
                    &&& apns.sandbox == vars.wants_sandbox()
                },
                Err(e) => {
                    &&& vars.any_key() is Some
                    &&& if vars.key_id is None {
                        e@ == "APNS_KEY_ID not set"@
                    } else if vars.team_id is None {
                        e@ == "APNS_TEAM_ID not set"@
                    } else {
                        vars.any_topic() is None && e@ == "APNS_TOPIC not set"@
                    }
                },
            },
    {
        let sandbox: bool = is_set_to(&vars.sandbox, "1") || is_set_to(&vars.sandbox, "true")
            || is_set_to(&vars.env, "sandbox");
        let key_path: String = match env_any(vars.key_path, vars.auth_key) {
            Some(path) => path,
            None => return Ok(None),
        };
        let key_id: String = match vars.key_id {
            Some(id) => id,
            None => return Err("APNS_KEY_ID not set".to_string()),
        };
        let team_id: String = match vars.team_id {
            Some(id) => id,
            None => return Err("APNS_TEAM_ID not set".to_string()),
        };
        let topic: String = match env_any(vars.topic, vars.bundle_id) {
            Some(topic) => topic,
            None => return Err("APNS_TOPIC not set".to_string()),
        };
        Ok(Some(Apns { key_path, key_id, team_id, topic, sandbox }))
    }

    /// The push that a message to a device becomes.
    pub fn payload<'a>(&'a self, token: &'a str, msg: &'a ApnsMessage) -> (r: Result<
        Payload<'a>,
        String,
    >)
        ensures
            r matches Ok(payload) && payload_contents(payload) == msg.request(
                token@,
                self.topic@,
            ),
    {
        build_payload(token, msg, self.topic.as_str())
    }
}

/// What the push service answered.
pub struct ApnsResponse {
    /// The HTTP status.
    pub code: u16,
    /// The reason it gives, as text.
    pub reason: String,
}

/// What came of sending a push, given the answer to it or why there is none.
pub fn send_result(answer: Result<ApnsResponse, String>) -> (r: Result<(), String>)
    ensures
        match answer {
            Ok(response) => if response.code == 200 {
                r is Ok
            } else {
                r matches Err(e) && e@ == "apns status "@ + decimal_text(response.code as nat)
                    + ": "@ + response.reason@
            },
            Err(why) => r == Err::<(), String>(why),
        },
{
    match answer {
        Ok(response) => if response.code == 200 {
            Ok(())
        } else {
            let mut text: String = "apns status ".to_string();
            text.append(decimal(response.code).as_str());
            text.append(": ");
            text.append(response.reason.as_str());
            Err(text)
        },
        Err(why) => Err(why),
    }
}

} // verus!
