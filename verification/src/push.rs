//! Push notifications under construction, in the types of the `a2` crate.
//!
//! A builder and a payload are containers: what they hold is spelled out as
//! plain values, and each operation says what it adds.

use a2::request::payload::Payload;
use a2::{DefaultNotificationBuilder, NotificationBuilder, NotificationOptions};
use serde_json::Value;
use vstd::prelude::*;

verus! {

/// `a2::DefaultNotificationBuilder`, a notification under construction.
#[verifier::external_type_specification]
#[verifier::external_body]
pub struct ExDefaultNotificationBuilder<'a>(DefaultNotificationBuilder<'a>);

/// `a2::request::payload::Payload`, a notification ready to be sent.
#[verifier::external_type_specification]
#[verifier::external_body]
pub struct ExPayload<'a>(Payload<'a>);

/// How a push is to be treated by the device.
#[derive(Debug, Clone, Copy, PartialEq, Eq, Structural)]
pub enum PushType {
    /// It is shown.
    Alert,
    /// It is handed to the app and not shown.
    Background,
}

/// How urgent a push is.
#[derive(Debug, Clone, Copy, PartialEq, Eq, Structural)]
pub enum Priority {
    /// It is sent at once.
    High,
    /// It may wait for a better moment.
    Normal,
}

/// What the device is told: the settings of a builder, and the `aps` part of a
/// payload. All else that these can hold is left at its default.
pub ghost struct Notification {
    pub content_available: bool,
    pub title: Option<Seq<char>>,
    pub body: Option<Seq<char>>,
    pub sound: Option<Seq<char>>,
}

/// What is sent to the push service.
#[verifier::ext_equal]
pub ghost struct PushRequest {
    pub token: Seq<char>,
    pub topic: Seq<char>,
    pub push_type: PushType,
    pub priority: Priority,
    pub notification: Notification,
    /// The custom keys beside `aps`.
    pub data: Map<Seq<char>, Value>,
}

/// What a builder holds.
pub uninterp spec fn builder_contents(b: DefaultNotificationBuilder<'_>) -> Notification;

/// What a payload holds.
pub uninterp spec fn payload_contents(p: Payload<'_>) -> PushRequest;

/// Calls `DefaultNotificationBuilder::new`: nothing is set.
#[verifier::external_body]
pub(crate) fn new_builder<'a>() -> (b: DefaultNotificationBuilder<'a>)
    ensures
        builder_contents(b) == (Notification {
            content_available: false,
            title: None,
            body: None,
            sound: None,
        }),
{
    DefaultNotificationBuilder::new()
}

/// Calls `DefaultNotificationBuilder::set_content_available`: sets that flag.
#[verifier::external_body]
pub(crate) fn with_content_available<'a>(b: DefaultNotificationBuilder<'a>) -> (r:
    DefaultNotificationBuilder<'a>)
    ensures
        builder_contents(r) == (Notification { content_available: true, ..builder_contents(b) }),
{
    b.set_content_available()
}

/// Calls `DefaultNotificationBuilder::set_title`: sets the title of the alert.
#[verifier::external_body]
pub(crate) fn with_title<'a>(b: DefaultNotificationBuilder<'a>, title: &'a str) -> (r:
    DefaultNotificationBuilder<'a>)
    ensures
        builder_contents(r) == (Notification { title: Some(title@), ..builder_contents(b) }),
{
    b.set_title(title)
}

/// Calls `DefaultNotificationBuilder::set_body`: sets the text of the alert.
#[verifier::external_body]
pub(crate) fn with_body<'a>(b: DefaultNotificationBuilder<'a>, body: &'a str) -> (r:
    DefaultNotificationBuilder<'a>)
    ensures
        builder_contents(r) == (Notification { body: Some(body@), ..builder_contents(b) }),
{
    b.set_body(body)
}

/// Calls `DefaultNotificationBuilder::set_sound`: sets the name of the sound.
#[verifier::external_body]
pub(crate) fn with_sound<'a>(b: DefaultNotificationBuilder<'a>, sound: &'a str) -> (r:
    DefaultNotificationBuilder<'a>)
    ensures
        builder_contents(r) == (Notification { sound: Some(sound@), ..builder_contents(b) }),
{
    b.set_sound(sound)
}

/// Calls `NotificationBuilder::build` with options that hold a topic, a push
/// type and a priority: the payload holds these, the device token and what the
/// builder held, and no custom data.
#[verifier::external_body]
pub(crate) fn build<'a>(
    b: DefaultNotificationBuilder<'a>,
    token: &'a str,
    topic: &'a str,
    push_type: PushType,
    priority: Priority,
) -> (p: Payload<'a>)
    ensures
        payload_contents(p) == (PushRequest {
            token: token@,
            topic: topic@,
            push_type,
            priority,
            notification: builder_contents(b),
            data: Map::empty(),
        }),
{
    let options = NotificationOptions {
        apns_topic: Some(topic),
        apns_push_type: Some(match push_type {
            PushType::Alert => a2::PushType::Alert,
            PushType::Background => a2::PushType::Background,
        }),
        apns_priority: Some(match priority {
            Priority::High => a2::Priority::High,
            Priority::Normal => a2::Priority::Normal,
        }),
        ..Default::default()
    };
    b.build(token, options)
}

/// Calls `Payload::add_custom_data`: `key` now leads to `value`, the rest stays.
/// The call fails only where the data cannot be turned into a JSON value; data
/// that is one already always can, and stays what it is.
#[verifier::external_body]
pub(crate) fn add_custom_data<'a>(p: &mut Payload<'a>, key: &'a str, value: &Value) -> (r: Result<
    (),
    String,
>)
    ensures
        r is Ok,
        payload_contents(*final(p)) == (PushRequest {
            data: payload_contents(*old(p)).data.insert(key@, *value),
            ..payload_contents(*old(p))
        }),
{
    p.add_custom_data(key, value).map(|_| ()).map_err(|e| e.to_string())
}

} // verus!
