//! What push notifications promise.

use serde_json::Value;
use vstd::prelude::*;

use crate::apns::{ApnsEnv, ApnsMessage};
use crate::json::json_string;
use crate::push::{Priority, PushType};

verus! {

/// Every push, shown or silent, asks for background delivery.
pub proof fn law_every_push_wakes_the_app(msg: ApnsMessage, token: Seq<char>, topic: Seq<char>)
    ensures
        msg.request(token, topic).notification.content_available,
{
}

/// A push is shown exactly when `title`, `text` or `alert` is set; it then has a
/// title and a sound and high priority. Otherwise it is silent, of normal
/// priority, and tells the device nothing but its custom keys.
pub proof fn law_shown_iff_anything_to_show(msg: ApnsMessage, token: Seq<char>, topic: Seq<char>)
    ensures
        ({
            let push = msg.request(token, topic);
            if msg.title@.len() > 0 || msg.text@.len() > 0 || msg.alert@.len() > 0 {
                &&& push.push_type == PushType::Alert
                &&& push.priority == Priority::High
                &&& push.notification.title is Some
                &&& push.notification.sound == Some("default"@)
            } else {
                &&& push.push_type == PushType::Background
                &&& push.priority == Priority::Normal
                &&& push.notification.title is None
                &&& push.notification.body is None
                &&& push.notification.sound is None
            }
        }),
{
}

/// `alert` is accepted for the text of an alert, whose title is then
/// `SidePulse` unless another is given.
pub proof fn law_alert_stands_for_text(msg: ApnsMessage)
    requires
        msg.text@.len() == 0,
        msg.alert@.len() > 0,
    ensures
        msg.notification().body == Some(msg.alert@),
        msg.notification().title == Some(
            if msg.title@.len() > 0 {
                msg.title@
            } else {
                "SidePulse"@
            },
        ),
{
}

/// A plain text is a silent push that carries the text as `leds` and no other
/// key.
pub proof fn law_plain_text_is_silent(
    msg: ApnsMessage,
    body: Seq<char>,
    token: Seq<char>,
    topic: Seq<char>,
)
    requires
        msg.is_plain(body),
        body.len() > 0,
    ensures
        msg.request(token, topic).push_type == PushType::Background,
        msg.request(token, topic).data == Map::<Seq<char>, Value>::empty().insert(
            "leds"@,
            json_string(body),
        ),
{
}

/// A body that is no JSON stands for the object with that text under `leds` and
/// nothing else: messages that hold the same text there and nothing else become
/// the same push.
pub proof fn law_plain_text_stands_for_leds(
    plain: ApnsMessage,
    object: ApnsMessage,
    body: Seq<char>,
    token: Seq<char>,
    topic: Seq<char>,
)
    requires
        plain.is_plain(body),
        object.is_plain(body),
    ensures
        plain.request(token, topic) == object.request(token, topic),
{
}

/// The custom keys do not get in each other's way: each is there exactly when
/// it is set, with what it is set to.
pub proof fn law_custom_keys(msg: ApnsMessage)
    ensures
        msg.custom_data().get("leds"@) == (if msg.spec_led_text().len() > 0 {
            Some(json_string(msg.spec_led_text()))
        } else {
            None
        }),
        msg.custom_data().get("pattern"@) == (if msg.pattern@.len() > 0 {
            Some(json_string(msg.pattern@))
        } else {
            None
        }),
        msg.custom_data().get("data"@) == msg.data,
{
    reveal_strlit("leds");
    reveal_strlit("pattern");
    reveal_strlit("data");
    assert("leds"@.len() == 4 && "pattern"@.len() == 7 && "data"@.len() == 4);
    assert("leds"@[0] == 'l' && "data"@[0] == 'd');
}

/// A push shows what was written: its title is the title given, and `SidePulse`
/// only where none is given and there is something to show; its body is the text
/// given, and the alert only where no text is; it has neither where there is
/// nothing to show.
pub proof fn law_push_shows_what_was_written(
    msg: ApnsMessage,
    token: Seq<char>,
    topic: Seq<char>,
)
    ensures
        msg.title@.len() > 0 ==> msg.request(token, topic).notification.title == Some(msg.title@),
        msg.title@.len() == 0 && (msg.text@.len() > 0 || msg.alert@.len() > 0) ==> msg.request(
            token,
            topic,
        ).notification.title == Some("SidePulse"@),
        msg.title@.len() == 0 && msg.text@.len() == 0 && msg.alert@.len() == 0 ==> msg.request(
            token,
            topic,
        ).notification.title is None,
        msg.text@.len() > 0 ==> msg.request(token, topic).notification.body == Some(msg.text@),
        msg.text@.len() == 0 && msg.alert@.len() > 0 ==> msg.request(
            token,
            topic,
        ).notification.body == Some(msg.alert@),
        msg.text@.len() == 0 && msg.alert@.len() == 0 ==> msg.request(
            token,
            topic,
        ).notification.body is None,
{
}

/// A push goes to the device and under the topic that were given.
pub proof fn law_push_is_addressed(msg: ApnsMessage, token: Seq<char>, topic: Seq<char>)
    ensures
        msg.request(token, topic).token == token,
        msg.request(token, topic).topic == topic,
{
}

/// The LED text is what stands under `leds`, or else under `LEDS.txt`, or else
/// under `LEDS.TXT`; the pattern and the data go along as they are given; a key
/// that is not given is not there, and there is no other key.
pub proof fn law_keys_carry_what_was_written(
    msg: ApnsMessage,
    token: Seq<char>,
    topic: Seq<char>,
    key: Seq<char>,
)
    ensures
        ({
            let data = msg.request(token, topic).data;
            &&& msg.leds@.len() > 0 ==> data.get("leds"@) == Some(json_string(msg.leds@))
            &&& msg.leds@.len() == 0 && msg.leds_txt@.len() > 0 ==> data.get("leds"@) == Some(
                json_string(msg.leds_txt@),
            )
            &&& msg.leds@.len() == 0 && msg.leds_txt@.len() == 0 && msg.leds_txt_upper@.len() > 0
                ==> data.get("leds"@) == Some(json_string(msg.leds_txt_upper@))
            &&& msg.leds@.len() == 0 && msg.leds_txt@.len() == 0 && msg.leds_txt_upper@.len() == 0
                ==> data.get("leds"@) is None
            &&& msg.pattern@.len() > 0 ==> data.get("pattern"@) == Some(json_string(msg.pattern@))
            &&& msg.pattern@.len() == 0 ==> data.get("pattern"@) is None
            &&& data.get("data"@) == msg.data
            &&& data.contains_key(key) ==> key == "leds"@ || key == "pattern"@ || key == "data"@
        }),
{
    law_custom_keys(msg);
}

/// The LED text that a message is found to have is the first that is set of its
/// three, and none where none is.
pub proof fn law_led_text_is_the_first_set(msg: ApnsMessage)
    ensures
        msg.leds@.len() > 0 ==> msg.spec_led_text() == msg.leds@,
        msg.leds@.len() == 0 && msg.leds_txt@.len() > 0 ==> msg.spec_led_text() == msg.leds_txt@,
        msg.leds@.len() == 0 && msg.leds_txt@.len() == 0 ==> msg.spec_led_text()
            == msg.leds_txt_upper@,
{
}

/// A body that is no JSON is a message with that LED text, whole, and nothing
/// else in any field.
pub proof fn law_plain_message_is_its_text(msg: ApnsMessage, body: Seq<char>)
    ensures
        msg.is_plain(body) <==> {
            &&& msg.leds@ == body
            &&& msg.leds_txt@ == Seq::<char>::empty()
            &&& msg.leds_txt_upper@ == Seq::<char>::empty()
            &&& msg.title@ == Seq::<char>::empty()
            &&& msg.text@ == Seq::<char>::empty()
            &&& msg.alert@ == Seq::<char>::empty()
            &&& msg.pattern@ == Seq::<char>::empty()
            &&& msg.data is None
        },
{
    if msg.is_plain(body) {
        assert(msg.leds_txt@ =~= Seq::<char>::empty());
        assert(msg.leds_txt_upper@ =~= Seq::<char>::empty());
        assert(msg.title@ =~= Seq::<char>::empty());
        assert(msg.text@ =~= Seq::<char>::empty());
        assert(msg.alert@ =~= Seq::<char>::empty());
        assert(msg.pattern@ =~= Seq::<char>::empty());
    }
}

/// Pushes are set up by either name of a variable, the first before the second,
/// and go to the sandbox exactly when it is asked for.
pub proof fn law_variables_by_either_name(vars: ApnsEnv)
    ensures
        vars.key_path is Some ==> vars.any_key() == vars.key_path,
        vars.key_path is None ==> vars.any_key() == vars.auth_key,
        vars.topic is Some ==> vars.any_topic() == vars.topic,
        vars.topic is None ==> vars.any_topic() == vars.bundle_id,
        vars.wants_sandbox() <==> (vars.sandbox matches Some(v) && v@ == "1"@) || (
        vars.sandbox matches Some(v) && v@ == "true"@) || (vars.env matches Some(v) && v@
            == "sandbox"@),
{
}

} // verus!
