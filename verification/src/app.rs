//! The decisions of the sensor and MQTT loops. The loops themselves, which
//! read the serial port, hand messages between threads, talk to the broker
//! and sleep, run outside the library and feed each outcome to these steps.

use vstd::prelude::*;
use crate::config::SensorConfig;
use crate::mqtt::{
    discovery_publish_spec, discovery_publishes, published_quantities, publishes_view,
    reading_publishes, reading_publishes_spec, topic_segment, Publish, PublishModel, Sensor,
};
use crate::parser::{
    accepts_literals, first_meter_id, lemma_values_keep_meter_id, parse_telegram,
    parse_telegram_spec, telegram_with_values, ParseError, Telegram, TelegramModel,
};

verus! {

/// Seconds to wait before connecting to the broker again after a failed
/// attempt.
pub const MQTT_RECONNECT_DELAY_SECS: u64 = 5;

/// The device id under which a meter is announced: the meter id of its first
/// telegram, or the telegram's device id when it reports none.
pub open spec fn discovery_device_id(t: TelegramModel) -> Seq<char> {
    match first_meter_id(t.readings) {
        Some(id) => id,
        None => t.device_id,
    }
}

/// The sensor that the first telegram of a meter announces.
pub fn discovery_sensor(config: &SensorConfig, base_topic: &str, discovery_telegram: &Telegram) -> (s:
    Sensor)
    ensures
        s.name_view() == config.name@,
        s.base_topic_view() == base_topic@,
        s.device_id_view() == discovery_device_id(discovery_telegram@),
        s.name_segment() == topic_segment(config.name@),
        s.device_segment() == topic_segment(discovery_device_id(discovery_telegram@)),
        s.wf(),
{
    let device_id = match discovery_telegram.meter_id() {
        Some(id) => id,
        None => discovery_telegram.device_id.as_str(),
    };
    Sensor::new(config.name.as_str(), base_topic, device_id)
}

/// The retained discovery messages of the sensor.
pub fn discovery_messages(sensor: &Sensor, node_id: &str) -> (ps: Vec<Publish>)
    ensures
        ps@.len() == 3,
        forall|i: int|
            0 <= i < 3 ==> (#[trigger] ps@[i])@ == discovery_publish_spec(
                *sensor,
                node_id@,
                published_quantities()[i],
            ),
{
    discovery_publishes(sensor, node_id)
}

/// The state messages of a telegram.
pub fn reading_messages(sensor: &Sensor, telegram: &Telegram) -> (ps: Vec<Publish>)
    ensures
        publishes_view(ps@) == reading_publishes_spec(*sensor, telegram@.readings),
{
    reading_publishes(sensor, telegram)
}

/// Parses a raw telegram (with `value_text` giving the text of each decimal
/// value, see `parse_telegram`) and derives its state messages.
pub fn process_sensor_telegram<F: Fn(&str) -> String>(
    sensor: &Sensor,
    raw: &[u8],
    value_text: &F,
) -> (r: Result<(Telegram, Vec<Publish>), ParseError>)
    requires
        accepts_literals(*value_text),
    ensures
        match parse_telegram_spec(raw@) {
            Ok(m) => r matches Ok((t, ps)) && telegram_with_values(*value_text, m, t@)
                && publishes_view(ps@) == reading_publishes_spec(*sensor, t@.readings),
            Err(e) => r matches Err(err) && err@ == e,
        },
{
    let telegram = parse_telegram(raw, value_text)?;
    let messages = reading_messages(sensor, &telegram);
    Ok((telegram, messages))
}

/// Where a sensor stands: waiting for the telegram that announces it, or
/// announced and reporting readings.
pub enum SensorState {
    AwaitingDiscovery,
    Reporting(Sensor),
}

/// What the sensor loop does after a telegram has been read.
pub enum SensorAction {
    /// Hand over the retained discovery messages; stop when they cannot be
    /// handed over.
    PublishDiscovery(Vec<Publish>),
    /// Log the telegram, hand over its state messages (stop when they cannot
    /// be handed over), then sleep for the publish interval.
    PublishReadings { telegram: Telegram, messages: Vec<Publish> },
    /// Log the parse error and read the next telegram.
    SkipTelegram(ParseError),
    /// Log the parse error and stop.
    Stop(ParseError),
}

/// The sensor that announcing a meter with the first telegram `t` creates.
pub open spec fn announced_sensor(s: Sensor, config: SensorConfig, base_topic: Seq<char>, t: TelegramModel) -> bool {
    &&& s.name_view() == config.name@
    &&& s.base_topic_view() == base_topic
    &&& s.device_id_view() == discovery_device_id(t)
    &&& s.name_segment() == topic_segment(config.name@)
    &&& s.device_segment() == topic_segment(discovery_device_id(t))
    &&& s.wf()
}

/// The discovery messages of a sensor, as values.
pub open spec fn discovery_publishes_view(s: Sensor, node_id: Seq<char>) -> Seq<PublishModel> {
    Seq::new(3, |i: int| discovery_publish_spec(s, node_id, published_quantities()[i]))
}

/// What the sensor loop does with the raw telegram `raw` in `state`, where
/// `value_text` gives the text of each decimal value: the first telegram that
/// parses announces the sensor (a first telegram that does not parse stops
/// the sensor); after that, each telegram that parses is reported and one
/// that does not is skipped.
pub open spec fn sensor_step_spec<F: Fn(&str) -> String>(
    config: SensorConfig,
    base_topic: Seq<char>,
    node_id: Seq<char>,
    value_text: F,
    state: SensorState,
    raw: Seq<u8>,
    next: SensorState,
    action: SensorAction,
) -> bool {
    match state {
        SensorState::AwaitingDiscovery => match parse_telegram_spec(raw) {
            Err(e) => next is AwaitingDiscovery && (action matches SensorAction::Stop(err) && err@
                == e),
            Ok(t) => match (next, action) {
                (SensorState::Reporting(s), SensorAction::PublishDiscovery(ps)) => {
                    &&& announced_sensor(s, config, base_topic, t)
                    &&& publishes_view(ps@) == discovery_publishes_view(s, node_id)
                },
                _ => false,
            },
        },
        SensorState::Reporting(s) => {
            &&& next == SensorState::Reporting(s)
            &&& match parse_telegram_spec(raw) {
                Err(e) => action matches SensorAction::SkipTelegram(err) && err@ == e,
                Ok(t) => match action {
                    SensorAction::PublishReadings { telegram, messages } => telegram_with_values(
                        value_text,
                        t,
                        telegram@,
                    ) && publishes_view(messages@) == reading_publishes_spec(
                        s,
                        telegram@.readings,
                    ),
                    _ => false,
                },
            }
        },
    }
}

/// The step of the sensor loop for one raw telegram (see `sensor_step_spec`).
pub fn sensor_step<F: Fn(&str) -> String>(
    config: &SensorConfig,
    base_topic: &str,
    node_id: &str,
    state: SensorState,
    raw: &[u8],
    value_text: &F,
) -> (r: (SensorState, SensorAction))
    requires
        accepts_literals(*value_text),
    ensures
        sensor_step_spec(*config, base_topic@, node_id@, *value_text, state, raw@, r.0, r.1),
{
    match state {
        SensorState::AwaitingDiscovery => match parse_telegram(raw, value_text) {
            Err(e) => (SensorState::AwaitingDiscovery, SensorAction::Stop(e)),
            Ok(telegram) => {
                proof {
                    lemma_values_keep_meter_id(
                        *value_text,
                        parse_telegram_spec(raw@)->Ok_0.readings,
                        telegram@.readings,
                    );
                }
                let sensor = discovery_sensor(config, base_topic, &telegram);
                let messages = discovery_messages(&sensor, node_id);
                assert(publishes_view(messages@) =~= discovery_publishes_view(sensor, node_id@));
                (SensorState::Reporting(sensor), SensorAction::PublishDiscovery(messages))
            },
        },
        SensorState::Reporting(sensor) => match process_sensor_telegram(&sensor, raw, value_text) {
            Err(e) => (SensorState::Reporting(sensor), SensorAction::SkipTelegram(e)),
            Ok((telegram, messages)) => (
                SensorState::Reporting(sensor),
                SensorAction::PublishReadings { telegram, messages },
            ),
        },
    }
}

/// A run of the sensor loop over the telegrams `raws`: it starts awaiting
/// discovery, each step goes from `states[i]` to `states[i + 1]` with
/// `actions[i]` as `sensor_step_spec` says for `raws[i]`, and only the last
/// step may stop the loop.
pub open spec fn is_sensor_run<F: Fn(&str) -> String>(
    config: SensorConfig,
    base_topic: Seq<char>,
    node_id: Seq<char>,
    value_text: F,
    raws: Seq<Seq<u8>>,
    states: Seq<SensorState>,
    actions: Seq<SensorAction>,
) -> bool {
    &&& states.len() == raws.len() + 1
    &&& actions.len() == raws.len()
    &&& states[0] is AwaitingDiscovery
    &&& forall|i: int|
        0 <= i < raws.len() ==> #[trigger] sensor_step_spec(
            config,
            base_topic,
            node_id,
            value_text,
            states[i],
            raws[i],
            states[i + 1],
            actions[i],
        )
    &&& forall|i: int| 0 <= i < raws.len() - 1 ==> !(#[trigger] actions[i] is Stop)
}

/// The messages that a sequence of sensor actions hands over, in order.
pub open spec fn handed_over(actions: Seq<SensorAction>) -> Seq<PublishModel>
    decreases actions.len(),
{
    if actions.len() == 0 {
        Seq::empty()
    } else {
        handed_over(actions.drop_last()) + match actions.last() {
            SensorAction::PublishDiscovery(ps) => publishes_view(ps@),
            SensorAction::PublishReadings { messages, .. } => publishes_view(messages@),
            _ => Seq::empty(),
        }
    }
}

/// How often a sequence of sensor actions sleeps for the publish interval:
/// once after each telegram that is reported.
pub open spec fn interval_sleeps(actions: Seq<SensorAction>) -> nat
    decreases actions.len(),
{
    if actions.len() == 0 {
        0
    } else {
        interval_sleeps(actions.drop_last()) + if actions.last() is PublishReadings {
            1nat
        } else {
            0nat
        }
    }
}

/// The state messages of the telegrams that a sequence of actions reports,
/// in order.
pub open spec fn reported_readings(s: Sensor, actions: Seq<SensorAction>) -> Seq<PublishModel>
    decreases actions.len(),
{
    if actions.len() == 0 {
        Seq::empty()
    } else {
        reported_readings(s, actions.drop_last()) + match actions.last() {
            SensorAction::PublishReadings { telegram, .. } => reading_publishes_spec(
                s,
                telegram@.readings,
            ),
            _ => Seq::empty(),
        }
    }
}

/// How many of the telegrams `raws` parse.
pub open spec fn parsed_count(raws: Seq<Seq<u8>>) -> nat
    decreases raws.len(),
{
    if raws.len() == 0 {
        0
    } else {
        parsed_count(raws.drop_last()) + if parse_telegram_spec(raws.last()) is Ok {
            1nat
        } else {
            0nat
        }
    }
}

/// What the sensor loop does with a later telegram: report it, with its
/// literals replaced by their value texts, when it parses, else skip it.
pub open spec fn reports_or_skips<F: Fn(&str) -> String>(
    value_text: F,
    raw: Seq<u8>,
    action: SensorAction,
) -> bool {
    match parse_telegram_spec(raw) {
        Ok(m) => action matches SensorAction::PublishReadings { telegram, .. }
            && telegram_with_values(value_text, m, telegram@),
        Err(e) => action matches SensorAction::SkipTelegram(err) && err@ == e,
    }
}

proof fn lemma_sensor_run_prefix<F: Fn(&str) -> String>(
    config: SensorConfig,
    base_topic: Seq<char>,
    node_id: Seq<char>,
    value_text: F,
    raws: Seq<Seq<u8>>,
    states: Seq<SensorState>,
    actions: Seq<SensorAction>,
    n: int,
)
    requires
        is_sensor_run(config, base_topic, node_id, value_text, raws, states, actions),
        1 <= n <= raws.len(),
        parse_telegram_spec(raws[0]) is Ok,
    ensures
        match states[1] {
            SensorState::Reporting(s) => {
                &&& states[n] == SensorState::Reporting(s)
                &&& handed_over(actions.take(n)) == discovery_publishes_view(s, node_id)
                    + reported_readings(s, actions.take(n).skip(1))
                &&& interval_sleeps(actions.take(n)) == parsed_count(raws.take(n).skip(1))
                &&& n > 1 ==> reports_or_skips(value_text, raws[n - 1], actions[n - 1])
            },
            _ => false,
        },
    decreases n,
{
    assert(sensor_step_spec(
        config,
        base_topic,
        node_id,
        value_text,
        states[0],
        raws[0],
        states[1],
        actions[0],
    ));
    if n == 1 {
        assert(actions.take(1).drop_last() =~= Seq::<SensorAction>::empty());
        assert(actions.take(1).skip(1) =~= Seq::<SensorAction>::empty());
        assert(raws.take(1).skip(1) =~= Seq::<Seq<u8>>::empty());
        assert(actions.take(1).last() == actions[0]);
        assert(interval_sleeps(actions.take(1)) == interval_sleeps(actions.take(1).drop_last()));
        assert(parsed_count(raws.take(1).skip(1)) == 0);
        assert(handed_over(actions.take(1).drop_last()) =~= Seq::<PublishModel>::empty());
        match (states[1], actions[0]) {
            (SensorState::Reporting(s), SensorAction::PublishDiscovery(ps)) => {
                assert(reported_readings(s, actions.take(1).skip(1))
                    =~= Seq::<PublishModel>::empty());
                assert(handed_over(actions.take(1)) =~= Seq::<PublishModel>::empty()
                    + publishes_view(ps@));
                assert(handed_over(actions.take(1)) =~= discovery_publishes_view(s, node_id)
                    + reported_readings(s, actions.take(1).skip(1)));
            },
            _ => {},
        }
    } else {
        lemma_sensor_run_prefix(
            config,
            base_topic,
            node_id,
            value_text,
            raws,
            states,
            actions,
            n - 1,
        );
        let k = n - 1;
        assert(sensor_step_spec(
            config,
            base_topic,
            node_id,
            value_text,
            states[k],
            raws[k],
            states[k + 1],
            actions[k],
        ));
        assert(actions.take(n).drop_last() =~= actions.take(k));
        assert(actions.take(n).last() == actions[k]);
        assert(actions.take(n).skip(1).drop_last() =~= actions.take(k).skip(1));
        assert(actions.take(n).skip(1).last() == actions[k]);
        assert(raws.take(n).skip(1).drop_last() =~= raws.take(k).skip(1));
        assert(raws.take(n).skip(1).last() == raws[k]);
        let sleeps = if actions[k] is PublishReadings {
            1nat
        } else {
            0nat
        };
        let parsed = if parse_telegram_spec(raws[k]) is Ok {
            1nat
        } else {
            0nat
        };
        assert(interval_sleeps(actions.take(n)) == interval_sleeps(actions.take(k)) + sleeps);
        assert(parsed_count(raws.take(n).skip(1)) == parsed_count(raws.take(k).skip(1)) + parsed);
    }
}

/// A run of the sensor loop whose first telegram parses announces the meter
/// once, first, and then reports every telegram that parses: the messages
/// handed over are the discovery messages of the announced sensor followed by
/// the state messages of the reported telegrams, in order; each later
/// telegram that parses is reported (with its literals replaced by their
/// value texts) and each one that does not is skipped; the sensor stays the
/// same; discovery is never handed over again; and the loop sleeps for the
/// publish interval once after each reported telegram.
pub proof fn lemma_sensor_run<F: Fn(&str) -> String>(
    config: SensorConfig,
    base_topic: Seq<char>,
    node_id: Seq<char>,
    value_text: F,
    raws: Seq<Seq<u8>>,
    states: Seq<SensorState>,
    actions: Seq<SensorAction>,
)
    requires
        is_sensor_run(config, base_topic, node_id, value_text, raws, states, actions),
        raws.len() > 0,
        parse_telegram_spec(raws[0]) is Ok,
    ensures
        match states[1] {
            SensorState::Reporting(s) => {
                &&& announced_sensor(s, config, base_topic, parse_telegram_spec(raws[0])->Ok_0)
                &&& handed_over(actions) == discovery_publishes_view(s, node_id)
                    + reported_readings(s, actions.skip(1))
                &&& forall|i: int|
                    1 <= i < raws.len() ==> #[trigger] reports_or_skips(
                        value_text,
                        raws[i],
                        actions[i],
                    )
                &&& interval_sleeps(actions) == parsed_count(raws.skip(1))
                &&& forall|i: int| 1 <= i <= raws.len() ==> states[i] == SensorState::Reporting(s)
            },
            _ => false,
        },
{
    assert(sensor_step_spec(
        config,
        base_topic,
        node_id,
        value_text,
        states[0],
        raws[0],
        states[1],
        actions[0],
    ));
    lemma_sensor_run_prefix(
        config,
        base_topic,
        node_id,
        value_text,
        raws,
        states,
        actions,
        raws.len() as int,
    );
    assert(actions.take(raws.len() as int) =~= actions);
    assert(raws.take(raws.len() as int) =~= raws);
    match states[1] {
        SensorState::Reporting(s) => {
            assert forall|i: int| 1 <= i <= raws.len() implies states[i]
                == SensorState::Reporting(s) by {
                lemma_sensor_run_prefix(
                    config,
                    base_topic,
                    node_id,
                    value_text,
                    raws,
                    states,
                    actions,
                    i,
                );
            }
            assert forall|i: int| 1 <= i < raws.len() implies #[trigger] reports_or_skips(
                value_text,
                raws[i],
                actions[i],
            ) by {
                lemma_sensor_run_prefix(
                    config,
                    base_topic,
                    node_id,
                    value_text,
                    raws,
                    states,
                    actions,
                    i + 1,
                );
            }
        },
        _ => {},
    }
}

/// What happened last in the MQTT loop.
pub enum MqttEvent {
    /// A connection to the broker was established.
    ConnectSucceeded,
    /// Connecting to the broker failed.
    ConnectFailed,
    /// A message arrived from a sensor.
    MessageReceived(Publish),
    /// Every sensor has hung up: no message will arrive any more.
    ChannelClosed,
    /// The message was sent to the broker.
    PublishSucceeded,
    /// Sending the message to the broker failed.
    PublishFailed,
}

/// What the MQTT loop does next. The loop starts with `Connect`.
pub enum MqttAction {
    /// Connect to the broker.
    Connect,
    /// Sleep for the given number of seconds, then connect to the broker.
    SleepThenConnect(u64),
    /// Wait for the next message from the sensors.
    AwaitMessage,
    /// Send the message to the broker.
    Publish(Publish),
    /// Leave the loop.
    Shutdown,
}

/// What the MQTT loop does after `event`: retry a failed connect after a
/// delay, wait for messages while connected, publish each message that
/// arrives, reconnect when a publish fails, and shut down once the sensors
/// have hung up.
pub open spec fn mqtt_next(event: MqttEvent) -> MqttAction {
    match event {
        MqttEvent::ConnectSucceeded => MqttAction::AwaitMessage,
        MqttEvent::ConnectFailed => MqttAction::SleepThenConnect(MQTT_RECONNECT_DELAY_SECS),
        MqttEvent::MessageReceived(m) => MqttAction::Publish(m),
        MqttEvent::ChannelClosed => MqttAction::Shutdown,
        MqttEvent::PublishSucceeded => MqttAction::AwaitMessage,
        MqttEvent::PublishFailed => MqttAction::Connect,
    }
}

/// The step of the MQTT loop (see `mqtt_next`).
pub fn mqtt_step(event: MqttEvent) -> (a: MqttAction)
    ensures
        a == mqtt_next(event),
{
    match event {
        MqttEvent::ConnectSucceeded => MqttAction::AwaitMessage,
        MqttEvent::ConnectFailed => MqttAction::SleepThenConnect(MQTT_RECONNECT_DELAY_SECS),
        MqttEvent::MessageReceived(m) => MqttAction::Publish(m),
        MqttEvent::ChannelClosed => MqttAction::Shutdown,
        MqttEvent::PublishSucceeded => MqttAction::AwaitMessage,
        MqttEvent::PublishFailed => MqttAction::Connect,
    }
}

/// Whether `event` is an outcome of `action`: a connect (with or without the
/// delay before it) succeeds or fails, a wait yields a message or learns that
/// the sensors have hung up, and a publish succeeds or fails.
pub open spec fn answers(action: MqttAction, event: MqttEvent) -> bool {
    match action {
        MqttAction::Connect | MqttAction::SleepThenConnect(_) => event is ConnectSucceeded
            || event is ConnectFailed,
        MqttAction::AwaitMessage => event is MessageReceived || event is ChannelClosed,
        MqttAction::Publish(_) => event is PublishSucceeded || event is PublishFailed,
        MqttAction::Shutdown => false,
    }
}

/// A run of the MQTT loop: it starts with `Connect`, each event is an outcome
/// of the action before it, and each later action is the step's answer to
/// the event before it.
pub open spec fn is_mqtt_run(actions: Seq<MqttAction>, events: Seq<MqttEvent>) -> bool {
    &&& actions.len() == events.len() + 1
    &&& actions[0] == MqttAction::Connect
    &&& forall|i: int| 0 <= i < events.len() ==> #[trigger] answers(actions[i], events[i])
    &&& forall|i: int| 0 <= i < events.len() ==> actions[i + 1] == mqtt_next(#[trigger] events[i])
}

/// The messages that a sequence of actions publishes, in order.
pub open spec fn published_messages(actions: Seq<MqttAction>) -> Seq<Publish>
    decreases actions.len(),
{
    if actions.len() == 0 {
        Seq::empty()
    } else {
        published_messages(actions.drop_last()) + match actions.last() {
            MqttAction::Publish(m) => seq![m],
            _ => Seq::empty(),
        }
    }
}

/// The messages that arrive in a sequence of events, in order.
pub open spec fn received_messages(events: Seq<MqttEvent>) -> Seq<Publish>
    decreases events.len(),
{
    if events.len() == 0 {
        Seq::empty()
    } else {
        received_messages(events.drop_last()) + match events.last() {
            MqttEvent::MessageReceived(m) => seq![m],
            _ => Seq::empty(),
        }
    }
}

/// A failed connect is retried after the reconnect delay, each time: where
/// the first `k` connects of a run fail and the next one succeeds, the loop
/// connects, then sleeps `MQTT_RECONNECT_DELAY_SECS` seconds before each of
/// the `k` retries, and once connected waits for messages without sleeping.
pub proof fn lemma_connect_retried(actions: Seq<MqttAction>, events: Seq<MqttEvent>, k: nat)
    requires
        is_mqtt_run(actions, events),
        events.len() == k + 1,
        forall|i: int| 0 <= i < k ==> #[trigger] events[i] is ConnectFailed,
        events[k as int] is ConnectSucceeded,
    ensures
        actions[0] == MqttAction::Connect,
        forall|i: int|
            1 <= i <= k ==> #[trigger] actions[i] == MqttAction::SleepThenConnect(
                MQTT_RECONNECT_DELAY_SECS,
            ),
        actions[k + 1 as int] is AwaitMessage,
{
    assert forall|i: int| 1 <= i <= k implies #[trigger] actions[i] == MqttAction::SleepThenConnect(
        MQTT_RECONNECT_DELAY_SECS,
    ) by {
        assert(events[i - 1] is ConnectFailed);
        assert(actions[(i - 1) + 1] == mqtt_next(events[i - 1]));
    }
    assert(actions[k + 1 as int] == mqtt_next(events[k as int]));
}

/// Every message that arrives is published exactly once, in the order of
/// arrival, whatever becomes of the publish: a message whose publish fails is
/// not sent again (the loop reconnects and waits for the next message).
pub proof fn lemma_each_message_published_once(actions: Seq<MqttAction>, events: Seq<MqttEvent>)
    requires
        is_mqtt_run(actions, events),
    ensures
        published_messages(actions) == received_messages(events),
    decreases events.len(),
{
    if events.len() == 0 {
        assert(actions.drop_last() =~= Seq::<MqttAction>::empty());
        assert(actions.last() == MqttAction::Connect);
        assert(published_messages(actions.drop_last()) =~= Seq::<Publish>::empty());
        assert(published_messages(actions) =~= Seq::<Publish>::empty());
    } else {
        let n = events.len() - 1;
        let a = actions.drop_last();
        let e = events.drop_last();
        assert forall|i: int| 0 <= i < e.len() implies #[trigger] answers(a[i], e[i]) by {
            assert(answers(actions[i], events[i]));
        }
        assert forall|i: int| 0 <= i < e.len() implies a[i + 1] == mqtt_next(#[trigger] e[i]) by {
            assert(actions[i + 1] == mqtt_next(events[i]));
        }
        lemma_each_message_published_once(a, e);
        assert(actions.last() == mqtt_next(events[n]));
    }
}

/// The loop shuts down exactly when the sensors have hung up, and reconnects
/// exactly after a failed publish: in a run, the action after an event is
/// `Shutdown` exactly when the event is `ChannelClosed`, and `Connect`
/// exactly when it is `PublishFailed`.
pub proof fn lemma_shutdown_and_reconnect(actions: Seq<MqttAction>, events: Seq<MqttEvent>, i: int)
    requires
        is_mqtt_run(actions, events),
        0 <= i < events.len(),
    ensures
        actions[i + 1] is Shutdown <==> events[i] is ChannelClosed,
        actions[i + 1] is Connect <==> events[i] is PublishFailed,
{
    assert(actions[i + 1] == mqtt_next(events[i]));
}

} // verus!
